use portside::metadata::{LoadOptions, Workspace};
use portside::raw;
use portside::StringHashSet;
use portside::{DepKind, TargetKind};

fn s(text: &str) -> String {
    text.to_string()
}

fn target(name: &str, kinds: &[&str], src_path: &str) -> raw::Target {
    raw::Target {
        name: s(name),
        kind: kinds.iter().map(|k| s(k)).collect(),
        src_path: s(src_path),
    }
}

fn dep(name: &str, req: &str, features: &[&str], kind: Option<&str>) -> raw::Dependency {
    raw::Dependency {
        name: s(name),
        req: s(req),
        features: features.iter().map(|f| s(f)).collect(),
        rename: None,
        kind: kind.map(s),
    }
}

const CORE_ID: &str = "core 0.1.0 (path+file:///core)";
const APP_ID: &str = "app 0.1.0 (path+file:///app)";

/// The `cargo metadata` fixture: a lib `core` and a bin `app` that depends on it.
fn fixture(with_resolve: bool) -> raw::Metadata {
    let core = raw::Package {
        id: s(CORE_ID),
        name: s("core"),
        description: None,
        edition: Some(s("2021")),
        license: Some(s("MIT")),
        manifest_path: s("/ws/core/Cargo.toml"),
        targets: vec![target("core", &["lib"], "/ws/core/src/lib.rs")],
        dependencies: vec![],
    };
    let app = raw::Package {
        id: s(APP_ID),
        name: s("app"),
        description: Some(s("the app")),
        edition: Some(s("2021")),
        license: None,
        manifest_path: s("/ws/app/Cargo.toml"),
        targets: vec![target("app", &["bin"], "/ws/app/src/main.rs")],
        dependencies: vec![
            dep("core", "*", &[], None),
            dep("serde", "^1", &["derive"], None),
            dep("tempfile", "^3", &[], Some("dev")),
        ],
    };
    let resolve = raw::Resolve {
        nodes: vec![
            raw::Node { id: s(CORE_ID), deps: vec![] },
            raw::Node {
                id: s(APP_ID),
                deps: vec![raw::NodeDep {
                    pkg: s(CORE_ID),
                    dep_kinds: vec![raw::DepKind { kind: None }],
                }],
            },
        ],
    };
    raw::Metadata {
        packages: vec![core, app],
        workspace_members: vec![s(CORE_ID), s(APP_ID)],
        workspace_root: s("/ws"),
        target_directory: s("/ws/target"),
        resolve: if with_resolve { Some(resolve) } else { None },
    }
}

fn ws() -> Workspace {
    Workspace::from_metadata(&fixture(true))
}

#[test]
fn discovers_members_and_roots() {
    let ws = ws();
    assert_eq!(ws.members.len(), 2);
    let app = ws.member("app").expect("app present");
    assert_eq!(app.crate_root().unwrap(), "/ws/app/src/main.rs");
    assert_eq!(app.src_dir().unwrap(), "/ws/app/src");
    assert_eq!(app.description.as_deref(), Some("the app"));
    assert_eq!(app.edition, "2021");
    let core = ws.member("core").expect("core present");
    assert_eq!(core.crate_root().unwrap(), "/ws/core/src/lib.rs");
    assert_eq!(core.license.as_deref(), Some("MIT"));
}

#[test]
fn dependency_kinds_and_idents() {
    let app = ws();
    let app = app.member("app").unwrap();
    let serde = app.dependencies.iter().find(|d| d.name == "serde").unwrap();
    assert_eq!(serde.features, vec!["derive"]);
    assert!(serde.is_normal());
    assert_eq!(serde.extern_ident(), "serde");
    let dev = app
        .dependencies
        .iter()
        .find(|d| d.name == "tempfile")
        .unwrap();
    assert_eq!(dev.kind, DepKind::Dev);
    assert!(!dev.is_normal());
}

#[test]
fn linked_members_follows_the_graph() {
    let ws = ws();
    let app_id = "app 0.1.0 (path+file:///app)";
    let linked = ws.linked_members(app_id).expect("resolve graph present");
    assert!(linked.contains(app_id));
    assert!(linked.contains("core 0.1.0 (path+file:///core)"));
}

#[test]
fn linked_members_is_none_without_resolve() {
    // Same fixture minus the resolve graph.
    let ws = Workspace::from_metadata(&fixture(false));
    assert!(ws.linked_members("app 0.1.0 (path+file:///app)").is_none());
}

#[test]
fn workspace_root_and_target_dir_are_kept() {
    let ws = ws();
    assert_eq!(ws.root, "/ws");
    assert_eq!(ws.target_dir, "/ws/target");
}

#[test]
fn non_members_are_left_out_in_package_order() {
    let mut meta = fixture(true);
    meta.workspace_members = vec![s(APP_ID)];
    let ws = Workspace::from_metadata(&meta);
    assert_eq!(ws.members.len(), 1);
    assert_eq!(ws.members[0].name, "app");
    assert!(ws.member("core").is_none());
    // `core` is no member, so the edge to it is dropped.
    let linked = ws.linked_members(APP_ID).unwrap();
    assert_eq!(linked.len(), 1);
    assert!(linked.contains(APP_ID));
    assert!(!linked.contains(CORE_ID));
}

#[test]
fn core_links_only_itself() {
    let ws = ws();
    let linked = ws.linked_members(CORE_ID).unwrap();
    assert_eq!(linked.len(), 1);
    assert!(linked.contains(CORE_ID));
}

#[test]
fn an_unknown_id_links_only_itself() {
    let ws = ws();
    let linked = ws.linked_members("nope").unwrap();
    assert_eq!(linked.len(), 1);
    assert!(linked.contains("nope"));
}

#[test]
fn linked_members_is_transitive_and_skips_dev_edges() {
    let ids = ["a", "b", "c", "d"];
    let pkgs: Vec<raw::Package> = ids
        .iter()
        .map(|id| raw::Package {
            id: s(id),
            name: s(id),
            description: None,
            edition: None,
            license: None,
            manifest_path: format!("/ws/{id}/Cargo.toml"),
            targets: vec![],
            dependencies: vec![],
        })
        .collect();
    let edge = |pkg: &str, kinds: Vec<Option<&str>>| raw::NodeDep {
        pkg: s(pkg),
        dep_kinds: kinds.into_iter().map(|k| raw::DepKind { kind: k.map(s) }).collect(),
    };
    let meta = raw::Metadata {
        packages: pkgs,
        workspace_members: ids.iter().map(|i| s(i)).collect(),
        workspace_root: s("/ws"),
        target_directory: s("/ws/target"),
        resolve: Some(raw::Resolve {
            nodes: vec![
                // a -> b (normal), a -> d (dev only)
                raw::Node { id: s("a"), deps: vec![edge("b", vec![None]), edge("d", vec![Some("dev")])] },
                // b -> c (dev and build: kept), c -> a (no kinds listed: kept)
                raw::Node { id: s("b"), deps: vec![edge("c", vec![Some("dev"), Some("build")])] },
                raw::Node { id: s("c"), deps: vec![edge("a", vec![])] },
                raw::Node { id: s("d"), deps: vec![] },
            ],
        }),
    };
    let ws = Workspace::from_metadata(&meta);
    let linked = ws.linked_members("a").unwrap();
    assert_eq!(linked.len(), 3);
    assert!(linked.contains("a") && linked.contains("b") && linked.contains("c"));
    assert!(!linked.contains("d"));
    let from_d = ws.linked_members("d").unwrap();
    assert_eq!(from_d.len(), 1);
}

#[test]
fn edition_defaults_to_2015_and_manifest_dir_is_the_parent() {
    let mut meta = fixture(true);
    meta.packages[0].edition = None;
    let ws = Workspace::from_metadata(&meta);
    let core = ws.member("core").unwrap();
    assert_eq!(core.edition, "2015");
    assert_eq!(core.manifest_dir, "/ws/core");
    let manifest = core.manifest_path();
    assert!(manifest.starts_with("/ws/core"));
    assert!(manifest.ends_with("Cargo.toml"));
    assert!(manifest.len() > "/ws/core".len() + "Cargo.toml".len());
    assert_eq!(core.id, CORE_ID);
}

#[test]
fn bin_wins_over_lib_in_a_targets_kinds() {
    let t = portside::metadata::target_from_raw(&target("x", &["lib", "bin"], "/x.rs"));
    assert_eq!(t.kind, TargetKind::Bin);
    let t = portside::metadata::target_from_raw(&target("x", &["cdylib", "lib"], "/x.rs"));
    assert_eq!(t.kind, TargetKind::Lib);
    let t = portside::metadata::target_from_raw(&target("x", &["test"], "/x.rs"));
    assert_eq!(t.kind, TargetKind::Other);
    assert_eq!(t.name, "x");
    assert_eq!(t.src_path, "/x.rs");
}

#[test]
fn dependency_kinds_map_dev_build_and_normal() {
    let d = portside::metadata::dep_from_raw(&dep("a", "^1", &[], Some("build")));
    assert_eq!(d.kind, DepKind::Build);
    let d = portside::metadata::dep_from_raw(&dep("a", "^1", &[], Some("other")));
    assert_eq!(d.kind, DepKind::Normal);
    assert!(d.is_normal());
    assert_eq!(d.req, "^1");
}

#[test]
fn crate_root_prefers_the_lib_and_falls_back_to_the_first_bin() {
    let mut meta = fixture(true);
    meta.packages[1].targets = vec![
        target("tool", &["bin"], "/ws/app/src/bin/tool.rs"),
        target("app", &["lib"], "/ws/app/src/lib.rs"),
        target("other", &["bin"], "/ws/app/src/main.rs"),
    ];
    let ws = Workspace::from_metadata(&meta);
    let app = ws.member("app").unwrap();
    assert_eq!(app.crate_root().unwrap(), "/ws/app/src/lib.rs");
    assert_eq!(app.bin_target().unwrap().name, "tool");
    assert_eq!(app.lib_target().unwrap().name, "app");
    meta.packages[1].targets = vec![target("b", &["test"], "/t.rs")];
    let ws = Workspace::from_metadata(&meta);
    let app = ws.member("app").unwrap();
    assert!(app.crate_root().is_none());
    assert!(app.src_dir().is_none());
    assert!(app.bin_target().is_none());
}

#[test]
fn extern_ident_prefers_rename_then_underscores() {
    let mut d = portside::metadata::dep_from_raw(&dep("serde-json-x", "*", &[], None));
    assert_eq!(d.extern_ident(), "serde_json_x");
    d.rename = Some(s("sj"));
    assert_eq!(d.extern_ident(), "sj");
}

#[test]
fn has_dependency_checks_names() {
    let ws = ws();
    let app = ws.member("app").unwrap();
    assert!(app.has_dependency("serde"));
    assert!(app.has_dependency("tempfile"));
    assert!(!app.has_dependency("tokio"));
    assert!(!ws.member("core").unwrap().has_dependency("serde"));
}

#[test]
fn member_edges_drops_non_members_and_dev_only_edges() {
    let meta = fixture(true);
    let mut members = StringHashSet::new();
    members.insert(s(APP_ID));
    members.insert(s(CORE_ID));
    let mut resolve = meta.resolve.unwrap();
    resolve.nodes[1].deps.push(raw::NodeDep {
        pkg: s("serde 1.0.0"),
        dep_kinds: vec![raw::DepKind { kind: None }],
    });
    resolve.nodes[1].deps.push(raw::NodeDep {
        pkg: s(CORE_ID),
        dep_kinds: vec![raw::DepKind { kind: Some(s("dev")) }],
    });
    let edges = portside::metadata::member_edges(&resolve, &members);
    assert_eq!(edges.len(), 2);
    assert_eq!(edges.get(APP_ID).unwrap(), &vec![s(CORE_ID)]);
    assert!(edges.get(CORE_ID).unwrap().is_empty());
}

#[test]
fn cargo_args_follow_the_options() {
    let plain = LoadOptions::default().cargo_args();
    assert_eq!(plain, vec!["metadata", "--format-version", "1", "--no-deps"]);
    let resolved = LoadOptions { manifest_path: Some(s("/ws/Cargo.toml")), resolve: true }.cargo_args();
    assert_eq!(
        resolved,
        vec!["metadata", "--format-version", "1", "--manifest-path", "/ws/Cargo.toml"]
    );
}
