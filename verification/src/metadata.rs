//! Workspace discovery: turn `cargo metadata` output into a small,
//! tool-agnostic model — the members, their targets and declared
//! dependencies, and (optionally) the resolved member dependency graph.

use vstd::prelude::*;
use vstd::hash_map::StringHashMap;
use vstd::hash_set::StringHashSet;

use crate::paths::{path_join, path_parent, spec_path_join, spec_path_parent};
use crate::raw;

verus! {

// --- the model ----------------------------------------------------------

/// A workspace member package.
pub struct Package {
    pub id: String,
    pub name: String,
    /// The directory holding the crate's `Cargo.toml`.
    pub manifest_dir: String,
    pub description: Option<String>,
    pub edition: String,
    pub license: Option<String>,
    pub targets: Vec<Target>,
    pub dependencies: Vec<Dependency>,
}

/// A build target of a package (a bin, the lib, …).
pub struct Target {
    pub name: String,
    pub kind: TargetKind,
    pub src_path: String,
}

/// What a target builds.
#[derive(Clone, Copy, PartialEq, Eq, Debug, Structural)]
pub enum TargetKind {
    Bin,
    Lib,
    Other,
}

/// A declared dependency.
pub struct Dependency {
    pub name: String,
    pub rename: Option<String>,
    pub req: String,
    pub features: Vec<String>,
    pub kind: DepKind,
}

/// Under which section a dependency is declared.
#[derive(Clone, Copy, PartialEq, Eq, Debug, Structural)]
pub enum DepKind {
    Normal,
    Dev,
    Build,
}

// --- views of text --------------------------------------------------------

/// The text an optional string holds.
pub open spec fn opt_text(o: Option<String>) -> Option<Seq<char>> {
    match o {
        Some(s) => Some(s@),
        None => None,
    }
}

/// The texts of a list of strings.
pub open spec fn texts(v: Seq<String>) -> Seq<Seq<char>> {
    v.map_values(|s: String| s@)
}

/// Whether `s` occurs among `list`.
pub open spec fn lists_text(list: Seq<String>, s: Seq<char>) -> bool {
    exists|i: int| 0 <= i < list.len() && (#[trigger] list[i])@ == s
}

// --- how the model is built from raw metadata -----------------------------

/// A target is a bin if cargo lists `"bin"` among its kinds, else a lib if it
/// lists `"lib"`, else something else.
pub open spec fn target_kind_of(kinds: Seq<String>) -> TargetKind {
    if lists_text(kinds, "bin"@) {
        TargetKind::Bin
    } else if lists_text(kinds, "lib"@) {
        TargetKind::Lib
    } else {
        TargetKind::Other
    }
}

/// `"dev"` and `"build"` name their sections; anything else, or no kind, is normal.
pub open spec fn dep_kind_of(kind: Option<String>) -> DepKind {
    match kind {
        Some(k) => if k@ == "dev"@ {
            DepKind::Dev
        } else if k@ == "build"@ {
            DepKind::Build
        } else {
            DepKind::Normal
        },
        None => DepKind::Normal,
    }
}

/// The directory of a manifest path: its parent, or empty text if it has none.
pub open spec fn manifest_dir_of(manifest_path: Seq<char>) -> Seq<char> {
    match spec_path_parent(manifest_path) {
        Some(dir) => dir,
        None => Seq::empty(),
    }
}

/// The edition cargo reports, or `"2015"` when it reports none.
pub open spec fn edition_of(edition: Option<String>) -> Seq<char> {
    match edition {
        Some(e) => e@,
        None => "2015"@,
    }
}

/// `t` is the model of the raw target `r`.
pub open spec fn target_built_from(t: Target, r: raw::Target) -> bool {
    &&& t.name@ == r.name@
    &&& t.kind == target_kind_of(r.kind@)
    &&& t.src_path@ == r.src_path@
}

/// `d` is the model of the raw dependency `r`.
pub open spec fn dependency_built_from(d: Dependency, r: raw::Dependency) -> bool {
    &&& d.name@ == r.name@
    &&& opt_text(d.rename) == opt_text(r.rename)
    &&& d.req@ == r.req@
    &&& texts(d.features@) == texts(r.features@)
    &&& d.kind == dep_kind_of(r.kind)
}

/// `p` is the model of the raw package `r`: the same fields, the manifest's
/// directory, the edition defaulted, and every target and dependency converted
/// in order.
pub open spec fn package_built_from(p: Package, r: raw::Package) -> bool {
    &&& p.id@ == r.id@
    &&& p.name@ == r.name@
    &&& p.manifest_dir@ == manifest_dir_of(r.manifest_path@)
    &&& opt_text(p.description) == opt_text(r.description)
    &&& p.edition@ == edition_of(r.edition)
    &&& opt_text(p.license) == opt_text(r.license)
    &&& p.targets@.len() == r.targets@.len()
    &&& forall|i: int|
        0 <= i < r.targets@.len() ==> target_built_from(#[trigger] p.targets@[i], r.targets@[i])
    &&& p.dependencies@.len() == r.dependencies@.len()
    &&& forall|i: int|
        0 <= i < r.dependencies@.len() ==> dependency_built_from(
            #[trigger] p.dependencies@[i],
            r.dependencies@[i],
        )
}

// --- small exec helpers ---------------------------------------------------

fn same_text(a: &String, b: &String) -> (same: bool)
    ensures
        same == (a@ == b@),
{
    a.eq(b)
}

fn clone_opt_text(o: &Option<String>) -> (c: Option<String>)
    ensures
        opt_text(c) == opt_text(*o),
{
    match o {
        Some(s) => Some(s.clone()),
        None => None,
    }
}

fn clone_texts(v: &Vec<String>) -> (c: Vec<String>)
    ensures
        c@ == v@,
{
    let mut c: Vec<String> = Vec::new();
    let mut i: usize = 0;
    while i < v.len()
        invariant
            i <= v@.len(),
            c@ == v@.take(i as int),
        decreases v@.len() - i,
    {
        c.push(v[i].clone());
        i = i + 1;
        assert(c@ =~= v@.take(i as int));
    }
    assert(v@.take(v@.len() as int) =~= v@);
    c
}

fn lists(list: &Vec<String>, s: &String) -> (found: bool)
    ensures
        found == lists_text(list@, s@),
{
    let mut i: usize = 0;
    while i < list.len()
        invariant
            i <= list@.len(),
            forall|j: int| 0 <= j < i ==> (#[trigger] list@[j])@ != s@,
        decreases list@.len() - i,
    {
        if same_text(&list[i], s) {
            return true;
        }
        i = i + 1;
    }
    false
}

// --- conversions ----------------------------------------------------------

/// The model of a raw target.
pub fn target_from_raw(t: &raw::Target) -> (target: Target)
    ensures
        target_built_from(target, *t),
        target.kind == TargetKind::Lib ==> exists|i: int|
            0 <= i < t.kind@.len() && (#[trigger] t.kind@[i])@ == "lib"@,
        !(exists|i: int| 0 <= i < t.kind@.len() && (#[trigger] t.kind@[i])@ == "bin"@) && !(exists|
            i: int,
        | 0 <= i < t.kind@.len() && (#[trigger] t.kind@[i])@ == "lib"@) ==> target.kind
            == TargetKind::Other,
{
    proof {
        lemma_target_kind_of(t.kind@);
    }
    let bin = String::from_str("bin");
    let lib = String::from_str("lib");
    let kind = if lists(&t.kind, &bin) {
        TargetKind::Bin
    } else if lists(&t.kind, &lib) {
        TargetKind::Lib
    } else {
        TargetKind::Other
    };
    Target { name: t.name.clone(), kind, src_path: t.src_path.clone() }
}

/// The model of a raw dependency.
pub fn dep_from_raw(d: &raw::Dependency) -> (dep: Dependency)
    ensures
        dependency_built_from(dep, *d),
{
    let kind = match &d.kind {
        Some(k) => {
            let dev = String::from_str("dev");
            let build = String::from_str("build");
            if same_text(k, &dev) {
                DepKind::Dev
            } else if same_text(k, &build) {
                DepKind::Build
            } else {
                DepKind::Normal
            }
        },
        None => DepKind::Normal,
    };
    let features = clone_texts(&d.features);
    Dependency {
        name: d.name.clone(),
        rename: clone_opt_text(&d.rename),
        req: d.req.clone(),
        features,
        kind,
    }
}

/// The model of a raw package.
pub fn package_from_raw(p: &raw::Package) -> (package: Package)
    ensures
        package_built_from(package, *p),
{
    let manifest_dir = match path_parent(p.manifest_path.as_str()) {
        Some(dir) => dir,
        None => String::new(),
    };
    let edition = match &p.edition {
        Some(e) => e.clone(),
        None => String::from_str("2015"),
    };
    let mut targets: Vec<Target> = Vec::new();
    let mut i: usize = 0;
    while i < p.targets.len()
        invariant
            i <= p.targets@.len(),
            targets@.len() == i,
            forall|j: int| 0 <= j < i ==> target_built_from(#[trigger] targets@[j], p.targets@[j]),
        decreases p.targets@.len() - i,
    {
        targets.push(target_from_raw(&p.targets[i]));
        i = i + 1;
    }
    let mut dependencies: Vec<Dependency> = Vec::new();
    let mut k: usize = 0;
    while k < p.dependencies.len()
        invariant
            k <= p.dependencies@.len(),
            dependencies@.len() == k,
            forall|j: int|
                0 <= j < k ==> dependency_built_from(#[trigger] dependencies@[j], p.dependencies@[j]),
        decreases p.dependencies@.len() - k,
    {
        dependencies.push(dep_from_raw(&p.dependencies[k]));
        k = k + 1;
    }
    Package {
        id: p.id.clone(),
        name: p.name.clone(),
        manifest_dir,
        description: clone_opt_text(&p.description),
        edition,
        license: clone_opt_text(&p.license),
        targets,
        dependencies,
    }
}

// --- the member graph -----------------------------------------------------

/// A resolved edge entry marks a dev-only declaration.
pub open spec fn is_dev_marker(k: raw::DepKind) -> bool {
    k.kind matches Some(s) && s@ == "dev"@
}

/// A resolved edge is kept when it leads to a workspace member and is not
/// dev-only: it lists no kinds at all, or some kind other than `"dev"`.
pub open spec fn keeps_edge(d: raw::NodeDep, members: Set<Seq<char>>) -> bool {
    &&& members.contains(d.pkg@)
    &&& (d.dep_kinds@.len() == 0 || exists|k: int|
        0 <= k < d.dep_kinds@.len() && !is_dev_marker(#[trigger] d.dep_kinds@[k]))
}

/// The targets of the kept edges among `deps`, in order.
pub open spec fn edge_targets(deps: Seq<raw::NodeDep>, members: Set<Seq<char>>) -> Seq<Seq<char>>
    decreases deps.len(),
{
    if deps.len() == 0 {
        Seq::empty()
    } else {
        let rest = edge_targets(deps.drop_last(), members);
        if keeps_edge(deps.last(), members) {
            rest.push(deps.last().pkg@)
        } else {
            rest
        }
    }
}

/// Direct member→member edges: for each resolved node that is a member, its
/// kept edge targets (a node listed twice keeps its last entry).
pub open spec fn member_edge_map(nodes: Seq<raw::Node>, members: Set<Seq<char>>) -> Map<
    Seq<char>,
    Seq<Seq<char>>,
>
    decreases nodes.len(),
{
    if nodes.len() == 0 {
        Map::empty()
    } else {
        let earlier = member_edge_map(nodes.drop_last(), members);
        let n = nodes.last();
        if members.contains(n.id@) {
            earlier.insert(n.id@, edge_targets(n.deps@, members))
        } else {
            earlier
        }
    }
}

/// The graph held by a map from node to its direct successors.
pub open spec fn graph_of(m: Map<Seq<char>, Vec<String>>) -> Map<Seq<char>, Seq<Seq<char>>> {
    Map::new(|k: Seq<char>| m.contains_key(k), |k: Seq<char>| texts(m[k]@))
}

fn keeps(d: &raw::NodeDep, members: &StringHashSet) -> (keep: bool)
    ensures
        keep == keeps_edge(*d, members@),
{
    if !members.contains(d.pkg.as_str()) {
        return false;
    }
    if d.dep_kinds.len() == 0 {
        return true;
    }
    let dev = String::from_str("dev");
    let mut k: usize = 0;
    while k < d.dep_kinds.len()
        invariant
            k <= d.dep_kinds@.len(),
            dev@ == "dev"@,
            members@.contains(d.pkg@),
            forall|j: int| 0 <= j < k ==> is_dev_marker(#[trigger] d.dep_kinds@[j]),
        decreases d.dep_kinds@.len() - k,
    {
        let dev_only = match &d.dep_kinds[k].kind {
            Some(s) => same_text(s, &dev),
            None => false,
        };
        if !dev_only {
            assert(!is_dev_marker(d.dep_kinds@[k as int]));
            return true;
        }
        k = k + 1;
    }
    false
}

/// Direct member→member edges of the resolved graph (dev-only edges dropped,
/// since they don't affect a built artifact).
pub fn member_edges(resolve: &raw::Resolve, members: &StringHashSet) -> (edges: StringHashMap<
    Vec<String>,
>)
    ensures
        graph_of(edges@) == member_edge_map(resolve.nodes@, members@),
        edges@.dom().finite(),
{
    let mut edges: StringHashMap<Vec<String>> = StringHashMap::new();
    let mut i: usize = 0;
    while i < resolve.nodes.len()
        invariant
            i <= resolve.nodes@.len(),
            graph_of(edges@) == member_edge_map(resolve.nodes@.take(i as int), members@),
            edges@.dom().finite(),
        decreases resolve.nodes@.len() - i,
    {
        let node = &resolve.nodes[i];
        proof {
            assert(resolve.nodes@.take(i + 1).drop_last() =~= resolve.nodes@.take(i as int));
        }
        if members.contains(node.id.as_str()) {
            let mut deps: Vec<String> = Vec::new();
            let mut k: usize = 0;
            while k < node.deps.len()
                invariant
                    k <= node.deps@.len(),
                    texts(deps@) == edge_targets(node.deps@.take(k as int), members@),
                decreases node.deps@.len() - k,
            {
                proof {
                    assert(node.deps@.take(k + 1).drop_last() =~= node.deps@.take(k as int));
                }
                if keeps(&node.deps[k], members) {
                    deps.push(node.deps[k].pkg.clone());
                    assert(texts(deps@) =~= edge_targets(node.deps@.take(k + 1), members@));
                }
                k = k + 1;
            }
            assert(node.deps@.take(node.deps@.len() as int) =~= node.deps@);
            edges.insert(node.id.clone(), deps);
            assert(graph_of(edges@) =~= member_edge_map(resolve.nodes@.take(i + 1), members@));
        }
        i = i + 1;
    }
    assert(resolve.nodes@.take(resolve.nodes@.len() as int) =~= resolve.nodes@);
    edges
}

// --- the workspace --------------------------------------------------------

/// The direct member→member edges of a workspace, as a map from a member's id
/// to the ids of the members it links. Built only by [`Workspace::from_metadata`].
pub struct MemberGraph {
    edges: StringHashMap<Vec<String>>,
}

impl MemberGraph {
    /// The graph names finitely many nodes.
    #[verifier::type_invariant]
    spec fn finitely_many_nodes(self) -> bool {
        self.edges@.dom().finite()
    }
}

/// A discovered workspace.
pub struct Workspace {
    pub root: String,
    /// The real target directory (honours `CARGO_TARGET_DIR`).
    pub target_dir: String,
    pub members: Vec<Package>,
    /// Member id → its direct workspace-member dependencies (dev edges dropped);
    /// `None` unless the resolved graph was loaded.
    pub member_edges: Option<MemberGraph>,
}

/// The ids the metadata lists as workspace members.
pub open spec fn member_ids(meta: raw::Metadata) -> Set<Seq<char>> {
    Set::new(|id: Seq<char>| lists_text(meta.workspace_members@, id))
}

/// The packages whose id is among `ids`, in order.
pub open spec fn selected_packages(pkgs: Seq<raw::Package>, ids: Set<Seq<char>>) -> Seq<
    raw::Package,
>
    decreases pkgs.len(),
{
    if pkgs.len() == 0 {
        Seq::empty()
    } else {
        let rest = selected_packages(pkgs.drop_last(), ids);
        if ids.contains(pkgs.last().id@) {
            rest.push(pkgs.last())
        } else {
            rest
        }
    }
}

/// `ms` are the models of the raw packages `rs`, one for one and in order.
pub open spec fn packages_built_from(ms: Seq<Package>, rs: Seq<raw::Package>) -> bool {
    &&& ms.len() == rs.len()
    &&& forall|i: int| 0 <= i < rs.len() ==> package_built_from(#[trigger] ms[i], rs[i])
}

/// The member graph that the metadata's resolve section gives, if it has one.
pub open spec fn resolved_graph(meta: raw::Metadata) -> Option<Map<Seq<char>, Seq<Seq<char>>>> {
    match meta.resolve {
        Some(r) => Some(member_edge_map(r.nodes@, member_ids(meta))),
        None => None,
    }
}

impl Workspace {
    /// The member graph of the workspace, if the resolved graph was loaded.
    pub closed spec fn member_graph(self) -> Option<Map<Seq<char>, Seq<Seq<char>>>> {
        match self.member_edges {
            Some(g) => Some(graph_of(g.edges@)),
            None => None,
        }
    }

    /// Build the workspace model from `cargo metadata` output: the root and
    /// target directory, the member packages (those whose id the metadata
    /// lists as a workspace member, in package order), and, when the resolve
    /// section is present, the member graph.
    pub fn from_metadata(meta: &raw::Metadata) -> (ws: Workspace)
        ensures
            ws.root@ == meta.workspace_root@,
            ws.target_dir@ == meta.target_directory@,
            packages_built_from(ws.members@, selected_packages(meta.packages@, member_ids(*meta))),
            ws.member_graph() == resolved_graph(*meta),
    {
        let ghost ids = member_ids(*meta);
        let mut member_set = StringHashSet::new();
        let mut i: usize = 0;
        while i < meta.workspace_members.len()
            invariant
                i <= meta.workspace_members@.len(),
                forall|id: Seq<char>|
                    member_set@.contains(id) <==> lists_text(
                        meta.workspace_members@.take(i as int),
                        id,
                    ),
            decreases meta.workspace_members@.len() - i,
        {
            let ghost before = member_set@;
            member_set.insert(meta.workspace_members[i].clone());
            proof {
                let wm = meta.workspace_members@;
                assert forall|id: Seq<char>|
                    member_set@.contains(id) <==> lists_text(wm.take(i + 1), id) by {
                    if lists_text(wm.take(i + 1), id) {
                        let j = choose|j: int|
                            0 <= j < wm.take(i + 1).len() && (#[trigger] wm.take(i + 1)[j])@ == id;
                        if j < i {
                            assert(wm.take(i as int)[j] == wm.take(i + 1)[j]);
                        }
                    }
                    if before.contains(id) {
                        let j = choose|j: int|
                            0 <= j < wm.take(i as int).len() && (#[trigger] wm.take(i as int)[j])@
                                == id;
                        assert(wm.take(i + 1)[j] == wm.take(i as int)[j]);
                    }
                    if id == wm[i as int]@ {
                        assert(wm.take(i + 1)[i as int] == wm[i as int]);
                    }
                }
            }
            i = i + 1;
        }
        proof {
            assert(meta.workspace_members@.take(meta.workspace_members@.len() as int)
                =~= meta.workspace_members@);
            assert(member_set@ =~= ids);
        }
        let mut members: Vec<Package> = Vec::new();
        let mut k: usize = 0;
        while k < meta.packages.len()
            invariant
                k <= meta.packages@.len(),
                member_set@ == ids,
                packages_built_from(members@, selected_packages(meta.packages@.take(k as int), ids)),
            decreases meta.packages@.len() - k,
        {
            proof {
                assert(meta.packages@.take(k + 1).drop_last() =~= meta.packages@.take(k as int));
            }
            if member_set.contains(meta.packages[k].id.as_str()) {
                members.push(package_from_raw(&meta.packages[k]));
            }
            k = k + 1;
        }
        proof {
            assert(meta.packages@.take(meta.packages@.len() as int) =~= meta.packages@);
        }
        let member_edges = match &meta.resolve {
            Some(r) => Some(MemberGraph { edges: member_edges(r, &member_set) }),
            None => None,
        };
        Workspace {
            root: meta.workspace_root.clone(),
            target_dir: meta.target_directory.clone(),
            members,
            member_edges,
        }
    }
}

// --- transitive closure of the member graph -------------------------------

/// `path` is a walk through `g`: one or more nodes, each after the first a
/// direct successor of the one before.
pub open spec fn is_walk(g: Map<Seq<char>, Seq<Seq<char>>>, path: Seq<Seq<char>>) -> bool {
    &&& path.len() >= 1
    &&& forall|i: int|
        0 <= i < path.len() - 1 ==> g.contains_key(#[trigger] path[i]) && g[path[i]].contains(
            path[i + 1],
        )
}

/// `to` can be reached from `from` in zero or more steps through `g`.
pub open spec fn reachable(g: Map<Seq<char>, Seq<Seq<char>>>, from: Seq<char>, to: Seq<char>) -> bool {
    exists|path: Seq<Seq<char>>| #[trigger] is_walk(g, path) && path[0] == from && path.last() == to
}

/// Every node reaches itself.
pub proof fn lemma_reachable_refl(g: Map<Seq<char>, Seq<Seq<char>>>, a: Seq<char>)
    ensures
        reachable(g, a, a),
{
    let path = seq![a];
    assert(is_walk(g, path));
}

/// A reachable node's direct successors are reachable too.
pub proof fn lemma_reachable_step(
    g: Map<Seq<char>, Seq<Seq<char>>>,
    a: Seq<char>,
    b: Seq<char>,
    c: Seq<char>,
)
    requires
        reachable(g, a, b),
        g.contains_key(b),
        g[b].contains(c),
    ensures
        reachable(g, a, c),
{
    let path = choose|path: Seq<Seq<char>>| #[trigger] is_walk(g, path) && path[0] == a && path.last() == b;
    let longer = path.push(c);
    assert forall|i: int| 0 <= i < longer.len() - 1 implies g.contains_key(#[trigger] longer[i])
        && g[longer[i]].contains(longer[i + 1]) by {
        if i < path.len() - 1 {
            assert(longer[i] == path[i] && longer[i + 1] == path[i + 1]);
        }
    }
    assert(is_walk(g, longer));
}

/// Reachability is transitive: what a reachable node reaches is reachable.
pub proof fn lemma_reachable_trans(
    g: Map<Seq<char>, Seq<Seq<char>>>,
    a: Seq<char>,
    b: Seq<char>,
    c: Seq<char>,
)
    requires
        reachable(g, a, b),
        reachable(g, b, c),
    ensures
        reachable(g, a, c),
{
    let p = choose|path: Seq<Seq<char>>| #[trigger] is_walk(g, path) && path[0] == a && path.last() == b;
    let q = choose|path: Seq<Seq<char>>| #[trigger] is_walk(g, path) && path[0] == b && path.last() == c;
    let joined = p + q.drop_first();
    assert forall|i: int| 0 <= i < joined.len() - 1 implies g.contains_key(#[trigger] joined[i])
        && g[joined[i]].contains(joined[i + 1]) by {
        if i < p.len() - 1 {
            assert(joined[i] == p[i] && joined[i + 1] == p[i + 1]);
        } else if i == p.len() - 1 {
            assert(joined[i] == q[0]);
            assert(joined[i + 1] == q[1]);
        } else {
            let j: int = i - p.len() + 1;
            assert(joined[i] == q[j] && joined[i + 1] == q[j + 1]);
        }
    }
    assert(is_walk(g, joined));
    if q.len() > 1 {
        assert(joined.last() == q.last());
    }
}

/// A set that holds the start of a walk and is closed under successors holds
/// every node of the walk, in particular its end.
proof fn lemma_closed_holds_walk_end(
    g: Map<Seq<char>, Seq<Seq<char>>>,
    s: Set<Seq<char>>,
    path: Seq<Seq<char>>,
)
    requires
        is_walk(g, path),
        s.contains(path[0]),
        forall|x: Seq<char>, y: Seq<char>|
            #![trigger s.contains(x), g[x].contains(y)]
            s.contains(x) && g.contains_key(x) && g[x].contains(y) ==> s.contains(y),
    ensures
        s.contains(path.last()),
    decreases path.len(),
{
    if path.len() > 1 {
        let prefix = path.drop_last();
        assert forall|i: int| 0 <= i < prefix.len() - 1 implies g.contains_key(#[trigger] prefix[i])
            && g[prefix[i]].contains(prefix[i + 1]) by {
            assert(prefix[i] == path[i] && prefix[i + 1] == path[i + 1]);
        }
        lemma_closed_holds_walk_end(g, s, prefix);
        assert(g.contains_key(path[path.len() - 2]));
    }
}

impl MemberGraph {
    /// The graph, as a map from node to its direct successors.
    pub closed spec fn graph(self) -> Map<Seq<char>, Seq<Seq<char>>> {
        graph_of(self.edges@)
    }

    /// Every node reachable from `start`, `start` included.
    fn closure_from(&self, start: &str) -> (linked: StringHashSet)
        ensures
            linked@.contains(start@),
            forall|x: Seq<char>| linked@.contains(x) <==> reachable(self.graph(), start@, x),
    {
        proof {
            use_type_invariant(self);
            lemma_reachable_refl(self.graph(), start@);
        }
        let ghost g = self.graph();
        let ghost dom = self.edges@.dom();
        let mut seen = StringHashSet::new();
        let mut stack: Vec<String> = Vec::new();
        stack.push(String::from_str(start));
        assert(stack@[0]@ == start@);
        while stack.len() > 0
            invariant
                g == self.graph(),
                dom == self.edges@.dom(),
                dom.finite(),
                forall|x: Seq<char>| seen@.contains(x) ==> reachable(g, start@, x),
                forall|j: int| 0 <= j < stack@.len() ==> reachable(g, start@, (#[trigger] stack@[j])@),
                seen@.contains(start@) || exists|j: int|
                    0 <= j < stack@.len() && (#[trigger] stack@[j])@ == start@,
                forall|x: Seq<char>, y: Seq<char>|
                    #![trigger seen@.contains(x), g[x].contains(y)]
                    seen@.contains(x) && g.contains_key(x) && g[x].contains(y) ==> seen@.contains(y)
                        || exists|j: int| 0 <= j < stack@.len() && (#[trigger] stack@[j])@ == y,
            decreases dom.difference(seen@).len(), stack@.len(),
        {
            let ghost before_stack = stack@;
            let ghost before_seen = seen@;
            let cur = stack.pop().unwrap();
            assert(before_stack[before_stack.len() - 1] == cur);
            assert forall|j: int| 0 <= j < stack@.len() implies (#[trigger] stack@[j]) == before_stack[j] by {}
            if seen.contains(cur.as_str()) {
                proof {
                    // Whatever was pending at the popped slot is `cur`, already seen.
                    assert forall|x: Seq<char>, y: Seq<char>|
                        #![trigger seen@.contains(x), g[x].contains(y)]
                    seen@.contains(x) && g.contains_key(x) && g[x].contains(y) implies seen@.contains(y)
                            || exists|j: int| 0 <= j < stack@.len() && (#[trigger] stack@[j])@ == y by {
                        if !seen@.contains(y) {
                            let j = choose|j: int| 0 <= j < before_stack.len() && (#[trigger] before_stack[j])@ == y;
                            assert(stack@[j] == before_stack[j]);
                        }
                    }
                    if !seen@.contains(start@) {
                        let j = choose|j: int| 0 <= j < before_stack.len() && (#[trigger] before_stack[j])@ == start@;
                        assert(stack@[j] == before_stack[j]);
                    }
                }
                continue;
            }
            seen.insert(cur.clone());
            proof {
                assert(dom.difference(seen@).subset_of(dom.difference(before_seen)));
                vstd::set_lib::lemma_len_subset(dom.difference(seen@), dom.difference(before_seen));
                if dom.contains(cur@) {
                    assert(dom.difference(seen@) =~= dom.difference(before_seen).remove(cur@));
                }
            }
            match self.edges.get(cur.as_str()) {
                Some(next) => {
                    let ghost mid_stack = stack@;
                    assert(g[cur@] == texts(next@));
                    let mut k: usize = 0;
                    while k < next.len()
                        invariant
                            k <= next@.len(),
                            stack@ == mid_stack + next@.take(k as int),
                    decreases next@.len() - k,
                    {
                        stack.push(next[k].clone());
                        k = k + 1;
                        assert(stack@ =~= mid_stack + next@.take(k as int));
                    }
                    assert(next@.take(next@.len() as int) =~= next@);
                    proof {
                        assert forall|j: int| 0 <= j < stack@.len() implies reachable(
                            g,
                            start@,
                            (#[trigger] stack@[j])@,
                        ) by {
                            if j < mid_stack.len() {
                                assert(stack@[j] == mid_stack[j]);
                            } else {
                                let t: int = j - mid_stack.len();
                                assert(stack@[j] == next@[t]);
                                assert(g[cur@][t] == next@[t]@);
                                lemma_reachable_step(g, start@, cur@, next@[t]@);
                            }
                        }
                        assert forall|x: Seq<char>, y: Seq<char>|
                            #![trigger seen@.contains(x), g[x].contains(y)]
                    seen@.contains(x) && g.contains_key(x) && g[x].contains(y) implies seen@.contains(y)
                                || exists|j: int| 0 <= j < stack@.len() && (#[trigger] stack@[j])@ == y by {
                            if !seen@.contains(y) {
                                if x == cur@ {
                                    let t = choose|t: int| 0 <= t < g[x].len() && g[x][t] == y;
                                    assert(stack@[mid_stack.len() + t] == next@[t]);
                                } else {
                                    let j = choose|j: int| 0 <= j < before_stack.len() && (#[trigger] before_stack[j])@ == y;
                                    assert(stack@[j] == before_stack[j]);
                                }
                            }
                        }
                        if !seen@.contains(start@) {
                            let j = choose|j: int| 0 <= j < before_stack.len() && (#[trigger] before_stack[j])@ == start@;
                            assert(stack@[j] == before_stack[j]);
                        }
                    }
                },
                None => {
                    proof {
                        assert forall|x: Seq<char>, y: Seq<char>|
                            #![trigger seen@.contains(x), g[x].contains(y)]
                    seen@.contains(x) && g.contains_key(x) && g[x].contains(y) implies seen@.contains(y)
                                || exists|j: int| 0 <= j < stack@.len() && (#[trigger] stack@[j])@ == y by {
                            if !seen@.contains(y) {
                                let j = choose|j: int| 0 <= j < before_stack.len() && (#[trigger] before_stack[j])@ == y;
                                assert(stack@[j] == before_stack[j]);
                            }
                        }
                        if !seen@.contains(start@) {
                            let j = choose|j: int| 0 <= j < before_stack.len() && (#[trigger] before_stack[j])@ == start@;
                            assert(stack@[j] == before_stack[j]);
                        }
                    }
                },
            }
        }
        proof {
            assert forall|x: Seq<char>| reachable(g, start@, x) implies seen@.contains(x) by {
                let path = choose|path: Seq<Seq<char>>| #[trigger] is_walk(g, path) && path[0] == start@ && path.last() == x;
                lemma_closed_holds_walk_end(g, seen@, path);
            }
        }
        seen
    }
}

impl Workspace {
    /// The transitive set of workspace members that `id` links (including
    /// itself), following non-dev member edges: the basis for per-crate
    /// staleness. `None` if the resolve graph wasn't loaded.
    pub fn linked_members(&self, id: &str) -> (linked: Option<StringHashSet>)
        ensures
            linked is None <==> self.member_graph() is None,
            linked matches Some(s) ==> s@.contains(id@),
            linked matches Some(s) ==> forall|x: Seq<char>|
                s@.contains(x) <==> reachable(self.member_graph().unwrap(), id@, x),
    {
        match &self.member_edges {
            Some(graph) => Some(graph.closure_from(id)),
            None => None,
        }
    }
}

// --- lookups ----------------------------------------------------------------

/// The first target of the given kind, if any.
pub open spec fn first_target_of_kind(ts: Seq<Target>, kind: TargetKind) -> Option<Target>
    decreases ts.len(),
{
    if ts.len() == 0 {
        None
    } else if ts[0].kind == kind {
        Some(ts[0])
    } else {
        first_target_of_kind(ts.drop_first(), kind)
    }
}

/// The crate root file: the first lib target's source, else the first bin's.
pub open spec fn crate_root_of(ts: Seq<Target>) -> Option<Seq<char>> {
    match first_target_of_kind(ts, TargetKind::Lib) {
        Some(t) => Some(t.src_path@),
        None => match first_target_of_kind(ts, TargetKind::Bin) {
            Some(t) => Some(t.src_path@),
            None => None,
        },
    }
}

/// The first member package with the given name, if any.
pub open spec fn first_member_named(ms: Seq<Package>, name: Seq<char>) -> Option<Package>
    decreases ms.len(),
{
    if ms.len() == 0 {
        None
    } else if ms[0].name@ == name {
        Some(ms[0])
    } else {
        first_member_named(ms.drop_first(), name)
    }
}

/// The identifier a dependency's package name is referred to by in source:
/// every dash turned into an underscore.
pub open spec fn ident_of(name: Seq<char>) -> Seq<char> {
    name.map_values(|c: char| if c == '-' { '_' } else { c })
}

/// `String::push`: appends one char to a string.
#[verifier::external_body]
fn push_char(s: &mut String, c: char)
    ensures
        final(s)@ == old(s)@.push(c),
{
    s.push(c)
}

impl Package {
    fn find_target(&self, kind: TargetKind) -> (found: Option<&Target>)
        ensures
            match found {
                Some(t) => first_target_of_kind(self.targets@, kind) == Some(*t),
                None => first_target_of_kind(self.targets@, kind) is None,
            },
    {
        assert(self.targets@.skip(0) =~= self.targets@);
        let mut i: usize = 0;
        while i < self.targets.len()
            invariant
                i <= self.targets@.len(),
                first_target_of_kind(self.targets@, kind) == first_target_of_kind(
                    self.targets@.skip(i as int),
                    kind,
                ),
            decreases self.targets@.len() - i,
        {
            if self.targets[i].kind == kind {
                assert(self.targets@.skip(i as int)[0] == self.targets@[i as int]);
                return Some(&self.targets[i]);
            }
            assert(self.targets@.skip(i as int).drop_first() =~= self.targets@.skip(i + 1));
            i = i + 1;
        }
        None
    }

    /// The path of the package's `Cargo.toml`: its directory joined with `Cargo.toml`.
    pub fn manifest_path(&self) -> (path: String)
        ensures
            path@ == spec_path_join(self.manifest_dir@, "Cargo.toml"@),
    {
        path_join(self.manifest_dir.as_str(), "Cargo.toml")
    }

    /// The first bin target, if any.
    pub fn bin_target(&self) -> (found: Option<&Target>)
        ensures
            match found {
                Some(t) => first_target_of_kind(self.targets@, TargetKind::Bin) == Some(*t),
                None => first_target_of_kind(self.targets@, TargetKind::Bin) is None,
            },
    {
        self.find_target(TargetKind::Bin)
    }

    /// The first lib target, if any.
    pub fn lib_target(&self) -> (found: Option<&Target>)
        ensures
            match found {
                Some(t) => first_target_of_kind(self.targets@, TargetKind::Lib) == Some(*t),
                None => first_target_of_kind(self.targets@, TargetKind::Lib) is None,
            },
    {
        self.find_target(TargetKind::Lib)
    }

    /// The crate root file: the lib target's source, else the first bin's.
    pub fn crate_root(&self) -> (root: Option<&str>)
        ensures
            match root {
                Some(r) => crate_root_of(self.targets@) == Some(r@),
                None => crate_root_of(self.targets@) is None,
            },
            forall|i: int| #[trigger] is_first_of_kind(self.targets@, TargetKind::Lib, i) ==> (root matches Some(
                r,
            ) && r@ == self.targets@[i].src_path@),
            !has_kind(self.targets@, TargetKind::Lib) ==> forall|i: int| #[trigger]
                is_first_of_kind(self.targets@, TargetKind::Bin, i) ==> (root matches Some(r) && r@
                == self.targets@[i].src_path@),
            !has_kind(self.targets@, TargetKind::Lib) && !has_kind(self.targets@, TargetKind::Bin)
                ==> root is None,
    {
        proof {
            lemma_crate_root_of(self.targets@);
        }
        match self.lib_target() {
            Some(t) => Some(t.src_path.as_str()),
            None => match self.bin_target() {
                Some(t) => Some(t.src_path.as_str()),
                None => None,
            },
        }
    }

    /// The directory the crate root lives in (usually `src/`).
    pub fn src_dir(&self) -> (dir: Option<String>)
        ensures
            opt_text(dir) == match crate_root_of(self.targets@) {
                Some(root) => spec_path_parent(root),
                None => None,
            },
    {
        match self.crate_root() {
            Some(root) => path_parent(root),
            None => None,
        }
    }

    /// Whether the package declares a dependency on the package `name`.
    pub fn has_dependency(&self, name: &str) -> (declared: bool)
        ensures
            declared == exists|i: int|
                0 <= i < self.dependencies@.len() && (#[trigger] self.dependencies@[i]).name@
                    == name@,
    {
        let wanted = String::from_str(name);
        let mut i: usize = 0;
        while i < self.dependencies.len()
            invariant
                i <= self.dependencies@.len(),
                wanted@ == name@,
                forall|j: int| 0 <= j < i ==> (#[trigger] self.dependencies@[j]).name@ != name@,
            decreases self.dependencies@.len() - i,
        {
            if same_text(&self.dependencies[i].name, &wanted) {
                return true;
            }
            i = i + 1;
        }
        false
    }
}

impl Dependency {
    /// The identifier this dep is referred to by in source: the rename wins,
    /// else the package name with dashes turned into underscores.
    pub fn extern_ident(&self) -> (ident: String)
        ensures
            ident@ == match self.rename {
                Some(r) => r@,
                None => ident_of(self.name@),
            },
            self.rename is None ==> ident@.len() == self.name@.len(),
            self.rename is None ==> forall|i: int|
                0 <= i < self.name@.len() ==> (#[trigger] ident@[i]) == if self.name@[i] == '-' {
                    '_'
                } else {
                    self.name@[i]
                },
    {
        proof {
            lemma_ident_of(self.name@);
        }
        match &self.rename {
            Some(r) => r.clone(),
            None => {
                let name = self.name.as_str();
                let n: usize = name.unicode_len();
                let mut ident = String::new();
                let mut i: usize = 0;
                while i < n
                    invariant
                        n == name@.len(),
                        i <= n,
                        ident@ == ident_of(name@.take(i as int)),
                    decreases n - i,
                {
                    let c = name.get_char(i);
                    if c == '-' {
                        push_char(&mut ident, '_');
                    } else {
                        push_char(&mut ident, c);
                    }
                    i = i + 1;
                    assert(ident@ =~= ident_of(name@.take(i as int)));
                }
                assert(name@.take(n as int) =~= name@);
                ident
            },
        }
    }

    /// Whether this is a normal (not dev, not build) dependency.
    pub fn is_normal(&self) -> (normal: bool)
        ensures
            normal == (self.kind == DepKind::Normal),
    {
        self.kind == DepKind::Normal
    }
}

impl Workspace {
    /// The first member package named `name`, if any.
    pub fn member(&self, name: &str) -> (found: Option<&Package>)
        ensures
            match found {
                Some(p) => first_member_named(self.members@, name@) == Some(*p),
                None => first_member_named(self.members@, name@) is None,
            },
    {
        let wanted = String::from_str(name);
        assert(self.members@.skip(0) =~= self.members@);
        let mut i: usize = 0;
        while i < self.members.len()
            invariant
                i <= self.members@.len(),
                wanted@ == name@,
                first_member_named(self.members@, name@) == first_member_named(
                    self.members@.skip(i as int),
                    name@,
                ),
            decreases self.members@.len() - i,
        {
            if same_text(&self.members[i].name, &wanted) {
                assert(self.members@.skip(i as int)[0] == self.members@[i as int]);
                return Some(&self.members[i]);
            }
            assert(self.members@.skip(i as int).drop_first() =~= self.members@.skip(i + 1));
            i = i + 1;
        }
        None
    }
}

// --- running discovery ----------------------------------------------------

/// How to run discovery.
pub struct LoadOptions {
    /// Point cargo at a specific workspace instead of the current directory.
    pub manifest_path: Option<String>,
    /// Include the resolved dependency graph (needed for
    /// [`Workspace::linked_members`]). Slower, since it omits `--no-deps`.
    pub resolve: bool,
}

impl Default for LoadOptions {
    fn default() -> (options: Self)
        ensures
            options.manifest_path is None,
            !options.resolve,
    {
        LoadOptions { manifest_path: None, resolve: false }
    }
}

/// The arguments to `cargo` that discovery runs with.
pub open spec fn metadata_args(options: LoadOptions) -> Seq<Seq<char>> {
    seq!["metadata"@, "--format-version"@, "1"@] + (if options.resolve {
        Seq::empty()
    } else {
        seq!["--no-deps"@]
    }) + match options.manifest_path {
        Some(mp) => seq!["--manifest-path"@, mp@],
        None => Seq::empty(),
    }
}

impl LoadOptions {
    /// The arguments `cargo` is run with: `metadata --format-version 1`, then
    /// `--no-deps` unless the resolved graph is wanted, then the manifest path
    /// if one was given.
    pub fn cargo_args(&self) -> (args: Vec<String>)
        ensures
            texts(args@) == metadata_args(*self),
            !self.resolve ==> args@[3]@ == "--no-deps"@,
            self.resolve ==> forall|i: int|
                0 <= i < args@.len() && (#[trigger] args@[i])@ == "--no-deps"@ ==> (
                self.manifest_path matches Some(mp) && i == args@.len() - 1 && mp@ == "--no-deps"@),
    {
        proof {
            lemma_cargo_args(*self);
        }
        let mut args: Vec<String> = Vec::new();
        args.push(String::from_str("metadata"));
        args.push(String::from_str("--format-version"));
        args.push(String::from_str("1"));
        if !self.resolve {
            args.push(String::from_str("--no-deps"));
        }
        match &self.manifest_path {
            Some(mp) => {
                args.push(String::from_str("--manifest-path"));
                args.push(mp.clone());
            },
            None => {},
        }
        assert(texts(args@) =~= metadata_args(*self));
        args
    }
}

// --- laws -------------------------------------------------------------------

/// The members of a workspace are exactly the packages listed as workspace
/// members: a package is selected if and only if it is among the packages and
/// its id is listed.
pub proof fn lemma_selected_are_listed(pkgs: Seq<raw::Package>, ids: Set<Seq<char>>, p: raw::Package)
    ensures
        selected_packages(pkgs, ids).contains(p) <==> pkgs.contains(p) && ids.contains(p.id@),
    decreases pkgs.len(),
{
    if pkgs.len() > 0 {
        let rest = pkgs.drop_last();
        lemma_selected_are_listed(rest, ids, p);
        let sel_rest = selected_packages(rest, ids);
        if pkgs.contains(p) && p != pkgs.last() {
            let i = choose|i: int| 0 <= i < pkgs.len() && pkgs[i] == p;
            assert(rest[i] == p);
        }
        if rest.contains(p) {
            let i = choose|i: int| 0 <= i < rest.len() && rest[i] == p;
            assert(pkgs[i] == p);
        }
        if ids.contains(pkgs.last().id@) {
            assert(selected_packages(pkgs, ids) == sel_rest.push(pkgs.last()));
            if sel_rest.contains(p) {
                let i = choose|i: int| 0 <= i < sel_rest.len() && sel_rest[i] == p;
                assert(sel_rest.push(pkgs.last())[i] == p);
            }
            if sel_rest.push(pkgs.last()).contains(p) && p != pkgs.last() {
                let i = choose|i: int| 0 <= i < sel_rest.len() + 1 && sel_rest.push(pkgs.last())[i] == p;
                assert(sel_rest[i] == p);
            }
            assert(sel_rest.push(pkgs.last())[sel_rest.len() as int] == pkgs.last());
        }
        assert(pkgs[pkgs.len() - 1] == pkgs.last());
    }
}

/// Edges whose every declared kind is dev, and edges to packages that are not
/// members, are never kept.
pub proof fn lemma_dropped_edges(d: raw::NodeDep, members: Set<Seq<char>>)
    requires
        !members.contains(d.pkg@) || (d.dep_kinds@.len() > 0 && forall|k: int|
            0 <= k < d.dep_kinds@.len() ==> is_dev_marker(#[trigger] d.dep_kinds@[k])),
    ensures
        !keeps_edge(d, members),
{
}

proof fn lemma_edge_targets_are_members(deps: Seq<raw::NodeDep>, members: Set<Seq<char>>)
    ensures
        forall|i: int|
            0 <= i < edge_targets(deps, members).len() ==> members.contains(
                #[trigger] edge_targets(deps, members)[i],
            ),
    decreases deps.len(),
{
    if deps.len() > 0 {
        lemma_edge_targets_are_members(deps.drop_last(), members);
        let rest = edge_targets(deps.drop_last(), members);
        let all = edge_targets(deps, members);
        assert forall|i: int| 0 <= i < all.len() implies members.contains(#[trigger] all[i]) by {
            if i < rest.len() {
                assert(all[i] == rest[i]);
            }
        }
    }
}

proof fn lemma_member_edge_map_members(nodes: Seq<raw::Node>, members: Set<Seq<char>>)
    ensures
        forall|k: Seq<char>|
            #[trigger] member_edge_map(nodes, members).contains_key(k) ==> members.contains(k)
                && forall|i: int|
                0 <= i < member_edge_map(nodes, members)[k].len() ==> members.contains(
                    #[trigger] member_edge_map(nodes, members)[k][i],
                ),
    decreases nodes.len(),
{
    if nodes.len() > 0 {
        lemma_member_edge_map_members(nodes.drop_last(), members);
        lemma_edge_targets_are_members(nodes.last().deps@, members);
        let earlier = member_edge_map(nodes.drop_last(), members);
        let m = member_edge_map(nodes, members);
        assert forall|k: Seq<char>| #[trigger] m.contains_key(k) implies members.contains(k)
            && forall|i: int| 0 <= i < m[k].len() ==> members.contains(#[trigger] m[k][i]) by {
            if members.contains(nodes.last().id@) && k == nodes.last().id@ {
                assert(m[k] == edge_targets(nodes.last().deps@, members));
            } else {
                assert(earlier.contains_key(k) && m[k] == earlier[k]);
            }
        }
    }
}

/// Linking follows member edges only: everything a node links, other than
/// itself, is a workspace member.
pub proof fn lemma_linked_are_members(meta: raw::Metadata, start: Seq<char>, x: Seq<char>)
    requires
        resolved_graph(meta) is Some,
        reachable(resolved_graph(meta).unwrap(), start, x),
        x != start,
    ensures
        member_ids(meta).contains(x),
{
    let g = resolved_graph(meta).unwrap();
    let nodes = meta.resolve.unwrap().nodes@;
    lemma_member_edge_map_members(nodes, member_ids(meta));
    let path = choose|path: Seq<Seq<char>>| #[trigger] is_walk(g, path) && path[0] == start && path.last() == x;
    let n: int = path.len() - 2;
    assert(g.contains_key(path[n]) && g[path[n]].contains(path[n + 1]));
    let i = choose|i: int| 0 <= i < g[path[n]].len() && g[path[n]][i] == path[n + 1];
    assert(member_ids(meta).contains(g[path[n]][i]));
}

/// A resolved edge to a workspace member is kept whenever it lists no kinds,
/// or some kind of it is not dev (no kind, or a kind other than `"dev"`).
pub proof fn lemma_kept_edges(d: raw::NodeDep, members: Set<Seq<char>>)
    requires
        members.contains(d.pkg@),
        d.dep_kinds@.len() == 0 || exists|k: int|
            0 <= k < d.dep_kinds@.len() && match (#[trigger] d.dep_kinds@[k]).kind {
                Some(s) => s@ != "dev"@,
                None => true,
            },
    ensures
        keeps_edge(d, members),
{
    if d.dep_kinds@.len() != 0 {
        let k = choose|k: int|
            0 <= k < d.dep_kinds@.len() && match (#[trigger] d.dep_kinds@[k]).kind {
                Some(s) => s@ != "dev"@,
                None => true,
            };
        assert(!is_dev_marker(d.dep_kinds@[k]));
    }
}

proof fn lemma_kept_dep_is_target(deps: Seq<raw::NodeDep>, members: Set<Seq<char>>, j: int)
    requires
        0 <= j < deps.len(),
        keeps_edge(deps[j], members),
    ensures
        edge_targets(deps, members).contains(deps[j].pkg@),
    decreases deps.len(),
{
    let rest = edge_targets(deps.drop_last(), members);
    if j == deps.len() - 1 {
        assert(edge_targets(deps, members) == rest.push(deps[j].pkg@));
        assert(rest.push(deps[j].pkg@)[rest.len() as int] == deps[j].pkg@);
    } else {
        assert(deps.drop_last()[j] == deps[j]);
        lemma_kept_dep_is_target(deps.drop_last(), members, j);
        let i = choose|i: int| 0 <= i < rest.len() && rest[i] == deps[j].pkg@;
        if keeps_edge(deps.last(), members) {
            assert(rest.push(deps.last().pkg@)[i] == deps[j].pkg@);
        }
    }
}

/// In the member graph, a member node (its last entry among the resolved
/// nodes) has an edge to every member it depends on under some kind other than
/// dev, or under no listed kind at all.
pub proof fn lemma_member_graph_keeps_edge(
    nodes: Seq<raw::Node>,
    members: Set<Seq<char>>,
    i: int,
    j: int,
)
    requires
        0 <= i < nodes.len(),
        forall|l: int| i < l < nodes.len() ==> (#[trigger] nodes[l]).id@ != nodes[i].id@,
        members.contains(nodes[i].id@),
        0 <= j < nodes[i].deps@.len(),
        members.contains(nodes[i].deps@[j].pkg@),
        nodes[i].deps@[j].dep_kinds@.len() == 0 || exists|k: int|
            0 <= k < nodes[i].deps@[j].dep_kinds@.len() && match (
            #[trigger] nodes[i].deps@[j].dep_kinds@[k]).kind {
                Some(s) => s@ != "dev"@,
                None => true,
            },
    ensures
        member_edge_map(nodes, members).contains_key(nodes[i].id@),
        member_edge_map(nodes, members)[nodes[i].id@].contains(nodes[i].deps@[j].pkg@),
    decreases nodes.len(),
{
    lemma_kept_edges(nodes[i].deps@[j], members);
    if i == nodes.len() - 1 {
        lemma_kept_dep_is_target(nodes[i].deps@, members, j);
    } else {
        let earlier = nodes.drop_last();
        assert(earlier[i] == nodes[i]);
        assert forall|l: int| i < l < earlier.len() implies (#[trigger] earlier[l]).id@ != earlier[i].id@ by {
            assert(earlier[l] == nodes[l]);
        }
        lemma_member_graph_keeps_edge(earlier, members, i, j);
        assert(nodes[nodes.len() - 1].id@ != nodes[i].id@);
    }
}

/// The arguments `cargo` is run with: `metadata --format-version 1`, then
/// `--no-deps` exactly when the resolved graph is not wanted, then
/// `--manifest-path <path>` when a manifest path is given. With the resolved
/// graph wanted, no argument is `--no-deps` other than a manifest path that is
/// itself spelled so.
pub proof fn lemma_cargo_args(options: LoadOptions)
    ensures
        ({
            let a = metadata_args(options);
            &&& a.len() == 3 + (if options.resolve { 0int } else { 1int }) + (if options.manifest_path
                is Some {
                2int
            } else {
                0int
            })
            &&& a[0] == "metadata"@
            &&& a[1] == "--format-version"@
            &&& a[2] == "1"@
            &&& !options.resolve ==> a[3] == "--no-deps"@
            &&& options.resolve ==> forall|i: int|
                0 <= i < a.len() && #[trigger] a[i] == "--no-deps"@ ==> (options.manifest_path matches Some(
                    mp,
                ) && i == a.len() - 1 && mp@ == "--no-deps"@)
            &&& options.manifest_path matches Some(mp) ==> a[a.len() - 2] == "--manifest-path"@
                && a[a.len() - 1] == mp@
        }),
{
    reveal_strlit("metadata");
    reveal_strlit("--format-version");
    reveal_strlit("1");
    reveal_strlit("--no-deps");
    reveal_strlit("--manifest-path");
    let a = metadata_args(options);
    assert forall|i: int| 0 <= i < a.len() && #[trigger] a[i] == "--no-deps"@ && options.resolve implies (
    options.manifest_path matches Some(mp) && i == a.len() - 1 && mp@ == "--no-deps"@) by {
        if i < 3 {
            assert(a[i].len() != "--no-deps"@.len());
        } else if i == 3 && options.manifest_path is Some {
            assert(a[i] == "--manifest-path"@);
            assert(a[i].len() != "--no-deps"@.len());
        }
    }
}

/// How a target is classified from cargo's kinds for it: a bin if `"bin"` is
/// among them; otherwise a lib if `"lib"` is; otherwise something else. In
/// particular a lib always lists `"lib"`.
pub proof fn lemma_target_kind_of(kinds: Seq<String>)
    ensures
        (exists|i: int| 0 <= i < kinds.len() && (#[trigger] kinds[i])@ == "bin"@)
            ==> target_kind_of(kinds) == TargetKind::Bin,
        !(exists|i: int| 0 <= i < kinds.len() && (#[trigger] kinds[i])@ == "bin"@) && (exists|i: int|
            0 <= i < kinds.len() && (#[trigger] kinds[i])@ == "lib"@) ==> target_kind_of(kinds)
            == TargetKind::Lib,
        target_kind_of(kinds) == TargetKind::Lib ==> exists|i: int|
            0 <= i < kinds.len() && (#[trigger] kinds[i])@ == "lib"@,
        !(exists|i: int| 0 <= i < kinds.len() && (#[trigger] kinds[i])@ == "bin"@) && !(exists|i: int|
            0 <= i < kinds.len() && (#[trigger] kinds[i])@ == "lib"@) ==> target_kind_of(kinds)
            == TargetKind::Other,
{
}

/// How a dependency is classified from its declared kind: `"dev"` gives Dev,
/// `"build"` gives Build, anything else or no kind gives Normal.
pub proof fn lemma_dep_kind_of(kind: Option<String>)
    ensures
        kind matches Some(k) && k@ == "dev"@ ==> dep_kind_of(kind) == DepKind::Dev,
        kind matches Some(k) && k@ == "build"@ ==> dep_kind_of(kind) == DepKind::Build,
        dep_kind_of(kind) == DepKind::Dev ==> (kind matches Some(k) && k@ == "dev"@),
        dep_kind_of(kind) == DepKind::Build ==> (kind matches Some(k) && k@ == "build"@),
{
    reveal_strlit("dev");
    reveal_strlit("build");
    assert("build"@[0] != "dev"@[0]);
}

/// The identifier of a package name has the name's length, with each `-` made
/// `_` and every other char (an `_` too) kept as it is.
pub proof fn lemma_ident_of(name: Seq<char>)
    ensures
        ident_of(name).len() == name.len(),
        forall|i: int|
            0 <= i < name.len() ==> (#[trigger] ident_of(name)[i]) == if name[i] == '-' {
                '_'
            } else {
                name[i]
            },
{
}

/// `i` is the least index of a target of `kind`.
pub open spec fn is_first_of_kind(ts: Seq<Target>, kind: TargetKind, i: int) -> bool {
    &&& 0 <= i < ts.len()
    &&& ts[i].kind == kind
    &&& forall|j: int| 0 <= j < i ==> (#[trigger] ts[j]).kind != kind
}

/// Some target has `kind`.
pub open spec fn has_kind(ts: Seq<Target>, kind: TargetKind) -> bool {
    exists|i: int| 0 <= i < ts.len() && (#[trigger] ts[i]).kind == kind
}

proof fn lemma_first_at(ts: Seq<Target>, kind: TargetKind, i: int)
    requires
        is_first_of_kind(ts, kind, i),
    ensures
        first_target_of_kind(ts, kind) == Some(ts[i]),
    decreases i,
{
    if i > 0 {
        let rest = ts.drop_first();
        assert(ts[0].kind != kind);
        assert(rest[i - 1] == ts[i]);
        assert forall|j: int| 0 <= j < i - 1 implies (#[trigger] rest[j]).kind != kind by {
            assert(rest[j] == ts[j + 1]);
        }
        lemma_first_at(rest, kind, i - 1);
    }
}

proof fn lemma_first_none(ts: Seq<Target>, kind: TargetKind)
    requires
        !has_kind(ts, kind),
    ensures
        first_target_of_kind(ts, kind) is None,
    decreases ts.len(),
{
    if ts.len() > 0 {
        let rest = ts.drop_first();
        assert(ts[0].kind != kind);
        if has_kind(rest, kind) {
            let i = choose|i: int| 0 <= i < rest.len() && (#[trigger] rest[i]).kind == kind;
            assert(ts[i + 1] == rest[i]);
        }
        lemma_first_none(rest, kind);
    }
}

/// The first target of a kind is the one at the least index with that kind;
/// there is none exactly when no target has that kind.
pub proof fn lemma_first_target_of_kind(ts: Seq<Target>, kind: TargetKind)
    ensures
        forall|i: int| #[trigger] is_first_of_kind(ts, kind, i) ==> first_target_of_kind(ts, kind)
            == Some(ts[i]),
        !has_kind(ts, kind) ==> first_target_of_kind(ts, kind) is None,
{
    assert forall|i: int| #[trigger] is_first_of_kind(ts, kind, i) implies first_target_of_kind(
        ts,
        kind,
    ) == Some(ts[i]) by {
        lemma_first_at(ts, kind, i);
    }
    if !has_kind(ts, kind) {
        lemma_first_none(ts, kind);
    }
}

/// The crate root is the source of the first lib target; with no lib target,
/// the source of the first bin target; with neither, there is none.
pub proof fn lemma_crate_root_of(ts: Seq<Target>)
    ensures
        forall|i: int| #[trigger] is_first_of_kind(ts, TargetKind::Lib, i) ==> crate_root_of(ts)
            == Some(ts[i].src_path@),
        !has_kind(ts, TargetKind::Lib) ==> forall|i: int| #[trigger]
            is_first_of_kind(ts, TargetKind::Bin, i) ==> crate_root_of(ts) == Some(ts[i].src_path@),
        !has_kind(ts, TargetKind::Lib) && !has_kind(ts, TargetKind::Bin) ==> crate_root_of(ts) is None,
{
    lemma_first_target_of_kind(ts, TargetKind::Lib);
    lemma_first_target_of_kind(ts, TargetKind::Bin);
}

} // verus!
