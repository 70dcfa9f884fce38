//! The fields of `cargo metadata --format-version 1` output that discovery
//! reads, as plain values. Decoding the JSON text into these types happens at
//! the edge of the library; everything built from them is verified.

use vstd::prelude::*;

verus! {

/// The top-level `cargo metadata` document.
pub struct Metadata {
    pub packages: Vec<Package>,
    pub workspace_members: Vec<String>,
    pub workspace_root: String,
    pub target_directory: String,
    /// Present unless cargo was run with `--no-deps`.
    pub resolve: Option<Resolve>,
}

/// One package, member or not.
pub struct Package {
    pub id: String,
    pub name: String,
    pub description: Option<String>,
    pub edition: Option<String>,
    pub license: Option<String>,
    pub manifest_path: String,
    pub targets: Vec<Target>,
    pub dependencies: Vec<Dependency>,
}

/// One build target; `kind` lists cargo's kinds for it (`"bin"`, `"lib"`, …).
pub struct Target {
    pub name: String,
    pub kind: Vec<String>,
    pub src_path: String,
}

/// One declared dependency.
pub struct Dependency {
    pub name: String,
    pub req: String,
    pub features: Vec<String>,
    pub rename: Option<String>,
    /// `None` for a normal dependency, else `"dev"` or `"build"`.
    pub kind: Option<String>,
}

/// The resolved dependency graph.
pub struct Resolve {
    pub nodes: Vec<Node>,
}

/// One node of the resolved graph: a package and its direct dependencies.
pub struct Node {
    pub id: String,
    pub deps: Vec<NodeDep>,
}

/// One resolved edge, with the kinds under which it was declared.
pub struct NodeDep {
    pub pkg: String,
    pub dep_kinds: Vec<DepKind>,
}

/// One declared kind of a resolved edge: `None` for normal, else `"dev"` or `"build"`.
pub struct DepKind {
    pub kind: Option<String>,
}

} // verus!
