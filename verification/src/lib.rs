//! Shared core for the freight suite of `cargo-*` tools: a small, tool-agnostic
//! model of a Cargo workspace built from `cargo metadata` output, plus the
//! suite's terminal chrome (palette, glyphs, spinner, log window).

pub mod chrome;
pub mod error;

pub use error::Error;
pub mod paths;
pub mod raw;
pub mod text;
pub mod metadata;

pub use metadata::{DepKind, Dependency, Package, Target, TargetKind};

pub use metadata::{LoadOptions, Workspace};
pub use vstd::hash_map::StringHashMap;
pub use vstd::hash_set::StringHashSet;
