//! The two operations on file-system paths that discovery needs, taken from
//! `std::path` and applied to paths held as text.

use vstd::prelude::*;

verus! {

/// What `std::path::Path::parent` gives for a path, as text, on the target the
/// library is built for.
pub uninterp spec fn spec_path_parent(path: Seq<char>) -> Option<Seq<char>>;

/// What `std::path::Path::join` gives for a base path and a path to append, as
/// text, on the target the library is built for.
pub uninterp spec fn spec_path_join(base: Seq<char>, tail: Seq<char>) -> Seq<char>;

/// `std::path::Path::parent` on a path held as text. The contract claims that the
/// result is a function of the path alone, and, as std documents, that the empty
/// path has no parent. What the parent is otherwise is left to std.
#[verifier::external_body]
pub(crate) fn path_parent(path: &str) -> (parent: Option<String>)
    ensures
        match parent {
            Some(p) => spec_path_parent(path@) == Some(p@),
            None => spec_path_parent(path@) is None,
        },
        path@.len() == 0 ==> parent is None,
{
    match std::path::Path::new(path).parent() {
        Some(p) => Some(p.to_string_lossy().into_owned()),
        None => None,
    }
}

/// `std::path::Path::join` on paths held as text. The contract claims only
/// that the result is a function of the two paths; how they are joined (which
/// separator, when `tail` replaces `base`) depends on the target platform and
/// is left to std.
#[verifier::external_body]
pub(crate) fn path_join(base: &str, tail: &str) -> (joined: String)
    ensures
        joined@ == spec_path_join(base@, tail@),
{
    std::path::Path::new(base).join(tail).to_string_lossy().into_owned()
}

} // verus!
