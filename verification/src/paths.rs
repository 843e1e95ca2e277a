//! Paths as text, and the parent chain that ties a file to the directories
//! above it.
//!
//! A path is held as a `String`. What the parent of a path is, what its
//! final component, and what is left of it below a base, is decided by
//! `std::path`, which this module reaches through trusted functions: the
//! rules are those of the platform that the library is built for. The chain
//! of ancestors is built from the single step to the parent.

use vstd::prelude::*;

verus! {

/// What `std::path::Path::parent` yields for a path, both taken as text.
pub uninterp spec fn parent_of(path: Seq<char>) -> Option<Seq<char>>;

/// The parent of `path`, as `std::path::Path::parent` gives it.
///
/// Trusted: the result is `parent_of` of the argument, and a parent is
/// strictly shorter than its child, since it is the child without its final
/// component.
#[verifier::external_body]
pub(crate) fn parent_path(path: &str) -> (parent: Option<String>)
    ensures
        parent is Some <==> parent_of(path@) is Some,
        parent matches Some(p) ==> parent_of(path@) == Some(p@) && p@.len() < path@.len(),
{
    std::path::Path::new(path).parent().map(|p| p.to_string_lossy().into_owned())
}

/// What `std::path::Path::file_name` yields for a path, both taken as text.
pub uninterp spec fn file_name_of(path: Seq<char>) -> Option<Seq<char>>;

/// The final component of `path`, as `std::path::Path::file_name` gives it.
///
/// Trusted: the result is `file_name_of` of the argument.
#[verifier::external_body]
pub(crate) fn file_name(path: &str) -> (name: Option<String>)
    ensures
        name is Some <==> file_name_of(path@) is Some,
        name matches Some(n) ==> file_name_of(path@) == Some(n@),
{
    std::path::Path::new(path).file_name().map(|n| n.to_string_lossy().into_owned())
}

/// What `std::path::Path::strip_prefix` yields for a path and a base, all
/// taken as text; `None` where the base is not a prefix of the path.
pub uninterp spec fn relative_to(path: Seq<char>, base: Seq<char>) -> Option<Seq<char>>;

/// `path` without the leading `base`, as `std::path::Path::strip_prefix`
/// gives it.
///
/// Trusted: the result is `relative_to` of the arguments.
#[verifier::external_body]
pub(crate) fn strip_prefix(path: &str, base: &str) -> (rest: Option<String>)
    ensures
        rest is Some <==> relative_to(path@, base@) is Some,
        rest matches Some(r) ==> relative_to(path@, base@) == Some(r@),
{
    std::path::Path::new(path).strip_prefix(base).ok().map(|p| p.to_string_lossy().into_owned())
}

/// The directories above `path`, nearest first, up to and including `root`.
///
/// The chain ends at `root`, or where the path has no parent any more. Every
/// step leads to a strictly shorter path.
pub open spec fn ancestors(path: Seq<char>, root: Seq<char>) -> Seq<Seq<char>>
    decreases path.len(),
{
    match parent_of(path) {
        Some(p) => if p.len() < path.len() {
            if p == root {
                seq![p]
            } else {
                seq![p] + ancestors(p, root)
            }
        } else {
            Seq::empty()
        },
        None => Seq::empty(),
    }
}

/// Whether `path` lies in the subtree of `dir`, in a scan rooted at `root`.
pub open spec fn is_within(path: Seq<char>, dir: Seq<char>, root: Seq<char>) -> bool {
    ancestors(path, root).contains(dir)
}

/// Every ancestor of a path is strictly shorter than the path.
pub proof fn lemma_ancestors_shorter(path: Seq<char>, root: Seq<char>)
    ensures
        forall|i: int| 0 <= i < ancestors(path, root).len()
            ==> (#[trigger] ancestors(path, root)[i]).len() < path.len(),
    decreases path.len(),
{
    match parent_of(path) {
        Some(p) => {
            if p.len() < path.len() && p != root {
                lemma_ancestors_shorter(p, root);
                assert forall|i: int| 0 <= i < ancestors(path, root).len()
                    implies (#[trigger] ancestors(path, root)[i]).len() < path.len() by {
                    if i > 0 {
                        assert(ancestors(path, root)[i] == ancestors(p, root)[i - 1]);
                    }
                }
            }
        },
        None => {},
    }
}

/// No directory occurs twice among the ancestors of a path.
pub proof fn lemma_ancestors_distinct(path: Seq<char>, root: Seq<char>)
    ensures
        ancestors(path, root).no_duplicates(),
    decreases path.len(),
{
    match parent_of(path) {
        Some(p) => {
            if p.len() < path.len() && p != root {
                lemma_ancestors_distinct(p, root);
                lemma_ancestors_shorter(p, root);
                let rest = ancestors(p, root);
                let all = ancestors(path, root);
                assert forall|i: int, j: int| 0 <= i < all.len() && 0 <= j < all.len()
                    && i != j implies all[i] != all[j] by {
                    if i > 0 {
                        assert(all[i] == rest[i - 1]);
                    }
                    if j > 0 {
                        assert(all[j] == rest[j - 1]);
                    }
                }
            }
        },
        None => {},
    }
}

} // verus!
