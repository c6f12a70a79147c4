//! Filesystem paths as text, composed with `std::path`.
use vstd::prelude::*;

verus! {

/// The text of `Path::new(base).join(rel)` on Unix: an absolute `rel` (one
/// that starts at the root) replaces `base`; a relative one is appended,
/// after a `/` when `base` is not empty and does not already end with one.
pub open spec fn joined_path(base: Seq<char>, rel: Seq<char>) -> Seq<char> {
    if rel.len() > 0 && rel[0] == '/' {
        rel
    } else if base.len() > 0 && base.last() != '/' {
        base + seq!['/'] + rel
    } else {
        base + rel
    }
}

/// The text of `Path::new(p).parent()`, or `None` where it has no parent.
pub uninterp spec fn parent_path(p: Seq<char>) -> Option<Seq<char>>;

/// A single path component that `Path::parent` takes off again: not empty,
/// without a separator, and not `.`.
pub open spec fn is_component(s: Seq<char>) -> bool {
    s.len() > 0 && !s.contains('/') && s != seq!['.']
}

/// A directory path whose text comes back unchanged as the parent of a path
/// below it: it ends neither with a separator nor with `/.`.
pub open spec fn is_plain_dir(s: Seq<char>) -> bool {
    &&& s.len() == 0 || s.last() != '/'
    &&& !(s.len() >= 2 && s[s.len() - 1] == '.' && s[s.len() - 2] == '/')
}

/// `Path::join`, as text, on Unix (the only platform the harness runs on;
/// `to_string_lossy` gives the text back unchanged, as it came from `&str`s).
/// The contract states the result ([`joined_path`]) and the documented fact
/// that the parent of a plain directory joined with one component is that
/// directory again.
#[verifier::external_body]
pub(crate) fn path_join(base: &str, rel: &str) -> (res: String)
    ensures
        res@ == joined_path(base@, rel@),
        is_component(rel@) && is_plain_dir(base@) ==> parent_path(res@) == Some(base@),
{
    std::path::Path::new(base).join(rel).to_string_lossy().into_owned()
}

/// `Path::parent`, as text. The contract names the result and states the
/// documented fact that the empty path and the root have no parent.
#[verifier::external_body]
pub(crate) fn path_parent(p: &str) -> (res: Option<String>)
    ensures
        match res {
            Some(s) => parent_path(p@) == Some(s@),
            None => parent_path(p@) is None,
        },
        p@.len() == 0 ==> res is None,
        p@ == seq!['/'] ==> res is None,
{
    std::path::Path::new(p).parent().map(|q| q.to_string_lossy().into_owned())
}

} // verus!
