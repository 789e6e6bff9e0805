//! Decides whether a client-supplied filename is safe to use as a single
//! path segment under the storage root.

use vstd::prelude::*;
use vstd::string::StrSliceExecFns;

verus! {

/// The current-directory marker `.`.
pub open spec fn is_cur_dir_marker(s: Seq<char>) -> bool {
    s.len() == 1 && s[0] == '.'
}

/// The parent-directory marker `..`.
pub open spec fn is_parent_dir_marker(s: Seq<char>) -> bool {
    s.len() == 2 && s[0] == '.' && s[1] == '.'
}

/// A safe single path segment: non-empty, free of path separators, and not a
/// current- or parent-directory marker. A name that satisfies this resolves
/// to a plain entry directly under whatever directory it is joined to.
pub open spec fn valid_segment(s: Seq<char>) -> bool {
    &&& s.len() > 0
    &&& (forall|i: int| 0 <= i < s.len() ==> s[i] != '/')
    &&& !is_cur_dir_marker(s)
    &&& !is_parent_dir_marker(s)
}

/// Pure predicate over the name; never touches the filesystem. Every name
/// accepted here stays strictly inside the directory it is stored under.
pub fn path_is_valid(path: &str) -> (r: bool)
    ensures
        r == valid_segment(path@),
{
    let n = path.unicode_len();
    if n == 0 {
        return false;
    }
    let mut i: usize = 0;
    while i < n
        invariant
            path@.len() == n as nat,
            i <= n,
            forall|j: int| 0 <= j < i ==> path@[j] != '/',
        decreases n - i,
    {
        if path.get_char(i) == '/' {
            return false;
        }
        i += 1;
    }
    if n == 1 && path.get_char(0) == '.' {
        return false;
    }
    if n == 2 && path.get_char(0) == '.' && path.get_char(1) == '.' {
        return false;
    }
    true
}

/// Law: a name containing a path separator is never valid.
pub proof fn lemma_separator_rejected(s: Seq<char>, i: int)
    requires
        0 <= i < s.len(),
        s[i] == '/',
    ensures
        !valid_segment(s),
{
}

/// Law: the parent-directory marker is never valid.
pub proof fn lemma_parent_marker_rejected(s: Seq<char>)
    requires
        is_parent_dir_marker(s),
    ensures
        !valid_segment(s),
{
}

/// Law: the empty name is never valid.
pub proof fn lemma_empty_rejected(s: Seq<char>)
    requires
        s.len() == 0,
    ensures
        !valid_segment(s),
{
}

/// Law: a non-empty name with no separator that is neither directory marker
/// is always valid.
pub proof fn lemma_plain_name_accepted(s: Seq<char>)
    requires
        s.len() > 0,
        forall|i: int| 0 <= i < s.len() ==> s[i] != '/',
        !is_cur_dir_marker(s),
        !is_parent_dir_marker(s),
    ensures
        valid_segment(s),
{
}

} // verus!
