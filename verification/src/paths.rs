//! Where a path lies in the repository, read from its text.
//!
//! Paths are repository-relative and `/`-separated, as `git ls-files` prints
//! them; what is on disk is asked of the file system by the caller.

use vstd::prelude::*;
use crate::text::{chars_of, contains_str, matches_at, occurs, starts_with_str};

verus! {

broadcast use vstd::string::group_string_axioms;

/// Whether a path lies under some crate's `src/`, the repository root's
/// included, and not under the build output.
pub open spec fn under_src_of(path: Seq<char>) -> bool {
    (matches_at(path, 0, "src/"@) || occurs(path, "/src/"@)) && !matches_at(path, 0, "target/"@)
}

/// Whether a path lies under some crate's `src/`, including a crate that sits
/// at the repository root and so has no directory in front of it.
pub fn under_src(path: &str) -> (r: bool)
    ensures
        r == under_src_of(path@),
{
    let p = chars_of(path);
    (starts_with_str(&p, "src/") || contains_str(&p, "/src/")) && !starts_with_str(&p, "target/")
}

} // verus!
