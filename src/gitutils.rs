//! What the library makes of the version-control tool's output.
use vstd::prelude::*;

use crate::text::{chars_of, string_of, trim, trim_bounds};

verus! {

/// The output of a command without surrounding whitespace.
pub fn trimmed_output(stdout: &str) -> (r: String)
    ensures
        r@ == trim(stdout@),
{
    let cs = chars_of(stdout);
    let (lo, hi) = trim_bounds(cs.as_slice(), 0, cs.len());
    proof {
        assert(cs@.subrange(0, cs@.len() as int) =~= cs@);
    }
    string_of(&cs, lo, hi)
}

/// The current branch, from the output of `rev-parse --abbrev-ref HEAD`:
/// `None` when it names no branch but `HEAD` (a detached checkout).
pub fn current_branch(stdout: &str) -> (r: Option<String>)
    ensures
        trim(stdout@) == "HEAD"@ ==> r is None,
        trim(stdout@) != "HEAD"@ ==> (r matches Some(b) && b@ == trim(stdout@)),
{
    let branch = trimmed_output(stdout);
    let head = String::from_str("HEAD");
    if branch == head {
        None
    } else {
        Some(branch)
    }
}

/// The revision range `<ancestor>..<dev>`: the commits reachable from `dev`
/// but not from `ancestor`.
pub fn revision_range(ancestor: &str, dev: &str) -> (r: String)
    ensures
        r@ == ancestor@ + ".."@ + dev@,
{
    let mut r = String::from_str(ancestor);
    r.append("..");
    r.append(dev);
    r
}

} // verus!
