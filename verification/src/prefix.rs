//! The prefix filter used when extracting a subtree.
//!
//! Paths are `/`-joined component strings.  A prefix path either covers a
//! walked path (extract it), lies strictly below it (keep descending), or is
//! disjoint from it (prune the walk there).

use vstd::prelude::*;
use vstd::string::StringSliceAdditionalSpecFns;

verus! {

/// How a walked path relates to the requested prefix.
#[derive(Debug, Clone, Copy, PartialEq, Eq, Structural)]
pub enum PrefixMatch {
    Yes,
    No,
    Continue,
}

/// Whether the path `p` is a whole-component prefix of the path `q`: equal,
/// empty, or a leading part of `q` cut at a `/`.
pub open spec fn spec_path_starts_with(q: Seq<u8>, p: Seq<u8>) -> bool {
    ||| p.len() == 0
    ||| (p.len() <= q.len() && q.subrange(0, p.len() as int) == p && (p.len() == q.len() || q[p.len() as int] == 47))
}

/// The relation of a walked path to the prefix: covered, strictly above the
/// prefix, or disjoint.
pub open spec fn spec_match_prefix(pref: Seq<u8>, path: Seq<u8>) -> PrefixMatch {
    if spec_path_starts_with(path, pref) {
        PrefixMatch::Yes
    } else if spec_path_starts_with(pref, path) {
        PrefixMatch::Continue
    } else {
        PrefixMatch::No
    }
}

/// Whether `p` names a whole-component prefix of `q`.
fn path_starts_with(q: &str, p: &str) -> (r: bool)
    ensures
        r == spec_path_starts_with(q.spec_bytes(), p.spec_bytes()),
{
    let qb: &[u8] = q.as_bytes();
    let pb: &[u8] = p.as_bytes();
    let pn: usize = pb.len();
    let qn: usize = qb.len();
    if pn == 0 {
        return true;
    }
    if pn > qn {
        return false;
    }
    let mut i: usize = 0;
    while i < pn
        invariant
            0 <= i <= pn,
            pn == pb@.len(),
            qn == qb@.len(),
            0 < pn <= qn,
            qb@ == q.spec_bytes(),
            pb@ == p.spec_bytes(),
            forall|j: int| 0 <= j < i ==> qb@[j] == pb@[j],
        decreases pn - i,
    {
        if qb[i] != pb[i] {
            proof {
                assert(qb@.subrange(0, pn as int)[i as int] != pb@[i as int]);
            }
            return false;
        }
        i = i + 1;
    }
    proof {
        assert(qb@.subrange(0, pn as int) =~= pb@);
    }
    if pn == qn {
        true
    } else {
        qb[pn] == 47
    }
}

/// Classify a walked path against the extraction prefix.  The empty prefix
/// covers everything.
pub fn match_prefix(pref: &str, path: &str) -> (r: PrefixMatch)
    ensures
        r == spec_match_prefix(pref.spec_bytes(), path.spec_bytes()),
{
    if path_starts_with(path, pref) {
        PrefixMatch::Yes
    } else if path_starts_with(pref, path) {
        PrefixMatch::Continue
    } else {
        PrefixMatch::No
    }
}

} // verus!
