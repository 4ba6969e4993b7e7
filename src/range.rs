use vstd::prelude::*;

use crate::key::{compare_keys, copy_bytes, key_le, key_lt};

verus! {

/// One end of a key interval.
#[derive(Clone, Copy, Debug, PartialEq, Eq, Structural)]
pub enum Bound {
    Included,
    Excluded,
    Unbounded,
}

/// A key interval: each end is included, excluded, or absent.
#[derive(Clone, Debug)]
pub struct BoundRange {
    pub start: Vec<u8>,
    pub start_bound: Bound,
    pub end: Vec<u8>,
    pub end_bound: Bound,
}

/// Whether `k` satisfies the lower end `(s, b)`.
pub open spec fn above_start(s: Seq<u8>, b: Bound, k: Seq<u8>) -> bool {
    match b {
        Bound::Included => key_le(s, k),
        Bound::Excluded => key_lt(s, k),
        Bound::Unbounded => true,
    }
}

/// Whether `k` satisfies the upper end `(e, b)`.
pub open spec fn below_end(e: Seq<u8>, b: Bound, k: Seq<u8>) -> bool {
    match b {
        Bound::Included => key_le(k, e),
        Bound::Excluded => key_lt(k, e),
        Bound::Unbounded => true,
    }
}

impl BoundRange {
    /// The predicate that a scan over this range applies to a key.
    pub open spec fn contains_spec(&self, k: Seq<u8>) -> bool {
        above_start(self.start@, self.start_bound, k) && below_end(self.end@, self.end_bound, k)
    }

    /// Tests whether `k` lies in the range.
    pub fn contains(&self, k: &[u8]) -> (r: bool)
        ensures
            r == self.contains_spec(k@),
    {
        let lo = match self.start_bound {
            Bound::Included => compare_keys(self.start.as_slice(), k) <= 0,
            Bound::Excluded => compare_keys(self.start.as_slice(), k) < 0,
            Bound::Unbounded => true,
        };
        if !lo {
            return false;
        }
        match self.end_bound {
            Bound::Included => compare_keys(k, self.end.as_slice()) <= 0,
            Bound::Excluded => compare_keys(k, self.end.as_slice()) < 0,
            Bound::Unbounded => true,
        }
    }
}

/// Builds the range with lower end `start` under `start_bound` and upper end
/// `end` under `end_bound`. The key of an unbounded end is not kept.
pub fn to_bound_range(start: &[u8], start_bound: Bound, end: &[u8], end_bound: Bound) -> (r:
    BoundRange)
    ensures
        r.start_bound == start_bound,
        r.end_bound == end_bound,
        start_bound != Bound::Unbounded ==> r.start@ == start@,
        start_bound == Bound::Unbounded ==> r.start@.len() == 0,
        end_bound != Bound::Unbounded ==> r.end@ == end@,
        end_bound == Bound::Unbounded ==> r.end@.len() == 0,
        forall|k: Seq<u8>|
            r.contains_spec(k) <==> (above_start(start@, start_bound, k) && below_end(
                end@,
                end_bound,
                k,
            )),
{
    let s = match start_bound {
        Bound::Unbounded => Vec::new(),
        _ => copy_bytes(start),
    };
    let e = match end_bound {
        Bound::Unbounded => Vec::new(),
        _ => copy_bytes(end),
    };
    BoundRange { start: s, start_bound, end: e, end_bound }
}

} // verus!
