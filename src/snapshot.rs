use vstd::prelude::*;

use crate::buffer::MutationBuffer;
use crate::range::BoundRange;
use crate::scan::{
    distinct_keys, is_batch_result, is_scan_result, merge_batch_get, merge_scan, KvPair,
};
use crate::txn::pair_keys;

verus! {

/// A read-only view of the store at a fixed timestamp. It buffers nothing,
/// so each read returns what the store holds at that timestamp.
pub struct Snapshot {
    ts: u64,
}

impl Snapshot {
    pub closed spec fn timestamp_spec(&self) -> u64 {
        self.ts
    }

    /// A snapshot anchored at `timestamp`.
    pub fn new(timestamp: u64) -> (r: Snapshot)
        ensures
            r.timestamp_spec() == timestamp,
    {
        Snapshot { ts: timestamp }
    }

    pub fn timestamp(&self) -> (r: u64)
        ensures
            r == self.timestamp_spec(),
    {
        self.ts
    }

    /// Reads each of `keys` in `stored`, what the store holds for them at the
    /// snapshot's timestamp; keys without a value are left out, and each key
    /// comes out once.
    pub fn batch_get(&self, keys: &Vec<Vec<u8>>, stored: &Vec<KvPair>) -> (r: Vec<KvPair>)
        requires
            distinct_keys(stored@),
        ensures
            is_batch_result(Map::empty(), stored@, keys@, r@),
    {
        let none = MutationBuffer::new();
        merge_batch_get(&none, keys, stored)
    }

    /// Returns the first `limit` pairs of `stored` in `range`, ascending.
    pub fn scan(&self, range: &BoundRange, limit: u32, stored: &Vec<KvPair>) -> (r: Vec<KvPair>)
        requires
            distinct_keys(stored@),
        ensures
            is_scan_result(Map::empty(), stored@, *range, limit as nat, r@),
    {
        let none = MutationBuffer::new();
        merge_scan(&none, stored, range, limit)
    }

    /// The keys of `scan`.
    pub fn scan_keys(&self, range: &BoundRange, limit: u32, stored: &Vec<KvPair>) -> (r: Vec<
        Vec<u8>,
    >)
        requires
            distinct_keys(stored@),
        ensures
            exists|s: Seq<KvPair>|
                is_scan_result(Map::empty(), stored@, *range, limit as nat, s) && r@.len() == s.len()
                    && forall|i: int| 0 <= i < s.len() ==> #[trigger] r@[i]@ == s[i].key@,
    {
        let pairs = self.scan(range, limit, stored);
        pair_keys(&pairs)
    }
}

} // verus!
