use vstd::prelude::*;

use crate::buffer::{opt_view, MutationBuffer};
use crate::key::{compare_keys, copy_bytes};
use crate::range::BoundRange;
use crate::scan::{
    distinct_keys, is_batch_result, is_scan_result, merge_batch_get, merge_scan, KvPair,
};

verus! {

/// How a transaction detects write conflicts.
#[derive(Clone, Copy, Debug, PartialEq, Eq, Structural)]
pub enum TxnMode {
    /// Conflicts are found when the writes are prewritten.
    Optimistic,
    /// Keys read for update are locked as they are read.
    Pessimistic,
}

/// Where a transaction stands in its lifecycle.
#[derive(Clone, Copy, Debug, PartialEq, Eq, Structural)]
pub enum TxnState {
    Active,
    Prewriting,
    Committing,
    Committed,
    RolledBack,
    Failed,
}

/// What can go wrong in a transaction or a snapshot.
#[derive(Clone, Copy, Debug, PartialEq, Eq, Structural)]
pub enum TxnError {
    /// No endpoint could be reached, or the TLS material is unusable.
    Connection,
    /// The timestamp oracle could not be reached.
    Timestamp,
    /// Another transaction holds a lock or wrote a newer version; the retry
    /// budget is spent.
    LockConflict,
    /// A lock for update was not granted within the client's timeout.
    KeyLockedTimeout,
    /// A prewrite or commit may or may not have been applied.
    CommitAmbiguous,
    /// The operation is not allowed in the transaction's current state.
    InvalidState,
    /// A scan range is malformed.
    InvalidRange,
    /// The store refused a garbage-collection safepoint.
    GcRejected,
    /// The operation is not supported.
    Unsupported,
}

/// Number of times a transaction retries after meeting another's lock,
/// unless told otherwise.
pub const DEFAULT_LOCK_RETRIES: u32 = 10;

/// Whether no further operation is allowed in `s`.
pub open spec fn is_terminal(s: TxnState) -> bool {
    s == TxnState::Committed || s == TxnState::RolledBack || s == TxnState::Failed
}

/// What a transaction reads for `k`: its own buffered write if there is one,
/// else what the store holds at its start timestamp.
pub open spec fn read_through(
    ops: Map<Seq<u8>, Option<Seq<u8>>>,
    k: Seq<u8>,
    stored: Option<Seq<u8>>,
) -> Option<Seq<u8>> {
    if ops.contains_key(k) {
        ops[k]
    } else {
        stored
    }
}

/// The outcome of a primary prewrite: the primary key and the start
/// timestamp that secondary locks point back to.
#[derive(Clone, Debug)]
pub struct PrewriteResult {
    pub key: Vec<u8>,
    pub version: u64,
}

/// A read/write session anchored at a start timestamp. It buffers its
/// writes and drives the two-phase commit; the requests to the store are
/// made by the caller with the keys and timestamps that it hands out.
pub struct Transaction {
    start_ts: u64,
    mode: TxnMode,
    state: TxnState,
    buffer: MutationBuffer,
    primary: Option<Vec<u8>>,
    commit_ts: Option<u64>,
    retry_limit: u32,
    retries: u32,
    locked: Vec<Vec<u8>>,
}

impl Transaction {
    pub closed spec fn start_ts_spec(&self) -> u64 {
        self.start_ts
    }

    pub closed spec fn mode_spec(&self) -> TxnMode {
        self.mode
    }

    pub closed spec fn state_spec(&self) -> TxnState {
        self.state
    }

    /// The buffered writes, `None` standing for a deletion.
    pub closed spec fn ops(&self) -> Map<Seq<u8>, Option<Seq<u8>>> {
        self.buffer.ops()
    }

    /// The written keys in order of first write.
    pub closed spec fn keys(&self) -> Seq<Seq<u8>> {
        self.buffer.keys()
    }

    /// The primary key, once prewrite has begun.
    pub closed spec fn primary_spec(&self) -> Option<Seq<u8>> {
        opt_view(self.primary)
    }

    /// The commit timestamp, once the primary is committed.
    pub closed spec fn commit_ts_spec(&self) -> Option<u64> {
        self.commit_ts
    }

    /// The keys locked for update, in order of locking.
    pub closed spec fn locked_spec(&self) -> Seq<Seq<u8>> {
        self.locked@.map_values(|k: Vec<u8>| k@)
    }

    /// How many times a lock conflict is retried.
    pub closed spec fn retry_limit_spec(&self) -> u32 {
        self.retry_limit
    }

    /// How many lock conflicts have been retried so far.
    pub closed spec fn retries_spec(&self) -> u32 {
        self.retries
    }

    pub closed spec fn wf(&self) -> bool {
        &&& self.buffer.wf()
        &&& (self.mode == TxnMode::Optimistic ==> self.locked@.len() == 0)
        &&& (self.state == TxnState::Active ==> self.primary.is_none())
        &&& (self.state == TxnState::Prewriting ==> self.primary.is_some())
        &&& (self.state == TxnState::Committing || self.state == TxnState::Committed) ==> (
        self.primary.is_some() && self.commit_ts.is_some())
    }

    /// A fresh transaction at `start_ts` with nothing written, retrying a
    /// lock conflict at most `DEFAULT_LOCK_RETRIES` times.
    pub fn new(start_ts: u64, mode: TxnMode) -> (r: Transaction)
        ensures
            r.wf(),
            r.start_ts_spec() == start_ts,
            r.mode_spec() == mode,
            r.state_spec() == TxnState::Active,
            r.ops() == Map::<Seq<u8>, Option<Seq<u8>>>::empty(),
            r.keys() == Seq::<Seq<u8>>::empty(),
            r.primary_spec().is_none(),
            r.commit_ts_spec().is_none(),
            r.retry_limit_spec() == DEFAULT_LOCK_RETRIES,
            r.retries_spec() == 0,
    {
        Transaction::with_retry_limit(start_ts, mode, DEFAULT_LOCK_RETRIES)
    }

    /// An optimistic transaction at `start_ts` that retries a lock conflict
    /// at most `retry_limit` times.
    pub fn new_optimistic_with_retry(start_ts: u64, retry_limit: u32) -> (r: Transaction)
        ensures
            r.wf(),
            r.start_ts_spec() == start_ts,
            r.mode_spec() == TxnMode::Optimistic,
            r.state_spec() == TxnState::Active,
            r.ops() == Map::<Seq<u8>, Option<Seq<u8>>>::empty(),
            r.keys() == Seq::<Seq<u8>>::empty(),
            r.primary_spec().is_none(),
            r.commit_ts_spec().is_none(),
            r.retry_limit_spec() == retry_limit,
            r.retries_spec() == 0,
    {
        Transaction::with_retry_limit(start_ts, TxnMode::Optimistic, retry_limit)
    }

    fn with_retry_limit(start_ts: u64, mode: TxnMode, retry_limit: u32) -> (r: Transaction)
        ensures
            r.wf(),
            r.start_ts_spec() == start_ts,
            r.mode_spec() == mode,
            r.state_spec() == TxnState::Active,
            r.ops() == Map::<Seq<u8>, Option<Seq<u8>>>::empty(),
            r.keys() == Seq::<Seq<u8>>::empty(),
            r.primary_spec().is_none(),
            r.commit_ts_spec().is_none(),
            r.retry_limit_spec() == retry_limit,
            r.retries_spec() == 0,
    {
        Transaction {
            start_ts,
            mode,
            state: TxnState::Active,
            buffer: MutationBuffer::new(),
            primary: None,
            commit_ts: None,
            retry_limit,
            retries: 0,
            locked: Vec::new(),
        }
    }

    /// The retry limit for lock conflicts.
    pub fn retry_limit(&self) -> (r: u32)
        ensures
            r == self.retry_limit_spec(),
    {
        self.retry_limit
    }

    /// Decides what to do when a request met another transaction's lock:
    /// retry (the result counts the retries made, this one included), or,
    /// once the retries are spent, fail the transaction with a lock conflict.
    pub fn on_lock_conflict(&mut self) -> (r: Result<u32, TxnError>)
        requires
            old(self).wf(),
        ensures
            final(self).wf(),
            final(self).ops() == old(self).ops(),
            final(self).keys() == old(self).keys(),
            final(self).primary_spec() == old(self).primary_spec(),
            final(self).start_ts_spec() == old(self).start_ts_spec(),
            final(self).retry_limit_spec() == old(self).retry_limit_spec(),
            is_terminal(old(self).state_spec()) ==> r == Err::<u32, TxnError>(TxnError::InvalidState)
                && *final(self) == *old(self),
            !is_terminal(old(self).state_spec()) && old(self).retries_spec()
                < old(self).retry_limit_spec() ==> r == Ok::<u32, TxnError>(
                (old(self).retries_spec() + 1) as u32,
            ) && final(self).state_spec() == old(self).state_spec()
                && final(self).retries_spec() == old(self).retries_spec() + 1,
            !is_terminal(old(self).state_spec()) && old(self).retries_spec()
                >= old(self).retry_limit_spec() ==> r == Err::<u32, TxnError>(
                TxnError::LockConflict,
            ) && final(self).state_spec() == TxnState::Failed,
    {
        if self.is_finished() {
            return Err(TxnError::InvalidState);
        }
        if self.retries >= self.retry_limit {
            self.state = TxnState::Failed;
            return Err(TxnError::LockConflict);
        }
        self.retries = self.retries + 1;
        Ok(self.retries)
    }

    pub fn start_timestamp(&self) -> (r: u64)
        ensures
            r == self.start_ts_spec(),
    {
        self.start_ts
    }

    pub fn mode(&self) -> (r: TxnMode)
        ensures
            r == self.mode_spec(),
    {
        self.mode
    }

    /// Number of keys written.
    pub fn buffered_len(&self) -> (r: usize)
        requires
            self.wf(),
        ensures
            r == self.keys().len(),
    {
        self.buffer.len()
    }

    pub fn state(&self) -> (r: TxnState)
        ensures
            r == self.state_spec(),
    {
        self.state
    }

    /// The buffered write for `key`: `None` when the store must be read,
    /// `Some(None)` for a buffered deletion, `Some(Some(v))` for a put.
    pub fn get_buffered(&self, key: &[u8]) -> (r: Result<Option<Option<Vec<u8>>>, TxnError>)
        requires
            self.wf(),
        ensures
            is_terminal(self.state_spec()) <==> r.is_err(),
            r.is_err() ==> r == Err::<Option<Option<Vec<u8>>>, TxnError>(TxnError::InvalidState),
            r.is_ok() ==> (r.unwrap().is_some() == self.ops().contains_key(key@)),
            r.is_ok() && r.unwrap().is_some() ==> opt_view(r.unwrap().unwrap())
                == self.ops()[key@],
    {
        if self.is_finished() {
            return Err(TxnError::InvalidState);
        }
        Ok(self.buffer.lookup(key))
    }

    fn is_finished(&self) -> (r: bool)
        ensures
            r == is_terminal(self.state_spec()),
    {
        match self.state {
            TxnState::Committed | TxnState::RolledBack | TxnState::Failed => true,
            _ => false,
        }
    }

    /// Reads `key`, given `stored`, what the store holds for it at the start
    /// timestamp: the transaction's own write wins over the store.
    pub fn get(&self, key: &[u8], stored: Option<Vec<u8>>) -> (r: Result<Option<Vec<u8>>, TxnError>)
        requires
            self.wf(),
        ensures
            is_terminal(self.state_spec()) <==> r.is_err(),
            r.is_err() ==> r == Err::<Option<Vec<u8>>, TxnError>(TxnError::InvalidState),
            r.is_ok() ==> opt_view(r.unwrap()) == read_through(
                self.ops(),
                key@,
                opt_view(stored),
            ),
    {
        match self.get_buffered(key) {
            Err(e) => Err(e),
            Ok(Some(v)) => Ok(v),
            Ok(None) => Ok(stored),
        }
    }

    /// Whether a read for update must first lock the key in the store: only
    /// a pessimistic transaction locks; an optimistic one reads plainly.
    pub fn lock_for_update(&self) -> (r: Result<bool, TxnError>)
        requires
            self.wf(),
        ensures
            is_terminal(self.state_spec()) <==> r.is_err(),
            r.is_err() ==> r == Err::<bool, TxnError>(TxnError::InvalidState),
            r.is_ok() ==> r.unwrap() == (self.mode_spec() == TxnMode::Pessimistic),
    {
        if self.is_finished() {
            return Err(TxnError::InvalidState);
        }
        Ok(match self.mode {
            TxnMode::Pessimistic => true,
            TxnMode::Optimistic => false,
        })
    }

    /// Reads each of `keys` through the buffer into `stored`, what the store
    /// holds for them at the start timestamp; keys without a value are left
    /// out, and each key comes out once.
    pub fn batch_get(&self, keys: &Vec<Vec<u8>>, stored: &Vec<KvPair>) -> (r: Result<
        Vec<KvPair>,
        TxnError,
    >)
        requires
            self.wf(),
            distinct_keys(stored@),
        ensures
            is_terminal(self.state_spec()) <==> r.is_err(),
            r.is_err() ==> r == Err::<Vec<KvPair>, TxnError>(TxnError::InvalidState),
            r.is_ok() ==> is_batch_result(self.ops(), stored@, keys@, r.unwrap()@),
    {
        if self.is_finished() {
            return Err(TxnError::InvalidState);
        }
        Ok(merge_batch_get(&self.buffer, keys, stored))
    }

    /// Locking reads of several keys at once are not offered.
    pub fn batch_get_for_update(&self, keys: &Vec<Vec<u8>>) -> (r: Result<Vec<KvPair>, TxnError>)
        ensures
            r == Err::<Vec<KvPair>, TxnError>(TxnError::Unsupported),
    {
        Err(TxnError::Unsupported)
    }

    /// Scans `range` for at most `limit` pairs, merging the buffered writes
    /// over `stored`, the pairs that the store holds in the range at the
    /// start timestamp.
    pub fn scan(&self, range: &BoundRange, limit: u32, stored: &Vec<KvPair>) -> (r: Result<
        Vec<KvPair>,
        TxnError,
    >)
        requires
            self.wf(),
            distinct_keys(stored@),
        ensures
            is_terminal(self.state_spec()) <==> r.is_err(),
            r.is_err() ==> r == Err::<Vec<KvPair>, TxnError>(TxnError::InvalidState),
            r.is_ok() ==> is_scan_result(self.ops(), stored@, *range, limit as nat, r.unwrap()@),
    {
        if self.is_finished() {
            return Err(TxnError::InvalidState);
        }
        Ok(merge_scan(&self.buffer, stored, range, limit))
    }

    /// The keys of `scan`.
    pub fn scan_keys(&self, range: &BoundRange, limit: u32, stored: &Vec<KvPair>) -> (r: Result<
        Vec<Vec<u8>>,
        TxnError,
    >)
        requires
            self.wf(),
            distinct_keys(stored@),
        ensures
            is_terminal(self.state_spec()) <==> r.is_err(),
            r.is_err() ==> r == Err::<Vec<Vec<u8>>, TxnError>(TxnError::InvalidState),
            r.is_ok() ==> exists|s: Seq<KvPair>|
                is_scan_result(self.ops(), stored@, *range, limit as nat, s) && r.unwrap()@.len() == s.len()
                    && forall|i: int| 0 <= i < s.len() ==> #[trigger] r.unwrap()@[i]@ == s[i].key@,
    {
        match self.scan(range, limit, stored) {
            Err(e) => Err(e),
            Ok(pairs) => {
                let keys = pair_keys(&pairs);
                Ok(keys)
            },
        }
    }

    /// Buffers a put of `value` to `key`; allowed while the transaction is
    /// active, and touches no store.
    pub fn put(&mut self, key: Vec<u8>, value: Vec<u8>) -> (r: Result<(), TxnError>)
        requires
            old(self).wf(),
        ensures
            final(self).wf(),
            r.is_ok() == (old(self).state_spec() == TxnState::Active),
            r.is_err() ==> r == Err::<(), TxnError>(TxnError::InvalidState) && *final(self) == *old(self),
            r.is_ok() ==> final(self).ops() == old(self).ops().insert(key@, Some(value@)),
            r.is_ok() && old(self).ops().contains_key(key@) ==> final(self).keys() == old(
                self,
            ).keys(),
            r.is_ok() && !old(self).ops().contains_key(key@) ==> final(self).keys() == old(
                self,
            ).keys().push(key@),
            final(self).locked_spec() == old(self).locked_spec(),
            final(self).commit_ts_spec() == old(self).commit_ts_spec(),
            final(self).start_ts_spec() == old(self).start_ts_spec(),
            final(self).mode_spec() == old(self).mode_spec(),
            final(self).state_spec() == old(self).state_spec(),
            final(self).primary_spec() == old(self).primary_spec(),
    {
        if self.state != TxnState::Active {
            return Err(TxnError::InvalidState);
        }
        self.buffer.record(key, Some(value));
        Ok(())
    }

    /// Buffers a deletion of `key`; later reads in this transaction find
    /// nothing there.
    pub fn delete(&mut self, key: Vec<u8>) -> (r: Result<(), TxnError>)
        requires
            old(self).wf(),
        ensures
            final(self).wf(),
            r.is_ok() == (old(self).state_spec() == TxnState::Active),
            r.is_err() ==> r == Err::<(), TxnError>(TxnError::InvalidState) && *final(self) == *old(self),
            r.is_ok() ==> final(self).ops() == old(self).ops().insert(key@, None),
            r.is_ok() && old(self).ops().contains_key(key@) ==> final(self).keys() == old(
                self,
            ).keys(),
            r.is_ok() && !old(self).ops().contains_key(key@) ==> final(self).keys() == old(
                self,
            ).keys().push(key@),
            final(self).locked_spec() == old(self).locked_spec(),
            final(self).commit_ts_spec() == old(self).commit_ts_spec(),
            final(self).start_ts_spec() == old(self).start_ts_spec(),
            final(self).mode_spec() == old(self).mode_spec(),
            final(self).state_spec() == old(self).state_spec(),
            final(self).primary_spec() == old(self).primary_spec(),
    {
        if self.state != TxnState::Active {
            return Err(TxnError::InvalidState);
        }
        self.buffer.record(key, None);
        Ok(())
    }

    /// The written keys other than `primary`, in order of first write.
    fn secondary_keys(&self, primary: &[u8]) -> (r: Vec<Vec<u8>>)
        requires
            self.buffer.wf(),
        ensures
            r@.map_values(|k: Vec<u8>| k@) == secondaries(self.keys(), primary@),
    {
        let mut r: Vec<Vec<u8>> = Vec::new();
        let mut i: usize = 0;
        while i < self.buffer.len()
            invariant
                i <= self.buffer.len_spec(),
                self.keys().len() == self.buffer.len_spec(),
                r@.map_values(|k: Vec<u8>| k@) == secondaries(self.keys().take(i as int), primary@),
            decreases self.buffer.len_spec() - i,
        {
            let e = self.buffer.entry(i);
            let ghost ks = self.keys().take(i as int + 1);
            assert(ks.drop_last() =~= self.keys().take(i as int));
            assert(ks.last() == e.key@);
            if compare_keys(e.key.as_slice(), primary) != 0 {
                r.push(copy_bytes(e.key.as_slice()));
                assert(r@.map_values(|k: Vec<u8>| k@) =~= secondaries(ks, primary@));
            }
            i = i + 1;
        }
        assert(self.keys().take(i as int) =~= self.keys());
        r
    }

    /// Records that `key` was locked for update in the store, so that commit
    /// or rollback releases it. Only a pessimistic transaction that has not
    /// begun its commit takes such locks.
    pub fn record_for_update(&mut self, key: Vec<u8>) -> (r: Result<(), TxnError>)
        requires
            old(self).wf(),
        ensures
            final(self).wf(),
            r.is_ok() == (old(self).state_spec() == TxnState::Active && old(self).mode_spec()
                == TxnMode::Pessimistic),
            r.is_err() ==> r == Err::<(), TxnError>(TxnError::InvalidState) && *final(self)
                == *old(self),
            r.is_ok() && old(self).locked_spec().contains(key@) ==> final(self).locked_spec()
                == old(self).locked_spec(),
            r.is_ok() && !old(self).locked_spec().contains(key@) ==> final(self).locked_spec()
                == old(self).locked_spec().push(key@),
            final(self).state_spec() == old(self).state_spec(),
            final(self).ops() == old(self).ops(),
            final(self).keys() == old(self).keys(),
            final(self).primary_spec() == old(self).primary_spec(),
            final(self).start_ts_spec() == old(self).start_ts_spec(),
    {
        if self.state != TxnState::Active {
            return Err(TxnError::InvalidState);
        }
        match self.mode {
            TxnMode::Optimistic => {
                return Err(TxnError::InvalidState);
            },
            TxnMode::Pessimistic => {},
        }
        assert(self.locked@.take(self.locked@.len() as int) =~= self.locked@);
        if !contains_key_in(&self.locked, self.locked.len(), key.as_slice()) {
            let ghost pre = self.locked_spec();
            let ghost kv = key@;
            self.locked.push(key);
            assert(self.locked_spec() =~= pre.push(kv));
        }
        Ok(())
    }

    /// `base` followed by the keys locked for update that it does not hold.
    fn with_unreleased(&self, base: Vec<Vec<u8>>) -> (r: Vec<Vec<u8>>)
        ensures
            r@.map_values(|k: Vec<u8>| k@) == base@.map_values(|k: Vec<u8>| k@) + unreleased(
                self.locked_spec(),
                base@.map_values(|k: Vec<u8>| k@),
            ),
    {
        let n = base.len();
        let ghost b = base@.map_values(|k: Vec<u8>| k@);
        let mut r = base;
        let mut i: usize = 0;
        while i < self.locked.len()
            invariant
                n == b.len(),
                i <= self.locked@.len(),
                n <= r@.len(),
                r@.take(n as int).map_values(|k: Vec<u8>| k@) == b,
                r@.map_values(|k: Vec<u8>| k@) == b + unreleased(
                    self.locked_spec().take(i as int),
                    b,
                ),
            decreases self.locked@.len() - i,
        {
            let ghost ls = self.locked_spec().take(i as int + 1);
            assert(ls.drop_last() =~= self.locked_spec().take(i as int));
            assert(ls.last() == self.locked@[i as int]@);
            let ghost before = r@;
            if !contains_key_in(&r, n, self.locked[i].as_slice()) {
                r.push(copy_bytes(self.locked[i].as_slice()));
                assert(r@.take(n as int) =~= before.take(n as int));
                assert(r@.map_values(|k: Vec<u8>| k@) =~= before.map_values(|k: Vec<u8>| k@).push(
                    self.locked@[i as int]@,
                ));
            }
            i = i + 1;
        }
        assert(self.locked_spec().take(i as int) =~= self.locked_spec());
        r
    }

    /// The keys that the prewrite has locked: none before it, else the
    /// primary and then every secondary.
    fn prewrite_lock_keys(&self) -> (r: Vec<Vec<u8>>)
        requires
            self.buffer.wf(),
        ensures
            r@.map_values(|k: Vec<u8>| k@) == prewrite_locks(self.primary_spec(), self.keys()),
    {
        let mut r: Vec<Vec<u8>> = Vec::new();
        match &self.primary {
            Some(p) => {
                let rest = self.secondary_keys(p.as_slice());
                r.push(copy_bytes(p.as_slice()));
                let mut i: usize = 0;
                while i < rest.len()
                    invariant
                        i <= rest@.len(),
                        r@.len() == 1 + i,
                        r@[0]@ == p@,
                        forall|j: int| 0 <= j < i ==> #[trigger] r@[j + 1]@ == rest@[j]@,
                    decreases rest.len() - i,
                {
                    r.push(copy_bytes(rest[i].as_slice()));
                    i = i + 1;
                }
                let ghost lhs = r@.map_values(|k: Vec<u8>| k@);
                let ghost rhs = seq![p@] + rest@.map_values(|k: Vec<u8>| k@);
                assert forall|j: int| 0 <= j < lhs.len() implies lhs[j] == rhs[j] by {
                    if j > 0 {
                        assert(r@[(j - 1) + 1]@ == rest@[j - 1]@);
                    }
                }
                assert(lhs =~= rhs);
            },
            None => {
                assert(r@.map_values(|k: Vec<u8>| k@) =~= Seq::<Seq<u8>>::empty());
            },
        }
        r
    }

    /// Starts the commit: takes `primary_key`, which must be a written key,
    /// as the primary, or the first written key when none is given, and
    /// moves to `Prewriting`. The caller
    /// then prewrites the primary at the returned start timestamp.
    pub fn prewrite_primary(&mut self, primary_key: Option<Vec<u8>>) -> (r: Result<
        PrewriteResult,
        TxnError,
    >)
        requires
            old(self).wf(),
        ensures
            final(self).wf(),
            r.is_ok() == (old(self).state_spec() == TxnState::Active && match primary_key {
                Some(p) => old(self).ops().contains_key(p@),
                None => old(self).keys().len() > 0,
            }),
            r.is_err() ==> r == Err::<PrewriteResult, TxnError>(TxnError::InvalidState)
                && *final(self) == *old(self),
            r.is_ok() ==> {
                &&& r.unwrap().key@ == match primary_key {
                    Some(p) => p@,
                    None => old(self).keys()[0],
                }
                &&& r.unwrap().version == old(self).start_ts_spec()
                &&& final(self).state_spec() == TxnState::Prewriting
                &&& final(self).primary_spec() == Some(r.unwrap().key@)
                &&& final(self).ops() == old(self).ops()
                &&& final(self).keys() == old(self).keys()
                &&& final(self).start_ts_spec() == old(self).start_ts_spec()
                &&& final(self).mode_spec() == old(self).mode_spec()
                &&& final(self).commit_ts_spec() == old(self).commit_ts_spec()
            },
    {
        if self.state != TxnState::Active {
            return Err(TxnError::InvalidState);
        }
        let key = match primary_key {
            Some(p) => {
                if self.buffer.position(p.as_slice()).is_none() {
                    return Err(TxnError::InvalidState);
                }
                p
            },
            None => {
                if self.buffer.len() == 0 {
                    return Err(TxnError::InvalidState);
                }
                copy_bytes(self.buffer.entry(0).key.as_slice())
            },
        };
        self.primary = Some(copy_bytes(key.as_slice()));
        self.state = TxnState::Prewriting;
        Ok(PrewriteResult { key, version: self.start_ts })
    }

    /// Hands out the secondary keys to prewrite, each pointing back to
    /// `primary_key` at `start_ts`; both must be those of the primary
    /// prewrite.
    pub fn prewrite_secondary(&mut self, primary_key: &[u8], start_ts: u64) -> (r: Result<
        Vec<Vec<u8>>,
        TxnError,
    >)
        requires
            old(self).wf(),
        ensures
            *final(self) == *old(self),
            r.is_ok() == (old(self).state_spec() == TxnState::Prewriting
                && old(self).primary_spec() == Some(primary_key@) && start_ts
                == old(self).start_ts_spec()),
            r.is_err() ==> r == Err::<Vec<Vec<u8>>, TxnError>(TxnError::InvalidState),
            r.is_ok() ==> r.unwrap()@.map_values(|k: Vec<u8>| k@) == secondaries(
                old(self).keys(),
                primary_key@,
            ),
    {
        if self.state != TxnState::Prewriting || start_ts != self.start_ts {
            return Err(TxnError::InvalidState);
        }
        match &self.primary {
            Some(p) => {
                if compare_keys(p.as_slice(), primary_key) != 0 {
                    return Err(TxnError::InvalidState);
                }
            },
            None => {
                return Err(TxnError::InvalidState);
            },
        }
        Ok(self.secondary_keys(primary_key))
    }

    /// Records `commit_ts`, fetched after the prewrites, as the commit
    /// timestamp, and moves to `Committing`: once the caller has committed
    /// the primary at it, the transaction is committed.
    pub fn commit_primary(&mut self, commit_ts: u64) -> (r: Result<u64, TxnError>)
        requires
            old(self).wf(),
        ensures
            final(self).wf(),
            old(self).state_spec() != TxnState::Prewriting ==> r == Err::<u64, TxnError>(
                TxnError::InvalidState,
            ),
            old(self).state_spec() == TxnState::Prewriting && commit_ts < old(self).start_ts_spec()
                ==> r == Err::<u64, TxnError>(TxnError::Timestamp),
            r.is_err() ==> *final(self) == *old(self),
            r.is_ok() == (old(self).state_spec() == TxnState::Prewriting && commit_ts
                >= old(self).start_ts_spec()),
            r.is_ok() ==> r == Ok::<u64, TxnError>(commit_ts) && final(self).state_spec()
                == TxnState::Committing && final(self).commit_ts_spec() == Some(commit_ts)
                && final(self).ops() == old(self).ops() && final(self).keys() == old(self).keys()
                && final(self).primary_spec() == old(self).primary_spec()
                && final(self).start_ts_spec() == old(self).start_ts_spec(),
    {
        if self.state != TxnState::Prewriting {
            return Err(TxnError::InvalidState);
        }
        if commit_ts < self.start_ts {
            return Err(TxnError::Timestamp);
        }
        self.commit_ts = Some(commit_ts);
        self.state = TxnState::Committing;
        Ok(commit_ts)
    }

    /// Finishes the commit: hands out the secondary keys to resolve at
    /// `commit_ts`, then the keys locked for update that were not written,
    /// whose locks are released, and moves to `Committed`. Called in any
    /// other state, or with another timestamp, it fails with
    /// `InvalidState` and changes nothing.
    pub fn commit_secondary(&mut self, commit_ts: u64) -> (r: Result<Vec<Vec<u8>>, TxnError>)
        requires
            old(self).wf(),
        ensures
            final(self).wf(),
            old(self).state_spec() == TxnState::Committing && old(self).commit_ts_spec() == Some(
                commit_ts,
            ) ==> r.is_ok() && {
                &&& final(self).state_spec() == TxnState::Committed
                &&& r.unwrap()@.map_values(|k: Vec<u8>| k@) == secondaries(
                    old(self).keys(),
                    old(self).primary_spec().unwrap(),
                ) + unreleased(
                    old(self).locked_spec(),
                    prewrite_locks(old(self).primary_spec(), old(self).keys()),
                )
                &&& final(self).commit_ts_spec() == old(self).commit_ts_spec()
                &&& final(self).ops() == old(self).ops()
                &&& final(self).keys() == old(self).keys()
                &&& final(self).primary_spec() == old(self).primary_spec()
                &&& final(self).start_ts_spec() == old(self).start_ts_spec()
            },
            !(old(self).state_spec() == TxnState::Committing && old(self).commit_ts_spec() == Some(
                commit_ts,
            )) ==> *final(self) == *old(self) && r == Err::<Vec<Vec<u8>>, TxnError>(
                TxnError::InvalidState,
            ),
    {
        if self.state != TxnState::Committing {
            return Err(TxnError::InvalidState);
        }
        match self.commit_ts {
            Some(c) => {
                if c != commit_ts {
                    return Err(TxnError::InvalidState);
                }
            },
            None => {
                return Err(TxnError::InvalidState);
            },
        }
        let r = match &self.primary {
            Some(p) => {
                let mut all = self.with_unreleased(self.prewrite_lock_keys());
                let ghost before = all@;
                assert(self.primary_spec() == Some(p@));
                assert(prewrite_locks(self.primary_spec(), self.keys()).len() >= 1);
                assert(before.map_values(|k: Vec<u8>| k@).len() == before.len());
                all.remove(0);
                assert(all@.map_values(|k: Vec<u8>| k@) =~= before.map_values(
                    |k: Vec<u8>| k@,
                ).drop_first());
                assert(prewrite_locks(self.primary_spec(), self.keys()).drop_first() =~= secondaries(
                    self.keys(),
                    p@,
                ));
                all
            },
            None => Vec::new(),
        };
        self.state = TxnState::Committed;
        Ok(r)
    }

    /// Marks the transaction failed after an error it cannot recover from.
    /// A finished transaction is left as it is.
    pub fn fail(&mut self)
        requires
            old(self).wf(),
        ensures
            final(self).wf(),
            is_terminal(old(self).state_spec()) ==> *final(self) == *old(self),
            !is_terminal(old(self).state_spec()) ==> final(self).state_spec() == TxnState::Failed,
            final(self).ops() == old(self).ops(),
            final(self).keys() == old(self).keys(),
            final(self).primary_spec() == old(self).primary_spec(),
            final(self).start_ts_spec() == old(self).start_ts_spec(),
    {
        if !self.is_finished() {
            self.state = TxnState::Failed;
        }
    }

    /// Abandons the transaction: discards the buffer and moves to
    /// `RolledBack`. Returns the keys whose locks the caller must erase: the
    /// primary and then every secondary once prewrite has begun, followed by
    /// the other keys locked for update. Refused once the primary is
    /// committed, or when already rolled back.
    pub fn rollback(&mut self) -> (r: Result<Vec<Vec<u8>>, TxnError>)
        requires
            old(self).wf(),
        ensures
            final(self).wf(),
            r.is_ok() == (old(self).state_spec() == TxnState::Active || old(self).state_spec()
                == TxnState::Prewriting || old(self).state_spec() == TxnState::Failed),
            r.is_err() ==> r == Err::<Vec<Vec<u8>>, TxnError>(TxnError::InvalidState)
                && *final(self) == *old(self),
            r.is_ok() ==> {
                &&& final(self).state_spec() == TxnState::RolledBack
                &&& final(self).ops() == Map::<Seq<u8>, Option<Seq<u8>>>::empty()
                &&& final(self).start_ts_spec() == old(self).start_ts_spec()
                &&& r.unwrap()@.map_values(|k: Vec<u8>| k@) == prewrite_locks(old(self).primary_spec(), old(self).keys())
                    + unreleased(old(self).locked_spec(), prewrite_locks(old(self).primary_spec(), old(self).keys()))
            },
    {
        match self.state {
            TxnState::Active | TxnState::Prewriting | TxnState::Failed => {},
            _ => {
                return Err(TxnError::InvalidState);
            },
        }
        let r = self.prewrite_lock_keys();
        let r = self.with_unreleased(r);
        self.locked = Vec::new();
        self.buffer = MutationBuffer::new();
        self.primary = None;
        self.commit_ts = None;
        self.state = TxnState::RolledBack;
        Ok(r)
    }
}

/// A read of a key that the same transaction has put returns the value put,
/// whatever the store holds, before any commit.
pub proof fn lemma_read_your_writes(
    before: Transaction,
    after: Transaction,
    k: Seq<u8>,
    v: Seq<u8>,
    stored: Option<Seq<u8>>,
)
    requires
        after.ops() == before.ops().insert(k, Some(v)),
    ensures
        read_through(after.ops(), k, stored) == Some(v),
{
}

/// A transaction that has not begun its commit has prewritten nothing, so
/// its rollback hands out only the keys it locked for update; an optimistic
/// one locks none, and its rollback leaves the store as it was.
pub proof fn lemma_rollback_before_prewrite(t: Transaction)
    requires
        t.wf(),
        t.state_spec() == TxnState::Active,
    ensures
        prewrite_locks(t.primary_spec(), t.keys()) == Seq::<Seq<u8>>::empty(),
        t.mode_spec() == TxnMode::Optimistic ==> t.locked_spec() == Seq::<Seq<u8>>::empty(),
        t.mode_spec() == TxnMode::Optimistic ==> unreleased(
            t.locked_spec(),
            prewrite_locks(t.primary_spec(), t.keys()),
        ) == Seq::<Seq<u8>>::empty(),
{
}

/// After a deletion, a read of the key finds nothing, whatever the store
/// holds.
pub proof fn lemma_read_your_deletes(
    before: Transaction,
    after: Transaction,
    k: Seq<u8>,
    stored: Option<Seq<u8>>,
)
    requires
        after.ops() == before.ops().insert(k, None),
    ensures
        read_through(after.ops(), k, stored) == None::<Seq<u8>>,
{
}

/// The keys of `locked` that are not in `released`, in order.
pub open spec fn unreleased(locked: Seq<Seq<u8>>, released: Seq<Seq<u8>>) -> Seq<Seq<u8>>
    decreases locked.len(),
{
    if locked.len() == 0 {
        Seq::empty()
    } else if released.contains(locked.last()) {
        unreleased(locked.drop_last(), released)
    } else {
        unreleased(locked.drop_last(), released).push(locked.last())
    }
}

/// Whether one of the first `n` of `keys` is `k`.
fn contains_key_in(keys: &Vec<Vec<u8>>, n: usize, k: &[u8]) -> (r: bool)
    requires
        n <= keys@.len(),
    ensures
        r == keys@.take(n as int).map_values(|x: Vec<u8>| x@).contains(k@),
{
    let ghost s = keys@.take(n as int).map_values(|x: Vec<u8>| x@);
    let mut i: usize = 0;
    while i < n
        invariant
            n <= keys@.len(),
            i <= n,
            s == keys@.take(n as int).map_values(|x: Vec<u8>| x@),
            forall|j: int| 0 <= j < i ==> s[j] != k@,
        decreases n - i,
    {
        if compare_keys(keys[i].as_slice(), k) == 0 {
            assert(s[i as int] == k@);
            return true;
        }
        i = i + 1;
    }
    assert forall|j: int| 0 <= j < s.len() implies s[j] != k@ by {}
    false
}

/// The keys that a prewrite has locked: none before it, else the primary
/// and then the other written keys.
pub open spec fn prewrite_locks(primary: Option<Seq<u8>>, keys: Seq<Seq<u8>>) -> Seq<Seq<u8>> {
    match primary {
        None => Seq::empty(),
        Some(p) => seq![p] + secondaries(keys, p),
    }
}

/// The keys of `keys` other than `primary`, in order.
pub open spec fn secondaries(keys: Seq<Seq<u8>>, primary: Seq<u8>) -> Seq<Seq<u8>>
    decreases keys.len(),
{
    if keys.len() == 0 {
        Seq::empty()
    } else if keys.last() == primary {
        secondaries(keys.drop_last(), primary)
    } else {
        secondaries(keys.drop_last(), primary).push(keys.last())
    }
}

/// The keys of `pairs`, in order.
pub fn pair_keys(pairs: &Vec<KvPair>) -> (r: Vec<Vec<u8>>)
    ensures
        r@.len() == pairs@.len(),
        forall|i: int| 0 <= i < pairs@.len() ==> #[trigger] r@[i]@ == pairs@[i].key@,
{
    let mut r: Vec<Vec<u8>> = Vec::new();
    let mut i: usize = 0;
    while i < pairs.len()
        invariant
            i <= pairs@.len(),
            r@.len() == i,
            forall|j: int| 0 <= j < i ==> #[trigger] r@[j]@ == pairs@[j].key@,
        decreases pairs.len() - i,
    {
        r.push(copy_bytes(pairs[i].key.as_slice()));
        i = i + 1;
    }
    r
}

} // verus!
