use vstd::prelude::*;

use crate::buffer::opt_view;
use crate::key::{compare_keys, copy_bytes};
use crate::txn::TxnError;

verus! {

/// A committed version of a key: its commit timestamp, its value (`None`
/// for a deletion), and the start timestamp of the transaction that wrote it.
#[derive(Clone, Debug)]
pub struct Version {
    pub key: Vec<u8>,
    pub commit_ts: u64,
    pub value: Option<Vec<u8>>,
    pub start_ts: u64,
}

/// A lock on a key, held by the transaction that started at `start_ts`.
/// A prewrite lock carries the value to commit and points to the primary
/// key; a lock for update carries no value.
#[derive(Clone, Debug)]
pub struct StoredLock {
    pub key: Vec<u8>,
    pub start_ts: u64,
    pub primary: Vec<u8>,
    pub value: Option<Vec<u8>>,
    pub for_update: bool,
}

/// The view of a version: key, commit timestamp, value, start timestamp.
pub open spec fn version_view(v: Version) -> (Seq<u8>, u64, Option<Seq<u8>>, u64) {
    (v.key@, v.commit_ts, opt_view(v.value), v.start_ts)
}

/// The view of a lock: key, start timestamp, value, for update, primary.
pub open spec fn lock_view(l: StoredLock) -> (Seq<u8>, u64, Option<Seq<u8>>, bool, Seq<u8>) {
    (l.key@, l.start_ts, opt_view(l.value), l.for_update, l.primary@)
}

/// The commit timestamp of the version of `p` written by the transaction
/// started at `s`, if that transaction has committed `p`.
pub open spec fn commit_of(vs: Seq<(Seq<u8>, u64, Option<Seq<u8>>, u64)>, p: Seq<u8>, s: u64) -> Option<u64>
    decreases vs.len(),
{
    if vs.len() == 0 {
        None
    } else if vs.last().0 == p && vs.last().3 == s {
        Some(vs.last().1)
    } else {
        commit_of(vs.drop_last(), p, s)
    }
}

/// What a read of `k` at `ts` returns, or `None` when a lock leaves it in
/// doubt. A lock for update never stands in a reader's way, nor does a lock
/// taken after `ts`. A prewrite lock whose primary is committed at `c` is
/// settled by it: the locked value is seen at `ts >= c`, not before.
pub open spec fn read_outcome(
    vs: Seq<(Seq<u8>, u64, Option<Seq<u8>>, u64)>,
    ls: Seq<(Seq<u8>, u64, Option<Seq<u8>>, bool, Seq<u8>)>,
    k: Seq<u8>,
    ts: u64,
) -> Option<Option<Seq<u8>>> {
    let l = lock_on(ls, k);
    if l.is_some() && !l.unwrap().3 && l.unwrap().1 <= ts {
        match commit_of(vs, l.unwrap().4, l.unwrap().1) {
            None => None,
            Some(c) => if c <= ts {
                Some(l.unwrap().2)
            } else {
                Some(read_at(vs, k, ts))
            },
        }
    } else {
        Some(read_at(vs, k, ts))
    }
}

/// The index of the version of `k` that a read at `ts` sees: the one with
/// the greatest commit timestamp not above `ts`, the later one on a tie.
pub open spec fn latest(vs: Seq<(Seq<u8>, u64, Option<Seq<u8>>, u64)>, k: Seq<u8>, ts: u64) -> Option<
    int,
>
    decreases vs.len(),
{
    if vs.len() == 0 {
        None
    } else {
        let prev = latest(vs.drop_last(), k, ts);
        let last = vs.last();
        if last.0 == k && last.1 <= ts && (prev.is_none() || vs[prev.unwrap()].1 <= last.1) {
            Some(vs.len() - 1)
        } else {
            prev
        }
    }
}

/// What a read of `k` at `ts` returns: the value of the latest version at or
/// before `ts`, nothing if there is none or it is a deletion.
pub open spec fn read_at(vs: Seq<(Seq<u8>, u64, Option<Seq<u8>>, u64)>, k: Seq<u8>, ts: u64) -> Option<
    Seq<u8>,
> {
    match latest(vs, k, ts) {
        Some(i) => vs[i].2,
        None => None,
    }
}

/// Whether a version of `k` was committed after `ts`.
pub open spec fn has_newer(vs: Seq<(Seq<u8>, u64, Option<Seq<u8>>, u64)>, k: Seq<u8>, ts: u64) -> bool {
    exists|i: int| 0 <= i < vs.len() && vs[i].0 == k && vs[i].1 > ts
}

/// Whether `k` is locked.
pub open spec fn is_locked(ls: Seq<(Seq<u8>, u64, Option<Seq<u8>>, bool, Seq<u8>)>, k: Seq<u8>) -> bool {
    exists|i: int| 0 <= i < ls.len() && ls[i].0 == k
}

/// The lock on `k`, if any.
pub open spec fn lock_on(ls: Seq<(Seq<u8>, u64, Option<Seq<u8>>, bool, Seq<u8>)>, k: Seq<u8>) -> Option<
    (Seq<u8>, u64, Option<Seq<u8>>, bool, Seq<u8>),
> {
    if is_locked(ls, k) {
        Some(ls[choose|i: int| 0 <= i < ls.len() && ls[i].0 == k])
    } else {
        None
    }
}

/// Whether `k` is locked by a transaction other than the one started at `ts`.
pub open spec fn locked_by_other(ls: Seq<(Seq<u8>, u64, Option<Seq<u8>>, bool, Seq<u8>)>, k: Seq<u8>, ts: u64) -> bool {
    is_locked(ls, k) && lock_on(ls, k).unwrap().1 != ts
}

/// Whether a write of `k` by the transaction started at `ts` conflicts:
/// another holds a lock on it, or a newer version was committed.
pub open spec fn write_conflicts(
    vs: Seq<(Seq<u8>, u64, Option<Seq<u8>>, u64)>,
    ls: Seq<(Seq<u8>, u64, Option<Seq<u8>>, bool, Seq<u8>)>,
    k: Seq<u8>,
    ts: u64,
) -> bool {
    locked_by_other(ls, k, ts) || has_newer(vs, k, ts)
}

/// No two locks are on the same key.
pub open spec fn unique_keys(ls: Seq<(Seq<u8>, u64, Option<Seq<u8>>, bool, Seq<u8>)>) -> bool {
    forall|i: int, j: int| 0 <= i < j < ls.len() ==> #[trigger] ls[i].0 != #[trigger] ls[j].0
}

/// `new` holds `entry` as the lock on `k` and the same lock as `old` on
/// every other key.
pub open spec fn locks_after_set(
    old: Seq<(Seq<u8>, u64, Option<Seq<u8>>, bool, Seq<u8>)>,
    new: Seq<(Seq<u8>, u64, Option<Seq<u8>>, bool, Seq<u8>)>,
    k: Seq<u8>,
    entry: Option<(Seq<u8>, u64, Option<Seq<u8>>, bool, Seq<u8>)>,
) -> bool {
    &&& lock_on(new, k) == entry
    &&& forall|k2: Seq<u8>| k2 != k ==> #[trigger] lock_on(new, k2) == lock_on(old, k2)
}

proof fn lemma_lock_on_at(ls: Seq<(Seq<u8>, u64, Option<Seq<u8>>, bool, Seq<u8>)>, i: int)
    requires
        unique_keys(ls),
        0 <= i < ls.len(),
    ensures
        is_locked(ls, ls[i].0),
        lock_on(ls, ls[i].0) == Some(ls[i]),
{
    assert(is_locked(ls, ls[i].0));
    let j = choose|j: int| 0 <= j < ls.len() && ls[j].0 == ls[i].0;
    if i < j {
        assert(ls[i].0 != ls[j].0);
    } else if j < i {
        assert(ls[j].0 != ls[i].0);
    }
}

proof fn lemma_lock_remove(ls: Seq<(Seq<u8>, u64, Option<Seq<u8>>, bool, Seq<u8>)>, i: int)
    requires
        unique_keys(ls),
        0 <= i < ls.len(),
    ensures
        unique_keys(ls.remove(i)),
        locks_after_set(ls, ls.remove(i), ls[i].0, None),
{
    let r = ls.remove(i);
    let k = ls[i].0;
    assert forall|a: int, b: int| 0 <= a < b < r.len() implies #[trigger] r[a].0 != #[trigger] r[b].0 by {
        let a2 = if a < i { a } else { a + 1 };
        let b2 = if b < i { b } else { b + 1 };
        assert(r[a] == ls[a2] && r[b] == ls[b2]);
        assert(ls[a2].0 != ls[b2].0);
    }
    if is_locked(r, k) {
        let j = choose|j: int| 0 <= j < r.len() && r[j].0 == k;
        let j2 = if j < i { j } else { j + 1 };
        assert(r[j] == ls[j2]);
        if j2 < i {
            assert(ls[j2].0 != ls[i].0);
        } else {
            assert(ls[i].0 != ls[j2].0);
        }
    }
    assert forall|k2: Seq<u8>| k2 != k implies #[trigger] lock_on(r, k2) == lock_on(ls, k2) by {
        if is_locked(ls, k2) {
            let j = choose|j: int| 0 <= j < ls.len() && ls[j].0 == k2;
            assert(j != i);
            let j2 = if j < i { j } else { j - 1 };
            assert(r[j2] == ls[j]);
            lemma_lock_on_at(ls, j);
            lemma_lock_on_at(r, j2);
        }
        if is_locked(r, k2) {
            let j = choose|j: int| 0 <= j < r.len() && r[j].0 == k2;
            let j2 = if j < i { j } else { j + 1 };
            assert(r[j] == ls[j2]);
        }
    }
}

proof fn lemma_lock_push(ls: Seq<(Seq<u8>, u64, Option<Seq<u8>>, bool, Seq<u8>)>, x: (Seq<u8>, u64, Option<Seq<u8>>, bool, Seq<u8>))
    requires
        unique_keys(ls),
        !is_locked(ls, x.0),
    ensures
        unique_keys(ls.push(x)),
        locks_after_set(ls, ls.push(x), x.0, Some(x)),
{
    let r = ls.push(x);
    assert forall|a: int, b: int| 0 <= a < b < r.len() implies #[trigger] r[a].0 != #[trigger] r[b].0 by {
        assert(r[a] == ls[a]);
        if b < ls.len() {
            assert(r[b] == ls[b]);
        }
    }
    lemma_lock_on_at(r, ls.len() as int);
    assert forall|k2: Seq<u8>| k2 != x.0 implies #[trigger] lock_on(r, k2) == lock_on(ls, k2) by {
        if is_locked(ls, k2) {
            let j = choose|j: int| 0 <= j < ls.len() && ls[j].0 == k2;
            assert(r[j] == ls[j]);
            lemma_lock_on_at(ls, j);
            lemma_lock_on_at(r, j);
        }
        if is_locked(r, k2) {
            let j = choose|j: int| 0 <= j < r.len() && r[j].0 == k2;
            assert(j < ls.len());
            assert(r[j] == ls[j]);
        }
    }
}

proof fn lemma_latest_found(vs: Seq<(Seq<u8>, u64, Option<Seq<u8>>, u64)>, k: Seq<u8>, ts: u64)
    ensures
        latest(vs, k, ts).is_some() ==> {
            let i = latest(vs, k, ts).unwrap();
            0 <= i < vs.len() && vs[i].0 == k && vs[i].1 <= ts
        },
    decreases vs.len(),
{
    if vs.len() > 0 {
        lemma_latest_found(vs.drop_last(), k, ts);
    }
}

/// Snapshot isolation of a commit: once a version of `k` is committed at
/// `c`, a read at a timestamp `ts >= c` sees it (unless a later version of
/// `k` was already there), while a read at `ts < c`, and a read of any other
/// key, sees what it saw before.
pub proof fn lemma_commit_visibility(
    vs: Seq<(Seq<u8>, u64, Option<Seq<u8>>, u64)>,
    k: Seq<u8>,
    c: u64,
    v: Option<Seq<u8>>,
    s: u64,
    k2: Seq<u8>,
    ts: u64,
)
    ensures
        ts >= c && !has_newer(vs, k, c) ==> read_at(vs.push((k, c, v, s)), k, ts) == v,
        ts < c ==> read_at(vs.push((k, c, v, s)), k2, ts) == read_at(vs, k2, ts),
        k2 != k ==> read_at(vs.push((k, c, v, s)), k2, ts) == read_at(vs, k2, ts),
{
    let n = vs.push((k, c, v, s));
    assert(n.drop_last() =~= vs);
    assert(n.last() == (k, c, v, s));
    lemma_latest_found(vs, k, ts);
    lemma_latest_found(vs, k2, ts);
    if ts < c || k2 != k {
        assert(latest(n, k2, ts) == latest(vs, k2, ts));
        if latest(vs, k2, ts).is_some() {
            assert(n[latest(vs, k2, ts).unwrap()] == vs[latest(vs, k2, ts).unwrap()]);
        }
    }
    if ts >= c && !has_newer(vs, k, c) {
        let prev = latest(vs, k, ts);
        if prev.is_some() {
            assert(vs[prev.unwrap()].0 == k);
            assert(!(vs[prev.unwrap()].1 > c));
        }
    }
}

/// First writer wins: while one transaction holds the lock on `k`, or once
/// it has committed `k` after another's start, the other's prewrite of `k`
/// is a conflict, so both cannot commit versions of `k` over each other.
pub proof fn lemma_write_conflict(s: MemStore, k: Seq<u8>, t1: u64, t2: u64, c1: u64)
    requires
        s.wf(),
        t1 != t2,
        (is_locked(s.locks_view(), k) && lock_on(s.locks_view(), k).unwrap().1 == t1) || (exists|i: int|
            0 <= i < s.versions_view().len() && s.versions_view()[i].0 == k
                && s.versions_view()[i].1 == c1) && c1 > t2,
    ensures
        write_conflicts(s.versions_view(), s.locks_view(), k, t2),
{
}

/// Exactly one of two overlapping writers of `k` prewrites it: on a key that
/// is unlocked and has no version newer than `t1`, the prewrite of the
/// transaction started at `t1` does not conflict, and once its lock is in
/// place a prewrite of `k` by any other transaction does.
pub proof fn lemma_first_writer_wins(
    before: MemStore,
    after: MemStore,
    k: Seq<u8>,
    t1: u64,
    t2: u64,
    entry: (Seq<u8>, u64, Option<Seq<u8>>, bool, Seq<u8>),
)
    requires
        before.wf(),
        !is_locked(before.locks_view(), k),
        !has_newer(before.versions_view(), k, t1),
        t1 != t2,
        entry.1 == t1,
        locks_after_set(before.locks_view(), after.locks_view(), k, Some(entry)),
    ensures
        !write_conflicts(before.versions_view(), before.locks_view(), k, t1),
        write_conflicts(after.versions_view(), after.locks_view(), k, t2),
{
    if !is_locked(after.locks_view(), k) {
        assert(lock_on(after.locks_view(), k).is_none());
    }
}

/// Snapshot isolation of reads against a writer's lock on `k`: a reader
/// whose timestamp is below the writer's start never waits on it and sees
/// the committed versions; once the writer's primary is committed at `c`, a
/// reader at `ts >= c` sees the written value and one at `ts < c` sees the
/// committed versions as before.
pub proof fn lemma_read_against_lock(
    vs: Seq<(Seq<u8>, u64, Option<Seq<u8>>, u64)>,
    ls: Seq<(Seq<u8>, u64, Option<Seq<u8>>, bool, Seq<u8>)>,
    k: Seq<u8>,
    ts: u64,
)
    requires
        is_locked(ls, k),
        !lock_on(ls, k).unwrap().3,
    ensures
        ts < lock_on(ls, k).unwrap().1 ==> read_outcome(vs, ls, k, ts) == Some(read_at(vs, k, ts)),
        commit_of(vs, lock_on(ls, k).unwrap().4, lock_on(ls, k).unwrap().1) matches Some(c) ==> (
        ts >= c && lock_on(ls, k).unwrap().1 <= ts ==> read_outcome(vs, ls, k, ts) == Some(
            lock_on(ls, k).unwrap().2,
        )) && (ts < c ==> read_outcome(vs, ls, k, ts) == Some(read_at(vs, k, ts))),
{
}

/// Locks for update exclude each other: while one transaction holds the
/// lock on `k` another's request is not granted, and once the holder
/// commits or rolls back, releasing the lock, the request is granted (see
/// `MemStore::lock_for_update`, granted exactly when no other transaction
/// holds the lock), whatever versions the holder committed.
pub proof fn lemma_lock_exclusive(
    held: MemStore,
    released: MemStore,
    k: Seq<u8>,
    t1: u64,
    t2: u64,
)
    requires
        held.wf(),
        t1 != t2,
        is_locked(held.locks_view(), k),
        lock_on(held.locks_view(), k).unwrap().1 == t1,
        locks_after_set(held.locks_view(), released.locks_view(), k, None),
    ensures
        locked_by_other(held.locks_view(), k, t2),
        !locked_by_other(released.locks_view(), k, t2),
{
    if is_locked(released.locks_view(), k) {
        assert(lock_on(released.locks_view(), k).is_some());
    }
}

/// A rollback after a prewrite of an unlocked key leaves the store as it
/// was: the same versions, and the same lock on every key.
pub proof fn lemma_rollback_restores(
    before: MemStore,
    prewritten: MemStore,
    rolled_back: MemStore,
    k: Seq<u8>,
    entry: (Seq<u8>, u64, Option<Seq<u8>>, bool, Seq<u8>),
)
    requires
        !is_locked(before.locks_view(), k),
        prewritten.versions_view() == before.versions_view(),
        locks_after_set(before.locks_view(), prewritten.locks_view(), k, Some(entry)),
        rolled_back.versions_view() == prewritten.versions_view(),
        locks_after_set(prewritten.locks_view(), rolled_back.locks_view(), k, None),
    ensures
        rolled_back.versions_view() == before.versions_view(),
        forall|k2: Seq<u8>| #[trigger] lock_on(rolled_back.locks_view(), k2) == lock_on(before.locks_view(), k2),
{
    assert forall|k2: Seq<u8>| #[trigger] lock_on(rolled_back.locks_view(), k2) == lock_on(before.locks_view(), k2) by {
        if k2 != k {
            assert(lock_on(prewritten.locks_view(), k2) == lock_on(before.locks_view(), k2));
        }
    }
}

/// Round trip: after `v` is committed to `k` at `c` in a store where `k`
/// had no later version, a snapshot read at a timestamp `ts >= c` returns
/// `v`, and one at `ts < c` returns what the key held before.
pub proof fn lemma_round_trip(
    before: MemStore,
    after: MemStore,
    k: Seq<u8>,
    v: Seq<u8>,
    c: u64,
    s: u64,
    ts: u64,
)
    requires
        !has_newer(before.versions_view(), k, c),
        after.versions_view() == before.versions_view().push((k, c, Some(v), s)),
    ensures
        ts >= c ==> read_at(after.versions_view(), k, ts) == Some(v),
        ts < c ==> read_at(after.versions_view(), k, ts) == read_at(before.versions_view(), k, ts),
{
    lemma_commit_visibility(before.versions_view(), k, c, Some(v), s, k, ts);
}

/// An in-memory multi-version store with per-key locks, on which the
/// two-phase commit can be run and checked without a cluster.
pub struct MemStore {
    versions: Vec<Version>,
    locks: Vec<StoredLock>,
}

impl MemStore {
    /// The committed versions, in order of commit.
    pub closed spec fn versions_view(&self) -> Seq<(Seq<u8>, u64, Option<Seq<u8>>, u64)> {
        self.versions@.map_values(|v: Version| version_view(v))
    }

    /// The locks held.
    pub closed spec fn locks_view(&self) -> Seq<(Seq<u8>, u64, Option<Seq<u8>>, bool, Seq<u8>)> {
        self.locks@.map_values(|l: StoredLock| lock_view(l))
    }

    /// At most one lock per key.
    pub open spec fn wf(&self) -> bool {
        unique_keys(self.locks_view())
    }

    /// An empty store.
    pub fn new() -> (r: MemStore)
        ensures
            r.wf(),
            r.versions_view().len() == 0,
            r.locks_view().len() == 0,
    {
        let r = MemStore { versions: Vec::new(), locks: Vec::new() };
        assert(r.locks_view().len() == 0);
        r
    }

    /// The index of the lock on `key`, if any.
    fn lock_index(&self, key: &[u8]) -> (r: Option<usize>)
        requires
            self.wf(),
        ensures
            match r {
                Some(i) => i < self.locks_view().len() && self.locks_view()[i as int].0 == key@
                    && lock_on(self.locks_view(), key@) == Some(self.locks_view()[i as int]),
                None => !is_locked(self.locks_view(), key@),
            },
    {
        let mut i: usize = 0;
        while i < self.locks.len()
            invariant
                self.wf(),
                i <= self.locks_view().len(),
                self.locks_view().len() == self.locks@.len(),
                forall|j: int| 0 <= j < i ==> self.locks_view()[j].0 != key@,
            decreases self.locks.len() - i,
        {
            if compare_keys(self.locks[i].key.as_slice(), key) == 0 {
                proof {
                    let ls = self.locks_view();
                    assert(ls[i as int].0 == key@);
                    assert(is_locked(ls, key@));
                    let j = choose|j: int| 0 <= j < ls.len() && ls[j].0 == key@;
                    if j < i {
                    } else if j > i {
                        assert(ls[i as int].0 != ls[j].0);
                    }
                }
                return Some(i);
            }
            i = i + 1;
        }
        None
    }

    /// Whether a version of `key` was committed after `ts`.
    fn newer_version(&self, key: &[u8], ts: u64) -> (r: bool)
        ensures
            r == has_newer(self.versions_view(), key@, ts),
    {
        let mut i: usize = 0;
        while i < self.versions.len()
            invariant
                i <= self.versions@.len(),
                self.versions_view().len() == self.versions@.len(),
                forall|j: int|
                    0 <= j < i ==> !(self.versions_view()[j].0 == key@ && self.versions_view()[j].1
                        > ts),
            decreases self.versions.len() - i,
        {
            if self.versions[i].commit_ts > ts && compare_keys(self.versions[i].key.as_slice(), key) == 0 {
                assert(self.versions_view()[i as int].0 == key@);
                return true;
            }
            i = i + 1;
        }
        false
    }

    /// The value of the latest version of `key` committed at or before `ts`.
    fn read_committed(&self, key: &[u8], ts: u64) -> (r: Option<Vec<u8>>)
        ensures
            opt_view(r) == read_at(self.versions_view(), key@, ts),
    {
        let ghost vs = self.versions_view();
        let mut best: Option<usize> = None;
        let mut i: usize = 0;
        while i < self.versions.len()
            invariant
                i <= self.versions@.len(),
                vs == self.versions_view(),
                vs.len() == self.versions@.len(),
                match best {
                    Some(b) => latest(vs.take(i as int), key@, ts) == Some(b as int) && b < i,
                    None => latest(vs.take(i as int), key@, ts).is_none(),
                },
            decreases self.versions.len() - i,
        {
            let ghost t = vs.take(i as int + 1);
            assert(t.drop_last() =~= vs.take(i as int));
            assert(t.last() == vs[i as int]);
            let v = &self.versions[i];
            if v.commit_ts <= ts && compare_keys(v.key.as_slice(), key) == 0 {
                let take = match best {
                    None => true,
                    Some(b) => self.versions[b].commit_ts <= v.commit_ts,
                };
                if take {
                    best = Some(i);
                }
            }
            i = i + 1;
        }
        assert(vs.take(i as int) =~= vs);
        match best {
            Some(b) => match &self.versions[b].value {
                Some(val) => Some(copy_bytes(val.as_slice())),
                None => None,
            },
            None => None,
        }
    }

    /// The commit timestamp of the version of `primary` written by the
    /// transaction started at `start_ts`, if any.
    fn commit_ts_of(&self, primary: &[u8], start_ts: u64) -> (r: Option<u64>)
        ensures
            r == commit_of(self.versions_view(), primary@, start_ts),
    {
        let ghost vs = self.versions_view();
        let mut found: Option<u64> = None;
        let mut i: usize = 0;
        while i < self.versions.len()
            invariant
                i <= self.versions@.len(),
                vs == self.versions_view(),
                vs.len() == self.versions@.len(),
                found == commit_of(vs.take(i as int), primary@, start_ts),
            decreases self.versions.len() - i,
        {
            let ghost t = vs.take(i as int + 1);
            assert(t.drop_last() =~= vs.take(i as int));
            assert(t.last() == vs[i as int]);
            let v = &self.versions[i];
            if v.start_ts == start_ts && compare_keys(v.key.as_slice(), primary) == 0 {
                found = Some(v.commit_ts);
            }
            i = i + 1;
        }
        assert(vs.take(i as int) =~= vs);
        found
    }

    /// Reads `key` at `ts`. A prewrite lock taken at or before `ts` is
    /// settled through its primary: if the primary is committed, the locked
    /// value is seen from the primary's commit timestamp on; if not, the
    /// outcome is in doubt and the read reports a conflict. Locks for update
    /// do not stand in a reader's way.
    pub fn read(&self, key: &[u8], ts: u64) -> (r: Result<Option<Vec<u8>>, TxnError>)
        requires
            self.wf(),
        ensures
            read_outcome(self.versions_view(), self.locks_view(), key@, ts).is_none() ==> r
                == Err::<Option<Vec<u8>>, TxnError>(TxnError::LockConflict),
            read_outcome(self.versions_view(), self.locks_view(), key@, ts).is_some() ==> r.is_ok()
                && opt_view(r.unwrap()) == read_outcome(
                self.versions_view(),
                self.locks_view(),
                key@,
                ts,
            ).unwrap(),
    {
        match self.lock_index(key) {
            Some(li) => {
                let l = &self.locks[li];
                if !l.for_update && l.start_ts <= ts {
                    match self.commit_ts_of(l.primary.as_slice(), l.start_ts) {
                        None => {
                            return Err(TxnError::LockConflict);
                        },
                        Some(c) => {
                            if c <= ts {
                                return Ok(
                                    match &l.value {
                                        Some(v) => Some(copy_bytes(v.as_slice())),
                                        None => None,
                                    },
                                );
                            }
                        },
                    }
                }
            },
            None => {},
        }
        Ok(self.read_committed(key, ts))
    }

    /// Settles the prewrite lock on `key` once its primary is committed:
    /// commits the locked value at the primary's commit timestamp and
    /// releases the lock. Any other lock, or none, is left as it is.
    pub fn resolve_lock(&mut self, key: &[u8])
        requires
            old(self).wf(),
        ensures
            final(self).wf(),
            ({
                let l = lock_on(old(self).locks_view(), key@);
                if l.is_some() && !l.unwrap().3 && commit_of(
                    old(self).versions_view(),
                    l.unwrap().4,
                    l.unwrap().1,
                ).is_some() {
                    &&& locks_after_set(old(self).locks_view(), final(self).locks_view(), key@, None)
                    &&& final(self).versions_view() == old(self).versions_view().push(
                        (
                            key@,
                            commit_of(old(self).versions_view(), l.unwrap().4, l.unwrap().1).unwrap(),
                            l.unwrap().2,
                            l.unwrap().1,
                        ),
                    )
                } else {
                    *final(self) == *old(self)
                }
            }),
    {
        let li = match self.lock_index(key) {
            Some(li) => li,
            None => {
                return;
            },
        };
        if self.locks[li].for_update {
            return;
        }
        let start = self.locks[li].start_ts;
        let primary = copy_bytes(self.locks[li].primary.as_slice());
        match self.commit_ts_of(primary.as_slice(), start) {
            Some(c) => {
                let _ = self.commit(key, start, c);
            },
            None => {},
        }
    }

    /// Replaces the lock on `key` by `lock`, or removes it.
    fn set_lock(&mut self, key: &[u8], lock: Option<StoredLock>)
        requires
            old(self).wf(),
            lock.is_some() ==> lock.unwrap().key@ == key@,
        ensures
            final(self).wf(),
            final(self).versions_view() == old(self).versions_view(),
            locks_after_set(
                old(self).locks_view(),
                final(self).locks_view(),
                key@,
                match lock {
                    Some(l) => Some(lock_view(l)),
                    None => None,
                },
            ),
            !is_locked(old(self).locks_view(), key@) && lock.is_some() ==> final(self).locks_view()
                == old(self).locks_view().push(lock_view(lock.unwrap())),
    {
        let ghost ls0 = self.locks_view();
        match self.lock_index(key) {
            Some(i) => {
                self.locks.remove(i);
                proof {
                    assert(self.locks_view() =~= ls0.remove(i as int));
                    lemma_lock_remove(ls0, i as int);
                }
            },
            None => {
                proof {
                    assert forall|k2: Seq<u8>| k2 != key@ implies #[trigger] lock_on(self.locks_view(), k2)
                        == lock_on(ls0, k2) by {}
                }
            },
        }
        let ghost ls1 = self.locks_view();
        match lock {
            Some(l) => {
                let ghost x = lock_view(l);
                self.locks.push(l);
                proof {
                    assert(self.locks_view() =~= ls1.push(x));
                    lemma_lock_push(ls1, x);
                }
            },
            None => {},
        }
    }

    /// Prewrites `key` for the transaction started at `start_ts`: locks it
    /// and records `value` (`None`: a deletion) to commit, pointing to
    /// `primary`. Fails with a conflict where another transaction holds the
    /// lock or a version was committed after `start_ts`.
    pub fn prewrite(&mut self, key: Vec<u8>, value: Option<Vec<u8>>, primary: Vec<u8>, start_ts: u64) -> (r: Result<(), TxnError>)
        requires
            old(self).wf(),
        ensures
            final(self).wf(),
            r.is_err() == write_conflicts(old(self).versions_view(), old(self).locks_view(), key@, start_ts),
            r.is_err() ==> r == Err::<(), TxnError>(TxnError::LockConflict) && *final(self) == *old(self),
            r.is_ok() ==> final(self).versions_view() == old(self).versions_view()
                && locks_after_set(old(self).locks_view(), final(self).locks_view(), key@, Some((key@, start_ts, opt_view(value), false, primary@)))
                && (!is_locked(old(self).locks_view(), key@) ==> final(self).locks_view() == old(self).locks_view().push((key@, start_ts, opt_view(value), false, primary@))),
    {
        let conflict = match self.lock_index(key.as_slice()) {
            Some(i) => self.locks[i].start_ts != start_ts,
            None => false,
        };
        if conflict || self.newer_version(key.as_slice(), start_ts) {
            return Err(TxnError::LockConflict);
        }
        let k = copy_bytes(key.as_slice());
        self.set_lock(k.as_slice(), Some(StoredLock { key, start_ts, primary, value, for_update: false }));
        Ok(())
    }

    /// Locks `key` for update for the transaction started at `start_ts`.
    /// While another transaction holds a lock on the key the request is not
    /// granted (the caller waits and asks again); once no other transaction
    /// holds one, it is granted. As each such lock is taken at a fresh
    /// for-update timestamp, versions committed after `start_ts` do not stand
    /// in its way. A lock the transaction holds already is kept.
    pub fn lock_for_update(&mut self, key: Vec<u8>, start_ts: u64) -> (r: Result<(), TxnError>)
        requires
            old(self).wf(),
        ensures
            final(self).wf(),
            final(self).versions_view() == old(self).versions_view(),
            locked_by_other(old(self).locks_view(), key@, start_ts) ==> r == Err::<(), TxnError>(TxnError::KeyLockedTimeout)
                && *final(self) == *old(self),
            r.is_ok() == !locked_by_other(old(self).locks_view(), key@, start_ts),
            r.is_ok() && is_locked(old(self).locks_view(), key@) ==> *final(self) == *old(self),
            r.is_ok() && !is_locked(old(self).locks_view(), key@) ==> locks_after_set(
                old(self).locks_view(),
                final(self).locks_view(),
                key@,
                Some((key@, start_ts, None, true, key@)),
            ),
            r.is_ok() ==> lock_on(final(self).locks_view(), key@).is_some() && lock_on(final(self).locks_view(), key@).unwrap().1 == start_ts,
    {
        match self.lock_index(key.as_slice()) {
            Some(i) => {
                if self.locks[i].start_ts != start_ts {
                    return Err(TxnError::KeyLockedTimeout);
                }
                Ok(())
            },
            None => {
                let k = copy_bytes(key.as_slice());
                let primary = copy_bytes(key.as_slice());
                self.set_lock(k.as_slice(), Some(StoredLock { key, start_ts, primary, value: None, for_update: true }));
                Ok(())
            },
        }
    }

    /// Commits `key` for the transaction started at `start_ts`: releases its
    /// lock and, for a prewrite lock, records the value as a version at
    /// `commit_ts`. Fails where that transaction holds no lock on the key.
    pub fn commit(&mut self, key: &[u8], start_ts: u64, commit_ts: u64) -> (r: Result<(), TxnError>)
        requires
            old(self).wf(),
        ensures
            final(self).wf(),
            r.is_ok() == (is_locked(old(self).locks_view(), key@) && lock_on(old(self).locks_view(), key@).unwrap().1 == start_ts),
            r.is_err() ==> r == Err::<(), TxnError>(TxnError::InvalidState) && *final(self) == *old(self),
            r.is_ok() ==> locks_after_set(old(self).locks_view(), final(self).locks_view(), key@, None),
            r.is_ok() && !lock_on(old(self).locks_view(), key@).unwrap().3 ==> final(self).versions_view()
                == old(self).versions_view().push((key@, commit_ts, lock_on(old(self).locks_view(), key@).unwrap().2, start_ts)),
            r.is_ok() && lock_on(old(self).locks_view(), key@).unwrap().3 ==> final(self).versions_view()
                == old(self).versions_view(),
    {
        let i = match self.lock_index(key) {
            Some(i) => i,
            None => {
                return Err(TxnError::InvalidState);
            },
        };
        if self.locks[i].start_ts != start_ts {
            return Err(TxnError::InvalidState);
        }
        let for_update = self.locks[i].for_update;
        let value = match &self.locks[i].value {
            Some(v) => Some(copy_bytes(v.as_slice())),
            None => None,
        };
        let ghost vs0 = self.versions_view();
        self.set_lock(key, None);
        if !for_update {
            let ghost x = (key@, commit_ts, opt_view(value), start_ts);
            self.versions.push(Version { key: copy_bytes(key), commit_ts, value, start_ts });
            assert(self.versions_view() =~= vs0.push(x));
            assert(self.locks_view() == self.locks@.map_values(|l: StoredLock| lock_view(l)));
        }
        Ok(())
    }

    /// Erases the lock that the transaction started at `start_ts` holds on
    /// `key`, if any. Committed versions are never touched.
    pub fn rollback(&mut self, key: &[u8], start_ts: u64)
        requires
            old(self).wf(),
        ensures
            final(self).wf(),
            final(self).versions_view() == old(self).versions_view(),
            is_locked(old(self).locks_view(), key@) && lock_on(old(self).locks_view(), key@).unwrap().1 == start_ts
                ==> locks_after_set(old(self).locks_view(), final(self).locks_view(), key@, None),
            !(is_locked(old(self).locks_view(), key@) && lock_on(old(self).locks_view(), key@).unwrap().1 == start_ts)
                ==> *final(self) == *old(self),
    {
        match self.lock_index(key) {
            Some(i) => {
                if self.locks[i].start_ts == start_ts {
                    self.set_lock(key, None);
                }
            },
            None => {},
        }
    }
}

} // verus!
