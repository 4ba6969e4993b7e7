use tikv_txn::client::{check_connect_settings, Security};
use tikv_txn::key::compare_keys;
use tikv_txn::range::{to_bound_range, Bound};
use tikv_txn::scan::KvPair;
use tikv_txn::snapshot::Snapshot;
use tikv_txn::store::MemStore;
use tikv_txn::txn::{Transaction, TxnError, TxnMode, TxnState};

fn b(s: &str) -> Vec<u8> {
    s.as_bytes().to_vec()
}

fn pair(k: &str, v: &str) -> KvPair {
    KvPair { key: b(k), value: b(v) }
}

fn keys_of(pairs: &[KvPair]) -> Vec<Vec<u8>> {
    pairs.iter().map(|p| p.key.clone()).collect()
}

/// Runs the whole two-phase commit of `txn` against `store` at `commit_ts`.
fn commit_in(store: &mut MemStore, txn: &mut Transaction, commit_ts: u64) -> Result<u64, TxnError> {
    let pre = txn.prewrite_primary(None)?;
    let primary_value = txn.get_buffered(&pre.key)?.unwrap();
    if let Err(e) = store.prewrite(pre.key.clone(), primary_value, pre.key.clone(), pre.version) {
        txn.fail();
        return Err(e);
    }
    let secondaries = txn.prewrite_secondary(&pre.key, pre.version)?;
    for k in &secondaries {
        let v = txn.get_buffered(k)?.unwrap();
        if let Err(e) = store.prewrite(k.clone(), v, pre.key.clone(), pre.version) {
            txn.fail();
            return Err(e);
        }
    }
    let c = txn.commit_primary(commit_ts)?;
    store.commit(&pre.key, pre.version, c)?;
    for k in txn.commit_secondary(c)? {
        store.commit(&k, pre.version, c).unwrap();
    }
    Ok(c)
}

#[test]
fn compare_keys_orders_bytes() {
    assert_eq!(compare_keys(b"a", b"b"), -1);
    assert_eq!(compare_keys(b"b", b"a"), 1);
    assert_eq!(compare_keys(b"ab", b"ab"), 0);
    assert_eq!(compare_keys(b"a", b"ab"), -1);
    assert_eq!(compare_keys(b"", b"a"), -1);
    assert_eq!(compare_keys(&[0xff], &[0x01, 0x02]), 1);
}

#[test]
fn bound_range_ends() {
    let r = to_bound_range(b"b", Bound::Excluded, b"d", Bound::Included);
    assert!(!r.contains(b"b"));
    assert!(r.contains(b"c"));
    assert!(r.contains(b"d"));
    assert!(!r.contains(b"e"));
    let r = to_bound_range(b"b", Bound::Included, b"d", Bound::Excluded);
    assert!(r.contains(b"b"));
    assert!(!r.contains(b"d"));
    let r = to_bound_range(b"x", Bound::Unbounded, b"y", Bound::Unbounded);
    assert!(r.contains(b""));
    assert!(r.contains(b"zzz"));
    assert!(r.start.is_empty() && r.end.is_empty());
}

#[test]
fn read_your_own_writes() {
    let mut t = Transaction::new(10, TxnMode::Optimistic);
    assert_eq!(t.get(b"k", None), Ok(None));
    t.put(b("k"), b("v")).unwrap();
    assert_eq!(t.get(b"k", Some(b("old"))), Ok(Some(b("v"))));
    assert_eq!(t.get(b"other", Some(b("s"))), Ok(Some(b("s"))));
    t.delete(b("k")).unwrap();
    assert_eq!(t.get(b"k", Some(b("old"))), Ok(None));
    assert_eq!(t.get_buffered(b"k"), Ok(Some(None)));
}

#[test]
fn scan_merges_buffer_over_store() {
    let mut t = Transaction::new(10, TxnMode::Optimistic);
    let stored = vec![pair("a", "1"), pair("b", "2"), pair("c", "3"), pair("y", "9")];
    t.delete(b("b")).unwrap();
    t.put(b("c"), b("33")).unwrap();
    t.put(b("bb"), b("22")).unwrap();
    t.put(b("z"), b("26")).unwrap();
    let range = to_bound_range(b"a", Bound::Included, b"z", Bound::Excluded);
    let r = t.scan(&range, 10, &stored).unwrap();
    assert_eq!(keys_of(&r), vec![b("a"), b("bb"), b("c"), b("y")]);
    assert_eq!(r[2].value, b("33"));
    let r = t.scan(&range, 2, &stored).unwrap();
    assert_eq!(keys_of(&r), vec![b("a"), b("bb")]);
    assert!(t.scan(&range, 0, &stored).unwrap().is_empty());
    let ks = t.scan_keys(&range, 3, &stored).unwrap();
    assert_eq!(ks, vec![b("a"), b("bb"), b("c")]);
}

#[test]
fn batch_get_dedups_and_skips_absent() {
    let mut t = Transaction::new(10, TxnMode::Pessimistic);
    t.put(b("x"), b("10")).unwrap();
    t.delete(b("a")).unwrap();
    let stored = vec![pair("a", "1"), pair("b", "2")];
    let keys = vec![b("b"), b("x"), b("b"), b("a"), b("missing")];
    let mut r = t.batch_get(&keys, &stored).unwrap();
    r.sort_by(|p, q| p.key.cmp(&q.key));
    assert_eq!(r.len(), 2);
    assert_eq!((r[0].key.clone(), r[0].value.clone()), (b("b"), b("2")));
    assert_eq!((r[1].key.clone(), r[1].value.clone()), (b("x"), b("10")));
    assert_eq!(t.batch_get_for_update(&keys).unwrap_err(), TxnError::Unsupported);
}

#[test]
fn optimistic_first_writer_wins() {
    let mut store = MemStore::new();
    let mut t1 = Transaction::new(10, TxnMode::Optimistic);
    let mut t2 = Transaction::new(11, TxnMode::Optimistic);
    t1.put(b("k"), b("one")).unwrap();
    t2.put(b("k"), b("two")).unwrap();
    let p1 = t1.prewrite_primary(None).unwrap();
    assert!(store.prewrite(p1.key.clone(), Some(b("one")), p1.key.clone(), p1.version).is_ok());
    let p2 = t2.prewrite_primary(None).unwrap();
    assert_eq!(store.prewrite(p2.key.clone(), Some(b("two")), p2.key.clone(), p2.version), Err(TxnError::LockConflict));
    // t1 commits after t2 started: t2 still conflicts.
    let c1 = t1.commit_primary(12).unwrap();
    store.commit(&p1.key, p1.version, c1).unwrap();
    assert_eq!(store.prewrite(p2.key.clone(), Some(b("two")), p2.key.clone(), p2.version), Err(TxnError::LockConflict));
    assert_eq!(store.read(b"k", 20), Ok(Some(b("one"))));
}

#[test]
fn lock_conflict_retries_then_fails() {
    let mut t = Transaction::new_optimistic_with_retry(5, 3);
    assert_eq!(t.retry_limit(), 3);
    assert_eq!(t.on_lock_conflict(), Ok(1));
    assert_eq!(t.on_lock_conflict(), Ok(2));
    assert_eq!(t.on_lock_conflict(), Ok(3));
    assert_eq!(t.on_lock_conflict(), Err(TxnError::LockConflict));
    assert_eq!(t.state(), TxnState::Failed);
    assert_eq!(t.on_lock_conflict(), Err(TxnError::InvalidState));
}

#[test]
fn pessimistic_lock_excludes_second() {
    let mut store = MemStore::new();
    let t1 = Transaction::new(10, TxnMode::Pessimistic);
    let t2 = Transaction::new(11, TxnMode::Pessimistic);
    assert_eq!(t1.lock_for_update(), Ok(true));
    assert!(store.lock_for_update(b("k"), t1.start_timestamp()).is_ok());
    assert_eq!(store.lock_for_update(b("k"), t2.start_timestamp()), Err(TxnError::KeyLockedTimeout));
    // Readers are not held up by a lock for update.
    assert_eq!(store.read(b"k", 100), Ok(None));
    // The holder asking again keeps its lock.
    assert!(store.lock_for_update(b("k"), t1.start_timestamp()).is_ok());
    store.rollback(b"k", t1.start_timestamp());
    assert!(store.lock_for_update(b("k"), t2.start_timestamp()).is_ok());
    let opt = Transaction::new(12, TxnMode::Optimistic);
    assert_eq!(opt.lock_for_update(), Ok(false));
}

#[test]
fn rollback_before_commit_leaves_store() {
    let mut store = MemStore::new();
    let mut w = Transaction::new(1, TxnMode::Optimistic);
    w.put(b("k"), b("base")).unwrap();
    commit_in(&mut store, &mut w, 2).unwrap();

    let mut t = Transaction::new(5, TxnMode::Optimistic);
    t.put(b("k"), b("new")).unwrap();
    t.delete(b("j")).unwrap();
    assert_eq!(t.rollback(), Ok(vec![]));
    assert_eq!(t.state(), TxnState::RolledBack);
    assert_eq!(t.put(b("k"), b("x")), Err(TxnError::InvalidState));
    assert_eq!(store.read(b"k", 10), Ok(Some(b("base"))));

    // After a prewrite, rollback names the locks to erase.
    let mut u = Transaction::new(6, TxnMode::Optimistic);
    u.put(b("k"), b("u")).unwrap();
    u.put(b("m"), b("u2")).unwrap();
    let p = u.prewrite_primary(None).unwrap();
    store.prewrite(p.key.clone(), Some(b("u")), p.key.clone(), 6).unwrap();
    assert_eq!(store.read(b"k", 10), Err(TxnError::LockConflict));
    let locks = u.rollback().unwrap();
    assert_eq!(locks, vec![b("k"), b("m")]);
    for k in &locks {
        store.rollback(k, 6);
    }
    assert_eq!(store.read(b"k", 10), Ok(Some(b("base"))));
    assert_eq!(store.read(b"m", 10), Ok(None));
}

#[test]
fn snapshot_isolation_by_commit_ts() {
    let mut store = MemStore::new();
    let mut w = Transaction::new(3, TxnMode::Optimistic);
    w.put(b("k"), b("v1")).unwrap();
    let c = commit_in(&mut store, &mut w, 7).unwrap();
    assert_eq!(c, 7);
    assert_eq!(w.state(), TxnState::Committed);
    assert_eq!(store.read(b"k", 6), Ok(None));
    assert_eq!(store.read(b"k", 7), Ok(Some(b("v1"))));
    let mut w2 = Transaction::new(8, TxnMode::Optimistic);
    w2.put(b("k"), b("v2")).unwrap();
    commit_in(&mut store, &mut w2, 9).unwrap();
    assert_eq!(store.read(b"k", 8), Ok(Some(b("v1"))));
    assert_eq!(store.read(b"k", 100), Ok(Some(b("v2"))));
    assert!(w2.get(b"k", None).is_err());
}

#[test]
fn commit_then_snapshot_reads_back() {
    let mut store = MemStore::new();
    let mut t = Transaction::new(20, TxnMode::Optimistic);
    t.put(b("a"), b("1")).unwrap();
    t.put(b("b"), b("2")).unwrap();
    let ts = commit_in(&mut store, &mut t, 21).unwrap();
    let snap = Snapshot::new(ts);
    let mut stored = Vec::new();
    for k in ["a", "b", "c"] {
        if let Some(v) = store.read(k.as_bytes(), snap.timestamp()).unwrap() {
            stored.push(KvPair { key: b(k), value: v });
        }
    }
    let got = snap.batch_get(&vec![b("a"), b("b")], &stored);
    assert_eq!(got.len(), 2);
    assert_eq!((got[0].key.clone(), got[0].value.clone()), (b("a"), b("1")));
    assert_eq!((got[1].key.clone(), got[1].value.clone()), (b("b"), b("2")));
    let range = to_bound_range(b"a", Bound::Included, b"c", Bound::Excluded);
    let r = snap.scan(&range, 10, &stored);
    assert_eq!(keys_of(&r), vec![b("a"), b("b")]);
    assert_eq!(r[0].value, b("1"));
    assert_eq!(r[1].value, b("2"));
    assert_eq!(snap.scan_keys(&range, 1, &stored), vec![b("a")]);
    // Before the writer started, nothing was there.
    assert_eq!(store.read(b"a", 19), Ok(None));
}

#[test]
fn split_commit_steps_and_states() {
    let mut t = Transaction::new(30, TxnMode::Optimistic);
    assert_eq!(t.prewrite_primary(None).unwrap_err(), TxnError::InvalidState);
    t.put(b("p"), b("1")).unwrap();
    assert_eq!(t.prewrite_primary(Some(b("never"))).unwrap_err(), TxnError::InvalidState);
    assert_eq!(t.state(), TxnState::Active);
    t.put(b("s1"), b("2")).unwrap();
    t.put(b("s2"), b("3")).unwrap();
    let pre = t.prewrite_primary(Some(b("s1"))).unwrap();
    assert_eq!((pre.key.clone(), pre.version), (b("s1"), 30));
    assert_eq!(t.state(), TxnState::Prewriting);
    assert_eq!(t.put(b("q"), b("4")), Err(TxnError::InvalidState));
    assert_eq!(t.prewrite_secondary(b"p", 30).unwrap_err(), TxnError::InvalidState);
    assert_eq!(t.prewrite_secondary(b"s1", 31).unwrap_err(), TxnError::InvalidState);
    assert_eq!(t.prewrite_secondary(b"s1", 30).unwrap(), vec![b("p"), b("s2")]);
    assert_eq!(t.commit_primary(29), Err(TxnError::Timestamp));
    assert_eq!(t.commit_primary(35), Ok(35));
    assert_eq!(t.state(), TxnState::Committing);
    assert_eq!(t.rollback().unwrap_err(), TxnError::InvalidState);
    assert_eq!(t.commit_secondary(36), Err(TxnError::InvalidState));
    assert_eq!(t.commit_secondary(35), Ok(vec![b("p"), b("s2")]));
    assert_eq!(t.commit_secondary(35), Err(TxnError::InvalidState));
    assert_eq!(t.state(), TxnState::Committed);
    assert_eq!(t.get(b"p", None), Err(TxnError::InvalidState));
    assert_eq!(t.commit_primary(40), Err(TxnError::InvalidState));
}

#[test]
fn store_commit_without_lock_is_refused() {
    let mut store = MemStore::new();
    assert_eq!(store.commit(b"k", 1, 2), Err(TxnError::InvalidState));
    store.prewrite(b("k"), None, b("k"), 1).unwrap();
    assert_eq!(store.commit(b"k", 9, 10), Err(TxnError::InvalidState));
    store.commit(b"k", 1, 2).unwrap();
    assert_eq!(store.read(b"k", 5), Ok(None));
    // A lock for update is taken at a fresh timestamp: a version committed
    // after the requester started does not stand in its way.
    assert_eq!(store.lock_for_update(b("k"), 1), Ok(()));
}

#[test]
fn connect_settings_need_endpoints_and_full_tls() {
    assert_eq!(check_connect_settings(0, false, false, false), Err(TxnError::Connection));
    assert_eq!(check_connect_settings(2, false, false, false), Ok(Security::Plaintext));
    assert_eq!(check_connect_settings(1, true, true, true), Ok(Security::Tls));
    assert_eq!(check_connect_settings(1, true, false, true), Err(TxnError::Connection));
    assert_eq!(check_connect_settings(1, false, false, true), Err(TxnError::Connection));
}

#[test]
fn locks_for_update_are_released() {
    let mut store = MemStore::new();
    let mut t = Transaction::new(40, TxnMode::Pessimistic);
    store.lock_for_update(b("r"), 40).unwrap();
    t.record_for_update(b("r")).unwrap();
    t.record_for_update(b("r")).unwrap();
    t.put(b("w"), b("1")).unwrap();
    assert_eq!(t.rollback(), Ok(vec![b("r")]));
    store.rollback(b"r", 40);
    assert!(store.lock_for_update(b("r"), 41).is_ok());

    let mut u = Transaction::new(50, TxnMode::Pessimistic);
    u.record_for_update(b("x")).unwrap();
    u.record_for_update(b("y")).unwrap();
    u.put(b("a"), b("1")).unwrap();
    u.put(b("y"), b("2")).unwrap();
    let p = u.prewrite_primary(None).unwrap();
    assert_eq!(p.key, b("a"));
    assert_eq!(u.prewrite_secondary(b"a", 50).unwrap(), vec![b("y")]);
    u.commit_primary(51).unwrap();
    assert_eq!(u.commit_secondary(51), Ok(vec![b("y"), b("x")]));

    let mut o = Transaction::new(60, TxnMode::Optimistic);
    assert_eq!(o.record_for_update(b("x")), Err(TxnError::InvalidState));
}

#[test]
fn waiter_gets_lock_after_holder_commits_a_write() {
    let mut store = MemStore::new();
    let mut t1 = Transaction::new(10, TxnMode::Pessimistic);
    assert!(store.lock_for_update(b("k"), 10).is_ok());
    t1.record_for_update(b("k")).unwrap();
    assert_eq!(store.lock_for_update(b("k"), 11), Err(TxnError::KeyLockedTimeout));
    t1.put(b("k"), b("v")).unwrap();
    assert_eq!(commit_in(&mut store, &mut t1, 12), Ok(12));
    assert_eq!(store.lock_for_update(b("k"), 11), Ok(()));
}

#[test]
fn secondary_lock_settled_through_primary() {
    let mut store = MemStore::new();
    store.prewrite(b("a"), Some(b("1")), b("a"), 5).unwrap();
    store.prewrite(b("b"), Some(b("2")), b("a"), 5).unwrap();
    assert_eq!(store.read(b"b", 8), Err(TxnError::LockConflict));
    store.commit(b"a", 5, 7).unwrap();
    // The primary is committed at 7: the secondary's lock is settled by it.
    assert_eq!(store.read(b"b", 8), Ok(Some(b("2"))));
    assert_eq!(store.read(b"b", 6), Ok(None));
    store.resolve_lock(b"b");
    assert_eq!(store.read(b"b", 8), Ok(Some(b("2"))));
    assert_eq!(store.read(b"b", 6), Ok(None));
    assert_eq!(store.lock_for_update(b("b"), 9), Ok(()));
    // A lock for update is not settled.
    store.resolve_lock(b"b");
    assert_eq!(store.lock_for_update(b("b"), 10), Err(TxnError::KeyLockedTimeout));
}
