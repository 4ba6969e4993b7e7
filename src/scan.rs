use vstd::prelude::*;

use crate::buffer::MutationBuffer;
use crate::key::{
    compare_keys, copy_bytes, key_le, key_lt, lemma_lt_asymmetric, lemma_lt_total,
    lemma_lt_transitive,
};
use crate::range::BoundRange;
use crate::txn::read_through;

verus! {

/// A key and its value, as reads return them.
#[derive(Clone, Debug)]
pub struct KvPair {
    pub key: Vec<u8>,
    pub value: Vec<u8>,
}

/// Whether `k` is the key of one of `pairs`.
pub open spec fn pairs_have(pairs: Seq<KvPair>, k: Seq<u8>) -> bool {
    exists|i: int| 0 <= i < pairs.len() && pairs[i].key@ == k
}

/// The value that `pairs` give to `k`.
pub open spec fn pairs_value(pairs: Seq<KvPair>, k: Seq<u8>) -> Seq<u8> {
    pairs[choose|i: int| 0 <= i < pairs.len() && pairs[i].key@ == k].value@
}

/// No two of `pairs` share a key.
pub open spec fn distinct_keys(pairs: Seq<KvPair>) -> bool {
    forall|i: int, j: int|
        0 <= i < pairs.len() && 0 <= j < pairs.len() && i != j ==> pairs[i].key@ != pairs[j].key@
}

/// The keys of `pairs` strictly ascend.
pub open spec fn strictly_ascending(pairs: Seq<KvPair>) -> bool {
    forall|i: int, j: int| 0 <= i < j < pairs.len() ==> key_lt(pairs[i].key@, pairs[j].key@)
}

/// Whether a transaction sees `k` in `range`, given its buffer and the pairs
/// that the store holds at its start timestamp: a buffered put shows, a
/// buffered deletion hides, an unbuffered key shows what the store holds.
pub open spec fn visible(
    ops: Map<Seq<u8>, Option<Seq<u8>>>,
    stored: Seq<KvPair>,
    range: BoundRange,
    k: Seq<u8>,
) -> bool {
    range.contains_spec(k) && if ops.contains_key(k) {
        ops[k].is_some()
    } else {
        pairs_have(stored, k)
    }
}

/// The value that a transaction reads for a visible key.
pub open spec fn visible_value(ops: Map<Seq<u8>, Option<Seq<u8>>>, stored: Seq<KvPair>, k: Seq<u8>) -> Seq<u8> {
    if ops.contains_key(k) {
        ops[k].unwrap()
    } else {
        pairs_value(stored, k)
    }
}

/// `r` is the answer to a scan of `range` with `limit`: the smallest visible
/// keys, at most `limit` of them, ascending, each with the value seen.
pub open spec fn is_scan_result(
    ops: Map<Seq<u8>, Option<Seq<u8>>>,
    stored: Seq<KvPair>,
    range: BoundRange,
    limit: nat,
    r: Seq<KvPair>,
) -> bool {
    &&& r.len() <= limit
    &&& strictly_ascending(r)
    &&& forall|i: int|
        0 <= i < r.len() ==> visible(ops, stored, range, #[trigger] r[i].key@) && r[i].value@
            == visible_value(ops, stored, r[i].key@)
    &&& forall|k: Seq<u8>|
        #[trigger] visible(ops, stored, range, k) ==> pairs_have(r, k) || (r.len() == limit && (
        limit == 0 || key_lt(r.last().key@, k)))
}

/// Whether candidate `k` lies past `r`'s last key.
pub open spec fn past(r: Seq<KvPair>, k: Seq<u8>) -> bool {
    r.len() == 0 || key_lt(r.last().key@, k)
}

proof fn lemma_pairs_value(pairs: Seq<KvPair>, i: int)
    requires
        distinct_keys(pairs),
        0 <= i < pairs.len(),
    ensures
        pairs_have(pairs, pairs[i].key@),
        pairs_value(pairs, pairs[i].key@) == pairs[i].value@,
{
    let k = pairs[i].key@;
    assert(pairs_have(pairs, k));
    let j = choose|j: int| 0 <= j < pairs.len() && pairs[j].key@ == k;
    assert(i == j);
}

/// Merges a transaction's buffered writes over `stored`, the pairs that the
/// store holds in `range` at the transaction's start timestamp, and returns
/// the first `limit` visible pairs in ascending key order.
pub fn merge_scan(buf: &MutationBuffer, stored: &Vec<KvPair>, range: &BoundRange, limit: u32) -> (r:
    Vec<KvPair>)
    requires
        buf.wf(),
        distinct_keys(stored@),
    ensures
        is_scan_result(buf.ops(), stored@, *range, limit as nat, r@),
{
    let mut r: Vec<KvPair> = Vec::new();
    while r.len() < limit as usize
        invariant
            buf.wf(),
            distinct_keys(stored@),
            r@.len() <= limit,
            strictly_ascending(r@),
            forall|i: int|
                0 <= i < r@.len() ==> visible(buf.ops(), stored@, *range, #[trigger] r@[i].key@)
                    && r@[i].value@ == visible_value(buf.ops(), stored@, r@[i].key@),
            forall|k: Seq<u8>|
                #[trigger] visible(buf.ops(), stored@, *range, k) ==> pairs_have(r@, k) || past(r@, k),
        decreases limit - r@.len(),
    {
        // The least visible key past the last one taken: from the buffer
        // (`true`, index) or from the store (`false`, index).
        let mut best: Option<(bool, usize)> = None;
        let ghost mut best_key: Seq<u8> = Seq::empty();
        let mut j: usize = 0;
        while j < buf.len()
            invariant
                buf.wf(),
                j <= buf.len_spec(),
                match best {
                    Some((true, bi)) => bi < buf.len_spec() && best_key == buf.key_at(bi as int),
                    Some((false, _)) => false,
                    None => true,
                },
                best.is_some() ==> visible(buf.ops(), stored@, *range, best_key) && past(r@, best_key),
                forall|jj: int|
                    0 <= jj < j && visible(buf.ops(), stored@, *range, #[trigger] buf.key_at(jj))
                        && past(r@, buf.key_at(jj)) ==> best.is_some() && key_le(
                        best_key,
                        buf.key_at(jj),
                    ),
            decreases buf.len_spec() - j,
        {
            let e = buf.entry(j);
            proof { buf.lemma_ops_at(j as int); }
            if e.value.is_some() && range.contains(e.key.as_slice()) {
                let after = if r.len() == 0 {
                    true
                } else {
                    compare_keys(r[r.len() - 1].key.as_slice(), e.key.as_slice()) < 0
                };
                if after {
                    let better = match best {
                        None => true,
                        Some((_, bi)) => compare_keys(
                            e.key.as_slice(),
                            buf.entry(bi).key.as_slice(),
                        ) < 0,
                    };
                    if better {
                        proof {
                            assert forall|jj: int|
                                0 <= jj < j + 1 && visible(buf.ops(), stored@, *range, #[trigger] buf.key_at(jj))
                                    && past(r@, buf.key_at(jj)) implies key_le(
                                buf.key_at(j as int),
                                buf.key_at(jj),
                            ) by {
                                if jj < j && key_lt(best_key, buf.key_at(jj)) {
                                    lemma_lt_transitive(buf.key_at(j as int), best_key, buf.key_at(jj));
                                }
                            }
                        }
                        best = Some((true, j));
                        proof { best_key = buf.key_at(j as int); }
                    } else {
                        proof { lemma_lt_total(buf.key_at(j as int), best_key); }
                    }
                }
            }
            j = j + 1;
        }
        let mut s: usize = 0;
        while s < stored.len()
            invariant
                buf.wf(),
                distinct_keys(stored@),
                s <= stored@.len(),
                match best {
                    Some((true, bi)) => bi < buf.len_spec() && best_key == buf.key_at(bi as int),
                    Some((false, si)) => si < stored@.len() && best_key == stored@[si as int].key@
                        && !buf.ops().contains_key(best_key),
                    None => true,
                },
                best.is_some() ==> visible(buf.ops(), stored@, *range, best_key) && past(r@, best_key),
                forall|jj: int|
                    0 <= jj < buf.len_spec() && visible(buf.ops(), stored@, *range, #[trigger] buf.key_at(jj))
                        && past(r@, buf.key_at(jj)) ==> best.is_some() && key_le(
                        best_key,
                        buf.key_at(jj),
                    ),
                forall|ss: int|
                    0 <= ss < s && visible(buf.ops(), stored@, *range, #[trigger] stored@[ss].key@)
                        && past(r@, stored@[ss].key@) ==> best.is_some() && key_le(
                        best_key,
                        stored@[ss].key@,
                    ),
            decreases stored@.len() - s,
        {
            let p = &stored[s];
            let in_buf = buf.position(p.key.as_slice());
            proof {
                if in_buf.is_some() {
                    buf.lemma_ops_at(in_buf.unwrap() as int);
                }
                lemma_pairs_value(stored@, s as int);
            }
            if in_buf.is_none() && range.contains(p.key.as_slice()) {
                let after = if r.len() == 0 {
                    true
                } else {
                    compare_keys(r[r.len() - 1].key.as_slice(), p.key.as_slice()) < 0
                };
                if after {
                    let better = match best {
                        None => true,
                        Some((true, bi)) => compare_keys(
                            p.key.as_slice(),
                            buf.entry(bi).key.as_slice(),
                        ) < 0,
                        Some((false, si)) => compare_keys(
                            p.key.as_slice(),
                            stored[si].key.as_slice(),
                        ) < 0,
                    };
                    if better {
                        proof {
                            let pk = stored@[s as int].key@;
                            assert forall|jj: int|
                                0 <= jj < buf.len_spec() && visible(buf.ops(), stored@, *range, #[trigger] buf.key_at(jj))
                                    && past(r@, buf.key_at(jj)) implies key_le(pk, buf.key_at(jj)) by {
                                if key_lt(best_key, buf.key_at(jj)) {
                                    lemma_lt_transitive(pk, best_key, buf.key_at(jj));
                                }
                            }
                            assert forall|ss: int|
                                0 <= ss < s + 1 && visible(buf.ops(), stored@, *range, #[trigger] stored@[ss].key@)
                                    && past(r@, stored@[ss].key@) implies key_le(pk, stored@[ss].key@) by {
                                if ss < s && key_lt(best_key, stored@[ss].key@) {
                                    lemma_lt_transitive(pk, best_key, stored@[ss].key@);
                                }
                            }
                        }
                        best = Some((false, s));
                        proof { best_key = stored@[s as int].key@; }
                    } else {
                        proof { lemma_lt_total(stored@[s as int].key@, best_key); }
                    }
                }
            }
            s = s + 1;
        }
        match best {
            None => {
                proof {
                    assert forall|k: Seq<u8>| #[trigger]
                        visible(buf.ops(), stored@, *range, k) implies pairs_have(r@, k) || (r@.len()
                        == limit && (limit == 0 || key_lt(r@.last().key@, k))) by {
                        if !pairs_have(r@, k) {
                            if buf.ops().contains_key(k) {
                                let jj = choose|jj: int| 0 <= jj < buf.len_spec() && buf.key_at(jj) == k;
                                assert(visible(buf.ops(), stored@, *range, buf.key_at(jj)));
                            } else {
                                let ss = choose|ss: int| 0 <= ss < stored@.len() && stored@[ss].key@ == k;
                                assert(visible(buf.ops(), stored@, *range, stored@[ss].key@));
                            }
                        }
                    }
                    assert(is_scan_result(buf.ops(), stored@, *range, limit as nat, r@));
                }
                return r;
            },
            Some((from_buf, i)) => {
                let pair = if from_buf {
                    let e = buf.entry(i);
                    proof { buf.lemma_ops_at(i as int); }
                    let v = match &e.value {
                        Some(v) => copy_bytes(v.as_slice()),
                        None => Vec::new(),
                    };
                    KvPair { key: copy_bytes(e.key.as_slice()), value: v }
                } else {
                    proof { lemma_pairs_value(stored@, i as int); }
                    KvPair {
                        key: copy_bytes(stored[i].key.as_slice()),
                        value: copy_bytes(stored[i].value.as_slice()),
                    }
                };
                assert(pair.key@ == best_key);
                assert(pair.value@ == visible_value(buf.ops(), stored@, best_key));
                let ghost old_r = r@;
                r.push(pair);
                proof {
                    assert forall|a: int, b: int| 0 <= a < b < r@.len() implies key_lt(
                        r@[a].key@,
                        r@[b].key@,
                    ) by {
                        if b == r@.len() - 1 && a < b {
                            if a < old_r.len() - 1 {
                                lemma_lt_transitive(old_r[a].key@, old_r.last().key@, best_key);
                            }
                        }
                    }
                    assert forall|i2: int|
                        0 <= i2 < r@.len() implies visible(buf.ops(), stored@, *range, #[trigger] r@[i2].key@)
                        && r@[i2].value@ == visible_value(buf.ops(), stored@, r@[i2].key@) by {
                        if i2 < old_r.len() {
                            assert(r@[i2] == old_r[i2]);
                        }
                    }
                    assert forall|k: Seq<u8>| #[trigger]
                        visible(buf.ops(), stored@, *range, k) implies pairs_have(r@, k) || past(r@, k) by {
                        if pairs_have(old_r, k) {
                            let i3 = choose|i3: int| 0 <= i3 < old_r.len() && old_r[i3].key@ == k;
                            assert(r@[i3] == old_r[i3]);
                        } else {
                            assert(past(old_r, k));
                            lemma_lt_total(best_key, k);
                            if k == best_key {
                                assert(r@[old_r.len() as int].key@ == k);
                            } else if key_lt(k, best_key) {
                                if buf.ops().contains_key(k) {
                                    let jj = choose|jj: int| 0 <= jj < buf.len_spec() && buf.key_at(jj) == k;
                                    assert(visible(buf.ops(), stored@, *range, buf.key_at(jj)));
                                    lemma_lt_asymmetric(k, best_key);
                                } else {
                                    let ss = choose|ss: int| 0 <= ss < stored@.len() && stored@[ss].key@ == k;
                                    assert(visible(buf.ops(), stored@, *range, stored@[ss].key@));
                                    lemma_lt_asymmetric(k, best_key);
                                }
                            }
                        }
                    }
                }
            },
        }
    }
    proof {
        assert forall|k: Seq<u8>| #[trigger]
            visible(buf.ops(), stored@, *range, k) implies pairs_have(r@, k) || (r@.len() == limit && (
            limit == 0 || key_lt(r@.last().key@, k))) by {
            if !pairs_have(r@, k) {
                assert(past(r@, k));
            }
        }
    }
    r
}

/// A scan returns at most `limit` pairs, in strictly ascending key order,
/// and never a key whose deletion is buffered, even where the store still
/// holds a value for it.
pub proof fn lemma_scan_bounded_sorted_no_deleted(
    ops: Map<Seq<u8>, Option<Seq<u8>>>,
    stored: Seq<KvPair>,
    range: BoundRange,
    limit: nat,
    r: Seq<KvPair>,
    k: Seq<u8>,
)
    requires
        is_scan_result(ops, stored, range, limit, r),
        ops.contains_key(k),
        ops[k].is_none(),
    ensures
        r.len() <= limit,
        forall|i: int, j: int| 0 <= i < j < r.len() ==> key_lt(r[i].key@, r[j].key@),
        !pairs_have(r, k),
{
    if pairs_have(r, k) {
        let i = choose|i: int| 0 <= i < r.len() && r[i].key@ == k;
        assert(visible(ops, stored, range, r[i].key@));
    }
}

/// What `stored` holds for `k`.
pub open spec fn stored_get(stored: Seq<KvPair>, k: Seq<u8>) -> Option<Seq<u8>> {
    if pairs_have(stored, k) {
        Some(pairs_value(stored, k))
    } else {
        None
    }
}

/// Whether one of `keys` is `k`.
pub open spec fn keys_have(keys: Seq<Vec<u8>>, k: Seq<u8>) -> bool {
    exists|i: int| 0 <= i < keys.len() && keys[i]@ == k
}

/// `r` is the answer to a batch read of `keys`: one pair for each distinct
/// key that has a value, holding the value that a read of it returns.
pub open spec fn is_batch_result(
    ops: Map<Seq<u8>, Option<Seq<u8>>>,
    stored: Seq<KvPair>,
    keys: Seq<Vec<u8>>,
    r: Seq<KvPair>,
) -> bool {
    &&& distinct_keys(r)
    &&& forall|i: int|
        0 <= i < r.len() ==> keys_have(keys, #[trigger] r[i].key@) && read_through(
            ops,
            r[i].key@,
            stored_get(stored, r[i].key@),
        ) == Some(r[i].value@)
    &&& forall|k: Seq<u8>|
        #[trigger] keys_have(keys, k) && read_through(ops, k, stored_get(stored, k)).is_some()
            ==> pairs_have(r, k)
}

/// Finds the pair of `pairs` whose key is `key`.
pub fn find_pair(pairs: &Vec<KvPair>, key: &[u8]) -> (r: Option<usize>)
    requires
        distinct_keys(pairs@),
    ensures
        match r {
            Some(i) => i < pairs@.len() && pairs@[i as int].key@ == key@ && stored_get(pairs@, key@)
                == Some(pairs@[i as int].value@),
            None => !pairs_have(pairs@, key@) && stored_get(pairs@, key@).is_none(),
        },
{
    let mut i: usize = 0;
    while i < pairs.len()
        invariant
            distinct_keys(pairs@),
            i <= pairs@.len(),
            forall|j: int| 0 <= j < i ==> pairs@[j].key@ != key@,
        decreases pairs.len() - i,
    {
        if compare_keys(pairs[i].key.as_slice(), key) == 0 {
            proof { lemma_pairs_value(pairs@, i as int); }
            return Some(i);
        }
        i = i + 1;
    }
    None
}

/// Reads each of `keys` through the buffer into `stored`, the pairs that
/// the store holds for them: keys without a value are left out, and each
/// key comes out once.
pub fn merge_batch_get(buf: &MutationBuffer, keys: &Vec<Vec<u8>>, stored: &Vec<KvPair>) -> (r: Vec<
    KvPair,
>)
    requires
        buf.wf(),
        distinct_keys(stored@),
    ensures
        is_batch_result(buf.ops(), stored@, keys@, r@),
{
    let mut r: Vec<KvPair> = Vec::new();
    let mut i: usize = 0;
    while i < keys.len()
        invariant
            buf.wf(),
            distinct_keys(stored@),
            i <= keys@.len(),
            distinct_keys(r@),
            forall|j: int|
                0 <= j < r@.len() ==> keys_have(keys@, #[trigger] r@[j].key@) && read_through(
                    buf.ops(),
                    r@[j].key@,
                    stored_get(stored@, r@[j].key@),
                ) == Some(r@[j].value@),
            forall|j: int|
                0 <= j < i && read_through(buf.ops(), keys@[j]@, stored_get(stored@, keys@[j]@)).is_some()
                    ==> pairs_have(r@, #[trigger] keys@[j]@),
        decreases keys.len() - i,
    {
        let k = keys[i].as_slice();
        assert(keys_have(keys@, k@)) by { assert(keys@[i as int]@ == k@); }
        let seen = find_pair(&r, k);
        if seen.is_none() {
            let value = match buf.lookup(k) {
                Some(Some(v)) => Some(v),
                Some(None) => None,
                None => match find_pair(stored, k) {
                    Some(si) => Some(copy_bytes(stored[si].value.as_slice())),
                    None => None,
                },
            };
            match value {
                Some(v) => {
                    let ghost old_r = r@;
                    r.push(KvPair { key: copy_bytes(k), value: v });
                    proof {
                        assert(r@.last().key@ == k@);
                        assert forall|a: int, b: int|
                            0 <= a < r@.len() && 0 <= b < r@.len() && a != b implies r@[a].key@
                            != r@[b].key@ by {
                            if a < old_r.len() && b < old_r.len() {
                                assert(old_r[a] == r@[a] && old_r[b] == r@[b]);
                            } else if a < old_r.len() {
                                assert(old_r[a] == r@[a]);
                            } else {
                                assert(old_r[b] == r@[b]);
                            }
                        }
                        assert forall|j: int|
                            0 <= j < i + 1 && read_through(buf.ops(), keys@[j]@, stored_get(stored@, keys@[j]@)).is_some()
                                implies pairs_have(r@, #[trigger] keys@[j]@) by {
                            if j < i {
                                let a = choose|a: int| 0 <= a < old_r.len() && old_r[a].key@ == keys@[j]@;
                                assert(r@[a] == old_r[a]);
                            } else {
                                assert(r@[old_r.len() as int].key@ == keys@[j]@);
                            }
                        }
                        assert forall|j: int| 0 <= j < r@.len() implies keys_have(keys@, #[trigger] r@[j].key@) && read_through(
                            buf.ops(),
                            r@[j].key@,
                            stored_get(stored@, r@[j].key@),
                        ) == Some(r@[j].value@) by {
                            if j < old_r.len() {
                                assert(r@[j] == old_r[j]);
                            }
                        }
                    }
                },
                None => {},
            }
        }
        i = i + 1;
    }
    proof {
        assert forall|k: Seq<u8>|
            #[trigger] keys_have(keys@, k) && read_through(buf.ops(), k, stored_get(stored@, k)).is_some()
                implies pairs_have(r@, k) by {
            let j = choose|j: int| 0 <= j < keys@.len() && keys@[j]@ == k;
            assert(pairs_have(r@, keys@[j]@));
        }
    }
    r
}

} // verus!
