use vstd::prelude::*;

use crate::key::{compare_keys, copy_bytes};

verus! {

/// The view of an optional value.
pub open spec fn opt_view(o: Option<Vec<u8>>) -> Option<Seq<u8>> {
    match o {
        Some(v) => Some(v@),
        None => None,
    }
}

/// A buffered write: a new value, or `None` for a deletion.
#[derive(Clone, Debug)]
pub struct Mutation {
    pub key: Vec<u8>,
    pub value: Option<Vec<u8>>,
}

/// The writes of a transaction, one per key, in the order in which each key
/// was first written. A later write to a key replaces the earlier one.
#[derive(Clone, Debug)]
pub struct MutationBuffer {
    entries: Vec<Mutation>,
}

impl MutationBuffer {
    pub closed spec fn len_spec(&self) -> nat {
        self.entries@.len()
    }

    /// The key of the `i`-th entry.
    pub closed spec fn key_at(&self, i: int) -> Seq<u8> {
        self.entries@[i].key@
    }

    /// The buffered value of the `i`-th entry (`None` for a deletion).
    pub closed spec fn value_at(&self, i: int) -> Option<Seq<u8>> {
        opt_view(self.entries@[i].value)
    }

    /// Each key has one entry.
    pub open spec fn wf(&self) -> bool {
        forall|i: int, j: int|
            0 <= i < j < self.len_spec() ==> #[trigger] self.key_at(i) != #[trigger] self.key_at(j)
    }

    /// The keys in order of first write.
    pub open spec fn keys(&self) -> Seq<Seq<u8>> {
        Seq::new(self.len_spec(), |i: int| self.key_at(i))
    }

    /// Whether `k` has a buffered write.
    pub open spec fn has(&self, k: Seq<u8>) -> bool {
        exists|i: int| 0 <= i < self.len_spec() && self.key_at(i) == k
    }

    /// The buffered writes as a map from key to value, `None` standing for a
    /// deletion.
    pub open spec fn ops(&self) -> Map<Seq<u8>, Option<Seq<u8>>> {
        Map::new(
            |k: Seq<u8>| self.has(k),
            |k: Seq<u8>|
                self.value_at(choose|i: int| 0 <= i < self.len_spec() && self.key_at(i) == k),
        )
    }

    /// In a well-formed buffer the map holds each entry's value.
    pub proof fn lemma_ops_at(&self, i: int)
        requires
            self.wf(),
            0 <= i < self.len_spec(),
        ensures
            self.ops().contains_key(self.key_at(i)),
            self.ops()[self.key_at(i)] == self.value_at(i),
    {
        let k = self.key_at(i);
        assert(self.has(k));
        let j = choose|j: int| 0 <= j < self.len_spec() && self.key_at(j) == k;
        if i < j {
            assert(self.key_at(i) != self.key_at(j));
        } else if j < i {
            assert(self.key_at(j) != self.key_at(i));
        }
    }

    /// An empty buffer.
    pub fn new() -> (r: MutationBuffer)
        ensures
            r.wf(),
            r.ops() == Map::<Seq<u8>, Option<Seq<u8>>>::empty(),
            r.keys() == Seq::<Seq<u8>>::empty(),
    {
        let r = MutationBuffer { entries: Vec::new() };
        assert(r.ops() =~= Map::<Seq<u8>, Option<Seq<u8>>>::empty());
        assert(r.keys() =~= Seq::<Seq<u8>>::empty());
        r
    }

    /// Number of buffered keys.
    pub fn len(&self) -> (r: usize)
        ensures
            r == self.len_spec(),
    {
        self.entries.len()
    }

    /// The `i`-th entry in order of first write.
    pub fn entry(&self, i: usize) -> (r: &Mutation)
        requires
            i < self.len_spec(),
        ensures
            r.key@ == self.key_at(i as int),
            opt_view(r.value) == self.value_at(i as int),
    {
        &self.entries[i]
    }

    /// Position of `key` in the buffer, if it was written.
    pub fn position(&self, key: &[u8]) -> (r: Option<usize>)
        ensures
            match r {
                Some(i) => i < self.len_spec() && self.key_at(i as int) == key@,
                None => !self.has(key@),
            },
    {
        let mut i: usize = 0;
        while i < self.entries.len()
            invariant
                i <= self.len_spec(),
                forall|j: int| 0 <= j < i ==> self.key_at(j) != key@,
            decreases self.entries.len() - i,
        {
            if compare_keys(self.entries[i].key.as_slice(), key) == 0 {
                return Some(i);
            }
            i = i + 1;
        }
        None
    }

    /// The buffered write for `key`: `None` if the key was not written,
    /// `Some(None)` if it was deleted, `Some(Some(v))` if `v` was put.
    pub fn lookup(&self, key: &[u8]) -> (r: Option<Option<Vec<u8>>>)
        requires
            self.wf(),
        ensures
            r.is_some() == self.ops().contains_key(key@),
            r.is_some() ==> opt_view(r.unwrap()) == self.ops()[key@],
    {
        match self.position(key) {
            Some(i) => {
                proof { self.lemma_ops_at(i as int); }
                match &self.entries[i].value {
                    Some(v) => Some(Some(copy_bytes(v.as_slice()))),
                    None => Some(None),
                }
            },
            None => None,
        }
    }

    /// Records a write of `value` (`None`: a deletion) to `key`.
    pub fn record(&mut self, key: Vec<u8>, value: Option<Vec<u8>>)
        requires
            old(self).wf(),
        ensures
            final(self).wf(),
            final(self).ops() == old(self).ops().insert(key@, opt_view(value)),
            old(self).has(key@) ==> final(self).keys() == old(self).keys(),
            !old(self).has(key@) ==> final(self).keys() == old(self).keys().push(key@),
    {
        let ghost k = key@;
        let ghost v = opt_view(value);
        let ghost pre = *self;
        match self.position(key.as_slice()) {
            Some(i) => {
                self.entries.set(i, Mutation { key, value });
                proof {
                    assert(forall|j: int|
                        0 <= j < self.len_spec() && j != i ==> self.key_at(j) == pre.key_at(j)
                            && self.value_at(j) == pre.value_at(j));
                    assert(self.key_at(i as int) == k);
                    assert(self.keys() =~= pre.keys());
                    assert(self.key_at(i as int) == pre.key_at(i as int));
                    assert(self.wf()) by {
                        assert forall|a: int, b: int|
                            0 <= a < b < self.len_spec() implies #[trigger] self.key_at(a)
                            != #[trigger] self.key_at(b) by {
                            assert(pre.key_at(a) != pre.key_at(b));
                        }
                    }
                    self.lemma_ops_at(i as int);
                    assert forall|kk: Seq<u8>| #[trigger]
                        self.ops().contains_key(kk) == pre.ops().insert(k, v).contains_key(kk) by {
                        if pre.has(kk) {
                            let j = choose|j: int| 0 <= j < pre.len_spec() && pre.key_at(j) == kk;
                            assert(self.key_at(j) == kk);
                        }
                        if self.has(kk) {
                            let j = choose|j: int| 0 <= j < self.len_spec() && self.key_at(j) == kk;
                            assert(pre.key_at(j) == kk || j == i);
                        }
                    }
                    assert forall|kk: Seq<u8>| #[trigger]
                        self.ops().contains_key(kk) implies self.ops()[kk] == pre.ops().insert(
                        k,
                        v,
                    )[kk] by {
                        if kk != k {
                            let j = choose|j: int| 0 <= j < self.len_spec() && self.key_at(j) == kk;
                            self.lemma_ops_at(j);
                            pre.lemma_ops_at(j);
                        }
                    }
                    assert(self.ops() =~= pre.ops().insert(k, v));
                }
            },
            None => {
                self.entries.push(Mutation { key, value });
                proof {
                    let n = pre.len_spec() as int;
                    assert(forall|j: int|
                        0 <= j < n ==> self.key_at(j) == pre.key_at(j) && self.value_at(j)
                            == pre.value_at(j));
                    assert(self.key_at(n) == k);
                    assert(self.keys() =~= pre.keys().push(k));
                    assert(self.wf()) by {
                        assert forall|a: int, b: int|
                            0 <= a < b < self.len_spec() implies #[trigger] self.key_at(a)
                            != #[trigger] self.key_at(b) by {
                            if b < n {
                                assert(pre.key_at(a) != pre.key_at(b));
                            } else {
                                assert(pre.key_at(a) != k);
                            }
                        }
                    }
                    self.lemma_ops_at(n);
                    assert forall|kk: Seq<u8>| #[trigger]
                        self.ops().contains_key(kk) == pre.ops().insert(k, v).contains_key(kk) by {
                        if pre.has(kk) {
                            let j = choose|j: int| 0 <= j < pre.len_spec() && pre.key_at(j) == kk;
                            assert(self.key_at(j) == kk);
                        }
                        if self.has(kk) {
                            let j = choose|j: int| 0 <= j < self.len_spec() && self.key_at(j) == kk;
                            assert(j < n ==> pre.key_at(j) == kk);
                        }
                    }
                    assert forall|kk: Seq<u8>| #[trigger]
                        self.ops().contains_key(kk) implies self.ops()[kk] == pre.ops().insert(
                        k,
                        v,
                    )[kk] by {
                        if kk != k {
                            let j = choose|j: int| 0 <= j < self.len_spec() && self.key_at(j) == kk;
                            assert(j != n);
                            self.lemma_ops_at(j);
                            pre.lemma_ops_at(j);
                        }
                    }
                    assert(self.ops() =~= pre.ops().insert(k, v));
                }
            },
        }
    }
}

} // verus!
