//! The node's local key/value store.
use vstd::prelude::*;
use crate::routing_table::{bytes_equal, copy_bytes};

verus! {

/// Position of the last key of `ks` equal to `key`, or -1.
pub open spec fn key_index(ks: Seq<Vec<u8>>, key: Seq<u8>) -> int
    decreases ks.len(),
{
    if ks.len() == 0 {
        -1
    } else if ks.last()@ == key {
        ks.len() - 1
    } else {
        key_index(ks.drop_last(), key)
    }
}

proof fn lemma_key_index(ks: Seq<Vec<u8>>, key: Seq<u8>)
    ensures
        -1 <= key_index(ks, key) < ks.len(),
        key_index(ks, key) >= 0 ==> ks[key_index(ks, key)]@ == key,
    decreases ks.len(),
{
    if ks.len() > 0 {
        lemma_key_index(ks.drop_last(), key);
    }
}

/// Mapping from keys to values, both arbitrary byte strings; the last write to a key wins.
pub struct LocalStore {
    keys: Vec<Vec<u8>>,
    values: Vec<Vec<u8>>,
}

impl View for LocalStore {
    type V = Map<Seq<u8>, Seq<u8>>;

    closed spec fn view(&self) -> Map<Seq<u8>, Seq<u8>> {
        Map::new(
            |key: Seq<u8>| key_index(self.keys@, key) >= 0,
            |key: Seq<u8>| self.values@[key_index(self.keys@, key)]@,
        )
    }
}

/// Storing `v1` and then `v2` under one key leaves `v2` there.
pub proof fn lemma_last_store_wins(
    m: Map<Seq<u8>, Seq<u8>>,
    key: Seq<u8>,
    v1: Seq<u8>,
    v2: Seq<u8>,
)
    ensures
        m.insert(key, v1).insert(key, v2).contains_key(key),
        m.insert(key, v1).insert(key, v2)[key] == v2,
{
}

/// Position of the last key of `ks` equal to `key`.
fn find_key(ks: &Vec<Vec<u8>>, key: &Vec<u8>) -> (r: Option<usize>)
    ensures
        key_index(ks@, key@) == match r {
            Some(j) => j as int,
            None => -1,
        },
{
    let mut j: usize = ks.len();
    assert(ks@.subrange(0, j as int) =~= ks@);
    while j > 0
        invariant
            j <= ks@.len(),
            key_index(ks@, key@) == key_index(ks@.subrange(0, j as int), key@),
        decreases j,
    {
        let ghost s = ks@.subrange(0, j as int);
        assert(s.drop_last() =~= ks@.subrange(0, j - 1));
        if bytes_equal(&ks[j - 1], key) {
            return Some(j - 1);
        }
        j -= 1;
    }
    None
}

impl LocalStore {
    pub closed spec fn wf(&self) -> bool {
        self.keys@.len() == self.values@.len()
    }

    /// An empty store.
    pub fn new() -> (r: Self)
        ensures
            r.wf(),
            r@ == Map::<Seq<u8>, Seq<u8>>::empty(),
    {
        let r = LocalStore { keys: Vec::new(), values: Vec::new() };
        assert(r@ =~= Map::<Seq<u8>, Seq<u8>>::empty());
        r
    }

    /// Writes `value` under `key`, replacing what was there.
    pub fn store(&mut self, key: Vec<u8>, value: Vec<u8>)
        requires
            old(self).wf(),
        ensures
            final(self).wf(),
            final(self)@ == old(self)@.insert(key@, value@),
    {
        let ghost m0 = self@;
        let ghost k0 = self.keys@;
        let ghost v0 = self.values@;
        proof {
            lemma_key_index(k0, key@);
        }
        match find_key(&self.keys, &key) {
            Some(j) => {
                let ghost vv = value@;
                let ghost kv = key@;
                self.values.set(j, value);
                proof {
                    assert(self.values@[j as int]@ == vv);
                    assert(key_index(self.keys@, kv) == j);
                    assert(self.keys@ == k0);
                    assert forall|q: Seq<u8>| q != kv && key_index(k0, q) >= 0 implies key_index(k0, q) != j by {
                        lemma_key_index(k0, q);
                    }
                    assert forall|q: Seq<u8>| #[trigger] self@.contains_key(q) == m0.insert(kv, vv).contains_key(q) by {}
                    assert forall|q: Seq<u8>| self@.contains_key(q) implies #[trigger] self@[q] == m0.insert(kv, vv)[q] by {
                        if q != kv {
                            lemma_key_index(k0, q);
                            assert(self.values@[key_index(k0, q)] == v0[key_index(k0, q)]);
                        }
                    }
                    assert(self@ =~= m0.insert(kv, vv));
                }
            },
            None => {
                let ghost kv = key@;
                self.keys.push(key);
                self.values.push(value);
                proof {
                    assert forall|q: Seq<u8>| q != kv implies key_index(self.keys@, q) == key_index(k0, q) by {
                        assert(self.keys@.drop_last() =~= k0);
                    }
                    assert(self.keys@.drop_last() =~= k0);
                    assert forall|q: Seq<u8>| q != kv && key_index(k0, q) >= 0 implies self.values@[key_index(k0, q)] == v0[key_index(k0, q)] by {
                        lemma_key_index(k0, q);
                    }
                    assert(self@ =~= m0.insert(kv, value@));
                }
            },
        }
    }

    /// The value stored under `key`, copied, if any.
    pub fn get(&self, key: &Vec<u8>) -> (r: Option<Vec<u8>>)
        requires
            self.wf(),
        ensures
            r.is_some() == self@.contains_key(key@),
            r.is_some() ==> r.unwrap()@ == self@[key@],
    {
        proof {
            lemma_key_index(self.keys@, key@);
        }
        match find_key(&self.keys, key) {
            Some(j) => Some(copy_bytes(&self.values[j])),
            None => None,
        }
    }
}

} // verus!
