//! A side table keyed by [`NodeId`]: a hash map from the id's number, with
//! the keys also listed in the order they were first inserted.

use std::collections::HashMap;

use vstd::prelude::*;

use crate::parser::ast::NodeId;

verus! {

/// A map from node ids to values.
#[derive(Debug)]
pub struct NodeMap<T> {
    map: HashMap<u32, T>,
    keys: Vec<u32>,
}

/// A set of ids whose numbers are exactly the distinct entries of `keys` is
/// finite and has as many members as `keys` has entries.
proof fn lemma_keys_len(keys: Seq<u32>, d: Set<NodeId>)
    requires
        keys.no_duplicates(),
        forall|k: NodeId| #[trigger] d.contains(k) <==> keys.contains(k.0),
    ensures
        d.finite(),
        d.len() == keys.len(),
    decreases keys.len(),
{
    if keys.len() == 0 {
        assert(d =~= Set::empty());
    } else {
        let last = keys.last();
        let rest = keys.drop_last();
        let d2 = d.remove(NodeId(last));
        assert forall|k: NodeId| #[trigger] d2.contains(k) <==> rest.contains(k.0) by {
            if rest.contains(k.0) {
                let i = choose|i: int| 0 <= i < rest.len() && rest[i] == k.0;
                assert(keys[i] == k.0);
                assert(k.0 != last) by {
                    if k.0 == last {
                        assert(keys[keys.len() - 1] == keys[i]);
                    }
                }
            }
            if d2.contains(k) {
                assert(keys.contains(k.0));
                let i = choose|i: int| 0 <= i < keys.len() && keys[i] == k.0;
                if i == keys.len() - 1 {
                    assert(k == NodeId(last));
                } else {
                    assert(rest[i] == k.0);
                }
            }
        }
        assert(rest.no_duplicates()) by {
            assert forall|i: int, j: int| 0 <= i < rest.len() && 0 <= j < rest.len() && i != j implies rest[i]
                != rest[j] by {
                assert(keys[i] == rest[i] && keys[j] == rest[j]);
            }
        }
        lemma_keys_len(rest, d2);
        assert(keys[keys.len() - 1] == last);
        assert(d.contains(NodeId(last)));
        assert(d =~= d2.insert(NodeId(last)));
    }
}

impl<T> NodeMap<T> {
    /// The mapping, as a map from ids to values.
    pub closed spec fn view(&self) -> Map<NodeId, T> {
        Map::new(|k: NodeId| self.map@.contains_key(k.0), |k: NodeId| self.map@[k.0])
    }

    /// The key list holds each key of the map once.
    pub closed spec fn wf(&self) -> bool {
        &&& self.keys@.no_duplicates()
        &&& forall|k: u32| #[trigger] self.map@.contains_key(k) <==> self.keys@.contains(k)
    }

    /// An empty map.
    pub fn new() -> (m: NodeMap<T>)
        ensures
            m.wf(),
            m.view() == Map::<NodeId, T>::empty(),
    {
        broadcast use vstd::std_specs::hash::group_hash_axioms;

        let m = NodeMap { map: HashMap::new(), keys: Vec::new() };
        assert(m.view() =~= Map::<NodeId, T>::empty());
        m
    }

    /// Maps `key` to `value`, replacing any previous value.
    pub fn insert(&mut self, key: NodeId, value: T)
        requires
            old(self).wf(),
        ensures
            final(self).wf(),
            final(self).view() == old(self).view().insert(key, value),
    {
        broadcast use vstd::std_specs::hash::group_hash_axioms;

        let ghost old_view = self.view();
        let ghost old_keys = self.keys@;
        if !self.map.contains_key(&key.0) {
            self.keys.push(key.0);
            proof {
                assert forall|i: int, j: int|
                    0 <= i < self.keys@.len() && 0 <= j < self.keys@.len() && i != j implies self.keys@[i]
                    != self.keys@[j] by {
                    if i < old_keys.len() && j < old_keys.len() {
                        assert(old_keys[i] != old_keys[j]);
                    } else if i == old_keys.len() {
                        assert(!old_keys.contains(key.0));
                        assert(self.keys@[j] == old_keys[j]);
                    } else {
                        assert(!old_keys.contains(key.0));
                        assert(self.keys@[i] == old_keys[i]);
                    }
                }
            }
        }
        self.map.insert(key.0, value);
        proof {
            assert forall|k: u32| #[trigger] self.map@.contains_key(k) <==> self.keys@.contains(k) by {
                if k == key.0 {
                    assert(self.keys@.contains(k)) by {
                        if old_keys.contains(k) {
                            let i = choose|i: int| 0 <= i < old_keys.len() && old_keys[i] == k;
                            assert(self.keys@[i] == k);
                        } else {
                            assert(self.keys@[self.keys@.len() - 1] == k);
                        }
                    }
                } else {
                    if self.keys@.contains(k) {
                        let i = choose|i: int| 0 <= i < self.keys@.len() && self.keys@[i] == k;
                        if i < old_keys.len() {
                            assert(old_keys[i] == k);
                        }
                    }
                    if old_keys.contains(k) {
                        let i = choose|i: int| 0 <= i < old_keys.len() && old_keys[i] == k;
                        assert(self.keys@[i] == k);
                    }
                }
            }
            assert(self.view() =~= old_view.insert(key, value));
        }
    }

    /// The value for `key`, if any.
    pub fn get(&self, key: NodeId) -> (r: Option<&T>)
        ensures
            self.view().contains_key(key) ==> r == Some(&self.view()[key]),
            !self.view().contains_key(key) ==> r is None,
    {
        broadcast use vstd::std_specs::hash::group_hash_axioms;

        self.map.get(&key.0)
    }

    /// The number of entries.
    pub fn len(&self) -> (n: usize)
        requires
            self.wf(),
        ensures
            n == self.view().dom().len(),
    {
        proof {
            self.lemma_dom_len();
        }
        self.keys.len()
    }

    proof fn lemma_dom_len(&self)
        requires
            self.wf(),
        ensures
            self.view().dom().len() == self.keys@.len(),
            self.view().dom().finite(),
    {
        let d = self.view().dom();
        assert forall|k: NodeId| #[trigger] d.contains(k) <==> self.keys@.contains(k.0) by {
            assert(self.map@.contains_key(k.0) <==> self.keys@.contains(k.0));
        }
        lemma_keys_len(self.keys@, d);
    }

    /// Whether the map is empty.
    pub fn is_empty(&self) -> (b: bool)
        requires
            self.wf(),
        ensures
            b == (self.view().dom().len() == 0),
    {
        proof {
            self.lemma_dom_len();
        }
        self.keys.len() == 0
    }
}

impl<T: Copy> NodeMap<T> {
    /// The values, in the order their keys were first inserted.
    pub fn values(&self) -> (v: Vec<T>)
        requires
            self.wf(),
        ensures
            forall|k: NodeId| #[trigger] self.view().contains_key(k) ==> v@.contains(self.view()[k]),
    {
        broadcast use vstd::std_specs::hash::group_hash_axioms;

        let mut v: Vec<T> = Vec::new();
        let mut i: usize = 0;
        while i < self.keys.len()
            invariant
                self.wf(),
                0 <= i <= self.keys@.len(),
                forall|q: int| 0 <= q < i ==> #[trigger] v@.contains(self.map@[self.keys@[q]]),
            decreases self.keys@.len() - i,
        {
            let k = self.keys[i];
            let ghost before = v@;
            assert(self.keys@[i as int] == k);
            assert(self.map@.contains_key(k));
            match self.map.get(&k) {
                Some(x) => {
                    v.push(*x);
                    proof {
                        assert(v@[v@.len() - 1] == self.map@[k]);
                        assert forall|q: int| 0 <= q < i + 1 implies #[trigger] v@.contains(self.map@[self.keys@[q]]) by {
                            if q < i {
                                assert(before.contains(self.map@[self.keys@[q]]));
                                let w = choose|w: int| 0 <= w < before.len() && before[w] == self.map@[self.keys@[q]];
                                assert(v@ == before.push(*x));
                                assert(v@[w] == before[w]);
                            } else {
                                assert(v@[v@.len() - 1] == self.map@[self.keys@[q]]);
                            }
                        }
                    }
                },
                None => {},
            }
            i = i + 1;
        }
        proof {
            assert forall|k: NodeId| #[trigger] self.view().contains_key(k) implies v@.contains(self.view()[k]) by {
                assert(self.keys@.contains(k.0));
                let q = choose|q: int| 0 <= q < self.keys@.len() && self.keys@[q] == k.0;
                assert(v@.contains(self.map@[self.keys@[q]]));
            }
        }
        v
    }
}

} // verus!
