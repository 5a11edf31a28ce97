use crate::chunk_key::{
    chunk_key, key_chunk, key_limit, lemma_chunk_of_key, lemma_key_injective, lemma_key_of_chunk,
    spec_chunk_key, spec_key_chunk,
};
use crate::math::IVec3;
use std::collections::HashMap;
use vstd::prelude::*;
use vstd::std_specs::iter::IteratorSpec;

verus! {

broadcast use vstd::std_specs::hash::group_hash_axioms;

/// A finite map from lattice points to values.
pub struct ChunkMap<V> {
    entries: HashMap<u128, V>,
}

impl<V> View for ChunkMap<V> {
    type V = Map<IVec3, V>;

    closed spec fn view(&self) -> Map<IVec3, V> {
        Map::new(
            |p: IVec3| self.entries@.contains_key(spec_chunk_key(p)),
            |p: IVec3| self.entries@[spec_chunk_key(p)],
        )
    }
}

impl<V> ChunkMap<V> {
    /// Each key is the key of a point.
    #[verifier::type_invariant]
    spec fn keys_valid(self) -> bool {
        forall|k: u128| self.entries@.contains_key(k) ==> k < key_limit()
    }

    /// The domain of the view is the set of points that the keys name.
    proof fn lemma_dom(self)
        requires
            self.keys_valid(),
        ensures
            self@.dom() == self.entries@.dom().map(|k: u128| spec_key_chunk(k)),
            self@.dom().finite(),
            self@.dom().len() == self.entries@.dom().len(),
    {
        let named = self.entries@.dom().map(|k: u128| spec_key_chunk(k));
        assert(self@.dom() =~= named) by {
            assert forall|p: IVec3| self@.dom().contains(p) == named.contains(p) by {
                lemma_key_of_chunk(p);
                if named.contains(p) {
                    let k = choose|k: u128|
                        self.entries@.dom().contains(k) && spec_key_chunk(k) == p;
                    lemma_chunk_of_key(k);
                }
            }
        }
        assert(vstd::relations::injective_on(|k: u128| spec_key_chunk(k), self.entries@.dom()))
            by {
            assert forall|a: u128, b: u128|
                self.entries@.dom().contains(a) && self.entries@.dom().contains(b)
                    && spec_key_chunk(a) == spec_key_chunk(b) implies a == b by {
                lemma_chunk_of_key(a);
                lemma_chunk_of_key(b);
            }
        }
        vstd::set_lib::lemma_map_size(
            self.entries@.dom(),
            self@.dom(),
            |k: u128| spec_key_chunk(k),
        );
    }

    /// The empty map.
    pub fn new() -> (m: ChunkMap<V>)
        ensures
            m@ == Map::<IVec3, V>::empty(),
    {
        let m = ChunkMap { entries: HashMap::new() };
        assert(m@ =~= Map::<IVec3, V>::empty());
        m
    }

    /// Whether the map has a value at `p`.
    pub fn contains_key(&self, p: IVec3) -> (r: bool)
        ensures
            r == self@.contains_key(p),
    {
        let k: u128 = chunk_key(p);
        self.entries.contains_key(&k)
    }

    /// The value at `p`, if there is one.
    pub fn get(&self, p: IVec3) -> (r: Option<&V>)
        ensures
            r.is_some() == self@.contains_key(p),
            r.is_some() ==> *r.unwrap() == self@[p],
    {
        let k: u128 = chunk_key(p);
        self.entries.get(&k)
    }

    /// Sets the value at `p`; returns the value that was there.
    pub fn insert(&mut self, p: IVec3, value: V) -> (previous: Option<V>)
        ensures
            final(self)@ == old(self)@.insert(p, value),
            previous.is_some() == old(self)@.contains_key(p),
            previous.is_some() ==> previous.unwrap() == old(self)@[p],
    {
        proof {
            use_type_invariant(&*self);
        }
        let k: u128 = chunk_key(p);
        let mut entries: HashMap<u128, V> = HashMap::new();
        std::mem::swap(&mut self.entries, &mut entries);
        let previous = entries.insert(k, value);
        self.entries = entries;
        assert(self@ =~= old(self)@.insert(p, value)) by {
            assert forall|q: IVec3| spec_chunk_key(q) == k implies q == p by {
                lemma_key_injective(p, q);
            }
        }
        previous
    }

    /// Removes the value at `p`; returns the value that was there.
    pub fn remove(&mut self, p: IVec3) -> (previous: Option<V>)
        ensures
            final(self)@ == old(self)@.remove(p),
            previous.is_some() == old(self)@.contains_key(p),
            previous.is_some() ==> previous.unwrap() == old(self)@[p],
    {
        proof {
            use_type_invariant(&*self);
        }
        let k: u128 = chunk_key(p);
        let mut entries: HashMap<u128, V> = HashMap::new();
        std::mem::swap(&mut self.entries, &mut entries);
        let previous = entries.remove(&k);
        self.entries = entries;
        assert(self@ =~= old(self)@.remove(p)) by {
            assert forall|q: IVec3| spec_chunk_key(q) == k implies q == p by {
                lemma_key_injective(p, q);
            }
        }
        previous
    }

    /// The number of entries.
    pub fn len(&self) -> (n: usize)
        ensures
            n == self@.dom().len(),
            self@.dom().finite(),
    {
        proof {
            use_type_invariant(self);
            self.lemma_dom();
        }
        self.entries.len()
    }

    /// The points that have a value, each once, in no particular order.
    #[verifier::rlimit(50)]
    pub fn keys(&self) -> (points: Vec<IVec3>)
        ensures
            points@.no_duplicates(),
            points@.to_set() == self@.dom(),
    {
        proof {
            use_type_invariant(self);
        }
        let mut points: Vec<IVec3> = Vec::new();
        let ghost keys: Seq<&u128> = self.entries.keys().remaining();
        for k in it: self.entries.keys()
            invariant
                self.keys_valid(),
                it.seq() == keys,
                keys.unref().to_set() == self.entries@.dom(),
                keys.no_duplicates(),
                points@.len() == it.index(),
                forall|j: int|
                    0 <= j < points@.len() ==> spec_chunk_key(#[trigger] points@[j]) == *keys[j],
        {
            assert(keys.unref()[it.index()] == *k);
            assert(keys.unref().to_set().contains(*k));
            let p = key_chunk(*k);
            points.push(p);
        }
        proof {
            assert(points@.no_duplicates()) by {
                assert forall|i: int, j: int|
                    0 <= i < points@.len() && 0 <= j < points@.len() && i != j implies points@[i]
                    != points@[j] by {
                    assert(spec_chunk_key(points@[i]) == *keys[i]);
                    assert(spec_chunk_key(points@[j]) == *keys[j]);
                }
            }
            assert(points@.to_set() =~= self@.dom()) by {
                assert forall|q: IVec3| points@.to_set().contains(q) == self@.dom().contains(
                    q,
                ) by {
                    if points@.to_set().contains(q) {
                        let j = choose|j: int| 0 <= j < points@.len() && points@[j] == q;
                        assert(keys.unref()[j] == spec_chunk_key(q));
                        assert(keys.unref().to_set().contains(spec_chunk_key(q)));
                    }
                    if self@.dom().contains(q) {
                        assert(keys.unref().to_set().contains(spec_chunk_key(q)));
                        let j = choose|j: int|
                            0 <= j < keys.unref().len() && keys.unref()[j] == spec_chunk_key(q);
                        assert(spec_chunk_key(points@[j]) == spec_chunk_key(q));
                        lemma_key_injective(points@[j], q);
                    }
                }
            }
        }
        points
    }
}

} // verus!
