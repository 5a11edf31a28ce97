use crate::chunk_key::{
    chunk_key, key_chunk, key_limit, lemma_chunk_of_key, lemma_key_injective, lemma_key_of_chunk,
    spec_chunk_key, spec_key_chunk,
};
use crate::math::IVec3;
use std::collections::HashSet;
use vstd::std_specs::hash::spec_hash_keys_iter;
use vstd::prelude::*;
use vstd::std_specs::iter::IteratorSpec;

verus! {

broadcast use vstd::std_specs::hash::group_hash_axioms;

/// A finite set of lattice points.
pub struct ChunkSet {
    keys: HashSet<u128>,
}

impl View for ChunkSet {
    type V = Set<IVec3>;

    closed spec fn view(&self) -> Set<IVec3> {
        self.keys@.map(|k: u128| spec_key_chunk(k))
    }
}

impl ChunkSet {
    /// Each key is the key of a point.
    #[verifier::type_invariant]
    spec fn keys_valid(self) -> bool {
        forall|k: u128| self.keys@.contains(k) ==> k < key_limit()
    }

    /// Membership in the view is membership of the key.
    proof fn lemma_view(self, p: IVec3)
        requires
            self.keys_valid(),
        ensures
            self@.contains(p) == self.keys@.contains(spec_chunk_key(p)),
    {
        lemma_key_of_chunk(p);
        if self@.contains(p) {
            let k = choose|k: u128| self.keys@.contains(k) && spec_key_chunk(k) == p;
            lemma_chunk_of_key(k);
        }
    }

    /// The empty set.
    pub fn new() -> (s: ChunkSet)
        ensures
            s@ == Set::<IVec3>::empty(),
    {
        let s = ChunkSet { keys: HashSet::new() };
        assert(s@ =~= Set::<IVec3>::empty());
        s
    }

    /// Whether `p` is in the set.
    pub fn contains(&self, p: IVec3) -> (r: bool)
        ensures
            r == self@.contains(p),
    {
        proof {
            use_type_invariant(self);
            self.lemma_view(p);
        }
        let k: u128 = chunk_key(p);
        self.keys.contains(&k)
    }

    /// Adds `p`; returns whether it was absent.
    pub fn insert(&mut self, p: IVec3) -> (fresh: bool)
        ensures
            final(self)@ == old(self)@.insert(p),
            fresh == !old(self)@.contains(p),
    {
        proof {
            use_type_invariant(&*self);
            self.lemma_view(p);
            lemma_key_of_chunk(p);
        }
        let k: u128 = chunk_key(p);
        let mut keys: HashSet<u128> = HashSet::new();
        std::mem::swap(&mut self.keys, &mut keys);
        let fresh = keys.insert(k);
        self.keys = keys;
        assert(self@ =~= old(self)@.insert(p)) by {
            assert forall|q: IVec3| self@.contains(q) == old(self)@.insert(p).contains(q) by {
                self.lemma_view(q);
                old(self).lemma_view(q);
                if spec_chunk_key(q) == k {
                    lemma_key_injective(p, q);
                }
            }
        }
        fresh
    }

    /// Removes `p`; returns whether it was present.
    pub fn remove(&mut self, p: IVec3) -> (present: bool)
        ensures
            final(self)@ == old(self)@.remove(p),
            present == old(self)@.contains(p),
    {
        proof {
            use_type_invariant(&*self);
            self.lemma_view(p);
        }
        let k: u128 = chunk_key(p);
        let mut keys: HashSet<u128> = HashSet::new();
        std::mem::swap(&mut self.keys, &mut keys);
        let present = keys.remove(&k);
        self.keys = keys;
        assert(self@ =~= old(self)@.remove(p)) by {
            assert forall|q: IVec3| self@.contains(q) == old(self)@.remove(p).contains(q) by {
                self.lemma_view(q);
                old(self).lemma_view(q);
                if spec_chunk_key(q) == k {
                    lemma_key_injective(p, q);
                }
            }
        }
        present
    }

    /// Removes every point.
    pub fn clear(&mut self)
        ensures
            final(self)@ == Set::<IVec3>::empty(),
    {
        self.keys = HashSet::new();
        assert(self@ =~= Set::<IVec3>::empty());
    }

    /// The view is finite and as large as the set of keys.
    proof fn lemma_len(self)
        requires
            self.keys_valid(),
        ensures
            self@.finite(),
            self@.len() == self.keys@.len(),
    {
        assert(vstd::relations::injective_on(|k: u128| spec_key_chunk(k), self.keys@)) by {
            assert forall|a: u128, b: u128|
                self.keys@.contains(a) && self.keys@.contains(b) && spec_key_chunk(a)
                    == spec_key_chunk(b) implies a == b by {
                lemma_chunk_of_key(a);
                lemma_chunk_of_key(b);
            }
        }
        let listed = spec_hash_keys_iter(&self.keys).remaining().unref();
        vstd::seq_lib::seq_to_set_is_finite(listed);
        vstd::set_lib::lemma_map_size(self.keys@, self@, |k: u128| spec_key_chunk(k));
    }

    /// The number of points.
    pub fn len(&self) -> (n: usize)
        ensures
            n == self@.len(),
            self@.finite(),
    {
        proof {
            use_type_invariant(self);
            self.lemma_len();
        }
        self.keys.len()
    }

    /// The points of the set, each once, in no particular order.
    #[verifier::rlimit(50)]
    pub fn to_vec(&self) -> (points: Vec<IVec3>)
        ensures
            points@.no_duplicates(),
            points@.to_set() == self@,
    {
        proof {
            use_type_invariant(self);
        }
        let mut points: Vec<IVec3> = Vec::new();
        let ghost keys: Seq<&u128> = self.keys.iter().remaining();
        for k in it: self.keys.iter()
            invariant
                self.keys_valid(),
                it.seq() == keys,
                keys.unref().to_set() == self.keys@,
                keys.no_duplicates(),
                points@.len() == it.index(),
                forall|j: int|
                    0 <= j < points@.len() ==> spec_chunk_key(#[trigger] points@[j]) == *keys[j],
        {
            assert(it.seq().unref()[it.index()] == *k);
            assert(it.seq().unref().to_set().contains(*k));
            let p = key_chunk(*k);
            points.push(p);
        }
        proof {
            assert(points@.no_duplicates()) by {
                assert forall|i: int, j: int|
                    0 <= i < points@.len() && 0 <= j < points@.len() && i != j implies points@[i]
                    != points@[j] by {
                    assert(spec_chunk_key(points@[i]) == *keys[i]);
                    assert(spec_chunk_key(points@[j]) == *keys[j]);
                }
            }
            assert(points@.to_set() =~= self@) by {
                assert forall|q: IVec3| points@.to_set().contains(q) == self@.contains(q) by {
                    self.lemma_view(q);
                    if points@.to_set().contains(q) {
                        let j = choose|j: int| 0 <= j < points@.len() && points@[j] == q;
                        assert(keys.unref()[j] == spec_chunk_key(q));
                        assert(keys.unref().to_set().contains(spec_chunk_key(q)));
                    }
                    if self@.contains(q) {
                        assert(keys.unref().to_set().contains(spec_chunk_key(q)));
                        let j = choose|j: int|
                            0 <= j < keys.unref().len() && keys.unref()[j] == spec_chunk_key(q);
                        assert(spec_chunk_key(points@[j]) == spec_chunk_key(q));
                        lemma_key_injective(points@[j], q);
                    }
                }
            }
        }
        points
    }

    /// Adds every point of `points`.
    #[verifier::rlimit(50)]
    pub fn extend(&mut self, points: &Vec<IVec3>)
        ensures
            final(self)@ == old(self)@.union(points@.to_set()),
    {
        let mut i: usize = 0;
        while i < points.len()
            invariant
                i <= points@.len(),
                self@ == old(self)@.union(points@.take(i as int).to_set()),
            decreases points@.len() - i,
        {
            self.insert(points[i]);
            proof {
                let before = points@.take(i as int);
                let after = points@.take(i as int + 1);
                assert(after =~= before.push(points@[i as int]));
                assert(after.to_set() =~= before.to_set().insert(points@[i as int])) by {
                    assert forall|q: IVec3|
                        after.to_set().contains(q) == before.to_set().insert(
                            points@[i as int],
                        ).contains(q) by {
                        if after.contains(q) {
                            let j = choose|j: int| 0 <= j < after.len() && after[j] == q;
                            if j < i {
                                assert(before[j] == q);
                            }
                        }
                        if before.contains(q) {
                            let j = choose|j: int| 0 <= j < before.len() && before[j] == q;
                            assert(after[j] == q);
                        }
                        assert(after[i as int] == points@[i as int]);
                    }
                }
                assert(self@ =~= old(self)@.union(after.to_set()));
            }
            i += 1;
        }
        assert(points@.take(points@.len() as int) =~= points@);
    }

    /// The points of `self` that are not in `other`, each once, in no
    /// particular order.
    #[verifier::rlimit(50)]
    pub fn difference(&self, other: &ChunkSet) -> (points: Vec<IVec3>)
        ensures
            points@.no_duplicates(),
            points@.to_set() == self@.difference(other@),
    {
        let all = self.to_vec();
        let mut points: Vec<IVec3> = Vec::new();
        let mut i: usize = 0;
        while i < all.len()
            invariant
                i <= all@.len(),
                all@.no_duplicates(),
                all@.to_set() == self@,
                points@.no_duplicates(),
                forall|j: int|
                    0 <= j < points@.len() ==> !other@.contains(#[trigger] points@[j])
                        && exists|k: int| 0 <= k < i && all@[k] == points@[j],
                forall|k: int|
                    0 <= k < i && !other@.contains(#[trigger] all@[k]) ==> points@.contains(
                        all@[k],
                    ),
            decreases all@.len() - i,
        {
            let p = all[i];
            if !other.contains(p) {
                let ghost before = points@;
                points.push(p);
                proof {
                    assert forall|k: int|
                        0 <= k < i + 1 && !other@.contains(#[trigger] all@[k]) implies points@.contains(
                        all@[k],
                    ) by {
                        if k < i {
                            let j = choose|j: int| 0 <= j < before.len() && before[j] == all@[k];
                            assert(points@[j] == all@[k]);
                        } else {
                            assert(points@[before.len() as int] == all@[k]);
                        }
                    }
                    assert forall|a: int, b: int|
                        0 <= a < points@.len() && 0 <= b < points@.len() && a != b implies points@[a]
                        != points@[b] by {
                        if a == before.len() && b < before.len() {
                            let k = choose|k: int| 0 <= k < i && all@[k] == before[b];
                        }
                        if b == before.len() && a < before.len() {
                            let k = choose|k: int| 0 <= k < i && all@[k] == before[a];
                        }
                    }
                }
            }
            i += 1;
        }
        proof {
            assert forall|q: IVec3|
                points@.to_set().contains(q) == self@.difference(other@).contains(q) by {
                if points@.contains(q) {
                    let j = choose|j: int| 0 <= j < points@.len() && points@[j] == q;
                    let k = choose|k: int| 0 <= k < i && all@[k] == points@[j];
                    assert(all@.to_set().contains(all@[k]));
                }
                if self@.contains(q) && !other@.contains(q) {
                    assert(all@.to_set().contains(q));
                    let k = choose|k: int| 0 <= k < all@.len() && all@[k] == q;
                    assert(points@.contains(all@[k]));
                }
            }
            assert(points@.to_set() =~= self@.difference(other@));
        }
        points
    }
}

} // verus!
