use crate::math::IVec3;
use crate::scanner::ChunkPos;
use indexmap::IndexSet;
use std::hash::RandomState;
use vstd::prelude::*;

verus! {

/// `indexmap::IndexSet`, a set that keeps its items in the order in which
/// they were inserted.
#[verifier::external_type_specification]
#[verifier::external_body]
#[verifier::reject_recursive_types(T)]
#[verifier::reject_recursive_types(S)]
pub struct ExIndexSet<T, S>(IndexSet<T, S>);

/// The items of an `IndexSet`, by index.
pub uninterp spec fn index_set_items(set: IndexSet<(i32, i32, i32), RandomState>) -> Seq<
    (i32, i32, i32),
>;

/// The lattice point that a triple of coordinates names.
pub open spec fn point_of(item: (i32, i32, i32)) -> IVec3 {
    IVec3 { x: item.0, y: item.1, z: item.2 }
}

/// Squared distance from `chunk` to the nearest of `observers`; without
/// observers, the largest 128-bit number.
pub open spec fn spec_closest_distance(chunk: IVec3, observers: Seq<ChunkPos>) -> int
    decreases observers.len(),
{
    if observers.len() == 0 {
        i128::MAX as int
    } else {
        let rest = spec_closest_distance(chunk, observers.drop_last());
        let last = chunk.spec_distance_squared(observers.last().0);
        if last < rest {
            last
        } else {
            rest
        }
    }
}

/// The number by which a queue of chunks is ordered, smallest first: the
/// squared distance to the nearest observer, or its negative where the
/// farthest chunk is to come first.
pub open spec fn spec_queue_sort_key(
    chunk: IVec3,
    observers: Seq<ChunkPos>,
    farthest_first: bool,
) -> int {
    if farthest_first {
        -spec_closest_distance(chunk, observers)
    } else {
        spec_closest_distance(chunk, observers)
    }
}

/// Squared distance from `chunk` to the nearest of `observers`.
pub fn closest_distance(chunk: IVec3, observers: &Vec<ChunkPos>) -> (closest: i128)
    ensures
        closest == spec_closest_distance(chunk, observers@),
        0 <= closest,
{
    let mut closest: i128 = i128::MAX;
    let mut i: usize = 0;
    while i < observers.len()
        invariant
            i <= observers@.len(),
            closest == spec_closest_distance(chunk, observers@.take(i as int)),
            0 <= closest,
        decreases observers@.len() - i,
    {
        let distance: i128 = chunk.distance_squared(observers[i].0);
        assert(observers@.take(i as int + 1).drop_last() =~= observers@.take(i as int));
        if distance < closest {
            closest = distance;
        }
        i += 1;
    }
    assert(observers@.take(observers@.len() as int) =~= observers@);
    closest
}

/// The number by which a queue orders the chunk at `item`.
pub fn queue_sort_key(
    item: &(i32, i32, i32),
    observers: &Vec<ChunkPos>,
    farthest_first: bool,
) -> (key: i128)
    ensures
        key == spec_queue_sort_key(point_of(*item), observers@, farthest_first),
{
    let closest: i128 = closest_distance(IVec3::new(item.0, item.1, item.2), observers);
    if farthest_first {
        -closest
    } else {
        closest
    }
}

/// Whether `after` holds the items of `before` in ascending order of
/// `key`, items of equal key in the order they have in `before`.
pub open spec fn is_stable_sort<T>(before: Seq<T>, after: Seq<T>, key: spec_fn(T) -> int) -> bool {
    &&& after.len() == before.len()
    &&& after.no_duplicates()
    &&& after.to_set() == before.to_set()
    &&& forall|i: int, j: int| 0 <= i < j < after.len() ==> key(after[i]) <= key(after[j])
    &&& forall|i: int, j: int, a: int, b: int|
        0 <= i < j < after.len() && key(after[i]) == key(after[j]) && 0 <= a < before.len() && 0
            <= b < before.len() && before[a] == after[i] && before[b] == after[j] ==> a < b
}

/// What is left of `items` when the item at `index` is replaced by the last
/// item and the last place is dropped.
pub open spec fn seq_swap_remove<T>(items: Seq<T>, index: int) -> Seq<T> {
    items.update(index, items.last()).drop_last()
}

/// `IndexSet::new`: a set without items.
#[verifier::external_body]
fn set_new() -> (set: IndexSet<(i32, i32, i32), RandomState>)
    ensures
        index_set_items(set) == Seq::<(i32, i32, i32)>::empty(),
{
    IndexSet::new()
}

/// `IndexSet::len`: the number of items.
#[verifier::external_body]
fn set_len(set: &IndexSet<(i32, i32, i32), RandomState>) -> (len: usize)
    ensures
        len == index_set_items(*set).len(),
{
    set.len()
}

/// `IndexSet::get_index`: the item at `index`, if `index` is below the length.
#[verifier::external_body]
fn set_get_index(set: &IndexSet<(i32, i32, i32), RandomState>, index: usize) -> (item: Option<
    (i32, i32, i32),
>)
    ensures
        item == if index < index_set_items(*set).len() {
            Some(index_set_items(*set)[index as int])
        } else {
            None
        },
{
    set.get_index(index).copied()
}

/// `IndexSet::insert`: an item that the set lacks goes to the end and the
/// call returns true; with an item that it has, the set stays as it is and
/// the call returns false.
#[verifier::external_body]
fn set_insert(set: &mut IndexSet<(i32, i32, i32), RandomState>, item: (i32, i32, i32)) -> (fresh:
    bool)
    ensures
        fresh == !index_set_items(*old(set)).contains(item),
        index_set_items(*final(set)) == if fresh {
            index_set_items(*old(set)).push(item)
        } else {
            index_set_items(*old(set))
        },
{
    set.insert(item)
}

/// `IndexSet::swap_remove`: an item that the set has is replaced by the
/// last item, the last place is dropped, and the call returns true; without
/// the item the set stays as it is and the call returns false.
#[verifier::external_body]
fn set_swap_remove(
    set: &mut IndexSet<(i32, i32, i32), RandomState>,
    item: &(i32, i32, i32),
) -> (present: bool)
    ensures
        present == index_set_items(*old(set)).contains(*item),
        !present ==> index_set_items(*final(set)) == index_set_items(*old(set)),
        present ==> exists|index: int|
            0 <= index < index_set_items(*old(set)).len() && #[trigger] index_set_items(
                *old(set),
            )[index] == *item && index_set_items(*final(set)) == seq_swap_remove(
                index_set_items(*old(set)),
                index,
            ),
{
    set.swap_remove(item)
}

/// `IndexSet::drain` on the range from 0 to `count`: the first `count`
/// items leave the set, in order, and the others move down.
#[verifier::external_body]
fn set_drain_front(set: &mut IndexSet<(i32, i32, i32), RandomState>, count: usize) -> (drained: Vec<
    (i32, i32, i32),
>)
    requires
        count <= index_set_items(*old(set)).len(),
    ensures
        drained@ == index_set_items(*old(set)).take(count as int),
        index_set_items(*final(set)) == index_set_items(*old(set)).skip(count as int),
{
    set.drain(0..count).collect()
}

/// `IndexSet::sort_by_cached_key` with [`queue_sort_key`] as the key: a
/// stable sort of the items by that key.
#[verifier::external_body]
fn set_sort_by_cached_key(
    set: &mut IndexSet<(i32, i32, i32), RandomState>,
    observers: &Vec<ChunkPos>,
    farthest_first: bool,
)
    ensures
        is_stable_sort(
            index_set_items(*old(set)),
            index_set_items(*final(set)),
            |item: (i32, i32, i32)|
                spec_queue_sort_key(point_of(item), observers@, farthest_first),
        ),
{
    set.sort_by_cached_key(|item| queue_sort_key(item, observers, farthest_first));
}

/// Two stable sorts of the same items by the same key are equal up to any
/// index `k`.
#[verifier::rlimit(50)]
proof fn lemma_stable_sort_prefix<T>(
    before: Seq<T>,
    first: Seq<T>,
    second: Seq<T>,
    key: spec_fn(T) -> int,
    k: int,
)
    requires
        is_stable_sort(before, first, key),
        is_stable_sort(before, second, key),
        0 <= k <= before.len(),
    ensures
        forall|i: int| 0 <= i < k ==> first[i] == second[i],
    decreases k,
{
    if k > 0 {
        lemma_stable_sort_prefix(before, first, second, key, k - 1);
        let m = k - 1;
        let e = first[m];
        let f = second[m];
        if e != f {
            assert(first.to_set().contains(e));
            assert(second.to_set().contains(e));
            let j2 = choose|j: int| 0 <= j < second.len() && second[j] == e;
            assert(second.to_set().contains(f));
            assert(first.to_set().contains(f));
            let j1 = choose|j: int| 0 <= j < first.len() && first[j] == f;
            if j2 < m {
                assert(first[j2] == second[j2]);
            }
            if j1 < m {
                assert(second[j1] == first[j1]);
            }
            assert(m < j2 && m < j1);
            assert(key(f) <= key(e));
            assert(key(e) <= key(f));
            assert(before.to_set().contains(e));
            assert(before.to_set().contains(f));
            let a = choose|a: int| 0 <= a < before.len() && before[a] == e;
            let b = choose|b: int| 0 <= b < before.len() && before[b] == f;
            assert(second[m] == before[b] && second[j2] == before[a]);
            assert(b < a);
            assert(first[m] == before[a] && first[j1] == before[b]);
            assert(a < b);
        }
    }
}

/// There is at most one stable sort of given items by a given key.
pub proof fn lemma_stable_sort_unique<T>(
    before: Seq<T>,
    first: Seq<T>,
    second: Seq<T>,
    key: spec_fn(T) -> int,
)
    requires
        is_stable_sort(before, first, key),
        is_stable_sort(before, second, key),
    ensures
        first == second,
{
    lemma_stable_sort_prefix(before, first, second, key, before.len() as int);
    assert(first =~= second);
}

/// Whether `sorted` holds the chunks of `queue` in ascending order of
/// [`spec_queue_sort_key`], chunks of equal key in the order they have in
/// `queue`.
pub open spec fn is_sorted_by_distance(
    queue: Seq<IVec3>,
    sorted: Seq<IVec3>,
    observers: Seq<ChunkPos>,
    farthest_first: bool,
) -> bool {
    is_stable_sort(
        queue,
        sorted,
        |chunk: IVec3| spec_queue_sort_key(chunk, observers, farthest_first),
    )
}

/// The chunks of `queue` sorted by distance: the one sequence of which
/// [`is_sorted_by_distance`] holds, where there is one.
pub open spec fn spec_sort_by_distance(
    queue: Seq<IVec3>,
    observers: Seq<ChunkPos>,
    farthest_first: bool,
) -> Seq<IVec3> {
    choose|sorted: Seq<IVec3>| #[trigger]
        is_sorted_by_distance(queue, sorted, observers, farthest_first)
}

/// A sequence of which [`is_sorted_by_distance`] holds is the queue sorted
/// by distance.
pub proof fn lemma_sort_by_distance(
    queue: Seq<IVec3>,
    sorted: Seq<IVec3>,
    observers: Seq<ChunkPos>,
    farthest_first: bool,
)
    requires
        is_sorted_by_distance(queue, sorted, observers, farthest_first),
    ensures
        sorted == spec_sort_by_distance(queue, observers, farthest_first),
{
    lemma_stable_sort_unique(
        queue,
        sorted,
        spec_sort_by_distance(queue, observers, farthest_first),
        |chunk: IVec3| spec_queue_sort_key(chunk, observers, farthest_first),
    );
}

/// `queue` with `chunk` appended, unless it holds it already.
pub open spec fn spec_insert(queue: Seq<IVec3>, chunk: IVec3) -> Seq<IVec3> {
    if queue.contains(chunk) {
        queue
    } else {
        queue.push(chunk)
    }
}

/// `queue` with each of `chunks` inserted in turn.
pub open spec fn spec_extend(queue: Seq<IVec3>, chunks: Seq<IVec3>) -> Seq<IVec3>
    decreases chunks.len(),
{
    if chunks.len() == 0 {
        queue
    } else {
        spec_insert(spec_extend(queue, chunks.drop_last()), chunks.last())
    }
}

/// `queue` without `chunk`: where the queue holds it, the last chunk takes
/// its place.
pub open spec fn spec_swap_remove(queue: Seq<IVec3>, chunk: IVec3) -> Seq<IVec3> {
    if queue.contains(chunk) {
        seq_swap_remove(queue, queue.index_of(chunk))
    } else {
        queue
    }
}

/// `queue` with each of `chunks` removed in turn, as [`spec_swap_remove`]
/// does.
pub open spec fn spec_swap_remove_all(queue: Seq<IVec3>, chunks: Seq<IVec3>) -> Seq<IVec3>
    decreases chunks.len(),
{
    if chunks.len() == 0 {
        queue
    } else {
        spec_swap_remove(spec_swap_remove_all(queue, chunks.drop_last()), chunks.last())
    }
}

/// Inserting keeps a queue free of duplicates and adds the chunk to what
/// it holds.
pub proof fn lemma_insert(queue: Seq<IVec3>, chunk: IVec3)
    requires
        queue.no_duplicates(),
    ensures
        spec_insert(queue, chunk).no_duplicates(),
        spec_insert(queue, chunk).to_set() == queue.to_set().insert(chunk),
{
    let after = spec_insert(queue, chunk);
    assert forall|q: IVec3| after.to_set().contains(q) == queue.to_set().insert(chunk).contains(
        q,
    ) by {
        if after.contains(q) {
            let j = choose|j: int| 0 <= j < after.len() && after[j] == q;
            if j < queue.len() {
                assert(queue[j] == q);
            }
        }
        if queue.contains(q) {
            let j = choose|j: int| 0 <= j < queue.len() && queue[j] == q;
            assert(after[j] == q);
        }
        if q == chunk && !queue.contains(chunk) {
            assert(after[queue.len() as int] == q);
        }
    }
    assert(after.to_set() =~= queue.to_set().insert(chunk));
}

/// Extending keeps a queue free of duplicates and adds the chunks to what
/// it holds.
pub proof fn lemma_extend(queue: Seq<IVec3>, chunks: Seq<IVec3>)
    requires
        queue.no_duplicates(),
    ensures
        spec_extend(queue, chunks).no_duplicates(),
        spec_extend(queue, chunks).to_set() == queue.to_set().union(chunks.to_set()),
    decreases chunks.len(),
{
    if chunks.len() > 0 {
        let rest = chunks.drop_last();
        lemma_extend(queue, rest);
        lemma_insert(spec_extend(queue, rest), chunks.last());
        assert forall|q: IVec3|
            chunks.to_set().contains(q) == rest.to_set().insert(chunks.last()).contains(q) by {
            if chunks.contains(q) {
                let j = choose|j: int| 0 <= j < chunks.len() && chunks[j] == q;
                if j < rest.len() {
                    assert(rest[j] == q);
                }
            }
            if rest.contains(q) {
                let j = choose|j: int| 0 <= j < rest.len() && rest[j] == q;
                assert(chunks[j] == q);
            }
            assert(chunks[chunks.len() - 1] == chunks.last());
        }
        assert(chunks.to_set() =~= rest.to_set().insert(chunks.last()));
        assert(spec_extend(queue, chunks).to_set() =~= queue.to_set().union(chunks.to_set()));
    } else {
        assert(chunks.to_set() =~= Set::<IVec3>::empty());
        assert(spec_extend(queue, chunks).to_set() =~= queue.to_set().union(chunks.to_set()));
    }
}

/// Removing keeps a queue free of duplicates and takes the chunk from
/// what it holds.
pub proof fn lemma_swap_remove(queue: Seq<IVec3>, chunk: IVec3)
    requires
        queue.no_duplicates(),
    ensures
        spec_swap_remove(queue, chunk).no_duplicates(),
        spec_swap_remove(queue, chunk).to_set() == queue.to_set().remove(chunk),
{
    let after = spec_swap_remove(queue, chunk);
    if queue.contains(chunk) {
        let index = queue.index_of(chunk);
        let last = queue.len() - 1;
        assert forall|q: IVec3| after.to_set().contains(q) == queue.to_set().remove(chunk).contains(
            q,
        ) by {
            if after.contains(q) {
                let j = choose|j: int| 0 <= j < after.len() && after[j] == q;
                if j == index {
                    assert(queue[last] == q);
                } else {
                    assert(queue[j] == q);
                }
            }
            if queue.contains(q) && q != chunk {
                let j = choose|j: int| 0 <= j < queue.len() && queue[j] == q;
                if j == last {
                    assert(after[index] == q);
                } else {
                    assert(after[j] == q);
                }
            }
        }
    }
    assert(after.to_set() =~= queue.to_set().remove(chunk));
}

/// Removing chunks in turn keeps a queue free of duplicates and takes the
/// chunks from what it holds.
pub proof fn lemma_swap_remove_all(queue: Seq<IVec3>, chunks: Seq<IVec3>)
    requires
        queue.no_duplicates(),
    ensures
        spec_swap_remove_all(queue, chunks).no_duplicates(),
        spec_swap_remove_all(queue, chunks).to_set() == queue.to_set().difference(
            chunks.to_set(),
        ),
    decreases chunks.len(),
{
    if chunks.len() > 0 {
        let rest = chunks.drop_last();
        lemma_swap_remove_all(queue, rest);
        lemma_swap_remove(spec_swap_remove_all(queue, rest), chunks.last());
        assert forall|q: IVec3|
            chunks.to_set().contains(q) == rest.to_set().insert(chunks.last()).contains(q) by {
            if chunks.contains(q) {
                let j = choose|j: int| 0 <= j < chunks.len() && chunks[j] == q;
                if j < rest.len() {
                    assert(rest[j] == q);
                }
            }
            if rest.contains(q) {
                let j = choose|j: int| 0 <= j < rest.len() && rest[j] == q;
                assert(chunks[j] == q);
            }
            assert(chunks[chunks.len() - 1] == chunks.last());
        }
        assert(spec_swap_remove_all(queue, chunks).to_set() =~= queue.to_set().difference(
            chunks.to_set(),
        ));
    } else {
        assert(spec_swap_remove_all(queue, chunks).to_set() =~= queue.to_set().difference(
            chunks.to_set(),
        ));
    }
}

/// A queue of chunks that holds each chunk at most once and keeps the
/// order in which chunks were inserted, until it is sorted.
pub struct ChunkQueue {
    set: IndexSet<(i32, i32, i32), RandomState>,
}

impl View for ChunkQueue {
    type V = Seq<IVec3>;

    closed spec fn view(&self) -> Seq<IVec3> {
        index_set_items(self.set).map_values(|item: (i32, i32, i32)| point_of(item))
    }
}

impl ChunkQueue {
    /// The set holds no item twice.
    #[verifier::type_invariant]
    spec fn items_distinct(self) -> bool {
        index_set_items(self.set).no_duplicates()
    }

    /// The view holds no chunk twice, and holds a chunk where the set holds
    /// its coordinates.
    proof fn lemma_view(self)
        requires
            self.items_distinct(),
        ensures
            self@.no_duplicates(),
            self@.len() == index_set_items(self.set).len(),
            forall|i: int|
                0 <= i < self@.len() ==> self@[i] == point_of(index_set_items(self.set)[i]),
            forall|c: IVec3|
                self@.contains(c) == index_set_items(self.set).contains((c.x, c.y, c.z)),
    {
        let items = index_set_items(self.set);
        assert forall|c: IVec3| self@.contains(c) == items.contains((c.x, c.y, c.z)) by {
            if self@.contains(c) {
                let j = choose|j: int| 0 <= j < self@.len() && self@[j] == c;
                assert(items[j] == (c.x, c.y, c.z));
            }
            if items.contains((c.x, c.y, c.z)) {
                let j = choose|j: int| 0 <= j < items.len() && items[j] == (c.x, c.y, c.z);
                assert(self@[j] == c);
            }
        }
        assert forall|i: int, j: int|
            0 <= i < self@.len() && 0 <= j < self@.len() && i != j implies self@[i] != self@[j] by {
            assert(items[i] != items[j]);
        }
    }

    /// An empty queue.
    pub fn new() -> (queue: ChunkQueue)
        ensures
            queue@ == Seq::<IVec3>::empty(),
    {
        let queue = ChunkQueue { set: set_new() };
        assert(queue@ =~= Seq::<IVec3>::empty());
        queue
    }

    /// The number of chunks in the queue.
    pub fn len(&self) -> (len: usize)
        ensures
            len == self@.len(),
            self@.no_duplicates(),
    {
        proof {
            use_type_invariant(self);
            self.lemma_view();
        }
        set_len(&self.set)
    }

    /// The chunk at `index`.
    pub fn get(&self, index: usize) -> (chunk: Option<IVec3>)
        ensures
            chunk == if index < self@.len() {
                Some(self@[index as int])
            } else {
                None
            },
    {
        match set_get_index(&self.set, index) {
            Some(item) => Some(IVec3::new(item.0, item.1, item.2)),
            None => None,
        }
    }

    /// Appends `chunk` unless the queue holds it; returns whether it was
    /// appended.
    pub fn insert(&mut self, chunk: IVec3) -> (fresh: bool)
        ensures
            fresh == !old(self)@.contains(chunk),
            final(self)@ == spec_insert(old(self)@, chunk),
            final(self)@.no_duplicates(),
    {
        proof {
            use_type_invariant(&*self);
            self.lemma_view();
        }
        let mut set = set_new();
        std::mem::swap(&mut self.set, &mut set);
        let fresh = set_insert(&mut set, (chunk.x, chunk.y, chunk.z));
        self.set = set;
        proof {
            assert(self@ =~= spec_insert(old(self)@, chunk));
            lemma_insert(old(self)@, chunk);
        }
        fresh
    }

    /// Inserts each of `chunks` in turn.
    pub fn extend(&mut self, chunks: &Vec<IVec3>)
        ensures
            final(self)@ == spec_extend(old(self)@, chunks@),
            final(self)@.no_duplicates(),
            final(self)@.to_set() == old(self)@.to_set().union(chunks@.to_set()),
    {
        proof {
            use_type_invariant(&*self);
            self.lemma_view();
        }
        let mut i: usize = 0;
        while i < chunks.len()
            invariant
                i <= chunks@.len(),
                self@ == spec_extend(old(self)@, chunks@.take(i as int)),
            decreases chunks@.len() - i,
        {
            self.insert(chunks[i]);
            assert(chunks@.take(i as int + 1).drop_last() =~= chunks@.take(i as int));
            i += 1;
        }
        proof {
            assert(chunks@.take(chunks@.len() as int) =~= chunks@);
            lemma_extend(old(self)@, chunks@);
        }
    }

    /// Removes `chunk`, moving the last chunk into its place; returns
    /// whether the queue held it.
    #[verifier::rlimit(50)]
    pub fn swap_remove(&mut self, chunk: IVec3) -> (present: bool)
        ensures
            present == old(self)@.contains(chunk),
            final(self)@ == spec_swap_remove(old(self)@, chunk),
            final(self)@.no_duplicates(),
            final(self)@.to_set() == old(self)@.to_set().remove(chunk),
    {
        proof {
            use_type_invariant(&*self);
            self.lemma_view();
        }
        let ghost items = index_set_items(self.set);
        let item = (chunk.x, chunk.y, chunk.z);
        let mut set = set_new();
        std::mem::swap(&mut self.set, &mut set);
        let present = set_swap_remove(&mut set, &item);
        proof {
            let after = index_set_items(set);
            if present {
                let index = choose|index: int|
                    0 <= index < items.len() && #[trigger] items[index] == item && after
                        == seq_swap_remove(items, index);
                let found = old(self)@.index_of(chunk);
                assert(old(self)@[index] == chunk);
                assert(old(self)@[found] == chunk);
                assert(found == index);
                assert(after.map_values(|item: (i32, i32, i32)| point_of(item)) =~= seq_swap_remove(
                    old(self)@,
                    index,
                ));
            }
            lemma_swap_remove(old(self)@, chunk);
            assert(after.map_values(|item: (i32, i32, i32)| point_of(item)) == spec_swap_remove(
                old(self)@,
                chunk,
            ));
            assert(after.no_duplicates()) by {
                let mapped = after.map_values(|item: (i32, i32, i32)| point_of(item));
                assert forall|i: int, j: int|
                    0 <= i < after.len() && 0 <= j < after.len() && i != j implies after[i]
                    != after[j] by {
                    assert(mapped[i] != mapped[j]);
                }
            }
        }
        self.set = set;
        present
    }

    /// Takes the first `count` chunks out of the queue, in order.
    #[verifier::rlimit(50)]
    pub fn drain_front(&mut self, count: usize) -> (drained: Vec<IVec3>)
        requires
            count <= old(self)@.len(),
        ensures
            drained@ == old(self)@.take(count as int),
            final(self)@ == old(self)@.skip(count as int),
            final(self)@.no_duplicates(),
    {
        proof {
            use_type_invariant(&*self);
            self.lemma_view();
        }
        let ghost items = index_set_items(self.set);
        let mut set = set_new();
        std::mem::swap(&mut self.set, &mut set);
        let taken = set_drain_front(&mut set, count);
        proof {
            let after = index_set_items(set);
            assert(after.no_duplicates()) by {
                assert forall|i: int, j: int|
                    0 <= i < after.len() && 0 <= j < after.len() && i != j implies after[i]
                    != after[j] by {
                    assert(after[i] == items[i + count]);
                    assert(after[j] == items[j + count]);
                }
            }
        }
        self.set = set;
        proof {
            self.lemma_view();
            assert(self@ =~= old(self)@.skip(count as int));
        }
        let mut drained: Vec<IVec3> = Vec::new();
        let mut i: usize = 0;
        while i < taken.len()
            invariant
                i <= taken@.len(),
                taken@ == items.take(count as int),
                count <= items.len(),
                old(self)@.len() == items.len(),
                forall|j: int| 0 <= j < items.len() ==> old(self)@[j] == point_of(items[j]),
                drained@.len() == i,
                forall|j: int| 0 <= j < i ==> drained@[j] == old(self)@[j],
            decreases taken@.len() - i,
        {
            let item = taken[i];
            drained.push(IVec3::new(item.0, item.1, item.2));
            i += 1;
        }
        assert(drained@ =~= old(self)@.take(count as int));
        drained
    }

    /// Orders the queue by squared distance to the nearest of `observers`,
    /// nearest first, or farthest first where `farthest_first` is set.
    /// Chunks at the same distance keep their order.
    #[verifier::rlimit(50)]
    pub fn sort_by_distance(&mut self, observers: &Vec<ChunkPos>, farthest_first: bool)
        ensures
            is_sorted_by_distance(old(self)@, final(self)@, observers@, farthest_first),
            final(self)@ == spec_sort_by_distance(old(self)@, observers@, farthest_first),
    {
        proof {
            use_type_invariant(&*self);
            self.lemma_view();
        }
        let ghost items = index_set_items(self.set);
        let mut set = set_new();
        std::mem::swap(&mut self.set, &mut set);
        set_sort_by_cached_key(&mut set, observers, farthest_first);
        self.set = set;
        proof {
            self.lemma_view();
            let after = index_set_items(self.set);
            let before_view = old(self)@;
            let after_view = self@;
            assert forall|c: IVec3| after_view.to_set().contains(c) == before_view.to_set().contains(
                c,
            ) by {
                assert(after.to_set().contains((c.x, c.y, c.z)) == items.to_set().contains(
                    (c.x, c.y, c.z),
                ));
            }
            assert(after_view.to_set() =~= before_view.to_set());
            let key = |chunk: IVec3| spec_queue_sort_key(chunk, observers@, farthest_first);
            let item_key = |item: (i32, i32, i32)|
                spec_queue_sort_key(point_of(item), observers@, farthest_first);
            assert forall|i: int, j: int| 0 <= i < j < after_view.len() implies key(after_view[i])
                <= key(after_view[j]) by {
                assert(item_key(after[i]) <= item_key(after[j]));
            }
            assert forall|i: int, j: int, a: int, b: int|
                0 <= i < j < after_view.len() && key(after_view[i]) == key(after_view[j]) && 0 <= a
                    < before_view.len() && 0 <= b < before_view.len() && before_view[a]
                    == after_view[i] && before_view[b] == after_view[j] implies a < b by {
                assert(item_key(after[i]) == item_key(after[j]));
                assert(items[a] == after[i]);
                assert(items[b] == after[j]);
            }
            lemma_sort_by_distance(before_view, after_view, observers@, farthest_first);
        }
    }

    /// The chunks of the queue, in order.
    pub fn to_vec(&self) -> (chunks: Vec<IVec3>)
        ensures
            chunks@ == self@,
    {
        let mut chunks: Vec<IVec3> = Vec::new();
        let n: usize = self.len();
        let mut i: usize = 0;
        while i < n
            invariant
                i <= n,
                n == self@.len(),
                chunks@ == self@.take(i as int),
            decreases n - i,
        {
            match self.get(i) {
                Some(chunk) => {
                    chunks.push(chunk);
                },
                None => {},
            }
            assert(chunks@ =~= self@.take(i as int + 1));
            i += 1;
        }
        assert(self@.take(n as int) =~= self@);
        chunks
    }
}

} // verus!
