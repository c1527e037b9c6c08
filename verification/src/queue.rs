//! A queue of keyed values that hands out the one with the smallest key first.

use core::cmp::Ordering;
use vstd::multiset::Multiset;
use vstd::prelude::*;
use vstd::std_specs::cmp::PartialOrdSpec;

verus! {

/// `a` comes strictly before `b`.
pub open spec fn key_before<K: PartialOrd>(a: K, b: K) -> bool {
    a.partial_cmp_spec(&b) == Some(Ordering::Less)
}

/// `b` does not come before `a`.
pub open spec fn key_le<K: PartialOrd>(a: K, b: K) -> bool {
    !key_before(b, a)
}

/// Comparing keys with `<` puts them in order: no two keys come before each other, and not coming
/// before is transitive.
pub open spec fn keys_ordered<K: PartialOrd>() -> bool {
    &&& K::obeys_partial_cmp_spec()
    &&& forall|a: K, b: K| #[trigger] key_before(a, b) ==> !key_before(b, a)
    &&& forall|a: K, b: K, c: K| #[trigger]
        key_le(a, b) && #[trigger] key_le(b, c) ==> key_le(a, c)
}

/// A queue of `(key, value)` pairs, of which the ones with the smallest key leave first.
///
/// The pairs form a binary heap: the pair at index `i` has its children at `2 * i + 1` and
/// `2 * i + 2`, and no child's key comes before its parent's.
#[derive(Debug)]
pub struct MinKeyValueQueue<K: Ord, V> {
    entries: Vec<(K, V)>,
}

spec fn parent(i: int) -> int {
    (i - 1) / 2
}

/// The key of the pair at `i` does not come before that of its parent.
spec fn below_parent<K: Ord, V>(s: Seq<(K, V)>, i: int) -> bool {
    key_le(s[parent(i)].0, s[i].0)
}

spec fn is_heap<K: Ord, V>(s: Seq<(K, V)>) -> bool {
    forall|i: int| 0 < i < s.len() ==> #[trigger] below_parent(s, i)
}

/// A heap but for the pair at `pos`, which may belong closer to the root.
spec fn is_heap_but_above<K: Ord, V>(s: Seq<(K, V)>, pos: int) -> bool {
    &&& 0 <= pos < s.len()
    &&& forall|i: int| 0 < i < s.len() && i != pos ==> #[trigger] below_parent(s, i)
    &&& forall|i: int|
        0 < i < s.len() && parent(i) == pos && 0 < pos ==> key_le(s[parent(pos)].0, #[trigger] s[i].0)
}

/// A heap but for the pair at `pos`, which may belong further from the root.
spec fn is_heap_but_below<K: Ord, V>(s: Seq<(K, V)>, pos: int) -> bool {
    &&& 0 <= pos < s.len()
    &&& forall|i: int| 0 < i < s.len() && parent(i) != pos ==> #[trigger] below_parent(s, i)
    &&& forall|i: int|
        0 < i < s.len() && parent(i) == pos && 0 < pos ==> key_le(s[parent(pos)].0, #[trigger] s[i].0)
}

/// The pair `e` is in `pairs`, and no pair there has a key that comes before its key.
pub open spec fn is_first<K: Ord, V>(pairs: Multiset<(K, V)>, e: (K, V)) -> bool {
    &&& pairs.contains(e)
    &&& forall|other: (K, V)| #[trigger] pairs.contains(other) ==> key_le(e.0, other.0)
}

/// Taking `e` off a queue that holds `before` leaves `after`.
pub open spec fn takes_first<K: Ord, V>(
    before: Multiset<(K, V)>,
    e: (K, V),
    after: Multiset<(K, V)>,
) -> bool {
    &&& is_first(before, e)
    &&& after == before.remove(e)
}

spec fn swapped<T>(s: Seq<T>, i: int, j: int) -> Seq<T> {
    s.update(i, s[j]).update(j, s[i])
}

proof fn lemma_update_multiset<T>(s: Seq<T>, i: int, x: T)
    requires
        0 <= i < s.len(),
    ensures
        s.update(i, x).to_multiset() == s.to_multiset().remove(s[i]).insert(x),
{
    broadcast use vstd::seq_lib::group_to_multiset_ensures;

    let rest = s.remove(i);
    assert(s.update(i, x) =~= rest.insert(i, x));
    vstd::seq_lib::to_multiset_insert(rest, i, x);
}

proof fn lemma_swapped_multiset<T>(s: Seq<T>, i: int, j: int)
    requires
        0 <= i < s.len(),
        0 <= j < s.len(),
    ensures
        swapped(s, i, j).to_multiset() == s.to_multiset(),
{
    broadcast use vstd::seq_lib::group_to_multiset_ensures;

    let t = s.update(i, s[j]);
    lemma_update_multiset(s, i, s[j]);
    lemma_update_multiset(t, j, s[i]);
    assert(s.contains(s[i]));
    assert(t.contains(t[j]));
    assert(swapped(s, i, j).to_multiset() =~= s.to_multiset());
}

proof fn lemma_root_is_first<K: Ord, V>(s: Seq<(K, V)>, i: int)
    requires
        keys_ordered::<K>(),
        is_heap(s),
        0 <= i < s.len(),
    ensures
        key_le(s[0].0, s[i].0),
    decreases i,
{
    if i > 0 {
        lemma_root_is_first(s, parent(i));
        assert(below_parent(s, i));
    }
}

fn swap_entries<T>(v: &mut Vec<T>, i: usize, j: usize)
    requires
        i < j < old(v)@.len(),
    ensures
        final(v)@ == swapped(old(v)@, i as int, j as int),
{
    let (front, back) = v.as_mut_slice().split_at_mut(j);
    core::mem::swap(&mut front[i], &mut back[0]);
}

/// Moves the pair at `start` towards the root until its parent's key does not come after its own.
fn sift_up<K: Ord, V>(v: &mut Vec<(K, V)>, start: usize)
    requires
        keys_ordered::<K>(),
        is_heap_but_above(old(v)@, start as int),
    ensures
        is_heap(final(v)@),
        final(v)@.to_multiset() == old(v)@.to_multiset(),
{
    let mut pos: usize = start;
    while pos > 0
        invariant
            keys_ordered::<K>(),
            is_heap_but_above(v@, pos as int),
            v@.to_multiset() == old(v)@.to_multiset(),
        ensures
            is_heap(v@),
            v@.to_multiset() == old(v)@.to_multiset(),
        decreases pos,
    {
        let up: usize = (pos - 1) / 2;
        let ghost s = v@;
        assert(up == parent(pos as int));
        if !(v[pos].0 < v[up].0) {
            proof {
                assert forall|i: int| 0 < i < s.len() implies #[trigger] below_parent(s, i) by {}
            }
            break;
        }
        swap_entries(v, up, pos);
        proof {
            lemma_swapped_multiset(s, up as int, pos as int);
            assert(key_le(s[pos as int].0, s[up as int].0));
            assert forall|i: int| 0 < i < v@.len() && i != up implies #[trigger] below_parent(
                v@,
                i,
            ) by {
                if i != pos {
                    assert(below_parent(s, i));
                }
            }
            assert forall|i: int|
                0 < i < v@.len() && parent(i) == up && 0 < up implies key_le(
                v@[parent(up as int)].0,
                #[trigger] v@[i].0,
            ) by {
                assert(below_parent(s, up as int));
                if i != pos {
                    assert(below_parent(s, i));
                }
            }
        }
        pos = up;
    }
}

/// Moves the pair at the root away from it until no child's key comes before its own.
fn sift_down<K: Ord, V>(v: &mut Vec<(K, V)>)
    requires
        keys_ordered::<K>(),
        is_heap_but_below(old(v)@, 0),
    ensures
        is_heap(final(v)@),
        final(v)@.to_multiset() == old(v)@.to_multiset(),
{
    let mut pos: usize = 0;
    let len: usize = v.len();
    while pos < len / 2
        invariant
            keys_ordered::<K>(),
            is_heap_but_below(v@, pos as int),
            len == v@.len(),
            v@.to_multiset() == old(v)@.to_multiset(),
        ensures
            is_heap(v@),
            v@.to_multiset() == old(v)@.to_multiset(),
        decreases len - pos,
    {
        let ghost s = v@;
        let left: usize = 2 * pos + 1;
        let mut child: usize = left;
        if left + 1 < len && v[left + 1].0 < v[left].0 {
            child = left + 1;
        }
        assert(parent(child as int) == pos);
        assert forall|i: int| 0 < i < s.len() && parent(i) == pos implies key_le(
            s[child as int].0,
            #[trigger] s[i].0,
        ) by {
            assert(i == left || i == left + 1);
        }
        if !(v[child].0 < v[pos].0) {
            proof {
                assert forall|i: int| 0 < i < s.len() implies #[trigger] below_parent(s, i) by {
                    if parent(i) == pos {
                        assert(key_le(s[pos as int].0, s[child as int].0));
                        assert(key_le(s[child as int].0, s[i].0));
                    }
                }
            }
            break;
        }
        swap_entries(v, pos, child);
        proof {
            lemma_swapped_multiset(s, pos as int, child as int);
            assert(key_le(s[child as int].0, s[pos as int].0));
            assert forall|i: int| 0 < i < v@.len() && parent(i) != child implies #[trigger] below_parent(
                v@,
                i,
            ) by {
                if parent(i) == pos {
                    assert(key_le(s[child as int].0, s[i].0));
                } else {
                    assert(below_parent(s, i));
                }
            }
            assert forall|i: int|
                0 < i < v@.len() && parent(i) == child && 0 < child implies key_le(
                v@[parent(child as int)].0,
                #[trigger] v@[i].0,
            ) by {
                assert(below_parent(s, i));
            }
        }
        pos = child;
    }
}

impl<K: Ord, V> View for MinKeyValueQueue<K, V> {
    type V = Multiset<(K, V)>;

    /// The pairs in the queue.
    closed spec fn view(&self) -> Multiset<(K, V)> {
        self.entries@.to_multiset()
    }
}

impl<K: Ord, V> MinKeyValueQueue<K, V> {
    #[verifier::type_invariant]
    spec fn heap_ordered(self) -> bool {
        &&& keys_ordered::<K>()
        &&& is_heap(self.entries@)
    }

    /// An empty queue.
    pub fn new() -> (queue: Self)
        requires
            keys_ordered::<K>(),
        ensures
            queue@ == Multiset::<(K, V)>::empty(),
    {
        let queue = MinKeyValueQueue { entries: Vec::new() };
        assert(queue@ =~= Multiset::empty()) by {
            broadcast use vstd::seq_lib::group_to_multiset_ensures;

        }
        queue
    }

    /// Adds a pair.
    pub fn push(&mut self, item: (K, V))
        ensures
            final(self)@ == old(self)@.insert(item),
    {
        proof {
            use_type_invariant(&*self);
        }
        let mut entries: Vec<(K, V)> = Vec::new();
        core::mem::swap(&mut self.entries, &mut entries);
        let ghost before = entries@;
        entries.push(item);
        let last: usize = entries.len() - 1;
        proof {
            vstd::seq_lib::to_multiset_build(before, item);
            assert forall|i: int| 0 < i < entries@.len() && i != last implies #[trigger] below_parent(
                entries@,
                i,
            ) by {
                assert(below_parent(before, i));
            }
        }
        sift_up(&mut entries, last);
        self.entries = entries;
    }

    /// Takes off a pair with the smallest key.
    pub fn pop(&mut self) -> (item: Option<(K, V)>)
        ensures
            item is None <==> old(self)@.len() == 0,
            item is None ==> final(self)@ == old(self)@,
            item matches Some(e) ==> takes_first(old(self)@, e, final(self)@),
    {
        broadcast use vstd::seq_lib::group_to_multiset_ensures;

        proof {
            use_type_invariant(&*self);
        }
        if self.entries.is_empty() {
            return None;
        }
        let mut entries: Vec<(K, V)> = Vec::new();
        core::mem::swap(&mut self.entries, &mut entries);
        let ghost before = entries@;
        let item = entries.swap_remove(0);
        proof {
            lemma_first_of_heap(before);
            let moved = before.update(0, before.last());
            lemma_update_multiset(before, 0, before.last());
            assert(entries@ =~= moved.remove(before.len() - 1));
            assert(entries@.to_multiset() =~= before.to_multiset().remove(item));
        }
        if !entries.is_empty() {
            proof {
                assert forall|i: int| 0 < i < entries@.len() && parent(i) != 0 implies #[trigger] below_parent(
                    entries@,
                    i,
                ) by {
                    assert(below_parent(before, i));
                }
            }
            sift_down(&mut entries);
        }
        self.entries = entries;
        Some(item)
    }

    /// A pair with the smallest key.
    pub fn peek(&self) -> (item: Option<(&K, &V)>)
        ensures
            item is None <==> self@.len() == 0,
            item matches Some(e) ==> is_first(self@, (*e.0, *e.1)),
    {
        broadcast use vstd::seq_lib::group_to_multiset_ensures;

        proof {
            use_type_invariant(self);
        }
        if self.entries.is_empty() {
            None
        } else {
            proof {
                lemma_first_of_heap(self.entries@);
            }
            let first = &self.entries[0];
            Some((&first.0, &first.1))
        }
    }

    /// Whether the queue holds nothing.
    pub fn is_empty(&self) -> (empty: bool)
        ensures
            empty == (self@.len() == 0),
    {
        broadcast use vstd::seq_lib::group_to_multiset_ensures;

        self.entries.is_empty()
    }
}

proof fn lemma_first_of_heap<K: Ord, V>(s: Seq<(K, V)>)
    requires
        keys_ordered::<K>(),
        is_heap(s),
        s.len() > 0,
    ensures
        is_first(s.to_multiset(), s[0]),
{
    broadcast use vstd::seq_lib::group_to_multiset_ensures;

    assert(s.contains(s[0]));
    assert forall|other: (K, V)| #[trigger] s.to_multiset().contains(other) implies key_le(
        s[0].0,
        other.0,
    ) by {
        assert(s.contains(other));
        let i = choose|i: int| 0 <= i < s.len() && s[i] == other;
        lemma_root_is_first(s, i);
    }
}

proof fn lemma_drained_shrinks<K: Ord, V>(
    states: Seq<Multiset<(K, V)>>,
    items: Seq<(K, V)>,
    i: int,
    j: int,
)
    requires
        states.len() == items.len() + 1,
        forall|n: int| #![trigger items[n]]
            0 <= n < items.len() ==> takes_first(states[n], items[n], states[n + 1]),
        0 <= i <= j < states.len(),
    ensures
        states[j].subset_of(states[i]),
    decreases j,
{
    if i < j {
        lemma_drained_shrinks(states, items, i, j - 1);
        assert(takes_first(states[j - 1], items[j - 1], states[j - 1 + 1]));
    }
}

/// Pairs that leave a queue one after the other, with none added in between, leave in the order of
/// their keys.
pub proof fn law_leaves_in_key_order<K: Ord, V>(
    states: Seq<Multiset<(K, V)>>,
    items: Seq<(K, V)>,
    i: int,
    j: int,
)
    requires
        states.len() == items.len() + 1,
        forall|n: int| #![trigger items[n]]
            0 <= n < items.len() ==> takes_first(states[n], items[n], states[n + 1]),
        0 <= i < j < items.len(),
    ensures
        key_le(items[i].0, items[j].0),
{
    assert(takes_first(states[i], items[i], states[i + 1]));
    assert(takes_first(states[j], items[j], states[j + 1]));
    lemma_drained_shrinks(states, items, i, j);
    assert(states[i].contains(items[j]));
}

/// Emptying a queue with none added in between hands out exactly the pairs that it held.
pub proof fn law_hands_out_what_it_held<K: Ord, V>(
    states: Seq<Multiset<(K, V)>>,
    items: Seq<(K, V)>,
)
    requires
        states.len() == items.len() + 1,
        forall|n: int| #![trigger items[n]]
            0 <= n < items.len() ==> takes_first(states[n], items[n], states[n + 1]),
        states.last().len() == 0,
    ensures
        items.to_multiset() == states.first(),
    decreases items.len(),
{
    broadcast use vstd::seq_lib::group_to_multiset_ensures;

    if items.len() == 0 {
        assert(items.to_multiset() =~= states.first());
    } else {
        let later_states = states.drop_first();
        let later_items = items.drop_first();
        assert forall|n: int| #![trigger later_items[n]]
            0 <= n < later_items.len() implies takes_first(
            later_states[n],
            later_items[n],
            later_states[n + 1],
        ) by {
            assert(later_items[n] == items[n + 1]);
        }
        law_hands_out_what_it_held(later_states, later_items);
        assert(takes_first(states[0], items[0], states[1]));
        assert(items =~= later_items.insert(0, items[0]));
        vstd::seq_lib::to_multiset_insert(later_items, 0, items[0]);
        assert(items.to_multiset() =~= states.first());
    }
}

/// What is pushed is added to what the queue holds, which is nothing at first.
pub proof fn law_push_adds<K: Ord, V>(
    empty: MinKeyValueQueue<K, V>,
    queue: &mut MinKeyValueQueue<K, V>,
    item: (K, V),
)
    requires
        call_ensures(MinKeyValueQueue::<K, V>::new, (), empty),
        call_ensures(MinKeyValueQueue::<K, V>::push, (queue, item), ()),
    ensures
        empty@.len() == 0,
        final(queue)@ == old(queue)@.insert(item),
{
}

/// The pair that is popped is one that the queue held, with a key that no other comes before, and
/// only that pair leaves. None is popped from an empty queue, and from no other.
pub proof fn law_pop_takes_a_smallest_key<K: Ord, V>(
    queue: &mut MinKeyValueQueue<K, V>,
    item: Option<(K, V)>,
    other: (K, V),
)
    requires
        call_ensures(MinKeyValueQueue::<K, V>::pop, (queue,), item),
    ensures
        item is None <==> old(queue)@.len() == 0,
        item is None ==> final(queue)@ == old(queue)@,
        item matches Some(e) ==> {
            &&& old(queue)@.contains(e)
            &&& final(queue)@ == old(queue)@.remove(e)
            &&& old(queue)@.contains(other) ==> other.0.partial_cmp_spec(&e.0) != Some(
                Ordering::Less,
            )
        },
{
}

/// The pair at the front is one that the queue holds, with a key that no other comes before.
pub proof fn law_peek_shows_a_smallest_key<K: Ord, V>(
    queue: MinKeyValueQueue<K, V>,
    item: Option<(&K, &V)>,
    empty: bool,
    other: (K, V),
)
    requires
        call_ensures(MinKeyValueQueue::<K, V>::peek, (&queue,), item),
        call_ensures(MinKeyValueQueue::<K, V>::is_empty, (&queue,), empty),
    ensures
        empty <==> queue@.len() == 0,
        item is None <==> queue@.len() == 0,
        item matches Some(e) ==> {
            &&& queue@.contains((*e.0, *e.1))
            &&& queue@.contains(other) ==> other.0.partial_cmp_spec(e.0) != Some(Ordering::Less)
        },
{
}

} // verus!
