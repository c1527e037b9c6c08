//! Counting what the members of a multiset hold.

use vstd::multiset::Multiset;
use vstd::prelude::*;

verus! {

/// What all the items hold together, where `part` says what each of them holds.
pub open spec fn tally<T, R>(items: Multiset<T>, part: spec_fn(T) -> Multiset<R>) -> Multiset<R>
    decreases items.len(),
{
    if items.len() == 0 {
        Multiset::empty()
    } else {
        let item = items.choose();
        part(item).add(tally(items.remove(item), part))
    }
}

/// An item's part can be told apart from what the others hold.
pub proof fn lemma_tally_remove<T, R>(
    items: Multiset<T>,
    part: spec_fn(T) -> Multiset<R>,
    item: T,
)
    requires
        items.contains(item),
    ensures
        tally(items, part) == part(item).add(tally(items.remove(item), part)),
    decreases items.len(),
{
    let chosen = items.choose();
    if chosen != item {
        let others = items.remove(item).remove(chosen);
        lemma_tally_remove(items.remove(chosen), part, item);
        lemma_tally_remove(items.remove(item), part, chosen);
        assert(items.remove(chosen).remove(item) =~= others);
        assert(tally(items, part) =~= part(item).add(tally(items.remove(item), part)));
    }
}

/// An item that is added adds its part.
pub proof fn lemma_tally_insert<T, R>(
    items: Multiset<T>,
    part: spec_fn(T) -> Multiset<R>,
    item: T,
)
    ensures
        tally(items.insert(item), part) == part(item).add(tally(items, part)),
{
    lemma_tally_remove(items.insert(item), part, item);
    assert(items.insert(item).remove(item) =~= items);
}

} // verus!
