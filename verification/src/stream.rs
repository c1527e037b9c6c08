//! The part of a sorting stream that decides what to emit.
//!
//! The stream's input is polled elsewhere. What each poll of the input gave is handed to
//! [`QueuedStream::poll_next`], which says what to do next.

use core::cmp::Ordering;
use vstd::multiset::Multiset;
use vstd::prelude::*;
use vstd::std_specs::cmp::PartialOrdSpec;

use crate::queue::MinKeyValueQueue;

verus! {

/// What is known of the input.
#[derive(Debug, PartialEq, Eq)]
pub enum InputPoll<T> {
    /// The input has terminated and was not polled.
    Terminated,
    /// The input was polled and gave an item.
    Ready(T),
    /// The input was polled and has no more items.
    Ended,
    /// The input was polled and has no item yet.
    Pending,
}

/// What a sorting stream's poll comes to.
#[derive(Debug, PartialEq, Eq)]
pub enum QueuedPoll<T> {
    /// The input must be polled again first.
    PollInput,
    /// The stream emits an item, or ends.
    Ready(Option<T>),
    /// There is no item yet.
    Pending,
}

/// The same item with its halves swapped.
pub open spec fn swapped_item<A, B>(poll: InputPoll<(A, B)>) -> InputPoll<(B, A)> {
    match poll {
        InputPoll::Terminated => InputPoll::Terminated,
        InputPoll::Ready(item) => InputPoll::Ready((item.1, item.0)),
        InputPoll::Ended => InputPoll::Ended,
        InputPoll::Pending => InputPoll::Pending,
    }
}

/// Turns an item `(a, b)` into `(b, a)`.
pub fn swap_item<A, B>(poll: InputPoll<(A, B)>) -> (swapped: InputPoll<(B, A)>)
    ensures
        swapped == swapped_item(poll),
{
    match poll {
        InputPoll::Terminated => InputPoll::Terminated,
        InputPoll::Ready((a, b)) => InputPoll::Ready((b, a)),
        InputPoll::Ended => InputPoll::Ended,
        InputPoll::Pending => InputPoll::Pending,
    }
}

/// A stream that sorts its input as much as possible.
///
/// All items that the input has at hand are pulled before one is emitted, and the one with the
/// smallest key is emitted first. Items that were pulled before are emitted even if the input has
/// none at hand.
#[derive(Debug)]
pub struct QueuedStream<K: Ord, V> {
    heap: MinKeyValueQueue<K, V>,
}

/// What a poll comes to when the cached items are `before`, and which are cached afterwards.
pub open spec fn poll_outcome<K: Ord, V>(
    before: Multiset<(K, V)>,
    input: InputPoll<(K, V)>,
    out: QueuedPoll<(K, V)>,
    after: Multiset<(K, V)>,
) -> bool {
    match input {
        InputPoll::Ready(item) => {
            &&& out is PollInput
            &&& after == before.insert(item)
        },
        _ => if before.len() == 0 {
            &&& out == if input is Pending {
                QueuedPoll::<(K, V)>::Pending
            } else {
                QueuedPoll::Ready(None)
            }
            &&& after == before
        } else {
            &&& out matches QueuedPoll::Ready(Some(item))
            &&& crate::queue::takes_first(before, item, after)
        },
    }
}

impl<K: Ord, V> View for QueuedStream<K, V> {
    type V = Multiset<(K, V)>;

    /// The items that were pulled from the input and not emitted yet.
    closed spec fn view(&self) -> Multiset<(K, V)> {
        self.heap@
    }
}

impl<K: Ord, V> QueuedStream<K, V> {
    /// A stream that has not pulled anything from its input yet.
    pub fn new() -> (stream: Self)
        requires
            crate::queue::keys_ordered::<K>(),
        ensures
            stream@ == Multiset::<(K, V)>::empty(),
    {
        QueuedStream { heap: MinKeyValueQueue::new() }
    }

    /// Polls the stream, given what is known of the input.
    pub fn poll_next(&mut self, input: InputPoll<(K, V)>) -> (out: QueuedPoll<(K, V)>)
        ensures
            poll_outcome(old(self)@, input, out, final(self)@),
    {
        match input {
            InputPoll::Terminated => QueuedPoll::Ready(self.heap.pop()),
            InputPoll::Ready(item) => {
                self.heap.push(item);
                QueuedPoll::PollInput
            },
            // There are no more items to come, so just emit what is cached.
            InputPoll::Ended => QueuedPoll::Ready(self.heap.pop()),
            // Everything that the input has at hand is cached by now.
            InputPoll::Pending => match self.heap.pop() {
                Some(item) => QueuedPoll::Ready(Some(item)),
                None => QueuedPoll::Pending,
            },
        }
    }

    /// Whether the stream has nothing more to emit, given whether its input has terminated.
    pub fn is_terminated(&self, input_terminated: bool) -> (terminated: bool)
        ensures
            terminated == (input_terminated && self@.len() == 0),
    {
        input_terminated && self.heap.is_empty()
    }
}

/// The input gave the items `ready`, one after the other, and the cached items went through
/// `states` meanwhile.
pub open spec fn pulls_all<K: Ord, V>(
    states: Seq<Multiset<(K, V)>>,
    ready: Seq<(K, V)>,
) -> bool {
    &&& states.len() == ready.len() + 1
    &&& forall|n: int| #![trigger ready[n]]
        0 <= n < ready.len() ==> poll_outcome(
            states[n],
            InputPoll::Ready(ready[n]),
            QueuedPoll::PollInput,
            states[n + 1],
        )
}

proof fn lemma_pulled<K: Ord, V>(states: Seq<Multiset<(K, V)>>, ready: Seq<(K, V)>)
    requires
        pulls_all(states, ready),
    ensures
        states.last() == states.first().add(ready.to_multiset()),
    decreases ready.len(),
{
    broadcast use vstd::seq_lib::group_to_multiset_ensures;

    if ready.len() == 0 {
        assert(states.last() =~= states.first().add(ready.to_multiset()));
    } else {
        let fewer_states = states.drop_last();
        let fewer = ready.drop_last();
        assert forall|n: int| #![trigger fewer[n]] 0 <= n < fewer.len() implies poll_outcome(
            fewer_states[n],
            InputPoll::Ready(fewer[n]),
            QueuedPoll::PollInput,
            fewer_states[n + 1],
        ) by {
            assert(fewer[n] == ready[n]);
        }
        lemma_pulled(fewer_states, fewer);
        let n = ready.len() - 1;
        assert(poll_outcome(
            states[n],
            InputPoll::Ready(ready[n]),
            QueuedPoll::PollInput,
            states[n + 1],
        ));
        assert(ready =~= fewer.push(ready.last()));
        assert(states.last() =~= states.first().add(ready.to_multiset()));
    }
}

/// Once the input has no more items at hand, the stream emits the first of all the items that were
/// cached or that the input has just given. Only if there is no such item is none emitted: the
/// stream then waits if the input does, and ends if the input has.
pub proof fn law_emits_first_of_all_at_hand<K: Ord, V>(
    states: Seq<Multiset<(K, V)>>,
    ready: Seq<(K, V)>,
    rest: InputPoll<(K, V)>,
    out: QueuedPoll<(K, V)>,
    after: Multiset<(K, V)>,
)
    requires
        pulls_all(states, ready),
        !(rest is Ready),
        poll_outcome(states.last(), rest, out, after),
    ensures
        ({
            let at_hand = states.first().add(ready.to_multiset());
            if at_hand.len() > 0 {
                &&& out matches QueuedPoll::Ready(Some(item))
                &&& crate::queue::takes_first(at_hand, item, after)
            } else if rest is Pending {
                out == QueuedPoll::<(K, V)>::Pending
            } else {
                out == QueuedPoll::<(K, V)>::Ready(None)
            }
        }),
{
    lemma_pulled(states, ready);
}

/// When no more items come in, the cached ones are emitted in the order of their keys.
pub proof fn law_emits_cached_items_in_order<K: Ord, V>(
    states: Seq<Multiset<(K, V)>>,
    inputs: Seq<InputPoll<(K, V)>>,
    items: Seq<(K, V)>,
    i: int,
    j: int,
)
    requires
        states.len() == items.len() + 1,
        inputs.len() == items.len(),
        forall|n: int| #![trigger items[n]]
            0 <= n < items.len() ==> !(inputs[n] is Ready) && poll_outcome(
                states[n],
                inputs[n],
                QueuedPoll::Ready(Some(items[n])),
                states[n + 1],
            ),
        0 <= i < j < items.len(),
    ensures
        crate::queue::key_le(items[i].0, items[j].0),
{
    crate::queue::law_leaves_in_key_order(states, items, i, j);
}

/// An item that the input gives is cached, and the input is to be polled again, whatever is cached
/// already.
pub proof fn law_given_items_are_cached<K: Ord, V>(
    stream: &mut QueuedStream<K, V>,
    item: (K, V),
    out: QueuedPoll<(K, V)>,
)
    requires
        call_ensures(
            QueuedStream::<K, V>::poll_next,
            (stream, InputPoll::Ready(item)),
            out,
        ),
    ensures
        out == QueuedPoll::<(K, V)>::PollInput,
        final(stream)@ == old(stream)@.insert(item),
{
}

/// When the input gives nothing and there are cached items, one whose key no other comes before is
/// emitted and leaves the cache.
pub proof fn law_cached_items_are_emitted<K: Ord, V>(
    stream: &mut QueuedStream<K, V>,
    input: InputPoll<(K, V)>,
    out: QueuedPoll<(K, V)>,
    other: (K, V),
)
    requires
        call_ensures(QueuedStream::<K, V>::poll_next, (stream, input), out),
        input !is Ready,
        old(stream)@.len() > 0,
    ensures
        out matches QueuedPoll::Ready(Some(e)) && {
            &&& old(stream)@.contains(e)
            &&& final(stream)@ == old(stream)@.remove(e)
            &&& old(stream)@.contains(other) ==> other.0.partial_cmp_spec(&e.0) != Some(
                Ordering::Less,
            )
        },
{
}

/// When the input gives nothing and nothing is cached, the stream waits if the input does, and
/// ends otherwise.
pub proof fn law_waits_or_ends_with_its_input<K: Ord, V>(
    stream: &mut QueuedStream<K, V>,
    input: InputPoll<(K, V)>,
    out: QueuedPoll<(K, V)>,
)
    requires
        call_ensures(QueuedStream::<K, V>::poll_next, (stream, input), out),
        input !is Ready,
        old(stream)@.len() == 0,
    ensures
        input is Pending ==> out == QueuedPoll::<(K, V)>::Pending,
        input !is Pending ==> out == QueuedPoll::<(K, V)>::Ready(None),
        final(stream)@ == old(stream)@,
{
}

/// A stream has terminated just when its input has and nothing is cached, as it is at first.
pub proof fn law_terminates_when_drained<K: Ord, V>(
    fresh: QueuedStream<K, V>,
    stream: QueuedStream<K, V>,
    input_terminated: bool,
    terminated: bool,
)
    requires
        call_ensures(QueuedStream::<K, V>::new, (), fresh),
        call_ensures(
            QueuedStream::<K, V>::is_terminated,
            (&stream, input_terminated),
            terminated,
        ),
    ensures
        fresh@.len() == 0,
        terminated <==> input_terminated && stream@.len() == 0,
{
}

/// An item's halves change places, and nothing else changes.
pub proof fn law_items_swap_halves<A, B>(
    poll: InputPoll<(A, B)>,
    swapped: InputPoll<(B, A)>,
    back: InputPoll<(A, B)>,
)
    requires
        call_ensures(swap_item::<A, B>, (poll,), swapped),
        call_ensures(swap_item::<B, A>, (swapped,), back),
    ensures
        poll matches InputPoll::Ready(item) ==> swapped == InputPoll::Ready((item.1, item.0)),
        poll is Terminated <==> swapped is Terminated,
        poll is Ended <==> swapped is Ended,
        poll is Pending <==> swapped is Pending,
        back == poll,
{
}

} // verus!
