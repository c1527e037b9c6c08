//! What holds of the routes that wait for their time, over several turns.

use vstd::prelude::*;

use crate::laws::Turn;
use crate::policy::RouteDelayPolicy;
use crate::route::ResolvedRoutes;
use crate::schedule::{Event, ScheduleState, Step};
use crate::time::{Duration, Instant};

verus! {

/// The turn hands in a group whose route at `index` is `e.1`, and `e.0` is when to attempt it: 300
/// milliseconds for each place before it, and the policy's delay, after the group was pulled.
pub open spec fn times_route<R, M, SP: RouteDelayPolicy<R>>(
    turn: Turn<R, M>,
    policy: SP,
    index: int,
    e: (Instant, R),
) -> bool {
    match turn {
        Turn::Stepped { event: Event::PulledFromResolver { pulled: Some(item), now }, .. } => {
            &&& 0 <= index < item.1@.len()
            &&& item.1@[index] == e.1
            &&& exists|delay: Duration| #[trigger]
                call_ensures(SP::compute_delay, (&policy, &e.1, now), delay) && e.0.nanos
                    == now.nanos + 300_000_000 * (if index <= u32::MAX {
                    index
                } else {
                    0xffff_ffff
                }) + delay.nanos
        },
        _ => false,
    }
}

/// Each route of a group that is handed in waits for its time from then on: 300 milliseconds for
/// each place before it, and a delay that the policy gives for it, after the group was pulled.
pub proof fn law_pulled_routes_wait_for_their_times<R, M: Ord, SP: RouteDelayPolicy<R>>(
    before: ScheduleState<R, M>,
    policy: SP,
    item: (M, ResolvedRoutes<R>),
    now: Instant,
    input_terminated: bool,
    step: Step<R>,
    after: ScheduleState<R, M>,
    index: int,
)
    requires
        crate::schedule::next_outcome(
            before,
            policy,
            Event::PulledFromResolver { pulled: Some(item), now },
            input_terminated,
            step,
            after,
        ),
        step !is TimeOverflow,
        0 <= index < item.1@.len(),
    ensures
        exists|e: (Instant, R)|
            {
                &&& #[trigger] after.delayed.contains(e)
                &&& e.1 == item.1@[index]
                &&& exists|delay: Duration| #[trigger]
                    call_ensures(SP::compute_delay, (&policy, &item.1@[index], now), delay)
                        && e.0.nanos == now.nanos + 300_000_000 * (if index <= u32::MAX {
                        index
                    } else {
                        0xffff_ffff
                    }) + delay.nanos
            },
{
    let timed = choose|timed: Seq<(Instant, R)>|
        {
            &&& #[trigger] crate::schedule::all_timed_by(policy, item.1@, now, timed)
            &&& after.delayed == before.delayed.add(timed.to_multiset())
        };
    assert(timed.contains(timed[index]));
    vstd::seq_lib::to_multiset_contains(timed, timed[index]);
    assert(after.delayed.contains(timed[index]));
    assert(crate::schedule::timed_by(policy, item.1@[index], index, now, timed[index].0));
}

proof fn lemma_turn_keeps_waiting<R, M: Ord, SP: RouteDelayPolicy<R>>(
    before: ScheduleState<R, M>,
    policy: SP,
    turn: Turn<R, M>,
    after: ScheduleState<R, M>,
    e: (Instant, R),
)
    requires
        crate::laws::takes_turn(before, policy, turn, after),
        before.delayed.contains(e),
        !crate::queue::takes_first(before.delayed, e, after.delayed),
    ensures
        after.delayed.contains(e),
{
}

/// Turn `n` hands out `e`.
pub open spec fn hands_out<R, M>(
    states: Seq<ScheduleState<R, M>>,
    n: int,
    e: (Instant, R),
) -> bool {
    crate::queue::takes_first(states[n].delayed, e, states[n + 1].delayed)
}

/// A route that waits keeps waiting for the same time until it is handed out.
///
/// It waits after the first `k` turns, and the turns from then up to turn `n` do not hand it out.
pub proof fn law_waiting_routes_keep_their_times<R, M: Ord, SP: RouteDelayPolicy<R>>(
    states: Seq<ScheduleState<R, M>>,
    policy: SP,
    turns: Seq<Turn<R, M>>,
    k: int,
    n: int,
    e: (Instant, R),
)
    requires
        crate::laws::takes_turns(states, policy, turns),
        0 <= k <= n < states.len(),
        states[k].delayed.contains(e),
        forall|m: int| k <= m < n ==> !#[trigger] hands_out(states, m, e),
    ensures
        states[n].delayed.contains(e),
    decreases n,
{
    if k < n {
        law_waiting_routes_keep_their_times(states, policy, turns, k, n - 1, e);
        assert(crate::laws::takes_turn(
            states[n - 1],
            policy,
            turns[n - 1],
            states[n - 1 + 1],
        ));
        assert(!hands_out(states, n - 1, e));
        lemma_turn_keeps_waiting(states[n - 1], policy, turns[n - 1], states[n], e);
    }
}

proof fn lemma_turn_times_new_routes<R, M: Ord, SP: RouteDelayPolicy<R>>(
    before: ScheduleState<R, M>,
    policy: SP,
    turn: Turn<R, M>,
    after: ScheduleState<R, M>,
    e: (Instant, R),
)
    requires
        crate::laws::takes_turn(before, policy, turn, after),
        !before.delayed.contains(e),
        after.delayed.contains(e),
    ensures
        exists|index: int| #[trigger] times_route(turn, policy, index, e),
{
    if let Turn::Stepped {
        event: Event::PulledFromResolver { pulled: Some(item), now },
        input_terminated,
        step,
    } = turn {
        let timed = choose|timed: Seq<(Instant, R)>|
            {
                &&& #[trigger] crate::schedule::all_timed_by(policy, item.1@, now, timed)
                &&& after.delayed == before.delayed.add(timed.to_multiset())
            };
        vstd::seq_lib::to_multiset_contains(timed, e);
        let index = choose|index: int| 0 <= index < timed.len() && timed[index] == e;
        assert(timed[index] == e);
        assert(times_route(turn, policy, index, e));
    }
}

/// A route that waits either did so from the start, or waits for the time that it was given when
/// its group was pulled, in one of the turns so far.
pub proof fn law_waiting_routes_were_timed_when_pulled<R, M: Ord, SP: RouteDelayPolicy<R>>(
    states: Seq<ScheduleState<R, M>>,
    policy: SP,
    turns: Seq<Turn<R, M>>,
    n: int,
    e: (Instant, R),
)
    requires
        crate::laws::takes_turns(states, policy, turns),
        0 <= n < states.len(),
        states[n].delayed.contains(e),
    ensures
        states[0].delayed.contains(e) || exists|k: int, index: int|
            0 <= k < n && #[trigger] times_route(turns[k], policy, index, e),
    decreases n,
{
    if n > 0 {
        if states[n - 1].delayed.contains(e) {
            law_waiting_routes_were_timed_when_pulled(states, policy, turns, n - 1, e);
        } else {
            assert(crate::laws::takes_turn(
                states[n - 1],
                policy,
                turns[n - 1],
                states[n - 1 + 1],
            ));
            lemma_turn_times_new_routes(states[n - 1], policy, turns[n - 1], states[n], e);
        }
    }
}

proof fn lemma_pulls_keep_waiting<R, M: Ord, SP: RouteDelayPolicy<R>>(
    states: Seq<ScheduleState<R, M>>,
    policy: SP,
    turns: Seq<Turn<R, M>>,
    k: int,
    n: int,
)
    requires
        crate::laws::takes_turns(states, policy, turns),
        0 <= k <= n < states.len(),
        forall|m: int| k <= m < n ==> (#[trigger] turns[m]) is Polled,
    ensures
        states[n].delayed == states[k].delayed,
    decreases n,
{
    if k < n {
        lemma_pulls_keep_waiting(states, policy, turns, k, n - 1);
        assert(crate::laws::takes_turn(
            states[n - 1],
            policy,
            turns[n - 1],
            states[n - 1 + 1],
        ));
    }
}

/// No route is handed out too early: when a wait is over, the route that is handed out is one for
/// which the time that was waited for is the time that it was given when its group was pulled,
/// unless it waited for that time from the start.
///
/// Turn `m` is answered with a wait until `time`, turn `n` says that the wait is over, and the
/// resolver's input may be polled in between.
pub proof fn law_no_route_is_handed_out_early<R, M: Ord, SP: RouteDelayPolicy<R>>(
    states: Seq<ScheduleState<R, M>>,
    policy: SP,
    turns: Seq<Turn<R, M>>,
    m: int,
    time: Instant,
    n: int,
)
    requires
        crate::laws::takes_turns(states, policy, turns),
        0 <= m < n < turns.len(),
        turns[m] matches Turn::Stepped { step: Step::Wait { sleep_until, .. }, .. } && sleep_until
            == Some(time),
        forall|j: int| m < j < n ==> (#[trigger] turns[j]) is Polled,
        turns[n] matches Turn::Stepped { event: Event::ReturnNextIndividualRoute, .. },
    ensures
        turns[n] matches Turn::Stepped { step: Step::Return(Some(route)), .. } && (
        states[0].delayed.contains((time, route)) || exists|k: int, index: int|
            0 <= k <= m && #[trigger] times_route(turns[k], policy, index, (time, route))),
{
    assert(crate::laws::takes_turn(states[m], policy, turns[m], states[m + 1]));
    assert(crate::schedule::is_earliest(states[m + 1].delayed, time));
    lemma_pulls_keep_waiting(states, policy, turns, m + 1, n);
    assert(crate::laws::takes_turn(states[n], policy, turns[n], states[n + 1]));
    if let Turn::Stepped { event, input_terminated, step } = turns[n] {
        crate::laws::law_handed_out_when_due(
            states[n],
            policy,
            time,
            input_terminated,
            step,
            states[n + 1],
        );
        if let Step::Return(Some(route)) = step {
            law_waiting_routes_were_timed_when_pulled(states, policy, turns, m + 1, (time, route));
        }
    }
}

} // verus!
