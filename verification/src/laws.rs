//! What holds of a schedule over several turns.

use vstd::multiset::Multiset;
use vstd::prelude::*;

use crate::policy::RouteDelayPolicy;
use crate::route::ResolvedRoutes;
use crate::schedule::{Event, ResolverPoll, ScheduleState, Step};
use crate::stream::{InputPoll, QueuedPoll};
use crate::time::{Duration, Instant};

verus! {

/// One call of a schedule's methods, with its arguments and its result.
pub enum Turn<R, M> {
    /// [`Schedule::poll_resolver`](crate::schedule::Schedule::poll_resolver) was called.
    Polled { input: InputPoll<(ResolvedRoutes<R>, M)>, out: ResolverPoll<R, M> },
    /// [`Schedule::next`](crate::schedule::Schedule::next) was called.
    Stepped { event: Event<R, M>, input_terminated: bool, step: Step<R> },
}

/// The turn is one that a schedule can take, and takes it from `before` to `after`.
pub open spec fn takes_turn<R, M: Ord, SP: RouteDelayPolicy<R>>(
    before: ScheduleState<R, M>,
    policy: SP,
    turn: Turn<R, M>,
    after: ScheduleState<R, M>,
) -> bool {
    match turn {
        Turn::Polled { input, out } => crate::schedule::pull_outcome(before, input, out, after),
        Turn::Stepped { event, input_terminated, step } => {
            &&& step !is TimeOverflow
            &&& crate::schedule::next_outcome(before, policy, event, input_terminated, step, after)
        },
    }
}

/// The routes that came from the resolver's input in a turn.
pub open spec fn arrived<R, M>() -> spec_fn(Turn<R, M>) -> Multiset<R> {
    |turn: Turn<R, M>|
        match turn {
            Turn::Polled { input: InputPoll::Ready(item), .. } => item.0@.to_multiset(),
            _ => Multiset::empty(),
        }
}

/// The routes of the group that the schedule emitted in a turn, for the driver to hand back.
pub open spec fn emitted<R, M>() -> spec_fn(Turn<R, M>) -> Multiset<R> {
    |turn: Turn<R, M>|
        match turn {
            Turn::Polled { out: ResolverPoll::Ready(Some(item)), .. } => item.1@.to_multiset(),
            _ => Multiset::empty(),
        }
}

/// The routes of the group that the driver handed back in a turn.
pub open spec fn pulled<R, M>() -> spec_fn(Turn<R, M>) -> Multiset<R> {
    |turn: Turn<R, M>|
        match turn {
            Turn::Stepped {
                event: Event::PulledFromResolver { pulled: Some(item), .. },
                ..
            } => item.1@.to_multiset(),
            _ => Multiset::empty(),
        }
}

/// The route that was handed out as the next to try in a turn.
pub open spec fn returned<R, M>() -> spec_fn(Turn<R, M>) -> Multiset<R> {
    |turn: Turn<R, M>|
        match turn {
            Turn::Stepped { step: Step::Return(Some(route)), .. } => Multiset::singleton(route),
            _ => Multiset::empty(),
        }
}

/// The routes of a group.
pub open spec fn group_routes<R, M>() -> spec_fn((M, ResolvedRoutes<R>)) -> Multiset<R> {
    |item: (M, ResolvedRoutes<R>)| item.1@.to_multiset()
}

/// A route without its time.
pub open spec fn delayed_route<R>() -> spec_fn((Instant, R)) -> Multiset<R> {
    |item: (Instant, R)| Multiset::singleton(item.1)
}

/// All the routes that a schedule holds.
pub open spec fn held<R, M>(state: ScheduleState<R, M>) -> Multiset<R> {
    crate::tally::tally(state.groups, group_routes()).add(
        crate::tally::tally(state.delayed, delayed_route()),
    )
}

proof fn lemma_delayed_routes_add_up<R>(
    delayed: Multiset<(Instant, R)>,
    timed: Seq<(Instant, R)>,
    routes: Seq<R>,
)
    requires
        timed.len() == routes.len(),
        forall|i: int| #![trigger timed[i]] 0 <= i < routes.len() ==> timed[i].1 == routes[i],
    ensures
        crate::tally::tally(delayed.add(timed.to_multiset()), delayed_route())
            == crate::tally::tally(delayed, delayed_route()).add(routes.to_multiset()),
    decreases timed.len(),
{
    broadcast use vstd::seq_lib::group_to_multiset_ensures;

    let part = delayed_route::<R>();
    if timed.len() == 0 {
        assert(delayed.add(timed.to_multiset()) =~= delayed);
        assert(crate::tally::tally(delayed, part).add(routes.to_multiset())
            =~= crate::tally::tally(delayed, part));
    } else {
        let fewer = timed.drop_last();
        let fewer_routes = routes.drop_last();
        assert forall|i: int| #![trigger fewer[i]] 0 <= i < fewer_routes.len() implies fewer[i].1
            == fewer_routes[i] by {
            assert(fewer[i] == timed[i]);
        }
        lemma_delayed_routes_add_up(delayed, fewer, fewer_routes);
        assert(timed[timed.len() - 1] == timed.last());
        assert(timed =~= fewer.push(timed.last()));
        assert(routes =~= fewer_routes.push(routes.last()));
        let most = delayed.add(fewer.to_multiset());
        assert(delayed.add(timed.to_multiset()) =~= most.insert(timed.last()));
        crate::tally::lemma_tally_insert(most, part, timed.last());
        assert(crate::tally::tally(delayed.add(timed.to_multiset()), part)
            =~= crate::tally::tally(delayed, part).add(routes.to_multiset()));
    }
}

/// No turn loses a route or makes one up: what comes in is either held or goes out.
pub proof fn law_turn_keeps_routes<R, M: Ord, SP: RouteDelayPolicy<R>>(
    before: ScheduleState<R, M>,
    policy: SP,
    turn: Turn<R, M>,
    after: ScheduleState<R, M>,
)
    requires
        takes_turn(before, policy, turn, after),
    ensures
        held(after).add(emitted()(turn)).add(returned()(turn)) == held(before).add(
            arrived()(turn),
        ).add(pulled()(turn)),
{
    broadcast use vstd::seq_lib::group_to_multiset_ensures;

    match turn {
        Turn::Polled { input, out } => {
            let polled = choose|polled: QueuedPoll<(M, ResolvedRoutes<R>)>|
                {
                    &&& #[trigger] crate::stream::poll_outcome(
                        before.groups,
                        crate::stream::swapped_item(input),
                        polled,
                        after.groups,
                    )
                    &&& out == crate::schedule::without_empty_group(polled)
                };
            let part = group_routes::<R, M>();
            match input {
                InputPoll::Ready(item) => {
                    crate::tally::lemma_tally_insert(before.groups, part, (item.1, item.0));
                },
                _ => {
                    if before.groups.len() > 0 {
                        crate::tally::lemma_tally_remove(
                            before.groups,
                            part,
                            polled->Ready_0->Some_0,
                        );
                    }
                },
            }
            assert(held(after).add(emitted()(turn)).add(returned()(turn)) =~= held(before).add(
                arrived()(turn),
            ).add(pulled()(turn)));
        },
        Turn::Stepped { event, input_terminated, step } => {
            match event {
                Event::PulledFromResolver { pulled: Some(item), now } => {
                    let timed = choose|timed: Seq<(Instant, R)>|
                        {
                            &&& #[trigger] crate::schedule::all_timed_by(
                                policy,
                                item.1@,
                                now,
                                timed,
                            )
                            &&& after.delayed == before.delayed.add(timed.to_multiset())
                        };
                    lemma_delayed_routes_add_up(before.delayed, timed, item.1@);
                },
                Event::ReturnNextIndividualRoute => {
                    let e = choose|e: (Instant, R)|
                        {
                            &&& #[trigger] crate::queue::takes_first(
                                before.delayed,
                                e,
                                after.delayed,
                            )
                            &&& step == Step::Return(Some(e.1))
                        };
                    crate::tally::lemma_tally_remove(before.delayed, delayed_route(), e);
                },
                _ => {},
            }
            assert(held(after).add(emitted()(turn)).add(returned()(turn)) =~= held(before).add(
                arrived()(turn),
            ).add(pulled()(turn)));
        },
    }
}

/// The turns take a schedule through the states, one after the other.
pub open spec fn takes_turns<R, M: Ord, SP: RouteDelayPolicy<R>>(
    states: Seq<ScheduleState<R, M>>,
    policy: SP,
    turns: Seq<Turn<R, M>>,
) -> bool {
    &&& states.len() == turns.len() + 1
    &&& forall|n: int| #![trigger turns[n]]
        0 <= n < turns.len() ==> takes_turn(states[n], policy, turns[n], states[n + 1])
}

/// What all the turns come to together.
pub open spec fn over_turns<R, M>(
    turns: Seq<Turn<R, M>>,
    part: spec_fn(Turn<R, M>) -> Multiset<R>,
) -> Multiset<R>
    decreases turns.len(),
{
    if turns.len() == 0 {
        Multiset::empty()
    } else {
        over_turns(turns.drop_last(), part).add(part(turns.last()))
    }
}

/// However many turns a schedule takes, no route is lost or made up.
pub proof fn law_turns_keep_routes<R, M: Ord, SP: RouteDelayPolicy<R>>(
    states: Seq<ScheduleState<R, M>>,
    policy: SP,
    turns: Seq<Turn<R, M>>,
)
    requires
        takes_turns(states, policy, turns),
    ensures
        held(states.last()).add(over_turns(turns, emitted())).add(over_turns(turns, returned()))
            == held(states.first()).add(over_turns(turns, arrived())).add(
            over_turns(turns, pulled()),
        ),
    decreases turns.len(),
{
    if turns.len() > 0 {
        let fewer = turns.drop_last();
        let fewer_states = states.drop_last();
        let n = turns.len() - 1;
        assert forall|n: int| #![trigger fewer[n]] 0 <= n < fewer.len() implies takes_turn(
            fewer_states[n],
            policy,
            fewer[n],
            fewer_states[n + 1],
        ) by {
            assert(fewer[n] == turns[n]);
        }
        law_turns_keep_routes(fewer_states, policy, fewer);
        assert(takes_turn(states[n], policy, turns[n], states[n + 1]));
        law_turn_keeps_routes(states[n], policy, turns[n], states[n + 1]);
        assert(fewer_states.last() == states[n] && fewer_states.first() == states.first());
        assert forall|route: R|
            #![trigger held(states.last()).count(route)]
            held(states.last()).count(route) + over_turns(turns, emitted()).count(route)
                + over_turns(turns, returned()).count(route) == held(states.first()).count(route)
                + over_turns(turns, arrived()).count(route) + over_turns(turns, pulled()).count(
                route,
            ) by {
            assert(held(states[n]).add(over_turns(fewer, emitted())).add(
                over_turns(fewer, returned()),
            ).count(route) == held(states.first()).add(over_turns(fewer, arrived())).add(
                over_turns(fewer, pulled()),
            ).count(route));
            assert(held(states.last()).add(emitted()(turns.last())).add(
                returned()(turns.last()),
            ).count(route) == held(states[n]).add(arrived()(turns.last())).add(
                pulled()(turns.last()),
            ).count(route));
        }
    }
    assert(held(states.last()).add(over_turns(turns, emitted())).add(
        over_turns(turns, returned()),
    ) =~= held(states.first()).add(over_turns(turns, arrived())).add(
        over_turns(turns, pulled()),
    ));
}

/// If the driver hands back the groups that the schedule emits, the routes that the schedule has
/// returned, together with the ones that it holds, are just the ones that came from the resolver
/// and the ones that it held at first.
pub proof fn law_arrived_routes_are_returned_or_held<R, M: Ord, SP: RouteDelayPolicy<R>>(
    states: Seq<ScheduleState<R, M>>,
    policy: SP,
    turns: Seq<Turn<R, M>>,
)
    requires
        takes_turns(states, policy, turns),
        over_turns(turns, emitted()) == over_turns(turns, pulled()),
    ensures
        held(states.last()).add(over_turns(turns, returned())) == held(states.first()).add(
            over_turns(turns, arrived()),
        ),
{
    law_turns_keep_routes(states, policy, turns);
    let (emitted, pulled) = (over_turns(turns, emitted()), over_turns(turns, pulled()));
    let (returned, arrived) = (over_turns(turns, returned()), over_turns(turns, arrived()));
    let (last, first) = (held(states.last()), held(states.first()));
    assert forall|route: R|
        #![trigger last.count(route)]
        last.count(route) + returned.count(route) == first.count(route) + arrived.count(route) by {
        assert(last.add(emitted).add(returned).count(route) == first.add(arrived).add(pulled).count(
            route,
        ));
    }
    assert(last.add(returned) =~= first.add(arrived));
}

proof fn lemma_tally_empty<T, R>(items: Multiset<T>, part: spec_fn(T) -> Multiset<R>)
    requires
        items.len() == 0,
    ensures
        crate::tally::tally(items, part) == Multiset::<R>::empty(),
{
}

/// When a schedule that started out empty reports that all routes are exhausted, it has returned
/// each route that came from the resolver as often as it came, and no other.
pub proof fn law_exhausted_means_all_were_returned<R, M: Ord, SP: RouteDelayPolicy<R>>(
    states: Seq<ScheduleState<R, M>>,
    policy: SP,
    turns: Seq<Turn<R, M>>,
)
    requires
        takes_turns(states, policy, turns),
        over_turns(turns, emitted()) == over_turns(turns, pulled()),
        states.first().groups.len() == 0,
        states.first().delayed.len() == 0,
        turns.len() > 0,
        turns.last() matches Turn::Stepped { step: Step::Return(None), .. },
    ensures
        over_turns(turns, returned()) == over_turns(turns, arrived()),
{
    law_arrived_routes_are_returned_or_held(states, policy, turns);
    let n = turns.len() - 1;
    assert(takes_turn(states[n], policy, turns[n], states[n + 1]));
    lemma_tally_empty(states.first().groups, group_routes::<R, M>());
    lemma_tally_empty(states.first().delayed, delayed_route::<R>());
    lemma_tally_empty(states.last().groups, group_routes::<R, M>());
    lemma_tally_empty(states.last().delayed, delayed_route::<R>());
    assert(held(states.last()).add(over_turns(turns, returned())) =~= over_turns(
        turns,
        returned(),
    ));
    assert(held(states.first()).add(over_turns(turns, arrived())) =~= over_turns(
        turns,
        arrived(),
    ));
}

/// Once all routes are exhausted they stay so: asking for the next route has no other answer, and
/// changes nothing.
pub proof fn law_exhausted_for_good<R, M: Ord, SP: RouteDelayPolicy<R>>(
    before: ScheduleState<R, M>,
    policy: SP,
    event: Event<R, M>,
    input_terminated: bool,
    state: ScheduleState<R, M>,
    step: Step<R>,
    after: ScheduleState<R, M>,
)
    requires
        crate::schedule::next_outcome(
            before,
            policy,
            event,
            input_terminated,
            Step::<R>::Return(None),
            state,
        ),
        crate::schedule::next_outcome(
            state,
            policy,
            Event::<R, M>::Started,
            input_terminated,
            step,
            after,
        ),
    ensures
        step == Step::<R>::Return(None),
        after == state,
{
    assert(after =~= state);
}

/// There is always something to wait for, and if that is a time there is a route to hand out when
/// it has come, no matter what is pulled from the resolver meanwhile.
pub proof fn law_waits_come_to_something<R, M: Ord>(
    state: ScheduleState<R, M>,
    input_terminated: bool,
    sleep_until: Option<Instant>,
    pull_from_resolver: bool,
    input: InputPoll<(ResolvedRoutes<R>, M)>,
    out: ResolverPoll<R, M>,
    after: ScheduleState<R, M>,
)
    requires
        crate::schedule::wait_outcome(
            state,
            input_terminated,
            Step::Wait { sleep_until, pull_from_resolver },
        ),
        crate::schedule::pull_outcome(state, input, out, after),
    ensures
        sleep_until is Some || pull_from_resolver,
        sleep_until is Some <==> state.delayed.len() > 0,
        after.delayed == state.delayed,
{
    if sleep_until is Some {
        let route = choose|route: R| #[trigger] state.delayed.contains((sleep_until->Some_0, route));
        assert(state.delayed.count((sleep_until->Some_0, route)) <= state.delayed.len());
    }
}

/// The route that is handed out when a wait is over is one whose time is the time that was waited
/// for, whatever was pulled from the resolver meanwhile: that does not change which time is the
/// earliest.
pub proof fn law_handed_out_when_due<R, M: Ord, SP: RouteDelayPolicy<R>>(
    state: ScheduleState<R, M>,
    policy: SP,
    time: Instant,
    input_terminated: bool,
    step: Step<R>,
    after: ScheduleState<R, M>,
)
    requires
        crate::schedule::is_earliest(state.delayed, time),
        crate::schedule::next_outcome(
            state,
            policy,
            Event::<R, M>::ReturnNextIndividualRoute,
            input_terminated,
            step,
            after,
        ),
    ensures
        step matches Step::Return(Some(route)) && state.delayed.contains((time, route))
            && after.delayed == state.delayed.remove((time, route)),
{
    let e = choose|e: (Instant, R)|
        {
            &&& #[trigger] crate::queue::takes_first(state.delayed, e, after.delayed)
            &&& step == Step::Return(Some(e.1))
        };
    let route = choose|route: R| #[trigger] state.delayed.contains((time, route));
    assert(crate::queue::key_le(e.0, (time, route).0));
    assert(e.0 == time);
}

/// The group that is emitted has routes, and none of the groups that are left over belongs before
/// it.
pub proof fn law_first_group_is_emitted<R, M: Ord>(
    before: ScheduleState<R, M>,
    input: InputPoll<(ResolvedRoutes<R>, M)>,
    item: (M, ResolvedRoutes<R>),
    after: ScheduleState<R, M>,
    other: (M, ResolvedRoutes<R>),
)
    requires
        crate::schedule::pull_outcome(before, input, ResolverPoll::Ready(Some(item)), after),
    ensures
        item.1@.len() > 0,
        before.groups.contains(item),
        after.groups == before.groups.remove(item),
        after.groups.contains(other) ==> crate::queue::key_le(item.0, other.0),
{
    if after.groups.contains(other) {
        assert(before.groups.contains(other));
    }
}

/// None of the routes is to be attempted before that time.
pub open spec fn none_before<R>(delayed: Multiset<(Instant, R)>, time: Instant) -> bool {
    forall|e: (Instant, R)| #[trigger] delayed.contains(e) ==> time@ <= e.0@
}

/// If the turn hands a group to the schedule, it does so at that time or later.
pub open spec fn hands_in_no_earlier<R, M>(turn: Turn<R, M>, time: Instant) -> bool {
    match turn {
        Turn::Stepped {
            event: Event::PulledFromResolver { pulled: Some(_), now },
            ..
        } => time@ <= now@,
        _ => true,
    }
}

proof fn lemma_turn_keeps_none_before<R, M: Ord, SP: RouteDelayPolicy<R>>(
    before: ScheduleState<R, M>,
    policy: SP,
    turn: Turn<R, M>,
    after: ScheduleState<R, M>,
    time: Instant,
)
    requires
        takes_turn(before, policy, turn, after),
        none_before(before.delayed, time),
        hands_in_no_earlier(turn, time),
    ensures
        none_before(after.delayed, time),
{
    if let Turn::Stepped { event, input_terminated, step } = turn {
        match event {
            Event::PulledFromResolver { pulled: Some(item), now } => {
                let timed = choose|timed: Seq<(Instant, R)>|
                    {
                        &&& #[trigger] crate::schedule::all_timed_by(policy, item.1@, now, timed)
                        &&& after.delayed == before.delayed.add(timed.to_multiset())
                    };
                assert forall|e: (Instant, R)| #[trigger] after.delayed.contains(e) implies time@
                    <= e.0@ by {
                    if !before.delayed.contains(e) {
                        vstd::seq_lib::to_multiset_contains(timed, e);
                        let i = choose|i: int| 0 <= i < timed.len() && timed[i] == e;
                        assert(timed[i] == e);
                    }
                }
            },
            Event::ReturnNextIndividualRoute => {
                let taken = choose|taken: (Instant, R)|
                    {
                        &&& #[trigger] crate::queue::takes_first(
                            before.delayed,
                            taken,
                            after.delayed,
                        )
                        &&& step == Step::Return(Some(taken.1))
                    };
                assert forall|e: (Instant, R)| #[trigger] after.delayed.contains(e) implies time@
                    <= e.0@ by {
                    assert(before.delayed.contains(e));
                }
            },
            _ => {},
        }
    }
}

proof fn lemma_turns_keep_none_before<R, M: Ord, SP: RouteDelayPolicy<R>>(
    states: Seq<ScheduleState<R, M>>,
    policy: SP,
    turns: Seq<Turn<R, M>>,
    k: int,
    n: int,
    time: Instant,
)
    requires
        takes_turns(states, policy, turns),
        0 <= k <= n < states.len(),
        none_before(states[k].delayed, time),
        forall|m: int| k <= m < turns.len() ==> hands_in_no_earlier(#[trigger] turns[m], time),
    ensures
        none_before(states[n].delayed, time),
    decreases n,
{
    if k < n {
        lemma_turns_keep_none_before(states, policy, turns, k, n - 1, time);
        assert(takes_turn(states[n - 1], policy, turns[n - 1], states[n - 1 + 1]));
        lemma_turn_keeps_none_before(states[n - 1], policy, turns[n - 1], states[n], time);
    }
}

/// Routes are handed out in the order of their times, also if more groups of routes are handed in
/// between, as long as that is not before the time of a route that was handed out already.
///
/// Turn `k` hands out `e`, and turn `n` comes later. After turn `k` no route is waiting for a time
/// before that of `e`, so a route that turn `n` hands out is not one of an earlier time.
pub proof fn law_handed_out_in_time_order<R, M: Ord, SP: RouteDelayPolicy<R>>(
    states: Seq<ScheduleState<R, M>>,
    policy: SP,
    turns: Seq<Turn<R, M>>,
    k: int,
    e: (Instant, R),
    n: int,
)
    requires
        takes_turns(states, policy, turns),
        0 <= k < n < states.len(),
        crate::queue::takes_first(states[k].delayed, e, states[k + 1].delayed),
        forall|m: int| k < m < turns.len() ==> hands_in_no_earlier(#[trigger] turns[m], e.0),
    ensures
        none_before(states[n].delayed, e.0),
        forall|later: (Instant, R)|
            n < turns.len() && #[trigger] crate::queue::takes_first(
                states[n].delayed,
                later,
                states[n + 1].delayed,
            ) ==> e.0@ <= later.0@,
        n < turns.len() ==> (turns[n] matches Turn::Stepped {
            step: Step::Return(Some(route)),
            ..
        } ==> exists|later: (Instant, R)|
            e.0@ <= later.0@ && later.1 == route && #[trigger] crate::queue::takes_first(
                states[n].delayed,
                later,
                states[n + 1].delayed,
            )),
{
    assert forall|other: (Instant, R)| #[trigger] states[k + 1].delayed.contains(other) implies e.0@
        <= other.0@ by {
        assert(states[k].delayed.contains(other));
        assert(crate::queue::key_le(e.0, other.0));
    }
    lemma_turns_keep_none_before(states, policy, turns, k + 1, n, e.0);
    if n < turns.len() {
        assert(takes_turn(states[n], policy, turns[n], states[n + 1]));
    }
}

/// Of two routes of a group, the later one is attempted later by the delay between attempts for
/// each place that lies between them, and by whatever more the policy delays it.
pub proof fn law_attempts_are_staggered(
    now: Instant,
    i: int,
    j: int,
    delay_i: Duration,
    delay_j: Duration,
)
    requires
        0 <= i <= j <= u32::MAX,
    ensures
        crate::schedule::attempt_nanos(now, j, delay_j) - crate::schedule::attempt_nanos(
            now,
            i,
            delay_i,
        ) == 300_000_000 * (j - i) + delay_j@ - delay_i@,
{
}

/// No route is attempted before it was pulled, nor before the policy's delay has passed.
pub proof fn law_no_attempt_before_its_delay(now: Instant, index: int, delay: Duration)
    requires
        0 <= index,
    ensures
        crate::schedule::attempt_nanos(now, index, delay) >= now@ + delay@ >= now@,
        crate::schedule::attempt_nanos(now, 0, delay) == now@ + delay@,
{
}

/// There is an instant for attempting each route, unless the policy's delays reach beyond the end
/// of time.
pub proof fn law_moderate_delays_never_overflow<R, M: Ord, SP: RouteDelayPolicy<R>>(
    before: ScheduleState<R, M>,
    policy: SP,
    item: (M, ResolvedRoutes<R>),
    now: Instant,
    longest: Duration,
    input_terminated: bool,
    step: Step<R>,
    after: ScheduleState<R, M>,
)
    requires
        forall|i: int, delay: Duration|
            0 <= i < item.1@.len() && #[trigger] call_ensures(
                SP::compute_delay,
                (&policy, &item.1@[i], now),
                delay,
            ) ==> delay@ <= longest@,
        now@ + 300_000_000 * u32::MAX + longest@ <= i128::MAX,
        crate::schedule::next_outcome(
            before,
            policy,
            Event::PulledFromResolver { pulled: Some(item), now },
            input_terminated,
            step,
            after,
        ),
    ensures
        step !is TimeOverflow,
{
}

} // verus!
