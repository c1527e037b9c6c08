//! What each call of a schedule comes to, in terms of groups, routes and numbers of nanoseconds.

use core::cmp::Ordering;
use vstd::prelude::*;
use vstd::std_specs::cmp::PartialOrdSpec;

use crate::laws::Turn;
use crate::policy::RouteDelayPolicy;
use crate::route::{ResolveMeta, ResolvedRoutes};
use crate::schedule::{Event, ResolverPoll, Schedule, Step};
use crate::stream::InputPoll;
use crate::time::{Duration, Instant};

verus! {

/// A schedule holds nothing at first, and keeps to its policy.
pub proof fn law_schedules_start_out_empty<R, M: Ord, SP: RouteDelayPolicy<R>>(
    policy: SP,
    schedule: Schedule<R, M, SP>,
)
    requires
        call_ensures(Schedule::<R, M, SP>::new, (policy,), schedule),
    ensures
        schedule@.groups.len() == 0,
        schedule@.delayed.len() == 0,
        schedule.policy() == policy,
{
}

/// A group that the resolver's input gives is cached, and the input is to be polled again, whatever
/// is cached already and whatever routes wait.
pub proof fn law_given_groups_are_cached<R, M: Ord, SP: RouteDelayPolicy<R>>(
    schedule: &mut Schedule<R, M, SP>,
    group: ResolvedRoutes<R>,
    meta: M,
    out: ResolverPoll<R, M>,
)
    requires
        call_ensures(
            Schedule::<R, M, SP>::poll_resolver,
            (schedule, InputPoll::Ready((group, meta))),
            out,
        ),
    ensures
        out is PollInput,
        final(schedule)@.groups == old(schedule)@.groups.insert((meta, group)),
        final(schedule)@.delayed == old(schedule)@.delayed,
        final(schedule).policy() == old(schedule).policy(),
{
}

/// When the resolver's input gives nothing, be it that it has ended or that it is pending, one of
/// the cached groups leaves the cache at once, whatever routes wait. No other cached group comes
/// before it. It is emitted if it has routes, and dropped if it has none.
pub proof fn law_cached_groups_are_emitted_at_once<R, M: Ord, SP: RouteDelayPolicy<R>>(
    schedule: &mut Schedule<R, M, SP>,
    input: InputPoll<(ResolvedRoutes<R>, M)>,
    out: ResolverPoll<R, M>,
)
    requires
        call_ensures(Schedule::<R, M, SP>::poll_resolver, (schedule, input), out),
        input !is Ready,
        old(schedule)@.groups.len() > 0,
    ensures
        exists|e: (M, ResolvedRoutes<R>)|
            {
                &&& #[trigger] old(schedule)@.groups.contains(e)
                &&& forall|other: (M, ResolvedRoutes<R>)| #[trigger]
                    old(schedule)@.groups.contains(other) ==> other.0.partial_cmp_spec(&e.0)
                        != Some(Ordering::Less)
                &&& final(schedule)@.groups == old(schedule)@.groups.remove(e)
                &&& e.1@.len() > 0 ==> out == ResolverPoll::Ready(Some(e))
                &&& e.1@.len() == 0 ==> out == ResolverPoll::<R, M>::Restart
            },
        final(schedule)@.delayed == old(schedule)@.delayed,
        final(schedule).policy() == old(schedule).policy(),
{
    let e = choose|e: (M, ResolvedRoutes<R>)| #[trigger]
        crate::queue::takes_first(old(schedule)@.groups, e, final(schedule)@.groups) && out
            == crate::schedule::without_empty_group(crate::stream::QueuedPoll::Ready(Some(e)));
    assert(old(schedule)@.groups.contains(e));
    assert forall|other: (M, ResolvedRoutes<R>)| #[trigger]
        old(schedule)@.groups.contains(other) implies other.0.partial_cmp_spec(&e.0) != Some(
        Ordering::Less,
    ) by {
        assert(crate::queue::key_le(e.0, other.0));
    }
}

/// When the resolver's input gives nothing and no group is cached, there is nothing to emit:
/// pulling waits if the input does, and comes to its end otherwise.
pub proof fn law_pulling_waits_or_ends_with_the_input<R, M: Ord, SP: RouteDelayPolicy<R>>(
    schedule: &mut Schedule<R, M, SP>,
    input: InputPoll<(ResolvedRoutes<R>, M)>,
    out: ResolverPoll<R, M>,
)
    requires
        call_ensures(Schedule::<R, M, SP>::poll_resolver, (schedule, input), out),
        input !is Ready,
        old(schedule)@.groups.len() == 0,
    ensures
        input is Pending ==> out == ResolverPoll::<R, M>::Pending,
        input !is Pending ==> out == ResolverPoll::<R, M>::Ready(None),
        final(schedule)@.groups == old(schedule)@.groups,
        final(schedule)@.delayed == old(schedule)@.delayed,
        final(schedule).policy() == old(schedule).policy(),
{
}

/// Pulling is only ever put off while no group is cached and the input is pending, and only ends
/// when no group is cached and the input has ended.
pub proof fn law_pulling_is_not_put_off<R, M: Ord, SP: RouteDelayPolicy<R>>(
    schedule: &mut Schedule<R, M, SP>,
    input: InputPoll<(ResolvedRoutes<R>, M)>,
    out: ResolverPoll<R, M>,
)
    requires
        call_ensures(Schedule::<R, M, SP>::poll_resolver, (schedule, input), out),
    ensures
        out is Pending <==> old(schedule)@.groups.len() == 0 && input is Pending,
        out == ResolverPoll::<R, M>::Ready(None) <==> old(schedule)@.groups.len() == 0 && (
        input is Ended || input is Terminated),
        out is PollInput <==> input is Ready,
{
}

/// Of the cached groups, the one from the foremost route leaves first.
pub proof fn law_groups_leave_by_position<R, SP: RouteDelayPolicy<R>>(
    schedule: &mut Schedule<R, ResolveMeta, SP>,
    input: InputPoll<(ResolvedRoutes<R>, ResolveMeta)>,
    item: (ResolveMeta, ResolvedRoutes<R>),
    other: (ResolveMeta, ResolvedRoutes<R>),
)
    requires
        call_ensures(
            Schedule::<R, ResolveMeta, SP>::poll_resolver,
            (schedule, input),
            ResolverPoll::Ready(Some(item)),
        ),
        old(schedule)@.groups.contains(other),
    ensures
        item.1@.len() > 0,
        old(schedule)@.groups.contains(item),
        final(schedule)@.groups == old(schedule)@.groups.remove(item),
        item.0.original_group_index <= other.0.original_group_index,
{
    crate::route::law_metas_are_ordered_by_position(item.0, other.0);
}

/// The time for attempting a route is when its group was pulled, plus 300 milliseconds for each
/// place before it in the group, plus the policy's delay, if there is such an instant.
pub proof fn law_attempt_times_add_up(
    now: Instant,
    index: usize,
    delay: Duration,
    time: Option<Instant>,
)
    requires
        call_ensures(crate::schedule::attempt_time, (now, index, delay), time),
        index <= u32::MAX,
    ensures
        time is None <==> now.nanos + 300_000_000 * index + delay.nanos > i128::MAX,
        time matches Some(time) ==> time.nanos == now.nanos + 300_000_000 * index + delay.nanos,
{
}

/// Places beyond the highest that counts are attempted along with that one.
pub proof fn law_far_places_are_attempted_together(
    now: Instant,
    index: usize,
    delay: Duration,
    time: Option<Instant>,
)
    requires
        call_ensures(crate::schedule::attempt_time, (now, index, delay), time),
        index >= u32::MAX,
    ensures
        time is None <==> now.nanos + 300_000_000 * 0xffff_ffff + delay.nanos > i128::MAX,
        time matches Some(time) ==> time.nanos == now.nanos + 300_000_000 * 0xffff_ffff
            + delay.nanos,
{
}

/// The delay between attempts is 300 milliseconds.
pub proof fn law_attempts_are_300_ms_apart(delay: Duration, millis: Duration)
    requires
        call_ensures(crate::schedule::happy_eyeballs_delay, (), delay),
        call_ensures(Duration::from_millis, (300,), millis),
    ensures
        delay == millis,
        delay.nanos == 300_000_000,
{
}

/// Each route of a group is given a time, and no other route is: when the group was pulled, plus
/// 300 milliseconds for each place before it, plus a delay that the policy gives for that route.
///
/// The result is that delay for the route at `i`.
pub proof fn law_routes_are_timed_by_their_places<R, P: RouteDelayPolicy<R>>(
    policy: P,
    group: ResolvedRoutes<R>,
    now: Instant,
    timed: Vec<(Instant, R)>,
    i: int,
) -> (delay: Duration)
    requires
        call_ensures(
            crate::schedule::time_routes::<R, P>,
            (&policy, group, now),
            Some(timed),
        ),
        0 <= i < group@.len(),
    ensures
        timed@.len() == group@.len(),
        timed@[i].1 == group@[i],
        call_ensures(P::compute_delay, (&policy, &group@[i], now), delay),
        i <= u32::MAX ==> timed@[i].0.nanos == now.nanos + 300_000_000 * i + delay.nanos,
        i >= u32::MAX ==> timed@[i].0.nanos == now.nanos + 300_000_000 * 0xffff_ffff + delay.nanos,
{
    assert(crate::schedule::timed_by(policy, group@[i], i, now, timed@[i].0));
    choose|delay: Duration|
        call_ensures(P::compute_delay, (&policy, &group@[i], now), delay) && timed@[i].0@
            == #[trigger] crate::schedule::attempt_nanos(now, i, delay)
}

/// A group is not timed only if the policy gives one of its routes a delay with which the route's
/// time would lie beyond the last instant. That must be so if all the delays that it gives for some
/// route are of that kind.
pub proof fn law_only_times_beyond_the_end_are_refused<R, P: RouteDelayPolicy<R>>(
    policy: P,
    group: ResolvedRoutes<R>,
    now: Instant,
    timed: Option<Vec<(Instant, R)>>,
    place: int,
) -> (result: (int, Duration))
    requires
        call_ensures(crate::schedule::time_routes::<R, P>, (&policy, group, now), timed),
    ensures
        timed is None ==> {
            let (i, delay) = result;
            &&& 0 <= i < group@.len()
            &&& call_ensures(P::compute_delay, (&policy, &group@[i], now), delay)
            &&& now.nanos + 300_000_000 * (if i <= u32::MAX {
                i
            } else {
                0xffff_ffff
            }) + delay.nanos > i128::MAX
        },
        0 <= place < group@.len() && place <= u32::MAX && (forall|delay: Duration| #[trigger]
            call_ensures(P::compute_delay, (&policy, &group@[place], now), delay) ==> now.nanos
                + 300_000_000 * place + delay.nanos > i128::MAX) ==> timed is None,
{
    if timed is Some && 0 <= place < group@.len() {
        let delay = law_routes_are_timed_by_their_places(policy, group, now, timed->Some_0, place);
    }
    choose|i: int, delay: Duration|
        0 <= i < group@.len() && call_ensures(
            P::compute_delay,
            (&policy, &group@[i], now),
            delay,
        ) && #[trigger] crate::schedule::attempt_nanos(now, i, delay) > i128::MAX
}

/// Routes of a group that the policy delays alike are attempted 300 milliseconds apart for each
/// place that lies between them, whatever those places are. So it is for all routes of a group with
/// a policy that delays none.
pub proof fn law_routes_delayed_alike_are_staggered<R, P: RouteDelayPolicy<R>>(
    policy: P,
    group: ResolvedRoutes<R>,
    now: Instant,
    timed: Vec<(Instant, R)>,
    i: int,
    j: int,
)
    requires
        call_ensures(
            crate::schedule::time_routes::<R, P>,
            (&policy, group, now),
            Some(timed),
        ),
        0 <= i <= j < group@.len(),
        j <= u32::MAX,
        forall|d: Duration, e: Duration| #[trigger]
            call_ensures(P::compute_delay, (&policy, &group@[i], now), d)
                && #[trigger] call_ensures(P::compute_delay, (&policy, &group@[j], now), e) ==> d
                == e,
    ensures
        timed@[j].0.nanos - timed@[i].0.nanos == 300_000_000 * (j - i),
{
    let d = law_routes_are_timed_by_their_places(policy, group, now, timed, i);
    let e = law_routes_are_timed_by_their_places(policy, group, now, timed, j);
}

/// Handing in a group adds each of its routes to the ones that wait, once and with its time, and
/// changes nothing else.
///
/// `timed` are the group's routes in order, each with the time that it waits for, and `delays` the
/// delays that the policy gives for them.
pub proof fn law_handed_in_routes_wait<R, M: Ord, SP: RouteDelayPolicy<R>>(
    schedule: &mut Schedule<R, M, SP>,
    item: (M, ResolvedRoutes<R>),
    now: Instant,
    input_terminated: bool,
    step: Step<R>,
)
    requires
        call_ensures(
            Schedule::<R, M, SP>::next,
            (schedule, Event::PulledFromResolver { pulled: Some(item), now }, input_terminated),
            step,
        ),
        step !is TimeOverflow,
    ensures
        exists|timed: Seq<(Instant, R)>, delays: Seq<Duration>|
            #![trigger timed.to_multiset(), delays.len()]
            {
                &&& timed.len() == item.1@.len()
                &&& delays.len() == item.1@.len()
                &&& final(schedule)@.delayed == old(schedule)@.delayed.add(timed.to_multiset())
                &&& forall|i: int| #![trigger timed[i]] #![trigger delays[i]]
                    0 <= i < timed.len() ==> {
                        &&& timed[i].1 == item.1@[i]
                        &&& call_ensures(
                            SP::compute_delay,
                            (&old(schedule).policy(), &item.1@[i], now),
                            delays[i],
                        )
                        &&& timed[i].0.nanos == now.nanos + 300_000_000 * (if i <= u32::MAX {
                            i
                        } else {
                            0xffff_ffff
                        }) + delays[i].nanos
                    }
            },
        final(schedule)@.groups == old(schedule)@.groups,
        final(schedule).policy() == old(schedule).policy(),
{
    let policy = old(schedule).policy();
    let timed = choose|timed: Seq<(Instant, R)>|
        {
            &&& #[trigger] crate::schedule::all_timed_by(policy, item.1@, now, timed)
            &&& final(schedule)@.delayed == old(schedule)@.delayed.add(timed.to_multiset())
        };
    let delays = Seq::new(
        timed.len(),
        |i: int|
            choose|delay: Duration|
                call_ensures(SP::compute_delay, (&policy, &item.1@[i], now), delay) && timed[i].0@
                    == #[trigger] crate::schedule::attempt_nanos(now, i, delay),
    );
    assert forall|i: int| #![trigger timed[i]] #![trigger delays[i]]
        0 <= i < timed.len() implies timed[i].1 == item.1@[i] && call_ensures(
        SP::compute_delay,
        (&policy, &item.1@[i], now),
        delays[i],
    ) && timed[i].0@ == crate::schedule::attempt_nanos(now, i, delays[i]) by {
        assert(crate::schedule::timed_by(policy, item.1@[i], i, now, timed[i].0));
    }
    assert(delays.len() == item.1@.len());
}

/// A group is refused only if the policy gives one of its routes a delay with which the route's
/// time would lie beyond the last instant. Nothing changes then.
pub proof fn law_refused_groups_change_nothing<R, M: Ord, SP: RouteDelayPolicy<R>>(
    schedule: &mut Schedule<R, M, SP>,
    event: Event<R, M>,
    input_terminated: bool,
) -> (result: (int, Duration))
    requires
        call_ensures(
            Schedule::<R, M, SP>::next,
            (schedule, event, input_terminated),
            Step::<R>::TimeOverflow,
        ),
    ensures
        event matches Event::PulledFromResolver { pulled: Some(item), now } && {
            let (i, delay) = result;
            &&& 0 <= i < item.1@.len()
            &&& call_ensures(
                SP::compute_delay,
                (&old(schedule).policy(), &item.1@[i], now),
                delay,
            )
            &&& now.nanos + 300_000_000 * (if i <= u32::MAX {
                i
            } else {
                0xffff_ffff
            }) + delay.nanos > i128::MAX
        },
        final(schedule)@.delayed == old(schedule)@.delayed,
        final(schedule)@.groups == old(schedule)@.groups,
        final(schedule).policy() == old(schedule).policy(),
{
    let item = event->pulled->Some_0;
    let now = event->now;
    let policy = old(schedule).policy();
    choose|i: int, delay: Duration|
        0 <= i < item.1@.len() && call_ensures(
            SP::compute_delay,
            (&policy, &item.1@[i], now),
            delay,
        ) && #[trigger] crate::schedule::attempt_nanos(now, i, delay) > i128::MAX
}

/// Unless the time of a route has come or a group is refused, a schedule is at its end just when
/// the resolver's input has terminated, no group is cached and no route waits.
/// Otherwise it waits for the resolver, unless that has nothing more to give, and for the earliest
/// of the times that routes wait for, if any does.
pub proof fn law_waits_for_all_that_may_come<R, M: Ord, SP: RouteDelayPolicy<R>>(
    schedule: &mut Schedule<R, M, SP>,
    event: Event<R, M>,
    input_terminated: bool,
    step: Step<R>,
    waiting: (Instant, R),
)
    requires
        call_ensures(Schedule::<R, M, SP>::next, (schedule, event, input_terminated), step),
        event !is ReturnNextIndividualRoute,
        step !is TimeOverflow,
    ensures
        step == Step::<R>::Return(None) <==> input_terminated && final(schedule)@.groups.len() == 0
            && final(schedule)@.delayed.len() == 0,
        step != Step::<R>::Return(None) ==> (step matches Step::Wait {
            sleep_until,
            pull_from_resolver,
        } && {
            &&& pull_from_resolver <==> !input_terminated || final(schedule)@.groups.len() > 0
            &&& sleep_until is None <==> final(schedule)@.delayed.len() == 0
            &&& sleep_until matches Some(time) ==> {
                &&& exists|route: R| #[trigger] final(schedule)@.delayed.contains((time, route))
                &&& final(schedule)@.delayed.contains(waiting) ==> time.nanos <= waiting.0.nanos
            }
        }),
        final(schedule)@.groups == old(schedule)@.groups,
        !(event matches Event::PulledFromResolver { pulled: Some(_), .. })
            ==> final(schedule)@.delayed == old(schedule)@.delayed,
        final(schedule).policy() == old(schedule).policy(),
{
    if let Step::Wait { sleep_until: Some(time), .. } = step {
        let route = choose|route: R| #[trigger]
            final(schedule)@.delayed.contains((time, route));
        assert(final(schedule)@.delayed.count((time, route)) <= final(schedule)@.delayed.len());
    }
}

/// When the time that was waited for has come, a route is handed out that waits for no later time
/// than any other, and just that route no longer waits.
pub proof fn law_earliest_route_is_handed_out<R, M: Ord, SP: RouteDelayPolicy<R>>(
    schedule: &mut Schedule<R, M, SP>,
    input_terminated: bool,
    step: Step<R>,
)
    requires
        call_ensures(
            Schedule::<R, M, SP>::next,
            (schedule, Event::ReturnNextIndividualRoute, input_terminated),
            step,
        ),
    ensures
        step matches Step::Return(Some(route)) && exists|time: Instant|
            {
                &&& #[trigger] old(schedule)@.delayed.contains((time, route))
                &&& final(schedule)@.delayed == old(schedule)@.delayed.remove((time, route))
                &&& forall|e: (Instant, R)| #[trigger]
                    old(schedule)@.delayed.contains(e) ==> time.nanos <= e.0.nanos
            },
        final(schedule)@.groups == old(schedule)@.groups,
        final(schedule).policy() == old(schedule).policy(),
{
    let e = choose|e: (Instant, R)|
        {
            &&& #[trigger] crate::queue::takes_first(
                old(schedule)@.delayed,
                e,
                final(schedule)@.delayed,
            )
            &&& step == Step::Return(Some(e.1))
        };
    assert forall|other: (Instant, R)| #[trigger]
        old(schedule)@.delayed.contains(other) implies e.0.nanos <= other.0.nanos by {
        assert(crate::queue::key_le(e.0, other.0));
    }
    if let Step::Return(Some(route)) = step {
        assert((e.0, route) == e);
        assert(old(schedule)@.delayed.contains((e.0, route)));
    }
}

/// Each call is a turn, so that what holds over turns holds over calls.
pub proof fn law_calls_are_turns<R, M: Ord, SP: RouteDelayPolicy<R>>(
    polled: &mut Schedule<R, M, SP>,
    input: InputPoll<(ResolvedRoutes<R>, M)>,
    out: ResolverPoll<R, M>,
    stepped: &mut Schedule<R, M, SP>,
    event: Event<R, M>,
    input_terminated: bool,
    step: Step<R>,
)
    requires
        call_ensures(Schedule::<R, M, SP>::poll_resolver, (polled, input), out),
        call_ensures(Schedule::<R, M, SP>::next, (stepped, event, input_terminated), step),
        step !is TimeOverflow,
    ensures
        crate::laws::takes_turn(
            old(polled)@,
            old(polled).policy(),
            Turn::Polled { input, out },
            final(polled)@,
        ),
        crate::laws::takes_turn(
            old(stepped)@,
            old(stepped).policy(),
            Turn::Stepped { event, input_terminated, step },
            final(stepped)@,
        ),
{
}

} // verus!
