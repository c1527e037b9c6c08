//! The order and the times in which to attempt connecting over resolved routes.
//!
//! [`Schedule`] decides, and whoever drives it waits: for the next group of routes to be resolved,
//! and for the time at which the next route is to be attempted.

use vstd::multiset::Multiset;
use vstd::prelude::*;

use crate::policy::RouteDelayPolicy;
use crate::queue::MinKeyValueQueue;
use crate::route::ResolvedRoutes;
use crate::stream::{swap_item, InputPoll, QueuedPoll, QueuedStream};
use crate::time::{Duration, Instant};

verus! {

/// How long to wait between attempts over routes of the same group, in milliseconds.
pub const HAPPY_EYEBALLS_DELAY_MILLIS: u64 = 300;

/// How long to wait between attempts over routes of the same group.
pub fn happy_eyeballs_delay() -> (d: Duration)
    ensures
        d@ == 300_000_000,
{
    Duration::from_millis(HAPPY_EYEBALLS_DELAY_MILLIS)
}

/// How much later than the first route of its group the route at `index` is attempted, in
/// nanoseconds.
pub open spec fn stagger(index: int) -> int {
    300_000_000 * if index < u32::MAX {
        index
    } else {
        u32::MAX as int
    }
}

/// When to attempt the route at `index` of a group that was pulled at `now`, if the policy delays
/// it by `delay`, in nanoseconds from the origin.
pub open spec fn attempt_nanos(now: Instant, index: int, delay: Duration) -> int {
    now@ + stagger(index) + delay@
}

/// When to attempt the route at `index` of a group that was pulled at `now`, if the policy delays
/// it by `delay`. There may be no such instant.
pub fn attempt_time(now: Instant, index: usize, delay: Duration) -> (time: Option<Instant>)
    ensures
        time is Some <==> attempt_nanos(now, index as int, delay) <= i128::MAX,
        time matches Some(t) ==> t@ == attempt_nanos(now, index as int, delay),
{
    let steps: u128 = if index < u32::MAX as usize {
        index as u128
    } else {
        u32::MAX as u128
    };
    match delay.nanos.checked_add(happy_eyeballs_delay().nanos * steps) {
        Some(nanos) => now.checked_add(Duration { nanos }),
        None => None,
    }
}

/// `time` is an instant for attempting `route`, the one at `index` of a group that was pulled at
/// `now`, according to a delay that the policy gives.
pub open spec fn timed_by<R, P: RouteDelayPolicy<R>>(
    policy: P,
    route: R,
    index: int,
    now: Instant,
    time: Instant,
) -> bool {
    exists|delay: Duration|
        call_ensures(P::compute_delay, (&policy, &route, now), delay) && time@
            == #[trigger] attempt_nanos(now, index, delay)
}

/// `timed` are the routes of a group that was pulled at `now`, each with an instant for attempting
/// it.
pub open spec fn all_timed_by<R, P: RouteDelayPolicy<R>>(
    policy: P,
    routes: Seq<R>,
    now: Instant,
    timed: Seq<(Instant, R)>,
) -> bool {
    &&& timed.len() == routes.len()
    &&& forall|i: int| #![trigger timed[i]]
        0 <= i < routes.len() ==> timed[i].1 == routes[i] && timed_by(
            policy,
            routes[i],
            i,
            now,
            timed[i].0,
        )
}

/// The policy gives one of the routes a delay for which there is no instant.
pub open spec fn some_untimed_by<R, P: RouteDelayPolicy<R>>(
    policy: P,
    routes: Seq<R>,
    now: Instant,
) -> bool {
    exists|i: int, delay: Duration|
        0 <= i < routes.len() && call_ensures(
            P::compute_delay,
            (&policy, &routes[i], now),
            delay,
        ) && #[trigger] attempt_nanos(now, i, delay) > i128::MAX
}

/// Finds out when to attempt each of a group's routes.
pub fn time_routes<R, P: RouteDelayPolicy<R>>(
    policy: &P,
    group: ResolvedRoutes<R>,
    now: Instant,
) -> (timed: Option<Vec<(Instant, R)>>)
    ensures
        match timed {
            Some(timed) => all_timed_by(*policy, group@, now, timed@),
            None => some_untimed_by(*policy, group@, now),
        },
{
    let mut timed: Vec<(Instant, R)> = Vec::new();
    let mut index: usize = 0;
    for route in it: group.into_iter()
        invariant
            it.seq() == group@,
            index == it.index(),
            timed@.len() == index,
            forall|i: int| #![trigger timed@[i]]
                0 <= i < index ==> timed@[i].1 == group@[i] && timed_by(
                    *policy,
                    group@[i],
                    i,
                    now,
                    timed@[i].0,
                ),
    {
        let delay = policy.compute_delay(&route, now);
        match attempt_time(now, index, delay) {
            Some(time) => {
                timed.push((time, route));
            },
            None => {
                return None;
            },
        }
        index = timed.len();
    }
    Some(timed)
}

/// What happened while the driver of a [`Schedule`] waited.
#[derive(Debug)]
pub enum Event<R, M> {
    /// Nothing yet: the next route has just been asked for.
    Started,
    /// The resolver emitted a group of routes at `now`, or ended.
    PulledFromResolver { pulled: Option<(M, ResolvedRoutes<R>)>, now: Instant },
    /// The time that was to be waited for has come.
    ReturnNextIndividualRoute,
}

/// What the driver of a [`Schedule`] is to do.
#[derive(Debug, PartialEq, Eq)]
pub enum Step<R> {
    /// Hand out this route as the next to try, or report that all routes are exhausted.
    Return(Option<R>),
    /// Wait for whichever of these comes first.
    Wait {
        /// The time at which a route is to be attempted.
        sleep_until: Option<Instant>,
        /// Whether more routes may come from the resolver.
        pull_from_resolver: bool,
    },
    /// There is no instant for attempting one of the routes that were pulled.
    TimeOverflow,
}

/// What pulling from the resolver comes to.
#[derive(Debug)]
pub enum ResolverPoll<R, M> {
    /// The resolver's input must be polled again first.
    PollInput,
    /// A group without routes was dropped; start pulling all over.
    Restart,
    /// The resolver emits a group of routes, or ends.
    Ready(Option<(M, ResolvedRoutes<R>)>),
    /// There are no resolved routes yet.
    Pending,
}

/// Schedules resolved routes for connection attempts in priority order.
///
/// The routes that [`next`](Self::next) hands out are the ones to attempt connecting over, in the
/// order in which they should be tried.
///
/// There are two min-heaps: one that orders [`ResolvedRoutes`] (groups of routes from the same
/// unresolved route) by their original order in the input, and a second that orders individual
/// routes by the time at which they should be attempted (based on the [`RouteDelayPolicy`]
/// provided).
#[derive(Debug)]
pub struct Schedule<R, M: Ord, SP> {
    resolver_stream: QueuedStream<M, ResolvedRoutes<R>>,
    scoring_policy: SP,
    delayed_individual_routes: MinKeyValueQueue<Instant, R>,
}

/// The routes that a schedule holds.
#[verifier::ext_equal]
pub struct ScheduleState<R, M> {
    /// The groups that came from the resolver's input and were not pulled yet.
    pub groups: Multiset<(M, ResolvedRoutes<R>)>,
    /// The routes that wait for their time, with that time.
    pub delayed: Multiset<(Instant, R)>,
}

/// What pulling comes to, given what the sorting stream's poll came to.
pub open spec fn without_empty_group<R, M>(
    polled: QueuedPoll<(M, ResolvedRoutes<R>)>,
) -> ResolverPoll<R, M> {
    match polled {
        QueuedPoll::PollInput => ResolverPoll::PollInput,
        QueuedPoll::Pending => ResolverPoll::Pending,
        QueuedPoll::Ready(None) => ResolverPoll::Ready(None),
        QueuedPoll::Ready(Some(item)) => if item.1@.len() == 0 {
            ResolverPoll::Restart
        } else {
            ResolverPoll::Ready(Some(item))
        },
    }
}

/// What pulling from the resolver comes to, and which routes are held afterwards.
pub open spec fn pull_outcome<R, M: Ord>(
    before: ScheduleState<R, M>,
    input: InputPoll<(ResolvedRoutes<R>, M)>,
    out: ResolverPoll<R, M>,
    after: ScheduleState<R, M>,
) -> bool {
    &&& after.delayed == before.delayed
    &&& exists|polled: QueuedPoll<(M, ResolvedRoutes<R>)>|
        {
            &&& #[trigger] crate::stream::poll_outcome(
                before.groups,
                crate::stream::swapped_item(input),
                polled,
                after.groups,
            )
            &&& out == without_empty_group(polled)
        }
}

/// `time` is the earliest at which one of the routes is to be attempted.
pub open spec fn is_earliest<R>(delayed: Multiset<(Instant, R)>, time: Instant) -> bool {
    &&& exists|route: R| #[trigger] delayed.contains((time, route))
    &&& forall|e: (Instant, R)| #[trigger] delayed.contains(e) ==> time@ <= e.0@
}

/// Neither the schedule nor the resolver has any more routes.
pub open spec fn is_exhausted<R, M>(state: ScheduleState<R, M>, input_terminated: bool) -> bool {
    &&& input_terminated
    &&& state.groups.len() == 0
    &&& state.delayed.len() == 0
}

/// What to do with nothing else to be dealt with: stop if there are no more routes, and otherwise
/// wait for the ones that there are.
pub open spec fn wait_outcome<R, M>(
    state: ScheduleState<R, M>,
    input_terminated: bool,
    step: Step<R>,
) -> bool {
    if is_exhausted(state, input_terminated) {
        step == Step::<R>::Return(None)
    } else {
        &&& step matches Step::Wait { sleep_until, pull_from_resolver }
        &&& pull_from_resolver == !(input_terminated && state.groups.len() == 0)
        &&& match sleep_until {
            None => state.delayed.len() == 0,
            Some(time) => is_earliest(state.delayed, time),
        }
    }
}

/// What to do about an event, and which routes are held afterwards.
pub open spec fn next_outcome<R, M: Ord, SP: RouteDelayPolicy<R>>(
    before: ScheduleState<R, M>,
    policy: SP,
    event: Event<R, M>,
    input_terminated: bool,
    step: Step<R>,
    after: ScheduleState<R, M>,
) -> bool {
    &&& after.groups == before.groups
    &&& match event {
        Event::Started | Event::PulledFromResolver { pulled: None, .. } => {
            &&& after.delayed == before.delayed
            &&& wait_outcome(after, input_terminated, step)
        },
        Event::PulledFromResolver { pulled: Some(item), now } => {
            if step is TimeOverflow {
                &&& after.delayed == before.delayed
                &&& some_untimed_by(policy, item.1@, now)
            } else {
                &&& exists|timed: Seq<(Instant, R)>|
                    {
                        &&& #[trigger] all_timed_by(policy, item.1@, now, timed)
                        &&& after.delayed == before.delayed.add(timed.to_multiset())
                    }
                &&& wait_outcome(after, input_terminated, step)
            }
        },
        Event::ReturnNextIndividualRoute => {
            exists|e: (Instant, R)|
                {
                    &&& #[trigger] crate::queue::takes_first(before.delayed, e, after.delayed)
                    &&& step == Step::Return(Some(e.1))
                }
        },
    }
}

impl<R, M: Ord, SP> View for Schedule<R, M, SP> {
    type V = ScheduleState<R, M>;

    /// The routes that the schedule holds.
    closed spec fn view(&self) -> ScheduleState<R, M> {
        ScheduleState {
            groups: self.resolver_stream@,
            delayed: self.delayed_individual_routes@,
        }
    }
}

impl<R, M: Ord, SP> Schedule<R, M, SP> {
    /// The policy that decides how much to delay a route.
    pub closed spec fn policy(&self) -> SP {
        self.scoring_policy
    }
}

impl<R, M: Ord, SP: RouteDelayPolicy<R>> Schedule<R, M, SP> {
    pub fn new(previous_attempts: SP) -> (schedule: Self)
        requires
            crate::queue::keys_ordered::<M>(),
        ensures
            schedule.policy() == previous_attempts,
            schedule@.groups == Multiset::<(M, ResolvedRoutes<R>)>::empty(),
            schedule@.delayed == Multiset::<(Instant, R)>::empty(),
    {
        Schedule {
            resolver_stream: QueuedStream::new(),
            delayed_individual_routes: MinKeyValueQueue::new(),
            scoring_policy: previous_attempts,
        }
    }

    /// Pulls from the resolver, given what is known of its input.
    ///
    /// Groups come in the order of their metadata, as far as they have been resolved. Groups
    /// without routes are left out.
    pub fn poll_resolver(
        &mut self,
        input: InputPoll<(ResolvedRoutes<R>, M)>,
    ) -> (out: ResolverPoll<R, M>)
        ensures
            pull_outcome(old(self)@, input, out, final(self)@),
            final(self).policy() == old(self).policy(),
    {
        let polled = self.resolver_stream.poll_next(swap_item(input));
        proof {
            assert(crate::stream::poll_outcome(
                old(self)@.groups,
                crate::stream::swapped_item(input),
                polled,
                self@.groups,
            ));
        }
        match polled {
            QueuedPoll::PollInput => ResolverPoll::PollInput,
            QueuedPoll::Pending => ResolverPoll::Pending,
            QueuedPoll::Ready(None) => ResolverPoll::Ready(None),
            QueuedPoll::Ready(Some(item)) => if item.1.is_empty() {
                ResolverPoll::Restart
            } else {
                ResolverPoll::Ready(Some(item))
            },
        }
    }

    /// Finds the next route to try, or that all routes are exhausted, as far as that follows from
    /// what has just happened and from whether the resolver's input has terminated.
    ///
    /// While the answer is to wait, this is to be called again with what was waited for. See the
    /// type-level documentation for the order in which routes are handed out.
    pub fn next(&mut self, event: Event<R, M>, input_terminated: bool) -> (step: Step<R>)
        requires
            event is ReturnNextIndividualRoute ==> old(self)@.delayed.len() > 0,
        ensures
            next_outcome(
                old(self)@,
                old(self).policy(),
                event,
                input_terminated,
                step,
                final(self)@,
            ),
            final(self).policy() == old(self).policy(),
    {
        match event {
            Event::Started => {},
            // The resolver has nothing more to give. Whether that was all shows below.
            Event::PulledFromResolver { pulled: None, .. } => {},
            Event::PulledFromResolver { pulled: Some((_meta, group)), now } => {
                match time_routes(&self.scoring_policy, group, now) {
                    Some(timed) => {
                        self.delay_routes(timed);
                    },
                    None => {
                        return Step::TimeOverflow;
                    },
                }
            },
            Event::ReturnNextIndividualRoute => {
                let (time, route) = self.delayed_individual_routes.pop().unwrap();
                proof {
                    assert(crate::queue::takes_first(
                        old(self)@.delayed,
                        (time, route),
                        self@.delayed,
                    ));
                }
                return Step::Return(Some(route));
            },
        }
        self.wait(input_terminated)
    }

    /// Adds routes that wait for their time.
    fn delay_routes(&mut self, timed: Vec<(Instant, R)>)
        ensures
            final(self)@.groups == old(self)@.groups,
            final(self)@.delayed == old(self)@.delayed.add(timed@.to_multiset()),
            final(self).policy() == old(self).policy(),
    {
        broadcast use vstd::seq_lib::group_to_multiset_ensures;

        assert(timed@.take(0) =~= Seq::<(Instant, R)>::empty());
        for item in it: timed.into_iter()
            invariant
                it.seq() == timed@,
                self@.groups == old(self)@.groups,
                self@.delayed =~= old(self)@.delayed.add(
                    timed@.take(it.index()).to_multiset(),
                ),
                self.policy() == old(self).policy(),
        {
            broadcast use vstd::seq_lib::group_to_multiset_ensures;

            self.delayed_individual_routes.push(item);
            assert(timed@.take(it.index() + 1) =~= timed@.take(it.index()).push(item));
        }
        assert(timed@.take(timed@.len() as int) =~= timed@);
    }

    /// What to wait for, if there is anything to wait for.
    fn wait(&self, input_terminated: bool) -> (step: Step<R>)
        ensures
            wait_outcome(self@, input_terminated, step),
    {
        let sleep_until = match self.delayed_individual_routes.peek() {
            Some((time, _route)) => Some(*time),
            None => None,
        };
        let pull_from_resolver = !self.resolver_stream.is_terminated(input_terminated);
        if sleep_until.is_none() && !pull_from_resolver {
            return Step::Return(None);
        }
        Step::Wait { sleep_until, pull_from_resolver }
    }
}

} // verus!
