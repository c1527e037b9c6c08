use std::collections::{HashMap, HashSet, VecDeque};

use route_schedule::policy::RouteDelayPolicy;
use route_schedule::route::{
    mark_positions, IpAddr, ResolveMeta, ResolvedRoute, ResolvedRoutes, RouteResolver,
};
use route_schedule::schedule::{
    attempt_time, happy_eyeballs_delay, Event, ResolverPoll, Schedule, Step,
};
use route_schedule::stream::InputPoll;
use route_schedule::time::{Duration, Instant};

struct NoDelay;

impl<R> RouteDelayPolicy<R> for NoDelay {
    fn compute_delay(&self, _route: &R, _now: Instant) -> Duration {
        Duration::zero()
    }
}

/// Delays some routes, and not the others.
struct Delays(HashMap<&'static str, Duration>);

impl RouteDelayPolicy<&'static str> for Delays {
    fn compute_delay(&self, route: &&'static str, _now: Instant) -> Duration {
        self.0.get(route).copied().unwrap_or(Duration::zero())
    }
}

#[derive(Copy, Clone, Debug, PartialEq, Eq, Hash)]
struct FakeRoute<A>(A);

struct LookupResult {
    ipv4: Vec<IpAddr>,
    ipv6: Vec<IpAddr>,
}

const V4_1: IpAddr = IpAddr::V4(0x01020304);
const V6_1: IpAddr = IpAddr::V6(0x1234);
const V4_2: IpAddr = IpAddr::V4(0x05060708);
const V6_2: IpAddr = IpAddr::V6(0x5678);

/// Looks names up in a table, with IPv6 addresses first.
fn lookup(
    names: &HashMap<&'static str, LookupResult>,
    route: FakeRoute<&'static str>,
) -> Result<ResolvedRoutes<IpAddr>, ()> {
    let found = names.get(route.0).ok_or(())?;
    let addresses = found.ipv6.iter().chain(found.ipv4.iter());
    Ok(ResolvedRoutes::new(addresses.copied().collect()))
}

/// A clock that stands still but for the waits, and an input that has some items at given times.
struct Driver<R> {
    clock: Instant,
    input: VecDeque<(Instant, (ResolvedRoutes<R>, ResolveMeta))>,
    input_terminated: bool,
}

impl<R> Driver<R> {
    fn new(start: Instant, groups: Vec<(u64, ResolvedRoutes<R>, ResolveMeta)>) -> Self {
        let input = groups
            .into_iter()
            .map(|(millis, group, meta)| (later(start, millis), (group, meta)))
            .collect();
        Driver { clock: start, input, input_terminated: false }
    }

    fn poll_input(&mut self) -> InputPoll<(ResolvedRoutes<R>, ResolveMeta)> {
        match self.input.front() {
            None => {
                self.input_terminated = true;
                InputPoll::Ended
            }
            Some((time, _)) if *time > self.clock => InputPoll::Pending,
            Some(_) => InputPoll::Ready(self.input.pop_front().unwrap().1),
        }
    }

    fn pull<SP: RouteDelayPolicy<R>>(
        &mut self,
        schedule: &mut Schedule<R, ResolveMeta, SP>,
    ) -> Option<Event<R, ResolveMeta>> {
        let mut polled = if self.input_terminated {
            InputPoll::Terminated
        } else {
            self.poll_input()
        };
        loop {
            match schedule.poll_resolver(polled) {
                ResolverPoll::PollInput => polled = self.poll_input(),
                ResolverPoll::Restart => return self.pull(schedule),
                ResolverPoll::Ready(pulled) => {
                    return Some(Event::PulledFromResolver { pulled, now: self.clock })
                }
                ResolverPoll::Pending => return None,
            }
        }
    }

    fn next<SP: RouteDelayPolicy<R>>(
        &mut self,
        schedule: &mut Schedule<R, ResolveMeta, SP>,
    ) -> Option<R> {
        let mut event = Event::Started;
        loop {
            match schedule.next(event, self.input_terminated) {
                Step::Return(route) => return route,
                Step::TimeOverflow => panic!("overflow when adding duration to instant"),
                Step::Wait { sleep_until, pull_from_resolver } => {
                    let pulled = if pull_from_resolver { self.pull(schedule) } else { None };
                    event = match pulled {
                        Some(pulled) => pulled,
                        None => {
                            let input_time = self.input.front().map(|(time, _)| *time);
                            match (sleep_until, input_time) {
                                (Some(time), Some(input)) if input < time => {
                                    self.clock = self.clock.max(input);
                                    Event::Started
                                }
                                (Some(time), _) => {
                                    self.clock = self.clock.max(time);
                                    Event::ReturnNextIndividualRoute
                                }
                                (None, Some(input)) => {
                                    self.clock = self.clock.max(input);
                                    Event::Started
                                }
                                (None, None) => Event::Started,
                            }
                        }
                    };
                }
            }
        }
    }

    fn collect<SP: RouteDelayPolicy<R>>(
        mut self,
        mut schedule: Schedule<R, ResolveMeta, SP>,
    ) -> Vec<(R, Duration)> {
        let start = self.clock;
        let mut routes: Vec<(R, Duration)> = vec![];
        while let Some(route) = self.next(&mut schedule) {
            routes.push((route, self.clock.saturating_duration_since(start)));
        }
        // Once exhausted, the schedule stays so.
        assert!(self.next(&mut schedule).is_none());
        routes
    }
}

fn later(start: Instant, millis: u64) -> Instant {
    start.checked_add(Duration::from_millis(millis)).expect("in range")
}

fn group(routes: &[&'static str]) -> ResolvedRoutes<&'static str> {
    ResolvedRoutes::new(routes.to_vec())
}

fn meta(original_group_index: usize) -> ResolveMeta {
    ResolveMeta { original_group_index }
}

const START: Instant = Instant { nanos: 1_000_000_007 };

fn resolve_all(
    names: &HashMap<&'static str, LookupResult>,
    routes: Vec<FakeRoute<&'static str>>,
) -> Vec<(u64, ResolvedRoutes<IpAddr>, ResolveMeta)> {
    let resolver = RouteResolver { allow_ipv6: true };
    mark_positions(routes)
        .into_iter()
        .filter_map(|(route, meta)| resolver.resolve(lookup(names, route), meta))
        .map(|(group, meta)| (0, group, meta))
        .collect()
}

#[test]
fn single_resolved_route_e2e() {
    let names = HashMap::from([(
        "domain-name",
        LookupResult { ipv4: vec![V4_1], ipv6: vec![V6_1] },
    )]);
    let groups = resolve_all(&names, vec![FakeRoute("domain-name")]);
    let schedule = Driver::new(START, groups).collect(Schedule::new(NoDelay));
    let schedule: Vec<_> = schedule.into_iter().map(|(r, t)| (FakeRoute(r), t)).collect();

    assert_eq!(
        schedule,
        vec![
            (FakeRoute(V6_1), Duration::zero()),
            (FakeRoute(V4_1), happy_eyeballs_delay()),
        ]
    );
}

#[test]
fn multiple_resolved_routes_e2e() {
    let names = HashMap::from([
        ("name-1", LookupResult { ipv4: vec![V4_1], ipv6: vec![V6_1] }),
        ("name-2", LookupResult { ipv4: vec![V4_2], ipv6: vec![V6_2] }),
    ]);
    let groups = resolve_all(&names, vec![FakeRoute("name-1"), FakeRoute("name-2")]);
    let schedule = Driver::new(START, groups).collect(Schedule::new(NoDelay));

    // Compare with HashSet since the ordering isn't deterministic because the resolution is
    // instantaneous.
    let schedule: HashSet<_> = schedule.into_iter().map(|(r, t)| (FakeRoute(r), t)).collect();
    assert_eq!(
        schedule,
        HashSet::from([
            (FakeRoute(V6_1), Duration::zero()),
            (FakeRoute(V4_1), happy_eyeballs_delay()),
            (FakeRoute(V6_2), Duration::zero()),
            (FakeRoute(V4_2), happy_eyeballs_delay()),
        ])
    );
}

#[test]
fn nothing_to_schedule() {
    let driver: Driver<&str> = Driver::new(START, vec![]);
    assert_eq!(driver.collect(Schedule::new(NoDelay)), vec![]);

    // Groups without routes make no difference.
    let empty = vec![(0, group(&[]), meta(0)), (5, group(&[]), meta(1))];
    assert_eq!(Driver::new(START, empty).collect(Schedule::new(NoDelay)), vec![]);
}

#[test]
fn policy_delays_add_to_the_stagger() {
    let delays = Delays(HashMap::from([
        ("a1", Duration::from_millis(1000)),
        ("a3", Duration::from_millis(100)),
    ]));
    let groups = vec![(0, group(&["a1", "a2", "a3"]), meta(0))];
    assert_eq!(
        Driver::new(START, groups).collect(Schedule::new(delays)),
        vec![
            ("a2", Duration::from_millis(300)),
            ("a3", Duration::from_millis(700)),
            ("a1", Duration::from_millis(1000)),
        ]
    );
}

#[test]
fn groups_are_timed_from_when_they_were_pulled() {
    let groups = vec![
        (0, group(&["b1", "b2", "b3"]), meta(1)),
        (400, group(&["a1", "a2"]), meta(0)),
    ];
    assert_eq!(
        Driver::new(START, groups).collect(Schedule::new(NoDelay)),
        vec![
            ("b1", Duration::zero()),
            ("b2", Duration::from_millis(300)),
            ("a1", Duration::from_millis(400)),
            ("b3", Duration::from_millis(600)),
            ("a2", Duration::from_millis(700)),
        ]
    );
}

#[test]
fn groups_at_hand_are_pulled_in_order() {
    let mut schedule: Schedule<&str, ResolveMeta, NoDelay> = Schedule::new(NoDelay);
    for index in [2, 0, 3, 1] {
        let routes: &[&'static str] = if index == 0 { &[] } else { &["route"] };
        assert!(matches!(
            schedule.poll_resolver(InputPoll::Ready((group(routes), meta(index)))),
            ResolverPoll::PollInput
        ));
    }
    // The group at position zero has no routes.
    assert!(matches!(schedule.poll_resolver(InputPoll::Pending), ResolverPoll::Restart));
    for index in [1, 2, 3] {
        match schedule.poll_resolver(InputPoll::Pending) {
            ResolverPoll::Ready(Some((pulled, _))) => assert_eq!(pulled, meta(index)),
            other => panic!("unexpected {other:?}"),
        }
    }
    assert!(matches!(schedule.poll_resolver(InputPoll::Pending), ResolverPoll::Pending));
    assert!(matches!(schedule.poll_resolver(InputPoll::Ended), ResolverPoll::Ready(None)));
    assert!(matches!(schedule.poll_resolver(InputPoll::Terminated), ResolverPoll::Ready(None)));
}

#[test]
fn steps_say_what_to_wait_for() {
    let mut schedule: Schedule<&str, ResolveMeta, NoDelay> = Schedule::new(NoDelay);
    let wait = |sleep_until, pull_from_resolver| Step::Wait { sleep_until, pull_from_resolver };

    assert_eq!(schedule.next(Event::Started, false), wait(None, true));
    assert_eq!(schedule.next(Event::Started, true), Step::Return(None));

    // A cached group keeps the resolver going after its input has terminated.
    schedule.poll_resolver(InputPoll::Ready((group(&["x", "y"]), meta(0))));
    assert_eq!(schedule.next(Event::Started, true), wait(None, true));
    let pulled = match schedule.poll_resolver(InputPoll::Terminated) {
        ResolverPoll::Ready(pulled) => pulled,
        other => panic!("unexpected {other:?}"),
    };

    let event = Event::PulledFromResolver { pulled, now: START };
    assert_eq!(schedule.next(event, true), wait(Some(START), false));
    assert_eq!(
        schedule.next(Event::ReturnNextIndividualRoute, true),
        Step::Return(Some("x"))
    );
    let event = Event::PulledFromResolver { pulled: None, now: START };
    assert_eq!(schedule.next(event, false), wait(Some(later(START, 300)), true));
    assert_eq!(
        schedule.next(Event::ReturnNextIndividualRoute, true),
        Step::Return(Some("y"))
    );
    assert_eq!(schedule.next(Event::Started, true), Step::Return(None));
}

#[test]
fn every_route_is_returned_once() {
    let names: Vec<&'static str> = vec!["a", "b", "c", "d", "e", "f", "g"];
    let groups = vec![
        (0, group(&names[0..3]), meta(2)),
        (0, group(&[]), meta(1)),
        (700, group(&names[3..4]), meta(0)),
        (700, group(&names[4..7]), meta(3)),
        // The same route may come more than once.
        (900, group(&names[0..1]), meta(4)),
    ];
    let routes = Driver::new(START, groups).collect(Schedule::new(NoDelay));
    assert!(routes.windows(2).all(|w| w[0].1 <= w[1].1));
    let mut returned: Vec<_> = routes.into_iter().map(|(route, _)| route).collect();
    returned.sort();
    assert_eq!(returned, vec!["a", "a", "b", "c", "d", "e", "f", "g"]);
}

#[test]
fn routes_keep_time_order_as_groups_arrive() {
    // Each group arrives while routes of the ones before it still wait.
    let names: Vec<&'static str> = vec!["a", "b", "c", "d", "e", "f", "g", "h"];
    let groups = (0..4)
        .map(|i| (i as u64 * 250, group(&names[i * 2..i * 2 + 2]), meta(3 - i)))
        .collect();
    let millis = Duration::from_millis;
    assert_eq!(
        Driver::new(START, groups).collect(Schedule::new(NoDelay)),
        vec![
            ("a", millis(0)),
            ("c", millis(250)),
            ("b", millis(300)),
            ("e", millis(500)),
            ("d", millis(550)),
            ("g", millis(750)),
            ("f", millis(800)),
            ("h", millis(1050)),
        ]
    );
}

#[test]
fn waiting_routes_keep_their_times() {
    let delays = Delays(HashMap::from([("slow", Duration::from_millis(950))]));
    let mut schedule = Schedule::new(delays);
    let pulled = |routes: &[&'static str], now: Instant| Event::PulledFromResolver {
        pulled: Some((meta(0), group(routes))),
        now,
    };
    let wait = |millis| Step::Wait {
        sleep_until: Some(later(START, millis)),
        pull_from_resolver: false,
    };
    assert_eq!(schedule.next(pulled(&["slow", "a"], START), true), wait(300));
    // Groups that are handed in later do not change what the others wait for.
    let event = pulled(&["b", "slow"], later(START, 100));
    assert_eq!(schedule.next(event, true), wait(100));
    for (route, millis) in [("b", 300), ("a", 950), ("slow", 1350)] {
        let returned = schedule.next(Event::ReturnNextIndividualRoute, true);
        assert_eq!(returned, Step::Return(Some(route)));
        assert_eq!(schedule.next(Event::Started, true), wait(millis));
    }
}

#[test]
fn times_beyond_the_last_instant_are_reported() {
    let mut schedule: Schedule<&str, ResolveMeta, NoDelay> = Schedule::new(NoDelay);
    let last = Instant { nanos: i128::MAX };
    let event = Event::PulledFromResolver { pulled: Some((meta(0), group(&["a"]))), now: last };
    assert_eq!(
        schedule.next(event, true),
        Step::Wait { sleep_until: Some(last), pull_from_resolver: false }
    );
    let event =
        Event::PulledFromResolver { pulled: Some((meta(1), group(&["b", "c"]))), now: last };
    assert_eq!(schedule.next(event, true), Step::TimeOverflow);
    // Nothing of that group is scheduled.
    assert_eq!(
        schedule.next(Event::ReturnNextIndividualRoute, true),
        Step::Return(Some("a"))
    );
    assert_eq!(schedule.next(Event::Started, true), Step::Return(None));
}

#[test]
fn attempts_are_staggered() {
    let at = |index: usize, delay: u64| attempt_time(START, index, Duration::from_millis(delay));
    assert_eq!(happy_eyeballs_delay(), Duration::from_millis(300));
    assert_eq!(at(0, 0), Some(START));
    assert_eq!(at(0, 25), Some(later(START, 25)));
    assert_eq!(at(1, 0), Some(later(START, 300)));
    assert_eq!(at(7, 11), Some(later(START, 2111)));
    let longest = u32::MAX as u64 * 300;
    assert_eq!(at(u32::MAX as usize, 0), Some(later(START, longest)));
    assert_eq!(at(usize::MAX, 1), Some(later(START, longest + 1)));
    assert_eq!(attempt_time(START, 0, Duration { nanos: u128::MAX }), None);
    assert_eq!(attempt_time(START, 1, Duration { nanos: u128::MAX }), None);
}

#[test]
fn routes_are_pruned_before_they_are_scheduled() {
    let resolver = RouteResolver { allow_ipv6: false };
    let resolution: Result<_, ()> = Ok(ResolvedRoutes::new(vec![V6_1, V4_1, V6_2, V4_2]));
    let (pruned, pruned_meta) = resolver.resolve(resolution, meta(0)).expect("resolved");
    let routes = Driver::new(START, vec![(0, pruned, pruned_meta)]).collect(Schedule::new(NoDelay));
    assert!(routes.iter().all(|(route, _)| route.immediate_target().is_ipv4()));
    assert_eq!(
        routes,
        vec![(V4_1, Duration::zero()), (V4_2, happy_eyeballs_delay())]
    );
}
