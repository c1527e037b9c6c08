use route_schedule::outcomes::{
    AttemptOutcome, ConnectionOutcomeParams, ConnectionOutcomes, DelayGrowth, UnsuccessfulOutcome,
};
use route_schedule::policy::RouteDelayPolicy;
use route_schedule::time::{Duration, Instant};

/// Exponential growth with the number of failures, exponential decay with their age.
struct Exponential {
    cooldown_growth_factor: f32,
    count_growth_factor: f32,
}

impl DelayGrowth for Exponential {
    fn scale(
        &self,
        max_delay: Duration,
        age: Duration,
        age_cutoff: Duration,
        count: u8,
        max_count: u8,
    ) -> Duration {
        let count_factor = {
            let normalized_count = count as f32 / max_count as f32;
            let numerator = self.count_growth_factor.powf(normalized_count) - 1.0;
            let denominator = self.count_growth_factor - 1.0;
            numerator / denominator
        };
        let age_factor = {
            let normalized_age = (age.nanos as f32 / age_cutoff.nanos as f32).min(1.0);
            let numerator =
                self.cooldown_growth_factor - self.cooldown_growth_factor.powf(normalized_age);
            let denominator = self.cooldown_growth_factor - 1.0;
            numerator / denominator
        };
        let factor = (age_factor * count_factor).clamp(0.0, 1.0);
        let max_delay = std::time::Duration::new(
            max_delay.as_secs() as u64,
            (max_delay.nanos % 1_000_000_000) as u32,
        );
        Duration { nanos: max_delay.mul_f32(factor).as_nanos() }
    }
}

/// A growth that shows what it was asked for.
struct Shown;

impl DelayGrowth for Shown {
    fn scale(
        &self,
        max_delay: Duration,
        age: Duration,
        age_cutoff: Duration,
        count: u8,
        max_count: u8,
    ) -> Duration {
        let digits = [
            max_delay.nanos,
            age.nanos,
            age_cutoff.nanos,
            count as u128,
            max_count as u128,
        ];
        let mut nanos: u128 = 0;
        for digit in digits {
            assert!(digit < 1000);
            nanos = nanos * 1000 + digit;
        }
        Duration { nanos }
    }
}

fn shown(max_count: u8) -> ConnectionOutcomes<&'static str, Shown> {
    ConnectionOutcomes::new(ConnectionOutcomeParams {
        age_cutoff: Duration { nanos: 100 },
        growth: Shown,
        max_count,
        max_delay: Duration { nanos: 50 },
    })
}

fn at(nanos: i128) -> Instant {
    Instant { nanos }
}

fn failed(nanos: i128) -> AttemptOutcome {
    AttemptOutcome { started: at(nanos), result: Err(UnsuccessfulOutcome) }
}

fn succeeded(nanos: i128) -> AttemptOutcome {
    AttemptOutcome { started: at(nanos), result: Ok(()) }
}

fn plus(start: Instant, delay: Duration) -> Instant {
    start.checked_add(delay).expect("in range")
}

const ROUTE: &str = "route";

fn record_outcome(
    outcomes: &mut ConnectionOutcomes<&'static str, Exponential>,
    route: &'static str,
    started: Instant,
    connect_duration: Duration,
    result: Result<(), UnsuccessfulOutcome>,
) {
    outcomes.apply_outcome_updates(
        vec![(route, AttemptOutcome { started, result })],
        plus(started, connect_duration),
    )
}

#[test]
fn connection_outcomes_delays_failing_route() {
    const MAX_COUNT: u8 = 5;
    let mut outcomes = ConnectionOutcomes::new(ConnectionOutcomeParams {
        age_cutoff: Duration::from_secs(1000),
        growth: Exponential { cooldown_growth_factor: 2.0, count_growth_factor: 10.0 },
        max_count: MAX_COUNT,
        max_delay: Duration::from_secs(100),
    });

    let start = at(123_456_789);

    // Without any information, the delay should be zero.
    assert_eq!(outcomes.compute_delay(&ROUTE, start), Duration::zero());

    let connect_delay = Duration::from_secs(10);
    let mut delays: Vec<Duration> = vec![];
    let mut now = start;
    for _ in 0..=MAX_COUNT {
        // Record that the previous connection attempt failed after the connect delay.
        record_outcome(&mut outcomes, ROUTE, now, connect_delay, Err(UnsuccessfulOutcome));
        now = plus(now, connect_delay);

        // Compute the new delay and "wait" for it to elapse before the next connection attempt.
        let delay = outcomes.compute_delay(&ROUTE, now);
        delays.push(delay);
        now = plus(now, delay);
    }

    assert_eq!(
        delays.iter().map(Duration::as_secs).collect::<Vec<_>>(),
        [6, 16, 32, 58, 99, 99]
    );
}

#[test]
fn connection_outcomes_delays_decrease_over_time() {
    const MAX_COUNT: u8 = 5;
    let mut outcomes = ConnectionOutcomes::new(ConnectionOutcomeParams {
        age_cutoff: Duration::from_secs(1000),
        growth: Exponential { cooldown_growth_factor: 2.0, count_growth_factor: 10.0 },
        max_count: MAX_COUNT,
        max_delay: Duration::from_secs(100),
    });

    let start = at(-987_654_321);
    record_outcome(&mut outcomes, ROUTE, start, Duration::zero(), Err(UnsuccessfulOutcome));

    let delays: Vec<Duration> = (0..=5)
        .map(|i| {
            let when = plus(start, Duration::from_secs(i * 200));
            outcomes.compute_delay(&ROUTE, when)
        })
        .collect();

    assert_eq!(
        delays.iter().map(Duration::as_secs).collect::<Vec<_>>(),
        [6, 5, 4, 3, 1, 0]
    );
}

#[test]
fn connection_outcome_delay_bounds() {
    const COUNT_CUTOFF: u8 = 5;
    let max_delay = Duration::from_secs(10);
    let age_cutoff = Duration::from_secs(100);

    for cooldown_growth_factor in [1.1f32, 2.0, 7.5, 42.0, 99.9] {
        for count_growth_factor in [1.1f32, 2.0, 7.5, 42.0, 99.9] {
            let params = ConnectionOutcomeParams {
                age_cutoff,
                growth: Exponential { cooldown_growth_factor, count_growth_factor },
                max_count: COUNT_CUTOFF,
                max_delay,
            };

            // Lots of failures, the last one recent.
            assert_eq!(params.compute_delay(Duration::zero(), COUNT_CUTOFF), max_delay);

            for count in 0..COUNT_CUTOFF {
                // Regardless of the count, the delay is zero if the information is too old.
                assert_eq!(params.compute_delay(age_cutoff, count), Duration::zero());

                for age_seconds in 0..100 {
                    let delay = params.compute_delay(Duration::from_secs(age_seconds), count);
                    // The delay should always be less than the configured max.
                    assert!(delay < max_delay);
                }
            }
        }
    }
}

#[test]
fn growth_is_asked_within_the_limits() {
    let params = ConnectionOutcomeParams {
        age_cutoff: Duration { nanos: 100 },
        growth: Shown,
        max_count: 4,
        max_delay: Duration { nanos: 50 },
    };
    let delay = |age: u128, count: u8| params.compute_delay(Duration { nanos: age }, count).nanos;
    assert_eq!(delay(7, 3), 50_007_100_003_004);
    assert_eq!(delay(99, 4), 50_099_100_004_004);
    assert_eq!(delay(100, 5), 50_100_100_004_004);
    assert_eq!(delay(u128::MAX, u8::MAX), 50_100_100_004_004);
}

#[test]
fn failures_count_up_to_the_limit() {
    let mut outcomes = shown(3);
    for (i, count) in [1, 2, 3, 3, 3].into_iter().enumerate() {
        outcomes.apply_outcome_updates(vec![(ROUTE, failed(i as i128))], at(10));
        let age = 10 - i as u128;
        assert_eq!(
            outcomes.compute_delay(&ROUTE, at(10)).nanos,
            50_000_100_000_003 + age * 1_000_000_000 + count * 1_000
        );
    }
}

#[test]
fn failures_count_up_from_any_record() {
    let mut outcomes = shown(6);
    outcomes.apply_outcome_updates(vec![("other", failed(0)), ("other", failed(0))], at(1));
    // Two failures of another route are no failures of this one.
    outcomes.apply_outcome_updates((0..3).map(|i| (ROUTE, failed(i))).collect(), at(4));
    assert_eq!(outcomes.compute_delay(&ROUTE, at(4)).nanos, 50_002_100_003_006);
    // They count on from the two that there were.
    outcomes.apply_outcome_updates((0..3).map(|i| ("other", failed(i))).collect(), at(4));
    assert_eq!(outcomes.compute_delay(&"other", at(4)).nanos, 50_002_100_005_006);
    outcomes.apply_outcome_updates((0..3).map(|i| ("other", failed(i))).collect(), at(4));
    assert_eq!(outcomes.compute_delay(&"other", at(4)).nanos, 50_002_100_006_006);
}

#[test]
fn first_failure_counts_whatever_the_limit() {
    let mut outcomes = shown(0);
    outcomes.apply_outcome_updates(vec![(ROUTE, failed(0))], at(0));
    outcomes.apply_outcome_updates(vec![(ROUTE, failed(0))], at(0));
    assert_eq!(outcomes.compute_delay(&ROUTE, at(0)).nanos, 50_000_100_000_000);
}

#[test]
fn success_wipes_the_record_of_its_route() {
    let mut outcomes = shown(3);
    outcomes.apply_outcome_updates(
        vec![
            ("other", failed(1)),
            (ROUTE, failed(1)),
            (ROUTE, failed(2)),
            (ROUTE, succeeded(3)),
            ("unknown", succeeded(3)),
        ],
        at(4),
    );
    assert_eq!(outcomes.compute_delay(&ROUTE, at(4)), Duration::zero());
    assert_eq!(outcomes.compute_delay(&"other", at(4)).nanos, 50_003_100_001_003);

    // A later failure counts from one again.
    outcomes.apply_outcome_updates(vec![(ROUTE, failed(4))], at(4));
    assert_eq!(outcomes.compute_delay(&ROUTE, at(4)).nanos, 50_000_100_001_003);
}

#[test]
fn old_failures_are_forgotten() {
    let mut outcomes = shown(3);
    outcomes.apply_outcome_updates(vec![("old", failed(0)), ("young", failed(1))], at(1));
    // A failure is still known at the cutoff, though as one that is as old as can be.
    assert_eq!(outcomes.compute_delay(&"old", at(100)).nanos, 50_100_100_001_003);
    // Only an update ages out the entries.
    outcomes.apply_outcome_updates(vec![], at(100));
    assert_eq!(outcomes.compute_delay(&"old", at(100)), Duration::zero());
    assert_eq!(outcomes.compute_delay(&"young", at(100)).nanos, 50_099_100_001_003);
    // A failure after that counts from one.
    outcomes.apply_outcome_updates(vec![("old", failed(100)), ("young", failed(100))], at(100));
    assert_eq!(outcomes.compute_delay(&"old", at(100)).nanos, 50_000_100_001_003);
    assert_eq!(outcomes.compute_delay(&"young", at(100)).nanos, 50_000_100_002_003);
}

#[test]
fn failures_in_the_future_are_fresh() {
    let mut outcomes = shown(3);
    outcomes.apply_outcome_updates(vec![(ROUTE, failed(50))], at(10));
    outcomes.apply_outcome_updates(vec![], at(20));
    assert_eq!(outcomes.compute_delay(&ROUTE, at(20)).nanos, 50_000_100_001_003);
}

#[test]
fn updates_may_be_split() {
    let mut whole = shown(5);
    whole.apply_outcome_updates(
        vec![("a", failed(1)), ("b", failed(2)), ("a", failed(3)), ("b", succeeded(4))],
        at(9),
    );
    let mut split = shown(5);
    split.apply_outcome_updates(vec![("a", failed(1)), ("b", failed(2))], at(9));
    split.apply_outcome_updates(vec![("a", failed(3)), ("b", succeeded(4))], at(9));
    for route in ["a", "b"] {
        assert_eq!(whole.compute_delay(&route, at(9)), split.compute_delay(&route, at(9)));
    }
}

#[test]
fn the_highest_count_stays() {
    let mut outcomes = shown(u8::MAX);
    let many: Vec<_> = (0..254).map(|_| (ROUTE, failed(1))).collect();
    outcomes.apply_outcome_updates(many, at(2));
    assert_eq!(outcomes.compute_delay(&ROUTE, at(9)).nanos, 50_008_100_254_255);
    outcomes.apply_outcome_updates(vec![(ROUTE, failed(1))], at(2));
    assert_eq!(outcomes.compute_delay(&ROUTE, at(9)).nanos, 50_008_100_255_255);
    // One more failure is as recent as can be, and the count is as high as before.
    outcomes.apply_outcome_updates(
        vec![("before", failed(2)), (ROUTE, failed(3)), ("after", failed(2))],
        at(3),
    );
    assert_eq!(outcomes.compute_delay(&ROUTE, at(9)).nanos, 50_006_100_255_255);
    assert_eq!(outcomes.compute_delay(&"before", at(9)).nanos, 50_007_100_001_255);
    assert_eq!(outcomes.compute_delay(&"after", at(9)).nanos, 50_007_100_001_255);
    outcomes.apply_outcome_updates(vec![(ROUTE, succeeded(4))], at(4));
    assert_eq!(outcomes.compute_delay(&ROUTE, at(9)), Duration::zero());
}

#[test]
fn further_failures_never_shorten_the_delay() {
    let mut outcomes = ConnectionOutcomes::new(ConnectionOutcomeParams {
        age_cutoff: Duration::from_secs(1000),
        growth: Exponential { cooldown_growth_factor: 2.0, count_growth_factor: 10.0 },
        max_count: 5,
        max_delay: Duration::from_secs(100),
    });
    for i in 0..8 {
        let now = plus(at(0), Duration::from_secs(i * 100));
        let before = outcomes.compute_delay(&ROUTE, now);
        record_outcome(&mut outcomes, ROUTE, now, Duration::zero(), Err(UnsuccessfulOutcome));
        let after = outcomes.compute_delay(&ROUTE, now);
        assert!(before < after);
        // The information gets less relevant from then on.
        assert!(outcomes.compute_delay(&ROUTE, plus(now, Duration::from_secs(1))) < after);
    }
}

#[test]
fn delays_reach_the_maximum_and_no_more() {
    let max_delay = Duration::from_secs(100);
    let mut outcomes = ConnectionOutcomes::new(ConnectionOutcomeParams {
        age_cutoff: Duration::from_secs(1000),
        growth: Exponential { cooldown_growth_factor: 2.0, count_growth_factor: 10.0 },
        max_count: 5,
        max_delay,
    });
    for count in 1..=8 {
        record_outcome(&mut outcomes, ROUTE, at(0), Duration::zero(), Err(UnsuccessfulOutcome));
        let delay = outcomes.compute_delay(&ROUTE, at(0));
        if count < 5 {
            assert!(delay < max_delay);
        } else {
            assert_eq!(delay, max_delay);
        }
        assert!(outcomes.compute_delay(&ROUTE, plus(at(0), Duration::from_secs(1))) < max_delay);
    }
}

#[test]
fn other_updates_leave_the_delay_alone() {
    let mut outcomes = ConnectionOutcomes::new(ConnectionOutcomeParams {
        age_cutoff: Duration::from_secs(1000),
        growth: Exponential { cooldown_growth_factor: 2.0, count_growth_factor: 10.0 },
        max_count: 5,
        max_delay: Duration::from_secs(100),
    });
    record_outcome(&mut outcomes, ROUTE, at(0), Duration::zero(), Err(UnsuccessfulOutcome));
    for secs in [0, 1, 500, 999, 1000, 2000] {
        let now = plus(at(0), Duration::from_secs(secs));
        let before = outcomes.compute_delay(&ROUTE, now);
        record_outcome(&mut outcomes, "other", now, Duration::zero(), Err(UnsuccessfulOutcome));
        assert_eq!(outcomes.compute_delay(&ROUTE, now), before);
    }
}

#[test]
fn references_to_policies_are_policies() {
    fn delay<P: RouteDelayPolicy<&'static str>>(policy: P) -> Duration {
        policy.compute_delay(&ROUTE, at(2))
    }
    let mut outcomes = shown(3);
    outcomes.apply_outcome_updates(vec![(ROUTE, failed(1))], at(2));
    assert_eq!(delay(&outcomes).nanos, 50_001_100_001_003);
    assert_eq!(delay(&&outcomes).nanos, 50_001_100_001_003);
}
