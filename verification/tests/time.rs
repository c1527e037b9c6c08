use route_schedule::time::{Duration, Instant};

#[test]
fn durations_count_nanoseconds() {
    assert_eq!(Duration::zero(), Duration { nanos: 0 });
    assert_eq!(Duration::from_secs(3).nanos, 3_000_000_000);
    assert_eq!(Duration::from_millis(300).nanos, 300_000_000);
    assert_eq!(Duration::from_secs(u64::MAX).nanos, u64::MAX as u128 * 1_000_000_000);
    assert_eq!(Duration::from_millis(1999).as_secs(), 1);
}

#[test]
fn elapsed_time_saturates_at_nothing() {
    let early = Instant { nanos: -5 };
    let late = Instant { nanos: 7 };
    assert_eq!(late.saturating_duration_since(early), Duration { nanos: 12 });
    assert_eq!(early.saturating_duration_since(late), Duration::zero());
    assert_eq!(late.saturating_duration_since(late), Duration::zero());
    assert_eq!(
        Instant { nanos: -1 }.saturating_duration_since(early),
        Duration { nanos: 4 }
    );
    assert_eq!(
        Instant { nanos: 9 }.saturating_duration_since(late),
        Duration { nanos: 2 }
    );
    assert_eq!(
        Instant { nanos: i128::MAX }.saturating_duration_since(Instant { nanos: i128::MIN }),
        Duration { nanos: u128::MAX }
    );
}

#[test]
fn adding_stops_at_the_last_instant() {
    let start = Instant { nanos: -5 };
    assert_eq!(start.checked_add(Duration { nanos: 8 }), Some(Instant { nanos: 3 }));
    assert_eq!(Instant { nanos: i128::MAX }.checked_add(Duration { nanos: 1 }), None);
    assert_eq!(
        Instant { nanos: i128::MIN }.checked_add(Duration { nanos: u128::MAX }),
        Some(Instant { nanos: i128::MAX })
    );
    assert_eq!(start.checked_add(Duration { nanos: u128::MAX }), None);
}

#[test]
fn times_are_ordered() {
    assert!(Instant { nanos: -1 } < Instant { nanos: 0 });
    assert!(!(Instant { nanos: 0 } < Instant { nanos: 0 }));
    assert!(Duration { nanos: 1 } < Duration { nanos: 2 });
    assert!(Duration { nanos: 2 } > Duration { nanos: 1 });
    assert_eq!(
        Instant { nanos: 4 }.max(Instant { nanos: 3 }),
        Instant { nanos: 4 }
    );
}
