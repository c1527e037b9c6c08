//! Points in time and spans of time, as plain integers of nanoseconds.

use core::cmp::Ordering;
use vstd::prelude::*;
use vstd::std_specs::cmp::PartialOrdSpec;

verus! {

/// A span of time, in whole nanoseconds.
#[derive(Clone, Copy, Debug, PartialEq, Eq, Ord, Hash, Structural)]
pub struct Duration {
    pub nanos: u128,
}

/// A point in time, in whole nanoseconds after (or before) an origin.
///
/// The origin is the caller's choice. All instants that meet in one value of this library must
/// share it.
#[derive(Clone, Copy, Debug, PartialEq, Eq, Ord, Hash, Structural)]
pub struct Instant {
    pub nanos: i128,
}

impl View for Duration {
    type V = nat;

    /// The span's length in nanoseconds.
    open spec fn view(&self) -> nat {
        self.nanos as nat
    }
}

impl View for Instant {
    type V = int;

    /// The signed distance from the origin in nanoseconds.
    open spec fn view(&self) -> int {
        self.nanos as int
    }
}

impl vstd::std_specs::cmp::PartialOrdSpecImpl for Duration {
    open spec fn obeys_partial_cmp_spec() -> bool {
        true
    }

    open spec fn partial_cmp_spec(&self, other: &Self) -> Option<Ordering> {
        if self.nanos < other.nanos {
            Some(Ordering::Less)
        } else if self.nanos == other.nanos {
            Some(Ordering::Equal)
        } else {
            Some(Ordering::Greater)
        }
    }
}

impl PartialOrd for Duration {
    fn partial_cmp(&self, other: &Self) -> (r: Option<Ordering>) {
        if self.nanos < other.nanos {
            Some(Ordering::Less)
        } else if self.nanos == other.nanos {
            Some(Ordering::Equal)
        } else {
            Some(Ordering::Greater)
        }
    }
}

impl vstd::std_specs::cmp::PartialOrdSpecImpl for Instant {
    open spec fn obeys_partial_cmp_spec() -> bool {
        true
    }

    open spec fn partial_cmp_spec(&self, other: &Self) -> Option<Ordering> {
        if self.nanos < other.nanos {
            Some(Ordering::Less)
        } else if self.nanos == other.nanos {
            Some(Ordering::Equal)
        } else {
            Some(Ordering::Greater)
        }
    }
}

impl PartialOrd for Instant {
    fn partial_cmp(&self, other: &Self) -> (r: Option<Ordering>) {
        if self.nanos < other.nanos {
            Some(Ordering::Less)
        } else if self.nanos == other.nanos {
            Some(Ordering::Equal)
        } else {
            Some(Ordering::Greater)
        }
    }
}

/// The longer of nothing and the span from `earlier` to `later`.
pub open spec fn elapsed(earlier: Instant, later: Instant) -> nat {
    if earlier@ < later@ {
        (later@ - earlier@) as nat
    } else {
        0
    }
}

impl Duration {
    /// The span of no time at all.
    pub fn zero() -> (d: Self)
        ensures
            d@ == 0,
    {
        Duration { nanos: 0 }
    }

    /// A span of the given number of seconds.
    pub fn from_secs(secs: u64) -> (d: Self)
        ensures
            d@ == secs * 1_000_000_000,
    {
        Duration { nanos: secs as u128 * 1_000_000_000 }
    }

    /// A span of the given number of milliseconds.
    pub fn from_millis(millis: u64) -> (d: Self)
        ensures
            d@ == millis * 1_000_000,
    {
        Duration { nanos: millis as u128 * 1_000_000 }
    }

    /// The number of whole seconds in this span.
    pub fn as_secs(&self) -> (secs: u128)
        ensures
            secs == self@ / 1_000_000_000,
    {
        self.nanos / 1_000_000_000
    }
}

impl Instant {
    /// How long after `earlier` this instant is, or nothing if it is not after it.
    pub fn saturating_duration_since(&self, earlier: Instant) -> (d: Duration)
        ensures
            d@ == elapsed(earlier, *self),
    {
        let (start, end): (i128, i128) = (earlier.nanos, self.nanos);
        let nanos: u128 = if end <= start {
            0
        } else if start >= 0 || end < 0 {
            (end - start) as u128
        } else {
            // `start` lies before the origin and `end` does not, so the two distances add up.
            end as u128 + (-(start + 1)) as u128 + 1
        };
        Duration { nanos }
    }

    /// The instant that is `delay` after this one, if there is such an instant.
    pub fn checked_add(&self, delay: Duration) -> (t: Option<Instant>)
        ensures
            t is Some <==> self@ + delay@ <= i128::MAX,
            t matches Some(t) ==> t@ == self@ + delay@,
    {
        match self.nanos.checked_add_unsigned(delay.nanos) {
            Some(nanos) => Some(Instant { nanos }),
            None => None,
        }
    }
}

/// Instants compare as their numbers of nanoseconds do.
pub proof fn law_instants_are_ordered_by_time(a: Instant, b: Instant)
    ensures
        Instant::obeys_partial_cmp_spec(),
        a.partial_cmp_spec(&b) == Some(Ordering::Less) <==> a.nanos < b.nanos,
        a.partial_cmp_spec(&b) == Some(Ordering::Equal) <==> a.nanos == b.nanos,
        a.partial_cmp_spec(&b) == Some(Ordering::Greater) <==> a.nanos > b.nanos,
{
}

/// Spans compare as their numbers of nanoseconds do.
pub proof fn law_spans_are_ordered_by_length(a: Duration, b: Duration)
    ensures
        Duration::obeys_partial_cmp_spec(),
        a.partial_cmp_spec(&b) == Some(Ordering::Less) <==> a.nanos < b.nanos,
        a.partial_cmp_spec(&b) == Some(Ordering::Equal) <==> a.nanos == b.nanos,
        a.partial_cmp_spec(&b) == Some(Ordering::Greater) <==> a.nanos > b.nanos,
{
}

/// The span since an earlier instant is the difference of the two, and the span since a later one
/// is nothing.
pub proof fn law_span_since_is_the_difference(later: Instant, earlier: Instant, d: Duration)
    requires
        call_ensures(Instant::saturating_duration_since, (&later, earlier), d),
    ensures
        earlier.nanos <= later.nanos ==> d.nanos == later.nanos - earlier.nanos,
        later.nanos <= earlier.nanos ==> d.nanos == 0,
{
}

/// Adding a span gives the instant that lies that much later, unless there is none.
pub proof fn law_adding_a_span_is_exact(start: Instant, delay: Duration, end: Option<Instant>)
    requires
        call_ensures(Instant::checked_add, (&start, delay), end),
    ensures
        end is None <==> start.nanos + delay.nanos > i128::MAX,
        end matches Some(end) ==> end.nanos == start.nanos + delay.nanos,
{
}

/// The span since the start is the span that was added to it.
pub proof fn law_added_spans_elapse(start: Instant, delay: Duration, end: Instant, d: Duration)
    requires
        call_ensures(Instant::checked_add, (&start, delay), Some(end)),
        call_ensures(Instant::saturating_duration_since, (&end, start), d),
    ensures
        d == delay,
{
}

/// A number of seconds is as long as a thousand times as many milliseconds, and has as many whole
/// seconds.
pub proof fn law_seconds_and_milliseconds_agree(
    secs: u64,
    millis: u64,
    a: Duration,
    b: Duration,
    whole: u128,
)
    requires
        millis == 1000 * secs,
        call_ensures(Duration::from_secs, (secs,), a),
        call_ensures(Duration::from_millis, (millis,), b),
        call_ensures(Duration::as_secs, (&a,), whole),
    ensures
        a.nanos == 1_000_000_000 * secs,
        a == b,
        whole == secs,
{
}

/// No time at all is no nanoseconds, and a span has as many whole seconds as fit into it.
pub proof fn law_whole_seconds_fit(none: Duration, d: Duration, whole: u128)
    requires
        call_ensures(Duration::zero, (), none),
        call_ensures(Duration::as_secs, (&d,), whole),
    ensures
        none.nanos == 0,
        1_000_000_000 * whole <= d.nanos < 1_000_000_000 * (whole + 1),
{
}

} // verus!
