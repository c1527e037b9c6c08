//! How much to delay a route.

use vstd::prelude::*;

use crate::time::{Duration, Instant};

verus! {

/// A policy object that decides how much to delay a route.
pub trait RouteDelayPolicy<R> {
    /// Given a route, how much should it be delayed by?
    fn compute_delay(&self, route: &R, now: Instant) -> Duration;
}

impl<P: RouteDelayPolicy<R>, R> RouteDelayPolicy<R> for &P {
    fn compute_delay(&self, route: &R, now: Instant) -> (delay: Duration)
        ensures
            call_ensures(P::compute_delay, (*self, route, now), delay),
    {
        P::compute_delay(self, route, now)
    }
}

} // verus!
