//! What holds of the delays that follow from the record of connection outcomes.
//!
//! How delays grow is up to a [`DelayGrowth`], so most of this holds on condition that the growth is
//! well-behaved within the limits that it is asked for.

use vstd::prelude::*;

use crate::outcomes::{AttemptOutcome, ConnectionOutcomeParams, DelayGrowth};
use crate::time::{Duration, Instant};

verus! {

/// The growth gives `delay` for an age and a count within the limits.
pub open spec fn grows_within<G: DelayGrowth>(
    params: ConnectionOutcomeParams<G>,
    age: Duration,
    count: u8,
    delay: Duration,
) -> bool {
    &&& age@ <= params.age_cutoff@
    &&& count <= params.max_count
    &&& call_ensures(
        G::scale,
        (&params.growth, params.max_delay, age, params.age_cutoff, count, params.max_count),
        delay,
    )
}

/// The growth gives the same delay each time that it is asked for the same.
pub open spec fn grows_predictably<G: DelayGrowth>(params: ConnectionOutcomeParams<G>) -> bool {
    forall|age: Duration, count: u8, d: Duration, e: Duration| #[trigger]
        grows_within(params, age, count, d) && #[trigger] grows_within(params, age, count, e)
            ==> d@ == e@
}

/// The growth gives no more delay for older failures.
pub open spec fn shrinks_with_age<G: DelayGrowth>(params: ConnectionOutcomeParams<G>) -> bool {
    forall|age: Duration, older: Duration, count: u8, d: Duration, e: Duration|
        age@ <= older@ && #[trigger] grows_within(params, age, count, d)
            && #[trigger] grows_within(params, older, count, e) ==> e@ <= d@
}

/// The growth gives no less delay for more failures.
pub open spec fn grows_with_count<G: DelayGrowth>(params: ConnectionOutcomeParams<G>) -> bool {
    forall|age: Duration, count: u8, higher: u8, d: Duration, e: Duration|
        count <= higher && #[trigger] grows_within(params, age, count, d)
            && #[trigger] grows_within(params, age, higher, e) ==> d@ <= e@
}

/// The growth gives no less delay for failures that are neither older nor fewer.
pub open spec fn grows_monotonically<G: DelayGrowth>(params: ConnectionOutcomeParams<G>) -> bool {
    forall|age: Duration, older: Duration, count: u8, higher: u8, d: Duration, e: Duration|
        age@ <= older@ && count <= higher && #[trigger] grows_within(params, older, count, d)
            && #[trigger] grows_within(params, age, higher, e) ==> d@ <= e@
}

/// The growth gives some delay for any failure that is younger than the cutoff, and more delay for
/// failures that are more and not older.
pub open spec fn grows_strictly<G: DelayGrowth>(params: ConnectionOutcomeParams<G>) -> bool {
    &&& forall|age: Duration, count: u8, d: Duration|
        age@ < params.age_cutoff@ && 1 <= count && #[trigger] grows_within(params, age, count, d)
            ==> 0 < d@
    &&& forall|age: Duration, older: Duration, count: u8, higher: u8, d: Duration, e: Duration|
        age@ < params.age_cutoff@ && age@ <= older@ && count < higher && #[trigger] grows_within(
            params,
            older,
            count,
            d,
        ) && #[trigger] grows_within(params, age, higher, e) ==> d@ < e@
}

/// The growth gives no delay for failures that are as old as the cutoff.
pub open spec fn vanishes_at_cutoff<G: DelayGrowth>(params: ConnectionOutcomeParams<G>) -> bool {
    forall|count: u8, d: Duration| #[trigger]
        grows_within(params, params.age_cutoff, count, d) ==> d@ == 0
}

/// The growth never gives more than the maximal delay.
pub open spec fn stays_within_maximum<G: DelayGrowth>(params: ConnectionOutcomeParams<G>) -> bool {
    forall|age: Duration, count: u8, d: Duration| #[trigger]
        grows_within(params, age, count, d) ==> d@ <= params.max_delay@
}

/// The growth gives less than the maximal delay for fewer failures than the maximal count.
pub open spec fn stays_below_maximum<G: DelayGrowth>(params: ConnectionOutcomeParams<G>) -> bool {
    forall|age: Duration, count: u8, d: Duration|
        count < params.max_count && #[trigger] grows_within(params, age, count, d) ==> d@
            < params.max_delay@
}

/// The growth gives the maximal delay for as many failures as the maximal count, the last of them
/// just now.
pub open spec fn reaches_maximum<G: DelayGrowth>(params: ConnectionOutcomeParams<G>) -> bool {
    forall|age: Duration, d: Duration|
        age@ == 0 && #[trigger] grows_within(params, age, params.max_count, d) ==> d@
            == params.max_delay@
}

proof fn lemma_scales_within<G: DelayGrowth>(
    params: ConnectionOutcomeParams<G>,
    age: nat,
    count: u8,
    delay: Duration,
)
    requires
        crate::outcomes::scales_to(params, age, count, delay),
    ensures
        grows_within(
            params,
            crate::outcomes::capped_age(params, age),
            crate::outcomes::capped_count(params, count),
            delay,
        ),
        crate::outcomes::capped_age(params, age)@ == if age < params.age_cutoff@ {
            age
        } else {
            params.age_cutoff@
        },
{
}

/// Failures past the maximal count, and failures older than the cutoff, are judged just as ones at
/// the limit.
pub proof fn law_nothing_changes_past_the_limits<G: DelayGrowth>(
    params: ConnectionOutcomeParams<G>,
    age: nat,
    count: u8,
    delay: Duration,
)
    ensures
        params.max_count <= count ==> (crate::outcomes::scales_to(params, age, count, delay)
            <==> crate::outcomes::scales_to(params, age, params.max_count, delay)),
        params.age_cutoff@ <= age ==> (crate::outcomes::scales_to(params, age, count, delay)
            <==> crate::outcomes::scales_to(params, params.age_cutoff@, count, delay)),
{
}

/// The count has no effect past the maximal count, if the growth is predictable.
pub proof fn law_counts_past_the_limit_delay_alike<G: DelayGrowth>(
    params: ConnectionOutcomeParams<G>,
    age: nat,
    count: u8,
    delay: Duration,
    limit_delay: Duration,
)
    requires
        grows_predictably(params),
        params.max_count <= count,
        crate::outcomes::scales_to(params, age, count, delay),
        crate::outcomes::scales_to(params, age, params.max_count, limit_delay),
    ensures
        delay == limit_delay,
{
    lemma_scales_within(params, age, count, delay);
    lemma_scales_within(params, age, params.max_count, limit_delay);
}

/// Older failures cause no more delay, if that is so within the cutoff.
pub proof fn law_older_failures_delay_less<G: DelayGrowth>(
    params: ConnectionOutcomeParams<G>,
    count: u8,
    age: nat,
    delay: Duration,
    older: nat,
    older_delay: Duration,
)
    requires
        shrinks_with_age(params),
        age <= older,
        crate::outcomes::scales_to(params, age, count, delay),
        crate::outcomes::scales_to(params, older, count, older_delay),
    ensures
        older_delay@ <= delay@,
{
    lemma_scales_within(params, age, count, delay);
    lemma_scales_within(params, older, count, older_delay);
}

/// More consecutive failures cause no less delay, if that is so up to the maximal count.
pub proof fn law_more_failures_delay_more<G: DelayGrowth>(
    params: ConnectionOutcomeParams<G>,
    age: nat,
    count: u8,
    delay: Duration,
    higher: u8,
    higher_delay: Duration,
)
    requires
        grows_with_count(params),
        count <= higher,
        crate::outcomes::scales_to(params, age, count, delay),
        crate::outcomes::scales_to(params, age, higher, higher_delay),
    ensures
        delay@ <= higher_delay@,
{
    lemma_scales_within(params, age, count, delay);
    lemma_scales_within(params, age, higher, higher_delay);
}

/// Failures that are neither older nor fewer cause no less delay, if that is so within the limits.
pub proof fn law_delay_is_monotone<G: DelayGrowth>(
    params: ConnectionOutcomeParams<G>,
    age: nat,
    older: nat,
    count: u8,
    higher: u8,
    delay: Duration,
    longer_delay: Duration,
)
    requires
        grows_monotonically(params),
        age <= older,
        count <= higher,
        crate::outcomes::scales_to(params, older, count, delay),
        crate::outcomes::scales_to(params, age, higher, longer_delay),
    ensures
        delay@ <= longer_delay@,
{
    lemma_scales_within(params, older, count, delay);
    lemma_scales_within(params, age, higher, longer_delay);
}

/// Regardless of the count, failures that are too old cause no delay, if failures that are just
/// as old as the cutoff do not.
pub proof fn law_too_old_failures_do_not_delay<G: DelayGrowth>(
    params: ConnectionOutcomeParams<G>,
    age: nat,
    count: u8,
    delay: Duration,
)
    requires
        vanishes_at_cutoff(params),
        params.age_cutoff@ <= age,
        crate::outcomes::scales_to(params, age, count, delay),
    ensures
        delay@ == 0,
{
    lemma_scales_within(params, age, count, delay);
}

/// No number of failures of whatever age causes more than the maximal delay, if that is so within
/// the limits.
pub proof fn law_failures_delay_within_the_maximum<G: DelayGrowth>(
    params: ConnectionOutcomeParams<G>,
    age: nat,
    count: u8,
    delay: Duration,
)
    requires
        stays_within_maximum(params),
        crate::outcomes::scales_to(params, age, count, delay),
    ensures
        delay@ <= params.max_delay@,
{
    lemma_scales_within(params, age, count, delay);
}

/// Fewer failures than the maximal count cause less than the maximal delay, whatever their age, if
/// that is so within the cutoff.
pub proof fn law_fewer_failures_delay_below_the_maximum<G: DelayGrowth>(
    params: ConnectionOutcomeParams<G>,
    age: nat,
    count: u8,
    delay: Duration,
)
    requires
        stays_below_maximum(params),
        count < params.max_count,
        crate::outcomes::scales_to(params, age, count, delay),
    ensures
        delay@ < params.max_delay@,
{
    lemma_scales_within(params, age, count, delay);
}

/// As many failures as the maximal count, or more, cause just the maximal delay when the last of
/// them is recent, if the growth reaches it at the limit.
pub proof fn law_many_recent_failures_delay_the_most<G: DelayGrowth>(
    params: ConnectionOutcomeParams<G>,
    count: u8,
    delay: Duration,
)
    requires
        reaches_maximum(params),
        params.max_count <= count,
        crate::outcomes::scales_to(params, 0, count, delay),
    ensures
        delay == params.max_delay,
{
    lemma_scales_within(params, 0, count, delay);
}

/// No route is ever delayed by more than the maximal delay, if the growth stays within it.
pub proof fn law_no_route_is_delayed_beyond_the_maximum<R, G: DelayGrowth>(
    params: ConnectionOutcomeParams<G>,
    failures: Map<R, (Instant, u8)>,
    route: R,
    now: Instant,
    delay: Duration,
)
    requires
        stays_within_maximum(params),
        crate::outcomes::delays_by(params, failures, route, now, delay),
    ensures
        delay@ <= params.max_delay@,
{
    if failures.contains_key(route) {
        let (when, count) = failures[route];
        law_failures_delay_within_the_maximum(
            params,
            crate::time::elapsed(when, now),
            count,
            delay,
        );
    }
}

/// A route whose failures have reached the maximal count is delayed by just the maximal delay as of
/// its last failure, if the growth reaches it at the limit.
pub proof fn law_failing_route_is_delayed_by_the_maximum<R, G: DelayGrowth>(
    params: ConnectionOutcomeParams<G>,
    failures: Map<R, (Instant, u8)>,
    route: R,
    now: Instant,
    delay: Duration,
)
    requires
        reaches_maximum(params),
        failures.contains_key(route),
        params.max_count <= failures[route].1,
        now@ <= failures[route].0@,
        crate::outcomes::delays_by(params, failures, route, now, delay),
    ensures
        delay == params.max_delay,
{
    law_many_recent_failures_delay_the_most(params, failures[route].1, delay);
}

/// While nothing is added to the record, a route's delay does not get longer as time passes, if
/// older failures do not delay more within the cutoff.
pub proof fn law_delay_does_not_grow_with_time<R, G: DelayGrowth>(
    params: ConnectionOutcomeParams<G>,
    failures: Map<R, (Instant, u8)>,
    route: R,
    now: Instant,
    delay: Duration,
    later: Instant,
    later_delay: Duration,
)
    requires
        shrinks_with_age(params),
        now@ <= later@,
        crate::outcomes::delays_by(params, failures, route, now, delay),
        crate::outcomes::delays_by(params, failures, route, later, later_delay),
    ensures
        later_delay@ <= delay@,
{
    if failures.contains_key(route) {
        let (when, count) = failures[route];
        law_older_failures_delay_less(
            params,
            count,
            crate::time::elapsed(when, now),
            delay,
            crate::time::elapsed(when, later),
            later_delay,
        );
    }
}

/// What is recorded after an update with the outcome of a single attempt.
pub open spec fn updated_once<R, G>(
    params: ConnectionOutcomeParams<G>,
    failures: Map<R, (Instant, u8)>,
    route: R,
    outcome: AttemptOutcome,
    at: Instant,
) -> Map<R, (Instant, u8)> {
    crate::outcomes::record_all(
        crate::outcomes::remembered(failures, at, params.age_cutoff),
        seq![(route, outcome)],
        params.max_count,
    )
}

proof fn lemma_updated_once<R, G>(
    params: ConnectionOutcomeParams<G>,
    failures: Map<R, (Instant, u8)>,
    route: R,
    outcome: AttemptOutcome,
    at: Instant,
)
    ensures
        updated_once(params, failures, route, outcome, at) == crate::outcomes::record(
            crate::outcomes::remembered(failures, at, params.age_cutoff),
            route,
            outcome,
            params.max_count,
        ),
{
    let updates = seq![(route, outcome)];
    assert(updates.drop_last() =~= Seq::empty());
    assert(updates.last() == (route, outcome));
    reveal_with_fuel(crate::outcomes::record_all, 2);
}

/// A further failure never shortens a route's delay, if the growth is monotone and vanishes at the
/// cutoff. The failed attempt must not have started before the one that is on record, nor the delay
/// be asked for as of a time before the update.
pub proof fn law_further_failure_never_shortens_the_delay<R, G: DelayGrowth>(
    params: ConnectionOutcomeParams<G>,
    failures: Map<R, (Instant, u8)>,
    route: R,
    outcome: AttemptOutcome,
    at: Instant,
    now: Instant,
    delay: Duration,
    new_delay: Duration,
)
    requires
        grows_monotonically(params),
        vanishes_at_cutoff(params),
        outcome.result is Err,
        failures.contains_key(route) ==> failures[route].0@ <= outcome.started@,
        at@ <= now@,
        crate::outcomes::delays_by(params, failures, route, now, delay),
        crate::outcomes::delays_by(
            params,
            updated_once(params, failures, route, outcome, at),
            route,
            now,
            new_delay,
        ),
    ensures
        delay@ <= new_delay@,
{
    lemma_updated_once(params, failures, route, outcome, at);
    if failures.contains_key(route) {
        let (when, count) = failures[route];
        let age = crate::time::elapsed(when, now);
        let new_age = crate::time::elapsed(outcome.started, now);
        lemma_scales_within(params, age, count, delay);
        if crate::outcomes::is_remembered(when, at, params.age_cutoff) {
            let new_count = crate::outcomes::bumped(count, params.max_count);
            lemma_scales_within(params, new_age, new_count, new_delay);
        } else {
            law_too_old_failures_do_not_delay(params, age, count, delay);
        }
    }
}

/// A further failure makes a route's delay longer, if the route was below the maximal count or not
/// on record, the failed attempt is still younger than the cutoff, and the growth is strict and
/// vanishes at the cutoff.
pub proof fn law_further_failure_lengthens_the_delay<R, G: DelayGrowth>(
    params: ConnectionOutcomeParams<G>,
    failures: Map<R, (Instant, u8)>,
    route: R,
    outcome: AttemptOutcome,
    at: Instant,
    now: Instant,
    delay: Duration,
    new_delay: Duration,
)
    requires
        grows_strictly(params),
        vanishes_at_cutoff(params),
        1 <= params.max_count,
        outcome.result is Err,
        failures.contains_key(route) ==> failures[route].0@ <= outcome.started@
            && failures[route].1 < params.max_count,
        at@ <= now@,
        crate::time::elapsed(outcome.started, now) < params.age_cutoff@,
        crate::outcomes::delays_by(params, failures, route, now, delay),
        crate::outcomes::delays_by(
            params,
            updated_once(params, failures, route, outcome, at),
            route,
            now,
            new_delay,
        ),
    ensures
        delay@ < new_delay@,
{
    lemma_updated_once(params, failures, route, outcome, at);
    let new_age = crate::time::elapsed(outcome.started, now);
    let kept = crate::outcomes::remembered(failures, at, params.age_cutoff);
    let new_count = if kept.contains_key(route) {
        crate::outcomes::bumped(kept[route].1, params.max_count)
    } else {
        1u8
    };
    lemma_scales_within(params, new_age, new_count, new_delay);
    if failures.contains_key(route) {
        let (when, count) = failures[route];
        let age = crate::time::elapsed(when, now);
        lemma_scales_within(params, age, count, delay);
        if !crate::outcomes::is_remembered(when, at, params.age_cutoff) {
            law_too_old_failures_do_not_delay(params, age, count, delay);
        }
    }
}

/// An update that does not name a route leaves its delays alone from then on, if the growth is
/// predictable and vanishes at the cutoff: what the update forgets would not have caused any delay.
pub proof fn law_other_updates_leave_the_delay_alone<R, G: DelayGrowth>(
    params: ConnectionOutcomeParams<G>,
    failures: Map<R, (Instant, u8)>,
    updates: Seq<(R, AttemptOutcome)>,
    at: Instant,
    route: R,
    now: Instant,
    delay: Duration,
    new_delay: Duration,
)
    requires
        grows_predictably(params),
        vanishes_at_cutoff(params),
        forall|k: int| 0 <= k < updates.len() ==> (#[trigger] updates[k]).0 != route,
        at@ <= now@,
        crate::outcomes::delays_by(params, failures, route, now, delay),
        crate::outcomes::delays_by(
            params,
            crate::outcomes::record_all(
                crate::outcomes::remembered(failures, at, params.age_cutoff),
                updates,
                params.max_count,
            ),
            route,
            now,
            new_delay,
        ),
    ensures
        delay == new_delay,
{
    crate::outcomes::law_other_routes_do_not_matter(
        crate::outcomes::remembered(failures, at, params.age_cutoff),
        updates,
        params.max_count,
        route,
    );
    if failures.contains_key(route) {
        let (when, count) = failures[route];
        let age = crate::time::elapsed(when, now);
        lemma_scales_within(params, age, count, delay);
        if crate::outcomes::is_remembered(when, at, params.age_cutoff) {
            lemma_scales_within(params, age, count, new_delay);
        } else {
            law_too_old_failures_do_not_delay(params, age, count, delay);
        }
    }
}

} // verus!
