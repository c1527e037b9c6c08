//! What becomes of the record of connection outcomes, and what delays follow from it, in terms of
//! the attempts and their times.

use std::hash::Hash;
use vstd::prelude::*;

use crate::outcomes::{AttemptOutcome, ConnectionOutcomeParams, ConnectionOutcomes, DelayGrowth};
use crate::policy::RouteDelayPolicy;
use crate::time::{Duration, Instant};

verus! {

/// The attempts on a route, first to last.
pub open spec fn attempts_on<R>(
    updates: Seq<(R, AttemptOutcome)>,
    route: R,
) -> Seq<(R, AttemptOutcome)> {
    updates.filter(|update: (R, AttemptOutcome)| update.0 == route)
}

proof fn lemma_attempts_on_more<R>(updates: Seq<(R, AttemptOutcome)>, start: int, route: R)
    requires
        0 <= start < updates.len(),
    ensures
        attempts_on(updates.skip(start), route) == if updates.last().0 == route {
            attempts_on(updates.drop_last().skip(start), route).push(updates.last())
        } else {
            attempts_on(updates.drop_last().skip(start), route)
        },
{
    reveal(Seq::filter);
    let late = updates.skip(start);
    assert(late.drop_last() =~= updates.drop_last().skip(start));
    assert(late.last() == updates.last());
}

proof fn lemma_recorded<R>(
    failures: Map<R, (Instant, u8)>,
    updates: Seq<(R, AttemptOutcome)>,
    max_count: u8,
    route: R,
    start: int,
)
    requires
        0 <= start <= updates.len(),
        0 < start ==> updates[start - 1].0 == route && updates[start - 1].1.result is Ok,
        forall|k: int|
            start <= k < updates.len() && (#[trigger] updates[k]).0 == route
                ==> updates[k].1.result is Err,
    ensures
        ({
            let late = attempts_on(updates.skip(start), route);
            let known = start == 0 && failures.contains_key(route);
            let before: int = if known {
                failures[route].1 as int
            } else {
                0
            };
            let after = crate::outcomes::record_all(failures, updates, max_count);
            if late.len() == 0 {
                &&& after.contains_key(route) <==> known
                &&& known ==> after[route] == failures[route]
            } else {
                &&& after.contains_key(route)
                &&& after[route].0 == late.last().1.started
                &&& after[route].1 == if !known && late.len() == 1 {
                    1
                } else if before + late.len() < max_count {
                    before + late.len()
                } else {
                    max_count as int
                }
            }
        }),
    decreases updates.len(),
{
    if updates.len() == start {
        assert(updates.skip(start) =~= Seq::empty());
        reveal(Seq::filter);
    } else {
        let fewer = updates.drop_last();
        assert forall|k: int|
            start <= k < fewer.len() && (#[trigger] fewer[k]).0
                == route implies fewer[k].1.result is Err by {
            assert(fewer[k] == updates[k]);
        }
        lemma_recorded(failures, fewer, max_count, route, start);
        lemma_attempts_on_more(updates, start, route);
        assert(updates[updates.len() - 1] == updates.last());
    }
}

/// What an update leaves on record of a route, whatever was on record and whatever the attempts.
///
/// The attempts before `start` do not matter, since the last of them on this route was a success;
/// all that follow on this route failed. A failure that was on record counts if it is younger than
/// the cutoff as of the update and no success follows. With no further failure it is what stays on
/// record. Otherwise the last failed attempt is, and the count goes up by one for each of them, to
/// the limit at most, except that a first failure always counts.
pub proof fn law_update_decides_the_record<R: Hash + Eq, G>(
    outcomes: &mut ConnectionOutcomes<R, G>,
    updates: Vec<(R, AttemptOutcome)>,
    now: Instant,
    route: R,
    start: int,
)
    requires
        vstd::std_specs::hash::obeys_key_model::<R>(),
        call_ensures(
            ConnectionOutcomes::<R, G>::apply_outcome_updates,
            (outcomes, updates, now),
            (),
        ),
        0 <= start <= updates@.len(),
        0 < start ==> updates@[start - 1].0 == route && updates@[start - 1].1.result is Ok,
        forall|k: int|
            start <= k < updates@.len() && (#[trigger] updates@[k]).0 == route
                ==> updates@[k].1.result is Err,
    ensures
        ({
            let params = old(outcomes).params();
            let recorded = old(outcomes)@;
            let late = attempts_on(updates@.skip(start), route);
            let known = start == 0 && recorded.contains_key(route) && 0 < params.age_cutoff.nanos
                && now.nanos - recorded[route].0.nanos < params.age_cutoff.nanos;
            let before: int = if known {
                recorded[route].1 as int
            } else {
                0
            };
            let after = final(outcomes)@;
            if late.len() == 0 {
                &&& after.contains_key(route) <==> known
                &&& known ==> after[route] == recorded[route]
            } else {
                &&& after.contains_key(route)
                &&& after[route].0 == late.last().1.started
                &&& after[route].1 == if !known && late.len() == 1 {
                    1
                } else if before + late.len() < params.max_count {
                    before + late.len()
                } else {
                    params.max_count as int
                }
            }
        }),
        final(outcomes).params() == old(outcomes).params(),
{
    let params = old(outcomes).params();
    let kept = crate::outcomes::remembered(old(outcomes)@, now, params.age_cutoff);
    lemma_recorded(kept, updates@, params.max_count, route, start);
}

/// For every route there is a place in the updates from which on they decide, as
/// [`law_update_decides_the_record`] has it.
pub proof fn law_update_has_a_deciding_part<R>(
    updates: Seq<(R, AttemptOutcome)>,
    route: R,
) -> (start: int)
    ensures
        0 <= start <= updates.len(),
        0 < start ==> updates[start - 1].0 == route && updates[start - 1].1.result is Ok,
        forall|k: int|
            start <= k < updates.len() && (#[trigger] updates[k]).0 == route
                ==> updates[k].1.result is Err,
    decreases updates.len(),
{
    if updates.len() == 0 {
        0
    } else if updates.last().0 == route && updates.last().1.result is Ok {
        updates.len() as int
    } else {
        let start = law_update_has_a_deciding_part(updates.drop_last(), route);
        assert forall|k: int|
            start <= k < updates.len() && (#[trigger] updates[k]).0
                == route implies updates[k].1.result is Err by {
            if k < updates.len() - 1 {
                assert(updates.drop_last()[k] == updates[k]);
            }
        }
        start
    }
}

proof fn lemma_no_attempts_on<R>(updates: Seq<(R, AttemptOutcome)>, route: R)
    requires
        forall|k: int| 0 <= k < updates.len() ==> (#[trigger] updates[k]).0 != route,
    ensures
        attempts_on(updates, route).len() == 0,
    decreases updates.len(),
{
    reveal(Seq::filter);
    if updates.len() > 0 {
        let fewer = updates.drop_last();
        assert forall|k: int| 0 <= k < fewer.len() implies (#[trigger] fewer[k]).0 != route by {
            assert(fewer[k] == updates[k]);
        }
        lemma_no_attempts_on(fewer, route);
        assert(updates[updates.len() - 1].0 != route);
    }
}

/// An update forgets a failure that is as old as the cutoff or older, unless the route failed
/// again, and it forgets no other failure of a route that it does not name.
pub proof fn law_old_failures_are_forgotten<R: Hash + Eq, G>(
    outcomes: &mut ConnectionOutcomes<R, G>,
    updates: Vec<(R, AttemptOutcome)>,
    now: Instant,
    route: R,
)
    requires
        vstd::std_specs::hash::obeys_key_model::<R>(),
        call_ensures(
            ConnectionOutcomes::<R, G>::apply_outcome_updates,
            (outcomes, updates, now),
            (),
        ),
        forall|k: int| 0 <= k < updates@.len() ==> (#[trigger] updates@[k]).0 != route,
        old(outcomes)@.contains_key(route),
    ensures
        now.nanos - old(outcomes)@[route].0.nanos >= old(outcomes).params().age_cutoff.nanos
            ==> !final(outcomes)@.contains_key(route),
        now.nanos - old(outcomes)@[route].0.nanos < old(outcomes).params().age_cutoff.nanos && 0
            < old(outcomes).params().age_cutoff.nanos ==> final(outcomes)@.contains_key(route)
            && final(outcomes)@[route] == old(outcomes)@[route],
{
    law_update_decides_the_record(outcomes, updates, now, route, 0);
    assert(updates@.skip(0) =~= updates@);
    lemma_no_attempts_on(updates@, route);
}

/// An update does not put routes on record that it does not name.
pub proof fn law_unnamed_routes_stay_unknown<R: Hash + Eq, G>(
    outcomes: &mut ConnectionOutcomes<R, G>,
    updates: Vec<(R, AttemptOutcome)>,
    now: Instant,
    route: R,
)
    requires
        vstd::std_specs::hash::obeys_key_model::<R>(),
        call_ensures(
            ConnectionOutcomes::<R, G>::apply_outcome_updates,
            (outcomes, updates, now),
            (),
        ),
        forall|k: int| 0 <= k < updates@.len() ==> (#[trigger] updates@[k]).0 != route,
        !old(outcomes)@.contains_key(route),
    ensures
        !final(outcomes)@.contains_key(route),
{
    law_update_decides_the_record(outcomes, updates, now, route, 0);
    assert(updates@.skip(0) =~= updates@);
    lemma_no_attempts_on(updates@, route);
}

proof fn lemma_single_attempt_on<R>(updates: Seq<(R, AttemptOutcome)>, route: R, j: int)
    requires
        0 <= j < updates.len(),
        forall|k: int| 0 <= k < updates.len() ==> ((#[trigger] updates[k]).0 == route <==> k == j),
    ensures
        attempts_on(updates, route) == seq![updates[j]],
    decreases updates.len(),
{
    reveal(Seq::filter);
    let fewer = updates.drop_last();
    assert(updates[updates.len() - 1] == updates.last());
    if j < fewer.len() {
        assert forall|k: int| 0 <= k < fewer.len() implies ((#[trigger] fewer[k]).0 == route <==> k
            == j) by {
            assert(fewer[k] == updates[k]);
        }
        lemma_single_attempt_on(fewer, route, j);
    } else {
        assert forall|k: int| 0 <= k < fewer.len() implies (#[trigger] fewer[k]).0 != route by {
            assert(fewer[k] == updates[k]);
        }
        lemma_no_attempts_on(fewer, route);
        assert(attempts_on(updates, route) =~= seq![updates[j]]);
    }
}

/// A route that fails once more than was on record: a failure that is as old as the cutoff or older
/// does not count, and a younger one does, up to the limit.
///
/// Attempt `j` is the only one on the route in the update.
pub proof fn law_old_failures_do_not_count<R: Hash + Eq, G>(
    outcomes: &mut ConnectionOutcomes<R, G>,
    updates: Vec<(R, AttemptOutcome)>,
    now: Instant,
    j: int,
)
    requires
        vstd::std_specs::hash::obeys_key_model::<R>(),
        call_ensures(
            ConnectionOutcomes::<R, G>::apply_outcome_updates,
            (outcomes, updates, now),
            (),
        ),
        0 <= j < updates@.len(),
        updates@[j].1.result is Err,
        forall|k: int|
            0 <= k < updates@.len() && k != j ==> (#[trigger] updates@[k]).0 != updates@[j].0,
    ensures
        ({
            let route = updates@[j].0;
            let params = old(outcomes).params();
            let (recorded, after) = (old(outcomes)@, final(outcomes)@);
            &&& after.contains_key(route)
            &&& after[route].0 == updates@[j].1.started
            &&& !recorded.contains_key(route) ==> after[route].1 == 1
            &&& recorded.contains_key(route) && now.nanos - recorded[route].0.nanos
                >= params.age_cutoff.nanos ==> after[route].1 == 1
            &&& recorded.contains_key(route) && now.nanos - recorded[route].0.nanos
                < params.age_cutoff.nanos && 0 < params.age_cutoff.nanos ==> after[route].1
                == if recorded[route].1 < params.max_count {
                recorded[route].1 + 1
            } else {
                params.max_count as int
            }
        }),
{
    let route = updates@[j].0;
    law_update_decides_the_record(outcomes, updates, now, route, 0);
    assert(updates@.skip(0) =~= updates@);
    lemma_single_attempt_on(updates@, route, j);
}

/// A route is not on record after an update in which its last attempt was a success.
pub proof fn law_success_is_the_last_word<R: Hash + Eq, G>(
    outcomes: &mut ConnectionOutcomes<R, G>,
    updates: Vec<(R, AttemptOutcome)>,
    now: Instant,
    j: int,
)
    requires
        vstd::std_specs::hash::obeys_key_model::<R>(),
        call_ensures(
            ConnectionOutcomes::<R, G>::apply_outcome_updates,
            (outcomes, updates, now),
            (),
        ),
        0 <= j < updates@.len(),
        updates@[j].1.result is Ok,
        forall|k: int| j < k < updates@.len() ==> (#[trigger] updates@[k]).0 != updates@[j].0,
    ensures
        !final(outcomes)@.contains_key(updates@[j].0),
{
    let route = updates@[j].0;
    law_update_decides_the_record(outcomes, updates, now, route, j + 1);
    let late = updates@.skip(j + 1);
    assert forall|k: int| 0 <= k < late.len() implies (#[trigger] late[k]).0 != route by {
        assert(late[k] == updates@[j + 1 + k]);
    }
    lemma_no_attempts_on(late, route);
}

/// Nothing is on record at first.
pub proof fn law_nothing_is_on_record_at_first<R: Hash + Eq, G>(
    params: ConnectionOutcomeParams<G>,
    outcomes: ConnectionOutcomes<R, G>,
    route: R,
)
    requires
        call_ensures(ConnectionOutcomes::<R, G>::new, (params,), outcomes),
    ensures
        !outcomes@.contains_key(route),
        outcomes.params() == params,
{
}

/// The delay for a failure is what the growth gives for its age and count, each of them up to its
/// limit and not beyond.
pub proof fn law_delay_is_what_the_growth_gives<G: DelayGrowth>(
    params: ConnectionOutcomeParams<G>,
    since_last_failure: Duration,
    count: u8,
    delay: Duration,
    age: Duration,
    judged_count: u8,
)
    requires
        call_ensures(
            ConnectionOutcomeParams::<G>::compute_delay,
            (&params, since_last_failure, count),
            delay,
        ),
        since_last_failure.nanos <= params.age_cutoff.nanos ==> age == since_last_failure,
        since_last_failure.nanos >= params.age_cutoff.nanos ==> age == params.age_cutoff,
        count <= params.max_count ==> judged_count == count,
        count >= params.max_count ==> judged_count == params.max_count,
    ensures
        call_ensures(
            G::scale,
            (
                &params.growth,
                params.max_delay,
                age,
                params.age_cutoff,
                judged_count,
                params.max_count,
            ),
            delay,
        ),
{
    assert(crate::outcomes::capped_age(params, since_last_failure@) == age);
}

/// The delay for a route is nothing if it is not on record, and otherwise what the growth gives for
/// the time since its last failure and for the count, each of them up to its limit and not beyond.
pub proof fn law_delay_follows_from_the_record<R: Hash + Eq, G: DelayGrowth>(
    outcomes: ConnectionOutcomes<R, G>,
    route: R,
    now: Instant,
    delay: Duration,
    age: Duration,
    judged_count: u8,
)
    requires
        vstd::std_specs::hash::obeys_key_model::<R>(),
        call_ensures(
            <ConnectionOutcomes<R, G> as RouteDelayPolicy<R>>::compute_delay,
            (&outcomes, &route, now),
            delay,
        ),
        outcomes@.contains_key(route) ==> ({
            let params = outcomes.params();
            let (when, count) = outcomes@[route];
            &&& now.nanos <= when.nanos ==> age.nanos == 0
            &&& 0 <= now.nanos - when.nanos <= params.age_cutoff.nanos ==> age.nanos == now.nanos
                - when.nanos
            &&& 0 <= params.age_cutoff.nanos <= now.nanos - when.nanos ==> age.nanos
                == params.age_cutoff.nanos
            &&& count <= params.max_count ==> judged_count == count
            &&& count >= params.max_count ==> judged_count == params.max_count
        }),
    ensures
        !outcomes@.contains_key(route) ==> delay.nanos == 0,
        outcomes@.contains_key(route) ==> call_ensures(
            G::scale,
            (
                &outcomes.params().growth,
                outcomes.params().max_delay,
                age,
                outcomes.params().age_cutoff,
                judged_count,
                outcomes.params().max_count,
            ),
            delay,
        ),
{
    if outcomes@.contains_key(route) {
        let when = outcomes@[route].0;
        assert(crate::outcomes::capped_age(
            outcomes.params(),
            crate::time::elapsed(when, now),
        ) == age);
    }
}

/// Any failure that is younger than the cutoff delays its route, if the growth gives some delay for
/// each such age and each count from one to the limit.
pub proof fn law_recent_failures_do_delay<R: Hash + Eq, G: DelayGrowth>(
    outcomes: ConnectionOutcomes<R, G>,
    route: R,
    now: Instant,
    delay: Duration,
)
    requires
        vstd::std_specs::hash::obeys_key_model::<R>(),
        call_ensures(
            <ConnectionOutcomes<R, G> as RouteDelayPolicy<R>>::compute_delay,
            (&outcomes, &route, now),
            delay,
        ),
        forall|age: Duration, count: u8, d: Duration|
            age.nanos < outcomes.params().age_cutoff.nanos && 1 <= count
                <= outcomes.params().max_count && #[trigger] call_ensures(
                G::scale,
                (
                    &outcomes.params().growth,
                    outcomes.params().max_delay,
                    age,
                    outcomes.params().age_cutoff,
                    count,
                    outcomes.params().max_count,
                ),
                d,
            ) ==> 0 < d.nanos,
        1 <= outcomes.params().max_count,
        outcomes@.contains_key(route),
        1 <= outcomes@[route].1,
        0 < outcomes.params().age_cutoff.nanos,
        now.nanos - outcomes@[route].0.nanos < outcomes.params().age_cutoff.nanos,
    ensures
        0 < delay.nanos,
{
}

/// A reference to a policy delays routes as the policy itself does.
pub proof fn law_references_delay_alike<R, P: RouteDelayPolicy<R>>(
    policy: P,
    route: R,
    now: Instant,
    delay: Duration,
)
    requires
        call_ensures(<&P as RouteDelayPolicy<R>>::compute_delay, (&&policy, &route, now), delay),
    ensures
        call_ensures(P::compute_delay, (&policy, &route, now), delay),
{
}

} // verus!
