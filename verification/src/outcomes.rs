//! A record of recent connection failures, and the delays that follow from it.

use std::collections::hash_map::Entry;
use std::collections::HashMap;
use std::hash::Hash;
use vstd::prelude::*;

use crate::policy::RouteDelayPolicy;
use crate::time::{Duration, Instant};

verus! {

/// How delays grow with the number of failures, and shrink with their age.
pub trait DelayGrowth {
    /// The delay for a route that has failed `count` times in a row, the last time `age` ago.
    ///
    /// Neither `count` nor `age` exceeds its limit. The delay is meant to be `max_delay` for a
    /// `count` of `max_count` and no `age`, and nothing for an `age` of `age_cutoff`.
    fn scale(
        &self,
        max_delay: Duration,
        age: Duration,
        age_cutoff: Duration,
        count: u8,
        max_count: u8,
    ) -> Duration;
}

pub struct ConnectionOutcomeParams<G> {
    /// How long a failure is remembered.
    pub age_cutoff: Duration,
    /// How the delay depends on the age and the number of failures.
    pub growth: G,
    /// The number of failures in a row above which more of them make no difference.
    pub max_count: u8,
    /// The longest delay.
    pub max_delay: Duration,
}

/// Unit type that represents a failure to connect.
#[derive(Clone, Copy, Debug, PartialEq, Eq, Structural)]
pub struct UnsuccessfulOutcome;

pub struct AttemptOutcome {
    pub started: Instant,
    pub result: Result<(), UnsuccessfulOutcome>,
}

/// Record of recent connection outcomes.
///
/// Implements [`RouteDelayPolicy`].
///
/// The routes are the keys of a hash map, so they must hash and compare as equal values should.
#[verifier::reject_recursive_types(R)]
pub struct ConnectionOutcomes<R, G> {
    params: ConnectionOutcomeParams<G>,
    /// When each route last failed, and how many times in a row it has.
    recent_failures: HashMap<R, (Instant, u8)>,
}

/// A failure at `when` is still remembered at `now`.
pub open spec fn is_remembered(when: Instant, now: Instant, age_cutoff: Duration) -> bool {
    crate::time::elapsed(when, now) < age_cutoff@
}

/// The failures that are still remembered at `now`.
pub open spec fn remembered<R>(
    failures: Map<R, (Instant, u8)>,
    now: Instant,
    age_cutoff: Duration,
) -> Map<R, (Instant, u8)> {
    Map::new(
        |route: R|
            failures.contains_key(route) && is_remembered(failures[route].0, now, age_cutoff),
        |route: R| failures[route],
    )
}

/// One failure more, up to the limit.
pub open spec fn bumped(count: u8, max_count: u8) -> u8 {
    if count + 1 < max_count {
        (count + 1) as u8
    } else {
        max_count
    }
}

/// The failures after one more connection attempt: success wipes the route's record, and failure
/// adds to it.
pub open spec fn record<R>(
    failures: Map<R, (Instant, u8)>,
    route: R,
    outcome: AttemptOutcome,
    max_count: u8,
) -> Map<R, (Instant, u8)> {
    match outcome.result {
        Ok(_) => failures.remove(route),
        Err(_) => {
            let count = if failures.contains_key(route) {
                bumped(failures[route].1, max_count)
            } else {
                1
            };
            failures.insert(route, (outcome.started, count))
        },
    }
}

/// The failures after a number of connection attempts, first to last.
pub open spec fn record_all<R>(
    failures: Map<R, (Instant, u8)>,
    updates: Seq<(R, AttemptOutcome)>,
    max_count: u8,
) -> Map<R, (Instant, u8)>
    decreases updates.len(),
{
    if updates.len() == 0 {
        failures
    } else {
        record(
            record_all(failures, updates.drop_last(), max_count),
            updates.last().0,
            updates.last().1,
            max_count,
        )
    }
}

/// No count exceeds the limit, except that a first failure always counts. With a limit of at least
/// one, no count is below one.
pub open spec fn counts_within<R>(failures: Map<R, (Instant, u8)>, max_count: u8) -> bool {
    forall|route: R| #[trigger]
        failures.contains_key(route) ==> {
            &&& failures[route].1 <= max_count || failures[route].1 == 1
            &&& 1 <= max_count ==> 1 <= failures[route].1
        }
}

fn remembers(when: Instant, now: Instant, age_cutoff: Duration) -> (r: bool)
    ensures
        r == is_remembered(when, now, age_cutoff),
{
    now.saturating_duration_since(when) < age_cutoff
}

/// Calls `HashMap::retain`, which removes exactly the entries for which the predicate does not hold.
/// Here the predicate is that the failure is still remembered.
///
/// Like all that is known of hash maps, this is claimed for keys that hash and compare as equal
/// values should.
#[verifier::external_body]
fn retain_remembered<R: Hash + Eq>(
    failures: &mut HashMap<R, (Instant, u8)>,
    now: Instant,
    age_cutoff: Duration,
)
    ensures
        vstd::std_specs::hash::obeys_key_model::<R>() ==> final(failures)@ == remembered(
            old(failures)@,
            now,
            age_cutoff,
        ),
{
    failures.retain(|_route, failure| remembers(failure.0, now, age_cutoff))
}

/// Records one attempt.
fn record_outcome<R: Hash + Eq>(
    failures: &mut HashMap<R, (Instant, u8)>,
    route: R,
    outcome: AttemptOutcome,
    max_count: u8,
)
    ensures
        vstd::std_specs::hash::obeys_key_model::<R>() ==> final(failures)@ == record(
            old(failures)@,
            route,
            outcome,
            max_count,
        ),
{
    broadcast use vstd::std_specs::hash::group_hash_axioms;

    let AttemptOutcome { started, result } = outcome;
    match result {
        Ok(()) => {
            let _ = failures.remove(&route);
        },
        Err(UnsuccessfulOutcome) => match failures.entry(route) {
            Entry::Occupied(mut entry) => {
                let failure = entry.get_mut();
                let count: u8 = if failure.1 < max_count {
                    failure.1 + 1
                } else {
                    max_count
                };
                *failure = (started, count);
            },
            Entry::Vacant(entry) => {
                entry.insert((started, 1));
            },
        },
    }
}

proof fn lemma_record_keeps_counts_within<R>(
    failures: Map<R, (Instant, u8)>,
    route: R,
    outcome: AttemptOutcome,
    max_count: u8,
)
    requires
        counts_within(failures, max_count),
    ensures
        counts_within(record(failures, route, outcome, max_count), max_count),
{
}

impl<R, G> View for ConnectionOutcomes<R, G> {
    type V = Map<R, (Instant, u8)>;

    /// When each route last failed, and how many times in a row it has.
    closed spec fn view(&self) -> Map<R, (Instant, u8)> {
        self.recent_failures@
    }
}

impl<R, G> ConnectionOutcomes<R, G> {
    /// The parameters that the record was made with.
    pub closed spec fn params(&self) -> ConnectionOutcomeParams<G> {
        self.params
    }

    #[verifier::type_invariant]
    spec fn counts_bounded(self) -> bool {
        vstd::std_specs::hash::obeys_key_model::<R>() ==> counts_within(
            self.recent_failures@,
            self.params.max_count,
        )
    }
}

impl<R: Hash + Eq, G> ConnectionOutcomes<R, G> {
    pub fn new(params: ConnectionOutcomeParams<G>) -> (outcomes: Self)
        ensures
            outcomes@ == Map::<R, (Instant, u8)>::empty(),
            outcomes.params() == params,
    {
        ConnectionOutcomes { params, recent_failures: HashMap::new() }
    }

    /// Update the internal state with the results of completed connection attempts.
    pub fn apply_outcome_updates(&mut self, updates: Vec<(R, AttemptOutcome)>, now: Instant)
        ensures
            final(self).params() == old(self).params(),
            vstd::std_specs::hash::obeys_key_model::<R>() ==> {
                &&& counts_within(final(self)@, old(self).params().max_count)
                &&& final(self)@ == record_all(
                    remembered(old(self)@, now, old(self).params().age_cutoff),
                    updates@,
                    old(self).params().max_count,
                )
            },
    {
        broadcast use vstd::std_specs::hash::group_hash_axioms;

        proof {
            use_type_invariant(&*self);
        }
        let max_count: u8 = self.params.max_count;
        let mut failures: HashMap<R, (Instant, u8)> = HashMap::new();
        core::mem::swap(&mut failures, &mut self.recent_failures);
        // Age out any old entries.
        retain_remembered(&mut failures, now, self.params.age_cutoff);
        let ghost start = failures@;
        proof {
            assert(updates@.take(0) =~= Seq::<(R, AttemptOutcome)>::empty());
        }
        for update in it: updates.into_iter()
            invariant
                it.seq() == updates@,
                vstd::std_specs::hash::obeys_key_model::<R>() ==> {
                    &&& failures@ == record_all(start, updates@.take(it.index()), max_count)
                    &&& counts_within(failures@, max_count)
                },
        {
            let ghost k = it.index();
            let ghost before = failures@;
            let (route, outcome) = update;
            record_outcome(&mut failures, route, outcome, max_count);
            proof {
                if counts_within(before, max_count) {
                    lemma_record_keeps_counts_within(before, route, outcome, max_count);
                }
                assert(updates@.take(k + 1).drop_last() =~= updates@.take(k));
            }
        }
        assert(updates@.take(updates@.len() as int) =~= updates@);
        self.recent_failures = failures;
    }
}

impl<G: DelayGrowth> ConnectionOutcomeParams<G> {
    /// Compute the delay given the time since the last failure and count of repeated failures.
    ///
    /// A failure older than the cutoff is as good as one that is just that old, and failures
    /// beyond the maximal count make no difference.
    pub fn compute_delay(
        &self,
        since_last_failure: Duration,
        consecutive_failure_count: u8,
    ) -> (delay: Duration)
        ensures
            scales_to(*self, since_last_failure@, consecutive_failure_count, delay),
    {
        let age = if since_last_failure < self.age_cutoff {
            since_last_failure
        } else {
            self.age_cutoff
        };
        let count: u8 = if consecutive_failure_count < self.max_count {
            consecutive_failure_count
        } else {
            self.max_count
        };
        self.growth.scale(self.max_delay, age, self.age_cutoff, count, self.max_count)
    }
}

/// The age by which a failure is judged: its own, up to the cutoff.
pub open spec fn capped_age<G>(params: ConnectionOutcomeParams<G>, age: nat) -> Duration {
    if age < params.age_cutoff@ {
        Duration { nanos: age as u128 }
    } else {
        params.age_cutoff
    }
}

/// The count by which failures are judged: their own, up to the limit.
pub open spec fn capped_count<G>(params: ConnectionOutcomeParams<G>, count: u8) -> u8 {
    if count < params.max_count {
        count
    } else {
        params.max_count
    }
}

/// `delay` is what the growth gives for that age and count.
pub open spec fn grows_to<G: DelayGrowth>(
    params: ConnectionOutcomeParams<G>,
    age: Duration,
    count: u8,
    delay: Duration,
) -> bool {
    call_ensures(
        G::scale,
        (&params.growth, params.max_delay, age, params.age_cutoff, count, params.max_count),
        delay,
    )
}

/// `delay` is what the growth gives for a failure of that age and count, both capped.
pub open spec fn scales_to<G: DelayGrowth>(
    params: ConnectionOutcomeParams<G>,
    age: nat,
    count: u8,
    delay: Duration,
) -> bool {
    grows_to(params, capped_age(params, age), capped_count(params, count), delay)
}

/// `delay` is how much a route is delayed at `now`: not at all if there is no record of it, and
/// otherwise by the age and the number of its failures.
pub open spec fn delays_by<R, G: DelayGrowth>(
    params: ConnectionOutcomeParams<G>,
    failures: Map<R, (Instant, u8)>,
    route: R,
    now: Instant,
    delay: Duration,
) -> bool {
    if failures.contains_key(route) {
        scales_to(
            params,
            crate::time::elapsed(failures[route].0, now),
            failures[route].1,
            delay,
        )
    } else {
        delay@ == 0
    }
}

/// Delay routes according to previous history, with some caps: not at all if the route has no
/// remembered failures, and otherwise by the age and the number of them.
impl<R: Hash + Eq, G: DelayGrowth> RouteDelayPolicy<R> for ConnectionOutcomes<R, G> {
    fn compute_delay(&self, route: &R, now: Instant) -> (delay: Duration)
        ensures
            vstd::std_specs::hash::obeys_key_model::<R>() ==> delays_by(
                self.params(),
                self@,
                *route,
                now,
                delay,
            ),
    {
        broadcast use vstd::std_specs::hash::group_hash_axioms;

        match self.recent_failures.get(route) {
            None => Duration::zero(),
            Some(failure) => self.params.compute_delay(
                now.saturating_duration_since(failure.0),
                failure.1,
            ),
        }
    }
}

/// Recording attempts keeps the counts within the limits.
pub proof fn law_counts_stay_within<R>(
    failures: Map<R, (Instant, u8)>,
    updates: Seq<(R, AttemptOutcome)>,
    max_count: u8,
)
    requires
        counts_within(failures, max_count),
    ensures
        counts_within(record_all(failures, updates, max_count), max_count),
    decreases updates.len(),
{
    if updates.len() > 0 {
        law_counts_stay_within(failures, updates.drop_last(), max_count);
    }
}

/// The attempts on a route alone decide what is recorded of it.
pub proof fn law_other_routes_do_not_matter<R>(
    failures: Map<R, (Instant, u8)>,
    updates: Seq<(R, AttemptOutcome)>,
    max_count: u8,
    route: R,
)
    requires
        forall|k: int| 0 <= k < updates.len() ==> (#[trigger] updates[k]).0 != route,
    ensures
        record_all(failures, updates, max_count).contains_key(route) <==> failures.contains_key(
            route,
        ),
        failures.contains_key(route) ==> record_all(failures, updates, max_count)[route]
            == failures[route],
    decreases updates.len(),
{
    if updates.len() > 0 {
        let fewer = updates.drop_last();
        assert forall|k: int| 0 <= k < fewer.len() implies (#[trigger] fewer[k]).0 != route by {
            assert(fewer[k] == updates[k]);
        }
        law_other_routes_do_not_matter(failures, fewer, max_count, route);
        assert(updates[updates.len() - 1].0 != route);
    }
}

/// After a success, nothing is held against a route until it fails again.
pub proof fn law_success_wipes_the_record<R>(
    failures: Map<R, (Instant, u8)>,
    updates: Seq<(R, AttemptOutcome)>,
    max_count: u8,
    k: int,
)
    requires
        0 <= k < updates.len(),
        updates[k].1.result is Ok,
        forall|j: int|
            k < j < updates.len() && (#[trigger] updates[j]).0 == updates[k].0
                ==> updates[j].1.result is Ok,
    ensures
        !record_all(failures, updates, max_count).contains_key(updates[k].0),
    decreases updates.len(),
{
    if k < updates.len() - 1 {
        let fewer = updates.drop_last();
        assert forall|j: int|
            k < j < fewer.len() && (#[trigger] fewer[j]).0 == fewer[k].0 implies fewer[j].1.result is Ok by {
            assert(fewer[j] == updates[j]);
        }
        law_success_wipes_the_record(failures, fewer, max_count, k);
        assert(updates[updates.len() - 1] == updates.last());
    }
}

/// What is recorded of a route after a failure is when that attempt started, and one failure more
/// than before, up to the limit.
pub proof fn law_failure_adds_to_the_record<R>(
    failures: Map<R, (Instant, u8)>,
    route: R,
    outcome: AttemptOutcome,
    max_count: u8,
)
    requires
        outcome.result is Err,
    ensures
        ({
            let after = record(failures, route, outcome, max_count);
            &&& after.contains_key(route)
            &&& after[route].0 == outcome.started
            &&& !failures.contains_key(route) ==> after[route].1 == 1
            &&& failures.contains_key(route) && failures[route].1 < max_count ==> after[route].1
                == failures[route].1 + 1
            &&& failures.contains_key(route) && failures[route].1 >= max_count ==> after[route].1
                == max_count
        }),
{
}

/// Failing over and over takes a route's count up by one at a time, from whatever it was before or
/// from nothing if there was no record of the route, until it reaches the limit, where it stays.
pub proof fn law_failures_count_up_from_any_record<R>(
    failures: Map<R, (Instant, u8)>,
    route: R,
    updates: Seq<(R, AttemptOutcome)>,
    max_count: u8,
)
    requires
        failures.contains_key(route) || max_count >= 1,
        updates.len() > 0,
        forall|k: int| #![trigger updates[k]]
            0 <= k < updates.len() ==> updates[k].0 == route && updates[k].1.result is Err,
    ensures
        ({
            let before: int = if failures.contains_key(route) {
                failures[route].1 as int
            } else {
                0
            };
            let after = record_all(failures, updates, max_count);
            &&& after.contains_key(route)
            &&& after[route].0 == updates.last().1.started
            &&& after[route].1 == if before + updates.len() < max_count {
                before + updates.len()
            } else {
                max_count as int
            }
        }),
    decreases updates.len(),
{
    let fewer = updates.drop_last();
    assert(updates[updates.len() - 1] == updates.last());
    if fewer.len() > 0 {
        assert forall|k: int| #![trigger fewer[k]] 0 <= k < fewer.len() implies fewer[k].0 == route
            && fewer[k].1.result is Err by {
            assert(fewer[k] == updates[k]);
        }
        law_failures_count_up_from_any_record(failures, route, fewer, max_count);
    }
}

/// A route of which there is no record has as many failures on record after failing over and over
/// as it had attempts, up to the limit, and so it is with nothing on record at all.
pub proof fn law_repeated_failures_count_up<R>(
    failures: Map<R, (Instant, u8)>,
    route: R,
    updates: Seq<(R, AttemptOutcome)>,
    max_count: u8,
)
    requires
        !failures.contains_key(route),
        max_count >= 1,
        updates.len() > 0,
        forall|k: int| #![trigger updates[k]]
            0 <= k < updates.len() ==> updates[k].0 == route && updates[k].1.result is Err,
    ensures
        ({
            let after = record_all(failures, updates, max_count);
            &&& after.contains_key(route)
            &&& after[route].0 == updates.last().1.started
            &&& after[route].1 == if updates.len() < max_count {
                updates.len()
            } else {
                max_count as nat
            }
        }),
{
    law_failures_count_up_from_any_record(failures, route, updates, max_count);
}

/// Recording two batches of attempts one after the other is recording them as one.
pub proof fn law_batches_add_up<R>(
    failures: Map<R, (Instant, u8)>,
    first: Seq<(R, AttemptOutcome)>,
    second: Seq<(R, AttemptOutcome)>,
    max_count: u8,
)
    ensures
        record_all(failures, first + second, max_count) == record_all(
            record_all(failures, first, max_count),
            second,
            max_count,
        ),
    decreases second.len(),
{
    if second.len() == 0 {
        assert(first + second =~= first);
    } else {
        assert((first + second).drop_last() =~= first + second.drop_last());
        law_batches_add_up(failures, first, second.drop_last(), max_count);
    }
}

proof fn lemma_remembered_after_recording<R>(
    failures: Map<R, (Instant, u8)>,
    updates: Seq<(R, AttemptOutcome)>,
    max_count: u8,
    now: Instant,
    age_cutoff: Duration,
)
    requires
        forall|route: R| #[trigger]
            failures.contains_key(route) ==> is_remembered(failures[route].0, now, age_cutoff),
        forall|k: int|
            0 <= k < updates.len() && (#[trigger] updates[k]).1.result is Err ==> is_remembered(
                updates[k].1.started,
                now,
                age_cutoff,
            ),
    ensures
        forall|route: R| #[trigger]
            record_all(failures, updates, max_count).contains_key(route) ==> is_remembered(
                record_all(failures, updates, max_count)[route].0,
                now,
                age_cutoff,
            ),
    decreases updates.len(),
{
    if updates.len() > 0 {
        let fewer = updates.drop_last();
        assert forall|k: int|
            0 <= k < fewer.len() && (#[trigger] fewer[k]).1.result is Err implies is_remembered(
            fewer[k].1.started,
            now,
            age_cutoff,
        ) by {
            assert(fewer[k] == updates[k]);
        }
        lemma_remembered_after_recording(failures, fewer, max_count, now, age_cutoff);
        assert(updates[updates.len() - 1] == updates.last());
        let before = record_all(failures, fewer, max_count);
        let after = record_all(failures, updates, max_count);
        assert forall|route: R| #[trigger] after.contains_key(route) implies is_remembered(
            after[route].0,
            now,
            age_cutoff,
        ) by {
            assert(route != updates.last().0 ==> before.contains_key(route));
        }
    }
}

/// Updating the record twice at the same time is updating it once with everything, unless one of
/// the failures in the first batch started so long ago that it would not be remembered.
pub proof fn law_updates_may_be_split<R>(
    failures: Map<R, (Instant, u8)>,
    first: Seq<(R, AttemptOutcome)>,
    second: Seq<(R, AttemptOutcome)>,
    max_count: u8,
    now: Instant,
    age_cutoff: Duration,
)
    requires
        forall|k: int|
            0 <= k < first.len() && (#[trigger] first[k]).1.result is Err ==> is_remembered(
                first[k].1.started,
                now,
                age_cutoff,
            ),
    ensures
        record_all(
            remembered(
                record_all(remembered(failures, now, age_cutoff), first, max_count),
                now,
                age_cutoff,
            ),
            second,
            max_count,
        ) == record_all(remembered(failures, now, age_cutoff), first + second, max_count),
{
    let start = remembered(failures, now, age_cutoff);
    let between = record_all(start, first, max_count);
    lemma_remembered_after_recording(start, first, max_count, now, age_cutoff);
    assert(remembered(between, now, age_cutoff) =~= between);
    law_batches_add_up(start, first, second, max_count);
}

/// What has been forgotten stays forgotten, and looking at the record twice is no different from
/// looking at it once, the later time.
pub proof fn law_forgetting_is_final<R>(
    failures: Map<R, (Instant, u8)>,
    now: Instant,
    later: Instant,
    age_cutoff: Duration,
)
    requires
        now@ <= later@,
    ensures
        remembered(remembered(failures, now, age_cutoff), later, age_cutoff) == remembered(
            failures,
            later,
            age_cutoff,
        ),
{
    assert(remembered(remembered(failures, now, age_cutoff), later, age_cutoff) =~= remembered(
        failures,
        later,
        age_cutoff,
    ));
}

/// The age by which a failure is judged only grows as time goes by.
pub proof fn law_failures_only_get_older(when: Instant, now: Instant, later: Instant)
    requires
        now@ <= later@,
    ensures
        crate::time::elapsed(when, now) <= crate::time::elapsed(when, later),
{
}

} // verus!
