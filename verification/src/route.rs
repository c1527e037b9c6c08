//! Resolved routes, and what becomes of the results of name resolution.

use core::cmp::Ordering;
use vstd::prelude::*;
use vstd::std_specs::iter::IteratorSpec;

verus! {

/// An IP address of either family.
#[derive(Clone, Copy, Debug, PartialEq, Eq, Hash, Structural)]
pub enum IpAddr {
    /// An IPv4 address, as the number its four octets make up.
    V4(u32),
    /// An IPv6 address, as the number its sixteen octets make up.
    V6(u128),
}

/// A route whose host names have all been replaced by IP addresses.
pub trait ResolvedRoute {
    /// The address to open a connection to in order to use this route.
    fn immediate_target(&self) -> &IpAddr;
}

/// A group of resolved routes that came from the same unresolved route.
#[derive(Clone, Debug)]
pub struct ResolvedRoutes<R> {
    routes: Vec<R>,
}

/// Metadata about a resolved route.
#[derive(Clone, Copy, Debug, PartialEq, Eq, Ord, Hash, Structural)]
pub struct ResolveMeta {
    /// The position of the un-resolved route in the source input stream.
    pub original_group_index: usize,
}

/// Decides which resolved routes are worth attempting.
pub struct RouteResolver {
    pub allow_ipv6: bool,
}

impl vstd::std_specs::cmp::PartialOrdSpecImpl for ResolveMeta {
    open spec fn obeys_partial_cmp_spec() -> bool {
        true
    }

    open spec fn partial_cmp_spec(&self, other: &Self) -> Option<Ordering> {
        if self.original_group_index < other.original_group_index {
            Some(Ordering::Less)
        } else if self.original_group_index == other.original_group_index {
            Some(Ordering::Equal)
        } else {
            Some(Ordering::Greater)
        }
    }
}

impl PartialOrd for ResolveMeta {
    fn partial_cmp(&self, other: &Self) -> (r: Option<Ordering>) {
        if self.original_group_index < other.original_group_index {
            Some(Ordering::Less)
        } else if self.original_group_index == other.original_group_index {
            Some(Ordering::Equal)
        } else {
            Some(Ordering::Greater)
        }
    }
}

impl IpAddr {
    /// Whether this is an IPv4 address.
    pub fn is_ipv4(&self) -> (v4: bool)
        ensures
            v4 == (*self is V4),
    {
        match self {
            IpAddr::V4(_) => true,
            IpAddr::V6(_) => false,
        }
    }
}

impl ResolvedRoute for IpAddr {
    fn immediate_target(&self) -> (target: &IpAddr)
        ensures
            target == self,
    {
        self
    }
}

impl<R> View for ResolvedRoutes<R> {
    type V = Seq<R>;

    /// The routes of the group, in order.
    closed spec fn view(&self) -> Seq<R> {
        self.routes@
    }
}

impl<R> ResolvedRoutes<R> {
    /// A group of the given routes.
    pub fn new(routes: Vec<R>) -> (group: Self)
        ensures
            group@ == routes@,
    {
        ResolvedRoutes { routes }
    }

    /// Whether the group has no routes.
    pub fn is_empty(&self) -> (empty: bool)
        ensures
            empty == (self@.len() == 0),
    {
        self.routes.is_empty()
    }
}

impl<R> IntoIterator for ResolvedRoutes<R> {
    type Item = R;

    type IntoIter = std::vec::IntoIter<R>;

    fn into_iter(self) -> (iter: Self::IntoIter)
        ensures
            IteratorSpec::remaining(&iter) == self@,
            IteratorSpec::decrease(&iter) is Some,
            IteratorSpec::initial_value_relation(&iter, &iter),
    {
        self.routes.into_iter()
    }
}

/// `targets` are the addresses that the routes connect to directly.
pub open spec fn are_targets<R: ResolvedRoute>(routes: Seq<R>, targets: Seq<IpAddr>) -> bool {
    &&& targets.len() == routes.len()
    &&& forall|i: int| #![trigger targets[i]]
        0 <= i < routes.len() ==> call_ensures(
            R::immediate_target,
            (&routes[i],),
            &targets[i],
        )
}

/// The routes that connect directly to an IPv4 address, in order.
pub open spec fn ipv4_routes<R>(routes: Seq<R>, targets: Seq<IpAddr>) -> Seq<R>
    recommends
        targets.len() == routes.len(),
    decreases routes.len(),
{
    if routes.len() == 0 {
        routes
    } else {
        let before_last = ipv4_routes(routes.drop_last(), targets.drop_last());
        if targets.last() is V4 {
            before_last.push(routes.last())
        } else {
            before_last
        }
    }
}

/// `pruned` is what is left of a group of routes without the ones that may not be attempted.
pub open spec fn prunes_to<R: ResolvedRoute>(
    allow_ipv6: bool,
    routes: Seq<R>,
    pruned: Seq<R>,
) -> bool {
    if allow_ipv6 {
        pruned == routes
    } else {
        exists|targets: Seq<IpAddr>| #[trigger]
            are_targets(routes, targets) && pruned == ipv4_routes(routes, targets)
    }
}

/// What the resolver hands on for one finished name resolution.
pub open spec fn hands_on<R: ResolvedRoute, E>(
    allow_ipv6: bool,
    resolution: Result<ResolvedRoutes<R>, E>,
    meta: ResolveMeta,
    out: Option<(ResolvedRoutes<R>, ResolveMeta)>,
) -> bool {
    match resolution {
        Err(_) => out is None,
        Ok(group) => {
            &&& out matches Some((pruned, out_meta))
            &&& prunes_to(allow_ipv6, group@, pruned@)
            &&& out_meta == meta
        },
    }
}

impl RouteResolver {
    /// Takes the result of resolving one route's host names, and hands on the routes to attempt.
    ///
    /// Nothing is handed on for a route whose names could not be resolved. Of the others, routes
    /// that connect directly to IPv6 addresses are pruned if they are not allowed; the rest keep
    /// their order and their metadata.
    pub fn resolve<R: ResolvedRoute, E>(
        &self,
        resolution: Result<ResolvedRoutes<R>, E>,
        meta: ResolveMeta,
    ) -> (out: Option<(ResolvedRoutes<R>, ResolveMeta)>)
        ensures
            hands_on(self.allow_ipv6, resolution, meta, out),
    {
        let group = match resolution {
            Ok(group) => group,
            Err(_) => {
                return None;
            },
        };
        if self.allow_ipv6 {
            return Some((group, meta));
        }
        let mut kept: Vec<R> = Vec::new();
        let ghost mut targets: Seq<IpAddr> = Seq::empty();
        for route in it: group.into_iter()
            invariant
                it.seq() == group@,
                are_targets(it.seq().take(it.index()), targets),
                kept@ == ipv4_routes(it.seq().take(it.index()), targets),
        {
            let target = *route.immediate_target();
            proof {
                let before = it.seq().take(it.index());
                let after = it.seq().take(it.index() + 1);
                assert(after.drop_last() =~= before);
                assert(targets.push(target).drop_last() =~= targets);
                let longer = targets.push(target);
                assert forall|i: int| #![trigger longer[i]] 0 <= i < after.len() implies call_ensures(
                    R::immediate_target,
                    (&after[i],),
                    &longer[i],
                ) by {
                    if i < before.len() {
                        assert(longer[i] == targets[i]);
                    }
                }
                targets = longer;
            }
            if target.is_ipv4() {
                kept.push(route);
            }
        }
        assert(group@.take(group@.len() as int) =~= group@);
        Some((ResolvedRoutes::new(kept), meta))
    }
}

/// Marks each route with its position among the routes, so that the positions are still known when
/// the routes' names have been resolved, all at once and in any order.
pub fn mark_positions<R>(routes: Vec<R>) -> (marked: Vec<(R, ResolveMeta)>)
    ensures
        marked@.len() == routes@.len(),
        forall|i: int| #![trigger marked@[i]]
            0 <= i < routes@.len() ==> marked@[i].0 == routes@[i]
                && marked@[i].1.original_group_index == i,
{
    let mut marked: Vec<(R, ResolveMeta)> = Vec::new();
    let mut index: usize = 0;
    let len: usize = routes.len();
    for route in it: routes.into_iter()
        invariant
            it.seq() == routes@,
            len == routes@.len(),
            index == it.index(),
            marked@.len() == index,
            forall|i: int| #![trigger marked@[i]]
                0 <= i < index ==> marked@[i].0 == routes@[i]
                    && marked@[i].1.original_group_index == i,
    {
        marked.push((route, ResolveMeta { original_group_index: index }));
        index = index + 1;
    }
    marked
}

/// Metadata is fit to be the key of a queue, and ordered by the position of the un-resolved route.
pub proof fn law_metas_are_ordered_by_position(a: ResolveMeta, b: ResolveMeta)
    ensures
        crate::queue::keys_ordered::<ResolveMeta>(),
        crate::queue::key_le(a, b) <==> a.original_group_index <= b.original_group_index,
{
}

/// Pruning leaves no route to an IPv6 address, and loses no route to an IPv4 address.
pub proof fn law_only_ipv6_is_pruned<R>(routes: Seq<R>, targets: Seq<IpAddr>, route: R)
    requires
        targets.len() == routes.len(),
    ensures
        ipv4_routes(routes, targets).contains(route) <==> exists|i: int|
            0 <= i < routes.len() && #[trigger] routes[i] == route && targets[i] is V4,
    decreases routes.len(),
{
    if routes.len() > 0 {
        let (rest, rest_targets) = (routes.drop_last(), targets.drop_last());
        law_only_ipv6_is_pruned(rest, rest_targets, route);
        lemma_push_contains(ipv4_routes(rest, rest_targets), routes.last(), route);
        let last = routes.len() - 1;
        assert(routes[last] == routes.last());
        if exists|i: int|
            0 <= i < routes.len() && #[trigger] routes[i] == route && targets[i] is V4 {
            let i = choose|i: int|
                0 <= i < routes.len() && #[trigger] routes[i] == route && targets[i] is V4;
            if i < last {
                assert(rest[i] == route && rest_targets[i] is V4);
            }
        }
        if exists|i: int|
            0 <= i < rest.len() && #[trigger] rest[i] == route && rest_targets[i] is V4 {
            let i = choose|i: int|
                0 <= i < rest.len() && #[trigger] rest[i] == route && rest_targets[i] is V4;
            assert(routes[i] == route && targets[i] is V4);
        }
    }
}

proof fn lemma_push_contains<T>(s: Seq<T>, x: T, y: T)
    ensures
        s.push(x).contains(y) <==> s.contains(y) || x == y,
{
    if s.contains(y) {
        let i = choose|i: int| 0 <= i < s.len() && s[i] == y;
        assert(s.push(x)[i] == y);
    }
    assert(s.push(x)[s.len() as int] == x);
    if s.push(x).contains(y) {
        let i = choose|i: int| 0 <= i < s.push(x).len() && s.push(x)[i] == y;
        if i < s.len() {
            assert(s[i] == y);
        }
    }
}

/// Pruning changes nothing about a group all of whose routes connect to IPv4 addresses, such as
/// one that was pruned before.
pub proof fn law_ipv4_groups_are_kept_whole<R>(routes: Seq<R>, targets: Seq<IpAddr>)
    requires
        targets.len() == routes.len(),
        forall|i: int| 0 <= i < targets.len() ==> #[trigger] targets[i] is V4,
    ensures
        ipv4_routes(routes, targets) == routes,
    decreases routes.len(),
{
    if routes.len() > 0 {
        law_ipv4_groups_are_kept_whole(routes.drop_last(), targets.drop_last());
        assert(targets[targets.len() - 1] is V4);
        assert(routes.drop_last().push(routes.last()) =~= routes);
    }
}

/// Of a group of bare addresses, pruning leaves just the IPv4 addresses.
pub proof fn law_addresses_are_pruned_by_family(addresses: Seq<IpAddr>, pruned: Seq<IpAddr>)
    requires
        prunes_to(false, addresses, pruned),
    ensures
        pruned == addresses.filter(|address: IpAddr| address is V4),
{
    let targets = choose|targets: Seq<IpAddr>| #[trigger]
        are_targets(addresses, targets) && pruned == ipv4_routes(addresses, targets);
    assert forall|i: int| 0 <= i < addresses.len() implies targets[i] == addresses[i] by {}
    assert(targets =~= addresses);
    lemma_addresses_filtered(addresses);
}

proof fn lemma_addresses_filtered(addresses: Seq<IpAddr>)
    ensures
        ipv4_routes(addresses, addresses) == addresses.filter(|address: IpAddr| address is V4),
    decreases addresses.len(),
{
    reveal(Seq::filter);
    if addresses.len() > 0 {
        lemma_addresses_filtered(addresses.drop_last());
    }
}

/// `order` lists each of the positions below `len` once.
pub open spec fn lists_each_once(order: Seq<int>, len: nat) -> bool {
    &&& order.no_duplicates()
    &&& forall|n: int| 0 <= n < order.len() ==> 0 <= #[trigger] order[n] < len
    &&& forall|i: int| 0 <= i < len ==> #[trigger] order.contains(i)
}

/// Each route whose names were resolved makes for a single group in the output, which is marked
/// with the route's position, whatever the order in which the resolutions finish.
///
/// `order[n]` is the position of the route whose resolution was the `n`th to finish, and `outs[n]`
/// is what was handed on for it.
pub proof fn law_one_group_per_resolved_route<R: ResolvedRoute, E>(
    allow_ipv6: bool,
    marks: Seq<ResolveMeta>,
    resolutions: Seq<Result<ResolvedRoutes<R>, E>>,
    order: Seq<int>,
    outs: Seq<Option<(ResolvedRoutes<R>, ResolveMeta)>>,
    i: int,
)
    requires
        forall|k: int| #![trigger marks[k]]
            0 <= k < marks.len() ==> marks[k].original_group_index == k,
        resolutions.len() == marks.len(),
        lists_each_once(order, marks.len()),
        outs.len() == order.len(),
        forall|n: int| #![trigger outs[n]]
            0 <= n < order.len() ==> hands_on(
                allow_ipv6,
                resolutions[order[n]],
                marks[order[n]],
                outs[n],
            ),
        0 <= i < marks.len(),
    ensures
        resolutions[i] is Ok <==> exists|n: int|
            0 <= n < outs.len() && #[trigger] outs[n] is Some
                && outs[n]->Some_0.1.original_group_index == i,
        forall|n: int, m: int|
            0 <= n < m < outs.len() && #[trigger] outs[n] is Some && #[trigger] outs[m] is Some
                ==> outs[n]->Some_0.1 != outs[m]->Some_0.1,
        forall|n: int|
            0 <= n < outs.len() && #[trigger] outs[n] is Some
                && outs[n]->Some_0.1.original_group_index == i ==> prunes_to(
                allow_ipv6,
                resolutions[i]->Ok_0@,
                outs[n]->Some_0.0@,
            ),
{
    assert(order.contains(i));
    let n = choose|n: int| 0 <= n < order.len() && order[n] == i;
    assert(hands_on(allow_ipv6, resolutions[order[n]], marks[order[n]], outs[n]));
    assert(marks[i].original_group_index == i);
    assert forall|n: int, m: int|
        0 <= n < m < outs.len() && #[trigger] outs[n] is Some && #[trigger] outs[m] is Some implies outs[n]->Some_0.1
        != outs[m]->Some_0.1 by {
        assert(order[n] != order[m]);
        assert(marks[order[n]].original_group_index == order[n]);
        assert(marks[order[m]].original_group_index == order[m]);
    }
    assert forall|n: int|
        0 <= n < outs.len() && #[trigger] outs[n] is Some
            && outs[n]->Some_0.1.original_group_index == i implies order[n] == i by {
        assert(marks[order[n]].original_group_index == order[n]);
    }
}

/// Nothing is handed on for a failed resolution, and for nothing else. Whatever is handed on keeps
/// its metadata.
pub proof fn law_only_failed_resolutions_are_dropped<R: ResolvedRoute, E>(
    resolver: RouteResolver,
    resolution: Result<ResolvedRoutes<R>, E>,
    meta: ResolveMeta,
    out: Option<(ResolvedRoutes<R>, ResolveMeta)>,
)
    requires
        call_ensures(RouteResolver::resolve::<R, E>, (&resolver, resolution, meta), out),
    ensures
        out is None <==> resolution is Err,
        out matches Some(handed_on) ==> handed_on.1.original_group_index
            == meta.original_group_index,
{
}

/// If IPv6 is allowed, a group is handed on with just the routes that it has, in order.
pub proof fn law_groups_are_handed_on_whole<R: ResolvedRoute, E>(
    resolver: RouteResolver,
    group: ResolvedRoutes<R>,
    meta: ResolveMeta,
    out: Option<(ResolvedRoutes<R>, ResolveMeta)>,
)
    requires
        call_ensures(
            RouteResolver::resolve::<R, E>,
            (&resolver, Ok::<ResolvedRoutes<R>, E>(group), meta),
            out,
        ),
        resolver.allow_ipv6,
    ensures
        out matches Some(handed_on) && handed_on.0@ == group@ && handed_on.1 == meta,
{
}

/// `places` are the places of some of the routes, in order.
spec fn are_places(places: Seq<int>, len: nat) -> bool {
    &&& forall|a: int| 0 <= a < places.len() ==> 0 <= #[trigger] places[a] < len
    &&& forall|a: int, b: int|
        0 <= a < b < places.len() ==> #[trigger] places[a] < #[trigger] places[b]
}

proof fn lemma_places_of_ipv4<R>(routes: Seq<R>, targets: Seq<IpAddr>) -> (places: Seq<int>)
    requires
        targets.len() == routes.len(),
    ensures
        are_places(places, routes.len()),
        ipv4_routes(routes, targets).len() == places.len(),
        forall|a: int| #![trigger places[a]]
            0 <= a < places.len() ==> ipv4_routes(routes, targets)[a] == routes[places[a]]
                && targets[places[a]] is V4,
        forall|i: int|
            0 <= i < routes.len() && !#[trigger] places.contains(i) ==> targets[i] is V6,
    decreases routes.len(),
{
    if routes.len() == 0 {
        Seq::empty()
    } else {
        let fewer = lemma_places_of_ipv4(routes.drop_last(), targets.drop_last());
        let last = routes.len() - 1;
        let places = if targets.last() is V4 {
            fewer.push(last)
        } else {
            fewer
        };
        assert forall|i: int|
            0 <= i < routes.len() && !#[trigger] places.contains(i) implies targets[i] is V6 by {
            lemma_push_contains(fewer, last, i);
            if i < last {
                assert(!fewer.contains(i));
                assert(targets.drop_last()[i] is V6);
            }
        }
        assert forall|a: int| #![trigger places[a]] 0 <= a < places.len() implies ipv4_routes(
            routes,
            targets,
        )[a] == routes[places[a]] && targets[places[a]] is V4 by {
            if a < fewer.len() {
                assert(places[a] == fewer[a]);
                assert(0 <= fewer[a] < routes.drop_last().len());
                assert(routes.drop_last()[fewer[a]] == routes[places[a]]);
                assert(targets.drop_last()[fewer[a]] == targets[places[a]]);
            }
        }
        assert forall|a: int, b: int| 0 <= a < b < places.len() implies #[trigger] places[a]
            < #[trigger] places[b] by {
            assert(places[a] == fewer[a]);
            if b < fewer.len() {
                assert(places[b] == fewer[b]);
            }
        }
        places
    }
}

/// Whether or not IPv6 is allowed, a group is handed on with all of its routes in order, except
/// that routes to IPv6 addresses are missing if, and only if, it is not.
///
/// The result is the places in the group of the routes that are handed on, and, where it matters,
/// the addresses that the routes of the group connect to.
pub proof fn law_only_routes_to_ipv6_are_missing<R: ResolvedRoute, E>(
    resolver: RouteResolver,
    group: ResolvedRoutes<R>,
    meta: ResolveMeta,
    out: Option<(ResolvedRoutes<R>, ResolveMeta)>,
) -> (result: (Seq<int>, Seq<IpAddr>))
    requires
        call_ensures(
            RouteResolver::resolve::<R, E>,
            (&resolver, Ok::<ResolvedRoutes<R>, E>(group), meta),
            out,
        ),
    ensures
        ({
            let (places, targets) = result;
            &&& forall|a: int| 0 <= a < places.len() ==> 0 <= #[trigger] places[a] < group@.len()
            &&& forall|a: int, b: int|
                0 <= a < b < places.len() ==> #[trigger] places[a] < #[trigger] places[b]
            &&& out matches Some(handed_on) && handed_on.1 == meta && handed_on.0@.len()
                == places.len() && forall|a: int| #![trigger places[a]]
                0 <= a < places.len() ==> handed_on.0@[a] == group@[places[a]]
            &&& resolver.allow_ipv6 ==> places.len() == group@.len()
            &&& !resolver.allow_ipv6 ==> {
                &&& targets.len() == group@.len()
                &&& forall|i: int| #![trigger targets[i]]
                    0 <= i < targets.len() ==> call_ensures(
                        R::immediate_target,
                        (&group@[i],),
                        &targets[i],
                    )
                &&& forall|i: int| #![trigger places.contains(i)]
                    0 <= i < targets.len() ==> (places.contains(i) <==> targets[i] is V4)
            }
        }),
{
    if resolver.allow_ipv6 {
        (Seq::new(group@.len(), |a: int| a), Seq::empty())
    } else {
        let pruned = out->Some_0.0@;
        let targets = choose|targets: Seq<IpAddr>| #[trigger]
            are_targets(group@, targets) && pruned == ipv4_routes(group@, targets);
        let places = lemma_places_of_ipv4(group@, targets);
        assert forall|i: int| #![trigger places.contains(i)] 0 <= i < targets.len() implies (
        places.contains(i) <==> targets[i] is V4) by {
            if places.contains(i) {
                let a = choose|a: int| 0 <= a < places.len() && places[a] == i;
                assert(targets[places[a]] is V4);
            }
        }
        (places, targets)
    }
}

/// Of a group of bare addresses, just the IPv4 addresses are handed on, and the others too if IPv6
/// is allowed.
pub proof fn law_addresses_are_handed_on_by_family<E>(
    resolver: RouteResolver,
    group: ResolvedRoutes<IpAddr>,
    meta: ResolveMeta,
    out: Option<(ResolvedRoutes<IpAddr>, ResolveMeta)>,
)
    requires
        call_ensures(
            RouteResolver::resolve::<IpAddr, E>,
            (&resolver, Ok::<ResolvedRoutes<IpAddr>, E>(group), meta),
            out,
        ),
    ensures
        out matches Some(handed_on) && handed_on.0@ == group@.filter(
            |address: IpAddr| resolver.allow_ipv6 || address is V4,
        ),
{
    let kept = |address: IpAddr| resolver.allow_ipv6 || address is V4;
    if resolver.allow_ipv6 {
        lemma_filter_keeps_all(group@, kept);
    } else {
        law_addresses_are_pruned_by_family(group@, out->Some_0.0@);
        assert(kept =~= |address: IpAddr| address is V4);
    }
}

proof fn lemma_filter_keeps_all<T>(s: Seq<T>, kept: spec_fn(T) -> bool)
    requires
        forall|x: T| #[trigger] kept(x),
    ensures
        s.filter(kept) == s,
    decreases s.len(),
{
    reveal(Seq::filter);
    if s.len() > 0 {
        lemma_filter_keeps_all(s.drop_last(), kept);
        assert(kept(s.last()));
        assert(s.drop_last().push(s.last()) =~= s);
    }
}

/// Only IPv4 addresses are IPv4 addresses, and an address connects to itself.
pub proof fn law_addresses_are_told_apart(address: IpAddr, v4: bool, target: &IpAddr)
    requires
        call_ensures(IpAddr::is_ipv4, (&address,), v4),
        call_ensures(<IpAddr as ResolvedRoute>::immediate_target, (&address,), target),
    ensures
        match address {
            IpAddr::V4(_) => v4,
            IpAddr::V6(_) => !v4,
        },
        *target == address,
{
}

/// Each route is marked with its own position, and the routes stay where they are.
pub proof fn law_marks_are_positions<R>(
    routes: Vec<R>,
    marked: Vec<(R, ResolveMeta)>,
    i: int,
)
    requires
        call_ensures(mark_positions::<R>, (routes,), marked),
    ensures
        marked@.len() == routes@.len(),
        0 <= i < routes@.len() ==> marked@[i].0 == routes@[i]
            && marked@[i].1.original_group_index == i,
{
}

/// A group has the routes that it was made of, and is empty just when there are none.
pub proof fn law_groups_have_their_routes<R>(routes: Vec<R>, group: ResolvedRoutes<R>, empty: bool)
    requires
        call_ensures(ResolvedRoutes::<R>::new, (routes,), group),
        call_ensures(ResolvedRoutes::<R>::is_empty, (&group,), empty),
    ensures
        group@ == routes@,
        empty <==> routes@.len() == 0,
{
}

} // verus!
