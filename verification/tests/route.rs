use route_schedule::route::{
    mark_positions, IpAddr, ResolveMeta, ResolvedRoute, ResolvedRoutes, RouteResolver,
};

const V4_A: IpAddr = IpAddr::V4(0x01020304);
const V4_B: IpAddr = IpAddr::V4(0x05060708);
const V6_A: IpAddr = IpAddr::V6(0x1234);
const V6_B: IpAddr = IpAddr::V6(0x5678);

fn meta(original_group_index: usize) -> ResolveMeta {
    ResolveMeta { original_group_index }
}

fn resolve(allow_ipv6: bool, routes: Vec<IpAddr>) -> Vec<IpAddr> {
    let resolution: Result<_, ()> = Ok(ResolvedRoutes::new(routes));
    let (group, group_meta) = RouteResolver { allow_ipv6 }
        .resolve(resolution, meta(7))
        .expect("resolved");
    assert_eq!(group_meta, meta(7));
    group.into_iter().collect()
}

#[test]
fn failed_resolution_hands_on_nothing() {
    for allow_ipv6 in [false, true] {
        let resolution: Result<ResolvedRoutes<IpAddr>, &str> = Err("no such name");
        assert!(RouteResolver { allow_ipv6 }.resolve(resolution, meta(0)).is_none());
    }
}

#[test]
fn ipv6_is_pruned_unless_allowed() {
    let routes = vec![V6_A, V4_A, V6_B, V4_B];
    assert_eq!(resolve(true, routes.clone()), routes);
    assert_eq!(resolve(false, routes.clone()), vec![V4_A, V4_B]);
    assert_eq!(resolve(false, resolve(false, routes)), vec![V4_A, V4_B]);
    // The group is handed on even if nothing is left of it.
    assert_eq!(resolve(false, vec![V6_A, V6_B]), vec![]);
    assert_eq!(resolve(true, vec![]), vec![]);
}

#[test]
fn marks_are_positions() {
    assert_eq!(
        mark_positions(vec!["a", "b", "c"]),
        vec![("a", meta(0)), ("b", meta(1)), ("c", meta(2))]
    );
    assert_eq!(mark_positions::<u8>(vec![]), vec![]);
}

#[test]
fn one_group_per_resolved_route() {
    let resolver = RouteResolver { allow_ipv6: true };
    let marked = mark_positions(vec!["first", "broken", "third"]);
    // The resolutions finish in reverse.
    let handed_on: Vec<(ResolveMeta, Vec<IpAddr>)> = marked
        .into_iter()
        .rev()
        .filter_map(|(name, route_meta)| {
            let resolution = match name {
                "first" => Ok(ResolvedRoutes::new(vec![V4_A])),
                "third" => Ok(ResolvedRoutes::new(vec![V6_A])),
                _ => Err(()),
            };
            resolver.resolve(resolution, route_meta)
        })
        .map(|(group, group_meta)| (group_meta, group.into_iter().collect()))
        .collect();
    assert_eq!(handed_on, vec![(meta(2), vec![V6_A]), (meta(0), vec![V4_A])]);
}

#[test]
fn groups_know_whether_they_are_empty() {
    assert!(ResolvedRoutes::<u8>::new(vec![]).is_empty());
    assert!(!ResolvedRoutes::new(vec![1]).is_empty());
    assert_eq!(ResolvedRoutes::new(vec![3, 1, 2]).into_iter().collect::<Vec<_>>(), vec![3, 1, 2]);
}

#[test]
fn addresses_target_themselves() {
    assert_eq!(V4_A.immediate_target(), &V4_A);
    assert!(V4_A.is_ipv4());
    assert!(!V6_A.is_ipv4());
}

#[test]
fn metas_are_ordered_by_position() {
    assert!(meta(1) < meta(2));
    assert!(meta(2) > meta(1));
    assert!(!(meta(2) < meta(2)));
    assert_eq!(meta(4).min(meta(3)), meta(3));
}
