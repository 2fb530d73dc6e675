use engine::cells::CellMap;
use engine::density::DensityMap;
use engine::itinerary::{
    reached_exit, recompute_path_if_blocked, redirect_if_expired, redirect_if_leaving_early,
    spawn_visitor, Itinerary, VISIT_DURATION_TICKS,
};
use engine::map::{Bounds3d, InfrastructureShape, ParkMap};

fn build_map() -> ParkMap {
    ParkMap::new("m".into(), Bounds3d::new(0, 5, 0, 5, -1, 1))
}

fn expired_visitor_at(position: (i32, i32, i32)) -> Itinerary {
    Itinerary {
        path: vec![],
        target: position,
        ticks_since_spawn: VISIT_DURATION_TICKS,
        is_leaving: false,
    }
}

// ---- redirect_if_expired ----

#[test]
fn destinations_test_does_nothing_when_there_is_no_exit() {
    let park_map = build_map();
    let mut v = expired_visitor_at((0, 0, 0));

    redirect_if_expired(&mut v, &park_map, (0, 0, 0), None);

    assert!(!v.is_leaving);
}

#[test]
fn destinations_test_does_nothing_when_visitor_has_not_expired() {
    let park_map = build_map();
    let mut v = expired_visitor_at((0, 0, 0));
    v.ticks_since_spawn = 0;

    redirect_if_expired(&mut v, &park_map, (0, 0, 0), Some((1, 0, 0)));

    assert!(!v.is_leaving);
}

#[test]
fn destinations_test_does_not_overwrite_target_when_visitor_is_already_leaving() {
    let park_map = build_map();
    let mut v = expired_visitor_at((0, 0, 0));
    v.is_leaving = true;
    v.target = (3, 3, 0);

    redirect_if_expired(&mut v, &park_map, (0, 0, 0), Some((1, 0, 0)));

    assert_eq!(v.target, (3, 3, 0));
}

#[test]
fn destinations_test_sets_is_leaving_and_retargets_exit_when_expired() {
    let park_map = build_map();
    let mut v = expired_visitor_at((0, 0, 0));

    redirect_if_expired(&mut v, &park_map, (0, 0, 0), Some((4, 4, 0)));

    assert!(v.is_leaving);
    assert_eq!(v.target, (4, 4, 0));
}

#[test]
fn destinations_test_computes_path_toward_exit() {
    let mut park_map = build_map();
    park_map.set_infrastructure(0, 0, 0, InfrastructureShape::Path);
    park_map.set_infrastructure(1, 0, 0, InfrastructureShape::Path);
    let mut v = expired_visitor_at((0, 0, 0));

    redirect_if_expired(&mut v, &park_map, (0, 0, 0), Some((1, 0, 0)));

    assert_eq!(v.path, vec![(1, 0, 0)]);
}

#[test]
fn a_visit_expires_after_its_full_length() {
    let mut v = expired_visitor_at((0, 0, 0));
    assert!(v.has_expired());
    v.ticks_since_spawn = VISIT_DURATION_TICKS - 1;
    assert!(!v.has_expired());
}

// ---- redirect_if_leaving_early ----

fn dissatisfied_visitor_at(position: (i32, i32, i32)) -> Itinerary {
    Itinerary {
        path: vec![],
        target: position,
        ticks_since_spawn: 0,
        is_leaving: false,
    }
}

#[test]
fn leaving_early_does_nothing_when_there_is_no_exit() {
    let park_map = build_map();
    let mut v = dissatisfied_visitor_at((0, 0, 0));

    redirect_if_leaving_early(&mut v, &park_map, (0, 0, 0), None, true);

    assert!(!v.is_leaving);
}

#[test]
fn destinations_test_does_nothing_when_satisfaction_is_above_the_threshold() {
    let park_map = build_map();
    let mut v = dissatisfied_visitor_at((0, 0, 0));

    redirect_if_leaving_early(&mut v, &park_map, (0, 0, 0), Some((1, 0, 0)), false);

    assert!(!v.is_leaving);
}

#[test]
fn leaving_early_does_not_overwrite_target_when_visitor_is_already_leaving() {
    let park_map = build_map();
    let mut v = dissatisfied_visitor_at((0, 0, 0));
    v.is_leaving = true;
    v.target = (3, 3, 0);

    redirect_if_leaving_early(&mut v, &park_map, (0, 0, 0), Some((1, 0, 0)), true);

    assert_eq!(v.target, (3, 3, 0));
}

#[test]
fn destinations_test_sets_is_leaving_and_retargets_exit_when_dissatisfied() {
    let park_map = build_map();
    let mut v = dissatisfied_visitor_at((0, 0, 0));

    redirect_if_leaving_early(&mut v, &park_map, (0, 0, 0), Some((4, 4, 0)), true);

    assert!(v.is_leaving);
    assert_eq!(v.target, (4, 4, 0));
}

#[test]
fn leaving_early_computes_path_toward_exit() {
    let mut park_map = build_map();
    park_map.set_infrastructure(0, 0, 0, InfrastructureShape::Path);
    park_map.set_infrastructure(1, 0, 0, InfrastructureShape::Path);
    let mut v = dissatisfied_visitor_at((0, 0, 0));

    redirect_if_leaving_early(&mut v, &park_map, (0, 0, 0), Some((1, 0, 0)), true);

    assert_eq!(v.path, vec![(1, 0, 0)]);
}

// ---- recompute_path_if_blocked ----

fn visitor_with_path(path: Vec<(i32, i32, i32)>, target: (i32, i32, i32)) -> Itinerary {
    Itinerary {
        path,
        target,
        ticks_since_spawn: 0,
        is_leaving: false,
    }
}

#[test]
fn destinations_test_does_nothing_when_path_is_empty() {
    let park_map = build_map();
    let mut v = visitor_with_path(vec![], (0, 0, 0));

    recompute_path_if_blocked(&mut v, &park_map, (0, 0, 0));

    assert!(v.path.is_empty());
}

#[test]
fn destinations_test_does_nothing_when_next_cell_is_still_walkable() {
    let mut park_map = build_map();
    park_map.set_infrastructure(0, 0, 0, InfrastructureShape::Path);
    park_map.set_infrastructure(1, 0, 0, InfrastructureShape::Path);
    let mut v = visitor_with_path(vec![(1, 0, 0)], (1, 0, 0));

    recompute_path_if_blocked(&mut v, &park_map, (0, 0, 0));

    assert_eq!(v.path, vec![(1, 0, 0)]);
}

#[test]
fn destinations_test_recomputes_path_when_next_cell_becomes_unwalkable() {
    let mut park_map = build_map();
    park_map.set_infrastructure(0, 0, 0, InfrastructureShape::Path);
    park_map.set_infrastructure(0, 1, 0, InfrastructureShape::Path);
    park_map.set_infrastructure(1, 1, 0, InfrastructureShape::Path);
    // (1,0,0) is deliberately left without infrastructure: the blocked cell
    let mut v = visitor_with_path(vec![(1, 0, 0)], (1, 1, 0));

    recompute_path_if_blocked(&mut v, &park_map, (0, 0, 0));

    assert_ne!(v.path.first(), Some(&(1, 0, 0)));
    assert!(!v.path.is_empty(), "an alternate route exists via (0,1,0)");
}

#[test]
fn destinations_test_clears_path_when_no_alternate_route_exists() {
    let mut park_map = build_map();
    park_map.set_infrastructure(0, 0, 0, InfrastructureShape::Path);
    // (1,0,0) is both the target and now unwalkable: no other route exists
    let mut v = visitor_with_path(vec![(1, 0, 0)], (1, 0, 0));

    recompute_path_if_blocked(&mut v, &park_map, (0, 0, 0));

    assert!(v.path.is_empty());
}

#[test]
fn a_leaving_visitor_with_no_cell_left_has_reached_the_exit() {
    let mut v = visitor_with_path(vec![], (0, 0, 0));
    assert!(!reached_exit(&v));
    v.is_leaving = true;
    assert!(reached_exit(&v));
    v.path.push((1, 0, 0));
    assert!(!reached_exit(&v));
}

// ---- spawning ----

#[test]
fn spawning_does_nothing_without_entrance() {
    let park_map = build_map();
    let mut density: DensityMap = CellMap::new();

    assert!(spawn_visitor(&park_map, &mut density, None).is_none());
    assert!(density.is_empty());
}

#[test]
fn spawning_falls_back_to_the_entrance_when_no_other_cell_is_walkable() {
    let mut park_map = build_map();
    park_map.set_infrastructure(0, 0, 0, InfrastructureShape::Path);
    let mut density: DensityMap = CellMap::new();

    let (id, v) = spawn_visitor(&park_map, &mut density, Some((0, 0, 0))).unwrap();

    assert_eq!(v.target, (0, 0, 0));
    assert!(v.path.is_empty());
    assert!(!v.is_leaving);
    assert_eq!(v.ticks_since_spawn, 0);
    assert_eq!(density.get((0, 0, 0)), Some(&vec![id]));
}

#[test]
fn spawning_targets_another_walkable_cell_and_routes_there() {
    let mut park_map = build_map();
    park_map.set_infrastructure(0, 0, 0, InfrastructureShape::Path);
    park_map.set_infrastructure(1, 0, 0, InfrastructureShape::Path);
    let mut density: DensityMap = CellMap::new();

    let (first, v) = spawn_visitor(&park_map, &mut density, Some((0, 0, 0))).unwrap();
    let (second, _) = spawn_visitor(&park_map, &mut density, Some((0, 0, 0))).unwrap();

    assert_eq!(v.target, (1, 0, 0));
    assert_eq!(v.path, vec![(1, 0, 0)]);
    assert_ne!(first, second);
    assert_eq!(density.get((0, 0, 0)), Some(&vec![first, second]));
}
