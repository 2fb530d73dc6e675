use engine::map::{
    movement_cost_for, rotate_footprint, vertical_movement_cost_for, Bounds3d, BuildingId,
    InfrastructureShape, Parcel, ParkMap,
};
use engine::protocol::Rotation;

fn build_test_map() -> ParkMap {
    let map_id = "map-1".to_string();
    let bounds_3d = Bounds3d::new(0, 0, 0, 0, 0, 0);
    ParkMap::new(map_id, bounds_3d)
}

fn start_parcel(cells: Vec<(i32, i32)>) -> Parcel {
    Parcel {
        id: "start".into(),
        cells,
        unlocked: true,
        price: 0,
    }
}

fn building(id: &str, template: &str) -> BuildingId {
    BuildingId {
        building_id: id.into(),
        template_id: template.into(),
    }
}

// ---- movement costs ----

#[test]
fn test_movement_cost_for_with_different_material_id() {
    let mut result = movement_cost_for("path");
    assert_eq!(result, 1);
    result = movement_cost_for("ramp");
    assert_eq!(result, 2);
    result = movement_cost_for("grass");
    assert_eq!(result, 5);
    result = movement_cost_for("water");
    assert_eq!(result, 10);
}

#[test]
fn test_vertical_movement_cost_for_with_different_infrastructure() {
    let mut result = vertical_movement_cost_for(&InfrastructureShape::Path);
    assert_eq!(result, 0);
    result = vertical_movement_cost_for(&InfrastructureShape::Ramp { to_z: 1 });
    assert_eq!(result, 1);
    result = vertical_movement_cost_for(&InfrastructureShape::Stairs { to_z: 1 });
    assert_eq!(result, 2);
}

// ---- rotate_footprint ----

#[test]
fn map_test_rotate_footprint_0_degrees_is_identity() {
    let footprint = vec![(1, 0), (0, 1)];
    let rotated = rotate_footprint(&footprint, Rotation::Deg0);
    assert_eq!(rotated, footprint);
}

#[test]
fn map_test_rotate_footprint_90_degrees() {
    let footprint = vec![(1, 0)];
    let rotated = rotate_footprint(&footprint, Rotation::Deg90);
    assert_eq!(rotated, vec![(0, 1)]);
}

#[test]
fn map_test_rotate_footprint_180_degrees() {
    let footprint = vec![(1, 2)];
    let rotated = rotate_footprint(&footprint, Rotation::Deg180);
    assert_eq!(rotated, vec![(-1, -2)]);
}

#[test]
fn map_test_rotate_footprint_270_degrees() {
    let footprint = vec![(1, 0)];
    let rotated = rotate_footprint(&footprint, Rotation::Deg270);
    assert_eq!(rotated, vec![(0, -1)]);
}

#[test]
fn tests_test_rotate_footprint_0_degrees_is_identity() {
    let footprint = vec![(1, 0), (0, 1)];
    let rotated = rotate_footprint(&footprint, Rotation::Deg0);
    assert_eq!(rotated, footprint);
}

#[test]
fn tests_test_rotate_footprint_90_degrees() {
    let footprint = vec![(1, 0)];
    let rotated = rotate_footprint(&footprint, Rotation::Deg90);
    assert_eq!(rotated, vec![(0, 1)]);
}

#[test]
fn tests_test_rotate_footprint_180_degrees() {
    let footprint = vec![(1, 2)];
    let rotated = rotate_footprint(&footprint, Rotation::Deg180);
    assert_eq!(rotated, vec![(-1, -2)]);
}

#[test]
fn tests_test_rotate_footprint_270_degrees() {
    let footprint = vec![(1, 0)];
    let rotated = rotate_footprint(&footprint, Rotation::Deg270);
    assert_eq!(rotated, vec![(0, -1)]);
}

// ---- terrain, infrastructure, buildings ----

fn check_set_and_get_terrain() {
    let mut park_map = build_test_map();

    assert!(park_map.get_terrain(0, 0, 0).is_none());

    park_map.set_terrain(0, 0, 0, "grass".into());

    let material = park_map
        .get_terrain(0, 0, 0)
        .expect("The terrain should exist");
    assert_eq!(material, "grass");
}

#[test]
fn map_test_set_and_get_terrain() {
    check_set_and_get_terrain();
}

#[test]
fn tests_test_set_and_get_terrain() {
    check_set_and_get_terrain();
}

fn check_set_get_remove_infrastructure() {
    let mut park_map = build_test_map();

    assert!(park_map.get_infrastructure(0, 0, 0).is_none());

    park_map.set_infrastructure(0, 0, 0, InfrastructureShape::Path);

    let infrastructure_kind = park_map
        .get_infrastructure(0, 0, 0)
        .expect("The infrastructure should exist");
    assert_eq!(infrastructure_kind, &InfrastructureShape::Path);

    park_map.remove_infrasture(0, 0, 0);
    assert!(park_map.get_infrastructure(0, 0, 0).is_none())
}

#[test]
fn map_test_set_get_remove_infrastructure() {
    check_set_get_remove_infrastructure();
}

#[test]
fn tests_test_set_get_remove_infrastructure() {
    check_set_get_remove_infrastructure();
}

#[test]
fn test_returns_a_different_cell_when_several_are_walkable() {
    let mut map = build_test_map();
    map.set_infrastructure(0, 0, 0, InfrastructureShape::Path);
    map.set_infrastructure(1, 0, 0, InfrastructureShape::Path);

    let result = map.random_walkable_cell((0, 0, 0));

    assert_eq!(result, Some((1, 0, 0)));
}

#[test]
fn test_falls_back_to_excluded_cell_when_it_is_the_only_walkable_one() {
    let mut map = build_test_map();
    map.set_infrastructure(0, 0, 0, InfrastructureShape::Path);

    let result = map.random_walkable_cell((0, 0, 0));

    assert_eq!(result, Some((0, 0, 0)));
}

#[test]
fn test_returns_none_when_no_cell_is_walkable() {
    let map = build_test_map();

    let result = map.random_walkable_cell((0, 0, 0));

    assert_eq!(result, None);
}

fn check_set_and_get_building() {
    let mut park_map = build_test_map();

    assert!(park_map.get_building(0, 0, 0).is_none());

    park_map.set_building(0, 0, 0, building("coaster-1", "b&m-1"));

    let building_id = park_map
        .get_building(0, 0, 0)
        .expect("The building should exist");
    assert_eq!(building_id.building_id, "coaster-1");
}

#[test]
fn map_test_set_and_get_building() {
    check_set_and_get_building();
}

#[test]
fn tests_test_set_and_get_building() {
    check_set_and_get_building();
}

fn check_place_building_and_get_building_coords_by_building_id() {
    let mut park_map = build_test_map();
    let origin = (0, 0, 0);
    let footprint = [(0, 0), (0, 1), (1, 1)];
    let rotation = Rotation::Deg180;
    let building_id = building("building-1", "restaurant-1");
    assert!(park_map.get_building(0, 0, 0).is_none());

    park_map.place_building(origin, &footprint, rotation, building_id);

    let mut coords = park_map.get_building_coords_by_building_id("building-1");
    coords.sort();
    assert_eq!(coords, [(-1, -1, 0), (0, -1, 0), (0, 0, 0)])
}

#[test]
fn map_test_place_building_and_get_building_coords_by_building_id() {
    check_place_building_and_get_building_coords_by_building_id();
}

#[test]
fn tests_test_place_building_and_get_building_coords_by_building_id() {
    check_place_building_and_get_building_coords_by_building_id();
}

fn check_get_building_coords_by_building_id_that_doesnt_exist() {
    let park_map = build_test_map();

    let result = park_map.get_building_coords_by_building_id("non-existent");
    assert!(result.is_empty());
}

#[test]
fn map_test_get_building_coords_by_building_id_that_doesnt_exist() {
    check_get_building_coords_by_building_id_that_doesnt_exist();
}

#[test]
fn tests_test_get_building_coords_by_building_id_that_doesnt_exist() {
    check_get_building_coords_by_building_id_that_doesnt_exist();
}

#[test]
fn test_remove_building_on_empty_cell_does_nothing() {
    let mut park_map = build_test_map();

    park_map.remove_building(0, 0, 0);

    assert!(park_map.get_building(0, 0, 0).is_none())
}

#[test]
fn test_remove_building_purges_full_footprint_from_any_cell() {
    let mut park_map = build_test_map();
    let origin = (0, 0, 0);
    let footprint = [(0, 0), (0, 1), (1, 1)];
    let building_id = building("building-1", "restaurant-1");

    park_map.place_building(origin, &footprint, Rotation::Deg0, building_id);
    assert!(park_map.get_building(0, 0, 0).is_some());
    assert!(park_map.get_building(0, 1, 0).is_some());
    assert!(park_map.get_building(1, 1, 0).is_some());

    park_map.remove_building(1, 1, 0);

    assert!(park_map.get_building(0, 0, 0).is_none());
    assert!(park_map.get_building(0, 1, 0).is_none());
    assert!(park_map.get_building(1, 1, 0).is_none());
}

// ---- parcels and levels ----

fn check_parcel_at_and_is_unlocked() {
    let mut park_map = build_test_map();

    assert!(park_map.parcel_at(0, 0).is_none());
    assert!(!park_map.is_unlocked(0, 0));

    park_map.parcels.push(start_parcel(vec![(0, 0)]));

    assert!(park_map.is_unlocked(0, 0));
    assert!(!park_map.is_unlocked(5, 5));
}

#[test]
fn map_test_parcel_at_and_is_unlocked() {
    check_parcel_at_and_is_unlocked();
}

#[test]
fn tests_test_parcel_at_and_is_unlocked() {
    check_parcel_at_and_is_unlocked();
}

fn check_new_map_has_one_level() {
    let park_map = build_test_map();
    assert!(park_map.is_level_available(0));
    assert!(!park_map.is_level_available(-1));
    assert!(!park_map.is_level_available(1));
}

#[test]
fn map_test_new_map_has_one_level() {
    check_new_map_has_one_level();
}

#[test]
fn tests_test_new_map_has_one_level() {
    check_new_map_has_one_level();
}
