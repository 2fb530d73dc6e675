use engine::building_template::{
    BuildingCatalog, BuildingCategory, BuildingTemplate, CrossingFlags, VisitorBehavior,
};
use engine::commands::{
    apply_terrain, command_response, place_infrastructure, place_new_building,
    remove_building_at, remove_infrastructure, send_command, shape_for_kind, Command,
    CommandRequest, CommandResponse,
};
use engine::map::{Bounds3d, BuildingId, InfrastructureShape, Parcel, ParkMap};
use engine::protocol::{message_for, ErrorCode, InfrastructureKind, Rotation};

/// The parts of the game world that commands touch.
struct World {
    park_map: ParkMap,
    catalog: BuildingCatalog,
    balance: f64,
}

fn template(template_id: &str, footprint: Vec<(i32, i32)>, cost: u32) -> BuildingTemplate {
    BuildingTemplate {
        template_id: template_id.into(),
        name: template_id.into(),
        category: BuildingCategory::ShopUtility,
        footprint,
        cost,
        visitor_behavior: VisitorBehavior::LongStay,
        crossing_flags: CrossingFlags {
            bridge_above_allowed: false,
            tunnel_below_allowed: false,
        },
        construction_time_ticks: None,
        needs_relief: vec![("hunger".to_string(), 60)],
        resource_vector: None,
        tags: vec![],
        intensity: None,
        cycle_capacity: None,
        cycle_duration_ticks: None,
        price_per_use: None,
        unlock_biome: None,
    }
}

fn parcel(id: &str, cells: Vec<(i32, i32)>) -> Parcel {
    Parcel {
        id: id.into(),
        cells,
        unlocked: true,
        price: 0,
    }
}

fn build_world() -> World {
    let mut park_map = ParkMap::new("default".into(), Bounds3d::new(0, 50, 0, 30, -1, 1));
    park_map.parcels.push(parcel("p1", vec![(0, 0)]));
    let catalog = BuildingCatalog::from_templates(vec![
        template("sit_down_restaurant", vec![(0, 0), (1, 0), (0, 1), (1, 1)], 3000),
        template("restaurant-1", vec![(0, 0), (0, 1), (1, 1)], 0),
    ])
    .unwrap();
    World {
        park_map,
        catalog,
        balance: 1000.0,
    }
}

/// Carries out a request as the engine does: the world's balance decides
/// whether a cost can be paid, and is debited when it is.
fn send(world: &mut World, request: CommandRequest) -> CommandResponse {
    let balance = world.balance;
    let outcome = send_command(
        &mut world.park_map,
        &world.catalog,
        &request,
        |cost: u32| balance >= cost as f64,
    );
    if let Some(cost) = outcome.charge {
        world.balance -= cost as f64;
    }
    outcome.response
}

fn request(park_id: &str, command: Option<Command>) -> CommandRequest {
    CommandRequest {
        park_id: park_id.into(),
        command,
    }
}

fn check_apply_terrain_succeeds() {
    let mut world = build_world();
    let command = Command::ApplyTerrain {
        material_id: "grass".into(),
        coordinates: vec![(0, 0, 0)],
    };

    let inner = send(&mut world, request("1", Some(command)));

    assert!(inner.success);
    assert_eq!(inner.message, "Action executed and registered by the engine");
    assert_eq!(world.park_map.get_terrain(0, 0, 0), Some(&"grass".to_string()))
}

#[test]
fn service_test_send_command_with_apply_terrain_succeeds() {
    check_apply_terrain_succeeds();
}

#[test]
fn tests_test_send_command_with_apply_terrain_succeeds() {
    check_apply_terrain_succeeds();
}

fn check_place_infrastructure_succeeds() {
    let mut world = build_world();
    let command = Command::PlaceInfrastructure {
        kind: Some(InfrastructureKind::Path),
        to_z: 0,
        coordinates: vec![(0, 0, 0)],
    };

    let inner = send(&mut world, request("1", Some(command)));

    assert!(inner.success);
    assert_eq!(inner.message, "Action executed and registered by the engine");
    assert_eq!(
        world.park_map.get_infrastructure(0, 0, 0),
        Some(&InfrastructureShape::Path)
    )
}

#[test]
fn service_test_send_command_with_place_infrastructure_succeeds() {
    check_place_infrastructure_succeeds();
}

#[test]
fn tests_test_send_command_with_place_infrastructure_succeeds() {
    check_place_infrastructure_succeeds();
}

fn check_remove_infrastructure_succeeds() {
    let mut world = build_world();
    world
        .park_map
        .set_infrastructure(0, 0, 0, InfrastructureShape::Path);
    let command = Command::RemoveInfrastructure {
        coordinates: vec![(0, 0, 0)],
    };

    let inner = send(&mut world, request("1", Some(command)));

    assert!(inner.success);
    assert_eq!(inner.message, "Action executed and registered by the engine");
    assert!(world.park_map.get_infrastructure(0, 0, 0).is_none());
}

#[test]
fn service_test_send_command_with_remove_infrastructure_succeeds() {
    check_remove_infrastructure_succeeds();
}

#[test]
fn tests_test_send_command_with_remove_infrastructure_succeeds() {
    check_remove_infrastructure_succeeds();
}

fn place_restaurant_request() -> CommandRequest {
    request(
        "1",
        Some(Command::PlaceBuilding {
            template_id: "sit_down_restaurant".into(),
            origin: Some((0, 0, 0)),
            rotation: Some(Rotation::Deg0),
        }),
    )
}

#[test]
fn service_test_send_command_with_place_building_succeeds() {
    let mut world = build_world();
    world
        .park_map
        .parcels
        .push(parcel("p2", vec![(1, 0), (0, 1), (1, 1)]));
    world.balance = 5000.0; // the restaurant costs 3000, above the default 1000

    let inner = send(&mut world, place_restaurant_request());

    assert!(inner.success);
    assert_eq!(inner.message, "Action executed and registered by the engine");
    assert!(world.park_map.get_building(0, 0, 0).is_some());
    assert!(world.park_map.get_building(1, 0, 0).is_some());
    assert!(world.park_map.get_building(0, 1, 0).is_some());
    assert!(world.park_map.get_building(1, 1, 0).is_some());
}

#[test]
fn tests_test_send_command_with_place_building_succeeds() {
    let mut world = build_world();
    world.park_map.parcels.push(parcel("p2", vec![(0, 1), (1, 1)]));

    let command = Command::PlaceBuilding {
        template_id: "restaurant-1".into(),
        origin: Some((0, 0, 0)),
        rotation: Some(Rotation::Deg0),
    };
    let inner = send(&mut world, request("1", Some(command)));

    assert!(inner.success);
    assert_eq!(inner.message, "Action executed and registered by the engine");
    assert!(world.park_map.get_building(0, 0, 0).is_some());
    assert!(world.park_map.get_building(0, 1, 0).is_some());
    assert!(world.park_map.get_building(1, 1, 0).is_some());
}

#[test]
fn test_send_command_with_place_building_debits_balance_on_success() {
    let mut world = build_world();
    world
        .park_map
        .parcels
        .push(parcel("p2", vec![(1, 0), (0, 1), (1, 1)]));
    world.balance = 5000.0;

    let inner = send(&mut world, place_restaurant_request());

    assert!(inner.success);
    assert_eq!(world.balance, 2000.0);
}

#[test]
fn test_send_command_with_place_building_fails_when_funds_insufficient() {
    let mut world = build_world();
    world
        .park_map
        .parcels
        .push(parcel("p2", vec![(1, 0), (0, 1), (1, 1)]));
    world.balance = 100.0; // the restaurant costs 3000

    let inner = send(&mut world, place_restaurant_request());

    assert!(!inner.success);
    assert_eq!(inner.error_code, ErrorCode::ErrorInsufficientFunds);
    assert_eq!(inner.message, "Not enough funds");
    assert!(
        world.park_map.get_building(0, 0, 0).is_none(),
        "building must not be placed when funds are insufficient"
    );
    assert_eq!(
        world.balance, 100.0,
        "balance must not be debited when the placement is rejected"
    );
}

fn check_remove_building_succeeds() {
    let mut world = build_world();
    world.park_map.set_building(
        0,
        0,
        0,
        BuildingId {
            building_id: "building-1".into(),
            template_id: "restaurant-1".into(),
        },
    );
    let command = Command::RemoveBuilding {
        position: Some((0, 0, 0)),
    };

    let inner = send(&mut world, request("1", Some(command)));

    assert!(inner.success);
    assert_eq!(inner.message, "Action executed and registered by the engine");
    assert!(world.park_map.get_building(0, 0, 0).is_none());
}

#[test]
fn service_test_send_command_with_remove_building_succeeds() {
    check_remove_building_succeeds();
}

#[test]
fn tests_test_send_command_with_remove_building_succeeds() {
    check_remove_building_succeeds();
}

fn check_without_command_fails() {
    let mut world = build_world();

    let inner = send(&mut world, request("1", None));

    assert!(!inner.success);
    assert_eq!(inner.message, "No command given");
}

#[test]
fn service_test_send_command_without_command_fails() {
    check_without_command_fails();
}

#[test]
fn tests_test_send_command_without_command_fails() {
    check_without_command_fails();
}

fn check_with_empty_park_id_fails() {
    let mut world = build_world();
    let command = Command::ApplyTerrain {
        material_id: "grass".into(),
        coordinates: vec![(0, 0, 0)],
    };

    let inner = send(&mut world, request("", Some(command)));

    assert!(!inner.success);
    assert_eq!(inner.message, "park_id is empty");
}

#[test]
fn service_test_send_command_with_empty_park_id_fails() {
    check_with_empty_park_id_fails();
}

#[test]
fn tests_test_send_command_with_empty_park_id_fails() {
    check_with_empty_park_id_fails();
}

// ---- the map as sent to clients ----

#[test]
fn test_get_map_returns_terrain_and_infrastructure_cells() {
    let mut world = build_world();
    world.park_map.set_terrain(0, 0, 0, "grass".into());
    world
        .park_map
        .set_infrastructure(1, 0, 0, InfrastructureShape::Ramp { to_z: 1 });

    let snapshot = world.park_map.snapshot();

    assert_eq!(snapshot.terrain, vec![((0, 0, 0), "grass".to_string())]);
    assert_eq!(
        snapshot.infrastructure,
        vec![((1, 0, 0), InfrastructureShape::Ramp { to_z: 1 })]
    );
}

#[test]
fn test_get_map_returns_the_map_bounds() {
    let world = build_world();

    let snapshot = world.park_map.snapshot();

    let bounds = &world.park_map.bounds;
    assert_eq!(snapshot.min_x, bounds.min_x);
    assert_eq!(snapshot.max_x, bounds.max_x);
    assert_eq!(snapshot.min_y, bounds.min_y);
    assert_eq!(snapshot.max_y, bounds.max_y);
}

#[test]
fn test_get_map_returns_the_entrance_when_set() {
    let mut world = build_world();
    world.park_map.entrance = Some((2, 3, 0));

    let snapshot = world.park_map.snapshot();

    assert_eq!(snapshot.entrance, Some((2, 3, 0)));
}

#[test]
fn test_get_map_returns_building_cells() {
    let mut world = build_world();
    world.park_map.set_building(
        0,
        0,
        0,
        BuildingId {
            building_id: "building-1".into(),
            template_id: "restaurant-1".into(),
        },
    );

    let snapshot = world.park_map.snapshot();

    assert_eq!(
        snapshot.building,
        vec![(
            (0, 0, 0),
            BuildingId {
                building_id: "building-1".into(),
                template_id: "restaurant-1".into(),
            }
        )]
    );
}

#[test]
fn test_get_map_returns_no_entrance_when_unset() {
    let world = build_world();

    let snapshot = world.park_map.snapshot();

    assert_eq!(snapshot.entrance, None);
}

// ---- each command on its own ----

#[test]
fn terrain_brush_keeps_the_cells_before_the_first_refused_one() {
    let mut world = build_world();
    world.park_map.parcels.push(parcel("p2", vec![(1, 0)]));

    let result = apply_terrain(
        &mut world.park_map,
        &"sand".to_string(),
        &[(0, 0, 0), (1, 0, 0), (9, 9, 0), (2, 0, 0)],
    );

    assert_eq!(result, Err(ErrorCode::ErrorOutOfBounds));
    assert_eq!(world.park_map.get_terrain(0, 0, 0), Some(&"sand".to_string()));
    assert_eq!(world.park_map.get_terrain(1, 0, 0), Some(&"sand".to_string()));
    assert!(world.park_map.get_terrain(2, 0, 0).is_none());
}

#[test]
fn refused_infrastructure_leaves_every_cell_untouched() {
    let mut world = build_world();

    let result = place_infrastructure(
        &mut world.park_map,
        &world.catalog,
        Some(InfrastructureKind::Path),
        0,
        &[(0, 0, 0), (1, 0, 0)],
    );

    assert_eq!(result, Err(ErrorCode::ErrorOutOfBounds));
    assert!(world.park_map.get_infrastructure(0, 0, 0).is_none());
}

#[test]
fn unknown_infrastructure_kind_is_an_empty_command() {
    let mut world = build_world();

    let result = place_infrastructure(&mut world.park_map, &world.catalog, None, 0, &[(0, 0, 0)]);

    assert_eq!(result, Err(ErrorCode::ErrorEmpty));
    assert!(world.park_map.get_infrastructure(0, 0, 0).is_none());
}

#[test]
fn ramps_and_stairs_take_the_level_they_lead_to() {
    assert_eq!(shape_for_kind(Some(InfrastructureKind::Path), 4), Ok(InfrastructureShape::Path));
    assert_eq!(
        shape_for_kind(Some(InfrastructureKind::Ramp), 1),
        Ok(InfrastructureShape::Ramp { to_z: 1 })
    );
    assert_eq!(
        shape_for_kind(Some(InfrastructureKind::Stairs), -1),
        Ok(InfrastructureShape::Stairs { to_z: -1 })
    );
    assert_eq!(shape_for_kind(None, 0), Err(ErrorCode::ErrorEmpty));
}

#[test]
fn removing_infrastructure_from_an_empty_cell_is_refused_whole() {
    let mut world = build_world();
    world
        .park_map
        .set_infrastructure(0, 0, 0, InfrastructureShape::Path);

    let result = remove_infrastructure(&mut world.park_map, &[(0, 0, 0), (1, 0, 0)]);

    assert_eq!(result, Err(ErrorCode::ErrorCollision));
    assert!(world.park_map.get_infrastructure(0, 0, 0).is_some());
}

#[test]
fn placing_an_unknown_template_is_refused() {
    let mut world = build_world();

    let result = place_new_building(
        &mut world.park_map,
        &world.catalog,
        "castle",
        Some((0, 0, 0)),
        Some(Rotation::Deg0),
        |_: u32| true,
    );

    assert_eq!(result, Err(ErrorCode::ErrorInvalidTemplate));
}

#[test]
fn placing_without_origin_or_rotation_is_an_empty_command() {
    let mut world = build_world();

    let no_origin = place_new_building(
        &mut world.park_map,
        &world.catalog,
        "restaurant-1",
        None,
        Some(Rotation::Deg0),
        |_: u32| true,
    );
    let no_rotation = place_new_building(
        &mut world.park_map,
        &world.catalog,
        "restaurant-1",
        Some((0, 0, 0)),
        None,
        |_: u32| true,
    );

    assert_eq!(no_origin, Err(ErrorCode::ErrorEmpty));
    assert_eq!(no_rotation, Err(ErrorCode::ErrorEmpty));
}

#[test]
fn a_placed_building_gets_a_fresh_id_shared_by_its_cells() {
    let mut world = build_world();
    world
        .park_map
        .parcels
        .push(parcel("p2", vec![(1, 0), (0, 1), (1, 1)]));

    let first = place_new_building(
        &mut world.park_map,
        &world.catalog,
        "restaurant-1",
        Some((0, 0, 0)),
        Some(Rotation::Deg0),
        |_: u32| true,
    );

    assert_eq!(first, Ok(0));
    let id = world.park_map.get_building(0, 0, 0).unwrap().building_id.clone();
    assert!(!id.is_empty());
    assert_eq!(world.park_map.get_building(1, 1, 0).unwrap().building_id, id);
    assert_eq!(
        world.park_map.get_building(0, 1, 0).unwrap().template_id,
        "restaurant-1"
    );
}

#[test]
fn a_building_cannot_overlap_another() {
    let mut world = build_world();
    world
        .park_map
        .parcels
        .push(parcel("p2", vec![(1, 0), (0, 1), (1, 1)]));
    world.balance = 10000.0;

    assert!(send(&mut world, place_restaurant_request()).success);
    let second = send(&mut world, place_restaurant_request());

    assert!(!second.success);
    assert_eq!(second.error_code, ErrorCode::ErrorCollision);
    assert_eq!(world.balance, 7000.0);
}

#[test]
fn removing_a_building_without_position_is_an_empty_command() {
    let mut world = build_world();

    assert_eq!(remove_building_at(&mut world.park_map, None), Err(ErrorCode::ErrorEmpty));
    assert_eq!(
        remove_building_at(&mut world.park_map, Some((0, 0, 0))),
        Err(ErrorCode::ErrorCollision)
    );
}

#[test]
fn answers_carry_the_message_of_their_code() {
    let ok = command_response(true, "1", Ok(()));
    assert!(ok.success);
    assert_eq!(ok.error_code, ErrorCode::ErrorNone);

    for code in [
        ErrorCode::ErrorOutOfBounds,
        ErrorCode::ErrorCollision,
        ErrorCode::ErrorCrossingNotAllowed,
        ErrorCode::ErrorEmpty,
        ErrorCode::ErrorInvalidTemplate,
        ErrorCode::ErrorInsufficientFunds,
    ] {
        let answer = command_response(true, "1", Err(code));
        assert!(!answer.success);
        assert_eq!(answer.error_code, code);
        assert_eq!(answer.message, message_for(code));
    }
    assert_eq!(message_for(ErrorCode::ErrorCollision), "Target cell is already occupied");
    assert_eq!(
        message_for(ErrorCode::ErrorOutOfBounds),
        "Target cell is out of bounds or on a locked level/parcel"
    );
}

#[test]
fn a_command_is_carried_out_even_without_a_park_id() {
    let mut world = build_world();
    let command = Command::ApplyTerrain {
        material_id: "grass".into(),
        coordinates: vec![(0, 0, 0)],
    };

    let inner = send(&mut world, request("", Some(command)));

    assert!(!inner.success);
    assert_eq!(world.park_map.get_terrain(0, 0, 0), Some(&"grass".to_string()));
}
