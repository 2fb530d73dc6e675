//! Commands that players send to the engine: each is checked against the
//! placement rules, applied to the map when the rules allow it, and answered.
use vstd::prelude::*;

use crate::cells::Cell;
use crate::building_template::BuildingCatalog;
use crate::map::{
    cells_of_building, placed_cells, placement_fits, BuildingId, InfrastructureShape, ParkMap,
};
use crate::protocol::{message_for, spec_message_for, ErrorCode, InfrastructureKind, Rotation};
use crate::text::fresh_uuid;
use crate::pathfinding::{abs_int, links_short};
use crate::validation::check_all;

verus! {

/// The answer to a command.
#[derive(Debug)]
pub struct CommandResponse {
    pub success: bool,
    pub error_code: ErrorCode,
    pub message: String,
}

/// A command sent by a player.
#[derive(Debug)]
pub enum Command {
    /// Lay a material on cells.
    ApplyTerrain { material_id: String, coordinates: Vec<Cell> },
    /// Lay infrastructure on cells; a kind the engine does not know is `None`.
    PlaceInfrastructure {
        kind: Option<InfrastructureKind>,
        to_z: i32,
        coordinates: Vec<Cell>,
    },
    /// Take infrastructure off cells.
    RemoveInfrastructure { coordinates: Vec<Cell> },
    /// Build a building; a rotation the engine does not know is `None`.
    PlaceBuilding { template_id: String, origin: Option<Cell>, rotation: Option<Rotation> },
    /// Remove the building that stands on a cell.
    RemoveBuilding { position: Option<Cell> },
}

/// A command for a park.
#[derive(Debug)]
pub struct CommandRequest {
    pub park_id: String,
    pub command: Option<Command>,
}

/// What became of a command: its outcome, the cost to be paid for it, if
/// any, and the answer to send back.
#[derive(Debug)]
pub struct CommandOutcome {
    pub result: Result<(), ErrorCode>,
    pub charge: Option<u32>,
    pub response: CommandResponse,
}

/// The index of the first cell of `cells`, from `i` on, that fails `check`,
/// or the number of cells when none fails.
pub open spec fn first_failure_from(
    cells: Seq<Cell>,
    check: spec_fn(Cell) -> Result<(), ErrorCode>,
    i: int,
) -> int
    decreases cells.len() - i,
{
    if i < 0 || i >= cells.len() {
        cells.len() as int
    } else if check(cells[i]) is Err {
        i
    } else {
        first_failure_from(cells, check, i + 1)
    }
}

/// A layer of the map with `value` laid on every cell of `cells`.
pub open spec fn painted<V>(layer: Map<Cell, V>, cells: Seq<Cell>, value: V) -> Map<Cell, V> {
    layer.union_prefer_right(Map::new(|c: Cell| cells.contains(c), |c: Cell| value))
}

pub proof fn lemma_painted_step<V>(layer: Map<Cell, V>, cells: Seq<Cell>, i: int, value: V)
    requires
        0 <= i < cells.len(),
    ensures
        painted(layer, cells.take(i + 1), value) == painted(layer, cells.take(i), value).insert(
            cells[i],
            value,
        ),
        painted(layer, cells.take(0), value) == layer,
{
    let goal = painted(layer, cells.take(i + 1), value);
    let step = painted(layer, cells.take(i), value).insert(cells[i], value);
    assert forall|c: Cell| #[trigger] step.contains_key(c) == goal.contains_key(c) && (
    goal.contains_key(c) ==> step[c] == goal[c]) by {
        crate::seqs::lemma_take_succ_contains(cells, i, c);
        let fresh = Map::new(|c2: Cell| cells.take(i + 1).contains(c2), |c2: Cell| value);
        let prev = Map::new(|c2: Cell| cells.take(i).contains(c2), |c2: Cell| value);
        assert(fresh.contains_key(c) == cells.take(i + 1).contains(c));
        assert(prev.contains_key(c) == cells.take(i).contains(c));
    }
    assert(step =~= goal);
    assert(painted(layer, cells.take(0), value) =~= layer);
}

/// The shape that a kind of infrastructure asked for takes: a kind that the
/// engine does not know makes the command empty.
pub open spec fn spec_shape_for_kind(kind: Option<InfrastructureKind>, to_z: i32) -> Result<
    InfrastructureShape,
    ErrorCode,
> {
    match kind {
        Some(InfrastructureKind::Path) => Ok(InfrastructureShape::Path),
        Some(InfrastructureKind::Ramp) => Ok(InfrastructureShape::Ramp { to_z }),
        Some(InfrastructureKind::Stairs) => Ok(InfrastructureShape::Stairs { to_z }),
        None => Err(ErrorCode::ErrorEmpty),
    }
}

pub fn shape_for_kind(kind: Option<InfrastructureKind>, to_z: i32) -> (r: Result<
    InfrastructureShape,
    ErrorCode,
>)
    ensures
        r == spec_shape_for_kind(kind, to_z),
{
    match kind {
        Some(InfrastructureKind::Path) => Ok(InfrastructureShape::Path),
        Some(InfrastructureKind::Ramp) => Ok(InfrastructureShape::Ramp { to_z }),
        Some(InfrastructureKind::Stairs) => Ok(InfrastructureShape::Stairs { to_z }),
        None => Err(ErrorCode::ErrorEmpty),
    }
}

/// Lays `material_id` on the cells in order, stopping at the first cell on
/// which terrain may not be applied: the cells before it keep the new
/// material, and its error is returned.
pub fn apply_terrain(map: &mut ParkMap, material_id: &String, coordinates: &[Cell]) -> (r: Result<
    (),
    ErrorCode,
>)
    ensures
        r == check_all(coordinates@, |c: Cell| old(map).terrain_check(c), 0),
        final(map).terrain@ == painted(
            old(map).terrain@,
            coordinates@.take(
                first_failure_from(coordinates@, |c: Cell| old(map).terrain_check(c), 0),
            ),
            *material_id,
        ),
        final(map).infrastructure@ == old(map).infrastructure@,
        final(map).building@ == old(map).building@,
        final(map).bounds == old(map).bounds,
        final(map).parcels@ == old(map).parcels@,
        final(map).unlocked_levels@ == old(map).unlocked_levels@,
        final(map).entrance == old(map).entrance,
        final(map).map_id == old(map).map_id,
{
    let ghost check = |c: Cell| old(map).terrain_check(c);
    let ghost cells = coordinates@;
    let n = coordinates.len();
    let mut i: usize = 0;
    proof {
        if n > 0 {
            lemma_painted_step(old(map).terrain@, cells, 0, *material_id);
        } else {
            assert(painted(old(map).terrain@, cells.take(0), *material_id) =~= old(map).terrain@);
        }
    }
    while i < n
        invariant
            n == cells.len(),
            cells == coordinates@,
            i <= n,
            check == (|c: Cell| old(map).terrain_check(c)),
            forall|k: int| 0 <= k < i ==> check(#[trigger] cells[k]) is Ok,
            check_all(cells, check, 0) == check_all(cells, check, i as int),
            first_failure_from(cells, check, 0) == first_failure_from(cells, check, i as int),
            map.terrain@ == painted(old(map).terrain@, cells.take(i as int), *material_id),
            map.infrastructure@ == old(map).infrastructure@,
            map.building@ == old(map).building@,
            map.bounds == old(map).bounds,
            map.parcels@ == old(map).parcels@,
            map.unlocked_levels@ == old(map).unlocked_levels@,
            map.entrance == old(map).entrance,
            map.map_id == old(map).map_id,
        decreases n - i,
    {
        let (x, y, z) = coordinates[i];
        let outcome = map.can_apply_terrain(x, y, z);
        assert(map.terrain_check((x, y, z)) == check(cells[i as int]));
        if outcome.is_err() {
            return outcome;
        }
        let ghost before = map.terrain@;
        let material = material_id.clone();
        map.set_terrain(x, y, z, material);
        proof {
            assert(map.terrain@ == before.insert(cells[i as int], *material_id));
            lemma_painted_step(old(map).terrain@, cells, i as int, *material_id);
        }
        i += 1;
    }
    proof {
        assert(cells.take(n as int) =~= cells);
    }
    Ok(())
}

/// Lays the infrastructure asked for on every cell, if it may be placed on
/// all of them; otherwise the map is left as it was and the error of the
/// first cell that fails is returned.
pub fn place_infrastructure(
    map: &mut ParkMap,
    catalog: &BuildingCatalog,
    kind: Option<InfrastructureKind>,
    to_z: i32,
    coordinates: &[Cell],
) -> (r: Result<(), ErrorCode>)
    requires
        spec_shape_for_kind(kind, to_z) matches Ok(shape) ==> old(map).level_steps_fit(
            *catalog,
            shape,
            to_z,
            coordinates@,
        ),
    ensures
        match spec_shape_for_kind(kind, to_z) {
            Err(e) => r == Err::<(), ErrorCode>(e) && *final(map) == *old(map),
            Ok(shape) => {
                &&& r == check_all(
                    coordinates@,
                    |c: Cell| old(map).infrastructure_check(*catalog, shape, to_z, c),
                    0,
                )
                &&& r is Ok ==> final(map).infrastructure@ == painted(
                    old(map).infrastructure@,
                    coordinates@,
                    shape,
                )
                &&& r is Err ==> *final(map) == *old(map)
            },
        },
        final(map).terrain@ == old(map).terrain@,
        final(map).building@ == old(map).building@,
        final(map).bounds == old(map).bounds,
        final(map).parcels@ == old(map).parcels@,
        final(map).unlocked_levels@ == old(map).unlocked_levels@,
        final(map).entrance == old(map).entrance,
        final(map).map_id == old(map).map_id,
{
    let shape = match shape_for_kind(kind, to_z) {
        Ok(shape) => shape,
        Err(e) => return Err(e),
    };
    let result = map.can_place_infrastructure(catalog, shape.duplicate(), to_z, coordinates);
    if result.is_err() {
        return result;
    }
    let ghost cells = coordinates@;
    let n = coordinates.len();
    let mut i: usize = 0;
    proof {
        if n > 0 {
            lemma_painted_step(old(map).infrastructure@, cells, 0, shape);
        } else {
            assert(painted(old(map).infrastructure@, cells.take(0), shape)
                =~= old(map).infrastructure@);
        }
    }
    while i < n
        invariant
            n == cells.len(),
            cells == coordinates@,
            i <= n,
            map.infrastructure@ == painted(old(map).infrastructure@, cells.take(i as int), shape),
            map.terrain@ == old(map).terrain@,
            map.building@ == old(map).building@,
            map.bounds == old(map).bounds,
            map.parcels@ == old(map).parcels@,
            map.unlocked_levels@ == old(map).unlocked_levels@,
            map.entrance == old(map).entrance,
            map.map_id == old(map).map_id,
        decreases n - i,
    {
        let (x, y, z) = coordinates[i];
        map.set_infrastructure(x, y, z, shape.duplicate());
        proof {
            lemma_painted_step(old(map).infrastructure@, cells, i as int, shape);
        }
        i += 1;
    }
    proof {
        assert(cells.take(n as int) =~= cells);
    }
    result
}

/// Takes the infrastructure off every cell, if it may be removed from all
/// of them; otherwise the map is left as it was and the error of the first
/// cell that fails is returned.
pub fn remove_infrastructure(map: &mut ParkMap, coordinates: &[Cell]) -> (r: Result<(), ErrorCode>)
    ensures
        r == check_all(coordinates@, |c: Cell| old(map).removal_check(c), 0),
        r is Ok ==> final(map).infrastructure@ == old(map).infrastructure@.remove_keys(
            coordinates@.to_set(),
        ),
        r is Err ==> *final(map) == *old(map),
        final(map).terrain@ == old(map).terrain@,
        final(map).building@ == old(map).building@,
        final(map).bounds == old(map).bounds,
        final(map).parcels@ == old(map).parcels@,
        final(map).unlocked_levels@ == old(map).unlocked_levels@,
        final(map).entrance == old(map).entrance,
        final(map).map_id == old(map).map_id,
{
    let result = map.can_remove_infrastructure(coordinates);
    if result.is_err() {
        return result;
    }
    let ghost cells = coordinates@;
    let n = coordinates.len();
    let mut i: usize = 0;
    proof {
        assert(cells.take(0).to_set() =~= Set::<Cell>::empty());
        assert(old(map).infrastructure@.remove_keys(cells.take(0).to_set())
            =~= old(map).infrastructure@);
    }
    while i < n
        invariant
            n == cells.len(),
            cells == coordinates@,
            i <= n,
            map.infrastructure@ == old(map).infrastructure@.remove_keys(
                cells.take(i as int).to_set(),
            ),
            map.terrain@ == old(map).terrain@,
            map.building@ == old(map).building@,
            map.bounds == old(map).bounds,
            map.parcels@ == old(map).parcels@,
            map.unlocked_levels@ == old(map).unlocked_levels@,
            map.entrance == old(map).entrance,
            map.map_id == old(map).map_id,
        decreases n - i,
    {
        let (x, y, z) = coordinates[i];
        map.remove_infrasture(x, y, z);
        proof {
            crate::seqs::lemma_take_succ_to_set(cells, i as int);
            assert(map.infrastructure@ =~= old(map).infrastructure@.remove_keys(
                cells.take(i + 1).to_set(),
            ));
        }
        i += 1;
    }
    proof {
        assert(cells.take(n as int) =~= cells);
    }
    result
}

/// Removes the building that stands at `position`, all of its cells, if it
/// may be removed; a command without a position is empty.
pub fn remove_building_at(map: &mut ParkMap, position: Option<Cell>) -> (r: Result<(), ErrorCode>)
    ensures
        match position {
            None => r == Err::<(), ErrorCode>(ErrorCode::ErrorEmpty),
            Some(c) => {
                &&& r == old(map).building_removal_check(c)
                &&& r is Ok ==> final(map).building@ == old(map).building@.remove_keys(
                    cells_of_building(old(map).building@, old(map).building@[c].building_id@),
                )
            },
        },
        r is Err ==> *final(map) == *old(map),
        final(map).terrain@ == old(map).terrain@,
        final(map).infrastructure@ == old(map).infrastructure@,
        final(map).bounds == old(map).bounds,
        final(map).parcels@ == old(map).parcels@,
        final(map).unlocked_levels@ == old(map).unlocked_levels@,
        final(map).entrance == old(map).entrance,
        final(map).map_id == old(map).map_id,
{
    match position {
        Some((x, y, z)) => {
            let result = map.can_remove_building(x, y, z);
            if result.is_ok() {
                map.remove_building(x, y, z);
            }
            result
        },
        None => Err(ErrorCode::ErrorEmpty),
    }
}

/// Whether the building asked for, when its template is known and its origin
/// and rotation are given, covers cells whose coordinates fit in `i32`.
pub open spec fn building_request_fits(
    catalog: BuildingCatalog,
    template_id: Seq<char>,
    origin: Option<Cell>,
    rotation: Option<Rotation>,
) -> bool {
    match (catalog.spec_get(template_id), origin, rotation) {
        (Some(t), Some(o), Some(rot)) => placement_fits(o, t.footprint@, rot),
        _ => true,
    }
}

/// Whether `after` is `before` with one new building of template
/// `template_id` on every cell of `cells`.
pub open spec fn building_placed(
    before: Map<Cell, BuildingId>,
    after: Map<Cell, BuildingId>,
    cells: Seq<Cell>,
    template_id: Seq<char>,
) -> bool {
    &&& forall|c: Cell| #[trigger]
        after.contains_key(c) <==> (before.contains_key(c) || cells.contains(c))
    &&& forall|c: Cell| #![trigger after[c]] cells.contains(c) ==> after[c].template_id@ == template_id
    &&& forall|c1: Cell, c2: Cell|
        #![trigger after[c1], after[c2]]
        cells.contains(c1) && cells.contains(c2) ==> after[c1].building_id@ == after[c2].building_id@
    &&& forall|c: Cell|
        #![trigger after[c]]
        before.contains_key(c) && !cells.contains(c) ==> after[c] == before[c]
}

/// Places a new building of the template `template_id` at `origin`, turned
/// by `rotation`, if every cell it covers may be built on and
/// `can_afford` says that its cost can be paid. The building gets a fresh
/// id. On success the cost to be paid is returned.
pub fn place_new_building<F: Fn(u32) -> bool>(
    map: &mut ParkMap,
    catalog: &BuildingCatalog,
    template_id: &str,
    origin: Option<Cell>,
    rotation: Option<Rotation>,
    can_afford: F,
) -> (r: Result<u32, ErrorCode>)
    requires
        building_request_fits(*catalog, template_id@, origin, rotation),
        forall|cost: u32| can_afford.requires((cost,)),
    ensures
        match (catalog.spec_get(template_id@), origin, rotation) {
            (None, _, _) => r == Err::<u32, ErrorCode>(ErrorCode::ErrorInvalidTemplate),
            (Some(t), Some(o), Some(rot)) => {
                let site = check_all(
                    placed_cells(o, t.footprint@, rot),
                    |c: Cell| old(map).building_site_check(c),
                    0,
                );
                &&& site matches Err(e) ==> r == Err::<u32, ErrorCode>(e)
                &&& site is Ok ==> (r == Ok::<u32, ErrorCode>(t.cost) && can_afford.ensures(
                    (t.cost,),
                    true,
                )) || (r == Err::<u32, ErrorCode>(ErrorCode::ErrorInsufficientFunds)
                    && can_afford.ensures((t.cost,), false))
                &&& r is Ok ==> building_placed(
                    old(map).building@,
                    final(map).building@,
                    placed_cells(o, t.footprint@, rot),
                    template_id@,
                )
            },
            (Some(t), _, _) => r == Err::<u32, ErrorCode>(ErrorCode::ErrorEmpty),
        },
        r is Err ==> *final(map) == *old(map),
        final(map).terrain@ == old(map).terrain@,
        final(map).infrastructure@ == old(map).infrastructure@,
        final(map).bounds == old(map).bounds,
        final(map).parcels@ == old(map).parcels@,
        final(map).unlocked_levels@ == old(map).unlocked_levels@,
        final(map).entrance == old(map).entrance,
        final(map).map_id == old(map).map_id,
{
    let template = match catalog.get(template_id) {
        Some(t) => t,
        None => return Err(ErrorCode::ErrorInvalidTemplate),
    };
    let (o, rot) = match (origin, rotation) {
        (Some(o), Some(rot)) => (o, rot),
        _ => return Err(ErrorCode::ErrorEmpty),
    };
    let cost = template.cost;
    let site = map.can_place_building(o, template.footprint.as_slice(), rot);
    if let Err(e) = site {
        return Err(e);
    }
    let affordable = can_afford(cost);
    if !affordable {
        return Err(ErrorCode::ErrorInsufficientFunds);
    }
    let id = BuildingId { building_id: fresh_uuid(), template_id: template_id.to_owned() };
    map.place_building(o, template.footprint.as_slice(), rot, id);
    Ok(cost)
}

/// The answer to a command, from whether one was given, the park it names
/// and its outcome.
pub open spec fn spec_response(has_command: bool, park_id: Seq<char>, outcome: Result<
    (),
    ErrorCode,
>) -> (bool, ErrorCode, Seq<char>) {
    if !has_command {
        (false, ErrorCode::ErrorEmpty, "No command given"@)
    } else if park_id.len() == 0 {
        (false, ErrorCode::ErrorEmpty, "park_id is empty"@)
    } else {
        match outcome {
            Ok(()) => (true, ErrorCode::ErrorNone, spec_message_for(ErrorCode::ErrorNone)),
            Err(code) => (false, code, spec_message_for(code)),
        }
    }
}

/// The answer to a command, from whether one was given, the park it names
/// and its outcome.
pub fn command_response(has_command: bool, park_id: &str, outcome: Result<(), ErrorCode>) -> (r:
    CommandResponse)
    ensures
        (r.success, r.error_code, r.message@) == spec_response(has_command, park_id@, outcome),
{
    if !has_command {
        return CommandResponse {
            success: false,
            error_code: ErrorCode::ErrorEmpty,
            message: "No command given".to_owned(),
        };
    }
    if park_id.is_empty() {
        return CommandResponse {
            success: false,
            error_code: ErrorCode::ErrorEmpty,
            message: "park_id is empty".to_owned(),
        };
    }
    match outcome {
        Ok(()) => CommandResponse {
            success: true,
            error_code: ErrorCode::ErrorNone,
            message: message_for(ErrorCode::ErrorNone).to_owned(),
        },
        Err(code) => CommandResponse {
            success: false,
            error_code: code,
            message: message_for(code).to_owned(),
        },
    }
}

/// Whether `after` keeps the bounds, parcels, open levels, entrance and id of
/// `before`.
pub open spec fn frame_kept(before: ParkMap, after: ParkMap) -> bool {
    &&& after.bounds == before.bounds
    &&& after.parcels@ == before.parcels@
    &&& after.unlocked_levels@ == before.unlocked_levels@
    &&& after.entrance == before.entrance
    &&& after.map_id == before.map_id
}

/// Whether a command can be carried out without a coordinate leaving `i32`.
pub open spec fn command_fits(map: ParkMap, catalog: BuildingCatalog, command: Command) -> bool {
    match command {
        Command::PlaceInfrastructure { kind, to_z, coordinates } => spec_shape_for_kind(
            kind,
            to_z,
        ) matches Ok(shape) ==> map.level_steps_fit(catalog, shape, to_z, coordinates@),
        Command::PlaceBuilding { template_id, origin, rotation } => building_request_fits(
            catalog,
            template_id@,
            origin,
            rotation,
        ),
        _ => true,
    }
}

/// Whether `after`, `result` and `charge` are what carrying out `command` on
/// `before` gives, when `can_afford` judges whether a cost can be paid.
pub open spec fn command_applied<F: Fn(u32) -> bool>(
    before: ParkMap,
    after: ParkMap,
    catalog: BuildingCatalog,
    command: Command,
    can_afford: F,
    result: Result<(), ErrorCode>,
    charge: Option<u32>,
) -> bool {
    match command {
        Command::ApplyTerrain { material_id, coordinates } => {
            let check = |c: Cell| before.terrain_check(c);
            &&& result == check_all(coordinates@, check, 0)
            &&& charge is None
            &&& after.terrain@ == painted(
                before.terrain@,
                coordinates@.take(first_failure_from(coordinates@, check, 0)),
                material_id,
            )
            &&& after.infrastructure@ == before.infrastructure@
            &&& after.building@ == before.building@
            &&& frame_kept(before, after)
        },
        Command::PlaceInfrastructure { kind, to_z, coordinates } => {
            &&& charge is None
            &&& match spec_shape_for_kind(kind, to_z) {
                Err(e) => result == Err::<(), ErrorCode>(e) && after == before,
                Ok(shape) => {
                    &&& result == check_all(
                        coordinates@,
                        |c: Cell| before.infrastructure_check(catalog, shape, to_z, c),
                        0,
                    )
                    &&& result is Ok ==> {
                        &&& after.infrastructure@ == painted(
                            before.infrastructure@,
                            coordinates@,
                            shape,
                        )
                        &&& after.terrain@ == before.terrain@
                        &&& after.building@ == before.building@
                        &&& frame_kept(before, after)
                    }
                    &&& result is Err ==> after == before
                },
            }
        },
        Command::RemoveInfrastructure { coordinates } => {
            &&& charge is None
            &&& result == check_all(coordinates@, |c: Cell| before.removal_check(c), 0)
            &&& result is Ok ==> {
                &&& after.infrastructure@ == before.infrastructure@.remove_keys(
                    coordinates@.to_set(),
                )
                &&& after.terrain@ == before.terrain@
                &&& after.building@ == before.building@
                &&& frame_kept(before, after)
            }
            &&& result is Err ==> after == before
        },
        Command::PlaceBuilding { template_id, origin, rotation } => {
            &&& result is Err ==> after == before && charge is None
            &&& match (catalog.spec_get(template_id@), origin, rotation) {
                (None, _, _) => result == Err::<(), ErrorCode>(ErrorCode::ErrorInvalidTemplate),
                (Some(t), Some(o), Some(rot)) => {
                    let cells = placed_cells(o, t.footprint@, rot);
                    let site = check_all(cells, |c: Cell| before.building_site_check(c), 0);
                    &&& site is Err ==> result == site
                    &&& site is Ok ==> (result is Ok && can_afford.ensures((t.cost,), true)) || (
                    result == Err::<(), ErrorCode>(ErrorCode::ErrorInsufficientFunds)
                        && can_afford.ensures((t.cost,), false))
                    &&& result is Ok ==> {
                        &&& charge == Some(t.cost)
                        &&& building_placed(before.building@, after.building@, cells, template_id@)
                        &&& after.terrain@ == before.terrain@
                        &&& after.infrastructure@ == before.infrastructure@
                        &&& frame_kept(before, after)
                    }
                },
                (Some(t), _, _) => result == Err::<(), ErrorCode>(ErrorCode::ErrorEmpty),
            }
        },
        Command::RemoveBuilding { position } => {
            &&& charge is None
            &&& result is Err ==> after == before
            &&& match position {
                None => result == Err::<(), ErrorCode>(ErrorCode::ErrorEmpty),
                Some(c) => {
                    &&& result == before.building_removal_check(c)
                    &&& result is Ok ==> {
                        &&& after.building@ == before.building@.remove_keys(
                            cells_of_building(before.building@, before.building@[c].building_id@),
                        )
                        &&& after.terrain@ == before.terrain@
                        &&& after.infrastructure@ == before.infrastructure@
                        &&& frame_kept(before, after)
                    }
                },
            }
        },
    }
}

/// Carries out a request on the map and answers it. The command is carried
/// out even when the request names no park; the answer then says so.
pub fn send_command<F: Fn(u32) -> bool>(
    map: &mut ParkMap,
    catalog: &BuildingCatalog,
    request: &CommandRequest,
    can_afford: F,
) -> (r: CommandOutcome)
    requires
        request.command matches Some(command) ==> command_fits(*old(map), *catalog, command),
        forall|cost: u32| can_afford.requires((cost,)),
    ensures
        match request.command {
            None => r.result == Err::<(), ErrorCode>(ErrorCode::ErrorEmpty) && r.charge is None
                && *final(map) == *old(map),
            Some(command) => command_applied(
                *old(map),
                *final(map),
                *catalog,
                command,
                can_afford,
                r.result,
                r.charge,
            ),
        },
        (r.response.success, r.response.error_code, r.response.message@) == spec_response(
            request.command is Some,
            request.park_id@,
            r.result,
        ),
{
    let (result, charge) = match &request.command {
        Some(Command::ApplyTerrain { material_id, coordinates }) => (
            apply_terrain(map, material_id, coordinates.as_slice()),
            None,
        ),
        Some(Command::PlaceInfrastructure { kind, to_z, coordinates }) => (
            place_infrastructure(map, catalog, *kind, *to_z, coordinates.as_slice()),
            None,
        ),
        Some(Command::RemoveInfrastructure { coordinates }) => (
            remove_infrastructure(map, coordinates.as_slice()),
            None,
        ),
        Some(Command::PlaceBuilding { template_id, origin, rotation }) => {
            match place_new_building(
                map,
                catalog,
                template_id.as_str(),
                *origin,
                *rotation,
                can_afford,
            ) {
                Ok(cost) => (Ok(()), Some(cost)),
                Err(e) => (Err(e), None),
            }
        },
        Some(Command::RemoveBuilding { position }) => (remove_building_at(map, *position), None),
        None => (Err(ErrorCode::ErrorEmpty), None),
    };
    let response = command_response(request.command.is_some(), request.park_id.as_str(), result);
    CommandOutcome { result, charge, response }
}

/// A command is answered with success exactly when it was given, names a
/// park and was carried out; the answer to a command that names a park
/// carries the message of its outcome's code.
pub proof fn lemma_response_reports_outcome(
    has_command: bool,
    park_id: Seq<char>,
    outcome: Result<(), ErrorCode>,
)
    ensures
        spec_response(has_command, park_id, outcome).0 <==> (has_command && park_id.len() > 0
            && outcome is Ok),
        has_command && park_id.len() > 0 ==> spec_response(has_command, park_id, outcome).2
            == spec_message_for(spec_response(has_command, park_id, outcome).1),
        has_command && park_id.len() > 0 ==> (outcome matches Err(code) ==> spec_response(
            has_command,
            park_id,
            outcome,
        ).1 == code),
{
}

/// Removing infrastructure from the cells it was just laid on gives back the
/// layer as it was, but for those cells; when none of them held
/// infrastructure before, it gives back the layer as it was.
pub proof fn lemma_removal_undoes_infrastructure(
    layer: Map<Cell, InfrastructureShape>,
    cells: Seq<Cell>,
    shape: InfrastructureShape,
)
    ensures
        painted(layer, cells, shape).remove_keys(cells.to_set()) == layer.remove_keys(cells.to_set()),
        (forall|i: int| 0 <= i < cells.len() ==> !layer.contains_key(#[trigger] cells[i]))
            ==> painted(layer, cells, shape).remove_keys(cells.to_set()) == layer,
{
    let fresh = Map::new(|c: Cell| cells.contains(c), |c: Cell| shape);
    assert forall|c: Cell| #[trigger] cells.to_set().contains(c) <==> fresh.contains_key(c) by {}
    assert(painted(layer, cells, shape).remove_keys(cells.to_set()) =~= layer.remove_keys(
        cells.to_set(),
    ));
    if forall|i: int| 0 <= i < cells.len() ==> !layer.contains_key(#[trigger] cells[i]) {
        assert forall|c: Cell| layer.contains_key(c) implies !cells.to_set().contains(c) by {
            if cells.contains(c) {
                let i = choose|i: int| 0 <= i < cells.len() && cells[i] == c;
                assert(!layer.contains_key(cells[i]));
            }
        }
        assert(layer.remove_keys(cells.to_set()) =~= layer);
    }
}

/// Removing a building just placed, from any cell it covers, gives back the
/// building layer as it was, when the cells it covers were free and its id
/// was not in use.
pub proof fn lemma_removal_undoes_building(
    before: Map<Cell, BuildingId>,
    after: Map<Cell, BuildingId>,
    cells: Seq<Cell>,
    template_id: Seq<char>,
    c: Cell,
)
    requires
        building_placed(before, after, cells, template_id),
        cells.contains(c),
        forall|i: int| 0 <= i < cells.len() ==> !before.contains_key(#[trigger] cells[i]),
        forall|d: Cell| #[trigger]
            before.contains_key(d) ==> before[d].building_id@ != after[c].building_id@,
    ensures
        after.remove_keys(cells_of_building(after, after[c].building_id@)) == before,
{
    let id = after[c].building_id@;
    assert(after.contains_key(c));
    assert forall|d: Cell| #[trigger] cells_of_building(after, id).contains(d) <==> cells.contains(d) by {
        if cells.contains(d) {
            assert(after.contains_key(d));
            assert(after[d].building_id@ == after[c].building_id@);
        }
        if cells_of_building(after, id).contains(d) && !cells.contains(d) {
            assert(before.contains_key(d));
            assert(after[d] == before[d]);
        }
    }
    assert forall|d: Cell| before.contains_key(d) implies !cells.contains(d) by {
        if cells.contains(d) {
            let i = choose|i: int| 0 <= i < cells.len() && cells[i] == d;
            assert(!before.contains_key(cells[i]));
        }
    }
    assert(after.remove_keys(cells_of_building(after, id)) =~= before);
}

/// Infrastructure laid through the placement rules keeps every ramp one level
/// long and every flight of stairs within two levels, so that the path
/// search's estimate stays a lower bound on a map built by commands.
pub proof fn lemma_placement_keeps_links_short(
    map: ParkMap,
    catalog: BuildingCatalog,
    kind: Option<InfrastructureKind>,
    to_z: i32,
    cells: Seq<Cell>,
)
    requires
        links_short(map.infrastructure@),
        spec_shape_for_kind(kind, to_z) is Ok,
        check_all(
            cells,
            |c: Cell|
                map.infrastructure_check(
                    catalog,
                    spec_shape_for_kind(kind, to_z)->Ok_0,
                    to_z,
                    c,
                ),
            0,
        ) is Ok,
    ensures
        links_short(painted(map.infrastructure@, cells, spec_shape_for_kind(kind, to_z)->Ok_0)),
{
    let shape = spec_shape_for_kind(kind, to_z)->Ok_0;
    let check = |c: Cell| map.infrastructure_check(catalog, shape, to_z, c);
    crate::validation::lemma_check_all_ok(cells, check, 0);
    let layer = painted(map.infrastructure@, cells, shape);
    assert forall|c: Cell| #[trigger] layer.contains_key(c) implies match layer[c] {
        InfrastructureShape::Ramp { to_z } => abs_int(to_z - c.2) <= 1,
        InfrastructureShape::Stairs { to_z } => abs_int(to_z - c.2) <= 2,
        _ => true,
    } by {
        if cells.contains(c) {
            let i = choose|i: int| 0 <= i < cells.len() && cells[i] == c;
            assert(check(cells[i]) is Ok);
        } else {
            assert(map.infrastructure@.contains_key(c));
        }
    }
}

} // verus!
