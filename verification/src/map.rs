//! The park map: terrain, infrastructure and buildings on a bounded grid,
//! with parcels and levels that can be unlocked.
use rand::seq::SliceRandom;
use std::collections::HashSet;
use vstd::prelude::*;

use crate::cells::{Cell, CellMap, Column};
use crate::protocol::Rotation;
use crate::text::{copy_string, str_eq};

verus! {

broadcast use vstd::std_specs::hash::group_hash_axioms;

/// Whether `v` is a value of `i32`.
pub open spec fn fits_i32(v: int) -> bool {
    i32::MIN <= v <= i32::MAX
}

/// The horizontal cost of walking onto a cell of the given material.
pub open spec fn spec_movement_cost_for(material: Seq<char>) -> u32 {
    if material == "path"@ {
        1
    } else if material == "stairs"@ || material == "ramp"@ {
        2
    } else if material == "grass"@ {
        5
    } else {
        10
    }
}

/// The horizontal cost of walking onto a cell of the given material.
pub fn movement_cost_for(material_id: &str) -> (r: u32)
    ensures
        r == spec_movement_cost_for(material_id@),
{
    if str_eq(material_id, "path") {
        1
    } else if str_eq(material_id, "stairs") || str_eq(material_id, "ramp") {
        2
    } else if str_eq(material_id, "grass") {
        5
    } else {
        10
    }
}

/// A building placed on the map, and the template it was built from.
#[derive(Debug, Clone, Default, PartialEq)]
pub struct BuildingId {
    pub building_id: String,
    pub template_id: String,
}

impl BuildingId {
    /// A copy of this id.
    pub fn duplicate(&self) -> (r: Self)
        ensures
            r == *self,
    {
        BuildingId {
            building_id: copy_string(&self.building_id),
            template_id: copy_string(&self.template_id),
        }
    }
}

/// What is built on a cell for visitors to walk on.
#[derive(Debug, Clone, PartialEq)]
pub enum InfrastructureShape {
    Path,
    Ramp { to_z: i32 },
    Stairs { to_z: i32 },
    Queue { attraction_id: BuildingId },
}

impl InfrastructureShape {
    /// A copy of this shape.
    pub fn duplicate(&self) -> (r: Self)
        ensures
            r == *self,
    {
        match self {
            InfrastructureShape::Path => InfrastructureShape::Path,
            InfrastructureShape::Ramp { to_z } => InfrastructureShape::Ramp { to_z: *to_z },
            InfrastructureShape::Stairs { to_z } => InfrastructureShape::Stairs { to_z: *to_z },
            InfrastructureShape::Queue { attraction_id } => InfrastructureShape::Queue {
                attraction_id: attraction_id.duplicate(),
            },
        }
    }
}

/// The cost of the vertical move that a shape offers.
pub open spec fn spec_vertical_movement_cost_for(shape: InfrastructureShape) -> u32 {
    match shape {
        InfrastructureShape::Ramp { .. } => 1,
        InfrastructureShape::Stairs { .. } => 2,
        InfrastructureShape::Path => 0,
        InfrastructureShape::Queue { .. } => 0,
    }
}

/// The cost of the vertical move that a shape offers.
pub fn vertical_movement_cost_for(shape: &InfrastructureShape) -> (r: u32)
    ensures
        r == spec_vertical_movement_cost_for(*shape),
{
    match shape {
        InfrastructureShape::Ramp { .. } => 1,
        InfrastructureShape::Stairs { .. } => 2,
        InfrastructureShape::Path => 0,
        InfrastructureShape::Queue { .. } => 0,
    }
}

/// Whether an offset can be rotated without leaving `i32`.
pub open spec fn offset_rotatable(o: (i32, i32), rotation: Rotation) -> bool {
    match rotation {
        Rotation::Deg0 => true,
        Rotation::Deg90 => o.1 != i32::MIN,
        Rotation::Deg180 => o.0 != i32::MIN && o.1 != i32::MIN,
        Rotation::Deg270 => o.0 != i32::MIN,
    }
}

/// An offset turned counterclockwise by `rotation`.
pub open spec fn spec_rotate(o: (i32, i32), rotation: Rotation) -> (i32, i32) {
    match rotation {
        Rotation::Deg0 => o,
        Rotation::Deg90 => ((-o.1) as i32, o.0),
        Rotation::Deg180 => ((-o.0) as i32, (-o.1) as i32),
        Rotation::Deg270 => (o.1, (-o.0) as i32),
    }
}

/// Whether every offset of a footprint can be rotated.
pub open spec fn footprint_rotatable(footprint: Seq<(i32, i32)>, rotation: Rotation) -> bool {
    forall|i: int| 0 <= i < footprint.len() ==> offset_rotatable(#[trigger] footprint[i], rotation)
}

/// Turns every offset of a footprint by `rotation`.
pub fn rotate_footprint(footprint: &[(i32, i32)], rotation: Rotation) -> (r: Vec<(i32, i32)>)
    requires
        footprint_rotatable(footprint@, rotation),
    ensures
        r@ == footprint@.map_values(|o: (i32, i32)| spec_rotate(o, rotation)),
{
    let mut r: Vec<(i32, i32)> = Vec::new();
    let n = footprint.len();
    let mut i: usize = 0;
    while i < n
        invariant
            n == footprint@.len(),
            i <= n,
            footprint_rotatable(footprint@, rotation),
            r@ == footprint@.take(i as int).map_values(|o: (i32, i32)| spec_rotate(o, rotation)),
        decreases n - i,
    {
        let (dx, dy) = footprint[i];
        assert(offset_rotatable(footprint@[i as int], rotation));
        let rotated = match rotation {
            Rotation::Deg0 => (dx, dy),
            Rotation::Deg90 => (-dy, dx),
            Rotation::Deg180 => (-dx, -dy),
            Rotation::Deg270 => (dy, -dx),
        };
        r.push(rotated);
        proof {
            assert(footprint@.take(i + 1) =~= footprint@.take(i as int).push(footprint@[i as int]));
            assert(r@ =~= footprint@.take(i + 1).map_values(
                |o: (i32, i32)| spec_rotate(o, rotation),
            ));
        }
        i += 1;
    }
    assert(footprint@.take(n as int) =~= footprint@);
    r
}

/// The cell that an offset of a footprint covers once rotated and placed at `origin`.
pub open spec fn placed_cell(origin: Cell, o: (i32, i32), rotation: Rotation) -> Cell {
    let d = spec_rotate(o, rotation);
    ((origin.0 + d.0) as i32, (origin.1 + d.1) as i32, origin.2)
}

/// The cells that a footprint covers once rotated and placed at `origin`.
pub open spec fn placed_cells(origin: Cell, footprint: Seq<(i32, i32)>, rotation: Rotation) -> Seq<
    Cell,
> {
    footprint.map_values(|o: (i32, i32)| placed_cell(origin, o, rotation))
}

/// Whether a footprint can be rotated and placed at `origin` without leaving `i32`.
pub open spec fn placement_fits(origin: Cell, footprint: Seq<(i32, i32)>, rotation: Rotation) -> bool {
    &&& footprint_rotatable(footprint, rotation)
    &&& forall|i: int|
        0 <= i < footprint.len() ==> {
            let d = spec_rotate(#[trigger] footprint[i], rotation);
            &&& fits_i32(origin.0 + d.0)
            &&& fits_i32(origin.1 + d.1)
        }
}

/// A set of columns that a player can unlock together.
#[derive(Debug, Clone, Default)]
pub struct Parcel {
    pub id: String,
    pub cells: Vec<(i32, i32)>,
    pub unlocked: bool,
    pub price: u32,
}

/// The box of cells that make up the map, bounds included.
#[derive(Debug, Clone, Copy, Default)]
pub struct Bounds3d {
    pub min_x: i32,
    pub max_x: i32,
    pub min_y: i32,
    pub max_y: i32,
    pub min_z: i32,
    pub max_z: i32,
}

impl Bounds3d {
    pub fn new(min_x: i32, max_x: i32, min_y: i32, max_y: i32, min_z: i32, max_z: i32) -> (r: Self)
        ensures
            r == (Bounds3d { min_x, max_x, min_y, max_y, min_z, max_z }),
    {
        Self { min_x, max_x, min_y, max_y, min_z, max_z }
    }

    /// Whether a cell lies inside the box.
    pub open spec fn contains(self, c: Cell) -> bool {
        &&& self.min_x <= c.0 <= self.max_x
        &&& self.min_y <= c.1 <= self.max_y
        &&& self.min_z <= c.2 <= self.max_z
    }
}

/// The index of the first parcel of `parcels` from `i` on that holds `col`.
pub open spec fn parcel_index_from(parcels: Seq<Parcel>, col: Column, i: int) -> Option<int>
    decreases parcels.len() - i,
{
    if i < 0 || i >= parcels.len() {
        None
    } else if parcels[i].cells@.contains(col) {
        Some(i)
    } else {
        parcel_index_from(parcels, col, i + 1)
    }
}

pub proof fn lemma_parcel_index_from(parcels: Seq<Parcel>, col: Column, i: int)
    requires
        0 <= i,
    ensures
        match parcel_index_from(parcels, col, i) {
            Some(j) => i <= j < parcels.len() && parcels[j].cells@.contains(col) && forall|k: int|
                i <= k < j ==> !parcels[k].cells@.contains(col),
            None => forall|k: int| i <= k < parcels.len() ==> !parcels[k].cells@.contains(col),
        },
    decreases parcels.len() - i,
{
    if 0 <= i < parcels.len() && !parcels[i].cells@.contains(col) {
        lemma_parcel_index_from(parcels, col, i + 1);
    }
}

/// The cells of `m` that hold the building `id`.
pub open spec fn cells_of_building(m: Map<Cell, BuildingId>, id: Seq<char>) -> Set<Cell> {
    Set::new(|c: Cell| m.contains_key(c) && m[c].building_id@ == id)
}

/// The park map.
#[derive(Debug)]
pub struct ParkMap {
    pub map_id: String,
    pub bounds: Bounds3d,
    pub terrain: CellMap<String>,
    pub infrastructure: CellMap<InfrastructureShape>,
    pub building: CellMap<BuildingId>,
    pub parcels: Vec<Parcel>,
    pub unlocked_levels: HashSet<i32>,
    pub entrance: Option<Cell>,
}

impl ParkMap {
    /// Whether a cell lies inside the map's bounds.
    pub open spec fn in_bounds(self, c: Cell) -> bool {
        self.bounds.contains(c)
    }

    /// The parcel that holds a column, if any: the first one in the list.
    pub open spec fn spec_parcel_at(self, col: Column) -> Option<Parcel> {
        match parcel_index_from(self.parcels@, col, 0) {
            Some(i) => Some(self.parcels@[i]),
            None => None,
        }
    }

    /// Whether the parcel that holds a column is unlocked.
    pub open spec fn spec_is_unlocked(self, col: Column) -> bool {
        match self.spec_parcel_at(col) {
            Some(p) => p.unlocked,
            None => false,
        }
    }

    /// Whether a level is open to building.
    pub open spec fn level_open(self, z: i32) -> bool {
        self.unlocked_levels@.contains(z)
    }

    /// A map with nothing on it, whose only open level is level 0.
    pub fn new(map_id: String, bounds: Bounds3d) -> (r: Self)
        ensures
            r.map_id == map_id,
            r.bounds == bounds,
            r.terrain@ == Map::<Cell, String>::empty(),
            r.infrastructure@ == Map::<Cell, InfrastructureShape>::empty(),
            r.building@ == Map::<Cell, BuildingId>::empty(),
            r.parcels@ == Seq::<Parcel>::empty(),
            r.unlocked_levels@ == set![0i32],
            r.entrance is None,
    {
        let mut unlocked_levels = HashSet::new();
        unlocked_levels.insert(0);
        assert(unlocked_levels@ =~= set![0i32]);
        Self {
            map_id,
            bounds,
            terrain: CellMap::new(),
            infrastructure: CellMap::new(),
            building: CellMap::new(),
            parcels: Vec::new(),
            unlocked_levels,
            entrance: None,
        }
    }

    pub fn set_terrain(&mut self, x: i32, y: i32, z: i32, material: String)
        ensures
            final(self).terrain@ == old(self).terrain@.insert((x, y, z), material),
            final(self).infrastructure@ == old(self).infrastructure@,
            final(self).building@ == old(self).building@,
            final(self).bounds == old(self).bounds,
            final(self).parcels@ == old(self).parcels@,
            final(self).unlocked_levels@ == old(self).unlocked_levels@,
            final(self).entrance == old(self).entrance,
            final(self).map_id == old(self).map_id,
    {
        self.terrain.insert((x, y, z), material);
    }

    pub fn get_terrain(&self, x: i32, y: i32, z: i32) -> (r: Option<&String>)
        ensures
            r == (if self.terrain@.contains_key((x, y, z)) {
                Some(&self.terrain@[(x, y, z)])
            } else {
                None
            }),
    {
        self.terrain.get((x, y, z))
    }

    pub fn set_infrastructure(&mut self, x: i32, y: i32, z: i32, infrastructure_kind: InfrastructureShape)
        ensures
            final(self).infrastructure@ == old(self).infrastructure@.insert((x, y, z), infrastructure_kind),
            final(self).terrain@ == old(self).terrain@,
            final(self).building@ == old(self).building@,
            final(self).bounds == old(self).bounds,
            final(self).parcels@ == old(self).parcels@,
            final(self).unlocked_levels@ == old(self).unlocked_levels@,
            final(self).entrance == old(self).entrance,
            final(self).map_id == old(self).map_id,
    {
        self.infrastructure.insert((x, y, z), infrastructure_kind);
    }

    pub fn remove_infrasture(&mut self, x: i32, y: i32, z: i32)
        ensures
            final(self).infrastructure@ == old(self).infrastructure@.remove((x, y, z)),
            final(self).terrain@ == old(self).terrain@,
            final(self).building@ == old(self).building@,
            final(self).bounds == old(self).bounds,
            final(self).parcels@ == old(self).parcels@,
            final(self).unlocked_levels@ == old(self).unlocked_levels@,
            final(self).entrance == old(self).entrance,
            final(self).map_id == old(self).map_id,
    {
        self.infrastructure.remove((x, y, z));
    }

    pub fn get_infrastructure(&self, x: i32, y: i32, z: i32) -> (r: Option<&InfrastructureShape>)
        ensures
            r == (if self.infrastructure@.contains_key((x, y, z)) {
                Some(&self.infrastructure@[(x, y, z)])
            } else {
                None
            }),
    {
        self.infrastructure.get((x, y, z))
    }

    pub fn set_building(&mut self, x: i32, y: i32, z: i32, building_id: BuildingId)
        ensures
            final(self).building@ == old(self).building@.insert((x, y, z), building_id),
            final(self).terrain@ == old(self).terrain@,
            final(self).infrastructure@ == old(self).infrastructure@,
            final(self).bounds == old(self).bounds,
            final(self).parcels@ == old(self).parcels@,
            final(self).unlocked_levels@ == old(self).unlocked_levels@,
            final(self).entrance == old(self).entrance,
            final(self).map_id == old(self).map_id,
    {
        self.building.insert((x, y, z), building_id);
    }

    pub fn get_building(&self, x: i32, y: i32, z: i32) -> (r: Option<&BuildingId>)
        ensures
            r == (if self.building@.contains_key((x, y, z)) {
                Some(&self.building@[(x, y, z)])
            } else {
                None
            }),
    {
        self.building.get((x, y, z))
    }

    /// Every cell that holds the building `building_id`, each once, in an
    /// unspecified order.
    pub fn get_building_coords_by_building_id(&self, building_id: &str) -> (r: Vec<Cell>)
        ensures
            r@.no_duplicates(),
            r@.to_set() == cells_of_building(self.building@, building_id@),
    {
        let all = self.building.cells();
        let mut r: Vec<Cell> = Vec::new();
        let n = all.len();
        let mut i: usize = 0;
        while i < n
            invariant
                n == all@.len(),
                i <= n,
                all@.no_duplicates(),
                forall|c: Cell| #[trigger] all@.contains(c) <==> self.building@.contains_key(c),
                r@.no_duplicates(),
                forall|c: Cell| #[trigger]
                    r@.contains(c) <==> (all@.take(i as int).contains(c) && self.building@.contains_key(c)
                        && self.building@[c].building_id@ == building_id@),
            decreases n - i,
        {
            let c = all[i];
            assert(all@.contains(c));
            let ghost r_before = r@;
            let b = self.building.get(c).unwrap();
            if str_eq(b.building_id.as_str(), building_id) {
                proof {
                    assert(!all@.take(i as int).contains(c)) by {
                        if all@.take(i as int).contains(c) {
                            let k = choose|k: int| 0 <= k < i && all@.take(i as int)[k] == c;
                            assert(all@[k] == all@[i as int]);
                        }
                    }
                }
                r.push(c);
                proof {
                    crate::seqs::lemma_push_no_duplicates(r_before, c);
                }
            }
            proof {
                assert(all@.take(i + 1) =~= all@.take(i as int).push(c));
                assert forall|c2: Cell| #[trigger] r@.contains(c2) <==> (all@.take(i + 1).contains(c2)
                    && self.building@.contains_key(c2) && self.building@[c2].building_id@
                    == building_id@) by {
                    crate::seqs::lemma_take_succ_contains(all@, i as int, c2);
                    crate::seqs::lemma_push_contains(r_before, c, c2);
                }
            }
            i += 1;
        }
        proof {
            assert(all@.take(n as int) =~= all@);
            assert(r@.to_set() =~= cells_of_building(self.building@, building_id@));
        }
        r
    }

    /// Places a copy of `building_id` on every cell that the footprint covers
    /// once rotated and placed at `origin`.
    pub fn place_building(
        &mut self,
        origin: Cell,
        footprint: &[(i32, i32)],
        rotation: Rotation,
        building_id: BuildingId,
    )
        requires
            placement_fits(origin, footprint@, rotation),
        ensures
            forall|c: Cell| #[trigger]
                final(self).building@.contains_key(c) <==> (old(self).building@.contains_key(c)
                    || placed_cells(origin, footprint@, rotation).contains(c)),
            forall|c: Cell|
                #![trigger final(self).building@[c]]
                placed_cells(origin, footprint@, rotation).contains(c) ==> final(self).building@[c].building_id@
                    == building_id.building_id@ && final(self).building@[c].template_id@
                    == building_id.template_id@,
            forall|c: Cell|
                #![trigger final(self).building@[c]]
                old(self).building@.contains_key(c) && !placed_cells(origin, footprint@, rotation).contains(c)
                    ==> final(self).building@[c] == old(self).building@[c],
            final(self).terrain@ == old(self).terrain@,
            final(self).infrastructure@ == old(self).infrastructure@,
            final(self).bounds == old(self).bounds,
            final(self).parcels@ == old(self).parcels@,
            final(self).unlocked_levels@ == old(self).unlocked_levels@,
            final(self).entrance == old(self).entrance,
            final(self).map_id == old(self).map_id,
    {
        let (ox, oy, oz) = origin;
        let rotated = rotate_footprint(footprint, rotation);
        let ghost placed = placed_cells(origin, footprint@, rotation);
        let n = rotated.len();
        let mut i: usize = 0;
        while i < n
            invariant
                n == rotated@.len(),
                n == footprint@.len(),
                i <= n,
                origin == (ox, oy, oz),
                placement_fits(origin, footprint@, rotation),
                rotated@ == footprint@.map_values(|o: (i32, i32)| spec_rotate(o, rotation)),
                placed == placed_cells(origin, footprint@, rotation),
                forall|c: Cell| #[trigger]
                    self.building@.contains_key(c) <==> (old(self).building@.contains_key(c)
                        || placed.take(i as int).contains(c)),
                forall|c: Cell|
                    #![trigger self.building@[c]]
                    placed.take(i as int).contains(c) ==> self.building@[c].building_id@
                        == building_id.building_id@ && self.building@[c].template_id@
                        == building_id.template_id@,
                forall|c: Cell|
                    #![trigger self.building@[c]]
                    old(self).building@.contains_key(c) && !placed.take(i as int).contains(c)
                        ==> self.building@[c] == old(self).building@[c],
                self.terrain@ == old(self).terrain@,
                self.infrastructure@ == old(self).infrastructure@,
                self.bounds == old(self).bounds,
                self.parcels@ == old(self).parcels@,
                self.unlocked_levels@ == old(self).unlocked_levels@,
                self.entrance == old(self).entrance,
                self.map_id == old(self).map_id,
            decreases n - i,
        {
            let (dx, dy) = rotated[i];
            proof {
                let o = footprint@[i as int];
                assert(rotated@[i as int] == spec_rotate(o, rotation));
                assert(placed[i as int] == placed_cell(origin, o, rotation));
            }
            let c = (ox + dx, oy + dy, oz);
            assert(c == placed[i as int]);
            let ghost before = self.building@;
            self.set_building(c.0, c.1, c.2, building_id.duplicate());
            proof {
                assert(self.building@ == before.insert(c, self.building@[c]));
                assert(placed.take(i + 1) =~= placed.take(i as int).push(c));
                assert forall|c2: Cell| placed.take(i + 1).contains(c2) <==> (placed.take(
                    i as int,
                ).contains(c2) || c2 == c) by {
                    crate::seqs::lemma_take_succ_contains(placed, i as int, c2);
                }
                assert forall|c2: Cell| #[trigger] self.building@.contains_key(c2) <==> (old(self).building@.contains_key(c2)
                        || placed.take(i + 1).contains(c2)) by {
                    crate::seqs::lemma_take_succ_contains(placed, i as int, c2);
                }
                assert forall|c2: Cell| old(self).building@.contains_key(c2) && !placed.take(i + 1).contains(c2)
                        implies #[trigger] self.building@[c2] == old(self).building@[c2] by {
                    crate::seqs::lemma_take_succ_contains(placed, i as int, c2);
                }
            }
            i += 1;
        }
        proof {
            assert(placed.take(n as int) =~= placed);
        }
    }

    /// Removes every cell of the building that stands at `(x, y, z)`, if any.
    pub fn remove_building(&mut self, x: i32, y: i32, z: i32)
        ensures
            old(self).building@.contains_key((x, y, z)) ==> final(self).building@ == old(
                self,
            ).building@.remove_keys(
                cells_of_building(old(self).building@, old(self).building@[(x, y, z)].building_id@),
            ),
            !old(self).building@.contains_key((x, y, z)) ==> final(self).building@ == old(
                self,
            ).building@,
            final(self).terrain@ == old(self).terrain@,
            final(self).infrastructure@ == old(self).infrastructure@,
            final(self).bounds == old(self).bounds,
            final(self).parcels@ == old(self).parcels@,
            final(self).unlocked_levels@ == old(self).unlocked_levels@,
            final(self).entrance == old(self).entrance,
            final(self).map_id == old(self).map_id,
    {
        let found = match self.get_building(x, y, z) {
            Some(building) => Some(copy_string(&building.building_id)),
            None => None,
        };
        if let Some(building_id) = found {
            let ghost id = building_id@;
            let ghost doomed = cells_of_building(old(self).building@, id);
            let coords = self.get_building_coords_by_building_id(building_id.as_str());
            let n = coords.len();
            let mut i: usize = 0;
            while i < n
                invariant
                    n == coords@.len(),
                    i <= n,
                    coords@.no_duplicates(),
                    coords@.to_set() == doomed,
                    doomed == cells_of_building(old(self).building@, id),
                    self.building@ == old(self).building@.remove_keys(coords@.take(i as int).to_set()),
                    self.terrain@ == old(self).terrain@,
                    self.infrastructure@ == old(self).infrastructure@,
                    self.bounds == old(self).bounds,
                    self.parcels@ == old(self).parcels@,
                    self.unlocked_levels@ == old(self).unlocked_levels@,
                    self.entrance == old(self).entrance,
                    self.map_id == old(self).map_id,
                decreases n - i,
            {
                let c = coords[i];
                self.building.remove(c);
                proof {
                    crate::seqs::lemma_take_succ_to_set(coords@, i as int);
                    assert(self.building@ =~= old(self).building@.remove_keys(
                        coords@.take(i + 1).to_set(),
                    ));
                }
                i += 1;
            }
            proof {
                assert(coords@.take(n as int) =~= coords@);
            }
        } else {
            proof {
                assert(self.building@ == old(self).building@);
            }
        }
    }

    /// The first parcel that holds the column `(x, y)`, if any.
    pub fn parcel_at(&self, x: i32, y: i32) -> (r: Option<&Parcel>)
        ensures
            match self.spec_parcel_at((x, y)) {
                Some(p) => r == Some(&p),
                None => r is None,
            },
    {
        let n = self.parcels.len();
        let mut i: usize = 0;
        while i < n
            invariant
                n == self.parcels@.len(),
                i <= n,
                parcel_index_from(self.parcels@, (x, y), 0) == parcel_index_from(
                    self.parcels@,
                    (x, y),
                    i as int,
                ),
            decreases n - i,
        {
            if column_in(&self.parcels[i].cells, (x, y)) {
                return Some(&self.parcels[i]);
            }
            i += 1;
        }
        None
    }

    /// Whether the parcel that holds the column `(x, y)` is unlocked; false
    /// where no parcel holds it.
    pub fn is_unlocked(&self, x: i32, y: i32) -> (r: bool)
        ensures
            r == self.spec_is_unlocked((x, y)),
    {
        match self.parcel_at(x, y) {
            Some(p) => p.unlocked,
            None => false,
        }
    }

    pub fn is_within_bounds(&self, x: i32, y: i32, z: i32) -> (r: bool)
        ensures
            r == self.in_bounds((x, y, z)),
    {
        x >= self.bounds.min_x && x <= self.bounds.max_x && y >= self.bounds.min_y && y
            <= self.bounds.max_y && z >= self.bounds.min_z && z <= self.bounds.max_z
    }

    pub fn is_level_available(&self, z: i32) -> (r: bool)
        ensures
            r == self.level_open(z),
    {
        self.unlocked_levels.contains(&z)
    }
}

/// One cell of `cells`, drawn at random with `rand`'s `SliceRandom::choose`
/// and the thread's random number generator: `None` exactly when `cells` is
/// empty, and otherwise one of its cells. Which one is not promised.
#[verifier::external_body]
fn choose_cell(cells: &Vec<Cell>) -> (r: Option<Cell>)
    ensures
        r is None <==> cells@.len() == 0,
        r matches Some(c) ==> cells@.contains(c),
{
    cells.choose(&mut rand::thread_rng()).copied()
}

impl ParkMap {
    /// A cell with infrastructure other than `exclude`, drawn at random; or
    /// `exclude` itself when it is the only such cell; `None` when no cell
    /// has infrastructure.
    pub fn random_walkable_cell(&self, exclude: Cell) -> (r: Option<Cell>)
        ensures
            r is None <==> self.infrastructure@.dom().len() == 0,
            r matches Some(c) ==> self.infrastructure@.contains_key(c),
            (exists|d: Cell| self.infrastructure@.contains_key(d) && d != exclude) <==> (r matches Some(
                c,
            ) && c != exclude),
    {
        let cells = self.infrastructure.cells();
        let mut others: Vec<Cell> = Vec::new();
        let n = cells.len();
        let mut i: usize = 0;
        while i < n
            invariant
                n == cells@.len(),
                i <= n,
                forall|c: Cell| #[trigger] others@.contains(c) <==> (cells@.take(i as int).contains(c) && c != exclude),
            decreases n - i,
        {
            let c = cells[i];
            let ghost before = others@;
            if !(c.0 == exclude.0 && c.1 == exclude.1 && c.2 == exclude.2) {
                others.push(c);
            }
            proof {
                assert forall|d: Cell| #[trigger] others@.contains(d) <==> (cells@.take(i + 1).contains(d) && d != exclude) by {
                    crate::seqs::lemma_take_succ_contains(cells@, i as int, d);
                    crate::seqs::lemma_push_contains(before, c, d);
                }
            }
            i += 1;
        }
        proof {
            assert(cells@.take(n as int) =~= cells@);
            vstd::seq_lib::seq_to_set_is_finite(cells@);
            if cells@.len() == 0 {
                assert(self.infrastructure@.dom() =~= Set::<Cell>::empty());
            } else {
                assert(self.infrastructure@.contains_key(cells@[0]));
            }
        }
        match choose_cell(&others) {
            Some(c) => Some(c),
            None => {
                proof {
                    assert forall|d: Cell| self.infrastructure@.contains_key(d) implies d == exclude by {
                        assert(cells@.contains(d));
                        if d != exclude {
                            assert(others@.contains(d));
                        }
                    }
                }
                if cells.len() == 0 {
                    None
                } else {
                    Some(exclude)
                }
            },
        }
    }
}

/// Whether a list of columns holds `col`.
pub fn column_in(cells: &Vec<(i32, i32)>, col: Column) -> (r: bool)
    ensures
        r == cells@.contains(col),
{
    let n = cells.len();
    let mut i: usize = 0;
    while i < n
        invariant
            n == cells@.len(),
            i <= n,
            forall|k: int| 0 <= k < i ==> cells@[k] != col,
        decreases n - i,
    {
        let (cx, cy) = cells[i];
        if cx == col.0 && cy == col.1 {
            assert(cells@[i as int] == col);
            return true;
        }
        i += 1;
    }
    false
}

/// The building on one of the four horizontal neighbours of `cell`, looked
/// for east, west, north then south.
pub open spec fn spec_adjacent_building(m: Map<Cell, BuildingId>, cell: Cell) -> Option<BuildingId> {
    let (x, y, z) = cell;
    if m.contains_key(((x + 1) as i32, y, z)) {
        Some(m[((x + 1) as i32, y, z)])
    } else if m.contains_key(((x - 1) as i32, y, z)) {
        Some(m[((x - 1) as i32, y, z)])
    } else if m.contains_key((x, (y + 1) as i32, z)) {
        Some(m[(x, (y + 1) as i32, z)])
    } else if m.contains_key((x, (y - 1) as i32, z)) {
        Some(m[(x, (y - 1) as i32, z)])
    } else {
        None
    }
}

/// Whether the four horizontal neighbours of a cell stay in `i32`.
pub open spec fn neighbours_fit(cell: Cell) -> bool {
    &&& fits_i32(cell.0 + 1)
    &&& fits_i32(cell.0 - 1)
    &&& fits_i32(cell.1 + 1)
    &&& fits_i32(cell.1 - 1)
}

/// The building that a visitor standing on `cell` can use: the one on a
/// horizontal neighbour, looked for east, west, north then south.
pub fn adjacent_building(park_map: &ParkMap, cell: Cell) -> (r: Option<&BuildingId>)
    requires
        neighbours_fit(cell),
    ensures
        match spec_adjacent_building(park_map.building@, cell) {
            Some(b) => r == Some(&b),
            None => r is None,
        },
{
    let (x, y, z) = cell;
    if let Some(b) = park_map.get_building(x + 1, y, z) {
        return Some(b);
    }
    if let Some(b) = park_map.get_building(x - 1, y, z) {
        return Some(b);
    }
    if let Some(b) = park_map.get_building(x, y + 1, z) {
        return Some(b);
    }
    park_map.get_building(x, y - 1, z)
}

/// A quarter turn undone by three more, a half turn undone by another, and
/// two quarter turns making a half turn, for offsets that can be turned.
pub proof fn lemma_rotations_compose(o: (i32, i32))
    requires
        o.0 != i32::MIN,
        o.1 != i32::MIN,
    ensures
        spec_rotate(spec_rotate(o, Rotation::Deg90), Rotation::Deg270) == o,
        spec_rotate(spec_rotate(o, Rotation::Deg270), Rotation::Deg90) == o,
        spec_rotate(spec_rotate(o, Rotation::Deg180), Rotation::Deg180) == o,
        spec_rotate(spec_rotate(o, Rotation::Deg90), Rotation::Deg90) == spec_rotate(
            o,
            Rotation::Deg180,
        ),
        spec_rotate(o, Rotation::Deg0) == o,
{
}

/// The building used from a cell is one standing on a horizontal neighbour
/// of it, on its level; there is none exactly when no neighbour holds a
/// building; and the neighbours are looked at east, west, north, then south.
pub proof fn lemma_adjacent_building_neighbours(m: Map<Cell, BuildingId>, cell: Cell)
    ensures
        ({
            let (x, y, z) = cell;
            let e = ((x + 1) as i32, y, z);
            let w = ((x - 1) as i32, y, z);
            let n = (x, (y + 1) as i32, z);
            let s = (x, (y - 1) as i32, z);
            let r = spec_adjacent_building(m, cell);
            &&& r is None <==> !(m.contains_key(e) || m.contains_key(w) || m.contains_key(n)
                || m.contains_key(s))
            &&& r matches Some(b) ==> (m.contains_key(e) && b == m[e]) || (m.contains_key(w) && b
                == m[w]) || (m.contains_key(n) && b == m[n]) || (m.contains_key(s) && b == m[s])
            &&& m.contains_key(e) ==> r == Some(m[e])
            &&& !m.contains_key(e) && m.contains_key(w) ==> r == Some(m[w])
            &&& !m.contains_key(e) && !m.contains_key(w) && m.contains_key(n) ==> r == Some(m[n])
            &&& !m.contains_key(e) && !m.contains_key(w) && !m.contains_key(n) && m.contains_key(s)
                ==> r == Some(m[s])
        }),
{
}

/// The cost of walking onto a material: 1 for a path, 2 for stairs or a
/// ramp, 5 for grass, and 10 for water or any other material.
pub proof fn lemma_movement_cost_table(material: Seq<char>)
    ensures
        spec_movement_cost_for("path"@) == 1,
        spec_movement_cost_for("stairs"@) == 2,
        spec_movement_cost_for("ramp"@) == 2,
        spec_movement_cost_for("grass"@) == 5,
        spec_movement_cost_for("water"@) == 10,
        material != "path"@ && material != "stairs"@ && material != "ramp"@ && material != "grass"@
            ==> spec_movement_cost_for(material) == 10,
        1 <= spec_movement_cost_for(material) <= 10,
{
    reveal_strlit("path");
    reveal_strlit("stairs");
    reveal_strlit("ramp");
    reveal_strlit("grass");
    reveal_strlit("water");
    assert("stairs"@ != "path"@) by {
        assert("stairs"@[0] != "path"@[0]);
    }
    assert("ramp"@ != "path"@) by {
        assert("ramp"@[0] != "path"@[0]);
    }
    assert("grass"@ != "path"@) by {
        assert("grass"@[0] != "path"@[0]);
    }
    assert("grass"@ != "stairs"@) by {
        assert("grass"@[0] != "stairs"@[0]);
    }
    assert("grass"@ != "ramp"@) by {
        assert("grass"@[0] != "ramp"@[0]);
    }
    assert("water"@ != "path"@) by {
        assert("water"@[0] != "path"@[0]);
    }
    assert("water"@ != "stairs"@) by {
        assert("water"@[0] != "stairs"@[0]);
    }
    assert("water"@ != "ramp"@) by {
        assert("water"@[0] != "ramp"@[0]);
    }
    assert("water"@ != "grass"@) by {
        assert("water"@[0] != "grass"@[0]);
    }
}

} // verus!
