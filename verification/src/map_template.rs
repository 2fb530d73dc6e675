//! Map templates: the description of a starting map, and how it becomes a
//! park map.
use std::collections::HashSet;
use vstd::prelude::*;

use crate::cells::Cell;
use crate::map::{BuildingId, Bounds3d, InfrastructureShape, Parcel, ParkMap};
use crate::text::{copy_string, fresh_uuid, str_eq};

verus! {

broadcast use vstd::std_specs::hash::group_hash_axioms;

/// Where a map template's JSON text comes from.
pub enum MapSource {
    Embedded(&'static str),
    File(std::path::PathBuf),
}

/// Why a map template could not be loaded or turned into a map.
#[derive(Debug)]
pub enum MapLoadError {
    InvalidJson(String),
    OutOfBounds { x: i32, y: i32, z: i32 },
    UnknownInfrastructureKind(String),
    UnknownMaterial(String),
    InvalidEntrance,
}

pub struct Dimensions {
    pub width: i32,
    pub height: i32,
    pub levels: Vec<i32>,
}

pub struct TerrainEntry {
    pub x: i32,
    pub y: i32,
    pub z: i32,
    pub material: String,
}

pub struct InfrastructureEntry {
    pub x: i32,
    pub y: i32,
    pub z: i32,
    pub kind: String,
    pub to_z: Option<i32>,
}

pub struct BuildingEntry {
    pub x: i32,
    pub y: i32,
    pub z: i32,
    pub building_id: String,
    pub template_id: String,
}

pub struct ParcelEntry {
    pub id: String,
    pub cells: Vec<(i32, i32)>,
    pub unlocked: bool,
    pub price: u32,
}

pub struct Coord {
    pub x: i32,
    pub y: i32,
    pub z: i32,
}

/// The description of a starting map.
pub struct MapTemplate {
    pub archetype: String,
    pub name: String,
    pub dimensions: Dimensions,
    pub default_terrain: String,
    pub terrain: Vec<TerrainEntry>,
    pub infrastructure: Vec<InfrastructureEntry>,
    pub buildings: Vec<BuildingEntry>,
    pub parcels: Vec<ParcelEntry>,
    pub entrance: Coord,
}

/// The shape that an infrastructure entry of kind `kind` stands for, if it
/// names one: "path", or "ramp" or "stairs" with the level they lead to.
pub open spec fn spec_shape_of(kind: Seq<char>, to_z: Option<i32>) -> Option<InfrastructureShape> {
    if kind == "path"@ {
        Some(InfrastructureShape::Path)
    } else if kind == "ramp"@ {
        match to_z {
            Some(z) => Some(InfrastructureShape::Ramp { to_z: z }),
            None => None,
        }
    } else if kind == "stairs"@ {
        match to_z {
            Some(z) => Some(InfrastructureShape::Stairs { to_z: z }),
            None => None,
        }
    } else {
        None
    }
}

/// Whether `e` is the error that parsing an infrastructure entry of kind
/// `kind` gives.
pub open spec fn is_kind_error(kind: Seq<char>, to_z: Option<i32>, e: MapLoadError) -> bool {
    if kind == "ramp"@ && to_z is None {
        e matches MapLoadError::InvalidJson(m) && m@ == "infrastructure ramp without to_z"@
    } else if kind == "stairs"@ && to_z is None {
        e matches MapLoadError::InvalidJson(m) && m@ == "infrastructure stairs without to_z"@
    } else {
        e matches MapLoadError::UnknownInfrastructureKind(k) && k@ == kind
    }
}

/// The shape named by an infrastructure entry.
pub fn parse_infrastructure_kind(kind: &str, to_z: Option<i32>) -> (r: Result<
    InfrastructureShape,
    MapLoadError,
>)
    ensures
        match spec_shape_of(kind@, to_z) {
            Some(shape) => r == Ok::<InfrastructureShape, MapLoadError>(shape),
            None => r matches Err(e) && is_kind_error(kind@, to_z, e),
        },
{
    if str_eq(kind, "path") {
        Ok(InfrastructureShape::Path)
    } else if str_eq(kind, "ramp") {
        match to_z {
            Some(z) => Ok(InfrastructureShape::Ramp { to_z: z }),
            None => Err(MapLoadError::InvalidJson("infrastructure ramp without to_z".to_string())),
        }
    } else if str_eq(kind, "stairs") {
        match to_z {
            Some(z) => Ok(InfrastructureShape::Stairs { to_z: z }),
            None => Err(MapLoadError::InvalidJson("infrastructure stairs without to_z".to_string())),
        }
    } else {
        Err(MapLoadError::UnknownInfrastructureKind(kind.to_string()))
    }
}

/// Whether a result is the error of an entry outside the map at `(x, y, z)`.
pub open spec fn is_out_of_bounds<T>(r: Result<T, MapLoadError>, x: i32, y: i32, z: i32) -> bool {
    match r {
        Err(MapLoadError::OutOfBounds { x: a, y: b, z: c }) => a == x && b == y && c == z,
        _ => false,
    }
}

/// Whether a result is the error that parsing an infrastructure entry of
/// kind `kind` gives.
pub open spec fn is_kind_failure<T>(r: Result<T, MapLoadError>, kind: Seq<char>, to_z: Option<i32>) -> bool {
    match r {
        Err(e) => is_kind_error(kind, to_z, e),
        _ => false,
    }
}

/// The least of the levels from index `i` on.
pub open spec fn min_from(s: Seq<i32>, i: int) -> i32
    decreases s.len() - i,
{
    if i < 0 || i >= s.len() - 1 {
        if 0 <= i < s.len() {
            s[i]
        } else {
            0
        }
    } else {
        let rest = min_from(s, i + 1);
        if s[i] <= rest {
            s[i]
        } else {
            rest
        }
    }
}

/// The greatest of the levels from index `i` on.
pub open spec fn max_from(s: Seq<i32>, i: int) -> i32
    decreases s.len() - i,
{
    if i < 0 || i >= s.len() - 1 {
        if 0 <= i < s.len() {
            s[i]
        } else {
            0
        }
    } else {
        let rest = max_from(s, i + 1);
        if s[i] >= rest {
            s[i]
        } else {
            rest
        }
    }
}

/// The terrain of every cell of level 0 inside the template's width and
/// height.
pub open spec fn default_layer(width: i32, height: i32, material: String) -> Map<Cell, String> {
    Map::new(|c: Cell| 0 <= c.0 < width && 0 <= c.1 < height && c.2 == 0, |c: Cell| material)
}

/// `base` with the terrain entries written over it in order.
pub open spec fn terrain_layer(base: Map<Cell, String>, entries: Seq<TerrainEntry>) -> Map<Cell, String>
    decreases entries.len(),
{
    if entries.len() == 0 {
        base
    } else {
        let e = entries.last();
        terrain_layer(base, entries.drop_last()).insert((e.x, e.y, e.z), e.material)
    }
}

/// The infrastructure of the entries, written in order.
pub open spec fn infrastructure_layer(entries: Seq<InfrastructureEntry>) -> Map<Cell, InfrastructureShape>
    decreases entries.len(),
{
    if entries.len() == 0 {
        Map::empty()
    } else {
        let e = entries.last();
        infrastructure_layer(entries.drop_last()).insert(
            (e.x, e.y, e.z),
            spec_shape_of(e.kind@, e.to_z).unwrap(),
        )
    }
}

/// The buildings of the entries, written in order.
pub open spec fn building_layer(entries: Seq<BuildingEntry>) -> Map<Cell, BuildingId>
    decreases entries.len(),
{
    if entries.len() == 0 {
        Map::empty()
    } else {
        let e = entries.last();
        building_layer(entries.drop_last()).insert(
            (e.x, e.y, e.z),
            BuildingId { building_id: e.building_id, template_id: e.template_id },
        )
    }
}

/// The parcel that a parcel entry describes.
pub open spec fn parcel_of(e: ParcelEntry) -> Parcel {
    Parcel { id: e.id, cells: e.cells, unlocked: e.unlocked, price: e.price }
}

/// Whether a parcel's cells hold the same columns as an entry's.
pub open spec fn parcel_matches(p: Parcel, e: ParcelEntry) -> bool {
    &&& p.id@ == e.id@
    &&& p.cells@ == e.cells@
    &&& p.unlocked == e.unlocked
    &&& p.price == e.price
}

impl MapTemplate {
    /// The bounds of the map the template describes.
    pub open spec fn spec_bounds(self) -> Bounds3d {
        Bounds3d {
            min_x: 0,
            max_x: (self.dimensions.width - 1) as i32,
            min_y: 0,
            max_y: (self.dimensions.height - 1) as i32,
            min_z: min_from(self.dimensions.levels@, 0),
            max_z: max_from(self.dimensions.levels@, 0),
        }
    }

    pub open spec fn terrain_ok(self, i: int) -> bool {
        self.spec_bounds().contains(
            (self.terrain@[i].x, self.terrain@[i].y, self.terrain@[i].z),
        )
    }

    pub open spec fn infrastructure_in_bounds(self, i: int) -> bool {
        self.spec_bounds().contains(
            (self.infrastructure@[i].x, self.infrastructure@[i].y, self.infrastructure@[i].z),
        )
    }

    pub open spec fn infrastructure_ok(self, i: int) -> bool {
        &&& self.infrastructure_in_bounds(i)
        &&& spec_shape_of(self.infrastructure@[i].kind@, self.infrastructure@[i].to_z) is Some
    }

    pub open spec fn building_ok(self, i: int) -> bool {
        self.spec_bounds().contains(
            (self.buildings@[i].x, self.buildings@[i].y, self.buildings@[i].z),
        )
    }

    pub open spec fn parcel_cell_ok(self, i: int, k: int) -> bool {
        let c = self.parcels@[i].cells@[k];
        self.spec_bounds().contains((c.0, c.1, self.spec_bounds().min_z))
    }

    pub open spec fn parcel_ok(self, i: int) -> bool {
        forall|k: int| 0 <= k < self.parcels@[i].cells@.len() ==> self.parcel_cell_ok(i, k)
    }

    pub open spec fn all_terrain_ok(self) -> bool {
        forall|i: int| 0 <= i < self.terrain@.len() ==> self.terrain_ok(i)
    }

    pub open spec fn all_infrastructure_ok(self) -> bool {
        forall|i: int| 0 <= i < self.infrastructure@.len() ==> self.infrastructure_ok(i)
    }

    pub open spec fn all_buildings_ok(self) -> bool {
        forall|i: int| 0 <= i < self.buildings@.len() ==> self.building_ok(i)
    }

    pub open spec fn all_parcels_ok(self) -> bool {
        forall|i: int| 0 <= i < self.parcels@.len() ==> self.parcel_ok(i)
    }

    /// The terrain of the map the template describes.
    pub open spec fn spec_terrain(self) -> Map<Cell, String> {
        terrain_layer(
            default_layer(self.dimensions.width, self.dimensions.height, self.default_terrain),
            self.terrain@,
        )
    }

    /// The entrance of the map the template describes.
    pub open spec fn spec_entrance(self) -> Cell {
        (self.entrance.x, self.entrance.y, self.entrance.z)
    }

    /// Whether every check on the template passes.
    pub open spec fn valid(self) -> bool {
        &&& self.dimensions.levels@.len() > 0
        &&& self.all_terrain_ok()
        &&& self.all_infrastructure_ok()
        &&& self.all_buildings_ok()
        &&& self.all_parcels_ok()
        &&& infrastructure_layer(self.infrastructure@).contains_key(self.spec_entrance())
    }

    /// Builds the park map the template describes: the default terrain on
    /// every cell of level 0, then the terrain, infrastructure and buildings
    /// of the entries in order, the parcels, and the entrance, which must
    /// hold infrastructure. The checks run in that order and the first that
    /// fails gives the error. The map's id is fresh.
    pub fn into_park_map(&self) -> (r: Result<ParkMap, MapLoadError>)
        requires
            self.dimensions.width > i32::MIN,
            self.dimensions.height > i32::MIN,
        ensures
            r is Ok <==> self.valid(),
            r matches Ok(m) ==> {
                &&& m.bounds == self.spec_bounds()
                &&& m.unlocked_levels@ == self.dimensions.levels@.to_set()
                &&& m.terrain@ == self.spec_terrain()
                &&& m.infrastructure@ == infrastructure_layer(self.infrastructure@)
                &&& m.building@ == building_layer(self.buildings@)
                &&& m.parcels@.len() == self.parcels@.len()
                &&& forall|i: int| 0 <= i < self.parcels@.len() ==> parcel_matches(#[trigger] m.parcels@[i], self.parcels@[i])
                &&& m.entrance == Some(self.spec_entrance())
            },
            self.dimensions.levels@.len() == 0 ==> (match r {
                Err(MapLoadError::InvalidJson(msg)) => msg@ == "dimensions.levels is empty"@,
                _ => false,
            }),
            forall|i: int|
                0 <= i < self.terrain@.len() && self.dimensions.levels@.len() > 0 && (forall|k: int|
                    0 <= k < i ==> self.terrain_ok(k)) && !#[trigger] self.terrain_ok(i) ==> is_out_of_bounds(r, self.terrain@[i].x, self.terrain@[i].y, self.terrain@[i].z),
            forall|i: int|
                0 <= i < self.infrastructure@.len() && self.dimensions.levels@.len() > 0
                    && self.all_terrain_ok() && (forall|k: int| 0 <= k < i ==> self.infrastructure_ok(k))
                    && !#[trigger] self.infrastructure_ok(i) ==> if !self.infrastructure_in_bounds(i) {
                    is_out_of_bounds(r, self.infrastructure@[i].x, self.infrastructure@[i].y, self.infrastructure@[i].z)
                } else {
                    is_kind_failure(r, self.infrastructure@[i].kind@, self.infrastructure@[i].to_z)
                },
            forall|i: int|
                0 <= i < self.buildings@.len() && self.dimensions.levels@.len() > 0
                    && self.all_terrain_ok() && self.all_infrastructure_ok() && (forall|k: int|
                    0 <= k < i ==> self.building_ok(k)) && !#[trigger] self.building_ok(i) ==> is_out_of_bounds(r, self.buildings@[i].x, self.buildings@[i].y, self.buildings@[i].z),
            forall|i: int, k: int|
                0 <= i < self.parcels@.len() && 0 <= k < self.parcels@[i].cells@.len()
                    && self.dimensions.levels@.len() > 0 && self.all_terrain_ok()
                    && self.all_infrastructure_ok() && self.all_buildings_ok() && (forall|j: int|
                    0 <= j < i ==> self.parcel_ok(j)) && (forall|j: int|
                    0 <= j < k ==> self.parcel_cell_ok(i, j)) && !#[trigger] self.parcel_cell_ok(i, k)
                    ==> is_out_of_bounds(r, self.parcels@[i].cells@[k].0, self.parcels@[i].cells@[k].1, self.spec_bounds().min_z),
            self.dimensions.levels@.len() > 0 && self.all_terrain_ok() && self.all_infrastructure_ok()
                && self.all_buildings_ok() && self.all_parcels_ok() && !infrastructure_layer(
                self.infrastructure@,
            ).contains_key(self.spec_entrance()) ==> r matches Err(MapLoadError::InvalidEntrance),
    {
        let levels = &self.dimensions.levels;
        if levels.len() == 0 {
            return Err(MapLoadError::InvalidJson("dimensions.levels is empty".to_string()));
        }
        let (min_z, max_z) = level_range(levels);
        let bounds = Bounds3d::new(
            0,
            self.dimensions.width - 1,
            0,
            self.dimensions.height - 1,
            min_z,
            max_z,
        );
        let mut park_map = ParkMap::new(fresh_uuid(), bounds);
        park_map.unlocked_levels = level_set(levels);
        fill_default_terrain(
            &mut park_map,
            self.dimensions.width,
            self.dimensions.height,
            &self.default_terrain,
        );
        let terrain = self.apply_terrain(&mut park_map);
        if let Err(e) = terrain {
            return Err(e);
        }
        let infrastructure = self.apply_infrastructure(&mut park_map);
        if let Err(e) = infrastructure {
            return Err(e);
        }
        let buildings = self.apply_buildings(&mut park_map);
        if let Err(e) = buildings {
            return Err(e);
        }
        let parcels = self.apply_parcels(&mut park_map);
        if let Err(e) = parcels {
            return Err(e);
        }
        if park_map.get_infrastructure(self.entrance.x, self.entrance.y, self.entrance.z).is_none() {
            return Err(MapLoadError::InvalidEntrance);
        }
        park_map.entrance = Some((self.entrance.x, self.entrance.y, self.entrance.z));
        Ok(park_map)
    }

    fn apply_terrain(&self, park_map: &mut ParkMap) -> (r: Result<(), MapLoadError>)
        requires
            old(park_map).bounds == self.spec_bounds(),
        ensures
            final(park_map).bounds == old(park_map).bounds,
            final(park_map).unlocked_levels@ == old(park_map).unlocked_levels@,
            final(park_map).infrastructure@ == old(park_map).infrastructure@,
            final(park_map).building@ == old(park_map).building@,
            final(park_map).parcels@ == old(park_map).parcels@,
            final(park_map).entrance == old(park_map).entrance,
            r is Ok <==> self.all_terrain_ok(),
            r is Ok ==> final(park_map).terrain@ == terrain_layer(old(park_map).terrain@, self.terrain@),
            forall|i: int|
                0 <= i < self.terrain@.len() && (forall|k: int| 0 <= k < i ==> self.terrain_ok(k))
                    && !#[trigger] self.terrain_ok(i) ==> is_out_of_bounds(r, self.terrain@[i].x, self.terrain@[i].y, self.terrain@[i].z),
    {
        let n = self.terrain.len();
        let mut i: usize = 0;
        while i < n
            invariant
                n == self.terrain@.len(),
                i <= n,
                park_map.bounds == self.spec_bounds(),
                forall|k: int| 0 <= k < i ==> self.terrain_ok(k),
                park_map.terrain@ == terrain_layer(old(park_map).terrain@, self.terrain@.take(i as int)),
                park_map.bounds == old(park_map).bounds,
                park_map.unlocked_levels@ == old(park_map).unlocked_levels@,
                park_map.infrastructure@ == old(park_map).infrastructure@,
                park_map.building@ == old(park_map).building@,
                park_map.parcels@ == old(park_map).parcels@,
                park_map.entrance == old(park_map).entrance,
            decreases n - i,
        {
            let e = &self.terrain[i];
            if !park_map.is_within_bounds(e.x, e.y, e.z) {
                proof {
                    assert(!self.terrain_ok(i as int));
                    assert forall|j: int|
                        0 <= j < self.terrain@.len() && (forall|k: int| 0 <= k < j ==> self.terrain_ok(k))
                            && !#[trigger] self.terrain_ok(j) implies j == i by {
                        if j > i {
                            assert(self.terrain_ok(i as int));
                        }
                    }
                }
                return Err(MapLoadError::OutOfBounds { x: e.x, y: e.y, z: e.z });
            }
            park_map.set_terrain(e.x, e.y, e.z, copy_string(&e.material));
            proof {
                let t = self.terrain@.take(i + 1);
                assert(t.drop_last() =~= self.terrain@.take(i as int));
                assert(t.last() == self.terrain@[i as int]);
                assert(park_map.terrain@ == terrain_layer(old(park_map).terrain@, t));
            }
            i += 1;
        }
        assert(self.terrain@.take(n as int) =~= self.terrain@);
        Ok(())
    }

    fn apply_infrastructure(&self, park_map: &mut ParkMap) -> (r: Result<(), MapLoadError>)
        requires
            old(park_map).bounds == self.spec_bounds(),
            old(park_map).infrastructure@ == Map::<Cell, InfrastructureShape>::empty(),
        ensures
            final(park_map).bounds == old(park_map).bounds,
            final(park_map).unlocked_levels@ == old(park_map).unlocked_levels@,
            final(park_map).terrain@ == old(park_map).terrain@,
            final(park_map).building@ == old(park_map).building@,
            final(park_map).parcels@ == old(park_map).parcels@,
            final(park_map).entrance == old(park_map).entrance,
            r is Ok <==> self.all_infrastructure_ok(),
            r is Ok ==> final(park_map).infrastructure@ == infrastructure_layer(self.infrastructure@),
            forall|i: int|
                0 <= i < self.infrastructure@.len() && (forall|k: int| 0 <= k < i ==> self.infrastructure_ok(k))
                    && !#[trigger] self.infrastructure_ok(i) ==> if !self.infrastructure_in_bounds(i) {
                    is_out_of_bounds(r, self.infrastructure@[i].x, self.infrastructure@[i].y, self.infrastructure@[i].z)
                } else {
                    is_kind_failure(r, self.infrastructure@[i].kind@, self.infrastructure@[i].to_z)
                },
    {
        let n = self.infrastructure.len();
        let mut i: usize = 0;
        while i < n
            invariant
                n == self.infrastructure@.len(),
                i <= n,
                park_map.bounds == self.spec_bounds(),
                forall|k: int| 0 <= k < i ==> self.infrastructure_ok(k),
                park_map.infrastructure@ == infrastructure_layer(self.infrastructure@.take(i as int)),
                park_map.bounds == old(park_map).bounds,
                park_map.unlocked_levels@ == old(park_map).unlocked_levels@,
                park_map.terrain@ == old(park_map).terrain@,
                park_map.building@ == old(park_map).building@,
                park_map.parcels@ == old(park_map).parcels@,
                park_map.entrance == old(park_map).entrance,
            decreases n - i,
        {
            let e = &self.infrastructure[i];
            proof {
                assert forall|j: int|
                    0 <= j < self.infrastructure@.len() && (forall|k: int| 0 <= k < j ==> self.infrastructure_ok(k))
                        && !#[trigger] self.infrastructure_ok(j) && !self.infrastructure_ok(i as int) implies j == i by {
                    if j > i {
                        assert(self.infrastructure_ok(i as int));
                    }
                }
            }
            if !park_map.is_within_bounds(e.x, e.y, e.z) {
                proof {
                    assert(!self.infrastructure_ok(i as int));
                }
                return Err(MapLoadError::OutOfBounds { x: e.x, y: e.y, z: e.z });
            }
            let shape = match parse_infrastructure_kind(e.kind.as_str(), e.to_z) {
                Ok(shape) => shape,
                Err(err) => {
                    proof {
                        assert(!self.infrastructure_ok(i as int));
                    }
                    return Err(err);
                },
            };
            park_map.set_infrastructure(e.x, e.y, e.z, shape);
            proof {
                let t = self.infrastructure@.take(i + 1);
                assert(t.drop_last() =~= self.infrastructure@.take(i as int));
                assert(t.last() == self.infrastructure@[i as int]);
                assert(park_map.infrastructure@ == infrastructure_layer(t));
            }
            i += 1;
        }
        assert(self.infrastructure@.take(n as int) =~= self.infrastructure@);
        Ok(())
    }

    fn apply_buildings(&self, park_map: &mut ParkMap) -> (r: Result<(), MapLoadError>)
        requires
            old(park_map).bounds == self.spec_bounds(),
            old(park_map).building@ == Map::<Cell, BuildingId>::empty(),
        ensures
            final(park_map).bounds == old(park_map).bounds,
            final(park_map).unlocked_levels@ == old(park_map).unlocked_levels@,
            final(park_map).terrain@ == old(park_map).terrain@,
            final(park_map).infrastructure@ == old(park_map).infrastructure@,
            final(park_map).parcels@ == old(park_map).parcels@,
            final(park_map).entrance == old(park_map).entrance,
            r is Ok <==> self.all_buildings_ok(),
            r is Ok ==> final(park_map).building@ == building_layer(self.buildings@),
            forall|i: int|
                0 <= i < self.buildings@.len() && (forall|k: int| 0 <= k < i ==> self.building_ok(k))
                    && !#[trigger] self.building_ok(i) ==> is_out_of_bounds(r, self.buildings@[i].x, self.buildings@[i].y, self.buildings@[i].z),
    {
        let n = self.buildings.len();
        let mut i: usize = 0;
        while i < n
            invariant
                n == self.buildings@.len(),
                i <= n,
                park_map.bounds == self.spec_bounds(),
                forall|k: int| 0 <= k < i ==> self.building_ok(k),
                park_map.building@ == building_layer(self.buildings@.take(i as int)),
                park_map.bounds == old(park_map).bounds,
                park_map.unlocked_levels@ == old(park_map).unlocked_levels@,
                park_map.terrain@ == old(park_map).terrain@,
                park_map.infrastructure@ == old(park_map).infrastructure@,
                park_map.parcels@ == old(park_map).parcels@,
                park_map.entrance == old(park_map).entrance,
            decreases n - i,
        {
            let e = &self.buildings[i];
            if !park_map.is_within_bounds(e.x, e.y, e.z) {
                proof {
                    assert(!self.building_ok(i as int));
                    assert forall|j: int|
                        0 <= j < self.buildings@.len() && (forall|k: int| 0 <= k < j ==> self.building_ok(k))
                            && !#[trigger] self.building_ok(j) implies j == i by {
                        if j > i {
                            assert(self.building_ok(i as int));
                        }
                    }
                }
                return Err(MapLoadError::OutOfBounds { x: e.x, y: e.y, z: e.z });
            }
            let building_id = BuildingId {
                building_id: copy_string(&e.building_id),
                template_id: copy_string(&e.template_id),
            };
            park_map.set_building(e.x, e.y, e.z, building_id);
            proof {
                let t = self.buildings@.take(i + 1);
                assert(t.drop_last() =~= self.buildings@.take(i as int));
                assert(t.last() == self.buildings@[i as int]);
                assert(park_map.building@ == building_layer(t));
            }
            i += 1;
        }
        assert(self.buildings@.take(n as int) =~= self.buildings@);
        Ok(())
    }

    fn apply_parcels(&self, park_map: &mut ParkMap) -> (r: Result<(), MapLoadError>)
        requires
            old(park_map).bounds == self.spec_bounds(),
            old(park_map).parcels@.len() == 0,
        ensures
            final(park_map).bounds == old(park_map).bounds,
            final(park_map).unlocked_levels@ == old(park_map).unlocked_levels@,
            final(park_map).terrain@ == old(park_map).terrain@,
            final(park_map).infrastructure@ == old(park_map).infrastructure@,
            final(park_map).building@ == old(park_map).building@,
            final(park_map).entrance == old(park_map).entrance,
            r is Ok <==> self.all_parcels_ok(),
            r is Ok ==> final(park_map).parcels@.len() == self.parcels@.len() && forall|i: int|
                0 <= i < self.parcels@.len() ==> parcel_matches(#[trigger] final(park_map).parcels@[i], self.parcels@[i]),
            forall|i: int, k: int|
                0 <= i < self.parcels@.len() && 0 <= k < self.parcels@[i].cells@.len() && (forall|j: int|
                    0 <= j < i ==> self.parcel_ok(j)) && (forall|j: int|
                    0 <= j < k ==> self.parcel_cell_ok(i, j)) && !#[trigger] self.parcel_cell_ok(i, k)
                    ==> is_out_of_bounds(r, self.parcels@[i].cells@[k].0, self.parcels@[i].cells@[k].1, self.spec_bounds().min_z),
    {
        let n = self.parcels.len();
        let mut i: usize = 0;
        while i < n
            invariant
                n == self.parcels@.len(),
                i <= n,
                park_map.bounds == self.spec_bounds(),
                forall|k: int| 0 <= k < i ==> self.parcel_ok(k),
                park_map.parcels@.len() == i,
                forall|k: int| 0 <= k < i ==> parcel_matches(#[trigger] park_map.parcels@[k], self.parcels@[k]),
                park_map.bounds == old(park_map).bounds,
                park_map.unlocked_levels@ == old(park_map).unlocked_levels@,
                park_map.terrain@ == old(park_map).terrain@,
                park_map.infrastructure@ == old(park_map).infrastructure@,
                park_map.building@ == old(park_map).building@,
                park_map.entrance == old(park_map).entrance,
            decreases n - i,
        {
            let e = &self.parcels[i];
            let m = e.cells.len();
            let mut k: usize = 0;
            let mut cells: Vec<(i32, i32)> = Vec::new();
            while k < m
                invariant
                    m == e.cells@.len(),
                    k <= m,
                    i < n,
                    n == self.parcels@.len(),
                    *e == self.parcels@[i as int],
                    park_map.bounds == self.spec_bounds(),
                    cells@ == e.cells@.take(k as int),
                    forall|j: int| 0 <= j < k ==> self.parcel_cell_ok(i as int, j),
                    forall|j: int| 0 <= j < i ==> self.parcel_ok(j),
                    park_map.bounds == old(park_map).bounds,
                    park_map.unlocked_levels@ == old(park_map).unlocked_levels@,
                    park_map.terrain@ == old(park_map).terrain@,
                    park_map.infrastructure@ == old(park_map).infrastructure@,
                    park_map.building@ == old(park_map).building@,
                    park_map.entrance == old(park_map).entrance,
                decreases m - k,
            {
                let (x, y) = e.cells[k];
                if !park_map.is_within_bounds(x, y, park_map.bounds.min_z) {
                    proof {
                        assert(!self.parcel_cell_ok(i as int, k as int));
                        assert(!self.parcel_ok(i as int));
                        assert forall|a: int, b: int|
                            0 <= a < self.parcels@.len() && 0 <= b < self.parcels@[a].cells@.len() && (forall|j: int|
                                0 <= j < a ==> self.parcel_ok(j)) && (forall|j: int|
                                0 <= j < b ==> self.parcel_cell_ok(a, j)) && !#[trigger] self.parcel_cell_ok(a, b)
                                implies a == i && b == k by {
                            if a > i {
                                assert(self.parcel_ok(i as int));
                            }
                            if a < i {
                                assert(self.parcel_ok(a));
                            }
                            if a == i && b > k {
                                assert(self.parcel_cell_ok(a, k as int));
                            }
                        }
                    }
                    return Err(MapLoadError::OutOfBounds { x, y, z: park_map.bounds.min_z });
                }
                cells.push((x, y));
                proof {
                    assert(cells@ =~= e.cells@.take(k + 1));
                }
                k += 1;
            }
            proof {
                assert(cells@ =~= e.cells@);
                assert(self.parcel_ok(i as int));
            }
            park_map.parcels.push(
                Parcel { id: copy_string(&e.id), cells, unlocked: e.unlocked, price: e.price },
            );
            i += 1;
        }
        proof {
            assert forall|a: int, b: int|
                0 <= a < self.parcels@.len() && 0 <= b < self.parcels@[a].cells@.len()
                    implies #[trigger] self.parcel_cell_ok(a, b) by {
                assert(self.parcel_ok(a));
            }
        }
        Ok(())
    }
}

/// The least and greatest of some levels.
fn level_range(levels: &Vec<i32>) -> (r: (i32, i32))
    requires
        levels@.len() > 0,
    ensures
        r.0 == min_from(levels@, 0),
        r.1 == max_from(levels@, 0),
{
    let n = levels.len();
    let mut lo = levels[n - 1];
    let mut hi = levels[n - 1];
    let mut i: usize = n - 1;
    while i > 0
        invariant
            n == levels@.len(),
            0 <= i < n,
            lo == min_from(levels@, i as int),
            hi == max_from(levels@, i as int),
        decreases i,
    {
        i -= 1;
        let v = levels[i];
        if v <= lo {
            lo = v;
        }
        if v >= hi {
            hi = v;
        }
    }
    (lo, hi)
}

/// The set of some levels.
fn level_set(levels: &Vec<i32>) -> (r: HashSet<i32>)
    ensures
        r@ == levels@.to_set(),
{
    let mut r: HashSet<i32> = HashSet::new();
    let n = levels.len();
    let mut i: usize = 0;
    while i < n
        invariant
            n == levels@.len(),
            i <= n,
            r@ == levels@.take(i as int).to_set(),
        decreases n - i,
    {
        r.insert(levels[i]);
        proof {
            crate::seqs::lemma_take_succ_to_set(levels@, i as int);
        }
        i += 1;
    }
    assert(levels@.take(n as int) =~= levels@);
    r
}

/// Gives every cell of level 0 inside `width` and `height` the material
/// `material`.
fn fill_default_terrain(park_map: &mut ParkMap, width: i32, height: i32, material: &String)
    requires
        old(park_map).terrain@ == Map::<Cell, String>::empty(),
    ensures
        final(park_map).terrain@ == default_layer(width, height, *material),
        final(park_map).bounds == old(park_map).bounds,
        final(park_map).unlocked_levels@ == old(park_map).unlocked_levels@,
        final(park_map).infrastructure@ == old(park_map).infrastructure@,
        final(park_map).building@ == old(park_map).building@,
        final(park_map).parcels@ == old(park_map).parcels@,
        final(park_map).entrance == old(park_map).entrance,
{
    let mut x: i32 = 0;
    while x < width
        invariant
            0 <= x,
            width <= 0 ==> x == 0,
            width > 0 ==> x <= width,
            park_map.terrain@ == Map::new(
                |c: Cell| 0 <= c.0 < x && 0 <= c.1 < height && c.2 == 0,
                |c: Cell| *material,
            ),
            park_map.bounds == old(park_map).bounds,
            park_map.unlocked_levels@ == old(park_map).unlocked_levels@,
            park_map.infrastructure@ == old(park_map).infrastructure@,
            park_map.building@ == old(park_map).building@,
            park_map.parcels@ == old(park_map).parcels@,
            park_map.entrance == old(park_map).entrance,
        decreases width - x,
    {
        let mut y: i32 = 0;
        while y < height
            invariant
                0 <= x < width,
                0 <= y,
                height <= 0 ==> y == 0,
                height > 0 ==> y <= height,
                park_map.terrain@ == Map::new(
                    |c: Cell| (0 <= c.0 < x && 0 <= c.1 < height || c.0 == x && 0 <= c.1 < y) && c.2 == 0,
                    |c: Cell| *material,
                ),
                park_map.bounds == old(park_map).bounds,
                park_map.unlocked_levels@ == old(park_map).unlocked_levels@,
                park_map.infrastructure@ == old(park_map).infrastructure@,
                park_map.building@ == old(park_map).building@,
                park_map.parcels@ == old(park_map).parcels@,
                park_map.entrance == old(park_map).entrance,
            decreases height - y,
        {
            park_map.set_terrain(x, y, 0, copy_string(material));
            proof {
                assert(park_map.terrain@ =~= Map::new(
                    |c: Cell| (0 <= c.0 < x && 0 <= c.1 < height || c.0 == x && 0 <= c.1 < y + 1) && c.2 == 0,
                    |c: Cell| *material,
                ));
            }
            y += 1;
        }
        proof {
            assert(park_map.terrain@ =~= Map::new(
                |c: Cell| 0 <= c.0 < x + 1 && 0 <= c.1 < height && c.2 == 0,
                |c: Cell| *material,
            ));
        }
        x += 1;
    }
    assert(park_map.terrain@ =~= default_layer(width, height, *material));
}

proof fn lemma_level_extremes(s: Seq<i32>, i: int)
    requires
        0 <= i < s.len(),
    ensures
        exists|j: int| i <= j < s.len() && s[j] == min_from(s, i),
        exists|j: int| i <= j < s.len() && s[j] == max_from(s, i),
        forall|j: int| i <= j < s.len() ==> min_from(s, i) <= #[trigger] s[j] <= max_from(s, i),
    decreases s.len() - i,
{
    if i < s.len() - 1 {
        lemma_level_extremes(s, i + 1);
        let jm = choose|j: int| i + 1 <= j < s.len() && s[j] == min_from(s, i + 1);
        let jx = choose|j: int| i + 1 <= j < s.len() && s[j] == max_from(s, i + 1);
        if s[i] <= min_from(s, i + 1) {
            assert(s[i] == min_from(s, i));
        } else {
            assert(s[jm] == min_from(s, i));
        }
        if s[i] >= max_from(s, i + 1) {
            assert(s[i] == max_from(s, i));
        } else {
            assert(s[jx] == max_from(s, i));
        }
    } else {
        assert(s[i] == min_from(s, i));
        assert(s[i] == max_from(s, i));
    }
}

/// The levels of a loaded map run from the least level the template lists
/// to the greatest: both ends are listed levels, and every listed level lies
/// between them.
pub proof fn lemma_bounds_cover_levels(t: MapTemplate)
    requires
        t.dimensions.levels@.len() > 0,
    ensures
        t.dimensions.levels@.contains(t.spec_bounds().min_z),
        t.dimensions.levels@.contains(t.spec_bounds().max_z),
        forall|i: int|
            0 <= i < t.dimensions.levels@.len() ==> t.spec_bounds().min_z
                <= #[trigger] t.dimensions.levels@[i] <= t.spec_bounds().max_z,
{
    lemma_level_extremes(t.dimensions.levels@, 0);
}

} // verus!
