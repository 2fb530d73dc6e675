//! Placement rules: whether terrain, infrastructure and buildings may be
//! placed on or removed from cells of the map.
use vstd::prelude::*;

use crate::building_template::BuildingCatalog;
use crate::cells::Cell;
use crate::map::{
    fits_i32, placed_cells, placement_fits, rotate_footprint, InfrastructureShape, ParkMap,
};
use crate::protocol::{ErrorCode, Rotation};
use crate::text::str_eq;

verus! {

/// The outcome of checking every cell of `cells` from `i` on with `check`:
/// the error of the first cell that fails, or success.
pub open spec fn check_all(
    cells: Seq<Cell>,
    check: spec_fn(Cell) -> Result<(), ErrorCode>,
    i: int,
) -> Result<(), ErrorCode>
    decreases cells.len() - i,
{
    if i < 0 || i >= cells.len() {
        Ok(())
    } else {
        match check(cells[i]) {
            Err(e) => Err(e),
            Ok(()) => check_all(cells, check, i + 1),
        }
    }
}

pub proof fn lemma_check_all_ok(
    cells: Seq<Cell>,
    check: spec_fn(Cell) -> Result<(), ErrorCode>,
    i: int,
)
    requires
        0 <= i <= cells.len(),
    ensures
        check_all(cells, check, i) is Ok <==> forall|k: int| i <= k < cells.len() ==> check(
            #[trigger] cells[k],
        ) is Ok,
    decreases cells.len() - i,
{
    if i < cells.len() {
        lemma_check_all_ok(cells, check, i + 1);
    }
}

/// Whether a material is water.
pub open spec fn is_water(material: Seq<char>) -> bool {
    material == "water"@
}

impl ParkMap {
    /// Whether a cell lies inside the map on an open level and an unlocked
    /// parcel.
    pub open spec fn open_cell_check(self, c: Cell) -> Result<(), ErrorCode> {
        if !self.in_bounds(c) || !self.level_open(c.2) {
            Err(ErrorCode::ErrorOutOfBounds)
        } else if !self.spec_is_unlocked((c.0, c.1)) {
            Err(ErrorCode::ErrorOutOfBounds)
        } else {
            Ok(())
        }
    }

    /// Whether terrain may be applied to a cell.
    pub open spec fn terrain_check(self, c: Cell) -> Result<(), ErrorCode> {
        if self.open_cell_check(c) is Err {
            self.open_cell_check(c)
        } else if self.building@.contains_key(c) {
            Err(ErrorCode::ErrorCollision)
        } else {
            Ok(())
        }
    }

    /// Whether the building below a cell at level 1 (or above it at level
    /// -1) lets a path cross it.
    pub open spec fn crossing_check(self, catalog: BuildingCatalog, c: Cell) -> Result<(), ErrorCode> {
        if (c.2 == 1 || c.2 == -1) && self.building@.contains_key((c.0, c.1, 0)) {
            let allowed = match catalog.spec_get(self.building@[(c.0, c.1, 0)].template_id@) {
                Some(t) => if c.2 == 1 {
                    t.crossing_flags.bridge_above_allowed
                } else {
                    t.crossing_flags.tunnel_below_allowed
                },
                None => false,
            };
            if allowed {
                Ok(())
            } else {
                Err(ErrorCode::ErrorCrossingNotAllowed)
            }
        } else {
            Ok(())
        }
    }

    /// The checks on one cell for infrastructure, before the checks on the
    /// level that a ramp or stairs lead to.
    pub open spec fn infrastructure_site_check(self, catalog: BuildingCatalog, c: Cell) -> Result<
        (),
        ErrorCode,
    > {
        if self.terrain_check(c) is Err {
            self.terrain_check(c)
        } else if c.2 == 0 && self.terrain@.contains_key(c) && is_water(self.terrain@[c]@) {
            Err(ErrorCode::ErrorCrossingNotAllowed)
        } else {
            self.crossing_check(catalog, c)
        }
    }

    /// Whether infrastructure of shape `kind`, leading to level `to_z`, may be
    /// placed on a cell.
    pub open spec fn infrastructure_check(
        self,
        catalog: BuildingCatalog,
        kind: InfrastructureShape,
        to_z: i32,
        c: Cell,
    ) -> Result<(), ErrorCode> {
        if self.infrastructure_site_check(catalog, c) is Err {
            self.infrastructure_site_check(catalog, c)
        } else if kind is Ramp || kind is Stairs {
            if !self.level_open(to_z) {
                Err(ErrorCode::ErrorOutOfBounds)
            } else if to_z - c.2 != 1 && to_z - c.2 != -1 {
                Err(ErrorCode::ErrorCrossingNotAllowed)
            } else {
                Ok(())
            }
        } else {
            Ok(())
        }
    }

    /// Whether the level difference between `to_z` and every cell whose
    /// checks reach it can be computed in `i32`.
    pub open spec fn level_steps_fit(
        self,
        catalog: BuildingCatalog,
        kind: InfrastructureShape,
        to_z: i32,
        coordinates: Seq<Cell>,
    ) -> bool {
        forall|i: int|
            0 <= i < coordinates.len() && (kind is Ramp || kind is Stairs) && (forall|k: int|
                0 <= k < i ==> self.infrastructure_check(catalog, kind, to_z, #[trigger] coordinates[k])
                    is Ok) && self.infrastructure_site_check(catalog, #[trigger] coordinates[i]) is Ok
                && self.level_open(to_z) ==> fits_i32(to_z - coordinates[i].2)
    }

    /// Whether infrastructure may be removed from a cell.
    pub open spec fn removal_check(self, c: Cell) -> Result<(), ErrorCode> {
        if !self.in_bounds(c) || !self.level_open(c.2) {
            Err(ErrorCode::ErrorOutOfBounds)
        } else if !self.infrastructure@.contains_key(c) {
            Err(ErrorCode::ErrorCollision)
        } else {
            Ok(())
        }
    }

    /// Whether a cell of a building's footprint may be built on.
    pub open spec fn building_site_check(self, c: Cell) -> Result<(), ErrorCode> {
        if self.terrain_check(c) is Err {
            self.terrain_check(c)
        } else if self.terrain@.contains_key(c) && is_water(self.terrain@[c]@) {
            Err(ErrorCode::ErrorCollision)
        } else {
            Ok(())
        }
    }

    /// Whether the building at a cell may be removed.
    pub open spec fn building_removal_check(self, c: Cell) -> Result<(), ErrorCode> {
        if !self.in_bounds(c) {
            Err(ErrorCode::ErrorOutOfBounds)
        } else if !self.building@.contains_key(c) {
            Err(ErrorCode::ErrorCollision)
        } else {
            Ok(())
        }
    }

    fn check_open_cell(&self, x: i32, y: i32, z: i32) -> (r: Result<(), ErrorCode>)
        ensures
            r == self.open_cell_check((x, y, z)),
    {
        if !self.is_within_bounds(x, y, z) || !self.is_level_available(z) {
            return Err(ErrorCode::ErrorOutOfBounds);
        }
        if !self.is_unlocked(x, y) {
            return Err(ErrorCode::ErrorOutOfBounds);
        }
        Ok(())
    }

    pub fn can_apply_terrain(&self, x: i32, y: i32, z: i32) -> (r: Result<(), ErrorCode>)
        ensures
            r == self.terrain_check((x, y, z)),
    {
        let open = self.check_open_cell(x, y, z);
        if open.is_err() {
            return open;
        }
        if self.get_building(x, y, z).is_some() {
            return Err(ErrorCode::ErrorCollision);
        }
        Ok(())
    }

    fn is_water_at(&self, x: i32, y: i32, z: i32) -> (r: bool)
        ensures
            r == (self.terrain@.contains_key((x, y, z)) && is_water(self.terrain@[(x, y, z)]@)),
    {
        match self.get_terrain(x, y, z) {
            Some(material) => str_eq(material.as_str(), "water"),
            None => false,
        }
    }

    fn check_crossing(&self, catalog: &BuildingCatalog, x: i32, y: i32, z: i32) -> (r: Result<
        (),
        ErrorCode,
    >)
        ensures
            r == self.crossing_check(*catalog, (x, y, z)),
    {
        if z == 1 || z == -1 {
            if let Some(building) = self.get_building(x, y, 0) {
                let allowed = match catalog.get(building.template_id.as_str()) {
                    Some(t) => if z == 1 {
                        t.crossing_flags.bridge_above_allowed
                    } else {
                        t.crossing_flags.tunnel_below_allowed
                    },
                    None => false,
                };
                if !allowed {
                    return Err(ErrorCode::ErrorCrossingNotAllowed);
                }
            }
        }
        Ok(())
    }

    fn check_infrastructure_site(&self, catalog: &BuildingCatalog, x: i32, y: i32, z: i32) -> (r:
        Result<(), ErrorCode>)
        ensures
            r == self.infrastructure_site_check(*catalog, (x, y, z)),
    {
        let terrain = self.can_apply_terrain(x, y, z);
        if terrain.is_err() {
            return terrain;
        }
        if z == 0 && self.is_water_at(x, y, z) {
            return Err(ErrorCode::ErrorCrossingNotAllowed);
        }
        self.check_crossing(catalog, x, y, z)
    }

    pub fn can_place_infrastructure(
        &self,
        catalog: &BuildingCatalog,
        kind: InfrastructureShape,
        to_z: i32,
        coordinates: &[Cell],
    ) -> (r: Result<(), ErrorCode>)
        requires
            self.level_steps_fit(*catalog, kind, to_z, coordinates@),
        ensures
            r == check_all(
                coordinates@,
                |c: Cell| self.infrastructure_check(*catalog, kind, to_z, c),
                0,
            ),
    {
        let ghost check = |c: Cell| self.infrastructure_check(*catalog, kind, to_z, c);
        let vertical = match kind {
            InfrastructureShape::Ramp { .. } | InfrastructureShape::Stairs { .. } => true,
            _ => false,
        };
        let n = coordinates.len();
        let mut i: usize = 0;
        while i < n
            invariant
                n == coordinates@.len(),
                i <= n,
                vertical == (kind is Ramp || kind is Stairs),
                self.level_steps_fit(*catalog, kind, to_z, coordinates@),
                forall|k: int| 0 <= k < i ==> check(#[trigger] coordinates@[k]) is Ok,
                check_all(coordinates@, check, 0) == check_all(coordinates@, check, i as int),
                check == (|c: Cell| self.infrastructure_check(*catalog, kind, to_z, c)),
            decreases n - i,
        {
            let (x, y, z) = coordinates[i];
            let site = self.check_infrastructure_site(catalog, x, y, z);
            if site.is_err() {
                return site;
            }
            if vertical {
                if !self.is_level_available(to_z) {
                    return Err(ErrorCode::ErrorOutOfBounds);
                }
                proof {
                    assert(fits_i32(to_z - coordinates@[i as int].2));
                }
                let step = to_z - z;
                if step != 1 && step != -1 {
                    return Err(ErrorCode::ErrorCrossingNotAllowed);
                }
            }
            i += 1;
        }
        Ok(())
    }

    pub fn can_remove_infrastructure(&self, coordinates: &[Cell]) -> (r: Result<(), ErrorCode>)
        ensures
            r == check_all(coordinates@, |c: Cell| self.removal_check(c), 0),
    {
        let ghost check = |c: Cell| self.removal_check(c);
        let n = coordinates.len();
        let mut i: usize = 0;
        while i < n
            invariant
                n == coordinates@.len(),
                i <= n,
                check_all(coordinates@, check, 0) == check_all(coordinates@, check, i as int),
                check == (|c: Cell| self.removal_check(c)),
            decreases n - i,
        {
            let (x, y, z) = coordinates[i];
            if !self.is_within_bounds(x, y, z) || !self.is_level_available(z) {
                return Err(ErrorCode::ErrorOutOfBounds);
            }
            if self.get_infrastructure(x, y, z).is_none() {
                return Err(ErrorCode::ErrorCollision);
            }
            i += 1;
        }
        Ok(())
    }

    pub fn can_place_building(&self, origin: Cell, footprint: &[(i32, i32)], rotation: Rotation) -> (r:
        Result<(), ErrorCode>)
        requires
            placement_fits(origin, footprint@, rotation),
        ensures
            r == check_all(
                placed_cells(origin, footprint@, rotation),
                |c: Cell| self.building_site_check(c),
                0,
            ),
    {
        let ghost check = |c: Cell| self.building_site_check(c);
        let ghost placed = placed_cells(origin, footprint@, rotation);
        let (ox, oy, oz) = origin;
        let rotated = rotate_footprint(footprint, rotation);
        let n = rotated.len();
        let mut i: usize = 0;
        while i < n
            invariant
                n == rotated@.len(),
                n == footprint@.len(),
                i <= n,
                origin == (ox, oy, oz),
                placement_fits(origin, footprint@, rotation),
                rotated@ == footprint@.map_values(|o: (i32, i32)| crate::map::spec_rotate(o, rotation)),
                placed == placed_cells(origin, footprint@, rotation),
                check_all(placed, check, 0) == check_all(placed, check, i as int),
                check == (|c: Cell| self.building_site_check(c)),
            decreases n - i,
        {
            let (dx, dy) = rotated[i];
            proof {
                let o = footprint@[i as int];
                assert(rotated@[i as int] == crate::map::spec_rotate(o, rotation));
                assert(placed[i as int] == crate::map::placed_cell(origin, o, rotation));
            }
            let (x, y, z) = (ox + dx, oy + dy, oz);
            assert((x, y, z) == placed[i as int]);
            let terrain = self.can_apply_terrain(x, y, z);
            if terrain.is_err() {
                return terrain;
            }
            if self.is_water_at(x, y, z) {
                return Err(ErrorCode::ErrorCollision);
            }
            i += 1;
        }
        Ok(())
    }

    pub fn can_remove_building(&self, x: i32, y: i32, z: i32) -> (r: Result<(), ErrorCode>)
        ensures
            r == self.building_removal_check((x, y, z)),
    {
        if !self.is_within_bounds(x, y, z) {
            return Err(ErrorCode::ErrorOutOfBounds);
        }
        if self.get_building(x, y, z).is_none() {
            return Err(ErrorCode::ErrorCollision);
        }
        Ok(())
    }
}

/// Whether infrastructure of shape `kind`, leading to `to_z`, may be laid on
/// the cell `c`, spelled out rule by rule.
pub open spec fn infrastructure_allowed(
    map: ParkMap,
    catalog: BuildingCatalog,
    kind: InfrastructureShape,
    to_z: i32,
    c: Cell,
) -> bool {
    &&& map.in_bounds(c)
    &&& map.level_open(c.2)
    &&& map.spec_is_unlocked((c.0, c.1))
    &&& !map.building@.contains_key(c)
    &&& !(c.2 == 0 && map.terrain@.contains_key(c) && is_water(map.terrain@[c]@))
    &&& ((c.2 == 1 || c.2 == -1) && map.building@.contains_key((c.0, c.1, 0))) ==> (catalog.spec_get(
        map.building@[(c.0, c.1, 0)].template_id@,
    ) matches Some(t) && (c.2 == 1 ==> t.crossing_flags.bridge_above_allowed) && (c.2 == -1
        ==> t.crossing_flags.tunnel_below_allowed))
    &&& (kind is Ramp || kind is Stairs) ==> map.level_open(to_z) && (to_z - c.2 == 1 || to_z
        - c.2 == -1)
}

/// Infrastructure may be laid on a list of cells exactly when every cell
/// lies inside the map on an open level and an unlocked parcel, holds no
/// building, is not water at ground level, lies above or below a building
/// only where its template lets paths cross it, and, for ramps and stairs,
/// leads to an open level one step away.
pub proof fn lemma_infrastructure_rule(
    map: ParkMap,
    catalog: BuildingCatalog,
    kind: InfrastructureShape,
    to_z: i32,
    cells: Seq<Cell>,
)
    ensures
        check_all(cells, |c: Cell| map.infrastructure_check(catalog, kind, to_z, c), 0) is Ok
            <==> forall|i: int|
            0 <= i < cells.len() ==> infrastructure_allowed(map, catalog, kind, to_z, #[trigger] cells[i]),
{
    let check = |c: Cell| map.infrastructure_check(catalog, kind, to_z, c);
    lemma_check_all_ok(cells, check, 0);
    assert forall|i: int| 0 <= i < cells.len() implies (check(cells[i]) is Ok <==> infrastructure_allowed(
        map,
        catalog,
        kind,
        to_z,
        #[trigger] cells[i],
    )) by {}
}

/// Whether a building may stand on the cell `c`, spelled out rule by rule.
pub open spec fn building_allowed(map: ParkMap, c: Cell) -> bool {
    &&& map.in_bounds(c)
    &&& map.level_open(c.2)
    &&& map.spec_is_unlocked((c.0, c.1))
    &&& !map.building@.contains_key(c)
    &&& !(map.terrain@.contains_key(c) && is_water(map.terrain@[c]@))
}

/// A building may be placed on a list of cells exactly when every cell lies
/// inside the map on an open level and an unlocked parcel, holds no
/// building and is not water.
pub proof fn lemma_building_rule(map: ParkMap, cells: Seq<Cell>)
    ensures
        check_all(cells, |c: Cell| map.building_site_check(c), 0) is Ok <==> forall|i: int|
            0 <= i < cells.len() ==> building_allowed(map, #[trigger] cells[i]),
{
    let check = |c: Cell| map.building_site_check(c);
    lemma_check_all_ok(cells, check, 0);
    assert forall|i: int| 0 <= i < cells.len() implies (check(cells[i]) is Ok <==> building_allowed(
        map,
        #[trigger] cells[i],
    )) by {}
}

} // verus!
