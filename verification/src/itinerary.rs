//! Where a visitor is heading: the cells it still has to walk through, the
//! cell it is going to, how long it has been in the park, and whether it is
//! on its way out. The decisions that change an itinerary on its own are
//! made here.
use vstd::prelude::*;

use crate::cells::Cell;
use crate::density::{add_visitor, after_arriving, buckets, DensityMap};
use crate::map::ParkMap;
use crate::queue::VisitorId;
use crate::text::{copy_string, fresh_uuid};

verus! {

/// How many ticks a visit lasts before the visitor heads for the exit.
pub const VISIT_DURATION_TICKS: u64 = 1000;

/// The part of a visitor that walking decisions read and change.
#[derive(Debug)]
pub struct Itinerary {
    pub path: Vec<Cell>,
    pub target: Cell,
    pub ticks_since_spawn: u64,
    pub is_leaving: bool,
}

impl Itinerary {
    /// Whether the visit has lasted its full length.
    pub fn has_expired(&self) -> (r: bool)
        ensures
            r == (self.ticks_since_spawn >= VISIT_DURATION_TICKS),
    {
        self.ticks_since_spawn >= VISIT_DURATION_TICKS
    }
}

/// Whether `after` is `before` sent toward `exit` from `from`: leaving, with
/// the exit as target and the route to it as path.
pub open spec fn sent_to_exit(park_map: ParkMap, before: Itinerary, after: Itinerary, from: Cell, exit: Cell) -> bool {
    &&& after.is_leaving
    &&& after.target == exit
    &&& after.path@ == park_map.spec_path_excluding_start(from, exit)
    &&& after.ticks_since_spawn == before.ticks_since_spawn
}

/// Sends the visitor toward the exit when `should_leave` holds and it is not
/// already leaving; nothing happens when the park has no exit.
fn redirect_toward_exit(
    v: &mut Itinerary,
    park_map: &ParkMap,
    old_cell: Cell,
    exit: Option<Cell>,
    should_leave: bool,
)
    requires
        exit matches Some(e) ==> park_map.search_fits(old_cell, e),
    ensures
        match exit {
            Some(e) if should_leave && !old(v).is_leaving => sent_to_exit(
                *park_map,
                *old(v),
                *final(v),
                old_cell,
                e,
            ),
            _ => *final(v) == *old(v),
        },
{
    let e = match exit {
        Some(e) => e,
        None => return,
    };
    if should_leave && !v.is_leaving {
        v.is_leaving = true;
        v.target = e;
        v.path = park_map.path_excluding_start(old_cell, e);
    }
}

/// Sends a visitor whose visit has lasted its full length toward the exit,
/// unless it is already leaving or the park has no exit.
pub fn redirect_if_expired(v: &mut Itinerary, park_map: &ParkMap, old_cell: Cell, exit: Option<Cell>)
    requires
        exit matches Some(e) ==> park_map.search_fits(old_cell, e),
    ensures
        match exit {
            Some(e) if old(v).ticks_since_spawn >= VISIT_DURATION_TICKS && !old(v).is_leaving =>
                sent_to_exit(*park_map, *old(v), *final(v), old_cell, e),
            _ => *final(v) == *old(v),
        },
{
    let expired = v.has_expired();
    redirect_toward_exit(v, park_map, old_cell, exit, expired);
}

/// Sends a visitor whose satisfaction has collapsed (`dissatisfied`) toward
/// the exit, unless it is already leaving or the park has no exit.
pub fn redirect_if_leaving_early(
    v: &mut Itinerary,
    park_map: &ParkMap,
    old_cell: Cell,
    exit: Option<Cell>,
    dissatisfied: bool,
)
    requires
        exit matches Some(e) ==> park_map.search_fits(old_cell, e),
    ensures
        match exit {
            Some(e) if dissatisfied && !old(v).is_leaving => sent_to_exit(
                *park_map,
                *old(v),
                *final(v),
                old_cell,
                e,
            ),
            _ => *final(v) == *old(v),
        },
{
    redirect_toward_exit(v, park_map, old_cell, exit, dissatisfied);
}

/// Finds a new route to the target when the next cell of the path can no
/// longer be walked on.
pub fn recompute_path_if_blocked(v: &mut Itinerary, park_map: &ParkMap, old_cell: Cell)
    requires
        park_map.search_fits(old_cell, old(v).target),
    ensures
        old(v).path@.len() > 0 && !park_map.walkable(old(v).path@[0]) ==> final(v).path@
            == park_map.spec_path_excluding_start(old_cell, old(v).target),
        !(old(v).path@.len() > 0 && !park_map.walkable(old(v).path@[0])) ==> final(v).path@ == old(
            v,
        ).path@,
        final(v).target == old(v).target,
        final(v).ticks_since_spawn == old(v).ticks_since_spawn,
        final(v).is_leaving == old(v).is_leaving,
{
    if v.path.len() > 0 {
        let next = v.path[0];
        if !park_map.is_walkable(next.0, next.1, next.2) {
            v.path = park_map.path_excluding_start(old_cell, v.target);
        }
    }
}

/// Whether a visitor has reached the exit: it is leaving and has no cell
/// left to walk through.
pub fn reached_exit(v: &Itinerary) -> (r: bool)
    ensures
        r == (v.is_leaving && v.path@.len() == 0),
{
    v.is_leaving && v.path.len() == 0
}

/// Lets a new visitor in at the entrance, when the park has one: its
/// target is a cell with infrastructure other than the entrance, drawn at
/// random (the entrance itself when there is no other), its path is the
/// route there, its id is fresh, and it is counted in the entrance's
/// density bucket. The visitor's position and needs are left to the caller.
pub fn spawn_visitor(park_map: &ParkMap, density: &mut DensityMap, entrance: Option<Cell>) -> (r:
    Option<(VisitorId, Itinerary)>)
    requires
        entrance matches Some(e) ==> forall|t: Cell|
            (park_map.infrastructure@.contains_key(t) || t == e) ==> park_map.search_fits(e, t),
    ensures
        entrance is None <==> r is None,
        entrance is None ==> *final(density) == *old(density),
        entrance matches Some(e) ==> r matches Some((id, v)) && {
            &&& (exists|d: Cell| park_map.infrastructure@.contains_key(d) && d != e) <==> v.target != e
            &&& v.target != e ==> park_map.infrastructure@.contains_key(v.target)
            &&& v.path@ == park_map.spec_path_excluding_start(e, v.target)
            &&& v.ticks_since_spawn == 0
            &&& !v.is_leaving
            &&& buckets(final(density)@) == after_arriving(buckets(old(density)@), e, id)
        },
{
    let e = match entrance {
        Some(e) => e,
        None => return None,
    };
    let target = match park_map.random_walkable_cell(e) {
        Some(t) => t,
        None => e,
    };
    let path = park_map.path_excluding_start(e, target);
    let id = fresh_uuid();
    add_visitor(density, e, copy_string(&id));
    Some((id, Itinerary { path, target, ticks_since_spawn: 0, is_leaving: false }))
}

} // verus!
