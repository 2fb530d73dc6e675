//! A copy of the map that can be sent to clients: its bounds, its entrance,
//! and each of its layers listed cell by cell.
use vstd::prelude::*;

use crate::cells::{Cell, CellMap};
use crate::map::{BuildingId, InfrastructureShape, ParkMap};
use crate::text::copy_string;

verus! {

/// Whether `entries` lists the layer: every cell of the layer once, with the
/// value it holds, in any order.
pub open spec fn lists_layer<V>(entries: Seq<(Cell, V)>, layer: Map<Cell, V>) -> bool {
    &&& forall|i: int, j: int|
        0 <= i < entries.len() && 0 <= j < entries.len() && i != j ==> #[trigger] entries[i].0
            != #[trigger] entries[j].0
    &&& forall|i: int|
        0 <= i < entries.len() ==> layer.contains_key(#[trigger] entries[i].0) && layer[entries[i].0]
            == entries[i].1
    &&& forall|c: Cell|
        layer.contains_key(c) ==> exists|i: int| 0 <= i < entries.len() && #[trigger] entries[i].0 == c
}

/// A copy of the map, layer by layer.
#[derive(Debug)]
pub struct MapSnapshot {
    pub min_x: i32,
    pub max_x: i32,
    pub min_y: i32,
    pub max_y: i32,
    pub terrain: Vec<(Cell, String)>,
    pub infrastructure: Vec<(Cell, InfrastructureShape)>,
    pub building: Vec<(Cell, BuildingId)>,
    pub entrance: Option<Cell>,
}

proof fn lemma_listed<V>(cells: Seq<Cell>, entries: Seq<(Cell, V)>, layer: Map<Cell, V>)
    requires
        cells.no_duplicates(),
        forall|c: Cell| #[trigger] cells.contains(c) <==> layer.contains_key(c),
        entries.len() == cells.len(),
        forall|k: int|
            0 <= k < entries.len() ==> #[trigger] entries[k].0 == cells[k] && layer[cells[k]]
                == entries[k].1,
    ensures
        lists_layer(entries, layer),
{
    assert forall|i: int| 0 <= i < entries.len() implies layer.contains_key(#[trigger] entries[i].0)
        && layer[entries[i].0] == entries[i].1 by {
        assert(cells.contains(cells[i]));
    }
    assert forall|c: Cell| layer.contains_key(c) implies exists|i: int|
        0 <= i < entries.len() && #[trigger] entries[i].0 == c by {
        assert(cells.contains(c));
        let i = choose|i: int| 0 <= i < cells.len() && cells[i] == c;
        assert(entries[i].0 == c);
    }
}

/// The terrain layer, cell by cell.
fn terrain_entries(layer: &CellMap<String>) -> (r: Vec<(Cell, String)>)
    ensures
        lists_layer(r@, layer@),
{
    let cells = layer.cells();
    let mut out: Vec<(Cell, String)> = Vec::new();
    let n = cells.len();
    let mut i: usize = 0;
    while i < n
        invariant
            n == cells@.len(),
            i <= n,
            forall|c: Cell| #[trigger] cells@.contains(c) <==> layer@.contains_key(c),
            out@.len() == i,
            forall|k: int|
                0 <= k < i ==> #[trigger] out@[k].0 == cells@[k] && layer@[cells@[k]] == out@[k].1,
        decreases n - i,
    {
        let c = cells[i];
        assert(cells@.contains(c));
        if let Some(v) = layer.get(c) {
            out.push((c, copy_string(v)));
        }
        i += 1;
    }
    proof {
        lemma_listed(cells@, out@, layer@);
    }
    out
}

/// The infrastructure layer, cell by cell.
fn infrastructure_entries(layer: &CellMap<InfrastructureShape>) -> (r: Vec<
    (Cell, InfrastructureShape),
>)
    ensures
        lists_layer(r@, layer@),
{
    let cells = layer.cells();
    let mut out: Vec<(Cell, InfrastructureShape)> = Vec::new();
    let n = cells.len();
    let mut i: usize = 0;
    while i < n
        invariant
            n == cells@.len(),
            i <= n,
            forall|c: Cell| #[trigger] cells@.contains(c) <==> layer@.contains_key(c),
            out@.len() == i,
            forall|k: int|
                0 <= k < i ==> #[trigger] out@[k].0 == cells@[k] && layer@[cells@[k]] == out@[k].1,
        decreases n - i,
    {
        let c = cells[i];
        assert(cells@.contains(c));
        if let Some(v) = layer.get(c) {
            out.push((c, v.duplicate()));
        }
        i += 1;
    }
    proof {
        lemma_listed(cells@, out@, layer@);
    }
    out
}

/// The building layer, cell by cell.
fn building_entries(layer: &CellMap<BuildingId>) -> (r: Vec<(Cell, BuildingId)>)
    ensures
        lists_layer(r@, layer@),
{
    let cells = layer.cells();
    let mut out: Vec<(Cell, BuildingId)> = Vec::new();
    let n = cells.len();
    let mut i: usize = 0;
    while i < n
        invariant
            n == cells@.len(),
            i <= n,
            forall|c: Cell| #[trigger] cells@.contains(c) <==> layer@.contains_key(c),
            out@.len() == i,
            forall|k: int|
                0 <= k < i ==> #[trigger] out@[k].0 == cells@[k] && layer@[cells@[k]] == out@[k].1,
        decreases n - i,
    {
        let c = cells[i];
        assert(cells@.contains(c));
        if let Some(v) = layer.get(c) {
            out.push((c, v.duplicate()));
        }
        i += 1;
    }
    proof {
        lemma_listed(cells@, out@, layer@);
    }
    out
}

impl ParkMap {
    /// A copy of the map: its horizontal bounds, its entrance, and its three
    /// layers listed cell by cell in an unspecified order.
    pub fn snapshot(&self) -> (r: MapSnapshot)
        ensures
            r.min_x == self.bounds.min_x,
            r.max_x == self.bounds.max_x,
            r.min_y == self.bounds.min_y,
            r.max_y == self.bounds.max_y,
            r.entrance == self.entrance,
            lists_layer(r.terrain@, self.terrain@),
            lists_layer(r.infrastructure@, self.infrastructure@),
            lists_layer(r.building@, self.building@),
    {
        MapSnapshot {
            min_x: self.bounds.min_x,
            max_x: self.bounds.max_x,
            min_y: self.bounds.min_y,
            max_y: self.bounds.max_y,
            terrain: terrain_entries(&self.terrain),
            infrastructure: infrastructure_entries(&self.infrastructure),
            building: building_entries(&self.building),
            entrance: self.entrance,
        }
    }
}

} // verus!
