//! Crowd density: which visitors stand on each cell, and which columns of
//! the map changed during a tick.
use vstd::prelude::*;

use crate::cells::{Cell, CellMap, Column, ColumnSet};
use crate::queue::VisitorId;

verus! {

/// The visitors standing on each cell; a cell with nobody on it has no entry.
pub type DensityMap = CellMap<Vec<VisitorId>>;

/// The buckets of a density map, each as the sequence of its visitors.
pub open spec fn buckets(m: Map<Cell, Vec<VisitorId>>) -> Map<Cell, Seq<VisitorId>> {
    m.map_values(|v: Vec<VisitorId>| v@)
}

/// A bucket with every entry of the visitor `id` left out.
pub open spec fn without_id(b: Seq<VisitorId>, id: Seq<char>) -> Seq<VisitorId>
    decreases b.len(),
{
    if b.len() == 0 {
        b
    } else {
        let sub = without_id(b.drop_last(), id);
        if b.last()@ != id {
            sub.push(b.last())
        } else {
            sub
        }
    }
}

/// The buckets once the visitor `id` has left `cell`: its entries are left
/// out of the bucket, and a bucket left empty is dropped.
pub open spec fn after_leaving(m: Map<Cell, Seq<VisitorId>>, cell: Cell, id: Seq<char>) -> Map<
    Cell,
    Seq<VisitorId>,
> {
    if m.contains_key(cell) {
        let b = without_id(m[cell], id);
        if b.len() == 0 {
            m.remove(cell)
        } else {
            m.insert(cell, b)
        }
    } else {
        m
    }
}

/// The buckets once the visitor `id` has arrived on `cell`, at the end of
/// its bucket.
pub open spec fn after_arriving(m: Map<Cell, Seq<VisitorId>>, cell: Cell, id: VisitorId) -> Map<
    Cell,
    Seq<VisitorId>,
> {
    if m.contains_key(cell) {
        m.insert(cell, m[cell].push(id))
    } else {
        m.insert(cell, seq![id])
    }
}

pub proof fn lemma_without_id(b: Seq<VisitorId>, id: Seq<char>)
    ensures
        forall|i: int| 0 <= i < without_id(b, id).len() ==> (#[trigger] without_id(b, id)[i])@ != id,
        forall|s: VisitorId| s@ != id ==> (#[trigger] without_id(b, id).contains(s) <==> b.contains(s)),
    decreases b.len(),
{
    if b.len() > 0 {
        lemma_without_id(b.drop_last(), id);
        let sub = without_id(b.drop_last(), id);
        assert(b =~= b.drop_last().push(b.last()));
        assert forall|s: VisitorId| s@ != id implies (#[trigger] without_id(b, id).contains(s)
            <==> b.contains(s)) by {
            crate::seqs::lemma_push_contains(b.drop_last(), b.last(), s);
            crate::seqs::lemma_push_contains(sub, b.last(), s);
        }
    }
}

/// The number of visitors on a cell.
pub fn local_density_at(density: &DensityMap, cell: Cell) -> (r: usize)
    ensures
        r == (if density@.contains_key(cell) {
            density@[cell]@.len()
        } else {
            0
        }),
{
    match density.get(cell) {
        Some(bucket) => bucket.len(),
        None => 0,
    }
}

fn bucket_without(bucket: &Vec<VisitorId>, id: &VisitorId) -> (r: Vec<VisitorId>)
    ensures
        r@ == without_id(bucket@, id@),
{
    let mut r: Vec<VisitorId> = Vec::new();
    let n = bucket.len();
    let mut i: usize = 0;
    while i < n
        invariant
            n == bucket@.len(),
            i <= n,
            r@ == without_id(bucket@.take(i as int), id@),
        decreases n - i,
    {
        let ghost t = bucket@.take(i + 1);
        assert(t.drop_last() =~= bucket@.take(i as int));
        assert(t.last() == bucket@[i as int]);
        if bucket[i] != *id {
            r.push(bucket[i].clone());
        }
        i += 1;
    }
    assert(bucket@.take(n as int) =~= bucket@);
    r
}

/// Takes the visitor `id` out of the bucket of `cell`, dropping the bucket
/// if it is left empty.
pub fn remove_visitor(density: &mut DensityMap, cell: Cell, id: &VisitorId)
    ensures
        buckets(final(density)@) == after_leaving(buckets(old(density)@), cell, id@),
{
    let remaining = match density.get(cell) {
        Some(bucket) => Some(bucket_without(bucket, id)),
        None => None,
    };
    match remaining {
        Some(b) => {
            if b.len() == 0 {
                density.remove(cell);
            } else {
                density.insert(cell, b);
            }
            assert(buckets(density@) =~= after_leaving(buckets(old(density)@), cell, id@));
        },
        None => {
            assert(buckets(density@) =~= after_leaving(buckets(old(density)@), cell, id@));
        },
    }
}

/// Adds the visitor `id` at the end of the bucket of `cell`.
pub fn add_visitor(density: &mut DensityMap, cell: Cell, id: VisitorId)
    ensures
        buckets(final(density)@) == after_arriving(buckets(old(density)@), cell, id),
{
    let mut bucket = match density.remove(cell) {
        Some(b) => b,
        None => Vec::new(),
    };
    bucket.push(id);
    density.insert(cell, bucket);
    assert(buckets(density@) =~= after_arriving(buckets(old(density)@), cell, id));
}

/// Moves a visitor's entry from the bucket of `old_cell` to that of
/// `new_cell` and marks the column of `new_cell` as changed; nothing happens
/// when the visitor stayed on its cell.
pub fn update_density_and_dirty_chunks(
    density: &mut DensityMap,
    dirty_chunks: &mut ColumnSet,
    visitor_id: &VisitorId,
    old_cell: Cell,
    new_cell: Cell,
)
    ensures
        old_cell == new_cell ==> buckets(final(density)@) == buckets(old(density)@) && final(dirty_chunks)@
            == old(dirty_chunks)@,
        old_cell != new_cell ==> buckets(final(density)@) == after_arriving(
            after_leaving(buckets(old(density)@), old_cell, visitor_id@),
            new_cell,
            *visitor_id,
        ) && final(dirty_chunks)@ == old(dirty_chunks)@.insert((new_cell.0, new_cell.1)),
{
    if new_cell.0 == old_cell.0 && new_cell.1 == old_cell.1 && new_cell.2 == old_cell.2 {
        return;
    }
    remove_visitor(density, old_cell, visitor_id);
    add_visitor(density, new_cell, visitor_id.clone());
    dirty_chunks.insert((new_cell.0, new_cell.1));
}

/// After a visitor moves to another cell, it stands in the bucket of its new
/// cell and in no bucket of its old one, and every other bucket is as it
/// was.
pub proof fn lemma_move_relocates(m: Map<Cell, Seq<VisitorId>>, id: VisitorId, old_cell: Cell, new_cell: Cell)
    requires
        old_cell != new_cell,
    ensures
        ({
            let after = after_arriving(after_leaving(m, old_cell, id@), new_cell, id);
            &&& after.contains_key(new_cell)
            &&& after[new_cell].last() == id
            &&& after.contains_key(old_cell) ==> forall|i: int|
                0 <= i < after[old_cell].len() ==> (#[trigger] after[old_cell][i])@ != id@
            &&& forall|c: Cell| c != old_cell && c != new_cell ==> (#[trigger] after.contains_key(c)
                == m.contains_key(c)) && (m.contains_key(c) ==> after[c] == m[c])
        }),
{
    if m.contains_key(old_cell) {
        lemma_without_id(m[old_cell], id@);
    }
}

} // verus!
