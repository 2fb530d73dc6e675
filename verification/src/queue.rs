//! Attraction queues: the chain of queue cells that leads to an attraction,
//! and who waits in it.
use std::collections::VecDeque;
use vstd::prelude::*;

use crate::cells::Cell;
use crate::map::{neighbours_fit, BuildingId, InfrastructureShape, ParkMap};
use crate::text::str_eq;

verus! {

/// The id of a visitor.
pub type VisitorId = String;

/// The state of one attraction's queue: its chain of cells, ordered from the
/// head (next to the attraction) to the tail (the entrance), and who waits in
/// it, first come first served.
#[derive(Debug, Clone, Default)]
pub struct QueueState {
    pub chain: Vec<Cell>,
    pub occupants: VecDeque<VisitorId>,
}

/// The `k`-th horizontal neighbour of a cell: east, west, north, south.
pub open spec fn neighbour(c: Cell, k: int) -> Cell {
    if k == 0 {
        ((c.0 + 1) as i32, c.1, c.2)
    } else if k == 1 {
        ((c.0 - 1) as i32, c.1, c.2)
    } else if k == 2 {
        (c.0, (c.1 + 1) as i32, c.2)
    } else {
        (c.0, (c.1 - 1) as i32, c.2)
    }
}

/// Whether a cell holds a queue of the attraction `id`.
pub open spec fn is_queue_cell(m: Map<Cell, InfrastructureShape>, c: Cell, id: Seq<char>) -> bool {
    &&& m.contains_key(c)
    &&& m[c] matches InfrastructureShape::Queue { attraction_id } && attraction_id.building_id@ == id
}

/// Whether a cell lies next to a cell of the building `id`.
pub open spec fn touches_building(b: Map<Cell, BuildingId>, c: Cell, id: Seq<char>) -> bool {
    exists|k: int|
        0 <= k < 4 && b.contains_key(#[trigger] neighbour(c, k)) && b[neighbour(c, k)].building_id@ == id
}

/// Whether a cell can be the head of the queue of the attraction `id`.
pub open spec fn is_head(m: ParkMap, c: Cell, id: Seq<char>) -> bool {
    is_queue_cell(m.infrastructure@, c, id) && touches_building(m.building@, c, id)
}

/// The first neighbour of `cur`, in the order east, west, north, south from
/// the `k`-th on, that holds a queue of `id` and is not in `visited`.
pub open spec fn next_queue_cell_from(
    m: Map<Cell, InfrastructureShape>,
    id: Seq<char>,
    cur: Cell,
    visited: Seq<Cell>,
    k: int,
) -> Option<Cell>
    decreases 4 - k,
{
    if k < 0 || k >= 4 {
        None
    } else if !visited.contains(neighbour(cur, k)) && is_queue_cell(m, neighbour(cur, k), id) {
        Some(neighbour(cur, k))
    } else {
        next_queue_cell_from(m, id, cur, visited, k + 1)
    }
}

/// The cell that follows `cur` in the queue of `id`, given the cells already
/// in the chain.
pub open spec fn next_queue_cell(
    m: Map<Cell, InfrastructureShape>,
    id: Seq<char>,
    cur: Cell,
    visited: Seq<Cell>,
) -> Option<Cell> {
    next_queue_cell_from(m, id, cur, visited, 0)
}

/// Whether `chain` is a chain of queue cells of the attraction `id` as the
/// map lays them out: empty when no queue cell of `id` lies next to the
/// attraction; otherwise it starts at such a cell, each next cell is the first
/// neighbour of the one before, east, west, north then south, that holds a
/// queue of `id` and is not yet in the chain, and it ends where no such
/// neighbour is left.
pub open spec fn is_queue_chain(m: ParkMap, id: Seq<char>, chain: Seq<Cell>) -> bool {
    &&& chain.len() == 0 <==> !(exists|c: Cell| is_head(m, c, id))
    &&& chain.len() > 0 ==> is_head(m, chain[0], id)
    &&& chain.no_duplicates()
    &&& forall|i: int| 0 <= i < chain.len() ==> is_queue_cell(m.infrastructure@, #[trigger] chain[i], id)
    &&& forall|i: int|
        1 <= i < chain.len() ==> next_queue_cell(m.infrastructure@, id, chain[i - 1], chain.take(i))
            == Some(#[trigger] chain[i])
    &&& chain.len() > 0 ==> next_queue_cell(m.infrastructure@, id, chain.last(), chain) is None
}

/// Whether every queue cell of `id` has its neighbours in `i32`.
pub open spec fn queue_cells_fit(m: Map<Cell, InfrastructureShape>, id: Seq<char>) -> bool {
    forall|c: Cell| #[trigger] is_queue_cell(m, c, id) ==> neighbours_fit(c)
}

/// The four horizontal neighbours of a cell: east, west, north, south.
fn neighbors(cell: Cell) -> (r: [Cell; 4])
    requires
        neighbours_fit(cell),
    ensures
        forall|k: int| 0 <= k < 4 ==> #[trigger] r@[k] == neighbour(cell, k),
{
    let (x, y, z) = cell;
    [(x + 1, y, z), (x - 1, y, z), (x, y + 1, z), (x, y - 1, z)]
}

fn is_queue_cell_for(park_map: &ParkMap, cell: Cell, attraction_id: &str) -> (r: bool)
    ensures
        r == is_queue_cell(park_map.infrastructure@, cell, attraction_id@),
{
    match park_map.get_infrastructure(cell.0, cell.1, cell.2) {
        Some(InfrastructureShape::Queue { attraction_id: a }) => str_eq(
            a.building_id.as_str(),
            attraction_id,
        ),
        _ => false,
    }
}

fn touches_attraction(park_map: &ParkMap, cell: Cell, attraction_id: &str) -> (r: bool)
    requires
        neighbours_fit(cell),
    ensures
        r == touches_building(park_map.building@, cell, attraction_id@),
{
    let around = neighbors(cell);
    let mut k: usize = 0;
    while k < 4
        invariant
            k <= 4,
            forall|j: int| 0 <= j < 4 ==> #[trigger] around@[j] == neighbour(cell, j),
            forall|j: int|
                0 <= j < k ==> !(park_map.building@.contains_key(#[trigger] neighbour(cell, j))
                    && park_map.building@[neighbour(cell, j)].building_id@ == attraction_id@),
        decreases 4 - k,
    {
        let n = around[k];
        if let Some(b) = park_map.get_building(n.0, n.1, n.2) {
            if str_eq(b.building_id.as_str(), attraction_id) {
                assert(n == neighbour(cell, k as int));
                return true;
            }
        }
        k += 1;
    }
    false
}

fn cell_in(cells: &Vec<Cell>, c: Cell) -> (r: bool)
    ensures
        r == cells@.contains(c),
{
    let n = cells.len();
    let mut i: usize = 0;
    while i < n
        invariant
            n == cells@.len(),
            i <= n,
            forall|j: int| 0 <= j < i ==> cells@[j] != c,
        decreases n - i,
    {
        let d = cells[i];
        if d.0 == c.0 && d.1 == c.1 && d.2 == c.2 {
            assert(cells@[i as int] == c);
            return true;
        }
        i += 1;
    }
    false
}

fn next_in_chain(park_map: &ParkMap, attraction_id: &str, current: Cell, visited: &Vec<Cell>) -> (r:
    Option<Cell>)
    requires
        neighbours_fit(current),
    ensures
        r == next_queue_cell(park_map.infrastructure@, attraction_id@, current, visited@),
{
    let around = neighbors(current);
    let mut k: usize = 0;
    while k < 4
        invariant
            k <= 4,
            forall|j: int| 0 <= j < 4 ==> #[trigger] around@[j] == neighbour(current, j),
            next_queue_cell(park_map.infrastructure@, attraction_id@, current, visited@)
                == next_queue_cell_from(
                park_map.infrastructure@,
                attraction_id@,
                current,
                visited@,
                k as int,
            ),
        decreases 4 - k,
    {
        let n = around[k];
        if !cell_in(visited, n) && is_queue_cell_for(park_map, n, attraction_id) {
            return Some(n);
        }
        k += 1;
    }
    None
}

fn find_head(park_map: &ParkMap, cells: &Vec<Cell>, attraction_id: &str) -> (r: Option<Cell>)
    requires
        queue_cells_fit(park_map.infrastructure@, attraction_id@),
    ensures
        r matches Some(h) ==> is_head(*park_map, h, attraction_id@),
        r is None ==> forall|j: int| 0 <= j < cells@.len() ==> !is_head(*park_map, #[trigger] cells@[j], attraction_id@),
{
    let n = cells.len();
    let mut i: usize = 0;
    while i < n
        invariant
            n == cells@.len(),
            i <= n,
            queue_cells_fit(park_map.infrastructure@, attraction_id@),
            forall|j: int| 0 <= j < i ==> !is_head(*park_map, #[trigger] cells@[j], attraction_id@),
        decreases n - i,
    {
        let c = cells[i];
        if is_queue_cell_for(park_map, c, attraction_id) && touches_attraction(park_map, c, attraction_id) {
            return Some(c);
        }
        i += 1;
    }
    None
}

/// The chain of queue cells of the attraction `attraction_id`, from the head
/// (a queue cell next to the attraction) to the tail: each next cell is the
/// first neighbour, east, west, north then south, that holds a queue of the
/// attraction and is not yet in the chain. Empty when no queue cell of the
/// attraction lies next to it. Which head is taken, where several could be,
/// is not specified.
pub fn derive_queue_chain(park_map: &ParkMap, attraction_id: &str) -> (r: Vec<Cell>)
    requires
        queue_cells_fit(park_map.infrastructure@, attraction_id@),
    ensures
        is_queue_chain(*park_map, attraction_id@, r@),
{
    let cells = park_map.infrastructure.cells();
    let found = find_head(park_map, &cells, attraction_id);
    let head = match found {
        Some(h) => h,
        None => {
            proof {
                assert forall|c: Cell| !is_head(*park_map, c, attraction_id@) by {
                    if is_head(*park_map, c, attraction_id@) {
                        assert(cells@.contains(c));
                        let j = choose|j: int| 0 <= j < cells@.len() && cells@[j] == c;
                        assert(!is_head(*park_map, cells@[j], attraction_id@));
                    }
                }
            }
            return Vec::new();
        },
    };
    let mut chain: Vec<Cell> = Vec::new();
    chain.push(head);
    let mut current = head;
    proof {
        assert(chain@.no_duplicates());
    }
    loop
        invariant
            chain@.len() >= 1,
            chain@[0] == head,
            is_head(*park_map, head, attraction_id@),
            current == chain@.last(),
            chain@.no_duplicates(),
            forall|c: Cell| #[trigger] cells@.contains(c) <==> park_map.infrastructure@.contains_key(c),
            park_map.infrastructure@.dom().finite(),
            queue_cells_fit(park_map.infrastructure@, attraction_id@),
            forall|i: int| 0 <= i < chain@.len() ==> is_queue_cell(park_map.infrastructure@, #[trigger] chain@[i], attraction_id@),
            forall|i: int|
                1 <= i < chain@.len() ==> next_queue_cell(
                    park_map.infrastructure@,
                    attraction_id@,
                    chain@[i - 1],
                    chain@.take(i),
                ) == Some(#[trigger] chain@[i]),
        ensures
            chain@.len() >= 1,
            chain@[0] == head,
            chain@.no_duplicates(),
            forall|i: int| 0 <= i < chain@.len() ==> is_queue_cell(park_map.infrastructure@, #[trigger] chain@[i], attraction_id@),
            forall|i: int|
                1 <= i < chain@.len() ==> next_queue_cell(
                    park_map.infrastructure@,
                    attraction_id@,
                    chain@[i - 1],
                    chain@.take(i),
                ) == Some(#[trigger] chain@[i]),
            next_queue_cell(park_map.infrastructure@, attraction_id@, chain@.last(), chain@) is None,
        decreases park_map.infrastructure@.dom().len() - chain@.len(),
    {
        proof {
            assert(is_queue_cell(park_map.infrastructure@, chain@[chain@.len() - 1], attraction_id@));
            crate::seqs::lemma_no_dup_len_le(chain@, park_map.infrastructure@.dom());
        }
        match next_in_chain(park_map, attraction_id, current, &chain) {
            Some(next) => {
                let ghost before = chain@;
                proof {
                    lemma_next_queue_cell(park_map.infrastructure@, attraction_id@, current, chain@, 0);
                }
                chain.push(next);
                current = next;
                proof {
                    crate::seqs::lemma_push_no_duplicates(before, next);
                    assert forall|i: int|
                        1 <= i < chain@.len() implies next_queue_cell(
                            park_map.infrastructure@,
                            attraction_id@,
                            chain@[i - 1],
                            chain@.take(i),
                        ) == Some(#[trigger] chain@[i]) by {
                        if i < before.len() {
                            assert(chain@.take(i) == before.take(i));
                            assert(chain@[i - 1] == before[i - 1]);
                        } else {
                            assert(chain@.take(i) =~= before);
                        }
                    }
                    crate::seqs::lemma_no_dup_len_le(chain@, park_map.infrastructure@.dom());
                }
            },
            None => {
                break;
            },
        }
    }
    chain
}

/// What `next_queue_cell_from` finds is a queue cell of `id`, not in
/// `visited`.
pub proof fn lemma_next_queue_cell(
    m: Map<Cell, InfrastructureShape>,
    id: Seq<char>,
    cur: Cell,
    visited: Seq<Cell>,
    k: int,
)
    requires
        0 <= k,
    ensures
        next_queue_cell_from(m, id, cur, visited, k) matches Some(n) ==> !visited.contains(n)
            && is_queue_cell(m, n, id),
    decreases 4 - k,
{
    if k < 4 {
        lemma_next_queue_cell(m, id, cur, visited, k + 1);
    }
}

/// The index of the first entry of `entries`, from `i` on, kept under `id`.
pub open spec fn entry_index_from(entries: Seq<(String, QueueState)>, id: Seq<char>, i: int) -> Option<
    int,
>
    decreases entries.len() - i,
{
    if i < 0 || i >= entries.len() {
        None
    } else if entries[i].0@ == id {
        Some(i)
    } else {
        entry_index_from(entries, id, i + 1)
    }
}

pub proof fn lemma_entry_index_from(entries: Seq<(String, QueueState)>, id: Seq<char>, i: int)
    requires
        0 <= i,
    ensures
        match entry_index_from(entries, id, i) {
            Some(j) => i <= j < entries.len() && entries[j].0@ == id && forall|k: int|
                i <= k < j ==> entries[k].0@ != id,
            None => forall|k: int| i <= k < entries.len() ==> entries[k].0@ != id,
        },
    decreases entries.len() - i,
{
    if i < entries.len() && entries[i].0@ != id {
        lemma_entry_index_from(entries, id, i + 1);
    }
}

/// The queue kept under `id` in `entries`: the first one.
pub open spec fn lookup(entries: Seq<(String, QueueState)>, id: Seq<char>) -> Option<QueueState> {
    match entry_index_from(entries, id, 0) {
        Some(i) => Some(entries[i].1),
        None => None,
    }
}

/// Replacing an entry by one kept under the same id moves no first index.
proof fn lemma_entry_index_update(
    entries: Seq<(String, QueueState)>,
    j: int,
    e: (String, QueueState),
    id: Seq<char>,
    i: int,
)
    requires
        0 <= j < entries.len(),
        e.0@ == entries[j].0@,
        0 <= i,
    ensures
        entry_index_from(entries.update(j, e), id, i) == entry_index_from(entries, id, i),
    decreases entries.len() - i,
{
    if i < entries.len() {
        lemma_entry_index_update(entries, j, e, id, i + 1);
    }
}

/// Replacing the first entry kept under an id changes what is kept under
/// that id and nothing else.
proof fn lemma_lookup_update(entries: Seq<(String, QueueState)>, j: int, e: (String, QueueState))
    requires
        entry_index_from(entries, e.0@, 0) == Some(j),
    ensures
        lookup(entries.update(j, e), e.0@) == Some(e.1),
        forall|k: Seq<char>|
            k != e.0@ ==> #[trigger] lookup(entries.update(j, e), k) == lookup(entries, k),
{
    lemma_entry_index_from(entries, e.0@, 0);
    assert forall|k: Seq<char>| k != e.0@ implies #[trigger] lookup(entries.update(j, e), k)
        == lookup(entries, k) by {
        lemma_entry_index_update(entries, j, e, k, 0);
        lemma_entry_index_from(entries, k, 0);
    }
    lemma_entry_index_update(entries, j, e, e.0@, 0);
}

/// Appending an entry moves no first index that was found before it.
proof fn lemma_entry_index_push(
    entries: Seq<(String, QueueState)>,
    e: (String, QueueState),
    id: Seq<char>,
    i: int,
)
    requires
        0 <= i <= entries.len(),
    ensures
        entry_index_from(entries.push(e), id, i) == match entry_index_from(entries, id, i) {
            Some(j) => Some(j),
            None => if e.0@ == id {
                Some(entries.len() as int)
            } else {
                None
            },
        },
    decreases entries.len() - i,
{
    if i < entries.len() {
        assert(entries.push(e)[i] == entries[i]);
        lemma_entry_index_push(entries, e, id, i + 1);
    } else {
        assert(entries.push(e)[i] == e);
        assert(entry_index_from(entries.push(e), id, i + 1) is None);
    }
}

/// Appending an entry under an id that has none keeps it under that id and
/// changes nothing else.
proof fn lemma_lookup_push(entries: Seq<(String, QueueState)>, e: (String, QueueState))
    requires
        entry_index_from(entries, e.0@, 0) is None,
    ensures
        lookup(entries.push(e), e.0@) == Some(e.1),
        forall|k: Seq<char>| k != e.0@ ==> #[trigger] lookup(entries.push(e), k) == lookup(entries, k),
{
    lemma_entry_index_push(entries, e, e.0@, 0);
    assert(entries.push(e)[entries.len() as int] == e);
    assert forall|k: Seq<char>| k != e.0@ implies #[trigger] lookup(entries.push(e), k) == lookup(
        entries,
        k,
    ) by {
        lemma_entry_index_push(entries, e, k, 0);
        lemma_entry_index_from(entries, k, 0);
        if let Some(j) = entry_index_from(entries, k, 0) {
            assert(entries.push(e)[j] == entries[j]);
        }
    }
}

/// Whether a queue is there and its chain ends at `cell`.
pub open spec fn ends_at(queue: Option<QueueState>, cell: Cell) -> bool {
    queue matches Some(q) && q.chain@.len() > 0 && q.chain@.last() == cell
}

/// The queues of the park's attractions, each kept under its attraction's
/// building id.
#[derive(Debug, Default)]
pub struct QueueRegistry {
    entries: Vec<(String, QueueState)>,
}

impl View for QueueRegistry {
    type V = Seq<(String, QueueState)>;

    closed spec fn view(&self) -> Seq<(String, QueueState)> {
        self.entries@
    }
}

impl QueueRegistry {
    /// The queue kept under `id`, if any.
    pub open spec fn spec_get(self, id: Seq<char>) -> Option<QueueState> {
        lookup(self@, id)
    }

    /// A registry with no queue.
    pub fn new() -> (r: Self)
        ensures
            forall|id: Seq<char>| #[trigger] r.spec_get(id) is None,
    {
        QueueRegistry { entries: Vec::new() }
    }

    fn index_of(&self, id: &str) -> (r: Option<usize>)
        ensures
            r matches Some(i) ==> entry_index_from(self@, id@, 0) == Some(i as int),
            r is None ==> entry_index_from(self@, id@, 0) is None,
    {
        let n = self.entries.len();
        let mut i: usize = 0;
        proof {
            lemma_entry_index_from(self@, id@, 0);
        }
        while i < n
            invariant
                n == self@.len(),
                i <= n,
                entry_index_from(self@, id@, 0) == entry_index_from(self@, id@, i as int),
            decreases n - i,
        {
            if str_eq(self.entries[i].0.as_str(), id) {
                return Some(i);
            }
            i += 1;
        }
        None
    }

    /// The queue kept under `id`, if any.
    pub fn get(&self, id: &str) -> (r: Option<&QueueState>)
        ensures
            match self.spec_get(id@) {
                Some(q) => r == Some(&q),
                None => r is None,
            },
    {
        match self.index_of(id) {
            Some(i) => {
                proof {
                    lemma_entry_index_from(self@, id@, 0);
                }
                Some(&self.entries[i].1)
            },
            None => None,
        }
    }

    /// Keeps `queue` under `id`, in place of the queue kept there before.
    pub fn insert(&mut self, id: String, queue: QueueState)
        ensures
            final(self).spec_get(id@) == Some(queue),
            forall|k: Seq<char>| k != id@ ==> #[trigger] final(self).spec_get(k) == old(self).spec_get(k),
    {
        match self.index_of(id.as_str()) {
            Some(i) => {
                proof {
                    lemma_entry_index_from(self@, id@, 0);
                }
                let ghost e = (id, queue);
                self.entries.set(i, (id, queue));
                proof {
                    lemma_lookup_update(old(self)@, i as int, e);
                }
            },
            None => {
                let ghost e = (id, queue);
                self.entries.push((id, queue));
                proof {
                    lemma_lookup_push(old(self)@, e);
                }
            },
        }
    }

    /// Derives again the chain of the attraction's queue from the map, and
    /// keeps it under the attraction's id; whoever waited in the queue keeps
    /// waiting, and a queue that did not exist starts empty.
    pub fn sync_queue_chain(&mut self, park_map: &ParkMap, attraction_building_id: &str)
        requires
            queue_cells_fit(park_map.infrastructure@, attraction_building_id@),
        ensures
            final(self).spec_get(attraction_building_id@) matches Some(q) && is_queue_chain(
                *park_map,
                attraction_building_id@,
                q.chain@,
            ) && q.occupants@ == match old(self).spec_get(attraction_building_id@) {
                Some(before) => before.occupants@,
                None => Seq::<VisitorId>::empty(),
            },
            forall|k: Seq<char>|
                k != attraction_building_id@ ==> #[trigger] final(self).spec_get(k) == old(
                    self,
                ).spec_get(k),
    {
        let chain = derive_queue_chain(park_map, attraction_building_id);
        let queue = match self.index_of(attraction_building_id) {
            Some(i) => {
                proof {
                    lemma_entry_index_from(self@, attraction_building_id@, 0);
                }
                let occupants = self.take_occupants(i);
                proof {
                    assert forall|k: Seq<char>| k != attraction_building_id@ implies #[trigger] lookup(
                        self@,
                        k,
                    ) == lookup(old(self)@, k) by {
                        lemma_entry_index_from(old(self)@, k, 0);
                    }
                }
                QueueState { chain, occupants }
            },
            None => QueueState { chain, occupants: VecDeque::new() },
        };
        self.insert(attraction_building_id.to_owned(), queue);
    }

    /// Takes the occupants out of the `i`-th entry, leaving it empty of them.
    fn take_occupants(&mut self, i: usize) -> (r: VecDeque<VisitorId>)
        requires
            i < old(self)@.len(),
        ensures
            r == old(self)@[i as int].1.occupants,
            forall|k: Seq<char>| #[trigger] entry_index_from(final(self)@, k, 0) == entry_index_from(
                old(self)@,
                k,
                0,
            ),
            forall|j: int| 0 <= j < old(self)@.len() && j != i ==> #[trigger] final(self)@[j] == old(self)@[j],
            final(self)@.len() == old(self)@.len(),
    {
        let (key, before) = self.entries.remove(i);
        let QueueState { chain, occupants } = before;
        let emptied = (key, QueueState { chain, occupants: VecDeque::new() });
        let ghost e = emptied;
        self.entries.insert(i, emptied);
        proof {
            assert(self@ =~= old(self)@.update(i as int, e));
            assert forall|k: Seq<char>| #[trigger] entry_index_from(self@, k, 0) == entry_index_from(
                old(self)@,
                k,
                0,
            ) by {
                lemma_entry_index_update(old(self)@, i as int, e, k, 0);
            }
        }
        occupants
    }
    /// The attraction whose queue ends at `cell` (the queue's entrance), if
    /// any. Where several queues end there, which one is given is not
    /// specified.
    pub fn queue_at_entrance(&self, cell: Cell) -> (r: Option<&str>)
        ensures
            r matches Some(id) ==> ends_at(self.spec_get(id@), cell),
            r is None ==> forall|k: Seq<char>| !ends_at(#[trigger] self.spec_get(k), cell),
    {
        let n = self.entries.len();
        let mut i: usize = 0;
        while i < n
            invariant
                n == self@.len(),
                i <= n,
                forall|j: int|
                    0 <= j < i && entry_index_from(self@, #[trigger] self@[j].0@, 0) == Some(j) ==> !(
                    self@[j].1.chain@.len() > 0 && self@[j].1.chain@.last() == cell),
            decreases n - i,
        {
            let chain = &self.entries[i].1.chain;
            let len = chain.len();
            if len > 0 {
                let last = chain[len - 1];
                if last.0 == cell.0 && last.1 == cell.1 && last.2 == cell.2 {
                    let key = self.entries[i].0.as_str();
                    if let Some(first) = self.index_of(key) {
                        if first == i {
                            return Some(key);
                        }
                    }
                }
            }
            i += 1;
        }
        proof {
            assert forall|k: Seq<char>| !ends_at(#[trigger] self.spec_get(k), cell) by {
                lemma_entry_index_from(self@, k, 0);
                if let Some(j) = entry_index_from(self@, k, 0) {
                    assert(self@[j].0@ == k);
                }
            }
        }
        None
    }
}

/// An attraction's queue chain is empty exactly when no queue cell of the
/// attraction has, on its own level, a building of the attraction east,
/// west, north or south of it; otherwise it starts at such a cell.
pub proof fn lemma_chain_starts_next_to_attraction(m: ParkMap, id: Seq<char>, chain: Seq<Cell>)
    requires
        is_queue_chain(m, id, chain),
    ensures
        chain.len() > 0 <==> exists|c: Cell|
            #![trigger is_queue_cell(m.infrastructure@, c, id)]
            is_queue_cell(m.infrastructure@, c, id) && next_to_attraction(m, c, id),
        chain.len() > 0 ==> next_to_attraction(m, chain[0], id),
{
    assert forall|c: Cell| #[trigger] is_head(m, c, id) <==> (is_queue_cell(m.infrastructure@, c, id)
        && next_to_attraction(m, c, id)) by {
        if next_to_attraction(m, c, id) {
            let b = m.building@;
            if b.contains_key(((c.0 + 1) as i32, c.1, c.2)) && b[((c.0 + 1) as i32, c.1, c.2)].building_id@ == id {
                assert(b.contains_key(neighbour(c, 0)));
            } else if b.contains_key(((c.0 - 1) as i32, c.1, c.2)) && b[((c.0 - 1) as i32, c.1, c.2)].building_id@ == id {
                assert(b.contains_key(neighbour(c, 1)));
            } else if b.contains_key((c.0, (c.1 + 1) as i32, c.2)) && b[(c.0, (c.1 + 1) as i32, c.2)].building_id@ == id {
                assert(b.contains_key(neighbour(c, 2)));
            } else {
                assert(b.contains_key(neighbour(c, 3)));
            }
        }
        if touches_building(m.building@, c, id) {
            let k = choose|k: int|
                0 <= k < 4 && m.building@.contains_key(#[trigger] neighbour(c, k))
                    && m.building@[neighbour(c, k)].building_id@ == id;
            assert(k == 0 || k == 1 || k == 2 || k == 3);
        }
    }
    if chain.len() > 0 {
        assert(is_head(m, chain[0], id));
    } else {
        assert forall|c: Cell| !(#[trigger] is_queue_cell(m.infrastructure@, c, id) && next_to_attraction(
            m,
            c,
            id,
        )) by {
            assert(!is_head(m, c, id));
        }
    }
}

/// Whether a building of the attraction `id` stands east, west, north or
/// south of `c`, on its level.
pub open spec fn next_to_attraction(m: ParkMap, c: Cell, id: Seq<char>) -> bool {
    let b = m.building@;
    ||| b.contains_key(((c.0 + 1) as i32, c.1, c.2)) && b[((c.0 + 1) as i32, c.1, c.2)].building_id@ == id
    ||| b.contains_key(((c.0 - 1) as i32, c.1, c.2)) && b[((c.0 - 1) as i32, c.1, c.2)].building_id@ == id
    ||| b.contains_key((c.0, (c.1 + 1) as i32, c.2)) && b[(c.0, (c.1 + 1) as i32, c.2)].building_id@ == id
    ||| b.contains_key((c.0, (c.1 - 1) as i32, c.2)) && b[(c.0, (c.1 - 1) as i32, c.2)].building_id@ == id
}

/// The cell after `cur` in a queue chain is a neighbour of `cur` east, west,
/// north or south, that holds a queue of `id` and is not yet in the chain,
/// looked for in that order; the chain ends exactly when no neighbour is
/// such a cell.
pub proof fn lemma_next_queue_cell_is_neighbour(
    m: Map<Cell, InfrastructureShape>,
    id: Seq<char>,
    cur: Cell,
    visited: Seq<Cell>,
)
    ensures
        ({
            let e = ((cur.0 + 1) as i32, cur.1, cur.2);
            let w = ((cur.0 - 1) as i32, cur.1, cur.2);
            let n = (cur.0, (cur.1 + 1) as i32, cur.2);
            let s = (cur.0, (cur.1 - 1) as i32, cur.2);
            let free = |d: Cell| !visited.contains(d) && is_queue_cell(m, d, id);
            let r = next_queue_cell(m, id, cur, visited);
            &&& r is None <==> !(free(e) || free(w) || free(n) || free(s))
            &&& free(e) ==> r == Some(e)
            &&& !free(e) && free(w) ==> r == Some(w)
            &&& !free(e) && !free(w) && free(n) ==> r == Some(n)
            &&& !free(e) && !free(w) && !free(n) && free(s) ==> r == Some(s)
        }),
{
    reveal_with_fuel(next_queue_cell_from, 5);
}

} // verus!
