//! Routes across the map: the walking graph, the shortest-route search, and
//! the smoothing of routes along lines of sight.
use vstd::prelude::*;

use crate::cells::Cell;
use crate::line::{line_fits, spec_line};
use crate::map::{
    fits_i32, movement_cost_for, neighbours_fit, spec_movement_cost_for,
    spec_vertical_movement_cost_for, vertical_movement_cost_for, Bounds3d, InfrastructureShape,
    ParkMap,
};

verus! {

/// A route with its total cost.
pub type PathResult = (Vec<Cell>, u32);

/// The route that the A* search of the `pathfinding` crate returns on the
/// walking graph of a map with these bounds, terrain and infrastructure, from
/// `start` to `target`, with its cost.
pub uninterp spec fn astar_route(
    bounds: Bounds3d,
    terrain: Map<Cell, String>,
    infrastructure: Map<Cell, InfrastructureShape>,
    start: Cell,
    target: Cell,
) -> Option<(Seq<Cell>, u32)>;

/// Whether every ramp of an infrastructure layer climbs at most one level
/// and every flight of stairs at most two.
pub open spec fn links_short(layer: Map<Cell, InfrastructureShape>) -> bool {
    forall|c: Cell| #[trigger]
        layer.contains_key(c) ==> match layer[c] {
            InfrastructureShape::Ramp { to_z } => abs_int(to_z - c.2) <= 1,
            InfrastructureShape::Stairs { to_z } => abs_int(to_z - c.2) <= 2,
            _ => true,
        }
}

pub open spec fn abs_int(v: int) -> int {
    if v < 0 {
        -v
    } else {
        v
    }
}

/// The Manhattan distance between two cells.
pub open spec fn spec_heuristic(c: Cell, target: Cell) -> int {
    abs_int(c.0 - target.0) + abs_int(c.1 - target.1) + abs_int(c.2 - target.2)
}

/// Whether the Manhattan distance between two cells can be computed in `i32`.
pub open spec fn heuristic_fits(c: Cell, target: Cell) -> bool {
    &&& i32::MIN < c.0 - target.0 <= i32::MAX
    &&& i32::MIN < c.1 - target.1 <= i32::MAX
    &&& i32::MIN < c.2 - target.2 <= i32::MAX
    &&& spec_heuristic(c, target) <= i32::MAX
}

/// The cost of a route's step onto the successor `n`, as listed by `succ`:
/// the cost of the first entry for `n`.
pub open spec fn cost_in(succ: Seq<(Cell, u32)>, n: Cell) -> Option<u32>
    decreases succ.len(),
{
    if succ.len() == 0 {
        None
    } else if succ[0].0 == n {
        Some(succ[0].1)
    } else {
        cost_in(succ.drop_first(), n)
    }
}

/// The number of cells in a box.
pub open spec fn box_size(b: Bounds3d) -> int {
    if b.min_x <= b.max_x && b.min_y <= b.max_y && b.min_z <= b.max_z {
        (b.max_x - b.min_x + 1) * (b.max_y - b.min_y + 1) * (b.max_z - b.min_z + 1)
    } else {
        0
    }
}

impl ParkMap {
    /// Whether a visitor can walk on a cell: it holds a path, a ramp or
    /// stairs.
    pub open spec fn walkable(self, c: Cell) -> bool {
        &&& self.infrastructure@.contains_key(c)
        &&& (self.infrastructure@[c] is Path || self.infrastructure@[c] is Ramp
            || self.infrastructure@[c] is Stairs)
    }

    /// The cost of stepping onto a cell horizontally: that of its material,
    /// or 5 where it has none.
    pub open spec fn step_cost(self, n: Cell) -> u32 {
        if self.terrain@.contains_key(n) {
            spec_movement_cost_for(self.terrain@[n]@)
        } else {
            5
        }
    }

    /// The horizontal successor of `c` in direction `(dx, dy)`, if it lies
    /// in the map and can be walked on.
    pub open spec fn horizontal_successor(self, c: Cell, dx: int, dy: int) -> Seq<(Cell, u32)> {
        let n = ((c.0 + dx) as i32, (c.1 + dy) as i32, c.2);
        if self.in_bounds(n) && self.walkable(n) {
            seq![(n, self.step_cost(n))]
        } else {
            seq![]
        }
    }

    /// The cell that a ramp or stairs on `c` lead to, if it lies in the map.
    pub open spec fn vertical_successor(self, c: Cell) -> Seq<(Cell, u32)> {
        if self.infrastructure@.contains_key(c) {
            let shape = self.infrastructure@[c];
            match shape {
                InfrastructureShape::Ramp { to_z } | InfrastructureShape::Stairs { to_z } => {
                    if self.in_bounds((c.0, c.1, to_z)) {
                        seq![((c.0, c.1, to_z), spec_vertical_movement_cost_for(shape))]
                    } else {
                        seq![]
                    }
                },
                _ => seq![],
            }
        } else {
            seq![]
        }
    }

    /// The cells a visitor can move to from `c`, with the cost of each move:
    /// east, west, north, south, then up or down a ramp or stairs.
    pub open spec fn spec_successors(self, c: Cell) -> Seq<(Cell, u32)> {
        self.horizontal_successor(c, 1, 0) + self.horizontal_successor(c, -1, 0)
            + self.horizontal_successor(c, 0, 1) + self.horizontal_successor(c, 0, -1)
            + self.vertical_successor(c)
    }

    /// The moves from a cell: to each of its four horizontal neighbours that
    /// lies in the map and holds a path, a ramp or stairs, at the cost of the
    /// neighbour's material (5 where it has none); and, from a ramp or
    /// stairs, to the cell above or below it on the level it leads to, when
    /// that cell lies in the map, at cost 1 for a ramp and 2 for stairs.
    /// There is no other move.
    pub proof fn lemma_successors_are_moves(self, c: Cell, n: Cell, w: u32)
        requires
            neighbours_fit(c),
        ensures
            self.spec_successors(c).contains((n, w)) <==> {
                ||| {
                    &&& n.2 == c.2
                    &&& ((n.0 == c.0 + 1 || n.0 == c.0 - 1) && n.1 == c.1 || n.0 == c.0 && (n.1
                        == c.1 + 1 || n.1 == c.1 - 1))
                    &&& self.bounds.min_x <= n.0 <= self.bounds.max_x
                    &&& self.bounds.min_y <= n.1 <= self.bounds.max_y
                    &&& self.bounds.min_z <= n.2 <= self.bounds.max_z
                    &&& self.infrastructure@.contains_key(n)
                    &&& (self.infrastructure@[n] is Path || self.infrastructure@[n] is Ramp
                        || self.infrastructure@[n] is Stairs)
                    &&& w == if self.terrain@.contains_key(n) {
                        spec_movement_cost_for(self.terrain@[n]@)
                    } else {
                        5
                    }
                }
                ||| {
                    &&& self.infrastructure@.contains_key(c)
                    &&& self.infrastructure@[c] matches InfrastructureShape::Ramp { to_z }
                    &&& n == (c.0, c.1, to_z)
                    &&& self.bounds.min_z <= to_z <= self.bounds.max_z
                    &&& self.bounds.min_x <= c.0 <= self.bounds.max_x
                    &&& self.bounds.min_y <= c.1 <= self.bounds.max_y
                    &&& w == 1
                }
                ||| {
                    &&& self.infrastructure@.contains_key(c)
                    &&& self.infrastructure@[c] matches InfrastructureShape::Stairs { to_z }
                    &&& n == (c.0, c.1, to_z)
                    &&& self.bounds.min_z <= to_z <= self.bounds.max_z
                    &&& self.bounds.min_x <= c.0 <= self.bounds.max_x
                    &&& self.bounds.min_y <= c.1 <= self.bounds.max_y
                    &&& w == 2
                }
            },
    {
        let x = (n, w);
        let h1 = self.horizontal_successor(c, 1, 0);
        let h2 = self.horizontal_successor(c, -1, 0);
        let h3 = self.horizontal_successor(c, 0, 1);
        let h4 = self.horizontal_successor(c, 0, -1);
        let v = self.vertical_successor(c);
        crate::seqs::lemma_concat_contains(h1 + h2 + h3 + h4, v, x);
        crate::seqs::lemma_concat_contains(h1 + h2 + h3, h4, x);
        crate::seqs::lemma_concat_contains(h1 + h2, h3, x);
        crate::seqs::lemma_concat_contains(h1, h2, x);
        let e1 = (((c.0 + 1) as i32, c.1, c.2), self.step_cost(((c.0 + 1) as i32, c.1, c.2)));
        let e2 = (((c.0 - 1) as i32, c.1, c.2), self.step_cost(((c.0 - 1) as i32, c.1, c.2)));
        let e3 = ((c.0, (c.1 + 1) as i32, c.2), self.step_cost((c.0, (c.1 + 1) as i32, c.2)));
        let e4 = ((c.0, (c.1 - 1) as i32, c.2), self.step_cost((c.0, (c.1 - 1) as i32, c.2)));
        crate::seqs::lemma_small_contains(x, e1);
        crate::seqs::lemma_small_contains(x, e2);
        crate::seqs::lemma_small_contains(x, e3);
        crate::seqs::lemma_small_contains(x, e4);
        if self.infrastructure@.contains_key(c) {
            crate::seqs::lemma_small_contains(
                x,
                (
                    (c.0, c.1, match self.infrastructure@[c] {
                        InfrastructureShape::Ramp { to_z } => to_z,
                        InfrastructureShape::Stairs { to_z } => to_z,
                        _ => 0,
                    }),
                    spec_vertical_movement_cost_for(self.infrastructure@[c]),
                ),
            );
        }
    }

    /// Whether a visitor can move from `a` to `b` in one step.
    pub open spec fn is_edge(self, a: Cell, b: Cell) -> bool {
        cost_in(self.spec_successors(a), b) is Some
    }

    /// The cost of the step from `a` to `b`.
    pub open spec fn edge_cost(self, a: Cell, b: Cell) -> int {
        match cost_in(self.spec_successors(a), b) {
            Some(c) => c as int,
            None => 0,
        }
    }

    /// Whether `p` is a route from `start` to `target`.
    pub open spec fn is_route(self, p: Seq<Cell>, start: Cell, target: Cell) -> bool {
        &&& p.len() >= 1
        &&& p[0] == start
        &&& p.last() == target
        &&& forall|i: int| 0 <= i < p.len() - 1 ==> self.is_edge(#[trigger] p[i], p[i + 1])
    }

    /// The total cost of the steps of a route.
    pub open spec fn route_cost(self, p: Seq<Cell>) -> int
        decreases p.len(),
    {
        if p.len() <= 1 {
            0
        } else {
            self.edge_cost(p[0], p[1]) + self.route_cost(p.drop_first())
        }
    }

    /// Whether some route leads from `start` to `target`.
    pub open spec fn reachable(self, start: Cell, target: Cell) -> bool {
        exists|p: Seq<Cell>| self.is_route(p, start, target)
    }

    /// Whether the Manhattan distance to `target` never exceeds the cost of
    /// a route to it.
    pub open spec fn heuristic_admissible(self, target: Cell) -> bool {
        forall|n: Cell, p: Seq<Cell>|
            #[trigger] self.is_route(p, n, target) ==> spec_heuristic(n, target) <= self.route_cost(p)
    }

    /// The A* route from `start` to `target`.
    pub open spec fn spec_astar(self, start: Cell, target: Cell) -> Option<(Seq<Cell>, u32)> {
        astar_route(self.bounds, self.terrain@, self.infrastructure@, start, target)
    }

    /// Whether a search from `start` to `target` stays within the machine's
    /// integers: every cell it can visit (the start and the cells of the
    /// map) has neighbours in `i32`, its distance to the target and its line
    /// to any other such cell can be computed in `i32`, and the cost of any
    /// route without repeats plus that distance stays within `u32`.
    pub open spec fn search_fits(self, start: Cell, target: Cell) -> bool {
        &&& forall|c: Cell|
            (c == start || self.in_bounds(c)) ==> neighbours_fit(c) && #[trigger] heuristic_fits(
                c,
                target,
            )
        &&& forall|c: Cell, d: Cell|
            (c == start || self.in_bounds(c)) && (d == start || self.in_bounds(d)) && c.2 == d.2
                ==> #[trigger] line_fits(c.0, c.1, d.0, d.1)
        &&& 10 * (box_size(self.bounds) + 2) <= 0x8000_0000
    }

    /// Whether a visitor can walk on the cell `(x, y, z)`.
    pub fn is_walkable(&self, x: i32, y: i32, z: i32) -> (r: bool)
        ensures
            r == self.walkable((x, y, z)),
    {
        match self.get_infrastructure(x, y, z) {
            Some(InfrastructureShape::Path) => true,
            Some(InfrastructureShape::Ramp { .. }) => true,
            Some(InfrastructureShape::Stairs { .. }) => true,
            _ => false,
        }
    }

    fn push_horizontal(&self, result: &mut Vec<(Cell, u32)>, c: Cell, dx: i32, dy: i32)
        requires
            fits_i32(c.0 + dx),
            fits_i32(c.1 + dy),
        ensures
            final(result)@ == old(result)@ + self.horizontal_successor(c, dx as int, dy as int),
    {
        let (nx, ny, nz) = (c.0 + dx, c.1 + dy, c.2);
        if !self.is_within_bounds(nx, ny, nz) {
            return;
        }
        if !self.is_walkable(nx, ny, nz) {
            return;
        }
        let cost = match self.get_terrain(nx, ny, nz) {
            Some(material) => movement_cost_for(material.as_str()),
            None => 5,
        };
        result.push(((nx, ny, nz), cost));
    }

    /// The cells a visitor can move to from `c`, with the cost of each move.
    pub fn successors(&self, c: &Cell) -> (r: Vec<(Cell, u32)>)
        requires
            neighbours_fit(*c),
        ensures
            r@ == self.spec_successors(*c),
    {
        let (x, y, z) = *c;
        let mut result: Vec<(Cell, u32)> = Vec::new();
        self.push_horizontal(&mut result, (x, y, z), 1, 0);
        self.push_horizontal(&mut result, (x, y, z), -1, 0);
        self.push_horizontal(&mut result, (x, y, z), 0, 1);
        self.push_horizontal(&mut result, (x, y, z), 0, -1);
        let ghost horizontal = result@;
        match self.get_infrastructure(x, y, z) {
            Some(shape) => match shape {
                InfrastructureShape::Ramp { to_z } | InfrastructureShape::Stairs { to_z } => {
                    if self.is_within_bounds(x, y, *to_z) {
                        result.push(((x, y, *to_z), vertical_movement_cost_for(shape)));
                    }
                },
                _ => {},
            },
            None => {},
        }
        proof {
            assert(result@ =~= horizontal + self.vertical_successor((x, y, z)));
            assert(result@ =~= self.spec_successors(*c));
        }
        result
    }

    /// The Manhattan distance from `c` to `target`.
    pub fn heuristic(c: &Cell, target: Cell) -> (r: u32)
        requires
            heuristic_fits(*c, target),
        ensures
            r == spec_heuristic(*c, target),
    {
        let (x, y, z) = *c;
        let ax = x - target.0;
        let ay = y - target.1;
        let az = z - target.2;
        let ax = if ax < 0 { -ax } else { ax };
        let ay = if ay < 0 { -ay } else { ay };
        let az = if az < 0 { -az } else { az };
        (ax + ay + az) as u32
    }

    /// The line of sight from `origin` to `target`, as the level it lies on
    /// and the columns it crosses.
    pub open spec fn spec_line_of_sight(self, origin: Cell, target: Cell) -> bool {
        &&& origin.2 == target.2
        &&& forall|i: int|
            0 <= i < spec_line(origin.0, origin.1, target.0, target.1).len() ==> {
                let p = #[trigger] spec_line(origin.0, origin.1, target.0, target.1)[i];
                self.walkable((p.0, p.1, origin.2))
            }
    }

    /// Whether `origin` and `target` lie on one level and every column of the
    /// line between them can be walked on at that level.
    pub fn has_line_of_sight(&self, origin: Cell, target: Cell) -> (r: bool)
        requires
            origin.2 == target.2 ==> line_fits(origin.0, origin.1, target.0, target.1),
        ensures
            r == self.spec_line_of_sight(origin, target),
    {
        let (x0, y0, z0) = origin;
        let (x1, y1, z1) = target;
        if z0 != z1 {
            return false;
        }
        let line = ParkMap::bresenham_line(x0, y0, x1, y1);
        let n = line.len();
        let mut i: usize = 0;
        while i < n
            invariant
                n == line@.len(),
                i <= n,
                origin == (x0, y0, z0),
                target == (x1, y1, z1),
                line@ == spec_line(x0, y0, x1, y1),
                forall|k: int| 0 <= k < i ==> self.walkable((line@[k].0, line@[k].1, z0)),
            decreases n - i,
        {
            let (x, y) = line[i];
            if !self.is_walkable(x, y, z0) {
                proof {
                    let p = spec_line(origin.0, origin.1, target.0, target.1)[i as int];
                    assert(!self.walkable((p.0, p.1, origin.2)));
                }
                return false;
            }
            i += 1;
        }
        true
    }
}

/// Whether `s` is `path` with some points left out: `s[k]` is
/// `path[idx[k]]`, with the indices strictly increasing.
pub open spec fn is_subsequence_by(s: Seq<Cell>, path: Seq<Cell>, idx: Seq<int>) -> bool {
    &&& s.len() >= 1
    &&& idx.len() == s.len()
    &&& forall|k: int| 0 <= k < idx.len() ==> 0 <= #[trigger] idx[k] < path.len() && s[k] == path[idx[k]]
    &&& forall|k: int, l: int| 0 <= k < l < idx.len() ==> #[trigger] idx[k] < #[trigger] idx[l]
}

/// Whether `node` is the target of a search.
pub fn is_target(node: &Cell, target: Cell) -> (r: bool)
    ensures
        r == (*node == target),
{
    node.0 == target.0 && node.1 == target.1 && node.2 == target.2
}

/// Runs the A* search of the `pathfinding` crate on the walking graph of
/// `map`, from `start` until `target`, with the Manhattan distance as the
/// estimate of the remaining cost.
///
/// Its contract rests on the crate's documentation of `astar`: the result is
/// `None` exactly when no route exists; otherwise it is a route from `start`
/// to `target` that passes no cell twice, together with its total cost, and
/// the route is a cheapest one when the estimate never exceeds the real
/// remaining cost. Which of several cheapest routes comes back is not said,
/// only named.
#[verifier::external_body]
fn astar_search(map: &ParkMap, start: Cell, target: Cell) -> (r: Option<(Vec<Cell>, u32)>)
    requires
        map.search_fits(start, target),
    ensures
        r is None ==> astar_route(map.bounds, map.terrain@, map.infrastructure@, start, target) is None,
        r matches Some((p, c)) ==> astar_route(
            map.bounds,
            map.terrain@,
            map.infrastructure@,
            start,
            target,
        ) == Some((p@, c)),
        r is None <==> !map.reachable(start, target),
        r matches Some((p, c)) ==> map.is_route(p@, start, target) && p@.no_duplicates() && c
            == map.route_cost(p@),
        r matches Some((p, c)) ==> (map.heuristic_admissible(target) ==> forall|q: Seq<Cell>|
            #[trigger] map.is_route(q, start, target) ==> c <= map.route_cost(q)),
{
    pathfinding::prelude::astar(
        &start,
        |node| map.successors(node),
        |node| ParkMap::heuristic(node, target),
        |node| is_target(node, target),
    )
}

pub proof fn lemma_cost_in(s: Seq<(Cell, u32)>, n: Cell)
    ensures
        cost_in(s, n) is Some <==> exists|j: int| 0 <= j < s.len() && (#[trigger] s[j]).0 == n,
    decreases s.len(),
{
    if s.len() > 0 {
        lemma_cost_in(s.drop_first(), n);
        if exists|j: int| 0 <= j < s.len() && (#[trigger] s[j]).0 == n {
            let j = choose|j: int| 0 <= j < s.len() && (#[trigger] s[j]).0 == n;
            if j > 0 {
                assert(s.drop_first()[j - 1] == s[j]);
            }
        }
        if exists|j: int| 0 <= j < s.drop_first().len() && (#[trigger] s.drop_first()[j]).0 == n {
            let j = choose|j: int| 0 <= j < s.drop_first().len() && (#[trigger] s.drop_first()[j]).0 == n;
            assert(s[j + 1] == s.drop_first()[j]);
        }
    }
}

proof fn lemma_wrap(x: i32)
    ensures
        x == i32::MAX ==> (x + 1) as i32 == i32::MIN,
        x == i32::MIN ==> (x - 1) as i32 == i32::MAX,
{
    assert(x == 0x7fff_ffffi32 ==> (x + 1) as i32 == -0x8000_0000i32) by (bit_vector);
    assert(x == -0x8000_0000i32 ==> (x - 1) as i32 == 0x7fff_ffffi32) by (bit_vector);
}

pub proof fn lemma_cost_in_entry(s: Seq<(Cell, u32)>, n: Cell)
    requires
        cost_in(s, n) is Some,
    ensures
        exists|j: int| 0 <= j < s.len() && #[trigger] s[j] == (n, cost_in(s, n)->0),
    decreases s.len(),
{
    if s[0].0 == n {
        assert(s[0] == (n, cost_in(s, n)->0));
    } else {
        lemma_cost_in_entry(s.drop_first(), n);
        let j = choose|j: int| 0 <= j < s.drop_first().len() && #[trigger] s.drop_first()[j] == (n, cost_in(s.drop_first(), n)->0);
        assert(s[j + 1] == s.drop_first()[j]);
    }
}

impl ParkMap {
    /// Whether every ramp climbs at most one level and every flight of
    /// stairs at most two: no vertical move is cheaper than the levels it
    /// crosses.
    pub open spec fn vertical_links_short(self) -> bool {
        links_short(self.infrastructure@)
    }

    /// Whether the map's bounds keep clear of the ends of `i32` horizontally.
    pub open spec fn bounds_interior(self) -> bool {
        &&& self.bounds.min_x > i32::MIN
        &&& self.bounds.max_x < i32::MAX
        &&& self.bounds.min_y > i32::MIN
        &&& self.bounds.max_y < i32::MAX
    }

    proof fn lemma_successor_consistent(self, a: Cell, target: Cell, j: int)
        requires
            self.vertical_links_short(),
            self.bounds_interior(),
            0 <= j < self.spec_successors(a).len(),
        ensures
            spec_heuristic(a, target) <= self.spec_successors(a)[j].1 + spec_heuristic(
                self.spec_successors(a)[j].0,
                target,
            ),
    {
        let h1 = self.horizontal_successor(a, 1, 0);
        let h2 = self.horizontal_successor(a, -1, 0);
        let h3 = self.horizontal_successor(a, 0, 1);
        let h4 = self.horizontal_successor(a, 0, -1);
        let v = self.vertical_successor(a);
        let s = self.spec_successors(a);
        assert(s == h1 + h2 + h3 + h4 + v);
        self.lemma_successors_in_bounds(a, j);
        let e = s[j];
        if j < h1.len() + h2.len() + h3.len() + h4.len() {
            assert(e.1 >= 1) by {
                reveal_strlit("path");
                if j < h1.len() {
                    assert(s[j] == h1[j]);
                } else if j < h1.len() + h2.len() {
                    assert(s[j] == h2[j - h1.len()]);
                } else if j < h1.len() + h2.len() + h3.len() {
                    assert(s[j] == h3[j - h1.len() - h2.len()]);
                } else {
                    assert(s[j] == h4[j - h1.len() - h2.len() - h3.len()]);
                }
            }
            assert(abs_int(e.0.0 - a.0) + abs_int(e.0.1 - a.1) <= 1 && e.0.2 == a.2) by {
                lemma_wrap(a.0);
                lemma_wrap(a.1);
                if j < h1.len() {
                    assert(s[j] == h1[j]);
                } else if j < h1.len() + h2.len() {
                    assert(s[j] == h2[j - h1.len()]);
                } else if j < h1.len() + h2.len() + h3.len() {
                    assert(s[j] == h3[j - h1.len() - h2.len()]);
                } else {
                    assert(s[j] == h4[j - h1.len() - h2.len() - h3.len()]);
                }
            }
        } else {
            assert(s[j] == v[j - h1.len() - h2.len() - h3.len() - h4.len()]);
            assert(self.infrastructure@.contains_key(a));
        }
    }

    /// On a map whose vertical moves are no cheaper than the levels they
    /// cross, the Manhattan distance to the target never exceeds the cost of
    /// a route to it, so the A* search returns a cheapest route.
    pub proof fn lemma_heuristic_admissible(self, target: Cell)
        requires
            self.vertical_links_short(),
            self.bounds_interior(),
        ensures
            self.heuristic_admissible(target),
    {
        assert forall|n: Cell, p: Seq<Cell>| #[trigger] self.is_route(p, n, target) implies spec_heuristic(n, target)
            <= self.route_cost(p) by {
            self.lemma_route_bound(p, n, target);
        }
    }

    proof fn lemma_route_bound(self, p: Seq<Cell>, n: Cell, target: Cell)
        requires
            self.vertical_links_short(),
            self.bounds_interior(),
            self.is_route(p, n, target),
        ensures
            spec_heuristic(n, target) <= self.route_cost(p),
        decreases p.len(),
    {
        if p.len() > 1 {
            let rest = p.drop_first();
            assert(self.is_route(rest, p[1], target)) by {
                assert forall|i: int| 0 <= i < rest.len() - 1 implies self.is_edge(#[trigger] rest[i], rest[i + 1]) by {
                    assert(rest[i] == p[i + 1]);
                    assert(self.is_edge(p[i + 1], p[i + 2]));
                }
            }
            self.lemma_route_bound(rest, p[1], target);
            assert(self.is_edge(p[0], p[1]));
            lemma_cost_in_entry(self.spec_successors(p[0]), p[1]);
            let s = self.spec_successors(p[0]);
            let j = choose|j: int| 0 <= j < s.len() && #[trigger] s[j] == (p[1], cost_in(s, p[1])->0);
            self.lemma_successor_consistent(p[0], target, j);
        }
    }

    /// Every move out of a cell leads into the map.
    pub proof fn lemma_successors_in_bounds(self, c: Cell, j: int)
        requires
            0 <= j < self.spec_successors(c).len(),
        ensures
            self.in_bounds(self.spec_successors(c)[j].0),
    {
        let h1 = self.horizontal_successor(c, 1, 0);
        let h2 = self.horizontal_successor(c, -1, 0);
        let h3 = self.horizontal_successor(c, 0, 1);
        let h4 = self.horizontal_successor(c, 0, -1);
        let v = self.vertical_successor(c);
        let s = self.spec_successors(c);
        assert(s == h1 + h2 + h3 + h4 + v);
        let k = j;
        if k < h1.len() {
            assert(s[j] == h1[k]);
        } else if k < h1.len() + h2.len() {
            assert(s[j] == h2[k - h1.len()]);
        } else if k < h1.len() + h2.len() + h3.len() {
            assert(s[j] == h3[k - h1.len() - h2.len()]);
        } else if k < h1.len() + h2.len() + h3.len() + h4.len() {
            assert(s[j] == h4[k - h1.len() - h2.len() - h3.len()]);
        } else {
            assert(s[j] == v[k - h1.len() - h2.len() - h3.len() - h4.len()]);
        }
    }

    /// Every cell of a route is its start or a cell of the map.
    pub proof fn lemma_route_cells(self, p: Seq<Cell>, start: Cell, target: Cell)
        requires
            self.is_route(p, start, target),
        ensures
            forall|i: int| 0 <= i < p.len() ==> #[trigger] p[i] == start || self.in_bounds(p[i]),
    {
        assert forall|i: int| 0 <= i < p.len() implies #[trigger] p[i] == start || self.in_bounds(p[i]) by {
            if i > 0 {
                assert(self.is_edge(p[i - 1], p[i]));
                lemma_cost_in(self.spec_successors(p[i - 1]), p[i]);
                let j = choose|j: int| 0 <= j < self.spec_successors(p[i - 1]).len() && (#[trigger] self.spec_successors(p[i - 1])[j]).0 == p[i];
                self.lemma_successors_in_bounds(p[i - 1], j);
            }
        }
    }

    /// Whether the line between any two cells of `path` on one level can be
    /// computed in `i32`.
    pub open spec fn lines_fit(self, path: Seq<Cell>) -> bool {
        forall|i: int, j: int|
            0 <= i < path.len() && 0 <= j < path.len() && (#[trigger] path[i]).2 == (#[trigger] path[j]).2
                ==> line_fits(path[i].0, path[i].1, path[j].0, path[j].1)
    }

    /// The smoothing of `path` from index `i` on, with `anchor` the last
    /// point kept as a corner and `acc` the points kept so far: a point is
    /// kept as a corner when the point after it cannot be seen from the
    /// current anchor, and the last point of the path is always kept.
    pub open spec fn simplify_from(self, path: Seq<Cell>, i: int, anchor: Cell, acc: Seq<Cell>) -> Seq<
        Cell,
    >
        decreases path.len() - i,
    {
        if i < 1 || i >= path.len() {
            if acc.len() > 0 && acc.last() == path.last() {
                acc
            } else {
                acc.push(path.last())
            }
        } else if !self.spec_line_of_sight(anchor, path[i]) {
            let corner = path[i - 1];
            let acc2 = if acc.len() > 0 && acc.last() == corner {
                acc
            } else {
                acc.push(corner)
            };
            self.simplify_from(path, i + 1, corner, acc2)
        } else {
            self.simplify_from(path, i + 1, anchor, acc)
        }
    }

    /// A route with the points that lines of sight make useless left out.
    pub open spec fn spec_simplify(self, path: Seq<Cell>) -> Seq<Cell> {
        if path.len() == 0 {
            path
        } else {
            self.simplify_from(path, 1, path[0], seq![path[0]])
        }
    }

    proof fn lemma_simplify_from(
        self,
        path: Seq<Cell>,
        i: int,
        anchor: Cell,
        acc: Seq<Cell>,
        idx: Seq<int>,
    ) -> (idx2: Seq<int>)
        requires
            1 <= i <= path.len(),
            acc.len() >= 1,
            is_subsequence_by(acc, path, idx),
            idx.last() <= i - 1,
        ensures
            is_subsequence_by(self.simplify_from(path, i, anchor, acc), path, idx2),
            idx2[0] == idx[0],
            self.simplify_from(path, i, anchor, acc)[0] == acc[0],
            self.simplify_from(path, i, anchor, acc).last() == path.last(),
        decreases path.len() - i,
    {
        if i >= path.len() {
            if acc.last() == path.last() {
                idx
            } else {
                let idx2 = idx.push(path.len() - 1);
                assert(idx.last() < path.len() - 1) by {
                    if idx.last() == path.len() - 1 {
                        assert(acc[acc.len() - 1] == path[idx[acc.len() - 1]]);
                    }
                }
                let r = acc.push(path.last());
                assert(is_subsequence_by(r, path, idx2)) by {
                    assert forall|k: int, l: int| 0 <= k < l < idx2.len() implies idx2[k] < idx2[l] by {
                        if l == idx2.len() - 1 && k < idx.len() - 1 {
                            assert(idx[k] < idx[idx.len() - 1]);
                        }
                    }
                }
                idx2
            }
        } else if !self.spec_line_of_sight(anchor, path[i]) {
            let corner = path[i - 1];
            if acc.last() == corner {
                self.lemma_simplify_from(path, i + 1, corner, acc, idx)
            } else {
                assert(idx.last() < i - 1) by {
                    if idx.last() == i - 1 {
                        assert(acc[acc.len() - 1] == path[idx[acc.len() - 1]]);
                    }
                }
                let idx1 = idx.push(i - 1);
                let acc1 = acc.push(corner);
                assert(is_subsequence_by(acc1, path, idx1)) by {
                    assert forall|k: int, l: int| 0 <= k < l < idx1.len() implies idx1[k] < idx1[l] by {
                        if l == idx1.len() - 1 && k < idx.len() - 1 {
                            assert(idx[k] < idx[idx.len() - 1]);
                        }
                    }
                }
                self.lemma_simplify_from(path, i + 1, corner, acc1, idx1)
            }
        } else {
            self.lemma_simplify_from(path, i + 1, anchor, acc, idx)
        }
    }

    /// Smoothing keeps the first and the last point of a route and leaves
    /// the others in order: the result is the route with some points left
    /// out, picked by the strictly increasing indices that come back.
    pub proof fn lemma_simplify_keeps_ends(self, path: Seq<Cell>) -> (idx: Seq<int>)
        requires
            path.len() >= 1,
        ensures
            is_subsequence_by(self.spec_simplify(path), path, idx),
            idx[0] == 0,
            self.spec_simplify(path)[0] == path[0],
            self.spec_simplify(path).last() == path.last(),
    {
        let idx0 = seq![0int];
        assert(is_subsequence_by(seq![path[0]], path, idx0));
        self.lemma_simplify_from(path, 1, path[0], seq![path[0]], idx0)
    }

    /// Whether each point of `s` sees the next one, or can step to it.
    pub open spec fn steps_in_sight(self, s: Seq<Cell>) -> bool {
        forall|k: int|
            0 <= k < s.len() - 1 ==> self.spec_line_of_sight(#[trigger] s[k], s[k + 1])
                || self.is_edge(s[k], s[k + 1])
    }

    proof fn lemma_simplify_from_steps(
        self,
        path: Seq<Cell>,
        i: int,
        anchor: Cell,
        acc: Seq<Cell>,
        a: int,
    )
        requires
            1 <= i <= path.len(),
            0 <= a <= i - 1,
            path[a] == anchor,
            acc.len() >= 1,
            acc.last() == anchor,
            forall|k: int| a + 1 < k < i ==> self.spec_line_of_sight(anchor, #[trigger] path[k]),
            self.steps_in_sight(acc),
            forall|j: int| 0 <= j < path.len() - 1 ==> self.is_edge(#[trigger] path[j], path[j + 1]),
        ensures
            self.steps_in_sight(self.simplify_from(path, i, anchor, acc)),
        decreases path.len() - i,
    {
        if i >= path.len() {
            if acc.last() != path.last() {
                let r = acc.push(path.last());
                assert(a != path.len() - 1);
                if a + 1 < path.len() - 1 {
                    assert(self.spec_line_of_sight(anchor, path[path.len() - 1]));
                } else {
                    assert(self.is_edge(path[a], path[a + 1]));
                }
                assert forall|k: int| 0 <= k < r.len() - 1 implies self.spec_line_of_sight(
                    #[trigger] r[k],
                    r[k + 1],
                ) || self.is_edge(r[k], r[k + 1]) by {
                    if k < acc.len() - 1 {
                        assert(r[k] == acc[k] && r[k + 1] == acc[k + 1]);
                    }
                }
            }
        } else if !self.spec_line_of_sight(anchor, path[i]) {
            let corner = path[i - 1];
            if acc.last() == corner {
                self.lemma_simplify_from_steps(path, i + 1, corner, acc, i - 1);
            } else {
                let acc1 = acc.push(corner);
                if a + 1 < i - 1 {
                    assert(self.spec_line_of_sight(anchor, path[i - 1]));
                } else {
                    assert(a + 1 == i - 1);
                    assert(self.is_edge(path[a], path[a + 1]));
                }
                assert forall|k: int| 0 <= k < acc1.len() - 1 implies self.spec_line_of_sight(
                    #[trigger] acc1[k],
                    acc1[k + 1],
                ) || self.is_edge(acc1[k], acc1[k + 1]) by {
                    if k < acc.len() - 1 {
                        assert(acc1[k] == acc[k] && acc1[k + 1] == acc[k + 1]);
                    }
                }
                self.lemma_simplify_from_steps(path, i + 1, corner, acc1, i - 1);
            }
        } else {
            self.lemma_simplify_from_steps(path, i + 1, anchor, acc, a);
        }
    }

    /// Each point of a smoothed route sees the next one, or can step to it:
    /// smoothing only leaves out points that a straight walk in sight can
    /// skip.
    pub proof fn lemma_simplify_steps_in_sight(self, path: Seq<Cell>, start: Cell, target: Cell)
        requires
            self.is_route(path, start, target),
        ensures
            self.steps_in_sight(self.spec_simplify(path)),
    {
        assert(self.steps_in_sight(seq![path[0]]));
        self.lemma_simplify_from_steps(path, 1, path[0], seq![path[0]], 0);
    }

    /// Leaves out the points of `path` that lines of sight make useless.
    pub fn simplify_line_of_sight(&self, path: Vec<Cell>) -> (r: Vec<Cell>)
        requires
            self.lines_fit(path@),
        ensures
            r@ == self.spec_simplify(path@),
    {
        if path.len() == 0 {
            return path;
        }
        let n = path.len();
        let mut anchor = path[0];
        let mut simplified: Vec<Cell> = Vec::new();
        simplified.push(anchor);
        let ghost mut anchor_index: int = 0;
        let mut i: usize = 1;
        while i < n
            invariant
                n == path@.len(),
                1 <= i <= n,
                0 <= anchor_index < n,
                path@[anchor_index] == anchor,
                simplified@.len() >= 1,
                self.lines_fit(path@),
                self.spec_simplify(path@) == self.simplify_from(path@, i as int, anchor, simplified@),
            decreases n - i,
        {
            let next = path[i];
            proof {
                assert(anchor.2 == next.2 ==> line_fits(anchor.0, anchor.1, next.0, next.1)) by {
                    assert(path@[i as int] == next);
                }
            }
            if !self.has_line_of_sight(anchor, next) {
                anchor = path[i - 1];
                proof {
                    anchor_index = i - 1;
                }
                let last = simplified[simplified.len() - 1];
                if !is_target(&last, anchor) {
                    simplified.push(anchor);
                }
            }
            i += 1;
        }
        let last_point = path[n - 1];
        let last_kept = simplified[simplified.len() - 1];
        if !is_target(&last_kept, last_point) {
            simplified.push(last_point);
        }
        simplified
    }

    /// The A* route from `start` to `target`, smoothed along lines of sight,
    /// with its cost; `None` where no route exists.
    pub fn find_path(&self, start: Cell, target: Cell) -> (r: Option<PathResult>)
        requires
            self.search_fits(start, target),
        ensures
            match self.spec_astar(start, target) {
                None => r is None,
                Some((p, c)) => r matches Some((q, c2)) && q@ == self.spec_simplify(p) && c2 == c,
            },
            r is None <==> !self.reachable(start, target),
            self.spec_astar(start, target) matches Some((p, c)) ==> {
                &&& self.is_route(p, start, target)
                &&& p.no_duplicates()
                &&& c == self.route_cost(p)
                &&& self.heuristic_admissible(target) ==> forall|q: Seq<Cell>|
                    #[trigger] self.is_route(q, start, target) ==> c <= self.route_cost(q)
            },
    {
        match astar_search(self, start, target) {
            None => None,
            Some((raw, cost)) => {
                proof {
                    self.lemma_route_cells(raw@, start, target);
                    assert forall|i: int, j: int|
                        0 <= i < raw@.len() && 0 <= j < raw@.len() && (#[trigger] raw@[i]).2 == (#[trigger] raw@[j]).2
                            implies line_fits(raw@[i].0, raw@[i].1, raw@[j].0, raw@[j].1) by {
                        assert(raw@[i] == start || self.in_bounds(raw@[i]));
                        assert(raw@[j] == start || self.in_bounds(raw@[j]));
                    }
                }
                let simplified = self.simplify_line_of_sight(raw);
                Some((simplified, cost))
            },
        }
    }

    /// The smoothed route from `from` to `to` without its first point; empty
    /// where no route exists.
    pub open spec fn spec_path_excluding_start(self, from: Cell, to: Cell) -> Seq<Cell> {
        match self.spec_astar(from, to) {
            None => Seq::<Cell>::empty(),
            Some((p, _)) => {
                let s = self.spec_simplify(p);
                if s.len() == 0 {
                    s
                } else {
                    s.drop_first()
                }
            },
        }
    }

    /// The smoothed route from `from` to `to` without its first point; empty
    /// where no route exists.
    pub fn path_excluding_start(&self, from: Cell, to: Cell) -> (r: Vec<Cell>)
        requires
            self.search_fits(from, to),
        ensures
            r@ == self.spec_path_excluding_start(from, to),
    {
        let mut path = match self.find_path(from, to) {
            Some((p, _)) => p,
            None => Vec::new(),
        };
        if path.len() > 0 {
            path.remove(0);
            proof {
                assert(path@ =~= self.spec_simplify(self.spec_astar(from, to).unwrap().0).drop_first());
            }
        }
        path
    }
}

/// The estimate is the number of unit steps along the three axes between two
/// cells: zero exactly at the target, symmetric, and never more than the
/// sum of the estimates through any third cell.
pub proof fn lemma_heuristic_is_distance(a: Cell, b: Cell, m: Cell)
    ensures
        spec_heuristic(a, b) >= 0,
        spec_heuristic(a, b) == 0 <==> a == b,
        spec_heuristic(a, b) == spec_heuristic(b, a),
        spec_heuristic(a, b) <= spec_heuristic(a, m) + spec_heuristic(m, b),
        spec_heuristic(a, b) >= (if a.0 >= b.0 { a.0 - b.0 } else { b.0 - a.0 }),
        spec_heuristic(a, b) == (if a.0 >= b.0 { a.0 - b.0 } else { b.0 - a.0 }) + (if a.1 >= b.1 {
            a.1 - b.1
        } else {
            b.1 - a.1
        }) + (if a.2 >= b.2 { a.2 - b.2 } else { b.2 - a.2 }),
{
}

} // verus!
