//! Grid lines between two columns (Bresenham).
use vstd::prelude::*;

use crate::map::ParkMap;

verus! {

/// The step that the line takes from offset `(a, b)`, for a line spanning
/// `dx` columns horizontally and `dy` vertically (both non-negative): the
/// error term is `dx * (1 + b) - dy * (1 + a)`, and the line moves along x
/// when twice the error is at least `-dy`, along y when it is at most `dx`.
pub open spec fn line_step(dx: int, dy: int, a: int, b: int) -> (int, int) {
    let e2 = 2 * (dx * (1 + b) - dy * (1 + a));
    (if e2 >= -dy { a + 1 } else { a }, if e2 <= dx { b + 1 } else { b })
}

/// The offsets that the line visits from `(a, b)` on, until it reaches
/// `(dx, dy)` or `fuel` steps have been taken.
pub open spec fn line_offsets(dx: int, dy: int, a: int, b: int, fuel: nat) -> Seq<(int, int)>
    decreases fuel,
{
    if fuel == 0 || (a == dx && b == dy) {
        seq![(a, b)]
    } else {
        let s = line_step(dx, dy, a, b);
        seq![(a, b)] + line_offsets(dx, dy, s.0, s.1, (fuel - 1) as nat)
    }
}

pub open spec fn sign(v: int) -> int {
    if v > 0 {
        1
    } else if v < 0 {
        -1
    } else {
        0
    }
}

pub open spec fn abs(v: int) -> int {
    if v < 0 {
        -v
    } else {
        v
    }
}

/// Whether the line between two columns can be computed without leaving
/// `i32`.
pub open spec fn line_fits(x0: i32, y0: i32, x1: i32, y1: i32) -> bool {
    &&& i32::MIN < x1 - x0 <= i32::MAX
    &&& i32::MIN < y1 - y0 <= i32::MAX
}

/// The columns of the line from `(x0, y0)` to `(x1, y1)`, both included.
pub open spec fn spec_line(x0: i32, y0: i32, x1: i32, y1: i32) -> Seq<(i32, i32)> {
    let dx = abs(x1 - x0);
    let dy = abs(y1 - y0);
    let sx = sign(x1 - x0);
    let sy = sign(y1 - y0);
    line_offsets(dx, dy, 0, 0, (dx + dy) as nat).map_values(
        |o: (int, int)| ((x0 + sx * o.0) as i32, (y0 + sy * o.1) as i32),
    )
}

/// One step of the line keeps within the rectangle, moves along at least
/// one axis, and keeps the error term between `-2 dy` and `2 dx`.
pub proof fn lemma_line_step(dx: int, dy: int, a: int, b: int)
    requires
        0 <= a <= dx,
        0 <= b <= dy,
        !(a == dx && b == dy),
        -2 * dy <= dx * (1 + b) - dy * (1 + a) <= 2 * dx,
    ensures
        ({
            let s = line_step(dx, dy, a, b);
            &&& a <= s.0 <= a + 1
            &&& b <= s.1 <= b + 1
            &&& s.0 <= dx
            &&& s.1 <= dy
            &&& s.0 + s.1 > a + b
            &&& -2 * dy <= dx * (1 + s.1) - dy * (1 + s.0) <= 2 * dx
        }),
{
    let e = dx * (1 + b) - dy * (1 + a);
    let s = line_step(dx, dy, a, b);
    if a == dx {
        assert(e <= -dy) by (nonlinear_arith)
            requires
                a == dx,
                b <= dy - 1,
                0 <= dx,
                e == dx * (1 + b) - dy * (1 + a),
        {
            assert(dx * (1 + b) - dy * (1 + dx) == dx * (b - dy) + dx - dy);
            assert(dx * (b - dy) <= -dx);
        }
    }
    if b == dy {
        assert(e >= dx) by (nonlinear_arith)
            requires
                b == dy,
                a <= dx - 1,
                0 <= dy,
                e == dx * (1 + b) - dy * (1 + a),
        {
            assert(dx * (1 + dy) - dy * (1 + a) == dy * (dx - a) + dx - dy);
            assert(dy * (dx - a) >= dy);
        }
    }
    assert(dx * (1 + (b + 1)) == dx * (1 + b) + dx) by (nonlinear_arith);
    assert(dy * (1 + (a + 1)) == dy * (1 + a) + dy) by (nonlinear_arith);
}

/// The offsets from `(a, b)` on start at `(a, b)`, end at `(dx, dy)`, and
/// move by at most one along each axis at each step, never backwards.
pub proof fn lemma_line_offsets(dx: int, dy: int, a: int, b: int, fuel: nat)
    requires
        0 <= a <= dx,
        0 <= b <= dy,
        fuel >= (dx - a) + (dy - b),
        -2 * dy <= dx * (1 + b) - dy * (1 + a) <= 2 * dx,
    ensures
        ({
            let s = line_offsets(dx, dy, a, b, fuel);
            &&& s.len() >= 1
            &&& s[0] == (a, b)
            &&& s.last() == (dx, dy)
            &&& forall|i: int|
                0 <= i < s.len() ==> a <= (#[trigger] s[i]).0 <= dx && b <= s[i].1 <= dy
            &&& forall|i: int|
                0 <= i < s.len() - 1 ==> {
                    let p = #[trigger] s[i];
                    let q = s[i + 1];
                    &&& p.0 <= q.0 <= p.0 + 1
                    &&& p.1 <= q.1 <= p.1 + 1
                    &&& p != q
                }
        }),
    decreases fuel,
{
    let s = line_offsets(dx, dy, a, b, fuel);
    if fuel == 0 || (a == dx && b == dy) {
    } else {
        lemma_line_step(dx, dy, a, b);
        let st = line_step(dx, dy, a, b);
        lemma_line_offsets(dx, dy, st.0, st.1, (fuel - 1) as nat);
        let rest = line_offsets(dx, dy, st.0, st.1, (fuel - 1) as nat);
        assert(s == seq![(a, b)] + rest);
        assert forall|i: int| 0 <= i < s.len() - 1 implies {
            let p = #[trigger] s[i];
            let q = s[i + 1];
            &&& p.0 <= q.0 <= p.0 + 1
            &&& p.1 <= q.1 <= p.1 + 1
            &&& p != q
        } by {
            if i > 0 {
                assert(s[i] == rest[i - 1]);
                assert(s[i + 1] == rest[i]);
            }
        }
        assert forall|i: int| 0 <= i < s.len() implies a <= (#[trigger] s[i]).0 <= dx && b <= s[i].1
            <= dy by {
            if i > 0 {
                assert(s[i] == rest[i - 1]);
            }
        }
    }
}

proof fn lemma_axis(x0: int, x1: int, a: int, d: int, sg: int)
    requires
        d == abs(x1 - x0),
        sg == sign(x1 - x0),
        0 <= a <= d,
    ensures
        x1 == x0 + sg * d,
        (x0 + sg * a == x1) <==> (a == d),
        x0 + sg * (a + 1) == x0 + sg * a + sg,
        a < d ==> (sg == 1 || sg == -1),
        a < d ==> (x0 <= x0 + sg * (a + 1) <= x1 || x1 <= x0 + sg * (a + 1) <= x0),
{
    if sg == 1 {
        assert(sg * a == a && sg * d == d && sg * (a + 1) == a + 1) by (nonlinear_arith)
            requires
                sg == 1,
        ;
    } else if sg == -1 {
        assert(sg * a == -a && sg * d == -d && sg * (a + 1) == -a - 1) by (nonlinear_arith)
            requires
                sg == -1,
        ;
    } else {
        assert(sg * a == 0 && sg * d == 0 && sg * (a + 1) == 0) by (nonlinear_arith)
            requires
                sg == 0,
        ;
    }
}

impl ParkMap {
    /// The columns of the line from `(x0, y0)` to `(x1, y1)` (Bresenham), both
    /// ends included.
    pub fn bresenham_line(x0: i32, y0: i32, x1: i32, y1: i32) -> (r: Vec<(i32, i32)>)
        requires
            line_fits(x0, y0, x1, y1),
        ensures
            r@ == spec_line(x0, y0, x1, y1),
    {
        let ddx: i64 = x1 as i64 - x0 as i64;
        let ddy: i64 = y1 as i64 - y0 as i64;
        let dx: i64 = if ddx < 0 { -ddx } else { ddx };
        let dy: i64 = if ddy < 0 { -ddy } else { ddy };
        let sx: i32 = if ddx > 0 { 1 } else if ddx < 0 { -1 } else { 0 };
        let sy: i32 = if ddy > 0 { 1 } else if ddy < 0 { -1 } else { 0 };
        let ghost pt = |o: (int, int)| ((x0 + sx * o.0) as i32, (y0 + sy * o.1) as i32);
        let ghost whole = line_offsets(dx as int, dy as int, 0, 0, (dx + dy) as nat);
        let mut points: Vec<(i32, i32)> = Vec::new();
        let mut x = x0;
        let mut y = y0;
        let mut err: i64 = dx - dy;
        let ghost mut a: int = 0;
        let ghost mut b: int = 0;
        let ghost mut fuel: nat = (dx + dy) as nat;
        let ghost mut emitted: Seq<(int, int)> = Seq::empty();
        proof {
            assert(dx * (1 + 0int) - dy * (1 + 0int) == dx - dy) by (nonlinear_arith);
            assert(whole == emitted + line_offsets(dx as int, dy as int, a, b, fuel));
        }
        loop
            invariant_except_break
                whole == emitted + line_offsets(dx as int, dy as int, a, b, fuel),
            invariant
                dx == abs(x1 - x0),
                dy == abs(y1 - y0),
                sx == sign(x1 - x0),
                sy == sign(y1 - y0),
                dx < 0x1_0000_0000,
                dy < 0x1_0000_0000,
                0 <= a <= dx,
                0 <= b <= dy,
                fuel >= (dx - a) + (dy - b),
                x == x0 + sx * a,
                y == y0 + sy * b,
                err == dx * (1 + b) - dy * (1 + a),
                -2 * dy <= err <= 2 * dx,
                pt == (|o: (int, int)| ((x0 + sx * o.0) as i32, (y0 + sy * o.1) as i32)),
                points@ == emitted.map_values(pt),
            ensures
                whole == emitted,
                points@ == emitted.map_values(pt),
            decreases (dx - a) + (dy - b),
        {
            proof {
                lemma_axis(x0 as int, x1 as int, a, dx as int, sx as int);
                lemma_axis(y0 as int, y1 as int, b, dy as int, sy as int);
            }
            points.push((x, y));
            proof {
                assert(pt((a, b)) == (x, y));
                let old_emitted = emitted;
                emitted = emitted.push((a, b));
                assert(points@ =~= emitted.map_values(pt));
                if !(a == dx && b == dy) {
                    assert(fuel > 0);
                    let st = line_step(dx as int, dy as int, a, b);
                    assert(line_offsets(dx as int, dy as int, a, b, fuel) == seq![(a, b)] + line_offsets(
                        dx as int,
                        dy as int,
                        st.0,
                        st.1,
                        (fuel - 1) as nat,
                    ));
                    assert(whole =~= emitted + line_offsets(dx as int, dy as int, st.0, st.1, (fuel - 1) as nat));
                } else {
                    assert(line_offsets(dx as int, dy as int, a, b, fuel) == seq![(a, b)]);
                    assert(whole =~= emitted);
                }
            }
            if x == x1 && y == y1 {
                break;
            }
            proof {
                lemma_line_step(dx as int, dy as int, a, b);
            }
            let ghost st = line_step(dx as int, dy as int, a, b);
            let e2 = 2 * err;
            if e2 >= -dy {
                proof {
                    assert(st.0 == a + 1);
                }
                err -= dy;
                x += sx;
            }
            if e2 <= dx {
                proof {
                    assert(st.1 == b + 1);
                }
                err += dx;
                y += sy;
            }
            proof {
                assert(dx * (1 + (b + 1)) == dx * (1 + b) + dx) by (nonlinear_arith);
                assert(dy * (1 + (a + 1)) == dy * (1 + a) + dy) by (nonlinear_arith);
                a = st.0;
                b = st.1;
                fuel = (fuel - 1) as nat;
            }
        }
        proof {
            assert(points@ =~= whole.map_values(pt));
        }
        points
    }
}

/// The line from `(x0, y0)` to `(x1, y1)` starts at `(x0, y0)`, ends at
/// `(x1, y1)`, stays within the rectangle of its two ends, and moves to one
/// of the eight neighbouring columns at every step.
pub proof fn lemma_line_shape(x0: i32, y0: i32, x1: i32, y1: i32)
    requires
        line_fits(x0, y0, x1, y1),
    ensures
        ({
            let l = spec_line(x0, y0, x1, y1);
            &&& l.len() >= 1
            &&& l[0] == (x0, y0)
            &&& l.last() == (x1, y1)
            &&& forall|i: int|
                0 <= i < l.len() ==> {
                    &&& (x0 <= (#[trigger] l[i]).0 <= x1 || x1 <= l[i].0 <= x0)
                    &&& (y0 <= l[i].1 <= y1 || y1 <= l[i].1 <= y0)
                }
            &&& forall|i: int|
                0 <= i < l.len() - 1 ==> {
                    let p = #[trigger] l[i];
                    let q = l[i + 1];
                    &&& -1 <= q.0 - p.0 <= 1
                    &&& -1 <= q.1 - p.1 <= 1
                    &&& p != q
                }
        }),
{
    let dx = abs(x1 - x0);
    let dy = abs(y1 - y0);
    let sx = sign(x1 - x0);
    let sy = sign(y1 - y0);
    let pt = |o: (int, int)| ((x0 + sx * o.0) as i32, (y0 + sy * o.1) as i32);
    let whole = line_offsets(dx, dy, 0, 0, (dx + dy) as nat);
    assert(dx * (1 + 0int) - dy * (1 + 0int) == dx - dy) by (nonlinear_arith);
    lemma_line_offsets(dx, dy, 0, 0, (dx + dy) as nat);
    let l = spec_line(x0, y0, x1, y1);
    assert(l == whole.map_values(pt));
    lemma_axis(x0 as int, x1 as int, 0, dx, sx);
    lemma_axis(y0 as int, y1 as int, 0, dy, sy);
    assert forall|i: int| 0 <= i < l.len() implies {
        &&& (x0 <= (#[trigger] l[i]).0 <= x1 || x1 <= l[i].0 <= x0)
        &&& (y0 <= l[i].1 <= y1 || y1 <= l[i].1 <= y0)
    } by {
        let o = whole[i];
        lemma_axis_point(x0 as int, x1 as int, o.0, dx, sx);
        lemma_axis_point(y0 as int, y1 as int, o.1, dy, sy);
    }
    assert forall|i: int| 0 <= i < l.len() - 1 implies {
        let p = #[trigger] l[i];
        let q = l[i + 1];
        &&& -1 <= q.0 - p.0 <= 1
        &&& -1 <= q.1 - p.1 <= 1
        &&& p != q
    } by {
        let o = whole[i];
        let o2 = whole[i + 1];
        lemma_axis_point(x0 as int, x1 as int, o.0, dx, sx);
        lemma_axis_point(y0 as int, y1 as int, o.1, dy, sy);
        lemma_axis_point(x0 as int, x1 as int, o2.0, dx, sx);
        lemma_axis_point(y0 as int, y1 as int, o2.1, dy, sy);
    }
}

proof fn lemma_axis_point(x0: int, x1: int, a: int, d: int, sg: int)
    requires
        d == abs(x1 - x0),
        sg == sign(x1 - x0),
        0 <= a <= d,
    ensures
        x0 <= x0 + sg * a <= x1 || x1 <= x0 + sg * a <= x0,
        x0 + sg * (a + 1) == x0 + sg * a + sg,
        sg == 1 || sg == -1 || (sg == 0 && d == 0),
        sg != 0 ==> (x0 + sg * a == x0 + sg * (a + 1) - sg),
{
    if sg == 1 {
        assert(sg * a == a && sg * (a + 1) == a + 1) by (nonlinear_arith)
            requires
                sg == 1,
        ;
    } else if sg == -1 {
        assert(sg * a == -a && sg * (a + 1) == -a - 1) by (nonlinear_arith)
            requires
                sg == -1,
        ;
    } else {
        assert(sg * a == 0 && sg * (a + 1) == 0) by (nonlinear_arith)
            requires
                sg == 0,
        ;
    }
}

} // verus!
