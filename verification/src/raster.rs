//! The cells of a straight line on the character grid, by Bresenham's walk: the graph
//! draws its edges with it.
use vstd::prelude::*;

verus! {

/// The absolute value.
pub open spec fn abs(v: int) -> int {
    if v < 0 {
        -v
    } else {
        v
    }
}

/// The direction of a step from `a` toward `b` (-1 when they are equal).
pub open spec fn step_dir(a: int, b: int) -> int {
    if a < b {
        1
    } else {
        -1
    }
}

/// The walk from `(x, y)` with error term `err` toward `(x1, y1)`: the cell, then, unless
/// it is the end, a step along x when twice the error is at least `dy`, along y when it
/// is at most `dx` (both may happen), with at most `fuel` cells.
pub open spec fn walk(x: int, y: int, err: int, x1: int, y1: int, dx: int, dy: int, sx: int, sy: int, fuel: nat) -> Seq<(int, int)>
    decreases fuel,
{
    if fuel == 0 {
        seq![]
    } else if x == x1 && y == y1 {
        seq![(x, y)]
    } else {
        let e2 = 2 * err;
        let err1 = if e2 >= dy {
            err + dy
        } else {
            err
        };
        let nx = if e2 >= dy {
            x + sx
        } else {
            x
        };
        let err2 = if e2 <= dx {
            err1 + dx
        } else {
            err1
        };
        let ny = if e2 <= dx {
            y + sy
        } else {
            y
        };
        seq![(x, y)] + walk(nx, ny, err2, x1, y1, dx, dy, sx, sy, (fuel - 1) as nat)
    }
}

/// The cells of the line from `(x0, y0)` to `(x1, y1)`.
pub open spec fn line_cells(x0: int, y0: int, x1: int, y1: int) -> Seq<(int, int)> {
    let dx = abs(x1 - x0);
    let dy = -abs(y1 - y0);
    walk(x0, y0, dx + dy, x1, y1, dx, dy, step_dir(x0, x1), step_dir(y0, y1), (dx - dy + 1) as nat)
}

/// Two cells touch, by a side or a corner, or are the same.
pub open spec fn touching(p: (int, int), q: (int, int)) -> bool {
    abs(p.0 - q.0) <= 1 && abs(p.1 - q.1) <= 1
}

/// The coordinate `a` steps from `x0` toward `x1`.
pub open spec fn at(x0: int, x1: int, a: int) -> int {
    x0 + step_dir(x0, x1) * a
}

proof fn lemma_at(x0: int, x1: int, a: int)
    ensures
        at(x0, x1, a) == if x0 < x1 { x0 + a } else { x0 - a },
        at(x0, x1, a + 1) == at(x0, x1, a) + step_dir(x0, x1),
        x0 < x1 ==> x1 == x0 + abs(x1 - x0),
        x0 >= x1 ==> x1 == x0 - abs(x1 - x0),
{
    if x0 < x1 {
        assert(step_dir(x0, x1) * a == a) by (nonlinear_arith)
            requires
                step_dir(x0, x1) == 1,
        ;
        assert(step_dir(x0, x1) * (a + 1) == a + 1) by (nonlinear_arith)
            requires
                step_dir(x0, x1) == 1,
        ;
    } else {
        assert(step_dir(x0, x1) * a == -a) by (nonlinear_arith)
            requires
                step_dir(x0, x1) == -1,
        ;
        assert(step_dir(x0, x1) * (a + 1) == -a - 1) by (nonlinear_arith)
            requires
                step_dir(x0, x1) == -1,
        ;
    }
}

/// `q` is `p` or one step from it toward the end: along x by `sx` or not at all, along
/// y by `sy` or not at all.
pub open spec fn step_toward(p: (int, int), q: (int, int), sx: int, sy: int) -> bool {
    (q.0 == p.0 || q.0 == p.0 + sx) && (q.1 == p.1 || q.1 == p.1 + sy)
}

/// `v` fits in an `i32`.
pub open spec fn in_i32(v: int) -> bool {
    i32::MIN <= v <= i32::MAX
}

/// Every error term the walk computes (twice the error, and the error after each of
/// its two updates) fits in an `i32`.
pub open spec fn walk_fits(x: int, y: int, err: int, x1: int, y1: int, dx: int, dy: int, sx: int, sy: int, fuel: nat) -> bool
    decreases fuel,
{
    if fuel == 0 || (x == x1 && y == y1) {
        true
    } else {
        let e2 = 2 * err;
        let err1 = if e2 >= dy {
            err + dy
        } else {
            err
        };
        let nx = if e2 >= dy {
            x + sx
        } else {
            x
        };
        let err2 = if e2 <= dx {
            err1 + dx
        } else {
            err1
        };
        let ny = if e2 <= dx {
            y + sy
        } else {
            y
        };
        in_i32(e2) && in_i32(err1) && in_i32(err2) && walk_fits(nx, ny, err2, x1, y1, dx, dy, sx, sy, (fuel - 1) as nat)
    }
}

/// The walk of the line from `(x0, y0)` to `(x1, y1)` can be done in `i32`: both spans
/// fit, and so does every error term along the way.
pub open spec fn line_fits(x0: int, y0: int, x1: int, y1: int) -> bool {
    let dx = abs(x1 - x0);
    let dy = -abs(y1 - y0);
    &&& dx <= i32::MAX
    &&& -dy <= i32::MAX
    &&& walk_fits(x0, y0, dx + dy, x1, y1, dx, dy, step_dir(x0, x1), step_dir(y0, y1), (dx - dy + 1) as nat)
}

/// The offset `d` of a walk from the ideal line stays within half the longer span.
pub open spec fn offset_ok(d: int, dx: int, bb: int) -> bool {
    if dx >= bb {
        -dx <= 2 * d <= dx
    } else {
        -bb <= 2 * d <= bb
    }
}

/// A walk that has gone `a` steps along x (of `dx`) and `b` along y (of `-dy`), with
/// `d` its offset from the ideal line, reaches the end: it starts where it stands, ends
/// at `(x1, y1)`, each cell is one step from the last toward the end, it has one cell
/// per remaining step along the longer span and one more, and, for spans within a third
/// of `i32::MAX`, its error terms fit in an `i32`.
proof fn lemma_walk_reaches(x0: int, y0: int, x1: int, y1: int, a: int, b: int, d: int, fuel: nat)
    requires
        0 <= a <= abs(x1 - x0),
        0 <= b <= abs(y1 - y0),
        d == b * abs(x1 - x0) - a * abs(y1 - y0),
        offset_ok(d, abs(x1 - x0), abs(y1 - y0)),
        fuel >= (abs(x1 - x0) - a) + (abs(y1 - y0) - b) + 1,
    ensures
        ({
            let dx = abs(x1 - x0);
            let bb = abs(y1 - y0);
            let w = walk(
                at(x0, x1, a),
                at(y0, y1, b),
                dx - bb + d,
                x1,
                y1,
                dx,
                -bb,
                step_dir(x0, x1),
                step_dir(y0, y1),
                fuel,
            );
            &&& w.len() == (if dx >= bb { dx - a } else { bb - b }) + 1
            &&& w[0] == (at(x0, x1, a), at(y0, y1, b))
            &&& w.last() == (x1, y1)
            &&& forall|i: int| 0 <= i < w.len() - 1 ==> touching(#[trigger] w[i], w[i + 1])
            &&& forall|i: int| 0 <= i < w.len() - 1 ==> step_toward(#[trigger] w[i], w[i + 1], step_dir(x0, x1), step_dir(y0, y1))
            &&& (dx <= 715_827_882 && bb <= 715_827_882 ==> walk_fits(
                at(x0, x1, a),
                at(y0, y1, b),
                dx - bb + d,
                x1,
                y1,
                dx,
                -bb,
                step_dir(x0, x1),
                step_dir(y0, y1),
                fuel,
            ))
        }),
    decreases fuel,
{
    let dx = abs(x1 - x0);
    let bb = abs(y1 - y0);
    let sx = step_dir(x0, x1);
    let sy = step_dir(y0, y1);
    let x = at(x0, x1, a);
    let y = at(y0, y1, b);
    let err = dx - bb + d;
    lemma_at(x0, x1, a);
    lemma_at(y0, y1, b);
    let w = walk(x, y, err, x1, y1, dx, -bb, sx, sy, fuel);
    if x == x1 && y == y1 {
        assert(w =~= seq![(x, y)]);
        assert(a == dx && b == bb);
    } else {
        let e2 = 2 * err;
        let xs = e2 >= -bb;
        let ys = e2 <= dx;
        // the walk never passes the end along either axis
        if a == dx && b < bb {
            assert(d <= -dx) by (nonlinear_arith)
                requires
                    d == b * dx - a * bb,
                    a == dx,
                    b < bb,
                    dx >= 0,
            ;
        }
        if b == bb && a < dx {
            assert(d >= bb) by (nonlinear_arith)
                requires
                    d == b * dx - a * bb,
                    b == bb,
                    a < dx,
                    bb >= 0,
            ;
        }
        assert(xs ==> a < dx);
        assert(ys ==> b < bb);
        assert(xs || ys);
        // along the longer span every step advances
        assert(dx >= bb ==> xs);
        assert(dx < bb ==> ys);
        let na = if xs { a + 1 } else { a };
        let nb = if ys { b + 1 } else { b };
        let nd = d + (if xs { -bb } else { 0 }) + (if ys { dx } else { 0 });
        assert(nd == nb * dx - na * bb) by (nonlinear_arith)
            requires
                d == b * dx - a * bb,
                na == if xs { a + 1 } else { a },
                nb == if ys { b + 1 } else { b },
                nd == d + (if xs { -bb } else { 0 }) + (if ys { dx } else { 0 }),
        ;
        assert(offset_ok(nd, dx, bb));
        lemma_at(x0, x1, na);
        lemma_at(y0, y1, nb);
        lemma_walk_reaches(x0, y0, x1, y1, na, nb, nd, (fuel - 1) as nat);
        let rest = walk(at(x0, x1, na), at(y0, y1, nb), dx - bb + nd, x1, y1, dx, -bb, sx, sy, (fuel - 1) as nat);
        assert(w == seq![(x, y)] + rest);
        assert forall|i: int| 0 <= i < w.len() - 1 implies touching(#[trigger] w[i], w[i + 1]) by {
            if i == 0 {
                assert(w[1] == rest[0]);
            } else {
                assert(w[i] == rest[i - 1]);
                assert(w[i + 1] == rest[i]);
            }
        }
        assert forall|i: int| 0 <= i < w.len() - 1 implies step_toward(#[trigger] w[i], w[i + 1], sx, sy) by {
            if i == 0 {
                assert(w[1] == rest[0]);
            } else {
                assert(w[i] == rest[i - 1]);
                assert(w[i + 1] == rest[i]);
            }
        }
    }
}

/// The line from `(x0, y0)` to `(x1, y1)` starts at the first point, ends at the
/// second, has one cell more than the longer of its two spans, and each of its cells
/// touches the next and is one step from it toward the end (along x, along y, or both).
pub proof fn lemma_line_cells(x0: int, y0: int, x1: int, y1: int)
    ensures
        line_cells(x0, y0, x1, y1).len() == (if abs(x1 - x0) >= abs(y1 - y0) {
            abs(x1 - x0)
        } else {
            abs(y1 - y0)
        }) + 1,
        line_cells(x0, y0, x1, y1)[0] == (x0, y0),
        line_cells(x0, y0, x1, y1).last() == (x1, y1),
        forall|i: int|
            0 <= i < line_cells(x0, y0, x1, y1).len() - 1 ==> touching(
                #[trigger] line_cells(x0, y0, x1, y1)[i],
                line_cells(x0, y0, x1, y1)[i + 1],
            ),
        forall|i: int|
            0 <= i < line_cells(x0, y0, x1, y1).len() - 1 ==> step_toward(
                #[trigger] line_cells(x0, y0, x1, y1)[i],
                line_cells(x0, y0, x1, y1)[i + 1],
                step_dir(x0, x1),
                step_dir(y0, y1),
            ),
{
    assert(0 * abs(x1 - x0) - 0 * abs(y1 - y0) == 0) by (nonlinear_arith);
    lemma_walk_reaches(x0, y0, x1, y1, 0, 0, 0, (abs(x1 - x0) + abs(y1 - y0) + 1) as nat);
    lemma_at(x0, x1, 0);
    lemma_at(y0, y1, 0);
}

/// Every line whose spans are at most a third of `i32::MAX` can be walked in `i32`.
pub proof fn lemma_short_lines_fit(x0: i32, y0: i32, x1: i32, y1: i32)
    requires
        abs(x1 - x0) <= 715_827_882,
        abs(y1 - y0) <= 715_827_882,
    ensures
        line_fits(x0 as int, y0 as int, x1 as int, y1 as int),
{
    assert(0 * abs(x1 - x0) - 0 * abs(y1 - y0) == 0) by (nonlinear_arith);
    lemma_walk_reaches(x0 as int, y0 as int, x1 as int, y1 as int, 0, 0, 0, (abs(x1 - x0) + abs(y1 - y0) + 1) as nat);
    lemma_at(x0 as int, x1 as int, 0);
    lemma_at(y0 as int, y1 as int, 0);
}

/// Cells as pairs of integers.
pub open spec fn cells_view(v: Seq<(i32, i32)>) -> Seq<(int, int)> {
    v.map_values(|c: (i32, i32)| (c.0 as int, c.1 as int))
}

/// The cells of the line from `(x0, y0)` to `(x1, y1)`, in order (unclipped). The walk
/// works in `i32`, so its spans and error terms must fit there (`line_fits`; spans of at
/// most a third of `i32::MAX` always do, see `lemma_short_lines_fit`).
pub fn bresenham(x0: i32, y0: i32, x1: i32, y1: i32) -> (r: Vec<(i32, i32)>)
    requires
        line_fits(x0 as int, y0 as int, x1 as int, y1 as int),
    ensures
        cells_view(r@) == line_cells(x0 as int, y0 as int, x1 as int, y1 as int),
{
    let dx: i32 = if x1 >= x0 { x1 - x0 } else { x0 - x1 };
    let dy: i32 = -(if y1 >= y0 { y1 - y0 } else { y0 - y1 });
    let sx: i32 = if x0 < x1 { 1 } else { -1 };
    let sy: i32 = if y0 < y1 { 1 } else { -1 };
    let mut err: i32 = dx + dy;
    let mut x: i32 = x0;
    let mut y: i32 = y0;
    let mut out: Vec<(i32, i32)> = Vec::new();
    let ghost bb: int = -dy;
    let ghost total = line_cells(x0 as int, y0 as int, x1 as int, y1 as int);
    let ghost mut a: int = 0;
    let ghost mut b: int = 0;
    let ghost mut d: int = 0;
    let ghost mut fuel: nat = (dx - dy + 1) as nat;
    proof {
        lemma_at(x0 as int, x1 as int, 0);
        lemma_at(y0 as int, y1 as int, 0);
        assert(0 * (dx as int) - 0 * bb == 0) by (nonlinear_arith);
        assert(cells_view(out@) =~= seq![]);
        assert(total =~= cells_view(out@) + walk(x as int, y as int, err as int, x1 as int, y1 as int, dx as int, dy as int, sx as int, sy as int, fuel));
    }
    loop
        invariant_except_break
            dx == abs(x1 - x0),
            bb == abs(y1 - y0),
            dy == -bb,
            dx <= i32::MAX,
            bb <= i32::MAX,
            sx == step_dir(x0 as int, x1 as int),
            sy == step_dir(y0 as int, y1 as int),
            0 <= a <= dx,
            0 <= b <= bb,
            d == b * dx - a * bb,
            walk_fits(x as int, y as int, err as int, x1 as int, y1 as int, dx as int, dy as int, sx as int, sy as int, fuel),
            x == at(x0 as int, x1 as int, a),
            y == at(y0 as int, y1 as int, b),
            err == dx - bb + d,
            fuel >= (dx - a) + (bb - b) + 1,
            total == cells_view(out@) + walk(x as int, y as int, err as int, x1 as int, y1 as int, dx as int, dy as int, sx as int, sy as int, fuel),
        ensures
            cells_view(out@) == total,
        decreases (dx - a) + (bb - b),
    {
        proof {
            lemma_at(x0 as int, x1 as int, a);
            lemma_at(y0 as int, y1 as int, b);
        }
        let ghost w = walk(x as int, y as int, err as int, x1 as int, y1 as int, dx as int, dy as int, sx as int, sy as int, fuel);
        let ghost prev = out@;
        out.push((x, y));
        assert(cells_view(out@) =~= cells_view(prev).push((x as int, y as int)));
        if x == x1 && y == y1 {
            assert(w =~= seq![(x as int, y as int)]);
            assert(cells_view(out@) =~= total);
            break;
        }
        let e2: i32 = 2 * err;
        let xs = e2 >= dy;
        let ys = e2 <= dx;
        proof {
            if a == dx && b < bb {
                assert(d <= -dx) by (nonlinear_arith)
                    requires
                        d == b * dx - a * bb,
                        a == dx,
                        b < bb,
                        dx >= 0,
                ;
            }
            if b == bb && a < dx {
                assert(d >= bb) by (nonlinear_arith)
                    requires
                        d == b * dx - a * bb,
                        b == bb,
                        a < dx,
                        bb >= 0,
                ;
            }
        }
        if xs {
            err = err + dy;
            x = x + sx;
        }
        if ys {
            err = err + dx;
            y = y + sy;
        }
        proof {
            let na = if xs { a + 1 } else { a };
            let nb = if ys { b + 1 } else { b };
            let nd = d + (if xs { -bb } else { 0 }) + (if ys { dx as int } else { 0 });
            assert(nd == nb * dx - na * bb) by (nonlinear_arith)
                requires
                    d == b * dx - a * bb,
                    na == if xs { a + 1 } else { a },
                    nb == if ys { b + 1 } else { b },
                    nd == d + (if xs { -bb } else { 0 }) + (if ys { dx as int } else { 0 }),
            ;
            a = na;
            b = nb;
            d = nd;
            fuel = (fuel - 1) as nat;
        }
    }
    out
}

} // verus!
