//! The painting canvas: lines, flood fills, and what a click or a drag on
//! the canvas does to the editor state.

use crate::element::{Action, Value};
use crate::event::{Event, EventView, Keycode};
use crate::geometry::{clamp_position, clamp_size, clamped_mul, offset_coord, trunc_div, Point, Rect, RectView};
use crate::image::{Color, Image, ImageView};
use crate::state::{EditorState, StateView, Tool};
use crate::util::{floor_mod, modulo};
use vstd::prelude::*;

verus! {

/// How far the minor coordinate has moved after `k` steps along the major
/// one, for a line that rises `dy` over a run of `dx`: `ceil((k * dy - dx / 2) / dx)`.
pub open spec fn bres_rise(k: int, dx: int, dy: int) -> int {
    if dx == 0 {
        0
    } else {
        (k * dy + dx - 1 - dx / 2) / dx
    }
}

pub open spec fn abs(v: int) -> int {
    if v < 0 { -v } else { v }
}

/// The points of a line going forward along its major axis.
pub open spec fn forward_line(p1: int, q1: int, dx: int, dy: int, step: int, steep: bool) -> Seq<(int, int)> {
    Seq::new(
        (dx + 1) as nat,
        |k: int|
            {
                let a = p1 + k;
                let b = q1 + step * bres_rise(k, dx, dy);
                if steep { (b, a) } else { (a, b) }
            },
    )
}

/// The points of the line from `(x1, y1)` to `(x2, y2)` by Bresenham's
/// algorithm: one point per step along the longer axis (the major axis), from
/// the first end to the second, the minor coordinate rounded to the nearest
/// with halves rounded toward the end with the lower major coordinate.
pub open spec fn bresenham(x1: int, y1: int, x2: int, y2: int) -> Seq<(int, int)> {
    let steep = abs(y2 - y1) > abs(x2 - x1);
    let a1 = if steep { y1 } else { x1 };
    let b1 = if steep { x1 } else { y1 };
    let a2 = if steep { y2 } else { x2 };
    let b2 = if steep { x2 } else { y2 };
    let reversed = a1 > a2;
    let p1 = if reversed { a2 } else { a1 };
    let q1 = if reversed { b2 } else { b1 };
    let p2 = if reversed { a1 } else { a2 };
    let q2 = if reversed { b1 } else { b2 };
    let forward = forward_line(p1, q1, p2 - p1, abs(q2 - q1), if q1 < q2 { 1int } else { -1int }, steep);
    if reversed { forward.reverse() } else { forward }
}

/// The rise after `k` steps is what the error term of the algorithm keeps
/// track of: the unique `m` with `0 <= dx / 2 - k * dy + m * dx < dx`.
proof fn lemma_bres_rise(k: int, dx: int, dy: int, m: int)
    requires
        dx > 0,
        0 <= dx / 2 - k * dy + m * dx < dx,
    ensures
        bres_rise(k, dx, dy) == m,
{
    let n = k * dy + dx - 1 - dx / 2;
    let r = n - m * dx;
    assert(0 <= r < dx);
    assert(n == m * dx + r);
    vstd::arithmetic::div_mod::lemma_fundamental_div_mod_converse(n, dx, m, r);
}

/// The absolute value of `v`.
fn abs_i64(v: i64) -> (r: i64)
    requires
        v > i64::MIN,
    ensures
        r == abs(v as int),
{
    if v < 0 { -v } else { v }
}

/// The points of the line from `(x1, y1)` to `(x2, y2)`, both ends included,
/// by Bresenham's algorithm.
pub fn bresenham_points(x1: u32, y1: u32, x2: u32, y2: u32) -> (points: Vec<(u32, u32)>)
    requires
        x1 <= i32::MAX,
        y1 <= i32::MAX,
        x2 <= i32::MAX,
        y2 <= i32::MAX,
    ensures
        points@.map_values(|p: (u32, u32)| (p.0 as int, p.1 as int)) == bresenham(x1 as int, y1 as int, x2 as int, y2 as int),
{
    let (x1, y1, x2, y2) = (x1 as i64, y1 as i64, x2 as i64, y2 as i64);
    let dx = abs_i64(x2 - x1);
    let dy = abs_i64(y2 - y1);
    let steep = dy > dx;
    let (dx, dy, x1, y1, x2, y2) = if steep { (dy, dx, y1, x1, y2, x2) } else { (dx, dy, x1, y1, x2, y2) };
    let reversed = x1 > x2;
    let (x1, y1, x2, y2) = if reversed { (x2, y2, x1, y1) } else { (x1, y1, x2, y2) };
    let y_step: i64 = if y1 < y2 { 1 } else { -1 };
    let ghost forward = forward_line(x1 as int, y1 as int, dx as int, dy as int, y_step as int, steep);
    let mut x = x1;
    let mut y = y1;
    let mut err = dx / 2;
    let ghost mut m: int = 0;
    let mut output: Vec<(u32, u32)> = Vec::new();
    while x <= x2
        invariant
            0 <= x1 <= x2 <= i32::MAX,
            0 <= y1 <= i32::MAX,
            0 <= y2 <= i32::MAX,
            dx == x2 - x1,
            dy == abs(y2 - y1),
            dy <= dx,
            y_step == (if y1 < y2 { 1int } else { -1int }),
            x1 <= x <= x2 + 1,
            dx > 0 ==> 0 <= err < dx,
            dx == 0 ==> err == 0,
            err == dx / 2 - (x - x1) * dy + m * dx,
            y == y1 + y_step * m,
            0 <= m,
            dx == 0 ==> m == 0,
            forward == forward_line(x1 as int, y1 as int, dx as int, dy as int, y_step as int, steep),
            output@.len() == x - x1,
            output@.map_values(|p: (u32, u32)| (p.0 as int, p.1 as int)) == forward.subrange(0, x - x1),
        decreases x2 + 1 - x,
    {
        let ghost k: int = x - x1;
        let ghost err0: int = err as int;
        let ghost m0: int = m;
        proof {
            if dx > 0 {
                lemma_bres_rise(k, dx as int, dy as int, m);
                assert(m <= dy) by (nonlinear_arith)
                    requires
                        err == dx / 2 - k * dy + m * dx,
                        err < dx,
                        0 <= k <= dx,
                        dx > 0,
                        dy >= 0,
                ;
            } else {
                assert(k == 0);
                assert(m * dx == 0) by (nonlinear_arith)
                    requires
                        dx == 0,
                ;
            }
            assert(0 <= y <= i32::MAX) by (nonlinear_arith)
                requires
                    y == y1 + y_step * m,
                    0 <= m <= dy,
                    dy == abs(y2 - y1),
                    y_step == (if y1 < y2 { 1int } else { -1int }),
                    0 <= y1 <= i32::MAX,
                    0 <= y2 <= i32::MAX,
            ;
        }
        output.push(if steep { (y as u32, x as u32) } else { (x as u32, y as u32) });
        assert(output@.map_values(|p: (u32, u32)| (p.0 as int, p.1 as int)) =~= forward.subrange(0, x - x1 + 1));
        x += 1;
        err -= dy;
        if err < 0 {
            y += y_step;
            err += dx;
            assert(y == y1 + y_step * m0 + y_step);
            proof {
                m = m + 1;
            }
        }
        proof {
            assert(x - x1 == k + 1);
            assert(y == y1 + y_step * m) by (nonlinear_arith)
                requires
                    y == y1 + y_step * m0 + (if m == m0 { 0 } else { y_step as int }),
                    m == m0 || m == m0 + 1,
            ;
            assert(err == dx / 2 - (x - x1) * dy + m * dx) by (nonlinear_arith)
                requires
                    err0 == dx / 2 - k * dy + m0 * dx,
                    x - x1 == k + 1,
                    (m == m0 && err == err0 - dy) || (m == m0 + 1 && err == err0 - dy + dx),
            ;
        }
    }
    assert(forward.subrange(0, dx + 1) =~= forward);
    if reversed {
        let mut reversed_output: Vec<(u32, u32)> = Vec::new();
        let n = output.len();
        let ghost fwd = output@.map_values(|p: (u32, u32)| (p.0 as int, p.1 as int));
        for i in 0..n
            invariant
                n == output@.len(),
                fwd == output@.map_values(|p: (u32, u32)| (p.0 as int, p.1 as int)),
                reversed_output@.len() == i,
                reversed_output@.map_values(|p: (u32, u32)| (p.0 as int, p.1 as int)) == fwd.reverse().subrange(0, i as int),
        {
            assert(fwd.reverse()[i as int] == fwd[n - 1 - i]);
            assert(fwd[n - 1 - i] == (output@[n - 1 - i].0 as int, output@[n - 1 - i].1 as int));
            let ghost before = reversed_output@;
            reversed_output.push(output[n - 1 - i]);
            proof {
                let now = reversed_output@.map_values(|p: (u32, u32)| (p.0 as int, p.1 as int));
                let want = fwd.reverse().subrange(0, i + 1);
                assert forall|j: int| 0 <= j <= i implies now[j] == want[j] by {
                    if j < i {
                        assert(reversed_output@[j] == before[j]);
                        assert(before.map_values(|p: (u32, u32)| (p.0 as int, p.1 as int))[j] == fwd.reverse().subrange(0, i as int)[j]);
                    }
                }
                assert(now =~= want);
            }
        }
        assert(fwd.reverse().subrange(0, n as int) =~= fwd.reverse());
        reversed_output
    } else {
        output
    }
}

} // verus!

verus! {

/// The rise starts at zero and ends at `dy`, and grows by at most one a step.
proof fn lemma_bres_rise_range(k: int, dx: int, dy: int)
    requires
        0 <= dy <= dx,
        0 <= k < dx,
    ensures
        bres_rise(0, dx, dy) == 0,
        bres_rise(dx, dx, dy) == dy,
        0 <= bres_rise(k + 1, dx, dy) - bres_rise(k, dx, dy) <= 1,
{
    let c = dx - 1 - dx / 2;
    assert(0 <= c < dx);
    vstd::arithmetic::div_mod::lemma_fundamental_div_mod_converse(c, dx, 0, c);
    assert(0 * dy + c == c);
    assert(dx * dy + c == dy * dx + c) by (nonlinear_arith);
    vstd::arithmetic::div_mod::lemma_fundamental_div_mod_converse(dx * dy + c, dx, dy, c);
    let n = k * dy + c;
    let n2 = (k + 1) * dy + c;
    assert(n2 == n + dy) by (nonlinear_arith)
        requires
            n == k * dy + c,
            n2 == (k + 1) * dy + c,
    ;
    assert(n >= 0) by (nonlinear_arith)
        requires
            n == k * dy + c,
            k >= 0,
            dy >= 0,
            c >= 0,
    ;
    vstd::arithmetic::div_mod::lemma_fundamental_div_mod(n, dx);
    vstd::arithmetic::div_mod::lemma_mod_bound(n, dx);
    let q = n / dx;
    let r = n % dx;
    if r + dy < dx {
        vstd::arithmetic::div_mod::lemma_fundamental_div_mod_converse(n2, dx, q, r + dy);
    } else {
        assert(n2 == (q + 1) * dx + (r + dy - dx)) by (nonlinear_arith)
            requires
                n == dx * q + r,
                n2 == n + dy,
        ;
        vstd::arithmetic::div_mod::lemma_fundamental_div_mod_converse(n2, dx, q + 1, r + dy - dx);
    }
}

/// Two points touch, sideways or diagonally, or are the same.
pub open spec fn touching(p: (int, int), q: (int, int)) -> bool {
    abs(p.0 - q.0) <= 1 && abs(p.1 - q.1) <= 1
}

proof fn lemma_forward_line(p1: int, q1: int, dx: int, dy: int, step: int, steep: bool)
    requires
        0 <= dy <= dx,
        step == 1 || step == -1,
    ensures
        forall|k: int| 0 <= k < dx ==> touching(
            #[trigger] forward_line(p1, q1, dx, dy, step, steep)[k],
            forward_line(p1, q1, dx, dy, step, steep)[k + 1],
        ),
        forward_line(p1, q1, dx, dy, step, steep)[0] == (if steep { (q1, p1) } else { (p1, q1) }),
        forward_line(p1, q1, dx, dy, step, steep)[dx] == (if steep { (q1 + step * dy, p1 + dx) } else { (p1 + dx, q1 + step * dy) }),
{
    let line = forward_line(p1, q1, dx, dy, step, steep);
    if dx > 0 {
        lemma_bres_rise_range(0, dx, dy);
    }
    assert(line[0] == (if steep { (q1, p1) } else { (p1, q1) }));
    assert(step * bres_rise(dx, dx, dy) == step * dy);
    assert forall|k: int| 0 <= k < dx implies touching(#[trigger] line[k], line[k + 1]) by {
        lemma_bres_rise_range(k, dx, dy);
        let r0 = bres_rise(k, dx, dy);
        let r1 = bres_rise(k + 1, dx, dy);
        assert(-1 <= step * r1 - step * r0 <= 1) by (nonlinear_arith)
            requires
                step == 1 || step == -1,
                0 <= r1 - r0 <= 1,
        ;
    }
}

/// A line starts at its first end and stops at its second, has one point
/// more than the length of its longer axis, and each of its points touches
/// the one before, sideways or diagonally.
#[verifier::spinoff_prover]
#[verifier::rlimit(40)]
pub proof fn lemma_bresenham_shape(x1: int, y1: int, x2: int, y2: int)
    ensures
        bresenham(x1, y1, x2, y2).len() == 1 + (if abs(y2 - y1) > abs(x2 - x1) { abs(y2 - y1) } else { abs(x2 - x1) }),
        bresenham(x1, y1, x2, y2)[0] == (x1, y1),
        bresenham(x1, y1, x2, y2).last() == (x2, y2),
        forall|i: int| 0 < i < bresenham(x1, y1, x2, y2).len() ==> touching(
            #[trigger] bresenham(x1, y1, x2, y2)[i],
            bresenham(x1, y1, x2, y2)[i - 1],
        ),
{
    let steep = abs(y2 - y1) > abs(x2 - x1);
    let a1 = if steep { y1 } else { x1 };
    let b1 = if steep { x1 } else { y1 };
    let a2 = if steep { y2 } else { x2 };
    let b2 = if steep { x2 } else { y2 };
    let reversed = a1 > a2;
    let p1 = if reversed { a2 } else { a1 };
    let q1 = if reversed { b2 } else { b1 };
    let p2 = if reversed { a1 } else { a2 };
    let q2 = if reversed { b1 } else { b2 };
    let dx = p2 - p1;
    let dy = abs(q2 - q1);
    let step = if q1 < q2 { 1int } else { -1int };
    let fwd = forward_line(p1, q1, dx, dy, step, steep);
    lemma_forward_line(p1, q1, dx, dy, step, steep);
    assert(step * dy == q2 - q1);
    let line = bresenham(x1, y1, x2, y2);
    assert(line == if reversed { fwd.reverse() } else { fwd });
    assert forall|i: int| 0 < i < line.len() implies touching(#[trigger] line[i], line[i - 1]) by {
        if reversed {
            assert(line[i] == fwd[dx - i]);
            assert(line[i - 1] == fwd[dx - i + 1]);
            assert(touching(fwd[dx - i], fwd[dx - i + 1]));
        } else {
            assert(touching(fwd[i - 1], fwd[i]));
        }
    }
}

} // verus!

verus! {

/// Two pixels side by side or one above the other.
pub open spec fn adjacent(p: (int, int), q: (int, int)) -> bool {
    abs(p.0 - q.0) + abs(p.1 - q.1) == 1
}

/// A walk over pixels of `color` on `img`, each step to an adjacent pixel.
pub open spec fn is_path(img: ImageView, color: Color, path: Seq<(int, int)>) -> bool {
    &&& path.len() > 0
    &&& forall|i: int| 0 <= i < path.len() ==> img.in_bounds((#[trigger] path[i]).0, path[i].1) && img.at(path[i].0, path[i].1) == color
    &&& forall|i: int| 0 <= i < path.len() - 1 ==> adjacent(#[trigger] path[i], path[i + 1])
}

/// Whether a walk over pixels of the color of `start` leads from `start` to
/// `p`.
pub open spec fn reachable(img: ImageView, start: (int, int), p: (int, int)) -> bool {
    exists|path: Seq<(int, int)>| is_path(img, img.at(start.0, start.1), path) && path[0] == start && path.last() == p
}

/// The image with every pixel reachable from `start` over pixels of its
/// color painted `to`.
pub open spec fn flood_filled(img: ImageView, start: (int, int), to: Color) -> ImageView {
    img.with_pixels(
        img.width,
        img.height,
        |c: int, r: int| if reachable(img, start, (c, r)) { to } else { img.at(c, r) },
    )
}

/// The number of pixels of `color` in a row.
pub open spec fn row_count(row: Seq<Color>, color: Color) -> nat
    decreases row.len(),
{
    if row.len() == 0 {
        0
    } else {
        row_count(row.drop_last(), color) + (if row.last() == color { 1nat } else { 0nat })
    }
}

/// The number of pixels of `color` in a grid.
pub open spec fn grid_count(rows: Seq<Seq<Color>>, color: Color) -> nat
    decreases rows.len(),
{
    if rows.len() == 0 {
        0
    } else {
        grid_count(rows.drop_last(), color) + row_count(rows.last(), color)
    }
}

proof fn lemma_row_count_update(row: Seq<Color>, i: int, x: Color, color: Color)
    requires
        0 <= i < row.len(),
        row[i] == color,
        x != color,
    ensures
        row_count(row.update(i, x), color) + 1 == row_count(row, color),
    decreases row.len(),
{
    let u = row.update(i, x);
    if i == row.len() - 1 {
        assert(u.drop_last() =~= row.drop_last());
    } else {
        assert(u.drop_last() =~= row.drop_last().update(i, x));
        lemma_row_count_update(row.drop_last(), i, x, color);
    }
}

proof fn lemma_grid_count_update(rows: Seq<Seq<Color>>, r: int, c: int, x: Color, color: Color)
    requires
        0 <= r < rows.len(),
        0 <= c < rows[r].len(),
        rows[r][c] == color,
        x != color,
    ensures
        grid_count(rows.update(r, rows[r].update(c, x)), color) + 1 == grid_count(rows, color),
    decreases rows.len(),
{
    let u = rows.update(r, rows[r].update(c, x));
    if r == rows.len() - 1 {
        assert(u.drop_last() =~= rows.drop_last());
        lemma_row_count_update(rows[r], c, x, color);
    } else {
        assert(u.drop_last() =~= rows.drop_last().update(r, rows[r].update(c, x)));
        lemma_grid_count_update(rows.drop_last(), r, c, x, color);
    }
}

/// Painting a pixel of `color` another color leaves one pixel of `color`
/// fewer.
proof fn lemma_count_with_pixel(img: ImageView, c: int, r: int, x: Color, color: Color)
    requires
        img.wf(),
        img.in_bounds(c, r),
        img.at(c, r) == color,
        x != color,
    ensures
        grid_count(img.with_pixel(c, r, x).pixels, color) + 1 == grid_count(img.pixels, color),
{
    assert(img.with_pixel(c, r, x).pixels =~~= img.pixels.update(r, img.pixels[r].update(c, x)));
    lemma_grid_count_update(img.pixels, r, c, x, color);
}

/// A pixel that a walk reaches can be reached through it.
proof fn lemma_reachable_step(img: ImageView, start: (int, int), p: (int, int), n: (int, int))
    requires
        reachable(img, start, p),
        adjacent(p, n),
        img.in_bounds(n.0, n.1),
        img.at(n.0, n.1) == img.at(start.0, start.1),
    ensures
        reachable(img, start, n),
{
    let color = img.at(start.0, start.1);
    let path = choose|path: Seq<(int, int)>| is_path(img, color, path) && path[0] == start && path.last() == p;
    let longer = path.push(n);
    assert(is_path(img, color, longer)) by {
        assert forall|i: int| 0 <= i < longer.len() - 1 implies adjacent(#[trigger] longer[i], longer[i + 1]) by {
            if i < path.len() - 1 {
                assert(longer[i] == path[i] && longer[i + 1] == path[i + 1]);
            }
        }
    }
    assert(longer[0] == start && longer.last() == n);
}

/// Every pixel of a walk from `start` lies in a set that holds `start` and
/// is closed under stepping to an adjacent pixel of the start's color.
proof fn lemma_closed_holds_path(img: ImageView, start: (int, int), s: spec_fn((int, int)) -> bool, path: Seq<(int, int)>, k: int)
    requires
        s(start),
        forall|q: (int, int), n: (int, int)| #[trigger] s(q) && adjacent(q, n) && img.in_bounds(n.0, n.1) && img.at(n.0, n.1) == img.at(start.0, start.1) ==> #[trigger] s(n),
        is_path(img, img.at(start.0, start.1), path),
        path[0] == start,
        0 <= k < path.len(),
    ensures
        s(path[k]),
    decreases k,
{
    if k > 0 {
        lemma_closed_holds_path(img, start, s, path, k - 1);
        assert(adjacent(path[k - 1], path[k]));
        assert(img.in_bounds(path[k].0, path[k].1));
    }
}

/// A set of pixels that holds `start` and every pixel of the start's color
/// next to one of its own holds every pixel reachable from `start`.
proof fn lemma_closed_holds_reachable(img: ImageView, start: (int, int), s: spec_fn((int, int)) -> bool, p: (int, int))
    requires
        s(start),
        forall|q: (int, int), n: (int, int)| #[trigger] s(q) && adjacent(q, n) && img.in_bounds(n.0, n.1) && img.at(n.0, n.1) == img.at(start.0, start.1) ==> #[trigger] s(n),
        reachable(img, start, p),
    ensures
        s(p),
{
    let color = img.at(start.0, start.1);
    let path = choose|path: Seq<(int, int)>| is_path(img, color, path) && path[0] == start && path.last() == p;
    lemma_closed_holds_path(img, start, s, path, path.len() - 1);
}

/// A walk of one pixel reaches its own start.
proof fn lemma_reachable_start(img: ImageView, start: (int, int))
    requires
        img.in_bounds(start.0, start.1),
    ensures
        reachable(img, start, start),
{
    let path = seq![start];
    assert(is_path(img, img.at(start.0, start.1), path));
    assert(path[0] == start && path.last() == start);
}

/// The pixel at `(c, r)` had the color that the fill replaces and now has
/// the new one.
pub open spec fn filled_at(orig: ImageView, cur: ImageView, from: Color, to: Color, c: int, r: int) -> bool {
    orig.in_bounds(c, r) && orig.at(c, r) == from && cur.at(c, r) == to
}

/// Every pixel next to `(c, r)` that had the color the fill replaces has
/// been filled.
pub open spec fn settled(orig: ImageView, cur: ImageView, from: Color, to: Color, c: int, r: int) -> bool {
    &&& (orig.in_bounds(c - 1, r) && orig.at(c - 1, r) == from ==> cur.at(c - 1, r) == to)
    &&& (orig.in_bounds(c + 1, r) && orig.at(c + 1, r) == from ==> cur.at(c + 1, r) == to)
    &&& (orig.in_bounds(c, r - 1) && orig.at(c, r - 1) == from ==> cur.at(c, r - 1) == to)
    &&& (orig.in_bounds(c, r + 1) && orig.at(c, r + 1) == from ==> cur.at(c, r + 1) == to)
}

/// The pixel at `(c, r)` waits on the stack of pixels whose neighbors are
/// still to be looked at.
pub open spec fn on_stack(stack: Seq<(u32, u32)>, c: int, r: int) -> bool {
    exists|i: int| 0 <= i < stack.len() && #[trigger] stack[i] == (c as u32, r as u32) && c == stack[i].0 && r == stack[i].1
}

/// What holds between the steps of a fill from `start` to `to`: only pixels
/// reachable from the start have changed, each to `to`; the stack holds
/// filled pixels; and every filled pixel but `exempt` either waits on the
/// stack or has all its neighbors of the old color filled.
pub open spec fn fill_inv(
    orig: ImageView,
    cur: ImageView,
    start: (int, int),
    to: Color,
    stack: Seq<(u32, u32)>,
    exempt: (int, int),
) -> bool {
    let from = orig.at(start.0, start.1);
    &&& orig.wf()
    &&& cur.wf()
    &&& cur.width == orig.width
    &&& cur.height == orig.height
    &&& cur.tag == orig.tag
    &&& cur.metadata == orig.metadata
    &&& forall|c: int, r: int|
        orig.in_bounds(c, r) ==> (#[trigger] cur.at(c, r) == orig.at(c, r) || (orig.at(c, r) == from
            && cur.at(c, r) == to && reachable(orig, start, (c, r))))
    &&& forall|i: int| 0 <= i < stack.len() ==> filled_at(orig, cur, from, to, (#[trigger] stack[i]).0 as int, stack[i].1 as int)
    &&& forall|c: int, r: int|
        #[trigger] filled_at(orig, cur, from, to, c, r) ==> (c, r) == exempt || settled(orig, cur, from, to, c, r)
            || on_stack(stack, c, r)
}

/// Looks at the pixel at `(col, row)`, next to the filled pixel `q`: if it
/// still has the color that the fill replaces, fills it and puts it on the
/// stack.
fn fill_neighbor(
    image: &mut Image,
    stack: &mut Vec<(u32, u32)>,
    col: u32,
    row: u32,
    from: Color,
    to: Color,
    Ghost(orig): Ghost<ImageView>,
    Ghost(start): Ghost<(int, int)>,
    Ghost(q): Ghost<(int, int)>,
)
    requires
        old(image).wf(),
        fill_inv(orig, old(image)@, start, to, old(stack)@, q),
        from == orig.at(start.0, start.1),
        from != to,
        filled_at(orig, old(image)@, from, to, q.0, q.1),
        adjacent(q, (col as int, row as int)),
        orig.in_bounds(col as int, row as int),
    ensures
        final(image).wf(),
        fill_inv(orig, final(image)@, start, to, final(stack)@, q),
        orig.at(col as int, row as int) == from ==> final(image)@.at(col as int, row as int) == to,
        forall|c: int, r: int| orig.in_bounds(c, r) && old(image)@.at(c, r) == to ==> #[trigger] final(image)@.at(c, r) == to,
        5 * grid_count(final(image)@.pixels, from) + final(stack)@.len() <= 5 * grid_count(old(image)@.pixels, from) + old(stack)@.len(),
{
    let ghost cur = image@;
    if image.get(col, row) == from {
        image.set(col, row, to);
        stack.push((col, row));
        proof {
            let n = (col as int, row as int);
            let next = image@;
            lemma_count_with_pixel(cur, n.0, n.1, to, from);
            assert(reachable(orig, start, q));
            lemma_reachable_step(orig, start, q, n);
            assert forall|c: int, r: int| orig.in_bounds(c, r) implies (#[trigger] next.at(c, r) == orig.at(c, r) || (
            orig.at(c, r) == from && next.at(c, r) == to && reachable(orig, start, (c, r)))) by {
                assert(cur.at(c, r) == orig.at(c, r) || (orig.at(c, r) == from && cur.at(c, r) == to && reachable(orig, start, (c, r))));
            }
            assert forall|i: int| 0 <= i < stack@.len() implies filled_at(orig, next, from, to, (#[trigger] stack@[i]).0 as int, stack@[i].1 as int) by {
                if i < stack@.len() - 1 {
                    assert(stack@[i] == old(stack)@[i]);
                    assert(filled_at(orig, cur, from, to, old(stack)@[i].0 as int, old(stack)@[i].1 as int));
                }
            }
            assert forall|c: int, r: int| #[trigger] filled_at(orig, next, from, to, c, r) implies (c, r) == q || settled(orig, next, from, to, c, r)
                || on_stack(stack@, c, r) by {
                if c == n.0 && r == n.1 {
                    let k = stack@.len() - 1;
                    assert(stack@[k] == (c as u32, r as u32));
                } else {
                    assert(filled_at(orig, cur, from, to, c, r));
                    if on_stack(old(stack)@, c, r) {
                        let i = choose|i: int| 0 <= i < old(stack)@.len() && #[trigger] old(stack)@[i] == (c as u32, r as u32) && c == old(stack)@[i].0 && r == old(stack)@[i].1;
                        assert(stack@[i] == old(stack)@[i]);
                    }
                }
            }
        }
    }
}

/// Fills the region of pixels of one color around `(col, row)` with `to`:
/// each pixel that a walk over that color, step by step to the left, right,
/// up or down, reaches from there.
pub fn flood_fill(image: &mut Image, col: u32, row: u32, to: Color)
    requires
        old(image).wf(),
        old(image)@.in_bounds(col as int, row as int),
        old(image)@.at(col as int, row as int) != to,
    ensures
        final(image).wf(),
        final(image)@ == flood_filled(old(image)@, (col as int, row as int), to),
{
    let ghost orig = image@;
    let ghost start = (col as int, row as int);
    let from = image.get(col, row);
    let width = image.width();
    let height = image.height();
    image.set(col, row, to);
    let mut stack: Vec<(u32, u32)> = Vec::new();
    stack.push((col, row));
    proof {
        lemma_reachable_start(orig, start);
        let cur = image@;
        assert forall|c: int, r: int| #[trigger] filled_at(orig, cur, from, to, c, r) implies (c, r) == (-1int, -1int)
            || settled(orig, cur, from, to, c, r) || on_stack(stack@, c, r) by {
            if c == start.0 && r == start.1 {
                assert(stack@[0] == (c as u32, r as u32));
            }
        }
    }
    while stack.len() > 0
        invariant
            image.wf(),
            fill_inv(orig, image@, start, to, stack@, (-1, -1)),
            from == orig.at(start.0, start.1),
            from != to,
            width == orig.width,
            height == orig.height,
            orig.in_bounds(start.0, start.1),
            filled_at(orig, image@, from, to, start.0, start.1),
        decreases 5 * grid_count(image@.pixels, from) + stack@.len(),
    {
        let ghost before = stack@;
        let (c, r) = stack.pop().unwrap();
        let ghost q = (c as int, r as int);
        let ghost cur0 = image@;
        proof {
            assert(stack@ =~= before.drop_last());
            assert(before[before.len() - 1] == (c, r));
            assert(filled_at(orig, cur0, from, to, q.0, q.1));
            assert forall|i: int| 0 <= i < stack@.len() implies filled_at(orig, cur0, from, to, (#[trigger] stack@[i]).0 as int, stack@[i].1 as int) by {
                assert(stack@[i] == before[i]);
            }
            assert forall|x: int, y: int| #[trigger] filled_at(orig, cur0, from, to, x, y) implies (x, y) == q
                || settled(orig, cur0, from, to, x, y) || on_stack(stack@, x, y) by {
                if on_stack(before, x, y) && !((x, y) == q) {
                    let i = choose|i: int| 0 <= i < before.len() && #[trigger] before[i] == (x as u32, y as u32) && x == before[i].0 && y == before[i].1;
                    assert(i < before.len() - 1);
                    assert(stack@[i] == before[i]);
                }
            }
        }
        if c > 0 {
            fill_neighbor(image, &mut stack, c - 1, r, from, to, Ghost(orig), Ghost(start), Ghost(q));
        }
        let ghost cur1 = image@;
        if c < width - 1 {
            fill_neighbor(image, &mut stack, c + 1, r, from, to, Ghost(orig), Ghost(start), Ghost(q));
        }
        let ghost cur2 = image@;
        if r > 0 {
            fill_neighbor(image, &mut stack, c, r - 1, from, to, Ghost(orig), Ghost(start), Ghost(q));
        }
        let ghost cur3 = image@;
        if r < height - 1 {
            fill_neighbor(image, &mut stack, c, r + 1, from, to, Ghost(orig), Ghost(start), Ghost(q));
        }
        proof {
            let cur4 = image@;
            assert(settled(orig, cur4, from, to, q.0, q.1)) by {
                if orig.in_bounds(q.0 - 1, q.1) && orig.at(q.0 - 1, q.1) == from {
                    assert(cur1.at(q.0 - 1, q.1) == to);
                    assert(cur2.at(q.0 - 1, q.1) == to);
                    assert(cur3.at(q.0 - 1, q.1) == to);
                }
                if orig.in_bounds(q.0 + 1, q.1) && orig.at(q.0 + 1, q.1) == from {
                    assert(cur2.at(q.0 + 1, q.1) == to);
                    assert(cur3.at(q.0 + 1, q.1) == to);
                }
                if orig.in_bounds(q.0, q.1 - 1) && orig.at(q.0, q.1 - 1) == from {
                    assert(cur3.at(q.0, q.1 - 1) == to);
                }
            }
            assert forall|x: int, y: int| #[trigger] filled_at(orig, cur4, from, to, x, y) implies (x, y) == (-1int, -1int)
                || settled(orig, cur4, from, to, x, y) || on_stack(stack@, x, y) by {
                assert((x, y) == q || settled(orig, cur4, from, to, x, y) || on_stack(stack@, x, y));
            }
        }
    }
    proof {
        let cur = image@;
        let s = |p: (int, int)| filled_at(orig, cur, from, to, p.0, p.1);
        assert(s(start));
        assert forall|x: int, y: int| #[trigger] filled_at(orig, cur, from, to, x, y) implies settled(orig, cur, from, to, x, y) by {
            if on_stack(stack@, x, y) {
                let i = choose|i: int| 0 <= i < stack@.len() && #[trigger] stack@[i] == (x as u32, y as u32) && x == stack@[i].0 && y == stack@[i].1;
            }
        }
        assert forall|p: (int, int), n: (int, int)| #[trigger] s(p) && adjacent(p, n) && orig.in_bounds(n.0, n.1) && orig.at(n.0, n.1) == orig.at(start.0, start.1) implies #[trigger] s(n) by {
            assert(filled_at(orig, cur, from, to, p.0, p.1));
            assert(settled(orig, cur, from, to, p.0, p.1));
        }
        let target = flood_filled(orig, start, to);
        assert forall|y: int| 0 <= y < orig.height implies #[trigger] cur.pixels[y] =~= target.pixels[y] by {
            assert forall|x: int| 0 <= x < orig.width implies cur.pixels[y][x] == target.pixels[y][x] by {
                assert(orig.in_bounds(x, y));
                assert(cur.at(x, y) == orig.at(x, y) || (orig.at(x, y) == from && cur.at(x, y) == to && reachable(orig, start, (x, y))));
                if reachable(orig, start, (x, y)) {
                    lemma_closed_holds_reachable(orig, start, s, (x, y));
                }
            }
        }
        assert(cur =~~= target);
    }
}

} // verus!

verus! {

/// How many steps the marching ants of a selection's outline take before
/// they look the same again.
pub const MARQUEE_ANIMATION_MODULUS: i32 = 8;

pub open spec fn larger(a: int, b: int) -> int {
    if a >= b { a } else { b }
}

pub open spec fn smaller(a: int, b: int) -> int {
    if a <= b { a } else { b }
}

/// A drag under way on the canvas: where the selection was when it began,
/// where the mouse went down, and where it is now.
pub ghost struct DragView {
    pub from_selection: (int, int),
    pub from_pixel: (int, int),
    pub to_pixel: (int, int),
}

/// The mathematical content of a canvas.
pub ghost struct CanvasView {
    pub top_left: (int, int),
    pub max_size: nat,
    pub drag: Option<DragView>,
    pub counter: int,
}

/// A cell of the image, as a pair of `u32`, taken as a pair of integers.
pub open spec fn cell_view(p: (u32, u32)) -> (int, int) {
    (p.0 as int, p.1 as int)
}

impl CanvasView {
    /// How many screen pixels one pixel of `img` takes: as many as let the
    /// longer side fit in `max_size`, and at least one.
    pub open spec fn scale(self, img: ImageView) -> int {
        larger(1, self.max_size as int / larger(img.width as int, img.height as int))
    }

    /// Where the image is drawn on the screen.
    pub open spec fn rect(self, img: ImageView) -> RectView {
        (
            self.top_left.0,
            self.top_left.1,
            clamp_size(img.width * self.scale(img)),
            clamp_size(img.height * self.scale(img)),
        )
    }

    /// The screen point `mouse` in image pixels, relative to the image's
    /// corner, each coordinate rounded toward zero.
    pub open spec fn scaled(self, img: ImageView, mouse: (int, int)) -> (int, int) {
        let f = (self.scale(img) as i32) as int;
        (
            clamp_position(trunc_div(offset_coord(mouse.0, -self.top_left.0), f)),
            clamp_position(trunc_div(offset_coord(mouse.1, -self.top_left.1), f)),
        )
    }

    /// The pixel of `img` under `mouse`, if there is one.
    pub open spec fn cell_at(self, img: ImageView, mouse: (int, int)) -> Option<(int, int)> {
        if mouse.0 < self.top_left.0 || mouse.1 < self.top_left.1 {
            None
        } else {
            let s = self.scaled(img, mouse);
            if 0 <= s.0 < img.width && 0 <= s.1 < img.height {
                Some(s)
            } else {
                None
            }
        }
    }

    /// The pixel of `img` nearest to `mouse`.
    pub open spec fn clamped_cell(self, img: ImageView, mouse: (int, int)) -> (int, int) {
        let s = self.scaled(img, mouse);
        (larger(0, smaller(s.0, img.width - 1)), larger(0, smaller(s.1, img.height - 1)))
    }

    /// The pixels where the drag under way, if any, began and is now.
    pub open spec fn dragged_points(self, img: ImageView) -> Option<((int, int), (int, int))> {
        match self.drag {
            Some(d) => Some((self.clamped_cell(img, d.from_pixel), self.clamped_cell(img, d.to_pixel))),
            None => None,
        }
    }

    /// The rectangle of pixels that the drag under way, if any, spans, with
    /// its corner and sides clamped as a `Rect` clamps them.
    pub open spec fn dragged_rect(self, img: ImageView) -> Option<RectView> {
        match self.dragged_points(img) {
            Some((f, t)) => Some(
                (
                    clamp_position(smaller(f.0, t.0)),
                    clamp_position(smaller(f.1, t.1)),
                    clamp_size(abs(f.0 - t.0) + 1),
                    clamp_size(abs(f.1 - t.1) + 1),
                ),
            ),
            None => None,
        }
    }

    /// The canvas with no drag under way.
    pub open spec fn undragged(self) -> CanvasView {
        CanvasView { drag: None, ..self }
    }

    /// The canvas with a drag beginning at `pt`.
    pub open spec fn drag_begun(self, from_selection: (int, int), pt: (int, int)) -> CanvasView {
        CanvasView { drag: Some(DragView { from_selection, from_pixel: pt, to_pixel: pt }), ..self }
    }
}

/// The pencil at `mouse`: the pixel under it, if any, takes the current
/// color in a persistent mutation. Says whether there was such a pixel.
pub open spec fn painted(c: CanvasView, s: StateView, mouse: (int, int)) -> (StateView, bool) {
    match c.cell_at(s.image(), mouse) {
        Some(p) => {
            let b = s.persistent_mutation_begun();
            (b.with_image(b.image().with_pixel(p.0, p.1, s.color)), true)
        },
        None => (s, false),
    }
}

/// The eyedropper at `mouse`: the color of the pixel under it, if any,
/// taken.
pub open spec fn eyedropped_at(c: CanvasView, s: StateView, mouse: (int, int)) -> (StateView, bool) {
    match c.cell_at(s.image(), mouse) {
        Some(p) => (s.eyedropped(p), true),
        None => (s, false),
    }
}

/// The paint bucket at `mouse`: the region around the pixel under it, if
/// any, filled with the current color, unless it has that color already.
pub open spec fn bucket_filled(c: CanvasView, s: StateView, mouse: (int, int)) -> (StateView, bool) {
    match c.cell_at(s.image(), mouse) {
        Some(p) => if s.image().at(p.0, p.1) == s.color {
            (s, false)
        } else {
            let b = s.mutation_begun();
            (b.with_image(flood_filled(b.image(), p, s.color)), true)
        },
        None => (s, false),
    }
}

/// The line tool let go: the line from where the drag began to where it is
/// now drawn in the current color, and the drag ended.
pub open spec fn line_drawn(c: CanvasView, s: StateView) -> (CanvasView, StateView, bool) {
    match c.dragged_points(s.image()) {
        Some((f, t)) => {
            let b = s.mutation_begun();
            (c.undragged(), b.with_image(b.image_with_pixels_at(bresenham(f.0, f.1, t.0, t.1), s.color)), true)
        },
        None => (c, s, false),
    }
}

/// How far the line has risen after `k` of its `dx` steps lies between none
/// and all of its rise `dy`.
proof fn lemma_bres_rise_bounds(k: int, dx: int, dy: int)
    requires
        0 <= dy <= dx,
        0 <= k <= dx,
    ensures
        0 <= bres_rise(k, dx, dy) <= dy,
{
    if dx > 0 {
        let c = dx - 1 - dx / 2;
        assert(0 <= c < dx);
        assert(0 <= k * dy <= dx * dy) by (nonlinear_arith)
            requires
                0 <= k <= dx,
                0 <= dy,
        ;
        vstd::arithmetic::div_mod::lemma_div_is_ordered(0, k * dy + c, dx);
        vstd::arithmetic::div_mod::lemma_div_is_ordered(k * dy + c, dx * dy + c, dx);
        assert(dx * dy + c == dy * dx + c) by (nonlinear_arith);
        vstd::arithmetic::div_mod::lemma_fundamental_div_mod_converse(dx * dy + c, dx, dy, c);
        assert(0int / dx == 0);
    }
}

/// Every point of a line lies in the box that its two ends span.
pub proof fn lemma_bresenham_bounds(x1: int, y1: int, x2: int, y2: int)
    ensures
        forall|i: int| 0 <= i < bresenham(x1, y1, x2, y2).len() ==> {
            let p = #[trigger] bresenham(x1, y1, x2, y2)[i];
            &&& smaller(x1, x2) <= p.0 <= larger(x1, x2)
            &&& smaller(y1, y2) <= p.1 <= larger(y1, y2)
        },
{
    let steep = abs(y2 - y1) > abs(x2 - x1);
    let a1 = if steep { y1 } else { x1 };
    let b1 = if steep { x1 } else { y1 };
    let a2 = if steep { y2 } else { x2 };
    let b2 = if steep { x2 } else { y2 };
    let reversed = a1 > a2;
    let p1 = if reversed { a2 } else { a1 };
    let q1 = if reversed { b2 } else { b1 };
    let p2 = if reversed { a1 } else { a2 };
    let q2 = if reversed { b1 } else { b2 };
    let dx = p2 - p1;
    let dy = abs(q2 - q1);
    let step = if q1 < q2 { 1int } else { -1int };
    let fwd = forward_line(p1, q1, dx, dy, step, steep);
    let line = bresenham(x1, y1, x2, y2);
    assert forall|k: int| 0 <= k <= dx implies {
        let p = #[trigger] fwd[k];
        &&& smaller(x1, x2) <= p.0 <= larger(x1, x2)
        &&& smaller(y1, y2) <= p.1 <= larger(y1, y2)
    } by {
        lemma_bres_rise_bounds(k, dx, dy);
    }
    assert forall|i: int| 0 <= i < line.len() implies {
        let p = #[trigger] line[i];
        &&& smaller(x1, x2) <= p.0 <= larger(x1, x2)
        &&& smaller(y1, y2) <= p.1 <= larger(y1, y2)
    } by {
        if reversed {
            assert(line[i] == fwd[dx - i]);
        } else {
            assert(line[i] == fwd[i]);
        }
    }
}

/// Paints `color` at each of `points`.
fn paint_points(image: &mut Image, points: &Vec<(u32, u32)>, color: Color)
    requires
        old(image).wf(),
        forall|k: int| 0 <= k < points@.len() ==> old(image)@.in_bounds((#[trigger] points@[k]).0 as int, points@[k].1 as int),
    ensures
        final(image).wf(),
        final(image)@ == old(image)@.with_pixels(
            old(image)@.width,
            old(image)@.height,
            |c: int, r: int| if points@.map_values(|p: (u32, u32)| cell_view(p)).contains((c, r)) { color } else { old(image)@.at(c, r) },
        ),
{
    let ghost img0 = image@;
    let ghost ps = points@.map_values(|p: (u32, u32)| cell_view(p));
    assert(image@.pixels =~~= img0.with_pixels(
        img0.width,
        img0.height,
        |c: int, r: int| if ps.subrange(0, 0).contains((c, r)) { color } else { img0.at(c, r) },
    ).pixels);
    for i in 0..points.len()
        invariant
            image.wf(),
            img0.wf(),
            ps == points@.map_values(|p: (u32, u32)| cell_view(p)),
            forall|k: int| 0 <= k < ps.len() ==> img0.in_bounds((#[trigger] ps[k]).0, ps[k].1),
            image@ == img0.with_pixels(
                img0.width,
                img0.height,
                |c: int, r: int| if ps.subrange(0, i as int).contains((c, r)) { color } else { img0.at(c, r) },
            ),
    {
        let (x, y) = points[i];
        assert(ps[i as int] == (x as int, y as int));
        image.set(x, y, color);
        proof {
            let pre = ps.subrange(0, i as int);
            let post = ps.subrange(0, i + 1);
            assert forall|c: int, r: int| post.contains((c, r)) <==> (pre.contains((c, r)) || (c, r) == (x as int, y as int)) by {
                if post.contains((c, r)) {
                    let k = choose|k: int| 0 <= k < post.len() && post[k] == (c, r);
                    if k < i {
                        assert(pre[k] == (c, r));
                    }
                }
                if pre.contains((c, r)) {
                    let k = choose|k: int| 0 <= k < pre.len() && pre[k] == (c, r);
                    assert(post[k] == (c, r));
                }
                if (c, r) == (x as int, y as int) {
                    assert(post[i as int] == (c, r));
                }
            }
            assert(image@.pixels =~~= img0.with_pixels(
                img0.width,
                img0.height,
                |c: int, r: int| if post.contains((c, r)) { color } else { img0.at(c, r) },
            ).pixels);
        }
    }
    assert(ps.subrange(0, ps.len() as int) =~= ps);
}

/// The select tool pressed at `pt` on the canvas: a selection is put down
/// unless `pt` falls on it (then only the persistent mutation ends), and a
/// drag begins that remembers where the selection was.
pub open spec fn select_pressed(c: CanvasView, s: StateView, pt: (int, int)) -> (CanvasView, StateView) {
    let scale = c.scale(s.image());
    let f = (scale as i32) as int;
    match s.current.selection {
        Some((sel, pos)) => {
            let r = (clamp_position(pos.0), clamp_position(pos.1), clamp_size(sel.width as int), clamp_size(sel.height as int));
            let m = (clamp_position(clamped_mul(r.0, f)), clamp_position(clamped_mul(r.1, f)));
            let corner = (clamp_position(offset_coord(c.top_left.0, m.0)), clamp_position(offset_coord(c.top_left.1, m.1)));
            let w = clamp_size(r.2 * scale);
            let h = clamp_size(r.3 * scale);
            let on_selection = corner.0 <= pt.0 < corner.0 + w && corner.1 <= pt.1 < corner.1 + h;
            let t = if on_selection {
                StateView { persistent_mutation_active: false, ..s }
            } else {
                s.mutation_begun().unselected()
            };
            (c.drag_begun((r.0, r.1), pt), t)
        },
        None => (c.drag_begun((0, 0), pt), s),
    }
}

/// Where a selection dragged with the mouse from `d.from_pixel` to `pt`
/// goes: as many image pixels from where it was as the mouse moved, rounded
/// toward zero.
pub open spec fn moved_selection(c: CanvasView, img: ImageView, d: DragView, pt: (int, int)) -> (int, int) {
    let f = (c.scale(img) as i32) as int;
    let q = (
        clamp_position(trunc_div(offset_coord(pt.0, -d.from_pixel.0), f)),
        clamp_position(trunc_div(offset_coord(pt.1, -d.from_pixel.1), f)),
    );
    (offset_coord(d.from_selection.0, q.0), offset_coord(d.from_selection.1, q.1))
}

/// The canvas, state and answer after `e` reaches the canvas `c` in state
/// `s`.
///
/// A clock tick moves the selection's marching ants; escape puts down the
/// selection. Pressing the mouse on the image acts with the current tool:
/// the eyedropper takes a color, the line tool and the select tool begin a
/// drag (the select tool putting down a selection that is not pressed on),
/// the paint bucket fills, and the pencil paints; pressing elsewhere ends any
/// drag. Letting go draws the dragged line, or selects the dragged
/// rectangle when nothing is selected, and ends the drag. Dragging moves the
/// end of a line, paints with the pencil, or moves the selection.
pub open spec fn canvas_event(c: CanvasView, s: StateView, e: EventView) -> (CanvasView, StateView, Action<()>) {
    let img = s.image();
    let ignore = Action { redraw: false, value: Value::<()>::Continue };
    let redraw = Action { redraw: true, value: Value::<()>::Continue };
    let redraw_stop = Action { redraw: true, value: Value::<()>::Stop };
    match e {
        EventView::ClockTick => if s.current.selection is Some {
            (CanvasView { counter: floor_mod(c.counter + 1, MARQUEE_ANIMATION_MODULUS as int), ..c }, s, redraw)
        } else {
            (c, s, ignore)
        },
        EventView::KeyDown(Keycode::Escape, _) => if s.current.selection is Some {
            (c, s.mutation_begun().unselected(), redraw_stop)
        } else {
            (c, s, ignore)
        },
        EventView::MouseDown(pt) => {
            let r = c.rect(img);
            if r.0 <= pt.0 < r.0 + r.2 && r.1 <= pt.1 < r.1 + r.3 {
                match s.tool {
                    Tool::Eyedropper => {
                        let (t, changed) = eyedropped_at(c, s, pt);
                        (c, t, Action { redraw: changed, value: Value::Stop })
                    },
                    Tool::Line => (c.drag_begun((0, 0), pt), s, redraw_stop),
                    Tool::PaintBucket => {
                        let (t, changed) = bucket_filled(c, s, pt);
                        (c, t, Action { redraw: changed, value: Value::Stop })
                    },
                    Tool::Pencil => {
                        let (t, changed) = painted(c, StateView { persistent_mutation_active: false, ..s }, pt);
                        (c, t, Action { redraw: changed, value: Value::Stop })
                    },
                    Tool::Select => {
                        let (c2, t) = select_pressed(c, s, pt);
                        (c2, t, redraw_stop)
                    },
                    _ => (c, s, ignore),
                }
            } else {
                (c.undragged(), s, ignore)
            }
        },
        EventView::MouseUp => match s.tool {
            Tool::Line => {
                let (c2, t, changed) = line_drawn(c, s);
                (c2, t, Action { redraw: changed, value: Value::Continue })
            },
            Tool::Select => if s.current.selection is None && c.dragged_rect(img) is Some {
                (CanvasView { drag: None, counter: 0, ..c }, s.mutation_begun().rect_selected(c.dragged_rect(img)->0), redraw)
            } else {
                (c.undragged(), s, ignore)
            },
            _ => (c.undragged(), s, ignore),
        },
        EventView::MouseDrag(pt) => match s.tool {
            Tool::Line => match c.drag {
                Some(d) => (CanvasView { drag: Some(DragView { to_pixel: pt, ..d }), ..c }, s, redraw),
                None => (c, s, ignore),
            },
            Tool::Pencil => {
                let (t, changed) = painted(c, s, pt);
                (c, t, Action { redraw: changed, value: Value::Continue })
            },
            Tool::Select => match c.drag {
                Some(d) => {
                    let t = if s.current.selection is Some {
                        s.persistent_mutation_begun().selection_repositioned(moved_selection(c, img, d, pt))
                    } else {
                        s
                    };
                    (CanvasView { drag: Some(DragView { to_pixel: pt, ..d }), ..c }, t, redraw)
                },
                None => (c, s, ignore),
            },
            _ => (c, s, ignore),
        },
        _ => (c, s, ignore),
    }
}

/// The events on which the canvas does its work without dividing by zero,
/// overflowing a size, or painting off the image: for the mouse, the
/// image's sides fit `i32`; the image has a pixel wherever its scale or a dragged
/// pixel is needed, and a selection pressed on fits `u32` once scaled.
pub open spec fn canvas_event_ok(c: CanvasView, s: StateView, e: EventView) -> bool {
    let img = s.image();
    let sized = img.width > 0 || img.height > 0;
    &&& (e is MouseDown || e is MouseDrag || e is MouseUp) ==> img.width <= i32::MAX && img.height <= i32::MAX
    &&& match e {
        EventView::MouseDown(pt) => {
            &&& sized
            &&& s.tool == Tool::Select ==> match s.current.selection {
                Some((sel, _)) => {
                    &&& clamp_size(sel.width as int) * c.scale(img) <= u32::MAX
                    &&& clamp_size(sel.height as int) * c.scale(img) <= u32::MAX
                },
                None => true,
            }
        },
        EventView::MouseUp => match s.tool {
            Tool::Line => c.drag is Some ==> img.width > 0 && img.height > 0,
            Tool::Select => (s.current.selection is None && c.drag is Some) ==> sized,
            _ => true,
        },
        EventView::MouseDrag(pt) => match s.tool {
            Tool::Pencil => (pt.0 >= c.top_left.0 && pt.1 >= c.top_left.1) ==> sized,
            Tool::Select => sized,
            _ => true,
        },
        _ => true,
    }
}

/// A drag under way on the canvas.
struct ImageCanvasDrag {
    from_selection: Point,
    from_pixel: Point,
    to_pixel: Point,
}

/// The canvas that shows the image being edited, scaled up to fit a square
/// of `max_size` screen pixels, and on which the tools act.
pub struct ImageCanvas {
    top_left: Point,
    max_size: u32,
    drag_from_to: Option<ImageCanvasDrag>,
    selection_animation_counter: i32,
}

impl View for ImageCanvas {
    type V = CanvasView;

    closed spec fn view(&self) -> CanvasView {
        CanvasView {
            top_left: self.top_left@,
            max_size: self.max_size as nat,
            drag: match self.drag_from_to {
                Some(d) => Some(DragView { from_selection: d.from_selection@, from_pixel: d.from_pixel@, to_pixel: d.to_pixel@ }),
                None => None,
            },
            counter: self.selection_animation_counter as int,
        }
    }
}

impl ImageCanvas {
    #[verifier::type_invariant]
    spec fn inv(self) -> bool {
        0 <= self.selection_animation_counter < MARQUEE_ANIMATION_MODULUS
    }

    /// A canvas with its top-left corner at `(left, top)`.
    pub fn new(left: i32, top: i32, max_size: u32) -> (c: ImageCanvas)
        ensures
            c@ == (CanvasView {
                top_left: (clamp_position(left as int), clamp_position(top as int)),
                max_size: max_size as nat,
                drag: None,
                counter: 0,
            }),
    {
        ImageCanvas { top_left: Point::new(left, top), max_size, drag_from_to: None, selection_animation_counter: 0 }
    }

    /// The phase of the selection's marching ants.
    pub fn selection_animation_counter(&self) -> (n: i32)
        ensures
            n == self@.counter,
            0 <= n < MARQUEE_ANIMATION_MODULUS,
    {
        proof {
            use_type_invariant(self);
        }
        self.selection_animation_counter
    }

    pub fn scale(&self, state: &EditorState) -> (s: u32)
        requires
            state.wf(),
            state@.image().width > 0 || state@.image().height > 0,
        ensures
            s == self@.scale(state@.image()),
            s >= 1,
    {
        let (width, height) = state.image_size();
        let longer = if width >= height { width } else { height };
        let q = self.max_size / longer;
        if q >= 1 { q } else { 1 }
    }

    /// Where the image is drawn on the screen.
    pub fn rect(&self, state: &EditorState) -> (r: Rect)
        requires
            state.wf(),
            state@.image().width > 0 || state@.image().height > 0,
        ensures
            r@ == self@.rect(state@.image()),
    {
        let scale = self.scale(state);
        let (width, height) = state.image_size();
        let longer = if width >= height { width } else { height };
        proof {
            let m = self.max_size as int;
            let l = longer as int;
            let q = m / l;
            vstd::arithmetic::div_mod::lemma_fundamental_div_mod(m, l);
            vstd::arithmetic::div_mod::lemma_mod_bound(m, l);
            assert(l == larger(width as int, height as int));
            assert(scale == larger(1, q));
            if q >= 1 {
                assert(width * q <= m && height * q <= m) by (nonlinear_arith)
                    requires
                        width <= l,
                        height <= l,
                        m == l * q + m % l,
                        0 <= m % l,
                        q >= 1,
                ;
                assert(width * scale <= u32::MAX && height * scale <= u32::MAX);
            } else {
                assert(scale == 1);
                assert(width * scale == width && height * scale == height);
            }
        }
        Rect::new(self.top_left.x(), self.top_left.y(), width * scale, height * scale)
    }

    /// The screen point `mouse` in image pixels from the image's corner.
    fn scaled(&self, mouse: Point, state: &EditorState) -> (p: Point)
        requires
            state.wf(),
            state@.image().width > 0 || state@.image().height > 0,
        ensures
            p@ == self@.scaled(state@.image(), mouse@),
    {
        let scale = self.scale(state);
        let f = scale as i32;
        assert(f != 0) by (bit_vector)
            requires
                f == scale as i32,
                scale >= 1,
        ;
        mouse.sub(self.top_left).div(f)
    }

    /// The pixel of the image under `mouse`, if any.
    fn mouse_to_row_col(&self, mouse: Point, state: &EditorState) -> (r: Option<(u32, u32)>)
        requires
            state.wf(),
            state@.image().width <= i32::MAX,
            state@.image().height <= i32::MAX,
            (mouse@.0 >= self@.top_left.0 && mouse@.1 >= self@.top_left.1) ==> (state@.image().width > 0
                || state@.image().height > 0),
        ensures
            match self@.cell_at(state@.image(), mouse@) {
                Some(p) => r matches Some(q) && cell_view(q) == p,
                None => r is None,
            },
    {
        if mouse.x() < self.top_left.x() || mouse.y() < self.top_left.y() {
            return None;
        }
        let scaled = self.scaled(mouse, state);
        let (width, height) = state.image_size();
        if scaled.x() < 0 || scaled.x() >= (width as i32) || scaled.y() < 0 || scaled.y() >= (height as i32) {
            None
        } else {
            Some((scaled.x() as u32, scaled.y() as u32))
        }
    }

    /// The pixel of the image nearest to `mouse`.
    fn clamp_mouse_to_row_col(&self, mouse: Point, state: &EditorState) -> (r: (u32, u32))
        requires
            state.wf(),
            state@.image().width <= i32::MAX,
            state@.image().height <= i32::MAX,
            state@.image().width > 0 || state@.image().height > 0,
        ensures
            cell_view(r) == self@.clamped_cell(state@.image(), mouse@),
    {
        let scaled = self.scaled(mouse, state);
        let (width, height) = state.image_size();
        let last_col = width as i32 - 1;
        let last_row = height as i32 - 1;
        let x = if scaled.x() <= last_col { scaled.x() } else { last_col };
        let y = if scaled.y() <= last_row { scaled.y() } else { last_row };
        (if x >= 0 { x as u32 } else { 0 }, if y >= 0 { y as u32 } else { 0 })
    }

    /// The pixels where the drag under way, if any, began and is now.
    pub fn dragged_points(&self, state: &EditorState) -> (r: Option<((u32, u32), (u32, u32))>)
        requires
            state.wf(),
            state@.image().width <= i32::MAX,
            state@.image().height <= i32::MAX,
            self@.drag is Some ==> state@.image().width > 0 || state@.image().height > 0,
        ensures
            match self@.dragged_points(state@.image()) {
                Some((f, t)) => r matches Some((a, b)) && cell_view(a) == f && cell_view(b) == t,
                None => r is None,
            },
    {
        match &self.drag_from_to {
            Some(drag) => {
                let from_point = self.clamp_mouse_to_row_col(drag.from_pixel, state);
                let to_point = self.clamp_mouse_to_row_col(drag.to_pixel, state);
                Some((from_point, to_point))
            },
            None => None,
        }
    }

    /// The rectangle of pixels that the drag under way, if any, spans.
    pub fn dragged_rect(&self, state: &EditorState) -> (r: Option<Rect>)
        requires
            state.wf(),
            state@.image().width <= i32::MAX,
            state@.image().height <= i32::MAX,
            self@.drag is Some ==> state@.image().width > 0 || state@.image().height > 0,
        ensures
            match self@.dragged_rect(state@.image()) {
                Some(v) => r matches Some(q) && q@ == v,
                None => r is None,
            },
    {
        match self.dragged_points(state) {
            Some(((from_col, from_row), (to_col, to_row))) => {
                let x = if from_col <= to_col { from_col } else { to_col };
                let y = if from_row <= to_row { from_row } else { to_row };
                let w = if from_col >= to_col { from_col - to_col + 1 } else { to_col - from_col + 1 };
                let h = if from_row >= to_row { from_row - to_row + 1 } else { to_row - from_row + 1 };
                Some(Rect::new(x as i32, y as i32, w, h))
            },
            None => None,
        }
    }

    /// The pencil at `mouse`; says whether it painted.
    fn try_paint(&self, mouse: Point, state: &mut EditorState) -> (b: bool)
        requires
            old(state).wf(),
            old(state)@.image().width <= i32::MAX,
            old(state)@.image().height <= i32::MAX,
            (mouse@.0 >= self@.top_left.0 && mouse@.1 >= self@.top_left.1) ==> (old(state)@.image().width > 0
                || old(state)@.image().height > 0),
        ensures
            final(state).wf(),
            (final(state)@, b) == painted(self@, old(state)@, mouse@),
    {
        match self.mouse_to_row_col(mouse, state) {
            Some((col, row)) => {
                let color = state.color();
                let mut mutation = state.persistent_mutation();
                let image = mutation.image();
                image.set(col, row, color);
                proof {
                    EditorState::lemma_with_image_wf(old(state)@.persistent_mutation_begun(), image@);
                }
                true
            },
            None => false,
        }
    }

    /// The eyedropper at `mouse`; says whether it took a color.
    fn try_eyedrop(&self, mouse: Point, state: &mut EditorState) -> (b: bool)
        requires
            old(state).wf(),
            old(state)@.image().width <= i32::MAX,
            old(state)@.image().height <= i32::MAX,
            old(state)@.image().width > 0 || old(state)@.image().height > 0,
        ensures
            final(state).wf(),
            (final(state)@, b) == eyedropped_at(self@, old(state)@, mouse@),
    {
        match self.mouse_to_row_col(mouse, state) {
            Some(position) => {
                state.eyedrop_at(position);
                true
            },
            None => false,
        }
    }

    /// The paint bucket at `mouse`; says whether it filled anything.
    fn try_flood_fill(&self, mouse: Point, state: &mut EditorState) -> (b: bool)
        requires
            old(state).wf(),
            old(state)@.image().width <= i32::MAX,
            old(state)@.image().height <= i32::MAX,
            old(state)@.image().width > 0 || old(state)@.image().height > 0,
        ensures
            final(state).wf(),
            (final(state)@, b) == bucket_filled(self@, old(state)@, mouse@),
    {
        match self.mouse_to_row_col(mouse, state) {
            Some((col, row)) => {
                let to_color = state.color();
                let from_color = state.image().get(col, row);
                if from_color == to_color {
                    return false;
                }
                let mut mutation = state.mutation();
                let image = mutation.image();
                flood_fill(image, col, row, to_color);
                proof {
                    EditorState::lemma_with_image_wf(old(state)@.mutation_begun(), image@);
                }
                true
            },
            None => false,
        }
    }

    /// The line tool let go: draws the dragged line, if any, and ends the
    /// drag; says whether it drew.
    fn try_draw_line(&mut self, state: &mut EditorState) -> (b: bool)
        requires
            old(state).wf(),
            old(state)@.image().width <= i32::MAX,
            old(state)@.image().height <= i32::MAX,
            old(self)@.drag is Some ==> old(state)@.image().width > 0 && old(state)@.image().height > 0,
        ensures
            final(state).wf(),
            (final(self)@, final(state)@, b) == line_drawn(old(self)@, old(state)@),
    {
        proof {
            use_type_invariant(&*self);
        }
        match self.dragged_points(state) {
            Some(((col1, row1), (col2, row2))) => {
                let color = state.color();
                let points = bresenham_points(col1, row1, col2, row2);
                proof {
                    let line = bresenham(col1 as int, row1 as int, col2 as int, row2 as int);
                    lemma_bresenham_bounds(col1 as int, row1 as int, col2 as int, row2 as int);
                    let ps = points@.map_values(|p: (u32, u32)| cell_view(p));
                    assert(ps == line);
                    assert forall|k: int| 0 <= k < points@.len() implies state@.image().in_bounds((#[trigger] points@[k]).0 as int, points@[k].1 as int) by {
                        assert(ps[k] == cell_view(points@[k]));
                        assert(ps[k] == line[k]);
                    }
                }
                let mut mutation = state.mutation();
                let image = mutation.image();
                paint_points(image, &points, color);
                proof {
                    let b = old(state)@.mutation_begun();
                    let line = bresenham(col1 as int, row1 as int, col2 as int, row2 as int);
                    assert(points@.map_values(|p: (u32, u32)| cell_view(p)) == line);
                    assert(image@ =~~= b.image_with_pixels_at(line, color));
                    EditorState::lemma_with_image_wf(b, image@);
                }
                self.drag_from_to = None;
                true
            },
            None => false,
        }
    }

    /// The select tool pressed at `pt` on the image.
    fn press_select(&mut self, pt: Point, state: &mut EditorState)
        requires
            old(state).wf(),
            old(state)@.image().width > 0 || old(state)@.image().height > 0,
            match old(state)@.current.selection {
                Some((sel, _)) => {
                    &&& clamp_size(sel.width as int) * old(self)@.scale(old(state)@.image()) <= u32::MAX
                    &&& clamp_size(sel.height as int) * old(self)@.scale(old(state)@.image()) <= u32::MAX
                },
                None => true,
            },
        ensures
            final(state).wf(),
            (final(self)@, final(state)@) == select_pressed(old(self)@, old(state)@, pt@),
    {
        proof {
            use_type_invariant(&*self);
        }
        let from_selection = match state.selection_rect() {
            Some(rect) => {
                let scale = self.scale(state);
                let screen_topleft = self.top_left.add(rect.top_left().mul(scale as i32));
                let screen_rect = Rect::new(screen_topleft.x(), screen_topleft.y(), rect.width() * scale, rect.height() * scale);
                if !screen_rect.contains_point(pt) {
                    state.mutation().unselect();
                } else {
                    state.reset_persistent_mutation();
                }
                rect.top_left()
            },
            None => Point::new(0, 0),
        };
        self.drag_from_to = Some(ImageCanvasDrag { from_selection, from_pixel: pt, to_pixel: pt });
    }

    /// Whether the canvas can take `event` in `state`: see `canvas_event_ok`.
    pub fn accepts(&self, event: &Event, state: &EditorState) -> (b: bool)
        requires
            state.wf(),
        ensures
            b == canvas_event_ok(self@, state@, event@),
    {
        let (width, height) = state.image_size();
        let mouse = match event {
            Event::MouseDown(_) | Event::MouseDrag(_) | Event::MouseUp => true,
            _ => false,
        };
        if mouse && (width > i32::MAX as u32 || height > i32::MAX as u32) {
            return false;
        }
        let sized = width > 0 || height > 0;
        match event {
            Event::MouseDown(_) => {
                if !sized {
                    return false;
                }
                if state.tool() == Tool::Select {
                    match state.selection_rect() {
                        Some(rect) => {
                            let scale = self.scale(state) as u64;
                            let w = rect.width() as u64;
                            let h = rect.height() as u64;
                            assert(w * scale <= 0x4000_0000u64 * 0x1_0000_0000u64) by (nonlinear_arith)
                                requires
                                    w <= 0x4000_0000u64,
                                    scale <= 0x1_0000_0000u64,
                            ;
                            assert(h * scale <= 0x4000_0000u64 * 0x1_0000_0000u64) by (nonlinear_arith)
                                requires
                                    h <= 0x4000_0000u64,
                                    scale <= 0x1_0000_0000u64,
                            ;
                            w * scale <= u32::MAX as u64 && h * scale <= u32::MAX as u64
                        },
                        None => true,
                    }
                } else {
                    true
                }
            },
            Event::MouseUp => match state.tool() {
                Tool::Line => self.drag_from_to.is_none() || (width > 0 && height > 0),
                Tool::Select => !(state.selection().is_none() && self.drag_from_to.is_some()) || sized,
                _ => true,
            },
            Event::MouseDrag(pt) => match state.tool() {
                Tool::Pencil => !(pt.x() >= self.top_left.x() && pt.y() >= self.top_left.y()) || sized,
                Tool::Select => sized,
                _ => true,
            },
            _ => true,
        }
    }

    /// Answers `event`: see `canvas_event`.
    pub fn on_event(&mut self, event: &Event, state: &mut EditorState) -> (action: Action<()>)
        requires
            old(state).wf(),
            canvas_event_ok(old(self)@, old(state)@, event@),
        ensures
            final(state).wf(),
            (final(self)@, final(state)@, action) == canvas_event(old(self)@, old(state)@, event@),
    {
        proof {
            use_type_invariant(&*self);
        }
        match event {
            Event::ClockTick => {
                if state.selection().is_some() {
                    self.selection_animation_counter = modulo(self.selection_animation_counter + 1, MARQUEE_ANIMATION_MODULUS);
                    Action::redraw()
                } else {
                    Action::ignore()
                }
            },
            Event::KeyDown(Keycode::Escape, _) => {
                if state.selection().is_some() {
                    state.mutation().unselect();
                    Action::redraw().and_stop()
                } else {
                    Action::ignore()
                }
            },
            Event::MouseDown(pt) => {
                let pt = *pt;
                if self.rect(state).contains_point(pt) {
                    match state.tool() {
                        Tool::Eyedropper => {
                            let changed = self.try_eyedrop(pt, state);
                            Action::redraw_if(changed).and_stop()
                        },
                        Tool::Line => {
                            self.drag_from_to = Some(ImageCanvasDrag { from_selection: Point::new(0, 0), from_pixel: pt, to_pixel: pt });
                            Action::redraw().and_stop()
                        },
                        Tool::PaintBucket => {
                            let changed = self.try_flood_fill(pt, state);
                            Action::redraw_if(changed).and_stop()
                        },
                        Tool::Pencil => {
                            state.reset_persistent_mutation();
                            let changed = self.try_paint(pt, state);
                            Action::redraw_if(changed).and_stop()
                        },
                        Tool::Select => {
                            self.press_select(pt, state);
                            Action::redraw().and_stop()
                        },
                        _ => Action::ignore(),
                    }
                } else {
                    self.drag_from_to = None;
                    Action::ignore()
                }
            },
            Event::MouseUp => {
                match state.tool() {
                    Tool::Line => {
                        let changed = self.try_draw_line(state);
                        return Action::redraw_if(changed);
                    },
                    Tool::Select => {
                        if state.selection().is_none() {
                            if let Some(rect) = self.dragged_rect(state) {
                                state.mutation().select(&rect);
                                self.drag_from_to = None;
                                self.selection_animation_counter = 0;
                                return Action::redraw();
                            }
                        }
                    },
                    _ => {},
                }
                self.drag_from_to = None;
                Action::ignore()
            },
            Event::MouseDrag(pt) => {
                let pt = *pt;
                match state.tool() {
                    Tool::Line => {
                        match &self.drag_from_to {
                            Some(drag) => {
                                let from_selection = drag.from_selection;
                                let from_pixel = drag.from_pixel;
                                self.drag_from_to = Some(ImageCanvasDrag { from_selection, from_pixel, to_pixel: pt });
                                Action::redraw()
                            },
                            None => Action::ignore(),
                        }
                    },
                    Tool::Pencil => {
                        let changed = self.try_paint(pt, state);
                        Action::redraw_if(changed)
                    },
                    Tool::Select => {
                        let unsigned_scale = self.scale(state);
                        let scale = unsigned_scale as i32;
                        assert(scale != 0) by (bit_vector)
                            requires
                                scale == unsigned_scale as i32,
                                unsigned_scale >= 1,
                        ;
                        match &self.drag_from_to {
                            Some(drag) => {
                                let from_selection = drag.from_selection;
                                let from_pixel = drag.from_pixel;
                                self.drag_from_to = Some(ImageCanvasDrag { from_selection, from_pixel, to_pixel: pt });
                                if state.selection().is_some() {
                                    let position = from_selection.add(pt.sub(from_pixel).div(scale));
                                    state.persistent_mutation().reposition_selection(position);
                                }
                                Action::redraw()
                            },
                            None => Action::ignore(),
                        }
                    },
                    _ => Action::ignore(),
                }
            },
            _ => Action::ignore(),
        }
    }
}

/// The line between two ends, drawn from the other end, has the same points
/// in the opposite order.
pub proof fn lemma_bresenham_reversed(x1: int, y1: int, x2: int, y2: int)
    ensures
        bresenham(x2, y2, x1, y1) == bresenham(x1, y1, x2, y2).reverse(),
{
    let line = bresenham(x1, y1, x2, y2);
    assert(line.reverse().reverse() =~= line);
    let back = bresenham(x2, y2, x1, y1);
    assert(back.reverse().reverse() =~= back);
    if x1 == x2 && y1 == y2 {
        lemma_bresenham_shape(x1, y1, x2, y2);
        assert(line.len() == 1);
        assert(line.reverse() =~= line);
    }
}


/// Whether `region` is closed under stepping from one of its pixels to an
/// adjacent pixel of `color` on `img`.
pub open spec fn closed_over(img: ImageView, color: Color, region: spec_fn((int, int)) -> bool) -> bool {
    forall|q: (int, int), n: (int, int)|
        #[trigger] region(q) && adjacent(q, n) && img.in_bounds(n.0, n.1) && img.at(n.0, n.1) == color ==> #[trigger] region(n)
}

/// The paint bucket fills exactly the region of the start's color around the
/// start: the start takes the new color; only pixels of the start's color
/// change, and only to the new color; a pixel of the start's color next to a
/// filled one is filled too; and every pixel that changes lies in any region
/// that holds the start and is closed over the start's color.
pub proof fn lemma_flood_fill_region(img: ImageView, start: (int, int), to: Color, region: spec_fn((int, int)) -> bool)
    requires
        img.wf(),
        img.in_bounds(start.0, start.1),
        img.at(start.0, start.1) != to,
    ensures
        ({
            let f = flood_filled(img, start, to);
            let from = img.at(start.0, start.1);
            &&& f.wf() && f.width == img.width && f.height == img.height
            &&& f.at(start.0, start.1) == to
            &&& forall|c: int, r: int| #[trigger] img.in_bounds(c, r) ==> f.at(c, r) == to || f.at(c, r) == img.at(c, r)
            &&& forall|c: int, r: int| #[trigger] img.in_bounds(c, r) && img.at(c, r) != from ==> f.at(c, r) == img.at(c, r)
            &&& forall|p: (int, int), n: (int, int)|
                img.in_bounds(p.0, p.1) && img.in_bounds(n.0, n.1) && adjacent(p, n) && img.at(p.0, p.1) == from
                    && #[trigger] f.at(p.0, p.1) == to && #[trigger] img.at(n.0, n.1) == from ==> f.at(n.0, n.1) == to
            &&& region(start) && closed_over(img, from, region) ==> forall|c: int, r: int|
                #[trigger] img.in_bounds(c, r) && f.at(c, r) != img.at(c, r) ==> region((c, r))
        }),
{
    let f = flood_filled(img, start, to);
    let from = img.at(start.0, start.1);
    lemma_reachable_start(img, start);
    assert forall|p: (int, int), n: (int, int)|
        img.in_bounds(p.0, p.1) && img.in_bounds(n.0, n.1) && adjacent(p, n) && img.at(p.0, p.1) == from
            && #[trigger] f.at(p.0, p.1) == to && #[trigger] img.at(n.0, n.1) == from implies f.at(n.0, n.1) == to by {
        assert(reachable(img, start, p));
        lemma_reachable_step(img, start, p, n);
    }
    if region(start) && closed_over(img, from, region) {
        assert forall|c: int, r: int| #[trigger] img.in_bounds(c, r) && f.at(c, r) != img.at(c, r) implies region((c, r)) by {
            assert(reachable(img, start, (c, r)));
            lemma_closed_holds_reachable(img, start, region, (c, r));
        }
    }
}

} // verus!
