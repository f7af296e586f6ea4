//! Points and rectangles on the screen and on images, with the clamping of
//! coordinates and sizes that keeps their sums within `i32`.

use vstd::prelude::*;

verus! {

/// The largest coordinate and size, `i32::MAX as u32 / 2`.
pub const MAX_INT_VALUE: u32 = 1073741823;

/// The smallest coordinate, `i32::MIN / 2`.
pub const MIN_INT_VALUE: i32 = -1073741824;

/// A coordinate brought into `MIN_INT_VALUE ..= MAX_INT_VALUE`.
pub open spec fn clamp_position(v: int) -> int {
    if v > MAX_INT_VALUE {
        MAX_INT_VALUE as int
    } else if v < MIN_INT_VALUE {
        MIN_INT_VALUE as int
    } else {
        v
    }
}

/// A size brought into `1 ..= MAX_INT_VALUE`.
pub open spec fn clamp_size(v: int) -> int {
    if v <= 0 {
        1
    } else if v > MAX_INT_VALUE {
        MAX_INT_VALUE as int
    } else {
        v
    }
}

/// A product, or the extreme on its side where it leaves `i32`.
pub open spec fn clamped_mul(a: int, b: int) -> int {
    if i32::MIN <= a * b <= i32::MAX {
        a * b
    } else if (a < 0) != (b < 0) {
        MIN_INT_VALUE as int
    } else {
        MAX_INT_VALUE as int
    }
}

fn clamp_position_exec(v: i32) -> (r: i32)
    ensures
        r == clamp_position(v as int),
{
    if v > MAX_INT_VALUE as i32 {
        MAX_INT_VALUE as i32
    } else if v < MIN_INT_VALUE {
        MIN_INT_VALUE
    } else {
        v
    }
}

fn clamp_size_exec(v: u32) -> (r: u32)
    ensures
        r == clamp_size(v as int),
{
    if v == 0 {
        1
    } else if v > MAX_INT_VALUE {
        MAX_INT_VALUE
    } else {
        v
    }
}

fn clamped_mul_exec(a: i32, b: i32) -> (r: i32)
    ensures
        r == clamped_mul(a as int, b as int),
{
    assert(-0x8000_0000 <= a < 0x8000_0000 && -0x8000_0000 <= b < 0x8000_0000 ==> -0x4000_0000_0000_0000 <= (a as int) * (b as int) <= 0x4000_0000_0000_0000) by (nonlinear_arith);
    let p: i64 = (a as i64) * (b as i64);
    if p >= i32::MIN as i64 && p <= i32::MAX as i64 {
        p as i32
    } else if (a < 0) != (b < 0) {
        MIN_INT_VALUE
    } else {
        MAX_INT_VALUE as i32
    }
}

/// A point whose coordinates lie within `MIN_INT_VALUE ..= MAX_INT_VALUE`.
#[derive(Clone, Copy, Debug, PartialEq, Eq, Structural)]
pub struct Point {
    x: i32,
    y: i32,
}

impl View for Point {
    type V = (int, int);

    closed spec fn view(&self) -> (int, int) {
        (self.x as int, self.y as int)
    }
}

/// The coordinates lie in the clamped range.
pub open spec fn point_in_range(p: (int, int)) -> bool {
    MIN_INT_VALUE <= p.0 <= MAX_INT_VALUE && MIN_INT_VALUE <= p.1 <= MAX_INT_VALUE
}

impl Point {
    #[verifier::type_invariant]
    spec fn inv(self) -> bool {
        point_in_range(self@)
    }

    /// The point at the given coordinates, each clamped.
    pub fn new(x: i32, y: i32) -> (p: Point)
        ensures
            p@ == (clamp_position(x as int), clamp_position(y as int)),
    {
        Point { x: clamp_position_exec(x), y: clamp_position_exec(y) }
    }

    pub fn x(&self) -> (v: i32)
        ensures
            v == self@.0,
            point_in_range(self@),
    {
        proof {
            use_type_invariant(self);
        }
        self.x
    }

    pub fn y(&self) -> (v: i32)
        ensures
            v == self@.1,
            point_in_range(self@),
    {
        proof {
            use_type_invariant(self);
        }
        self.y
    }

    /// The point moved by `(dx, dy)`; a sum that leaves `i32` goes to the
    /// extreme on its side, and then every coordinate is clamped.
    pub fn offset(self, dx: i32, dy: i32) -> (p: Point)
        ensures
            p@ == (offset_coord(self@.0, dx as int), offset_coord(self@.1, dy as int)),
    {
        proof {
            use_type_invariant(&self);
        }
        Point::new(offset_coord_exec(self.x, dx), offset_coord_exec(self.y, dy))
    }

    /// The sum of two points.
    pub fn add(self, rhs: Point) -> (p: Point)
        ensures
            p@ == (offset_coord(self@.0, rhs@.0), offset_coord(self@.1, rhs@.1)),
    {
        self.offset(rhs.x, rhs.y)
    }

    /// The difference of two points.
    pub fn sub(self, rhs: Point) -> (p: Point)
        ensures
            p@ == (offset_coord(self@.0, -rhs@.0), offset_coord(self@.1, -rhs@.1)),
    {
        proof {
            use_type_invariant(&rhs);
        }
        self.offset(-rhs.x, -rhs.y)
    }

    /// The point scaled by `f`.
    pub fn mul(self, f: i32) -> (p: Point)
        ensures
            p@ == (clamp_position(clamped_mul(self@.0, f as int)), clamp_position(clamped_mul(self@.1, f as int))),
    {
        Point::new(clamped_mul_exec(self.x, f), clamped_mul_exec(self.y, f))
    }

    /// The point divided by `f`, each coordinate rounded toward zero.
    pub fn div(self, f: i32) -> (p: Point)
        requires
            f != 0,
        ensures
            p@ == (clamp_position(trunc_div(self@.0, f as int)), clamp_position(trunc_div(self@.1, f as int))),
    {
        proof {
            use_type_invariant(&self);
        }
        Point::new(trunc_div_exec(self.x, f), trunc_div_exec(self.y, f))
    }
}

/// Integer division rounding toward zero, as Rust's `/` does.
pub open spec fn trunc_div(a: int, b: int) -> int {
    if a == 0 {
        0
    } else if a > 0 && b > 0 {
        a / b
    } else if a < 0 && b < 0 {
        (-a) / (-b)
    } else if a < 0 {
        -((-a) / b)
    } else {
        -(a / (-b))
    }
}

fn trunc_div_exec(a: i32, b: i32) -> (r: i32)
    requires
        b != 0,
        MIN_INT_VALUE <= a,
    ensures
        r == trunc_div(a as int, b as int),
{
    match a.checked_div(b) {
        Some(q) => q,
        None => 0,
    }
}

/// `v + d`, or the extreme on the side of `d` where the sum leaves `i32`,
/// then clamped.
pub open spec fn offset_coord(v: int, d: int) -> int {
    if i32::MIN <= v + d <= i32::MAX {
        clamp_position(v + d)
    } else if d < 0 {
        MIN_INT_VALUE as int
    } else {
        MAX_INT_VALUE as int
    }
}

fn offset_coord_exec(v: i32, d: i32) -> (r: i32)
    ensures
        clamp_position(r as int) == offset_coord(v as int, d as int),
{
    let s: i64 = (v as i64) + (d as i64);
    if s >= i32::MIN as i64 && s <= i32::MAX as i64 {
        s as i32
    } else if d < 0 {
        MIN_INT_VALUE
    } else {
        MAX_INT_VALUE as i32
    }
}

//---------------------------------------------------------------------------//

/// A non-empty rectangle: its top-left corner and its size.
#[derive(Clone, Copy, Debug, PartialEq, Eq, Structural)]
pub struct Rect {
    x: i32,
    y: i32,
    w: u32,
    h: u32,
}

/// The view of a rectangle: left, top, width and height.
pub type RectView = (int, int, int, int);

impl View for Rect {
    type V = RectView;

    closed spec fn view(&self) -> RectView {
        (self.x as int, self.y as int, self.w as int, self.h as int)
    }
}

/// The position and size lie in their clamped ranges.
pub open spec fn rect_in_range(r: RectView) -> bool {
    &&& MIN_INT_VALUE <= r.0 <= MAX_INT_VALUE
    &&& MIN_INT_VALUE <= r.1 <= MAX_INT_VALUE
    &&& 1 <= r.2 <= MAX_INT_VALUE
    &&& 1 <= r.3 <= MAX_INT_VALUE
}

impl Rect {
    #[verifier::type_invariant]
    spec fn inv(self) -> bool {
        rect_in_range(self@)
    }

    /// The rectangle at `(x, y)` of the given size: the position is clamped,
    /// and a size of zero becomes one.
    pub fn new(x: i32, y: i32, width: u32, height: u32) -> (r: Rect)
        ensures
            r@ == (clamp_position(x as int), clamp_position(y as int), clamp_size(width as int), clamp_size(height as int)),
    {
        Rect { x: clamp_position_exec(x), y: clamp_position_exec(y), w: clamp_size_exec(width), h: clamp_size_exec(height) }
    }

    pub fn x(&self) -> (v: i32)
        ensures
            v == self@.0,
            rect_in_range(self@),
    {
        proof {
            use_type_invariant(self);
        }
        self.x
    }

    pub fn y(&self) -> (v: i32)
        ensures
            v == self@.1,
            rect_in_range(self@),
    {
        proof {
            use_type_invariant(self);
        }
        self.y
    }

    pub fn width(&self) -> (v: u32)
        ensures
            v == self@.2,
            rect_in_range(self@),
    {
        proof {
            use_type_invariant(self);
        }
        self.w
    }

    pub fn height(&self) -> (v: u32)
        ensures
            v == self@.3,
            rect_in_range(self@),
    {
        proof {
            use_type_invariant(self);
        }
        self.h
    }

    pub fn left(&self) -> (v: i32)
        ensures
            v == self@.0,
    {
        self.x
    }

    pub fn top(&self) -> (v: i32)
        ensures
            v == self@.1,
    {
        self.y
    }

    /// The first column to the right of the rectangle.
    pub fn right(&self) -> (v: i32)
        ensures
            v == self@.0 + self@.2,
    {
        proof {
            use_type_invariant(self);
        }
        self.x + self.w as i32
    }

    /// The first row below the rectangle.
    pub fn bottom(&self) -> (v: i32)
        ensures
            v == self@.1 + self@.3,
    {
        proof {
            use_type_invariant(self);
        }
        self.y + self.h as i32
    }

    /// The width and the height.
    pub fn size(&self) -> (s: (u32, u32))
        ensures
            s.0 == self@.2,
            s.1 == self@.3,
    {
        (self.w, self.h)
    }

    pub fn top_left(&self) -> (p: Point)
        ensures
            p@ == (self@.0, self@.1),
    {
        proof {
            use_type_invariant(self);
        }
        Point::new(self.x, self.y)
    }

    /// Whether the rectangle covers `p`: its right and bottom edges lie
    /// outside it.
    pub open spec fn covers(self, p: (int, int)) -> bool {
        self@.0 <= p.0 < self@.0 + self@.2 && self@.1 <= p.1 < self@.1 + self@.3
    }

    pub fn contains_point(&self, p: Point) -> (b: bool)
        ensures
            b == self.covers(p@),
    {
        proof {
            use_type_invariant(self);
        }
        let px = p.x();
        let py = p.y();
        px >= self.left() && px < self.right() && py >= self.top() && py < self.bottom()
    }
}

} // verus!
