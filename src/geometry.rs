use vstd::prelude::*;

verus! {

/// A position in image pixel space.
#[derive(Clone, Copy, Debug, PartialEq, Eq, Structural)]
pub struct Point {
    pub x: i32,
    pub y: i32,
}

/// An axis-aligned rectangle given by two corners. It is normalized when
/// `min` is at or above and to the left of `max` on both axes.
#[derive(Clone, Copy, Debug, PartialEq, Eq, Structural)]
pub struct Rect {
    pub min: Point,
    pub max: Point,
}

pub open spec fn min_i(a: int, b: int) -> int {
    if a <= b { a } else { b }
}

pub open spec fn max_i(a: int, b: int) -> int {
    if a <= b { b } else { a }
}

fn min_i32(a: i32, b: i32) -> (r: i32)
    ensures
        r == min_i(a as int, b as int),
{
    if a <= b { a } else { b }
}

fn max_i32(a: i32, b: i32) -> (r: i32)
    ensures
        r == max_i(a as int, b as int),
{
    if a <= b { b } else { a }
}

impl Point {
    pub fn new(x: i32, y: i32) -> (r: Point)
        ensures
            r.x == x,
            r.y == y,
    {
        Point { x, y }
    }
}

impl Rect {
    pub open spec fn is_normalized(self) -> bool {
        self.min.x <= self.max.x && self.min.y <= self.max.y
    }

    /// The rectangle spanned by two points, with the smaller coordinates first.
    pub open spec fn spec_from_two_pos(a: Point, b: Point) -> Rect {
        Rect {
            min: Point { x: min_i(a.x as int, b.x as int) as i32, y: min_i(a.y as int, b.y as int) as i32 },
            max: Point { x: max_i(a.x as int, b.x as int) as i32, y: max_i(a.y as int, b.y as int) as i32 },
        }
    }

    pub open spec fn spec_normalized(self) -> Rect {
        Rect::spec_from_two_pos(self.min, self.max)
    }

    pub open spec fn spec_width(self) -> int {
        self.max.x - self.min.x
    }

    pub open spec fn spec_height(self) -> int {
        self.max.y - self.min.y
    }

    /// The smallest rectangle that holds both `self` and `o`.
    pub open spec fn spec_union(self, o: Rect) -> Rect {
        Rect {
            min: Point {
                x: min_i(self.min.x as int, o.min.x as int) as i32,
                y: min_i(self.min.y as int, o.min.y as int) as i32,
            },
            max: Point {
                x: max_i(self.max.x as int, o.max.x as int) as i32,
                y: max_i(self.max.y as int, o.max.y as int) as i32,
            },
        }
    }

    pub fn from_min_max(min: Point, max: Point) -> (r: Rect)
        ensures
            r.min == min,
            r.max == max,
    {
        Rect { min, max }
    }

    pub fn from_two_pos(a: Point, b: Point) -> (r: Rect)
        ensures
            r == Rect::spec_from_two_pos(a, b),
            r.is_normalized(),
    {
        Rect {
            min: Point { x: min_i32(a.x, b.x), y: min_i32(a.y, b.y) },
            max: Point { x: max_i32(a.x, b.x), y: max_i32(a.y, b.y) },
        }
    }

    /// The same rectangle with its corners reordered so that `min <= max`.
    pub fn normalized(&self) -> (r: Rect)
        ensures
            r == self.spec_normalized(),
            r.is_normalized(),
    {
        Rect::from_two_pos(self.min, self.max)
    }

    pub fn width(&self) -> (r: i64)
        ensures
            r == self.spec_width(),
    {
        self.max.x as i64 - self.min.x as i64
    }

    pub fn height(&self) -> (r: i64)
        ensures
            r == self.spec_height(),
    {
        self.max.y as i64 - self.min.y as i64
    }

    pub fn left_top(&self) -> (r: Point)
        ensures
            r == self.min,
    {
        self.min
    }

    pub fn right_bottom(&self) -> (r: Point)
        ensures
            r == self.max,
    {
        self.max
    }

    pub fn right_top(&self) -> (r: Point)
        ensures
            r.x == self.max.x,
            r.y == self.min.y,
    {
        Point { x: self.max.x, y: self.min.y }
    }

    pub fn left_bottom(&self) -> (r: Point)
        ensures
            r.x == self.min.x,
            r.y == self.max.y,
    {
        Point { x: self.min.x, y: self.max.y }
    }

    pub fn union(&self, o: &Rect) -> (r: Rect)
        ensures
            r == self.spec_union(*o),
    {
        Rect {
            min: Point { x: min_i32(self.min.x, o.min.x), y: min_i32(self.min.y, o.min.y) },
            max: Point { x: max_i32(self.max.x, o.max.x), y: max_i32(self.max.y, o.max.y) },
        }
    }
}

/// `v / 2`, rounded down.
pub open spec fn half_floor(v: int) -> int {
    v / 2
}

fn half_i32(v: i32) -> (r: i32)
    ensures
        r == half_floor(v as int),
{
    let w = v as i64;
    if w >= 0 {
        (w / 2) as i32
    } else {
        let m = (-w + 1) / 2;
        assert(-m == w / 2) by (nonlinear_arith)
            requires
                w < 0,
                m == (-w + 1) / 2,
        ;
        (-m) as i32
    }
}

impl Rect {
    /// Both corners halved, rounded down: a box in the engine's doubled
    /// pixel space mapped back to the space of the crop.
    pub open spec fn spec_halved(self) -> Rect {
        Rect {
            min: Point { x: half_floor(self.min.x as int) as i32, y: half_floor(self.min.y as int) as i32 },
            max: Point { x: half_floor(self.max.x as int) as i32, y: half_floor(self.max.y as int) as i32 },
        }
    }

    pub fn halved(&self) -> (r: Rect)
        ensures
            r == self.spec_halved(),
    {
        Rect {
            min: Point { x: half_i32(self.min.x), y: half_i32(self.min.y) },
            max: Point { x: half_i32(self.max.x), y: half_i32(self.max.y) },
        }
    }
}

/// Normalizing any rectangle puts its smaller coordinates first on both axes,
/// and normalizing a second time changes nothing.
pub proof fn lemma_normalized_ordered_and_idempotent(r: Rect)
    ensures
        r.spec_normalized().is_normalized(),
        r.spec_normalized().spec_normalized() == r.spec_normalized(),
{
}

} // verus!
