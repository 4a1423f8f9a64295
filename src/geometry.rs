use vstd::prelude::*;

verus! {

/// A point in the global coordinate space.
#[derive(Clone, Copy, Debug, PartialEq, Eq, Structural)]
pub struct Point {
    pub x: i32,
    pub y: i32,
}

/// A width and a height, signed as in the frame option grammar.
#[derive(Clone, Copy, Debug, PartialEq, Eq, Structural)]
pub struct Size {
    pub width: i32,
    pub height: i32,
}

/// A rectangle with a signed origin and an unsigned extent.
#[derive(Clone, Copy, Debug, PartialEq, Eq, Structural)]
pub struct Rect {
    pub x: i32,
    pub y: i32,
    pub w: u32,
    pub h: u32,
}

pub open spec fn min_i32(a: i32, b: i32) -> i32 {
    if a <= b { a } else { b }
}

pub open spec fn max_i32(a: i32, b: i32) -> i32 {
    if a >= b { a } else { b }
}

/// `v` brought into `[lo, hi]`: first raised to `lo`, then lowered to `hi`.
pub open spec fn clamp_i32(v: i32, lo: i32, hi: i32) -> i32 {
    min_i32(max_i32(v, lo), hi)
}

impl Point {
    pub fn new(x: i32, y: i32) -> (r: Point)
        ensures
            r.x == x && r.y == y,
    {
        Point { x, y }
    }

    /// Component-wise clamp into the box `[lo, hi]`.
    pub fn clamp(self, lo: Point, hi: Point) -> (r: Point)
        ensures
            r.x == clamp_i32(self.x, lo.x, hi.x),
            r.y == clamp_i32(self.y, lo.y, hi.y),
    {
        Point { x: clamp(self.x, lo.x, hi.x), y: clamp(self.y, lo.y, hi.y) }
    }
}

impl Size {
    pub fn new(width: i32, height: i32) -> (r: Size)
        ensures
            r.width == width && r.height == height,
    {
        Size { width, height }
    }

    pub open spec fn spec_min(self, o: Size) -> Size {
        Size { width: min_i32(self.width, o.width), height: min_i32(self.height, o.height) }
    }

    pub open spec fn spec_max(self, o: Size) -> Size {
        Size { width: max_i32(self.width, o.width), height: max_i32(self.height, o.height) }
    }

    pub open spec fn spec_clamp(self, lo: Size, hi: Size) -> Size {
        self.spec_max(lo).spec_min(hi)
    }

    /// Both components of `self` are at most those of `o`.
    pub open spec fn le(self, o: Size) -> bool {
        self.width <= o.width && self.height <= o.height
    }

    /// Component-wise minimum.
    pub fn min(self, o: Size) -> (r: Size)
        ensures
            r == self.spec_min(o),
    {
        Size {
            width: if self.width <= o.width { self.width } else { o.width },
            height: if self.height <= o.height { self.height } else { o.height },
        }
    }

    /// Component-wise maximum.
    pub fn max(self, o: Size) -> (r: Size)
        ensures
            r == self.spec_max(o),
    {
        Size {
            width: if self.width >= o.width { self.width } else { o.width },
            height: if self.height >= o.height { self.height } else { o.height },
        }
    }

    /// Raised to `lo`, then lowered to `hi`, component by component.
    pub fn clamp(self, lo: Size, hi: Size) -> (r: Size)
        ensures
            r == self.spec_clamp(lo, hi),
            lo.le(hi) ==> lo.le(r) && r.le(hi),
    {
        self.max(lo).min(hi)
    }
}

pub fn clamp(v: i32, lo: i32, hi: i32) -> (r: i32)
    ensures
        r == clamp_i32(v, lo, hi),
{
    let a = if v >= lo { v } else { lo };
    if a <= hi { a } else { hi }
}

impl Rect {
    /// The empty rectangle at the origin.
    pub fn zero() -> (r: Self)
        ensures
            r == (Rect { x: 0, y: 0, w: 0, h: 0 }),
    {
        Self { x: 0, y: 0, w: 0, h: 0 }
    }

    pub open spec fn contains_spec(self, p: Point) -> bool {
        self.x <= p.x < self.x + self.w && self.y <= p.y < self.y + self.h
    }

    pub open spec fn is_empty_spec(self) -> bool {
        self.w == 0 || self.h == 0
    }

    pub open spec fn origin(self) -> Point {
        Point { x: self.x, y: self.y }
    }

    /// The two rectangles share at least one pixel.
    pub open spec fn overlaps_spec(self, o: Rect) -> bool {
        &&& !self.is_empty_spec()
        &&& !o.is_empty_spec()
        &&& self.x < o.x + o.w
        &&& o.x < self.x + self.w
        &&& self.y < o.y + o.h
        &&& o.y < self.y + self.h
    }

    /// Whether `p` lies in the rectangle; the right and bottom edges are outside.
    pub fn contains(&self, p: Point) -> (r: bool)
        ensures
            r == self.contains_spec(p),
    {
        (self.x as i64) <= (p.x as i64) && (p.x as i64) < (self.x as i64) + (self.w as i64)
            && (self.y as i64) <= (p.y as i64) && (p.y as i64) < (self.y as i64) + (self.h as i64)
    }

    /// A rectangle of no area.
    pub fn is_empty(&self) -> (r: bool)
        ensures
            r == self.is_empty_spec(),
    {
        self.w == 0 || self.h == 0
    }

    pub fn overlaps(&self, o: &Rect) -> (r: bool)
        ensures
            r == self.overlaps_spec(*o),
    {
        !self.is_empty() && !o.is_empty() && (self.x as i64) < (o.x as i64) + (o.w as i64)
            && (o.x as i64) < (self.x as i64) + (self.w as i64) && (self.y as i64) < (o.y as i64)
            + (o.h as i64) && (o.y as i64) < (self.y as i64) + (self.h as i64)
    }
}

} // verus!
