use vstd::prelude::*;

use crate::geometry::{clamp, clamp_i32, Point, Rect, Size};

verus! {

/// Side of the drawn arrow, in pixels.
pub const CURSOR_SIZE: i32 = 16;

/// Margin added around the arrow for its anti-aliased edges.
pub const CURSOR_MARGIN: i32 = 4;

/// The software cursor: its position, its previous position and the box it is
/// kept in. Both positions always lie in the box, edges included.
pub struct Cursor {
    pos: Point,
    prev_pos: Point,
    min: Point,
    max: Point,
}

/// `p` clamped into the box `[lo, hi]`, component by component.
pub open spec fn clamp_point(p: Point, lo: Point, hi: Point) -> Point {
    Point { x: clamp_i32(p.x, lo.x, hi.x), y: clamp_i32(p.y, lo.y, hi.y) }
}

pub open spec fn in_box(p: Point, lo: Point, hi: Point) -> bool {
    lo.x <= p.x <= hi.x && lo.y <= p.y <= hi.y
}

/// `v` moved by `d`, stopping at the `i32` range.
pub open spec fn offset(v: i32, d: i32) -> i32 {
    if v + d > i32::MAX {
        i32::MAX
    } else if v + d < i32::MIN {
        i32::MIN
    } else {
        (v + d) as i32
    }
}

pub(crate) fn offset_exec(v: i32, d: i32) -> (r: i32)
    ensures
        r == offset(v, d),
{
    let s = v as i64 + d as i64;
    if s > i32::MAX as i64 {
        i32::MAX
    } else if s < i32::MIN as i64 {
        i32::MIN
    } else {
        s as i32
    }
}

impl Cursor {
    #[verifier::type_invariant]
    spec fn inv(self) -> bool {
        &&& self.min.x <= self.max.x && self.min.y <= self.max.y
        &&& in_box(self.pos, self.min, self.max)
        &&& in_box(self.prev_pos, self.min, self.max)
    }

    pub closed spec fn spec_pos(self) -> Point {
        self.pos
    }

    pub closed spec fn spec_prev_pos(self) -> Point {
        self.prev_pos
    }

    pub closed spec fn spec_min(self) -> Point {
        self.min
    }

    pub closed spec fn spec_max(self) -> Point {
        self.max
    }

    /// A cursor kept in `[min_x, max_x]`×`[min_y, max_y]`, starting at the middle.
    pub fn new(min_x: i32, max_x: i32, min_y: i32, max_y: i32) -> (r: Cursor)
        requires
            min_x <= max_x,
            min_y <= max_y,
        ensures
            r.spec_min() == (Point { x: min_x, y: min_y }),
            r.spec_max() == (Point { x: max_x, y: max_y }),
            r.spec_pos() == (Point { x: (min_x + (max_x - min_x) / 2) as i32, y: (min_y + (max_y
                - min_y) / 2) as i32 }),
            r.spec_prev_pos() == r.spec_pos(),
    {
        let x = (min_x as i64 + (max_x as i64 - min_x as i64) / 2) as i32;
        let y = (min_y as i64 + (max_y as i64 - min_y as i64) / 2) as i32;
        Cursor {
            pos: Point::new(x, y),
            prev_pos: Point::new(x, y),
            min: Point::new(min_x, min_y),
            max: Point::new(max_x, max_y),
        }
    }

    /// Remembers the current position as the previous one and moves to `pos`,
    /// clamped into the box.
    pub fn set_pos(&mut self, pos: Point)
        ensures
            final(self).spec_prev_pos() == old(self).spec_pos(),
            final(self).spec_pos() == clamp_point(pos, old(self).spec_min(), old(self).spec_max()),
            final(self).spec_min() == old(self).spec_min(),
            final(self).spec_max() == old(self).spec_max(),
            in_box(final(self).spec_pos(), final(self).spec_min(), final(self).spec_max()),
    {
        proof {
            use_type_invariant(&*self);
        }
        self.prev_pos = self.pos;
        self.pos = pos.clamp(self.min, self.max);
    }

    pub fn get_pos(&self) -> (r: Point)
        ensures
            r == self.spec_pos(),
            in_box(r, self.spec_min(), self.spec_max()),
    {
        proof {
            use_type_invariant(self);
        }
        self.pos
    }

    pub fn get_prev_pos(&self) -> (r: Point)
        ensures
            r == self.spec_prev_pos(),
            in_box(r, self.spec_min(), self.spec_max()),
    {
        proof {
            use_type_invariant(self);
        }
        self.prev_pos
    }

    /// The least and the greatest corner of the box the cursor is kept in.
    pub fn bounds(&self) -> (r: (Point, Point))
        ensures
            r.0 == self.spec_min(),
            r.1 == self.spec_max(),
    {
        (self.min, self.max)
    }

    /// Size of the cursor image: the arrow plus its margin.
    pub fn get_size(&self) -> (r: Size)
        ensures
            r == (Size { width: (CURSOR_SIZE + CURSOR_MARGIN) as i32, height: (CURSOR_SIZE + CURSOR_MARGIN) as i32 }),
    {
        Size::new(CURSOR_SIZE + CURSOR_MARGIN, CURSOR_SIZE + CURSOR_MARGIN)
    }

    /// The rectangle the cursor image covers.
    pub fn get_bounding_region(&self) -> (r: Rect)
        ensures
            r == (Rect {
                x: self.spec_pos().x,
                y: self.spec_pos().y,
                w: (CURSOR_SIZE + CURSOR_MARGIN) as u32,
                h: (CURSOR_SIZE + CURSOR_MARGIN) as u32,
            }),
    {
        Rect {
            x: self.pos.x,
            y: self.pos.y,
            w: (CURSOR_SIZE + CURSOR_MARGIN) as u32,
            h: (CURSOR_SIZE + CURSOR_MARGIN) as u32,
        }
    }

    /// Moves by `(x, y)`, stopping at the edges of the box.
    pub fn move_cursor(&mut self, x: i32, y: i32)
        ensures
            final(self).spec_pos() == clamp_point(
                Point { x: offset(old(self).spec_pos().x, x), y: offset(old(self).spec_pos().y, y) },
                old(self).spec_min(),
                old(self).spec_max(),
            ),
            final(self).spec_prev_pos() == old(self).spec_prev_pos(),
            final(self).spec_min() == old(self).spec_min(),
            final(self).spec_max() == old(self).spec_max(),
            in_box(final(self).spec_pos(), final(self).spec_min(), final(self).spec_max()),
    {
        proof {
            use_type_invariant(&*self);
        }
        let target = Point::new(offset_exec(self.pos.x, x), offset_exec(self.pos.y, y));
        self.pos = target.clamp(self.min, self.max);
    }
}

/// Moving the cursor by any amount keeps it inside its box: never below the least
/// corner nor beyond the greatest.
pub proof fn lemma_move_stays_in_box(p: Point, dx: i32, dy: i32, lo: Point, hi: Point)
    requires
        lo.x <= hi.x,
        lo.y <= hi.y,
    ensures
        in_box(
            clamp_point(Point { x: offset(p.x, dx), y: offset(p.y, dy) }, lo, hi),
            lo,
            hi,
        ),
{
}

} // verus!
