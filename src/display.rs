use vstd::prelude::*;

use crate::geometry::{Point, Rect};
use crate::text::{chars_of, parse_u32, split, split_ranges, u32_of};

verus! {

/// How many earlier cursor positions a display keeps for erasing.
pub const TAIL_LENGTH: usize = 1;

/// Size in bytes of one raw input record.
pub const INPUT_RECORD_LEN: usize = 24;

/// The most input records read from a display at once.
pub const MAX_INPUT_RECORDS: usize = 64;

pub open spec fn or_zero_u32(v: Option<u32>) -> u32 {
    match v {
        Some(x) => x,
        None => 0,
    }
}

/// Width and height named by a display's path, `<scheme>:<segment>/<width>/<height>/...`,
/// each 0 where it does not parse; `None` without a `:`.
pub open spec fn display_size_of(url: Seq<char>) -> Option<(u32, u32)> {
    let parts = split(url, ':');
    if parts.len() < 2 {
        None
    } else {
        let segs = split(parts[1], '/');
        Some(
            (
                if segs.len() > 1 { or_zero_u32(u32_of(segs[1])) } else { 0 },
                if segs.len() > 2 { or_zero_u32(u32_of(segs[2])) } else { 0 },
            ),
        )
    }
}

/// Reads the width and height of a display from the path its device reports.
pub fn display_size(url: &str) -> (r: Option<(u32, u32)>)
    ensures
        r == display_size_of(url@),
{
    let chars = chars_of(url);
    let n = chars.len();
    assert(chars@.subrange(0, n as int) =~= url@);
    let parts = split_ranges(&chars, 0, n, ':');
    if parts.len() < 2 {
        return None;
    }
    let (a, b) = parts[1];
    let segs = split_ranges(&chars, a, b, '/');
    let w = if segs.len() > 1 {
        let (c, d) = segs[1];
        match parse_u32(&chars, c, d) {
            Some(v) => v,
            None => 0,
        }
    } else {
        0
    };
    let h = if segs.len() > 2 {
        let (c, d) = segs[2];
        match parse_u32(&chars, c, d) {
            Some(v) => v,
            None => 0,
        }
    } else {
        0
    };
    Some((w, h))
}

/// A damage rectangle as a display expects it.
#[derive(Clone, Copy, Debug, PartialEq, Eq, Structural)]
pub struct SyncRect {
    pub x: i32,
    pub y: i32,
    pub w: i32,
    pub h: i32,
}

/// Little-endian bytes of a 32-bit value.
pub open spec fn le32(v: u32) -> Seq<u8> {
    seq![v as u8, (v >> 8u32) as u8, (v >> 16u32) as u8, (v >> 24u32) as u8]
}

pub open spec fn sync_rect_bytes(r: SyncRect) -> Seq<u8> {
    le32(r.x as u32) + le32(r.y as u32) + le32(r.w as u32) + le32(r.h as u32)
}

fn push_le32(v: &mut Vec<u8>, x: u32)
    ensures
        final(v)@ == old(v)@ + le32(x),
{
    v.push(x as u8);
    v.push((x >> 8u32) as u8);
    v.push((x >> 16u32) as u8);
    v.push((x >> 24u32) as u8);
    assert(final(v)@ =~= old(v)@ + le32(x));
}

impl SyncRect {
    /// The rectangle `r`, its extent capped at `i32::MAX`.
    pub fn from_rect(r: Rect) -> (s: SyncRect)
        ensures
            s == (SyncRect { x: r.x, y: r.y, w: crate::frame::capped(r.w), h: crate::frame::capped(r.h) }),
    {
        SyncRect {
            x: r.x,
            y: r.y,
            w: if r.w <= i32::MAX as u32 { r.w as i32 } else { i32::MAX },
            h: if r.h <= i32::MAX as u32 { r.h as i32 } else { i32::MAX },
        }
    }

    /// The sixteen bytes written to a display: x, y, w, h, little-endian.
    pub fn to_bytes(&self) -> (r: Vec<u8>)
        ensures
            r@ == sync_rect_bytes(*self),
    {
        let mut v: Vec<u8> = Vec::new();
        push_le32(&mut v, #[verifier::truncate] (self.x as u32));
        push_le32(&mut v, #[verifier::truncate] (self.y as u32));
        push_le32(&mut v, #[verifier::truncate] (self.w as u32));
        push_le32(&mut v, #[verifier::truncate] (self.h as u32));
        assert(v@ =~= sync_rect_bytes(*self));
        v
    }
}

/// What to write to a display of `width`×`height` for the damage `rect` (`None`: the
/// whole display). Nothing for a rectangle of no area.
pub fn damage_bytes(rect: Option<Rect>, width: u32, height: u32) -> (r: Option<Vec<u8>>)
    ensures
        match rect {
            Some(q) => if q.is_empty_spec() {
                r is None
            } else {
                r matches Some(b) && b@ == sync_rect_bytes(
                    SyncRect { x: q.x, y: q.y, w: crate::frame::capped(q.w), h: crate::frame::capped(q.h) },
                )
            },
            None => if width == 0 || height == 0 {
                r is None
            } else {
                r matches Some(b) && b@ == sync_rect_bytes(
                    SyncRect { x: 0, y: 0, w: crate::frame::capped(width), h: crate::frame::capped(height) },
                )
            },
        },
{
    let q = match rect {
        Some(q) => q,
        None => Rect { x: 0, y: 0, w: width, h: height },
    };
    if q.is_empty() {
        None
    } else {
        Some(SyncRect::from_rect(q).to_bytes())
    }
}

/// One raw input record from a display.
#[derive(Clone, Copy, Debug, PartialEq, Eq, Structural)]
pub struct InputEvent {
    pub code: i64,
    pub a: i64,
    pub b: i64,
}

/// The 64-bit little-endian value at `b[i..i + 8]`.
pub open spec fn i64_le_at(b: Seq<u8>, i: int) -> i64 {
    (((b[i + 7] as u64) << 56u64) | ((b[i + 6] as u64) << 48u64) | ((b[i + 5] as u64) << 40u64)
        | ((b[i + 4] as u64) << 32u64) | ((b[i + 3] as u64) << 24u64) | ((b[i + 2] as u64)
        << 16u64) | ((b[i + 1] as u64) << 8u64) | (b[i] as u64)) as i64
}

pub open spec fn record_at(b: Seq<u8>, k: int) -> InputEvent {
    InputEvent {
        code: i64_le_at(b, 24 * k),
        a: i64_le_at(b, 24 * k + 8),
        b: i64_le_at(b, 24 * k + 16),
    }
}

fn read_i64_le(b: &[u8], at: usize) -> (r: i64)
    requires
        at + 8 <= b@.len(),
        b@.len() <= usize::MAX,
    ensures
        r == i64_le_at(b@, at as int),
{
    #[verifier::truncate]
    ((((b[at + 7] as u64) << 56u64) | ((b[at + 6] as u64) << 48u64) | ((b[at + 5] as u64)
        << 40u64) | ((b[at + 4] as u64) << 32u64) | ((b[at + 3] as u64) << 24u64) | ((b[at
        + 2] as u64) << 16u64) | ((b[at + 1] as u64) << 8u64) | (b[at] as u64)) as i64)
}

impl InputEvent {
    /// The null record.
    pub fn new() -> (r: InputEvent)
        ensures
            r == (InputEvent { code: 0, a: 0, b: 0 }),
    {
        InputEvent { code: 0, a: 0, b: 0 }
    }

    /// The whole records in `bytes`, each three little-endian `i64`s, at most
    /// `MAX_INPUT_RECORDS` of them; a trailing partial record is ignored.
    pub fn parse_records(bytes: &[u8]) -> (r: Vec<InputEvent>)
        ensures
            r@.len() == if bytes@.len() / 24 < MAX_INPUT_RECORDS { bytes@.len() / 24 } else { MAX_INPUT_RECORDS as nat },
            forall|k: int| 0 <= k < r@.len() ==> #[trigger] r@[k] == record_at(bytes@, k),
    {
        let len = bytes.len();
        let whole = len / INPUT_RECORD_LEN;
        let n = if whole < MAX_INPUT_RECORDS { whole } else { MAX_INPUT_RECORDS };
        let mut r: Vec<InputEvent> = Vec::new();
        let mut k: usize = 0;
        while k < n
            invariant
                k <= n,
                n <= bytes@.len() / 24,
                n <= MAX_INPUT_RECORDS,
                len == bytes@.len(),
                r@.len() == k,
                forall|j: int| 0 <= j < k ==> #[trigger] r@[j] == record_at(bytes@, j),
            decreases n - k,
        {
            assert(24 * k + 24 <= bytes@.len()) by (nonlinear_arith)
                requires
                    k < n,
                    n <= bytes@.len() / 24,
            ;
            let at = 24 * k;
            r.push(InputEvent {
                code: read_i64_le(bytes, at),
                a: read_i64_le(bytes, at + 8),
                b: read_i64_le(bytes, at + 16),
            });
            k += 1;
        }
        r
    }
}

/// The global coordinate `c` seen from a display whose origin is at `o`, saturated
/// to the `i32` range.
pub open spec fn local(c: i32, o: i32) -> i32 {
    if c - o > i32::MAX {
        i32::MAX
    } else if c - o < i32::MIN {
        i32::MIN
    } else {
        (c - o) as i32
    }
}

fn local_exec(c: i32, o: i32) -> (r: i32)
    ensures
        r == local(c, o),
{
    let d = c as i64 - o as i64;
    if d > i32::MAX as i64 {
        i32::MAX
    } else if d < i32::MIN as i64 {
        i32::MIN
    } else {
        d as i32
    }
}

/// Where the cursor image was drawn on one display, oldest first, so that those
/// places can be painted over again.
pub struct CursorTrail {
    rects: Vec<Rect>,
}

/// What a display does to redraw the cursor.
#[derive(Clone, Debug)]
pub struct TrailStep {
    /// Saved places to paint back, oldest first.
    pub restore: Vec<Rect>,
    /// How many of the oldest saved places to forget after painting them back.
    pub dropped: usize,
    /// Where the cursor image now goes, in display coordinates; its pixels are saved first.
    pub cursor: Rect,
    /// Rectangles to push to the display afterwards: the cursor's, then each kept place.
    pub sync: Vec<Rect>,
}

impl CursorTrail {
    pub closed spec fn spec_rects(self) -> Seq<Rect> {
        self.rects@
    }

    pub fn new() -> (r: CursorTrail)
        ensures
            r.spec_rects().len() == 0,
    {
        CursorTrail { rects: Vec::new() }
    }

    pub fn rects(&self) -> (r: &Vec<Rect>)
        ensures
            r@ == self.spec_rects(),
    {
        &self.rects
    }

    /// Redraws the cursor at global `cursor`, `w`×`h` pixels, on a display whose
    /// origin is `origin`: paint back every saved place, keep the last `TAIL_LENGTH`,
    /// save the new place and push it together with the kept ones.
    pub fn advance(&mut self, cursor: Point, origin: Point, w: u32, h: u32) -> (r: TrailStep)
        ensures
            r.restore@ == old(self).spec_rects(),
            r.dropped == if old(self).spec_rects().len() > TAIL_LENGTH {
                old(self).spec_rects().len() - TAIL_LENGTH
            } else {
                0
            },
            r.cursor == (Rect { x: local(cursor.x, origin.x), y: local(cursor.y, origin.y), w, h }),
            final(self).spec_rects() == old(self).spec_rects().skip(r.dropped as int).push(r.cursor),
            r.sync@ == seq![r.cursor] + final(self).spec_rects(),
    {
        let restore = copy_rects(&self.rects);
        let n = self.rects.len();
        let dropped = if n > TAIL_LENGTH {
            n - TAIL_LENGTH
        } else {
            0
        };
        let mut kept: Vec<Rect> = Vec::new();
        let mut k: usize = dropped;
        while k < n
            invariant
                dropped <= k <= n,
                n == self.rects@.len(),
                kept@ == self.rects@.subrange(dropped as int, k as int),
            decreases n - k,
        {
            kept.push(self.rects[k]);
            k += 1;
            assert(kept@ =~= self.rects@.subrange(dropped as int, k as int));
        }
        let place = Rect { x: local_exec(cursor.x, origin.x), y: local_exec(cursor.y, origin.y), w, h };
        kept.push(place);
        assert(kept@ =~= old(self).spec_rects().skip(dropped as int).push(place));
        let mut sync: Vec<Rect> = Vec::new();
        sync.push(place);
        let mut j: usize = 0;
        while j < kept.len()
            invariant
                j <= kept@.len(),
                sync@ == seq![place] + kept@.subrange(0, j as int),
            decreases kept@.len() - j,
        {
            sync.push(kept[j]);
            j += 1;
            assert(sync@ =~= seq![place] + kept@.subrange(0, j as int));
        }
        assert(kept@.subrange(0, kept@.len() as int) =~= kept@);
        self.rects = kept;
        TrailStep { restore, dropped, cursor: place, sync }
    }
}

fn copy_rects(v: &Vec<Rect>) -> (r: Vec<Rect>)
    ensures
        r@ == v@,
{
    let mut r: Vec<Rect> = Vec::new();
    let mut i: usize = 0;
    while i < v.len()
        invariant
            i <= v@.len(),
            r@ == v@.subrange(0, i as int),
        decreases v@.len() - i,
    {
        r.push(v[i]);
        i += 1;
        assert(r@ =~= v@.subrange(0, i as int));
    }
    assert(r@ =~= v@);
    r
}

} // verus!
