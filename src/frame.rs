use vstd::prelude::*;

use crate::geometry::{Point, Rect, Size};
use crate::layout::{screen_for, DisplayConfiguration};
use crate::options::{finish_options, FrameOptions, OptionsModel};
use crate::protocol::{
    FrameEventModel, FrameEvents, FrameFlags, FrameRequests, ZIndex, MOVE_X, MOVE_Y, RESIZE_X, RESIZE_Y,
};

verus! {

/// The colour a new frame is filled with: opaque mid-grey.
pub const BACKGROUND: u32 = 0xffaaaaaa;

/// The most pixels one frame may hold.
pub const MAX_FRAME_PIXELS: usize = 0x7fff_ffff;

/// A size that a frame's pixel buffer can have.
pub open spec fn valid_extent(s: Size) -> bool {
    s.width >= 0 && s.height >= 0 && s.width * s.height <= MAX_FRAME_PIXELS
}

/// `v` as an `i32`, capped at `i32::MAX`.
pub open spec fn capped(v: u32) -> i32 {
    if v <= i32::MAX as u32 {
        v as i32
    } else {
        i32::MAX
    }
}

/// The pixels of a `w`×`h` buffer after resizing it to `nw`×`nh`: the overlapping
/// top-left part is kept, the rest is background.
pub open spec fn resized(old: Seq<u32>, w: int, h: int, nw: int, nh: int) -> Seq<u32> {
    Seq::new(
        (nw * nh) as nat,
        |i: int|
            if i / nw < h && i % nw < w {
                old[(i / nw) * w + i % nw]
            } else {
                BACKGROUND
            },
    )
}

/// The mathematical content of a `Frame`.
pub struct FrameModel {
    pub id: usize,
    pub title: Seq<char>,
    pub parent: Option<usize>,
    pub last_update: u64,
    pub transparent: bool,
    pub pos: Point,
    pub size: Size,
    pub min_size: Size,
    pub max_size: Size,
    pub pixels: Seq<u32>,
    pub flags: u64,
    pub z_lock: ZIndex,
    pub minimised: bool,
    pub closing: bool,
    /// The rectangle the frame had before it went fullscreen.
    pub saved: Option<Rect>,
    /// Events not yet read by the client, oldest first.
    pub events: Seq<FrameEventModel>,
}

impl FrameModel {
    pub open spec fn size_ok(self, s: Size) -> bool {
        self.min_size.le(s) && s.le(self.max_size) && valid_extent(s)
    }

    pub open spec fn wf(self) -> bool {
        &&& self.size_ok(self.size)
        &&& self.pixels.len() == self.size.width * self.size.height
        &&& self.saved matches Some(r) ==> self.size_ok(
            Size { width: r.w as i32, height: r.h as i32 },
        ) && r.w <= i32::MAX && r.h <= i32::MAX
    }

    pub open spec fn rect(self) -> Rect {
        Rect {
            x: self.pos.x,
            y: self.pos.y,
            w: self.size.width as u32,
            h: self.size.height as u32,
        }
    }

    /// The requested extent, capped to `i32` and clamped between the bounds.
    pub open spec fn fit(self, w: u32, h: u32) -> Size {
        Size { width: capped(w), height: capped(h) }.spec_clamp(self.min_size, self.max_size)
    }

    /// The frame moved to `(x, y)` and resized to `s`, which must be a valid extent.
    pub open spec fn placed(self, x: i32, y: i32, s: Size) -> FrameModel {
        FrameModel {
            pos: Point { x, y },
            size: s,
            pixels: resized(
                self.pixels,
                self.size.width as int,
                self.size.height as int,
                s.width as int,
                s.height as int,
            ),
            ..self
        }
    }

    pub open spec fn with_event(self, e: FrameEventModel) -> FrameModel {
        FrameModel { events: self.events.push(e), ..self }
    }

    /// The frame after a client request, or `None` when the request asks for a
    /// buffer larger than a frame may have. `screens` is the display layout.
    pub open spec fn after_request(
        self,
        req: crate::protocol::FrameRequestModel,
        sizes: Seq<Rect>,
        area: Rect,
    ) -> Option<FrameModel> {
        match req {
            crate::protocol::FrameRequestModel::Position(r) => {
                let s = self.fit(r.w, r.h);
                if valid_extent(s) {
                    let m = self.placed(r.x, r.y, s);
                    Some(m.with_event(FrameEventModel::Position(m.rect())))
                } else {
                    None
                }
            },
            crate::protocol::FrameRequestModel::Fullscreen(true) => {
                let d = screen_for(sizes, area, self.rect());
                let s = self.fit(d.w, d.h);
                if valid_extent(s) {
                    let saved = match self.saved {
                        Some(r) => Some(r),
                        None => Some(self.rect()),
                    };
                    let m = FrameModel { saved, z_lock: ZIndex::Front, ..self.placed(d.x, d.y, s) };
                    Some(m.with_event(FrameEventModel::Position(m.rect())))
                } else {
                    None
                }
            },
            crate::protocol::FrameRequestModel::Fullscreen(false) => {
                match self.saved {
                    Some(r) => {
                        let m = FrameModel {
                            saved: None,
                            ..self.placed(r.x, r.y, Size { width: r.w as i32, height: r.h as i32 })
                        };
                        Some(m.with_event(FrameEventModel::Position(m.rect())))
                    },
                    None => Some(self),
                }
            },
            crate::protocol::FrameRequestModel::Flags(f) => Some(
                FrameModel { flags: f, ..self }.with_event(FrameEventModel::Flags(f)),
            ),
            crate::protocol::FrameRequestModel::Minimise(b) => Some(
                FrameModel { minimised: b, ..self }.with_event(FrameEventModel::Visible(!b)),
            ),
            crate::protocol::FrameRequestModel::ZLock(z) => Some(FrameModel { z_lock: z, ..self }),
            crate::protocol::FrameRequestModel::Close => Some(
                FrameModel { closing: true, ..self }.with_event(FrameEventModel::Close),
            ),
        }
    }
}

/// The extent of a frame, its bounds, its pixel buffer and the rectangle saved
/// by fullscreen, which together obey the frame's size rules.
struct Surface {
    size: Size,
    min_size: Size,
    max_size: Size,
    pixels: Vec<u32>,
    saved: Option<Rect>,
}

impl Surface {
    #[verifier::type_invariant]
    spec fn inv(self) -> bool {
        &&& self.min_size.le(self.size) && self.size.le(self.max_size) && valid_extent(self.size)
        &&& self.pixels@.len() == self.size.width * self.size.height
        &&& self.saved matches Some(r) ==> {
            let s = Size { width: r.w as i32, height: r.h as i32 };
            &&& self.min_size.le(s) && s.le(self.max_size) && valid_extent(s)
            &&& r.w <= i32::MAX && r.h <= i32::MAX
        }
    }
}

/// A frame as it is made from finished options `o`: grey, with default flags, not
/// minimised, closing or fullscreen, and one `Redraw` event queued.
pub open spec fn new_frame(o: OptionsModel, id: usize, now: u64) -> FrameModel {
    FrameModel {
        id,
        title: o.title,
        parent: o.parent,
        last_update: now,
        transparent: o.transparent,
        pos: o.pos,
        size: o.size,
        min_size: o.min_size,
        max_size: o.max_size,
        pixels: Seq::new((o.size.width * o.size.height) as nat, |i: int| BACKGROUND),
        flags: (RESIZE_X + RESIZE_Y + MOVE_X + MOVE_Y) as u64,
        z_lock: o.z_lock,
        minimised: false,
        closing: false,
        saved: None,
        events: seq![FrameEventModel::Redraw],
    }
}

/// The messenger `m` carries the metadata of frame `f`.
pub open spec fn messenger_of(m: FrameMessenger, f: FrameModel) -> bool {
    &&& m.id == f.id
    &&& m.pos == f.pos
    &&& m.size == f.size
    &&& m.last_update == f.last_update
    &&& m.parent == f.parent
    &&& m.title@ == f.title
}

/// A client's window: its geometry, its pixel buffer and its pending events.
pub struct Frame {
    id: usize,
    title: String,
    parent: Option<usize>,
    last_update: u64,
    transparent: bool,
    pos: Point,
    surface: Surface,
    flags: FrameFlags,
    z_lock: ZIndex,
    minimised: bool,
    closing: bool,
    events: Vec<FrameEvents>,
}

pub open spec fn events_view(e: Seq<FrameEvents>) -> Seq<FrameEventModel> {
    e.map_values(|x: FrameEvents| x@)
}

impl View for Frame {
    type V = FrameModel;

    closed spec fn view(&self) -> FrameModel {
        FrameModel {
            id: self.id,
            title: self.title@,
            parent: self.parent,
            last_update: self.last_update,
            transparent: self.transparent,
            pos: self.pos,
            size: self.surface.size,
            min_size: self.surface.min_size,
            max_size: self.surface.max_size,
            pixels: self.surface.pixels@,
            flags: self.flags@,
            z_lock: self.z_lock,
            minimised: self.minimised,
            closing: self.closing,
            saved: self.surface.saved,
            events: events_view(self.events@),
        }
    }
}

proof fn lemma_index_in_grid(q: int, r: int, w: int, h: int)
    requires
        0 <= q < h,
        0 <= r < w,
    ensures
        0 <= q * w + r < w * h,
{
    assert(0 <= q * w + r < w * h) by (nonlinear_arith)
        requires
            0 <= q < h,
            0 <= r < w,
    ;
}

/// The pixels of `old`, a `w`×`h` buffer, laid out in a fresh `nw`×`nh` buffer.
fn resize_pixels(old: &Vec<u32>, w: usize, h: usize, nw: usize, nh: usize) -> (r: Vec<u32>)
    requires
        old@.len() == w * h,
        nw * nh <= MAX_FRAME_PIXELS,
    ensures
        r@ == resized(old@, w as int, h as int, nw as int, nh as int),
{
    let n = nw * nh;
    let olen = old.len();
    let mut r: Vec<u32> = Vec::new();
    let mut i: usize = 0;
    while i < n
        invariant
            i <= n,
            olen == old@.len(),
            n == nw * nh,
            n <= MAX_FRAME_PIXELS,
            old@.len() == w * h,
            r@.len() == i,
            forall|k: int|
                0 <= k < i ==> #[trigger] r@[k] == resized(
                    old@,
                    w as int,
                    h as int,
                    nw as int,
                    nh as int,
                )[k],
        decreases n - i,
    {
        assert(nw > 0) by (nonlinear_arith)
            requires
                i < n,
                n == nw * nh,
        ;
        let q = i / nw;
        let c = i % nw;
        let v = if q < h && c < w {
            proof {
                lemma_index_in_grid(q as int, c as int, w as int, h as int);
            }
            old[q * w + c]
        } else {
            BACKGROUND
        };
        r.push(v);
        i += 1;
    }
    assert(r@ =~= resized(old@, w as int, h as int, nw as int, nh as int));
    r
}

fn cap(v: u32) -> (r: i32)
    ensures
        r == capped(v),
{
    if v <= i32::MAX as u32 {
        v as i32
    } else {
        i32::MAX
    }
}

fn extent_fits(s: Size) -> (r: bool)
    ensures
        r == valid_extent(s),
{
    if s.width < 0 || s.height < 0 {
        return false;
    }
    let w = s.width as u64;
    let h = s.height as u64;
    assert(w * h <= 0x8000_0000 * 0x8000_0000) by (nonlinear_arith)
        requires
            w <= 0x8000_0000,
            h <= 0x8000_0000,
    ;
    w * h <= MAX_FRAME_PIXELS as u64
}

/// Seconds, in milliseconds, after which a frame that has not been updated is dimmed.
pub const STALE_AFTER_MS: u64 = 10_000;

/// Milliseconds over which the dimming ramps up to its full strength.
pub const STALE_RAMP_MS: u64 = 5_000;

/// The alpha of the white overlay on a frame last updated `elapsed_ms` ago: none up to
/// ten seconds, then rising linearly to half of 255 at fifteen seconds, rounded down.
pub open spec fn stale_alpha_spec(elapsed_ms: u64) -> Option<u8> {
    if elapsed_ms <= STALE_AFTER_MS {
        None
    } else {
        let t = if elapsed_ms - STALE_AFTER_MS <= STALE_RAMP_MS {
            elapsed_ms - STALE_AFTER_MS
        } else {
            STALE_RAMP_MS as int
        };
        Some((255 * t / (2 * STALE_RAMP_MS)) as u8)
    }
}

pub fn stale_alpha(elapsed_ms: u64) -> (r: Option<u8>)
    ensures
        r == stale_alpha_spec(elapsed_ms),
{
    if elapsed_ms <= STALE_AFTER_MS {
        None
    } else {
        let t = if elapsed_ms - STALE_AFTER_MS <= STALE_RAMP_MS {
            elapsed_ms - STALE_AFTER_MS
        } else {
            STALE_RAMP_MS
        };
        Some((255 * t / (2 * STALE_RAMP_MS)) as u8)
    }
}

/// A snapshot of a frame's public metadata, handed to plugins.
#[derive(Clone, Debug)]
pub struct FrameMessenger {
    pub id: usize,
    pub pos: Point,
    pub size: Size,
    pub last_update: u64,
    pub parent: Option<usize>,
    pub title: String,
}

impl Frame {
    /// The least and the greatest size the frame may take. Every frame lies between
    /// them and holds exactly one pixel per unit of area.
    pub fn size_bounds(&self) -> (r: (Size, Size))
        ensures
            r.0 == self@.min_size,
            r.1 == self@.max_size,
            self@.wf(),
    {
        proof {
            use_type_invariant(&self.surface);
        }
        (self.surface.min_size, self.surface.max_size)
    }

    /// A frame with id `id` built from `options`: a least size above the greatest is
    /// lowered to it and the size is clamped between the bounds. Fails when that size
    /// is negative or the buffer would exceed `MAX_FRAME_PIXELS`. The frame starts grey, with one
    /// `Redraw` event queued.
    pub fn new(options: FrameOptions, id: usize, now: u64) -> (r: Result<Frame, FrameError>)
        ensures
            r is Ok <==> valid_extent(finish_options(options@).size),
            r matches Ok(f) ==> f@ == new_frame(finish_options(options@), id, now) && f@.wf(),
            r matches Err(e) ==> e == FrameError::InvalidArgument,
    {
        let min_size = options.min_size.min(options.max_size);
        let size = options.size.clamp(min_size, options.max_size);
        if !extent_fits(size) {
            return Err(FrameError::InvalidArgument);
        }
        let n = size.width as usize * size.height as usize;
        let pixels = vec![BACKGROUND; n];
        let mut events = Vec::new();
        events.push(FrameEvents::Redraw);
        let flags = FrameFlags::default_flags();
        let f = Frame {
            id,
            title: options.title,
            parent: options.parent,
            last_update: now,
            transparent: options.transparent,
            pos: options.pos,
            surface: Surface { size, min_size, max_size: options.max_size, pixels, saved: None },
            flags,
            z_lock: options.z_lock,
            minimised: false,
            closing: false,
            events,
        };
        assert(f@.pixels =~= Seq::new((size.width * size.height) as nat, |i: int| BACKGROUND));
        assert(f@.events =~= seq![FrameEventModel::Redraw]);
        Ok(f)
    }

    pub fn id(&self) -> (r: usize)
        ensures
            r == self@.id,
    {
        self.id
    }

    pub fn pos(&self) -> (r: Point)
        ensures
            r == self@.pos,
    {
        self.pos
    }

    pub fn size(&self) -> (r: Size)
        ensures
            r == self@.size,
            self@.wf(),
    {
        proof {
            use_type_invariant(&self.surface);
        }
        self.surface.size
    }

    /// The frame's rectangle in global coordinates.
    pub fn rect(&self) -> (r: Rect)
        ensures
            r == self@.rect(),
            self@.wf(),
    {
        proof {
            use_type_invariant(&self.surface);
        }
        Rect {
            x: self.pos.x,
            y: self.pos.y,
            w: self.surface.size.width as u32,
            h: self.surface.size.height as u32,
        }
    }

    pub fn z_lock(&self) -> (r: ZIndex)
        ensures
            r == self@.z_lock,
    {
        self.z_lock
    }

    pub fn is_closing(&self) -> (r: bool)
        ensures
            r == self@.closing,
    {
        self.closing
    }

    pub fn is_minimised(&self) -> (r: bool)
        ensures
            r == self@.minimised,
    {
        self.minimised
    }

    pub fn is_transparent(&self) -> (r: bool)
        ensures
            r == self@.transparent,
    {
        self.transparent
    }

    pub fn flags(&self) -> (r: FrameFlags)
        ensures
            r@ == self@.flags,
    {
        self.flags
    }

    pub fn last_update(&self) -> (r: u64)
        ensures
            r == self@.last_update,
    {
        self.last_update
    }

    pub fn title(&self) -> (r: &String)
        ensures
            r@ == self@.title,
    {
        &self.title
    }

    pub fn parent(&self) -> (r: Option<usize>)
        ensures
            r == self@.parent,
    {
        self.parent
    }

    /// The pixel buffer, row by row.
    pub fn pixels(&self) -> (r: &[u32])
        ensures
            r@ == self@.pixels,
    {
        self.surface.pixels.as_slice()
    }

    /// Number of events waiting for the client.
    pub fn pending_events(&self) -> (r: usize)
        ensures
            r == self@.events.len(),
    {
        self.events.len()
    }

    /// Records that the client published new contents at time `now`.
    pub fn touch(&mut self, now: u64)
        ensures
            final(self)@ == (FrameModel { last_update: now, ..old(self)@ }),
    {
        self.last_update = now;
    }

    /// The dimming overlay's alpha at time `now`, if the frame is stale.
    pub fn overlay_alpha(&self, now: u64) -> (r: Option<u8>)
        ensures
            r == stale_alpha_spec(
                if now >= self@.last_update {
                    (now - self@.last_update) as u64
                } else {
                    0
                },
            ),
    {
        let elapsed = if now >= self.last_update {
            now - self.last_update
        } else {
            0
        };
        stale_alpha(elapsed)
    }

    /// Queues an event for the client.
    pub fn push_event(&mut self, e: FrameEvents)
        ensures
            final(self)@ == old(self)@.with_event(e@),
    {
        self.events.push(e);
        proof {
            assert(events_view(self.events@) =~= old(self)@.events.push(e@));
        }
    }

    /// The oldest pending event, if any, left in the queue.
    pub fn peek_event(&self) -> (r: Option<&FrameEvents>)
        ensures
            self@.events.len() == 0 ==> r is None,
            self@.events.len() > 0 ==> (r matches Some(e) && e@ == self@.events[0]),
    {
        if self.events.len() == 0 {
            None
        } else {
            Some(&self.events[0])
        }
    }

    /// Takes the oldest pending event, if any.
    pub fn next_event(&mut self) -> (r: Option<FrameEvents>)
        ensures
            old(self)@.events.len() == 0 ==> r is None && final(self)@ == old(self)@,
            old(self)@.events.len() > 0 ==> r is Some && r->0@ == old(self)@.events[0]
                && final(self)@ == (FrameModel { events: old(self)@.events.drop_first(), ..old(self)@ }),
    {
        if self.events.len() == 0 {
            return None;
        }
        let e = self.events.remove(0);
        proof {
            assert(events_view(self.events@) =~= old(self)@.events.drop_first());
        }
        Some(e)
    }

    /// Plain-data snapshot for plugins.
    pub fn get_messenger(&self) -> (r: FrameMessenger)
        ensures
            messenger_of(r, self@),
    {
        FrameMessenger {
            id: self.id,
            pos: self.pos,
            size: self.surface.size,
            last_update: self.last_update,
            parent: self.parent,
            title: self.title.clone(),
        }
    }

    /// The requested extent capped to `i32` and clamped between the frame's bounds.
    fn fit(&self, w: u32, h: u32) -> (r: Size)
        ensures
            r == self@.fit(w, h),
    {
        Size::new(cap(w), cap(h)).clamp(self.surface.min_size, self.surface.max_size)
    }

    /// Applies a client request. `layout` gives the displays that fullscreen picks from.
    /// Fails, leaving the frame as it was, only when the request would need a buffer
    /// larger than `MAX_FRAME_PIXELS`.
    pub fn handle_request(&mut self, req: FrameRequests, layout: &DisplayConfiguration) -> (r:
        Result<(), FrameError>)
        ensures
            old(self)@.after_request(req@, layout.sizes@, layout.area) matches Some(m) ==> r is Ok
                && final(self)@ == m,
            old(self)@.after_request(req@, layout.sizes@, layout.area) is None ==> r == Err::<
                (),
                FrameError,
            >(FrameError::InvalidArgument) && final(self)@ == old(self)@,
    {
        proof {
            use_type_invariant(&self.surface);
        }
        match req {
            FrameRequests::Position(rect) => {
                let s = self.fit(rect.w, rect.h);
                if !extent_fits(s) {
                    return Err(FrameError::InvalidArgument);
                }
                self.place(rect.x, rect.y, s);
                let now = self.rect();
                self.push_event(FrameEvents::Position(now));
            },
            FrameRequests::Fullscreen(true) => {
                let current = self.rect();
                let d = layout.fill_screen(&current);
                let s = self.fit(d.w, d.h);
                if !extent_fits(s) {
                    return Err(FrameError::InvalidArgument);
                }
                if self.surface.saved.is_none() {
                    self.surface.saved = Some(current);
                }
                self.place(d.x, d.y, s);
                self.z_lock = ZIndex::Front;
                let now = self.rect();
                self.push_event(FrameEvents::Position(now));
            },
            FrameRequests::Fullscreen(false) => {
                if let Some(back) = self.surface.saved {
                    self.place(back.x, back.y, Size::new(back.w as i32, back.h as i32));
                    self.surface.saved = None;
                    let now = self.rect();
                    self.push_event(FrameEvents::Position(now));
                }
            },
            FrameRequests::Flags(f) => {
                self.flags = f;
                self.push_event(FrameEvents::Flags(f));
            },
            FrameRequests::Minimise(b) => {
                self.minimised = b;
                self.push_event(FrameEvents::Visible(!b));
            },
            FrameRequests::ZLock(z) => {
                self.z_lock = z;
            },
            FrameRequests::Close => {
                self.closing = true;
                self.push_event(FrameEvents::Close);
            },
        }
        Ok(())
    }

    fn place(&mut self, x: i32, y: i32, s: Size)
        requires
            old(self)@.size_ok(s),
        ensures
            final(self)@ == old(self)@.placed(x, y, s),
    {
        proof {
            use_type_invariant(&self.surface);
        }
        let pixels = resize_pixels(
            &self.surface.pixels,
            self.surface.size.width as usize,
            self.surface.size.height as usize,
            s.width as usize,
            s.height as usize,
        );
        self.pos = Point::new(x, y);
        self.surface = Surface {
            size: s,
            min_size: self.surface.min_size,
            max_size: self.surface.max_size,
            pixels,
            saved: self.surface.saved,
        };
    }
}

/// Every request keeps a frame within its size rules: its size between its bounds
/// and exactly one pixel per unit of area.
pub proof fn lemma_request_keeps_frame_rules(
    m: FrameModel,
    req: crate::protocol::FrameRequestModel,
    sizes: Seq<Rect>,
    area: Rect,
)
    requires
        m.wf(),
    ensures
        m.after_request(req, sizes, area) matches Some(n) ==> n.wf(),
{
    assert(m.min_size.le(m.max_size));
    match req {
        crate::protocol::FrameRequestModel::Fullscreen(true) => {
            let d = screen_for(sizes, area, m.rect());
            let s = m.fit(d.w, d.h);
            if valid_extent(s) {
                assert(s.width * s.height >= 0) by (nonlinear_arith)
                    requires
                        s.width >= 0,
                        s.height >= 0,
                ;
            }
        },
        crate::protocol::FrameRequestModel::Position(r) => {
            let s = m.fit(r.w, r.h);
            if valid_extent(s) {
                assert(s.width * s.height >= 0) by (nonlinear_arith)
                    requires
                        s.width >= 0,
                        s.height >= 0,
                ;
            }
        },
        crate::protocol::FrameRequestModel::Fullscreen(false) => {
            if let Some(r) = m.saved {
                let s = Size { width: r.w as i32, height: r.h as i32 };
                assert(s.width * s.height >= 0) by (nonlinear_arith)
                    requires
                        s.width >= 0,
                        s.height >= 0,
                ;
            }
        },
        _ => {},
    }
}

/// Entering fullscreen and then leaving it puts the frame back on exactly the
/// rectangle it had before.
pub proof fn lemma_fullscreen_round_trip(m: FrameModel, sizes: Seq<Rect>, area: Rect)
    requires
        m.wf(),
        m.saved is None,
        m.after_request(crate::protocol::FrameRequestModel::Fullscreen(true), sizes, area) is Some,
    ensures
        ({
            let m1 = m.after_request(
                crate::protocol::FrameRequestModel::Fullscreen(true),
                sizes,
                area,
            )->0;
            let m2 = m1.after_request(
                crate::protocol::FrameRequestModel::Fullscreen(false),
                sizes,
                area,
            );
            &&& m1.z_lock == ZIndex::Front
            &&& m2 is Some
            &&& m2->0.rect() == m.rect()
            &&& m2->0.saved is None
        }),
{
}

/// Why a frame could not be made or changed.
#[derive(Clone, Copy, Debug, PartialEq, Eq, Structural)]
pub enum FrameError {
    InvalidArgument,
}

} // verus!
