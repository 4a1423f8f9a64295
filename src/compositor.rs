use vstd::prelude::*;

use crate::cursor::{clamp_point, offset, offset_exec, Cursor};
use crate::frame::{messenger_of, new_frame, valid_extent, Frame, FrameModel};
use crate::geometry::{Point, Rect, Size};
use crate::layout::DisplayConfiguration;
use crate::options::{finish_options, FrameOptions, OptionsModel};
use crate::plugin::{Error, PluginEvent, PluginRequest, PluginResponse};
use crate::protocol::{FrameEventModel, FrameEvents, FrameRequests, Input, InputModel, ZIndex};
use crate::wire::{event_bytes, event_encodable, request_of, Serialise};

verus! {

/// A rectangle whose right and bottom edges stay within `i32`.
pub open spec fn edges_fit(r: Rect) -> bool {
    r.x + r.w <= i32::MAX && r.y + r.h <= i32::MAX
}

/// Displays that can be arranged: at least one, none empty, none reaching past the
/// `i32` range, no two overlapping.
pub open spec fn valid_layout(ds: Seq<Rect>) -> bool {
    &&& ds.len() > 0
    &&& forall|k: int| 0 <= k < ds.len() ==> !(#[trigger] ds[k]).is_empty_spec() && edges_fit(ds[k])
    &&& forall|i: int, j: int| 0 <= i < j < ds.len() ==> !(#[trigger] ds[i]).overlaps_spec(#[trigger] ds[j])
}

pub open spec fn in_union(ds: Seq<Rect>, p: Point) -> bool {
    exists|k: int| 0 <= k < ds.len() && (#[trigger] ds[k]).contains_spec(p)
}

/// Least left edge, least top edge, greatest right edge and greatest bottom edge.
pub open spec fn bounds_of(ds: Seq<Rect>) -> (int, int, int, int)
    decreases ds.len(),
{
    if ds.len() == 0 {
        (i32::MAX as int, i32::MAX as int, i32::MIN as int, i32::MIN as int)
    } else {
        let b = bounds_of(ds.drop_last());
        let r = ds.last();
        (
            if r.x < b.0 { r.x as int } else { b.0 },
            if r.y < b.1 { r.y as int } else { b.1 },
            if r.x + r.w > b.2 { r.x + r.w } else { b.2 },
            if r.y + r.h > b.3 { r.y + r.h } else { b.3 },
        )
    }
}

proof fn lemma_bounds_of(ds: Seq<Rect>)
    requires
        forall|k: int| 0 <= k < ds.len() ==> edges_fit(#[trigger] ds[k]),
    ensures
        forall|k: int|
            0 <= k < ds.len() ==> bounds_of(ds).0 <= (#[trigger] ds[k]).x && bounds_of(ds).1 <= ds[k].y
                && ds[k].x + ds[k].w <= bounds_of(ds).2 && ds[k].y + ds[k].h <= bounds_of(ds).3,
        ds.len() > 0 ==> i32::MIN <= bounds_of(ds).0 <= i32::MAX && i32::MIN <= bounds_of(ds).1
            <= i32::MAX && i32::MIN <= bounds_of(ds).2 <= i32::MAX && i32::MIN <= bounds_of(ds).3
            <= i32::MAX,
    decreases ds.len(),
{
    if ds.len() > 0 {
        lemma_bounds_of(ds.drop_last());
        assert(edges_fit(ds[ds.len() - 1]));
        if ds.len() == 1 {
            assert(bounds_of(ds.drop_last()) == (
                i32::MAX as int,
                i32::MAX as int,
                i32::MIN as int,
                i32::MIN as int,
            ));
        }
        assert forall|k: int| 0 <= k < ds.len() implies bounds_of(ds).0 <= (#[trigger] ds[k]).x
            && bounds_of(ds).1 <= ds[k].y && ds[k].x + ds[k].w <= bounds_of(ds).2 && ds[k].y
            + ds[k].h <= bounds_of(ds).3 by {
            if k < ds.len() - 1 {
                assert(ds.drop_last()[k] == ds[k]);
            }
        }
    }
}

/// A damage rectangle for one display, in that display's coordinates.
#[derive(Clone, Copy, Debug, PartialEq, Eq, Structural)]
pub struct Damage {
    pub display: usize,
    pub rect: Rect,
}

/// The damage that publishing the frame rectangle `r` causes: for each display that
/// holds the frame's origin, `r` moved into that display's coordinates.
pub open spec fn damage_for(ds: Seq<Rect>, r: Rect) -> Seq<Damage>
    decreases ds.len(),
{
    if ds.len() == 0 {
        seq![]
    } else {
        let rest = damage_for(ds.drop_last(), r);
        let d = ds.last();
        if d.contains_spec(Point { x: r.x, y: r.y }) {
            rest.push(
                Damage {
                    display: (ds.len() - 1) as usize,
                    rect: Rect { x: (r.x - d.x) as i32, y: (r.y - d.y) as i32, w: r.w, h: r.h },
                },
            )
        } else {
            rest
        }
    }
}

/// The byte size of a pixel buffer of `n` pixels, rounded up to whole pages.
pub open spec fn mapped_len(n: int) -> int {
    ((n * 4 + PAGE_SIZE - 1) / PAGE_SIZE as int) * PAGE_SIZE
}

/// Size of a memory page.
pub const PAGE_SIZE: usize = 4096;

/// The input record code for relative pointer motion.
pub const MOTION: i64 = 11;

/// Nanoseconds between two compositions: sixty per second.
pub const FRAME_INTERVAL_NS: u64 = 1_000_000_000 / 60;

/// Whether a new composition is due, the last one having been at `last_ns`.
pub fn frame_due(last_ns: u64, now_ns: u64) -> (r: bool)
    ensures
        r == (now_ns >= last_ns && now_ns - last_ns >= FRAME_INTERVAL_NS),
{
    now_ns >= last_ns && now_ns - last_ns >= FRAME_INTERVAL_NS
}

/// Where the cursor ends after moving by `(dx, dy)` from `p`: the target clamped to the
/// box around all displays if that point lies on a display, else clamped to the display
/// that holds `p`.
pub open spec fn motion_target(ds: Seq<Rect>, lo: Point, hi: Point, p: Point, dx: i32, dy: i32) -> Point {
    let t = clamp_point(Point { x: offset(p.x, dx), y: offset(p.y, dy) }, lo, hi);
    if in_union(ds, t) {
        t
    } else {
        let k = choose|k: int| 0 <= k < ds.len() && (#[trigger] ds[k]).contains_spec(p);
        clamp_point(
            t,
            Point { x: ds[k].x, y: ds[k].y },
            Point { x: (ds[k].x + ds[k].w - 1) as i32, y: (ds[k].y + ds[k].h - 1) as i32 },
        )
    }
}

/// `a` saturated into the `i32` range.
pub open spec fn saturate(a: i64) -> i32 {
    if a > i32::MAX {
        i32::MAX
    } else if a < i32::MIN {
        i32::MIN
    } else {
        a as i32
    }
}

/// Index of the last frame with stacking preference `z` whose rectangle holds `p`.
pub open spec fn top_with(f: Seq<FrameModel>, p: Point, z: ZIndex) -> Option<int>
    decreases f.len(),
{
    if f.len() == 0 {
        None
    } else if f.last().z_lock == z && f.last().rect().contains_spec(p) {
        Some(f.len() - 1)
    } else {
        top_with(f.drop_last(), p, z)
    }
}

proof fn lemma_top_with(f: Seq<FrameModel>, p: Point, z: ZIndex)
    ensures
        top_with(f, p, z) matches Some(i) ==> 0 <= i < f.len() && f[i].z_lock == z
            && f[i].rect().contains_spec(p),
    decreases f.len(),
{
    if f.len() > 0 {
        lemma_top_with(f.drop_last(), p, z);
    }
}

/// Index of the topmost frame under `p`: front frames above automatic ones above back
/// ones, and within each group later frames above earlier ones.
pub open spec fn frame_at(f: Seq<FrameModel>, p: Point) -> Option<int> {
    match top_with(f, p, ZIndex::Front) {
        Some(i) => Some(i),
        None => match top_with(f, p, ZIndex::Automatic) {
            Some(i) => Some(i),
            None => top_with(f, p, ZIndex::Back),
        },
    }
}

/// Indices, in order, of the frames with stacking preference `z`.
pub open spec fn indices_with(f: Seq<FrameModel>, z: ZIndex) -> Seq<usize>
    decreases f.len(),
{
    if f.len() == 0 {
        seq![]
    } else if f.last().z_lock == z {
        indices_with(f.drop_last(), z).push((f.len() - 1) as usize)
    } else {
        indices_with(f.drop_last(), z)
    }
}

/// The order in which frames are painted: back ones, then automatic ones, then front
/// ones, each group oldest first.
pub open spec fn painter_order(f: Seq<FrameModel>) -> Seq<usize> {
    indices_with(f, ZIndex::Back) + indices_with(f, ZIndex::Automatic) + indices_with(
        f,
        ZIndex::Front,
    )
}

/// Wherever a move starts on a display of a valid layout, it ends on a display.
pub proof fn lemma_motion_stays_on_displays(
    ds: Seq<Rect>,
    lo: Point,
    hi: Point,
    p: Point,
    dx: i32,
    dy: i32,
)
    requires
        valid_layout(ds),
        in_union(ds, p),
    ensures
        in_union(ds, motion_target(ds, lo, hi, p, dx, dy)),
{
    let t = clamp_point(Point { x: offset(p.x, dx), y: offset(p.y, dy) }, lo, hi);
    if !in_union(ds, t) {
        let k = choose|k: int| 0 <= k < ds.len() && (#[trigger] ds[k]).contains_spec(p);
        assert(!ds[k].is_empty_spec() && edges_fit(ds[k]));
        let q = clamp_point(
            t,
            Point { x: ds[k].x, y: ds[k].y },
            Point { x: (ds[k].x + ds[k].w - 1) as i32, y: (ds[k].y + ds[k].h - 1) as i32 },
        );
        assert(ds[k].contains_spec(q));
    }
}

pub open spec fn frames_view(f: Seq<Frame>) -> Seq<FrameModel> {
    f.map_values(|x: Frame| x@)
}

/// The compositor's state: the display layout, the frame table, the cursor and the
/// events waiting for the plugins.
pub struct Compositor {
    layout: DisplayConfiguration,
    frames: Vec<Frame>,
    cursor: Cursor,
    last_id: usize,
    buttons: u8,
    keys: Vec<u16>,
    events: Vec<PluginEvent>,
    paints: Vec<(Rect, Vec<u32>)>,
}

impl Compositor {
    /// The live frames, oldest first.
    pub closed spec fn spec_frames(self) -> Seq<FrameModel> {
        frames_view(self.frames@)
    }

    /// The rectangles of the displays.
    pub closed spec fn spec_displays(self) -> Seq<Rect> {
        self.layout.sizes@
    }

    /// The greatest frame id issued so far, 0 before the first.
    pub closed spec fn spec_last_id(self) -> usize {
        self.last_id
    }

    pub closed spec fn spec_cursor(self) -> Point {
        self.cursor.spec_pos()
    }

    /// The bounding box of the displays.
    pub closed spec fn spec_area(self) -> Rect {
        self.layout.area
    }

    pub closed spec fn spec_prev_cursor(self) -> Point {
        self.cursor.spec_prev_pos()
    }

    pub closed spec fn spec_events(self) -> Seq<PluginEvent> {
        self.events@
    }

    /// Buffers plugins asked to paint, with where, oldest first.
    pub closed spec fn spec_paints(self) -> Seq<(Rect, Vec<u32>)> {
        self.paints@
    }

    pub closed spec fn spec_buttons(self) -> u8 {
        self.buttons
    }

    pub closed spec fn spec_keys(self) -> Seq<u16> {
        self.keys@
    }

    pub closed spec fn spec_box(self) -> (Point, Point) {
        (self.cursor.spec_min(), self.cursor.spec_max())
    }

    /// The state rules: ids strictly increasing, positive and never above the last one
    /// issued; every frame within its size rules; the cursor on a display.
    pub closed spec fn wf(self) -> bool {
        &&& valid_layout(self.layout.sizes@)
        &&& forall|i: int, j: int|
            0 <= i < j < self.frames@.len() ==> (#[trigger] self.frames@[i])@.id < (
            #[trigger] self.frames@[j])@.id
        &&& forall|i: int|
            0 <= i < self.frames@.len() ==> 1 <= (#[trigger] self.frames@[i])@.id <= self.last_id
                && self.frames@[i]@.wf()
        &&& in_union(self.layout.sizes@, self.cursor.spec_pos())
        &&& {
            let b = bounds_of(self.layout.sizes@);
            &&& self.cursor.spec_min() == Point { x: b.0 as i32, y: b.1 as i32 }
            &&& self.cursor.spec_max() == Point { x: (b.2 - 1) as i32, y: (b.3 - 1) as i32 }
        }
    }

    /// `after` is `self` with one frame made from options `o` at time `now` under the
    /// next id, its creation reported to the plugins, and nothing else changed.
    pub open spec fn made_frame(self, after: Compositor, o: OptionsModel, now: u64) -> bool {
        let n = self.spec_frames().len();
        let f = after.spec_frames()[n as int];
        &&& after.spec_last_id() == self.spec_last_id() + 1
        &&& after.spec_frames().len() == n + 1
        &&& after.spec_frames().subrange(0, n as int) == self.spec_frames()
        &&& f == new_frame(finish_options(o), after.spec_last_id(), now)
        &&& forall|i: int| 0 <= i < n ==> (#[trigger] self.spec_frames()[i]).id < f.id
        &&& after.spec_events().len() == self.spec_events().len() + 1
        &&& after.spec_events().drop_last() == self.spec_events()
        &&& (after.spec_events().last() matches PluginEvent::OnFrameCreate(m) && messenger_of(m, f))
        &&& after.spec_displays() == self.spec_displays()
        &&& after.spec_area() == self.spec_area()
        &&& after.spec_cursor() == self.spec_cursor()
        &&& after.spec_paints() == self.spec_paints()
    }

    /// `after` is `self` without the frame `id`, its destruction reported to the plugins,
    /// and nothing else changed.
    pub open spec fn closed_frame(self, after: Compositor, id: usize) -> bool {
        &&& exists|i: int|
            0 <= i < self.spec_frames().len() && (#[trigger] self.spec_frames()[i]).id == id
                && after.spec_frames() == self.spec_frames().remove(i) && (
            after.spec_events().last() matches PluginEvent::OnFrameDestroy(m) && messenger_of(
                m,
                self.spec_frames()[i],
            ))
        &&& after.spec_events().len() == self.spec_events().len() + 1
        &&& after.spec_events().drop_last() == self.spec_events()
        &&& after.spec_last_id() == self.spec_last_id()
        &&& after.spec_displays() == self.spec_displays()
        &&& after.spec_area() == self.spec_area()
        &&& after.spec_cursor() == self.spec_cursor()
        &&& after.spec_paints() == self.spec_paints()
    }

    pub open spec fn has_frame(self, id: usize) -> bool {
        exists|i: int| 0 <= i < self.spec_frames().len() && (#[trigger] self.spec_frames()[i]).id == id
    }

    /// Builds the compositor over the displays `displays`. Fails with `InvalidArgument`
    /// unless they form a valid layout. The cursor starts in the middle of the first display.
    pub fn new(displays: Vec<Rect>) -> (r: Result<Compositor, Error>)
        ensures
            r is Ok <==> valid_layout(displays@),
            r is Err ==> r == Err::<Compositor, Error>(Error::InvalidArgument),
            r matches Ok(c) ==> {
                &&& c.wf()
                &&& c.spec_displays() == displays@
                &&& c.spec_frames().len() == 0
                &&& c.spec_last_id() == 0
                &&& c.spec_events().len() == 0
                &&& c.spec_paints().len() == 0
                &&& {
                    let b = bounds_of(displays@);
                    &&& c.spec_area() == (Rect {
                        x: b.0 as i32,
                        y: b.1 as i32,
                        w: (b.2 - b.0) as u32,
                        h: (b.3 - b.1) as u32,
                    })
                    &&& c.spec_box() == (Point { x: b.0 as i32, y: b.1 as i32 }, Point {
                        x: (b.2 - 1) as i32,
                        y: (b.3 - 1) as i32,
                    })
                }
                &&& c.spec_cursor() == (Point {
                    x: (displays@[0].x + displays@[0].w / 2) as i32,
                    y: (displays@[0].y + displays@[0].h / 2) as i32,
                })
            },
    {
        if !check_layout(&displays) {
            return Err(Error::InvalidArgument);
        }
        let n = displays.len();
        let mut min_x: i32 = i32::MAX;
        let mut min_y: i32 = i32::MAX;
        let mut max_x: i32 = i32::MIN;
        let mut max_y: i32 = i32::MIN;
        let mut i: usize = 0;
        assert(displays@.subrange(0, 0) =~= Seq::<Rect>::empty());
        while i < n
            invariant
                i <= n,
                n == displays@.len(),
                valid_layout(displays@),
                bounds_of(displays@.subrange(0, i as int)) == (min_x as int, min_y as int, max_x as int, max_y as int),
            decreases n - i,
        {
            let d = displays[i];
            assert(displays@.subrange(0, i + 1).drop_last() =~= displays@.subrange(0, i as int));
            assert(edges_fit(displays@[i as int]));
            if d.x < min_x {
                min_x = d.x;
            }
            if d.y < min_y {
                min_y = d.y;
            }
            if d.x as i64 + d.w as i64 > max_x as i64 {
                max_x = (d.x as i64 + d.w as i64) as i32;
            }
            if d.y as i64 + d.h as i64 > max_y as i64 {
                max_y = (d.y as i64 + d.h as i64) as i32;
            }
            i += 1;
        }
        assert(displays@.subrange(0, n as int) =~= displays@);
        proof {
            lemma_bounds_of(displays@);
        }
        let first = displays[0];
        assert(!displays@[0].is_empty_spec() && edges_fit(displays@[0]));
        let mut cursor = Cursor::new(min_x, max_x - 1, min_y, max_y - 1);
        let start = Point::new(
            (first.x as i64 + first.w as i64 / 2) as i32,
            (first.y as i64 + first.h as i64 / 2) as i32,
        );
        cursor.set_pos(start);
        assert(displays@[0].contains_spec(start));
        let area = Rect {
            x: min_x,
            y: min_y,
            w: (max_x as i64 - min_x as i64) as u32,
            h: (max_y as i64 - min_y as i64) as u32,
        };
        let c = Compositor {
            layout: DisplayConfiguration { sizes: displays, area },
            frames: Vec::new(),
            cursor,
            last_id: 0,
            buttons: 0,
            keys: Vec::new(),
            events: Vec::new(),
            paints: Vec::new(),
        };
        assert(c.spec_frames() =~= Seq::<FrameModel>::empty());
        Ok(c)
    }
}

impl Compositor {
    proof fn lemma_ids_unique(&self, i: int, j: int)
        requires
            self.wf(),
            0 <= i < self.spec_frames().len(),
            0 <= j < self.spec_frames().len(),
            self.spec_frames()[i].id == self.spec_frames()[j].id,
        ensures
            i == j,
    {
        if i < j {
            assert(self.frames@[i]@.id < self.frames@[j]@.id);
        } else if j < i {
            assert(self.frames@[j]@.id < self.frames@[i]@.id);
        }
    }

    /// Position in the table of the frame with id `id`.
    fn find(&self, id: usize) -> (r: Option<usize>)
        requires
            self.wf(),
        ensures
            r is Some <==> self.has_frame(id),
            r matches Some(i) ==> i < self.spec_frames().len() && self.spec_frames()[i as int].id == id,
    {
        let mut i: usize = 0;
        while i < self.frames.len()
            invariant
                i <= self.frames@.len(),
                forall|k: int| 0 <= k < i ==> (#[trigger] self.spec_frames()[k]).id != id,
            decreases self.frames@.len() - i,
        {
            if self.frames[i].id() == id {
                return Some(i);
            }
            i += 1;
        }
        None
    }

    /// Number of live frames.
    pub fn frame_count(&self) -> (r: usize)
        ensures
            r == self.spec_frames().len(),
    {
        self.frames.len()
    }

    /// The frame at position `i` of the table, oldest first.
    pub fn frame_at_index(&self, i: usize) -> (r: &Frame)
        requires
            i < self.spec_frames().len(),
        ensures
            r@ == self.spec_frames()[i as int],
    {
        &self.frames[i]
    }

    /// The rectangles of the displays.
    pub fn displays(&self) -> (r: &Vec<Rect>)
        ensures
            r@ == self.spec_displays(),
    {
        &self.layout.sizes
    }

    /// The display layout.
    pub fn get_layout(&self) -> (r: &DisplayConfiguration)
        ensures
            r.sizes@ == self.spec_displays(),
            r.area == self.spec_area(),
    {
        &self.layout
    }

    /// Where the cursor is; always on one of the displays.
    pub fn cursor_pos(&self) -> (r: Point)
        requires
            self.wf(),
        ensures
            r == self.spec_cursor(),
            in_union(self.spec_displays(), r),
    {
        self.cursor.get_pos()
    }

    /// Where the cursor was before its last move.
    pub fn cursor_prev_pos(&self) -> (r: Point)
        ensures
            r == self.spec_prev_cursor(),
    {
        self.cursor.get_prev_pos()
    }

    /// The cursor itself.
    pub fn cursor(&self) -> (r: &Cursor)
        ensures
            r.spec_pos() == self.spec_cursor(),
    {
        &self.cursor
    }

    /// The live frame with id `id`, if any.
    pub fn get_frame_by_id(&self, id: usize) -> (r: Option<&Frame>)
        requires
            self.wf(),
        ensures
            r is Some <==> self.has_frame(id),
            forall|i: int|
                0 <= i < self.spec_frames().len() && (#[trigger] self.spec_frames()[i]).id == id
                    ==> (r matches Some(f) && f@ == self.spec_frames()[i]),
    {
        match self.find(id) {
            Some(i) => {
                proof {
                    assert forall|k: int|
                        0 <= k < self.spec_frames().len() && (#[trigger] self.spec_frames()[k]).id
                            == id implies k == i by {
                        self.lemma_ids_unique(k, i as int);
                    }
                }
                Some(&self.frames[i])
            },
            None => None,
        }
    }

    /// Creates a frame from `options` at time `now`, under the next id.
    pub fn mk_frame(&mut self, options: FrameOptions, now: u64) -> (r: Result<usize, Error>)
        requires
            old(self).wf(),
        ensures
            final(self).wf(),
            old(self).spec_last_id() == usize::MAX ==> r == Err::<usize, Error>(Error::NoSpace)
                && *final(self) == *old(self),
            old(self).spec_last_id() < usize::MAX && !valid_extent(finish_options(options@).size)
                ==> r == Err::<usize, Error>(Error::InvalidArgument) && *final(self) == *old(self),
            old(self).spec_last_id() < usize::MAX && valid_extent(finish_options(options@).size)
                ==> r == Ok::<usize, Error>((old(self).spec_last_id() + 1) as usize) && old(
                self,
            ).made_frame(*final(self), options@, now),
    {
        if self.last_id == usize::MAX {
            return Err(Error::NoSpace);
        }
        let id = self.last_id + 1;
        let frame = match Frame::new(options, id, now) {
            Ok(f) => f,
            Err(_) => {
                return Err(Error::InvalidArgument);
            },
        };
        let _ = frame.size_bounds();
        let messenger = frame.get_messenger();
        let ghost old_frames = self.frames@;
        self.frames.push(frame);
        self.last_id = id;
        self.events.push(PluginEvent::OnFrameCreate(messenger));
        proof {
            assert(self.spec_frames().subrange(0, old_frames.len() as int) =~= frames_view(old_frames));
            assert forall|i: int, j: int|
                0 <= i < j < self.frames@.len() implies (#[trigger] self.frames@[i])@.id < (
                #[trigger] self.frames@[j])@.id by {
                if j < old_frames.len() {
                    assert(old_frames[i] == self.frames@[i]);
                    assert(old_frames[j] == self.frames@[j]);
                } else {
                    assert(old_frames[i] == self.frames@[i]);
                }
            }
            assert forall|i: int| 0 <= i < self.frames@.len() implies 1 <= (
            #[trigger] self.frames@[i])@.id <= self.last_id && self.frames@[i]@.wf() by {
                if i < old_frames.len() {
                    assert(old_frames[i] == self.frames@[i]);
                }
            }
            assert(self.spec_events().drop_last() =~= old(self).spec_events());
        }
        Ok(id)
    }

    /// Destroys the frame with id `id`.
    pub fn close_frame(&mut self, id: usize) -> (r: Result<(), Error>)
        requires
            old(self).wf(),
        ensures
            final(self).wf(),
            r is Err <==> !old(self).has_frame(id),
            r is Err ==> r == Err::<(), Error>(Error::NotFound) && *final(self) == *old(self),
            r is Ok ==> old(self).closed_frame(*final(self), id),
            !final(self).has_frame(id),
            final(self).spec_last_id() == old(self).spec_last_id(),
            final(self).spec_displays() == old(self).spec_displays(),
            final(self).spec_cursor() == old(self).spec_cursor(),
    {
        let i = match self.find(id) {
            Some(i) => i,
            None => {
                return Err(Error::NotFound);
            },
        };
        let ghost old_frames = self.frames@;
        let frame = self.frames.remove(i);
        self.events.push(PluginEvent::OnFrameDestroy(frame.get_messenger()));
        proof {
            assert(self.spec_frames() =~= frames_view(old_frames).remove(i as int));
            assert forall|a: int, b: int|
                0 <= a < b < self.frames@.len() implies (#[trigger] self.frames@[a])@.id < (
                #[trigger] self.frames@[b])@.id by {
                let a2 = if a < i { a } else { a + 1 };
                let b2 = if b < i { b } else { b + 1 };
                assert(self.frames@[a] == old_frames[a2]);
                assert(self.frames@[b] == old_frames[b2]);
            }
            assert forall|a: int| 0 <= a < self.frames@.len() implies 1 <= (
            #[trigger] self.frames@[a])@.id <= self.last_id && self.frames@[a]@.wf() by {
                let a2 = if a < i { a } else { a + 1 };
                assert(self.frames@[a] == old_frames[a2]);
            }
            assert(!self.has_frame(id)) by {
                if self.has_frame(id) {
                    let a = choose|a: int| 0 <= a < self.spec_frames().len() && (#[trigger] self.spec_frames()[a]).id == id;
                    let a2 = if a < i { a } else { a + 1 };
                    assert(self.frames@[a] == old_frames[a2]);
                    old(self).lemma_ids_unique(a2, i as int);
                }
            }
            assert(self.spec_events().drop_last() =~= old(self).spec_events());
        }
        Ok(())
    }

    proof fn lemma_update_keeps_wf(&self, other: &Compositor, i: int)
        requires
            self.wf(),
            0 <= i < self.frames@.len(),
            other.frames@.len() == self.frames@.len(),
            forall|k: int| 0 <= k < self.frames@.len() && k != i ==> other.frames@[k] == self.frames@[k],
            other.frames@[i]@.id == self.frames@[i]@.id,
            other.frames@[i]@.wf(),
            other.layout == self.layout,
            other.cursor == self.cursor,
            other.last_id == self.last_id,
        ensures
            other.wf(),
    {
        assert forall|a: int, b: int|
            0 <= a < b < other.frames@.len() implies (#[trigger] other.frames@[a])@.id < (
            #[trigger] other.frames@[b])@.id by {
            assert(self.frames@[a]@.id < self.frames@[b]@.id);
        }
        assert forall|a: int| 0 <= a < other.frames@.len() implies 1 <= (
        #[trigger] other.frames@[a])@.id <= other.last_id && other.frames@[a]@.wf() by {
            assert(1 <= self.frames@[a]@.id <= self.last_id && self.frames@[a]@.wf());
        }
    }

    /// A client published new contents of frame `id` at time `now`. Returns the damage
    /// to push to the displays: the frame rectangle, for each display holding its origin.
    pub fn fsync(&mut self, id: usize, now: u64) -> (r: Result<Vec<Damage>, Error>)
        requires
            old(self).wf(),
        ensures
            final(self).wf(),
            r is Err <==> !old(self).has_frame(id),
            r is Err ==> r == Err::<Vec<Damage>, Error>(Error::NotFound) && *final(self) == *old(self),
            r is Ok ==> exists|i: int|
                0 <= i < old(self).spec_frames().len() && (#[trigger] old(self).spec_frames()[i]).id
                    == id && final(self).spec_frames() == old(self).spec_frames().update(
                    i,
                    FrameModel { last_update: now, ..old(self).spec_frames()[i] },
                ) && r->Ok_0@ == damage_for(old(self).spec_displays(), old(self).spec_frames()[i].rect())
                    && (final(self).spec_events().last() matches PluginEvent::OnFrameUpdate(m)
                    && messenger_of(m, final(self).spec_frames()[i])),
            r is Ok ==> final(self).spec_events().drop_last() == old(self).spec_events(),
            r is Ok ==> final(self).spec_events().len() == old(self).spec_events().len() + 1,
            final(self).spec_last_id() == old(self).spec_last_id(),
            final(self).spec_displays() == old(self).spec_displays(),
            final(self).spec_cursor() == old(self).spec_cursor(),
    {
        let i = match self.find(id) {
            Some(i) => i,
            None => {
                return Err(Error::NotFound);
            },
        };
        let ghost before = *self;
        self.frames[i].touch(now);
        proof {
            before.lemma_update_keeps_wf(self, i as int);
            assert(self.spec_frames() =~= before.spec_frames().update(
                i as int,
                FrameModel { last_update: now, ..before.spec_frames()[i as int] },
            ));
        }
        let rect = self.frames[i].rect();
        let messenger = self.frames[i].get_messenger();
        self.events.push(PluginEvent::OnFrameUpdate(messenger));
        assert(self.spec_events().drop_last() =~= old(self).spec_events());
        Ok(damage_rects(&self.layout.sizes, rect))
    }

    /// Where in frame `id`'s buffer a client mapping of `size` bytes at byte `offset`
    /// starts. The mapping must end within the buffer rounded up to whole pages.
    pub fn fmap(&self, id: usize, offset: usize, size: usize) -> (r: Result<usize, Error>)
        requires
            self.wf(),
        ensures
            !self.has_frame(id) ==> r == Err::<usize, Error>(Error::NotFound),
            forall|i: int|
                0 <= i < self.spec_frames().len() && (#[trigger] self.spec_frames()[i]).id == id
                    ==> r == if offset + size <= mapped_len(self.spec_frames()[i].pixels.len() as int) {
                    Ok::<usize, Error>(offset)
                } else {
                    Err::<usize, Error>(Error::InvalidArgument)
                },
    {
        match self.find(id) {
            Some(i) => {
                let n = self.frames[i].pixels().len() as u128;
                let limit = (n * 4 + (PAGE_SIZE as u128 - 1)) / PAGE_SIZE as u128 * PAGE_SIZE as u128;
                proof {
                    assert forall|k: int|
                        0 <= k < self.spec_frames().len() && (#[trigger] self.spec_frames()[k]).id
                            == id implies k == i by {
                        self.lemma_ids_unique(k, i as int);
                    }
                }
                if offset as u128 + size as u128 <= limit {
                    Ok(offset)
                } else {
                    Err(Error::InvalidArgument)
                }
            },
            None => Err(Error::NotFound),
        }
    }

    /// Takes the oldest event of frame `id` and returns its wire form, which must fit in
    /// `buf_len` bytes. An event that does not fit stays queued; one that has no wire
    /// form is dropped.
    pub fn read(&mut self, id: usize, buf_len: usize) -> (r: Result<Vec<u8>, Error>)
        requires
            old(self).wf(),
        ensures
            final(self).wf(),
            final(self).spec_last_id() == old(self).spec_last_id(),
            final(self).spec_displays() == old(self).spec_displays(),
            final(self).spec_cursor() == old(self).spec_cursor(),
            final(self).spec_events() == old(self).spec_events(),
            !old(self).has_frame(id) ==> r == Err::<Vec<u8>, Error>(Error::NotFound)
                && *final(self) == *old(self),
            forall|i: int|
                0 <= i < old(self).spec_frames().len() && (#[trigger] old(self).spec_frames()[i]).id
                    == id ==> {
                    let f = old(self).spec_frames()[i];
                    let popped = old(self).spec_frames().update(
                        i,
                        FrameModel { events: f.events.drop_first(), ..f },
                    );
                    if f.events.len() == 0 {
                        r == Err::<Vec<u8>, Error>(Error::WouldBlock) && final(self).spec_frames()
                            == old(self).spec_frames()
                    } else if !event_encodable(f.events[0]) {
                        r == Err::<Vec<u8>, Error>(Error::InvalidArgument) && final(self).spec_frames()
                            == popped
                    } else if event_bytes(f.events[0]).len() > buf_len {
                        r == Err::<Vec<u8>, Error>(Error::NoSpace) && final(self).spec_frames()
                            == old(self).spec_frames()
                    } else {
                        r is Ok && r->Ok_0@ == event_bytes(f.events[0]) && final(self).spec_frames()
                            == popped
                    }
                },
    {
        let i = match self.find(id) {
            Some(i) => i,
            None => {
                return Err(Error::NotFound);
            },
        };
        proof {
            assert forall|k: int|
                0 <= k < self.spec_frames().len() && (#[trigger] self.spec_frames()[k]).id
                    == id implies k == i by {
                self.lemma_ids_unique(k, i as int);
            }
        }
        let encoded = match self.frames[i].peek_event() {
            None => {
                return Err(Error::WouldBlock);
            },
            Some(e) => e.to_bytes(),
        };
        if let Ok(bytes) = &encoded {
            if bytes.len() > buf_len {
                return Err(Error::NoSpace);
            }
        }
        let ghost before = *self;
        let _ = self.frames[i].next_event();
        proof {
            before.lemma_update_keeps_wf(self, i as int);
            assert(self.spec_frames() =~= before.spec_frames().update(
                i as int,
                FrameModel {
                    events: before.spec_frames()[i as int].events.drop_first(),
                    ..before.spec_frames()[i as int]
                },
            ));
        }
        match encoded {
            Ok(bytes) => Ok(bytes),
            Err(_) => Err(Error::InvalidArgument),
        }
    }

    /// Decodes a client request for frame `id` and applies it.
    pub fn write(&mut self, id: usize, buf: &[u8]) -> (r: Result<usize, Error>)
        requires
            old(self).wf(),
        ensures
            final(self).wf(),
            final(self).spec_last_id() == old(self).spec_last_id(),
            final(self).spec_displays() == old(self).spec_displays(),
            final(self).spec_cursor() == old(self).spec_cursor(),
            final(self).spec_events() == old(self).spec_events(),
            !old(self).has_frame(id) ==> r == Err::<usize, Error>(Error::NotFound) && *final(self)
                == *old(self),
            forall|i: int|
                0 <= i < old(self).spec_frames().len() && (#[trigger] old(self).spec_frames()[i]).id
                    == id ==> {
                    let f = old(self).spec_frames()[i];
                    match request_of(buf@) {
                        None => r == Err::<usize, Error>(Error::InvalidArgument) && *final(self)
                            == *old(self),
                        Some(q) => match f.after_request(
                            q,
                            old(self).spec_displays(),
                            old(self).spec_area(),
                        ) {
                            None => r == Err::<usize, Error>(Error::InvalidArgument)
                                && final(self).spec_frames() == old(self).spec_frames(),
                            Some(g) => r == Ok::<usize, Error>(buf@.len() as usize)
                                && final(self).spec_frames() == old(self).spec_frames().update(i, g),
                        },
                    }
                },
    {
        let i = match self.find(id) {
            Some(i) => i,
            None => {
                return Err(Error::NotFound);
            },
        };
        proof {
            assert forall|k: int|
                0 <= k < self.spec_frames().len() && (#[trigger] self.spec_frames()[k]).id
                    == id implies k == i by {
                self.lemma_ids_unique(k, i as int);
            }
        }
        let req = match FrameRequests::from_bytes(buf) {
            Ok(q) => q,
            Err(_) => {
                return Err(Error::InvalidArgument);
            },
        };
        let ghost before = *self;
        let outcome = self.frames[i].handle_request(req, &self.layout);
        let _ = self.frames[i].size_bounds();
        proof {
            before.lemma_update_keeps_wf(self, i as int);
            assert(self.spec_frames() =~= before.spec_frames().update(i as int, self.frames@[i as int]@));
        }
        match outcome {
            Ok(()) => Ok(buf.len()),
            Err(_) => Err(Error::InvalidArgument),
        }
    }

    /// Two displays of a valid layout never hold the same point.
    proof fn lemma_single_display(ds: Seq<Rect>, i: int, j: int, p: Point)
        requires
            valid_layout(ds),
            0 <= i < ds.len(),
            0 <= j < ds.len(),
            ds[i].contains_spec(p),
            ds[j].contains_spec(p),
        ensures
            i == j,
    {
        if i < j {
            assert(!ds[i].overlaps_spec(ds[j]));
        } else if j < i {
            assert(!ds[j].overlaps_spec(ds[i]));
        }
    }

    /// Index of the display holding `p`, if any.
    fn display_at(&self, p: Point) -> (r: Option<usize>)
        ensures
            r is Some <==> in_union(self.spec_displays(), p),
            r matches Some(k) ==> k < self.spec_displays().len() && self.spec_displays()[k as int].contains_spec(p),
    {
        let mut k: usize = 0;
        while k < self.layout.sizes.len()
            invariant
                k <= self.layout.sizes@.len(),
                forall|j: int| 0 <= j < k ==> !(#[trigger] self.layout.sizes@[j]).contains_spec(p),
            decreases self.layout.sizes@.len() - k,
        {
            if self.layout.sizes[k].contains(p) {
                return Some(k);
            }
            k += 1;
        }
        None
    }

    /// Moves the cursor by `(dx, dy)`. It never leaves the displays: a move that would
    /// end off every display stops at the edge of the display it started on.
    pub fn move_pointer(&mut self, dx: i32, dy: i32)
        requires
            old(self).wf(),
        ensures
            final(self).wf(),
            final(self).spec_cursor() == motion_target(
                old(self).spec_displays(),
                old(self).spec_box().0,
                old(self).spec_box().1,
                old(self).spec_cursor(),
                dx,
                dy,
            ),
            final(self).spec_prev_cursor() == old(self).spec_cursor(),
            in_union(final(self).spec_displays(), final(self).spec_cursor()),
            final(self).spec_events() == old(self).spec_events().push(
                PluginEvent::OnMouseMove(final(self).spec_cursor().x, final(self).spec_cursor().y),
            ),
            final(self).spec_frames() == old(self).spec_frames(),
            final(self).spec_last_id() == old(self).spec_last_id(),
            final(self).spec_displays() == old(self).spec_displays(),
    {
        let p = self.cursor.get_pos();
        let (lo, hi) = self.cursor.bounds();
        let t = Point::new(offset_exec(p.x, dx), offset_exec(p.y, dy)).clamp(lo, hi);
        proof {
            lemma_bounds_of(self.layout.sizes@);
        }
        let dest = match self.display_at(t) {
            Some(_) => t,
            None => {
                let k = match self.display_at(p) {
                    Some(k) => k,
                    None => {
                        return;
                    },
                };
                let d = self.layout.sizes[k];
                assert(!self.layout.sizes@[k as int].is_empty_spec() && edges_fit(self.layout.sizes@[k as int]));
                proof {
                    let kk = choose|kk: int| 0 <= kk < self.layout.sizes@.len() && (#[trigger] self.layout.sizes@[kk]).contains_spec(p);
                    Self::lemma_single_display(self.layout.sizes@, kk, k as int, p);
                }
                let d_lo = Point::new(d.x, d.y);
                let d_hi = Point::new((d.x as i64 + d.w as i64 - 1) as i32, (d.y as i64 + d.h as i64 - 1) as i32);
                let t2 = t.clamp(d_lo, d_hi);
                assert(self.layout.sizes@[k as int].contains_spec(t2));
                t2
            },
        };
        self.cursor.set_pos(dest);
        let q = self.cursor.get_pos();
        self.events.push(PluginEvent::OnMouseMove(q.x, q.y));
    }

    /// Handles one raw input record `(code, a, b)` from a display. Relative motion
    /// (`MOTION`) moves the cursor by `(a, b)`, saturated to `i32`; other codes are
    /// left alone. Returns whether the record was used.
    pub fn handle_input(&mut self, code: i64, a: i64, b: i64) -> (r: bool)
        requires
            old(self).wf(),
        ensures
            final(self).wf(),
            r == (code == MOTION),
            !r ==> *final(self) == *old(self),
            r ==> final(self).spec_cursor() == motion_target(
                old(self).spec_displays(),
                old(self).spec_box().0,
                old(self).spec_box().1,
                old(self).spec_cursor(),
                saturate(a),
                saturate(b),
            ),
            in_union(final(self).spec_displays(), final(self).spec_cursor()),
            final(self).spec_frames() == old(self).spec_frames(),
            final(self).spec_last_id() == old(self).spec_last_id(),
            final(self).spec_displays() == old(self).spec_displays(),
    {
        if code != MOTION {
            let _ = self.cursor_pos();
            return false;
        }
        self.move_pointer(saturate_exec(a), saturate_exec(b));
        true
    }

    fn top_with_exec(&self, p: Point, z: ZIndex) -> (r: Option<usize>)
        ensures
            r is Some <==> top_with(self.spec_frames(), p, z) is Some,
            r is Some ==> r->0 == top_with(self.spec_frames(), p, z)->0,
            r matches Some(i) ==> i < self.spec_frames().len(),
    {
        proof {
            lemma_top_with(self.spec_frames(), p, z);
        }
        let mut k: usize = self.frames.len();
        assert(self.spec_frames().subrange(0, k as int) =~= self.spec_frames());
        while k > 0
            invariant
                k <= self.frames@.len(),
                top_with(self.spec_frames(), p, z) == top_with(self.spec_frames().subrange(0, k as int), p, z),
            decreases k,
        {
            let ghost s = self.spec_frames().subrange(0, k as int);
            assert(s.drop_last() =~= self.spec_frames().subrange(0, k - 1));
            let f = &self.frames[k - 1];
            if f.z_lock() == z && f.rect().contains(p) {
                return Some(k - 1);
            }
            k -= 1;
        }
        None
    }

    /// Id of the topmost frame under `p`, if any.
    pub fn frame_under(&self, p: Point) -> (r: Option<usize>)
        ensures
            r is Some <==> frame_at(self.spec_frames(), p) is Some,
            r is Some ==> r->0 == self.spec_frames()[frame_at(self.spec_frames(), p)->0].id,
    {
        let i = match self.top_with_exec(p, ZIndex::Front) {
            Some(i) => i,
            None => match self.top_with_exec(p, ZIndex::Automatic) {
                Some(i) => i,
                None => match self.top_with_exec(p, ZIndex::Back) {
                    Some(i) => i,
                    None => {
                        return None;
                    },
                },
            },
        };
        Some(self.frames[i].id())
    }

    /// Routes input to the topmost frame under the cursor and returns that frame's id.
    /// Button and key input replace the held sets. Newly pressed and newly released
    /// buttons are reported to the plugins.
    pub fn deliver_input(&mut self, input: Input) -> (r: Option<usize>)
        requires
            old(self).wf(),
        ensures
            final(self).wf(),
            final(self).spec_last_id() == old(self).spec_last_id(),
            final(self).spec_displays() == old(self).spec_displays(),
            final(self).spec_cursor() == old(self).spec_cursor(),
            match frame_at(old(self).spec_frames(), old(self).spec_cursor()) {
                None => r is None && final(self).spec_frames() == old(self).spec_frames(),
                Some(i) => r == Some(old(self).spec_frames()[i].id) && final(self).spec_frames()
                    == old(self).spec_frames().update(
                    i,
                    old(self).spec_frames()[i].with_event(FrameEventModel::Input(input@)),
                ),
            },
            input@ matches InputModel::MouseButtonE(m) ==> final(self).spec_buttons() == m,
            input@ matches InputModel::MouseButtonE(m) ==> {
                let pressed = m & !old(self).spec_buttons();
                let released = old(self).spec_buttons() & !m;
                final(self).spec_events() == old(self).spec_events() + (if pressed != 0 {
                    seq![PluginEvent::OnMouseDown(pressed)]
                } else {
                    seq![]
                }) + (if released != 0 {
                    seq![PluginEvent::OnMouseUp(released)]
                } else {
                    seq![]
                })
            },
            input@ matches InputModel::Scroll(dx, dy) ==> final(self).spec_events()
                == old(self).spec_events().push(PluginEvent::OnMouseScroll(dx, dy)),
            (input@ is MouseMove || input@ is Key) ==> final(self).spec_events()
                == old(self).spec_events(),
            input@ matches InputModel::Key(k) ==> final(self).spec_keys() == k,
    {
        let old_buttons = self.buttons;
        match &input {
            Input::MouseButtonE(m) => {
                let now = m.bits();
                let pressed = now & !old_buttons;
                let released = old_buttons & !now;
                if pressed != 0 {
                    self.events.push(PluginEvent::OnMouseDown(pressed));
                }
                if released != 0 {
                    self.events.push(PluginEvent::OnMouseUp(released));
                }
                self.buttons = now;
            },
            Input::Key(k) => {
                self.keys = copy_keys(k);
            },
            Input::Scroll(dx, dy) => {
                self.events.push(PluginEvent::OnMouseScroll(*dx, *dy));
            },
            Input::MouseMove(_, _) => {},
        }
        let p = self.cursor.get_pos();
        let i = match self.top_with_exec(p, ZIndex::Front) {
            Some(i) => i,
            None => match self.top_with_exec(p, ZIndex::Automatic) {
                Some(i) => i,
                None => match self.top_with_exec(p, ZIndex::Back) {
                    Some(i) => i,
                    None => {
                        return None;
                    },
                },
            },
        };
        let id = self.frames[i].id();
        let ghost before = *self;
        self.frames[i].push_event(FrameEvents::Input(input));
        let _ = self.frames[i].size_bounds();
        proof {
            before.lemma_update_keeps_wf(self, i as int);
            assert(self.spec_frames() =~= before.spec_frames().update(i as int, self.frames@[i as int]@));
        }
        Some(id)
    }

    fn indices_with_exec(&self, z: ZIndex, out: &mut Vec<usize>)
        ensures
            final(out)@ == old(out)@ + indices_with(self.spec_frames(), z),
    {
        let mut k: usize = 0;
        let ghost start = out@;
        assert(self.spec_frames().subrange(0, 0) =~= Seq::<FrameModel>::empty());
        assert(out@ =~= start + Seq::<usize>::empty());
        while k < self.frames.len()
            invariant
                k <= self.frames@.len(),
                out@ == start + indices_with(self.spec_frames().subrange(0, k as int), z),
            decreases self.frames@.len() - k,
        {
            let ghost s = self.spec_frames().subrange(0, k + 1);
            assert(s.drop_last() =~= self.spec_frames().subrange(0, k as int));
            if self.frames[k].z_lock() == z {
                out.push(k);
                assert(out@ =~= start + indices_with(s, z));
            }
            k += 1;
        }
        assert(self.spec_frames().subrange(0, k as int) =~= self.spec_frames());
    }

    /// Positions in the frame table in painting order: back frames first, then
    /// automatic ones, then front ones, each group oldest first.
    pub fn compose_order(&self) -> (r: Vec<usize>)
        ensures
            r@ == painter_order(self.spec_frames()),
    {
        let mut r: Vec<usize> = Vec::new();
        self.indices_with_exec(ZIndex::Back, &mut r);
        self.indices_with_exec(ZIndex::Automatic, &mut r);
        self.indices_with_exec(ZIndex::Front, &mut r);
        assert(r@ =~= painter_order(self.spec_frames()));
        r
    }

    /// A client opened `path`, an option string: creates the frame and returns its id.
    pub fn open(&mut self, path: &str, now: u64) -> (r: Result<usize, Error>)
        requires
            old(self).wf(),
        ensures
            final(self).wf(),
            crate::options::options_of(path@) is None ==> r == Err::<usize, Error>(
                Error::InvalidArgument,
            ) && *final(self) == *old(self),
            crate::options::options_of(path@) matches Some(o) ==> {
                if old(self).spec_last_id() == usize::MAX {
                    r == Err::<usize, Error>(Error::NoSpace) && *final(self) == *old(self)
                } else if !valid_extent(o.size) {
                    r == Err::<usize, Error>(Error::InvalidArgument) && *final(self) == *old(self)
                } else {
                    &&& r == Ok::<usize, Error>((old(self).spec_last_id() + 1) as usize)
                    &&& old(self).made_frame(*final(self), o, now)
                    &&& final(self).spec_frames()[old(self).spec_frames().len() as int] == new_frame(
                        o,
                        (old(self).spec_last_id() + 1) as usize,
                        now,
                    )
                }
            },
    {
        match FrameOptions::from_string(path) {
            Ok(options) => self.mk_frame(options, now),
            Err(_) => Err(Error::InvalidArgument),
        }
    }

    /// Carries out a plugin request at time `now` and gives the answer to hand back.
    pub fn handle_plugin_request(&mut self, req: PluginRequest, now: u64) -> (r: PluginResponse)
        requires
            old(self).wf(),
        ensures
            final(self).wf(),
            final(self).spec_last_id() >= old(self).spec_last_id(),
            final(self).spec_displays() == old(self).spec_displays(),
            final(self).spec_cursor() == old(self).spec_cursor(),
            match req {
                PluginRequest::CreateFrame(o) => {
                    if old(self).spec_last_id() == usize::MAX {
                        r == PluginResponse::Error(Error::NoSpace) && *final(self) == *old(self)
                    } else if !valid_extent(finish_options(o@).size) {
                        r == PluginResponse::Error(Error::InvalidArgument) && *final(self)
                            == *old(self)
                    } else {
                        &&& old(self).made_frame(*final(self), o@, now)
                        &&& r matches PluginResponse::Frame(m) && messenger_of(
                            m,
                            final(self).spec_frames()[old(self).spec_frames().len() as int],
                        )
                    }
                },
                PluginRequest::GetFrameById(id) => {
                    &&& *final(self) == *old(self)
                    &&& !old(self).has_frame(id) ==> r == PluginResponse::Error(Error::NotFound)
                    &&& forall|i: int|
                        0 <= i < old(self).spec_frames().len() && (#[trigger] old(
                            self,
                        ).spec_frames()[i]).id == id ==> (r matches PluginResponse::Frame(m)
                            && messenger_of(m, old(self).spec_frames()[i]))
                },
                PluginRequest::CloseFrame(id) => {
                    &&& !old(self).has_frame(id) ==> r == PluginResponse::Error(Error::NotFound)
                        && *final(self) == *old(self)
                    &&& old(self).has_frame(id) ==> r == PluginResponse::Done && old(
                        self,
                    ).closed_frame(*final(self), id)
                },
                PluginRequest::GetMouse => *final(self) == *old(self) && r == PluginResponse::Mouse(
                    old(self).spec_cursor(),
                    old(self).spec_buttons(),
                ),
                PluginRequest::GetKeys => *final(self) == *old(self) && (r matches PluginResponse::Keys(k)
                    && k@ == old(self).spec_keys()),
                PluginRequest::PaintBuffer(buf, pos, size) => {
                    &&& final(self).spec_frames() == old(self).spec_frames()
                    &&& if size.width >= 0 && size.height >= 0 && buf@.len() == size.width
                        * size.height {
                        &&& r == PluginResponse::Done
                        &&& final(self).spec_paints() == old(self).spec_paints().push(
                            (Rect { x: pos.x, y: pos.y, w: size.width as u32, h: size.height as u32 }, buf),
                        )
                    } else {
                        r == PluginResponse::Error(Error::InvalidArgument) && final(self).spec_paints()
                            == old(self).spec_paints()
                    }
                },
            },
    {
        match req {
            PluginRequest::CreateFrame(options) => {
                let n = self.frames.len();
                match self.mk_frame(options, now) {
                    Ok(_) => PluginResponse::Frame(self.frames[n].get_messenger()),
                    Err(e) => PluginResponse::Error(e),
                }
            },
            PluginRequest::GetFrameById(id) => match self.get_frame_by_id(id) {
                Some(f) => PluginResponse::Frame(f.get_messenger()),
                None => PluginResponse::Error(Error::NotFound),
            },
            PluginRequest::CloseFrame(id) => match self.close_frame(id) {
                Ok(()) => PluginResponse::Done,
                Err(e) => PluginResponse::Error(e),
            },
            PluginRequest::GetMouse => PluginResponse::Mouse(self.cursor.get_pos(), self.buttons),
            PluginRequest::GetKeys => PluginResponse::Keys(copy_keys(&self.keys)),
            PluginRequest::PaintBuffer(buf, pos, size) => {
                let fits = if size.width >= 0 && size.height >= 0 {
                    let (w, h) = (size.width as u64, size.height as u64);
                    assert(w * h <= 0x8000_0000 * 0x8000_0000) by (nonlinear_arith)
                        requires
                            w <= 0x8000_0000,
                            h <= 0x8000_0000,
                    ;
                    buf.len() as u64 == w * h
                } else {
                    false
                };
                if fits {
                    let rect = Rect { x: pos.x, y: pos.y, w: size.width as u32, h: size.height as u32 };
                    match self.paint_buffer(buf, rect) {
                        Ok(()) => PluginResponse::Done,
                        Err(e) => PluginResponse::Error(e),
                    }
                } else {
                    PluginResponse::Error(Error::InvalidArgument)
                }
            },
        }
    }

    /// Queues `buffer`, `rect.w`×`rect.h` pixels, to be painted at `rect` on the next
    /// composition. Fails unless the buffer holds exactly that many pixels.
    pub fn paint_buffer(&mut self, buffer: Vec<u32>, rect: Rect) -> (r: Result<(), Error>)
        requires
            old(self).wf(),
        ensures
            final(self).wf(),
            r is Ok <==> buffer@.len() == rect.w * rect.h,
            r is Ok ==> final(self).spec_paints() == old(self).spec_paints().push((rect, buffer)),
            r is Err ==> r == Err::<(), Error>(Error::InvalidArgument) && *final(self) == *old(self),
            final(self).spec_frames() == old(self).spec_frames(),
            final(self).spec_displays() == old(self).spec_displays(),
            final(self).spec_cursor() == old(self).spec_cursor(),
            final(self).spec_last_id() == old(self).spec_last_id(),
    {
        let (w, h) = (rect.w as u64, rect.h as u64);
        assert(w * h <= 0xffff_ffff * 0xffff_ffff) by (nonlinear_arith)
            requires
                w <= 0xffff_ffff,
                h <= 0xffff_ffff,
        ;
        let n = w * h;
        if buffer.len() as u64 != n {
            return Err(Error::InvalidArgument);
        }
        self.paints.push((rect, buffer));
        Ok(())
    }

    /// Takes the buffers plugins asked to paint, with where to paint them, oldest first.
    pub fn take_paints(&mut self) -> (r: Vec<(Rect, Vec<u32>)>)
        requires
            old(self).wf(),
        ensures
            final(self).wf(),
            r@ == old(self).spec_paints(),
            final(self).spec_paints().len() == 0,
            final(self).spec_frames() == old(self).spec_frames(),
            final(self).spec_displays() == old(self).spec_displays(),
            final(self).spec_cursor() == old(self).spec_cursor(),
    {
        let mut r = Vec::new();
        r.append(&mut self.paints);
        r
    }

    /// Takes the events waiting for the plugins, oldest first.
    pub fn take_plugin_events(&mut self) -> (r: Vec<PluginEvent>)
        requires
            old(self).wf(),
        ensures
            final(self).wf(),
            r@ == old(self).spec_events(),
            final(self).spec_events().len() == 0,
            final(self).spec_frames() == old(self).spec_frames(),
            final(self).spec_last_id() == old(self).spec_last_id(),
            final(self).spec_displays() == old(self).spec_displays(),
            final(self).spec_cursor() == old(self).spec_cursor(),
    {
        let mut r = Vec::new();
        r.append(&mut self.events);
        r
    }
}

fn copy_keys(k: &Vec<u16>) -> (r: Vec<u16>)
    ensures
        r@ == k@,
{
    let mut r: Vec<u16> = Vec::new();
    let mut i: usize = 0;
    while i < k.len()
        invariant
            i <= k@.len(),
            r@ == k@.subrange(0, i as int),
        decreases k@.len() - i,
    {
        r.push(k[i]);
        i += 1;
        assert(r@ =~= k@.subrange(0, i as int));
    }
    assert(r@ =~= k@);
    r
}

fn saturate_exec(a: i64) -> (r: i32)
    ensures
        r == saturate(a),
{
    if a > i32::MAX as i64 {
        i32::MAX
    } else if a < i32::MIN as i64 {
        i32::MIN
    } else {
        a as i32
    }
}

/// The damage of publishing the frame rectangle `r` on the displays `ds`.
fn damage_rects(ds: &Vec<Rect>, r: Rect) -> (out: Vec<Damage>)
    ensures
        out@ == damage_for(ds@, r),
{
    let mut out: Vec<Damage> = Vec::new();
    let mut k: usize = 0;
    assert(ds@.subrange(0, 0) =~= Seq::<Rect>::empty());
    while k < ds.len()
        invariant
            k <= ds@.len(),
            out@ == damage_for(ds@.subrange(0, k as int), r),
        decreases ds@.len() - k,
    {
        let d = ds[k];
        assert(ds@.subrange(0, k + 1).drop_last() =~= ds@.subrange(0, k as int));
        if d.contains(Point::new(r.x, r.y)) {
            out.push(
                Damage {
                    display: k,
                    rect: Rect {
                        x: (r.x as i64 - d.x as i64) as i32,
                        y: (r.y as i64 - d.y as i64) as i32,
                        w: r.w,
                        h: r.h,
                    },
                },
            );
        }
        k += 1;
    }
    assert(ds@.subrange(0, ds@.len() as int) =~= ds@);
    out
}

/// Whether `displays` form a valid layout.
fn check_layout(displays: &Vec<Rect>) -> (r: bool)
    ensures
        r == valid_layout(displays@),
{
    let n = displays.len();
    if n == 0 {
        return false;
    }
    let mut i: usize = 0;
    while i < n
        invariant
            i <= n,
            n == displays@.len(),
            forall|k: int| 0 <= k < i ==> !(#[trigger] displays@[k]).is_empty_spec() && edges_fit(displays@[k]),
            forall|a: int, b: int| 0 <= a < b < n && a < i ==> !(#[trigger] displays@[a]).overlaps_spec(#[trigger] displays@[b]),
        decreases n - i,
    {
        let d = displays[i];
        if d.is_empty() || d.x as i64 + d.w as i64 > i32::MAX as i64 || d.y as i64 + d.h as i64 > i32::MAX as i64 {
            return false;
        }
        let mut j: usize = i + 1;
        while j < n
            invariant
                i < n,
                i + 1 <= j <= n,
                n == displays@.len(),
                d == displays@[i as int],
                forall|b: int| i < b < j ==> !displays@[i as int].overlaps_spec(#[trigger] displays@[b]),
            decreases n - j,
        {
            if d.overlaps(&displays[j]) {
                return false;
            }
            j += 1;
        }
        i += 1;
    }
    true
}

} // verus!
