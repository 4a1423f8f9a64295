use vstd::prelude::*;

use crate::frame::FrameMessenger;
use crate::geometry::{Point, Size};
use crate::options::FrameOptions;

verus! {

/// Hands out `start`, `start + step`, `start + 2 * step`, ...
pub struct Counter {
    index: usize,
    step: usize,
}

impl Counter {
    pub closed spec fn spec_index(self) -> usize {
        self.index
    }

    pub closed spec fn spec_step(self) -> usize {
        self.step
    }

    pub fn new(start: usize, step: usize) -> (r: Counter)
        ensures
            r.spec_index() == start,
            r.spec_step() == step,
    {
        Counter { index: start, step }
    }

    /// Whether one more value can be handed out without leaving `usize`.
    pub fn can_advance(&self) -> (r: bool)
        ensures
            r == (self.spec_index() + self.spec_step() <= usize::MAX),
    {
        self.index <= usize::MAX - self.step
    }

    /// The current value; the counter moves on by one step.
    pub fn next(&mut self) -> (r: usize)
        requires
            old(self).spec_index() + old(self).spec_step() <= usize::MAX,
        ensures
            r == old(self).spec_index(),
            final(self).spec_index() == old(self).spec_index() + old(self).spec_step(),
            final(self).spec_step() == old(self).spec_step(),
    {
        let i = self.index;
        self.index = i + self.step;
        i
    }
}

/// Callbacks waiting for their response, each under a correlation key that
/// no other request has had.
pub struct CallbackRegistry<C> {
    keys: Counter,
    entries: Vec<(usize, C)>,
}

impl<C> CallbackRegistry<C> {
    /// The waiting callbacks by key.
    pub closed spec fn spec_entries(self) -> Seq<(usize, C)> {
        self.entries@
    }

    /// The next key to be handed out.
    pub closed spec fn spec_next_key(self) -> usize {
        self.keys.spec_index()
    }

    pub closed spec fn spec_key_step(self) -> usize {
        self.keys.spec_step()
    }

    /// Keys are distinct and all below the next key to be handed out.
    pub open spec fn wf(self) -> bool {
        &&& self.spec_key_step() == 1
        &&& forall|i: int, j: int|
            0 <= i < j < self.spec_entries().len() ==> #[trigger] self.spec_entries()[i].0
                != #[trigger] self.spec_entries()[j].0
        &&& forall|i: int|
            0 <= i < self.spec_entries().len() ==> #[trigger] self.spec_entries()[i].0
                < self.spec_next_key()
    }

    pub open spec fn has_key(self, key: usize) -> bool {
        exists|i: int| 0 <= i < self.spec_entries().len() && #[trigger] self.spec_entries()[i].0 == key
    }

    pub fn new() -> (r: CallbackRegistry<C>)
        ensures
            r.wf(),
            r.spec_entries().len() == 0,
            r.spec_next_key() == 0,
    {
        CallbackRegistry { keys: Counter::new(0, 1), entries: Vec::new() }
    }

    pub fn len(&self) -> (r: usize)
        ensures
            r == self.spec_entries().len(),
    {
        self.entries.len()
    }

    /// Whether another callback can be registered.
    pub fn can_register(&self) -> (r: bool)
        ensures
            r == (self.spec_next_key() < usize::MAX),
    {
        self.keys.index < usize::MAX
    }

    /// Stores `cb` under a fresh key and returns that key.
    pub fn register(&mut self, cb: C) -> (key: usize)
        requires
            old(self).wf(),
            old(self).spec_next_key() < usize::MAX,
        ensures
            final(self).wf(),
            !old(self).has_key(key),
            key == old(self).spec_next_key(),
            final(self).spec_next_key() == key + 1,
            final(self).spec_entries() == old(self).spec_entries().push((key, cb)),
    {
        let ghost before = self.entries@;
        let key = self.keys.next();
        self.entries.push((key, cb));
        assert(!old(self).has_key(key)) by {
            if old(self).has_key(key) {
                let a = choose|a: int|
                    0 <= a < before.len() && #[trigger] old(self).spec_entries()[a].0 == key;
                assert(old(self).spec_entries()[a].0 < old(self).spec_next_key());
            }
        }
        assert forall|a: int, b: int|
            0 <= a < b < self.spec_entries().len() implies #[trigger] self.spec_entries()[a].0
            != #[trigger] self.spec_entries()[b].0 by {
            assert(self.spec_entries()[a] == before[a]);
            assert(old(self).spec_entries()[a].0 < old(self).spec_next_key());
            if b < before.len() {
                assert(self.spec_entries()[b] == before[b]);
                assert(old(self).spec_entries()[a].0 != old(self).spec_entries()[b].0);
            }
        }
        assert forall|a: int| 0 <= a < self.spec_entries().len() implies #[trigger] self.spec_entries()[a].0
            < self.spec_next_key() by {
            assert(self.spec_next_key() == key + 1);
            if a < before.len() {
                assert(self.spec_entries()[a] == before[a]);
                assert(old(self).spec_entries()[a].0 < old(self).spec_next_key());
            }
        }
        key
    }

    /// Removes and returns the callback stored under `key`, if there is one.
    pub fn take(&mut self, key: usize) -> (r: Option<C>)
        requires
            old(self).wf(),
        ensures
            final(self).wf(),
            final(self).spec_next_key() == old(self).spec_next_key(),
            r is Some <==> old(self).has_key(key),
            !final(self).has_key(key),
            r is Some ==> exists|i: int|
                0 <= i < old(self).spec_entries().len() && old(self).spec_entries()[i] == (key, r->0)
                    && final(self).spec_entries() == old(self).spec_entries().remove(i),
            r is None ==> final(self).spec_entries() == old(self).spec_entries(),
    {
        let mut i: usize = 0;
        while i < self.entries.len()
            invariant
                self.wf(),
                self.spec_entries() == old(self).spec_entries(),
                self.spec_next_key() == old(self).spec_next_key(),
                self.spec_key_step() == old(self).spec_key_step(),
                forall|j: int| 0 <= j < i ==> #[trigger] self.spec_entries()[j].0 != key,
            decreases self.entries@.len() - i,
        {
            if self.entries[i].0 == key {
                let ghost before = self.entries@;
                let (_, cb) = self.entries.remove(i);
                assert forall|a: int, b: int|
                    0 <= a < b < self.spec_entries().len() implies #[trigger] self.spec_entries()[a].0
                    != #[trigger] self.spec_entries()[b].0 by {
                    let a2 = if a < i { a } else { a + 1 };
                    let b2 = if b < i { b } else { b + 1 };
                    assert(self.spec_entries()[a] == before[a2]);
                    assert(self.spec_entries()[b] == before[b2]);
                }
                assert forall|a: int| 0 <= a < self.spec_entries().len() implies #[trigger] self.spec_entries()[a].0
                    < self.spec_next_key() by {
                    let a2 = if a < i { a } else { a + 1 };
                    assert(self.spec_entries()[a] == before[a2]);
                }
                assert(!self.has_key(key)) by {
                    if self.has_key(key) {
                        let a = choose|a: int| 0 <= a < self.spec_entries().len() && #[trigger] self.spec_entries()[a].0 == key;
                        let a2 = if a < i { a } else { a + 1 };
                        assert(self.spec_entries()[a] == before[a2]);
                        assert(before[i as int].0 == key);
                    }
                }
                return Some(cb);
            }
            i += 1;
        }
        None
    }
}

/// Something that happened in the compositor, for the plugins' callbacks.
#[derive(Clone, Debug)]
pub enum PluginEvent {
    OnFrameCreate(FrameMessenger),
    OnFrameDestroy(FrameMessenger),
    OnFrameUpdate(FrameMessenger),
    OnMouseMove(i32, i32),
    OnMouseDown(u8),
    OnMouseUp(u8),
    /// The IEEE-754 bit patterns of the two scroll deltas.
    OnMouseScroll(u64, u64),
    OnKeyDown(u16),
    OnKeyUp(u16),
    OnPluginLoad,
    OnBeforePluginUnload,
}

/// What a plugin asks of the compositor.
#[derive(Clone, Debug)]
pub enum PluginRequest {
    CreateFrame(FrameOptions),
    GetFrameById(usize),
    CloseFrame(usize),
    GetMouse,
    GetKeys,
    PaintBuffer(Vec<u32>, Point, Size),
}

/// Why a request failed.
#[derive(Clone, Copy, Debug, PartialEq, Eq, Structural)]
pub enum Error {
    NotFound,
    InvalidArgument,
    WouldBlock,
    NoSpace,
}

/// The compositor's answer to a plugin request.
#[derive(Clone, Debug)]
pub enum PluginResponse {
    Frame(FrameMessenger),
    /// The cursor position and the buttons held.
    Mouse(Point, u8),
    /// The keys held.
    Keys(Vec<u16>),
    /// The request was carried out and has nothing to report.
    Done,
    Error(Error),
}

} // verus!
