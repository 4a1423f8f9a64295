use vstd::prelude::*;

use crate::geometry::Rect;

verus! {

pub const FULLSCREEN: u64 = 0b1;
pub const RESIZE_X: u64 = 0b10;
pub const RESIZE_Y: u64 = 0b100;
pub const MOVE_X: u64 = 0b1000;
pub const MOVE_Y: u64 = 0b10000;
pub const CLOSE: u64 = 0b100000;

/// Every bit a `FrameFlags` may carry lies below this bound.
pub const FRAME_FLAGS_LIMIT: u64 = 64;

/// Capability flags of a frame; only the six defined bits may be set.
#[derive(Clone, Copy, Debug)]
pub struct FrameFlags {
    bits: u64,
}

impl View for FrameFlags {
    type V = u64;

    closed spec fn view(&self) -> u64 {
        self.bits
    }
}

impl FrameFlags {
    #[verifier::type_invariant]
    spec fn inv(self) -> bool {
        self.bits < FRAME_FLAGS_LIMIT
    }

    /// The flags for `bits`, or `None` when a bit outside the six defined ones is set.
    pub fn from_bits(bits: u64) -> (r: Option<FrameFlags>)
        ensures
            r is Some <==> bits < FRAME_FLAGS_LIMIT,
            r is Some ==> r->Some_0@ == bits,
    {
        if bits < FRAME_FLAGS_LIMIT {
            Some(FrameFlags { bits })
        } else {
            None
        }
    }

    pub fn bits(&self) -> (r: u64)
        ensures
            r == self@,
            r < FRAME_FLAGS_LIMIT,
    {
        proof {
            use_type_invariant(self);
        }
        self.bits
    }

    /// Resizable and movable along both axes; not fullscreen and not closable.
    pub fn default_flags() -> (r: FrameFlags)
        ensures
            r@ == RESIZE_X + RESIZE_Y + MOVE_X + MOVE_Y,
    {
        FrameFlags { bits: RESIZE_X + RESIZE_Y + MOVE_X + MOVE_Y }
    }
}

impl Default for FrameFlags {
    fn default() -> (r: FrameFlags)
        ensures
            r@ == RESIZE_X + RESIZE_Y + MOVE_X + MOVE_Y,
    {
        FrameFlags::default_flags()
    }
}

pub const MOUSE_LEFT: u8 = 0b100;
pub const MOUSE_MIDDLE: u8 = 0b10;
pub const MOUSE_RIGHT: u8 = 0b1;

/// Every bit a `MouseButton` set may carry lies below this bound.
pub const MOUSE_BUTTON_LIMIT: u8 = 8;

/// The set of mouse buttons held down at one moment.
#[derive(Clone, Copy, Debug)]
pub struct MouseButton {
    bits: u8,
}

impl View for MouseButton {
    type V = u8;

    closed spec fn view(&self) -> u8 {
        self.bits
    }
}

impl MouseButton {
    #[verifier::type_invariant]
    spec fn inv(self) -> bool {
        self.bits < MOUSE_BUTTON_LIMIT
    }

    /// The held set for `bits`, or `None` when a bit beyond the three buttons is set.
    pub fn from_bits(bits: u8) -> (r: Option<MouseButton>)
        ensures
            r is Some <==> bits < MOUSE_BUTTON_LIMIT,
            r is Some ==> r->Some_0@ == bits,
    {
        if bits < MOUSE_BUTTON_LIMIT {
            Some(MouseButton { bits })
        } else {
            None
        }
    }

    pub fn bits(&self) -> (r: u8)
        ensures
            r == self@,
            r < MOUSE_BUTTON_LIMIT,
    {
        proof {
            use_type_invariant(self);
        }
        self.bits
    }
}

/// Stacking preference of a frame.
#[derive(Clone, Copy, Debug, PartialEq, Eq, Structural)]
pub enum ZIndex {
    Front,
    Automatic,
    Back,
}

/// Input delivered to a frame. Button and key events carry the whole set
/// held at that moment: whatever is absent has been released.
#[derive(Clone, Debug)]
pub enum Input {
    MouseMove(i32, i32),
    MouseButtonE(MouseButton),
    /// The IEEE-754 bit patterns of the horizontal and vertical deltas.
    Scroll(u64, u64),
    Key(Vec<u16>),
}

/// The mathematical content of an `Input`.
pub enum InputModel {
    MouseMove(i32, i32),
    MouseButtonE(u8),
    Scroll(u64, u64),
    Key(Seq<u16>),
}

impl View for Input {
    type V = InputModel;

    open spec fn view(&self) -> InputModel {
        match self {
            Input::MouseMove(x, y) => InputModel::MouseMove(*x, *y),
            Input::MouseButtonE(b) => InputModel::MouseButtonE(b@),
            Input::Scroll(dx, dy) => InputModel::Scroll(*dx, *dy),
            Input::Key(k) => InputModel::Key(k@),
        }
    }
}

/// Messages from the compositor to a client.
#[derive(Clone, Debug)]
pub enum FrameEvents {
    /// The frame was moved or resized.
    Position(Rect),
    /// Visibility changed.
    Visible(bool),
    /// The frame received input.
    Input(Input),
    /// The client should repaint.
    Redraw,
    /// The client should close.
    Close,
    /// The frame's flags changed.
    Flags(FrameFlags),
}

/// The mathematical content of a `FrameEvents`.
pub enum FrameEventModel {
    Position(Rect),
    Visible(bool),
    Input(InputModel),
    Redraw,
    Close,
    Flags(u64),
}

impl View for FrameEvents {
    type V = FrameEventModel;

    open spec fn view(&self) -> FrameEventModel {
        match self {
            FrameEvents::Position(r) => FrameEventModel::Position(*r),
            FrameEvents::Visible(v) => FrameEventModel::Visible(*v),
            FrameEvents::Input(i) => FrameEventModel::Input(i@),
            FrameEvents::Redraw => FrameEventModel::Redraw,
            FrameEvents::Close => FrameEventModel::Close,
            FrameEvents::Flags(f) => FrameEventModel::Flags(f@),
        }
    }
}

/// Messages from a client to the compositor.
#[derive(Clone, Copy, Debug)]
pub enum FrameRequests {
    /// Move and resize the frame.
    Position(Rect),
    /// Enter (`true`) or leave (`false`) fullscreen.
    Fullscreen(bool),
    /// Replace the frame's flags.
    Flags(FrameFlags),
    /// Minimise (`true`) or restore (`false`).
    Minimise(bool),
    /// Ask for a stacking preference.
    ZLock(ZIndex),
    /// Close the connection.
    Close,
}

/// The mathematical content of a `FrameRequests`.
pub enum FrameRequestModel {
    Position(Rect),
    Fullscreen(bool),
    Flags(u64),
    Minimise(bool),
    ZLock(ZIndex),
    Close,
}

impl View for FrameRequests {
    type V = FrameRequestModel;

    open spec fn view(&self) -> FrameRequestModel {
        match self {
            FrameRequests::Position(r) => FrameRequestModel::Position(*r),
            FrameRequests::Fullscreen(b) => FrameRequestModel::Fullscreen(*b),
            FrameRequests::Flags(f) => FrameRequestModel::Flags(f@),
            FrameRequests::Minimise(b) => FrameRequestModel::Minimise(*b),
            FrameRequests::ZLock(z) => FrameRequestModel::ZLock(*z),
            FrameRequests::Close => FrameRequestModel::Close,
        }
    }
}

} // verus!
