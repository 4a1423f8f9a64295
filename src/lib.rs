//! Core logic of a software windowing compositor: geometry, frame state,
//! the client wire codec, option parsing, cursor handling and the
//! bookkeeping that connects plugins to the compositor.

pub mod compositor;
pub mod cursor;
pub mod display;
pub mod frame;
pub mod geometry;
pub mod hex;
pub mod layout;
pub mod options;
pub mod plugin;
pub mod protocol;
pub mod text;
pub mod wire;
