//! The layout and window-shell decisions of a tiling Wayland compositor.
//!
//! The crate decides what happens to windows, outputs and layout requests. It
//! holds no Wayland object and performs no effect: a handler reads plain values,
//! updates the state it owns and returns the steps that the compositor is to
//! perform, in order.

pub mod geometry;
pub mod handlers;
pub mod layout;
pub mod output;
pub mod seqs;
pub mod state;
pub mod tags;
pub mod window;
