//! Ambient-lighting pipeline: reduces the pixels along each edge of a captured
//! display frame to one color per LED, frames those colors for the serial
//! link, and keeps the small state machines around capture sessions,
//! preview slots and hardware watchers.

pub mod color;
pub mod frame;
pub mod reducer;
pub mod wire;
pub mod session;
pub mod preview;
pub mod watchers;
