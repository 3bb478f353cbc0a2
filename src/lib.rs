//! Screen recording core: turns raw BGRA screen captures into planar 4:2:0
//! frames, and decides, one event at a time, how a capture session is paced,
//! when it stops, and in which order packets reach the container.
pub mod convert;
pub mod session;
