//! Streaming of an unbounded 2-D tile world around a moving viewpoint.
//!
//! The library decides which tiles exist, what terrain each one shows and when
//! that changes; drawing them is left to the host.
pub mod grid;
pub mod terrain;
pub mod cache;
pub mod window;
pub mod stream;
pub mod editor;
