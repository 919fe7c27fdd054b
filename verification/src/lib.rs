//! Verified core of a wireframe-scene viewer.
//!
//! The crate holds the parts of the viewer that work on plain values:
//! the keyboard input-field bookkeeping, the scene-description text
//! parser, and the draw-call trace formatting. The floating-point
//! projection pipeline and the windowing layer live outside, in the
//! application around this library.
#![allow(non_snake_case)]

pub mod input;
pub mod scene;
pub mod trace;
