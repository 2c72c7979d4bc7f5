//! Verified core of an on-screen input-display overlay.
//!
//! The library covers the rendering and animation pipeline: a decoder for a
//! fixed 32-bit-per-pixel bitmap variant, a palette synthesizer that expands a
//! four-color base palette into the six-entry runtime palette, an indexed
//! sprite compositor that blits tiles onto a raw pixel surface with reversed
//! channel order, and the directional-pad state machine that accumulates
//! pressed-key shifts and deforms idle key sprites.  Window management, input
//! hooks and persistence are platform collaborators and live outside the
//! library.

pub mod bmp;
pub mod dpad;
pub mod gfx;
pub mod grid;
pub mod input;
pub mod key;
pub mod palette;
pub mod scene;
