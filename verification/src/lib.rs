//! A character-grid text console over an arbitrary pixel display.
//!
//! The crate provides a pixel-display capability contract, a text style
//! descriptor that converts pixel boxes into character boxes, an incremental
//! wrapping text writer, a button-driven screen sequencer, and a one-shot
//! panic-path renderer, together with an in-memory reference display and a
//! scripted button source for exercising them.

pub mod display;
pub mod geometry;
pub mod input;
pub mod laws;
pub mod mono_display;
pub mod panic_render;
pub mod render;
pub mod screens;
pub mod style;
pub mod text_display;
pub mod writer;
