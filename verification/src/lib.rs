//! Rendering backend that turns the per-frame draw data of an immediate-mode
//! GUI into the calls a 2D hardware renderer has to receive.
//!
//! The backend decides; it does not draw. [`Renderer::render`] takes the draw
//! data of a frame as plain values and returns the canvas calls of the frame
//! in order: the default state, for each command that can show its scissor
//! rectangle and its submission of geometry, and the state the canvas had
//! before. The host performs the calls, as many as
//! [`renderer::frame_result`] says: a submission that the renderer rejects
//! ends the frame. Before each submission the host lets
//! [`Renderer::prepare_colors`] turn the vertex colours into the numbers the
//! renderer takes.
//!
//! Coordinates and colours are binary32 numbers. They are held and computed
//! as their 32-bit encodings, by integer arithmetic that rounds as IEEE 754
//! prescribes, so that every result is stated exactly.
pub mod arithmetic;
pub mod binary32;
pub mod canvas;
pub mod clip;
pub mod conversion;
pub mod draw_data;
pub mod error;
pub mod frame;
pub mod laws;
pub mod number_laws;
pub mod renderer;
pub mod rounding;
pub mod textures;

pub use crate::error::RenderError;
pub use crate::renderer::Renderer;
