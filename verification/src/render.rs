//! What the render step shares with the rest of the crate.

pub mod color;
pub mod render_log;

pub use color::Color;
pub use render_log::RenderLog;
