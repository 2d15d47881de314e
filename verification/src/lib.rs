//! Cover images on a terminal, and volume changes on a remote device, both protected against
//! bursts of input.
pub mod base64_text;
pub mod compositor;
pub mod escape_laws;
pub mod geometry;
pub mod graphics;
pub mod iterm2;
pub mod laws;
pub mod render_laws;
pub mod slot;
pub mod surface;
pub mod terminal;
pub mod text;
pub mod time;
pub mod volume;
pub mod volume_laws;
