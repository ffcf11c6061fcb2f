//! A clock that draws the current Unix time as large block numerals on an
//! ANSI terminal, one full frame per second.
//!
//! The crate is layered bottom-up: [`text`] holds the character-level
//! helpers, [`color`] the background colours, [`ansi`] the escape vocabulary
//! and the instruction model that every frame is stated over, [`glyph`] the
//! digit font, [`clockface`] the composition of a whole frame, [`stream`] the
//! frame sequence of one consumer, and [`route`] the mapping from a request
//! path to a colour.

pub mod text;
pub mod color;
pub mod ansi;
pub mod glyph;
pub mod clockface;
pub mod stream;
pub mod route;

pub use clockface::{compose_clockface, render_clockface, Clockface};
pub use color::Color;
pub use glyph::{format_number, render_digit};
pub use route::{route, Reply};
pub use stream::{clock_stream, FrameStream};
