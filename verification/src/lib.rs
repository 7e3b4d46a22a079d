//! Renders one line of shaped text as a sheet of reusable glyph symbols.
//!
//! The crate splits a line into runs of uniform bidi level and script,
//! puts the shaped glyphs of every run into left-to-right visual order,
//! keeps one symbol per distinct glyph, and describes the resulting
//! vector document as a flat list of markup events.

pub mod analysis;
pub mod args;
pub mod document;
pub mod names;
pub mod numeral;
pub mod path;
pub mod script;
pub mod segment;
pub mod sheet;
pub mod text;
pub mod variation;
pub mod visual;
