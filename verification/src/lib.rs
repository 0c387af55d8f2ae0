//! A typesetting compiler for classical East-Asian book text.
//!
//! The library turns preprocessed chapter text plus layout geometry and font
//! capability into an ordered, page-structured render plan: a fixed
//! woodblock-style grid of top-to-bottom character columns with inline
//! interlinear annotations, running titles, and decorative underlines.
//!
//! All lengths and coordinates are carried as integer milli-units (one
//! thousandth of a canvas pixel), matching the three-decimal rounding of the
//! rendered output; scale factors are carried in thousandths as well.

pub mod chars;
pub mod color;
pub mod config;
pub mod convert;
pub mod engine;
pub mod fonts;
pub mod layout;
pub mod multirows;
pub mod numerals;
pub mod plan;
pub mod preprocess;
pub mod rawcfg;
pub mod typesetter;
