//! Seven-segment drawing for a four-digit LED backpack.
//!
//! The display is a row buffer of sixteen bytes. Four digit positions and a colon
//! share it: every position owns two rows, and the colon sits between the second
//! and the third digit. The functions here turn a digit, a character or a scaled
//! number into single-cell writes on such a buffer; sending the buffer to the
//! device is the caller's business.

pub mod buffer;
pub mod driver;
pub mod error;
pub mod float;
pub mod font;
pub mod index;
pub mod laws;
pub mod segment;

pub use crate::buffer::DisplayBuffer;
pub use crate::error::Error;
pub use crate::float::{layout_float, Glyph, Scaled};
pub use crate::index::Index;
pub use crate::segment::SevenSegment;
