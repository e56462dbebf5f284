//! Small verified building blocks: an axis-aligned rectangle, owned-string
//! hand-offs, and a scan for the first word of a text.

pub mod ownership;
pub mod rect;
pub mod words;
