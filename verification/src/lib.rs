//! The BHI image container: a textual pixel format inside a Snappy frame.
//!
//! A BHI file holds `<width>x<height>:` followed by one `r.g.b,` triplet per
//! pixel, the whole compressed as a Snappy frame stream. This crate writes and
//! reads that format and maps the stored pixel sequence onto a grid.

pub mod error;
pub mod raster;
pub mod grid;
pub mod tokens;
pub mod number;
pub mod text;
pub mod roundtrip;
pub mod frame;
pub mod codec;
pub mod intent;
