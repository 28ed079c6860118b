//! Radar slideshow: which tiles to fetch, the frames made from them, and how frames reach the
//! panel.
//!
//! A decoded radar image is far too large to be held whole, so every stage works on a few rows at
//! a time.

pub mod frame;
pub mod geometry;
pub mod sink;
pub mod source;
pub mod staging;
pub mod view;
