//! A scanline-at-a-time PNG reader.
pub mod decoder;
pub mod error;
pub mod filter;
pub mod format;
pub mod header;
pub mod inflate;
pub mod payload;
pub mod rows;
