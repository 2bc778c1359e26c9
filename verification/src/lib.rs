//! Extraction of named game assets out of compiled binary movie containers.
//!
//! A bundle's raw bytes are parsed into a sequence of tag records; a first
//! pass over those records builds a symbol table mapping asset ids to
//! trimmed display names, and a second pass materializes binary and bitmap
//! assets under their resolved names, decoding packed pixel data on the way.

pub mod codec;
pub mod driver;
pub mod materialize;
pub mod runtime;
pub mod symbols;
pub mod tags;
pub mod zones;
