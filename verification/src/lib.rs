//! Changelog rendering: parsing a semantically-versioned changelog document,
//! filtering its sections by a version-range query, and fitting the resulting
//! text tracks into a hard character budget with an optional truncation marker.

pub mod assemble;
pub mod discord;
pub mod error;
pub mod filter;
pub mod fit;
pub mod laws;
pub mod parse;
pub mod render;
pub mod text;
pub mod version;
