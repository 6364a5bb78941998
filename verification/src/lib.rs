//! Foundation of a page-oriented storage engine: a fixed-size page with an
//! append-only write cursor, and a tagged binary codec for a closed set of
//! sixteen scalar and variable-length value types.

pub mod blocks;
pub mod data_types;
pub mod numeric;
