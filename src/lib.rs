//! A fixed-shape, row-major two-dimensional grid over one contiguous buffer,
//! with positional indexing and row and column views.
pub mod array2d;
