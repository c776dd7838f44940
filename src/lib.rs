//! Hexagonal binning and raster neighbourhood operations for square scalar fields.
pub mod bins;
pub mod field;
pub mod hex;
pub mod layout;
pub mod naming;
pub mod tiff;
