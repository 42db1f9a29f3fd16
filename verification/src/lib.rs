//! Pride flag generation: device and pride presets, configuration and its
//! validation, color-list parsing, striped flags with a smooth blend between
//! stripes, alpha compositing of a paw overlay, and encoding to PNG, JPEG or
//! WebP.

pub mod colors;
pub mod config;
pub mod error;
pub mod flag;
pub mod format;
pub mod path;
pub mod query;
pub mod raster;
pub mod text;
pub mod types;
