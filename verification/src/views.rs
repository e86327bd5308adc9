//! The views that the library brings along.

pub mod label;
pub mod image_view;
