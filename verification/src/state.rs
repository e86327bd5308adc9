//! Application state and what observes it: models, lenses, the witnesses of
//! change detection, and bindings.

pub mod data;
pub mod lens;
pub mod model;
pub mod store;
pub mod registry;
pub mod binding;
pub mod res;
