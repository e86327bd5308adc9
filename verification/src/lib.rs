//! The reactive data-binding core of a retained-mode user interface: entities
//! arranged in a tree, typed models attached to them, lenses that project
//! fields out of models, and bindings that are rebuilt when a projected value
//! changes.

pub mod chars;
pub mod entity;
pub mod tree;
pub mod events;
pub mod context;
pub mod derive;
pub mod view;
pub mod handle;
pub mod state;
pub mod text;
pub mod localization;
pub mod views;
pub mod style;
