//! How a node looks: the attributes that the reactive core writes, for the
//! layout and the renderer to read.

pub mod parser;

use vstd::prelude::*;

verus! {

/// Whether a node takes part in the layout.
#[derive(Clone, Copy, PartialEq, Eq, Structural, Debug)]
pub enum Display {
    /// The node is left out of the layout.
    Hidden,
    Flex,
}

/// Whether a node is drawn.
#[derive(Clone, Copy, PartialEq, Eq, Structural, Debug)]
pub enum Visibility {
    Visible,
    Invisible,
}

/// A colour: red, green, blue and opacity.
#[derive(Clone, Copy, PartialEq, Eq, Structural, Debug)]
pub struct Color {
    pub r: u8,
    pub g: u8,
    pub b: u8,
    pub a: u8,
}

impl Color {
    /// The opaque colour with the given parts.
    pub fn rgb(r: u8, g: u8, b: u8) -> (color: Color)
        ensures
            color == (Color { r, g, b, a: 255 }),
    {
        Color { r, g, b, a: 255 }
    }

    /// The colour with the given parts and opacity.
    pub fn rgba(r: u8, g: u8, b: u8, a: u8) -> (color: Color)
        ensures
            color == (Color { r, g, b, a }),
    {
        Color { r, g, b, a }
    }

    /// Opaque blue.
    pub fn blue() -> (color: Color)
        ensures
            color == (Color { r: 0, g: 0, b: 255, a: 255 }),
    {
        Color { r: 0, g: 0, b: 255, a: 255 }
    }
}

/// The attributes of one node.
pub struct Style {
    /// The name under which style rules find the node.
    pub element: Option<String>,
    pub text: Option<String>,
    pub display: Display,
    pub visibility: Visibility,
    pub background_color: Option<Color>,
    pub background_image: Option<String>,
}

impl Style {
    /// The attributes of a node that nothing has been written to: shown,
    /// visible, and bare.
    pub open spec fn is_bare(&self) -> bool {
        &&& self.element is None
        &&& self.text is None
        &&& self.display == Display::Flex
        &&& self.visibility == Visibility::Visible
        &&& self.background_color is None
        &&& self.background_image is None
    }

    /// The attributes of a node that nothing has been written to.
    pub fn new() -> (style: Style)
        ensures
            style.is_bare(),
    {
        Style {
            element: None,
            text: None,
            display: Display::Flex,
            visibility: Visibility::Visible,
            background_color: None,
            background_image: None,
        }
    }
}

} // verus!
