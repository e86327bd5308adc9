//! Font properties.

use vstd::prelude::*;

verus! {

/// The weight of a font, from 1 (thinnest) to 1000 (boldest).
pub struct FontWeight(u16);

/// The family of a font. No family is defined yet: the type has no value.
pub struct FontFamily(core::convert::Infallible);

/// The slant of a font.
pub enum FontStyle {
    Regular,
    Italic,
}

/// `raw`, brought into the range of weights: 1 to 1000.
pub open spec fn clamped_weight(raw: u16) -> u16 {
    if raw < 1 {
        1
    } else if raw > 1000 {
        1000
    } else {
        raw
    }
}

impl FontWeight {
    /// The thinnest of the named weights.
    pub fn thin() -> (weight: FontWeight)
        ensures
            weight.raw() == 100,
    {
        FontWeight(100)
    }

    /// Another name for `thin`.
    pub fn hairline() -> (weight: FontWeight)
        ensures
            weight.raw() == 100,
    {
        FontWeight(100)
    }

    /// Extra light.
    pub fn extra_light() -> (weight: FontWeight)
        ensures
            weight.raw() == 200,
    {
        FontWeight(200)
    }

    /// Light.
    pub fn light() -> (weight: FontWeight)
        ensures
            weight.raw() == 300,
    {
        FontWeight(300)
    }

    /// The weight of ordinary text.
    pub fn regular() -> (weight: FontWeight)
        ensures
            weight.raw() == 400,
    {
        FontWeight(400)
    }

    /// Another name for `regular`.
    pub fn normal() -> (weight: FontWeight)
        ensures
            weight.raw() == 400,
    {
        FontWeight(400)
    }

    /// Medium.
    pub fn medium() -> (weight: FontWeight)
        ensures
            weight.raw() == 500,
    {
        FontWeight(500)
    }

    /// Semi-bold.
    pub fn semi_bold() -> (weight: FontWeight)
        ensures
            weight.raw() == 600,
    {
        FontWeight(600)
    }

    /// Bold.
    pub fn bold() -> (weight: FontWeight)
        ensures
            weight.raw() == 700,
    {
        FontWeight(700)
    }

    /// Extra bold.
    pub fn extra_bold() -> (weight: FontWeight)
        ensures
            weight.raw() == 800,
    {
        FontWeight(800)
    }

    /// Black.
    pub fn black() -> (weight: FontWeight)
        ensures
            weight.raw() == 900,
    {
        FontWeight(900)
    }

    /// Another name for `black`.
    pub fn heavy() -> (weight: FontWeight)
        ensures
            weight.raw() == 900,
    {
        FontWeight(900)
    }

    /// The boldest of the named weights.
    pub fn extra_black() -> (weight: FontWeight)
        ensures
            weight.raw() == 950,
    {
        FontWeight(950)
    }

    #[verifier::type_invariant]
    spec fn in_range(self) -> bool {
        1 <= self.0 <= 1000
    }

    /// The weight as a number.
    pub closed spec fn raw(self) -> u16 {
        self.0
    }

    /// A weight with the value `raw`, brought into the range 1 to 1000.
    pub fn new(raw: u16) -> (weight: FontWeight)
        ensures
            weight.raw() == clamped_weight(raw),
    {
        let raw = if raw < 1 {
            1
        } else if raw > 1000 {
            1000
        } else {
            raw
        };
        FontWeight(raw)
    }

    /// The weight as a number between 1 and 1000.
    pub fn to_raw(self) -> (raw: u16)
        ensures
            raw == self.raw(),
            1 <= raw <= 1000,
    {
        proof {
            use_type_invariant(&self);
        }
        self.0
    }
}

} // verus!
