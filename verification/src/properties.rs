//! Properties that specify which font in a family to use: style, weight and stretchiness.
//!
//! Weights are kept in CSS `font-weight` units (400 is normal, 700 is bold) and stretchiness
//! in thousandths of the normal width (1000 is normal, 500 is ultra-condensed, 2000 is
//! ultra-expanded), so that every value the CSS keywords name is exact.

use vstd::prelude::*;

verus! {

/// Allows italic or oblique faces to be selected.
#[derive(Clone, Copy, Debug, PartialEq, Eq, Structural)]
pub enum Style {
    /// A face that is neither italic nor obliqued.
    Normal,
    /// A form that is generally cursive in nature.
    Italic,
    /// A typically-sloped version of the regular face.
    Oblique,
}

impl Default for Style {
    fn default() -> (r: Style)
        ensures
            r == Style::Normal,
    {
        Style::Normal
    }
}

/// The degree of blackness or stroke thickness of a font, in CSS `font-weight` units.
#[derive(Clone, Copy, Debug, PartialEq, Eq, Structural, PartialOrd)]
pub struct Weight(pub u32);

impl Default for Weight {
    fn default() -> (r: Weight)
        ensures
            r == Weight(400),
    {
        Weight::normal()
    }
}

impl Weight {
    /// Thin weight (100), the thinnest value.
    pub fn thin() -> (r: Weight)
        ensures
            r == Weight(100),
    {
        Weight(100)
    }
    /// Extra light weight (200).
    pub fn extra_light() -> (r: Weight)
        ensures
            r == Weight(200),
    {
        Weight(200)
    }
    /// Light weight (300).
    pub fn light() -> (r: Weight)
        ensures
            r == Weight(300),
    {
        Weight(300)
    }
    /// Normal (400).
    pub fn normal() -> (r: Weight)
        ensures
            r == Weight(400),
    {
        Weight(400)
    }
    /// Medium weight (500, higher than normal).
    pub fn medium() -> (r: Weight)
        ensures
            r == Weight(500),
    {
        Weight(500)
    }
    /// Semibold weight (600).
    pub fn semibold() -> (r: Weight)
        ensures
            r == Weight(600),
    {
        Weight(600)
    }
    /// Bold weight (700).
    pub fn bold() -> (r: Weight)
        ensures
            r == Weight(700),
    {
        Weight(700)
    }
    /// Extra-bold weight (800).
    pub fn extra_bold() -> (r: Weight)
        ensures
            r == Weight(800),
    {
        Weight(800)
    }
    /// Black weight (900), the thickest value.
    pub fn black() -> (r: Weight)
        ensures
            r == Weight(900),
    {
        Weight(900)
    }
}

/// The width of a font, in thousandths of the normal width.
#[derive(Clone, Copy, Debug, PartialEq, Eq, Structural, PartialOrd)]
pub struct Stretch(pub u32);

impl Default for Stretch {
    fn default() -> (r: Stretch)
        ensures
            r == Stretch(1000),
    {
        Stretch::normal()
    }
}

impl Stretch {
    /// Ultra-condensed width (50%), the narrowest possible.
    pub fn ultra_condensed() -> (r: Stretch)
        ensures
            r == Stretch(500),
    {
        Stretch(500)
    }
    /// Extra-condensed width (62.5%).
    pub fn extra_condensed() -> (r: Stretch)
        ensures
            r == Stretch(625),
    {
        Stretch(625)
    }
    /// Condensed width (75%).
    pub fn condensed() -> (r: Stretch)
        ensures
            r == Stretch(750),
    {
        Stretch(750)
    }
    /// Semi-condensed width (87.5%).
    pub fn semi_condensed() -> (r: Stretch)
        ensures
            r == Stretch(875),
    {
        Stretch(875)
    }
    /// Normal width (100%).
    pub fn normal() -> (r: Stretch)
        ensures
            r == Stretch(1000),
    {
        Stretch(1000)
    }
    /// Semi-expanded width (112.5%).
    pub fn semi_expanded() -> (r: Stretch)
        ensures
            r == Stretch(1125),
    {
        Stretch(1125)
    }
    /// Expanded width (125%).
    pub fn expanded() -> (r: Stretch)
        ensures
            r == Stretch(1250),
    {
        Stretch(1250)
    }
    /// Extra-expanded width (150%).
    pub fn extra_expanded() -> (r: Stretch)
        ensures
            r == Stretch(1500),
    {
        Stretch(1500)
    }
    /// Ultra-expanded width (200%), the widest possible.
    pub fn ultra_expanded() -> (r: Stretch)
        ensures
            r == Stretch(2000),
    {
        Stretch(2000)
    }
}

/// Properties that specify which font in a family to use: e.g. style, weight, and stretchiness.
#[derive(Clone, Copy, Debug, PartialEq, Eq, Structural)]
pub struct Properties {
    /// The font style, as defined in CSS.
    pub style: Style,
    /// The font weight, as defined in CSS.
    pub weight: Weight,
    /// The font stretchiness, as defined in CSS.
    pub stretch: Stretch,
}

impl Default for Properties {
    fn default() -> (r: Properties)
        ensures
            r == Properties::spec_default(),
    {
        Properties { style: Style::Normal, weight: Weight::normal(), stretch: Stretch::normal() }
    }
}

impl Properties {
    /// Normal style, normal weight, normal stretchiness.
    pub open spec fn spec_default() -> Properties {
        Properties { style: Style::Normal, weight: Weight(400), stretch: Stretch(1000) }
    }

    /// Initializes a property set to its default values: normal style, normal weight, and
    /// normal stretchiness.
    pub fn new() -> (r: Properties)
        ensures
            r == Properties::spec_default(),
    {
        Properties::default()
    }

    /// Sets the value of the style property and returns this property set for method chaining.
    pub fn style(&mut self, style: Style) -> (r: &mut Properties)
        ensures
            *r == (Properties { style, ..*old(self) }),
            *final(self) == *final(r),
    {
        self.style = style;
        self
    }

    /// Sets the value of the weight property and returns this property set for method chaining.
    pub fn weight(&mut self, weight: Weight) -> (r: &mut Properties)
        ensures
            *r == (Properties { weight, ..*old(self) }),
            *final(self) == *final(r),
    {
        self.weight = weight;
        self
    }

    /// Sets the value of the stretch property and returns this property set for method
    /// chaining.
    pub fn stretch(&mut self, stretch: Stretch) -> (r: &mut Properties)
        ensures
            *r == (Properties { stretch, ..*old(self) }),
            *final(self) == *final(r),
    {
        self.stretch = stretch;
        self
    }
}

/// A possible value for the `font-family` CSS property: a family name, or one of the generic
/// families.
#[derive(Clone, Debug, PartialEq)]
pub enum Class {
    /// A specific font family, specified by name: e.g. "Arial", "times".
    Name(String),
    /// Serif fonts represent the formal text style for a script.
    Serif,
    /// Glyphs in sans-serif fonts, as the term is used in CSS, are generally low contrast
    /// and have stroke endings that are plain.
    SansSerif,
    /// The sole criterion of a monospace font is that all glyphs have the same fixed width.
    Monospace,
    /// Glyphs in cursive fonts generally use a more informal script style.
    Cursive,
    /// Fantasy fonts are primarily decorative or expressive fonts that contain decorative or
    /// expressive representations of characters.
    Fantasy,
}

} // verus!
