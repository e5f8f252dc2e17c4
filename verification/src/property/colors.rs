//! Colors as a style sheet writes them.

use cssparser::color::{parse_hash_color, PredefinedColorSpace};
use cssparser_color::parse_color_keyword;
use vstd::prelude::*;

use crate::parser::tokenizer::Scalar;

verus! {

/// A color as `cssparser_color` hands it out, of which only two forms are
/// told apart: red, green and blue as bytes with an alpha between 0 and 1, and
/// the components of a color function, which may be missing.
#[derive(Clone, Copy, Debug, PartialEq, Eq)]
#[allow(inconsistent_fields)]
pub enum CssColor {
    Rgba { red: u8, green: u8, blue: u8, alpha: Scalar },
    ColorFunction {
        srgb: bool,
        c1: Option<Scalar>,
        c2: Option<Scalar>,
        c3: Option<Scalar>,
        alpha: Option<Scalar>,
    },
    Other,
}

/// A color that a property can apply. The host turns it into its own color.
#[derive(Clone, Copy, Debug, PartialEq, Eq)]
#[allow(inconsistent_fields)]
pub enum Color {
    /// Red, green and blue as bytes, with an alpha between 0 and 1.
    Rgba8 { red: u8, green: u8, blue: u8, alpha: Scalar },
    /// Red, green, blue and alpha as numbers between 0 and 1.
    Rgba { red: Scalar, green: Scalar, blue: Scalar, alpha: Scalar },
}

/// The number 1.
pub open spec fn one() -> Scalar {
    Scalar { bits: 0x3f80_0000 }
}

/// The number 0.
pub open spec fn zero() -> Scalar {
    Scalar { bits: 0 }
}

/// A component of a color function, 0 where it is missing.
pub open spec fn component(c: Option<Scalar>) -> Scalar {
    match c {
        Some(v) => v,
        None => zero(),
    }
}

/// The color that a property applies for a color of a style sheet: a color of
/// bytes as it is, a color function of the sRGB space by its components, with 1
/// for a missing alpha, and none for any other.
pub open spec fn color_of(css: CssColor) -> Option<Color> {
    match css {
        CssColor::Rgba { red, green, blue, alpha } => Some(Color::Rgba8 { red, green, blue, alpha }),
        CssColor::ColorFunction { srgb, c1, c2, c3, alpha } => if srgb {
            Some(
                Color::Rgba {
                    red: component(c1),
                    green: component(c2),
                    blue: component(c3),
                    alpha: match alpha {
                        Some(a) => a,
                        None => one(),
                    },
                },
            )
        } else {
            None
        },
        CssColor::Other => None,
    }
}

/// The color that `parse_hash_color` of `cssparser` reads from the text
/// behind a `#`: red, green, blue, and alpha between 0 and 1.
pub uninterp spec fn css_hash_color(hex: Seq<char>) -> Option<(u8, u8, u8, Scalar)>;

/// The color that `parse_color_keyword` of `cssparser_color` knows under a
/// name.
pub uninterp spec fn css_keyword_color(name: Seq<char>) -> Option<CssColor>;

/// Calls `parse_hash_color` of `cssparser` on the bytes of `hex`. The contract
/// names the result and claims no more of it; `None` stands for the error.
#[verifier::external_body]
fn hash_color(hex: &str) -> (color: Option<(u8, u8, u8, Scalar)>)
    ensures
        color == css_hash_color(hex@),
{
    let (red, green, blue, alpha) = parse_hash_color(hex.as_bytes()).ok()?;
    Some((red, green, blue, Scalar { bits: alpha.to_bits() }))
}

/// Calls `parse_color_keyword` of `cssparser_color` for its own type of color.
/// The contract names the result and claims no more of it; `None` stands for
/// the error.
#[verifier::external_body]
fn keyword_color(name: &str) -> (color: Option<CssColor>)
    ensures
        color == css_keyword_color(name@),
{
    Some(match parse_color_keyword::<cssparser_color::Color>(name).ok()? {
        cssparser_color::Color::Rgba(c) => CssColor::Rgba {
            red: c.red, green: c.green, blue: c.blue, alpha: Scalar { bits: c.alpha.to_bits() },
        },
        cssparser_color::Color::ColorFunction(f) => CssColor::ColorFunction {
            srgb: matches!(f.color_space, PredefinedColorSpace::Srgb),
            c1: f.c1.map(|v| Scalar { bits: v.to_bits() }),
            c2: f.c2.map(|v| Scalar { bits: v.to_bits() }),
            c3: f.c3.map(|v| Scalar { bits: v.to_bits() }),
            alpha: f.alpha.map(|v| Scalar { bits: v.to_bits() }),
        },
        _ => CssColor::Other,
    })
}

/// The color that a property applies for a color of a style sheet.
pub fn to_color(css: CssColor) -> (color: Option<Color>)
    ensures
        color == color_of(css),
{
    match css {
        CssColor::Rgba { red, green, blue, alpha } => Some(Color::Rgba8 { red, green, blue, alpha }),
        CssColor::ColorFunction { srgb, c1, c2, c3, alpha } => {
            if srgb {
                Some(
                    Color::Rgba {
                        red: component_or_zero(c1),
                        green: component_or_zero(c2),
                        blue: component_or_zero(c3),
                        alpha: match alpha {
                            Some(a) => a,
                            None => Scalar { bits: 0x3f80_0000 },
                        },
                    },
                )
            } else {
                None
            }
        },
        CssColor::Other => None,
    }
}

fn component_or_zero(c: Option<Scalar>) -> (value: Scalar)
    ensures
        value == component(c),
{
    match c {
        Some(v) => v,
        None => Scalar { bits: 0 },
    }
}

/// The color of the text behind a `#`, like `0f0` or `00ff00`.
pub open spec fn hex_color(hex: Seq<char>) -> Option<Color> {
    match css_hash_color(hex) {
        Some((red, green, blue, alpha)) => Some(Color::Rgba8 { red, green, blue, alpha }),
        None => None,
    }
}

/// The color of a name, like `silver` or `azure`.
pub open spec fn named_color(name: Seq<char>) -> Option<Color> {
    match css_keyword_color(name) {
        Some(css) => color_of(css),
        None => None,
    }
}

/// Parses the text behind a `#` into a color.
pub fn parse_hex_color(hex: &str) -> (color: Option<Color>)
    ensures
        color == hex_color(hex@),
{
    match hash_color(hex) {
        Some((red, green, blue, alpha)) => Some(Color::Rgba8 { red, green, blue, alpha }),
        None => None,
    }
}

/// Parses a named color, like `silver` or `azure`, into a color.
pub fn parse_named_color(name: &str) -> (color: Option<Color>)
    ensures
        color == named_color(name@),
{
    match keyword_color(name) {
        Some(css) => to_color(css),
        None => None,
    }
}

} // verus!
