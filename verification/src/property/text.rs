//! The properties of text.

use vstd::prelude::*;

use super::colors::Color;
use super::definition::Property;
use super::property_token::PropertyTokenModel;
use super::property_values::{
    identifier_of, scalar_of, string_of, values_color, PropertyValues,
};
use crate::error::{BevyCssError, ErrorModel};
use crate::parser::tokenizer::Scalar;
use crate::text::same_text;

verus! {

/// The error of a property whose values are not valid.
pub fn invalid_value(name: &str) -> (error: BevyCssError)
    ensures
        error@ == ErrorModel::InvalidPropertyValue(name@),
{
    BevyCssError::InvalidPropertyValue(String::from_str(name))
}

/// How the lines of a text are aligned.
#[derive(Clone, Copy, Debug, PartialEq, Eq, Structural)]
pub enum JustifyText {
    Left,
    Center,
    Right,
}

/// The alignment that an identifier names.
pub open spec fn alignment_of(name: Option<Seq<char>>) -> Option<JustifyText> {
    match name {
        Some(n) => if n == "left"@ {
            Some(JustifyText::Left)
        } else if n == "center"@ {
            Some(JustifyText::Center)
        } else if n == "right"@ {
            Some(JustifyText::Right)
        } else {
            None
        },
        None => None,
    }
}

/// Applies the `color` property to the color of all sections of a text.
#[derive(Default)]
pub struct FontColorProperty;

impl Property for FontColorProperty {
    type Cache = Color;

    open spec fn property_name() -> Seq<char> {
        "color"@
    }

    open spec fn parses(values: Seq<PropertyTokenModel>, result: Result<Color, BevyCssError>) -> bool {
        match result {
            Ok(color) => values_color(values) == Some(color),
            Err(error) => values_color(values) is None && error@
                == ErrorModel::InvalidPropertyValue("color"@),
        }
    }

    fn name() -> (name: &'static str) {
        "color"
    }

    fn parse(values: &PropertyValues) -> (result: Result<Color, BevyCssError>) {
        match values.color() {
            Some(color) => Ok(color),
            None => Err(invalid_value(Self::name())),
        }
    }
}

/// Applies the `font` property to the font of all sections of a text. The
/// value is the path of the font.
#[derive(Default)]
pub struct FontProperty;

impl Property for FontProperty {
    type Cache = String;

    open spec fn property_name() -> Seq<char> {
        "font"@
    }

    open spec fn parses(values: Seq<PropertyTokenModel>, result: Result<String, BevyCssError>) -> bool {
        match result {
            Ok(path) => string_of(values) == Some(path@),
            Err(error) => string_of(values) is None && error@ == ErrorModel::InvalidPropertyValue(
                "font"@,
            ),
        }
    }

    fn name() -> (name: &'static str) {
        "font"
    }

    fn parse(values: &PropertyValues) -> (result: Result<String, BevyCssError>) {
        match values.string() {
            Some(path) => Ok(path),
            None => Err(invalid_value(Self::name())),
        }
    }
}

/// Applies the `font-size` property to the size of all sections of a text.
#[derive(Default)]
pub struct FontSizeProperty;

impl Property for FontSizeProperty {
    type Cache = Scalar;

    open spec fn property_name() -> Seq<char> {
        "font-size"@
    }

    open spec fn parses(values: Seq<PropertyTokenModel>, result: Result<Scalar, BevyCssError>) -> bool {
        match result {
            Ok(size) => scalar_of(values) == Some(size),
            Err(error) => scalar_of(values) is None && error@ == ErrorModel::InvalidPropertyValue(
                "font-size"@,
            ),
        }
    }

    fn name() -> (name: &'static str) {
        "font-size"
    }

    fn parse(values: &PropertyValues) -> (result: Result<Scalar, BevyCssError>) {
        match values.scalar() {
            Some(size) => Ok(size),
            None => Err(invalid_value(Self::name())),
        }
    }
}

/// Applies the `text-align` property to the alignment of a text.
#[derive(Default)]
pub struct TextAlignProperty;

impl Property for TextAlignProperty {
    // An `Option`, so that the kept value has a default.
    type Cache = Option<JustifyText>;

    open spec fn property_name() -> Seq<char> {
        "text-align"@
    }

    open spec fn parses(
        values: Seq<PropertyTokenModel>,
        result: Result<Option<JustifyText>, BevyCssError>,
    ) -> bool {
        match result {
            Ok(alignment) => alignment is Some && alignment_of(identifier_of(values)) == alignment,
            Err(error) => alignment_of(identifier_of(values)) is None && error@
                == ErrorModel::InvalidPropertyValue("text-align"@),
        }
    }

    fn name() -> (name: &'static str) {
        "text-align"
    }

    fn parse(values: &PropertyValues) -> (result: Result<Option<JustifyText>, BevyCssError>) {
        match values.identifier() {
            Some(ident) => {
                if same_text(ident, "left") {
                    Ok(Some(JustifyText::Left))
                } else if same_text(ident, "center") {
                    Ok(Some(JustifyText::Center))
                } else if same_text(ident, "right") {
                    Ok(Some(JustifyText::Right))
                } else {
                    Err(invalid_value(Self::name()))
                }
            },
            None => Err(invalid_value(Self::name())),
        }
    }
}

/// Applies the `text-content` property to the text of all sections of a
/// text.
#[derive(Default)]
pub struct TextContentProperty;

impl Property for TextContentProperty {
    type Cache = String;

    open spec fn property_name() -> Seq<char> {
        "text-content"@
    }

    open spec fn parses(values: Seq<PropertyTokenModel>, result: Result<String, BevyCssError>) -> bool {
        match result {
            Ok(content) => string_of(values) == Some(content@),
            Err(error) => string_of(values) is None && error@ == ErrorModel::InvalidPropertyValue(
                "text-content"@,
            ),
        }
    }

    fn name() -> (name: &'static str) {
        "text-content"
    }

    fn parse(values: &PropertyValues) -> (result: Result<String, BevyCssError>) {
        match values.string() {
            Some(content) => Ok(content),
            None => Err(invalid_value(Self::name())),
        }
    }
}

} // verus!
