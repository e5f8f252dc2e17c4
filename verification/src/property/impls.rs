//! The properties of the look of a node.

pub mod style;

use vstd::prelude::*;

use super::colors::Color;
use super::definition::Property;
use super::property_token::PropertyTokenModel;
use super::property_values::{
    string_of, values_color, values_corners, BorderRadius, PropertyValues,
};
use super::text::invalid_value;
use crate::error::{BevyCssError, ErrorModel};

verus! {

/// Whether `result` is what a property called `name` makes of what it has
/// found in its values: the value where it has found one, and else the error
/// that names the property.
pub open spec fn parsed_as<C>(found: Option<C>, name: Seq<char>, result: Result<C, BevyCssError>) -> bool {
    match result {
        Ok(value) => found == Some(value),
        Err(error) => found is None && error@ == ErrorModel::InvalidPropertyValue(name),
    }
}

/// What a property called `name` makes of what it has found in its values.
pub fn found_or_invalid<C>(found: Option<C>, name: &str) -> (result: Result<C, BevyCssError>)
    ensures
        parsed_as(found, name@, result),
{
    match found {
        Some(value) => Ok(value),
        None => Err(invalid_value(name)),
    }
}

/// Applies the `background-color` property to the background of a node.
#[derive(Default)]
pub struct BackgroundColorProperty;

impl Property for BackgroundColorProperty {
    type Cache = Color;

    open spec fn property_name() -> Seq<char> {
        "background-color"@
    }

    open spec fn parses(values: Seq<PropertyTokenModel>, result: Result<Color, BevyCssError>) -> bool {
        match result {
            Ok(color) => values_color(values) == Some(color),
            Err(error) => values_color(values) is None && error@
                == ErrorModel::InvalidPropertyValue("background-color"@),
        }
    }

    fn name() -> (name: &'static str) {
        "background-color"
    }

    fn parse(values: &PropertyValues) -> (result: Result<Color, BevyCssError>) {
        match values.color() {
            Some(color) => Ok(color),
            None => Err(invalid_value(Self::name())),
        }
    }
}

/// Applies the `border-color` property to the border of a node.
#[derive(Default)]
pub struct BorderColorProperty;

impl Property for BorderColorProperty {
    type Cache = Color;

    open spec fn property_name() -> Seq<char> {
        "border-color"@
    }

    open spec fn parses(values: Seq<PropertyTokenModel>, result: Result<Color, BevyCssError>) -> bool {
        match result {
            Ok(color) => values_color(values) == Some(color),
            Err(error) => values_color(values) is None && error@
                == ErrorModel::InvalidPropertyValue("border-color"@),
        }
    }

    fn name() -> (name: &'static str) {
        "border-color"
    }

    fn parse(values: &PropertyValues) -> (result: Result<Color, BevyCssError>) {
        match values.color() {
            Some(color) => Ok(color),
            None => Err(invalid_value(Self::name())),
        }
    }
}

/// Applies the `border-radius` property to the corners of a node.
#[derive(Default)]
pub struct BorderRadiusProperty;

impl Property for BorderRadiusProperty {
    type Cache = BorderRadius;

    open spec fn property_name() -> Seq<char> {
        "border-radius"@
    }

    open spec fn parses(
        values: Seq<PropertyTokenModel>,
        result: Result<BorderRadius, BevyCssError>,
    ) -> bool {
        match result {
            Ok(radius) => values_corners(values) == Some(radius),
            Err(error) => values_corners(values) is None && error@
                == ErrorModel::InvalidPropertyValue("border-radius"@),
        }
    }

    fn name() -> (name: &'static str) {
        "border-radius"
    }

    fn parse(values: &PropertyValues) -> (result: Result<BorderRadius, BevyCssError>) {
        match values.border_radius() {
            Some(radius) => Ok(radius),
            None => Err(invalid_value(Self::name())),
        }
    }
}

/// Applies the `image-path` property to the image of a node. The value is the
/// path of the image.
#[derive(Default)]
pub struct ImagePathProperty;

impl Property for ImagePathProperty {
    type Cache = String;

    open spec fn property_name() -> Seq<char> {
        "image-path"@
    }

    open spec fn parses(values: Seq<PropertyTokenModel>, result: Result<String, BevyCssError>) -> bool {
        match result {
            Ok(path) => string_of(values) == Some(path@),
            Err(error) => string_of(values) is None && error@ == ErrorModel::InvalidPropertyValue(
                "image-path"@,
            ),
        }
    }

    fn name() -> (name: &'static str) {
        "image-path"
    }

    fn parse(values: &PropertyValues) -> (result: Result<String, BevyCssError>) {
        match values.string() {
            Some(path) => Ok(path),
            None => Err(invalid_value(Self::name())),
        }
    }
}

} // verus!
