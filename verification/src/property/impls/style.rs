//! The properties of the layout of a node.

use vstd::prelude::*;

use super::found_or_invalid;
use super::parsed_as;
use crate::error::BevyCssError;
use crate::parser::tokenizer::Scalar;
use crate::property::definition::Property;
use crate::property::property_token::PropertyTokenModel;
use crate::property::property_values::{
    identifier_of, optional_scalar_of, overflow_of, scalar_of, val_of, values_rect, OverflowAxis,
    PropertyValues, UiRect, Val,
};
use crate::text::same_text;

verus! {

/// How a node is laid out.
#[derive(Clone, Copy, Debug, PartialEq, Eq, Structural)]
pub enum Display {
    /// As a flexible box.
    Flex,
    /// Not at all: `none`.
    Absent,
}

impl Display {
    /// The value that a style sheet writes as `name`.
    pub open spec fn named(name: Seq<char>) -> Option<Display> {
        if name == "flex"@ {
            Some(Display::Flex)
        } else if name == "none"@ {
            Some(Display::Absent)
        } else {
            None
        }
    }

    /// The value that a style sheet writes as `name`.
    pub fn from_name(name: &str) -> (value: Option<Display>)
        ensures
            value == Display::named(name@),
    {
        if same_text(name, "flex") {
            Some(Display::Flex)
        } else if same_text(name, "none") {
            Some(Display::Absent)
        } else {
            None
        }
    }

    /// The value that the first identifier of a list names.
    pub open spec fn of(values: Seq<PropertyTokenModel>) -> Option<Display> {
        match identifier_of(values) {
            Some(name) => Display::named(name),
            None => None,
        }
    }
}

/// How the position of a node is found.
#[derive(Clone, Copy, Debug, PartialEq, Eq, Structural)]
pub enum PositionType {
    /// From the sides of its parent.
    Absolute,
    /// From where the layout puts it.
    Relative,
}

impl PositionType {
    /// The value that a style sheet writes as `name`.
    pub open spec fn named(name: Seq<char>) -> Option<PositionType> {
        if name == "absolute"@ {
            Some(PositionType::Absolute)
        } else if name == "relative"@ {
            Some(PositionType::Relative)
        } else {
            None
        }
    }

    /// The value that a style sheet writes as `name`.
    pub fn from_name(name: &str) -> (value: Option<PositionType>)
        ensures
            value == PositionType::named(name@),
    {
        if same_text(name, "absolute") {
            Some(PositionType::Absolute)
        } else if same_text(name, "relative") {
            Some(PositionType::Relative)
        } else {
            None
        }
    }

    /// The value that the first identifier of a list names.
    pub open spec fn of(values: Seq<PropertyTokenModel>) -> Option<PositionType> {
        match identifier_of(values) {
            Some(name) => PositionType::named(name),
            None => None,
        }
    }
}

/// The direction in which text and children run.
#[derive(Clone, Copy, Debug, PartialEq, Eq, Structural)]
pub enum Direction {
    /// As in the parent.
    Inherit,
    /// From left to right.
    LeftToRight,
    /// From right to left.
    RightToLeft,
}

impl Direction {
    /// The value that a style sheet writes as `name`.
    pub open spec fn named(name: Seq<char>) -> Option<Direction> {
        if name == "inherit"@ {
            Some(Direction::Inherit)
        } else if name == "left-to-right"@ {
            Some(Direction::LeftToRight)
        } else if name == "right-to-left"@ {
            Some(Direction::RightToLeft)
        } else {
            None
        }
    }

    /// The value that a style sheet writes as `name`.
    pub fn from_name(name: &str) -> (value: Option<Direction>)
        ensures
            value == Direction::named(name@),
    {
        if same_text(name, "inherit") {
            Some(Direction::Inherit)
        } else if same_text(name, "left-to-right") {
            Some(Direction::LeftToRight)
        } else if same_text(name, "right-to-left") {
            Some(Direction::RightToLeft)
        } else {
            None
        }
    }

    /// The value that the first identifier of a list names.
    pub open spec fn of(values: Seq<PropertyTokenModel>) -> Option<Direction> {
        match identifier_of(values) {
            Some(name) => Direction::named(name),
            None => None,
        }
    }
}

/// The axis along which the children of a node are laid out.
#[derive(Clone, Copy, Debug, PartialEq, Eq, Structural)]
pub enum FlexDirection {
    Row,
    Column,
    RowReverse,
    ColumnReverse,
}

impl FlexDirection {
    /// The value that a style sheet writes as `name`.
    pub open spec fn named(name: Seq<char>) -> Option<FlexDirection> {
        if name == "row"@ {
            Some(FlexDirection::Row)
        } else if name == "column"@ {
            Some(FlexDirection::Column)
        } else if name == "row-reverse"@ {
            Some(FlexDirection::RowReverse)
        } else if name == "column-reverse"@ {
            Some(FlexDirection::ColumnReverse)
        } else {
            None
        }
    }

    /// The value that a style sheet writes as `name`.
    pub fn from_name(name: &str) -> (value: Option<FlexDirection>)
        ensures
            value == FlexDirection::named(name@),
    {
        if same_text(name, "row") {
            Some(FlexDirection::Row)
        } else if same_text(name, "column") {
            Some(FlexDirection::Column)
        } else if same_text(name, "row-reverse") {
            Some(FlexDirection::RowReverse)
        } else if same_text(name, "column-reverse") {
            Some(FlexDirection::ColumnReverse)
        } else {
            None
        }
    }

    /// The value that the first identifier of a list names.
    pub open spec fn of(values: Seq<PropertyTokenModel>) -> Option<FlexDirection> {
        match identifier_of(values) {
            Some(name) => FlexDirection::named(name),
            None => None,
        }
    }
}

/// Whether the children of a node go on in a new line.
#[derive(Clone, Copy, Debug, PartialEq, Eq, Structural)]
pub enum FlexWrap {
    NoWrap,
    Wrap,
    WrapReverse,
}

impl FlexWrap {
    /// The value that a style sheet writes as `name`.
    pub open spec fn named(name: Seq<char>) -> Option<FlexWrap> {
        if name == "no-wrap"@ {
            Some(FlexWrap::NoWrap)
        } else if name == "wrap"@ {
            Some(FlexWrap::Wrap)
        } else if name == "wrap-reverse"@ {
            Some(FlexWrap::WrapReverse)
        } else {
            None
        }
    }

    /// The value that a style sheet writes as `name`.
    pub fn from_name(name: &str) -> (value: Option<FlexWrap>)
        ensures
            value == FlexWrap::named(name@),
    {
        if same_text(name, "no-wrap") {
            Some(FlexWrap::NoWrap)
        } else if same_text(name, "wrap") {
            Some(FlexWrap::Wrap)
        } else if same_text(name, "wrap-reverse") {
            Some(FlexWrap::WrapReverse)
        } else {
            None
        }
    }

    /// The value that the first identifier of a list names.
    pub open spec fn of(values: Seq<PropertyTokenModel>) -> Option<FlexWrap> {
        match identifier_of(values) {
            Some(name) => FlexWrap::named(name),
            None => None,
        }
    }
}

/// How the children of a node are aligned across its axis.
#[derive(Clone, Copy, Debug, PartialEq, Eq, Structural)]
pub enum AlignItems {
    FlexStart,
    FlexEnd,
    Center,
    Baseline,
    Stretch,
}

impl AlignItems {
    /// The value that a style sheet writes as `name`.
    pub open spec fn named(name: Seq<char>) -> Option<AlignItems> {
        if name == "flex-start"@ {
            Some(AlignItems::FlexStart)
        } else if name == "flex-end"@ {
            Some(AlignItems::FlexEnd)
        } else if name == "center"@ {
            Some(AlignItems::Center)
        } else if name == "baseline"@ {
            Some(AlignItems::Baseline)
        } else if name == "stretch"@ {
            Some(AlignItems::Stretch)
        } else {
            None
        }
    }

    /// The value that a style sheet writes as `name`.
    pub fn from_name(name: &str) -> (value: Option<AlignItems>)
        ensures
            value == AlignItems::named(name@),
    {
        if same_text(name, "flex-start") {
            Some(AlignItems::FlexStart)
        } else if same_text(name, "flex-end") {
            Some(AlignItems::FlexEnd)
        } else if same_text(name, "center") {
            Some(AlignItems::Center)
        } else if same_text(name, "baseline") {
            Some(AlignItems::Baseline)
        } else if same_text(name, "stretch") {
            Some(AlignItems::Stretch)
        } else {
            None
        }
    }

    /// The value that the first identifier of a list names.
    pub open spec fn of(values: Seq<PropertyTokenModel>) -> Option<AlignItems> {
        match identifier_of(values) {
            Some(name) => AlignItems::named(name),
            None => None,
        }
    }
}

/// How a node is aligned across the axis of its parent.
#[derive(Clone, Copy, Debug, PartialEq, Eq, Structural)]
pub enum AlignSelf {
    Auto,
    FlexStart,
    FlexEnd,
    Center,
    Baseline,
    Stretch,
}

impl AlignSelf {
    /// The value that a style sheet writes as `name`.
    pub open spec fn named(name: Seq<char>) -> Option<AlignSelf> {
        if name == "auto"@ {
            Some(AlignSelf::Auto)
        } else if name == "flex-start"@ {
            Some(AlignSelf::FlexStart)
        } else if name == "flex-end"@ {
            Some(AlignSelf::FlexEnd)
        } else if name == "center"@ {
            Some(AlignSelf::Center)
        } else if name == "baseline"@ {
            Some(AlignSelf::Baseline)
        } else if name == "stretch"@ {
            Some(AlignSelf::Stretch)
        } else {
            None
        }
    }

    /// The value that a style sheet writes as `name`.
    pub fn from_name(name: &str) -> (value: Option<AlignSelf>)
        ensures
            value == AlignSelf::named(name@),
    {
        if same_text(name, "auto") {
            Some(AlignSelf::Auto)
        } else if same_text(name, "flex-start") {
            Some(AlignSelf::FlexStart)
        } else if same_text(name, "flex-end") {
            Some(AlignSelf::FlexEnd)
        } else if same_text(name, "center") {
            Some(AlignSelf::Center)
        } else if same_text(name, "baseline") {
            Some(AlignSelf::Baseline)
        } else if same_text(name, "stretch") {
            Some(AlignSelf::Stretch)
        } else {
            None
        }
    }

    /// The value that the first identifier of a list names.
    pub open spec fn of(values: Seq<PropertyTokenModel>) -> Option<AlignSelf> {
        match identifier_of(values) {
            Some(name) => AlignSelf::named(name),
            None => None,
        }
    }
}

/// How the lines of a node are aligned across its axis.
#[derive(Clone, Copy, Debug, PartialEq, Eq, Structural)]
pub enum AlignContent {
    FlexStart,
    FlexEnd,
    Center,
    Stretch,
    SpaceBetween,
    SpaceAround,
}

impl AlignContent {
    /// The value that a style sheet writes as `name`.
    pub open spec fn named(name: Seq<char>) -> Option<AlignContent> {
        if name == "flex-start"@ {
            Some(AlignContent::FlexStart)
        } else if name == "flex-end"@ {
            Some(AlignContent::FlexEnd)
        } else if name == "center"@ {
            Some(AlignContent::Center)
        } else if name == "stretch"@ {
            Some(AlignContent::Stretch)
        } else if name == "space-between"@ {
            Some(AlignContent::SpaceBetween)
        } else if name == "space-around"@ {
            Some(AlignContent::SpaceAround)
        } else {
            None
        }
    }

    /// The value that a style sheet writes as `name`.
    pub fn from_name(name: &str) -> (value: Option<AlignContent>)
        ensures
            value == AlignContent::named(name@),
    {
        if same_text(name, "flex-start") {
            Some(AlignContent::FlexStart)
        } else if same_text(name, "flex-end") {
            Some(AlignContent::FlexEnd)
        } else if same_text(name, "center") {
            Some(AlignContent::Center)
        } else if same_text(name, "stretch") {
            Some(AlignContent::Stretch)
        } else if same_text(name, "space-between") {
            Some(AlignContent::SpaceBetween)
        } else if same_text(name, "space-around") {
            Some(AlignContent::SpaceAround)
        } else {
            None
        }
    }

    /// The value that the first identifier of a list names.
    pub open spec fn of(values: Seq<PropertyTokenModel>) -> Option<AlignContent> {
        match identifier_of(values) {
            Some(name) => AlignContent::named(name),
            None => None,
        }
    }
}

/// How the children of a node are aligned along its axis.
#[derive(Clone, Copy, Debug, PartialEq, Eq, Structural)]
pub enum JustifyContent {
    FlexStart,
    FlexEnd,
    Center,
    SpaceBetween,
    SpaceAround,
    SpaceEvenly,
}

impl JustifyContent {
    /// The value that a style sheet writes as `name`.
    pub open spec fn named(name: Seq<char>) -> Option<JustifyContent> {
        if name == "flex-start"@ {
            Some(JustifyContent::FlexStart)
        } else if name == "flex-end"@ {
            Some(JustifyContent::FlexEnd)
        } else if name == "center"@ {
            Some(JustifyContent::Center)
        } else if name == "space-between"@ {
            Some(JustifyContent::SpaceBetween)
        } else if name == "space-around"@ {
            Some(JustifyContent::SpaceAround)
        } else if name == "space-evenly"@ {
            Some(JustifyContent::SpaceEvenly)
        } else {
            None
        }
    }

    /// The value that a style sheet writes as `name`.
    pub fn from_name(name: &str) -> (value: Option<JustifyContent>)
        ensures
            value == JustifyContent::named(name@),
    {
        if same_text(name, "flex-start") {
            Some(JustifyContent::FlexStart)
        } else if same_text(name, "flex-end") {
            Some(JustifyContent::FlexEnd)
        } else if same_text(name, "center") {
            Some(JustifyContent::Center)
        } else if same_text(name, "space-between") {
            Some(JustifyContent::SpaceBetween)
        } else if same_text(name, "space-around") {
            Some(JustifyContent::SpaceAround)
        } else if same_text(name, "space-evenly") {
            Some(JustifyContent::SpaceEvenly)
        } else {
            None
        }
    }

    /// The value that the first identifier of a list names.
    pub open spec fn of(values: Seq<PropertyTokenModel>) -> Option<JustifyContent> {
        match identifier_of(values) {
            Some(name) => JustifyContent::named(name),
            None => None,
        }
    }
}

/// Applies the `margin` property: the margin of a node.
#[derive(Default)]
pub struct MarginProperty;

impl Property for MarginProperty {
    type Cache = UiRect;

    open spec fn property_name() -> Seq<char> {
        "margin"@
    }

    open spec fn parses(values: Seq<PropertyTokenModel>, result: Result<UiRect, BevyCssError>) -> bool {
        parsed_as(values_rect(values), "margin"@, result)
    }

    fn name() -> (name: &'static str) {
        "margin"
    }

    fn parse(values: &PropertyValues) -> (result: Result<UiRect, BevyCssError>) {
        found_or_invalid(values.rect(), Self::name())
    }
}

/// Applies the `padding` property: the padding of a node.
#[derive(Default)]
pub struct PaddingProperty;

impl Property for PaddingProperty {
    type Cache = UiRect;

    open spec fn property_name() -> Seq<char> {
        "padding"@
    }

    open spec fn parses(values: Seq<PropertyTokenModel>, result: Result<UiRect, BevyCssError>) -> bool {
        parsed_as(values_rect(values), "padding"@, result)
    }

    fn name() -> (name: &'static str) {
        "padding"
    }

    fn parse(values: &PropertyValues) -> (result: Result<UiRect, BevyCssError>) {
        found_or_invalid(values.rect(), Self::name())
    }
}

/// Applies the `border` property: the width of the border of a node.
#[derive(Default)]
pub struct BorderProperty;

impl Property for BorderProperty {
    type Cache = UiRect;

    open spec fn property_name() -> Seq<char> {
        "border"@
    }

    open spec fn parses(values: Seq<PropertyTokenModel>, result: Result<UiRect, BevyCssError>) -> bool {
        parsed_as(values_rect(values), "border"@, result)
    }

    fn name() -> (name: &'static str) {
        "border"
    }

    fn parse(values: &PropertyValues) -> (result: Result<UiRect, BevyCssError>) {
        found_or_invalid(values.rect(), Self::name())
    }
}

/// Applies the `left` property: the distance of a node from the left.
#[derive(Default)]
pub struct LeftProperty;

impl Property for LeftProperty {
    type Cache = Val;

    open spec fn property_name() -> Seq<char> {
        "left"@
    }

    open spec fn parses(values: Seq<PropertyTokenModel>, result: Result<Val, BevyCssError>) -> bool {
        parsed_as(val_of(values), "left"@, result)
    }

    fn name() -> (name: &'static str) {
        "left"
    }

    fn parse(values: &PropertyValues) -> (result: Result<Val, BevyCssError>) {
        found_or_invalid(values.val(), Self::name())
    }
}

/// Applies the `right` property: the distance of a node from the right.
#[derive(Default)]
pub struct RightProperty;

impl Property for RightProperty {
    type Cache = Val;

    open spec fn property_name() -> Seq<char> {
        "right"@
    }

    open spec fn parses(values: Seq<PropertyTokenModel>, result: Result<Val, BevyCssError>) -> bool {
        parsed_as(val_of(values), "right"@, result)
    }

    fn name() -> (name: &'static str) {
        "right"
    }

    fn parse(values: &PropertyValues) -> (result: Result<Val, BevyCssError>) {
        found_or_invalid(values.val(), Self::name())
    }
}

/// Applies the `top` property: the distance of a node from the top.
#[derive(Default)]
pub struct TopProperty;

impl Property for TopProperty {
    type Cache = Val;

    open spec fn property_name() -> Seq<char> {
        "top"@
    }

    open spec fn parses(values: Seq<PropertyTokenModel>, result: Result<Val, BevyCssError>) -> bool {
        parsed_as(val_of(values), "top"@, result)
    }

    fn name() -> (name: &'static str) {
        "top"
    }

    fn parse(values: &PropertyValues) -> (result: Result<Val, BevyCssError>) {
        found_or_invalid(values.val(), Self::name())
    }
}

/// Applies the `bottom` property: the distance of a node from the bottom.
#[derive(Default)]
pub struct BottomProperty;

impl Property for BottomProperty {
    type Cache = Val;

    open spec fn property_name() -> Seq<char> {
        "bottom"@
    }

    open spec fn parses(values: Seq<PropertyTokenModel>, result: Result<Val, BevyCssError>) -> bool {
        parsed_as(val_of(values), "bottom"@, result)
    }

    fn name() -> (name: &'static str) {
        "bottom"
    }

    fn parse(values: &PropertyValues) -> (result: Result<Val, BevyCssError>) {
        found_or_invalid(values.val(), Self::name())
    }
}

/// Applies the `width` property: the width of a node.
#[derive(Default)]
pub struct WidthProperty;

impl Property for WidthProperty {
    type Cache = Val;

    open spec fn property_name() -> Seq<char> {
        "width"@
    }

    open spec fn parses(values: Seq<PropertyTokenModel>, result: Result<Val, BevyCssError>) -> bool {
        parsed_as(val_of(values), "width"@, result)
    }

    fn name() -> (name: &'static str) {
        "width"
    }

    fn parse(values: &PropertyValues) -> (result: Result<Val, BevyCssError>) {
        found_or_invalid(values.val(), Self::name())
    }
}

/// Applies the `height` property: the height of a node.
#[derive(Default)]
pub struct HeightProperty;

impl Property for HeightProperty {
    type Cache = Val;

    open spec fn property_name() -> Seq<char> {
        "height"@
    }

    open spec fn parses(values: Seq<PropertyTokenModel>, result: Result<Val, BevyCssError>) -> bool {
        parsed_as(val_of(values), "height"@, result)
    }

    fn name() -> (name: &'static str) {
        "height"
    }

    fn parse(values: &PropertyValues) -> (result: Result<Val, BevyCssError>) {
        found_or_invalid(values.val(), Self::name())
    }
}

/// Applies the `min-width` property: the least width of a node.
#[derive(Default)]
pub struct MinWidthProperty;

impl Property for MinWidthProperty {
    type Cache = Val;

    open spec fn property_name() -> Seq<char> {
        "min-width"@
    }

    open spec fn parses(values: Seq<PropertyTokenModel>, result: Result<Val, BevyCssError>) -> bool {
        parsed_as(val_of(values), "min-width"@, result)
    }

    fn name() -> (name: &'static str) {
        "min-width"
    }

    fn parse(values: &PropertyValues) -> (result: Result<Val, BevyCssError>) {
        found_or_invalid(values.val(), Self::name())
    }
}

/// Applies the `min-height` property: the least height of a node.
#[derive(Default)]
pub struct MinHeightProperty;

impl Property for MinHeightProperty {
    type Cache = Val;

    open spec fn property_name() -> Seq<char> {
        "min-height"@
    }

    open spec fn parses(values: Seq<PropertyTokenModel>, result: Result<Val, BevyCssError>) -> bool {
        parsed_as(val_of(values), "min-height"@, result)
    }

    fn name() -> (name: &'static str) {
        "min-height"
    }

    fn parse(values: &PropertyValues) -> (result: Result<Val, BevyCssError>) {
        found_or_invalid(values.val(), Self::name())
    }
}

/// Applies the `max-width` property: the greatest width of a node.
#[derive(Default)]
pub struct MaxWidthProperty;

impl Property for MaxWidthProperty {
    type Cache = Val;

    open spec fn property_name() -> Seq<char> {
        "max-width"@
    }

    open spec fn parses(values: Seq<PropertyTokenModel>, result: Result<Val, BevyCssError>) -> bool {
        parsed_as(val_of(values), "max-width"@, result)
    }

    fn name() -> (name: &'static str) {
        "max-width"
    }

    fn parse(values: &PropertyValues) -> (result: Result<Val, BevyCssError>) {
        found_or_invalid(values.val(), Self::name())
    }
}

/// Applies the `max-height` property: the greatest height of a node.
#[derive(Default)]
pub struct MaxHeightProperty;

impl Property for MaxHeightProperty {
    type Cache = Val;

    open spec fn property_name() -> Seq<char> {
        "max-height"@
    }

    open spec fn parses(values: Seq<PropertyTokenModel>, result: Result<Val, BevyCssError>) -> bool {
        parsed_as(val_of(values), "max-height"@, result)
    }

    fn name() -> (name: &'static str) {
        "max-height"
    }

    fn parse(values: &PropertyValues) -> (result: Result<Val, BevyCssError>) {
        found_or_invalid(values.val(), Self::name())
    }
}

/// Applies the `flex-basis` property: the size of a node before it grows or shrinks.
#[derive(Default)]
pub struct FlexBasisProperty;

impl Property for FlexBasisProperty {
    type Cache = Val;

    open spec fn property_name() -> Seq<char> {
        "flex-basis"@
    }

    open spec fn parses(values: Seq<PropertyTokenModel>, result: Result<Val, BevyCssError>) -> bool {
        parsed_as(val_of(values), "flex-basis"@, result)
    }

    fn name() -> (name: &'static str) {
        "flex-basis"
    }

    fn parse(values: &PropertyValues) -> (result: Result<Val, BevyCssError>) {
        found_or_invalid(values.val(), Self::name())
    }
}

/// Applies the `flex-grow` property: how much a node grows into room that is left.
#[derive(Default)]
pub struct FlexGrowProperty;

impl Property for FlexGrowProperty {
    type Cache = Scalar;

    open spec fn property_name() -> Seq<char> {
        "flex-grow"@
    }

    open spec fn parses(values: Seq<PropertyTokenModel>, result: Result<Scalar, BevyCssError>) -> bool {
        parsed_as(scalar_of(values), "flex-grow"@, result)
    }

    fn name() -> (name: &'static str) {
        "flex-grow"
    }

    fn parse(values: &PropertyValues) -> (result: Result<Scalar, BevyCssError>) {
        found_or_invalid(values.scalar(), Self::name())
    }
}

/// Applies the `flex-shrink` property: how much a node shrinks where room is short.
#[derive(Default)]
pub struct FlexShrinkProperty;

impl Property for FlexShrinkProperty {
    type Cache = Scalar;

    open spec fn property_name() -> Seq<char> {
        "flex-shrink"@
    }

    open spec fn parses(values: Seq<PropertyTokenModel>, result: Result<Scalar, BevyCssError>) -> bool {
        parsed_as(scalar_of(values), "flex-shrink"@, result)
    }

    fn name() -> (name: &'static str) {
        "flex-shrink"
    }

    fn parse(values: &PropertyValues) -> (result: Result<Scalar, BevyCssError>) {
        found_or_invalid(values.scalar(), Self::name())
    }
}

/// Applies the `aspect-ratio` property: the ratio of the width of a node to its height.
#[derive(Default)]
pub struct AspectRatioProperty;

impl Property for AspectRatioProperty {
    type Cache = Option<Scalar>;

    open spec fn property_name() -> Seq<char> {
        "aspect-ratio"@
    }

    open spec fn parses(values: Seq<PropertyTokenModel>, result: Result<Option<Scalar>, BevyCssError>) -> bool {
        parsed_as(optional_scalar_of(values), "aspect-ratio"@, result)
    }

    fn name() -> (name: &'static str) {
        "aspect-ratio"
    }

    fn parse(values: &PropertyValues) -> (result: Result<Option<Scalar>, BevyCssError>) {
        found_or_invalid(values.option_scalar(), Self::name())
    }
}

/// Applies the `overflow-x` property: what becomes of content that is wider than its node.
#[derive(Default)]
pub struct OverflowXProperty;

impl Property for OverflowXProperty {
    type Cache = OverflowAxis;

    open spec fn property_name() -> Seq<char> {
        "overflow-x"@
    }

    open spec fn parses(values: Seq<PropertyTokenModel>, result: Result<OverflowAxis, BevyCssError>) -> bool {
        parsed_as(overflow_of(values), "overflow-x"@, result)
    }

    fn name() -> (name: &'static str) {
        "overflow-x"
    }

    fn parse(values: &PropertyValues) -> (result: Result<OverflowAxis, BevyCssError>) {
        found_or_invalid(values.overflow(), Self::name())
    }
}

/// Applies the `overflow-y` property: what becomes of content that is higher than its node.
#[derive(Default)]
pub struct OverflowYProperty;

impl Property for OverflowYProperty {
    type Cache = OverflowAxis;

    open spec fn property_name() -> Seq<char> {
        "overflow-y"@
    }

    open spec fn parses(values: Seq<PropertyTokenModel>, result: Result<OverflowAxis, BevyCssError>) -> bool {
        parsed_as(overflow_of(values), "overflow-y"@, result)
    }

    fn name() -> (name: &'static str) {
        "overflow-y"
    }

    fn parse(values: &PropertyValues) -> (result: Result<OverflowAxis, BevyCssError>) {
        found_or_invalid(values.overflow(), Self::name())
    }
}

/// Applies the `display` property.
#[derive(Default)]
pub struct DisplayProperty;

impl Property for DisplayProperty {
    type Cache = Display;

    open spec fn property_name() -> Seq<char> {
        "display"@
    }

    open spec fn parses(values: Seq<PropertyTokenModel>, result: Result<Display, BevyCssError>) -> bool {
        parsed_as(Display::of(values), "display"@, result)
    }

    fn name() -> (name: &'static str) {
        "display"
    }

    fn parse(values: &PropertyValues) -> (result: Result<Display, BevyCssError>) {
        let found = match values.identifier() {
            Some(name) => Display::from_name(name),
            None => None,
        };
        found_or_invalid(found, Self::name())
    }
}

/// Applies the `position-type` property.
#[derive(Default)]
pub struct PositionTypeProperty;

impl Property for PositionTypeProperty {
    type Cache = PositionType;

    open spec fn property_name() -> Seq<char> {
        "position-type"@
    }

    open spec fn parses(values: Seq<PropertyTokenModel>, result: Result<PositionType, BevyCssError>) -> bool {
        parsed_as(PositionType::of(values), "position-type"@, result)
    }

    fn name() -> (name: &'static str) {
        "position-type"
    }

    fn parse(values: &PropertyValues) -> (result: Result<PositionType, BevyCssError>) {
        let found = match values.identifier() {
            Some(name) => PositionType::from_name(name),
            None => None,
        };
        found_or_invalid(found, Self::name())
    }
}

/// Applies the `direction` property.
#[derive(Default)]
pub struct DirectionProperty;

impl Property for DirectionProperty {
    type Cache = Direction;

    open spec fn property_name() -> Seq<char> {
        "direction"@
    }

    open spec fn parses(values: Seq<PropertyTokenModel>, result: Result<Direction, BevyCssError>) -> bool {
        parsed_as(Direction::of(values), "direction"@, result)
    }

    fn name() -> (name: &'static str) {
        "direction"
    }

    fn parse(values: &PropertyValues) -> (result: Result<Direction, BevyCssError>) {
        let found = match values.identifier() {
            Some(name) => Direction::from_name(name),
            None => None,
        };
        found_or_invalid(found, Self::name())
    }
}

/// Applies the `flex-direction` property.
#[derive(Default)]
pub struct FlexDirectionProperty;

impl Property for FlexDirectionProperty {
    type Cache = FlexDirection;

    open spec fn property_name() -> Seq<char> {
        "flex-direction"@
    }

    open spec fn parses(values: Seq<PropertyTokenModel>, result: Result<FlexDirection, BevyCssError>) -> bool {
        parsed_as(FlexDirection::of(values), "flex-direction"@, result)
    }

    fn name() -> (name: &'static str) {
        "flex-direction"
    }

    fn parse(values: &PropertyValues) -> (result: Result<FlexDirection, BevyCssError>) {
        let found = match values.identifier() {
            Some(name) => FlexDirection::from_name(name),
            None => None,
        };
        found_or_invalid(found, Self::name())
    }
}

/// Applies the `flex-wrap` property.
#[derive(Default)]
pub struct FlexWrapProperty;

impl Property for FlexWrapProperty {
    type Cache = FlexWrap;

    open spec fn property_name() -> Seq<char> {
        "flex-wrap"@
    }

    open spec fn parses(values: Seq<PropertyTokenModel>, result: Result<FlexWrap, BevyCssError>) -> bool {
        parsed_as(FlexWrap::of(values), "flex-wrap"@, result)
    }

    fn name() -> (name: &'static str) {
        "flex-wrap"
    }

    fn parse(values: &PropertyValues) -> (result: Result<FlexWrap, BevyCssError>) {
        let found = match values.identifier() {
            Some(name) => FlexWrap::from_name(name),
            None => None,
        };
        found_or_invalid(found, Self::name())
    }
}

/// Applies the `align-items` property.
#[derive(Default)]
pub struct AlignItemsProperty;

impl Property for AlignItemsProperty {
    type Cache = AlignItems;

    open spec fn property_name() -> Seq<char> {
        "align-items"@
    }

    open spec fn parses(values: Seq<PropertyTokenModel>, result: Result<AlignItems, BevyCssError>) -> bool {
        parsed_as(AlignItems::of(values), "align-items"@, result)
    }

    fn name() -> (name: &'static str) {
        "align-items"
    }

    fn parse(values: &PropertyValues) -> (result: Result<AlignItems, BevyCssError>) {
        let found = match values.identifier() {
            Some(name) => AlignItems::from_name(name),
            None => None,
        };
        found_or_invalid(found, Self::name())
    }
}

/// Applies the `align-self` property.
#[derive(Default)]
pub struct AlignSelfProperty;

impl Property for AlignSelfProperty {
    type Cache = AlignSelf;

    open spec fn property_name() -> Seq<char> {
        "align-self"@
    }

    open spec fn parses(values: Seq<PropertyTokenModel>, result: Result<AlignSelf, BevyCssError>) -> bool {
        parsed_as(AlignSelf::of(values), "align-self"@, result)
    }

    fn name() -> (name: &'static str) {
        "align-self"
    }

    fn parse(values: &PropertyValues) -> (result: Result<AlignSelf, BevyCssError>) {
        let found = match values.identifier() {
            Some(name) => AlignSelf::from_name(name),
            None => None,
        };
        found_or_invalid(found, Self::name())
    }
}

/// Applies the `align-content` property.
#[derive(Default)]
pub struct AlignContentProperty;

impl Property for AlignContentProperty {
    type Cache = AlignContent;

    open spec fn property_name() -> Seq<char> {
        "align-content"@
    }

    open spec fn parses(values: Seq<PropertyTokenModel>, result: Result<AlignContent, BevyCssError>) -> bool {
        parsed_as(AlignContent::of(values), "align-content"@, result)
    }

    fn name() -> (name: &'static str) {
        "align-content"
    }

    fn parse(values: &PropertyValues) -> (result: Result<AlignContent, BevyCssError>) {
        let found = match values.identifier() {
            Some(name) => AlignContent::from_name(name),
            None => None,
        };
        found_or_invalid(found, Self::name())
    }
}

/// Applies the `justify-content` property.
#[derive(Default)]
pub struct JustifyContentProperty;

impl Property for JustifyContentProperty {
    type Cache = JustifyContent;

    open spec fn property_name() -> Seq<char> {
        "justify-content"@
    }

    open spec fn parses(values: Seq<PropertyTokenModel>, result: Result<JustifyContent, BevyCssError>) -> bool {
        parsed_as(JustifyContent::of(values), "justify-content"@, result)
    }

    fn name() -> (name: &'static str) {
        "justify-content"
    }

    fn parse(values: &PropertyValues) -> (result: Result<JustifyContent, BevyCssError>) {
        let found = match values.identifier() {
            Some(name) => JustifyContent::from_name(name),
            None => None,
        };
        found_or_invalid(found, Self::name())
    }
}

} // verus!
