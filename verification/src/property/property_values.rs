use vstd::prelude::*;

use super::colors::{hex_color, named_color, parse_hex_color, parse_named_color, Color};
use super::property_token::{property_token_models, PropertyToken, PropertyTokenModel};
use crate::parser::tokenizer::Scalar;
use crate::seqs::{first_index, lemma_first_index_is};
use crate::text::same_text;

verus! {

/// A length of the layout of the host.
#[derive(Clone, Copy, Debug, PartialEq, Eq, Structural)]
pub enum Val {
    /// As long as the layout finds fit.
    Auto,
    /// So many pixels.
    Px(Scalar),
    /// So many hundredths of the length of the parent.
    Percent(Scalar),
}

/// A length for each of the four sides of a rectangle.
#[derive(Clone, Copy, Debug, PartialEq, Eq, Structural)]
pub struct UiRect {
    pub left: Val,
    pub right: Val,
    pub top: Val,
    pub bottom: Val,
}

/// A radius for each of the four corners of a rectangle.
#[derive(Clone, Copy, Debug, PartialEq, Eq, Structural)]
pub struct BorderRadius {
    pub top_left: Val,
    pub top_right: Val,
    pub bottom_left: Val,
    pub bottom_right: Val,
}

/// What becomes of content that is larger than its node.
#[derive(Clone, Copy, Debug, PartialEq, Eq, Structural)]
pub enum OverflowAxis {
    /// It is shown.
    Visible,
    /// It is cut off.
    Clip,
}

/// No length: zero pixels.
pub open spec fn no_length() -> Val {
    Val::Px(Scalar { bits: 0 })
}

impl UiRect {
    /// The rectangle with the same length on all four sides.
    pub open spec fn uniform(value: Val) -> UiRect {
        UiRect { left: value, right: value, top: value, bottom: value }
    }

    /// The rectangle with the same length on all four sides.
    pub fn all(value: Val) -> (rect: UiRect)
        ensures
            rect == UiRect::uniform(value),
    {
        UiRect { left: value, right: value, top: value, bottom: value }
    }
}

impl BorderRadius {
    /// The same radius at all four corners.
    pub open spec fn uniform(value: Val) -> BorderRadius {
        BorderRadius { top_left: value, top_right: value, bottom_left: value, bottom_right: value }
    }

    /// The same radius at all four corners.
    pub fn all(value: Val) -> (radius: BorderRadius)
        ensures
            radius == BorderRadius::uniform(value),
    {
        BorderRadius { top_left: value, top_right: value, bottom_left: value, bottom_right: value }
    }
}

/// Whether a token is a quoted string that is not empty.
pub open spec fn is_text(token: PropertyTokenModel) -> bool {
    token is String && token->String_0.len() > 0
}

/// Whether a token is an identifier that is not empty.
pub open spec fn is_name(token: PropertyTokenModel) -> bool {
    token is Identifier && token->Identifier_0.len() > 0
}

/// The number that a token holds, if it is a percentage, a dimension or a
/// plain number.
pub open spec fn number_of(token: PropertyTokenModel) -> Option<Scalar> {
    match token {
        PropertyTokenModel::Percentage(v) => Some(v),
        PropertyTokenModel::Dimension(v) => Some(v),
        PropertyTokenModel::Number(v) => Some(v),
        _ => None,
    }
}

/// The number or the absence of a number that a token stands for: a number
/// for a percentage, a dimension or a plain number, and no number for the
/// identifier `none`.
pub open spec fn optional_number_of(token: PropertyTokenModel) -> Option<Option<Scalar>> {
    match token {
        PropertyTokenModel::Percentage(v) => Some(Some(v)),
        PropertyTokenModel::Dimension(v) => Some(Some(v)),
        PropertyTokenModel::Number(v) => Some(Some(v)),
        PropertyTokenModel::Identifier(name) => if name == "none"@ {
            Some(None)
        } else {
            None
        },
        _ => None,
    }
}

/// The length that a token stands for: a percentage, a dimension as pixels,
/// or the identifier `auto`.
pub open spec fn length_of(token: PropertyTokenModel) -> Option<Val> {
    match token {
        PropertyTokenModel::Percentage(v) => Some(Val::Percent(v)),
        PropertyTokenModel::Dimension(v) => Some(Val::Px(v)),
        PropertyTokenModel::Identifier(name) => if name == "auto"@ {
            Some(Val::Auto)
        } else {
            None
        },
        _ => None,
    }
}

/// Whether a number is zero, of either sign.
pub open spec fn is_zero(v: Scalar) -> bool {
    v.bits == 0 || v.bits == 0x8000_0000
}

/// The radius that a token stands for: a length, or the plain number zero.
pub open spec fn radius_of(token: PropertyTokenModel) -> Option<Val> {
    match token {
        PropertyTokenModel::Number(v) => if is_zero(v) {
            Some(no_length())
        } else {
            None
        },
        _ => length_of(token),
    }
}

/// The lengths that the tokens of a list stand for, in order; a token that
/// stands for none takes no place.
pub open spec fn lengths_of(values: Seq<PropertyTokenModel>) -> Seq<Val>
    decreases values.len(),
{
    if values.len() == 0 {
        Seq::empty()
    } else {
        let before = lengths_of(values.drop_last());
        match length_of(values.last()) {
            Some(v) => before.push(v),
            None => before,
        }
    }
}

/// The radii that the tokens of a list stand for, in order; a token that
/// stands for none takes no place.
pub open spec fn radii_of(values: Seq<PropertyTokenModel>) -> Seq<Val>
    decreases values.len(),
{
    if values.len() == 0 {
        Seq::empty()
    } else {
        let before = radii_of(values.drop_last());
        match radius_of(values.last()) {
            Some(v) => before.push(v),
            None => before,
        }
    }
}

/// The length at a place of a list, or no length where the list is shorter.
pub open spec fn length_at(lengths: Seq<Val>, at: int) -> Val {
    if 0 <= at < lengths.len() {
        lengths[at]
    } else {
        no_length()
    }
}

/// The rectangle of a list of lengths: top, right, bottom and left in that
/// order, with no length for a side that the list does not reach. Lengths
/// after the fourth count for nothing.
pub open spec fn rect_of(lengths: Seq<Val>) -> UiRect {
    UiRect {
        top: length_at(lengths, 0),
        right: length_at(lengths, 1),
        bottom: length_at(lengths, 2),
        left: length_at(lengths, 3),
    }
}

/// The corners of a list of radii that is not empty: the first radius for
/// all corners, then the second for top right and bottom left, the third for
/// bottom right and the fourth for bottom left. Radii after the fourth count for
/// nothing.
pub open spec fn corners_of(radii: Seq<Val>) -> BorderRadius {
    BorderRadius {
        top_left: length_at(radii, 0),
        top_right: if radii.len() > 1 {
            radii[1]
        } else {
            length_at(radii, 0)
        },
        bottom_right: if radii.len() > 2 {
            radii[2]
        } else {
            length_at(radii, 0)
        },
        bottom_left: if radii.len() > 3 {
            radii[3]
        } else if radii.len() > 1 {
            radii[1]
        } else {
            length_at(radii, 0)
        },
    }
}

/// A list of [`PropertyToken`] which was parsed from a single property.
#[derive(Clone, Debug, Default, PartialEq, Eq)]
pub struct PropertyValues(pub Vec<PropertyToken>);

impl View for PropertyValues {
    type V = Seq<PropertyTokenModel>;

    open spec fn view(&self) -> Seq<PropertyTokenModel> {
        property_token_models(self.0@)
    }
}

/// The first quoted text of a list that is not empty.
pub open spec fn string_of(values: Seq<PropertyTokenModel>) -> Option<Seq<char>> {
    let at = first_index(values, |t: PropertyTokenModel| is_text(t));
    if at < values.len() {
        Some(values[at]->String_0)
    } else {
        None
    }
}

/// The first identifier of a list that is not empty.
pub open spec fn identifier_of(values: Seq<PropertyTokenModel>) -> Option<Seq<char>> {
    let at = first_index(values, |t: PropertyTokenModel| is_name(t));
    if at < values.len() {
        Some(values[at]->Identifier_0)
    } else {
        None
    }
}

/// The first number of a list.
pub open spec fn scalar_of(values: Seq<PropertyTokenModel>) -> Option<Scalar> {
    let at = first_index(values, |t: PropertyTokenModel| number_of(t) is Some);
    if at < values.len() {
        number_of(values[at])
    } else {
        None
    }
}

/// The first number of a list, or no number where the identifier `none` comes
/// first.
pub open spec fn optional_scalar_of(values: Seq<PropertyTokenModel>) -> Option<Option<Scalar>> {
    let at = first_index(values, |t: PropertyTokenModel| optional_number_of(t) is Some);
    if at < values.len() {
        optional_number_of(values[at])
    } else {
        None
    }
}

/// The first length of a list.
pub open spec fn val_of(values: Seq<PropertyTokenModel>) -> Option<Val> {
    let at = first_index(values, |t: PropertyTokenModel| length_of(t) is Some);
    if at < values.len() {
        length_of(values[at])
    } else {
        None
    }
}

/// The color of a list: that of its one token, a name or a hash. A list of
/// any other shape has none.
pub open spec fn values_color(values: Seq<PropertyTokenModel>) -> Option<Color> {
    if values.len() == 1 {
        match values[0] {
            PropertyTokenModel::Identifier(name) => named_color(name),
            PropertyTokenModel::Hash(hash) => hex_color(hash),
            _ => None,
        }
    } else {
        None
    }
}

/// What a list says of content that is larger than its node: its one token
/// is `visible`, `hidden` or `clip`. A list of any other shape says nothing.
pub open spec fn overflow_of(values: Seq<PropertyTokenModel>) -> Option<OverflowAxis> {
    if values.len() == 1 {
        match values[0] {
            PropertyTokenModel::Identifier(name) => if name == "visible"@ {
                Some(OverflowAxis::Visible)
            } else if name == "hidden"@ || name == "clip"@ {
                Some(OverflowAxis::Clip)
            } else {
                None
            },
            _ => None,
        }
    } else {
        None
    }
}

/// The rectangle of a list: where exactly one token of the list stands for
/// a length, that length on all four sides; where more do, their lengths as
/// top, right, bottom and left. A list without a length has none.
pub open spec fn values_rect(values: Seq<PropertyTokenModel>) -> Option<UiRect> {
    let lengths = lengths_of(values);
    if lengths.len() == 0 {
        None
    } else if lengths.len() == 1 {
        Some(UiRect::uniform(lengths[0]))
    } else {
        Some(rect_of(lengths))
    }
}

/// The corners of a list: where the list has one token, the length of that
/// token at all four corners; else the radii of its tokens. A list without a
/// radius has none.
pub open spec fn values_corners(values: Seq<PropertyTokenModel>) -> Option<BorderRadius> {
    if values.len() == 1 {
        match length_of(values[0]) {
            Some(v) => Some(BorderRadius::uniform(v)),
            None => None,
        }
    } else if radii_of(values).len() == 0 {
        None
    } else {
        Some(corners_of(radii_of(values)))
    }
}

/// A list of one dimension makes a rectangle with that length on all four
/// sides.
pub proof fn lemma_rect_of_one_dimension(value: Scalar)
    ensures
        values_rect(seq![PropertyTokenModel::Dimension(value)]) == Some(
            UiRect::uniform(Val::Px(value)),
        ),
{
    let values = seq![PropertyTokenModel::Dimension(value)];
    assert(values.drop_last() =~= Seq::<PropertyTokenModel>::empty());
    assert(lengths_of(values.drop_last()) =~= Seq::<Val>::empty());
    assert(lengths_of(values) =~= seq![Val::Px(value)]);
}

/// A token that stands for no length changes nothing of the rectangle of a
/// list, wherever it stands in the list.
pub proof fn lemma_rect_skips_other_tokens(
    before: Seq<PropertyTokenModel>,
    token: PropertyTokenModel,
    after: Seq<PropertyTokenModel>,
)
    requires
        length_of(token) is None,
    ensures
        values_rect(before.push(token) + after) == values_rect(before + after),
{
    lemma_lengths_of_concat(before.push(token), after);
    lemma_lengths_of_concat(before, after);
    assert(before.push(token).drop_last() =~= before);
}

/// The lengths of two lists, one behind the other, are the lengths of the
/// first followed by those of the second.
pub proof fn lemma_lengths_of_concat(
    first: Seq<PropertyTokenModel>,
    second: Seq<PropertyTokenModel>,
)
    ensures
        lengths_of(first + second) == lengths_of(first) + lengths_of(second),
    decreases second.len(),
{
    if second.len() == 0 {
        assert(first + second =~= first);
        assert(lengths_of(first) + lengths_of(second) =~= lengths_of(first));
    } else {
        let whole = first + second;
        assert(whole.drop_last() =~= first + second.drop_last());
        assert(whole.last() == second.last());
        lemma_lengths_of_concat(first, second.drop_last());
        match length_of(second.last()) {
            Some(v) => {
                assert(lengths_of(whole) =~= lengths_of(first) + lengths_of(second));
            },
            None => {},
        }
    }
}

fn length_of_token(token: &PropertyToken) -> (length: Option<Val>)
    ensures
        length == length_of(token@),
{
    match token {
        PropertyToken::Percentage(v) => Some(Val::Percent(*v)),
        PropertyToken::Dimension(v) => Some(Val::Px(*v)),
        PropertyToken::Identifier(name) => {
            if same_text(name.as_str(), "auto") {
                Some(Val::Auto)
            } else {
                None
            }
        },
        _ => None,
    }
}

fn radius_of_token(token: &PropertyToken) -> (radius: Option<Val>)
    ensures
        radius == radius_of(token@),
{
    match token {
        PropertyToken::Number(v) => {
            if v.bits == 0 || v.bits == 0x8000_0000 {
                Some(Val::Px(Scalar { bits: 0 }))
            } else {
                None
            }
        },
        _ => length_of_token(token),
    }
}

impl PropertyValues {
    /// How many tokens the list holds.
    pub fn len(&self) -> (len: usize)
        ensures
            len == self@.len(),
    {
        self.0.len()
    }

    /// Whether the list holds no token.
    pub fn is_empty(&self) -> (empty: bool)
        ensures
            empty == (self@.len() == 0),
    {
        self.0.len() == 0
    }

    /// The token at `index`, if there is one.
    pub fn get(&self, index: usize) -> (token: Option<&PropertyToken>)
        ensures
            match token {
                Some(t) => index < self@.len() && t@ == self@[index as int],
                None => index >= self@.len(),
            },
    {
        if index < self.0.len() {
            Some(&self.0[index])
        } else {
            None
        }
    }

    /// A copy of the list.
    pub fn duplicate(&self) -> (copy: PropertyValues)
        ensures
            copy@ == self@,
    {
        let mut tokens: Vec<PropertyToken> = Vec::new();
        let mut i: usize = 0;
        while i < self.0.len()
            invariant
                i <= self.0.len(),
                tokens.len() == i,
                forall|k: int| 0 <= k < i ==> tokens@[k]@ == self.0@[k]@,
            decreases self.0.len() - i,
        {
            tokens.push(self.0[i].duplicate());
            i += 1;
        }
        assert(property_token_models(tokens@) =~= property_token_models(self.0@));
        PropertyValues(tokens)
    }

    /// Tries to parse the current values as a single [`String`].
    pub fn string(&self) -> (text: Option<String>)
        ensures
            match text {
                Some(t) => string_of(self@) == Some(t@),
                None => string_of(self@) is None,
            },
    {
        let ghost pred = |t: PropertyTokenModel| is_text(t);
        let mut i: usize = 0;
        while i < self.0.len()
            invariant
                i <= self.0.len(),
                pred == |t: PropertyTokenModel| is_text(t),
                forall|k: int| 0 <= k < i ==> !pred(#[trigger] self@[k]),
            decreases self.0.len() - i,
        {
            assert(self@[i as int] == self.0@[i as int]@);
            match &self.0[i] {
                PropertyToken::String(id) => {
                    if id.as_str().unicode_len() > 0 {
                        proof {
                            lemma_first_index_is(self@, pred, i as int);
                        }
                        return Some(id.clone());
                    }
                },
                _ => {},
            }
            i += 1;
        }
        proof {
            lemma_first_index_is(self@, pred, self@.len() as int);
        }
        None
    }

    /// Tries to parse the current values as a single [`Color`].
    ///
    /// Only named colors and colors behind a `#` are supported.
    pub fn color(&self) -> (color: Option<Color>)
        ensures
            color == values_color(self@),
    {
        if self.0.len() == 1 {
            assert(self@[0] == self.0@[0]@);
            match &self.0[0] {
                PropertyToken::Identifier(name) => parse_named_color(name.as_str()),
                PropertyToken::Hash(hash) => parse_hex_color(hash.as_str()),
                _ => None,
            }
        } else {
            None
        }
    }

    /// Tries to parse the current value as a single [`OverflowAxis`].
    pub fn overflow(&self) -> (overflow: Option<OverflowAxis>)
        ensures
            overflow == overflow_of(self@),
    {
        if self.0.len() == 1 {
            assert(self@[0] == self.0@[0]@);
            match &self.0[0] {
                PropertyToken::Identifier(name) => {
                    if same_text(name.as_str(), "visible") {
                        Some(OverflowAxis::Visible)
                    } else if same_text(name.as_str(), "hidden") || same_text(
                        name.as_str(),
                        "clip",
                    ) {
                        Some(OverflowAxis::Clip)
                    } else {
                        None
                    }
                },
                _ => None,
            }
        } else {
            None
        }
    }

    /// Tries to parse the current values as a single identifier.
    pub fn identifier(&self) -> (name: Option<&str>)
        ensures
            match name {
                Some(n) => identifier_of(self@) == Some(n@),
                None => identifier_of(self@) is None,
            },
    {
        let ghost pred = |t: PropertyTokenModel| is_name(t);
        let mut i: usize = 0;
        while i < self.0.len()
            invariant
                i <= self.0.len(),
                pred == |t: PropertyTokenModel| is_name(t),
                forall|k: int| 0 <= k < i ==> !pred(#[trigger] self@[k]),
            decreases self.0.len() - i,
        {
            assert(self@[i as int] == self.0@[i as int]@);
            match &self.0[i] {
                PropertyToken::Identifier(id) => {
                    if id.as_str().unicode_len() > 0 {
                        proof {
                            lemma_first_index_is(self@, pred, i as int);
                        }
                        return Some(id.as_str());
                    }
                },
                _ => {},
            }
            i += 1;
        }
        proof {
            lemma_first_index_is(self@, pred, self@.len() as int);
        }
        None
    }

    /// Tries to parse the current values as a single [`Val`].
    ///
    /// A percentage becomes [`Val::Percent`], a dimension [`Val::Px`] and the
    /// identifier `auto` [`Val::Auto`].
    pub fn val(&self) -> (val: Option<Val>)
        ensures
            val == val_of(self@),
    {
        let ghost pred = |t: PropertyTokenModel| length_of(t) is Some;
        let mut i: usize = 0;
        while i < self.0.len()
            invariant
                i <= self.0.len(),
                pred == |t: PropertyTokenModel| length_of(t) is Some,
                forall|k: int| 0 <= k < i ==> !pred(#[trigger] self@[k]),
            decreases self.0.len() - i,
        {
            assert(self@[i as int] == self.0@[i as int]@);
            match length_of_token(&self.0[i]) {
                Some(v) => {
                    proof {
                        lemma_first_index_is(self@, pred, i as int);
                    }
                    return Some(v);
                },
                None => {},
            }
            i += 1;
        }
        proof {
            lemma_first_index_is(self@, pred, self@.len() as int);
        }
        None
    }

    /// Tries to parse the current values as a single number.
    ///
    /// Only a percentage, a dimension and a plain number are valid values.
    pub fn scalar(&self) -> (number: Option<Scalar>)
        ensures
            number == scalar_of(self@),
    {
        let ghost pred = |t: PropertyTokenModel| number_of(t) is Some;
        let mut i: usize = 0;
        while i < self.0.len()
            invariant
                i <= self.0.len(),
                pred == |t: PropertyTokenModel| number_of(t) is Some,
                forall|k: int| 0 <= k < i ==> !pred(#[trigger] self@[k]),
            decreases self.0.len() - i,
        {
            assert(self@[i as int] == self.0@[i as int]@);
            let found = match &self.0[i] {
                PropertyToken::Percentage(v) => Some(*v),
                PropertyToken::Dimension(v) => Some(*v),
                PropertyToken::Number(v) => Some(*v),
                _ => None,
            };
            if found.is_some() {
                proof {
                    lemma_first_index_is(self@, pred, i as int);
                }
                return found;
            }
            i += 1;
        }
        proof {
            lemma_first_index_is(self@, pred, self@.len() as int);
        }
        None
    }

    /// Tries to parse the current values as a number that may be missing.
    ///
    /// This is for properties where either a numeric value or `none` is
    /// expected. `None` means that no valid value was found, `Some(None)` that
    /// `none` was found, and `Some(Some(_))` that a percentage, a dimension or a
    /// plain number was found.
    pub fn option_scalar(&self) -> (number: Option<Option<Scalar>>)
        ensures
            number == optional_scalar_of(self@),
    {
        let ghost pred = |t: PropertyTokenModel| optional_number_of(t) is Some;
        let mut i: usize = 0;
        while i < self.0.len()
            invariant
                i <= self.0.len(),
                pred == |t: PropertyTokenModel| optional_number_of(t) is Some,
                forall|k: int| 0 <= k < i ==> !pred(#[trigger] self@[k]),
            decreases self.0.len() - i,
        {
            assert(self@[i as int] == self.0@[i as int]@);
            let found = match &self.0[i] {
                PropertyToken::Percentage(v) => Some(Some(*v)),
                PropertyToken::Dimension(v) => Some(Some(*v)),
                PropertyToken::Number(v) => Some(Some(*v)),
                PropertyToken::Identifier(ident) => {
                    if same_text(ident.as_str(), "none") {
                        Some(None)
                    } else {
                        None
                    }
                },
                _ => None,
            };
            if found.is_some() {
                proof {
                    lemma_first_index_is(self@, pred, i as int);
                }
                return found;
            }
            i += 1;
        }
        proof {
            lemma_first_index_is(self@, pred, self@.len() as int);
        }
        None
    }

    /// The lengths that the tokens stand for, in order.
    pub fn lengths(&self) -> (lengths: Vec<Val>)
        ensures
            lengths@ == lengths_of(self@),
    {
        let mut lengths: Vec<Val> = Vec::new();
        let mut i: usize = 0;
        while i < self.0.len()
            invariant
                i <= self.0.len(),
                lengths@ == lengths_of(self@.take(i as int)),
            decreases self.0.len() - i,
        {
            proof {
                assert(self@.take(i + 1).drop_last() == self@.take(i as int));
                assert(self@.take(i + 1).last() == self.0@[i as int]@);
            }
            match length_of_token(&self.0[i]) {
                Some(v) => {
                    lengths.push(v);
                },
                None => {},
            }
            i += 1;
        }
        assert(self@.take(self.0.len() as int) == self@);
        lengths
    }

    /// The radii that the tokens stand for, in order.
    pub fn radii(&self) -> (radii: Vec<Val>)
        ensures
            radii@ == radii_of(self@),
    {
        let mut radii: Vec<Val> = Vec::new();
        let mut i: usize = 0;
        while i < self.0.len()
            invariant
                i <= self.0.len(),
                radii@ == radii_of(self@.take(i as int)),
            decreases self.0.len() - i,
        {
            proof {
                assert(self@.take(i + 1).drop_last() == self@.take(i as int));
                assert(self@.take(i + 1).last() == self.0@[i as int]@);
            }
            match radius_of_token(&self.0[i]) {
                Some(v) => {
                    radii.push(v);
                },
                None => {},
            }
            i += 1;
        }
        assert(self@.take(self.0.len() as int) == self@);
        radii
    }

    /// Tries to parse the current values as a single [`UiRect`].
    ///
    /// If only one token stands for a length, that length is used as `top`,
    /// `right`, `bottom` and `left`; otherwise the lengths are applied in the
    /// following order: `top`, `right`, `bottom` and `left`. A token that stands
    /// for no length is passed over and takes no side.
    ///
    /// It is not possible to create a [`UiRect`] with only a `top` value, since
    /// a single value is replicated on all sides.
    pub fn rect(&self) -> (rect: Option<UiRect>)
        ensures
            rect == values_rect(self@),
    {
        let lengths = self.lengths();
        let n = lengths.len();
        if n == 0 {
            None
        } else if n == 1 {
            Some(UiRect::all(lengths[0]))
        } else {
            let none = Val::Px(Scalar { bits: 0 });
            Some(
                UiRect {
                    top: lengths[0],
                    right: lengths[1],
                    bottom: if n > 2 {
                        lengths[2]
                    } else {
                        none
                    },
                    left: if n > 3 {
                        lengths[3]
                    } else {
                        none
                    },
                },
            )
        }
    }

    /// Tries to parse the current values as a single [`BorderRadius`].
    pub fn border_radius(&self) -> (radius: Option<BorderRadius>)
        ensures
            radius == values_corners(self@),
    {
        if self.0.len() == 1 {
            assert(self@[0] == self.0@[0]@);
            match length_of_token(&self.0[0]) {
                Some(v) => Some(BorderRadius::all(v)),
                None => None,
            }
        } else {
            let radii = self.radii();
            let n = radii.len();
            if n == 0 {
                return None;
            }
            let first = radii[0];
            Some(
                BorderRadius {
                    top_left: first,
                    top_right: if n > 1 {
                        radii[1]
                    } else {
                        first
                    },
                    bottom_right: if n > 2 {
                        radii[2]
                    } else {
                        first
                    },
                    bottom_left: if n > 3 {
                        radii[3]
                    } else if n > 1 {
                        radii[1]
                    } else {
                        first
                    },
                },
            )
        }
    }
}

} // verus!
