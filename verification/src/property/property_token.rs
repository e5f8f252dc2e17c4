use vstd::prelude::*;

use crate::parser::tokenizer::{CssToken, KindModel, Scalar, TokenKind};

verus! {

/// A property value token which was parsed from a rule of a style sheet.
#[derive(Debug, Clone, PartialEq, Eq)]
pub enum PropertyToken {
    /// A percent value, like `100%` or `73.23%`, scaled to the range from 0 to 100.
    Percentage(Scalar),
    /// A dimension value, like `10px` or `35em`.
    ///
    /// There is no distinction between the units of length.
    Dimension(Scalar),
    /// A numeric value, like `31.1` or `43`.
    Number(Scalar),
    /// A plain identifier, like `none` or `center`.
    Identifier(String),
    /// An identifier prefixed by a hash, like `#001122`.
    Hash(String),
    /// A quoted string, like `"some value"`.
    String(String),
}

/// What a [`PropertyToken`] holds, with its text as a sequence of characters.
pub enum PropertyTokenModel {
    Percentage(Scalar),
    Dimension(Scalar),
    Number(Scalar),
    Identifier(Seq<char>),
    Hash(Seq<char>),
    String(Seq<char>),
}

impl View for PropertyToken {
    type V = PropertyTokenModel;

    open spec fn view(&self) -> PropertyTokenModel {
        match self {
            PropertyToken::Percentage(v) => PropertyTokenModel::Percentage(*v),
            PropertyToken::Dimension(v) => PropertyTokenModel::Dimension(*v),
            PropertyToken::Number(v) => PropertyTokenModel::Number(*v),
            PropertyToken::Identifier(s) => PropertyTokenModel::Identifier(s@),
            PropertyToken::Hash(s) => PropertyTokenModel::Hash(s@),
            PropertyToken::String(s) => PropertyTokenModel::String(s@),
        }
    }
}

/// The property token that a token of a style sheet stands for, if it stands
/// for one. Both kinds of hash become a `Hash`.
pub open spec fn property_token_of(kind: KindModel) -> Option<PropertyTokenModel> {
    match kind {
        KindModel::Ident(v) => Some(PropertyTokenModel::Identifier(v)),
        KindModel::Hash(v) => Some(PropertyTokenModel::Hash(v)),
        KindModel::IDHash(v) => Some(PropertyTokenModel::Hash(v)),
        KindModel::QuotedString(v) => Some(PropertyTokenModel::String(v)),
        KindModel::Number(v) => Some(PropertyTokenModel::Number(v)),
        KindModel::Percentage(v) => Some(PropertyTokenModel::Percentage(v)),
        KindModel::Dimension(v) => Some(PropertyTokenModel::Dimension(v)),
        _ => None,
    }
}

impl PropertyToken {
    /// The property token that `token` stands for; an error for a token that
    /// is no value.
    pub fn try_from(token: &CssToken) -> (result: Result<PropertyToken, ()>)
        ensures
            match result {
                Ok(t) => property_token_of(token@.kind) == Some(t@),
                Err(_) => property_token_of(token@.kind) is None,
            },
    {
        match &token.kind {
            TokenKind::Ident(v) => Ok(PropertyToken::Identifier(v.clone())),
            TokenKind::Hash(v) => Ok(PropertyToken::Hash(v.clone())),
            TokenKind::IDHash(v) => Ok(PropertyToken::Hash(v.clone())),
            TokenKind::QuotedString(v) => Ok(PropertyToken::String(v.clone())),
            TokenKind::Number(v) => Ok(PropertyToken::Number(*v)),
            TokenKind::Percentage(v) => Ok(PropertyToken::Percentage(*v)),
            TokenKind::Dimension(v) => Ok(PropertyToken::Dimension(*v)),
            _ => Err(()),
        }
    }

    /// A copy of the token.
    pub fn duplicate(&self) -> (copy: PropertyToken)
        ensures
            copy@ == self@,
    {
        match self {
            PropertyToken::Percentage(v) => PropertyToken::Percentage(*v),
            PropertyToken::Dimension(v) => PropertyToken::Dimension(*v),
            PropertyToken::Number(v) => PropertyToken::Number(*v),
            PropertyToken::Identifier(s) => PropertyToken::Identifier(s.clone()),
            PropertyToken::Hash(s) => PropertyToken::Hash(s.clone()),
            PropertyToken::String(s) => PropertyToken::String(s.clone()),
        }
    }
}

/// The tokens of a list, each by what it holds.
pub open spec fn property_token_models(tokens: Seq<PropertyToken>) -> Seq<PropertyTokenModel> {
    tokens.map_values(|t: PropertyToken| t@)
}

} // verus!
