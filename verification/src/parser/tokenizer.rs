//! The tokens of a style sheet, as the tokenizer of `cssparser` cuts them.

use vstd::prelude::*;

verus! {

/// A number of a style sheet, held as the bit pattern of its single-precision
/// value.
#[derive(Clone, Copy, Debug, PartialEq, Eq, Structural, Default)]
pub struct Scalar {
    pub bits: u32,
}

/// The kinds of token, each with what it carries.
#[derive(Clone, Debug, PartialEq, Eq)]
pub enum TokenKind {
    /// An identifier, like `button`.
    Ident(String),
    /// An at-keyword, like `@media`, without its `@`.
    AtKeyword(String),
    /// A `#` with a text that is not an identifier, like `#0f0`, without its `#`.
    Hash(String),
    /// A `#` with an identifier, like `#window`, without its `#`.
    IDHash(String),
    /// A string in quotes, without the quotes.
    QuotedString(String),
    /// The name of a function with its opening parenthesis, without the parenthesis.
    Function(String),
    /// A number without a unit.
    Number(Scalar),
    /// A number with a `%`; the value is the number as it is written.
    Percentage(Scalar),
    /// A number with a unit; the unit is not kept.
    Dimension(Scalar),
    /// A single character that is no token of its own.
    Delim(char),
    /// A run of blanks.
    WhiteSpace,
    /// A comment.
    Comment,
    /// `:`
    Colon,
    /// `;`
    Semicolon,
    /// `<!--`
    CDO,
    /// `-->`
    CDC,
    /// `(`
    ParenthesisBlock,
    /// `[`
    SquareBracketBlock,
    /// `{`
    CurlyBracketBlock,
    /// `)`
    CloseParenthesis,
    /// `]`
    CloseSquareBracket,
    /// `}`
    CloseCurlyBracket,
    /// Any other token.
    Other,
}

/// What a [`TokenKind`] holds, with its text as a sequence of characters.
pub enum KindModel {
    Ident(Seq<char>),
    AtKeyword(Seq<char>),
    Hash(Seq<char>),
    IDHash(Seq<char>),
    QuotedString(Seq<char>),
    Function(Seq<char>),
    Number(Scalar),
    Percentage(Scalar),
    Dimension(Scalar),
    Delim(char),
    WhiteSpace,
    Comment,
    Colon,
    Semicolon,
    CDO,
    CDC,
    ParenthesisBlock,
    SquareBracketBlock,
    CurlyBracketBlock,
    CloseParenthesis,
    CloseSquareBracket,
    CloseCurlyBracket,
    Other,
}

impl View for TokenKind {
    type V = KindModel;

    open spec fn view(&self) -> KindModel {
        match self {
            TokenKind::Ident(v) => KindModel::Ident(v@),
            TokenKind::AtKeyword(v) => KindModel::AtKeyword(v@),
            TokenKind::Hash(v) => KindModel::Hash(v@),
            TokenKind::IDHash(v) => KindModel::IDHash(v@),
            TokenKind::QuotedString(v) => KindModel::QuotedString(v@),
            TokenKind::Function(v) => KindModel::Function(v@),
            TokenKind::Number(v) => KindModel::Number(*v),
            TokenKind::Percentage(v) => KindModel::Percentage(*v),
            TokenKind::Dimension(v) => KindModel::Dimension(*v),
            TokenKind::Delim(c) => KindModel::Delim(*c),
            TokenKind::WhiteSpace => KindModel::WhiteSpace,
            TokenKind::Comment => KindModel::Comment,
            TokenKind::Colon => KindModel::Colon,
            TokenKind::Semicolon => KindModel::Semicolon,
            TokenKind::CDO => KindModel::CDO,
            TokenKind::CDC => KindModel::CDC,
            TokenKind::ParenthesisBlock => KindModel::ParenthesisBlock,
            TokenKind::SquareBracketBlock => KindModel::SquareBracketBlock,
            TokenKind::CurlyBracketBlock => KindModel::CurlyBracketBlock,
            TokenKind::CloseParenthesis => KindModel::CloseParenthesis,
            TokenKind::CloseSquareBracket => KindModel::CloseSquareBracket,
            TokenKind::CloseCurlyBracket => KindModel::CloseCurlyBracket,
            TokenKind::Other => KindModel::Other,
        }
    }
}

/// A token of a style sheet: its kind and the text it was cut from.
#[derive(Clone, Debug, PartialEq, Eq)]
pub struct CssToken {
    pub kind: TokenKind,
    pub source: String,
}

/// What a [`CssToken`] holds.
pub struct TokenModel {
    pub kind: KindModel,
    pub source: Seq<char>,
}

impl View for CssToken {
    type V = TokenModel;

    open spec fn view(&self) -> TokenModel {
        TokenModel { kind: self.kind@, source: self.source@ }
    }
}

/// The tokens of a list, each by what it holds.
pub open spec fn token_models(tokens: Seq<CssToken>) -> Seq<TokenModel> {
    tokens.map_values(|t: CssToken| t@)
}

/// The first token of a text as `cssparser` hands it out: its kind, the text
/// of the token and the text after it. A percentage comes with its value
/// divided by 100.
pub struct FirstToken {
    pub kind: KindModel,
    pub source: Seq<char>,
    pub rest: Seq<char>,
}

/// The first token of a text as `Parser::next_including_whitespace_and_comments`
/// of `cssparser` hands it out on a parser that starts at the text. `None` for
/// a text without a token.
pub uninterp spec fn css_first_token(text: Seq<char>) -> Option<FirstToken>;

/// Whether a token is one that carries a text: an identifier, an at-keyword,
/// a hash, a quoted string or a function.
pub open spec fn carries_text(kind: KindModel) -> bool {
    kind is Ident || kind is AtKeyword || kind is Hash || kind is IDHash || kind is QuotedString
        || kind is Function
}

/// Whether a token is a number, a percentage, a dimension, a single
/// character, a run of blanks or a comment.
pub open spec fn carries_value(kind: KindModel) -> bool {
    kind is Number || kind is Percentage || kind is Dimension || kind is Delim
        || kind is WhiteSpace || kind is Comment
}

/// Whether a token is a colon, a semicolon, `<!--`, `-->` or a bracket.
pub open spec fn is_mark(kind: KindModel) -> bool {
    kind is Colon || kind is Semicolon || kind is CDO || kind is CDC || kind is ParenthesisBlock
        || kind is SquareBracketBlock || kind is CurlyBracketBlock || kind is CloseParenthesis
        || kind is CloseSquareBracket || kind is CloseCurlyBracket
}

/// The kind of the first token of a text where the token is of a class of
/// kinds, and none where it is of another kind or the text has no token.
pub open spec fn first_kind_in(text: Seq<char>, class: spec_fn(KindModel) -> bool) -> Option<
    KindModel,
> {
    match css_first_token(text) {
        Some(token) => if class(token.kind) {
            Some(token.kind)
        } else {
            None
        },
        None => None,
    }
}

/// The kind that a token holds, if there is a token.
pub open spec fn kind_model(kind: Option<TokenKind>) -> Option<KindModel> {
    match kind {
        Some(k) => Some(k@),
        None => None,
    }
}

/// Calls `Parser::next_including_whitespace_and_comments` of `cssparser` on a
/// parser that starts at `text`, and splits `text` at the place that
/// `Parser::position` then gives. The contract names the token and says that
/// the two parts are its text and the text after it; `None` stands for the
/// parser's error, which it gives at the end of the text.
#[verifier::external_body]
fn token_extent<'a>(text: &'a str) -> (extent: Option<(&'a str, &'a str)>)
    ensures
        match extent {
            Some((source, rest)) => css_first_token(text@) is Some && css_first_token(
                text@,
            )->0.source == source@ && css_first_token(text@)->0.rest == rest@,
            None => css_first_token(text@) is None,
        },
{
    let mut input = cssparser::ParserInput::new(text);
    let mut parser = cssparser::Parser::new(&mut input);
    parser.next_including_whitespace_and_comments().ok()?;
    Some(text.split_at(parser.position().byte_index()))
}

/// Calls `Parser::next_including_whitespace_and_comments` of `cssparser` on a
/// parser that starts at `text`, and hands on a token that carries a text. The
/// contract says that this is the named token where that carries a text, and
/// nothing for any other token.
#[verifier::external_body]
fn text_token(text: &str) -> (kind: Option<TokenKind>)
    ensures
        kind_model(kind) == first_kind_in(text@, |k: KindModel| carries_text(k)),
{
    let mut input = cssparser::ParserInput::new(text);
    let mut parser = cssparser::Parser::new(&mut input);
    match parser.next_including_whitespace_and_comments().ok()? {
        cssparser::Token::Ident(v) => Some(TokenKind::Ident(v.to_string())),
        cssparser::Token::AtKeyword(v) => Some(TokenKind::AtKeyword(v.to_string())),
        cssparser::Token::Hash(v) => Some(TokenKind::Hash(v.to_string())),
        cssparser::Token::IDHash(v) => Some(TokenKind::IDHash(v.to_string())),
        cssparser::Token::QuotedString(v) => Some(TokenKind::QuotedString(v.to_string())),
        cssparser::Token::Function(v) => Some(TokenKind::Function(v.to_string())),
        _ => None,
    }
}

/// Calls `Parser::next_including_whitespace_and_comments` of `cssparser` on a
/// parser that starts at `text`, and hands on a number, a percentage, a
/// dimension, a single character, a run of blanks or a comment. The contract
/// says that this is the named token where that is one of these, and nothing
/// for any other token.
#[verifier::external_body]
fn value_token(text: &str) -> (kind: Option<TokenKind>)
    ensures
        kind_model(kind) == first_kind_in(text@, |k: KindModel| carries_value(k)),
{
    let mut input = cssparser::ParserInput::new(text);
    let mut parser = cssparser::Parser::new(&mut input);
    Some(match parser.next_including_whitespace_and_comments().ok()? {
        cssparser::Token::Number { value, .. } => TokenKind::Number(Scalar { bits: value.to_bits() }),
        cssparser::Token::Percentage { unit_value, .. } => TokenKind::Percentage(Scalar { bits: unit_value.to_bits() }),
        cssparser::Token::Dimension { value, .. } => TokenKind::Dimension(Scalar { bits: value.to_bits() }),
        cssparser::Token::Delim(c) => TokenKind::Delim(*c),
        cssparser::Token::WhiteSpace(_) => TokenKind::WhiteSpace,
        cssparser::Token::Comment(_) => TokenKind::Comment,
        _ => return None,
    })
}

/// Calls `Parser::next_including_whitespace_and_comments` of `cssparser` on a
/// parser that starts at `text`, and hands on a colon, a semicolon, `<!--`,
/// `-->` or a bracket. The contract says that this is the named token where
/// that is one of these, and nothing for any other token.
#[verifier::external_body]
fn mark_token(text: &str) -> (kind: Option<TokenKind>)
    ensures
        kind_model(kind) == first_kind_in(text@, |k: KindModel| is_mark(k)),
{
    let mut input = cssparser::ParserInput::new(text);
    Some(match cssparser::Parser::new(&mut input).next_including_whitespace_and_comments().ok()? {
        cssparser::Token::Colon => TokenKind::Colon,
        cssparser::Token::Semicolon => TokenKind::Semicolon,
        cssparser::Token::CDO => TokenKind::CDO,
        cssparser::Token::CDC => TokenKind::CDC,
        cssparser::Token::ParenthesisBlock => TokenKind::ParenthesisBlock,
        cssparser::Token::SquareBracketBlock => TokenKind::SquareBracketBlock,
        cssparser::Token::CurlyBracketBlock => TokenKind::CurlyBracketBlock,
        cssparser::Token::CloseParenthesis => TokenKind::CloseParenthesis,
        cssparser::Token::CloseSquareBracket => TokenKind::CloseSquareBracket,
        cssparser::Token::CloseCurlyBracket => TokenKind::CloseCurlyBracket,
        _ => return None,
    })
}

/// The value of a percentage as it is written: the number that its text
/// without the `%` is. `unit` is the value divided by 100, which stands in
/// where the text without its last character is no number.
pub open spec fn written_percentage(source: Seq<char>, unit: Scalar) -> Scalar {
    if source.len() == 0 {
        unit
    } else {
        match css_first_token(source.drop_last()) {
            Some(token) => match token.kind {
                KindModel::Number(value) => value,
                _ => unit,
            },
            None => unit,
        }
    }
}

/// The kind of a token as the library keeps it: a percentage holds its value
/// as it is written, and a token of none of the three classes of kinds is
/// `Other`.
pub open spec fn kept_kind(token: FirstToken) -> KindModel {
    match token.kind {
        KindModel::Percentage(unit) => KindModel::Percentage(
            written_percentage(token.source, unit),
        ),
        kind => if carries_text(kind) || carries_value(kind) || is_mark(kind) {
            kind
        } else {
            KindModel::Other
        },
    }
}

/// The first token of a text and the text after it. There is none at the end
/// of the text, nor where the text after the token would not be shorter.
pub open spec fn first_token(text: Seq<char>) -> Option<(TokenModel, Seq<char>)> {
    match css_first_token(text) {
        Some(token) => if token.rest.len() < text.len() {
            Some((TokenModel { kind: kept_kind(token), source: token.source }, token.rest))
        } else {
            None
        },
        None => None,
    }
}

/// The tokens of a text, first to last.
pub open spec fn tokens_of(text: Seq<char>) -> Seq<TokenModel>
    decreases text.len(),
{
    match first_token(text) {
        Some((token, rest)) => seq![token] + tokens_of(rest),
        None => Seq::empty(),
    }
}

fn percentage_as_written(source: &str, unit: Scalar) -> (value: Scalar)
    ensures
        value == written_percentage(source@, unit),
{
    let n = source.unicode_len();
    if n == 0 {
        return unit;
    }
    let number = source.substring_char(0, n - 1);
    assert(number@ == source@.drop_last());
    match value_token(number) {
        Some(TokenKind::Number(value)) => value,
        _ => unit,
    }
}

fn kind_of(text: &str, source: &str) -> (kind: TokenKind)
    requires
        css_first_token(text@) is Some,
        css_first_token(text@)->0.source == source@,
    ensures
        kind@ == kept_kind(css_first_token(text@)->0),
{
    match text_token(text) {
        Some(kind) => kind,
        None => match value_token(text) {
            Some(TokenKind::Percentage(unit)) => TokenKind::Percentage(
                percentage_as_written(source, unit),
            ),
            Some(kind) => kind,
            None => match mark_token(text) {
                Some(kind) => kind,
                None => TokenKind::Other,
            },
        },
    }
}

/// Cuts a text into its tokens.
pub fn tokenize(text: &str) -> (tokens: Vec<CssToken>)
    ensures
        token_models(tokens@) == tokens_of(text@),
{
    let mut tokens: Vec<CssToken> = Vec::new();
    let mut rest: &str = text;
    let mut left: usize = text.unicode_len();
    proof {
        assert(token_models(tokens@) + tokens_of(rest@) =~= tokens_of(text@));
    }
    loop
        invariant
            left == rest@.len(),
            token_models(tokens@) + tokens_of(rest@) == tokens_of(text@),
        ensures
            token_models(tokens@) == tokens_of(text@),
        decreases left,
    {
        let ghost before = token_models(tokens@);
        let found = token_extent(rest);
        match found {
            Some((source, after)) => {
                let n = after.unicode_len();
                if n < left {
                    let token = CssToken {
                        kind: kind_of(rest, source),
                        source: String::from_str(source),
                    };
                    proof {
                        assert(first_token(rest@) == Some((token@, after@)));
                        assert(tokens_of(rest@) == seq![token@] + tokens_of(after@));
                        assert(before.push(token@) + tokens_of(after@) =~= before + (seq![token@]
                            + tokens_of(after@)));
                    }
                    tokens.push(token);
                    proof {
                        assert(token_models(tokens@) =~= before.push(token@));
                    }
                    rest = after;
                    left = n;
                } else {
                    proof {
                        assert(first_token(rest@) is None);
                        assert(before + tokens_of(rest@) =~= before);
                    }
                    break ;
                }
            },
            None => {
                proof {
                    assert(first_token(rest@) is None);
                    assert(before + tokens_of(rest@) =~= before);
                }
                break ;
            },
        }
    }
    tokens
}

} // verus!
