//! The structure of a list of tokens: its blocks and where a run of tokens
//! stops.

use vstd::prelude::*;

use super::tokenizer::{token_models, CssToken, KindModel, TokenKind, TokenModel};

verus! {

/// The three kinds of bracket that open a block.
#[derive(Clone, Copy, Debug, PartialEq, Eq, Structural)]
pub enum Bracket {
    Parenthesis,
    Square,
    Curly,
}

/// The bracket that a token opens, if it opens one. A function opens a
/// parenthesis.
pub open spec fn opening(kind: KindModel) -> Option<Bracket> {
    match kind {
        KindModel::Function(_) => Some(Bracket::Parenthesis),
        KindModel::ParenthesisBlock => Some(Bracket::Parenthesis),
        KindModel::SquareBracketBlock => Some(Bracket::Square),
        KindModel::CurlyBracketBlock => Some(Bracket::Curly),
        _ => None,
    }
}

/// The bracket that a token closes, if it closes one.
pub open spec fn closing(kind: KindModel) -> Option<Bracket> {
    match kind {
        KindModel::CloseParenthesis => Some(Bracket::Parenthesis),
        KindModel::CloseSquareBracket => Some(Bracket::Square),
        KindModel::CloseCurlyBracket => Some(Bracket::Curly),
        _ => None,
    }
}

/// The brackets that are open after a token, given those open before it,
/// innermost last. A token that closes the innermost bracket takes it off, one
/// that closes another bracket changes nothing, and one that opens a bracket
/// puts it on.
pub open spec fn step(stack: Seq<Bracket>, kind: KindModel) -> Seq<Bracket> {
    let popped = if stack.len() > 0 && closing(kind) == Some(stack.last()) {
        stack.drop_last()
    } else {
        stack
    };
    match opening(kind) {
        Some(bracket) => popped.push(bracket),
        None => popped,
    }
}

/// The place in `tokens[..to]` of the token that closes the outermost of the
/// open brackets `stack`, looking from `i` on; `to` where none does.
pub open spec fn block_close(tokens: Seq<TokenModel>, i: int, to: int, stack: Seq<Bracket>) -> int
    decreases to - i,
{
    if i < 0 || i >= to || to > tokens.len() || stack.len() == 0 {
        to
    } else if stack.len() == 1 && closing(tokens[i].kind) == Some(stack.last()) {
        i
    } else {
        block_close(tokens, i + 1, to, step(stack, tokens[i].kind))
    }
}

/// Whether a run of tokens stops at a token of this kind.
pub open spec fn stops(kind: KindModel, curly: bool, semicolon: bool) -> bool {
    (curly && kind is CurlyBracketBlock) || (semicolon && kind is Semicolon)
}

/// The place in `tokens[..to]` of the first token from `i` on that stands in
/// none of the blocks opened from `i` on and is a `{` (where `curly` is set) or
/// a `;` (where `semicolon` is set); `to` where there is none. `stack` holds the
/// brackets that are open at `i`.
pub open spec fn next_stop(
    tokens: Seq<TokenModel>,
    i: int,
    to: int,
    stack: Seq<Bracket>,
    curly: bool,
    semicolon: bool,
) -> int
    decreases to - i,
{
    if i < 0 || i >= to || to > tokens.len() {
        to
    } else if stack.len() == 0 && stops(tokens[i].kind, curly, semicolon) {
        i
    } else {
        next_stop(tokens, i + 1, to, step(stack, tokens[i].kind), curly, semicolon)
    }
}

/// Whether a token is passed over between rules and declarations: blanks and
/// comments, and `<!--` and `-->` where `marks` is set.
pub open spec fn trivial(kind: KindModel, marks: bool) -> bool {
    kind is WhiteSpace || kind is Comment || (marks && (kind is CDO || kind is CDC))
}

/// The place in `tokens[..to]` of the first token from `i` on that is not
/// passed over; `to` where there is none.
pub open spec fn skip_trivia(tokens: Seq<TokenModel>, i: int, to: int, marks: bool) -> int
    decreases to - i,
{
    if i < 0 || i >= to || to > tokens.len() {
        to
    } else if trivial(tokens[i].kind, marks) {
        skip_trivia(tokens, i + 1, to, marks)
    } else {
        i
    }
}

/// The places that the three searches give lie between `i` and `to`.
pub proof fn lemma_search_bounds(
    tokens: Seq<TokenModel>,
    i: int,
    to: int,
    stack: Seq<Bracket>,
    curly: bool,
    semicolon: bool,
    marks: bool,
)
    requires
        0 <= i <= to <= tokens.len(),
    ensures
        i <= block_close(tokens, i, to, stack) <= to,
        i <= next_stop(tokens, i, to, stack, curly, semicolon) <= to,
        i <= skip_trivia(tokens, i, to, marks) <= to,
        next_stop(tokens, i, to, stack, curly, semicolon) < to ==> stops(
            tokens[next_stop(tokens, i, to, stack, curly, semicolon)].kind,
            curly,
            semicolon,
        ),
        skip_trivia(tokens, i, to, marks) < to ==> !trivial(
            tokens[skip_trivia(tokens, i, to, marks)].kind,
            marks,
        ),
    decreases to - i,
{
    if i < to {
        lemma_search_bounds(
            tokens,
            i + 1,
            to,
            step(stack, tokens[i].kind),
            curly,
            semicolon,
            marks,
        );
        lemma_search_bounds(tokens, i + 1, to, stack, curly, semicolon, marks);
    }
}

impl TokenKind {
    /// The bracket that the token opens, if it opens one.
    pub fn opening(&self) -> (bracket: Option<Bracket>)
        ensures
            bracket == opening(self@),
    {
        match self {
            TokenKind::Function(_) => Some(Bracket::Parenthesis),
            TokenKind::ParenthesisBlock => Some(Bracket::Parenthesis),
            TokenKind::SquareBracketBlock => Some(Bracket::Square),
            TokenKind::CurlyBracketBlock => Some(Bracket::Curly),
            _ => None,
        }
    }

    /// The bracket that the token closes, if it closes one.
    pub fn closing(&self) -> (bracket: Option<Bracket>)
        ensures
            bracket == closing(self@),
    {
        match self {
            TokenKind::CloseParenthesis => Some(Bracket::Parenthesis),
            TokenKind::CloseSquareBracket => Some(Bracket::Square),
            TokenKind::CloseCurlyBracket => Some(Bracket::Curly),
            _ => None,
        }
    }

    /// Whether the token is passed over between rules and declarations.
    pub fn is_trivial(&self, marks: bool) -> (passed: bool)
        ensures
            passed == trivial(self@, marks),
    {
        match self {
            TokenKind::WhiteSpace => true,
            TokenKind::Comment => true,
            TokenKind::CDO => marks,
            TokenKind::CDC => marks,
            _ => false,
        }
    }

    /// Whether a run of tokens stops at the token.
    pub fn stops(&self, curly: bool, semicolon: bool) -> (stop: bool)
        ensures
            stop == stops(self@, curly, semicolon),
    {
        match self {
            TokenKind::CurlyBracketBlock => curly,
            TokenKind::Semicolon => semicolon,
            _ => false,
        }
    }
}

/// Takes one token into the list of open brackets.
pub fn take_step(stack: &mut Vec<Bracket>, kind: &TokenKind)
    ensures
        final(stack)@ == step(old(stack)@, kind@),
{
    let n = stack.len();
    if n > 0 {
        match kind.closing() {
            Some(bracket) => {
                if stack[n - 1] == bracket {
                    stack.pop();
                    assert(stack@ =~= old(stack)@.drop_last());
                }
            },
            None => {},
        }
    }
    match kind.opening() {
        Some(bracket) => {
            stack.push(bracket);
        },
        None => {},
    }
}

/// Finds the token that closes a block of which `tokens[i]` is the first
/// token after the opening bracket.
pub fn find_block_close(tokens: &Vec<CssToken>, i: usize, to: usize, bracket: Bracket) -> (close:
    usize)
    requires
        i <= to <= tokens.len(),
    ensures
        close == block_close(token_models(tokens@), i as int, to as int, seq![bracket]),
        i <= close <= to,
{
    let ghost models = token_models(tokens@);
    let mut stack: Vec<Bracket> = Vec::new();
    stack.push(bracket);
    assert(stack@ =~= seq![bracket]);
    let mut k: usize = i;
    while k < to
        invariant
            i <= k <= to <= tokens.len(),
            models == token_models(tokens@),
            stack@.len() > 0,
            block_close(models, k as int, to as int, stack@) == block_close(
                models,
                i as int,
                to as int,
                seq![bracket],
            ),
        decreases to - k,
    {
        assert(models[k as int] == tokens@[k as int]@);
        if stack.len() == 1 {
            match tokens[k].kind.closing() {
                Some(b) => {
                    if stack[0] == b {
                        return k;
                    }
                },
                None => {},
            }
        }
        take_step(&mut stack, &tokens[k].kind);
        k += 1;
    }
    to
}

/// Finds where a run of tokens that starts at `i` stops.
pub fn find_next_stop(tokens: &Vec<CssToken>, i: usize, to: usize, curly: bool, semicolon: bool) -> (stop:
    usize)
    requires
        i <= to <= tokens.len(),
    ensures
        stop == next_stop(
            token_models(tokens@),
            i as int,
            to as int,
            Seq::empty(),
            curly,
            semicolon,
        ),
        i <= stop <= to,
        stop < to ==> stops(tokens@[stop as int]@.kind, curly, semicolon),
{
    let ghost models = token_models(tokens@);
    let mut stack: Vec<Bracket> = Vec::new();
    let mut k: usize = i;
    while k < to
        invariant
            i <= k <= to <= tokens.len(),
            models == token_models(tokens@),
            next_stop(models, k as int, to as int, stack@, curly, semicolon) == next_stop(
                models,
                i as int,
                to as int,
                Seq::empty(),
                curly,
                semicolon,
            ),
        decreases to - k,
    {
        assert(models[k as int] == tokens@[k as int]@);
        if stack.len() == 0 && tokens[k].kind.stops(curly, semicolon) {
            return k;
        }
        take_step(&mut stack, &tokens[k].kind);
        k += 1;
    }
    to
}

/// Finds the first token from `i` on that is not passed over.
pub fn find_skip_trivia(tokens: &Vec<CssToken>, i: usize, to: usize, marks: bool) -> (at: usize)
    requires
        i <= to <= tokens.len(),
    ensures
        at == skip_trivia(token_models(tokens@), i as int, to as int, marks),
        i <= at <= to,
        at < to ==> !trivial(tokens@[at as int]@.kind, marks),
{
    let ghost models = token_models(tokens@);
    let mut k: usize = i;
    while k < to
        invariant
            i <= k <= to <= tokens.len(),
            models == token_models(tokens@),
            skip_trivia(models, k as int, to as int, marks) == skip_trivia(
                models,
                i as int,
                to as int,
                marks,
            ),
        decreases to - k,
    {
        assert(models[k as int] == tokens@[k as int]@);
        if !tokens[k].kind.is_trivial(marks) {
            return k;
        }
        k += 1;
    }
    to
}

} // verus!
