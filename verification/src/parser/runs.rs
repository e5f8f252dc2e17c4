//! What the searches through a list of tokens find depends only on the
//! tokens that they look at: the same run of tokens in another list, or a list
//! that goes on behind the run, gives the same.

use vstd::prelude::*;

use super::blocks::{
    block_close, lemma_search_bounds, next_stop, skip_trivia, step, trivial, Bracket,
};
use super::property_parser::{after_stop, declarations, declared_values};
use super::style_sheet_parser::{selector_elements, Pending};
use super::tokenizer::{KindModel, TokenModel};
use crate::property::property_token::PropertyTokenModel;
use crate::selector::ElementModel;
use crate::stylesheet::style_rule::DeclarationModel;

verus! {

/// Whether the tokens `b[from..to]` stand in `a` as well, `shift` places
/// further on.
pub closed spec fn same_run(
    a: Seq<TokenModel>,
    b: Seq<TokenModel>,
    shift: int,
    from: int,
    to: int,
) -> bool {
    &&& 0 <= shift
    &&& 0 <= from <= to <= b.len()
    &&& to + shift <= a.len()
    &&& forall|k: int| from <= k < to ==> a[k + shift] == #[trigger] b[k]
}

/// A list that goes on behind another holds the tokens of that list at
/// their places.
pub proof fn lemma_same_run_front(front: Seq<TokenModel>, back: Seq<TokenModel>, from: int, to: int)
    requires
        0 <= from <= to <= front.len(),
    ensures
        same_run(front + back, front, 0, from, to),
{
}

/// A list that stands behind another holds its tokens as many places
/// further on as the other list is long.
pub proof fn lemma_same_run_back(front: Seq<TokenModel>, back: Seq<TokenModel>, from: int, to: int)
    requires
        0 <= from <= to <= back.len(),
    ensures
        same_run(front + back, back, front.len() as int, from, to),
{
}

/// The same run of tokens has its first token that is not passed over at
/// the same place.
pub proof fn lemma_skip_same_run(
    a: Seq<TokenModel>,
    b: Seq<TokenModel>,
    shift: int,
    i: int,
    to: int,
    marks: bool,
)
    requires
        same_run(a, b, shift, i, to),
    ensures
        skip_trivia(a, i + shift, to + shift, marks) == skip_trivia(b, i, to, marks) + shift,
    decreases to - i,
{
    if i < to {
        assert(a[i + shift] == b[i]);
        if trivial(b[i].kind, marks) {
            lemma_skip_same_run(a, b, shift, i + 1, to, marks);
        }
    }
}

/// The same run of tokens stops at the same place.
pub proof fn lemma_stop_same_run(
    a: Seq<TokenModel>,
    b: Seq<TokenModel>,
    shift: int,
    i: int,
    to: int,
    stack: Seq<Bracket>,
    curly: bool,
    semicolon: bool,
)
    requires
        same_run(a, b, shift, i, to),
    ensures
        next_stop(a, i + shift, to + shift, stack, curly, semicolon) == next_stop(
            b,
            i,
            to,
            stack,
            curly,
            semicolon,
        ) + shift,
    decreases to - i,
{
    if i < to {
        assert(a[i + shift] == b[i]);
        lemma_stop_same_run(a, b, shift, i + 1, to, step(stack, b[i].kind), curly, semicolon);
    }
}

/// The same run of tokens closes a block at the same place.
pub proof fn lemma_close_same_run(
    a: Seq<TokenModel>,
    b: Seq<TokenModel>,
    shift: int,
    i: int,
    to: int,
    stack: Seq<Bracket>,
)
    requires
        same_run(a, b, shift, i, to),
    ensures
        block_close(a, i + shift, to + shift, stack) == block_close(b, i, to, stack) + shift,
    decreases to - i,
{
    if i < to {
        assert(a[i + shift] == b[i]);
        lemma_close_same_run(a, b, shift, i + 1, to, step(stack, b[i].kind));
    }
}

/// The same run of tokens declares the same values.
pub proof fn lemma_values_same_run(
    a: Seq<TokenModel>,
    b: Seq<TokenModel>,
    shift: int,
    i: int,
    to: int,
    stack: Seq<Bracket>,
    values: Seq<PropertyTokenModel>,
)
    requires
        same_run(a, b, shift, i, to),
    ensures
        declared_values(a, i + shift, to + shift, stack, values) == declared_values(
            b,
            i,
            to,
            stack,
            values,
        ),
    decreases to - i,
{
    if i < to {
        assert(a[i + shift] == b[i]);
        let found = if stack.len() == 0 {
            match crate::property::property_token::property_token_of(b[i].kind) {
                Some(token) => values.push(token),
                None => values,
            }
        } else {
            values
        };
        lemma_values_same_run(a, b, shift, i + 1, to, step(stack, b[i].kind), found);
    }
}

/// The same run of tokens stands for the same selector.
pub proof fn lemma_selector_same_run(
    a: Seq<TokenModel>,
    b: Seq<TokenModel>,
    shift: int,
    i: int,
    to: int,
    pending: Pending,
    elements: Seq<ElementModel>,
)
    requires
        same_run(a, b, shift, i, to),
    ensures
        selector_elements(a, i + shift, to + shift, pending, elements) == selector_elements(
            b,
            i,
            to,
            pending,
            elements,
        ),
    decreases to - i,
{
    if i < to {
        assert(a[i + shift] == b[i]);
        let token = b[i];
        match token.kind {
            KindModel::Comment => lemma_selector_same_run(a, b, shift, i + 1, to, pending, elements),
            KindModel::Ident(text) => lemma_selector_same_run(
                a,
                b,
                shift,
                i + 1,
                to,
                Pending::Nothing,
                elements.push(super::style_sheet_parser::named_element(pending, text)),
            ),
            KindModel::IDHash(text) => {
                if pending is Nothing && text.len() != 0 {
                    lemma_selector_same_run(
                        a,
                        b,
                        shift,
                        i + 1,
                        to,
                        pending,
                        elements.push(ElementModel::Name(text)),
                    );
                }
            },
            KindModel::WhiteSpace => {
                if pending is Nothing {
                    lemma_selector_same_run(
                        a,
                        b,
                        shift,
                        i + 1,
                        to,
                        pending,
                        super::style_sheet_parser::after_blank(elements),
                    );
                }
            },
            KindModel::Delim(c) => {
                if pending is Nothing && c == '.' {
                    lemma_selector_same_run(a, b, shift, i + 1, to, Pending::Class, elements);
                }
            },
            KindModel::Colon => {
                if pending is Nothing {
                    lemma_selector_same_run(a, b, shift, i + 1, to, Pending::PseudoClass, elements);
                }
            },
            _ => {},
        }
    }
}

/// In the same run of tokens the search goes on at the same place after a
/// stop.
pub proof fn lemma_after_stop_same_run(
    a: Seq<TokenModel>,
    b: Seq<TokenModel>,
    shift: int,
    from: int,
    stop: int,
    to: int,
)
    requires
        same_run(a, b, shift, from, to),
        from <= stop,
    ensures
        after_stop(a, stop + shift, to + shift) == after_stop(b, stop, to) + shift,
{
    if stop < to {
        assert(a[stop + shift] == b[stop]);
        lemma_close_same_run(a, b, shift, stop + 1, to, seq![Bracket::Curly]);
    }
}

/// The same run of tokens declares the same properties.
pub proof fn lemma_declarations_same_run(
    a: Seq<TokenModel>,
    b: Seq<TokenModel>,
    shift: int,
    i: int,
    to: int,
    declared: Seq<DeclarationModel>,
)
    requires
        same_run(a, b, shift, i, to),
    ensures
        declarations(a, i + shift, to + shift, declared) == declarations(b, i, to, declared),
    decreases to - i,
{
    if i < to {
        lemma_skip_same_run(a, b, shift, i, to, false);
        lemma_search_bounds(b, i, to, Seq::empty(), true, true, false);
        let start = skip_trivia(b, i, to, false);
        if start < to {
            assert(a[start + shift] == b[start]);
            lemma_search_bounds(b, start + 1, to, Seq::empty(), true, true, false);
            lemma_search_bounds(b, start + 1, to, Seq::empty(), false, true, false);
            lemma_search_bounds(b, start, to, Seq::empty(), false, true, false);
            match b[start].kind {
                KindModel::Semicolon => lemma_declarations_same_run(
                    a,
                    b,
                    shift,
                    start + 1,
                    to,
                    declared,
                ),
                KindModel::CloseCurlyBracket => lemma_declarations_same_run(
                    a,
                    b,
                    shift,
                    start + 1,
                    to,
                    declared,
                ),
                KindModel::AtKeyword(_) => {
                    lemma_stop_same_run(a, b, shift, start + 1, to, Seq::empty(), true, true);
                    let stop = next_stop(b, start + 1, to, Seq::empty(), true, true);
                    lemma_after_stop_same_run(a, b, shift, start + 1, stop, to);
                    let next = after_stop(b, stop, to);
                    if start < next <= to {
                        lemma_declarations_same_run(a, b, shift, next, to, declared);
                    }
                },
                KindModel::Ident(name) => {
                    lemma_stop_same_run(a, b, shift, start + 1, to, Seq::empty(), false, true);
                    let stop = next_stop(b, start + 1, to, Seq::empty(), false, true);
                    lemma_skip_same_run(a, b, shift, start + 1, stop, false);
                    lemma_search_bounds(b, start + 1, stop, Seq::empty(), false, true, false);
                    let colon = skip_trivia(b, start + 1, stop, false);
                    if colon < stop {
                        assert(a[colon + shift] == b[colon]);
                        lemma_values_same_run(
                            a,
                            b,
                            shift,
                            colon + 1,
                            stop,
                            Seq::empty(),
                            Seq::empty(),
                        );
                    }
                    let found = if colon < stop && b[colon].kind is Colon {
                        crate::stylesheet::style_rule::declare(
                            declared,
                            name,
                            declared_values(b, colon + 1, stop, Seq::empty(), Seq::empty()),
                        )
                    } else {
                        declared
                    };
                    if start < stop < to {
                        lemma_declarations_same_run(a, b, shift, stop + 1, to, found);
                    }
                },
                _ => {
                    lemma_stop_same_run(a, b, shift, start, to, Seq::empty(), false, true);
                    let stop = next_stop(b, start, to, Seq::empty(), false, true);
                    if start <= stop < to {
                        lemma_declarations_same_run(a, b, shift, stop + 1, to, declared);
                    }
                },
            }
        }
    }
}

/// What a search for a token that is not passed over finds before `to`, it
/// finds where it may look further; and where it finds nothing before `to`, it
/// finds what a search from `to` on finds.
pub proof fn lemma_skip_further(tokens: Seq<TokenModel>, i: int, to: int, more: int, marks: bool)
    requires
        0 <= i <= to <= more <= tokens.len(),
    ensures
        skip_trivia(tokens, i, to, marks) < to ==> skip_trivia(tokens, i, more, marks)
            == skip_trivia(tokens, i, to, marks),
        skip_trivia(tokens, i, to, marks) >= to ==> skip_trivia(tokens, i, more, marks)
            == skip_trivia(tokens, to, more, marks),
    decreases to - i,
{
    if i < to {
        if trivial(tokens[i].kind, marks) {
            lemma_skip_further(tokens, i + 1, to, more, marks);
        }
    }
}

/// Where a run of tokens stops before `to`, it stops where the search may
/// look further.
pub proof fn lemma_stop_further(
    tokens: Seq<TokenModel>,
    i: int,
    to: int,
    more: int,
    stack: Seq<Bracket>,
    curly: bool,
    semicolon: bool,
)
    requires
        0 <= i <= to <= more <= tokens.len(),
        next_stop(tokens, i, to, stack, curly, semicolon) < to,
    ensures
        next_stop(tokens, i, more, stack, curly, semicolon) == next_stop(
            tokens,
            i,
            to,
            stack,
            curly,
            semicolon,
        ),
    decreases to - i,
{
    if i < to {
        if !(stack.len() == 0 && super::blocks::stops(tokens[i].kind, curly, semicolon)) {
            lemma_stop_further(tokens, i + 1, to, more, step(stack, tokens[i].kind), curly, semicolon);
        }
    }
}

/// Where a block is closed before `to`, it is closed there where the search
/// may look further.
pub proof fn lemma_close_further(
    tokens: Seq<TokenModel>,
    i: int,
    to: int,
    more: int,
    stack: Seq<Bracket>,
)
    requires
        0 <= i <= to <= more <= tokens.len(),
        block_close(tokens, i, to, stack) < to,
    ensures
        block_close(tokens, i, more, stack) == block_close(tokens, i, to, stack),
    decreases to - i,
{
    if i < to && stack.len() > 0 {
        if !(stack.len() == 1 && super::blocks::closing(tokens[i].kind) == Some(stack.last())) {
            lemma_close_further(tokens, i + 1, to, more, step(stack, tokens[i].kind));
        }
    }
}

} // verus!
