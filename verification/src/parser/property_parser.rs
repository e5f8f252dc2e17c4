use vstd::prelude::*;

use super::blocks::{
    block_close, find_block_close, find_next_stop, find_skip_trivia, next_stop, skip_trivia,
    step, take_step, Bracket,
};
use super::tokenizer::{token_models, CssToken, KindModel, TokenKind, TokenModel};
use crate::property::property_token::{
    property_token_models, property_token_of, PropertyToken, PropertyTokenModel,
};
use crate::property::PropertyValues;
use crate::stylesheet::style_rule::{
    declare, distinct_names, Declaration, DeclarationModel, Properties,
};

verus! {

/// The values that the tokens `tokens[i..to]` declare: each token outside of
/// the blocks opened from `i` on that stands for a property token, in order.
/// Any other token is passed over, and so is all that stands in a block.
/// `stack` holds the brackets that are open at `i`, and `values` what was
/// found before `i`.
pub open spec fn declared_values(
    tokens: Seq<TokenModel>,
    i: int,
    to: int,
    stack: Seq<Bracket>,
    values: Seq<PropertyTokenModel>,
) -> Seq<PropertyTokenModel>
    decreases to - i,
{
    if i < 0 || i >= to || to > tokens.len() {
        values
    } else {
        let found = if stack.len() == 0 {
            match property_token_of(tokens[i].kind) {
                Some(token) => values.push(token),
                None => values,
            }
        } else {
            values
        };
        declared_values(tokens, i + 1, to, step(stack, tokens[i].kind), found)
    }
}

/// Where the search goes on after a run of tokens that stopped at `stop`:
/// behind the `;`, or behind the block that the `{` opens.
pub open spec fn after_stop(tokens: Seq<TokenModel>, stop: int, to: int) -> int {
    if stop < 0 || stop >= to || to > tokens.len() {
        to
    } else if tokens[stop].kind is CurlyBracketBlock {
        let close = block_close(tokens, stop + 1, to, seq![Bracket::Curly]);
        if close < to {
            close + 1
        } else {
            to
        }
    } else {
        stop + 1
    }
}

/// The properties that the tokens `tokens[i..to]`, the inside of a block,
/// declare on top of `declared`.
///
/// A declaration is an identifier, a `:` and values, up to the next `;`
/// outside of any block. Where the `:` is missing the declaration is passed
/// over. An at-rule is passed over to the end of its `;` or block, and what
/// starts with any other token to the next `;`.
pub open spec fn declarations(
    tokens: Seq<TokenModel>,
    i: int,
    to: int,
    declared: Seq<DeclarationModel>,
) -> Seq<DeclarationModel>
    decreases to - i,
{
    if i < 0 || i >= to || to > tokens.len() {
        declared
    } else {
        let start = skip_trivia(tokens, i, to, false);
        if start >= to || start < i {
            declared
        } else {
            match tokens[start].kind {
                KindModel::Semicolon => declarations(tokens, start + 1, to, declared),
                KindModel::CloseCurlyBracket => declarations(tokens, start + 1, to, declared),
                KindModel::AtKeyword(_) => {
                    let stop = next_stop(tokens, start + 1, to, Seq::empty(), true, true);
                    let next = after_stop(tokens, stop, to);
                    if start < next <= to {
                        declarations(tokens, next, to, declared)
                    } else {
                        declared
                    }
                },
                KindModel::Ident(name) => {
                    let stop = next_stop(tokens, start + 1, to, Seq::empty(), false, true);
                    let colon = skip_trivia(tokens, start + 1, stop, false);
                    let found = if colon < stop && tokens[colon].kind is Colon {
                        declare(
                            declared,
                            name,
                            declared_values(tokens, colon + 1, stop, Seq::empty(), Seq::empty()),
                        )
                    } else {
                        declared
                    };
                    if start < stop < to {
                        declarations(tokens, stop + 1, to, found)
                    } else {
                        found
                    }
                },
                _ => {
                    let stop = next_stop(tokens, start, to, Seq::empty(), false, true);
                    if start <= stop < to {
                        declarations(tokens, stop + 1, to, declared)
                    } else {
                        declared
                    }
                },
            }
        }
    }
}

/// Declarations keep the names distinct.
pub proof fn lemma_declarations_distinct(
    tokens: Seq<TokenModel>,
    i: int,
    to: int,
    declared: Seq<DeclarationModel>,
)
    requires
        distinct_names(declared),
    ensures
        distinct_names(declarations(tokens, i, to, declared)),
    decreases to - i,
{
    if !(i < 0 || i >= to || to > tokens.len()) {
        let start = skip_trivia(tokens, i, to, false);
        if !(start >= to || start < i) {
            match tokens[start].kind {
                KindModel::Semicolon => lemma_declarations_distinct(tokens, start + 1, to, declared),
                KindModel::CloseCurlyBracket => lemma_declarations_distinct(
                    tokens,
                    start + 1,
                    to,
                    declared,
                ),
                KindModel::AtKeyword(_) => {
                    let stop = next_stop(tokens, start + 1, to, Seq::empty(), true, true);
                    let next = after_stop(tokens, stop, to);
                    if start < next <= to {
                        lemma_declarations_distinct(tokens, next, to, declared);
                    }
                },
                KindModel::Ident(name) => {
                    let stop = next_stop(tokens, start + 1, to, Seq::empty(), false, true);
                    let colon = skip_trivia(tokens, start + 1, stop, false);
                    let values = declared_values(
                        tokens,
                        colon + 1,
                        stop,
                        Seq::empty(),
                        Seq::empty(),
                    );
                    crate::stylesheet::style_rule::lemma_declare(declared, name, values);
                    let found = if colon < stop && tokens[colon].kind is Colon {
                        declare(declared, name, values)
                    } else {
                        declared
                    };
                    if start < stop < to {
                        lemma_declarations_distinct(tokens, stop + 1, to, found);
                    }
                },
                _ => {
                    let stop = next_stop(tokens, start, to, Seq::empty(), false, true);
                    if start <= stop < to {
                        lemma_declarations_distinct(tokens, stop + 1, to, declared);
                    }
                },
            }
        }
    }
}

/// Finds where the search goes on after a run of tokens that stopped at `stop`.
pub fn find_after_stop(tokens: &Vec<CssToken>, stop: usize, to: usize) -> (next: usize)
    requires
        stop <= to <= tokens.len(),
    ensures
        next == after_stop(token_models(tokens@), stop as int, to as int),
        stop <= next <= to,
        stop < to ==> stop < next,
{
    if stop >= to {
        return to;
    }
    assert(token_models(tokens@)[stop as int] == tokens@[stop as int]@);
    match &tokens[stop].kind {
        TokenKind::CurlyBracketBlock => {
            let close = find_block_close(tokens, stop + 1, to, Bracket::Curly);
            if close < to {
                close + 1
            } else {
                to
            }
        },
        _ => stop + 1,
    }
}

/// Parses the declarations of a rule.
pub struct PropertyParser;

impl PropertyParser {
    /// Parses the values `tokens[from..to]` of the declaration of `name`.
    pub fn parse_value(name: &str, tokens: &Vec<CssToken>, from: usize, to: usize) -> (declaration:
        Declaration)
        requires
            from <= to <= tokens.len(),
        ensures
            declaration@.name == name@,
            declaration@.values == declared_values(
                token_models(tokens@),
                from as int,
                to as int,
                Seq::empty(),
                Seq::empty(),
            ),
    {
        let ghost models = token_models(tokens@);
        let mut values: Vec<PropertyToken> = Vec::new();
        let mut stack: Vec<Bracket> = Vec::new();
        let mut k: usize = from;
        proof {
            assert(property_token_models(values@) =~= Seq::empty());
        }
        while k < to
            invariant
                from <= k <= to <= tokens.len(),
                models == token_models(tokens@),
                declared_values(
                    models,
                    k as int,
                    to as int,
                    stack@,
                    property_token_models(values@),
                ) == declared_values(
                    models,
                    from as int,
                    to as int,
                    Seq::empty(),
                    Seq::empty(),
                ),
            decreases to - k,
        {
            assert(models[k as int] == tokens@[k as int]@);
            if stack.len() == 0 {
                let ghost before = property_token_models(values@);
                match PropertyToken::try_from(&tokens[k]) {
                    Ok(token) => {
                        values.push(token);
                        assert(property_token_models(values@) =~= before.push(token@));
                    },
                    Err(_) => {},
                }
            }
            take_step(&mut stack, &tokens[k].kind);
            k += 1;
        }
        Declaration { name: String::from_str(name), values: PropertyValues(values) }
    }

    /// Parses the inside `tokens[from..to]` of the block of a rule into
    /// `properties`.
    pub fn parse_declarations(
        properties: &mut Properties,
        tokens: &Vec<CssToken>,
        from: usize,
        to: usize,
    )
        requires
            from <= to <= tokens.len(),
        ensures
            final(properties)@ == declarations(
                token_models(tokens@),
                from as int,
                to as int,
                old(properties)@,
            ),
    {
        let ghost models = token_models(tokens@);
        let ghost goal = declarations(models, from as int, to as int, properties@);
        let mut i: usize = from;
        while i < to
            invariant
                from <= i <= to <= tokens.len(),
                models == token_models(tokens@),
                goal == declarations(models, from as int, to as int, old(properties)@),
                declarations(models, i as int, to as int, properties@) == goal,
            decreases to - i,
        {
            let start = find_skip_trivia(tokens, i, to, false);
            if start >= to {
                return ;
            }
            assert(models[start as int] == tokens@[start as int]@);
            match &tokens[start].kind {
                TokenKind::Semicolon => {
                    i = start + 1;
                },
                TokenKind::CloseCurlyBracket => {
                    i = start + 1;
                },
                TokenKind::AtKeyword(_) => {
                    let stop = find_next_stop(tokens, start + 1, to, true, true);
                    i = find_after_stop(tokens, stop, to);
                    proof {
                        if i >= to {
                            assert(declarations(models, i as int, to as int, properties@)
                                == properties@);
                        }
                    }
                },
                TokenKind::Ident(name) => {
                    let stop = find_next_stop(tokens, start + 1, to, false, true);
                    let colon = find_skip_trivia(tokens, start + 1, stop, false);
                    if colon < stop {
                        assert(models[colon as int] == tokens@[colon as int]@);
                        match &tokens[colon].kind {
                            TokenKind::Colon => {
                                let declaration = PropertyParser::parse_value(
                                    name.as_str(),
                                    tokens,
                                    colon + 1,
                                    stop,
                                );
                                properties.insert(declaration.name, declaration.values);
                            },
                            _ => {},
                        }
                    }
                    if stop < to {
                        i = stop + 1;
                    } else {
                        i = to;
                    }
                },
                _ => {
                    let stop = find_next_stop(tokens, start, to, false, true);
                    if stop < to {
                        i = stop + 1;
                    } else {
                        i = to;
                    }
                },
            }
        }
    }
}

} // verus!
