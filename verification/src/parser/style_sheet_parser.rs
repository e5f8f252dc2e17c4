use vstd::prelude::*;

use super::blocks::{
    block_close, find_block_close, find_next_stop, find_skip_trivia, lemma_search_bounds,
    next_stop, skip_trivia, Bracket,
};
use super::property_parser::{after_stop, declarations, find_after_stop, PropertyParser};
use super::tokenizer::{
    token_models, tokenize, tokens_of, CssToken, KindModel, TokenKind, TokenModel,
};
use crate::error::{BevyCssError, ErrorModel};
use crate::text::{column_in, digits, lines_in, place_behind, push_digits};
use crate::selector::{
    element_models, ElementModel, Selector, SelectorElement, SelectorModel,
};
use crate::stylesheet::style_rule::{
    distinct_names, rule_models, StyleRule, StyleRuleModel,
};

verus! {

/// What the tokens before an identifier of a selector announced.
#[derive(Clone, Copy, Debug, PartialEq, Eq, Structural)]
pub enum Pending {
    /// Nothing: the identifier is a component.
    Nothing,
    /// A `.`: the identifier is a class.
    Class,
    /// A `:`: the identifier is a state.
    PseudoClass,
}

/// The element that an identifier stands for.
pub open spec fn named_element(pending: Pending, text: Seq<char>) -> ElementModel {
    match pending {
        Pending::Nothing => ElementModel::Component(text),
        Pending::Class => ElementModel::Class(text),
        Pending::PseudoClass => ElementModel::PseudoClass(text),
    }
}

/// A list of elements after a blank: with a `Child` at its end, unless it is
/// empty or ends with one already.
pub open spec fn after_blank(elements: Seq<ElementModel>) -> Seq<ElementModel> {
    if elements.len() > 0 && !(elements.last() is Child) {
        elements.push(ElementModel::Child)
    } else {
        elements
    }
}

/// What the end of a selector makes of the elements found: an error where
/// there is none or where a `.` or `:` is left without its identifier, else the
/// elements without a `Child` at their end.
pub open spec fn at_end(pending: Pending, elements: Seq<ElementModel>) -> Result<
    Seq<ElementModel>,
    ErrorModel,
> {
    if !(pending is Nothing) || elements.len() == 0 {
        Err(ErrorModel::InvalidSelector)
    } else if elements.last() is Child {
        Ok(elements.drop_last())
    } else {
        Ok(elements)
    }
}

/// The elements of the selector that the tokens `tokens[i..to]` stand for,
/// after `elements`, or the error that makes them no selector.
///
/// An identifier is a component, after a `.` a class and after a `:` a state;
/// a `#` with an identifier is a name; blanks between two elements are one
/// `Child`; comments are passed over. A `.` or `:` must be followed by its
/// identifier at once. Any other token is an error that carries its text.
pub open spec fn selector_elements(
    tokens: Seq<TokenModel>,
    i: int,
    to: int,
    pending: Pending,
    elements: Seq<ElementModel>,
) -> Result<Seq<ElementModel>, ErrorModel>
    decreases to - i,
{
    if i < 0 || i >= to || to > tokens.len() {
        at_end(pending, elements)
    } else {
        let token = tokens[i];
        match token.kind {
            KindModel::Comment => selector_elements(tokens, i + 1, to, pending, elements),
            KindModel::Ident(text) => selector_elements(
                tokens,
                i + 1,
                to,
                Pending::Nothing,
                elements.push(named_element(pending, text)),
            ),
            KindModel::IDHash(text) => if !(pending is Nothing) {
                Err(ErrorModel::UnexpectedToken(token.source))
            } else if text.len() == 0 {
                Err(ErrorModel::InvalidSelector)
            } else {
                selector_elements(
                    tokens,
                    i + 1,
                    to,
                    pending,
                    elements.push(ElementModel::Name(text)),
                )
            },
            KindModel::WhiteSpace => if !(pending is Nothing) {
                Err(ErrorModel::UnexpectedToken(token.source))
            } else {
                selector_elements(tokens, i + 1, to, pending, after_blank(elements))
            },
            KindModel::Delim(c) => if pending is Nothing && c == '.' {
                selector_elements(tokens, i + 1, to, Pending::Class, elements)
            } else {
                Err(ErrorModel::UnexpectedToken(token.source))
            },
            KindModel::Colon => if pending is Nothing {
                selector_elements(tokens, i + 1, to, Pending::PseudoClass, elements)
            } else {
                Err(ErrorModel::UnexpectedToken(token.source))
            },
            _ => Err(ErrorModel::UnexpectedToken(token.source)),
        }
    }
}

/// Whether a list of elements does not start with a `Child` and never holds
/// two in a row.
pub open spec fn linked(elements: Seq<ElementModel>) -> bool {
    &&& elements.len() > 0 ==> !(elements.first() is Child)
    &&& forall|k: int|
        0 <= k < elements.len() - 1 ==> !(#[trigger] elements[k] is Child && elements[k + 1] is Child)
}

/// The selector that a run of tokens stands for is well formed: it has an
/// element, neither starts nor ends with a `Child`, and holds no two in a row.
pub proof fn lemma_selector_well_formed(
    tokens: Seq<TokenModel>,
    i: int,
    to: int,
    pending: Pending,
    elements: Seq<ElementModel>,
)
    requires
        linked(elements),
    ensures
        match selector_elements(tokens, i, to, pending, elements) {
            Ok(found) => (SelectorModel { elements: found, load_order: 0 }).well_formed(),
            Err(_) => true,
        },
    decreases to - i,
{
    if i < 0 || i >= to || to > tokens.len() {
        if pending is Nothing && elements.len() > 0 && elements.last() is Child {
            let found = elements.drop_last();
            if elements.len() == 1 {
                assert(elements.first() is Child);
            }
            assert(elements[elements.len() - 2] == found.last());
            assert(!(elements[elements.len() - 2] is Child && elements[elements.len() - 2 + 1]
                is Child));
            assert forall|k: int| 0 <= k < found.len() - 1 implies !(#[trigger] found[k] is Child
                && found[k + 1] is Child) by {
                assert(!(elements[k] is Child && elements[k + 1] is Child));
            }
        }
    } else {
        let token = tokens[i];
        match token.kind {
            KindModel::Comment => lemma_selector_well_formed(tokens, i + 1, to, pending, elements),
            KindModel::Ident(text) => {
                let next = elements.push(named_element(pending, text));
                assert forall|k: int| 0 <= k < next.len() - 1 implies !(#[trigger] next[k] is Child
                    && next[k + 1] is Child) by {
                    if k < elements.len() - 1 {
                        assert(!(elements[k] is Child && elements[k + 1] is Child));
                    }
                }
                lemma_selector_well_formed(tokens, i + 1, to, Pending::Nothing, next);
            },
            KindModel::IDHash(text) => {
                let next = elements.push(ElementModel::Name(text));
                assert forall|k: int| 0 <= k < next.len() - 1 implies !(#[trigger] next[k] is Child
                    && next[k + 1] is Child) by {
                    if k < elements.len() - 1 {
                        assert(!(elements[k] is Child && elements[k + 1] is Child));
                    }
                }
                lemma_selector_well_formed(tokens, i + 1, to, pending, next);
            },
            KindModel::WhiteSpace => {
                let next = after_blank(elements);
                assert forall|k: int| 0 <= k < next.len() - 1 implies !(#[trigger] next[k] is Child
                    && next[k + 1] is Child) by {
                    if k < elements.len() - 1 {
                        assert(!(elements[k] is Child && elements[k + 1] is Child));
                    }
                }
                lemma_selector_well_formed(tokens, i + 1, to, pending, next);
            },
            KindModel::Delim(c) => {
                lemma_selector_well_formed(tokens, i + 1, to, Pending::Class, elements);
            },
            KindModel::Colon => {
                lemma_selector_well_formed(tokens, i + 1, to, Pending::PseudoClass, elements);
            },
            _ => {},
        }
    }
}

/// Why a rule of a style sheet was left out.
#[derive(Debug, Clone, PartialEq, Eq)]
pub enum RuleErrorKind {
    /// The selector of the rule is none.
    Rule(BevyCssError),
    /// The rule is an at-rule, of which none is supported.
    AtRule(String),
    /// The text ended before the block of the rule began.
    EndOfInput,
}

/// What a [`RuleErrorKind`] holds.
pub enum RuleErrorKindModel {
    Rule(ErrorModel),
    AtRule(Seq<char>),
    EndOfInput,
}

impl View for RuleErrorKind {
    type V = RuleErrorKindModel;

    open spec fn view(&self) -> RuleErrorKindModel {
        match self {
            RuleErrorKind::Rule(e) => RuleErrorKindModel::Rule(e@),
            RuleErrorKind::AtRule(name) => RuleErrorKindModel::AtRule(name@),
            RuleErrorKind::EndOfInput => RuleErrorKindModel::EndOfInput,
        }
    }
}

impl RuleErrorKindModel {
    /// The line that a reader of a log sees for this error.
    pub open spec fn message(self) -> Seq<char> {
        match self {
            RuleErrorKindModel::Rule(e) => e.message(),
            RuleErrorKindModel::AtRule(name) => "At rule isn't supported "@ + name,
            RuleErrorKindModel::EndOfInput => "End of input"@,
        }
    }
}

/// A rule of a style sheet that was left out: why, the text of the rule, and
/// where the rule starts. Lines and columns are counted from 0.
#[derive(Debug, Clone, PartialEq, Eq)]
pub struct RuleError {
    pub kind: RuleErrorKind,
    pub rule: String,
    pub line: usize,
    pub column: usize,
}

/// What a [`RuleError`] holds.
pub struct RuleErrorModel {
    pub kind: RuleErrorKindModel,
    pub rule: Seq<char>,
    pub line: nat,
    pub column: nat,
}

impl View for RuleError {
    type V = RuleErrorModel;

    open spec fn view(&self) -> RuleErrorModel {
        RuleErrorModel {
            kind: self.kind@,
            rule: self.rule@,
            line: self.line as nat,
            column: self.column as nat,
        }
    }
}

impl RuleErrorModel {
    /// The line that a reader of a log sees for this error: what went wrong,
    /// and the line and the column at which the rule starts, counted from 1.
    pub open spec fn message(self) -> Seq<char> {
        self.kind.message() + " at "@ + digits(self.line + 1) + ":"@ + digits(self.column + 1)
    }
}

/// The errors of a list, each by what it holds.
pub open spec fn rule_error_models(errors: Seq<RuleError>) -> Seq<RuleErrorModel> {
    errors.map_values(|e: RuleError| e@)
}

/// The text of the tokens `tokens[from..to]`.
pub open spec fn joined(tokens: Seq<TokenModel>, from: int, to: int) -> Seq<char>
    decreases to - from,
{
    if from < 0 || from >= to || to > tokens.len() {
        Seq::empty()
    } else {
        joined(tokens, from, to - 1) + tokens[to - 1].source
    }
}

/// The error of a rule that takes the tokens `tokens[start..next]`.
pub open spec fn rule_error(
    tokens: Seq<TokenModel>,
    start: int,
    next: int,
    kind: RuleErrorKindModel,
) -> RuleErrorModel {
    RuleErrorModel {
        kind,
        rule: joined(tokens, start, next),
        line: lines_in(joined(tokens, 0, start)),
        column: column_in(joined(tokens, 0, start)),
    }
}

/// The error as a line of text.
pub fn format_error(error: &RuleError) -> (text: String)
    ensures
        text@ == error@.message(),
{
    let mut text = match &error.kind {
        RuleErrorKind::Rule(e) => e.message(),
        RuleErrorKind::AtRule(name) => String::from_str("At rule isn't supported ").concat(
            name.as_str(),
        ),
        RuleErrorKind::EndOfInput => String::from_str("End of input"),
    };
    text.append(" at ");
    push_digits(&mut text, error.line as u128 + 1);
    text.append(":");
    push_digits(&mut text, error.column as u128 + 1);
    text
}

/// Puts the texts of the tokens `tokens[from..to]` together.
pub fn join_sources(tokens: &Vec<CssToken>, from: usize, to: usize) -> (text: String)
    requires
        from <= to <= tokens.len(),
    ensures
        text@ == joined(token_models(tokens@), from as int, to as int),
{
    let ghost models = token_models(tokens@);
    let mut text = String::new();
    let mut k: usize = from;
    while k < to
        invariant
            from <= k <= to <= tokens.len(),
            models == token_models(tokens@),
            text@ == joined(models, from as int, k as int),
        decreases to - k,
    {
        assert(models[k as int] == tokens@[k as int]@);
        text.append(tokens[k].source.as_str());
        k += 1;
    }
    text
}

/// Makes the error of a rule that takes the tokens `tokens[start..next]`.
pub fn make_error(tokens: &Vec<CssToken>, start: usize, next: usize, kind: RuleErrorKind) -> (error:
    RuleError)
    requires
        start <= next <= tokens.len(),
    ensures
        error@ == rule_error(token_models(tokens@), start as int, next as int, kind@),
{
    let before = join_sources(tokens, 0, start);
    let place = place_behind(before.as_str());
    RuleError { kind, rule: join_sources(tokens, start, next), line: place.0, column: place.1 }
}

/// The rules of a style sheet and the errors of the rules that were left
/// out, each in the order of the text.
pub struct ParsedModel {
    pub rules: Seq<StyleRuleModel>,
    pub errors: Seq<RuleErrorModel>,
}

/// What the tokens from `i` on add to `parsed`. `order` counts the rules
/// found before `i`.
///
/// Between rules, blanks, comments, `<!--` and `-->` are passed over. A rule
/// is a selector, up to the first `{` outside of any block, and the block that
/// the `{` opens, up to the `}` that closes it or to the end. A rule whose
/// selector is none is left out with that error, and so is an at-rule, to the end
/// of its `;` or block; the rules after it are parsed as if it were not there.
pub open spec fn rules_from(tokens: Seq<TokenModel>, i: int, order: nat, parsed: ParsedModel) -> ParsedModel
    decreases tokens.len() - i,
{
    let to = tokens.len() as int;
    if i < 0 || i >= to {
        parsed
    } else {
        let start = skip_trivia(tokens, i, to, true);
        if start < i || start >= to {
            parsed
        } else if tokens[start].kind is AtKeyword {
            let stop = next_stop(tokens, start + 1, to, Seq::empty(), true, true);
            let next = after_stop(tokens, stop, to);
            let found = ParsedModel {
                rules: parsed.rules,
                errors: parsed.errors.push(
                    rule_error(
                        tokens,
                        start,
                        next,
                        RuleErrorKindModel::AtRule(tokens[start].kind->AtKeyword_0),
                    ),
                ),
            };
            if start < next <= to {
                rules_from(tokens, next, order, found)
            } else {
                found
            }
        } else {
            let stop = next_stop(tokens, start, to, Seq::empty(), true, false);
            if stop < start || stop >= to {
                ParsedModel {
                    rules: parsed.rules,
                    errors: parsed.errors.push(
                        rule_error(tokens, start, to, RuleErrorKindModel::EndOfInput),
                    ),
                }
            } else {
                let close = block_close(tokens, stop + 1, to, seq![Bracket::Curly]);
                let next = if close < to {
                    close + 1
                } else {
                    to
                };
                match selector_elements(tokens, start, stop, Pending::Nothing, Seq::empty()) {
                    Ok(elements) => {
                        let rule = StyleRuleModel {
                            selector: SelectorModel { elements, load_order: order + 1 },
                            properties: declarations(tokens, stop + 1, close, Seq::empty()),
                        };
                        let found = ParsedModel {
                            rules: parsed.rules.push(rule),
                            errors: parsed.errors,
                        };
                        if stop < next <= to {
                            rules_from(tokens, next, order + 1, found)
                        } else {
                            found
                        }
                    },
                    Err(error) => {
                        let found = ParsedModel {
                            rules: parsed.rules,
                            errors: parsed.errors.push(
                                rule_error(tokens, start, next, RuleErrorKindModel::Rule(error)),
                            ),
                        };
                        if stop < next <= to {
                            rules_from(tokens, next, order, found)
                        } else {
                            found
                        }
                    },
                }
            }
        }
    }
}

/// The rules and errors of a list of tokens.
pub open spec fn rules_of(tokens: Seq<TokenModel>) -> ParsedModel {
    rules_from(tokens, 0, 0, ParsedModel { rules: Seq::empty(), errors: Seq::empty() })
}

/// The rules and errors of a text.
pub open spec fn parsed(text: Seq<char>) -> ParsedModel {
    rules_of(tokens_of(text))
}

/// Parsing a text twice gives the same rules and the same errors.
pub proof fn lemma_parse_again(first: Seq<char>, second: Seq<char>)
    requires
        first == second,
    ensures
        parsed(first).rules == parsed(second).rules,
        parsed(first).errors == parsed(second).errors,
{
}

/// The rules found before stay, and the rules found do not depend on the
/// errors collected.
pub proof fn lemma_rules_from(
    tokens: Seq<TokenModel>,
    i: int,
    order: nat,
    parsed: ParsedModel,
    errors: Seq<RuleErrorModel>,
)
    ensures
        parsed.rules.len() <= rules_from(tokens, i, order, parsed).rules.len(),
        rules_from(tokens, i, order, parsed).rules.take(parsed.rules.len() as int)
            == parsed.rules,
        rules_from(tokens, i, order, ParsedModel { rules: parsed.rules, errors }).rules
            == rules_from(tokens, i, order, parsed).rules,
    decreases tokens.len() - i,
{
    let to = tokens.len() as int;
    assert(parsed.rules.take(parsed.rules.len() as int) =~= parsed.rules);
    if !(i < 0 || i >= to) {
        let start = skip_trivia(tokens, i, to, true);
        if start < i || start >= to {
        } else if tokens[start].kind is AtKeyword {
            let stop = next_stop(tokens, start + 1, to, Seq::empty(), true, true);
            let next = after_stop(tokens, stop, to);
            let error = rule_error(
                tokens,
                start,
                next,
                RuleErrorKindModel::AtRule(tokens[start].kind->AtKeyword_0),
            );
            if start < next <= to {
                lemma_rules_from(
                    tokens,
                    next,
                    order,
                    ParsedModel { rules: parsed.rules, errors: parsed.errors.push(error) },
                    errors.push(error),
                );
            }
        } else {
            let stop = next_stop(tokens, start, to, Seq::empty(), true, false);
            if !(stop < start || stop >= to) {
                let close = block_close(tokens, stop + 1, to, seq![Bracket::Curly]);
                let next = if close < to {
                    close + 1
                } else {
                    to
                };
                match selector_elements(tokens, start, stop, Pending::Nothing, Seq::empty()) {
                    Ok(elements) => {
                        let rule = StyleRuleModel {
                            selector: SelectorModel { elements, load_order: order + 1 },
                            properties: declarations(tokens, stop + 1, close, Seq::empty()),
                        };
                        let found = ParsedModel {
                            rules: parsed.rules.push(rule),
                            errors: parsed.errors,
                        };
                        assert(found.rules.take(parsed.rules.len() as int) =~= parsed.rules);
                        if stop < next <= to {
                            lemma_rules_from(tokens, next, order + 1, found, errors);
                            assert(rules_from(tokens, next, order + 1, found).rules.take(
                                parsed.rules.len() as int,
                            ) =~= rules_from(tokens, next, order + 1, found).rules.take(
                                found.rules.len() as int,
                            ).take(parsed.rules.len() as int));
                        }
                    },
                    Err(error) => {
                        let error = rule_error(
                            tokens,
                            start,
                            next,
                            RuleErrorKindModel::Rule(error),
                        );
                        if stop < next <= to {
                            lemma_rules_from(
                                tokens,
                                next,
                                order,
                                ParsedModel {
                                    rules: parsed.rules,
                                    errors: parsed.errors.push(error),
                                },
                                errors.push(error),
                            );
                        }
                    },
                }
            }
        }
    }
}

/// A rule whose selector is none stands for nothing: the rules are those
/// that are found from behind its block on, as if the rule were not there. The
/// rules found before it stay, and the rules after it are numbered as if it were
/// not there.
pub proof fn lemma_malformed_rule_is_left_out(
    tokens: Seq<TokenModel>,
    i: int,
    order: nat,
    parsed: ParsedModel,
)
    requires
        0 <= i < tokens.len(),
        skip_trivia(tokens, i, tokens.len() as int, true) < tokens.len(),
        !(tokens[skip_trivia(tokens, i, tokens.len() as int, true)].kind is AtKeyword),
        next_stop(
            tokens,
            skip_trivia(tokens, i, tokens.len() as int, true),
            tokens.len() as int,
            Seq::empty(),
            true,
            false,
        ) < tokens.len(),
        selector_elements(
            tokens,
            skip_trivia(tokens, i, tokens.len() as int, true),
            next_stop(
                tokens,
                skip_trivia(tokens, i, tokens.len() as int, true),
                tokens.len() as int,
                Seq::empty(),
                true,
                false,
            ),
            Pending::Nothing,
            Seq::empty(),
        ) is Err,
    ensures
        rules_from(tokens, i, order, parsed).rules == rules_from(
            tokens,
            after_stop(
                tokens,
                next_stop(
                    tokens,
                    skip_trivia(tokens, i, tokens.len() as int, true),
                    tokens.len() as int,
                    Seq::empty(),
                    true,
                    false,
                ),
                tokens.len() as int,
            ),
            order,
            parsed,
        ).rules,
{
    let to = tokens.len() as int;
    let start = skip_trivia(tokens, i, to, true);
    lemma_search_bounds(tokens, i, to, Seq::empty(), true, false, true);
    lemma_search_bounds(tokens, start, to, Seq::empty(), true, false, true);
    let stop = next_stop(tokens, start, to, Seq::empty(), true, false);
    lemma_search_bounds(tokens, stop + 1, to, seq![Bracket::Curly], true, false, true);
    let close = block_close(tokens, stop + 1, to, seq![Bracket::Curly]);
    let next = after_stop(tokens, stop, to);
    let error = rule_error(
        tokens,
        start,
        next,
        RuleErrorKindModel::Rule(
            selector_elements(tokens, start, stop, Pending::Nothing, Seq::empty())->Err_0,
        ),
    );
    let found = ParsedModel { rules: parsed.rules, errors: parsed.errors.push(error) };
    assert(tokens[stop].kind is CurlyBracketBlock);
    lemma_rules_from(tokens, next, order, parsed, found.errors);
}

/// Whether every rule of a list has a well-formed selector and declares no
/// name twice.
pub open spec fn rules_sound(rules: Seq<StyleRule>) -> bool {
    forall|k: int|
        0 <= k < rules.len() ==> {
            &&& (#[trigger] rules[k])@.selector.well_formed()
            &&& distinct_names(rules[k]@.properties)
        }
}

/// Parses the text of a style sheet into its rules.
pub struct StyleSheetParser;

impl StyleSheetParser {
    /// Parses a text into the rules of a style sheet. A rule that cannot be
    /// parsed is left out, and the rules after it are parsed none the less.
    pub fn parse(content: &str) -> (rules: Vec<StyleRule>)
        ensures
            rule_models(rules@) == parsed(content@).rules,
            rules_sound(rules@),
    {
        let (rules, _errors) = StyleSheetParser::parse_with_errors(content);
        rules
    }

    /// Parses a text into the rules of a style sheet, and gives the errors of
    /// the rules that were left out.
    pub fn parse_with_errors(content: &str) -> (result: (Vec<StyleRule>, Vec<RuleError>))
        ensures
            rule_models(result.0@) == parsed(content@).rules,
            rule_error_models(result.1@) == parsed(content@).errors,
            rules_sound(result.0@),
    {
        let tokens = tokenize(content);
        StyleSheetParser::parse_tokens(&tokens)
    }

    /// Parses a list of tokens into the rules of a style sheet, and gives the
    /// errors of the rules that were left out.
    pub fn parse_tokens(tokens: &Vec<CssToken>) -> (result: (Vec<StyleRule>, Vec<RuleError>))
        ensures
            rule_models(result.0@) == rules_of(token_models(tokens@)).rules,
            rule_error_models(result.1@) == rules_of(token_models(tokens@)).errors,
            rules_sound(result.0@),
    {
        let ghost models = token_models(tokens@);
        let to = tokens.len();
        let mut rules: Vec<StyleRule> = Vec::new();
        let mut errors: Vec<RuleError> = Vec::new();
        let mut order: usize = 0;
        let mut i: usize = 0;
        proof {
            assert(rule_models(rules@) =~= Seq::empty());
            assert(rule_error_models(errors@) =~= Seq::empty());
        }
        while i < to
            invariant
                i <= to,
                to == tokens.len(),
                order <= i,
                models == token_models(tokens@),
                rules_sound(rules@),
                rules_from(
                    models,
                    i as int,
                    order as nat,
                    ParsedModel {
                        rules: rule_models(rules@),
                        errors: rule_error_models(errors@),
                    },
                ) == rules_of(models),
            decreases to - i,
        {
            let ghost old_rules = rule_models(rules@);
            let ghost old_errors = rule_error_models(errors@);
            let start = find_skip_trivia(tokens, i, to, true);
            if start >= to {
                i = to;
                continue ;
            }
            assert(models[start as int] == tokens@[start as int]@);
            match &tokens[start].kind {
                TokenKind::AtKeyword(name) => {
                    let stop = find_next_stop(tokens, start + 1, to, true, true);
                    let next = find_after_stop(tokens, stop, to);
                    let error = make_error(tokens, start, next, RuleErrorKind::AtRule(name.clone()));
                    errors.push(error);
                    proof {
                        assert(rule_error_models(errors@) =~= old_errors.push(error@));
                    }
                    i = next;
                },
                _ => {
                    let stop = find_next_stop(tokens, start, to, true, false);
                    if stop >= to {
                        let error = make_error(tokens, start, to, RuleErrorKind::EndOfInput);
                        errors.push(error);
                        proof {
                            assert(rule_error_models(errors@) =~= old_errors.push(error@));
                        }
                        i = to;
                    } else {
                        let close = find_block_close(tokens, stop + 1, to, Bracket::Curly);
                        let next = if close < to {
                            close + 1
                        } else {
                            to
                        };
                        match StyleSheetParser::parse_prelude(tokens, start, stop, order + 1) {
                            Ok(selector) => {
                                let rule = StyleSheetParser::parse_block(
                                    selector,
                                    tokens,
                                    stop + 1,
                                    close,
                                );
                                proof {
                                    assert(rule@.selector == (SelectorModel {
                                        elements: rule@.selector.elements,
                                        load_order: (order + 1) as nat,
                                    }));
                                }
                                rules.push(rule);
                                proof {
                                    assert(rule_models(rules@) =~= old_rules.push(rule@));
                                }
                                order = order + 1;
                            },
                            Err(e) => {
                                let error = make_error(tokens, start, next, RuleErrorKind::Rule(e));
                                errors.push(error);
                                proof {
                                    assert(rule_error_models(errors@) =~= old_errors.push(error@));
                                }
                            },
                        }
                        i = next;
                    }
                },
            }
        }
        (rules, errors)
    }

    /// Parses the tokens `tokens[from..to]`, what stands before the block of a
    /// rule, into the selector of the rule, which is the `load_order`-th of its
    /// sheet.
    pub fn parse_prelude(tokens: &Vec<CssToken>, from: usize, to: usize, load_order: usize) -> (result:
        Result<Selector, BevyCssError>)
        requires
            from <= to <= tokens.len(),
        ensures
            match result {
                Ok(selector) => {
                    &&& selector_elements(
                        token_models(tokens@),
                        from as int,
                        to as int,
                        Pending::Nothing,
                        Seq::empty(),
                    ) == Ok::<Seq<ElementModel>, ErrorModel>(selector@.elements)
                    &&& selector@.load_order == load_order
                    &&& selector@.well_formed()
                },
                Err(error) => selector_elements(
                    token_models(tokens@),
                    from as int,
                    to as int,
                    Pending::Nothing,
                    Seq::empty(),
                ) == Err::<Seq<ElementModel>, ErrorModel>(error@),
            },
    {
        let ghost models = token_models(tokens@);
        let ghost goal = selector_elements(
            models,
            from as int,
            to as int,
            Pending::Nothing,
            Seq::empty(),
        );
        let mut elements: Vec<SelectorElement> = Vec::new();
        let mut pending = Pending::Nothing;
        let mut i: usize = from;
        proof {
            assert(element_models(elements@) =~= Seq::empty());
            lemma_selector_well_formed(
                models,
                from as int,
                to as int,
                Pending::Nothing,
                Seq::empty(),
            );
        }
        while i < to
            invariant
                from <= i <= to <= tokens.len(),
                models == token_models(tokens@),
                goal == selector_elements(
                    models,
                    from as int,
                    to as int,
                    Pending::Nothing,
                    Seq::empty(),
                ),
                selector_elements(models, i as int, to as int, pending, element_models(elements@))
                    == goal,
            decreases to - i,
        {
            assert(models[i as int] == tokens@[i as int]@);
            let token = &tokens[i];
            let ghost before = element_models(elements@);
            match &token.kind {
                TokenKind::Comment => {},
                TokenKind::Ident(text) => {
                    let element = match pending {
                        Pending::Nothing => SelectorElement::Component(text.clone()),
                        Pending::Class => SelectorElement::Class(text.clone()),
                        Pending::PseudoClass => SelectorElement::PseudoClass(text.clone()),
                    };
                    elements.push(element);
                    proof {
                        assert(element_models(elements@) =~= before.push(element@));
                    }
                    pending = Pending::Nothing;
                },
                TokenKind::IDHash(text) => {
                    if pending != Pending::Nothing {
                        return Err(BevyCssError::UnexpectedToken(token.source.clone()));
                    }
                    if text.as_str().unicode_len() == 0 {
                        return Err(BevyCssError::InvalidSelector);
                    }
                    let element = SelectorElement::Name(text.clone());
                    elements.push(element);
                    proof {
                        assert(element_models(elements@) =~= before.push(element@));
                    }
                },
                TokenKind::WhiteSpace => {
                    if pending != Pending::Nothing {
                        return Err(BevyCssError::UnexpectedToken(token.source.clone()));
                    }
                    let n = elements.len();
                    if n > 0 && !elements[n - 1].is_child() {
                        elements.push(SelectorElement::Child);
                        proof {
                            assert(before.last() == elements@[n - 1]@);
                            assert(element_models(elements@) =~= before.push(ElementModel::Child));
                        }
                    } else {
                        proof {
                            if n > 0 {
                                assert(before.last() == elements@[n - 1]@);
                            }
                        }
                    }
                },
                TokenKind::Delim(c) => {
                    if pending == Pending::Nothing && *c == '.' {
                        pending = Pending::Class;
                    } else {
                        return Err(BevyCssError::UnexpectedToken(token.source.clone()));
                    }
                },
                TokenKind::Colon => {
                    if pending == Pending::Nothing {
                        pending = Pending::PseudoClass;
                    } else {
                        return Err(BevyCssError::UnexpectedToken(token.source.clone()));
                    }
                },
                _ => {
                    return Err(BevyCssError::UnexpectedToken(token.source.clone()));
                },
            }
            i += 1;
        }
        let n = elements.len();
        if pending != Pending::Nothing || n == 0 {
            return Err(BevyCssError::InvalidSelector);
        }
        let ghost before = element_models(elements@);
        assert(before.last() == elements@[n - 1]@);
        if elements[n - 1].is_child() {
            elements.pop();
            proof {
                assert(element_models(elements@) =~= before.drop_last());
            }
        }
        Ok(Selector::new(elements, load_order))
    }

    /// Parses the tokens `tokens[from..to]`, the inside of the block of a rule,
    /// into the rule of the selector `prelude`.
    pub fn parse_block(prelude: Selector, tokens: &Vec<CssToken>, from: usize, to: usize) -> (rule:
        StyleRule)
        requires
            from <= to <= tokens.len(),
        ensures
            rule.selector == prelude,
            rule@.properties == declarations(
                token_models(tokens@),
                from as int,
                to as int,
                Seq::empty(),
            ),
            distinct_names(rule@.properties),
    {
        let mut rule = StyleRule::new(prelude);
        proof {
            super::property_parser::lemma_declarations_distinct(
                token_models(tokens@),
                from as int,
                to as int,
                Seq::empty(),
            );
        }
        PropertyParser::parse_declarations(&mut rule.properties, tokens, from, to);
        rule
    }
}

} // verus!
