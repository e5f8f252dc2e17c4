//! The rules of lists of tokens that stand one behind the other: a rule that
//! is left out takes nothing from the rules before it and after it.

use vstd::prelude::*;

use super::blocks::{block_close, lemma_search_bounds, next_stop, skip_trivia, Bracket};
use super::property_parser::{after_stop, declarations};
use super::runs::{
    lemma_after_stop_same_run, lemma_close_further, lemma_close_same_run,
    lemma_declarations_same_run, lemma_same_run_back, lemma_same_run_front,
    lemma_selector_same_run, lemma_skip_further, lemma_skip_same_run, lemma_stop_further,
    lemma_stop_same_run,
};
use super::style_sheet_parser::{
    lemma_rules_from, parsed, rule_error, rules_from, rules_of, selector_elements, ParsedModel,
    Pending, RuleErrorKindModel,
};
use super::tokenizer::{tokens_of, TokenModel};
use crate::selector::{ElementModel, SelectorModel};
use crate::stylesheet::style_rule::{DeclarationModel, StyleRuleModel};

verus! {

/// What a rule says: the elements of its selector and its declarations.
pub struct RuleBody {
    pub elements: Seq<ElementModel>,
    pub properties: Seq<DeclarationModel>,
}

/// What the first rule of a list of tokens comes to.
pub struct RuleStep {
    /// Where the search for the next rule goes on.
    pub next: int,
    /// What the rule says; nothing where the rule is left out.
    pub rule: Option<RuleBody>,
    /// Whether the rule ends before the list does: a rule with its block
    /// closed, an at-rule with its `;` or its block closed.
    pub closed: bool,
}

/// The first rule from `i` on, if there is one.
pub open spec fn first_rule(tokens: Seq<TokenModel>, i: int) -> Option<RuleStep> {
    let to = tokens.len() as int;
    if i < 0 || i >= to {
        None
    } else {
        let start = skip_trivia(tokens, i, to, true);
        if start < i || start >= to {
            None
        } else if tokens[start].kind is AtKeyword {
            let stop = next_stop(tokens, start + 1, to, Seq::empty(), true, true);
            Some(
                RuleStep {
                    next: after_stop(tokens, stop, to),
                    rule: None,
                    closed: stop < to && (tokens[stop].kind is CurlyBracketBlock ==> block_close(
                        tokens,
                        stop + 1,
                        to,
                        seq![Bracket::Curly],
                    ) < to),
                },
            )
        } else {
            let stop = next_stop(tokens, start, to, Seq::empty(), true, false);
            if stop < start || stop >= to {
                Some(RuleStep { next: to, rule: None, closed: false })
            } else {
                let close = block_close(tokens, stop + 1, to, seq![Bracket::Curly]);
                Some(
                    RuleStep {
                        next: if close < to {
                            close + 1
                        } else {
                            to
                        },
                        rule: match selector_elements(
                            tokens,
                            start,
                            stop,
                            Pending::Nothing,
                            Seq::empty(),
                        ) {
                            Ok(elements) => Some(
                                RuleBody {
                                    elements,
                                    properties: declarations(tokens, stop + 1, close, Seq::empty()),
                                },
                            ),
                            Err(_) => None,
                        },
                        closed: close < to,
                    },
                )
            }
        }
    }
}

/// A rule as the `order`-th of its sheet.
pub open spec fn numbered(body: RuleBody, order: nat) -> StyleRuleModel {
    StyleRuleModel {
        selector: SelectorModel { elements: body.elements, load_order: order },
        properties: body.properties,
    }
}

/// The rules from `i` on, where `order` rules were found before.
pub open spec fn rules_after(tokens: Seq<TokenModel>, i: int, order: nat) -> Seq<StyleRuleModel> {
    rules_from(tokens, i, order, ParsedModel { rules: Seq::empty(), errors: Seq::empty() }).rules
}

/// The rules from `i` on, by the first of them and the rules after it.
pub open spec fn first_and_rest(tokens: Seq<TokenModel>, i: int, order: nat) -> Seq<
    StyleRuleModel,
> {
    match first_rule(tokens, i) {
        None => Seq::empty(),
        Some(found) => match found.rule {
            None => rules_after(tokens, found.next, order),
            Some(body) => seq![numbered(body, order + 1)] + rules_after(
                tokens,
                found.next,
                order + 1,
            ),
        },
    }
}

/// The place where the search goes on after a rule lies behind the start of
/// the rule and in the list or at its end.
pub proof fn lemma_first_rule_goes_on(tokens: Seq<TokenModel>, i: int)
    requires
        first_rule(tokens, i) is Some,
    ensures
        i <= skip_trivia(tokens, i, tokens.len() as int, true) < first_rule(tokens, i)->0.next
            <= tokens.len(),
        next_stop(
            tokens,
            skip_trivia(tokens, i, tokens.len() as int, true),
            tokens.len() as int,
            Seq::empty(),
            true,
            false,
        ) < tokens.len() && !(tokens[skip_trivia(
            tokens,
            i,
            tokens.len() as int,
            true,
        )].kind is AtKeyword) ==> skip_trivia(tokens, i, tokens.len() as int, true) <= next_stop(
            tokens,
            skip_trivia(tokens, i, tokens.len() as int, true),
            tokens.len() as int,
            Seq::empty(),
            true,
            false,
        ) < first_rule(tokens, i)->0.next,
{
    let to = tokens.len() as int;
    lemma_search_bounds(tokens, i, to, Seq::empty(), true, true, true);
    let start = skip_trivia(tokens, i, to, true);
    lemma_search_bounds(tokens, start + 1, to, Seq::empty(), true, true, true);
    lemma_search_bounds(tokens, start, to, Seq::empty(), true, false, true);
    if tokens[start].kind is AtKeyword {
        let stop = next_stop(tokens, start + 1, to, Seq::empty(), true, true);
        if stop < to {
            lemma_search_bounds(tokens, stop + 1, to, seq![Bracket::Curly], true, true, true);
        }
    } else {
        let stop = next_stop(tokens, start, to, Seq::empty(), true, false);
        if stop < to {
            lemma_search_bounds(tokens, stop + 1, to, seq![Bracket::Curly], true, true, true);
        }
    }
}

/// The rules that the tokens from `i` on add stand behind those found
/// before: the first rule from `i` on, where it is not left out, and the rules
/// after it.
pub proof fn lemma_rules_behind(tokens: Seq<TokenModel>, i: int, order: nat, parsed: ParsedModel)
    ensures
        rules_from(tokens, i, order, parsed).rules == parsed.rules + first_and_rest(
            tokens,
            i,
            order,
        ),
        rules_after(tokens, i, order) == first_and_rest(tokens, i, order),
    decreases tokens.len() - i,
{
    let none = ParsedModel { rules: Seq::empty(), errors: Seq::empty() };
    let to = tokens.len() as int;
    match first_rule(tokens, i) {
        None => {
            assert(parsed.rules + Seq::<StyleRuleModel>::empty() =~= parsed.rules);
        },
        Some(found) => {
            lemma_first_rule_goes_on(tokens, i);
            let start = skip_trivia(tokens, i, to, true);
            let next = found.next;
            match found.rule {
                None => {
                    let stopped = !(tokens[start].kind is AtKeyword) && {
                        let stop = next_stop(tokens, start, to, Seq::empty(), true, false);
                        stop < start || stop >= to
                    };
                    if stopped {
                        assert(rules_after(tokens, to, order) =~= Seq::<StyleRuleModel>::empty());
                        assert(parsed.rules + Seq::<StyleRuleModel>::empty() =~= parsed.rules);
                    } else {
                        let error = if tokens[start].kind is AtKeyword {
                            rule_error(
                                tokens,
                                start,
                                next,
                                RuleErrorKindModel::AtRule(tokens[start].kind->AtKeyword_0),
                            )
                        } else {
                            let stop = next_stop(tokens, start, to, Seq::empty(), true, false);
                            rule_error(
                                tokens,
                                start,
                                next,
                                RuleErrorKindModel::Rule(
                                    selector_elements(
                                        tokens,
                                        start,
                                        stop,
                                        Pending::Nothing,
                                        Seq::empty(),
                                    )->Err_0,
                                ),
                            )
                        };
                        assert(rules_from(tokens, i, order, parsed) == rules_from(
                            tokens,
                            next,
                            order,
                            ParsedModel { rules: parsed.rules, errors: parsed.errors.push(error) },
                        ));
                        assert(rules_from(tokens, i, order, none) == rules_from(
                            tokens,
                            next,
                            order,
                            ParsedModel { rules: none.rules, errors: none.errors.push(error) },
                        ));
                        lemma_rules_from(tokens, next, order, parsed, parsed.errors.push(error));
                        lemma_rules_from(tokens, next, order, none, none.errors.push(error));
                        lemma_rules_behind(tokens, next, order, parsed);
                        lemma_rules_behind(tokens, next, order, none);
                        assert(none.rules + first_and_rest(tokens, next, order)
                            =~= first_and_rest(tokens, next, order));
                    }
                },
                Some(body) => {
                    let rule = numbered(body, order + 1);
                    lemma_rules_behind(
                        tokens,
                        next,
                        order + 1,
                        ParsedModel { rules: parsed.rules.push(rule), errors: parsed.errors },
                    );
                    lemma_rules_behind(
                        tokens,
                        next,
                        order + 1,
                        ParsedModel { rules: none.rules.push(rule), errors: none.errors },
                    );
                    let rest = first_and_rest(tokens, next, order + 1);
                    assert(parsed.rules.push(rule) + rest =~= parsed.rules + (seq![rule] + rest));
                    assert(none.rules.push(rule) + rest =~= seq![rule] + rest);
                },
            }
        },
    }
}

/// Whether the tokens from `i` on are rules of which none is left out and
/// each ends before the list does, with its block closed.
pub open spec fn all_rules(tokens: Seq<TokenModel>, i: int) -> bool
    decreases tokens.len() - i,
{
    match first_rule(tokens, i) {
        None => true,
        Some(found) => found.rule is Some && found.closed && i < found.next <= tokens.len()
            && all_rules(tokens, found.next),
    }
}

/// Whether a list of tokens is one rule that is left out, a rule whose
/// selector is none or an at-rule, which ends before the list does and has
/// nothing but blanks and comments behind it.
pub open spec fn is_left_out(tokens: Seq<TokenModel>) -> bool {
    match first_rule(tokens, 0) {
        None => false,
        Some(found) => found.rule is None && found.closed && skip_trivia(
            tokens,
            found.next,
            tokens.len() as int,
            true,
        ) >= tokens.len(),
    }
}

/// The rules of a list, each declared `by` rules later.
pub open spec fn later(rules: Seq<StyleRuleModel>, by: nat) -> Seq<StyleRuleModel> {
    Seq::new(
        rules.len(),
        |k: int|
            StyleRuleModel {
                selector: SelectorModel {
                    elements: rules[k].selector.elements,
                    load_order: rules[k].selector.load_order + by,
                },
                properties: rules[k].properties,
            },
    )
}

/// Where more rules were found before, the rules from `i` on are the same,
/// each declared so many rules later.
pub proof fn lemma_rules_later(tokens: Seq<TokenModel>, i: int, order: nat, by: nat)
    ensures
        rules_after(tokens, i, order + by) == later(rules_after(tokens, i, order), by),
    decreases tokens.len() - i,
{
    let none = ParsedModel { rules: Seq::empty(), errors: Seq::empty() };
    lemma_rules_behind(tokens, i, order, none);
    lemma_rules_behind(tokens, i, order + by, none);
    match first_rule(tokens, i) {
        None => {
            assert(rules_after(tokens, i, order + by) =~= later(rules_after(tokens, i, order), by));
        },
        Some(found) => {
            lemma_first_rule_goes_on(tokens, i);
            match found.rule {
                None => {
                    lemma_rules_later(tokens, found.next, order, by);
                },
                Some(body) => {
                    lemma_rules_later(tokens, found.next, order + 1, by);
                    assert(order + 1 + by == order + by + 1);
                    assert(rules_after(tokens, i, order + by) =~= later(
                        rules_after(tokens, i, order),
                        by,
                    ));
                },
            }
        },
    }
}

/// The first rule of a list that stands behind another is the first rule
/// of the list by itself, as many places further on as the other list is long.
pub proof fn lemma_first_rule_behind(front: Seq<TokenModel>, back: Seq<TokenModel>, i: int)
    requires
        0 <= i,
    ensures
        first_rule(front + back, front.len() + i) == match first_rule(back, i) {
            None => None::<RuleStep>,
            Some(found) => Some(
                RuleStep { next: found.next + front.len(), rule: found.rule, closed: found.closed },
            ),
        },
{
    let all = front + back;
    let by = front.len() as int;
    let to = back.len() as int;
    if i < to {
        lemma_same_run_back(front, back, i, to);
        lemma_skip_same_run(all, back, by, i, to, true);
        lemma_search_bounds(back, i, to, Seq::empty(), true, true, true);
        let start = skip_trivia(back, i, to, true);
        if start < to {
            assert(all[start + by] == back[start]);
            lemma_same_run_back(front, back, start, to);
            lemma_same_run_back(front, back, start + 1, to);
            lemma_search_bounds(back, start + 1, to, Seq::empty(), true, true, true);
            lemma_search_bounds(back, start, to, Seq::empty(), true, false, true);
            if back[start].kind is AtKeyword {
                lemma_stop_same_run(all, back, by, start + 1, to, Seq::empty(), true, true);
                let stop = next_stop(back, start + 1, to, Seq::empty(), true, true);
                lemma_after_stop_same_run(all, back, by, start + 1, stop, to);
                if stop < to {
                    assert(all[stop + by] == back[stop]);
                    lemma_same_run_back(front, back, stop + 1, to);
                    lemma_close_same_run(all, back, by, stop + 1, to, seq![Bracket::Curly]);
                }
            } else {
                lemma_stop_same_run(all, back, by, start, to, Seq::empty(), true, false);
                let stop = next_stop(back, start, to, Seq::empty(), true, false);
                if stop < to {
                    lemma_same_run_back(front, back, stop + 1, to);
                    lemma_close_same_run(all, back, by, stop + 1, to, seq![Bracket::Curly]);
                    lemma_search_bounds(back, stop + 1, to, seq![Bracket::Curly], true, true, true);
                    let close = block_close(back, stop + 1, to, seq![Bracket::Curly]);
                    lemma_same_run_back(front, back, start, stop);
                    lemma_selector_same_run(
                        all,
                        back,
                        by,
                        start,
                        stop,
                        Pending::Nothing,
                        Seq::empty(),
                    );
                    lemma_same_run_back(front, back, stop + 1, close);
                    lemma_declarations_same_run(all, back, by, stop + 1, close, Seq::empty());
                }
            }
        }
    }
}

/// The rules of a list that stands behind another are the rules of the
/// list by itself.
pub proof fn lemma_rules_behind_others(
    front: Seq<TokenModel>,
    back: Seq<TokenModel>,
    i: int,
    order: nat,
)
    requires
        0 <= i,
    ensures
        rules_after(front + back, front.len() + i, order) == rules_after(back, i, order),
    decreases back.len() - i,
{
    let none = ParsedModel { rules: Seq::empty(), errors: Seq::empty() };
    lemma_rules_behind(front + back, front.len() + i, order, none);
    lemma_rules_behind(back, i, order, none);
    lemma_first_rule_behind(front, back, i);
    match first_rule(back, i) {
        None => {},
        Some(found) => {
            lemma_first_rule_goes_on(back, i);
            match found.rule {
                None => {
                    lemma_rules_behind_others(front, back, found.next, order);
                },
                Some(body) => {
                    lemma_rules_behind_others(front, back, found.next, order + 1);
                },
            }
        },
    }
}

/// A first rule that ends before its list does is the first rule where the
/// list goes on with another.
pub proof fn lemma_first_rule_before(front: Seq<TokenModel>, back: Seq<TokenModel>, i: int)
    requires
        first_rule(front, i) is Some,
        first_rule(front, i)->0.closed,
    ensures
        first_rule(front + back, i) == first_rule(front, i),
{
    let all = front + back;
    let to = front.len() as int;
    let more = all.len() as int;
    lemma_same_run_front(front, back, i, to);
    lemma_skip_same_run(all, front, 0, i, to, true);
    lemma_skip_further(all, i, to, more, true);
    lemma_search_bounds(front, i, to, Seq::empty(), true, true, true);
    let start = skip_trivia(front, i, to, true);
    assert(all[start + 0] == front[start]);
    lemma_same_run_front(front, back, start, to);
    lemma_same_run_front(front, back, start + 1, to);
    lemma_search_bounds(front, start + 1, to, Seq::empty(), true, true, true);
    lemma_search_bounds(front, start, to, Seq::empty(), true, false, true);
    if front[start].kind is AtKeyword {
        lemma_stop_same_run(all, front, 0, start + 1, to, Seq::empty(), true, true);
        lemma_stop_further(all, start + 1, to, more, Seq::empty(), true, true);
        let stop = next_stop(front, start + 1, to, Seq::empty(), true, true);
        assert(all[stop + 0] == front[stop]);
        if front[stop].kind is CurlyBracketBlock {
            lemma_same_run_front(front, back, stop + 1, to);
            lemma_close_same_run(all, front, 0, stop + 1, to, seq![Bracket::Curly]);
            lemma_close_further(all, stop + 1, to, more, seq![Bracket::Curly]);
        }
    } else {
        lemma_stop_same_run(all, front, 0, start, to, Seq::empty(), true, false);
        let stop = next_stop(front, start, to, Seq::empty(), true, false);
        lemma_stop_further(all, start, to, more, Seq::empty(), true, false);
        lemma_same_run_front(front, back, stop + 1, to);
        lemma_close_same_run(all, front, 0, stop + 1, to, seq![Bracket::Curly]);
        lemma_close_further(all, stop + 1, to, more, seq![Bracket::Curly]);
        lemma_search_bounds(front, stop + 1, to, seq![Bracket::Curly], true, true, true);
        let close = block_close(front, stop + 1, to, seq![Bracket::Curly]);
        lemma_same_run_front(front, back, start, stop);
        lemma_selector_same_run(all, front, 0, start, stop, Pending::Nothing, Seq::empty());
        lemma_same_run_front(front, back, stop + 1, close);
        lemma_declarations_same_run(all, front, 0, stop + 1, close, Seq::empty());
    }
}

/// Where nothing but blanks and comments stands from `i` to the end of a
/// list, the rules from `i` on of the list with another behind it are the rules
/// from the end of the list on.
pub proof fn lemma_rules_behind_blanks(
    front: Seq<TokenModel>,
    back: Seq<TokenModel>,
    i: int,
    order: nat,
)
    requires
        0 <= i <= front.len(),
        skip_trivia(front, i, front.len() as int, true) >= front.len(),
    ensures
        rules_after(front + back, i, order) == rules_after(front + back, front.len() as int, order),
{
    let all = front + back;
    let to = front.len() as int;
    let more = all.len() as int;
    let none = ParsedModel { rules: Seq::empty(), errors: Seq::empty() };
    lemma_rules_behind(all, i, order, none);
    lemma_rules_behind(all, to, order, none);
    if i < to {
        lemma_same_run_front(front, back, i, to);
        lemma_skip_same_run(all, front, 0, i, to, true);
        lemma_skip_further(all, i, to, more, true);
        lemma_search_bounds(all, to, more, Seq::empty(), true, true, true);
        assert(first_rule(all, i) == first_rule(all, to));
    }
}

/// The rules of a list of rules with another list behind it are the rules
/// of the list, and behind them the rules that are found from the end of the
/// list on.
pub proof fn lemma_rules_before_others(
    front: Seq<TokenModel>,
    back: Seq<TokenModel>,
    i: int,
    order: nat,
)
    requires
        0 <= i <= front.len(),
        all_rules(front, i),
    ensures
        rules_after(front + back, i, order) == rules_after(front, i, order) + rules_after(
            front + back,
            front.len() as int,
            order + rules_after(front, i, order).len(),
        ),
    decreases front.len() - i,
{
    let all = front + back;
    let to = front.len() as int;
    let none = ParsedModel { rules: Seq::empty(), errors: Seq::empty() };
    lemma_rules_behind(all, i, order, none);
    lemma_rules_behind(front, i, order, none);
    match first_rule(front, i) {
        None => {
            if i < to {
                lemma_search_bounds(front, i, to, Seq::empty(), true, true, true);
                lemma_rules_behind_blanks(front, back, i, order);
            }
            assert(rules_after(front, i, order) + rules_after(all, to, order) =~= rules_after(
                all,
                to,
                order,
            ));
        },
        Some(found) => {
            lemma_first_rule_before(front, back, i);
            let body = found.rule->0;
            let rest = rules_after(front, found.next, order + 1);
            lemma_rules_before_others(front, back, found.next, order + 1);
            assert(rules_after(front, i, order) == seq![numbered(body, order + 1)] + rest);
            assert(order + rules_after(front, i, order).len() == order + 1 + rest.len());
            assert(rules_after(all, i, order) =~= rules_after(front, i, order) + rules_after(
                all,
                to,
                order + rules_after(front, i, order).len(),
            ));
        },
    }
}

/// The rules of a rule that is left out and a list behind it are the rules
/// of the list behind it.
pub proof fn lemma_rules_behind_left_out(
    left_out: Seq<TokenModel>,
    after: Seq<TokenModel>,
    order: nat,
)
    requires
        is_left_out(left_out),
    ensures
        rules_after(left_out + after, 0, order) == rules_after(after, 0, order),
{
    let none = ParsedModel { rules: Seq::empty(), errors: Seq::empty() };
    lemma_first_rule_before(left_out, after, 0);
    lemma_first_rule_goes_on(left_out, 0);
    lemma_rules_behind(left_out + after, 0, order, none);
    let found = first_rule(left_out, 0)->0;
    lemma_rules_behind_blanks(left_out, after, found.next, order);
    lemma_rules_behind_others(left_out, after, 0, order);
}

/// A rule that is left out takes nothing from the rules around it: the
/// rules of a list of well-formed rules, a rule that is left out, and any tokens
/// behind it are the rules of the first list, and behind them the rules of what
/// stands behind the rule that is left out, with the same selectors and the same
/// declarations, numbered on from the rules of the first list.
pub proof fn lemma_left_out_rule_between(
    before: Seq<TokenModel>,
    left_out: Seq<TokenModel>,
    after: Seq<TokenModel>,
)
    requires
        all_rules(before, 0),
        is_left_out(left_out),
    ensures
        rules_of(before + left_out + after).rules == rules_of(before).rules + later(
            rules_of(after).rules,
            rules_of(before).rules.len(),
        ),
{
    let behind = left_out + after;
    let all = before + behind;
    let count = rules_of(before).rules.len();
    assert(before + left_out + after =~= all);
    lemma_rules_before_others(before, behind, 0, 0);
    lemma_rules_behind_others(before, behind, 0, count);
    lemma_rules_behind_left_out(left_out, after, count);
    lemma_rules_later(after, 0, 0, count);
    assert(rules_after(all, 0, 0) == rules_after(before, 0, 0) + rules_after(
        all,
        before.len() as int,
        count,
    ));
    assert(rules_after(all, before.len() as int, count) == rules_after(after, 0, count));
}

/// The same of texts: where the tokens of a text are those of its three
/// parts, one behind the other, a part that is a rule which is left out takes
/// nothing from the rules of the part before it, which holds well-formed rules
/// only, and of the part after it. The tokens of a text are not those of its
/// parts where a token goes on from one part into the next, as a comment does
/// that the first part opens and does not close.
pub proof fn lemma_left_out_rule_between_texts(
    before: Seq<char>,
    left_out: Seq<char>,
    after: Seq<char>,
)
    requires
        tokens_of(before + left_out + after) == tokens_of(before) + tokens_of(left_out)
            + tokens_of(after),
        all_rules(tokens_of(before), 0),
        is_left_out(tokens_of(left_out)),
    ensures
        parsed(before + left_out + after).rules == parsed(before).rules + later(
            parsed(after).rules,
            parsed(before).rules.len(),
        ),
{
    lemma_left_out_rule_between(tokens_of(before), tokens_of(left_out), tokens_of(after));
}

} // verus!
