use vstd::prelude::*;

use super::style_rule::{rule_models, DeclarationModel, StyleRule, StyleRuleModel};
use crate::parser::style_sheet_parser::{
    parsed, rule_error_models, rules_sound, RuleError, StyleSheetParser,
};
use crate::property::property_token::PropertyTokenModel;
use crate::property::PropertyValues;
use crate::selector::{hash_of_text, text_hash, Selector};
use crate::stylesheet::style_rule::position_of;

verus! {

/// What a [`StyleSheetAsset`] holds.
pub struct StyleSheetModel {
    pub path: Seq<char>,
    pub hash: u64,
    pub rules: Seq<StyleRuleModel>,
}

/// The place in a list of the first rule whose selector has the content hash
/// `hash`, or the length of the list where there is none.
pub open spec fn rule_position(rules: Seq<StyleRuleModel>, hash: u64) -> int
    decreases rules.len(),
{
    if rules.len() == 0 {
        0
    } else if rules.first().selector.hash() == hash {
        0
    } else {
        1 + rule_position(rules.drop_first(), hash)
    }
}

/// The place that `rule_position` gives lies in the list or at its end.
pub proof fn lemma_rule_position(rules: Seq<StyleRuleModel>, hash: u64)
    ensures
        0 <= rule_position(rules, hash) <= rules.len(),
        rule_position(rules, hash) < rules.len() ==> rules[rule_position(
            rules,
            hash,
        )].selector.hash() == hash,
    decreases rules.len(),
{
    if rules.len() > 0 && rules.first().selector.hash() != hash {
        lemma_rule_position(rules.drop_first(), hash);
    }
}

impl StyleSheetModel {
    /// The rule of the sheet for a selector with the content hash `hash`:
    /// the first whose selector has that hash.
    pub open spec fn rule_for(self, hash: u64) -> Option<StyleRuleModel> {
        let at = rule_position(self.rules, hash);
        if at < self.rules.len() {
            Some(self.rules[at])
        } else {
            None
        }
    }

    /// The names of the properties that the sheet declares for a selector.
    pub open spec fn property_names(self, hash: u64) -> Option<Seq<Seq<char>>> {
        match self.rule_for(hash) {
            Some(rule) => Some(rule.properties.map_values(|d: DeclarationModel| d.name)),
            None => None,
        }
    }

    /// The values that the sheet declares for a property of a selector.
    pub open spec fn property_value(self, hash: u64, name: Seq<char>) -> Option<
        Seq<PropertyTokenModel>,
    > {
        match self.rule_for(hash) {
            Some(rule) => {
                let at = position_of(rule.properties, name);
                if at < rule.properties.len() {
                    Some(rule.properties[at].values)
                } else {
                    None
                }
            },
            None => None,
        }
    }
}

/// A style sheet: the rules of one text.
///
/// This holds intermediate data, rules and the values of their properties. A
/// property parses its values the first time they are asked for.
#[derive(Debug)]
pub struct StyleSheetAsset {
    path: String,
    hash: u64,
    rules: Vec<StyleRule>,
}

impl View for StyleSheetAsset {
    type V = StyleSheetModel;

    closed spec fn view(&self) -> StyleSheetModel {
        StyleSheetModel { path: self.path@, hash: self.hash, rules: rule_models(self.rules@) }
    }
}

impl StyleSheetAsset {
    #[verifier::type_invariant]
    closed spec fn rules_are_sound(&self) -> bool {
        rules_sound(self.rules@)
    }

    /// Parses a text into the rules of a style sheet.
    ///
    /// `path` says where the text came from, for the sake of a reader of logs.
    /// Where the text comes from nowhere, an empty path does.
    pub fn parse(path: &str, content: &str) -> (sheet: StyleSheetAsset)
        ensures
            sheet@.path == path@,
            sheet@.hash == text_hash(content@),
            sheet@.rules == parsed(content@).rules,
    {
        StyleSheetAsset {
            path: String::from_str(path),
            hash: hash_of_text(content),
            rules: StyleSheetParser::parse(content),
        }
    }

    /// Parses a text into the rules of a style sheet, and gives the errors of
    /// the rules that were left out.
    pub fn parse_with_errors(path: &str, content: &str) -> (result: (StyleSheetAsset, Vec<RuleError>))
        ensures
            result.0@.path == path@,
            result.0@.hash == text_hash(content@),
            result.0@.rules == parsed(content@).rules,
            rule_error_models(result.1@) == parsed(content@).errors,
    {
        let (rules, errors) = StyleSheetParser::parse_with_errors(content);
        (StyleSheetAsset { path: String::from_str(path), hash: hash_of_text(content), rules }, errors)
    }

    fn find(&self, selector: &Selector) -> (at: usize)
        ensures
            at == rule_position(self@.rules, selector@.hash()),
            at <= self.rules.len(),
    {
        let ghost models = rule_models(self.rules@);
        let mut i: usize = 0;
        assert(models.skip(0) =~= models);
        while i < self.rules.len()
            invariant
                i <= self.rules.len(),
                models == rule_models(self.rules@),
                rule_position(models, selector@.hash()) == i + rule_position(
                    models.skip(i as int),
                    selector@.hash(),
                ),
            decreases self.rules.len() - i,
        {
            proof {
                assert(models.skip(i as int).first() == self.rules@[i as int]@);
                assert(models.skip(i as int).drop_first() == models.skip(i + 1));
            }
            if self.rules[i].selector == *selector {
                return i;
            }
            i += 1;
        }
        i
    }

    /// Returns the names of the properties that the sheet declares for the
    /// given selector.
    pub fn get_property_names(&self, selector: &Selector) -> (names: Option<Vec<String>>)
        ensures
            match names {
                Some(n) => self@.property_names(selector@.hash()) == Some(
                    n@.map_values(|s: String| s@),
                ),
                None => self@.property_names(selector@.hash()) is None,
            },
    {
        let at = self.find(selector);
        if at < self.rules.len() {
            assert(rule_models(self.rules@)[at as int] == self.rules@[at as int]@);
            Some(self.rules[at].properties.names())
        } else {
            None
        }
    }

    /// Returns the values that the sheet declares for the property `name` of
    /// the given selector.
    pub fn get_property_value(&self, selector: &Selector, name: &str) -> (values: Option<
        &PropertyValues,
    >)
        ensures
            match values {
                Some(v) => self@.property_value(selector@.hash(), name@) == Some(v@),
                None => self@.property_value(selector@.hash(), name@) is None,
            },
    {
        let at = self.find(selector);
        if at < self.rules.len() {
            assert(rule_models(self.rules@)[at as int] == self.rules@[at as int]@);
            self.rules[at].properties.get(name)
        } else {
            None
        }
    }

    /// All the rules, in the order of the text.
    pub fn iter(&self) -> (rules: &Vec<StyleRule>)
        ensures
            rule_models(rules@) == self@.rules,
            rules_sound(rules@),
    {
        proof {
            use_type_invariant(self);
        }
        &self.rules
    }

    /// The hash of the text of the sheet, by which two sheets are the same.
    pub fn hash(&self) -> (hash: u64)
        ensures
            hash == self@.hash,
    {
        self.hash
    }

    /// Where the text of the sheet came from, for the sake of a reader of logs.
    pub fn path(&self) -> (path: &str)
        ensures
            path@ == self@.path,
    {
        self.path.as_str()
    }
}

/// Two sheets parsed from the same text have the same hash and the same
/// rules, whatever their paths.
pub proof fn lemma_parse_is_repeatable(
    first: StyleSheetModel,
    second: StyleSheetModel,
    content: Seq<char>,
)
    requires
        first.hash == text_hash(content),
        first.rules == parsed(content).rules,
        second.hash == text_hash(content),
        second.rules == parsed(content).rules,
    ensures
        first.hash == second.hash,
        first.rules == second.rules,
{
}

} // verus!
