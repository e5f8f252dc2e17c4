use vstd::prelude::*;

use crate::property::property_token::PropertyTokenModel;
use crate::property::PropertyValues;
use crate::selector::{Selector, SelectorModel};

verus! {

/// A property of a rule: its name and the values declared for it.
#[derive(Debug, Clone)]
pub struct Declaration {
    pub name: String,
    pub values: PropertyValues,
}

/// What a [`Declaration`] holds.
pub struct DeclarationModel {
    pub name: Seq<char>,
    pub values: Seq<PropertyTokenModel>,
}

impl View for Declaration {
    type V = DeclarationModel;

    open spec fn view(&self) -> DeclarationModel {
        DeclarationModel { name: self.name@, values: self.values@ }
    }
}

/// The declarations of a list, each by what it holds.
pub open spec fn declaration_models(entries: Seq<Declaration>) -> Seq<DeclarationModel> {
    entries.map_values(|d: Declaration| d@)
}

/// The place of the declaration of `name` in a list, or the length of the list
/// where there is none.
pub open spec fn position_of(entries: Seq<DeclarationModel>, name: Seq<char>) -> int
    decreases entries.len(),
{
    if entries.len() == 0 {
        0
    } else if entries.first().name == name {
        0
    } else {
        1 + position_of(entries.drop_first(), name)
    }
}

/// A list of declarations after `name` was declared with `values`: the
/// declaration of that name is replaced where there is one, and stands at the
/// end where there is none.
pub open spec fn declare(
    entries: Seq<DeclarationModel>,
    name: Seq<char>,
    values: Seq<PropertyTokenModel>,
) -> Seq<DeclarationModel> {
    let at = position_of(entries, name);
    if at < entries.len() {
        entries.update(at, DeclarationModel { name, values })
    } else {
        entries.push(DeclarationModel { name, values })
    }
}

/// Whether no two declarations of a list have the same name.
pub open spec fn distinct_names(entries: Seq<DeclarationModel>) -> bool {
    forall|i: int, j: int|
        0 <= i < j < entries.len() ==> (#[trigger] entries[i]).name != (#[trigger] entries[j]).name
}

/// The place that `position_of` gives is the first with the name.
pub proof fn lemma_position_of(entries: Seq<DeclarationModel>, name: Seq<char>)
    ensures
        0 <= position_of(entries, name) <= entries.len(),
        position_of(entries, name) < entries.len() ==> entries[position_of(entries, name)].name
            == name,
        forall|k: int| 0 <= k < position_of(entries, name) ==> (#[trigger] entries[k]).name != name,
    decreases entries.len(),
{
    if entries.len() > 0 && entries.first().name != name {
        let rest = entries.drop_first();
        lemma_position_of(rest, name);
        assert forall|k: int| 0 <= k < position_of(entries, name) implies (
        #[trigger] entries[k]).name != name by {
            if k > 0 {
                assert(entries[k] == rest[k - 1]);
            }
        }
    }
}

/// Declaring a property keeps the names distinct, and afterwards the
/// property has the values it was declared with.
pub proof fn lemma_declare(
    entries: Seq<DeclarationModel>,
    name: Seq<char>,
    values: Seq<PropertyTokenModel>,
)
    requires
        distinct_names(entries),
    ensures
        distinct_names(declare(entries, name, values)),
        position_of(declare(entries, name, values), name) == position_of(entries, name),
        declare(entries, name, values)[position_of(entries, name)] == (DeclarationModel {
            name,
            values,
        }),
        forall|other: Seq<char>|
            other != name ==> #[trigger] position_of(declare(entries, name, values), other) == (
            if position_of(entries, other) < entries.len() {
                position_of(entries, other)
            } else {
                declare(entries, name, values).len() as int
            }),
{
    let after = declare(entries, name, values);
    let at = position_of(entries, name);
    lemma_position_of(entries, name);
    lemma_position_of(after, name);
    assert(after[at].name == name);
    if position_of(after, name) < at {
        assert(after[position_of(after, name)] == entries[position_of(after, name)]);
    }
    assert forall|other: Seq<char>| other != name implies #[trigger] position_of(after, other) == (
    if position_of(entries, other) < entries.len() {
        position_of(entries, other)
    } else {
        after.len() as int
    }) by {
        lemma_position_of(entries, other);
        lemma_position_of(after, other);
        let p = position_of(entries, other);
        let q = position_of(after, other);
        if p < entries.len() {
            assert(after[p].name == other);
            if q < p {
                assert(after[q].name == entries[q].name || q == at);
            }
            if p < q {
            }
        } else {
            if q < after.len() {
                if q < entries.len() {
                    assert(after[q].name == entries[q].name || q == at);
                }
            }
        }
    }
}

/// The properties that a rule declares, in the order in which their names
/// were first declared. Declaring a name again replaces what was declared for
/// it, so a list that starts empty never holds a name twice.
#[derive(Debug, Clone, Default)]
pub struct Properties {
    entries: Vec<Declaration>,
}

impl View for Properties {
    type V = Seq<DeclarationModel>;

    closed spec fn view(&self) -> Seq<DeclarationModel> {
        declaration_models(self.entries@)
    }
}

impl Properties {
    /// No properties.
    pub fn new() -> (properties: Properties)
        ensures
            properties@ == Seq::<DeclarationModel>::empty(),
    {
        let properties = Properties { entries: Vec::new() };
        assert(declaration_models(properties.entries@) =~= Seq::<DeclarationModel>::empty());
        properties
    }

    /// How many properties there are.
    pub fn len(&self) -> (len: usize)
        ensures
            len == self@.len(),
    {
        self.entries.len()
    }

    /// Whether there is no property.
    pub fn is_empty(&self) -> (empty: bool)
        ensures
            empty == (self@.len() == 0),
    {
        self.entries.len() == 0
    }

    fn find(&self, name: &str) -> (at: usize)
        ensures
            at == position_of(self@, name@),
            at <= self@.len(),
    {
        let ghost models = declaration_models(self.entries@);
        let mut i: usize = 0;
        assert(models.skip(0) =~= models);
        while i < self.entries.len()
            invariant
                i <= self.entries.len(),
                models == declaration_models(self.entries@),
                position_of(models, name@) == i + position_of(models.skip(i as int), name@),
            decreases self.entries.len() - i,
        {
            proof {
                assert(models.skip(i as int).first() == self.entries@[i as int]@);
                assert(models.skip(i as int).drop_first() == models.skip(i + 1));
            }
            if crate::text::same_text(self.entries[i].name.as_str(), name) {
                return i;
            }
            i += 1;
        }
        i
    }

    /// Whether a property of that name is declared.
    pub fn contains_key(&self, name: &str) -> (found: bool)
        ensures
            found == (position_of(self@, name@) < self@.len()),
    {
        self.find(name) < self.entries.len()
    }

    /// The values declared for the property of that name.
    pub fn get(&self, name: &str) -> (values: Option<&PropertyValues>)
        ensures
            match values {
                Some(v) => position_of(self@, name@) < self@.len() && v@ == self@[position_of(
                    self@,
                    name@,
                )].values,
                None => position_of(self@, name@) >= self@.len(),
            },
    {
        let at = self.find(name);
        if at < self.entries.len() {
            Some(&self.entries[at].values)
        } else {
            None
        }
    }

    /// Declares the property `name` with `values`, in place of what was
    /// declared for that name before.
    pub fn insert(&mut self, name: String, values: PropertyValues)
        ensures
            final(self)@ == declare(old(self)@, name@, values@),
            distinct_names(old(self)@) ==> distinct_names(final(self)@),
    {
        proof {
            if distinct_names(self@) {
                lemma_declare(self@, name@, values@);
            }
        }
        let at = self.find(name.as_str());
        let ghost before = declaration_models(self.entries@);
        let entry = Declaration { name, values };
        if at < self.entries.len() {
            self.entries.set(at, entry);
            assert(declaration_models(self.entries@) =~= before.update(at as int, entry@));
        } else {
            self.entries.push(entry);
            assert(declaration_models(self.entries@) =~= before.push(entry@));
        }
    }

    /// The names of the properties, in the order in which they were first
    /// declared.
    pub fn names(&self) -> (names: Vec<String>)
        ensures
            names@.map_values(|s: String| s@) == self@.map_values(|d: DeclarationModel| d.name),
    {
        let mut names: Vec<String> = Vec::new();
        let mut i: usize = 0;
        while i < self.entries.len()
            invariant
                i <= self.entries.len(),
                names.len() == i,
                forall|k: int| 0 <= k < i ==> names@[k]@ == self.entries@[k].name@,
            decreases self.entries.len() - i,
        {
            names.push(self.entries[i].name.clone());
            i += 1;
        }
        assert(names@.map_values(|s: String| s@) =~= self@.map_values(
            |d: DeclarationModel| d.name,
        ));
        names
    }

    /// The declarations, in the order in which their names were first declared.
    pub fn entries(&self) -> (entries: &Vec<Declaration>)
        ensures
            declaration_models(entries@) == self@,
    {
        &self.entries
    }
}

/// Represents a single rule inside a style sheet with a [`Selector`] which
/// determines which entities should be applied the [`PropertyValues`].
///
/// This holds intermediate data: a property parses its values the first time
/// they are asked for.
#[derive(Debug, Clone)]
pub struct StyleRule {
    /// Selector used to match entities to apply properties.
    pub selector: Selector,
    /// Properties values to be applied on selected entities.
    pub properties: Properties,
}

/// What a [`StyleRule`] holds.
pub struct StyleRuleModel {
    pub selector: SelectorModel,
    pub properties: Seq<DeclarationModel>,
}

impl View for StyleRule {
    type V = StyleRuleModel;

    open spec fn view(&self) -> StyleRuleModel {
        StyleRuleModel { selector: self.selector@, properties: self.properties@ }
    }
}

impl StyleRule {
    /// A rule for `selector` that declares nothing yet.
    pub fn new(selector: Selector) -> (rule: StyleRule)
        ensures
            rule.selector == selector,
            rule.properties@ == Seq::<DeclarationModel>::empty(),
            distinct_names(rule.properties@),
    {
        StyleRule { selector, properties: Properties::new() }
    }

    /// The rule as a line of text: its selector as it is written.
    pub fn to_text(&self) -> (text: String)
        ensures
            text@ == self@.selector.written(),
    {
        self.selector.to_text()
    }
}

/// The rules of a list, each by what it holds.
pub open spec fn rule_models(rules: Seq<StyleRule>) -> Seq<StyleRuleModel> {
    rules.map_values(|r: StyleRule| r@)
}

} // verus!
