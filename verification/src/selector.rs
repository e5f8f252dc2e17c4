//! Selectors: what a rule of a style sheet matches.

use vstd::prelude::*;
use vstd::std_specs::cmp::PartialEqSpecImpl;

use crate::seqs::lemma_filter_last;
use crate::text::{from_chars, push_char, to_chars};

verus! {

/// Represents a selector element on a style sheet rule.
/// A single selector can have multiple elements, for instance a selector of
/// `button.enabled` has two elements, one for `button` and another for
/// `.enabled`.
#[derive(Clone, Debug, PartialEq, Eq, Hash)]
pub enum SelectorElement {
    /// A name selector element, like `#score_window`.
    Name(String),
    /// A component selector element, like `window` or `button`.
    Component(String),
    /// A class name selector element, like `.border`.
    Class(String),
    /// A state selector element, like `:hover`.
    PseudoClass(String),
    /// A parent-child relation between the elements before it and the
    /// elements after it, like the blank in `window .border`.
    Child,
}

/// What a [`SelectorElement`] holds, with its text as a sequence of characters.
pub enum ElementModel {
    Name(Seq<char>),
    Component(Seq<char>),
    Class(Seq<char>),
    PseudoClass(Seq<char>),
    Child,
}

impl View for SelectorElement {
    type V = ElementModel;

    open spec fn view(&self) -> ElementModel {
        match self {
            SelectorElement::Name(n) => ElementModel::Name(n@),
            SelectorElement::Component(c) => ElementModel::Component(c@),
            SelectorElement::Class(c) => ElementModel::Class(c@),
            SelectorElement::PseudoClass(c) => ElementModel::PseudoClass(c@),
            SelectorElement::Child => ElementModel::Child,
        }
    }
}

impl ElementModel {
    /// The number by which the content hash tells the kinds of element apart.
    pub open spec fn tag(self) -> u64 {
        match self {
            ElementModel::Name(_) => 1,
            ElementModel::Component(_) => 2,
            ElementModel::Class(_) => 3,
            ElementModel::PseudoClass(_) => 4,
            ElementModel::Child => 5,
        }
    }

    /// The text of the element; a `Child` has none.
    pub open spec fn text(self) -> Seq<char> {
        match self {
            ElementModel::Name(n) => n,
            ElementModel::Component(c) => c,
            ElementModel::Class(c) => c,
            ElementModel::PseudoClass(c) => c,
            ElementModel::Child => Seq::empty(),
        }
    }

    /// The element as it is written in a style sheet.
    pub open spec fn written(self) -> Seq<char> {
        match self {
            ElementModel::Name(n) => seq!['#'] + n,
            ElementModel::Component(c) => c,
            ElementModel::Class(c) => seq!['.'] + c,
            ElementModel::PseudoClass(c) => seq![':'] + c,
            ElementModel::Child => seq![' '],
        }
    }
}

impl SelectorElement {
    /// A copy of the element.
    pub fn duplicate(&self) -> (copy: SelectorElement)
        ensures
            copy@ == self@,
    {
        match self {
            SelectorElement::Name(n) => SelectorElement::Name(n.clone()),
            SelectorElement::Component(c) => SelectorElement::Component(c.clone()),
            SelectorElement::Class(c) => SelectorElement::Class(c.clone()),
            SelectorElement::PseudoClass(c) => SelectorElement::PseudoClass(c.clone()),
            SelectorElement::Child => SelectorElement::Child,
        }
    }

    /// Whether the element is the parent-child marker.
    pub fn is_child(&self) -> (child: bool)
        ensures
            child == (self@ is Child),
    {
        match self {
            SelectorElement::Child => true,
            _ => false,
        }
    }
}

/// The elements of a list, each by what it holds.
pub open spec fn element_models(elements: Seq<SelectorElement>) -> Seq<ElementModel> {
    elements.map_values(|e: SelectorElement| e@)
}

/// A copy of a list of elements.
pub fn duplicate_elements(elements: &Vec<SelectorElement>) -> (copy: Vec<SelectorElement>)
    ensures
        element_models(copy@) == element_models(elements@),
{
    let mut copy: Vec<SelectorElement> = Vec::new();
    let mut i: usize = 0;
    while i < elements.len()
        invariant
            i <= elements.len(),
            copy.len() == i,
            forall|k: int| 0 <= k < i ==> copy@[k]@ == elements@[k]@,
        decreases elements.len() - i,
    {
        copy.push(elements[i].duplicate());
        i += 1;
    }
    assert(element_models(copy@) =~= element_models(elements@));
    copy
}

/// The weight of a selector in the cascade: how many name elements it has,
/// how many class and state elements, and how many component elements.
#[derive(Clone, Copy, Debug, PartialEq, Eq, Structural, Default)]
pub struct Specificity {
    pub names: usize,
    pub classes: usize,
    pub components: usize,
}

/// How many name elements a list holds.
pub open spec fn count_names(elements: Seq<ElementModel>) -> nat {
    elements.filter(|e: ElementModel| e is Name).len()
}

/// How many class and state elements a list holds.
pub open spec fn count_classes(elements: Seq<ElementModel>) -> nat {
    elements.filter(|e: ElementModel| e is Class || e is PseudoClass).len()
}

/// How many component elements a list holds.
pub open spec fn count_components(elements: Seq<ElementModel>) -> nat {
    elements.filter(|e: ElementModel| e is Component).len()
}

/// The weight of a list of elements, as three numbers.
pub open spec fn weight_of(elements: Seq<ElementModel>) -> (nat, nat, nat) {
    (count_names(elements), count_classes(elements), count_components(elements))
}

/// Whether the weight `a` is below the weight `b`: names first, then classes,
/// then components.
pub open spec fn weight_below(a: (nat, nat, nat), b: (nat, nat, nat)) -> bool {
    a.0 < b.0 || (a.0 == b.0 && (a.1 < b.1 || (a.1 == b.1 && a.2 < b.2)))
}

impl Specificity {
    /// The weight as three numbers.
    pub open spec fn weight(self) -> (nat, nat, nat) {
        (self.names as nat, self.classes as nat, self.components as nat)
    }

    /// The weight of a list of elements.
    pub fn of(elements: &Vec<SelectorElement>) -> (specificity: Specificity)
        ensures
            specificity.weight() == weight_of(element_models(elements@)),
    {
        let mut names: usize = 0;
        let mut classes: usize = 0;
        let mut components: usize = 0;
        let mut i: usize = 0;
        let ghost models = element_models(elements@);
        while i < elements.len()
            invariant
                i <= elements.len(),
                models == element_models(elements@),
                names <= i,
                classes <= i,
                components <= i,
                names == count_names(models.take(i as int)),
                classes == count_classes(models.take(i as int)),
                components == count_components(models.take(i as int)),
            decreases elements.len() - i,
        {
            proof {
                let next = models.take(i + 1);
                assert(next.drop_last() == models.take(i as int));
                assert(next.last() == elements@[i as int]@);
                lemma_filter_last(next, |e: ElementModel| e is Name);
                lemma_filter_last(
                    next,
                    |e: ElementModel| e is Class || e is PseudoClass,
                );
                lemma_filter_last(next, |e: ElementModel| e is Component);
            }
            match &elements[i] {
                SelectorElement::Name(_) => {
                    names += 1;
                },
                SelectorElement::Class(_) => {
                    classes += 1;
                },
                SelectorElement::PseudoClass(_) => {
                    classes += 1;
                },
                SelectorElement::Component(_) => {
                    components += 1;
                },
                SelectorElement::Child => {},
            }
            i += 1;
        }
        assert(models.take(elements.len() as int) == models);
        Specificity { names, classes, components }
    }

    /// Whether this weight is below `other`.
    pub fn below(&self, other: &Specificity) -> (below: bool)
        ensures
            below == weight_below(self.weight(), other.weight()),
    {
        self.names < other.names || (self.names == other.names && (self.classes < other.classes
            || (self.classes == other.classes && self.components < other.components)))
    }
}

/// One step of the content hash: `x` taken into the hash `h`.
///
/// The content hashes are computed by the library itself, by the steps of
/// FNV-1a, and by no hasher of the host: a hasher whose values depend on the
/// machine or on the process could not be stated here, and the hash of a text
/// would not be the same wherever it is parsed. Nothing depends on the values
/// themselves, only on equal contents having equal hashes.
pub open spec fn mix(h: u64, x: u64) -> u64 {
    (h ^ x).wrapping_mul(0x0000_0100_0000_01b3)
}

/// The characters of `text` taken into the hash `h`, first to last.
pub open spec fn mix_text(h: u64, text: Seq<char>) -> u64
    decreases text.len(),
{
    if text.len() == 0 {
        h
    } else {
        mix(mix_text(h, text.drop_last()), text.last() as u64)
    }
}

/// The hash of a text: that of its characters, taken in order into a fixed
/// start value.
pub open spec fn text_hash(text: Seq<char>) -> u64 {
    mix_text(0xcbf2_9ce4_8422_2325, text)
}

/// One element taken into the hash `h`: its kind, its text, and an end mark.
pub open spec fn mix_element(h: u64, element: ElementModel) -> u64 {
    mix(mix_text(mix(h, element.tag()), element.text()), 0xff)
}

/// The elements of a list taken into the hash `h`, first to last.
pub open spec fn mix_elements(h: u64, elements: Seq<ElementModel>) -> u64
    decreases elements.len(),
{
    if elements.len() == 0 {
        h
    } else {
        mix_element(mix_elements(h, elements.drop_last()), elements.last())
    }
}

/// The content hash of a list of elements.
pub open spec fn content_hash(elements: Seq<ElementModel>) -> u64 {
    mix_elements(0xcbf2_9ce4_8422_2325, elements)
}

fn hash_step(h: u64, x: u64) -> (r: u64)
    ensures
        r == mix(h, x),
{
    (h ^ x).wrapping_mul(0x0000_0100_0000_01b3)
}

fn hash_chars(h: u64, text: &str) -> (r: u64)
    ensures
        r == mix_text(h, text@),
{
    let chars = to_chars(text);
    let mut r: u64 = h;
    let mut i: usize = 0;
    while i < chars.len()
        invariant
            i <= chars.len(),
            chars@ == text@,
            r == mix_text(h, chars@.take(i as int)),
        decreases chars.len() - i,
    {
        assert(chars@.take(i + 1).drop_last() == chars@.take(i as int));
        r = hash_step(r, chars[i] as u64);
        i += 1;
    }
    assert(chars@.take(chars.len() as int) == chars@);
    r
}

/// The hash of a text.
pub fn hash_of_text(text: &str) -> (r: u64)
    ensures
        r == text_hash(text@),
{
    hash_chars(0xcbf2_9ce4_8422_2325, text)
}

fn hash_element(h: u64, element: &SelectorElement) -> (r: u64)
    ensures
        r == mix_element(h, element@),
{
    let with_text = match element {
        SelectorElement::Name(n) => hash_chars(hash_step(h, 1), n.as_str()),
        SelectorElement::Component(c) => hash_chars(hash_step(h, 2), c.as_str()),
        SelectorElement::Class(c) => hash_chars(hash_step(h, 3), c.as_str()),
        SelectorElement::PseudoClass(c) => hash_chars(hash_step(h, 4), c.as_str()),
        SelectorElement::Child => {
            assert(mix_text(mix(h, 5), Seq::<char>::empty()) == mix(h, 5));
            hash_step(h, 5)
        },
    };
    hash_step(with_text, 0xff)
}

fn hash_elements(elements: &Vec<SelectorElement>) -> (r: u64)
    ensures
        r == content_hash(element_models(elements@)),
{
    let mut r: u64 = 0xcbf2_9ce4_8422_2325;
    let mut i: usize = 0;
    let ghost models = element_models(elements@);
    while i < elements.len()
        invariant
            i <= elements.len(),
            models == element_models(elements@),
            r == mix_elements(0xcbf2_9ce4_8422_2325, models.take(i as int)),
        decreases elements.len() - i,
    {
        assert(models.take(i + 1).drop_last() == models.take(i as int));
        r = hash_element(r, &elements[i]);
        i += 1;
    }
    assert(models.take(elements.len() as int) == models);
    r
}

/// The levels of a list of elements: the runs between its `Child` markers,
/// outermost ancestor first. A list without a marker is one level.
pub open spec fn split_levels(elements: Seq<ElementModel>) -> Seq<Seq<ElementModel>>
    decreases elements.len(),
{
    if elements.len() == 0 {
        seq![Seq::empty()]
    } else {
        let before = split_levels(elements.drop_last());
        if elements.last() is Child {
            before.push(Seq::empty())
        } else {
            before.drop_last().push(before.last().push(elements.last()))
        }
    }
}

/// The levels put together again, with one `Child` between two levels.
pub open spec fn join_levels(levels: Seq<Seq<ElementModel>>) -> Seq<ElementModel>
    decreases levels.len(),
{
    if levels.len() == 0 {
        Seq::empty()
    } else if levels.len() == 1 {
        levels[0]
    } else {
        join_levels(levels.drop_last()) + seq![ElementModel::Child] + levels.last()
    }
}

/// How many `Child` markers a list holds.
pub open spec fn count_children(elements: Seq<ElementModel>) -> nat {
    elements.filter(|e: ElementModel| e is Child).len()
}

/// Splitting loses nothing: there is one level more than there are `Child`
/// markers, no level holds a marker, and the levels joined by markers are the
/// list again.
pub proof fn lemma_split_levels(elements: Seq<ElementModel>)
    ensures
        split_levels(elements).len() == count_children(elements) + 1,
        forall|i: int, j: int|
            0 <= i < split_levels(elements).len() && 0 <= j < split_levels(elements)[i].len()
                ==> !(#[trigger] split_levels(elements)[i][j] is Child),
        join_levels(split_levels(elements)) == elements,
    decreases elements.len(),
{
    if elements.len() == 0 {
        assert(elements.filter(|e: ElementModel| e is Child) =~= Seq::empty());
        assert(join_levels(split_levels(elements)) =~= elements);
    } else {
        let front = elements.drop_last();
        lemma_split_levels(front);
        lemma_filter_last(elements, |e: ElementModel| e is Child);
        let before = split_levels(front);
        let levels = split_levels(elements);
        if elements.last() is Child {
            assert(levels.drop_last() == before);
            assert(join_levels(levels) =~= front + seq![ElementModel::Child] + Seq::empty());
            assert(join_levels(levels) =~= elements);
        } else {
            let last = before.last().push(elements.last());
            assert(levels.drop_last() == before.drop_last());
            assert(levels.last() == last);
            if before.len() == 1 {
                assert(join_levels(before) == before[0]);
                assert(join_levels(levels) =~= elements);
            } else {
                assert(join_levels(before) == join_levels(before.drop_last())
                    + seq![ElementModel::Child] + before.last());
                assert(join_levels(levels) =~= join_levels(before).push(elements.last()));
                assert(join_levels(levels) =~= elements);
            }
            assert forall|i: int, j: int|
                0 <= i < levels.len() && 0 <= j < levels[i].len() implies !(
            #[trigger] levels[i][j] is Child) by {
                if i < levels.len() - 1 {
                    assert(levels[i] == before[i]);
                } else if j < before.last().len() {
                    assert(levels[i][j] == before[i][j]);
                }
            }
        }
    }
}

/// What a [`Selector`] is: its elements and its place in the order of
/// declaration.
pub struct SelectorModel {
    pub elements: Seq<ElementModel>,
    pub load_order: nat,
}

impl SelectorModel {
    /// The weight of the selector in the cascade.
    pub open spec fn weight(self) -> (nat, nat, nat) {
        weight_of(self.elements)
    }

    /// The content hash of the selector.
    pub open spec fn hash(self) -> u64 {
        content_hash(self.elements)
    }

    /// Whether this selector sorts before `other`: a lower weight loses, and
    /// of two equal weights the one declared first.
    pub open spec fn sorts_before(self, other: SelectorModel) -> bool {
        weight_below(self.weight(), other.weight()) || (self.weight() == other.weight()
            && self.load_order < other.load_order)
    }

    /// Whether the list neither starts nor ends with a `Child`, and never
    /// holds two in a row.
    pub open spec fn well_formed(self) -> bool {
        &&& self.elements.len() > 0
        &&& !(self.elements.first() is Child)
        &&& !(self.elements.last() is Child)
        &&& forall|i: int|
            0 <= i < self.elements.len() - 1 ==> !(#[trigger] self.elements[i] is Child
                && self.elements[i + 1] is Child)
    }

    /// The selector as it is written in a style sheet.
    pub open spec fn written(self) -> Seq<char> {
        written_elements(self.elements)
    }
}

/// A list of elements as it is written in a style sheet.
pub open spec fn written_elements(elements: Seq<ElementModel>) -> Seq<char>
    decreases elements.len(),
{
    if elements.len() == 0 {
        Seq::empty()
    } else {
        written_elements(elements.drop_last()) + elements.last().written()
    }
}

/// A selector parsed from a rule of a style sheet. Each selector has a hash
/// of its elements, by which the rules of one sheet are told apart.
#[derive(Debug)]
pub struct Selector {
    hash: u64,
    elements: Vec<SelectorElement>,
    specificity: Specificity,
    load_order: usize,
}

impl View for Selector {
    type V = SelectorModel;

    closed spec fn view(&self) -> SelectorModel {
        SelectorModel {
            elements: element_models(self.elements@),
            load_order: self.load_order as nat,
        }
    }
}

impl Selector {
    /// The hash and the weight that a selector holds are those of its
    /// elements.
    #[verifier::type_invariant]
    closed spec fn holds_its_own(&self) -> bool {
        &&& self.hash == content_hash(element_models(self.elements@))
        &&& self.specificity.weight() == weight_of(element_models(self.elements@))
    }

    /// Creates a new selector for the given elements, declared as the
    /// `load_order`-th of its sheet.
    pub fn new(elements: Vec<SelectorElement>, load_order: usize) -> (selector: Selector)
        ensures
            selector@.elements == element_models(elements@),
            selector@.load_order == load_order,
    {
        let hash = hash_elements(&elements);
        let specificity = Specificity::of(&elements);
        Selector { hash, elements, specificity, load_order }
    }

    /// The selector of a list of texts as a tokenizer hands them out: a text
    /// that starts with `#` is a name, a text after a `.` is a class, any other
    /// a component. Empty texts are passed over.
    pub fn from(input: &Vec<String>, load_order: usize) -> (selector: Selector)
        ensures
            selector@.elements == elements_of_texts(texts_of(input@), false),
            selector@.load_order == load_order,
    {
        let mut elements: Vec<SelectorElement> = Vec::new();
        let mut next_is_class = false;
        let ghost texts = texts_of(input@);
        let dot = String::from_str(".");
        proof {
            reveal_strlit(".");
            assert(dot@ =~= seq!['.']);
        }
        let mut k: usize = 0;
        proof {
            assert(texts.skip(0) =~= texts);
            assert(element_models(elements@) + elements_of_texts(texts, false)
                =~= elements_of_texts(texts, false));
        }
        while k < input.len()
            invariant
                k <= input.len(),
                texts == texts_of(input@),
                dot@ == seq!['.'],
                element_models(elements@) + elements_of_texts(
                    texts.skip(k as int),
                    next_is_class,
                ) == elements_of_texts(texts, false),
            decreases input.len() - k,
        {
            let value = &input[k];
            let ghost rest = texts.skip(k as int);
            assert(rest.first() == value@);
            assert(rest.drop_first() == texts.skip(k + 1));
            let ghost before = element_models(elements@);
            let chars = to_chars(value.as_str());
            if chars.len() == 0 {
            } else if *value == dot {
                next_is_class = true;
            } else {
                let element = if chars[0] == '#' {
                    SelectorElement::Name(from_chars(&chars, 1, chars.len()))
                } else if next_is_class {
                    SelectorElement::Class(value.clone())
                } else {
                    SelectorElement::Component(value.clone())
                };
                elements.push(element);
                next_is_class = false;
                assert(element_models(elements@) =~= before.push(element@));
                assert(before.push(element@) + elements_of_texts(texts.skip(k + 1), false)
                    =~= before + (seq![element@] + elements_of_texts(texts.skip(k + 1), false)));
            }
            k += 1;
        }
        assert(elements_of_texts(texts.skip(input.len() as int), next_is_class) =~= Seq::empty());
        assert(element_models(elements@) + Seq::<ElementModel>::empty() =~= element_models(
            elements@,
        ));
        Selector::new(elements, load_order)
    }

    /// Builds a selector tree for this selector.
    /// Each node in the tree is composed of many elements, also each node is
    /// parent of the next one.
    pub fn get_parent_tree(&self) -> (tree: Vec<Vec<&SelectorElement>>)
        ensures
            level_models(tree@) == split_levels(self@.elements),
    {
        let mut tree: Vec<Vec<&SelectorElement>> = Vec::new();
        let mut current_level: Vec<&SelectorElement> = Vec::new();
        let ghost models = element_models(self.elements@);
        let mut i: usize = 0;
        proof {
            assert(level_model(current_level) =~= Seq::<ElementModel>::empty());
            assert(level_models(tree@).push(level_model(current_level)) =~= seq![
                Seq::<ElementModel>::empty(),
            ]);
        }
        while i < self.elements.len()
            invariant
                i <= self.elements.len(),
                models == element_models(self.elements@),
                level_models(tree@).push(level_model(current_level)) == split_levels(
                    models.take(i as int),
                ),
            decreases self.elements.len() - i,
        {
            let element = &self.elements[i];
            let ghost before = level_models(tree@);
            let ghost current = level_model(current_level);
            proof {
                assert(models.take(i + 1).drop_last() == models.take(i as int));
                assert(models.take(i + 1).last() == element@);
                assert(before.push(current).last() == current);
                assert(before.push(current).drop_last() == before);
            }
            match element {
                SelectorElement::Child => {
                    tree.push(current_level);
                    current_level = Vec::new();
                    assert(level_models(tree@) =~= before.push(current));
                    assert(level_model(current_level) =~= Seq::empty());
                },
                _ => {
                    current_level.push(element);
                    assert(level_model(current_level) =~= current.push(element@));
                },
            }
            i += 1;
        }
        let ghost before = level_models(tree@);
        let ghost current = level_model(current_level);
        tree.push(current_level);
        proof {
            assert(models.take(self.elements.len() as int) == models);
            assert(level_models(tree@) =~= before.push(current));
        }
        tree
    }

    /// The elements of the selector, in order.
    pub fn elements(&self) -> (elements: &Vec<SelectorElement>)
        ensures
            element_models(elements@) == self@.elements,
    {
        &self.elements
    }

    /// The place of the selector's rule in the order of declaration.
    pub fn load_order(&self) -> (order: usize)
        ensures
            order == self@.load_order,
    {
        self.load_order
    }

    /// The content hash of the selector.
    pub fn hash(&self) -> (hash: u64)
        ensures
            hash == self@.hash(),
    {
        proof {
            use_type_invariant(self);
        }
        self.hash
    }

    /// The weight of the selector in the cascade.
    pub fn specificity(&self) -> (specificity: Specificity)
        ensures
            specificity.weight() == self@.weight(),
    {
        proof {
            use_type_invariant(self);
        }
        self.specificity
    }

    /// Whether this selector sorts before `other` in the cascade, so that
    /// `other` wins where both declare a property.
    pub fn sorts_before(&self, other: &Selector) -> (before: bool)
        ensures
            before == self@.sorts_before(other@),
    {
        proof {
            use_type_invariant(self);
            use_type_invariant(other);
        }
        if self.specificity.below(&other.specificity) {
            true
        } else if other.specificity.below(&self.specificity) {
            false
        } else {
            self.load_order < other.load_order
        }
    }

    /// A copy of the selector.
    pub fn duplicate(&self) -> (copy: Selector)
        ensures
            copy@ == self@,
    {
        proof {
            use_type_invariant(self);
        }
        Selector {
            hash: self.hash,
            elements: duplicate_elements(&self.elements),
            specificity: self.specificity,
            load_order: self.load_order,
        }
    }

    /// The selector as it is written in a style sheet.
    pub fn to_text(&self) -> (text: String)
        ensures
            text@ == self@.written(),
    {
        let mut buffer = String::new();
        let ghost models = element_models(self.elements@);
        let mut i: usize = 0;
        while i < self.elements.len()
            invariant
                i <= self.elements.len(),
                models == element_models(self.elements@),
                buffer@ == written_elements(models.take(i as int)),
            decreases self.elements.len() - i,
        {
            proof {
                assert(models.take(i + 1).drop_last() == models.take(i as int));
                assert(models.take(i + 1).last() == self.elements@[i as int]@);
            }
            let ghost before = buffer@;
            match &self.elements[i] {
                SelectorElement::Name(n) => {
                    push_char(&mut buffer, '#');
                    buffer.append(n.as_str());
                    assert(buffer@ =~= before + (seq!['#'] + n@));
                },
                SelectorElement::Component(c) => {
                    buffer.append(c.as_str());
                },
                SelectorElement::Class(c) => {
                    push_char(&mut buffer, '.');
                    buffer.append(c.as_str());
                    assert(buffer@ =~= before + (seq!['.'] + c@));
                },
                SelectorElement::PseudoClass(c) => {
                    push_char(&mut buffer, ':');
                    buffer.append(c.as_str());
                    assert(buffer@ =~= before + (seq![':'] + c@));
                },
                SelectorElement::Child => {
                    push_char(&mut buffer, ' ');
                    assert(buffer@ =~= before + seq![' ']);
                },
            }
            i += 1;
        }
        assert(models.take(self.elements.len() as int) == models);
        buffer
    }
}

/// The texts of a list, each as a sequence of characters.
pub open spec fn texts_of(input: Seq<String>) -> Seq<Seq<char>> {
    input.map_values(|s: String| s@)
}

/// The elements that a list of texts stands for. `next_is_class` says whether
/// a `.` came just before the first text.
pub open spec fn elements_of_texts(texts: Seq<Seq<char>>, next_is_class: bool) -> Seq<
    ElementModel,
>
    decreases texts.len(),
{
    if texts.len() == 0 {
        Seq::empty()
    } else {
        let value = texts.first();
        let rest = texts.drop_first();
        if value.len() == 0 {
            elements_of_texts(rest, next_is_class)
        } else if value == seq!['.'] {
            elements_of_texts(rest, true)
        } else if value[0] == '#' {
            seq![ElementModel::Name(value.skip(1))] + elements_of_texts(rest, false)
        } else if next_is_class {
            seq![ElementModel::Class(value)] + elements_of_texts(rest, false)
        } else {
            seq![ElementModel::Component(value)] + elements_of_texts(rest, false)
        }
    }
}

/// One level of a selector tree, each element by what it holds.
pub open spec fn level_model(level: Vec<&SelectorElement>) -> Seq<ElementModel> {
    level@.map_values(|e: &SelectorElement| e@)
}

/// The levels of a selector tree, each element by what it holds.
pub open spec fn level_models(tree: Seq<Vec<&SelectorElement>>) -> Seq<Seq<ElementModel>> {
    tree.map_values(|level: Vec<&SelectorElement>| level_model(level))
}

impl PartialEq for Selector {
    /// Two selectors are equal when their content hashes are.
    fn eq(&self, other: &Selector) -> (equal: bool) {
        proof {
            use_type_invariant(self);
            use_type_invariant(other);
        }
        self.hash == other.hash
    }
}

impl Eq for Selector {

}

impl Clone for Selector {
    fn clone(&self) -> (copy: Selector)
        ensures
            copy@ == self@,
    {
        self.duplicate()
    }
}

impl PartialEqSpecImpl for Selector {
    open spec fn obeys_eq_spec() -> bool {
        true
    }

    open spec fn eq_spec(&self, other: &Selector) -> bool {
        self@.hash() == other@.hash()
    }
}

/// Selectors of the same elements are equal, whenever they were declared.
pub proof fn lemma_same_elements_equal(a: Selector, b: Selector)
    requires
        a@.elements == b@.elements,
    ensures
        vstd::std_specs::cmp::PartialEqSpec::eq_spec(&a, &b),
{
}

/// The order of the cascade. A selector with more name elements sorts after
/// one with fewer, whatever their classes and components; with as many names,
/// the one with more class elements sorts after; with as many of both, the one
/// with more component elements; and with equal weights, the one declared
/// later. Of two selectors exactly one sorts before the other, unless weight
/// and declaration order are both the same.
pub proof fn lemma_cascade_order(a: SelectorModel, b: SelectorModel)
    ensures
        count_names(a.elements) < count_names(b.elements) ==> a.sorts_before(b),
        count_names(a.elements) == count_names(b.elements) && count_classes(a.elements)
            < count_classes(b.elements) ==> a.sorts_before(b),
        count_names(a.elements) == count_names(b.elements) && count_classes(a.elements)
            == count_classes(b.elements) && count_components(a.elements) < count_components(
            b.elements,
        ) ==> a.sorts_before(b),
        a.weight() == b.weight() && a.load_order < b.load_order ==> a.sorts_before(b),
        !(a.sorts_before(b) && b.sorts_before(a)),
        !a.sorts_before(b) && !b.sorts_before(a) ==> a.weight() == b.weight() && a.load_order
            == b.load_order,
{
}

/// The order of the cascade is transitive.
pub proof fn lemma_cascade_order_transitive(a: SelectorModel, b: SelectorModel, c: SelectorModel)
    requires
        a.sorts_before(b),
        b.sorts_before(c),
    ensures
        a.sorts_before(c),
{
}

} // verus!
