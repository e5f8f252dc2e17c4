use std::sync::atomic::{AtomicUsize, Ordering};

use tomt_bevycss::prelude::{BevyCssError, PropertyValues, Selector, SelectorElement};
use tomt_bevycss::property::{
    apply_system, Application, CacheState, FontSizeProperty, Property, PropertyMeta,
};
use tomt_bevycss::stylesheet::{StyleSheetAsset, StyleSheets};
use tomt_bevycss::system::{prepare_state, ComponentFilterRegistry, EntityGraph, UiNode};

static PARSE_CALLS: AtomicUsize = AtomicUsize::new(0);

struct Counting;

impl Property for Counting {
    type Cache = usize;

    fn name() -> &'static str {
        "counting"
    }

    fn parse(values: &PropertyValues) -> Result<usize, BevyCssError> {
        PARSE_CALLS.fetch_add(1, Ordering::SeqCst);
        if values.is_empty() {
            Err(BevyCssError::InvalidPropertyValue("counting".to_string()))
        } else {
            Ok(values.len())
        }
    }
}

fn selector_of(sheet: &StyleSheetAsset, index: usize) -> Selector {
    sheet.iter()[index].selector.clone()
}

#[test]
fn a_value_is_parsed_once_and_then_kept() {
    let sheet = StyleSheetAsset::parse("", "a { counting: 1 2 3 } b { counting: } c { other: 1 }");
    let mut meta: PropertyMeta<Counting> = PropertyMeta::new();
    let a = selector_of(&sheet, 0);
    let b = selector_of(&sheet, 1);
    let c = selector_of(&sheet, 2);

    let before = PARSE_CALLS.load(Ordering::SeqCst);
    assert!(matches!(meta.get_or_parse(&sheet, &a), CacheState::Parsed(3)));
    assert_eq!(PARSE_CALLS.load(Ordering::SeqCst), before + 1);
    assert!(matches!(meta.get_or_parse(&sheet, &a), CacheState::Parsed(3)));
    assert!(matches!(meta.get_or_parse(&sheet, &a), CacheState::Parsed(3)));
    assert_eq!(PARSE_CALLS.load(Ordering::SeqCst), before + 1);
    assert_eq!(meta.len(), 1);

    assert!(matches!(meta.get_or_parse(&sheet, &b), CacheState::ParseError));
    assert!(matches!(meta.get_or_parse(&sheet, &b), CacheState::ParseError));
    assert_eq!(PARSE_CALLS.load(Ordering::SeqCst), before + 2);

    assert!(matches!(meta.get_or_parse(&sheet, &c), CacheState::Unparsed));
    assert_eq!(PARSE_CALLS.load(Ordering::SeqCst), before + 2);
    assert_eq!(meta.len(), 3);

    assert!(matches!(
        meta.get(sheet.hash(), a.hash()),
        Some(CacheState::Parsed(3))
    ));
    assert!(meta.get(sheet.hash() ^ 1, a.hash()).is_none());
}

#[test]
fn a_sheet_with_the_same_text_shares_what_is_kept() {
    let first = StyleSheetAsset::parse("one.css", "a { font-size: 12px }");
    let second = StyleSheetAsset::parse("two.css", "a { font-size: 12px }");
    let third = StyleSheetAsset::parse("one.css", "a { font-size: 13px }");
    assert_eq!(first.hash(), second.hash());
    assert_ne!(first.hash(), third.hash());
    assert_eq!(first.path(), "one.css");
    let mut meta: PropertyMeta<FontSizeProperty> = PropertyMeta::new();
    meta.get_or_parse(&first, &selector_of(&first, 0));
    meta.get_or_parse(&second, &selector_of(&second, 0));
    assert_eq!(meta.len(), 1);
    meta.get_or_parse(&third, &selector_of(&third, 0));
    assert_eq!(meta.len(), 2);
}

#[test]
fn a_selector_of_the_same_elements_is_the_same_selector() {
    let one = Selector::new(vec![SelectorElement::Class("a".to_string())], 1);
    let two = Selector::new(vec![SelectorElement::Class("a".to_string())], 7);
    let other = Selector::new(vec![SelectorElement::Name("a".to_string())], 1);
    assert!(one == two);
    assert!(one != other);
    assert_eq!(one.hash(), two.hash());
}

fn node(entity: u64, parent: Option<u64>, children: Vec<u64>) -> UiNode {
    UiNode {
        entity,
        ui: true,
        parent,
        children,
        sheet: None,
        name: None,
        class: None,
        components: vec![],
        interaction: None,
    }
}

#[test]
fn a_property_applies_its_parsed_values_to_the_entities_that_have_it() {
    let mut root = node(1, None, vec![2, 3, 4]);
    root.sheet = Some(10);
    let mut a = node(2, Some(1), vec![]);
    a.name = Some("a".to_string());
    let mut b = node(3, Some(1), vec![]);
    b.name = Some("b".to_string());
    let mut c = node(4, Some(1), vec![]);
    c.name = Some("c".to_string());
    let graph = EntityGraph { nodes: vec![root, a, b, c] };
    let mut assets = StyleSheets::new();
    let sheet = StyleSheetAsset::parse(
        "",
        "#a { font-size: 12px } #b { font-size: none } #c { color: red }",
    );
    let hash = sheet.hash();
    let a_hash = sheet.iter()[0].selector.hash();
    assets.insert(10, sheet);
    let state = prepare_state(&graph, &assets, &vec![1], &ComponentFilterRegistry::default());
    assert_eq!(state.len(), 3);

    let mut meta: PropertyMeta<FontSizeProperty> = PropertyMeta::new();
    let found = apply_system(&mut meta, &assets, &state);
    assert_eq!(
        found,
        vec![Application { entity: 2, stylesheet: hash, selector: a_hash }]
    );
    assert_eq!(meta.len(), 2);
    match meta.get(hash, a_hash) {
        Some(CacheState::Parsed(size)) => assert_eq!(f32::from_bits(size.bits), 12.0),
        _ => panic!("the size of #a is kept"),
    }
    let again = apply_system(&mut meta, &assets, &state);
    assert_eq!(again, found);
    assert_eq!(meta.len(), 2);

    let mut missing = StyleSheets::new();
    missing.insert(11, StyleSheetAsset::parse("", ""));
    let mut other: PropertyMeta<FontSizeProperty> = PropertyMeta::new();
    assert!(apply_system(&mut other, &missing, &state).is_empty());
    assert_eq!(other.len(), 0);
}
