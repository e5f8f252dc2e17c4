use tomt_bevycss::parser::StyleSheetType;
use tomt_bevycss::prelude::{BevyCssError, PropertyValues, Selector, SelectorElement, StyleRule};
use tomt_bevycss::property::impls::style::{
    AlignContent, AlignContentProperty, AlignItems, AlignItemsProperty, AlignSelf,
    AlignSelfProperty, AspectRatioProperty, BorderProperty, Direction, DirectionProperty, Display,
    DisplayProperty, FlexBasisProperty, FlexDirection, FlexDirectionProperty, FlexGrowProperty,
    FlexWrap, FlexWrapProperty, JustifyContent, JustifyContentProperty, MarginProperty,
    OverflowXProperty, OverflowYProperty, PositionType, PositionTypeProperty, WidthProperty,
};
use tomt_bevycss::property::{OverflowAxis, Property, UiRect, Val};
use tomt_bevycss::stylesheet::{StyleSheetAsset, StyleSheets};
use tomt_bevycss::parser::tokenizer::Scalar;
use tomt_bevycss::parser::StyleSheetParser;

fn scalar(value: f32) -> Scalar {
    Scalar { bits: value.to_bits() }
}

fn values(text: &str) -> PropertyValues {
    let rules = StyleSheetParser::parse(&format!("a {{ p: {text} }}"));
    rules[0].properties.get("p").unwrap().duplicate()
}

#[test]
fn a_sheet_answers_for_the_first_rule_of_a_selector() {
    let sheet = StyleSheetAsset::parse("ui.css", "a { x: 1; y: 2 } .b { z: 3 } a { w: 4 }");
    assert_eq!(sheet.path(), "ui.css");
    assert_eq!(sheet.iter().len(), 3);
    let a = Selector::new(vec![SelectorElement::Component("a".to_string())], 0);
    let b = Selector::new(vec![SelectorElement::Class("b".to_string())], 0);
    let c = Selector::new(vec![SelectorElement::Name("c".to_string())], 0);
    assert_eq!(sheet.get_property_names(&a), Some(vec!["x".to_string(), "y".to_string()]));
    assert_eq!(sheet.get_property_names(&b), Some(vec!["z".to_string()]));
    assert_eq!(sheet.get_property_names(&c), None);
    assert_eq!(sheet.get_property_value(&a, "y").map(|v| v.len()), Some(1));
    assert_eq!(sheet.get_property_value(&a, "w"), None);
    assert_eq!(sheet.get_property_value(&c, "x"), None);
    let orders: Vec<usize> = sheet.iter().iter().map(|r| r.selector.load_order()).collect();
    assert_eq!(orders, vec![1, 2, 3]);
}

#[test]
fn the_same_text_gives_the_same_sheet() {
    let text = "a.b #c { x: 1px 2% } @media x {} d { y: \"z\" } ### {} e {}";
    let first = StyleSheetAsset::parse("first", text);
    let second = StyleSheetAsset::parse("second", text);
    assert_eq!(first.hash(), second.hash());
    assert_eq!(first.iter().len(), second.iter().len());
    for (a, b) in first.iter().iter().zip(second.iter().iter()) {
        assert_eq!(a.selector.elements(), b.selector.elements());
        assert_eq!(a.selector.load_order(), b.selector.load_order());
        assert_eq!(a.selector.hash(), b.selector.hash());
        assert_eq!(a.properties.names(), b.properties.names());
        for name in a.properties.names() {
            assert_eq!(a.properties.get(&name), b.properties.get(&name));
        }
        assert_eq!(a.to_text(), b.to_text());
    }
    assert_ne!(first.hash(), StyleSheetAsset::parse("first", "a {}").hash());
}

#[test]
fn a_sheet_can_say_which_rules_it_left_out() {
    let (sheet, errors) = StyleSheetAsset::parse_with_errors("p", "a {} > {} b {}");
    assert_eq!(sheet.iter().len(), 2);
    assert_eq!(sheet.path(), "p");
    assert_eq!(sheet.hash(), StyleSheetAsset::parse("q", "a {} > {} b {}").hash());
    assert_eq!(errors.len(), 1);
    assert_eq!(errors[0].rule, "> {}");
}

#[test]
fn sheets_are_loaded_under_their_handles() {
    let mut sheets = StyleSheets::new();
    assert!(sheets.get(1).is_none());
    sheets.insert(1, StyleSheetAsset::parse("one", "a {}"));
    sheets.insert(2, StyleSheetAsset::parse("two", "a {} b {}"));
    sheets.insert(1, StyleSheetAsset::parse("three", ""));
    assert_eq!(sheets.get(1).map(|s| s.path()), Some("three"));
    assert_eq!(sheets.get(2).map(|s| s.iter().len()), Some(2));
    assert_eq!(sheets.sheets.len(), 2);
    sheets.insert(3, StyleSheetAsset::parse("four", ""));
    sheets.remove(2);
    assert!(sheets.get(2).is_none());
    let handles: Vec<u64> = sheets.sheets.iter().map(|s| s.handle).collect();
    assert_eq!(handles, vec![1, 3]);
    sheets.remove(9);
    assert_eq!(sheets.sheets.len(), 2);
}

#[test]
fn a_rule_starts_without_properties() {
    let selector = Selector::new(vec![SelectorElement::Class("a".to_string())], 3);
    let mut rule = StyleRule::new(selector.clone());
    assert!(rule.properties.is_empty());
    assert_eq!(rule.to_text(), ".a");
    rule.properties.insert("x".to_string(), values("1"));
    rule.properties.insert("y".to_string(), values("2"));
    rule.properties.insert("x".to_string(), values("3 4"));
    assert_eq!(rule.properties.len(), 2);
    assert_eq!(rule.properties.get("x").map(|v| v.len()), Some(2));
    assert_eq!(rule.properties.entries()[0].name, "x");
    assert!(!rule.properties.contains_key("z"));
    let copy = selector.duplicate();
    assert_eq!(copy.elements(), selector.elements());
    assert_eq!(copy.load_order(), 3);
    assert_eq!(StyleSheetType::default(), StyleSheetType::Css);
}

#[test]
fn layout_properties_parse_lengths_numbers_and_names() {
    let invalid = |name: &str| BevyCssError::InvalidPropertyValue(name.to_string());
    assert_eq!(MarginProperty::name(), "margin");
    assert_eq!(
        MarginProperty::parse(&values("1px 2px")),
        Ok(UiRect {
            top: Val::Px(scalar(1.0)),
            right: Val::Px(scalar(2.0)),
            bottom: Val::Px(scalar(0.0)),
            left: Val::Px(scalar(0.0))
        })
    );
    assert_eq!(BorderProperty::parse(&values("x")), Err(invalid("border")));
    assert_eq!(WidthProperty::parse(&values("50%")), Ok(Val::Percent(scalar(50.0))));
    assert_eq!(WidthProperty::parse(&values("50")), Err(invalid("width")));
    assert_eq!(FlexBasisProperty::parse(&values("auto")), Ok(Val::Auto));
    assert_eq!(FlexGrowProperty::parse(&values("2")), Ok(scalar(2.0)));
    assert_eq!(FlexGrowProperty::parse(&values("x")), Err(invalid("flex-grow")));
    assert_eq!(AspectRatioProperty::parse(&values("none")), Ok(None));
    assert_eq!(AspectRatioProperty::parse(&values("1.5")), Ok(Some(scalar(1.5))));
    assert_eq!(AspectRatioProperty::parse(&values("x")), Err(invalid("aspect-ratio")));
    assert_eq!(OverflowXProperty::parse(&values("hidden")), Ok(OverflowAxis::Clip));
    assert_eq!(OverflowYProperty::parse(&values("visible")), Ok(OverflowAxis::Visible));
    assert_eq!(OverflowYProperty::parse(&values("x")), Err(invalid("overflow-y")));
    assert_eq!(DisplayProperty::parse(&values("flex")), Ok(Display::Flex));
    assert_eq!(DisplayProperty::parse(&values("none")), Ok(Display::Absent));
    assert_eq!(DisplayProperty::parse(&values("grid")), Err(invalid("display")));
    assert_eq!(DisplayProperty::parse(&values("1")), Err(invalid("display")));
    assert_eq!(PositionTypeProperty::parse(&values("absolute")), Ok(PositionType::Absolute));
    assert_eq!(PositionTypeProperty::parse(&values("relative")), Ok(PositionType::Relative));
    assert_eq!(DirectionProperty::parse(&values("left-to-right")), Ok(Direction::LeftToRight));
    assert_eq!(DirectionProperty::parse(&values("inherit")), Ok(Direction::Inherit));
    assert_eq!(
        FlexDirectionProperty::parse(&values("column-reverse")),
        Ok(FlexDirection::ColumnReverse)
    );
    assert_eq!(FlexWrapProperty::parse(&values("no-wrap")), Ok(FlexWrap::NoWrap));
    assert_eq!(FlexWrapProperty::parse(&values("nowrap")), Err(invalid("flex-wrap")));
    assert_eq!(AlignItemsProperty::parse(&values("baseline")), Ok(AlignItems::Baseline));
    assert_eq!(AlignSelfProperty::parse(&values("auto")), Ok(AlignSelf::Auto));
    assert_eq!(
        AlignContentProperty::parse(&values("space-around")),
        Ok(AlignContent::SpaceAround)
    );
    assert_eq!(
        JustifyContentProperty::parse(&values("space-evenly")),
        Ok(JustifyContent::SpaceEvenly)
    );
    assert_eq!(
        JustifyContentProperty::parse(&values("stretch")),
        Err(invalid("justify-content"))
    );
    assert_eq!(JustifyContentProperty::name(), "justify-content");
}
