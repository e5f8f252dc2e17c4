use tomt_bevycss::component::Class;
use tomt_bevycss::parser::tokenizer::{tokenize, Scalar, TokenKind};
use tomt_bevycss::parser::StyleSheetParser;
use tomt_bevycss::prelude::{BevyCssError, PropertyToken, PropertyValues, Selector, SelectorElement};
use tomt_bevycss::selector::hash_of_text;
use tomt_bevycss::stylesheet::StyleSheetAsset;
use tomt_bevycss::property::colors::{
    parse_hex_color, parse_named_color, to_color, CssColor,
};
use tomt_bevycss::property::{
    BackgroundColorProperty, BorderColorProperty, BorderRadius, BorderRadiusProperty, Color,
    FontColorProperty, FontProperty, FontSizeProperty, ImagePathProperty, JustifyText,
    OverflowAxis, Property, TextAlignProperty, TextContentProperty, UiRect, Val,
};

fn scalar(value: f32) -> Scalar {
    Scalar { bits: value.to_bits() }
}

fn px(value: f32) -> Val {
    Val::Px(scalar(value))
}

fn values(text: &str) -> PropertyValues {
    let rules = StyleSheetParser::parse(&format!("a {{ p: {text} }}"));
    rules[0].properties.get("p").unwrap().duplicate()
}

#[test]
fn one_dimension_makes_a_rect_of_four_equal_sides() {
    let one = PropertyValues(vec![PropertyToken::Dimension(scalar(10.0))]);
    assert_eq!(one.rect(), Some(UiRect::all(px(10.0))));
    assert_eq!(
        one.rect(),
        Some(UiRect { top: px(10.0), right: px(10.0), bottom: px(10.0), left: px(10.0) })
    );
}

#[test]
fn a_rect_takes_its_sides_in_order_and_passes_over_the_rest() {
    assert_eq!(
        values("1px 2% auto 4px").rect(),
        Some(UiRect {
            top: px(1.0),
            right: Val::Percent(scalar(2.0)),
            bottom: Val::Auto,
            left: px(4.0)
        })
    );
    assert_eq!(
        values("1px none 2px").rect(),
        Some(UiRect { top: px(1.0), right: px(2.0), bottom: px(0.0), left: px(0.0) })
    );
    assert_eq!(
        values("1px 2px 3px 4px 5px").rect(),
        Some(UiRect { top: px(1.0), right: px(2.0), bottom: px(3.0), left: px(4.0) })
    );
    assert_eq!(values("none").rect(), None);
    assert_eq!(values("none 7").rect(), None);
    assert_eq!(values("").rect(), None);
    assert_eq!(values("auto").rect(), Some(UiRect::all(Val::Auto)));
    assert_eq!(values("50%").rect(), Some(UiRect::all(Val::Percent(scalar(50.0)))));
}

#[test]
fn one_length_among_other_tokens_goes_to_all_four_sides() {
    let two = PropertyValues(vec![
        PropertyToken::Identifier("solid".to_string()),
        PropertyToken::Dimension(scalar(10.0)),
    ]);
    assert_eq!(two.rect(), Some(UiRect::all(px(10.0))));
    assert_eq!(values("10px solid").rect(), Some(UiRect::all(px(10.0))));
    assert_eq!(values("none 7 auto \"x\"").rect(), Some(UiRect::all(Val::Auto)));
    assert_eq!(
        values("solid 1px 2px").rect(),
        Some(UiRect { top: px(1.0), right: px(2.0), bottom: px(0.0), left: px(0.0) })
    );
}

#[test]
fn a_border_radius_takes_its_corners_in_order() {
    assert_eq!(values("3px").border_radius(), Some(BorderRadius::all(px(3.0))));
    assert_eq!(values("0").border_radius(), None);
    assert_eq!(
        values("1px 2px").border_radius(),
        Some(BorderRadius {
            top_left: px(1.0),
            top_right: px(2.0),
            bottom_right: px(1.0),
            bottom_left: px(2.0)
        })
    );
    assert_eq!(
        values("1px 0 3px").border_radius(),
        Some(BorderRadius {
            top_left: px(1.0),
            top_right: px(0.0),
            bottom_right: px(3.0),
            bottom_left: px(0.0)
        })
    );
    assert_eq!(
        values("1px 2px 3px 4px 5px").border_radius(),
        Some(BorderRadius {
            top_left: px(1.0),
            top_right: px(2.0),
            bottom_right: px(3.0),
            bottom_left: px(4.0)
        })
    );
    assert_eq!(values("-0 7").border_radius(), Some(BorderRadius::all(px(0.0))));
    assert_eq!(values("7 x").border_radius(), None);
}

#[test]
fn the_first_fitting_token_is_the_value() {
    assert_eq!(values("a \"\" \"s\" \"t\"").string(), Some("s".to_string()));
    assert_eq!(values("1 2").string(), None);
    assert_eq!(values("1 b c").identifier(), Some("b"));
    assert_eq!(values("\"b\"").identifier(), None);
    assert_eq!(values("x 50% 2px").val(), Some(Val::Percent(scalar(50.0))));
    assert_eq!(values("x auto 2px").val(), Some(Val::Auto));
    assert_eq!(values("7 x").val(), None);
    assert_eq!(values("x 7 2px").scalar(), Some(scalar(7.0)));
    assert_eq!(values("50%").scalar(), Some(scalar(50.0)));
    assert_eq!(values("x").scalar(), None);
    assert_eq!(values("x none 3").option_scalar(), Some(None));
    assert_eq!(values("x 3 none").option_scalar(), Some(Some(scalar(3.0))));
    assert_eq!(values("x y").option_scalar(), None);
    assert_eq!(values("visible").overflow(), Some(OverflowAxis::Visible));
    assert_eq!(values("hidden").overflow(), Some(OverflowAxis::Clip));
    assert_eq!(values("clip").overflow(), Some(OverflowAxis::Clip));
    assert_eq!(values("scroll").overflow(), None);
    assert_eq!(values("visible clip").overflow(), None);
    let some = values("a 1");
    assert_eq!(some.len(), 2);
    assert!(!some.is_empty());
    assert_eq!(some.get(1), Some(&PropertyToken::Number(scalar(1.0))));
    assert_eq!(some.get(2), None);
}

#[test]
fn a_color_is_one_name_or_one_hash() {
    let opaque = scalar(1.0);
    assert_eq!(
        values("red").color(),
        Some(Color::Rgba8 { red: 255, green: 0, blue: 0, alpha: opaque })
    );
    assert_eq!(
        values("#0f0").color(),
        Some(Color::Rgba8 { red: 0, green: 255, blue: 0, alpha: opaque })
    );
    assert_eq!(
        values("#102030").color(),
        Some(Color::Rgba8 { red: 16, green: 32, blue: 48, alpha: opaque })
    );
    assert_eq!(
        values("#10203080").color(),
        Some(Color::Rgba8 { red: 16, green: 32, blue: 48, alpha: scalar(128.0 / 255.0) })
    );
    assert_eq!(values("red blue").color(), None);
    assert_eq!(values("rgba(1, 2, 3, 4)").color(), None);
    assert_eq!(values("nocolor").color(), None);
    assert_eq!(values("#12").color(), None);
    assert_eq!(values("\"red\"").color(), None);
    assert_eq!(values("currentcolor").color(), None);
    assert_eq!(
        parse_named_color("Transparent"),
        Some(Color::Rgba8 { red: 0, green: 0, blue: 0, alpha: scalar(0.0) })
    );
    assert_eq!(
        parse_named_color("silver"),
        Some(Color::Rgba8 { red: 192, green: 192, blue: 192, alpha: opaque })
    );
    assert_eq!(parse_named_color("#fff"), None);
    assert_eq!(parse_hex_color("zzz"), None);
    assert_eq!(
        parse_hex_color("FfF"),
        Some(Color::Rgba8 { red: 255, green: 255, blue: 255, alpha: opaque })
    );
}

#[test]
fn a_color_function_of_the_srgb_space_is_taken_by_its_components() {
    let half = Some(scalar(0.5));
    assert_eq!(
        to_color(CssColor::ColorFunction { srgb: true, c1: half, c2: None, c3: half, alpha: None }),
        Some(Color::Rgba { red: scalar(0.5), green: scalar(0.0), blue: scalar(0.5), alpha: scalar(1.0) })
    );
    assert_eq!(
        to_color(CssColor::ColorFunction { srgb: true, c1: None, c2: None, c3: None, alpha: half }),
        Some(Color::Rgba { red: scalar(0.0), green: scalar(0.0), blue: scalar(0.0), alpha: scalar(0.5) })
    );
    assert_eq!(
        to_color(CssColor::ColorFunction { srgb: false, c1: half, c2: half, c3: half, alpha: half }),
        None
    );
    assert_eq!(to_color(CssColor::Other), None);
    assert_eq!(
        to_color(CssColor::Rgba { red: 1, green: 2, blue: 3, alpha: scalar(0.25) }),
        Some(Color::Rgba8 { red: 1, green: 2, blue: 3, alpha: scalar(0.25) })
    );
}

#[test]
fn properties_parse_their_values_or_name_themselves_in_the_error() {
    let invalid = |name: &str| BevyCssError::InvalidPropertyValue(name.to_string());
    assert_eq!(FontColorProperty::name(), "color");
    assert_eq!(
        FontColorProperty::parse(&values("blue")),
        Ok(Color::Rgba8 { red: 0, green: 0, blue: 255, alpha: scalar(1.0) })
    );
    assert_eq!(FontColorProperty::parse(&values("1")), Err(invalid("color")));
    assert_eq!(FontProperty::name(), "font");
    assert_eq!(FontProperty::parse(&values("\"a.ttf\"")), Ok("a.ttf".to_string()));
    assert_eq!(FontProperty::parse(&values("a")), Err(invalid("font")));
    assert_eq!(FontSizeProperty::name(), "font-size");
    assert_eq!(FontSizeProperty::parse(&values("12.5px")), Ok(scalar(12.5)));
    assert_eq!(FontSizeProperty::parse(&values("big")), Err(invalid("font-size")));
    assert_eq!(TextAlignProperty::name(), "text-align");
    assert_eq!(TextAlignProperty::parse(&values("left")), Ok(Some(JustifyText::Left)));
    assert_eq!(TextAlignProperty::parse(&values("center")), Ok(Some(JustifyText::Center)));
    assert_eq!(TextAlignProperty::parse(&values("1 right")), Ok(Some(JustifyText::Right)));
    assert_eq!(TextAlignProperty::parse(&values("top right")), Err(invalid("text-align")));
    assert_eq!(TextAlignProperty::parse(&values("1")), Err(invalid("text-align")));
    assert_eq!(TextContentProperty::name(), "text-content");
    assert_eq!(TextContentProperty::parse(&values("\"hi\"")), Ok("hi".to_string()));
    assert_eq!(TextContentProperty::parse(&values("\"\"")), Err(invalid("text-content")));
    assert_eq!(BackgroundColorProperty::name(), "background-color");
    assert_eq!(
        BackgroundColorProperty::parse(&values("#000")),
        Ok(Color::Rgba8 { red: 0, green: 0, blue: 0, alpha: scalar(1.0) })
    );
    assert_eq!(
        BackgroundColorProperty::parse(&values("")),
        Err(invalid("background-color"))
    );
    assert_eq!(BorderColorProperty::name(), "border-color");
    assert_eq!(BorderColorProperty::parse(&values("x")), Err(invalid("border-color")));
    assert_eq!(BorderRadiusProperty::name(), "border-radius");
    assert_eq!(
        BorderRadiusProperty::parse(&values("2px")),
        Ok(BorderRadius::all(px(2.0)))
    );
    assert_eq!(BorderRadiusProperty::parse(&values("x")), Err(invalid("border-radius")));
    assert_eq!(ImagePathProperty::name(), "image-path");
    assert_eq!(ImagePathProperty::parse(&values("\"a.png\"")), Ok("a.png".to_string()));
    assert_eq!(ImagePathProperty::parse(&values("a.png")), Err(invalid("image-path")));
}

#[test]
fn errors_read_as_lines() {
    assert_eq!(BevyCssError::UnsupportedSelector.message(), "Unsupported selector");
    assert_eq!(
        BevyCssError::UnsupportedProperty("p".to_string()).message(),
        "Unsupported property: p"
    );
    assert_eq!(
        BevyCssError::InvalidPropertyValue("v".to_string()).message(),
        "Invalid property value: v"
    );
    assert_eq!(BevyCssError::InvalidSelector.message(), "Invalid selector");
    assert_eq!(
        BevyCssError::UnexpectedToken("t".to_string()).message(),
        "Unexpected token: t"
    );
    let error = BevyCssError::UnexpectedToken("t".to_string());
    assert_eq!(error.duplicate(), error);
}

#[test]
fn class_names_are_the_words_of_the_text() {
    let class = Class::new("yellow-button  enabled\tbig\n");
    assert_eq!(class.names(), vec!["yellow-button", "enabled", "big"]);
    assert!(class.contains_class("enabled"));
    assert!(class.contains_class("big"));
    assert!(!class.contains_class("yellow"));
    assert!(!class.contains_class("yellow-button enabled"));
    assert!(!class.contains_class(""));
    assert!(class.matches("yellow-button"));
    assert!(!class.is_empty());
    assert!(Class::new("").is_empty());
    assert!(!Class::new(" ").is_empty());
    assert!(Class::new(" ").names().is_empty());
}

#[test]
fn adding_and_removing_class_names() {
    let mut class = Class::new("");
    class.add_class("a");
    assert_eq!(class.as_str(), "a");
    class.add_class("b");
    assert_eq!(class.as_str(), "a b");
    class.add_class("a");
    assert_eq!(class.as_str(), "a b");
    class.add_class("c");
    class.remove_class("b");
    assert_eq!(class.as_str(), "a c");
    class.remove_class("b");
    assert_eq!(class.as_str(), "a c");
    let mut spaced = Class::new("  a   b  a ");
    spaced.remove_class("x");
    assert_eq!(spaced.as_str(), "  a   b  a ");
    spaced.remove_class("a");
    assert_eq!(spaced.as_str(), "b");
    spaced.remove_class("b");
    assert_eq!(spaced.as_str(), "");
    assert!(spaced.is_empty());
}

#[test]
fn selectors_sort_by_names_then_classes_then_components_then_order() {
    let name = |n: &str| SelectorElement::Name(n.to_string());
    let class = |n: &str| SelectorElement::Class(n.to_string());
    let state = |n: &str| SelectorElement::PseudoClass(n.to_string());
    let component = |n: &str| SelectorElement::Component(n.to_string());
    let one_name = Selector::new(vec![name("a")], 1);
    let many_classes = Selector::new(
        vec![class("a"), class("b"), SelectorElement::Child, class("c"), component("d")],
        9,
    );
    assert!(many_classes.sorts_before(&one_name));
    assert!(!one_name.sorts_before(&many_classes));
    let class_and_state = Selector::new(vec![class("a"), state("hover")], 1);
    let two_classes = Selector::new(vec![class("a"), class("b")], 2);
    assert!(class_and_state.sorts_before(&two_classes));
    assert!(!two_classes.sorts_before(&class_and_state));
    let one_class = Selector::new(vec![class("a"), component("x"), component("y")], 5);
    assert!(one_class.sorts_before(&two_classes));
    let two_components = Selector::new(vec![component("a"), component("b")], 1);
    let one_component = Selector::new(vec![component("a")], 2);
    assert!(one_component.sorts_before(&two_components));
    assert!(!two_components.sorts_before(&one_component));
    let later = Selector::new(vec![component("z")], 3);
    assert!(one_component.sorts_before(&later));
    assert!(!later.sorts_before(&one_component));
    assert!(!later.sorts_before(&later));
    let weight = many_classes.specificity();
    assert_eq!((weight.names, weight.classes, weight.components), (0, 3, 1));
}

#[test]
fn a_selector_of_texts_tells_names_classes_and_components_apart() {
    let texts: Vec<String> = ["a", "", ".", "b", "#c", "d", ".", "#e", "f"]
        .iter()
        .map(|s| s.to_string())
        .collect();
    let selector = Selector::from(&texts, 4);
    assert_eq!(
        selector.elements(),
        &vec![
            SelectorElement::Component("a".to_string()),
            SelectorElement::Class("b".to_string()),
            SelectorElement::Name("c".to_string()),
            SelectorElement::Component("d".to_string()),
            SelectorElement::Name("e".to_string()),
            SelectorElement::Component("f".to_string()),
        ]
    );
    assert_eq!(selector.load_order(), 4);
    assert_eq!(selector.to_text(), "a.b#cd#ef");
    assert_eq!(selector.get_parent_tree().len(), 1);
}

#[test]
fn tokens_keep_their_text_and_percentages_their_written_value() {
    let tokens = tokenize("a 45.67% /*c*/ {x:1e2}");
    let kinds: Vec<TokenKind> = tokens.iter().map(|t| t.kind.clone()).collect();
    assert_eq!(
        kinds,
        vec![
            TokenKind::Ident("a".to_string()),
            TokenKind::WhiteSpace,
            TokenKind::Percentage(scalar(45.67)),
            TokenKind::WhiteSpace,
            TokenKind::Comment,
            TokenKind::WhiteSpace,
            TokenKind::CurlyBracketBlock,
            TokenKind::Ident("x".to_string()),
            TokenKind::Colon,
            TokenKind::Number(scalar(100.0)),
            TokenKind::CloseCurlyBracket,
        ]
    );
    let sources: Vec<&str> = tokens.iter().map(|t| t.source.as_str()).collect();
    assert_eq!(
        sources,
        vec!["a", " ", "45.67%", " ", "/*c*/", " ", "{", "x", ":", "1e2", "}"]
    );
    let others = tokenize(", url(x) \"unclosed\n ~= é");
    assert_eq!(others[0].kind, TokenKind::Other);
    assert_eq!(others[2].kind, TokenKind::Other);
    assert!(tokenize("").is_empty());
}

fn mix(h: u64, x: u64) -> u64 {
    (h ^ x).wrapping_mul(0x0000_0100_0000_01b3)
}

#[test]
fn hashes_take_in_one_character_after_the_other() {
    let start: u64 = 0xcbf2_9ce4_8422_2325;
    assert_eq!(hash_of_text(""), start);
    assert_eq!(hash_of_text("a"), 0xaf63_dc4c_8601_ec8c);
    assert_eq!(hash_of_text("ab"), mix(mix(start, 'a' as u64), 'b' as u64));
    assert_eq!(hash_of_text("é"), mix(start, 0xe9));
    assert_ne!(hash_of_text("ab"), hash_of_text("ba"));
    assert_eq!(StyleSheetAsset::parse("p", "ab").hash(), hash_of_text("ab"));

    let selector = Selector::new(
        vec![
            SelectorElement::Name("a".to_string()),
            SelectorElement::Child,
            SelectorElement::Class("bc".to_string()),
        ],
        1,
    );
    let mut h = start;
    h = mix(mix(mix(h, 1), 'a' as u64), 0xff);
    h = mix(mix(h, 5), 0xff);
    h = mix(mix(mix(mix(h, 3), 'b' as u64), 'c' as u64), 0xff);
    assert_eq!(selector.hash(), h);
    assert_eq!(Selector::new(vec![], 1).hash(), start);
    let component = Selector::new(vec![SelectorElement::Component("a".to_string())], 1);
    let state = Selector::new(vec![SelectorElement::PseudoClass("a".to_string())], 1);
    assert_eq!(component.hash(), mix(mix(mix(start, 2), 'a' as u64), 0xff));
    assert_eq!(state.hash(), mix(mix(mix(start, 4), 'a' as u64), 0xff));
}
