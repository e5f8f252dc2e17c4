use tomt_bevycss::parser::tokenizer::Scalar;
use tomt_bevycss::parser::{format_error, RuleError, RuleErrorKind, StyleSheetParser};
use tomt_bevycss::prelude::{BevyCssError, PropertyToken, SelectorElement};

fn scalar(value: f32) -> Scalar {
    Scalar { bits: value.to_bits() }
}

#[test]
fn parse_empty() {
    assert!(
        StyleSheetParser::parse("").is_empty(),
        "Should return an empty list of rules"
    );
    assert!(
        StyleSheetParser::parse("{}").is_empty(),
        "\"{{}}\" Should return an empty list of rules"
    );
    assert!(
        StyleSheetParser::parse(" {}").is_empty(),
        "\" {{}}\" Should return an empty list of rules"
    );
    assert!(
        StyleSheetParser::parse("# {}").is_empty(),
        "\"# {{}}\" Should return an empty list of rules"
    );
    assert!(
        StyleSheetParser::parse("@@@ {}").is_empty(),
        "Should return an empty list of rules"
    );
    assert!(
        StyleSheetParser::parse("{}{}").is_empty(),
        "Should return an empty list of rules"
    );
}

#[test]
fn parse_single_name_selector_no_property() {
    let rules = StyleSheetParser::parse("#id {}");
    assert_eq!(rules.len(), 1, "Should have a single rule");

    let rule = &rules[0];
    let tree = rule.selector.get_parent_tree();
    assert_eq!(tree.len(), 1, "Should have a single selector node");

    let node = &tree[0];
    assert_eq!(tree.len(), 1, "Should have a single selector");

    match node[0] {
        SelectorElement::Name(name) => assert_eq!(name, "id"),
        _ => panic!("Should have a name selector"),
    }

    assert!(rule.properties.is_empty(), "Should have no token");
}

#[test]
fn parse_single_class_selector_no_property() {
    let rules = StyleSheetParser::parse(".class {}");
    assert_eq!(rules.len(), 1, "Should have a single rule");

    let rule = &rules[0];
    let tree = rule.selector.get_parent_tree();
    assert_eq!(tree.len(), 1, "Should have a single selector node");

    let node = &tree[0];
    assert_eq!(tree.len(), 1, "Should have a single selector");

    match node[0] {
        SelectorElement::Class(name) => assert_eq!(name, "class"),
        _ => panic!("Should have a class selector"),
    }

    assert!(rule.properties.is_empty(), "Should have no token");
}

#[test]
fn parse_single_component_selector_no_property() {
    let rules = StyleSheetParser::parse("button {}");
    assert_eq!(rules.len(), 1, "Should have a single rule");

    let rule = &rules[0];
    let tree = rule.selector.get_parent_tree();
    assert_eq!(tree.len(), 1, "Should have a single selector node");

    let node = &tree[0];
    assert_eq!(tree.len(), 1, "Should have a single selector");

    match node[0] {
        SelectorElement::Component(name) => assert_eq!(name, "button"),
        _ => panic!("Should have a class selector"),
    }

    assert!(rule.properties.is_empty(), "Should have no token");
}

#[test]
fn parse_single_complex_class_selector_no_property() {
    let rules = StyleSheetParser::parse(".a.b.c.d.e.f.g {}");
    assert_eq!(rules.len(), 1, "Should have a single rule");

    let rule = &rules[0];
    let tree = rule.selector.get_parent_tree();
    assert_eq!(tree.len(), 1, "Should have a single selector node");

    let node = &tree[0];
    assert_eq!(node.len(), 7, "Should have a 7 selector class");

    let expected: Vec<SelectorElement> = vec![
        SelectorElement::Class("a".to_string()),
        SelectorElement::Class("b".to_string()),
        SelectorElement::Class("c".to_string()),
        SelectorElement::Class("d".to_string()),
        SelectorElement::Class("e".to_string()),
        SelectorElement::Class("f".to_string()),
        SelectorElement::Class("g".to_string()),
    ];

    expected.into_iter().zip(node).for_each(|(expected, element)| {
        assert_eq!(expected, **element);
    });

    assert!(rule.properties.is_empty(), "Should have no token");
}

#[test]
fn parse_single_composed_selector_no_property() {
    let rules = StyleSheetParser::parse("a.b#c.d {}");
    assert_eq!(rules.len(), 1, "Should have a single rule");

    let rule = &rules[0];
    let tree = rule.selector.get_parent_tree();
    assert_eq!(tree.len(), 1, "Should have a single selector node");

    let node = &tree[0];
    assert_eq!(node.len(), 4, "Should have a 4 selectors");

    let expected: Vec<SelectorElement> = vec![
        SelectorElement::Component("a".to_string()),
        SelectorElement::Class("b".to_string()),
        SelectorElement::Name("c".to_string()),
        SelectorElement::Class("d".to_string()),
    ];

    expected.into_iter().zip(node).for_each(|(expected, element)| {
        assert_eq!(expected, **element);
    });

    assert!(rule.properties.is_empty(), "Should have no token");
}

#[test]
fn parse_multiple_composed_selector_no_property() {
    let rules = StyleSheetParser::parse("a.b #c .d e#f .g.h i j.k#l {}");
    assert_eq!(rules.len(), 1, "Should have a single rule");

    let rule = &rules[0];
    let tree = rule.selector.get_parent_tree();
    assert_eq!(tree.len(), 7, "Should have a single selector node");

    let expected: Vec<Vec<SelectorElement>> = vec![
        vec![
            SelectorElement::Component("a".to_string()),
            SelectorElement::Class("b".to_string()),
        ],
        vec![SelectorElement::Name("c".to_string())],
        vec![SelectorElement::Class("d".to_string())],
        vec![
            SelectorElement::Component("e".to_string()),
            SelectorElement::Name("f".to_string()),
        ],
        vec![
            SelectorElement::Class("g".to_string()),
            SelectorElement::Class("h".to_string()),
        ],
        vec![SelectorElement::Component("i".to_string())],
        vec![
            SelectorElement::Component("j".to_string()),
            SelectorElement::Class("k".to_string()),
            SelectorElement::Name("l".to_string()),
        ],
    ];

    for (node_expected, node) in expected.iter().zip(tree.iter()) {
        assert_eq!(node_expected.len(), node.len());
        for (expected, element) in node_expected.iter().zip(node.iter()) {
            assert_eq!(expected, *element);
        }
    }

    assert!(rule.properties.is_empty(), "Should have no properties");
}

#[test]
fn parse_single_token() {
    let rules = StyleSheetParser::parse("a {b: c}");
    assert_eq!(rules.len(), 1, "Should have a single rule");

    let properties = &rules[0].properties;

    assert_eq!(properties.len(), 1, "Should have a single property");
    assert!(
        properties.contains_key("b"),
        "Should have a property named \"b\""
    );

    let values = properties.get("b").unwrap();
    assert_eq!(values.len(), 1, "Should have a single property value");

    match &values.0[0] {
        PropertyToken::Identifier(ident) => assert_eq!(ident, "c"),
        _ => panic!("Should have a property value of type identifier token"),
    }
}

#[test]
fn parse_multiple_complex_properties() {
    let rules = StyleSheetParser::parse(
        r#"a {
        b: c;
        d: 0px;
        e: #f; 
        g: h i j; 
        k-k: 100%;
        l: 15.3px 3%;
        m: 12.9;
        n: "str";
        o: p q #r #s "t" 1 45.67% 33px;
        }"#,
    );

    assert_eq!(rules.len(), 1, "Should have a single rule");

    let properties = &rules[0].properties;

    let expected = [
        ("b", vec![PropertyToken::Identifier("c".to_string())]),
        ("d", vec![PropertyToken::Dimension(scalar(0.0))]),
        ("e", vec![PropertyToken::Hash("f".to_string())]),
        (
            "g",
            vec![
                PropertyToken::Identifier("h".to_string()),
                PropertyToken::Identifier("i".to_string()),
                PropertyToken::Identifier("j".to_string()),
            ],
        ),
        ("k-k", vec![PropertyToken::Percentage(scalar(100.0))]),
        (
            "l",
            vec![
                PropertyToken::Dimension(scalar(15.3)),
                PropertyToken::Percentage(scalar(3.0)),
            ],
        ),
        ("m", vec![PropertyToken::Number(scalar(12.9))]),
        ("n", vec![PropertyToken::String("str".to_string())]),
        (
            "o",
            vec![
                PropertyToken::Identifier("p".to_string()),
                PropertyToken::Identifier("q".to_string()),
                PropertyToken::Hash("r".to_string()),
                PropertyToken::Hash("s".to_string()),
                PropertyToken::String("t".to_string()),
                PropertyToken::Number(scalar(1.0)),
                PropertyToken::Percentage(scalar(45.67)),
                PropertyToken::Dimension(scalar(33.0)),
            ],
        ),
    ];

    assert_eq!(properties.len(), expected.len(), "{:?}", properties);
    expected.into_iter().for_each(|(name, values)| {
        assert!(properties.contains_key(name));
        let found = properties.get(name).unwrap();
        assert_eq!(found.len(), values.len());
        values.iter().zip(found.0.iter()).for_each(|(expected, token)| {
            assert_eq!(token, expected);
        })
    });
}

#[test]
fn parse_multiple_rules() {
    let rules = StyleSheetParser::parse(r#"a{a:a}a{a:a}a{a:a}a{a:a}"#);

    assert_eq!(rules.len(), 4, "Should have 4 rules");

    for rule in rules {
        match rule.selector.get_parent_tree()[0][0] {
            SelectorElement::Component(a) => assert_eq!(a, "a"),
            _ => panic!("Should have only a single component \"a\""),
        }

        match rule
            .properties
            .get("a")
            .expect("Should have a single property named \"a\"")
            .0
            .iter()
            .next()
            .expect("Should have a single property value")
        {
            PropertyToken::Identifier(a) => assert_eq!(a, "a"),
            _ => panic!("Should have only a single property value of type identifier"),
        }
    }
}

#[test]
fn malformed_rule_between_two_rules_is_left_out() {
    let (rules, errors) = StyleSheetParser::parse_with_errors("a{a:a} ### {} b{b:b}");
    assert_eq!(rules.len(), 2);
    assert_eq!(rules[0].selector.to_text(), "a");
    assert_eq!(rules[1].selector.to_text(), "b");
    assert!(rules[0].properties.contains_key("a"));
    assert!(rules[1].properties.contains_key("b"));
    assert_eq!(
        errors,
        vec![RuleError {
            kind: RuleErrorKind::Rule(BevyCssError::UnexpectedToken("#".to_string())),
            rule: "### {}".to_string(),
            line: 0,
            column: 7,
        }]
    );
    assert_eq!(format_error(&errors[0]), "Unexpected token: # at 1:8");
}

#[test]
fn descendant_selector_has_three_levels() {
    let rules = StyleSheetParser::parse("a.b #c .d {}");
    assert_eq!(rules.len(), 1);
    let tree = rules[0].selector.get_parent_tree();
    assert_eq!(tree.len(), 3);
    assert_eq!(
        tree[0],
        vec![
            &SelectorElement::Component("a".to_string()),
            &SelectorElement::Class("b".to_string())
        ]
    );
    assert_eq!(tree[1], vec![&SelectorElement::Name("c".to_string())]);
    assert_eq!(tree[2], vec![&SelectorElement::Class("d".to_string())]);
    assert_eq!(rules[0].selector.to_text(), "a.b #c .d");
}

#[test]
fn declaration_block_classifies_its_tokens() {
    let rules =
        StyleSheetParser::parse("x { b: c; d: 0px; e: #f; k-k: 100%; m: 12.9; n: \"str\" }");
    assert_eq!(rules.len(), 1);
    let p = &rules[0].properties;
    assert_eq!(p.len(), 6);
    assert_eq!(p.names(), vec!["b", "d", "e", "k-k", "m", "n"]);
    assert_eq!(p.get("b").unwrap().0, vec![PropertyToken::Identifier("c".to_string())]);
    assert_eq!(p.get("d").unwrap().0, vec![PropertyToken::Dimension(scalar(0.0))]);
    assert_eq!(p.get("e").unwrap().0, vec![PropertyToken::Hash("f".to_string())]);
    assert_eq!(p.get("k-k").unwrap().0, vec![PropertyToken::Percentage(scalar(100.0))]);
    assert_eq!(p.get("m").unwrap().0, vec![PropertyToken::Number(scalar(12.9))]);
    assert_eq!(p.get("n").unwrap().0, vec![PropertyToken::String("str".to_string())]);
}

#[test]
fn blocks_and_functions_inside_values_are_passed_over() {
    let rules = StyleSheetParser::parse("a { c: rgba(1, 2; 3) x; d: [ y; ] 4; e: 5 } b {}");
    assert_eq!(rules.len(), 2);
    let p = &rules[0].properties;
    assert_eq!(p.names(), vec!["c", "d", "e"]);
    assert_eq!(p.get("c").unwrap().0, vec![PropertyToken::Identifier("x".to_string())]);
    assert_eq!(p.get("d").unwrap().0, vec![PropertyToken::Number(scalar(4.0))]);
    assert_eq!(p.get("e").unwrap().0, vec![PropertyToken::Number(scalar(5.0))]);
}

#[test]
fn at_rules_and_rules_without_block_are_reported() {
    let (rules, errors) =
        StyleSheetParser::parse_with_errors("@import \"x\"; @media screen { a {} } a {} b");
    assert_eq!(rules.len(), 1);
    assert_eq!(rules[0].selector.load_order(), 1);
    let kinds: Vec<RuleErrorKind> = errors.iter().map(|e| e.kind.clone()).collect();
    assert_eq!(
        kinds,
        vec![
            RuleErrorKind::AtRule("import".to_string()),
            RuleErrorKind::AtRule("media".to_string()),
            RuleErrorKind::EndOfInput
        ]
    );
    let rules_left_out: Vec<&str> = errors.iter().map(|e| e.rule.as_str()).collect();
    assert_eq!(rules_left_out, vec!["@import \"x\";", "@media screen { a {} }", "b"]);
    assert_eq!(format_error(&errors[0]), "At rule isn't supported import at 1:1");
    assert_eq!(format_error(&errors[1]), "At rule isn't supported media at 1:14");
    assert_eq!(format_error(&errors[2]), "End of input at 1:42");
}

#[test]
fn later_declaration_of_a_name_replaces_the_earlier() {
    let rules = StyleSheetParser::parse("a { x: 1; y: 2; x: 3 }");
    let p = &rules[0].properties;
    assert_eq!(p.names(), vec!["x", "y"]);
    assert_eq!(p.get("x").unwrap().0, vec![PropertyToken::Number(scalar(3.0))]);
}

#[test]
fn selector_errors_name_their_cause() {
    let cases = [
        (". a {}", BevyCssError::UnexpectedToken(" ".to_string())),
        ("a. {}", BevyCssError::UnexpectedToken(" ".to_string())),
        ("a.{}", BevyCssError::InvalidSelector),
        ("a > b {}", BevyCssError::UnexpectedToken(">".to_string())),
        ("a::b {}", BevyCssError::UnexpectedToken(":".to_string())),
        ("a(b) {}", BevyCssError::UnexpectedToken("a(".to_string())),
        ("{}", BevyCssError::InvalidSelector),
    ];
    for (text, error) in cases {
        let (rules, errors) = StyleSheetParser::parse_with_errors(text);
        assert!(rules.is_empty(), "{text}");
        let kinds: Vec<RuleErrorKind> = errors.into_iter().map(|e| e.kind).collect();
        assert_eq!(kinds, vec![RuleErrorKind::Rule(error)], "{text}");
    }
    let rules = StyleSheetParser::parse("a:hover /* x */ /* y */ .b {}");
    assert_eq!(rules.len(), 1);
    assert_eq!(
        rules[0].selector.elements(),
        &vec![
            SelectorElement::Component("a".to_string()),
            SelectorElement::PseudoClass("hover".to_string()),
            SelectorElement::Child,
            SelectorElement::Class("b".to_string()),
        ]
    );
}

#[test]
fn errors_say_where_the_rule_starts() {
    let text = "a {}\n\n  b > c {\n x: 1 }\n/* d */ e {}\n@f;\n\té\u{1F600} ! {}";
    let (rules, errors) = StyleSheetParser::parse_with_errors(text);
    assert_eq!(rules.len(), 2);
    let places: Vec<(usize, usize)> = errors.iter().map(|e| (e.line, e.column)).collect();
    assert_eq!(places, vec![(2, 2), (5, 0), (6, 1)]);
    assert_eq!(errors[0].rule, "b > c {\n x: 1 }");
    assert_eq!(errors[2].rule, "é\u{1F600} ! {}");
    assert_eq!(format_error(&errors[0]), "Unexpected token: > at 3:3");
    assert_eq!(format_error(&errors[1]), "At rule isn't supported f at 6:1");
    assert_eq!(format_error(&errors[2]), "Unexpected token: ! at 7:2");
    let long = format!("{}x ! {{}}", "\n".repeat(1234));
    let (_, errors) = StyleSheetParser::parse_with_errors(&long);
    assert_eq!(format_error(&errors[0]), "Unexpected token: ! at 1235:1");
}

#[test]
fn three_classes_make_one_level_in_the_order_of_the_text() {
    let rules = StyleSheetParser::parse(".a.b.c {}");
    assert_eq!(rules.len(), 1);
    let tree = rules[0].selector.get_parent_tree();
    assert_eq!(tree.len(), 1);
    assert_eq!(
        tree[0],
        vec![
            &SelectorElement::Class("a".to_string()),
            &SelectorElement::Class("b".to_string()),
            &SelectorElement::Class("c".to_string()),
        ]
    );
}

fn described(text: &str) -> Vec<(String, Vec<(String, usize)>)> {
    StyleSheetParser::parse(text)
        .iter()
        .map(|rule| {
            (
                rule.selector.to_text(),
                rule.properties
                    .entries()
                    .iter()
                    .map(|d| (d.name.clone(), d.values.len()))
                    .collect(),
            )
        })
        .collect()
}

#[test]
fn a_rule_that_is_left_out_takes_nothing_from_the_rules_around_it() {
    let before = ["", "a{a:a}", "a .b{c:d e;f:1px} #g{}", " x{} /* y */ "];
    let left_out = [" ### {} ", ". a{b:c}", "a,b{c:d}", "@media x{a{b:c}}", "@import \"x\";"];
    let after = ["", "b{b:b}", " .h:hover{i:#fff} j k{}", "b{b:b} ### {} c{}"];
    for w1 in before {
        for m in left_out {
            for w2 in after {
                let mut expected = described(w1);
                expected.extend(described(w2));
                assert_eq!(described(&format!("{w1}{m}{w2}")), expected, "{w1}{m}{w2}");
            }
        }
    }
}

#[test]
fn rules_behind_a_rule_that_is_left_out_are_numbered_on() {
    let rules = StyleSheetParser::parse("a{} b{} ### {} c{} d{}");
    let orders: Vec<usize> = rules.iter().map(|r| r.selector.load_order()).collect();
    assert_eq!(orders, vec![1, 2, 3, 4]);
    let tokens = tomt_bevycss::parser::tokenizer::tokenize("a{} b{}");
    let mut joined = tokens.clone();
    joined.extend(tomt_bevycss::parser::tokenizer::tokenize(" ### {} "));
    joined.extend(tomt_bevycss::parser::tokenizer::tokenize("c{} d{}"));
    let (found, errors) = StyleSheetParser::parse_tokens(&joined);
    assert_eq!(errors.len(), 1);
    let texts: Vec<String> = found.iter().map(|r| r.selector.to_text()).collect();
    assert_eq!(texts, vec!["a", "b", "c", "d"]);
    let orders: Vec<usize> = found.iter().map(|r| r.selector.load_order()).collect();
    assert_eq!(orders, vec![1, 2, 3, 4]);
}
