//! Tests of the stylesheet parser: the original rule and declaration
//! grammar, segment splitting, and total parsing of malformed input.

use ecss::parser::StyleSheetParser;
use ecss::property::{Num, PropertyToken};
use ecss::selector::{PseudoClassElement, SelectorElement};

fn num(mantissa: u64, scale: u32) -> Num {
    Num { negative: false, mantissa, scale }
}

#[test]
fn parse_empty() {
    assert!(
        StyleSheetParser::parse("").is_empty(),
        "Should return an empty list of rules"
    );
    assert!(
        StyleSheetParser::parse("{}").is_empty(),
        "\"{{}}\" Should return an empty list of rules"
    );
    assert!(
        StyleSheetParser::parse(" {}").is_empty(),
        "\" {{}}\" Should return an empty list of rules"
    );
    assert!(
        StyleSheetParser::parse("# {}").is_empty(),
        "\"# {{}}\" Should return an empty list of rules"
    );
    assert!(
        StyleSheetParser::parse("@@@ {}").is_empty(),
        "Should return an empty list of rules"
    );
    assert!(
        StyleSheetParser::parse("{}{}").is_empty(),
        "Should return an empty list of rules"
    );
}

#[test]
fn parse_single_name_selector_no_property() {
    let rules = StyleSheetParser::parse("#id {}");
    assert_eq!(rules.len(), 1, "Should have a single rule");

    let rule = &rules[0];
    let tree = rule.selector.get_parent_tree();
    assert_eq!(tree.len(), 1, "Should have a single selector node");

    let node = &tree[0];
    assert_eq!(tree.len(), 1, "Should have a single selector");

    match &node[0] {
        SelectorElement::Name(name) => assert_eq!(name, "id"),
        _ => panic!("Should have a name selector"),
    }

    assert!(rule.properties.is_empty(), "Should have no token");
}

#[test]
fn parse_single_class_selector_no_property() {
    let rules = StyleSheetParser::parse(".class {}");
    assert_eq!(rules.len(), 1, "Should have a single rule");

    let rule = &rules[0];
    let tree = rule.selector.get_parent_tree();
    assert_eq!(tree.len(), 1, "Should have a single selector node");

    let node = &tree[0];
    assert_eq!(tree.len(), 1, "Should have a single selector");

    match &node[0] {
        SelectorElement::Class(name) => assert_eq!(name, "class"),
        _ => panic!("Should have a class selector"),
    }

    assert!(rule.properties.is_empty(), "Should have no token");
}

#[test]
fn parse_single_component_selector_no_property() {
    let rules = StyleSheetParser::parse("button {}");
    assert_eq!(rules.len(), 1, "Should have a single rule");

    let rule = &rules[0];
    let tree = rule.selector.get_parent_tree();
    assert_eq!(tree.len(), 1, "Should have a single selector node");

    let node = &tree[0];
    assert_eq!(tree.len(), 1, "Should have a single selector");

    match &node[0] {
        SelectorElement::Component(name) => assert_eq!(name, "button"),
        _ => panic!("Should have a class selector"),
    }

    assert!(rule.properties.is_empty(), "Should have no token");
}

#[test]
fn parse_single_complex_class_selector_no_property() {
    let rules = StyleSheetParser::parse(".a.b.c.d.e.f.g {}");
    assert_eq!(rules.len(), 1, "Should have a single rule");

    let rule = &rules[0];
    let tree = rule.selector.get_parent_tree();
    assert_eq!(tree.len(), 1, "Should have a single selector node");

    let node = &tree[0];
    assert_eq!(node.len(), 7, "Should have a 7 selector class");

    let expected = vec![
        SelectorElement::Class("a".to_string()),
        SelectorElement::Class("b".to_string()),
        SelectorElement::Class("c".to_string()),
        SelectorElement::Class("d".to_string()),
        SelectorElement::Class("e".to_string()),
        SelectorElement::Class("f".to_string()),
        SelectorElement::Class("g".to_string()),
    ];

    expected
        .into_iter()
        .zip(node.iter())
        .for_each(|(expected, element)| {
            assert_eq!(&expected, element);
        });

    assert!(rule.properties.is_empty(), "Should have no token");
}

#[test]
fn parse_single_composed_selector_no_property() {
    let rules = StyleSheetParser::parse("a.b#c.d:hover {}");
    assert_eq!(rules.len(), 1, "Should have a single rule");

    let rule = &rules[0];
    let tree = rule.selector.get_parent_tree();
    assert_eq!(tree.len(), 1, "Should have a single selector node: {:?}", tree);

    let node = &tree[0];
    assert_eq!(node.len(), 5, "Should have a 5 selectors");

    let expected = vec![
        SelectorElement::Component("a".to_string()),
        SelectorElement::Class("b".to_string()),
        SelectorElement::Name("c".to_string()),
        SelectorElement::Class("d".to_string()),
        SelectorElement::PseudoClass(PseudoClassElement::Hover),
    ];

    expected
        .into_iter()
        .zip(node.iter())
        .for_each(|(expected, element)| {
            assert_eq!(&expected, element);
        });

    assert!(rule.properties.is_empty(), "Should have no token");
}

#[test]
fn parse_multiple_composed_selector_no_property() {
    let rules = StyleSheetParser::parse("a.b #c .d e#f .g.h i j.k#l :hover {}");
    assert_eq!(rules.len(), 1, "Should have a single rule");

    let rule = &rules[0];
    let tree = rule.selector.get_parent_tree();
    assert_eq!(tree.len(), 8, "Should have 8 selectors");

    let expected: Vec<Vec<SelectorElement>> = vec![
        vec![
            SelectorElement::Component("a".to_string()),
            SelectorElement::Class("b".to_string()),
        ],
        vec![SelectorElement::Name("c".to_string())],
        vec![SelectorElement::Class("d".to_string())],
        vec![
            SelectorElement::Component("e".to_string()),
            SelectorElement::Name("f".to_string()),
        ],
        vec![
            SelectorElement::Class("g".to_string()),
            SelectorElement::Class("h".to_string()),
        ],
        vec![SelectorElement::Component("i".to_string())],
        vec![
            SelectorElement::Component("j".to_string()),
            SelectorElement::Class("k".to_string()),
            SelectorElement::Name("l".to_string()),
        ],
        vec![SelectorElement::PseudoClass(PseudoClassElement::Hover)],
    ];

    expected
        .into_iter()
        .zip(tree.iter())
        .for_each(|(node_expected, node)| {
            node_expected
                .into_iter()
                .zip(node.iter())
                .for_each(|(expected, element)| {
                    assert_eq!(&expected, element);
                });
        });

    assert!(rule.properties.is_empty(), "Should have no properties");
}

#[test]
fn parse_pseudo_class() {
    let rules = StyleSheetParser::parse("a:pseudo {b: c}");
    assert_eq!(rules.len(), 1, "Should have a single rule");

    let rule = &rules[0];
    let tree = rule.selector.get_parent_tree();
    assert_eq!(tree.len(), 1, "Should have a single selector");

    let expected: Vec<Vec<SelectorElement>> = vec![vec![
        SelectorElement::Component("a".to_string()),
        SelectorElement::PseudoClass(PseudoClassElement::Unsupported),
    ]];

    expected
        .into_iter()
        .zip(tree.iter())
        .for_each(|(node_expected, node)| {
            node_expected
                .into_iter()
                .zip(node.iter())
                .for_each(|(expected, element)| {
                    assert_eq!(&expected, element);
                });
        });

    let properties = &rules[0].properties;

    assert_eq!(properties.len(), 1, "Should have a single property");
    assert!(
        properties.contains_key("b"),
        "Should have a property named \"b\""
    );

    let values = properties.get("b").unwrap();

    assert_eq!(values.len(), 1, "Should have a single property value");

    match values.get(0) {
        PropertyToken::Identifier(ident) => assert_eq!(ident, "c"),
        _ => panic!("Should have a property value of type identifier token"),
    }
}

#[test]
fn parse_single_token() {
    let rules = StyleSheetParser::parse("a {b: c}");
    assert_eq!(rules.len(), 1, "Should have a single rule");

    let properties = &rules[0].properties;

    assert_eq!(properties.len(), 1, "Should have a single property");
    assert!(
        properties.contains_key("b"),
        "Should have a property named \"b\""
    );

    let values = properties.get("b").unwrap();

    assert_eq!(values.len(), 1, "Should have a single property value");

    match values.get(0) {
        PropertyToken::Identifier(ident) => assert_eq!(ident, "c"),
        _ => panic!("Should have a property value of type identifier token"),
    }
}

#[test]
fn parse_multiple_complex_properties() {
    let rules = StyleSheetParser::parse(
        r#"a {
            b: c;
            d: 0px;
            e: #f;
            g: h i j;
            k-k: 100%;
            l: 15.3px 3%;
            m: 12.9;
            n: "str";
            o: p q #r #s "t" 1 45.67% 33px;
        }"#,
    );

    assert_eq!(rules.len(), 1, "Should have a single rule");

    let properties = &rules[0].properties;

    let expected = [
        ("b", vec![PropertyToken::Identifier("c".to_string())]),
        ("d", vec![PropertyToken::Dimension(num(0, 0))]),
        ("e", vec![PropertyToken::Hash("f".to_string())]),
        (
            "g",
            vec![
                PropertyToken::Identifier("h".to_string()),
                PropertyToken::Identifier("i".to_string()),
                PropertyToken::Identifier("j".to_string()),
            ],
        ),
        ("k-k", vec![PropertyToken::Percentage(num(100, 0))]),
        ("l", vec![PropertyToken::Dimension(num(153, 1)), PropertyToken::Percentage(num(3, 0))]),
        ("m", vec![PropertyToken::Number(num(129, 1))]),
        ("n", vec![PropertyToken::Quoted("str".to_string())]),
        (
            "o",
            vec![
                PropertyToken::Identifier("p".to_string()),
                PropertyToken::Identifier("q".to_string()),
                PropertyToken::Hash("r".to_string()),
                PropertyToken::Hash("s".to_string()),
                PropertyToken::Quoted("t".to_string()),
                PropertyToken::Number(num(1, 0)),
                PropertyToken::Percentage(num(4567, 2)),
                PropertyToken::Dimension(num(33, 0)),
            ],
        ),
    ];

    assert_eq!(properties.len(), expected.len(), "{:?}", properties);
    expected.into_iter().for_each(|(name, values)| {
        assert!(properties.contains_key(name));
        let stored = properties.get(name).unwrap();
        assert_eq!(stored.len(), values.len());
        for (i, expected_token) in values.iter().enumerate() {
            assert_eq!(stored.get(i), expected_token);
        }
    });
}

#[test]
fn parse_multiple_rules() {
    let rules = StyleSheetParser::parse(r#"a{a:a}a{a:a}a{a:a}a{a:a}"#);

    assert_eq!(rules.len(), 4, "Should have 4 rules");

    for rule in rules {
        match &rule.selector.get_parent_tree()[0][0] {
            SelectorElement::Component(a) => assert_eq!(a, "a"),
            _ => panic!("Should have only a single component \"a\""),
        }

        let values = rule
            .properties
            .get("a")
            .expect("Should have a single property named \"a\"");
        assert!(values.len() >= 1, "Should have a single property value");
        match values.get(0) {
            PropertyToken::Identifier(a) => assert_eq!(a, "a"),
            _ => panic!("Should have only a single property value of type identifier"),
        }
    }
}

#[test]
fn parse_is_total_on_malformed_input() {
    // Parsing never fails as a whole; bad rules and declarations drop out.
    for garbage in [
        "a { b: ",
        "}{",
        "@",
        "/* never closed",
        "\"never closed",
        "..",
        "a{b:c;;}",
        "a b c",
        "# # # {}",
        "{ : ; }",
        "a { : c; d: e }",
        "1234 {}",
        "a { b }",
    ] {
        let _ = StyleSheetParser::parse(garbage);
    }
    let rules = StyleSheetParser::parse("a{b:c;;} broken } d{e:f}");
    assert!(rules.len() >= 1);
}

#[test]
fn parse_skips_bad_rule_keeps_good_one() {
    let rules = StyleSheetParser::parse("@bad {x: y} good {a: b}");
    assert_eq!(rules.len(), 1);
    match &rules[0].selector.get_parent_tree()[0][0] {
        SelectorElement::Component(c) => assert_eq!(c, "good"),
        _ => panic!("Should have kept the well-formed rule"),
    }
}

#[test]
fn parse_comments_are_skipped() {
    let rules = StyleSheetParser::parse("/* heading */ a { /* inner */ b: c; }");
    assert_eq!(rules.len(), 1);
    assert_eq!(rules[0].properties.len(), 1);
    assert!(rules[0].properties.contains_key("b"));
}

#[test]
fn parse_last_declaration_wins() {
    let rules = StyleSheetParser::parse("a { b: c; b: d; }");
    assert_eq!(rules.len(), 1);
    assert_eq!(rules[0].properties.len(), 1);
    match rules[0].properties.get("b").unwrap().get(0) {
        PropertyToken::Identifier(v) => assert_eq!(v, "d"),
        _ => panic!("Should hold the later value"),
    }
}

#[test]
fn selector_renders_canonical_text() {
    let rules = StyleSheetParser::parse("a.b #c *:hover {}");
    assert_eq!(rules.len(), 1);
    assert_eq!(rules[0].selector.render(), "a.b #c *:hover");
}

#[test]
fn selector_equality_goes_by_content_hash() {
    let first = StyleSheetParser::parse("a.b {}").remove(0).selector;
    let again = StyleSheetParser::parse("a.b {}").remove(0).selector;
    let other = StyleSheetParser::parse("a.c {}").remove(0).selector;
    assert!(first == again);
    assert!(first.hash() == again.hash());
    assert!(first != other);
}

#[test]
fn selector_from_raw_tokens() {
    let selector = ecss::selector::Selector::from_tokens(vec![
        "a".to_string(),
        ".".to_string(),
        "b".to_string(),
        "#c".to_string(),
        "".to_string(),
    ]);
    let tree = selector.get_parent_tree();
    assert_eq!(tree.len(), 1);
    let expected = vec![
        SelectorElement::Component("a".to_string()),
        SelectorElement::Class("b".to_string()),
        SelectorElement::Name("c".to_string()),
    ];
    assert_eq!(tree[0], expected);
}

#[test]
fn specificity_weights_follow_element_kinds() {
    let weight_of = |src: &str| {
        StyleSheetParser::parse(src).remove(0).selector.weight()
    };
    assert_eq!(weight_of("#id {}"), 100);
    assert_eq!(weight_of(".class {}"), 10);
    assert_eq!(weight_of("button {}"), 1);
    assert_eq!(weight_of("button:hover {}"), 11);
    assert_eq!(weight_of("a b {}"), 2);
    assert_eq!(weight_of("* {}"), 0);
    assert_eq!(weight_of("a.b#c.d:hover {}"), 131);
}
