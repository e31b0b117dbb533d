use text_tree::content_tree::ElementData;
use text_tree::content_tree::Node;
use text_tree::style_tree::style_tree;
use text_tree::style::parse::{parse_stylesheet, stylesheet};
use text_tree::style::{Border, Declaration, DisplayKind, Rule, Selector, Stylesheet, Value};
use text_tree::style_tree::specified_values;

#[test]
fn style_tuple_cmp() {
    let a = (1, 1, 3);
    let b = (2, 1, 2);
    assert!(a < b);
}

#[test]
fn mod_tuple_cmp() {
    let a = (1, 1, 3);
    let b = (2, 1, 2);
    assert!(a < b);
}

fn decl(name: &str, value: Value) -> Declaration {
    Declaration {
        name: name.to_string(),
        value,
    }
}

fn class_rule(class: &str, declarations: Vec<Declaration>) -> Rule {
    Rule {
        selectors: vec![Selector {
            id: None,
            classes: vec![class.to_string()],
        }],
        declarations,
    }
}

#[test]
fn parse_example_stylesheet() {
    let text = "#root {\n    padding: 2;\n    margin: 3;\n}\n\n.block { display: block; }\n\n.class-a {\n    padding: 2;\n    border: light;\n    height: 12;\n}\n\n.class-b {\n    width: 20;\n    height: 2;\n    margin: auto;\n}\n\n.class-c {\n    width: 40;\n    height: 4;\n    margin-left: 6;\n    margin-bottom: 2;\n    border-left: double;\n    border-right: double;\n    border-top: light;\n    border-bottom: heavy;\n}\n\n.class-d { padding-left: 2; }\n";
    let expected = Stylesheet {
        rules: vec![
            Rule {
                selectors: vec![Selector {
                    id: Some("root".to_string()),
                    classes: vec![],
                }],
                declarations: vec![
                    decl("padding", Value::AbsoluteLength(2)),
                    decl("margin", Value::AbsoluteLength(3)),
                ],
            },
            class_rule("block", vec![decl("display", Value::Display(DisplayKind::Block))]),
            class_rule(
                "class-a",
                vec![
                    decl("padding", Value::AbsoluteLength(2)),
                    decl("border", Value::Border(Border::Light)),
                    decl("height", Value::AbsoluteLength(12)),
                ],
            ),
            class_rule(
                "class-b",
                vec![
                    decl("width", Value::AbsoluteLength(20)),
                    decl("height", Value::AbsoluteLength(2)),
                    decl("margin", Value::Auto),
                ],
            ),
            class_rule(
                "class-c",
                vec![
                    decl("width", Value::AbsoluteLength(40)),
                    decl("height", Value::AbsoluteLength(4)),
                    decl("margin-left", Value::AbsoluteLength(6)),
                    decl("margin-bottom", Value::AbsoluteLength(2)),
                    decl("border-left", Value::Border(Border::Double)),
                    decl("border-right", Value::Border(Border::Double)),
                    decl("border-top", Value::Border(Border::Light)),
                    decl("border-bottom", Value::Border(Border::Heavy)),
                ],
            ),
            class_rule("class-d", vec![decl("padding-left", Value::AbsoluteLength(2))]),
        ],
    };
    assert_eq!(parse_stylesheet(text), Ok(expected));
}

#[test]
fn nice_parse_errors() {
    let tss = r#".x { y }"#;
    let err = stylesheet(tss).expect_err("shouldn't parse");
    println!("nice parse error: {:?}", err);
}

#[test]
fn unknown_property_is_kept_as_keyword() {
    let sheet = parse_stylesheet(".a { color: red; }").expect("it should parse");
    assert_eq!(
        sheet.rules[0].declarations[0],
        decl("color", Value::Keyword("red".to_string()))
    );
}

#[test]
fn width_auto_falls_back_to_keyword() {
    let sheet = parse_stylesheet(".a { width: auto; }").expect("it should parse");
    assert_eq!(
        sheet.rules[0].declarations[0],
        decl("width", Value::Keyword("auto".to_string()))
    );
}

#[test]
fn decimal_with_separators() {
    let sheet = parse_stylesheet(".a { width: 1_0; }").expect("it should parse");
    assert_eq!(
        sheet.rules[0].declarations[0],
        decl("width", Value::AbsoluteLength(10))
    );
}

#[test]
fn negative_length() {
    let sheet = parse_stylesheet(".a { margin-left: -5; }").expect("it should parse");
    assert_eq!(
        sheet.rules[0].declarations[0],
        decl("margin-left", Value::AbsoluteLength(-5))
    );
}

#[test]
fn oversized_length_falls_back_to_keyword() {
    let sheet = parse_stylesheet(".a { width: 99999999999; }").expect("it should parse");
    assert_eq!(
        sheet.rules[0].declarations[0],
        decl("width", Value::Keyword("99999999999".to_string()))
    );
}

#[test]
fn empty_rule_needs_tight_braces() {
    assert!(parse_stylesheet(".a {}").is_ok());
    assert!(parse_stylesheet("").is_err());
}

#[test]
fn cascade_specificity_beats_source_order() {
    // An id+class selector (specificity (1, 1, 0)) declared first still beats
    // a later class selector (specificity (0, 1, 0)).
    let sheet = Stylesheet {
        rules: vec![
            Rule {
                selectors: vec![Selector {
                    id: Some("root".to_string()),
                    classes: vec!["a".to_string()],
                }],
                declarations: vec![decl("width", Value::AbsoluteLength(20))],
            },
            class_rule("a", vec![decl("width", Value::AbsoluteLength(10))]),
        ],
    };
    let element = ElementData {
        id: Some("root".to_string()),
        classes: vec!["div".to_string(), "a".to_string()],
    };
    let values = specified_values(&element, &sheet);
    assert_eq!(
        values.get(&"width".to_string()),
        Some(&Value::AbsoluteLength(20))
    );
}

#[test]
fn cascade_tie_breaks_to_later_rule() {
    let sheet = Stylesheet {
        rules: vec![
            class_rule("a", vec![decl("width", Value::AbsoluteLength(10))]),
            class_rule("a", vec![decl("width", Value::AbsoluteLength(20))]),
        ],
    };
    let element = ElementData {
        id: Some("root".to_string()),
        classes: vec!["div".to_string(), "a".to_string()],
    };
    let values = specified_values(&element, &sheet);
    assert_eq!(
        values.get(&"width".to_string()),
        Some(&Value::AbsoluteLength(20))
    );
}

#[test]
fn unmatched_selector_contributes_nothing() {
    let sheet = Stylesheet {
        rules: vec![class_rule("b", vec![decl("width", Value::AbsoluteLength(10))])],
    };
    let element = ElementData {
        id: None,
        classes: vec!["a".to_string()],
    };
    let values = specified_values(&element, &sheet);
    assert_eq!(values.get(&"width".to_string()), None);
}

#[test]
fn selector_matching_rules() {
    let sheet = Stylesheet {
        rules: vec![
            class_rule("a", vec![decl("border", Value::Border(Border::Light))]),
            class_rule("b", vec![]),
            Rule {
                selectors: vec![Selector {
                    id: Some("x".to_string()),
                    classes: vec![],
                }],
                declarations: vec![],
            },
        ],
    };
    let element = ElementData {
        id: Some("x".to_string()),
        classes: vec!["a".to_string()],
    };
    let sel = &sheet.rules[0].selectors[0];
    assert!(sel.matches(&element));
    assert_eq!(sel.specificity(), (0, 1, 0));
    assert_eq!(sheet.rules[0].match_rule(&element), Some((0, 1, 0)));
    assert_eq!(sheet.rules[1].match_rule(&element), None);
    // Matching rules come back with their source index.
    assert_eq!(sheet.matching_rules(&element), vec![((0, 1, 0), 0), ((1, 0, 0), 2)]);
}

#[test]
fn value_sizes() {
    assert_eq!(Value::AbsoluteLength(7).to_chars(), 7);
    assert_eq!(Value::Auto.to_chars(), 0);
    assert_eq!(Value::Keyword("auto".to_string()).to_chars(), 0);
    assert_eq!(Value::Border(Border::Heavy).to_chars(), 0);
    assert_eq!(Border::Blank.size(), 0);
    assert_eq!(Border::Light.size(), 1);
    assert_eq!(Border::Heavy.size(), 1);
    assert_eq!(Border::Double.size(), 1);
}

#[test]
fn styled_node_lookups() {
    let sheet = parse_stylesheet(".a { display: block; margin: 4; margin-left: 6; }")
        .expect("sheet parses");
    let root = Node::new(Vec::new(), None, vec!["a".to_string()]);
    let styled = style_tree(&root, &sheet);
    assert_eq!(styled.display(), DisplayKind::Block);
    assert_eq!(styled.value("margin-left"), Some(Value::AbsoluteLength(6)));
    assert_eq!(styled.value("width"), None);
    // `margin-right` falls back to the `margin` shorthand, then the default.
    let zero = Value::AbsoluteLength(0);
    assert_eq!(
        styled.lookup("margin-right", "margin", &zero),
        Value::AbsoluteLength(4)
    );
    assert_eq!(styled.lookup("padding-left", "padding", &zero), zero);
}
