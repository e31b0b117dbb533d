use text_tree::content_tree::parse::{element, open_tag, parse_markup, MarkupError};
use text_tree::content_tree::{ElementData, Node};

fn chars(s: &str) -> usize {
    s.chars().count()
}

#[test]
fn simple_open_tag() {
    let open = "<a>";
    let (consumed, parsed) = open_tag(open).expect("it should parse");
    let classes = vec![String::from("a")];
    assert_eq!(parsed, ElementData { classes, id: None });
    assert_eq!(consumed, chars(open));
}

#[test]
fn open_tag_with_ignored_attrs() {
    let open = "<a href=\"my cool website\">";
    let (consumed, parsed) = open_tag(open).expect("it should parse");
    let classes = vec![String::from("a")];
    assert_eq!(parsed, ElementData { classes, id: None });
    assert_eq!(consumed, chars(open));
}

#[test]
fn open_tag_with_classes() {
    let open = "<a class=\"foo bar baz\">";
    let (consumed, parsed) = open_tag(open).expect("it should parse");
    let classes: Vec<String> = vec!["foo", "bar", "baz", "a"].into_iter().map(String::from).collect();
    assert_eq!(parsed, ElementData { classes, id: None });
    assert_eq!(consumed, chars(open));
}

#[test]
fn open_tag_with_classes_and_attrs() {
    let open = "<a href=\"my website\" class=\"foo bar baz\" something=\"lol\">";
    let (consumed, parsed) = open_tag(open).expect("it should parse");
    let classes: Vec<String> = vec!["foo", "bar", "baz", "a"].into_iter().map(String::from).collect();
    assert_eq!(parsed, ElementData { classes, id: None });
    assert_eq!(consumed, chars(open));
}

#[test]
fn open_tag_with_classes_and_id() {
    let open = "<a href=\"my website\" class=\"foo bar baz\" id=\"cool\">";
    let (consumed, parsed) = open_tag(open).expect("it should parse");
    let classes: Vec<String> = vec!["foo", "bar", "baz", "a"].into_iter().map(String::from).collect();
    assert_eq!(
        parsed,
        ElementData {
            classes,
            id: Some("cool".to_string())
        }
    );
    assert_eq!(consumed, chars(open));
}

#[test]
fn simple_nested() {
    let html = "<a><b></b></a>";
    let (consumed, parsed) = element(html).expect("it should parse");

    let b = Node::new(Vec::new(), None, vec!["b".to_string()]);
    let a = Node::new(vec![b], None, vec!["a".to_string()]);

    assert_eq!(parsed, a);
    assert_eq!(consumed, chars(html));
}

#[test]
fn bad_nesting_doesnt_parse() {
    let html = "<a></b><b></a>";
    assert!(element(html).is_err(), "html: {:?}", html);

    let html = "<a>";
    assert!(element(html).is_err(), "html: {:?}", html);

    let html = "<a><b>";
    assert!(element(html).is_err(), "html: {:?}", html);

    let html = "<a></b></a>";
    assert!(element(html).is_err(), "html: {:?}", html);

    let html = "<a><b></a>";
    assert!(element(html).is_err(), "html: {:?}", html);
}

#[test]
fn newline() {
    let html = "<a>\n</a>";
    let (consumed, parsed) = element(html).expect("it should parse");
    let a = Node::new(Vec::new(), None, vec!["a".to_string()]);

    assert_eq!(parsed, a);
    assert_eq!(consumed, chars(html));
}

#[test]
fn newline_text() {
    // The trailing newline of the text run collapses to a single space.
    let html = "<a>\nHello world\n</a>";
    let (consumed, parsed) = element(html).expect("it should parse");
    let a = Node::new(
        vec![Node::from("Hello world ".to_string())],
        None,
        vec!["a".to_string()],
    );

    assert_eq!(parsed, a);
    assert_eq!(consumed, chars(html));
}

#[test]
fn text() {
    let html = "Hello world!";
    let (consumed, parsed) = element(html).expect("it should parse");

    assert_eq!(parsed, Node::from("Hello world!".to_string()));
    assert_eq!(consumed, chars(html));
}

#[test]
fn simple_nested_text_1() {
    let html = "<a>Hello world!</a>";
    let (consumed, parsed) = element(html).expect("it should parse");
    let a = Node::new(
        vec![Node::from("Hello world!".to_string())],
        None,
        vec!["a".to_string()],
    );

    assert_eq!(parsed, a);
    assert_eq!(consumed, chars(html));
}

#[test]
fn simple_nested_text_2() {
    let html = "<a>Hello <b>world</b>!</a>";
    let (consumed, parsed) = element(html).expect("it should parse");
    let b = Node::new(
        vec![Node::from("world".to_string())],
        None,
        vec!["b".to_string()],
    );
    let a = Node::new(
        vec![Node::from("Hello ".to_string()), b, Node::from("!".to_string())],
        None,
        vec!["a".to_string()],
    );

    assert_eq!(parsed, a);
    assert_eq!(consumed, chars(html));
}

#[test]
fn simple_nested_text_attrs() {
    let html = "<a class=\"foo bar\" href=\"my cool website\">Hello <b id=\"thing\">world</b>!</a>";
    let (consumed, parsed) = element(html).expect("it should parse");
    let b = Node::new(
        vec![Node::from("world".to_string())],
        Some("thing".to_string()),
        vec!["b".to_string()],
    );
    let a = Node::new(
        vec![Node::from("Hello ".to_string()), b, Node::from("!".to_string())],
        None,
        vec!["foo", "bar", "a"].into_iter().map(String::from).collect(),
    );

    assert_eq!(parsed, a);
    assert_eq!(consumed, chars(html));
}

#[test]
fn bad_p() {
    let html = r#"<p>This domain is for use in illustrative examples in documents. You may use this
        domain in literature without prior coordination or asking for permission.</p>"#;
    let (_, _) = element(html).expect("it should parse");
}

#[test]
fn tag_name_joins_class_set() {
    // An element's class set is its attribute classes plus its tag name.
    let html = "<div class=\"foo\"></div>";
    let (_, parsed) = element(html).expect("it should parse");
    let expected = Node::new(Vec::new(), None, vec!["foo".to_string(), "div".to_string()]);
    assert_eq!(parsed, expected);
}

#[test]
fn duplicate_classes_collapse() {
    let (_, parsed) = open_tag("<a class=\"x x y\">").expect("it should parse");
    assert_eq!(
        parsed.classes,
        vec!["x".to_string(), "y".to_string(), "a".to_string()]
    );
}

#[test]
fn style_attribute_is_refused() {
    let html = "<a style=\"color: red\"></a>";
    match element(html) {
        Err(MarkupError::Unsupported(_)) => {}
        other => panic!("expected an unsupported-feature failure, got {:?}", other),
    }
}

#[test]
fn doctype_is_consumed() {
    let html = "<!DOCTYPE html><a></a>";
    let root = parse_markup(html).expect("it should parse");
    assert_eq!(root, Node::new(Vec::new(), None, vec!["a".to_string()]));
}

#[test]
fn comments_are_skipped() {
    let html = "<a><!-- a comment --><b></b></a>";
    let (_, parsed) = element(html).expect("it should parse");
    let b = Node::new(Vec::new(), None, vec!["b".to_string()]);
    assert_eq!(parsed, Node::new(vec![b], None, vec!["a".to_string()]));
}

#[test]
fn close_tag_is_case_insensitive() {
    let html = "<a></A>";
    let (_, parsed) = element(html).expect("it should parse");
    assert_eq!(parsed, Node::new(Vec::new(), None, vec!["a".to_string()]));
}

#[test]
fn self_closing_tag_needs_whitespace() {
    // The self-closing form requires whitespace and at least one attribute
    // before the slash, since the attribute list consumes trailing blanks.
    let html = "<a><b href=\"x\" /></a>";
    let (_, parsed) = element(html).expect("it should parse");
    let b = Node::new(Vec::new(), None, vec!["b".to_string()]);
    assert_eq!(parsed, Node::new(vec![b], None, vec!["a".to_string()]));
}

#[test]
fn whitespace_collapses_inside_text() {
    let html = "<a>two  words</a>";
    let (_, parsed) = element(html).expect("it should parse");
    let a = Node::new(
        vec![Node::from("two words".to_string())],
        None,
        vec!["a".to_string()],
    );
    assert_eq!(parsed, a);
}
