use text_tree::content_tree::parse::parse_markup;
use text_tree::content_tree::Node;
use text_tree::display::{build_display_list, DebugCanvas, DisplayCommand};
use text_tree::layout::{build_layout_tree, Borders, Dimensions, EdgeSizes, LayoutError, Rect};
use text_tree::style::parse::parse_stylesheet;
use text_tree::style::{Border, Declaration, DisplayKind, Rule, Selector, Stylesheet, Value};
use text_tree::style_tree::style_tree;

fn decl(name: &str, value: Value) -> Declaration {
    Declaration {
        name: name.to_string(),
        value,
    }
}

fn class_rule(class: &str, declarations: Vec<Declaration>) -> Rule {
    Rule {
        selectors: vec![Selector {
            id: None,
            classes: vec![class.to_string()],
        }],
        declarations,
    }
}

fn strings(names: &[&str]) -> Vec<String> {
    names.iter().map(|s| s.to_string()).collect()
}

fn root_block(content_width: i32) -> Dimensions {
    Dimensions {
        border_box: Rect {
            x: 0,
            y: 0,
            width: content_width,
            height: 0,
        },
        margin: EdgeSizes::default(),
        padding: EdgeSizes::default(),
        border: Borders::default(),
    }
}

#[test]
fn build_and_style_and_layout_and_paint_dom() {
    let root = Node::new(
        vec![
            Node::new(
                vec![Node::from("some \u{1F970} text".to_string())],
                None,
                strings(&["a", "block"]),
            ),
            Node::new(
                vec![
                    Node::from("some text".to_string()),
                    Node::from("more text".to_string()),
                ],
                None,
                strings(&["b", "block"]),
            ),
            Node::new(
                vec![
                    Node::from("some very long text that needs line breaking to work".to_string()),
                    Node::from("more text".to_string()),
                ],
                None,
                strings(&["c", "block"]),
            ),
            Node::new(
                vec![
                    Node::from("indented".to_string()),
                    Node::new(
                        vec![
                            Node::from("indented".to_string()),
                            Node::new(
                                vec![
                                    Node::from("indented".to_string()),
                                    Node::new(
                                        vec![Node::from("indented".to_string())],
                                        None,
                                        strings(&["d", "block"]),
                                    ),
                                ],
                                None,
                                strings(&["d", "block"]),
                            ),
                        ],
                        None,
                        strings(&["d", "block"]),
                    ),
                ],
                None,
                strings(&["d", "block"]),
            ),
        ],
        Some("root".to_string()),
        strings(&["block"]),
    );

    let sheet = Stylesheet {
        rules: vec![
            Rule {
                selectors: vec![Selector {
                    id: Some("root".to_string()),
                    classes: vec![],
                }],
                declarations: vec![
                    decl("padding", Value::AbsoluteLength(2)),
                    decl("margin", Value::AbsoluteLength(3)),
                    decl("border", Value::Border(Border::Double)),
                ],
            },
            class_rule("block", vec![decl("display", Value::Display(DisplayKind::Block))]),
            class_rule(
                "a",
                vec![
                    decl("padding", Value::AbsoluteLength(2)),
                    decl("border", Value::Border(Border::Light)),
                    decl("height", Value::AbsoluteLength(12)),
                ],
            ),
            class_rule(
                "b",
                vec![
                    decl("width", Value::AbsoluteLength(20)),
                    decl("height", Value::AbsoluteLength(2)),
                    decl("margin", Value::Auto),
                ],
            ),
            class_rule(
                "c",
                vec![
                    decl("width", Value::AbsoluteLength(40)),
                    decl("height", Value::AbsoluteLength(4)),
                    decl("margin-left", Value::AbsoluteLength(6)),
                    decl("margin-bottom", Value::AbsoluteLength(2)),
                    decl("border-left", Value::Border(Border::Double)),
                    decl("border-right", Value::Border(Border::Double)),
                    decl("border-top", Value::Border(Border::Light)),
                    decl("border-bottom", Value::Border(Border::Heavy)),
                ],
            ),
            class_rule("d", vec![decl("padding-left", Value::AbsoluteLength(2))]),
        ],
    };

    let styled_root = style_tree(&root, &sheet);
    let layout_root = build_layout_tree(&styled_root).expect("the root is a block");
    let laid = layout_root.layout(&root_block(80)).expect("layout fits");

    // The root's horizontal components: margins 3+3, borders 1+1, padding
    // 2+2, width auto; the underflow of the 80-cell containing block is 68.
    assert_eq!(laid.dimensions.border_box.x, 3);
    assert_eq!(laid.dimensions.border_box.y, 3);
    assert_eq!(laid.dimensions.border_box.width, 68);
    assert_eq!(laid.children.len(), 4);

    // The `.b` child: width 20 inside the root's 62-cell content box with
    // `margin: auto` is centered, 21 cells on each side.
    let b = &laid.children[1];
    assert_eq!(b.dimensions.border_box.width, 20);
    assert_eq!(b.dimensions.margin.left, 21);
    assert_eq!(b.dimensions.margin.right, 21);
    assert_eq!(b.dimensions.border_box.height, 2);

    let list = build_display_list(&laid).expect("display list fits");
    let mut canvas = DebugCanvas::new(80, 35);
    canvas.paint(&list);
    assert_eq!(canvas.rows().len(), 35);
    assert_eq!(canvas.rows()[0].len(), 80);
}

#[test]
fn end_to_end_explicit_width() {
    // A 10-cell block inside an 80-cell containing block keeps its width.
    let sheet = parse_stylesheet(".x { display: block; width: 10; }").expect("sheet parses");
    let root = parse_markup("<div class=\"x\"></div>").expect("markup parses");
    let styled = style_tree(&root, &sheet);
    let layout_root = build_layout_tree(&styled).expect("root is a block");
    let laid = layout_root.layout(&root_block(80)).expect("layout fits");
    assert_eq!(laid.dimensions.border_box.width, 10);
}

#[test]
fn end_to_end_auto_margins_center() {
    // width 20 with `margin: auto` in an 80-cell containing block splits the
    // 60-cell underflow evenly: both margins 30, border box at x = 30.
    let sheet =
        parse_stylesheet(".x { display: block; width: 20; margin: auto; }").expect("sheet parses");
    let root = parse_markup("<div class=\"x\"></div>").expect("markup parses");
    let styled = style_tree(&root, &sheet);
    let layout_root = build_layout_tree(&styled).expect("root is a block");
    let laid = layout_root.layout(&root_block(80)).expect("layout fits");
    assert_eq!(laid.dimensions.margin.left, 30);
    assert_eq!(laid.dimensions.margin.right, 30);
    assert_eq!(laid.dimensions.border_box.x, 30);
}

#[test]
fn overconstrained_margin_right_goes_negative() {
    // width 90 with both margins 0 in an 80-cell block: the right margin
    // absorbs the underflow and goes negative.
    let sheet = parse_stylesheet(".x { display: block; width: 90; margin: 0; }")
        .expect("sheet parses");
    let root = parse_markup("<div class=\"x\"></div>").expect("markup parses");
    let styled = style_tree(&root, &sheet);
    let layout_root = build_layout_tree(&styled).expect("root is a block");
    let laid = layout_root.layout(&root_block(80)).expect("layout fits");
    assert_eq!(laid.dimensions.border_box.width, 90);
    assert_eq!(laid.dimensions.margin.left, 0);
    assert_eq!(laid.dimensions.margin.right, -10);
}

#[test]
fn siblings_stack_below_each_other() {
    let sheet = parse_stylesheet(
        ".outer { display: block; } .x { display: block; height: 3; margin: 1; }",
    )
    .expect("sheet parses");
    let root = parse_markup("<div class=\"outer\"><p class=\"x\"></p><p class=\"x\"></p></div>")
        .expect("markup parses");
    let styled = style_tree(&root, &sheet);
    let layout_root = build_layout_tree(&styled).expect("root is a block");
    let laid = layout_root.layout(&root_block(80)).expect("layout fits");
    assert_eq!(laid.children.len(), 2);
    let first = &laid.children[0].dimensions;
    let second = &laid.children[1].dimensions;
    // margin-box height of the first child: 1 + 3 + 1 = 5.
    assert_eq!(first.border_box.y, 1);
    assert_eq!(second.border_box.y, 6);
    assert!(second.border_box.y >= first.border_box.y + 3 + 1 + 1);
}

#[test]
fn box_model_nesting() {
    let d = Dimensions {
        border_box: Rect {
            x: 10,
            y: 10,
            width: 20,
            height: 10,
        },
        padding: EdgeSizes {
            left: 2,
            right: 2,
            top: 1,
            bottom: 1,
        },
        border: Borders {
            left: Border::Light,
            right: Border::Light,
            top: Border::Light,
            bottom: Border::Light,
        },
        margin: EdgeSizes {
            left: 3,
            right: 3,
            top: 2,
            bottom: 2,
        },
    };
    let margin = d.margin_box();
    let border = d.border_box();
    let padding = d.padding_box();
    let content = d.content_box();
    assert_eq!((margin.x, margin.y, margin.width, margin.height), (7, 8, 26, 14));
    assert_eq!((border.x, border.y, border.width, border.height), (10, 10, 20, 10));
    assert_eq!((padding.x, padding.y, padding.width, padding.height), (11, 11, 18, 8));
    assert_eq!((content.x, content.y, content.width, content.height), (13, 12, 14, 6));
}

#[test]
fn hidden_root_is_an_error() {
    let sheet = parse_stylesheet(".x { display: none; }").expect("sheet parses");
    let root = parse_markup("<div class=\"x\"></div>").expect("markup parses");
    let styled = style_tree(&root, &sheet);
    match build_layout_tree(&styled) {
        Err(e) => assert_eq!(e, LayoutError::HiddenRoot),
        Ok(_) => panic!("a hidden root must not build"),
    }
}

#[test]
fn hidden_subtrees_are_pruned() {
    let sheet = parse_stylesheet(".outer { display: block; } .gone { display: none; }")
        .expect("sheet parses");
    let root = parse_markup("<div class=\"outer\"><p class=\"gone\"></p></div>")
        .expect("markup parses");
    let styled = style_tree(&root, &sheet);
    let layout_root = build_layout_tree(&styled).expect("root is a block");
    assert_eq!(layout_root.children.len(), 0);
}

#[test]
fn consecutive_inline_runs_share_one_anonymous_box() {
    let sheet = parse_stylesheet(".outer { display: block; }").expect("sheet parses");
    let root = parse_markup("<div class=\"outer\">one <b>two</b></div>").expect("markup parses");
    let styled = style_tree(&root, &sheet);
    let layout_root = build_layout_tree(&styled).expect("root is a block");
    // Both inline children are grouped under a single anonymous wrapper.
    assert_eq!(layout_root.children.len(), 1);
    assert_eq!(layout_root.children[0].children.len(), 2);
}

#[test]
fn inline_text_width_is_its_character_count() {
    let root = parse_markup("<a>hi</a>").expect("markup parses");
    let sheet = parse_stylesheet(".unused { width: 1; }").expect("sheet parses");
    let styled = style_tree(&root, &sheet);
    let layout_root = build_layout_tree(&styled).expect("root builds");
    let laid = layout_root.layout(&root_block(80)).expect("layout fits");
    assert_eq!(laid.dimensions.border_box.height, 1);
    assert_eq!(laid.dimensions.border_box.width, 2);
}

#[test]
fn canvas_paints_fill_and_border() {
    let mut canvas = DebugCanvas::new(5, 3);
    let rect = Rect {
        x: 0,
        y: 0,
        width: 5,
        height: 3,
    };
    let light = Borders {
        left: Border::Light,
        right: Border::Light,
        top: Border::Light,
        bottom: Border::Light,
    };
    let list = vec![DisplayCommand::BorderBox(rect, light)];
    canvas.paint(&list);
    // Coordinates clamp to the rightmost cell and bottom row before writing,
    // so the border lands in the first four columns and first two rows.
    let rows = canvas.rows();
    assert_eq!(rows[0], vec!['\u{250C}', '\u{2500}', '\u{2500}', '\u{2510}', '\u{22C5}']);
    assert_eq!(rows[1], vec!['\u{2514}', '\u{2500}', '\u{2500}', '\u{2518}', '\u{22C5}']);
    assert_eq!(rows[2], vec!['\u{22C5}'; 5]);
}

#[test]
fn canvas_fill_is_clamped() {
    let mut canvas = DebugCanvas::new(4, 4);
    let list = vec![DisplayCommand::FilledBox(
        Rect {
            x: -5,
            y: -5,
            width: 100,
            height: 100,
        },
        '#',
    )];
    canvas.paint(&list);
    let rows = canvas.rows();
    // The fill reaches the clamped bound, which excludes the last row and
    // column.
    assert_eq!(rows[0], vec!['#', '#', '#', '\u{22C5}']);
    assert_eq!(rows[3], vec!['\u{22C5}'; 4]);
}

#[test]
fn display_list_is_preorder_fill_then_border() {
    let sheet = parse_stylesheet(".outer { display: block; height: 2; }").expect("sheet parses");
    let root = parse_markup("<div class=\"outer\"></div>").expect("markup parses");
    let styled = style_tree(&root, &sheet);
    let layout_root = build_layout_tree(&styled).expect("root is a block");
    let laid = layout_root.layout(&root_block(10)).expect("layout fits");
    let list = build_display_list(&laid).expect("display list fits");
    assert_eq!(list.len(), 2);
    assert!(matches!(list[0], DisplayCommand::FilledBox(_, _)));
    assert!(matches!(list[1], DisplayCommand::BorderBox(_, _)));
}

#[test]
fn geometry_overflow_is_reported() {
    // Horizontal components that cannot be represented in cell coordinates
    // surface as a layout error instead of wrapping.
    let sheet = parse_stylesheet(
        ".x { display: block; width: 2147483647; padding-left: 2147483647; margin: 0; }",
    )
    .expect("sheet parses");
    let root = parse_markup("<div class=\"x\"></div>").expect("markup parses");
    let styled = style_tree(&root, &sheet);
    let layout_root = build_layout_tree(&styled).expect("root is a block");
    match layout_root.layout(&root_block(80)) {
        Err(e) => assert_eq!(e, LayoutError::Overflow),
        Ok(_) => panic!("this geometry cannot fit"),
    }
}

#[test]
fn rect_expansion_and_contraction() {
    let r = Rect {
        x: 5,
        y: 5,
        width: 4,
        height: 4,
    };
    let e = EdgeSizes {
        left: 1,
        right: 2,
        top: 3,
        bottom: 4,
    };
    let grown = r.expanded_by(&e);
    assert_eq!((grown.x, grown.y, grown.width, grown.height), (4, 2, 7, 11));
    let shrunk = r.contracted_by(&e);
    assert_eq!((shrunk.x, shrunk.y, shrunk.width, shrunk.height), (6, 8, 1, 0));
}

#[test]
fn anonymous_box_adopts_parent_dimensions() {
    // An anonymous wrapper takes the parent's dimensions as they stand, grows
    // its width by its inline children, and contributes no height of its own.
    let sheet = parse_stylesheet(".outer { display: block; }").expect("sheet parses");
    let root = parse_markup("<div class=\"outer\">abc</div>").expect("markup parses");
    let styled = style_tree(&root, &sheet);
    let layout_root = build_layout_tree(&styled).expect("root is a block");
    let laid = layout_root.layout(&root_block(80)).expect("layout fits");
    let anon = &laid.children[0];
    assert_eq!(anon.dimensions.border_box.x, 0);
    assert_eq!(anon.dimensions.border_box.y, 0);
    assert_eq!(anon.dimensions.border_box.width, 80 + 3);
    assert_eq!(anon.dimensions.border_box.height, 0);
    assert_eq!(laid.dimensions.border_box.height, 0);
}

#[test]
fn mixed_corner_styles_fall_back() {
    // A double edge meeting a non-double edge has no precise joint glyph; the
    // single-sided double corner stands in.
    let mut canvas = DebugCanvas::new(4, 4);
    let rect = Rect {
        x: 0,
        y: 0,
        width: 4,
        height: 4,
    };
    let borders = Borders {
        left: Border::Double,
        right: Border::Double,
        top: Border::Heavy,
        bottom: Border::Heavy,
    };
    canvas.paint(&vec![DisplayCommand::BorderBox(rect, borders)]);
    let rows = canvas.rows();
    assert_eq!(rows[0][0], '\u{2553}');
    assert_eq!(rows[0][2], '\u{2556}');
    assert_eq!(rows[2][0], '\u{2559}');
    assert_eq!(rows[2][2], '\u{255C}');
    assert_eq!(rows[0][1], '\u{2501}');
    assert_eq!(rows[1][0], '\u{2551}');
}
