use mediawiki_parser::{
    apply_transformations, collapse_consecutive_text, collapse_paragraphs, enumerate_anon_args,
    fold_headings_transformation, fold_lists_transformation, get_source_lines, parse,
    whitespace_paragraphs_to_empty, Element, GeneralSettings, GrammarError, ListItemKind, MWError,
    ParseError, Position, Span,
};

fn sp(a: usize, b: usize) -> Span {
    Span {
        start: Position { offset: a, line: 1, col: a + 1 },
        end: Position { offset: b, line: 1, col: b + 1 },
    }
}

fn text(t: &str, a: usize) -> Element {
    Element::Text { position: sp(a, a + t.len()), text: t.to_string() }
}

fn doc(content: Vec<Element>) -> Element {
    Element::Document { position: sp(0, 100), content }
}

fn heading(depth: usize, cap: &str, a: usize) -> Element {
    Element::Heading { position: sp(a, a + 1), depth, caption: vec![text(cap, a)], content: vec![] }
}

fn para(t: &str, a: usize) -> Element {
    Element::Paragraph { position: sp(a, a + t.len()), content: vec![text(t, a)] }
}

fn item(depth: usize, kind: ListItemKind, t: &str, a: usize) -> Element {
    Element::ListItem { position: sp(a, a + 1), depth, kind, content: vec![text(t, a)] }
}

fn arg(name: Option<&str>, v: &str, a: usize) -> Element {
    Element::TemplateArgument {
        position: sp(a, a + 1),
        name: name.map(|s| s.to_string()),
        value: vec![text(v, a)],
    }
}

fn content_of(e: Element) -> Vec<Element> {
    match e {
        Element::Document { content, .. } => content,
        other => panic!("not a document: {:?}", other),
    }
}

#[test]
fn heading_fold_nests_by_depth() {
    let s = GeneralSettings {};
    let input = doc(vec![
        heading(1, "A", 0),
        text("x", 2),
        heading(2, "B", 4),
        text("y", 6),
        heading(1, "C", 8),
    ]);
    let out = content_of(fold_headings_transformation(input, &s).unwrap());
    let h2 = Element::Heading {
        position: sp(4, 7),
        depth: 2,
        caption: vec![text("B", 4)],
        content: vec![text("y", 6)],
    };
    let h1a = Element::Heading {
        position: sp(0, 7),
        depth: 1,
        caption: vec![text("A", 0)],
        content: vec![text("x", 2), h2],
    };
    let h1c = Element::Heading { position: sp(8, 9), depth: 1, caption: vec![text("C", 8)], content: vec![] };
    assert_eq!(out, vec![h1a, h1c]);
}

#[test]
fn heading_fold_keeps_leading_content() {
    let s = GeneralSettings {};
    let input = doc(vec![text("pre", 0), heading(2, "A", 4), text("x", 6)]);
    let out = content_of(fold_headings_transformation(input, &s).unwrap());
    assert_eq!(out.len(), 2);
    assert_eq!(out[0], text("pre", 0));
    match &out[1] {
        Element::Heading { content, .. } => assert_eq!(content, &vec![text("x", 6)]),
        other => panic!("{:?}", other),
    }
}

#[test]
fn list_fold_nests_by_depth() {
    let s = GeneralSettings {};
    let list = Element::List {
        position: sp(0, 10),
        content: vec![
            item(1, ListItemKind::Unordered, "a", 0),
            item(2, ListItemKind::Unordered, "b", 2),
            item(1, ListItemKind::Unordered, "c", 4),
        ],
    };
    let out = content_of(fold_lists_transformation(doc(vec![list]), &s).unwrap());
    let inner = Element::List { position: sp(2, 3), content: vec![item(2, ListItemKind::Unordered, "b", 2)] };
    let a = Element::ListItem {
        position: sp(0, 3),
        depth: 1,
        kind: ListItemKind::Unordered,
        content: vec![text("a", 0), inner],
    };
    let expected = Element::List { position: sp(0, 5), content: vec![a, item(1, ListItemKind::Unordered, "c", 4)] };
    assert_eq!(out, vec![expected]);
}

#[test]
fn list_fold_splits_kinds() {
    let s = GeneralSettings {};
    let list = Element::List {
        position: sp(0, 10),
        content: vec![item(1, ListItemKind::Unordered, "a", 0), item(1, ListItemKind::Ordered, "b", 2)],
    };
    let out = content_of(fold_lists_transformation(doc(vec![list]), &s).unwrap());
    assert_eq!(
        out,
        vec![
            Element::List { position: sp(0, 1), content: vec![item(1, ListItemKind::Unordered, "a", 0)] },
            Element::List { position: sp(2, 3), content: vec![item(1, ListItemKind::Ordered, "b", 2)] },
        ]
    );
}

#[test]
fn list_fold_rejects_depth_zero() {
    let s = GeneralSettings {};
    let list = Element::List { position: sp(0, 10), content: vec![item(0, ListItemKind::Unordered, "a", 0)] };
    let err = fold_lists_transformation(doc(vec![list]), &s).unwrap_err();
    assert_eq!(err.transformation_name, "fold_lists_transformation");
    assert_eq!(err.cause, "a list item has depth 0");
    assert_eq!(err.position, sp(0, 1));
    assert_eq!(
        err.tree,
        Element::List { position: sp(0, 1), content: vec![item(0, ListItemKind::Unordered, "a", 0)] }
    );
}

#[test]
fn bare_list_items_are_folded_into_a_list() {
    let s = GeneralSettings {};
    let input = doc(vec![
        item(1, ListItemKind::Unordered, "a", 0),
        item(2, ListItemKind::Unordered, "b", 2),
        item(1, ListItemKind::Unordered, "c", 4),
    ]);
    let out = content_of(apply_transformations(input, &s).unwrap());
    let inner = Element::List { position: sp(2, 3), content: vec![item(2, ListItemKind::Unordered, "b", 2)] };
    let a = Element::ListItem {
        position: sp(0, 3),
        depth: 1,
        kind: ListItemKind::Unordered,
        content: vec![text("a", 0), inner],
    };
    let expected = Element::List { position: sp(0, 5), content: vec![a, item(1, ListItemKind::Unordered, "c", 4)] };
    assert_eq!(out, vec![expected]);
}

#[test]
fn bare_list_items_of_two_kinds_make_two_lists() {
    let s = GeneralSettings {};
    let input = doc(vec![
        para("p", 0),
        item(1, ListItemKind::Unordered, "a", 2),
        item(1, ListItemKind::Ordered, "b", 4),
        para("q", 6),
    ]);
    let out = content_of(fold_lists_transformation(input, &s).unwrap());
    assert_eq!(
        out,
        vec![
            para("p", 0),
            Element::List { position: sp(2, 3), content: vec![item(1, ListItemKind::Unordered, "a", 2)] },
            Element::List { position: sp(4, 5), content: vec![item(1, ListItemKind::Ordered, "b", 4)] },
            para("q", 6),
        ]
    );
}

#[test]
fn bare_item_of_depth_zero_is_rejected() {
    let s = GeneralSettings {};
    let input = doc(vec![item(1, ListItemKind::Unordered, "a", 0), item(0, ListItemKind::Unordered, "b", 2)]);
    let err = fold_lists_transformation(input, &s).unwrap_err();
    assert_eq!(err.position, sp(0, 3));
    match err.tree {
        Element::List { content, .. } => assert_eq!(content.len(), 2),
        other => panic!("{:?}", other),
    }
}

#[test]
fn whitespace_paragraph_becomes_empty() {
    let s = GeneralSettings {};
    let out = content_of(whitespace_paragraphs_to_empty(doc(vec![para("   \n", 0)]), &s).unwrap());
    assert_eq!(out, vec![Element::Paragraph { position: sp(0, 4), content: vec![] }]);
    let kept = content_of(whitespace_paragraphs_to_empty(doc(vec![para(" x ", 0)]), &s).unwrap());
    assert_eq!(kept, vec![para(" x ", 0)]);
}

#[test]
fn separator_paragraph_is_dropped() {
    let s = GeneralSettings {};
    let input = doc(vec![para("x", 0), para("   ", 2), para("y", 6)]);
    let step = whitespace_paragraphs_to_empty(input, &s).unwrap();
    let out = content_of(collapse_paragraphs(step, &s).unwrap());
    assert_eq!(out, vec![para("x", 0), para("y", 6)]);
}

#[test]
fn empty_paragraph_at_the_edge_stays() {
    let s = GeneralSettings {};
    let empty = Element::Paragraph { position: sp(0, 0), content: vec![] };
    let input = doc(vec![Element::Paragraph { position: sp(0, 0), content: vec![] }, para("y", 2)]);
    let out = content_of(collapse_paragraphs(input, &s).unwrap());
    assert_eq!(out, vec![empty, para("y", 2)]);
}

#[test]
fn consecutive_text_is_merged() {
    let s = GeneralSettings {};
    let input = doc(vec![text("ab", 0), text("c", 2), para("p", 4), text("d", 6), text("e", 7)]);
    let out = content_of(collapse_consecutive_text(input, &s).unwrap());
    assert_eq!(
        out,
        vec![
            Element::Text { position: sp(0, 3), text: "abc".to_string() },
            para("p", 4),
            Element::Text { position: sp(6, 8), text: "de".to_string() },
        ]
    );
}

#[test]
fn text_collapse_twice_equals_once() {
    let s = GeneralSettings {};
    let make = || doc(vec![text("a", 0), text("b", 1), para("p", 3), text("c", 5)]);
    let once = collapse_consecutive_text(make(), &s).unwrap();
    let twice = collapse_consecutive_text(collapse_consecutive_text(make(), &s).unwrap(), &s).unwrap();
    assert_eq!(once, twice);
}

#[test]
fn anonymous_arguments_are_numbered() {
    let s = GeneralSettings {};
    let t = Element::Template {
        position: sp(0, 20),
        name: vec![text("t", 0)],
        content: vec![arg(None, "foo", 2), arg(Some("k"), "v", 6), arg(None, "bar", 10)],
    };
    let out = content_of(enumerate_anon_args(doc(vec![t]), &s).unwrap());
    let expected = Element::Template {
        position: sp(0, 20),
        name: vec![text("t", 0)],
        content: vec![arg(Some("1"), "foo", 2), arg(Some("k"), "v", 6), arg(Some("2"), "bar", 10)],
    };
    assert_eq!(out, vec![expected]);
}

#[test]
fn tenth_anonymous_argument_is_named_10() {
    let s = GeneralSettings {};
    let args: Vec<Element> = (0..10).map(|i| arg(None, "v", i)).collect();
    let t = Element::Template { position: sp(0, 20), name: vec![], content: args };
    let out = content_of(enumerate_anon_args(doc(vec![t]), &s).unwrap());
    match &out[0] {
        Element::Template { content, .. } => match &content[9] {
            Element::TemplateArgument { name, .. } => assert_eq!(name.as_deref(), Some("10")),
            other => panic!("{:?}", other),
        },
        other => panic!("{:?}", other),
    }
}

#[test]
fn source_lines_keep_line_breaks() {
    let lines = get_source_lines("ab\ncd\n");
    assert_eq!(lines.len(), 3);
    assert_eq!(lines[0].content, "ab\n");
    assert_eq!((lines[0].start, lines[0].end), (0, 3));
    assert_eq!(lines[1].content, "cd\n");
    assert_eq!((lines[1].start, lines[1].end), (3, 6));
    assert_eq!(lines[2].content, "");
    let empty = get_source_lines("");
    assert_eq!(empty.len(), 1);
    assert_eq!(empty[0].content, "");
}

#[test]
fn position_resolves_line_and_column() {
    let lines = get_source_lines("ab\ncd\nef");
    assert_eq!(Position::new(0, &lines), Position { offset: 0, line: 1, col: 1 });
    assert_eq!(Position::new(4, &lines), Position { offset: 4, line: 2, col: 2 });
    assert_eq!(Position::new(6, &lines), Position { offset: 6, line: 3, col: 1 });
    assert_eq!(Position::new(8, &lines), Position { offset: 8, line: 3, col: 3 });
}

fn numbered_lines(n: usize) -> String {
    let mut s = String::new();
    for i in 1..=n {
        s.push_str(&format!("line {}\n", i));
    }
    s
}

#[test]
fn parse_error_window_is_centred() {
    let input = numbered_lines(20);
    let offset = input.find("line 10").unwrap();
    let g = GrammarError { offset, line: 10, expected: vec!["'='".to_string(), "' '".to_string()] };
    let e = ParseError::from(&g, &input);
    assert_eq!(e.context_start, 4);
    assert_eq!(e.context_end, 14);
    assert_eq!(e.context.len(), 11);
    assert_eq!(e.context[5], "line 10\n");
    assert_eq!(e.expected, vec!["'='".to_string(), "' '".to_string()]);
    assert_eq!(e.position.line, 10);
    assert_eq!(e.position.col, 1);
}

#[test]
fn parse_error_window_is_clamped() {
    let input = numbered_lines(4);
    let g = GrammarError { offset: 2, line: 1, expected: vec![] };
    let e = ParseError::from(&g, &input);
    assert_eq!((e.context_start, e.context_end), (0, 4));
    let late = GrammarError { offset: input.len(), line: 99, expected: vec![] };
    let e = ParseError::from(&late, &input);
    assert_eq!((e.context_start, e.context_end), (0, 4));
    assert_eq!(e.position.line, 5);
}

#[test]
fn parse_error_line_zero_is_clamped() {
    let input = numbered_lines(8);
    let g = GrammarError { offset: 0, line: 0, expected: vec!["x".to_string()] };
    let e = ParseError::from(&g, &input);
    assert_eq!((e.context_start, e.context_end), (0, 5));
    assert_eq!(e.context.len(), 6);
}

#[test]
fn parse_reports_grammar_failure() {
    let input = "a\nb\n";
    let g = GrammarError { offset: 2, line: 2, expected: vec!["x".to_string()] };
    match parse(input, Err(g)) {
        Err(MWError::ParseError(e)) => {
            assert_eq!(e.position, Position { offset: 2, line: 2, col: 1 });
            assert_eq!(e.context, vec!["a\n".to_string(), "b\n".to_string(), "".to_string()]);
        },
        other => panic!("{:?}", other),
    }
}

#[test]
fn pipeline_stops_at_list_fold() {
    let list = Element::List {
        position: sp(0, 10),
        content: vec![item(0, ListItemKind::Unordered, "a", 0), arg(None, "x", 3)],
    };
    match parse("", Ok(doc(vec![list]))) {
        Err(MWError::TransformationError(e)) => {
            assert_eq!(e.transformation_name, "fold_lists_transformation");
        },
        other => panic!("{:?}", other),
    }
}

#[test]
fn pipeline_normalizes_document() {
    let s = GeneralSettings {};
    let input = doc(vec![heading(1, "A", 0), para("x", 2), para(" ", 4), para("y", 6), text("a", 8), text("b", 9)]);
    let out = content_of(apply_transformations(input, &s).unwrap());
    assert_eq!(out.len(), 1);
    match &out[0] {
        Element::Heading { content, position, .. } => {
            assert_eq!(
                content,
                &vec![para("x", 2), para("y", 6), Element::Text { position: sp(8, 10), text: "ab".to_string() }]
            );
            assert_eq!(*position, sp(0, 10));
        },
        other => panic!("{:?}", other),
    }
}
