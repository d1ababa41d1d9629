use mediawiki_parser::{Element, ParseError, Position, Span, TransformationError};

fn error_with(expected: Vec<&str>, context: Vec<String>, start: usize, line: usize) -> ParseError {
    ParseError {
        position: Position { offset: 0, line, col: 3 },
        expected: expected.into_iter().map(|s| s.to_string()).collect(),
        context,
        context_start: start,
        context_end: start,
    }
}

#[test]
fn header_names_line_and_column() {
    let e = error_with(vec![], vec![], 0, 12);
    assert_eq!(
        e.header(),
        "ERROR in line 12 at column 3: Could not continue to parse, expected one of: "
    );
}

#[test]
fn expected_tokens_are_joined_and_blank_ones_quoted() {
    let e = error_with(vec!["'='", " ", "\n", "x"], vec![], 0, 1);
    assert_eq!(e.expected_line(), "'=', \" \", \"\\n\", x");
    let none = error_with(vec![], vec![], 0, 1);
    assert_eq!(none.expected_line(), "");
}

#[test]
fn context_lines_mark_the_failing_line() {
    let long = "y".repeat(100);
    let e = error_with(vec![], vec!["short\n".to_string(), long.clone(), long.clone()], 6, 8);
    let (g0, c0, f0) = e.context_line(0);
    assert_eq!((g0.as_str(), c0.as_str(), f0), ("7 |", "short\n", false));
    let (g1, c1, f1) = e.context_line(1);
    assert_eq!(g1, "8 |");
    assert!(f1);
    assert_eq!(c1, long);
    let (g2, c2, f2) = e.context_line(2);
    assert_eq!(g2, "9 |");
    assert!(!f2);
    assert_eq!(c2, format!("{}...", "y".repeat(80)));
}

#[test]
fn transformation_message_names_pass_and_span() {
    let span = Span {
        start: Position { offset: 0, line: 1, col: 2 },
        end: Position { offset: 9, line: 3, col: 4 },
    };
    let e = TransformationError {
        cause: "bad nesting".to_string(),
        position: span,
        transformation_name: "fold_lists_transformation".to_string(),
        tree: Element::Text { position: span, text: "t".to_string() },
    };
    assert_eq!(
        e.message(),
        "ERROR applying transformation \"fold_lists_transformation\" to Element at 1:2 to 3:4: bad nesting"
    );
}

#[test]
fn gutters_are_right_aligned() {
    let mut e = error_with(vec![], vec!["a\n".to_string(), "b\n".to_string(), "c\n".to_string()], 8, 10);
    e.context_end = 10;
    assert_eq!(e.context_line(0).0, " 9 |");
    assert_eq!(e.context_line(1).0, "10 |");
    assert_eq!(e.context_line(2).0, "11 |");
}
