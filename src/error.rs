//! Parse and transformation failures.
use vstd::prelude::*;
use crate::ast::Element;
use crate::position::{Position, Span, SourceLine, get_source_lines, lines_of, position_at};

verus! {

/// The number of lines shown on each side of a failing line.
pub const ERROR_CONTEXT_LINES: usize = 5;

/// What the grammar reports when no rule matches: where, and which tokens
/// would have been accepted there.
#[derive(Debug, PartialEq)]
pub struct GrammarError {
    pub offset: usize,
    pub line: usize,
    pub expected: Vec<String>,
}

/// The parser error with source code context.
#[derive(Debug, PartialEq)]
pub struct ParseError {
    pub position: Position,
    pub expected: Vec<String>,
    pub context: Vec<String>,
    pub context_start: usize,
    pub context_end: usize,
}

/// Error structure for syntax tree transformations.
#[derive(Debug, PartialEq)]
pub struct TransformationError {
    pub cause: String,
    pub position: Span,
    pub transformation_name: String,
    pub tree: Element,
}

/// Either failure of `parse`.
#[derive(Debug, PartialEq)]
pub enum MWError {
    ParseError(ParseError),
    TransformationError(TransformationError),
}

/// The 0-based failing line, clamped into `[0, line_count - 1]`.
pub open spec fn failing_line(reported: int, line_count: int) -> int {
    if reported == 0 {
        0
    } else if reported <= line_count {
        reported - 1
    } else {
        line_count - 1
    }
}

/// First line of the context window around line `l`.
pub open spec fn window_start(l: int) -> int {
    if l < ERROR_CONTEXT_LINES { 0 } else { l - ERROR_CONTEXT_LINES }
}

/// Last line of the context window around line `l`.
pub open spec fn window_end(l: int, line_count: int) -> int {
    if l + ERROR_CONTEXT_LINES < line_count { l + ERROR_CONTEXT_LINES } else { line_count - 1 }
}

/// `e` is the diagnostic for `err` over the input's lines `lines`.
pub open spec fn describes(e: ParseError, err: GrammarError, lines: Seq<SourceLine>) -> bool {
    let l = failing_line(err.line as int, lines.len() as int);
    &&& position_at(lines, err.offset as int, e.position)
    &&& e.expected@.len() == err.expected@.len()
    &&& forall|i: int| 0 <= i < err.expected@.len() ==> (#[trigger] e.expected@[i])@ == err.expected@[i]@
    &&& e.context_start == window_start(l)
    &&& e.context_end == window_end(l, lines.len() as int)
    &&& e.context@.len() == e.context_end - e.context_start + 1
    &&& forall|i: int|
        0 <= i < e.context@.len() ==> (#[trigger] e.context@[i])@ == lines[e.context_start + i].content@
}

impl ParseError {
    /// Builds the diagnostic for a grammar failure: the failing position, the
    /// expected tokens, and up to five lines of context on each side.
    pub fn from(err: &GrammarError, input: &str) -> (r: ParseError)
        requires
            err.offset <= input@.len(),
            err.offset < usize::MAX,
        ensures
            exists|lines: Seq<SourceLine>| lines_of(input@, lines) && describes(r, *err, lines),
    {
        let source_lines = get_source_lines(input);
        let line_count = source_lines.len();
        let line = if err.line == 0 {
            0
        } else if err.line <= line_count {
            err.line - 1
        } else {
            line_count - 1
        };
        let start = if line < ERROR_CONTEXT_LINES { 0 } else { line - ERROR_CONTEXT_LINES };
        let end = if line_count - 1 - line > ERROR_CONTEXT_LINES {
            line + ERROR_CONTEXT_LINES
        } else {
            line_count - 1
        };

        let mut expected: Vec<String> = Vec::new();
        let mut i: usize = 0;
        while i < err.expected.len()
            invariant
                i <= err.expected@.len(),
                expected@.len() == i,
                forall|j: int| 0 <= j < i ==> (#[trigger] expected@[j])@ == err.expected@[j]@,
            decreases err.expected@.len() - i,
        {
            expected.push(err.expected[i].clone());
            i = i + 1;
        }

        let mut context: Vec<String> = Vec::new();
        let mut k: usize = start;
        while k <= end
            invariant
                start <= k <= end + 1,
                end < line_count,
                line_count == source_lines@.len(),
                context@.len() == k - start,
                forall|j: int|
                    0 <= j < context@.len() ==> (#[trigger] context@[j])@ == source_lines@[start
                        + j].content@,
            decreases end + 1 - k,
        {
            context.push(source_lines[k].content.clone());
            k = k + 1;
        }

        let position = Position::new(err.offset, &source_lines);
        let r = ParseError { position, expected, context, context_start: start, context_end: end };
        assert(describes(r, *err, source_lines@));
        r
    }
}

} // verus!
