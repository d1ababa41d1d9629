//! Source positions. Offsets count characters of the input.
use vstd::prelude::*;
use vstd::string::StrSliceExecFns;

verus! {

/// A location in the input: an offset and its 1-based line and column.
#[derive(Clone, Copy, Debug, PartialEq, Eq, Structural)]
pub struct Position {
    pub offset: usize,
    pub line: usize,
    pub col: usize,
}

/// The extent of a node in the input.
#[derive(Clone, Copy, Debug, PartialEq, Eq, Structural)]
pub struct Span {
    pub start: Position,
    pub end: Position,
}

/// One line of the input; `content` keeps the line break that ends it.
#[derive(Clone, Debug, PartialEq, Eq)]
pub struct SourceLine {
    pub content: String,
    pub start: usize,
    pub end: usize,
}

impl Span {
    pub open spec fn contains(self, inner: Span) -> bool {
        self.start.offset <= inner.start.offset && inner.end.offset <= self.end.offset
    }
}

/// `lines` cuts `input` into lines: each line runs up to and including a line
/// break, the last one up to the end of the input.
pub open spec fn lines_of(input: Seq<char>, lines: Seq<SourceLine>) -> bool {
    &&& lines.len() >= 1
    &&& lines[0].start == 0
    &&& lines.last().end == input.len()
    &&& forall|i: int|
        0 <= i < lines.len() ==> {
            &&& lines[i].start <= lines[i].end <= input.len()
            &&& (#[trigger] lines[i]).content@ == input.subrange(
                lines[i].start as int,
                lines[i].end as int,
            )
        }
    &&& forall|i: int|
        0 <= i < lines.len() - 1 ==> {
            &&& (#[trigger] lines[i]).end == lines[i + 1].start
            &&& lines[i].start < lines[i].end
            &&& input[lines[i].end - 1] == '\n'
            &&& forall|k: int| lines[i].start <= k < lines[i].end - 1 ==> input[k] != '\n'
        }
    &&& forall|k: int| lines.last().start <= k < lines.last().end ==> input[k] != '\n'
}

/// The line that holds `offset`: the last line that starts at or before it.
pub open spec fn holds_offset(lines: Seq<SourceLine>, idx: int, offset: int) -> bool {
    &&& 0 <= idx < lines.len()
    &&& lines[idx].start <= offset
    &&& (idx == lines.len() - 1 || offset < lines[idx + 1].start)
}

/// The position of `offset`, as `Position::new` computes it.
pub open spec fn position_at(lines: Seq<SourceLine>, offset: int, p: Position) -> bool {
    &&& p.offset == offset
    &&& holds_offset(lines, p.line - 1, offset)
    &&& p.col == offset - lines[p.line - 1].start + 1
}

impl Position {
    /// Resolves an offset to its line and column by a binary search over the
    /// line starts.
    pub fn new(offset: usize, source_lines: &Vec<SourceLine>) -> (p: Position)
        requires
            source_lines.len() >= 1,
            source_lines@[0].start == 0,
            offset <= source_lines@.last().end,
            offset < usize::MAX,
        ensures
            position_at(source_lines@, offset as int, p),
    {
        let mut lo: usize = 0;
        let mut hi: usize = source_lines.len() - 1;
        while lo < hi
            invariant
                lo <= hi < source_lines.len(),
                source_lines@[lo as int].start <= offset,
                hi == source_lines.len() - 1 || offset < source_lines@[hi + 1].start,
            decreases hi - lo,
        {
            let mid = lo + (hi - lo + 1) / 2;
            if source_lines[mid].start <= offset {
                lo = mid;
            } else {
                hi = mid - 1;
            }
        }
        Position { offset, line: lo + 1, col: offset - source_lines[lo].start + 1 }
    }
}

/// Splits the input into its lines, keeping each line break with its line.
pub fn get_source_lines(input: &str) -> (lines: Vec<SourceLine>)
    ensures
        lines_of(input@, lines@),
{
    let n = input.unicode_len();
    let mut lines: Vec<SourceLine> = Vec::new();
    let mut start: usize = 0;
    let mut i: usize = 0;
    while i < n
        invariant
            n == input@.len(),
            start <= i <= n,
            lines.len() == 0 ==> start == 0,
            lines.len() > 0 ==> lines@.last().end == start,
            forall|j: int|
                0 <= j < lines.len() ==> {
                    &&& lines@[j].start < lines@[j].end <= start
                    &&& (#[trigger] lines@[j]).content@ == input@.subrange(
                        lines@[j].start as int,
                        lines@[j].end as int,
                    )
                    &&& input@[lines@[j].end - 1] == '\n'
                    &&& forall|k: int| lines@[j].start <= k < lines@[j].end - 1 ==> input@[k] != '\n'
                },
            lines.len() > 0 ==> lines@[0].start == 0,
            forall|j: int| 0 <= j < lines.len() - 1 ==> (#[trigger] lines@[j]).end == lines@[j + 1].start,
            forall|k: int| start <= k < i ==> input@[k] != '\n',
        decreases n - i,
    {
        let c = input.get_char(i);
        if c == '\n' {
            let content = input.substring_char(start, i + 1).to_owned();
            lines.push(SourceLine { content, start, end: i + 1 });
            start = i + 1;
        }
        i = i + 1;
    }
    let content = input.substring_char(start, n).to_owned();
    lines.push(SourceLine { content, start, end: n });
    lines
}

} // verus!
