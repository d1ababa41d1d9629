//! Plain-text rendering of the diagnostics; styling is left to the caller.
use vstd::prelude::*;
use vstd::string::StrSliceExecFns;
use crate::error::{ParseError, TransformationError};
use crate::passes::{decimal, decimal_string, is_blank};

verus! {

/// Context lines longer than this are cut when shown.
pub const MAX_CONTEXT_CHARS: usize = 80;

/// The escaped, quoted form in which a string literal is debug-printed.
pub uninterp spec fn debug_text(s: Seq<char>) -> Seq<char>;

/// How debug printing writes a blank character: a space as itself, tab,
/// line feed and carriage return as `\t`, `\n`, `\r`.
pub open spec fn escaped_blank(c: char) -> Seq<char> {
    if c == '\t' {
        seq!['\\', 't']
    } else if c == '\n' {
        seq!['\\', 'n']
    } else if c == '\r' {
        seq!['\\', 'r']
    } else {
        seq![c]
    }
}

/// The characters of a blank string, each as debug printing writes it.
pub open spec fn escaped_blanks(s: Seq<char>) -> Seq<char>
    decreases s.len(),
{
    if s.len() == 0 {
        Seq::empty()
    } else {
        escaped_blanks(s.drop_last()) + escaped_blank(s.last())
    }
}

/// Relies on `<str as Debug>::fmt`: the quoted, escaped form of the string;
/// a string of blanks is written between double quotes with each blank as
/// `escaped_blank` gives it.
#[verifier::external_body]
fn quoted(s: &String) -> (r: String)
    ensures
        r@ == debug_text(s@),
        blank_token(s@) ==> r@ == seq!['"'] + escaped_blanks(s@) + seq!['"'],
{
    format!("{:?}", s)
}

/// A token made of white space only, shown quoted so that it can be seen.
pub open spec fn blank_token(t: Seq<char>) -> bool {
    forall|j: int| 0 <= j < t.len() ==> is_blank(t[j])
}

/// How a token is shown among the expected ones.
pub open spec fn shown_token(t: Seq<char>) -> Seq<char> {
    if blank_token(t) {
        seq!['"'] + escaped_blanks(t) + seq!['"']
    } else {
        t
    }
}

/// The tokens `ts` shown and joined by ", ".
pub open spec fn joined_tokens(ts: Seq<Seq<char>>) -> Seq<char>
    decreases ts.len(),
{
    if ts.len() == 0 {
        Seq::empty()
    } else if ts.len() == 1 {
        shown_token(ts[0])
    } else {
        joined_tokens(ts.drop_last()) + ", "@ + shown_token(ts.last())
    }
}

/// A context line as shown: cut to `MAX_CONTEXT_CHARS` with an ellipsis.
pub open spec fn shortened(c: Seq<char>) -> Seq<char> {
    if c.len() <= MAX_CONTEXT_CHARS {
        c
    } else {
        c.take(MAX_CONTEXT_CHARS as int) + "..."@
    }
}

/// `k` spaces.
pub open spec fn spaces(k: nat) -> Seq<char> {
    Seq::new(k, |i: int| ' ')
}

/// The line number `n` right-aligned to the width of `widest`, then " |".
pub open spec fn gutter(n: nat, widest: nat) -> Seq<char> {
    let w = decimal(widest).len();
    let d = decimal(n);
    (if d.len() < w { spaces((w - d.len()) as nat) } else { Seq::empty() }) + d + " |"@
}

/// The views of a vector of strings.
pub open spec fn views(v: Seq<String>) -> Seq<Seq<char>> {
    Seq::new(v.len(), |i: int| v[i]@)
}

fn blank_string(t: &String) -> (r: bool)
    ensures
        r == blank_token(t@),
{
    let s = t.as_str();
    let n = s.unicode_len();
    let mut j: usize = 0;
    while j < n
        invariant
            n == t@.len(),
            s@ == t@,
            j <= n,
            forall|i: int| 0 <= i < j ==> is_blank(t@[i]),
        decreases n - j,
    {
        let c = s.get_char(j);
        if !(c == ' ' || c == '\t' || c == '\n' || c == '\r') {
            return false;
        }
        j = j + 1;
    }
    true
}

impl ParseError {
    /// The summary line: where parsing stopped.
    pub fn header(&self) -> (r: String)
        ensures
            r@ == "ERROR in line "@ + decimal(self.position.line as nat) + " at column "@ + decimal(
                self.position.col as nat,
            ) + ": Could not continue to parse, expected one of: "@,
    {
        let mut s = "ERROR in line ".to_owned();
        s.append(decimal_string(self.position.line).as_str());
        s.append(" at column ");
        s.append(decimal_string(self.position.col).as_str());
        s.append(": Could not continue to parse, expected one of: ");
        s
    }

    /// The expected tokens, joined by ", "; white-space tokens quoted.
    pub fn expected_line(&self) -> (r: String)
        ensures
            r@ == joined_tokens(views(self.expected@)),
    {
        let mut s = String::new();
        let mut i: usize = 0;
        while i < self.expected.len()
            invariant
                i <= self.expected@.len(),
                s@ == joined_tokens(views(self.expected@).take(i as int)),
            decreases self.expected@.len() - i,
        {
            let t = &self.expected[i];
            let shown = if blank_string(t) { quoted(t) } else { t.clone() };
            proof {
                let vs = views(self.expected@);
                assert(vs.take(i + 1).drop_last() =~= vs.take(i as int));
                assert(vs.take(i + 1).last() == t@);
            }
            if i > 0 {
                s.append(", ");
            }
            s.append(shown.as_str());
            i = i + 1;
        }
        proof {
            assert(views(self.expected@).take(i as int) =~= views(self.expected@));
        }
        s
    }

    /// The `i`-th context line as shown: its gutter ("<line> |"), its content
    /// (whole on the failing line, else shortened), and whether it is the
    /// failing line.
    pub fn context_line(&self, i: usize) -> (r: (String, String, bool))
        requires
            i < self.context@.len(),
            self.context_start + i + 1 <= usize::MAX,
            self.context_end + 1 <= usize::MAX,
        ensures
            r.0@ == gutter((self.context_start + i + 1) as nat, (self.context_end + 1) as nat),
            r.2 == (self.context_start + i + 1 == self.position.line),
            r.1@ == if r.2 {
                self.context@[i as int]@
            } else {
                shortened(self.context@[i as int]@)
            },
    {
        let lineno = self.context_start + i + 1;
        let digits = decimal_string(lineno);
        let width = decimal_string(self.context_end + 1).as_str().unicode_len();
        let dlen = digits.as_str().unicode_len();
        let mut gutter = String::new();
        if dlen < width {
            let mut k: usize = 0;
            while k < width - dlen
                invariant
                    k <= width - dlen,
                    gutter@ == spaces(k as nat),
                decreases width - dlen - k,
            {
                gutter.append(" ");
                proof {
                    reveal_strlit(" ");
                    assert(" "@.len() == 1 && " "@[0] == ' ');
                }
                assert(gutter@ =~= spaces((k + 1) as nat));
                k = k + 1;
            }
        } else {
            assert(gutter@ =~= Seq::<char>::empty());
        }
        gutter.append(digits.as_str());
        gutter.append(" |");
        let content = &self.context[i];
        let failing = lineno == self.position.line;
        let shown = if failing {
            content.clone()
        } else {
            let c = content.as_str();
            let n = c.unicode_len();
            if n <= MAX_CONTEXT_CHARS {
                content.clone()
            } else {
                let mut cut = c.substring_char(0, MAX_CONTEXT_CHARS).to_owned();
                cut.append("...");
                cut
            }
        };
        (gutter, shown, failing)
    }
}

impl TransformationError {
    /// The summary line: the pass, the extent of the failing node, the cause.
    pub fn message(&self) -> (r: String)
        ensures
            r@ == "ERROR applying transformation \""@ + self.transformation_name@
                + "\" to Element at "@ + decimal(self.position.start.line as nat) + ":"@ + decimal(
                self.position.start.col as nat,
            ) + " to "@ + decimal(self.position.end.line as nat) + ":"@ + decimal(
                self.position.end.col as nat,
            ) + ": "@ + self.cause@,
    {
        let mut s = "ERROR applying transformation \"".to_owned();
        s.append(self.transformation_name.as_str());
        s.append("\" to Element at ");
        s.append(decimal_string(self.position.start.line).as_str());
        s.append(":");
        s.append(decimal_string(self.position.start.col).as_str());
        s.append(" to ");
        s.append(decimal_string(self.position.end.line).as_str());
        s.append(":");
        s.append(decimal_string(self.position.end.col).as_str());
        s.append(": ");
        s.append(self.cause.as_str());
        s
    }
}

} // verus!
