//! The sequence-level rewrites that the pipeline applies to each node's
//! children, and the node-level rewrites of paragraphs and templates.
use vstd::prelude::*;
use crate::ast::{Element, Node, node_of, nodes_of, lemma_nodes_of_push, lemma_nodes_of_len};
use crate::position::Span;

verus! {

/// Appends `x` to an already collapsed sequence, merging it into a trailing
/// text node.
pub open spec fn merge_text(r: Seq<Node>, x: Node) -> Seq<Node> {
    if r.len() > 0 && r.last() is Text && x is Text {
        r.drop_last().push(
            Node::Text {
                position: Span { start: r.last().span().start, end: x.span().end },
                text: r.last()->text + x->text,
            },
        )
    } else {
        r.push(x)
    }
}

/// Every maximal run of text siblings merged into one text node.
pub open spec fn collapse_text(s: Seq<Node>) -> Seq<Node>
    decreases s.len(),
{
    if s.len() == 0 {
        s
    } else {
        merge_text(collapse_text(s.drop_last()), s.last())
    }
}

proof fn lemma_take_push(s: Seq<Element>, k: int)
    requires
        0 <= k < s.len(),
    ensures
        nodes_of(s.take(k + 1)) == nodes_of(s.take(k)).push(node_of(s[k])),
{
    assert(s.take(k + 1) =~= s.take(k).push(s[k]));
    lemma_nodes_of_push(s.take(k), s[k]);
}

proof fn lemma_nodes_of_drop_last(s: Seq<Element>)
    requires
        s.len() > 0,
    ensures
        nodes_of(s) == nodes_of(s.drop_last()).push(node_of(s.last())),
{
}

/// Merges each run of consecutive text siblings into one text node.
pub fn collapse_text_seq(v: Vec<Element>) -> (r: Vec<Element>)
    ensures
        nodes_of(r@) == collapse_text(nodes_of(v@)),
{
    let ghost orig = v@;
    let mut v = v;
    let mut out: Vec<Element> = Vec::new();
    let mut k: usize = 0;
    let n = v.len();
    while k < n
        invariant
            n == orig.len(),
            k <= n,
            v@ == orig.subrange(k as int, n as int),
            nodes_of(out@) == collapse_text(nodes_of(orig.take(k as int))),
        decreases n - k,
    {
        let ghost before = out@;
        let x = v.remove(0);
        let ghost s = nodes_of(orig.take(k + 1));
        proof {
            assert(v@ =~= orig.subrange(k + 1, n as int));
            lemma_take_push(orig, k as int);
            assert(nodes_of(orig.take(k as int)).push(node_of(x)).drop_last() =~= nodes_of(
                orig.take(k as int),
            ));
            assert(s.drop_last() == nodes_of(orig.take(k as int)));
            assert(s.last() == node_of(x));
            assert(collapse_text(s) == merge_text(nodes_of(before), node_of(x)));
        }
        let merge = out.len() > 0 && matches!(out[out.len() - 1], Element::Text { .. })
            && matches!(x, Element::Text { .. });
        if merge {
            let last = out.pop().unwrap();
            match (last, x) {
                (Element::Text { position: p1, text: t1 }, Element::Text { position: p2, text: t2 }) => {
                    let mut t = t1;
                    t.append(t2.as_str());
                    let merged = Element::Text { position: Span { start: p1.start, end: p2.end }, text: t };
                    proof {
                        assert(before == out@.push(Element::Text { position: p1, text: t1 }));
                        lemma_nodes_of_drop_last(before);
                        assert(before.drop_last() =~= out@);
                        lemma_nodes_of_push(out@, merged);
                        assert(nodes_of(out@).push(node_of(merged)) =~= collapse_text(
                            nodes_of(orig.take(k + 1)),
                        ));
                    }
                    out.push(merged);
                },
                _ => {
                    proof {
                        assert(false);
                    }
                },
            }
        } else {
            proof {
                lemma_nodes_of_push(out@, x);
            }
            out.push(x);
        }
        k = k + 1;
    }
    proof {
        assert(orig.take(n as int) =~= orig);
    }
    out
}

/// The character of a decimal digit.
pub open spec fn digit_char(d: nat) -> char {
    seq!['0', '1', '2', '3', '4', '5', '6', '7', '8', '9'][d as int]
}

/// The decimal numeral of `n`, without leading zeros.
pub open spec fn decimal(n: nat) -> Seq<char>
    decreases n,
{
    if n < 10 {
        seq![digit_char(n)]
    } else {
        decimal(n / 10).push(digit_char(n % 10))
    }
}

/// Relies on `usize::to_string`: the decimal numeral of the number.
#[verifier::external_body]
pub(crate) fn decimal_string(n: usize) -> (r: String)
    ensures
        r@ == decimal(n as nat),
{
    n.to_string()
}

/// A template argument given without a name.
pub open spec fn is_anonymous(x: Node) -> bool {
    match x {
        Node::TemplateArgument { name, .. } => name is None,
        _ => false,
    }
}

/// How many anonymous arguments `s` holds.
pub open spec fn anonymous_count(s: Seq<Node>) -> nat
    decreases s.len(),
{
    if s.len() == 0 {
        0
    } else {
        anonymous_count(s.drop_last()) + if is_anonymous(s.last()) { 1nat } else { 0nat }
    }
}

/// `x` with the name `k` if it is an anonymous argument.
pub open spec fn numbered(x: Node, k: nat) -> Node {
    match x {
        Node::TemplateArgument { position, name, value } => if name is None {
            Node::TemplateArgument { position, name: Some(decimal(k)), value }
        } else {
            x
        },
        _ => x,
    }
}

/// Each anonymous argument named by its 1-based rank among the anonymous
/// arguments; the others unchanged.
pub open spec fn number_args(s: Seq<Node>) -> Seq<Node>
    decreases s.len(),
{
    if s.len() == 0 {
        s
    } else {
        number_args(s.drop_last()).push(numbered(s.last(), anonymous_count(s.drop_last()) + 1))
    }
}

/// Names the anonymous arguments of a template "1", "2", ... in order.
pub fn number_args_seq(v: Vec<Element>) -> (r: Vec<Element>)
    ensures
        nodes_of(r@) == number_args(nodes_of(v@)),
{
    let ghost orig = v@;
    let mut v = v;
    let mut out: Vec<Element> = Vec::new();
    let mut k: usize = 0;
    let mut count: usize = 0;
    let n = v.len();
    while k < n
        invariant
            n == orig.len(),
            k <= n,
            count <= k,
            v@ == orig.subrange(k as int, n as int),
            count == anonymous_count(nodes_of(orig.take(k as int))),
            nodes_of(out@) == number_args(nodes_of(orig.take(k as int))),
        decreases n - k,
    {
        let x = v.remove(0);
        let ghost s = nodes_of(orig.take(k + 1));
        proof {
            assert(v@ =~= orig.subrange(k + 1, n as int));
            lemma_take_push(orig, k as int);
            assert(s.drop_last() =~= nodes_of(orig.take(k as int)));
        }
        let y = match x {
            Element::TemplateArgument { position, name: None, value } => {
                count = count + 1;
                Element::TemplateArgument { position, name: Some(decimal_string(count)), value }
            },
            other => other,
        };
        proof {
            lemma_nodes_of_push(out@, y);
        }
        out.push(y);
        k = k + 1;
    }
    proof {
        assert(orig.take(n as int) =~= orig);
    }
    out
}

/// The characters that count as white space in a paragraph.
pub open spec fn is_blank(c: char) -> bool {
    c == ' ' || c == '\t' || c == '\n' || c == '\r'
}

/// Content that flattens to white space only: text nodes of blank characters.
pub open spec fn blank_content(s: Seq<Node>) -> bool {
    forall|i: int|
        0 <= i < s.len() ==> match #[trigger] s[i] {
            Node::Text { text, .. } => forall|j: int| 0 <= j < text.len() ==> is_blank(text[j]),
            _ => false,
        }
}

fn blank_text(t: &String) -> (r: bool)
    ensures
        r == forall|j: int| 0 <= j < t@.len() ==> is_blank(t@[j]),
{
    let s = t.as_str();
    let n = s.unicode_len();
    let mut j: usize = 0;
    while j < n
        invariant
            n == t@.len(),
            s@ == t@,
            j <= n,
            forall|i: int| 0 <= i < j ==> is_blank(t@[i]),
        decreases n - j,
    {
        let c = s.get_char(j);
        if !(c == ' ' || c == '\t' || c == '\n' || c == '\r') {
            return false;
        }
        j = j + 1;
    }
    true
}

/// Whether the elements flatten to white space only.
pub fn blank_elements(v: &Vec<Element>) -> (r: bool)
    ensures
        r == blank_content(nodes_of(v@)),
{
    proof {
        lemma_nodes_of_len(v@);
    }
    let mut i: usize = 0;
    while i < v.len()
        invariant
            i <= v@.len(),
            nodes_of(v@).len() == v@.len(),
            forall|k: int| 0 <= k < v@.len() ==> #[trigger] nodes_of(v@)[k] == node_of(v@[k]),
            forall|k: int|
                0 <= k < i ==> match #[trigger] nodes_of(v@)[k] {
                    Node::Text { text, .. } => forall|j: int|
                        0 <= j < text.len() ==> is_blank(text[j]),
                    _ => false,
                },
        decreases v@.len() - i,
    {
        match &v[i] {
            Element::Text { text, position } => {
                if !blank_text(text) {
                    assert(!blank_content(nodes_of(v@))) by {
                        assert(nodes_of(v@)[i as int] == Node::Text { position: *position, text: text@ });
                        let jj = choose|jj: int| 0 <= jj < text@.len() && !is_blank(text@[jj]);
                        assert(!is_blank(nodes_of(v@)[i as int]->text[jj]));
                    }
                    return false;
                }
            },
            _ => {
                assert(nodes_of(v@)[i as int] == node_of(v@[i as int]));
                return false;
            },
        }
        i = i + 1;
    }
    true
}

/// A paragraph with no content.
pub open spec fn is_empty_paragraph(x: Node) -> bool {
    match x {
        Node::Paragraph { content, .. } => content.len() == 0,
        _ => false,
    }
}

/// A paragraph with some content.
pub open spec fn is_full_paragraph(x: Node) -> bool {
    match x {
        Node::Paragraph { content, .. } => content.len() > 0,
        _ => false,
    }
}

/// The element at `i` is an empty paragraph between two paragraphs with
/// content: a mere separator.
pub open spec fn is_separator(s: Seq<Node>, i: int) -> bool {
    &&& 0 < i < s.len() - 1
    &&& is_empty_paragraph(s[i])
    &&& is_full_paragraph(s[i - 1])
    &&& is_full_paragraph(s[i + 1])
}

/// The first `n` elements of `s` without the separators.
pub open spec fn without_separators(s: Seq<Node>, n: int) -> Seq<Node>
    decreases n,
{
    if n <= 0 {
        Seq::empty()
    } else if is_separator(s, n - 1) {
        without_separators(s, n - 1)
    } else {
        without_separators(s, n - 1).push(s[n - 1])
    }
}

/// All of `s` without the separators.
pub open spec fn collapse_paragraphs(s: Seq<Node>) -> Seq<Node> {
    without_separators(s, s.len() as int)
}

fn paragraph_state(e: &Element) -> (r: (bool, bool))
    ensures
        r.0 == is_empty_paragraph(e@),
        r.1 == is_full_paragraph(e@),
{
    match e {
        Element::Paragraph { content, .. } => {
            proof {
                lemma_nodes_of_len(content@);
            }
            (content.len() == 0, content.len() > 0)
        },
        _ => (false, false),
    }
}

/// Drops each empty paragraph that stands between two paragraphs with content.
pub fn collapse_paragraphs_seq(v: Vec<Element>) -> (r: Vec<Element>)
    ensures
        nodes_of(r@) == collapse_paragraphs(nodes_of(v@)),
{
    let ghost orig = v@;
    let ghost ns = nodes_of(orig);
    proof {
        lemma_nodes_of_len(orig);
    }
    let n = v.len();
    let mut states: Vec<(bool, bool)> = Vec::new();
    let mut i: usize = 0;
    while i < n
        invariant
            n == orig.len(),
            v@ == orig,
            i <= n,
            states@.len() == i,
            forall|k: int|
                0 <= k < i ==> (#[trigger] states@[k]).0 == is_empty_paragraph(ns[k])
                    && states@[k].1 == is_full_paragraph(ns[k]),
            ns.len() == orig.len(),
            forall|k: int| 0 <= k < orig.len() ==> #[trigger] ns[k] == node_of(orig[k]),
        decreases n - i,
    {
        states.push(paragraph_state(&v[i]));
        i = i + 1;
    }
    let mut v = v;
    let mut out: Vec<Element> = Vec::new();
    let mut k: usize = 0;
    while k < n
        invariant
            n == orig.len(),
            states@.len() == n,
            forall|j: int|
                0 <= j < n ==> (#[trigger] states@[j]).0 == is_empty_paragraph(ns[j])
                    && states@[j].1 == is_full_paragraph(ns[j]),
            ns.len() == orig.len(),
            forall|j: int| 0 <= j < orig.len() ==> #[trigger] ns[j] == node_of(orig[j]),
            k <= n,
            v@ == orig.subrange(k as int, n as int),
            nodes_of(out@) == without_separators(ns, k as int),
        decreases n - k,
    {
        let x = v.remove(0);
        proof {
            assert(v@ =~= orig.subrange(k + 1, n as int));
        }
        let separator = 0 < k && k + 1 < n && states[k].0 && states[k - 1].1 && states[k + 1].1;
        if !separator {
            proof {
                lemma_nodes_of_push(out@, x);
            }
            out.push(x);
        }
        k = k + 1;
    }
    out
}
} // verus!
