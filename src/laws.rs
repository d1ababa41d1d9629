//! Laws of the text-merging pass over whole trees.
use vstd::prelude::*;
use crate::ast::Node;
use crate::passes::{collapse_text, merge_text, collapse_paragraphs, without_separators, is_separator};
use crate::position::Span;
use crate::folds::{
    fold_headings, first_closing, extended, lemma_first_closing_bounds, group_lists, grouped, joins,
    fold_items, first_item_closing, lemma_first_item_closing_bounds,
};
use crate::traversion::{Pass, walk, walk_seq, lemma_walk_total};

verus! {

/// No two neighbouring siblings are both text.
pub open spec fn no_adjacent_text(s: Seq<Node>) -> bool {
    forall|i: int| 0 <= i < s.len() - 1 ==> !(#[trigger] s[i] is Text && s[i + 1] is Text)
}

/// Every sequence of siblings in the tree under `n` holds no two neighbouring
/// text nodes.
pub open spec fn text_collapsed(n: Node) -> bool
    decreases n,
{
    match n {
        Node::Document { content, .. } => (no_adjacent_text(content) && all_collapsed(content)),
        Node::Heading { caption, content, .. } => (no_adjacent_text(caption) && all_collapsed(caption)) && (no_adjacent_text(content) && all_collapsed(content)),
        Node::Paragraph { content, .. } => (no_adjacent_text(content) && all_collapsed(content)),
        Node::List { content, .. } => (no_adjacent_text(content) && all_collapsed(content)),
        Node::ListItem { content, .. } => (no_adjacent_text(content) && all_collapsed(content)),
        Node::Text { .. } => true,
        Node::Template { name, content, .. } => (no_adjacent_text(name) && all_collapsed(name)) && (no_adjacent_text(content) && all_collapsed(content)),
        Node::TemplateArgument { value, .. } => (no_adjacent_text(value) && all_collapsed(value)),
        Node::Other { content, .. } => (no_adjacent_text(content) && all_collapsed(content)),
    }
}

/// `text_collapsed` of a sequence and of each of its elements.
pub open spec fn seq_collapsed(s: Seq<Node>) -> bool {
    no_adjacent_text(s) && all_collapsed(s)
}

/// Each element of `s` is `text_collapsed`.
pub open spec fn all_collapsed(s: Seq<Node>) -> bool
    decreases s,
{
    if s.len() == 0 {
        true
    } else {
        all_collapsed(s.drop_last()) && text_collapsed(s.last())
    }
}

/// A merged sequence has no two neighbouring text nodes.
proof fn lemma_collapse_text_no_adjacent(s: Seq<Node>)
    ensures
        no_adjacent_text(collapse_text(s)),
    decreases s.len(),
{
    if s.len() > 0 {
        let r = collapse_text(s.drop_last());
        let x = s.last();
        lemma_collapse_text_no_adjacent(s.drop_last());
        let m = merge_text(r, x);
        if r.len() > 0 && r.last() is Text && x is Text {
            assert forall|i: int| 0 <= i < m.len() - 1 implies !(#[trigger] m[i] is Text && m[i + 1] is Text) by {
                assert(m[i] == r[i]);
                if i < m.len() - 2 {
                    assert(m[i + 1] == r[i + 1]);
                } else {
                    assert(!(r[i] is Text && r[i + 1] is Text));
                }
            }
        } else {
            assert forall|i: int| 0 <= i < m.len() - 1 implies !(#[trigger] m[i] is Text && m[i + 1] is Text) by {
                assert(m[i] == r[i]);
                if i < m.len() - 2 {
                    assert(m[i + 1] == r[i + 1]);
                }
            }
        }
    }
}

/// Merging keeps each element collapsed.
proof fn lemma_collapse_text_all(s: Seq<Node>)
    requires
        all_collapsed(s),
    ensures
        all_collapsed(collapse_text(s)),
    decreases s.len(),
{
    if s.len() > 0 {
        let r = collapse_text(s.drop_last());
        let x = s.last();
        lemma_collapse_text_all(s.drop_last());
        let m = merge_text(r, x);
        assert(text_collapsed(x));
        if r.len() > 0 && r.last() is Text && x is Text {
            assert(m.drop_last() =~= r.drop_last());
            assert(all_collapsed(r.drop_last()));
            assert(text_collapsed(m.last()));
            assert(all_collapsed(m));
        } else {
            assert(m.drop_last() =~= r);
            assert(m.last() == x);
            assert(all_collapsed(m));
        }
    }
}

/// Merging a sequence with no neighbouring text nodes changes nothing.
proof fn lemma_collapse_text_fixed(s: Seq<Node>)
    requires
        no_adjacent_text(s),
    ensures
        collapse_text(s) == s,
    decreases s.len(),
{
    if s.len() > 0 {
        let t = s.drop_last();
        assert(no_adjacent_text(t)) by {
            assert forall|i: int| 0 <= i < t.len() - 1 implies !(#[trigger] t[i] is Text && t[i + 1] is Text) by {
                assert(t[i] == s[i] && t[i + 1] == s[i + 1]);
            }
        }
        lemma_collapse_text_fixed(t);
        if t.len() > 0 {
            assert(!(s[t.len() - 1] is Text && s[t.len() as int] is Text));
        }
        assert(t.push(s.last()) =~= s);
    }
}

/// Merging twice gives what merging once gives.
pub proof fn lemma_collapse_text_idempotent(s: Seq<Node>)
    ensures
        collapse_text(collapse_text(s)) == collapse_text(s),
{
    lemma_collapse_text_no_adjacent(s);
    lemma_collapse_text_fixed(collapse_text(s));
}

/// What the text pass returns is collapsed.
proof fn lemma_walk_collapses(n: Node)
    ensures
        walk(Pass::CollapseText, n) matches Ok(m) ==> text_collapsed(m),
    decreases n,
{
    match n {
        Node::Document { content, .. } => lemma_walk_seq_collapses(content),
        Node::Heading { caption, content, .. } => {
            lemma_walk_seq_collapses(caption);
            lemma_walk_seq_collapses(content);
        },
        Node::Paragraph { content, .. } => lemma_walk_seq_collapses(content),
        Node::List { content, .. } => lemma_walk_seq_collapses(content),
        Node::ListItem { content, .. } => lemma_walk_seq_collapses(content),
        Node::Text { .. } => {},
        Node::Template { name, content, .. } => {
            lemma_walk_seq_collapses(name);
            lemma_walk_seq_collapses(content);
        },
        Node::TemplateArgument { value, .. } => lemma_walk_seq_collapses(value),
        Node::Other { content, .. } => lemma_walk_seq_collapses(content),
    }
}

/// Each element that the text pass returns for a sequence is collapsed, and
/// so is the merged sequence.
proof fn lemma_walk_seq_collapses(s: Seq<Node>)
    ensures
        walk_seq(Pass::CollapseText, s) matches Ok(c) ==> all_collapsed(c) && seq_collapsed(
            collapse_text(c),
        ),
    decreases s,
{
    if s.len() > 0 {
        lemma_walk_seq_collapses(s.drop_last());
        lemma_walk_collapses(s.last());
        match walk_seq(Pass::CollapseText, s) {
            Ok(c) => {
                assert(c.drop_last() =~= walk_seq(Pass::CollapseText, s.drop_last())->Ok_0);
            },
            Err(_) => {},
        }
    }
    match walk_seq(Pass::CollapseText, s) {
        Ok(c) => {
            lemma_collapse_text_no_adjacent(c);
            lemma_collapse_text_all(c);
        },
        Err(_) => {},
    }
}

/// The text pass leaves a collapsed tree as it is.
proof fn lemma_walk_fixed(n: Node)
    requires
        text_collapsed(n),
    ensures
        walk(Pass::CollapseText, n) == Ok::<Node, Node>(n),
    decreases n,
{
    match n {
        Node::Document { content, .. } => {
            lemma_all_fixed(content);
            lemma_collapse_text_fixed(content);
        },
        Node::Heading { caption, content, .. } => {
            lemma_all_fixed(caption);
            lemma_collapse_text_fixed(caption);
            lemma_all_fixed(content);
            lemma_collapse_text_fixed(content);
        },
        Node::Paragraph { content, .. } => {
            lemma_all_fixed(content);
            lemma_collapse_text_fixed(content);
        },
        Node::List { content, .. } => {
            lemma_all_fixed(content);
            lemma_collapse_text_fixed(content);
        },
        Node::ListItem { content, .. } => {
            lemma_all_fixed(content);
            lemma_collapse_text_fixed(content);
        },
        Node::Text { .. } => {},
        Node::Template { name, content, .. } => {
            lemma_all_fixed(name);
            lemma_collapse_text_fixed(name);
            lemma_all_fixed(content);
            lemma_collapse_text_fixed(content);
        },
        Node::TemplateArgument { value, .. } => {
            lemma_all_fixed(value);
            lemma_collapse_text_fixed(value);
        },
        Node::Other { content, .. } => {
            lemma_all_fixed(content);
            lemma_collapse_text_fixed(content);
        },
    }
}

proof fn lemma_all_fixed(s: Seq<Node>)
    requires
        all_collapsed(s),
    ensures
        walk_seq(Pass::CollapseText, s) == Ok::<Seq<Node>, Node>(s),
    decreases s,
{
    if s.len() > 0 {
        lemma_all_fixed(s.drop_last());
        lemma_walk_fixed(s.last());
        assert(s.drop_last().push(s.last()) =~= s);
    }
}

/// Running the text-merging pass twice gives the same tree as running it
/// once.
pub proof fn lemma_collapse_consecutive_text_idempotent(n: Node)
    ensures
        walk(Pass::CollapseText, n) matches Ok(m) && walk(Pass::CollapseText, m) == Ok::<Node, Node>(m),
{
    lemma_walk_total(Pass::CollapseText, n);
    lemma_walk_collapses(n);
    let m = walk(Pass::CollapseText, n)->Ok_0;
    lemma_walk_fixed(m);
}

/// The spans of `s` are well formed, lie inside `outer`, and follow one
/// another without overlap.
pub open spec fn spans_in_order(s: Seq<Node>, outer: Span) -> bool {
    &&& forall|i: int|
        0 <= i < s.len() ==> outer.contains((#[trigger] s[i]).span()) && s[i].span().start.offset
            <= s[i].span().end.offset
    &&& forall|i: int|
        0 <= i < s.len() - 1 ==> (#[trigger] s[i]).span().end.offset <= s[i + 1].span().start.offset
}

proof fn lemma_spans_in_order_prefix(s: Seq<Node>, outer: Span)
    requires
        spans_in_order(s, outer),
        s.len() > 0,
    ensures
        spans_in_order(s.drop_last(), outer),
{
    let t = s.drop_last();
    assert forall|i: int| 0 <= i < t.len() - 1 implies (#[trigger] t[i]).span().end.offset
        <= t[i + 1].span().start.offset by {
        assert(t[i] == s[i] && t[i + 1] == s[i + 1]);
    }
}

/// Merging text siblings keeps the siblings in order and inside the
/// parent's span.
pub proof fn lemma_collapse_text_keeps_spans(s: Seq<Node>, outer: Span)
    requires
        spans_in_order(s, outer),
    ensures
        spans_in_order(collapse_text(s), outer),
        s.len() > 0 ==> collapse_text(s).len() > 0 && collapse_text(s).last().span().end
            == s.last().span().end,
    decreases s.len(),
{
    if s.len() > 0 {
        let t = s.drop_last();
        lemma_spans_in_order_prefix(s, outer);
        lemma_collapse_text_keeps_spans(t, outer);
        let r = collapse_text(t);
        let x = s.last();
        let m = merge_text(r, x);
        if t.len() > 0 {
            assert(s[t.len() - 1] == t.last());
            assert(r.last().span().end.offset <= x.span().start.offset);
        }
        if r.len() > 0 && r.last() is Text && x is Text {
            assert forall|i: int| 0 <= i < m.len() - 1 implies (#[trigger] m[i]).span().end.offset
                <= m[i + 1].span().start.offset by {
                assert(m[i] == r[i]);
                if i < m.len() - 2 {
                    assert(m[i + 1] == r[i + 1]);
                }
            }
            assert forall|i: int| 0 <= i < m.len() implies outer.contains((#[trigger] m[i]).span())
                && m[i].span().start.offset <= m[i].span().end.offset by {
                if i < m.len() - 1 {
                    assert(m[i] == r[i]);
                }
            }
        } else {
            assert forall|i: int| 0 <= i < m.len() - 1 implies (#[trigger] m[i]).span().end.offset
                <= m[i + 1].span().start.offset by {
                assert(m[i] == r[i]);
                if i < m.len() - 2 {
                    assert(m[i + 1] == r[i + 1]);
                }
            }
            assert forall|i: int| 0 <= i < m.len() implies outer.contains((#[trigger] m[i]).span())
                && m[i].span().start.offset <= m[i].span().end.offset by {
                if i < m.len() - 1 {
                    assert(m[i] == r[i]);
                }
            }
        }
    }
}

proof fn lemma_without_separators_keeps_spans(s: Seq<Node>, n: int, outer: Span)
    requires
        spans_in_order(s, outer),
        0 <= n <= s.len(),
    ensures
        spans_in_order(without_separators(s, n), outer),
        without_separators(s, n).len() > 0 ==> n > 0 && without_separators(s, n).last().span().end.offset
            <= s[n - 1].span().end.offset,
    decreases n,
{
    if n > 0 {
        lemma_without_separators_keeps_spans(s, n - 1, outer);
        let r = without_separators(s, n - 1);
        if r.len() > 0 {
            assert(s[n - 2].span().end.offset <= s[n - 1].span().start.offset);
        }
        if !is_separator(s, n - 1) {
            let m = r.push(s[n - 1]);
            assert forall|i: int| 0 <= i < m.len() - 1 implies (#[trigger] m[i]).span().end.offset
                <= m[i + 1].span().start.offset by {
                assert(m[i] == r[i]);
                if i < m.len() - 2 {
                    assert(m[i + 1] == r[i + 1]);
                }
            }
            assert forall|i: int| 0 <= i < m.len() implies outer.contains((#[trigger] m[i]).span())
                && m[i].span().start.offset <= m[i].span().end.offset by {
                if i < m.len() - 1 {
                    assert(m[i] == r[i]);
                }
            }
        }
    }
}

/// Dropping separator paragraphs keeps the siblings in order and inside the
/// parent's span.
pub proof fn lemma_collapse_paragraphs_keeps_spans(s: Seq<Node>, outer: Span)
    requires
        spans_in_order(s, outer),
    ensures
        spans_in_order(collapse_paragraphs(s), outer),
{
    lemma_without_separators_keeps_spans(s, s.len() as int, outer);
}

proof fn lemma_spans_in_order_sub(s: Seq<Node>, a: int, b: int, outer: Span)
    requires
        spans_in_order(s, outer),
        0 <= a <= b <= s.len(),
    ensures
        spans_in_order(s.subrange(a, b), outer),
{
    let t = s.subrange(a, b);
    assert forall|i: int| 0 <= i < t.len() - 1 implies (#[trigger] t[i]).span().end.offset
        <= t[i + 1].span().start.offset by {
        assert(t[i] == s[a + i] && t[i + 1] == s[a + i + 1]);
    }
    assert forall|i: int| 0 <= i < t.len() implies outer.contains((#[trigger] t[i]).span())
        && t[i].span().start.offset <= t[i].span().end.offset by {
        assert(t[i] == s[a + i]);
    }
}

proof fn lemma_spans_mono(s: Seq<Node>, i: int, k: int, outer: Span)
    requires
        spans_in_order(s, outer),
        0 <= i < k < s.len(),
    ensures
        s[i].span().end.offset <= s[k].span().start.offset,
    decreases k - i,
{
    if i + 1 < k {
        lemma_spans_mono(s, i + 1, k, outer);
    }
}

proof fn lemma_spans_concat(a: Seq<Node>, b: Seq<Node>, outer: Span)
    requires
        spans_in_order(a, outer),
        spans_in_order(b, outer),
        a.len() > 0 && b.len() > 0 ==> a.last().span().end.offset <= b[0].span().start.offset,
    ensures
        spans_in_order(a + b, outer),
{
    let m = a + b;
    assert forall|i: int| 0 <= i < m.len() - 1 implies (#[trigger] m[i]).span().end.offset
        <= m[i + 1].span().start.offset by {
        if i < a.len() - 1 {
            assert(m[i] == a[i] && m[i + 1] == a[i + 1]);
        } else if i == a.len() - 1 {
            assert(m[i] == a.last() && m[i + 1] == b[0]);
        } else {
            assert(m[i] == b[i - a.len()] && m[i + 1] == b[i - a.len() + 1]);
        }
    }
    assert forall|i: int| 0 <= i < m.len() implies outer.contains((#[trigger] m[i]).span())
        && m[i].span().start.offset <= m[i].span().end.offset by {
        if i < a.len() {
            assert(m[i] == a[i]);
        } else {
            assert(m[i] == b[i - a.len()]);
        }
    }
}

/// Folding headings keeps the siblings in order and inside the parent's
/// span; the folded sequence starts and ends where the flat one did.
#[verifier::rlimit(100)]
#[verifier::spinoff_prover]
pub proof fn lemma_fold_headings_keeps_spans(s: Seq<Node>, outer: Span)
    requires
        spans_in_order(s, outer),
    ensures
        spans_in_order(fold_headings(s), outer),
        s.len() > 0 ==> {
            &&& fold_headings(s).len() > 0
            &&& fold_headings(s)[0].span().start == s[0].span().start
            &&& fold_headings(s).last().span().end == s.last().span().end
        },
    decreases s.len(),
{
    if s.len() > 0 {
        let rest = s.drop_first();
        lemma_spans_in_order_sub(s, 1, s.len() as int, outer);
        assert(rest =~= s.subrange(1, s.len() as int));
        if rest.len() > 0 {
            assert(s[0].span().end.offset <= rest[0].span().start.offset);
        }
        match s[0] {
            Node::Heading { position, depth, caption, content } => {
                let j = first_closing(rest, depth, 0);
                lemma_first_closing_bounds(rest, depth, 0);
                let a = rest.take(j);
                let b = rest.skip(j);
                lemma_spans_in_order_sub(rest, 0, j, outer);
                lemma_spans_in_order_sub(rest, j, rest.len() as int, outer);
                assert(a =~= rest.subrange(0, j));
                assert(b =~= rest.subrange(j, rest.len() as int));
                lemma_fold_headings_keeps_spans(a, outer);
                lemma_fold_headings_keeps_spans(b, outer);
                let inner = fold_headings(a);
                let h = Node::Heading {
                    position: extended(position, inner),
                    depth,
                    caption,
                    content: content + inner,
                };
                assert(position == s[0].span());
                if a.len() > 0 {
                    assert(a.last() == rest[j - 1]);
                    if j - 1 > 0 {
                        lemma_spans_mono(rest, 0, j - 1, outer);
                    }
                    assert(h.span().end == rest[j - 1].span().end);
                }
                let hs = seq![h];
                assert(spans_in_order(hs, outer));
                let fb = fold_headings(b);
                if b.len() > 0 {
                    assert(b[0] == rest[j]);
                    if a.len() > 0 {
                        assert(rest[j - 1].span().end.offset <= rest[j].span().start.offset);
                    } else {
                        assert(j == 0);
                    }
                    assert(b.last() == s.last());
                } else {
                    if a.len() > 0 {
                        assert(a.last() == s.last());
                    } else {
                        assert(s.len() == 1);
                    }
                }
                lemma_spans_concat(hs, fb, outer);
                assert(fold_headings(s) == hs + fb);
            },
            _ => {
                lemma_fold_headings_keeps_spans(rest, outer);
                let hs = seq![s[0]];
                assert(spans_in_order(hs, outer));
                lemma_spans_concat(hs, fold_headings(rest), outer);
                if rest.len() > 0 {
                    assert(rest.last() == s.last());
                }
            },
        }
    }
}

/// Grouping list items into lists keeps the siblings in order and inside
/// the parent's span; the grouped sequence starts and ends where the items
/// did.
pub proof fn lemma_group_lists_keeps_spans(s: Seq<Node>, outer: Span)
    requires
        spans_in_order(s, outer),
    ensures
        spans_in_order(group_lists(s), outer),
        s.len() > 0 ==> {
            &&& group_lists(s).len() > 0
            &&& group_lists(s)[0].span().start == s[0].span().start
            &&& group_lists(s).last().span().end == s.last().span().end
        },
    decreases s.len(),
{
    if s.len() > 0 {
        let t = s.drop_last();
        lemma_spans_in_order_prefix(s, outer);
        lemma_group_lists_keeps_spans(t, outer);
        let r = group_lists(t);
        let x = s.last();
        let m = grouped(r, x);
        if t.len() > 0 {
            assert(s[t.len() - 1] == t.last());
            assert(r.last().span().end.offset <= x.span().start.offset);
            assert(t[0] == s[0]);
        }
        assert forall|i: int| 0 <= i < m.len() - 1 implies (#[trigger] m[i]).span().end.offset
            <= m[i + 1].span().start.offset by {
            assert(m[i] == r[i]);
            if i < m.len() - 2 {
                assert(m[i + 1] == r[i + 1]);
            }
        }
        assert forall|i: int| 0 <= i < m.len() implies outer.contains((#[trigger] m[i]).span())
            && m[i].span().start.offset <= m[i].span().end.offset by {
            if i < m.len() - 1 {
                assert(m[i] == r[i]);
            }
        }
    }
}

/// Nesting list items keeps the siblings in order and inside the parent's
/// span; the nested sequence starts and ends where the flat one did.
#[verifier::rlimit(100)]
#[verifier::spinoff_prover]
pub proof fn lemma_fold_items_keeps_spans(s: Seq<Node>, outer: Span)
    requires
        spans_in_order(s, outer),
    ensures
        spans_in_order(fold_items(s), outer),
        s.len() > 0 ==> {
            &&& fold_items(s).len() > 0
            &&& fold_items(s)[0].span().start == s[0].span().start
            &&& fold_items(s).last().span().end == s.last().span().end
        },
    decreases s.len(),
{
    if s.len() > 0 {
        let rest = s.drop_first();
        lemma_spans_in_order_sub(s, 1, s.len() as int, outer);
        assert(rest =~= s.subrange(1, s.len() as int));
        if rest.len() > 0 {
            assert(s[0].span().end.offset <= rest[0].span().start.offset);
        }
        match s[0] {
            Node::ListItem { position, depth, kind, content } => {
                let j = first_item_closing(rest, depth, 0);
                lemma_first_item_closing_bounds(rest, depth, 0);
                let a = rest.take(j);
                let b = rest.skip(j);
                lemma_spans_in_order_sub(rest, 0, j, outer);
                lemma_spans_in_order_sub(rest, j, rest.len() as int, outer);
                assert(a =~= rest.subrange(0, j));
                assert(b =~= rest.subrange(j, rest.len() as int));
                lemma_fold_items_keeps_spans(a, outer);
                lemma_fold_items_keeps_spans(b, outer);
                lemma_group_lists_keeps_spans(fold_items(a), outer);
                let inner = group_lists(fold_items(a));
                let h = Node::ListItem {
                    position: extended(position, inner),
                    depth,
                    kind,
                    content: content + inner,
                };
                assert(position == s[0].span());
                if a.len() > 0 {
                    assert(a.last() == rest[j - 1]);
                    if j - 1 > 0 {
                        lemma_spans_mono(rest, 0, j - 1, outer);
                    }
                    assert(h.span().end == rest[j - 1].span().end);
                }
                let hs = seq![h];
                assert(spans_in_order(hs, outer));
                let fb = fold_items(b);
                if b.len() > 0 {
                    assert(b[0] == rest[j]);
                    if a.len() > 0 {
                        assert(rest[j - 1].span().end.offset <= rest[j].span().start.offset);
                    } else {
                        assert(j == 0);
                    }
                    assert(b.last() == s.last());
                } else {
                    if a.len() > 0 {
                        assert(a.last() == s.last());
                    } else {
                        assert(s.len() == 1);
                    }
                }
                lemma_spans_concat(hs, fb, outer);
                assert(fold_items(s) == hs + fb);
            },
            _ => {
                lemma_fold_items_keeps_spans(rest, outer);
                let hs = seq![s[0]];
                assert(spans_in_order(hs, outer));
                lemma_spans_concat(hs, fold_items(rest), outer);
                if rest.len() > 0 {
                    assert(rest.last() == s.last());
                }
            },
        }
    }
}

} // verus!
