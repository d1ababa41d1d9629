//! The folds that turn flat heading and list markers into nested nodes.
use vstd::prelude::*;
use crate::ast::{Element, Node, node_of, nodes_of, lemma_nodes_of_len, lemma_span_of};
use crate::position::Span;
use crate::ast::ListItemKind;

verus! {

/// `nodes_of` commutes with taking a part of a sequence.
pub proof fn lemma_nodes_of_subrange(s: Seq<Element>, a: int, b: int)
    requires
        0 <= a <= b <= s.len(),
    ensures
        nodes_of(s.subrange(a, b)) == nodes_of(s).subrange(a, b),
{
    lemma_nodes_of_len(s);
    lemma_nodes_of_len(s.subrange(a, b));
    assert(nodes_of(s.subrange(a, b)) =~= nodes_of(s).subrange(a, b));
}

/// `nodes_of` commutes with concatenation.
pub proof fn lemma_nodes_of_add(s: Seq<Element>, t: Seq<Element>)
    ensures
        nodes_of(s + t) == nodes_of(s) + nodes_of(t),
{
    lemma_nodes_of_len(s);
    lemma_nodes_of_len(t);
    lemma_nodes_of_len(s + t);
    assert(nodes_of(s + t) =~= nodes_of(s) + nodes_of(t));
}

/// A heading at depth `d` or above: it ends a heading of depth `d`.
pub open spec fn closes_heading(x: Node, d: usize) -> bool {
    match x {
        Node::Heading { depth, .. } => depth <= d,
        _ => false,
    }
}

/// The index of the first element from `i` on that closes a heading of
/// depth `d`, or the length.
pub open spec fn first_closing(s: Seq<Node>, d: usize, i: int) -> int
    decreases s.len() - i,
{
    if i >= s.len() {
        s.len() as int
    } else if closes_heading(s[i], d) {
        i
    } else {
        first_closing(s, d, i + 1)
    }
}

pub proof fn lemma_first_closing_bounds(s: Seq<Node>, d: usize, i: int)
    requires
        0 <= i,
    ensures
        i <= s.len() ==> i <= first_closing(s, d, i) <= s.len(),
        i > s.len() ==> first_closing(s, d, i) == s.len(),
    decreases s.len() - i,
{
    if i < s.len() && !closes_heading(s[i], d) {
        lemma_first_closing_bounds(s, d, i + 1);
    }
}

/// The span of a node extended to the end of what it now holds.
pub open spec fn extended(position: Span, inner: Seq<Node>) -> Span {
    if inner.len() == 0 {
        position
    } else {
        Span { start: position.start, end: inner.last().span().end }
    }
}

/// Each heading takes as content everything up to the next heading of equal
/// or lower depth, nested the same way.
pub open spec fn fold_headings(s: Seq<Node>) -> Seq<Node>
    decreases s.len(),
    via fold_headings_decreases
{
    if s.len() == 0 {
        s
    } else {
        let rest = s.drop_first();
        match s[0] {
            Node::Heading { position, depth, caption, content } => {
                let j = first_closing(rest, depth, 0);
                let inner = fold_headings(rest.take(j));
                seq![
                    Node::Heading {
                        position: extended(position, inner),
                        depth,
                        caption,
                        content: content + inner,
                    },
                ] + fold_headings(rest.skip(j))
            },
            _ => seq![s[0]] + fold_headings(rest),
        }
    }
}

#[via_fn]
proof fn fold_headings_decreases(s: Seq<Node>) {
    if s.len() > 0 {
        match s[0] {
            Node::Heading { depth, .. } => {
                lemma_first_closing_bounds(s.drop_first(), depth, 0);
            },
            _ => {},
        }
    }
}

fn first_closing_index(v: &Vec<Element>, d: usize) -> (j: usize)
    ensures
        j == first_closing(nodes_of(v@), d, 0),
        j <= v@.len(),
{
    proof {
        lemma_nodes_of_len(v@);
    }
    let ghost ns = nodes_of(v@);
    let mut j: usize = 0;
    while j < v.len()
        invariant
            j <= v@.len(),
            ns == nodes_of(v@),
            ns.len() == v@.len(),
            forall|k: int| 0 <= k < v@.len() ==> #[trigger] ns[k] == node_of(v@[k]),
            first_closing(ns, d, 0) == first_closing(ns, d, j as int),
        decreases v@.len() - j,
    {
        let stop = match &v[j] {
            Element::Heading { depth, .. } => *depth <= d,
            _ => false,
        };
        assert(ns[j as int] == node_of(v@[j as int]));
        assert(stop == closes_heading(ns[j as int], d));
        if stop {
            assert(first_closing(ns, d, j as int) == j as int);
            return j;
        }
        j = j + 1;
    }
    j
}

/// Nests each heading's following siblings under it.
pub fn fold_headings_seq(v: Vec<Element>) -> (r: Vec<Element>)
    ensures
        nodes_of(r@) == fold_headings(nodes_of(v@)),
    decreases v@.len(),
{
    if v.len() == 0 {
        return v;
    }
    let ghost s = v@;
    proof {
        lemma_nodes_of_len(s);
        lemma_nodes_of_subrange(s, 1, s.len() as int);
        assert(nodes_of(s).drop_first() =~= nodes_of(s).subrange(1, s.len() as int));
    }
    let mut rest = v;
    let first = rest.remove(0);
    proof {
        assert(rest@ =~= s.subrange(1, s.len() as int));
        assert(nodes_of(s)[0] == node_of(first));
    }
    match first {
        Element::Heading { position, depth, caption, content } => {
            let j = first_closing_index(&rest, depth);
            let ghost r0 = rest@;
            let tail = rest.split_off(j);
            proof {
                lemma_nodes_of_subrange(r0, 0, j as int);
                lemma_nodes_of_subrange(r0, j as int, r0.len() as int);
                assert(nodes_of(r0).take(j as int) =~= nodes_of(r0).subrange(0, j as int));
                assert(nodes_of(r0).skip(j as int) =~= nodes_of(r0).subrange(j as int, r0.len() as int));
            }
            let mut inner = fold_headings_seq(rest);
            let pos = if inner.len() == 0 {
                position
            } else {
                Span { start: position.start, end: inner[inner.len() - 1].get_position().end }
            };
            proof {
                lemma_nodes_of_len(inner@);
                if inner@.len() > 0 {
                    lemma_span_of(inner@.last());
                    assert(nodes_of(inner@).last() == node_of(inner@.last()));
                }
            }
            let ghost inner0 = inner@;
            let ghost content0 = content@;
            let mut content = content;
            content.append(&mut inner);
            proof {
                lemma_nodes_of_add(content0, inner0);
            }
            let h = Element::Heading { position: pos, depth, caption, content };
            proof {
                assert(pos == extended(position, nodes_of(inner0)));
                assert(node_of(h) == Node::Heading {
                    position: extended(position, nodes_of(inner0)),
                    depth,
                    caption: nodes_of(caption@),
                    content: nodes_of(content0) + nodes_of(inner0),
                });
            }
            let mut out: Vec<Element> = Vec::new();
            out.push(h);
            let mut t = fold_headings_seq(tail);
            let ghost t0 = t@;
            out.append(&mut t);
            proof {
                lemma_nodes_of_add(seq![h], t0);
                lemma_nodes_of_len(seq![h]);
                assert(nodes_of(seq![h]) =~= seq![node_of(h)]);
                assert(out@ =~= seq![h] + t0);
            }
            out
        },
        other => {
            let mut out: Vec<Element> = Vec::new();
            out.push(other);
            let mut t = fold_headings_seq(rest);
            let ghost t0 = t@;
            out.append(&mut t);
            proof {
                lemma_nodes_of_add(seq![other], t0);
                lemma_nodes_of_len(seq![other]);
                assert(nodes_of(seq![other]) =~= seq![node_of(other)]);
                assert(out@ =~= seq![other] + t0);
            }
            out
        },
    }
}

/// A list item at depth `d` or above: it ends an item of depth `d`.
pub open spec fn closes_item(x: Node, d: usize) -> bool {
    match x {
        Node::ListItem { depth, .. } => depth <= d,
        _ => false,
    }
}

/// The index of the first element from `i` on that closes a list item of
/// depth `d`, or the length.
pub open spec fn first_item_closing(s: Seq<Node>, d: usize, i: int) -> int
    decreases s.len() - i,
{
    if i >= s.len() {
        s.len() as int
    } else if closes_item(s[i], d) {
        i
    } else {
        first_item_closing(s, d, i + 1)
    }
}

pub proof fn lemma_first_item_closing_bounds(s: Seq<Node>, d: usize, i: int)
    requires
        0 <= i,
    ensures
        i <= s.len() ==> i <= first_item_closing(s, d, i) <= s.len(),
    decreases s.len() - i,
{
    if i < s.len() && !closes_item(s[i], d) {
        lemma_first_item_closing_bounds(s, d, i + 1);
    }
}

/// `l` is a list whose last item has kind `k`: an item of kind `k` joins it.
pub open spec fn joins(l: Node, k: ListItemKind) -> bool {
    match l {
        Node::List { content, .. } => content.len() > 0 && match content.last() {
            Node::ListItem { kind, .. } => kind == k,
            _ => false,
        },
        _ => false,
    }
}

/// Adds `x` to grouped siblings `g`: an item joins the last list when that
/// list holds items of its kind, else opens a list of its own.
pub open spec fn grouped(g: Seq<Node>, x: Node) -> Seq<Node> {
    match x {
        Node::ListItem { kind, .. } => if g.len() > 0 && joins(g.last(), kind) {
            g.drop_last().push(
                Node::List {
                    position: Span { start: g.last().span().start, end: x.span().end },
                    content: g.last()->List_content.push(x),
                },
            )
        } else {
            g.push(Node::List { position: x.span(), content: seq![x] })
        },
        _ => g.push(x),
    }
}

/// Consecutive items of one kind gathered into one list each.
pub open spec fn group_lists(s: Seq<Node>) -> Seq<Node>
    decreases s.len(),
{
    if s.len() == 0 {
        s
    } else {
        grouped(group_lists(s.drop_last()), s.last())
    }
}

/// Each list item takes as content the deeper items that follow it, grouped
/// into lists by kind.
pub open spec fn fold_items(s: Seq<Node>) -> Seq<Node>
    decreases s.len(),
    via fold_items_decreases
{
    if s.len() == 0 {
        s
    } else {
        let rest = s.drop_first();
        match s[0] {
            Node::ListItem { position, depth, kind, content } => {
                let j = first_item_closing(rest, depth, 0);
                let inner = group_lists(fold_items(rest.take(j)));
                seq![
                    Node::ListItem {
                        position: extended(position, inner),
                        depth,
                        kind,
                        content: content + inner,
                    },
                ] + fold_items(rest.skip(j))
            },
            _ => seq![s[0]] + fold_items(rest),
        }
    }
}

#[via_fn]
proof fn fold_items_decreases(s: Seq<Node>) {
    if s.len() > 0 {
        match s[0] {
            Node::ListItem { depth, .. } => {
                lemma_first_item_closing_bounds(s.drop_first(), depth, 0);
            },
            _ => {},
        }
    }
}

fn first_item_closing_index(v: &Vec<Element>, d: usize) -> (j: usize)
    ensures
        j == first_item_closing(nodes_of(v@), d, 0),
        j <= v@.len(),
{
    proof {
        lemma_nodes_of_len(v@);
    }
    let ghost ns = nodes_of(v@);
    let mut j: usize = 0;
    while j < v.len()
        invariant
            j <= v@.len(),
            ns == nodes_of(v@),
            ns.len() == v@.len(),
            forall|k: int| 0 <= k < v@.len() ==> #[trigger] ns[k] == node_of(v@[k]),
            first_item_closing(ns, d, 0) == first_item_closing(ns, d, j as int),
        decreases v@.len() - j,
    {
        let stop = match &v[j] {
            Element::ListItem { depth, .. } => *depth <= d,
            _ => false,
        };
        assert(ns[j as int] == node_of(v@[j as int]));
        assert(stop == closes_item(ns[j as int], d));
        if stop {
            assert(first_item_closing(ns, d, j as int) == j as int);
            return j;
        }
        j = j + 1;
    }
    j
}

fn joins_list(l: &Element, k: ListItemKind) -> (r: bool)
    ensures
        r == joins(node_of(*l), k),
{
    match l {
        Element::List { content, .. } => {
            proof {
                lemma_nodes_of_len(content@);
            }
            if content.len() == 0 {
                false
            } else {
                assert(nodes_of(content@).last() == node_of(content@.last()));
                match &content[content.len() - 1] {
                    Element::ListItem { kind, .. } => *kind == k,
                    _ => false,
                }
            }
        },
        _ => false,
    }
}

/// Gathers consecutive list items of one kind into lists.
pub fn group_lists_seq(v: Vec<Element>) -> (r: Vec<Element>)
    ensures
        nodes_of(r@) == group_lists(nodes_of(v@)),
{
    let ghost orig = v@;
    let mut v = v;
    let mut out: Vec<Element> = Vec::new();
    let mut k: usize = 0;
    let n = v.len();
    while k < n
        invariant
            n == orig.len(),
            k <= n,
            v@ == orig.subrange(k as int, n as int),
            nodes_of(out@) == group_lists(nodes_of(orig.take(k as int))),
        decreases n - k,
    {
        let ghost before = out@;
        let x = v.remove(0);
        let ghost s = nodes_of(orig.take(k + 1));
        proof {
            assert(v@ =~= orig.subrange(k + 1, n as int));
            assert(orig.take(k + 1) =~= orig.take(k as int).push(x));
            crate::ast::lemma_nodes_of_push(orig.take(k as int), x);
            assert(s.drop_last() =~= nodes_of(orig.take(k as int)));
            assert(group_lists(s) == grouped(nodes_of(before), node_of(x)));
            lemma_span_of(x);
        }
        let xpos = x.get_position();
        match x {
            Element::ListItem { position, depth, kind, content } => {
                let x = Element::ListItem { position, depth, kind, content };
                let join = out.len() > 0 && joins_list(&out[out.len() - 1], kind);
                if join {
                    proof {
                        assert(nodes_of(before).last() == node_of(before.last()));
                    }
                    let last = out.pop().unwrap();
                    proof {
                        assert(before == out@.push(last));
                        assert(before.drop_last() =~= out@);
                        lemma_span_of(last);
                    }
                    match last {
                        Element::List { position: lp, content: lc } => {
                            let ghost lc0 = lc@;
                            let mut lc = lc;
                            lc.push(x);
                            proof {
                                crate::ast::lemma_nodes_of_push(lc0, x);
                            }
                            let l = Element::List { position: Span { start: lp.start, end: xpos.end }, content: lc };
                            proof {
                                crate::ast::lemma_nodes_of_push(out@, l);
                                assert(nodes_of(out@).push(node_of(l)) =~= grouped(nodes_of(before), node_of(x)));
                            }
                            out.push(l);
                        },
                        _ => {
                            proof {
                                assert(false);
                            }
                        },
                    }
                } else {
                    let mut c: Vec<Element> = Vec::new();
                    c.push(x);
                    let l = Element::List { position: xpos, content: c };
                    proof {
                        crate::ast::lemma_nodes_of_push(Seq::empty(), x);
                        assert(c@ =~= Seq::<Element>::empty().push(x));
                        assert(nodes_of(Seq::<Element>::empty()) =~= Seq::<Node>::empty());
                        assert(nodes_of(c@) =~= seq![node_of(x)]);
                        crate::ast::lemma_nodes_of_push(out@, l);
                    }
                    out.push(l);
                }
            },
            other => {
                proof {
                    crate::ast::lemma_nodes_of_push(out@, other);
                }
                out.push(other);
            },
        }
        k = k + 1;
    }
    proof {
        assert(orig.take(n as int) =~= orig);
    }
    out
}

/// Nests each list item's deeper followers under it, in lists by kind.
pub fn fold_items_seq(v: Vec<Element>) -> (r: Vec<Element>)
    ensures
        nodes_of(r@) == fold_items(nodes_of(v@)),
    decreases v@.len(),
{
    if v.len() == 0 {
        return v;
    }
    let ghost s = v@;
    proof {
        lemma_nodes_of_len(s);
        lemma_nodes_of_subrange(s, 1, s.len() as int);
        assert(nodes_of(s).drop_first() =~= nodes_of(s).subrange(1, s.len() as int));
    }
    let mut rest = v;
    let first = rest.remove(0);
    proof {
        assert(rest@ =~= s.subrange(1, s.len() as int));
        assert(nodes_of(s)[0] == node_of(first));
    }
    match first {
        Element::ListItem { position, depth, kind, content } => {
            let j = first_item_closing_index(&rest, depth);
            let ghost r0 = rest@;
            let tail = rest.split_off(j);
            proof {
                lemma_nodes_of_subrange(r0, 0, j as int);
                lemma_nodes_of_subrange(r0, j as int, r0.len() as int);
                assert(nodes_of(r0).take(j as int) =~= nodes_of(r0).subrange(0, j as int));
                assert(nodes_of(r0).skip(j as int) =~= nodes_of(r0).subrange(j as int, r0.len() as int));
            }
            let mut inner = group_lists_seq(fold_items_seq(rest));
            let pos = if inner.len() == 0 {
                position
            } else {
                Span { start: position.start, end: inner[inner.len() - 1].get_position().end }
            };
            proof {
                lemma_nodes_of_len(inner@);
                if inner@.len() > 0 {
                    lemma_span_of(inner@.last());
                    assert(nodes_of(inner@).last() == node_of(inner@.last()));
                }
            }
            let ghost inner0 = inner@;
            let ghost content0 = content@;
            let mut content = content;
            content.append(&mut inner);
            proof {
                lemma_nodes_of_add(content0, inner0);
            }
            let h = Element::ListItem { position: pos, depth, kind, content };
            proof {
                assert(pos == extended(position, nodes_of(inner0)));
                assert(node_of(h) == Node::ListItem {
                    position: extended(position, nodes_of(inner0)),
                    depth,
                    kind,
                    content: nodes_of(content0) + nodes_of(inner0),
                });
            }
            let mut out: Vec<Element> = Vec::new();
            out.push(h);
            let mut t = fold_items_seq(tail);
            let ghost t0 = t@;
            out.append(&mut t);
            proof {
                lemma_nodes_of_add(seq![h], t0);
                lemma_nodes_of_len(seq![h]);
                assert(nodes_of(seq![h]) =~= seq![node_of(h)]);
                assert(out@ =~= seq![h] + t0);
            }
            out
        },
        other => {
            let mut out: Vec<Element> = Vec::new();
            out.push(other);
            let mut t = fold_items_seq(rest);
            let ghost t0 = t@;
            out.append(&mut t);
            proof {
                lemma_nodes_of_add(seq![other], t0);
                lemma_nodes_of_len(seq![other]);
                assert(nodes_of(seq![other]) =~= seq![node_of(other)]);
                assert(out@ =~= seq![other] + t0);
            }
            out
        },
    }
}

} // verus!
