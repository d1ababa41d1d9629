//! The depth-first rewrite that every pass plugs into: children first, left
//! to right, then the node's own work; the first failure ends the walk.
use vstd::prelude::*;
use crate::position::Span;
use crate::ast::{Element, Node, node_of, nodes_of, name_of, lemma_nodes_of_len, lemma_nodes_of_push};
use crate::error::TransformationError;
use crate::passes::{
    collapse_text, collapse_text_seq, number_args, number_args_seq, blank_content, blank_elements,
    collapse_paragraphs, collapse_paragraphs_seq,
};
use crate::folds::{fold_headings, fold_headings_seq, fold_items, fold_items_seq, group_lists, group_lists_seq};

verus! {

/// The passes of the pipeline, in the order in which they run.
#[derive(Clone, Copy, Debug, PartialEq, Eq, Structural)]
pub enum Pass {
    FoldHeadings,
    FoldLists,
    WhitespaceParagraphs,
    CollapseParagraphs,
    CollapseText,
    EnumerateArgs,
}

/// The name under which a pass reports its failures.
pub open spec fn pass_name(p: Pass) -> Seq<char> {
    match p {
        Pass::FoldHeadings => "fold_headings_transformation"@,
        Pass::FoldLists => "fold_lists_transformation"@,
        Pass::WhitespaceParagraphs => "whitespace_paragraphs_to_empty"@,
        Pass::CollapseParagraphs => "collapse_paragraphs"@,
        Pass::CollapseText => "collapse_consecutive_text"@,
        Pass::EnumerateArgs => "enumerate_anon_args"@,
    }
}

fn pass_name_string(p: Pass) -> (r: String)
    ensures
        r@ == pass_name(p),
{
    match p {
        Pass::FoldHeadings => "fold_headings_transformation".to_owned(),
        Pass::FoldLists => "fold_lists_transformation".to_owned(),
        Pass::WhitespaceParagraphs => "whitespace_paragraphs_to_empty".to_owned(),
        Pass::CollapseParagraphs => "collapse_paragraphs".to_owned(),
        Pass::CollapseText => "collapse_consecutive_text".to_owned(),
        Pass::EnumerateArgs => "enumerate_anon_args".to_owned(),
    }
}

/// A list item of depth 0 among `s`: a nesting that the list fold rejects.
pub open spec fn has_depthless_item(s: Seq<Node>) -> bool {
    exists|i: int|
        0 <= i < s.len() && match #[trigger] s[i] {
            Node::ListItem { depth, .. } => depth == 0,
            _ => false,
        }
}

/// The index of the first element from `i` on that is not a list item, or
/// the length.
pub open spec fn run_end(s: Seq<Node>, i: int) -> int
    decreases s.len() - i,
{
    if i >= s.len() {
        s.len() as int
    } else if s[i] is ListItem {
        run_end(s, i + 1)
    } else {
        i
    }
}

pub proof fn lemma_run_end_bounds(s: Seq<Node>, i: int)
    requires
        0 <= i <= s.len(),
    ensures
        i <= run_end(s, i) <= s.len(),
        i < s.len() && s[i] is ListItem ==> run_end(s, i) > i,
        forall|k: int| i <= k < run_end(s, i) ==> #[trigger] s[k] is ListItem,
    decreases s.len() - i,
{
    if i < s.len() && s[i] is ListItem {
        lemma_run_end_bounds(s, i + 1);
    }
}

/// `a` put in front of a successful result.
pub open spec fn prepend(a: Seq<Node>, r: Result<Seq<Node>, Node>) -> Result<Seq<Node>, Node> {
    match r {
        Ok(x) => Ok(a + x),
        Err(t) => Err(t),
    }
}

/// The list that a rejected run of bare list items is reported as.
pub open spec fn run_list(run: Seq<Node>) -> Node {
    Node::List {
        position: Span { start: run[0].span().start, end: run.last().span().end },
        content: run,
    }
}

/// Each list, and each maximal run of list items among other siblings,
/// replaced by its items folded and grouped into lists by kind. Fails at the
/// first list or run, from the left, that holds an item of depth 0, with that
/// list (for a run: the list of the run) as the offending subtree.
pub open spec fn expand_lists(s: Seq<Node>) -> Result<Seq<Node>, Node>
    decreases s.len(),
    via expand_lists_decreases
{
    if s.len() == 0 {
        Ok(s)
    } else {
        match s[0] {
            Node::List { content, .. } => if has_depthless_item(content) {
                Err(s[0])
            } else {
                prepend(group_lists(fold_items(content)), expand_lists(s.drop_first()))
            },
            Node::ListItem { .. } => {
                let k = run_end(s, 0);
                let run = s.take(k);
                if has_depthless_item(run) {
                    Err(run_list(run))
                } else {
                    prepend(group_lists(fold_items(run)), expand_lists(s.skip(k)))
                }
            },
            _ => prepend(seq![s[0]], expand_lists(s.drop_first())),
        }
    }
}

#[via_fn]
proof fn expand_lists_decreases(s: Seq<Node>) {
    if s.len() > 0 {
        lemma_run_end_bounds(s, 0);
    }
}

/// What a pass does to one sequence of siblings.
pub open spec fn seq_pass(p: Pass, s: Seq<Node>) -> Result<Seq<Node>, Node> {
    match p {
        Pass::FoldHeadings => Ok(fold_headings(s)),
        Pass::FoldLists => expand_lists(s),
        Pass::CollapseParagraphs => Ok(collapse_paragraphs(s)),
        Pass::CollapseText => Ok(collapse_text(s)),
        _ => Ok(s),
    }
}

/// What a pass does to a node itself.
pub open spec fn local(p: Pass, n: Node) -> Node {
    match (p, n) {
        (Pass::WhitespaceParagraphs, Node::Paragraph { position, content }) => if blank_content(
            content,
        ) {
            Node::Paragraph { position, content: Seq::empty() }
        } else {
            n
        },
        (Pass::EnumerateArgs, Node::Template { position, name, content }) => Node::Template {
            position,
            name,
            content: number_args(content),
        },
        _ => n,
    }
}

/// A pass's work on a node whose children are done: its own rewrite, then
/// the sequence rewrite of each of its child sequences.
pub open spec fn work(p: Pass, n: Node) -> Result<Node, Node> {
    match local(p, n) {
        Node::Document { position, content } => match seq_pass(p, content) {
            Ok(c) => Ok(Node::Document { position, content: c }),
            Err(t) => Err(t),
        },
        Node::Heading { position, depth, caption, content } => match seq_pass(p, caption) {
            Ok(a) => match seq_pass(p, content) {
                Ok(c) => Ok(Node::Heading { position, depth, caption: a, content: c }),
                Err(t) => Err(t),
            },
            Err(t) => Err(t),
        },
        Node::Paragraph { position, content } => match seq_pass(p, content) {
            Ok(c) => Ok(Node::Paragraph { position, content: c }),
            Err(t) => Err(t),
        },
        Node::List { position, content } => match seq_pass(p, content) {
            Ok(c) => Ok(Node::List { position, content: c }),
            Err(t) => Err(t),
        },
        Node::ListItem { position, depth, kind, content } => match seq_pass(p, content) {
            Ok(c) => Ok(Node::ListItem { position, depth, kind, content: c }),
            Err(t) => Err(t),
        },
        Node::Text { position, text } => Ok(Node::Text { position, text }),
        Node::Template { position, name, content } => match seq_pass(p, name) {
            Ok(a) => match seq_pass(p, content) {
                Ok(c) => Ok(Node::Template { position, name: a, content: c }),
                Err(t) => Err(t),
            },
            Err(t) => Err(t),
        },
        Node::TemplateArgument { position, name, value } => match seq_pass(p, value) {
            Ok(c) => Ok(Node::TemplateArgument { position, name, value: c }),
            Err(t) => Err(t),
        },
        Node::Other { position, content } => match seq_pass(p, content) {
            Ok(c) => Ok(Node::Other { position, content: c }),
            Err(t) => Err(t),
        },
    }
}

/// A whole pass over the tree under `n`: children first, then the node;
/// an `Err` holding the offending subtree where the pass fails anywhere.
pub open spec fn walk(p: Pass, n: Node) -> Result<Node, Node>
    decreases n,
{
    match n {
        Node::Document { position, content } => match walk_seq(p, content) {
            Ok(c) => work(p, Node::Document { position, content: c }),
            Err(t) => Err(t),
        },
        Node::Heading { position, depth, caption, content } => match walk_seq(p, caption) {
            Ok(a) => match walk_seq(p, content) {
                Ok(c) => work(p, Node::Heading { position, depth, caption: a, content: c }),
                Err(t) => Err(t),
            },
            Err(t) => Err(t),
        },
        Node::Paragraph { position, content } => match walk_seq(p, content) {
            Ok(c) => work(p, Node::Paragraph { position, content: c }),
            Err(t) => Err(t),
        },
        Node::List { position, content } => match walk_seq(p, content) {
            Ok(c) => work(p, Node::List { position, content: c }),
            Err(t) => Err(t),
        },
        Node::ListItem { position, depth, kind, content } => match walk_seq(p, content) {
            Ok(c) => work(p, Node::ListItem { position, depth, kind, content: c }),
            Err(t) => Err(t),
        },
        Node::Text { position, text } => work(p, Node::Text { position, text }),
        Node::Template { position, name, content } => match walk_seq(p, name) {
            Ok(a) => match walk_seq(p, content) {
                Ok(c) => work(p, Node::Template { position, name: a, content: c }),
                Err(t) => Err(t),
            },
            Err(t) => Err(t),
        },
        Node::TemplateArgument { position, name, value } => match walk_seq(p, value) {
            Ok(c) => work(p, Node::TemplateArgument { position, name, value: c }),
            Err(t) => Err(t),
        },
        Node::Other { position, content } => match walk_seq(p, content) {
            Ok(c) => work(p, Node::Other { position, content: c }),
            Err(t) => Err(t),
        },
    }
}

/// A pass over each of a sequence of siblings, left to right.
pub open spec fn walk_seq(p: Pass, s: Seq<Node>) -> Result<Seq<Node>, Node>
    decreases s,
{
    if s.len() == 0 {
        Ok(s)
    } else {
        match walk_seq(p, s.drop_last()) {
            Err(t) => Err(t),
            Ok(r) => match walk(p, s.last()) {
                Err(t) => Err(t),
                Ok(x) => Ok(r.push(x)),
            },
        }
    }
}

/// Every pass but the list fold succeeds on every tree.
pub proof fn lemma_walk_total(p: Pass, n: Node)
    requires
        p != Pass::FoldLists,
    ensures
        walk(p, n) is Ok,
    decreases n,
{
    match n {
        Node::Document { content, .. } => lemma_walk_seq_total(p, content),
        Node::Heading { caption, content, .. } => {
            lemma_walk_seq_total(p, caption);
            lemma_walk_seq_total(p, content);
        },
        Node::Paragraph { content, .. } => lemma_walk_seq_total(p, content),
        Node::List { content, .. } => lemma_walk_seq_total(p, content),
        Node::ListItem { content, .. } => lemma_walk_seq_total(p, content),
        Node::Text { .. } => {},
        Node::Template { name, content, .. } => {
            lemma_walk_seq_total(p, name);
            lemma_walk_seq_total(p, content);
        },
        Node::TemplateArgument { value, .. } => lemma_walk_seq_total(p, value),
        Node::Other { content, .. } => lemma_walk_seq_total(p, content),
    }
}

/// Every pass but the list fold succeeds on every sequence of siblings.
pub proof fn lemma_walk_seq_total(p: Pass, s: Seq<Node>)
    requires
        p != Pass::FoldLists,
    ensures
        walk_seq(p, s) is Ok,
    decreases s,
{
    if s.len() > 0 {
        lemma_walk_seq_total(p, s.drop_last());
        lemma_walk_total(p, s.last());
    }
}

proof fn lemma_walk_prefix(p: Pass, s: Seq<Node>, i: int)
    requires
        0 <= i <= s.len(),
        walk_seq(p, s.take(i)) is Err,
    ensures
        walk_seq(p, s) == walk_seq(p, s.take(i)),
    decreases s.len(),
{
    if i < s.len() {
        assert(s.drop_last().take(i) =~= s.take(i));
        lemma_walk_prefix(p, s.drop_last(), i);
    } else {
        assert(s.take(i) =~= s);
    }
}

fn depthless(v: &Vec<Element>) -> (r: bool)
    ensures
        r == has_depthless_item(nodes_of(v@)),
{
    proof {
        lemma_nodes_of_len(v@);
    }
    let mut i: usize = 0;
    while i < v.len()
        invariant
            i <= v@.len(),
            nodes_of(v@).len() == v@.len(),
            forall|k: int| 0 <= k < v@.len() ==> #[trigger] nodes_of(v@)[k] == node_of(v@[k]),
            forall|k: int|
                0 <= k < i ==> match #[trigger] nodes_of(v@)[k] {
                    Node::ListItem { depth, .. } => depth != 0,
                    _ => true,
                },
        decreases v@.len() - i,
    {
        assert(nodes_of(v@)[i as int] == node_of(v@[i as int]));
        match &v[i] {
            Element::ListItem { depth, .. } => {
                if *depth == 0 {
                    return true;
                }
            },
            _ => {},
        }
        i = i + 1;
    }
    assert(!has_depthless_item(nodes_of(v@))) by {
        if has_depthless_item(nodes_of(v@)) {
            let k = choose|k: int|
                0 <= k < nodes_of(v@).len() && match #[trigger] nodes_of(v@)[k] {
                    Node::ListItem { depth, .. } => depth == 0,
                    _ => false,
                };
            assert(match nodes_of(v@)[k] {
                Node::ListItem { depth, .. } => depth != 0,
                _ => true,
            });
        }
    }
    false
}

/// The cause given when a list item has depth 0.
pub open spec fn depth_cause() -> Seq<char> {
    "a list item has depth 0"@
}

/// `e` reports that pass `p` failed on the subtree `t`.
pub open spec fn fails_with(p: Pass, e: TransformationError, t: Node) -> bool {
    &&& e.transformation_name@ == pass_name(p)
    &&& e.cause@ == depth_cause()
    &&& node_of(e.tree) == t
    &&& e.position == t.span()
}

/// The outcome of a rewrite: on success the rewritten elements, on failure
/// the failing pass's name.
pub open spec fn seq_outcome(
    p: Pass,
    r: Result<Vec<Element>, TransformationError>,
    spec_r: Result<Seq<Node>, Node>,
) -> bool {
    match r {
        Ok(x) => spec_r matches Ok(y) && y == nodes_of(x@),
        Err(e) => spec_r matches Err(t) && fails_with(p, e, t),
    }
}

/// Like `seq_outcome`, for a single element.
pub open spec fn node_outcome(
    p: Pass,
    r: Result<Element, TransformationError>,
    spec_r: Result<Node, Node>,
) -> bool {
    match r {
        Ok(x) => spec_r matches Ok(y) && y == node_of(x),
        Err(e) => spec_r matches Err(t) && fails_with(p, e, t),
    }
}

proof fn lemma_prepend_assoc(a: Seq<Node>, b: Seq<Node>, r: Result<Seq<Node>, Node>)
    ensures
        prepend(a, prepend(b, r)) == prepend(a + b, r),
{
    match r {
        Ok(x) => {
            assert((a + b) + x =~= a + (b + x));
        },
        Err(_) => {},
    }
}

fn is_item(e: &Element) -> (r: bool)
    ensures
        r == (node_of(*e) is ListItem),
{
    match e {
        Element::ListItem { .. } => true,
        _ => false,
    }
}

/// Replaces each list, and each run of bare list items, by its folded items
/// grouped into lists by kind.
pub fn expand_lists_seq(v: Vec<Element>) -> (r: Result<Vec<Element>, TransformationError>)
    ensures
        seq_outcome(Pass::FoldLists, r, expand_lists(nodes_of(v@))),
{
    let ghost whole = nodes_of(v@);
    let mut rest = v;
    let mut out: Vec<Element> = Vec::new();
    proof {
        assert(nodes_of(out@) =~= Seq::<Node>::empty());
        match expand_lists(whole) {
            Ok(x) => {
                assert(Seq::<Node>::empty() + x =~= x);
            },
            Err(_) => {},
        }
    }
    while rest.len() > 0
        invariant
            whole == nodes_of(v@),
            expand_lists(whole) == prepend(nodes_of(out@), expand_lists(nodes_of(rest@))),
        decreases rest@.len(),
    {
        let ghost s0 = rest@;
        let ghost ns0 = nodes_of(s0);
        let ghost out0 = out@;
        proof {
            lemma_nodes_of_len(s0);
            crate::folds::lemma_nodes_of_subrange(s0, 1, s0.len() as int);
            assert(ns0.drop_first() =~= ns0.subrange(1, s0.len() as int));
            lemma_run_end_bounds(ns0, 0);
        }
        let x = rest.remove(0);
        let ghost xg = x;
        proof {
            assert(rest@ =~= s0.subrange(1, s0.len() as int));
            assert(ns0[0] == node_of(x));
        }
        if is_item(&x) {
            let mut run: Vec<Element> = Vec::new();
            run.push(x);
            proof {
                assert(run@ + rest@ =~= s0);
            }
            while rest.len() > 0 && is_item(&rest[0])
                invariant
                    run@ + rest@ == s0,
                    ns0 == nodes_of(s0),
                    1 <= run@.len() <= s0.len(),
                    run_end(ns0, 0) == run_end(ns0, run@.len() as int),
                    forall|k: int| 0 <= k < s0.len() ==> #[trigger] ns0[k] == node_of(s0[k]),
                    ns0.len() == s0.len(),
                decreases rest@.len(),
            {
                let ghost r0 = rest@;
                let y = rest.remove(0);
                proof {
                    assert(ns0[run@.len() as int] == node_of(s0[run@.len() as int]));
                    assert(s0[run@.len() as int] == r0[0]);
                }
                run.push(y);
                proof {
                    assert(run@ + rest@ =~= s0);
                }
            }
            let ghost k = run@.len() as int;
            proof {
                if rest@.len() > 0 {
                    assert(s0[k] == rest@[0]);
                    assert(ns0[k] == node_of(s0[k]));
                }
                assert(run_end(ns0, k) == k);
                assert(run@ =~= s0.subrange(0, k));
                assert(rest@ =~= s0.subrange(k, s0.len() as int));
                crate::folds::lemma_nodes_of_subrange(s0, 0, k);
                crate::folds::lemma_nodes_of_subrange(s0, k, s0.len() as int);
                assert(ns0.take(k) =~= ns0.subrange(0, k));
                assert(ns0.skip(k) =~= ns0.subrange(k, s0.len() as int));
            }
            if depthless(&run) {
                let first = run[0].get_position();
                let last = run[run.len() - 1].get_position();
                let position = Span { start: first.start, end: last.end };
                proof {
                    lemma_nodes_of_len(run@);
                    crate::ast::lemma_span_of(run@[0]);
                    crate::ast::lemma_span_of(run@.last());
                    assert(nodes_of(run@)[0] == node_of(run@[0]));
                    assert(nodes_of(run@).last() == node_of(run@.last()));
                    assert(ns0[0] is ListItem);
                    assert(ns0.take(k) == nodes_of(run@));
                    assert(expand_lists(ns0) == Err::<Seq<Node>, Node>(run_list(nodes_of(run@))));
                    assert(run_list(nodes_of(run@)) == node_of(Element::List { position, content: run }));
                }
                return Err(
                    TransformationError {
                        cause: "a list item has depth 0".to_owned(),
                        position,
                        transformation_name: pass_name_string(Pass::FoldLists),
                        tree: Element::List { position, content: run },
                    },
                );
            }
            let mut g = group_lists_seq(fold_items_seq(run));
            let ghost g0 = g@;
            out.append(&mut g);
            proof {
                crate::folds::lemma_nodes_of_add(out0, g0);
                lemma_prepend_assoc(nodes_of(out0), nodes_of(g0), expand_lists(nodes_of(rest@)));
            }
        } else {
            match x {
                Element::List { position, content } => {
                    if depthless(&content) {
                        proof {
                            assert(node_of(xg) == Node::List { position, content: nodes_of(content@) });
                            assert(expand_lists(ns0) == Err::<Seq<Node>, Node>(node_of(xg)));
                        }
                        return Err(
                            TransformationError {
                                cause: "a list item has depth 0".to_owned(),
                                position,
                                transformation_name: pass_name_string(Pass::FoldLists),
                                tree: Element::List { position, content },
                            },
                        );
                    }
                    let mut g = group_lists_seq(fold_items_seq(content));
                    let ghost g0 = g@;
                    out.append(&mut g);
                    proof {
                        crate::folds::lemma_nodes_of_add(out0, g0);
                        lemma_prepend_assoc(nodes_of(out0), nodes_of(g0), expand_lists(nodes_of(rest@)));
                    }
                },
                other => {
                    proof {
                        lemma_nodes_of_push(out0, other);
                        assert(nodes_of(out0).push(node_of(other)) =~= nodes_of(out0) + seq![node_of(other)]);
                        lemma_prepend_assoc(nodes_of(out0), seq![node_of(other)], expand_lists(nodes_of(rest@)));
                    }
                    out.push(other);
                },
            }
        }
    }
    proof {
        assert(nodes_of(rest@) =~= Seq::<Node>::empty());
        assert(nodes_of(out@) + Seq::<Node>::empty() =~= nodes_of(out@));
    }
    Ok(out)
}

fn seq_pass_exec(p: Pass, v: Vec<Element>) -> (r: Result<Vec<Element>, TransformationError>)
    ensures
        seq_outcome(p, r, seq_pass(p, nodes_of(v@))),
{
    match p {
        Pass::FoldHeadings => Ok(fold_headings_seq(v)),
        Pass::FoldLists => expand_lists_seq(v),
        Pass::CollapseParagraphs => Ok(collapse_paragraphs_seq(v)),
        Pass::CollapseText => Ok(collapse_text_seq(v)),
        _ => Ok(v),
    }
}

fn local_exec(p: Pass, e: Element) -> (r: Element)
    ensures
        node_of(r) == local(p, node_of(e)),
{
    match (p, e) {
        (Pass::WhitespaceParagraphs, Element::Paragraph { position, content }) => {
            if blank_elements(&content) {
                let r = Element::Paragraph { position, content: Vec::new() };
                assert(nodes_of(Seq::<Element>::empty()) =~= Seq::<Node>::empty());
                r
            } else {
                Element::Paragraph { position, content }
            }
        },
        (Pass::EnumerateArgs, Element::Template { position, name, content }) => {
            Element::Template { position, name, content: number_args_seq(content) }
        },
        (_, e) => e,
    }
}

fn work_exec(p: Pass, e: Element) -> (r: Result<Element, TransformationError>)
    ensures
        node_outcome(p, r, work(p, node_of(e))),
{
    let e = local_exec(p, e);
    match e {
        Element::Document { position, content } => match seq_pass_exec(p, content) {
            Ok(c) => Ok(Element::Document { position, content: c }),
            Err(x) => Err(x),
        },
        Element::Heading { position, depth, caption, content } => match seq_pass_exec(p, caption) {
            Ok(a) => match seq_pass_exec(p, content) {
                Ok(c) => Ok(Element::Heading { position, depth, caption: a, content: c }),
                Err(x) => Err(x),
            },
            Err(x) => Err(x),
        },
        Element::Paragraph { position, content } => match seq_pass_exec(p, content) {
            Ok(c) => Ok(Element::Paragraph { position, content: c }),
            Err(x) => Err(x),
        },
        Element::List { position, content } => match seq_pass_exec(p, content) {
            Ok(c) => Ok(Element::List { position, content: c }),
            Err(x) => Err(x),
        },
        Element::ListItem { position, depth, kind, content } => match seq_pass_exec(p, content) {
            Ok(c) => Ok(Element::ListItem { position, depth, kind, content: c }),
            Err(x) => Err(x),
        },
        Element::Text { position, text } => Ok(Element::Text { position, text }),
        Element::Template { position, name, content } => match seq_pass_exec(p, name) {
            Ok(a) => match seq_pass_exec(p, content) {
                Ok(c) => Ok(Element::Template { position, name: a, content: c }),
                Err(x) => Err(x),
            },
            Err(x) => Err(x),
        },
        Element::TemplateArgument { position, name, value } => match seq_pass_exec(p, value) {
            Ok(c) => Ok(Element::TemplateArgument { position, name, value: c }),
            Err(x) => Err(x),
        },
        Element::Other { position, content } => match seq_pass_exec(p, content) {
            Ok(c) => Ok(Element::Other { position, content: c }),
            Err(x) => Err(x),
        },
    }
}

fn copy_name(n: &Option<String>) -> (r: Option<String>)
    ensures
        name_of(r) == name_of(*n),
{
    match n {
        Some(s) => Some(s.clone()),
        None => None,
    }
}

/// Runs a pass over each element of `v`, left to right, stopping at the first
/// failure.
pub fn traverse_vec(p: Pass, v: &Vec<Element>) -> (r: Result<Vec<Element>, TransformationError>)
    ensures
        seq_outcome(p, r, walk_seq(p, nodes_of(v@))),
    decreases v,
{
    let ghost s = v@;
    proof {
        lemma_nodes_of_len(s);
    }
    let mut out: Vec<Element> = Vec::new();
    let mut i: usize = 0;
    while i < v.len()
        invariant
            s == v@,
            i <= v@.len(),
            walk_seq(p, nodes_of(s.take(i as int))) == Ok::<Seq<Node>, Node>(nodes_of(out@)),
        decreases v@.len() - i,
    {
        proof {
            assert(s.take(i + 1) =~= s.take(i as int).push(s[i as int]));
            lemma_nodes_of_push(s.take(i as int), s[i as int]);
            assert(nodes_of(s.take(i + 1)).drop_last() =~= nodes_of(s.take(i as int)));
        }
        match traverse(p, &v[i]) {
            Ok(x) => {
                proof {
                    lemma_nodes_of_push(out@, x);
                }
                out.push(x);
            },
            Err(e) => {
                proof {
                    lemma_nodes_of_len(s);
                    crate::folds::lemma_nodes_of_subrange(s, 0, i + 1);
                    assert(nodes_of(s).take(i + 1) =~= nodes_of(s).subrange(0, i + 1));
                    lemma_walk_prefix(p, nodes_of(s), i + 1);
                }
                return Err(e);
            },
        }
        i = i + 1;
    }
    proof {
        assert(s.take(i as int) =~= s);
    }
    Ok(out)
}

/// Runs a pass over the tree under `e`: the children first, left to right,
/// then the node's own work; the first failure ends the walk.
pub fn traverse(p: Pass, e: &Element) -> (r: Result<Element, TransformationError>)
    ensures
        node_outcome(p, r, walk(p, node_of(*e))),
    decreases e,
{
    match e {
        Element::Document { position, content } => match traverse_vec(p, content) {
            Ok(c) => work_exec(p, Element::Document { position: *position, content: c }),
            Err(x) => Err(x),
        },
        Element::Heading { position, depth, caption, content } => match traverse_vec(p, caption) {
            Ok(a) => match traverse_vec(p, content) {
                Ok(c) => work_exec(
                    p,
                    Element::Heading { position: *position, depth: *depth, caption: a, content: c },
                ),
                Err(x) => Err(x),
            },
            Err(x) => Err(x),
        },
        Element::Paragraph { position, content } => match traverse_vec(p, content) {
            Ok(c) => work_exec(p, Element::Paragraph { position: *position, content: c }),
            Err(x) => Err(x),
        },
        Element::List { position, content } => match traverse_vec(p, content) {
            Ok(c) => work_exec(p, Element::List { position: *position, content: c }),
            Err(x) => Err(x),
        },
        Element::ListItem { position, depth, kind, content } => match traverse_vec(p, content) {
            Ok(c) => work_exec(
                p,
                Element::ListItem { position: *position, depth: *depth, kind: *kind, content: c },
            ),
            Err(x) => Err(x),
        },
        Element::Text { position, text } => work_exec(
            p,
            Element::Text { position: *position, text: text.clone() },
        ),
        Element::Template { position, name, content } => match traverse_vec(p, name) {
            Ok(a) => match traverse_vec(p, content) {
                Ok(c) => work_exec(p, Element::Template { position: *position, name: a, content: c }),
                Err(x) => Err(x),
            },
            Err(x) => Err(x),
        },
        Element::TemplateArgument { position, name, value } => match traverse_vec(p, value) {
            Ok(c) => work_exec(
                p,
                Element::TemplateArgument { position: *position, name: copy_name(name), value: c },
            ),
            Err(x) => Err(x),
        },
        Element::Other { position, content } => match traverse_vec(p, content) {
            Ok(c) => work_exec(p, Element::Other { position: *position, content: c }),
            Err(x) => Err(x),
        },
    }
}

} // verus!
