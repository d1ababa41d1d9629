//! The element tree.
use vstd::prelude::*;
use crate::position::Span;

verus! {

/// The three kinds of list item.
#[derive(Clone, Copy, Debug, PartialEq, Eq, Structural)]
pub enum ListItemKind {
    Unordered,
    Ordered,
    Definition,
}

/// A node of the tree. Each node owns its children; `Other` stands for the
/// inline kinds that the pipeline passes through untouched.
#[derive(Debug, PartialEq)]
pub enum Element {
    Document { position: Span, content: Vec<Element> },
    Heading { position: Span, depth: usize, caption: Vec<Element>, content: Vec<Element> },
    Paragraph { position: Span, content: Vec<Element> },
    List { position: Span, content: Vec<Element> },
    ListItem { position: Span, depth: usize, kind: ListItemKind, content: Vec<Element> },
    Text { position: Span, text: String },
    Template { position: Span, name: Vec<Element>, content: Vec<Element> },
    TemplateArgument { position: Span, name: Option<String>, value: Vec<Element> },
    Other { position: Span, content: Vec<Element> },
}

/// The mathematical form of an element: the same tree, with sequences for
/// vectors and strings.
pub enum Node {
    Document { position: Span, content: Seq<Node> },
    Heading { position: Span, depth: usize, caption: Seq<Node>, content: Seq<Node> },
    Paragraph { position: Span, content: Seq<Node> },
    List { position: Span, content: Seq<Node> },
    ListItem { position: Span, depth: usize, kind: ListItemKind, content: Seq<Node> },
    Text { position: Span, text: Seq<char> },
    Template { position: Span, name: Seq<Node>, content: Seq<Node> },
    TemplateArgument { position: Span, name: Option<Seq<char>>, value: Seq<Node> },
    Other { position: Span, content: Seq<Node> },
}

impl Node {
    pub open spec fn span(self) -> Span {
        match self {
            Node::Document { position, .. } => position,
            Node::Heading { position, .. } => position,
            Node::Paragraph { position, .. } => position,
            Node::List { position, .. } => position,
            Node::ListItem { position, .. } => position,
            Node::Text { position, .. } => position,
            Node::Template { position, .. } => position,
            Node::TemplateArgument { position, .. } => position,
            Node::Other { position, .. } => position,
        }
    }
}

pub open spec fn name_of(name: Option<String>) -> Option<Seq<char>> {
    match name {
        Some(s) => Some(s@),
        None => None,
    }
}

/// The mathematical form of an element.
pub open spec fn node_of(e: Element) -> Node
    decreases e,
{
    match e {
        Element::Document { position, content } => Node::Document {
            position,
            content: nodes_of(content@),
        },
        Element::Heading { position, depth, caption, content } => Node::Heading {
            position,
            depth,
            caption: nodes_of(caption@),
            content: nodes_of(content@),
        },
        Element::Paragraph { position, content } => Node::Paragraph {
            position,
            content: nodes_of(content@),
        },
        Element::List { position, content } => Node::List { position, content: nodes_of(content@) },
        Element::ListItem { position, depth, kind, content } => Node::ListItem {
            position,
            depth,
            kind,
            content: nodes_of(content@),
        },
        Element::Text { position, text } => Node::Text { position, text: text@ },
        Element::Template { position, name, content } => Node::Template {
            position,
            name: nodes_of(name@),
            content: nodes_of(content@),
        },
        Element::TemplateArgument { position, name, value } => Node::TemplateArgument {
            position,
            name: name_of(name),
            value: nodes_of(value@),
        },
        Element::Other { position, content } => Node::Other {
            position,
            content: nodes_of(content@),
        },
    }
}

/// The mathematical form of a sequence of elements.
pub open spec fn nodes_of(s: Seq<Element>) -> Seq<Node>
    decreases s,
{
    if s.len() == 0 {
        Seq::empty()
    } else {
        nodes_of(s.drop_last()).push(node_of(s.last()))
    }
}

pub proof fn lemma_nodes_of_push(s: Seq<Element>, e: Element)
    ensures
        nodes_of(s.push(e)) == nodes_of(s).push(node_of(e)),
{
    assert(s.push(e).drop_last() =~= s);
}

pub proof fn lemma_nodes_of_len(s: Seq<Element>)
    ensures
        nodes_of(s).len() == s.len(),
        forall|i: int| 0 <= i < s.len() ==> #[trigger] nodes_of(s)[i] == node_of(s[i]),
    decreases s.len(),
{
    if s.len() > 0 {
        lemma_nodes_of_len(s.drop_last());
    }
}

/// An element and its mathematical form have the same extent.
pub proof fn lemma_span_of(e: Element)
    ensures
        node_of(e).span() == e.span(),
{
}

impl View for Element {
    type V = Node;

    open spec fn view(&self) -> Node {
        node_of(*self)
    }
}

impl Element {
    /// The extent of the node.
    pub open spec fn span(self) -> Span {
        match self {
            Element::Document { position, .. } => position,
            Element::Heading { position, .. } => position,
            Element::Paragraph { position, .. } => position,
            Element::List { position, .. } => position,
            Element::ListItem { position, .. } => position,
            Element::Text { position, .. } => position,
            Element::Template { position, .. } => position,
            Element::TemplateArgument { position, .. } => position,
            Element::Other { position, .. } => position,
        }
    }

    /// Returns the extent of the node.
    pub fn get_position(&self) -> (r: Span)
        ensures
            r == self.span(),
    {
        match self {
            Element::Document { position, .. } => *position,
            Element::Heading { position, .. } => *position,
            Element::Paragraph { position, .. } => *position,
            Element::List { position, .. } => *position,
            Element::ListItem { position, .. } => *position,
            Element::Text { position, .. } => *position,
            Element::Template { position, .. } => *position,
            Element::TemplateArgument { position, .. } => *position,
            Element::Other { position, .. } => *position,
        }
    }
}

} // verus!
