//! The six passes in their fixed order, and the entry point.
use vstd::prelude::*;
use crate::ast::{Element, Node, node_of};
use crate::error::{GrammarError, MWError, ParseError, TransformationError, describes};
use crate::position::{SourceLine, lines_of};
use crate::traversion::{Pass, walk, traverse, node_outcome, fails_with, lemma_walk_total};

verus! {

/// Options handed to every pass; none are defined yet.
pub struct GeneralSettings {}

/// One stage of the pipeline: runs `p` unless an earlier stage failed.
pub open spec fn stage(p: Pass, r: Result<Node, (Pass, Node)>) -> Result<Node, (Pass, Node)> {
    match r {
        Err(q) => Err(q),
        Ok(n) => match walk(p, n) {
            Ok(m) => Ok(m),
            Err(t) => Err((p, t)),
        },
    }
}

/// The whole pipeline: the normalized tree, or the first pass that failed
/// with the subtree it failed on.
pub open spec fn pipeline(n: Node) -> Result<Node, (Pass, Node)> {
    stage(
        Pass::EnumerateArgs,
        stage(
            Pass::CollapseText,
            stage(
                Pass::CollapseParagraphs,
                stage(
                    Pass::WhitespaceParagraphs,
                    stage(Pass::FoldLists, stage(Pass::FoldHeadings, Ok(n))),
                ),
            ),
        ),
    )
}

/// `r` is what the pipeline gives on `n`: the same tree, or an error named
/// after the pass that failed.
pub open spec fn pipeline_outcome(n: Node, r: Result<Element, TransformationError>) -> bool {
    match (r, pipeline(n)) {
        (Ok(x), Ok(m)) => node_of(x) == m,
        (Err(e), Err((p, t))) => fails_with(p, e, t),
        _ => false,
    }
}

/// Nests each heading's following siblings under it.
pub fn fold_headings_transformation(root: Element, settings: &GeneralSettings) -> (r: Result<
    Element,
    TransformationError,
>)
    ensures
        node_outcome(Pass::FoldHeadings, r, walk(Pass::FoldHeadings, node_of(root))),
        r is Ok,
{
    proof {
        lemma_walk_total(Pass::FoldHeadings, node_of(root));
    }
    traverse(Pass::FoldHeadings, &root)
}

/// Nests list items by depth and groups them into lists by kind.
pub fn fold_lists_transformation(root: Element, settings: &GeneralSettings) -> (r: Result<
    Element,
    TransformationError,
>)
    ensures
        node_outcome(Pass::FoldLists, r, walk(Pass::FoldLists, node_of(root))),
{
    traverse(Pass::FoldLists, &root)
}

/// Empties each paragraph that holds white space only.
pub fn whitespace_paragraphs_to_empty(root: Element, settings: &GeneralSettings) -> (r: Result<
    Element,
    TransformationError,
>)
    ensures
        node_outcome(
            Pass::WhitespaceParagraphs,
            r,
            walk(Pass::WhitespaceParagraphs, node_of(root)),
        ),
        r is Ok,
{
    proof {
        lemma_walk_total(Pass::WhitespaceParagraphs, node_of(root));
    }
    traverse(Pass::WhitespaceParagraphs, &root)
}

/// Drops the empty paragraphs that only separate two paragraphs.
pub fn collapse_paragraphs(root: Element, settings: &GeneralSettings) -> (r: Result<
    Element,
    TransformationError,
>)
    ensures
        node_outcome(Pass::CollapseParagraphs, r, walk(Pass::CollapseParagraphs, node_of(root))),
        r is Ok,
{
    proof {
        lemma_walk_total(Pass::CollapseParagraphs, node_of(root));
    }
    traverse(Pass::CollapseParagraphs, &root)
}

/// Merges each run of consecutive text siblings into one text node.
pub fn collapse_consecutive_text(root: Element, settings: &GeneralSettings) -> (r: Result<
    Element,
    TransformationError,
>)
    ensures
        node_outcome(Pass::CollapseText, r, walk(Pass::CollapseText, node_of(root))),
        r is Ok,
{
    proof {
        lemma_walk_total(Pass::CollapseText, node_of(root));
    }
    traverse(Pass::CollapseText, &root)
}

/// Names each template's anonymous arguments "1", "2", ... in order.
pub fn enumerate_anon_args(root: Element, settings: &GeneralSettings) -> (r: Result<
    Element,
    TransformationError,
>)
    ensures
        node_outcome(Pass::EnumerateArgs, r, walk(Pass::EnumerateArgs, node_of(root))),
        r is Ok,
{
    proof {
        lemma_walk_total(Pass::EnumerateArgs, node_of(root));
    }
    traverse(Pass::EnumerateArgs, &root)
}

/// Runs the six passes in order; the first failure ends the run.
pub fn apply_transformations(root: Element, settings: &GeneralSettings) -> (r: Result<
    Element,
    TransformationError,
>)
    ensures
        pipeline_outcome(node_of(root), r),
{
    let ghost n = node_of(root);
    let root = match fold_headings_transformation(root, settings) {
        Ok(x) => x,
        Err(e) => return Err(e),
    };
    let root = match fold_lists_transformation(root, settings) {
        Ok(x) => x,
        Err(e) => return Err(e),
    };
    let root = match whitespace_paragraphs_to_empty(root, settings) {
        Ok(x) => x,
        Err(e) => return Err(e),
    };
    let root = match collapse_paragraphs(root, settings) {
        Ok(x) => x,
        Err(e) => return Err(e),
    };
    let root = match collapse_consecutive_text(root, settings) {
        Ok(x) => x,
        Err(e) => return Err(e),
    };
    enumerate_anon_args(root, settings)
}

/// Once a pass fails no later pass runs: when the list fold fails on the
/// folded headings, the pipeline's outcome is that failure.
pub proof fn lemma_pipeline_short_circuit(n: Node)
    requires
        walk(Pass::FoldHeadings, n) matches Ok(a) && walk(Pass::FoldLists, a) matches Err(t),
    ensures
        pipeline(n) == Err::<Node, (Pass, Node)>(
            (Pass::FoldLists, walk(Pass::FoldLists, walk(Pass::FoldHeadings, n)->Ok_0)->Err_0),
        ),
{
}

/// A failure at any stage is what the pipeline reports, whatever the later
/// passes would do.
pub proof fn lemma_failure_persists(p: Pass, q: Pass, t: Node)
    ensures
        stage(p, Err((q, t))) == Err::<Node, (Pass, Node)>((q, t)),
{
}

/// The outcome of `parse` on `input` and the grammar's outcome `g`.
pub open spec fn parse_outcome(input: Seq<char>, g: Result<Element, GrammarError>, r: Result<Element, MWError>) -> bool {
    match g {
        Err(ge) => match r {
            Err(MWError::ParseError(pe)) => exists|lines: Seq<SourceLine>|
                lines_of(input, lines) && describes(pe, ge, lines),
            _ => false,
        },
        Ok(tree) => match r {
            Ok(x) => pipeline_outcome(node_of(tree), Ok(x)),
            Err(MWError::TransformationError(e)) => pipeline_outcome(node_of(tree), Err(e)),
            _ => false,
        },
    }
}

/// Turns the grammar's outcome on `input` into the normalized document: a
/// grammar failure becomes a `ParseError` with context, a raw tree runs
/// through the pipeline. Offsets, in the grammar's error as in every span,
/// count characters of `input`, not bytes.
pub fn parse(input: &str, grammar_result: Result<Element, GrammarError>) -> (r: Result<Element, MWError>)
    requires
        grammar_result matches Err(ge) ==> ge.offset <= input@.len() && ge.offset < usize::MAX,
    ensures
        parse_outcome(input@, grammar_result, r),
{
    let tree = match grammar_result {
        Err(e) => return Err(MWError::ParseError(ParseError::from(&e, input))),
        Ok(t) => t,
    };
    let settings = GeneralSettings {};
    match apply_transformations(tree, &settings) {
        Ok(x) => Ok(x),
        Err(e) => Err(MWError::TransformationError(e)),
    }
}

} // verus!
