//! Parsing a document into the tree, and the pre-order walk that drives both
//! extraction visitors over it.

use vstd::prelude::*;
use crate::ast::{AstNode, Attribute, AttrValue};
use crate::anchors::{anchor_fold, anchor_fold_seq};
use crate::links::{own_links, links_of, links_of_seq, insert_links, lemma_insert_links_append,
    distinct_strs, lemma_insert_links_distinct};
use crate::occurrence::{AnchorMap, strs_view};
use markdown::mdast;

verus! {

/// What parsing a document under the fixed extended-markdown configuration
/// returns: the library's tree, or the parser's diagnostic. The parse is a
/// pure function of the text alone, so the result carries a name.
pub uninterp spec fn tree_of(s: Seq<char>) -> Result<AstNode, String>;

/// Relies on `markdown::to_mdast` with the fixed extended-markdown
/// configuration (GFM autolink literals, footnotes, strikethrough, tables,
/// task-list items, flow and inline math, flow and inline JSX-like elements,
/// on top of the MDX grammar), a deterministic function of the text; the
/// tree is carried over field by field by the conversions beside this, and
/// on failure the parser's own diagnostic message passes through unmodified.
#[verifier::external_body]
fn parse_extended(source: &str) -> (r: Result<AstNode, String>)
    ensures
        r == tree_of(source@),
{
    let mut c = markdown::Constructs::mdx();
    c.gfm_autolink_literal = true; c.gfm_footnote_definition = true;
    c.gfm_label_start_footnote = true; c.gfm_strikethrough = true;
    c.gfm_table = true; c.gfm_task_list_item = true;
    c.math_flow = true; c.math_text = true;
    c.mdx_jsx_flow = true; c.mdx_jsx_text = true;
    let mut options = markdown::ParseOptions::mdx();
    options.constructs = c;
    match markdown::to_mdast(source, &options) {
        Ok(ast) => Ok(conv_node(&ast)),
        Err(m) => Err(m.to_string()),
    }
}

/// Relies on the layout of `markdown::mdast::AttributeContent`: a named
/// property carries its name and literal value over, one variant per arm; an
/// expression (spread) attribute, which no extractor reads, becomes nothing.
#[verifier::external_body]
fn attr_of(a: &mdast::AttributeContent) -> Option<Attribute> {
    match a {
        mdast::AttributeContent::Property(p) => Some(
            Attribute {
                name: p.name.clone(),
                value: match &p.value {
                    Some(mdast::AttributeValue::Literal(s)) => AttrValue::Literal(s.clone()),
                    _ => AttrValue::Other,
                },
            },
        ),
        mdast::AttributeContent::Expression(_) => None,
    }
}

fn conv_attrs(attrs: &Vec<mdast::AttributeContent>) -> Vec<Attribute> {
    let mut out: Vec<Attribute> = Vec::new();
    let mut i: usize = 0;
    while i < attrs.len()
        decreases attrs@.len() - i,
    {
        match attr_of(&attrs[i]) {
            Some(a) => out.push(a),
            None => {},
        }
        i += 1;
    }
    out
}

fn conv_children(cs: &Vec<mdast::Node>) -> Vec<AstNode> {
    let mut out: Vec<AstNode> = Vec::new();
    let mut i: usize = 0;
    while i < cs.len()
        decreases cs@.len() - i,
    {
        out.push(conv_node(&cs[i]));
        i += 1;
    }
    out
}

/// Relies on the layout of `markdown::mdast::Node`: the leaf kinds the
/// extractors read are carried over field by field, one variant per arm.
#[verifier::external_body]
fn conv_node(n: &mdast::Node) -> AstNode {
    match n {
        mdast::Node::Text(t) => AstNode::Text { value: t.value.clone() },
        mdast::Node::InlineCode(c) => AstNode::InlineCode { value: c.value.clone() },
        mdast::Node::InlineMath(m) => AstNode::InlineMath { value: m.value.clone() },
        mdast::Node::Image(i) => AstNode::Image { url: i.url.clone() },
        _ => conv_parent(n),
    }
}

/// Relies on the layout of `markdown::mdast::Node`: the parent kinds the
/// extractors read are carried over field by field, one variant per arm;
/// every other kind keeps only its children, as a plain container.
#[verifier::external_body]
fn conv_parent(n: &mdast::Node) -> AstNode {
    match n {
        mdast::Node::Heading(h) => AstNode::Heading { depth: h.depth, children: conv_children(&h.children) },
        mdast::Node::Link(l) => AstNode::Link { url: l.url.clone(), children: conv_children(&l.children) },
        mdast::Node::MdxJsxFlowElement(e) => AstNode::Jsx { flow: true, attributes: conv_attrs(&e.attributes), children: conv_children(&e.children) },
        mdast::Node::MdxJsxTextElement(e) => AstNode::Jsx { flow: false, attributes: conv_attrs(&e.attributes), children: conv_children(&e.children) },
        _ => AstNode::Container { children: n.children().map(|cs| conv_children(cs)).unwrap_or(Vec::new()) },
    }
}

/// Parse an extended-markdown document into the library's tree: exactly the
/// named parse result of the text, so two calls on equal text agree. The
/// grammar itself lives in the outside parser; every consumer of the tree is
/// verified for all trees.
pub fn parse_mdx(source: String) -> (r: Result<AstNode, String>)
    ensures
        r == tree_of(source@),
{
    parse_extended(source.as_str())
}

/// Caller-owned state accumulated over one walk: the link targets seen so
/// far, and the anchor occurrence map.
pub struct Collector {
    pub links: Vec<String>,
    pub anchors: AnchorMap,
}

impl Collector {
    pub fn new() -> (r: Collector)
        ensures
            r.links@.len() == 0,
            r.anchors@ == Seq::<(Seq<char>, u64)>::empty(),
    {
        Collector { links: Vec::new(), anchors: AnchorMap::new() }
    }
}

/// Walk the tree depth first, pre-order — the node itself, then each child in
/// document order — applying both extraction visitors to every node.
pub fn walk_ast(node: &AstNode, state: &mut Collector)
    ensures
        strs_view(final(state).links@) == insert_links(
            strs_view(old(state).links@),
            links_of(*node),
        ),
        final(state).anchors@ == anchor_fold(old(state).anchors@, *node),
    decreases *node, 0int,
{
    crate::links::extract_from_node(node, &mut state.links);
    crate::anchors::extract_from_node(node, &mut state.anchors);
    let ghost links0 = strs_view(old(state).links@);
    match node {
        AstNode::Heading { children, .. } => {
            proof {
                assert(children@.skip(0) =~= children@);
            }
            walk_from(children, 0, state);
        },
        AstNode::Link { children, .. } => {
            proof {
                assert(children@.skip(0) =~= children@);
                lemma_insert_links_append(links0, own_links(*node), links_of_seq(children@));
            }
            walk_from(children, 0, state);
        },
        AstNode::Jsx { children, .. } => {
            proof {
                assert(children@.skip(0) =~= children@);
                lemma_insert_links_append(links0, own_links(*node), links_of_seq(children@));
            }
            walk_from(children, 0, state);
        },
        AstNode::Container { children } => {
            proof {
                assert(children@.skip(0) =~= children@);
            }
            walk_from(children, 0, state);
        },
        _ => {},
    }
}

fn walk_from(cs: &Vec<AstNode>, i: usize, state: &mut Collector)
    requires
        i <= cs@.len(),
    ensures
        strs_view(final(state).links@) == insert_links(
            strs_view(old(state).links@),
            links_of_seq(cs@.skip(i as int)),
        ),
        final(state).anchors@ == anchor_fold_seq(old(state).anchors@, cs@.skip(i as int)),
    decreases cs@, cs@.len() - i,
{
    if i < cs.len() {
        proof {
            assert(cs@.skip(i as int)[0] == cs@[i as int]);
            assert(cs@.skip(i as int).drop_first() =~= cs@.skip(i as int + 1));
            lemma_insert_links_append(
                strs_view(state.links@),
                links_of(cs@[i as int]),
                links_of_seq(cs@.skip(i as int + 1)),
            );
        }
        walk_ast(&cs[i], state);
        walk_from(cs, i + 1, state);
    } else {
        proof {
            assert(cs@.skip(i as int) =~= Seq::<AstNode>::empty());
        }
    }
}

/// Extract every hyperlink and image target of an extended-markdown
/// document: parse it, then walk the tree once collecting targets in
/// document order, duplicates collapsed. Succeeds exactly when the parse of
/// the input does; a failure carries the parser's diagnostic unmodified, and
/// a success is the link extraction of the input's own tree.
pub fn extract_links(markdown: String) -> (r: Result<Vec<String>, String>)
    ensures
        r is Ok == tree_of(markdown@) is Ok,
        r is Err ==> r->Err_0 == tree_of(markdown@)->Err_0,
        r is Ok ==> distinct_strs(strs_view(r->Ok_0@)) && strs_view(r->Ok_0@) == insert_links(
            Seq::<Seq<char>>::empty(),
            links_of(tree_of(markdown@)->Ok_0),
        ),
{
    let tree = match parse_mdx(markdown) {
        Ok(t) => t,
        Err(m) => {
            return Err(m);
        },
    };
    let mut state = Collector::new();
    let ghost l0 = state.links@;
    walk_ast(&tree, &mut state);
    proof {
        assert(strs_view(l0) =~= Seq::<Seq<char>>::empty());
        assert(strs_view(state.links@) == insert_links(Seq::<Seq<char>>::empty(), links_of(tree)));
        lemma_insert_links_distinct(Seq::<Seq<char>>::empty(), links_of(tree));
    }
    Ok(state.links)
}

} // verus!
