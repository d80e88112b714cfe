//! The document syntax tree: a closed tagged union of the node kinds the
//! extractors read, each parent owning its children in document order.

use vstd::prelude::*;
use vstd::string::StringExecFns;

verus! {

/// The value of a JSX-like attribute: a literal string, or any non-literal
/// (expression) form, which no extractor consumes.
pub enum AttrValue {
    Literal(String),
    Other,
}

/// A named attribute of a JSX-like element.
pub struct Attribute {
    pub name: String,
    pub value: AttrValue,
}

/// A node of the document tree. AstNode kinds the extractors do not distinguish
/// (paragraphs, lists, emphasis, ...) all appear as `Container`.
pub enum AstNode {
    Heading { depth: u8, children: Vec<AstNode> },
    Text { value: String },
    InlineCode { value: String },
    InlineMath { value: String },
    Image { url: String },
    Link { url: String, children: Vec<AstNode> },
    Jsx { flow: bool, attributes: Vec<Attribute>, children: Vec<AstNode> },
    Container { children: Vec<AstNode> },
}

/// The children of a node, in document order; leaf kinds have none.
pub open spec fn spec_children(n: AstNode) -> Seq<AstNode> {
    match n {
        AstNode::Heading { children, .. } => children@,
        AstNode::Link { children, .. } => children@,
        AstNode::Jsx { children, .. } => children@,
        AstNode::Container { children } => children@,
        _ => Seq::<AstNode>::empty(),
    }
}

/// The literal string inside an attribute value, where there is one.
pub open spec fn lit_of(v: AttrValue) -> Seq<char> {
    match v {
        AttrValue::Literal(s) => s@,
        AttrValue::Other => Seq::<char>::empty(),
    }
}

/// The first attribute named `name` that carries a literal string value, if
/// any; attributes with the right name but a non-literal value are passed
/// over.
pub open spec fn first_literal_attr(attrs: Seq<Attribute>, name: Seq<char>) -> Option<Seq<char>>
    decreases attrs.len(),
{
    if attrs.len() == 0 {
        Option::None
    } else if attrs[0].name@ == name && attrs[0].value is Literal {
        Option::Some(lit_of(attrs[0].value))
    } else {
        first_literal_attr(attrs.drop_first(), name)
    }
}

/// The plain text of a node and its descendants: the literal values of every
/// `Text`, `InlineCode` and `InlineMath` node, concatenated in document
/// order.
pub open spec fn text_of(n: AstNode) -> Seq<char>
    decreases n, 0int,
{
    match n {
        AstNode::Text { value } => value@,
        AstNode::InlineCode { value } => value@,
        AstNode::InlineMath { value } => value@,
        AstNode::Heading { children, .. } => text_of_seq(children@),
        AstNode::Link { children, .. } => text_of_seq(children@),
        AstNode::Jsx { children, .. } => text_of_seq(children@),
        AstNode::Container { children } => text_of_seq(children@),
        AstNode::Image { .. } => Seq::<char>::empty(),
    }
}

/// The concatenated plain text of a sequence of sibling nodes.
pub open spec fn text_of_seq(cs: Seq<AstNode>) -> Seq<char>
    decreases cs, cs.len(),
{
    if cs.len() == 0 {
        Seq::<char>::empty()
    } else {
        text_of(cs[0]) + text_of_seq(cs.drop_first())
    }
}

/// Append the plain text of a node and all its descendants to `s`.
pub fn get_text(node: &AstNode, s: &mut String)
    ensures
        final(s)@ == old(s)@ + text_of(*node),
    decreases *node, 0int,
{
    match node {
        AstNode::Text { value } => s.append(value.as_str()),
        AstNode::InlineCode { value } => s.append(value.as_str()),
        AstNode::InlineMath { value } => s.append(value.as_str()),
        AstNode::Heading { children, .. } => {
            proof {
                assert(children@.skip(0) =~= children@);
            }
            get_text_from(children, 0, s);
        },
        AstNode::Link { children, .. } => {
            proof {
                assert(children@.skip(0) =~= children@);
            }
            get_text_from(children, 0, s);
        },
        AstNode::Jsx { children, .. } => {
            proof {
                assert(children@.skip(0) =~= children@);
            }
            get_text_from(children, 0, s);
        },
        AstNode::Container { children } => {
            proof {
                assert(children@.skip(0) =~= children@);
            }
            get_text_from(children, 0, s);
        },
        AstNode::Image { .. } => {
            proof {
                assert(old(s)@ + Seq::<char>::empty() =~= old(s)@);
            }
        },
    }
}

fn get_text_from(cs: &Vec<AstNode>, i: usize, s: &mut String)
    requires
        i <= cs@.len(),
    ensures
        final(s)@ == old(s)@ + text_of_seq(cs@.skip(i as int)),
    decreases cs@, cs@.len() - i,
{
    if i < cs.len() {
        proof {
            assert(cs@.skip(i as int)[0] == cs@[i as int]);
            assert(cs@.skip(i as int).drop_first() =~= cs@.skip(i as int + 1));
        }
        get_text(&cs[i], s);
        get_text_from(cs, i + 1, s);
        proof {
            assert(s@ =~= old(s)@ + text_of_seq(cs@.skip(i as int)));
        }
    } else {
        proof {
            assert(cs@.skip(i as int) =~= Seq::<AstNode>::empty());
            assert(old(s)@ + Seq::<char>::empty() =~= old(s)@);
        }
    }
}

/// Look up the first attribute named `name` carrying a literal string value,
/// and hand back a copy of that value.
pub fn find_literal_attr(attrs: &Vec<Attribute>, name: &str) -> (r: Option<String>)
    ensures
        match r {
            Option::Some(s) => first_literal_attr(attrs@, name@) == Option::Some(s@),
            Option::None => first_literal_attr(attrs@, name@) is None,
        },
{
    let n = attrs.len();
    proof {
        assert(attrs@.skip(0) =~= attrs@);
    }
    let mut i: usize = 0;
    while i < n
        invariant
            n == attrs@.len(),
            i <= n,
            first_literal_attr(attrs@, name@) == first_literal_attr(attrs@.skip(i as int), name@),
        decreases n - i,
    {
        proof {
            assert(attrs@.skip(i as int)[0] == attrs@[i as int]);
            assert(attrs@.skip(i as int).drop_first() =~= attrs@.skip(i as int + 1));
        }
        if crate::text::str_eq(attrs[i].name.as_str(), name) {
            match &attrs[i].value {
                AttrValue::Literal(s) => {
                    return Some(s.clone());
                },
                AttrValue::Other => {},
            }
        }
        i += 1;
    }
    proof {
        assert(attrs@.skip(n as int) =~= Seq::<Attribute>::empty());
    }
    None
}

} // verus!
