//! The link extractor: collects hyperlink and image targets from tree nodes
//! into a duplicate-free, insertion-ordered list.

use vstd::prelude::*;
use crate::ast::{AstNode, first_literal_attr, find_literal_attr};
use crate::occurrence::strs_view;
use crate::text::str_eq;

verus! {

/// The link targets a node contributes itself, not counting its descendants:
/// an image or link url, or the literal `href` of a JSX-like element.
pub open spec fn own_links(n: AstNode) -> Seq<Seq<char>> {
    match n {
        AstNode::Image { url } => seq![url@],
        AstNode::Link { url, .. } => seq![url@],
        AstNode::Jsx { attributes, .. } => match first_literal_attr(attributes@, "href"@) {
            Option::Some(u) => seq![u],
            Option::None => Seq::<Seq<char>>::empty(),
        },
        _ => Seq::<Seq<char>>::empty(),
    }
}

/// All link targets of a node and its descendants, in preorder document
/// order, duplicates included.
pub open spec fn links_of(n: AstNode) -> Seq<Seq<char>>
    decreases n, 0int,
{
    match n {
        AstNode::Heading { children, .. } => links_of_seq(children@),
        AstNode::Link { children, .. } => own_links(n) + links_of_seq(children@),
        AstNode::Jsx { children, .. } => own_links(n) + links_of_seq(children@),
        AstNode::Container { children } => links_of_seq(children@),
        _ => own_links(n),
    }
}

/// All link targets of a sequence of sibling nodes and their descendants.
pub open spec fn links_of_seq(cs: Seq<AstNode>) -> Seq<Seq<char>>
    decreases cs, cs.len(),
{
    if cs.len() == 0 {
        Seq::<Seq<char>>::empty()
    } else {
        links_of(cs[0]) + links_of_seq(cs.drop_first())
    }
}

/// Set-like insertion: a target already present changes nothing.
pub open spec fn insert_link(acc: Seq<Seq<char>>, x: Seq<char>) -> Seq<Seq<char>> {
    if acc.contains(x) {
        acc
    } else {
        acc.push(x)
    }
}

/// Set-like insertion of each target in order.
pub open spec fn insert_links(acc: Seq<Seq<char>>, xs: Seq<Seq<char>>) -> Seq<Seq<char>>
    decreases xs.len(),
{
    if xs.len() == 0 {
        acc
    } else {
        insert_links(insert_link(acc, xs[0]), xs.drop_first())
    }
}

pub proof fn lemma_insert_links_append(acc: Seq<Seq<char>>, a: Seq<Seq<char>>, b: Seq<Seq<char>>)
    ensures
        insert_links(acc, a + b) == insert_links(insert_links(acc, a), b),
    decreases a.len(),
{
    if a.len() == 0 {
        assert(a + b =~= b);
    } else {
        assert((a + b)[0] == a[0]);
        assert((a + b).drop_first() =~= a.drop_first() + b);
        lemma_insert_links_append(insert_link(acc, a[0]), a.drop_first(), b);
    }
}

/// No target occurs twice in a list built by set-like insertion.
pub open spec fn distinct_strs(s: Seq<Seq<char>>) -> bool {
    forall|i: int, j: int| 0 <= i < j < s.len() ==> s[i] != s[j]
}

pub proof fn lemma_insert_link_distinct(acc: Seq<Seq<char>>, x: Seq<char>)
    requires
        distinct_strs(acc),
    ensures
        distinct_strs(insert_link(acc, x)),
{
    if !acc.contains(x) {
        let r = acc.push(x);
        assert forall|i: int, j: int| 0 <= i < j < r.len() implies r[i] != r[j] by {
            if j < acc.len() {
            } else {
                assert(r[j] == x);
                assert(r[i] == acc[i]);
                if acc[i] == x {
                    assert(acc.contains(x));
                }
            }
        }
    }
}

pub proof fn lemma_insert_links_distinct(acc: Seq<Seq<char>>, xs: Seq<Seq<char>>)
    requires
        distinct_strs(acc),
    ensures
        distinct_strs(insert_links(acc, xs)),
    decreases xs.len(),
{
    if xs.len() > 0 {
        lemma_insert_link_distinct(acc, xs[0]);
        lemma_insert_links_distinct(insert_link(acc, xs[0]), xs.drop_first());
    }
}

/// Only an image, a link, or a JSX-like component node contributes a target
/// of its own: every other node kind — raw HTML among them, which the tree
/// holds as a plain container of text — adds nothing, however it is nested.
pub proof fn lemma_non_component_links_nothing(n: AstNode)
    requires
        !(n is Image),
        !(n is Link),
        !(n is Jsx),
    ensures
        own_links(n) == Seq::<Seq<char>>::empty(),
{
}

fn insert_unique(links: &mut Vec<String>, url: String)
    ensures
        strs_view(final(links)@) == insert_link(strs_view(old(links)@), url@),
{
    let ghost m = strs_view(links@);
    let n = links.len();
    let mut i: usize = 0;
    while i < n
        invariant
            n == links@.len(),
            i <= n,
            m == strs_view(links@),
            forall|j: int| 0 <= j < i ==> m[j] != url@,
        decreases n - i,
    {
        if str_eq(links[i].as_str(), url.as_str()) {
            proof {
                assert(m[i as int] == url@);
                assert(m.contains(url@));
            }
            return ;
        }
        i += 1;
    }
    proof {
        assert(!m.contains(url@));
    }
    links.push(url);
    proof {
        assert(strs_view(links@) =~= m.push(url@));
    }
}

/// The link-extraction visitor: record what this node itself contributes;
/// descending into children is the walker's job.
pub fn extract_from_node(node: &AstNode, links: &mut Vec<String>)
    ensures
        strs_view(final(links)@) == insert_links(strs_view(old(links)@), own_links(*node)),
{
    let ghost acc = strs_view(links@);
    match node {
        AstNode::Image { url } => {
            insert_unique(links, url.clone());
            proof {
                lemma_insert_one(acc, url@);
            }
        },
        AstNode::Link { url, .. } => {
            insert_unique(links, url.clone());
            proof {
                lemma_insert_one(acc, url@);
            }
        },
        AstNode::Jsx { attributes, .. } => {
            match find_literal_attr(attributes, "href") {
                Option::Some(u) => {
                    let ghost uv = u@;
                    insert_unique(links, u);
                    proof {
                        lemma_insert_one(acc, uv);
                    }
                },
                Option::None => {},
            }
        },
        _ => {},
    }
}

proof fn lemma_insert_one(acc: Seq<Seq<char>>, x: Seq<char>)
    ensures
        insert_links(acc, seq![x]) == insert_link(acc, x),
{
    let e = Seq::<Seq<char>>::empty();
    assert(seq![x].len() == 1);
    assert(seq![x][0] == x);
    assert(seq![x].drop_first() =~= e);
    assert(insert_links(acc, seq![x]) == insert_links(insert_link(acc, x), e));
    assert(insert_links(insert_link(acc, x), e) == insert_link(acc, x));
}

} // verus!
