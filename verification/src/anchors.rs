//! The structural anchor extractor: collects heading slugs and literal
//! element identifiers from tree nodes into an occurrence map.

use vstd::prelude::*;
use crate::ast::{AstNode, first_literal_attr, find_literal_attr, text_of, get_text, spec_children};
use crate::occurrence::{AnchorMap, bump_entries, set_one_entries, bump_count, dedup_entries,
    entry_anchors, anchor_chars, dec_chars, dec_digit, distinct_keys, lemma_bump_entries_distinct,
    lemma_set_one_entries_distinct};
use crate::slug::{heading_slug_of, heading_to_anchor};

verus! {

/// One visitor step of the structural pipeline: a heading raises the count of
/// its slug by one; an element with a literal `id` sets that key's count to
/// one outright, overwriting whatever was there; other nodes change nothing.
pub open spec fn anchor_step(m: Seq<(Seq<char>, u64)>, n: AstNode) -> Seq<(Seq<char>, u64)> {
    match n {
        AstNode::Heading { .. } => bump_entries(m, heading_slug_of(text_of(n))),
        AstNode::Jsx { attributes, .. } => match first_literal_attr(attributes@, "id"@) {
            Option::Some(v) => set_one_entries(m, v),
            Option::None => m,
        },
        _ => m,
    }
}

/// The occurrence map after walking a whole subtree, the node itself first,
/// then its children left to right.
pub open spec fn anchor_fold(m: Seq<(Seq<char>, u64)>, n: AstNode) -> Seq<(Seq<char>, u64)>
    decreases n, 0int,
{
    match n {
        AstNode::Heading { children, .. } => anchor_fold_seq(anchor_step(m, n), children@),
        AstNode::Link { children, .. } => anchor_fold_seq(anchor_step(m, n), children@),
        AstNode::Jsx { children, .. } => anchor_fold_seq(anchor_step(m, n), children@),
        AstNode::Container { children } => anchor_fold_seq(anchor_step(m, n), children@),
        _ => anchor_step(m, n),
    }
}

/// The occurrence map after walking a sequence of sibling subtrees in order.
pub open spec fn anchor_fold_seq(m: Seq<(Seq<char>, u64)>, cs: Seq<AstNode>) -> Seq<(Seq<char>, u64)>
    decreases cs, cs.len(),
{
    if cs.len() == 0 {
        m
    } else {
        anchor_fold_seq(anchor_fold(m, cs[0]), cs.drop_first())
    }
}

/// The structural-anchor visitor: record what this node itself contributes;
/// descending into children is the walker's job. A heading's anchor is the
/// slug of its concatenated plain text; an element's literal `id` always
/// resets its key's count to one.
pub fn extract_from_node(node: &AstNode, anchor_occurrences: &mut AnchorMap)
    ensures
        final(anchor_occurrences)@ == anchor_step(old(anchor_occurrences)@, *node),
{
    match node {
        AstNode::Heading { .. } => {
            let mut text = String::new();
            get_text(node, &mut text);
            proof {
                assert(text@ =~= text_of(*node));
            }
            let anchor = heading_to_anchor(text);
            anchor_occurrences.bump(anchor);
        },
        AstNode::Jsx { attributes, .. } => {
            match find_literal_attr(attributes, "id") {
                Option::Some(v) => {
                    anchor_occurrences.set_one(v);
                },
                Option::None => {},
            }
        },
        _ => {},
    }
}

/// One structural visitor step keeps the occurrence map's keys unique.
pub proof fn lemma_anchor_step_distinct(m: Seq<(Seq<char>, u64)>, n: AstNode)
    requires
        distinct_keys(m),
    ensures
        distinct_keys(anchor_step(m, n)),
{
    match n {
        AstNode::Heading { .. } => {
            lemma_bump_entries_distinct(m, heading_slug_of(text_of(n)));
        },
        AstNode::Jsx { attributes, .. } => {
            match first_literal_attr(attributes@, "id"@) {
                Option::Some(v) => {
                    lemma_set_one_entries_distinct(m, v);
                },
                Option::None => {},
            }
        },
        _ => {},
    }
}

/// A whole structural walk keeps the occurrence map's keys unique: together
/// with the empty map it starts from, the map handed to the finalize step is
/// always well formed.
pub proof fn lemma_anchor_fold_distinct(m: Seq<(Seq<char>, u64)>, n: AstNode)
    requires
        distinct_keys(m),
    ensures
        distinct_keys(anchor_fold(m, n)),
    decreases n, 0int,
{
    lemma_anchor_step_distinct(m, n);
    match n {
        AstNode::Heading { children, .. } => {
            lemma_anchor_fold_seq_distinct(anchor_step(m, n), children@);
        },
        AstNode::Link { children, .. } => {
            lemma_anchor_fold_seq_distinct(anchor_step(m, n), children@);
        },
        AstNode::Jsx { children, .. } => {
            lemma_anchor_fold_seq_distinct(anchor_step(m, n), children@);
        },
        AstNode::Container { children } => {
            lemma_anchor_fold_seq_distinct(anchor_step(m, n), children@);
        },
        _ => {},
    }
}

pub proof fn lemma_anchor_fold_seq_distinct(m: Seq<(Seq<char>, u64)>, cs: Seq<AstNode>)
    requires
        distinct_keys(m),
    ensures
        distinct_keys(anchor_fold_seq(m, cs)),
    decreases cs, cs.len(),
{
    if cs.len() > 0 {
        lemma_anchor_fold_distinct(m, cs[0]);
        lemma_anchor_fold_seq_distinct(anchor_fold(m, cs[0]), cs.drop_first());
    }
}

/// The finalized anchors of a one-entry map: `#key`, then `#key-1`, ..., up
/// to the entry's count.
proof fn lemma_dedup_one_entry(k: Seq<char>, c: u64)
    ensures
        dedup_entries(seq![(k, c)]) == entry_anchors(k, c),
{
    let m = seq![(k, c)];
    assert(m[0] == (k, c));
    assert(m.drop_first() =~= Seq::<(Seq<char>, u64)>::empty());
    assert(dedup_entries(Seq::<(Seq<char>, u64)>::empty()) == Seq::<Seq<char>>::empty());
    assert(dedup_entries(m) == entry_anchors(k, c) + dedup_entries(m.drop_first()));
    assert(entry_anchors(k, c) + Seq::<Seq<char>>::empty() =~= entry_anchors(k, c));
}

/// Two headings whose slugs agree on one non-empty slug, walked in order in
/// a document holding just them, yield exactly the anchors `#slug` and
/// `#slug-1`: the second occurrence gets the numeric suffix.
pub proof fn lemma_duplicate_headings_numbered(h1: AstNode, h2: AstNode, d: AstNode, s: Seq<char>)
    requires
        h1 is Heading && spec_children(h1).len() == 0,
        h2 is Heading && spec_children(h2).len() == 0,
        d is Container && spec_children(d) == seq![h1, h2],
        heading_slug_of(text_of(h1)) == s,
        heading_slug_of(text_of(h2)) == s,
        s.len() > 0,
    ensures
        dedup_entries(anchor_fold(Seq::<(Seq<char>, u64)>::empty(), d)) == seq![
            seq!['#'] + s,
            seq!['#'] + s + seq!['-'] + seq!['1'],
        ],
{
    let e = Seq::<(Seq<char>, u64)>::empty();
    let cs = seq![h1, h2];
    let tail = seq![h2];
    let m1 = bump_entries(e, s);
    let m2 = bump_entries(m1, s);
    assert(m1 == seq![(s, 1u64)]);
    assert(m1[0].0 == s && m1[0].1 == 1u64);
    assert(m1.drop_first() =~= e);
    assert(bump_count(1u64) == 2u64);
    assert(m2 == seq![(s, 2u64)] + e);
    assert(m2 =~= seq![(s, 2u64)]);
    assert(anchor_fold(e, h1) == anchor_fold_seq(m1, spec_children(h1)));
    assert(anchor_fold(e, h1) == m1);
    assert(anchor_fold(m1, h2) == anchor_fold_seq(m2, spec_children(h2)));
    assert(anchor_fold(m1, h2) == m2);
    assert(cs[0] == h1);
    assert(cs.drop_first() =~= tail);
    assert(tail[0] == h2);
    assert(tail.drop_first() =~= Seq::<AstNode>::empty());
    assert(anchor_fold_seq(m2, tail.drop_first()) == m2);
    assert(anchor_fold_seq(m1, tail) == m2);
    assert(anchor_fold_seq(e, cs) == anchor_fold_seq(anchor_fold(e, cs[0]), cs.drop_first()));
    assert(anchor_fold_seq(e, cs) == m2);
    assert(anchor_step(e, d) == e);
    assert(anchor_fold(e, d) == anchor_fold_seq(e, spec_children(d)));
    assert(anchor_fold(e, d) == m2);
    lemma_dedup_one_entry(s, 2u64);
    assert(entry_anchors(s, 2u64).len() == 2);
    assert(entry_anchors(s, 2u64)[0] == anchor_chars(s, 0));
    assert(entry_anchors(s, 2u64)[1] == anchor_chars(s, 1));
    assert(anchor_chars(s, 0) == seq!['#'] + s);
    assert(dec_chars(1) == seq![dec_digit(1)]);
    assert(dec_digit(1) == '1');
    assert(dec_chars(1) =~= seq!['1']);
    assert(anchor_chars(s, 1) == seq!['#'] + s + seq!['-'] + dec_chars(1));
    assert(entry_anchors(s, 2u64) =~= seq![seq!['#'] + s, seq!['#'] + s + seq!['-'] + seq!['1']]);
}

/// A document holding exactly one heading yields exactly `#slug`, with no
/// numeric suffix.
pub proof fn lemma_single_heading_unsuffixed(h: AstNode, d: AstNode, s: Seq<char>)
    requires
        h is Heading && spec_children(h).len() == 0,
        d is Container && spec_children(d) == seq![h],
        heading_slug_of(text_of(h)) == s,
    ensures
        dedup_entries(anchor_fold(Seq::<(Seq<char>, u64)>::empty(), d)) == seq![seq!['#'] + s],
{
    let e = Seq::<(Seq<char>, u64)>::empty();
    let cs = seq![h];
    let m1 = bump_entries(e, s);
    assert(m1 == seq![(s, 1u64)]);
    assert(anchor_fold(e, h) == anchor_fold_seq(m1, spec_children(h)));
    assert(anchor_fold(e, h) == m1);
    assert(cs[0] == h);
    assert(cs.drop_first() =~= Seq::<AstNode>::empty());
    assert(anchor_fold_seq(m1, cs.drop_first()) == m1);
    assert(anchor_fold_seq(e, cs) == anchor_fold_seq(anchor_fold(e, cs[0]), cs.drop_first()));
    assert(anchor_fold_seq(e, cs) == m1);
    assert(anchor_step(e, d) == e);
    assert(anchor_fold(e, d) == anchor_fold_seq(e, spec_children(d)));
    assert(anchor_fold(e, d) == m1);
    lemma_dedup_one_entry(s, 1u64);
    assert(entry_anchors(s, 1u64).len() == 1);
    assert(entry_anchors(s, 1u64)[0] == anchor_chars(s, 0));
    assert(anchor_chars(s, 0) == seq!['#'] + s);
    assert(entry_anchors(s, 1u64) =~= seq![seq!['#'] + s]);
}

/// Two elements carrying equal literal `id` values, both in one document,
/// yield that identifier exactly once and never a numbered duplicate: the
/// identifier rule overwrites the count to one.
pub proof fn lemma_duplicate_ids_once(e1: AstNode, e2: AstNode, d: AstNode, v: Seq<char>)
    requires
        e1 is Jsx && spec_children(e1).len() == 0,
        e2 is Jsx && spec_children(e2).len() == 0,
        first_literal_attr(e1->Jsx_attributes@, "id"@) == Option::Some(v),
        first_literal_attr(e2->Jsx_attributes@, "id"@) == Option::Some(v),
        d is Container && spec_children(d) == seq![e1, e2],
    ensures
        dedup_entries(anchor_fold(Seq::<(Seq<char>, u64)>::empty(), d)) == seq![seq!['#'] + v],
{
    let e = Seq::<(Seq<char>, u64)>::empty();
    let cs = seq![e1, e2];
    let tail = seq![e2];
    let m1 = set_one_entries(e, v);
    let m2 = set_one_entries(m1, v);
    assert(m1 == seq![(v, 1u64)]);
    assert(m1[0].0 == v && m1[0].1 == 1u64);
    assert(m1.drop_first() =~= e);
    assert(m2 == seq![(v, 1u64)] + e);
    assert(m2 =~= seq![(v, 1u64)]);
    assert(anchor_step(e, e1) == m1);
    assert(anchor_fold(e, e1) == anchor_fold_seq(m1, spec_children(e1)));
    assert(anchor_fold(e, e1) == m1);
    assert(anchor_step(m1, e2) == m2);
    assert(anchor_fold(m1, e2) == anchor_fold_seq(m2, spec_children(e2)));
    assert(anchor_fold(m1, e2) == m2);
    assert(cs[0] == e1);
    assert(cs.drop_first() =~= tail);
    assert(tail[0] == e2);
    assert(tail.drop_first() =~= Seq::<AstNode>::empty());
    assert(anchor_fold_seq(m2, tail.drop_first()) == m2);
    assert(anchor_fold_seq(m1, tail) == m2);
    assert(anchor_fold_seq(e, cs) == anchor_fold_seq(anchor_fold(e, cs[0]), cs.drop_first()));
    assert(anchor_fold_seq(e, cs) == m2);
    assert(anchor_step(e, d) == e);
    assert(anchor_fold(e, d) == anchor_fold_seq(e, spec_children(d)));
    assert(anchor_fold(e, d) == m2);
    lemma_dedup_one_entry(v, 1u64);
    assert(entry_anchors(v, 1u64).len() == 1);
    assert(entry_anchors(v, 1u64)[0] == anchor_chars(v, 0));
    assert(anchor_chars(v, 0) == seq!['#'] + v);
    assert(entry_anchors(v, 1u64) =~= seq![seq!['#'] + v]);
}

} // verus!
