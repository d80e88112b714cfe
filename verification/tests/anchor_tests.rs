use mdlinks::ast::{AstNode, Attribute, AttrValue};
use mdlinks::mdx::{walk_ast, Collector};
use mdlinks::occurrence::{AnchorMap, deduplicate_anchors};
use mdlinks::document::extract_from_tree;
use mdlinks::textual::extract_anchors;
use mdlinks::anchors::extract_from_node;

fn assert_set_eq(got: &[String], want: &[&str]) {
    assert_eq!(got.len(), want.len(), "got {:?}, want {:?}", got, want);
    for w in want {
        assert!(got.iter().any(|g| g == w), "missing {:?} in {:?}", w, got);
    }
}

fn heading(text: &str) -> AstNode {
    AstNode::Heading {
        depth: 1,
        children: vec![AstNode::Text { value: String::from(text) }],
    }
}

fn id_element(id: &str) -> AstNode {
    AstNode::Jsx {
        flow: false,
        attributes: vec![
            Attribute { name: String::from("id"), value: AttrValue::Literal(String::from(id)) },
        ],
        children: vec![],
    }
}

#[test]
fn duplicate_headings_get_numeric_suffix() {
    let doc = AstNode::Container {
        children: vec![heading("Hello World!"), heading("Hello World!")],
    };
    let (_, anchors) = extract_from_tree(&doc);
    assert_set_eq(&anchors, &["#hello-world", "#hello-world-1"]);
}

#[test]
fn single_heading_has_no_suffix() {
    let doc = AstNode::Container { children: vec![heading("Only One")] };
    let (_, anchors) = extract_from_tree(&doc);
    assert_set_eq(&anchors, &["#only-one"]);
}

#[test]
fn triple_headings_number_from_one() {
    let doc = AstNode::Container {
        children: vec![heading("X"), heading("X"), heading("X")],
    };
    let (_, anchors) = extract_from_tree(&doc);
    assert_set_eq(&anchors, &["#x", "#x-1", "#x-2"]);
}

#[test]
fn duplicate_ids_yield_identifier_once() {
    let doc = AstNode::Container { children: vec![id_element("custom"), id_element("custom")] };
    let (_, anchors) = extract_from_tree(&doc);
    assert_set_eq(&anchors, &["#custom"]);
}

#[test]
fn id_overwrites_heading_count() {
    let doc = AstNode::Container {
        children: vec![heading("dup"), heading("dup"), id_element("dup")],
    };
    let (_, anchors) = extract_from_tree(&doc);
    assert_set_eq(&anchors, &["#dup"]);
}

#[test]
fn heading_text_concatenates_code_and_math() {
    let doc = AstNode::Container {
        children: vec![AstNode::Heading {
            depth: 2,
            children: vec![
                AstNode::Text { value: String::from("Use ") },
                AstNode::InlineCode { value: String::from("foo()") },
                AstNode::Text { value: String::from(" and ") },
                AstNode::InlineMath { value: String::from("x+y") },
            ],
        }],
    };
    let (_, anchors) = extract_from_tree(&doc);
    assert_set_eq(&anchors, &["#use-foo-and-x+y"]);
}

#[test]
fn non_literal_id_contributes_nothing() {
    let doc = AstNode::Container {
        children: vec![AstNode::Jsx {
            flow: true,
            attributes: vec![Attribute { name: String::from("id"), value: AttrValue::Other }],
            children: vec![],
        }],
    };
    let (_, anchors) = extract_from_tree(&doc);
    assert!(anchors.is_empty());
}

#[test]
fn visitor_alone_ignores_children() {
    let mut occ = AnchorMap::new();
    let nested = AstNode::Container { children: vec![heading("inner")] };
    extract_from_node(&nested, &mut occ);
    assert!(deduplicate_anchors(occ).is_empty());
}

#[test]
fn walker_reaches_nested_headings() {
    let doc = AstNode::Container {
        children: vec![AstNode::Container { children: vec![heading("deep")] }],
    };
    let mut state = Collector::new();
    walk_ast(&doc, &mut state);
    let anchors = deduplicate_anchors(state.anchors);
    assert_set_eq(&anchors, &["#deep"]);
}

#[test]
fn deduplicate_anchors_numbers_each_entry() {
    let occ = AnchorMap {
        entries: vec![(String::from("a"), 2), (String::from("b"), 1)],
    };
    let anchors = deduplicate_anchors(occ);
    assert_set_eq(&anchors, &["#a", "#a-1", "#b"]);
}

#[test]
fn textual_mode_unwraps_links_and_collects_ids() {
    let anchors = extract_anchors("## My [linked](/a) heading\n<span id=\"foo\">");
    assert_set_eq(&anchors, &["#my-linked-heading", "#foo"]);
}

#[test]
fn textual_heading_rules() {
    assert_set_eq(&extract_anchors("# One"), &["#one"]);
    assert_set_eq(&extract_anchors("   ###   Indented Heading   "), &["#indented-heading"]);
    assert_set_eq(&extract_anchors("####### seven hashes"), &[]);
    assert_set_eq(&extract_anchors("#nospace"), &[]);
    assert_set_eq(&extract_anchors("# A\n# A"), &["#a", "#a-1"]);
    assert_set_eq(&extract_anchors("# A\r\n## B\r\n"), &["#a", "#b"]);
}

#[test]
fn textual_id_first_occurrence_wins() {
    let anchors = extract_anchors("<a id=\"x\"> <b id=\"x\">\n<c id=\"x\">");
    assert_set_eq(&anchors, &["#x"]);
}

#[test]
fn textual_id_without_closing_quote_matches_nothing() {
    assert_set_eq(&extract_anchors("id=\"open"), &[]);
    assert_set_eq(&extract_anchors("id=\"a\" id=\"b"), &["#a"]);
}

#[test]
fn textual_line_may_match_both_patterns() {
    let anchors = extract_anchors("## Title id=\"inline\"");
    assert_set_eq(&anchors, &["#title-id=inline", "#inline"]);
}
