use mdlinks::ast::{AstNode, Attribute, AttrValue};
use mdlinks::mdx::{extract_links, parse_mdx};
use mdlinks::document::extract_from_tree;
use mdlinks::links::extract_from_node;

fn assert_set_eq(got: &[String], want: &[&str]) {
    assert_eq!(got.len(), want.len(), "got {:?}, want {:?}", got, want);
    for w in want {
        assert!(got.iter().any(|g| g == w), "missing {:?} in {:?}", w, got);
    }
}

#[test]
fn component_href_and_markdown_link_are_both_found() {
    let links = extract_links(String::from(
        "Some <CustomLink href=\"/foo\">text</CustomLink> and [md](/bar)",
    ))
    .unwrap();
    assert_set_eq(&links, &["/foo", "/bar"]);
}

#[test]
fn plain_html_anchor_contributes_nothing() {
    let links = extract_links(String::from("A markdown [l](/x) link.")).unwrap();
    assert_set_eq(&links, &["/x"]);
    let doc = AstNode::Container {
        children: vec![AstNode::Container {
            children: vec![AstNode::Text { value: String::from("<a href=\"/raw\">t</a>") }],
        }],
    };
    let (links, _) = extract_from_tree(&doc);
    assert!(links.is_empty());
}

#[test]
fn image_and_link_urls_are_collected() {
    let links = extract_links(String::from("![alt](/img.png) and [t](/page)")).unwrap();
    assert_set_eq(&links, &["/img.png", "/page"]);
}

#[test]
fn duplicate_targets_collapse() {
    let links = extract_links(String::from("[a](/same) then [b](/same)")).unwrap();
    assert_set_eq(&links, &["/same"]);
}

#[test]
fn parse_failure_carries_a_diagnostic() {
    let r = extract_links(String::from("text <a>unclosed"));
    assert!(r.is_err());
    assert!(!r.unwrap_err().is_empty());
}

#[test]
fn extraction_is_deterministic() {
    let text = "Some <CustomLink href=\"/foo\">text</CustomLink> and [md](/bar)";
    let once = extract_links(String::from(text)).unwrap();
    let again = extract_links(String::from(text)).unwrap();
    assert_eq!(once, again);
}

#[test]
fn parse_mdx_accepts_extended_syntax() {
    assert!(parse_mdx(String::from("# H\n\n~~gone~~ $x^2$\n\n<Box id=\"b\">in</Box>\n")).is_ok());
    assert!(parse_mdx(String::from("<4bad>")).is_err());
}

#[test]
fn visitor_reads_href_of_component_elements() {
    let mut links: Vec<String> = Vec::new();
    let el = AstNode::Jsx {
        flow: true,
        attributes: vec![
            Attribute { name: String::from("rel"), value: AttrValue::Literal(String::from("x")) },
            Attribute { name: String::from("href"), value: AttrValue::Other },
            Attribute {
                name: String::from("href"),
                value: AttrValue::Literal(String::from("/first")),
            },
        ],
        children: vec![],
    };
    extract_from_node(&el, &mut links);
    assert_set_eq(&links, &["/first"]);
}

#[test]
fn visitor_ignores_other_nodes() {
    let mut links: Vec<String> = Vec::new();
    extract_from_node(&AstNode::Text { value: String::from("[not](/parsed)") }, &mut links);
    assert!(links.is_empty());
}
