use mdlinks::document::{extract_from_source, extract_links_from_source, is_notebook_path,
    build_read_error};

fn assert_set_eq(got: &[String], want: &[&str]) {
    assert_eq!(got.len(), want.len(), "got {:?}, want {:?}", got, want);
    for w in want {
        assert!(got.iter().any(|g| g == w), "missing {:?} in {:?}", w, got);
    }
}

#[test]
fn notebook_paths_end_in_the_notebook_extension() {
    assert!(is_notebook_path("guide.ipynb"));
    assert!(is_notebook_path("a/b/c.ipynb"));
    assert!(!is_notebook_path("guide.md"));
    assert!(!is_notebook_path("ipynb"));
    assert!(!is_notebook_path(""));
    assert!(!is_notebook_path("x.ipynbx"));
    assert!(!is_notebook_path("x.IPYNB"));
}

#[test]
fn read_errors_carry_the_path() {
    assert_eq!(
        build_read_error("docs/a.ipynb", "bad cells"),
        "Could not read \"docs/a.ipynb\": bad cells"
    );
}

#[test]
fn markdown_document_yields_links_and_structural_anchors() {
    let text = String::from("# Hello World!\n\n## Hello World!\n\nSee [docs](/docs).\n");
    let (links, anchors) = extract_from_source("guide.md", text).unwrap();
    assert_set_eq(&links, &["/docs"]);
    assert_set_eq(&anchors, &["#hello-world", "#hello-world-1"]);
}

#[test]
fn component_ids_become_anchors_in_the_structural_pipeline() {
    let text = String::from("Some <Anchor id=\"custom\">x</Anchor> and <Anchor id=\"custom\">y</Anchor>\n");
    let (_, anchors) = extract_from_source("page.mdx", text).unwrap();
    assert_set_eq(&anchors, &["#custom"]);
}

#[test]
fn notebook_documents_are_flattened_before_parsing() {
    let json = "{\"cells\":[\
        {\"cell_type\":\"markdown\",\"source\":[\"# Title\\n\"]},\
        {\"cell_type\":\"markdown\",\"source\":[\"[l](/from-notebook)\"]}]}";
    let (links, anchors) = extract_from_source("nb.ipynb", String::from(json)).unwrap();
    assert_set_eq(&links, &["/from-notebook"]);
    assert_set_eq(&anchors, &["#title"]);
}

#[test]
fn notebook_decode_failure_is_wrapped_with_the_path() {
    let err = extract_from_source("nb.ipynb", String::from("{}")).unwrap_err();
    assert!(err.starts_with("Could not read \"nb.ipynb\": "), "got {:?}", err);
}

#[test]
fn parse_failure_is_not_wrapped() {
    let err = extract_from_source("doc.md", String::from("text <a>unclosed")).unwrap_err();
    assert!(!err.starts_with("Could not read"), "got {:?}", err);
}

#[test]
fn link_only_entry_point_matches_the_combined_one() {
    let text = "[a](/a) ![i](/i) <L href=\"/h\">x</L>\n";
    let links = extract_links_from_source("d.md", String::from(text)).unwrap();
    assert_set_eq(&links, &["/a", "/i", "/h"]);
    let (both, _) = extract_from_source("d.md", String::from(text)).unwrap();
    assert_eq!(links, both);
}
