use mdlinks::notebook::{extract_markdown_from_notebook_source, extract_markdown_from_cells,
    NotebookCell};

fn cell(tag: &str, frags: &[&str]) -> NotebookCell {
    NotebookCell {
        cell_type: String::from(tag),
        source: frags.iter().map(|f| String::from(*f)).collect(),
    }
}

#[test]
fn markdown_cells_are_joined_with_one_blank_line() {
    let json = "{\"cells\":[\
        {\"cell_type\":\"markdown\",\"source\":[\"# A\\n\",\"\\n\"]},\
        {\"cell_type\":\"code\",\"source\":[\"ignored\"]},\
        {\"cell_type\":\"markdown\",\"source\":[\"Body text\"]}]}";
    let md = extract_markdown_from_notebook_source(String::from(json)).unwrap();
    assert_eq!(md, "# A\n\n\n\nBody text");
}

#[test]
fn cells_flatten_without_separator_inside_a_cell() {
    let cells = vec![
        cell("markdown", &["# A\n", "\n"]),
        cell("code", &["ignored"]),
        cell("markdown", &["Body text"]),
    ];
    assert_eq!(extract_markdown_from_cells(&cells), "# A\n\n\n\nBody text");
}

#[test]
fn no_markdown_cells_yield_empty_text() {
    let cells = vec![cell("code", &["x"]), cell("raw", &[])];
    assert_eq!(extract_markdown_from_cells(&cells), "");
    let md = extract_markdown_from_notebook_source(String::from(
        "{\"cells\":[{\"cell_type\":\"code\",\"source\":[\"x\"]}]}",
    ))
    .unwrap();
    assert_eq!(md, "");
}

#[test]
fn empty_cell_list_is_not_an_error() {
    assert_eq!(extract_markdown_from_notebook_source(String::from("{\"cells\":[]}")).unwrap(), "");
}

#[test]
fn invalid_json_is_a_decode_error() {
    assert!(extract_markdown_from_notebook_source(String::from("not json")).is_err());
}

#[test]
fn missing_cells_list_is_a_decode_error() {
    assert!(extract_markdown_from_notebook_source(String::from("{}")).is_err());
    assert!(extract_markdown_from_notebook_source(String::from("{\"cells\":3}")).is_err());
}

#[test]
fn malformed_cell_fields_are_decode_errors() {
    assert!(extract_markdown_from_notebook_source(String::from(
        "{\"cells\":[{\"source\":[\"x\"]}]}",
    ))
    .is_err());
    assert!(extract_markdown_from_notebook_source(String::from(
        "{\"cells\":[{\"cell_type\":7,\"source\":[\"x\"]}]}",
    ))
    .is_err());
    assert!(extract_markdown_from_notebook_source(String::from(
        "{\"cells\":[{\"cell_type\":\"markdown\"}]}",
    ))
    .is_err());
    assert!(extract_markdown_from_notebook_source(String::from(
        "{\"cells\":[{\"cell_type\":\"markdown\",\"source\":\"x\"}]}",
    ))
    .is_err());
    assert!(extract_markdown_from_notebook_source(String::from(
        "{\"cells\":[{\"cell_type\":\"markdown\",\"source\":[5]}]}",
    ))
    .is_err());
}
