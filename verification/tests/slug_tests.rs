use mdlinks::slug::{slugify, heading_to_anchor, unwrap_links};

#[test]
fn slugify_basic_transform() {
    assert_eq!(slugify("Hello World!"), "hello-world");
    assert_eq!(slugify("  Trimmed  "), "trimmed");
    assert_eq!(slugify("\tTab bounded\t"), "tab-bounded");
    assert_eq!(slugify("A.B,C;D:E!F?G`H\\I(J)K\"L'M"), "abcdefghijklm");
}

#[test]
fn slugify_keeps_hyphens_and_unknown_characters() {
    assert_eq!(slugify("already-hyphenated"), "already-hyphenated");
    assert_eq!(slugify("under_score & ampersand"), "under_score-&-ampersand");
    assert_eq!(slugify("a--b"), "a--b");
}

#[test]
fn slugify_total_on_arbitrary_unicode() {
    assert_eq!(slugify(""), "");
    assert_eq!(slugify("ÄÖÜ Straße"), "äöü-straße");
    let _ = slugify("漢字 かな 🦀 \u{0} \u{10FFFF}");
    let _ = slugify("\u{202e}mixed\u{301} ζΖΣσς İı");
}

#[test]
fn slugify_textual_variant_keeps_braces() {
    assert_eq!(slugify("A {b}!"), "a-{b}");
}

#[test]
fn heading_to_anchor_drops_braces() {
    assert_eq!(heading_to_anchor(String::from("A {b}!")), "a-b");
    assert_eq!(heading_to_anchor(String::from("Hello World!")), "hello-world");
}

#[test]
fn slugify_idempotent_on_its_output() {
    for input in [
        "Hello World!",
        "  Mixed CASE with (parens) and 'quotes'  ",
        "ÄÖÜ Straße",
        "a.b c{d}",
        "",
    ] {
        let once = slugify(input);
        assert_eq!(slugify(&once), once, "input {:?}", input);
    }
    let once = heading_to_anchor(String::from("My {curly} Heading!"));
    assert_eq!(heading_to_anchor(once.clone()), once);
}

#[test]
fn unwrap_links_replaces_pattern_with_label() {
    assert_eq!(unwrap_links("My [linked](/a) heading"), "My linked heading");
    assert_eq!(unwrap_links("[a](1)[b](2)"), "ab");
    assert_eq!(unwrap_links("no links here"), "no links here");
}

#[test]
fn unwrap_links_leaves_incomplete_patterns() {
    assert_eq!(unwrap_links("[no target]"), "[no target]");
    assert_eq!(unwrap_links("[unclosed](target"), "[unclosed](target");
    assert_eq!(unwrap_links("[bad [nest]](x)"), "[bad [nest]](x)");
    assert_eq!(unwrap_links("]([l](t)"), "](l");
}

#[test]
fn unwrap_links_nongreedy_target() {
    assert_eq!(unwrap_links("[l](a)b)"), "lb)");
    assert_eq!(unwrap_links("[x]( (y) )z"), "x )z");
}
