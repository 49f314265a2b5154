use nami_core::dom::{Document, ElementData, Node, NodeData};
use nami_core::find::find_in_document;
use nami_core::find::search::literal_find_all;
use nami_core::find::FindSpec;

fn el(tag: &str, children: Vec<Node>) -> Node {
    Node {
        data: NodeData::Element(ElementData { tag: tag.to_string(), attributes: Vec::new() }),
        children,
    }
}

fn text(t: &str) -> Node {
    Node { data: NodeData::Text(t.to_string()), children: Vec::new() }
}

fn doc(children: Vec<Node>) -> Document {
    Document { root: Node { data: NodeData::Document, children } }
}

/// `<html><head></head><body>…</body></html>`, as an HTML parser builds it.
fn page(body: Vec<Node>) -> Document {
    doc(vec![el("html", vec![el("head", vec![]), el("body", body)])])
}

fn sample() -> Document {
    page(vec![
        text("\n                "),
        el("h1", vec![text("Rust Browser")]),
        text("\n                "),
        el("p", vec![text("Rust is memory-safe and rust-the-fungus isn't.")]),
        text("\n                "),
        el("script", vec![text("var secret = \"rust\"")]),
        text("\n                "),
        el("p", vec![text("See also: trust, gust.")]),
        text("\n              \n"),
    ])
}

#[test]
fn empty_query_returns_empty() {
    let doc = sample();
    let spec = FindSpec::default_profile();
    assert!(find_in_document(&doc, "", &spec).is_empty());
}

#[test]
fn substring_match_case_insensitive() {
    let doc = sample();
    let spec = FindSpec::default_profile();
    let hits = find_in_document(&doc, "rust", &spec);
    assert!(hits.iter().any(|h| h.matched == "Rust"));
    assert!(hits.iter().any(|h| h.matched == "rust"));
    assert!(!hits.iter().any(|h| h.enclosing_tag.as_deref() == Some("script")));
}

#[test]
fn case_sensitive_respected() {
    let doc = sample();
    let spec = FindSpec { case_sensitive: true, ..FindSpec::default_profile() };
    let rust_cap = find_in_document(&doc, "Rust", &spec);
    assert!(rust_cap.iter().all(|h| h.matched == "Rust"));
}

#[test]
fn whole_word_rejects_substring_hits() {
    let doc = page(vec![el("p", vec![text("trust the rust")])]);
    let spec = FindSpec { whole_word: true, ..FindSpec::default_profile() };
    let hits = find_in_document(&doc, "rust", &spec);
    assert_eq!(hits.len(), 1);
    assert_eq!(hits[0].matched, "rust");
}

#[test]
fn whole_word_also_handles_hyphens_as_boundaries() {
    let doc = page(vec![el("p", vec![text("rust-lang site")])]);
    let spec = FindSpec { whole_word: true, ..FindSpec::default_profile() };
    let hits = find_in_document(&doc, "rust", &spec);
    assert_eq!(hits.len(), 1);
}

#[test]
fn regex_mode_supports_alternation() {
    let doc = sample();
    let spec = FindSpec { regex: true, case_sensitive: true, ..FindSpec::default_profile() };
    let hits = find_in_document(&doc, "Rust|gust", &spec);
    assert!(hits.iter().any(|h| h.matched == "Rust"));
    assert!(hits.iter().any(|h| h.matched == "gust"));
}

#[test]
fn malformed_regex_returns_empty_not_panics() {
    let doc = sample();
    let spec = FindSpec { regex: true, ..FindSpec::default_profile() };
    let hits = find_in_document(&doc, "[unbalanced", &spec);
    assert!(hits.is_empty());
}

#[test]
fn max_matches_caps_results() {
    let long = "a ".repeat(2000);
    let doc = page(vec![el("p", vec![text(&long)])]);
    let spec = FindSpec { max_matches: 10, ..FindSpec::default_profile() };
    let hits = find_in_document(&doc, "a", &spec);
    assert_eq!(hits.len(), 10);
}

#[test]
fn script_and_style_content_skipped() {
    let doc = page(vec![
        text("\n                "),
        el("p", vec![text("visible")]),
        text("\n                "),
        el("script", vec![text("invisible")]),
        text("\n                "),
        el("style", vec![text(".x { color: invisible; }")]),
        text("\n              \n"),
    ]);
    let spec = FindSpec::default_profile();
    let hits = find_in_document(&doc, "invisible", &spec);
    assert!(hits.is_empty());
}

#[test]
fn matches_carry_enclosing_tag_and_offset() {
    let doc = page(vec![el("p", vec![text("hello world hello again")])]);
    let spec = FindSpec { case_sensitive: true, ..FindSpec::default_profile() };
    let hits = find_in_document(&doc, "hello", &spec);
    assert_eq!(hits.len(), 2);
    assert_eq!(hits[0].offset, 0);
    assert_eq!(hits[0].enclosing_tag.as_deref(), Some("p"));
    assert_eq!(hits[1].offset, 12);
}

#[test]
fn find_text_nodes_are_numbered_in_document_order() {
    let doc = sample();
    let spec = FindSpec { case_sensitive: true, ..FindSpec::default_profile() };
    let hits = find_in_document(&doc, "Rust", &spec);
    assert_eq!(hits.len(), 2);
    assert_eq!((hits[0].text_node_index, hits[0].offset), (1, 0));
    assert_eq!(hits[0].enclosing_tag.as_deref(), Some("h1"));
    assert_eq!((hits[1].text_node_index, hits[1].offset), (3, 0));
    // The skipped script text takes no index: the footnote is text node 6.
    let gust = find_in_document(&doc, "gust", &spec);
    assert_eq!(gust.len(), 1);
    assert_eq!((gust[0].text_node_index, gust[0].offset), (6, 17));
}

#[test]
fn find_enclosing_tag_is_lower_cased_and_top_level_text_has_none() {
    let d = doc(vec![text("word"), el("DIV", vec![text("word")])]);
    let spec = FindSpec::default_profile();
    let hits = find_in_document(&d, "WORD", &spec);
    assert_eq!(hits.len(), 2);
    assert_eq!(hits[0].enclosing_tag, None);
    assert_eq!(hits[0].matched, "word");
    assert_eq!(hits[1].enclosing_tag.as_deref(), Some("div"));
    assert_eq!(hits[1].text_node_index, 1);
}

#[test]
fn find_cap_stops_an_element_but_not_the_document_level() {
    let d = doc(vec![text("x x"), el("p", vec![text("x"), text("x")]), text("x")]);
    let spec = FindSpec { max_matches: 2, ..FindSpec::default_profile() };
    let hits = find_in_document(&d, "x", &spec);
    assert_eq!(hits.len(), 2);
    assert!(hits.iter().all(|h| h.text_node_index == 0));
    let unlimited = FindSpec { max_matches: 0, ..FindSpec::default_profile() };
    assert_eq!(find_in_document(&d, "x", &unlimited).len(), 5);
}

#[test]
fn find_offsets_are_in_characters() {
    let r = literal_find_all("héllo wörld", "wörld", true, false);
    assert_eq!(r, vec![(6, "wörld".to_string())]);
    let r = literal_find_all("ÉCOLE école", "école", false, false);
    assert_eq!(r, vec![(0, "ÉCOLE".to_string()), (6, "école".to_string())]);
    let doc = page(vec![el("p", vec![text("é hello")])]);
    let spec = FindSpec { case_sensitive: true, ..FindSpec::default_profile() };
    let hits = find_in_document(&doc, "hello", &spec);
    assert_eq!(hits.len(), 1);
    assert_eq!(hits[0].matched, "hello");
    assert_eq!(hits[0].enclosing_tag.as_deref(), Some("p"));
    assert_eq!(hits[0].offset, 2);
}

#[test]
fn find_hits_do_not_overlap() {
    let r = literal_find_all("aaaa", "aa", true, false);
    assert_eq!(r, vec![(0, "aa".to_string()), (2, "aa".to_string())]);
}

#[test]
fn find_whole_word_counts_letters_digits_and_underscore() {
    assert!(literal_find_all("x_rust rust2 éRust", "rust", false, true).is_empty());
    assert_eq!(literal_find_all("(rust)", "rust", false, true), vec![(1, "rust".to_string())]);
}

#[test]
fn find_empty_needle_hits_once_at_the_start() {
    assert_eq!(literal_find_all("abc", "", true, false), vec![(0, String::new())]);
}

#[test]
fn find_lower_casing_that_lengthens_a_character_still_finds_hits() {
    // "İ" lower-cases to two characters, "i" and a combining dot.
    assert_eq!(literal_find_all("\u{130}x", "x", false, false), vec![(1, "x".to_string())]);
    assert_eq!(literal_find_all("x\u{130}x", "i\u{307}x", false, false), vec![(1, "\u{130}x".to_string())]);
    // An occurrence that ends inside a character's lower-case form is no hit.
    assert!(literal_find_all("\u{130}", "i", false, false).is_empty());
    let d = page(vec![el("p", vec![text("\u{130}a")])]);
    let spec = FindSpec::default_profile();
    let hits = find_in_document(&d, "a", &spec);
    assert_eq!(hits.len(), 1);
    assert_eq!(hits[0].matched, "a");
    assert_eq!(hits[0].offset, 1);
    let regex = FindSpec { regex: true, ..FindSpec::default_profile() };
    let hits = find_in_document(&d, "A", &regex);
    assert_eq!(hits.len(), 1);
    assert_eq!(hits[0].offset, 1);
}
