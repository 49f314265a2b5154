use nami_core::dom::{Document, ElementData, Node, NodeData};
use nami_core::markdown::{document_to_markdown, to_markdown, Block, Inline};

fn el(tag: &str, attrs: &[(&str, &str)], children: Vec<Node>) -> Node {
    Node {
        data: NodeData::Element(ElementData {
            tag: tag.to_string(),
            attributes: attrs.iter().map(|(k, v)| (k.to_string(), v.to_string())).collect(),
        }),
        children,
    }
}

fn e(tag: &str, children: Vec<Node>) -> Node {
    el(tag, &[], children)
}

fn t(s: &str) -> Node {
    Node { data: NodeData::Text(s.to_string()), children: Vec::new() }
}

/// A body holding `body`, as an HTML parser builds a fragment.
fn page(body: Vec<Node>) -> Document {
    Document {
        root: Node {
            data: NodeData::Document,
            children: vec![e("html", vec![e("head", vec![]), e("body", body)])],
        },
    }
}

fn md(body: Vec<Node>) -> String {
    to_markdown(&page(body))
}

#[test]
fn heading_levels() {
    assert!(md(vec![e("h1", vec![t("One")])]).contains("# One"));
    assert!(md(vec![e("h3", vec![t("Three")])]).contains("### Three"));
}

#[test]
fn paragraph_with_link() {
    let out = md(vec![e("p", vec![t("see "), el("a", &[("href", "https://x.io")], vec![t("here")]), t(" ok")])]);
    assert!(out.contains("see [here](https://x.io) ok"), "got: {out}");
}

#[test]
fn bold_and_italic() {
    let out = md(vec![e("p", vec![t("a "), e("strong", vec![t("bold")]), t(" and "), e("em", vec![t("it")])])]);
    assert!(out.contains("a **bold** and *it*"), "got: {out}");
}

#[test]
fn inline_code_and_pre() {
    let out = md(vec![
        e("p", vec![t("run "), e("code", vec![t("cargo test")])]),
        e("pre", vec![el("code", &[("class", "language-rust")], vec![t("fn main(){}")])]),
    ]);
    assert!(out.contains("run `cargo test`"), "got: {out}");
    assert!(out.contains("```rust"), "got: {out}");
    assert!(out.contains("fn main(){}"), "got: {out}");
}

#[test]
fn unordered_list() {
    let out = md(vec![e("ul", vec![e("li", vec![t("one")]), e("li", vec![t("two")])])]);
    assert!(out.contains("- one"), "got: {out}");
    assert!(out.contains("- two"), "got: {out}");
}

#[test]
fn ordered_list() {
    let out = md(vec![e("ol", vec![e("li", vec![t("first")]), e("li", vec![t("second")])])]);
    assert!(out.contains("1. first"), "got: {out}");
    assert!(out.contains("2. second"), "got: {out}");
}

#[test]
fn blockquote() {
    let out = md(vec![e("blockquote", vec![e("p", vec![t("quoted")])])]);
    assert!(out.contains("> quoted"), "got: {out}");
}

#[test]
fn image() {
    let out = md(vec![e("p", vec![el("img", &[("src", "/a.png"), ("alt", "cat")], vec![])])]);
    assert!(out.contains("![cat](/a.png)"), "got: {out}");
}

#[test]
fn thematic_break() {
    assert!(md(vec![e("p", vec![t("a")]), e("hr", vec![]), e("p", vec![t("b")])]).contains("---"));
}

#[test]
fn script_and_style_are_skipped() {
    let out = md(vec![e("p", vec![t("keep")]), e("script", vec![t("var x=1")]), e("style", vec![t(".a{}")])]);
    assert!(out.contains("keep"));
    assert!(!out.contains("var x"), "got: {out}");
    assert!(!out.contains(".a{}"), "got: {out}");
}

#[test]
fn nested_containers_flatten() {
    let out = md(vec![e("div", vec![e("section", vec![e("h2", vec![t("T")]), e("p", vec![t("body")])])])]);
    assert!(out.contains("## T"), "got: {out}");
    assert!(out.contains("body"), "got: {out}");
}

#[test]
fn blocks_separated_by_blank_line() {
    let out = md(vec![e("h1", vec![t("T")]), e("p", vec![t("p1")]), e("p", vec![t("p2")])]);
    assert!(out.contains("# T\n\np1\n\np2"), "got: {out:?}");
}

#[test]
fn empty_document_is_empty() {
    assert_eq!(md(vec![]).trim(), "");
}

#[test]
fn ast_is_typed_and_reusable() {
    let ast = document_to_markdown(&page(vec![e("h1", vec![t("Hi")])]));
    let expected = vec![Block::Heading { level: 1, inlines: vec![Inline::Text("Hi".to_string())] }];
    assert_eq!(format!("{:?}", ast.blocks), format!("{expected:?}"));
}

#[test]
fn markdown_lowering_exact_text() {
    let out = md(vec![
        t("\n  loose  text "),
        e("div", vec![t("in div"), e("h2", vec![t(" Title\n ")])]),
        e("ul", vec![t(" "), e("li", vec![t("a"), e("p", vec![t("b")])]), e("LI", vec![e("em", vec![t("c")])])]),
        e("blockquote", vec![t("q1"), e("br", vec![]), t("q2")]),
        e("pre", vec![t("x = 1\n")]),
    ]);
    assert_eq!(
        out,
        "loose text in div\n\n## Title\n\n- a\n  \n  b\n- *c*\n\n> q1  \n> q2\n\n```\nx = 1\n```"
    );
}

#[test]
fn markdown_lowering_inline_quirks() {
    // Between blocks, a span (an inline tag with no inline of its own) is left out with its
    // content; inside a paragraph it is walked through.
    assert_eq!(md(vec![t("a "), e("span", vec![t("gone")]), t(" b")]), "a  b");
    assert_eq!(md(vec![e("p", vec![t("a "), e("span", vec![t("kept")]), t(" b")])]), "a kept b");
    // Inside a paragraph an unknown wrapper is walked through.
    assert_eq!(md(vec![e("p", vec![e("font", vec![t("kept")])])]), "kept");
    // Whitespace-only text between inlines is one soft break.
    assert_eq!(md(vec![e("p", vec![e("b", vec![t("x")]), t("  \n "), e("i", vec![t("y")])])]), "**x** *y*");
    // Attributes that are absent are empty.
    assert_eq!(md(vec![e("p", vec![e("a", vec![t("l")]), e("img", vec![])])]), "[l]()![]()");
}

#[test]
fn markdown_lowering_without_body_uses_the_whole_tree() {
    let doc = Document { root: Node { data: NodeData::Document, children: vec![e("h1", vec![t("A")]), t("b")] } };
    assert_eq!(to_markdown(&doc), "# A\n\nb");
    let ast = document_to_markdown(&doc);
    assert_eq!(ast.blocks.len(), 2);
}

#[test]
fn markdown_code_language_from_first_code_element() {
    let out = md(vec![e(
        "pre",
        vec![el("code", &[("class", "hl language-py other")], vec![t("print()")]), el("code", &[("class", "language-rs")], vec![])],
    )]);
    assert_eq!(out, "```py\nprint()\n```");
}
