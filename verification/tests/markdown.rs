use nami_core::markdown::{Block, Inline, Markdown};

fn text(s: &str) -> Inline {
    Inline::Text(s.to_string())
}

fn para(s: &str) -> Block {
    Block::Paragraph(vec![text(s)])
}

#[test]
fn markdown_heading_levels_clamp() {
    let h = |level: u8| Block::Heading {
        level,
        inlines: vec![text("Title")],
    };
    assert_eq!(h(1).render(), "# Title");
    assert_eq!(h(3).render(), "### Title");
    assert_eq!(h(0).render(), "# Title");
    assert_eq!(h(9).render(), "###### Title");
}

#[test]
fn markdown_paragraph_with_link() {
    let p = Block::Paragraph(vec![
        text("Hello "),
        Inline::Link {
            text: vec![text("link")],
            href: "/x".to_string(),
        },
    ]);
    assert_eq!(p.render(), "Hello [link](/x)");
}

#[test]
fn markdown_bold_italic_code_breaks() {
    let p = Block::Paragraph(vec![
        Inline::Strong(vec![text("b")]),
        Inline::SoftBreak,
        Inline::Emphasis(vec![text("i")]),
        Inline::SoftBreak,
        Inline::Code("x()".to_string()),
        Inline::HardBreak,
        text("end"),
    ]);
    assert_eq!(p.render(), "**b** *i* `x()`  \nend");
    assert_eq!(
        Inline::Image {
            alt: "cat".to_string(),
            src: "/c.png".to_string()
        }
        .render(),
        "![cat](/c.png)"
    );
}

#[test]
fn markdown_code_blocks() {
    let with_lang = Block::CodeBlock {
        lang: Some("rust".to_string()),
        text: "fn main() {}".to_string(),
    };
    assert_eq!(with_lang.render(), "```rust\nfn main() {}\n```");
    let ends_nl = Block::CodeBlock {
        lang: None,
        text: "a\n".to_string(),
    };
    assert_eq!(ends_nl.render(), "```\na\n```");
}

#[test]
fn markdown_lists() {
    let ul = Block::List {
        ordered: false,
        items: vec![vec![para("a")], vec![para("b")]],
    };
    assert_eq!(ul.render(), "- a\n- b");
    let ol = Block::List {
        ordered: true,
        items: vec![vec![para("x"), para("y")], vec![para("z")]],
    };
    assert_eq!(ol.render(), "1. x\n   \n   y\n2. z");
    let ten = Block::List {
        ordered: true,
        items: (0..10).map(|i| vec![para(&format!("i{i}"))]).collect(),
    };
    assert!(ten.render().ends_with("\n10. i9"));
    let empty_item = Block::List {
        ordered: false,
        items: vec![vec![]],
    };
    assert_eq!(empty_item.render(), "- ");
}

#[test]
fn markdown_blockquote_prefixes_lines() {
    let q = Block::BlockQuote(vec![para("a"), para("b")]);
    assert_eq!(q.render(), "> a\n>\n> b");
    let crlf = Block::BlockQuote(vec![para("a\r\nb")]);
    assert_eq!(crlf.render(), "> a\n> b");
    let nested = Block::BlockQuote(vec![Block::BlockQuote(vec![para("deep")])]);
    assert_eq!(nested.render(), "> > deep");
}

#[test]
fn markdown_document_joins_blocks_with_blank_lines() {
    let md = Markdown {
        blocks: vec![
            Block::Heading {
                level: 1,
                inlines: vec![text("T")],
            },
            Block::ThematicBreak,
            para("p"),
        ],
    };
    assert_eq!(md.render(), "# T\n\n---\n\np");
    assert_eq!(Markdown::default().render(), "");
}
