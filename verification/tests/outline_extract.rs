use nami_core::dom::{Document, ElementData, Node, NodeData};
use nami_core::outline::extract::extract_outline;
use nami_core::outline::OutlineSpec;

fn el(tag: &str, attrs: &[(&str, &str)], children: Vec<Node>) -> Node {
    Node {
        data: NodeData::Element(ElementData {
            tag: tag.to_string(),
            attributes: attrs.iter().map(|(k, v)| (k.to_string(), v.to_string())).collect(),
        }),
        children,
    }
}

fn text(t: &str) -> Node {
    Node { data: NodeData::Text(t.to_string()), children: Vec::new() }
}

fn page(body: Vec<Node>) -> Document {
    Document {
        root: Node {
            data: NodeData::Document,
            children: vec![el("html", &[], vec![el("head", &[], vec![]), el("body", &[], body)])],
        },
    }
}

/// Elements separated by the whitespace text a parser keeps between them.
fn spaced(items: Vec<Node>) -> Vec<Node> {
    let mut out = vec![text("\n                ")];
    for n in items {
        out.push(n);
        out.push(text("\n                "));
    }
    out
}

fn article() -> Document {
    page(spaced(vec![
        el("h1", &[], vec![text("Top")]),
        el("p", &[], vec![text("intro")]),
        el("h2", &[], vec![text("Section One")]),
        el("p", &[], vec![text("body one")]),
        el("h3", &[("id", "sub-explicit")], vec![text("Sub A")]),
        el("p", &[], vec![text("sub a")]),
        el("h2", &[], vec![text("Section Two")]),
        el("h3", &[("aria-hidden", "true")], vec![text("Hidden sub")]),
        el("p", &[("class", "footnote")], vec![text("not really a sub")]),
        el("h3", &[], vec![text("Sub B")]),
    ]))
}

#[test]
fn default_profile_builds_nested_tree() {
    let doc = article();
    let spec = OutlineSpec::default_profile();
    let tree = extract_outline(&doc, &spec);
    assert_eq!(tree.len(), 1);
    let top = &tree[0];
    assert_eq!(top.level, 1);
    assert_eq!(top.text, "Top");
    assert_eq!(top.children.len(), 2);
    assert_eq!(top.children[0].text, "Section One");
    assert_eq!(top.children[0].children[0].text, "Sub A");
    assert_eq!(top.children[1].text, "Section Two");
    assert_eq!(top.children[1].children[0].text, "Sub B");
}

#[test]
fn exclude_filters_hidden_and_footnote() {
    let doc = article();
    let spec = OutlineSpec::default_profile();
    let tree = extract_outline(&doc, &spec);
    let section_two = &tree[0].children[1];
    for child in &section_two.children {
        assert_ne!(child.text, "Hidden sub");
        assert_ne!(child.text, "not really a sub");
    }
}

#[test]
fn flatten_returns_sequential_list() {
    let doc = article();
    let spec = OutlineSpec { flatten: true, ..OutlineSpec::default_profile() };
    let flat = extract_outline(&doc, &spec);
    let texts: Vec<&str> = flat.iter().map(|e| e.text.as_str()).collect();
    assert_eq!(texts, vec!["Top", "Section One", "Sub A", "Section Two", "Sub B"]);
    assert_eq!(flat[0].level, 1);
    assert_eq!(flat[2].level, 3);
}

#[test]
fn min_max_level_clamps_range() {
    let doc = article();
    let spec = OutlineSpec { min_level: 2, max_level: 2, flatten: true, ..OutlineSpec::default_profile() };
    let flat = extract_outline(&doc, &spec);
    let texts: Vec<&str> = flat.iter().map(|e| e.text.as_str()).collect();
    assert_eq!(texts, vec!["Section One", "Section Two"]);
}

#[test]
fn generate_ids_creates_slugs_when_missing() {
    let doc = article();
    let spec = OutlineSpec::default_profile();
    let tree = extract_outline(&doc, &spec);
    assert!(!tree[0].id.is_empty());
    assert!(tree[0].id.contains("top"));
    let sub_a = &tree[0].children[0].children[0];
    assert_eq!(sub_a.id, "sub-explicit");
}

#[test]
fn generate_ids_off_leaves_empty_strings() {
    let doc = page(vec![el("h1", &[], vec![text("Plain")])]);
    let spec = OutlineSpec { generate_ids: false, ..OutlineSpec::default_profile() };
    let tree = extract_outline(&doc, &spec);
    assert_eq!(tree[0].id, "");
}

#[test]
fn include_pattern_surfaces_non_heading_element() {
    let doc = page(spaced(vec![
        el("p", &[("class", "lede")], vec![text("A lede for the article")]),
        el("h1", &[], vec![text("Body Heading")]),
    ]));
    let spec = OutlineSpec { includes: vec![".lede".into()], flatten: true, ..OutlineSpec::default_profile() };
    let flat = extract_outline(&doc, &spec);
    let texts: Vec<&str> = flat.iter().map(|e| e.text.as_str()).collect();
    assert_eq!(texts, vec!["A lede for the article", "Body Heading"]);
}

#[test]
fn nest_entries_handles_depth_jumps() {
    let doc = page(vec![el("h1", &[], vec![text("A")]), el("h3", &[], vec![text("C")])]);
    let spec = OutlineSpec::default_profile();
    let tree = extract_outline(&doc, &spec);
    assert_eq!(tree[0].children.len(), 1);
    assert_eq!(tree[0].children[0].level, 3);
}

#[test]
fn attr_selector_matches_value() {
    let doc = page(vec![el("h2", &[("aria-hidden", "true")], vec![text("x")])]);
    let spec = OutlineSpec { exclude: vec!["[aria-hidden=true]".into()], flatten: true, ..OutlineSpec::default_profile() };
    let flat = extract_outline(&doc, &spec);
    assert!(flat.is_empty());
}

#[test]
fn outline_ids_count_only_generated_ones() {
    let doc = article();
    let spec = OutlineSpec { flatten: true, ..OutlineSpec::default_profile() };
    let flat = extract_outline(&doc, &spec);
    let ids: Vec<&str> = flat.iter().map(|e| e.id.as_str()).collect();
    assert_eq!(ids, vec!["top-1", "section-one-2", "sub-explicit", "section-two-3", "sub-b-4"]);
}

#[test]
fn outline_selector_forms() {
    let doc = page(vec![
        el("H2", &[("id", "keep")], vec![text("  Upper   case  ")]),
        el("section", &[("data-x", "q")], vec![el("h2", &[], vec![text("inside")])]),
        el("aside", &[("hidden", "")], vec![el("h2", &[], vec![text("hidden")])]),
        el("h2", &[("id", "drop")], vec![text("by id")]),
        el("h2", &[], vec![text("   ")]),
    ]);
    let only = |exclude: &[&str]| {
        let spec = OutlineSpec {
            exclude: exclude.iter().map(|s| s.to_string()).collect(),
            flatten: true,
            ..OutlineSpec::default_profile()
        };
        extract_outline(&doc, &spec).iter().map(|e| e.text.clone()).collect::<Vec<_>>()
    };
    assert_eq!(only(&[]), vec!["Upper case", "inside", "hidden", "by id"]);
    assert_eq!(only(&["#drop", "[hidden]"]), vec!["Upper case", "inside"]);
    assert_eq!(only(&[" [ data-x = \"q\" ] "]), vec!["Upper case", "hidden", "by id"]);
    assert_eq!(only(&["Section", "aside"]), vec!["Upper case", "by id"]);
    assert_eq!(only(&["h2"]), Vec::<String>::new());
    assert_eq!(only(&["", "[", "."]), vec!["Upper case", "inside", "hidden", "by id"]);
}
