use nami_core::outline::{
    heading_level, nest_entries, normalize_text, resolve_id, slugify, OutlineEntry, OutlineRegistry, OutlineSpec,
};

fn entry(level: u8, text: &str) -> OutlineEntry {
    OutlineEntry { level, text: text.into(), id: String::new(), children: Vec::new() }
}

#[test]
fn normalize_text_collapses_whitespace() {
    assert_eq!(normalize_text("  a\n  b\tc  "), "a b c");
}

#[test]
fn slugify_produces_url_safe_output() {
    assert_eq!(slugify("Hello, World!"), "hello-world");
    assert_eq!(slugify("   spaced   "), "spaced");
    assert_eq!(slugify("multi--dash"), "multi-dash");
}

#[test]
fn outline_registry_dedupes_by_name() {
    let mut reg = OutlineRegistry::new();
    reg.insert(OutlineSpec::default_profile());
    reg.insert(OutlineSpec {
        flatten: true,
        ..OutlineSpec::default_profile()
    });
    assert_eq!(reg.len(), 1);
    assert!(reg.specs()[0].flatten);
}

#[test]
fn nest_handles_depth_jumps_and_siblings() {
    let tree = nest_entries(vec![entry(1, "A"), entry(3, "C"), entry(2, "B"), entry(1, "D"), entry(2, "E")]);
    assert_eq!(tree.len(), 2);
    assert_eq!(tree[0].text, "A");
    assert_eq!(tree[0].children.len(), 2);
    assert_eq!(tree[0].children[0].level, 3);
    assert_eq!(tree[0].children[1].text, "B");
    assert_eq!(tree[1].text, "D");
    assert_eq!(tree[1].children[0].text, "E");
}

#[test]
fn nest_keeps_equal_levels_as_siblings() {
    let tree = nest_entries(vec![entry(2, "x"), entry(2, "y"), entry(1, "z")]);
    assert_eq!(tree.len(), 3);
    assert!(nest_entries(Vec::new()).is_empty());
}

#[test]
fn generated_ids() {
    let mut n = 0usize;
    assert_eq!(resolve_id(Some("intro"), "Intro", true, &mut n), "intro");
    assert_eq!(n, 0);
    assert_eq!(resolve_id(None, "Hello, World!", true, &mut n), "hello-world-1");
    assert_eq!(resolve_id(Some(""), "!!!", true, &mut n), "h-2");
    assert_eq!(resolve_id(None, "x", false, &mut n), "");
    assert_eq!(n, 2);
    n = 11;
    assert_eq!(resolve_id(None, "Q", true, &mut n), "q-12");
}

#[test]
fn outline_heading_levels() {
    assert_eq!(heading_level("h1"), Some(1));
    assert_eq!(heading_level("h6"), Some(6));
    assert_eq!(heading_level("h7"), None);
    assert_eq!(heading_level("p"), None);
    assert_eq!(slugify("Ünïcode Straße 42"), "n-code-stra-e-42");
}

#[test]
fn nest_follows_the_last_entries_down() {
    let tree = nest_entries(vec![entry(1, "A"), entry(2, "B"), entry(3, "C"), entry(2, "D"), entry(3, "E")]);
    assert_eq!(tree.len(), 1);
    let a = &tree[0];
    assert_eq!(a.children.len(), 2);
    assert_eq!(a.children[0].text, "B");
    assert_eq!(a.children[0].children[0].text, "C");
    assert_eq!(a.children[1].text, "D");
    assert_eq!(a.children[1].children[0].text, "E");
}
