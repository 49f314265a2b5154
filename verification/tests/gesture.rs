use nami_core::gesture::{canonicalize_stroke, GestureRegistry, GestureSpec};


fn g(stroke: &str, command: &str) -> GestureSpec {
    GestureSpec {
        stroke: stroke.into(),
        command: command.into(),
        when: None,
        description: None,
    }
}

#[test]
fn canonicalize_uppercases_cardinals() {
    assert_eq!(canonicalize_stroke("l r"), "L R");
    assert_eq!(canonicalize_stroke("u  L"), "U L");
}

#[test]
fn canonicalize_keeps_button_tokens_lowercase() {
    assert_eq!(canonicalize_stroke("click"), "click");
    assert_eq!(canonicalize_stroke("L RIGHT-CLICK"), "L right-click");
}

#[test]
fn canonicalize_handles_diagonals() {
    assert_eq!(canonicalize_stroke("ur DL"), "UR DL");
}

#[test]
fn registry_dedupes_by_canonical_stroke() {
    let mut reg = GestureRegistry::new();
    reg.insert(g("L", "back"));
    reg.insert(g("l", "back-alt")); // same canonical stroke
    assert_eq!(reg.len(), 1);
    assert_eq!(reg.specs()[0].command, "back-alt");
}

#[test]
fn resolve_ignores_input_case_and_whitespace() {
    let mut reg = GestureRegistry::new();
    reg.insert(g("U L", "new-tab"));
    assert_eq!(reg.resolve("u  l").unwrap().command, "new-tab");
    assert!(reg.resolve("D").is_none());
}


#[test]
fn canonical_stroke_and_strokes_listing() {
    let spec = g("  wheel-UP   ru ", "scroll");
    assert_eq!(spec.canonical_stroke(), "wheel-up RU");
    let mut reg = GestureRegistry::new();
    assert!(reg.is_empty());
    reg.extend(vec![g("L", "back"), g("r", "forward"), g("Click", "open")]);
    assert_eq!(reg.strokes(), vec!["L".to_owned(), "R".to_owned(), "click".to_owned()]);
    assert_eq!(reg.len(), 3);
}

#[test]
fn canonicalize_edge_cases() {
    assert_eq!(canonicalize_stroke(""), "");
    assert_eq!(canonicalize_stroke("   "), "");
    assert_eq!(canonicalize_stroke("lr"), "lr");
    assert_eq!(canonicalize_stroke("UU"), "uu");
    assert_eq!(canonicalize_stroke("Ld\tRU\nx"), "LD RU x");
}

#[test]
fn reinserting_moves_binding_last() {
    let mut reg = GestureRegistry::new();
    reg.insert(g("L", "back"));
    reg.insert(g("R", "forward"));
    reg.insert(g(" l ", "back2"));
    assert_eq!(reg.specs()[0].command, "forward");
    assert_eq!(reg.specs()[1].command, "back2");
    assert_eq!(reg.resolve("L").unwrap().command, "back2");
}

#[test]
fn canonicalize_is_idempotent_and_single_spaced() {
    for s in ["l r", "u  L", "L RIGHT-CLICK", "ur DL", "  d\t\tWheel-Up  ", ""] {
        let c = canonicalize_stroke(s);
        assert_eq!(canonicalize_stroke(&c), c);
        assert!(!c.starts_with(' ') && !c.ends_with(' ') && !c.contains("  "));
    }
    assert_eq!(canonicalize_stroke("  d\t\tWheel-Up  "), "D wheel-up");
}
