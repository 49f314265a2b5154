use nami_core::effect::{decide, decision_for, EffectRegistry, EffectSpec};

fn effect(name: &str, on: &str, when: Option<&str>, run: &str) -> EffectSpec {
    EffectSpec {
        name: name.into(),
        description: None,
        on: on.into(),
        when: when.map(str::to_owned),
        run: run.into(),
        tags: vec![],
    }
}

#[test]
fn effect_trigger_filters() {
    let mut reg = EffectRegistry::new();
    reg.insert(effect("a", "page-load", None, "()"));
    reg.insert(effect("b", "interval", None, "()"));
    let decisions = decide(&reg, "page-load", &[]);
    assert_eq!(decisions.len(), 1);
    assert_eq!(decisions[0].effect, "a");
}

#[test]
fn effect_gated_by_predicate_skips_false() {
    let mut reg = EffectRegistry::new();
    reg.insert(effect("e", "page-load", Some("has-article"), "()"));
    let decisions = decide(&reg, "page-load", &[Some(Ok(false))]);
    assert!(!decisions[0].fired);
    assert_eq!(
        decisions[0].skipped_reason.as_deref(),
        Some("predicate has-article was false")
    );
}

#[test]
fn effect_predicate_error_is_reported() {
    let e = effect("e", "page-load", Some("p"), "(x)");
    let d = decision_for(&e, &Some(Err("boom".to_string())));
    assert!(!d.fired);
    assert!(d.run.is_none());
    assert_eq!(d.skipped_reason.as_deref(), Some("predicate error: boom"));
}

#[test]
fn effect_fires_without_predicate_or_on_true() {
    let e = effect("e", "page-load", Some("p"), "(bump)");
    let d = decision_for(&e, &Some(Ok(true)));
    assert!(d.fired);
    assert_eq!(d.run.as_deref(), Some("(bump)"));
    assert!(d.skipped_reason.is_none());
    let d2 = decision_for(&effect("f", "x", None, "(y)"), &None);
    assert!(d2.fired);
    assert_eq!(d2.effect, "f");
    assert_eq!(d2.run.as_deref(), Some("(y)"));
}

#[test]
fn effect_registry_keeps_order_and_dedupes() {
    let mut reg = EffectRegistry::new();
    reg.extend(vec![
        effect("a", "page-load", None, "1"),
        effect("b", "page-load", None, "2"),
        effect("a", "page-load", None, "3"),
    ]);
    assert_eq!(reg.len(), 2);
    assert_eq!(reg.get("a").unwrap().run, "3");
    let names: Vec<&str> = reg.for_trigger("page-load").iter().map(|e| e.name.as_str()).collect();
    assert_eq!(names, vec!["b", "a"]);
    assert!(reg.get("zz").is_none());
    assert!(!reg.is_empty());
}

#[test]
fn effect_decide_pairs_verdicts_in_order() {
    let mut reg = EffectRegistry::new();
    reg.insert(effect("a", "load", Some("p"), "1"));
    reg.insert(effect("skip", "other", None, "0"));
    reg.insert(effect("b", "load", Some("q"), "2"));
    let ds = decide(&reg, "load", &[Some(Ok(true)), Some(Ok(false))]);
    assert_eq!(ds.len(), 2);
    assert!(ds[0].fired);
    assert_eq!(ds[1].effect, "b");
    assert!(!ds[1].fired);
}
