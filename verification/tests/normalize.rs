use nami_core::framework::Framework;
use nami_core::normalize::{framework_matches, NormalizeHit, NormalizeRegistry, NormalizeReport, NormalizeSpec};

fn spec(name: &str, framework: Option<&str>) -> NormalizeSpec {
    NormalizeSpec {
        name: name.into(),
        framework: framework.map(str::to_owned),
        selector: "article".into(),
        rename_to: "n-article".into(),
        description: None,
    }
}

#[test]
fn framework_gate_respects_detections() {
    assert!(framework_matches(None, &[]));
    assert!(!framework_matches(Some("shadcn"), &[]));
    assert!(!framework_matches(Some("shadcn"), &[Framework::React]));
    assert!(framework_matches(Some("shadcn"), &[Framework::React, Framework::ShadcnRadix]));
    assert!(framework_matches(Some("NextJs"), &[Framework::NextJs]));
    assert!(framework_matches(Some("svelte"), &[Framework::SvelteKit]));
}

#[test]
fn normalize_registry_dedupes_and_reports() {
    let mut reg = NormalizeRegistry::new();
    assert!(reg.is_empty());
    reg.extend(vec![spec("a", None), spec("b", Some("react")), spec("a", Some("vue"))]);
    assert_eq!(reg.len(), 2);
    assert_eq!(reg.specs()[1].framework.as_deref(), Some("vue"));
    let mut report = NormalizeReport::default();
    assert_eq!(report.applied(), 0);
    report.hits.push(NormalizeHit {
        rule: "a".into(),
        from_tag: "article".into(),
        to_tag: "n-article".into(),
    });
    assert_eq!(report.applied(), 1);
}
