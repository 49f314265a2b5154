use nami_core::find::{default_max_matches, FindRegistry, FindSpec};

#[test]
fn registry_dedupes_by_name() {
    let mut reg = FindRegistry::new();
    reg.insert(FindSpec::default_profile());
    reg.insert(FindSpec {
        whole_word: true,
        ..FindSpec::default_profile()
    });
    assert_eq!(reg.len(), 1);
    assert!(reg.get("default").unwrap().whole_word);
}

#[test]
fn find_default_profile() {
    let s = FindSpec::default_profile();
    assert_eq!(s.max_matches, default_max_matches());
    assert!(!s.case_sensitive && !s.whole_word && !s.regex);
    let reg = FindRegistry::new();
    assert!(reg.is_empty());
    assert!(reg.specs().is_empty());
}
