use nami_core::i18n::{MessageRegistry, MessageSpec};


fn spec(ns: &str, loc: &str, pairs: &[(&str, &str)]) -> MessageSpec {
    MessageSpec {
        namespace: ns.into(),
        locale: loc.into(),
        strings: pairs
            .iter()
            .map(|(k, v)| ((*k).into(), (*v).into()))
            .collect(),
        description: None,
    }
}

#[test]
fn exact_match_wins() {
    let mut reg = MessageRegistry::new();
    reg.insert(spec("core", "en", &[("hello", "Hello")]));
    reg.insert(spec("core", "ja", &[("hello", "こんにちは")]));
    assert_eq!(reg.get("core", "en", "hello"), "Hello");
    assert_eq!(reg.get("core", "ja", "hello"), "こんにちは");
}

#[test]
fn falls_back_to_prefix_locale() {
    let mut reg = MessageRegistry::new();
    reg.insert(spec("core", "en", &[("color", "color")]));
    reg.insert(spec("core", "en-GB", &[("color", "colour")]));
    // Exact hit.
    assert_eq!(reg.get("core", "en-GB", "color"), "colour");
    // Requested "en-AU", not present → prefix "en" wins.
    assert_eq!(reg.get("core", "en-AU", "color"), "color");
}

#[test]
fn falls_back_to_en_when_target_locale_missing() {
    let mut reg = MessageRegistry::new();
    reg.insert(spec("core", "en", &[("hello", "Hello")]));
    // No Japanese bundle at all → falls back to English.
    assert_eq!(reg.get("core", "ja", "hello"), "Hello");
}

#[test]
fn falls_back_to_raw_key_when_nothing_matches() {
    let reg = MessageRegistry::new();
    assert_eq!(reg.get("extension-foo", "en", "unknown.key"), "unknown.key");
}

#[test]
fn locale_fallback_chain_does_not_touch_other_namespaces() {
    let mut reg = MessageRegistry::new();
    reg.insert(spec("core", "en", &[("hello", "Hello")]));
    // "dark-reader" has no en bundle → must NOT bleed "core"'s.
    assert_eq!(reg.get("dark-reader", "en", "hello"), "hello");
}

#[test]
fn format_substitutes_placeholders() {
    let mut reg = MessageRegistry::new();
    reg.insert(spec(
        "core",
        "en",
        &[("greeting", "Hello, {name}! You have {count} messages.")],
    ));
    let args: Vec<(String, String)> = [
        ("name".to_owned(), "Jane".to_owned()),
        ("count".to_owned(), "3".to_owned()),
    ]
    .into();
    assert_eq!(
        reg.format("core", "en", "greeting", &args),
        "Hello, Jane! You have 3 messages."
    );
}

#[test]
fn format_leaves_unknown_placeholders_literal() {
    let mut reg = MessageRegistry::new();
    reg.insert(spec("core", "en", &[("k", "Hi {name} — {missing}")]));
    let args: Vec<(String, String)> =
        [("name".to_owned(), "A".to_owned())].into();
    assert_eq!(
        reg.format("core", "en", "k", &args),
        "Hi A — {missing}",
    );
}

#[test]
fn format_preserves_text_without_placeholders() {
    let mut reg = MessageRegistry::new();
    reg.insert(spec("core", "en", &[("k", "just text")]));
    let args: Vec<(String, String)> = Vec::new();
    assert_eq!(reg.format("core", "en", "k", &args), "just text");
}

#[test]
fn format_handles_unclosed_brace_literally() {
    let mut reg = MessageRegistry::new();
    reg.insert(spec("core", "en", &[("k", "text {oops")]));
    let args: Vec<(String, String)> = Vec::new();
    // Unclosed → emit literal so translators see the error.
    assert_eq!(reg.format("core", "en", "k", &args), "text {oops");
}

#[test]
fn extend_merges_multiple_forms_into_one_bundle() {
    let mut reg = MessageRegistry::new();
    reg.extend(vec![
        spec("core", "en", &[("a", "A")]),
        spec("core", "en", &[("b", "B")]),
    ]);
    // Two specs, same (ns, loc) → merged into one bundle with both keys.
    assert_eq!(reg.len(), 1);
    assert_eq!(reg.keys("core", "en"), vec!["a".to_owned(), "b".to_owned()]);
}

#[test]
fn later_form_overrides_earlier_on_same_key() {
    let mut reg = MessageRegistry::new();
    reg.insert(spec("core", "en", &[("hello", "first")]));
    reg.insert(spec("core", "en", &[("hello", "second")]));
    assert_eq!(reg.get("core", "en", "hello"), "second");
}

#[test]
fn missing_lists_untranslated_keys() {
    let mut reg = MessageRegistry::new();
    reg.insert(spec("core", "en", &[("a", "A"), ("b", "B"), ("c", "C")]));
    reg.insert(spec("core", "ja", &[("a", "ア"), ("c", "シ")]));
    assert_eq!(reg.missing("core", "ja"), vec!["b".to_owned()]);
}

#[test]
fn locales_for_returns_every_locale_in_ns() {
    let mut reg = MessageRegistry::new();
    reg.insert(spec("core", "en", &[("a", "A")]));
    reg.insert(spec("core", "ja", &[("a", "ア")]));
    reg.insert(spec("core", "pt-BR", &[("a", "A")]));
    reg.insert(spec("other", "en", &[("a", "A")]));
    assert_eq!(
        reg.locales_for("core"),
        vec!["en".to_owned(), "ja".to_owned(), "pt-BR".to_owned()]
    );
}

#[test]
fn pairs_returns_sorted_ns_locale_tuples() {
    let mut reg = MessageRegistry::new();
    reg.insert(spec("core", "en", &[("a", "A")]));
    reg.insert(spec("core", "ja", &[("a", "ア")]));
    reg.insert(spec("dark-reader", "en", &[("x", "X")]));
    let pairs = reg.pairs();
    assert_eq!(
        pairs,
        vec![
            ("core".to_owned(), "en".to_owned()),
            ("core".to_owned(), "ja".to_owned()),
            ("dark-reader".to_owned(), "en".to_owned()),
        ]
    );
}


#[test]
fn lookup_distinguishes_missing_from_present() {
    let mut reg = MessageRegistry::new();
    assert!(reg.is_empty());
    reg.insert(spec("core", "en", &[("a", "A")]));
    assert!(!reg.is_empty());
    assert_eq!(reg.lookup("core", "en", "a"), Some("A".to_owned()));
    assert_eq!(reg.lookup("core", "en", "b"), None);
    assert_eq!(reg.lookup("core", "ja", "a"), None);
}

#[test]
fn insert_keeps_keys_the_new_form_does_not_name() {
    let mut reg = MessageRegistry::new();
    reg.insert(spec("core", "en", &[("a", "A"), ("b", "B")]));
    reg.insert(spec("core", "en", &[("b", "B2"), ("b", "B3")]));
    assert_eq!(reg.get("core", "en", "a"), "A");
    assert_eq!(reg.get("core", "en", "b"), "B3");
    assert_eq!(reg.len(), 1);
}

#[test]
fn prefix_fallback_precedes_english() {
    let mut reg = MessageRegistry::new();
    reg.insert(spec("core", "en", &[("k", "english")]));
    reg.insert(spec("core", "pt", &[("k", "portugues")]));
    assert_eq!(reg.get("core", "pt-BR", "k"), "portugues");
    assert_eq!(reg.get("core", "de-AT", "k"), "english");
}

#[test]
fn format_last_argument_wins_and_nested_brace_is_token_text() {
    let mut reg = MessageRegistry::new();
    reg.insert(spec("core", "en", &[("k", "{a}{b{c}!")]));
    let args: Vec<(String, String)> = vec![
        ("a".to_owned(), "1".to_owned()),
        ("a".to_owned(), "2".to_owned()),
    ];
    assert_eq!(reg.format("core", "en", "k", &args), "2{b{c}!");
}

#[test]
fn keys_of_absent_bundle_is_empty() {
    let reg = MessageRegistry::new();
    assert!(reg.keys("core", "en").is_empty());
    assert!(reg.locales_for("core").is_empty());
    assert!(reg.pairs().is_empty());
    assert!(reg.missing("core", "ja").is_empty());
}
