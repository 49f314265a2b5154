use nami_core::omnibox::{
    looks_like_url, normalize_url_guess, rank, route_shortcut, score_text, search_url, url_encode, BookmarkItem,
    CommandItem, ExtensionItem, HistoryItem, OmniboxInput, OmniboxRegistry, OmniboxSource, OmniboxSpec,
    SuggestionKind, TabItem,
};

fn h(title: &str, url: &str, visits: u32) -> HistoryItem {
    HistoryItem {
        title: title.into(),
        url: url.into(),
        visit_count: visits,
    }
}

fn b(title: &str, url: &str, tags: &[&str]) -> BookmarkItem {
    BookmarkItem {
        title: title.into(),
        url: url.into(),
        tags: tags.iter().map(|s| (*s).into()).collect(),
    }
}

fn c(name: &str, desc: Option<&str>) -> CommandItem {
    CommandItem {
        name: name.into(),
        description: desc.map(str::to_owned),
        bound_keys: vec![],
    }
}

#[test]
fn url_encode_encodes_spaces_and_reserved() {
    assert_eq!(url_encode("hello world"), "hello+world");
    assert_eq!(url_encode("a&b"), "a%26b");
    assert_eq!(url_encode("a=b"), "a%3Db");
    assert_eq!(url_encode("abc"), "abc");
}

#[test]
fn omnibox_registry_dedupes_by_name() {
    let mut reg = OmniboxRegistry::new();
    reg.insert(OmniboxSpec::default_profile());
    reg.insert(OmniboxSpec {
        max_results: 5,
        ..OmniboxSpec::default_profile()
    });
    assert_eq!(reg.len(), 1);
    assert_eq!(reg.get("default").unwrap().max_results, 5);
}

#[test]
fn url_encode_multibyte_and_unreserved() {
    assert_eq!(url_encode("é"), "%C3%A9");
    assert_eq!(url_encode("€"), "%E2%82%AC");
    assert_eq!(url_encode("😀"), "%F0%9F%98%80");
    assert_eq!(url_encode("a-b_c.d~e"), "a-b_c.d~e");
    assert_eq!(url_encode("a+b#c?"), "a%2Bb%23c%3F");
}

#[test]
fn score_tiers_in_hundredths() {
    assert_eq!(score_text("rust", "rust", "", None), Some(100));
    assert_eq!(score_text("rust", "Rust docs", "", None), Some(90));
    assert_eq!(score_text("rust", "docs", "https://rust.example", None), Some(30));
    assert_eq!(score_text("https", "docs", "HTTPS://x", None), Some(70));
    assert_eq!(score_text("rust", "about rust", "", None), Some(50));
    assert_eq!(score_text("rust", "a", "b", Some("Tags: RUST")), Some(20));
    assert!(score_text("rust", "something", "", None).is_none());
}

#[test]
fn url_guessing() {
    assert!(looks_like_url("example.com"));
    assert!(looks_like_url("http://x"));
    assert!(looks_like_url("localhost:8080"));
    assert!(looks_like_url("127.0.0.1"));
    assert!(!looks_like_url("two words.com here"));
    assert!(!looks_like_url("rust"));
    assert_eq!(normalize_url_guess("example.com"), "https://example.com");
    assert_eq!(normalize_url_guess("http://localhost:8080"), "http://localhost:8080");
}

#[test]
fn shortcut_routing_and_search_urls() {
    let spec = OmniboxSpec::default_profile();
    assert_eq!(spec.sources, vec![OmniboxSource::History, OmniboxSource::Bookmarks, OmniboxSource::Commands]);
    let (i, rest) = route_shortcut("ddg dark mode", &spec.search_providers).unwrap();
    assert_eq!(i, 0);
    assert_eq!(rest, "dark mode");
    assert_eq!(search_url(&spec.search_providers[i], &rest), "https://duckduckgo.com/?q=dark+mode");
    assert_eq!(route_shortcut("gh verus", &spec.search_providers).map(|(i, _)| i), Some(2));
    assert!(route_shortcut("xyz dark", &spec.search_providers).is_none());
    assert!(route_shortcut("ddg", &spec.search_providers).is_none());
}

#[test]
fn mod_empty_query_returns_empty() {
    let spec = OmniboxSpec::default_profile();
    let out = rank("", &spec, OmniboxInput::default());
    assert!(out.is_empty());
    assert!(rank("   ", &spec, OmniboxInput::default()).is_empty());
}

#[test]
fn min_chars_gates_short_queries() {
    let spec = OmniboxSpec {
        min_chars: 3,
        ..OmniboxSpec::default_profile()
    };
    assert!(rank("ab", &spec, OmniboxInput::default()).is_empty());
    assert!(!rank("abc", &spec, OmniboxInput::default()).is_empty());
}

#[test]
fn history_substring_matches_rank_with_visit_bonus() {
    let spec = OmniboxSpec::default_profile();
    let hist = vec![
        h("Rust Docs", "https://doc.rust-lang.org", 50),
        h("Example", "https://example.com", 1),
    ];
    let input = OmniboxInput {
        history: &hist,
        ..Default::default()
    };
    let out = rank("rust", &spec, input);
    let first_history = out.iter().find(|s| s.kind == SuggestionKind::History).unwrap();
    assert_eq!(first_history.label, "Rust Docs");
    assert!(first_history.score > 900);
    assert_eq!(first_history.score, 950);
}

#[test]
fn bookmark_match_scores_above_history_on_tie() {
    let spec = OmniboxSpec::default_profile();
    let hist = vec![h("Docs", "https://docs.example.com", 1)];
    let book = vec![b("Docs", "https://docs.example.com", &[])];
    let out = rank(
        "docs",
        &spec,
        OmniboxInput {
            history: &hist,
            bookmarks: &book,
            ..Default::default()
        },
    );
    let hs = out.iter().find(|s| s.kind == SuggestionKind::History).unwrap();
    let bs = out.iter().find(|s| s.kind == SuggestionKind::Bookmark).unwrap();
    assert!(bs.score >= hs.score);
}

#[test]
fn command_matches_by_name_and_description() {
    let spec = OmniboxSpec::default_profile();
    let cmds = vec![c("reader:toggle", Some("Flip reader view")), c("reload", None)];
    let out = rank(
        "flip",
        &spec,
        OmniboxInput {
            commands: &cmds,
            ..Default::default()
        },
    );
    assert!(out
        .iter()
        .any(|s| matches!(s.kind, SuggestionKind::Command) && s.label.starts_with("reader:toggle")));
}

#[test]
fn shortcut_routes_to_specific_provider() {
    let spec = OmniboxSpec::default_profile();
    let out = rank("ddg dark mode", &spec, OmniboxInput::default());
    assert_eq!(out.len(), 1);
    assert_eq!(out[0].kind, SuggestionKind::Search);
    assert!(out[0].label.contains("DuckDuckGo"));
    assert!(out[0].action.contains("dark+mode"));
    assert!(!out.iter().any(|s| s.label.contains("Google")));
    assert_eq!(out[0].score, 1000);
}

#[test]
fn direct_url_emits_navigate_suggestion() {
    let spec = OmniboxSpec::default_profile();
    let out = rank("example.com", &spec, OmniboxInput::default());
    let nav = out.iter().find(|s| s.kind == SuggestionKind::Navigate).unwrap();
    assert_eq!(nav.action, "navigate:https://example.com");
    assert_eq!(out[0].kind, SuggestionKind::Navigate);
}

#[test]
fn direct_url_with_scheme_preserves_it() {
    let spec = OmniboxSpec::default_profile();
    let out = rank("http://localhost:8080", &spec, OmniboxInput::default());
    let nav = out.iter().find(|s| s.kind == SuggestionKind::Navigate).unwrap();
    assert_eq!(nav.action, "navigate:http://localhost:8080");
}

#[test]
fn search_providers_always_at_tail() {
    let spec = OmniboxSpec::default_profile();
    let out = rank("totally-absent-token", &spec, OmniboxInput::default());
    let search_count = out.iter().filter(|s| s.kind == SuggestionKind::Search).count();
    assert_eq!(search_count, 3);
    let scores: Vec<u32> = out.iter().map(|s| s.score).collect();
    assert_eq!(scores, vec![200, 190, 180]);
    assert_eq!(out[0].label, "DuckDuckGo: totally-absent-token");
    assert_eq!(out[1].detail.as_deref(), Some("https://www.google.com/search?q=totally-absent-token"));
}

#[test]
fn max_results_cap_is_honored() {
    let spec = OmniboxSpec {
        max_results: 2,
        ..OmniboxSpec::default_profile()
    };
    let hist: Vec<HistoryItem> = (0..20)
        .map(|i| h(&format!("Rust {i}"), &format!("https://r{i}.example/"), 1))
        .collect();
    let out = rank(
        "rust",
        &spec,
        OmniboxInput {
            history: &hist,
            ..Default::default()
        },
    );
    assert_eq!(out.len(), 2);
    assert_eq!(out[0].label, "Rust 0");
    assert_eq!(out[1].label, "Rust 1");
}

#[test]
fn omnibox_rank_tabs_extensions_and_ties() {
    let spec = OmniboxSpec {
        sources: vec![OmniboxSource::Tabs, OmniboxSource::Extensions, OmniboxSource::Commands],
        search_providers: vec![],
        ..OmniboxSpec::default_profile()
    };
    let tabs = vec![
        TabItem {
            title: "Inbox".into(),
            url: "https://mail.example".into(),
        },
        TabItem {
            title: "mail archive".into(),
            url: "https://archive.example".into(),
        },
    ];
    let exts = vec![ExtensionItem {
        name: "mailer".into(),
        description: None,
        enabled: true,
    }];
    let cmds = vec![CommandItem {
        name: "mail".into(),
        description: None,
        bound_keys: vec!["Ctrl+M".into(), "Alt+M".into()],
    }];
    let out = rank(
        "mail",
        &spec,
        OmniboxInput {
            tabs: &tabs,
            extensions: &exts,
            commands: &cmds,
            ..Default::default()
        },
    );
    let got: Vec<(String, u32)> = out.iter().map(|s| (s.action.clone(), s.score)).collect();
    assert_eq!(
        got,
        vec![
            ("tab:switch:1".to_string(), 1000),
            ("run:mail".to_string(), 1000),
            ("extension:toggle:mailer".to_string(), 900),
            ("tab:switch:0".to_string(), 400),
        ]
    );
    assert_eq!(out[1].label, "mail [Ctrl+M, Alt+M]");
}

#[test]
fn scoring_exact_beats_prefix_beats_contains() {
    // Scores are in hundredths: 1.0, 0.9 and 0.5.
    assert_eq!(score_text("rust", "rust", "", None), Some(100));
    assert_eq!(score_text("rust", "Rust docs", "", None), Some(90));
    assert_eq!(score_text("rust", "about rust", "", None), Some(50));
    assert!(score_text("rust", "something", "", None).is_none());
}
