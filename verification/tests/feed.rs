use nami_core::feed::{default_cadence, FeedRegistry, FeedSpec, MAX_CADENCE, MIN_CADENCE};


fn sample(name: &str) -> FeedSpec {
    FeedSpec {
        name: name.into(),
        url: format!("https://example.com/{name}.rss"),
        cadence_seconds: 900,
        category: Some("news".into()),
        max_items: 50,
        storage: "feeds".into(),
        enabled: true,
        description: None,
    }
}

#[test]
fn clamped_cadence_respects_bounds() {
    let too_low = FeedSpec {
        cadence_seconds: 10,
        ..sample("x")
    };
    assert_eq!(too_low.clamped_cadence(), MIN_CADENCE);
    let too_high = FeedSpec {
        cadence_seconds: 999_999,
        ..sample("x")
    };
    assert_eq!(too_high.clamped_cadence(), MAX_CADENCE);
    let ok = FeedSpec {
        cadence_seconds: 3600,
        ..sample("x")
    };
    assert_eq!(ok.clamped_cadence(), 3600);
}

#[test]
fn clamped_cadence_zero_uses_default() {
    let zero = FeedSpec {
        cadence_seconds: 0,
        ..sample("x")
    };
    assert_eq!(zero.clamped_cadence(), 900);
}

#[test]
fn validate_rejects_empty_fields() {
    let empty_name = FeedSpec {
        name: String::new(),
        ..sample("x")
    };
    assert!(empty_name.validate().is_err());
    let empty_url = FeedSpec {
        url: String::new(),
        ..sample("x")
    };
    assert!(empty_url.validate().is_err());
}

#[test]
fn feed_registry_dedupes_by_name() {
    let mut reg = FeedRegistry::new();
    reg.insert(sample("hn")).unwrap();
    reg.insert(FeedSpec {
        url: "https://new-url/".into(),
        ..sample("hn")
    })
    .unwrap();
    assert_eq!(reg.len(), 1);
    assert_eq!(reg.specs()[0].url, "https://new-url/");
}

#[test]
fn registry_extend_drops_invalid_silently() {
    let mut reg = FeedRegistry::new();
    reg.extend(vec![
        sample("good"),
        FeedSpec {
            url: String::new(),
            ..sample("bad")
        },
    ]);
    assert_eq!(reg.len(), 1);
    assert_eq!(reg.specs()[0].name, "good");
}

#[test]
fn set_enabled_and_remove() {
    let mut reg = FeedRegistry::new();
    reg.insert(sample("a")).unwrap();
    reg.insert(sample("b")).unwrap();
    assert!(reg.set_enabled("a", false));
    assert!(!reg.specs()[0].enabled);
    assert!(reg.remove("b"));
    assert_eq!(reg.len(), 1);
    assert!(!reg.remove("nonexistent"));
}

#[test]
fn enabled_specs_filters_paused_feeds() {
    let mut reg = FeedRegistry::new();
    reg.insert(sample("on")).unwrap();
    reg.insert(FeedSpec {
        enabled: false,
        ..sample("off")
    })
    .unwrap();
    let enabled = reg.enabled_specs();
    assert_eq!(enabled.len(), 1);
    assert_eq!(enabled[0].name, "on");
}

#[test]
fn categories_returns_sorted_distinct() {
    let mut reg = FeedRegistry::new();
    reg.insert(FeedSpec {
        category: Some("research".into()),
        ..sample("a")
    })
    .unwrap();
    reg.insert(FeedSpec {
        category: Some("news".into()),
        ..sample("b")
    })
    .unwrap();
    reg.insert(FeedSpec {
        category: Some("news".into()),
        ..sample("c")
    })
    .unwrap();
    reg.insert(FeedSpec {
        category: None,
        ..sample("d")
    })
    .unwrap();
    assert_eq!(
        reg.categories(),
        vec!["news".to_owned(), "research".to_owned()]
    );
}

#[test]
fn default_cadence_is_15_minutes() {
    assert_eq!(default_cadence(), 900);
}


#[test]
fn validate_messages_and_blank_name() {
    let blank = FeedSpec { name: "   ".into(), ..sample("x") };
    assert_eq!(blank.validate(), Err("feed name is empty".to_owned()));
    let no_url = FeedSpec { url: " \t".into(), ..sample("hn") };
    assert_eq!(no_url.validate(), Err("feed 'hn' has empty url".to_owned()));
    assert_eq!(sample("ok").validate(), Ok(()));
}

#[test]
fn insert_rejects_invalid_and_leaves_registry_unchanged() {
    let mut reg = FeedRegistry::new();
    assert!(reg.insert(FeedSpec { url: String::new(), ..sample("bad") }).is_err());
    assert!(reg.is_empty());
    assert!(reg.get("bad").is_none());
    assert!(!reg.set_enabled("bad", true));
}

#[test]
fn cadence_edges() {
    assert_eq!(FeedSpec { cadence_seconds: 60, ..sample("x") }.clamped_cadence(), 60);
    assert_eq!(FeedSpec { cadence_seconds: 86_400, ..sample("x") }.clamped_cadence(), 86_400);
    assert_eq!(FeedSpec { cadence_seconds: 59, ..sample("x") }.clamped_cadence(), 60);
}

#[test]
fn empty_category_is_not_listed() {
    let mut reg = FeedRegistry::new();
    reg.insert(FeedSpec { category: Some(String::new()), ..sample("a") }).unwrap();
    assert!(reg.categories().is_empty());
}
