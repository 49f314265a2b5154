use nami_core::media_session::{MediaAction, MediaSessionRegistry, MediaSessionSpec, MetadataSelectors};


#[test]
fn default_profile_exposes_transport_actions() {
    let s = MediaSessionSpec::default_profile();
    assert!(s.exposes(MediaAction::Play));
    assert!(s.exposes(MediaAction::Pause));
    assert!(s.exposes(MediaAction::NextTrack));
    assert!(!s.exposes(MediaAction::HangUp));
}

#[test]
fn empty_actions_list_exposes_everything() {
    let s = MediaSessionSpec {
        actions: vec![],
        ..MediaSessionSpec::default_profile()
    };
    for action in [
        MediaAction::Play,
        MediaAction::HangUp,
        MediaAction::ToggleCamera,
        MediaAction::EnterPictureInPicture,
    ] {
        assert!(s.exposes(action));
    }
}

#[test]
fn mod_matches_host_glob() {
    let s = MediaSessionSpec {
        host: "*://*.youtube.com/*".into(),
        ..MediaSessionSpec::default_profile()
    };
    assert!(s.matches_host("www.youtube.com"));
    assert!(!s.matches_host("evil.com"));
}

#[test]
fn wildcard_matches_everything() {
    assert!(MediaSessionSpec::default_profile().matches_host("anywhere.com"));
}

#[test]
fn mod_registry_dedupes_and_resolves_specific() {
    let mut reg = MediaSessionRegistry::new();
    reg.insert(MediaSessionSpec::default_profile());
    reg.insert(MediaSessionSpec {
        name: "yt".into(),
        host: "*://*.youtube.com/*".into(),
        ..MediaSessionSpec::default_profile()
    });
    let yt = reg.resolve("www.youtube.com").unwrap();
    assert_eq!(yt.name, "yt");
    let other = reg.resolve("example.com").unwrap();
    assert_eq!(other.name, "default");
}

#[test]
fn metadata_defaults_cover_html5_meta() {
    let m = MetadataSelectors::html5_defaults();
    assert_eq!(m.title.as_deref(), Some("title"));
    assert!(m.artwork.as_deref().unwrap().contains("og:image"));
}

#[test]
fn seek_seconds_has_reasonable_default() {
    assert_eq!(MediaSessionSpec::default_profile().seek_seconds, 10);
}

