use nami_core::network_throttle::{NetworkThrottleRegistry, NetworkThrottleSpec, Preset};

#[test]
fn default_profile_is_unthrottled() {
    let s = NetworkThrottleSpec::default_profile();
    assert_eq!(s.preset, Preset::Unthrottled);
    let e = s.effective();
    assert_eq!(e.download_kbps, 0);
    assert_eq!(e.upload_kbps, 0);
    assert_eq!(e.latency_ms, 0);
}

fn with_preset(p: Preset) -> NetworkThrottleSpec {
    NetworkThrottleSpec {
        preset: p,
        ..NetworkThrottleSpec::default_profile()
    }
}

#[test]
fn effective_matches_chrome_slow_3g() {
    let e = with_preset(Preset::Slow3G).effective();
    assert_eq!(e.download_kbps, 500);
    assert_eq!(e.upload_kbps, 500);
    assert_eq!(e.latency_ms, 400);
}

#[test]
fn effective_matches_chrome_fast_3g() {
    let e = with_preset(Preset::Fast3G).effective();
    assert_eq!(e.download_kbps, 1_600);
    assert_eq!(e.upload_kbps, 750);
    assert_eq!(e.latency_ms, 150);
}

#[test]
fn effective_dialup_is_punishing() {
    let e = with_preset(Preset::DialUp).effective();
    assert_eq!(e.download_kbps, 50);
    assert_eq!(e.latency_ms, 500);
}

#[test]
fn effective_custom_returns_author_fields() {
    let s = NetworkThrottleSpec {
        preset: Preset::Custom,
        download_kbps: 2_500,
        upload_kbps: 1_000,
        latency_ms: 80,
        ..NetworkThrottleSpec::default_profile()
    };
    let e = s.effective();
    assert_eq!(e.download_kbps, 2_500);
    assert_eq!(e.upload_kbps, 1_000);
    assert_eq!(e.latency_ms, 80);
}

#[test]
fn effective_unthrottled_ignores_author_values() {
    let s = NetworkThrottleSpec {
        preset: Preset::Unthrottled,
        download_kbps: 999,
        ..NetworkThrottleSpec::default_profile()
    };
    assert_eq!(s.effective().download_kbps, 0);
}

#[test]
fn network_throttle_other_presets() {
    assert_eq!(with_preset(Preset::Wifi).effective().latency_ms, 2);
    assert_eq!(with_preset(Preset::Dsl).effective().upload_kbps, 380);
    assert_eq!(with_preset(Preset::Cable).effective().download_kbps, 5_000);
    assert_eq!(with_preset(Preset::Good4G).effective().upload_kbps, 5_000);
    assert_eq!(with_preset(Preset::Regular4G).effective().download_kbps, 4_000);
    assert_eq!(with_preset(Preset::Offline).effective().download_kbps, 0);
    assert_eq!(Preset::default(), Preset::Unthrottled);
}

#[test]
fn admits_offline_flag_blocks_requests() {
    let s = NetworkThrottleSpec {
        offline: true,
        ..NetworkThrottleSpec::default_profile()
    };
    assert!(!s.admits("example.com"));
}

#[test]
fn admits_offline_preset_blocks_requests() {
    assert!(!with_preset(Preset::Offline).admits("example.com"));
    assert!(with_preset(Preset::Slow3G).admits("example.com"));
}

#[test]
fn admits_exempt_hosts_bypass_offline() {
    let s = NetworkThrottleSpec {
        preset: Preset::Offline,
        exempt_hosts: vec!["*://*.metrics.com/*".into()],
        ..NetworkThrottleSpec::default_profile()
    };
    assert!(!s.admits("example.com"));
    assert!(s.admits("tracker.metrics.com"));
    assert!(s.is_exempt("tracker.metrics.com"));
}

#[test]
fn admits_disabled_profile_always_true() {
    let s = NetworkThrottleSpec {
        enabled: false,
        offline: true,
        ..NetworkThrottleSpec::default_profile()
    };
    assert!(s.admits("example.com"));
}

#[test]
fn clamped_packet_loss_bounds() {
    let s = NetworkThrottleSpec {
        packet_loss_hundredths: 25_000,
        ..NetworkThrottleSpec::default_profile()
    };
    assert_eq!(s.clamped_packet_loss(), 10_000);
    let neg = NetworkThrottleSpec {
        packet_loss_hundredths: -100,
        ..NetworkThrottleSpec::default_profile()
    };
    assert_eq!(neg.clamped_packet_loss(), 0);
}

#[test]
fn clamped_timeout_bounds() {
    let s = NetworkThrottleSpec {
        timeout_hundredths: 5_000,
        ..NetworkThrottleSpec::default_profile()
    };
    assert_eq!(s.clamped_timeout(), 5_000);
    let over = NetworkThrottleSpec {
        timeout_hundredths: 100_000,
        ..NetworkThrottleSpec::default_profile()
    };
    assert_eq!(over.clamped_timeout(), 10_000);
}

#[test]
fn network_throttle_registry_prefers_specific_host() {
    let mut reg = NetworkThrottleRegistry::new();
    reg.insert(NetworkThrottleSpec::default_profile());
    reg.insert(NetworkThrottleSpec {
        name: "news-slow".into(),
        host: "*://*.news.com/*".into(),
        preset: Preset::Slow3G,
        ..NetworkThrottleSpec::default_profile()
    });
    assert_eq!(reg.resolve("www.news.com").unwrap().preset, Preset::Slow3G);
    assert_eq!(reg.resolve("example.org").unwrap().preset, Preset::Unthrottled);
    assert_eq!(reg.len(), 2);
}

#[test]
fn network_throttle_disabled_profile_never_resolves() {
    let mut reg = NetworkThrottleRegistry::new();
    reg.insert(NetworkThrottleSpec {
        enabled: false,
        ..NetworkThrottleSpec::default_profile()
    });
    assert!(reg.resolve("example.com").is_none());
}
