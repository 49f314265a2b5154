use nami_core::fingerprint_randomize::{
    generate, generate_values, noise_bits, noise_with_bits, platform_for_webgl, produces_value, FingerprintMode,
    FingerprintRandomizeRegistry, FingerprintRandomizeSpec, FontMode, SessionScope, SplitMix64, UserAgentMode,
};

#[test]
fn splitmix64_is_deterministic() {
    let mut a = SplitMix64::new(42);
    let mut b = SplitMix64::new(42);
    for _ in 0..16 {
        assert_eq!(a.next_u64(), b.next_u64());
    }
    // Different seed → different stream (overwhelmingly likely).
    let mut c = SplitMix64::new(43);
    assert_ne!(SplitMix64::new(42).next_u64(), c.next_u64());
}

#[test]
fn splitmix64_below_respects_bound() {
    let mut rng = SplitMix64::new(7);
    for _ in 0..1000 {
        assert!(rng.below(10) < 10);
    }
    assert_eq!(SplitMix64::new(1).below(0), 0);
}


#[test]
fn splitmix64_reference_value() {
    assert_eq!(SplitMix64::new(0).next_u64(), 0xE220_A839_7B1D_CDAF);
    let mut g = SplitMix64::new(5);
    let items = [10, 20, 30];
    let first = *g.pick(&items);
    assert!(items.contains(&first));
}

#[test]
fn generated_values_are_deterministic_and_realistic() {
    for seed in 0..64u64 {
        let a = generate_values(seed, FingerprintMode::Noise, FingerprintMode::Allow, 22);
        let b = generate_values(seed, FingerprintMode::Noise, FingerprintMode::Allow, 22);
        assert_eq!(a, b);
        assert_ne!(a.canvas_noise, 0);
        assert!(a.canvas_noise < (1u64 << 22));
        assert_eq!(a.audio_noise, 0);
        assert!(a.screen.avail_height < a.screen.height);
        assert_eq!(a.screen.avail_width, a.screen.width);
        assert_eq!(a.screen.color_depth, 24);
        assert!([4, 6, 8, 12, 16].contains(&a.hardware_concurrency));
        assert!([4, 8].contains(&a.device_memory_gb));
        assert!((122..=126).contains(&a.user_agent_data.chrome_major));
        assert_eq!(a.user_agent_data.platform, platform_for_webgl(&a.webgl_vendor));
        assert!(!a.user_agent_data.mobile);
    }
}

#[test]
fn noise_and_modes() {
    assert_eq!(noise_with_bits(0, 8), 1);
    assert_eq!(noise_with_bits(0xFFFF, 8), 0xFF);
    assert_eq!(noise_with_bits(u64::MAX - 1, 64), u64::MAX);
    assert!(!produces_value(FingerprintMode::Allow));
    assert!(produces_value(FingerprintMode::Block));
    assert_eq!(platform_for_webgl("Apple"), "macOS");
    assert_eq!(platform_for_webgl("Mesa/X.org"), "Linux");
    assert_eq!(platform_for_webgl("Google Inc. (AMD)"), "Windows");
    assert_eq!(FingerprintMode::default(), FingerprintMode::Allow);
    assert_eq!(FontMode::default(), FontMode::Allow);
    assert_eq!(UserAgentMode::default(), UserAgentMode::Real);
    assert_eq!(SessionScope::default(), SessionScope::PerHost);
}

#[test]
fn default_profile_noises_canvas_webgl_audio() {
    let s = FingerprintRandomizeSpec::default_profile();
    assert_eq!(s.canvas, FingerprintMode::Noise);
    assert_eq!(s.webgl, FingerprintMode::Noise);
    assert_eq!(s.audio, FingerprintMode::Noise);
    assert_eq!(s.navigator_info, FingerprintMode::Generic);
    assert_eq!(s.fonts, FontMode::RandomizeMetrics);
    assert_eq!(s.session_scope, SessionScope::PerHost);
}

#[test]
fn clamped_intensity_stays_in_range() {
    let s = FingerprintRandomizeSpec {
        intensity_permille: 2_500,
        ..FingerprintRandomizeSpec::default_profile()
    };
    assert_eq!(s.clamped_intensity(), 1_000);
    let neg = FingerprintRandomizeSpec {
        intensity_permille: -500,
        ..FingerprintRandomizeSpec::default_profile()
    };
    assert_eq!(neg.clamped_intensity(), 0);
}

#[test]
fn is_exempt_matches_glob() {
    let s = FingerprintRandomizeSpec {
        exempt_hosts: vec!["*://*.bank.com/*".into()],
        ..FingerprintRandomizeSpec::default_profile()
    };
    assert!(s.is_exempt("my.bank.com"));
    assert!(!s.is_exempt("trackers.com"));
}

#[test]
fn canvas_for_flips_to_allow_on_exempt_host() {
    let s = FingerprintRandomizeSpec {
        exempt_hosts: vec!["*://*.bank.com/*".into()],
        ..FingerprintRandomizeSpec::default_profile()
    };
    assert_eq!(s.canvas_for("my.bank.com"), FingerprintMode::Allow);
    assert_eq!(s.canvas_for("trackers.com"), FingerprintMode::Noise);
}

#[test]
fn webgl_for_and_audio_for_follow_same_exempt_rule() {
    let s = FingerprintRandomizeSpec {
        exempt_hosts: vec!["*://*.game.com/*".into()],
        ..FingerprintRandomizeSpec::default_profile()
    };
    assert_eq!(s.webgl_for("play.game.com"), FingerprintMode::Allow);
    assert_eq!(s.audio_for("play.game.com"), FingerprintMode::Allow);
    assert_eq!(s.webgl_for("other.com"), FingerprintMode::Noise);
}

#[test]
fn fingerprint_registry_prefers_specific_host() {
    let mut reg = FingerprintRandomizeRegistry::new();
    reg.insert(FingerprintRandomizeSpec::default_profile());
    reg.insert(FingerprintRandomizeSpec {
        name: "strict-news".into(),
        host: "*://*.nytimes.com/*".into(),
        canvas: FingerprintMode::Block,
        ..FingerprintRandomizeSpec::default_profile()
    });
    let ny = reg.resolve("www.nytimes.com").unwrap();
    assert_eq!(ny.canvas, FingerprintMode::Block);
    let other = reg.resolve("example.org").unwrap();
    assert_eq!(other.name, "default");
}

#[test]
fn disabled_profile_never_resolves() {
    let mut reg = FingerprintRandomizeRegistry::new();
    reg.insert(FingerprintRandomizeSpec {
        enabled: false,
        ..FingerprintRandomizeSpec::default_profile()
    });
    assert!(reg.resolve("example.com").is_none());
}

#[test]
fn same_seed_same_values() {
    let spec = FingerprintRandomizeSpec::default_profile();
    let a = generate(0xDEAD_BEEF, &spec);
    let b = generate(0xDEAD_BEEF, &spec);
    assert_eq!(a, b);
}

#[test]
fn generated_values_in_realistic_ranges() {
    let spec = FingerprintRandomizeSpec::default_profile();
    for seed in 0..256u64 {
        let fp = generate(seed, &spec);
        assert!(fp.screen.avail_width <= fp.screen.width);
        assert!(fp.screen.avail_height < fp.screen.height);
        assert_eq!(fp.screen.color_depth, 24);
        assert!([4, 6, 8, 12, 16].contains(&fp.hardware_concurrency));
        assert!([4, 8].contains(&fp.device_memory_gb));
        assert!((122..=126).contains(&fp.user_agent_data.chrome_major));
        assert!(!fp.user_agent_data.mobile);
    }
}

#[test]
fn hardware_concurrency_and_device_memory_are_randomized() {
    let spec = FingerprintRandomizeSpec::default_profile();
    let mut concurrencies = std::collections::HashSet::new();
    let mut memories = std::collections::HashSet::new();
    for seed in 0..512u64 {
        let fp = generate(seed, &spec);
        concurrencies.insert(fp.hardware_concurrency);
        memories.insert(fp.device_memory_gb);
    }
    assert!(concurrencies.len() > 1);
    assert!(memories.len() > 1);
}

#[test]
fn allow_mode_zeroes_noise_seeds_noise_mode_does_not() {
    let allow = FingerprintRandomizeSpec {
        canvas: FingerprintMode::Allow,
        audio: FingerprintMode::Allow,
        ..FingerprintRandomizeSpec::default_profile()
    };
    let fp = generate(99, &allow);
    assert_eq!(fp.canvas_noise, 0);
    assert_eq!(fp.audio_noise, 0);
    let noised = FingerprintRandomizeSpec {
        canvas: FingerprintMode::Noise,
        audio: FingerprintMode::Noise,
        ..FingerprintRandomizeSpec::default_profile()
    };
    let fp = generate(99, &noised);
    assert_ne!(fp.canvas_noise, 0);
    assert_ne!(fp.audio_noise, 0);
}

#[test]
fn noise_seed_grows_with_intensity() {
    let mk = |intensity_permille: i32| FingerprintRandomizeSpec {
        canvas: FingerprintMode::Noise,
        intensity_permille,
        ..FingerprintRandomizeSpec::default_profile()
    };
    let low = mk(100);
    let high = mk(1_000);
    let max_low = (0..256u64).map(|s| generate(s, &low).canvas_noise).max().unwrap();
    let max_high = (0..256u64).map(|s| generate(s, &high).canvas_noise).max().unwrap();
    assert!(max_high > max_low);
    assert_eq!(noise_bits(100), 13);
    assert_eq!(noise_bits(250), 22);
    assert_eq!(noise_bits(1_000), 64);
    assert_eq!(noise_bits(-3), 8);
}

#[test]
fn webgl_vendor_and_platform_stay_consistent() {
    let spec = FingerprintRandomizeSpec::default_profile();
    for seed in 0..256u64 {
        let fp = generate(seed, &spec);
        if fp.webgl_vendor.starts_with("Apple") {
            assert_eq!(fp.user_agent_data.platform, "macOS");
        }
        assert_eq!(fp, generate_values(seed, spec.canvas, spec.audio, 22));
    }
}

#[test]
fn different_seed_different_values() {
    let spec = FingerprintRandomizeSpec::default_profile();
    let mut seen = std::collections::HashSet::new();
    for seed in 0..64u64 {
        let fp = generate(seed.wrapping_mul(0x9E37_79B9_7F4A_7C15) ^ 0xABCD, &spec);
        seen.insert(format!("{fp:?}"));
    }
    assert!(seen.len() >= 50, "expected wide variation, got {}", seen.len());
}
