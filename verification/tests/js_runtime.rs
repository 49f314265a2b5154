use nami_core::js_runtime::{tick, Capability, EvalError, JsRuntimeRegistry, JsRuntimeSpec, MicroEval};


fn default_spec() -> JsRuntimeSpec {
    JsRuntimeSpec::default_profile()
}

#[test]
fn spec_has_capability_roundtrip() {
    let s = default_spec();
    assert!(s.has_capability(Capability::DomRead));
    assert!(s.has_capability(Capability::Console));
    assert!(!s.has_capability(Capability::DomWrite));
}

#[test]
fn allows_fetch_requires_both_cap_and_host_glob() {
    let s = JsRuntimeSpec {
        capabilities: vec![Capability::FetchAllowedHosts],
        allowed_hosts: vec!["*://*.example.com/*".into()],
        ..JsRuntimeSpec::default_profile()
    };
    assert!(s.allows_fetch("blog.example.com"));
    assert!(!s.allows_fetch("evil.com"));
    // Without the cap, nothing is allowed.
    let no_cap = JsRuntimeSpec {
        capabilities: vec![],
        allowed_hosts: vec!["*".into()],
        ..JsRuntimeSpec::default_profile()
    };
    assert!(!no_cap.allows_fetch("anywhere.com"));
}

#[test]
fn js_runtime_registry_dedupes_by_name() {
    let mut reg = JsRuntimeRegistry::new();
    reg.insert(default_spec());
    reg.insert(JsRuntimeSpec {
        fuel_limit: 1,
        ..default_spec()
    });
    assert_eq!(reg.len(), 1);
    assert_eq!(reg.get("default").unwrap().fuel_limit, 1);
}

#[test]
fn micro_eval_returns_engine_name() {
    assert_eq!(MicroEval.engine_name(), "micro-eval");
}


#[test]
fn default_profile_budgets() {
    let s = JsRuntimeSpec::default_profile();
    assert_eq!(s.name, "default");
    assert_eq!(s.fuel_limit, 10_000_000);
    assert_eq!(s.memory_limit_bytes, 16 * 1024 * 1024);
    assert!(!s.allows_fetch("example.com"));
}

#[test]
fn registry_get_and_specs() {
    let mut reg = JsRuntimeRegistry::new();
    assert!(reg.is_empty());
    let mut other = JsRuntimeSpec::default_profile();
    other.name = "other".into();
    reg.extend(vec![JsRuntimeSpec::default_profile(), other]);
    assert_eq!(reg.len(), 2);
    assert_eq!(reg.specs()[1].name, "other");
    assert!(reg.get("missing").is_none());
}

#[test]
fn tick_counts_and_stops_past_the_limit() {
    let spec = JsRuntimeSpec { fuel_limit: 2, ..JsRuntimeSpec::default_profile() };
    let mut fuel = 0u64;
    assert_eq!(tick(&mut fuel, &spec), Ok(()));
    assert_eq!(tick(&mut fuel, &spec), Ok(()));
    assert_eq!(tick(&mut fuel, &spec), Err(EvalError::OutOfFuel { limit: 2 }));
    assert_eq!(fuel, 3);
    let unlimited = JsRuntimeSpec { fuel_limit: 0, ..JsRuntimeSpec::default_profile() };
    let mut f = 1000u64;
    assert_eq!(tick(&mut f, &unlimited), Ok(()));
}

#[test]
fn eval_error_messages() {
    assert_eq!(EvalError::Parse("x".into()).message(), "parse error: x");
    assert_eq!(EvalError::OutOfFuel { limit: 1200 }.message(), "out of fuel (limit 1200)");
    assert_eq!(EvalError::OutOfMemory { limit_bytes: 0 }.message(), "out of memory (limit 0)");
    assert_eq!(
        EvalError::PermissionDenied(Capability::FetchAllowedHosts).message(),
        "permission denied: FetchAllowedHosts"
    );
    assert_eq!(EvalError::Runtime("boom".into()).message(), "runtime error: boom");
    assert_eq!(EvalError::Unsupported("loops".into()).message(), "unsupported: loops");
}

#[test]
fn allows_fetch_matches_the_urls_host() {
    let s = JsRuntimeSpec {
        capabilities: vec![Capability::FetchAllowedHosts],
        allowed_hosts: vec!["*://*.example.com/*".into()],
        ..JsRuntimeSpec::default_profile()
    };
    assert!(s.allows_fetch("https://blog.example.com/feed"));
    assert!(!s.allows_fetch("https://evil.com/"));
}
