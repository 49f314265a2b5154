use nami_core::llm::{EchoProvider, LlmKind, LlmProviderSpec};
use nami_core::llm_completion::{CompletionTrigger, LlmCompletionRegistry, LlmCompletionSpec};

fn provider_spec() -> LlmProviderSpec {
    LlmProviderSpec {
        name: "stub".into(),
        kind: LlmKind::Stub,
        endpoint: None,
        model: "stub-1".into(),
        max_tokens: 1000,
        temperature_permille: 700,
        auth_env: None,
        mcp_tool: None,
        rate_limit_per_minute: 0,
        timeout_seconds: 60,
        description: None,
    }
}

#[test]
fn default_url_bar_and_compose_differ_on_trigger() {
    let a = LlmCompletionSpec::default_url_bar();
    let b = LlmCompletionSpec::default_compose();
    assert_eq!(a.trigger, CompletionTrigger::UrlBar);
    assert_eq!(b.trigger, CompletionTrigger::Contenteditable);
}

#[test]
fn fires_on_respects_trigger_enabled_host_gate_and_blocklist() {
    let s = LlmCompletionSpec {
        host_gated: vec!["*://mail.*/*".into()],
        blocked_hosts: vec!["*://mail.evil.com/*".into()],
        ..LlmCompletionSpec::default_compose()
    };
    assert!(s.fires_on(CompletionTrigger::Contenteditable, "mail.google.com"));
    assert!(!s.fires_on(CompletionTrigger::Contenteditable, "other.com"));
    assert!(!s.fires_on(CompletionTrigger::UrlBar, "mail.google.com"));
    assert!(!s.fires_on(CompletionTrigger::Contenteditable, "mail.evil.com"));

    let disabled = LlmCompletionSpec {
        enabled: false,
        ..LlmCompletionSpec::default_compose()
    };
    assert!(!disabled.fires_on(CompletionTrigger::Contenteditable, "any.com"));
}

#[test]
fn meets_minimum_uses_char_count() {
    let s = LlmCompletionSpec {
        min_chars: 5,
        ..LlmCompletionSpec::default_url_bar()
    };
    assert!(!s.meets_minimum("abcd"));
    assert!(s.meets_minimum("abcde"));
    assert!(s.meets_minimum("αβγδε"));
}

#[test]
fn clamped_temperature_respects_bounds() {
    assert_eq!(
        LlmCompletionSpec {
            temperature_permille: 99_000,
            ..LlmCompletionSpec::default_url_bar()
        }
        .clamped_temperature(),
        2_000
    );
    assert_eq!(
        LlmCompletionSpec {
            temperature_permille: -1_000,
            ..LlmCompletionSpec::default_url_bar()
        }
        .clamped_temperature(),
        0
    );
}

#[test]
fn build_call_wraps_prefix_with_system_prompt() {
    let s = LlmCompletionSpec::default_url_bar();
    let call = s.build_call("rust async");
    assert_eq!(call.messages.len(), 2);
    assert_eq!(call.messages[0].role, "system");
    assert_eq!(call.messages[1].content, "rust async");
    assert_eq!(call.max_tokens, Some(40));
    assert_eq!(call.temperature_permille, Some(400));
    assert!(call.stop.iter().any(|s| s == "\n\n"));
}

#[test]
fn run_through_echo_provider() {
    let s = LlmCompletionSpec::default_compose();
    let pspec = provider_spec();
    let call = s.build_call("Dear Jane,");
    let resp = EchoProvider::default().generate(&pspec, &call).unwrap();
    assert!(resp.content.contains("Dear Jane"));
    assert_eq!(resp.content, "echo: Dear Jane,");
}

#[test]
fn registry_resolve_first_matching_profile() {
    let mut reg = LlmCompletionRegistry::new();
    reg.insert(LlmCompletionSpec::default_url_bar());
    reg.insert(LlmCompletionSpec::default_compose());
    let hit = reg.resolve(CompletionTrigger::UrlBar, "example.com").unwrap();
    assert_eq!(hit.trigger, CompletionTrigger::UrlBar);
}

#[test]
fn resolve_returns_none_when_nothing_fires() {
    let mut reg = LlmCompletionRegistry::new();
    reg.insert(LlmCompletionSpec {
        host_gated: vec!["*://mail.*/*".into()],
        ..LlmCompletionSpec::default_compose()
    });
    assert!(reg.resolve(CompletionTrigger::Contenteditable, "other.com").is_none());
}

#[test]
fn llm_completion_registry_dedupes_by_name() {
    let mut reg = LlmCompletionRegistry::new();
    reg.insert(LlmCompletionSpec::default_url_bar());
    reg.insert(LlmCompletionSpec {
        min_chars: 10,
        ..LlmCompletionSpec::default_url_bar()
    });
    assert_eq!(reg.len(), 1);
    assert_eq!(reg.specs()[0].min_chars, 10);
    assert_eq!(reg.get("omnibox").unwrap().min_chars, 10);
    assert_eq!(CompletionTrigger::default(), CompletionTrigger::FormInput);
}
