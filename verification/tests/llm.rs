use nami_core::llm::{
    echo_generate, EchoProvider, LlmCall, LlmError, LlmKind, LlmMessage, LlmProviderRegistry, LlmProviderSpec,
    StopReason,
};

fn sample() -> LlmProviderSpec {
    LlmProviderSpec {
        name: "primary".into(),
        kind: LlmKind::Anthropic,
        endpoint: None,
        model: "opus-large-4".into(),
        max_tokens: 4096,
        temperature_permille: 700,
        auth_env: Some("ANTHROPIC_API_KEY".into()),
        mcp_tool: None,
        rate_limit_per_minute: 60,
        timeout_seconds: 60,
        description: None,
    }
}

fn msg(role: &str, content: &str) -> LlmMessage {
    LlmMessage {
        role: role.into(),
        content: content.into(),
    }
}

#[test]
fn validate_requires_non_empty_name_and_model() {
    assert!(LlmProviderSpec {
        name: String::new(),
        ..sample()
    }
    .validate()
    .is_err());
    assert!(LlmProviderSpec {
        model: String::new(),
        ..sample()
    }
    .validate()
    .is_err());
}

#[test]
fn validate_openai_compat_requires_endpoint() {
    let s = LlmProviderSpec {
        kind: LlmKind::OpenAiCompatible,
        endpoint: None,
        ..sample()
    };
    assert!(s.validate().is_err());
}

#[test]
fn validate_anthropic_accepts_empty_endpoint() {
    assert!(sample().validate().is_ok());
}

#[test]
fn validate_mcp_requires_tool_name() {
    let s = LlmProviderSpec {
        kind: LlmKind::Mcp,
        mcp_tool: None,
        ..sample()
    };
    assert!(s.validate().is_err());
}

#[test]
fn validate_ollama_and_stub_need_nothing() {
    for kind in [LlmKind::Ollama, LlmKind::Stub, LlmKind::Kurage] {
        let s = LlmProviderSpec {
            kind,
            endpoint: None,
            ..sample()
        };
        assert!(s.validate().is_ok(), "{kind:?} should validate with minimal form");
    }
}

#[test]
fn llm_validate_messages() {
    assert_eq!(
        LlmProviderSpec {
            name: "  ".into(),
            ..sample()
        }
        .validate(),
        Err("llm provider name is empty".to_string())
    );
    assert_eq!(
        LlmProviderSpec {
            model: " ".into(),
            ..sample()
        }
        .validate(),
        Err("llm provider 'primary' has empty :model".to_string())
    );
    assert_eq!(
        LlmProviderSpec {
            kind: LlmKind::Gemini,
            ..sample()
        }
        .validate(),
        Err("Gemini provider 'primary' requires :endpoint".to_string())
    );
    assert_eq!(
        LlmProviderSpec {
            kind: LlmKind::Mcp,
            ..sample()
        }
        .validate(),
        Err("mcp provider 'primary' requires :mcp-tool".to_string())
    );
    assert!(LlmProviderSpec {
        kind: LlmKind::Mcp,
        mcp_tool: Some("gen".into()),
        ..sample()
    }
    .validate()
    .is_ok());
}

#[test]
fn temperature_clamps_to_valid_range() {
    assert_eq!(
        LlmProviderSpec {
            temperature_permille: 99_000,
            ..sample()
        }
        .clamped_temperature(),
        2_000
    );
    assert_eq!(
        LlmProviderSpec {
            temperature_permille: -1_000,
            ..sample()
        }
        .clamped_temperature(),
        0
    );
}

#[test]
fn registry_insert_validates_and_dedupes() {
    let mut reg = LlmProviderRegistry::new();
    assert!(reg
        .insert(LlmProviderSpec {
            model: String::new(),
            ..sample()
        })
        .is_err());
    reg.insert(sample()).unwrap();
    reg.insert(LlmProviderSpec {
        max_tokens: 8192,
        ..sample()
    })
    .unwrap();
    assert_eq!(reg.len(), 1);
    assert_eq!(reg.specs()[0].max_tokens, 8192);
    assert_eq!(reg.get("primary").unwrap().max_tokens, 8192);
}

#[test]
fn llm_registry_extend_skips_invalid() {
    let mut reg = LlmProviderRegistry::new();
    reg.extend(vec![
        sample(),
        LlmProviderSpec {
            name: "bad".into(),
            kind: LlmKind::OpenAiCompatible,
            ..sample()
        },
    ]);
    assert_eq!(reg.len(), 1);
    assert!(reg.get("bad").is_none());
    assert!(!reg.is_empty());
}

#[test]
fn echo_provider_concatenates_user_messages() {
    let spec = sample();
    let msgs = vec![msg("system", "be helpful"), msg("user", "hello"), msg("user", "world")];
    let call = LlmCall {
        messages: msgs,
        ..Default::default()
    };
    let resp = EchoProvider::default().generate(&spec, &call).unwrap();
    assert!(resp.content.contains("hello"));
    assert!(resp.content.contains("world"));
    assert!(!resp.content.contains("be helpful"));
    assert_eq!(resp.stopped, StopReason::EndTurn);
}

#[test]
fn llm_echo_exact_counts() {
    let resp = echo_generate(&sample(), &[msg("user", "hello there"), msg("assistant", "x"), msg("user", "héllo")]);
    assert_eq!(resp.content, "echo: hello there\n\nhéllo");
    assert_eq!(resp.input_tokens, 3);
    // 11 + 2 + 6 bytes = 19 → 4.
    assert_eq!(resp.output_tokens, 4);
    assert_eq!(resp.model, "opus-large-4");
    let empty = echo_generate(&sample(), &[]);
    assert_eq!(empty.content, "echo: ");
    assert_eq!(empty.input_tokens, 0);
    assert_eq!(empty.output_tokens, 1);
    assert_eq!(EchoProvider::default().engine_name(), "echo");
}

#[test]
fn llm_error_messages() {
    assert_eq!(LlmError::InvalidSpec("x".into()).message(), "invalid spec: x");
    assert_eq!(LlmError::Network("down".into()).message(), "network error: down");
    assert_eq!(LlmError::RateLimited.message(), "rate limited");
    assert_eq!(LlmError::AuthFailure.message(), "authentication failed");
    assert_eq!(LlmError::Unsupported("y".into()).message(), "unsupported: y");
    assert_eq!(LlmError::Parse("z".into()).message(), "parse error: z");
    assert_eq!(LlmError::Timeout.message(), "timeout");
    assert_eq!(LlmError::Other("raw".into()).message(), "raw");
    assert_eq!(LlmKind::default(), LlmKind::Stub);
}

#[test]
fn echo_provider_trace_records_prompts() {
    let mut provider = EchoProvider {
        trace: Some(Vec::new()),
    };
    let spec = sample();
    let call = LlmCall {
        messages: vec![msg("user", "x")],
        ..Default::default()
    };
    provider.generate(&spec, &call).unwrap();
    provider.generate(&spec, &call).unwrap();
    let captured = provider.trace.as_ref().unwrap();
    assert_eq!(captured.len(), 2);
    assert_eq!(captured[1], call.messages);
    let mut quiet = EchoProvider::default();
    let resp = quiet.generate(&spec, &call).unwrap();
    assert_eq!(resp.content, "echo: x");
    assert!(quiet.trace.is_none());
}
