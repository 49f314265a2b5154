use nami_core::engine::{js_unsupported, EngineError, SubstrateNullEngine};

#[test]
fn default_evaluate_js_is_unsupported() {
    let e = js_unsupported("null");
    assert_eq!(
        e,
        EngineError::Unsupported {
            what: "evaluate_js",
            engine: "null"
        }
    );
    assert_eq!(e.message(), "null engine does not support evaluate_js yet");
}

#[test]
fn engine_init_error_message() {
    assert_eq!(
        EngineError::Init("no gpu".to_string()).message(),
        "engine init failed: no gpu"
    );
}

#[test]
fn null_engine_is_a_no_op_that_shows_substrate_text() {
    let e = SubstrateNullEngine::new();
    assert_eq!(e.engine_name(), "substrate-null");
    assert!(!e.renders_pixels());
    assert_eq!(SubstrateNullEngine::default(), e);
}
