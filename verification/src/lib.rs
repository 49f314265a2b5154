//! nami-core: the policy, registry and text-processing core of a browser.
pub mod dom;
pub mod effect;
pub mod engine;
pub mod extension;
pub mod feed;
pub mod find;
pub mod fingerprint_randomize;
pub mod framework;
pub mod gesture;
pub mod high_contrast;
pub mod history_policy;
pub mod i18n;
pub mod identity;
pub mod inline_lisp;
pub mod inspector;
pub mod js_runtime;
pub mod lisp;
pub mod llm;
pub mod llm_completion;
pub mod locale;
pub mod markdown;
pub mod media_session;
pub mod multiplayer_cursor;
pub mod navigation_intent;
pub mod network_throttle;
pub mod net;
pub mod normalize;
pub mod offline;
pub mod omnibox;
pub mod outline;
pub mod passkey;
pub mod passwords;
pub mod permission_policy;
pub mod registry;
pub mod sorted;
pub mod text;
