//! The engine seam: errors an engine reports, and the null engine that renders nothing.
use vstd::prelude::*;

use crate::text::owned;

verus! {

/// Why an engine call failed.
#[derive(Debug, Clone, PartialEq, Eq)]
pub enum EngineError {
    /// The engine does not do `what` yet.
    Unsupported { what: &'static str, engine: &'static str },
    /// The engine failed to start.
    Init(String),
}

impl EngineError {
    /// The error as text.
    pub fn message(&self) -> (r: String)
        ensures
            match self {
                EngineError::Unsupported { what, engine } => r@ == engine@ + " engine does not support "@ + what@
                    + " yet"@,
                EngineError::Init(m) => r@ == "engine init failed: "@ + m@,
            },
    {
        match self {
            EngineError::Unsupported { what, engine } => {
                let mut s = owned(engine);
                crate::text::push_str(&mut s, " engine does not support ");
                crate::text::push_str(&mut s, what);
                crate::text::push_str(&mut s, " yet");
                s
            },
            EngineError::Init(m) => {
                let mut s = owned("engine init failed: ");
                crate::text::push_str(&mut s, m.as_str());
                s
            },
        }
    }
}

/// What an engine without script support answers to `evaluate_js`.
pub fn js_unsupported(engine: &'static str) -> (r: EngineError)
    ensures
        r == (EngineError::Unsupported { what: "evaluate_js", engine }),
{
    EngineError::Unsupported { what: "evaluate_js", engine }
}

/// The engine that navigates nowhere and paints nothing; the substrate shows text instead.
#[derive(Debug, Clone, Copy, PartialEq, Eq)]
pub struct SubstrateNullEngine;

impl Default for SubstrateNullEngine {
    fn default() -> (r: Self) {
        SubstrateNullEngine
    }
}

impl SubstrateNullEngine {
    /// The null engine.
    pub fn new() -> (r: Self) {
        SubstrateNullEngine
    }

    /// Its name.
    pub fn engine_name(&self) -> (r: &'static str)
        ensures
            r@ == "substrate-null"@,
    {
        "substrate-null"
    }

    /// It draws no pixels.
    pub fn renders_pixels(&self) -> (r: bool)
        ensures
            !r,
    {
        false
    }
}

} // verus!
