//! `(defllm-completion)` — inline completion backed by an LLM: where it fires (URL bar, form
//! fields, rich-text editors, code buffers), on which hosts, after how many typed characters,
//! and the call it sends. Temperatures are held in thousandths.
use vstd::prelude::*;

use crate::extension::glob::{any_glob_host, any_host_matches};
use crate::llm::{clamp_i32, LlmCall, LlmMessage};
use crate::registry::{
    find_key, first_where, index_of_key, lemma_first_where_found, lemma_first_where_none, lemma_first_where_spec,
    upsert, upsert_all, upserted, upserted_all, Named,
};
use crate::text::{chars_of, owned};

verus! {

/// Where completions fire.
#[derive(Debug, Clone, Copy, PartialEq, Eq, Structural)]
pub enum CompletionTrigger {
    /// The URL bar: URLs or queries.
    UrlBar,
    /// Text inputs and text areas.
    FormInput,
    /// Rich-text editors.
    Contenteditable,
    /// Code editors.
    CodeBuffer,
}

impl Default for CompletionTrigger {
    fn default() -> (r: Self)
        ensures
            r == CompletionTrigger::FormInput,
    {
        CompletionTrigger::FormInput
    }
}

/// A completion profile.
#[derive(Debug, Clone, PartialEq)]
pub struct LlmCompletionSpec {
    pub name: String,
    /// Name of the provider declaration to call.
    pub provider: String,
    pub trigger: CompletionTrigger,
    /// Characters typed before the profile fires.
    pub min_chars: u32,
    /// Debounce delay; each keystroke restarts it.
    pub debounce_ms: u32,
    /// Suggestions shown at most.
    pub max_suggestions: u32,
    /// Largest completion in tokens.
    pub max_tokens: u32,
    /// Temperature in thousandths; clamped to `0 ..= 2000` when used.
    pub temperature_permille: i32,
    /// Host globs the profile fires on; empty is every host.
    pub host_gated: Vec<String>,
    /// Host globs the profile never fires on; they win over `host_gated`.
    pub blocked_hosts: Vec<String>,
    /// The system prompt that shapes the completion.
    pub system_prompt: String,
    pub enabled: bool,
    pub description: Option<String>,
}

impl Named for LlmCompletionSpec {
    open spec fn key(&self) -> Seq<char> {
        self.name@
    }

    fn name_ref(&self) -> (r: &str) {
        self.name.as_str()
    }
}

/// Characters typed before a profile fires, when none is given.
pub fn default_min_chars() -> (r: u32)
    ensures
        r == 3,
{
    3
}

/// Debounce delay when none is given.
pub fn default_debounce_ms() -> (r: u32)
    ensures
        r == 200,
{
    200
}

/// Suggestions shown when none is given.
pub fn default_max_suggestions() -> (r: u32)
    ensures
        r == 1,
{
    1
}

/// Largest completion when none is given.
pub fn default_max_tokens() -> (r: u32)
    ensures
        r == 60,
{
    60
}

/// Temperature when none is given, in thousandths.
pub fn default_temperature_permille() -> (r: i32)
    ensures
        r == 300,
{
    300
}

/// Profiles are enabled unless said otherwise.
pub fn default_enabled() -> (r: bool)
    ensures
        r,
{
    true
}

/// The system prompt used when none is given.
pub open spec fn continue_prompt() -> Seq<char> {
    "Continue the user's text naturally. Return only the continuation, no commentary, no quotes."@
}

/// The system prompt used when none is given.
pub fn default_system_prompt() -> (r: String)
    ensures
        r@ == continue_prompt(),
{
    owned("Continue the user's text naturally. Return only the continuation, no commentary, no quotes.")
}

/// The URL-bar system prompt.
pub open spec fn url_bar_prompt() -> Seq<char> {
    "Suggest URLs or web search queries matching the user's prefix. Return one per line, no numbering."@
}

impl LlmCompletionSpec {
    /// The profile fires for `trigger` on `host`: it is enabled, listens on that trigger, no
    /// blocked glob matches the host, and the host gate is empty or one of its globs matches.
    pub open spec fn fires(&self, trigger: CompletionTrigger, host: Seq<char>) -> bool {
        &&& self.enabled
        &&& self.trigger == trigger
        &&& !any_glob_host(self.blocked_hosts@, host)
        &&& (self.host_gated@.len() == 0 || any_glob_host(self.host_gated@, host))
    }

    /// The URL-bar profile.
    pub fn default_url_bar() -> (r: Self)
        ensures
            r.name@ == "omnibox"@,
            r.provider@ == "default"@,
            r.trigger == CompletionTrigger::UrlBar,
            r.min_chars == 3,
            r.debounce_ms == 200,
            r.max_suggestions == 3,
            r.max_tokens == 40,
            r.temperature_permille == 400,
            r.host_gated@.len() == 0,
            r.blocked_hosts@.len() == 0,
            r.system_prompt@ == url_bar_prompt(),
            r.enabled,
            r.description matches Some(d) && d@ == "URL-bar LLM completion."@,
    {
        LlmCompletionSpec {
            name: owned("omnibox"),
            provider: owned("default"),
            trigger: CompletionTrigger::UrlBar,
            min_chars: 3,
            debounce_ms: 200,
            max_suggestions: 3,
            max_tokens: 40,
            temperature_permille: 400,
            host_gated: Vec::new(),
            blocked_hosts: Vec::new(),
            system_prompt: owned(
                "Suggest URLs or web search queries matching the user's prefix. Return one per line, no numbering.",
            ),
            enabled: true,
            description: Some(owned("URL-bar LLM completion.")),
        }
    }

    /// The compose profile, for rich-text editors.
    pub fn default_compose() -> (r: Self)
        ensures
            r.name@ == "compose"@,
            r.provider@ == "default"@,
            r.trigger == CompletionTrigger::Contenteditable,
            r.min_chars == 20,
            r.debounce_ms == 400,
            r.max_suggestions == 1,
            r.max_tokens == 80,
            r.temperature_permille == 200,
            r.host_gated@.len() == 0,
            r.blocked_hosts@.len() == 0,
            r.system_prompt@ == continue_prompt(),
            r.enabled,
            r.description matches Some(d) && d@ == "Gmail-Smart-Compose-style inline completion."@,
    {
        LlmCompletionSpec {
            name: owned("compose"),
            provider: owned("default"),
            trigger: CompletionTrigger::Contenteditable,
            min_chars: 20,
            debounce_ms: 400,
            max_suggestions: 1,
            max_tokens: 80,
            temperature_permille: 200,
            host_gated: Vec::new(),
            blocked_hosts: Vec::new(),
            system_prompt: default_system_prompt(),
            enabled: true,
            description: Some(owned("Gmail-Smart-Compose-style inline completion.")),
        }
    }

    /// The temperature in force, in thousandths: clamped to `0 ..= 2000`.
    pub fn clamped_temperature(&self) -> (r: i32)
        ensures
            r == clamp_i32(self.temperature_permille, 0, 2000),
    {
        if self.temperature_permille < 0 {
            0
        } else if self.temperature_permille > 2000 {
            2000
        } else {
            self.temperature_permille
        }
    }

    /// Whether the profile fires for `trigger` on `host`.
    pub fn fires_on(&self, trigger: CompletionTrigger, host: &str) -> (r: bool)
        ensures
            r == self.fires(trigger, host@),
    {
        if !self.enabled || self.trigger != trigger {
            return false;
        }
        if any_host_matches(&self.blocked_hosts, host) {
            return false;
        }
        if self.host_gated.len() == 0 {
            return true;
        }
        any_host_matches(&self.host_gated, host)
    }

    /// At least `min_chars` characters were typed.
    pub fn meets_minimum(&self, typed: &str) -> (r: bool)
        ensures
            r == (typed@.len() >= self.min_chars),
    {
        let cs = chars_of(typed);
        cs.len() as u64 >= self.min_chars as u64
    }

    /// The call for `prefix`: the system prompt, then the prefix as the user's message, at the
    /// clamped temperature and the profile's token cap, stopping at a blank line.
    pub fn build_call(&self, prefix: &str) -> (r: LlmCall)
        ensures
            r.messages@.len() == 2,
            r.messages@[0].role@ == "system"@,
            r.messages@[0].content@ == self.system_prompt@,
            r.messages@[1].role@ == "user"@,
            r.messages@[1].content@ == prefix@,
            r.temperature_permille == Some(clamp_i32(self.temperature_permille, 0, 2000)),
            r.max_tokens == Some(self.max_tokens),
            r.stop@.len() == 1,
            r.stop@[0]@ == "\n\n"@,
            r.metadata@.len() == 0,
    {
        let system = LlmMessage { role: owned("system"), content: owned(self.system_prompt.as_str()) };
        let user = LlmMessage { role: owned("user"), content: owned(prefix) };
        let t = self.clamped_temperature();
        LlmCall {
            messages: vec![system, user],
            temperature_permille: Some(t),
            max_tokens: Some(self.max_tokens),
            stop: vec![owned("\n\n")],
            metadata: Vec::new(),
        }
    }
}

/// A profile fires for `trigger` on `host`.
pub open spec fn fires_for(trigger: CompletionTrigger, host: Seq<char>) -> spec_fn(LlmCompletionSpec) -> bool {
    |s: LlmCompletionSpec| s.fires(trigger, host)
}

/// Completion profiles, one per name.
#[derive(Debug, Clone)]
pub struct LlmCompletionRegistry {
    specs: Vec<LlmCompletionSpec>,
}

impl View for LlmCompletionRegistry {
    type V = Seq<LlmCompletionSpec>;

    closed spec fn view(&self) -> Seq<LlmCompletionSpec> {
        self.specs@
    }
}

impl LlmCompletionRegistry {
    /// An empty registry.
    pub fn new() -> (r: Self)
        ensures
            r@ == Seq::<LlmCompletionSpec>::empty(),
    {
        LlmCompletionRegistry { specs: Vec::new() }
    }

    /// Adds `spec`, replacing any profile of the same name.
    pub fn insert(&mut self, spec: LlmCompletionSpec)
        ensures
            final(self)@ == upserted(old(self)@, spec),
    {
        upsert(&mut self.specs, spec);
    }

    /// Adds each profile in order.
    pub fn extend(&mut self, specs: Vec<LlmCompletionSpec>)
        ensures
            final(self)@ == upserted_all(old(self)@, specs@),
    {
        upsert_all(&mut self.specs, specs);
    }

    /// Number of profiles.
    pub fn len(&self) -> (r: usize)
        ensures
            r == self@.len(),
    {
        self.specs.len()
    }

    /// No profile is registered.
    pub fn is_empty(&self) -> (r: bool)
        ensures
            r == (self@.len() == 0),
    {
        self.specs.len() == 0
    }

    /// The profiles in order.
    pub fn specs(&self) -> (r: &[LlmCompletionSpec])
        ensures
            r@ == self@,
    {
        self.specs.as_slice()
    }

    /// The first profile named `name`.
    pub fn get(&self, name: &str) -> (r: Option<&LlmCompletionSpec>)
        ensures
            match index_of_key(self@, name@) {
                Some(i) => r == Some(&self@[i]),
                None => r.is_none(),
            },
    {
        match find_key(&self.specs, name) {
            Some(i) => {
                proof {
                    lemma_first_where_spec(self.specs@, crate::registry::key_equals::<LlmCompletionSpec>(name@));
                }
                Some(&self.specs[i])
            },
            None => None,
        }
    }

    /// The first profile that fires for `trigger` on `host`.
    pub fn resolve(&self, trigger: CompletionTrigger, host: &str) -> (r: Option<&LlmCompletionSpec>)
        ensures
            match first_where(self@, fires_for(trigger, host@)) {
                Some(i) => r == Some(&self@[i]),
                None => r.is_none(),
            },
    {
        let ghost p = fires_for(trigger, host@);
        let mut i: usize = 0;
        while i < self.specs.len()
            invariant
                i <= self.specs@.len(),
                p == fires_for(trigger, host@),
                forall|j: int| 0 <= j < i ==> !p(#[trigger] self.specs@[j]),
            decreases self.specs@.len() - i,
        {
            if self.specs[i].fires_on(trigger, host) {
                proof {
                    lemma_first_where_found(self.specs@, p, i as int);
                }
                return Some(&self.specs[i]);
            }
            i += 1;
        }
        proof {
            lemma_first_where_none(self.specs@, p);
        }
        None
    }
}

} // verus!
