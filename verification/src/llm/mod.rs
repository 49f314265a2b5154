//! `(defllm-provider)` — declared LLM providers, the messages sent to them, what they answer,
//! and the built-in echo provider that answers without a network. Temperatures are held in
//! thousandths (`700` for 0.7).
use vstd::prelude::*;

use crate::net::fetch::utf8_encode;
use crate::registry::{find_key, index_of_key, lemma_first_where_spec, upsert, upserted, Named};
use crate::text::{chars_of, join, join_strings, owned, push_str, split_whitespace, str_eq, trim, trim_chars, views, words};

verus! {

/// The protocol a provider speaks.
#[derive(Debug, Clone, Copy, PartialEq, Eq, Structural)]
pub enum LlmKind {
    /// The OpenAI REST shape, also served by many hosts and local servers.
    OpenAiCompatible,
    /// The Anthropic Messages API.
    Anthropic,
    /// Google AI Gemini.
    Gemini,
    /// The local `ollama` command.
    Ollama,
    /// The Kurage agent fleet.
    Kurage,
    /// An MCP tool with a generate schema.
    Mcp,
    /// The built-in echo provider.
    Stub,
}

impl Default for LlmKind {
    fn default() -> (r: Self)
        ensures
            r == LlmKind::Stub,
    {
        LlmKind::Stub
    }
}

impl LlmKind {
    /// The variant's identifier, as `{:?}` prints it.
    pub open spec fn variant_name(self) -> Seq<char> {
        match self {
            LlmKind::OpenAiCompatible => "OpenAiCompatible"@,
            LlmKind::Anthropic => "Anthropic"@,
            LlmKind::Gemini => "Gemini"@,
            LlmKind::Ollama => "Ollama"@,
            LlmKind::Kurage => "Kurage"@,
            LlmKind::Mcp => "Mcp"@,
            LlmKind::Stub => "Stub"@,
        }
    }

    /// The variant's identifier.
    pub fn variant(&self) -> (r: &'static str)
        ensures
            r@ == self.variant_name(),
    {
        match self {
            LlmKind::OpenAiCompatible => "OpenAiCompatible",
            LlmKind::Anthropic => "Anthropic",
            LlmKind::Gemini => "Gemini",
            LlmKind::Ollama => "Ollama",
            LlmKind::Kurage => "Kurage",
            LlmKind::Mcp => "Mcp",
            LlmKind::Stub => "Stub",
        }
    }

    /// The kind cannot work without an endpoint.
    pub open spec fn needs_endpoint(self) -> bool {
        self == LlmKind::OpenAiCompatible || self == LlmKind::Gemini
    }
}

/// A provider declaration.
#[derive(Debug, Clone, PartialEq)]
pub struct LlmProviderSpec {
    pub name: String,
    pub kind: LlmKind,
    /// REST endpoint; unused by the local, MCP and echo kinds.
    pub endpoint: Option<String>,
    /// Model identifier at the provider.
    pub model: String,
    /// Largest response in tokens; `0` is the provider's default.
    pub max_tokens: u32,
    /// Generation temperature in thousandths; clamped to `0 ..= 2000` when used.
    pub temperature_permille: i32,
    /// Name of the environment variable that holds the API key.
    pub auth_env: Option<String>,
    /// MCP tool name, for the MCP kind.
    pub mcp_tool: Option<String>,
    /// Requests per minute; `0` is unlimited.
    pub rate_limit_per_minute: u32,
    /// Per-request timeout in seconds.
    pub timeout_seconds: u32,
    pub description: Option<String>,
}

impl Named for LlmProviderSpec {
    open spec fn key(&self) -> Seq<char> {
        self.name@
    }

    fn name_ref(&self) -> (r: &str) {
        self.name.as_str()
    }
}

/// The largest response used when none is given.
pub fn default_max_tokens() -> (r: u32)
    ensures
        r == 4096,
{
    4096
}

/// The temperature used when none is given, in thousandths.
pub fn default_temperature_permille() -> (r: i32)
    ensures
        r == 700,
{
    700
}

/// The timeout used when none is given, in seconds.
pub fn default_timeout() -> (r: u32)
    ensures
        r == 60,
{
    60
}

/// `t` clamped to `lo ..= hi`.
pub open spec fn clamp_i32(t: i32, lo: i32, hi: i32) -> i32 {
    if t < lo {
        lo
    } else if t > hi {
        hi
    } else {
        t
    }
}

impl LlmProviderSpec {
    /// Why the declaration is rejected, if it is.
    pub open spec fn rejection(&self) -> Option<Seq<char>> {
        if trim(self.name@).len() == 0 {
            Some("llm provider name is empty"@)
        } else if trim(self.model@).len() == 0 {
            Some("llm provider '"@ + self.name@ + "' has empty :model"@)
        } else if self.kind.needs_endpoint() && self.endpoint is None {
            Some(self.kind.variant_name() + " provider '"@ + self.name@ + "' requires :endpoint"@)
        } else if self.kind == LlmKind::Mcp && self.mcp_tool is None {
            Some("mcp provider '"@ + self.name@ + "' requires :mcp-tool"@)
        } else {
            None
        }
    }

    /// The temperature in force, in thousandths: clamped to `0 ..= 2000`.
    pub fn clamped_temperature(&self) -> (r: i32)
        ensures
            r == clamp_i32(self.temperature_permille, 0, 2000),
    {
        if self.temperature_permille < 0 {
            0
        } else if self.temperature_permille > 2000 {
            2000
        } else {
            self.temperature_permille
        }
    }

    /// Checks the name and model are not blank, that REST kinds other than Anthropic name an
    /// endpoint, and that the MCP kind names its tool.
    pub fn validate(&self) -> (r: Result<(), String>)
        ensures
            match self.rejection() {
                Some(m) => r matches Err(e) && e@ == m,
                None => r is Ok,
            },
    {
        let n = chars_of(self.name.as_str());
        if trim_chars(n.as_slice()).len() == 0 {
            return Err(owned("llm provider name is empty"));
        }
        let m = chars_of(self.model.as_str());
        if trim_chars(m.as_slice()).len() == 0 {
            let mut e = owned("llm provider '");
            push_str(&mut e, self.name.as_str());
            push_str(&mut e, "' has empty :model");
            return Err(e);
        }
        let needs_endpoint = match self.kind {
            LlmKind::OpenAiCompatible | LlmKind::Gemini => true,
            _ => false,
        };
        if needs_endpoint && self.endpoint.is_none() {
            let mut e = owned(self.kind.variant());
            push_str(&mut e, " provider '");
            push_str(&mut e, self.name.as_str());
            push_str(&mut e, "' requires :endpoint");
            return Err(e);
        }
        if self.kind == LlmKind::Mcp && self.mcp_tool.is_none() {
            let mut e = owned("mcp provider '");
            push_str(&mut e, self.name.as_str());
            push_str(&mut e, "' requires :mcp-tool");
            return Err(e);
        }
        Ok(())
    }
}

/// `s` after inserting each valid declaration of `items` in order; invalid ones are skipped.
pub open spec fn inserted_valid(s: Seq<LlmProviderSpec>, items: Seq<LlmProviderSpec>) -> Seq<LlmProviderSpec>
    decreases items.len(),
{
    if items.len() == 0 {
        s
    } else {
        let prev = inserted_valid(s, items.drop_last());
        if items.last().rejection().is_none() {
            upserted(prev, items.last())
        } else {
            prev
        }
    }
}

/// Provider declarations, one per name; every entry passed validation.
#[derive(Debug, Clone)]
pub struct LlmProviderRegistry {
    specs: Vec<LlmProviderSpec>,
}

impl View for LlmProviderRegistry {
    type V = Seq<LlmProviderSpec>;

    closed spec fn view(&self) -> Seq<LlmProviderSpec> {
        self.specs@
    }
}

impl LlmProviderRegistry {
    /// An empty registry.
    pub fn new() -> (r: Self)
        ensures
            r@ == Seq::<LlmProviderSpec>::empty(),
    {
        LlmProviderRegistry { specs: Vec::new() }
    }

    /// Adds `spec` when it validates, replacing any declaration of the same name.
    pub fn insert(&mut self, spec: LlmProviderSpec) -> (r: Result<(), String>)
        ensures
            match spec.rejection() {
                Some(m) => r matches Err(e) && e@ == m && final(self)@ == old(self)@,
                None => r is Ok && final(self)@ == upserted(old(self)@, spec),
            },
    {
        match spec.validate() {
            Err(e) => Err(e),
            Ok(()) => {
                upsert(&mut self.specs, spec);
                Ok(())
            },
        }
    }

    /// Adds each valid declaration in order; invalid ones are dropped.
    pub fn extend(&mut self, specs: Vec<LlmProviderSpec>)
        ensures
            final(self)@ == inserted_valid(old(self)@, specs@),
    {
        let ghost start = self@;
        let ghost all = specs@;
        for s in it: specs
            invariant
                it.seq() == all,
                self@ == inserted_valid(start, all.take(it.index() as int)),
        {
            proof {
                let k = it.index() as int;
                assert(all.take(k + 1).drop_last() =~= all.take(k));
                assert(all.take(k + 1).last() == all[k]);
            }
            let _ = self.insert(s);
        }
        proof {
            assert(all.take(all.len() as int) =~= all);
        }
    }

    /// Number of declarations.
    pub fn len(&self) -> (r: usize)
        ensures
            r == self@.len(),
    {
        self.specs.len()
    }

    /// No declaration is registered.
    pub fn is_empty(&self) -> (r: bool)
        ensures
            r == (self@.len() == 0),
    {
        self.specs.len() == 0
    }

    /// The declarations in order.
    pub fn specs(&self) -> (r: &[LlmProviderSpec])
        ensures
            r@ == self@,
    {
        self.specs.as_slice()
    }

    /// The first declaration named `name`.
    pub fn get(&self, name: &str) -> (r: Option<&LlmProviderSpec>)
        ensures
            match index_of_key(self@, name@) {
                Some(i) => r == Some(&self@[i]),
                None => r.is_none(),
            },
    {
        match find_key(&self.specs, name) {
            Some(i) => {
                proof {
                    lemma_first_where_spec(self.specs@, crate::registry::key_equals::<LlmProviderSpec>(name@));
                }
                Some(&self.specs[i])
            },
            None => None,
        }
    }
}

/// One message of a chat-shaped request.
#[derive(Debug, Clone, PartialEq, Eq)]
pub struct LlmMessage {
    /// `system`, `user` or `assistant`.
    pub role: String,
    pub content: String,
}

/// Why a provider stopped.
#[derive(Debug, Clone, Copy, PartialEq, Eq, Structural)]
pub enum StopReason {
    EndTurn,
    StopSequence,
    MaxTokens,
    Other,
}

/// What a call gave back.
#[derive(Debug, Clone, PartialEq, Eq)]
pub struct LlmResponse {
    pub content: String,
    pub input_tokens: u32,
    pub output_tokens: u32,
    pub model: String,
    pub stopped: StopReason,
}

/// Why a call failed.
#[derive(Debug, Clone, PartialEq, Eq)]
pub enum LlmError {
    InvalidSpec(String),
    Network(String),
    RateLimited,
    AuthFailure,
    Unsupported(String),
    Parse(String),
    Timeout,
    Other(String),
}

impl LlmError {
    /// The error as text.
    pub open spec fn text(&self) -> Seq<char> {
        match self {
            LlmError::InvalidSpec(m) => "invalid spec: "@ + m@,
            LlmError::Network(m) => "network error: "@ + m@,
            LlmError::RateLimited => "rate limited"@,
            LlmError::AuthFailure => "authentication failed"@,
            LlmError::Unsupported(m) => "unsupported: "@ + m@,
            LlmError::Parse(m) => "parse error: "@ + m@,
            LlmError::Timeout => "timeout"@,
            LlmError::Other(m) => m@,
        }
    }

    /// The error as text.
    pub fn message(&self) -> (r: String)
        ensures
            r@ == self.text(),
    {
        match self {
            LlmError::InvalidSpec(m) => {
                let mut s = owned("invalid spec: ");
                push_str(&mut s, m.as_str());
                s
            },
            LlmError::Network(m) => {
                let mut s = owned("network error: ");
                push_str(&mut s, m.as_str());
                s
            },
            LlmError::RateLimited => owned("rate limited"),
            LlmError::AuthFailure => owned("authentication failed"),
            LlmError::Unsupported(m) => {
                let mut s = owned("unsupported: ");
                push_str(&mut s, m.as_str());
                s
            },
            LlmError::Parse(m) => {
                let mut s = owned("parse error: ");
                push_str(&mut s, m.as_str());
                s
            },
            LlmError::Timeout => owned("timeout"),
            LlmError::Other(m) => owned(m.as_str()),
        }
    }
}

/// The contents of the `user` messages, in order.
pub open spec fn user_contents(ms: Seq<LlmMessage>) -> Seq<Seq<char>>
    decreases ms.len(),
{
    if ms.len() == 0 {
        seq![]
    } else if ms.last().role@ == "user"@ {
        user_contents(ms.drop_last()).push(ms.last().content@)
    } else {
        user_contents(ms.drop_last())
    }
}

/// What the echo provider repeats: the user messages joined by blank lines.
pub open spec fn echo_body(ms: Seq<LlmMessage>) -> Seq<char> {
    join(user_contents(ms), "\n\n"@)
}

/// The UTF-8 length of `s`, as a `u32` cast keeps it (modulo 2^32).
pub open spec fn byte_len_u32(s: Seq<char>) -> int {
    (utf8_encode(s).len() % 0x1_0000_0000) as int
}

/// The echo provider's answer to `messages` under `spec`: `"echo: "` and the body, the body's
/// word count as input tokens, a quarter of its UTF-8 length (at least one) as output tokens.
pub open spec fn echo_answer(spec: LlmProviderSpec, ms: Seq<LlmMessage>, r: LlmResponse) -> bool {
    let body = echo_body(ms);
    &&& r.content@ == "echo: "@ + body
    &&& r.input_tokens == words(body).len() % 0x1_0000_0000
    &&& r.output_tokens == (if byte_len_u32(body) / 4 == 0 {
        1
    } else {
        byte_len_u32(body) / 4
    })
    &&& r.model@ == spec.model@
    &&& r.stopped == StopReason::EndTurn
}

/// The UTF-8 length of `s`, modulo 2^32.
fn utf8_len_u32(s: &str) -> (r: u32)
    ensures
        r == byte_len_u32(s@),
{
    let cs = chars_of(s);
    let mut acc: u32 = 0;
    let mut i: usize = 0;
    while i < cs.len()
        invariant
            i <= cs@.len(),
            cs@ == s@,
            acc == utf8_encode(cs@.take(i as int)).len() % 0x1_0000_0000,
        decreases cs@.len() - i,
    {
        let c = cs[i];
        let n = c as u32;
        let w: u64 = if n < 0x80 {
            1
        } else if n < 0x800 {
            2
        } else if n < 0x10000 {
            3
        } else {
            4
        };
        proof {
            let t = cs@.take(i + 1);
            assert(t.drop_last() =~= cs@.take(i as int));
            assert(t.last() == c);
            assert(utf8_encode(t).len() == utf8_encode(cs@.take(i as int)).len() + w);
            vstd::arithmetic::div_mod::lemma_add_mod_noop(
                utf8_encode(cs@.take(i as int)).len() as int,
                w as int,
                0x1_0000_0000,
            );
            vstd::arithmetic::div_mod::lemma_small_mod(w as nat, 0x1_0000_0000);
        }
        acc = ((acc as u64 + w) % 0x1_0000_0000u64) as u32;
        i += 1;
    }
    assert(cs@.take(cs@.len() as int) =~= cs@);
    acc
}

/// The built-in echo provider's answer: it repeats the user messages and records nothing.
pub fn echo_generate(spec: &LlmProviderSpec, messages: &[LlmMessage]) -> (r: LlmResponse)
    ensures
        echo_answer(*spec, messages@, r),
{
    let mut users: Vec<String> = Vec::new();
    let mut i: usize = 0;
    while i < messages.len()
        invariant
            i <= messages@.len(),
            views(users@) == user_contents(messages@.take(i as int)),
        decreases messages@.len() - i,
    {
        proof {
            let t = messages@.take(i + 1);
            assert(t.drop_last() =~= messages@.take(i as int));
            assert(t.last() == messages@[i as int]);
        }
        if str_eq(messages[i].role.as_str(), "user") {
            let ghost before = users@;
            users.push(owned(messages[i].content.as_str()));
            assert(views(users@) =~= views(before).push(messages@[i as int].content@));
        }
        i += 1;
    }
    assert(messages@.take(messages@.len() as int) =~= messages@);
    let body = join_strings(&users, "\n\n");
    let ws = split_whitespace(body.as_str());
    assert(ws@.len() == words(body@).len()) by {
        assert(views(ws@).len() == ws@.len());
    }
    let input_tokens = ((ws.len() as u64) % 0x1_0000_0000u64) as u32;
    let quarter = utf8_len_u32(body.as_str()) / 4;
    let output_tokens = if quarter == 0 {
        1
    } else {
        quarter
    };
    let mut content = owned("echo: ");
    push_str(&mut content, body.as_str());
    LlmResponse {
        content,
        input_tokens,
        output_tokens,
        model: owned(spec.model.as_str()),
        stopped: StopReason::EndTurn,
    }
}

/// The input of one call.
#[derive(Debug, Clone, PartialEq, Eq)]
pub struct LlmCall {
    pub messages: Vec<LlmMessage>,
    /// Overrides the provider's temperature, in thousandths.
    pub temperature_permille: Option<i32>,
    /// Overrides the provider's largest response.
    pub max_tokens: Option<u32>,
    /// Stop sequences.
    pub stop: Vec<String>,
    /// Key/value metadata handed through to providers that take it.
    pub metadata: Vec<(String, String)>,
}

impl Default for LlmCall {
    fn default() -> (r: Self)
        ensures
            r.messages@.len() == 0,
            r.temperature_permille is None,
            r.max_tokens is None,
            r.stop@.len() == 0,
            r.metadata@.len() == 0,
    {
        LlmCall { messages: Vec::new(), temperature_permille: None, max_tokens: None, stop: Vec::new(), metadata: Vec::new() }
    }
}

/// The role and content of each message.
pub open spec fn message_views(ms: Seq<LlmMessage>) -> Seq<(Seq<char>, Seq<char>)> {
    ms.map_values(|m: LlmMessage| (m.role@, m.content@))
}

/// The prompts a tracing echo provider saw, each as its messages' roles and contents.
pub open spec fn trace_views(t: Seq<Vec<LlmMessage>>) -> Seq<Seq<(Seq<char>, Seq<char>)>> {
    t.map_values(|ms: Vec<LlmMessage>| message_views(ms@))
}

/// A copy of `ms`.
fn copy_messages(ms: &[LlmMessage]) -> (r: Vec<LlmMessage>)
    ensures
        message_views(r@) == message_views(ms@),
{
    let mut out: Vec<LlmMessage> = Vec::new();
    let mut i: usize = 0;
    while i < ms.len()
        invariant
            i <= ms@.len(),
            message_views(out@) == message_views(ms@.take(i as int)),
        decreases ms@.len() - i,
    {
        let ghost before = out@;
        out.push(LlmMessage { role: owned(ms[i].role.as_str()), content: owned(ms[i].content.as_str()) });
        assert(message_views(out@) =~= message_views(before).push((ms@[i as int].role@, ms@[i as int].content@)));
        assert(ms@.take(i + 1) =~= ms@.take(i as int).push(ms@[i as int]));
        assert(message_views(ms@.take(i + 1)) =~= message_views(ms@.take(i as int)).push(
            (ms@[i as int].role@, ms@[i as int].content@),
        ));
        i += 1;
    }
    assert(ms@.take(ms@.len() as int) =~= ms@);
    out
}

/// The built-in provider: answers by repeating the user messages, and records each prompt it
/// sees when it has a trace.
#[derive(Debug, Clone)]
pub struct EchoProvider {
    /// The prompts seen so far, when tracing.
    pub trace: Option<Vec<Vec<LlmMessage>>>,
}

impl Default for EchoProvider {
    fn default() -> (r: Self)
        ensures
            r.trace is None,
    {
        EchoProvider { trace: None }
    }
}

impl EchoProvider {
    /// Answers `call` under `spec`; never fails. A tracing provider records the prompt.
    pub fn generate(&mut self, spec: &LlmProviderSpec, call: &LlmCall) -> (r: Result<LlmResponse, LlmError>)
        ensures
            match r {
                Ok(resp) => echo_answer(*spec, call.messages@, resp),
                Err(_) => false,
            },
            match old(self).trace {
                Some(t) => final(self).trace matches Some(u) && trace_views(u@) == trace_views(t@).push(
                    message_views(call.messages@),
                ),
                None => final(self).trace is None,
            },
    {
        match &mut self.trace {
            Some(t) => {
                let ghost before = t@;
                let copy = copy_messages(call.messages.as_slice());
                t.push(copy);
                assert(trace_views(t@) =~= trace_views(before).push(message_views(call.messages@)));
            },
            None => {},
        }
        Ok(echo_generate(spec, call.messages.as_slice()))
    }

    /// The provider's engine name.
    pub fn engine_name(&self) -> (r: &'static str)
        ensures
            r@ == "echo"@,
    {
        "echo"
    }
}

} // verus!
