//! `(defjs-runtime)` — declarative JavaScript runtime profiles: fuel and memory budgets,
//! the host capabilities a script is granted, and the hosts it may fetch from.
use vstd::prelude::*;

use crate::extension::glob::{any_glob_host, any_host_matches};
use crate::passwords::{parsed_url_host, url_host};
use crate::registry::{
    find_key, index_of_key, lemma_first_where_spec, upsert, upsert_all, upserted, upserted_all, Named,
};
use crate::outline::{decimal, digit};
use crate::text::{chars_of, owned, push_str, string_from_chars};

verus! {

/// Host-API grants; a host call outside them is refused.
#[derive(Debug, Clone, Copy, PartialEq, Eq, Hash, Structural)]
pub enum Capability {
    /// Read-only DOM access.
    DomRead,
    /// DOM mutation.
    DomWrite,
    /// Read declared stores.
    StorageRead,
    /// Write declared stores.
    StorageWrite,
    /// `fetch()` against the hosts in `allowed_hosts`.
    FetchAllowedHosts,
    /// Emit notifications.
    Notify,
    /// Read the clipboard.
    ClipboardRead,
    /// Write the clipboard.
    ClipboardWrite,
    /// Console logging.
    Console,
}

/// A JavaScript runtime profile.
#[derive(Debug, Clone, PartialEq)]
pub struct JsRuntimeSpec {
    pub name: String,
    /// Fuel per eval call; `0` is unlimited.
    pub fuel_limit: u64,
    /// Guest memory cap in bytes; `0` is unlimited.
    pub memory_limit_bytes: u64,
    pub capabilities: Vec<Capability>,
    /// Host globs that `fetch()` may reach.
    pub allowed_hosts: Vec<String>,
    pub description: Option<String>,
}

impl Named for JsRuntimeSpec {
    open spec fn key(&self) -> Seq<char> {
        self.name@
    }

    fn name_ref(&self) -> (r: &str) {
        self.name.as_str()
    }
}

/// Fuel per call in the built-in profile.
pub const DEFAULT_FUEL: u64 = 10_000_000;

/// Memory cap of the built-in profile: 16 MiB.
pub const DEFAULT_MEMORY_LIMIT: u64 = 16_777_216;

impl JsRuntimeSpec {
    /// The built-in sandbox: DOM read and console, ten million fuel, 16 MiB, no fetch.
    pub fn default_profile() -> (r: Self)
        ensures
            r.name@ == "default"@,
            r.fuel_limit == DEFAULT_FUEL,
            r.memory_limit_bytes == DEFAULT_MEMORY_LIMIT,
            r.capabilities@ == seq![Capability::DomRead, Capability::Console],
            r.allowed_hosts@.len() == 0,
            r.description.is_some(),
    {
        let caps = vec![Capability::DomRead, Capability::Console];
        JsRuntimeSpec {
            name: owned("default"),
            fuel_limit: DEFAULT_FUEL,
            memory_limit_bytes: DEFAULT_MEMORY_LIMIT,
            capabilities: caps,
            allowed_hosts: Vec::new(),
            description: Some(owned("Default sandbox — DOM read + console, no fetch.")),
        }
    }

    /// Whether `cap` is granted.
    pub fn has_capability(&self, cap: Capability) -> (r: bool)
        ensures
            r == self.capabilities@.contains(cap),
    {
        let mut i: usize = 0;
        while i < self.capabilities.len()
            invariant
                i <= self.capabilities@.len(),
                forall|j: int| 0 <= j < i ==> self.capabilities@[j] != cap,
            decreases self.capabilities@.len() - i,
        {
            if self.capabilities[i] == cap {
                return true;
            }
            i += 1;
        }
        false
    }

    /// Whether a fetch of `url` is allowed: only with `FetchAllowedHosts` granted and a host glob
    /// of `allowed_hosts` matching the URL's host (the whole text when it does not parse as a URL
    /// with a host).
    pub fn allows_fetch(&self, url: &str) -> (r: bool)
        ensures
            r == (self.capabilities@.contains(Capability::FetchAllowedHosts) && any_glob_host(
                self.allowed_hosts@,
                match url_host(url@) {
                    Some(h) => h,
                    None => url@,
                },
            )),
    {
        if !self.has_capability(Capability::FetchAllowedHosts) {
            return false;
        }
        match parsed_url_host(url) {
            Some(h) => any_host_matches(&self.allowed_hosts, h.as_str()),
            None => any_host_matches(&self.allowed_hosts, url),
        }
    }
}

/// Runtime profiles, one per name.
#[derive(Debug, Clone)]
pub struct JsRuntimeRegistry {
    specs: Vec<JsRuntimeSpec>,
}

impl View for JsRuntimeRegistry {
    type V = Seq<JsRuntimeSpec>;

    closed spec fn view(&self) -> Seq<JsRuntimeSpec> {
        self.specs@
    }
}

impl JsRuntimeRegistry {
    /// An empty registry.
    pub fn new() -> (r: Self)
        ensures
            r@ == Seq::<JsRuntimeSpec>::empty(),
    {
        JsRuntimeRegistry { specs: Vec::new() }
    }

    /// Adds `spec`, replacing any entry of the same name.
    pub fn insert(&mut self, spec: JsRuntimeSpec)
        ensures
            final(self)@ == upserted(old(self)@, spec),
    {
        upsert(&mut self.specs, spec);
    }

    /// Adds each spec in order.
    pub fn extend(&mut self, specs: Vec<JsRuntimeSpec>)
        ensures
            final(self)@ == upserted_all(old(self)@, specs@),
    {
        upsert_all(&mut self.specs, specs);
    }

    /// Number of entries.
    pub fn len(&self) -> (r: usize)
        ensures
            r == self@.len(),
    {
        self.specs.len()
    }

    /// No entry is registered.
    pub fn is_empty(&self) -> (r: bool)
        ensures
            r == (self@.len() == 0),
    {
        self.specs.len() == 0
    }

    /// The entries in order.
    pub fn specs(&self) -> (r: &[JsRuntimeSpec])
        ensures
            r@ == self@,
    {
        self.specs.as_slice()
    }

    /// The first entry named `name`.
    pub fn get(&self, name: &str) -> (r: Option<&JsRuntimeSpec>)
        ensures
            match index_of_key(self@, name@) {
                Some(i) => r == Some(&self@[i]),
                None => r.is_none(),
            },
    {
        match find_key(&self.specs, name) {
            Some(i) => {
                proof {
                    lemma_first_where_spec(self.specs@, crate::registry::key_equals::<JsRuntimeSpec>(name@));
                }
                Some(&self.specs[i])
            },
            None => None,
        }
    }
}

/// Errors an evaluator reports.
#[derive(Debug, Clone, PartialEq)]
pub enum EvalError {
    /// The source does not parse.
    Parse(String),
    /// The fuel budget ran out.
    OutOfFuel { limit: u64 },
    /// The memory cap was exceeded.
    OutOfMemory { limit_bytes: u64 },
    /// A host call outside the granted capabilities.
    PermissionDenied(Capability),
    /// A runtime error: division by zero, a type error, a host throw.
    Runtime(String),
    /// A construct this evaluator does not cover.
    Unsupported(String),
}

impl Capability {
    /// The variant's identifier, as `{:?}` prints it.
    pub open spec fn variant_name(self) -> Seq<char> {
        match self {
            Capability::DomRead => "DomRead"@,
            Capability::DomWrite => "DomWrite"@,
            Capability::StorageRead => "StorageRead"@,
            Capability::StorageWrite => "StorageWrite"@,
            Capability::FetchAllowedHosts => "FetchAllowedHosts"@,
            Capability::Notify => "Notify"@,
            Capability::ClipboardRead => "ClipboardRead"@,
            Capability::ClipboardWrite => "ClipboardWrite"@,
            Capability::Console => "Console"@,
        }
    }

    /// The variant's identifier.
    pub fn variant(&self) -> (r: &'static str)
        ensures
            r@ == self.variant_name(),
    {
        match self {
            Capability::DomRead => "DomRead",
            Capability::DomWrite => "DomWrite",
            Capability::StorageRead => "StorageRead",
            Capability::StorageWrite => "StorageWrite",
            Capability::FetchAllowedHosts => "FetchAllowedHosts",
            Capability::Notify => "Notify",
            Capability::ClipboardRead => "ClipboardRead",
            Capability::ClipboardWrite => "ClipboardWrite",
            Capability::Console => "Console",
        }
    }
}

impl EvalError {
    /// The error as text.
    pub open spec fn text(&self) -> Seq<char> {
        match self {
            EvalError::Parse(m) => "parse error: "@ + m@,
            EvalError::OutOfFuel { limit } => "out of fuel (limit "@ + decimal(*limit as nat) + ")"@,
            EvalError::OutOfMemory { limit_bytes } => "out of memory (limit "@ + decimal(*limit_bytes as nat) + ")"@,
            EvalError::PermissionDenied(c) => "permission denied: "@ + c.variant_name(),
            EvalError::Runtime(m) => "runtime error: "@ + m@,
            EvalError::Unsupported(m) => "unsupported: "@ + m@,
        }
    }

    /// The error as text.
    pub fn message(&self) -> (r: String)
        ensures
            r@ == self.text(),
    {
        match self {
            EvalError::Parse(m) => prefixed_text("parse error: ", m.as_str()),
            EvalError::OutOfFuel { limit } => bounded_text("out of fuel (limit ", *limit),
            EvalError::OutOfMemory { limit_bytes } => bounded_text("out of memory (limit ", *limit_bytes),
            EvalError::PermissionDenied(c) => prefixed_text("permission denied: ", c.variant()),
            EvalError::Runtime(m) => prefixed_text("runtime error: ", m.as_str()),
            EvalError::Unsupported(m) => prefixed_text("unsupported: ", m.as_str()),
        }
    }
}

/// `prefix` and then `s`.
fn prefixed_text(prefix: &str, s: &str) -> (r: String)
    ensures
        r@ == prefix@ + s@,
{
    let mut out = owned(prefix);
    push_str(&mut out, s);
    out
}

/// `prefix`, `n` in decimal, and a closing parenthesis.
fn bounded_text(prefix: &str, n: u64) -> (r: String)
    ensures
        r@ == prefix@ + decimal(n as nat) + ")"@,
{
    let mut cs = chars_of(prefix);
    let ghost start = cs@;
    push_decimal_u64(&mut cs, n);
    cs.push(')');
    proof {
        reveal_strlit(")");
    }
    assert(cs@ =~= start + decimal(n as nat) + ")"@);
    string_from_chars(cs.as_slice())
}

/// Appends `n` in decimal.
fn push_decimal_u64(out: &mut Vec<char>, n: u64)
    ensures
        final(out)@ == old(out)@ + decimal(n as nat),
    decreases n,
{
    if n >= 10 {
        push_decimal_u64(out, n / 10);
    }
    let d: u8 = (n % 10) as u8;
    out.push((48 + d) as char);
    assert(decimal(n as nat) == if n < 10 { seq![digit(n as nat)] } else { decimal((n / 10) as nat).push(digit((n % 10) as nat)) });
}

/// The minimal arithmetic-and-concatenation evaluator.
#[derive(Debug, Clone, Copy, PartialEq, Eq)]
pub struct MicroEval;

impl MicroEval {
    /// The engine's name in diagnostics.
    pub fn engine_name(&self) -> (r: &'static str)
        ensures
            r@ == "micro-eval"@,
    {
        "micro-eval"
    }
}

/// Charges one unit of fuel; fails once more than a non-zero limit has been used.
pub fn tick(fuel: &mut u64, spec: &JsRuntimeSpec) -> (r: Result<(), EvalError>)
    requires
        *old(fuel) < u64::MAX,
    ensures
        *final(fuel) == *old(fuel) + 1,
        r is Err <==> (spec.fuel_limit > 0 && *final(fuel) > spec.fuel_limit),
        r matches Err(e) ==> e == (EvalError::OutOfFuel { limit: spec.fuel_limit }),
{
    *fuel = *fuel + 1;
    if spec.fuel_limit > 0 && *fuel > spec.fuel_limit {
        return Err(EvalError::OutOfFuel { limit: spec.fuel_limit });
    }
    Ok(())
}

} // verus!
