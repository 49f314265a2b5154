//! `(defnetwork-throttle)` — DevTools-style throttling profiles: a preset or custom bandwidth
//! and latency, packet loss and timeouts, an offline switch, hosts exempt from all of it, scoped
//! to a host pattern. Percentages are held in hundredths of a percent (`250` for 2.5 %).
use vstd::prelude::*;

use crate::extension::glob::{any_glob_host, any_host_matches, host_field_matches, host_pattern_matches};
use crate::registry::{resolve_index, resolve_scoped, upsert, upsert_all, upserted, upserted_all, HostScoped, Named};
use crate::text::owned;

verus! {

/// The DevTools preset flavours.
#[derive(Debug, Clone, Copy, PartialEq, Eq, Structural)]
pub enum Preset {
    /// No throttling; the custom knobs are ignored.
    Unthrottled,
    /// Every request fails.
    Offline,
    /// 500 kbps both ways, 400 ms.
    Slow3G,
    /// 1.6 Mbps down, 750 kbps up, 150 ms.
    Fast3G,
    /// 4 Mbps down, 3 up, 20 ms.
    Regular4G,
    /// 8 Mbps down, 5 up, 20 ms.
    Good4G,
    /// 30 Mbps down, 15 up, 2 ms.
    Wifi,
    /// 5 Mbps down, 1 up, 28 ms.
    Cable,
    /// 1.5 Mbps down, 380 kbps up, 50 ms.
    Dsl,
    /// 50 kbps down, 30 up, 500 ms.
    DialUp,
    /// The profile's own values.
    Custom,
}

impl Default for Preset {
    fn default() -> (r: Self)
        ensures
            r == Preset::Unthrottled,
    {
        Preset::Unthrottled
    }
}

/// A throttling profile.
#[derive(Debug, Clone, PartialEq)]
pub struct NetworkThrottleSpec {
    pub name: String,
    /// Host pattern; `*` is every host.
    pub host: String,
    pub preset: Preset,
    /// Download cap in kbps; used by the custom preset only.
    pub download_kbps: u32,
    /// Upload cap in kbps; used by the custom preset only.
    pub upload_kbps: u32,
    /// Round-trip latency in ms; used by the custom preset only.
    pub latency_ms: u32,
    /// Packet loss in hundredths of a percent, clamped to `0 ..= 10000`; always honoured.
    pub packet_loss_hundredths: i32,
    /// Jitter in ms; always honoured.
    pub jitter_ms: u32,
    /// Blocks every request when set.
    pub offline: bool,
    /// Chance that a request times out, in hundredths of a percent, clamped to `0 ..= 10000`.
    pub timeout_hundredths: i32,
    /// Host globs never throttled.
    pub exempt_hosts: Vec<String>,
    pub enabled: bool,
    pub description: Option<String>,
}

impl Named for NetworkThrottleSpec {
    open spec fn key(&self) -> Seq<char> {
        self.name@
    }

    fn name_ref(&self) -> (r: &str) {
        self.name.as_str()
    }
}

impl HostScoped for NetworkThrottleSpec {
    open spec fn scope(&self) -> Seq<char> {
        self.host@
    }

    open spec fn active(&self) -> bool {
        self.enabled
    }

    fn scope_ref(&self) -> (r: &str) {
        self.host.as_str()
    }

    fn is_active(&self) -> (r: bool) {
        self.enabled
    }
}

/// Download, upload and latency after expanding the preset.
#[derive(Debug, Clone, Copy, PartialEq, Eq, Structural)]
pub struct Effective {
    pub download_kbps: u32,
    pub upload_kbps: u32,
    pub latency_ms: u32,
}

/// `v` clamped to `0 ..= 10000`.
pub open spec fn clamp_pct(v: i32) -> i32 {
    if v < 0 {
        0
    } else if v > 10000 {
        10000
    } else {
        v
    }
}

/// Profiles are enabled unless said otherwise.
pub fn default_enabled() -> (r: bool)
    ensures
        r,
{
    true
}

impl NetworkThrottleSpec {
    /// The numbers a preset stands for; the custom preset takes the profile's own.
    pub open spec fn expanded(&self) -> Effective {
        match self.preset {
            Preset::Unthrottled | Preset::Offline => Effective { download_kbps: 0, upload_kbps: 0, latency_ms: 0 },
            Preset::Slow3G => Effective { download_kbps: 500, upload_kbps: 500, latency_ms: 400 },
            Preset::Fast3G => Effective { download_kbps: 1_600, upload_kbps: 750, latency_ms: 150 },
            Preset::Regular4G => Effective { download_kbps: 4_000, upload_kbps: 3_000, latency_ms: 20 },
            Preset::Good4G => Effective { download_kbps: 8_000, upload_kbps: 5_000, latency_ms: 20 },
            Preset::Wifi => Effective { download_kbps: 30_000, upload_kbps: 15_000, latency_ms: 2 },
            Preset::Cable => Effective { download_kbps: 5_000, upload_kbps: 1_000, latency_ms: 28 },
            Preset::Dsl => Effective { download_kbps: 1_500, upload_kbps: 380, latency_ms: 50 },
            Preset::DialUp => Effective { download_kbps: 50, upload_kbps: 30, latency_ms: 500 },
            Preset::Custom => Effective {
                download_kbps: self.download_kbps,
                upload_kbps: self.upload_kbps,
                latency_ms: self.latency_ms,
            },
        }
    }

    /// A request to `host` goes through: the profile is off, the host is exempt, or neither the
    /// offline switch nor the offline preset is set.
    pub open spec fn admits_host(&self, host: Seq<char>) -> bool {
        !self.enabled || any_glob_host(self.exempt_hosts@, host) || !(self.offline || self.preset == Preset::Offline)
    }

    /// The profile that throttles nothing, for every host.
    pub fn default_profile() -> (r: Self)
        ensures
            r.name@ == "unthrottled"@,
            r.host@ == "*"@,
            r.preset == Preset::Unthrottled,
            r.download_kbps == 0 && r.upload_kbps == 0 && r.latency_ms == 0,
            r.packet_loss_hundredths == 0 && r.timeout_hundredths == 0,
            r.jitter_ms == 0,
            !r.offline,
            r.exempt_hosts@.len() == 0,
            r.enabled,
            r.description matches Some(d) && d@ == "Default — no throttling applied."@,
    {
        NetworkThrottleSpec {
            name: owned("unthrottled"),
            host: owned("*"),
            preset: Preset::Unthrottled,
            download_kbps: 0,
            upload_kbps: 0,
            latency_ms: 0,
            packet_loss_hundredths: 0,
            jitter_ms: 0,
            offline: false,
            timeout_hundredths: 0,
            exempt_hosts: Vec::new(),
            enabled: true,
            description: Some(owned("Default — no throttling applied.")),
        }
    }

    /// Whether the host pattern admits `host`.
    pub fn matches_host(&self, host: &str) -> (r: bool)
        ensures
            r == host_field_matches(self.host@, host@),
    {
        host_pattern_matches(self.host.as_str(), host)
    }

    /// Whether `host` is exempt from throttling.
    pub fn is_exempt(&self, host: &str) -> (r: bool)
        ensures
            r == any_glob_host(self.exempt_hosts@, host@),
    {
        any_host_matches(&self.exempt_hosts, host)
    }

    /// The preset expanded to download, upload and latency.
    pub fn effective(&self) -> (r: Effective)
        ensures
            r == self.expanded(),
    {
        match self.preset {
            Preset::Unthrottled | Preset::Offline => Effective { download_kbps: 0, upload_kbps: 0, latency_ms: 0 },
            Preset::Slow3G => Effective { download_kbps: 500, upload_kbps: 500, latency_ms: 400 },
            Preset::Fast3G => Effective { download_kbps: 1_600, upload_kbps: 750, latency_ms: 150 },
            Preset::Regular4G => Effective { download_kbps: 4_000, upload_kbps: 3_000, latency_ms: 20 },
            Preset::Good4G => Effective { download_kbps: 8_000, upload_kbps: 5_000, latency_ms: 20 },
            Preset::Wifi => Effective { download_kbps: 30_000, upload_kbps: 15_000, latency_ms: 2 },
            Preset::Cable => Effective { download_kbps: 5_000, upload_kbps: 1_000, latency_ms: 28 },
            Preset::Dsl => Effective { download_kbps: 1_500, upload_kbps: 380, latency_ms: 50 },
            Preset::DialUp => Effective { download_kbps: 50, upload_kbps: 30, latency_ms: 500 },
            Preset::Custom => Effective {
                download_kbps: self.download_kbps,
                upload_kbps: self.upload_kbps,
                latency_ms: self.latency_ms,
            },
        }
    }

    /// Whether a request to `host` goes through at all.
    pub fn admits(&self, host: &str) -> (r: bool)
        ensures
            r == self.admits_host(host@),
    {
        if !self.enabled {
            return true;
        }
        if self.is_exempt(host) {
            return true;
        }
        !(self.offline || self.preset == Preset::Offline)
    }

    /// Packet loss in force, in hundredths of a percent.
    pub fn clamped_packet_loss(&self) -> (r: i32)
        ensures
            r == clamp_pct(self.packet_loss_hundredths),
    {
        clamp_hundredths(self.packet_loss_hundredths)
    }

    /// Timeout chance in force, in hundredths of a percent.
    pub fn clamped_timeout(&self) -> (r: i32)
        ensures
            r == clamp_pct(self.timeout_hundredths),
    {
        clamp_hundredths(self.timeout_hundredths)
    }
}

fn clamp_hundredths(v: i32) -> (r: i32)
    ensures
        r == clamp_pct(v),
{
    if v < 0 {
        0
    } else if v > 10000 {
        10000
    } else {
        v
    }
}

/// Throttling profiles, one per name.
#[derive(Debug, Clone)]
pub struct NetworkThrottleRegistry {
    specs: Vec<NetworkThrottleSpec>,
}

impl View for NetworkThrottleRegistry {
    type V = Seq<NetworkThrottleSpec>;

    closed spec fn view(&self) -> Seq<NetworkThrottleSpec> {
        self.specs@
    }
}

impl NetworkThrottleRegistry {
    /// An empty registry.
    pub fn new() -> (r: Self)
        ensures
            r@ == Seq::<NetworkThrottleSpec>::empty(),
    {
        NetworkThrottleRegistry { specs: Vec::new() }
    }

    /// Adds `spec`, replacing any profile of the same name.
    pub fn insert(&mut self, spec: NetworkThrottleSpec)
        ensures
            final(self)@ == upserted(old(self)@, spec),
    {
        upsert(&mut self.specs, spec);
    }

    /// Adds each profile in order.
    pub fn extend(&mut self, specs: Vec<NetworkThrottleSpec>)
        ensures
            final(self)@ == upserted_all(old(self)@, specs@),
    {
        upsert_all(&mut self.specs, specs);
    }

    /// Number of profiles.
    pub fn len(&self) -> (r: usize)
        ensures
            r == self@.len(),
    {
        self.specs.len()
    }

    /// No profile is registered.
    pub fn is_empty(&self) -> (r: bool)
        ensures
            r == (self@.len() == 0),
    {
        self.specs.len() == 0
    }

    /// The profiles in order.
    pub fn specs(&self) -> (r: &[NetworkThrottleSpec])
        ensures
            r@ == self@,
    {
        self.specs.as_slice()
    }

    /// The profile for `host`: the first enabled one naming a specific pattern that admits it,
    /// else the first enabled one that admits it.
    pub fn resolve(&self, host: &str) -> (r: Option<&NetworkThrottleSpec>)
        ensures
            match resolve_scoped(self@, host@) {
                Some(i) => r == Some(&self@[i]),
                None => r.is_none(),
            },
    {
        match resolve_index(&self.specs, host) {
            Some(i) => Some(&self.specs[i]),
            None => None,
        }
    }
}

} // verus!
