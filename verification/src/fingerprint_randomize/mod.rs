//! `(deffingerprint-randomize)` — fingerprint randomization: the mode of each fingerprinting
//! surface, hosts exempt from it, profiles scoped to a host pattern, and the deterministic
//! generation of spoofed values from one session seed with SplitMix64. The same seed always gives
//! the same values; each surface draws from its own sub-stream. The noise intensity is held in
//! thousandths (`250` for 0.25).
use vstd::prelude::*;

use crate::extension::glob::{any_glob_host, any_host_matches, host_field_matches, host_pattern_matches};
use crate::registry::{resolve_index, resolve_scoped, upsert, upsert_all, upserted, upserted_all, HostScoped, Named};
use crate::text::{contains_str, contains_sub, is_prefix, owned, starts_with};

verus! {

/// How a fingerprinting surface is handled.
#[derive(Debug, Clone, Copy, PartialEq, Eq, Structural)]
pub enum FingerprintMode {
    /// Pass the API through.
    Allow,
    /// Add small, per-session deterministic noise.
    Noise,
    /// Report a canonical value every user shares.
    Generic,
    /// Block the API.
    Block,
    /// Ask the user.
    Prompt,
}

impl Default for FingerprintMode {
    fn default() -> (r: Self)
        ensures
            r == FingerprintMode::Allow,
    {
        FingerprintMode::Allow
    }
}

/// Font-fingerprint handling.
#[derive(Debug, Clone, Copy, PartialEq, Eq, Structural)]
pub enum FontMode {
    Allow,
    /// Only system fonts.
    SystemOnly,
    /// Randomize metric queries.
    RandomizeMetrics,
    /// Block font enumeration.
    Block,
}

impl Default for FontMode {
    fn default() -> (r: Self)
        ensures
            r == FontMode::Allow,
    {
        FontMode::Allow
    }
}

/// The user agent reported.
#[derive(Debug, Clone, Copy, PartialEq, Eq, Structural)]
pub enum UserAgentMode {
    Real,
    /// A common generic user agent.
    Generic,
    /// A new user agent each session.
    Randomize,
    /// The real one to listed hosts only.
    AllowList,
}

impl Default for UserAgentMode {
    fn default() -> (r: Self)
        ensures
            r == UserAgentMode::Real,
    {
        UserAgentMode::Real
    }
}

/// How long a noise value is kept.
#[derive(Debug, Clone, Copy, PartialEq, Eq, Structural)]
pub enum SessionScope {
    /// One value for the whole session.
    PerSession,
    /// One per host and session.
    PerHost,
    /// One per tab and session.
    PerTab,
    /// A fresh one on every call.
    PerCall,
}

impl Default for SessionScope {
    fn default() -> (r: Self)
        ensures
            r == SessionScope::PerHost,
    {
        SessionScope::PerHost
    }
}

// ─── SplitMix64 ──────────────────────────────────────────────────

/// The state after one step.
pub open spec fn next_state(s: u64) -> u64 {
    vstd::wrapping::u64_specs::wrapping_add(s, 0x9E37_79B9_7F4A_7C15)
}

/// The output mixed from a state.
pub open spec fn mix(z: u64) -> u64 {
    let a = vstd::wrapping::u64_specs::wrapping_mul(z ^ (z >> 30u64), 0xBF58_476D_1CE4_E5B9);
    let b = vstd::wrapping::u64_specs::wrapping_mul(a ^ (a >> 27u64), 0x94D0_49BB_1331_11EB);
    b ^ (b >> 31u64)
}

/// A small deterministic pseudo-random generator: the same seed gives the same stream.
#[derive(Debug, Clone, Copy)]
pub struct SplitMix64 {
    state: u64,
}

impl View for SplitMix64 {
    type V = u64;

    closed spec fn view(&self) -> u64 {
        self.state
    }
}

impl SplitMix64 {
    /// A generator seeded with `seed`; every seed is valid.
    pub fn new(seed: u64) -> (r: Self)
        ensures
            r@ == seed,
    {
        SplitMix64 { state: seed }
    }

    /// The next value of the stream.
    pub fn next_u64(&mut self) -> (r: u64)
        ensures
            final(self)@ == next_state(old(self)@),
            r == mix(final(self)@),
    {
        self.state = self.state.wrapping_add(0x9E37_79B9_7F4A_7C15);
        let mut z = self.state;
        z = (z ^ (z >> 30)).wrapping_mul(0xBF58_476D_1CE4_E5B9);
        z = (z ^ (z >> 27)).wrapping_mul(0x94D0_49BB_1331_11EB);
        z ^ (z >> 31)
    }

    /// A value below `n`: the next value modulo `n`; `0`, drawing nothing, when `n` is `0`.
    pub fn below(&mut self, n: u64) -> (r: u64)
        ensures
            n == 0 ==> r == 0 && final(self)@ == old(self)@,
            n > 0 ==> final(self)@ == next_state(old(self)@) && r == mix(final(self)@) % n && r < n,
    {
        if n == 0 {
            0
        } else {
            self.next_u64() % n
        }
    }

    /// An item of the non-empty `items`, at the index `below(len)` draws.
    pub fn pick<'a, T>(&mut self, items: &'a [T]) -> (r: &'a T)
        requires
            items@.len() > 0,
        ensures
            final(self)@ == next_state(old(self)@),
            *r == items@[(mix(final(self)@) % (items@.len() as u64)) as int],
    {
        let idx = self.below(items.len() as u64) as usize;
        &items[idx]
    }
}

// ─── spoofed values ──────────────────────────────────────────────

/// Spoofed fingerprint values for one session, all determined by the seed and the modes.
#[derive(Debug, Clone, PartialEq, Eq)]
pub struct SpoofedFingerprint {
    /// Canvas noise seed; `0` when the canvas is not noised.
    pub canvas_noise: u64,
    /// Audio noise seed; `0` when audio is not noised.
    pub audio_noise: u64,
    pub webgl_vendor: String,
    pub webgl_renderer: String,
    pub screen: Screen,
    pub hardware_concurrency: u32,
    pub device_memory_gb: u8,
    pub user_agent_data: UserAgentData,
}

/// Screen geometry; the available height leaves room for the OS chrome.
#[derive(Debug, Clone, Copy, PartialEq, Eq)]
pub struct Screen {
    pub width: u32,
    pub height: u32,
    pub avail_width: u32,
    pub avail_height: u32,
    pub color_depth: u8,
}

/// The simulated `navigator.userAgentData`.
#[derive(Debug, Clone, PartialEq, Eq)]
pub struct UserAgentData {
    pub chrome_major: u16,
    /// "Windows", "macOS" or "Linux".
    pub platform: String,
    pub mobile: bool,
}

/// Number of WebGL vendor/renderer pairs to draw from.
pub const WEBGL_POOL_LEN: u64 = 12;

/// The WebGL vendor/renderer pair at `i`, drawn from common desktop GPU stacks.
pub open spec fn webgl_pair(i: int) -> (&'static str, &'static str) {
    if i == 0 {
        ("Google Inc. (Intel)", "ANGLE (Intel, Intel(R) UHD Graphics 630 Direct3D11 vs_5_0 ps_5_0, D3D11)")
    } else if i == 1 {
        ("Google Inc. (Intel)", "ANGLE (Intel, Intel(R) Iris(R) Xe Graphics Direct3D11 vs_5_0 ps_5_0, D3D11)")
    } else if i == 2 {
        ("Google Inc. (NVIDIA)", "ANGLE (NVIDIA, NVIDIA GeForce RTX 3060 Direct3D11 vs_5_0 ps_5_0, D3D11)")
    } else if i == 3 {
        ("Google Inc. (NVIDIA)", "ANGLE (NVIDIA, NVIDIA GeForce GTX 1660 Direct3D11 vs_5_0 ps_5_0, D3D11)")
    } else if i == 4 {
        ("Google Inc. (AMD)", "ANGLE (AMD, AMD Radeon RX 6700 XT Direct3D11 vs_5_0 ps_5_0, D3D11)")
    } else if i == 5 {
        ("Google Inc. (AMD)", "ANGLE (AMD, AMD Radeon(TM) Graphics Direct3D11 vs_5_0 ps_5_0, D3D11)")
    } else if i == 6 {
        ("Apple", "Apple M1")
    } else if i == 7 {
        ("Apple", "Apple M2")
    } else if i == 8 {
        ("Apple", "Apple M3")
    } else if i == 9 {
        ("Intel Inc.", "Intel(R) Iris(TM) Plus Graphics 640")
    } else if i == 10 {
        ("Mozilla", "Mesa Intel(R) UHD Graphics (CML GT2)")
    } else {
        ("Mesa/X.org", "AMD Radeon Graphics (radeonsi, navi23, LLVM 15.0.7, DRM 3.49)")
    }
}

/// The pair at `i`.
fn webgl_pair_exec(i: u64) -> (r: (&'static str, &'static str))
    ensures
        r == webgl_pair(i as int),
{
    if i == 0 {
        ("Google Inc. (Intel)", "ANGLE (Intel, Intel(R) UHD Graphics 630 Direct3D11 vs_5_0 ps_5_0, D3D11)")
    } else if i == 1 {
        ("Google Inc. (Intel)", "ANGLE (Intel, Intel(R) Iris(R) Xe Graphics Direct3D11 vs_5_0 ps_5_0, D3D11)")
    } else if i == 2 {
        ("Google Inc. (NVIDIA)", "ANGLE (NVIDIA, NVIDIA GeForce RTX 3060 Direct3D11 vs_5_0 ps_5_0, D3D11)")
    } else if i == 3 {
        ("Google Inc. (NVIDIA)", "ANGLE (NVIDIA, NVIDIA GeForce GTX 1660 Direct3D11 vs_5_0 ps_5_0, D3D11)")
    } else if i == 4 {
        ("Google Inc. (AMD)", "ANGLE (AMD, AMD Radeon RX 6700 XT Direct3D11 vs_5_0 ps_5_0, D3D11)")
    } else if i == 5 {
        ("Google Inc. (AMD)", "ANGLE (AMD, AMD Radeon(TM) Graphics Direct3D11 vs_5_0 ps_5_0, D3D11)")
    } else if i == 6 {
        ("Apple", "Apple M1")
    } else if i == 7 {
        ("Apple", "Apple M2")
    } else if i == 8 {
        ("Apple", "Apple M3")
    } else if i == 9 {
        ("Intel Inc.", "Intel(R) Iris(TM) Plus Graphics 640")
    } else if i == 10 {
        ("Mozilla", "Mesa Intel(R) UHD Graphics (CML GT2)")
    } else {
        ("Mesa/X.org", "AMD Radeon Graphics (radeonsi, navi23, LLVM 15.0.7, DRM 3.49)")
    }
}

/// The popular screen geometries, width and height.
pub open spec fn screen_size(i: int) -> (u32, u32) {
    if i == 0 {
        (1920, 1080)
    } else if i == 1 {
        (1366, 768)
    } else if i == 2 {
        (1536, 864)
    } else if i == 3 {
        (1440, 900)
    } else if i == 4 {
        (1280, 720)
    } else if i == 5 {
        (2560, 1440)
    } else if i == 6 {
        (1680, 1050)
    } else if i == 7 {
        (1600, 900)
    } else {
        (3840, 2160)
    }
}

/// The geometry at `i`.
fn screen_size_exec(i: u64) -> (r: (u32, u32))
    ensures
        r == screen_size(i as int),
{
    if i == 0 {
        (1920, 1080)
    } else if i == 1 {
        (1366, 768)
    } else if i == 2 {
        (1536, 864)
    } else if i == 3 {
        (1440, 900)
    } else if i == 4 {
        (1280, 720)
    } else if i == 5 {
        (2560, 1440)
    } else if i == 6 {
        (1680, 1050)
    } else if i == 7 {
        (1600, 900)
    } else {
        (3840, 2160)
    }
}

/// Plausible logical core counts.
pub open spec fn concurrency_pool() -> Seq<u32> {
    seq![4u32, 6, 8, 12, 16]
}

/// Plausible device-memory buckets in GiB.
pub open spec fn memory_pool() -> Seq<u8> {
    seq![4u8, 8]
}

/// Recent stable Chrome major versions.
pub open spec fn chrome_majors() -> Seq<u16> {
    seq![122u16, 123, 124, 125, 126]
}

/// Heights of the OS chrome band.
pub open spec fn chrome_bands() -> Seq<u32> {
    seq![24u32, 32, 40]
}

/// The `userAgentData` platform consistent with a WebGL vendor.
pub open spec fn platform_of(vendor: Seq<char>) -> Seq<char> {
    if is_prefix("Apple"@, vendor) {
        "macOS"@
    } else if is_prefix("Mesa"@, vendor) || contains_sub(vendor, "X.org"@) {
        "Linux"@
    } else {
        "Windows"@
    }
}

/// The platform for a WebGL vendor.
pub fn platform_for_webgl(vendor: &str) -> (r: &'static str)
    ensures
        r@ == platform_of(vendor@),
{
    if starts_with(vendor, "Apple") {
        "macOS"
    } else if starts_with(vendor, "Mesa") || contains_str(vendor, "X.org") {
        "Linux"
    } else {
        "Windows"
    }
}

/// A surface produces a spoofed value in every mode but `Allow`.
pub fn produces_value(mode: FingerprintMode) -> (r: bool)
    ensures
        r == (mode != FingerprintMode::Allow),
{
    mode != FingerprintMode::Allow
}

/// The low `bits` bits of `raw`, with the lowest bit set so the seed is never zero.
pub open spec fn noise_of(raw: u64, bits: u32) -> u64 {
    if bits >= 64 {
        raw | 1
    } else {
        (raw & (((1u64 << bits) - 1) as u64)) | 1
    }
}

/// Masks a raw seed to `bits` low bits (all of them from 64 on) and sets bit 0.
pub fn noise_with_bits(raw: u64, bits: u32) -> (r: u64)
    ensures
        r == noise_of(raw, bits),
        r != 0,
{
    let mask: u64 = if bits >= 64 {
        u64::MAX
    } else {
        assert((1u64 << bits) >= 1) by (bit_vector)
            requires
                bits < 64,
        ;
        (1u64 << bits) - 1
    };
    let r = (raw & mask) | 1;
    assert(r != 0) by (bit_vector)
        requires
            r == (raw & mask) | 1,
    ;
    assert(bits >= 64 ==> (raw & mask) | 1 == raw | 1) by (bit_vector)
        requires
            bits >= 64 ==> mask == 0xffff_ffff_ffff_ffffu64,
    ;
    r
}

/// The seed of the sub-stream for `salt`.
pub open spec fn sub_seed(seed: u64, salt: u64) -> u64 {
    seed ^ vstd::wrapping::u64_specs::wrapping_mul(salt, 0x9E37_79B9_7F4A_7C15)
}

/// The sub-stream generator for `salt`.
fn sub_stream(seed: u64, salt: u64) -> (r: SplitMix64)
    ensures
        r@ == sub_seed(seed, salt),
{
    SplitMix64::new(seed ^ salt.wrapping_mul(0x9E37_79B9_7F4A_7C15))
}

/// The first value of the sub-stream for `salt`.
pub open spec fn first_of(seed: u64, salt: u64) -> u64 {
    mix(next_state(sub_seed(seed, salt)))
}

/// The second value of the sub-stream for `salt`.
pub open spec fn second_of(seed: u64, salt: u64) -> u64 {
    mix(next_state(next_state(sub_seed(seed, salt))))
}

/// The first value of the sub-stream for `salt`, reduced below `n`.
fn draw_below(seed: u64, salt: u64, n: u64) -> (r: u64)
    requires
        n > 0,
    ensures
        r == first_of(seed, salt) % n,
        r < n,
{
    let mut g = sub_stream(seed, salt);
    g.below(n)
}

/// Canvas or audio noise: the first value of the surface's sub-stream masked to `bits`, or `0`
/// when the surface is allowed through.
pub open spec fn surface_noise(seed: u64, salt: u64, mode: FingerprintMode, bits: u32) -> u64 {
    if mode != FingerprintMode::Allow {
        noise_of(first_of(seed, salt), bits)
    } else {
        0
    }
}

/// The noise seed of one surface.
fn draw_noise(seed: u64, salt: u64, mode: FingerprintMode, bits: u32) -> (r: u64)
    ensures
        r == surface_noise(seed, salt, mode, bits),
{
    if produces_value(mode) {
        let mut g = sub_stream(seed, salt);
        noise_with_bits(g.next_u64(), bits)
    } else {
        0
    }
}

/// The spoofed screen: a popular geometry, its height reduced by an OS chrome band, both drawn
/// from the fourth sub-stream.
pub open spec fn screen_of(seed: u64) -> Screen {
    let (w, h) = screen_size((first_of(seed, 4) % 9) as int);
    let band = chrome_bands()[(second_of(seed, 4) % 3) as int];
    Screen { width: w, height: h, avail_width: w, avail_height: if h >= band { (h - band) as u32 } else { 0 }, color_depth: 24 }
}

/// Draws the spoofed screen.
fn draw_screen(seed: u64) -> (r: Screen)
    ensures
        r == screen_of(seed),
{
    let mut g = sub_stream(seed, 4);
    let (w, h) = screen_size_exec(g.below(9));
    let bands: [u32; 3] = [24u32, 32, 40];
    let band_idx = g.below(3) as usize;
    let band = bands[band_idx];
    assert(band == chrome_bands()[band_idx as int]);
    Screen { width: w, height: h, avail_width: w, avail_height: h.saturating_sub(band), color_depth: 24 }
}

/// `r` is the spoofed value set for `seed`, given the canvas and audio modes and the noise width
/// in bits: noise for the surfaces not allowed through, and WebGL pair, screen, core count,
/// memory and Chrome version each drawn from its own sub-stream.
pub open spec fn generated(seed: u64, canvas: FingerprintMode, audio: FingerprintMode, noise_bits: u32, r: SpoofedFingerprint) -> bool {
    let webgl = webgl_pair((first_of(seed, 3) % 12) as int);
    &&& r.canvas_noise == surface_noise(seed, 1, canvas, noise_bits)
    &&& r.audio_noise == surface_noise(seed, 2, audio, noise_bits)
    &&& r.webgl_vendor@ == webgl.0@
    &&& r.webgl_renderer@ == webgl.1@
    &&& r.screen == screen_of(seed)
    &&& r.hardware_concurrency == concurrency_pool()[(first_of(seed, 5) % 5) as int]
    &&& r.device_memory_gb == memory_pool()[(first_of(seed, 6) % 2) as int]
    &&& r.user_agent_data.chrome_major == chrome_majors()[(first_of(seed, 7) % 5) as int]
    &&& r.user_agent_data.platform@ == platform_of(webgl.0@)
    &&& !r.user_agent_data.mobile
}

/// Generates the spoofed values for `seed`, given the canvas and audio modes and the noise width
/// in bits.
pub fn generate_values(seed: u64, canvas: FingerprintMode, audio: FingerprintMode, noise_bits: u32) -> (r: SpoofedFingerprint)
    ensures
        generated(seed, canvas, audio, noise_bits, r),
{
    let canvas_noise = draw_noise(seed, 1, canvas, noise_bits);
    let audio_noise = draw_noise(seed, 2, audio, noise_bits);
    let (vendor, renderer) = webgl_pair_exec(draw_below(seed, 3, 12));
    let platform = platform_for_webgl(vendor);
    let screen = draw_screen(seed);
    let cores: [u32; 5] = [4u32, 6, 8, 12, 16];
    let ci = draw_below(seed, 5, 5) as usize;
    let hardware_concurrency = cores[ci];
    assert(hardware_concurrency == concurrency_pool()[ci as int]);
    let mems: [u8; 2] = [4u8, 8];
    let mi = draw_below(seed, 6, 2) as usize;
    let device_memory_gb = mems[mi];
    assert(device_memory_gb == memory_pool()[mi as int]);
    let majors: [u16; 5] = [122u16, 123, 124, 125, 126];
    let ki = draw_below(seed, 7, 5) as usize;
    let chrome_major = majors[ki];
    assert(chrome_major == chrome_majors()[ki as int]);
    SpoofedFingerprint {
        canvas_noise,
        audio_noise,
        webgl_vendor: owned(vendor),
        webgl_renderer: owned(renderer),
        screen,
        hardware_concurrency,
        device_memory_gb,
        user_agent_data: UserAgentData { chrome_major, platform: owned(platform), mobile: false },
    }
}

// ─── profiles ────────────────────────────────────────────────────

/// A fingerprint-randomization profile.
#[derive(Debug, Clone, PartialEq)]
pub struct FingerprintRandomizeSpec {
    pub name: String,
    /// Host pattern; `*` is every host.
    pub host: String,
    pub canvas: FingerprintMode,
    pub webgl: FingerprintMode,
    pub audio: FingerprintMode,
    pub client_rects: FingerprintMode,
    /// Pointer and hover media queries.
    pub pointer_hover: FingerprintMode,
    /// Color-scheme and reduced-motion preferences.
    pub prefers_media: FingerprintMode,
    /// The resolved `Intl` locale.
    pub locale: FingerprintMode,
    /// Core count, memory and platform.
    pub navigator_info: FingerprintMode,
    pub fonts: FontMode,
    pub user_agent: UserAgentMode,
    pub session_scope: SessionScope,
    /// Noise intensity in thousandths, clamped to `0 ..= 1000`; higher breaks more sites.
    pub intensity_permille: i32,
    /// Host globs left alone.
    pub exempt_hosts: Vec<String>,
    pub enabled: bool,
    pub description: Option<String>,
}

impl Named for FingerprintRandomizeSpec {
    open spec fn key(&self) -> Seq<char> {
        self.name@
    }

    fn name_ref(&self) -> (r: &str) {
        self.name.as_str()
    }
}

impl HostScoped for FingerprintRandomizeSpec {
    open spec fn scope(&self) -> Seq<char> {
        self.host@
    }

    open spec fn active(&self) -> bool {
        self.enabled
    }

    fn scope_ref(&self) -> (r: &str) {
        self.host.as_str()
    }

    fn is_active(&self) -> (r: bool) {
        self.enabled
    }
}

/// The intensity used when none is given, in thousandths.
pub fn default_intensity_permille() -> (r: i32)
    ensures
        r == 250,
{
    250
}

/// Profiles are enabled unless said otherwise.
pub fn default_enabled() -> (r: bool)
    ensures
        r,
{
    true
}

/// `v` clamped to `0 ..= 1000`.
pub open spec fn clamp_permille(v: i32) -> i32 {
    if v < 0 {
        0
    } else if v > 1000 {
        1000
    } else {
        v
    }
}

/// The noise width for an intensity: from 8 bits at 0 up to 64 bits at 1000, rounding down.
pub open spec fn noise_bits_of(intensity_permille: i32) -> u32 {
    (8 + clamp_permille(intensity_permille) * 56 / 1000) as u32
}

impl FingerprintRandomizeSpec {
    /// A surface's mode on `host`: `Allow` on exempt hosts, else the declared one.
    pub open spec fn mode_on(&self, declared: FingerprintMode, host: Seq<char>) -> FingerprintMode {
        if any_glob_host(self.exempt_hosts@, host) {
            FingerprintMode::Allow
        } else {
            declared
        }
    }

    /// Noise on canvas, WebGL and audio, metric font randomization, one value per host.
    pub fn default_profile() -> (r: Self)
        ensures
            r.name@ == "default"@,
            r.host@ == "*"@,
            r.canvas == FingerprintMode::Noise,
            r.webgl == FingerprintMode::Noise,
            r.audio == FingerprintMode::Noise,
            r.client_rects == FingerprintMode::Allow,
            r.pointer_hover == FingerprintMode::Allow,
            r.prefers_media == FingerprintMode::Allow,
            r.locale == FingerprintMode::Allow,
            r.navigator_info == FingerprintMode::Generic,
            r.fonts == FontMode::RandomizeMetrics,
            r.user_agent == UserAgentMode::Real,
            r.session_scope == SessionScope::PerHost,
            r.intensity_permille == 250,
            r.exempt_hosts@.len() == 0,
            r.enabled,
            r.description matches Some(d) && d@
                == "Default farbling — Brave-style noise on canvas/webgl/audio, metric font randomization, per-host session scope."@,
    {
        FingerprintRandomizeSpec {
            name: owned("default"),
            host: owned("*"),
            canvas: FingerprintMode::Noise,
            webgl: FingerprintMode::Noise,
            audio: FingerprintMode::Noise,
            client_rects: FingerprintMode::Allow,
            pointer_hover: FingerprintMode::Allow,
            prefers_media: FingerprintMode::Allow,
            locale: FingerprintMode::Allow,
            navigator_info: FingerprintMode::Generic,
            fonts: FontMode::RandomizeMetrics,
            user_agent: UserAgentMode::Real,
            session_scope: SessionScope::PerHost,
            intensity_permille: 250,
            exempt_hosts: Vec::new(),
            enabled: true,
            description: Some(
                owned(
                    "Default farbling — Brave-style noise on canvas/webgl/audio, metric font randomization, per-host session scope.",
                ),
            ),
        }
    }

    /// Whether the host pattern admits `host`.
    pub fn matches_host(&self, host: &str) -> (r: bool)
        ensures
            r == host_field_matches(self.host@, host@),
    {
        host_pattern_matches(self.host.as_str(), host)
    }

    /// Whether `host` is exempt.
    pub fn is_exempt(&self, host: &str) -> (r: bool)
        ensures
            r == any_glob_host(self.exempt_hosts@, host@),
    {
        any_host_matches(&self.exempt_hosts, host)
    }

    /// Intensity in force, in thousandths: clamped to `0 ..= 1000`.
    pub fn clamped_intensity(&self) -> (r: i32)
        ensures
            r == clamp_permille(self.intensity_permille),
    {
        if self.intensity_permille < 0 {
            0
        } else if self.intensity_permille > 1000 {
            1000
        } else {
            self.intensity_permille
        }
    }

    /// The canvas mode on `host`.
    pub fn canvas_for(&self, host: &str) -> (r: FingerprintMode)
        ensures
            r == self.mode_on(self.canvas, host@),
    {
        if self.is_exempt(host) {
            FingerprintMode::Allow
        } else {
            self.canvas
        }
    }

    /// The WebGL mode on `host`.
    pub fn webgl_for(&self, host: &str) -> (r: FingerprintMode)
        ensures
            r == self.mode_on(self.webgl, host@),
    {
        if self.is_exempt(host) {
            FingerprintMode::Allow
        } else {
            self.webgl
        }
    }

    /// The audio mode on `host`.
    pub fn audio_for(&self, host: &str) -> (r: FingerprintMode)
        ensures
            r == self.mode_on(self.audio, host@),
    {
        if self.is_exempt(host) {
            FingerprintMode::Allow
        } else {
            self.audio
        }
    }
}

/// The noise width for the profile's intensity.
pub fn noise_bits(intensity_permille: i32) -> (r: u32)
    ensures
        r == noise_bits_of(intensity_permille),
        8 <= r <= 64,
{
    let p: i32 = if intensity_permille < 0 {
        0
    } else if intensity_permille > 1000 {
        1000
    } else {
        intensity_permille
    };
    assert(0 <= p * 56 / 1000 <= 56) by (nonlinear_arith)
        requires
            0 <= p <= 1000,
    ;
    (8 + p * 56 / 1000) as u32
}

/// The spoofed values for session `seed` under `spec`: canvas and audio noise as their modes say,
/// with a noise width from the clamped intensity.
pub fn generate(seed: u64, spec: &FingerprintRandomizeSpec) -> (r: SpoofedFingerprint)
    ensures
        generated(seed, spec.canvas, spec.audio, noise_bits_of(spec.intensity_permille), r),
{
    let bits = noise_bits(spec.intensity_permille);
    generate_values(seed, spec.canvas, spec.audio, bits)
}

/// Fingerprint profiles, one per name.
#[derive(Debug, Clone)]
pub struct FingerprintRandomizeRegistry {
    specs: Vec<FingerprintRandomizeSpec>,
}

impl View for FingerprintRandomizeRegistry {
    type V = Seq<FingerprintRandomizeSpec>;

    closed spec fn view(&self) -> Seq<FingerprintRandomizeSpec> {
        self.specs@
    }
}

impl FingerprintRandomizeRegistry {
    /// An empty registry.
    pub fn new() -> (r: Self)
        ensures
            r@ == Seq::<FingerprintRandomizeSpec>::empty(),
    {
        FingerprintRandomizeRegistry { specs: Vec::new() }
    }

    /// Adds `spec`, replacing any profile of the same name.
    pub fn insert(&mut self, spec: FingerprintRandomizeSpec)
        ensures
            final(self)@ == upserted(old(self)@, spec),
    {
        upsert(&mut self.specs, spec);
    }

    /// Adds each profile in order.
    pub fn extend(&mut self, specs: Vec<FingerprintRandomizeSpec>)
        ensures
            final(self)@ == upserted_all(old(self)@, specs@),
    {
        upsert_all(&mut self.specs, specs);
    }

    /// Number of profiles.
    pub fn len(&self) -> (r: usize)
        ensures
            r == self@.len(),
    {
        self.specs.len()
    }

    /// No profile is registered.
    pub fn is_empty(&self) -> (r: bool)
        ensures
            r == (self@.len() == 0),
    {
        self.specs.len() == 0
    }

    /// The profiles in order.
    pub fn specs(&self) -> (r: &[FingerprintRandomizeSpec])
        ensures
            r@ == self@,
    {
        self.specs.as_slice()
    }

    /// The profile for `host`: the first enabled one naming a specific pattern that admits it,
    /// else the first enabled one that admits it.
    pub fn resolve(&self, host: &str) -> (r: Option<&FingerprintRandomizeSpec>)
        ensures
            match resolve_scoped(self@, host@) {
                Some(i) => r == Some(&self@[i]),
                None => r.is_none(),
            },
    {
        match resolve_index(&self.specs, host) {
            Some(i) => Some(&self.specs[i]),
            None => None,
        }
    }
}

} // verus!
