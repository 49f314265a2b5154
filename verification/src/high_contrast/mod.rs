//! `(defhigh-contrast)` — high-contrast profiles: a minimum contrast ratio (held in hundredths,
//! `450` for 4.5:1), a forced color scheme, color overrides and focus rings, scoped to a host
//! pattern; and the parsing of the hex colors that profiles name.
use vstd::prelude::*;

use crate::extension::glob::{host_field_matches, host_pattern_matches};
use crate::registry::{resolve_index, resolve_scoped, upsert, upsert_all, upserted, upserted_all, HostScoped, Named};
use crate::text::{chars_of, owned, slice_chars, trim, trim_chars};

verus! {

/// WCAG conformance level.
#[derive(Debug, Clone, Copy, PartialEq, Eq, Structural)]
pub enum WcagLevel {
    /// 4.5:1 for normal text, 3:1 for large text.
    Aa,
    /// 7:1 for normal text, 4.5:1 for large text.
    Aaa,
}

/// A color scheme forced on the page.
#[derive(Debug, Clone, Copy, PartialEq, Eq, Structural)]
pub enum SchemeOverride {
    /// Keep the site's scheme.
    Auto,
    /// Force light.
    Light,
    /// Force dark.
    Dark,
    /// Invert every color.
    Invert,
    /// The user's foreground and background everywhere.
    Custom,
}

impl Default for SchemeOverride {
    fn default() -> (r: Self)
        ensures
            r == SchemeOverride::Auto,
    {
        SchemeOverride::Auto
    }
}

// ─── hex colors ──────────────────────────────────────────────────

/// `s` without its leading `#` characters.
pub open spec fn strip_hashes(s: Seq<char>) -> Seq<char>
    decreases s.len(),
{
    if s.len() > 0 && s[0] == '#' {
        strip_hashes(s.drop_first())
    } else {
        s
    }
}

/// Bytes of `c` in UTF-8.
pub open spec fn char_width(c: char) -> nat {
    let n = c as u32;
    if n < 0x80 {
        1
    } else if n < 0x800 {
        2
    } else if n < 0x10000 {
        3
    } else {
        4
    }
}

/// Bytes of `s` in UTF-8.
pub open spec fn byte_len(s: Seq<char>) -> nat
    decreases s.len(),
{
    if s.len() == 0 {
        0
    } else {
        byte_len(s.drop_last()) + char_width(s.last())
    }
}

/// A hexadecimal digit.
pub open spec fn is_hex(c: char) -> bool {
    ('0' <= c <= '9') || ('a' <= c <= 'f') || ('A' <= c <= 'F')
}

/// The value of a hexadecimal digit.
pub open spec fn hex_val(c: char) -> nat {
    if '0' <= c <= '9' {
        (c as nat - 48) as nat
    } else if 'a' <= c <= 'f' {
        (c as nat - 87) as nat
    } else {
        (c as nat - 55) as nat
    }
}

/// What `u8::from_str_radix(_, 16)` gives for the two characters `a` and `b`: two digits, or a
/// `+` sign and one digit.
pub open spec fn byte_pair(a: char, b: char) -> Option<u8> {
    if is_hex(a) && is_hex(b) {
        Some((16 * hex_val(a) + hex_val(b)) as u8)
    } else if a == '+' && is_hex(b) {
        Some(hex_val(b) as u8)
    } else {
        None
    }
}

/// The color text after trimming and dropping leading `#`s.
pub open spec fn hex_body(input: Seq<char>) -> Seq<char> {
    strip_hashes(trim(input))
}

/// The color a hex string names: `rgb`/`rgba` with each digit doubled, or `rrggbb`/`rrggbbaa`
/// with the alpha dropped, by the UTF-8 length of the body; nothing otherwise.
pub open spec fn hex_color(input: Seq<char>) -> Option<(u8, u8, u8)> {
    let s = hex_body(input);
    let b = byte_len(s);
    if (b == 3 || b == 4) && s.len() >= 3 {
        if is_hex(s[0]) && is_hex(s[1]) && is_hex(s[2]) {
            Some(((17 * hex_val(s[0])) as u8, (17 * hex_val(s[1])) as u8, (17 * hex_val(s[2])) as u8))
        } else {
            None
        }
    } else if (b == 6 || b == 8) && s.len() >= 6 {
        match (byte_pair(s[0], s[1]), byte_pair(s[2], s[3]), byte_pair(s[4], s[5])) {
            (Some(r), Some(g), Some(bl)) => Some((r, g, bl)),
            _ => None,
        }
    } else {
        None
    }
}

/// Whether `c` is a hexadecimal digit.
pub(crate) fn is_hex_exec(c: char) -> (r: bool)
    ensures
        r == is_hex(c),
{
    ('0' <= c && c <= '9') || ('a' <= c && c <= 'f') || ('A' <= c && c <= 'F')
}

/// The value of the hexadecimal digit `c`.
pub(crate) fn hex_val_exec(c: char) -> (r: u8)
    requires
        is_hex(c),
    ensures
        r == hex_val(c),
        r < 16,
{
    let n = c as u32;
    if '0' <= c && c <= '9' {
        (n - 48) as u8
    } else if 'a' <= c && c <= 'f' {
        (n - 87) as u8
    } else {
        (n - 55) as u8
    }
}

/// `byte_pair` on characters.
fn byte_pair_exec(a: char, b: char) -> (r: Option<u8>)
    ensures
        r == byte_pair(a, b),
{
    if is_hex_exec(a) && is_hex_exec(b) {
        Some(16 * hex_val_exec(a) + hex_val_exec(b))
    } else if a == '+' && is_hex_exec(b) {
        Some(hex_val_exec(b))
    } else {
        None
    }
}

/// Bytes of `c` in UTF-8.
fn char_width_exec(c: char) -> (r: u64)
    ensures
        r == char_width(c),
{
    let n = c as u32;
    if n < 0x80 {
        1
    } else if n < 0x800 {
        2
    } else if n < 0x10000 {
        3
    } else {
        4
    }
}

/// `byte_len(s)` when it is at most 8, and 9 when it is more.
fn capped_byte_len(s: &[char]) -> (r: u64)
    ensures
        r == if byte_len(s@) <= 8 {
            byte_len(s@)
        } else {
            9
        },
{
    let mut acc: u64 = 0;
    let mut i: usize = 0;
    while i < s.len()
        invariant
            i <= s@.len(),
            acc == byte_len(s@.take(i as int)),
            acc <= 8,
        decreases s@.len() - i,
    {
        let w = char_width_exec(s[i]);
        assert(s@.take(i + 1).drop_last() =~= s@.take(i as int));
        if acc + w > 8 {
            proof {
                lemma_byte_len_prefix(s@, i + 1);
            }
            return 9;
        }
        acc = acc + w;
        i += 1;
    }
    assert(s@.take(s@.len() as int) =~= s@);
    acc
}

/// A prefix is no longer in bytes than the whole.
proof fn lemma_byte_len_prefix(s: Seq<char>, j: int)
    requires
        0 <= j <= s.len(),
    ensures
        byte_len(s.take(j)) <= byte_len(s),
    decreases s.len() - j,
{
    if j < s.len() {
        lemma_byte_len_prefix(s, j + 1);
        assert(s.take(j + 1).drop_last() =~= s.take(j));
    } else {
        assert(s.take(j) =~= s);
    }
}

/// Parses `#rgb`, `#rgba`, `#rrggbb` or `#rrggbbaa` (surrounding whitespace and any number of
/// leading `#` allowed) into red, green and blue.
pub fn parse_hex(input: &str) -> (r: Option<[u8; 3]>)
    ensures
        match hex_color(input@) {
            Some((red, green, blue)) => r matches Some(c) && c@ == seq![red, green, blue],
            None => r is None,
        },
{
    let cs = chars_of(input);
    let t = trim_chars(cs.as_slice());
    let mut k: usize = 0;
    assert(t@.skip(0) =~= t@);
    while k < t.len() && t[k] == '#'
        invariant
            k <= t@.len(),
            strip_hashes(t@) == strip_hashes(t@.skip(k as int)),
        decreases t@.len() - k,
    {
        assert(t@.skip(k as int).drop_first() =~= t@.skip(k + 1));
        k += 1;
    }
    let s = slice_chars(t.as_slice(), k, t.len());
    assert(s@ =~= t@.skip(k as int));
    assert(strip_hashes(s@) == s@);
    assert(s@ == hex_body(input@));
    let b = capped_byte_len(s.as_slice());
    if (b == 3 || b == 4) && s.len() >= 3 {
        if is_hex_exec(s[0]) && is_hex_exec(s[1]) && is_hex_exec(s[2]) {
            let red = 17 * hex_val_exec(s[0]);
            let green = 17 * hex_val_exec(s[1]);
            let blue = 17 * hex_val_exec(s[2]);
            let c: [u8; 3] = [red, green, blue];
            assert(c@ =~= seq![red, green, blue]);
            Some(c)
        } else {
            None
        }
    } else if (b == 6 || b == 8) && s.len() >= 6 {
        match (byte_pair_exec(s[0], s[1]), byte_pair_exec(s[2], s[3]), byte_pair_exec(s[4], s[5])) {
            (Some(red), Some(green), Some(blue)) => {
                let c: [u8; 3] = [red, green, blue];
                assert(c@ =~= seq![red, green, blue]);
                Some(c)
            },
            _ => None,
        }
    } else {
        None
    }
}

// ─── profiles ────────────────────────────────────────────────────

/// Lowest contrast ratio, in hundredths (1:1).
pub const MIN_CONTRAST: i32 = 100;

/// Highest contrast ratio, in hundredths (21:1, black on white).
pub const MAX_CONTRAST: i32 = 2100;

/// Thickest focus ring, in CSS pixels.
pub const MAX_FOCUS_RING: u32 = 10;

/// A high-contrast profile.
#[derive(Debug, Clone, PartialEq)]
pub struct HighContrastSpec {
    pub name: String,
    /// Host pattern; `*` is every host.
    pub host: String,
    /// Minimum contrast ratio to enforce, in hundredths; clamped to `100 ..= 2100`.
    pub min_ratio_hundredths: i32,
    pub force_scheme: SchemeOverride,
    /// Foreground override; none keeps the scheme's.
    pub foreground: Option<String>,
    /// Background override.
    pub background: Option<String>,
    /// Link color override.
    pub link: Option<String>,
    /// Visited-link color override.
    pub link_visited: Option<String>,
    /// Bolder, underlined links.
    pub link_boost: bool,
    /// Focus-ring thickness in CSS pixels; clamped to `0 ..= 10`.
    pub focus_ring_px: u32,
    /// Focus-ring color; none is the foreground.
    pub focus_ring_color: Option<String>,
    pub enabled: bool,
    pub description: Option<String>,
}

impl Named for HighContrastSpec {
    open spec fn key(&self) -> Seq<char> {
        self.name@
    }

    fn name_ref(&self) -> (r: &str) {
        self.name.as_str()
    }
}

impl HostScoped for HighContrastSpec {
    open spec fn scope(&self) -> Seq<char> {
        self.host@
    }

    open spec fn active(&self) -> bool {
        self.enabled
    }

    fn scope_ref(&self) -> (r: &str) {
        self.host.as_str()
    }

    fn is_active(&self) -> (r: bool) {
        self.enabled
    }
}

/// The host pattern used when none is given.
pub fn default_host() -> (r: String)
    ensures
        r@ == "*"@,
{
    owned("*")
}

/// The minimum ratio used when none is given, in hundredths (4.5:1).
pub fn default_min_ratio_hundredths() -> (r: i32)
    ensures
        r == 450,
{
    450
}

/// Links are boosted unless said otherwise.
pub fn default_link_boost() -> (r: bool)
    ensures
        r,
{
    true
}

/// The focus ring used when none is given.
pub fn default_focus_ring_px() -> (r: u32)
    ensures
        r == 3,
{
    3
}

/// Profiles are enabled unless said otherwise.
pub fn default_enabled() -> (r: bool)
    ensures
        r,
{
    true
}

/// `v` as a color override.
pub open spec fn colour_is(c: Option<String>, v: Seq<char>) -> bool {
    match c {
        Some(x) => x@ == v,
        None => false,
    }
}

impl HighContrastSpec {
    /// WCAG AA enforcement everywhere, keeping the site's scheme.
    pub fn default_aa() -> (r: Self)
        ensures
            r.name@ == "aa"@,
            r.host@ == "*"@,
            r.min_ratio_hundredths == 450,
            r.force_scheme == SchemeOverride::Auto,
            r.foreground is None && r.background is None,
            r.link is None && r.link_visited is None,
            r.link_boost,
            r.focus_ring_px == 3,
            r.focus_ring_color is None,
            r.enabled,
            colour_is(r.description, "Default WCAG AA contrast enforcement."@),
    {
        HighContrastSpec {
            name: owned("aa"),
            host: owned("*"),
            min_ratio_hundredths: 450,
            force_scheme: SchemeOverride::Auto,
            foreground: None,
            background: None,
            link: None,
            link_visited: None,
            link_boost: true,
            focus_ring_px: 3,
            focus_ring_color: None,
            enabled: true,
            description: Some(owned("Default WCAG AA contrast enforcement.")),
        }
    }

    /// WCAG AAA in a dark palette.
    pub fn default_aaa_night() -> (r: Self)
        ensures
            r.name@ == "aaa-night"@,
            r.host@ == "*"@,
            r.min_ratio_hundredths == 700,
            r.force_scheme == SchemeOverride::Dark,
            colour_is(r.foreground, "#f8f8f2"@),
            colour_is(r.background, "#1e1e2e"@),
            colour_is(r.link, "#89b4fa"@),
            colour_is(r.link_visited, "#cba6f7"@),
            r.link_boost,
            r.focus_ring_px == 4,
            colour_is(r.focus_ring_color, "#f9e2af"@),
            r.enabled,
            colour_is(r.description, "AAA night-mode — catppuccin-flavored dark."@),
    {
        HighContrastSpec {
            name: owned("aaa-night"),
            host: owned("*"),
            min_ratio_hundredths: 700,
            force_scheme: SchemeOverride::Dark,
            foreground: Some(owned("#f8f8f2")),
            background: Some(owned("#1e1e2e")),
            link: Some(owned("#89b4fa")),
            link_visited: Some(owned("#cba6f7")),
            link_boost: true,
            focus_ring_px: 4,
            focus_ring_color: Some(owned("#f9e2af")),
            enabled: true,
            description: Some(owned("AAA night-mode — catppuccin-flavored dark.")),
        }
    }

    /// AAA from a 7:1 minimum up, else AA.
    pub fn wcag_level(&self) -> (r: WcagLevel)
        ensures
            r == (if self.min_ratio_hundredths >= 700 {
                WcagLevel::Aaa
            } else {
                WcagLevel::Aa
            }),
    {
        if self.min_ratio_hundredths >= 700 {
            WcagLevel::Aaa
        } else {
            WcagLevel::Aa
        }
    }

    /// The minimum ratio in force, in hundredths: clamped to `100 ..= 2100`.
    pub fn clamped_ratio(&self) -> (r: i32)
        ensures
            r == (if self.min_ratio_hundredths < MIN_CONTRAST {
                MIN_CONTRAST
            } else if self.min_ratio_hundredths > MAX_CONTRAST {
                MAX_CONTRAST
            } else {
                self.min_ratio_hundredths
            }),
    {
        if self.min_ratio_hundredths < MIN_CONTRAST {
            MIN_CONTRAST
        } else if self.min_ratio_hundredths > MAX_CONTRAST {
            MAX_CONTRAST
        } else {
            self.min_ratio_hundredths
        }
    }

    /// The focus ring in force: at most ten pixels.
    pub fn clamped_focus_ring(&self) -> (r: u32)
        ensures
            r == (if self.focus_ring_px > MAX_FOCUS_RING {
                MAX_FOCUS_RING
            } else {
                self.focus_ring_px
            }),
    {
        if self.focus_ring_px > MAX_FOCUS_RING {
            MAX_FOCUS_RING
        } else {
            self.focus_ring_px
        }
    }

    /// Whether the host pattern admits `host`.
    pub fn matches_host(&self, host: &str) -> (r: bool)
        ensures
            r == host_field_matches(self.host@, host@),
    {
        host_pattern_matches(self.host.as_str(), host)
    }
}

/// High-contrast profiles, one per name.
#[derive(Debug, Clone)]
pub struct HighContrastRegistry {
    specs: Vec<HighContrastSpec>,
}

impl View for HighContrastRegistry {
    type V = Seq<HighContrastSpec>;

    closed spec fn view(&self) -> Seq<HighContrastSpec> {
        self.specs@
    }
}

impl HighContrastRegistry {
    /// An empty registry.
    pub fn new() -> (r: Self)
        ensures
            r@ == Seq::<HighContrastSpec>::empty(),
    {
        HighContrastRegistry { specs: Vec::new() }
    }

    /// Adds `spec`, replacing any profile of the same name.
    pub fn insert(&mut self, spec: HighContrastSpec)
        ensures
            final(self)@ == upserted(old(self)@, spec),
    {
        upsert(&mut self.specs, spec);
    }

    /// Adds each profile in order.
    pub fn extend(&mut self, specs: Vec<HighContrastSpec>)
        ensures
            final(self)@ == upserted_all(old(self)@, specs@),
    {
        upsert_all(&mut self.specs, specs);
    }

    /// Number of profiles.
    pub fn len(&self) -> (r: usize)
        ensures
            r == self@.len(),
    {
        self.specs.len()
    }

    /// No profile is registered.
    pub fn is_empty(&self) -> (r: bool)
        ensures
            r == (self@.len() == 0),
    {
        self.specs.len() == 0
    }

    /// The profiles in order.
    pub fn specs(&self) -> (r: &[HighContrastSpec])
        ensures
            r@ == self@,
    {
        self.specs.as_slice()
    }

    /// The profile for `host`: the first enabled one naming a specific pattern that admits it,
    /// else the first enabled one that admits it.
    pub fn resolve(&self, host: &str) -> (r: Option<&HighContrastSpec>)
        ensures
            match resolve_scoped(self@, host@) {
                Some(i) => r == Some(&self@[i]),
                None => r.is_none(),
            },
    {
        match resolve_index(&self.specs, host) {
            Some(i) => Some(&self.specs[i]),
            None => None,
        }
    }
}


proof fn lemma_hex_ascii(c: char)
    requires
        is_hex(c),
    ensures
        char_width(c) == 1,
        c != '#',
        !crate::text::is_ws(c),
        hex_val(c) < 16,
{
}

/// Six hex digits after `#` name the three bytes they spell, two digits to a byte, the first
/// digit of each pair the high nibble.
pub proof fn law_six_digit_hex(a: char, b: char, c: char, d: char, e: char, f: char)
    requires
        is_hex(a),
        is_hex(b),
        is_hex(c),
        is_hex(d),
        is_hex(e),
        is_hex(f),
    ensures
        hex_color(seq!['#', a, b, c, d, e, f]) == Some(
            (
                (16 * hex_val(a) + hex_val(b)) as u8,
                (16 * hex_val(c) + hex_val(d)) as u8,
                (16 * hex_val(e) + hex_val(f)) as u8,
            ),
        ),
        16 * hex_val(a) + hex_val(b) < 256,
{
    lemma_hex_ascii(a);
    lemma_hex_ascii(b);
    lemma_hex_ascii(c);
    lemma_hex_ascii(d);
    lemma_hex_ascii(e);
    lemma_hex_ascii(f);
    let s = seq!['#', a, b, c, d, e, f];
    let body = seq![a, b, c, d, e, f];
    assert(s =~= seq!['#'] + body);
    lemma_trimmed_body(s, body);
    assert(byte_len(body) == 6) by {
        reveal_with_fuel(byte_len, 7);
        assert(body.drop_last() =~= seq![a, b, c, d, e]);
        assert(body.drop_last().drop_last() =~= seq![a, b, c, d]);
        assert(body.drop_last().drop_last().drop_last() =~= seq![a, b, c]);
        assert(seq![a, b, c].drop_last() =~= seq![a, b]);
        assert(seq![a, b].drop_last() =~= seq![a]);
        assert(seq![a].drop_last() =~= Seq::<char>::empty());
    }
}

/// Three hex digits after `#` name the bytes of each digit doubled.
pub proof fn law_three_digit_hex(a: char, b: char, c: char)
    requires
        is_hex(a),
        is_hex(b),
        is_hex(c),
    ensures
        hex_color(seq!['#', a, b, c]) == Some(
            ((17 * hex_val(a)) as u8, (17 * hex_val(b)) as u8, (17 * hex_val(c)) as u8),
        ),
{
    lemma_hex_ascii(a);
    lemma_hex_ascii(b);
    lemma_hex_ascii(c);
    let s = seq!['#', a, b, c];
    let body = seq![a, b, c];
    assert(s =~= seq!['#'] + body);
    lemma_trimmed_body(s, body);
    assert(byte_len(body) == 3) by {
        reveal_with_fuel(byte_len, 4);
        assert(body.drop_last() =~= seq![a, b]);
        assert(seq![a, b].drop_last() =~= seq![a]);
        assert(seq![a].drop_last() =~= Seq::<char>::empty());
    }
}

/// `#` followed by a body that starts with a non-`#` and has no whitespace at its ends has that
/// body.
proof fn lemma_trimmed_body(s: Seq<char>, body: Seq<char>)
    requires
        body.len() > 0,
        s == seq!['#'] + body,
        body[0] != '#',
        !crate::text::is_ws(body.last()),
    ensures
        hex_body(s) == body,
{
    assert(crate::text::trim_start(s) == s);
    assert(s.last() == body.last());
    assert(crate::text::trim_end(s) == s);
    assert(trim(s) == s);
    assert(s.drop_first() =~= body);
    assert(strip_hashes(body) == body);
}

} // verus!
