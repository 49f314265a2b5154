//! `(defomnibox)` — URL-bar autocomplete profiles: which sources to draw suggestions from,
//! which search providers to offer, and how to match a query against a candidate.
use vstd::prelude::*;

use crate::registry::{
    find_key, first_where, index_of_key, lemma_first_where_found, lemma_first_where_none,
    lemma_first_where_spec, upsert, upsert_all, upserted, upserted_all, Named,
};
use crate::outline::{decimal, push_decimal};
use crate::text::{
    before_any, chars_eq, chars_of, contains_str, contains_sub, has_char, is_prefix, lower, owned, push_str,
    replace_all, replace_str, slice_chars, starts_with, str_eq, string_from_chars, to_ascii_lowercase, join, views,
    trim, trim_chars, join_strings,
};

verus! {

/// Where suggestions come from.
#[derive(Debug, Clone, Copy, PartialEq, Eq, Hash, Structural)]
pub enum OmniboxSource {
    /// Browsing history.
    History,
    /// Saved bookmarks.
    Bookmarks,
    /// Command-palette entries.
    Commands,
    /// Open tabs.
    Tabs,
    /// Installed extensions.
    Extensions,
}

/// A search provider.
#[derive(Debug, Clone, PartialEq)]
pub struct SearchProvider {
    pub name: String,
    /// URL template; each `{query}` is replaced by the encoded query.
    pub url: String,
    /// A query that starts with this word and a space goes to this provider only.
    pub shortcut: Option<String>,
    /// Display label; the name when absent.
    pub label: Option<String>,
    pub icon: Option<String>,
}

/// An omnibox profile.
#[derive(Debug, Clone, PartialEq)]
pub struct OmniboxSpec {
    pub name: String,
    pub description: Option<String>,
    /// Enabled sources; earlier ones win ties.
    pub sources: Vec<OmniboxSource>,
    /// Search providers; the first is the default.
    pub search_providers: Vec<SearchProvider>,
    /// Most suggestions returned; `0` is unlimited.
    pub max_results: usize,
    /// Fewest characters before sources are consulted.
    pub min_chars: usize,
}

impl Named for OmniboxSpec {
    open spec fn key(&self) -> Seq<char> {
        self.name@
    }

    fn name_ref(&self) -> (r: &str) {
        self.name.as_str()
    }
}

/// The result cap used when none is given.
pub fn default_max_results() -> (r: usize)
    ensures
        r == 10,
{
    10
}

/// A provider with a shortcut and a label.
fn provider(name: &str, url: &str, shortcut: &str, label: &str) -> (r: SearchProvider)
    ensures
        r.name@ == name@,
        r.url@ == url@,
        r.shortcut matches Some(s) && s@ == shortcut@,
        r.label matches Some(l) && l@ == label@,
        r.icon.is_none(),
{
    SearchProvider {
        name: owned(name),
        url: owned(url),
        shortcut: Some(owned(shortcut)),
        label: Some(owned(label)),
        icon: None,
    }
}

impl OmniboxSpec {
    /// The built-in profile: history, bookmarks and commands; DuckDuckGo, Google and GitHub;
    /// ten results from one character on.
    pub fn default_profile() -> (r: Self)
        ensures
            r.name@ == "default"@,
            r.sources@ == seq![OmniboxSource::History, OmniboxSource::Bookmarks, OmniboxSource::Commands],
            r.search_providers@.len() == 3,
            r.search_providers@[0].name@ == "ddg"@,
            r.search_providers@[0].url@ == "https://duckduckgo.com/?q={query}"@,
            r.search_providers@[0].shortcut matches Some(s) && s@ == "ddg"@,
            r.search_providers@[0].label matches Some(l) && l@ == "DuckDuckGo"@,
            r.search_providers@[1].name@ == "google"@,
            r.search_providers@[1].url@ == "https://www.google.com/search?q={query}"@,
            r.search_providers@[1].shortcut matches Some(s) && s@ == "g"@,
            r.search_providers@[1].label matches Some(l) && l@ == "Google"@,
            r.search_providers@[2].name@ == "github"@,
            r.search_providers@[2].url@ == "https://github.com/search?q={query}"@,
            r.search_providers@[2].shortcut matches Some(s) && s@ == "gh"@,
            r.search_providers@[2].label matches Some(l) && l@ == "GitHub"@,
            r.max_results == 10,
            r.min_chars == 1,
            r.description.is_some(),
    {
        let sources = vec![OmniboxSource::History, OmniboxSource::Bookmarks, OmniboxSource::Commands];
        let providers = vec![
            provider("ddg", "https://duckduckgo.com/?q={query}", "ddg", "DuckDuckGo"),
            provider("google", "https://www.google.com/search?q={query}", "g", "Google"),
            provider("github", "https://github.com/search?q={query}", "gh", "GitHub"),
        ];
        OmniboxSpec {
            name: owned("default"),
            description: Some(owned("Default URL-bar autocomplete.")),
            sources,
            search_providers: providers,
            max_results: 10,
            min_chars: 1,
        }
    }
}

/// Omnibox profiles, one per name.
#[derive(Debug, Clone)]
pub struct OmniboxRegistry {
    specs: Vec<OmniboxSpec>,
}

impl View for OmniboxRegistry {
    type V = Seq<OmniboxSpec>;

    closed spec fn view(&self) -> Seq<OmniboxSpec> {
        self.specs@
    }
}

impl OmniboxRegistry {
    /// An empty registry.
    pub fn new() -> (r: Self)
        ensures
            r@ == Seq::<OmniboxSpec>::empty(),
    {
        OmniboxRegistry { specs: Vec::new() }
    }

    /// Adds `spec`, replacing any entry of the same name.
    pub fn insert(&mut self, spec: OmniboxSpec)
        ensures
            final(self)@ == upserted(old(self)@, spec),
    {
        upsert(&mut self.specs, spec);
    }

    /// Adds each spec in order.
    pub fn extend(&mut self, specs: Vec<OmniboxSpec>)
        ensures
            final(self)@ == upserted_all(old(self)@, specs@),
    {
        upsert_all(&mut self.specs, specs);
    }

    /// Number of entries.
    pub fn len(&self) -> (r: usize)
        ensures
            r == self@.len(),
    {
        self.specs.len()
    }

    /// No entry is registered.
    pub fn is_empty(&self) -> (r: bool)
        ensures
            r == (self@.len() == 0),
    {
        self.specs.len() == 0
    }

    /// The entries in order.
    pub fn specs(&self) -> (r: &[OmniboxSpec])
        ensures
            r@ == self@,
    {
        self.specs.as_slice()
    }

    /// The first entry named `name`.
    pub fn get(&self, name: &str) -> (r: Option<&OmniboxSpec>)
        ensures
            match index_of_key(self@, name@) {
                Some(i) => r == Some(&self@[i]),
                None => r.is_none(),
            },
    {
        match find_key(&self.specs, name) {
            Some(i) => {
                proof {
                    lemma_first_where_spec(self.specs@, crate::registry::key_equals::<OmniboxSpec>(name@));
                }
                Some(&self.specs[i])
            },
            None => None,
        }
    }
}

// ─── what the caller supplies ────────────────────────────────────

/// A history entry.
#[derive(Debug, Clone, PartialEq, Eq)]
pub struct HistoryItem {
    pub title: String,
    pub url: String,
    /// Visits; more visits weigh more.
    pub visit_count: u32,
}

/// A bookmark.
#[derive(Debug, Clone, PartialEq, Eq)]
pub struct BookmarkItem {
    pub title: String,
    pub url: String,
    pub tags: Vec<String>,
}

/// A command-palette entry.
#[derive(Debug, Clone, PartialEq, Eq)]
pub struct CommandItem {
    pub name: String,
    pub description: Option<String>,
    pub bound_keys: Vec<String>,
}

/// An open tab.
#[derive(Debug, Clone, PartialEq, Eq)]
pub struct TabItem {
    pub title: String,
    pub url: String,
}

/// An installed extension.
#[derive(Debug, Clone, PartialEq, Eq)]
pub struct ExtensionItem {
    pub name: String,
    pub description: Option<String>,
    pub enabled: bool,
}

/// Everything the ranking reads; each part is consulted only when its source is enabled.
#[derive(Debug, Clone, Copy, Default)]
pub struct OmniboxInput<'a> {
    pub history: &'a [HistoryItem],
    pub bookmarks: &'a [BookmarkItem],
    pub commands: &'a [CommandItem],
    pub tabs: &'a [TabItem],
    pub extensions: &'a [ExtensionItem],
}

/// The category of a suggestion.
#[derive(Debug, Clone, Copy, PartialEq, Eq, Structural)]
pub enum SuggestionKind {
    History,
    Bookmark,
    Command,
    Tab,
    Extension,
    Search,
    /// Open the query itself as a URL.
    Navigate,
}

// ─── matching ────────────────────────────────────────────────────

/// How well a lower-cased query matches a candidate, in hundredths: an exact label 100, a label
/// prefix 90, a URL prefix 70, inside the label 50, inside the URL 30, inside the extra text 20.
pub open spec fn match_score(q: Seq<char>, label: Seq<char>, url: Seq<char>, extra: Option<Seq<char>>) -> Option<u32> {
    let l = lower(label);
    let u = lower(url);
    if l == q {
        Some(100)
    } else if is_prefix(q, l) {
        Some(90)
    } else if is_prefix(q, u) {
        Some(70)
    } else if contains_sub(l, q) {
        Some(50)
    } else if contains_sub(u, q) {
        Some(30)
    } else {
        match extra {
            Some(e) => if contains_sub(lower(e), q) {
                Some(20)
            } else {
                None
            },
            None => None,
        }
    }
}

/// Scores a lower-cased query against a label, a URL and optional extra text, in hundredths.
pub fn score_text(q_lower: &str, label: &str, url: &str, extra: Option<&str>) -> (r: Option<u32>)
    ensures
        r == match_score(q_lower@, label@, url@, match extra {
            Some(e) => Some(e@),
            None => None,
        }),
{
    let label_l = to_ascii_lowercase(label);
    let url_l = to_ascii_lowercase(url);
    if str_eq(label_l.as_str(), q_lower) {
        return Some(100);
    }
    if starts_with(label_l.as_str(), q_lower) {
        return Some(90);
    }
    if starts_with(url_l.as_str(), q_lower) {
        return Some(70);
    }
    if contains_str(label_l.as_str(), q_lower) {
        return Some(50);
    }
    if contains_str(url_l.as_str(), q_lower) {
        return Some(30);
    }
    match extra {
        Some(e) => {
            let el = to_ascii_lowercase(e);
            if contains_str(el.as_str(), q_lower) {
                Some(20)
            } else {
                None
            }
        },
        None => None,
    }
}

/// The query reads as a URL: it has a scheme, starts with `localhost` or `127.`, or has a dot
/// and no space.
pub open spec fn url_like(q: Seq<char>) -> bool {
    contains_sub(q, "://"@) || is_prefix("localhost"@, q) || is_prefix("127."@, q) || (q.contains('.')
        && !q.contains(' '))
}

/// Whether the query should also be offered as a URL to open.
pub fn looks_like_url(q: &str) -> (r: bool)
    ensures
        r == url_like(q@),
{
    let cs = chars_of(q);
    contains_str(q, "://") || starts_with(q, "localhost") || starts_with(q, "127.") || (has_char(
        cs.as_slice(),
        '.',
    ) && !has_char(cs.as_slice(), ' '))
}

/// The URL to open for a URL-like query: as typed when it has a scheme, else over `https://`.
pub fn normalize_url_guess(q: &str) -> (r: String)
    ensures
        r@ == if contains_sub(q@, "://"@) {
            q@
        } else {
            "https://"@ + q@
        },
{
    if contains_str(q, "://") {
        owned(q)
    } else {
        let mut s = owned("https://");
        push_str(&mut s, q);
        s
    }
}

// ─── URL encoding ────────────────────────────────────────────────

/// Characters kept as they are: ASCII letters and digits, `-`, `_`, `.` and `~`.
pub open spec fn is_unreserved(c: char) -> bool {
    ('a' <= c <= 'z') || ('A' <= c <= 'Z') || ('0' <= c <= '9') || c == '-' || c == '_' || c == '.' || c == '~'
}

/// The UTF-8 encoding of `c`.
pub open spec fn utf8(c: char) -> Seq<u8> {
    let n = c as u32;
    if n < 0x80 {
        seq![n as u8]
    } else if n < 0x800 {
        seq![(0xC0 + n / 64) as u8, (0x80 + n % 64) as u8]
    } else if n < 0x10000 {
        seq![(0xE0 + n / 4096) as u8, (0x80 + (n / 64) % 64) as u8, (0x80 + n % 64) as u8]
    } else {
        seq![
            (0xF0 + n / 262144) as u8,
            (0x80 + (n / 4096) % 64) as u8,
            (0x80 + (n / 64) % 64) as u8,
            (0x80 + n % 64) as u8,
        ]
    }
}

/// The upper-case hexadecimal digit for `d < 16`.
pub open spec fn hex_digit(d: u8) -> char {
    if d < 10 {
        ((48 + d) as u8) as char
    } else {
        ((55 + d) as u8) as char
    }
}

/// `%XX` for each byte of `bs`.
pub open spec fn percent_encoded(bs: Seq<u8>) -> Seq<char>
    decreases bs.len(),
{
    if bs.len() == 0 {
        seq![]
    } else {
        percent_encoded(bs.drop_last()) + seq!['%', hex_digit(bs.last() / 16), hex_digit(bs.last() % 16)]
    }
}

/// How one character is written in a query string.
pub open spec fn encode_char(c: char) -> Seq<char> {
    if c == ' ' {
        seq!['+']
    } else if is_unreserved(c) {
        seq![c]
    } else {
        percent_encoded(utf8(c))
    }
}

/// `s` written for a query string.
pub open spec fn url_encoded(s: Seq<char>) -> Seq<char>
    decreases s.len(),
{
    if s.len() == 0 {
        seq![]
    } else {
        url_encoded(s.drop_last()) + encode_char(s.last())
    }
}

/// The UTF-8 bytes of `c`.
fn utf8_bytes(c: char) -> (r: Vec<u8>)
    ensures
        r@ == utf8(c),
{
    let n = c as u32;
    if n < 0x80 {
        vec![n as u8]
    } else if n < 0x800 {
        vec![(0xC0 + n / 64) as u8, (0x80 + n % 64) as u8]
    } else if n < 0x10000 {
        vec![(0xE0 + n / 4096) as u8, (0x80 + (n / 64) % 64) as u8, (0x80 + n % 64) as u8]
    } else {
        vec![
            (0xF0 + n / 262144) as u8,
            (0x80 + (n / 4096) % 64) as u8,
            (0x80 + (n / 64) % 64) as u8,
            (0x80 + n % 64) as u8,
        ]
    }
}

/// The hexadecimal digit for `d`.
fn hex_digit_exec(d: u8) -> (r: char)
    requires
        d < 16,
    ensures
        r == hex_digit(d),
{
    if d < 10 {
        (48 + d) as char
    } else {
        (55 + d) as char
    }
}

/// Form-encodes a query: space as `+`, unreserved characters kept, every other character as
/// `%XX` per UTF-8 byte.
pub fn url_encode(input: &str) -> (r: String)
    ensures
        r@ == url_encoded(input@),
{
    let cs = chars_of(input);
    let mut out: Vec<char> = Vec::new();
    let mut i: usize = 0;
    while i < cs.len()
        invariant
            i <= cs@.len(),
            out@ == url_encoded(cs@.take(i as int)),
        decreases cs@.len() - i,
    {
        let c = cs[i];
        let ghost before = out@;
        if c == ' ' {
            out.push('+');
        } else if ('a' <= c && c <= 'z') || ('A' <= c && c <= 'Z') || ('0' <= c && c <= '9') || c == '-' || c
            == '_' || c == '.' || c == '~' {
            out.push(c);
        } else {
            let bs = utf8_bytes(c);
            let mut k: usize = 0;
            while k < bs.len()
                invariant
                    k <= bs@.len(),
                    bs@ == utf8(c),
                    out@ == before + percent_encoded(bs@.take(k as int)),
                decreases bs@.len() - k,
            {
                let b = bs[k];
                out.push('%');
                out.push(hex_digit_exec(b / 16));
                out.push(hex_digit_exec(b % 16));
                proof {
                    let t = bs@.take(k + 1);
                    assert(t.drop_last() =~= bs@.take(k as int));
                    assert(t.last() == b);
                    assert(out@ =~= before + percent_encoded(t));
                }
                k += 1;
            }
            assert(bs@.take(bs@.len() as int) =~= bs@);
        }
        proof {
            let t = cs@.take(i + 1);
            assert(t.drop_last() =~= cs@.take(i as int));
            assert(t.last() == c);
            assert(out@ =~= url_encoded(t));
        }
        i += 1;
    }
    assert(cs@.take(cs@.len() as int) =~= cs@);
    string_from_chars(out.as_slice())
}

// ─── search providers ────────────────────────────────────────────

/// The provider's URL for `q`: each `{query}` replaced by the encoded query.
pub fn search_url(p: &SearchProvider, q: &str) -> (r: String)
    ensures
        r@ == replace_all(p.url@, "{query}"@, url_encoded(q@)),
{
    let enc = url_encode(q);
    let pat = "{query}";
    proof {
        reveal_strlit("{query}");
    }
    replace_str(p.url.as_str(), pat, enc.as_str())
}

/// A provider's shortcut is `sc`.
pub open spec fn shortcut_is(sc: Seq<char>) -> spec_fn(SearchProvider) -> bool {
    |p: SearchProvider| match p.shortcut {
        Some(x) => x@ == sc,
        None => false,
    }
}

/// A query `shortcut rest` whose first word is some provider's shortcut goes to the first such
/// provider, with `rest` (everything after the first space) as its query.
pub open spec fn routed(q: Seq<char>, ps: Seq<SearchProvider>) -> Option<(int, Seq<char>)> {
    if q.contains(' ') {
        let word = before_any(q, seq![' ']);
        match first_where(ps, shortcut_is(word)) {
            Some(i) => Some((i, q.skip(word.len() as int + 1))),
            None => None,
        }
    } else {
        None
    }
}

/// The provider a shortcut query goes to, with the rest of the query.
pub fn route_shortcut(q: &str, providers: &[SearchProvider]) -> (r: Option<(usize, String)>)
    ensures
        match r {
            Some((i, rest)) => routed(q@, providers@) == Some((i as int, rest@)),
            None => routed(q@, providers@).is_none(),
        },
{
    let cs = chars_of(q);
    if !has_char(cs.as_slice(), ' ') {
        return None;
    }
    let mut j: usize = 0;
    while j < cs.len() && cs[j] != ' '
        invariant
            j <= cs@.len(),
            cs@ == q@,
            cs@.contains(' '),
            forall|k: int| 0 <= k < j ==> cs@[k] != ' ',
        decreases cs@.len() - j,
    {
        j += 1;
    }
    proof {
        if j == cs@.len() {
            let k = choose|k: int| 0 <= k < cs@.len() && cs@[k] == ' ';
            assert(cs@[k] == ' ');
        }
        lemma_before_any_upto(cs@, j as int);
    }
    let word = slice_chars(cs.as_slice(), 0, j);
    let ghost w = before_any(q@, seq![' ']);
    assert(word@ =~= w);
    let ghost p = shortcut_is(w);
    let mut i: usize = 0;
    while i < providers.len()
        invariant
            i <= providers@.len(),
            p == shortcut_is(w),
            w == before_any(q@, seq![' ']),
            word@ == w,
            cs@ == q@,
            q@.contains(' '),
            j < cs.len(),
            w.len() == j,
            forall|k: int| 0 <= k < i ==> !p(#[trigger] providers@[k]),
        decreases providers@.len() - i,
    {
        let hit = match &providers[i].shortcut {
            Some(s) => {
                let sc = chars_of(s.as_str());
                chars_eq(sc.as_slice(), word.as_slice())
            },
            None => false,
        };
        if hit {
            proof {
                lemma_first_where_found(providers@, p, i as int);
            }
            let rest = string_from_chars(slice_chars(cs.as_slice(), j + 1, cs.len()).as_slice());
            assert(rest@ =~= q@.skip(w.len() as int + 1));
            assert(q@.contains(' '));
            assert(first_where(providers@, shortcut_is(w)) == Some(i as int));
            assert(routed(q@, providers@) == Some((i as int, rest@)));
            return Some((i, rest));
        }
        i += 1;
    }
    proof {
        lemma_first_where_none(providers@, p);
    }
    None
}

/// Scanning to the first space finds `before_any`.
proof fn lemma_before_any_upto(s: Seq<char>, j: int)
    requires
        0 <= j <= s.len(),
        forall|k: int| 0 <= k < j ==> s[k] != ' ',
        j == s.len() || s[j] == ' ',
    ensures
        before_any(s, seq![' ']) == s.take(j),
    decreases j,
{
    if j == 0 {
        assert(s.take(0) =~= seq![]);
        if s.len() > 0 {
            assert(seq![' '][0] == s[0]);
        }
    } else {
        let t = s.drop_first();
        assert forall|k: int| 0 <= k < j - 1 implies t[k] != ' ' by {
            assert(t[k] == s[k + 1]);
        }
        if j < s.len() {
            assert(t[j - 1] == s[j]);
        }
        lemma_before_any_upto(t, j - 1);
        assert(!seq![' '].contains(s[0]));
        assert(seq![s[0]] + t.take(j - 1) =~= s.take(j));
    }
}

// ─── ranking ─────────────────────────────────────────────────────

/// One ranked suggestion. Scores are in thousandths (an exact label match is `1000`).
#[derive(Debug, Clone, PartialEq, Eq)]
pub struct Suggestion {
    pub kind: SuggestionKind,
    pub label: String,
    pub detail: Option<String>,
    /// What the UI does on Enter, such as `navigate:URL`, `run:NAME` or `tab:switch:INDEX`.
    pub action: String,
    /// Relevance in thousandths.
    pub score: u32,
}

/// A suggestion as plain values.
pub struct SuggestionView {
    pub kind: SuggestionKind,
    pub label: Seq<char>,
    pub detail: Option<Seq<char>>,
    pub action: Seq<char>,
    pub score: int,
}

/// An optional string as plain text.
pub open spec fn opt_view(o: Option<String>) -> Option<Seq<char>> {
    match o {
        Some(x) => Some(x@),
        None => None,
    }
}

impl Suggestion {
    /// The suggestion as plain values.
    pub open spec fn view_of(self) -> SuggestionView {
        SuggestionView {
            kind: self.kind,
            label: self.label@,
            detail: opt_view(self.detail),
            action: self.action@,
            score: self.score as int,
        }
    }
}

/// The suggestions as plain values.
pub open spec fn suggestion_views(s: Seq<Suggestion>) -> Seq<SuggestionView> {
    s.map_values(|x: Suggestion| x.view_of())
}

/// The search suggestion for provider `p`, query `q` and score `score`.
pub open spec fn search_view(p: SearchProvider, q: Seq<char>, score: int) -> SuggestionView {
    let url = replace_all(p.url@, "{query}"@, url_encoded(q));
    let label = match p.label {
        Some(l) => l@,
        None => p.name@,
    };
    SuggestionView {
        kind: SuggestionKind::Search,
        label: label + ": "@ + q,
        detail: Some(url),
        action: "navigate:"@ + url,
        score,
    }
}

/// The history suggestions for lower-cased query `ql`: each matching entry, its match score
/// raised by a thousandth per visit up to a hundred.
pub open spec fn history_views(ql: Seq<char>, items: Seq<HistoryItem>) -> Seq<SuggestionView>
    decreases items.len(),
{
    if items.len() == 0 {
        seq![]
    } else {
        let h = items.last();
        let prev = history_views(ql, items.drop_last());
        match match_score(ql, h.title@, h.url@, None) {
            Some(sc) => prev.push(SuggestionView {
                kind: SuggestionKind::History,
                label: if h.title@.len() == 0 { h.url@ } else { h.title@ },
                detail: Some(h.url@),
                action: "navigate:"@ + h.url@,
                score: sc * 10 + if h.visit_count > 100 { 100 } else { h.visit_count as int },
            }),
            None => prev,
        }
    }
}

/// The tags of a bookmark as extra text to match, when it has any.
pub open spec fn tag_blob(tags: Seq<String>) -> Option<Seq<char>> {
    let blob = join(views(tags), " "@);
    if blob.len() == 0 {
        None
    } else {
        Some(blob)
    }
}

/// The bookmark suggestions: each matching bookmark, its tags matched too, with a prior of fifty
/// thousandths.
pub open spec fn bookmark_views(ql: Seq<char>, items: Seq<BookmarkItem>) -> Seq<SuggestionView>
    decreases items.len(),
{
    if items.len() == 0 {
        seq![]
    } else {
        let b = items.last();
        let prev = bookmark_views(ql, items.drop_last());
        match match_score(ql, b.title@, b.url@, tag_blob(b.tags@)) {
            Some(sc) => prev.push(SuggestionView {
                kind: SuggestionKind::Bookmark,
                label: b.title@,
                detail: Some(b.url@),
                action: "navigate:"@ + b.url@,
                score: sc * 10 + 50,
            }),
            None => prev,
        }
    }
}

/// The text of an optional description, empty when there is none.
pub open spec fn or_empty(o: Option<String>) -> Seq<char> {
    match o {
        Some(x) => x@,
        None => seq![],
    }
}

/// A command's label: its name, then its bound keys in brackets when it has any.
pub open spec fn command_label(c: CommandItem) -> Seq<char> {
    if c.bound_keys@.len() == 0 {
        c.name@
    } else {
        c.name@ + " ["@ + join(views(c.bound_keys@), ", "@) + "]"@
    }
}

/// The command suggestions: each command whose name or description matches.
pub open spec fn command_views(ql: Seq<char>, items: Seq<CommandItem>) -> Seq<SuggestionView>
    decreases items.len(),
{
    if items.len() == 0 {
        seq![]
    } else {
        let c = items.last();
        let prev = command_views(ql, items.drop_last());
        match match_score(ql, c.name@, or_empty(c.description), None) {
            Some(sc) => prev.push(SuggestionView {
                kind: SuggestionKind::Command,
                label: command_label(c),
                detail: opt_view(c.description),
                action: "run:"@ + c.name@,
                score: sc * 10,
            }),
            None => prev,
        }
    }
}

/// The tab suggestions: each matching tab, by its index, with a bonus of a hundred thousandths.
pub open spec fn tab_views(ql: Seq<char>, items: Seq<TabItem>) -> Seq<SuggestionView>
    decreases items.len(),
{
    if items.len() == 0 {
        seq![]
    } else {
        let t = items.last();
        let prev = tab_views(ql, items.drop_last());
        match match_score(ql, t.title@, t.url@, None) {
            Some(sc) => prev.push(SuggestionView {
                kind: SuggestionKind::Tab,
                label: t.title@,
                detail: Some(t.url@),
                action: "tab:switch:"@ + decimal((items.len() - 1) as nat),
                score: sc * 10 + 100,
            }),
            None => prev,
        }
    }
}

/// The extension suggestions: each extension whose name or description matches.
pub open spec fn extension_views(ql: Seq<char>, items: Seq<ExtensionItem>) -> Seq<SuggestionView>
    decreases items.len(),
{
    if items.len() == 0 {
        seq![]
    } else {
        let e = items.last();
        let prev = extension_views(ql, items.drop_last());
        match match_score(ql, e.name@, or_empty(e.description), None) {
            Some(sc) => prev.push(SuggestionView {
                kind: SuggestionKind::Extension,
                label: e.name@,
                detail: opt_view(e.description),
                action: "extension:toggle:"@ + e.name@,
                score: sc * 10,
            }),
            None => prev,
        }
    }
}

/// The suggestions one source gives.
pub open spec fn source_views(src: OmniboxSource, ql: Seq<char>, input: OmniboxInput) -> Seq<SuggestionView> {
    match src {
        OmniboxSource::History => history_views(ql, input.history@),
        OmniboxSource::Bookmarks => bookmark_views(ql, input.bookmarks@),
        OmniboxSource::Commands => command_views(ql, input.commands@),
        OmniboxSource::Tabs => tab_views(ql, input.tabs@),
        OmniboxSource::Extensions => extension_views(ql, input.extensions@),
    }
}

/// The suggestions of the enabled sources, source by source.
pub open spec fn sources_views(srcs: Seq<OmniboxSource>, ql: Seq<char>, input: OmniboxInput) -> Seq<SuggestionView>
    decreases srcs.len(),
{
    if srcs.len() == 0 {
        seq![]
    } else {
        sources_views(srcs.drop_last(), ql, input) + source_views(srcs.last(), ql, input)
    }
}

/// The score of the `i`-th search provider's suggestion: 200 thousandths, ten fewer per earlier
/// provider, at least fifty.
pub open spec fn provider_score(i: int) -> int {
    if 200 - 10 * i < 50 {
        50
    } else {
        200 - 10 * i
    }
}

/// A search suggestion per provider, in order.
pub open spec fn provider_views(ps: Seq<SearchProvider>, q: Seq<char>) -> Seq<SuggestionView>
    decreases ps.len(),
{
    if ps.len() == 0 {
        seq![]
    } else {
        provider_views(ps.drop_last(), q) + seq![search_view(ps.last(), q, provider_score(ps.len() - 1))]
    }
}

/// The candidates before sorting: a navigation for a URL-like query, then each source's, then
/// a search per provider.
pub open spec fn candidates(q: Seq<char>, spec: OmniboxSpec, input: OmniboxInput) -> Seq<SuggestionView> {
    let nav: Seq<SuggestionView> = if url_like(q) {
        seq![SuggestionView {
            kind: SuggestionKind::Navigate,
            label: q,
            detail: Some("Open as URL"@),
            action: "navigate:"@ + (if contains_sub(q, "://"@) { q } else { "https://"@ + q }),
            score: 990,
        }]
    } else {
        seq![]
    };
    nav + sources_views(spec.sources@, lower(q), input) + provider_views(spec.search_providers@, q)
}

/// How many leading entries of `s` score at least `x`.
pub open spec fn rank_slot(s: Seq<SuggestionView>, x: int) -> int
    decreases s.len(),
{
    if s.len() == 0 || s[0].score < x {
        0
    } else {
        1 + rank_slot(s.drop_first(), x)
    }
}

/// `x` inserted into descending `s` after every entry that scores at least as much.
pub open spec fn insert_ranked(s: Seq<SuggestionView>, x: SuggestionView) -> Seq<SuggestionView> {
    let k = rank_slot(s, x.score);
    s.take(k) + seq![x] + s.skip(k)
}

/// `s` sorted by descending score, ties in their original order.
pub open spec fn ranked(s: Seq<SuggestionView>) -> Seq<SuggestionView>
    decreases s.len(),
{
    if s.len() == 0 {
        seq![]
    } else {
        insert_ranked(ranked(s.drop_last()), s.last())
    }
}

/// The suggestions for `query` under `spec`: none for a blank query or one shorter than the
/// minimum; only the routed search when the query starts with a provider's shortcut; otherwise
/// the candidates sorted by descending score, ties in order, cut to the result cap (`0` is no
/// cap).
pub open spec fn ranking(query: Seq<char>, spec: OmniboxSpec, input: OmniboxInput) -> Seq<SuggestionView> {
    let q = trim(query);
    if q.len() == 0 || q.len() < spec.min_chars {
        seq![]
    } else {
        match routed(q, spec.search_providers@) {
            Some((i, rest)) => seq![search_view(spec.search_providers@[i], rest, 1000)],
            None => {
                let all = ranked(candidates(q, spec, input));
                if spec.max_results == 0 || all.len() <= spec.max_results {
                    all
                } else {
                    all.take(spec.max_results as int)
                }
            },
        }
    }
}

/// `prefix` followed by `s`, as a new string.
fn prefixed(prefix: &str, s: &str) -> (r: String)
    ensures
        r@ == prefix@ + s@,
{
    let mut out = owned(prefix);
    push_str(&mut out, s);
    out
}

/// A copy of an optional string.
fn copy_opt(o: &Option<String>) -> (r: Option<String>)
    ensures
        opt_view(r) == opt_view(*o),
{
    match o {
        Some(x) => Some(owned(x.as_str())),
        None => None,
    }
}

/// Appends the history suggestions.
fn push_history(out: &mut Vec<Suggestion>, ql: &str, items: &[HistoryItem])
    ensures
        suggestion_views(final(out)@) == suggestion_views(old(out)@) + history_views(ql@, items@),
{
    let mut i: usize = 0;
    while i < items.len()
        invariant
            i <= items@.len(),
            suggestion_views(out@) == suggestion_views(old(out)@) + history_views(ql@, items@.take(i as int)),
        decreases items@.len() - i,
    {
        let ghost before = out@;
        let h = &items[i];
        proof {
            let t = items@.take(i + 1);
            assert(t.drop_last() =~= items@.take(i as int));
            assert(t.last() == items@[i as int]);
        }
        match score_text(ql, h.title.as_str(), h.url.as_str(), None) {
            Some(sc) => {
                let bonus: u32 = if h.visit_count > 100 {
                    100
                } else {
                    h.visit_count
                };
                let label = if chars_of(h.title.as_str()).len() == 0 {
                    owned(h.url.as_str())
                } else {
                    owned(h.title.as_str())
                };
                let sg = Suggestion {
                    kind: SuggestionKind::History,
                    label,
                    detail: Some(owned(h.url.as_str())),
                    action: prefixed("navigate:", h.url.as_str()),
                    score: sc * 10 + bonus,
                };
                out.push(sg);
                assert(suggestion_views(out@) =~= suggestion_views(before).push(sg.view_of()));
            },
            None => {},
        }
        i += 1;
    }
    assert(items@.take(items@.len() as int) =~= items@);
}

/// Appends the bookmark suggestions.
fn push_bookmarks(out: &mut Vec<Suggestion>, ql: &str, items: &[BookmarkItem])
    ensures
        suggestion_views(final(out)@) == suggestion_views(old(out)@) + bookmark_views(ql@, items@),
{
    let mut i: usize = 0;
    while i < items.len()
        invariant
            i <= items@.len(),
            suggestion_views(out@) == suggestion_views(old(out)@) + bookmark_views(ql@, items@.take(i as int)),
        decreases items@.len() - i,
    {
        let ghost before = out@;
        let b = &items[i];
        proof {
            let t = items@.take(i + 1);
            assert(t.drop_last() =~= items@.take(i as int));
            assert(t.last() == items@[i as int]);
        }
        let blob = join_strings(&b.tags, " ");
        let has_blob = chars_of(blob.as_str()).len() > 0;
        let extra: Option<&str> = if has_blob {
            Some(blob.as_str())
        } else {
            None
        };
        assert(match extra {
            Some(e) => Some(e@),
            None => None,
        } == tag_blob(b.tags@));
        match score_text(ql, b.title.as_str(), b.url.as_str(), extra) {
            Some(sc) => {
                let sg = Suggestion {
                    kind: SuggestionKind::Bookmark,
                    label: owned(b.title.as_str()),
                    detail: Some(owned(b.url.as_str())),
                    action: prefixed("navigate:", b.url.as_str()),
                    score: sc * 10 + 50,
                };
                out.push(sg);
                assert(suggestion_views(out@) =~= suggestion_views(before).push(sg.view_of()));
            },
            None => {},
        }
        i += 1;
    }
    assert(items@.take(items@.len() as int) =~= items@);
}

/// A description as text to match, empty when there is none.
fn desc_text(o: &Option<String>) -> (r: &str)
    ensures
        r@ == or_empty(*o),
{
    match o {
        Some(x) => x.as_str(),
        None => {
            proof {
                reveal_strlit("");
            }
            ""
        },
    }
}

/// Appends the command suggestions.
fn push_commands(out: &mut Vec<Suggestion>, ql: &str, items: &[CommandItem])
    ensures
        suggestion_views(final(out)@) == suggestion_views(old(out)@) + command_views(ql@, items@),
{
    let mut i: usize = 0;
    while i < items.len()
        invariant
            i <= items@.len(),
            suggestion_views(out@) == suggestion_views(old(out)@) + command_views(ql@, items@.take(i as int)),
        decreases items@.len() - i,
    {
        let ghost before = out@;
        let c = &items[i];
        proof {
            let t = items@.take(i + 1);
            assert(t.drop_last() =~= items@.take(i as int));
            assert(t.last() == items@[i as int]);
        }
        let descr = desc_text(&c.description);
        match score_text(ql, c.name.as_str(), descr, None) {
            Some(sc) => {
                let mut label = owned(c.name.as_str());
                if c.bound_keys.len() > 0 {
                    push_str(&mut label, " [");
                    let keys = join_strings(&c.bound_keys, ", ");
                    push_str(&mut label, keys.as_str());
                    push_str(&mut label, "]");
                }
                let sg = Suggestion {
                    kind: SuggestionKind::Command,
                    label,
                    detail: copy_opt(&c.description),
                    action: prefixed("run:", c.name.as_str()),
                    score: sc * 10,
                };
                out.push(sg);
                assert(suggestion_views(out@) =~= suggestion_views(before).push(sg.view_of()));
            },
            None => {},
        }
        i += 1;
    }
    assert(items@.take(items@.len() as int) =~= items@);
}

/// Appends the tab suggestions.
fn push_tabs(out: &mut Vec<Suggestion>, ql: &str, items: &[TabItem])
    ensures
        suggestion_views(final(out)@) == suggestion_views(old(out)@) + tab_views(ql@, items@),
{
    let mut i: usize = 0;
    while i < items.len()
        invariant
            i <= items@.len(),
            suggestion_views(out@) == suggestion_views(old(out)@) + tab_views(ql@, items@.take(i as int)),
        decreases items@.len() - i,
    {
        let ghost before = out@;
        let t = &items[i];
        proof {
            let tk = items@.take(i + 1);
            assert(tk.drop_last() =~= items@.take(i as int));
            assert(tk.last() == items@[i as int]);
        }
        match score_text(ql, t.title.as_str(), t.url.as_str(), None) {
            Some(sc) => {
                let mut action: Vec<char> = Vec::new();
                let prefix = chars_of("tab:switch:");
                let mut k: usize = 0;
                while k < prefix.len()
                    invariant
                        k <= prefix@.len(),
                        prefix@ == "tab:switch:"@,
                        action@ == prefix@.take(k as int),
                    decreases prefix@.len() - k,
                {
                    action.push(prefix[k]);
                    assert(prefix@.take(k + 1) =~= prefix@.take(k as int).push(prefix@[k as int]));
                    k += 1;
                }
                assert(prefix@.take(prefix@.len() as int) =~= prefix@);
                push_decimal(&mut action, i);
                let sg = Suggestion {
                    kind: SuggestionKind::Tab,
                    label: owned(t.title.as_str()),
                    detail: Some(owned(t.url.as_str())),
                    action: string_from_chars(action.as_slice()),
                    score: sc * 10 + 100,
                };
                out.push(sg);
                assert(suggestion_views(out@) =~= suggestion_views(before).push(sg.view_of()));
            },
            None => {},
        }
        i += 1;
    }
    assert(items@.take(items@.len() as int) =~= items@);
}

/// Appends the extension suggestions.
fn push_extensions(out: &mut Vec<Suggestion>, ql: &str, items: &[ExtensionItem])
    ensures
        suggestion_views(final(out)@) == suggestion_views(old(out)@) + extension_views(ql@, items@),
{
    let mut i: usize = 0;
    while i < items.len()
        invariant
            i <= items@.len(),
            suggestion_views(out@) == suggestion_views(old(out)@) + extension_views(ql@, items@.take(i as int)),
        decreases items@.len() - i,
    {
        let ghost before = out@;
        let e = &items[i];
        proof {
            let t = items@.take(i + 1);
            assert(t.drop_last() =~= items@.take(i as int));
            assert(t.last() == items@[i as int]);
        }
        let descr = desc_text(&e.description);
        match score_text(ql, e.name.as_str(), descr, None) {
            Some(sc) => {
                let sg = Suggestion {
                    kind: SuggestionKind::Extension,
                    label: owned(e.name.as_str()),
                    detail: copy_opt(&e.description),
                    action: prefixed("extension:toggle:", e.name.as_str()),
                    score: sc * 10,
                };
                out.push(sg);
                assert(suggestion_views(out@) =~= suggestion_views(before).push(sg.view_of()));
            },
            None => {},
        }
        i += 1;
    }
    assert(items@.take(items@.len() as int) =~= items@);
}

/// The search suggestion for provider `p` and query `q`.
fn make_search(p: &SearchProvider, q: &str, score: u32) -> (r: Suggestion)
    ensures
        r.view_of() == search_view(*p, q@, score as int),
{
    let url = search_url(p, q);
    let mut label = match &p.label {
        Some(l) => owned(l.as_str()),
        None => owned(p.name.as_str()),
    };
    push_str(&mut label, ": ");
    push_str(&mut label, q);
    let action = prefixed("navigate:", url.as_str());
    Suggestion { kind: SuggestionKind::Search, label, detail: Some(url), action, score }
}

/// Appends a search suggestion per provider.
fn push_providers(out: &mut Vec<Suggestion>, ps: &[SearchProvider], q: &str)
    ensures
        suggestion_views(final(out)@) == suggestion_views(old(out)@) + provider_views(ps@, q@),
{
    let mut i: usize = 0;
    while i < ps.len()
        invariant
            i <= ps@.len(),
            suggestion_views(out@) == suggestion_views(old(out)@) + provider_views(ps@.take(i as int), q@),
        decreases ps@.len() - i,
    {
        let ghost before = out@;
        proof {
            let t = ps@.take(i + 1);
            assert(t.drop_last() =~= ps@.take(i as int));
            assert(t.last() == ps@[i as int]);
        }
        let sc: u32 = if i > 15 {
            50
        } else {
            (200 - 10 * i) as u32
        };
        assert(sc == provider_score(i as int));
        let sg = make_search(&ps[i], q, sc);
        out.push(sg);
        assert(suggestion_views(out@) =~= suggestion_views(before).push(sg.view_of()));
        i += 1;
    }
    assert(ps@.take(ps@.len() as int) =~= ps@);
}

/// Appends the suggestions of one source.
fn push_source(out: &mut Vec<Suggestion>, src: OmniboxSource, ql: &str, input: &OmniboxInput)
    ensures
        suggestion_views(final(out)@) == suggestion_views(old(out)@) + source_views(src, ql@, *input),
{
    match src {
        OmniboxSource::History => push_history(out, ql, input.history),
        OmniboxSource::Bookmarks => push_bookmarks(out, ql, input.bookmarks),
        OmniboxSource::Commands => push_commands(out, ql, input.commands),
        OmniboxSource::Tabs => push_tabs(out, ql, input.tabs),
        OmniboxSource::Extensions => push_extensions(out, ql, input.extensions),
    }
}

/// The candidates for trimmed query `q`, before sorting.
fn collect_candidates(q: &str, spec: &OmniboxSpec, input: &OmniboxInput) -> (r: Vec<Suggestion>)
    ensures
        suggestion_views(r@) == candidates(q@, *spec, *input),
{
    let mut out: Vec<Suggestion> = Vec::new();
    if looks_like_url(q) {
        let sg = Suggestion {
            kind: SuggestionKind::Navigate,
            label: owned(q),
            detail: Some(owned("Open as URL")),
            action: prefixed("navigate:", normalize_url_guess(q).as_str()),
            score: 990,
        };
        out.push(sg);
    }
    let ghost nav = suggestion_views(out@);
    let ql = to_ascii_lowercase(q);
    let mut i: usize = 0;
    while i < spec.sources.len()
        invariant
            i <= spec.sources@.len(),
            ql@ == lower(q@),
            suggestion_views(out@) == nav + sources_views(spec.sources@.take(i as int), ql@, *input),
        decreases spec.sources@.len() - i,
    {
        proof {
            let t = spec.sources@.take(i + 1);
            assert(t.drop_last() =~= spec.sources@.take(i as int));
            assert(t.last() == spec.sources@[i as int]);
        }
        push_source(&mut out, spec.sources[i], ql.as_str(), input);
        proof {
            let t = spec.sources@.take(i + 1);
            assert(sources_views(t, ql@, *input) == sources_views(spec.sources@.take(i as int), ql@, *input)
                + source_views(spec.sources@[i as int], ql@, *input));
        }
        i += 1;
    }
    assert(spec.sources@.take(spec.sources@.len() as int) =~= spec.sources@);
    push_providers(&mut out, spec.search_providers.as_slice(), q);
    out
}

/// Inserts `x` after the leading suggestions that score at least as much.
fn insert_by_score(v: &mut Vec<Suggestion>, x: Suggestion)
    ensures
        suggestion_views(final(v)@) == insert_ranked(suggestion_views(old(v)@), x.view_of()),
{
    let ghost sv = suggestion_views(v@);
    let mut k: usize = 0;
    assert(sv.skip(0) =~= sv);
    while k < v.len() && v[k].score >= x.score
        invariant
            k <= v@.len(),
            sv == suggestion_views(v@),
            sv.len() == v@.len(),
            rank_slot(sv, x.score as int) == k + rank_slot(sv.skip(k as int), x.score as int),
        decreases v@.len() - k,
    {
        proof {
            let t = sv.skip(k as int);
            assert(t[0] == v@[k as int].view_of());
            assert(t.drop_first() =~= sv.skip(k + 1));
        }
        k += 1;
    }
    proof {
        let t = sv.skip(k as int);
        if k < v@.len() {
            assert(t[0] == v@[k as int].view_of());
        }
        assert(rank_slot(t, x.score as int) == 0);
    }
    let ghost before = v@;
    v.insert(k, x);
    proof {
        assert(suggestion_views(v@) =~= sv.take(k as int) + seq![x.view_of()] + sv.skip(k as int)) by {
            assert forall|j: int| 0 <= j < suggestion_views(v@).len() implies #[trigger] suggestion_views(v@)[j]
                == (sv.take(k as int) + seq![x.view_of()] + sv.skip(k as int))[j] by {
                if j < k {
                    assert(v@[j] == before[j]);
                } else if j > k {
                    assert(v@[j] == before[j - 1]);
                }
            }
        }
    }
}

/// `v` sorted by descending score, ties in their original order.
fn sort_by_score(v: Vec<Suggestion>) -> (r: Vec<Suggestion>)
    ensures
        suggestion_views(r@) == ranked(suggestion_views(v@)),
{
    let ghost all = suggestion_views(v@);
    let ghost orig = v@;
    let mut out: Vec<Suggestion> = Vec::new();
    for x in it: v
        invariant
            it.seq() == orig,
            all == suggestion_views(orig),
            suggestion_views(out@) == ranked(all.take(it.index() as int)),
    {
        proof {
            let k = it.index() as int;
            let t = all.take(k + 1);
            assert(t.drop_last() =~= all.take(k));
            assert(t.last() == orig[k].view_of());
        }
        insert_by_score(&mut out, x);
    }
    proof {
        assert(all.take(all.len() as int) =~= all);
    }
    out
}

/// Ranks the suggestions for `query`: nothing for a blank query or one shorter than the
/// minimum; only the routed search for a query that starts with a provider's shortcut and a
/// space; otherwise a navigation for a URL-like query, each enabled source's matches, and a
/// search per provider, sorted by descending score (ties in that order) and cut to the cap.
pub fn rank(query: &str, spec: &OmniboxSpec, input: OmniboxInput) -> (r: Vec<Suggestion>)
    ensures
        suggestion_views(r@) == ranking(query@, *spec, input),
{
    let raw = chars_of(query);
    let qc = trim_chars(raw.as_slice());
    if qc.len() == 0 || qc.len() < spec.min_chars {
        return Vec::new();
    }
    let q = string_from_chars(qc.as_slice());
    match route_shortcut(q.as_str(), spec.search_providers.as_slice()) {
        Some((i, rest)) => {
            proof {
                let w = before_any(q@, seq![' ']);
                lemma_first_where_spec(spec.search_providers@, shortcut_is(w));
            }
            let sg = make_search(&spec.search_providers[i], rest.as_str(), 1000);
            let out = vec![sg];
            assert(suggestion_views(out@) =~= seq![sg.view_of()]);
            return out;
        },
        None => {},
    }
    let cands = collect_candidates(q.as_str(), spec, &input);
    let mut sorted = sort_by_score(cands);
    if spec.max_results > 0 && sorted.len() > spec.max_results {
        let ghost before = sorted@;
        sorted.truncate(spec.max_results);
        assert(suggestion_views(sorted@) =~= suggestion_views(before).take(spec.max_results as int));
    }
    sorted
}

/// Scores never rise along `s`.
pub open spec fn scores_descending(s: Seq<SuggestionView>) -> bool {
    forall|i: int, j: int| 0 <= i < j < s.len() ==> s[i].score >= s[j].score
}

/// The slot `rank_slot` finds: after a run of entries scoring at least `x`, before one scoring less.
proof fn lemma_rank_slot(s: Seq<SuggestionView>, x: int)
    ensures
        0 <= rank_slot(s, x) <= s.len(),
        forall|j: int| 0 <= j < rank_slot(s, x) ==> s[j].score >= x,
        rank_slot(s, x) < s.len() ==> s[rank_slot(s, x)].score < x,
    decreases s.len(),
{
    if s.len() > 0 && s[0].score >= x {
        lemma_rank_slot(s.drop_first(), x);
        assert forall|j: int| 0 <= j < rank_slot(s, x) implies s[j].score >= x by {
            if j > 0 {
                assert(s[j] == s.drop_first()[j - 1]);
            }
        }
        if rank_slot(s, x) < s.len() {
            assert(s[rank_slot(s, x)] == s.drop_first()[rank_slot(s, x) - 1]);
        }
    }
}

/// Inserting by score keeps a descending sequence descending and adds exactly the new entry.
proof fn lemma_insert_ranked(s: Seq<SuggestionView>, x: SuggestionView)
    requires
        scores_descending(s),
    ensures
        scores_descending(insert_ranked(s, x)),
        insert_ranked(s, x).to_multiset() == s.to_multiset().insert(x),
{
    let k = rank_slot(s, x.score);
    lemma_rank_slot(s, x.score);
    let r = insert_ranked(s, x);
    assert(r.len() == s.len() + 1);
    assert forall|i: int, j: int| 0 <= i < j < r.len() implies r[i].score >= r[j].score by {
        if j < k {
            assert(r[i] == s[i] && r[j] == s[j]);
        } else if j == k {
            assert(r[j] == x);
            assert(r[i] == s[i]);
        } else if i < k {
            assert(r[i] == s[i] && r[j] == s[j - 1]);
        } else if i == k {
            assert(r[i] == x && r[j] == s[j - 1]);
            assert(s[k].score < x.score);
        } else {
            assert(r[i] == s[i - 1] && r[j] == s[j - 1]);
        }
    }
    broadcast use vstd::seq_lib::lemma_multiset_commutative;
    broadcast use vstd::seq_lib::group_to_multiset_ensures;
    assert(s.take(k) + s.skip(k) =~= s);
    assert((s.take(k) + seq![x]) =~= s.take(k).push(x));
    assert(r =~= s.take(k).push(x) + s.skip(k));
}

/// Ranking sorts: the suggestions come out by descending score, and they are exactly the
/// candidates, none dropped and none added.
pub proof fn law_ranked_is_sorted_permutation(s: Seq<SuggestionView>)
    ensures
        scores_descending(ranked(s)),
        ranked(s).to_multiset() == s.to_multiset(),
    decreases s.len(),
{
    broadcast use vstd::seq_lib::group_to_multiset_ensures;
    if s.len() > 0 {
        law_ranked_is_sorted_permutation(s.drop_last());
        lemma_insert_ranked(ranked(s.drop_last()), s.last());
        assert(s.drop_last().push(s.last()) =~= s);
    }
}

/// A suggestion scores `v`.
pub open spec fn scored(v: int) -> spec_fn(SuggestionView) -> bool {
    |x: SuggestionView| x.score == v
}

/// Filtering a sequence none of whose items pass leaves nothing.
proof fn lemma_filter_none(s: Seq<SuggestionView>, p: spec_fn(SuggestionView) -> bool)
    requires
        forall|j: int| 0 <= j < s.len() ==> !p(s[j]),
    ensures
        s.filter(p) == Seq::<SuggestionView>::empty(),
    decreases s.len(),
{
    reveal_with_fuel(Seq::<_>::filter, 1);
    if s.len() > 0 {
        lemma_filter_none(s.drop_last(), p);
    }
}

/// Ranking is stable: the suggestions of any one score come out in the order they went in.
pub proof fn law_ranked_is_stable(s: Seq<SuggestionView>, v: int)
    ensures
        ranked(s).filter(scored(v)) == s.filter(scored(v)),
    decreases s.len(),
{
    reveal_with_fuel(Seq::<_>::filter, 1);
    if s.len() > 0 {
        let t = s.drop_last();
        let x = s.last();
        let r = ranked(t);
        law_ranked_is_stable(t, v);
        law_ranked_is_sorted_permutation(t);
        let k = rank_slot(r, x.score);
        lemma_rank_slot(r, x.score);
        let p = scored(v);
        let front = r.take(k);
        let back = r.skip(k);
        assert(insert_ranked(r, x) == front + seq![x] + back);
        Seq::<SuggestionView>::filter_distributes_over_add(front + seq![x], back, p);
        Seq::<SuggestionView>::filter_distributes_over_add(front, seq![x], p);
        Seq::<SuggestionView>::filter_distributes_over_add(front, back, p);
        assert(front + back =~= r);
        assert(seq![x].drop_last() =~= Seq::<SuggestionView>::empty());
        assert(Seq::<SuggestionView>::empty().filter(p) == Seq::<SuggestionView>::empty());
        assert(seq![x].filter(p) == if p(x) { seq![x] } else { Seq::<SuggestionView>::empty() });
        if p(x) {
            assert forall|j: int| 0 <= j < back.len() implies !p(back[j]) by {
                assert(back[j] == r[k + j]);
                if k + j > k {
                    assert(r[k].score >= r[k + j].score);
                }
            }
            lemma_filter_none(back, p);
        }
        assert(t.push(x) =~= s);
    }
}


proof fn lemma_lower_idempotent(s: Seq<char>)
    ensures
        lower(lower(s)) == lower(s),
{
    assert(lower(lower(s)) =~= lower(s));
}

/// Matching ignores ASCII case in the candidate: a label, URL or extra text scores as its
/// lower-cased form does, and a label whose lower-cased form is the query is an exact match.
pub proof fn law_score_ignores_candidate_case(q: Seq<char>, label: Seq<char>, url: Seq<char>, extra: Option<Seq<char>>)
    ensures
        match_score(q, label, url, extra) == match_score(q, lower(label), url, extra),
        match_score(q, label, url, extra) == match_score(q, label, lower(url), extra),
        match_score(q, label, url, extra) == match_score(
            q,
            label,
            url,
            match extra {
                Some(e) => Some(lower(e)),
                None => None,
            },
        ),
        lower(label) == q ==> match_score(q, label, url, extra) == Some(100u32),
{
    lemma_lower_idempotent(label);
    lemma_lower_idempotent(url);
    if let Some(e) = extra {
        lemma_lower_idempotent(e);
    }
}

} // verus!
