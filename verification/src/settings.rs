//! User settings and their validation before they are stored.
use vstd::prelude::*;
use crate::text::str_eq;

verus! {

/// User settings (stored as settings.json).
#[derive(Clone, Debug)]
pub struct Settings {
    /// Skin id (registered name of `skins/*.js`).
    pub skin: String,
    /// Font scale in percent, 80-150 (100 = unscaled).
    pub font_scale: u32,
    /// Window opacity in percent, 40-100.
    pub opacity: u32,
    /// Accent: `auto` or a fixed color name.
    pub accent: String,
    pub show_week: bool,
    pub show_credits: bool,
    pub show_countdown: bool,
    pub show_email: bool,
    /// Polling interval in seconds, 30-600.
    pub poll_secs: u32,
    pub autostart: bool,
    /// Taskbar widget enabled.
    pub mini_enabled: bool,
    /// Taskbar widget position: `left` | `center` | `right`.
    pub mini_pos: String,
    /// Interface language: `zh` | `en`.
    pub lang: String,
}

/// The default interface language.
pub open spec fn default_lang_spec() -> Seq<char> {
    "zh"@
}

/// The default interface language.
pub fn default_lang() -> (r: String)
    ensures
        r@ == default_lang_spec(),
{
    String::from_str("zh")
}

/// The settings of a fresh installation.
pub open spec fn is_default(s: Settings) -> bool {
    &&& s.skin@ == "card"@
    &&& s.font_scale == 100
    &&& s.opacity == 96
    &&& s.accent@ == "auto"@
    &&& s.show_week
    &&& s.show_credits
    &&& s.show_countdown
    &&& s.show_email
    &&& s.poll_secs == 60
    &&& !s.autostart
    &&& s.mini_enabled
    &&& s.mini_pos@ == "right"@
    &&& s.lang@ == default_lang_spec()
}

impl Default for Settings {
    fn default() -> (r: Self)
        ensures
            is_default(r),
    {
        Settings {
            skin: String::from_str("card"),
            font_scale: 100,
            opacity: 96,
            accent: String::from_str("auto"),
            show_week: true,
            show_credits: true,
            show_countdown: true,
            show_email: true,
            poll_secs: 60,
            autostart: false,
            mini_enabled: true,
            mini_pos: String::from_str("right"),
            lang: default_lang(),
        }
    }
}

/// The registered skin ids.
pub open spec fn skin_ids() -> Seq<Seq<char>> {
    seq![
        "hero"@,
        "glass"@,
        "term"@,
        "card"@,
        "tile"@,
        "battery"@,
        "gauge"@,
        "neon"@,
        "liquid"@,
        "pixel"@,
    ]
}

/// The accepted accents (`green` is the former name of `mint`).
pub open spec fn accent_values() -> Seq<Seq<char>> {
    seq!["auto"@, "mint"@, "cyan"@, "sky"@, "violet"@, "amber"@, "rose"@, "green"@]
}

/// The accepted widget positions.
pub open spec fn mini_pos_values() -> Seq<Seq<char>> {
    seq!["left"@, "center"@, "right"@]
}

/// The accepted interface languages.
pub open spec fn lang_values() -> Seq<Seq<char>> {
    seq!["zh"@, "en"@]
}

fn skin_id(k: usize) -> (r: &'static str)
    requires
        k < 10,
    ensures
        r@ == skin_ids()[k as int],
{
    match k {
        0 => "hero",
        1 => "glass",
        2 => "term",
        3 => "card",
        4 => "tile",
        5 => "battery",
        6 => "gauge",
        7 => "neon",
        8 => "liquid",
        _ => "pixel",
    }
}

fn accent_value(k: usize) -> (r: &'static str)
    requires
        k < 8,
    ensures
        r@ == accent_values()[k as int],
{
    match k {
        0 => "auto",
        1 => "mint",
        2 => "cyan",
        3 => "sky",
        4 => "violet",
        5 => "amber",
        6 => "rose",
        _ => "green",
    }
}

fn mini_pos_value(k: usize) -> (r: &'static str)
    requires
        k < 3,
    ensures
        r@ == mini_pos_values()[k as int],
{
    match k {
        0 => "left",
        1 => "center",
        _ => "right",
    }
}

fn lang_value(k: usize) -> (r: &'static str)
    requires
        k < 2,
    ensures
        r@ == lang_values()[k as int],
{
    match k {
        0 => "zh",
        _ => "en",
    }
}

/// Which list of accepted values to look in.
enum Vocabulary {
    Skin,
    Accent,
    MiniPos,
    Lang,
}

spec fn vocabulary(v: Vocabulary) -> Seq<Seq<char>> {
    match v {
        Vocabulary::Skin => skin_ids(),
        Vocabulary::Accent => accent_values(),
        Vocabulary::MiniPos => mini_pos_values(),
        Vocabulary::Lang => lang_values(),
    }
}

fn vocabulary_len(v: &Vocabulary) -> (n: usize)
    ensures
        n == vocabulary(*v).len(),
{
    match v {
        Vocabulary::Skin => 10,
        Vocabulary::Accent => 8,
        Vocabulary::MiniPos => 3,
        Vocabulary::Lang => 2,
    }
}

fn vocabulary_word(v: &Vocabulary, k: usize) -> (r: &'static str)
    requires
        k < vocabulary(*v).len(),
    ensures
        r@ == vocabulary(*v)[k as int],
{
    match v {
        Vocabulary::Skin => skin_id(k),
        Vocabulary::Accent => accent_value(k),
        Vocabulary::MiniPos => mini_pos_value(k),
        Vocabulary::Lang => lang_value(k),
    }
}

fn is_one_of(s: &str, v: Vocabulary) -> (r: bool)
    ensures
        r == vocabulary(v).contains(s@),
{
    let n = vocabulary_len(&v);
    let mut k: usize = 0;
    while k < n
        invariant
            n == vocabulary(v).len(),
            k <= n,
            forall|j: int| 0 <= j < k ==> vocabulary(v)[j] != s@,
        decreases n - k,
    {
        if str_eq(s, vocabulary_word(&v, k)) {
            return true;
        }
        k += 1;
    }
    false
}

pub open spec fn clamp_spec(v: u32, lo: u32, hi: u32) -> u32 {
    if v < lo {
        lo
    } else if v > hi {
        hi
    } else {
        v
    }
}

/// `s` when it is one of the accepted values, else the fallback.
pub open spec fn accepted_or(s: Seq<char>, values: Seq<Seq<char>>, fallback: Seq<char>) -> Seq<char> {
    if values.contains(s) {
        s
    } else {
        fallback
    }
}

fn clamp_u32(v: u32, lo: u32, hi: u32) -> (r: u32)
    requires
        lo <= hi,
    ensures
        r == clamp_spec(v, lo, hi),
{
    if v < lo {
        lo
    } else if v > hi {
        hi
    } else {
        v
    }
}

/// `r` is the validated form of `s`: numbers clamped to their ranges,
/// unknown names replaced by their defaults, flags kept.
pub open spec fn sanitized(s: Settings, r: Settings) -> bool {
    &&& r.font_scale == clamp_spec(s.font_scale, 80, 150)
    &&& r.opacity == clamp_spec(s.opacity, 40, 100)
    &&& r.poll_secs == clamp_spec(s.poll_secs, 30, 600)
    &&& r.skin@ == accepted_or(s.skin@, skin_ids(), "card"@)
    &&& r.accent@ == accepted_or(s.accent@, accent_values(), "auto"@)
    &&& r.mini_pos@ == accepted_or(s.mini_pos@, mini_pos_values(), "right"@)
    &&& r.lang@ == accepted_or(s.lang@, lang_values(), default_lang_spec())
    &&& r.show_week == s.show_week
    &&& r.show_credits == s.show_credits
    &&& r.show_countdown == s.show_countdown
    &&& r.show_email == s.show_email
    &&& r.autostart == s.autostart
    &&& r.mini_enabled == s.mini_enabled
}

/// The settings as they are stored: numbers clamped to their ranges
/// (font scale 80-150, opacity 40-100, polling 30-600 s), unknown names
/// replaced by their defaults (skin `card`, accent `auto`, position
/// `right`, default language); the flags are kept.
pub fn sanitize_settings(s: Settings) -> (r: Settings)
    ensures
        sanitized(s, r),
{
    let mut s = s;
    s.font_scale = clamp_u32(s.font_scale, 80, 150);
    s.opacity = clamp_u32(s.opacity, 40, 100);
    s.poll_secs = clamp_u32(s.poll_secs, 30, 600);
    if !is_one_of(s.skin.as_str(), Vocabulary::Skin) {
        s.skin = String::from_str("card");
    }
    if !is_one_of(s.accent.as_str(), Vocabulary::Accent) {
        s.accent = String::from_str("auto");
    }
    if !is_one_of(s.mini_pos.as_str(), Vocabulary::MiniPos) {
        s.mini_pos = String::from_str("right");
    }
    if !is_one_of(s.lang.as_str(), Vocabulary::Lang) {
        s.lang = default_lang();
    }
    s
}

/// Whether a change of settings changes the interface language.
pub fn lang_changed(previous: &Settings, next: &Settings) -> (r: bool)
    ensures
        r == (previous.lang@ != next.lang@),
{
    !str_eq(previous.lang.as_str(), next.lang.as_str())
}

/// Validation is idempotent: validating already validated settings changes
/// nothing. Every validated number lies in its range and every validated
/// name is an accepted one.
pub proof fn lemma_sanitize_idempotent(s: Settings, r1: Settings, r2: Settings)
    requires
        sanitized(s, r1),
        sanitized(r1, r2),
    ensures
        r2.font_scale == r1.font_scale,
        r2.opacity == r1.opacity,
        r2.poll_secs == r1.poll_secs,
        r2.skin@ == r1.skin@,
        r2.accent@ == r1.accent@,
        r2.mini_pos@ == r1.mini_pos@,
        r2.lang@ == r1.lang@,
        r2.show_week == r1.show_week,
        r2.show_credits == r1.show_credits,
        r2.show_countdown == r1.show_countdown,
        r2.show_email == r1.show_email,
        r2.autostart == r1.autostart,
        r2.mini_enabled == r1.mini_enabled,
        80 <= r1.font_scale <= 150,
        40 <= r1.opacity <= 100,
        30 <= r1.poll_secs <= 600,
        skin_ids().contains(r1.skin@),
        accent_values().contains(r1.accent@),
        mini_pos_values().contains(r1.mini_pos@),
        lang_values().contains(r1.lang@),
{
    lemma_defaults_accepted();
}

/// Every default is an accepted value.
pub proof fn lemma_defaults_accepted()
    ensures
        skin_ids().contains("card"@),
        accent_values().contains("auto"@),
        mini_pos_values().contains("right"@),
        lang_values().contains(default_lang_spec()),
{
    assert(skin_ids()[3] == "card"@);
    assert(accent_values()[0] == "auto"@);
    assert(mini_pos_values()[2] == "right"@);
    assert(lang_values()[0] == "zh"@);
}

/// Validation keeps every documented name: the accents `auto`, `mint`,
/// `cyan`, `sky`, `violet`, `amber`, `rose`, `green`; the ten skins; the
/// positions `left`, `center`, `right`; the languages `zh` and `en`.
pub proof fn lemma_sanitize_keeps_known_names(s: Settings, r: Settings)
    requires
        sanitized(s, r),
    ensures
        s.accent@ == "auto"@ || s.accent@ == "mint"@ || s.accent@ == "cyan"@ || s.accent@ == "sky"@ || s.accent@ == "violet"@ || s.accent@ == "amber"@ || s.accent@ == "rose"@ || s.accent@ == "green"@ ==> r.accent@ == s.accent@,
        s.skin@ == "hero"@ || s.skin@ == "glass"@ || s.skin@ == "term"@ || s.skin@ == "card"@ || s.skin@ == "tile"@ || s.skin@ == "battery"@ || s.skin@ == "gauge"@ || s.skin@ == "neon"@ || s.skin@ == "liquid"@ || s.skin@ == "pixel"@ ==> r.skin@ == s.skin@,
        s.mini_pos@ == "left"@ || s.mini_pos@ == "center"@ || s.mini_pos@ == "right"@ ==> r.mini_pos@ == s.mini_pos@,
        s.lang@ == "zh"@ || s.lang@ == "en"@ ==> r.lang@ == s.lang@,
{
    assert(accent_values()[0] == "auto"@);
    assert(accent_values()[1] == "mint"@);
    assert(accent_values()[2] == "cyan"@);
    assert(accent_values()[3] == "sky"@);
    assert(accent_values()[4] == "violet"@);
    assert(accent_values()[5] == "amber"@);
    assert(accent_values()[6] == "rose"@);
    assert(accent_values()[7] == "green"@);
    assert(skin_ids()[0] == "hero"@);
    assert(skin_ids()[1] == "glass"@);
    assert(skin_ids()[2] == "term"@);
    assert(skin_ids()[3] == "card"@);
    assert(skin_ids()[4] == "tile"@);
    assert(skin_ids()[5] == "battery"@);
    assert(skin_ids()[6] == "gauge"@);
    assert(skin_ids()[7] == "neon"@);
    assert(skin_ids()[8] == "liquid"@);
    assert(skin_ids()[9] == "pixel"@);
    assert(mini_pos_values()[0] == "left"@);
    assert(mini_pos_values()[1] == "center"@);
    assert(mini_pos_values()[2] == "right"@);
    assert(lang_values()[0] == "zh"@);
    assert(lang_values()[1] == "en"@);
}

/// Validation of the numbers: a value inside its range (font scale 80-150,
/// opacity 40-100, polling 30-600 s) is kept; below it the lower end is
/// stored, above it the upper end.
pub proof fn lemma_sanitize_numbers(s: Settings, r: Settings)
    requires
        sanitized(s, r),
    ensures
        80 <= s.font_scale <= 150 ==> r.font_scale == s.font_scale,
        s.font_scale < 80 ==> r.font_scale == 80,
        s.font_scale > 150 ==> r.font_scale == 150,
        40 <= s.opacity <= 100 ==> r.opacity == s.opacity,
        s.opacity < 40 ==> r.opacity == 40,
        s.opacity > 100 ==> r.opacity == 100,
        30 <= s.poll_secs <= 600 ==> r.poll_secs == s.poll_secs,
        s.poll_secs < 30 ==> r.poll_secs == 30,
        s.poll_secs > 600 ==> r.poll_secs == 600,
{
}

} // verus!
