//! The settings the UI sends and the app saves: mode and pattern names, the
//! marquee message, and the panel layout, each checked the way the commands
//! accept them.

use vstd::prelude::*;
use crate::appcolor::{chars_of, lowercase, lowercased};
use crate::font::has_glyph;
use crate::engine::{AppMode, DebugPattern, PanelLayout, VizStyle};

verus! {

/// `String::push`: appends `c` to the end of `s`.
#[verifier::external_body]
fn push_char(s: &mut String, c: char)
    ensures
        final(s)@ == old(s)@.push(c),
{
    s.push(c)
}

/// Whether the characters `a` spell out `lit`.
fn text_is(a: &Vec<char>, lit: &str) -> (b: bool)
    ensures
        b == (a@ == lit@),
{
    let l = chars_of(lit);
    if a.len() != l.len() {
        return false;
    }
    let mut i: usize = 0;
    while i < a.len()
        invariant
            a@.len() == l@.len(),
            l@ == lit@,
            i <= a@.len(),
            forall|k: int| 0 <= k < i ==> a@[k] == l@[k],
        decreases a@.len() - i,
    {
        if a[i] != l[i] {
            return false;
        }
        i = i + 1;
    }
    assert(a@ =~= l@);
    true
}

/// The name a mode is saved and sent under.
pub open spec fn mode_text(m: AppMode) -> Seq<char> {
    match m {
        AppMode::Smart => "smart"@,
        AppMode::Thermal => "thermal"@,
        AppMode::Visualizer => "visualizer"@,
        AppMode::Coding => "coding"@,
        AppMode::Gaming => "gaming"@,
        AppMode::Static => "static"@,
        AppMode::Breathing => "breathing"@,
        AppMode::Rainbow => "rainbow"@,
        AppMode::AppSync => "appsync"@,
        AppMode::Text => "text"@,
        AppMode::Snake => "snake"@,
        AppMode::Tetris => "tetris"@,
        AppMode::Off => "off"@,
    }
}

/// The mode a lower-case name selects, if any.
pub open spec fn mode_named(s: Seq<char>) -> Option<AppMode> {
    if s == "smart"@ {
        Some(AppMode::Smart)
    } else if s == "thermal"@ {
        Some(AppMode::Thermal)
    } else if s == "visualizer"@ {
        Some(AppMode::Visualizer)
    } else if s == "coding"@ {
        Some(AppMode::Coding)
    } else if s == "gaming"@ {
        Some(AppMode::Gaming)
    } else if s == "static"@ {
        Some(AppMode::Static)
    } else if s == "breathing"@ {
        Some(AppMode::Breathing)
    } else if s == "rainbow"@ {
        Some(AppMode::Rainbow)
    } else if s == "appsync"@ {
        Some(AppMode::AppSync)
    } else if s == "text"@ {
        Some(AppMode::Text)
    } else if s == "snake"@ {
        Some(AppMode::Snake)
    } else if s == "tetris"@ {
        Some(AppMode::Tetris)
    } else if s == "off"@ {
        Some(AppMode::Off)
    } else {
        None
    }
}

/// The mode restored from saved settings: the lighting modes by name; the
/// marquee, the games and any unknown name restore as Smart.
pub open spec fn restored(s: Seq<char>) -> AppMode {
    match mode_named(s) {
        Some(m) => if m == AppMode::Text || m == AppMode::Snake || m == AppMode::Tetris {
            AppMode::Smart
        } else {
            m
        },
        None => AppMode::Smart,
    }
}

/// The name a mode is saved and sent under.
pub fn mode_name(mode: AppMode) -> (s: &'static str)
    ensures
        s@ == mode_text(mode),
{
    match mode {
        AppMode::Smart => "smart",
        AppMode::Thermal => "thermal",
        AppMode::Visualizer => "visualizer",
        AppMode::Coding => "coding",
        AppMode::Gaming => "gaming",
        AppMode::Static => "static",
        AppMode::Breathing => "breathing",
        AppMode::Rainbow => "rainbow",
        AppMode::AppSync => "appsync",
        AppMode::Text => "text",
        AppMode::Snake => "snake",
        AppMode::Tetris => "tetris",
        AppMode::Off => "off",
    }
}

/// The mode a lower-case name selects, if any.
pub fn mode_from_name(name: &str) -> (m: Option<AppMode>)
    ensures
        m == mode_named(name@),
{
    let s = chars_of(name);
    if text_is(&s, "smart") {
        Some(AppMode::Smart)
    } else if text_is(&s, "thermal") {
        Some(AppMode::Thermal)
    } else if text_is(&s, "visualizer") {
        Some(AppMode::Visualizer)
    } else if text_is(&s, "coding") {
        Some(AppMode::Coding)
    } else if text_is(&s, "gaming") {
        Some(AppMode::Gaming)
    } else if text_is(&s, "static") {
        Some(AppMode::Static)
    } else if text_is(&s, "breathing") {
        Some(AppMode::Breathing)
    } else if text_is(&s, "rainbow") {
        Some(AppMode::Rainbow)
    } else if text_is(&s, "appsync") {
        Some(AppMode::AppSync)
    } else if text_is(&s, "text") {
        Some(AppMode::Text)
    } else if text_is(&s, "snake") {
        Some(AppMode::Snake)
    } else if text_is(&s, "tetris") {
        Some(AppMode::Tetris)
    } else if text_is(&s, "off") {
        Some(AppMode::Off)
    } else {
        None
    }
}

/// The mode a name selects, compared in lower case; `None` for an unknown
/// name.
pub fn parse_mode(name: &str) -> (m: Option<AppMode>)
    ensures
        m == mode_named(lowercased(name@)),
{
    let l = lowercase(name);
    mode_from_name(l.as_str())
}

/// The mode restored from a saved name, compared in lower case.
pub fn restore_mode(name: &str) -> (m: AppMode)
    ensures
        m == restored(lowercased(name@)),
{
    let l = lowercase(name);
    match mode_from_name(l.as_str()) {
        Some(m) => if m == AppMode::Text || m == AppMode::Snake || m == AppMode::Tetris {
            AppMode::Smart
        } else {
            m
        },
        None => AppMode::Smart,
    }
}

/// The diagnostic pattern a lower-case name selects, if any.
pub open spec fn pattern_named(s: Seq<char>) -> Option<DebugPattern> {
    if s == "off"@ {
        Some(DebugPattern::Off)
    } else if s == "all_white"@ {
        Some(DebugPattern::AllWhite)
    } else if s == "count"@ {
        Some(DebugPattern::Count)
    } else if s == "snake"@ {
        Some(DebugPattern::Snake)
    } else if s == "single"@ {
        Some(DebugPattern::Single)
    } else if s == "tens"@ {
        Some(DebugPattern::Tens)
    } else if s == "halves"@ {
        Some(DebugPattern::Halves)
    } else {
        None
    }
}

/// The diagnostic pattern a name selects, compared in lower case; `None` for
/// an unknown name.
pub fn parse_debug_pattern(name: &str) -> (p: Option<DebugPattern>)
    ensures
        p == pattern_named(lowercased(name@)),
{
    let l = lowercase(name);
    let s = chars_of(l.as_str());
    if text_is(&s, "off") {
        Some(DebugPattern::Off)
    } else if text_is(&s, "all_white") {
        Some(DebugPattern::AllWhite)
    } else if text_is(&s, "count") {
        Some(DebugPattern::Count)
    } else if text_is(&s, "snake") {
        Some(DebugPattern::Snake)
    } else if text_is(&s, "single") {
        Some(DebugPattern::Single)
    } else if text_is(&s, "tens") {
        Some(DebugPattern::Tens)
    } else if text_is(&s, "halves") {
        Some(DebugPattern::Halves)
    } else {
        None
    }
}

/// The visualizer style a lower-case name selects, if any.
pub open spec fn style_named(s: Seq<char>) -> Option<VizStyle> {
    if s == "columns"@ {
        Some(VizStyle::Columns)
    } else if s == "rows"@ {
        Some(VizStyle::Rows)
    } else if s == "bloom"@ {
        Some(VizStyle::Bloom)
    } else {
        None
    }
}

/// The visualizer style a name selects, compared in lower case; `None` for
/// an unknown name.
pub fn parse_viz_style(name: &str) -> (v: Option<VizStyle>)
    ensures
        v == style_named(lowercased(name@)),
{
    let l = lowercase(name);
    let s = chars_of(l.as_str());
    if text_is(&s, "columns") {
        Some(VizStyle::Columns)
    } else if text_is(&s, "rows") {
        Some(VizStyle::Rows)
    } else if text_is(&s, "bloom") {
        Some(VizStyle::Bloom)
    } else {
        None
    }
}

/// The bitmap font has a glyph for `c`: an ASCII letter or digit, or one of
/// ` .,!?:-_+/'=()`.
pub open spec fn renderable(c: char) -> bool {
    has_glyph(c)
}

/// The drawable characters of `s`, in order.
pub open spec fn drawable(s: Seq<char>) -> Seq<char>
    decreases s.len(),
{
    if s.len() == 0 {
        Seq::empty()
    } else if renderable(s.last()) {
        drawable(s.drop_last()).push(s.last())
    } else {
        drawable(s.drop_last())
    }
}

/// Longest marquee message kept.
pub const MARQUEE_MAX_CHARS: usize = 120;

/// The marquee message kept from `s`: its drawable characters, at most
/// `MARQUEE_MAX_CHARS` of them.
pub open spec fn cleaned(s: Seq<char>) -> Seq<char> {
    let d = drawable(s);
    if d.len() <= MARQUEE_MAX_CHARS {
        d
    } else {
        d.take(MARQUEE_MAX_CHARS as int)
    }
}

/// Whether the bitmap font can draw `c`.
fn is_renderable(c: char) -> (b: bool)
    ensures
        b == renderable(c),
{
    ('a' <= c && c <= 'z') || ('A' <= c && c <= 'Z') || ('0' <= c && c <= '9') || c == ' ' || c
        == '.' || c == ',' || c == '!' || c == '?' || c == ':' || c == '-' || c == '_' || c == '+'
        || c == '/' || c == '\'' || c == '=' || c == '(' || c == ')'
}

/// Drawable characters grow one at a time along the text.
proof fn lemma_drawable_prefix(s: Seq<char>, i: int)
    requires
        0 <= i < s.len(),
    ensures
        drawable(s.take(i + 1)) == if renderable(s[i]) {
            drawable(s.take(i)).push(s[i])
        } else {
            drawable(s.take(i))
        },
{
    let t = s.take(i + 1);
    assert(t.drop_last() =~= s.take(i));
    assert(t.last() == s[i]);
}

/// Longer texts keep at least as many drawable characters, and a prefix of
/// the drawable characters is kept by a prefix of the text.
proof fn lemma_drawable_grows(s: Seq<char>, i: int)
    requires
        0 <= i <= s.len(),
    ensures
        drawable(s.take(i)).len() <= drawable(s).len(),
        drawable(s.take(i)) == drawable(s).take(drawable(s.take(i)).len() as int),
    decreases s.len() - i,
{
    if i < s.len() {
        lemma_drawable_grows(s, i + 1);
        lemma_drawable_prefix(s, i);
    } else {
        assert(s.take(i) =~= s);
    }
}

/// The message to keep for the marquee: only characters the bitmap font can
/// draw, at most `MARQUEE_MAX_CHARS` of them.
pub fn clean_marquee_text(text: &str) -> (out: String)
    ensures
        out@ == cleaned(text@),
{
    let cs = chars_of(text);
    let mut out = String::new();
    let mut n: usize = 0;
    let mut i: usize = 0;
    while i < cs.len() && n < MARQUEE_MAX_CHARS
        invariant
            cs@ == text@,
            i <= cs@.len(),
            n <= MARQUEE_MAX_CHARS,
            out@ == drawable(text@.take(i as int)),
            n == out@.len(),
        decreases cs@.len() - i,
    {
        proof {
            lemma_drawable_prefix(text@, i as int);
        }
        if is_renderable(cs[i]) {
            push_char(&mut out, cs[i]);
            n = n + 1;
        }
        i = i + 1;
    }
    proof {
        lemma_drawable_grows(text@, i as int);
        if i == cs@.len() {
            assert(text@.take(i as int) =~= text@);
        } else {
            assert(out@ =~= drawable(text@).take(MARQUEE_MAX_CHARS as int));
        }
    }
    out
}

/// Most LEDs a strip may be configured with.
pub const MAX_LED_COUNT: u32 = 1000;

/// Highest focus LED a diagnostic pattern may be asked for.
pub const MAX_DEBUG_INDEX: u32 = 999;

/// The LED count the UI asked for, kept within 1 to `MAX_LED_COUNT`.
pub fn clamped_led_count(count: u32) -> (n: u32)
    ensures
        n == if count < 1 {
            1
        } else if count > MAX_LED_COUNT {
            MAX_LED_COUNT
        } else {
            count
        },
{
    if count < 1 {
        1
    } else if count > MAX_LED_COUNT {
        MAX_LED_COUNT
    } else {
        count
    }
}

/// The focus LED the UI asked for, at most `MAX_DEBUG_INDEX`.
pub fn clamped_debug_index(index: u32) -> (i: u32)
    ensures
        i == if index > MAX_DEBUG_INDEX {
            MAX_DEBUG_INDEX
        } else {
            index
        },
{
    if index > MAX_DEBUG_INDEX {
        MAX_DEBUG_INDEX
    } else {
        index
    }
}

/// The layout the UI asked for, clamped to what the panel supports: 1 to 16
/// lanes, 1 to 120 LEDs per lane, at most 63 unwired slots.
pub fn clamped_layout(
    lanes: u32,
    leds_per_lane: u32,
    first_index: u32,
    serpentine: bool,
    bass_at_top: bool,
) -> (l: PanelLayout)
    ensures
        l == (PanelLayout {
            lanes: if lanes < 1 {
                1
            } else if lanes > 16 {
                16
            } else {
                lanes
            },
            leds_per_lane: if leds_per_lane < 1 {
                1
            } else if leds_per_lane > 120 {
                120
            } else {
                leds_per_lane
            },
            first_index: if first_index > 63 {
                63
            } else {
                first_index
            },
            serpentine,
            bass_at_top,
        }),
{
    PanelLayout {
        lanes: if lanes < 1 {
            1
        } else if lanes > 16 {
            16
        } else {
            lanes
        },
        leds_per_lane: if leds_per_lane < 1 {
            1
        } else if leds_per_lane > 120 {
            120
        } else {
            leds_per_lane
        },
        first_index: if first_index > 63 {
            63
        } else {
            first_index
        },
        serpentine,
        bass_at_top,
    }
}


/// Every mode's name selects that mode again.
pub proof fn lemma_mode_names_round_trip(m: AppMode)
    ensures
        mode_named(mode_text(m)) == Some(m),
{
    reveal_strlit("smart");
    reveal_strlit("thermal");
    reveal_strlit("visualizer");
    reveal_strlit("coding");
    reveal_strlit("gaming");
    reveal_strlit("static");
    reveal_strlit("breathing");
    reveal_strlit("rainbow");
    reveal_strlit("appsync");
    reveal_strlit("text");
    reveal_strlit("snake");
    reveal_strlit("tetris");
    reveal_strlit("off");
    let names = seq![
        "smart"@,
        "thermal"@,
        "visualizer"@,
        "coding"@,
        "gaming"@,
        "static"@,
        "breathing"@,
        "rainbow"@,
        "appsync"@,
        "text"@,
        "snake"@,
        "tetris"@,
        "off"@,
    ];
    assert forall|i: int, j: int| 0 <= i < j < 13 implies names[i] != names[j] by {
        assert(names[i].len() != names[j].len() || names[i][0] != names[j][0] || names[i][1]
            != names[j][1]);
    }
    match m {
        AppMode::Smart => assert(mode_text(m) == names[0]),
        AppMode::Thermal => assert(mode_text(m) == names[1] && names[1] != names[0]),
        AppMode::Visualizer => assert(mode_text(m) == names[2]),
        AppMode::Coding => assert(mode_text(m) == names[3]),
        AppMode::Gaming => assert(mode_text(m) == names[4]),
        AppMode::Static => assert(mode_text(m) == names[5]),
        AppMode::Breathing => assert(mode_text(m) == names[6]),
        AppMode::Rainbow => assert(mode_text(m) == names[7]),
        AppMode::AppSync => assert(mode_text(m) == names[8]),
        AppMode::Text => assert(mode_text(m) == names[9]),
        AppMode::Snake => assert(mode_text(m) == names[10]),
        AppMode::Tetris => assert(mode_text(m) == names[11]),
        AppMode::Off => assert(mode_text(m) == names[12]),
    }
}

/// Saved settings restore the lighting mode they were saved with; the
/// marquee and the games restore as Smart.
pub proof fn lemma_saved_mode_restores(m: AppMode)
    ensures
        restored(mode_text(m)) == if m == AppMode::Text || m == AppMode::Snake || m == AppMode::Tetris {
            AppMode::Smart
        } else {
            m
        },
{
    lemma_mode_names_round_trip(m);
}

} // verus!
