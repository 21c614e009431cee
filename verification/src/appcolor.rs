//! The brand colour of the foreground application, for the AppSync mode.
//!
//! Well-known applications get their brand colour; any other process name is
//! hashed onto a hue so that each application still glows consistently.

use vstd::prelude::*;
use vstd::std_specs::iter::IteratorSpec;
use vstd::string::StringSliceAdditionalSpecFns;
use crate::openrgb::RgbColor;

verus! {

/// `s` in lower case, as `str::to_lowercase` computes it.
pub uninterp spec fn lowercased(s: Seq<char>) -> Seq<char>;

/// All characters of `s` are ASCII.
pub open spec fn ascii_text(s: Seq<char>) -> bool {
    forall|i: int| 0 <= i < s.len() ==> (#[trigger] s[i]) <= '\x7f'
}

/// `s` with the ASCII capitals `A`..`Z` replaced by `a`..`z`.
pub open spec fn ascii_lowered(s: Seq<char>) -> Seq<char> {
    s.map_values(|c: char| if 'A' <= c && c <= 'Z' { ((c as u32) + 32) as char } else { c })
}

/// `str::to_lowercase`: the lower-case equivalent of `s`, as defined by the
/// Unicode Derived Core Property Lowercase. The contract names the result;
/// of ASCII text it states the mapping, which takes each capital `A`..`Z` to
/// its small letter and leaves every other ASCII character as it is.
#[verifier::external_body]
pub(crate) fn lowercase(s: &str) -> (r: String)
    ensures
        r@ == lowercased(s@),
        ascii_text(s@) ==> r@ == ascii_lowered(s@),
{
    s.to_lowercase()
}

/// The characters of `s`, in order.
pub fn chars_of(s: &str) -> (out: Vec<char>)
    ensures
        out@ == s@,
{
    broadcast use vstd::string::group_string_axioms;

    let mut out: Vec<char> = Vec::new();
    let mut chars = s.chars();
    loop
        invariant
            out@ + chars.remaining() == s@,
        ensures
            out@ == s@,
        decreases s@.len() - out@.len(),
    {
        let ghost rest = chars.remaining();
        match chars.next() {
            Some(c) => {
                assert(rest[0] == c);
                out.push(c);
                assert(out@ + chars.remaining() =~= s@);
            },
            None => {
                assert(out@ =~= s@);
                break;
            },
        }
    }
    out
}

/// `n` occurs in `h` as a contiguous run (the empty text occurs everywhere).
pub open spec fn has_sub(h: Seq<char>, n: Seq<char>) -> bool {
    exists|i: int| 0 <= i <= h.len() - n.len() && #[trigger] h.subrange(i, i + n.len()) == n
}

/// Whether `needle` occurs in `hay`.
fn contains(hay: &Vec<char>, needle: &str) -> (b: bool)
    ensures
        b == has_sub(hay@, needle@),
{
    let n = chars_of(needle);
    if n.len() > hay.len() {
        return false;
    }
    let hl = hay.len();
    let last = hl - n.len();
    let mut i: usize = 0;
    loop
        invariant
            n@ == needle@,
            hl == hay@.len(),
            n@.len() <= hl,
            last == hl - n@.len(),
            i <= last,
            forall|k: int| 0 <= k < i ==> #[trigger] hay@.subrange(k, k + n@.len()) != n@,
        ensures
            forall|k: int| 0 <= k <= last ==> #[trigger] hay@.subrange(k, k + n@.len()) != n@,
        decreases last - i,
    {
        let mut j: usize = 0;
        let mut same = true;
        while j < n.len()
            invariant
                hl == hay@.len(),
                n@.len() <= hl,
                i <= last,
                last == hl - n@.len(),
                j <= n@.len(),
                same == forall|k: int| 0 <= k < j ==> hay@[i + k] == n@[k],
            decreases n@.len() - j,
        {
            if hay[i + j] != n[j] {
                same = false;
            }
            j = j + 1;
        }
        if same {
            assert(hay@.subrange(i as int, i + n@.len()) =~= n@);
            return true;
        }
        proof {
            let k = choose|k: int| 0 <= k < n@.len() && hay@[i + k] != n@[k];
            assert(hay@.subrange(i as int, i + n@.len())[k] != n@[k]);
        }
        if i == last {
            break;
        }
        i = i + 1;
    }
    proof {
        if has_sub(hay@, needle@) {
            let k = choose|k: int| 0 <= k <= hay@.len() - n@.len() && #[trigger] hay@.subrange(k, k + n@.len()) == n@;
            assert(hay@.subrange(k, k + n@.len()) != n@);
        }
    }
    false
}

/// The djb2 hash of `bytes`: start at 5381, then for each byte multiply by 33
/// and add the byte, wrapping at 32 bits.
pub open spec fn djb2(bytes: Seq<u8>) -> u32
    decreases bytes.len(),
{
    if bytes.len() == 0 {
        5381
    } else {
        ((djb2(bytes.drop_last()) as int * 33 + bytes.last()) % 0x1_0000_0000) as u32
    }
}

/// The djb2 hash of `bytes`.
fn djb2_hash(bytes: &[u8]) -> (h: u32)
    ensures
        h == djb2(bytes@),
{
    let mut h: u32 = 5381;
    let mut i: usize = 0;
    while i < bytes.len()
        invariant
            i <= bytes@.len(),
            h == djb2(bytes@.subrange(0, i as int)),
        decreases bytes@.len() - i,
    {
        proof {
            let s = bytes@.subrange(0, i + 1);
            assert(s.drop_last() =~= bytes@.subrange(0, i as int));
            assert(s.last() == bytes@[i as int]);
        }
        let v = (h as u64) * 33 + (bytes[i] as u64);
        h = (v % 0x1_0000_0000) as u32;
        i = i + 1;
    }
    assert(bytes@.subrange(0, bytes@.len() as int) =~= bytes@);
    h
}

/// Channel value `(3.876 k + 16.32)` rounded down: the ramp of a hue at 95%
/// saturation and 52% lightness, `k` sixtieths of the way along a sector.
pub open spec fn ramp(k: int) -> u8 {
    ((3876 * k + 16320) / 1000) as u8
}

/// The colour of hue `hue` (degrees, 0..360) at 95% saturation and 52%
/// lightness: the brightest channel 248, the dimmest 16, the third
/// following the hue across each 60-degree sector.
pub open spec fn hue_rgb(hue: int) -> RgbColor {
    let u = hue % 120;
    let k = if u < 60 {
        u
    } else {
        120 - u
    };
    let hi = ramp(60);
    let lo = ramp(0);
    let x = ramp(k);
    if hue < 60 {
        RgbColor { r: hi, g: x, b: lo }
    } else if hue < 120 {
        RgbColor { r: x, g: hi, b: lo }
    } else if hue < 180 {
        RgbColor { r: lo, g: hi, b: x }
    } else if hue < 240 {
        RgbColor { r: lo, g: x, b: hi }
    } else if hue < 300 {
        RgbColor { r: x, g: lo, b: hi }
    } else {
        RgbColor { r: hi, g: lo, b: x }
    }
}

/// The colour of a whole-degree hue at 95% saturation and 52% lightness.
pub fn hue_color(hue: u32) -> (c: RgbColor)
    requires
        hue < 360,
    ensures
        c == hue_rgb(hue as int),
{
    let u = hue % 120;
    let k = if u < 60 {
        u
    } else {
        120 - u
    };
    let hi = ((3876 * 60 + 16320) / 1000) as u8;
    let lo = (16320 / 1000) as u8;
    let x = ((3876 * k + 16320) / 1000) as u8;
    if hue < 60 {
        RgbColor::new(hi, x, lo)
    } else if hue < 120 {
        RgbColor::new(x, hi, lo)
    } else if hue < 180 {
        RgbColor::new(lo, hi, x)
    } else if hue < 240 {
        RgbColor::new(lo, x, hi)
    } else if hue < 300 {
        RgbColor::new(x, lo, hi)
    } else {
        RgbColor::new(hi, lo, x)
    }
}


/// The glow for a foreground window, given its process name `p` and title
/// `t` in lower case: the brand colour of a known application (checked in
/// this order), the default cyan for no process, otherwise the hue the djb2
/// hash of the name's UTF-8 bytes picks, modulo 360.
pub open spec fn app_rule(p: Seq<char>, t: Seq<char>) -> RgbColor {
    if has_sub(p, "spotify"@) || has_sub(t, "spotify"@) {
        RgbColor { r: 30, g: 215, b: 96 }
    } else if has_sub(p, "discord"@) || has_sub(t, "discord"@) {
        RgbColor { r: 88, g: 101, b: 242 }
    } else if has_sub(p, "code"@) || has_sub(p, "cursor"@) || has_sub(p, "devenv"@) || has_sub(p, "visual studio"@) {
        RgbColor { r: 0, g: 122, b: 204 }
    } else if has_sub(p, "chrome"@) {
        RgbColor { r: 66, g: 133, b: 244 }
    } else if has_sub(p, "msedge"@) || has_sub(p, "edge"@) {
        RgbColor { r: 0, g: 164, b: 239 }
    } else if has_sub(p, "firefox"@) {
        RgbColor { r: 255, g: 113, b: 57 }
    } else if has_sub(p, "steam"@) {
        RgbColor { r: 0, g: 173, b: 238 }
    } else if has_sub(p, "photoshop"@) {
        RgbColor { r: 49, g: 168, b: 255 }
    } else if has_sub(p, "illustrator"@) {
        RgbColor { r: 255, g: 154, b: 0 }
    } else if has_sub(p, "premiere"@) {
        RgbColor { r: 153, g: 153, b: 255 }
    } else if has_sub(p, "figma"@) {
        RgbColor { r: 242, g: 78, b: 30 }
    } else if has_sub(p, "slack"@) {
        RgbColor { r: 224, g: 30, b: 90 }
    } else if has_sub(p, "obs64"@) || has_sub(p, "obs"@) {
        RgbColor { r: 170, g: 0, b: 255 }
    } else if has_sub(p, "valorant"@) || has_sub(p, "riot"@) {
        RgbColor { r: 255, g: 70, b: 85 }
    } else if has_sub(p, "telegram"@) {
        RgbColor { r: 36, g: 161, b: 222 }
    } else if has_sub(p, "blender"@) {
        RgbColor { r: 245, g: 121, b: 42 }
    } else if has_sub(p, "youtube"@) || has_sub(t, "youtube"@) {
        RgbColor { r: 255, g: 0, b: 0 }
    } else if has_sub(p, "netflix"@) || has_sub(t, "netflix"@) {
        RgbColor { r: 229, g: 9, b: 20 }
    } else if has_sub(p, "twitch"@) || has_sub(t, "twitch"@) {
        RgbColor { r: 145, g: 70, b: 255 }
    } else if has_sub(p, "windowsterminal"@) || has_sub(p, "powershell"@) || has_sub(p, "cmd"@) {
        RgbColor { r: 0, g: 255, b: 128 }
    } else if has_sub(p, "notion"@) {
        RgbColor { r: 235, g: 235, b: 240 }
    } else if p.len() == 0 {
        RgbColor { r: 0, g: 210, b: 255 }
    } else {
        hue_rgb((djb2(vstd::utf8::encode_utf8(p)) % 360) as int)
    }
}

/// The colour `0xRRGGBB`.
pub open spec fn from_hex(v: int) -> RgbColor {
    RgbColor { r: (v / 65536) as u8, g: ((v / 256) % 256) as u8, b: (v % 256) as u8 }
}

/// Every brand gets its own colour: a window whose lower-case process name
/// (or, for the media and chat apps, title) holds a brand's key, and none of
/// the keys tried before it, glows in that brand's colour (the documented
/// hex value for Spotify #1ED760, Discord #5865F2, VS Code #007ACC, Chrome
/// #4285F4, Edge #00A4EF, Firefox #FF7139, Steam #00ADEE, Photoshop #31A8FF,
/// Figma #F24E1E and Valorant #FF4655). With no process name at all the glow
/// is the default cyan #00D2FF.
pub proof fn lemma_brand_colours(p: Seq<char>, t: Seq<char>)
    ensures
        (has_sub(p, "spotify"@) || has_sub(t, "spotify"@))
            ==> app_rule(p, t) == from_hex(0x1ED760),
        (has_sub(p, "discord"@) || has_sub(t, "discord"@)) && !(has_sub(p, "spotify"@) || has_sub(t, "spotify"@))
            ==> app_rule(p, t) == from_hex(0x5865F2),
        (has_sub(p, "code"@) || has_sub(p, "cursor"@) || has_sub(p, "devenv"@) || has_sub(p, "visual studio"@)) && !(has_sub(p, "spotify"@) || has_sub(t, "spotify"@)) && !(has_sub(p, "discord"@) || has_sub(t, "discord"@))
            ==> app_rule(p, t) == from_hex(0x007ACC),
        (has_sub(p, "chrome"@)) && !(has_sub(p, "spotify"@) || has_sub(t, "spotify"@)) && !(has_sub(p, "discord"@) || has_sub(t, "discord"@)) && !(has_sub(p, "code"@) || has_sub(p, "cursor"@) || has_sub(p, "devenv"@) || has_sub(p, "visual studio"@))
            ==> app_rule(p, t) == from_hex(0x4285F4),
        (has_sub(p, "msedge"@) || has_sub(p, "edge"@)) && !(has_sub(p, "spotify"@) || has_sub(t, "spotify"@)) && !(has_sub(p, "discord"@) || has_sub(t, "discord"@)) && !(has_sub(p, "code"@) || has_sub(p, "cursor"@) || has_sub(p, "devenv"@) || has_sub(p, "visual studio"@)) && !(has_sub(p, "chrome"@))
            ==> app_rule(p, t) == from_hex(0x00A4EF),
        (has_sub(p, "firefox"@)) && !(has_sub(p, "spotify"@) || has_sub(t, "spotify"@)) && !(has_sub(p, "discord"@) || has_sub(t, "discord"@)) && !(has_sub(p, "code"@) || has_sub(p, "cursor"@) || has_sub(p, "devenv"@) || has_sub(p, "visual studio"@)) && !(has_sub(p, "chrome"@)) && !(has_sub(p, "msedge"@) || has_sub(p, "edge"@))
            ==> app_rule(p, t) == from_hex(0xFF7139),
        (has_sub(p, "steam"@)) && !(has_sub(p, "spotify"@) || has_sub(t, "spotify"@)) && !(has_sub(p, "discord"@) || has_sub(t, "discord"@)) && !(has_sub(p, "code"@) || has_sub(p, "cursor"@) || has_sub(p, "devenv"@) || has_sub(p, "visual studio"@)) && !(has_sub(p, "chrome"@)) && !(has_sub(p, "msedge"@) || has_sub(p, "edge"@)) && !(has_sub(p, "firefox"@))
            ==> app_rule(p, t) == from_hex(0x00ADEE),
        (has_sub(p, "photoshop"@)) && !(has_sub(p, "spotify"@) || has_sub(t, "spotify"@)) && !(has_sub(p, "discord"@) || has_sub(t, "discord"@)) && !(has_sub(p, "code"@) || has_sub(p, "cursor"@) || has_sub(p, "devenv"@) || has_sub(p, "visual studio"@)) && !(has_sub(p, "chrome"@)) && !(has_sub(p, "msedge"@) || has_sub(p, "edge"@)) && !(has_sub(p, "firefox"@)) && !(has_sub(p, "steam"@))
            ==> app_rule(p, t) == from_hex(0x31A8FF),
        (has_sub(p, "illustrator"@)) && !(has_sub(p, "spotify"@) || has_sub(t, "spotify"@)) && !(has_sub(p, "discord"@) || has_sub(t, "discord"@)) && !(has_sub(p, "code"@) || has_sub(p, "cursor"@) || has_sub(p, "devenv"@) || has_sub(p, "visual studio"@)) && !(has_sub(p, "chrome"@)) && !(has_sub(p, "msedge"@) || has_sub(p, "edge"@)) && !(has_sub(p, "firefox"@)) && !(has_sub(p, "steam"@)) && !(has_sub(p, "photoshop"@))
            ==> app_rule(p, t) == (RgbColor { r: 255, g: 154, b: 0 }),
        (has_sub(p, "premiere"@)) && !(has_sub(p, "spotify"@) || has_sub(t, "spotify"@)) && !(has_sub(p, "discord"@) || has_sub(t, "discord"@)) && !(has_sub(p, "code"@) || has_sub(p, "cursor"@) || has_sub(p, "devenv"@) || has_sub(p, "visual studio"@)) && !(has_sub(p, "chrome"@)) && !(has_sub(p, "msedge"@) || has_sub(p, "edge"@)) && !(has_sub(p, "firefox"@)) && !(has_sub(p, "steam"@)) && !(has_sub(p, "photoshop"@)) && !(has_sub(p, "illustrator"@))
            ==> app_rule(p, t) == (RgbColor { r: 153, g: 153, b: 255 }),
        (has_sub(p, "figma"@)) && !(has_sub(p, "spotify"@) || has_sub(t, "spotify"@)) && !(has_sub(p, "discord"@) || has_sub(t, "discord"@)) && !(has_sub(p, "code"@) || has_sub(p, "cursor"@) || has_sub(p, "devenv"@) || has_sub(p, "visual studio"@)) && !(has_sub(p, "chrome"@)) && !(has_sub(p, "msedge"@) || has_sub(p, "edge"@)) && !(has_sub(p, "firefox"@)) && !(has_sub(p, "steam"@)) && !(has_sub(p, "photoshop"@)) && !(has_sub(p, "illustrator"@)) && !(has_sub(p, "premiere"@))
            ==> app_rule(p, t) == from_hex(0xF24E1E),
        (has_sub(p, "slack"@)) && !(has_sub(p, "spotify"@) || has_sub(t, "spotify"@)) && !(has_sub(p, "discord"@) || has_sub(t, "discord"@)) && !(has_sub(p, "code"@) || has_sub(p, "cursor"@) || has_sub(p, "devenv"@) || has_sub(p, "visual studio"@)) && !(has_sub(p, "chrome"@)) && !(has_sub(p, "msedge"@) || has_sub(p, "edge"@)) && !(has_sub(p, "firefox"@)) && !(has_sub(p, "steam"@)) && !(has_sub(p, "photoshop"@)) && !(has_sub(p, "illustrator"@)) && !(has_sub(p, "premiere"@)) && !(has_sub(p, "figma"@))
            ==> app_rule(p, t) == (RgbColor { r: 224, g: 30, b: 90 }),
        (has_sub(p, "obs64"@) || has_sub(p, "obs"@)) && !(has_sub(p, "spotify"@) || has_sub(t, "spotify"@)) && !(has_sub(p, "discord"@) || has_sub(t, "discord"@)) && !(has_sub(p, "code"@) || has_sub(p, "cursor"@) || has_sub(p, "devenv"@) || has_sub(p, "visual studio"@)) && !(has_sub(p, "chrome"@)) && !(has_sub(p, "msedge"@) || has_sub(p, "edge"@)) && !(has_sub(p, "firefox"@)) && !(has_sub(p, "steam"@)) && !(has_sub(p, "photoshop"@)) && !(has_sub(p, "illustrator"@)) && !(has_sub(p, "premiere"@)) && !(has_sub(p, "figma"@)) && !(has_sub(p, "slack"@))
            ==> app_rule(p, t) == (RgbColor { r: 170, g: 0, b: 255 }),
        (has_sub(p, "valorant"@) || has_sub(p, "riot"@)) && !(has_sub(p, "spotify"@) || has_sub(t, "spotify"@)) && !(has_sub(p, "discord"@) || has_sub(t, "discord"@)) && !(has_sub(p, "code"@) || has_sub(p, "cursor"@) || has_sub(p, "devenv"@) || has_sub(p, "visual studio"@)) && !(has_sub(p, "chrome"@)) && !(has_sub(p, "msedge"@) || has_sub(p, "edge"@)) && !(has_sub(p, "firefox"@)) && !(has_sub(p, "steam"@)) && !(has_sub(p, "photoshop"@)) && !(has_sub(p, "illustrator"@)) && !(has_sub(p, "premiere"@)) && !(has_sub(p, "figma"@)) && !(has_sub(p, "slack"@)) && !(has_sub(p, "obs64"@) || has_sub(p, "obs"@))
            ==> app_rule(p, t) == from_hex(0xFF4655),
        (has_sub(p, "telegram"@)) && !(has_sub(p, "spotify"@) || has_sub(t, "spotify"@)) && !(has_sub(p, "discord"@) || has_sub(t, "discord"@)) && !(has_sub(p, "code"@) || has_sub(p, "cursor"@) || has_sub(p, "devenv"@) || has_sub(p, "visual studio"@)) && !(has_sub(p, "chrome"@)) && !(has_sub(p, "msedge"@) || has_sub(p, "edge"@)) && !(has_sub(p, "firefox"@)) && !(has_sub(p, "steam"@)) && !(has_sub(p, "photoshop"@)) && !(has_sub(p, "illustrator"@)) && !(has_sub(p, "premiere"@)) && !(has_sub(p, "figma"@)) && !(has_sub(p, "slack"@)) && !(has_sub(p, "obs64"@) || has_sub(p, "obs"@)) && !(has_sub(p, "valorant"@) || has_sub(p, "riot"@))
            ==> app_rule(p, t) == (RgbColor { r: 36, g: 161, b: 222 }),
        (has_sub(p, "blender"@)) && !(has_sub(p, "spotify"@) || has_sub(t, "spotify"@)) && !(has_sub(p, "discord"@) || has_sub(t, "discord"@)) && !(has_sub(p, "code"@) || has_sub(p, "cursor"@) || has_sub(p, "devenv"@) || has_sub(p, "visual studio"@)) && !(has_sub(p, "chrome"@)) && !(has_sub(p, "msedge"@) || has_sub(p, "edge"@)) && !(has_sub(p, "firefox"@)) && !(has_sub(p, "steam"@)) && !(has_sub(p, "photoshop"@)) && !(has_sub(p, "illustrator"@)) && !(has_sub(p, "premiere"@)) && !(has_sub(p, "figma"@)) && !(has_sub(p, "slack"@)) && !(has_sub(p, "obs64"@) || has_sub(p, "obs"@)) && !(has_sub(p, "valorant"@) || has_sub(p, "riot"@)) && !(has_sub(p, "telegram"@))
            ==> app_rule(p, t) == (RgbColor { r: 245, g: 121, b: 42 }),
        (has_sub(p, "youtube"@) || has_sub(t, "youtube"@)) && !(has_sub(p, "spotify"@) || has_sub(t, "spotify"@)) && !(has_sub(p, "discord"@) || has_sub(t, "discord"@)) && !(has_sub(p, "code"@) || has_sub(p, "cursor"@) || has_sub(p, "devenv"@) || has_sub(p, "visual studio"@)) && !(has_sub(p, "chrome"@)) && !(has_sub(p, "msedge"@) || has_sub(p, "edge"@)) && !(has_sub(p, "firefox"@)) && !(has_sub(p, "steam"@)) && !(has_sub(p, "photoshop"@)) && !(has_sub(p, "illustrator"@)) && !(has_sub(p, "premiere"@)) && !(has_sub(p, "figma"@)) && !(has_sub(p, "slack"@)) && !(has_sub(p, "obs64"@) || has_sub(p, "obs"@)) && !(has_sub(p, "valorant"@) || has_sub(p, "riot"@)) && !(has_sub(p, "telegram"@)) && !(has_sub(p, "blender"@))
            ==> app_rule(p, t) == (RgbColor { r: 255, g: 0, b: 0 }),
        (has_sub(p, "netflix"@) || has_sub(t, "netflix"@)) && !(has_sub(p, "spotify"@) || has_sub(t, "spotify"@)) && !(has_sub(p, "discord"@) || has_sub(t, "discord"@)) && !(has_sub(p, "code"@) || has_sub(p, "cursor"@) || has_sub(p, "devenv"@) || has_sub(p, "visual studio"@)) && !(has_sub(p, "chrome"@)) && !(has_sub(p, "msedge"@) || has_sub(p, "edge"@)) && !(has_sub(p, "firefox"@)) && !(has_sub(p, "steam"@)) && !(has_sub(p, "photoshop"@)) && !(has_sub(p, "illustrator"@)) && !(has_sub(p, "premiere"@)) && !(has_sub(p, "figma"@)) && !(has_sub(p, "slack"@)) && !(has_sub(p, "obs64"@) || has_sub(p, "obs"@)) && !(has_sub(p, "valorant"@) || has_sub(p, "riot"@)) && !(has_sub(p, "telegram"@)) && !(has_sub(p, "blender"@)) && !(has_sub(p, "youtube"@) || has_sub(t, "youtube"@))
            ==> app_rule(p, t) == (RgbColor { r: 229, g: 9, b: 20 }),
        (has_sub(p, "twitch"@) || has_sub(t, "twitch"@)) && !(has_sub(p, "spotify"@) || has_sub(t, "spotify"@)) && !(has_sub(p, "discord"@) || has_sub(t, "discord"@)) && !(has_sub(p, "code"@) || has_sub(p, "cursor"@) || has_sub(p, "devenv"@) || has_sub(p, "visual studio"@)) && !(has_sub(p, "chrome"@)) && !(has_sub(p, "msedge"@) || has_sub(p, "edge"@)) && !(has_sub(p, "firefox"@)) && !(has_sub(p, "steam"@)) && !(has_sub(p, "photoshop"@)) && !(has_sub(p, "illustrator"@)) && !(has_sub(p, "premiere"@)) && !(has_sub(p, "figma"@)) && !(has_sub(p, "slack"@)) && !(has_sub(p, "obs64"@) || has_sub(p, "obs"@)) && !(has_sub(p, "valorant"@) || has_sub(p, "riot"@)) && !(has_sub(p, "telegram"@)) && !(has_sub(p, "blender"@)) && !(has_sub(p, "youtube"@) || has_sub(t, "youtube"@)) && !(has_sub(p, "netflix"@) || has_sub(t, "netflix"@))
            ==> app_rule(p, t) == (RgbColor { r: 145, g: 70, b: 255 }),
        (has_sub(p, "windowsterminal"@) || has_sub(p, "powershell"@) || has_sub(p, "cmd"@)) && !(has_sub(p, "spotify"@) || has_sub(t, "spotify"@)) && !(has_sub(p, "discord"@) || has_sub(t, "discord"@)) && !(has_sub(p, "code"@) || has_sub(p, "cursor"@) || has_sub(p, "devenv"@) || has_sub(p, "visual studio"@)) && !(has_sub(p, "chrome"@)) && !(has_sub(p, "msedge"@) || has_sub(p, "edge"@)) && !(has_sub(p, "firefox"@)) && !(has_sub(p, "steam"@)) && !(has_sub(p, "photoshop"@)) && !(has_sub(p, "illustrator"@)) && !(has_sub(p, "premiere"@)) && !(has_sub(p, "figma"@)) && !(has_sub(p, "slack"@)) && !(has_sub(p, "obs64"@) || has_sub(p, "obs"@)) && !(has_sub(p, "valorant"@) || has_sub(p, "riot"@)) && !(has_sub(p, "telegram"@)) && !(has_sub(p, "blender"@)) && !(has_sub(p, "youtube"@) || has_sub(t, "youtube"@)) && !(has_sub(p, "netflix"@) || has_sub(t, "netflix"@)) && !(has_sub(p, "twitch"@) || has_sub(t, "twitch"@))
            ==> app_rule(p, t) == (RgbColor { r: 0, g: 255, b: 128 }),
        (has_sub(p, "notion"@)) && !(has_sub(p, "spotify"@) || has_sub(t, "spotify"@)) && !(has_sub(p, "discord"@) || has_sub(t, "discord"@)) && !(has_sub(p, "code"@) || has_sub(p, "cursor"@) || has_sub(p, "devenv"@) || has_sub(p, "visual studio"@)) && !(has_sub(p, "chrome"@)) && !(has_sub(p, "msedge"@) || has_sub(p, "edge"@)) && !(has_sub(p, "firefox"@)) && !(has_sub(p, "steam"@)) && !(has_sub(p, "photoshop"@)) && !(has_sub(p, "illustrator"@)) && !(has_sub(p, "premiere"@)) && !(has_sub(p, "figma"@)) && !(has_sub(p, "slack"@)) && !(has_sub(p, "obs64"@) || has_sub(p, "obs"@)) && !(has_sub(p, "valorant"@) || has_sub(p, "riot"@)) && !(has_sub(p, "telegram"@)) && !(has_sub(p, "blender"@)) && !(has_sub(p, "youtube"@) || has_sub(t, "youtube"@)) && !(has_sub(p, "netflix"@) || has_sub(t, "netflix"@)) && !(has_sub(p, "twitch"@) || has_sub(t, "twitch"@)) && !(has_sub(p, "windowsterminal"@) || has_sub(p, "powershell"@) || has_sub(p, "cmd"@))
            ==> app_rule(p, t) == (RgbColor { r: 235, g: 235, b: 240 }),
        !(has_sub(p, "spotify"@) || has_sub(t, "spotify"@)) && !(has_sub(p, "discord"@) || has_sub(t, "discord"@)) && !(has_sub(p, "code"@) || has_sub(p, "cursor"@) || has_sub(p, "devenv"@) || has_sub(p, "visual studio"@)) && !(has_sub(p, "chrome"@)) && !(has_sub(p, "msedge"@) || has_sub(p, "edge"@)) && !(has_sub(p, "firefox"@)) && !(has_sub(p, "steam"@)) && !(has_sub(p, "photoshop"@)) && !(has_sub(p, "illustrator"@)) && !(has_sub(p, "premiere"@)) && !(has_sub(p, "figma"@)) && !(has_sub(p, "slack"@)) && !(has_sub(p, "obs64"@) || has_sub(p, "obs"@)) && !(has_sub(p, "valorant"@) || has_sub(p, "riot"@)) && !(has_sub(p, "telegram"@)) && !(has_sub(p, "blender"@)) && !(has_sub(p, "youtube"@) || has_sub(t, "youtube"@)) && !(has_sub(p, "netflix"@) || has_sub(t, "netflix"@)) && !(has_sub(p, "twitch"@) || has_sub(t, "twitch"@)) && !(has_sub(p, "windowsterminal"@) || has_sub(p, "powershell"@) || has_sub(p, "cmd"@)) && !(has_sub(p, "notion"@)) && p.len() == 0
            ==> app_rule(p, t) == from_hex(0x00D2FF),
{
}

/// The glow for a window whose process name and title are already in lower
/// case.
pub fn app_color_for(process: &str, title: &str) -> (c: RgbColor)
    ensures
        c == app_rule(process@, title@),
{
    let p = chars_of(process);
    let t = chars_of(title);
    if contains(&p, "spotify") || contains(&t, "spotify") {
        RgbColor::new(30, 215, 96)
    } else if contains(&p, "discord") || contains(&t, "discord") {
        RgbColor::new(88, 101, 242)
    } else if contains(&p, "code") || contains(&p, "cursor") || contains(&p, "devenv") || contains(&p, "visual studio") {
        RgbColor::new(0, 122, 204)
    } else if contains(&p, "chrome") {
        RgbColor::new(66, 133, 244)
    } else if contains(&p, "msedge") || contains(&p, "edge") {
        RgbColor::new(0, 164, 239)
    } else if contains(&p, "firefox") {
        RgbColor::new(255, 113, 57)
    } else if contains(&p, "steam") {
        RgbColor::new(0, 173, 238)
    } else if contains(&p, "photoshop") {
        RgbColor::new(49, 168, 255)
    } else if contains(&p, "illustrator") {
        RgbColor::new(255, 154, 0)
    } else if contains(&p, "premiere") {
        RgbColor::new(153, 153, 255)
    } else if contains(&p, "figma") {
        RgbColor::new(242, 78, 30)
    } else if contains(&p, "slack") {
        RgbColor::new(224, 30, 90)
    } else if contains(&p, "obs64") || contains(&p, "obs") {
        RgbColor::new(170, 0, 255)
    } else if contains(&p, "valorant") || contains(&p, "riot") {
        RgbColor::new(255, 70, 85)
    } else if contains(&p, "telegram") {
        RgbColor::new(36, 161, 222)
    } else if contains(&p, "blender") {
        RgbColor::new(245, 121, 42)
    } else if contains(&p, "youtube") || contains(&t, "youtube") {
        RgbColor::new(255, 0, 0)
    } else if contains(&p, "netflix") || contains(&t, "netflix") {
        RgbColor::new(229, 9, 20)
    } else if contains(&p, "twitch") || contains(&t, "twitch") {
        RgbColor::new(145, 70, 255)
    } else if contains(&p, "windowsterminal") || contains(&p, "powershell") || contains(&p, "cmd") {
        RgbColor::new(0, 255, 128)
    } else if contains(&p, "notion") {
        RgbColor::new(235, 235, 240)
    } else if p.len() == 0 {
        RgbColor::new(0, 210, 255)
    } else {
        let h = djb2_hash(process.as_bytes());
        hue_color(h % 360)
    }
}

/// The brand colour glow for the foreground application, from its process
/// name and window title (compared in lower case).
pub fn extract_app_color(process_name: &str, title: &str) -> (c: RgbColor)
    ensures
        c == app_rule(lowercased(process_name@), lowercased(title@)),
        ascii_text(process_name@) && ascii_text(title@) ==> c == app_rule(
            ascii_lowered(process_name@),
            ascii_lowered(title@),
        ),
{
    let proc_lower = lowercase(process_name);
    let title_lower = lowercase(title);
    app_color_for(proc_lower.as_str(), title_lower.as_str())
}


/// A lower-case process name `p` or window title `t` names a code editor, an
/// IDE or a terminal.
pub open spec fn coding_window(p: Seq<char>, t: Seq<char>) -> bool {
    has_sub(p, "code.exe"@) || has_sub(t, "code.exe"@)
        || has_sub(p, "cursor.exe"@) || has_sub(t, "cursor.exe"@)
        || has_sub(p, "devenv.exe"@) || has_sub(t, "devenv.exe"@)
        || has_sub(p, "pycharm"@) || has_sub(t, "pycharm"@)
        || has_sub(p, "clion"@) || has_sub(t, "clion"@)
        || has_sub(p, "webstorm"@) || has_sub(t, "webstorm"@)
        || has_sub(p, "idea64"@) || has_sub(t, "idea64"@)
        || has_sub(p, "sublime"@) || has_sub(t, "sublime"@)
        || has_sub(p, "notepad++"@) || has_sub(t, "notepad++"@)
        || has_sub(p, "windowsterminal.exe"@) || has_sub(t, "windowsterminal.exe"@)
        || has_sub(p, "powershell.exe"@) || has_sub(t, "powershell.exe"@)
        || has_sub(p, "cmd.exe"@) || has_sub(t, "cmd.exe"@)
        || has_sub(p, "github desktop"@) || has_sub(t, "github desktop"@)
        || has_sub(p, "visual studio"@) || has_sub(t, "visual studio"@)
        || has_sub(p, "neovim"@) || has_sub(t, "neovim"@)
        || has_sub(p, "nvim"@) || has_sub(t, "nvim"@)
}

/// A lower-case process name `p` or window title `t` names a game or a game
/// launcher.
pub open spec fn gaming_window(p: Seq<char>, t: Seq<char>) -> bool {
    has_sub(p, "steam.exe"@) || has_sub(t, "steam.exe"@)
        || has_sub(p, "epicgameslauncher"@) || has_sub(t, "epicgameslauncher"@)
        || has_sub(p, "riotclient"@) || has_sub(t, "riotclient"@)
        || has_sub(p, "valorant"@) || has_sub(t, "valorant"@)
        || has_sub(p, "cs2.exe"@) || has_sub(t, "cs2.exe"@)
        || has_sub(p, "overwatch"@) || has_sub(t, "overwatch"@)
        || has_sub(p, "dota2.exe"@) || has_sub(t, "dota2.exe"@)
        || has_sub(p, "league of legends"@) || has_sub(t, "league of legends"@)
        || has_sub(p, "cyberpunk2077"@) || has_sub(t, "cyberpunk2077"@)
        || has_sub(p, "rdr2"@) || has_sub(t, "rdr2"@)
        || has_sub(p, "gta5.exe"@) || has_sub(t, "gta5.exe"@)
        || has_sub(p, "cod.exe"@) || has_sub(t, "cod.exe"@)
        || has_sub(p, "minecraft"@) || has_sub(t, "minecraft"@)
        || has_sub(p, "fortnite"@) || has_sub(t, "fortnite"@)
}

/// A lower-case sensor label names a CPU or package sensor (never a GPU).
pub open spec fn cpu_label(p: Seq<char>) -> bool {
    !has_sub(p, "gpu"@) && (has_sub(p, "cpu"@)
        || has_sub(p, "core"@)
        || has_sub(p, "package"@)
        || has_sub(p, "tctl"@)
        || has_sub(p, "tdie"@)
        || has_sub(p, "k10temp"@)
        || has_sub(p, "coretemp"@))
}

/// Whether a window with this lower-case process name and title is for
/// coding, and whether it is for gaming.
pub fn window_kind(process: &str, title: &str) -> (r: (bool, bool))
    ensures
        r == (coding_window(process@, title@), gaming_window(process@, title@)),
{
    let p = chars_of(process);
    let t = chars_of(title);
    let coding = contains(&p, "code.exe") || contains(&t, "code.exe")
        || contains(&p, "cursor.exe") || contains(&t, "cursor.exe")
        || contains(&p, "devenv.exe") || contains(&t, "devenv.exe")
        || contains(&p, "pycharm") || contains(&t, "pycharm")
        || contains(&p, "clion") || contains(&t, "clion")
        || contains(&p, "webstorm") || contains(&t, "webstorm")
        || contains(&p, "idea64") || contains(&t, "idea64")
        || contains(&p, "sublime") || contains(&t, "sublime")
        || contains(&p, "notepad++") || contains(&t, "notepad++")
        || contains(&p, "windowsterminal.exe") || contains(&t, "windowsterminal.exe")
        || contains(&p, "powershell.exe") || contains(&t, "powershell.exe")
        || contains(&p, "cmd.exe") || contains(&t, "cmd.exe")
        || contains(&p, "github desktop") || contains(&t, "github desktop")
        || contains(&p, "visual studio") || contains(&t, "visual studio")
        || contains(&p, "neovim") || contains(&t, "neovim")
        || contains(&p, "nvim") || contains(&t, "nvim");
    let gaming = contains(&p, "steam.exe") || contains(&t, "steam.exe")
        || contains(&p, "epicgameslauncher") || contains(&t, "epicgameslauncher")
        || contains(&p, "riotclient") || contains(&t, "riotclient")
        || contains(&p, "valorant") || contains(&t, "valorant")
        || contains(&p, "cs2.exe") || contains(&t, "cs2.exe")
        || contains(&p, "overwatch") || contains(&t, "overwatch")
        || contains(&p, "dota2.exe") || contains(&t, "dota2.exe")
        || contains(&p, "league of legends") || contains(&t, "league of legends")
        || contains(&p, "cyberpunk2077") || contains(&t, "cyberpunk2077")
        || contains(&p, "rdr2") || contains(&t, "rdr2")
        || contains(&p, "gta5.exe") || contains(&t, "gta5.exe")
        || contains(&p, "cod.exe") || contains(&t, "cod.exe")
        || contains(&p, "minecraft") || contains(&t, "minecraft")
        || contains(&p, "fortnite") || contains(&t, "fortnite");
    (coding, gaming)
}

/// Whether the foreground window is for coding, and whether it is for gaming,
/// from its process name and title (compared in lower case).
pub fn classify_window(process_name: &str, title: &str) -> (r: (bool, bool))
    ensures
        r == (coding_window(lowercased(process_name@), lowercased(title@)), gaming_window(
            lowercased(process_name@),
            lowercased(title@),
        )),
        ascii_text(process_name@) && ascii_text(title@) ==> r == (coding_window(
            ascii_lowered(process_name@),
            ascii_lowered(title@),
        ), gaming_window(ascii_lowered(process_name@), ascii_lowered(title@))),
{
    let proc_lower = lowercase(process_name);
    let title_lower = lowercase(title);
    window_kind(proc_lower.as_str(), title_lower.as_str())
}

/// The foreground window: its title, its process name, and whether it is for
/// coding or for gaming.
pub struct ActiveWindowInfo {
    pub title: String,
    pub process_name: String,
    pub is_coding: bool,
    pub is_gaming: bool,
}

impl ActiveWindowInfo {
    /// No foreground window: empty names, neither coding nor gaming.
    pub fn none() -> (w: ActiveWindowInfo)
        ensures
            w.title@ == Seq::<char>::empty(),
            w.process_name@ == Seq::<char>::empty(),
            !w.is_coding,
            !w.is_gaming,
    {
        ActiveWindowInfo {
            title: String::new(),
            process_name: String::new(),
            is_coding: false,
            is_gaming: false,
        }
    }

    /// The window with this process name and title, classified in lower case.
    pub fn classified(process_name: String, title: String) -> (w: ActiveWindowInfo)
        ensures
            w.title@ == title@,
            w.process_name@ == process_name@,
            w.is_coding == coding_window(lowercased(process_name@), lowercased(title@)),
            w.is_gaming == gaming_window(lowercased(process_name@), lowercased(title@)),
    {
        let (is_coding, is_gaming) = classify_window(process_name.as_str(), title.as_str());
        ActiveWindowInfo { title, process_name, is_coding, is_gaming }
    }
}

/// Whether a temperature sensor label (compared in lower case) is a genuine
/// CPU or package sensor; a label naming the GPU never is.
pub fn is_cpu_sensor(label: &str) -> (b: bool)
    ensures
        b == cpu_label(lowercased(label@)),
        ascii_text(label@) ==> b == cpu_label(ascii_lowered(label@)),
{
    let l = lowercase(label);
    let p = chars_of(l.as_str());
    !contains(&p, "gpu") && (contains(&p, "cpu")
        || contains(&p, "core")
        || contains(&p, "package")
        || contains(&p, "tctl")
        || contains(&p, "tdie")
        || contains(&p, "k10temp")
        || contains(&p, "coretemp"))
}

} // verus!
