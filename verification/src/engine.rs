//! Lighting modes and the LED panel geometry.
//!
//! The strip is a grid, not a line: index order runs along a lane first, so an
//! effect computed along the linear index would restart at the bottom of every
//! lane. Effects are therefore computed per (row, column) and rendered into
//! strip order by [`render_grid`].

use vstd::prelude::*;
use crate::openrgb::{DeviceInfo, RgbColor, ZoneInfo};
use crate::font::{GLYPH_GAP, bottom_up, glyph_rows_bottom_up};
use vstd::std_specs::iter::IteratorSpec;

verus! {

/// What the lighting does.
#[derive(Clone, Copy, PartialEq, Eq, Structural, Debug)]
pub enum AppMode {
    /// Reacts by itself: coding gives a calm tone, gaming or heat the
    /// thermometer, music the visualizer, otherwise breathing.
    Smart,
    /// CPU temperature as a thermometer.
    Thermal,
    /// Audio spectrum.
    Visualizer,
    /// Calm, dim focus tone.
    Coding,
    /// Aggressive thermal profile.
    Gaming,
    /// Solid colour.
    Static,
    /// Smooth pulsing.
    Breathing,
    /// Moving spectrum.
    Rainbow,
    /// The foreground app's brand colour.
    AppSync,
    /// Scrolling marquee message.
    Text,
    /// Self-playing snake.
    Snake,
    /// Self-playing tetris.
    Tetris,
    /// All LEDs dark.
    Off,
}

/// Diagnostic test patterns that characterise the hardware.
#[derive(Clone, Copy, PartialEq, Eq, Structural, Debug)]
pub enum DebugPattern {
    /// Normal operation.
    Off,
    /// Every LED white: which LEDs respond at all.
    AllWhite,
    /// Repeating runs of 10 red, green, blue, white: count the runs.
    Count,
    /// A pulse travelling one LED at a time: map index to physical LED.
    Snake,
    /// Only the LED at the focus index: daisy-chained or parallel.
    Single,
    /// Every 10th LED lit: a ruler.
    Tens,
    /// Front half red, back half blue: mirroring between channels.
    Halves,
}

/// Visual style of the audio visualizer.
#[derive(Clone, Copy, PartialEq, Eq, Structural, Debug)]
pub enum VizStyle {
    /// One vertical bar per lane.
    Columns,
    /// One row per frequency band.
    Rows,
    /// Brightness blooming out from the centre row.
    Bloom,
}

/// Physical arrangement of the LEDs as a grid of lanes (columns) of
/// `leds_per_lane` LEDs (rows), after `first_index` unwired slots.
#[derive(Clone, Copy, PartialEq, Eq, Structural, Debug)]
pub struct PanelLayout {
    /// Number of addressable lanes (columns).
    pub lanes: u32,
    /// LEDs per lane (rows).
    pub leds_per_lane: u32,
    /// Unwired slots at the start of the strip.
    pub first_index: u32,
    /// Odd lanes run top to bottom.
    pub serpentine: bool,
    /// Bass at the top of each lane instead of the bottom.
    pub bass_at_top: bool,
}

impl Default for PanelLayout {
    /// This fan: 3 lanes of 13 LEDs, index 0 unwired, every lane bottom to
    /// top.
    fn default() -> (l: PanelLayout)
        ensures
            l == (PanelLayout {
                lanes: 3,
                leds_per_lane: 13,
                first_index: 1,
                serpentine: false,
                bass_at_top: false,
            }),
    {
        PanelLayout { lanes: 3, leds_per_lane: 13, first_index: 1, serpentine: false, bass_at_top: false }
    }
}

/// The slots the wiring covers: the lead-in plus the whole grid.
pub open spec fn slot_count(l: PanelLayout) -> int {
    l.first_index + l.lanes * l.leds_per_lane
}

/// Every strip index of the layout fits a `u32`.
pub open spec fn layout_fits(l: PanelLayout) -> bool {
    slot_count(l) <= u32::MAX
}

/// The strip index of grid cell (row, col), row 0 at the bottom: lanes follow
/// each other after the lead-in, and odd lanes run downward when the strip
/// is serpentine. Off the grid there is none.
pub open spec fn strip_index(l: PanelLayout, row: int, col: int) -> Option<int> {
    if row < 0 || col < 0 || row >= l.leds_per_lane || col >= l.lanes {
        None
    } else {
        let r = if l.serpentine && col % 2 == 1 {
            l.leds_per_lane - 1 - row
        } else {
            row
        };
        Some(l.first_index + col * l.leds_per_lane + r)
    }
}

/// The grid cell (row, col) wired to strip index `i`, if any.
pub open spec fn slot_at(l: PanelLayout, i: int) -> Option<(u32, u32)> {
    if l.leds_per_lane == 0 || i < l.first_index || i >= slot_count(l) {
        None
    } else {
        let k = i - l.first_index;
        let col = k / (l.leds_per_lane as int);
        let r = k % (l.leds_per_lane as int);
        let row = if l.serpentine && col % 2 == 1 {
            l.leds_per_lane - 1 - r
        } else {
            r
        };
        Some((row as u32, col as u32))
    }
}

/// Each grid cell has its own strip index inside the wired span, and that
/// index leads back to the cell: the wiring is one-to-one.
pub proof fn lemma_strip_index_inverse(l: PanelLayout, row: int, col: int)
    requires
        0 <= row < l.leds_per_lane,
        0 <= col < l.lanes,
    ensures
        strip_index(l, row, col) matches Some(i) && l.first_index <= i < slot_count(l) && slot_at(l, i)
            == Some((row as u32, col as u32)),
{
    let n = l.leds_per_lane as int;
    let r = if l.serpentine && col % 2 == 1 {
        n - 1 - row
    } else {
        row
    };
    let i = l.first_index + col * n + r;
    assert(0 <= r < n);
    vstd::arithmetic::div_mod::lemma_fundamental_div_mod_converse(col * n + r, n, col, r);
    assert(col * n + r < l.lanes * n) by (nonlinear_arith)
        requires
            0 <= r < n,
            0 <= col < l.lanes,
    ;
    assert(0 <= col * n) by (nonlinear_arith)
        requires
            0 <= col,
            0 <= n,
    ;
}

/// Every strip index the wiring covers leads to a grid cell, whose strip
/// index it is.
pub proof fn lemma_slot_at_inverse(l: PanelLayout, i: int)
    requires
        slot_at(l, i) is Some,
    ensures
        slot_at(l, i) matches Some(p) && p.0 < l.leds_per_lane && p.1 < l.lanes && strip_index(
            l,
            p.0 as int,
            p.1 as int,
        ) == Some(i),
{
    let n = l.leds_per_lane as int;
    let k = i - l.first_index;
    let col = k / n;
    let r = k % n;
    vstd::arithmetic::div_mod::lemma_fundamental_div_mod(k, n);
    assert(0 <= col < l.lanes) by {
        vstd::arithmetic::div_mod::lemma_div_pos_is_pos(k, n);
        vstd::arithmetic::div_mod::lemma_div_is_ordered(k, l.lanes * n - 1, n);
        vstd::arithmetic::div_mod::lemma_div_multiples_vanish_fancy(l.lanes as int, n - 1, n);
        assert(l.lanes * n - 1 == (l.lanes - 1) * n + (n - 1)) by (nonlinear_arith);
        vstd::arithmetic::div_mod::lemma_fundamental_div_mod_converse(
            l.lanes * n - 1,
            n,
            l.lanes - 1,
            n - 1,
        );
    }
}

impl PanelLayout {
    /// Total addressable slots the wiring covers, including the unwired
    /// lead-in.
    pub fn total_slots(&self) -> (n: u32)
        requires
            layout_fits(*self),
        ensures
            n == slot_count(*self),
    {
        proof {
            assert(0 <= self.lanes * self.leds_per_lane) by (nonlinear_arith);
        }
        self.first_index + self.lanes * self.leds_per_lane
    }

    /// The strip index of grid cell (row, col); `row` 0 is the bottom, `col`
    /// 0 the first lane. `None` off the grid.
    pub fn index_of(&self, row: u32, col: u32) -> (i: Option<u32>)
        requires
            layout_fits(*self),
        ensures
            match i {
                Some(v) => strip_index(*self, row as int, col as int) == Some(v as int),
                None => strip_index(*self, row as int, col as int) is None,
            },
    {
        if row >= self.leds_per_lane || col >= self.lanes {
            return None;
        }
        proof {
            lemma_strip_index_inverse(*self, row as int, col as int);
            assert(0 <= col * self.leds_per_lane <= self.lanes * self.leds_per_lane) by (nonlinear_arith)
                requires
                    col < self.lanes,
            ;
        }
        let r = if self.serpentine && col % 2 == 1 {
            self.leds_per_lane - 1 - row
        } else {
            row
        };
        Some(self.first_index + col * self.leds_per_lane + r)
    }
}

/// Render a grid effect into a strip frame of `led_count` colours.
///
/// `f(row, col)` gives the colour of one LED, `row` 0 at the bottom and `col`
/// 0 the first lane. Every slot outside the wired grid stays dark, so the
/// unwired lead-in is handled automatically.
pub fn render_grid<F: Fn(u32, u32) -> RgbColor>(layout: &PanelLayout, led_count: u32, f: F) -> (out: Vec<RgbColor>)
    requires
        layout_fits(*layout),
        forall|row: u32, col: u32|
            row < layout.leds_per_lane && col < layout.lanes ==> #[trigger] f.requires((row, col)),
    ensures
        out@.len() == led_count,
        forall|i: int|
            0 <= i < led_count ==> match slot_at(*layout, i) {
                Some(p) => f.ensures((p.0, p.1), #[trigger] out@[i]),
                None => out@[i] == RgbColor { r: 0, g: 0, b: 0 },
            },
{
    let black = RgbColor::new(0, 0, 0);
    let mut out: Vec<RgbColor> = Vec::new();
    let mut k: u32 = 0;
    while k < led_count
        invariant
            k <= led_count,
            out@.len() == k,
            forall|i: int| 0 <= i < k ==> out@[i] == black,
        decreases led_count - k,
    {
        out.push(black);
        k = k + 1;
    }
    let l = *layout;
    let mut col: u32 = 0;
    while col < l.lanes
        invariant
            l == *layout,
            layout_fits(l),
            forall|row: u32, c: u32| row < l.leds_per_lane && c < l.lanes ==> #[trigger] f.requires((row, c)),
            col <= l.lanes,
            out@.len() == led_count,
            forall|i: int|
                0 <= i < led_count ==> match slot_at(l, i) {
                    Some(p) => if p.1 < col {
                        f.ensures((p.0, p.1), #[trigger] out@[i])
                    } else {
                        out@[i] == black
                    },
                    None => out@[i] == black,
                },
        decreases l.lanes - col,
    {
        let mut row: u32 = 0;
        while row < l.leds_per_lane
            invariant
                l == *layout,
                layout_fits(l),
                forall|rr: u32, c: u32| rr < l.leds_per_lane && c < l.lanes ==> #[trigger] f.requires((rr, c)),
                col < l.lanes,
                row <= l.leds_per_lane,
                out@.len() == led_count,
                forall|i: int|
                    0 <= i < led_count ==> match slot_at(l, i) {
                        Some(p) => if p.1 < col || (p.1 == col && p.0 < row) {
                            f.ensures((p.0, p.1), #[trigger] out@[i])
                        } else {
                            out@[i] == black
                        },
                        None => out@[i] == black,
                    },
            decreases l.leds_per_lane - row,
        {
            proof {
                lemma_strip_index_inverse(l, row as int, col as int);
            }
            let ghost before = out@;
            match l.index_of(row, col) {
                Some(idx) => {
                    if (idx as usize) < out.len() {
                        let c = f(row, col);
                        out.set(idx as usize, c);
                    }
                },
                None => {},
            }
            proof {
                assert forall|i: int| 0 <= i < led_count implies match slot_at(l, i) {
                    Some(p) => if p.1 < col || (p.1 == col && p.0 < row + 1) {
                        f.ensures((p.0, p.1), #[trigger] out@[i])
                    } else {
                        out@[i] == black
                    },
                    None => out@[i] == black,
                } by {
                    let target = strip_index(l, row as int, col as int)->0;
                    if i != target {
                        assert(out@[i] == before[i]);
                        match slot_at(l, i) {
                            Some(p) => {
                                lemma_slot_at_inverse(l, i);
                                if p.1 == col && p.0 == row {
                                    assert(strip_index(l, row as int, col as int) == Some(i));
                                }
                            },
                            None => {},
                        }
                    }
                }
            }
            row = row + 1;
        }
        proof {
            assert forall|i: int| 0 <= i < led_count implies match slot_at(l, i) {
                Some(p) => if p.1 < col + 1 {
                    f.ensures((p.0, p.1), #[trigger] out@[i])
                } else {
                    out@[i] == black
                },
                None => out@[i] == black,
            } by {
                match slot_at(l, i) {
                    Some(p) => {
                        lemma_slot_at_inverse(l, i);
                    },
                    None => {},
                }
            }
        }
        col = col + 1;
    }
    proof {
        assert forall|i: int| 0 <= i < led_count implies match slot_at(*layout, i) {
            Some(p) => f.ensures((p.0, p.1), #[trigger] out@[i]),
            None => out@[i] == RgbColor { r: 0, g: 0, b: 0 },
        } by {
            if slot_at(l, i) is Some {
                lemma_slot_at_inverse(l, i);
            }
        }
    }
    out
}


/// The colour of LED `i` in the counting pattern: runs of 10 red, 10 green,
/// 10 blue and 10 white, repeating.
pub open spec fn probe(i: int) -> RgbColor {
    let k = i % 40;
    if k < 10 {
        RgbColor { r: 255, g: 0, b: 0 }
    } else if k < 20 {
        RgbColor { r: 0, g: 255, b: 0 }
    } else if k < 30 {
        RgbColor { r: 0, g: 0, b: 255 }
    } else {
        RgbColor { r: 255, g: 255, b: 255 }
    }
}

/// Diagnostic palette for the counting pattern. Count the LEDs in the first
/// red run to read the real physical length, and note where the pattern
/// restarts to see how the strip is wired.
pub fn probe_color(i: usize) -> (c: RgbColor)
    ensures
        c == probe(i as int),
{
    let k = i % 40;
    if k <= 9 {
        RgbColor::new(255, 0, 0)
    } else if k <= 19 {
        RgbColor::new(0, 255, 0)
    } else if k <= 29 {
        RgbColor::new(0, 0, 255)
    } else {
        RgbColor::new(255, 255, 255)
    }
}

/// The colour of LED `i` of `count` in a still diagnostic pattern, with
/// `index` the focus LED.
pub open spec fn debug_color(pattern: DebugPattern, index: u32, count: int, i: int) -> RgbColor {
    let white = RgbColor { r: 255, g: 255, b: 255 };
    let dim = RgbColor { r: 0, g: 0, b: 0 };
    match pattern {
        DebugPattern::AllWhite => white,
        DebugPattern::Count => probe(i),
        DebugPattern::Single => {
            let last = if count > 0 {
                count - 1
            } else {
                0
            };
            let target = if index < last {
                index as int
            } else {
                last
            };
            if i == target {
                white
            } else {
                dim
            }
        },
        DebugPattern::Tens => if i % 10 == 0 {
            white
        } else if i % 5 == 0 {
            RgbColor { r: 40, g: 40, b: 40 }
        } else {
            dim
        },
        DebugPattern::Halves => if i < count / 2 {
            RgbColor { r: 255, g: 0, b: 0 }
        } else {
            RgbColor { r: 0, g: 0, b: 255 }
        },
        _ => dim,
    }
}

/// `Single` lights exactly one LED of a non-empty strip: the focus LED, or the
/// last LED when the focus lies past the end. Every other LED is dark.
pub proof fn lemma_single_lights_one_led(index: u32, count: int, i: int)
    requires
        0 < count,
        0 <= i < count,
    ensures
        debug_color(DebugPattern::Single, index, count, i) != (RgbColor { r: 0, g: 0, b: 0 }) <==> i
            == if index < count - 1 {
            index as int
        } else {
            count - 1
        },
{
}

/// One frame of a still diagnostic pattern over `count` LEDs; the travelling
/// `Snake` pulse is animated by the caller. `Off` gives no frame at all.
pub fn debug_frame(pattern: &DebugPattern, index: u32, count: usize) -> (out: Vec<RgbColor>)
    requires
        *pattern != DebugPattern::Snake,
    ensures
        *pattern == DebugPattern::Off ==> out@.len() == 0,
        *pattern != DebugPattern::Off ==> out@.len() == count && forall|i: int|
            0 <= i < count ==> #[trigger] out@[i] == debug_color(*pattern, index, count as int, i),
{
    let mut out: Vec<RgbColor> = Vec::new();
    if *pattern == DebugPattern::Off {
        return out;
    }
    let white = RgbColor::new(255, 255, 255);
    let dim = RgbColor::new(0, 0, 0);
    let last = if count > 0 {
        count - 1
    } else {
        0
    };
    let target = if (index as usize) < last {
        index as usize
    } else {
        last
    };
    let mid = count / 2;
    let mut i: usize = 0;
    while i < count
        invariant
            *pattern != DebugPattern::Off,
            *pattern != DebugPattern::Snake,
            white == (RgbColor { r: 255, g: 255, b: 255 }),
            dim == (RgbColor { r: 0, g: 0, b: 0 }),
            last == (if count > 0 { count - 1 } else { 0 }),
            target == (if index < last { index as int } else { last as int }),
            mid == count / 2,
            i <= count,
            out@.len() == i,
            forall|k: int| 0 <= k < i ==> #[trigger] out@[k] == debug_color(*pattern, index, count as int, k),
        decreases count - i,
    {
        let c = match pattern {
            DebugPattern::AllWhite => white,
            DebugPattern::Count => probe_color(i),
            DebugPattern::Single => if i == target {
                white
            } else {
                dim
            },
            DebugPattern::Tens => if i % 10 == 0 {
                white
            } else if i % 5 == 0 {
                RgbColor::new(40, 40, 40)
            } else {
                dim
            },
            DebugPattern::Halves => if i < mid {
                RgbColor::new(255, 0, 0)
            } else {
                RgbColor::new(0, 0, 255)
            },
            _ => dim,
        };
        out.push(c);
        i = i + 1;
    }
    out
}

/// Milliseconds between frames at the full rate of 60 frames a second.
pub const FULL_RATE_MS: u64 = 16;

/// A mode whose frame changes from one tick to the next; the others are
/// steady and need far fewer frames.
pub open spec fn animated(mode: AppMode) -> bool {
    !(mode == AppMode::Off || mode == AppMode::Static || mode == AppMode::Coding || mode
        == AppMode::Breathing || mode == AppMode::Thermal || mode == AppMode::AppSync)
}

/// Milliseconds between frames: diagnostics and the animated modes run at
/// the full 60 frames a second; steady modes much slower.
pub open spec fn frame_ms(debugging: bool, mode: AppMode) -> u64 {
    if debugging {
        FULL_RATE_MS
    } else {
        match mode {
            AppMode::Off => 500,
            AppMode::Static | AppMode::Coding => 250,
            AppMode::Breathing | AppMode::Thermal | AppMode::AppSync => 100,
            _ => FULL_RATE_MS,
        }
    }
}

/// Frame interval for `mode`, or for a diagnostic pattern when `debugging`.
/// Diagnostics and animated modes get at least 60 frames a second.
pub fn frame_interval_ms(debugging: bool, mode: AppMode) -> (ms: u64)
    ensures
        ms == frame_ms(debugging, mode),
        (debugging || animated(mode)) ==> ms * 60 <= 1000,
{
    if debugging {
        FULL_RATE_MS
    } else {
        match mode {
            AppMode::Off => 500,
            AppMode::Static | AppMode::Coding => 250,
            AppMode::Breathing | AppMode::Thermal | AppMode::AppSync => 100,
            _ => FULL_RATE_MS,
        }
    }
}

/// The mode actually shown: Smart picks Coding while coding, Gaming while
/// gaming or when the CPU runs hot, Breathing otherwise; every other mode is
/// shown as it is.
pub fn effective_mode(mode: AppMode, coding: bool, gaming: bool, hot: bool) -> (m: AppMode)
    ensures
        mode != AppMode::Smart ==> m == mode,
        mode == AppMode::Smart ==> m == (if coding {
            AppMode::Coding
        } else if gaming || hot {
            AppMode::Gaming
        } else {
            AppMode::Breathing
        }),
{
    match mode {
        AppMode::Smart => if coding {
            AppMode::Coding
        } else if gaming || hot {
            AppMode::Gaming
        } else {
            AppMode::Breathing
        },
        _ => mode,
    }
}

/// The first zone of the device is a single LED (the motherboard SMD LED)
/// ahead of the strip.
pub open spec fn smd_first(zone_count: int, first_zone_leds: u32) -> bool {
    zone_count > 1 && first_zone_leds == 1
}

/// Whether a device leads with a one-LED motherboard zone.
pub fn has_smd_zone(dev: &DeviceInfo) -> (b: bool)
    ensures
        b == (dev.zones@.len() > 1 && dev.zones@[0].leds_count == 1),
{
    dev.zones.len() > 1 && dev.zones[0].leds_count == 1
}

/// The colour sent to LED `i` of a device, given the frame in strip order.
/// A leading SMD LED mirrors the dominant colour and shifts the strip by
/// one; past the end of the frame LEDs stay dark.
pub open spec fn device_color(frame: Seq<RgbColor>, smd: bool, current: RgbColor, i: int) -> RgbColor {
    if smd && i == 0 {
        current
    } else {
        let raw = if smd {
            i - 1
        } else {
            i
        };
        if raw < frame.len() {
            frame[raw]
        } else {
            RgbColor { r: 0, g: 0, b: 0 }
        }
    }
}

/// The colours sent to a device of `dev_led_count` LEDs. Each LED takes the
/// colour of its own strip index: the frame is never resampled to the
/// device length.
pub fn device_frame(frame: &[RgbColor], dev_led_count: u32, smd: bool, current: RgbColor) -> (out: Vec<RgbColor>)
    ensures
        out@.len() == dev_led_count,
        forall|i: int| 0 <= i < dev_led_count ==> #[trigger] out@[i] == device_color(frame@, smd, current, i),
{
    let black = RgbColor::new(0, 0, 0);
    let mut out: Vec<RgbColor> = Vec::new();
    let mut i: u32 = 0;
    while i < dev_led_count
        invariant
            i <= dev_led_count,
            black == (RgbColor { r: 0, g: 0, b: 0 }),
            out@.len() == i,
            forall|k: int| 0 <= k < i ==> #[trigger] out@[k] == device_color(frame@, smd, current, k),
        decreases dev_led_count - i,
    {
        if i == 0 && smd {
            out.push(current);
        } else {
            let raw = if smd {
                i - 1
            } else {
                i
            };
            if (raw as usize) < frame.len() {
                out.push(frame[raw as usize]);
            } else {
                out.push(black);
            }
        }
        i = i + 1;
    }
    out
}

/// A zone is resized to `led_count` when it has LEDs, a different count, and
/// either no limit or a range that admits the new count.
pub open spec fn resize_wanted(z: ZoneInfo, led_count: u32) -> bool {
    &&& z.leds_count > 0
    &&& z.leds_count != led_count
    &&& (z.leds_max == 0 || (z.leds_min <= led_count && led_count <= z.leds_max))
}

/// Whether a zone should be resized to the configured LED count.
pub fn zone_needs_resize(zone: &ZoneInfo, led_count: u32) -> (b: bool)
    ensures
        b == resize_wanted(*zone, led_count),
{
    if zone.leds_count > 0 && zone.leds_count != led_count {
        zone.leds_max == 0 || (led_count >= zone.leds_min && led_count <= zone.leds_max)
    } else {
        false
    }
}

/// Frames between connection attempts: one second at the full frame rate.
pub const CONNECT_EVERY_FRAMES: u64 = 60;

/// Frames between checks of the controller list: five seconds at the full
/// frame rate.
pub const REFRESH_EVERY_FRAMES: u64 = 300;

/// What to do about the OpenRGB link in one frame.
#[derive(Clone, Copy, PartialEq, Eq, Structural, Debug)]
pub enum LinkAction {
    /// Nothing this frame.
    Idle,
    /// Not connected: try to connect (once a second).
    Connect,
    /// The LED count changed: resize the zones and reload the devices.
    Resize,
    /// Check whether the controller list changed (every five seconds, or
    /// at once while no devices are known).
    Refresh,
}

/// Decide the link action for frame `frame_count`, given whether a client is
/// connected, the configured LED count, the count last acted on (0 before
/// any) and whether the device cache is empty. Returns the action and the
/// count to remember: the first count seen is adopted without a resize.
pub fn link_action(
    connected: bool,
    frame_count: u64,
    led_count: u32,
    last_requested: u32,
    cache_empty: bool,
) -> (r: (LinkAction, u32))
    ensures
        !connected ==> r == (if frame_count % CONNECT_EVERY_FRAMES == 0 {
            LinkAction::Connect
        } else {
            LinkAction::Idle
        }, last_requested),
        connected && led_count != last_requested ==> r == (if last_requested != 0 {
            LinkAction::Resize
        } else {
            LinkAction::Idle
        }, led_count),
        connected && led_count == last_requested ==> r == (if cache_empty || frame_count % REFRESH_EVERY_FRAMES == 0 {
            LinkAction::Refresh
        } else {
            LinkAction::Idle
        }, last_requested),
{
    if !connected {
        if frame_count % CONNECT_EVERY_FRAMES == 0 {
            (LinkAction::Connect, last_requested)
        } else {
            (LinkAction::Idle, last_requested)
        }
    } else if led_count != last_requested {
        if last_requested != 0 {
            (LinkAction::Resize, led_count)
        } else {
            (LinkAction::Idle, led_count)
        }
    } else if cache_empty || frame_count % REFRESH_EVERY_FRAMES == 0 {
        (LinkAction::Refresh, last_requested)
    } else {
        (LinkAction::Idle, last_requested)
    }
}

/// The device list reported to the UI is out of date: a different number of
/// devices, or one whose id or LED count differs.
pub open spec fn devices_differ(shown: Seq<DeviceInfo>, cache: Seq<DeviceInfo>) -> bool {
    shown.len() != cache.len() || exists|i: int|
        0 <= i < shown.len() && (#[trigger] shown[i].id != cache[i].id || shown[i].led_count
            != cache[i].led_count)
}

/// Whether the device list shown in the UI must be replaced by the cache.
pub fn devices_changed(shown: &[DeviceInfo], cache: &[DeviceInfo]) -> (b: bool)
    ensures
        b == devices_differ(shown@, cache@),
{
    if shown.len() != cache.len() {
        return true;
    }
    let mut i: usize = 0;
    while i < shown.len()
        invariant
            shown@.len() == cache@.len(),
            i <= shown@.len(),
            forall|k: int|
                0 <= k < i ==> (#[trigger] shown@[k]).id == cache@[k].id && shown@[k].led_count
                    == cache@[k].led_count,
        decreases shown@.len() - i,
    {
        if shown[i].id != cache[i].id || shown[i].led_count != cache[i].led_count {
            return true;
        }
        assert(shown@[i as int].id == cache@[i as int].id);
        i = i + 1;
    }
    false
}


/// The message rows, bottom first: each character's glyph rows followed by
/// a blank gap row.
pub open spec fn message_rows(chars: Seq<char>) -> Seq<u8>
    decreases chars.len(),
{
    if chars.len() == 0 {
        Seq::empty()
    } else {
        message_rows(chars.drop_last()) + bottom_up(chars.last()) + Seq::new(
            GLYPH_GAP as nat,
            |i: int| 0u8,
        )
    }
}

/// The message rows of `text`, bottom first.
fn message_template(text: &str) -> (t: Vec<u8>)
    ensures
        t@ == message_rows(text@),
{
    broadcast use vstd::string::group_string_axioms;
    let mut template: Vec<u8> = Vec::new();
    let mut chars = text.chars();
    let ghost mut done: Seq<char> = Seq::empty();
    loop
        invariant
            done + chars.remaining() == text@,
            template@ == message_rows(done),
        ensures
            template@ == message_rows(text@),
        decreases text@.len() - done.len(),
    {
        let ghost rest = chars.remaining();
        let ch = match chars.next() {
            Some(c) => c,
            None => {
                assert(done =~= text@);
                break;
            },
        };
        let rows = glyph_rows_bottom_up(ch);
        let mut k: usize = 0;
        let ghost before = template@;
        while k < rows.len()
            invariant
                k <= rows@.len(),
                template@ == before + rows@.subrange(0, k as int),
            decreases rows@.len() - k,
        {
            template.push(rows[k]);
            k = k + 1;
            assert(template@ =~= before + rows@.subrange(0, k as int));
        }
        let mut g: usize = 0;
        while g < GLYPH_GAP
            invariant
                g <= GLYPH_GAP,
                template@ == before + rows@ + Seq::new(g as nat, |i: int| 0u8),
            decreases GLYPH_GAP - g,
        {
            template.push(0);
            g = g + 1;
            assert(template@ =~= before + rows@ + Seq::new(g as nat, |i: int| 0u8));
        }
        proof {
            let next = done.push(ch);
            assert(next.drop_last() =~= done);
            assert(rows@.subrange(0, rows@.len() as int) =~= rows@);
            assert(next + chars.remaining() =~= text@) by {
                assert(rest[0] == ch);
                assert(chars.remaining() == rest.drop_first());
                assert(done + rest == text@);
            }
            done = next;
        }
    }
    template
}


/// The looping template for `text` on a panel `rows` tall: the message, then
/// a blank stretch as tall as the panel so it clears before repeating;
/// empty for an empty message.
pub open spec fn marquee_template(text: Seq<char>, rows: int) -> Seq<u8> {
    let m = message_rows(text);
    if m.len() == 0 {
        m
    } else {
        m + Seq::new(rows as nat, |i: int| 0u8)
    }
}

/// Colour of panel cell (row, col) with the template scrolled up by
/// `offset` rows: `lit` where the template row's bit for the lane is set.
pub open spec fn marquee_pixel(t: Seq<u8>, offset: int, row: int, col: u32, lit: RgbColor) -> RgbColor {
    if t.len() == 0 {
        RgbColor { r: 0, g: 0, b: 0 }
    } else {
        let g = t[(row + offset % (t.len() as int)) % (t.len() as int)];
        if (g >> col) & 1u8 == 1u8 {
            lit
        } else {
            RgbColor { r: 0, g: 0, b: 0 }
        }
    }
}

/// `v` modulo `n`, never negative.
fn wrap_offset(v: i64, n: usize) -> (r: usize)
    requires
        n > 0,
    ensures
        r == (v as int) % (n as int),
        r < n,
{
    if v >= 0 {
        ((v as u64) % (n as u64)) as usize
    } else {
        let k = (-(v + 1)) as u64;
        let m = (k % (n as u64)) as usize;
        proof {
            let q = (k as int) / (n as int);
            vstd::arithmetic::div_mod::lemma_fundamental_div_mod(k as int, n as int);
            assert(v as int == (-q - 1) * (n as int) + (n - 1 - m)) by (nonlinear_arith)
                requires
                    k as int == q * (n as int) + m,
                    v as int == -(k as int) - 1,
            ;
            vstd::arithmetic::div_mod::lemma_fundamental_div_mod_converse(
                v as int,
                n as int,
                -q - 1,
                n - 1 - m,
            );
        }
        n - 1 - m
    }
}

/// Render scrolling text onto the panel.
///
/// Text is upright and reads vertically: a glyph is 3 pixels wide (one per
/// lane) by up to 7 tall, characters stack up the panel and scroll upward by
/// `offset` rows, and the message loops with a blank gap as tall as the
/// panel between repeats. Lit pixels take `lit`, the rest stay dark. A lane
/// is a bit of an 8-bit glyph row, so the panel has at most 8 lanes.
pub fn marquee_frame(text: &str, offset: i64, layout: &PanelLayout, led_count: u32, lit: RgbColor) -> (out: Vec<RgbColor>)
    requires
        layout_fits(*layout),
        layout.lanes <= 8,
    ensures
        out@.len() == led_count,
        forall|i: int|
            0 <= i < led_count ==> #[trigger] out@[i] == match slot_at(*layout, i) {
                Some(p) => marquee_pixel(
                    marquee_template(
                        text@,
                        if layout.leds_per_lane > 1 {
                            layout.leds_per_lane as int
                        } else {
                            1
                        },
                    ),
                    offset as int,
                    p.0 as int,
                    p.1,
                    lit,
                ),
                None => RgbColor { r: 0, g: 0, b: 0 },
            },
{
    let rows: usize = if layout.leds_per_lane > 1 {
        layout.leds_per_lane as usize
    } else {
        1
    };
    let ghost want = marquee_template(text@, rows as int);
    let mut template = message_template(text);
    if template.len() > 0 {
        let ghost m = template@;
        let mut k: usize = 0;
        while k < rows
            invariant
                k <= rows,
                template@ == m + Seq::new(k as nat, |i: int| 0u8),
            decreases rows - k,
        {
            template.push(0);
            k = k + 1;
            assert(template@ =~= m + Seq::new(k as nat, |i: int| 0u8));
        }
    }
    assert(template@ == want);
    if template.len() == 0 {
        let dark = (|row: u32, col: u32| -> (c: RgbColor)
            ensures
                c.r == 0 && c.g == 0 && c.b == 0,
            { RgbColor::new(0, 0, 0) });
        let out = render_grid(layout, led_count, dark);
        proof {
            assert forall|i: int| 0 <= i < led_count implies #[trigger] out@[i] == match slot_at(*layout, i) {
                Some(p) => marquee_pixel(want, offset as int, p.0 as int, p.1, lit),
                None => RgbColor { r: 0, g: 0, b: 0 },
            } by {}
        }
        return out;
    }
    let period = template.len();
    let off = wrap_offset(offset, period);
    let l = *layout;
    let t = &template;
    let pixel = (|row: u32, col: u32| -> (c: RgbColor)
            requires
                row < l.leds_per_lane,
                col < l.lanes,
            ensures
                c == marquee_pixel(t@, offset as int, row as int, col, lit),
            {
                let r = row as usize;
                let idx = if r < period - off {
                    r + off
                } else {
                    r - (period - off)
                };
                proof {
                    let q: int = if r < period - off {
                        0
                    } else {
                        1
                    };
                    vstd::arithmetic::div_mod::lemma_fundamental_div_mod_converse(
                        r + off,
                        period as int,
                        q,
                        idx as int,
                    );
                }
                let g = t[idx];
                if (g >> col) & 1 == 1 {
                    lit
                } else {
                    RgbColor::new(0, 0, 0)
                }
            });
    let out = render_grid(layout, led_count, pixel);
    out
}


/// The marquee loops: scrolling by a whole template length shows the same
/// frame.
pub proof fn lemma_marquee_loops(t: Seq<u8>, offset: int, row: int, col: u32, lit: RgbColor)
    ensures
        marquee_pixel(t, offset + t.len(), row, col, lit) == marquee_pixel(t, offset, row, col, lit),
{
    if t.len() > 0 {
        vstd::arithmetic::div_mod::lemma_mod_add_multiples_vanish(offset, t.len() as int);
    }
}

} // verus!
