use betterrgb::engine::{
    debug_frame, device_frame, devices_changed, effective_mode, frame_interval_ms, has_smd_zone,
    link_action, marquee_frame, probe_color, render_grid, zone_needs_resize, AppMode,
    DebugPattern, LinkAction, PanelLayout,
};
use betterrgb::openrgb::{DeviceInfo, RgbColor, ZoneInfo};

fn zone(id: u32, min: u32, max: u32, count: u32) -> ZoneInfo {
    ZoneInfo { id, name: String::new(), zone_type: 0, leds_min: min, leds_max: max, leds_count: count }
}

fn device(id: u32, led_count: u32, zones: Vec<ZoneInfo>) -> DeviceInfo {
    DeviceInfo {
        id,
        name: String::new(),
        vendor: String::new(),
        description: String::new(),
        version: String::new(),
        serial: String::new(),
        location: String::new(),
        led_count,
        active_mode: 0,
        zones,
    }
}

#[test]
fn default_layout_is_three_lanes_of_thirteen() {
    let l = PanelLayout::default();
    assert_eq!(l.lanes, 3);
    assert_eq!(l.leds_per_lane, 13);
    assert_eq!(l.first_index, 1);
    assert!(!l.serpentine && !l.bass_at_top);
    assert_eq!(l.total_slots(), 40);
}

#[test]
fn index_of_skips_the_lead_in_and_runs_lanes_bottom_up() {
    let l = PanelLayout::default();
    assert_eq!(l.index_of(0, 0), Some(1));
    assert_eq!(l.index_of(12, 0), Some(13));
    assert_eq!(l.index_of(0, 1), Some(14));
    assert_eq!(l.index_of(12, 2), Some(39));
    assert_eq!(l.index_of(13, 0), None);
    assert_eq!(l.index_of(0, 3), None);
}

#[test]
fn serpentine_reverses_odd_lanes() {
    let l = PanelLayout { lanes: 3, leds_per_lane: 13, first_index: 0, serpentine: true, bass_at_top: false };
    assert_eq!(l.index_of(0, 1), Some(25));
    assert_eq!(l.index_of(12, 1), Some(13));
    assert_eq!(l.index_of(0, 2), Some(26));
}

#[test]
fn every_cell_has_its_own_index() {
    for serpentine in [false, true] {
        let l = PanelLayout { lanes: 4, leds_per_lane: 7, first_index: 2, serpentine, bass_at_top: false };
        let mut seen = Vec::new();
        for col in 0..4 {
            for row in 0..7 {
                let i = l.index_of(row, col).unwrap();
                assert!(i >= 2 && i < l.total_slots());
                assert!(!seen.contains(&i));
                seen.push(i);
            }
        }
    }
}

#[test]
fn render_grid_leaves_the_lead_in_dark() {
    let l = PanelLayout::default();
    let out = render_grid(&l, 42, |row, col| RgbColor::new(row as u8, col as u8, 1));
    assert_eq!(out.len(), 42);
    assert_eq!(out[0], RgbColor::new(0, 0, 0));
    assert_eq!(out[1], RgbColor::new(0, 0, 1));
    assert_eq!(out[14], RgbColor::new(0, 1, 1));
    assert_eq!(out[39], RgbColor::new(12, 2, 1));
    assert_eq!(out[40], RgbColor::new(0, 0, 0));
    let short = render_grid(&l, 10, |_, _| RgbColor::new(9, 9, 9));
    assert_eq!(short.len(), 10);
    assert_eq!(short[9], RgbColor::new(9, 9, 9));
}

#[test]
fn probe_colours_run_in_tens() {
    assert_eq!(probe_color(0), RgbColor::new(255, 0, 0));
    assert_eq!(probe_color(9), RgbColor::new(255, 0, 0));
    assert_eq!(probe_color(10), RgbColor::new(0, 255, 0));
    assert_eq!(probe_color(25), RgbColor::new(0, 0, 255));
    assert_eq!(probe_color(39), RgbColor::new(255, 255, 255));
    assert_eq!(probe_color(40), RgbColor::new(255, 0, 0));
}

#[test]
fn still_debug_patterns() {
    assert!(debug_frame(&DebugPattern::Off, 0, 5).is_empty());
    let w = debug_frame(&DebugPattern::AllWhite, 0, 3);
    assert_eq!(w, vec![RgbColor::new(255, 255, 255); 3]);
    let s = debug_frame(&DebugPattern::Single, 99, 4);
    assert_eq!(s[3], RgbColor::new(255, 255, 255));
    assert_eq!(s[0], RgbColor::new(0, 0, 0));
    let t = debug_frame(&DebugPattern::Tens, 0, 21);
    assert_eq!(t[0], RgbColor::new(255, 255, 255));
    assert_eq!(t[5], RgbColor::new(40, 40, 40));
    assert_eq!(t[7], RgbColor::new(0, 0, 0));
    assert_eq!(t[20], RgbColor::new(255, 255, 255));
    let h = debug_frame(&DebugPattern::Halves, 0, 4);
    assert_eq!(h[1], RgbColor::new(255, 0, 0));
    assert_eq!(h[2], RgbColor::new(0, 0, 255));
    let c = debug_frame(&DebugPattern::Count, 0, 12);
    assert_eq!(c[11], RgbColor::new(0, 255, 0));
}

#[test]
fn marquee_scrolls_the_message_up_the_panel() {
    let l = PanelLayout::default();
    let lit = RgbColor::new(10, 20, 30);
    let off = RgbColor::new(0, 0, 0);
    // 'L' bottom-up: foot 0b111, then the stem in lane 0.
    let f = marquee_frame("L", 0, &l, 40, lit);
    assert_eq!(f.len(), 40);
    assert_eq!(f[0], off);
    for col in 0..3 {
        assert_eq!(f[l.index_of(0, col).unwrap() as usize], lit);
    }
    assert_eq!(f[l.index_of(1, 0).unwrap() as usize], lit);
    assert_eq!(f[l.index_of(1, 1).unwrap() as usize], off);
    // Five glyph rows, one gap row, then 13 blank rows: a period of 19.
    let g = marquee_frame("L", 19, &l, 40, lit);
    assert_eq!(f, g);
    let up = marquee_frame("L", 1, &l, 40, lit);
    assert_eq!(up[l.index_of(0, 0).unwrap() as usize], lit);
    assert_eq!(up[l.index_of(0, 1).unwrap() as usize], off);
    let down = marquee_frame("L", -18, &l, 40, lit);
    assert_eq!(down, up);
    let empty = marquee_frame("", 3, &l, 40, lit);
    assert!(empty.iter().all(|c| *c == off));
}

#[test]
fn frame_rates_follow_the_mode() {
    assert_eq!(frame_interval_ms(true, AppMode::Off), 16);
    assert_eq!(frame_interval_ms(false, AppMode::Off), 500);
    assert_eq!(frame_interval_ms(false, AppMode::Static), 250);
    assert_eq!(frame_interval_ms(false, AppMode::Coding), 250);
    assert_eq!(frame_interval_ms(false, AppMode::Thermal), 100);
    assert_eq!(frame_interval_ms(false, AppMode::Snake), 16);
    for m in [AppMode::Rainbow, AppMode::Visualizer, AppMode::Tetris, AppMode::Text, AppMode::Smart] {
        assert!(frame_interval_ms(false, m) * 60 <= 1000, "{:?} below 60 frames a second", m);
    }
}

#[test]
fn smart_mode_reacts_to_what_is_running() {
    assert_eq!(effective_mode(AppMode::Smart, true, true, true), AppMode::Coding);
    assert_eq!(effective_mode(AppMode::Smart, false, true, false), AppMode::Gaming);
    assert_eq!(effective_mode(AppMode::Smart, false, false, true), AppMode::Gaming);
    assert_eq!(effective_mode(AppMode::Smart, false, false, false), AppMode::Breathing);
    assert_eq!(effective_mode(AppMode::Rainbow, true, true, true), AppMode::Rainbow);
}

#[test]
fn device_frames_take_their_own_index() {
    let frame = vec![RgbColor::new(1, 1, 1), RgbColor::new(2, 2, 2), RgbColor::new(3, 3, 3)];
    let cur = RgbColor::new(9, 9, 9);
    let plain = device_frame(&frame, 4, false, cur);
    assert_eq!(plain, vec![frame[0], frame[1], frame[2], RgbColor::new(0, 0, 0)]);
    let smd = device_frame(&frame, 3, true, cur);
    assert_eq!(smd, vec![cur, frame[0], frame[1]]);
    let d = device(0, 41, vec![zone(0, 1, 1, 1), zone(1, 0, 120, 40)]);
    assert!(has_smd_zone(&d));
    assert!(!has_smd_zone(&device(0, 40, vec![zone(0, 0, 0, 40)])));
}

#[test]
fn zones_resize_only_within_their_range() {
    assert!(zone_needs_resize(&zone(0, 0, 0, 30), 40));
    assert!(zone_needs_resize(&zone(0, 10, 120, 30), 40));
    assert!(!zone_needs_resize(&zone(0, 10, 20, 30), 40));
    assert!(!zone_needs_resize(&zone(0, 0, 0, 40), 40));
    assert!(!zone_needs_resize(&zone(0, 0, 0, 0), 40));
}

#[test]
fn link_actions() {
    assert_eq!(link_action(false, 60, 40, 0, true), (LinkAction::Connect, 0));
    assert_eq!(link_action(false, 30, 40, 0, true), (LinkAction::Idle, 0));
    assert_eq!(link_action(false, 61, 40, 0, true), (LinkAction::Idle, 0));
    assert_eq!(link_action(true, 1, 40, 0, true), (LinkAction::Idle, 40));
    assert_eq!(link_action(true, 1, 50, 40, false), (LinkAction::Resize, 50));
    assert_eq!(link_action(true, 300, 40, 40, false), (LinkAction::Refresh, 40));
    assert_eq!(link_action(true, 150, 40, 40, false), (LinkAction::Idle, 40));
    assert_eq!(link_action(true, 301, 40, 40, true), (LinkAction::Refresh, 40));
    assert_eq!(link_action(true, 301, 40, 40, false), (LinkAction::Idle, 40));
}

#[test]
fn device_list_changes_are_detected() {
    let a = vec![device(0, 40, vec![]), device(1, 10, vec![])];
    let b = vec![device(0, 40, vec![]), device(1, 10, vec![])];
    assert!(!devices_changed(&a, &b));
    let c = vec![device(0, 40, vec![]), device(1, 11, vec![])];
    assert!(devices_changed(&a, &c));
    assert!(devices_changed(&a, &b[..1]));
}

#[test]
fn single_lights_exactly_one_led() {
    let black = RgbColor::new(0, 0, 0);
    for (index, count, lit) in [(0u32, 5usize, 0usize), (2, 5, 2), (4, 5, 4), (9, 5, 4), (0, 1, 0)] {
        let f = debug_frame(&DebugPattern::Single, index, count);
        let on: Vec<usize> = (0..count).filter(|&i| f[i] != black).collect();
        assert_eq!(on, vec![lit], "index {index} of {count}");
    }
}
