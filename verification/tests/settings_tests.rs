use betterrgb::font::glyph;
use betterrgb::engine::{AppMode, DebugPattern, PanelLayout, VizStyle};
use betterrgb::settings::{
    clamped_debug_index, clamped_layout, clamped_led_count, clean_marquee_text, mode_from_name, mode_name, parse_debug_pattern,
    parse_mode, parse_viz_style, restore_mode, MARQUEE_MAX_CHARS,
};

const ALL_MODES: [AppMode; 13] = [
    AppMode::Smart,
    AppMode::Thermal,
    AppMode::Visualizer,
    AppMode::Coding,
    AppMode::Gaming,
    AppMode::Static,
    AppMode::Breathing,
    AppMode::Rainbow,
    AppMode::AppSync,
    AppMode::Text,
    AppMode::Snake,
    AppMode::Tetris,
    AppMode::Off,
];

#[test]
fn mode_names_round_trip() {
    for m in ALL_MODES {
        assert_eq!(mode_from_name(mode_name(m)), Some(m));
        assert_eq!(parse_mode(mode_name(m)), Some(m));
    }
    assert_eq!(parse_mode("RAINBOW"), Some(AppMode::Rainbow));
    assert_eq!(parse_mode("disco"), None);
}

#[test]
fn saved_games_and_marquee_restore_as_smart() {
    assert_eq!(restore_mode("text"), AppMode::Smart);
    assert_eq!(restore_mode("snake"), AppMode::Smart);
    assert_eq!(restore_mode("tetris"), AppMode::Smart);
    assert_eq!(restore_mode("Breathing"), AppMode::Breathing);
    assert_eq!(restore_mode("??"), AppMode::Smart);
}

#[test]
fn patterns_and_styles_parse() {
    assert_eq!(parse_debug_pattern("all_white"), Some(DebugPattern::AllWhite));
    assert_eq!(parse_debug_pattern("Halves"), Some(DebugPattern::Halves));
    assert_eq!(parse_debug_pattern("stripes"), None);
    assert_eq!(parse_viz_style("BLOOM"), Some(VizStyle::Bloom));
    assert_eq!(parse_viz_style("columns"), Some(VizStyle::Columns));
    assert_eq!(parse_viz_style("bars"), None);
}

#[test]
fn marquee_text_keeps_only_drawable_characters() {
    assert_eq!(clean_marquee_text("Hi! #1 <3 ~"), "Hi! 1 3 ");
    assert_eq!(clean_marquee_text("<>"), "");
    assert_eq!(clean_marquee_text("é"), "");
    let long: String = std::iter::repeat('a').take(200).collect();
    assert_eq!(clean_marquee_text(&long).len(), MARQUEE_MAX_CHARS);
}

#[test]
fn layouts_are_clamped() {
    assert_eq!(
        clamped_layout(0, 500, 99, true, false),
        PanelLayout { lanes: 1, leds_per_lane: 120, first_index: 63, serpentine: true, bass_at_top: false }
    );
    assert_eq!(
        clamped_layout(20, 13, 1, false, true),
        PanelLayout { lanes: 16, leds_per_lane: 13, first_index: 1, serpentine: false, bass_at_top: true }
    );
}

#[test]
fn led_count_and_focus_index_are_clamped() {
    assert_eq!(clamped_led_count(0), 1);
    assert_eq!(clamped_led_count(1), 1);
    assert_eq!(clamped_led_count(240), 240);
    assert_eq!(clamped_led_count(1000), 1000);
    assert_eq!(clamped_led_count(5000), 1000);
    assert_eq!(clamped_debug_index(0), 0);
    assert_eq!(clamped_debug_index(999), 999);
    assert_eq!(clamped_debug_index(u32::MAX), 999);
}

#[test]
fn kept_marquee_characters_are_exactly_those_with_a_glyph() {
    let blank = glyph(' ');
    for b in 0u8..128 {
        let c = b as char;
        let kept = !clean_marquee_text(&c.to_string()).is_empty();
        let drawn = c == ' ' || glyph(c).rows != blank.rows;
        assert_eq!(kept, drawn, "character {:?}", c);
    }
}
