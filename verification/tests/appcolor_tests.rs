use betterrgb::appcolor::{
    app_color_for, chars_of, classify_window, extract_app_color, hue_color, is_cpu_sensor,
    window_kind, ActiveWindowInfo,
};
use betterrgb::openrgb::RgbColor;

fn float_hsl(h: f32, s: f32, l: f32) -> RgbColor {
    let c = (1.0 - (2.0 * l - 1.0).abs()) * s;
    let x = c * (1.0 - ((h / 60.0) % 2.0 - 1.0).abs());
    let m = l - c / 2.0;
    let (r_p, g_p, b_p) = match h as u32 {
        0..=59 => (c, x, 0.0),
        60..=119 => (x, c, 0.0),
        120..=179 => (0.0, c, x),
        180..=239 => (0.0, x, c),
        240..=299 => (x, 0.0, c),
        _ => (c, 0.0, x),
    };
    RgbColor::new(
        ((r_p + m) * 255.0) as u8,
        ((g_p + m) * 255.0) as u8,
        ((b_p + m) * 255.0) as u8,
    )
}

#[test]
fn hue_colours_match_the_float_conversion_for_every_degree() {
    for hue in 0..360u32 {
        assert_eq!(hue_color(hue), float_hsl(hue as f32, 0.95, 0.52), "hue {hue}");
    }
}

#[test]
fn known_apps_get_their_brand_colour() {
    assert_eq!(extract_app_color("Spotify.exe", ""), RgbColor::new(30, 215, 96));
    assert_eq!(extract_app_color("chrome.exe", "Spotify - Web Player"), RgbColor::new(30, 215, 96));
    assert_eq!(extract_app_color("Discord.exe", ""), RgbColor::new(88, 101, 242));
    assert_eq!(extract_app_color("Code.exe", ""), RgbColor::new(0, 122, 204));
    assert_eq!(extract_app_color("chrome.exe", "Docs"), RgbColor::new(66, 133, 244));
    assert_eq!(extract_app_color("msedge.exe", ""), RgbColor::new(0, 164, 239));
    assert_eq!(extract_app_color("firefox.exe", "YouTube"), RgbColor::new(255, 113, 57));
    assert_eq!(extract_app_color("vlc.exe", "YouTube video"), RgbColor::new(255, 0, 0));
    assert_eq!(extract_app_color("WindowsTerminal.exe", ""), RgbColor::new(0, 255, 128));
    assert_eq!(extract_app_color("notion.exe", ""), RgbColor::new(235, 235, 240));
}

#[test]
fn no_process_gives_the_default_cyan() {
    assert_eq!(extract_app_color("", "anything"), RgbColor::new(0, 210, 255));
}

#[test]
fn unknown_apps_hash_onto_a_hue() {
    let name = "myapp.exe";
    let mut hash: u32 = 5381;
    for b in name.bytes() {
        hash = ((hash << 5).wrapping_add(hash)).wrapping_add(b as u32);
    }
    let expected = float_hsl((hash % 360) as f32, 0.95, 0.52);
    assert_eq!(extract_app_color("MyApp.exe", ""), expected);
    assert_eq!(app_color_for(name, ""), expected);
}

#[test]
fn windows_are_classified_as_coding_or_gaming() {
    assert_eq!(classify_window("Code.exe", "main.rs"), (true, false));
    assert_eq!(classify_window("steam.exe", ""), (false, true));
    assert_eq!(classify_window("explorer.exe", "Minecraft Launcher"), (false, true));
    assert_eq!(classify_window("explorer.exe", "Downloads"), (false, false));
    assert_eq!(window_kind("nvim", "valorant notes"), (true, true));
}

#[test]
fn only_cpu_sensors_count() {
    assert!(is_cpu_sensor("CPU Package"));
    assert!(is_cpu_sensor("k10temp Tctl"));
    assert!(is_cpu_sensor("Core 0"));
    assert!(!is_cpu_sensor("GPU Hotspot"));
    assert!(!is_cpu_sensor("nvme Composite"));
    assert!(!is_cpu_sensor("GPU Core"));
    assert!(!is_cpu_sensor("gpu package hotspot"));
}

#[test]
fn chars_of_keeps_every_character() {
    assert_eq!(chars_of("héllo"), vec!['h', 'é', 'l', 'l', 'o']);
    assert!(chars_of("").is_empty());
}

#[test]
fn window_info_is_classified_in_lower_case() {
    let w = ActiveWindowInfo::classified("STEAM.EXE".to_string(), "Library".to_string());
    assert_eq!(w.process_name, "STEAM.EXE");
    assert_eq!(w.title, "Library");
    assert!(!w.is_coding);
    assert!(w.is_gaming);
    let n = ActiveWindowInfo::none();
    assert!(n.title.is_empty() && n.process_name.is_empty() && !n.is_coding && !n.is_gaming);
}
