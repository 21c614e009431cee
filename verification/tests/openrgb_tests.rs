use betterrgb::openrgb::{
    check_count_reply_size, client_name_payload, controller_data_request, encode_packet,
    parse_controller_count, parse_controller_data, parse_packet_header, resize_zone_payload,
    update_leds_payload, update_zone_leds_payload, RgbColor, ORGB_DEFAULT_PORT, ORGB_MAGIC,
    RGBCONTROLLER_UPDATELEDS, SET_CLIENT_NAME,
};

fn put_str(out: &mut Vec<u8>, s: &str) {
    out.extend_from_slice(&((s.len() + 1) as u16).to_le_bytes());
    out.extend_from_slice(s.as_bytes());
    out.push(0);
}

#[test]
fn packets_start_with_magic_and_little_endian_header() {
    let p = encode_packet(7, SET_CLIENT_NAME, &[1, 2, 3]);
    assert_eq!(&p[0..4], b"ORGB");
    assert_eq!(&p[4..8], &7u32.to_le_bytes());
    assert_eq!(&p[8..12], &50u32.to_le_bytes());
    assert_eq!(&p[12..16], &3u32.to_le_bytes());
    assert_eq!(&p[16..], &[1, 2, 3]);
    assert_eq!(ORGB_MAGIC, *b"ORGB");
    assert_eq!(ORGB_DEFAULT_PORT, 6742);
}

#[test]
fn header_round_trips() {
    let p = encode_packet(0x01020304, RGBCONTROLLER_UPDATELEDS, &[9; 20]);
    let mut h = [0u8; 16];
    h.copy_from_slice(&p[..16]);
    assert_eq!(parse_packet_header(&h), Ok((0x01020304, 1050, 20)));
}

#[test]
fn header_without_magic_is_refused() {
    let mut h = [0u8; 16];
    h[0..4].copy_from_slice(b"ORGX");
    assert_eq!(
        parse_packet_header(&h),
        Err("Invalid OpenRGB magic header".to_string())
    );
}

#[test]
fn request_payloads() {
    assert_eq!(client_name_payload("AuraSync"), b"AuraSync\0".to_vec());
    assert_eq!(controller_data_request(), vec![3, 0, 0, 0]);
    assert_eq!(resize_zone_payload(2, 40), vec![2, 0, 0, 0, 40, 0, 0, 0]);
}

#[test]
fn led_update_payload_carries_its_size_and_colours() {
    let colors = [RgbColor::new(1, 2, 3), RgbColor::new(4, 5, 6)];
    let p = update_leds_payload(&colors);
    assert_eq!(p, vec![14, 0, 0, 0, 2, 0, 1, 2, 3, 0, 4, 5, 6, 0]);
    let z = update_zone_leds_payload(1, &colors);
    assert_eq!(z, vec![18, 0, 0, 0, 1, 0, 0, 0, 2, 0, 1, 2, 3, 0, 4, 5, 6, 0]);
    assert_eq!(RgbColor::new(7, 8, 9).to_bytes(), [7, 8, 9, 0]);
}

#[test]
fn count_reply_must_hold_four_bytes() {
    assert_eq!(check_count_reply_size(4), Ok(()));
    assert_eq!(
        check_count_reply_size(3),
        Err("Unexpected packet size for controller count".to_string())
    );
    assert_eq!(parse_controller_count(&[2, 1, 0, 0]), 258);
}

#[test]
fn controller_data_is_parsed() {
    let mut p = Vec::new();
    p.extend_from_slice(&0u32.to_le_bytes()); // total size
    p.extend_from_slice(&5i32.to_le_bytes()); // device type
    put_str(&mut p, "ROG STRIX");
    put_str(&mut p, "ASUS");
    put_str(&mut p, "board");
    put_str(&mut p, "1.0");
    put_str(&mut p, "SN1");
    put_str(&mut p, "HID");
    p.extend_from_slice(&1u16.to_le_bytes()); // one mode
    p.extend_from_slice(&0i32.to_le_bytes()); // active mode
    put_str(&mut p, "Direct");
    for _ in 0..12 {
        p.extend_from_slice(&0u32.to_le_bytes());
    }
    p.extend_from_slice(&1u16.to_le_bytes()); // one colour
    p.extend_from_slice(&0u32.to_le_bytes());
    p.extend_from_slice(&2u16.to_le_bytes()); // two zones
    put_str(&mut p, "SMD");
    p.extend_from_slice(&1i32.to_le_bytes());
    p.extend_from_slice(&1u32.to_le_bytes());
    p.extend_from_slice(&1u32.to_le_bytes());
    p.extend_from_slice(&1u32.to_le_bytes());
    p.extend_from_slice(&0u16.to_le_bytes());
    put_str(&mut p, "Addressable");
    p.extend_from_slice(&2i32.to_le_bytes());
    p.extend_from_slice(&0u32.to_le_bytes());
    p.extend_from_slice(&120u32.to_le_bytes());
    p.extend_from_slice(&40u32.to_le_bytes());
    p.extend_from_slice(&0u16.to_le_bytes());
    p.extend_from_slice(&41u16.to_le_bytes()); // LED count

    let d = parse_controller_data(3, &p);
    assert_eq!(d.id, 3);
    assert_eq!(d.name, "ROG STRIX");
    assert_eq!(d.vendor, "ASUS");
    assert_eq!(d.location, "HID");
    assert_eq!(d.active_mode, 0);
    assert_eq!(d.led_count, 41);
    assert_eq!(d.zones.len(), 2);
    assert_eq!(d.zones[0].name, "SMD");
    assert_eq!(d.zones[0].leds_count, 1);
    assert_eq!(d.zones[1].id, 1);
    assert_eq!(d.zones[1].leds_max, 120);
    assert_eq!(d.zones[1].leds_count, 40);
}

#[test]
fn truncated_controller_data_reads_as_empty() {
    let d = parse_controller_data(1, &[1, 2]);
    assert_eq!(d.id, 1);
    assert_eq!(d.name, "");
    assert!(d.zones.is_empty());
    assert_eq!(d.led_count, 0);
}
