use betterrgb::font::{glyph, glyph_rows_bottom_up, mirror3, GLYPH_GAP, GLYPH_MAX_H};

#[test]
fn glyphs_fit_three_pixels_wide() {
    for c in "ABCXYZ019!?.- _+/'=,:()".chars() {
        let gl = glyph(c);
        for (i, row) in gl.rows.iter().enumerate() {
            assert!(row & !0b111 == 0, "{c} row {i} exceeds 3 pixels: {row:#05b}");
        }
    }
}

#[test]
fn glyph_heights_are_in_range() {
    for c in "ABCXYZ019!?.- _+".chars() {
        let h = glyph(c).height;
        assert!(h >= 1 && h <= GLYPH_MAX_H, "{c} has height {h}");
    }
}

#[test]
fn unused_rows_are_blank() {
    for c in "ABCXYZ019".chars() {
        let gl = glyph(c);
        for row in &gl.rows[gl.height..] {
            assert_eq!(*row, 0, "{c} has ink outside its declared height");
        }
    }
}

#[test]
fn bottom_up_reverses_the_top_row() {
    let rows = glyph_rows_bottom_up('T');
    assert_eq!(*rows.last().unwrap(), 0b111);
    assert_eq!(*rows.first().unwrap(), 0b010);
}

#[test]
fn lane_bits_are_left_to_right() {
    let rows = glyph_rows_bottom_up('L');
    let top = *rows.last().unwrap();
    let bottom = rows[0];
    assert_eq!(top, 0b001, "L's stem must be in lane 0 (leftmost)");
    assert_eq!(bottom, 0b111, "L's foot must span all three lanes");
}

#[test]
fn mirror3_swaps_the_outer_bits() {
    assert_eq!(mirror3(0b100), 0b001);
    assert_eq!(mirror3(0b001), 0b100);
    assert_eq!(mirror3(0b010), 0b010);
    assert_eq!(mirror3(0b101), 0b101);
}

#[test]
fn bottom_up_length_matches_height() {
    for c in "AI09".chars() {
        assert_eq!(glyph_rows_bottom_up(c).len(), glyph(c).height);
    }
}

#[test]
fn o_and_zero_are_distinguishable() {
    assert_ne!(glyph('O').rows, glyph('0').rows);
}

#[test]
fn lower_case_letters_draw_like_capitals() {
    for (lo, up) in "abcxyz".chars().zip("ABCXYZ".chars()) {
        assert_eq!(glyph(lo).rows, glyph(up).rows);
        assert_eq!(glyph(lo).height, glyph(up).height);
    }
}

#[test]
fn digits_are_seven_rows_and_unknown_characters_blank() {
    assert_eq!(glyph('7').height, 7);
    let g = glyph('#');
    assert_eq!(g.height, 3);
    assert!(g.rows.iter().all(|&r| r == 0));
    assert_eq!(GLYPH_GAP, 1);
}

#[test]
fn mirroring_twice_gives_the_row_back() {
    for row in 0u8..8 {
        assert_eq!(mirror3(mirror3(row)), row);
    }
}
