//! Bitmap font for the scrolling text mode.
//!
//! A glyph is 3 pixels wide (one pixel per lane) and up to `GLYPH_MAX_H` rows
//! tall. Rows are stored top-down, with bit 2 as the leftmost pixel. The
//! panel indexes rows bottom-up and lanes with bit 0 as the leftmost pixel, so
//! `glyph_rows_bottom_up` reverses the row order and mirrors the bits.

use vstd::prelude::*;

verus! {

/// Maximum glyph height in rows.
pub const GLYPH_MAX_H: usize = 7;

/// Blank rows inserted between glyphs.
pub const GLYPH_GAP: usize = 1;

/// One character's bitmap: `height` rows tall, 3 pixels wide.
#[derive(Debug, Clone, Copy, PartialEq, Eq)]
pub struct Glyph {
    /// Rows from the top of the glyph downward. Bit 2 is the leftmost pixel.
    pub rows: [u8; GLYPH_MAX_H],
    /// Height in pixels, 1..=GLYPH_MAX_H.
    pub height: usize,
}

/// Height of the glyph drawn for `c`: letters and most punctuation are 5 rows,
/// digits 7 rows (so they stay distinct from letters), the rest 3 rows.
pub open spec fn glyph_height(c: char) -> usize {
    if ('A' <= c && c <= 'Z') || ('a' <= c && c <= 'z') || c == '!' || c == '?' || c == '+'
        || c == '=' || c == '/' || c == '(' || c == ')' {
        5
    } else if '0' <= c && c <= '9' {
        7
    } else {
        3
    }
}

/// Rows of the glyph drawn for `c`, top-down, bit 2 leftmost. Letters are
/// matched without regard to case; characters without a bitmap are blank.
pub open spec fn glyph_rows(c: char) -> Seq<u8> {
    match c {
        'A' | 'a' => seq![0b010, 0b101, 0b111, 0b101, 0b101, 0, 0],
        'B' | 'b' => seq![0b110, 0b101, 0b110, 0b101, 0b110, 0, 0],
        'C' | 'c' => seq![0b011, 0b100, 0b100, 0b100, 0b011, 0, 0],
        'D' | 'd' => seq![0b110, 0b101, 0b101, 0b101, 0b110, 0, 0],
        'E' | 'e' => seq![0b111, 0b100, 0b110, 0b100, 0b111, 0, 0],
        'F' | 'f' => seq![0b111, 0b100, 0b110, 0b100, 0b100, 0, 0],
        'G' | 'g' => seq![0b011, 0b100, 0b101, 0b101, 0b011, 0, 0],
        'H' | 'h' => seq![0b101, 0b101, 0b111, 0b101, 0b101, 0, 0],
        'I' | 'i' => seq![0b111, 0b010, 0b010, 0b010, 0b111, 0, 0],
        'J' | 'j' => seq![0b001, 0b001, 0b001, 0b101, 0b111, 0, 0],
        'K' | 'k' => seq![0b101, 0b101, 0b110, 0b101, 0b101, 0, 0],
        'L' | 'l' => seq![0b100, 0b100, 0b100, 0b100, 0b111, 0, 0],
        'M' | 'm' => seq![0b101, 0b111, 0b101, 0b101, 0b101, 0, 0],
        'N' | 'n' => seq![0b101, 0b111, 0b111, 0b101, 0b101, 0, 0],
        'O' | 'o' => seq![0b111, 0b101, 0b101, 0b101, 0b111, 0, 0],
        'P' | 'p' => seq![0b110, 0b101, 0b110, 0b100, 0b100, 0, 0],
        'Q' | 'q' => seq![0b111, 0b101, 0b101, 0b111, 0b001, 0, 0],
        'R' | 'r' => seq![0b110, 0b101, 0b110, 0b101, 0b101, 0, 0],
        'S' | 's' => seq![0b011, 0b100, 0b010, 0b001, 0b110, 0, 0],
        'T' | 't' => seq![0b111, 0b010, 0b010, 0b010, 0b010, 0, 0],
        'U' | 'u' => seq![0b101, 0b101, 0b101, 0b101, 0b111, 0, 0],
        'V' | 'v' => seq![0b101, 0b101, 0b101, 0b101, 0b010, 0, 0],
        'W' | 'w' => seq![0b101, 0b101, 0b111, 0b111, 0b101, 0, 0],
        'X' | 'x' => seq![0b101, 0b101, 0b010, 0b101, 0b101, 0, 0],
        'Y' | 'y' => seq![0b101, 0b101, 0b010, 0b010, 0b010, 0, 0],
        'Z' | 'z' => seq![0b111, 0b001, 0b010, 0b100, 0b111, 0, 0],
        '0' => seq![0b111, 0b101, 0b101, 0b101, 0b101, 0b101, 0b111],
        '1' => seq![0b010, 0b110, 0b010, 0b010, 0b010, 0b010, 0b111],
        '2' => seq![0b111, 0b001, 0b001, 0b111, 0b100, 0b100, 0b111],
        '3' => seq![0b111, 0b001, 0b001, 0b111, 0b001, 0b001, 0b111],
        '4' => seq![0b101, 0b101, 0b101, 0b111, 0b001, 0b001, 0b001],
        '5' => seq![0b111, 0b100, 0b100, 0b111, 0b001, 0b001, 0b111],
        '6' => seq![0b111, 0b100, 0b100, 0b111, 0b101, 0b101, 0b111],
        '7' => seq![0b111, 0b001, 0b001, 0b010, 0b010, 0b010, 0b010],
        '8' => seq![0b111, 0b101, 0b101, 0b111, 0b101, 0b101, 0b111],
        '9' => seq![0b111, 0b101, 0b101, 0b111, 0b001, 0b001, 0b111],
        ' ' => seq![0, 0, 0, 0, 0, 0, 0],
        '-' => seq![0b000, 0b111, 0b000, 0, 0, 0, 0],
        '_' => seq![0b000, 0b000, 0b111, 0, 0, 0, 0],
        '.' => seq![0b000, 0b000, 0b010, 0, 0, 0, 0],
        ',' => seq![0b000, 0b010, 0b100, 0, 0, 0, 0],
        '!' => seq![0b010, 0b010, 0b010, 0b000, 0b010, 0, 0],
        '?' => seq![0b111, 0b001, 0b011, 0b000, 0b010, 0, 0],
        ':' => seq![0b000, 0b010, 0b000, 0, 0, 0, 0],
        '+' => seq![0b000, 0b010, 0b111, 0b010, 0b000, 0, 0],
        '=' => seq![0b000, 0b111, 0b000, 0b111, 0b000, 0, 0],
        '/' => seq![0b001, 0b001, 0b010, 0b100, 0b100, 0, 0],
        '(' => seq![0b001, 0b010, 0b100, 0b010, 0b001, 0, 0],
        ')' => seq![0b100, 0b010, 0b001, 0b010, 0b100, 0, 0],
        '\'' => seq![0b010, 0b010, 0b000, 0, 0, 0, 0],
        _ => seq![0, 0, 0, 0, 0, 0, 0],
    }
}

/// The characters the font has a bitmap for: ASCII letters and digits, the
/// space, and `- _ . , ! ? : + = / ( ) '`.
pub open spec fn has_glyph(c: char) -> bool {
    ('A' <= c && c <= 'Z') || ('a' <= c && c <= 'z') || ('0' <= c && c <= '9') || c == ' ' || c
        == '-' || c == '_' || c == '.' || c == ',' || c == '!' || c == '?' || c == ':' || c == '+'
        || c == '=' || c == '/' || c == '(' || c == ')' || c == '\''
}

/// Exactly the characters with a bitmap draw something, apart from the space,
/// which is blank by design; every other character draws blank.
pub proof fn lemma_has_glyph_exactly(c: char)
    ensures
        has_glyph(c) <==> (c == ' ' || glyph_rows(c) != seq![0u8, 0, 0, 0, 0, 0, 0]),
{
    let z = seq![0u8, 0, 0, 0, 0, 0, 0];
    if glyph_rows(c) != z {
        assert(has_glyph(c));
    }
    if has_glyph(c) && c != ' ' {
        assert(glyph_rows(c)[0] != 0 || glyph_rows(c)[1] != 0 || glyph_rows(c)[2] != 0);
    }
}

/// Different letters are drawn differently: no two of `A`..`Z` share a
/// bitmap, so every letter can be told apart on the panel.
pub proof fn lemma_letters_distinct(a: char, b: char)
    requires
        'A' <= a <= 'Z',
        'A' <= b <= 'Z',
        a != b,
    ensures
        glyph_rows(a) != glyph_rows(b),
{
    if glyph_rows(a) == glyph_rows(b) {
        assert(glyph_rows(a)[0] == glyph_rows(b)[0]);
        assert(glyph_rows(a)[1] == glyph_rows(b)[1]);
        assert(glyph_rows(a)[2] == glyph_rows(b)[2]);
        assert(glyph_rows(a)[3] == glyph_rows(b)[3]);
        assert(glyph_rows(a)[4] == glyph_rows(b)[4]);
    }
}

/// Different digits are drawn differently, and no digit looks like a letter.
pub proof fn lemma_digits_distinct(a: char, b: char)
    requires
        '0' <= a <= '9',
        ('0' <= b <= '9' && a != b) || ('A' <= b <= 'Z') || ('a' <= b <= 'z'),
    ensures
        glyph_rows(a) != glyph_rows(b),
{
    if glyph_rows(a) == glyph_rows(b) {
        assert(glyph_rows(a)[0] == glyph_rows(b)[0]);
        assert(glyph_rows(a)[1] == glyph_rows(b)[1]);
        assert(glyph_rows(a)[2] == glyph_rows(b)[2]);
        assert(glyph_rows(a)[3] == glyph_rows(b)[3]);
        assert(glyph_rows(a)[4] == glyph_rows(b)[4]);
        assert(glyph_rows(a)[5] == glyph_rows(b)[5]);
        assert(glyph_rows(a)[6] == glyph_rows(b)[6]);
    }
}

/// A small letter is drawn as its capital.
pub proof fn lemma_small_letters_as_capitals(c: char)
    requires
        'a' <= c <= 'z',
    ensures
        glyph_rows(c) == glyph_rows(((c as u32) - 32) as char),
        glyph_height(c) == glyph_height(((c as u32) - 32) as char),
{
}

/// The 3-bit row `row` with its outer bits swapped (bit 0 <-> bit 2).
pub open spec fn mirrored(row: u8) -> u8 {
    (((row & 1u8) << 2u8) | (row & 2u8) | ((row & 4u8) >> 2u8)) as u8
}

impl Glyph {
    /// An empty glyph of the given height.
    fn blank(height: usize) -> (g: Glyph)
        ensures
            g.height == height,
            g.rows@ == seq![0u8, 0, 0, 0, 0, 0, 0],
    {
        Glyph { rows: [0; GLYPH_MAX_H], height }
    }
}

fn mk(height: usize, rows: [u8; GLYPH_MAX_H]) -> (g: Glyph)
    ensures
        g.height == height,
        g.rows == rows,
{
    Glyph { rows, height }
}

/// Look up a character's bitmap. Lower-case letters share the upper-case
/// glyph; a character without a bitmap renders as a 3-row blank.
pub fn glyph(ch: char) -> (g: Glyph)
    ensures
        g.rows@ == glyph_rows(ch),
        g.height == glyph_height(ch),
        1 <= g.height <= GLYPH_MAX_H,
        forall|i: int| 0 <= i < GLYPH_MAX_H ==> #[trigger] g.rows@[i] < 8,
        forall|i: int| g.height <= i < GLYPH_MAX_H ==> #[trigger] g.rows@[i] == 0,
{
    let g = match ch {
        'A' | 'a' => mk(5, [0b010, 0b101, 0b111, 0b101, 0b101, 0, 0]),
        'B' | 'b' => mk(5, [0b110, 0b101, 0b110, 0b101, 0b110, 0, 0]),
        'C' | 'c' => mk(5, [0b011, 0b100, 0b100, 0b100, 0b011, 0, 0]),
        'D' | 'd' => mk(5, [0b110, 0b101, 0b101, 0b101, 0b110, 0, 0]),
        'E' | 'e' => mk(5, [0b111, 0b100, 0b110, 0b100, 0b111, 0, 0]),
        'F' | 'f' => mk(5, [0b111, 0b100, 0b110, 0b100, 0b100, 0, 0]),
        'G' | 'g' => mk(5, [0b011, 0b100, 0b101, 0b101, 0b011, 0, 0]),
        'H' | 'h' => mk(5, [0b101, 0b101, 0b111, 0b101, 0b101, 0, 0]),
        'I' | 'i' => mk(5, [0b111, 0b010, 0b010, 0b010, 0b111, 0, 0]),
        'J' | 'j' => mk(5, [0b001, 0b001, 0b001, 0b101, 0b111, 0, 0]),
        'K' | 'k' => mk(5, [0b101, 0b101, 0b110, 0b101, 0b101, 0, 0]),
        'L' | 'l' => mk(5, [0b100, 0b100, 0b100, 0b100, 0b111, 0, 0]),
        'M' | 'm' => mk(5, [0b101, 0b111, 0b101, 0b101, 0b101, 0, 0]),
        'N' | 'n' => mk(5, [0b101, 0b111, 0b111, 0b101, 0b101, 0, 0]),
        'O' | 'o' => mk(5, [0b111, 0b101, 0b101, 0b101, 0b111, 0, 0]),
        'P' | 'p' => mk(5, [0b110, 0b101, 0b110, 0b100, 0b100, 0, 0]),
        'Q' | 'q' => mk(5, [0b111, 0b101, 0b101, 0b111, 0b001, 0, 0]),
        'R' | 'r' => mk(5, [0b110, 0b101, 0b110, 0b101, 0b101, 0, 0]),
        'S' | 's' => mk(5, [0b011, 0b100, 0b010, 0b001, 0b110, 0, 0]),
        'T' | 't' => mk(5, [0b111, 0b010, 0b010, 0b010, 0b010, 0, 0]),
        'U' | 'u' => mk(5, [0b101, 0b101, 0b101, 0b101, 0b111, 0, 0]),
        'V' | 'v' => mk(5, [0b101, 0b101, 0b101, 0b101, 0b010, 0, 0]),
        'W' | 'w' => mk(5, [0b101, 0b101, 0b111, 0b111, 0b101, 0, 0]),
        'X' | 'x' => mk(5, [0b101, 0b101, 0b010, 0b101, 0b101, 0, 0]),
        'Y' | 'y' => mk(5, [0b101, 0b101, 0b010, 0b010, 0b010, 0, 0]),
        'Z' | 'z' => mk(5, [0b111, 0b001, 0b010, 0b100, 0b111, 0, 0]),
        '0' => mk(7, [0b111, 0b101, 0b101, 0b101, 0b101, 0b101, 0b111]),
        '1' => mk(7, [0b010, 0b110, 0b010, 0b010, 0b010, 0b010, 0b111]),
        '2' => mk(7, [0b111, 0b001, 0b001, 0b111, 0b100, 0b100, 0b111]),
        '3' => mk(7, [0b111, 0b001, 0b001, 0b111, 0b001, 0b001, 0b111]),
        '4' => mk(7, [0b101, 0b101, 0b101, 0b111, 0b001, 0b001, 0b001]),
        '5' => mk(7, [0b111, 0b100, 0b100, 0b111, 0b001, 0b001, 0b111]),
        '6' => mk(7, [0b111, 0b100, 0b100, 0b111, 0b101, 0b101, 0b111]),
        '7' => mk(7, [0b111, 0b001, 0b001, 0b010, 0b010, 0b010, 0b010]),
        '8' => mk(7, [0b111, 0b101, 0b101, 0b111, 0b101, 0b101, 0b111]),
        '9' => mk(7, [0b111, 0b101, 0b101, 0b111, 0b001, 0b001, 0b111]),
        ' ' => Glyph::blank(3),
        '-' => mk(3, [0b000, 0b111, 0b000, 0, 0, 0, 0]),
        '_' => mk(3, [0b000, 0b000, 0b111, 0, 0, 0, 0]),
        '.' => mk(3, [0b000, 0b000, 0b010, 0, 0, 0, 0]),
        ',' => mk(3, [0b000, 0b010, 0b100, 0, 0, 0, 0]),
        '!' => mk(5, [0b010, 0b010, 0b010, 0b000, 0b010, 0, 0]),
        '?' => mk(5, [0b111, 0b001, 0b011, 0b000, 0b010, 0, 0]),
        ':' => mk(3, [0b000, 0b010, 0b000, 0, 0, 0, 0]),
        '+' => mk(5, [0b000, 0b010, 0b111, 0b010, 0b000, 0, 0]),
        '=' => mk(5, [0b000, 0b111, 0b000, 0b111, 0b000, 0, 0]),
        '/' => mk(5, [0b001, 0b001, 0b010, 0b100, 0b100, 0, 0]),
        '(' => mk(5, [0b001, 0b010, 0b100, 0b010, 0b001, 0, 0]),
        ')' => mk(5, [0b100, 0b010, 0b001, 0b010, 0b100, 0, 0]),
        '\'' => mk(3, [0b010, 0b010, 0b000, 0, 0, 0, 0]),
        _ => Glyph::blank(3),
    };
    g
}

/// Reverse the three pixel bits of a glyph row, so that bit 0 becomes the
/// leftmost pixel (lane 0).
pub fn mirror3(row: u8) -> (r: u8)
    ensures
        r == mirrored(row),
        row < 8 ==> r < 8,
{
    let r = ((row & 0b001) << 2) | (row & 0b010) | ((row & 0b100) >> 2);
    assert(row < 8 ==> r < 8) by (bit_vector)
        requires
            r == ((row & 1u8) << 2u8) | (row & 2u8) | ((row & 4u8) >> 2u8);
    r
}

/// Mirroring a 3-bit row twice gives the row back.
pub proof fn lemma_mirror3_involution(row: u8)
    requires
        row < 8,
    ensures
        mirrored(mirrored(row)) == row,
{
    assert(row < 8 ==> (((((row & 1u8) << 2u8) | (row & 2u8) | ((row & 4u8) >> 2u8)) as u8 & 1u8)
        << 2u8 | ((((row & 1u8) << 2u8) | (row & 2u8) | ((row & 4u8) >> 2u8)) as u8 & 2u8)
        | ((((row & 1u8) << 2u8) | (row & 2u8) | ((row & 4u8) >> 2u8)) as u8 & 4u8) >> 2u8)
        == row) by (bit_vector);
}

/// The rows of the glyph for `c`, bottom first, bit 0 the leftmost pixel.
pub open spec fn bottom_up(c: char) -> Seq<u8> {
    Seq::new(glyph_height(c) as nat, |i: int| mirrored(glyph_rows(c)[glyph_height(c) - 1 - i]))
}

/// A glyph's rows ordered bottom-up and with bit 0 as lane 0, the leftmost
/// pixel: entry `i` is the mirrored row `height - 1 - i` of the bitmap.
pub fn glyph_rows_bottom_up(ch: char) -> (r: Vec<u8>)
    ensures
        r@ == bottom_up(ch),
        r@.len() == glyph_height(ch),
        forall|i: int|
            0 <= i < r@.len() ==> #[trigger] r@[i] == mirrored(
                glyph_rows(ch)[glyph_height(ch) - 1 - i],
            ),
        forall|i: int| 0 <= i < r@.len() ==> #[trigger] r@[i] < 8,
{
    let gl = glyph(ch);
    let h = if gl.height < 1 {
        1
    } else if gl.height > GLYPH_MAX_H {
        GLYPH_MAX_H
    } else {
        gl.height
    };
    let mut out: Vec<u8> = Vec::new();
    let mut k: usize = h;
    while k > 0
        invariant
            h == gl.height,
            h == glyph_height(ch),
            1 <= h <= GLYPH_MAX_H,
            gl.rows@ == glyph_rows(ch),
            forall|i: int| 0 <= i < GLYPH_MAX_H ==> #[trigger] gl.rows@[i] < 8,
            k <= h,
            out@.len() == h - k,
            forall|i: int|
                0 <= i < out@.len() ==> #[trigger] out@[i] == mirrored(gl.rows@[h - 1 - i]),
            forall|i: int| 0 <= i < out@.len() ==> #[trigger] out@[i] < 8,
        decreases k,
    {
        k = k - 1;
        let m = mirror3(gl.rows[k]);
        out.push(m);
    }
    assert(out@ =~= bottom_up(ch));
    out
}

} // verus!
