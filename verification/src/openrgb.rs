//! The OpenRGB SDK wire format.
//!
//! Every packet starts with a 16-byte header: the magic `ORGB`, then the device
//! id, the command id and the payload length, each a little-endian `u32`.
//! This module builds the payloads the client sends and parses the replies it
//! receives; moving the bytes over TCP is the caller's business.

use vstd::prelude::*;
use byteorder::{ByteOrder, LittleEndian};
use vstd::string::StringSliceAdditionalSpecFns;

verus! {

/// First four bytes of every packet.
pub const ORGB_MAGIC: [u8; 4] = [0x4f, 0x52, 0x47, 0x42];

/// Port the OpenRGB SDK server listens on by default.
pub const ORGB_DEFAULT_PORT: u16 = 6742;

/// Command ids.
pub const REQUEST_CONTROLLER_COUNT: u32 = 0;
pub const REQUEST_CONTROLLER_DATA: u32 = 1;
pub const SET_CLIENT_NAME: u32 = 50;
pub const RGBCONTROLLER_RESIZEZONE: u32 = 1000;
pub const RGBCONTROLLER_UPDATELEDS: u32 = 1050;
pub const RGBCONTROLLER_UPDATEZONELEDS: u32 = 1051;
pub const RGBCONTROLLER_SETCUSTOMMODE: u32 = 1100;
pub const RGBCONTROLLER_UPDATEMODE: u32 = 1101;

/// Protocol version asked for in a controller data request.
pub const PROTOCOL_VERSION: u32 = 3;

// ------------------------------------------------------------------ integers

/// Little-endian value of the two bytes of `s` at `p`.
pub open spec fn le16_at(s: Seq<u8>, p: int) -> u16 {
    (s[p] as int + 256 * (s[p + 1] as int)) as u16
}

/// Little-endian value of the four bytes of `s` at `p`.
pub open spec fn le32_at(s: Seq<u8>, p: int) -> u32 {
    (s[p] as int + 256 * (s[p + 1] as int) + 65536 * (s[p + 2] as int) + 16777216 * (
    s[p + 3] as int)) as u32
}

/// The two little-endian bytes of `n`.
pub open spec fn le16_bytes(n: u16) -> Seq<u8> {
    seq![(n % 256) as u8, (n / 256) as u8]
}

/// The four little-endian bytes of `n`.
pub open spec fn le32_bytes(n: u32) -> Seq<u8> {
    seq![(n % 256) as u8, ((n / 256) % 256) as u8, ((n / 65536) % 256) as u8, (n / 16777216) as u8]
}

/// `LittleEndian::read_u16` of byteorder, applied to `buf[pos..]`: the two
/// bytes at `pos` read as a little-endian integer. It panics on fewer than two
/// bytes, which `requires` rules out.
#[verifier::external_body]
fn read_u16_le(buf: &[u8], pos: usize) -> (n: u16)
    requires
        pos + 2 <= buf@.len(),
    ensures
        n == le16_at(buf@, pos as int),
{
    LittleEndian::read_u16(&buf[pos..])
}

/// `LittleEndian::read_u32` of byteorder, applied to `buf[pos..]`: the four
/// bytes at `pos` read as a little-endian integer. It panics on fewer than four
/// bytes, which `requires` rules out.
#[verifier::external_body]
fn read_u32_le(buf: &[u8], pos: usize) -> (n: u32)
    requires
        pos + 4 <= buf@.len(),
    ensures
        n == le32_at(buf@, pos as int),
{
    LittleEndian::read_u32(&buf[pos..])
}

/// `LittleEndian::read_i32` of byteorder, applied to `buf[pos..]`: the four
/// bytes at `pos` read as a little-endian `u32` and reinterpreted as `i32`.
#[verifier::external_body]
fn read_i32_le(buf: &[u8], pos: usize) -> (n: i32)
    requires
        pos + 4 <= buf@.len(),
    ensures
        n == le32_at(buf@, pos as int) as i32,
{
    LittleEndian::read_i32(&buf[pos..])
}

/// `LittleEndian::write_u16` of byteorder into a fresh two-byte buffer: the
/// little-endian bytes of `n`.
#[verifier::external_body]
fn u16_le_bytes(n: u16) -> (b: [u8; 2])
    ensures
        b@ == le16_bytes(n),
{
    let mut b = [0u8; 2];
    LittleEndian::write_u16(&mut b, n);
    b
}

/// `LittleEndian::write_u32` of byteorder into a fresh four-byte buffer: the
/// little-endian bytes of `n`.
#[verifier::external_body]
fn u32_le_bytes(n: u32) -> (b: [u8; 4])
    ensures
        b@ == le32_bytes(n),
{
    let mut b = [0u8; 4];
    LittleEndian::write_u32(&mut b, n);
    b
}

/// `LittleEndian::write_i32` of byteorder into a fresh four-byte buffer: the
/// little-endian bytes of `n` reinterpreted as `u32`.
#[verifier::external_body]
fn i32_le_bytes(n: i32) -> (b: [u8; 4])
    ensures
        b@ == le32_bytes(n as u32),
{
    let mut b = [0u8; 4];
    LittleEndian::write_i32(&mut b, n);
    b
}

/// Decoding the encoding of a `u32` gives it back.
pub proof fn lemma_le32_roundtrip(n: u32)
    ensures
        le32_at(le32_bytes(n), 0) == n,
{
}

/// Decoding the encoding of a `u16` gives it back.
pub proof fn lemma_le16_roundtrip(n: u16)
    ensures
        le16_at(le16_bytes(n), 0) == n,
{
}

/// Append all of `b` to `v`.
fn append_bytes(v: &mut Vec<u8>, b: &[u8])
    ensures
        final(v)@ == old(v)@ + b@,
{
    let mut i: usize = 0;
    while i < b.len()
        invariant
            i <= b@.len(),
            v@ == old(v)@ + b@.subrange(0, i as int),
        decreases b@.len() - i,
    {
        v.push(b[i]);
        i = i + 1;
        assert(b@.subrange(0, i as int) == b@.subrange(0, i - 1) + seq![b@[i - 1]]);
    }
    assert(b@.subrange(0, b@.len() as int) == b@);
}


// ------------------------------------------------------------------ colours

/// One LED colour.
#[derive(Debug, Clone, Copy, PartialEq, Eq, Structural)]
pub struct RgbColor {
    pub r: u8,
    pub g: u8,
    pub b: u8,
}

/// The four bytes OpenRGB uses for a colour: red, green, blue, padding.
pub open spec fn color_bytes(c: RgbColor) -> Seq<u8> {
    seq![c.r, c.g, c.b, 0u8]
}

impl RgbColor {
    pub fn new(r: u8, g: u8, b: u8) -> (c: RgbColor)
        ensures
            c == (RgbColor { r, g, b }),
    {
        RgbColor { r, g, b }
    }

    /// Wire form of the colour.
    pub fn to_bytes(&self) -> (b: [u8; 4])
        ensures
            b@ == color_bytes(*self),
    {
        [self.r, self.g, self.b, 0]
    }
}

// ------------------------------------------------------------------ packets

/// The 16-byte header of a packet.
pub open spec fn header_bytes(device_id: u32, command_id: u32, len: u32) -> Seq<u8> {
    ORGB_MAGIC@ + le32_bytes(device_id) + le32_bytes(command_id) + le32_bytes(len)
}

/// A whole packet: header, then the payload. The length field is the payload
/// length truncated to 32 bits.
pub open spec fn packet_bytes(device_id: u32, command_id: u32, data: Seq<u8>) -> Seq<u8> {
    header_bytes(device_id, command_id, data.len() as u32) + data
}

/// Frame `data` as a packet for `device_id` carrying `command_id`.
pub fn encode_packet(device_id: u32, command_id: u32, data: &[u8]) -> (p: Vec<u8>)
    ensures
        p@ == packet_bytes(device_id, command_id, data@),
{
    let mut p: Vec<u8> = Vec::new();
    append_bytes(&mut p, &ORGB_MAGIC);
    append_bytes(&mut p, &u32_le_bytes(device_id));
    append_bytes(&mut p, &u32_le_bytes(command_id));
    append_bytes(&mut p, &u32_le_bytes(data.len() as u32));
    append_bytes(&mut p, data);
    p
}

/// Whether a 16-byte header starts with the magic.
pub open spec fn has_magic(h: Seq<u8>) -> bool {
    h.subrange(0, 4) == ORGB_MAGIC@
}

/// Split a received header into (device id, command id, payload size).
/// A header without the magic is refused.
pub fn parse_packet_header(header: &[u8; 16]) -> (r: Result<(u32, u32, u32), String>)
    ensures
        has_magic(header@) <==> r is Ok,
        r matches Ok(t) ==> t == (le32_at(header@, 4), le32_at(header@, 8), le32_at(header@, 12)),
        r matches Err(e) ==> e@ == "Invalid OpenRGB magic header"@,
{
    let h: &[u8] = header;
    if h[0] != ORGB_MAGIC[0] || h[1] != ORGB_MAGIC[1] || h[2] != ORGB_MAGIC[2] || h[3]
        != ORGB_MAGIC[3] {
        proof {
            assert(!has_magic(header@)) by {
                if has_magic(header@) {
                    assert(header@.subrange(0, 4)[0] == header@[0]);
                    assert(header@.subrange(0, 4)[1] == header@[1]);
                    assert(header@.subrange(0, 4)[2] == header@[2]);
                    assert(header@.subrange(0, 4)[3] == header@[3]);
                }
            }
        }
        return Err(String::from_str("Invalid OpenRGB magic header"));
    }
    assert(header@.subrange(0, 4) =~= ORGB_MAGIC@);
    let device_id = read_u32_le(h, 4);
    let command_id = read_u32_le(h, 8);
    let data_size = read_u32_le(h, 12);
    Ok((device_id, command_id, data_size))
}

/// The four bytes of `n` read back from the middle of a byte string.
pub proof fn lemma_le32_at_concat(pre: Seq<u8>, n: u32, post: Seq<u8>)
    ensures
        le32_at(pre + le32_bytes(n) + post, pre.len() as int) == n,
{
    let s = pre + le32_bytes(n) + post;
    let p = pre.len() as int;
    assert(s[p] == le32_bytes(n)[0]);
    assert(s[p + 1] == le32_bytes(n)[1]);
    assert(s[p + 2] == le32_bytes(n)[2]);
    assert(s[p + 3] == le32_bytes(n)[3]);
    lemma_le32_roundtrip(n);
}

/// Parsing the header of an encoded packet gives back what was encoded.
pub proof fn lemma_header_roundtrip(device_id: u32, command_id: u32, len: u32)
    ensures
        header_bytes(device_id, command_id, len).len() == 16,
        has_magic(header_bytes(device_id, command_id, len)),
        le32_at(header_bytes(device_id, command_id, len), 4) == device_id,
        le32_at(header_bytes(device_id, command_id, len), 8) == command_id,
        le32_at(header_bytes(device_id, command_id, len), 12) == len,
{
    let m = ORGB_MAGIC@;
    let a = le32_bytes(device_id);
    let b = le32_bytes(command_id);
    let c = le32_bytes(len);
    let h = header_bytes(device_id, command_id, len);
    assert(h == m + a + b + c);
    assert(h.subrange(0, 4) =~= m);
    lemma_le32_at_concat(m, device_id, b + c);
    assert(m + a + (b + c) == h);
    lemma_le32_at_concat(m + a, command_id, c);
    lemma_le32_at_concat(m + a + b, len, Seq::empty());
    assert(m + a + b + c + Seq::<u8>::empty() == h);
}


// ------------------------------------------------------------------ requests

/// Payload of `SET_CLIENT_NAME`: the name's UTF-8 bytes and a terminating 0.
pub fn client_name_payload(name: &str) -> (p: Vec<u8>)
    ensures
        p@ == name.spec_bytes().push(0u8),
{
    let mut p: Vec<u8> = Vec::new();
    append_bytes(&mut p, name.as_bytes());
    p.push(0);
    p
}

/// Payload of `REQUEST_CONTROLLER_DATA`: the protocol version asked for.
pub fn controller_data_request() -> (p: Vec<u8>)
    ensures
        p@ == le32_bytes(PROTOCOL_VERSION),
{
    let mut p: Vec<u8> = Vec::new();
    append_bytes(&mut p, &u32_le_bytes(PROTOCOL_VERSION));
    p
}

/// Payload of `RGBCONTROLLER_RESIZEZONE`: zone id and new size, each as a
/// little-endian `i32`.
pub fn resize_zone_payload(zone_id: u32, size: u32) -> (p: Vec<u8>)
    ensures
        p@ == le32_bytes(zone_id) + le32_bytes(size),
{
    let mut p: Vec<u8> = Vec::new();
    append_bytes(&mut p, &i32_le_bytes(zone_id as i32));
    append_bytes(&mut p, &i32_le_bytes(size as i32));
    assert((zone_id as i32) as u32 == zone_id) by (bit_vector);
    assert((size as i32) as u32 == size) by (bit_vector);
    p
}

/// The wire bytes of a list of colours, four per colour.
pub open spec fn colors_bytes(colors: Seq<RgbColor>) -> Seq<u8> {
    Seq::new(4 * colors.len(), |i: int| color_bytes(colors[i / 4])[i % 4])
}

/// Payload of `RGBCONTROLLER_UPDATELEDS`: total size, colour count, colours.
pub open spec fn update_leds_bytes(colors: Seq<RgbColor>) -> Seq<u8> {
    le32_bytes((6 + 4 * colors.len()) as u32) + le16_bytes(colors.len() as u16) + colors_bytes(
        colors,
    )
}

/// Payload of `RGBCONTROLLER_UPDATEZONELEDS`: total size, zone, count, colours.
pub open spec fn update_zone_leds_bytes(zone_id: u32, colors: Seq<RgbColor>) -> Seq<u8> {
    le32_bytes((10 + 4 * colors.len()) as u32) + le32_bytes(zone_id) + le16_bytes(
        colors.len() as u16,
    ) + colors_bytes(colors)
}

/// Append the wire bytes of `colors`.
fn append_colors(v: &mut Vec<u8>, colors: &[RgbColor])
    ensures
        final(v)@ == old(v)@ + colors_bytes(colors@),
{
    let mut i: usize = 0;
    while i < colors.len()
        invariant
            i <= colors@.len(),
            v@ == old(v)@ + colors_bytes(colors@.subrange(0, i as int)),
        decreases colors@.len() - i,
    {
        let ghost before = v@;
        append_bytes(v, &colors[i].to_bytes());
        proof {
            let a = colors_bytes(colors@.subrange(0, i as int));
            let b = colors_bytes(colors@.subrange(0, i + 1));
            assert(b =~= a + color_bytes(colors@[i as int])) by {
                assert forall|k: int| 0 <= k < b.len() implies b[k] == (a + color_bytes(
                    colors@[i as int],
                ))[k] by {
                    if k < a.len() {
                        assert(k / 4 < i);
                    } else {
                        assert(k / 4 == i);
                    }
                }
            }
        }
        i = i + 1;
    }
    assert(colors@.subrange(0, colors@.len() as int) == colors@);
}

/// Replace the first four bytes of `v` with the encoding of `n`.
fn patch_u32(v: &mut Vec<u8>, n: u32)
    requires
        old(v)@.len() >= 4,
    ensures
        final(v)@ == le32_bytes(n) + old(v)@.subrange(4, old(v)@.len() as int),
{
    let b = u32_le_bytes(n);
    v.set(0, b[0]);
    v.set(1, b[1]);
    v.set(2, b[2]);
    v.set(3, b[3]);
    assert(v@ =~= le32_bytes(n) + old(v)@.subrange(4, old(v)@.len() as int));
}

/// Payload of `RGBCONTROLLER_UPDATELEDS` for `colors`. The count field is the
/// number of colours truncated to 16 bits, as the wire format has it.
pub fn update_leds_payload(colors: &[RgbColor]) -> (p: Vec<u8>)
    ensures
        p@ == update_leds_bytes(colors@),
{
    let mut data: Vec<u8> = Vec::new();
    append_bytes(&mut data, &u32_le_bytes(0));
    append_bytes(&mut data, &u16_le_bytes(colors.len() as u16));
    append_colors(&mut data, colors);
    let total_size = data.len() as u32;
    patch_u32(&mut data, total_size);
    assert(data@ =~= update_leds_bytes(colors@));
    data
}

/// Payload of `RGBCONTROLLER_UPDATEZONELEDS` for one zone.
pub fn update_zone_leds_payload(zone_id: u32, colors: &[RgbColor]) -> (p: Vec<u8>)
    ensures
        p@ == update_zone_leds_bytes(zone_id, colors@),
{
    let mut data: Vec<u8> = Vec::new();
    append_bytes(&mut data, &u32_le_bytes(0));
    append_bytes(&mut data, &i32_le_bytes(zone_id as i32));
    assert((zone_id as i32) as u32 == zone_id) by (bit_vector);
    append_bytes(&mut data, &u16_le_bytes(colors.len() as u16));
    append_colors(&mut data, colors);
    let total_size = data.len() as u32;
    patch_u32(&mut data, total_size);
    assert(data@ =~= update_zone_leds_bytes(zone_id, colors@));
    data
}

/// Check the size announced for a controller count reply: it must hold at
/// least the four bytes of the count.
pub fn check_count_reply_size(size: u32) -> (r: Result<(), String>)
    ensures
        r is Ok <==> size >= 4,
        r matches Err(e) ==> e@ == "Unexpected packet size for controller count"@,
{
    if size < 4 {
        return Err(String::from_str("Unexpected packet size for controller count"));
    }
    Ok(())
}

/// The controller count carried by a count reply.
pub fn parse_controller_count(body: &[u8; 4]) -> (n: u32)
    ensures
        n == le32_at(body@, 0),
{
    read_u32_le(body, 0)
}


// ------------------------------------------------------------------ replies

/// `String::from_utf8_lossy` of std: the text of `bytes`, with each invalid
/// UTF-8 sequence replaced by U+FFFD.
pub uninterp spec fn utf8_lossy(bytes: Seq<u8>) -> Seq<char>;

/// `String::from_utf8_lossy` of std, applied to `bytes[start..end]` and made
/// owned. Claimed: the result is `utf8_lossy` of those bytes, and on valid
/// UTF-8 it is exactly the decoded text. How invalid input is replaced is left
/// to the name.
#[verifier::external_body]
fn lossy_string(bytes: &[u8], start: usize, end: usize) -> (s: String)
    requires
        start <= end <= bytes@.len(),
    ensures
        s@ == utf8_lossy(bytes@.subrange(start as int, end as int)),
        vstd::utf8::valid_utf8(bytes@.subrange(start as int, end as int)) ==> s@
            == vstd::utf8::decode_utf8(bytes@.subrange(start as int, end as int)),
{
    String::from_utf8_lossy(&bytes[start..end]).to_string()
}

/// A cursor read of a little-endian `u16` at `p`: the value and the next
/// position, or 0 and the end of the buffer when fewer than two bytes remain.
pub open spec fn rd_u16(s: Seq<u8>, p: int) -> (u16, int) {
    if p + 2 <= s.len() {
        (le16_at(s, p), p + 2)
    } else {
        (0, s.len() as int)
    }
}

/// A cursor read of a little-endian `u32` at `p`, as `rd_u16`.
pub open spec fn rd_u32(s: Seq<u8>, p: int) -> (u32, int) {
    if p + 4 <= s.len() {
        (le32_at(s, p), p + 4)
    } else {
        (0, s.len() as int)
    }
}

/// Position after `n` cursor reads of a `u32` from `p`.
pub open spec fn skip_u32s(s: Seq<u8>, p: int, n: int) -> int {
    if p + 4 * n <= s.len() {
        p + 4 * n
    } else {
        s.len() as int
    }
}

/// A length-prefixed string at `p`: a `u16` length, then that many bytes of
/// which the last (the terminator) is dropped. Fewer than two bytes, a zero
/// length, or a length running past the end give the empty string.
pub open spec fn rd_str(s: Seq<u8>, p: int) -> (Seq<char>, int) {
    if s.len() - p < 2 {
        (Seq::empty(), p)
    } else {
        let n = le16_at(s, p) as int;
        let q = p + 2;
        if n == 0 || s.len() - q < n {
            (Seq::empty(), q)
        } else {
            (utf8_lossy(s.subrange(q, q + n - 1)), q + n)
        }
    }
}

/// Position after one mode record starting at `p`: its name, twelve `u32`
/// fields, a `u16` colour count and that many `u32` colours.
pub open spec fn mode_end(s: Seq<u8>, p: int) -> int {
    let p1 = rd_str(s, p).1;
    let p2 = skip_u32s(s, p1, 12);
    let (colors, p3) = rd_u16(s, p2);
    skip_u32s(s, p3, colors as int)
}

/// Position after `k` mode records starting at `p`.
pub open spec fn modes_end(s: Seq<u8>, p: int, k: nat) -> int
    decreases k,
{
    if k == 0 {
        p
    } else {
        mode_end(s, modes_end(s, p, (k - 1) as nat))
    }
}

/// What the library keeps of a zone.
pub struct ZoneModel {
    pub id: u32,
    pub name: Seq<char>,
    pub zone_type: i32,
    pub leds_min: u32,
    pub leds_max: u32,
    pub leds_count: u32,
}

/// One zone record at `p`, the `idx`-th of its device: name, type, minimum,
/// maximum and current LED counts, then a `u16`-prefixed matrix map that is
/// skipped when it fits in the buffer.
pub open spec fn zone_at(s: Seq<u8>, p: int, idx: u32) -> (ZoneModel, int) {
    let (name, p1) = rd_str(s, p);
    let (zt, p2) = rd_u32(s, p1);
    let (lmin, p3) = rd_u32(s, p2);
    let (lmax, p4) = rd_u32(s, p3);
    let (lcount, p5) = rd_u32(s, p4);
    let (mat, p6) = rd_u16(s, p5);
    let p7 = if mat > 0 && s.len() - p6 >= mat { p6 + mat } else { p6 };
    (
        ZoneModel {
            id: idx,
            name,
            zone_type: zt as i32,
            leds_min: lmin,
            leds_max: lmax,
            leds_count: lcount,
        },
        p7,
    )
}

/// The first `k` zone records starting at `p`, and the position after them.
pub open spec fn zones_upto(s: Seq<u8>, p: int, k: nat) -> (Seq<ZoneModel>, int)
    decreases k,
{
    if k == 0 {
        (Seq::empty(), p)
    } else {
        let (zs, q) = zones_upto(s, p, (k - 1) as nat);
        let (z, r) = zone_at(s, q, (k - 1) as u32);
        (zs.push(z), r)
    }
}

/// The bytes of a zone record as a server sends it: the name with its `u16`
/// length (terminator included) and its NUL, then the type, minimum, maximum
/// and current LED counts as little-endian `u32`s, and an empty matrix map.
pub open spec fn zone_record(name: Seq<u8>, zone_type: u32, lmin: u32, lmax: u32, lcount: u32) -> Seq<u8> {
    le16_bytes((name.len() + 1) as u16) + name + seq![0u8] + le32_bytes(zone_type) + le32_bytes(
        lmin,
    ) + le32_bytes(lmax) + le32_bytes(lcount) + le16_bytes(0)
}

/// The two bytes at `p` read back as the `u16` they encode.
proof fn lemma_le16_in(s: Seq<u8>, p: int, n: u16)
    requires
        0 <= p,
        p + 2 <= s.len(),
        s.subrange(p, p + 2) == le16_bytes(n),
    ensures
        le16_at(s, p) == n,
{
    assert(s[p] == s.subrange(p, p + 2)[0]);
    assert(s[p + 1] == s.subrange(p, p + 2)[1]);
    lemma_le16_roundtrip(n);
}

/// The four bytes at `p` read back as the `u32` they encode.
proof fn lemma_le32_in(s: Seq<u8>, p: int, n: u32)
    requires
        0 <= p,
        p + 4 <= s.len(),
        s.subrange(p, p + 4) == le32_bytes(n),
    ensures
        le32_at(s, p) == n,
{
    assert(s[p] == s.subrange(p, p + 4)[0]);
    assert(s[p + 1] == s.subrange(p, p + 4)[1]);
    assert(s[p + 2] == s.subrange(p, p + 4)[2]);
    assert(s[p + 3] == s.subrange(p, p + 4)[3]);
    lemma_le32_roundtrip(n);
}

/// A zone record parses back to what it holds, wherever it stands in a
/// reply: each field is read from its own place in the record (the minimum
/// from the four bytes after the type, the maximum from the four after that,
/// and so on), and parsing goes on right after the record.
pub proof fn lemma_zone_roundtrip(
    pre: Seq<u8>,
    name: Seq<u8>,
    zone_type: u32,
    lmin: u32,
    lmax: u32,
    lcount: u32,
    post: Seq<u8>,
    idx: u32,
)
    requires
        name.len() + 1 < 65536,
    ensures
        ({
            let s = pre + zone_record(name, zone_type, lmin, lmax, lcount) + post;
            let (z, q) = zone_at(s, pre.len() as int, idx);
            &&& z.id == idx
            &&& z.name == utf8_lossy(name)
            &&& z.zone_type == zone_type as i32
            &&& z.leds_min == lmin
            &&& z.leds_max == lmax
            &&& z.leds_count == lcount
            &&& q == pre.len() + zone_record(name, zone_type, lmin, lmax, lcount).len()
        }),
{
    let rec = zone_record(name, zone_type, lmin, lmax, lcount);
    let s = pre + rec + post;
    let p = pre.len() as int;
    let n = name.len() as int;
    let l = (n + 1) as u16;
    assert(s.subrange(p, p + 2) =~= le16_bytes(l));
    lemma_le16_in(s, p, l);
    assert(s.subrange(p + 2, p + 2 + n) =~= name);
    let p1 = p + 2 + n + 1;
    assert(s.subrange(p1, p1 + 4) =~= le32_bytes(zone_type));
    lemma_le32_in(s, p1, zone_type);
    assert(s.subrange(p1 + 4, p1 + 8) =~= le32_bytes(lmin));
    lemma_le32_in(s, p1 + 4, lmin);
    assert(s.subrange(p1 + 8, p1 + 12) =~= le32_bytes(lmax));
    lemma_le32_in(s, p1 + 8, lmax);
    assert(s.subrange(p1 + 12, p1 + 16) =~= le32_bytes(lcount));
    lemma_le32_in(s, p1 + 12, lcount);
    assert(s.subrange(p1 + 16, p1 + 18) =~= le16_bytes(0));
    lemma_le16_in(s, p1 + 16, 0);
}

/// What the library keeps of a controller.
pub struct DeviceModel {
    pub id: u32,
    pub name: Seq<char>,
    pub vendor: Seq<char>,
    pub description: Seq<char>,
    pub version: Seq<char>,
    pub serial: Seq<char>,
    pub location: Seq<char>,
    pub led_count: u32,
    pub active_mode: i32,
    pub zones: Seq<ZoneModel>,
}

/// The controller described by a `REQUEST_CONTROLLER_DATA` reply (protocol
/// version 3): a `u32` total size (when present), an `i32` device type, six
/// strings, the mode count and active mode, the mode records, the zones, and
/// the LED count. Every read that runs past the end yields 0 or an empty
/// string, and exhausts the buffer.
pub open spec fn device_model(device_id: u32, s: Seq<u8>) -> DeviceModel {
    let p0 = if s.len() >= 4 { 4int } else { 0int };
    let p1 = rd_u32(s, p0).1;
    let (name, p2) = rd_str(s, p1);
    let (vendor, p3) = rd_str(s, p2);
    let (description, p4) = rd_str(s, p3);
    let (version, p5) = rd_str(s, p4);
    let (serial, p6) = rd_str(s, p5);
    let (location, p7) = rd_str(s, p6);
    let (modes, p8) = rd_u16(s, p7);
    let (active, p9) = rd_u32(s, p8);
    let p10 = modes_end(s, p9, modes as nat);
    let (zone_count, p11) = rd_u16(s, p10);
    let (zones, p12) = zones_upto(s, p11, zone_count as nat);
    let (leds, p13) = rd_u16(s, p12);
    DeviceModel {
        id: device_id,
        name,
        vendor,
        description,
        version,
        serial,
        location,
        led_count: leds as u32,
        active_mode: active as i32,
        zones,
    }
}

/// One zone of a controller.
#[derive(Debug, Clone)]
pub struct ZoneInfo {
    pub id: u32,
    pub name: String,
    pub zone_type: i32,
    pub leds_min: u32,
    pub leds_max: u32,
    pub leds_count: u32,
}

impl View for ZoneInfo {
    type V = ZoneModel;

    open spec fn view(&self) -> ZoneModel {
        ZoneModel {
            id: self.id,
            name: self.name@,
            zone_type: self.zone_type,
            leds_min: self.leds_min,
            leds_max: self.leds_max,
            leds_count: self.leds_count,
        }
    }
}

/// One controller as reported by the server.
#[derive(Debug, Clone)]
pub struct DeviceInfo {
    pub id: u32,
    pub name: String,
    pub vendor: String,
    pub description: String,
    pub version: String,
    pub serial: String,
    pub location: String,
    pub led_count: u32,
    pub active_mode: i32,
    pub zones: Vec<ZoneInfo>,
}

impl View for DeviceInfo {
    type V = DeviceModel;

    open spec fn view(&self) -> DeviceModel {
        DeviceModel {
            id: self.id,
            name: self.name@,
            vendor: self.vendor@,
            description: self.description@,
            version: self.version@,
            serial: self.serial@,
            location: self.location@,
            led_count: self.led_count,
            active_mode: self.active_mode,
            zones: self.zones@.map_values(|z: ZoneInfo| z@),
        }
    }
}

fn take_u16(s: &[u8], p: usize) -> (r: (u16, usize))
    requires
        p <= s@.len(),
    ensures
        r.0 == rd_u16(s@, p as int).0,
        r.1 == rd_u16(s@, p as int).1,
{
    if s.len() - p >= 2 {
        (read_u16_le(s, p), p + 2)
    } else {
        (0, s.len())
    }
}

fn take_u32(s: &[u8], p: usize) -> (r: (u32, usize))
    requires
        p <= s@.len(),
    ensures
        r.0 == rd_u32(s@, p as int).0,
        r.1 == rd_u32(s@, p as int).1,
{
    if s.len() - p >= 4 {
        (read_u32_le(s, p), p + 4)
    } else {
        (0, s.len())
    }
}

fn take_i32(s: &[u8], p: usize) -> (r: (i32, usize))
    requires
        p <= s@.len(),
    ensures
        r.0 == rd_u32(s@, p as int).0 as i32,
        r.1 == rd_u32(s@, p as int).1,
{
    if s.len() - p >= 4 {
        (read_i32_le(s, p), p + 4)
    } else {
        (0, s.len())
    }
}

fn skip_u32_fields(s: &[u8], p: usize, n: usize) -> (q: usize)
    requires
        p <= s@.len(),
    ensures
        q == skip_u32s(s@, p as int, n as int),
{
    if n <= (s.len() - p) / 4 {
        p + 4 * n
    } else {
        s.len()
    }
}

/// Read a length-prefixed string at `p`.
fn read_string(s: &[u8], p: usize) -> (r: (String, usize))
    requires
        p <= s@.len(),
    ensures
        r.0@ == rd_str(s@, p as int).0,
        r.1 == rd_str(s@, p as int).1,
        p <= r.1 <= s@.len(),
{
    if s.len() - p < 2 {
        return (String::new(), p);
    }
    let length = read_u16_le(s, p) as usize;
    let q = p + 2;
    if length == 0 || s.len() - q < length {
        return (String::new(), q);
    }
    let text = lossy_string(s, q, q + (length - 1));
    (text, q + length)
}

fn skip_mode(s: &[u8], p: usize) -> (q: usize)
    requires
        p <= s@.len(),
    ensures
        q == mode_end(s@, p as int),
        q <= s@.len(),
{
    let (_name, p1) = read_string(s, p);
    let p2 = skip_u32_fields(s, p1, 12);
    let (colors, p3) = take_u16(s, p2);
    skip_u32_fields(s, p3, colors as usize)
}

fn read_zone(s: &[u8], p: usize, idx: u16) -> (r: (ZoneInfo, usize))
    requires
        p <= s@.len(),
    ensures
        r.0@ == zone_at(s@, p as int, idx as u32).0,
        r.1 == zone_at(s@, p as int, idx as u32).1,
        r.1 <= s@.len(),
{
    let (name, p1) = read_string(s, p);
    let (zone_type, p2) = take_i32(s, p1);
    let (leds_min, p3) = take_u32(s, p2);
    let (leds_max, p4) = take_u32(s, p3);
    let (leds_count, p5) = take_u32(s, p4);
    let (mat, p6) = take_u16(s, p5);
    let p7 = if mat > 0 && s.len() - p6 >= mat as usize {
        p6 + mat as usize
    } else {
        p6
    };
    (ZoneInfo { id: idx as u32, name, zone_type, leds_min, leds_max, leds_count }, p7)
}

/// Parse the payload of a controller data reply for `device_id`. Parsing
/// never fails: fields past the end of the payload read as 0 or empty.
pub fn parse_controller_data(device_id: u32, payload: &[u8]) -> (d: DeviceInfo)
    ensures
        d@ == device_model(device_id, payload@),
{
    let s = payload;
    let p0: usize = if s.len() >= 4 {
        4
    } else {
        0
    };
    let (_dev_type, p1) = take_i32(s, p0);
    let (name, p2) = read_string(s, p1);
    let (vendor, p3) = read_string(s, p2);
    let (description, p4) = read_string(s, p3);
    let (version, p5) = read_string(s, p4);
    let (serial, p6) = read_string(s, p5);
    let (location, p7) = read_string(s, p6);
    let (modes_count, p8) = take_u16(s, p7);
    let (active_mode, p9) = take_i32(s, p8);

    let mut p = p9;
    let mut m: u16 = 0;
    while m < modes_count
        invariant
            p9 <= s@.len(),
            m <= modes_count,
            p <= s@.len(),
            p == modes_end(s@, p9 as int, m as nat),
        decreases modes_count - m,
    {
        p = skip_mode(s, p);
        m = m + 1;
    }

    let (zones_count, p11) = take_u16(s, p);
    let mut zones: Vec<ZoneInfo> = Vec::new();
    let mut q = p11;
    let mut z: u16 = 0;
    while z < zones_count
        invariant
            p11 <= s@.len(),
            z <= zones_count,
            q <= s@.len(),
            zones@.map_values(|zi: ZoneInfo| zi@) == zones_upto(s@, p11 as int, z as nat).0,
            q == zones_upto(s@, p11 as int, z as nat).1,
        decreases zones_count - z,
    {
        let (zone, next) = read_zone(s, q, z);
        let ghost before = zones@;
        zones.push(zone);
        assert(zones@.map_values(|zi: ZoneInfo| zi@) =~= before.map_values(|zi: ZoneInfo| zi@).push(
            zone@,
        ));
        q = next;
        z = z + 1;
    }
    let (leds_count, _p13) = take_u16(s, q);

    DeviceInfo {
        id: device_id,
        name,
        vendor,
        description,
        version,
        serial,
        location,
        led_count: leds_count as u32,
        active_mode,
        zones,
    }
}

} // verus!
