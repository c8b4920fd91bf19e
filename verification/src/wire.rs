//! The messages that are exchanged with Kagami. Numbers are little endian.
use vstd::prelude::*;

verus! {

/// The size of the buffers that messages travel in.
pub const IPC_BUF_SIZE: usize = 4128;

pub const OP_REQ_CREATE_WINDOW: u32 = 1;

pub const OP_RES_WINDOW_CREATED: u32 = 2;

pub const OP_REQ_FLUSH_CHUNK: u32 = 4;

pub const OP_REQ_ATTACH_SHARED: u32 = 5;

pub const OP_REQ_PRESENT_SHARED: u32 = 6;

pub const OP_RES_SHARED_ATTACHED: u32 = 7;

pub const LAYER_WALLPAPER: u8 = 0;

/// The two bytes of a number, the low one first.
pub open spec fn le16(v: u16) -> Seq<u8> {
    seq![(v % 256) as u8, (v / 256) as u8]
}

/// The four bytes of a number, the low one first.
pub open spec fn le32(v: u32) -> Seq<u8> {
    seq![
        (v % 256) as u8,
        (v / 0x100 % 256) as u8,
        (v / 0x1_0000 % 256) as u8,
        (v / 0x100_0000) as u8,
    ]
}

/// The number that the four bytes from position `at` on stand for.
pub open spec fn le32_at(bytes: Seq<u8>, at: int) -> u32 {
    (bytes[at] + bytes[at + 1] * 0x100 + bytes[at + 2] * 0x1_0000 + bytes[at + 3] * 0x100_0000) as u32
}

/// The number that the two bytes from position `at` on stand for.
pub open spec fn le16_at(bytes: Seq<u8>, at: int) -> u16 {
    (bytes[at] + bytes[at + 1] * 0x100) as u16
}

/// The bytes of a number are its digits to the base 256, the lowest first. (Bytes
/// being less than 256, no other bytes have this sum.)
pub proof fn lemma_le32_digits(v: u32)
    ensures
        le32(v).len() == 4,
        v == le32(v)[0] + 0x100 * le32(v)[1] + 0x1_0000 * le32(v)[2] + 0x100_0000 * le32(v)[3],
{
}

/// The bytes of a 16 bit number are its digits to the base 256, the lowest first.
pub proof fn lemma_le16_digits(v: u16)
    ensures
        le16(v).len() == 2,
        v == le16(v)[0] + 0x100 * le16(v)[1],
{
}

/// Reading a number adds up its digits to the base 256.
pub proof fn lemma_le_at_digits(bytes: Seq<u8>, at: int)
    ensures
        le32_at(bytes, at) == bytes[at] + 0x100 * bytes[at + 1] + 0x1_0000 * bytes[at + 2]
            + 0x100_0000 * bytes[at + 3],
        le16_at(bytes, at) == bytes[at] + 0x100 * bytes[at + 1],
{
}

/// A number is read back from the place where its bytes stand.
pub proof fn lemma_le32_read(bytes: Seq<u8>, at: int, v: u32)
    requires
        0 <= at <= bytes.len() - 4,
        bytes.subrange(at, at + 4) == le32(v),
    ensures
        le32_at(bytes, at) == v,
{
    let part = bytes.subrange(at, at + 4);
    assert(bytes[at] == part[0] && bytes[at + 1] == part[1]);
    assert(bytes[at + 2] == part[2] && bytes[at + 3] == part[3]);
}

/// A 16 bit number is read back from the place where its bytes stand.
pub proof fn lemma_le16_read(bytes: Seq<u8>, at: int, v: u16)
    requires
        0 <= at <= bytes.len() - 2,
        bytes.subrange(at, at + 2) == le16(v),
    ensures
        le16_at(bytes, at) == v,
{
    let part = bytes.subrange(at, at + 2);
    assert(bytes[at] == part[0] && bytes[at + 1] == part[1]);
}

/// Writing the number that four bytes stand for gives the bytes.
pub proof fn lemma_le32_inverse(bytes: Seq<u8>)
    requires
        bytes.len() == 4,
    ensures
        le32(le32_at(bytes, 0)) == bytes,
{
    let (a, b, c, d) = (bytes[0] as int, bytes[1] as int, bytes[2] as int, bytes[3] as int);
    let v = le32_at(bytes, 0) as int;
    assert(v == a + 256 * (b + 256 * (c + 256 * d)));
    assert(v % 256 == a && v / 256 == b + 256 * (c + 256 * d));
    assert(v / 256 / 256 == c + 256 * d && v / 256 % 256 == b);
    assert(v / 0x1_0000 == v / 256 / 256 && v / 0x100_0000 == v / 256 / 256 / 256);
    assert(le32(le32_at(bytes, 0)) =~= bytes);
}

/// The colour with its alpha byte set to full.
pub open spec fn opaque(color: u32) -> u32 {
    (0xFF00_0000 + color % 0x100_0000) as u32
}

/// Making a colour opaque sets the bits of its alpha byte and keeps every other
/// bit: red, green and blue stay what they were.
pub proof fn lemma_opaque_keeps_colors(color: u32)
    ensures
        opaque(color) == color | 0xFF00_0000u32,
        opaque(color) & 0x00FF_FFFFu32 == color & 0x00FF_FFFFu32,
        opaque(color) >> 24u32 == 0xFFu32,
        opaque(color) / 0x1_0000 % 256 == color / 0x1_0000 % 256,
        opaque(color) / 0x100 % 256 == color / 0x100 % 256,
        opaque(color) % 256 == color % 256,
        color >= 0xFF00_0000 ==> opaque(color) == color,
{
    assert(color | 0xFF00_0000 == 0xFF00_0000 + color % 0x100_0000) by (bit_vector);
    assert((color | 0xFF00_0000) & 0x00FF_FFFF == color & 0x00FF_FFFF) by (bit_vector);
    assert((color | 0xFF00_0000) >> 24u32 == 0xFFu32) by (bit_vector);
    lemma_opaque_channels(color);
}

proof fn lemma_opaque_channels(color: u32)
    ensures
        opaque(color) / 0x100_0000 == 0xFF,
        opaque(color) / 0x1_0000 % 256 == color / 0x1_0000 % 256,
        opaque(color) / 0x100 % 256 == color / 0x100 % 256,
        opaque(color) % 256 == color % 256,
        color >= 0xFF00_0000 ==> opaque(color) == color,
{
    let c: u32 = opaque(color);
    assert(color | 0xFF00_0000 == 0xFF00_0000 + color % 0x100_0000) by (bit_vector);
    assert(c / 0x100_0000 == 0xFF && c / 0x1_0000 % 256 == color / 0x1_0000 % 256 && c / 0x100 % 256
        == color / 0x100 % 256 && c % 256 == color % 256) by (bit_vector)
        requires
            c == color | 0xFF00_0000,
    ;
    assert(color >= 0xFF00_0000 ==> c == color) by (bit_vector)
        requires
            c == color | 0xFF00_0000,
    ;
}

/// The bytes of an opaque colour are the blue, the green and the red of the colour,
/// and full alpha.
pub proof fn lemma_opaque_bytes(color: u32)
    ensures
        le32(opaque(color)).len() == 4,
        le32(opaque(color))[0] == color % 256,
        le32(opaque(color))[1] == color / 0x100 % 256,
        le32(opaque(color))[2] == color / 0x1_0000 % 256,
        le32(opaque(color))[3] == 0xFF,
{
    lemma_opaque_channels(color);
}

/// Making a colour opaque once is enough.
pub proof fn lemma_opaque_twice(color: u32)
    ensures
        opaque(opaque(color)) == opaque(color),
{
}

/// Makes a colour opaque.
pub fn make_opaque(color: u32) -> (c: u32)
    ensures
        c == opaque(color),
        c == color | 0xFF00_0000u32,
        c & 0x00FF_FFFFu32 == color & 0x00FF_FFFFu32,
        c >> 24u32 == 0xFFu32,
{
    assert(color | 0xFF00_0000 == 0xFF00_0000 + color % 0x100_0000) by (bit_vector);
    assert((color | 0xFF00_0000) & 0x00FF_FFFF == color & 0x00FF_FFFF) by (bit_vector);
    assert((color | 0xFF00_0000) >> 24u32 == 0xFFu32) by (bit_vector);
    color | 0xFF00_0000
}

/// A request for a wallpaper window of the given size.
pub open spec fn create_window_message(width: u16, height: u16) -> Seq<u8> {
    le32(OP_REQ_CREATE_WINDOW) + le16(width) + le16(height) + seq![LAYER_WALLPAPER]
}

/// A request to attach a shared surface of the given size to a window.
pub open spec fn attach_message(window_id: u32, width: u16, height: u16) -> Seq<u8> {
    le32(OP_REQ_ATTACH_SHARED) + le32(window_id) + le16(width) + le16(height)
}

/// A request to show the shared surface of a window.
pub open spec fn present_message(window_id: u32) -> Seq<u8> {
    le32(OP_REQ_PRESENT_SHARED) + le32(window_id)
}

/// The request for a window names what is asked for: the operation, the width and
/// the height, and the wallpaper layer.
pub proof fn lemma_create_window_message_names_size(width: u16, height: u16)
    ensures
        ({
            let m = create_window_message(width, height);
            &&& m.len() == 9
            &&& m[0] + 0x100 * m[1] + 0x1_0000 * m[2] + 0x100_0000 * m[3] == 1
            &&& m[4] + 0x100 * m[5] == width
            &&& m[6] + 0x100 * m[7] == height
            &&& m[8] == 0
            &&& le32_at(m, 0) == OP_REQ_CREATE_WINDOW
            &&& le16_at(m, 4) == width
            &&& le16_at(m, 6) == height
            &&& m[8] == LAYER_WALLPAPER
        }),
{
}

/// Windows of different sizes are asked for by different requests.
pub proof fn lemma_create_window_message_injective(w1: u16, h1: u16, w2: u16, h2: u16)
    requires
        create_window_message(w1, h1) == create_window_message(w2, h2),
    ensures
        w1 == w2,
        h1 == h2,
{
    lemma_create_window_message_names_size(w1, h1);
    lemma_create_window_message_names_size(w2, h2);
}

/// The request to attach a surface names the operation, the window, and the width
/// and the height of the surface.
pub proof fn lemma_attach_message_names_surface(window_id: u32, width: u16, height: u16)
    ensures
        ({
            let m = attach_message(window_id, width, height);
            &&& m.len() == 12
            &&& m[0] + 0x100 * m[1] + 0x1_0000 * m[2] + 0x100_0000 * m[3] == 5
            &&& m[4] + 0x100 * m[5] + 0x1_0000 * m[6] + 0x100_0000 * m[7] == window_id
            &&& m[8] + 0x100 * m[9] == width
            &&& m[10] + 0x100 * m[11] == height
        }),
{
    lemma_le32_digits(window_id);
    let m = attach_message(window_id, width, height);
    assert(m.subrange(4, 8) =~= le32(window_id));
    assert(m[4] == m.subrange(4, 8)[0] && m[5] == m.subrange(4, 8)[1]);
    assert(m[6] == m.subrange(4, 8)[2] && m[7] == m.subrange(4, 8)[3]);
}

/// The request to show a surface names the operation and the window.
pub proof fn lemma_present_message_names_window(window_id: u32)
    ensures
        ({
            let m = present_message(window_id);
            &&& m.len() == 8
            &&& m[0] + 0x100 * m[1] + 0x1_0000 * m[2] + 0x100_0000 * m[3] == 6
            &&& m[4] + 0x100 * m[5] + 0x1_0000 * m[6] + 0x100_0000 * m[7] == window_id
        }),
{
    lemma_le32_digits(window_id);
    let m = present_message(window_id);
    assert(m.subrange(4, 8) =~= le32(window_id));
    assert(m[4] == m.subrange(4, 8)[0] && m[5] == m.subrange(4, 8)[1]);
    assert(m[6] == m.subrange(4, 8)[2] && m[7] == m.subrange(4, 8)[3]);
}

/// Appends the bytes of a 16 bit number.
pub fn push_u16(msg: &mut Vec<u8>, v: u16)
    ensures
        final(msg)@ == old(msg)@ + le16(v),
{
    msg.push((v % 256) as u8);
    msg.push((v / 256) as u8);
    assert(msg@ =~= old(msg)@ + le16(v));
}

/// Appends the bytes of a 32 bit number.
pub fn push_u32(msg: &mut Vec<u8>, v: u32)
    ensures
        final(msg)@ == old(msg)@ + le32(v),
{
    msg.push((v % 256) as u8);
    msg.push((v / 0x100 % 256) as u8);
    msg.push((v / 0x1_0000 % 256) as u8);
    msg.push((v / 0x100_0000) as u8);
    assert(msg@ =~= old(msg)@ + le32(v));
}

/// Reads the 32 bit number at position `at`.
pub fn read_u32(bytes: &[u8], at: usize) -> (v: u32)
    requires
        at + 4 <= bytes@.len(),
    ensures
        v == le32_at(bytes@, at as int),
        v == bytes@[at as int] + 0x100 * bytes@[at + 1] + 0x1_0000 * bytes@[at + 2] + 0x100_0000
            * bytes@[at + 3],
{
    bytes[at] as u32 + bytes[at + 1] as u32 * 0x100 + bytes[at + 2] as u32 * 0x1_0000 + bytes[at
        + 3] as u32 * 0x100_0000
}

/// Writes the request for a wallpaper window.
pub fn encode_create_window(width: u16, height: u16) -> (msg: Vec<u8>)
    ensures
        msg@ == create_window_message(width, height),
        msg@.len() == 9,
        le32_at(msg@, 0) == OP_REQ_CREATE_WINDOW,
        le16_at(msg@, 4) == width,
        le16_at(msg@, 6) == height,
        msg@[8] == LAYER_WALLPAPER,
{
    let mut msg: Vec<u8> = Vec::new();
    push_u32(&mut msg, OP_REQ_CREATE_WINDOW);
    push_u16(&mut msg, width);
    push_u16(&mut msg, height);
    msg.push(LAYER_WALLPAPER);
    assert(msg@ =~= create_window_message(width, height));
    msg
}

/// Writes the request to attach a shared surface.
pub fn encode_attach(window_id: u32, width: u16, height: u16) -> (msg: Vec<u8>)
    ensures
        msg@ == attach_message(window_id, width, height),
{
    let mut msg: Vec<u8> = Vec::new();
    push_u32(&mut msg, OP_REQ_ATTACH_SHARED);
    push_u32(&mut msg, window_id);
    push_u16(&mut msg, width);
    push_u16(&mut msg, height);
    assert(msg@ =~= attach_message(window_id, width, height));
    msg
}

/// Writes the request to show a shared surface.
pub fn encode_present(window_id: u32) -> (msg: Vec<u8>)
    ensures
        msg@ == present_message(window_id),
{
    let mut msg: Vec<u8> = Vec::new();
    push_u32(&mut msg, OP_REQ_PRESENT_SHARED);
    push_u32(&mut msg, window_id);
    assert(msg@ =~= present_message(window_id));
    msg
}

} // verus!
