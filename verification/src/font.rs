//! A five by seven pixel font with the characters that the desktop shows.
use crate::canvas::put;
#[allow(unused_imports)]
use crate::canvas::{lemma_painted_agree, lemma_painted_grow, lemma_painted_nothing, lemma_painted_pixel, lemma_painted_union, misses_quadrant, painted, Area};
use vstd::prelude::*;
#[allow(unused_imports)]
use vstd::utf8::encode_utf8;

verus! {

/// The picture of a character: seven rows from top to bottom, in each of which the
/// five low bits are the pixels from left to right.
pub open spec fn glyph_rows(ch: u8) -> Seq<u8> {
    if ch == 'm' as u8 {
        seq![0x00, 0x1A, 0x15, 0x15, 0x15, 0x15, 0x15]
    } else if ch == 'o' as u8 {
        seq![0x00, 0x0E, 0x11, 0x11, 0x11, 0x11, 0x0E]
    } else if ch == 'c' as u8 {
        seq![0x00, 0x0E, 0x11, 0x10, 0x10, 0x11, 0x0E]
    } else if ch == 'h' as u8 {
        seq![0x10, 0x10, 0x16, 0x19, 0x11, 0x11, 0x11]
    } else if ch == 'i' as u8 {
        seq![0x04, 0x00, 0x0C, 0x04, 0x04, 0x04, 0x0E]
    } else if ch == 's' as u8 {
        seq![0x00, 0x0F, 0x10, 0x0E, 0x01, 0x11, 0x0E]
    } else if ch == 'P' as u8 {
        seq![0x1E, 0x11, 0x11, 0x1E, 0x10, 0x10, 0x10]
    } else if ch == 'M' as u8 {
        seq![0x11, 0x1B, 0x15, 0x15, 0x11, 0x11, 0x11]
    } else if ch == ':' as u8 {
        seq![0x00, 0x04, 0x04, 0x00, 0x04, 0x04, 0x00]
    } else if ch == ' ' as u8 {
        seq![0x00, 0x00, 0x00, 0x00, 0x00, 0x00, 0x00]
    } else if ch == '0' as u8 {
        seq![0x0E, 0x11, 0x13, 0x15, 0x19, 0x11, 0x0E]
    } else if ch == '1' as u8 {
        seq![0x04, 0x0C, 0x14, 0x04, 0x04, 0x04, 0x1F]
    } else if ch == '2' as u8 {
        seq![0x0E, 0x11, 0x01, 0x06, 0x08, 0x10, 0x1F]
    } else if ch == '4' as u8 {
        seq![0x02, 0x06, 0x0A, 0x12, 0x1F, 0x02, 0x02]
    } else if ch == '5' as u8 {
        seq![0x1F, 0x10, 0x1E, 0x01, 0x01, 0x11, 0x0E]
    } else {
        seq![0x1F, 0x01, 0x02, 0x04, 0x08, 0x00, 0x08]
    }
}

/// The value in a glyph row of the pixel in column `col`.
pub open spec fn column_weight(col: int) -> int {
    if col == 0 {
        16
    } else if col == 1 {
        8
    } else if col == 2 {
        4
    } else if col == 3 {
        2
    } else {
        1
    }
}

/// The glyph of `ch` has a pixel in column `col` of row `row`.
pub open spec fn glyph_pixel(ch: u8, col: int, row: int) -> bool {
    &&& 0 <= col < 5
    &&& 0 <= row < 7
    &&& (glyph_rows(ch)[row] as int / column_weight(col)) % 2 == 1
}

/// The pixels of the character `ch` with top left corner `(x, y)`.
pub open spec fn char_area(ch: u8, x: int, y: int) -> Area {
    |i: int, j: int| glyph_pixel(ch, i - x, j - y)
}

/// The pixels of a line of text with top left corner `(x, y)`: each byte takes a
/// cell six pixels wide, with its glyph on the left of the cell.
pub open spec fn text_area(text: Seq<u8>, x: int, y: int) -> Area {
    |i: int, j: int|
        0 <= i - x < 6 * text.len() && glyph_pixel(text[(i - x) / 6], (i - x) % 6, j - y)
}

/// All coordinates of the area are machine integers, as far as their upper limit
/// goes.
pub open spec fn within_i32(area: Area) -> bool {
    forall|i: int, j: int| #[trigger] area(i, j) ==> i <= i32::MAX && j <= i32::MAX
}

/// The picture of the character `ch`. Characters that the font does not have share
/// one picture, a question mark.
pub fn glyph(ch: u8) -> (rows: [u8; 7])
    ensures
        rows@ == glyph_rows(ch),
{
    match ch as char {
        'm' => [0x00, 0x1A, 0x15, 0x15, 0x15, 0x15, 0x15],
        'o' => [0x00, 0x0E, 0x11, 0x11, 0x11, 0x11, 0x0E],
        'c' => [0x00, 0x0E, 0x11, 0x10, 0x10, 0x11, 0x0E],
        'h' => [0x10, 0x10, 0x16, 0x19, 0x11, 0x11, 0x11],
        'i' => [0x04, 0x00, 0x0C, 0x04, 0x04, 0x04, 0x0E],
        's' => [0x00, 0x0F, 0x10, 0x0E, 0x01, 0x11, 0x0E],
        'P' => [0x1E, 0x11, 0x11, 0x1E, 0x10, 0x10, 0x10],
        'M' => [0x11, 0x1B, 0x15, 0x15, 0x11, 0x11, 0x11],
        ':' => [0x00, 0x04, 0x04, 0x00, 0x04, 0x04, 0x00],
        ' ' => [0; 7],
        '0' => [0x0E, 0x11, 0x13, 0x15, 0x19, 0x11, 0x0E],
        '1' => [0x04, 0x0C, 0x14, 0x04, 0x04, 0x04, 0x1F],
        '2' => [0x0E, 0x11, 0x01, 0x06, 0x08, 0x10, 0x1F],
        '4' => [0x02, 0x06, 0x0A, 0x12, 0x1F, 0x02, 0x02],
        '5' => [0x1F, 0x10, 0x1E, 0x01, 0x01, 0x11, 0x0E],
        _ => [0x1F, 0x01, 0x02, 0x04, 0x08, 0x00, 0x08],
    }
}

proof fn lemma_row_bit(bits: u8, col: u8)
    requires
        col < 5,
    ensures
        ((bits >> ((4 - col) as u8)) & 1 == 1) == ((bits as int / column_weight(col as int)) % 2
            == 1),
{
    assert((bits >> 4u8) & 1 == (bits / 16) % 2) by (bit_vector);
    assert((bits >> 3u8) & 1 == (bits / 8) % 2) by (bit_vector);
    assert((bits >> 2u8) & 1 == (bits / 4) % 2) by (bit_vector);
    assert((bits >> 1u8) & 1 == (bits / 2) % 2) by (bit_vector);
    assert((bits >> 0u8) & 1 == (bits / 1) % 2) by (bit_vector);
}

/// The part of a character at `(x, y)` that a scan by rows has passed when it
/// stands before column `col` of row `row`.
spec fn drawn_part(ch: u8, x: int, y: int, col: int, row: int) -> Area {
    |i: int, j: int|
        glyph_pixel(ch, i - x, j - y) && (j - y < row || (j - y == row && i - x < col))
}

/// Draws the character `ch` with top left corner `(x, y)`, clipped to the canvas.
pub fn draw_char(px: &mut [u32], stride: usize, x: i32, y: i32, ch: u8, color: u32)
    requires
        within_i32(char_area(ch, x as int, y as int)),
        stride > 0 || misses_quadrant(char_area(ch, x as int, y as int)),
    ensures
        final(px)@ == painted(
            old(px)@,
            stride as int,
            char_area(ch, x as int, y as int),
            color,
        ),
{
    let ghost start = px@;
    let ghost s = stride as int;
    let ghost area = char_area(ch, x as int, y as int);
    let g: [u8; 7] = glyph(ch);
    let mut row: u8 = 0;
    proof {
        lemma_painted_nothing(start, s, drawn_part(ch, x as int, y as int, 0, 0), color);
    }
    while row < 7
        invariant
            row <= 7,
            s == stride,
            g@ == glyph_rows(ch),
            area == char_area(ch, x as int, y as int),
            within_i32(area),
            stride > 0 || misses_quadrant(area),
            px@ == painted(start, s, drawn_part(ch, x as int, y as int, 0, row as int), color),
        decreases 7 - row,
    {
        let bits: u8 = g[row as usize];
        let mut col: u8 = 0;
        while col < 5
            invariant
                col <= 5,
                row < 7,
                s == stride,
                bits == glyph_rows(ch)[row as int],
                area == char_area(ch, x as int, y as int),
                within_i32(area),
                stride > 0 || misses_quadrant(area),
                px@ == painted(
                    start,
                    s,
                    drawn_part(ch, x as int, y as int, col as int, row as int),
                    color,
                ),
            decreases 5 - col,
        {
            let ghost before = drawn_part(ch, x as int, y as int, col as int, row as int);
            let ghost after = drawn_part(ch, x as int, y as int, col + 1, row as int);
            proof {
                lemma_row_bit(bits, col);
                assert(area(x + col, y + row) == glyph_pixel(ch, col as int, row as int));
            }
            if (bits >> (4 - col)) & 1 == 1 {
                put(px, stride, x + col as i32, y + row as i32, color);
                proof {
                    lemma_painted_grow(start, s, before, x + col, y + row, after, color);
                }
            } else {
                proof {
                    lemma_painted_agree(start, s, before, after, color);
                }
            }
            col = col + 1;
        }
        proof {
            lemma_painted_agree(
                start,
                s,
                drawn_part(ch, x as int, y as int, col as int, row as int),
                drawn_part(ch, x as int, y as int, 0, row + 1),
                color,
            );
        }
        row = row + 1;
    }
    proof {
        lemma_painted_agree(
            start,
            s,
            drawn_part(ch, x as int, y as int, 0, row as int),
            area,
            color,
        );
    }
}

/// Draws the bytes of `text` from left to right, six pixels apart, starting with
/// the top left corner `(x, y)`, clipped to the canvas.
pub fn draw_text(px: &mut [u32], stride: usize, x: i32, y: i32, text: &str, color: u32)
    requires
        x + 6 * encode_utf8(text@).len() <= i32::MAX,
        within_i32(text_area(encode_utf8(text@), x as int, y as int)),
        stride > 0 || misses_quadrant(text_area(encode_utf8(text@), x as int, y as int)),
    ensures
        final(px)@ == painted(
            old(px)@,
            stride as int,
            text_area(encode_utf8(text@), x as int, y as int),
            color,
        ),
{
    let ghost start = px@;
    let ghost s = stride as int;
    let bytes: &[u8] = text.as_bytes();
    let ghost area = text_area(bytes@, x as int, y as int);
    let mut pen_x: i32 = x;
    let mut k: usize = 0;
    proof {
        lemma_painted_nothing(start, s, |i: int, j: int| area(i, j) && i < pen_x, color);
    }
    while k < bytes.len()
        invariant
            k <= bytes@.len(),
            pen_x == x + 6 * k,
            x + 6 * bytes@.len() <= i32::MAX,
            s == stride,
            area == text_area(bytes@, x as int, y as int),
            within_i32(area),
            stride > 0 || misses_quadrant(area),
            px@ == painted(start, s, |i: int, j: int| area(i, j) && i < pen_x, color),
        decreases bytes@.len() - k,
    {
        let ghost before = |i: int, j: int| area(i, j) && i < pen_x;
        let ghost after = |i: int, j: int| area(i, j) && i < pen_x + 6;
        let ghost here = char_area(bytes@[k as int], pen_x as int, y as int);
        proof {
            assert forall|i: int, j: int| #[trigger] here(i, j) implies area(i, j) by {
                assert((i - x) / 6 == k && (i - x) % 6 == i - pen_x);
            }
            assert forall|i: int, j: int| area(i, j) && pen_x <= i < pen_x + 6 implies #[trigger] here(
                i,
                j,
            ) by {
                assert((i - x) / 6 == k && (i - x) % 6 == i - pen_x);
            }
        }
        draw_char(px, stride, pen_x, y, bytes[k], color);
        proof {
            lemma_painted_union(start, s, before, here, color);
            lemma_painted_agree(start, s, after, |i: int, j: int| before(i, j) || here(i, j), color);
        }
        pen_x = pen_x + 6;
        k = k + 1;
    }
    proof {
        lemma_painted_agree(start, s, |i: int, j: int| area(i, j) && i < pen_x, area, color);
    }
}

/// The number whose five binary digits are the pixels of a glyph's row, from left to
/// right.
pub open spec fn row_ink(ch: u8, row: int) -> int {
    (if glyph_pixel(ch, 0, row) {
        0b10000int
    } else {
        0
    }) + (if glyph_pixel(ch, 1, row) {
        0b01000int
    } else {
        0
    }) + (if glyph_pixel(ch, 2, row) {
        0b00100int
    } else {
        0
    }) + (if glyph_pixel(ch, 3, row) {
        0b00010int
    } else {
        0
    }) + (if glyph_pixel(ch, 4, row) {
        0b00001int
    } else {
        0
    })
}

/// The pixels of a glyph, a number for each row.
#[verifier::opaque]
pub open spec fn ink(ch: u8) -> Seq<int> {
    Seq::new(7, |row: int| row_ink(ch, row))
}

/// The binary digits of a glyph's rows are its pixels.
pub proof fn lemma_rows_are_pixels(ch: u8, row: int)
    requires
        0 <= row < 7,
    ensures
        glyph_rows(ch).len() == 7,
        glyph_rows(ch)[row] == row_ink(ch, row),
{
    let bits = glyph_rows(ch)[row];
    assert(bits < 32);
}

/// The pictures of all characters, row by row from the top; what the font does not
/// have is a question mark.
pub proof fn lemma_glyph_pictures(ch: u8)
    ensures
        ch == 0x6D ==> ink(ch) == seq![0b00000int, 0b11010, 0b10101, 0b10101, 0b10101, 0b10101, 0b10101],
        ch == 0x6F ==> ink(ch) == seq![0b00000int, 0b01110, 0b10001, 0b10001, 0b10001, 0b10001, 0b01110],
        ch == 0x63 ==> ink(ch) == seq![0b00000int, 0b01110, 0b10001, 0b10000, 0b10000, 0b10001, 0b01110],
        ch == 0x68 ==> ink(ch) == seq![0b10000int, 0b10000, 0b10110, 0b11001, 0b10001, 0b10001, 0b10001],
        ch == 0x69 ==> ink(ch) == seq![0b00100int, 0b00000, 0b01100, 0b00100, 0b00100, 0b00100, 0b01110],
        ch == 0x73 ==> ink(ch) == seq![0b00000int, 0b01111, 0b10000, 0b01110, 0b00001, 0b10001, 0b01110],
        ch == 0x50 ==> ink(ch) == seq![0b11110int, 0b10001, 0b10001, 0b11110, 0b10000, 0b10000, 0b10000],
        ch == 0x4D ==> ink(ch) == seq![0b10001int, 0b11011, 0b10101, 0b10101, 0b10001, 0b10001, 0b10001],
        ch == 0x3A ==> ink(ch) == seq![0b00000int, 0b00100, 0b00100, 0b00000, 0b00100, 0b00100, 0b00000],
        ch == 0x20 ==> ink(ch) == seq![0b00000int, 0b00000, 0b00000, 0b00000, 0b00000, 0b00000, 0b00000],
        ch == 0x30 ==> ink(ch) == seq![0b01110int, 0b10001, 0b10011, 0b10101, 0b11001, 0b10001, 0b01110],
        ch == 0x31 ==> ink(ch) == seq![0b00100int, 0b01100, 0b10100, 0b00100, 0b00100, 0b00100, 0b11111],
        ch == 0x32 ==> ink(ch) == seq![0b01110int, 0b10001, 0b00001, 0b00110, 0b01000, 0b10000, 0b11111],
        ch == 0x34 ==> ink(ch) == seq![0b00010int, 0b00110, 0b01010, 0b10010, 0b11111, 0b00010, 0b00010],
        ch == 0x35 ==> ink(ch) == seq![0b11111int, 0b10000, 0b11110, 0b00001, 0b00001, 0b10001, 0b01110],
        (ch != 0x6D && ch != 0x6F && ch != 0x63 && ch != 0x68 && ch != 0x69 && ch != 0x73 && ch != 0x50 && ch != 0x4D && ch != 0x3A && ch != 0x20 && ch != 0x30 && ch != 0x31 && ch != 0x32 && ch != 0x34 && ch != 0x35) ==> ink(ch) == seq![0b11111int, 0b00001, 0b00010, 0b00100, 0b01000, 0b00000, 0b01000],
{
    lemma_ink_is_rows(ch);
    let rows = glyph_rows(ch);
    let picture = ink(ch);
    assert(picture =~= seq![
        rows[0] as int,
        rows[1] as int,
        rows[2] as int,
        rows[3] as int,
        rows[4] as int,
        rows[5] as int,
        rows[6] as int,
    ]);
}

proof fn lemma_ink_is_rows(ch: u8)
    ensures
        ink(ch).len() == 7,
        forall|row: int| 0 <= row < 7 ==> #[trigger] ink(ch)[row] == glyph_rows(ch)[row],
{
    reveal(ink);
    assert forall|row: int| 0 <= row < 7 implies #[trigger] ink(ch)[row] == glyph_rows(ch)[row] by {
        lemma_rows_are_pixels(ch, row);
    }
}

/// A glyph is five pixels wide and seven high, and a character is drawn with the
/// corner of its glyph at the place given.
pub proof fn lemma_char_is_its_glyph(ch: u8, x: int, y: int, col: int, row: int)
    ensures
        char_area(ch, x, y)(x + col, y + row) == glyph_pixel(ch, col, row),
        glyph_pixel(ch, col, row) ==> 0 <= col < 5 && 0 <= row < 7,
{
}

/// Drawing a text gives the colour to the pixels of its characters' glyphs, which
/// stand six pixels apart, and leaves every other pixel of the canvas alone.
pub proof fn lemma_draw_text_pixel(
    px: Seq<u32>,
    stride: int,
    x: int,
    y: int,
    text: Seq<u8>,
    color: u32,
    i: int,
    j: int,
)
    requires
        0 <= i < stride,
        0 <= j < px.len() as int / stride,
    ensures
        painted(px, stride, text_area(text, x, y), color)[j * stride + i] == (if exists|k: int|
            0 <= k < text.len() && #[trigger] glyph_pixel(text[k], i - x - 6 * k, j - y) {
            color
        } else {
            px[j * stride + i]
        }),
{
    lemma_painted_pixel(px, stride, text_area(text, x, y), color, i, j);
    lemma_text_is_its_characters(text, x, y, i, j);
    if text_area(text, x, y)(i, j) {
        let k = (i - x) / 6;
        assert(0 <= k < text.len() && glyph_pixel(text[k], i - x - 6 * k, j - y));
    }
    if exists|k: int|
        0 <= k < text.len() && #[trigger] glyph_pixel(text[k], i - x - 6 * k, j - y) {
        let k = choose|k: int|
            0 <= k < text.len() && #[trigger] glyph_pixel(text[k], i - x - 6 * k, j - y);
        assert(char_area(text[k], x + 6 * k, y)(i, j));
    }
}

/// A line of text consists of its characters, each in its own cell.
pub proof fn lemma_text_is_its_characters(text: Seq<u8>, x: int, y: int, i: int, j: int)
    ensures
        text_area(text, x, y)(i, j) <==> exists|k: int|
            0 <= k < text.len() && #[trigger] char_area(text[k], x + 6 * k, y)(i, j),
{
    if text_area(text, x, y)(i, j) {
        let k = (i - x) / 6;
        assert(0 <= k < text.len() && char_area(text[k], x + 6 * k, y)(i, j));
    }
    if exists|k: int| 0 <= k < text.len() && #[trigger] char_area(text[k], x + 6 * k, y)(i, j) {
        let k = choose|k: int|
            0 <= k < text.len() && #[trigger] char_area(text[k], x + 6 * k, y)(i, j);
        assert((i - x) / 6 == k && (i - x) % 6 == i - x - 6 * k);
    }
}

} // verus!
