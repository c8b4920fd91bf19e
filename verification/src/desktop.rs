//! The desktop picture: a vertical gradient, a menu bar with a title and a clock,
//! and a dock with five icons.
#[allow(unused_imports)]
use crate::canvas::{in_rounded_rect, lemma_pixel_index, on_canvas, outline_area, painted, rounded_area};
use crate::canvas::{fill_rect, fill_rounded_rect, stroke_rounded_rect};
use crate::font::draw_text;
#[allow(unused_imports)]
use crate::font::{glyph_pixel, text_area};
#[allow(unused_imports)]
use vstd::arithmetic::div_mod::{lemma_div_multiples_vanish, lemma_fundamental_div_mod};
use vstd::prelude::*;
#[allow(unused_imports)]
use vstd::string::is_ascii_spec_bytes;
#[allow(unused_imports)]
use vstd::utf8::encode_utf8;

verus! {

/// The tallest picture whose gradient is computed without overflow.
pub const MAX_HEIGHT: usize = 16843010;

pub const BAR_COLOR: u32 = 0xFFF4_F7FA;

pub const TEXT_COLOR: u32 = 0xFF47_5569;

pub const DOCK_COLOR: u32 = 0xEAF6_F8FC;

pub const DOCK_EDGE_COLOR: u32 = 0xFFCD_D7E4;

/// The opaque colour with the given red, green and blue.
pub open spec fn opaque_rgb(r: int, g: int, b: int) -> u32 {
    (0xFF00_0000 + r * 0x1_0000 + g * 0x100 + b) as u32
}

/// The colour of the background in row `j` of a picture of the given height: the
/// row's position, scaled to 255, darkens red by a third of it, green by a fifth and
/// blue by a seventh.
pub open spec fn gradient_color(j: int, height: int) -> u32 {
    let t = j * 255 / height;
    opaque_rgb(220 - t / 3, 232 - t / 5, 244 - t / 7)
}

/// Half of `n`, rounded towards zero.
pub open spec fn half(n: int) -> int {
    if n >= 0 {
        n / 2
    } else {
        -(-n / 2)
    }
}

/// The left edge of the dock, which stands in the middle of the width.
pub open spec fn dock_x(width: int) -> int {
    half(width - 276)
}

/// The top edge of the dock: 14 pixels of room below it, but never above row 40.
pub open spec fn dock_y(height: int) -> int {
    if height - 75 - 14 > 40 {
        height - 75 - 14
    } else {
        40
    }
}

/// The colour of icon `n`, counted from the left.
pub open spec fn icon_color(n: int) -> u32 {
    if n == 0 {
        0xFF60_A5FA
    } else if n == 1 {
        0xFF4A_DE80
    } else if n == 2 {
        0xFFF5_9E0B
    } else if n == 3 {
        0xFFFB_7185
    } else {
        0xFFA7_8BFA
    }
}

/// The pixel `(i, j)`, seen from the corner of the first icon, lies on one of the
/// first `count` icons. Icons are 40 pixels wide and stand 48 pixels apart.
pub open spec fn on_icon(i: int, j: int, count: int) -> bool {
    0 <= i < 48 * count && in_rounded_rect(i % 48, j, 40, 40, 12)
}

/// The colour of pixel `(i, j)` of the desktop picture. The width is the one that
/// positions are computed from.
pub open spec fn desktop_color(width: int, height: int, i: int, j: int) -> u32 {
    let x = dock_x(width);
    let y = dock_y(height);
    if on_icon(i - x - 18, j - y - 18, 5) {
        icon_color((i - x - 18) / 48)
    } else if outline_area(x, y, 276, 75, 18)(i, j) {
        DOCK_EDGE_COLOR
    } else if rounded_area(x, y, 276, 75, 18)(i, j) {
        DOCK_COLOR
    } else if text_area(encode_utf8("12:45 PM"@), width - 86, 10)(i, j) || text_area(
        encode_utf8("mochiOS"@),
        24,
        10,
    )(i, j) {
        TEXT_COLOR
    } else if 0 <= i < width && 0 <= j < 32 {
        BAR_COLOR
    } else {
        gradient_color(j, height)
    }
}

/// The desktop picture, row by row.
pub open spec fn desktop_picture(width: usize, height: usize) -> Seq<u32> {
    Seq::new(
        (width * height) as nat,
        |k: int|
            desktop_color(
                width as i32 as int,
                height as int,
                k % width as int,
                k / width as int,
            ),
    )
}

/// The sizes that a picture can have: it has columns, its pixels fit in one
/// buffer, and positions are computed without overflow. Positions are computed from
/// the width as a 32 bit number.
pub open spec fn picture_size(width: usize, height: usize) -> bool {
    &&& width > 0
    &&& height <= MAX_HEIGHT
    &&& width * height <= usize::MAX
    &&& width * height * 4 <= isize::MAX
    &&& width as i32 >= i32::MIN + 276
}

/// The background of the picture.
pub open spec fn gradient_picture(width: usize, height: usize) -> Seq<u32> {
    Seq::new((width * height) as nat, |k: int| gradient_color(k / width as int, height as int))
}

/// The buffer with the first `count` icons on it, the first one at `(x, y)`.
spec fn with_icons(px: Seq<u32>, stride: int, x: int, y: int, count: int) -> Seq<u32> {
    Seq::new(
        px.len(),
        |k: int|
            if on_canvas(px.len() as int, stride, k) && on_icon(
                k % stride - x,
                k / stride - y,
                count,
            ) {
                icon_color((k % stride - x) / 48)
            } else {
                px[k]
            },
    )
}

fn gradient_row(y: u32, height: u32) -> (c: u32)
    requires
        y < height <= MAX_HEIGHT,
    ensures
        c == gradient_color(y as int, height as int),
{
    let t: u32 = y * 255 / height;
    let r: u32 = 220u32.saturating_sub(t / 3);
    let g: u32 = 232u32.saturating_sub(t / 5);
    let b: u32 = 244u32.saturating_sub(t / 7);
    proof {
        assert(0 <= y * 255 / height as int <= 255) by (nonlinear_arith)
            requires
                0 <= y < height,
        ;
        assert(0xFF00_0000u32 | (r << 16) | (g << 8) | b == 0xFF00_0000 + r * 0x1_0000 + g * 0x100
            + b) by (bit_vector)
            requires
                r < 256,
                g < 256,
                b < 256,
        ;
    }
    0xFF00_0000 | (r << 16) | (g << 8) | b
}

fn draw_background(width: usize, height: usize) -> (px: Vec<u32>)
    requires
        picture_size(width, height),
    ensures
        px@ == gradient_picture(width, height),
{
    let mut px: Vec<u32> = vec![0u32; width * height];
    let ghost len = width * height;
    proof {
        lemma_div_multiples_vanish(height as int, width as int);
        assert(width * height == height * width) by (nonlinear_arith);
    }
    let mut y: usize = 0;
    while y < height
        invariant
            width > 0,
            y <= height <= MAX_HEIGHT,
            len == width * height == px@.len() <= usize::MAX,
            len / width as int == height,
            forall|k: int|
                0 <= k < y * width ==> #[trigger] px@[k] == gradient_color(
                    k / width as int,
                    height as int,
                ),
        decreases height - y,
    {
        let c: u32 = gradient_row(y as u32, height as u32);
        proof {
            lemma_pixel_index(len, width as int, 0, y as int);
        }
        let row: usize = y * width;
        let mut x: usize = 0;
        while x < width
            invariant
                x <= width,
                y < height,
                row == y * width,
                len == px@.len() <= usize::MAX,
                len / width as int == height,
                c == gradient_color(y as int, height as int),
                forall|k: int|
                    0 <= k < row + x ==> #[trigger] px@[k] == gradient_color(
                        k / width as int,
                        height as int,
                    ),
            decreases width - x,
        {
            proof {
                lemma_pixel_index(len, width as int, x as int, y as int);
            }
            px[row + x] = c;
            x = x + 1;
        }
        assert((y + 1) * width == y * width + width) by (nonlinear_arith);
        y = y + 1;
    }
    assert(px@ =~= gradient_picture(width, height)) by {
        assert(height * width == width * height) by (nonlinear_arith);
    }
    px
}

proof fn lemma_one_more_icon(px: Seq<u32>, stride: int, x: int, y: int, n: int)
    requires
        0 <= n < 5,
    ensures
        painted(
            with_icons(px, stride, x, y, n),
            stride,
            rounded_area(x + 48 * n, y, 40, 40, 12),
            icon_color(n),
        ) == with_icons(px, stride, x, y, n + 1),
{
    let a = painted(
        with_icons(px, stride, x, y, n),
        stride,
        rounded_area(x + 48 * n, y, 40, 40, 12),
        icon_color(n),
    );
    let b = with_icons(px, stride, x, y, n + 1);
    assert forall|k: int| 0 <= k < px.len() implies #[trigger] a[k] == b[k] by {
        if on_canvas(px.len() as int, stride, k) {
            let i = k % stride - x;
            let j = k / stride - y;
            if 48 * n <= i < 48 * n + 48 {
                assert(i / 48 == n && i % 48 == i - 48 * n);
            }
        }
    }
    assert(a =~= b);
}

/// Draws the five icons of the dock, the first one at `(x, y)`.
fn draw_icons(px: &mut [u32], stride: usize, x: i32, y: i32)
    requires
        stride > 0,
        x <= i32::MAX - 240,
        y <= i32::MAX - 40,
    ensures
        final(px)@ == with_icons(old(px)@, stride as int, x as int, y as int, 5),
{
    let ghost start = px@;
    let icons: [u32; 5] = [0xFF60_A5FA, 0xFF4A_DE80, 0xFFF5_9E0B, 0xFFFB_7185, 0xFFA7_8BFA];
    let mut icon_x: i32 = x;
    let mut n: usize = 0;
    assert(px@ =~= with_icons(start, stride as int, x as int, y as int, 0));
    while n < 5
        invariant
            n <= 5,
            stride > 0,
            x <= i32::MAX - 240,
            y <= i32::MAX - 40,
            icon_x == x + 48 * n,
            forall|m: int| 0 <= m < 5 ==> #[trigger] icons@[m] == icon_color(m),
            px@ == with_icons(start, stride as int, x as int, y as int, n as int),
        decreases 5 - n,
    {
        fill_rounded_rect(px, stride, icon_x, y, 40, 40, 12, icons[n]);
        proof {
            lemma_one_more_icon(start, stride as int, x as int, y as int, n as int);
        }
        icon_x = icon_x + 48;
        n = n + 1;
    }
}

proof fn lemma_labels()
    ensures
        encode_utf8("mochiOS"@).len() == 7,
        encode_utf8("12:45 PM"@).len() == 8,
{
    reveal_strlit("mochiOS");
    reveal_strlit("12:45 PM");
    is_ascii_spec_bytes("mochiOS");
    is_ascii_spec_bytes("12:45 PM");
}

/// Renders the desktop picture.
pub fn render_desktop(width: usize, height: usize) -> (px: Vec<u32>)
    requires
        picture_size(width, height),
    ensures
        px@ == desktop_picture(width, height),
        px@.len() == width * height,
{
    let ghost w = width as i32 as int;
    let ghost h = height as int;
    let ghost s = width as int;
    let mut px: Vec<u32> = draw_background(width, height);
    proof {
        lemma_labels();
    }
    fill_rect(px.as_mut_slice(), width, 0, 0, width as i32, 32, BAR_COLOR);
    draw_text(px.as_mut_slice(), width, 24, 10, "mochiOS", TEXT_COLOR);
    draw_text(px.as_mut_slice(), width, width as i32 - 86, 10, "12:45 PM", TEXT_COLOR);
    let dock_w: i32 = 276;
    let dock_h: i32 = 75;
    let dock_x: i32 = (width as i32 - dock_w) / 2;
    let dock_y: i32 = (height as i32 - dock_h - 14).max(40);
    assert(dock_x == self::dock_x(w));
    fill_rounded_rect(px.as_mut_slice(), width, dock_x, dock_y, dock_w, dock_h, 18, DOCK_COLOR);
    stroke_rounded_rect(px.as_mut_slice(), width, dock_x, dock_y, dock_w, dock_h, 18, DOCK_EDGE_COLOR);
    draw_icons(px.as_mut_slice(), width, dock_x + 18, dock_y + 18);
    proof {
        let picture = desktop_picture(width, height);
        lemma_div_multiples_vanish(h, s);
        assert forall|k: int| 0 <= k < picture.len() implies #[trigger] px@[k] == picture[k] by {
            lemma_fundamental_div_mod(k, s);
            assert(0 <= k / s < h && 0 <= k % s < s) by (nonlinear_arith)
                requires
                    0 <= k < s * h,
                    s > 0,
            ;
            assert(on_canvas(px@.len() as int, s, k));
        }
        assert(px@ =~= picture);
    }
    px
}

/// The rendered picture has, at the place of each pixel, the colour that the pixel
/// is to have.
pub proof fn lemma_desktop_pixel(width: usize, height: usize, i: int, j: int)
    requires
        0 <= i < width,
        0 <= j < height,
    ensures
        desktop_picture(width, height).len() == width * height,
        0 <= j * width + i < desktop_picture(width, height).len(),
        desktop_picture(width, height)[j * width + i] == desktop_color(
            width as i32 as int,
            height as int,
            i,
            j,
        ),
{
    lemma_div_multiples_vanish(height as int, width as int);
    lemma_pixel_index(width * height, width as int, i, j);
}

/// The background of row `j`: full alpha, and red, green and blue that start with
/// 220, 232 and 244 at the top and lose a third, a fifth and a seventh of the row's
/// position, which is scaled so that the height is 255.
pub proof fn lemma_gradient_channels(j: int, height: int)
    requires
        0 <= j < height,
    ensures
        gradient_color(j, height) / 0x100_0000 == 0xFF,
        gradient_color(j, height) / 0x1_0000 % 256 == 220 - j * 255 / height / 3,
        gradient_color(j, height) / 0x100 % 256 == 232 - j * 255 / height / 5,
        gradient_color(j, height) % 256 == 244 - j * 255 / height / 7,
{
    let t = j * 255 / height;
    assert(0 <= t <= 255) by (nonlinear_arith)
        requires
            0 <= j < height,
            t == j * 255 / height,
    ;
    let (r, g, b) = (220 - t / 3, 232 - t / 5, 244 - t / 7);
    let c = gradient_color(j, height) as int;
    assert(c == b + 256 * (g + 256 * (r + 256 * 255)));
    assert(c % 256 == b && c / 256 == g + 256 * (r + 256 * 255));
    assert(c / 0x1_0000 == c / 256 / 256 && c / 0x100_0000 == c / 256 / 256 / 256);
}

/// The background starts with its lightest colour, and no row is lighter than one
/// above it.
pub proof fn lemma_gradient_darkens(j1: int, j2: int, height: int)
    requires
        0 <= j1 <= j2 < height,
    ensures
        gradient_color(0, height) == 0xFFDC_E8F4,
        gradient_color(j2, height) / 0x1_0000 % 256 <= gradient_color(j1, height) / 0x1_0000 % 256,
        gradient_color(j2, height) / 0x100 % 256 <= gradient_color(j1, height) / 0x100 % 256,
        gradient_color(j2, height) % 256 <= gradient_color(j1, height) % 256,
{
    lemma_gradient_channels(j1, height);
    lemma_gradient_channels(j2, height);
    assert(0int * 255 / height == 0) by (nonlinear_arith)
        requires
            0 < height,
    ;
    assert(j1 * 255 / height <= j2 * 255 / height) by (nonlinear_arith)
        requires
            j1 <= j2,
            0 < height,
    ;
}

proof fn lemma_label_bytes()
    ensures
        encode_utf8("mochiOS"@) == seq![0x6Du8, 0x6F, 0x63, 0x68, 0x69, 0x4F, 0x53],
        encode_utf8("12:45 PM"@) == seq![0x31u8, 0x32, 0x3A, 0x34, 0x35, 0x20, 0x50, 0x4D],
{
    reveal_strlit("mochiOS");
    reveal_strlit("12:45 PM");
    is_ascii_spec_bytes("mochiOS");
    is_ascii_spec_bytes("12:45 PM");
    assert(encode_utf8("mochiOS"@) =~= seq![0x6Du8, 0x6F, 0x63, 0x68, 0x69, 0x4F, 0x53]);
    assert(encode_utf8("12:45 PM"@) =~= seq![0x31u8, 0x32, 0x3A, 0x34, 0x35, 0x20, 0x50, 0x4D]);
}

proof fn lemma_text_rows(text: Seq<u8>, x: int, y: int, i: int, j: int)
    ensures
        text_area(text, x, y)(i, j) ==> y <= j < y + 7,
        text_area(text, x, y)(i, j) <==> exists|k: int|
            0 <= k < text.len() && #[trigger] glyph_pixel(text[k], i - x - 6 * k, j - y),
{
    if text_area(text, x, y)(i, j) {
        let k = (i - x) / 6;
        assert(0 <= k < text.len() && glyph_pixel(text[k], i - x - 6 * k, j - y));
    }
    if exists|k: int|
        0 <= k < text.len() && #[trigger] glyph_pixel(text[k], i - x - 6 * k, j - y) {
        let k = choose|k: int|
            0 <= k < text.len() && #[trigger] glyph_pixel(text[k], i - x - 6 * k, j - y);
        assert((i - x) / 6 == k && (i - x) % 6 == i - x - 6 * k);
    }
}

/// The top 32 rows are the menu bar: its colour, but for the title `mochiOS` at
/// column 24 and the clock `12:45 PM` 86 columns before the right edge, both from row
/// 10 on. (`title` and `clock` are their characters.) Columns beyond the width that
/// positions are computed from keep the background.
pub proof fn lemma_bar_pixels(
    width: usize,
    height: usize,
    title: Seq<u8>,
    clock: Seq<u8>,
    i: int,
    j: int,
)
    requires
        picture_size(width, height),
        title == seq![0x6Du8, 0x6F, 0x63, 0x68, 0x69, 0x4F, 0x53],
        clock == seq![0x31u8, 0x32, 0x3A, 0x34, 0x35, 0x20, 0x50, 0x4D],
        0 <= i < width,
        0 <= j < height,
        j < 32,
    ensures
        ({
            let w = width as i32 as int;
            desktop_picture(width, height)[j * width + i] == (if (exists|k: int|
                0 <= k < 7 && #[trigger] glyph_pixel(title[k], i - 24 - 6 * k, j - 10)) || (exists|
                k: int,
            |
                0 <= k < 8 && #[trigger] glyph_pixel(clock[k], i - (w - 86) - 6 * k, j - 10)) {
                0xFF47_5569u32
            } else if i < w {
                0xFFF4_F7FAu32
            } else {
                gradient_color(j, height as int)
            })
        }),
{
    let w = width as i32 as int;
    lemma_desktop_pixel(width, height, i, j);
    lemma_label_bytes();
    lemma_text_rows(title, 24, 10, i, j);
    lemma_text_rows(clock, w - 86, 10, i, j);
}

/// Below the menu bar, everything outside the rectangle of the dock is background.
/// The dock is 276 columns wide and stands in the middle; it is 75 rows high, and 14
/// rows are left below it, but it never begins above row 40.
pub proof fn lemma_background_pixels(width: usize, height: usize, left: int, i: int, j: int)
    requires
        picture_size(width, height),
        left == (if width as i32 >= 276 {
            (width as i32 - 276) / 2
        } else {
            -((276 - width as i32) / 2)
        }),
        0 <= i < width,
        32 <= j < height,
        i < left || left + 276 <= i || j < 40 || (height >= 129 && (j < height - 14 - 75 || height - 14
            <= j)) || (height < 129 && 40 + 75 <= j),
    ensures
        desktop_picture(width, height)[j * width + i] == gradient_color(j, height as int),
{
    let w = width as i32 as int;
    lemma_desktop_pixel(width, height, i, j);
    lemma_text_rows(encode_utf8("mochiOS"@), 24, 10, i, j);
    lemma_text_rows(encode_utf8("12:45 PM"@), w - 86, 10, i, j);
}

/// The pixels in the rectangle of the dock, `a` columns and `b` rows from its
/// corner: background outside the rounded corners, a one pixel wide edge, five icons
/// of 40 by 40 pixels that begin 18 rows and columns in and stand 48 columns apart,
/// and the body of the dock.
pub proof fn lemma_dock_pixels(
    width: usize,
    height: usize,
    left: int,
    top: int,
    a: int,
    b: int,
)
    requires
        picture_size(width, height),
        left == (if width as i32 >= 276 {
            (width as i32 - 276) / 2
        } else {
            -((276 - width as i32) / 2)
        }),
        top == (if height >= 129 {
            height - 14 - 75
        } else {
            40
        }),
        0 <= a < 276,
        0 <= b < 75,
        0 <= left + a < width,
        0 <= top + b < height,
    ensures
        ({
            let color = desktop_picture(width, height)[(top + b) * width + left + a];
            &&& !in_rounded_rect(a, b, 276, 75, 18) ==> color == gradient_color(
                top + b,
                height as int,
            )
            &&& in_rounded_rect(a, b, 276, 75, 18) && !in_rounded_rect(a - 1, b - 1, 274, 73, 17)
                ==> color == 0xFFCD_D7E4
            &&& in_rounded_rect(a - 18, b - 18, 40, 40, 12) ==> color == 0xFF60_A5FA
            &&& in_rounded_rect(a - 66, b - 18, 40, 40, 12) ==> color == 0xFF4A_DE80
            &&& in_rounded_rect(a - 114, b - 18, 40, 40, 12) ==> color == 0xFFF5_9E0B
            &&& in_rounded_rect(a - 162, b - 18, 40, 40, 12) ==> color == 0xFFFB_7185
            &&& in_rounded_rect(a - 210, b - 18, 40, 40, 12) ==> color == 0xFFA7_8BFA
            &&& in_rounded_rect(a - 1, b - 1, 274, 73, 17) && !in_rounded_rect(
                a - 18,
                b - 18,
                40,
                40,
                12,
            ) && !in_rounded_rect(a - 66, b - 18, 40, 40, 12) && !in_rounded_rect(
                a - 114,
                b - 18,
                40,
                40,
                12,
            ) && !in_rounded_rect(a - 162, b - 18, 40, 40, 12) && !in_rounded_rect(
                a - 210,
                b - 18,
                40,
                40,
                12,
            ) ==> color == 0xEAF6_F8FC
        }),
{
    let w = width as i32 as int;
    let (i, j) = (left + a, top + b);
    lemma_desktop_pixel(width, height, i, j);
    lemma_text_rows(encode_utf8("mochiOS"@), 24, 10, i, j);
    lemma_text_rows(encode_utf8("12:45 PM"@), w - 86, 10, i, j);
    assert(dock_x(w) == left && dock_y(height as int) == top);
    lemma_icon_number(a - 18, b - 18);
    if in_rounded_rect(a - 1, b - 1, 274, 73, 17) {
        lemma_inner_within_outer(a, b);
    }
    if on_icon(a - 18, b - 18, 5) {
        lemma_icons_on_dock(left, top, i, j);
    }
}

proof fn lemma_icon_number(i: int, j: int)
    ensures
        in_rounded_rect(i, j, 40, 40, 12) ==> on_icon(i, j, 5) && i / 48 == 0,
        in_rounded_rect(i - 48, j, 40, 40, 12) ==> on_icon(i, j, 5) && i / 48 == 1,
        in_rounded_rect(i - 96, j, 40, 40, 12) ==> on_icon(i, j, 5) && i / 48 == 2,
        in_rounded_rect(i - 144, j, 40, 40, 12) ==> on_icon(i, j, 5) && i / 48 == 3,
        in_rounded_rect(i - 192, j, 40, 40, 12) ==> on_icon(i, j, 5) && i / 48 == 4,
        on_icon(i, j, 5) ==> in_rounded_rect(i, j, 40, 40, 12) || in_rounded_rect(
            i - 48,
            j,
            40,
            40,
            12,
        ) || in_rounded_rect(i - 96, j, 40, 40, 12) || in_rounded_rect(i - 144, j, 40, 40, 12)
            || in_rounded_rect(i - 192, j, 40, 40, 12),
{
    if 0 <= i < 48 {
        assert(i / 48 == 0 && i % 48 == i);
    } else if 48 <= i < 96 {
        assert(i / 48 == 1 && i % 48 == i - 48);
    } else if 96 <= i < 144 {
        assert(i / 48 == 2 && i % 48 == i - 96);
    } else if 144 <= i < 192 {
        assert(i / 48 == 3 && i % 48 == i - 144);
    } else if 192 <= i < 240 {
        assert(i / 48 == 4 && i % 48 == i - 192);
    }
}

/// The body of the dock lies within its edge.
proof fn lemma_inner_within_outer(a: int, b: int)
    requires
        in_rounded_rect(a - 1, b - 1, 274, 73, 17),
    ensures
        in_rounded_rect(a, b, 276, 75, 18),
{
}

/// The dock stands 14 rows above the bottom of the picture: the lowest row with a
/// pixel of the dock is row `height - 15`, in which the middle column has the dock's
/// edge, and the 14 rows below it are background from side to side. The dock is 75
/// rows high: its highest row is row `height - 89`.
pub proof fn lemma_dock_stands_above_bottom(width: usize, height: usize, i: int, j: int)
    requires
        picture_size(width, height),
        width <= i32::MAX,
        height >= 129,
        0 <= i < width,
        32 <= j < height,
    ensures
        j >= height - 14 ==> desktop_picture(width, height)[j * width + i] == gradient_color(
            j,
            height as int,
        ),
        j < height - 14 - 75 ==> desktop_picture(width, height)[j * width + i] == gradient_color(
            j,
            height as int,
        ),
        desktop_picture(width, height)[(height - 15) * width + width as int / 2] == 0xFFCD_D7E4,
        desktop_picture(width, height)[(height - 14 - 75) * width + width as int / 2] == 0xFFCD_D7E4,
{
    let left = if width >= 276 {
        (width - 276) / 2
    } else {
        -((276 - width) / 2)
    };
    let a = width as int / 2 - left;
    if j >= height - 14 || j < height - 14 - 75 {
        lemma_background_pixels(width, height, left, i, j);
    }
    lemma_dock_pixels(width, height, left, height - 89, a, 74);
    lemma_dock_pixels(width, height, left, height - 89, a, 0);
}

/// The dock stands in the middle: the columns left of it and the columns right of
/// it are equally many, but for one. In the dock's middle row, its edge is at the first
/// and at the last of its 276 columns, with background beside it.
pub proof fn lemma_dock_stands_in_the_middle(width: usize, height: usize, left: int, i: int)
    requires
        picture_size(width, height),
        276 <= width <= i32::MAX,
        height >= 129,
        0 <= left,
        0 <= (width - 276 - left) - left <= 1,
        0 <= i < width,
    ensures
        i < left || left + 276 <= i ==> desktop_picture(width, height)[(height - 52) * width + i]
            == gradient_color(height - 52, height as int),
        i == left || i == left + 275 ==> desktop_picture(width, height)[(height - 52) * width + i]
            == 0xFFCD_D7E4,
{
    if i < left || left + 276 <= i {
        lemma_background_pixels(width, height, left, i, height - 52);
    } else {
        lemma_dock_pixels(width, height, left, height - 89, i - left, 37);
    }
}

/// Every pixel of the desktop is opaque, except those of the body of the dock.
pub proof fn lemma_desktop_is_opaque(width: int, height: int, i: int, j: int)
    requires
        0 <= j < height,
    ensures
        desktop_color(width, height, i, j) >= 0xFF00_0000 || desktop_color(width, height, i, j)
            == DOCK_COLOR,
{
    let t = j * 255 / height;
    assert(0 <= t <= 255) by (nonlinear_arith)
        requires
            0 <= j < height,
            t == j * 255 / height,
    ;
}

/// The icons stand on the dock: a pixel of an icon is a pixel of the dock's body.
pub proof fn lemma_icons_on_dock(x: int, y: int, i: int, j: int)
    requires
        on_icon(i - x - 18, j - y - 18, 5),
    ensures
        rounded_area(x, y, 276, 75, 18)(i, j),
        !outline_area(x, y, 276, 75, 18)(i, j),
{
}

} // verus!
