//! Drawing on a pixel buffer.
//!
//! A canvas is a slice of colours together with its stride, the number of pixels
//! in a row. Pixel `(i, j)` is column `i` of row `j`. Only whole rows belong to the
//! canvas: what is left of the slice after the last whole row is never touched.
use vstd::arithmetic::div_mod::{lemma_div_is_ordered, lemma_fundamental_div_mod, lemma_fundamental_div_mod_converse};
use vstd::prelude::*;

verus! {

/// A set of pixels, as a predicate on column and row.
pub type Area = spec_fn(int, int) -> bool;

/// Position `k` of a slice of `len` colours lies in one of its whole rows.
pub open spec fn on_canvas(len: int, stride: int, k: int) -> bool {
    stride > 0 && 0 <= k && k / stride < len / stride
}

/// The buffer `px` after every pixel of `area` that lies on the canvas has been
/// given the colour `color`; all other pixels keep theirs.
pub open spec fn painted(px: Seq<u32>, stride: int, area: Area, color: u32) -> Seq<u32> {
    Seq::new(
        px.len(),
        |k: int|
            if on_canvas(px.len() as int, stride, k) && area(k % stride, k / stride) {
                color
            } else {
                px[k]
            },
    )
}

/// The single pixel `(x, y)`.
pub open spec fn point_area(x: int, y: int) -> Area {
    |i: int, j: int| i == x && j == y
}

/// The pixels of the `w` by `h` rectangle with top left corner `(x, y)`.
pub open spec fn rect_area(x: int, y: int, w: int, h: int) -> Area {
    |i: int, j: int| x <= i < x + w && y <= j < y + h
}

/// The index of a canvas pixel lies in the buffer, and row and column are
/// recovered from it by division.
pub proof fn lemma_pixel_index(len: int, stride: int, i: int, j: int)
    requires
        0 <= i < stride,
        0 <= j < len / stride,
    ensures
        0 <= j * stride <= j * stride + i < len,
        (j * stride + i) / stride == j,
        (j * stride + i) % stride == i,
        on_canvas(len, stride, j * stride + i),
{
    let rows = len / stride;
    lemma_fundamental_div_mod(len, stride);
    assert(j * stride + stride <= rows * stride) by (nonlinear_arith)
        requires
            j + 1 <= rows,
            0 < stride,
    ;
    assert(stride * rows == rows * stride) by (nonlinear_arith);
    assert(0 <= j * stride) by (nonlinear_arith)
        requires
            0 <= j,
            0 < stride,
    ;
    lemma_fundamental_div_mod_converse(j * stride + i, stride, j, i);
}

/// Setting one canvas pixel paints one point.
pub proof fn lemma_update_paints_point(px: Seq<u32>, stride: int, i: int, j: int, color: u32)
    requires
        0 <= i < stride,
        0 <= j < px.len() as int / stride,
    ensures
        0 <= j * stride + i < px.len(),
        px.update(j * stride + i, color) == painted(px, stride, point_area(i, j), color),
{
    let at = j * stride + i;
    lemma_pixel_index(px.len() as int, stride, i, j);
    assert forall|k: int| 0 <= k < px.len() implies #[trigger] px.update(at, color)[k] == painted(
        px,
        stride,
        point_area(i, j),
        color,
    )[k] by {
        lemma_fundamental_div_mod(k, stride);
        assert(stride * (k / stride) == (k / stride) * stride) by (nonlinear_arith);
        if k / stride == j && k % stride == i {
            assert(k == at);
        }
    }
    assert(px.update(at, color) =~= painted(px, stride, point_area(i, j), color));
}

/// Two areas that agree on the canvas are painted alike.
pub proof fn lemma_painted_agree(px: Seq<u32>, stride: int, a: Area, b: Area, color: u32)
    requires
        forall|i: int, j: int|
            0 <= i < stride && 0 <= j < px.len() as int / stride ==> #[trigger] a(i, j) == b(i, j),
    ensures
        painted(px, stride, a, color) == painted(px, stride, b, color),
{
    assert forall|k: int| 0 <= k < px.len() implies #[trigger] painted(px, stride, a, color)[k]
        == painted(px, stride, b, color)[k] by {
        if on_canvas(px.len() as int, stride, k) {
            lemma_div_is_ordered(0, k, stride);
            assert(0 <= k % stride < stride) by (nonlinear_arith)
                requires
                    stride > 0,
            ;
            assert(0 <= k / stride) by (nonlinear_arith)
                requires
                    stride > 0,
                    0 <= k,
            ;
            assert(a(k % stride, k / stride) == b(k % stride, k / stride));
        }
    }
    assert(painted(px, stride, a, color) =~= painted(px, stride, b, color));
}

/// Painting two areas one after the other in one colour paints their union.
pub proof fn lemma_painted_union(px: Seq<u32>, stride: int, a: Area, b: Area, color: u32)
    ensures
        painted(painted(px, stride, a, color), stride, b, color) == painted(
            px,
            stride,
            |i: int, j: int| a(i, j) || b(i, j),
            color,
        ),
{
    assert(painted(painted(px, stride, a, color), stride, b, color) =~= painted(
        px,
        stride,
        |i: int, j: int| a(i, j) || b(i, j),
        color,
    ));
}

/// Painting nothing changes nothing.
pub proof fn lemma_painted_nothing(px: Seq<u32>, stride: int, a: Area, color: u32)
    requires
        forall|i: int, j: int|
            0 <= i < stride && 0 <= j < px.len() as int / stride ==> !#[trigger] a(i, j),
    ensures
        painted(px, stride, a, color) == px,
{
    lemma_painted_agree(px, stride, a, |i: int, j: int| false, color);
    assert(painted(px, stride, |i: int, j: int| false, color) =~= px);
}

/// One more point: from the area `a` to the area `b`, which has the point
/// `(x, y)` in addition.
pub proof fn lemma_painted_grow(px: Seq<u32>, stride: int, a: Area, x: int, y: int, b: Area, color: u32)
    requires
        forall|i: int, j: int|
            0 <= i < stride && 0 <= j < px.len() as int / stride ==> #[trigger] b(i, j) == (a(i, j)
                || (i == x && j == y)),
    ensures
        painted(painted(px, stride, a, color), stride, point_area(x, y), color) == painted(
            px,
            stride,
            b,
            color,
        ),
{
    let p = point_area(x, y);
    lemma_painted_union(px, stride, a, p, color);
    lemma_painted_agree(px, stride, b, |i: int, j: int| a(i, j) || p(i, j), color);
}

/// Gives the pixel `(x, y)` the colour `color` if it lies on the canvas.
pub fn put(px: &mut [u32], stride: usize, x: i32, y: i32, color: u32)
    requires
        x >= 0 && y >= 0 ==> stride > 0,
    ensures
        final(px)@ == painted(old(px)@, stride as int, point_area(x as int, y as int), color),
{
    proof {
        if x < 0 || y < 0 || x >= stride || y >= px@.len() as int / stride as int {
            lemma_painted_nothing(px@, stride as int, point_area(x as int, y as int), color);
        }
    }
    if x < 0 || y < 0 {
        return;
    }
    let x: usize = x as usize;
    let y: usize = y as usize;
    let h: usize = px.len() / stride;
    if x >= stride || y >= h {
        return;
    }
    proof {
        lemma_pixel_index(px@.len() as int, stride as int, x as int, y as int);
        lemma_update_paints_point(px@, stride as int, x as int, y as int, color);
    }
    px[y * stride + x] = color;
}

/// Fills the `w` by `h` rectangle with top left corner `(x, y)`, clipped to the
/// canvas. A rectangle without width or height is empty.
pub fn fill_rect(px: &mut [u32], stride: usize, x: i32, y: i32, w: i32, h: i32, color: u32)
    requires
        w > 0 && h > 0 ==> stride > 0 && x + w <= i32::MAX && y + h <= i32::MAX,
    ensures
        final(px)@ == painted(
            old(px)@,
            stride as int,
            rect_area(x as int, y as int, w as int, h as int),
            color,
        ),
{
    let ghost start = px@;
    let ghost s = stride as int;
    let ghost area = rect_area(x as int, y as int, w as int, h as int);
    if w <= 0 || h <= 0 {
        proof {
            lemma_painted_nothing(start, s, area, color);
        }
        return;
    }
    let hmax: usize = px.len() / stride;
    let x0: usize = x.max(0) as usize;
    let y0: usize = y.max(0) as usize;
    let x1: usize = (x + w).max(0) as usize;
    let y1: usize = (y + h).max(0) as usize;
    let x1: usize = x1.min(stride);
    let y1: usize = y1.min(hmax);
    let mut yy: usize = y0;
    proof {
        lemma_painted_nothing(start, s, rect_area(x0 as int, y0 as int, x1 - x0, 0), color);
    }
    while yy < y1
        invariant
            s == stride > 0,
            start.len() <= usize::MAX,
            y0 <= yy,
            yy <= y1 || yy == y0,
            x1 <= stride,
            y1 <= start.len() as int / s,
            px@ == painted(start, s, rect_area(x0 as int, y0 as int, x1 - x0, yy - y0), color),
        decreases y1 - yy,
    {
        let ghost rows = rect_area(x0 as int, y0 as int, x1 - x0, yy - y0);
        proof {
            lemma_pixel_index(start.len() as int, s, 0, yy as int);
        }
        let row: usize = yy * stride;
        let mut xx: usize = x0;
        proof {
            lemma_painted_agree(
                start,
                s,
                rows,
                |i: int, j: int| rows(i, j) || (j == yy && x0 <= i < xx),
                color,
            );
        }
        while xx < x1
            invariant
                s == stride > 0,
                start.len() <= usize::MAX,
                x0 <= xx,
                xx <= x1 || xx == x0,
                x1 <= stride,
                y0 <= yy < start.len() as int / s,
                row == yy * stride,
                px@ == painted(
                    start,
                    s,
                    |i: int, j: int| rows(i, j) || (j == yy && x0 <= i < xx),
                    color,
                ),
            decreases x1 - xx,
        {
            proof {
                lemma_pixel_index(start.len() as int, s, xx as int, yy as int);
                lemma_update_paints_point(px@, s, xx as int, yy as int, color);
                lemma_painted_grow(
                    start,
                    s,
                    |i: int, j: int| rows(i, j) || (j == yy && x0 <= i < xx),
                    xx as int,
                    yy as int,
                    |i: int, j: int| rows(i, j) || (j == yy && x0 <= i < xx + 1),
                    color,
                );
            }
            px[row + xx] = color;
            xx = xx + 1;
        }
        proof {
            lemma_painted_agree(
                start,
                s,
                |i: int, j: int| rows(i, j) || (j == yy && x0 <= i < xx),
                rect_area(x0 as int, y0 as int, x1 - x0, yy + 1 - y0),
                color,
            );
        }
        yy = yy + 1;
    }
    proof {
        lemma_painted_agree(
            start,
            s,
            rect_area(x0 as int, y0 as int, x1 - x0, yy - y0),
            area,
            color,
        );
    }
}

/// How far position `i` on a side of length `len` lies beyond the centre of the
/// corner circle next to it, for corners of radius `r`. The centres stand on the
/// last position before, and the first position after, the straight part.
pub open spec fn corner_offset(i: int, len: int, r: int) -> int {
    if i < r {
        i - (r - 1)
    } else {
        i - (len - r)
    }
}

/// Column `i` and row `j` lie in the straight part of neither side, so that a
/// corner circle decides.
pub open spec fn in_corner_square(i: int, j: int, w: int, h: int, r: int) -> bool {
    0 <= i < w && 0 <= j < h && r > 0 && !(r <= i < w - r) && !(r <= j < h - r)
}

/// The square of the distance of `(i, j)` to the centre of its corner circle.
pub open spec fn corner_distance_squared(i: int, j: int, w: int, h: int, r: int) -> int {
    corner_offset(i, w, r) * corner_offset(i, w, r) + corner_offset(j, h, r) * corner_offset(j, h, r)
}

/// `(i, j)` lies in the `w` by `h` rectangle at the origin whose corners are
/// rounded with radius `r`.
pub open spec fn in_rounded_rect(i: int, j: int, w: int, h: int, r: int) -> bool {
    &&& 0 <= i < w
    &&& 0 <= j < h
    &&& in_corner_square(i, j, w, h, r) ==> corner_distance_squared(i, j, w, h, r) <= r * r
}

proof fn lemma_corner_offset_range(i: int, len: int, r: int)
    requires
        0 <= i < len,
        r > 0,
        !(r <= i < len - r),
    ensures
        -r < corner_offset(i, len, r) < r,
        0 <= corner_offset(i, len, r) * corner_offset(i, len, r) <= (r - 1) * (r - 1),
{
    let d = corner_offset(i, len, r);
    assert(0 <= d * d <= (r - 1) * (r - 1)) by (nonlinear_arith)
        requires
            -r < d < r,
    ;
}

/// The largest corner radius with which every corner is computed without overflow.
pub const MAX_CORNER_RADIUS: i32 = 32768;

/// Whether `(i, j)` lies in the rounded rectangle is computed without overflow.
pub open spec fn corner_computable(i: int, j: int, w: int, h: int, r: int) -> bool {
    in_corner_square(i, j, w, h, r) ==> {
        &&& corner_distance_squared(i, j, w, h, r) <= i32::MAX
        &&& r * r <= i32::MAX
    }
}

/// A radius that is small enough can be computed with anywhere.
pub proof fn lemma_corner_fits(i: int, j: int, w: int, h: int, r: int)
    requires
        r <= MAX_CORNER_RADIUS,
    ensures
        corner_computable(i, j, w, h, r),
{
    if in_corner_square(i, j, w, h, r) {
        lemma_corner_offset_range(i, w, r);
        lemma_corner_offset_range(j, h, r);
        assert((r - 1) * (r - 1) <= 32767 * 32767 && r * r <= 32768 * 32768) by (nonlinear_arith)
            requires
                0 < r <= 32768,
        ;
    }
}

/// Whether `(xx, yy)` lies in the `w` by `h` rectangle at the origin with corners
/// of radius `r`.
pub fn inside_rounded_rect(xx: i32, yy: i32, w: i32, h: i32, r: i32) -> (inside: bool)
    requires
        r <= MAX_CORNER_RADIUS || corner_computable(
            xx as int,
            yy as int,
            w as int,
            h as int,
            r as int,
        ),
    ensures
        inside == in_rounded_rect(xx as int, yy as int, w as int, h as int, r as int),
        inside ==> 0 <= xx < w && 0 <= yy < h,
        0 <= xx < w && 0 <= yy < h && (r <= 0 || r <= xx < w - r || r <= yy < h - r) ==> inside,
        0 <= xx < r && 0 <= yy < r && xx < w && yy < h ==> inside == ((r - 1 - xx) * (r - 1 - xx) + (
        r - 1 - yy) * (r - 1 - yy) <= r * r),
{
    proof {
        if r <= MAX_CORNER_RADIUS {
            lemma_corner_fits(xx as int, yy as int, w as int, h as int, r as int);
        }
    }
    proof {
        if 0 <= xx < r && 0 <= yy < r && xx < w && yy < h {
            lemma_rounded_corner(xx as int, yy as int, w as int, h as int, r as int);
        }
    }
    if xx < 0 || yy < 0 || xx >= w || yy >= h {
        return false;
    }
    if r <= 0 || (xx >= r && xx < w - r) || (yy >= r && yy < h - r) {
        return true;
    }
    proof {
        lemma_corner_offset_range(xx as int, w as int, r as int);
        lemma_corner_offset_range(yy as int, h as int, r as int);
    }
    let cx: i32 = if xx < r { r - 1 } else { w - r };
    let cy: i32 = if yy < r { r - 1 } else { h - r };
    let dx: i32 = xx - cx;
    let dy: i32 = yy - cy;
    proof {
        assert(dx == corner_offset(xx as int, w as int, r as int));
        assert(dy == corner_offset(yy as int, h as int, r as int));
        assert(0 <= r * r) by (nonlinear_arith);
    }
    dx * dx + dy * dy <= r * r
}

/// The radius in use for a `w` by `h` rectangle: at most half of either side, and
/// never negative.
pub open spec fn clamped_radius(radius: int, w: int, h: int) -> int {
    let r = if radius < w / 2 { radius } else { w / 2 };
    let r = if r < h / 2 { r } else { h / 2 };
    if r < 0 { 0 } else { r }
}

/// The pixels of the `w` by `h` rectangle with top left corner `(x, y)` and
/// corners of radius `r`.
pub open spec fn rounded_area(x: int, y: int, w: int, h: int, r: int) -> Area {
    |i: int, j: int| in_rounded_rect(i - x, j - y, w, h, r)
}

/// The one pixel wide outline of the rounded rectangle: what it has beyond the
/// rounded rectangle one pixel further in. Rectangles up to two pixels wide or high
/// have none.
pub open spec fn outline_area(x: int, y: int, w: int, h: int, r: int) -> Area {
    |i: int, j: int|
        {
            &&& w > 2
            &&& h > 2
            &&& in_rounded_rect(i - x, j - y, w, h, r)
            &&& !in_rounded_rect(
                i - x - 1,
                j - y - 1,
                w - 2,
                h - 2,
                if r > 1 {
                    r - 1
                } else {
                    0
                },
            )
        }
}

/// No pixel of the area has both coordinates non-negative.
pub open spec fn misses_quadrant(area: Area) -> bool {
    forall|i: int, j: int| #[trigger] area(i, j) ==> i < 0 || j < 0
}

/// The part of an area at `(x, y)` that a scan by rows has passed when it stands
/// before column `xx` of row `yy`.
spec fn scanned(area: Area, x: int, y: int, xx: int, yy: int) -> Area {
    |i: int, j: int| area(i, j) && (j - y < yy || (j - y == yy && i - x < xx))
}

fn corner_radius(radius: i32, w: i32, h: i32) -> (r: i32)
    requires
        w > 0,
        h > 0,
    ensures
        r == clamped_radius(radius as int, w as int, h as int),
{
    radius.min(w / 2).min(h / 2).max(0)
}

/// Fills the `w` by `h` rectangle with top left corner `(x, y)` and rounded corners,
/// clipped to the canvas.
pub fn fill_rounded_rect(
    px: &mut [u32],
    stride: usize,
    x: i32,
    y: i32,
    w: i32,
    h: i32,
    radius: i32,
    color: u32,
)
    requires
        w > 0 && h > 0 ==> {
            let r = clamped_radius(radius as int, w as int, h as int);
            &&& r <= MAX_CORNER_RADIUS
            &&& x + w - 1 <= i32::MAX
            &&& y + h - 1 <= i32::MAX
            &&& stride > 0 || misses_quadrant(
                rounded_area(x as int, y as int, w as int, h as int, r),
            )
        },
    ensures
        final(px)@ == painted(
            old(px)@,
            stride as int,
            rounded_area(
                x as int,
                y as int,
                w as int,
                h as int,
                clamped_radius(radius as int, w as int, h as int),
            ),
            color,
        ),
{
    let ghost start = px@;
    let ghost s = stride as int;
    let ghost area = rounded_area(
        x as int,
        y as int,
        w as int,
        h as int,
        clamped_radius(radius as int, w as int, h as int),
    );
    if w <= 0 || h <= 0 {
        proof {
            lemma_painted_nothing(start, s, area, color);
        }
        return;
    }
    let r: i32 = corner_radius(radius, w, h);
    let mut yy: i32 = 0;
    proof {
        lemma_painted_nothing(start, s, scanned(area, x as int, y as int, 0, 0), color);
    }
    while yy < h
        invariant
            w > 0,
            0 <= yy <= h,
            r <= MAX_CORNER_RADIUS,
            x + w - 1 <= i32::MAX,
            y + h - 1 <= i32::MAX,
            s == stride,
            stride > 0 || misses_quadrant(area),
            area == rounded_area(x as int, y as int, w as int, h as int, r as int),
            px@ == painted(start, s, scanned(area, x as int, y as int, 0, yy as int), color),
        decreases h - yy,
    {
        let mut xx: i32 = 0;
        while xx < w
            invariant
                0 <= xx <= w,
                0 <= yy < h,
                r <= MAX_CORNER_RADIUS,
                x + w - 1 <= i32::MAX,
                y + h - 1 <= i32::MAX,
                s == stride,
                stride > 0 || misses_quadrant(area),
                area == rounded_area(x as int, y as int, w as int, h as int, r as int),
                px@ == painted(
                    start,
                    s,
                    scanned(area, x as int, y as int, xx as int, yy as int),
                    color,
                ),
            decreases w - xx,
        {
            let ghost before = scanned(area, x as int, y as int, xx as int, yy as int);
            let ghost after = scanned(area, x as int, y as int, xx + 1, yy as int);
            proof {
                assert(area(x + xx, y + yy) == in_rounded_rect(
                    xx as int,
                    yy as int,
                    w as int,
                    h as int,
                    r as int,
                ));
            }
            if inside_rounded_rect(xx, yy, w, h, r) {
                put(px, stride, x + xx, y + yy, color);
                proof {
                    lemma_painted_grow(start, s, before, x + xx, y + yy, after, color);
                }
            } else {
                proof {
                    lemma_painted_agree(start, s, before, after, color);
                }
            }
            xx = xx + 1;
        }
        proof {
            lemma_painted_agree(
                start,
                s,
                scanned(area, x as int, y as int, xx as int, yy as int),
                scanned(area, x as int, y as int, 0, yy + 1),
                color,
            );
        }
        yy = yy + 1;
    }
    proof {
        lemma_painted_agree(
            start,
            s,
            scanned(area, x as int, y as int, 0, yy as int),
            area,
            color,
        );
    }
}

/// Draws the one pixel wide outline of the rounded rectangle, clipped to the
/// canvas.
pub fn stroke_rounded_rect(
    px: &mut [u32],
    stride: usize,
    x: i32,
    y: i32,
    w: i32,
    h: i32,
    radius: i32,
    color: u32,
)
    requires
        w > 2 && h > 2 ==> {
            let r = clamped_radius(radius as int, w as int, h as int);
            &&& r <= MAX_CORNER_RADIUS
            &&& x + w - 1 <= i32::MAX
            &&& y + h - 1 <= i32::MAX
            &&& stride > 0 || misses_quadrant(
                outline_area(x as int, y as int, w as int, h as int, r),
            )
        },
    ensures
        final(px)@ == painted(
            old(px)@,
            stride as int,
            outline_area(
                x as int,
                y as int,
                w as int,
                h as int,
                clamped_radius(radius as int, w as int, h as int),
            ),
            color,
        ),
{
    let ghost start = px@;
    let ghost s = stride as int;
    let ghost area = outline_area(
        x as int,
        y as int,
        w as int,
        h as int,
        clamped_radius(radius as int, w as int, h as int),
    );
    if w <= 2 || h <= 2 {
        proof {
            lemma_painted_nothing(start, s, area, color);
        }
        return;
    }
    let r: i32 = corner_radius(radius, w, h);
    let mut yy: i32 = 0;
    proof {
        lemma_painted_nothing(start, s, scanned(area, x as int, y as int, 0, 0), color);
    }
    while yy < h
        invariant
            w > 2,
            h > 2,
            0 <= yy <= h,
            0 <= r <= MAX_CORNER_RADIUS,
            x + w - 1 <= i32::MAX,
            y + h - 1 <= i32::MAX,
            s == stride,
            stride > 0 || misses_quadrant(area),
            area == outline_area(x as int, y as int, w as int, h as int, r as int),
            px@ == painted(start, s, scanned(area, x as int, y as int, 0, yy as int), color),
        decreases h - yy,
    {
        let mut xx: i32 = 0;
        while xx < w
            invariant
                w > 2,
                h > 2,
                0 <= xx <= w,
                0 <= yy < h,
                0 <= r <= MAX_CORNER_RADIUS,
                x + w - 1 <= i32::MAX,
                y + h - 1 <= i32::MAX,
                s == stride,
                stride > 0 || misses_quadrant(area),
                area == outline_area(x as int, y as int, w as int, h as int, r as int),
                px@ == painted(
                    start,
                    s,
                    scanned(area, x as int, y as int, xx as int, yy as int),
                    color,
                ),
            decreases w - xx,
        {
            let ghost before = scanned(area, x as int, y as int, xx as int, yy as int);
            let ghost after = scanned(area, x as int, y as int, xx + 1, yy as int);
            let inner_r: i32 = (r - 1).max(0);
            let outer: bool = inside_rounded_rect(xx, yy, w, h, r);
            let inner: bool = inside_rounded_rect(xx - 1, yy - 1, w - 2, h - 2, inner_r);
            assert(area(x + xx, y + yy) == (outer && !inner));
            if outer && !inner {
                put(px, stride, x + xx, y + yy, color);
                proof {
                    lemma_painted_grow(start, s, before, x + xx, y + yy, after, color);
                }
            } else {
                proof {
                    lemma_painted_agree(start, s, before, after, color);
                }
            }
            xx = xx + 1;
        }
        proof {
            lemma_painted_agree(
                start,
                s,
                scanned(area, x as int, y as int, xx as int, yy as int),
                scanned(area, x as int, y as int, 0, yy + 1),
                color,
            );
        }
        yy = yy + 1;
    }
    proof {
        lemma_painted_agree(
            start,
            s,
            scanned(area, x as int, y as int, 0, yy as int),
            area,
            color,
        );
    }
}

/// What painting does to a pixel of the canvas.
pub proof fn lemma_painted_pixel(px: Seq<u32>, stride: int, area: Area, color: u32, i: int, j: int)
    requires
        0 <= i < stride,
        0 <= j < px.len() as int / stride,
    ensures
        0 <= j * stride + i < px.len(),
        painted(px, stride, area, color)[j * stride + i] == (if area(i, j) {
            color
        } else {
            px[j * stride + i]
        }),
{
    lemma_pixel_index(px.len() as int, stride, i, j);
}

/// Painting leaves the buffer's length alone, and whatever stands behind the last
/// whole row.
pub proof fn lemma_painted_rest(px: Seq<u32>, stride: int, area: Area, color: u32, k: int)
    requires
        0 < stride,
        px.len() as int / stride * stride <= k < px.len(),
    ensures
        painted(px, stride, area, color).len() == px.len(),
        painted(px, stride, area, color)[k] == px[k],
{
    let rows = px.len() as int / stride;
    lemma_fundamental_div_mod(k, stride);
    assert(k / stride >= rows) by (nonlinear_arith)
        requires
            rows * stride <= k,
            k == stride * (k / stride) + k % stride,
            0 <= k % stride < stride,
            0 < stride,
    ;
}

/// Painting an area again in the same colour changes nothing.
pub proof fn lemma_painted_twice(px: Seq<u32>, stride: int, area: Area, color: u32)
    ensures
        painted(painted(px, stride, area, color), stride, area, color) == painted(
            px,
            stride,
            area,
            color,
        ),
{
    assert(painted(painted(px, stride, area, color), stride, area, color) =~= painted(
        px,
        stride,
        area,
        color,
    ));
}

/// Areas without a common pixel can be painted in either order.
pub proof fn lemma_painted_commutes(px: Seq<u32>, stride: int, a: Area, c: u32, b: Area, d: u32)
    requires
        forall|i: int, j: int| !(#[trigger] a(i, j) && b(i, j)),
    ensures
        painted(painted(px, stride, a, c), stride, b, d) == painted(
            painted(px, stride, b, d),
            stride,
            a,
            c,
        ),
{
    assert(painted(painted(px, stride, a, c), stride, b, d) =~= painted(
        painted(px, stride, b, d),
        stride,
        a,
        c,
    ));
}

/// Putting a pixel gives it the colour and leaves every other pixel of the canvas
/// alone.
pub proof fn lemma_put_pixel(px: Seq<u32>, stride: int, x: int, y: int, color: u32, i: int, j: int)
    requires
        0 <= i < stride,
        0 <= j < px.len() as int / stride,
    ensures
        painted(px, stride, point_area(x, y), color).len() == px.len(),
        painted(px, stride, point_area(x, y), color)[j * stride + i] == (if i == x && j == y {
            color
        } else {
            px[j * stride + i]
        }),
{
    lemma_painted_pixel(px, stride, point_area(x, y), color, i, j);
}

/// Filling a rectangle gives the colour to its pixels and leaves every other pixel
/// of the canvas alone.
pub proof fn lemma_fill_rect_pixel(
    px: Seq<u32>,
    stride: int,
    x: int,
    y: int,
    w: int,
    h: int,
    color: u32,
    i: int,
    j: int,
)
    requires
        0 <= i < stride,
        0 <= j < px.len() as int / stride,
    ensures
        painted(px, stride, rect_area(x, y, w, h), color).len() == px.len(),
        painted(px, stride, rect_area(x, y, w, h), color)[j * stride + i] == (if x <= i < x + w && y
            <= j < y + h {
            color
        } else {
            px[j * stride + i]
        }),
{
    lemma_painted_pixel(px, stride, rect_area(x, y, w, h), color, i, j);
}

/// In its top left corner, a rounded rectangle has the pixels whose distance to the
/// last pixel of the corner's square is at most the radius.
pub proof fn lemma_rounded_corner(i: int, j: int, w: int, h: int, r: int)
    requires
        0 <= i < r,
        0 <= j < r,
        i < w,
        j < h,
    ensures
        in_rounded_rect(i, j, w, h, r) <==> (r - 1 - i) * (r - 1 - i) + (r - 1 - j) * (r - 1 - j) <= r
            * r,
{
    assert((i - (r - 1)) * (i - (r - 1)) == (r - 1 - i) * (r - 1 - i)) by (nonlinear_arith);
    assert((j - (r - 1)) * (j - (r - 1)) == (r - 1 - j) * (r - 1 - j)) by (nonlinear_arith);
}

/// In any of its corners, a rounded rectangle has the pixels whose distance to the
/// innermost pixel of the corner's square is at most the radius.
pub proof fn lemma_rounded_any_corner(i: int, j: int, w: int, h: int, r: int, dx: int, dy: int)
    requires
        0 <= i < w,
        0 <= j < h,
        0 < r,
        i < r || w - r <= i,
        j < r || h - r <= j,
        dx == (if i < r {
            r - 1 - i
        } else {
            r - (w - i)
        }),
        dy == (if j < r {
            r - 1 - j
        } else {
            r - (h - j)
        }),
    ensures
        in_rounded_rect(i, j, w, h, r) <==> dx * dx + dy * dy <= r * r,
{
    assert((-dx) * (-dx) == dx * dx && (-dy) * (-dy) == dy * dy) by (nonlinear_arith);
}

/// Between its corners, a rounded rectangle has every pixel of the rectangle; it
/// has none outside.
pub proof fn lemma_rounded_between_corners(i: int, j: int, w: int, h: int, r: int)
    ensures
        in_rounded_rect(i, j, w, h, r) ==> 0 <= i < w && 0 <= j < h,
        0 <= i < w && 0 <= j < h && (r <= 0 || r <= i < w - r || r <= j < h - r)
            ==> in_rounded_rect(i, j, w, h, r),
{
}

/// A shifted rounded rectangle has the pixels of the one at the origin, shifted.
pub proof fn lemma_rounded_area_shifts(x: int, y: int, w: int, h: int, r: int, i: int, j: int)
    ensures
        rounded_area(x, y, w, h, r)(x + i, y + j) == in_rounded_rect(i, j, w, h, r),
{
}

/// The outline of a rounded rectangle and the rounded rectangle one pixel further
/// in make up the rounded rectangle, and have no pixel in common as far as the inner
/// one lies in the outer one.
pub proof fn lemma_outline_and_inside(x: int, y: int, w: int, h: int, r: int, i: int, j: int)
    requires
        w > 2,
        h > 2,
        r >= 0,
    ensures
        ({
            let inner = in_rounded_rect(
                i - 1,
                j - 1,
                w - 2,
                h - 2,
                if r == 0 {
                    0
                } else {
                    r - 1
                },
            );
            &&& !(outline_area(x, y, w, h, r)(x + i, y + j) && inner)
            &&& in_rounded_rect(i, j, w, h, r) ==> outline_area(x, y, w, h, r)(x + i, y + j) || inner
            &&& outline_area(x, y, w, h, r)(x + i, y + j) ==> in_rounded_rect(i, j, w, h, r)
        }),
{
}

/// Between its corners, the outline is the first and the last row or column.
pub proof fn lemma_outline_between_corners(x: int, y: int, w: int, h: int, r: int, i: int, j: int)
    requires
        w > 2,
        h > 2,
        r >= 0,
        2 * r <= w,
        2 * r <= h,
    ensures
        r <= j < h - r && 0 <= i < w ==> outline_area(x, y, w, h, r)(x + i, y + j) == (i == 0 || i == w
            - 1 || (j == 0 || j == h - 1)),
        r <= i < w - r && 0 <= j < h ==> outline_area(x, y, w, h, r)(x + i, y + j) == (j == 0 || j == h
            - 1 || (i == 0 || i == w - 1)),
{
}

/// Rectangles up to two pixels wide or high have no outline.
pub proof fn lemma_small_outline(x: int, y: int, w: int, h: int, r: int, i: int, j: int)
    requires
        w <= 2 || h <= 2,
    ensures
        !outline_area(x, y, w, h, r)(i, j),
{
}

/// Corners of radius zero are not rounded.
pub proof fn lemma_square_corners(x: int, y: int, w: int, h: int, i: int, j: int)
    ensures
        rounded_area(x, y, w, h, 0)(i, j) == rect_area(x, y, w, h)(i, j),
{
}

/// A rounded rectangle lies in the rectangle, and its outline in it.
pub proof fn lemma_rounded_within_rect(x: int, y: int, w: int, h: int, r: int, i: int, j: int)
    ensures
        rounded_area(x, y, w, h, r)(i, j) ==> rect_area(x, y, w, h)(i, j),
        outline_area(x, y, w, h, r)(i, j) ==> rounded_area(x, y, w, h, r)(i, j),
{
}

/// A rounded rectangle is its own mirror image, from left to right and from top to
/// bottom.
pub proof fn lemma_rounded_rect_symmetric(i: int, j: int, w: int, h: int, r: int)
    requires
        2 * r <= w,
        2 * r <= h,
    ensures
        in_rounded_rect(w - 1 - i, j, w, h, r) == in_rounded_rect(i, j, w, h, r),
        in_rounded_rect(i, h - 1 - j, w, h, r) == in_rounded_rect(i, j, w, h, r),
{
    if in_corner_square(i, j, w, h, r) {
        lemma_offset_mirrored(i, w, r);
        lemma_offset_mirrored(j, h, r);
    }
}

proof fn lemma_offset_mirrored(i: int, len: int, r: int)
    requires
        0 <= i < len,
        0 < r,
        2 * r <= len,
        !(r <= i < len - r),
    ensures
        corner_offset(len - 1 - i, len, r) == -corner_offset(i, len, r),
        corner_offset(len - 1 - i, len, r) * corner_offset(len - 1 - i, len, r) == corner_offset(
            i,
            len,
            r,
        ) * corner_offset(i, len, r),
{
    let d = corner_offset(i, len, r);
    assert((-d) * (-d) == d * d) by (nonlinear_arith);
}

/// The radius in use never exceeds half of a side, so that a clamped rounded
/// rectangle is symmetric.
pub proof fn lemma_clamped_radius_fits(radius: int, w: int, h: int)
    requires
        w >= 0,
        h >= 0,
    ensures
        0 <= clamped_radius(radius, w, h),
        2 * clamped_radius(radius, w, h) <= w,
        2 * clamped_radius(radius, w, h) <= h,
        clamped_radius(radius, w, h) <= radius || clamped_radius(radius, w, h) == 0,
{
}

/// The radius in use is the largest that is asked for and fits.
pub proof fn lemma_clamped_radius_is_largest(radius: int, w: int, h: int, r: int)
    requires
        0 <= r <= radius,
        2 * r <= w,
        2 * r <= h,
    ensures
        r <= clamped_radius(radius, w, h),
{
}

} // verus!
