//! Sending a picture to a window in chunks, each small enough for one message.
//!
//! The window is cut into tiles, row of tiles by row of tiles. A tile is at most 96
//! pixels wide and as high as a message has room for. Each tile travels in a message
//! of its own, which is sent when the one before it has been accepted.
use crate::error::{is_failure, BinderError};
#[allow(unused_imports)]
use crate::error::call_failed;
use crate::wire::{make_opaque, push_u16, push_u32, IPC_BUF_SIZE, OP_REQ_FLUSH_CHUNK};
#[allow(unused_imports)]
use crate::wire::{
    le16, le16_at, le32, le32_at, lemma_le16_read, lemma_le32_inverse, lemma_le32_read, lemma_le_at_digits,
    lemma_opaque_bytes, lemma_opaque_keeps_colors, opaque,
};
#[allow(unused_imports)]
use vstd::arithmetic::div_mod::{lemma_fundamental_div_mod, lemma_fundamental_div_mod_converse};
use vstd::prelude::*;

verus! {

/// The number of bytes before the pixels of a chunk message.
pub const CHUNK_HEADER: usize = 20;

/// The widest tile.
pub const MAX_TILE_WIDTH: usize = 96;

/// A rectangle of the window.
pub struct Tile {
    pub x: int,
    pub y: int,
    pub w: int,
    pub h: int,
}

/// The width of the tiles of a window, but for those at its right edge.
pub open spec fn tile_width(width: int) -> int {
    if width < 1 {
        1
    } else if width < MAX_TILE_WIDTH {
        width
    } else {
        MAX_TILE_WIDTH as int
    }
}

/// The height of the tiles of a window, but for those at its bottom edge: as many
/// rows as a message has room for.
pub open spec fn tile_height(width: int) -> int {
    let rows = (IPC_BUF_SIZE - CHUNK_HEADER) / 4 / tile_width(width);
    if rows < 1 {
        1
    } else {
        rows
    }
}

/// The tile with top left corner `(x, y)`.
pub open spec fn tile_at(width: int, height: int, x: int, y: int) -> Tile {
    Tile {
        x,
        y,
        w: if width - x < tile_width(width) {
            width - x
        } else {
            tile_width(width)
        },
        h: if height - y < tile_height(width) {
            height - y
        } else {
            tile_height(width)
        },
    }
}

/// The left edge of the tile after the one at `(x, y)`.
pub open spec fn next_x(width: int, height: int, x: int, y: int) -> int {
    let t = tile_at(width, height, x, y);
    if x + t.w < width {
        x + t.w
    } else {
        0
    }
}

/// The top edge of the tile after the one at `(x, y)`.
pub open spec fn next_y(width: int, height: int, x: int, y: int) -> int {
    let t = tile_at(width, height, x, y);
    if x + t.w < width {
        y
    } else {
        y + t.h
    }
}

/// The position `(x, y)` lies in the window.
pub open spec fn in_window(width: int, height: int, x: int, y: int) -> bool {
    0 <= x < width && 0 <= y < height
}

/// The tiles of a window from the one at `(x, y)` on, in the order in which they
/// are sent.
pub open spec fn tiles_from(width: int, height: int, x: int, y: int) -> Seq<Tile>
    decreases height - y, width - x,
{
    if in_window(width, height, x, y) {
        seq![tile_at(width, height, x, y)] + tiles_from(
            width,
            height,
            next_x(width, height, x, y),
            next_y(width, height, x, y),
        )
    } else {
        seq![]
    }
}

/// The colour that is sent for pixel number `m` of a tile, counted by rows.
pub open spec fn tile_pixel(t: Tile, width: int, pixels: Seq<u32>, m: int) -> u32 {
    opaque(pixels[(t.y + m / t.w) * width + t.x + m % t.w])
}

/// The bytes of the first `count` pixels of a tile.
pub open spec fn tile_bytes(t: Tile, width: int, pixels: Seq<u32>, count: int) -> Seq<u8> {
    Seq::new((4 * count) as nat, |n: int| le32(tile_pixel(t, width, pixels, n / 4))[n % 4])
}

/// The header of the message for a tile.
pub open spec fn chunk_header(window_id: u32, width: u16, height: u16, t: Tile) -> Seq<u8> {
    le32(OP_REQ_FLUSH_CHUNK) + le32(window_id) + le16(width) + le16(height) + le16(t.x as u16)
        + le16(t.y as u16) + le16(t.w as u16) + le16(t.h as u16)
}

/// The message for a tile: its header, then its pixels by rows.
pub open spec fn chunk_message(
    window_id: u32,
    width: u16,
    height: u16,
    t: Tile,
    pixels: Seq<u32>,
) -> Seq<u8> {
    chunk_header(window_id, width, height, t) + tile_bytes(t, width as int, pixels, t.w * t.h)
}

/// What is being sent where.
#[derive(Clone, Copy)]
pub struct ChunkedFlush<'a> {
    pub kagami_tid: u64,
    pub window_id: u32,
    pub width: u16,
    pub height: u16,
    pub pixels: &'a [u32],
}

impl<'a> ChunkedFlush<'a> {
    /// There is a pixel for every position of the window.
    pub open spec fn wf(self) -> bool {
        self.pixels@.len() >= self.width * self.height
    }

    /// The message for the tile with top left corner `(x, y)`.
    pub open spec fn message_at(self, x: int, y: int) -> Seq<u8> {
        chunk_message(
            self.window_id,
            self.width,
            self.height,
            tile_at(self.width as int, self.height as int, x, y),
            self.pixels@,
        )
    }
}

/// The tile with top left corner `(x0, y0)` has been handed over for sending.
#[derive(Clone, Copy)]
pub struct ChunkSent<'a> {
    pub flush: ChunkedFlush<'a>,
    pub x0: usize,
    pub y0: usize,
}

/// What to do next.
pub enum ChunkStep<'a> {
    /// Send `message` to the process `to`, and report the result to `then`.
    Send { to: u64, message: Vec<u8>, then: ChunkSent<'a> },
    /// The flush has ended.
    Done(Result<(), BinderError>),
}

/// The step is to send the tile at `(x, y)` if that lies in the window, and else to
/// end with success.
pub open spec fn sends_tile(step: ChunkStep, flush: ChunkedFlush, x: int, y: int) -> bool {
    if in_window(flush.width as int, flush.height as int, x, y) {
        step matches ChunkStep::Send { to, message, then } && {
            &&& to == flush.kagami_tid
            &&& message@ == flush.message_at(x, y)
            &&& then.flush == flush
            &&& then.x0 == x
            &&& then.y0 == y
        }
    } else {
        step == ChunkStep::Done(Ok(()))
    }
}

impl<'a> ChunkSent<'a> {
    /// The tile lies in the window.
    pub open spec fn wf(self) -> bool {
        &&& self.flush.wf()
        &&& in_window(
            self.flush.width as int,
            self.flush.height as int,
            self.x0 as int,
            self.y0 as int,
        )
    }
}

/// A tile is not empty, lies in the window, and has no more pixels than a message
/// has room for.
pub proof fn lemma_tile_size(width: int, height: int, x: int, y: int)
    requires
        in_window(width, height, x, y),
    ensures
        ({
            let t = tile_at(width, height, x, y);
            &&& 1 <= t.w <= 96
            &&& 1 <= t.h <= 1027
            &&& x + t.w <= width
            &&& y + t.h <= height
            &&& 1 <= t.w * t.h <= 1027
        }),
{
    let t = tile_at(width, height, x, y);
    let cw = tile_width(width);
    let ch = tile_height(width);
    lemma_fundamental_div_mod(1027, cw);
    assert(1027int / cw >= 1 && 1027int / cw <= 1027) by (nonlinear_arith)
        requires
            1 <= cw <= 96,
    ;
    assert(cw * ch <= 1027);
    assert(1 <= t.w * t.h <= cw * ch) by (nonlinear_arith)
        requires
            1 <= t.w <= cw,
            1 <= t.h <= ch,
    ;
}

/// Every message fits in a message buffer.
pub proof fn lemma_chunk_message_fits(flush: ChunkedFlush, x: int, y: int)
    requires
        in_window(flush.width as int, flush.height as int, x, y),
    ensures
        ({
            let t = tile_at(flush.width as int, flush.height as int, x, y);
            flush.message_at(x, y).len() == CHUNK_HEADER + 4 * (t.w * t.h)
        }),
        flush.message_at(x, y).len() <= IPC_BUF_SIZE,
{
    lemma_tile_size(flush.width as int, flush.height as int, x, y);
}

/// The place of a pixel of the window in its picture.
pub proof fn lemma_source_index(width: int, height: int, i: int, j: int)
    requires
        in_window(width, height, i, j),
    ensures
        0 <= j * width,
        0 <= j * width + i < width * height,
{
    assert(0 <= j * width && j * width + width <= width * height) by (nonlinear_arith)
        requires
            0 <= j < height,
            0 < width,
    ;
}

/// The width and the height of the tile with top left corner `(x0, y0)`.
fn tile_size(width: usize, height: usize, x0: usize, y0: usize) -> (size: (usize, usize))
    requires
        in_window(width as int, height as int, x0 as int, y0 as int),
    ensures
        size.0 == tile_at(width as int, height as int, x0 as int, y0 as int).w,
        size.1 == tile_at(width as int, height as int, x0 as int, y0 as int).h,
{
    let max_chunk_pixels: usize = (IPC_BUF_SIZE - CHUNK_HEADER) / 4;
    let chunk_w: usize = width.min(MAX_TILE_WIDTH).max(1);
    let chunk_h: usize = (max_chunk_pixels / chunk_w).max(1);
    ((width - x0).min(chunk_w), (height - y0).min(chunk_h))
}

/// Writes the message for the tile with top left corner `(x0, y0)`.
pub fn encode_chunk(flush: ChunkedFlush<'_>, x0: usize, y0: usize) -> (msg: Vec<u8>)
    requires
        flush.wf(),
        in_window(flush.width as int, flush.height as int, x0 as int, y0 as int),
    ensures
        msg@ == flush.message_at(x0 as int, y0 as int),
{
    let width: usize = flush.width as usize;
    let height: usize = flush.height as usize;
    let ghost t = tile_at(width as int, height as int, x0 as int, y0 as int);
    let ghost px = flush.pixels@;
    let (w, h): (usize, usize) = tile_size(width, height, x0, y0);
    proof {
        lemma_tile_size(width as int, height as int, x0 as int, y0 as int);
        assert(flush.pixels.len() == px.len());
    }
    let mut msg: Vec<u8> = Vec::new();
    push_u32(&mut msg, OP_REQ_FLUSH_CHUNK);
    push_u32(&mut msg, flush.window_id);
    push_u16(&mut msg, flush.width);
    push_u16(&mut msg, flush.height);
    push_u16(&mut msg, x0 as u16);
    push_u16(&mut msg, y0 as u16);
    push_u16(&mut msg, w as u16);
    push_u16(&mut msg, h as u16);
    let ghost header = chunk_header(flush.window_id, flush.width, flush.height, t);
    assert(msg@ =~= header + tile_bytes(t, width as int, px, 0));
    let mut row: usize = 0;
    while row < h
        invariant
            row <= h,
            w == t.w,
            h == t.h,
            x0 == t.x,
            y0 == t.y,
            0 < w,
            x0 + w <= width,
            y0 + h <= height,
            width == flush.width,
            height == flush.height,
            px == flush.pixels@,
            px.len() >= width * height,
            px.len() <= usize::MAX,
            msg@ == header + tile_bytes(t, width as int, px, row * w),
        decreases h - row,
    {
        proof {
            lemma_source_index(width as int, height as int, x0 as int, y0 + row);
        }
        let src_row: usize = (y0 + row) * width;
        let mut col: usize = 0;
        while col < w
            invariant
                col <= w,
                row < h,
                w == t.w,
                x0 == t.x,
                y0 == t.y,
                x0 + w <= width,
                y0 + h <= height,
                width == flush.width,
                height == flush.height,
                px == flush.pixels@,
                px.len() >= width * height,
                px.len() <= usize::MAX,
                src_row == (y0 + row) * width,
                msg@ == header + tile_bytes(t, width as int, px, row * w + col),
            decreases w - col,
        {
            let ghost m = row * w + col;
            proof {
                lemma_source_index(width as int, height as int, x0 + col, y0 + row);
                lemma_fundamental_div_mod_converse(m, w as int, row as int, col as int);
                assert(0 <= m) by (nonlinear_arith)
                    requires
                        m == row * w + col,
                ;
            }
            let color: u32 = make_opaque(flush.pixels[src_row + x0 + col]);
            assert(color == tile_pixel(t, width as int, px, m));
            push_u32(&mut msg, color);
            proof {
                let a = tile_bytes(t, width as int, px, m);
                let b = tile_bytes(t, width as int, px, m + 1);
                assert(a + le32(color) =~= b);
                assert(header + a + le32(color) =~= header + b);
            }
            col = col + 1;
        }
        assert((row + 1) * w == row * w + w) by (nonlinear_arith);
        row = row + 1;
    }
    assert(h * w == t.w * t.h) by (nonlinear_arith)
        requires
            h == t.h,
            w == t.w,
    ;
    msg
}

fn chunk_step(flush: ChunkedFlush<'_>, x0: usize, y0: usize) -> (step: ChunkStep<'_>)
    requires
        flush.wf(),
    ensures
        sends_tile(step, flush, x0 as int, y0 as int),
{
    if x0 < flush.width as usize && y0 < flush.height as usize {
        let message: Vec<u8> = encode_chunk(flush, x0, y0);
        ChunkStep::Send { to: flush.kagami_tid, message, then: ChunkSent { flush, x0, y0 } }
    } else {
        ChunkStep::Done(Ok(()))
    }
}

/// Starts to send a picture to a window in chunks.
pub fn flush_window_chunked(
    kagami_tid: u64,
    window_id: u32,
    width: u16,
    height: u16,
    pixels: &[u32],
) -> (step: ChunkStep<'_>)
    ensures
        pixels@.len() < width * height ==> step == ChunkStep::Done(
            Err(BinderError::PixelBufferTooSmall),
        ),
        pixels@.len() >= width * height ==> sends_tile(
            step,
            (ChunkedFlush { kagami_tid, window_id, width, height, pixels }),
            0,
            0,
        ),
        step matches ChunkStep::Send { then, .. } ==> then.wf(),
        (step is Send) == (pixels@.len() >= width * height && width > 0 && height > 0),
        (step matches ChunkStep::Send { to, message, then } ==> {
            &&& to == kagami_tid
            &&& then.x0 == 0
            &&& then.y0 == 0
            &&& then.flush == (ChunkedFlush { kagami_tid, window_id, width, height, pixels })
            &&& message@ == then.flush.message_at(0, 0)
        }),
{
    assert(width * height <= 65535 * 65535) by (nonlinear_arith)
        requires
            width <= 65535,
            height <= 65535,
    ;
    let total: usize = width as usize * height as usize;
    if pixels.len() < total {
        return ChunkStep::Done(Err(BinderError::PixelBufferTooSmall));
    }
    chunk_step(ChunkedFlush { kagami_tid, window_id, width, height, pixels }, 0, 0)
}

impl<'a> ChunkSent<'a> {
    /// Goes on after the attempt to send the tile, of which `ret` is the result: a
    /// failure ends the flush, and after a success the next tile follows.
    pub fn on_sent(self, ret: u64) -> (step: ChunkStep<'a>)
        requires
            self.wf(),
        ensures
            call_failed(ret) ==> step == ChunkStep::Done(Err(BinderError::SendFlushChunk)),
            !call_failed(ret) ==> sends_tile(
                step,
                self.flush,
                next_x(
                    self.flush.width as int,
                    self.flush.height as int,
                    self.x0 as int,
                    self.y0 as int,
                ),
                next_y(
                    self.flush.width as int,
                    self.flush.height as int,
                    self.x0 as int,
                    self.y0 as int,
                ),
            ),
            step matches ChunkStep::Send { then, .. } ==> then.wf(),
            (step matches ChunkStep::Send { to, message, then } ==> {
                &&& to == self.flush.kagami_tid
                &&& then.flush == self.flush
                &&& message@ == self.flush.message_at(then.x0 as int, then.y0 as int)
            }),
    {
        if is_failure(ret) {
            return ChunkStep::Done(Err(BinderError::SendFlushChunk));
        }
        let width: usize = self.flush.width as usize;
        let height: usize = self.flush.height as usize;
        let (w, h): (usize, usize) = tile_size(width, height, self.x0, self.y0);
        proof {
            lemma_tile_size(width as int, height as int, self.x0 as int, self.y0 as int);
        }
        if self.x0 + w < width {
            chunk_step(self.flush, self.x0 + w, self.y0)
        } else {
            chunk_step(self.flush, 0, self.y0 + h)
        }
    }
}

/// The tile has the pixel `(i, j)`.
pub open spec fn covers(t: Tile, i: int, j: int) -> bool {
    t.x <= i < t.x + t.w && t.y <= j < t.y + t.h
}

/// How many of the tiles have the pixel `(i, j)`.
pub open spec fn times_covered(tiles: Seq<Tile>, i: int, j: int) -> nat
    decreases tiles.len(),
{
    if tiles.len() == 0 {
        0
    } else {
        (if covers(tiles[0], i, j) {
            1nat
        } else {
            0nat
        }) + times_covered(tiles.drop_first(), i, j)
    }
}

proof fn lemma_tiles_unfold(width: int, height: int, x: int, y: int)
    requires
        in_window(width, height, x, y),
    ensures
        ({
            let tiles = tiles_from(width, height, x, y);
            let rest = tiles_from(
                width,
                height,
                next_x(width, height, x, y),
                next_y(width, height, x, y),
            );
            &&& tiles.len() == rest.len() + 1
            &&& tiles[0] == tile_at(width, height, x, y)
            &&& tiles.drop_first() == rest
        }),
{
    let tiles = tiles_from(width, height, x, y);
    let rest = tiles_from(
        width,
        height,
        next_x(width, height, x, y),
        next_y(width, height, x, y),
    );
    assert(tiles.drop_first() =~= rest);
}

proof fn lemma_rest_covered(width: int, height: int, x: int, y: int, i: int, j: int)
    requires
        0 <= x,
        0 <= y,
        x < width || width <= 0,
    ensures
        times_covered(tiles_from(width, height, x, y), i, j) == (if in_window(width, height, i, j)
            && in_window(width, height, x, y) && y <= j && (x <= i || y + tile_at(
            width,
            height,
            x,
            y,
        ).h <= j) {
            1nat
        } else {
            0nat
        }),
    decreases height - y, width - x,
{
    if in_window(width, height, x, y) {
        lemma_tile_size(width, height, x, y);
        lemma_tiles_unfold(width, height, x, y);
        lemma_rest_covered(
            width,
            height,
            next_x(width, height, x, y),
            next_y(width, height, x, y),
            i,
            j,
        );
    }
}

/// The tiles of a window have every pixel of the window exactly once, and no pixel
/// outside it.
pub proof fn lemma_tiles_partition_window(width: int, height: int, i: int, j: int)
    ensures
        times_covered(tiles_from(width, height, 0, 0), i, j) == (if 0 <= i < width && 0 <= j < height {
            1nat
        } else {
            0nat
        }),
{
    lemma_rest_covered(width, height, 0, 0, i, j);
}

/// Where the message for a tile holds the pixel `(i, j)`.
pub open spec fn pixel_position(t: Tile, i: int, j: int) -> int {
    CHUNK_HEADER + 4 * ((j - t.y) * t.w + (i - t.x))
}

proof fn lemma_chunk_header_contents(
    window_id: u32,
    width: u16,
    height: u16,
    t: Tile,
    message: Seq<u8>,
)
    requires
        message.len() >= CHUNK_HEADER,
        message.take(20) == chunk_header(window_id, width, height, t),
    ensures
        le32_at(message, 0) == OP_REQ_FLUSH_CHUNK,
        le32_at(message, 4) == window_id,
        le16_at(message, 8) == width,
        le16_at(message, 10) == height,
        le16_at(message, 12) == t.x as u16,
        le16_at(message, 14) == t.y as u16,
        le16_at(message, 16) == t.w as u16,
        le16_at(message, 18) == t.h as u16,
{
    let header = chunk_header(window_id, width, height, t);
    assert forall|from: int, to: int| 0 <= from <= to <= 20 implies #[trigger] message.subrange(
        from,
        to,
    ) == header.subrange(from, to) by {
        assert(message.subrange(from, to) =~= message.take(20).subrange(from, to));
    }
    assert(header.subrange(0, 4) =~= le32(OP_REQ_FLUSH_CHUNK));
    lemma_le32_read(message, 0, OP_REQ_FLUSH_CHUNK);
    assert(header.subrange(4, 8) =~= le32(window_id));
    lemma_le32_read(message, 4, window_id);
    assert(header.subrange(8, 10) =~= le16(width));
    lemma_le16_read(message, 8, width);
    assert(header.subrange(10, 12) =~= le16(height));
    lemma_le16_read(message, 10, height);
    assert(header.subrange(12, 14) =~= le16(t.x as u16));
    lemma_le16_read(message, 12, t.x as u16);
    assert(header.subrange(14, 16) =~= le16(t.y as u16));
    lemma_le16_read(message, 14, t.y as u16);
    assert(header.subrange(16, 18) =~= le16(t.w as u16));
    lemma_le16_read(message, 16, t.w as u16);
    assert(header.subrange(18, 20) =~= le16(t.h as u16));
    lemma_le16_read(message, 18, t.h as u16);
}

/// The message for a tile names the window and its size, and the tile's place and
/// size.
pub proof fn lemma_chunk_message_names_tile(flush: ChunkedFlush, x: int, y: int)
    requires
        in_window(flush.width as int, flush.height as int, x, y),
    ensures
        ({
            let t = tile_at(flush.width as int, flush.height as int, x, y);
            let message = flush.message_at(x, y);
            &&& le32_at(message, 0) == OP_REQ_FLUSH_CHUNK
            &&& le32_at(message, 4) == flush.window_id
            &&& le16_at(message, 8) == flush.width
            &&& le16_at(message, 10) == flush.height
            &&& le16_at(message, 12) == t.x
            &&& le16_at(message, 14) == t.y
            &&& le16_at(message, 16) == t.w
            &&& le16_at(message, 18) == t.h
        }),
{
    let t = tile_at(flush.width as int, flush.height as int, x, y);
    let header = chunk_header(flush.window_id, flush.width, flush.height, t);
    let message = flush.message_at(x, y);
    lemma_tile_size(flush.width as int, flush.height as int, x, y);
    assert(message.take(20) =~= header);
    lemma_chunk_header_contents(flush.window_id, flush.width, flush.height, t, message);
}

/// The message for a tile holds each of its pixels, opaque, at the place of the
/// pixel.
pub proof fn lemma_chunk_message_holds_pixel(flush: ChunkedFlush, x: int, y: int, i: int, j: int)
    requires
        in_window(flush.width as int, flush.height as int, x, y),
        covers(tile_at(flush.width as int, flush.height as int, x, y), i, j),
    ensures
        ({
            let t = tile_at(flush.width as int, flush.height as int, x, y);
            let message = flush.message_at(x, y);
            &&& CHUNK_HEADER <= pixel_position(t, i, j) <= message.len() - 4
            &&& le32_at(message, pixel_position(t, i, j)) == opaque(
                flush.pixels@[j * flush.width + i],
            )
        }),
{
    let width = flush.width as int;
    let t = tile_at(width, flush.height as int, x, y);
    let header = chunk_header(flush.window_id, flush.width, flush.height, t);
    let body = tile_bytes(t, width, flush.pixels@, t.w * t.h);
    let message = flush.message_at(x, y);
    lemma_tile_size(width, flush.height as int, x, y);
    let row = j - t.y;
    let col = i - t.x;
    let m = row * t.w + col;
    lemma_fundamental_div_mod_converse(m, t.w, row, col);
    assert(0 <= m < t.w * t.h) by (nonlinear_arith)
        requires
            m == row * t.w + col,
            0 <= row < t.h,
            0 <= col < t.w,
    ;
    let color = tile_pixel(t, width, flush.pixels@, m);
    assert(header.len() == 20);
    assert(message.subrange(20 + 4 * m, 20 + 4 * m + 4) =~= le32(color)) by {
        assert forall|b: int| 0 <= b < 4 implies #[trigger] message.subrange(
            20 + 4 * m,
            20 + 4 * m + 4,
        )[b] == le32(color)[b] by {
            assert((4 * m + b) / 4 == m && (4 * m + b) % 4 == b);
            assert(message[20 + 4 * m + b] == body[4 * m + b]);
        }
    }
    lemma_le32_read(message, 20 + 4 * m, color);
}

/// The bytes that are sent for a pixel of a tile are its blue, its green and its
/// red, and full alpha. They stand behind the 20 bytes of the header and four bytes
/// for every pixel of the tile before it, counted by rows.
pub proof fn lemma_chunk_pixel_bytes(flush: ChunkedFlush, x: int, y: int, i: int, j: int, at: int)
    requires
        0 <= x < flush.width,
        0 <= y < flush.height,
        ({
            let t = tile_at(flush.width as int, flush.height as int, x, y);
            &&& x <= i < x + t.w
            &&& y <= j < y + t.h
            &&& at == 20 + 4 * ((j - y) * t.w + (i - x))
        }),
    ensures
        ({
            let message = flush.message_at(x, y);
            let color = flush.pixels@[j * flush.width + i];
            &&& 20 <= at <= message.len() - 4
            &&& message[at] == color % 256
            &&& message[at + 1] == color / 0x100 % 256
            &&& message[at + 2] == color / 0x1_0000 % 256
            &&& message[at + 3] == 0xFF
        }),
{
    let message = flush.message_at(x, y);
    let color = flush.pixels@[j * flush.width + i];
    lemma_chunk_message_holds_pixel(flush, x, y, i, j);
    lemma_opaque_bytes(color);
    let part = message.subrange(at, at + 4);
    lemma_le32_inverse(part);
    assert(part[0] == message[at] && part[1] == message[at + 1]);
    assert(part[2] == message[at + 2] && part[3] == message[at + 3]);
    assert(le32_at(part, 0) == le32_at(message, at));
}

/// The header of a message, byte by byte: the operation, the window, the window's
/// size, and the tile's place and size.
pub proof fn lemma_chunk_header_bytes(flush: ChunkedFlush, x: int, y: int)
    requires
        0 <= x < flush.width,
        0 <= y < flush.height,
    ensures
        ({
            let t = tile_at(flush.width as int, flush.height as int, x, y);
            let m = flush.message_at(x, y);
            &&& m.len() == 20 + 4 * (t.w * t.h)
            &&& m[0] + 0x100 * m[1] + 0x1_0000 * m[2] + 0x100_0000 * m[3] == 4
            &&& m[4] + 0x100 * m[5] + 0x1_0000 * m[6] + 0x100_0000 * m[7] == flush.window_id
            &&& m[8] + 0x100 * m[9] == flush.width
            &&& m[10] + 0x100 * m[11] == flush.height
            &&& m[12] + 0x100 * m[13] == x
            &&& m[14] + 0x100 * m[15] == y
            &&& m[16] + 0x100 * m[17] == t.w
            &&& m[18] + 0x100 * m[19] == t.h
        }),
{
    let m = flush.message_at(x, y);
    lemma_chunk_message_names_tile(flush, x, y);
    lemma_chunk_message_fits(flush, x, y);
    lemma_le_at_digits(m, 0);
    lemma_le_at_digits(m, 4);
    lemma_le_at_digits(m, 8);
    lemma_le_at_digits(m, 10);
    lemma_le_at_digits(m, 12);
    lemma_le_at_digits(m, 14);
    lemma_le_at_digits(m, 16);
    lemma_le_at_digits(m, 18);
}

/// A tile begins where it is asked for, lies in the window, and is as large as can
/// be: 96 pixels wide, or as wide as the window has room for, and so high that a
/// message of 4128 bytes has no room for a further row of the full width, or as high
/// as the window has room for.
pub proof fn lemma_tile_is_as_large_as_can_be(width: int, height: int, x: int, y: int, full: int)
    requires
        0 <= x < width,
        0 <= y < height,
        full == (if width < 96 {
            width
        } else {
            96
        }),
    ensures
        ({
            let t = tile_at(width, height, x, y);
            &&& t.x == x
            &&& t.y == y
            &&& 1 <= t.w <= full
            &&& x + t.w <= width
            &&& t.w == full || x + t.w == width
            &&& 1 <= t.h
            &&& y + t.h <= height
            &&& 20 + 4 * (full * t.h) <= 4128
            &&& 4128 < 20 + 4 * (full * (t.h + 1)) || y + t.h == height
        }),
{
    let t = tile_at(width, height, x, y);
    let rows = tile_height(width);
    lemma_tile_size(width, height, x, y);
    lemma_fundamental_div_mod(1027, full);
    assert(1 <= 1027int / full) by (nonlinear_arith)
        requires
            1 <= full <= 96,
    ;
    assert(rows == 1027int / full);
    assert(full * rows <= 1027 < full * rows + full);
    assert(full * (rows + 1) == full * rows + full) by (nonlinear_arith);
    assert(full * t.h <= full * rows) by (nonlinear_arith)
        requires
            t.h <= rows,
            1 <= full,
    ;
}

/// The tiles begin in the corner of the window. Each next tile stands to the right
/// of the one before it, or, when that reaches the right edge, at the left edge below
/// it; the last one reaches the right and the bottom edge.
pub proof fn lemma_tiles_follow(width: int, height: int, n: int)
    requires
        0 <= n < tiles_from(width, height, 0, 0).len(),
    ensures
        ({
            let tiles = tiles_from(width, height, 0, 0);
            let t = tiles[n];
            &&& tiles[0].x == 0 && tiles[0].y == 0
            &&& n + 1 < tiles.len() && t.x + t.w < width ==> tiles[n + 1].x == t.x + t.w && tiles[n
                + 1].y == t.y
            &&& n + 1 < tiles.len() && t.x + t.w >= width ==> tiles[n + 1].x == 0 && tiles[n + 1].y
                == t.y + t.h
            &&& n + 1 == tiles.len() ==> t.x + t.w == width && t.y + t.h == height
        }),
{
    lemma_tiles_unfold(width, height, 0, 0);
    lemma_follow_from(width, height, 0, 0, n);
}

proof fn lemma_follow_from(width: int, height: int, x: int, y: int, n: int)
    requires
        0 <= x,
        0 <= y,
        0 <= n < tiles_from(width, height, x, y).len(),
    ensures
        ({
            let tiles = tiles_from(width, height, x, y);
            let t = tiles[n];
            &&& n + 1 < tiles.len() && t.x + t.w < width ==> tiles[n + 1].x == t.x + t.w && tiles[n
                + 1].y == t.y
            &&& n + 1 < tiles.len() && t.x + t.w >= width ==> tiles[n + 1].x == 0 && tiles[n + 1].y
                == t.y + t.h
            &&& n + 1 == tiles.len() ==> t.x + t.w == width && t.y + t.h == height
        }),
    decreases n,
{
    let tiles = tiles_from(width, height, x, y);
    let (nx, ny) = (next_x(width, height, x, y), next_y(width, height, x, y));
    let rest = tiles_from(width, height, nx, ny);
    lemma_tile_size(width, height, x, y);
    lemma_tiles_unfold(width, height, x, y);
    if n == 0 {
        if rest.len() > 0 {
            lemma_tiles_unfold(width, height, nx, ny);
            assert(tiles.drop_first()[0] == tiles[1]);
        } else if in_window(width, height, nx, ny) {
            lemma_tiles_unfold(width, height, nx, ny);
        }
    } else {
        assert(tiles.drop_first()[n - 1] == tiles[n]);
        if n + 1 < tiles.len() {
            assert(tiles.drop_first()[n] == tiles[n + 1]);
        }
        lemma_follow_from(width, height, nx, ny, n - 1);
    }
}

/// What a step sends is addressed to Kagami and is the message of the tile that it
/// stands for; outside the window there is nothing left to send.
pub proof fn lemma_step_sends_tile(step: ChunkStep, flush: ChunkedFlush, x: int, y: int)
    requires
        sends_tile(step, flush, x, y),
    ensures
        0 <= x < flush.width && 0 <= y < flush.height ==> (step matches ChunkStep::Send {
            to,
            message,
            then,
        } && to == flush.kagami_tid && message@ == flush.message_at(x, y) && then.x0 == x && then.y0
            == y && then.flush == flush),
        !(0 <= x < flush.width && 0 <= y < flush.height) ==> step == ChunkStep::Done(Ok(())),
{
}

/// The tile after a tile: to its right, or at the left edge below it.
pub proof fn lemma_next_tile(width: int, height: int, x: int, y: int)
    requires
        0 <= x < width,
        0 <= y < height,
    ensures
        ({
            let t = tile_at(width, height, x, y);
            &&& x + t.w < width ==> next_x(width, height, x, y) == x + t.w && next_y(
                width,
                height,
                x,
                y,
            ) == y
            &&& x + t.w >= width ==> next_x(width, height, x, y) == 0 && next_y(
                width,
                height,
                x,
                y,
            ) == y + t.h
        }),
{
}

proof fn lemma_each_tile(width: int, height: int, x: int, y: int, n: int)
    requires
        0 <= x,
        0 <= y,
        0 <= n < tiles_from(width, height, x, y).len(),
    ensures
        ({
            let t = tiles_from(width, height, x, y)[n];
            &&& in_window(width, height, t.x, t.y)
            &&& t == tile_at(width, height, t.x, t.y)
        }),
    decreases n,
{
    lemma_tile_size(width, height, x, y);
    lemma_tiles_unfold(width, height, x, y);
    if n > 0 {
        let tiles = tiles_from(width, height, x, y);
        assert(tiles.drop_first()[n - 1] == tiles[n]);
        lemma_each_tile(
            width,
            height,
            next_x(width, height, x, y),
            next_y(width, height, x, y),
            n - 1,
        );
    }
}

proof fn lemma_covered_by_some(tiles: Seq<Tile>, i: int, j: int) -> (n: int)
    requires
        times_covered(tiles, i, j) > 0,
    ensures
        0 <= n < tiles.len(),
        covers(tiles[n], i, j),
    decreases tiles.len(),
{
    if covers(tiles[0], i, j) {
        0
    } else {
        let n = lemma_covered_by_some(tiles.drop_first(), i, j);
        assert(tiles.drop_first()[n] == tiles[n + 1]);
        n + 1
    }
}

/// The messages for the tiles, in order.
pub open spec fn tile_messages(flush: ChunkedFlush, tiles: Seq<Tile>) -> Seq<Seq<u8>> {
    Seq::new(
        tiles.len(),
        |n: int|
            chunk_message(
                flush.window_id,
                flush.width,
                flush.height,
                tiles[n],
                flush.pixels@,
            ),
    )
}

/// Every pixel of the window has a tile whose message holds it, opaque. (There is
/// only one such tile, for the tiles partition the window.)
pub proof fn lemma_every_pixel_is_sent(flush: ChunkedFlush, i: int, j: int)
    requires
        0 <= i < flush.width,
        0 <= j < flush.height,
    ensures
        ({
            let tiles = tiles_from(flush.width as int, flush.height as int, 0, 0);
            exists|n: int|
                #![trigger tiles[n]]
                0 <= n < tiles.len() && tiles[n].x <= i < tiles[n].x + tiles[n].w && tiles[n].y <= j
                    < tiles[n].y + tiles[n].h && le32_at(
                    tile_messages(flush, tiles)[n],
                    20 + 4 * ((j - tiles[n].y) * tiles[n].w + (i - tiles[n].x)),
                ) == flush.pixels@[j * flush.width + i] | 0xFF00_0000u32
        }),
{
    let (width, height) = (flush.width as int, flush.height as int);
    let tiles = tiles_from(width, height, 0, 0);
    lemma_tiles_partition_window(width, height, i, j);
    let n = lemma_covered_by_some(tiles, i, j);
    lemma_each_tile(width, height, 0, 0, n);
    lemma_chunk_message_holds_pixel(flush, tiles[n].x, tiles[n].y, i, j);
    lemma_opaque_keeps_colors(flush.pixels@[j * flush.width + i]);
    assert(tile_messages(flush, tiles)[n] == flush.message_at(tiles[n].x, tiles[n].y));
}

/// The messages that a flush sends, and how it ends, when the attempts to send
/// have the results `rets`. A flush that still waits for a result has no outcome.
pub struct Conversation {
    pub messages: Seq<Seq<u8>>,
    pub outcome: Option<Result<(), BinderError>>,
}

/// The conversation from the tile at `(x, y)` on: each step is the one that
/// `sends_tile` and `on_sent` prescribe.
pub open spec fn conversation(
    flush: ChunkedFlush,
    x: int,
    y: int,
    rets: Seq<u64>,
) -> Conversation
    decreases rets.len(),
{
    let (width, height) = (flush.width as int, flush.height as int);
    if !in_window(width, height, x, y) {
        Conversation { messages: seq![], outcome: Some(Ok(())) }
    } else if rets.len() == 0 {
        Conversation { messages: seq![flush.message_at(x, y)], outcome: None }
    } else if call_failed(rets[0]) {
        Conversation {
            messages: seq![flush.message_at(x, y)],
            outcome: Some(Err(BinderError::SendFlushChunk)),
        }
    } else {
        let rest = conversation(
            flush,
            next_x(width, height, x, y),
            next_y(width, height, x, y),
            rets.drop_first(),
        );
        Conversation {
            messages: seq![flush.message_at(x, y)] + rest.messages,
            outcome: rest.outcome,
        }
    }
}

proof fn lemma_conversation_succeeds_from(flush: ChunkedFlush, x: int, y: int, rets: Seq<u64>)
    requires
        ({
            let tiles = tiles_from(flush.width as int, flush.height as int, x, y);
            &&& rets.len() >= tiles.len()
            &&& forall|n: int| 0 <= n < tiles.len() ==> !call_failed(#[trigger] rets[n])
        }),
    ensures
        conversation(flush, x, y, rets).outcome == Some(Ok::<(), BinderError>(())),
        conversation(flush, x, y, rets).messages == tile_messages(
            flush,
            tiles_from(flush.width as int, flush.height as int, x, y),
        ),
    decreases rets.len(),
{
    let (width, height) = (flush.width as int, flush.height as int);
    let tiles = tiles_from(width, height, x, y);
    if in_window(width, height, x, y) {
        let (nx, ny) = (next_x(width, height, x, y), next_y(width, height, x, y));
        lemma_tiles_unfold(width, height, x, y);
        let rest = tiles_from(width, height, nx, ny);
        assert forall|n: int| 0 <= n < rest.len() implies !call_failed(
            #[trigger] rets.drop_first()[n],
        ) by {
            assert(rets.drop_first()[n] == rets[n + 1]);
        }
        lemma_conversation_succeeds_from(flush, nx, ny, rets.drop_first());
        assert(forall|n: int| 0 <= n < rest.len() ==> rest[n] == #[trigger] tiles[n + 1]) by {
            assert(forall|n: int| 0 <= n < rest.len() ==> tiles.drop_first()[n] == tiles[n + 1]);
        }
        assert(conversation(flush, x, y, rets).messages =~= tile_messages(flush, tiles));
    } else {
        assert(conversation(flush, x, y, rets).messages =~= tile_messages(flush, tiles));
    }
}

/// When every attempt succeeds, the flush sends the message of every tile, in
/// order, and ends with success.
pub proof fn lemma_flush_sends_every_tile(flush: ChunkedFlush, rets: Seq<u64>)
    requires
        ({
            let tiles = tiles_from(flush.width as int, flush.height as int, 0, 0);
            &&& rets.len() >= tiles.len()
            &&& forall|n: int| 0 <= n < tiles.len() ==> !call_failed(#[trigger] rets[n])
        }),
    ensures
        conversation(flush, 0, 0, rets).outcome == Some(Ok::<(), BinderError>(())),
        conversation(flush, 0, 0, rets).messages == tile_messages(
            flush,
            tiles_from(flush.width as int, flush.height as int, 0, 0),
        ),
{
    lemma_conversation_succeeds_from(flush, 0, 0, rets);
}

proof fn lemma_conversation_fails_from(
    flush: ChunkedFlush,
    x: int,
    y: int,
    rets: Seq<u64>,
    at: int,
)
    requires
        0 <= at < rets.len(),
        at < tiles_from(flush.width as int, flush.height as int, x, y).len(),
        forall|n: int| 0 <= n < at ==> !call_failed(#[trigger] rets[n]),
        call_failed(rets[at]),
    ensures
        conversation(flush, x, y, rets).outcome == Some(
            Err::<(), BinderError>(BinderError::SendFlushChunk),
        ),
        conversation(flush, x, y, rets).messages == tile_messages(
            flush,
            tiles_from(flush.width as int, flush.height as int, x, y).take(at + 1),
        ),
    decreases rets.len(),
{
    let (width, height) = (flush.width as int, flush.height as int);
    let tiles = tiles_from(width, height, x, y);
    let (nx, ny) = (next_x(width, height, x, y), next_y(width, height, x, y));
    lemma_tiles_unfold(width, height, x, y);
    if at > 0 {
        let rest = tiles_from(width, height, nx, ny);
        assert forall|n: int| 0 <= n < at - 1 implies !call_failed(
            #[trigger] rets.drop_first()[n],
        ) by {
            assert(rets.drop_first()[n] == rets[n + 1]);
        }
        lemma_conversation_fails_from(flush, nx, ny, rets.drop_first(), at - 1);
        assert(forall|n: int| 0 <= n < rest.len() ==> rest[n] == #[trigger] tiles[n + 1]) by {
            assert(forall|n: int| 0 <= n < rest.len() ==> tiles.drop_first()[n] == tiles[n + 1]);
        }
    }
    assert(conversation(flush, x, y, rets).messages =~= tile_messages(flush, tiles.take(at + 1)));
}

/// When an attempt fails, the flush ends there with an error, and no further
/// message is sent.
pub proof fn lemma_flush_stops_at_failure(flush: ChunkedFlush, rets: Seq<u64>, at: int)
    requires
        0 <= at < rets.len(),
        at < tiles_from(flush.width as int, flush.height as int, 0, 0).len(),
        forall|n: int| 0 <= n < at ==> !call_failed(#[trigger] rets[n]),
        call_failed(rets[at]),
    ensures
        conversation(flush, 0, 0, rets).outcome == Some(
            Err::<(), BinderError>(BinderError::SendFlushChunk),
        ),
        conversation(flush, 0, 0, rets).messages == tile_messages(
            flush,
            tiles_from(flush.width as int, flush.height as int, 0, 0).take(at + 1),
        ),
{
    lemma_conversation_fails_from(flush, 0, 0, rets, at);
}

} // verus!
