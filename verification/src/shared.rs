//! Showing a picture through memory that is shared with Kagami.
//!
//! Pages are allocated and filled with the picture, attached to the window and
//! handed to Kagami. When Kagami has acknowledged the attachment, it is asked to
//! show the surface.
#[allow(unused_imports)]
use crate::chunked::{
    covers, in_window, lemma_chunk_message_holds_pixel, lemma_source_index, lemma_tile_size, pixel_position, tile_at,
    ChunkedFlush,
};
use crate::error::{is_failure, BinderError};
#[allow(unused_imports)]
use crate::error::{call_failed, lemma_failures_are_negative};
use crate::reply::{ReplyWait, WaitStep};
#[allow(unused_imports)]
use crate::reply::{
    answered_at, lemma_answer_is_a_reply, lemma_first_reply_decides, lemma_timeout_without_reply, wait_outcome,
    Incoming, REPLY_ATTEMPTS,
};
use crate::wire::{encode_attach, encode_present, make_opaque, OP_RES_SHARED_ATTACHED};
#[allow(unused_imports)]
use crate::wire::{
    attach_message, le32_at, lemma_attach_message_names_surface, lemma_opaque_keeps_colors,
    lemma_present_message_names_window, opaque, present_message,
};
use vstd::prelude::*;

verus! {

/// The size of a page of memory.
pub const PAGE_SIZE: usize = 4096;

/// Which window is shown where.
#[derive(Clone, Copy, Debug, PartialEq, Eq)]
pub struct SharedFlush {
    pub kagami_tid: u64,
    pub window_id: u32,
    pub width: u16,
    pub height: u16,
}

/// Pages have been asked for.
#[derive(Clone, Copy, Debug, PartialEq, Eq)]
pub struct PagesRequested {
    pub flush: SharedFlush,
}

/// The pages have been allocated, and are to be filled.
#[derive(Debug)]
pub struct SurfaceAllocated {
    pub flush: SharedFlush,
    pub pages: Vec<u64>,
}

/// The request to attach the surface has been handed over for sending.
#[derive(Debug)]
pub struct AttachSent {
    pub flush: SharedFlush,
    pub pages: Vec<u64>,
}

/// The pages have been handed over for sending.
#[derive(Clone, Copy, Debug, PartialEq, Eq)]
pub struct PagesSent {
    pub flush: SharedFlush,
}

/// The acknowledgement is waited for.
#[derive(Clone, Copy, Debug, PartialEq, Eq)]
pub struct AckWait {
    pub flush: SharedFlush,
    pub wait: ReplyWait,
}

/// The request to show the surface has been handed over for sending.
#[derive(Clone, Copy, Debug, PartialEq, Eq)]
pub struct PresentSent {
    pub flush: SharedFlush,
}

/// What to do next.
#[allow(inconsistent_fields)]
#[derive(Debug)]
pub enum SharedStep {
    /// Allocate `page_count` shared pages, and report their address and numbers.
    Allocate { page_count: usize, then: PagesRequested },
    /// Fill the surface of `total` pixels at the address `addr`.
    Fill { addr: u64, total: usize, then: SurfaceAllocated },
    /// Send `message` to the process `to`, and report the result.
    SendAttach { to: u64, message: Vec<u8>, then: AttachSent },
    /// Send the pages to the process `to`, and report the result.
    SendPages { to: u64, pages: Vec<u64>, then: PagesSent },
    /// Receive a message and hand it on.
    Receive(AckWait),
    /// Let other processes run, then go on.
    Yield(AckWait),
    /// Send `message` to the process `to`, and report the result.
    SendPresent { to: u64, message: Vec<u8>, then: PresentSent },
    /// The flush has ended.
    Done(Result<(), BinderError>),
}

/// How far a flush has come.
pub enum Stage {
    Allocating,
    Filling,
    Attaching,
    SendingPages,
    Awaiting(WaitStep),
    Presenting,
    Ended(Result<(), BinderError>),
}

impl SharedStep {
    /// How far the flush has come.
    pub open spec fn stage(self) -> Stage {
        match self {
            SharedStep::Allocate { .. } => Stage::Allocating,
            SharedStep::Fill { .. } => Stage::Filling,
            SharedStep::SendAttach { .. } => Stage::Attaching,
            SharedStep::SendPages { .. } => Stage::SendingPages,
            SharedStep::Receive(w) => Stage::Awaiting(WaitStep::Receive(w.wait)),
            SharedStep::Yield(w) => Stage::Awaiting(WaitStep::Yield(w.wait)),
            SharedStep::SendPresent { .. } => Stage::Presenting,
            SharedStep::Done(result) => Stage::Ended(result),
        }
    }

    /// What the step hands out belongs to the flush.
    pub open spec fn serves(self, flush: SharedFlush) -> bool {
        match self {
            SharedStep::Allocate { page_count, then } => {
                &&& page_count == pages_for(flush.total())
                &&& then.flush == flush
            },
            SharedStep::Fill { total, then, .. } => {
                &&& total == flush.total()
                &&& then.flush == flush
            },
            SharedStep::SendAttach { to, message, then } => {
                &&& to == flush.kagami_tid
                &&& message@ == attach_message(flush.window_id, flush.width, flush.height)
                &&& then.flush == flush
            },
            SharedStep::SendPages { to, then, .. } => {
                &&& to == flush.kagami_tid
                &&& then.flush == flush
            },
            SharedStep::Receive(w) => w.flush == flush,
            SharedStep::Yield(w) => w.flush == flush,
            SharedStep::SendPresent { to, message, then } => {
                &&& to == flush.kagami_tid
                &&& message@ == present_message(flush.window_id)
                &&& then.flush == flush
            },
            SharedStep::Done(_) => true,
        }
    }
}

impl SharedFlush {
    /// The number of pixels of the window.
    pub open spec fn total(self) -> int {
        self.width * self.height
    }

    /// The wait for the acknowledgement, with all its attempts.
    pub open spec fn ack_wait(self) -> ReplyWait {
        ReplyWait {
            kagami_tid: self.kagami_tid,
            op: OP_RES_SHARED_ATTACHED,
            window_id: Some(self.window_id),
            attempts: REPLY_ATTEMPTS,
        }
    }
}

/// The number of pages that hold `total` pixels of four bytes.
pub open spec fn pages_for(total: int) -> int {
    (4 * total + PAGE_SIZE - 1) / PAGE_SIZE as int
}

/// The first stage, for a window of `total` pixels and a picture of `len` pixels.
pub open spec fn first_stage(total: int, len: int) -> Stage {
    if len < total {
        Stage::Ended(Err(BinderError::PixelBufferTooSmall))
    } else if 4 * total > usize::MAX {
        Stage::Ended(Err(BinderError::SizeOverflow))
    } else if total == 0 {
        Stage::Ended(Err(BinderError::PageCountOutOfRange))
    } else {
        Stage::Allocating
    }
}

/// The stage after the allocation, which gave the address `addr`.
pub open spec fn after_allocation(addr: u64) -> Stage {
    if call_failed(addr) || addr == 0 {
        Stage::Ended(Err(BinderError::AllocSharedPages))
    } else {
        Stage::Filling
    }
}

/// The stage after the attempt to send the attach request.
pub open spec fn after_attach(ret: u64) -> Stage {
    if call_failed(ret) {
        Stage::Ended(Err(BinderError::SendSharedAttach))
    } else {
        Stage::SendingPages
    }
}

/// The stage after the attempt to send the pages.
pub open spec fn after_pages(flush: SharedFlush, ret: u64) -> Stage {
    if call_failed(ret) {
        Stage::Ended(Err(BinderError::SendSharedPages))
    } else {
        Stage::Awaiting(WaitStep::Receive(flush.ack_wait()))
    }
}

/// What a step of the wait means for the flush.
pub open spec fn after_wait(step: WaitStep) -> Stage {
    match step {
        WaitStep::Matched(_) => Stage::Presenting,
        WaitStep::TimedOut => Stage::Ended(Err(BinderError::SharedAttachAckTimeout)),
        _ => Stage::Awaiting(step),
    }
}

/// The stage after the attempt to send the present request.
pub open spec fn after_present(ret: u64) -> Stage {
    if call_failed(ret) {
        Stage::Ended(Err(BinderError::SendSharedPresent))
    } else {
        Stage::Ended(Ok(()))
    }
}

/// The surface of a picture: its first `total` pixels, opaque.
pub open spec fn shared_surface(pixels: Seq<u32>, total: int) -> Seq<u32> {
    Seq::new(total as nat, |k: int| opaque(pixels[k]))
}

/// The surface `before` after `pixels` have been copied to it and made opaque.
/// Where one is longer than the other, its rest is left alone.
pub open spec fn filled(before: Seq<u32>, pixels: Seq<u32>) -> Seq<u32> {
    Seq::new(
        before.len(),
        |k: int|
            if k < pixels.len() {
                opaque(pixels[k])
            } else {
                before[k]
            },
    )
}

/// Copies the picture to a surface and makes it opaque. Where one is longer than
/// the other, its rest is left alone.
pub fn fill_surface(dst: &mut [u32], pixels: &[u32])
    ensures
        final(dst)@ == filled(old(dst)@, pixels@),
        final(dst)@.len() == old(dst)@.len(),
        forall|k: int|
            0 <= k < old(dst)@.len() && k < pixels@.len() ==> #[trigger] final(dst)@[k] == pixels@[k]
                | 0xFF00_0000u32,
{
    let ghost start = dst@;
    let mut k: usize = 0;
    while k < dst.len() && k < pixels.len()
        invariant
            k <= dst@.len(),
            k <= pixels@.len(),
            dst@.len() == start.len(),
            forall|m: int| 0 <= m < k ==> dst@[m] == opaque(pixels@[m]),
            forall|m: int| 0 <= m < k ==> #[trigger] dst@[m] == pixels@[m] | 0xFF00_0000u32,
            forall|m: int| k <= m < start.len() ==> dst@[m] == start[m],
        decreases dst@.len() - k,
    {
        proof {
            lemma_opaque_keeps_colors(pixels@[k as int]);
        }
        dst[k] = make_opaque(pixels[k]);
        k = k + 1;
    }
    assert(dst@ =~= filled(start, pixels@));
}

/// Starts to show a picture through shared memory.
pub fn flush_window_shared(
    kagami_tid: u64,
    window_id: u32,
    width: u16,
    height: u16,
    pixels: &[u32],
) -> (step: SharedStep)
    ensures
        step.stage() == first_stage(width * height, pixels@.len() as int),
        step.serves((SharedFlush { kagami_tid, window_id, width, height })),
        (step is Allocate) == (pixels@.len() >= width * height && 4 * (width * height) <= usize::MAX
            && width > 0 && height > 0),
        (step matches SharedStep::Allocate { page_count, then } ==> {
            &&& page_count * 4096 >= 4 * (width * height)
            &&& (page_count - 1) * 4096 < 4 * (width * height)
            &&& then.flush == (SharedFlush { kagami_tid, window_id, width, height })
        }),
{
    let flush: SharedFlush = SharedFlush { kagami_tid, window_id, width, height };
    assert(width * height <= 65535 * 65535) by (nonlinear_arith)
        requires
            width <= 65535,
            height <= 65535,
    ;
    assert((width * height == 0) <==> (width == 0 || height == 0)) by (nonlinear_arith)
        requires
            width >= 0,
            height >= 0,
    ;
    let total: usize = width as usize * height as usize;
    if pixels.len() < total {
        return SharedStep::Done(Err(BinderError::PixelBufferTooSmall));
    }
    let total_bytes: usize = match total.checked_mul(4) {
        Some(bytes) => bytes,
        None => {
            return SharedStep::Done(Err(BinderError::SizeOverflow));
        },
    };
    let mut page_count: usize = total_bytes / PAGE_SIZE;
    if total_bytes % PAGE_SIZE != 0 {
        page_count = page_count + 1;
    }
    if page_count == 0 {
        return SharedStep::Done(Err(BinderError::PageCountOutOfRange));
    }
    SharedStep::Allocate { page_count, then: PagesRequested { flush } }
}

impl PagesRequested {
    /// Goes on after the allocation: `addr` is the address that it gave, and `pages`
    /// are the numbers of the pages.
    pub fn on_allocated(self, addr: u64, pages: Vec<u64>) -> (step: SharedStep)
        ensures
            step.stage() == after_allocation(addr),
            step.serves(self.flush),
            (step matches SharedStep::Fill { addr: at, then, .. } ==> at == addr && then.pages
                == pages),
            (step is Fill) == (addr != 0 && (addr as i64) >= 0),
    {
        proof {
            lemma_failures_are_negative(addr);
        }
        if is_failure(addr) || addr == 0 {
            return SharedStep::Done(Err(BinderError::AllocSharedPages));
        }
        assert(self.flush.width * self.flush.height <= 65535 * 65535) by (nonlinear_arith)
            requires
                self.flush.width <= 65535,
                self.flush.height <= 65535,
        ;
        let total: usize = self.flush.width as usize * self.flush.height as usize;
        SharedStep::Fill { addr, total, then: SurfaceAllocated { flush: self.flush, pages } }
    }
}

impl SurfaceAllocated {
    /// Goes on after the surface has been filled.
    pub fn on_filled(self) -> (step: SharedStep)
        ensures
            step.stage() == Stage::Attaching,
            step.serves(self.flush),
            (step matches SharedStep::SendAttach { to, message, then } ==> {
                &&& to == self.flush.kagami_tid
                &&& message@ == attach_message(
                    self.flush.window_id,
                    self.flush.width,
                    self.flush.height,
                )
                &&& then.flush == self.flush
                &&& then.pages == self.pages
            }),
    {
        let flush: SharedFlush = self.flush;
        SharedStep::SendAttach {
            to: flush.kagami_tid,
            message: encode_attach(flush.window_id, flush.width, flush.height),
            then: AttachSent { flush, pages: self.pages },
        }
    }
}

impl AttachSent {
    /// Goes on after the attempt to send the attach request.
    pub fn on_sent(self, ret: u64) -> (step: SharedStep)
        ensures
            step.stage() == after_attach(ret),
            step.serves(self.flush),
            (step matches SharedStep::SendPages { to, pages, then } ==> {
                &&& pages == self.pages
                &&& to == self.flush.kagami_tid
                &&& then.flush == self.flush
            }),
    {
        if is_failure(ret) {
            return SharedStep::Done(Err(BinderError::SendSharedAttach));
        }
        SharedStep::SendPages {
            to: self.flush.kagami_tid,
            pages: self.pages,
            then: PagesSent { flush: self.flush },
        }
    }
}

/// Starts to wait for the acknowledgement that the surface of a window has been
/// attached.
pub fn wait_shared_attach_ack(kagami_tid: u64, window_id: u32) -> (step: WaitStep)
    ensures
        step == WaitStep::Receive(
            (ReplyWait {
                kagami_tid,
                op: OP_RES_SHARED_ATTACHED,
                window_id: Some(window_id),
                attempts: REPLY_ATTEMPTS,
            }),
        ),
{
    ReplyWait::start(kagami_tid, OP_RES_SHARED_ATTACHED, Some(window_id))
}

fn on_wait_step(flush: SharedFlush, step: WaitStep) -> (next: SharedStep)
    ensures
        next.stage() == after_wait(step),
        next.serves(flush),
        (next is SendPresent) == (step is Matched),
{
    match step {
        WaitStep::Receive(wait) => SharedStep::Receive(AckWait { flush, wait }),
        WaitStep::Yield(wait) => SharedStep::Yield(AckWait { flush, wait }),
        WaitStep::Matched(_) => SharedStep::SendPresent {
            to: flush.kagami_tid,
            message: encode_present(flush.window_id),
            then: PresentSent { flush },
        },
        WaitStep::TimedOut => SharedStep::Done(Err(BinderError::SharedAttachAckTimeout)),
    }
}

impl PagesSent {
    /// Goes on after the attempt to send the pages.
    pub fn on_sent(self, ret: u64) -> (step: SharedStep)
        ensures
            step.stage() == after_pages(self.flush, ret),
            step.serves(self.flush),
    {
        if is_failure(ret) {
            return SharedStep::Done(Err(BinderError::SendSharedPages));
        }
        on_wait_step(
            self.flush,
            wait_shared_attach_ack(self.flush.kagami_tid, self.flush.window_id),
        )
    }
}

impl AckWait {
    /// Goes on after other processes have run.
    pub fn resume(self) -> (step: SharedStep)
        ensures
            step.stage() == after_wait(self.wait.ready()),
            step.serves(self.flush),
            (step matches SharedStep::SendPresent { to, message, then } ==> {
                &&& to == self.flush.kagami_tid
                &&& message@ == present_message(self.flush.window_id)
                &&& then.flush == self.flush
            }),
    {
        on_wait_step(self.flush, self.wait.resume())
    }

    /// Goes on after a message has been received into `buf`.
    pub fn on_message(self, sender: u64, len: usize, buf: &[u8]) -> (step: SharedStep)
        requires
            self.wait.attempts > 0,
            sender == self.wait.kagami_tid && len >= 8 ==> buf@.len() >= 8,
        ensures
            step.stage() == after_wait(self.wait.after((Incoming { sender, len, buf: buf@ }))),
            step.serves(self.flush),
            (step matches SharedStep::SendPresent { to, message, then } ==> {
                &&& to == self.flush.kagami_tid
                &&& message@ == present_message(self.flush.window_id)
                &&& then.flush == self.flush
            }),
    {
        on_wait_step(self.flush, self.wait.on_message(sender, len, buf))
    }
}

impl PresentSent {
    /// Goes on after the attempt to send the present request.
    pub fn on_sent(self, ret: u64) -> (step: SharedStep)
        ensures
            step.stage() == after_present(ret),
            (ret as i64) < 0 ==> step == SharedStep::Done(Err(BinderError::SendSharedPresent)),
            (ret as i64) >= 0 ==> step == SharedStep::Done(Ok(())),
    {
        proof {
            lemma_failures_are_negative(ret);
        }
        if is_failure(ret) {
            return SharedStep::Done(Err(BinderError::SendSharedPresent));
        }
        SharedStep::Done(Ok(()))
    }
}

/// The pages that are asked for hold the whole picture, four bytes for each pixel,
/// and none of them is superfluous.
pub proof fn lemma_pages_hold_picture(step: SharedStep, flush: SharedFlush)
    requires
        step.serves(flush),
        step is Allocate,
        flush.width > 0,
        flush.height > 0,
    ensures
        (step matches SharedStep::Allocate { page_count, .. } ==> {
            &&& page_count * 4096 >= 4 * (flush.width * flush.height)
            &&& (page_count - 1) * 4096 < 4 * (flush.width * flush.height)
        }),
{
}

/// The surface that is filled has a pixel for each pixel of the window, and fits in
/// the pages that were asked for.
pub proof fn lemma_surface_fits_pages(ask: SharedStep, fill: SharedStep, flush: SharedFlush)
    requires
        ask.serves(flush),
        fill.serves(flush),
        ask is Allocate,
        fill is Fill,
    ensures
        (fill matches SharedStep::Fill { total, .. } ==> {
            &&& total == flush.width * flush.height
            &&& ask matches SharedStep::Allocate { page_count, .. } ==> 4 * total <= page_count * 4096
        }),
{
}

/// What is sent goes to Kagami and names the window of the flush: the attach request
/// with the size of the window, and the present request.
pub proof fn lemma_requests_name_window(step: SharedStep, flush: SharedFlush)
    requires
        step.serves(flush),
    ensures
        (step matches SharedStep::SendAttach { to, message: m, .. } ==> {
            &&& to == flush.kagami_tid
            &&& m@.len() == 12
            &&& m@[0] + 0x100 * m@[1] + 0x1_0000 * m@[2] + 0x100_0000 * m@[3] == 5
            &&& m@[4] + 0x100 * m@[5] + 0x1_0000 * m@[6] + 0x100_0000 * m@[7] == flush.window_id
            &&& m@[8] + 0x100 * m@[9] == flush.width
            &&& m@[10] + 0x100 * m@[11] == flush.height
        }),
        (step matches SharedStep::SendPages { to, .. } ==> to == flush.kagami_tid),
        (step matches SharedStep::SendPresent { to, message: m, .. } ==> {
            &&& to == flush.kagami_tid
            &&& m@.len() == 8
            &&& m@[0] + 0x100 * m@[1] + 0x1_0000 * m@[2] + 0x100_0000 * m@[3] == 6
            &&& m@[4] + 0x100 * m@[5] + 0x1_0000 * m@[6] + 0x100_0000 * m@[7] == flush.window_id
        }),
{
    lemma_attach_message_names_surface(flush.window_id, flush.width, flush.height);
    lemma_present_message_names_window(flush.window_id);
}

/// The stage of a flush is that of the step it asks for.
pub proof fn lemma_stage_names_step(step: SharedStep)
    ensures
        step.stage() is Allocating <==> step is Allocate,
        step.stage() is Filling <==> step is Fill,
        step.stage() is Attaching <==> step is SendAttach,
        step.stage() is SendingPages <==> step is SendPages,
        step.stage() is Presenting <==> step is SendPresent,
        (step.stage() matches Stage::Awaiting(wait) ==> match wait {
            WaitStep::Receive(w) => step matches SharedStep::Receive(ack) && ack.wait == w,
            WaitStep::Yield(w) => step matches SharedStep::Yield(ack) && ack.wait == w,
            _ => false,
        }),
        (step.stage() matches Stage::Ended(result) ==> step == SharedStep::Done(result)),
{
}

/// A flush remains the flush of its window from step to step.
pub proof fn lemma_flush_is_kept(step: SharedStep, flush: SharedFlush)
    requires
        step.serves(flush),
    ensures
        (step matches SharedStep::Allocate { then, .. } ==> then.flush == flush),
        (step matches SharedStep::Fill { then, .. } ==> then.flush == flush),
        (step matches SharedStep::SendAttach { then, .. } ==> then.flush == flush),
        (step matches SharedStep::SendPages { then, .. } ==> then.flush == flush),
        (step matches SharedStep::Receive(w) ==> w.flush == flush),
        (step matches SharedStep::Yield(w) ==> w.flush == flush),
        (step matches SharedStep::SendPresent { then, .. } ==> then.flush == flush),
{
}

/// How a flush begins: the picture must have a pixel for every pixel of the window,
/// its size in bytes must be a machine number, and the window must not be empty.
pub proof fn lemma_first_stage(width: u16, height: u16, len: int)
    ensures
        ({
            let stage = first_stage(width * height, len);
            &&& len < width * height ==> stage == Stage::Ended(Err(BinderError::PixelBufferTooSmall))
            &&& len >= width * height && 4 * (width * height) > usize::MAX ==> stage == Stage::Ended(
                Err(BinderError::SizeOverflow),
            )
            &&& len >= width * height && (width == 0 || height == 0) ==> stage == Stage::Ended(
                Err(BinderError::PageCountOutOfRange),
            )
            &&& len >= width * height && 4 * (width * height) <= usize::MAX && width > 0 && height > 0
                ==> stage == Stage::Allocating
        }),
{
    assert((width * height == 0) <==> (width == 0 || height == 0)) by (nonlinear_arith)
        requires
            width >= 0,
            height >= 0,
    ;
}

/// How a flush goes on after each of its calls: a negative result, and the address
/// zero, end it with the call's own error, and any other result leads to the next
/// call. The acknowledgement is waited for from Kagami, for the flush's window, over
/// 256 messages.
pub proof fn lemma_stages_follow(flush: SharedFlush, ret: u64)
    ensures
        (ret as i64) < 0 || ret == 0 ==> after_allocation(ret) == Stage::Ended(
            Err(BinderError::AllocSharedPages),
        ),
        (ret as i64) >= 0 && ret != 0 ==> after_allocation(ret) == Stage::Filling,
        (ret as i64) < 0 ==> {
            &&& after_attach(ret) == Stage::Ended(Err(BinderError::SendSharedAttach))
            &&& after_pages(flush, ret) == Stage::Ended(Err(BinderError::SendSharedPages))
            &&& after_present(ret) == Stage::Ended(Err(BinderError::SendSharedPresent))
        },
        (ret as i64) >= 0 ==> {
            &&& after_attach(ret) == Stage::SendingPages
            &&& after_pages(flush, ret) == Stage::Awaiting(
                WaitStep::Receive(
                    (ReplyWait {
                        kagami_tid: flush.kagami_tid,
                        op: 7,
                        window_id: Some(flush.window_id),
                        attempts: 256,
                    }),
                ),
            )
            &&& after_present(ret) == Stage::Ended(Ok(()))
        },
{
    lemma_failures_are_negative(ret);
    assert(ret == 0 ==> !((ret as i64) < 0)) by (bit_vector);
}

/// What a step of the wait means: only the acknowledgement leads to the request to
/// show the surface.
pub proof fn lemma_flush_follows_wait(wait: ReplyWait, window_id: u32)
    ensures
        after_wait(WaitStep::Matched(window_id)) == Stage::Presenting,
        after_wait(WaitStep::TimedOut) == Stage::Ended(Err(BinderError::SharedAttachAckTimeout)),
        after_wait(WaitStep::Receive(wait)) == Stage::Awaiting(WaitStep::Receive(wait)),
        after_wait(WaitStep::Yield(wait)) == Stage::Awaiting(WaitStep::Yield(wait)),
{
}

/// A filled surface has the pixels of the picture with their alpha bits set, and
/// its own pixels where the picture has none.
pub proof fn lemma_filled_pixel(before: Seq<u32>, pixels: Seq<u32>, k: int)
    requires
        0 <= k < before.len(),
    ensures
        filled(before, pixels).len() == before.len(),
        k < pixels.len() ==> filled(before, pixels)[k] == pixels[k] | 0xFF00_0000u32,
        k >= pixels.len() ==> filled(before, pixels)[k] == before[k],
{
    if k < pixels.len() {
        lemma_opaque_keeps_colors(pixels[k]);
    }
}

/// The surface of a picture has the colours of the picture, each with its alpha
/// bits set.
pub proof fn lemma_surface_pixel(pixels: Seq<u32>, total: int, k: int)
    requires
        0 <= k < total,
    ensures
        shared_surface(pixels, total).len() == total,
        shared_surface(pixels, total)[k] == pixels[k] | 0xFF00_0000u32,
{
    lemma_opaque_keeps_colors(pixels[k]);
}

/// What the world answers in the course of a flush: the address of the allocated
/// pages, the results of the attempts to send, and the messages that arrive while the
/// acknowledgement is waited for.
pub struct Answers {
    pub addr: u64,
    pub attach: u64,
    pub pages: u64,
    pub inbox: Seq<Incoming>,
    pub present: u64,
}

/// How a flush ends from a stage on; `None` when it still waits for the
/// acknowledgement after the last message.
pub open spec fn shared_outcome(flush: SharedFlush, stage: Stage, answers: Answers) -> Option<
    Result<(), BinderError>,
>
    decreases
            answers.inbox.len(),
            (match stage {
                Stage::Allocating => 7int,
                Stage::Filling => 6,
                Stage::Attaching => 5,
                Stage::SendingPages => 4,
                Stage::Awaiting(WaitStep::Yield(_)) => 3,
                Stage::Awaiting(_) => 2,
                Stage::Presenting => 1,
                Stage::Ended(_) => 0,
            }),
{
    match stage {
        Stage::Allocating => shared_outcome(flush, after_allocation(answers.addr), answers),
        Stage::Filling => shared_outcome(flush, Stage::Attaching, answers),
        Stage::Attaching => shared_outcome(flush, after_attach(answers.attach), answers),
        Stage::SendingPages => shared_outcome(flush, after_pages(flush, answers.pages), answers),
        Stage::Awaiting(WaitStep::Receive(wait)) => if answers.inbox.len() == 0 {
            None
        } else {
            shared_outcome(
                flush,
                after_wait(wait.after(answers.inbox[0])),
                Answers { inbox: answers.inbox.drop_first(), ..answers },
            )
        },
        Stage::Awaiting(WaitStep::Yield(wait)) => shared_outcome(
            flush,
            after_wait(wait.ready()),
            answers,
        ),
        Stage::Awaiting(_) => None,
        Stage::Presenting => shared_outcome(flush, after_present(answers.present), answers),
        Stage::Ended(result) => Some(result),
    }
}

proof fn lemma_wait_decides(flush: SharedFlush, step: WaitStep, answers: Answers)
    ensures
        shared_outcome(flush, after_wait(step), answers) == (match wait_outcome(
            step,
            answers.inbox,
        ) {
            None => None::<Result<(), BinderError>>,
            Some(None) => Some(Err(BinderError::SharedAttachAckTimeout)),
            Some(Some(_)) => if call_failed(answers.present) {
                Some(Err(BinderError::SendSharedPresent))
            } else {
                Some(Ok(()))
            },
        }),
    decreases answers.inbox.len(), (if step is Yield { 1int } else { 0int }),
{
    reveal_with_fuel(shared_outcome, 3);
    match step {
        WaitStep::Yield(wait) => lemma_wait_decides(flush, wait.ready(), answers),
        WaitStep::Receive(wait) => if answers.inbox.len() > 0 {
            lemma_wait_decides(
                flush,
                wait.after(answers.inbox[0]),
                Answers { inbox: answers.inbox.drop_first(), ..answers },
            );
        },
        _ => {},
    }
}

/// The pages have been allocated, and the attach request and the pages have been
/// sent.
pub open spec fn handed_over(answers: Answers) -> bool {
    &&& !call_failed(answers.addr)
    &&& answers.addr != 0
    &&& !call_failed(answers.attach)
    &&& !call_failed(answers.pages)
}

proof fn lemma_handed_over_waits(flush: SharedFlush, answers: Answers)
    requires
        handed_over(answers),
    ensures
        shared_outcome(flush, Stage::Allocating, answers) == shared_outcome(
            flush,
            Stage::Awaiting(WaitStep::Receive(flush.ack_wait())),
            answers,
        ),
{
    reveal_with_fuel(shared_outcome, 5);
}

/// When the surface has been handed over and Kagami's acknowledgement is among the
/// messages looked at, the surface is shown, unless the request to show it cannot be
/// sent.
pub proof fn lemma_acknowledged_surface_is_shown(flush: SharedFlush, answers: Answers, at: int)
    requires
        handed_over(answers),
        answered_at(flush.ack_wait(), answers.inbox, at),
    ensures
        shared_outcome(flush, Stage::Allocating, answers) == Some(
            if call_failed(answers.present) {
                Err(BinderError::SendSharedPresent)
            } else {
                Ok(())
            },
        ),
{
    lemma_handed_over_waits(flush, answers);
    lemma_first_reply_decides(flush.ack_wait(), answers.inbox, at);
    lemma_wait_decides(flush, WaitStep::Receive(flush.ack_wait()), answers);
}

/// Without an acknowledgement among the messages looked at, the flush of a surface
/// that has been handed over times out.
pub proof fn lemma_unacknowledged_surface_times_out(flush: SharedFlush, answers: Answers)
    requires
        handed_over(answers),
        answers.inbox.len() >= REPLY_ATTEMPTS,
        forall|n: int|
            0 <= n < REPLY_ATTEMPTS ==> !flush.ack_wait().accepts(#[trigger] answers.inbox[n]),
    ensures
        shared_outcome(flush, Stage::Allocating, answers) == Some(
            Err::<(), BinderError>(BinderError::SharedAttachAckTimeout),
        ),
{
    lemma_handed_over_waits(flush, answers);
    lemma_timeout_without_reply(flush.ack_wait(), answers.inbox);
    lemma_wait_decides(flush, WaitStep::Receive(flush.ack_wait()), answers);
}

/// A surface that is not handed over is not shown: the first of its steps that
/// fails gives the error.
pub proof fn lemma_failed_hand_over(flush: SharedFlush, answers: Answers)
    requires
        !handed_over(answers),
    ensures
        shared_outcome(flush, Stage::Allocating, answers) == Some(
            if call_failed(answers.addr) || answers.addr == 0 {
                Err::<(), BinderError>(BinderError::AllocSharedPages)
            } else if call_failed(answers.attach) {
                Err(BinderError::SendSharedAttach)
            } else {
                Err(BinderError::SendSharedPages)
            },
        ),
{
    reveal_with_fuel(shared_outcome, 5);
}

/// A flush succeeds only if the surface has been handed over, Kagami has
/// acknowledged it, and the request to show it has been sent.
pub proof fn lemma_success_needs_acknowledgement(flush: SharedFlush, answers: Answers)
    requires
        shared_outcome(flush, Stage::Allocating, answers) == Some(Ok::<(), BinderError>(())),
    ensures
        handed_over(answers),
        exists|at: int| answered_at(flush.ack_wait(), answers.inbox, at),
        !call_failed(answers.present),
{
    if !handed_over(answers) {
        lemma_failed_hand_over(flush, answers);
    }
    lemma_handed_over_waits(flush, answers);
    lemma_wait_decides(flush, WaitStep::Receive(flush.ack_wait()), answers);
    let outcome = wait_outcome(WaitStep::Receive(flush.ack_wait()), answers.inbox);
    lemma_answer_is_a_reply(flush.ack_wait(), answers.inbox, outcome->0->0);
}

/// Both ways to show a picture show the same: the message for a tile holds, for
/// each pixel of the tile, the colour that the shared surface has there.
pub proof fn lemma_both_flushes_show_the_same(
    flush: ChunkedFlush,
    x: int,
    y: int,
    i: int,
    j: int,
)
    requires
        flush.wf(),
        in_window(flush.width as int, flush.height as int, x, y),
        covers(tile_at(flush.width as int, flush.height as int, x, y), i, j),
    ensures
        ({
            let t = tile_at(flush.width as int, flush.height as int, x, y);
            let surface = shared_surface(flush.pixels@, flush.width * flush.height);
            &&& 0 <= j * flush.width + i < surface.len()
            &&& le32_at(flush.message_at(x, y), pixel_position(t, i, j)) == surface[j * flush.width
                + i]
        }),
{
    let (width, height) = (flush.width as int, flush.height as int);
    lemma_chunk_message_holds_pixel(flush, x, y, i, j);
    lemma_tile_size(width, height, x, y);
    lemma_source_index(width, height, i, j);
}

/// Filling a surface of the window's size gives the surface of the picture.
pub proof fn lemma_filled_surface(before: Seq<u32>, pixels: Seq<u32>, total: int)
    requires
        before.len() == total <= pixels.len(),
    ensures
        filled(before, pixels) == shared_surface(pixels, total),
{
    assert(filled(before, pixels) =~= shared_surface(pixels, total));
}

} // verus!
