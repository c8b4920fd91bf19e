use binder::chunked::{encode_chunk, flush_window_chunked, ChunkStep, ChunkedFlush};
use binder::desktop::render_desktop;
use binder::error::{is_failure, BinderError};
use binder::reply::{ReplyWait, WaitStep};
use binder::shared::{fill_surface, flush_window_shared, wait_shared_attach_ack, AckWait, SharedStep};
use binder::window::{create_app_window, CreateStep, CreateWait};
use binder::wire::{
    encode_attach, encode_create_window, encode_present, make_opaque, push_u16, push_u32, read_u32, IPC_BUF_SIZE,
};

const FAILED: u64 = u64::MAX;

fn reply(op: u32, window: u32) -> Vec<u8> {
    let mut buf = vec![0u8; IPC_BUF_SIZE];
    buf[0..4].copy_from_slice(&op.to_le_bytes());
    buf[4..8].copy_from_slice(&window.to_le_bytes());
    buf
}

fn u16_at(msg: &[u8], at: usize) -> usize {
    u16::from_le_bytes([msg[at], msg[at + 1]]) as usize
}

#[test]
fn numbers_are_little_endian() {
    for v in [0u32, 1, 0x1234_5678, u32::MAX] {
        let mut msg = vec![9u8];
        push_u32(&mut msg, v);
        assert_eq!(&msg[1..], &v.to_le_bytes());
        assert_eq!(read_u32(&msg, 1), v);
    }
    for v in [0u16, 0xABCD, u16::MAX] {
        let mut msg = Vec::new();
        push_u16(&mut msg, v);
        assert_eq!(msg, v.to_le_bytes());
    }
}

#[test]
fn requests() {
    assert_eq!(encode_create_window(1280, 800), [1, 0, 0, 0, 0x00, 0x05, 0x20, 0x03, 0]);
    assert_eq!(encode_attach(0x0102_0304, 1280, 800), [5, 0, 0, 0, 4, 3, 2, 1, 0x00, 0x05, 0x20, 0x03]);
    assert_eq!(encode_present(0x0102_0304), [6, 0, 0, 0, 4, 3, 2, 1]);
}

#[test]
fn colours_become_opaque() {
    assert_eq!(make_opaque(0), 0xFF00_0000);
    assert_eq!(make_opaque(0xEAF6_F8FC), 0xFFF6_F8FC);
    assert_eq!(make_opaque(0xFFFF_FFFF), 0xFFFF_FFFF);
}

#[test]
fn negative_results_are_failures() {
    assert!(!is_failure(0));
    assert!(!is_failure(i64::MAX as u64));
    assert!(is_failure(1 << 63));
    assert!(is_failure(u64::MAX));
}

#[test]
fn error_texts() {
    let texts = [
        (BinderError::SendCreateWindow, "send create_window failed"),
        (BinderError::WindowCreateTimeout, "window create timeout"),
        (BinderError::PixelBufferTooSmall, "pixel buffer too small"),
        (BinderError::SizeOverflow, "size overflow"),
        (BinderError::PageCountOutOfRange, "shared surface page count out of range"),
        (BinderError::AllocSharedPages, "alloc_shared_pages failed"),
        (BinderError::SendSharedAttach, "failed to send shared attach"),
        (BinderError::SendSharedPages, "failed to send shared pages"),
        (BinderError::SharedAttachAckTimeout, "shared attach ack timeout"),
        (BinderError::SendSharedPresent, "failed to send shared present"),
        (BinderError::SendFlushChunk, "send flush chunk failed"),
    ];
    for (error, text) in texts {
        assert_eq!(error.message(), text);
    }
}

fn start_create(ret: u64) -> CreateStep {
    match create_app_window(42, 1280, 800) {
        CreateStep::Send { to, message, then } => {
            assert_eq!(to, 42);
            assert_eq!(message, [1, 0, 0, 0, 0x00, 0x05, 0x20, 0x03, 0]);
            then.on_sent(ret)
        }
        other => panic!("{:?}", other),
    }
}

fn create_wait() -> CreateWait {
    match start_create(0) {
        CreateStep::Receive(wait) => wait,
        other => panic!("{:?}", other),
    }
}

#[test]
fn create_fails_when_the_request_is_not_sent() {
    assert!(matches!(start_create(FAILED), CreateStep::Done(Err(BinderError::SendCreateWindow))));
}

#[test]
fn create_takes_the_window_of_the_answer() {
    let step = create_wait().on_message(42, 8, &reply(2, 77));
    assert!(matches!(step, CreateStep::Done(Ok(77))));
}

#[test]
fn create_yields_to_strangers_and_skips_other_replies() {
    let wait = create_wait();
    let wait = match wait.on_message(41, 8, &reply(2, 1)) {
        CreateStep::Yield(wait) => match wait.resume() {
            CreateStep::Receive(wait) => wait,
            other => panic!("{:?}", other),
        },
        other => panic!("{:?}", other),
    };
    let wait = match wait.on_message(42, 7, &reply(2, 2)) {
        CreateStep::Yield(wait) => match wait.resume() {
            CreateStep::Receive(wait) => wait,
            other => panic!("{:?}", other),
        },
        other => panic!("{:?}", other),
    };
    let wait = match wait.on_message(42, 8, &reply(7, 3)) {
        CreateStep::Receive(wait) => wait,
        other => panic!("{:?}", other),
    };
    assert!(matches!(wait.on_message(42, 4128, &reply(2, 4)), CreateStep::Done(Ok(4))));
}

#[test]
fn create_times_out_after_the_last_attempt() {
    let mut step = start_create(0);
    let mut received = 0;
    let result = loop {
        step = match step {
            CreateStep::Receive(wait) => {
                received += 1;
                wait.on_message(if received % 2 == 0 { 42 } else { 0 }, 8, &reply(9, 1))
            }
            CreateStep::Yield(wait) => wait.resume(),
            CreateStep::Done(result) => break result,
            other => panic!("{:?}", other),
        };
    };
    assert_eq!(received, 256);
    assert_eq!(result, Err(BinderError::WindowCreateTimeout));
}

#[test]
fn last_attempt_can_still_be_answered() {
    let wait = ReplyWait { kagami_tid: 42, op: 2, window_id: None, attempts: 1 };
    assert_eq!(wait.on_message(42, 8, &reply(2, 5)), WaitStep::Matched(5));
    assert_eq!(wait.on_message(42, 8, &reply(3, 5)), WaitStep::TimedOut);
    let stranger = wait.on_message(43, 8, &reply(2, 5));
    match stranger {
        WaitStep::Yield(rest) => assert_eq!(rest.resume(), WaitStep::TimedOut),
        other => panic!("{:?}", other),
    }
}

#[test]
fn short_buffers_of_strangers_are_not_read() {
    let wait = ReplyWait { kagami_tid: 42, op: 2, window_id: None, attempts: 9 };
    assert!(matches!(wait.on_message(1, 8, &[]), WaitStep::Yield(_)));
    assert!(matches!(wait.on_message(42, 0, &[]), WaitStep::Yield(_)));
}

#[test]
fn acknowledgement_is_for_the_window() {
    let wait = match wait_shared_attach_ack(42, 5) {
        WaitStep::Receive(wait) => wait,
        other => panic!("{:?}", other),
    };
    assert_eq!(wait.attempts, 256);
    assert!(matches!(wait.on_message(42, 8, &reply(7, 6)), WaitStep::Receive(_)));
    assert!(matches!(wait.on_message(42, 8, &reply(2, 5)), WaitStep::Receive(_)));
    assert_eq!(wait.on_message(42, 8, &reply(7, 5)), WaitStep::Matched(5));
}

fn shared_error(step: SharedStep) -> BinderError {
    match step {
        SharedStep::Done(Err(e)) => e,
        other => panic!("{:?}", other),
    }
}

fn ack_wait(px: &[u32]) -> AckWait {
    let then = match flush_window_shared(42, 5, 64, 17, px) {
        SharedStep::Allocate { page_count, then } => {
            assert_eq!(page_count, 2);
            then
        }
        other => panic!("{:?}", other),
    };
    assert_eq!(shared_error(then.on_allocated(0, vec![1, 2])), BinderError::AllocSharedPages);
    assert_eq!(shared_error(then.on_allocated(FAILED, vec![1, 2])), BinderError::AllocSharedPages);
    let sent = || match then.on_allocated(0x1000, vec![1, 2]) {
        SharedStep::Fill { addr, total, then } => {
            assert_eq!((addr, total), (0x1000, 64 * 17));
            match then.on_filled() {
                SharedStep::SendAttach { to, message, then } => {
                    assert_eq!(to, 42);
                    assert_eq!(message, [5, 0, 0, 0, 5, 0, 0, 0, 64, 0, 17, 0]);
                    then
                }
                other => panic!("{:?}", other),
            }
        }
        other => panic!("{:?}", other),
    };
    assert_eq!(shared_error(sent().on_sent(FAILED)), BinderError::SendSharedAttach);
    let then = match sent().on_sent(0) {
        SharedStep::SendPages { to, pages, then } => {
            assert_eq!((to, pages), (42, vec![1, 2]));
            then
        }
        other => panic!("{:?}", other),
    };
    assert_eq!(shared_error(then.on_sent(FAILED)), BinderError::SendSharedPages);
    match then.on_sent(0) {
        SharedStep::Receive(wait) => wait,
        other => panic!("{:?}", other),
    }
}

#[test]
fn shared_flush_presents_after_the_acknowledgement() {
    let wait = ack_wait(&vec![0; 64 * 17]);
    assert!(matches!(wait.on_message(42, 8, &reply(7, 6)), SharedStep::Receive(_)));
    match wait.on_message(1, 8, &reply(7, 5)) {
        SharedStep::Yield(rest) => assert!(matches!(rest.resume(), SharedStep::Receive(_))),
        other => panic!("{:?}", other),
    }
    match wait.on_message(42, 8, &reply(7, 5)) {
        SharedStep::SendPresent { to, message, then } => {
            assert_eq!(to, 42);
            assert_eq!(message, [6, 0, 0, 0, 5, 0, 0, 0]);
            assert_eq!(shared_error(then.on_sent(FAILED)), BinderError::SendSharedPresent);
            assert!(matches!(then.on_sent(0), SharedStep::Done(Ok(()))));
        }
        other => panic!("{:?}", other),
    }
}

#[test]
fn shared_flush_times_out_without_acknowledgement() {
    let mut step = SharedStep::Receive(ack_wait(&vec![0; 64 * 17]));
    let mut received = 0;
    let error = loop {
        step = match step {
            SharedStep::Receive(wait) => {
                received += 1;
                wait.on_message(42, 8, &reply(7, 6))
            }
            other => break shared_error(other),
        };
    };
    assert_eq!((received, error), (256, BinderError::SharedAttachAckTimeout));
}

#[test]
fn shared_flush_checks_its_input() {
    assert_eq!(shared_error(flush_window_shared(1, 1, 3, 3, &[0; 8])), BinderError::PixelBufferTooSmall);
    assert_eq!(shared_error(flush_window_shared(1, 1, 0, 3, &[])), BinderError::PageCountOutOfRange);
    for (w, h, pages) in [(1u16, 1u16, 1usize), (32, 32, 1), (32, 33, 2), (1280, 800, 1000)] {
        let px = vec![0u32; w as usize * h as usize];
        match flush_window_shared(1, 1, w, h, &px) {
            SharedStep::Allocate { page_count, .. } => assert_eq!(page_count, pages),
            other => panic!("{:?}", other),
        }
    }
}

#[test]
fn surface_is_filled_as_far_as_both_go() {
    let mut dst = [1u32, 2, 3];
    fill_surface(&mut dst, &[0x00AA_BBCC, 0x8011_2233]);
    assert_eq!(dst, [0xFFAA_BBCC, 0xFF11_2233, 3]);
    let mut dst = [1u32];
    fill_surface(&mut dst, &[5, 6, 7]);
    assert_eq!(dst, [0xFF00_0005]);
}

fn send_all(width: u16, height: u16, px: &[u32]) -> (Vec<Vec<u8>>, Result<(), BinderError>) {
    let mut messages = Vec::new();
    let mut step = flush_window_chunked(42, 9, width, height, px);
    loop {
        step = match step {
            ChunkStep::Send { to, message, then } => {
                assert_eq!(to, 42);
                messages.push(message);
                then.on_sent(0)
            }
            ChunkStep::Done(result) => return (messages, result),
        };
    }
}

#[test]
fn chunk_message_bytes() {
    let px: Vec<u32> = (0..6).collect();
    let (messages, result) = send_all(3, 2, &px);
    assert_eq!(result, Ok(()));
    assert_eq!(messages.len(), 1);
    let mut expected = vec![4, 0, 0, 0, 9, 0, 0, 0, 3, 0, 2, 0, 0, 0, 0, 0, 3, 0, 2, 0];
    for v in 0..6u8 {
        expected.extend([v, 0, 0, 0xFF]);
    }
    assert_eq!(messages[0], expected);
    let flush = ChunkedFlush { kagami_tid: 42, window_id: 9, width: 3, height: 2, pixels: &px };
    assert_eq!(encode_chunk(flush, 0, 0), expected);
}

#[test]
fn chunks_tile_the_window_and_show_what_the_surface_shows() {
    for (w, h) in [(1u16, 2000u16), (95, 25), (96, 21), (97, 10), (250, 33), (1280, 37)] {
        let total = w as usize * h as usize;
        let px: Vec<u32> = (0..total as u32).map(|k| k.wrapping_mul(0x9E37_79B9)).collect();
        let mut surface = vec![0u32; total];
        fill_surface(&mut surface, &px);
        let mut shown = vec![0u32; total];
        let mut times = vec![0u32; total];
        let (messages, result) = send_all(w, h, &px);
        assert_eq!(result, Ok(()));
        for msg in &messages {
            assert!(msg.len() <= IPC_BUF_SIZE);
            assert_eq!((u16_at(msg, 8), u16_at(msg, 10)), (w as usize, h as usize));
            let (x, y, cw, ch) = (u16_at(msg, 12), u16_at(msg, 14), u16_at(msg, 16), u16_at(msg, 18));
            assert_eq!(msg.len(), 20 + 4 * cw * ch);
            for row in 0..ch {
                for col in 0..cw {
                    let at = (y + row) * w as usize + x + col;
                    shown[at] = read_u32(msg, 20 + 4 * (row * cw + col));
                    times[at] += 1;
                }
            }
        }
        assert!(times.iter().all(|n| *n == 1));
        assert_eq!(shown, surface);
    }
}

#[test]
fn chunk_sizes() {
    let px = vec![0u32; 1280 * 800];
    let (messages, _) = send_all(1280, 800, &px);
    assert_eq!(messages.len(), 14 * 80);
    assert_eq!(messages[0].len(), 20 + 4 * 96 * 10);
    assert_eq!(messages[13].len(), 20 + 4 * 32 * 10);
    let (messages, _) = send_all(1, 1028, &px);
    assert_eq!(messages[0].len(), IPC_BUF_SIZE);
    assert_eq!(messages[1].len(), 24);
}

#[test]
fn chunked_flush_checks_its_input() {
    match flush_window_chunked(1, 1, 3, 3, &[0; 8]) {
        ChunkStep::Done(result) => assert_eq!(result, Err(BinderError::PixelBufferTooSmall)),
        ChunkStep::Send { .. } => panic!("sent"),
    }
    assert_eq!(send_all(0, 9, &[]), (vec![], Ok(())));
    assert_eq!(send_all(9, 0, &[]), (vec![], Ok(())));
}

#[test]
fn chunked_flush_stops_at_a_failure() {
    let px = vec![0u32; 300 * 30];
    let mut step = flush_window_chunked(1, 1, 300, 30, &px);
    let mut sent = 0;
    let result = loop {
        step = match step {
            ChunkStep::Send { then, .. } => {
                sent += 1;
                then.on_sent(if sent == 6 { 1 << 63 } else { i64::MAX as u64 })
            }
            ChunkStep::Done(result) => break result,
        };
    };
    assert_eq!((sent, result), (6, Err(BinderError::SendFlushChunk)));
}

#[test]
fn rendered_desktop_fits_its_window() {
    let px = render_desktop(301, 97);
    assert!(matches!(flush_window_shared(1, 1, 301, 97, &px), SharedStep::Allocate { .. }));
    assert_eq!(send_all(301, 97, &px).1, Ok(()));
}
