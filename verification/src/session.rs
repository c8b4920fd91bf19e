//! The course of the program: find Kagami, create a window, show the desktop in it,
//! and stay until the escape key is used.
#[allow(unused_imports)]
use crate::chunked::ChunkedFlush;
#[allow(unused_imports)]
use crate::desktop::{desktop_picture, picture_size};
use crate::error::BinderError;
#[allow(unused_imports)]
use crate::shared::{first_stage, Stage};
#[allow(unused_imports)]
use crate::startup::window_length;
use vstd::prelude::*;

verus! {

/// Why the program ends without having shown the desktop.
#[derive(Clone, Copy, Debug, PartialEq, Eq)]
pub enum Failure {
    KagamiNotFound,
    CreateWindow(BinderError),
    Flush(BinderError),
}

/// What to do next.
#[derive(Clone, Copy, Debug, PartialEq, Eq)]
pub enum SessionStep {
    /// Create a window at the process `tid`.
    CreateWindow { tid: u64 },
    /// Show the desktop in the window through shared memory.
    FlushShared { tid: u64, window_id: u32 },
    /// Shared memory has failed: send the desktop in chunks.
    FlushChunked { tid: u64, window_id: u32, cause: BinderError },
    /// The desktop is shown: watch the keyboard.
    Watch,
    /// End the program.
    Quit(Failure),
}

/// The step after the search for Kagami.
pub open spec fn after_search(tid: Option<u64>) -> SessionStep {
    match tid {
        Some(tid) => SessionStep::CreateWindow { tid },
        None => SessionStep::Quit(Failure::KagamiNotFound),
    }
}

/// The step after the creation of the window.
pub open spec fn after_create(tid: u64, created: Result<u32, BinderError>) -> SessionStep {
    match created {
        Ok(window_id) => SessionStep::FlushShared { tid, window_id },
        Err(e) => SessionStep::Quit(Failure::CreateWindow(e)),
    }
}

/// The step after the flush through shared memory.
pub open spec fn after_shared(
    tid: u64,
    window_id: u32,
    flushed: Result<(), BinderError>,
) -> SessionStep {
    match flushed {
        Ok(_) => SessionStep::Watch,
        Err(cause) => SessionStep::FlushChunked { tid, window_id, cause },
    }
}

/// The step after the flush in chunks.
pub open spec fn after_chunked(flushed: Result<(), BinderError>) -> SessionStep {
    match flushed {
        Ok(_) => SessionStep::Watch,
        Err(e) => SessionStep::Quit(Failure::Flush(e)),
    }
}

/// Goes on after the search for Kagami.
pub fn on_search(tid: Option<u64>) -> (step: SessionStep)
    ensures
        step == after_search(tid),
        tid is None ==> step == SessionStep::Quit(Failure::KagamiNotFound),
        (tid matches Some(found) ==> step == (SessionStep::CreateWindow { tid: found })),
{
    match tid {
        Some(tid) => SessionStep::CreateWindow { tid },
        None => SessionStep::Quit(Failure::KagamiNotFound),
    }
}

/// Goes on after the attempt to create a window.
pub fn on_created(tid: u64, created: Result<u32, BinderError>) -> (step: SessionStep)
    ensures
        step == after_create(tid, created),
        (created matches Ok(window_id) ==> step == (SessionStep::FlushShared { tid, window_id })),
        (created matches Err(e) ==> step == SessionStep::Quit(Failure::CreateWindow(e))),
{
    match created {
        Ok(window_id) => SessionStep::FlushShared { tid, window_id },
        Err(e) => SessionStep::Quit(Failure::CreateWindow(e)),
    }
}

/// Goes on after the flush through shared memory: a failure leads to the flush in
/// chunks.
pub fn on_shared_flush(tid: u64, window_id: u32, flushed: Result<(), BinderError>) -> (step:
    SessionStep)
    ensures
        step == after_shared(tid, window_id, flushed),
        flushed is Ok ==> step == SessionStep::Watch,
        (flushed matches Err(cause) ==> step == (SessionStep::FlushChunked {
            tid,
            window_id,
            cause,
        })),
{
    match flushed {
        Ok(_) => SessionStep::Watch,
        Err(cause) => SessionStep::FlushChunked { tid, window_id, cause },
    }
}

/// Goes on after the flush in chunks.
pub fn on_chunked_flush(flushed: Result<(), BinderError>) -> (step: SessionStep)
    ensures
        step == after_chunked(flushed),
        flushed is Ok ==> step == SessionStep::Watch,
        (flushed matches Err(e) ==> step == SessionStep::Quit(Failure::Flush(e))),
{
    match flushed {
        Ok(_) => SessionStep::Watch,
        Err(e) => SessionStep::Quit(Failure::Flush(e)),
    }
}

/// What to do next while the desktop is shown.
#[derive(Clone, Copy, Debug, PartialEq, Eq)]
pub enum KeyStep {
    /// Read the keyboard itself.
    ReadKeyboard,
    /// Let other processes run, then look again.
    Yield,
    /// End the program.
    Exit,
}

/// Pressing or releasing the escape key ends the program.
pub open spec fn is_exit_key(scancode: u8) -> bool {
    scancode == 0x01 || scancode == 0x81
}

/// The step for a key that was read, or none.
pub open spec fn after_key(key: Option<u8>) -> KeyStep {
    match key {
        Some(scancode) => if is_exit_key(scancode) {
            KeyStep::Exit
        } else {
            KeyStep::Yield
        },
        None => KeyStep::Yield,
    }
}

/// Goes on after the tap on the keyboard has been read: a key that it gives
/// decides, and without one the keyboard itself is read.
pub fn on_tap(tap: Result<Option<u8>, ()>) -> (step: KeyStep)
    ensures
        step == (match tap {
            Ok(Some(scancode)) => after_key(Some(scancode)),
            _ => KeyStep::ReadKeyboard,
        }),
        (step is Exit) == (tap == Ok::<Option<u8>, ()>(Some(0x01u8)) || tap == Ok::<Option<u8>, ()>(
            Some(0x81u8),
        )),
        (step is ReadKeyboard) == (tap is Err || tap == Ok::<Option<u8>, ()>(None)),
{
    match tap {
        Ok(Some(scancode)) => on_key(Some(scancode)),
        Ok(None) => KeyStep::ReadKeyboard,
        Err(_) => KeyStep::ReadKeyboard,
    }
}

/// Goes on after a key, or none, has been read.
pub fn on_key(key: Option<u8>) -> (step: KeyStep)
    ensures
        step == after_key(key),
        (step is Exit) == (key == Some(0x01u8) || key == Some(0x81u8)),
        !(step is ReadKeyboard),
{
    match key {
        Some(scancode) => if scancode == 0x01 || scancode == 0x81 {
            KeyStep::Exit
        } else {
            KeyStep::Yield
        },
        None => KeyStep::Yield,
    }
}

/// How the program gets on from a step: `created`, `shared` and `chunked` are the
/// results of its further steps, as far as it comes to them.
pub open spec fn session_outcome(
    step: SessionStep,
    created: Result<u32, BinderError>,
    shared: Result<(), BinderError>,
    chunked: Result<(), BinderError>,
) -> SessionStep
    decreases
            (match step {
                SessionStep::CreateWindow { .. } => 3int,
                SessionStep::FlushShared { .. } => 2,
                SessionStep::FlushChunked { .. } => 1,
                _ => 0,
            }),
{
    match step {
        SessionStep::CreateWindow { tid } => session_outcome(
            after_create(tid, created),
            created,
            shared,
            chunked,
        ),
        SessionStep::FlushShared { tid, window_id } => session_outcome(
            after_shared(tid, window_id, shared),
            created,
            shared,
            chunked,
        ),
        SessionStep::FlushChunked { .. } => session_outcome(
            after_chunked(chunked),
            created,
            shared,
            chunked,
        ),
        _ => step,
    }
}

/// The steps that the program comes to, from a step on: `created`, `shared` and
/// `chunked` are the results of its further steps.
pub open spec fn session_course(
    step: SessionStep,
    created: Result<u32, BinderError>,
    shared: Result<(), BinderError>,
    chunked: Result<(), BinderError>,
) -> Seq<SessionStep>
    decreases
            (match step {
                SessionStep::CreateWindow { .. } => 3int,
                SessionStep::FlushShared { .. } => 2,
                SessionStep::FlushChunked { .. } => 1,
                _ => 0,
            }),
{
    match step {
        SessionStep::CreateWindow { tid } => seq![step] + session_course(
            after_create(tid, created),
            created,
            shared,
            chunked,
        ),
        SessionStep::FlushShared { tid, window_id } => seq![step] + session_course(
            after_shared(tid, window_id, shared),
            created,
            shared,
            chunked,
        ),
        SessionStep::FlushChunked { .. } => seq![step] + session_course(
            after_chunked(chunked),
            created,
            shared,
            chunked,
        ),
        _ => seq![step],
    }
}

/// When Kagami has been found and the window has been created, the program shows
/// the desktop in that window of that process, first through shared memory and,
/// when that has failed, in chunks, whatever the error was.
pub proof fn lemma_course_with_window(
    tid: u64,
    window_id: u32,
    shared: Result<(), BinderError>,
    chunked: Result<(), BinderError>,
)
    ensures
        ({
            let course = session_course(after_search(Some(tid)), Ok(window_id), shared, chunked);
            &&& course.len() >= 3
            &&& course[0] == (SessionStep::CreateWindow { tid })
            &&& course[1] == (SessionStep::FlushShared { tid, window_id })
            &&& shared is Ok ==> course.len() == 3 && course[2] == SessionStep::Watch
            &&& shared matches Err(cause) ==> {
                &&& course.len() == 4
                &&& course[2] == (SessionStep::FlushChunked { tid, window_id, cause })
                &&& chunked is Ok ==> course[3] == SessionStep::Watch
                &&& chunked matches Err(e) ==> course[3] == SessionStep::Quit(Failure::Flush(e))
            }
        }),
{
    reveal_with_fuel(session_course, 4);
}

/// Without Kagami, or without a window, the program ends and shows nothing.
pub proof fn lemma_course_without_window(
    tid: u64,
    created: Result<u32, BinderError>,
    shared: Result<(), BinderError>,
    chunked: Result<(), BinderError>,
)
    ensures
        session_course(after_search(None), created, shared, chunked) == seq![
            SessionStep::Quit(Failure::KagamiNotFound),
        ],
        (created matches Err(e) ==> session_course(
            after_search(Some(tid)),
            created,
            shared,
            chunked,
        ) == seq![
            SessionStep::CreateWindow { tid },
            SessionStep::Quit(Failure::CreateWindow(e)),
        ]),
{
    reveal_with_fuel(session_course, 4);
    if let Err(e) = created {
        assert(session_course(after_search(Some(tid)), created, shared, chunked) =~= seq![
            SessionStep::CreateWindow { tid },
            SessionStep::Quit(Failure::CreateWindow(e)),
        ]);
    }
}

/// Every flush that the program comes to, however it came there, is of the window
/// that was created, at the process that was found; and the flush in chunks reports
/// the error of the flush through shared memory.
pub proof fn lemma_flushes_name_the_window(
    found: Option<u64>,
    created: Result<u32, BinderError>,
    shared: Result<(), BinderError>,
    chunked: Result<(), BinderError>,
    n: int,
)
    requires
        0 <= n < session_course(after_search(found), created, shared, chunked).len(),
    ensures
        ({
            let step = session_course(after_search(found), created, shared, chunked)[n];
            &&& step matches SessionStep::CreateWindow { tid } ==> found == Some(tid)
            &&& step matches SessionStep::FlushShared { tid, window_id } ==> {
                &&& found == Some(tid)
                &&& created == Ok::<u32, BinderError>(window_id)
            }
            &&& step matches SessionStep::FlushChunked { tid, window_id, cause } ==> {
                &&& found == Some(tid)
                &&& created == Ok::<u32, BinderError>(window_id)
                &&& shared == Err::<(), BinderError>(cause)
            }
        }),
{
    if let (Some(tid), Ok(window_id)) = (found, created) {
        lemma_course_with_window(tid, window_id, shared, chunked);
    } else {
        lemma_course_without_window(found->0, created, shared, chunked);
    }
}

/// Exactly the escape key, pressed or released, ends the program; any other key,
/// and none, lets it go on.
pub proof fn lemma_escape_ends_program(scancode: u8)
    ensures
        scancode == 0x01 || scancode == 0x81 ==> after_key(Some(scancode)) == KeyStep::Exit,
        scancode != 0x01 && scancode != 0x81 ==> after_key(Some(scancode)) == KeyStep::Yield,
        after_key(None) == KeyStep::Yield,
{
}

/// The desktop comes to be shown exactly when Kagami is found, the window is
/// created, and one of the two ways to fill it succeeds.
pub proof fn lemma_desktop_is_shown(
    tid: Option<u64>,
    created: Result<u32, BinderError>,
    shared: Result<(), BinderError>,
    chunked: Result<(), BinderError>,
)
    ensures
        (session_outcome(after_search(tid), created, shared, chunked) == SessionStep::Watch) <==> (
        tid is Some && created is Ok && (shared is Ok || chunked is Ok)),
{
    reveal_with_fuel(session_outcome, 4);
}

/// A picture can be rendered for every window size, if the machine has the memory
/// for it.
pub proof fn lemma_window_size_renders(width: u32, height: u32)
    requires
        window_length(width) * window_length(height) * 4 <= isize::MAX,
    ensures
        picture_size(window_length(width) as usize, window_length(height) as usize),
{
    let (w, h) = (window_length(width), window_length(height));
    assert(w * h <= w * h * 4) by (nonlinear_arith);
}

/// The rendered desktop always fits its window: neither way to fill the window ends
/// with an error before its first request.
pub proof fn lemma_desktop_fits_window(flush: ChunkedFlush)
    requires
        flush.width > 0,
        flush.height > 0,
        picture_size(flush.width as usize, flush.height as usize),
        flush.pixels@ == desktop_picture(flush.width as usize, flush.height as usize),
    ensures
        flush.wf(),
        first_stage(flush.width * flush.height, flush.pixels@.len() as int) == Stage::Allocating,
{
    assert(flush.width * flush.height > 0) by (nonlinear_arith)
        requires
            flush.width > 0,
            flush.height > 0,
    ;
}

} // verus!
