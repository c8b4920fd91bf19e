//! What can go wrong while a window is created and filled.
use vstd::prelude::*;

verus! {

/// A failed step of the conversation with Kagami.
#[derive(Clone, Copy, Debug, PartialEq, Eq, Structural)]
pub enum BinderError {
    SendCreateWindow,
    WindowCreateTimeout,
    PixelBufferTooSmall,
    SizeOverflow,
    PageCountOutOfRange,
    AllocSharedPages,
    SendSharedAttach,
    SendSharedPages,
    SharedAttachAckTimeout,
    SendSharedPresent,
    SendFlushChunk,
}

impl BinderError {
    /// The text that reports the error.
    pub open spec fn text(self) -> Seq<char> {
        match self {
            BinderError::SendCreateWindow => "send create_window failed"@,
            BinderError::WindowCreateTimeout => "window create timeout"@,
            BinderError::PixelBufferTooSmall => "pixel buffer too small"@,
            BinderError::SizeOverflow => "size overflow"@,
            BinderError::PageCountOutOfRange => "shared surface page count out of range"@,
            BinderError::AllocSharedPages => "alloc_shared_pages failed"@,
            BinderError::SendSharedAttach => "failed to send shared attach"@,
            BinderError::SendSharedPages => "failed to send shared pages"@,
            BinderError::SharedAttachAckTimeout => "shared attach ack timeout"@,
            BinderError::SendSharedPresent => "failed to send shared present"@,
            BinderError::SendFlushChunk => "send flush chunk failed"@,
        }
    }

    /// The text that reports the error.
    pub fn message(self) -> (text: &'static str)
        ensures
            text@ == self.text(),
    {
        match self {
            BinderError::SendCreateWindow => "send create_window failed",
            BinderError::WindowCreateTimeout => "window create timeout",
            BinderError::PixelBufferTooSmall => "pixel buffer too small",
            BinderError::SizeOverflow => "size overflow",
            BinderError::PageCountOutOfRange => "shared surface page count out of range",
            BinderError::AllocSharedPages => "alloc_shared_pages failed",
            BinderError::SendSharedAttach => "failed to send shared attach",
            BinderError::SendSharedPages => "failed to send shared pages",
            BinderError::SharedAttachAckTimeout => "shared attach ack timeout",
            BinderError::SendSharedPresent => "failed to send shared present",
            BinderError::SendFlushChunk => "send flush chunk failed",
        }
    }
}

/// No two errors are reported by the same text.
pub proof fn lemma_texts_tell_errors_apart(one: BinderError, other: BinderError)
    ensures
        one.text() == other.text() ==> one == other,
{
    reveal_strlit("send create_window failed");
    reveal_strlit("window create timeout");
    reveal_strlit("pixel buffer too small");
    reveal_strlit("size overflow");
    reveal_strlit("shared surface page count out of range");
    reveal_strlit("alloc_shared_pages failed");
    reveal_strlit("failed to send shared attach");
    reveal_strlit("failed to send shared pages");
    reveal_strlit("shared attach ack timeout");
    reveal_strlit("failed to send shared present");
    reveal_strlit("send flush chunk failed");
    if one.text() == other.text() {
        assert(one.text().len() == other.text().len());
        assert(one.text()[0] == other.text()[0]);
        assert(one.text()[1] == other.text()[1]);
    }
}

/// Each error is reported by the text that says which step has failed.
pub proof fn lemma_texts_of_errors()
    ensures
        BinderError::SendCreateWindow.text() == "send create_window failed"@,
        BinderError::WindowCreateTimeout.text() == "window create timeout"@,
        BinderError::PixelBufferTooSmall.text() == "pixel buffer too small"@,
        BinderError::SizeOverflow.text() == "size overflow"@,
        BinderError::PageCountOutOfRange.text() == "shared surface page count out of range"@,
        BinderError::AllocSharedPages.text() == "alloc_shared_pages failed"@,
        BinderError::SendSharedAttach.text() == "failed to send shared attach"@,
        BinderError::SendSharedPages.text() == "failed to send shared pages"@,
        BinderError::SharedAttachAckTimeout.text() == "shared attach ack timeout"@,
        BinderError::SendSharedPresent.text() == "failed to send shared present"@,
        BinderError::SendFlushChunk.text() == "send flush chunk failed"@,
{
}

/// A system call reports failure by a result that is negative as a signed number.
pub open spec fn call_failed(ret: u64) -> bool {
    ret >= 0x8000_0000_0000_0000
}

/// Whether a system call's result reports failure.
pub fn is_failure(ret: u64) -> (failed: bool)
    ensures
        failed == call_failed(ret),
        failed == ((ret as i64) < 0),
{
    assert((ret as i64) < 0 <==> ret >= 0x8000_0000_0000_0000) by (bit_vector);
    (ret as i64) < 0
}

/// Exactly the results that are negative as signed numbers are failures.
pub proof fn lemma_failures_are_negative(ret: u64)
    ensures
        call_failed(ret) <==> (ret as i64) < 0,
{
    assert((ret as i64) < 0 <==> ret >= 0x8000_0000_0000_0000) by (bit_vector);
}

} // verus!
