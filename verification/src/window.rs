//! Asking Kagami for a window.
use crate::error::{is_failure, BinderError};
#[allow(unused_imports)]
use crate::error::{call_failed, lemma_failures_are_negative};
use crate::reply::{ReplyWait, WaitStep};
#[allow(unused_imports)]
use crate::reply::{
    answered_at, lemma_answer_is_a_reply, lemma_first_reply_decides, lemma_timeout_without_reply, wait_outcome,
    Incoming, REPLY_ATTEMPTS,
};
use crate::wire::{encode_create_window, OP_RES_WINDOW_CREATED};
#[allow(unused_imports)]
use crate::wire::{create_window_message, le16_at, le32_at};
use vstd::prelude::*;

verus! {

/// The request has been handed over for sending.
#[derive(Clone, Copy, Debug, PartialEq, Eq)]
pub struct CreateSent {
    pub kagami_tid: u64,
}

/// The request has been sent, and the answer is waited for.
#[derive(Clone, Copy, Debug, PartialEq, Eq)]
pub struct CreateWait {
    pub wait: ReplyWait,
}

/// What to do next.
#[derive(Debug)]
pub enum CreateStep {
    /// Send `message` to the process `to`, and report the result to `then`.
    Send { to: u64, message: Vec<u8>, then: CreateSent },
    /// Receive a message and hand it on.
    Receive(CreateWait),
    /// Let other processes run, then go on.
    Yield(CreateWait),
    /// The window has been created, or not.
    Done(Result<u32, BinderError>),
}

/// What a step of the wait means for the creation of the window.
pub open spec fn create_step(step: WaitStep) -> CreateStep {
    match step {
        WaitStep::Receive(wait) => CreateStep::Receive(CreateWait { wait }),
        WaitStep::Yield(wait) => CreateStep::Yield(CreateWait { wait }),
        WaitStep::Matched(window_id) => CreateStep::Done(Ok(window_id)),
        WaitStep::TimedOut => CreateStep::Done(Err(BinderError::WindowCreateTimeout)),
    }
}

fn on_wait_step(step: WaitStep) -> (next: CreateStep)
    ensures
        next == create_step(step),
{
    match step {
        WaitStep::Receive(wait) => CreateStep::Receive(CreateWait { wait }),
        WaitStep::Yield(wait) => CreateStep::Yield(CreateWait { wait }),
        WaitStep::Matched(window_id) => CreateStep::Done(Ok(window_id)),
        WaitStep::TimedOut => CreateStep::Done(Err(BinderError::WindowCreateTimeout)),
    }
}

/// Starts to create a wallpaper window.
pub fn create_app_window(kagami_tid: u64, width: u16, height: u16) -> (step: CreateStep)
    ensures
        (step matches CreateStep::Send { to, message, then } && {
            &&& to == kagami_tid
            &&& message@ == create_window_message(width, height)
            &&& then == (CreateSent { kagami_tid })
            &&& message@.len() == 9
            &&& le32_at(message@, 0) == 1
            &&& le16_at(message@, 4) == width
            &&& le16_at(message@, 6) == height
            &&& message@[8] == 0
        }),
{
    CreateStep::Send {
        to: kagami_tid,
        message: encode_create_window(width, height),
        then: CreateSent { kagami_tid },
    }
}

impl CreateSent {
    /// The wait for the answer, with all its attempts.
    pub open spec fn wait(self) -> ReplyWait {
        ReplyWait {
            kagami_tid: self.kagami_tid,
            op: OP_RES_WINDOW_CREATED,
            window_id: None,
            attempts: REPLY_ATTEMPTS,
        }
    }

    /// The step after the attempt to send the request, of which `ret` is the result.
    pub open spec fn after(self, ret: u64) -> CreateStep {
        if call_failed(ret) {
            CreateStep::Done(Err(BinderError::SendCreateWindow))
        } else {
            CreateStep::Receive(CreateWait { wait: self.wait() })
        }
    }

    /// Goes on after the attempt to send the request, of which `ret` is the result.
    pub fn on_sent(self, ret: u64) -> (step: CreateStep)
        ensures
            step == self.after(ret),
    {
        if is_failure(ret) {
            return CreateStep::Done(Err(BinderError::SendCreateWindow));
        }
        on_wait_step(ReplyWait::start(self.kagami_tid, OP_RES_WINDOW_CREATED, None))
    }
}

impl CreateWait {
    /// Goes on after other processes have run.
    pub fn resume(self) -> (step: CreateStep)
        ensures
            step == create_step(self.wait.ready()),
    {
        on_wait_step(self.wait.resume())
    }

    /// Goes on after a message has been received into `buf`.
    pub fn on_message(self, sender: u64, len: usize, buf: &[u8]) -> (step: CreateStep)
        requires
            self.wait.attempts > 0,
            sender == self.wait.kagami_tid && len >= 8 ==> buf@.len() >= 8,
        ensures
            step == create_step(self.wait.after(Incoming { sender, len, buf: buf@ })),
    {
        on_wait_step(self.wait.on_message(sender, len, buf))
    }
}

/// How the creation ends when the messages of `inbox` arrive one after the other;
/// `None` when an answer is still waited for after the last of them, or the request
/// is yet to be sent.
pub open spec fn create_outcome(step: CreateStep, inbox: Seq<Incoming>) -> Option<
    Result<u32, BinderError>,
>
    decreases inbox.len(), (if step is Yield { 1int } else { 0int }),
{
    match step {
        CreateStep::Send { .. } => None,
        CreateStep::Done(result) => Some(result),
        CreateStep::Yield(w) => create_outcome(create_step(w.wait.ready()), inbox),
        CreateStep::Receive(w) => if inbox.len() == 0 {
            None
        } else {
            create_outcome(create_step(w.wait.after(inbox[0])), inbox.drop_first())
        },
    }
}

proof fn lemma_create_outcome(step: WaitStep, inbox: Seq<Incoming>)
    ensures
        create_outcome(create_step(step), inbox) == (match wait_outcome(step, inbox) {
            None => None::<Result<u32, BinderError>>,
            Some(None) => Some(Err(BinderError::WindowCreateTimeout)),
            Some(Some(window_id)) => Some(Ok(window_id)),
        }),
    decreases inbox.len(), (if step is Yield { 1int } else { 0int }),
{
    match step {
        WaitStep::Yield(wait) => lemma_create_outcome(wait.ready(), inbox),
        WaitStep::Receive(wait) => if inbox.len() > 0 {
            lemma_create_outcome(wait.after(inbox[0]), inbox.drop_first());
        },
        _ => {},
    }
}

/// A request that cannot be sent ends the creation; one that has been sent is
/// followed by a wait for Kagami's answer 2, for any window, over 256 messages.
pub proof fn lemma_create_after_sending(sent: CreateSent, ret: u64)
    ensures
        (ret as i64) < 0 ==> sent.after(ret) == CreateStep::Done(
            Err(BinderError::SendCreateWindow),
        ),
        (ret as i64) >= 0 ==> sent.after(ret) == CreateStep::Receive(
            (CreateWait {
                wait: ReplyWait {
                    kagami_tid: sent.kagami_tid,
                    op: 2,
                    window_id: None,
                    attempts: 256,
                },
            }),
        ),
{
    lemma_failures_are_negative(ret);
}

/// What a step of the wait means: the window that is named is the window created.
pub proof fn lemma_create_follows_wait(wait: ReplyWait, window_id: u32)
    ensures
        create_step(WaitStep::Matched(window_id)) == CreateStep::Done(Ok(window_id)),
        create_step(WaitStep::TimedOut) == CreateStep::Done(Err(BinderError::WindowCreateTimeout)),
        create_step(WaitStep::Receive(wait)) == CreateStep::Receive((CreateWait { wait })),
        create_step(WaitStep::Yield(wait)) == CreateStep::Yield((CreateWait { wait })),
{
}

/// The creation gives the window that Kagami's first answer names, if that is
/// among the messages looked at.
pub proof fn lemma_create_answered(sent: CreateSent, ret: u64, inbox: Seq<Incoming>, at: int)
    requires
        !call_failed(ret),
        answered_at(sent.wait(), inbox, at),
    ensures
        create_outcome(sent.after(ret), inbox) == Some(
            Ok::<u32, BinderError>(le32_at(inbox[at].buf, 4)),
        ),
{
    lemma_first_reply_decides(sent.wait(), inbox, at);
    lemma_create_outcome(WaitStep::Receive(sent.wait()), inbox);
}

/// The creation times out if none of the messages looked at is the answer.
pub proof fn lemma_create_unanswered(sent: CreateSent, ret: u64, inbox: Seq<Incoming>)
    requires
        !call_failed(ret),
        inbox.len() >= REPLY_ATTEMPTS,
        forall|n: int| 0 <= n < REPLY_ATTEMPTS ==> !sent.wait().accepts(#[trigger] inbox[n]),
    ensures
        create_outcome(sent.after(ret), inbox) == Some(
            Err::<u32, BinderError>(BinderError::WindowCreateTimeout),
        ),
{
    lemma_timeout_without_reply(sent.wait(), inbox);
    lemma_create_outcome(WaitStep::Receive(sent.wait()), inbox);
}

/// A window comes only from an answer of Kagami that names it, to a request that
/// has been sent.
pub proof fn lemma_window_is_answered(
    sent: CreateSent,
    ret: u64,
    inbox: Seq<Incoming>,
    window_id: u32,
)
    requires
        create_outcome(sent.after(ret), inbox) == Some(Ok::<u32, BinderError>(window_id)),
    ensures
        !call_failed(ret),
        exists|at: int| #[trigger]
            answered_at(sent.wait(), inbox, at) && le32_at(inbox[at].buf, 4) == window_id,
{
    lemma_create_outcome(WaitStep::Receive(sent.wait()), inbox);
    lemma_answer_is_a_reply(sent.wait(), inbox, window_id);
}

} // verus!
