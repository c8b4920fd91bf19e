//! Waiting for a reply of Kagami among the messages that arrive.
use crate::wire::read_u32;
#[allow(unused_imports)]
use crate::wire::le32_at;
use vstd::prelude::*;

verus! {

/// How many messages are looked at before a wait is given up.
pub const REPLY_ATTEMPTS: u32 = 256;

/// A wait for the reply `op` of the process `kagami_tid`, for the window
/// `window_id` if one is given, with `attempts` messages still to look at.
#[derive(Clone, Copy, Debug, PartialEq, Eq)]
pub struct ReplyWait {
    pub kagami_tid: u64,
    pub op: u32,
    pub window_id: Option<u32>,
    pub attempts: u32,
}

/// What to do next.
#[derive(Clone, Copy, Debug, PartialEq, Eq)]
pub enum WaitStep {
    /// Receive a message and hand it to the wait.
    Receive(ReplyWait),
    /// Let other processes run, then go on with the wait.
    Yield(ReplyWait),
    /// The reply has come, and names this window.
    Matched(u32),
    /// The reply has not come in time.
    TimedOut,
}

/// A message that has arrived: who sent it, its length, and the buffer that it was
/// received in.
pub struct Incoming {
    pub sender: u64,
    pub len: usize,
    pub buf: Seq<u8>,
}

impl ReplyWait {
    /// The message comes from Kagami and is long enough for a reply.
    pub open spec fn heeds(self, m: Incoming) -> bool {
        m.sender == self.kagami_tid && m.len >= 8
    }

    /// The message is the reply that is waited for.
    pub open spec fn accepts(self, m: Incoming) -> bool {
        &&& self.heeds(m)
        &&& le32_at(m.buf, 0) == self.op
        &&& self.window_id matches Some(window_id) ==> le32_at(m.buf, 4) == window_id
    }

    /// The wait with one message less to look at.
    pub open spec fn one_less(self) -> ReplyWait {
        ReplyWait { attempts: (self.attempts - 1) as u32, ..self }
    }

    /// The step of a wait that is ready for the next message.
    pub open spec fn ready(self) -> WaitStep {
        if self.attempts == 0 {
            WaitStep::TimedOut
        } else {
            WaitStep::Receive(self)
        }
    }

    /// The step after the message `m`.
    pub open spec fn after(self, m: Incoming) -> WaitStep {
        if !self.heeds(m) {
            WaitStep::Yield(self.one_less())
        } else if self.accepts(m) {
            WaitStep::Matched(le32_at(m.buf, 4))
        } else {
            self.one_less().ready()
        }
    }

    /// Starts a wait.
    pub fn start(kagami_tid: u64, op: u32, window_id: Option<u32>) -> (step: WaitStep)
        ensures
            step == WaitStep::Receive(
                (ReplyWait { kagami_tid, op, window_id, attempts: REPLY_ATTEMPTS }),
            ),
            (step matches WaitStep::Receive(wait) ==> wait.attempts == 256),
    {
        WaitStep::Receive(ReplyWait { kagami_tid, op, window_id, attempts: REPLY_ATTEMPTS })
    }

    /// Goes on after other processes have run.
    pub fn resume(self) -> (step: WaitStep)
        ensures
            step == self.ready(),
    {
        if self.attempts == 0 {
            WaitStep::TimedOut
        } else {
            WaitStep::Receive(self)
        }
    }

    /// Goes on after a message has been received into `buf`.
    pub fn on_message(self, sender: u64, len: usize, buf: &[u8]) -> (step: WaitStep)
        requires
            self.attempts > 0,
            sender == self.kagami_tid && len >= 8 ==> buf@.len() >= 8,
        ensures
            step == self.after(Incoming { sender, len, buf: buf@ }),
    {
        let rest: ReplyWait = ReplyWait {
            kagami_tid: self.kagami_tid,
            op: self.op,
            window_id: self.window_id,
            attempts: self.attempts - 1,
        };
        if sender != self.kagami_tid || len < 8 {
            return WaitStep::Yield(rest);
        }
        let op: u32 = read_u32(buf, 0);
        if op != self.op {
            return rest.resume();
        }
        let window_id: u32 = read_u32(buf, 4);
        match self.window_id {
            Some(wanted) => if window_id == wanted {
                WaitStep::Matched(window_id)
            } else {
                rest.resume()
            },
            None => WaitStep::Matched(window_id),
        }
    }
}

/// How a wait ends when the messages of `inbox` arrive one after the other:
/// `Some(Some(window))` when it is answered, `Some(None)` when it times out, and
/// `None` when it still waits after the last of them.
pub open spec fn wait_outcome(step: WaitStep, inbox: Seq<Incoming>) -> Option<Option<u32>>
    decreases inbox.len(), (if step is Yield { 1int } else { 0int }),
{
    match step {
        WaitStep::Matched(window_id) => Some(Some(window_id)),
        WaitStep::TimedOut => Some(None),
        WaitStep::Yield(wait) => wait_outcome(wait.ready(), inbox),
        WaitStep::Receive(wait) => if inbox.len() == 0 {
            None
        } else {
            wait_outcome(wait.after(inbox[0]), inbox.drop_first())
        },
    }
}

/// `at` is the first message of the inbox that is the reply, and comes within the
/// attempts that are left.
pub open spec fn answered_at(wait: ReplyWait, inbox: Seq<Incoming>, at: int) -> bool {
    &&& 0 <= at < wait.attempts
    &&& at < inbox.len()
    &&& wait.accepts(inbox[at])
    &&& forall|n: int| 0 <= n < at ==> !wait.accepts(#[trigger] inbox[n])
}

/// A wait only asks for a message while it has attempts left, and every message
/// uses one up.
pub proof fn lemma_attempts_are_used_up(wait: ReplyWait, m: Incoming)
    requires
        wait.attempts > 0,
    ensures
        (wait.after(m) matches WaitStep::Receive(rest) ==> 0 < rest.attempts == wait.attempts - 1),
        (wait.after(m) matches WaitStep::Yield(rest) ==> rest.attempts == wait.attempts - 1),
        (wait.ready() matches WaitStep::Receive(rest) ==> rest == wait),
{
}

/// What is the reply: a message of Kagami of at least eight bytes, whose first four
/// bytes are the operation, and whose next four bytes are the window, if one is asked
/// for.
pub proof fn lemma_what_is_accepted(wait: ReplyWait, m: Incoming)
    ensures
        wait.accepts(m) <==> {
            &&& m.sender == wait.kagami_tid
            &&& m.len >= 8
            &&& m.buf[0] + 0x100 * m.buf[1] + 0x1_0000 * m.buf[2] + 0x100_0000 * m.buf[3] == wait.op
            &&& wait.window_id is None || m.buf[4] + 0x100 * m.buf[5] + 0x1_0000 * m.buf[6]
                + 0x100_0000 * m.buf[7] == wait.window_id->0
        },
{
}

/// The step after a message: the reply ends the wait with the window that it names;
/// a message of somebody else, or one that is too short, lets other processes run;
/// any other message is passed over. A message that does not end the wait costs one
/// attempt and changes nothing else.
pub proof fn lemma_step_after_message(wait: ReplyWait, m: Incoming)
    requires
        wait.attempts > 0,
    ensures
        (wait.after(m) is Matched) <==> wait.accepts(m),
        (wait.after(m) matches WaitStep::Matched(window_id) ==> window_id == m.buf[4] + 0x100
            * m.buf[5] + 0x1_0000 * m.buf[6] + 0x100_0000 * m.buf[7]),
        (wait.after(m) is Yield) <==> m.sender != wait.kagami_tid || m.len < 8,
        (wait.after(m) is TimedOut) <==> m.sender == wait.kagami_tid && m.len >= 8 && !wait.accepts(m)
            && wait.attempts == 1,
        (wait.after(m) matches WaitStep::Yield(rest) ==> rest == (ReplyWait {
            kagami_tid: wait.kagami_tid,
            op: wait.op,
            window_id: wait.window_id,
            attempts: (wait.attempts - 1) as u32,
        })),
        (wait.after(m) matches WaitStep::Receive(rest) ==> rest == (ReplyWait {
            kagami_tid: wait.kagami_tid,
            op: wait.op,
            window_id: wait.window_id,
            attempts: (wait.attempts - 1) as u32,
        })),
{
}

/// A wait without attempts has timed out.
pub proof fn lemma_no_attempts_left(wait: ReplyWait)
    ensures
        (wait.ready() is TimedOut) <==> wait.attempts == 0,
        wait.attempts != 0 ==> wait.ready() == WaitStep::Receive(wait),
{
}

/// Whether the reply is accepted does not depend on how many messages are left.
proof fn lemma_accepts_one_less(wait: ReplyWait, m: Incoming)
    ensures
        wait.one_less().accepts(m) == wait.accepts(m),
{
}

/// A message that is not the reply only uses up an attempt.
proof fn lemma_skip_message(wait: ReplyWait, inbox: Seq<Incoming>)
    requires
        wait.attempts > 0,
        inbox.len() > 0,
        !wait.accepts(inbox[0]),
    ensures
        wait_outcome(WaitStep::Receive(wait), inbox) == wait_outcome(
            wait.one_less().ready(),
            inbox.drop_first(),
        ),
{
    reveal_with_fuel(wait_outcome, 3);
}

/// The first message that is the reply decides the wait, whatever has arrived
/// before it, if it comes within the attempts that are left.
pub proof fn lemma_first_reply_decides(wait: ReplyWait, inbox: Seq<Incoming>, at: int)
    requires
        answered_at(wait, inbox, at),
    ensures
        wait_outcome(WaitStep::Receive(wait), inbox) == Some(Some(le32_at(inbox[at].buf, 4))),
    decreases at,
{
    if at == 0 {
        reveal_with_fuel(wait_outcome, 2);
    } else {
        assert(!wait.accepts(inbox[0]));
        lemma_skip_message(wait, inbox);
        let rest = inbox.drop_first();
        assert forall|n: int| 0 <= n < at - 1 implies !wait.one_less().accepts(#[trigger] rest[n]) by {
            assert(rest[n] == inbox[n + 1]);
            lemma_accepts_one_less(wait, inbox[n + 1]);
        }
        assert(rest[at - 1] == inbox[at]);
        lemma_accepts_one_less(wait, inbox[at]);
        lemma_first_reply_decides(wait.one_less(), rest, at - 1);
    }
}

/// A wait times out exactly when none of the messages within its attempts is the
/// reply.
pub proof fn lemma_timeout_without_reply(wait: ReplyWait, inbox: Seq<Incoming>)
    requires
        wait.attempts <= inbox.len(),
        forall|n: int| 0 <= n < wait.attempts ==> !wait.accepts(#[trigger] inbox[n]),
    ensures
        wait_outcome(wait.ready(), inbox) == Some(None::<u32>),
    decreases wait.attempts,
{
    if wait.attempts > 0 {
        assert(!wait.accepts(inbox[0]));
        lemma_skip_message(wait, inbox);
        let rest = inbox.drop_first();
        assert forall|n: int| 0 <= n < wait.attempts - 1 implies !wait.one_less().accepts(
            #[trigger] rest[n],
        ) by {
            assert(rest[n] == inbox[n + 1]);
            lemma_accepts_one_less(wait, inbox[n + 1]);
        }
        lemma_timeout_without_reply(wait.one_less(), rest);
    }
}

/// A wait goes on while it has attempts left and the reply has not come.
pub proof fn lemma_still_waiting(wait: ReplyWait, inbox: Seq<Incoming>)
    requires
        inbox.len() < wait.attempts,
        forall|n: int| 0 <= n < inbox.len() ==> !wait.accepts(#[trigger] inbox[n]),
    ensures
        wait_outcome(WaitStep::Receive(wait), inbox) is None,
    decreases inbox.len(),
{
    if inbox.len() > 0 {
        assert(!wait.accepts(inbox[0]));
        lemma_skip_message(wait, inbox);
        let rest = inbox.drop_first();
        assert forall|n: int| 0 <= n < rest.len() implies !wait.one_less().accepts(
            #[trigger] rest[n],
        ) by {
            assert(rest[n] == inbox[n + 1]);
            lemma_accepts_one_less(wait, inbox[n + 1]);
        }
        lemma_still_waiting(wait.one_less(), rest);
    }
}

proof fn lemma_first_accepted(wait: ReplyWait, inbox: Seq<Incoming>, n: int) -> (at: int)
    requires
        0 <= n < wait.attempts,
        n < inbox.len(),
        wait.accepts(inbox[n]),
    ensures
        answered_at(wait, inbox, at),
    decreases n,
{
    if exists|m: int| 0 <= m < n && wait.accepts(#[trigger] inbox[m]) {
        let m = choose|m: int| 0 <= m < n && wait.accepts(#[trigger] inbox[m]);
        lemma_first_accepted(wait, inbox, m)
    } else {
        n
    }
}

/// A wait is only answered by a message that is the reply: no answer is made up.
pub proof fn lemma_answer_is_a_reply(wait: ReplyWait, inbox: Seq<Incoming>, window_id: u32)
    requires
        wait.attempts > 0,
        wait_outcome(WaitStep::Receive(wait), inbox) == Some(Some(window_id)),
    ensures
        exists|at: int| #[trigger]
            answered_at(wait, inbox, at) && le32_at(inbox[at].buf, 4) == window_id,
{
    if exists|n: int|
        0 <= n < wait.attempts && n < inbox.len() && wait.accepts(#[trigger] inbox[n]) {
        let n = choose|n: int|
            0 <= n < wait.attempts && n < inbox.len() && wait.accepts(#[trigger] inbox[n]);
        let at = lemma_first_accepted(wait, inbox, n);
        lemma_first_reply_decides(wait, inbox, at);
    } else if inbox.len() < wait.attempts {
        lemma_still_waiting(wait, inbox);
    } else {
        lemma_timeout_without_reply(wait, inbox);
    }
}

} // verus!
