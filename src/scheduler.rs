//! Flow control against the controller's receive buffer.
//!
//! The scheduler owns two queues: `pending`, commands accepted but not yet
//! written, and `inflight`, blocks written but not yet acknowledged. A realtime
//! command jumps to the front of `pending`; a block is written only while the
//! bytes of all unacknowledged blocks stay below the buffer's capacity. Each
//! entry carries a reply handle of the caller's choosing, handed back when the
//! block's response arrives.

use vstd::prelude::*;
use std::collections::VecDeque;
use crate::command::{Command, Realtime, line_bytes};
use crate::message::Message;

verus! {

/// The bytes a block occupies in the controller's receive buffer: its text and
/// the terminating line feed.
pub open spec fn block_size(line: Seq<char>) -> nat {
    line_bytes(line).len() + 1
}

/// The sum of the sizes recorded in a sequence of in-flight entries.
pub open spec fn sum_sizes<T>(s: Seq<(usize, T)>) -> nat
    decreases s.len(),
{
    if s.len() == 0 {
        0
    } else {
        sum_sizes(s.drop_last()) + s.last().0 as nat
    }
}

/// What the scheduler holds, as plain mathematical values.
pub ghost struct SchedulerModel<T> {
    /// Size of the controller's receive buffer in bytes.
    pub capacity: nat,
    /// Commands accepted but not yet written, with their reply handles.
    pub pending: Seq<(Command, T)>,
    /// Blocks written but not yet acknowledged: their sizes and reply handles.
    pub inflight: Seq<(usize, T)>,
}

/// Why a submission was refused.
#[derive(Clone, Copy, Debug, PartialEq, Eq, Structural)]
pub enum SchedulerError {
    /// The block could never fit in the controller's receive buffer.
    OversizedBlock,
}

/// The next thing the writer has to do.
#[derive(Debug)]
pub enum Action {
    /// Write this command's bytes to the transport.
    Write(Command),
    /// Nothing can be written now: wait for a message from the controller.
    AwaitMessage,
}

impl<T> SchedulerModel<T> {
    /// Bytes currently occupied in the controller's receive buffer.
    pub open spec fn buffered(self) -> nat {
        sum_sizes(self.inflight)
    }

    /// A block whose size reaches the capacity can never be written.
    pub open spec fn oversized(self, line: Seq<char>) -> bool {
        block_size(line) >= self.capacity
    }

    /// Writing the block now keeps the buffered bytes at most `capacity - 1`.
    pub open spec fn fits(self, line: Seq<char>) -> bool {
        self.buffered() + block_size(line) <= self.capacity - 1
    }

    /// The model's invariant.
    pub open spec fn inv(self) -> bool {
        &&& 1 <= self.capacity <= usize::MAX
        &&& self.buffered() <= self.capacity - 1
        &&& forall|i: int| 0 <= i < self.pending.len() ==> self.accepts(#[trigger] self.pending[i].0)
    }

    /// The command is accepted for scheduling.
    pub open spec fn accepts(self, c: Command) -> bool {
        match c {
            Command::Block(l) => !self.oversized(l@),
            Command::Realtime(_) => true,
        }
    }

    /// The state after submitting `c` with reply handle `t`.
    pub open spec fn submitted(self, c: Command, t: T) -> SchedulerModel<T> {
        if !self.accepts(c) {
            self
        } else if c is Realtime {
            SchedulerModel { pending: seq![(c, t)] + self.pending, ..self }
        } else {
            SchedulerModel { pending: self.pending.push((c, t)), ..self }
        }
    }

    /// The state after one dispatch decision, and the command written, if any.
    pub open spec fn dispatched(self) -> (SchedulerModel<T>, Option<Command>) {
        if self.pending.len() == 0 {
            (self, None)
        } else {
            let (c, t) = self.pending[0];
            match c {
                Command::Realtime(_) => (
                    SchedulerModel { pending: self.pending.drop_first(), ..self },
                    Some(c),
                ),
                Command::Block(l) => if self.fits(l@) {
                    (
                        SchedulerModel {
                            pending: self.pending.drop_first(),
                            inflight: self.inflight.push((block_size(l@) as usize, t)),
                            ..self
                        },
                        Some(c),
                    )
                } else {
                    (self, None)
                },
            }
        }
    }

    /// The state after a response arrives, and the reply handle it belongs to:
    /// that of the oldest unacknowledged block, if there is one.
    pub open spec fn acknowledged(self) -> (SchedulerModel<T>, Option<T>) {
        if self.inflight.len() == 0 {
            (self, None)
        } else {
            (SchedulerModel { inflight: self.inflight.drop_first(), ..self }, Some(self.inflight[0].1))
        }
    }
}

proof fn lemma_sum_push<T>(s: Seq<(usize, T)>, e: (usize, T))
    ensures
        sum_sizes(s.push(e)) == sum_sizes(s) + e.0,
{
    assert(s.push(e).drop_last() =~= s);
}

proof fn lemma_sum_drop_first<T>(s: Seq<(usize, T)>)
    requires
        s.len() > 0,
    ensures
        sum_sizes(s) == s[0].0 + sum_sizes(s.drop_first()),
    decreases s.len(),
{
    if s.len() == 1 {
        assert(s.drop_last() =~= Seq::<(usize, T)>::empty());
        assert(s.drop_first() =~= Seq::<(usize, T)>::empty());
    } else {
        lemma_sum_drop_first(s.drop_last());
        assert(s.drop_last().drop_first() =~= s.drop_first().drop_last());
        assert(s.drop_first().last() == s.last());
    }
}

/// Accepting a submission keeps the model's invariant.
pub proof fn lemma_submit_keeps_inv<T>(m: SchedulerModel<T>, c: Command, t: T)
    requires
        m.inv(),
    ensures
        m.submitted(c, t).inv(),
{
    let s = m.submitted(c, t);
    if m.accepts(c) {
        assert forall|i: int| 0 <= i < s.pending.len() implies s.accepts(#[trigger] s.pending[i].0) by {
            if c is Realtime {
                if i > 0 {
                    assert(s.pending[i] == m.pending[i - 1]);
                }
            } else {
                if i < m.pending.len() {
                    assert(s.pending[i] == m.pending[i]);
                }
            }
        }
    }
}

/// A dispatch decision keeps the model's invariant.
pub proof fn lemma_dispatch_keeps_inv<T>(m: SchedulerModel<T>)
    requires
        m.inv(),
    ensures
        m.dispatched().0.inv(),
{
    if m.pending.len() > 0 {
        let (hc, ht) = m.pending[0];
        let d = m.dispatched().0;
        assert forall|i: int| 0 <= i < d.pending.len() implies d.accepts(#[trigger] d.pending[i].0) by {
            if d.pending != m.pending {
                assert(d.pending[i] == m.pending[i + 1]);
            }
        }
        if let Command::Block(l) = hc {
            if m.fits(l@) {
                lemma_sum_push(m.inflight, (block_size(l@) as usize, ht));
            }
        }
    }
}

/// An acknowledgement keeps the model's invariant.
pub proof fn lemma_acknowledge_keeps_inv<T>(m: SchedulerModel<T>)
    requires
        m.inv(),
    ensures
        m.acknowledged().0.inv(),
{
    if m.inflight.len() > 0 {
        lemma_sum_drop_first(m.inflight);
    }
}

/// The flow-control scheduler. `T` is the reply handle that a caller attaches
/// to each command.
pub struct Scheduler<T> {
    capacity: usize,
    buffered: usize,
    pending: VecDeque<(Command, T)>,
    inflight: VecDeque<(usize, T)>,
}

impl<T> View for Scheduler<T> {
    type V = SchedulerModel<T>;

    closed spec fn view(&self) -> SchedulerModel<T> {
        SchedulerModel {
            capacity: self.capacity as nat,
            pending: self.pending@,
            inflight: self.inflight@,
        }
    }
}

impl<T> Scheduler<T> {
    /// The scheduler's invariant: the model's, and the running byte count.
    pub closed spec fn wf(&self) -> bool {
        &&& self@.inv()
        &&& self.buffered as nat == self@.buffered()
    }

    /// An empty scheduler for a controller whose receive buffer holds
    /// `capacity` bytes.
    pub fn new(capacity: usize) -> (s: Self)
        requires
            capacity >= 1,
        ensures
            s.wf(),
            s@.capacity == capacity,
            s@.pending.len() == 0,
            s@.inflight.len() == 0,
    {
        let s = Scheduler {
            capacity,
            buffered: 0,
            pending: VecDeque::new(),
            inflight: VecDeque::new(),
        };
        assert(s@.buffered() == 0);
        s
    }

    /// Size of the controller's receive buffer.
    pub fn capacity(&self) -> (r: usize)
        ensures
            r == self@.capacity,
    {
        self.capacity
    }

    /// Bytes of written blocks not yet acknowledged.
    pub fn buffered(&self) -> (r: usize)
        requires
            self.wf(),
        ensures
            r == self@.buffered(),
    {
        self.buffered
    }

    /// Number of commands accepted but not yet written.
    pub fn pending_len(&self) -> (r: usize)
        ensures
            r == self@.pending.len(),
    {
        self.pending.len()
    }

    /// Number of written blocks awaiting their response.
    pub fn inflight_len(&self) -> (r: usize)
        ensures
            r == self@.inflight.len(),
    {
        self.inflight.len()
    }

    /// Accepts a command: a realtime goes to the front of `pending`, a block to
    /// the back. A block that can never fit is refused with its reply handle.
    pub fn submit(&mut self, cmd: Command, reply: T) -> (r: Result<(), (SchedulerError, T)>)
        requires
            old(self).wf(),
        ensures
            final(self).wf(),
            final(self)@ == old(self)@.submitted(cmd, reply),
            r is Ok <==> old(self)@.accepts(cmd),
            r matches Err((e, t)) ==> e == SchedulerError::OversizedBlock && t == reply,
    {
        proof {
            lemma_submit_keeps_inv(self@, cmd, reply);
        }
        match cmd {
            Command::Realtime(rt) => {
                self.pending.push_front((Command::Realtime(rt), reply));
                assert(self@.pending =~= seq![(cmd, reply)] + old(self)@.pending);
                Ok(())
            },
            Command::Block(line) => {
                let len = line.as_str().as_bytes().len();
                assert(len == line_bytes(line@).len());
                if len >= self.capacity - 1 {
                    Err((SchedulerError::OversizedBlock, reply))
                } else {
                    self.pending.push_back((Command::Block(line), reply));
                    Ok(())
                }
            },
        }
    }

    /// Decides what to write next. A realtime at the head of `pending` is
    /// always written; a block at the head only if it fits, in which case it
    /// moves to `inflight`. Otherwise the writer must wait for a message.
    pub fn dispatch(&mut self) -> (a: Action)
        requires
            old(self).wf(),
        ensures
            final(self).wf(),
            final(self)@ == old(self)@.dispatched().0,
            match old(self)@.dispatched().1 {
                Some(c) => a == Action::Write(c),
                None => a is AwaitMessage,
            },
    {
        proof {
            lemma_dispatch_keeps_inv(self@);
        }
        if self.pending.len() == 0 {
            return Action::AwaitMessage;
        }
        let head_size: Option<usize> = match &self.pending[0].0 {
            Command::Realtime(_) => None,
            Command::Block(line) => Some(line.as_str().as_bytes().len() + 1),
        };
        match head_size {
            None => {
                let (cmd, _reply) = self.pending.pop_front().unwrap();
                Action::Write(cmd)
            },
            Some(size) => {
                if size <= self.capacity - 1 - self.buffered {
                    let (cmd, reply) = self.pending.pop_front().unwrap();
                    self.inflight.push_back((size, reply));
                    self.buffered = self.buffered + size;
                    proof {
                        lemma_sum_push(old(self)@.inflight, (size, reply));
                    }
                    Action::Write(cmd)
                } else {
                    Action::AwaitMessage
                }
            },
        }
    }

    /// Records a response from the controller: the oldest unacknowledged block
    /// leaves `inflight` and its reply handle is returned. A response while
    /// nothing is in flight is a protocol violation and is discarded.
    pub fn acknowledge(&mut self) -> (r: Option<T>)
        requires
            old(self).wf(),
        ensures
            final(self).wf(),
            final(self)@ == old(self)@.acknowledged().0,
            r == old(self)@.acknowledged().1,
    {
        proof {
            lemma_acknowledge_keeps_inv(self@);
        }
        match self.inflight.pop_front() {
            Some((size, reply)) => {
                proof {
                    lemma_sum_drop_first(old(self)@.inflight);
                }
                self.buffered = self.buffered - size;
                Some(reply)
            },
            None => None,
        }
    }
}

/// One thing that can happen to the scheduler.
pub ghost enum Event<T> {
    /// A caller submits a command with its reply handle.
    Submit(Command, T),
    /// The writer asks what to write next.
    Dispatch,
    /// A response arrives from the controller.
    Acknowledge,
}

/// The event submits a realtime command.
pub open spec fn submits_realtime<T>(e: Event<T>) -> bool {
    match e {
        Event::Submit(c, _) => c is Realtime,
        _ => false,
    }
}

/// No realtime command waits in `pending`.
pub open spec fn blocks_only<T>(m: SchedulerModel<T>) -> bool {
    forall|i: int| 0 <= i < m.pending.len() ==> (#[trigger] m.pending[i]).0 is Block
}

/// The reply handles that the model holds, oldest first: those in flight, then
/// those pending.
pub open spec fn held_replies<T>(m: SchedulerModel<T>) -> Seq<T> {
    m.inflight.map_values(|e: (usize, T)| e.1) + m.pending.map_values(|e: (Command, T)| e.1)
}

impl<T> SchedulerModel<T> {
    /// The state after one event.
    pub open spec fn step(self, e: Event<T>) -> SchedulerModel<T> {
        match e {
            Event::Submit(c, t) => self.submitted(c, t),
            Event::Dispatch => self.dispatched().0,
            Event::Acknowledge => self.acknowledged().0,
        }
    }

    /// The state after a sequence of events.
    pub open spec fn run(self, es: Seq<Event<T>>) -> SchedulerModel<T>
        decreases es.len(),
    {
        if es.len() == 0 {
            self
        } else {
            self.run(es.drop_last()).step(es.last())
        }
    }

    /// The reply handles of accepted block submissions during a run, in order.
    pub open spec fn accepted_replies(self, es: Seq<Event<T>>) -> Seq<T>
        decreases es.len(),
    {
        if es.len() == 0 {
            seq![]
        } else {
            let before = self.run(es.drop_last());
            let earlier = self.accepted_replies(es.drop_last());
            match es.last() {
                Event::Submit(c, t) => if c is Block && before.accepts(c) {
                    earlier.push(t)
                } else {
                    earlier
                },
                _ => earlier,
            }
        }
    }

    /// The reply handles handed back by responses during a run, in order.
    pub open spec fn delivered_replies(self, es: Seq<Event<T>>) -> Seq<T>
        decreases es.len(),
    {
        if es.len() == 0 {
            seq![]
        } else {
            let before = self.run(es.drop_last());
            let earlier = self.delivered_replies(es.drop_last());
            match (es.last(), before.acknowledged().1) {
                (Event::Acknowledge, Some(t)) => earlier.push(t),
                _ => earlier,
            }
        }
    }
}

/// Whatever happens, the bytes of unacknowledged blocks never exceed
/// `capacity - 1`.
pub proof fn lemma_buffer_never_overflows<T>(m: SchedulerModel<T>, es: Seq<Event<T>>)
    requires
        m.inv(),
    ensures
        m.run(es).inv(),
        m.run(es).buffered() <= m.capacity - 1,
        m.run(es).capacity == m.capacity,
    decreases es.len(),
{
    if es.len() > 0 {
        lemma_buffer_never_overflows(m, es.drop_last());
        let before = m.run(es.drop_last());
        match es.last() {
            Event::Submit(c, t) => lemma_submit_keeps_inv(before, c, t),
            Event::Dispatch => lemma_dispatch_keeps_inv(before),
            Event::Acknowledge => lemma_acknowledge_keeps_inv(before),
        }
    }
}

/// With block submissions only, responses are matched to submissions one to
/// one and in order: every reply handle held at the start or accepted later is
/// either handed back, in submission order, or still held, in the same order.
pub proof fn lemma_responses_in_submission_order<T>(m: SchedulerModel<T>, es: Seq<Event<T>>)
    requires
        m.inv(),
        blocks_only(m),
        forall|i: int| 0 <= i < es.len() ==> !submits_realtime(#[trigger] es[i]),
    ensures
        blocks_only(m.run(es)),
        held_replies(m) + m.accepted_replies(es) == m.delivered_replies(es) + held_replies(
            m.run(es),
        ),
    decreases es.len(),
{
    if es.len() == 0 {
        assert(held_replies(m) + seq![] =~= seq![] + held_replies(m));
    } else {
        let init = es.drop_last();
        assert forall|i: int| 0 <= i < init.len() implies !submits_realtime(#[trigger] init[i]) by {
            assert(init[i] == es[i]);
        }
        lemma_responses_in_submission_order(m, init);
        lemma_buffer_never_overflows(m, init);
        let b = m.run(init);
        let a = m.run(es);
        let acc = m.accepted_replies(init);
        let del = m.delivered_replies(init);
        let e = es.last();
        assert(!submits_realtime(es[es.len() - 1]));
        match e {
            Event::Submit(c, t) => {
                if b.accepts(c) {
                    assert(a.pending == b.pending.push((c, t)));
                    assert(a.inflight == b.inflight);
                    assert forall|i: int| 0 <= i < a.pending.len() implies (#[trigger] a.pending[i]).0 is Block by {
                        if i < b.pending.len() {
                            assert(a.pending[i] == b.pending[i]);
                        }
                    }
                    assert(a.pending.map_values(|e: (Command, T)| e.1) =~= b.pending.map_values(
                        |e: (Command, T)| e.1,
                    ).push(t));
                    assert(held_replies(a) =~= held_replies(b).push(t));
                    assert(held_replies(m) + acc.push(t) =~= (held_replies(m) + acc).push(t));
                    assert(del + held_replies(b).push(t) =~= (del + held_replies(b)).push(t));
                }
            },
            Event::Dispatch => {
                if b.pending.len() > 0 {
                    let (hc, ht) = b.pending[0];
                    assert(hc is Block);
                    if let Command::Block(l) = hc {
                        if b.fits(l@) {
                            assert forall|i: int| 0 <= i < a.pending.len() implies (#[trigger] a.pending[i]).0 is Block by {
                                assert(a.pending[i] == b.pending[i + 1]);
                            }
                            assert(a.inflight.map_values(|e: (usize, T)| e.1) =~= b.inflight.map_values(
                                |e: (usize, T)| e.1,
                            ).push(ht));
                            assert(b.pending.map_values(|e: (Command, T)| e.1) =~= seq![ht]
                                + a.pending.map_values(|e: (Command, T)| e.1));
                            assert(held_replies(a) =~= held_replies(b));
                        }
                    }
                }
            },
            Event::Acknowledge => {
                if b.inflight.len() > 0 {
                    let t = b.inflight[0].1;
                    assert(b.inflight.map_values(|e: (usize, T)| e.1) =~= seq![t]
                        + a.inflight.map_values(|e: (usize, T)| e.1));
                    assert(held_replies(b) =~= seq![t] + held_replies(a));
                    assert(del + held_replies(b) =~= del.push(t) + held_replies(a));
                }
            },
        }
    }
}

/// A realtime command is written by the very next dispatch after its
/// submission, whatever blocks are pending: it is written after every block
/// already written and before every block still pending or submitted later.
pub proof fn lemma_realtime_written_next<T>(m: SchedulerModel<T>, r: Realtime, t: T)
    requires
        m.inv(),
    ensures
        m.submitted(Command::Realtime(r), t).dispatched().1 == Some(Command::Realtime(r)),
        m.submitted(Command::Realtime(r), t).dispatched().0 == m,
{
    let s = m.submitted(Command::Realtime(r), t);
    assert(s.pending.drop_first() =~= m.pending);
}

/// A block of exactly `capacity - 2` bytes is written at once when nothing is
/// in flight.
pub proof fn lemma_largest_block_sendable<T>(m: SchedulerModel<T>, line: String, t: T)
    requires
        m.inv(),
        m.inflight.len() == 0,
        m.pending.len() == 0,
        line_bytes(line@).len() == m.capacity - 2,
    ensures
        m.accepts(Command::Block(line)),
        m.submitted(Command::Block(line), t).dispatched().1 == Some(Command::Block(line)),
        m.submitted(Command::Block(line), t).dispatched().0.buffered() == m.capacity - 1,
{
    let s = m.submitted(Command::Block(line), t);
    assert(s.pending[0] == (Command::Block(line), t));
    lemma_sum_push(m.inflight, (block_size(line@) as usize, t));
}

/// A block at the head of `pending` is written exactly when the buffered bytes
/// would then be at most `capacity - 1`: one that fills the buffer to
/// `capacity - 1` is written, one that would reach `capacity` is not.
pub proof fn lemma_block_sent_iff_room<T>(m: SchedulerModel<T>)
    requires
        m.inv(),
        m.pending.len() > 0,
        m.pending[0].0 is Block,
    ensures
        m.dispatched().1 is Some <==> m.buffered() + block_size(
            m.pending[0].0->Block_0@,
        ) <= m.capacity - 1,
        m.dispatched().1 is Some ==> m.dispatched().0.buffered() == m.buffered() + block_size(
            m.pending[0].0->Block_0@,
        ),
        m.dispatched().1 is None ==> m.dispatched().0 == m,
{
    let (c, t) = m.pending[0];
    if let Command::Block(l) = c {
        lemma_sum_push(m.inflight, (block_size(l@) as usize, t));
    }
}

/// A block of `capacity - 1` bytes or more is refused at submission and leaves
/// the scheduler unchanged.
pub proof fn lemma_oversized_refused<T>(m: SchedulerModel<T>, line: String, t: T)
    requires
        line_bytes(line@).len() >= m.capacity - 1,
    ensures
        !m.accepts(Command::Block(line)),
        m.submitted(Command::Block(line), t) == m,
{
}

impl<T> Scheduler<T> {
    /// Routes a message from the controller: a response acknowledges the
    /// oldest block in flight and yields its reply handle; a push or an
    /// unknown line leaves the scheduler as it is.
    pub fn on_message(&mut self, msg: &Message) -> (r: Option<T>)
        requires
            old(self).wf(),
        ensures
            final(self).wf(),
            msg is Response ==> final(self)@ == old(self)@.acknowledged().0 && r == old(
                self,
            )@.acknowledged().1,
            !(msg is Response) ==> final(self)@ == old(self)@ && r is None,
    {
        match msg {
            Message::Response(_) => self.acknowledge(),
            _ => None,
        }
    }
}


} // verus!
