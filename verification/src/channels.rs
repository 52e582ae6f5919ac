//! Channels between fibers.
//!
//! A channel has a buffer of a fixed capacity and queues of pending sends
//! and receives, each with the fiber that performs it (or none, for an
//! operation from outside the VM). Working on the pending operations
//! completes as many of them as the buffer allows, oldest first: a channel
//! without capacity hands each sent packet directly to a receiver; one with
//! capacity moves sent packets into its buffer while there is room and hands
//! buffered packets to receivers while there are some.
//!
//! Completing an operation is reported to the caller, who resumes the fiber
//! that performed it.

use crate::object::{Heap, Pointer};
use vstd::prelude::*;

verus! {

/// The ID of a fiber.
#[derive(Clone, Copy, Debug, PartialEq, Eq, Structural)]
pub struct FiberId(pub usize);

/// A value sent through a channel, with the heap that holds it.
#[derive(Debug)]
pub struct Packet {
    pub heap: Heap,
    pub value: Pointer,
}

/// The packets a channel holds, oldest first, and how many it can hold.
#[derive(Debug)]
pub struct ChannelBuf {
    pub capacity: usize,
    pub packets: Vec<Packet>,
}

/// A channel inside the VM.
#[derive(Debug)]
pub struct InternalChannel {
    pub buffer: ChannelBuf,
    pub pending_sends: Vec<(Option<FiberId>, Packet)>,
    pub pending_receives: Vec<Option<FiberId>>,
}

/// An operation that was completed: a send, or a receive with the packet
/// received.
#[derive(Debug)]
pub enum Completion {
    Sent(Option<FiberId>),
    Received(Option<FiberId>, Packet),
}

/// The state of a channel as values: its capacity, its buffer, its pending
/// sends and its pending receives.
pub struct SpecChannel {
    pub capacity: usize,
    pub buffer: Seq<Packet>,
    pub sends: Seq<(Option<FiberId>, Packet)>,
    pub receives: Seq<Option<FiberId>>,
}

impl View for InternalChannel {
    type V = SpecChannel;

    open spec fn view(&self) -> SpecChannel {
        SpecChannel {
            capacity: self.buffer.capacity,
            buffer: self.buffer.packets@,
            sends: self.pending_sends@,
            receives: self.pending_receives@,
        }
    }
}

/// The buffer holds no more than the channel's capacity.
pub open spec fn channel_wf(c: SpecChannel) -> bool {
    c.buffer.len() <= c.capacity
}

/// Nothing more can be done: a channel without capacity has no send and
/// receive waiting together; one with capacity has no send waiting while
/// there is room and no receive waiting while there are packets.
pub open spec fn settled(c: SpecChannel) -> bool {
    if c.capacity == 0 {
        c.sends.len() == 0 || c.receives.len() == 0
    } else {
        &&& (c.buffer.len() >= c.capacity || c.sends.len() == 0)
        &&& (c.buffer.len() == 0 || c.receives.len() == 0)
    }
}

/// The completions of handing the first `k` sent packets directly to the
/// first `k` receivers: each send, then its receive.
pub open spec fn handed_over(
    sends: Seq<(Option<FiberId>, Packet)>,
    receives: Seq<Option<FiberId>>,
    k: nat,
) -> Seq<Completion>
    decreases k,
{
    if k == 0 {
        Seq::empty()
    } else {
        handed_over(sends, receives, (k - 1) as nat) + seq![
            Completion::Sent(sends[k - 1].0),
            Completion::Received(receives[k - 1], sends[k - 1].1),
        ]
    }
}

/// One round on a channel with capacity: the oldest send moves its packet
/// into the buffer if there is room, then the oldest receive takes the
/// oldest buffered packet if there is one.
pub open spec fn buffered_round(c: SpecChannel) -> (SpecChannel, Seq<Completion>) {
    let (c1, done1) = if c.buffer.len() < c.capacity && c.sends.len() > 0 {
        (
            SpecChannel {
                buffer: c.buffer.push(c.sends[0].1),
                sends: c.sends.drop_first(),
                ..c
            },
            seq![Completion::Sent(c.sends[0].0)],
        )
    } else {
        (c, Seq::empty())
    };
    if c1.buffer.len() > 0 && c1.receives.len() > 0 {
        (
            SpecChannel {
                buffer: c1.buffer.drop_first(),
                receives: c1.receives.drop_first(),
                ..c1
            },
            done1.push(Completion::Received(c1.receives[0], c1.buffer[0])),
        )
    } else {
        (c1, done1)
    }
}

/// Rounds on a channel with capacity until one does nothing.
pub open spec fn buffered_work(c: SpecChannel) -> (SpecChannel, Seq<Completion>)
    decreases c.sends.len() + c.receives.len(),
{
    let (c1, done) = buffered_round(c);
    if done.len() == 0 {
        (c, Seq::empty())
    } else {
        let (c2, rest) = buffered_work(c1);
        (c2, done + rest)
    }
}

/// Working on the pending operations: without capacity, the first sends are
/// handed to the first receives, as many as both have; with capacity, rounds
/// of buffering.
pub open spec fn worked(c: SpecChannel) -> (SpecChannel, Seq<Completion>) {
    if c.capacity == 0 {
        let k = if c.sends.len() <= c.receives.len() {
            c.sends.len()
        } else {
            c.receives.len()
        };
        (
            SpecChannel { sends: c.sends.skip(k as int), receives: c.receives.skip(k as int), ..c },
            handed_over(c.sends, c.receives, k),
        )
    } else {
        buffered_work(c)
    }
}

/// A round keeps the buffer within the capacity.
proof fn lemma_round_wf(c: SpecChannel)
    requires
        channel_wf(c),
    ensures
        channel_wf(buffered_round(c).0),
        buffered_round(c).0.capacity == c.capacity,
        buffered_round(c).1.len() == 0 ==> buffered_round(c).0 == c,
        buffered_round(c).1.len() > 0 ==> buffered_round(c).0.sends.len()
            + buffered_round(c).0.receives.len() < c.sends.len() + c.receives.len(),
{
}

/// Working on the pending operations keeps the buffer within the capacity
/// and leaves the channel settled.
pub proof fn lemma_worked_settled(c: SpecChannel)
    requires
        channel_wf(c),
    ensures
        channel_wf(worked(c).0),
        settled(worked(c).0),
        worked(c).0.capacity == c.capacity,
    decreases c.sends.len() + c.receives.len(),
{
    if c.capacity > 0 {
        lemma_buffered_work_settled(c);
    }
}

proof fn lemma_buffered_work_settled(c: SpecChannel)
    requires
        channel_wf(c),
        c.capacity > 0,
    ensures
        channel_wf(buffered_work(c).0),
        settled(buffered_work(c).0),
        buffered_work(c).0.capacity == c.capacity,
    decreases c.sends.len() + c.receives.len(),
{
    lemma_round_wf(c);
    let (c1, done) = buffered_round(c);
    if done.len() > 0 {
        lemma_buffered_work_settled(c1);
    }
}

/// Removes the first send and gives it.
fn take_first_send(sends: &mut Vec<(Option<FiberId>, Packet)>) -> (res: (Option<FiberId>, Packet))
    requires
        old(sends)@.len() > 0,
    ensures
        res == old(sends)@[0],
        final(sends)@ == old(sends)@.drop_first(),
{
    let res = sends.remove(0);
    proof {
        assert(old(sends)@.remove(0) =~= old(sends)@.drop_first());
    }
    res
}

/// Removes the first receive and gives it.
fn take_first_receive(receives: &mut Vec<Option<FiberId>>) -> (res: Option<FiberId>)
    requires
        old(receives)@.len() > 0,
    ensures
        res == old(receives)@[0],
        final(receives)@ == old(receives)@.drop_first(),
{
    let res = receives.remove(0);
    proof {
        assert(old(receives)@.remove(0) =~= old(receives)@.drop_first());
    }
    res
}

/// Removes the oldest buffered packet and gives it.
fn take_first_packet(packets: &mut Vec<Packet>) -> (res: Packet)
    requires
        old(packets)@.len() > 0,
    ensures
        res == old(packets)@[0],
        final(packets)@ == old(packets)@.drop_first(),
{
    let res = packets.remove(0);
    proof {
        assert(old(packets)@.remove(0) =~= old(packets)@.drop_first());
    }
    res
}

impl InternalChannel {
    /// A channel with the capacity and nothing pending.
    pub fn new(capacity: usize) -> (res: Self)
        ensures
            res@.capacity == capacity,
            res@.buffer.len() == 0,
            res@.sends.len() == 0,
            res@.receives.len() == 0,
    {
        InternalChannel {
            buffer: ChannelBuf { capacity, packets: Vec::new() },
            pending_sends: Vec::new(),
            pending_receives: Vec::new(),
        }
    }

    /// Queues the send and completes what can be completed.
    pub fn send(&mut self, performing_fiber: Option<FiberId>, packet: Packet) -> (res: Vec<
        Completion,
    >)
        requires
            channel_wf(old(self)@),
        ensures
            ({
                let queued = SpecChannel {
                    sends: old(self)@.sends.push((performing_fiber, packet)),
                    ..old(self)@
                };
                final(self)@ == worked(queued).0 && res@ == worked(queued).1
            }),
            channel_wf(final(self)@),
            settled(final(self)@),
    {
        self.pending_sends.push((performing_fiber, packet));
        self.work_on_pending_operations()
    }

    /// Queues the receive and completes what can be completed.
    pub fn receive(&mut self, performing_fiber: Option<FiberId>) -> (res: Vec<Completion>)
        requires
            channel_wf(old(self)@),
        ensures
            ({
                let queued = SpecChannel {
                    receives: old(self)@.receives.push(performing_fiber),
                    ..old(self)@
                };
                final(self)@ == worked(queued).0 && res@ == worked(queued).1
            }),
            channel_wf(final(self)@),
            settled(final(self)@),
    {
        self.pending_receives.push(performing_fiber);
        self.work_on_pending_operations()
    }

    /// Completes as many pending operations as the buffer allows, oldest
    /// first, and gives the completed operations in the order they were
    /// completed.
    pub fn work_on_pending_operations(&mut self) -> (res: Vec<Completion>)
        requires
            channel_wf(old(self)@),
        ensures
            final(self)@ == worked(old(self)@).0,
            res@ == worked(old(self)@).1,
            channel_wf(final(self)@),
            settled(final(self)@),
    {
        proof {
            lemma_worked_settled(self@);
        }
        let mut completions: Vec<Completion> = Vec::new();
        if self.buffer.capacity == 0 {
            let ghost o = self@;
            let ghost k: nat = if o.sends.len() <= o.receives.len() {
                o.sends.len()
            } else {
                o.receives.len()
            };
            let ghost mut i: nat = 0;
            proof {
                assert(o.sends.skip(0) =~= o.sends);
                assert(o.receives.skip(0) =~= o.receives);
                assert(completions@ =~= handed_over(o.sends, o.receives, 0));
            }
            while self.pending_sends.len() > 0 && self.pending_receives.len() > 0
                invariant
                    i <= k,
                    self@ == (SpecChannel {
                        sends: o.sends.skip(i as int),
                        receives: o.receives.skip(i as int),
                        ..o
                    }),
                    completions@ == handed_over(o.sends, o.receives, i),
                    k == if o.sends.len() <= o.receives.len() {
                        o.sends.len()
                    } else {
                        o.receives.len()
                    },
                decreases self.pending_sends@.len(),
            {
                let (send_id, packet) = take_first_send(&mut self.pending_sends);
                let receive_id = take_first_receive(&mut self.pending_receives);
                proof {
                    assert(o.sends.skip(i as int)[0] == o.sends[i as int]);
                    assert(o.receives.skip(i as int)[0] == o.receives[i as int]);
                    assert(o.sends.skip(i as int).drop_first() =~= o.sends.skip(i as int + 1));
                    assert(o.receives.skip(i as int).drop_first() =~= o.receives.skip(i as int + 1));
                }
                completions.push(Completion::Sent(send_id));
                completions.push(Completion::Received(receive_id, packet));
                proof {
                    i = i + 1;
                    assert(completions@ =~= handed_over(o.sends, o.receives, i));
                }
            }
            proof {
                assert(i == k);
            }
        } else {
            let ghost o = self@;
            loop
                invariant
                    self@.capacity > 0,
                    channel_wf(self@),
                    buffered_work(o) == ({
                        let (c, rest) = buffered_work(self@);
                        (c, completions@ + rest)
                    }),
                ensures
                    buffered_work(o) == (self@, completions@),
                decreases self@.sends.len() + self@.receives.len(),
            {
                let ghost before = self@;
                let ghost done_before = completions@;
                proof {
                    lemma_round_wf(before);
                }
                let mut did_perform_operation = false;
                if self.buffer.packets.len() < self.buffer.capacity && self.pending_sends.len() > 0 {
                    let (fiber, packet) = take_first_send(&mut self.pending_sends);
                    self.buffer.packets.push(packet);
                    completions.push(Completion::Sent(fiber));
                    did_perform_operation = true;
                }
                if self.buffer.packets.len() > 0 && self.pending_receives.len() > 0 {
                    let fiber = take_first_receive(&mut self.pending_receives);
                    let packet = take_first_packet(&mut self.buffer.packets);
                    completions.push(Completion::Received(fiber, packet));
                    did_perform_operation = true;
                }
                proof {
                    let (c1, done) = buffered_round(before);
                    assert(self@ == c1);
                    assert(completions@ =~= done_before + done);
                    assert(did_perform_operation == (done.len() > 0));
                    if done.len() > 0 {
                        let (c2, rest) = buffered_work(c1);
                        assert(buffered_work(before) == (c2, done + rest));
                        assert(done_before + (done + rest) =~= completions@ + rest);
                    } else {
                        assert(buffered_work(before) == (before, Seq::<Completion>::empty()));
                        assert(completions@ =~= done_before);
                        assert(done_before + Seq::<Completion>::empty() =~= done_before);
                    }
                }
                if !did_perform_operation {
                    break;
                }
            }
        }
        completions
    }
}

// ----------------------------------------------------------------------------
// Laws: first in, first out.

/// The packets of the sends, in order.
pub open spec fn sent_packets(sends: Seq<(Option<FiberId>, Packet)>) -> Seq<Packet> {
    sends.map_values(|s: (Option<FiberId>, Packet)| s.1)
}

/// The fibers of the sends, in order.
pub open spec fn sending_fibers(sends: Seq<(Option<FiberId>, Packet)>) -> Seq<Option<FiberId>> {
    sends.map_values(|s: (Option<FiberId>, Packet)| s.0)
}

/// The packets that the completed receives got, in order.
pub open spec fn received_packets(done: Seq<Completion>) -> Seq<Packet>
    decreases done.len(),
{
    if done.len() == 0 {
        Seq::empty()
    } else {
        let rest = received_packets(done.drop_last());
        match done.last() {
            Completion::Received(_, p) => rest.push(p),
            Completion::Sent(_) => rest,
        }
    }
}

/// The fibers whose receives completed, in order.
pub open spec fn receiving_fibers(done: Seq<Completion>) -> Seq<Option<FiberId>>
    decreases done.len(),
{
    if done.len() == 0 {
        Seq::empty()
    } else {
        let rest = receiving_fibers(done.drop_last());
        match done.last() {
            Completion::Received(f, _) => rest.push(f),
            Completion::Sent(_) => rest,
        }
    }
}

/// The fibers whose sends completed, in order.
pub open spec fn completed_senders(done: Seq<Completion>) -> Seq<Option<FiberId>>
    decreases done.len(),
{
    if done.len() == 0 {
        Seq::empty()
    } else {
        let rest = completed_senders(done.drop_last());
        match done.last() {
            Completion::Sent(f) => rest.push(f),
            Completion::Received(_, _) => rest,
        }
    }
}

/// Reading completions one run after another reads each run in turn.
proof fn lemma_completions_add(a: Seq<Completion>, b: Seq<Completion>)
    ensures
        received_packets(a + b) == received_packets(a) + received_packets(b),
        receiving_fibers(a + b) == receiving_fibers(a) + receiving_fibers(b),
        completed_senders(a + b) == completed_senders(a) + completed_senders(b),
    decreases b.len(),
{
    if b.len() == 0 {
        assert(a + b =~= a);
        assert(received_packets(a) + received_packets(b) =~= received_packets(a));
        assert(receiving_fibers(a) + receiving_fibers(b) =~= receiving_fibers(a));
        assert(completed_senders(a) + completed_senders(b) =~= completed_senders(a));
    } else {
        lemma_completions_add(a, b.drop_last());
        assert((a + b).drop_last() =~= a + b.drop_last());
        assert((a + b).last() == b.last());
        assert(received_packets(a + b) =~= received_packets(a) + received_packets(b));
        assert(receiving_fibers(a + b) =~= receiving_fibers(a) + receiving_fibers(b));
        assert(completed_senders(a + b) =~= completed_senders(a) + completed_senders(b));
    }
}

/// The channel's packets, queue and waiting fibers, all in order, are what
/// the completions took from the front and what is left behind them.
pub open spec fn first_in_first_out(c: SpecChannel, n: SpecChannel, done: Seq<Completion>) -> bool {
    &&& c.buffer + sent_packets(c.sends) == received_packets(done) + (n.buffer + sent_packets(
        n.sends,
    ))
    &&& c.receives == receiving_fibers(done) + n.receives
    &&& sending_fibers(c.sends) == completed_senders(done) + sending_fibers(n.sends)
}

proof fn lemma_handed_over(sends: Seq<(Option<FiberId>, Packet)>, receives: Seq<Option<FiberId>>, k: nat)
    requires
        k <= sends.len(),
        k <= receives.len(),
    ensures
        received_packets(handed_over(sends, receives, k)) == sent_packets(sends).take(k as int),
        receiving_fibers(handed_over(sends, receives, k)) == receives.take(k as int),
        completed_senders(handed_over(sends, receives, k)) == sending_fibers(sends).take(k as int),
    decreases k,
{
    if k > 0 {
        let k1 = (k - 1) as nat;
        lemma_handed_over(sends, receives, k1);
        let pair = seq![
            Completion::Sent(sends[k - 1].0),
            Completion::Received(receives[k - 1], sends[k - 1].1),
        ];
        let sent = seq![Completion::Sent(sends[k - 1].0)];
        let got = seq![Completion::Received(receives[k - 1], sends[k - 1].1)];
        assert(pair =~= sent + got);
        lemma_single_completion(Completion::Sent(sends[k - 1].0));
        lemma_single_completion(Completion::Received(receives[k - 1], sends[k - 1].1));
        lemma_completions_add(sent, got);
        lemma_completions_add(handed_over(sends, receives, k1), pair);
        assert(received_packets(pair) =~= seq![sends[k - 1].1]);
        assert(receiving_fibers(pair) =~= seq![receives[k - 1]]);
        assert(completed_senders(pair) =~= seq![sends[k - 1].0]);
        assert(sent_packets(sends).take(k as int) =~= sent_packets(sends).take(k1 as int).push(
            sends[k - 1].1,
        ));
        assert(receives.take(k as int) =~= receives.take(k1 as int).push(receives[k - 1]));
        assert(sending_fibers(sends).take(k as int) =~= sending_fibers(sends).take(k1 as int).push(
            sends[k - 1].0,
        ));
    } else {
        assert(received_packets(Seq::<Completion>::empty()) =~= sent_packets(sends).take(0));
        assert(receives.take(0) =~= Seq::<Option<FiberId>>::empty());
        assert(sending_fibers(sends).take(0) =~= Seq::<Option<FiberId>>::empty());
    }
}

/// What a single completion gives.
proof fn lemma_single_completion(x: Completion)
    ensures
        received_packets(seq![x]) == (match x {
            Completion::Received(_, p) => seq![p],
            Completion::Sent(_) => Seq::<Packet>::empty(),
        }),
        receiving_fibers(seq![x]) == (match x {
            Completion::Received(f, _) => seq![f],
            Completion::Sent(_) => Seq::<Option<FiberId>>::empty(),
        }),
        completed_senders(seq![x]) == (match x {
            Completion::Sent(f) => seq![f],
            Completion::Received(_, _) => Seq::<Option<FiberId>>::empty(),
        }),
{
    assert(seq![x].drop_last() =~= Seq::<Completion>::empty());
    assert(seq![x].last() == x);
    assert(received_packets(Seq::<Completion>::empty()) =~= Seq::<Packet>::empty());
    assert(receiving_fibers(Seq::<Completion>::empty()) =~= Seq::<Option<FiberId>>::empty());
    assert(completed_senders(Seq::<Completion>::empty()) =~= Seq::<Option<FiberId>>::empty());
    assert(Seq::<Packet>::empty().push(x->Received_1) =~= seq![x->Received_1]);
}

proof fn lemma_round_fifo(c: SpecChannel)
    ensures
        first_in_first_out(c, buffered_round(c).0, buffered_round(c).1),
{
    let moves = c.buffer.len() < c.capacity && c.sends.len() > 0;
    let c1 = if moves {
        SpecChannel { buffer: c.buffer.push(c.sends[0].1), sends: c.sends.drop_first(), ..c }
    } else {
        c
    };
    let serves = c1.buffer.len() > 0 && c1.receives.len() > 0;
    let (n, done) = buffered_round(c);
    let empty = Seq::<Completion>::empty();
    assert(received_packets(empty) =~= Seq::<Packet>::empty());
    assert(receiving_fibers(empty) =~= Seq::<Option<FiberId>>::empty());
    assert(completed_senders(empty) =~= Seq::<Option<FiberId>>::empty());
    let sent = seq![Completion::Sent(c.sends[0].0)];
    let got = seq![Completion::Received(c1.receives[0], c1.buffer[0])];
    if moves {
        lemma_single_completion(Completion::Sent(c.sends[0].0));
        assert(c.buffer + sent_packets(c.sends) =~= c1.buffer + sent_packets(c1.sends));
        assert(sending_fibers(c.sends) =~= seq![c.sends[0].0] + sending_fibers(c1.sends));
    }
    if serves {
        lemma_single_completion(Completion::Received(c1.receives[0], c1.buffer[0]));
        assert(c1.buffer + sent_packets(c1.sends) =~= seq![c1.buffer[0]] + (n.buffer
            + sent_packets(n.sends)));
        assert(c1.receives =~= seq![c1.receives[0]] + n.receives);
    }
    if moves && serves {
        assert(done == sent.push(got[0]));
        assert(done =~= sent + got);
        lemma_completions_add(sent, got);
    } else if moves {
        assert(done == sent);
        assert(n == c1);
    } else if serves {
        assert(done =~= got);
    } else {
        assert(done == empty);
    }
    assert(c.buffer + sent_packets(c.sends) =~= received_packets(done) + (n.buffer + sent_packets(
        n.sends,
    )));
    assert(c.receives =~= receiving_fibers(done) + n.receives);
    assert(sending_fibers(c.sends) =~= completed_senders(done) + sending_fibers(n.sends));
}

proof fn lemma_buffered_work_fifo(c: SpecChannel)
    ensures
        first_in_first_out(c, buffered_work(c).0, buffered_work(c).1),
    decreases c.sends.len() + c.receives.len(),
{
    let (c1, done) = buffered_round(c);
    if done.len() == 0 {
        assert(c.buffer + sent_packets(c.sends) =~= received_packets(Seq::<Completion>::empty()) + (
        c.buffer + sent_packets(c.sends)));
        assert(c.receives =~= receiving_fibers(Seq::<Completion>::empty()) + c.receives);
        assert(sending_fibers(c.sends) =~= completed_senders(Seq::<Completion>::empty())
            + sending_fibers(c.sends));
    } else {
        lemma_round_fifo(c);
        lemma_round_progress(c);
        lemma_buffered_work_fifo(c1);
        let (c2, rest) = buffered_work(c1);
        lemma_completions_add(done, rest);
        assert(c.buffer + sent_packets(c.sends) =~= received_packets(done + rest) + (c2.buffer
            + sent_packets(c2.sends)));
        assert(c.receives =~= receiving_fibers(done + rest) + c2.receives);
        assert(sending_fibers(c.sends) =~= completed_senders(done + rest) + sending_fibers(
            c2.sends,
        ));
    }
}

proof fn lemma_round_progress(c: SpecChannel)
    ensures
        buffered_round(c).1.len() > 0 ==> buffered_round(c).0.sends.len()
            + buffered_round(c).0.receives.len() < c.sends.len() + c.receives.len(),
{
}

/// Channels are first in, first out: working on the pending operations
/// hands receivers the oldest packets (buffered ones first, then those of
/// the oldest sends), serves the oldest receives and completes the oldest
/// sends first, and loses or invents no packet.
pub proof fn lemma_worked_first_in_first_out(c: SpecChannel)
    requires
        channel_wf(c),
    ensures
        first_in_first_out(c, worked(c).0, worked(c).1),
{
    if c.capacity == 0 {
        let k: nat = if c.sends.len() <= c.receives.len() {
            c.sends.len()
        } else {
            c.receives.len()
        };
        lemma_handed_over(c.sends, c.receives, k);
        let (n, done) = worked(c);
        assert(c.buffer.len() == 0);
        assert(sent_packets(n.sends) =~= sent_packets(c.sends).skip(k as int));
        assert(sending_fibers(n.sends) =~= sending_fibers(c.sends).skip(k as int));
        assert(c.buffer + sent_packets(c.sends) =~= received_packets(done) + (n.buffer
            + sent_packets(n.sends)));
        assert(c.receives =~= receiving_fibers(done) + n.receives);
        assert(sending_fibers(c.sends) =~= completed_senders(done) + sending_fibers(n.sends));
    } else {
        lemma_buffered_work_fifo(c);
    }
}

} // verus!
