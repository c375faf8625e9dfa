//! The framing engine: a low-level representation of a D-Bus connection.
//!
//! A [`Connection`] owns the two directions of one socket's framing state:
//! inbound, an accumulator of received bytes and file descriptors from which
//! complete messages are extracted one by one; and outbound, a queue of
//! messages drained as a stream of byte chunks. The socket itself lives with
//! the driver: the driver reads bytes and hands them to [`Connection::accept_bytes`],
//! extracts messages with [`Connection::try_receive_message`], asks
//! [`Connection::try_flush`] for the next chunk to write and reports progress
//! with [`Connection::mark_sent`]. All framing state survives arbitrarily
//! many partial reads and writes.

use crate::message::{Error, Message};
use crate::wire::{
    copy_range, head_endian_ok, head_ok, read_head, spec_head, spec_head_total,
    MAX_MESSAGE_SIZE, MIN_MESSAGE_SIZE,
};
use std::collections::VecDeque;
use vstd::prelude::*;

verus! {

broadcast use vstd::std_specs::vecdeque::group_vec_dequeue_axioms;

/// The frames contained in a byte stream, split greedily: each frame's length
/// is declared by its own first 16 bytes. Splitting stops at an incomplete
/// trailing frame or at a header the protocol rejects.
pub open spec fn frames_of(s: Seq<u8>) -> Seq<Seq<u8>>
    decreases s.len(),
{
    if s.len() < 16 {
        Seq::empty()
    } else if !head_ok(s) {
        Seq::empty()
    } else if s.len() < spec_head_total(s) {
        Seq::empty()
    } else {
        seq![s.take(spec_head_total(s))] + frames_of(s.skip(spec_head_total(s)))
    }
}

/// What remains of a byte stream after its complete frames are removed.
pub open spec fn rest_of(s: Seq<u8>) -> Seq<u8>
    decreases s.len(),
{
    if s.len() < 16 {
        s
    } else if !head_ok(s) {
        s
    } else if s.len() < spec_head_total(s) {
        s
    } else {
        rest_of(s.skip(spec_head_total(s)))
    }
}

/// The remainder of a stream holds no further complete frame.
pub proof fn lemma_rest_frame_free(s: Seq<u8>)
    ensures
        frames_of(rest_of(s)).len() == 0,
    decreases s.len(),
{
    if s.len() < 16 || !head_ok(s) || s.len() < spec_head_total(s) {
    } else {
        lemma_rest_frame_free(s.skip(spec_head_total(s)));
    }
}

/// Appending bytes to a stream extends its frames: the frames of `a + b` are
/// the frames already complete in `a` followed by the frames completed once
/// `b` arrives after `a`'s remainder.
pub proof fn lemma_frames_append(a: Seq<u8>, b: Seq<u8>)
    ensures
        frames_of(a + b) == frames_of(a) + frames_of(rest_of(a) + b),
        rest_of(a + b) == rest_of(rest_of(a) + b),
    decreases a.len(),
{
    if a.len() < 16 || !head_ok(a) || a.len() < spec_head_total(a) {
        assert(rest_of(a) == a);
        assert(frames_of(a).len() == 0);
        assert(Seq::<Seq<u8>>::empty() + frames_of(a + b) =~= frames_of(a + b));
    } else {
        let t = spec_head_total(a);
        assert((a + b).subrange(0, 16) =~= a.subrange(0, 16));
        crate::wire::lemma_head_prefix(a + b, a);
        assert(spec_head_total(a + b) == t);
        assert(head_ok(a + b));
        assert((a + b).len() >= t);
        assert((a + b).take(t) =~= a.take(t));
        assert((a + b).skip(t) =~= a.skip(t) + b);
        lemma_frames_append(a.skip(t), b);
        assert(frames_of(a + b) == seq![a.take(t)] + (frames_of(a.skip(t)) + frames_of(
            rest_of(a.skip(t)) + b,
        )));
        vstd::seq_lib::lemma_concat_associative(
            seq![a.take(t)],
            frames_of(a.skip(t)),
            frames_of(rest_of(a.skip(t)) + b),
        );
        assert(frames_of(a) == seq![a.take(t)] + frames_of(a.skip(t)));
        assert(rest_of(a) == rest_of(a.skip(t)));
    }
}

/// Concatenation of a list of byte chunks.
pub open spec fn concat_chunks(cs: Seq<Seq<u8>>) -> Seq<u8>
    decreases cs.len(),
{
    if cs.len() == 0 {
        Seq::empty()
    } else {
        cs[0] + concat_chunks(cs.drop_first())
    }
}

/// The frames delivered when a stream arrives chunk by chunk: after each
/// chunk, every complete frame is extracted before the next chunk arrives.
pub open spec fn fold_frames(acc: Seq<u8>, cs: Seq<Seq<u8>>) -> Seq<Seq<u8>>
    decreases cs.len(),
{
    if cs.len() == 0 {
        Seq::empty()
    } else {
        frames_of(acc + cs[0]) + fold_frames(rest_of(acc + cs[0]), cs.drop_first())
    }
}

/// Chunking independence: however an inbound byte stream is partitioned into
/// chunks — one byte at a time or all at once — extracting messages after
/// each chunk delivers exactly the frames of the whole stream, in order.
pub proof fn lemma_receive_chunking(acc: Seq<u8>, cs: Seq<Seq<u8>>)
    requires
        frames_of(acc).len() == 0,
    ensures
        fold_frames(acc, cs) == frames_of(acc + concat_chunks(cs)),
    decreases cs.len(),
{
    if cs.len() == 0 {
        assert(acc + Seq::<u8>::empty() =~= acc);
    } else {
        let rest = concat_chunks(cs.drop_first());
        assert((acc + cs[0]) + rest =~= acc + concat_chunks(cs));
        lemma_frames_append(acc + cs[0], rest);
        lemma_rest_frame_free(acc + cs[0]);
        lemma_receive_chunking(rest_of(acc + cs[0]), cs.drop_first());
    }
}

/// Loopback round trip: a well-formed frame put on the wire arrives as
/// exactly that one frame, with nothing left over. Together with the codec
/// round-trip lemmas, a message encoded on one side of a pair decodes on the
/// other side to the same structure.
pub proof fn lemma_single_frame_stream(s: Seq<u8>)
    requires
        crate::message::frame_wf(s),
    ensures
        frames_of(s) == seq![s],
        rest_of(s).len() == 0,
{
    let t = spec_head_total(s);
    assert(head_ok(s));
    assert(s.take(t) =~= s);
    assert(s.skip(t) =~= Seq::<u8>::empty());
    assert(frames_of(Seq::<u8>::empty()) =~= Seq::<Seq<u8>>::empty());
    assert(rest_of(Seq::<u8>::empty()).len() == 0);
    assert(frames_of(s) =~= seq![s]);
}

/// Transport round trip: the wire carrying a sequence of well-formed frames
/// back to back — which is exactly what a drained outbound queue emits — is
/// framed by the receiver into exactly those frames, in order. With the codec
/// round-trip lemmas, each then decodes to the structure it was built from.
pub proof fn lemma_wire_frames_round_trip(frames: Seq<Seq<u8>>)
    requires
        forall|k: int| 0 <= k < frames.len() ==> crate::message::frame_wf(#[trigger] frames[k]),
    ensures
        frames_of(concat_chunks(frames)) == frames,
    decreases frames.len(),
{
    if frames.len() == 0 {
        assert(frames_of(Seq::<u8>::empty()) =~= frames);
    } else {
        let f0 = frames[0];
        let rest = concat_chunks(frames.drop_first());
        lemma_frames_append(f0, rest);
        lemma_single_frame_stream(f0);
        assert(rest_of(f0) + rest =~= rest);
        assert(forall|k: int|
            0 <= k < frames.drop_first().len() ==> crate::message::frame_wf(
                #[trigger] frames.drop_first()[k],
            ));
        lemma_wire_frames_round_trip(frames.drop_first());
        assert(seq![f0] + frames.drop_first() =~= frames);
    }
}

/// One step of the outbound story: a message's bytes are enqueued, or the
/// driver reports `n` bytes of the pending stream written to the socket.
pub enum OutEvent {
    Enqueue(Seq<u8>),
    Sent(int),
}

/// Whether a sequence of outbound events is possible: the driver never
/// reports more bytes written than were pending.
pub open spec fn out_valid(p: Seq<u8>, evs: Seq<OutEvent>) -> bool
    decreases evs.len(),
{
    if evs.len() == 0 {
        true
    } else {
        match evs[0] {
            OutEvent::Enqueue(m) => out_valid(p + m, evs.drop_first()),
            OutEvent::Sent(n) => 0 <= n <= p.len() && out_valid(p.skip(n), evs.drop_first()),
        }
    }
}

/// The bytes still pending after a sequence of outbound events.
pub open spec fn out_pending(p: Seq<u8>, evs: Seq<OutEvent>) -> Seq<u8>
    decreases evs.len(),
{
    if evs.len() == 0 {
        p
    } else {
        match evs[0] {
            OutEvent::Enqueue(m) => out_pending(p + m, evs.drop_first()),
            OutEvent::Sent(n) => out_pending(p.skip(n), evs.drop_first()),
        }
    }
}

/// The bytes put on the wire by a sequence of outbound events, in order.
pub open spec fn out_wire(p: Seq<u8>, evs: Seq<OutEvent>) -> Seq<u8>
    decreases evs.len(),
{
    if evs.len() == 0 {
        Seq::empty()
    } else {
        match evs[0] {
            OutEvent::Enqueue(m) => out_wire(p + m, evs.drop_first()),
            OutEvent::Sent(n) => p.take(n) + out_wire(p.skip(n), evs.drop_first()),
        }
    }
}

/// The concatenation of every enqueued message's bytes, in enqueue order.
pub open spec fn out_enqueued(evs: Seq<OutEvent>) -> Seq<u8>
    decreases evs.len(),
{
    if evs.len() == 0 {
        Seq::empty()
    } else {
        match evs[0] {
            OutEvent::Enqueue(m) => m + out_enqueued(evs.drop_first()),
            OutEvent::Sent(n) => out_enqueued(evs.drop_first()),
        }
    }
}

/// Exactly-once emission: under any interleaving of enqueues and partial
/// writes, the bytes on the wire followed by the bytes still pending equal
/// the initial pending bytes followed by every enqueued message, in enqueue
/// order. In particular, once the queue drains, the wire carries each
/// enqueued message exactly once, byte-identical and in order.
pub proof fn lemma_outbound_exactly_once(p: Seq<u8>, evs: Seq<OutEvent>)
    requires
        out_valid(p, evs),
    ensures
        out_wire(p, evs) + out_pending(p, evs) == p + out_enqueued(evs),
    decreases evs.len(),
{
    if evs.len() == 0 {
        assert(Seq::<u8>::empty() + p =~= p);
        assert(p + Seq::<u8>::empty() =~= p);
    } else {
        match evs[0] {
            OutEvent::Enqueue(m) => {
                lemma_outbound_exactly_once(p + m, evs.drop_first());
                vstd::seq_lib::lemma_concat_associative(p, m, out_enqueued(evs.drop_first()));
            },
            OutEvent::Sent(n) => {
                lemma_outbound_exactly_once(p.skip(n), evs.drop_first());
                let w = out_wire(p.skip(n), evs.drop_first());
                let pd = out_pending(p.skip(n), evs.drop_first());
                vstd::seq_lib::lemma_concat_associative(p.take(n), w, pd);
                assert(p.take(n) + (p.skip(n) + out_enqueued(evs.drop_first())) =~= p
                    + out_enqueued(evs.drop_first()));
            },
        }
    }
}

/// Once everything pending has been written, the wire holds exactly the
/// enqueued messages, in order.
pub proof fn lemma_outbound_drained(evs: Seq<OutEvent>)
    requires
        out_valid(Seq::empty(), evs),
        out_pending(Seq::empty(), evs).len() == 0,
    ensures
        out_wire(Seq::empty(), evs) == out_enqueued(evs),
{
    lemma_outbound_exactly_once(Seq::empty(), evs);
    assert(out_wire(Seq::empty(), evs) + out_pending(Seq::empty(), evs) =~= out_wire(
        Seq::empty(),
        evs,
    ));
    assert(Seq::<u8>::empty() + out_enqueued(evs) =~= out_enqueued(evs));
}

/// Accumulated inbound framing state: the bytes and file descriptors of the
/// frame (or frames) in progress, and the last-assigned sequence number.
pub struct InBound {
    /// Received bytes not yet framed off.
    pub buffer: Vec<u8>,
    /// File descriptors received for the frame in progress.
    pub fds: Vec<i32>,
    /// Sequence number of the last message delivered.
    pub prev_seq: u64,
}

/// Outbound framing state: the queue of messages to send and how many bytes
/// of the head message have already been written.
pub struct OutBound {
    /// Bytes of the head message already written to the socket.
    pub pos: usize,
    /// Pending messages, head first.
    pub msgs: VecDeque<Message>,
}

impl OutBound {
    /// The byte frames of the queued messages, in order.
    pub open spec fn queued_bytes(self) -> Seq<Seq<u8>> {
        self.msgs@.map_values(|m: Message| m.bytes@)
    }

    /// Everything still owed to the socket: the queued frames, minus the
    /// bytes of the head already written.
    pub open spec fn pending_bytes(self) -> Seq<u8> {
        concat_chunks(self.queued_bytes()).skip(self.pos as int)
    }

    /// The outbound invariant: queued messages are well formed and the write
    /// position stays within the head message.
    pub open spec fn wf(self) -> bool {
        &&& forall|k: int| 0 <= k < self.msgs@.len() ==> (#[trigger] self.msgs@[k]).wf()
        &&& if self.msgs@.len() == 0 {
            self.pos == 0
        } else {
            self.pos <= self.msgs@[0].bytes@.len()
        }
    }
}

/// A low-level representation of a D-Bus connection: both directions of one
/// socket's framing state. The socket itself belongs to the driver.
pub struct Connection {
    /// Inbound accumulation.
    pub inbound: InBound,
    /// Outbound queue.
    pub outbound: OutBound,
}

/// Concatenating one more chunk extends the concatenation.
proof fn lemma_concat_push(ss: Seq<Seq<u8>>, x: Seq<u8>)
    ensures
        concat_chunks(ss.push(x)) == concat_chunks(ss) + x,
    decreases ss.len(),
{
    if ss.len() == 0 {
        assert(ss.push(x)[0] == x);
        assert(ss.push(x).drop_first() =~= Seq::<Seq<u8>>::empty());
        assert(concat_chunks(Seq::<Seq<u8>>::empty()) == Seq::<u8>::empty());
        assert(concat_chunks(ss.push(x)) =~= x);
        assert(concat_chunks(ss) + x =~= x);
    } else {
        assert(ss.push(x).drop_first() =~= ss.drop_first().push(x));
        lemma_concat_push(ss.drop_first(), x);
        vstd::seq_lib::lemma_concat_associative(ss[0], concat_chunks(ss.drop_first()), x);
    }
}

/// Copies a file-descriptor list.
fn copy_fds(v: &Vec<i32>) -> (r: Vec<i32>)
    ensures
        r@ == v@,
{
    let mut r: Vec<i32> = Vec::new();
    let mut k: usize = 0;
    while k < v.len()
        invariant
            k <= v@.len(),
            r@ == v@.subrange(0, k as int),
        decreases v@.len() - k,
    {
        r.push(v[k]);
        proof {
            assert(r@ =~= v@.subrange(0, k + 1 as int));
        }
        k = k + 1;
    }
    proof {
        assert(v@.subrange(0, v@.len() as int) =~= v@);
    }
    r
}

/// Appends `data` to `out`.
fn append_bytes(out: &mut Vec<u8>, data: &Vec<u8>)
    ensures
        final(out)@ == old(out)@ + data@,
{
    let mut k: usize = 0;
    while k < data.len()
        invariant
            k <= data@.len(),
            out@ == old(out)@ + data@.subrange(0, k as int),
        decreases data@.len() - k,
    {
        out.push(data[k]);
        proof {
            assert(old(out)@ + data@.subrange(0, k as int) + seq![data@[k as int]] =~= old(out)@
                + data@.subrange(0, k + 1 as int));
        }
        k = k + 1;
    }
    proof {
        assert(data@.subrange(0, data@.len() as int) =~= data@);
    }
}

/// Appends `fds` to `out`.
fn append_fds(out: &mut Vec<i32>, fds: &Vec<i32>)
    ensures
        final(out)@ == old(out)@ + fds@,
{
    let mut k: usize = 0;
    while k < fds.len()
        invariant
            k <= fds@.len(),
            out@ == old(out)@ + fds@.subrange(0, k as int),
        decreases fds@.len() - k,
    {
        out.push(fds[k]);
        proof {
            assert(old(out)@ + fds@.subrange(0, k as int) + seq![fds@[k as int]] =~= old(out)@
                + fds@.subrange(0, k + 1 as int));
        }
        k = k + 1;
    }
    proof {
        assert(fds@.subrange(0, fds@.len() as int) =~= fds@);
    }
}

/// The inbound accumulator holds too few bytes for a complete frame.
pub open spec fn recv_incomplete(s: Seq<u8>) -> bool {
    s.len() < 16 || (head_ok(s) && s.len() < spec_head_total(s))
}

/// The accumulated header announces no known byte order.
pub open spec fn recv_bad_endian(s: Seq<u8>) -> bool {
    s.len() >= 16 && !head_endian_ok(s)
}

/// The accumulated header declares a frame over the protocol limit.
pub open spec fn recv_oversize(s: Seq<u8>) -> bool {
    s.len() >= 16 && head_endian_ok(s) && spec_head_total(s) > MAX_MESSAGE_SIZE as int
}

/// A complete frame is buffered and ready for extraction.
pub open spec fn recv_frame_ready(s: Seq<u8>) -> bool {
    s.len() >= 16 && head_ok(s) && s.len() >= spec_head_total(s)
}

impl Connection {
    /// The numbering transition [`Connection::try_receive_message`] promises
    /// for every delivered message: it carries one more than the
    /// last-assigned sequence number, which it becomes.
    pub open spec fn delivery_rel(pre: Connection, m: Message, post: Connection) -> bool {
        &&& m.seq_num == pre.inbound.prev_seq + 1
        &&& post.inbound.prev_seq == m.seq_num
    }

    /// Whether `states` and `msgs` record a chain of deliveries: `states[k]`
    /// steps to `states[k + 1]` delivering `msgs[k]`.
    pub open spec fn delivery_trace(states: Seq<Connection>, msgs: Seq<Message>) -> bool {
        &&& states.len() == msgs.len() + 1
        &&& forall|k: int|
            0 <= k < msgs.len() ==> Connection::delivery_rel(
                #[trigger] states[k],
                msgs[k],
                states[k + 1],
            )
    }

    /// Along a chain of deliveries, the k-th message carries the starting
    /// sequence number plus k plus one.
    pub proof fn lemma_delivery_trace_value(states: Seq<Connection>, msgs: Seq<Message>, k: int)
        requires
            Connection::delivery_trace(states, msgs),
            0 <= k < msgs.len(),
        ensures
            msgs[k].seq_num == states[0].inbound.prev_seq + k + 1,
        decreases k,
    {
        assert(Connection::delivery_rel(states[k], msgs[k], states[k + 1]));
        if k > 0 {
            Connection::lemma_delivery_trace_value(states, msgs, k - 1);
            assert(Connection::delivery_rel(states[k - 1], msgs[k - 1], states[k]));
        }
    }

    /// Law: inbound sequence numbers are strictly monotonic. Along any chain
    /// of deliveries, later messages carry strictly larger numbers; on a
    /// fresh framer, whose last-assigned number is 0, the k-th message
    /// carries k + 1 — the numbering starts from 1.
    pub proof fn lemma_inbound_seq_strictly_monotonic(
        states: Seq<Connection>,
        msgs: Seq<Message>,
    )
        requires
            Connection::delivery_trace(states, msgs),
        ensures
            forall|i: int, j: int| 0 <= i < j < msgs.len() ==> msgs[i].seq_num < msgs[j].seq_num,
            states.len() > 0 && states[0].inbound.prev_seq == 0 ==> forall|i: int|
                0 <= i < msgs.len() ==> msgs[i].seq_num == i + 1,
    {
        assert forall|i: int, j: int| 0 <= i < j < msgs.len() implies msgs[i].seq_num
            < msgs[j].seq_num by {
            Connection::lemma_delivery_trace_value(states, msgs, i);
            Connection::lemma_delivery_trace_value(states, msgs, j);
        }
        if states.len() > 0 && states[0].inbound.prev_seq == 0 {
            assert forall|i: int| 0 <= i < msgs.len() implies msgs[i].seq_num == i + 1 by {
                Connection::lemma_delivery_trace_value(states, msgs, i);
            }
        }
    }

    /// The connection invariant.
    pub open spec fn wf(self) -> bool {
        self.outbound.wf()
    }

    /// Everything still owed to the socket.
    pub open spec fn pending_bytes(self) -> Seq<u8> {
        self.outbound.pending_bytes()
    }

    /// The bytes received and not yet framed off.
    pub open spec fn inbound_acc(self) -> Seq<u8> {
        self.inbound.buffer@
    }

    /// A fresh framer. `raw_in_buffer` carries bytes already read from the
    /// socket before the framer took over, for instance by the
    /// authentication handshake.
    pub fn new(raw_in_buffer: Vec<u8>) -> (r: Connection)
        ensures
            r.wf(),
            r.inbound.buffer@ == raw_in_buffer@,
            r.inbound.fds@.len() == 0,
            r.inbound.prev_seq == 0,
            r.outbound.pos == 0,
            r.outbound.msgs@.len() == 0,
            r.pending_bytes().len() == 0,
    {
        let r = Connection {
            inbound: InBound { buffer: raw_in_buffer, fds: Vec::new(), prev_seq: 0 },
            outbound: OutBound { pos: 0, msgs: VecDeque::new() },
        };
        proof {
            assert(r.outbound.queued_bytes() =~= Seq::<Seq<u8>>::empty());
            assert(r.pending_bytes() =~= Seq::<u8>::empty());
        }
        r
    }

    /// Enqueues a message to be sent out on the socket. No bytes move until
    /// the driver flushes.
    pub fn enqueue_message(&mut self, msg: Message)
        requires
            old(self).wf(),
            msg.wf(),
        ensures
            final(self).wf(),
            final(self).outbound.msgs@ == old(self).outbound.msgs@.push(msg),
            final(self).outbound.pos == old(self).outbound.pos,
            final(self).pending_bytes() == old(self).pending_bytes() + msg.bytes@,
            final(self).inbound == old(self).inbound,
    {
        let ghost q0 = self.outbound.queued_bytes();
        let ghost pos0 = self.outbound.pos as int;
        let ghost mb = msg.bytes@;
        self.outbound.msgs.push_back(msg);
        proof {
            assert(self.outbound.queued_bytes() =~= q0.push(mb));
            lemma_concat_push(q0, mb);
            let c0 = concat_chunks(q0);
            if old(self).outbound.msgs@.len() == 0 {
                assert(c0 =~= Seq::<u8>::empty());
                assert((c0 + mb).skip(pos0) =~= c0.skip(pos0) + mb);
            } else {
                assert(pos0 <= old(self).outbound.msgs@[0].bytes@.len());
                assert(c0 == q0[0] + concat_chunks(q0.drop_first()));
                assert(pos0 <= c0.len());
                assert((c0 + mb).skip(pos0) =~= c0.skip(pos0) + mb);
            }
        }
    }

    /// The outbound flush step. Discards a fully written head message, then
    /// hands the driver the next chunk to write: the head's remaining bytes,
    /// together with its file descriptors exactly when none of its bytes have
    /// been written yet. Returns `None` when the queue is drained.
    pub fn try_flush(&mut self) -> (r: Option<(Vec<u8>, Vec<i32>)>)
        requires
            old(self).wf(),
        ensures
            final(self).wf(),
            final(self).pending_bytes() == old(self).pending_bytes(),
            final(self).inbound == old(self).inbound,
            r is None <==> old(self).pending_bytes().len() == 0,
            match r {
                None => final(self).outbound.msgs@.len() == 0 && final(self).outbound.pos == 0,
                Some(df) => {
                    &&& df.0@.len() > 0
                    &&& df.0@ == final(self).pending_bytes().take(df.0@.len() as int)
                    &&& final(self).outbound.msgs@.len() > 0
                    &&& df.0@ == final(self).outbound.msgs@[0].bytes@.skip(
                        final(self).outbound.pos as int,
                    )
                    &&& (final(self).outbound.pos == 0 ==> df.1@
                        == final(self).outbound.msgs@[0].fds@)
                    &&& (final(self).outbound.pos != 0 ==> df.1@.len() == 0)
                },
            },
    {
        let ghost q0 = self.outbound.queued_bytes();
        if self.outbound.msgs.len() > 0 {
            let head_len = self.outbound.msgs[0].bytes.len();
            if self.outbound.pos == head_len {
                self.outbound.pos = 0;
                let _ = self.outbound.msgs.pop_front();
                proof {
                    assert(self.outbound.queued_bytes() =~= q0.drop_first());
                    assert(concat_chunks(q0) == q0[0] + concat_chunks(q0.drop_first()));
                    assert(concat_chunks(q0).skip(head_len as int) =~= concat_chunks(
                        q0.drop_first(),
                    ));
                    assert(self.pending_bytes() =~= concat_chunks(q0.drop_first()));
                }
            }
        }
        let ghost q = self.outbound.queued_bytes();
        if self.outbound.msgs.len() == 0 {
            proof {
                assert(q =~= Seq::<Seq<u8>>::empty());
                assert(self.pending_bytes().len() == 0);
            }
            None
        } else {
            let head = &self.outbound.msgs[0];
            let head_len = head.bytes.len();
            let pos = self.outbound.pos;
            assert(pos < head_len) by {
                assert(self.outbound.msgs@[0].wf());
            }
            let d = copy_range(&head.bytes, pos, head_len);
            let f = if pos == 0 {
                copy_fds(&head.fds)
            } else {
                Vec::new()
            };
            proof {
                assert(concat_chunks(q) == q[0] + concat_chunks(q.drop_first()));
                assert(d@ =~= self.pending_bytes().take(d@.len() as int));
            }
            Some((d, f))
        }
    }

    /// Records that the driver wrote the first `n` bytes of the chunk
    /// [`Connection::try_flush`] handed out: the pending stream loses exactly
    /// those bytes.
    pub fn mark_sent(&mut self, n: usize)
        requires
            old(self).wf(),
            old(self).outbound.msgs@.len() > 0,
            1 <= n,
            old(self).outbound.pos + n <= old(self).outbound.msgs@[0].bytes@.len(),
        ensures
            final(self).wf(),
            final(self).outbound.msgs@ == old(self).outbound.msgs@,
            final(self).outbound.pos == old(self).outbound.pos + n,
            final(self).pending_bytes() == old(self).pending_bytes().skip(n as int),
            final(self).inbound == old(self).inbound,
    {
        proof {
            assert(old(self).outbound.msgs@[0].wf());
        }
        self.outbound.pos = self.outbound.pos + n;
        proof {
            let q = self.outbound.queued_bytes();
            let c = concat_chunks(q);
            assert(c == q[0] + concat_chunks(q.drop_first()));
            assert(c.skip(self.outbound.pos as int) =~= c.skip(old(self).outbound.pos as int).skip(
                n as int,
            ));
        }
    }

    /// Takes delivery of bytes and file descriptors the driver read from the
    /// socket. A read of zero bytes means the peer closed mid-stream and is
    /// refused as an unexpected end of input.
    pub fn accept_bytes(&mut self, data: &Vec<u8>, fds: &Vec<i32>) -> (r: Result<(), Error>)
        requires
            old(self).wf(),
        ensures
            final(self).wf(),
            final(self).outbound == old(self).outbound,
            final(self).pending_bytes() == old(self).pending_bytes(),
            match r {
                Ok(u) => data@.len() > 0
                    && final(self).inbound.buffer@ == old(self).inbound.buffer@ + data@
                    && final(self).inbound.fds@ == old(self).inbound.fds@ + fds@
                    && final(self).inbound.prev_seq == old(self).inbound.prev_seq,
                Err(e) => data@.len() == 0 && e is UnexpectedEof
                    && final(self).inbound == old(self).inbound,
            },
    {
        if data.len() == 0 {
            Err(Error::UnexpectedEof)
        } else {
            append_bytes(&mut self.inbound.buffer, data);
            append_fds(&mut self.inbound.fds, fds);
            Ok(())
        }
    }

    /// How many more bytes the driver should read to make progress on the
    /// frame being accumulated: first up to the 16-byte primary header, then
    /// up to the frame's declared total length. Zero when a frame is ready or
    /// the header is one the protocol rejects.
    pub fn needed_bytes(&self) -> (r: usize)
        ensures
            recv_incomplete(self.inbound.buffer@) <==> r > 0,
            self.inbound.buffer@.len() < 16 ==> r == 16 - self.inbound.buffer@.len(),
            self.inbound.buffer@.len() >= 16 && head_ok(self.inbound.buffer@)
                && self.inbound.buffer@.len() < spec_head_total(self.inbound.buffer@) ==> r as int
                == spec_head_total(self.inbound.buffer@) - self.inbound.buffer@.len(),
            recv_frame_ready(self.inbound.buffer@) ==> r == 0,
    {
        let blen = self.inbound.buffer.len();
        if blen < MIN_MESSAGE_SIZE {
            return MIN_MESSAGE_SIZE - blen;
        }
        let b0 = self.inbound.buffer[0];
        if b0 != crate::wire::LITTLE_ENDIAN_MARKER && b0 != crate::wire::BIG_ENDIAN_MARKER {
            return 0;
        }
        let h = read_head(&self.inbound.buffer);
        let header_len: u64 = 16 + h.fields_len as u64;
        let pad: u64 = (8 - header_len % 8) % 8;
        let total: u64 = header_len + pad + h.body_len as u64;
        assert(total as int == spec_head_total(self.inbound.buffer@));
        if total > MAX_MESSAGE_SIZE as u64 {
            0
        } else if (blen as u64) < total {
            (total - blen as u64) as usize
        } else {
            0
        }
    }

    /// The inbound extraction step: delivers the next complete message if one
    /// is buffered, stamped with the next sequence number and carrying every
    /// file descriptor accumulated for it. Returns `Ok(None)` while the frame
    /// is still incomplete. Fails when the buffered header announces an
    /// unknown byte order, declares a frame over the protocol limit, or when
    /// a complete frame does not decode.
    pub fn try_receive_message(&mut self) -> (r: Result<Option<Message>, Error>)
        requires
            old(self).wf(),
            old(self).inbound.prev_seq < u64::MAX,
        ensures
            final(self).wf(),
            final(self).outbound == old(self).outbound,
            final(self).pending_bytes() == old(self).pending_bytes(),
            match r {
                Ok(Some(m)) => {
                    &&& recv_frame_ready(old(self).inbound.buffer@)
                    &&& frames_of(old(self).inbound.buffer@).len() > 0
                    &&& m.bytes@ == frames_of(old(self).inbound.buffer@)[0]
                    &&& m.wf()
                    &&& m.seq_num == old(self).inbound.prev_seq + 1
                    &&& m.fds@ == old(self).inbound.fds@
                    &&& final(self).inbound.buffer@ == old(self).inbound.buffer@.skip(
                        spec_head_total(old(self).inbound.buffer@),
                    )
                    &&& final(self).inbound.prev_seq == m.seq_num
                    &&& final(self).inbound.fds@.len() == 0
                },
                Ok(None) => recv_incomplete(old(self).inbound.buffer@) && final(self).inbound
                    == old(self).inbound,
                Err(e) => {
                    &&& final(self).inbound == old(self).inbound
                    &&& (e is ExcessData <==> recv_oversize(old(self).inbound.buffer@))
                    &&& (e is ExcessData || e is InvalidHeader)
                    &&& (e is InvalidHeader ==> recv_bad_endian(old(self).inbound.buffer@) || (
                    recv_frame_ready(old(self).inbound.buffer@) && !crate::message::frame_wf(
                        old(self).inbound.buffer@.take(spec_head_total(old(self).inbound.buffer@)),
                    )))
                },
            },
    {
        let blen = self.inbound.buffer.len();
        if blen < MIN_MESSAGE_SIZE {
            return Ok(None);
        }
        let b0 = self.inbound.buffer[0];
        if b0 != crate::wire::LITTLE_ENDIAN_MARKER && b0 != crate::wire::BIG_ENDIAN_MARKER {
            return Err(Error::InvalidHeader);
        }
        let h = read_head(&self.inbound.buffer);
        let header_len: u64 = 16 + h.fields_len as u64;
        let pad: u64 = (8 - header_len % 8) % 8;
        let total: u64 = header_len + pad + h.body_len as u64;
        assert(total as int == spec_head_total(self.inbound.buffer@));
        if total > MAX_MESSAGE_SIZE as u64 {
            return Err(Error::ExcessData);
        }
        if (blen as u64) < total {
            return Ok(None);
        }
        let total_us = total as usize;
        let frame = copy_range(&self.inbound.buffer, 0, total_us);
        proof {
            assert(frame@ =~= self.inbound.buffer@.take(total as int));
        }
        let fds = copy_fds(&self.inbound.fds);
        let seqn = self.inbound.prev_seq + 1;
        match Message::from_raw_parts(frame, fds, seqn) {
            Ok(m) => {
                let rest = copy_range(&self.inbound.buffer, total_us, blen);
                proof {
                    assert(rest@ =~= self.inbound.buffer@.skip(total as int));
                }
                self.inbound.buffer = rest;
                self.inbound.fds.clear();
                self.inbound.prev_seq = seqn;
                proof {
                    let acc0 = old(self).inbound.buffer@;
                    let t = spec_head_total(acc0);
                    assert(frames_of(acc0) == seq![acc0.take(t)] + frames_of(acc0.skip(t)));
                }
                Ok(Some(m))
            },
            Err(e) => Err(e),
        }
    }
}

} // verus!
