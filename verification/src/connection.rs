//! The asynchronous connection facade's decision core: serial allocation,
//! reply correlation, the bounded incoming-message queue, and the sink and
//! stream logic.
//!
//! A [`Connection`] owns two framers over the two halves of one socket —
//! [`Connection::raw_in`] for reading, [`Connection::raw_out`] for writing —
//! so that a reader never stalls a writer. Locks, readiness polling and the
//! socket calls themselves belong to the driver; every decision the facade
//! takes between socket operations is here, and verified.

use crate::message::{
    build_ok, enc_fields, error_fields, fields_ok, lemma_enc_fields_len, lemma_fields_ok_unfold,
    method_fields, opt_str_view, reply_fields, signal_fields, spec_frame_total, Error, FieldsView,
    Message, MessageType,
};
use crate::raw;
use crate::wire::MAX_MESSAGE_SIZE;
use vstd::prelude::*;
use vstd::string::StringSliceAdditionalSpecFns;

verus! {

/// Default bound on the incoming-message queue.
pub const DEFAULT_MAX_QUEUED: usize = 64;

/// View of an optional owned string as its optional UTF-8 bytes.
pub open spec fn opt_string_view(o: Option<String>) -> Option<Seq<u8>> {
    match o {
        Some(s) => Some(vstd::utf8::encode_utf8(s@)),
        None => None,
    }
}

/// The sender field a connection stamps on outgoing messages: its unique
/// name, when one has been assigned.
pub open spec fn sender_view(o: Option<String>) -> Option<Seq<u8>> {
    opt_string_view(o)
}

/// Whether `m` is a reply to the call with the given serial.
pub open spec fn is_reply_to(m: Message, serial: u32) -> bool {
    m.spec_reply_serial() == Some(serial)
}

/// Every Unicode scalar encodes to at most four bytes, so a string's UTF-8
/// encoding is at most four times its character count.
proof fn lemma_encode_utf8_len(chars: Seq<char>)
    ensures
        vstd::utf8::encode_utf8(chars).len() <= 4 * chars.len(),
    decreases chars.len(),
{
    if chars.len() > 0 {
        lemma_encode_utf8_len(chars.drop_first());
    }
}

/// The Hello call's fixed field record is within the codec's bounds and its
/// frame within the protocol limit, so the Hello message always builds.
proof fn lemma_hello_build_ok()
    ensures
        build_ok(Connection::hello_fields(), Seq::<u8>::empty()),
{
    reveal_strlit("org.freedesktop.DBus");
    reveal_strlit("/org/freedesktop/DBus");
    reveal_strlit("Hello");
    lemma_encode_utf8_len("org.freedesktop.DBus"@);
    lemma_encode_utf8_len("/org/freedesktop/DBus"@);
    lemma_encode_utf8_len("Hello"@);
    let f = Connection::hello_fields();
    lemma_fields_ok_unfold(f);
    assert(fields_ok(f));
    lemma_enc_fields_len(f);
    let header_len = 16 + enc_fields(f).len() as int;
    assert(0 <= header_len % 8 < 8);
    assert(spec_frame_total(f, Seq::<u8>::empty()) <= MAX_MESSAGE_SIZE as int);
}

/// The outcome of handing one received message to a waiting method call.
#[derive(Debug)]
pub enum CallStep {
    /// Not the awaited reply; `kept` tells whether the message was buffered
    /// in the incoming queue or dropped for want of space.
    NotOurs { kept: bool },
    /// Carries the right reply serial but is neither a method return nor an
    /// error; it is discarded and the caller keeps waiting.
    Ignored,
    /// The successful reply.
    Done(Message),
}

/// The connection facade: everything the async connection decides, with the
/// sockets and locks left to the driver.
pub struct Connection {
    /// The server's GUID, exchanged during authentication.
    pub server_guid: String,
    /// Whether fd passing was negotiated.
    pub cap_unix_fd: bool,
    /// Whether this is a connection to a message bus.
    pub bus_conn: bool,
    /// The bus-assigned unique name; write-once, set after the Hello call.
    pub unique_name: Option<String>,
    /// Serial number for the next outgoing message.
    pub serial: u32,
    /// Messages received out of turn, kept for later consumers.
    pub incoming_queue: Vec<Message>,
    /// Bound on the incoming queue; arrivals beyond it are dropped.
    pub max_queued: usize,
    /// Framer of the inbound half of the socket.
    pub raw_in: raw::Connection,
    /// Framer of the outbound half of the socket.
    pub raw_out: raw::Connection,
}

impl Connection {
    /// The facade invariant.
    pub open spec fn wf(self) -> bool {
        &&& self.raw_in.wf()
        &&& self.raw_out.wf()
        &&& forall|k: int|
            0 <= k < self.incoming_queue@.len() ==> (#[trigger] self.incoming_queue@[k]).wf()
        &&& self.serial >= 1
    }

    /// A fresh facade over an authenticated socket: the serial counter starts
    /// at 1, the incoming queue is empty and bounded by
    /// [`DEFAULT_MAX_QUEUED`], and both framers are fresh.
    pub fn new(server_guid: String, cap_unix_fd: bool, bus_conn: bool) -> (r: Connection)
        ensures
            r.wf(),
            r.server_guid@ == server_guid@,
            r.cap_unix_fd == cap_unix_fd,
            r.bus_conn == bus_conn,
            r.unique_name is None,
            r.serial == 1,
            r.incoming_queue@.len() == 0,
            r.max_queued == DEFAULT_MAX_QUEUED,
            r.raw_in.inbound.buffer@.len() == 0,
            r.raw_in.inbound.prev_seq == 0,
            r.raw_out.pending_bytes().len() == 0,
            r.raw_out.outbound.msgs@.len() == 0,
    {
        Connection {
            server_guid,
            cap_unix_fd,
            bus_conn,
            unique_name: None,
            serial: 1,
            incoming_queue: Vec::new(),
            max_queued: DEFAULT_MAX_QUEUED,
            raw_in: raw::Connection::new(Vec::new()),
            raw_out: raw::Connection::new(Vec::new()),
        }
    }

    /// The transition [`Connection::next_serial`] promises: it returns the
    /// counter and advances it by one.
    pub open spec fn next_serial_rel(pre: Connection, r: u32, post: Connection) -> bool {
        &&& r == pre.serial
        &&& post.serial == r + 1
    }

    /// Hands out the next serial number and advances the counter: each call
    /// returns exactly one more than the previous call, starting from 1 on a
    /// fresh connection.
    pub fn next_serial(&mut self) -> (r: u32)
        requires
            old(self).wf(),
            old(self).serial < u32::MAX,
        ensures
            final(self).wf(),
            r == old(self).serial,
            final(self).serial == r + 1,
            r >= 1,
            *final(self) == (Connection { serial: (r + 1) as u32, ..*old(self) }),
    {
        let current = self.serial;
        self.serial = current + 1;
        current
    }

    /// Whether `states` and `serials` record a chain of serial allocations:
    /// `states[k]` steps to `states[k + 1]` handing out `serials[k]`.
    pub open spec fn serial_trace(states: Seq<Connection>, serials: Seq<u32>) -> bool {
        &&& states.len() == serials.len() + 1
        &&& forall|k: int|
            0 <= k < serials.len() ==> Connection::next_serial_rel(
                #[trigger] states[k],
                serials[k],
                states[k + 1],
            )
    }

    /// Along a chain of allocations, the k-th serial handed out is the
    /// starting counter plus k.
    pub proof fn lemma_serial_trace_value(states: Seq<Connection>, serials: Seq<u32>, k: int)
        requires
            Connection::serial_trace(states, serials),
            0 <= k < serials.len(),
        ensures
            serials[k] == states[0].serial + k,
        decreases k,
    {
        assert(Connection::next_serial_rel(states[k], serials[k], states[k + 1]));
        if k > 0 {
            Connection::lemma_serial_trace_value(states, serials, k - 1);
            assert(Connection::next_serial_rel(states[k - 1], serials[k - 1], states[k]));
        }
    }

    /// Law: serial numbers are strictly monotonic. Along any chain of
    /// allocations, later calls return strictly larger serials; on a fresh
    /// connection, whose counter starts at 1, k-th call returns 1 + k.
    pub proof fn lemma_serials_strictly_monotonic(states: Seq<Connection>, serials: Seq<u32>)
        requires
            Connection::serial_trace(states, serials),
        ensures
            forall|i: int, j: int| 0 <= i < j < serials.len() ==> serials[i] < serials[j],
            states.len() > 0 && states[0].serial == 1 ==> forall|i: int|
                0 <= i < serials.len() ==> serials[i] == 1 + i,
    {
        assert forall|i: int, j: int| 0 <= i < j < serials.len() implies serials[i]
            < serials[j] by {
            Connection::lemma_serial_trace_value(states, serials, i);
            Connection::lemma_serial_trace_value(states, serials, j);
        }
        if states.len() > 0 && states[0].serial == 1 {
            assert forall|i: int| 0 <= i < serials.len() implies serials[i] == 1 + i by {
                Connection::lemma_serial_trace_value(states, serials, i);
            }
        }
    }

    /// Stamps a fresh serial number into `msg` and returns it; the message
    /// keeps its type, fields, body and descriptors.
    pub fn assign_serial_num(&mut self, msg: &mut Message) -> (r: u32)
        requires
            old(self).wf(),
            old(self).serial < u32::MAX,
            old(msg).wf(),
        ensures
            final(self).wf(),
            final(msg).wf(),
            r == old(self).serial,
            final(self).serial == r + 1,
            *final(self) == (Connection { serial: (r + 1) as u32, ..*old(self) }),
            final(msg).spec_serial() == r,
            final(msg).spec_mtype() == old(msg).spec_mtype(),
            final(msg).spec_fields() == old(msg).spec_fields(),
            final(msg).spec_body() == old(msg).spec_body(),
            final(msg).fds@ == old(msg).fds@,
            final(msg).seq_num == old(msg).seq_num,
    {
        let serial = self.next_serial();
        msg.set_serial(serial);
        serial
    }

    /// Stamps a fresh serial on `msg` and enqueues it on the outbound framer;
    /// the driver flushes. Fails with `Unsupported`, moving nothing, exactly
    /// when the message carries file descriptors and fd passing was not
    /// negotiated.
    pub fn send_message(&mut self, msg: Message) -> (r: Result<u32, Error>)
        requires
            old(self).wf(),
            old(self).serial < u32::MAX,
            msg.wf(),
        ensures
            final(self).wf(),
            final(self).raw_in == old(self).raw_in,
            final(self).incoming_queue@ == old(self).incoming_queue@,
            final(self).max_queued == old(self).max_queued,
            final(self).unique_name == old(self).unique_name,
            final(self).server_guid@ == old(self).server_guid@,
            final(self).cap_unix_fd == old(self).cap_unix_fd,
            final(self).bus_conn == old(self).bus_conn,
            match r {
                Ok(s) => {
                    &&& !(msg.fds@.len() > 0 && !old(self).cap_unix_fd)
                    &&& s == old(self).serial
                    &&& final(self).serial == s + 1
                    &&& final(self).raw_out.outbound.msgs@.len() == old(self).raw_out.outbound.msgs@.len() + 1
                    &&& ({
                        let sent = final(self).raw_out.outbound.msgs@.last();
                        &&& final(self).raw_out.outbound.msgs@ == old(self).raw_out.outbound.msgs@.push(sent)
                        &&& final(self).raw_out.pending_bytes() == old(self).raw_out.pending_bytes() + sent.bytes@
                        &&& sent.wf()
                        &&& sent.spec_serial() == s
                        &&& sent.spec_mtype() == msg.spec_mtype()
                        &&& sent.spec_fields() == msg.spec_fields()
                        &&& sent.spec_body() == msg.spec_body()
                        &&& sent.fds@ == msg.fds@
                    })
                },
                Err(e) => e is Unsupported && msg.fds@.len() > 0 && !old(self).cap_unix_fd
                    && *final(self) == *old(self),
            },
    {
        if self.has_fd_trouble(&msg) {
            return Err(Error::Unsupported);
        }
        let mut msg = msg;
        let serial = self.next_serial();
        msg.set_serial(serial);
        self.raw_out.enqueue_message(msg);
        Ok(serial)
    }

    /// Whether sending `msg` must be refused for carrying file descriptors
    /// without the negotiated capability.
    fn has_fd_trouble(&self, msg: &Message) -> (r: bool)
        ensures
            r == (msg.fds@.len() > 0 && !self.cap_unix_fd),
    {
        msg.has_fds() && !self.cap_unix_fd
    }

    /// The sink's accept step: enqueues `msg` as it stands — the caller
    /// numbers its own messages. Fails with `Unsupported`, moving nothing,
    /// exactly when the message carries file descriptors and fd passing was
    /// not negotiated.
    pub fn start_send(&mut self, msg: Message) -> (r: Result<(), Error>)
        requires
            old(self).wf(),
            msg.wf(),
        ensures
            final(self).wf(),
            final(self).raw_in == old(self).raw_in,
            final(self).incoming_queue@ == old(self).incoming_queue@,
            final(self).serial == old(self).serial,
            match r {
                Ok(u) => {
                    &&& !(msg.fds@.len() > 0 && !old(self).cap_unix_fd)
                    &&& final(self).raw_out.outbound.msgs@ == old(self).raw_out.outbound.msgs@.push(msg)
                    &&& final(self).raw_out.pending_bytes() == old(self).raw_out.pending_bytes()
                        + msg.bytes@
                },
                Err(e) => e is Unsupported && msg.fds@.len() > 0 && !old(self).cap_unix_fd
                    && *final(self) == *old(self),
            },
    {
        if self.has_fd_trouble(&msg) {
            return Err(Error::Unsupported);
        }
        self.raw_out.enqueue_message(msg);
        Ok(())
    }

    /// The stream's queue step: hands out a message buffered by an earlier
    /// selective receive, newest first, before the framer is consulted.
    pub fn stream_pop(&mut self) -> (r: Option<Message>)
        requires
            old(self).wf(),
        ensures
            final(self).wf(),
            match r {
                Some(m) => old(self).incoming_queue@.len() > 0 && m == old(self).incoming_queue@.last() && m.wf() && *final(self) == (Connection {
                    incoming_queue: final(self).incoming_queue,
                    ..*old(self)
                }) && final(self).incoming_queue@ == old(self).incoming_queue@.drop_last(),
                None => old(self).incoming_queue@.len() == 0 && *final(self) == (Connection {
                    incoming_queue: final(self).incoming_queue,
                    ..*old(self)
                }) && final(self).incoming_queue@ == old(self).incoming_queue@,
            },
    {
        let r = self.incoming_queue.pop();
        proof {
            let q0 = old(self).incoming_queue@;
            if q0.len() > 0 {
                assert(q0[q0.len() - 1].wf());
                assert(q0.last() == q0[q0.len() - 1]);
                assert(self.incoming_queue@ =~= q0.drop_last());
            }
        }
        r
    }

    /// Appends a message the current consumer does not want: it is kept for
    /// later consumers exactly when the queue is below its bound, and dropped
    /// otherwise. A queue within its bound never grows beyond it.
    pub fn offer_queued(&mut self, msg: Message) -> (kept: bool)
        requires
            old(self).wf(),
            msg.wf(),
        ensures
            final(self).wf(),
            *final(self) == (Connection { incoming_queue: final(self).incoming_queue, ..*old(self) }),
            kept <==> old(self).incoming_queue@.len() < old(self).max_queued,
            kept ==> final(self).incoming_queue@ == old(self).incoming_queue@.push(msg),
            !kept ==> final(self).incoming_queue@ == old(self).incoming_queue@,
            old(self).incoming_queue@.len() <= old(self).max_queued ==> final(self).incoming_queue@.len() <= old(self).max_queued,
    {
        if self.incoming_queue.len() < self.max_queued {
            self.incoming_queue.push(msg);
            true
        } else {
            false
        }
    }

    /// Removes and returns the first queued reply to the call with the given
    /// serial, scanning from the head and leaving every other message in
    /// place and in order.
    pub fn queue_take_reply(&mut self, serial: u32) -> (r: Option<Message>)
        requires
            old(self).wf(),
        ensures
            final(self).wf(),
            *final(self) == (Connection { incoming_queue: final(self).incoming_queue, ..*old(self) }),
            match r {
                Some(m) => exists|i: int|
                    0 <= i < old(self).incoming_queue@.len() && #[trigger] is_reply_to(
                        old(self).incoming_queue@[i],
                        serial,
                    ) && (forall|j: int|
                        0 <= j < i ==> !is_reply_to(
                            #[trigger] old(self).incoming_queue@[j],
                            serial,
                        )) && m == old(self).incoming_queue@[i] && final(self).incoming_queue@
                        == old(self).incoming_queue@.remove(i),
                None => final(self).incoming_queue@ == old(self).incoming_queue@ && (forall|i: int|
                    0 <= i < old(self).incoming_queue@.len() ==> !is_reply_to(
                        #[trigger] old(self).incoming_queue@[i],
                        serial,
                    )),
            },
    {
        let mut i: usize = 0;
        while i < self.incoming_queue.len()
            invariant
                old(self).wf(),
                *self == *old(self),
                i <= self.incoming_queue@.len(),
                forall|j: int|
                    0 <= j < i ==> !is_reply_to(#[trigger] old(self).incoming_queue@[j], serial),
            decreases self.incoming_queue@.len() - i,
        {
            let matches = match self.incoming_queue[i].reply_serial() {
                Some(x) => x == serial,
                None => false,
            };
            if matches {
                proof {
                    assert(is_reply_to(old(self).incoming_queue@[i as int], serial));
                }
                let m = self.incoming_queue.remove(i);
                return Some(m);
            }
            i = i + 1;
        }
        None
    }

    /// How many messages are queued for later consumers.
    pub fn queue_len(&self) -> (r: usize)
        ensures
            r == self.incoming_queue@.len(),
    {
        self.incoming_queue.len()
    }

    /// Looks at the `i`-th queued message without removing it.
    pub fn queue_get(&self, i: usize) -> (r: &Message)
        requires
            self.wf(),
            i < self.incoming_queue@.len(),
        ensures
            *r == self.incoming_queue@[i as int],
            r.wf(),
    {
        &self.incoming_queue[i]
    }

    /// Removes and returns the `i`-th queued message, keeping the order of
    /// the others.
    pub fn queue_remove(&mut self, i: usize) -> (r: Message)
        requires
            old(self).wf(),
            i < old(self).incoming_queue@.len(),
        ensures
            final(self).wf(),
            *final(self) == (Connection { incoming_queue: final(self).incoming_queue, ..*old(self) }),
            r == old(self).incoming_queue@[i as int],
            r.wf(),
            final(self).incoming_queue@ == old(self).incoming_queue@.remove(i as int),
    {
        self.incoming_queue.remove(i)
    }

    /// The correlation step of a method call: decides what one received
    /// message means for the caller awaiting the reply to `serial`. A message
    /// with a different reply serial is offered to the incoming queue; a
    /// method return with the right serial completes the call; an error reply
    /// with the right serial fails it, carrying the full message; anything
    /// else with the right serial is discarded and the call keeps waiting.
    pub fn call_method_step(&mut self, serial: u32, msg: Message) -> (r: Result<CallStep, Error>)
        requires
            old(self).wf(),
            msg.wf(),
        ensures
            final(self).wf(),
            *final(self) == (Connection { incoming_queue: final(self).incoming_queue, ..*old(self) }),
            match r {
                Ok(step) => match step {
                    CallStep::NotOurs { kept } => {
                        &&& !is_reply_to(msg, serial)
                        &&& (kept <==> old(self).incoming_queue@.len() < old(self).max_queued)
                        &&& (kept ==> final(self).incoming_queue@ == old(self).incoming_queue@.push(msg))
                        &&& (!kept ==> final(self).incoming_queue@ == old(self).incoming_queue@)
                    },
                    CallStep::Ignored => {
                        &&& is_reply_to(msg, serial)
                        &&& msg.spec_mtype() != MessageType::MethodReturn
                        &&& msg.spec_mtype() != MessageType::Error
                        &&& final(self).incoming_queue@ == old(self).incoming_queue@
                    },
                    CallStep::Done(m) => {
                        &&& m == msg
                        &&& is_reply_to(msg, serial)
                        &&& msg.spec_mtype() == MessageType::MethodReturn
                        &&& final(self).incoming_queue@ == old(self).incoming_queue@
                    },
                },
                Err(e) => {
                    &&& e == Error::MethodError(msg)
                    &&& is_reply_to(msg, serial)
                    &&& msg.spec_mtype() == MessageType::Error
                    &&& final(self).incoming_queue@ == old(self).incoming_queue@
                },
            },
    {
        let is_ours = match msg.reply_serial() {
            Some(x) => x == serial,
            None => false,
        };
        if !is_ours {
            let kept = self.offer_queued(msg);
            Ok(CallStep::NotOurs { kept })
        } else {
            match msg.message_type() {
                MessageType::MethodReturn => Ok(CallStep::Done(msg)),
                MessageType::Error => Err(Error::MethodError(msg)),
                _ => Ok(CallStep::Ignored),
            }
        }
    }

    /// The facade's own name, for the sender field of outgoing messages.
    fn sender_name(&self) -> (r: Option<String>)
        ensures
            opt_string_view(r) == sender_view(self.unique_name),
    {
        match &self.unique_name {
            Some(s) => Some(s.clone()),
            None => None,
        }
    }

    /// Builds a signal message, stamped as coming from this connection, and
    /// enqueues it for sending; the driver flushes. The assigned serial is
    /// discarded, as signals expect no reply.
    pub fn emit_signal(
        &mut self,
        destination: Option<&str>,
        path: &str,
        iface: &str,
        signal_name: &str,
        body: Vec<u8>,
    ) -> (r: Result<(), Error>)
        requires
            old(self).wf(),
            old(self).serial < u32::MAX,
        ensures
            final(self).wf(),
            final(self).raw_in == old(self).raw_in,
            final(self).incoming_queue@ == old(self).incoming_queue@,
            final(self).unique_name == old(self).unique_name,
            ({
                let f = signal_fields(
                    sender_view(old(self).unique_name),
                    opt_str_view(destination),
                    path.spec_bytes(),
                    iface.spec_bytes(),
                    signal_name.spec_bytes(),
                );
                match r {
                    Ok(u) => {
                        &&& build_ok(f, body@)
                        &&& final(self).serial == old(self).serial + 1
                        &&& final(self).raw_out.outbound.msgs@.len() == old(
                            self,
                        ).raw_out.outbound.msgs@.len() + 1
                        &&& ({
                            let sent = final(self).raw_out.outbound.msgs@.last();
                            &&& sent.wf()
                            &&& sent.spec_mtype() == MessageType::Signal
                            &&& sent.spec_serial() == old(self).serial
                            &&& sent.spec_fields() == f
                            &&& sent.spec_body() == body@
                        })
                    },
                    Err(e) => e is ExcessData && !build_ok(f, body@) && *final(self) == *old(
                        self,
                    ),
                }
            }),
    {
        let sender_name = self.sender_name();
        let sender: Option<&str> = match &sender_name {
            Some(s) => Some(s.as_str()),
            None => None,
        };
        let m = match Message::signal(sender, destination, path, iface, signal_name, body) {
            Ok(m) => m,
            Err(e) => {
                return Err(e);
            },
        };
        match self.send_message(m) {
            Ok(_) => Ok(()),
            Err(e) => Err(e),
        }
    }

    /// Builds and enqueues the successful reply to `call`, carrying `call`'s
    /// serial and addressed to its sender; returns the reply's own serial.
    pub fn reply(&mut self, call: &Message, body: Vec<u8>) -> (r: Result<u32, Error>)
        requires
            old(self).wf(),
            old(self).serial < u32::MAX,
            call.wf(),
        ensures
            final(self).wf(),
            final(self).raw_in == old(self).raw_in,
            final(self).incoming_queue@ == old(self).incoming_queue@,
            final(self).unique_name == old(self).unique_name,
            ({
                let f = reply_fields(
                    sender_view(old(self).unique_name),
                    call.spec_serial(),
                    call.spec_fields().sender,
                );
                match r {
                    Ok(s) => {
                        &&& build_ok(f, body@)
                        &&& s == old(self).serial
                        &&& final(self).serial == s + 1
                        &&& final(self).raw_out.outbound.msgs@.len() == old(
                            self,
                        ).raw_out.outbound.msgs@.len() + 1
                        &&& ({
                            let sent = final(self).raw_out.outbound.msgs@.last();
                            &&& sent.wf()
                            &&& sent.spec_mtype() == MessageType::MethodReturn
                            &&& sent.spec_serial() == s
                            &&& sent.spec_fields() == f
                            &&& sent.spec_reply_serial() == Some(call.spec_serial())
                            &&& sent.spec_body() == body@
                        })
                    },
                    Err(e) => e is ExcessData && !build_ok(f, body@) && *final(self) == *old(
                        self,
                    ),
                }
            }),
    {
        let sender_name = self.sender_name();
        let sender: Option<&str> = match &sender_name {
            Some(s) => Some(s.as_str()),
            None => None,
        };
        let m = match Message::method_reply(sender, call, body) {
            Ok(m) => m,
            Err(e) => {
                return Err(e);
            },
        };
        self.send_message(m)
    }

    /// Builds and enqueues the error reply to `call` under `error_name`;
    /// returns the reply's own serial.
    pub fn reply_error(&mut self, call: &Message, error_name: &str, body: Vec<u8>) -> (r: Result<
        u32,
        Error,
    >)
        requires
            old(self).wf(),
            old(self).serial < u32::MAX,
            call.wf(),
        ensures
            final(self).wf(),
            final(self).raw_in == old(self).raw_in,
            final(self).incoming_queue@ == old(self).incoming_queue@,
            final(self).unique_name == old(self).unique_name,
            ({
                let f = error_fields(
                    sender_view(old(self).unique_name),
                    error_name.spec_bytes(),
                    call.spec_serial(),
                    call.spec_fields().sender,
                );
                match r {
                    Ok(s) => {
                        &&& build_ok(f, body@)
                        &&& s == old(self).serial
                        &&& final(self).serial == s + 1
                        &&& final(self).raw_out.outbound.msgs@.len() == old(
                            self,
                        ).raw_out.outbound.msgs@.len() + 1
                        &&& ({
                            let sent = final(self).raw_out.outbound.msgs@.last();
                            &&& sent.wf()
                            &&& sent.spec_mtype() == MessageType::Error
                            &&& sent.spec_serial() == s
                            &&& sent.spec_fields() == f
                            &&& sent.spec_reply_serial() == Some(call.spec_serial())
                            &&& sent.spec_body() == body@
                        })
                    },
                    Err(e) => e is ExcessData && !build_ok(f, body@) && *final(self) == *old(
                        self,
                    ),
                }
            }),
    {
        let sender_name = self.sender_name();
        let sender: Option<&str> = match &sender_name {
            Some(s) => Some(s.as_str()),
            None => None,
        };
        let m = match Message::method_error(sender, call, error_name, body) {
            Ok(m) => m,
            Err(e) => {
                return Err(e);
            },
        };
        self.send_message(m)
    }

    /// Builds a method-call message, stamps a fresh serial on it and enqueues
    /// it; returns the serial the reply will carry. The driver flushes, pulls
    /// inbound messages and hands each to [`Connection::call_method_step`]
    /// under the returned serial until the call completes.
    pub fn start_method_call(
        &mut self,
        destination: Option<&str>,
        path: &str,
        iface: Option<&str>,
        method_name: &str,
        body: Vec<u8>,
    ) -> (r: Result<u32, Error>)
        requires
            old(self).wf(),
            old(self).serial < u32::MAX,
        ensures
            final(self).wf(),
            final(self).raw_in == old(self).raw_in,
            final(self).incoming_queue@ == old(self).incoming_queue@,
            final(self).unique_name == old(self).unique_name,
            ({
                let f = method_fields(
                    sender_view(old(self).unique_name),
                    opt_str_view(destination),
                    path.spec_bytes(),
                    opt_str_view(iface),
                    method_name.spec_bytes(),
                );
                match r {
                    Ok(s) => {
                        &&& build_ok(f, body@)
                        &&& s == old(self).serial
                        &&& final(self).serial == s + 1
                        &&& final(self).raw_out.outbound.msgs@.len() == old(
                            self,
                        ).raw_out.outbound.msgs@.len() + 1
                        &&& ({
                            let sent = final(self).raw_out.outbound.msgs@.last();
                            &&& sent.wf()
                            &&& sent.spec_mtype() == MessageType::MethodCall
                            &&& sent.spec_serial() == s
                            &&& sent.spec_fields() == f
                            &&& sent.spec_body() == body@
                        })
                    },
                    Err(e) => e is ExcessData && !build_ok(f, body@) && *final(self) == *old(
                        self,
                    ),
                }
            }),
    {
        let sender_name = self.sender_name();
        let sender: Option<&str> = match &sender_name {
            Some(s) => Some(s.as_str()),
            None => None,
        };
        let m = match Message::method(sender, destination, path, iface, method_name, body) {
            Ok(m) => m,
            Err(e) => {
                return Err(e);
            },
        };
        self.send_message(m)
    }

    /// The field record of the bus Hello call.
    pub open spec fn hello_fields() -> FieldsView {
        method_fields(
            None,
            Some("org.freedesktop.DBus".spec_bytes()),
            "/org/freedesktop/DBus".spec_bytes(),
            Some("org.freedesktop.DBus".spec_bytes()),
            "Hello".spec_bytes(),
        )
    }

    /// Sends the bus Hello call and returns its serial. Every part of the
    /// Hello message is a short constant, so building it cannot fail and the
    /// call is always enqueued; the driver awaits the reply and stores the
    /// name it carries with [`Connection::set_unique_name`].
    pub fn hello_bus(&mut self) -> (s: u32)
        requires
            old(self).wf(),
            old(self).serial < u32::MAX,
        ensures
            final(self).wf(),
            final(self).raw_in == old(self).raw_in,
            final(self).incoming_queue@ == old(self).incoming_queue@,
            final(self).unique_name == old(self).unique_name,
            s == old(self).serial,
            final(self).serial == s + 1,
            final(self).raw_out.outbound.msgs@.len() == old(self).raw_out.outbound.msgs@.len()
                + 1,
            ({
                let sent = final(self).raw_out.outbound.msgs@.last();
                &&& sent.wf()
                &&& sent.spec_serial() == s
                &&& sent.spec_mtype() == MessageType::MethodCall
                &&& sent.spec_fields() == Connection::hello_fields()
                &&& sent.spec_body().len() == 0
            }),
    {
        proof {
            lemma_hello_build_ok();
        }
        let m = match Message::method(
            None,
            Some("org.freedesktop.DBus"),
            "/org/freedesktop/DBus",
            Some("org.freedesktop.DBus"),
            "Hello",
            Vec::new(),
        ) {
            Ok(m) => m,
            Err(_) => {
                proof {
                    assert(false);
                }
                vstd::pervasive::unreached()
            },
        };
        match self.send_message(m) {
            Ok(s) => s,
            Err(_) => {
                proof {
                    assert(false);
                }
                vstd::pervasive::unreached()
            },
        }
    }

    /// Stores the bus-assigned unique name. The cell is write-once: callers
    /// set it at most once, right after the Hello reply arrives.
    pub fn set_unique_name(&mut self, name: String)
        requires
            old(self).wf(),
            old(self).unique_name is None,
        ensures
            final(self).wf(),
            *final(self) == (Connection { unique_name: final(self).unique_name, ..*old(self) }),
            match final(self).unique_name {
                Some(n) => n@ == name@,
                None => false,
            },
    {
        self.unique_name = Some(name);
    }

    /// The unique name assigned by the message bus, or `None` before Hello
    /// completes or on a peer-to-peer connection.
    pub fn unique_name(&self) -> (r: Option<&str>)
        ensures
            match (r, self.unique_name) {
                (Some(s), Some(n)) => s@ == n@,
                (None, None) => true,
                _ => false,
            },
    {
        match &self.unique_name {
            Some(s) => Some(s.as_str()),
            None => None,
        }
    }

    /// Whether this is a connection to a message bus; `false` for
    /// peer-to-peer connections.
    pub fn is_bus(&self) -> (r: bool)
        ensures
            r == self.bus_conn,
    {
        self.bus_conn
    }

    /// The server's GUID.
    pub fn server_guid(&self) -> (r: &str)
        ensures
            r@ == self.server_guid@,
    {
        self.server_guid.as_str()
    }

    /// The bound on the incoming queue.
    pub fn max_queued(&self) -> (r: usize)
        ensures
            r == self.max_queued,
    {
        self.max_queued
    }

    /// Replaces the bound on the incoming queue, consuming and returning the
    /// facade so the call chains at construction time.
    pub fn set_max_queued(self, max: usize) -> (r: Connection)
        requires
            self.wf(),
        ensures
            r.wf(),
            r == (Connection { max_queued: max, ..self }),
    {
        Connection { max_queued: max, ..self }
    }
}

} // verus!
