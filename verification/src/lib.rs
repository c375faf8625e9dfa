//! Core of an asynchronous D-Bus connection: the message-oriented transport
//! that sits directly on top of a byte-stream socket.
//!
//! The crate is organised in four layers, leaves first:
//!
//! * [`wire`] — byte-level helpers: the fixed 16-byte primary header, integer
//!   encodings, and the 8-byte body padding rule.
//! * [`message`] — the message model: a complete wire frame together with its
//!   ancillary file descriptors and its receive sequence number, plus the
//!   header-field codec used by this crate's message layer.
//! * [`raw`] — the framing engine: it turns a stream of byte chunks into a
//!   stream of complete messages and a queue of outgoing messages into a
//!   stream of byte chunks, resumable across arbitrarily many partial reads
//!   and writes.
//! * [`connection`] — the connection facade: serial allocation, reply
//!   correlation, the bounded incoming-message queue, and the sink/stream
//!   decision logic.
//!
//! Everything that performs I/O — sockets, readiness polling, locks — lives
//! outside this crate; the functions here are the decision core that a driver
//! calls between socket operations.
//!
//! Beyond the per-function contracts, the crate states and proves the
//! transport's ordering guarantees as standalone theorems:
//!
//! * [`raw::lemma_outbound_exactly_once`] — under any interleaving of
//!   enqueues and partial writes, every enqueued message reaches the wire
//!   exactly once, byte-identical and in enqueue order.
//! * [`raw::lemma_receive_chunking`] — however the inbound byte stream is cut
//!   into chunks, the receiver extracts the same messages.
//! * [`raw::lemma_wire_frames_round_trip`] and
//!   [`message::lemma_frame_round_trip`] — a message framed onto the wire
//!   arrives as the same frame and decodes to the same structure.
//! * [`connection::Connection::lemma_serials_strictly_monotonic`] and
//!   [`raw::Connection::lemma_inbound_seq_strictly_monotonic`] — serial
//!   numbers and inbound sequence numbers are strictly monotonic from 1.

pub mod connection;
pub mod message;
pub mod raw;
pub mod wire;
