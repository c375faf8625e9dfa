//! The message model: a complete wire frame, its ancillary file descriptors,
//! and its receive sequence number, together with the codec for the
//! header-fields section this crate's message layer uses.
//!
//! A frame is the fixed 16-byte primary header, then the header-fields
//! section, then padding up to a multiple of 8 bytes, then the body. The
//! header-fields section encodes seven optional fields, in a fixed order:
//! path, interface, member, error name, reply serial, destination, sender.
//! Each field is one presence byte (0 or 1) and, when present, a
//! little-endian `u32` length followed by that many payload bytes; the reply
//! serial's payload is its 4-byte little-endian encoding.

use crate::wire::{
    copy_range, head_endian_ok, padding_for_8_bytes, read_head, read_u32_le, spec_head,
    spec_head_total, spec_padding8, u32_le_at, write_u32_le, LITTLE_ENDIAN_MARKER,
    MAX_MESSAGE_SIZE, MIN_MESSAGE_SIZE, PROTOCOL_VERSION, RawHeader,
};
use vstd::bytes::{lemma_auto_spec_u32_to_from_le_bytes, spec_u32_from_le_bytes, spec_u32_to_le_bytes};
use vstd::prelude::*;
use vstd::string::{StrSliceExecFns, StringSliceAdditionalSpecFns};

verus! {

broadcast use vstd::seq_lib::group_seq_properties;

/// Longest field value the header-field codec accepts.
pub const MAX_FIELD_LEN: usize = 16 * 1024 * 1024;

/// The type of a message, as announced by its primary header.
#[derive(Clone, Copy, PartialEq, Eq, Structural, Debug)]
pub enum MessageType {
    /// An unknown or unset type code.
    Invalid,
    /// A method call.
    MethodCall,
    /// A reply to a method call.
    MethodReturn,
    /// An error reply to a method call.
    Error,
    /// A broadcast signal.
    Signal,
}

/// Wire code of a message type.
pub open spec fn spec_type_code(t: MessageType) -> u8 {
    match t {
        MessageType::Invalid => 0,
        MessageType::MethodCall => 1,
        MessageType::MethodReturn => 2,
        MessageType::Error => 3,
        MessageType::Signal => 4,
    }
}

/// Message type for a wire code; unknown codes decode as `Invalid`.
pub open spec fn spec_type_of_code(c: u8) -> MessageType {
    if c == 1 {
        MessageType::MethodCall
    } else if c == 2 {
        MessageType::MethodReturn
    } else if c == 3 {
        MessageType::Error
    } else if c == 4 {
        MessageType::Signal
    } else {
        MessageType::Invalid
    }
}

/// Computes the wire code of a message type.
pub fn type_code(t: MessageType) -> (c: u8)
    ensures
        c == spec_type_code(t),
{
    match t {
        MessageType::Invalid => 0,
        MessageType::MethodCall => 1,
        MessageType::MethodReturn => 2,
        MessageType::Error => 3,
        MessageType::Signal => 4,
    }
}

/// Decodes a wire code into a message type.
pub fn type_of_code(c: u8) -> (t: MessageType)
    ensures
        t == spec_type_of_code(c),
{
    if c == 1 {
        MessageType::MethodCall
    } else if c == 2 {
        MessageType::MethodReturn
    } else if c == 3 {
        MessageType::Error
    } else if c == 4 {
        MessageType::Signal
    } else {
        MessageType::Invalid
    }
}

/// The optional header fields a message carries. Name-valued fields hold the
/// raw bytes of the name.
pub struct MessageFields {
    /// Object path the message is sent to or emitted from.
    pub path: Option<Vec<u8>>,
    /// Interface the member belongs to.
    pub interface: Option<Vec<u8>>,
    /// Method or signal name.
    pub member: Option<Vec<u8>>,
    /// Error name of an error reply.
    pub error_name: Option<Vec<u8>>,
    /// Serial of the call this message replies to.
    pub reply_serial: Option<u32>,
    /// Connection name of the intended recipient.
    pub destination: Option<Vec<u8>>,
    /// Connection name of the sender.
    pub sender: Option<Vec<u8>>,
}

/// Mathematical view of [`MessageFields`].
#[verifier::ext_equal]
pub struct FieldsView {
    pub path: Option<Seq<u8>>,
    pub interface: Option<Seq<u8>>,
    pub member: Option<Seq<u8>>,
    pub error_name: Option<Seq<u8>>,
    pub reply_serial: Option<u32>,
    pub destination: Option<Seq<u8>>,
    pub sender: Option<Seq<u8>>,
}

/// View of an optional byte vector.
pub open spec fn opt_bytes_view(o: Option<Vec<u8>>) -> Option<Seq<u8>> {
    match o {
        Some(v) => Some(v@),
        None => None,
    }
}

impl View for MessageFields {
    type V = FieldsView;

    open spec fn view(&self) -> FieldsView {
        FieldsView {
            path: opt_bytes_view(self.path),
            interface: opt_bytes_view(self.interface),
            member: opt_bytes_view(self.member),
            error_name: opt_bytes_view(self.error_name),
            reply_serial: self.reply_serial,
            destination: opt_bytes_view(self.destination),
            sender: opt_bytes_view(self.sender),
        }
    }
}

impl MessageFields {
    /// A record with every field absent.
    pub fn empty() -> (r: MessageFields)
        ensures
            r@ == empty_fields(),
    {
        MessageFields {
            path: None,
            interface: None,
            member: None,
            error_name: None,
            reply_serial: None,
            destination: None,
            sender: None,
        }
    }
}

/// The view with every field absent.
pub open spec fn empty_fields() -> FieldsView {
    FieldsView {
        path: None,
        interface: None,
        member: None,
        error_name: None,
        reply_serial: None,
        destination: None,
        sender: None,
    }
}

/// Whether one slot payload is within the codec's length bound.
pub open spec fn slot_ok(o: Option<Seq<u8>>) -> bool {
    match o {
        None => true,
        Some(p) => p.len() <= MAX_FIELD_LEN as int,
    }
}

/// Encoding of one optional field slot.
pub open spec fn enc_slot(o: Option<Seq<u8>>) -> Seq<u8> {
    match o {
        None => seq![0u8],
        Some(p) => seq![1u8] + spec_u32_to_le_bytes(p.len() as u32) + p,
    }
}

/// Encoding of a list of slots, in order.
pub open spec fn enc_slots(l: Seq<Option<Seq<u8>>>) -> Seq<u8>
    decreases l.len(),
{
    if l.len() == 0 {
        Seq::empty()
    } else {
        enc_slot(l[0]) + enc_slots(l.drop_first())
    }
}

/// Whether every slot of the list is within the length bound.
pub open spec fn slots_ok(l: Seq<Option<Seq<u8>>>) -> bool {
    forall|k: int| 0 <= k < l.len() ==> slot_ok(#[trigger] l[k])
}

/// Parses one slot at offset `i`; returns the slot and the next offset.
pub open spec fn parse_slot(s: Seq<u8>, i: int) -> Option<(Option<Seq<u8>>, int)> {
    if 0 <= i < s.len() {
        if s[i] == 0 {
            Some((None, i + 1))
        } else if s[i] == 1 && i + 5 <= s.len() {
            let n = u32_le_at(s, i + 1) as int;
            if n <= MAX_FIELD_LEN as int && i + 5 + n <= s.len() {
                Some((Some(s.subrange(i + 5, i + 5 + n)), i + 5 + n))
            } else {
                None
            }
        } else {
            None
        }
    } else {
        None
    }
}

/// Parses `k` slots starting at offset `i`.
pub open spec fn parse_slots(s: Seq<u8>, i: int, k: nat) -> Option<(Seq<Option<Seq<u8>>>, int)>
    decreases k,
{
    if k == 0 {
        Some((Seq::empty(), i))
    } else {
        match parse_slot(s, i) {
            None => None,
            Some((o, j)) => match parse_slots(s, j, (k - 1) as nat) {
                None => None,
                Some((rest, e)) => Some((seq![o] + rest, e)),
            },
        }
    }
}

/// Length of one encoded slot.
pub proof fn lemma_enc_slot_len(o: Option<Seq<u8>>)
    ensures
        enc_slot(o).len() == match o {
            None => 1int,
            Some(p) => 5 + p.len() as int,
        },
{
    lemma_auto_spec_u32_to_from_le_bytes();
}

/// A well-formed encoded slot standing at offset `i` of `s` parses back to
/// itself.
proof fn lemma_parse_slot_at(s: Seq<u8>, i: int, o: Option<Seq<u8>>)
    requires
        slot_ok(o),
        0 <= i,
        i + enc_slot(o).len() <= s.len(),
        s.subrange(i, i + enc_slot(o).len() as int) == enc_slot(o),
    ensures
        parse_slot(s, i) == Some((o, i + enc_slot(o).len() as int)),
{
    lemma_auto_spec_u32_to_from_le_bytes();
    let e = enc_slot(o);
    assert forall|k: int| 0 <= k < e.len() implies s[i + k] == e[k] by {
        assert(s.subrange(i, i + e.len() as int)[k] == e[k]);
    }
    match o {
        None => {
            assert(s[i] == e[0]);
        },
        Some(p) => {
            assert(e.len() == 5 + p.len());
            assert(s[i] == e[0]);
            assert(s[i] == 1);
            let lenb = spec_u32_to_le_bytes(p.len() as u32);
            assert forall|k: int| 0 <= k < 4 implies s.subrange(i + 1, i + 5)[k] == lenb[k] by {
                assert(s[i + 1 + k] == e[1 + k]);
                assert(e[1 + k] == (seq![1u8] + lenb + p)[1 + k]);
            }
            assert(s.subrange(i + 1, i + 5) =~= lenb);
            let n = u32_le_at(s, i + 1) as int;
            assert(u32_le_at(s, i + 1) == spec_u32_from_le_bytes(lenb));
            assert(n == p.len());
            assert forall|k: int| 0 <= k < n implies s.subrange(i + 5, i + 5 + n)[k] == p[k] by {
                assert(s[i + 5 + k] == e[5 + k]);
                assert(e[5 + k] == (seq![1u8] + lenb + p)[5 + k]);
            }
            assert(s.subrange(i + 5, i + 5 + n) =~= p);
        },
    }
}

/// A well-formed encoded slot list standing at offset `i` of `s` parses back
/// to itself.
proof fn lemma_parse_slots_at(s: Seq<u8>, i: int, l: Seq<Option<Seq<u8>>>)
    requires
        slots_ok(l),
        0 <= i,
        i + enc_slots(l).len() <= s.len(),
        s.subrange(i, i + enc_slots(l).len() as int) == enc_slots(l),
    ensures
        parse_slots(s, i, l.len()) == Some((l, i + enc_slots(l).len() as int)),
    decreases l.len(),
{
    if l.len() == 0 {
        assert(parse_slots(s, i, 0) == Some((Seq::<Option<Seq<u8>>>::empty(), i)));
        assert(l =~= Seq::<Option<Seq<u8>>>::empty());
    } else {
        let e0 = enc_slot(l[0]);
        let rest = enc_slots(l.drop_first());
        assert(enc_slots(l) == e0 + rest);
        let e = enc_slots(l);
        assert forall|k: int| 0 <= k < e.len() implies s[i + k] == e[k] by {
            assert(s.subrange(i, i + e.len() as int)[k] == e[k]);
        }
        assert(slot_ok(l[0]));
        assert forall|k: int| 0 <= k < e0.len() implies s.subrange(i, i + e0.len() as int)[k]
            == e0[k] by {
            assert(s[i + k] == e[k]);
            assert(e[k] == (e0 + rest)[k]);
        }
        assert(s.subrange(i, i + e0.len() as int) =~= e0);
        lemma_parse_slot_at(s, i, l[0]);
        let j = i + e0.len() as int;
        assert(slots_ok(l.drop_first())) by {
            assert forall|k: int| 0 <= k < l.drop_first().len() implies slot_ok(
                #[trigger] l.drop_first()[k],
            ) by {
                assert(l.drop_first()[k] == l[k + 1]);
                assert(slot_ok(l[k + 1]));
            }
        }
        assert forall|k: int| 0 <= k < rest.len() implies s.subrange(j, j + rest.len() as int)[k]
            == rest[k] by {
            assert(s[i + (e0.len() + k)] == e[e0.len() + k]);
            assert(e[e0.len() + k] == (e0 + rest)[e0.len() + k]);
        }
        assert(s.subrange(j, j + rest.len() as int) =~= rest);
        lemma_parse_slots_at(s, j, l.drop_first());
        assert(seq![l[0]] + l.drop_first() =~= l);
    }
}

/// The slot a reply serial occupies: its 4-byte little-endian encoding.
pub open spec fn serial_slot(o: Option<u32>) -> Option<Seq<u8>> {
    match o {
        None => None,
        Some(x) => Some(spec_u32_to_le_bytes(x)),
    }
}

/// The slot list a field record encodes to.
pub open spec fn fields_slots(f: FieldsView) -> Seq<Option<Seq<u8>>> {
    seq![
        f.path,
        f.interface,
        f.member,
        f.error_name,
        serial_slot(f.reply_serial),
        f.destination,
        f.sender,
    ]
}

/// Whether a field record is within the codec's length bounds.
pub open spec fn fields_ok(f: FieldsView) -> bool {
    slots_ok(fields_slots(f))
}

/// Encoding of a whole field record: the seven slots in order.
pub open spec fn enc_fields(f: FieldsView) -> Seq<u8> {
    enc_slot(f.path) + enc_slot(f.interface) + enc_slot(f.member) + enc_slot(f.error_name)
        + enc_slot(serial_slot(f.reply_serial)) + enc_slot(f.destination) + enc_slot(f.sender)
}

/// The direct seven-way concatenation agrees with the recursive slot-list
/// encoding.
pub proof fn lemma_enc_fields_slots(f: FieldsView)
    ensures
        enc_fields(f) == enc_slots(fields_slots(f)),
{
    let e0 = enc_slot(f.path);
    let e1 = enc_slot(f.interface);
    let e2 = enc_slot(f.member);
    let e3 = enc_slot(f.error_name);
    let e4 = enc_slot(serial_slot(f.reply_serial));
    let e5 = enc_slot(f.destination);
    let e6 = enc_slot(f.sender);
    let l = fields_slots(f);
    let l1 = seq![f.interface, f.member, f.error_name, serial_slot(f.reply_serial), f.destination, f.sender];
    let l2 = seq![f.member, f.error_name, serial_slot(f.reply_serial), f.destination, f.sender];
    let l3 = seq![f.error_name, serial_slot(f.reply_serial), f.destination, f.sender];
    let l4 = seq![serial_slot(f.reply_serial), f.destination, f.sender];
    let l5 = seq![f.destination, f.sender];
    let l6 = seq![f.sender];
    let l7 = Seq::<Option<Seq<u8>>>::empty();
    assert(l.drop_first() =~= l1);
    assert(l1.drop_first() =~= l2);
    assert(l2.drop_first() =~= l3);
    assert(l3.drop_first() =~= l4);
    assert(l4.drop_first() =~= l5);
    assert(l5.drop_first() =~= l6);
    assert(l6.drop_first() =~= l7);
    assert(enc_slots(l7) =~= Seq::<u8>::empty());
    assert(enc_slots(l6) =~= e6);
    let r5 = e5 + e6;
    let r4 = e4 + r5;
    let r3 = e3 + r4;
    let r2 = e2 + r3;
    let r1 = e1 + r2;
    assert(enc_slots(l5) == r5);
    assert(enc_slots(l4) == r4);
    assert(enc_slots(l3) == r3);
    assert(enc_slots(l2) == r2);
    assert(enc_slots(l1) == r1);
    assert(enc_slots(l) == e0 + r1);
    vstd::seq_lib::lemma_concat_associative(e0, e1, r2);
    vstd::seq_lib::lemma_concat_associative(e0 + e1, e2, r3);
    vstd::seq_lib::lemma_concat_associative(e0 + e1 + e2, e3, r4);
    vstd::seq_lib::lemma_concat_associative(e0 + e1 + e2 + e3, e4, r5);
    vstd::seq_lib::lemma_concat_associative(e0 + e1 + e2 + e3 + e4, e5, e6);
    assert(enc_fields(f) == e0 + e1 + e2 + e3 + e4 + e5 + e6);
}

/// Bound on the encoded length of a field record within the codec's bounds.
#[verifier::rlimit(30)]
pub proof fn lemma_enc_fields_len(f: FieldsView)
    requires
        fields_ok(f),
    ensures
        enc_fields(f).len() <= 7 * (5 + MAX_FIELD_LEN as int),
{
    lemma_auto_spec_u32_to_from_le_bytes();
    let l = fields_slots(f);
    assert(slot_ok(l[0]) && slot_ok(l[1]) && slot_ok(l[2]) && slot_ok(l[3]) && slot_ok(l[4])
        && slot_ok(l[5]) && slot_ok(l[6]));
    lemma_enc_slot_len(f.path);
    lemma_enc_slot_len(f.interface);
    lemma_enc_slot_len(f.member);
    lemma_enc_slot_len(f.error_name);
    lemma_enc_slot_len(serial_slot(f.reply_serial));
    lemma_enc_slot_len(f.destination);
    lemma_enc_slot_len(f.sender);
}

/// The field record a seven-slot list decodes to, when the reply-serial slot
/// is absent or exactly four bytes.
pub open spec fn slots_fields(l: Seq<Option<Seq<u8>>>) -> Option<FieldsView> {
    if l.len() == 7 {
        match l[4] {
            None => Some(
                FieldsView {
                    path: l[0],
                    interface: l[1],
                    member: l[2],
                    error_name: l[3],
                    reply_serial: None,
                    destination: l[5],
                    sender: l[6],
                },
            ),
            Some(p) => if p.len() == 4 {
                Some(
                    FieldsView {
                        path: l[0],
                        interface: l[1],
                        member: l[2],
                        error_name: l[3],
                        reply_serial: Some(spec_u32_from_le_bytes(p)),
                        destination: l[5],
                        sender: l[6],
                    },
                )
            } else {
                None
            },
        }
    } else {
        None
    }
}

/// Parses a whole header-fields section; the seven slots must span `s`
/// exactly.
pub open spec fn parse_fields(s: Seq<u8>) -> Option<FieldsView> {
    match parse_slots(s, 0, 7) {
        None => None,
        Some((l, e)) => if e == s.len() {
            slots_fields(l)
        } else {
            None
        },
    }
}

/// Decoding inverts encoding: a field record within the codec's bounds is
/// recovered exactly from its encoded header-fields section.
pub proof fn lemma_fields_round_trip(f: FieldsView)
    requires
        fields_ok(f),
    ensures
        parse_fields(enc_fields(f)) == Some(f),
{
    lemma_auto_spec_u32_to_from_le_bytes();
    let l = fields_slots(f);
    let s = enc_fields(f);
    lemma_enc_fields_slots(f);
    assert(s.subrange(0, s.len() as int) =~= s);
    lemma_parse_slots_at(s, 0, l);
    assert(l.len() == 7);
    match slots_fields(l) {
        None => {
            assert(false);
        },
        Some(g) => {
            assert(g =~= f);
        },
    }
}

/// The complete little-endian frame for the given header values, field
/// record and body.
pub open spec fn frame_of(
    mtype: u8,
    flags: u8,
    serial: u32,
    f: FieldsView,
    body: Seq<u8>,
) -> Seq<u8> {
    let fb = enc_fields(f);
    let header_len = 16 + fb.len() as int;
    seq![LITTLE_ENDIAN_MARKER, mtype, flags, PROTOCOL_VERSION]
        + spec_u32_to_le_bytes(body.len() as u32) + spec_u32_to_le_bytes(serial)
        + spec_u32_to_le_bytes(fb.len() as u32) + fb + Seq::new(
        spec_padding8(header_len) as nat,
        |k: int| 0u8,
    ) + body
}

/// Total length of the frame for a field record and body.
pub open spec fn spec_frame_total(f: FieldsView, body: Seq<u8>) -> int {
    let header_len = 16 + enc_fields(f).len() as int;
    header_len + spec_padding8(header_len) + body.len() as int
}

/// The header-fields section of a frame.
pub open spec fn fields_bytes(s: Seq<u8>) -> Seq<u8> {
    s.subrange(16, 16 + spec_head(s).fields_len as int)
}

/// Whether `s` is a complete, decodable little-endian frame: its declared
/// total length is its length, within the protocol limit, and its
/// header-fields section parses.
pub open spec fn frame_wf(s: Seq<u8>) -> bool {
    &&& s.len() >= 16
    &&& head_endian_ok(s)
    &&& !spec_head(s).big_endian
    &&& s.len() == spec_head_total(s)
    &&& s.len() <= MAX_MESSAGE_SIZE as int
    &&& parse_fields(fields_bytes(s)) is Some
}

/// The field record of a well-formed frame.
pub open spec fn frame_fields(s: Seq<u8>) -> FieldsView {
    match parse_fields(fields_bytes(s)) {
        Some(f) => f,
        None => empty_fields(),
    }
}

/// The body of a well-formed frame.
pub open spec fn frame_body(s: Seq<u8>) -> Seq<u8> {
    s.subrange(s.len() - spec_head(s).body_len as int, s.len() as int)
}

/// Framing round trip: a frame built from header values, a field record
/// within the codec's bounds, and a body decodes back to exactly those parts.
pub proof fn lemma_frame_round_trip(mtype: u8, flags: u8, serial: u32, f: FieldsView, body: Seq<u8>)
    requires
        fields_ok(f),
        spec_frame_total(f, body) <= MAX_MESSAGE_SIZE as int,
    ensures
        ({
            let s = frame_of(mtype, flags, serial, f, body);
            &&& s.len() == spec_frame_total(f, body)
            &&& frame_wf(s)
            &&& spec_head(s).mtype_code == mtype
            &&& spec_head(s).flags == flags
            &&& spec_head(s).serial == serial
            &&& spec_head(s).body_len == body.len()
            &&& spec_head(s).fields_len == enc_fields(f).len()
            &&& fields_bytes(s) == enc_fields(f)
            &&& frame_fields(s) == f
            &&& frame_body(s) == body
        }),
{
    lemma_auto_spec_u32_to_from_le_bytes();
    let fb = enc_fields(f);
    let header_len = 16 + fb.len() as int;
    let pad = spec_padding8(header_len);
    let bl = spec_u32_to_le_bytes(body.len() as u32);
    let se = spec_u32_to_le_bytes(serial);
    let fl = spec_u32_to_le_bytes(fb.len() as u32);
    let pz = Seq::new(pad as nat, |k: int| 0u8);
    let a = seq![LITTLE_ENDIAN_MARKER, mtype, flags, PROTOCOL_VERSION];
    let s = frame_of(mtype, flags, serial, f, body);
    assert(s == a + bl + se + fl + fb + pz + body);
    assert(s.len() == 16 + fb.len() + pad + body.len());
    assert(body.len() < MAX_MESSAGE_SIZE as int);
    assert(fb.len() < MAX_MESSAGE_SIZE as int);
    assert(s[0] == LITTLE_ENDIAN_MARKER);
    assert(s[1] == mtype);
    assert(s[2] == flags);
    assert(s[3] == PROTOCOL_VERSION);
    assert(s.subrange(4, 8) =~= bl);
    assert(s.subrange(8, 12) =~= se);
    assert(s.subrange(12, 16) =~= fl);
    assert(spec_head(s).body_len == body.len() as u32);
    assert(spec_head(s).serial == serial);
    assert(spec_head(s).fields_len == fb.len() as u32);
    assert(s.subrange(16, 16 + fb.len() as int) =~= fb);
    assert(fields_bytes(s) == fb);
    lemma_fields_round_trip(f);
    assert(s.subrange(s.len() - body.len(), s.len() as int) =~= body);
    assert(spec_head_total(s) == s.len());
}

/// The errors this crate raises.
#[derive(Debug)]
pub enum Error {
    /// A read returned no bytes while a frame was owed.
    UnexpectedEof,
    /// A declared or requested frame length exceeds the protocol limit.
    ExcessData,
    /// A frame or header-fields section does not decode.
    InvalidHeader,
    /// A message carries file descriptors on a connection that did not
    /// negotiate fd passing.
    Unsupported,
    /// A method call was answered with an error reply; carries the reply.
    MethodError(Message),
}

/// Checks one optional field value against the codec's length bound.
fn opt_len_ok(o: &Option<Vec<u8>>) -> (r: bool)
    ensures
        r == slot_ok(opt_bytes_view(*o)),
{
    match o {
        None => true,
        Some(p) => p.len() <= MAX_FIELD_LEN,
    }
}

/// The length bound holds of a whole record exactly when it holds of each of
/// its six name-valued fields.
pub proof fn lemma_fields_ok_unfold(f: FieldsView)
    ensures
        fields_ok(f) <==> (slot_ok(f.path) && slot_ok(f.interface) && slot_ok(f.member)
            && slot_ok(f.error_name) && slot_ok(f.destination) && slot_ok(f.sender)),
{
    lemma_auto_spec_u32_to_from_le_bytes();
    let l = fields_slots(f);
    if slot_ok(f.path) && slot_ok(f.interface) && slot_ok(f.member) && slot_ok(f.error_name)
        && slot_ok(f.destination) && slot_ok(f.sender) {
        assert forall|k: int| 0 <= k < l.len() implies slot_ok(#[trigger] l[k]) by {
            assert(slot_ok(l[0]) && slot_ok(l[1]) && slot_ok(l[2]) && slot_ok(l[3]) && slot_ok(
                l[4],
            ) && slot_ok(l[5]) && slot_ok(l[6]));
        }
    }
    if fields_ok(f) {
        assert(slot_ok(l[0]) && slot_ok(l[1]) && slot_ok(l[2]) && slot_ok(l[3]) && slot_ok(l[5])
            && slot_ok(l[6]));
    }
}

/// Appends the encoding of one optional byte-valued field slot.
fn encode_slot(out: &mut Vec<u8>, o: &Option<Vec<u8>>)
    requires
        slot_ok(opt_bytes_view(*o)),
    ensures
        final(out)@ == old(out)@ + enc_slot(opt_bytes_view(*o)),
{
    match o {
        None => {
            out.push(0);
            proof {
                assert(out@ =~= old(out)@ + enc_slot(opt_bytes_view(*o)));
            }
        },
        Some(p) => {
            out.push(1);
            write_u32_le(out, p.len() as u32);
            out.extend_from_slice(p.as_slice());
            proof {
                vstd::bytes::lemma_auto_spec_u32_to_from_le_bytes();
                assert(out@ =~= old(out)@ + enc_slot(opt_bytes_view(*o)));
            }
        },
    }
}

/// Encodes a header-fields record, or reports that a field value exceeds the
/// codec's length bound.
pub fn encode_fields(f: &MessageFields) -> (r: Result<Vec<u8>, Error>)
    ensures
        match r {
            Ok(v) => fields_ok(f@) && v@ == enc_fields(f@),
            Err(e) => !fields_ok(f@) && e is ExcessData,
        },
{
    proof {
        lemma_fields_ok_unfold(f@);
    }
    if !(opt_len_ok(&f.path) && opt_len_ok(&f.interface) && opt_len_ok(&f.member) && opt_len_ok(
        &f.error_name,
    ) && opt_len_ok(&f.destination) && opt_len_ok(&f.sender)) {
        return Err(Error::ExcessData);
    }
    let mut out: Vec<u8> = Vec::new();
    encode_slot(&mut out, &f.path);
    encode_slot(&mut out, &f.interface);
    encode_slot(&mut out, &f.member);
    encode_slot(&mut out, &f.error_name);
    match f.reply_serial {
        None => {
            out.push(0);
            proof {
                assert(out@ =~= enc_slot(f@.path) + enc_slot(f@.interface) + enc_slot(f@.member)
                    + enc_slot(f@.error_name) + enc_slot(serial_slot(f@.reply_serial)));
            }
        },
        Some(x) => {
            out.push(1);
            write_u32_le(&mut out, 4);
            write_u32_le(&mut out, x);
            proof {
                lemma_auto_spec_u32_to_from_le_bytes();
                let p = spec_u32_to_le_bytes(x);
                assert(enc_slot(serial_slot(f@.reply_serial)) == seq![1u8]
                    + spec_u32_to_le_bytes(4u32) + p);
                assert(out@ =~= enc_slot(f@.path) + enc_slot(f@.interface) + enc_slot(f@.member)
                    + enc_slot(f@.error_name) + enc_slot(serial_slot(f@.reply_serial)));
            }
        },
    }
    encode_slot(&mut out, &f.destination);
    encode_slot(&mut out, &f.sender);
    Ok(out)
}

/// View of a list of parsed slots.
pub open spec fn slots_view(l: Seq<Option<Vec<u8>>>) -> Seq<Option<Seq<u8>>> {
    l.map_values(|o: Option<Vec<u8>>| opt_bytes_view(o))
}

/// Parses one slot at offset `i` of `fb`.
fn take_slot(fb: &Vec<u8>, i: usize) -> (r: Option<(Option<Vec<u8>>, usize)>)
    ensures
        match r {
            Some(oj) => parse_slot(fb@, i as int) == Some((opt_bytes_view(oj.0), oj.1 as int))
                && i < oj.1 <= fb@.len(),
            None => parse_slot(fb@, i as int) is None,
        },
{
    if i < fb.len() {
        let b = fb[i];
        if b == 0 {
            Some((None, i + 1))
        } else if b == 1 && fb.len() - i >= 5 {
            let n32 = read_u32_le(fb, i + 1);
            let n = n32 as usize;
            if n <= MAX_FIELD_LEN && n <= fb.len() - (i + 5) {
                let p = copy_range(fb, i + 5, i + 5 + n);
                Some((Some(p), i + 5 + n))
            } else {
                None
            }
        } else {
            None
        }
    } else {
        None
    }
}

/// Parses `k` slots starting at offset `i` of `fb`.
fn take_slots(fb: &Vec<u8>, i: usize, k: usize) -> (r: Option<(Vec<Option<Vec<u8>>>, usize)>)
    requires
        i <= fb@.len(),
    ensures
        match r {
            Some(le) => parse_slots(fb@, i as int, k as nat) == Some(
                (slots_view(le.0@), le.1 as int),
            ) && le.0@.len() == k && i <= le.1 <= fb@.len(),
            None => parse_slots(fb@, i as int, k as nat) is None,
        },
    decreases k,
{
    if k == 0 {
        let l: Vec<Option<Vec<u8>>> = Vec::new();
        proof {
            assert(slots_view(l@) =~= Seq::<Option<Seq<u8>>>::empty());
        }
        Some((l, i))
    } else {
        match take_slot(fb, i) {
            None => None,
            Some((o, j)) => {
                let ghost ov = opt_bytes_view(o);
                match take_slots(fb, j, k - 1) {
                    None => None,
                    Some((mut rest, e)) => {
                        let ghost restv = slots_view(rest@);
                        rest.insert(0, o);
                        proof {
                            assert(slots_view(rest@) =~= seq![ov] + restv);
                        }
                        Some((rest, e))
                    },
                }
            },
        }
    }
}

/// Parses a whole header-fields section.
pub fn parse_fields_exec(fb: &Vec<u8>) -> (r: Option<MessageFields>)
    ensures
        match r {
            Some(m) => parse_fields(fb@) == Some(m@),
            None => parse_fields(fb@) is None,
        },
{
    match take_slots(fb, 0, 7) {
        None => None,
        Some((mut l, e)) => {
            if e != fb.len() {
                return None;
            }
            let ghost sl = slots_view(l@);
            let p0 = l.remove(0);
            let p1 = l.remove(0);
            let p2 = l.remove(0);
            let p3 = l.remove(0);
            let p4 = l.remove(0);
            let p5 = l.remove(0);
            let p6 = l.remove(0);
            proof {
                assert(sl[0] == opt_bytes_view(p0));
                assert(sl[1] == opt_bytes_view(p1));
                assert(sl[2] == opt_bytes_view(p2));
                assert(sl[3] == opt_bytes_view(p3));
                assert(sl[4] == opt_bytes_view(p4));
                assert(sl[5] == opt_bytes_view(p5));
                assert(sl[6] == opt_bytes_view(p6));
            }
            let rs: Option<u32> = match &p4 {
                None => None,
                Some(pv) => {
                    if pv.len() == 4 {
                        let x = read_u32_le(pv, 0);
                        proof {
                            assert(pv@.subrange(0, 4) =~= pv@);
                        }
                        Some(x)
                    } else {
                        return None;
                    }
                },
            };
            let m = MessageFields {
                path: p0,
                interface: p1,
                member: p2,
                error_name: p3,
                reply_serial: rs,
                destination: p5,
                sender: p6,
            };
            proof {
                match slots_fields(sl) {
                    Some(g) => {
                        assert(m@ =~= g);
                    },
                    None => {
                        assert(false);
                    },
                }
            }
            Some(m)
        },
    }
}

/// View of an optional string as its optional UTF-8 bytes.
pub open spec fn opt_str_view(o: Option<&str>) -> Option<Seq<u8>> {
    match o {
        Some(s) => Some(s.spec_bytes()),
        None => None,
    }
}

/// Copies an optional string into its optional UTF-8 bytes.
fn opt_str_bytes(o: Option<&str>) -> (r: Option<Vec<u8>>)
    ensures
        opt_bytes_view(r) == opt_str_view(o),
{
    match o {
        Some(s) => Some(s.as_bytes_vec()),
        None => None,
    }
}

/// The field record of a method call.
pub open spec fn method_fields(
    sender: Option<Seq<u8>>,
    destination: Option<Seq<u8>>,
    path: Seq<u8>,
    iface: Option<Seq<u8>>,
    member: Seq<u8>,
) -> FieldsView {
    FieldsView {
        path: Some(path),
        interface: iface,
        member: Some(member),
        error_name: None,
        reply_serial: None,
        destination,
        sender,
    }
}

/// The field record of a signal.
pub open spec fn signal_fields(
    sender: Option<Seq<u8>>,
    destination: Option<Seq<u8>>,
    path: Seq<u8>,
    iface: Seq<u8>,
    member: Seq<u8>,
) -> FieldsView {
    FieldsView {
        path: Some(path),
        interface: Some(iface),
        member: Some(member),
        error_name: None,
        reply_serial: None,
        destination,
        sender,
    }
}

/// The field record of a successful method reply.
pub open spec fn reply_fields(
    sender: Option<Seq<u8>>,
    reply_serial: u32,
    destination: Option<Seq<u8>>,
) -> FieldsView {
    FieldsView {
        path: None,
        interface: None,
        member: None,
        error_name: None,
        reply_serial: Some(reply_serial),
        destination,
        sender,
    }
}

/// The field record of an error reply.
pub open spec fn error_fields(
    sender: Option<Seq<u8>>,
    error_name: Seq<u8>,
    reply_serial: u32,
    destination: Option<Seq<u8>>,
) -> FieldsView {
    FieldsView {
        path: None,
        interface: None,
        member: None,
        error_name: Some(error_name),
        reply_serial: Some(reply_serial),
        destination,
        sender,
    }
}

/// Whether a frame can be built at all from a field record and a body: the
/// record is within the codec's bounds and the total length within the
/// protocol limit.
pub open spec fn build_ok(f: FieldsView, body: Seq<u8>) -> bool {
    fields_ok(f) && spec_frame_total(f, body) <= MAX_MESSAGE_SIZE as int
}

/// A complete D-Bus message: its full wire frame, the file descriptors that
/// travel with it, and the sequence number assigned when it was received.
#[derive(Debug)]
pub struct Message {
    /// The complete frame, primary header included.
    pub bytes: Vec<u8>,
    /// Ancillary file descriptors, as raw descriptor numbers.
    pub fds: Vec<i32>,
    /// Receive sequence number; 0 for locally built messages.
    pub seq_num: u64,
}

impl Message {
    /// Whether the frame decodes: the message invariant.
    pub open spec fn wf(self) -> bool {
        frame_wf(self.bytes@)
    }

    /// The message type announced by the primary header.
    pub open spec fn spec_mtype(self) -> MessageType {
        spec_type_of_code(spec_head(self.bytes@).mtype_code)
    }

    /// The serial number stamped on the frame.
    pub open spec fn spec_serial(self) -> u32 {
        spec_head(self.bytes@).serial
    }

    /// The decoded header-field record.
    pub open spec fn spec_fields(self) -> FieldsView {
        frame_fields(self.bytes@)
    }

    /// The serial this message replies to, if any.
    pub open spec fn spec_reply_serial(self) -> Option<u32> {
        frame_fields(self.bytes@).reply_serial
    }

    /// The body bytes.
    pub open spec fn spec_body(self) -> Seq<u8> {
        frame_body(self.bytes@)
    }

    /// Builds the frame for the given header values, field record and body.
    pub fn build(
        mtype: MessageType,
        flags: u8,
        serial: u32,
        fields: MessageFields,
        body: Vec<u8>,
        fds: Vec<i32>,
    ) -> (r: Result<Message, Error>)
        ensures
            match r {
                Ok(m) => build_ok(fields@, body@) && m.wf() && m.bytes@ == frame_of(
                    spec_type_code(mtype),
                    flags,
                    serial,
                    fields@,
                    body@,
                ) && m.spec_mtype() == mtype && m.spec_serial() == serial && m.spec_fields()
                    == fields@ && m.spec_body() == body@ && m.fds@ == fds@ && m.seq_num == 0,
                Err(e) => !build_ok(fields@, body@) && e is ExcessData,
            },
    {
        let ghost fview = fields@;
        let ghost bodyv = body@;
        let fb = match encode_fields(&fields) {
            Ok(v) => v,
            Err(e) => {
                return Err(e);
            },
        };
        proof {
            lemma_enc_fields_len(fview);
        }
        let header_len: usize = 16 + fb.len();
        let pad: usize = padding_for_8_bytes(header_len);
        let fixed: usize = header_len + pad;
        assert(fixed <= 7 * (5 + MAX_FIELD_LEN) + 16 + 7);
        if body.len() > MAX_MESSAGE_SIZE - fixed {
            proof {
                assert(spec_frame_total(fview, bodyv) > MAX_MESSAGE_SIZE as int);
            }
            return Err(Error::ExcessData);
        }
        let mut out: Vec<u8> = Vec::new();
        out.push(LITTLE_ENDIAN_MARKER);
        out.push(type_code(mtype));
        out.push(flags);
        out.push(PROTOCOL_VERSION);
        proof {
            assert(out@ =~= seq![
                LITTLE_ENDIAN_MARKER,
                spec_type_code(mtype),
                flags,
                PROTOCOL_VERSION,
            ]);
        }
        write_u32_le(&mut out, body.len() as u32);
        write_u32_le(&mut out, serial);
        write_u32_le(&mut out, fb.len() as u32);
        let mut fb = fb;
        out.append(&mut fb);
        let ghost before_pad = out@;
        let mut k: usize = 0;
        while k < pad
            invariant
                k <= pad,
                out@ == before_pad + Seq::new(k as nat, |q: int| 0u8),
            decreases pad - k,
        {
            out.push(0);
            proof {
                assert(out@ =~= before_pad + Seq::new((k + 1) as nat, |q: int| 0u8));
            }
            k = k + 1;
        }
        let mut body = body;
        out.append(&mut body);
        proof {
            assert(out@ == frame_of(spec_type_code(mtype), flags, serial, fview, bodyv));
            lemma_frame_round_trip(spec_type_code(mtype), flags, serial, fview, bodyv);
        }
        Ok(Message { bytes: out, fds, seq_num: 0 })
    }

    /// Validates and wraps a received frame, attaching its file descriptors
    /// and the sequence number assigned by the framer.
    pub fn from_raw_parts(bytes: Vec<u8>, fds: Vec<i32>, seq_num: u64) -> (r: Result<
        Message,
        Error,
    >)
        ensures
            match r {
                Ok(m) => frame_wf(bytes@) && m.bytes@ == bytes@ && m.fds@ == fds@ && m.seq_num
                    == seq_num,
                Err(e) => !frame_wf(bytes@) && e is InvalidHeader,
            },
    {
        if bytes.len() < MIN_MESSAGE_SIZE {
            return Err(Error::InvalidHeader);
        }
        if bytes[0] != LITTLE_ENDIAN_MARKER {
            return Err(Error::InvalidHeader);
        }
        let h = read_head(&bytes);
        let header_len: u64 = 16 + h.fields_len as u64;
        let pad: u64 = (8 - header_len % 8) % 8;
        assert(pad as int == spec_padding8(header_len as int));
        let total: u64 = header_len + pad + h.body_len as u64;
        if total != bytes.len() as u64 {
            return Err(Error::InvalidHeader);
        }
        if total > MAX_MESSAGE_SIZE as u64 {
            return Err(Error::InvalidHeader);
        }
        let end: usize = 16 + h.fields_len as usize;
        let fbv = copy_range(&bytes, 16, end);
        assert(fbv@ == fields_bytes(bytes@));
        match parse_fields_exec(&fbv) {
            Some(_) => Ok(Message { bytes, fds, seq_num }),
            None => Err(Error::InvalidHeader),
        }
    }

    /// Decodes the primary header.
    pub fn header(&self) -> (r: RawHeader)
        requires
            self.wf(),
        ensures
            r == spec_head(self.bytes@),
    {
        read_head(&self.bytes)
    }

    /// The message type.
    pub fn message_type(&self) -> (t: MessageType)
        requires
            self.wf(),
        ensures
            t == self.spec_mtype(),
    {
        let h = self.header();
        type_of_code(h.mtype_code)
    }

    /// The serial stamped on the frame.
    pub fn serial(&self) -> (s: u32)
        requires
            self.wf(),
        ensures
            s == self.spec_serial(),
    {
        self.header().serial
    }

    /// Decodes the header-field record.
    pub fn fields(&self) -> (r: MessageFields)
        requires
            self.wf(),
        ensures
            r@ == self.spec_fields(),
    {
        let h = self.header();
        let end: usize = 16 + h.fields_len as usize;
        assert(end <= self.bytes@.len());
        let fbv = copy_range(&self.bytes, 16, end);
        assert(fbv@ == fields_bytes(self.bytes@));
        match parse_fields_exec(&fbv) {
            Some(m) => m,
            None => {
                proof {
                    assert(false);
                }
                MessageFields::empty()
            },
        }
    }

    /// The serial this message replies to, if any.
    pub fn reply_serial(&self) -> (r: Option<u32>)
        requires
            self.wf(),
        ensures
            r == self.spec_reply_serial(),
    {
        self.fields().reply_serial
    }

    /// Copies the body bytes out of the frame.
    pub fn body(&self) -> (r: Vec<u8>)
        requires
            self.wf(),
        ensures
            r@ == self.spec_body(),
    {
        let h = self.header();
        let n = self.bytes.len();
        let start: usize = n - h.body_len as usize;
        copy_range(&self.bytes, start, n)
    }

    /// The full frame.
    pub fn as_bytes(&self) -> (r: &Vec<u8>)
        ensures
            r@ == self.bytes@,
    {
        &self.bytes
    }

    /// Whether any file descriptors travel with the message.
    pub fn has_fds(&self) -> (r: bool)
        ensures
            r == (self.fds@.len() > 0),
    {
        self.fds.len() > 0
    }

    /// Replaces the message's file descriptors.
    pub fn attach_fds(&mut self, fds: Vec<i32>)
        ensures
            final(self).fds@ == fds@,
            final(self).bytes@ == old(self).bytes@,
            final(self).seq_num == old(self).seq_num,
    {
        self.fds = fds;
    }

    /// Stamps a serial number into the frame, leaving every other part of the
    /// message unchanged.
    pub fn set_serial(&mut self, serial: u32)
        requires
            old(self).wf(),
        ensures
            final(self).wf(),
            final(self).bytes@.len() == old(self).bytes@.len(),
            final(self).spec_serial() == serial,
            final(self).spec_mtype() == old(self).spec_mtype(),
            final(self).spec_fields() == old(self).spec_fields(),
            final(self).spec_body() == old(self).spec_body(),
            final(self).fds@ == old(self).fds@,
            final(self).seq_num == old(self).seq_num,
    {
        let sb = vstd::bytes::u32_to_le_bytes(serial);
        proof {
            lemma_auto_spec_u32_to_from_le_bytes();
        }
        self.bytes[8] = sb[0];
        self.bytes[9] = sb[1];
        self.bytes[10] = sb[2];
        self.bytes[11] = sb[3];
        proof {
            let s0 = old(self).bytes@;
            let s1 = self.bytes@;
            assert(s1.subrange(0, 4) =~= s0.subrange(0, 4));
            assert(s1.subrange(4, 8) =~= s0.subrange(4, 8));
            assert(s1.subrange(8, 12) =~= sb@);
            assert(s1.subrange(12, 16) =~= s0.subrange(12, 16));
            assert(s1[0] == s0[0] && s1[1] == s0[1] && s1[2] == s0[2] && s1[3] == s0[3]);
            assert(spec_head(s1).serial == serial);
            assert(spec_head(s1).body_len == spec_head(s0).body_len);
            assert(spec_head(s1).fields_len == spec_head(s0).fields_len);
            assert(fields_bytes(s1) =~= fields_bytes(s0));
            assert(frame_body(s1) =~= frame_body(s0));
        }
    }

    /// Builds a method-call message, serial left 0 until it is assigned.
    pub fn method(
        sender: Option<&str>,
        destination: Option<&str>,
        path: &str,
        iface: Option<&str>,
        method_name: &str,
        body: Vec<u8>,
    ) -> (r: Result<Message, Error>)
        ensures
            ({
                let f = method_fields(
                    opt_str_view(sender),
                    opt_str_view(destination),
                    path.spec_bytes(),
                    opt_str_view(iface),
                    method_name.spec_bytes(),
                );
                match r {
                    Ok(m) => build_ok(f, body@) && m.wf() && m.spec_mtype()
                        == MessageType::MethodCall && m.spec_serial() == 0 && m.spec_fields() == f
                        && m.spec_body() == body@ && m.fds@.len() == 0 && m.seq_num == 0,
                    Err(e) => !build_ok(f, body@) && e is ExcessData,
                }
            }),
    {
        let fields = MessageFields {
            path: Some(path.as_bytes_vec()),
            interface: opt_str_bytes(iface),
            member: Some(method_name.as_bytes_vec()),
            error_name: None,
            reply_serial: None,
            destination: opt_str_bytes(destination),
            sender: opt_str_bytes(sender),
        };
        proof {
            assert(fields@ =~= method_fields(
                opt_str_view(sender),
                opt_str_view(destination),
                path.spec_bytes(),
                opt_str_view(iface),
                method_name.spec_bytes(),
            ));
        }
        Message::build(MessageType::MethodCall, 0, 0, fields, body, Vec::new())
    }

    /// Builds a signal message.
    pub fn signal(
        sender: Option<&str>,
        destination: Option<&str>,
        path: &str,
        iface: &str,
        signal_name: &str,
        body: Vec<u8>,
    ) -> (r: Result<Message, Error>)
        ensures
            ({
                let f = signal_fields(
                    opt_str_view(sender),
                    opt_str_view(destination),
                    path.spec_bytes(),
                    iface.spec_bytes(),
                    signal_name.spec_bytes(),
                );
                match r {
                    Ok(m) => build_ok(f, body@) && m.wf() && m.spec_mtype() == MessageType::Signal
                        && m.spec_serial() == 0 && m.spec_fields() == f && m.spec_body() == body@
                        && m.fds@.len() == 0 && m.seq_num == 0,
                    Err(e) => !build_ok(f, body@) && e is ExcessData,
                }
            }),
    {
        let fields = MessageFields {
            path: Some(path.as_bytes_vec()),
            interface: Some(iface.as_bytes_vec()),
            member: Some(signal_name.as_bytes_vec()),
            error_name: None,
            reply_serial: None,
            destination: opt_str_bytes(destination),
            sender: opt_str_bytes(sender),
        };
        proof {
            assert(fields@ =~= signal_fields(
                opt_str_view(sender),
                opt_str_view(destination),
                path.spec_bytes(),
                iface.spec_bytes(),
                signal_name.spec_bytes(),
            ));
        }
        Message::build(MessageType::Signal, 0, 0, fields, body, Vec::new())
    }

    /// Builds the successful reply to `call`: it carries `call`'s serial as
    /// its reply serial and is addressed to `call`'s sender.
    pub fn method_reply(sender: Option<&str>, call: &Message, body: Vec<u8>) -> (r: Result<
        Message,
        Error,
    >)
        requires
            call.wf(),
        ensures
            ({
                let f = reply_fields(
                    opt_str_view(sender),
                    call.spec_serial(),
                    call.spec_fields().sender,
                );
                match r {
                    Ok(m) => build_ok(f, body@) && m.wf() && m.spec_mtype()
                        == MessageType::MethodReturn && m.spec_serial() == 0
                        && m.spec_fields() == f && m.spec_reply_serial() == Some(
                        call.spec_serial(),
                    ) && m.spec_body() == body@ && m.fds@.len() == 0 && m.seq_num == 0,
                    Err(e) => !build_ok(f, body@) && e is ExcessData,
                }
            }),
    {
        let cf = call.fields();
        let fields = MessageFields {
            path: None,
            interface: None,
            member: None,
            error_name: None,
            reply_serial: Some(call.serial()),
            destination: cf.sender,
            sender: opt_str_bytes(sender),
        };
        proof {
            assert(fields@ =~= reply_fields(
                opt_str_view(sender),
                call.spec_serial(),
                call.spec_fields().sender,
            ));
        }
        Message::build(MessageType::MethodReturn, 0, 0, fields, body, Vec::new())
    }

    /// Builds the error reply to `call`, under the given error name.
    pub fn method_error(
        sender: Option<&str>,
        call: &Message,
        error_name: &str,
        body: Vec<u8>,
    ) -> (r: Result<Message, Error>)
        requires
            call.wf(),
        ensures
            ({
                let f = error_fields(
                    opt_str_view(sender),
                    error_name.spec_bytes(),
                    call.spec_serial(),
                    call.spec_fields().sender,
                );
                match r {
                    Ok(m) => build_ok(f, body@) && m.wf() && m.spec_mtype() == MessageType::Error
                        && m.spec_serial() == 0 && m.spec_fields() == f && m.spec_reply_serial()
                        == Some(call.spec_serial()) && m.spec_body() == body@ && m.fds@.len() == 0
                        && m.seq_num == 0,
                    Err(e) => !build_ok(f, body@) && e is ExcessData,
                }
            }),
    {
        let cf = call.fields();
        let fields = MessageFields {
            path: None,
            interface: None,
            member: None,
            error_name: Some(error_name.as_bytes_vec()),
            reply_serial: Some(call.serial()),
            destination: cf.sender,
            sender: opt_str_bytes(sender),
        };
        proof {
            assert(fields@ =~= error_fields(
                opt_str_view(sender),
                error_name.spec_bytes(),
                call.spec_serial(),
                call.spec_fields().sender,
            ));
        }
        Message::build(MessageType::Error, 0, 0, fields, body, Vec::new())
    }

    /// A short human-readable tag for the message's type.
    pub fn kind_str(&self) -> (r: &'static str)
        requires
            self.wf(),
        ensures
            self.spec_mtype() == MessageType::MethodCall ==> r@ == "Method call"@,
            self.spec_mtype() == MessageType::MethodReturn ==> r@ == "Method return"@,
            self.spec_mtype() == MessageType::Error ==> r@ == "Error"@,
            self.spec_mtype() == MessageType::Signal ==> r@ == "Signal"@,
            self.spec_mtype() == MessageType::Invalid ==> r@ == "Invalid"@,
    {
        match self.message_type() {
            MessageType::Invalid => "Invalid",
            MessageType::MethodCall => "Method call",
            MessageType::MethodReturn => "Method return",
            MessageType::Error => "Error",
            MessageType::Signal => "Signal",
        }
    }
}

} // verus!
