//! Byte-level wire helpers: integer encodings, the 8-byte padding rule, and
//! the fixed 16-byte primary header of every D-Bus message.

use vstd::bytes::{spec_u32_from_le_bytes, spec_u32_to_le_bytes, u32_from_le_bytes, u32_to_le_bytes};
use vstd::prelude::*;
use vstd::slice::slice_subrange;

verus! {

/// Length of the fixed primary-header prefix of every message.
pub const MIN_MESSAGE_SIZE: usize = 16;

/// Protocol limit on the total length of one message.
pub const MAX_MESSAGE_SIZE: usize = 128 * 1024 * 1024;

/// First byte of a message marshalled in little-endian order (ASCII 'l').
pub const LITTLE_ENDIAN_MARKER: u8 = 108;

/// First byte of a message marshalled in big-endian order (ASCII 'B').
pub const BIG_ENDIAN_MARKER: u8 = 66;

/// The major protocol version this crate speaks.
pub const PROTOCOL_VERSION: u8 = 1;

/// The `u32` stored little-endian at offset `i` of `s`.
pub open spec fn u32_le_at(s: Seq<u8>, i: int) -> u32 {
    spec_u32_from_le_bytes(s.subrange(i, i + 4))
}

/// The `u32` stored big-endian at offset `i` of `s`.
pub open spec fn u32_be_at(s: Seq<u8>, i: int) -> u32 {
    spec_u32_from_le_bytes(seq![s[i + 3], s[i + 2], s[i + 1], s[i]])
}

/// Reads the little-endian `u32` at offset `i`.
pub fn read_u32_le(b: &Vec<u8>, i: usize) -> (r: u32)
    requires
        i + 4 <= b@.len(),
    ensures
        r == u32_le_at(b@, i as int),
{
    let n = b.len();
    assert(i + 4 <= n);
    let s = slice_subrange(b.as_slice(), i, i + 4);
    u32_from_le_bytes(s)
}

/// Reads the big-endian `u32` at offset `i`.
pub fn read_u32_be(b: &Vec<u8>, i: usize) -> (r: u32)
    requires
        i + 4 <= b@.len(),
    ensures
        r == u32_be_at(b@, i as int),
{
    let n = b.len();
    assert(i + 4 <= n);
    let mut v: Vec<u8> = Vec::new();
    v.push(b[i + 3]);
    v.push(b[i + 2]);
    v.push(b[i + 1]);
    v.push(b[i]);
    proof {
        assert(v@ =~= seq![b@[i + 3], b@[i + 2], b@[i + 1], b@[i as int]]);
    }
    u32_from_le_bytes(v.as_slice())
}

/// Appends the little-endian encoding of `x` to `out`.
pub fn write_u32_le(out: &mut Vec<u8>, x: u32)
    ensures
        final(out)@ == old(out)@ + spec_u32_to_le_bytes(x),
{
    let s = u32_to_le_bytes(x);
    out.extend_from_slice(s.as_slice());
}

/// Bytes of padding that bring a position `n` up to the next multiple of 8.
pub open spec fn spec_padding8(n: int) -> int {
    (8 - n % 8) % 8
}

/// Computes the padding that brings `n` up to the next multiple of 8.
pub fn padding_for_8_bytes(n: usize) -> (r: usize)
    ensures
        r as int == spec_padding8(n as int),
        r < 8,
        (n + r) % 8 == 0,
{
    (8 - n % 8) % 8
}

/// The decoded primary header: the fixed 16-byte prefix of every message.
pub struct RawHeader {
    /// Whether the frame announces big-endian marshalling.
    pub big_endian: bool,
    /// Wire code of the message type.
    pub mtype_code: u8,
    /// Header flags.
    pub flags: u8,
    /// Major protocol version.
    pub version: u8,
    /// Declared length of the body in bytes.
    pub body_len: u32,
    /// Sender-assigned serial number (cookie).
    pub serial: u32,
    /// Declared length of the header-fields section in bytes.
    pub fields_len: u32,
}

impl Clone for RawHeader {
    fn clone(&self) -> (r: Self)
        ensures
            r == *self,
    {
        RawHeader {
            big_endian: self.big_endian,
            mtype_code: self.mtype_code,
            flags: self.flags,
            version: self.version,
            body_len: self.body_len,
            serial: self.serial,
            fields_len: self.fields_len,
        }
    }
}

/// Whether the first byte announces a known byte order.
pub open spec fn head_endian_ok(s: Seq<u8>) -> bool {
    s[0] == LITTLE_ENDIAN_MARKER || s[0] == BIG_ENDIAN_MARKER
}

/// The primary header read from the first 16 bytes of `s`.
pub open spec fn spec_head(s: Seq<u8>) -> RawHeader {
    let big = s[0] == BIG_ENDIAN_MARKER;
    RawHeader {
        big_endian: big,
        mtype_code: s[1],
        flags: s[2],
        version: s[3],
        body_len: if big {
            u32_be_at(s, 4)
        } else {
            u32_le_at(s, 4)
        },
        serial: if big {
            u32_be_at(s, 8)
        } else {
            u32_le_at(s, 8)
        },
        fields_len: if big {
            u32_be_at(s, 12)
        } else {
            u32_le_at(s, 12)
        },
    }
}

/// Total frame length a primary header declares: fixed prefix, header fields,
/// padding of the fields up to 8 bytes, then the body.
pub open spec fn spec_head_total(s: Seq<u8>) -> int {
    let h = spec_head(s);
    let header_len = 16 + h.fields_len as int;
    header_len + spec_padding8(header_len) + h.body_len as int
}

/// Whether the first 16 bytes of `s` declare a frame this crate accepts.
pub open spec fn head_ok(s: Seq<u8>) -> bool {
    head_endian_ok(s) && spec_head_total(s) <= MAX_MESSAGE_SIZE as int
}

/// The primary header depends only on the first 16 bytes of the frame.
pub proof fn lemma_head_prefix(s: Seq<u8>, t: Seq<u8>)
    requires
        s.len() >= 16,
        t.len() >= 16,
        s.subrange(0, 16) == t.subrange(0, 16),
    ensures
        spec_head(s) == spec_head(t),
        spec_head_total(s) == spec_head_total(t),
        head_endian_ok(s) == head_endian_ok(t),
        head_ok(s) == head_ok(t),
{
    assert forall|k: int| 0 <= k < 16 implies s[k] == t[k] by {
        assert(s.subrange(0, 16)[k] == t.subrange(0, 16)[k]);
        assert(s.subrange(0, 16)[k] == s[k]);
        assert(t.subrange(0, 16)[k] == t[k]);
    }
    assert(s.subrange(4, 8) =~= t.subrange(4, 8));
    assert(s.subrange(8, 12) =~= t.subrange(8, 12));
    assert(s.subrange(12, 16) =~= t.subrange(12, 16));
    assert(spec_head(s) == spec_head(t));
}

/// Decodes the primary header from the first 16 bytes of `b`.
pub fn read_head(b: &Vec<u8>) -> (r: RawHeader)
    requires
        b@.len() >= 16,
    ensures
        r == spec_head(b@),
{
    let big = b[0] == BIG_ENDIAN_MARKER;
    if big {
        RawHeader {
            big_endian: true,
            mtype_code: b[1],
            flags: b[2],
            version: b[3],
            body_len: read_u32_be(b, 4),
            serial: read_u32_be(b, 8),
            fields_len: read_u32_be(b, 12),
        }
    } else {
        RawHeader {
            big_endian: false,
            mtype_code: b[1],
            flags: b[2],
            version: b[3],
            body_len: read_u32_le(b, 4),
            serial: read_u32_le(b, 8),
            fields_len: read_u32_le(b, 12),
        }
    }
}

/// Copies `b[i..j]` into a fresh vector.
pub fn copy_range(b: &Vec<u8>, i: usize, j: usize) -> (r: Vec<u8>)
    requires
        i <= j <= b@.len(),
    ensures
        r@ == b@.subrange(i as int, j as int),
{
    let mut r: Vec<u8> = Vec::new();
    let mut k: usize = i;
    while k < j
        invariant
            i <= k <= j <= b@.len(),
            r@ == b@.subrange(i as int, k as int),
        decreases j - k,
    {
        r.push(b[k]);
        proof {
            assert(r@ =~= b@.subrange(i as int, k + 1 as int));
        }
        k = k + 1;
    }
    r
}

} // verus!
