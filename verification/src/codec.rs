//! Frame codec adapter: the wire form of frames.
//!
//! A frame travels as 8 big-endian bytes of stream id, 8 big-endian bytes of
//! message id, one tag byte, and — for a payload frame — the payload bytes.
//! The payload bytes themselves are opaque here; decoding them into typed
//! application messages is the consumer's business.
//!
//! Decoding rejects anything malformed by returning `None`; the caller
//! reports such input as a dropped frame with a warning, and the stream is
//! not poisoned.

use vstd::prelude::*;

use crate::frame::{Frame, FrameBody, StreamId};

verus! {

/// Tag byte announcing a payload frame.
pub const TAG_PAYLOAD: u8 = 0;

/// Tag byte announcing a terminal marker.
pub const TAG_FIN: u8 = 1;

/// Byte `i` (0 = most significant) of the big-endian form of `x`.
pub open spec fn be_byte(x: u64, i: int) -> u8 {
    ((x >> (((7 - i) * 8) as u64)) & 0xff) as u8
}

/// The 8-byte big-endian form of a 64-bit integer.
pub open spec fn be_bytes(x: u64) -> Seq<u8> {
    Seq::new(8, |i: int| be_byte(x, i))
}

/// Encode a 64-bit integer as 8 big-endian bytes.
pub fn u64_to_be_bytes(x: u64) -> (r: Vec<u8>)
    ensures
        r@ == be_bytes(x),
{
    let mut r: Vec<u8> = Vec::new();
    r.push(((x >> 56) & 0xff) as u8);
    r.push(((x >> 48) & 0xff) as u8);
    r.push(((x >> 40) & 0xff) as u8);
    r.push(((x >> 32) & 0xff) as u8);
    r.push(((x >> 24) & 0xff) as u8);
    r.push(((x >> 16) & 0xff) as u8);
    r.push(((x >> 8) & 0xff) as u8);
    r.push((x & 0xff) as u8);
    proof {
        assert(x & 0xff == (x >> 0) & 0xff) by (bit_vector);
        assert(r@ =~= be_bytes(x));
    }
    r
}

/// Read the 64-bit integer whose big-endian form sits at `start`.
pub fn read_u64_be(bytes: &Vec<u8>, start: usize) -> (x: u64)
    requires
        start + 8 <= bytes@.len(),
    ensures
        be_bytes(x) == bytes@.subrange(start as int, start + 8),
{
    // Fixing the length as a usize tells the verifier that `start + 7`,
    // being below it, fits in a usize.
    let _len = bytes.len();
    let b0 = bytes[start];
    let b1 = bytes[start + 1];
    let b2 = bytes[start + 2];
    let b3 = bytes[start + 3];
    let b4 = bytes[start + 4];
    let b5 = bytes[start + 5];
    let b6 = bytes[start + 6];
    let b7 = bytes[start + 7];
    let x: u64 = ((b0 as u64) << 56) | ((b1 as u64) << 48) | ((b2 as u64) << 40) | ((b3 as u64)
        << 32) | ((b4 as u64) << 24) | ((b5 as u64) << 16) | ((b6 as u64) << 8) | (b7 as u64);
    proof {
        assert((x == ((b0 as u64) << 56) | ((b1 as u64) << 48) | ((b2 as u64) << 40) | ((b3 as u64)
            << 32) | ((b4 as u64) << 24) | ((b5 as u64) << 16) | ((b6 as u64) << 8) | (b7 as u64))
            ==> (((x >> 56) & 0xff) as u8 == b0 && ((x >> 48) & 0xff) as u8 == b1 && ((x >> 40)
            & 0xff) as u8 == b2 && ((x >> 32) & 0xff) as u8 == b3 && ((x >> 24) & 0xff) as u8 == b4
            && ((x >> 16) & 0xff) as u8 == b5 && ((x >> 8) & 0xff) as u8 == b6 && ((x >> 0) & 0xff)
            as u8 == b7)) by (bit_vector);
        assert(be_bytes(x) =~= bytes@.subrange(start as int, start + 8));
    }
    x
}

/// Two different integers never share a big-endian form.
pub proof fn lemma_be_bytes_injective(a: u64, b: u64)
    requires
        be_bytes(a) == be_bytes(b),
    ensures
        a == b,
{
    assert(be_bytes(a)[0] == be_byte(a, 0));
    assert(be_bytes(b)[0] == be_byte(b, 0));
    assert(be_bytes(a)[1] == be_byte(a, 1));
    assert(be_bytes(b)[1] == be_byte(b, 1));
    assert(be_bytes(a)[2] == be_byte(a, 2));
    assert(be_bytes(b)[2] == be_byte(b, 2));
    assert(be_bytes(a)[3] == be_byte(a, 3));
    assert(be_bytes(b)[3] == be_byte(b, 3));
    assert(be_bytes(a)[4] == be_byte(a, 4));
    assert(be_bytes(b)[4] == be_byte(b, 4));
    assert(be_bytes(a)[5] == be_byte(a, 5));
    assert(be_bytes(b)[5] == be_byte(b, 5));
    assert(be_bytes(a)[6] == be_byte(a, 6));
    assert(be_bytes(b)[6] == be_byte(b, 6));
    assert(be_bytes(a)[7] == be_byte(a, 7));
    assert(be_bytes(b)[7] == be_byte(b, 7));
    assert(be_byte(a, 0) == ((a >> 56) & 0xff) as u8);
    assert(be_byte(a, 1) == ((a >> 48) & 0xff) as u8);
    assert(be_byte(a, 2) == ((a >> 40) & 0xff) as u8);
    assert(be_byte(a, 3) == ((a >> 32) & 0xff) as u8);
    assert(be_byte(a, 4) == ((a >> 24) & 0xff) as u8);
    assert(be_byte(a, 5) == ((a >> 16) & 0xff) as u8);
    assert(be_byte(a, 6) == ((a >> 8) & 0xff) as u8);
    assert(be_byte(a, 7) == ((a >> 0) & 0xff) as u8);
    assert(be_byte(b, 0) == ((b >> 56) & 0xff) as u8);
    assert(be_byte(b, 1) == ((b >> 48) & 0xff) as u8);
    assert(be_byte(b, 2) == ((b >> 40) & 0xff) as u8);
    assert(be_byte(b, 3) == ((b >> 32) & 0xff) as u8);
    assert(be_byte(b, 4) == ((b >> 24) & 0xff) as u8);
    assert(be_byte(b, 5) == ((b >> 16) & 0xff) as u8);
    assert(be_byte(b, 6) == ((b >> 8) & 0xff) as u8);
    assert(be_byte(b, 7) == ((b >> 0) & 0xff) as u8);
    assert(be_byte(a, 0) == be_byte(b, 0));
    assert(be_byte(a, 1) == be_byte(b, 1));
    assert(be_byte(a, 2) == be_byte(b, 2));
    assert(be_byte(a, 3) == be_byte(b, 3));
    assert(be_byte(a, 4) == be_byte(b, 4));
    assert(be_byte(a, 5) == be_byte(b, 5));
    assert(be_byte(a, 6) == be_byte(b, 6));
    assert(be_byte(a, 7) == be_byte(b, 7));
    assert((((a >> 56) & 0xff) as u8 == ((b >> 56) & 0xff) as u8 && ((a >> 48) & 0xff) as u8 == ((b
        >> 48) & 0xff) as u8 && ((a >> 40) & 0xff) as u8 == ((b >> 40) & 0xff) as u8 && ((a >> 32)
        & 0xff) as u8 == ((b >> 32) & 0xff) as u8 && ((a >> 24) & 0xff) as u8 == ((b >> 24) & 0xff)
        as u8 && ((a >> 16) & 0xff) as u8 == ((b >> 16) & 0xff) as u8 && ((a >> 8) & 0xff) as u8
        == ((b >> 8) & 0xff) as u8 && ((a >> 0) & 0xff) as u8 == ((b >> 0) & 0xff) as u8) ==> a
        == b) by (bit_vector);
}

impl StreamId {
    /// The 8-byte big-endian wire form of the id.
    pub fn to_bytes(&self) -> (r: Vec<u8>)
        ensures
            r@ == be_bytes(self.0),
    {
        u64_to_be_bytes(self.0)
    }

    /// Read an id back from its wire form: exactly 8 big-endian bytes.
    /// Anything else is a decode failure.
    pub fn from_bytes(bytes: &Vec<u8>) -> (r: Option<StreamId>)
        ensures
            r is Some <==> bytes@.len() == 8,
            (r matches Some(id) ==> be_bytes(id.0) == bytes@),
    {
        if bytes.len() == 8 {
            let id = StreamId(read_u64_be(bytes, 0));
            proof {
                assert(bytes@.subrange(0, 8) =~= bytes@);
            }
            Some(id)
        } else {
            None
        }
    }
}

/// The wire bytes of a frame.
pub open spec fn encode_spec(f: Frame<Vec<u8>>) -> Seq<u8> {
    be_bytes(f.stream_id) + be_bytes(f.message_id) + (match f.body {
        FrameBody::Payload(b) => seq![TAG_PAYLOAD] + b@,
        FrameBody::Fin => seq![TAG_FIN],
    })
}

/// Whether a byte string is the wire form of some frame: a 17-byte header
/// whose tag announces a payload (any body length) or a terminal marker
/// (no body).
pub open spec fn well_formed_encoding(s: Seq<u8>) -> bool {
    s.len() >= 17 && (s[16] == TAG_PAYLOAD || (s[16] == TAG_FIN && s.len() == 17))
}

/// Every encoded frame is well formed on the wire, so it decodes.
pub proof fn lemma_encoding_well_formed(f: Frame<Vec<u8>>)
    ensures
        well_formed_encoding(encode_spec(f)),
{
}

/// No two observably different frames share a wire form.
pub proof fn lemma_encoding_injective(f: Frame<Vec<u8>>, g: Frame<Vec<u8>>)
    requires
        encode_spec(f) == encode_spec(g),
    ensures
        f.stream_id == g.stream_id,
        f.message_id == g.message_id,
        f.body is Fin <==> g.body is Fin,
        (f.body matches FrameBody::Payload(b) ==> (g.body matches FrameBody::Payload(b2) && b@
            == b2@)),
{
    let ef = encode_spec(f);
    let eg = encode_spec(g);
    assert(be_bytes(f.stream_id) =~= be_bytes(g.stream_id)) by {
        assert forall|i: int| 0 <= i < 8 implies be_bytes(f.stream_id)[i] == be_bytes(
            g.stream_id,
        )[i] by {
            assert(be_bytes(f.stream_id)[i] == ef[i]);
            assert(be_bytes(g.stream_id)[i] == eg[i]);
        }
    }
    lemma_be_bytes_injective(f.stream_id, g.stream_id);
    assert(be_bytes(f.message_id) =~= be_bytes(g.message_id)) by {
        assert forall|i: int| 0 <= i < 8 implies be_bytes(f.message_id)[i] == be_bytes(
            g.message_id,
        )[i] by {
            assert(be_bytes(f.message_id)[i] == ef[i + 8]);
            assert(be_bytes(g.message_id)[i] == eg[i + 8]);
        }
    }
    lemma_be_bytes_injective(f.message_id, g.message_id);
    assert(ef[16] == eg[16]);
    match f.body {
        FrameBody::Payload(b) => {
            assert(ef[16] == TAG_PAYLOAD);
            assert(ef.len() == 17 + b@.len());
            match g.body {
                FrameBody::Payload(b2) => {
                    assert(eg.len() == 17 + b2@.len());
                    assert(b@.len() == b2@.len());
                    assert(b@ =~= b2@) by {
                        assert forall|i: int| 0 <= i < b@.len() implies b@[i] == b2@[i] by {
                            assert(b@[i] == ef[17 + i]);
                            assert(b2@[i] == eg[17 + i]);
                        }
                    }
                },
                FrameBody::Fin => {
                    assert(eg[16] == TAG_FIN);
                    assert(false);
                },
            }
        },
        FrameBody::Fin => {
            assert(ef[16] == TAG_FIN);
            match g.body {
                FrameBody::Payload(_) => {
                    assert(eg[16] == TAG_PAYLOAD);
                    assert(false);
                },
                FrameBody::Fin => {},
            }
        },
    }
}

/// Encode a frame for the wire.
pub fn encode_frame(f: &Frame<Vec<u8>>) -> (r: Vec<u8>)
    ensures
        r@ == encode_spec(*f),
{
    let mut r = u64_to_be_bytes(f.stream_id);
    let mut mid = u64_to_be_bytes(f.message_id);
    r.append(&mut mid);
    match &f.body {
        FrameBody::Payload(b) => {
            r.push(TAG_PAYLOAD);
            r.extend_from_slice(b.as_slice());
        },
        FrameBody::Fin => {
            r.push(TAG_FIN);
        },
    }
    proof {
        assert(r@ =~= encode_spec(*f));
    }
    r
}

/// Decode one wire message back into a frame, or report a decode failure
/// with `None`. Exactly the well-formed encodings decode, and a decoded
/// frame re-encodes to the very bytes it came from.
pub fn decode_frame(bytes: &Vec<u8>) -> (r: Option<Frame<Vec<u8>>>)
    ensures
        r is Some <==> well_formed_encoding(bytes@),
        (r matches Some(f) ==> encode_spec(f) == bytes@),
{
    if bytes.len() < 17 {
        return None;
    }
    let stream_id = read_u64_be(bytes, 0);
    let message_id = read_u64_be(bytes, 8);
    let tag = bytes[16];
    if tag == TAG_PAYLOAD {
        let mut body: Vec<u8> = Vec::new();
        let mut i: usize = 17;
        while i < bytes.len()
            invariant
                17 <= i <= bytes@.len(),
                body@ == bytes@.subrange(17, i as int),
            decreases bytes@.len() - i,
        {
            body.push(bytes[i]);
            i = i + 1;
            proof {
                assert(body@ =~= bytes@.subrange(17, i as int));
            }
        }
        let f = Frame { stream_id, message_id, body: FrameBody::Payload(body) };
        proof {
            assert(bytes@.subrange(0, 8) =~= be_bytes(stream_id));
            assert(bytes@.subrange(8, 16) =~= be_bytes(message_id));
            assert(encode_spec(f) =~= bytes@);
        }
        Some(f)
    } else if tag == TAG_FIN {
        if bytes.len() == 17 {
            let f = Frame { stream_id, message_id, body: FrameBody::Fin };
            proof {
                assert(bytes@.subrange(0, 8) =~= be_bytes(stream_id));
                assert(bytes@.subrange(8, 16) =~= be_bytes(message_id));
                assert(encode_spec(f) =~= bytes@);
            }
            Some(f)
        } else {
            None
        }
    } else {
        None
    }
}

} // verus!
