//! The frame codec: messages are carried in frames of exactly `FRAME_LEN`
//! bytes.  The payload is the UTF-8 encoding of the message, ending at the
//! first zero byte; the remaining bytes are zero padding.

use vstd::prelude::*;
use vstd::string::StrSliceExecFns;
use vstd::utf8::{decode_utf8, encode_utf8, valid_utf8};

verus! {

/// Width of every frame that crosses the wire, in bytes.
pub const FRAME_LEN: usize = 32;

/// The ways encoding or decoding a frame can fail.
#[derive(Clone, Copy, Debug, PartialEq, Eq, Structural)]
pub enum FrameError {
    /// The message's UTF-8 bytes do not fit in one frame.
    FrameTooLong,
    /// The frame's payload is not valid UTF-8.
    BadEncoding,
}

/// Index of the first zero byte of `b`, or `b.len()` if `b` has none.
pub open spec fn first_zero(b: Seq<u8>) -> int
    decreases b.len(),
{
    if b.len() == 0 {
        0
    } else if b[0] == 0 {
        0
    } else {
        1 + first_zero(b.drop_first())
    }
}

/// The payload carried by the byte sequence `b`: its bytes before the
/// first zero byte.
pub open spec fn payload_of(b: Seq<u8>) -> Seq<u8> {
    b.take(first_zero(b))
}

/// The frame that carries the payload `p`: `p` followed by zero padding up
/// to `FRAME_LEN` bytes.
pub open spec fn frame_of(p: Seq<u8>) -> Seq<u8> {
    Seq::new(
        FRAME_LEN as nat,
        |i: int|
            if i < p.len() {
                p[i]
            } else {
                0
            },
    )
}

/// `first_zero(b)` is an index into `b` (or its length), the byte there is
/// zero if any byte of `b` is, and no earlier byte is zero.
pub proof fn lemma_first_zero_bounds(b: Seq<u8>)
    ensures
        0 <= first_zero(b) <= b.len(),
        first_zero(b) < b.len() ==> b[first_zero(b)] == 0,
        forall|j: int| 0 <= j < first_zero(b) ==> b[j] != 0,
    decreases b.len(),
{
    if b.len() == 0 {
    } else if b[0] == 0 {
    } else {
        lemma_first_zero_bounds(b.drop_first());
        assert forall|j: int| 0 <= j < first_zero(b) implies b[j] != 0 by {
            if j > 0 {
                assert(b.drop_first()[j - 1] != 0);
            }
        }
    }
}

/// An index below which no byte of `b` is zero, and at which `b` is zero
/// unless it is `b`'s length, is `first_zero(b)`.
pub proof fn lemma_first_zero_is(b: Seq<u8>, i: int)
    requires
        0 <= i <= b.len(),
        forall|j: int| 0 <= j < i ==> b[j] != 0,
        i < b.len() ==> b[i] == 0,
    ensures
        first_zero(b) == i,
{
    lemma_first_zero_bounds(b);
    let fz = first_zero(b);
    if fz < i {
        assert(b[fz] != 0);
        assert(b[fz] == 0);
    }
    if i < fz {
        assert(b[i] != 0);
    }
}

/// Relies on std's `String::from_utf8`: it returns `Ok` exactly when the
/// bytes are valid UTF-8, and the returned string is built from those very
/// bytes.
#[verifier::external_body]
fn string_from_utf8(bytes: Vec<u8>) -> (r: Option<String>)
    ensures
        r is Some <==> valid_utf8(bytes@),
        r matches Some(s) ==> encode_utf8(s@) == bytes@,
{
    String::from_utf8(bytes).ok()
}

/// Encodes `msg` into one frame: its UTF-8 bytes followed by zero padding.
/// A message whose UTF-8 bytes do not fit in a frame is rejected.
pub fn encode(msg: &str) -> (r: Result<Vec<u8>, FrameError>)
    ensures
        encode_utf8(msg@).len() <= FRAME_LEN ==> (r matches Ok(f) && f@ == frame_of(
            encode_utf8(msg@),
        )),
        encode_utf8(msg@).len() > FRAME_LEN ==> (r matches Err(e) && e
            == FrameError::FrameTooLong),
{
    let bytes: Vec<u8> = msg.as_bytes_vec();
    if bytes.len() > FRAME_LEN {
        return Err(FrameError::FrameTooLong);
    }
    let mut f: Vec<u8> = Vec::new();
    let mut i: usize = 0;
    while i < bytes.len()
        invariant
            i <= bytes@.len() <= FRAME_LEN,
            f@ == bytes@.take(i as int),
        decreases bytes@.len() - i,
    {
        f.push(bytes[i]);
        proof {
            assert(bytes@.take(i + 1) =~= bytes@.take(i as int).push(bytes@[i as int]));
        }
        i = i + 1;
    }
    proof {
        assert(f@ =~= bytes@);
    }
    while f.len() < FRAME_LEN
        invariant
            bytes@.len() <= f@.len() <= FRAME_LEN,
            forall|j: int| 0 <= j < bytes@.len() ==> f@[j] == bytes@[j],
            forall|j: int| bytes@.len() <= j < f@.len() ==> f@[j] == 0,
        decreases FRAME_LEN - f@.len(),
    {
        f.push(0);
    }
    proof {
        assert(f@ =~= frame_of(encode_utf8(msg@)));
    }
    Ok(f)
}

/// Decodes one frame: the bytes before the frame's first zero byte,
/// interpreted as UTF-8.  A payload that is not valid UTF-8 is rejected.
pub fn decode(frame: &Vec<u8>) -> (r: Result<String, FrameError>)
    requires
        frame@.len() == FRAME_LEN,
    ensures
        valid_utf8(payload_of(frame@)) ==> (r matches Ok(s) && s@ == decode_utf8(
            payload_of(frame@),
        )),
        !valid_utf8(payload_of(frame@)) ==> (r matches Err(e) && e == FrameError::BadEncoding),
{
    let mut end: usize = 0;
    while end < frame.len() && frame[end] != 0
        invariant
            end <= frame@.len(),
            forall|j: int| 0 <= j < end ==> frame@[j] != 0,
        decreases frame@.len() - end,
    {
        end = end + 1;
    }
    proof {
        lemma_first_zero_is(frame@, end as int);
    }
    let mut payload: Vec<u8> = Vec::new();
    let mut j: usize = 0;
    while j < end
        invariant
            j <= end <= frame@.len(),
            payload@ == frame@.take(j as int),
        decreases end - j,
    {
        payload.push(frame[j]);
        proof {
            assert(frame@.take(j + 1) =~= frame@.take(j as int).push(frame@[j as int]));
        }
        j = j + 1;
    }
    proof {
        assert(payload@ =~= payload_of(frame@));
    }
    match string_from_utf8(payload) {
        Some(s) => {
            proof {
                vstd::utf8::encode_utf8_decode_utf8(s@);
            }
            Ok(s)
        },
        None => Err(FrameError::BadEncoding),
    }
}

/// Frame width: every frame a payload is encoded into has exactly
/// `FRAME_LEN` bytes.
pub proof fn lemma_frame_width(p: Seq<u8>)
    ensures
        frame_of(p).len() == FRAME_LEN,
{
}

/// Zero termination: in the frame that carries a payload, every byte at or
/// after the payload's end is zero.
pub proof fn lemma_frame_zero_padding(p: Seq<u8>)
    requires
        p.len() <= FRAME_LEN,
    ensures
        forall|i: int| p.len() <= i < FRAME_LEN ==> frame_of(p)[i] == 0,
{
}

/// A decoded payload never contains an interior zero byte: decoding stops
/// at the first zero.
pub proof fn lemma_payload_no_interior_zero(b: Seq<u8>)
    ensures
        forall|i: int| 0 <= i < payload_of(b).len() ==> payload_of(b)[i] != 0,
{
    lemma_first_zero_bounds(b);
}

/// Frame round-trip: a message whose UTF-8 bytes fit in a frame with room
/// for the zero terminator, and contain no interior zero byte, is decoded
/// back unchanged from the frame it is encoded into.
pub proof fn lemma_frame_round_trip(s: Seq<char>)
    requires
        encode_utf8(s).len() < FRAME_LEN,
        forall|i: int| 0 <= i < encode_utf8(s).len() ==> encode_utf8(s)[i] != 0,
    ensures
        valid_utf8(payload_of(frame_of(encode_utf8(s)))),
        decode_utf8(payload_of(frame_of(encode_utf8(s)))) == s,
{
    let p = encode_utf8(s);
    let f = frame_of(p);
    lemma_first_zero_is(f, p.len() as int);
    assert(payload_of(f) =~= p);
    vstd::utf8::encode_utf8_valid_utf8(s);
    vstd::utf8::encode_utf8_decode_utf8(s);
}

/// `b` with every byte at or after its first zero byte replaced by zero.
pub open spec fn zeroed_from_first_zero(b: Seq<u8>) -> Seq<u8> {
    Seq::new(
        b.len(),
        |i: int|
            if i < first_zero(b) {
                b[i]
            } else {
                0
            },
    )
}

/// Decode truncation: a frame decodes the same as the frame in which every
/// byte at or after the first zero byte is replaced by zero.
pub proof fn lemma_decode_truncation(b: Seq<u8>)
    ensures
        payload_of(zeroed_from_first_zero(b)) == payload_of(b),
        valid_utf8(payload_of(zeroed_from_first_zero(b))) == valid_utf8(payload_of(b)),
        decode_utf8(payload_of(zeroed_from_first_zero(b))) == decode_utf8(payload_of(b)),
{
    let z = zeroed_from_first_zero(b);
    lemma_first_zero_bounds(b);
    lemma_first_zero_is(z, first_zero(b));
    assert(z.take(first_zero(z)) =~= b.take(first_zero(b)));
}

} // verus!
