//! The wire codec: a fixed little-endian binary layout for `Message`, shared
//! by every peer of a deployment. Each message is a 4-byte variant tag
//! followed by its fields: peer ids as 8-byte and snapshot ids as 4-byte
//! little-endian integers. Decoding accepts exactly the buffers that
//! encoding produces.

use vstd::prelude::*;

use crate::state::Message;
use crate::state::Reasons;

verus! {

/// The little-endian bytes of a 32-bit integer.
pub open spec fn le32(x: u32) -> Seq<u8> {
    seq![
        (x & 0xff) as u8,
        ((x >> 8) & 0xff) as u8,
        ((x >> 16) & 0xff) as u8,
        ((x >> 24) & 0xff) as u8,
    ]
}

/// The little-endian bytes of a 64-bit integer.
pub open spec fn le64(x: u64) -> Seq<u8> {
    seq![
        (x & 0xff) as u8,
        ((x >> 8) & 0xff) as u8,
        ((x >> 16) & 0xff) as u8,
        ((x >> 24) & 0xff) as u8,
        ((x >> 32) & 0xff) as u8,
        ((x >> 40) & 0xff) as u8,
        ((x >> 48) & 0xff) as u8,
        ((x >> 56) & 0xff) as u8,
    ]
}

/// The 32-bit integer read from four little-endian bytes.
pub open spec fn from_le32(b0: u8, b1: u8, b2: u8, b3: u8) -> u32 {
    (b0 as u32) | ((b1 as u32) << 8) | ((b2 as u32) << 16) | ((b3 as u32) << 24)
}

/// The 64-bit integer read from eight little-endian bytes.
pub open spec fn from_le64(
    b0: u8,
    b1: u8,
    b2: u8,
    b3: u8,
    b4: u8,
    b5: u8,
    b6: u8,
    b7: u8,
) -> u64 {
    (b0 as u64) | ((b1 as u64) << 8) | ((b2 as u64) << 16) | ((b3 as u64) << 24) | ((b4 as u64)
        << 32) | ((b5 as u64) << 40) | ((b6 as u64) << 48) | ((b7 as u64) << 56)
}

/// The exact byte image of a message.
pub open spec fn spec_encode(m: Message) -> Seq<u8> {
    match m {
        Message::Token => le32(0),
        Message::Marker { from, snapshot_id, initiator } => le32(1) + le64(from as u64) + le32(
            snapshot_id,
        ) + le64(initiator as u64),
        Message::AllChannelsClosed { from } => le32(2) + le64(from as u64),
        Message::ResetSnapshot => le32(3),
    }
}

/// The message a byte buffer decodes to, if any: the tag must be known, the
/// length must match the variant exactly, and peer ids must fit in `usize`.
pub open spec fn spec_decode(s: Seq<u8>) -> Option<Message> {
    if s.len() < 4 {
        None
    } else {
        let tag = from_le32(s[0], s[1], s[2], s[3]);
        if tag == 0 {
            if s.len() == 4 {
                Some(Message::Token)
            } else {
                None
            }
        } else if tag == 1 {
            if s.len() == 24 {
                let from64 = from_le64(s[4], s[5], s[6], s[7], s[8], s[9], s[10], s[11]);
                let sid = from_le32(s[12], s[13], s[14], s[15]);
                let init64 = from_le64(s[16], s[17], s[18], s[19], s[20], s[21], s[22], s[23]);
                if from64 <= usize::MAX as u64 && init64 <= usize::MAX as u64 {
                    Some(
                        Message::Marker {
                            from: from64 as usize,
                            snapshot_id: sid,
                            initiator: init64 as usize,
                        },
                    )
                } else {
                    None
                }
            } else {
                None
            }
        } else if tag == 2 {
            if s.len() == 12 {
                let from64 = from_le64(s[4], s[5], s[6], s[7], s[8], s[9], s[10], s[11]);
                if from64 <= usize::MAX as u64 {
                    Some(Message::AllChannelsClosed { from: from64 as usize })
                } else {
                    None
                }
            } else {
                None
            }
        } else if tag == 3 {
            if s.len() == 4 {
                Some(Message::ResetSnapshot)
            } else {
                None
            }
        } else {
            None
        }
    }
}

/// Appends the little-endian bytes of a 32-bit integer.
fn push_le32(out: &mut Vec<u8>, x: u32)
    ensures
        final(out)@ == old(out)@ + le32(x),
{
    out.push((x & 0xff) as u8);
    out.push(((x >> 8) & 0xff) as u8);
    out.push(((x >> 16) & 0xff) as u8);
    out.push(((x >> 24) & 0xff) as u8);
    proof {
        assert(out@ =~= old(out)@ + le32(x));
    }
}

/// Appends the little-endian bytes of a 64-bit integer.
fn push_le64(out: &mut Vec<u8>, x: u64)
    ensures
        final(out)@ == old(out)@ + le64(x),
{
    out.push((x & 0xff) as u8);
    out.push(((x >> 8) & 0xff) as u8);
    out.push(((x >> 16) & 0xff) as u8);
    out.push(((x >> 24) & 0xff) as u8);
    out.push(((x >> 32) & 0xff) as u8);
    out.push(((x >> 40) & 0xff) as u8);
    out.push(((x >> 48) & 0xff) as u8);
    out.push(((x >> 56) & 0xff) as u8);
    proof {
        assert(out@ =~= old(out)@ + le64(x));
    }
}

/// Encodes a message into its exact byte image.
pub fn encode_message(msg: &Message) -> (r: Vec<u8>)
    ensures
        r@ == spec_encode(*msg),
{
    let mut out: Vec<u8> = Vec::new();
    match *msg {
        Message::Token => {
            push_le32(&mut out, 0);
        },
        Message::Marker { from, snapshot_id, initiator } => {
            push_le32(&mut out, 1);
            push_le64(&mut out, from as u64);
            push_le32(&mut out, snapshot_id);
            push_le64(&mut out, initiator as u64);
        },
        Message::AllChannelsClosed { from } => {
            push_le32(&mut out, 2);
            push_le64(&mut out, from as u64);
        },
        Message::ResetSnapshot => {
            push_le32(&mut out, 3);
        },
    }
    proof {
        assert(out@ =~= spec_encode(*msg));
    }
    out
}

/// Reads a 32-bit little-endian integer at the given offset.
fn read_le32(buf: &Vec<u8>, off: usize) -> (x: u32)
    requires
        off + 4 <= buf@.len(),
    ensures
        x == from_le32(
            buf@[off as int],
            buf@[off as int + 1],
            buf@[off as int + 2],
            buf@[off as int + 3],
        ),
{
    let n = buf.len();
    assert(off + 4 <= n);
    (buf[off] as u32) | ((buf[off + 1] as u32) << 8) | ((buf[off + 2] as u32) << 16) | ((buf[off
        + 3] as u32) << 24)
}

/// Reads a 64-bit little-endian integer at the given offset.
fn read_le64(buf: &Vec<u8>, off: usize) -> (x: u64)
    requires
        off + 8 <= buf@.len(),
    ensures
        x == from_le64(
            buf@[off as int],
            buf@[off as int + 1],
            buf@[off as int + 2],
            buf@[off as int + 3],
            buf@[off as int + 4],
            buf@[off as int + 5],
            buf@[off as int + 6],
            buf@[off as int + 7],
        ),
{
    let n = buf.len();
    assert(off + 8 <= n);
    (buf[off] as u64) | ((buf[off + 1] as u64) << 8) | ((buf[off + 2] as u64) << 16) | ((buf[off
        + 3] as u64) << 24) | ((buf[off + 4] as u64) << 32) | ((buf[off + 5] as u64) << 40) | ((
    buf[off + 6] as u64) << 48) | ((buf[off + 7] as u64) << 56)
}

/// Decodes a received byte buffer, reporting `BadMessage` exactly when the
/// buffer is not the byte image of any message.
pub fn decode_message(buf: &Vec<u8>) -> (r: Result<Message, Reasons>)
    ensures
        match r {
            Ok(m) => spec_decode(buf@) == Some(m),
            Err(e) => spec_decode(buf@) is None && e == Reasons::BadMessage,
        },
{
    if buf.len() < 4 {
        return Err(Reasons::BadMessage);
    }
    let tag = read_le32(buf, 0);
    if tag == 0 {
        if buf.len() == 4 {
            Ok(Message::Token)
        } else {
            Err(Reasons::BadMessage)
        }
    } else if tag == 1 {
        if buf.len() == 24 {
            let from64 = read_le64(buf, 4);
            let sid = read_le32(buf, 12);
            let init64 = read_le64(buf, 16);
            if from64 <= usize::MAX as u64 && init64 <= usize::MAX as u64 {
                Ok(
                    Message::Marker {
                        from: from64 as usize,
                        snapshot_id: sid,
                        initiator: init64 as usize,
                    },
                )
            } else {
                Err(Reasons::BadMessage)
            }
        } else {
            Err(Reasons::BadMessage)
        }
    } else if tag == 2 {
        if buf.len() == 12 {
            let from64 = read_le64(buf, 4);
            if from64 <= usize::MAX as u64 {
                Ok(Message::AllChannelsClosed { from: from64 as usize })
            } else {
                Err(Reasons::BadMessage)
            }
        } else {
            Err(Reasons::BadMessage)
        }
    } else if tag == 3 {
        if buf.len() == 4 {
            Ok(Message::ResetSnapshot)
        } else {
            Err(Reasons::BadMessage)
        }
    } else {
        Err(Reasons::BadMessage)
    }
}

/// A 32-bit integer survives the trip through its little-endian bytes.
proof fn lemma_le32_round(x: u32)
    ensures
        from_le32(le32(x)[0], le32(x)[1], le32(x)[2], le32(x)[3]) == x,
{
    assert((((x & 0xff) as u8) as u32) | ((((x >> 8) & 0xff) as u8) as u32) << 8 | ((((x >> 16)
        & 0xff) as u8) as u32) << 16 | ((((x >> 24) & 0xff) as u8) as u32) << 24 == x)
        by (bit_vector);
}

/// A 64-bit integer survives the trip through its little-endian bytes.
proof fn lemma_le64_round(x: u64)
    ensures
        from_le64(
            le64(x)[0],
            le64(x)[1],
            le64(x)[2],
            le64(x)[3],
            le64(x)[4],
            le64(x)[5],
            le64(x)[6],
            le64(x)[7],
        ) == x,
{
    assert((((x & 0xff) as u8) as u64) | ((((x >> 8) & 0xff) as u8) as u64) << 8 | ((((x >> 16)
        & 0xff) as u8) as u64) << 16 | ((((x >> 24) & 0xff) as u8) as u64) << 24 | ((((x >> 32)
        & 0xff) as u8) as u64) << 32 | ((((x >> 40) & 0xff) as u8) as u64) << 40 | ((((x >> 48)
        & 0xff) as u8) as u64) << 48 | ((((x >> 56) & 0xff) as u8) as u64) << 56 == x)
        by (bit_vector);
}

/// A `usize` peer id fits in 64 bits and survives the trip through them.
proof fn lemma_usize_round(x: usize)
    ensures
        x as u64 <= usize::MAX as u64,
        (x as u64) as usize == x,
{
    assert(x as u64 <= usize::MAX as u64);
    assert((x as u64) as usize == x);
}

/// Round trip: decoding the encoding of a message yields that very message,
/// field for field, for every variant.
pub proof fn lemma_codec_round_trip(m: Message)
    ensures
        spec_decode(spec_encode(m)) == Some(m),
{
    match m {
        Message::Token => {
            lemma_le32_round(0);
        },
        Message::Marker { from, snapshot_id, initiator } => {
            let s = spec_encode(m);
            assert(s.len() == 24);
            lemma_le32_round(1);
            assert(from_le32(s[0], s[1], s[2], s[3]) == 1);
            lemma_le64_round(from as u64);
            lemma_usize_round(from);
            assert(from_le64(s[4], s[5], s[6], s[7], s[8], s[9], s[10], s[11]) == from as u64);
            lemma_le32_round(snapshot_id);
            assert(from_le32(s[12], s[13], s[14], s[15]) == snapshot_id);
            lemma_le64_round(initiator as u64);
            lemma_usize_round(initiator);
            assert(from_le64(s[16], s[17], s[18], s[19], s[20], s[21], s[22], s[23]) == initiator
                as u64);
        },
        Message::AllChannelsClosed { from } => {
            let s = spec_encode(m);
            assert(s.len() == 12);
            lemma_le32_round(2);
            assert(from_le32(s[0], s[1], s[2], s[3]) == 2);
            lemma_le64_round(from as u64);
            lemma_usize_round(from);
            assert(from_le64(s[4], s[5], s[6], s[7], s[8], s[9], s[10], s[11]) == from as u64);
        },
        Message::ResetSnapshot => {
            lemma_le32_round(3);
        },
    }
}

} // verus!
