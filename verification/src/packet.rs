//! The binary packet framer.
//!
//! A packet is a 4-byte big-endian total length, one byte of padding length,
//! the payload, and at least four bytes of random padding that round the
//! framed part after the length field up to a multiple of the alignment.
//! A MAC would follow once a cipher is active; this framer never writes one.

use vstd::prelude::*;

use crate::be::{
    be_nat, be_pad, lemma_be_nat_be_pad, pow256, u32_from_be_bytes, u32_to_be_bytes,
};
use crate::errors::BsshError;
use crate::io_helpers::push_bytes;
use crate::rng::random_bytes;
use crate::stream::ByteReader;

verus! {

/// Ceiling on the declared length field of a received packet.
pub const MAX_PACKET_LENGTH: u32 = 4 * 1024 * 1024;

/// The alignment a cipher block size dictates; 8 while no cipher is active.
pub open spec fn spec_alignment(cipher_block_size: Option<u8>) -> nat {
    match cipher_block_size {
        Some(a) => a as nat,
        None => 8,
    }
}

/// How much padding a payload takes: the least amount that rounds
/// `1 + payload_len` up to a multiple of the alignment, raised by one
/// alignment when it would fall under the mandatory four bytes.
pub open spec fn spec_padding_len(payload_len: nat, alignment: nat) -> nat
    recommends
        alignment >= 1,
{
    let min = (alignment - ((1 + payload_len) as int % (alignment as int))) as nat;
    if min >= 4 {
        min
    } else {
        (min + alignment) as nat
    }
}

/// Frame a payload: 4-byte big-endian packet length, padding length byte,
/// payload, random padding.  The packet length counts everything after the
/// length field itself.
pub fn get_packet_from_payload(payload: &Vec<u8>, cipher_block_size: Option<u8>) -> (r: Vec<u8>)
    requires
        cipher_block_size matches Some(a) ==> 4 <= a <= 252,
        payload@.len() + 260 <= usize::MAX,
        payload@.len() + 260 <= u32::MAX,
    ensures
        ({
            let a = spec_alignment(cipher_block_size);
            let pl = spec_padding_len(payload@.len(), a);
            let packet_len = 1 + payload@.len() + pl;
            &&& r@.len() == 4 + packet_len
            &&& r@.subrange(0, 4) == be_pad(packet_len as nat, 4)
            &&& r@[4] == pl as u8
            &&& r@.subrange(5, 5 + payload@.len() as int) == payload@
            &&& pl >= 4
            &&& (packet_len as int) % (a as int) == 0
        }),
{
    let alignment: u8 = match cipher_block_size {
        Some(size) => size,
        None => 8,
    };
    let unpadded: usize = 1 + payload.len();
    let min_padding: u8 = (alignment as usize - (unpadded % alignment as usize)) as u8;
    let padding_length: u8 = if min_padding >= 4 {
        min_padding
    } else {
        min_padding + alignment
    };
    let packet_length: usize = unpadded + padding_length as usize;
    proof {
        let a = alignment as int;
        let u = unpadded as int;
        vstd::arithmetic::div_mod::lemma_mod_bound(u, a);
        assert((u + (a - u % a)) % a == 0) by {
            vstd::arithmetic::div_mod::lemma_fundamental_div_mod(u, a);
            assert(u + (a - u % a) == (u / a + 1) * a) by {
                assert((u / a + 1) * a == a * (u / a) + a) by (nonlinear_arith);
            }
            vstd::arithmetic::div_mod::lemma_mod_multiples_basic(u / a + 1, a);
        }
        if (a - u % a) < 4 {
            assert((u + (a - u % a) + a) % a == 0) by {
                vstd::arithmetic::div_mod::lemma_fundamental_div_mod(u, a);
                assert(u + (a - u % a) + a == (u / a + 2) * a) by {
                    assert((u / a + 2) * a == a * (u / a) + a + a) by (nonlinear_arith);
                }
                vstd::arithmetic::div_mod::lemma_mod_multiples_basic(u / a + 2, a);
            }
        }
    }
    let mut r = u32_to_be_bytes(packet_length as u32);
    r.push(padding_length);
    push_bytes(&mut r, payload);
    let padding = random_bytes(padding_length as usize);
    push_bytes(&mut r, &padding);
    proof {
        let a = spec_alignment(cipher_block_size);
        let pl = spec_padding_len(payload@.len(), a);
        assert(pl == padding_length as nat);
        assert(r@.subrange(0, 4) =~= be_pad(packet_length as nat, 4));
        assert(r@.subrange(5, 5 + payload@.len() as int) =~= payload@);
    }
    r
}

/// What unframing a received packet comes to: the payload and the unread
/// rest of the stream, or the error that ended it.  A declared length over
/// the ceiling is a protocol violation; a frame too short for its own
/// padding, or an empty one, reads as the connection having ended.
pub open spec fn spec_read_packet(s: Seq<u8>) -> Result<(Seq<u8>, Seq<u8>), BsshError> {
    if s.len() < 4 {
        Err(BsshError::ConnectionEndedUnexpectedly)
    } else {
        let len = be_nat(s.take(4));
        if len > MAX_PACKET_LENGTH as nat {
            Err(BsshError::BufferCapacityExceeded)
        } else if len == 0 {
            Err(BsshError::ConnectionEndedUnexpectedly)
        } else if s.len() < 4 + len {
            Err(BsshError::ConnectionEndedUnexpectedly)
        } else {
            let pad = s[4];
            if pad as nat > (len - 1) as nat {
                Err(BsshError::ConnectionEndedUnexpectedly)
            } else {
                Ok(
                    (
                        s.subrange(5, 5 + (len - 1 - pad as nat) as int),
                        s.skip(4 + len as int),
                    ),
                )
            }
        }
    }
}

/// Unframe a packet read from the stream: read the length field, the
/// padding length, and the body, and hand back the body without its padding.
/// The block size will steer how the length field is recovered once an
/// encrypted phase exists; before that the plaintext length field decides.
#[allow(unused_variables)]
pub fn read_packet_from_stream(stream: &mut ByteReader, cipher_block_size: Option<u8>) -> (r:
    Result<Vec<u8>, BsshError>)
    ensures
        ({
            match spec_read_packet(old(stream).remaining()) {
                Ok((payload, rest)) => (match r {
                    Ok(v) => v@ == payload && final(stream).remaining() == rest,
                    Err(_) => false,
                }),
                Err(e) => r == Err::<Vec<u8>, BsshError>(e),
            }
        }),
        ({
            let rem = old(stream).remaining();
            let len = be_nat(rem.take(4));
            let ceiling = MAX_PACKET_LENGTH as nat;
            &&& rem.len() < 4 ==> final(stream).remaining() == rem
            &&& rem.len() >= 4 && len > ceiling ==> final(stream).remaining() == rem.skip(4)
            &&& rem.len() >= 4 && len <= ceiling && len == 0 ==> final(stream).remaining()
                == rem.skip(4)
            &&& rem.len() >= 4 && len <= ceiling && 0 < len && rem.len() < 5
                ==> final(stream).remaining() == rem.skip(4)
            &&& rem.len() >= 5 && len <= ceiling && 0 < len && rem.len() < 4 + len
                ==> final(stream).remaining() == rem.skip(5)
            &&& rem.len() >= 4 + len && len <= ceiling && 0 < len ==> final(stream).remaining()
                == rem.skip(4 + len as int)
        }),
{
    let ghost s = old(stream).remaining();
    proof {
        assert(s.skip(0) =~= s);
    }
    let len_bytes = match stream.read_exact(4) {
        Ok(v) => v,
        Err(e) => {
            return Err(e);
        },
    };
    let packet_length = u32_from_be_bytes(&len_bytes);
    if packet_length > MAX_PACKET_LENGTH {
        return Err(BsshError::BufferCapacityExceeded);
    }
    if packet_length == 0 {
        return Err(BsshError::ConnectionEndedUnexpectedly);
    }
    let padding_length = match stream.read_byte() {
        Ok(b) => b,
        Err(e) => {
            proof {
                assert(s.skip(4).len() == 0);
            }
            return Err(e);
        },
    };
    let mut body = match stream.read_exact((packet_length - 1) as usize) {
        Ok(v) => v,
        Err(e) => {
            proof {
                assert(s.skip(4).skip(1) =~= s.skip(5));
            }
            return Err(e);
        },
    };
    proof {
        assert(s.skip(4).skip(1) =~= s.skip(5));
        assert(s.skip(5).skip(packet_length - 1) =~= s.skip(4 + packet_length as int));
    }
    if padding_length as u32 > packet_length - 1 {
        return Err(BsshError::ConnectionEndedUnexpectedly);
    }
    let payload_len = body.len() - padding_length as usize;
    body.truncate(payload_len);
    proof {
        assert(body@ =~= s.subrange(5, 5 + (packet_length - 1 - padding_length as int)));
    }
    Ok(body)
}

/// Law: reading back a frame built from a payload yields that payload, the
/// padding is at least four bytes, and the framed part after the length
/// field is a multiple of the alignment.  This holds whenever the framed
/// part fits under the read ceiling; a payload of more than the ceiling
/// less the frame overhead does not round-trip, because the reader refuses
/// its length field.
pub proof fn lemma_packet_round_trip(
    frame: Seq<u8>,
    payload: Seq<u8>,
    padding_len: nat,
    rest: Seq<u8>,
)
    requires
        4 <= padding_len <= 255,
        1 + payload.len() + padding_len <= MAX_PACKET_LENGTH as nat,
        frame.len() == 5 + payload.len() + padding_len,
        frame.subrange(0, 4) == be_pad(1 + payload.len() + padding_len, 4),
        frame[4] == padding_len as u8,
        frame.subrange(5, 5 + payload.len() as int) == payload,
    ensures
        spec_read_packet(frame + rest) == Ok::<(Seq<u8>, Seq<u8>), BsshError>((payload, rest)),
{
    let s = frame + rest;
    let packet_len = 1 + payload.len() + padding_len;
    assert(s.take(4) =~= frame.subrange(0, 4));
    assert(pow256(4) == 0x100000000) by {
        reveal_with_fuel(pow256, 5);
    }
    lemma_be_nat_be_pad(packet_len, 4);
    assert(be_nat(s.take(4)) == packet_len);
    assert(s[4] == frame[4]);
    assert(s.subrange(5, 5 + (packet_len - 1 - padding_len) as int) =~= payload) by {
        assert forall|i: int| 0 <= i < payload.len() implies s.subrange(
            5,
            5 + (packet_len - 1 - padding_len) as int,
        )[i] == payload[i] by {
            assert(s[5 + i] == frame[5 + i]);
            assert(frame.subrange(5, 5 + payload.len() as int)[i] == frame[5 + i]);
        }
    }
    assert(s.skip(4 + packet_len as int) =~= rest);
}

} // verus!
