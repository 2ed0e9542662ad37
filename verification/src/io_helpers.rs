//! The primitive wire types: length-prefixed byte strings, comma-joined
//! name-lists, single-byte booleans, and multi-precision integers.
//!
//! Writers append to a byte buffer; readers consume a [`ByteReader`].

use vstd::prelude::*;

use crate::be::{
    be_nat, be_pad, lemma_be_nat_append, lemma_be_nat_be_pad, lemma_be_nat_bound,
    lemma_be_nat_injective, lemma_be_nat_pos, lemma_be_pad_len, lemma_min_be_of_be_nat, min_be,
    pow256, u32_from_be_bytes, u32_to_be_bytes,
};
use crate::errors::BsshError;
use crate::mpint::{spec_mpint_body, spec_mpint_decode, spec_mpint_enc, twos_complement, Mpint};
use crate::stream::ByteReader;

verus! {

/// Ceiling on the declared length of a read string when the caller gives none.
pub const MAX_BUFFER_LENGTH: u32 = 4 * 1024 * 1024;

/// The wire encoding of a byte string: 4-byte big-endian length, then the
/// bytes themselves.
pub open spec fn spec_string_enc(s: Seq<u8>) -> Seq<u8> {
    be_pad(s.len(), 4) + s
}

/// The length ceiling a caller's choice denotes.
pub open spec fn spec_effective_max(max_length: Option<u32>) -> nat {
    match max_length {
        Some(x) => x as nat,
        None => MAX_BUFFER_LENGTH as nat,
    }
}

/// Append all of `bytes` to `out`.
pub(crate) fn push_bytes(out: &mut Vec<u8>, bytes: &Vec<u8>)
    ensures
        final(out)@ == old(out)@ + bytes@,
{
    let mut i: usize = 0;
    while i < bytes.len()
        invariant
            i <= bytes@.len(),
            out@ == old(out)@ + bytes@.take(i as int),
        decreases bytes@.len() - i,
    {
        out.push(bytes[i]);
        i = i + 1;
        proof {
            assert(out@ =~= old(out)@ + bytes@.take(i as int));
        }
    }
    proof {
        assert(old(out)@ + bytes@.take(bytes@.len() as int) =~= old(out)@ + bytes@);
    }
}

/// Write a byte string: its 4-byte big-endian length, then its bytes.
pub fn write_string(stream: &mut Vec<u8>, string: &Vec<u8>)
    requires
        string@.len() <= u32::MAX,
    ensures
        final(stream)@ == old(stream)@ + spec_string_enc(string@),
{
    let len_bytes = u32_to_be_bytes(string.len() as u32);
    push_bytes(stream, &len_bytes);
    push_bytes(stream, string);
    proof {
        assert(final(stream)@ =~= old(stream)@ + spec_string_enc(string@));
    }
}

/// Read a byte string: a 4-byte big-endian length, checked against the
/// ceiling, then that many bytes.
pub fn read_string(stream: &mut ByteReader, max_length: Option<u32>) -> (r: Result<
    Vec<u8>,
    BsshError,
>)
    ensures
        ({
            let rem = old(stream).remaining();
            let max = spec_effective_max(max_length);
            let len = be_nat(rem.take(4));
            &&& rem.len() < 4 ==> r == Err::<Vec<u8>, BsshError>(
                BsshError::ConnectionEndedUnexpectedly,
            ) && final(stream).remaining() == rem
            &&& rem.len() >= 4 && len > max ==> r == Err::<Vec<u8>, BsshError>(
                BsshError::BufferCapacityExceeded,
            ) && final(stream).remaining() == rem.skip(4)
            &&& rem.len() >= 4 && len <= max && rem.len() < 4 + len ==> r == Err::<
                Vec<u8>,
                BsshError,
            >(BsshError::ConnectionEndedUnexpectedly) && final(stream).remaining() == rem.skip(4)
            &&& rem.len() >= 4 && len <= max && rem.len() >= 4 + len ==> (match r {
                Ok(v) => v@ == rem.subrange(4, 4 + len as int) && final(stream).remaining()
                    == rem.skip(4 + len as int),
                Err(_) => false,
            })
        }),
{
    let len_bytes = match stream.read_exact(4) {
        Ok(v) => v,
        Err(e) => {
            return Err(e);
        },
    };
    let length = u32_from_be_bytes(&len_bytes);
    let actual_max: u32 = match max_length {
        Some(x) => x,
        None => MAX_BUFFER_LENGTH,
    };
    if length > actual_max {
        return Err(BsshError::BufferCapacityExceeded);
    }
    let body = match stream.read_exact(length as usize) {
        Ok(v) => v,
        Err(e) => {
            proof {
                assert(old(stream).remaining().skip(4).len() < length as nat);
            }
            return Err(e);
        },
    };
    proof {
        let rem = old(stream).remaining();
        assert(body@ =~= rem.subrange(4, 4 + length as int));
        assert(rem.skip(4).skip(length as int) =~= rem.skip(4 + length as int));
    }
    Ok(body)
}

/// The comma byte that separates the names of a name-list.
pub const NAME_SEPARATOR: u8 = 44;

/// The names of a name-list joined with commas, at the byte level.
pub open spec fn spec_join_names(names: Seq<Seq<u8>>) -> Seq<u8>
    decreases names.len(),
{
    if names.len() == 0 {
        Seq::empty()
    } else if names.len() == 1 {
        names[0]
    } else {
        names[0] + seq![NAME_SEPARATOR] + spec_join_names(names.skip(1))
    }
}

/// The joined bytes of a name-list whose names are character strings.
pub open spec fn spec_name_list_bytes(names: Seq<Seq<char>>) -> Seq<u8> {
    spec_join_names(names.map_values(|n: Seq<char>| vstd::utf8::encode_utf8(n)))
}

/// The components a payload splits into at its comma bytes.  An empty
/// payload splits into one empty component, as `split` does.
pub open spec fn spec_split_names(s: Seq<u8>) -> Seq<Seq<u8>>
    decreases s.len(),
{
    if s.len() == 0 {
        seq![Seq::<u8>::empty()]
    } else if s[0] == NAME_SEPARATOR {
        seq![Seq::<u8>::empty()] + spec_split_names(s.skip(1))
    } else {
        let rest = spec_split_names(s.skip(1));
        seq![seq![s[0]] + rest[0]] + rest.skip(1)
    }
}

/// A well-formed name-list payload: every component is nonempty, valid UTF-8.
pub open spec fn spec_name_list_ok(parts: Seq<Seq<u8>>) -> bool {
    forall|k: int|
        0 <= k < parts.len() ==> (#[trigger] parts[k]).len() > 0 && vstd::utf8::valid_utf8(parts[k])
}

/// Splitting yields at least one component.
pub proof fn lemma_split_names_nonempty(s: Seq<u8>)
    ensures
        spec_split_names(s).len() >= 1,
    decreases s.len(),
{
    if s.len() > 0 {
        lemma_split_names_nonempty(s.skip(1));
    }
}

/// A payload without commas is one single component.
pub proof fn lemma_split_names_no_comma(s: Seq<u8>)
    requires
        forall|j: int| 0 <= j < s.len() ==> s[j] != NAME_SEPARATOR,
    ensures
        spec_split_names(s) == seq![s],
    decreases s.len(),
{
    if s.len() == 0 {
        assert(spec_split_names(s) =~~= seq![s]);
    } else {
        lemma_split_names_no_comma(s.skip(1));
        let rest = spec_split_names(s.skip(1));
        assert(rest == seq![s.skip(1)]);
        assert(seq![s[0]] + rest[0] =~= s);
        assert(rest.skip(1) =~= Seq::<Seq<u8>>::empty());
        assert(spec_split_names(s) =~~= seq![s]);
    }
}

/// Splitting at the first comma: the bytes before it are the first
/// component, and the bytes after it split on their own.
pub proof fn lemma_split_names_head(s: Seq<u8>, k: int)
    requires
        0 <= k < s.len(),
        s[k] == NAME_SEPARATOR,
        forall|j: int| 0 <= j < k ==> s[j] != NAME_SEPARATOR,
    ensures
        spec_split_names(s) == seq![s.take(k)] + spec_split_names(s.skip(k + 1)),
    decreases k,
{
    if k == 0 {
        assert(s.take(0) =~= Seq::<u8>::empty());
        assert(spec_split_names(s) =~~= seq![s.take(0)] + spec_split_names(s.skip(1)));
    } else {
        lemma_split_names_head(s.skip(1), k - 1);
        lemma_split_names_nonempty(s.skip(1).skip(k));
        assert(s.skip(1).take(k - 1) =~= s.take(k).skip(1));
        assert(s.skip(1).skip(k) =~= s.skip(k + 1));
        let rest = spec_split_names(s.skip(1));
        assert(rest == seq![s.take(k).skip(1)] + spec_split_names(s.skip(k + 1)));
        assert(seq![s[0]] + rest[0] =~= s.take(k));
        assert(rest.skip(1) =~= spec_split_names(s.skip(k + 1)));
        assert(spec_split_names(s) =~~= seq![s.take(k)] + spec_split_names(s.skip(k + 1)));
    }
}

/// Appending one more name to a join adds a comma unless the join was empty.
pub proof fn lemma_join_names_push(names: Seq<Seq<u8>>, x: Seq<u8>)
    ensures
        spec_join_names(names.push(x)) == if names.len() == 0 {
            x
        } else {
            spec_join_names(names) + seq![NAME_SEPARATOR] + x
        },
    decreases names.len(),
{
    if names.len() == 0 {
        assert(names.push(x).len() == 1);
        assert(names.push(x)[0] == x);
    } else if names.len() == 1 {
        let p = names.push(x);
        assert(p.skip(1) =~= seq![x]);
        assert(spec_join_names(p) == p[0] + seq![NAME_SEPARATOR] + spec_join_names(p.skip(1)));
        assert(spec_join_names(seq![x]) == x);
        assert(spec_join_names(names) == names[0]);
    } else {
        lemma_join_names_push(names.skip(1), x);
        assert(names.push(x).skip(1) =~= names.skip(1).push(x));
        assert(spec_join_names(names.push(x)) == names[0] + seq![NAME_SEPARATOR] + (
        spec_join_names(names.skip(1)) + seq![NAME_SEPARATOR] + x));
        assert(names[0] + seq![NAME_SEPARATOR] + (spec_join_names(names.skip(1)) + seq![
            NAME_SEPARATOR,
        ] + x) =~= (names[0] + seq![NAME_SEPARATOR] + spec_join_names(names.skip(1))) + seq![
            NAME_SEPARATOR,
        ] + x);
    }
}

/// Splitting a join gives the components back, provided every component is
/// nonempty and free of comma bytes.
pub proof fn lemma_split_join_names(parts: Seq<Seq<u8>>)
    requires
        parts.len() > 0,
        forall|k: int| 0 <= k < parts.len() ==> (#[trigger] parts[k]).len() > 0,
        forall|k: int, j: int|
            0 <= k < parts.len() && 0 <= j < parts[k].len() ==> (#[trigger] parts[k][j])
                != NAME_SEPARATOR,
    ensures
        spec_split_names(spec_join_names(parts)) == parts,
    decreases parts.len(),
{
    if parts.len() == 1 {
        lemma_split_names_no_comma(parts[0]);
        assert(spec_join_names(parts) == parts[0]);
        assert(seq![parts[0]] =~= parts);
    } else {
        let s = spec_join_names(parts);
        let head = parts[0];
        let tail_join = spec_join_names(parts.skip(1));
        assert(s == head + seq![NAME_SEPARATOR] + tail_join);
        let k = head.len() as int;
        assert(forall|j: int| 0 <= j < k ==> s[j] == head[j] && s[j] != NAME_SEPARATOR);
        assert(s[k] == NAME_SEPARATOR);
        lemma_split_names_head(s, k);
        assert(s.take(k) =~= head);
        assert(s.skip(k + 1) =~= tail_join);
        assert(forall|k2: int, j: int|
            0 <= k2 < parts.skip(1).len() && 0 <= j < parts.skip(1)[k2].len() ==> parts.skip(1)[k2]
                == parts[k2 + 1] && parts.skip(1)[k2][j] != NAME_SEPARATOR);
        lemma_split_join_names(parts.skip(1));
        assert(spec_split_names(s) == seq![head] + parts.skip(1));
        assert(seq![head] + parts.skip(1) =~= parts);
    }
}

/// The UTF-8 encoding of a scalar other than the comma never contains the
/// comma byte: a one-byte encoding is the scalar itself, and every byte of
/// a longer encoding has its top bit set.
proof fn lemma_encode_scalar_no_comma(c: u32)
    requires
        vstd::utf8::is_scalar(c),
        c != 44,
    ensures
        forall|j: int|
            0 <= j < vstd::utf8::encode_scalar(c).len() ==> #[trigger] vstd::utf8::encode_scalar(
                c,
            )[j] != NAME_SEPARATOR,
        vstd::utf8::encode_scalar(c).len() >= 1,
{
    let e = vstd::utf8::encode_scalar(c);
    if vstd::utf8::has_width_1_encoding(c) {
        assert((c & 0x7F) == c) by (bit_vector)
            requires
                c <= 0x7F,
        ;
        assert(e[0] == c as u8);
    } else if vstd::utf8::has_width_2_encoding(c) {
        assert(0xC0u8 | (((c >> 6) & 0x1F) as u8) >= 0x80) by (bit_vector);
        assert(0x80u8 | ((c & 0x3F) as u8) >= 0x80) by (bit_vector);
    } else if vstd::utf8::has_width_3_encoding(c) {
        assert(0xE0u8 | (((c >> 12) & 0x0F) as u8) >= 0x80) by (bit_vector);
        assert(0x80u8 | (((c >> 6) & 0x3F) as u8) >= 0x80) by (bit_vector);
        assert(0x80u8 | ((c & 0x3F) as u8) >= 0x80) by (bit_vector);
    } else {
        assert(0xF0u8 | (((c >> 18) & 0x7) as u8) >= 0x80) by (bit_vector);
        assert(0x80u8 | (((c >> 12) & 0x3F) as u8) >= 0x80) by (bit_vector);
        assert(0x80u8 | (((c >> 6) & 0x3F) as u8) >= 0x80) by (bit_vector);
        assert(0x80u8 | ((c & 0x3F) as u8) >= 0x80) by (bit_vector);
    }
}

/// The UTF-8 encoding of a name without comma characters has no comma
/// bytes, and a nonempty name encodes to at least one byte.
pub proof fn lemma_encode_utf8_no_comma(name: Seq<char>)
    requires
        forall|i: int| 0 <= i < name.len() ==> (#[trigger] name[i]) != ',',
    ensures
        forall|j: int|
            0 <= j < vstd::utf8::encode_utf8(name).len() ==> #[trigger] vstd::utf8::encode_utf8(
                name,
            )[j] != NAME_SEPARATOR,
        name.len() > 0 ==> vstd::utf8::encode_utf8(name).len() > 0,
    decreases name.len(),
{
    if name.len() > 0 {
        let c = name[0] as u32;
        vstd::utf8::char_is_scalar(name[0]);
        assert(c != 44) by {
            if c == 44 {
                vstd::utf8::char_u32_cast(name[0], 44);
                assert(',' as u32 == 44);
                vstd::utf8::char_u32_cast(',', 44);
            }
        }
        lemma_encode_scalar_no_comma(c);
        lemma_encode_utf8_no_comma(name.drop_first());
        let e = vstd::utf8::encode_utf8(name);
        let head = vstd::utf8::encode_scalar(c);
        let tail = vstd::utf8::encode_utf8(name.drop_first());
        assert(e == head + tail);
        assert(forall|j: int|
            0 <= j < e.len() ==> #[trigger] e[j] == (if j < head.len() {
                head[j]
            } else {
                tail[j - head.len()]
            }));
    }
}

/// Relies on `String::from_utf8`: it succeeds exactly on valid UTF-8 input,
/// and the characters of the result are the decoding of that input.
#[verifier::external_body]
pub(crate) fn bytes_to_string(bytes: Vec<u8>) -> (r: Option<String>)
    ensures
        r is Some <==> vstd::utf8::valid_utf8(bytes@),
        r matches Some(s) ==> s@ == vstd::utf8::decode_utf8(bytes@),
{
    match String::from_utf8(bytes) {
        Ok(s) => Some(s),
        Err(_) => None,
    }
}

/// Append all of a byte slice to `out`.
pub(crate) fn push_slice(out: &mut Vec<u8>, bytes: &[u8])
    ensures
        final(out)@ == old(out)@ + bytes@,
{
    let mut i: usize = 0;
    while i < bytes.len()
        invariant
            i <= bytes@.len(),
            out@ == old(out)@ + bytes@.take(i as int),
        decreases bytes@.len() - i,
    {
        out.push(bytes[i]);
        i = i + 1;
        proof {
            assert(out@ =~= old(out)@ + bytes@.take(i as int));
        }
    }
    proof {
        assert(old(out)@ + bytes@.take(bytes@.len() as int) =~= old(out)@ + bytes@);
    }
}

/// Write a name-list: the names joined with commas, as one wire string.
pub fn write_name_list(stream: &mut Vec<u8>, names: &Vec<String>)
    requires
        spec_name_list_bytes(names.deep_view()).len() <= u32::MAX,
    ensures
        final(stream)@ == old(stream)@ + spec_string_enc(spec_name_list_bytes(names.deep_view())),
{
    let ghost enc = names.deep_view().map_values(|n: Seq<char>| vstd::utf8::encode_utf8(n));
    let mut payload: Vec<u8> = Vec::new();
    let mut i: usize = 0;
    while i < names.len()
        invariant
            i <= names@.len(),
            enc == names.deep_view().map_values(|n: Seq<char>| vstd::utf8::encode_utf8(n)),
            payload@ == spec_join_names(enc.take(i as int)),
        decreases names@.len() - i,
    {
        if i > 0 {
            payload.push(NAME_SEPARATOR);
        }
        let name_bytes: &[u8] = names[i].as_str().as_bytes();
        push_slice(&mut payload, name_bytes);
        proof {
            lemma_join_names_push(enc.take(i as int), enc[i as int]);
            assert(enc.take(i as int).push(enc[i as int]) =~= enc.take(i + 1));
            assert(name_bytes@ == enc[i as int]);
            if i > 0 {
                assert(payload@ =~= spec_join_names(enc.take(i as int)) + seq![NAME_SEPARATOR]
                    + enc[i as int]);
            }
        }
        i = i + 1;
    }
    proof {
        assert(enc.take(names@.len() as int) =~= enc);
    }
    write_string(stream, &payload);
}

/// Read a name-list: one wire string, split at commas into nonempty UTF-8
/// names.  An empty payload is an empty list.
pub fn read_name_list(stream: &mut ByteReader, max_length: Option<u32>) -> (r: Result<
    Vec<String>,
    BsshError,
>)
    ensures
        ({
            let rem = old(stream).remaining();
            let max = spec_effective_max(max_length);
            let len = be_nat(rem.take(4));
            let payload = rem.subrange(4, 4 + len as int);
            let parts = spec_split_names(payload);
            &&& rem.len() < 4 ==> r == Err::<Vec<String>, BsshError>(
                BsshError::ConnectionEndedUnexpectedly,
            ) && final(stream).remaining() == rem
            &&& rem.len() >= 4 && len > max ==> r == Err::<Vec<String>, BsshError>(
                BsshError::BufferCapacityExceeded,
            ) && final(stream).remaining() == rem.skip(4)
            &&& rem.len() >= 4 && len <= max && rem.len() < 4 + len ==> r == Err::<
                Vec<String>,
                BsshError,
            >(BsshError::ConnectionEndedUnexpectedly) && final(stream).remaining() == rem.skip(4)
            &&& rem.len() >= 4 && len <= max && rem.len() >= 4 + len ==> final(stream).remaining()
                == rem.skip(4 + len as int) && (if len == 0 {
                r matches Ok(v) && v@.len() == 0
            } else if !spec_name_list_ok(parts) {
                r == Err::<Vec<String>, BsshError>(BsshError::MalformedNameList)
            } else {
                r matches Ok(v) && v.deep_view() == parts.map_values(
                    |p: Seq<u8>| vstd::utf8::decode_utf8(p),
                )
            })
        }),
{
    let payload = match read_string(stream, max_length) {
        Ok(v) => v,
        Err(e) => {
            return Err(e);
        },
    };
    let mut res: Vec<String> = Vec::new();
    if payload.len() == 0 {
        return Ok(res);
    }
    let ghost parts = spec_split_names(payload@);
    let ghost rem = old(stream).remaining();
    let ghost len_g = be_nat(rem.take(4));
    proof {
        assert(payload@.skip(0) =~= payload@);
        assert(parts.take(0) + spec_split_names(payload@) =~= parts);
    }
    let mut i: usize = 0;
    let mut done_all: bool = false;
    while !done_all
        invariant
            rem == old(stream).remaining(),
            len_g == be_nat(rem.take(4)),
            rem.len() >= 4 + len_g,
            len_g <= spec_effective_max(max_length),
            stream.remaining() == rem.skip(4 + len_g as int),
            payload@ == rem.subrange(4, 4 + len_g as int),
            payload@.len() > 0,
            i <= payload@.len(),
            parts == spec_split_names(payload@),
            !done_all ==> parts == parts.take(res@.len() as int) + spec_split_names(
                payload@.skip(i as int),
            ),
            done_all ==> parts == parts.take(res@.len() as int),
            res@.len() <= parts.len(),
            forall|k: int|
                0 <= k < res@.len() ==> (#[trigger] parts[k]).len() > 0 && vstd::utf8::valid_utf8(
                    parts[k],
                ) && res.deep_view()[k] == vstd::utf8::decode_utf8(parts[k]),
        decreases payload@.len() - i, (if done_all {
            0int
        } else {
            1int
        }),
    {
        let mut j: usize = i;
        let mut cur: Vec<u8> = Vec::new();
        while j < payload.len() && payload[j] != NAME_SEPARATOR
            invariant
                i <= j <= payload@.len(),
                cur@ == payload@.subrange(i as int, j as int),
                forall|m: int| i <= m < j ==> payload@[m] != NAME_SEPARATOR,
            decreases payload@.len() - j,
        {
            cur.push(payload[j]);
            j = j + 1;
            proof {
                assert(cur@ =~= payload@.subrange(i as int, j as int));
            }
        }
        proof {
            let s = payload@.skip(i as int);
            if j == payload@.len() {
                assert(forall|m: int| 0 <= m < s.len() ==> s[m] != NAME_SEPARATOR);
                lemma_split_names_no_comma(s);
                assert(cur@ =~= s);
            } else {
                lemma_split_names_head(s, j - i);
                assert(s.take(j - i) =~= payload@.subrange(i as int, j as int));
                assert(s.skip(j - i + 1) =~= payload@.skip(j + 1));
            }
            lemma_split_names_nonempty(payload@.skip(i as int));
            assert(parts[res@.len() as int] == spec_split_names(payload@.skip(i as int))[0]);
            assert(parts[res@.len() as int] == cur@);
        }
        let ghost cur_view = cur@;
        if cur.len() == 0 {
            proof {
                assert(!spec_name_list_ok(parts));
            }
            return Err(BsshError::MalformedNameList);
        }
        let s = match bytes_to_string(cur) {
            Some(s) => s,
            None => {
                proof {
                    assert(!vstd::utf8::valid_utf8(cur_view));
                    assert(!spec_name_list_ok(parts));
                }
                return Err(BsshError::MalformedNameList);
            },
        };
        let ghost old_res = res@;
        res.push(s);
        proof {
            let done = res@.len() as int;
            assert(parts.take(done - 1).push(parts[done - 1]) =~= parts.take(done));
            assert(res.deep_view()[done - 1] == vstd::utf8::decode_utf8(parts[done - 1]));
            assert(forall|k: int|
                0 <= k < done - 1 ==> res.deep_view()[k] == old_res[k].deep_view());
        }
        if j == payload.len() {
            proof {
                assert(parts =~= parts.take(res@.len() as int));
            }
            done_all = true;
        } else {
            proof {
                let done = res@.len() as int;
                assert(parts =~= parts.take(done) + spec_split_names(payload@.skip(j + 1)));
            }
            i = j + 1;
        }
    }
    proof {
        assert(res@.len() == parts.len());
        assert(res.deep_view() =~= parts.map_values(|p: Seq<u8>| vstd::utf8::decode_utf8(p)));
    }
    Ok(res)
}

/// Write a multi-precision integer: a 4-byte length, then the minimal
/// two's-complement big-endian body with a guard byte where the sign bit of
/// the magnitude would be ambiguous.  Zero is the empty body.
pub fn write_mpint(stream: &mut Vec<u8>, value: &Mpint)
    requires
        spec_mpint_body(value@).len() <= u32::MAX,
    ensures
        final(stream)@ == old(stream)@ + spec_mpint_enc(value@),
{
    let neg = value.is_negative();
    let mag = value.magnitude();
    let ghost v = value@;
    let ghost m_len = mag@.len();
    if mag.len() == 0 {
        let len_bytes = u32_to_be_bytes(0);
        push_bytes(stream, &len_bytes);
        proof {
            assert(v == 0);
            assert(spec_mpint_body(0) =~= Seq::<u8>::empty());
            assert(final(stream)@ =~= old(stream)@ + spec_mpint_enc(0));
        }
        return ;
    }
    proof {
        lemma_be_nat_pos(mag@);
        lemma_be_nat_bound(mag@);
        if neg {
            lemma_min_be_of_be_nat(mag@);
            assert(min_be((-v) as nat) == mag@);
        } else {
            lemma_min_be_of_be_nat(mag@);
            assert(min_be(v as nat) == mag@);
        }
        // the body is at least as long as the magnitude, so the length fits
        if neg {
            lemma_be_pad_len(
                (pow256(if mag@[0] >= 128 {
                    (m_len + 1) as nat
                } else {
                    m_len
                }) as int + v) as nat,
                if mag@[0] >= 128 {
                    (m_len + 1) as nat
                } else {
                    m_len
                },
            );
        }
    }
    let msb_set = mag[0] >= 128;
    let body_len: usize = if msb_set {
        mag.len() + 1
    } else {
        mag.len()
    };
    let len_bytes = u32_to_be_bytes(body_len as u32);
    push_bytes(stream, &len_bytes);
    if !neg {
        if msb_set {
            stream.push(0);
        }
        push_bytes(stream, mag);
        proof {
            if msb_set {
                assert(spec_mpint_body(v) == seq![0u8] + mag@);
            } else {
                assert(spec_mpint_body(v) == mag@);
            }
            assert(final(stream)@ =~= old(stream)@ + spec_mpint_enc(v));
        }
    } else {
        if msb_set {
            stream.push(0xFF);
        }
        let comp = twos_complement(mag);
        push_bytes(stream, &comp);
        proof {
            let magn = be_nat(mag@) as int;
            if msb_set {
                let full = (m_len + 1) as nat;
                let n = (pow256(full) as int + v) as nat;
                assert(pow256(full) == 256 * pow256(m_len));
                lemma_be_nat_append(seq![0xFFu8], comp@);
                assert(be_nat(seq![0xFFu8]) == 255) by {
                    assert(seq![0xFFu8].len() == 1);
                    assert(seq![0xFFu8].last() == 0xFFu8);
                    assert(seq![0xFFu8].drop_last() =~= Seq::<u8>::empty());
                    assert(be_nat(Seq::<u8>::empty()) == 0);
                }
                assert(be_nat(seq![0xFFu8] + comp@) == 255 * pow256(m_len) + (pow256(m_len)
                    - magn));
                assert(n < pow256(full));
                lemma_be_nat_be_pad(n, full);
                lemma_be_nat_injective(seq![0xFFu8] + comp@, be_pad(n, full));
                assert(spec_mpint_body(v) == seq![0xFFu8] + comp@);
            } else {
                let n = (pow256(m_len) as int + v) as nat;
                assert(n < pow256(m_len));
                lemma_be_nat_be_pad(n, m_len);
                lemma_be_nat_injective(comp@, be_pad(n, m_len));
                assert(spec_mpint_body(v) == comp@);
            }
            assert(final(stream)@ =~= old(stream)@ + spec_mpint_enc(v));
        }
    }
}

/// Read a multi-precision integer: a 4-byte length, then that many bytes of
/// two's-complement big-endian body.  The empty body is zero.
pub fn read_mpint(stream: &mut ByteReader) -> (r: Result<Mpint, BsshError>)
    ensures
        ({
            let rem = old(stream).remaining();
            let len = be_nat(rem.take(4));
            let body = rem.subrange(4, 4 + len as int);
            &&& rem.len() < 4 ==> r == Err::<Mpint, BsshError>(
                BsshError::ConnectionEndedUnexpectedly,
            ) && final(stream).remaining() == rem
            &&& rem.len() >= 4 && rem.len() < 4 + len ==> r == Err::<Mpint, BsshError>(
                BsshError::ConnectionEndedUnexpectedly,
            ) && final(stream).remaining() == rem.skip(4)
            &&& rem.len() >= 4 + len ==> (match r {
                Ok(value) => value@ == spec_mpint_decode(body) && final(stream).remaining()
                    == rem.skip(4 + len as int),
                Err(_) => false,
            })
        }),
{
    let len_bytes = match stream.read_exact(4) {
        Ok(v) => v,
        Err(e) => {
            return Err(e);
        },
    };
    let length = u32_from_be_bytes(&len_bytes);
    if length == 0 {
        proof {
            assert(old(stream).remaining().subrange(4, 4).len() == 0);
        }
        return Ok(Mpint::zero());
    }
    let body = match stream.read_exact(length as usize) {
        Ok(v) => v,
        Err(e) => {
            return Err(e);
        },
    };
    proof {
        let rem = old(stream).remaining();
        assert(body@ =~= rem.subrange(4, 4 + length as int));
        assert(rem.skip(4).skip(length as int) =~= rem.skip(4 + length as int));
    }
    if body[0] < 128 {
        Ok(Mpint::from_magnitude_bytes(false, &body))
    } else {
        proof {
            lemma_be_nat_pos(body@);
        }
        let comp = twos_complement(&body);
        Ok(Mpint::from_magnitude_bytes(true, &comp))
    }
}

/// Write a boolean as one byte: 1 for true, 0 for false.
pub fn write_boolean(stream: &mut Vec<u8>, value: bool)
    ensures
        final(stream)@ == old(stream)@ + seq![if value { 1u8 } else { 0u8 }],
{
    stream.push(if value {
        1
    } else {
        0
    });
    proof {
        assert(final(stream)@ =~= old(stream)@ + seq![if value { 1u8 } else { 0u8 }]);
    }
}

/// Read a boolean byte: 0 is false, every other value is true.
pub fn read_boolean(stream: &mut ByteReader) -> (r: Result<bool, BsshError>)
    ensures
        old(stream).remaining().len() == 0 ==> r == Err::<bool, BsshError>(
            BsshError::ConnectionEndedUnexpectedly,
        ) && final(stream).remaining() == old(stream).remaining(),
        old(stream).remaining().len() > 0 ==> r == Ok::<bool, BsshError>(
            old(stream).remaining()[0] != 0,
        ) && final(stream).remaining() == old(stream).remaining().skip(1),
{
    let b = match stream.read_byte() {
        Ok(b) => b,
        Err(e) => {
            return Err(e);
        },
    };
    Ok(b != 0)
}

} // verus!
