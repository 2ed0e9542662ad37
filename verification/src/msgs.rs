//! The messages of the handshake: the plaintext version banner and the
//! key-exchange-init message.

use vstd::prelude::*;

use crate::be::be_nat;
use crate::config::{spec_set_lists, AlgorithmLists, AvailableAlgorithms, AvailableAlgorithmSet};
use crate::errors::BsshError;
use crate::io_helpers::{
    bytes_to_string, lemma_encode_utf8_no_comma, lemma_split_join_names, push_bytes, read_boolean,
    read_name_list, spec_join_names, spec_name_list_bytes, spec_name_list_ok, spec_split_names,
    spec_string_enc, write_boolean, write_name_list, MAX_BUFFER_LENGTH, NAME_SEPARATOR,
};
use crate::numbers::SSH_MSG_KEXINIT;
use crate::rng::random_bytes;
use crate::stream::ByteReader;

verus! {

/// The key-exchange-init message: a fresh random cookie, the sender's own
/// capability set, and the flag that announces a speculative first packet.
pub struct KexMessage {
    pub cookie: [u8; 16],
    pub available_algorithm_set: AvailableAlgorithmSet,
    pub first_kex_packet_follows: bool,
}

impl KexMessage {
    /// The random cookie this message carries.
    pub fn get_cookie(&self) -> (r: [u8; 16])
        ensures
            r@ == self.cookie@,
    {
        self.cookie
    }

    /// Whether a speculative first key-exchange packet follows.
    pub fn get_first_kex_packet_follows(&self) -> (r: bool)
        ensures
            r == self.first_kex_packet_follows,
    {
        self.first_kex_packet_follows
    }
}

/// A banner line, terminator included, may buffer at most this many bytes.
pub const MAX_LINE_LENGTH: usize = 255;

/// How many comment lines the banner exchange tolerates.
pub const MAX_COMMENT_LINES: usize = 100;

/// The bytes of the banner prefix `"SSH-2.0-"` that ends the exchange.
pub open spec fn spec_version_prefix() -> Seq<u8> {
    seq![0x53u8, 0x53, 0x48, 0x2d, 0x32, 0x2e, 0x30, 0x2d]
}

/// What a banner exchange comes to: the accumulated lines and the unread
/// rest of the stream, or the error that ended it.
pub enum BannerOutcome {
    Lines { lines: Seq<Seq<char>>, rest: Seq<u8> },
    Fail { err: BsshError },
}

/// One step of the banner exchange: consume bytes of `s` into the line
/// buffer `buf`, with `count` lines already accepted.
pub open spec fn spec_banner_step(
    s: Seq<u8>,
    allow_comments: bool,
    count: nat,
    buf: Seq<u8>,
) -> BannerOutcome
    decreases s.len(),
{
    if s.len() == 0 {
        BannerOutcome::Fail { err: BsshError::ConnectionEndedUnexpectedly }
    } else {
        let buf2 = buf.push(s[0]);
        if buf2.len() >= 2 && buf2[buf2.len() - 2] == 13 && buf2[buf2.len() - 1] == 10 {
            let line = buf2.take(buf2.len() - 2);
            if !vstd::utf8::valid_utf8(line) {
                BannerOutcome::Fail { err: BsshError::NotUtf8String }
            } else if line.len() >= 8 && line.take(8) == spec_version_prefix() {
                BannerOutcome::Lines {
                    lines: seq![vstd::utf8::decode_utf8(line)],
                    rest: s.skip(1),
                }
            } else if !allow_comments {
                BannerOutcome::Fail { err: BsshError::ExpectedHeaderString }
            } else if count + 1 > MAX_COMMENT_LINES {
                BannerOutcome::Fail { err: BsshError::TooManyCommentLines }
            } else {
                match spec_banner_step(s.skip(1), allow_comments, count + 1, Seq::empty()) {
                    BannerOutcome::Lines { lines, rest } => BannerOutcome::Lines {
                        lines: seq![vstd::utf8::decode_utf8(line)] + lines,
                        rest,
                    },
                    BannerOutcome::Fail { err } => BannerOutcome::Fail { err },
                }
            }
        } else if buf2.len() > MAX_LINE_LENGTH {
            BannerOutcome::Fail { err: BsshError::NoLineTerminationFound }
        } else {
            spec_banner_step(s.skip(1), allow_comments, count, buf2)
        }
    }
}

/// What reading the banner from the stream `s` comes to.
pub open spec fn spec_read_welcome(s: Seq<u8>, allow_comments: bool) -> BannerOutcome {
    spec_banner_step(s, allow_comments, 0, Seq::empty())
}

/// Prepend already-accepted lines to an outcome.
pub open spec fn spec_banner_extend(prefix: Seq<Seq<char>>, o: BannerOutcome) -> BannerOutcome {
    match o {
        BannerOutcome::Lines { lines, rest } => BannerOutcome::Lines {
            lines: prefix + lines,
            rest,
        },
        BannerOutcome::Fail { err } => BannerOutcome::Fail { err },
    }
}

/// Whether a line opens with the banner prefix `"SSH-2.0-"`.
fn starts_with_version_prefix(v: &Vec<u8>) -> (r: bool)
    ensures
        r == (v@.len() >= 8 && v@.take(8) == spec_version_prefix()),
{
    if v.len() < 8 {
        return false;
    }
    let r = v[0] == 0x53 && v[1] == 0x53 && v[2] == 0x48 && v[3] == 0x2d && v[4] == 0x32 && v[5]
        == 0x2e && v[6] == 0x30 && v[7] == 0x2d;
    proof {
        if r {
            assert(v@.take(8) =~= spec_version_prefix());
        } else {
            assert(v@.take(8) != spec_version_prefix()) by {
                if v@.take(8) == spec_version_prefix() {
                    assert(v@[0] == 0x53 && v@[1] == 0x53 && v@[2] == 0x48 && v@[3] == 0x2d
                        && v@[4] == 0x32 && v@[5] == 0x2e && v@[6] == 0x30 && v@[7] == 0x2d) by {
                        assert(forall|i: int| 0 <= i < 8 ==> v@.take(8)[i] == v@[i]);
                    }
                }
            }
        }
    }
    r
}

/// Read the pre-packet identification exchange: lines end with `\r\n`, and
/// the exchange ends at the first line that opens with `"SSH-2.0-"`.  Earlier
/// lines are comments, tolerated only when asked for and only up to a budget;
/// a line that outgrows the buffer without a terminator, or one that is not
/// UTF-8, ends the handshake.
pub fn read_welcome_string(stream: &mut ByteReader, allow_comments: bool) -> (r: Result<
    Vec<String>,
    BsshError,
>)
    ensures
        ({
            let outcome = spec_read_welcome(old(stream).remaining(), allow_comments);
            match outcome {
                BannerOutcome::Lines { lines, rest } => (match r {
                    Ok(v) => v.deep_view() == lines && final(stream).remaining() == rest,
                    Err(_) => false,
                }),
                BannerOutcome::Fail { err } => r == Err::<Vec<String>, BsshError>(err),
            }
        }),
        r is Err ==> exists|k: int|
            0 <= k <= old(stream).remaining().len() && final(stream).remaining() == old(
                stream,
            ).remaining().skip(k),
{
    let ghost init_rem = old(stream).remaining();
    let ghost target = spec_read_welcome(init_rem, allow_comments);
    let mut res: Vec<String> = Vec::new();
    let mut buf: Vec<u8> = Vec::new();
    proof {
        assert(res.deep_view() =~= Seq::<Seq<char>>::empty());
        assert(buf@ =~= Seq::<u8>::empty());
        assert(spec_banner_extend(res.deep_view(), target) == target) by {
            match target {
                BannerOutcome::Lines { lines, rest } => {
                    assert(res.deep_view() + lines =~= lines);
                },
                BannerOutcome::Fail { err } => {},
            }
        }
        assert(init_rem.skip(0) =~= init_rem);
    }
    loop
        invariant
            init_rem == old(stream).remaining(),
            target == spec_read_welcome(init_rem, allow_comments),
            spec_banner_extend(
                res.deep_view(),
                spec_banner_step(
                    stream.remaining(),
                    allow_comments,
                    res.deep_view().len(),
                    buf@,
                ),
            ) == target,
            exists|k: int| 0 <= k <= init_rem.len() && stream.remaining() == init_rem.skip(k),
        decreases stream.remaining().len(),
    {
        let ghost rem0 = stream.remaining();
        let ghost res0 = res.deep_view();
        let ghost buf0 = buf@;
        let b = match stream.read_byte() {
            Ok(b) => b,
            Err(e) => {
                proof {
                    assert(rem0.len() == 0);
                    assert(spec_banner_step(rem0, allow_comments, res0.len(), buf0)
                        == (BannerOutcome::Fail { err: BsshError::ConnectionEndedUnexpectedly }));
                    assert(target == (BannerOutcome::Fail {
                        err: BsshError::ConnectionEndedUnexpectedly,
                    }));
                }
                return Err(e);
            },
        };
        proof {
            let k0 = choose|k: int| 0 <= k <= init_rem.len() && rem0 == init_rem.skip(k);
            assert(stream.remaining() =~= init_rem.skip(k0 + 1));
        }
        buf.push(b);
        let terminated = buf.len() >= 2 && buf[buf.len() - 2] == 13 && buf[buf.len() - 1] == 10;
        if terminated {
            let line_len = buf.len() - 2;
            buf.truncate(line_len);
            let ghost line = buf@;
            proof {
                assert(buf0.push(b).take(buf0.push(b).len() - 2) =~= line);
            }
            let is_version = starts_with_version_prefix(&buf);
            let line_string = match bytes_to_string(buf) {
                None => {
                    return Err(BsshError::NotUtf8String);
                },
                Some(s) => s,
            };
            res.push(line_string);
            buf = Vec::new();
            proof {
                assert(res.deep_view() =~= res0.push(vstd::utf8::decode_utf8(line)));
                assert(buf@ =~= Seq::<u8>::empty());
            }
            if is_version {
                proof {
                    assert(res.deep_view() =~= res0 + seq![vstd::utf8::decode_utf8(line)]);
                }
                return Ok(res);
            }
            if !allow_comments {
                return Err(BsshError::ExpectedHeaderString);
            }
            if res.len() > MAX_COMMENT_LINES {
                return Err(BsshError::TooManyCommentLines);
            }
            proof {
                let step = spec_banner_step(
                    stream.remaining(),
                    allow_comments,
                    res.deep_view().len(),
                    buf@,
                );
                assert(spec_banner_step(rem0, allow_comments, res0.len(), buf0)
                    == spec_banner_extend(seq![vstd::utf8::decode_utf8(line)], step));
                assert(spec_banner_extend(res.deep_view(), step) == spec_banner_extend(
                    res0,
                    spec_banner_extend(seq![vstd::utf8::decode_utf8(line)], step),
                )) by {
                    match step {
                        BannerOutcome::Lines { lines, rest } => {
                            assert(res.deep_view() + lines =~= res0 + (seq![
                                vstd::utf8::decode_utf8(line),
                            ] + lines));
                        },
                        BannerOutcome::Fail { err } => {},
                    }
                }
            }
        } else {
            if buf.len() > MAX_LINE_LENGTH {
                return Err(BsshError::NoLineTerminationFound);
            }
        }
    }
}

/// The ten name lists of a capability set, each small enough for its 4-byte
/// length prefix.
pub open spec fn spec_lists_encodable(algs: AlgorithmLists) -> bool {
    &&& spec_name_list_bytes(algs.kex_algorithms).len() <= u32::MAX
    &&& spec_name_list_bytes(algs.server_host_key_algorithms).len() <= u32::MAX
    &&& spec_name_list_bytes(algs.encryption_algorithms_client_to_server).len() <= u32::MAX
    &&& spec_name_list_bytes(algs.encryption_algorithms_server_to_client).len() <= u32::MAX
    &&& spec_name_list_bytes(algs.mac_algorithms_client_to_server).len() <= u32::MAX
    &&& spec_name_list_bytes(algs.mac_algorithms_server_to_client).len() <= u32::MAX
    &&& spec_name_list_bytes(algs.compression_algorithms_client_to_server).len() <= u32::MAX
    &&& spec_name_list_bytes(algs.compression_algorithms_server_to_client).len() <= u32::MAX
    &&& spec_name_list_bytes(algs.languages_client_to_server).len() <= u32::MAX
    &&& spec_name_list_bytes(algs.languages_server_to_client).len() <= u32::MAX
}

/// The payload of a key-exchange-init message: the tag byte, the 16-byte
/// cookie, the ten name lists in their fixed order, the follow flag, and
/// four reserved zero bytes.
pub open spec fn spec_kex_payload(cookie: Seq<u8>, algs: AlgorithmLists, follow: bool) -> Seq<u8> {
    seq![SSH_MSG_KEXINIT] + cookie + spec_string_enc(spec_name_list_bytes(algs.kex_algorithms))
        + spec_string_enc(spec_name_list_bytes(algs.server_host_key_algorithms))
        + spec_string_enc(spec_name_list_bytes(algs.encryption_algorithms_client_to_server))
        + spec_string_enc(spec_name_list_bytes(algs.encryption_algorithms_server_to_client))
        + spec_string_enc(spec_name_list_bytes(algs.mac_algorithms_client_to_server))
        + spec_string_enc(spec_name_list_bytes(algs.mac_algorithms_server_to_client))
        + spec_string_enc(spec_name_list_bytes(algs.compression_algorithms_client_to_server))
        + spec_string_enc(spec_name_list_bytes(algs.compression_algorithms_server_to_client))
        + spec_string_enc(spec_name_list_bytes(algs.languages_client_to_server))
        + spec_string_enc(spec_name_list_bytes(algs.languages_server_to_client)) + seq![
        if follow {
            1u8
        } else {
            0u8
        },
    ] + seq![0u8, 0u8, 0u8, 0u8]
}

/// Write a key-exchange-init message with the given cookie.  The wire order
/// of the categories is fixed by the protocol; the reserved field is zero.
pub fn write_kex_init_message_with_cookie<A: AvailableAlgorithms>(
    stream: &mut Vec<u8>,
    cookie: &Vec<u8>,
    config: &A,
    first_kex_packet_follows: bool,
)
    requires
        cookie@.len() == 16,
        spec_lists_encodable(config.spec_algorithms()),
    ensures
        final(stream)@ == old(stream)@ + spec_kex_payload(
            cookie@,
            config.spec_algorithms(),
            first_kex_packet_follows,
        ),
{
    let ghost p0 = old(stream)@;
    let ghost algs = config.spec_algorithms();
    stream.push(SSH_MSG_KEXINIT);
    let ghost acc = seq![SSH_MSG_KEXINIT];
    proof {
        assert(stream@ =~= p0 + acc);
    }
    push_bytes(stream, cookie);
    proof {
        vstd::seq_lib::lemma_concat_associative(p0, acc, cookie@);
        assert(stream@ == p0 + (acc + cookie@));
    }
    let ghost acc = acc + cookie@;
    let kex_algorithms = config.get_available_kex_algorithms();
    write_name_list(stream, &kex_algorithms);
    proof {
        vstd::seq_lib::lemma_concat_associative(p0, acc, spec_string_enc(spec_name_list_bytes(algs.kex_algorithms)));
        assert(stream@ == p0 + (acc + spec_string_enc(spec_name_list_bytes(algs.kex_algorithms))));
    }
    let ghost acc = acc + spec_string_enc(spec_name_list_bytes(algs.kex_algorithms));
    let server_host_key_algorithms = config.get_available_server_host_key_algorithms();
    write_name_list(stream, &server_host_key_algorithms);
    proof {
        vstd::seq_lib::lemma_concat_associative(p0, acc, spec_string_enc(
            spec_name_list_bytes(algs.server_host_key_algorithms),
        ));
        assert(stream@ == p0 + (acc + spec_string_enc(
            spec_name_list_bytes(algs.server_host_key_algorithms),
        )));
    }
    let ghost acc = acc + spec_string_enc(spec_name_list_bytes(algs.server_host_key_algorithms));
    let encryption_algorithms_client_to_server =
        config.get_available_encryption_algorithms_client_to_server();
    write_name_list(stream, &encryption_algorithms_client_to_server);
    proof {
        vstd::seq_lib::lemma_concat_associative(p0, acc, spec_string_enc(
            spec_name_list_bytes(algs.encryption_algorithms_client_to_server),
        ));
        assert(stream@ == p0 + (acc + spec_string_enc(
            spec_name_list_bytes(algs.encryption_algorithms_client_to_server),
        )));
    }
    let ghost acc = acc + spec_string_enc(
        spec_name_list_bytes(algs.encryption_algorithms_client_to_server),
    );
    let encryption_algorithms_server_to_client =
        config.get_available_encryption_algorithms_server_to_client();
    write_name_list(stream, &encryption_algorithms_server_to_client);
    proof {
        vstd::seq_lib::lemma_concat_associative(p0, acc, spec_string_enc(
            spec_name_list_bytes(algs.encryption_algorithms_server_to_client),
        ));
        assert(stream@ == p0 + (acc + spec_string_enc(
            spec_name_list_bytes(algs.encryption_algorithms_server_to_client),
        )));
    }
    let ghost acc = acc + spec_string_enc(
        spec_name_list_bytes(algs.encryption_algorithms_server_to_client),
    );
    let mac_algorithms_client_to_server = config.get_available_mac_algorithms_client_to_server();
    write_name_list(stream, &mac_algorithms_client_to_server);
    proof {
        vstd::seq_lib::lemma_concat_associative(p0, acc, spec_string_enc(
            spec_name_list_bytes(algs.mac_algorithms_client_to_server),
        ));
        assert(stream@ == p0 + (acc + spec_string_enc(
            spec_name_list_bytes(algs.mac_algorithms_client_to_server),
        )));
    }
    let ghost acc = acc + spec_string_enc(spec_name_list_bytes(algs.mac_algorithms_client_to_server));
    let mac_algorithms_server_to_client = config.get_available_mac_algorithms_server_to_client();
    write_name_list(stream, &mac_algorithms_server_to_client);
    proof {
        vstd::seq_lib::lemma_concat_associative(p0, acc, spec_string_enc(
            spec_name_list_bytes(algs.mac_algorithms_server_to_client),
        ));
        assert(stream@ == p0 + (acc + spec_string_enc(
            spec_name_list_bytes(algs.mac_algorithms_server_to_client),
        )));
    }
    let ghost acc = acc + spec_string_enc(spec_name_list_bytes(algs.mac_algorithms_server_to_client));
    let compression_algorithms_client_to_server =
        config.get_available_compression_algorithms_client_to_server();
    write_name_list(stream, &compression_algorithms_client_to_server);
    proof {
        vstd::seq_lib::lemma_concat_associative(p0, acc, spec_string_enc(
            spec_name_list_bytes(algs.compression_algorithms_client_to_server),
        ));
        assert(stream@ == p0 + (acc + spec_string_enc(
            spec_name_list_bytes(algs.compression_algorithms_client_to_server),
        )));
    }
    let ghost acc = acc + spec_string_enc(
        spec_name_list_bytes(algs.compression_algorithms_client_to_server),
    );
    let compression_algorithms_server_to_client =
        config.get_available_compression_algorithms_server_to_client();
    write_name_list(stream, &compression_algorithms_server_to_client);
    proof {
        vstd::seq_lib::lemma_concat_associative(p0, acc, spec_string_enc(
            spec_name_list_bytes(algs.compression_algorithms_server_to_client),
        ));
        assert(stream@ == p0 + (acc + spec_string_enc(
            spec_name_list_bytes(algs.compression_algorithms_server_to_client),
        )));
    }
    let ghost acc = acc + spec_string_enc(
        spec_name_list_bytes(algs.compression_algorithms_server_to_client),
    );
    let languages_client_to_server = config.get_available_languages_client_to_server();
    write_name_list(stream, &languages_client_to_server);
    proof {
        vstd::seq_lib::lemma_concat_associative(p0, acc, spec_string_enc(
            spec_name_list_bytes(algs.languages_client_to_server),
        ));
        assert(stream@ == p0 + (acc + spec_string_enc(
            spec_name_list_bytes(algs.languages_client_to_server),
        )));
    }
    let ghost acc = acc + spec_string_enc(spec_name_list_bytes(algs.languages_client_to_server));
    let languages_server_to_client = config.get_available_languages_server_to_client();
    write_name_list(stream, &languages_server_to_client);
    proof {
        vstd::seq_lib::lemma_concat_associative(p0, acc, spec_string_enc(
            spec_name_list_bytes(algs.languages_server_to_client),
        ));
        assert(stream@ == p0 + (acc + spec_string_enc(
            spec_name_list_bytes(algs.languages_server_to_client),
        )));
    }
    let ghost acc = acc + spec_string_enc(spec_name_list_bytes(algs.languages_server_to_client));
    write_boolean(stream, first_kex_packet_follows);
    proof {
        vstd::seq_lib::lemma_concat_associative(p0, acc, seq![
            if first_kex_packet_follows {
                1u8
            } else {
                0u8
            },
        ]);
        assert(stream@ == p0 + (acc + seq![
            if first_kex_packet_follows {
                1u8
            } else {
                0u8
            },
        ]));
    }
    let ghost acc = acc + seq![
        if first_kex_packet_follows {
            1u8
        } else {
            0u8
        },
    ];
    stream.push(0);
    stream.push(0);
    stream.push(0);
    stream.push(0);
    proof {
        vstd::seq_lib::lemma_concat_associative(p0, acc, seq![0u8, 0u8, 0u8, 0u8]);
        assert(stream@ == p0 + (acc + seq![0u8, 0u8, 0u8, 0u8]));
        assert(acc + seq![0u8, 0u8, 0u8, 0u8] == spec_kex_payload(
            cookie@,
            algs,
            first_kex_packet_follows,
        ));
    }
}

/// Write a key-exchange-init message with a cookie of 16 fresh random
/// bytes, drawn anew on every call.
pub fn write_kex_init_message<A: AvailableAlgorithms>(
    stream: &mut Vec<u8>,
    config: &A,
    first_kex_packet_follows: bool,
)
    requires
        spec_lists_encodable(config.spec_algorithms()),
    ensures
        exists|cookie: Seq<u8>|
            cookie.len() == 16 && final(stream)@ == old(stream)@ + spec_kex_payload(
                cookie,
                config.spec_algorithms(),
                first_kex_packet_follows,
            ),
{
    let cookie = random_bytes(16);
    write_kex_init_message_with_cookie(stream, &cookie, config, first_kex_packet_follows);
}

/// What reading a key-exchange-init message comes to: its fields and the
/// unread rest of the stream, or the error that ended the parse.
pub enum KexParse {
    Msg { cookie: Seq<u8>, algs: AlgorithmLists, follow: bool, rest: Seq<u8> },
    Fail { err: BsshError, rest: Seq<u8> },
}

/// What reading one name list with the default ceiling comes to: the names
/// and the unread rest, or the error and where the reader stood when it
/// arose.
pub open spec fn spec_read_name_list(s: Seq<u8>) -> Result<
    (Seq<Seq<char>>, Seq<u8>),
    (BsshError, Seq<u8>),
> {
    if s.len() < 4 {
        Err((BsshError::ConnectionEndedUnexpectedly, s))
    } else {
        let len = be_nat(s.take(4));
        if len > MAX_BUFFER_LENGTH as nat {
            Err((BsshError::BufferCapacityExceeded, s.skip(4)))
        } else if s.len() < 4 + len {
            Err((BsshError::ConnectionEndedUnexpectedly, s.skip(4)))
        } else {
            let payload = s.subrange(4, 4 + len as int);
            let parts = spec_split_names(payload);
            if len == 0 {
                Ok((Seq::empty(), s.skip(4 + len as int)))
            } else if !spec_name_list_ok(parts) {
                Err((BsshError::MalformedNameList, s.skip(4 + len as int)))
            } else {
                Ok(
                    (
                        parts.map_values(|p: Seq<u8>| vstd::utf8::decode_utf8(p)),
                        s.skip(4 + len as int),
                    ),
                )
            }
        }
    }
}

/// A name the wire can carry faithfully: nonempty and free of commas, as
/// the capability-set invariant demands of algorithm names.
pub open spec fn spec_name_wire_safe(name: Seq<char>) -> bool {
    name.len() > 0 && forall|i: int| 0 <= i < name.len() ==> (#[trigger] name[i]) != ','
}

/// Every name of the list is wire-safe.
pub open spec fn spec_names_wire_safe(names: Seq<Seq<char>>) -> bool {
    forall|k: int| 0 <= k < names.len() ==> spec_name_wire_safe(#[trigger] names[k])
}

/// Law: a written name list parses back to exactly the names that were
/// written, leaving the rest of the stream unread — for every list of
/// wire-safe names that fits under the read ceiling.
pub proof fn lemma_name_list_round_trip(names: Seq<Seq<char>>, rest: Seq<u8>)
    requires
        spec_names_wire_safe(names),
        spec_name_list_bytes(names).len() <= MAX_BUFFER_LENGTH,
    ensures
        spec_read_name_list(spec_string_enc(spec_name_list_bytes(names)) + rest) == Ok::<
            (Seq<Seq<char>>, Seq<u8>),
            (BsshError, Seq<u8>),
        >((names, rest)),
{
    let payload = spec_name_list_bytes(names);
    let s = spec_string_enc(payload) + rest;
    crate::be::lemma_be_pad_len(payload.len(), 4);
    assert(s.take(4) =~= crate::be::be_pad(payload.len(), 4));
    assert(crate::be::pow256(4) == 0x100000000) by {
        reveal_with_fuel(crate::be::pow256, 5);
    }
    crate::be::lemma_be_nat_be_pad(payload.len(), 4);
    assert(s.subrange(4, 4 + payload.len() as int) =~= payload);
    assert(s.skip(4 + payload.len() as int) =~= rest);
    let parts = names.map_values(|n: Seq<char>| vstd::utf8::encode_utf8(n));
    if names.len() == 0 {
        assert(parts =~= Seq::<Seq<u8>>::empty());
        assert(payload =~= Seq::<u8>::empty());
        assert(Seq::<Seq<char>>::empty() =~= names);
    } else {
        assert forall|k: int| 0 <= k < parts.len() implies (#[trigger] parts[k]).len() > 0 && (
        forall|j: int| 0 <= j < parts[k].len() ==> parts[k][j] != NAME_SEPARATOR)
            && vstd::utf8::valid_utf8(parts[k]) by {
            assert(parts[k] == vstd::utf8::encode_utf8(names[k]));
            lemma_encode_utf8_no_comma(names[k]);
            vstd::utf8::encode_utf8_valid_utf8(names[k]);
        }
        assert(forall|k: int, j: int|
            0 <= k < parts.len() && 0 <= j < parts[k].len() ==> (#[trigger] parts[k][j])
                != NAME_SEPARATOR);
        lemma_split_join_names(parts);
        assert(payload.len() > 0) by {
            if parts.len() == 1 {
                assert(payload == parts[0]);
            } else {
                assert(payload == parts[0] + seq![NAME_SEPARATOR] + spec_join_names(
                    parts.skip(1),
                ));
            }
        }
        assert(spec_name_list_ok(parts));
        assert(parts.map_values(|p: Seq<u8>| vstd::utf8::decode_utf8(p)) =~= names) by {
            assert forall|k: int| 0 <= k < names.len() implies parts.map_values(
                |p: Seq<u8>| vstd::utf8::decode_utf8(p),
            )[k] == names[k] by {
                vstd::utf8::encode_utf8_decode_utf8(names[k]);
            }
        }
    }
}

/// What reading a key-exchange-init message from the stream `s` comes to.
pub open spec fn spec_read_kex_init(s: Seq<u8>) -> KexParse {
    if s.len() == 0 {
        KexParse::Fail { err: BsshError::ConnectionEndedUnexpectedly, rest: s }
    } else if s[0] != SSH_MSG_KEXINIT {
        KexParse::Fail { err: BsshError::ExpectedKexMsgInit, rest: s.skip(1) }
    } else if s.skip(1).len() < 16 {
        KexParse::Fail { err: BsshError::ConnectionEndedUnexpectedly, rest: s.skip(1) }
    } else {
        let cookie = s.skip(1).take(16);
        match spec_read_name_list(s.skip(1).skip(16)) {
            Err((e, r)) => KexParse::Fail { err: e, rest: r },
            Ok((kex_algorithms, s2)) => match spec_read_name_list(s2) {
                Err((e, r)) => KexParse::Fail { err: e, rest: r },
                Ok((server_host_key_algorithms, s3)) => match spec_read_name_list(s3) {
                    Err((e, r)) => KexParse::Fail { err: e, rest: r },
                    Ok((encryption_algorithms_client_to_server, s4)) => match spec_read_name_list(
                        s4,
                    ) {
                        Err((e, r)) => KexParse::Fail { err: e, rest: r },
                        Ok((encryption_algorithms_server_to_client, s5)) => match
                            spec_read_name_list(s5) {
                            Err((e, r)) => KexParse::Fail { err: e, rest: r },
                            Ok((mac_algorithms_client_to_server, s6)) => match spec_read_name_list(
                                s6,
                            ) {
                                Err((e, r)) => KexParse::Fail { err: e, rest: r },
                                Ok((mac_algorithms_server_to_client, s7)) => match
                                    spec_read_name_list(s7) {
                                    Err((e, r)) => KexParse::Fail { err: e, rest: r },
                                    Ok((compression_algorithms_client_to_server, s8)) => match
                                        spec_read_name_list(s8) {
                                        Err((e, r)) => KexParse::Fail { err: e, rest: r },
                                        Ok((compression_algorithms_server_to_client, s9)) => match
                                            spec_read_name_list(s9) {
                                            Err((e, r)) => KexParse::Fail { err: e, rest: r },
                                            Ok((languages_client_to_server, s10)) => match
                                                spec_read_name_list(s10) {
                                                Err((e, r)) => KexParse::Fail { err: e, rest: r },
                                                Ok((languages_server_to_client, s11)) => {
                                                    if s11.len() == 0 {
                                                        KexParse::Fail {
                                                            err:
                                                                BsshError::ConnectionEndedUnexpectedly,
                                                            rest: s11,
                                                        }
                                                    } else {
                                                        let follow = s11[0] != 0;
                                                        let s12 = s11.skip(1);
                                                        if s12.len() < 4 {
                                                            KexParse::Fail {
                                                                err:
                                                                    BsshError::ConnectionEndedUnexpectedly,
                                                                rest: s12,
                                                            }
                                                        } else if s12[0] != 0 || s12[1] != 0
                                                            || s12[2] != 0 || s12[3] != 0 {
                                                            KexParse::Fail {
                                                                err: BsshError::ExpectedZeroU32,
                                                                rest: s12.skip(4),
                                                            }
                                                        } else {
                                                            KexParse::Msg {
                                                                cookie,
                                                                algs: AlgorithmLists {
                                                                    kex_algorithms,
                                                                    server_host_key_algorithms,
                                                                    encryption_algorithms_client_to_server,
                                                                    encryption_algorithms_server_to_client,
                                                                    mac_algorithms_client_to_server,
                                                                    mac_algorithms_server_to_client,
                                                                    compression_algorithms_client_to_server,
                                                                    compression_algorithms_server_to_client,
                                                                    languages_client_to_server,
                                                                    languages_server_to_client,
                                                                },
                                                                follow,
                                                                rest: s12.skip(4),
                                                            }
                                                        }
                                                    }
                                                },
                                            },
                                        },
                                    },
                                },
                            },
                        },
                    },
                },
            },
        }
    }
}

/// Every category's names are wire-safe and its list fits under the read
/// ceiling: what it takes for a capability set to survive the wire intact.
pub open spec fn spec_lists_wire_safe(algs: AlgorithmLists) -> bool {
    &&& spec_names_wire_safe(algs.kex_algorithms) && spec_name_list_bytes(
        algs.kex_algorithms,
    ).len() <= MAX_BUFFER_LENGTH
    &&& spec_names_wire_safe(algs.server_host_key_algorithms) && spec_name_list_bytes(
        algs.server_host_key_algorithms,
    ).len() <= MAX_BUFFER_LENGTH
    &&& spec_names_wire_safe(algs.encryption_algorithms_client_to_server) && spec_name_list_bytes(
        algs.encryption_algorithms_client_to_server,
    ).len() <= MAX_BUFFER_LENGTH
    &&& spec_names_wire_safe(algs.encryption_algorithms_server_to_client) && spec_name_list_bytes(
        algs.encryption_algorithms_server_to_client,
    ).len() <= MAX_BUFFER_LENGTH
    &&& spec_names_wire_safe(algs.mac_algorithms_client_to_server) && spec_name_list_bytes(
        algs.mac_algorithms_client_to_server,
    ).len() <= MAX_BUFFER_LENGTH
    &&& spec_names_wire_safe(algs.mac_algorithms_server_to_client) && spec_name_list_bytes(
        algs.mac_algorithms_server_to_client,
    ).len() <= MAX_BUFFER_LENGTH
    &&& spec_names_wire_safe(algs.compression_algorithms_client_to_server)
        && spec_name_list_bytes(algs.compression_algorithms_client_to_server).len()
        <= MAX_BUFFER_LENGTH
    &&& spec_names_wire_safe(algs.compression_algorithms_server_to_client)
        && spec_name_list_bytes(algs.compression_algorithms_server_to_client).len()
        <= MAX_BUFFER_LENGTH
    &&& spec_names_wire_safe(algs.languages_client_to_server) && spec_name_list_bytes(
        algs.languages_client_to_server,
    ).len() <= MAX_BUFFER_LENGTH
    &&& spec_names_wire_safe(algs.languages_server_to_client) && spec_name_list_bytes(
        algs.languages_server_to_client,
    ).len() <= MAX_BUFFER_LENGTH
}

/// Law: a written key-exchange-init payload parses back to exactly the
/// cookie, capability set and flag that were written, leaving the rest of
/// the stream unread — for every 16-byte cookie and every wire-safe
/// capability set.
#[verifier::rlimit(100)]
pub proof fn lemma_kex_init_round_trip(
    cookie: Seq<u8>,
    algs: AlgorithmLists,
    follow: bool,
    rest: Seq<u8>,
)
    requires
        cookie.len() == 16,
        spec_lists_wire_safe(algs),
    ensures
        spec_read_kex_init(spec_kex_payload(cookie, algs, follow) + rest) == (KexParse::Msg {
            cookie,
            algs,
            follow,
            rest,
        }),
{
    let e1 = spec_string_enc(spec_name_list_bytes(algs.kex_algorithms));
    let e2 = spec_string_enc(spec_name_list_bytes(algs.server_host_key_algorithms));
    let e3 = spec_string_enc(spec_name_list_bytes(algs.encryption_algorithms_client_to_server));
    let e4 = spec_string_enc(spec_name_list_bytes(algs.encryption_algorithms_server_to_client));
    let e5 = spec_string_enc(spec_name_list_bytes(algs.mac_algorithms_client_to_server));
    let e6 = spec_string_enc(spec_name_list_bytes(algs.mac_algorithms_server_to_client));
    let e7 = spec_string_enc(spec_name_list_bytes(algs.compression_algorithms_client_to_server));
    let e8 = spec_string_enc(spec_name_list_bytes(algs.compression_algorithms_server_to_client));
    let e9 = spec_string_enc(spec_name_list_bytes(algs.languages_client_to_server));
    let e10 = spec_string_enc(spec_name_list_bytes(algs.languages_server_to_client));
    let flag = seq![
        if follow {
            1u8
        } else {
            0u8
        },
    ];
    let zeros = seq![0u8, 0u8, 0u8, 0u8];
    let l0 = seq![SSH_MSG_KEXINIT];
    let l1 = l0 + cookie;
    let l2 = l1 + e1;
    let l3 = l2 + e2;
    let l4 = l3 + e3;
    let l5 = l4 + e4;
    let l6 = l5 + e5;
    let l7 = l6 + e6;
    let l8 = l7 + e7;
    let l9 = l8 + e8;
    let l10 = l9 + e9;
    let l11 = l10 + e10;
    let l12 = l11 + flag;
    let s = spec_kex_payload(cookie, algs, follow) + rest;
    assert(s == (l12 + zeros) + rest);
    let t_zeros = zeros + rest;
    let t_flag = flag + t_zeros;
    let t10 = e10 + t_flag;
    let t9 = e9 + t10;
    let t8 = e8 + t9;
    let t7 = e7 + t8;
    let t6 = e6 + t7;
    let t5 = e5 + t6;
    let t4 = e4 + t5;
    let t3 = e3 + t4;
    let t2 = e2 + t3;
    let t1 = e1 + t2;
    vstd::seq_lib::lemma_concat_associative(l12, zeros, rest);
    vstd::seq_lib::lemma_concat_associative(l11, flag, t_zeros);
    vstd::seq_lib::lemma_concat_associative(l10, e10, t_flag);
    vstd::seq_lib::lemma_concat_associative(l9, e9, t10);
    vstd::seq_lib::lemma_concat_associative(l8, e8, t9);
    vstd::seq_lib::lemma_concat_associative(l7, e7, t8);
    vstd::seq_lib::lemma_concat_associative(l6, e6, t7);
    vstd::seq_lib::lemma_concat_associative(l5, e5, t6);
    vstd::seq_lib::lemma_concat_associative(l4, e4, t5);
    vstd::seq_lib::lemma_concat_associative(l3, e3, t4);
    vstd::seq_lib::lemma_concat_associative(l2, e2, t3);
    vstd::seq_lib::lemma_concat_associative(l1, e1, t2);
    vstd::seq_lib::lemma_concat_associative(l0, cookie, t1);
    assert(s == l0 + (cookie + t1));
    assert(s.len() > 0 && s[0] == SSH_MSG_KEXINIT);
    assert(s.skip(1) =~= cookie + t1);
    assert(s.skip(1).len() >= 16);
    assert(s.skip(1).take(16) =~= cookie);
    assert(s.skip(1).skip(16) =~= t1);
    lemma_name_list_round_trip(algs.kex_algorithms, t2);
    lemma_name_list_round_trip(algs.server_host_key_algorithms, t3);
    lemma_name_list_round_trip(algs.encryption_algorithms_client_to_server, t4);
    lemma_name_list_round_trip(algs.encryption_algorithms_server_to_client, t5);
    lemma_name_list_round_trip(algs.mac_algorithms_client_to_server, t6);
    lemma_name_list_round_trip(algs.mac_algorithms_server_to_client, t7);
    lemma_name_list_round_trip(algs.compression_algorithms_client_to_server, t8);
    lemma_name_list_round_trip(algs.compression_algorithms_server_to_client, t9);
    lemma_name_list_round_trip(algs.languages_client_to_server, t10);
    lemma_name_list_round_trip(algs.languages_server_to_client, t_flag);
    assert(t_flag.len() > 0 && t_flag[0] == flag[0]);
    assert((t_flag[0] != 0) == follow);
    assert(t_flag.skip(1) =~= t_zeros);
    assert(t_zeros.len() >= 4);
    assert(t_zeros[0] == 0 && t_zeros[1] == 0 && t_zeros[2] == 0 && t_zeros[3] == 0);
    assert(t_zeros.skip(4) =~= rest);
    assert(algs == (AlgorithmLists {
        kex_algorithms: algs.kex_algorithms,
        server_host_key_algorithms: algs.server_host_key_algorithms,
        encryption_algorithms_client_to_server: algs.encryption_algorithms_client_to_server,
        encryption_algorithms_server_to_client: algs.encryption_algorithms_server_to_client,
        mac_algorithms_client_to_server: algs.mac_algorithms_client_to_server,
        mac_algorithms_server_to_client: algs.mac_algorithms_server_to_client,
        compression_algorithms_client_to_server: algs.compression_algorithms_client_to_server,
        compression_algorithms_server_to_client: algs.compression_algorithms_server_to_client,
        languages_client_to_server: algs.languages_client_to_server,
        languages_server_to_client: algs.languages_server_to_client,
    }));
}

/// Read one name list with the default ceiling.
fn read_name_list_default(stream: &mut ByteReader) -> (r: Result<Vec<String>, BsshError>)
    ensures
        ({
            match spec_read_name_list(old(stream).remaining()) {
                Ok((names, rest)) => (match r {
                    Ok(v) => v.deep_view() == names && final(stream).remaining() == rest,
                    Err(_) => false,
                }),
                Err((e, rest)) => r == Err::<Vec<String>, BsshError>(e)
                    && final(stream).remaining() == rest,
            }
        }),
{
    let r = read_name_list(stream, None);
    proof {
        let rem = old(stream).remaining();
        let len = be_nat(rem.take(4));
        if rem.len() >= 4 && len <= MAX_BUFFER_LENGTH as nat && rem.len() >= 4 + len && len == 0 {
            match r {
                Ok(ref v) => {
                    assert(v.deep_view() =~= Seq::<Seq<char>>::empty());
                },
                Err(_) => {},
            }
        }
    }
    r
}

/// Read a key-exchange-init message: the tag byte, the 16-byte cookie, the
/// ten name lists in their fixed order, the follow flag, and four reserved
/// bytes that must be zero.
#[verifier::rlimit(50)]
pub fn read_kex_init_message(stream: &mut ByteReader) -> (r: Result<KexMessage, BsshError>)
    ensures
        ({
            match spec_read_kex_init(old(stream).remaining()) {
                KexParse::Msg { cookie, algs, follow, rest } => (match r {
                    Ok(msg) => msg.cookie@ == cookie && spec_set_lists(msg.available_algorithm_set)
                        == algs && msg.first_kex_packet_follows == follow
                        && final(stream).remaining() == rest,
                    Err(_) => false,
                }),
                KexParse::Fail { err, rest } => r == Err::<KexMessage, BsshError>(err)
                    && final(stream).remaining() == rest,
            }
        }),
{
    let ghost s = old(stream).remaining();
    let tag = match stream.read_byte() {
        Ok(t) => t,
        Err(e) => {
            return Err(e);
        },
    };
    if tag != SSH_MSG_KEXINIT {
        return Err(BsshError::ExpectedKexMsgInit);
    }
    let cookie_vec = match stream.read_exact(16) {
        Ok(v) => v,
        Err(e) => {
            return Err(e);
        },
    };
    let cookie: [u8; 16] = [
        cookie_vec[0],
        cookie_vec[1],
        cookie_vec[2],
        cookie_vec[3],
        cookie_vec[4],
        cookie_vec[5],
        cookie_vec[6],
        cookie_vec[7],
        cookie_vec[8],
        cookie_vec[9],
        cookie_vec[10],
        cookie_vec[11],
        cookie_vec[12],
        cookie_vec[13],
        cookie_vec[14],
        cookie_vec[15],
    ];
    proof {
        assert(cookie@ =~= s.skip(1).take(16));
    }
    let kex_algorithms = match read_name_list_default(stream) {
        Ok(v) => v,
        Err(e) => {
            return Err(e);
        },
    };
    let server_host_key_algorithms = match read_name_list_default(stream) {
        Ok(v) => v,
        Err(e) => {
            return Err(e);
        },
    };
    let encryption_algorithms_client_to_server = match read_name_list_default(stream) {
        Ok(v) => v,
        Err(e) => {
            return Err(e);
        },
    };
    let encryption_algorithms_server_to_client = match read_name_list_default(stream) {
        Ok(v) => v,
        Err(e) => {
            return Err(e);
        },
    };
    let mac_algorithms_client_to_server = match read_name_list_default(stream) {
        Ok(v) => v,
        Err(e) => {
            return Err(e);
        },
    };
    let mac_algorithms_server_to_client = match read_name_list_default(stream) {
        Ok(v) => v,
        Err(e) => {
            return Err(e);
        },
    };
    let compression_algorithms_client_to_server = match read_name_list_default(stream) {
        Ok(v) => v,
        Err(e) => {
            return Err(e);
        },
    };
    let compression_algorithms_server_to_client = match read_name_list_default(stream) {
        Ok(v) => v,
        Err(e) => {
            return Err(e);
        },
    };
    let languages_client_to_server = match read_name_list_default(stream) {
        Ok(v) => v,
        Err(e) => {
            return Err(e);
        },
    };
    let languages_server_to_client = match read_name_list_default(stream) {
        Ok(v) => v,
        Err(e) => {
            return Err(e);
        },
    };
    let first_kex_packet_follows = match read_boolean(stream) {
        Ok(v) => v,
        Err(e) => {
            return Err(e);
        },
    };
    let reserved = match stream.read_exact(4) {
        Ok(v) => v,
        Err(e) => {
            return Err(e);
        },
    };
    if reserved[0] != 0 || reserved[1] != 0 || reserved[2] != 0 || reserved[3] != 0 {
        return Err(BsshError::ExpectedZeroU32);
    }
    let kex_message = KexMessage {
        cookie,
        available_algorithm_set: AvailableAlgorithmSet {
            kex_algorithms,
            server_host_key_algorithms,
            encryption_algorithms_client_to_server,
            encryption_algorithms_server_to_client,
            mac_algorithms_client_to_server,
            mac_algorithms_server_to_client,
            compression_algorithms_client_to_server,
            compression_algorithms_server_to_client,
            languages_client_to_server,
            languages_server_to_client,
        },
        first_kex_packet_follows,
    };
    Ok(kex_message)
}

} // verus!
