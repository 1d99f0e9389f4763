//! The KEXINIT message codec: the payload carried inside a binary packet
//! when negotiation begins. One message tag byte, sixteen cookie bytes, ten
//! comma-separated algorithm-name lists (each behind a 4-byte big-endian
//! length), one `first_kex_follows` byte and four reserved bytes.

use vstd::prelude::*;
use vstd::string::StrSliceExecFns;
use vstd::utf8::{decode_utf8, encode_scalar, encode_utf8, has_width_1_encoding, valid_utf8};

use crate::errors::VersionExchangeError;
use crate::message::SshMessageID;
use crate::text::string_from_utf8;
use crate::wire::{be32, be32_bytes, u32_from_be, u32_to_be};

verus! {

/// The algorithm negotiation message.
#[derive(Debug, Clone)]
pub struct KeyExchange {
    pub message_id: SshMessageID,
    pub cookie: [u8; 16],
    pub kex_algorithms: Vec<String>,
    pub host_key_algorithms: Vec<String>,
    pub ciphers_ctos: Vec<String>,
    pub ciphers_stoc: Vec<String>,
    pub macs_ctos: Vec<String>,
    pub macs_stoc: Vec<String>,
    pub compression_ctos: Vec<String>,
    pub compression_stoc: Vec<String>,
    pub languages_ctos: Vec<String>,
    pub languages_stoc: Vec<String>,
    pub first_kex_follows: bool,
    pub reserved: u32,
}

/// The UTF-8 bytes of each name in a list.
pub open spec fn names_bytes(v: Seq<String>) -> Seq<Seq<u8>> {
    Seq::new(v.len(), |i: int| encode_utf8(v[i]@))
}

/// The comma-joined form of a list of byte names: the names in order, one
/// comma byte between neighbours, nothing else.
pub open spec fn spec_joined(names: Seq<Seq<u8>>) -> Seq<u8>
    decreases names.len(),
{
    if names.len() == 0 {
        Seq::empty()
    } else if names.len() == 1 {
        names[0]
    } else {
        names[0] + seq![44u8] + spec_joined(names.skip(1))
    }
}

/// The wire form of one algorithm-name section: a 4-byte big-endian length
/// followed by the comma-joined names. An empty list is exactly four zero
/// bytes.
pub open spec fn spec_section(names: Seq<Seq<u8>>) -> Seq<u8> {
    be32_bytes(spec_joined(names).len() as u32) + spec_joined(names)
}

/// Splits section bytes at commas with `cur` the token being accumulated;
/// empty tokens are dropped.
pub open spec fn spec_split_acc(s: Seq<u8>, cur: Seq<u8>) -> Seq<Seq<u8>>
    decreases s.len(),
{
    if s.len() == 0 {
        if cur.len() == 0 {
            Seq::empty()
        } else {
            seq![cur]
        }
    } else if s[0] == 44 {
        if cur.len() == 0 {
            spec_split_acc(s.skip(1), Seq::empty())
        } else {
            seq![cur] + spec_split_acc(s.skip(1), Seq::empty())
        }
    } else {
        spec_split_acc(s.skip(1), cur.push(s[0]))
    }
}

/// The tokens of a section body: comma-separated, empties dropped.
pub open spec fn spec_tokens(s: Seq<u8>) -> Seq<Seq<u8>> {
    spec_split_acc(s, Seq::empty())
}

/// A 4-byte length field can be read at `off`.
pub open spec fn section_readable(bytes: Seq<u8>, off: int) -> bool {
    off + 4 <= bytes.len()
}

/// The length the field at `off` declares.
pub open spec fn section_len(bytes: Seq<u8>, off: int) -> int {
    be32(bytes.subrange(off, off + 4))
}

/// The declared section stays inside the buffer.
pub open spec fn section_fits(bytes: Seq<u8>, off: int) -> bool {
    off + 4 + section_len(bytes, off) <= bytes.len()
}

/// The body of the section at `off`.
pub open spec fn section_body(bytes: Seq<u8>, off: int) -> Seq<u8> {
    bytes.subrange(off + 4, off + 4 + section_len(bytes, off))
}

/// The tokens of the section at `off`.
pub open spec fn section_tokens(bytes: Seq<u8>, off: int) -> Seq<Seq<u8>> {
    spec_tokens(section_body(bytes, off))
}

/// Where the section at `off` ends.
pub open spec fn section_end(bytes: Seq<u8>, off: int) -> int {
    off + 4 + section_len(bytes, off)
}

/// Every token is valid UTF-8.
pub open spec fn tokens_valid_utf8(toks: Seq<Seq<u8>>) -> bool {
    forall|i: int| 0 <= i < toks.len() ==> valid_utf8(toks[i])
}

/// The section at `off` parses without error.
pub open spec fn section_ok(bytes: Seq<u8>, off: int) -> bool {
    &&& section_readable(bytes, off)
    &&& section_fits(bytes, off)
    &&& tokens_valid_utf8(section_tokens(bytes, off))
}

/// The error the section parser reports at `off`, in check order.
pub open spec fn section_error(bytes: Seq<u8>, off: int) -> VersionExchangeError {
    if !section_readable(bytes, off) {
        VersionExchangeError::OffsetOutOfRange("Offset value is out of range during decoding BPP")
    } else if !section_fits(bytes, off) {
        VersionExchangeError::OffsetOutOfRange(
            "The calculated section length exceeds the buffer size",
        )
    } else {
        VersionExchangeError::InvalidString("Read string is incorrect")
    }
}

/// `a` and `b` are the same error: same kind, same diagnostic text.
pub open spec fn same_vx_error(a: VersionExchangeError, b: VersionExchangeError) -> bool {
    match (a, b) {
        (
            VersionExchangeError::InvalidProtoVersion(x),
            VersionExchangeError::InvalidProtoVersion(y),
        ) => x@ == y@,
        (VersionExchangeError::InvalidString(x), VersionExchangeError::InvalidString(y)) => x@
            == y@,
        (
            VersionExchangeError::InvalidSshMsgFormat(x),
            VersionExchangeError::InvalidSshMsgFormat(y),
        ) => x@ == y@,
        (VersionExchangeError::EmptyStream(x), VersionExchangeError::EmptyStream(y)) => x@ == y@,
        (VersionExchangeError::OffsetOutOfRange(x), VersionExchangeError::OffsetOutOfRange(y)) =>
            x@ == y@,
        _ => false,
    }
}

/// A decoded list equals the tokens it came from, name by name.
pub open spec fn list_matches(v: Seq<String>, toks: Seq<Seq<u8>>) -> bool {
    &&& v.len() == toks.len()
    &&& forall|i: int| 0 <= i < toks.len() ==> v[i]@ == decode_utf8(toks[i])
}

/// Where section number `k` starts when the sections before it parsed.
pub open spec fn section_offset(bytes: Seq<u8>, k: nat) -> int
    decreases k,
{
    if k == 0 {
        17
    } else {
        section_end(bytes, section_offset(bytes, (k - 1) as nat))
    }
}

/// The tokens of section number `k`.
pub open spec fn section_tokens_at(bytes: Seq<u8>, k: nat) -> Seq<Seq<u8>> {
    section_tokens(bytes, section_offset(bytes, k))
}

/// The error of the first failing section among the `n` sections starting
/// at `off`, or `None` when all of them parse.
pub open spec fn spec_kex_error(bytes: Seq<u8>, off: int, n: nat) -> Option<VersionExchangeError>
    decreases n,
{
    if n == 0 {
        None
    } else if !section_ok(bytes, off) {
        Some(section_error(bytes, off))
    } else {
        spec_kex_error(bytes, section_end(bytes, off), (n - 1) as nat)
    }
}

impl KeyExchange {
    /// Reads one algorithm-name section at `*offset`: a 4-byte big-endian
    /// length, then that many bytes split at commas into UTF-8 names, empty
    /// names dropped. On success `*offset` moves to the end of the section.
    pub fn bytes_to_vec_string(section_bytes: &[u8], offset: &mut usize) -> (r: Result<
        Vec<String>,
        VersionExchangeError,
    >)
        ensures
            !section_readable(section_bytes@, *old(offset) as int) ==> (r matches Err(
                VersionExchangeError::OffsetOutOfRange(m),
            ) && m@ == "Offset value is out of range during decoding BPP"@ && *final(offset)
                == *old(offset)),
            section_readable(section_bytes@, *old(offset) as int) && !section_fits(
                section_bytes@,
                *old(offset) as int,
            ) ==> (r matches Err(VersionExchangeError::OffsetOutOfRange(m)) && m@
                == "The calculated section length exceeds the buffer size"@ && *final(offset)
                == *old(offset) + 4),
            section_readable(section_bytes@, *old(offset) as int) && section_fits(
                section_bytes@,
                *old(offset) as int,
            ) && !tokens_valid_utf8(section_tokens(section_bytes@, *old(offset) as int)) ==> (
            r matches Err(VersionExchangeError::InvalidString(m)) && m@
                == "Read string is incorrect"@ && *final(offset) == *old(offset) + 4),
            section_readable(section_bytes@, *old(offset) as int) && section_fits(
                section_bytes@,
                *old(offset) as int,
            ) && tokens_valid_utf8(section_tokens(section_bytes@, *old(offset) as int)) ==> (
            r matches Ok(v) && *final(offset) == section_end(section_bytes@, *old(offset) as int)
                && list_matches(v@, section_tokens(section_bytes@, *old(offset) as int))),
    {
        let ghost b = section_bytes@;
        let ghost off0 = *offset as int;
        let len = section_bytes.len();
        if len < 4 || *offset > len - 4 {
            return Err(
                VersionExchangeError::OffsetOutOfRange(
                    "Offset value is out of range during decoding BPP",
                ),
            );
        }
        let b0 = *vstd::slice::slice_index_get(section_bytes, *offset);
        let b1 = *vstd::slice::slice_index_get(section_bytes, *offset + 1);
        let b2 = *vstd::slice::slice_index_get(section_bytes, *offset + 2);
        let b3 = *vstd::slice::slice_index_get(section_bytes, *offset + 3);
        let sec_len_u32 = u32_from_be(b0, b1, b2, b3);
        proof {
            assert(seq![b0, b1, b2, b3] =~= b.subrange(off0, off0 + 4));
            crate::wire::lemma_be32_bounds(b.subrange(off0, off0 + 4));
        }
        *offset = *offset + 4;
        let sec_len = sec_len_u32 as usize;
        if sec_len > len - *offset {
            return Err(
                VersionExchangeError::OffsetOutOfRange(
                    "The calculated section length exceeds the buffer size",
                ),
            );
        }
        let sec_end = *offset + sec_len;
        let ghost body = section_body(b, off0);
        proof {
            assert(body =~= b.subrange(off0 + 4, off0 + 4 + sec_len as int));
        }
        let mut result: Vec<String> = Vec::new();
        let mut current: Vec<u8> = Vec::new();
        let ghost mut toks_done: Seq<Seq<u8>> = Seq::empty();
        let mut i = *offset;
        proof {
            assert(body.skip(0) =~= body);
            assert(toks_done + spec_split_acc(body, Seq::empty()) =~= spec_split_acc(
                body,
                Seq::empty(),
            ));
        }
        while i < sec_end
            invariant
                b == section_bytes@,
                off0 == *old(offset) as int,
                *offset == off0 + 4,
                section_readable(b, off0),
                section_fits(b, off0),
                off0 + 4 <= i <= sec_end <= b.len(),
                sec_end == off0 + 4 + section_len(b, off0),
                body == section_body(b, off0),
                toks_done.len() == result@.len(),
                forall|k: int| 0 <= k < toks_done.len() ==> valid_utf8(#[trigger] toks_done[k]),
                forall|k: int|
                    0 <= k < toks_done.len() ==> result@[k]@ == decode_utf8(#[trigger] toks_done[k]),
                spec_tokens(body) == toks_done + spec_split_acc(body.skip(i - (off0 + 4)), current@),
            decreases sec_end - i,
        {
            let ghost rest = body.skip(i - (off0 + 4));
            proof {
                assert(rest.len() > 0);
                assert(rest[0] == b[i as int]);
                assert(rest.skip(1) =~= body.skip(i + 1 - (off0 + 4)));
            }
            let byte = *vstd::slice::slice_index_get(section_bytes, i);
            if byte == 44 {
                if current.len() == 0 {
                    proof {
                        assert(current@ =~= Seq::<u8>::empty());
                        assert(spec_split_acc(rest, current@) == spec_split_acc(
                            rest.skip(1),
                            current@,
                        ));
                    }
                } else {
                    let cur = current;
                    current = Vec::new();
                    match string_from_utf8(cur) {
                        Some(s) => {
                            result.push(s);
                            proof {
                                assert(spec_split_acc(rest, cur@) =~= seq![cur@] + spec_split_acc(
                                    rest.skip(1),
                                    Seq::empty(),
                                ));
                                toks_done = toks_done.push(cur@);
                                assert(spec_tokens(body) =~= toks_done + spec_split_acc(
                                    rest.skip(1),
                                    Seq::empty(),
                                ));
                            }
                        },
                        None => {
                            proof {
                                assert(spec_tokens(body)[toks_done.len() as int] == cur@);
                                assert(!tokens_valid_utf8(section_tokens(b, off0)));
                            }
                            return Err(
                                VersionExchangeError::InvalidString("Read string is incorrect"),
                            );
                        },
                    }
                }
            } else {
                proof {
                    assert(spec_split_acc(rest, current@) == spec_split_acc(
                        rest.skip(1),
                        current@.push(byte),
                    ));
                }
                current.push(byte);
            }
            i = i + 1;
        }
        proof {
            assert(body.skip(i - (off0 + 4)).len() == 0);
            assert(body.skip(i - (off0 + 4)) =~= Seq::<u8>::empty());
        }
        if current.len() > 0 {
            let cur = current;
            match string_from_utf8(cur) {
                Some(s) => {
                    result.push(s);
                    proof {
                        assert(spec_tokens(body) =~= toks_done + seq![cur@]);
                        toks_done = toks_done.push(cur@);
                        assert(spec_tokens(body) =~= toks_done);
                    }
                },
                None => {
                    proof {
                        assert(spec_tokens(body)[toks_done.len() as int] == cur@);
                        assert(!tokens_valid_utf8(section_tokens(b, off0)));
                    }
                    return Err(VersionExchangeError::InvalidString("Read string is incorrect"));
                },
            }
        }
        *offset = sec_end;
        proof {
            assert(spec_tokens(body) == toks_done);
            assert(list_matches(result@, section_tokens(b, off0)));
        }
        Ok(result)
    }

    /// Serializes one algorithm-name list as its wire section: the 4-byte
    /// big-endian length of the comma-joined names, then those bytes. An
    /// empty list is exactly four zero bytes.
    pub fn vec_string_to_bytes(strings: &Vec<String>) -> (r: Vec<u8>)
        requires
            spec_joined(names_bytes(strings@)).len() <= u32::MAX,
        ensures
            r@ == spec_section(names_bytes(strings@)),
    {
        let ghost nbs = names_bytes(strings@);
        let n = strings.len();
        let mut joined: Vec<u8> = Vec::new();
        let mut i: usize = 0;
        proof {
            assert(joined@ =~= spec_joined(nbs.take(0)));
        }
        while i < n
            invariant
                nbs == names_bytes(strings@),
                spec_joined(nbs).len() <= u32::MAX,
                i <= n == strings@.len(),
                joined@ == spec_joined(nbs.take(i as int)),
            decreases n - i,
        {
            if i > 0 {
                joined.push(44);
            }
            let mut nb = strings[i].as_str().as_bytes_vec();
            joined.append(&mut nb);
            proof {
                if i > 0 {
                    assert(nbs.take(i as int).push(nbs[i as int]) =~= nbs.take(i + 1));
                    lemma_joined_push(nbs.take(i as int), nbs[i as int]);
                } else {
                    assert(nbs.take(1).len() == 1);
                    assert(joined@ =~= nbs.take(1)[0]);
                }
            }
            i = i + 1;
        }
        proof {
            assert(nbs.take(n as int) =~= nbs);
            crate::wire::lemma_be32_roundtrip(joined@.len() as u32);
        }
        let prefix_len = joined.len() as u32;
        let mut out = u32_to_be(prefix_len);
        out.append(&mut joined);
        proof {
            assert(out@ =~= spec_section(nbs));
        }
        out
    }
}

impl KeyExchange {
    /// Every list's comma-joined form fits its 4-byte length field.
    pub open spec fn spec_encodable(self) -> bool {
        &&& spec_joined(names_bytes(self.kex_algorithms@)).len() <= u32::MAX
        &&& spec_joined(names_bytes(self.host_key_algorithms@)).len() <= u32::MAX
        &&& spec_joined(names_bytes(self.ciphers_ctos@)).len() <= u32::MAX
        &&& spec_joined(names_bytes(self.ciphers_stoc@)).len() <= u32::MAX
        &&& spec_joined(names_bytes(self.macs_ctos@)).len() <= u32::MAX
        &&& spec_joined(names_bytes(self.macs_stoc@)).len() <= u32::MAX
        &&& spec_joined(names_bytes(self.compression_ctos@)).len() <= u32::MAX
        &&& spec_joined(names_bytes(self.compression_stoc@)).len() <= u32::MAX
        &&& spec_joined(names_bytes(self.languages_ctos@)).len() <= u32::MAX
        &&& spec_joined(names_bytes(self.languages_stoc@)).len() <= u32::MAX
    }

    /// The wire bytes of this message: tag, cookie, the ten sections in
    /// their fixed order, the `first_kex_follows` byte, and the reserved
    /// field.
    pub open spec fn spec_encoded(self) -> Seq<u8> {
        seq![20u8] + self.cookie@ + spec_section(names_bytes(self.kex_algorithms@)) + spec_section(
            names_bytes(self.host_key_algorithms@),
        ) + spec_section(names_bytes(self.ciphers_ctos@)) + spec_section(
            names_bytes(self.ciphers_stoc@),
        ) + spec_section(names_bytes(self.macs_ctos@)) + spec_section(
            names_bytes(self.macs_stoc@),
        ) + spec_section(names_bytes(self.compression_ctos@)) + spec_section(
            names_bytes(self.compression_stoc@),
        ) + spec_section(names_bytes(self.languages_ctos@)) + spec_section(
            names_bytes(self.languages_stoc@),
        ) + seq![
            if self.first_kex_follows {
                1u8
            } else {
                0u8
            },
        ] + be32_bytes(self.reserved)
    }

    /// Serializes the message for the wire, byte-exact per the layout in
    /// `spec_encoded`.
    pub fn to_be_bytes(&self) -> (r: Vec<u8>)
        requires
            self.spec_encodable(),
        ensures
            r@ == self.spec_encoded(),
    {
        let mut output: Vec<u8> = Vec::new();
        output.push(SshMessageID::KexInit.to_u8());
        output.extend_from_slice(self.cookie.as_slice());
        let mut s0 = Self::vec_string_to_bytes(&self.kex_algorithms);
        output.append(&mut s0);
        let mut s1 = Self::vec_string_to_bytes(&self.host_key_algorithms);
        output.append(&mut s1);
        let mut s2 = Self::vec_string_to_bytes(&self.ciphers_ctos);
        output.append(&mut s2);
        let mut s3 = Self::vec_string_to_bytes(&self.ciphers_stoc);
        output.append(&mut s3);
        let mut s4 = Self::vec_string_to_bytes(&self.macs_ctos);
        output.append(&mut s4);
        let mut s5 = Self::vec_string_to_bytes(&self.macs_stoc);
        output.append(&mut s5);
        let mut s6 = Self::vec_string_to_bytes(&self.compression_ctos);
        output.append(&mut s6);
        let mut s7 = Self::vec_string_to_bytes(&self.compression_stoc);
        output.append(&mut s7);
        let mut s8 = Self::vec_string_to_bytes(&self.languages_ctos);
        output.append(&mut s8);
        let mut s9 = Self::vec_string_to_bytes(&self.languages_stoc);
        output.append(&mut s9);
        output.push(if self.first_kex_follows { 1 } else { 0 });
        let mut rsv = u32_to_be(self.reserved);
        output.append(&mut rsv);
        proof {
            assert(output@ =~= self.spec_encoded());
        }
        output
    }

    /// Checks at run time that one list's comma-joined form fits its
    /// 4-byte length field.
    pub fn list_fits(strings: &Vec<String>) -> (ok: bool)
        ensures
            ok == (spec_joined(names_bytes(strings@)).len() <= u32::MAX),
    {
        let ghost nbs = names_bytes(strings@);
        let n = strings.len();
        let mut acc: u64 = 0;
        let mut i: usize = 0;
        proof {
            assert(nbs.take(0) =~= Seq::<Seq<u8>>::empty());
        }
        while i < n
            invariant
                nbs == names_bytes(strings@),
                i <= n == strings@.len(),
                acc == spec_joined(nbs.take(i as int)).len(),
                acc <= u32::MAX,
            decreases n - i,
        {
            let l = strings[i].as_str().as_bytes().len();
            proof {
                if i > 0 {
                    assert(nbs.take(i as int).push(nbs[i as int]) =~= nbs.take(i + 1));
                    lemma_joined_push(nbs.take(i as int), nbs[i as int]);
                } else {
                    assert(nbs.take(1).len() == 1);
                    assert(spec_joined(nbs.take(1)) == nbs.take(1)[0]);
                }
                lemma_joined_prefix_len(nbs, i + 1);
            }
            if l > u32::MAX as usize {
                return false;
            }
            let sep: u64 = if i > 0 {
                1
            } else {
                0
            };
            let next = acc + sep + l as u64;
            if next > u32::MAX as u64 {
                return false;
            }
            acc = next;
            i = i + 1;
        }
        proof {
            assert(nbs.take(n as int) =~= nbs);
        }
        true
    }

    /// Serializes the message after checking that each of its ten lists
    /// fits its length field, which `to_be_bytes` assumes; a message with
    /// an oversized list is refused instead.
    pub fn try_to_be_bytes(&self) -> (r: Option<Vec<u8>>)
        ensures
            r is Some <==> self.spec_encodable(),
            r matches Some(v) ==> v@ == self.spec_encoded(),
    {
        if Self::list_fits(&self.kex_algorithms) && Self::list_fits(&self.host_key_algorithms)
            && Self::list_fits(&self.ciphers_ctos) && Self::list_fits(&self.ciphers_stoc)
            && Self::list_fits(&self.macs_ctos) && Self::list_fits(&self.macs_stoc)
            && Self::list_fits(&self.compression_ctos) && Self::list_fits(&self.compression_stoc)
            && Self::list_fits(&self.languages_ctos) && Self::list_fits(&self.languages_stoc) {
            Some(self.to_be_bytes())
        } else {
            None
        }
    }

    /// Decodes a KEXINIT payload: the cookie is taken verbatim, the ten
    /// algorithm-name sections are parsed in their fixed order starting at
    /// offset 17, and the trailing `first_kex_follows` and reserved fields
    /// are left at their defaults rather than read back.
    pub fn from_bytes(bytes: &[u8]) -> (r: Result<KeyExchange, VersionExchangeError>)
        ensures
            spec_kex_error(bytes@, 17, 10) matches Some(e) ==> (r matches Err(a) && same_vx_error(
                a,
                e,
            )),
            spec_kex_error(bytes@, 17, 10) is None ==> (r matches Ok(kx) && {
                &&& kx.message_id == SshMessageID::KexInit
                &&& kx.cookie@ == bytes@.subrange(1, 17)
                &&& list_matches(kx.kex_algorithms@, section_tokens_at(bytes@, 0))
                &&& list_matches(kx.host_key_algorithms@, section_tokens_at(bytes@, 1))
                &&& list_matches(kx.ciphers_ctos@, section_tokens_at(bytes@, 2))
                &&& list_matches(kx.ciphers_stoc@, section_tokens_at(bytes@, 3))
                &&& list_matches(kx.macs_ctos@, section_tokens_at(bytes@, 4))
                &&& list_matches(kx.macs_stoc@, section_tokens_at(bytes@, 5))
                &&& list_matches(kx.compression_ctos@, section_tokens_at(bytes@, 6))
                &&& list_matches(kx.compression_stoc@, section_tokens_at(bytes@, 7))
                &&& list_matches(kx.languages_ctos@, section_tokens_at(bytes@, 8))
                &&& list_matches(kx.languages_stoc@, section_tokens_at(bytes@, 9))
                &&& kx.first_kex_follows == false
                &&& kx.reserved == 0
            }),
    {
        let ghost b = bytes@;
        let mut offset: usize = 17;
        proof {
            assert(section_offset(b, 0) == 17);
        }
        let kex_algorithms = match Self::bytes_to_vec_string(bytes, &mut offset) {
            Ok(v) => v,
            Err(e) => {
                proof {
                    kex_error_here(b, 0);
                }
                return Err(e);
            },
        };
        proof {
            kex_error_step(b, 0);
        }
        let host_key_algorithms = match Self::bytes_to_vec_string(bytes, &mut offset) {
            Ok(v) => v,
            Err(e) => {
                proof {
                    kex_error_here(b, 1);
                }
                return Err(e);
            },
        };
        proof {
            kex_error_step(b, 1);
        }
        let ciphers_ctos = match Self::bytes_to_vec_string(bytes, &mut offset) {
            Ok(v) => v,
            Err(e) => {
                proof {
                    kex_error_here(b, 2);
                }
                return Err(e);
            },
        };
        proof {
            kex_error_step(b, 2);
        }
        let ciphers_stoc = match Self::bytes_to_vec_string(bytes, &mut offset) {
            Ok(v) => v,
            Err(e) => {
                proof {
                    kex_error_here(b, 3);
                }
                return Err(e);
            },
        };
        proof {
            kex_error_step(b, 3);
        }
        let macs_ctos = match Self::bytes_to_vec_string(bytes, &mut offset) {
            Ok(v) => v,
            Err(e) => {
                proof {
                    kex_error_here(b, 4);
                }
                return Err(e);
            },
        };
        proof {
            kex_error_step(b, 4);
        }
        let macs_stoc = match Self::bytes_to_vec_string(bytes, &mut offset) {
            Ok(v) => v,
            Err(e) => {
                proof {
                    kex_error_here(b, 5);
                }
                return Err(e);
            },
        };
        proof {
            kex_error_step(b, 5);
        }
        let compression_ctos = match Self::bytes_to_vec_string(bytes, &mut offset) {
            Ok(v) => v,
            Err(e) => {
                proof {
                    kex_error_here(b, 6);
                }
                return Err(e);
            },
        };
        proof {
            kex_error_step(b, 6);
        }
        let compression_stoc = match Self::bytes_to_vec_string(bytes, &mut offset) {
            Ok(v) => v,
            Err(e) => {
                proof {
                    kex_error_here(b, 7);
                }
                return Err(e);
            },
        };
        proof {
            kex_error_step(b, 7);
        }
        let languages_ctos = match Self::bytes_to_vec_string(bytes, &mut offset) {
            Ok(v) => v,
            Err(e) => {
                proof {
                    kex_error_here(b, 8);
                }
                return Err(e);
            },
        };
        proof {
            kex_error_step(b, 8);
        }
        let languages_stoc = match Self::bytes_to_vec_string(bytes, &mut offset) {
            Ok(v) => v,
            Err(e) => {
                proof {
                    kex_error_here(b, 9);
                }
                return Err(e);
            },
        };
        proof {
            kex_error_step(b, 9);
        }
        let c0 = *vstd::slice::slice_index_get(bytes, 1);
        let c1 = *vstd::slice::slice_index_get(bytes, 2);
        let c2 = *vstd::slice::slice_index_get(bytes, 3);
        let c3 = *vstd::slice::slice_index_get(bytes, 4);
        let c4 = *vstd::slice::slice_index_get(bytes, 5);
        let c5 = *vstd::slice::slice_index_get(bytes, 6);
        let c6 = *vstd::slice::slice_index_get(bytes, 7);
        let c7 = *vstd::slice::slice_index_get(bytes, 8);
        let c8 = *vstd::slice::slice_index_get(bytes, 9);
        let c9 = *vstd::slice::slice_index_get(bytes, 10);
        let c10 = *vstd::slice::slice_index_get(bytes, 11);
        let c11 = *vstd::slice::slice_index_get(bytes, 12);
        let c12 = *vstd::slice::slice_index_get(bytes, 13);
        let c13 = *vstd::slice::slice_index_get(bytes, 14);
        let c14 = *vstd::slice::slice_index_get(bytes, 15);
        let c15 = *vstd::slice::slice_index_get(bytes, 16);
        let cookie = [c0, c1, c2, c3, c4, c5, c6, c7, c8, c9, c10, c11, c12, c13, c14, c15];
        proof {
            assert(cookie@ =~= b.subrange(1, 17));
        }
        Ok(
            KeyExchange {
                message_id: SshMessageID::KexInit,
                cookie,
                kex_algorithms,
                host_key_algorithms,
                ciphers_ctos,
                ciphers_stoc,
                macs_ctos,
                macs_stoc,
                compression_ctos,
                compression_stoc,
                languages_ctos,
                languages_stoc,
                first_kex_follows: false,
                reserved: 0,
            },
        )
    }
}

/// A failing section numbered `k` is the error the whole decode reports.
pub proof fn kex_error_here(b: Seq<u8>, k: nat)
    requires
        k < 10,
        !section_ok(b, section_offset(b, k)),
        spec_kex_error(b, 17, 10) == spec_kex_error(b, section_offset(b, k), (10 - k) as nat),
    ensures
        spec_kex_error(b, 17, 10) == Some(section_error(b, section_offset(b, k))),
{
}

/// A section numbered `k` that parses moves the decode on to section `k + 1`.
pub proof fn kex_error_step(b: Seq<u8>, k: nat)
    requires
        k < 10,
        section_ok(b, section_offset(b, k)),
    ensures
        section_offset(b, (k + 1) as nat) == section_end(b, section_offset(b, k)),
        spec_kex_error(b, section_offset(b, k), (10 - k) as nat) == spec_kex_error(
            b,
            section_offset(b, (k + 1) as nat),
            (9 - k) as nat,
        ),
{
}

/// A token fit for the comma-joined wire form: non-empty and free of the
/// comma byte.
pub open spec fn wf_token(t: Seq<u8>) -> bool {
    &&& t.len() > 0
    &&& forall|i: int| 0 <= i < t.len() ==> t[i] != 44
}

/// Algorithm names fit for the wire: non-empty and holding no comma.
pub open spec fn wf_names(v: Seq<String>) -> bool {
    forall|i: int| 0 <= i < v.len() ==> (#[trigger] v[i]@).len() > 0 && !v[i]@.contains(',')
}

/// No byte of the UTF-8 encoding of a character other than `,` is the
/// comma byte: the one-byte encodings are the ASCII characters themselves,
/// and every byte of a longer encoding is at least `0x80`.
pub proof fn lemma_encode_scalar_no_comma(c: char)
    ensures
        encode_scalar(c as u32).len() >= 1,
        c != ',' ==> forall|i: int|
            0 <= i < encode_scalar(c as u32).len() ==> #[trigger] encode_scalar(c as u32)[i] != 44,
{
    vstd::utf8::char_is_scalar(c);
    let s = c as u32;
    if c != ',' {
        assert(',' as u32 == 44);
        if s == 44 {
            vstd::utf8::char_u32_cast(c, 44);
            vstd::utf8::char_u32_cast(',', 44);
            assert(false);
        }
        if has_width_1_encoding(s) {
            assert(((s & 0x7F) as u8) != 44) by (bit_vector)
                requires
                    s <= 0x7F && s != 44,
            ;
        } else {
            assert((0xC0 | ((s >> 6) & 0x1F) as u8) != 44) by (bit_vector);
            assert((0xE0 | ((s >> 12) & 0x0F) as u8) != 44) by (bit_vector);
            assert((0xF0 | ((s >> 18) & 0x7) as u8) != 44) by (bit_vector);
            assert((0x80 | (s & 0x3F) as u8) != 44) by (bit_vector);
            assert((0x80 | ((s >> 6) & 0x3F) as u8) != 44) by (bit_vector);
            assert((0x80 | ((s >> 12) & 0x3F) as u8) != 44) by (bit_vector);
        }
    }
}

/// The UTF-8 bytes of a non-empty, comma-free name form a well-formed
/// token.
pub proof fn lemma_encode_name(name: Seq<char>)
    requires
        name.len() > 0,
        !name.contains(','),
    ensures
        wf_token(encode_utf8(name)),
    decreases name.len(),
{
    assert(name[0] != ',');
    lemma_encode_scalar_no_comma(name[0]);
    let head = encode_scalar(name[0] as u32);
    let tail = name.drop_first();
    if tail.len() == 0 {
        assert(encode_utf8(tail) =~= Seq::<u8>::empty());
        assert(encode_utf8(name) =~= head);
    } else {
        assert(forall|i: int| 0 <= i < tail.len() ==> tail[i] == name[i + 1]);
        assert(!tail.contains(',')) by {
            if tail.contains(',') {
                let i = choose|i: int| 0 <= i < tail.len() && tail[i] == ',';
                assert(name[i + 1] == ',');
            }
        }
        lemma_encode_name(tail);
    }
}

/// Consuming a comma-free token moves it whole into the accumulator.
pub proof fn lemma_split_acc_consume(t: Seq<u8>, s: Seq<u8>, cur: Seq<u8>)
    requires
        forall|i: int| 0 <= i < t.len() ==> t[i] != 44,
    ensures
        spec_split_acc(t + s, cur) == spec_split_acc(s, cur + t),
    decreases t.len(),
{
    if t.len() == 0 {
        assert(t + s =~= s);
        assert(cur + t =~= cur);
    } else {
        assert((t + s)[0] == t[0]);
        assert((t + s).skip(1) =~= t.skip(1) + s);
        lemma_split_acc_consume(t.skip(1), s, cur.push(t[0]));
        assert(cur.push(t[0]) + t.skip(1) =~= cur + t);
    }
}

/// Splitting the comma-joined form of well-formed tokens gives those
/// tokens back.
pub proof fn lemma_tokens_of_joined(names: Seq<Seq<u8>>)
    requires
        forall|i: int| 0 <= i < names.len() ==> wf_token(#[trigger] names[i]),
    ensures
        spec_tokens(spec_joined(names)) == names,
    decreases names.len(),
{
    if names.len() == 0 {
        assert(spec_tokens(Seq::<u8>::empty()) =~= names);
    } else if names.len() == 1 {
        assert(spec_joined(names) =~= names[0] + Seq::<u8>::empty());
        lemma_split_acc_consume(names[0], Seq::empty(), Seq::empty());
        assert(Seq::<u8>::empty() + names[0] =~= names[0]);
        assert(spec_split_acc(Seq::<u8>::empty(), names[0]) =~= seq![names[0]]);
        assert(seq![names[0]] =~= names);
    } else {
        let head = names[0];
        let rest = spec_joined(names.skip(1));
        assert(spec_joined(names) =~= head + (seq![44u8] + rest));
        lemma_split_acc_consume(head, seq![44u8] + rest, Seq::empty());
        assert(Seq::<u8>::empty() + head =~= head);
        assert((seq![44u8] + rest)[0] == 44);
        assert((seq![44u8] + rest).skip(1) =~= rest);
        assert(spec_split_acc(seq![44u8] + rest, head) =~= seq![head] + spec_split_acc(
            rest,
            Seq::<u8>::empty(),
        ));
        assert(forall|i: int| 0 <= i < names.skip(1).len() ==> names.skip(1)[i] == names[i + 1]);
        lemma_tokens_of_joined(names.skip(1));
        assert(seq![head] + names.skip(1) =~= names);
    }
}

/// One section laid down at `off` inside `b` parses back to exactly the
/// tokens it was built from, and ends where the bytes after it begin.
pub proof fn lemma_section_at(b: Seq<u8>, off: int, names: Seq<Seq<u8>>)
    requires
        0 <= off,
        spec_joined(names).len() <= u32::MAX,
        forall|i: int| 0 <= i < names.len() ==> wf_token(#[trigger] names[i]),
        off + spec_section(names).len() <= b.len(),
        b.subrange(off, off + spec_section(names).len() as int) == spec_section(names),
    ensures
        section_readable(b, off),
        section_fits(b, off),
        section_len(b, off) == spec_joined(names).len(),
        section_end(b, off) == off + spec_section(names).len(),
        section_tokens(b, off) == names,
{
    let joined = spec_joined(names);
    let sec = spec_section(names);
    crate::wire::lemma_be32_roundtrip(joined.len() as u32);
    assert(sec.len() == 4 + joined.len());
    assert(b.subrange(off, off + 4) =~= sec.subrange(0, 4));
    assert(sec.subrange(0, 4) =~= be32_bytes(joined.len() as u32));
    assert(section_len(b, off) == joined.len());
    assert(section_body(b, off) =~= sec.subrange(4, sec.len() as int));
    assert(sec.subrange(4, sec.len() as int) =~= joined);
    lemma_tokens_of_joined(names);
}

/// The byte tokens of a well-formed name list are well-formed, valid
/// UTF-8, and decode back to exactly those names.
pub proof fn lemma_list_round(v: Seq<String>)
    requires
        wf_names(v),
    ensures
        forall|i: int| 0 <= i < names_bytes(v).len() ==> wf_token(#[trigger] names_bytes(v)[i]),
        tokens_valid_utf8(names_bytes(v)),
        list_matches(v, names_bytes(v)),
{
    broadcast use vstd::utf8::group_utf8_lib;

    let nbs = names_bytes(v);
    assert forall|i: int| 0 <= i < nbs.len() implies wf_token(#[trigger] nbs[i]) by {
        lemma_encode_name(v[i]@);
    }
    assert forall|i: int| 0 <= i < nbs.len() implies valid_utf8(#[trigger] nbs[i]) by {
        vstd::utf8::encode_utf8_valid_utf8(v[i]@);
    }
    assert forall|i: int| 0 <= i < nbs.len() implies v[i]@ == decode_utf8(#[trigger] nbs[i]) by {
        vstd::utf8::encode_utf8_decode_utf8(v[i]@);
    }
}

/// Round-trip law of the KEXINIT codec: the encoding of a message whose
/// algorithm names are non-empty and comma-free, with the trailing fields
/// at their defaults, decodes section by section back to the same message.
/// Composed with the contracts of `to_be_bytes` and `from_bytes`, this says
/// `from_bytes(to_be_bytes(k))` rebuilds `k` field for field.
#[verifier::rlimit(100)]
pub proof fn lemma_kex_round_trip(k: KeyExchange)
    requires
        k.spec_encodable(),
        wf_names(k.kex_algorithms@),
        wf_names(k.host_key_algorithms@),
        wf_names(k.ciphers_ctos@),
        wf_names(k.ciphers_stoc@),
        wf_names(k.macs_ctos@),
        wf_names(k.macs_stoc@),
        wf_names(k.compression_ctos@),
        wf_names(k.compression_stoc@),
        wf_names(k.languages_ctos@),
        wf_names(k.languages_stoc@),
        k.first_kex_follows == false,
        k.reserved == 0,
    ensures
        spec_kex_error(k.spec_encoded(), 17, 10) is None,
        k.spec_encoded().subrange(1, 17) == k.cookie@,
        list_matches(k.kex_algorithms@, section_tokens_at(k.spec_encoded(), 0)),
        list_matches(k.host_key_algorithms@, section_tokens_at(k.spec_encoded(), 1)),
        list_matches(k.ciphers_ctos@, section_tokens_at(k.spec_encoded(), 2)),
        list_matches(k.ciphers_stoc@, section_tokens_at(k.spec_encoded(), 3)),
        list_matches(k.macs_ctos@, section_tokens_at(k.spec_encoded(), 4)),
        list_matches(k.macs_stoc@, section_tokens_at(k.spec_encoded(), 5)),
        list_matches(k.compression_ctos@, section_tokens_at(k.spec_encoded(), 6)),
        list_matches(k.compression_stoc@, section_tokens_at(k.spec_encoded(), 7)),
        list_matches(k.languages_ctos@, section_tokens_at(k.spec_encoded(), 8)),
        list_matches(k.languages_stoc@, section_tokens_at(k.spec_encoded(), 9)),
{
    let b = k.spec_encoded();
    let n0 = names_bytes(k.kex_algorithms@);
    let n1 = names_bytes(k.host_key_algorithms@);
    let n2 = names_bytes(k.ciphers_ctos@);
    let n3 = names_bytes(k.ciphers_stoc@);
    let n4 = names_bytes(k.macs_ctos@);
    let n5 = names_bytes(k.macs_stoc@);
    let n6 = names_bytes(k.compression_ctos@);
    let n7 = names_bytes(k.compression_stoc@);
    let n8 = names_bytes(k.languages_ctos@);
    let n9 = names_bytes(k.languages_stoc@);
    let s0 = spec_section(n0);
    let s1 = spec_section(n1);
    let s2 = spec_section(n2);
    let s3 = spec_section(n3);
    let s4 = spec_section(n4);
    let s5 = spec_section(n5);
    let s6 = spec_section(n6);
    let s7 = spec_section(n7);
    let s8 = spec_section(n8);
    let s9 = spec_section(n9);
    lemma_list_round(k.kex_algorithms@);
    lemma_list_round(k.host_key_algorithms@);
    lemma_list_round(k.ciphers_ctos@);
    lemma_list_round(k.ciphers_stoc@);
    lemma_list_round(k.macs_ctos@);
    lemma_list_round(k.macs_stoc@);
    lemma_list_round(k.compression_ctos@);
    lemma_list_round(k.compression_stoc@);
    lemma_list_round(k.languages_ctos@);
    lemma_list_round(k.languages_stoc@);
    let fkf = seq![
        if k.first_kex_follows {
            1u8
        } else {
            0u8
        },
    ];
    let p0 = seq![20u8] + k.cookie@;
    let p1 = p0 + s0;
    let p2 = p1 + s1;
    let p3 = p2 + s2;
    let p4 = p3 + s3;
    let p5 = p4 + s4;
    let p6 = p5 + s5;
    let p7 = p6 + s6;
    let p8 = p7 + s7;
    let p9 = p8 + s8;
    let p10 = p9 + s9;
    let pf = p10 + fkf;
    assert(b == pf + be32_bytes(k.reserved));
    let o0: int = 17;
    let o1 = o0 + s0.len() as int;
    let o2 = o1 + s1.len() as int;
    let o3 = o2 + s2.len() as int;
    let o4 = o3 + s3.len() as int;
    let o5 = o4 + s4.len() as int;
    let o6 = o5 + s5.len() as int;
    let o7 = o6 + s6.len() as int;
    let o8 = o7 + s7.len() as int;
    let o9 = o8 + s8.len() as int;
    let o10 = o9 + s9.len() as int;
    assert(p0.len() == 17);
    assert(b.len() == o10 + 5);
    lemma_subrange_left(pf, be32_bytes(k.reserved), 1, 17);
    lemma_subrange_left(p10, fkf, 1, 17);
    lemma_subrange_left(p9, s9, 1, 17);
    lemma_subrange_left(p8, s8, 1, 17);
    lemma_subrange_left(p7, s7, 1, 17);
    lemma_subrange_left(p6, s6, 1, 17);
    lemma_subrange_left(p5, s5, 1, 17);
    lemma_subrange_left(p4, s4, 1, 17);
    lemma_subrange_left(p3, s3, 1, 17);
    lemma_subrange_left(p2, s2, 1, 17);
    lemma_subrange_left(p1, s1, 1, 17);
    lemma_subrange_left(p0, s0, 1, 17);
    assert(p0.subrange(1, 17) =~= k.cookie@);
    assert(b.subrange(1, 17) == k.cookie@);
    lemma_subrange_left(pf, be32_bytes(k.reserved), o0, o1);
    lemma_subrange_left(p10, fkf, o0, o1);
    lemma_subrange_left(p9, s9, o0, o1);
    lemma_subrange_left(p8, s8, o0, o1);
    lemma_subrange_left(p7, s7, o0, o1);
    lemma_subrange_left(p6, s6, o0, o1);
    lemma_subrange_left(p5, s5, o0, o1);
    lemma_subrange_left(p4, s4, o0, o1);
    lemma_subrange_left(p3, s3, o0, o1);
    lemma_subrange_left(p2, s2, o0, o1);
    lemma_subrange_left(p1, s1, o0, o1);
    lemma_subrange_right(p0, s0);
    assert(b.subrange(o0, o1) == s0);
    lemma_subrange_left(pf, be32_bytes(k.reserved), o1, o2);
    lemma_subrange_left(p10, fkf, o1, o2);
    lemma_subrange_left(p9, s9, o1, o2);
    lemma_subrange_left(p8, s8, o1, o2);
    lemma_subrange_left(p7, s7, o1, o2);
    lemma_subrange_left(p6, s6, o1, o2);
    lemma_subrange_left(p5, s5, o1, o2);
    lemma_subrange_left(p4, s4, o1, o2);
    lemma_subrange_left(p3, s3, o1, o2);
    lemma_subrange_left(p2, s2, o1, o2);
    lemma_subrange_right(p1, s1);
    assert(b.subrange(o1, o2) == s1);
    lemma_subrange_left(pf, be32_bytes(k.reserved), o2, o3);
    lemma_subrange_left(p10, fkf, o2, o3);
    lemma_subrange_left(p9, s9, o2, o3);
    lemma_subrange_left(p8, s8, o2, o3);
    lemma_subrange_left(p7, s7, o2, o3);
    lemma_subrange_left(p6, s6, o2, o3);
    lemma_subrange_left(p5, s5, o2, o3);
    lemma_subrange_left(p4, s4, o2, o3);
    lemma_subrange_left(p3, s3, o2, o3);
    lemma_subrange_right(p2, s2);
    assert(b.subrange(o2, o3) == s2);
    lemma_subrange_left(pf, be32_bytes(k.reserved), o3, o4);
    lemma_subrange_left(p10, fkf, o3, o4);
    lemma_subrange_left(p9, s9, o3, o4);
    lemma_subrange_left(p8, s8, o3, o4);
    lemma_subrange_left(p7, s7, o3, o4);
    lemma_subrange_left(p6, s6, o3, o4);
    lemma_subrange_left(p5, s5, o3, o4);
    lemma_subrange_left(p4, s4, o3, o4);
    lemma_subrange_right(p3, s3);
    assert(b.subrange(o3, o4) == s3);
    lemma_subrange_left(pf, be32_bytes(k.reserved), o4, o5);
    lemma_subrange_left(p10, fkf, o4, o5);
    lemma_subrange_left(p9, s9, o4, o5);
    lemma_subrange_left(p8, s8, o4, o5);
    lemma_subrange_left(p7, s7, o4, o5);
    lemma_subrange_left(p6, s6, o4, o5);
    lemma_subrange_left(p5, s5, o4, o5);
    lemma_subrange_right(p4, s4);
    assert(b.subrange(o4, o5) == s4);
    lemma_subrange_left(pf, be32_bytes(k.reserved), o5, o6);
    lemma_subrange_left(p10, fkf, o5, o6);
    lemma_subrange_left(p9, s9, o5, o6);
    lemma_subrange_left(p8, s8, o5, o6);
    lemma_subrange_left(p7, s7, o5, o6);
    lemma_subrange_left(p6, s6, o5, o6);
    lemma_subrange_right(p5, s5);
    assert(b.subrange(o5, o6) == s5);
    lemma_subrange_left(pf, be32_bytes(k.reserved), o6, o7);
    lemma_subrange_left(p10, fkf, o6, o7);
    lemma_subrange_left(p9, s9, o6, o7);
    lemma_subrange_left(p8, s8, o6, o7);
    lemma_subrange_left(p7, s7, o6, o7);
    lemma_subrange_right(p6, s6);
    assert(b.subrange(o6, o7) == s6);
    lemma_subrange_left(pf, be32_bytes(k.reserved), o7, o8);
    lemma_subrange_left(p10, fkf, o7, o8);
    lemma_subrange_left(p9, s9, o7, o8);
    lemma_subrange_left(p8, s8, o7, o8);
    lemma_subrange_right(p7, s7);
    assert(b.subrange(o7, o8) == s7);
    lemma_subrange_left(pf, be32_bytes(k.reserved), o8, o9);
    lemma_subrange_left(p10, fkf, o8, o9);
    lemma_subrange_left(p9, s9, o8, o9);
    lemma_subrange_right(p8, s8);
    assert(b.subrange(o8, o9) == s8);
    lemma_subrange_left(pf, be32_bytes(k.reserved), o9, o10);
    lemma_subrange_left(p10, fkf, o9, o10);
    lemma_subrange_right(p9, s9);
    assert(b.subrange(o9, o10) == s9);
    lemma_section_at(b, o0, n0);
    assert(section_offset(b, 0) == o0);
    kex_error_step(b, 0);
    lemma_section_at(b, o1, n1);
    kex_error_step(b, 1);
    lemma_section_at(b, o2, n2);
    kex_error_step(b, 2);
    lemma_section_at(b, o3, n3);
    kex_error_step(b, 3);
    lemma_section_at(b, o4, n4);
    kex_error_step(b, 4);
    lemma_section_at(b, o5, n5);
    kex_error_step(b, 5);
    lemma_section_at(b, o6, n6);
    kex_error_step(b, 6);
    lemma_section_at(b, o7, n7);
    kex_error_step(b, 7);
    lemma_section_at(b, o8, n8);
    kex_error_step(b, 8);
    lemma_section_at(b, o9, n9);
    kex_error_step(b, 9);
    assert(spec_kex_error(b, section_offset(b, 10), 0) is None);
}

/// The comma-joined form of a prefix of a list is never longer than that
/// of the whole list.
pub proof fn lemma_joined_prefix_len(names: Seq<Seq<u8>>, j: int)
    requires
        0 <= j <= names.len(),
    ensures
        spec_joined(names.take(j)).len() <= spec_joined(names).len(),
    decreases names.len() - j,
{
    if j == 0 {
        assert(names.take(0) =~= Seq::<Seq<u8>>::empty());
    } else if j == names.len() {
        assert(names.take(j) =~= names);
    } else {
        assert(names.take(j).push(names[j]) =~= names.take(j + 1));
        lemma_joined_push(names.take(j), names[j]);
        lemma_joined_prefix_len(names, j + 1);
    }
}

/// An empty algorithm list serializes to exactly four zero bytes: a zero
/// length field and nothing after it.
pub proof fn lemma_empty_section()
    ensures
        spec_section(Seq::<Seq<u8>>::empty()) == seq![0u8, 0u8, 0u8, 0u8],
{
    assert(spec_joined(Seq::<Seq<u8>>::empty()) =~= Seq::<u8>::empty());
    assert(spec_section(Seq::<Seq<u8>>::empty()) =~= seq![0u8, 0u8, 0u8, 0u8]);
}

/// A subrange of a concatenation that stays inside the left part is a
/// subrange of the left part.
pub proof fn lemma_subrange_left(x: Seq<u8>, y: Seq<u8>, lo: int, hi: int)
    requires
        0 <= lo <= hi <= x.len(),
    ensures
        (x + y).subrange(lo, hi) == x.subrange(lo, hi),
{
    assert((x + y).subrange(lo, hi) =~= x.subrange(lo, hi));
}

/// The right part of a concatenation, read back as a subrange.
pub proof fn lemma_subrange_right(x: Seq<u8>, y: Seq<u8>)
    ensures
        (x + y).subrange(x.len() as int, x.len() + y.len() as int) == y,
{
    assert((x + y).subrange(x.len() as int, x.len() + y.len() as int) =~= y);
}

/// Appending one more name to a non-empty list joins it after one comma.
pub proof fn lemma_joined_push(names: Seq<Seq<u8>>, x: Seq<u8>)
    requires
        names.len() >= 1,
    ensures
        spec_joined(names.push(x)) == spec_joined(names) + seq![44u8] + x,
    decreases names.len(),
{
    if names.len() == 1 {
        assert(names.push(x).skip(1) =~= seq![x]);
        assert(spec_joined(seq![x]) == x);
        assert(spec_joined(names.push(x)) =~= names[0] + seq![44u8] + x);
    } else {
        assert(names.push(x).skip(1) =~= names.skip(1).push(x));
        lemma_joined_push(names.skip(1), x);
        assert(spec_joined(names.push(x)) =~= spec_joined(names) + seq![44u8] + x);
    }
}

} // verus!
