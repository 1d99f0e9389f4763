//! The identification exchange: building, parsing and serializing the
//! one-line `SSH-protoversion-softwareversion[ comments]` handshake string,
//! and reading a bounded, CRLF-terminated header off a stream.

use vstd::prelude::*;
use vstd::string::{StrSliceExecFns, StringExecFns};
use vstd::utf8::encode_utf8;

use crate::errors::VersionExchangeError;
use crate::stream::ByteSource;
use crate::text::{find_char, first_index_of, str_eq};

verus! {

/// Hard cap, in bytes, on the identification line read off a stream.
pub const MAX_IDENTIFICATION_BYTES: usize = 51;

/// A validated identification string.
#[derive(Debug)]
pub struct SshVersion {
    pub proto_version: String,
    pub software_version: String,
    pub comments: Option<String>,
}

/// The protocol versions the exchange accepts.
pub open spec fn valid_proto(p: Seq<char>) -> bool {
    p == "1.0"@ || p == "2.0"@
}

/// The line starts with the `SSH-` marker.
pub open spec fn has_ssh_prefix(s: Seq<char>) -> bool {
    s.len() >= 4 && s.subrange(0, 4) == "SSH-"@
}

/// The line with one trailing CRLF removed, when one is there.
pub open spec fn strip_crlf(s: Seq<char>) -> Seq<char> {
    if s.len() >= 2 && s[s.len() - 2] == '\r' && s[s.len() - 1] == '\n' {
        s.take(s.len() - 2)
    } else {
        s
    }
}

/// Splits a line that carries the `SSH-` marker into protocol version,
/// software version and optional comments: the remainder after the marker
/// and a trailing CRLF is cut at its first `-`, and what follows is cut at
/// its first space. `None` means the `-` separator is missing.
pub open spec fn spec_parse_line(s: Seq<char>) -> Option<
    (Seq<char>, Seq<char>, Option<Seq<char>>),
>
    recommends
        has_ssh_prefix(s),
{
    let body = strip_crlf(s).skip(4);
    let dash = first_index_of(body, '-');
    if dash == body.len() {
        None
    } else {
        let proto = body.take(dash);
        let rest = body.skip(dash + 1);
        let space = first_index_of(rest, ' ');
        if space == rest.len() {
            Some((proto, rest, None))
        } else {
            Some((proto, rest.take(space), Some(rest.skip(space + 1))))
        }
    }
}

impl SshVersion {
    /// The serialized identification line: `SSH-proto-software[ comments]`
    /// closed by CRLF.
    pub open spec fn spec_serialized(self) -> Seq<char> {
        "SSH-"@ + self.proto_version@ + "-"@ + self.software_version@ + (match self.comments {
            Some(c) => " "@ + c@,
            None => Seq::<char>::empty(),
        }) + "\r\n"@
    }

    /// Validates the parts of an identification string: the protocol
    /// version must be `1.0` or `2.0`, and the software version and the
    /// comments may hold at most 255 bytes each.
    pub fn try_build(proto_version: &str, software_version: &str, comments: Option<&str>) -> (r:
        Result<Self, VersionExchangeError>)
        ensures
            !valid_proto(proto_version@) ==> (r matches Err(
                VersionExchangeError::InvalidProtoVersion(m),
            ) && m@ == "correct versions: '1.0' or '2.0'"@),
            valid_proto(proto_version@) && encode_utf8(software_version@).len() > 255 ==> (
            r matches Err(VersionExchangeError::InvalidString(m)) && m@
                == "Software version string is too long"@),
            valid_proto(proto_version@) && encode_utf8(software_version@).len() <= 255 && (
            comments matches Some(c) && encode_utf8(c@).len() > 255) ==> (r matches Err(
                VersionExchangeError::InvalidString(m),
            ) && m@ == "Comment string is too long"@),
            valid_proto(proto_version@) && encode_utf8(software_version@).len() <= 255 && (match
                comments {
                Some(c) => encode_utf8(c@).len() <= 255,
                None => true,
            }) ==> (r matches Ok(v) && v.proto_version@ == proto_version@ && v.software_version@
                == software_version@ && v.comments.deep_view() == comments.deep_view()),
    {
        if !str_eq(proto_version, "1.0") && !str_eq(proto_version, "2.0") {
            return Err(VersionExchangeError::InvalidProtoVersion("correct versions: '1.0' or '2.0'"));
        }
        if software_version.as_bytes().len() > 255 {
            return Err(VersionExchangeError::InvalidString("Software version string is too long"));
        }
        let comments_owned = match comments {
            Some(c) => {
                if c.as_bytes().len() > 255 {
                    return Err(VersionExchangeError::InvalidString("Comment string is too long"));
                }
                Some(c.to_owned())
            },
            None => None,
        };
        Ok(
            SshVersion {
                proto_version: proto_version.to_owned(),
                software_version: software_version.to_owned(),
                comments: comments_owned,
            },
        )
    }

    /// Parses a received identification line. The line must carry the
    /// `SSH-` marker and the `-` separating the protocol version from the
    /// software version; one trailing CRLF is ignored; what follows the
    /// first space is kept as comments.
    pub fn from_string(version_string: &str) -> (r: Result<Self, VersionExchangeError>)
        ensures
            !has_ssh_prefix(version_string@) ==> (r matches Err(
                VersionExchangeError::InvalidSshMsgFormat(m),
            ) && m@ == "Missing 'SSH-' part"@),
            has_ssh_prefix(version_string@) && spec_parse_line(version_string@) is None ==> (
            r matches Err(VersionExchangeError::InvalidSshMsgFormat(m)) && m@
                == "Malformed SSH version exchange string"@),
            has_ssh_prefix(version_string@) ==> (spec_parse_line(version_string@) matches Some(t)
                ==> (r matches Ok(v) && v.proto_version@ == t.0 && v.software_version@ == t.1
                && v.comments.deep_view() == t.2)),
    {
        proof {
            reveal_strlit("SSH-");
            assert("SSH-"@ =~= seq!['S', 'S', 'H', '-']);
        }
        let n = version_string.unicode_len();
        let has_prefix = n >= 4 && version_string.get_char(0) == 'S' && version_string.get_char(1)
            == 'S' && version_string.get_char(2) == 'H' && version_string.get_char(3) == '-';
        if !has_prefix {
            proof {
                assert(has_ssh_prefix(version_string@) ==> (version_string@.subrange(0, 4)[0] == 'S'
                    && version_string@.subrange(0, 4)[1] == 'S' && version_string@.subrange(0, 4)[2]
                    == 'H' && version_string@.subrange(0, 4)[3] == '-'));
            }
            return Err(VersionExchangeError::InvalidSshMsgFormat("Missing 'SSH-' part"));
        }
        proof {
            assert(version_string@.subrange(0, 4) =~= "SSH-"@);
        }
        let end = if n >= 2 && version_string.get_char(n - 2) == '\r' && version_string.get_char(
            n - 1,
        ) == '\n' {
            n - 2
        } else {
            n
        };
        proof {
            assert(strip_crlf(version_string@) =~= version_string@.take(end as int));
        }
        let body = version_string.substring_char(4, end);
        proof {
            assert(body@ =~= strip_crlf(version_string@).skip(4));
        }
        let body_len = body.unicode_len();
        let dash = find_char(body, '-');
        if dash == body_len {
            return Err(
                VersionExchangeError::InvalidSshMsgFormat("Malformed SSH version exchange string"),
            );
        }
        let proto = body.substring_char(0, dash);
        let rest = body.substring_char(dash + 1, body_len);
        proof {
            assert(rest@ =~= body@.skip(dash + 1));
        }
        let rest_len = rest.unicode_len();
        let space = find_char(rest, ' ');
        let (software, comments) = if space == rest_len {
            (rest.to_owned(), None)
        } else {
            let c = rest.substring_char(space + 1, rest_len);
            proof {
                assert(c@ =~= rest@.skip(space + 1));
            }
            (rest.substring_char(0, space).to_owned(), Some(c.to_owned()))
        };
        Ok(SshVersion { proto_version: proto.to_owned(), software_version: software, comments })
    }

    /// Serializes this identification string, the exact inverse of
    /// `from_string` on well-formed input.
    pub fn to_string(&self) -> (r: String)
        ensures
            r@ == self.spec_serialized(),
    {
        let mut result = String::from_str("SSH-");
        result.append(self.proto_version.as_str());
        result.append("-");
        result.append(self.software_version.as_str());
        match &self.comments {
            Some(c) => {
                result.append(" ");
                result.append(c.as_str());
            },
            None => {},
        }
        result.append("\r\n");
        proof {
            assert(result@ =~= self.spec_serialized());
        }
        result
    }

    /// Reads one byte at a time, up to 51 bytes, until a CR immediately
    /// followed by an LF; the bytes read, terminator included, are
    /// returned. A source with no CRLF within the cap is reported
    /// exhausted.
    pub fn read_header<R: ByteSource>(stream: &mut R) -> (r: Result<Vec<u8>, VersionExchangeError>)
        ensures
            spec_find_crlf(old(stream).pending(), 1) matches Some(i) ==> (r matches Ok(v) && v@
                == old(stream).pending().take(i + 1) && final(stream).pending() == old(
                stream,
            ).pending().skip(i + 1)),
            spec_find_crlf(old(stream).pending(), 1) is None ==> (r matches Err(
                VersionExchangeError::EmptyStream(m),
            ) && m@ == "Not found '\r\n in the first 51 bytes"@ && final(stream).pending() == old(
                stream,
            ).pending().skip(
                if old(stream).pending().len() < 51 {
                    old(stream).pending().len() as int
                } else {
                    51
                },
            )),
    {
        let ghost pre = stream.pending();
        let mut header: Vec<u8> = Vec::new();
        match stream.read_exact_bytes(1) {
            Some(v) => header.push(v[0]),
            None => {
                return Err(VersionExchangeError::EmptyStream("Not found '\r\n in the first 51 bytes"));
            },
        }
        proof {
            assert(header@ =~= pre.take(1));
        }
        let mut i: usize = 1;
        while i < MAX_IDENTIFICATION_BYTES
            invariant
                pre == old(stream).pending(),
                1 <= i <= MAX_IDENTIFICATION_BYTES,
                i <= pre.len(),
                header@ == pre.take(i as int),
                header@.len() == i,
                stream.pending() == pre.skip(i as int),
                spec_find_crlf(pre, 1) == spec_find_crlf(pre, i as int),
            decreases MAX_IDENTIFICATION_BYTES - i,
        {
            let b = match stream.read_exact_bytes(1) {
                Some(v) => v[0],
                None => {
                    proof {
                        assert(pre.len() == i);
                        assert(spec_find_crlf(pre, i as int) is None);
                    }
                    return Err(
                        VersionExchangeError::EmptyStream("Not found '\r\n in the first 51 bytes"),
                    );
                },
            };
            proof {
                assert(b == pre[i as int]);
                assert(pre.len() >= i + 1);
                assert(stream.pending() =~= pre.skip(i + 1));
            }
            let prev = header[i - 1];
            header.push(b);
            proof {
                assert(header@ =~= pre.take(i + 1));
            }
            if prev == 13 && b == 10 {
                proof {
                    assert(spec_find_crlf(pre, i as int) == Some(i as int));
                }
                return Ok(header);
            }
            proof {
                assert(spec_find_crlf(pre, i as int) == spec_find_crlf(pre, i + 1));
            }
            i = i + 1;
        }
        proof {
            assert(spec_find_crlf(pre, 51) is None);
        }
        Err(VersionExchangeError::EmptyStream("Not found '\r\n in the first 51 bytes"))
    }
}

/// Round-trip law of the identification exchange: parsing the serialized
/// form of a valid identification string whose software version carries no
/// space gives back exactly its parts.
pub proof fn lemma_id_string_round_trip(v: SshVersion)
    requires
        valid_proto(v.proto_version@),
        encode_utf8(v.software_version@).len() <= 255,
        (match v.comments {
            Some(c) => encode_utf8(c@).len() <= 255,
            None => true,
        }),
        !v.software_version@.contains(' '),
    ensures
        has_ssh_prefix(v.spec_serialized()),
        spec_parse_line(v.spec_serialized()) == Some(
            (v.proto_version@, v.software_version@, v.comments.deep_view()),
        ),
{
    reveal_strlit("SSH-");
    reveal_strlit("-");
    reveal_strlit(" ");
    reveal_strlit("\r\n");
    reveal_strlit("1.0");
    reveal_strlit("2.0");
    let s = v.spec_serialized();
    let p = v.proto_version@;
    let sw = v.software_version@;
    let mid = match v.comments {
        Some(c) => " "@ + c@,
        None => Seq::<char>::empty(),
    };
    assert("SSH-"@ =~= seq!['S', 'S', 'H', '-']);
    assert("-"@ =~= seq!['-']);
    assert(" "@ =~= seq![' ']);
    assert("\r\n"@ =~= seq!['\r', '\n']);
    assert(p.len() == 3 && p[0] != '-' && p[1] != '-' && p[2] != '-' && p[0] != ' ' && p[1] != ' '
        && p[2] != ' ') by {
        if p == "1.0"@ {
            assert("1.0"@ =~= seq!['1', '.', '0']);
        } else {
            assert("2.0"@ =~= seq!['2', '.', '0']);
        }
    }
    assert(s =~= "SSH-"@ + p + "-"@ + sw + mid + "\r\n"@);
    assert(s.len() == 4 + p.len() + 1 + sw.len() + mid.len() + 2);
    assert(s[s.len() - 2] == '\r');
    assert(s[s.len() - 1] == '\n');
    assert(s.subrange(0, 4) =~= "SSH-"@);
    assert(has_ssh_prefix(s));
    let stripped = strip_crlf(s);
    assert(stripped =~= "SSH-"@ + p + "-"@ + sw + mid);
    let body = stripped.skip(4);
    assert(body =~= p + "-"@ + sw + mid);
    assert(forall|j: int| 0 <= j < 3 ==> body[j] == p[j]);
    assert(body[3] == '-');
    crate::text::lemma_first_index_of_char(body, '-', 3);
    let rest = body.skip(4);
    assert(rest =~= sw + mid);
    assert(body.take(3) =~= p);
    assert(forall|j: int| 0 <= j < sw.len() ==> rest[j] == sw[j]);
    assert(forall|j: int| 0 <= j < sw.len() ==> sw[j] != ' ') by {
        assert(forall|j: int| 0 <= j < sw.len() ==> sw[j] == ' ' ==> sw.contains(' '));
    }
    match v.comments {
        Some(c) => {
            assert(rest.len() == sw.len() + 1 + c@.len());
            assert(rest[sw.len() as int] == ' ');
            crate::text::lemma_first_index_of_char(rest, ' ', sw.len() as int);
            assert(rest.take(sw.len() as int) =~= sw);
            assert(rest.skip(sw.len() as int + 1) =~= c@);
        },
        None => {
            assert(rest =~= sw);
            crate::text::lemma_first_index_of_char(rest, ' ', sw.len() as int);
        },
    }
}

/// The index of the LF closing the first CRLF at or after position `i`,
/// within the 51-byte identification cap.
pub open spec fn spec_find_crlf(s: Seq<u8>, i: int) -> Option<int>
    decreases 51 - i,
{
    if i > 50 || i >= s.len() {
        None
    } else if s[i - 1] == 13 && s[i] == 10 {
        Some(i)
    } else {
        spec_find_crlf(s, i + 1)
    }
}

} // verus!
