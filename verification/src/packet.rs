//! The Binary Packet Protocol codec: framing and unframing of the
//! length-prefixed packet structure that carries every SSH message after
//! the identification exchange.

use vstd::prelude::*;

use crate::errors::ProtocolError;
use crate::message::SshMessageID;
use crate::protocol::{DecodeRaw, Encode};
use crate::stream::ByteSource;
use crate::wire::{be32, be32_bytes, u32_from_be, u32_to_be};

verus! {

/// Largest payload a binary packet may carry.
pub const MAX_BINARY_PROTOCOL_PAYLOAD_SIZE_BYTES: usize = 32768;

/// Smallest padding the protocol allows.
pub const MIN_PADDING_SIZE_BYTES: u8 = 4;

/// One frame of the Binary Packet Protocol.
///
/// On the wire: `packet_length` (4 bytes big-endian), `padding_length`
/// (1 byte), the payload, `padding_length` random bytes, then the MAC.
/// `packet_length` counts everything after itself except the MAC.
#[derive(Debug)]
pub struct BinaryProtocolPacket {
    pub message_id: SshMessageID,
    pub packet_length: u32,
    pub padding_length: u8,
    pub mac_length: u8,
    pub payload: Vec<u8>,
    pub mac: Vec<u8>,
}

/// True when no recognized message tag opens the payload.
pub open spec fn spec_unknown_tag(payload: Seq<u8>) -> bool {
    payload.len() == 0 || SshMessageID::spec_from_u8(payload[0]) is None
}

/// `r` is the construction error carrying `msg`.
pub open spec fn invalid_entity(
    r: Result<BinaryProtocolPacket, ProtocolError>,
    msg: Seq<char>,
) -> bool {
    r matches Err(ProtocolError::BinaryPacketInvalidEntity(m)) && m@ == msg
}

/// `r` is the decode error for a source that ran out of bytes.
pub open spec fn stream_exhausted(r: Result<BinaryProtocolPacket, ProtocolError>) -> bool {
    r matches Err(ProtocolError::BinaryPacketDecodingFailed(m)) && m@
        == "unexpected end of stream"@
}

/// `r` is the decode error for a length field below `padding_length + 1`.
pub open spec fn length_underflow(r: Result<BinaryProtocolPacket, ProtocolError>) -> bool {
    r matches Err(ProtocolError::BinaryPacketDecodingFailed(m)) && m@
        == "packet length is smaller than its padding"@
}

/// The whole contract of `try_build`: which error each invalid input gets,
/// in validation order, and every field of the packet built from a valid one.
pub open spec fn try_build_post(
    padding_length: u8,
    payload: Seq<u8>,
    mac: Seq<u8>,
    r: Result<BinaryProtocolPacket, ProtocolError>,
) -> bool {
    &&& payload.len() > MAX_BINARY_PROTOCOL_PAYLOAD_SIZE_BYTES ==> invalid_entity(
        r,
        "payload is too long for SSH message"@,
    )
    &&& payload.len() <= MAX_BINARY_PROTOCOL_PAYLOAD_SIZE_BYTES && padding_length
        < MIN_PADDING_SIZE_BYTES ==> invalid_entity(r, "padding is too short for SSH message"@)
    &&& payload.len() <= MAX_BINARY_PROTOCOL_PAYLOAD_SIZE_BYTES && padding_length
        >= MIN_PADDING_SIZE_BYTES && spec_unknown_tag(payload) ==> invalid_entity(
        r,
        "unknown SSH message ID"@,
    )
    &&& payload.len() <= MAX_BINARY_PROTOCOL_PAYLOAD_SIZE_BYTES && padding_length
        >= MIN_PADDING_SIZE_BYTES && !spec_unknown_tag(payload) ==> (r matches Ok(p) && {
        &&& Some(p.message_id) == SshMessageID::spec_from_u8(payload[0])
        &&& p.packet_length as int == payload.len() + padding_length + 1
        &&& p.padding_length == padding_length
        &&& p.mac_length as int == mac.len() as int % 256
        &&& p.payload@ == payload
        &&& p.mac@ == mac
    })
}

impl BinaryProtocolPacket {
    /// The number of bytes an encoding of this packet actually occupies.
    pub open spec fn spec_body_len(&self) -> int {
        5 + self.payload@.len() + self.padding_length + self.mac@.len()
    }

    /// The length fields agree with the buffers the packet owns.
    pub open spec fn spec_consistent(&self) -> bool {
        4 + self.packet_length + self.mac_length == self.spec_body_len()
    }

    /// Validates a payload, a padding length and a MAC, and builds the
    /// packet with its computed length fields.
    ///
    /// Validation order matters for diagnostics: payload too long is
    /// reported before padding too short, which is reported before an
    /// unrecognized message tag.
    pub fn try_build(padding_length: u8, payload: Vec<u8>, mac: Vec<u8>) -> (r: Result<
        Self,
        ProtocolError,
    >)
        ensures
            try_build_post(padding_length, payload@, mac@, r),
    {
        if payload.len() > MAX_BINARY_PROTOCOL_PAYLOAD_SIZE_BYTES {
            return Err(
                ProtocolError::BinaryPacketInvalidEntity("payload is too long for SSH message"),
            );
        }
        if padding_length < MIN_PADDING_SIZE_BYTES {
            return Err(
                ProtocolError::BinaryPacketInvalidEntity("padding is too short for SSH message"),
            );
        }
        if payload.len() == 0 {
            return Err(ProtocolError::BinaryPacketInvalidEntity("unknown SSH message ID"));
        }
        let message_id = match SshMessageID::from_u8(payload[0]) {
            Some(id) => id,
            None => {
                return Err(ProtocolError::BinaryPacketInvalidEntity("unknown SSH message ID"));
            },
        };
        let packet_length = payload.len() as u32 + padding_length as u32 + 1;
        let mac_length = (mac.len() % 256) as u8;
        Ok(
            BinaryProtocolPacket {
                message_id,
                packet_length,
                padding_length,
                mac_length,
                payload,
                mac,
            },
        )
    }

    /// Draws `padding_length` fresh random padding bytes.
    fn build_random_padding(&self) -> (r: Vec<u8>)
        ensures
            r@.len() == self.padding_length as int,
    {
        let n = self.padding_length as usize;
        let mut v: Vec<u8> = Vec::new();
        let mut i: usize = 0;
        while i < n
            invariant
                i <= n,
                v@.len() == i,
            decreases n - i,
        {
            let b: u8 = rand::random();
            v.push(b);
            i = i + 1;
        }
        v
    }
}

/// Relies on `rand::random`: a sampled value of the type, with no promise
/// about which value comes back; random padding needs no more.
pub assume_specification<T>[ rand::random::<T> ]() -> (r: T)
    where
        rand::distributions::Standard: rand::distributions::Distribution<T>,
;

impl Encode for BinaryProtocolPacket {
    /// The assembled buffer fits a `usize`.
    open spec fn encode_fits(&self) -> bool {
        self.spec_body_len() <= usize::MAX as int
    }

    /// A consistent packet encodes to its exact wire layout, with only the
    /// random padding bytes left open; an inconsistent one is refused.
    open spec fn encode_post(&self, r: Result<Vec<u8>, ProtocolError>) -> bool {
        if self.spec_consistent() {
            r matches Ok(b) && {
                &&& b@.len() == 4 + self.packet_length + self.mac_length
                &&& b@.subrange(0, 4) == be32_bytes(self.packet_length)
                &&& b@[4] == self.padding_length
                &&& b@.subrange(5, 5 + self.payload@.len() as int) == self.payload@
                &&& b@.subrange(
                    5 + self.payload@.len() + self.padding_length as int,
                    b@.len() as int,
                ) == self.mac@
            }
        } else {
            r matches Err(ProtocolError::BinaryPacketEncodingFailed(m)) && m@
                == "final buffer has incorrect length"@
        }
    }

    open spec fn size_fits(&self) -> bool {
        4 + self.packet_length + self.mac_length <= usize::MAX as int
    }

    open spec fn spec_size(&self) -> int {
        4 + self.packet_length + self.mac_length
    }

    /// Consumes the packet into its wire bytes: length field, padding
    /// length, payload, fresh random padding, MAC. The produced length is
    /// checked against the declared one; a mismatch is reported instead of
    /// sent.
    fn to_be_bytes(self) -> (r: Result<Vec<u8>, ProtocolError>) {
        let ghost orig = self;
        let padding = self.build_random_padding();
        let BinaryProtocolPacket {
            message_id: _,
            packet_length,
            padding_length,
            mac_length,
            payload,
            mac,
        } = self;
        let mut buff = u32_to_be(packet_length);
        buff.push(padding_length);
        let mut payload = payload;
        buff.append(&mut payload);
        let mut padding = padding;
        buff.append(&mut padding);
        let mut mac = mac;
        buff.append(&mut mac);

        let ml = mac_length as usize;
        if packet_length as usize <= usize::MAX - 4 - ml {
            let expected: usize = 4 + packet_length as usize + ml;
            if buff.len() == expected {
                proof {
                    assert(orig.spec_consistent());
                    assert(buff@.subrange(0, 4) =~= be32_bytes(packet_length));
                    assert(buff@.subrange(5, 5 + orig.payload@.len() as int) =~= orig.payload@);
                    assert(buff@.subrange(
                        5 + orig.payload@.len() + orig.padding_length as int,
                        buff@.len() as int,
                    ) =~= orig.mac@);
                }
                return Ok(buff);
            }
        }
        Err(ProtocolError::BinaryPacketEncodingFailed("final buffer has incorrect length"))
    }

    /// The declared wire length: the 4-byte length field, everything it
    /// counts, and the MAC.
    fn size(&self) -> (n: usize) {
        4 + self.packet_length as usize + self.mac_length as usize
    }
}

impl DecodeRaw for BinaryProtocolPacket {
    type Entity = BinaryProtocolPacket;

    /// The whole contract of reading one packet: every truncation of the
    /// source is a stream error, a length field below `padding_length + 1`
    /// is an underflow error, and a complete frame is handed to
    /// `try_build` unchanged.
    open spec fn decode_post(
        pre: Seq<u8>,
        post: Seq<u8>,
        mac_size: u8,
        r: Result<BinaryProtocolPacket, ProtocolError>,
    ) -> bool {
        if pre.len() < 4 {
            stream_exhausted(r) && post == pre
        } else if pre.len() < 5 {
            stream_exhausted(r) && post == pre.skip(4)
        } else {
            let plen = be32(pre.subrange(0, 4));
            let pad = pre[4] as int;
            if plen < pad + 1 {
                length_underflow(r) && post == pre.skip(5)
            } else {
                let payload_len = plen - pad - 1;
                if pre.len() < 5 + payload_len {
                    stream_exhausted(r) && post == pre.skip(5)
                } else if pre.len() < 5 + payload_len + pad {
                    stream_exhausted(r) && post == pre.skip(5 + payload_len)
                } else if mac_size > 0 && pre.len() < 5 + payload_len + pad + mac_size {
                    stream_exhausted(r) && post == pre.skip(5 + payload_len + pad)
                } else {
                    &&& try_build_post(
                        pre[4],
                        pre.subrange(5, 5 + payload_len),
                        pre.subrange(5 + payload_len + pad, 5 + payload_len + pad + mac_size),
                        r,
                    )
                    &&& post == pre.skip(5 + payload_len + pad + mac_size)
                }
            }
        }
    }

    /// Reads exactly one frame off the source and validates it through
    /// `try_build`, so decoding and in-memory construction share one
    /// validation path.
    fn from_be_bytes<R: ByteSource>(stream: &mut R, mac_size: u8) -> (r: Result<
        BinaryProtocolPacket,
        ProtocolError,
    >) {
        let ghost pre = stream.pending();
        let four = match stream.read_exact_bytes(4) {
            Some(v) => v,
            None => {
                return Err(ProtocolError::BinaryPacketDecodingFailed("unexpected end of stream"));
            },
        };
        proof {
            assert(four@ =~= pre.subrange(0, 4));
        }
        let packet_length = u32_from_be(four[0], four[1], four[2], four[3]);
        proof {
            assert(seq![four@[0], four@[1], four@[2], four@[3]] =~= pre.subrange(0, 4));
        }
        let one = match stream.read_exact_bytes(1) {
            Some(v) => v,
            None => {
                return Err(ProtocolError::BinaryPacketDecodingFailed("unexpected end of stream"));
            },
        };
        let padding_length = one[0];
        proof {
            assert(one@[0] == pre[4]);
            assert(stream.pending() =~= pre.skip(5));
        }
        if (packet_length as usize) < padding_length as usize + 1 {
            return Err(
                ProtocolError::BinaryPacketDecodingFailed(
                    "packet length is smaller than its padding",
                ),
            );
        }
        let payload_length = packet_length as usize - padding_length as usize - 1;
        let payload = match stream.read_exact_bytes(payload_length) {
            Some(v) => v,
            None => {
                return Err(ProtocolError::BinaryPacketDecodingFailed("unexpected end of stream"));
            },
        };
        proof {
            assert(payload@ =~= pre.subrange(5, 5 + payload_length as int));
            assert(stream.pending() =~= pre.skip(5 + payload_length as int));
        }
        let _padding = match stream.read_exact_bytes(padding_length as usize) {
            Some(v) => v,
            None => {
                return Err(ProtocolError::BinaryPacketDecodingFailed("unexpected end of stream"));
            },
        };
        proof {
            assert(stream.pending() =~= pre.skip(5 + payload_length + padding_length as int));
        }
        let mac = if mac_size > 0 {
            match stream.read_exact_bytes(mac_size as usize) {
                Some(v) => v,
                None => {
                    return Err(
                        ProtocolError::BinaryPacketDecodingFailed("unexpected end of stream"),
                    );
                },
            }
        } else {
            Vec::new()
        };
        proof {
            assert(mac@ =~= pre.subrange(
                5 + payload_length + padding_length as int,
                5 + payload_length + padding_length + mac_size as int,
            ));
            assert(stream.pending() =~= pre.skip(
                5 + payload_length + padding_length + mac_size as int,
            ));
        }
        Self::try_build(padding_length, payload, mac)
    }
}

} // verus!
