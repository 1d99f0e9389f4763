//! Error values shared by the identification exchange, the binary packet
//! codec and the KEXINIT codec. Every fallible operation of the library
//! returns one of these as a value; no parsing path panics.

use vstd::prelude::*;
use vstd::string::StringExecFns;

verus! {

/// Failures of the binary packet codec.
#[derive(Debug, Clone, Copy, PartialEq, Eq)]
pub enum ProtocolError {
    /// Encoding a packet produced a buffer of the wrong length.
    BinaryPacketEncodingFailed(&'static str),
    /// The underlying stream ended, or held an unusable length field,
    /// before a whole packet could be read.
    BinaryPacketDecodingFailed(&'static str),
    /// The fields handed to the packet constructor break an invariant.
    BinaryPacketInvalidEntity(&'static str),
}

impl ProtocolError {
    /// The diagnostic line shown for this error.
    pub open spec fn spec_message(self) -> Seq<char> {
        match self {
            ProtocolError::BinaryPacketEncodingFailed(m) => "encoding message to bytes failed: ("@
                + m@ + ")"@,
            ProtocolError::BinaryPacketDecodingFailed(m) =>
                "decoding binary protocol from message failed: ("@ + m@ + ")"@,
            ProtocolError::BinaryPacketInvalidEntity(m) => "entity preconditions are not met: ("@
                + m@ + ")"@,
        }
    }

    /// Renders the diagnostic line.
    pub fn message(&self) -> (r: String)
        ensures
            r@ == self.spec_message(),
    {
        let mut r: String = match *self {
            ProtocolError::BinaryPacketEncodingFailed(_) => String::from_str(
                "encoding message to bytes failed: (",
            ),
            ProtocolError::BinaryPacketDecodingFailed(_) => String::from_str(
                "decoding binary protocol from message failed: (",
            ),
            ProtocolError::BinaryPacketInvalidEntity(_) => String::from_str(
                "entity preconditions are not met: (",
            ),
        };
        match *self {
            ProtocolError::BinaryPacketEncodingFailed(m) => r.append(m),
            ProtocolError::BinaryPacketDecodingFailed(m) => r.append(m),
            ProtocolError::BinaryPacketInvalidEntity(m) => r.append(m),
        }
        r.append(")");
        proof {
            assert(r@ =~= self.spec_message());
        }
        r
    }
}

/// Failures of the identification exchange and of the KEXINIT codec.
#[derive(Debug, Clone, Copy, PartialEq, Eq)]
pub enum VersionExchangeError {
    /// The protocol version is outside the supported set.
    InvalidProtoVersion(&'static str),
    /// A string field is too long, or section bytes are not valid UTF-8.
    InvalidString(&'static str),
    /// The identification line does not follow `SSH-proto-software`.
    InvalidSshMsgFormat(&'static str),
    /// No CRLF terminator was found within the identification cap.
    EmptyStream(&'static str),
    /// A section length field lies outside the buffer.
    OffsetOutOfRange(&'static str),
}

impl VersionExchangeError {
    /// The diagnostic line shown for this error.
    pub open spec fn spec_message(self) -> Seq<char> {
        match self {
            VersionExchangeError::InvalidProtoVersion(m) => "Proto version incorrect - "@ + m@,
            VersionExchangeError::InvalidString(m) => m@,
            VersionExchangeError::InvalidSshMsgFormat(m) => m@,
            VersionExchangeError::EmptyStream(m) => m@,
            VersionExchangeError::OffsetOutOfRange(m) => m@,
        }
    }

    /// Renders the diagnostic line.
    pub fn message(&self) -> (r: String)
        ensures
            r@ == self.spec_message(),
    {
        match *self {
            VersionExchangeError::InvalidProtoVersion(m) => {
                let mut r = String::from_str("Proto version incorrect - ");
                r.append(m);
                r
            },
            VersionExchangeError::InvalidString(m) => String::from_str(m),
            VersionExchangeError::InvalidSshMsgFormat(m) => String::from_str(m),
            VersionExchangeError::EmptyStream(m) => String::from_str(m),
            VersionExchangeError::OffsetOutOfRange(m) => String::from_str(m),
        }
    }
}

/// Failure of the block-cipher encryption capability.
#[derive(Debug, Clone, Copy, PartialEq, Eq)]
pub enum EncryptionError {
    /// The block handed to the cipher is not exactly one cipher block.
    IncorrectBlockSize(&'static str),
}

impl EncryptionError {
    /// The diagnostic line shown for this error.
    pub open spec fn spec_message(self) -> Seq<char> {
        match self {
            EncryptionError::IncorrectBlockSize(m) => "block size has incorrect length: ("@ + m@
                + ")"@,
        }
    }

    /// Renders the diagnostic line.
    pub fn message(&self) -> (r: String)
        ensures
            r@ == self.spec_message(),
    {
        match *self {
            EncryptionError::IncorrectBlockSize(m) => {
                let mut r = String::from_str("block size has incorrect length: (");
                r.append(m);
                r.append(")");
                proof {
                    assert(r@ =~= self.spec_message());
                }
                r
            },
        }
    }
}

/// Failure of the block-cipher decryption capability.
#[derive(Debug, Clone, Copy, PartialEq, Eq)]
pub enum DencryptionError {
    /// The block handed to the cipher is not exactly one cipher block.
    IncorrectBlockSize(&'static str),
}

impl DencryptionError {
    /// The diagnostic line shown for this error.
    pub open spec fn spec_message(self) -> Seq<char> {
        match self {
            DencryptionError::IncorrectBlockSize(m) => "block size has incorrect length: ("@ + m@
                + ")"@,
        }
    }

    /// Renders the diagnostic line.
    pub fn message(&self) -> (r: String)
        ensures
            r@ == self.spec_message(),
    {
        match *self {
            DencryptionError::IncorrectBlockSize(m) => {
                let mut r = String::from_str("block size has incorrect length: (");
                r.append(m);
                r.append(")");
                proof {
                    assert(r@ =~= self.spec_message());
                }
                r
            },
        }
    }
}

} // verus!
