//! The encoding and decoding seams every wire entity of this library
//! implements. Each trait states its contract through spec functions that
//! the implementing type fills in, so a caller that only knows the trait
//! still gets the implementor's full contract.

use vstd::prelude::*;

use crate::errors::ProtocolError;
use crate::stream::ByteSource;

verus! {

/// An entity that can be consumed into its big-endian wire bytes.
pub trait Encode: Sized {
    /// The machine limit encoding needs: the assembled buffer fits a `usize`.
    spec fn encode_fits(&self) -> bool;

    /// What `to_be_bytes` promises of its result.
    spec fn encode_post(&self, r: Result<Vec<u8>, ProtocolError>) -> bool;

    /// The machine limit `size` needs: the declared length fits a `usize`.
    spec fn size_fits(&self) -> bool;

    /// The declared length of the wire representation.
    spec fn spec_size(&self) -> int;

    /// Consumes the entity and returns its big-endian wire bytes.
    fn to_be_bytes(self) -> (r: Result<Vec<u8>, ProtocolError>)
        requires
            self.encode_fits(),
        ensures
            self.encode_post(r),
    ;

    /// The length of the wire representation.
    fn size(&self) -> (n: usize)
        requires
            self.size_fits(),
        ensures
            n == self.spec_size(),
    ;
}

/// An entity that can be rebuilt from an in-memory byte buffer.
pub trait Decode {
    /// The entity the buffer decodes to.
    type Entity;

    /// Constructs the entity from its big-endian byte representation.
    fn from_be_bytes(buffer: Vec<u8>) -> Result<Self::Entity, ProtocolError>;
}

/// An entity that can be rebuilt by reading a byte source.
pub trait DecodeRaw {
    /// The entity read off the source.
    type Entity;

    /// What `from_be_bytes` promises: it relates the bytes available before
    /// the call, the bytes left unread after it, and the result.
    spec fn decode_post(
        pre: Seq<u8>,
        post: Seq<u8>,
        mac_size: u8,
        r: Result<Self::Entity, ProtocolError>,
    ) -> bool;

    /// Reads one entity off the source.
    fn from_be_bytes<R: ByteSource>(stream: &mut R, mac_size: u8) -> (r: Result<
        Self::Entity,
        ProtocolError,
    >)
        ensures
            Self::decode_post(old(stream).pending(), final(stream).pending(), mac_size, r),
    ;
}

} // verus!
