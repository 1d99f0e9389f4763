//! SSH transport preamble: identification-string exchange, the Binary Packet
//! Protocol framing layer, and the KEXINIT algorithm-negotiation codec.
//!
//! Every parsing path is total on adversarial input: each slice access is
//! guarded by a proved bounds check, and every malformed input is surfaced
//! as an error value.

pub mod encryption;
pub mod errors;
pub mod kex;
pub mod message;
pub mod packet;
pub mod protocol;
pub mod stream;
pub mod text;
pub mod version;
pub mod wire;
