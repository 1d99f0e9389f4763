//! The message tags carried in the first byte of a binary packet payload.

use vstd::prelude::*;

verus! {

/// The SSH message tags this codec recognizes.
#[derive(Debug, Clone, Copy, PartialEq, Eq)]
pub enum SshMessageID {
    /// Key-exchange initialization, wire tag 20.
    KexInit,
}

impl SshMessageID {
    /// The tag recognized for the given wire byte, if any.
    pub open spec fn spec_from_u8(b: u8) -> Option<SshMessageID> {
        if b == 20 {
            Some(SshMessageID::KexInit)
        } else {
            None
        }
    }

    /// The wire byte of this tag.
    pub open spec fn spec_to_u8(self) -> u8 {
        match self {
            SshMessageID::KexInit => 20,
        }
    }

    /// Decodes a wire byte into a recognized tag.
    pub fn from_u8(b: u8) -> (r: Option<SshMessageID>)
        ensures
            r == Self::spec_from_u8(b),
    {
        if b == 20 {
            Some(SshMessageID::KexInit)
        } else {
            None
        }
    }

    /// Encodes this tag as its wire byte.
    pub fn to_u8(self) -> (r: u8)
        ensures
            r == self.spec_to_u8(),
    {
        match self {
            SshMessageID::KexInit => 20,
        }
    }
}

} // verus!
