//! The symmetric block-cipher capability a caller uses to protect packet
//! payloads once keys are negotiated. The codec itself never invokes it;
//! it is exposed alongside so a handshake orchestrator can drive both.

use vstd::prelude::*;

use aes::cipher::generic_array::GenericArray;
use aes::cipher::{BlockDecrypt, BlockEncrypt, KeyInit};

use crate::errors::{DencryptionError, EncryptionError};

verus! {

/// The AES-128 cipher state of the `aes` crate, opaque to verification.
#[verifier::external_type_specification]
#[verifier::external_body]
pub struct ExAes128(aes::Aes128);

/// What AES-128 under the all-zero session key of `AES::new` makes of one
/// 16-byte block.
pub uninterp spec fn aes_block_encrypt_of(block: Seq<u8>) -> Seq<u8>;

/// The inverse direction under the same key.
pub uninterp spec fn aes_block_decrypt_of(block: Seq<u8>) -> Seq<u8>;

/// Relies on `Aes128::new` (`cipher::KeyInit`): builds the cipher state
/// for the all-zero 16-byte key. Every `AES` value holds a cipher made
/// here, which is what lets `aes_block_encrypt_of` and
/// `aes_block_decrypt_of` depend on the block alone.
#[verifier::external_body]
fn aes128_zero_key() -> aes::Aes128 {
    aes::Aes128::new(&GenericArray::from([0u8; 16]))
}

/// Relies on `Aes128::encrypt_block` (`cipher::BlockEncrypt`): a
/// deterministic permutation of one 16-byte block, here always under the
/// all-zero key fixed by `AES::new`.
#[verifier::external_body]
fn encrypt_block_zero_key(cipher: &aes::Aes128, block: &mut Vec<u8>)
    requires
        old(block)@.len() == 16,
    ensures
        final(block)@ == aes_block_encrypt_of(old(block)@),
        final(block)@.len() == 16,
{
    cipher.encrypt_block(GenericArray::from_mut_slice(block.as_mut_slice()));
}

/// Relies on `Aes128::decrypt_block` (`cipher::BlockDecrypt`): the inverse
/// permutation, here always under the all-zero key fixed by `AES::new`.
#[verifier::external_body]
fn decrypt_block_zero_key(cipher: &aes::Aes128, block: &mut Vec<u8>)
    requires
        old(block)@.len() == 16,
    ensures
        final(block)@ == aes_block_decrypt_of(old(block)@),
        final(block)@.len() == 16,
{
    cipher.decrypt_block(GenericArray::from_mut_slice(block.as_mut_slice()));
}

/// The AES-128 capability.
pub struct AES {
    cipher: aes::Aes128,
}

impl AES {
    /// Builds the capability over its fixed session key.
    pub fn new() -> Self {
        AES { cipher: aes128_zero_key() }
    }
}

impl Default for AES {
    fn default() -> Self {
        Self::new()
    }
}

/// The cipher capabilities a caller can hold.
pub enum EncryptionType {
    AES(AES),
}

/// A byte-level symmetric block cipher over fixed 16-byte blocks.
pub trait Encryption {
    /// Encrypts one 16-byte block in place; a block of any other length is
    /// refused, untouched.
    fn encrypt(&self, block: &mut Vec<u8>) -> (r: Result<(), EncryptionError>)
        ensures
            old(block)@.len() != 16 ==> (r matches Err(EncryptionError::IncorrectBlockSize(m)) && m@
                == "block size has to have 16 bytes"@ && final(block)@ == old(block)@),
            old(block)@.len() == 16 ==> (r is Ok && final(block)@.len() == 16),
    ;

    /// Decrypts one 16-byte block in place; a block of any other length is
    /// refused, untouched.
    fn decrypt(&self, block: &mut Vec<u8>) -> (r: Result<(), DencryptionError>)
        ensures
            old(block)@.len() != 16 ==> (r matches Err(DencryptionError::IncorrectBlockSize(m))
                && m@ == "block size has to have 16 bytes"@ && final(block)@ == old(block)@),
            old(block)@.len() == 16 ==> (r is Ok && final(block)@.len() == 16),
    ;
}

impl Encryption for AES {
    fn encrypt(&self, block: &mut Vec<u8>) -> (r: Result<(), EncryptionError>)
        ensures
            old(block)@.len() == 16 ==> final(block)@ == aes_block_encrypt_of(old(block)@),
    {
        if block.len() != 16 {
            return Err(EncryptionError::IncorrectBlockSize("block size has to have 16 bytes"));
        }
        encrypt_block_zero_key(&self.cipher, block);
        Ok(())
    }

    fn decrypt(&self, block: &mut Vec<u8>) -> (r: Result<(), DencryptionError>)
        ensures
            old(block)@.len() == 16 ==> final(block)@ == aes_block_decrypt_of(old(block)@),
    {
        if block.len() != 16 {
            return Err(DencryptionError::IncorrectBlockSize("block size has to have 16 bytes"));
        }
        decrypt_block_zero_key(&self.cipher, block);
        Ok(())
    }
}

} // verus!
