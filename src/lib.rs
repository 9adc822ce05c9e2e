//! The RC5 block cipher for words of 8, 16, 32 and 64 bits.
mod endec;
mod error;
mod key;
mod readers;
mod word;

use vstd::prelude::*;

pub use self::error::Rc5Error;
pub use self::key::{Key, KeyError, MAX_KEY_LEN};
pub use self::readers::{BlocksIterator, WordsIterator};
pub use self::word::{Word, WordError, W16, W32, W64, W8};
pub use self::endec::{
    block_len, decode_bytes, decrypt_block, decrypt_rounds, encode_bytes, encrypt_block,
    encrypt_rounds, expand_key_spec, lemma_deterministic, lemma_length_preserved, lemma_round_trip,
    magic_word, mix, mix_steps, set_up_from, Endec,
};
pub use self::readers::words_of;

verus! {

/// A block cipher engine: one key schedule, any number of calls.
pub trait Rc5 {
    /// Bytes per block.
    spec fn block_bytes(&self) -> nat;

    /// The ciphertext of a plaintext that is a whole number of blocks.
    spec fn encoded(&self, pt: Seq<u8>) -> Seq<u8>;

    /// The plaintext of a ciphertext that is a whole number of blocks.
    spec fn decoded(&self, ct: Seq<u8>) -> Seq<u8>;

    /// The ciphertext for `plaintext`, whose length must be a multiple of
    /// the block length.
    fn encode(&self, plaintext: &[u8]) -> (r: Result<Vec<u8>, Rc5Error>)
        ensures
            plaintext@.len() % self.block_bytes() == 0 <==> r is Ok,
            r matches Ok(ct) ==> ct@ == self.encoded(plaintext@),
            r matches Err(e) ==> e == Rc5Error::WordError(
                WordError::InputCanNotBeSplittedByBlocks(
                    plaintext@.len() as usize,
                    self.block_bytes() as usize,
                ),
            ),
    ;

    /// The plaintext for `ciphertext`, whose length must be a multiple of
    /// the block length.
    fn decode(&self, ciphertext: &[u8]) -> (r: Result<Vec<u8>, Rc5Error>)
        ensures
            ciphertext@.len() % self.block_bytes() == 0 <==> r is Ok,
            r matches Ok(pt) ==> pt@ == self.decoded(ciphertext@),
            r matches Err(e) ==> e == Rc5Error::WordError(
                WordError::InputCanNotBeSplittedByBlocks(
                    ciphertext@.len() as usize,
                    self.block_bytes() as usize,
                ),
            ),
    ;
}

/// An RC5 engine on 8-bit words, for `key` and `rounds`; `rounds` must
/// leave room for the `6 * (rounds + 1)` steps of key mixing in a `usize`.
pub fn rc5_w8(key: Key, rounds: usize) -> (r: Result<Endec<W8>, Rc5Error>)
    requires
        6 * (rounds + 1) <= usize::MAX,
    ensures
        set_up_from(r, key.bytes(), rounds as nat),
{
    Endec::<W8>::setup(key, rounds)
}

/// An RC5 engine on 16-bit words, for `key` and `rounds`; `rounds` must
/// leave room for the `6 * (rounds + 1)` steps of key mixing in a `usize`.
pub fn rc5_w16(key: Key, rounds: usize) -> (r: Result<Endec<W16>, Rc5Error>)
    requires
        6 * (rounds + 1) <= usize::MAX,
    ensures
        set_up_from(r, key.bytes(), rounds as nat),
{
    Endec::<W16>::setup(key, rounds)
}

/// An RC5 engine on 32-bit words, for `key` and `rounds`; `rounds` must
/// leave room for the `6 * (rounds + 1)` steps of key mixing in a `usize`.
pub fn rc5_w32(key: Key, rounds: usize) -> (r: Result<Endec<W32>, Rc5Error>)
    requires
        6 * (rounds + 1) <= usize::MAX,
    ensures
        set_up_from(r, key.bytes(), rounds as nat),
{
    Endec::<W32>::setup(key, rounds)
}

/// An RC5 engine on 64-bit words, for `key` and `rounds`; `rounds` must
/// leave room for the `6 * (rounds + 1)` steps of key mixing in a `usize`.
pub fn rc5_w64(key: Key, rounds: usize) -> (r: Result<Endec<W64>, Rc5Error>)
    requires
        6 * (rounds + 1) <= usize::MAX,
    ensures
        set_up_from(r, key.bytes(), rounds as nat),
{
    Endec::<W64>::setup(key, rounds)
}

} // verus!
