use crate::word::{Word, WordError};
use std::marker::PhantomData;
use vstd::arithmetic::div_mod::{lemma_mod_sub_multiples_vanish, lemma_small_mod};
use vstd::prelude::*;
use vstd::slice::slice_subrange;

verus! {

/// The words that `bytes` holds, read little-endian from the start; a
/// trailing part shorter than a word is left out.
pub open spec fn words_of<W: Word>(bytes: Seq<u8>) -> Seq<W>
    decreases bytes.len(),
{
    let u = W::spec_width();
    if u == 0 || bytes.len() < u {
        Seq::empty()
    } else {
        let n = bytes.len() - u;
        words_of::<W>(bytes.subrange(0, n)).push(W::spec_from_le(bytes.subrange(n, bytes.len() as int)))
    }
}

/// From a positive multiple of `m`, one step of `m` leaves a multiple of `m`.
pub proof fn lemma_step_down(rem: int, m: int)
    requires
        0 < m,
        0 < rem,
        rem % m == 0,
    ensures
        m <= rem,
        (rem - m) % m == 0,
{
    if rem < m {
        lemma_small_mod(rem as nat, m as nat);
    }
    lemma_mod_sub_multiples_vanish(rem, m);
}

/// Reads a byte buffer word by word.
pub struct WordsIterator<'a, W: Word> {
    bytes: &'a [u8],
    index: usize,
    _w: PhantomData<W>,
}

impl<'a, W: Word> WordsIterator<'a, W> {
    #[verifier::type_invariant]
    spec fn inv(&self) -> bool {
        &&& self.index <= self.bytes@.len()
        &&& (self.bytes@.len() - self.index) % (W::spec_width() as int) == 0
    }

    /// The buffer being read.
    pub closed spec fn input(&self) -> Seq<u8> {
        self.bytes@
    }

    /// Offset of the next word in the buffer.
    pub closed spec fn position(&self) -> nat {
        self.index as nat
    }

    /// A reader over `bytes`, whose length must be a multiple of the word length.
    pub fn try_from(bytes: &'a [u8]) -> (r: Result<Self, WordError>)
        ensures
            bytes@.len() % W::spec_width() == 0 <==> r is Ok,
            r matches Ok(it) ==> it.input() == bytes@ && it.position() == 0,
            r matches Err(e) ==> e == WordError::InputCanNotBeSplittedByWords(
                bytes@.len() as usize,
                W::spec_width() as usize,
            ),
    {
        proof {
            W::lemma_width();
        }
        let input_len = bytes.len();
        let word_len = W::byte_len();
        if input_len % word_len > 0 {
            Err(WordError::InputCanNotBeSplittedByWords(input_len, word_len))
        } else {
            Ok(WordsIterator { bytes, index: 0, _w: PhantomData })
        }
    }

    /// The next word, or `None` once the buffer is used up.
    pub fn next(&mut self) -> (r: Option<W>)
        ensures
            final(self).input() == old(self).input(),
            final(self).position() <= final(self).input().len(),
            old(self).position() < old(self).input().len() ==> {
                &&& final(self).position() == old(self).position() + W::spec_width()
                &&& r == Some(
                    W::spec_from_le(
                        old(self).input().subrange(
                            old(self).position() as int,
                            final(self).position() as int,
                        ),
                    ),
                )
            },
            old(self).position() >= old(self).input().len() ==> {
                &&& final(self).position() == old(self).position()
                &&& r is None
            },
    {
        proof {
            use_type_invariant(&*self);
            W::lemma_width();
        }
        if self.index < self.bytes.len() {
            let word_len = W::byte_len();
            proof {
                lemma_step_down(self.bytes@.len() - self.index, word_len as int);
            }
            let chunk = slice_subrange(self.bytes, self.index, self.index + word_len);
            let word = W::read_le(chunk);
            self.index = self.index + word_len;
            Some(word)
        } else {
            None
        }
    }
}

/// Reads a byte buffer block by block, a block being two words.
pub struct BlocksIterator<'a, W: Word> {
    bytes: &'a [u8],
    index: usize,
    _w: PhantomData<W>,
}

impl<'a, W: Word> BlocksIterator<'a, W> {
    #[verifier::type_invariant]
    spec fn inv(&self) -> bool {
        &&& self.index <= self.bytes@.len()
        &&& (self.bytes@.len() - self.index) % (2 * W::spec_width() as int) == 0
    }

    /// The buffer being read.
    pub closed spec fn input(&self) -> Seq<u8> {
        self.bytes@
    }

    /// Offset of the next block in the buffer.
    pub closed spec fn position(&self) -> nat {
        self.index as nat
    }

    /// A reader over `bytes`, whose length must be a multiple of the block length.
    pub fn try_from(bytes: &'a [u8]) -> (r: Result<Self, WordError>)
        ensures
            bytes@.len() % (2 * W::spec_width()) == 0 <==> r is Ok,
            r matches Ok(it) ==> it.input() == bytes@ && it.position() == 0,
            r matches Err(e) ==> e == WordError::InputCanNotBeSplittedByBlocks(
                bytes@.len() as usize,
                (2 * W::spec_width()) as usize,
            ),
    {
        proof {
            W::lemma_width();
        }
        let input_len = bytes.len();
        let block_len = 2 * W::byte_len();
        if input_len % block_len > 0 {
            Err(WordError::InputCanNotBeSplittedByBlocks(input_len, block_len))
        } else {
            Ok(BlocksIterator { bytes, index: 0, _w: PhantomData })
        }
    }

    /// The next block as its two words, or `None` once the buffer is used up.
    pub fn next(&mut self) -> (r: Option<(W, W)>)
        ensures
            final(self).input() == old(self).input(),
            final(self).position() <= final(self).input().len(),
            old(self).position() < old(self).input().len() ==> {
                let p = old(self).position() as int;
                let u = W::spec_width() as int;
                &&& final(self).position() == p + 2 * u
                &&& r == Some(
                    (
                        W::spec_from_le(old(self).input().subrange(p, p + u)),
                        W::spec_from_le(old(self).input().subrange(p + u, p + 2 * u)),
                    ),
                )
            },
            old(self).position() >= old(self).input().len() ==> {
                &&& final(self).position() == old(self).position()
                &&& r is None
            },
    {
        proof {
            use_type_invariant(&*self);
            W::lemma_width();
        }
        if self.index < self.bytes.len() {
            let word_len = W::byte_len();
            proof {
                lemma_step_down(self.bytes@.len() - self.index, 2 * word_len as int);
            }
            let first = slice_subrange(self.bytes, self.index, self.index + word_len);
            let second = slice_subrange(self.bytes, self.index + word_len, self.index + 2 * word_len);
            let a = W::read_le(first);
            let b = W::read_le(second);
            self.index = self.index + 2 * word_len;
            Some((a, b))
        } else {
            None
        }
    }
}

} // verus!
