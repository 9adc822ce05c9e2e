use vstd::bytes::*;
use vstd::prelude::*;

verus! {

/// Why a byte buffer cannot be read as words or as blocks of two words.
#[derive(Debug, PartialEq, Eq, Structural)]
pub enum WordError {
    /// The input length (first field) is not a multiple of the block length (second field).
    InputCanNotBeSplittedByBlocks(usize, usize),
    /// The input length (first field) is not a multiple of the word length (second field).
    InputCanNotBeSplittedByWords(usize, usize),
}

/// A machine word of `w` bits on which the cipher computes.
///
/// Every operation is stated by a spec function, and the laws that the
/// cipher relies on (subtraction undoes addition, xor undoes itself, a
/// right rotation undoes a left rotation, the byte encoding is a bijection)
/// are proved for each width.
pub trait Word: Copy + Sized {
    /// Bits in a word (`w`).
    spec fn spec_bits() -> nat;

    /// Bytes in a word (`u = w / 8`).
    spec fn spec_width() -> nat;

    /// Addition modulo `2^w`.
    spec fn spec_add(a: Self, b: Self) -> Self;

    /// Subtraction modulo `2^w`.
    spec fn spec_sub(a: Self, b: Self) -> Self;

    /// Bitwise exclusive or.
    spec fn spec_xor(a: Self, b: Self) -> Self;

    /// Circular left rotation of `x` by `n mod w` bits.
    spec fn spec_rotl(x: Self, n: Self) -> Self;

    /// Circular right rotation of `x` by `n mod w` bits.
    spec fn spec_rotr(x: Self, n: Self) -> Self;

    /// The magic constant `P_w`.
    spec fn spec_p() -> Self;

    /// The magic constant `Q_w`.
    spec fn spec_q() -> Self;

    /// The word whose value is `n`.
    spec fn spec_from_u8(n: u8) -> Self;

    /// Little-endian bytes of a word.
    spec fn spec_to_le(x: Self) -> Seq<u8>;

    /// The word whose little-endian bytes are `s` (of length `spec_width()`).
    spec fn spec_from_le(s: Seq<u8>) -> Self;

    proof fn lemma_width()
        ensures
            1 <= Self::spec_width() <= 8,
            Self::spec_bits() == 8 * Self::spec_width(),
    ;

    proof fn lemma_inverses(a: Self, b: Self)
        ensures
            Self::spec_sub(Self::spec_add(a, b), b) == a,
            Self::spec_xor(Self::spec_xor(a, b), b) == a,
            Self::spec_rotr(Self::spec_rotl(a, b), b) == a,
    ;

    proof fn lemma_to_from_le(x: Self)
        ensures
            Self::spec_to_le(x).len() == Self::spec_width(),
            Self::spec_from_le(Self::spec_to_le(x)) == x,
    ;

    proof fn lemma_from_to_le(s: Seq<u8>)
        requires
            s.len() == Self::spec_width(),
        ensures
            Self::spec_to_le(Self::spec_from_le(s)) == s,
    ;

    fn byte_len() -> (r: usize)
        ensures
            r == Self::spec_width(),
    ;

    fn zero() -> (r: Self)
        ensures
            r == Self::spec_from_u8(0),
    ;

    fn p() -> (r: Self)
        ensures
            r == Self::spec_p(),
    ;

    fn q() -> (r: Self)
        ensures
            r == Self::spec_q(),
    ;

    fn from_u8(n: u8) -> (r: Self)
        ensures
            r == Self::spec_from_u8(n),
    ;

    fn add_w(a: Self, b: Self) -> (r: Self)
        ensures
            r == Self::spec_add(a, b),
    ;

    fn sub_w(a: Self, b: Self) -> (r: Self)
        ensures
            r == Self::spec_sub(a, b),
    ;

    fn xor_w(a: Self, b: Self) -> (r: Self)
        ensures
            r == Self::spec_xor(a, b),
    ;

    fn rotl_w(x: Self, n: Self) -> (r: Self)
        ensures
            r == Self::spec_rotl(x, n),
    ;

    fn rotr_w(x: Self, n: Self) -> (r: Self)
        ensures
            r == Self::spec_rotr(x, n),
    ;

    fn read_le(bytes: &[u8]) -> (r: Self)
        requires
            bytes@.len() == Self::spec_width(),
        ensures
            r == Self::spec_from_le(bytes@),
    ;

    fn append_le(out: &mut Vec<u8>, x: Self)
        ensures
            final(out)@ == old(out)@ + Self::spec_to_le(x),
    ;
}

pub type W8 = u8;

pub type W16 = u16;

pub type W32 = u32;

pub type W64 = u64;

impl Word for u8 {
    open spec fn spec_bits() -> nat {
        8
    }

    open spec fn spec_width() -> nat {
        1
    }

    open spec fn spec_add(a: u8, b: u8) -> u8 {
        a.wrapping_add(b)
    }

    open spec fn spec_sub(a: u8, b: u8) -> u8 {
        a.wrapping_sub(b)
    }

    open spec fn spec_xor(a: u8, b: u8) -> u8 {
        a ^ b
    }

    open spec fn spec_rotl(x: u8, n: u8) -> u8 {
        let k = n % 8;
        if k == 0 {
            x
        } else {
            (x << k) | (x >> (8 - k) as u8)
        }
    }

    open spec fn spec_rotr(x: u8, n: u8) -> u8 {
        let k = n % 8;
        if k == 0 {
            x
        } else {
            (x >> k) | (x << (8 - k) as u8)
        }
    }

    open spec fn spec_p() -> u8 {
        0xB7
    }

    open spec fn spec_q() -> u8 {
        0x9F
    }

    open spec fn spec_from_u8(n: u8) -> u8 {
        n
    }

    open spec fn spec_to_le(x: u8) -> Seq<u8> {
        seq![x]
    }

    open spec fn spec_from_le(s: Seq<u8>) -> u8 {
        s[0]
    }

    proof fn lemma_width() {
    }

    proof fn lemma_inverses(a: u8, b: u8) {
        assert(a ^ b ^ b == a) by (bit_vector);
        let k = b % 8;
        if k != 0 {
            assert(((((a << k) | (a >> (8 - k) as u8)) >> k) | (((a << k) | (a >> (8 - k) as u8))
                << (8 - k) as u8)) == a) by (bit_vector)
                requires
                    0 < k < 8,
            ;
        }
    }

    proof fn lemma_to_from_le(x: u8) {
    }

    proof fn lemma_from_to_le(s: Seq<u8>) {
        assert(seq![s[0]] =~= s);
    }

    fn byte_len() -> (r: usize) {
        1
    }

    fn zero() -> (r: u8) {
        0
    }

    fn p() -> (r: u8) {
        0xB7
    }

    fn q() -> (r: u8) {
        0x9F
    }

    fn from_u8(n: u8) -> (r: u8) {
        n
    }

    fn add_w(a: u8, b: u8) -> (r: u8) {
        a.wrapping_add(b)
    }

    fn sub_w(a: u8, b: u8) -> (r: u8) {
        a.wrapping_sub(b)
    }

    fn xor_w(a: u8, b: u8) -> (r: u8) {
        a ^ b
    }

    fn rotl_w(x: u8, n: u8) -> (r: u8) {
        let k = n % 8;
        if k == 0 {
            x
        } else {
            (x << k) | (x >> (8 - k))
        }
    }

    fn rotr_w(x: u8, n: u8) -> (r: u8) {
        let k = n % 8;
        if k == 0 {
            x
        } else {
            (x >> k) | (x << (8 - k))
        }
    }

    fn read_le(bytes: &[u8]) -> (r: u8) {
        bytes[0]
    }

    fn append_le(out: &mut Vec<u8>, x: u8) {
        out.push(x);
    }
}

impl Word for u16 {
    open spec fn spec_bits() -> nat {
        16
    }

    open spec fn spec_width() -> nat {
        2
    }

    open spec fn spec_add(a: u16, b: u16) -> u16 {
        a.wrapping_add(b)
    }

    open spec fn spec_sub(a: u16, b: u16) -> u16 {
        a.wrapping_sub(b)
    }

    open spec fn spec_xor(a: u16, b: u16) -> u16 {
        a ^ b
    }

    open spec fn spec_rotl(x: u16, n: u16) -> u16 {
        let k = n % 16;
        if k == 0 {
            x
        } else {
            (x << k) | (x >> (16 - k) as u16)
        }
    }

    open spec fn spec_rotr(x: u16, n: u16) -> u16 {
        let k = n % 16;
        if k == 0 {
            x
        } else {
            (x >> k) | (x << (16 - k) as u16)
        }
    }

    open spec fn spec_p() -> u16 {
        0xB7E1
    }

    open spec fn spec_q() -> u16 {
        0x9E37
    }

    open spec fn spec_from_u8(n: u8) -> u16 {
        n as u16
    }

    open spec fn spec_to_le(x: u16) -> Seq<u8> {
        spec_u16_to_le_bytes(x)
    }

    open spec fn spec_from_le(s: Seq<u8>) -> u16 {
        spec_u16_from_le_bytes(s)
    }

    proof fn lemma_width() {
    }

    proof fn lemma_inverses(a: u16, b: u16) {
        assert(a ^ b ^ b == a) by (bit_vector);
        let k = b % 16;
        if k != 0 {
            assert(((((a << k) | (a >> (16 - k) as u16)) >> k) | (((a << k) | (a >> (16 - k) as u16))
                << (16 - k) as u16)) == a) by (bit_vector)
                requires
                    0 < k < 16,
            ;
        }
    }

    proof fn lemma_to_from_le(x: u16) {
        lemma_auto_spec_u16_to_from_le_bytes();
        assert(spec_u16_to_le_bytes(x).len() == 2);
    }

    proof fn lemma_from_to_le(s: Seq<u8>) {
        lemma_auto_spec_u16_to_from_le_bytes();
    }

    fn byte_len() -> (r: usize) {
        2
    }

    fn zero() -> (r: u16) {
        0
    }

    fn p() -> (r: u16) {
        0xB7E1
    }

    fn q() -> (r: u16) {
        0x9E37
    }

    fn from_u8(n: u8) -> (r: u16) {
        n as u16
    }

    fn add_w(a: u16, b: u16) -> (r: u16) {
        a.wrapping_add(b)
    }

    fn sub_w(a: u16, b: u16) -> (r: u16) {
        a.wrapping_sub(b)
    }

    fn xor_w(a: u16, b: u16) -> (r: u16) {
        a ^ b
    }

    fn rotl_w(x: u16, n: u16) -> (r: u16) {
        let k = n % 16;
        if k == 0 {
            x
        } else {
            (x << k) | (x >> (16 - k))
        }
    }

    fn rotr_w(x: u16, n: u16) -> (r: u16) {
        let k = n % 16;
        if k == 0 {
            x
        } else {
            (x >> k) | (x << (16 - k))
        }
    }

    fn read_le(bytes: &[u8]) -> (r: u16) {
        u16_from_le_bytes(bytes)
    }

    fn append_le(out: &mut Vec<u8>, x: u16) {
        let mut bytes = u16_to_le_bytes(x);
        out.append(&mut bytes);
    }
}

impl Word for u32 {
    open spec fn spec_bits() -> nat {
        32
    }

    open spec fn spec_width() -> nat {
        4
    }

    open spec fn spec_add(a: u32, b: u32) -> u32 {
        a.wrapping_add(b)
    }

    open spec fn spec_sub(a: u32, b: u32) -> u32 {
        a.wrapping_sub(b)
    }

    open spec fn spec_xor(a: u32, b: u32) -> u32 {
        a ^ b
    }

    open spec fn spec_rotl(x: u32, n: u32) -> u32 {
        let k = n % 32;
        if k == 0 {
            x
        } else {
            (x << k) | (x >> (32 - k) as u32)
        }
    }

    open spec fn spec_rotr(x: u32, n: u32) -> u32 {
        let k = n % 32;
        if k == 0 {
            x
        } else {
            (x >> k) | (x << (32 - k) as u32)
        }
    }

    open spec fn spec_p() -> u32 {
        0xB7E15163
    }

    open spec fn spec_q() -> u32 {
        0x9E3779B9
    }

    open spec fn spec_from_u8(n: u8) -> u32 {
        n as u32
    }

    open spec fn spec_to_le(x: u32) -> Seq<u8> {
        spec_u32_to_le_bytes(x)
    }

    open spec fn spec_from_le(s: Seq<u8>) -> u32 {
        spec_u32_from_le_bytes(s)
    }

    proof fn lemma_width() {
    }

    proof fn lemma_inverses(a: u32, b: u32) {
        assert(a ^ b ^ b == a) by (bit_vector);
        let k = b % 32;
        if k != 0 {
            assert(((((a << k) | (a >> (32 - k) as u32)) >> k) | (((a << k) | (a >> (32 - k) as u32))
                << (32 - k) as u32)) == a) by (bit_vector)
                requires
                    0 < k < 32,
            ;
        }
    }

    proof fn lemma_to_from_le(x: u32) {
        lemma_auto_spec_u32_to_from_le_bytes();
        assert(spec_u32_to_le_bytes(x).len() == 4);
    }

    proof fn lemma_from_to_le(s: Seq<u8>) {
        lemma_auto_spec_u32_to_from_le_bytes();
    }

    fn byte_len() -> (r: usize) {
        4
    }

    fn zero() -> (r: u32) {
        0
    }

    fn p() -> (r: u32) {
        0xB7E15163
    }

    fn q() -> (r: u32) {
        0x9E3779B9
    }

    fn from_u8(n: u8) -> (r: u32) {
        n as u32
    }

    fn add_w(a: u32, b: u32) -> (r: u32) {
        a.wrapping_add(b)
    }

    fn sub_w(a: u32, b: u32) -> (r: u32) {
        a.wrapping_sub(b)
    }

    fn xor_w(a: u32, b: u32) -> (r: u32) {
        a ^ b
    }

    fn rotl_w(x: u32, n: u32) -> (r: u32) {
        let k = n % 32;
        if k == 0 {
            x
        } else {
            (x << k) | (x >> (32 - k))
        }
    }

    fn rotr_w(x: u32, n: u32) -> (r: u32) {
        let k = n % 32;
        if k == 0 {
            x
        } else {
            (x >> k) | (x << (32 - k))
        }
    }

    fn read_le(bytes: &[u8]) -> (r: u32) {
        u32_from_le_bytes(bytes)
    }

    fn append_le(out: &mut Vec<u8>, x: u32) {
        let mut bytes = u32_to_le_bytes(x);
        out.append(&mut bytes);
    }
}

impl Word for u64 {
    open spec fn spec_bits() -> nat {
        64
    }

    open spec fn spec_width() -> nat {
        8
    }

    open spec fn spec_add(a: u64, b: u64) -> u64 {
        a.wrapping_add(b)
    }

    open spec fn spec_sub(a: u64, b: u64) -> u64 {
        a.wrapping_sub(b)
    }

    open spec fn spec_xor(a: u64, b: u64) -> u64 {
        a ^ b
    }

    open spec fn spec_rotl(x: u64, n: u64) -> u64 {
        let k = n % 64;
        if k == 0 {
            x
        } else {
            (x << k) | (x >> (64 - k) as u64)
        }
    }

    open spec fn spec_rotr(x: u64, n: u64) -> u64 {
        let k = n % 64;
        if k == 0 {
            x
        } else {
            (x >> k) | (x << (64 - k) as u64)
        }
    }

    open spec fn spec_p() -> u64 {
        0xB7E151628AED2A6B
    }

    open spec fn spec_q() -> u64 {
        0x9E3779B97F4A7C15
    }

    open spec fn spec_from_u8(n: u8) -> u64 {
        n as u64
    }

    open spec fn spec_to_le(x: u64) -> Seq<u8> {
        spec_u64_to_le_bytes(x)
    }

    open spec fn spec_from_le(s: Seq<u8>) -> u64 {
        spec_u64_from_le_bytes(s)
    }

    proof fn lemma_width() {
    }

    proof fn lemma_inverses(a: u64, b: u64) {
        assert(a ^ b ^ b == a) by (bit_vector);
        let k = b % 64;
        if k != 0 {
            assert(((((a << k) | (a >> (64 - k) as u64)) >> k) | (((a << k) | (a >> (64 - k) as u64))
                << (64 - k) as u64)) == a) by (bit_vector)
                requires
                    0 < k < 64,
            ;
        }
    }

    proof fn lemma_to_from_le(x: u64) {
        lemma_auto_spec_u64_to_from_le_bytes();
        assert(spec_u64_to_le_bytes(x).len() == 8);
    }

    proof fn lemma_from_to_le(s: Seq<u8>) {
        lemma_auto_spec_u64_to_from_le_bytes();
    }

    fn byte_len() -> (r: usize) {
        8
    }

    fn zero() -> (r: u64) {
        0
    }

    fn p() -> (r: u64) {
        0xB7E151628AED2A6B
    }

    fn q() -> (r: u64) {
        0x9E3779B97F4A7C15
    }

    fn from_u8(n: u8) -> (r: u64) {
        n as u64
    }

    fn add_w(a: u64, b: u64) -> (r: u64) {
        a.wrapping_add(b)
    }

    fn sub_w(a: u64, b: u64) -> (r: u64) {
        a.wrapping_sub(b)
    }

    fn xor_w(a: u64, b: u64) -> (r: u64) {
        a ^ b
    }

    fn rotl_w(x: u64, n: u64) -> (r: u64) {
        let k = n % 64;
        if k == 0 {
            x
        } else {
            (x << k) | (x >> (64 - k))
        }
    }

    fn rotr_w(x: u64, n: u64) -> (r: u64) {
        let k = n % 64;
        if k == 0 {
            x
        } else {
            (x >> k) | (x << (64 - k))
        }
    }

    fn read_le(bytes: &[u8]) -> (r: u64) {
        u64_from_le_bytes(bytes)
    }

    fn append_le(out: &mut Vec<u8>, x: u64) {
        let mut bytes = u64_to_le_bytes(x);
        out.append(&mut bytes);
    }
}

} // verus!
