use crate::error::Rc5Error;
use crate::key::Key;
use crate::Rc5;
use crate::readers::{lemma_step_down, words_of, BlocksIterator, WordsIterator};
use crate::word::{Word, WordError};
use vstd::arithmetic::div_mod::{lemma_add_mod_noop_right, lemma_small_mod};
use vstd::prelude::*;

verus! {

/// `S[i]` of the table before mixing: `P_w` plus `i` times `Q_w`, modulo `2^w`.
pub open spec fn magic_word<W: Word>(i: nat) -> W
    decreases i,
{
    if i == 0 {
        W::spec_p()
    } else {
        W::spec_add(magic_word::<W>((i - 1) as nat), W::spec_q())
    }
}

/// The state `(S, L, A, B)` after `k` steps of the key-mixing loop that
/// starts from tables `s` and `l`.
pub open spec fn mix<W: Word>(s: Seq<W>, l: Seq<W>, k: nat) -> (Seq<W>, Seq<W>, W, W)
    decreases k,
{
    if k == 0 {
        (s, l, W::spec_from_u8(0), W::spec_from_u8(0))
    } else {
        let (s1, l1, a, b) = mix(s, l, (k - 1) as nat);
        let i = (k - 1) as int % (s.len() as int);
        let j = (k - 1) as int % (l.len() as int);
        let a2 = W::spec_rotl(W::spec_add(W::spec_add(s1[i as int], a), b), W::spec_from_u8(3));
        let ab = W::spec_add(a2, b);
        let b2 = W::spec_rotl(W::spec_add(l1[j as int], ab), ab);
        (s1.update(i as int, a2), l1.update(j as int, b2), a2, b2)
    }
}

/// Number of steps of the key-mixing loop: `3 * max(t, c)`.
pub open spec fn mix_steps(t: nat, c: nat) -> nat {
    3 * if t > c {
        t
    } else {
        c
    }
}

/// The subkey table of `2 * (rounds + 1)` words that `key` expands to.
pub open spec fn expand_key_spec<W: Word>(key: Seq<u8>, rounds: nat) -> Seq<W> {
    let t = 2 * (rounds + 1);
    let l = words_of::<W>(key);
    let s = Seq::new(t, |i: int| magic_word::<W>(i as nat));
    mix(s, l, mix_steps(t, l.len())).0
}

/// The block `(a, b)` after the whitening step and rounds `1..=i` of encryption.
pub open spec fn encrypt_rounds<W: Word>(s: Seq<W>, i: nat, a: W, b: W) -> (W, W)
    decreases i,
{
    if i == 0 {
        (W::spec_add(a, s[0]), W::spec_add(b, s[1]))
    } else {
        let (x, y) = encrypt_rounds(s, (i - 1) as nat, a, b);
        let x2 = W::spec_add(W::spec_rotl(W::spec_xor(x, y), y), s[2 * i as int]);
        let y2 = W::spec_add(W::spec_rotl(W::spec_xor(y, x2), x2), s[2 * i as int + 1]);
        (x2, y2)
    }
}

/// The block `(a, b)` after undoing rounds `i` down to `1`, then the whitening step.
pub open spec fn decrypt_rounds<W: Word>(s: Seq<W>, i: nat, a: W, b: W) -> (W, W)
    decreases i,
{
    if i == 0 {
        (W::spec_sub(a, s[0]), W::spec_sub(b, s[1]))
    } else {
        let y = W::spec_xor(W::spec_rotr(W::spec_sub(b, s[2 * i as int + 1]), a), a);
        let x = W::spec_xor(W::spec_rotr(W::spec_sub(a, s[2 * i as int]), y), y);
        decrypt_rounds(s, (i - 1) as nat, x, y)
    }
}

/// Bytes per block: two words.
pub open spec fn block_len<W: Word>() -> nat {
    2 * W::spec_width()
}

/// The ciphertext bytes of one block of plaintext bytes.
pub open spec fn encrypt_block<W: Word>(s: Seq<W>, rounds: nat, blk: Seq<u8>) -> Seq<u8> {
    let u = W::spec_width() as int;
    let (a, b) = encrypt_rounds(
        s,
        rounds,
        W::spec_from_le(blk.subrange(0, u)),
        W::spec_from_le(blk.subrange(u, 2 * u)),
    );
    W::spec_to_le(a) + W::spec_to_le(b)
}

/// The plaintext bytes of one block of ciphertext bytes.
pub open spec fn decrypt_block<W: Word>(s: Seq<W>, rounds: nat, blk: Seq<u8>) -> Seq<u8> {
    let u = W::spec_width() as int;
    let (a, b) = decrypt_rounds(
        s,
        rounds,
        W::spec_from_le(blk.subrange(0, u)),
        W::spec_from_le(blk.subrange(u, 2 * u)),
    );
    W::spec_to_le(a) + W::spec_to_le(b)
}

/// Encryption of a buffer, block by block in order.
pub open spec fn encode_bytes<W: Word>(s: Seq<W>, rounds: nat, pt: Seq<u8>) -> Seq<u8>
    decreases pt.len(),
{
    let n = block_len::<W>();
    if n == 0 || pt.len() < n {
        Seq::empty()
    } else {
        let m = pt.len() - n;
        encode_bytes(s, rounds, pt.subrange(0, m)) + encrypt_block(
            s,
            rounds,
            pt.subrange(m, pt.len() as int),
        )
    }
}

/// Decryption of a buffer, block by block in order.
pub open spec fn decode_bytes<W: Word>(s: Seq<W>, rounds: nat, ct: Seq<u8>) -> Seq<u8>
    decreases ct.len(),
{
    let n = block_len::<W>();
    if n == 0 || ct.len() < n {
        Seq::empty()
    } else {
        let m = ct.len() - n;
        decode_bytes(s, rounds, ct.subrange(0, m)) + decrypt_block(
            s,
            rounds,
            ct.subrange(m, ct.len() as int),
        )
    }
}

/// Decrypting with rounds `i..=1` undoes encrypting with rounds `1..=i`.
pub proof fn lemma_decrypt_encrypt_rounds<W: Word>(s: Seq<W>, i: nat, a: W, b: W)
    ensures
        ({
            let (x, y) = encrypt_rounds(s, i, a, b);
            decrypt_rounds(s, i, x, y) == (a, b)
        }),
    decreases i,
{
    if i == 0 {
        W::lemma_inverses(a, s[0]);
        W::lemma_inverses(b, s[1]);
    } else {
        let (x, y) = encrypt_rounds(s, (i - 1) as nat, a, b);
        let x2 = W::spec_add(W::spec_rotl(W::spec_xor(x, y), y), s[2 * i as int]);
        let y2 = W::spec_add(W::spec_rotl(W::spec_xor(y, x2), x2), s[2 * i as int + 1]);
        W::lemma_inverses(W::spec_rotl(W::spec_xor(y, x2), x2), s[2 * i as int + 1]);
        W::lemma_inverses(W::spec_xor(y, x2), x2);
        W::lemma_inverses(y, x2);
        W::lemma_inverses(W::spec_rotl(W::spec_xor(x, y), y), s[2 * i as int]);
        W::lemma_inverses(W::spec_xor(x, y), y);
        W::lemma_inverses(x, y);
        lemma_decrypt_encrypt_rounds(s, (i - 1) as nat, a, b);
    }
}

/// An encrypted block has the length of a block.
pub proof fn lemma_block_len<W: Word>(s: Seq<W>, rounds: nat, blk: Seq<u8>)
    ensures
        encrypt_block(s, rounds, blk).len() == block_len::<W>(),
        decrypt_block(s, rounds, blk).len() == block_len::<W>(),
{
    let u = W::spec_width() as int;
    let (a, b) = encrypt_rounds(
        s,
        rounds,
        W::spec_from_le(blk.subrange(0, u)),
        W::spec_from_le(blk.subrange(u, 2 * u)),
    );
    W::lemma_to_from_le(a);
    W::lemma_to_from_le(b);
    let (c, d) = decrypt_rounds(
        s,
        rounds,
        W::spec_from_le(blk.subrange(0, u)),
        W::spec_from_le(blk.subrange(u, 2 * u)),
    );
    W::lemma_to_from_le(c);
    W::lemma_to_from_le(d);
}

/// Decrypting an encrypted block gives the block back.
pub proof fn lemma_block_round_trip<W: Word>(s: Seq<W>, rounds: nat, blk: Seq<u8>)
    requires
        blk.len() == block_len::<W>(),
    ensures
        decrypt_block(s, rounds, encrypt_block(s, rounds, blk)) == blk,
{
    let u = W::spec_width() as int;
    let a = W::spec_from_le(blk.subrange(0, u));
    let b = W::spec_from_le(blk.subrange(u, 2 * u));
    let (x, y) = encrypt_rounds(s, rounds, a, b);
    let ct = encrypt_block(s, rounds, blk);
    W::lemma_to_from_le(x);
    W::lemma_to_from_le(y);
    assert(ct.subrange(0, u) =~= W::spec_to_le(x));
    assert(ct.subrange(u, 2 * u) =~= W::spec_to_le(y));
    lemma_decrypt_encrypt_rounds(s, rounds, a, b);
    W::lemma_from_to_le(blk.subrange(0, u));
    W::lemma_from_to_le(blk.subrange(u, 2 * u));
    assert(blk.subrange(0, u) + blk.subrange(u, 2 * u) =~= blk);
}

/// Encryption and decryption of a whole number of blocks keep the length.
pub proof fn lemma_bytes_len<W: Word>(s: Seq<W>, rounds: nat, data: Seq<u8>)
    requires
        data.len() % block_len::<W>() == 0,
    ensures
        encode_bytes(s, rounds, data).len() == data.len(),
        decode_bytes(s, rounds, data).len() == data.len(),
    decreases data.len(),
{
    W::lemma_width();
    let n = block_len::<W>();
    if data.len() < n {
        lemma_small_mod(data.len(), n);
    } else {
        let m = data.len() - n;
        lemma_step_down(data.len() as int, n as int);
        lemma_bytes_len(s, rounds, data.subrange(0, m));
        lemma_block_len(s, rounds, data.subrange(m, data.len() as int));
    }
}

/// Decoding the encoding of a whole number of blocks gives them back.
pub proof fn lemma_bytes_round_trip<W: Word>(s: Seq<W>, rounds: nat, pt: Seq<u8>)
    requires
        pt.len() % block_len::<W>() == 0,
    ensures
        decode_bytes(s, rounds, encode_bytes(s, rounds, pt)) == pt,
    decreases pt.len(),
{
    W::lemma_width();
    let n = block_len::<W>();
    if pt.len() < n {
        lemma_small_mod(pt.len(), n);
        assert(pt =~= Seq::<u8>::empty());
    } else {
        let m = pt.len() - n;
        let pre = pt.subrange(0, m);
        let last = pt.subrange(m, pt.len() as int);
        lemma_step_down(pt.len() as int, n as int);
        lemma_bytes_len(s, rounds, pre);
        lemma_block_len(s, rounds, last);
        lemma_bytes_round_trip(s, rounds, pre);
        lemma_block_round_trip(s, rounds, last);
        let ct = encode_bytes(s, rounds, pt);
        assert(ct.subrange(0, m) =~= encode_bytes(s, rounds, pre));
        assert(ct.subrange(m, ct.len() as int) =~= encrypt_block(s, rounds, last));
        assert(pre + last =~= pt);
    }
}

/// Decoding undoes encoding: for every engine and every plaintext that is
/// a whole number of blocks, `decode(encode(pt)) == pt`.
pub proof fn lemma_round_trip<W: Word>(e: Endec<W>, pt: Seq<u8>)
    requires
        pt.len() % e.block_bytes() == 0,
    ensures
        e.decoded(e.encoded(pt)) == pt,
{
    lemma_bytes_round_trip(e.subkeys(), e.rounds(), pt);
}

/// Encoding and decoding keep the length of a buffer that is a whole number
/// of blocks.
pub proof fn lemma_length_preserved<W: Word>(e: Endec<W>, data: Seq<u8>)
    requires
        data.len() % e.block_bytes() == 0,
    ensures
        e.encoded(data).len() == data.len(),
        e.decoded(data).len() == data.len(),
{
    lemma_bytes_len(e.subkeys(), e.rounds(), data);
}

/// Two engines set up from the same key and rounds encode and decode every
/// input alike.
pub proof fn lemma_deterministic<W: Word>(
    e1: Endec<W>,
    e2: Endec<W>,
    key: Seq<u8>,
    rounds: nat,
    input: Seq<u8>,
)
    requires
        set_up_from(Ok(e1), key, rounds),
        set_up_from(Ok(e2), key, rounds),
    ensures
        e1.encoded(input) == e2.encoded(input),
        e1.decoded(input) == e2.decoded(input),
{
}

/// `(k % m + 1) % m` is `(k + 1) % m`.
proof fn lemma_mod_succ(k: int, m: int)
    requires
        0 < m,
    ensures
        (k % m + 1) % m == (k + 1) % m,
{
    lemma_add_mod_noop_right(1, k, m);
}

/// What setting up an engine from `key` and `rounds` gives: an engine with
/// the expanded table when the key length is a multiple of the word length,
/// else the error that names both lengths.
pub open spec fn set_up_from<W: Word>(
    r: Result<Endec<W>, Rc5Error>,
    key: Seq<u8>,
    rounds: nat,
) -> bool {
    &&& key.len() % W::spec_width() == 0 <==> r is Ok
    &&& r matches Ok(e) ==> {
        &&& e.subkeys() == expand_key_spec::<W>(key, rounds)
        &&& e.rounds() == rounds
        &&& e.subkeys().len() == 2 * (rounds + 1)
    }
    &&& r matches Err(e) ==> e == Rc5Error::WordError(
        WordError::InputCanNotBeSplittedByWords(key.len() as usize, W::spec_width() as usize),
    )
}

/// The cipher engine of one word width: the rounds and the subkey table
/// that the key expanded to.
pub struct Endec<W: Word> {
    s: Vec<W>,
    rounds: usize,
}

impl<W: Word> Endec<W> {
    #[verifier::type_invariant]
    spec fn inv(&self) -> bool {
        self.s@.len() == 2 * (self.rounds + 1)
    }

    /// The subkey table `S`.
    pub closed spec fn subkeys(&self) -> Seq<W> {
        self.s@
    }

    /// The number of rounds `r`.
    pub closed spec fn rounds(&self) -> nat {
        self.rounds as nat
    }

    /// An engine for `key` and `rounds`; the key length must be a multiple
    /// of the word length.
    pub fn setup(key: Key, rounds: usize) -> (r: Result<Self, Rc5Error>)
        requires
            6 * (rounds + 1) <= usize::MAX,
        ensures
            set_up_from(r, key.bytes(), rounds as nat),
    {
        match Self::expand_key(key, rounds) {
            Ok(s) => Ok(Endec { s, rounds }),
            Err(e) => Err(e),
        }
    }

    /// The subkey table for `key` and `rounds`.
    fn expand_key(key: Key, rounds: usize) -> (r: Result<Vec<W>, Rc5Error>)
        requires
            6 * (rounds + 1) <= usize::MAX,
        ensures
            key.bytes().len() % W::spec_width() == 0 <==> r is Ok,
            r matches Ok(s) ==> s@ == expand_key_spec::<W>(key.bytes(), rounds as nat) && s@.len()
                == 2 * (rounds + 1),
            r matches Err(e) ==> e == Rc5Error::WordError(
                WordError::InputCanNotBeSplittedByWords(
                    key.bytes().len() as usize,
                    W::spec_width() as usize,
                ),
            ),
    {
        proof {
            W::lemma_width();
        }
        let raw = key.raw();
        let mut words = match WordsIterator::<W>::try_from(raw) {
            Ok(it) => it,
            Err(e) => {
                return Err(Rc5Error::WordError(e));
            },
        };
        let word_len = W::byte_len();
        let mut l: Vec<W> = Vec::new();
        loop
            invariant
                words.input() == raw@,
                words.position() <= raw@.len(),
                1 <= raw@.len(),
                raw@.len() % W::spec_width() == 0,
                word_len == W::spec_width(),
                1 <= word_len <= 8,
                l@ == words_of::<W>(raw@.subrange(0, words.position() as int)),
                l@.len() <= words.position(),
            ensures
                words.position() == raw@.len(),
            decreases raw@.len() - words.position(),
        {
            let ghost p = words.position();
            match words.next() {
                Some(w) => {
                    l.push(w);
                    proof {
                        let q = words.position() as int;
                        let pre = raw@.subrange(0, q);
                        assert(pre.subrange(0, p as int) =~= raw@.subrange(0, p as int));
                        assert(pre.subrange(p as int, q) =~= raw@.subrange(p as int, q));
                    }
                },
                None => {
                    break ;
                },
            }
        }
        assert(raw@.subrange(0, raw@.len() as int) =~= raw@);
        let ghost key_words = l@;
        proof {
            lemma_step_down(raw@.len() as int, word_len as int);
            assert(key_words.len() >= 1);
        }
        let c = l.len();
        let t = 2 * (rounds + 1);
        let mut s: Vec<W> = Vec::with_capacity(t);
        s.push(W::p());
        while s.len() < t
            invariant
                t == 2 * (rounds + 1),
                1 <= s@.len() <= t,
                forall|i: int| 0 <= i < s@.len() ==> #[trigger] s@[i] == magic_word::<W>(i as nat),
            decreases t - s@.len(),
        {
            let next = W::add_w(s[s.len() - 1], W::q());
            s.push(next);
        }
        let ghost s0 = s@;
        assert(s0 =~= Seq::new(t as nat, |i: int| magic_word::<W>(i as nat)));
        let steps = 3 * if t > c {
            t
        } else {
            c
        };
        let mut a = W::zero();
        let mut b = W::zero();
        let mut i: usize = 0;
        let mut j: usize = 0;
        let mut k: usize = 0;
        let three = W::from_u8(3);
        while k < steps
            invariant
                steps == mix_steps(t as nat, c as nat),
                s0.len() == t,
                key_words.len() == c,
                2 <= t,
                1 <= c,
                k <= steps,
                s@.len() == t,
                l@.len() == c,
                i == k % t,
                j == k % c,
                three == W::spec_from_u8(3),
                mix(s0, key_words, k as nat) == (s@, l@, a, b),
            decreases steps - k,
        {
            a = W::rotl_w(W::add_w(W::add_w(s[i], a), b), three);
            s.set(i, a);
            let ab = W::add_w(a, b);
            b = W::rotl_w(W::add_w(l[j], ab), ab);
            l.set(j, b);
            proof {
                lemma_mod_succ(k as int, t as int);
                lemma_mod_succ(k as int, c as int);
            }
            i = (i + 1) % t;
            j = (j + 1) % c;
            k = k + 1;
        }
        Ok(s)
    }

    /// Encrypts the block `(a0, b0)`.
    fn encrypt_words(&self, a0: W, b0: W) -> (r: (W, W))
        ensures
            r == encrypt_rounds(self.subkeys(), self.rounds(), a0, b0),
    {
        proof {
            use_type_invariant(self);
        }
        let mut a = W::add_w(a0, self.s[0]);
        let mut b = W::add_w(b0, self.s[1]);
        let t = self.s.len();
        let mut i: usize = 1;
        while i <= self.rounds
            invariant
                1 <= i <= self.rounds + 1,
                t == self.s@.len(),
                self.s@.len() == 2 * (self.rounds + 1),
                (a, b) == encrypt_rounds(self.s@, (i - 1) as nat, a0, b0),
            decreases self.rounds + 1 - i,
        {
            a = W::add_w(W::rotl_w(W::xor_w(a, b), b), self.s[2 * i]);
            b = W::add_w(W::rotl_w(W::xor_w(b, a), a), self.s[2 * i + 1]);
            i = i + 1;
        }
        (a, b)
    }

    /// Decrypts the block `(a0, b0)`.
    fn decrypt_words(&self, a0: W, b0: W) -> (r: (W, W))
        ensures
            r == decrypt_rounds(self.subkeys(), self.rounds(), a0, b0),
    {
        proof {
            use_type_invariant(self);
        }
        let mut a = a0;
        let mut b = b0;
        let t = self.s.len();
        let mut i: usize = self.rounds;
        while i > 0
            invariant
                i <= self.rounds,
                t == self.s@.len(),
                self.s@.len() == 2 * (self.rounds + 1),
                decrypt_rounds(self.s@, i as nat, a, b) == decrypt_rounds(
                    self.s@,
                    self.rounds as nat,
                    a0,
                    b0,
                ),
            decreases i,
        {
            b = W::xor_w(W::rotr_w(W::sub_w(b, self.s[2 * i + 1]), a), a);
            a = W::xor_w(W::rotr_w(W::sub_w(a, self.s[2 * i]), b), b);
            i = i - 1;
        }
        a = W::sub_w(a, self.s[0]);
        b = W::sub_w(b, self.s[1]);
        (a, b)
    }

    /// Runs `encrypt_words` (or, with `decrypt`, `decrypt_words`) over
    /// every block of `input`.
    fn transform(&self, input: &[u8], decrypt: bool) -> (r: Result<Vec<u8>, Rc5Error>)
        ensures
            input@.len() % block_len::<W>() == 0 <==> r is Ok,
            r matches Ok(out) ==> out@ == if decrypt {
                decode_bytes(self.subkeys(), self.rounds(), input@)
            } else {
                encode_bytes(self.subkeys(), self.rounds(), input@)
            },
            r matches Err(e) ==> e == Rc5Error::WordError(
                WordError::InputCanNotBeSplittedByBlocks(
                    input@.len() as usize,
                    block_len::<W>() as usize,
                ),
            ),
    {
        proof {
            W::lemma_width();
        }
        let mut blocks = match BlocksIterator::<W>::try_from(input) {
            Ok(it) => it,
            Err(e) => {
                return Err(Rc5Error::WordError(e));
            },
        };
        let ghost u = W::spec_width() as int;
        let mut result: Vec<u8> = Vec::with_capacity(input.len());
        loop
            invariant
                blocks.input() == input@,
                blocks.position() <= input@.len(),
                u == W::spec_width(),
                1 <= u <= 8,
                result@ == if decrypt {
                    decode_bytes(self.subkeys(), self.rounds(), input@.subrange(0, blocks.position() as int))
                } else {
                    encode_bytes(self.subkeys(), self.rounds(), input@.subrange(0, blocks.position() as int))
                },
            ensures
                blocks.position() == input@.len(),
            decreases input@.len() - blocks.position(),
        {
            let ghost p = blocks.position() as int;
            let ghost before = result@;
            match blocks.next() {
                Some((a0, b0)) => {
                    let (a, b) = if decrypt {
                        self.decrypt_words(a0, b0)
                    } else {
                        self.encrypt_words(a0, b0)
                    };
                    W::append_le(&mut result, a);
                    W::append_le(&mut result, b);
                    proof {
                        let q = p + 2 * u;
                        let pre = input@.subrange(0, q);
                        let blk = pre.subrange(p, q);
                        assert(pre.subrange(0, p) =~= input@.subrange(0, p));
                        assert(blk.subrange(0, u) =~= input@.subrange(p, p + u));
                        assert(blk.subrange(u, 2 * u) =~= input@.subrange(p + u, q));
                        assert(result@ =~= before + (W::spec_to_le(a) + W::spec_to_le(b)));
                    }
                },
                None => {
                    break ;
                },
            }
        }
        assert(input@.subrange(0, input@.len() as int) =~= input@);
        Ok(result)
    }
}

impl<W: Word> Rc5 for Endec<W> {
    open spec fn block_bytes(&self) -> nat {
        block_len::<W>()
    }

    open spec fn encoded(&self, pt: Seq<u8>) -> Seq<u8> {
        encode_bytes(self.subkeys(), self.rounds(), pt)
    }

    open spec fn decoded(&self, ct: Seq<u8>) -> Seq<u8> {
        decode_bytes(self.subkeys(), self.rounds(), ct)
    }

    fn encode(&self, plaintext: &[u8]) -> (r: Result<Vec<u8>, Rc5Error>) {
        self.transform(plaintext, false)
    }

    fn decode(&self, ciphertext: &[u8]) -> (r: Result<Vec<u8>, Rc5Error>) {
        self.transform(ciphertext, true)
    }
}

} // verus!
