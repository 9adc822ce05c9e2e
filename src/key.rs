use vstd::prelude::*;

verus! {

/// Why a byte string is not a valid key.
#[derive(Debug, PartialEq, Eq, Structural)]
pub enum KeyError {
    /// The key length, which is outside `1..=256`.
    InvalidLength(usize),
}

/// Largest accepted key length, in bytes.
pub const MAX_KEY_LEN: usize = 256;

/// An RC5 key: between 1 and 256 bytes.
#[derive(Debug)]
pub struct Key {
    value: Vec<u8>,
}

impl Key {
    #[verifier::type_invariant]
    spec fn inv(&self) -> bool {
        1 <= self.value@.len() <= MAX_KEY_LEN
    }

    /// The key bytes.
    pub closed spec fn bytes(&self) -> Seq<u8> {
        self.value@
    }

    /// Builds a key from `value`, which must hold 1 to 256 bytes.
    pub fn try_from(value: &[u8]) -> (r: Result<Key, KeyError>)
        ensures
            1 <= value@.len() <= MAX_KEY_LEN <==> r is Ok,
            r matches Ok(k) ==> k.bytes() == value@,
            r matches Err(e) ==> e == KeyError::InvalidLength(value@.len() as usize),
    {
        let len = value.len();
        if len == 0 || len > MAX_KEY_LEN {
            Err(KeyError::InvalidLength(len))
        } else {
            let mut bytes: Vec<u8> = Vec::with_capacity(len);
            let mut i: usize = 0;
            while i < len
                invariant
                    len == value@.len(),
                    i <= len,
                    bytes@ == value@.subrange(0, i as int),
                decreases len - i,
            {
                bytes.push(value[i]);
                i += 1;
                assert(bytes@ =~= value@.subrange(0, i as int));
            }
            assert(bytes@ =~= value@);
            Ok(Key { value: bytes })
        }
    }

    /// Read-only view of the key bytes.
    pub fn raw(&self) -> (r: &[u8])
        ensures
            r@ == self.bytes(),
            1 <= r@.len() <= MAX_KEY_LEN,
    {
        proof {
            use_type_invariant(self);
        }
        self.value.as_slice()
    }
}

} // verus!
