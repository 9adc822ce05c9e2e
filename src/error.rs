use crate::key::KeyError;
use crate::word::WordError;
use vstd::prelude::*;

verus! {

/// Every way in which building or running the cipher can fail.
#[derive(Debug, PartialEq, Eq)]
pub enum Rc5Error {
    /// An invariant of the engine did not hold; valid inputs never give it.
    InternalError(String),
    /// The key was rejected.
    KeyError(KeyError),
    /// A buffer did not split into words or blocks.
    WordError(WordError),
}

} // verus!
