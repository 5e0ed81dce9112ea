use vstd::prelude::*;

verus! {

/// A 32-byte transaction hash, held as two 128-bit words
/// (most significant first).
#[derive(Clone, Copy, Debug, PartialEq, Eq, Hash, Structural)]
pub struct TransactionId {
    pub hi: u128,
    pub lo: u128,
}

impl TransactionId {
    pub fn new(hi: u128, lo: u128) -> (r: TransactionId)
        ensures
            r.hi == hi,
            r.lo == lo,
    {
        TransactionId { hi, lo }
    }
}

} // verus!
