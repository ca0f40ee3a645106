use vstd::prelude::*;

verus! {

/// A 160-bit account address, held as two plain integers so that the
/// verifier can reason about equality of addresses structurally.
///
/// The address value is `hi * 2^128 + lo`, with `hi` covering the top
/// 32 bits and `lo` the bottom 128 bits.
#[derive(Clone, Copy, PartialEq, Eq, Structural, Debug, Hash)]
pub struct Address {
    pub hi: u32,
    pub lo: u128,
}

impl Address {
    /// The all-zero address.
    pub fn zero() -> (r: Address)
        ensures
            r == (Address { hi: 0, lo: 0 }),
    {
        Address { hi: 0, lo: 0 }
    }

    /// An address whose low bits are the given integer; convenient for
    /// naming distinct test accounts.
    pub fn from_u64(x: u64) -> (r: Address)
        ensures
            r == (Address { hi: 0, lo: x as u128 }),
    {
        Address { hi: 0, lo: x as u128 }
    }
}

} // verus!
