//! A machine word as little-endian limbs.
use vstd::prelude::*;

verus! {

/// The bits of a limb.
pub const LIMB_BITS: usize = 8;

/// The bits of a word.
pub const WORD_BITS: usize = 32;

/// The number of limbs of a word.
pub const N_LIMBS: usize = 4;

/// Returns the number of limbs of a word: `WORD_BITS / LIMB_BITS`.
pub fn n_limbs() -> (r: usize)
    ensures
        r == WORD_BITS / LIMB_BITS,
        r == N_LIMBS,
        r % 2 == 0,
{
    WORD_BITS / LIMB_BITS
}

/// A word as its limbs, least significant first.
#[derive(Clone, Copy, Eq, PartialEq, Debug)]
pub struct Word<T> {
    pub limbs: [T; 4],
}

/// The value of byte limbs, least significant first.
pub open spec fn limbs_value(l: [u8; 4]) -> int {
    l[0] + 256 * l[1] + 65536 * l[2] + 16777216 * l[3]
}

impl Word<u8> {
    /// The limbs of `x`.
    pub fn from_u32(x: u32) -> (r: Self)
        ensures
            limbs_value(r.limbs) == x,
    {
        let l0 = (x % 256) as u8;
        let l1 = ((x / 256) % 256) as u8;
        let l2 = ((x / 65536) % 256) as u8;
        let l3 = (x / 16777216) as u8;
        Word { limbs: [l0, l1, l2, l3] }
    }

    /// The word that the limbs make up.
    pub fn to_u32(&self) -> (r: u32)
        ensures
            r == limbs_value(self.limbs),
    {
        self.limbs[0] as u32 + 256 * self.limbs[1] as u32 + 65536 * self.limbs[2] as u32
            + 16777216 * self.limbs[3] as u32
    }
}

} // verus!
