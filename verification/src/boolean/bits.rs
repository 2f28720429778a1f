//! A boolean as a single bit, and back.

use super::Boolean;
use crate::traits::{FromBits, ToBits};
use vstd::prelude::*;

verus! {

impl FromBits for Boolean {
    /// A boolean is made of exactly one bit.
    open spec fn valid_bits(bits: Seq<Boolean>) -> bool {
        bits.len() == 1
    }

    /// The boolean of a little-endian list of exactly one bit: that bit.
    fn from_bits_le(bits_le: &[Boolean]) -> (r: Boolean)
        ensures
            r.copies(bits_le@[0]),
    {
        bits_le[0].duplicate()
    }

    /// The boolean of a big-endian list of exactly one bit: that bit.
    fn from_bits_be(bits_be: &[Boolean]) -> (r: Boolean)
        ensures
            r.copies(bits_be@[0]),
    {
        bits_be[0].duplicate()
    }
}

impl ToBits for Boolean {
    /// The little-endian bits of the boolean: the boolean itself.
    fn to_bits_le(&self) -> (r: Vec<Boolean>)
        ensures
            r@.len() == 1,
            r@[0].copies(*self),
    {
        let mut v: Vec<Boolean> = Vec::new();
        v.push(self.duplicate());
        v
    }

    /// The big-endian bits of the boolean: the boolean itself.
    fn to_bits_be(&self) -> (r: Vec<Boolean>)
        ensures
            r@.len() == 1,
            r@[0].copies(*self),
    {
        let mut v: Vec<Boolean> = Vec::new();
        v.push(self.duplicate());
        v
    }
}

} // verus!
