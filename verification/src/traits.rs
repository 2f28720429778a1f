//! Operations that circuit types offer, each synthesized in a circuit environment.

use crate::boolean::Boolean;
use crate::circuit::Circuit;
use crate::field::Field;
use crate::mode::Mode;
use crate::r1cs::R1CS;
use vstd::prelude::*;

verus! {

/// Operations to inject from a primitive form into a circuit environment.
pub trait Inject: Sized {
    type Primitive;

    /// `r` is the circuit of mode `mode` and primitive value `value`, and `new` is the system
    /// that injecting it into `old` leaves. A type that states nothing of its injection keeps
    /// this default, which holds of every outcome.
    open spec fn injects(old: R1CS, new: R1CS, mode: Mode, value: Self::Primitive, r: Self) -> bool {
        true
    }

    /// Initializes a circuit of the given mode and primitive value.
    fn new(mode: Mode, value: Self::Primitive, cs: &mut Circuit) -> (r: Self)
        requires
            old(cs).wf(),
            old(cs).state().room(4),
        ensures
            final(cs).wf(),
            Self::injects(old(cs).state(), final(cs).state(), mode, value, r),
    ;

    /// Initializes a constant of the given primitive value.
    fn constant(value: Self::Primitive) -> (r: Self);
}

/// Unary operator for retrieving the inverse value.
pub trait Inverse: Sized {
    /// Returns the inverse of `self`.
    fn inverse(&self, cs: &mut Circuit) -> (r: Self)
        requires
            old(cs).wf(),
    ;
}

/// Unary operator for retrieving the square root of the value.
pub trait SquareRoot: Sized {
    /// Returns the square root of `self`.
    fn square_root(&self, cs: &mut Circuit) -> (r: Self)
        requires
            old(cs).wf(),
    ;
}

/// A single-bit binary adder with a carry bit:
/// `sum = (a XOR b) XOR carry` and `carry = (a AND b) OR (carry AND (a XOR b))`.
pub trait Adder: Sized {
    /// Returns the sum of `self` and `other` as a sum bit and carry bit.
    fn adder(&self, other: &Self, carry: &Self, cs: &mut Circuit) -> (r: (Self, Self))
        requires
            old(cs).wf(),
            old(cs).state().room(100),
        ensures
            final(cs).wf(),
    ;
}

/// A single-bit binary subtractor with a borrow bit:
/// `difference = (a XOR b) XOR borrow` and
/// `borrow = ((NOT a) AND b) OR (borrow AND (NOT (a XOR b)))`.
pub trait Subtractor: Sized {
    /// Returns the difference of `self` and `other` as a difference bit and borrow bit.
    fn subtractor(&self, other: &Self, borrow: &Self, cs: &mut Circuit) -> (r: (Self, Self))
        requires
            old(cs).wf(),
            old(cs).state().room(100),
        ensures
            final(cs).wf(),
    ;
}

/// Unary operator for converting to a base field element.
pub trait ToField {
    /// Returns the circuit as a base field element.
    fn to_field(&self) -> (r: Field);
}

/// Unary operator for converting to a list of base field elements.
pub trait ToFields {
    /// Returns the circuit as a list of base field elements.
    fn to_fields(&self) -> (r: Vec<Field>);
}

/// Equality of circuits, as a boolean.
pub trait Equal: Sized {
    /// Returns `true` if `self` and `other` are equal.
    fn is_equal(&self, other: &Self, cs: &mut Circuit) -> (r: Boolean)
        requires
            old(cs).wf(),
            old(cs).state().room(20),
        ensures
            final(cs).wf(),
    ;

    /// Returns `true` if `self` and `other` are *not* equal.
    fn is_not_equal(&self, other: &Self, cs: &mut Circuit) -> (r: Boolean)
        requires
            old(cs).wf(),
            old(cs).state().room(20),
        ensures
            final(cs).wf(),
    ;
}

/// Selection between two circuits by a boolean.
pub trait Ternary: Sized {
    /// Returns `first` if `condition` is `true`, otherwise returns `second`.
    fn ternary(condition: &Boolean, first: &Self, second: &Self, cs: &mut Circuit) -> (r: Self)
        requires
            old(cs).wf(),
            old(cs).state().room(20),
        ensures
            final(cs).wf(),
    ;
}

/// Instantiation from bits.
pub trait FromBits: Sized {
    /// Whether the bits make up a value of the type.
    spec fn valid_bits(bits: Seq<Boolean>) -> bool;

    /// The value of the given little-endian bits.
    fn from_bits_le(bits_le: &[Boolean]) -> (r: Self)
        requires
            Self::valid_bits(bits_le@),
    ;

    /// The value of the given big-endian bits.
    fn from_bits_be(bits_be: &[Boolean]) -> (r: Self)
        requires
            Self::valid_bits(bits_be@),
    ;
}

/// Conversion to bits.
pub trait ToBits {
    /// Returns the little-endian bits of the circuit.
    fn to_bits_le(&self) -> (r: Vec<Boolean>);

    /// Returns the big-endian bits of the circuit.
    fn to_bits_be(&self) -> (r: Vec<Boolean>);
}

/// Comparison of circuits, as booleans.
pub trait Compare {
    /// Returns `true` if `self` is less than `other`.
    fn is_less_than(&self, other: &Self, cs: &mut Circuit) -> (r: Boolean);

    /// Returns `true` if `self` is greater than `other`.
    fn is_greater_than(&self, other: &Self, cs: &mut Circuit) -> (r: Boolean);

    /// Returns `true` if `self` is less than or equal to `other`.
    fn is_less_than_or_equal(&self, other: &Self, cs: &mut Circuit) -> (r: Boolean);

    /// Returns `true` if `self` is greater than or equal to `other`.
    fn is_greater_than_or_equal(&self, other: &Self, cs: &mut Circuit) -> (r: Boolean);
}

/// Representation of the zero value.
pub trait Zero: Sized {
    /// Returns a new zero constant.
    fn zero() -> (r: Self);

    /// Returns `true` if `self` is zero.
    fn is_zero(&self, cs: &mut Circuit) -> (r: Boolean);
}

/// Representation of the one value.
pub trait One: Sized {
    /// Returns a new one constant.
    fn one() -> (r: Self);

    /// Returns `true` if `self` is one.
    fn is_one(&self, cs: &mut Circuit) -> (r: Boolean);
}

/// Unary operator for retrieving the most-significant bit.
pub trait MSB {
    /// Returns the most-significant bit of the value.
    fn msb(&self) -> (r: Boolean);
}

/// Conversion to the lower `k` bits of a value, enforcing that the upper bits are zero.
pub trait ToLowerBits {
    /// The lower `k` bits, little-endian.
    fn to_lower_bits_le(&self, k: usize, cs: &mut Circuit) -> (r: Vec<Boolean>);

    /// The lower `k` bits, big-endian.
    fn to_lower_bits_be(&self, k: usize, cs: &mut Circuit) -> (r: Vec<Boolean>);
}

/// Conversion to the upper `k` bits of a value, enforcing that the lower bits are zero.
pub trait ToUpperBits {
    /// The upper `k` bits, little-endian.
    fn to_upper_bits_le(&self, k: usize, cs: &mut Circuit) -> (r: Vec<Boolean>);

    /// The upper `k` bits, big-endian.
    fn to_upper_bits_be(&self, k: usize, cs: &mut Circuit) -> (r: Vec<Boolean>);
}

} // verus!
