//! Conjunction of booleans.

use super::counts::{gate_cost, gate_output_const};
use super::soundness::{binds, lemma_binds_by_copy, lemma_gate_binds, BitOp};
use super::{and_gate, extended, growth, lemma_extended_refl, bit_val, lemma_bit_arith, lemma_witnessed, witnessed, Boolean};
use crate::circuit::Circuit;
use crate::fp::modulus;
use crate::mode::Mode;
use vstd::prelude::*;

verus! {

/// The product of two bits, reduced modulo `p`, is their conjunction.
proof fn lemma_bits_mul(a: bool, b: bool)
    ensures
        (bit_val(a) * bit_val(b)) % modulus() == bit_val(a && b),
{
    lemma_bit_arith();
}

impl Boolean {
    /// Returns `(self AND other)`. A constant operand decides the result without a
    /// constraint; otherwise a private bit `c` is witnessed and `self * other == c` enforced.
    pub fn bitand(&self, other: &Boolean, cs: &mut Circuit) -> (r: Boolean)
        requires
            old(cs).wf(),
            old(cs).state().room(20),
        ensures
            final(cs).wf(),
            extended(old(cs).state(), final(cs).state()),
            growth(old(cs).state(), final(cs).state()) <= 1,
            r.bit() == (self.bit() && other.bit()),
            self.is_const() || other.is_const() ==> final(cs).state() == old(cs).state(),
            self.is_const() ==> if self.bit() {
                r.copies(*other)
            } else {
                r.copies(*self)
            },
            !self.is_const() && other.is_const() ==> if other.bit() {
                r.copies(*self)
            } else {
                r.copies(*other)
            },
            !self.is_const() && !other.is_const() ==> r.mode_spec() == Mode::Private && witnessed(
                old(cs).state(),
                final(cs).state(),
                r.bit(),
            ),
            !self.is_const() && !other.is_const() ==> and_gate(
                final(cs).state().constraints_spec().last(),
                *self,
                *other,
                r,
            ),
            binds(old(cs).state(), final(cs).state(), *self, *other, r, BitOp::And),
            growth(old(cs).state(), final(cs).state()) == gate_cost(self.is_const(), other.is_const()),
            r.is_const() == gate_output_const(BitOp::And, *self, *other),
    {
        proof {
            lemma_extended_refl(cs.state());
            use_type_invariant(self);
            use_type_invariant(other);
            use_type_invariant(&self.lc);
            use_type_invariant(&other.lc);
            self.lemma_facts();
            other.lemma_facts();
        }
        if self.is_constant() {
            let pass_other = self.eject_value();
            let r = if pass_other {
                other.duplicate()
            } else {
                self.duplicate()
            };
            proof {
                lemma_binds_by_copy(cs.state(), *self, *other, r, BitOp::And, !pass_other);
            }
            r
        } else if other.is_constant() {
            let pass_self = other.eject_value();
            let r = if pass_self {
                self.duplicate()
            } else {
                other.duplicate()
            };
            proof {
                lemma_binds_by_copy(cs.state(), *self, *other, r, BitOp::And, pass_self);
            }
            r
        } else {
            let value = self.eject_value() && other.eject_value();
            let ghost old_state = cs.state();
            let output = Boolean::witness_bit(value, cs);
            let ghost mid = cs.state();
            let x = self.lc.duplicate();
            let y = other.lc.duplicate();
            let z = output.lc.duplicate();
            let ghost (gx, gy, gz) = (x, y, z);
            proof {
                lemma_bits_mul(self.bit(), other.bit());
                use_type_invariant(&x);
                use_type_invariant(&y);
                use_type_invariant(&z);
                use_type_invariant(&output);
                use_type_invariant(&output.lc);
            }
            cs.enforce(x, y, z);
            proof {
                lemma_witnessed(old_state, mid, cs.state(), value, gx, gy, gz);
                lemma_gate_binds(old_state, cs.state(), *self, *other, output, BitOp::And);
            }
            output
        }
    }

    /// Sets `self` to `(self AND other)`.
    pub fn bitand_assign(&mut self, other: &Boolean, cs: &mut Circuit)
        requires
            old(cs).wf(),
            old(cs).state().room(20),
        ensures
            final(cs).wf(),
            extended(old(cs).state(), final(cs).state()),
            growth(old(cs).state(), final(cs).state()) <= 1,
            final(self).bit() == (old(self).bit() && other.bit()),
            old(self).is_const() || other.is_const() ==> final(cs).state() == old(cs).state(),
            old(self).is_const() ==> if old(self).bit() {
                final(self).copies(*other)
            } else {
                final(self).copies(*old(self))
            },
            !old(self).is_const() && other.is_const() ==> if other.bit() {
                final(self).copies(*old(self))
            } else {
                final(self).copies(*other)
            },
            !old(self).is_const() && !other.is_const() ==> final(self).mode_spec() == Mode::Private
                && witnessed(old(cs).state(), final(cs).state(), final(self).bit()),
            !old(self).is_const() && !other.is_const() ==> and_gate(
                final(cs).state().constraints_spec().last(),
                *old(self),
                *other,
                *final(self),
            ),
            binds(old(cs).state(), final(cs).state(), *old(self), *other, *final(self), BitOp::And),
            growth(old(cs).state(), final(cs).state()) == gate_cost(old(self).is_const(), other.is_const()),
            final(self).is_const() == gate_output_const(BitOp::And, *old(self), *other),
    {
        let r = self.bitand(other, cs);
        *self = r;
    }
}

} // verus!
