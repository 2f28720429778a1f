//! Exclusive disjunction of booleans.

use super::counts::{gate_cost, gate_output_const};
use super::soundness::{binds, lemma_binds_by_copy, lemma_binds_by_not, lemma_gate_binds, BitOp};
use super::{xor_gate, extended, growth, lemma_extended_refl, lemma_bit_table, lemma_witnessed, witnessed, Boolean};
use crate::circuit::Circuit;
use crate::mode::Mode;
use vstd::prelude::*;

verus! {

impl Boolean {
    /// Returns `(self XOR other)`. A constant operand decides the result without a
    /// constraint; otherwise a private bit `c` is witnessed and
    /// `(self + self) * other == (self + other - c)` enforced.
    pub fn bitxor(&self, other: &Boolean, cs: &mut Circuit) -> (r: Boolean)
        requires
            old(cs).wf(),
            old(cs).state().room(20),
        ensures
            final(cs).wf(),
            extended(old(cs).state(), final(cs).state()),
            growth(old(cs).state(), final(cs).state()) <= 1,
            r.bit() == (self.bit() != other.bit()),
            self.is_const() || other.is_const() ==> final(cs).state() == old(cs).state(),
            self.is_const() ==> if self.bit() {
                r.negates(*other)
            } else {
                r.copies(*other)
            },
            !self.is_const() && other.is_const() ==> if other.bit() {
                r.negates(*self)
            } else {
                r.copies(*self)
            },
            !self.is_const() && !other.is_const() ==> r.mode_spec() == Mode::Private && witnessed(
                old(cs).state(),
                final(cs).state(),
                r.bit(),
            ),
            !self.is_const() && !other.is_const() ==> xor_gate(
                final(cs).state().constraints_spec().last(),
                *self,
                *other,
                r,
            ),
            binds(old(cs).state(), final(cs).state(), *self, *other, r, BitOp::Xor),
            growth(old(cs).state(), final(cs).state()) == gate_cost(self.is_const(), other.is_const()),
            r.is_const() == gate_output_const(BitOp::Xor, *self, *other),
    {
        proof {
            lemma_extended_refl(cs.state());
            use_type_invariant(self);
            use_type_invariant(other);
            use_type_invariant(&self.lc);
            use_type_invariant(&other.lc);
            self.lemma_facts();
            other.lemma_facts();
        }
        if self.is_constant() {
            if self.eject_value() {
                let r = other.not();
                proof {
                    use_type_invariant(&r);
                    use_type_invariant(&r.lc);
                    lemma_binds_by_not(cs.state(), *self, *other, r, BitOp::Xor, false);
                }
                r
            } else {
                let r = other.duplicate();
                proof {
                    lemma_binds_by_copy(cs.state(), *self, *other, r, BitOp::Xor, false);
                }
                r
            }
        } else if other.is_constant() {
            if other.eject_value() {
                let r = self.not();
                proof {
                    use_type_invariant(&r);
                    use_type_invariant(&r.lc);
                    lemma_binds_by_not(cs.state(), *self, *other, r, BitOp::Xor, true);
                }
                r
            } else {
                let r = self.duplicate();
                proof {
                    lemma_binds_by_copy(cs.state(), *self, *other, r, BitOp::Xor, true);
                }
                r
            }
        } else {
            let value = self.eject_value() != other.eject_value();
            let ghost old_state = cs.state();
            let output = Boolean::witness_bit(value, cs);
            let ghost mid = cs.state();
            let x = self.lc.add(&self.lc);
            let y = other.lc.duplicate();
            let z = self.lc.add(&other.lc).sub(&output.lc);
            let ghost (gx, gy, gz) = (x, y, z);
            proof {
                use_type_invariant(&output);
                use_type_invariant(&output.lc);
                output.lemma_facts();
                lemma_bit_table(self.bit(), other.bit());
            }
            proof {
                use_type_invariant(&x);
                use_type_invariant(&y);
                use_type_invariant(&z);
                use_type_invariant(&output);
                use_type_invariant(&output.lc);
            }
            cs.enforce(x, y, z);
            proof {
                lemma_witnessed(old_state, mid, cs.state(), value, gx, gy, gz);
                lemma_gate_binds(old_state, cs.state(), *self, *other, output, BitOp::Xor);
            }
            output
        }
    }

    /// Sets `self` to `(self XOR other)`.
    pub fn bitxor_assign(&mut self, other: &Boolean, cs: &mut Circuit)
        requires
            old(cs).wf(),
            old(cs).state().room(20),
        ensures
            final(cs).wf(),
            extended(old(cs).state(), final(cs).state()),
            growth(old(cs).state(), final(cs).state()) <= 1,
            final(self).bit() == (old(self).bit() != other.bit()),
            old(self).is_const() || other.is_const() ==> final(cs).state() == old(cs).state(),
            old(self).is_const() ==> if old(self).bit() {
                final(self).negates(*other)
            } else {
                final(self).copies(*other)
            },
            !old(self).is_const() && other.is_const() ==> if other.bit() {
                final(self).negates(*old(self))
            } else {
                final(self).copies(*old(self))
            },
            !old(self).is_const() && !other.is_const() ==> final(self).mode_spec() == Mode::Private
                && witnessed(old(cs).state(), final(cs).state(), final(self).bit()),
            !old(self).is_const() && !other.is_const() ==> xor_gate(
                final(cs).state().constraints_spec().last(),
                *old(self),
                *other,
                *final(self),
            ),
            binds(old(cs).state(), final(cs).state(), *old(self), *other, *final(self), BitOp::Xor),
            growth(old(cs).state(), final(cs).state()) == gate_cost(old(self).is_const(), other.is_const()),
            final(self).is_const() == gate_output_const(BitOp::Xor, *old(self), *other),
    {
        let r = self.bitxor(other, cs);
        *self = r;
    }
}

} // verus!
