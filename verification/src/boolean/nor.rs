//! Negated disjunction of booleans.

use super::counts::{gate_cost, gate_output_const};
use super::soundness::{binds, lemma_binds_by_not, lemma_gate_binds, BitOp};
use super::{nor_gate, extended, growth, lemma_extended_refl, lemma_bit_table, lemma_witnessed, witnessed, Boolean};
use crate::circuit::Circuit;
use crate::mode::Mode;
use vstd::prelude::*;

verus! {

impl Boolean {
    /// Returns `NOT (self OR other)`. A constant operand decides the result without a
    /// constraint; otherwise a private bit `c` is witnessed and
    /// `(1 - self) * (1 - other) == c` enforced.
    pub fn nor(&self, other: &Boolean, cs: &mut Circuit) -> (r: Boolean)
        requires
            old(cs).wf(),
            old(cs).state().room(20),
        ensures
            final(cs).wf(),
            extended(old(cs).state(), final(cs).state()),
            growth(old(cs).state(), final(cs).state()) <= 1,
            r.bit() == !(self.bit() || other.bit()),
            self.is_const() || other.is_const() ==> final(cs).state() == old(cs).state(),
            self.is_const() ==> if self.bit() {
                r.negates(*self)
            } else {
                r.negates(*other)
            },
            !self.is_const() && other.is_const() ==> if other.bit() {
                r.negates(*other)
            } else {
                r.negates(*self)
            },
            !self.is_const() && !other.is_const() ==> r.mode_spec() == Mode::Private && witnessed(
                old(cs).state(),
                final(cs).state(),
                r.bit(),
            ),
            !self.is_const() && !other.is_const() ==> nor_gate(
                final(cs).state().constraints_spec().last(),
                *self,
                *other,
                r,
            ),
            binds(old(cs).state(), final(cs).state(), *self, *other, r, BitOp::Nor),
            growth(old(cs).state(), final(cs).state()) == gate_cost(self.is_const(), other.is_const()),
            r.is_const() == gate_output_const(BitOp::Nor, *self, *other),
    {
        proof {
            lemma_extended_refl(cs.state());
            use_type_invariant(self);
            use_type_invariant(other);
            use_type_invariant(&self.lc);
            use_type_invariant(&other.lc);
            self.lemma_facts();
            other.lemma_facts();
        }
        if self.is_constant() {
            if self.eject_value() {
                let r = self.not();
                proof {
                    use_type_invariant(&r);
                    use_type_invariant(&r.lc);
                    lemma_binds_by_not(cs.state(), *self, *other, r, BitOp::Nor, true);
                }
                r
            } else {
                let r = other.not();
                proof {
                    use_type_invariant(&r);
                    use_type_invariant(&r.lc);
                    lemma_binds_by_not(cs.state(), *self, *other, r, BitOp::Nor, false);
                }
                r
            }
        } else if other.is_constant() {
            if other.eject_value() {
                let r = other.not();
                proof {
                    use_type_invariant(&r);
                    use_type_invariant(&r.lc);
                    lemma_binds_by_not(cs.state(), *self, *other, r, BitOp::Nor, false);
                }
                r
            } else {
                let r = self.not();
                proof {
                    use_type_invariant(&r);
                    use_type_invariant(&r.lc);
                    lemma_binds_by_not(cs.state(), *self, *other, r, BitOp::Nor, true);
                }
                r
            }
        } else {
            let value = !self.eject_value() && !other.eject_value();
            let ghost old_state = cs.state();
            let output = Boolean::witness_bit(value, cs);
            let ghost mid = cs.state();
            let x = self.one_minus();
            let y = other.one_minus();
            let z = output.lc.duplicate();
            let ghost (gx, gy, gz) = (x, y, z);
            proof {
                lemma_bit_table(self.bit(), other.bit());
            }
            proof {
                use_type_invariant(&x);
                use_type_invariant(&y);
                use_type_invariant(&z);
                use_type_invariant(&output);
                use_type_invariant(&output.lc);
            }
            cs.enforce(x, y, z);
            proof {
                lemma_witnessed(old_state, mid, cs.state(), value, gx, gy, gz);
                lemma_gate_binds(old_state, cs.state(), *self, *other, output, BitOp::Nor);
            }
            output
        }
    }
}

} // verus!
