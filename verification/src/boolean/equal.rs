//! Equality of booleans.

use super::soundness::{
    added_hold, binds, bit_under, field_assignment, is_bit_under, lemma_eval_negation, BitOp,
};
use super::{bit_val, extended, growth, Boolean};
use crate::circuit::Circuit;
use crate::evaluation::eval;
use crate::variable::VariableKey;
use crate::traits::Equal;
use vstd::prelude::*;

verus! {

impl Equal for Boolean {
    /// Returns `true` if `self` and `other` are *not* equal: `self XOR other`.
    fn is_not_equal(&self, other: &Boolean, cs: &mut Circuit) -> (r: Boolean)
        ensures
            r.bit() == (self.bit() != other.bit()),
            r.is_const() == (self.is_const() && other.is_const()),
            extended(old(cs).state(), final(cs).state()),
            growth(old(cs).state(), final(cs).state()) <= 1,
            self.is_const() || other.is_const() ==> final(cs).state() == old(cs).state(),
            binds(old(cs).state(), final(cs).state(), *self, *other, r, BitOp::Xor),
    {
        self.bitxor(other, cs)
    }

    /// Returns `true` if `self` and `other` are equal: `NOT (self XOR other)`.
    fn is_equal(&self, other: &Boolean, cs: &mut Circuit) -> (r: Boolean)
        ensures
            r.bit() == (self.bit() == other.bit()),
            r.is_const() == (self.is_const() && other.is_const()),
            extended(old(cs).state(), final(cs).state()),
            growth(old(cs).state(), final(cs).state()) <= 1,
            self.is_const() || other.is_const() ==> final(cs).state() == old(cs).state(),
            binds(old(cs).state(), final(cs).state(), *self, *other, r, BitOp::Xnor),
    {
        let ghost s0 = cs.state();
        let x = self.is_not_equal(other, cs);
        let r = x.not();
        proof {
            let s1 = cs.state();
            use_type_invariant(&x);
            use_type_invariant(&x.lc);
            use_type_invariant(&r);
            use_type_invariant(&r.lc);
            assert forall|w: spec_fn(VariableKey) -> nat|
                #[trigger] added_hold(s0, s1, w) && field_assignment(w) && is_bit_under(*self, w)
                    && is_bit_under(*other, w) implies eval(r.lc_spec(), w) == bit_val(
                bit_under(*self, w) == bit_under(*other, w),
            ) by {
                lemma_eval_negation(r, x, w);
            }
        }
        r
    }
}

} // verus!
