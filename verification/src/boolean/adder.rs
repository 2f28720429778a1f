//! A full adder on booleans.

use super::{
    bit_val, extended, growth, lemma_extended_room, lemma_extended_trans, Boolean,
};
use super::soundness::{
    added_hold, adds, field_assignment, is_bit_under, lemma_added_hold_split,
};
use super::counts::adder_cost;
use crate::circuit::Circuit;
use crate::evaluation::eval;
use crate::traits::Adder;
use crate::variable::VariableKey;
use vstd::prelude::*;

verus! {

impl Adder for Boolean {
    /// Returns the sum of `self`, `other` and `carry` as a sum bit and a carry bit:
    /// `sum = (a XOR b) XOR carry` and `carry = (a AND b) OR (carry AND (a XOR b))`.
    #[verifier::spinoff_prover]
    #[verifier::rlimit(40)]
    fn adder(&self, other: &Boolean, carry: &Boolean, cs: &mut Circuit) -> (r: (Boolean, Boolean))
        ensures
            bit_val(r.0.bit()) + 2 * bit_val(r.1.bit()) == bit_val(self.bit()) + bit_val(
                other.bit(),
            ) + bit_val(carry.bit()),
            extended(old(cs).state(), final(cs).state()),
            growth(old(cs).state(), final(cs).state()) <= 5,
            self.is_const() && other.is_const() && carry.is_const() ==> final(cs).state() == old(
                cs,
            ).state() && r.0.is_const() && r.1.is_const(),
            adds(old(cs).state(), final(cs).state(), *self, *other, *carry, r.0, r.1),
            growth(old(cs).state(), final(cs).state()) == adder_cost(
                self.is_const(),
                self.bit(),
                other.is_const(),
                other.bit(),
                carry.is_const(),
                carry.bit(),
            ),
    {
        let ghost s0 = cs.state();
        let c0 = self.bitxor(other, cs);
        let ghost s1 = cs.state();
        proof {
            lemma_extended_room(s0, s1, 83);
        }
        let sum = c0.bitxor(carry, cs);
        let ghost s2 = cs.state();
        proof {
            lemma_extended_room(s1, s2, 66);
            lemma_extended_trans(s0, s1, s2);
        }
        let c1 = self.bitand(other, cs);
        let ghost s3 = cs.state();
        proof {
            lemma_extended_room(s2, s3, 49);
            lemma_extended_trans(s0, s2, s3);
        }
        let c2 = carry.bitand(&c0, cs);
        let ghost s4 = cs.state();
        proof {
            lemma_extended_room(s3, s4, 32);
            lemma_extended_trans(s0, s3, s4);
        }
        let carry_out = c1.bitor(&c2, cs);
        proof {
            let s5 = cs.state();
            lemma_extended_trans(s0, s4, s5);
            assert forall|w: spec_fn(VariableKey) -> nat|
                #[trigger] added_hold(s0, s5, w) && field_assignment(w) && is_bit_under(*self, w)
                    && is_bit_under(*other, w) && is_bit_under(*carry, w) implies {
                &&& is_bit_under(sum, w)
                &&& is_bit_under(carry_out, w)
                &&& eval(sum.lc_spec(), w) + 2 * eval(carry_out.lc_spec(), w) == eval(
                    self.lc_spec(),
                    w,
                ) + eval(other.lc_spec(), w) + eval(carry.lc_spec(), w)
            } by {
                lemma_added_hold_split(s0, s4, s5, w);
                lemma_added_hold_split(s0, s3, s4, w);
                lemma_added_hold_split(s0, s2, s3, w);
                lemma_added_hold_split(s0, s1, s2, w);
            }
        }
        (sum, carry_out)
    }
}

} // verus!
