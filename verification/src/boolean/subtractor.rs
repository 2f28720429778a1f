//! A full subtractor on booleans.

use super::{
    bit_val, extended, growth, lemma_extended_room, lemma_extended_trans, Boolean,
};
use super::soundness::{
    added_hold, field_assignment, is_bit_under, lemma_added_hold_split, lemma_eval_negation,
    subtracts,
};
use super::counts::subtractor_cost;
use crate::circuit::Circuit;
use crate::evaluation::eval;
use crate::traits::Subtractor;
use crate::variable::VariableKey;
use vstd::prelude::*;

verus! {

impl Subtractor for Boolean {
    /// Returns the difference of `self` and `other`, less `borrow`, as a difference bit and
    /// a borrow bit: `difference = (a XOR b) XOR borrow` and
    /// `borrow = ((NOT a) AND b) OR (borrow AND (NOT (a XOR b)))`.
    #[verifier::spinoff_prover]
    #[verifier::rlimit(40)]
    fn subtractor(&self, other: &Boolean, borrow: &Boolean, cs: &mut Circuit) -> (r: (
        Boolean,
        Boolean,
    ))
        ensures
            bit_val(self.bit()) - bit_val(other.bit()) - bit_val(borrow.bit()) == bit_val(
                r.0.bit(),
            ) - 2 * bit_val(r.1.bit()),
            extended(old(cs).state(), final(cs).state()),
            growth(old(cs).state(), final(cs).state()) <= 5,
            self.is_const() && other.is_const() && borrow.is_const() ==> final(cs).state() == old(
                cs,
            ).state() && r.0.is_const() && r.1.is_const(),
            subtracts(old(cs).state(), final(cs).state(), *self, *other, *borrow, r.0, r.1),
            growth(old(cs).state(), final(cs).state()) == subtractor_cost(
                self.is_const(),
                self.bit(),
                other.is_const(),
                other.bit(),
                borrow.is_const(),
                borrow.bit(),
            ),
    {
        let ghost s0 = cs.state();
        let c0 = self.bitxor(other, cs);
        let ghost s1 = cs.state();
        proof {
            lemma_extended_room(s0, s1, 83);
        }
        let difference = c0.bitxor(borrow, cs);
        let ghost s2 = cs.state();
        proof {
            lemma_extended_room(s1, s2, 66);
            lemma_extended_trans(s0, s1, s2);
        }
        let not_self = self.not();
        let c1 = not_self.bitand(other, cs);
        let ghost s3 = cs.state();
        proof {
            lemma_extended_room(s2, s3, 49);
            lemma_extended_trans(s0, s2, s3);
        }
        let not_c0 = c0.not();
        let c2 = borrow.bitand(&not_c0, cs);
        let ghost s4 = cs.state();
        proof {
            lemma_extended_room(s3, s4, 32);
            lemma_extended_trans(s0, s3, s4);
        }
        let borrow_out = c1.bitor(&c2, cs);
        proof {
            let s5 = cs.state();
            lemma_extended_trans(s0, s4, s5);
            use_type_invariant(self);
            use_type_invariant(&self.lc);
            use_type_invariant(&c0);
            use_type_invariant(&c0.lc);
            use_type_invariant(&not_self);
            use_type_invariant(&not_self.lc);
            use_type_invariant(&not_c0);
            use_type_invariant(&not_c0.lc);
            assert forall|w: spec_fn(VariableKey) -> nat|
                #[trigger] added_hold(s0, s5, w) && field_assignment(w) && is_bit_under(*self, w)
                    && is_bit_under(*other, w) && is_bit_under(*borrow, w) implies {
                &&& is_bit_under(difference, w)
                &&& is_bit_under(borrow_out, w)
                &&& eval(self.lc_spec(), w) - eval(other.lc_spec(), w) - eval(borrow.lc_spec(), w)
                    == eval(difference.lc_spec(), w) - 2 * eval(borrow_out.lc_spec(), w)
            } by {
                lemma_added_hold_split(s0, s4, s5, w);
                lemma_added_hold_split(s0, s3, s4, w);
                lemma_added_hold_split(s0, s2, s3, w);
                lemma_added_hold_split(s0, s1, s2, w);
                lemma_eval_negation(not_self, *self, w);
                assert(is_bit_under(c0, w));
                lemma_eval_negation(not_c0, c0, w);
            }
        }
        (difference, borrow_out)
    }
}

} // verus!
