//! Selection between two booleans by a third.

use super::{
    bit_val, ternary_gate, extended, growth, lemma_extended_refl, lemma_select, lemma_witnessed, witnessed, Boolean,
};
use super::soundness::{
    added_hold, bit_under, field_assignment, is_bit_under, lemma_eval_const, lemma_eval_negation,
    lemma_select_binds, selects,
};
use crate::circuit::Circuit;
use crate::evaluation::eval;
use crate::variable::VariableKey;
use crate::traits::Ternary;
use crate::mode::Mode;
use vstd::prelude::*;

verus! {

impl Ternary for Boolean {
    /// Returns `first` if `condition` is `true`, otherwise returns `second`. A constant
    /// operand reduces the selection to at most one other gate; otherwise a private bit `c`
    /// is witnessed and `condition * (first - second) == (c - second)` enforced.
    fn ternary(condition: &Boolean, first: &Boolean, second: &Boolean, cs: &mut Circuit) -> (r:
        Boolean)
        ensures
            r.bit() == if condition.bit() {
                first.bit()
            } else {
                second.bit()
            },
            extended(old(cs).state(), final(cs).state()),
            growth(old(cs).state(), final(cs).state()) <= 1,
            condition.is_const() ==> final(cs).state() == old(cs).state() && if condition.bit() {
                r.copies(*first)
            } else {
                r.copies(*second)
            },
            !condition.is_const() && !first.is_const() && !second.is_const() ==> r.mode_spec()
                == Mode::Private && witnessed(old(cs).state(), final(cs).state(), r.bit()),
            !condition.is_const() && !first.is_const() && !second.is_const() ==> ternary_gate(
                final(cs).state().constraints_spec().last(),
                *condition,
                *first,
                *second,
                r,
            ),
            selects(old(cs).state(), final(cs).state(), *condition, *first, *second, r),
            growth(old(cs).state(), final(cs).state()) == if condition.is_const() || (
            first.is_const() && second.is_const()) {
                0int
            } else {
                1int
            },
            !condition.is_const() && !(first.is_const() && second.is_const()) ==> r.mode_spec()
                == Mode::Private,
            !condition.is_const() && first.is_const() && second.is_const() ==> if first.bit()
                == second.bit() {
                r.is_const() && final(cs).state() == old(cs).state()
            } else if first.bit() {
                r.copies(*condition) && final(cs).state() == old(cs).state()
            } else {
                r.negates(*condition) && final(cs).state() == old(cs).state()
            },
    {
        proof {
            lemma_extended_refl(cs.state());
            use_type_invariant(condition);
            use_type_invariant(first);
            use_type_invariant(second);
            use_type_invariant(&condition.lc);
            use_type_invariant(&first.lc);
            use_type_invariant(&second.lc);
            condition.lemma_facts();
            first.lemma_facts();
            second.lemma_facts();
        }
        let ghost s0 = cs.state();
        if condition.is_constant() {
            let r = if condition.eject_value() {
                first.duplicate()
            } else {
                second.duplicate()
            };
            proof {
                assert forall|w: spec_fn(VariableKey) -> nat|
                    #[trigger] added_hold(s0, s0, w) && field_assignment(w) && is_bit_under(
                        *condition,
                        w,
                    ) && is_bit_under(*first, w) && is_bit_under(*second, w) implies eval(
                    r.lc_spec(),
                    w,
                ) == bit_val(
                    if bit_under(*condition, w) {
                        bit_under(*first, w)
                    } else {
                        bit_under(*second, w)
                    },
                ) by {
                    lemma_eval_const(*condition, w);
                }
            }
            r
        } else if first.is_constant() {
            let r = if first.eject_value() {
                condition.bitor(second, cs)
            } else {
                let negated = condition.not();
                proof {
                    use_type_invariant(&negated);
                    use_type_invariant(&negated.lc);
                }
                let r = negated.bitand(second, cs);
                proof {
                    let s1 = cs.state();
                    assert forall|w: spec_fn(VariableKey) -> nat|
                        #[trigger] added_hold(s0, s1, w) && field_assignment(w) && is_bit_under(
                            *condition,
                            w,
                        ) && is_bit_under(*second, w) implies eval(r.lc_spec(), w) == bit_val(
                        !bit_under(*condition, w) && bit_under(*second, w),
                    ) by {
                        lemma_eval_negation(negated, *condition, w);
                    }
                }
                r
            };
            proof {
                let s1 = cs.state();
                assert forall|w: spec_fn(VariableKey) -> nat|
                    #[trigger] added_hold(s0, s1, w) && field_assignment(w) && is_bit_under(
                        *condition,
                        w,
                    ) && is_bit_under(*first, w) && is_bit_under(*second, w) implies eval(
                    r.lc_spec(),
                    w,
                ) == bit_val(
                    if bit_under(*condition, w) {
                        bit_under(*first, w)
                    } else {
                        bit_under(*second, w)
                    },
                ) by {
                    lemma_eval_const(*first, w);
                }
            }
            r
        } else if second.is_constant() {
            let r = if second.eject_value() {
                let negated = condition.not();
                proof {
                    use_type_invariant(&negated);
                    use_type_invariant(&negated.lc);
                }
                let r = negated.bitor(first, cs);
                proof {
                    let s1 = cs.state();
                    assert forall|w: spec_fn(VariableKey) -> nat|
                        #[trigger] added_hold(s0, s1, w) && field_assignment(w) && is_bit_under(
                            *condition,
                            w,
                        ) && is_bit_under(*first, w) implies eval(r.lc_spec(), w) == bit_val(
                        !bit_under(*condition, w) || bit_under(*first, w),
                    ) by {
                        lemma_eval_negation(negated, *condition, w);
                    }
                }
                r
            } else {
                condition.bitand(first, cs)
            };
            proof {
                let s1 = cs.state();
                assert forall|w: spec_fn(VariableKey) -> nat|
                    #[trigger] added_hold(s0, s1, w) && field_assignment(w) && is_bit_under(
                        *condition,
                        w,
                    ) && is_bit_under(*first, w) && is_bit_under(*second, w) implies eval(
                    r.lc_spec(),
                    w,
                ) == bit_val(
                    if bit_under(*condition, w) {
                        bit_under(*first, w)
                    } else {
                        bit_under(*second, w)
                    },
                ) by {
                    lemma_eval_const(*second, w);
                }
            }
            r
        } else {
            let value = if condition.eject_value() {
                first.eject_value()
            } else {
                second.eject_value()
            };
            let ghost old_state = cs.state();
            let output = Boolean::witness_bit(value, cs);
            let ghost mid = cs.state();
            let x = condition.lc.duplicate();
            let y = first.lc.sub(&second.lc);
            let z = output.lc.sub(&second.lc);
            let ghost (gx, gy, gz) = (x, y, z);
            proof {
                use_type_invariant(&output);
                use_type_invariant(&output.lc);
                output.lemma_facts();
                lemma_select(condition.bit(), first.bit(), second.bit());
            }
            proof {
                use_type_invariant(&x);
                use_type_invariant(&y);
                use_type_invariant(&z);
            }
            cs.enforce(x, y, z);
            proof {
                lemma_witnessed(old_state, mid, cs.state(), value, gx, gy, gz);
                lemma_select_binds(old_state, cs.state(), *condition, *first, *second, output);
            }
            output
        }
    }
}

} // verus!
