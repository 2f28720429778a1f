//! Soundness of the boolean gadgets: under any assignment that gives the public constant one
//! the value one and each input variable a bit, a constraint of a gadget that holds forces its
//! output to the bit that the gadget computes; the constraint of a new boolean forces its
//! variable to a bit; and the constraints that a gadget adds, taken together, force its
//! outputs to the bits that its inputs give, under every assignment of field elements that
//! satisfies them.

use super::{
    and_gate, bit_key, bit_val, boolean_gate, difference_form, lemma_bit_arith, lemma_bit_table, lemma_one_key,
    lemma_select, lemma_shape,
    nand_gate, nor_gate, one_key, one_minus_form, or_gate, same_form,
    single_shape, sum_form, ternary_gate, xor_gate, Boolean,
};
use crate::circuit::has_fermat_inverse;
use crate::constraint::Constraint;
use crate::evaluation::{
    eval, holds, lemma_cong_small, lemma_eval_linear, lemma_eval_terms_over_keys,
    lemma_sub_mod_cong, over_keys, coeffs,
};
use crate::fp::{modulus, sub_mod};
use crate::lc_lemmas::{coeff_of, cong, lemma_cong_mod};
use crate::linear_combination::LinearCombination;
use crate::r1cs::R1CS;
use crate::variable::VariableKey;
use vstd::prelude::*;

verus! {

/// The assignment `w` gives the public constant one the value one.
pub open spec fn one_is_one(w: spec_fn(VariableKey) -> nat) -> bool {
    w(one_key()) == 1
}

/// The assignment `w` gives the variable of the boolean, if it has one, a bit.
pub open spec fn bit_assigned(b: Boolean, w: spec_fn(VariableKey) -> nat) -> bool {
    b.is_const() || w(b.var_spec()) <= 1
}

/// The bit that the boolean stands for under the assignment `w`.
pub open spec fn bit_under(b: Boolean, w: spec_fn(VariableKey) -> nat) -> bool {
    eval(b.lc_spec(), w) == 1
}

/// A boolean evaluates to a bit under an assignment that gives its variable a bit and the
/// constant one the value one; its nonzero coefficients are on its variable and the
/// constant one.
proof fn lemma_eval_boolean(b: Boolean, w: spec_fn(VariableKey) -> nat)
    requires
        b.inv(),
        b.lc_spec().wf(),
        one_is_one(w),
        bit_assigned(b, w),
    ensures
        eval(b.lc_spec(), w) <= 1,
        forall|k: VariableKey| #[trigger] b.lc_spec().coeff(k) != 0 ==> k == b.var_spec() || k
            == one_key(),
        single_shape(b.lc_spec(), b.var_spec()) ==> eval(b.lc_spec(), w) == w(b.var_spec()),
        b.is_negation() ==> eval(b.lc_spec(), w) == 1 - w(b.var_spec()),
{
    let lc = b.lc_spec();
    let v = b.var_spec();
    lemma_shape(lc, v);
    lemma_one_key();
    lemma_bit_arith();
    lc.lemma_wf();
    assert forall|k: VariableKey| #[trigger] lc.coeff(k) != 0 implies k == v || k == one_key() by {
        assert(lc.has_var(k));
    }
    if lc.is_const() {
        let ks = Seq::<VariableKey>::empty();
        assert forall|k: VariableKey| coeff_of(lc.entries(), k) != 0 implies #[trigger] ks.contains(k) by {
            assert(lc.has_var(k));
        }
        lemma_eval_terms_over_keys(lc.entries(), ks, w);
        vstd::arithmetic::div_mod::lemma_small_mod(lc.constant_val(), modulus());
    } else if single_shape(lc, v) {
        let ks = seq![v];
        assert forall|k: VariableKey| coeff_of(lc.entries(), k) != 0 implies #[trigger] ks.contains(k) by {
            assert(lc.coeff(k) != 0);
            assert(k == v);
            assert(ks[0] == v);
        }
        lemma_eval_terms_over_keys(lc.entries(), ks, w);
        let f = coeffs(lc.entries());
        assert(ks.drop_last() =~= Seq::<VariableKey>::empty());
        assert(over_keys(f, ks.drop_last(), w) == 0);
        assert(f(v) == lc.coeff(v));
        assert(over_keys(f, ks, w) == lc.coeff(v) * w(v));
        vstd::arithmetic::div_mod::lemma_small_mod(w(v), modulus());
    } else {
        assert(bit_key(v));
        let ks = seq![v, one_key()];
        assert(ks.no_duplicates()) by {
            assert(ks[0] != ks[1]);
        }
        assert forall|k: VariableKey| coeff_of(lc.entries(), k) != 0 implies #[trigger] ks.contains(k) by {
            assert(lc.coeff(k) != 0);
            if k == v {
                assert(ks[0] == k);
            } else {
                assert(ks[1] == k);
            }
        }
        lemma_eval_terms_over_keys(lc.entries(), ks, w);
        let f = coeffs(lc.entries());
        assert(ks.drop_last() =~= seq![v]);
        assert(ks.drop_last().drop_last() =~= Seq::<VariableKey>::empty());
        let m = modulus() as int;
        assert(over_keys(f, ks.drop_last().drop_last(), w) == 0);
        assert(f(v) == lc.coeff(v));
        assert(f(one_key()) == lc.coeff(one_key()));
        assert(over_keys(f, ks.drop_last(), w) == f(v) * w(v));
        assert(over_keys(f, ks, w) == f(v) * w(v) + f(one_key()) * w(one_key()));
        assert(over_keys(f, ks, w) == (m - 1) * w(v) + 1);
        if w(v) == 0 {
            assert((m - 1) * 0 == 0);
            vstd::arithmetic::div_mod::lemma_small_mod(1, modulus());
        } else {
            assert((m - 1) * 1 + 1 == m);
            vstd::arithmetic::div_mod::lemma_mod_self_0(m);
        }
    }
}

/// The nonzero coefficients of a boolean are on its variable and the constant one.
proof fn lemma_boolean_keys(b: Boolean)
    requires
        b.inv(),
        b.lc_spec().wf(),
    ensures
        forall|k: VariableKey| #[trigger] b.lc_spec().coeff(k) != 0 ==> k == b.var_spec() || k
            == one_key(),
{
    let lc = b.lc_spec();
    lemma_shape(lc, b.var_spec());
    assert forall|k: VariableKey| #[trigger] lc.coeff(k) != 0 implies k == b.var_spec() || k
        == one_key() by {
        assert(lc.has_var(k));
    }
}

/// The keys `ks` with `k` added unless it is there already.
pub open spec fn with_key(ks: Seq<VariableKey>, k: VariableKey) -> Seq<VariableKey> {
    if ks.contains(k) {
        ks
    } else {
        ks.push(k)
    }
}

/// The constant one and the variables of the booleans, each once.
pub open spec fn keys_for(bs: Seq<Boolean>) -> Seq<VariableKey>
    decreases bs.len(),
{
    if bs.len() == 0 {
        seq![one_key()]
    } else {
        with_key(keys_for(bs.drop_last()), bs.last().var_spec())
    }
}

/// The keys of some booleans are distinct and hold the constant one and each variable.
proof fn lemma_keys_for(bs: Seq<Boolean>)
    ensures
        keys_for(bs).no_duplicates(),
        keys_for(bs).contains(one_key()),
        forall|i: int| 0 <= i < bs.len() ==> keys_for(bs).contains(#[trigger] bs[i].var_spec()),
    decreases bs.len(),
{
    if bs.len() == 0 {
        assert(seq![one_key()][0] == one_key());
    } else {
        let rest = bs.drop_last();
        lemma_keys_for(rest);
        let ks = keys_for(rest);
        let k = bs.last().var_spec();
        if !ks.contains(k) {
            let t = ks.push(k);
            assert(t.no_duplicates()) by {
                assert forall|i: int, j: int| 0 <= i < t.len() && 0 <= j < t.len() && i != j implies t[i] != t[j] by {
                    if i < ks.len() && j < ks.len() {
                        assert(t[i] == ks[i] && t[j] == ks[j]);
                    } else if i < ks.len() {
                        assert(t[i] == ks[i]);
                    } else if j < ks.len() {
                        assert(t[j] == ks[j]);
                    }
                }
            }
            assert(t[t.len() - 1] == k);
            assert forall|j: VariableKey| ks.contains(j) implies t.contains(j) by {
                let i = choose|i: int| 0 <= i < ks.len() && ks[i] == j;
                assert(t[i] == j);
            }
        }
        assert forall|i: int| 0 <= i < bs.len() implies keys_for(bs).contains(#[trigger] bs[i].var_spec()) by {
            if i < bs.len() - 1 {
                assert(bs[i] == rest[i]);
            }
        }
    }
}

/// Under any assignment, a factor of the same form as `y` evaluates as `y`.
proof fn lemma_eval_same(x: LinearCombination, y: LinearCombination, ks: Seq<VariableKey>, w: spec_fn(VariableKey) -> nat)
    requires
        x.wf(),
        y.wf(),
        ks.no_duplicates(),
        same_form(x, y),
        forall|k: VariableKey| #[trigger] y.coeff(k) != 0 ==> ks.contains(k),
    ensures
        eval(x, w) == eval(y, w),
{
    assert forall|k: VariableKey| #[trigger] x.coeff(k) != 0 implies ks.contains(k) by {
        assert(y.coeff(k) != 0);
    }
    lemma_eval_linear(x, y, y, y, 1, 0, 0, 0, ks, w);
    lemma_cong_small(eval(x, w), eval(y, w));
}

/// Under any assignment, a factor of the form `1 - y` evaluates to `1 - y`.
proof fn lemma_eval_one_minus(x: LinearCombination, y: LinearCombination, ks: Seq<VariableKey>, w: spec_fn(VariableKey) -> nat)
    requires
        x.wf(),
        y.wf(),
        ks.no_duplicates(),
        one_minus_form(x, y),
        forall|k: VariableKey| #[trigger] y.coeff(k) != 0 ==> ks.contains(k),
    ensures
        eval(x, w) == sub_mod(1, eval(y, w)),
{
    lemma_bit_arith();
    assert forall|k: VariableKey| #[trigger] x.coeff(k) != 0 implies ks.contains(k) by {
        if y.coeff(k) == 0 {
            assert(x.coeff(k) == sub_mod(0, 0));
        }
    }
    lemma_sub_mod_cong(1, y.constant_val());
    assert forall|k: VariableKey| cong(#[trigger] x.coeff(k) as int, -1 * y.coeff(k) + 0 * y.coeff(k) + 0 * y.coeff(k)) by {
        lemma_sub_mod_cong(0, y.coeff(k));
    }
    lemma_eval_linear(x, y, y, y, -1, 0, 0, 1, ks, w);
    lemma_sub_mod_cong(1, eval(y, w));
    x.lemma_val_bound();
    lemma_cong_small(eval(x, w), sub_mod(1, eval(y, w)));
}

/// Under any assignment, a factor of the form `y + z` evaluates to `y + z`.
proof fn lemma_eval_sum(x: LinearCombination, y: LinearCombination, z: LinearCombination, ks: Seq<VariableKey>, w: spec_fn(VariableKey) -> nat)
    requires
        x.wf(),
        y.wf(),
        z.wf(),
        ks.no_duplicates(),
        sum_form(x, y, z),
        forall|k: VariableKey| #[trigger] y.coeff(k) != 0 ==> ks.contains(k),
        forall|k: VariableKey| #[trigger] z.coeff(k) != 0 ==> ks.contains(k),
    ensures
        eval(x, w) == (eval(y, w) + eval(z, w)) % modulus(),
{
    assert forall|k: VariableKey| #[trigger] x.coeff(k) != 0 implies ks.contains(k) by {
        if y.coeff(k) == 0 && z.coeff(k) == 0 {
            vstd::arithmetic::div_mod::lemma_small_mod(0, modulus());
        } else if y.coeff(k) != 0 {
            assert(ks.contains(k));
        } else {
            assert(z.coeff(k) != 0);
        }
    }
    lemma_cong_mod((y.constant_val() + z.constant_val()) as int);
    assert forall|k: VariableKey| cong(#[trigger] x.coeff(k) as int, 1 * (y.coeff(k) as int) + 1 * (z.coeff(k) as int) + 0 * (z.coeff(k) as int)) by {
        lemma_cong_mod((y.coeff(k) + z.coeff(k)) as int);
    }
    lemma_eval_linear(x, y, z, z, 1, 1, 0, 0, ks, w);
    lemma_cong_mod((eval(y, w) + eval(z, w)) as int);
    x.lemma_val_bound();
    lemma_cong_small(eval(x, w), (eval(y, w) + eval(z, w)) % modulus());
}

/// Under any assignment, a factor of the form `y - z` evaluates to `y - z`.
proof fn lemma_eval_difference(x: LinearCombination, y: LinearCombination, z: LinearCombination, ks: Seq<VariableKey>, w: spec_fn(VariableKey) -> nat)
    requires
        x.wf(),
        y.wf(),
        z.wf(),
        ks.no_duplicates(),
        difference_form(x, y, z),
        forall|k: VariableKey| #[trigger] y.coeff(k) != 0 ==> ks.contains(k),
        forall|k: VariableKey| #[trigger] z.coeff(k) != 0 ==> ks.contains(k),
    ensures
        eval(x, w) == sub_mod(eval(y, w), eval(z, w)),
{
    lemma_bit_arith();
    assert forall|k: VariableKey| #[trigger] x.coeff(k) != 0 implies ks.contains(k) by {
        if y.coeff(k) == 0 && z.coeff(k) == 0 {
            assert(x.coeff(k) == sub_mod(0, 0));
        } else if y.coeff(k) != 0 {
            assert(ks.contains(k));
        } else {
            assert(z.coeff(k) != 0);
        }
    }
    lemma_sub_mod_cong(y.constant_val(), z.constant_val());
    assert forall|k: VariableKey| cong(#[trigger] x.coeff(k) as int, 1 * y.coeff(k) + -1 * z.coeff(k) + 0 * z.coeff(k)) by {
        lemma_sub_mod_cong(y.coeff(k), z.coeff(k));
    }
    lemma_eval_linear(x, y, z, z, 1, -1, 0, 0, ks, w);
    lemma_sub_mod_cong(eval(y, w), eval(z, w));
    x.lemma_val_bound();
    lemma_cong_small(eval(x, w), sub_mod(eval(y, w), eval(z, w)));
}

/// For numbers below `p`, `(u - c) mod p == x` gives back `c == (u - x) mod p`.
proof fn lemma_sub_mod_solve(u: nat, c: nat, x: nat)
    requires
        c < modulus(),
        sub_mod(u, c) == x,
    ensures
        c == sub_mod(u, x),
{
    lemma_sub_mod_cong(u, c);
    lemma_sub_mod_cong(u, x);
    let m = modulus() as int;
    // x ~ u - c, so c ~ u - x.
    assert(cong(c as int, u - x)) by {
        assert(cong(x as int, u - c));
        lemma_cong_neg_shift(x as int, u - c, u as int);
    }
    lemma_cong_small(c, sub_mod(u, x));
}

/// Congruence survives `u - _`.
proof fn lemma_cong_neg_shift(a: int, b: int, u: int)
    requires
        cong(a, b),
    ensures
        cong(u - a, u - b),
{
    let m = modulus() as int;
    vstd::arithmetic::div_mod::lemma_sub_mod_noop(u, a, m);
    vstd::arithmetic::div_mod::lemma_sub_mod_noop(u, b, m);
}

/// Evaluations are below `p`.
proof fn lemma_eval_bound(lc: LinearCombination, w: spec_fn(VariableKey) -> nat)
    ensures
        eval(lc, w) < modulus(),
{
    vstd::arithmetic::div_mod::lemma_mod_bound(
        lc.constant_val() + crate::evaluation::eval_terms(lc.entries(), w),
        modulus() as int,
    );
}

/// Under any assignment, the product factor of XOR evaluates to `a + b - c`.
proof fn lemma_eval_xor_output(
    x: LinearCombination,
    a: LinearCombination,
    b: LinearCombination,
    c: LinearCombination,
    ks: Seq<VariableKey>,
    w: spec_fn(VariableKey) -> nat,
)
    requires
        x.wf(),
        a.wf(),
        b.wf(),
        c.wf(),
        ks.no_duplicates(),
        x.constant_val() == sub_mod((a.constant_val() + b.constant_val()) % modulus(), c.constant_val()),
        forall|k: VariableKey| #[trigger] x.coeff(k) == sub_mod((a.coeff(k) + b.coeff(k)) % modulus(), c.coeff(k)),
        forall|k: VariableKey| #[trigger] a.coeff(k) != 0 ==> ks.contains(k),
        forall|k: VariableKey| #[trigger] b.coeff(k) != 0 ==> ks.contains(k),
        forall|k: VariableKey| #[trigger] c.coeff(k) != 0 ==> ks.contains(k),
    ensures
        eval(x, w) == sub_mod((eval(a, w) + eval(b, w)) % modulus(), eval(c, w)),
{
    lemma_bit_arith();
    assert forall|k: VariableKey| #[trigger] x.coeff(k) != 0 implies ks.contains(k) by {
        if a.coeff(k) == 0 && b.coeff(k) == 0 && c.coeff(k) == 0 {
            assert(x.coeff(k) == sub_mod(0, 0));
        } else if a.coeff(k) != 0 {
            assert(ks.contains(k));
        } else if b.coeff(k) != 0 {
            assert(ks.contains(k));
        } else {
            assert(c.coeff(k) != 0);
        }
    }
    let u = (a.constant_val() + b.constant_val()) % modulus();
    lemma_sub_mod_cong(u, c.constant_val());
    lemma_cong_mod((a.constant_val() + b.constant_val()) as int);
    crate::lc_lemmas::lemma_cong_add(u as int, (a.constant_val() + b.constant_val()) as int, -(c.constant_val() as int), -(c.constant_val() as int));
    assert forall|k: VariableKey| cong(#[trigger] x.coeff(k) as int, 1 * (a.coeff(k) as int) + 1 * (b.coeff(k) as int) + -1 * (c.coeff(k) as int)) by {
        let uk = (a.coeff(k) + b.coeff(k)) % modulus();
        lemma_sub_mod_cong(uk, c.coeff(k));
        lemma_cong_mod((a.coeff(k) + b.coeff(k)) as int);
        crate::lc_lemmas::lemma_cong_add(uk as int, (a.coeff(k) + b.coeff(k)) as int, -(c.coeff(k) as int), -(c.coeff(k) as int));
    }
    lemma_eval_linear(x, a, b, c, 1, 1, -1, 0, ks, w);
    let e = (eval(a, w) + eval(b, w)) % modulus();
    lemma_sub_mod_cong(e, eval(c, w));
    lemma_cong_mod((eval(a, w) + eval(b, w)) as int);
    crate::lc_lemmas::lemma_cong_add(e as int, (eval(a, w) + eval(b, w)) as int, -(eval(c, w) as int), -(eval(c, w) as int));
    lemma_eval_bound(x, w);
    lemma_cong_small(eval(x, w), sub_mod(e, eval(c, w)));
}

/// `(a - t) mod p` is injective in `a` below `p`.
proof fn lemma_sub_mod_injective(a: nat, b: nat, t: nat)
    requires
        a < modulus(),
        b < modulus(),
        sub_mod(a, t) == sub_mod(b, t),
    ensures
        a == b,
{
    lemma_sub_mod_cong(a, t);
    lemma_sub_mod_cong(b, t);
    crate::lc_lemmas::lemma_cong_add(a - t, b - t, t as int, t as int);
    lemma_cong_small(a, b);
}

/// What the laws below know of the booleans: keys to sum over, and each input a bit.
proof fn lemma_gate_setup(bs: Seq<Boolean>, w: spec_fn(VariableKey) -> nat)
    requires
        forall|i: int| 0 <= i < bs.len() ==> (#[trigger] bs[i]).inv() && bs[i].lc_spec().wf(),
    ensures
        keys_for(bs).no_duplicates(),
        forall|i: int, k: VariableKey|
            0 <= i < bs.len() && (#[trigger] bs[i]).lc_spec().coeff(k) != 0 ==> #[trigger] keys_for(
                bs,
            ).contains(k),
{
    lemma_keys_for(bs);
    assert forall|i: int, k: VariableKey|
        0 <= i < bs.len() && (#[trigger] bs[i]).lc_spec().coeff(k) != 0 implies #[trigger] keys_for(
            bs,
        ).contains(k) by {
        lemma_boolean_keys(bs[i]);
    }
}

/// AND is sound: under an assignment that gives the constant one the value one and each
/// input variable a bit, the AND constraint, where it holds, forces the output to the
/// conjunction of the inputs.
pub proof fn lemma_and_sound(g: Constraint, a: Boolean, b: Boolean, c: Boolean, w: spec_fn(VariableKey) -> nat)
    requires
        and_gate(g, a, b, c),
        a.inv(),
        b.inv(),
        c.inv(),
        a.lc_spec().wf(),
        b.lc_spec().wf(),
        c.lc_spec().wf(),
        g.a_spec().wf(),
        g.b_spec().wf(),
        g.c_spec().wf(),
        one_is_one(w),
        bit_assigned(a, w),
        bit_assigned(b, w),
        holds(g, w),
    ensures
        eval(c.lc_spec(), w) == bit_val(bit_under(a, w) && bit_under(b, w)),
{
    let bs = seq![a, b, c];
    lemma_gate_setup(bs, w);
    let ks = keys_for(bs);
    assert(bs[0] == a && bs[1] == b && bs[2] == c);
    lemma_eval_boolean(a, w);
    lemma_eval_boolean(b, w);
    lemma_eval_same(g.a_spec(), a.lc_spec(), ks, w);
    lemma_eval_same(g.b_spec(), b.lc_spec(), ks, w);
    lemma_eval_same(g.c_spec(), c.lc_spec(), ks, w);
    lemma_bit_table(bit_under(a, w), bit_under(b, w));
}

/// NAND is sound: the NAND constraint, where it holds, forces the output to the negated
/// conjunction of the inputs.
pub proof fn lemma_nand_sound(g: Constraint, a: Boolean, b: Boolean, c: Boolean, w: spec_fn(VariableKey) -> nat)
    requires
        nand_gate(g, a, b, c),
        a.inv(),
        b.inv(),
        c.inv(),
        a.lc_spec().wf(),
        b.lc_spec().wf(),
        c.lc_spec().wf(),
        g.a_spec().wf(),
        g.b_spec().wf(),
        g.c_spec().wf(),
        one_is_one(w),
        bit_assigned(a, w),
        bit_assigned(b, w),
        holds(g, w),
    ensures
        eval(c.lc_spec(), w) == bit_val(!(bit_under(a, w) && bit_under(b, w))),
{
    let bs = seq![a, b, c];
    lemma_gate_setup(bs, w);
    let ks = keys_for(bs);
    assert(bs[0] == a && bs[1] == b && bs[2] == c);
    lemma_eval_boolean(a, w);
    lemma_eval_boolean(b, w);
    lemma_eval_same(g.a_spec(), a.lc_spec(), ks, w);
    lemma_eval_same(g.b_spec(), b.lc_spec(), ks, w);
    lemma_eval_one_minus(g.c_spec(), c.lc_spec(), ks, w);
    lemma_bit_table(bit_under(a, w), bit_under(b, w));
    lemma_bit_arith();
    lemma_eval_bound(c.lc_spec(), w);
    let x = bit_val(!(bit_under(a, w) && bit_under(b, w)));
    lemma_sub_mod_solve(1, eval(c.lc_spec(), w), sub_mod(1, x));
    lemma_sub_mod_solve(1, x, sub_mod(1, x));
}

/// OR is sound: the OR constraint, where it holds, forces the output to the disjunction of
/// the inputs.
pub proof fn lemma_or_sound(g: Constraint, a: Boolean, b: Boolean, c: Boolean, w: spec_fn(VariableKey) -> nat)
    requires
        or_gate(g, a, b, c),
        a.inv(),
        b.inv(),
        c.inv(),
        a.lc_spec().wf(),
        b.lc_spec().wf(),
        c.lc_spec().wf(),
        g.a_spec().wf(),
        g.b_spec().wf(),
        g.c_spec().wf(),
        one_is_one(w),
        bit_assigned(a, w),
        bit_assigned(b, w),
        holds(g, w),
    ensures
        eval(c.lc_spec(), w) == bit_val(bit_under(a, w) || bit_under(b, w)),
{
    let bs = seq![a, b, c];
    lemma_gate_setup(bs, w);
    let ks = keys_for(bs);
    assert(bs[0] == a && bs[1] == b && bs[2] == c);
    lemma_eval_boolean(a, w);
    lemma_eval_boolean(b, w);
    lemma_eval_one_minus(g.a_spec(), a.lc_spec(), ks, w);
    lemma_eval_one_minus(g.b_spec(), b.lc_spec(), ks, w);
    lemma_eval_one_minus(g.c_spec(), c.lc_spec(), ks, w);
    lemma_bit_table(bit_under(a, w), bit_under(b, w));
    lemma_bit_arith();
    lemma_eval_bound(c.lc_spec(), w);
    let x = bit_val(bit_under(a, w) || bit_under(b, w));
    lemma_sub_mod_solve(1, eval(c.lc_spec(), w), sub_mod(1, x));
    lemma_sub_mod_solve(1, x, sub_mod(1, x));
}

/// NOR is sound: the NOR constraint, where it holds, forces the output to the negated
/// disjunction of the inputs.
pub proof fn lemma_nor_sound(g: Constraint, a: Boolean, b: Boolean, c: Boolean, w: spec_fn(VariableKey) -> nat)
    requires
        nor_gate(g, a, b, c),
        a.inv(),
        b.inv(),
        c.inv(),
        a.lc_spec().wf(),
        b.lc_spec().wf(),
        c.lc_spec().wf(),
        g.a_spec().wf(),
        g.b_spec().wf(),
        g.c_spec().wf(),
        one_is_one(w),
        bit_assigned(a, w),
        bit_assigned(b, w),
        holds(g, w),
    ensures
        eval(c.lc_spec(), w) == bit_val(!(bit_under(a, w) || bit_under(b, w))),
{
    let bs = seq![a, b, c];
    lemma_gate_setup(bs, w);
    let ks = keys_for(bs);
    assert(bs[0] == a && bs[1] == b && bs[2] == c);
    lemma_eval_boolean(a, w);
    lemma_eval_boolean(b, w);
    lemma_eval_one_minus(g.a_spec(), a.lc_spec(), ks, w);
    lemma_eval_one_minus(g.b_spec(), b.lc_spec(), ks, w);
    lemma_eval_same(g.c_spec(), c.lc_spec(), ks, w);
    lemma_bit_table(bit_under(a, w), bit_under(b, w));
}

/// XOR is sound: the XOR constraint, where it holds, forces the output to the exclusive
/// disjunction of the inputs.
pub proof fn lemma_xor_sound(g: Constraint, a: Boolean, b: Boolean, c: Boolean, w: spec_fn(VariableKey) -> nat)
    requires
        xor_gate(g, a, b, c),
        a.inv(),
        b.inv(),
        c.inv(),
        a.lc_spec().wf(),
        b.lc_spec().wf(),
        c.lc_spec().wf(),
        g.a_spec().wf(),
        g.b_spec().wf(),
        g.c_spec().wf(),
        one_is_one(w),
        bit_assigned(a, w),
        bit_assigned(b, w),
        holds(g, w),
    ensures
        eval(c.lc_spec(), w) == bit_val(bit_under(a, w) != bit_under(b, w)),
{
    let bs = seq![a, b, c];
    lemma_gate_setup(bs, w);
    let ks = keys_for(bs);
    assert(bs[0] == a && bs[1] == b && bs[2] == c);
    lemma_eval_boolean(a, w);
    lemma_eval_boolean(b, w);
    lemma_eval_sum(g.a_spec(), a.lc_spec(), a.lc_spec(), ks, w);
    lemma_eval_same(g.b_spec(), b.lc_spec(), ks, w);
    lemma_eval_xor_output(g.c_spec(), a.lc_spec(), b.lc_spec(), c.lc_spec(), ks, w);
    lemma_bit_table(bit_under(a, w), bit_under(b, w));
    lemma_bit_arith();
    lemma_eval_bound(c.lc_spec(), w);
    let u = (eval(a.lc_spec(), w) + eval(b.lc_spec(), w)) % modulus();
    let x = bit_val(bit_under(a, w) != bit_under(b, w));
    lemma_sub_mod_solve(u, eval(c.lc_spec(), w), sub_mod(u, x));
    lemma_sub_mod_solve(u, x, sub_mod(u, x));
}

/// Selection is sound: the selection constraint, where it holds, forces the output to
/// `first` when the condition is one and to `second` otherwise.
pub proof fn lemma_ternary_sound(
    g: Constraint,
    s: Boolean,
    f: Boolean,
    t: Boolean,
    c: Boolean,
    w: spec_fn(VariableKey) -> nat,
)
    requires
        ternary_gate(g, s, f, t, c),
        s.inv(),
        f.inv(),
        t.inv(),
        c.inv(),
        s.lc_spec().wf(),
        f.lc_spec().wf(),
        t.lc_spec().wf(),
        c.lc_spec().wf(),
        g.a_spec().wf(),
        g.b_spec().wf(),
        g.c_spec().wf(),
        one_is_one(w),
        bit_assigned(s, w),
        bit_assigned(f, w),
        bit_assigned(t, w),
        holds(g, w),
    ensures
        eval(c.lc_spec(), w) == bit_val(
            if bit_under(s, w) {
                bit_under(f, w)
            } else {
                bit_under(t, w)
            },
        ),
{
    let bs = seq![s, f, t, c];
    lemma_gate_setup(bs, w);
    let ks = keys_for(bs);
    assert(bs[0] == s && bs[1] == f && bs[2] == t && bs[3] == c);
    lemma_eval_boolean(s, w);
    lemma_eval_boolean(f, w);
    lemma_eval_boolean(t, w);
    lemma_eval_same(g.a_spec(), s.lc_spec(), ks, w);
    lemma_eval_difference(g.b_spec(), f.lc_spec(), t.lc_spec(), ks, w);
    lemma_eval_difference(g.c_spec(), c.lc_spec(), t.lc_spec(), ks, w);
    lemma_select(bit_under(s, w), bit_under(f, w), bit_under(t, w));
    lemma_bit_arith();
    lemma_eval_bound(c.lc_spec(), w);
    let x = bit_val(if bit_under(s, w) { bit_under(f, w) } else { bit_under(t, w) });
    lemma_sub_mod_injective(eval(c.lc_spec(), w), x, eval(t.lc_spec(), w));
}

/// A linear combination `v` of a bit variable, under any assignment, evaluates to the value
/// of `v` reduced modulo `p`.
proof fn lemma_eval_single(lc: LinearCombination, v: VariableKey, w: spec_fn(VariableKey) -> nat)
    requires
        lc.wf(),
        single_shape(lc, v),
    ensures
        eval(lc, w) == w(v) % modulus(),
{
    lc.lemma_wf();
    let ks = seq![v];
    assert forall|k: VariableKey| coeff_of(lc.entries(), k) != 0 implies #[trigger] ks.contains(k) by {
        assert(lc.has_var(k));
        assert(k == v);
        assert(ks[0] == v);
    }
    lemma_eval_terms_over_keys(lc.entries(), ks, w);
    let f = coeffs(lc.entries());
    assert(ks.drop_last() =~= Seq::<VariableKey>::empty());
    assert(over_keys(f, ks.drop_last(), w) == 0);
    assert(f(v) == lc.coeff(v));
    assert(over_keys(f, ks, w) == w(v));
}

/// A linear combination with no nonzero coefficient and the constant zero evaluates to zero.
proof fn lemma_eval_zero(lc: LinearCombination, w: spec_fn(VariableKey) -> nat)
    requires
        lc.wf(),
        lc.constant_val() == 0,
        forall|k: VariableKey| #[trigger] lc.coeff(k) == 0,
    ensures
        eval(lc, w) == 0,
{
    lc.lemma_wf();
    let ks = Seq::<VariableKey>::empty();
    assert forall|k: VariableKey| coeff_of(lc.entries(), k) != 0 implies #[trigger] ks.contains(k) by {
        assert(lc.coeff(k) == 0);
    }
    lemma_eval_terms_over_keys(lc.entries(), ks, w);
    vstd::arithmetic::div_mod::lemma_small_mod(0, modulus());
}

/// A factor `y` whose product with an invertible `x` is zero modulo `m` is zero modulo `m`.
proof fn lemma_cancel_invertible(y: int, x: int, i: int, m: int)
    requires
        0 < m,
        (y * x) % m == 0,
        (x * i) % m == 1,
    ensures
        y % m == 0,
{
    vstd::arithmetic::mul::lemma_mul_is_associative(y, x, i);
    vstd::arithmetic::div_mod::lemma_mul_mod_noop_left(y * x, i, m);
    vstd::arithmetic::div_mod::lemma_mul_mod_noop_right(y, x * i, m);
    assert(((y * x) % m) * i == 0);
    assert((y * x * i) % m == 0) by {
        vstd::arithmetic::div_mod::lemma_small_mod(0, m as nat);
    }
    assert(y * ((x * i) % m) == y);
    assert((y * (x * i)) % m == y % m);
}

/// The constraint of a new boolean is sound: under an assignment that gives the constant one
/// the value one and the boolean's variable a field element that is zero or invertible, the
/// constraint `(1 - b) * b == 0`, where it holds, forces that variable to be a bit.
pub proof fn lemma_boolean_sound(g: Constraint, b: Boolean, w: spec_fn(VariableKey) -> nat)
    requires
        boolean_gate(g, b),
        b.inv(),
        single_shape(b.lc_spec(), b.var_spec()),
        b.lc_spec().wf(),
        g.a_spec().wf(),
        g.b_spec().wf(),
        g.c_spec().wf(),
        one_is_one(w),
        w(b.var_spec()) < modulus(),
        w(b.var_spec()) == 0 || has_fermat_inverse(w(b.var_spec())),
        holds(g, w),
    ensures
        bit_assigned(b, w),
        w(b.var_spec()) <= 1,
{
    let v = b.var_spec();
    let x = w(v);
    let m = modulus() as int;
    let bs = seq![b];
    lemma_gate_setup(bs, w);
    let ks = keys_for(bs);
    assert(bs[0] == b);
    lemma_eval_single(b.lc_spec(), v, w);
    vstd::arithmetic::div_mod::lemma_small_mod(x, modulus());
    lemma_eval_same(g.b_spec(), b.lc_spec(), ks, w);
    lemma_eval_one_minus(g.a_spec(), b.lc_spec(), ks, w);
    lemma_eval_zero(g.c_spec(), w);
    lemma_bit_arith();
    if x > 1 {
        let y = sub_mod(1, x);
        assert(y == m + 1 - x) by {
            vstd::arithmetic::div_mod::lemma_small_mod((1 + m - x) as nat, modulus());
        }
        let fi = vstd::arithmetic::power::pow(x as int, (modulus() - 2) as nat) % m;
        assert((x * fi) % m == 1);
        assert(((y * x) as int) % m == 0);
        lemma_cancel_invertible(y as int, x as int, fi, m);
        vstd::arithmetic::div_mod::lemma_small_mod(y, modulus());
        assert(false);
    }
}

/// The gates on two bits that the gadgets compute.
pub enum BitOp {
    And,
    Nand,
    Or,
    Nor,
    Xor,
    Xnor,
}

/// The bit that `op` gives on the bits `x` and `y`.
pub open spec fn apply(op: BitOp, x: bool, y: bool) -> bool {
    match op {
        BitOp::And => x && y,
        BitOp::Nand => !(x && y),
        BitOp::Or => x || y,
        BitOp::Nor => !(x || y),
        BitOp::Xor => x != y,
        BitOp::Xnor => x == y,
    }
}

/// An assignment of field elements in which the public constant one is one.
pub open spec fn field_assignment(w: spec_fn(VariableKey) -> nat) -> bool {
    &&& one_is_one(w)
    &&& forall|k: VariableKey| #[trigger] w(k) < modulus()
}

/// Every constraint that `new` has beyond those of `old` holds under `w`.
pub open spec fn added_hold(old: R1CS, new: R1CS, w: spec_fn(VariableKey) -> nat) -> bool {
    forall|i: int|
        old.constraints_spec().len() <= i < new.constraints_spec().len() ==> holds(
            #[trigger] new.constraints_spec()[i],
            w,
        )
}

/// The boolean evaluates to `0` or `1` under `w`.
pub open spec fn is_bit_under(b: Boolean, w: spec_fn(VariableKey) -> nat) -> bool {
    eval(b.lc_spec(), w) <= 1
}

/// The constraints that take `old` to `new` force `c` to `op` of `a` and `b`: under
/// every assignment of field elements that satisfies them and evaluates `a` and `b` to bits,
/// `c` evaluates to `op` of those bits.
pub open spec fn binds(old: R1CS, new: R1CS, a: Boolean, b: Boolean, c: Boolean, op: BitOp) -> bool {
    forall|w: spec_fn(VariableKey) -> nat|
        #[trigger] added_hold(old, new, w) && field_assignment(w) && is_bit_under(a, w)
            && is_bit_under(b, w) ==> eval(c.lc_spec(), w) == bit_val(
            apply(op, bit_under(a, w), bit_under(b, w)),
        )
}

/// A boolean that evaluates to a bit under an assignment of field elements gives its
/// variable, if it has one, a bit.
proof fn lemma_bit_assigned_from_eval(b: Boolean, w: spec_fn(VariableKey) -> nat)
    requires
        b.inv(),
        b.lc_spec().wf(),
        field_assignment(w),
        is_bit_under(b, w),
    ensures
        bit_assigned(b, w),
{
    let lc = b.lc_spec();
    let v = b.var_spec();
    lemma_shape(lc, v);
    lemma_one_key();
    lc.lemma_wf();
    let x = w(v);
    let m = modulus() as int;
    assert(x < modulus());
    if lc.is_const() {
    } else if single_shape(lc, v) {
        lemma_eval_single(lc, v, w);
        vstd::arithmetic::div_mod::lemma_small_mod(x, modulus());
    } else if x > 1 {
        assert(bit_key(v));
        let ks = seq![v, one_key()];
        assert(ks.no_duplicates()) by {
            assert(ks[0] != ks[1]);
        }
        assert forall|k: VariableKey| coeff_of(lc.entries(), k) != 0 implies #[trigger] ks.contains(k) by {
            assert(lc.coeff(k) != 0);
            if k == v {
                assert(ks[0] == k);
            } else {
                assert(lc.has_var(k));
                assert(ks[1] == k);
            }
        }
        lemma_eval_terms_over_keys(lc.entries(), ks, w);
        let f = coeffs(lc.entries());
        assert(ks.drop_last() =~= seq![v]);
        assert(ks.drop_last().drop_last() =~= Seq::<VariableKey>::empty());
        assert(over_keys(f, ks.drop_last().drop_last(), w) == 0);
        assert(f(v) == lc.coeff(v));
        assert(f(one_key()) == lc.coeff(one_key()));
        assert(over_keys(f, ks.drop_last(), w) == f(v) * w(v));
        assert(over_keys(f, ks, w) == (m - 1) * x + 1);
        assert((m - 1) * x + 1 == (x - 1) * m + (m + 1 - x)) by (nonlinear_arith);
        vstd::arithmetic::div_mod::lemma_mod_multiples_vanish(x - 1, m + 1 - x, m);
        vstd::arithmetic::div_mod::lemma_small_mod((m + 1 - x) as nat, modulus());
        assert(false);
    }
}

/// A constant boolean evaluates to its bit under any assignment.
pub proof fn lemma_eval_const(b: Boolean, w: spec_fn(VariableKey) -> nat)
    requires
        b.inv(),
        b.lc_spec().wf(),
        b.is_const(),
    ensures
        eval(b.lc_spec(), w) == bit_val(b.bit()),
{
    let lc = b.lc_spec();
    lemma_shape(lc, b.var_spec());
    lc.lemma_wf();
    let ks = Seq::<VariableKey>::empty();
    assert forall|k: VariableKey| coeff_of(lc.entries(), k) != 0 implies #[trigger] ks.contains(k) by {
        assert(lc.has_var(k));
    }
    lemma_eval_terms_over_keys(lc.entries(), ks, w);
    vstd::arithmetic::div_mod::lemma_small_mod(lc.constant_val(), modulus());
}

/// A copy evaluates as the boolean it copies.
proof fn lemma_eval_copy(c: Boolean, a: Boolean, w: spec_fn(VariableKey) -> nat)
    requires
        c.copies(a),
    ensures
        eval(c.lc_spec(), w) == eval(a.lc_spec(), w),
{
}

/// Under an assignment that satisfies the constraints that take `old` to `mid` and `mid` to
/// `new`, where each extends the one before, the constraints that take `old` to `new` hold,
/// and the other way round.
pub proof fn lemma_added_hold_split(old: R1CS, mid: R1CS, new: R1CS, w: spec_fn(VariableKey) -> nat)
    requires
        old.constraints_spec().len() <= mid.constraints_spec().len(),
        mid.constraints_spec().len() <= new.constraints_spec().len(),
        new.constraints_spec().take(mid.constraints_spec().len() as int) == mid.constraints_spec(),
    ensures
        added_hold(old, new, w) <==> added_hold(old, mid, w) && added_hold(mid, new, w),
{
    let n = mid.constraints_spec().len() as int;
    if added_hold(old, new, w) {
        assert forall|i: int| old.constraints_spec().len() <= i < mid.constraints_spec().len()
            implies holds(#[trigger] mid.constraints_spec()[i], w) by {
            assert(new.constraints_spec().take(n)[i] == new.constraints_spec()[i]);
        }
    }
    if added_hold(old, mid, w) && added_hold(mid, new, w) {
        assert forall|i: int| old.constraints_spec().len() <= i < new.constraints_spec().len()
            implies holds(#[trigger] new.constraints_spec()[i], w) by {
            if i < n {
                assert(new.constraints_spec().take(n)[i] == new.constraints_spec()[i]);
                assert(holds(mid.constraints_spec()[i], w));
            }
        }
    }
}

/// The constraint `g` enforces `op` on `a` and `b` with output `c`.
pub open spec fn gate_of(op: BitOp, g: Constraint, a: Boolean, b: Boolean, c: Boolean) -> bool {
    match op {
        BitOp::And => and_gate(g, a, b, c),
        BitOp::Nand => nand_gate(g, a, b, c),
        BitOp::Or => or_gate(g, a, b, c),
        BitOp::Nor => nor_gate(g, a, b, c),
        BitOp::Xor => xor_gate(g, a, b, c),
        BitOp::Xnor => false,
    }
}

/// One added constraint that enforces `op` binds its output.
pub proof fn lemma_gate_binds(old: R1CS, new: R1CS, a: Boolean, b: Boolean, c: Boolean, op: BitOp)
    requires
        new.constraints_spec().len() == old.constraints_spec().len() + 1,
        gate_of(op, new.constraints_spec().last(), a, b, c),
        a.inv(),
        b.inv(),
        c.inv(),
        a.lc_spec().wf(),
        b.lc_spec().wf(),
        c.lc_spec().wf(),
        new.constraints_spec().last().a_spec().wf(),
        new.constraints_spec().last().b_spec().wf(),
        new.constraints_spec().last().c_spec().wf(),
    ensures
        binds(old, new, a, b, c, op),
{
    let g = new.constraints_spec().last();
    let n = old.constraints_spec().len() as int;
    assert forall|w: spec_fn(VariableKey) -> nat|
        #[trigger] added_hold(old, new, w) && field_assignment(w) && is_bit_under(a, w)
            && is_bit_under(b, w) implies eval(c.lc_spec(), w) == bit_val(
            apply(op, bit_under(a, w), bit_under(b, w)),
        ) by {
        assert(holds(new.constraints_spec()[n], w));
        lemma_bit_assigned_from_eval(a, w);
        lemma_bit_assigned_from_eval(b, w);
        match op {
            BitOp::And => lemma_and_sound(g, a, b, c, w),
            BitOp::Nand => lemma_nand_sound(g, a, b, c, w),
            BitOp::Or => lemma_or_sound(g, a, b, c, w),
            BitOp::Nor => lemma_nor_sound(g, a, b, c, w),
            BitOp::Xor => lemma_xor_sound(g, a, b, c, w),
            BitOp::Xnor => {},
        }
    }
}

/// A boolean that `not` derives from `a` evaluates to the negated bit of `a`, where `a`
/// evaluates to a bit under an assignment of field elements.
pub proof fn lemma_eval_negation(c: Boolean, a: Boolean, w: spec_fn(VariableKey) -> nat)
    requires
        a.inv(),
        c.inv(),
        a.lc_spec().wf(),
        c.lc_spec().wf(),
        field_assignment(w),
        is_bit_under(a, w),
        c.is_const() == a.is_const(),
        a.is_const() ==> c.bit() == !a.bit(),
        !a.is_const() ==> c.var_spec() == a.var_spec() && c.is_negation() == !a.is_negation(),
    ensures
        eval(c.lc_spec(), w) == bit_val(!bit_under(a, w)),
{
    if a.is_const() {
        lemma_eval_const(a, w);
        lemma_eval_const(c, w);
    } else {
        lemma_bit_assigned_from_eval(a, w);
        lemma_eval_boolean(a, w);
        lemma_eval_boolean(c, w);
        lemma_shape(a.lc_spec(), a.var_spec());
        lemma_shape(c.lc_spec(), c.var_spec());
    }
}

/// The value that the assignment `w` gives the inputs `p` and `q` of a gate agrees with the
/// inputs `a` and `b` that are constants.
pub open spec fn fixed_by(a: Boolean, b: Boolean, p: bool, q: bool) -> bool {
    &&& a.is_const() ==> p == a.bit()
    &&& b.is_const() ==> q == b.bit()
}

/// Where a constant input decides `op`, and the output copies the input `x` (one of `a`
/// and `b`) that `op` then passes on, no constraint is needed to bind it.
pub proof fn lemma_binds_by_copy(s: R1CS, a: Boolean, b: Boolean, c: Boolean, op: BitOp, x_is_a: bool)
    requires
        a.inv(),
        b.inv(),
        a.lc_spec().wf(),
        b.lc_spec().wf(),
        c.copies(if x_is_a { a } else { b }),
        forall|p: bool, q: bool| #[trigger] fixed_by(a, b, p, q) ==> apply(op, p, q) == if x_is_a {
            p
        } else {
            q
        },
    ensures
        binds(s, s, a, b, c, op),
{
    assert forall|w: spec_fn(VariableKey) -> nat|
        #[trigger] added_hold(s, s, w) && field_assignment(w) && is_bit_under(a, w)
            && is_bit_under(b, w) implies eval(c.lc_spec(), w) == bit_val(
            apply(op, bit_under(a, w), bit_under(b, w)),
        ) by {
        if a.is_const() {
            lemma_eval_const(a, w);
        }
        if b.is_const() {
            lemma_eval_const(b, w);
        }
        assert(fixed_by(a, b, bit_under(a, w), bit_under(b, w)));
        lemma_eval_copy(c, if x_is_a { a } else { b }, w);
    }
}

/// Where a constant input decides `op`, and the output is the negation by `not` of the
/// input `x` (one of `a` and `b`) whose negation `op` then gives, no constraint is needed
/// to bind it.
pub proof fn lemma_binds_by_not(s: R1CS, a: Boolean, b: Boolean, c: Boolean, op: BitOp, x_is_a: bool)
    requires
        a.inv(),
        b.inv(),
        c.inv(),
        a.lc_spec().wf(),
        b.lc_spec().wf(),
        c.lc_spec().wf(),
        ({
            let x = if x_is_a { a } else { b };
            &&& c.is_const() == x.is_const()
            &&& x.is_const() ==> c.bit() == !x.bit()
            &&& !x.is_const() ==> c.var_spec() == x.var_spec() && c.is_negation()
                == !x.is_negation()
        }),
        forall|p: bool, q: bool| #[trigger] fixed_by(a, b, p, q) ==> apply(op, p, q) == if x_is_a {
            !p
        } else {
            !q
        },
    ensures
        binds(s, s, a, b, c, op),
{
    assert forall|w: spec_fn(VariableKey) -> nat|
        #[trigger] added_hold(s, s, w) && field_assignment(w) && is_bit_under(a, w)
            && is_bit_under(b, w) implies eval(c.lc_spec(), w) == bit_val(
            apply(op, bit_under(a, w), bit_under(b, w)),
        ) by {
        if a.is_const() {
            lemma_eval_const(a, w);
        }
        if b.is_const() {
            lemma_eval_const(b, w);
        }
        assert(fixed_by(a, b, bit_under(a, w), bit_under(b, w)));
        lemma_eval_negation(c, if x_is_a { a } else { b }, w);
    }
}

/// The constraints that take `old` to `new` force `sum` and `carry` to the two bits of the
/// sum of `a`, `b` and `c`, under every assignment of field elements that satisfies them and
/// evaluates the three inputs to bits.
pub open spec fn adds(
    old: R1CS,
    new: R1CS,
    a: Boolean,
    b: Boolean,
    c: Boolean,
    sum: Boolean,
    carry: Boolean,
) -> bool {
    forall|w: spec_fn(VariableKey) -> nat|
        #[trigger] added_hold(old, new, w) && field_assignment(w) && is_bit_under(a, w)
            && is_bit_under(b, w) && is_bit_under(c, w) ==> {
            &&& is_bit_under(sum, w)
            &&& is_bit_under(carry, w)
            &&& eval(sum.lc_spec(), w) + 2 * eval(carry.lc_spec(), w) == eval(a.lc_spec(), w)
                + eval(b.lc_spec(), w) + eval(c.lc_spec(), w)
        }
}

/// The constraints that take `old` to `new` force `difference` and `borrow_out` to the two
/// bits of `a - b - borrow`, under every assignment of field elements that satisfies them and
/// evaluates the three inputs to bits.
pub open spec fn subtracts(
    old: R1CS,
    new: R1CS,
    a: Boolean,
    b: Boolean,
    borrow: Boolean,
    difference: Boolean,
    borrow_out: Boolean,
) -> bool {
    forall|w: spec_fn(VariableKey) -> nat|
        #[trigger] added_hold(old, new, w) && field_assignment(w) && is_bit_under(a, w)
            && is_bit_under(b, w) && is_bit_under(borrow, w) ==> {
            &&& is_bit_under(difference, w)
            &&& is_bit_under(borrow_out, w)
            &&& eval(a.lc_spec(), w) - eval(b.lc_spec(), w) - eval(borrow.lc_spec(), w) == eval(
                difference.lc_spec(),
                w,
            ) - 2 * eval(borrow_out.lc_spec(), w)
        }
}

/// The constraints that take `old` to `new` force `c` to `first` where `condition` is one and
/// to `second` where it is zero, under every assignment of field elements that satisfies them
/// and evaluates the three inputs to bits.
pub open spec fn selects(
    old: R1CS,
    new: R1CS,
    condition: Boolean,
    first: Boolean,
    second: Boolean,
    c: Boolean,
) -> bool {
    forall|w: spec_fn(VariableKey) -> nat|
        #[trigger] added_hold(old, new, w) && field_assignment(w) && is_bit_under(condition, w)
            && is_bit_under(first, w) && is_bit_under(second, w) ==> eval(c.lc_spec(), w)
            == bit_val(
            if bit_under(condition, w) {
                bit_under(first, w)
            } else {
                bit_under(second, w)
            },
        )
}

/// One added constraint that is the selection gate binds its output.
pub proof fn lemma_select_binds(
    old: R1CS,
    new: R1CS,
    condition: Boolean,
    first: Boolean,
    second: Boolean,
    c: Boolean,
)
    requires
        new.constraints_spec().len() == old.constraints_spec().len() + 1,
        ternary_gate(new.constraints_spec().last(), condition, first, second, c),
        condition.inv(),
        first.inv(),
        second.inv(),
        c.inv(),
        condition.lc_spec().wf(),
        first.lc_spec().wf(),
        second.lc_spec().wf(),
        c.lc_spec().wf(),
        new.constraints_spec().last().a_spec().wf(),
        new.constraints_spec().last().b_spec().wf(),
        new.constraints_spec().last().c_spec().wf(),
    ensures
        selects(old, new, condition, first, second, c),
{
    let g = new.constraints_spec().last();
    let n = old.constraints_spec().len() as int;
    assert forall|w: spec_fn(VariableKey) -> nat|
        #[trigger] added_hold(old, new, w) && field_assignment(w) && is_bit_under(condition, w)
            && is_bit_under(first, w) && is_bit_under(second, w) implies eval(c.lc_spec(), w)
        == bit_val(
        if bit_under(condition, w) {
            bit_under(first, w)
        } else {
            bit_under(second, w)
        },
    ) by {
        assert(holds(new.constraints_spec()[n], w));
        lemma_bit_assigned_from_eval(condition, w);
        lemma_bit_assigned_from_eval(first, w);
        lemma_bit_assigned_from_eval(second, w);
        lemma_ternary_sound(g, condition, first, second, c, w);
    }
}


} // verus!
