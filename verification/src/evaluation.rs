//! Linear combinations evaluated under any assignment of values to their variables, and
//! how the evaluation follows the coefficients.

use crate::fp::{modulus, sub_mod, Fp};
use crate::lc_lemmas::{
    cong, coeff_of, has_key, keys_distinct, lemma_coeff_bound, lemma_coeff_push, lemma_cong_add,
    lemma_cong_mod, lemma_cong_mul,
};
use crate::constraint::Constraint;
use crate::linear_combination::{fmod, LinearCombination};
use crate::variable::VariableKey;
use vstd::prelude::*;

verus! {

/// The sum of the terms `s` under the assignment `w`: each coefficient times the value that
/// `w` gives its variable.
pub open spec fn eval_terms(s: Seq<(VariableKey, Fp)>, w: spec_fn(VariableKey) -> nat) -> int
    decreases s.len(),
{
    if s.len() == 0 {
        0
    } else {
        eval_terms(s.drop_last(), w) + s.last().1@ * w(s.last().0)
    }
}

/// The value of a linear combination under the assignment `w`, modulo `p`.
pub open spec fn eval(lc: LinearCombination, w: spec_fn(VariableKey) -> nat) -> nat {
    fmod(lc.constant_val() + eval_terms(lc.entries(), w))
}

/// The coefficient function of the terms `s`.
pub open spec fn coeffs(s: Seq<(VariableKey, Fp)>) -> spec_fn(VariableKey) -> nat {
    |k: VariableKey| coeff_of(s, k)
}

/// The constraint `g` holds under the assignment `w`.
pub open spec fn holds(g: Constraint, w: spec_fn(VariableKey) -> nat) -> bool {
    (eval(g.a_spec(), w) * eval(g.b_spec(), w)) % modulus() == eval(g.c_spec(), w)
}

/// The sum over the keys `ks` of the coefficient `f(k)` times the value `w(k)`.
pub open spec fn over_keys(
    f: spec_fn(VariableKey) -> nat,
    ks: Seq<VariableKey>,
    w: spec_fn(VariableKey) -> nat,
) -> int
    decreases ks.len(),
{
    if ks.len() == 0 {
        0
    } else {
        over_keys(f, ks.drop_last(), w) + f(ks.last()) * w(ks.last())
    }
}

/// Sums over keys follow coefficients that combine linearly, modulo `p`.
proof fn lemma_over_keys_linear(
    h: spec_fn(VariableKey) -> nat,
    f: spec_fn(VariableKey) -> nat,
    g: spec_fn(VariableKey) -> nat,
    e: spec_fn(VariableKey) -> nat,
    x: int,
    y: int,
    z: int,
    ks: Seq<VariableKey>,
    w: spec_fn(VariableKey) -> nat,
)
    requires
        forall|k: VariableKey| ks.contains(k) ==> cong(#[trigger] h(k) as int, x * f(k) + y * g(k) + z * e(k)),
    ensures
        cong(over_keys(h, ks, w), x * over_keys(f, ks, w) + y * over_keys(g, ks, w) + z * over_keys(e, ks, w)),
    decreases ks.len(),
{
    if ks.len() > 0 {
        let rest = ks.drop_last();
        let k = ks.last();
        assert forall|kk: VariableKey| rest.contains(kk) implies cong(#[trigger] h(kk) as int, x * f(kk) + y * g(kk) + z * e(kk)) by {
            assert(ks.contains(kk));
        }
        lemma_over_keys_linear(h, f, g, e, x, y, z, rest, w);
        assert(ks.contains(k));
        let wk = w(k) as int;
        lemma_cong_mul(h(k) as int, x * f(k) + y * g(k) + z * e(k), wk);
        let a = over_keys(h, rest, w);
        let b = x * over_keys(f, rest, w) + y * over_keys(g, rest, w) + z * over_keys(e, rest, w);
        lemma_cong_add(a, b, h(k) * wk, (x * f(k) + y * g(k) + z * e(k)) * wk);
        let fk = f(k) as int;
        let gk = g(k) as int;
        let ek = e(k) as int;
        let of = over_keys(f, rest, w);
        let og = over_keys(g, rest, w);
        let oe = over_keys(e, rest, w);
        vstd::arithmetic::mul::lemma_mul_is_distributive_add_other_way(wk, x * fk + y * gk, z * ek);
        vstd::arithmetic::mul::lemma_mul_is_distributive_add_other_way(wk, x * fk, y * gk);
        vstd::arithmetic::mul::lemma_mul_is_associative(x, fk, wk);
        vstd::arithmetic::mul::lemma_mul_is_associative(y, gk, wk);
        vstd::arithmetic::mul::lemma_mul_is_associative(z, ek, wk);
        vstd::arithmetic::mul::lemma_mul_is_distributive_add(x, of, fk * wk);
        vstd::arithmetic::mul::lemma_mul_is_distributive_add(y, og, gk * wk);
        vstd::arithmetic::mul::lemma_mul_is_distributive_add(z, oe, ek * wk);
    }
}

/// A coefficient function that is zero but at `k0`, over distinct keys, sums to its
/// coefficient at `k0` times the value there, where `k0` is one of the keys.
proof fn lemma_over_keys_single(
    f: spec_fn(VariableKey) -> nat,
    ks: Seq<VariableKey>,
    w: spec_fn(VariableKey) -> nat,
    k0: VariableKey,
)
    requires
        ks.no_duplicates(),
        forall|k: VariableKey| k != k0 ==> #[trigger] f(k) == 0,
    ensures
        over_keys(f, ks, w) == if ks.contains(k0) {
            f(k0) * w(k0)
        } else {
            0
        },
    decreases ks.len(),
{
    if ks.len() > 0 {
        let rest = ks.drop_last();
        assert(rest.no_duplicates()) by {
            assert forall|i: int, j: int| 0 <= i < rest.len() && 0 <= j < rest.len() && i != j implies rest[i] != rest[j] by {
                assert(rest[i] == ks[i] && rest[j] == ks[j]);
            }
        }
        lemma_over_keys_single(f, rest, w, k0);
        let k = ks.last();
        if k == k0 {
            assert(!rest.contains(k0)) by {
                if rest.contains(k0) {
                    let i = choose|i: int| 0 <= i < rest.len() && rest[i] == k0;
                    assert(ks[i] == ks[ks.len() - 1]);
                }
            }
        } else {
            assert(f(k) * w(k) == 0);
            assert(ks.contains(k0) == rest.contains(k0)) by {
                if ks.contains(k0) {
                    let i = choose|i: int| 0 <= i < ks.len() && ks[i] == k0;
                    assert(i < ks.len() - 1);
                    assert(rest[i] == k0);
                }
            }
        }
    }
}

/// The terms of a linear combination, summed under an assignment, are the sum over any
/// distinct keys that cover every nonzero coefficient.
pub proof fn lemma_eval_terms_over_keys(
    s: Seq<(VariableKey, Fp)>,
    ks: Seq<VariableKey>,
    w: spec_fn(VariableKey) -> nat,
)
    requires
        keys_distinct(s),
        ks.no_duplicates(),
        forall|k: VariableKey| coeff_of(s, k) != 0 ==> #[trigger] ks.contains(k),
    ensures
        eval_terms(s, w) == over_keys(coeffs(s), ks, w),
    decreases s.len(),
{
    if s.len() == 0 {
        let f = coeffs(s);
        assert forall|k: VariableKey| ks.contains(k) implies #[trigger] f(k) == 0 by {
            assert(!has_key(s, k));
        }
        lemma_over_keys_zero(f, ks, w);
    } else {
        let t = s.drop_last();
        let e = s.last();
        assert(t.push(e) =~= s);
        assert(keys_distinct(t)) by {
            assert forall|i: int, j: int| 0 <= i < t.len() && 0 <= j < t.len() && i != j implies t[i].0 != t[j].0 by {
                assert(t[i] == s[i] && t[j] == s[j]);
            }
        }
        assert(!has_key(t, e.0)) by {
            if has_key(t, e.0) {
                let i = choose|i: int| 0 <= i < t.len() && #[trigger] t[i].0 == e.0;
                assert(s[i].0 == s[s.len() - 1].0);
            }
        }
        lemma_coeff_push(t, e);
        assert forall|k: VariableKey| coeff_of(t, k) != 0 implies #[trigger] ks.contains(k) by {
            assert(k != e.0);
            assert(coeff_of(s, k) == coeff_of(t, k));
        }
        lemma_eval_terms_over_keys(t, ks, w);
        let ft = coeffs(t);
        let fs = coeffs(s);
        let d = |k: VariableKey| if k == e.0 { e.1@ } else { 0nat };
        assert forall|k: VariableKey| ks.contains(k) implies #[trigger] fs(k) == ft(k) + d(k) by {}
        lemma_over_keys_exact(fs, ft, d, ks, w);
        lemma_over_keys_single(d, ks, w, e.0);
        assert(eval_terms(s, w) == eval_terms(t, w) + e.1@ * w(e.0));
        assert(d(e.0) == e.1@);
        if !ks.contains(e.0) {
            assert(coeff_of(s, e.0) == e.1@);
            let c = e.1@;
            let v = w(e.0);
            assert(c * v == 0) by (nonlinear_arith)
                requires
                    c == 0,
            ;
        }
        assert(over_keys(fs, ks, w) == over_keys(ft, ks, w) + over_keys(d, ks, w));
    }
}

/// Sums over keys of coefficients that are zero on every key are zero.
proof fn lemma_over_keys_zero(f: spec_fn(VariableKey) -> nat, ks: Seq<VariableKey>, w: spec_fn(VariableKey) -> nat)
    requires
        forall|k: VariableKey| ks.contains(k) ==> #[trigger] f(k) == 0,
    ensures
        over_keys(f, ks, w) == 0,
    decreases ks.len(),
{
    if ks.len() > 0 {
        let rest = ks.drop_last();
        assert forall|k: VariableKey| rest.contains(k) implies #[trigger] f(k) == 0 by {
            assert(ks.contains(k));
        }
        lemma_over_keys_zero(f, rest, w);
        assert(ks.contains(ks.last()));
    }
}

/// Sums over keys add up exactly where coefficients do.
proof fn lemma_over_keys_exact(
    h: spec_fn(VariableKey) -> nat,
    f: spec_fn(VariableKey) -> nat,
    g: spec_fn(VariableKey) -> nat,
    ks: Seq<VariableKey>,
    w: spec_fn(VariableKey) -> nat,
)
    requires
        forall|k: VariableKey| ks.contains(k) ==> #[trigger] h(k) == f(k) + g(k),
    ensures
        over_keys(h, ks, w) == over_keys(f, ks, w) + over_keys(g, ks, w),
    decreases ks.len(),
{
    if ks.len() > 0 {
        let rest = ks.drop_last();
        let k = ks.last();
        assert forall|kk: VariableKey| rest.contains(kk) implies #[trigger] h(kk) == f(kk) + g(kk) by {
            assert(ks.contains(kk));
        }
        lemma_over_keys_exact(h, f, g, rest, w);
        assert(ks.contains(k));
        assert(h(k) * w(k) == f(k) * w(k) + g(k) * w(k)) by (nonlinear_arith)
            requires
                h(k) == f(k) + g(k),
        ;
    }
}

/// `(a - b) mod p` is congruent to `a - b`.
pub proof fn lemma_sub_mod_cong(a: nat, b: nat)
    ensures
        cong(sub_mod(a, b) as int, a - b),
{
    let m = modulus() as int;
    vstd::arithmetic::div_mod::lemma_mod_twice(a + m - b, m);
    vstd::arithmetic::div_mod::lemma_mod_add_multiples_vanish(a - b, m);
}

/// Congruent numbers below `p` are equal.
pub proof fn lemma_cong_small(a: nat, b: nat)
    requires
        a < modulus(),
        b < modulus(),
        cong(a as int, b as int),
    ensures
        a == b,
{
    vstd::arithmetic::div_mod::lemma_small_mod(a, modulus());
    vstd::arithmetic::div_mod::lemma_small_mod(b, modulus());
}

/// Linear combinations whose constants and coefficients combine linearly, modulo `p`,
/// evaluate accordingly under every assignment.
pub proof fn lemma_eval_linear(
    r: LinearCombination,
    a: LinearCombination,
    b: LinearCombination,
    c: LinearCombination,
    x: int,
    y: int,
    z: int,
    t: int,
    ks: Seq<VariableKey>,
    w: spec_fn(VariableKey) -> nat,
)
    requires
        r.wf(),
        a.wf(),
        b.wf(),
        c.wf(),
        ks.no_duplicates(),
        forall|k: VariableKey| #[trigger] r.coeff(k) != 0 ==> ks.contains(k),
        forall|k: VariableKey| #[trigger] a.coeff(k) != 0 ==> ks.contains(k),
        forall|k: VariableKey| #[trigger] b.coeff(k) != 0 ==> ks.contains(k),
        forall|k: VariableKey| #[trigger] c.coeff(k) != 0 ==> ks.contains(k),
        cong(r.constant_val() as int, x * a.constant_val() + y * b.constant_val() + z * c.constant_val() + t),
        forall|k: VariableKey| cong(#[trigger] r.coeff(k) as int, x * a.coeff(k) + y * b.coeff(k) + z * c.coeff(k)),
    ensures
        cong(eval(r, w) as int, x * eval(a, w) + y * eval(b, w) + z * eval(c, w) + t),
{
    r.lemma_wf();
    a.lemma_wf();
    b.lemma_wf();
    c.lemma_wf();
    assert forall|k: VariableKey| coeff_of(r.entries(), k) != 0 implies #[trigger] ks.contains(k) by {
        assert(r.coeff(k) != 0);
    }
    assert forall|k: VariableKey| coeff_of(a.entries(), k) != 0 implies #[trigger] ks.contains(k) by {
        assert(a.coeff(k) != 0);
    }
    assert forall|k: VariableKey| coeff_of(b.entries(), k) != 0 implies #[trigger] ks.contains(k) by {
        assert(b.coeff(k) != 0);
    }
    assert forall|k: VariableKey| coeff_of(c.entries(), k) != 0 implies #[trigger] ks.contains(k) by {
        assert(c.coeff(k) != 0);
    }
    lemma_eval_terms_over_keys(r.entries(), ks, w);
    lemma_eval_terms_over_keys(a.entries(), ks, w);
    lemma_eval_terms_over_keys(b.entries(), ks, w);
    lemma_eval_terms_over_keys(c.entries(), ks, w);
    let fr = coeffs(r.entries());
    let fa = coeffs(a.entries());
    let fb = coeffs(b.entries());
    let fc = coeffs(c.entries());
    assert forall|k: VariableKey| ks.contains(k) implies cong(#[trigger] fr(k) as int, x * fa(k) + y * fb(k) + z * fc(k)) by {
        assert(r.coeff(k) == fr(k));
    }
    lemma_over_keys_linear(fr, fa, fb, fc, x, y, z, ks, w);
    let sr = eval_terms(r.entries(), w);
    let sa = eval_terms(a.entries(), w);
    let sb = eval_terms(b.entries(), w);
    let sc = eval_terms(c.entries(), w);
    let ca = a.constant_val() as int;
    let cb = b.constant_val() as int;
    let cc = c.constant_val() as int;
    // r = cr + sr, with cr ~ x ca + y cb + z cc + t and sr ~ x sa + y sb + z sc.
    lemma_cong_add(r.constant_val() as int, x * ca + y * cb + z * cc + t, sr, x * sa + y * sb + z * sc);
    lemma_cong_mod(r.constant_val() + sr);
    // Each evaluation is congruent to its constant plus its terms.
    lemma_cong_mod(ca + sa);
    lemma_cong_mod(cb + sb);
    lemma_cong_mod(cc + sc);
    lemma_cong_mul(eval(a, w) as int, ca + sa, x);
    lemma_cong_mul(eval(b, w) as int, cb + sb, y);
    lemma_cong_mul(eval(c, w) as int, cc + sc, z);
    lemma_cong_add(x * eval(a, w), x * (ca + sa), y * eval(b, w), y * (cb + sb));
    lemma_cong_add(x * eval(a, w) + y * eval(b, w), x * (ca + sa) + y * (cb + sb), z * eval(c, w), z * (cc + sc));
    lemma_cong_add(x * eval(a, w) + y * eval(b, w) + z * eval(c, w), x * (ca + sa) + y * (cb + sb) + z * (cc + sc), t, t);
    vstd::arithmetic::mul::lemma_mul_is_distributive_add(x, ca, sa);
    vstd::arithmetic::mul::lemma_mul_is_distributive_add(y, cb, sb);
    vstd::arithmetic::mul::lemma_mul_is_distributive_add(z, cc, sc);
}

} // verus!
