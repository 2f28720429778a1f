//! The mathematics of the terms of a linear combination: their sum, their coefficient
//! function, and how both change under the operations that `IndexMap` offers.

use crate::fp::{modulus, Fp};
use crate::terms::swap_removed;
use crate::variable::{key_val, key_wf, VariableKey};
use vstd::arithmetic::div_mod::*;
use vstd::prelude::*;

verus! {

/// `a` and `b` are congruent modulo `p`.
pub open spec fn cong(a: int, b: int) -> bool {
    a % (modulus() as int) == b % (modulus() as int)
}

/// The contribution of one term: its coefficient times the value of its variable.
pub open spec fn term_val(e: (VariableKey, Fp)) -> int {
    (e.1@ * key_val(e.0)) as int
}

/// The sum of the contributions of the terms, as an integer.
pub open spec fn terms_sum(s: Seq<(VariableKey, Fp)>) -> int
    decreases s.len(),
{
    if s.len() == 0 {
        0
    } else {
        terms_sum(s.drop_last()) + term_val(s.last())
    }
}

/// No two terms share a key.
pub open spec fn keys_distinct(s: Seq<(VariableKey, Fp)>) -> bool {
    forall|i: int, j: int| 0 <= i < s.len() && 0 <= j < s.len() && i != j ==> s[i].0 != s[j].0
}

/// Every key names a public or private variable with a canonical value.
pub open spec fn keys_wf(s: Seq<(VariableKey, Fp)>) -> bool {
    forall|i: int| 0 <= i < s.len() ==> key_wf(#[trigger] s[i].0)
}

/// Some term has key `k`.
pub open spec fn has_key(s: Seq<(VariableKey, Fp)>, k: VariableKey) -> bool {
    exists|i: int| 0 <= i < s.len() && #[trigger] s[i].0 == k
}

/// An index of a term with key `k`, when there is one.
pub open spec fn key_index(s: Seq<(VariableKey, Fp)>, k: VariableKey) -> int {
    choose|i: int| 0 <= i < s.len() && #[trigger] s[i].0 == k
}

/// The coefficient of the variable with key `k`: that of its term, or zero.
pub open spec fn coeff_of(s: Seq<(VariableKey, Fp)>, k: VariableKey) -> nat {
    if has_key(s, k) {
        s[key_index(s, k)].1@
    } else {
        0
    }
}

pub proof fn lemma_cong_add(x: int, x2: int, y: int, y2: int)
    requires
        cong(x, x2),
        cong(y, y2),
    ensures
        cong(x + y, x2 + y2),
{
    let m = modulus() as int;
    lemma_add_mod_noop(x, y, m);
    lemma_add_mod_noop(x2, y2, m);
}

pub proof fn lemma_cong_mul(x: int, x2: int, k: int)
    requires
        cong(x, x2),
    ensures
        cong(x * k, x2 * k),
        cong(k * x, k * x2),
{
    let m = modulus() as int;
    lemma_mul_mod_noop_left(x, k, m);
    lemma_mul_mod_noop_left(x2, k, m);
    assert(x * k == k * x && x2 * k == k * x2) by (nonlinear_arith);
}

/// Reducing modulo `p` keeps the class.
pub proof fn lemma_cong_mod(x: int)
    ensures
        cong(x % (modulus() as int), x),
{
    lemma_mod_twice(x, modulus() as int);
}

pub proof fn lemma_sum_push(s: Seq<(VariableKey, Fp)>, e: (VariableKey, Fp))
    ensures
        terms_sum(s.push(e)) == terms_sum(s) + term_val(e),
{
    assert(s.push(e).drop_last() =~= s);
}

pub proof fn lemma_sum_update(s: Seq<(VariableKey, Fp)>, i: int, e: (VariableKey, Fp))
    requires
        0 <= i < s.len(),
    ensures
        terms_sum(s.update(i, e)) == terms_sum(s) - term_val(s[i]) + term_val(e),
    decreases s.len(),
{
    let t = s.update(i, e);
    if i == s.len() - 1 {
        assert(t.drop_last() =~= s.drop_last());
    } else {
        assert(t.drop_last() =~= s.drop_last().update(i, e));
        lemma_sum_update(s.drop_last(), i, e);
    }
}

pub proof fn lemma_sum_swap_removed(s: Seq<(VariableKey, Fp)>, i: int)
    requires
        0 <= i < s.len(),
    ensures
        terms_sum(swap_removed(s, i)) == terms_sum(s) - term_val(s[i]),
{
    if i != s.len() - 1 {
        lemma_sum_update(s.drop_last(), i, s.last());
    }
}

pub proof fn lemma_sum_take_step(s: Seq<(VariableKey, Fp)>, j: int)
    requires
        0 <= j < s.len(),
    ensures
        terms_sum(s.take(j + 1)) == terms_sum(s.take(j)) + term_val(s[j]),
{
    assert(s.take(j + 1).drop_last() =~= s.take(j));
}

/// With distinct keys, the coefficient of the key at `i` is the coefficient there.
pub proof fn lemma_coeff_at(s: Seq<(VariableKey, Fp)>, i: int)
    requires
        keys_distinct(s),
        0 <= i < s.len(),
    ensures
        coeff_of(s, s[i].0) == s[i].1@,
        has_key(s, s[i].0),
{
    assert(has_key(s, s[i].0));
}

/// Coefficients are field elements, so below `p`.
pub proof fn lemma_coeff_bound(s: Seq<(VariableKey, Fp)>, k: VariableKey)
    ensures
        coeff_of(s, k) < modulus(),
{
    if has_key(s, k) {
        let i = key_index(s, k);
        s[i].1.lemma_lt_modulus();
        assert(coeff_of(s, k) == s[i].1@);
    } else {
        assert(coeff_of(s, k) == 0);
    }
}

/// Replacing the coefficient of the key at `i` changes that coefficient only.
pub proof fn lemma_coeff_update(s: Seq<(VariableKey, Fp)>, i: int, v: Fp)
    requires
        keys_distinct(s),
        0 <= i < s.len(),
    ensures
        keys_distinct(s.update(i, (s[i].0, v))),
        forall|k: VariableKey|
            #[trigger] coeff_of(s.update(i, (s[i].0, v)), k) == if k == s[i].0 {
                v@
            } else {
                coeff_of(s, k)
            },
        forall|k: VariableKey| #[trigger] has_key(s.update(i, (s[i].0, v)), k) == has_key(s, k),
{
    let t = s.update(i, (s[i].0, v));
    assert forall|k: VariableKey| #[trigger] has_key(t, k) == has_key(s, k) by {
        if has_key(s, k) {
            let j = choose|j: int| 0 <= j < s.len() && #[trigger] s[j].0 == k;
            assert(t[j].0 == k);
        }
        if has_key(t, k) {
            let j = choose|j: int| 0 <= j < t.len() && #[trigger] t[j].0 == k;
            assert(s[j].0 == k);
        }
    }
    assert forall|k: VariableKey|
        #[trigger] coeff_of(t, k) == if k == s[i].0 {
            v@
        } else {
            coeff_of(s, k)
        } by {
        if k == s[i].0 {
            lemma_coeff_at(t, i);
        } else if has_key(s, k) {
            let j = choose|j: int| 0 <= j < s.len() && #[trigger] s[j].0 == k;
            lemma_coeff_at(s, j);
            lemma_coeff_at(t, j);
        }
    }
}

/// Swap-removing the entry at `i` drops its key and keeps every other coefficient.
pub proof fn lemma_coeff_swap_removed(s: Seq<(VariableKey, Fp)>, i: int)
    requires
        keys_distinct(s),
        0 <= i < s.len(),
    ensures
        keys_distinct(swap_removed(s, i)),
        swap_removed(s, i).len() == s.len() - 1,
        forall|k: VariableKey|
            #[trigger] coeff_of(swap_removed(s, i), k) == if k == s[i].0 {
                0
            } else {
                coeff_of(s, k)
            },
        forall|k: VariableKey|
            #[trigger] has_key(swap_removed(s, i), k) == (has_key(s, k) && k != s[i].0),
{
    let t = swap_removed(s, i);
    let n = s.len() - 1;
    // Where each entry of `t` came from.
    assert forall|j: int| 0 <= j < t.len() implies #[trigger] t[j] == s[if j == i {
        n
    } else {
        j
    }] by {}
    assert(keys_distinct(t)) by {
        assert forall|a: int, b: int|
            0 <= a < t.len() && 0 <= b < t.len() && a != b implies t[a].0 != t[b].0 by {
            let sa = if a == i {
                n
            } else {
                a
            };
            let sb = if b == i {
                n
            } else {
                b
            };
            assert(t[a] == s[sa]);
            assert(t[b] == s[sb]);
        }
    }
    assert forall|k: VariableKey| #[trigger] has_key(t, k) == (has_key(s, k) && k != s[i].0) by {
        if has_key(t, k) {
            let j = choose|j: int| 0 <= j < t.len() && #[trigger] t[j].0 == k;
            let sj = if j == i {
                n
            } else {
                j
            };
            assert(t[j] == s[sj]);
            assert(s[sj].0 == k);
        }
        if has_key(s, k) && k != s[i].0 {
            let j = choose|j: int| 0 <= j < s.len() && #[trigger] s[j].0 == k;
            if j == n {
                assert(t[i] == s[n]);
                assert(t[i].0 == k);
            } else {
                assert(t[j] == s[j]);
                assert(t[j].0 == k);
            }
        }
    }
    assert forall|k: VariableKey|
        #[trigger] coeff_of(t, k) == if k == s[i].0 {
            0
        } else {
            coeff_of(s, k)
        } by {
        if k != s[i].0 && has_key(s, k) {
            assert(has_key(t, k));
            let j = choose|j: int| 0 <= j < t.len() && #[trigger] t[j].0 == k;
            lemma_coeff_at(t, j);
            let sj = if j == i {
                n
            } else {
                j
            };
            assert(t[j] == s[sj]);
            lemma_coeff_at(s, sj);
        }
    }
}

/// Appending a term with a fresh key sets that coefficient and keeps the others.
pub proof fn lemma_coeff_push(s: Seq<(VariableKey, Fp)>, e: (VariableKey, Fp))
    requires
        keys_distinct(s),
        !has_key(s, e.0),
    ensures
        keys_distinct(s.push(e)),
        forall|k: VariableKey|
            #[trigger] coeff_of(s.push(e), k) == if k == e.0 {
                e.1@
            } else {
                coeff_of(s, k)
            },
        forall|k: VariableKey| #[trigger] has_key(s.push(e), k) == (has_key(s, k) || k == e.0),
{
    let t = s.push(e);
    assert(keys_distinct(t)) by {
        assert forall|a: int, b: int|
            0 <= a < t.len() && 0 <= b < t.len() && a != b implies t[a].0 != t[b].0 by {
            if a == s.len() {
                assert(t[b] == s[b]);
            } else if b == s.len() {
                assert(t[a] == s[a]);
            }
        }
    }
    assert forall|k: VariableKey| #[trigger] has_key(t, k) == (has_key(s, k) || k == e.0) by {
        if has_key(s, k) {
            let j = choose|j: int| 0 <= j < s.len() && #[trigger] s[j].0 == k;
            assert(t[j].0 == k);
        }
        if k == e.0 {
            assert(t[s.len() as int].0 == k);
        }
        if has_key(t, k) && k != e.0 {
            let j = choose|j: int| 0 <= j < t.len() && #[trigger] t[j].0 == k;
            assert(s[j].0 == k);
        }
    }
    assert forall|k: VariableKey|
        #[trigger] coeff_of(t, k) == if k == e.0 {
            e.1@
        } else {
            coeff_of(s, k)
        } by {
        if k == e.0 {
            lemma_coeff_at(t, s.len() as int);
        } else if has_key(s, k) {
            let j = choose|j: int| 0 <= j < s.len() && #[trigger] s[j].0 == k;
            lemma_coeff_at(s, j);
            lemma_coeff_at(t, j);
        }
    }
}

/// The prefix of one more term adds that term's coefficient to its key.
pub proof fn lemma_coeff_take_step(s: Seq<(VariableKey, Fp)>, j: int)
    requires
        keys_distinct(s),
        0 <= j < s.len(),
    ensures
        keys_distinct(s.take(j)),
        !has_key(s.take(j), s[j].0),
        s.take(j + 1) =~= s.take(j).push(s[j]),
        forall|k: VariableKey|
            #[trigger] coeff_of(s.take(j + 1), k) == if k == s[j].0 {
                s[j].1@
            } else {
                coeff_of(s.take(j), k)
            },
        forall|k: VariableKey|
            #[trigger] has_key(s.take(j + 1), k) == (has_key(s.take(j), k) || k == s[j].0),
{
    let p = s.take(j);
    assert(keys_distinct(p)) by {
        assert forall|a: int, b: int|
            0 <= a < p.len() && 0 <= b < p.len() && a != b implies p[a].0 != p[b].0 by {
            assert(p[a] == s[a] && p[b] == s[b]);
        }
    }
    if has_key(p, s[j].0) {
        let a = choose|a: int| 0 <= a < p.len() && #[trigger] p[a].0 == s[j].0;
        assert(p[a] == s[a]);
    }
    assert(s.take(j + 1) =~= p.push(s[j]));
    lemma_coeff_push(p, s[j]);
}

/// The empty sequence has no terms.
pub proof fn lemma_empty_terms()
    ensures
        terms_sum(Seq::<(VariableKey, Fp)>::empty()) == 0,
        keys_distinct(Seq::<(VariableKey, Fp)>::empty()),
        keys_wf(Seq::<(VariableKey, Fp)>::empty()),
        forall|k: VariableKey| #[trigger] coeff_of(Seq::<(VariableKey, Fp)>::empty(), k) == 0,
        forall|k: VariableKey| !#[trigger] has_key(Seq::<(VariableKey, Fp)>::empty(), k),
{
}

} // verus!
