//! Linear combinations `constant + sum(coefficient * variable)` over the field, with
//! their value under the variables' assignment kept alongside.

use crate::decimal::decimal;
use crate::fp::{modulus, sub_mod, Fp};
use crate::lc_lemmas::{
    cong, coeff_of, has_key, keys_distinct, keys_wf, lemma_coeff_at, lemma_coeff_bound, lemma_coeff_push,
    lemma_coeff_swap_removed, lemma_coeff_take_step, lemma_coeff_update, lemma_cong_add, lemma_cong_mod,
    lemma_cong_mul, lemma_empty_terms, lemma_sum_push, lemma_sum_swap_removed, lemma_sum_take_step,
    lemma_sum_update, term_val, terms_sum,
};
use crate::mode::Mode;
use crate::terms::{
    swap_removed, term_entries, terms_clone, terms_get_index, terms_index_of, terms_insert_new,
    terms_len, terms_new, terms_set_at, terms_swap_remove_at, Terms,
};
use crate::variable::{key_val, key_wf, Variable, VariableKey};
use vstd::prelude::*;

verus! {

/// A linear combination of variables, with a constant term and its current value.
pub struct LinearCombination {
    constant: Fp,
    terms: Terms,
    value: Fp,
}

/// The number of times a non-constant variable with key `k` occurs among `vars`.
pub open spec fn count_key(vars: Seq<Variable>, k: VariableKey) -> nat
    decreases vars.len(),
{
    if vars.len() == 0 {
        0
    } else {
        count_key(vars.drop_last(), k) + if !(vars.last() is Constant) && vars.last().key_spec()
            == k {
            1nat
        } else {
            0nat
        }
    }
}

/// The sum of the values of the constant variables among `vars`.
pub open spec fn constants_sum(vars: Seq<Variable>) -> int
    decreases vars.len(),
{
    if vars.len() == 0 {
        0
    } else {
        constants_sum(vars.drop_last()) + if vars.last() is Constant {
            vars.last().val() as int
        } else {
            0int
        }
    }
}

/// The sum of the values of all of `vars`.
pub open spec fn values_sum(vars: Seq<Variable>) -> int
    decreases vars.len(),
{
    if vars.len() == 0 {
        0
    } else {
        values_sum(vars.drop_last()) + vars.last().val() as int
    }
}

/// The keys of the terms, in order.
pub open spec fn term_keys(s: Seq<(VariableKey, Fp)>) -> Seq<VariableKey> {
    s.map_values(|e: (VariableKey, Fp)| e.0)
}

/// The keys of the variables that are not constants, each once, in the order in which they
/// first occur.
pub open spec fn first_keys(vars: Seq<Variable>) -> Seq<VariableKey>
    decreases vars.len(),
{
    if vars.len() == 0 {
        Seq::empty()
    } else {
        let ks = first_keys(vars.drop_last());
        let v = vars.last();
        if v is Constant || ks.contains(v.key_spec()) {
            ks
        } else {
            ks.push(v.key_spec())
        }
    }
}

/// A key occurs no more often than there are variables.
proof fn lemma_count_key_bound(vars: Seq<Variable>, k: VariableKey)
    ensures
        count_key(vars, k) <= vars.len(),
    decreases vars.len(),
{
    if vars.len() > 0 {
        lemma_count_key_bound(vars.drop_last(), k);
    }
}

/// Whether the key `k` has a term in the sum of terms `a` and `b`: it has one in either,
/// and the coefficients do not cancel where it has one in both.
pub open spec fn sum_has_key(a: Seq<(VariableKey, Fp)>, b: Seq<(VariableKey, Fp)>, k: VariableKey) -> bool {
    &&& has_key(a, k) || has_key(b, k)
    &&& !(has_key(a, k) && has_key(b, k) && (coeff_of(a, k) + coeff_of(b, k)) % modulus() == 0)
}

/// `x` reduced modulo `p`, as a natural number.
pub open spec fn fmod(x: int) -> nat {
    (x % (modulus() as int)) as nat
}

impl LinearCombination {
    /// The terms, as key-coefficient pairs in order.
    pub closed spec fn entries(self) -> Seq<(VariableKey, Fp)> {
        term_entries(self.terms)
    }

    /// The constant term.
    pub closed spec fn constant_val(self) -> nat {
        self.constant@
    }

    /// The value of the linear combination under the assignment of its variables.
    pub closed spec fn val(self) -> nat {
        self.value@
    }

    /// The coefficient of the variable with key `k` (zero when it has no term).
    pub open spec fn coeff(self, k: VariableKey) -> nat {
        coeff_of(self.entries(), k)
    }

    /// Whether the variable with key `k` has a term.
    pub open spec fn has_var(self, k: VariableKey) -> bool {
        has_key(self.entries(), k)
    }

    /// Every term has a nonzero coefficient.
    pub open spec fn no_zero_terms(self) -> bool {
        forall|k: VariableKey| #[trigger] self.has_var(k) ==> self.coeff(k) != 0
    }

    /// The number of terms.
    pub open spec fn num_terms(self) -> nat {
        self.entries().len()
    }

    /// No terms: the linear combination is its constant.
    pub open spec fn is_const(self) -> bool {
        self.num_terms() == 0
    }

    /// Exactly one term, a public variable with coefficient one, and no constant.
    pub open spec fn is_public_spec(self) -> bool {
        &&& self.constant_val() == 0
        &&& self.num_terms() == 1
        &&& self.entries()[0].0.0 == 1u8
        &&& self.entries()[0].1@ == 1
    }

    /// The mode of the linear combination.
    pub open spec fn mode_spec(self) -> Mode {
        if self.is_const() {
            Mode::Constant
        } else if self.is_public_spec() {
            Mode::Public
        } else {
            Mode::Private
        }
    }

    /// No terms and a zero constant.
    pub open spec fn is_zero_spec(self) -> bool {
        self.constant_val() == 0 && self.is_const()
    }

    /// The terms of `self + other`: those of the other where one of them is zero; otherwise
    /// the terms of the one with fewer terms added, in order, into those of the other
    /// (into `other`'s where the two have as many).
    pub open spec fn sum_entries(self, other: LinearCombination) -> Seq<(VariableKey, nat)> {
        if self.is_zero_spec() {
            entry_view(other.entries())
        } else if other.is_zero_spec() {
            entry_view(self.entries())
        } else if self.num_terms() > other.num_terms() {
            merged_entries(entry_view(self.entries()), entry_view(other.entries()))
        } else {
            merged_entries(entry_view(other.entries()), entry_view(self.entries()))
        }
    }

    /// The terms of `self` after `self += other`: unchanged where `other` is zero, those of
    /// `other` where `self` is zero, and otherwise `other`'s terms added, in order, into
    /// `self`'s.
    pub open spec fn sum_assign_entries(self, other: LinearCombination) -> Seq<(VariableKey, nat)> {
        if other.is_zero_spec() {
            entry_view(self.entries())
        } else if self.is_zero_spec() {
            entry_view(other.entries())
        } else {
            merged_entries(entry_view(self.entries()), entry_view(other.entries()))
        }
    }

    /// Either a constant zero or one; or, with a zero constant, terms each of whose variables
    /// is zero or one, and a value of zero or one.
    pub open spec fn is_boolean_type_spec(self) -> bool {
        if self.is_const() {
            self.constant_val() == 0 || self.constant_val() == 1
        } else if self.constant_val() == 0 {
            &&& forall|i: int|
                0 <= i < self.num_terms() ==> (key_val(#[trigger] self.entries()[i].0) == 0
                    || key_val(self.entries()[i].0) == 1)
            &&& (self.val() == 0 || self.val() == 1)
        } else {
            false
        }
    }

    /// The value is the constant plus the terms, the keys are distinct, and each key
    /// names a public or private variable.
    #[verifier::type_invariant]
    pub closed spec fn wf(self) -> bool {
        &&& keys_distinct(self.entries())
        &&& keys_wf(self.entries())
        &&& self.value@ == fmod(self.constant@ + terms_sum(self.entries()))
    }

    /// What the invariant of a linear combination says, over its public views.
    pub proof fn lemma_wf(self)
        requires
            self.wf(),
        ensures
            keys_distinct(self.entries()),
            keys_wf(self.entries()),
            self.val() == fmod(self.constant_val() + terms_sum(self.entries())),
            self.val() < modulus(),
            self.constant_val() < modulus(),
    {
        self.value.lemma_lt_modulus();
        self.constant.lemma_lt_modulus();
    }

    /// The value of a linear combination is below the modulus.
    pub proof fn lemma_val_bound(self)
        ensures
            self.val() < modulus(),
            self.constant_val() < modulus(),
    {
        self.value.lemma_lt_modulus();
        self.constant.lemma_lt_modulus();
    }

    /// A linear combination without terms is worth its constant.
    pub proof fn lemma_value_no_terms(self)
        requires
            self.wf(),
            self.num_terms() == 0,
        ensures
            self.val() == self.constant_val(),
    {
        self.constant.lemma_lt_modulus();
        vstd::arithmetic::div_mod::lemma_small_mod(self.constant@, modulus());
    }

    /// A linear combination with one term, of key `a`, is worth its constant plus that
    /// term.
    pub proof fn lemma_value_one_term(self, a: VariableKey)
        requires
            self.wf(),
            self.num_terms() == 1,
            self.has_var(a),
        ensures
            self.val() == fmod((self.constant_val() + self.coeff(a) * key_val(a)) as int),
            self.entries()[0].0 == a,
    {
        let e = self.entries();
        lemma_coeff_at(e, 0);
        assert(e.drop_last() =~= Seq::<(VariableKey, Fp)>::empty());
        assert(terms_sum(e) == terms_sum(e.drop_last()) + term_val(e.last()));
    }

    /// A linear combination with two terms, of distinct keys `a` and `b`, is worth its
    /// constant plus those terms.
    pub proof fn lemma_value_two_terms(self, a: VariableKey, b: VariableKey)
        requires
            self.wf(),
            self.num_terms() == 2,
            self.has_var(a),
            self.has_var(b),
            a != b,
        ensures
            self.val() == fmod(
                (self.constant_val() + self.coeff(a) * key_val(a) + self.coeff(b) * key_val(b)) as int,
            ),
    {
        let e = self.entries();
        lemma_coeff_at(e, 0);
        lemma_coeff_at(e, 1);
        assert(e.drop_last().drop_last() =~= Seq::<(VariableKey, Fp)>::empty());
        assert(terms_sum(e) == terms_sum(e.drop_last()) + term_val(e.last()));
        assert(terms_sum(e.drop_last()) == terms_sum(e.drop_last().drop_last()) + term_val(
            e.drop_last().last(),
        ));
        let ia = choose|i: int| 0 <= i < e.len() && #[trigger] e[i].0 == a;
        let ib = choose|i: int| 0 <= i < e.len() && #[trigger] e[i].0 == b;
        assert(ia != ib);
    }

    /// When every key with a term is `a` or `b`, there are at most two terms, and exactly
    /// two when both have one and differ.
    pub proof fn lemma_terms_among(self, a: VariableKey, b: VariableKey)
        requires
            self.wf(),
            forall|k: VariableKey| #[trigger] self.has_var(k) ==> k == a || k == b,
        ensures
            self.num_terms() <= 2,
            a == b ==> self.num_terms() <= 1,
            self.has_var(a) && self.has_var(b) && a != b ==> self.num_terms() == 2,
            self.has_var(a) && !self.has_var(b) ==> self.num_terms() == 1,
            !self.has_var(a) && !self.has_var(b) ==> self.num_terms() == 0,
    {
        let e = self.entries();
        assert forall|i: int| 0 <= i < e.len() implies #[trigger] e[i].0 == a || e[i].0 == b by {
            assert(has_key(e, e[i].0));
            assert(self.has_var(e[i].0));
        }
        if e.len() >= 3 {
            assert(e[0].0 != e[1].0 && e[1].0 != e[2].0 && e[0].0 != e[2].0);
        }
        if a == b && e.len() >= 2 {
            assert(e[0].0 != e[1].0);
        }
        if self.has_var(a) && self.has_var(b) && a != b {
            let ia = choose|i: int| 0 <= i < e.len() && #[trigger] e[i].0 == a;
            let ib = choose|i: int| 0 <= i < e.len() && #[trigger] e[i].0 == b;
            assert(ia != ib);
        }
        if self.has_var(a) && !self.has_var(b) && e.len() == 2 {
            assert(e[0].0 != e[1].0);
            assert(has_key(e, e[0].0) && has_key(e, e[1].0));
        }
        if !self.has_var(a) && !self.has_var(b) && e.len() > 0 {
            assert(has_key(e, e[0].0));
        }
    }

    /// A key with a nonzero coefficient has a term.
    pub proof fn lemma_nonzero_has_var(self, k: VariableKey)
        requires
            self.coeff(k) != 0,
        ensures
            self.has_var(k),
    {
    }

    /// The linear combination that is the constant `c`.
    pub fn from_constant(c: Fp) -> (r: LinearCombination)
        ensures
            r.is_const(),
            r.constant_val() == c@,
            r.val() == c@,
    {
        let terms = terms_new();
        proof {
            lemma_empty_terms();
            c.lemma_lt_modulus();
            vstd::arithmetic::div_mod::lemma_small_mod(c@, modulus());
        }
        LinearCombination { constant: c, terms, value: c }
    }

    /// Returns the `zero` constant.
    pub fn zero() -> (r: LinearCombination)
        ensures
            r.is_const(),
            r.constant_val() == 0,
            r.val() == 0,
    {
        LinearCombination::from_constant(Fp::zero())
    }

    /// Returns the `one` constant.
    pub fn one() -> (r: LinearCombination)
        ensures
            r.is_const(),
            r.constant_val() == 1,
            r.val() == 1,
    {
        LinearCombination::from_constant(Fp::one())
    }

    /// A copy with the same constant, terms in the same order, and value.
    pub fn duplicate(&self) -> (r: LinearCombination)
        ensures
            r.entries() == self.entries(),
            r.constant_val() == self.constant_val(),
            r.val() == self.val(),
    {
        proof {
            use_type_invariant(self);
        }
        LinearCombination { constant: self.constant, terms: terms_clone(&self.terms), value: self.value }
    }

    /// Returns `true` if there are no terms in the linear combination.
    pub fn is_constant(&self) -> (r: bool)
        ensures
            r == self.is_const(),
    {
        terms_len(&self.terms) == 0
    }

    /// Returns `true` if there is exactly one term with a coefficient of one,
    /// and the term contains a public variable.
    pub fn is_public(&self) -> (r: bool)
        ensures
            r == self.is_public_spec(),
    {
        if !self.constant.is_zero() || terms_len(&self.terms) != 1 {
            return false;
        }
        match terms_get_index(&self.terms, 0) {
            Some((k, coefficient)) => k.0 == 1u8 && coefficient.is_one(),
            None => false,
        }
    }

    /// Returns `true` if the linear combination is not constant or public.
    pub fn is_private(&self) -> (r: bool)
        ensures
            r == (!self.is_const() && !self.is_public_spec()),
    {
        !self.is_constant() && !self.is_public()
    }

    /// Returns the mode of this linear combination.
    pub fn mode(&self) -> (r: Mode)
        ensures
            r == self.mode_spec(),
    {
        if self.is_constant() {
            Mode::Constant
        } else if self.is_public() {
            Mode::Public
        } else {
            Mode::Private
        }
    }

    /// Returns the computed value of the linear combination.
    pub fn value(&self) -> (r: Fp)
        ensures
            r@ == self.val(),
    {
        self.value
    }

    /// Returns only the constant value (excluding the terms) in the linear combination.
    pub fn to_constant(&self) -> (r: Fp)
        ensures
            r@ == self.constant_val(),
    {
        self.constant
    }

    /// Returns the number of terms.
    pub fn len(&self) -> (r: usize)
        ensures
            r == self.num_terms(),
    {
        terms_len(&self.terms)
    }

    /// Returns the term at index `i`: its variable and coefficient.
    pub fn term_at(&self, i: usize) -> (r: (Variable, Fp))
        requires
            i < self.num_terms(),
        ensures
            r.0.key_spec() == self.entries()[i as int].0,
            !(r.0 is Constant),
            r.0.val() == key_val(self.entries()[i as int].0),
            r.1 == self.entries()[i as int].1,
    {
        proof {
            use_type_invariant(self);
        }
        match terms_get_index(&self.terms, i) {
            Some((k, c)) => {
                assert(key_wf(self.entries()[i as int].0));
                (Variable::from_key(k), c)
            },
            None => {
                assert(false);
                (Variable::Constant(Fp::zero()), Fp::zero())
            },
        }
    }

    /// Returns the terms (excluding the constant value), in order.
    pub fn to_terms(&self) -> (r: Vec<(Variable, Fp)>)
        ensures
            r.len() == self.num_terms(),
            forall|i: int|
                0 <= i < r.len() ==> (#[trigger] r[i]).0.key_spec() == self.entries()[i].0
                    && r[i].1 == self.entries()[i].1 && !(r[i].0 is Constant),
    {
        let n = self.len();
        let mut out: Vec<(Variable, Fp)> = Vec::new();
        let mut i: usize = 0;
        while i < n
            invariant
                0 <= i <= n,
                n == self.num_terms(),
                out.len() == i,
                forall|j: int|
                    0 <= j < i ==> (#[trigger] out[j]).0.key_spec() == self.entries()[j].0
                        && out[j].1 == self.entries()[j].1 && !(out[j].0 is Constant),
            decreases n - i,
        {
            out.push(self.term_at(i));
            i = i + 1;
        }
        out
    }

    /// Returns the number of addition gates in the linear combination: one per term,
    /// less one unless the constant is nonzero and there are terms.
    pub fn num_additions(&self) -> (r: u64)
        ensures
            r == if self.constant_val() != 0 && self.num_terms() > 0 {
                self.num_terms()
            } else if self.num_terms() == 0 {
                0
            } else {
                (self.num_terms() - 1) as nat
            },
    {
        let n = terms_len(&self.terms) as u64;
        if !self.constant.is_zero() && n != 0 {
            n
        } else {
            n.saturating_sub(1)
        }
    }

    /// Returns `true` if the linear combination represents a `Boolean` type, and is
    /// well-formed: either a constant zero or one; or, with a zero constant, terms each of
    /// whose variables is zero or one, and a value of zero or one.
    pub fn is_boolean_type(&self) -> (r: bool)
        ensures
            r == self.is_boolean_type_spec(),
    {
        proof {
            use_type_invariant(self);
        }
        let n = terms_len(&self.terms);
        if n == 0 {
            return self.constant.is_zero() || self.constant.is_one();
        }
        if !self.constant.is_zero() {
            return false;
        }
        // Every variable must be zero or one.
        let mut i: usize = 0;
        while i < n
            invariant
                0 <= i <= n,
                n == self.num_terms(),
                keys_wf(self.entries()),
                forall|j: int|
                    0 <= j < i ==> (key_val(#[trigger] self.entries()[j].0) == 0 || key_val(
                        self.entries()[j].0,
                    ) == 1),
            decreases n - i,
        {
            let (v, _) = self.term_at(i);
            let x = v.value();
            if !(x.is_zero() || x.is_one()) {
                return false;
            }
            i = i + 1;
        }
        self.value.is_zero() || self.value.is_one()
    }

    /// The linear combination of the given variables, each with coefficient one: constants
    /// go to the constant term, and repeats of a variable add up.
    #[verifier::spinoff_prover]
    #[verifier::rlimit(60)]
    pub fn from_variables(variables: &[Variable]) -> (r: LinearCombination)
        ensures
            r.constant_val() == fmod(constants_sum(variables@)),
            r.val() == fmod(values_sum(variables@)),
            forall|k: VariableKey| #[trigger] r.coeff(k) == fmod(count_key(variables@, k) as int),
            forall|k: VariableKey| #[trigger] r.has_var(k) ==> count_key(variables@, k) > 0,
            r.num_terms() <= variables@.len(),
            term_keys(r.entries()) == first_keys(variables@),
    {
        let mut constant = Fp::zero();
        let mut terms = terms_new();
        let mut value = Fp::zero();
        let one = Fp::one();
        proof {
            lemma_empty_terms();
            vstd::arithmetic::div_mod::lemma_small_mod(0, modulus());
        }
        let mut i: usize = 0;
        while i < variables.len()
            invariant
                0 <= i <= variables@.len(),
                one@ == 1,
                keys_distinct(term_entries(terms)),
                keys_wf(term_entries(terms)),
                term_entries(terms).len() <= i,
                constant@ == fmod(constants_sum(variables@.take(i as int))),
                value@ == fmod(values_sum(variables@.take(i as int))),
                cong(value@ as int, constant@ + terms_sum(term_entries(terms))),
                forall|k: VariableKey| #[trigger]
                    coeff_of(term_entries(terms), k) == fmod(
                        count_key(variables@.take(i as int), k) as int,
                    ),
                forall|k: VariableKey| #[trigger]
                    has_key(term_entries(terms), k) ==> count_key(variables@.take(i as int), k) > 0,
                term_keys(term_entries(terms)) == first_keys(variables@.take(i as int)),
            decreases variables@.len() - i,
        {
            let variable = variables[i];
            let ghost prev = variables@.take(i as int);
            let ghost e0 = term_entries(terms);
            let ghost s0 = terms_sum(e0);
            let ghost c0 = constant@;
            proof {
                assert(variables@.take(i as int + 1).drop_last() =~= prev);
            }
            let x = variable.value();
            if variable.is_constant() {
                constant = constant.add(&x);
                proof {
                    assert(first_keys(variables@.take(i as int + 1)) == first_keys(prev));
                    lemma_cong_mod((c0 + x@) as int);
                    lemma_cong_mod(constants_sum(prev));
                    lemma_cong_add(c0 as int, constants_sum(prev), x@ as int, x@ as int);
                    lemma_cong_mod(constants_sum(prev) + x@);
                    lemma_cong_mod(constant@ + s0);
                    lemma_cong_add(constant@ as int, (c0 + x@) as int, s0, s0);
                }
            } else {
                let k = variable.key();
                proof {
                    lemma_count_key_bound(prev, k);
                }
                add_to_term(&mut terms, k, &one);
                proof {
                    let e1 = term_entries(terms);
                    let v0 = entry_view(e0);
                    let ks = term_keys(e0);
                    assert(first_keys(variables@.take(i as int + 1)) == if ks.contains(k) {
                        ks
                    } else {
                        ks.push(k)
                    });
                    if view_has_key(v0, k) {
                        let j = view_key_index(v0, k);
                        assert(e0[j].0 == k);
                        assert(ks[j] == k);
                        lemma_coeff_at(e0, j);
                        assert(v0[j].1 == coeff_of(e0, k));
                        vstd::arithmetic::div_mod::lemma_small_mod(count_key(prev, k), modulus());
                        vstd::arithmetic::div_mod::lemma_small_mod(
                            (count_key(prev, k) + 1) as nat,
                            modulus(),
                        );
                        assert(entry_view(e1) == v0.update(j, (k, (count_key(prev, k) + 1) as nat)));
                        assert(e1.len() == e0.len());
                        assert forall|m: int| 0 <= m < e1.len() implies #[trigger] term_keys(e1)[m]
                            == ks[m] by {
                            assert(entry_view(e1)[m].0 == e1[m].0);
                        }
                        assert(term_keys(e1) =~= ks);
                    } else {
                        assert(!ks.contains(k)) by {
                            if ks.contains(k) {
                                let m = choose|m: int| 0 <= m < ks.len() && ks[m] == k;
                                assert(v0[m].0 == k);
                            }
                        }
                        assert(entry_view(e1) == v0.push((k, 1nat)));
                        assert(e1.len() == e0.len() + 1);
                        assert forall|m: int| 0 <= m < e1.len() implies #[trigger] term_keys(e1)[m]
                            == ks.push(k)[m] by {
                            assert(entry_view(e1)[m].0 == e1[m].0);
                        }
                        assert(term_keys(e1) =~= ks.push(k));
                    }
                    assert forall|kk: VariableKey| #[trigger]
                        coeff_of(term_entries(terms), kk) == fmod(
                            count_key(variables@.take(i as int + 1), kk) as int,
                        ) by {
                        if kk == k {
                            lemma_fmod_succ(count_key(prev, k) as int);
                        }
                    }
                    lemma_cong_add(c0 as int, c0 as int, s0 + x@, terms_sum(term_entries(terms)));
                }
            }
            value = value.add(&x);
            proof {
                let v0 = values_sum(prev);
                lemma_cong_mod(v0);
                lemma_cong_mod(value@ as int);
                lemma_cong_add(v0, (value@ - x@) as int, x@ as int, x@ as int);
                lemma_cong_mod(v0 + x@);
            }
            i = i + 1;
        }
        proof {
            assert(variables@.take(variables@.len() as int) =~= variables@);
            lemma_cong_mod(constant@ + terms_sum(term_entries(terms)));
            value.lemma_lt_modulus();
            vstd::arithmetic::div_mod::lemma_small_mod(value@, modulus());
        }
        LinearCombination { constant, terms, value }
    }

    /// The linear combination of one variable.
    pub fn from_variable(variable: &Variable) -> (r: LinearCombination)
        ensures
            r.constant_val() == if variable is Constant {
                variable.val()
            } else {
                0
            },
            r.val() == variable.val(),
            forall|k: VariableKey| #[trigger]
                r.coeff(k) == if !(variable is Constant) && variable.key_spec() == k {
                    1nat
                } else {
                    0nat
                },
            forall|k: VariableKey| #[trigger]
                r.has_var(k) ==> !(variable is Constant) && variable.key_spec() == k,
            r.num_terms() <= 1,
            r.no_zero_terms(),
            r.num_terms() == if variable is Constant {
                0nat
            } else {
                1nat
            },
    {
        let vars = [*variable];
        proof {
            let s = vars@;
            assert(s.drop_last() =~= Seq::<Variable>::empty());
            assert(s.last() == *variable);
            assert(constants_sum(s) == constants_sum(s.drop_last()) + if s.last() is Constant {
                s.last().val() as int
            } else {
                0int
            });
            assert(values_sum(s) == values_sum(s.drop_last()) + s.last().val() as int);
            assert(constants_sum(Seq::<Variable>::empty()) == 0);
            assert(values_sum(Seq::<Variable>::empty()) == 0);
            assert forall|k: VariableKey| #[trigger] count_key(s, k) == if !(variable is Constant)
                && variable.key_spec() == k {
                1nat
            } else {
                0nat
            } by {
                assert(count_key(Seq::<Variable>::empty(), k) == 0);
            }
            variable.value_spec().lemma_lt_modulus();
            vstd::arithmetic::div_mod::lemma_small_mod(variable.val(), modulus());
            vstd::arithmetic::div_mod::lemma_small_mod(1, modulus());
            vstd::arithmetic::div_mod::lemma_small_mod(0, modulus());
        }
        let r = LinearCombination::from_variables(&vars);
        proof {
            assert forall|k: VariableKey| #[trigger] r.has_var(k) implies !(variable is Constant)
                && variable.key_spec() == k by {
                assert(count_key(vars@, k) > 0);
            }
            use_type_invariant(&r);
            r.lemma_terms_among(variable.key_spec(), variable.key_spec());
            if !(variable is Constant) {
                r.lemma_nonzero_has_var(variable.key_spec());
            } else {
                if r.num_terms() > 0 {
                    assert(r.has_var(r.entries()[0].0));
                }
            }
        }
        r
    }

    /// `self * k`: every coefficient, the constant and the value multiplied by `k`, the terms
    /// in the same order.
    pub fn mul(&self, k: &Fp) -> (r: LinearCombination)
        ensures
            r.num_terms() == self.num_terms(),
            forall|j: int|
                0 <= j < self.num_terms() ==> #[trigger] r.entries()[j].0 == self.entries()[j].0
                    && r.entries()[j].1@ == (self.entries()[j].1@ * k@) % modulus(),
            forall|kk: VariableKey| #[trigger] r.coeff(kk) == (self.coeff(kk) * k@) % modulus(),
            forall|kk: VariableKey| #[trigger] r.has_var(kk) == self.has_var(kk),
            r.constant_val() == (self.constant_val() * k@) % modulus(),
            r.val() == (self.val() * k@) % modulus(),
    {
        proof {
            use_type_invariant(self);
            lemma_empty_terms();
        }
        let ghost e = self.entries();
        let n = terms_len(&self.terms);
        let mut terms = terms_new();
        let mut i: usize = 0;
        proof {
            assert(e.take(0) =~= Seq::<(VariableKey, Fp)>::empty());
        }
        while i < n
            invariant
                0 <= i <= n,
                n == e.len(),
                e == term_entries(self.terms),
                keys_distinct(e),
                keys_wf(e),
                term_entries(terms).len() == i,
                forall|j: int|
                    0 <= j < i ==> #[trigger] term_entries(terms)[j].0 == e[j].0
                        && term_entries(terms)[j].1@ == (e[j].1@ * k@) % modulus(),
                keys_distinct(term_entries(terms)),
                keys_wf(term_entries(terms)),
                cong(terms_sum(term_entries(terms)), k@ * terms_sum(e.take(i as int))),
            decreases n - i,
        {
            let (key, c) = match terms_get_index(&self.terms, i) {
                Some(x) => x,
                None => {
                    assert(false);
                    (Variable::Constant(Fp::zero()).key(), *k)
                },
            };
            let nc = c.mul(k);
            let ghost t0 = term_entries(terms);
            proof {
                assert forall|j: int| 0 <= j < t0.len() implies #[trigger] t0[j].0 != key by {
                    assert(t0[j].0 == e[j].0);
                }
                assert(!has_key(t0, key));
            }
            terms_insert_new(&mut terms, key, nc);
            proof {
                lemma_coeff_push(t0, (key, nc));
                lemma_sum_push(t0, (key, nc));
                lemma_keys_wf_push(t0, (key, nc));
                lemma_sum_take_step(e, i as int);
                lemma_scaled_term(c@, k@, key_val(key));
                lemma_cong_add(
                    terms_sum(t0),
                    k@ * terms_sum(e.take(i as int)),
                    term_val((key, nc)),
                    k@ * term_val(e[i as int]),
                );
                assert(k@ * terms_sum(e.take(i as int)) + k@ * term_val(e[i as int]) == k@
                    * terms_sum(e.take(i as int + 1))) by (nonlinear_arith)
                    requires
                        terms_sum(e.take(i as int + 1)) == terms_sum(e.take(i as int)) + term_val(
                            e[i as int],
                        ),
                ;
            }
            i = i + 1;
        }
        let constant = self.constant.mul(k);
        let value = self.value.mul(k);
        proof {
            assert(e.take(n as int) =~= e);
            lemma_coeff_map_scaled(e, term_entries(terms), k@);
            let c = self.constant@;
            let st = terms_sum(term_entries(terms));
            let se = terms_sum(e);
            lemma_cong_mod((c * k@) as int);
            lemma_cong_add(constant@ as int, (c * k@) as int, st, k@ * se);
            assert(c * k@ + k@ * se == (c + se) * k@) by (nonlinear_arith);
            lemma_cong_mod(c + se);
            lemma_cong_mul((c + se) % (modulus() as int), c + se, k@ as int);
            lemma_cong_mod(((c + se) % (modulus() as int)) * k@);
            value.lemma_lt_modulus();
            vstd::arithmetic::div_mod::lemma_small_mod(value@, modulus());
        }
        LinearCombination { constant, terms, value }
    }

    /// `-self`: the constant, every coefficient and the value negated.
    pub fn neg(&self) -> (r: LinearCombination)
        ensures
            r.num_terms() == self.num_terms(),
            forall|j: int|
                0 <= j < self.num_terms() ==> #[trigger] r.entries()[j].0 == self.entries()[j].0
                    && r.entries()[j].1@ == sub_mod(0, self.entries()[j].1@),
            forall|kk: VariableKey| #[trigger] r.coeff(kk) == sub_mod(0, self.coeff(kk)),
            forall|kk: VariableKey| #[trigger] r.has_var(kk) == self.has_var(kk),
            r.constant_val() == sub_mod(0, self.constant_val()),
            r.val() == sub_mod(0, self.val()),
            self.no_zero_terms() ==> r.no_zero_terms(),
    {
        proof {
            use_type_invariant(self);
            self.lemma_wf();
        }
        let minus_one = Fp::one().neg();
        let r = self.mul(&minus_one);
        proof {
            lemma_minus_one_times(self.constant_val(), minus_one@);
            lemma_minus_one_times(self.val(), minus_one@);
            assert forall|j: int| 0 <= j < self.num_terms() implies #[trigger] r.entries()[j].0
                == self.entries()[j].0 && r.entries()[j].1@ == sub_mod(0, self.entries()[j].1@) by {
                self.entries()[j].1.lemma_lt_modulus();
                lemma_minus_one_times(self.entries()[j].1@, minus_one@);
            }
            assert forall|kk: VariableKey| #[trigger] r.coeff(kk) == sub_mod(0, self.coeff(kk)) by {
                lemma_coeff_bound(self.entries(), kk);
                lemma_minus_one_times(self.coeff(kk), minus_one@);
            }
            if self.no_zero_terms() {
                assert forall|kk: VariableKey| #[trigger] r.has_var(kk) implies r.coeff(kk) != 0 by {
                    assert(self.has_var(kk));
                    lemma_coeff_bound(self.entries(), kk);
                    lemma_minus_one_times(self.coeff(kk), minus_one@);
                    vstd::arithmetic::div_mod::lemma_small_mod(
                        (modulus() - self.coeff(kk)) as nat,
                        modulus(),
                    );
                }
            }
        }
        r
    }

    /// `self + other` where neither is zero: `other`'s terms merged into a copy of `self`'s.
    fn merged(a: &LinearCombination, b: &LinearCombination) -> (r: LinearCombination)
        ensures
            r.constant_val() == (a.constant_val() + b.constant_val()) % modulus(),
            r.val() == (a.val() + b.val()) % modulus(),
            forall|kk: VariableKey| #[trigger]
                r.coeff(kk) == (a.coeff(kk) + b.coeff(kk)) % modulus(),
            forall|kk: VariableKey| #[trigger] r.has_var(kk) ==> a.has_var(kk) || b.has_var(kk),
            forall|kk: VariableKey| #[trigger]
                r.has_var(kk) == sum_has_key(a.entries(), b.entries(), kk),
            r.num_terms() <= a.num_terms() + b.num_terms(),
            a.no_zero_terms() && b.no_zero_terms() ==> r.no_zero_terms(),
            entry_view(r.entries()) == merged_entries(entry_view(a.entries()), entry_view(b.entries())),
    {
        proof {
            use_type_invariant(a);
            use_type_invariant(b);
            lemma_empty_terms();
        }
        let ghost ea = a.entries();
        let ghost eb = b.entries();
        let mut terms = terms_clone(&a.terms);
        let n = terms_len(&b.terms);
        let mut j: usize = 0;
        proof {
            assert(eb.take(0) =~= Seq::<(VariableKey, Fp)>::empty());
            assert forall|kk: VariableKey| #[trigger]
                coeff_of(term_entries(terms), kk) == (coeff_of(ea, kk) + coeff_of(eb.take(0), kk))
                    % modulus() by {
                lemma_coeff_bound(ea, kk);
                vstd::arithmetic::div_mod::lemma_small_mod(coeff_of(ea, kk), modulus());
            }
        }
        proof {
            if a.no_zero_terms() && b.no_zero_terms() {
                assert forall|kk: VariableKey| #[trigger] has_key(term_entries(terms), kk) implies coeff_of(
                    term_entries(terms),
                    kk,
                ) != 0 by {
                    assert(a.has_var(kk));
                }
            }
        }
        while j < n
            invariant
                0 <= j <= n,
                n == eb.len(),
                eb == term_entries(b.terms),
                keys_distinct(eb),
                keys_wf(eb),
                keys_distinct(term_entries(terms)),
                keys_wf(term_entries(terms)),
                forall|kk: VariableKey| #[trigger]
                    coeff_of(term_entries(terms), kk) == (coeff_of(ea, kk) + coeff_of(
                        eb.take(j as int),
                        kk,
                    )) % modulus(),
                forall|kk: VariableKey| #[trigger]
                    has_key(term_entries(terms), kk) ==> has_key(ea, kk) || has_key(
                        eb.take(j as int),
                        kk,
                    ),
                forall|kk: VariableKey| #[trigger]
                    has_key(term_entries(terms), kk) == sum_has_key(ea, eb.take(j as int), kk),
                cong(terms_sum(term_entries(terms)), terms_sum(ea) + terms_sum(eb.take(j as int))),
                term_entries(terms).len() <= ea.len() + j,
                a.no_zero_terms() && b.no_zero_terms() ==> forall|kk: VariableKey| #[trigger]
                    has_key(term_entries(terms), kk) ==> coeff_of(term_entries(terms), kk) != 0,
                ea == a.entries(),
                entry_view(term_entries(terms)) == merged_entries(
                    entry_view(ea),
                    entry_view(eb).take(j as int),
                ),
            decreases n - j,
        {
            let (key, c) = match terms_get_index(&b.terms, j) {
                Some(x) => x,
                None => {
                    assert(false);
                    (Variable::Constant(Fp::zero()).key(), Fp::zero())
                },
            };
            let ghost t0 = term_entries(terms);
            proof {
                assert(key_wf(eb[j as int].0));
                lemma_coeff_at(eb, j as int);
                if b.no_zero_terms() {
                    assert(b.has_var(key));
                }
            }
            add_to_term(&mut terms, key, &c);
            proof {
                assert(entry_view(eb).take(j as int + 1).drop_last() =~= entry_view(eb).take(j as int));
                assert(entry_view(eb).take(j as int + 1).last() == (key, c@));
                lemma_coeff_take_step(eb, j as int);
                lemma_sum_take_step(eb, j as int);
                assert forall|kk: VariableKey| #[trigger]
                    coeff_of(term_entries(terms), kk) == (coeff_of(ea, kk) + coeff_of(
                        eb.take(j as int + 1),
                        kk,
                    )) % modulus() by {
                    if kk == key {
                        lemma_coeff_bound(ea, kk);
                        vstd::arithmetic::div_mod::lemma_small_mod(coeff_of(ea, kk), modulus());
                    }
                }
                assert forall|kk: VariableKey| #[trigger]
                    has_key(term_entries(terms), kk) == sum_has_key(
                        ea,
                        eb.take(j as int + 1),
                        kk,
                    ) by {
                    reveal(keys_after_adding);
                    if kk == key {
                        assert(has_key(t0, kk) == has_key(ea, kk));
                        assert(coeff_of(t0, kk) == coeff_of(ea, kk) % modulus());
                        lemma_coeff_bound(ea, kk);
                        vstd::arithmetic::div_mod::lemma_small_mod(coeff_of(ea, kk), modulus());
                    }
                }
                assert forall|kk: VariableKey| #[trigger]
                    has_key(term_entries(terms), kk) implies has_key(ea, kk) || has_key(
                        eb.take(j as int + 1),
                        kk,
                    ) by {
                    if has_key(t0, kk) && has_key(eb.take(j as int), kk) {
                        assert(has_key(eb.take(j as int + 1), kk));
                    }
                }
                lemma_cong_add(
                    terms_sum(t0),
                    terms_sum(ea) + terms_sum(eb.take(j as int)),
                    (c@ * key_val(key)) as int,
                    term_val(eb[j as int]),
                );
            }
            j = j + 1;
        }
        let constant = a.constant.add(&b.constant);
        let value = a.value.add(&b.value);
        proof {
            assert(eb.take(n as int) =~= eb);
            assert(entry_view(eb).take(n as int) =~= entry_view(eb));
            let st = terms_sum(term_entries(terms));
            let ca = a.constant@ as int;
            let cb = b.constant@ as int;
            let sa = terms_sum(ea);
            let sb = terms_sum(eb);
            lemma_cong_mod(ca + sa);
            lemma_cong_mod(cb + sb);
            lemma_cong_add(a.value@ as int, ca + sa, b.value@ as int, cb + sb);
            lemma_cong_mod((a.value@ + b.value@) as int);
            lemma_cong_mod(ca + cb);
            lemma_cong_add(constant@ as int, ca + cb, st, sa + sb);
            value.lemma_lt_modulus();
            vstd::arithmetic::div_mod::lemma_small_mod(value@, modulus());
        }
        LinearCombination { constant, terms, value }
    }

    /// The linear combination as text: its value in decimal notation.
    pub fn to_string(&self) -> (r: String)
        ensures
            r@ == decimal(self.val()),
    {
        self.value.to_string()
    }

    /// Zero constant and no terms.
    fn is_empty_zero(&self) -> (r: bool)
        ensures
            r == (self.constant_val() == 0 && self.is_const()),
    {
        self.constant.is_zero() && terms_len(&self.terms) == 0
    }

    /// `self + other`: constants, coefficients and values added.
    pub fn add(&self, other: &LinearCombination) -> (r: LinearCombination)
        ensures
            r.constant_val() == (self.constant_val() + other.constant_val()) % modulus(),
            r.val() == (self.val() + other.val()) % modulus(),
            forall|kk: VariableKey| #[trigger]
                r.coeff(kk) == (self.coeff(kk) + other.coeff(kk)) % modulus(),
            forall|kk: VariableKey| #[trigger]
                r.has_var(kk) ==> self.has_var(kk) || other.has_var(kk),
            forall|kk: VariableKey| #[trigger]
                r.has_var(kk) == sum_has_key(self.entries(), other.entries(), kk),
            r.num_terms() <= self.num_terms() + other.num_terms(),
            self.no_zero_terms() && other.no_zero_terms() ==> r.no_zero_terms(),
            entry_view(r.entries()) == self.sum_entries(*other),
    {
        proof {
            use_type_invariant(self);
            use_type_invariant(other);
            self.lemma_wf();
            other.lemma_wf();
            lemma_empty_terms();
        }
        if self.is_empty_zero() {
            let r = other.duplicate();
            proof {
                if other.no_zero_terms() {
                    assert forall|kk: VariableKey| #[trigger] r.has_var(kk) implies r.coeff(kk) != 0 by {
                        assert(other.has_var(kk));
                    }
                }
                lemma_small_mod_all(other);
                assert(self.entries() =~= Seq::<(VariableKey, Fp)>::empty());
                assert(self.val() == 0) by {
                    vstd::arithmetic::div_mod::lemma_small_mod(0, modulus());
                }
            }
            r
        } else if other.is_empty_zero() {
            let r = self.duplicate();
            proof {
                if self.no_zero_terms() {
                    assert forall|kk: VariableKey| #[trigger] r.has_var(kk) implies r.coeff(kk) != 0 by {
                        assert(self.has_var(kk));
                    }
                }
                lemma_small_mod_all(self);
                assert(other.entries() =~= Seq::<(VariableKey, Fp)>::empty());
                assert(other.val() == 0) by {
                    vstd::arithmetic::div_mod::lemma_small_mod(0, modulus());
                }
            }
            r
        } else if terms_len(&self.terms) > terms_len(&other.terms) {
            LinearCombination::merged(self, other)
        } else {
            let r = LinearCombination::merged(other, self);
            proof {
                assert forall|kk: VariableKey| #[trigger]
                    r.coeff(kk) == (self.coeff(kk) + other.coeff(kk)) % modulus() by {
                    assert(other.coeff(kk) + self.coeff(kk) == self.coeff(kk) + other.coeff(kk));
                }
                assert forall|kk: VariableKey| #[trigger]
                    r.has_var(kk) == sum_has_key(self.entries(), other.entries(), kk) by {
                    assert(other.coeff(kk) + self.coeff(kk) == self.coeff(kk) + other.coeff(kk));
                }
            }
            r
        }
    }

    /// Adds `other` into `self`.
    pub fn add_assign(&mut self, other: &LinearCombination)
        ensures
            final(self).constant_val() == (old(self).constant_val() + other.constant_val())
                % modulus(),
            final(self).val() == (old(self).val() + other.val()) % modulus(),
            forall|kk: VariableKey| #[trigger]
                final(self).coeff(kk) == (old(self).coeff(kk) + other.coeff(kk)) % modulus(),
            forall|kk: VariableKey| #[trigger]
                final(self).has_var(kk) ==> old(self).has_var(kk) || other.has_var(kk),
            final(self).num_terms() <= old(self).num_terms() + other.num_terms(),
            old(self).no_zero_terms() && other.no_zero_terms() ==> final(self).no_zero_terms(),
            entry_view(final(self).entries()) == old(self).sum_assign_entries(*other),
            other.is_zero_spec() ==> *final(self) == *old(self),
    {
        proof {
            use_type_invariant(&*self);
            use_type_invariant(other);
            self.lemma_wf();
            other.lemma_wf();
            lemma_empty_terms();
        }
        if other.is_empty_zero() {
            proof {
                lemma_small_mod_all(self);
                assert(other.entries() =~= Seq::<(VariableKey, Fp)>::empty());
                assert(other.val() == 0) by {
                    vstd::arithmetic::div_mod::lemma_small_mod(0, modulus());
                }
                assert forall|kk: VariableKey| #[trigger] self.coeff(kk) == (self.coeff(kk) + other.coeff(kk)) % modulus() by {
                    assert(!has_key(other.entries(), kk));
                }
            }
            return;
        }
        let r = if self.is_empty_zero() {
            let r = other.duplicate();
            proof {
                if other.no_zero_terms() {
                    assert forall|kk: VariableKey| #[trigger] r.has_var(kk) implies r.coeff(kk) != 0 by {
                        assert(other.has_var(kk));
                    }
                }
                lemma_small_mod_all(other);
                assert(self.entries() =~= Seq::<(VariableKey, Fp)>::empty());
                assert(self.val() == 0) by {
                    vstd::arithmetic::div_mod::lemma_small_mod(0, modulus());
                }
                assert forall|kk: VariableKey| #[trigger] r.coeff(kk) == (self.coeff(kk) + other.coeff(kk)) % modulus() by {
                    assert(!has_key(self.entries(), kk));
                }
            }
            r
        } else {
            LinearCombination::merged(self, other)
        };
        *self = r;
    }

    /// `self - other`: `self` plus the negation of `other`.
    pub fn sub(&self, other: &LinearCombination) -> (r: LinearCombination)
        ensures
            r.constant_val() == sub_mod(self.constant_val(), other.constant_val()),
            r.val() == sub_mod(self.val(), other.val()),
            forall|kk: VariableKey| #[trigger]
                r.coeff(kk) == sub_mod(self.coeff(kk), other.coeff(kk)),
            forall|kk: VariableKey| #[trigger]
                r.has_var(kk) ==> self.has_var(kk) || other.has_var(kk),
            forall|kk: VariableKey| #[trigger]
                r.has_var(kk) == ((self.has_var(kk) || other.has_var(kk)) && !(self.has_var(kk)
                    && other.has_var(kk) && self.coeff(kk) == other.coeff(kk))),
            r.num_terms() <= self.num_terms() + other.num_terms(),
            self.no_zero_terms() && other.no_zero_terms() ==> r.no_zero_terms(),
    {
        let n = other.neg();
        let r = self.add(&n);
        proof {
            use_type_invariant(self);
            use_type_invariant(other);
            self.lemma_wf();
            other.lemma_wf();
            lemma_add_neg(self.constant_val(), other.constant_val());
            lemma_add_neg(self.val(), other.val());
            assert forall|kk: VariableKey| #[trigger]
                r.coeff(kk) == sub_mod(self.coeff(kk), other.coeff(kk)) by {
                lemma_coeff_bound(self.entries(), kk);
                lemma_coeff_bound(other.entries(), kk);
                lemma_add_neg(self.coeff(kk), other.coeff(kk));
            }
            assert forall|kk: VariableKey| #[trigger]
                r.has_var(kk) == ((self.has_var(kk) || other.has_var(kk)) && !(self.has_var(kk)
                    && other.has_var(kk) && self.coeff(kk) == other.coeff(kk))) by {
                lemma_coeff_bound(self.entries(), kk);
                lemma_coeff_bound(other.entries(), kk);
                lemma_add_neg(self.coeff(kk), other.coeff(kk));
                assert(n.has_var(kk) == other.has_var(kk));
                assert(n.coeff(kk) == sub_mod(0, other.coeff(kk)));
                if self.has_var(kk) && other.has_var(kk) {
                    lemma_sub_mod_zero(self.coeff(kk), other.coeff(kk));
                }
            }
        }
        r
    }
}

impl Clone for LinearCombination {
    fn clone(&self) -> (r: LinearCombination)
        ensures
            r.entries() == self.entries(),
            r.constant_val() == self.constant_val(),
            r.val() == self.val(),
    {
        self.duplicate()
    }
}

/// Every view of a linear combination is already reduced modulo `p`.
proof fn lemma_small_mod_all(lc: &LinearCombination)
    requires
        lc.wf(),
    ensures
        lc.constant_val() % modulus() == lc.constant_val(),
        lc.val() % modulus() == lc.val(),
        forall|kk: VariableKey| #[trigger] lc.coeff(kk) % modulus() == lc.coeff(kk),
{
    lc.lemma_wf();
    vstd::arithmetic::div_mod::lemma_small_mod(lc.constant_val(), modulus());
    vstd::arithmetic::div_mod::lemma_small_mod(lc.val(), modulus());
    assert forall|kk: VariableKey| #[trigger] lc.coeff(kk) % modulus() == lc.coeff(kk) by {
        lemma_coeff_bound(lc.entries(), kk);
        vstd::arithmetic::div_mod::lemma_small_mod(lc.coeff(kk), modulus());
    }
}

/// `((x - y) mod p + y) mod p == x` for numbers below `p`.
proof fn lemma_sub_mod_add(x: nat, y: nat)
    requires
        x < modulus(),
        y < modulus(),
    ensures
        (sub_mod(x, y) + y) % modulus() == x,
{
    let m = modulus() as int;
    if x >= y {
        vstd::arithmetic::div_mod::lemma_mod_add_multiples_vanish(x - y, m);
        vstd::arithmetic::div_mod::lemma_small_mod((x - y) as nat, modulus());
        vstd::arithmetic::div_mod::lemma_small_mod(x, modulus());
    } else {
        vstd::arithmetic::div_mod::lemma_small_mod((m + x - y) as nat, modulus());
        vstd::arithmetic::div_mod::lemma_mod_add_multiples_vanish(x as int, m);
        vstd::arithmetic::div_mod::lemma_small_mod(x, modulus());
    }
}

/// Subtracting `b` and adding it back gives `a` again: its constant, each coefficient and
/// its value.
pub proof fn lemma_sub_add_cancel(
    a: LinearCombination,
    b: LinearCombination,
    d: LinearCombination,
    s: LinearCombination,
)
    requires
        d.constant_val() == sub_mod(a.constant_val(), b.constant_val()),
        d.val() == sub_mod(a.val(), b.val()),
        forall|k: VariableKey| #[trigger] d.coeff(k) == sub_mod(a.coeff(k), b.coeff(k)),
        s.constant_val() == (d.constant_val() + b.constant_val()) % modulus(),
        s.val() == (d.val() + b.val()) % modulus(),
        forall|k: VariableKey| #[trigger] s.coeff(k) == (d.coeff(k) + b.coeff(k)) % modulus(),
    ensures
        s.constant_val() == a.constant_val(),
        s.val() == a.val(),
        forall|k: VariableKey| #[trigger] s.coeff(k) == a.coeff(k),
{
    a.lemma_val_bound();
    b.lemma_val_bound();
    lemma_sub_mod_add(a.constant_val(), b.constant_val());
    lemma_sub_mod_add(a.val(), b.val());
    assert forall|k: VariableKey| #[trigger] s.coeff(k) == a.coeff(k) by {
        lemma_coeff_bound(a.entries(), k);
        lemma_coeff_bound(b.entries(), k);
        lemma_sub_mod_add(a.coeff(k), b.coeff(k));
        assert(d.coeff(k) == sub_mod(a.coeff(k), b.coeff(k)));
    }
}

/// For numbers below `p`, `(a + (0 - b)) mod p` is zero exactly when they are equal.
proof fn lemma_sub_mod_zero(a: nat, b: nat)
    requires
        a < modulus(),
        b < modulus(),
    ensures
        ((a + sub_mod(0, b)) % modulus() == 0) == (a == b),
{
    let m = modulus() as int;
    if b == 0 {
        vstd::arithmetic::div_mod::lemma_mod_self_0(m);
        vstd::arithmetic::div_mod::lemma_small_mod(a, modulus());
        assert(sub_mod(0, 0) == 0);
    } else {
        vstd::arithmetic::div_mod::lemma_small_mod((modulus() - b) as nat, modulus());
        let t = a + m - b;
        if a == b {
            vstd::arithmetic::div_mod::lemma_mod_self_0(m);
        } else if a > b {
            vstd::arithmetic::div_mod::lemma_mod_add_multiples_vanish(a - b, m);
            vstd::arithmetic::div_mod::lemma_small_mod((a - b) as nat, modulus());
        } else {
            vstd::arithmetic::div_mod::lemma_small_mod((m + a - b) as nat, modulus());
        }
    }
}

/// `(x + (-y mod p)) mod p` is `(x - y) mod p`.
proof fn lemma_add_neg(x: nat, y: nat)
    requires
        x < modulus(),
        y < modulus(),
    ensures
        (x + sub_mod(0, y)) % modulus() == sub_mod(x, y),
{
    let m = modulus() as int;
    vstd::arithmetic::div_mod::lemma_add_mod_noop(x as int, m - y, m);
    vstd::arithmetic::div_mod::lemma_small_mod(x, modulus());
    vstd::arithmetic::div_mod::lemma_mod_twice(m - y, m);
    vstd::arithmetic::div_mod::lemma_add_mod_noop(x as int, (m - y) % m, m);
}

/// Multiplying by `p - 1` negates.
proof fn lemma_minus_one_times(x: nat, minus_one: nat)
    requires
        x < modulus(),
        minus_one == sub_mod(0, 1),
    ensures
        (x * minus_one) % modulus() == sub_mod(0, x),
{
    let m = modulus() as int;
    vstd::arithmetic::div_mod::lemma_small_mod((m - 1) as nat, modulus());
    assert(minus_one == m - 1);
    assert(x * (m - 1) == (m - x) + (x - 1) * m) by (nonlinear_arith)
        requires
            x < m,
    ;
    if x == 0 {
        vstd::arithmetic::div_mod::lemma_mod_self_0(m);
        assert(x * minus_one == 0);
    } else {
        vstd::arithmetic::div_mod::lemma_mod_multiples_vanish(x - 1, m - x, m);
    }
}

/// Scaling one term's coefficient by `k` modulo `p` scales its contribution by `k`.
proof fn lemma_scaled_term(c: nat, k: nat, v: nat)
    ensures
        cong((((c * k) % modulus()) * v) as int, (k * (c * v)) as int),
{
    let m = modulus() as int;
    vstd::arithmetic::div_mod::lemma_mul_mod_noop_left((c * k) as int, v as int, m);
    assert((c * k) * v == k * (c * v)) by (nonlinear_arith);
}

/// Term-by-term scaling scales every coefficient.
proof fn lemma_coeff_map_scaled(e: Seq<(VariableKey, Fp)>, t: Seq<(VariableKey, Fp)>, k: nat)
    requires
        keys_distinct(e),
        t.len() == e.len(),
        forall|j: int|
            0 <= j < e.len() ==> #[trigger] t[j].0 == e[j].0 && t[j].1@ == (e[j].1@ * k)
                % modulus(),
    ensures
        keys_distinct(t),
        forall|kk: VariableKey| #[trigger] coeff_of(t, kk) == (coeff_of(e, kk) * k) % modulus(),
        forall|kk: VariableKey| #[trigger] has_key(t, kk) == has_key(e, kk),
{
    assert(keys_distinct(t)) by {
        assert forall|a: int, b: int|
            0 <= a < t.len() && 0 <= b < t.len() && a != b implies t[a].0 != t[b].0 by {
            assert(t[a].0 == e[a].0 && t[b].0 == e[b].0);
        }
    }
    assert forall|kk: VariableKey| #[trigger] has_key(t, kk) == has_key(e, kk) by {
        if has_key(t, kk) {
            let j = choose|j: int| 0 <= j < t.len() && #[trigger] t[j].0 == kk;
            assert(e[j].0 == kk);
        }
        if has_key(e, kk) {
            let j = choose|j: int| 0 <= j < e.len() && #[trigger] e[j].0 == kk;
            assert(t[j].0 == kk);
        }
    }
    assert forall|kk: VariableKey| #[trigger] coeff_of(t, kk) == (coeff_of(e, kk) * k)
        % modulus() by {
        if has_key(e, kk) {
            let j = choose|j: int| 0 <= j < e.len() && #[trigger] e[j].0 == kk;
            lemma_coeff_at(e, j);
            assert(t[j].0 == kk);
            lemma_coeff_at(t, j);
        } else {
            assert(!has_key(t, kk));
            assert(coeff_of(e, kk) == 0);
            assert(coeff_of(e, kk) * k == 0) by (nonlinear_arith)
                requires
                    coeff_of(e, kk) == 0,
            ;
            vstd::arithmetic::div_mod::lemma_small_mod(0, modulus());
        }
    }
}

/// The terms as pairs of a key and the number that its coefficient stands for.
pub open spec fn entry_view(s: Seq<(VariableKey, Fp)>) -> Seq<(VariableKey, nat)> {
    s.map_values(|e: (VariableKey, Fp)| (e.0, e.1@))
}

/// Some pair of `s` has key `k`.
pub open spec fn view_has_key(s: Seq<(VariableKey, nat)>, k: VariableKey) -> bool {
    exists|i: int| 0 <= i < s.len() && #[trigger] s[i].0 == k
}

/// An index of a pair of `s` with key `k`, when there is one.
pub open spec fn view_key_index(s: Seq<(VariableKey, nat)>, k: VariableKey) -> int {
    choose|i: int| 0 <= i < s.len() && #[trigger] s[i].0 == k
}

/// The terms `s` after adding `d` to the coefficient of `k`: the term of `k` takes the sum
/// in its place, or, where the sum is zero, leaves and the last term takes its place; where
/// `k` has no term, the pair `(k, d)` is appended.
pub open spec fn with_added(s: Seq<(VariableKey, nat)>, k: VariableKey, d: nat) -> Seq<
    (VariableKey, nat),
> {
    if view_has_key(s, k) {
        let i = view_key_index(s, k);
        let c = (s[i].1 + d) % modulus();
        if c == 0 {
            swap_removed(s, i)
        } else {
            s.update(i, (k, c))
        }
    } else {
        s.push((k, d))
    }
}

/// The terms `s` with the terms `t` added into them one after another, in order.
pub open spec fn merged_entries(s: Seq<(VariableKey, nat)>, t: Seq<(VariableKey, nat)>) -> Seq<
    (VariableKey, nat),
>
    decreases t.len(),
{
    if t.len() == 0 {
        s
    } else {
        with_added(merged_entries(s, t.drop_last()), t.last().0, t.last().1)
    }
}

/// The keys after adding `d` to the coefficient of `k`: `k` is kept, or inserted, unless
/// its coefficient became zero; the other keys stay.
#[verifier::opaque]
pub open spec fn keys_after_adding(
    before: Seq<(VariableKey, Fp)>,
    after: Seq<(VariableKey, Fp)>,
    k: VariableKey,
    d: nat,
) -> bool {
    forall|kk: VariableKey| #[trigger]
        has_key(after, kk) == if kk == k {
            !(has_key(before, k) && (coeff_of(before, k) + d) % modulus() == 0)
        } else {
            has_key(before, kk)
        }
}

/// Adds `delta` to the coefficient of the variable with key `k`, dropping its term when
/// the coefficient becomes zero, and appending a term when there was none.
fn add_to_term(terms: &mut Terms, k: VariableKey, delta: &Fp)
    requires
        keys_distinct(term_entries(*old(terms))),
        keys_wf(term_entries(*old(terms))),
        key_wf(k),
    ensures
        keys_distinct(term_entries(*final(terms))),
        keys_wf(term_entries(*final(terms))),
        forall|kk: VariableKey| #[trigger]
            coeff_of(term_entries(*final(terms)), kk) == if kk == k {
                (coeff_of(term_entries(*old(terms)), k) + delta@) % modulus()
            } else {
                coeff_of(term_entries(*old(terms)), kk)
            },
        forall|kk: VariableKey| #[trigger]
            has_key(term_entries(*final(terms)), kk) ==> has_key(term_entries(*old(terms)), kk)
                || kk == k,
        keys_after_adding(term_entries(*old(terms)), term_entries(*final(terms)), k, delta@),
        cong(
            terms_sum(term_entries(*final(terms))),
            terms_sum(term_entries(*old(terms))) + delta@ * key_val(k),
        ),
        term_entries(*final(terms)).len() <= term_entries(*old(terms)).len() + 1,
        entry_view(term_entries(*final(terms))) == with_added(
            entry_view(term_entries(*old(terms))),
            k,
            delta@,
        ),
        (forall|kk: VariableKey| #[trigger]
            has_key(term_entries(*old(terms)), kk) ==> coeff_of(term_entries(*old(terms)), kk) != 0)
            && delta@ != 0 ==> forall|kk: VariableKey| #[trigger]
            has_key(term_entries(*final(terms)), kk) ==> coeff_of(term_entries(*final(terms)), kk)
                != 0,
{
    proof {
        reveal(keys_after_adding);
    }
    let ghost e0 = term_entries(*terms);
    match terms_index_of(terms, &k) {
        Some(j) => {
            let old_coefficient = match terms_get_index(terms, j) {
                Some(e) => e.1,
                None => {
                    assert(false);
                    *delta
                },
            };
            let s = old_coefficient.add(delta);
            proof {
                lemma_coeff_at(e0, j as int);
            }
            proof {
                let v0 = entry_view(e0);
                assert(v0[j as int].0 == k);
                let i = view_key_index(v0, k);
                assert(v0[i].0 == e0[i].0);
                assert(i == j);
            }
            if s.is_zero() {
                terms_swap_remove_at(terms, j);
                proof {
                    assert(entry_view(term_entries(*terms)) =~= swap_removed(entry_view(e0), j as int));
                    lemma_coeff_swap_removed(e0, j as int);
                    lemma_sum_swap_removed(e0, j as int);
                    lemma_keys_wf_swap_removed(e0, j as int);
                    lemma_zero_coefficient_term(old_coefficient@, delta@, key_val(k));
                }
            } else {
                terms_set_at(terms, j, s);
                proof {
                    assert(entry_view(term_entries(*terms)) =~= entry_view(e0).update(j as int, (k, s@)));
                    lemma_coeff_update(e0, j as int, s);
                    lemma_sum_update(e0, j as int, (k, s));
                    lemma_keys_wf_update(e0, j as int, s);
                    lemma_sum_coefficient_term(old_coefficient@, delta@, key_val(k));
                }
            }
        },
        None => {
            proof {
                assert(!has_key(e0, k));
            }
            terms_insert_new(terms, k, *delta);
            proof {
                assert(!view_has_key(entry_view(e0), k)) by {
                    if view_has_key(entry_view(e0), k) {
                        let i = choose|i: int| 0 <= i < entry_view(e0).len() && #[trigger] entry_view(e0)[i].0 == k;
                        assert(e0[i].0 == k);
                    }
                }
                assert(entry_view(term_entries(*terms)) =~= entry_view(e0).push((k, delta@)));
                lemma_coeff_push(e0, (k, *delta));
                lemma_sum_push(e0, (k, *delta));
                lemma_keys_wf_push(e0, (k, *delta));
                delta.lemma_lt_modulus();
                vstd::arithmetic::div_mod::lemma_small_mod(delta@, modulus());
            }
        },
    }
}

/// Adding `1` to a count modulo `p` is adding one to its class.
proof fn lemma_fmod_succ(n: int)
    ensures
        fmod(n + 1) == fmod(fmod(n) as int + 1),
{
    let m = modulus() as int;
    vstd::arithmetic::div_mod::lemma_add_mod_noop(n, 1, m);
    vstd::arithmetic::div_mod::lemma_small_mod(1, modulus());
    vstd::arithmetic::div_mod::lemma_mod_twice(n, m);
    vstd::arithmetic::div_mod::lemma_add_mod_noop(n % m, 1, m);
}

/// Replacing coefficient `c` by `(c + d) mod p` on a term of value `v` adds `d * v` to the
/// sum, modulo `p`.
proof fn lemma_sum_coefficient_term(c: nat, d: nat, v: nat)
    ensures
        cong(((c + d) % modulus()) * v - c * v, (d * v) as int),
{
    let m = modulus() as int;
    let s = (c + d) as int;
    vstd::arithmetic::div_mod::lemma_mul_mod_noop_left(s, v as int, m);
    assert(s * v == c * v + d * v) by (nonlinear_arith)
        requires
            s == c + d,
    ;
    lemma_cong_mod(s * v);
    lemma_cong_mod((s % m) * v);
    lemma_cong_add((s % m) * v, s * v, -(c * v), -(c * v));
}

/// Removing a term whose coefficient `c` would become `(c + d) mod p = 0` subtracts
/// `c * v`, which is `d * v` modulo `p`.
proof fn lemma_zero_coefficient_term(c: nat, d: nat, v: nat)
    requires
        (c + d) % modulus() == 0,
    ensures
        cong(-(c * v), (d * v) as int),
{
    lemma_sum_coefficient_term(c, d, v);
    assert(((c + d) % modulus()) * v == 0);
}

proof fn lemma_keys_wf_push(s: Seq<(VariableKey, Fp)>, e: (VariableKey, Fp))
    requires
        keys_wf(s),
        key_wf(e.0),
    ensures
        keys_wf(s.push(e)),
{
    assert forall|i: int| 0 <= i < s.push(e).len() implies key_wf(#[trigger] s.push(e)[i].0) by {
        if i < s.len() {
            assert(s.push(e)[i] == s[i]);
        }
    }
}

proof fn lemma_keys_wf_update(s: Seq<(VariableKey, Fp)>, i: int, v: Fp)
    requires
        keys_wf(s),
        0 <= i < s.len(),
    ensures
        keys_wf(s.update(i, (s[i].0, v))),
{
    assert forall|j: int| 0 <= j < s.len() implies key_wf(
        #[trigger] s.update(i, (s[i].0, v))[j].0,
    ) by {
        assert(s.update(i, (s[i].0, v))[j].0 == s[j].0);
    }
}

proof fn lemma_keys_wf_swap_removed(s: Seq<(VariableKey, Fp)>, i: int)
    requires
        keys_wf(s),
        0 <= i < s.len(),
    ensures
        keys_wf(swap_removed(s, i)),
{
    let t = swap_removed(s, i);
    assert forall|j: int| 0 <= j < t.len() implies key_wf(#[trigger] t[j].0) by {
        if j == i {
            assert(t[j] == s[s.len() - 1]);
        } else {
            assert(t[j] == s[j]);
        }
    }
}

/// The constant part of a variable: its value for a constant, zero otherwise.
pub open spec fn constant_part(v: Variable) -> nat {
    if v is Constant {
        v.val()
    } else {
        0
    }
}

/// The coefficient of the key `k` in the linear combination of the variable `v` alone.
pub open spec fn unit_coeff(v: Variable, k: VariableKey) -> nat {
    if !(v is Constant) && v.key_spec() == k {
        1
    } else {
        0
    }
}

impl Variable {
    /// `self + other` as a linear combination: a constant for two constants, otherwise the
    /// combination of both variables, a variable occurring twice getting coefficient two.
    pub fn add(&self, other: &Variable) -> (r: LinearCombination)
        ensures
            r.constant_val() == (constant_part(*self) + constant_part(*other)) % modulus(),
            r.val() == (self.val() + other.val()) % modulus(),
            forall|k: VariableKey| #[trigger]
                r.coeff(k) == (unit_coeff(*self, k) + unit_coeff(*other, k)) % modulus(),
            forall|k: VariableKey| #[trigger]
                r.has_var(k) ==> unit_coeff(*self, k) + unit_coeff(*other, k) > 0,
    {
        let vars = [*self, *other];
        proof {
            let sq = vars@;
            assert(sq.drop_last().drop_last() =~= Seq::<Variable>::empty());
            assert(sq.drop_last().last() == *self);
            assert(sq.last() == *other);
        }
        match (self, other) {
            (Variable::Constant(a), Variable::Constant(b)) => {
                let c = Variable::Constant(a.add(b));
                LinearCombination::from_variable(&c)
            },
            _ => {
                let r = LinearCombination::from_variables(&vars);
                proof {
                    let sq = vars@;
                    assert(constants_sum(sq.drop_last().drop_last()) == 0);
                    assert(constants_sum(sq.drop_last()) == constant_part(*self));
                    assert(constants_sum(sq) == constant_part(*self) + constant_part(*other));
                    assert(values_sum(sq.drop_last().drop_last()) == 0);
                    assert(values_sum(sq.drop_last()) == self.val());
                    assert(values_sum(sq) == self.val() + other.val());
                    assert(fmod(constants_sum(sq)) == (constant_part(*self) + constant_part(*other)) % modulus());
                    assert(fmod(values_sum(sq)) == (self.val() + other.val()) % modulus());
                    assert forall|k: VariableKey| #[trigger]
                        count_key(sq, k) == unit_coeff(*self, k) + unit_coeff(*other, k) by {
                        assert(count_key(sq.drop_last().drop_last(), k) == 0);
                        assert(count_key(sq.drop_last(), k) == unit_coeff(*self, k));
                    }
                }
                r
            },
        }
    }

    /// `self - other` as a linear combination: a constant for two constants, otherwise the
    /// combination of `self` minus that of `other`.
    pub fn sub(&self, other: &Variable) -> (r: LinearCombination)
        ensures
            r.constant_val() == sub_mod(constant_part(*self), constant_part(*other)),
            r.val() == sub_mod(self.val(), other.val()),
            forall|k: VariableKey| #[trigger]
                r.coeff(k) == sub_mod(unit_coeff(*self, k), unit_coeff(*other, k)),
            forall|k: VariableKey| #[trigger]
                r.has_var(k) ==> unit_coeff(*self, k) + unit_coeff(*other, k) > 0,
    {
        match (self, other) {
            (Variable::Constant(a), Variable::Constant(b)) => {
                let c = Variable::Constant(a.sub(b));
                let r = LinearCombination::from_variable(&c);
                proof {
                    lemma_empty_terms();
                    assert forall|k: VariableKey| #[trigger]
                        r.coeff(k) == sub_mod(unit_coeff(*self, k), unit_coeff(*other, k)) by {
                        vstd::arithmetic::div_mod::lemma_mod_self_0(modulus() as int);
                    }
                }
                r
            },
            _ => {
                let x = LinearCombination::from_variable(self);
                let y = LinearCombination::from_variable(other);
                x.sub(&y)
            },
        }
    }

    /// The variable as text: its value in decimal notation.
    pub fn to_string(&self) -> (r: String)
        ensures
            r@ == decimal(self.val()),
    {
        self.value().to_string()
    }

    /// `self + other` for a linear combination `other`.
    pub fn add_lc(&self, other: &LinearCombination) -> (r: LinearCombination)
        ensures
            r.constant_val() == (constant_part(*self) + other.constant_val()) % modulus(),
            r.val() == (self.val() + other.val()) % modulus(),
            forall|k: VariableKey| #[trigger]
                r.coeff(k) == (unit_coeff(*self, k) + other.coeff(k)) % modulus(),
    {
        let x = LinearCombination::from_variable(self);
        x.add(other)
    }

    /// `self - other` for a linear combination `other`.
    pub fn sub_lc(&self, other: &LinearCombination) -> (r: LinearCombination)
        ensures
            r.constant_val() == sub_mod(constant_part(*self), other.constant_val()),
            r.val() == sub_mod(self.val(), other.val()),
            forall|k: VariableKey| #[trigger]
                r.coeff(k) == sub_mod(unit_coeff(*self, k), other.coeff(k)),
    {
        let x = LinearCombination::from_variable(self);
        x.sub(other)
    }
}


/// A linear combination is public exactly when it is a single public variable with
/// coefficient one and no constant; one whose term has another coefficient, or that has a
/// constant, is private unless it has no terms at all.
pub proof fn lemma_public_mode(lc: LinearCombination)
    ensures
        lc.is_public_spec() <==> (lc.constant_val() == 0 && lc.num_terms() == 1 && exists|
            k: VariableKey,
        | #[trigger] lc.has_var(k) && k.0 == 1u8 && lc.coeff(k) == 1),
        lc.mode_spec() == Mode::Public <==> lc.is_public_spec(),
        !lc.is_const() && (lc.constant_val() != 0 || forall|k: VariableKey|
            #[trigger] lc.has_var(k) ==> lc.coeff(k) != 1) ==> lc.mode_spec() == Mode::Private,
{
    if lc.num_terms() == 1 {
        let e = lc.entries();
        let k0 = e[0].0;
        assert(lc.has_var(k0));
        assert forall|k: VariableKey| #[trigger] lc.has_var(k) implies k == k0 by {
            let i = choose|i: int| 0 <= i < e.len() && #[trigger] e[i].0 == k;
            assert(i == 0);
        }
        assert(crate::lc_lemmas::key_index(e, k0) == 0);
        assert(lc.coeff(k0) == e[0].1@);
    }
}

/// A linear combination is of boolean type exactly when its value is zero or one and,
/// where it has terms, it has no constant and every one of its variables is zero or one.
pub proof fn lemma_boolean_type_meaning(lc: LinearCombination)
    requires
        lc.wf(),
    ensures
        lc.is_boolean_type_spec() <==> {
            &&& lc.val() == 0 || lc.val() == 1
            &&& !lc.is_const() ==> lc.constant_val() == 0 && forall|k: VariableKey|
                #[trigger] lc.has_var(k) ==> key_val(k) == 0 || key_val(k) == 1
        },
{
    let e = lc.entries();
    if lc.is_const() {
        lc.lemma_value_no_terms();
    } else {
        assert((forall|i: int| 0 <= i < lc.num_terms() ==> (key_val(#[trigger] e[i].0) == 0
            || key_val(e[i].0) == 1)) <==> (forall|k: VariableKey| #[trigger] lc.has_var(k)
            ==> key_val(k) == 0 || key_val(k) == 1)) by {
            if forall|i: int| 0 <= i < lc.num_terms() ==> (key_val(#[trigger] e[i].0) == 0
                || key_val(e[i].0) == 1) {
                assert forall|k: VariableKey| #[trigger] lc.has_var(k) implies key_val(k) == 0
                    || key_val(k) == 1 by {
                    let i = choose|i: int| 0 <= i < e.len() && #[trigger] e[i].0 == k;
                    assert(key_val(e[i].0) == 0 || key_val(e[i].0) == 1);
                }
            }
            if forall|k: VariableKey| #[trigger] lc.has_var(k) ==> key_val(k) == 0 || key_val(k)
                == 1 {
                assert forall|i: int| 0 <= i < lc.num_terms() implies (key_val(#[trigger] e[i].0)
                    == 0 || key_val(e[i].0) == 1) by {
                    assert(lc.has_var(e[i].0));
                }
            }
        }
    }
}

} // verus!
