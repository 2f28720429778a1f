//! Boolean circuits: linear combinations that are worth `0` or `1`, and the gadgets that
//! combine them.
//!
//! A boolean is one of three shapes: a constant `0` or `1`; a single bit variable `v`; or
//! its negation `1 - v`, written with the public constant one. Every gadget keeps that
//! shape, computes the right bit, and enforces only constraints that its witness
//! satisfies.

use crate::circuit::{enforced, Circuit};
use crate::constraint::{gates_spec, satisfied_spec, Constraint};
use crate::fp::{modulus, sub_mod, Fp};
use crate::lc_lemmas::{lemma_coeff_at, lemma_coeff_bound};
use crate::linear_combination::{fmod, LinearCombination};
use crate::mode::Mode;
use crate::r1cs::R1CS;
use crate::traits::Inject;
use crate::variable::{key_val, key_wf, Variable, VariableKey};
use vstd::prelude::*;

mod adder;
mod and;
mod bits;
pub mod counts;
mod equal;
mod nand;
mod nor;
mod or;
pub mod soundness;
mod subtractor;
mod ternary;
mod xor;

verus! {

/// The key of the public constant one, the first public variable of every system.
pub open spec fn one_key() -> VariableKey {
    (1u8, 0u64, Fp::one_spec().limbs_spec())
}

/// The key of a public or private variable, other than the constant one, whose value is a
/// bit.
pub open spec fn bit_key(k: VariableKey) -> bool {
    &&& key_wf(k)
    &&& k != one_key()
    &&& (key_val(k) == 0 || key_val(k) == 1)
}

/// A constant `0` or `1`.
pub open spec fn const_shape(lc: LinearCombination) -> bool {
    &&& lc.num_terms() == 0
    &&& (lc.constant_val() == 0 || lc.constant_val() == 1)
}

/// The bit variable `v` itself.
pub open spec fn single_shape(lc: LinearCombination, v: VariableKey) -> bool {
    &&& lc.constant_val() == 0
    &&& lc.num_terms() == 1
    &&& lc.has_var(v)
    &&& lc.coeff(v) == 1
    &&& bit_key(v)
}

/// `1 - v` for the bit variable `v`.
pub open spec fn negated_shape(lc: LinearCombination, v: VariableKey) -> bool {
    &&& lc.constant_val() == 0
    &&& lc.num_terms() == 2
    &&& lc.has_var(v)
    &&& lc.coeff(v) == modulus() - 1
    &&& bit_key(v)
    &&& lc.has_var(one_key())
    &&& lc.coeff(one_key()) == 1
}

/// One of the three shapes of a boolean.
pub open spec fn boolean_shape(lc: LinearCombination, v: VariableKey) -> bool {
    ||| const_shape(lc)
    ||| single_shape(lc, v)
    ||| negated_shape(lc, v)
}

/// A boolean circuit.
pub struct Boolean {
    lc: LinearCombination,
    var: Ghost<VariableKey>,
}

/// The value of the constant one has key `one_key()`.
proof fn lemma_one_key()
    ensures
        key_wf(one_key()),
        key_val(one_key()) == 1,
        Variable::Public(0, Fp::one_spec()).key_spec() == one_key(),
        Variable::Public(0, Fp::one_spec()).val() == 1,
{
    Fp::lemma_small_constants();
}

/// What the shape of a boolean says of its value and its terms.
pub proof fn lemma_shape(lc: LinearCombination, v: VariableKey)
    requires
        lc.wf(),
        boolean_shape(lc, v),
    ensures
        lc.val() == 0 || lc.val() == 1,
        const_shape(lc) ==> lc.val() == lc.constant_val(),
        single_shape(lc, v) ==> lc.val() == key_val(v),
        negated_shape(lc, v) ==> lc.val() == 1 - key_val(v),
        lc.num_terms() <= 2,
        !lc.is_const() ==> lc.constant_val() == 0,
        lc.no_zero_terms(),
        !lc.is_const() ==> bit_key(v),
        forall|k: VariableKey| #[trigger] lc.has_var(k) ==> k == v || k == one_key(),
        single_shape(lc, v) ==> forall|k: VariableKey| #[trigger] lc.has_var(k) ==> k == v,
{
    lemma_one_key();
    let m = modulus() as int;
    if const_shape(lc) {
        lc.lemma_value_no_terms();
        assert forall|k: VariableKey| #[trigger] lc.has_var(k) implies k == v || k == one_key() by {
            assert(lc.entries().len() == 0);
        }
    } else if single_shape(lc, v) {
        lc.lemma_value_one_term(v);
        vstd::arithmetic::div_mod::lemma_small_mod(key_val(v), modulus());
        assert forall|k: VariableKey| #[trigger] lc.has_var(k) implies k == v by {
            let i = choose|i: int| 0 <= i < lc.entries().len() && #[trigger] lc.entries()[i].0 == k;
            assert(i == 0);
        }
    } else {
        lc.lemma_value_two_terms(v, one_key());
        if key_val(v) == 0 {
            vstd::arithmetic::div_mod::lemma_small_mod(1, modulus());
            assert((modulus() - 1) * key_val(v) == 0);
        } else {
            assert((modulus() - 1) * key_val(v) == modulus() - 1) by (nonlinear_arith)
                requires
                    key_val(v) == 1,
            ;
            vstd::arithmetic::div_mod::lemma_mod_self_0(m);
        }
        assert forall|k: VariableKey| #[trigger] lc.has_var(k) implies k == v || k == one_key() by {
            let e = lc.entries();
            let i = choose|i: int| 0 <= i < e.len() && #[trigger] e[i].0 == k;
            let iv = choose|i: int| 0 <= i < e.len() && #[trigger] e[i].0 == v;
            let io = choose|i: int| 0 <= i < e.len() && #[trigger] e[i].0 == one_key();
            lc.lemma_wf();
            assert(iv != io);
        }
    }
    assert forall|k: VariableKey| #[trigger] lc.has_var(k) implies lc.coeff(k) != 0 by {
        if !lc.is_const() {
            assert(k == v || k == one_key());
        }
    }
}

/// The mode of a boolean of the given shape: constant, the mode of its single variable, or
/// private for a negation.
pub open spec fn shape_mode(lc: LinearCombination, v: VariableKey) -> Mode {
    if lc.is_const() {
        Mode::Constant
    } else if single_shape(lc, v) && v.0 == 1u8 {
        Mode::Public
    } else {
        Mode::Private
    }
}

/// The linear combination of a bit, `0` or `1`.
pub open spec fn bit_val(b: bool) -> nat {
    if b {
        1
    } else {
        0
    }
}

/// The effect of injecting a new variable of value `value` and mode `mode` on the system,
/// with the constraint `(1 - v) * v == 0` for a public or private one.
pub open spec fn injected(old: R1CS, new: R1CS, mode: Mode, value: Fp) -> bool {
    &&& new.gates_spec() <= old.gates_spec() + 2
    &&& mode == Mode::Constant ==> {
        &&& new.constants_spec() == old.constants_spec().push(Variable::Constant(value))
        &&& new.public_spec() == old.public_spec()
        &&& new.private_spec() == old.private_spec()
        &&& new.constraints_spec() == old.constraints_spec()
        &&& new.counter_spec() == old.counter_spec().with_constant()
    }
    &&& mode == Mode::Public ==> {
        &&& new.constants_spec() == old.constants_spec()
        &&& new.public_spec() == old.public_spec().push(
            Variable::Public(old.public_spec().len() as u64, value),
        )
        &&& new.private_spec() == old.private_spec()
        &&& new.constraints_spec().len() == old.constraints_spec().len() + 1
        &&& new.constraints_spec().take(old.constraints_spec().len() as int)
            == old.constraints_spec()
        &&& new.constraints_spec().last().satisfied()
        &&& new.counter_spec() == old.counter_spec().with_public().with_constraint(
            old.constraints_spec().len() as usize,
            (new.gates_spec() - old.gates_spec()) as nat,
        )
    }
    &&& mode == Mode::Private ==> {
        &&& new.constants_spec() == old.constants_spec()
        &&& new.public_spec() == old.public_spec()
        &&& new.private_spec() == old.private_spec().push(
            Variable::Private(old.private_spec().len() as u64, value),
        )
        &&& new.constraints_spec().len() == old.constraints_spec().len() + 1
        &&& new.constraints_spec().take(old.constraints_spec().len() as int)
            == old.constraints_spec()
        &&& new.constraints_spec().last().satisfied()
        &&& new.counter_spec() == old.counter_spec().with_private().with_constraint(
            old.constraints_spec().len() as usize,
            (new.gates_spec() - old.gates_spec()) as nat,
        )
    }
}

impl Boolean {
    /// The linear combination of the boolean.
    pub closed spec fn lc_spec(self) -> LinearCombination {
        self.lc
    }

    /// The bit variable of the boolean, when it has one.
    pub closed spec fn var_spec(self) -> VariableKey {
        self.var@
    }

    #[verifier::type_invariant]
    pub closed spec fn inv(self) -> bool {
        boolean_shape(self.lc, self.var@)
    }

    /// The bit that the boolean stands for.
    pub open spec fn bit(self) -> bool {
        self.lc_spec().val() == 1
    }

    /// The boolean is a constant.
    pub open spec fn is_const(self) -> bool {
        self.lc_spec().is_const()
    }

    /// The mode of the boolean.
    pub open spec fn mode_spec(self) -> Mode {
        shape_mode(self.lc_spec(), self.var_spec())
    }

    /// The shape facts of a boolean, for its callers.
    proof fn lemma_facts(self)
        requires
            self.inv(),
            self.lc.wf(),
        ensures
            self.lc.val() == bit_val(self.bit()),
            self.lc.num_terms() <= 2,
            self.lc.no_zero_terms(),
            !self.is_const() ==> self.lc.constant_val() == 0,
            self.is_const() ==> self.lc.constant_val() == self.lc.val(),
    {
        lemma_shape(self.lc, self.var@);
    }

    /// A copy of the boolean.
    pub fn duplicate(&self) -> (r: Boolean)
        ensures
            r.copies(*self),
            r.lc_spec().val() == self.lc_spec().val(),
    {
        proof {
            use_type_invariant(self);
        }
        let lc = self.lc.duplicate();
        proof {
            assert forall|k: VariableKey| #[trigger] lc.has_var(k) == self.lc.has_var(k) by {}
            assert forall|k: VariableKey| #[trigger] lc.coeff(k) == self.lc.coeff(k) by {}
        }
        Boolean { lc, var: Ghost(self.var@) }
    }

    /// The linear combination of the boolean.
    pub fn lc(&self) -> (r: &LinearCombination)
        ensures
            *r == self.lc_spec(),
    {
        &self.lc
    }

    /// The linear combination of the boolean, taking it.
    pub fn into_lc(self) -> (r: LinearCombination)
        ensures
            r == self.lc_spec(),
    {
        self.lc
    }

    /// Returns `true` if the boolean is a constant.
    pub fn is_constant(&self) -> (r: bool)
        ensures
            r == self.is_const(),
    {
        self.lc.is_constant()
    }

    /// Ejects the boolean as a constant boolean value.
    pub fn eject_value(&self) -> (r: bool)
        ensures
            r == self.bit(),
    {
        self.lc.value().is_one()
    }

    /// Ejects the mode of the boolean, after checking that it is well-formed.
    pub fn eject_mode(&self) -> (r: Mode)
        ensures
            r == self.mode_spec(),
    {
        proof {
            use_type_invariant(self);
            use_type_invariant(&self.lc);
            lemma_shape(self.lc, self.var@);
            lemma_one_key();
            let e = self.lc.entries();
            if !self.lc.is_const() {
                if single_shape(self.lc, self.var@) {
                    self.lc.lemma_value_one_term(self.var@);
                    lemma_coeff_at(e, 0);
                    assert(key_val(e[0].0) == 0 || key_val(e[0].0) == 1);
                } else {
                    let i = choose|i: int| 0 <= i < e.len() && #[trigger] e[i].0 == one_key();
                    assert(key_val(e[i].0) == 1);
                    assert(e[0].0 != e[1].0) by {
                        self.lc.lemma_wf();
                    }
                    if e[0].0.0 == 1u8 && e[0].1@ == 1 {
                        lemma_coeff_at(e, 0);
                        assert(e[0].0 == one_key() || e[0].0 == self.var@);
                    }
                }
            }
        }
        if self.lc.is_boolean_type() {
            self.lc.mode()
        } else {
            proof {
                assert(false);
            }
            Mode::Private
        }
    }

    /// The boolean as text: its value, a period, and its mode, such as `true.private`.
    pub fn to_string(&self) -> (r: String)
        ensures
            r@ == (if self.bit() {
                "true"@
            } else {
                "false"@
            }) + "."@ + match self.mode_spec() {
                Mode::Constant => "constant"@,
                Mode::Public => "public"@,
                Mode::Private => "private"@,
            },
    {
        let mut out = String::new();
        if self.eject_value() {
            out.append("true");
        } else {
            out.append("false");
        }
        out.append(".");
        let mode = self.eject_mode();
        out.append(mode.name());
        out
    }

    /// Returns `(NOT a)`: `1 - a`, with the public constant one standing for `1` unless `a`
    /// is a constant.
    pub fn not(&self) -> (r: Boolean)
        ensures
            r.negates(*self),
            !self.is_const() ==> r.var_spec() == self.var_spec() && r.is_negation()
                == !self.is_negation(),
            r.lc_spec().num_terms() <= 2,
    {
        proof {
            use_type_invariant(self);
            use_type_invariant(&self.lc);
            lemma_shape(self.lc, self.var@);
            lemma_one_key();
            lemma_bit_arith();
        }
        if self.lc.is_constant() {
            let lc = Circuit::one().sub(&self.lc);
            proof {
                use_type_invariant(&lc);
                lc.lemma_terms_among(one_key(), one_key());
                if lc.num_terms() > 0 {
                    assert(lc.has_var(lc.entries()[0].0));
                }
            }
            Boolean { lc, var: Ghost(self.var@) }
        } else {
            let one = Variable::Public(0u64, Fp::one());
            let one_lc = LinearCombination::from_variable(&one);
            let lc = one_lc.sub(&self.lc);
            let ghost v = self.var@;
            proof {
                use_type_invariant(&lc);
                lc.lemma_terms_among(one_key(), v);
                assert(one.key_spec() == one_key());
                if single_shape(self.lc, v) {
                    assert(!self.lc.has_var(one_key()));
                    assert(lc.coeff(one_key()) == 1);
                    assert(lc.coeff(v) == modulus() - 1);
                    lc.lemma_nonzero_has_var(one_key());
                    lc.lemma_nonzero_has_var(v);
                    assert(negated_shape(lc, v));
                } else {
                    assert(lc.coeff(one_key()) == 0);
                    assert(lc.coeff(v) == 1);
                    assert(!lc.has_var(one_key()));
                    lc.lemma_nonzero_has_var(v);
                    lc.lemma_terms_among(v, one_key());
                    assert(single_shape(lc, v));
                }
                lemma_shape(lc, v);
            }
            Boolean { lc, var: Ghost(v) }
        }
    }
}


/// `x` is the linear form of `y`: the same constant and coefficients.
pub open spec fn same_form(x: LinearCombination, y: LinearCombination) -> bool {
    &&& x.constant_val() == y.constant_val()
    &&& forall|k: VariableKey| #[trigger] x.coeff(k) == y.coeff(k)
}

/// `x` is the linear form `1 - y`.
pub open spec fn one_minus_form(x: LinearCombination, y: LinearCombination) -> bool {
    &&& x.constant_val() == sub_mod(1, y.constant_val())
    &&& forall|k: VariableKey| #[trigger] x.coeff(k) == sub_mod(0, y.coeff(k))
}

/// `x` is the linear form `y + z`.
pub open spec fn sum_form(x: LinearCombination, y: LinearCombination, z: LinearCombination) -> bool {
    &&& x.constant_val() == (y.constant_val() + z.constant_val()) % modulus()
    &&& forall|k: VariableKey| #[trigger] x.coeff(k) == (y.coeff(k) + z.coeff(k)) % modulus()
}

/// `x` is the linear form `y - z`.
pub open spec fn difference_form(
    x: LinearCombination,
    y: LinearCombination,
    z: LinearCombination,
) -> bool {
    &&& x.constant_val() == sub_mod(y.constant_val(), z.constant_val())
    &&& forall|k: VariableKey| #[trigger] x.coeff(k) == sub_mod(y.coeff(k), z.coeff(k))
}

/// The constraint `(1 - b) * b == 0` that keeps a new boolean `b` a bit.
pub open spec fn boolean_gate(g: Constraint, b: Boolean) -> bool {
    &&& one_minus_form(g.a_spec(), b.lc_spec())
    &&& same_form(g.b_spec(), b.lc_spec())
    &&& g.c_spec().constant_val() == 0
    &&& forall|k: VariableKey| #[trigger] g.c_spec().coeff(k) == 0
}

/// The constraint of `a AND b` with output `c`: `a * b == c`.
pub open spec fn and_gate(g: Constraint, a: Boolean, b: Boolean, c: Boolean) -> bool {
    &&& same_form(g.a_spec(), a.lc_spec())
    &&& same_form(g.b_spec(), b.lc_spec())
    &&& same_form(g.c_spec(), c.lc_spec())
}

/// The constraint of `a NAND b` with output `c`: `a * b == 1 - c`.
pub open spec fn nand_gate(g: Constraint, a: Boolean, b: Boolean, c: Boolean) -> bool {
    &&& same_form(g.a_spec(), a.lc_spec())
    &&& same_form(g.b_spec(), b.lc_spec())
    &&& one_minus_form(g.c_spec(), c.lc_spec())
}

/// The constraint of `a OR b` with output `c`: `(1 - a) * (1 - b) == 1 - c`.
pub open spec fn or_gate(g: Constraint, a: Boolean, b: Boolean, c: Boolean) -> bool {
    &&& one_minus_form(g.a_spec(), a.lc_spec())
    &&& one_minus_form(g.b_spec(), b.lc_spec())
    &&& one_minus_form(g.c_spec(), c.lc_spec())
}

/// The constraint of `a NOR b` with output `c`: `(1 - a) * (1 - b) == c`.
pub open spec fn nor_gate(g: Constraint, a: Boolean, b: Boolean, c: Boolean) -> bool {
    &&& one_minus_form(g.a_spec(), a.lc_spec())
    &&& one_minus_form(g.b_spec(), b.lc_spec())
    &&& same_form(g.c_spec(), c.lc_spec())
}

/// The constraint of `a XOR b` with output `c`: `(a + a) * b == a + b - c`.
pub open spec fn xor_gate(g: Constraint, a: Boolean, b: Boolean, c: Boolean) -> bool {
    &&& sum_form(g.a_spec(), a.lc_spec(), a.lc_spec())
    &&& same_form(g.b_spec(), b.lc_spec())
    &&& g.c_spec().constant_val() == sub_mod(
        (a.lc_spec().constant_val() + b.lc_spec().constant_val()) % modulus(),
        c.lc_spec().constant_val(),
    )
    &&& forall|k: VariableKey| #[trigger]
        g.c_spec().coeff(k) == sub_mod(
            (a.lc_spec().coeff(k) + b.lc_spec().coeff(k)) % modulus(),
            c.lc_spec().coeff(k),
        )
}

/// The constraint of `s ? f : t` with output `c`: `s * (f - t) == c - t`.
pub open spec fn ternary_gate(
    g: Constraint,
    s: Boolean,
    f: Boolean,
    t: Boolean,
    c: Boolean,
) -> bool {
    &&& same_form(g.a_spec(), s.lc_spec())
    &&& difference_form(g.b_spec(), f.lc_spec(), t.lc_spec())
    &&& difference_form(g.c_spec(), c.lc_spec(), t.lc_spec())
}

/// The system `new` extends `old` by as many private variables as constraints, all of them
/// satisfied, in the same scope, each constraint of at most sixteen gates.
pub open spec fn extended(old: R1CS, new: R1CS) -> bool {
    let n = new.private_spec().len() - old.private_spec().len();
    &&& old.private_spec().len() <= new.private_spec().len()
    &&& new.constants_spec() == old.constants_spec()
    &&& new.public_spec() == old.public_spec()
    &&& new.private_spec().take(old.private_spec().len() as int) == old.private_spec()
    &&& new.constraints_spec().len() == old.constraints_spec().len() + n
    &&& new.constraints_spec().take(old.constraints_spec().len() as int)
        == old.constraints_spec()
    &&& forall|i: int|
        old.constraints_spec().len() <= i < new.constraints_spec().len()
            ==> (#[trigger] new.constraints_spec()[i]).satisfied()
    &&& old.gates_spec() <= new.gates_spec() <= old.gates_spec() + 16 * n
    &&& new.counter_spec().names == old.counter_spec().names
    &&& new.counter_spec().saved == old.counter_spec().saved
    &&& new.counter_spec().current.constants == old.counter_spec().current.constants
    &&& new.counter_spec().current.public == old.counter_spec().current.public
    &&& new.counter_spec().current.private == old.counter_spec().current.private + n
    &&& new.counter_spec().current.constraints.len() == old.counter_spec().current.constraints.len()
        + n
    &&& new.counter_spec().current.gates == old.counter_spec().current.gates + (new.gates_spec()
        - old.gates_spec())
}

/// The number of private variables, and of constraints, by which `new` extends `old`.
pub open spec fn growth(old: R1CS, new: R1CS) -> int {
    new.private_spec().len() - old.private_spec().len()
}

/// The system `new` extends `old` by one private variable holding the bit `b`, and one
/// constraint.
pub open spec fn witnessed(old: R1CS, new: R1CS, b: bool) -> bool {
    &&& extended(old, new)
    &&& growth(old, new) == 1
    &&& new.private_spec().last() == Variable::Private(
        old.private_spec().len() as u64,
        Fp::from_bool_spec(b),
    )
}

/// Extending is reflexive.
pub proof fn lemma_extended_refl(r: R1CS)
    ensures
        extended(r, r),
        growth(r, r) == 0,
{
    assert(r.private_spec().take(r.private_spec().len() as int) =~= r.private_spec());
    assert(r.constraints_spec().take(r.constraints_spec().len() as int) =~= r.constraints_spec());
}

/// Extending is transitive, and the growths add up.
pub proof fn lemma_extended_trans(a: R1CS, b: R1CS, c: R1CS)
    requires
        extended(a, b),
        extended(b, c),
    ensures
        extended(a, c),
        growth(a, c) == growth(a, b) + growth(b, c),
{
    let pa = a.private_spec().len() as int;
    let pb = b.private_spec().len() as int;
    let ca = a.constraints_spec().len() as int;
    let cb = b.constraints_spec().len() as int;
    assert(c.private_spec().take(pa) =~= b.private_spec().take(pa)) by {
        assert forall|i: int| 0 <= i < pa implies c.private_spec()[i] == b.private_spec()[i] by {
            assert(c.private_spec().take(pb)[i] == c.private_spec()[i]);
        }
    }
    assert(c.constraints_spec().take(ca) =~= b.constraints_spec().take(ca)) by {
        assert forall|i: int| 0 <= i < ca implies c.constraints_spec()[i]
            == b.constraints_spec()[i] by {
            assert(c.constraints_spec().take(cb)[i] == c.constraints_spec()[i]);
        }
    }
    assert forall|i: int| ca <= i < c.constraints_spec().len() implies (
    #[trigger] c.constraints_spec()[i]).satisfied() by {
        if i < cb {
            assert(c.constraints_spec().take(cb)[i] == c.constraints_spec()[i]);
            assert(b.constraints_spec()[i].satisfied());
        }
    }
}

/// A system with room for `k` more of everything after a gadget of growth `g` had room for
/// `k + 17 * g` before it.
pub proof fn lemma_extended_room(old: R1CS, new: R1CS, k: nat)
    requires
        extended(old, new),
        old.room(k + 17 * (growth(old, new) as nat)),
    ensures
        new.room(k),
{
}

/// A gadget that extends a satisfied system leaves it satisfied.
pub proof fn lemma_extended_satisfied(old: R1CS, new: R1CS)
    requires
        extended(old, new),
        old.satisfied(),
    ensures
        new.satisfied(),
{
    let n = old.constraints_spec().len() as int;
    assert forall|i: int| 0 <= i < new.constraints_spec().len() implies (
    #[trigger] new.constraints_spec()[i]).satisfied() by {
        if i < n {
            assert(new.constraints_spec().take(n)[i] == new.constraints_spec()[i]);
            assert(old.constraints_spec()[i].satisfied());
        }
    }
}

/// A private bit variable followed by one satisfied constraint of at most sixteen gates
/// witnesses that bit.
proof fn lemma_witnessed(
    old: R1CS,
    mid: R1CS,
    new: R1CS,
    b: bool,
    x: LinearCombination,
    y: LinearCombination,
    z: LinearCombination,
)
    requires
        mid.constants_spec() == old.constants_spec(),
        mid.public_spec() == old.public_spec(),
        mid.private_spec() == old.private_spec().push(
            Variable::Private(old.private_spec().len() as u64, Fp::from_bool_spec(b)),
        ),
        mid.constraints_spec() == old.constraints_spec(),
        mid.gates_spec() == old.gates_spec(),
        mid.counter_spec() == old.counter_spec().with_private(),
        !(x.is_const() && y.is_const() && z.is_const()),
        enforced(mid, new, x, y, z),
        satisfied_spec(x, y, z),
        gates_spec(x, y, z) <= 16,
    ensures
        witnessed(old, new, b),
{
    let n = old.constraints_spec().len() as int;
    assert(new.private_spec().take(old.private_spec().len() as int) =~= old.private_spec());
    assert(new.constraints_spec()[n].satisfied());
}

impl Boolean {
    /// The boolean is the negation `1 - v` of a bit variable `v`.
    pub open spec fn is_negation(self) -> bool {
        negated_shape(self.lc_spec(), self.var_spec())
    }

    /// The mode of the negation of the boolean: a constant stays constant, a negation of a
    /// public variable becomes that public variable, and anything else is private.
    pub open spec fn not_mode(self) -> Mode {
        if self.is_const() {
            Mode::Constant
        } else if self.is_negation() && self.var_spec().0 == 1u8 {
            Mode::Public
        } else {
            Mode::Private
        }
    }

    /// The boolean stands for the negated bit of `other`, with the mode of its negation.
    pub open spec fn negates(self, other: Boolean) -> bool {
        &&& self.bit() == !other.bit()
        &&& self.is_const() == other.is_const()
        &&& self.mode_spec() == other.not_mode()
    }

    /// The boolean stands for the same bit, mode and linear combination as `other`.
    pub open spec fn copies(self, other: Boolean) -> bool {
        &&& self.bit() == other.bit()
        &&& self.is_const() == other.is_const()
        &&& self.mode_spec() == other.mode_spec()
        &&& self.lc_spec().entries() == other.lc_spec().entries()
        &&& self.lc_spec().constant_val() == other.lc_spec().constant_val()
    }

    /// `1 - self`, written with the constant one: worth `1` minus the bit, and with a term
    /// unless the boolean is a constant.
    fn one_minus(&self) -> (r: LinearCombination)
        ensures
            r.val() == sub_mod(1, bit_val(self.bit())),
            one_minus_form(r, self.lc_spec()),
            r.num_terms() <= 2,
            !self.is_const() ==> !r.is_const(),
    {
        proof {
            use_type_invariant(self);
            use_type_invariant(&self.lc);
            self.lemma_facts();
            lemma_bit_arith();
            lemma_shape(self.lc, self.var@);
        }
        let one = Circuit::one();
        let r = one.sub(&self.lc);
        proof {
            assert forall|k: VariableKey| #[trigger] r.coeff(k) == sub_mod(0, self.lc.coeff(k)) by {
                assert(!one.has_var(k));
            }
            if !self.is_const() {
                let v = self.var@;
                let c = self.lc.coeff(v);
                assert(self.lc.has_var(v));
                lemma_coeff_bound(self.lc.entries(), v);
                assert(one.coeff(v) == 0);
                vstd::arithmetic::div_mod::lemma_small_mod((modulus() - c) as nat, modulus());
                assert(r.coeff(v) == modulus() - c);
                r.lemma_nonzero_has_var(v);
            }
        }
        r
    }

    /// A new private variable holding the bit `value`, as a boolean, not yet constrained.
    fn witness_bit(value: bool, cs: &mut Circuit) -> (r: Boolean)
        requires
            old(cs).wf(),
            old(cs).state().room(1),
        ensures
            final(cs).wf(),
            r.bit() == value,
            r.lc_spec().val() == bit_val(value),
            !r.is_const(),
            r.mode_spec() == Mode::Private,
            single_shape(r.lc_spec(), r.var_spec()),
            r.var_spec() == Variable::Private(
                old(cs).state().private_spec().len() as u64,
                Fp::from_bool_spec(value),
            ).key_spec(),
            final(cs).state().constants_spec() == old(cs).state().constants_spec(),
            final(cs).state().public_spec() == old(cs).state().public_spec(),
            final(cs).state().private_spec() == old(cs).state().private_spec().push(
                Variable::Private(
                    old(cs).state().private_spec().len() as u64,
                    Fp::from_bool_spec(value),
                ),
            ),
            final(cs).state().constraints_spec() == old(cs).state().constraints_spec(),
            final(cs).state().gates_spec() == old(cs).state().gates_spec(),
            final(cs).state().counter_spec() == old(cs).state().counter_spec().with_private(),
    {
        let x = Fp::from_bool(value);
        let variable = cs.new_variable(Mode::Private, x);
        let lc = LinearCombination::from_variable(&variable);
        proof {
            use_type_invariant(&lc);
            Fp::lemma_small_constants();
            lemma_one_key();
            let k = variable.key_spec();
            lc.lemma_nonzero_has_var(k);
            assert(k != one_key());
            assert(key_val(k) == bit_val(value));
            assert(single_shape(lc, k));
            lemma_shape(lc, k);
        }
        Boolean { lc, var: Ghost(variable.key_spec()) }
    }
}

/// The tables of the gates on bits, with arithmetic modulo `p`.
pub proof fn lemma_bit_table(a: bool, b: bool)
    ensures
        (bit_val(a) * bit_val(b)) % modulus() == bit_val(a && b),
        (bit_val(a) * bit_val(b)) % modulus() == sub_mod(1, bit_val(!(a && b))),
        (sub_mod(1, bit_val(a)) * sub_mod(1, bit_val(b))) % modulus() == sub_mod(
            1,
            bit_val(a || b),
        ),
        (sub_mod(1, bit_val(a)) * sub_mod(1, bit_val(b))) % modulus() == bit_val(!(a || b)),
        (((bit_val(a) + bit_val(a)) % modulus()) * bit_val(b)) % modulus() == sub_mod(
            (bit_val(a) + bit_val(b)) % modulus(),
            bit_val(a != b),
        ),
{
    lemma_bit_arith();
    let m = modulus();
    if a {
        if b {
            assert(((1nat + 1nat) % m) * 1nat == 2);
            assert(sub_mod(2, 0) == 2);
        } else {
            assert(((1nat + 1nat) % m) * 0nat == 0);
        }
    } else {
        assert(((0nat + 0nat) % m) * bit_val(b) == 0);
    }
}

/// Selecting between two bits by a third, with arithmetic modulo `p`:
/// `c * (f - s) == (out - s)` where `out` is `f` when `c` holds and `s` otherwise.
pub proof fn lemma_select(c: bool, f: bool, s: bool)
    ensures
        (bit_val(c) * sub_mod(bit_val(f), bit_val(s))) % modulus() == sub_mod(
            bit_val(
                if c {
                    f
                } else {
                    s
                },
            ),
            bit_val(s),
        ),
{
    lemma_bit_arith();
    let x = sub_mod(bit_val(f), bit_val(s));
    vstd::arithmetic::div_mod::lemma_small_mod(x, modulus());
    if c {
        assert(bit_val(c) * x == x);
    } else {
        assert(bit_val(c) * x == 0);
    }
}

impl Inject for Boolean {
    type Primitive = bool;

    /// The boolean stands for `value` in mode `mode`, and is registered in `new` as
    /// `injected` says, a variable of it kept a bit by the constraint `(1 - v) * v == 0`.
    open spec fn injects(old: R1CS, new: R1CS, mode: Mode, value: bool, r: Boolean) -> bool {
        &&& r.bit() == value
        &&& r.is_const() == (mode == Mode::Constant)
        &&& r.mode_spec() == mode
        &&& r.lc_spec().num_terms() <= 1
        &&& injected(old, new, mode, Fp::from_bool_spec(value))
        &&& mode != Mode::Constant ==> single_shape(r.lc_spec(), r.var_spec())
        &&& mode != Mode::Constant ==> boolean_gate(new.constraints_spec().last(), r)
    }

    /// Initializes a new boolean of the given mode and value: a constant, or a new variable
    /// constrained by `(1 - a) * a = 0` to be `0` or `1`.
    fn new(mode: Mode, value: bool, cs: &mut Circuit) -> (r: Boolean)
        ensures
            r.bit() == value,
            r.is_const() == (mode == Mode::Constant),
            r.mode_spec() == mode,
            r.lc_spec().num_terms() <= 1,
            injected(old(cs).state(), final(cs).state(), mode, Fp::from_bool_spec(value)),
            mode != Mode::Constant ==> single_shape(r.lc_spec(), r.var_spec()),
            mode != Mode::Constant ==> boolean_gate(final(cs).state().constraints_spec().last(), r),
    {
        let x = Fp::from_bool(value);
        let variable = cs.new_variable(mode, x);
        let v_lc = LinearCombination::from_variable(&variable);
        let v_lc2 = LinearCombination::from_variable(&variable);
        let one = Circuit::one();
        let one_minus = one.sub(&v_lc);
        let zero = Circuit::zero();
        let ghost mid = cs.state();
        proof {
            use_type_invariant(&v_lc);
            use_type_invariant(&one_minus);
            v_lc.lemma_wf();
            vstd::arithmetic::div_mod::lemma_small_mod(0, modulus());
            vstd::arithmetic::div_mod::lemma_small_mod(1, modulus());
            if value {
                vstd::arithmetic::div_mod::lemma_mod_self_0(modulus() as int);
            }
            Fp::lemma_small_constants();
            if value {
                assert(one_minus.val() == 0);
                assert(one_minus.val() * v_lc2.val() == 0);
            } else {
                assert(v_lc2.val() == 0);
                assert(one_minus.val() * v_lc2.val() == 0) by (nonlinear_arith)
                    requires
                        v_lc2.val() == 0,
                ;
            }
            assert(satisfied_spec(one_minus, v_lc2, zero));
            assert forall|k: VariableKey| #[trigger] one_minus.coeff(k) == sub_mod(0, v_lc.coeff(k)) by {
                assert(!one.has_var(k));
            }
            assert forall|k: VariableKey| #[trigger] zero.coeff(k) == 0 by {
                assert(!zero.has_var(k));
            }
            assert(same_form(v_lc2, v_lc));
            assert(one_minus_form(one_minus, v_lc));
            if !(mode == Mode::Constant) {
                one_minus.lemma_terms_among(variable.key_spec(), variable.key_spec());
            }
        }
        cs.enforce(one_minus, v_lc2, zero);
        proof {
            use_type_invariant(&v_lc);
            if mode == Mode::Public {
                R1CS::lemma_wf(old(cs).state());
                assert(variable.index_spec() == old(cs).state().public_spec().len());
                assert(old(cs).state().public_spec().len() >= 1);
            }
            if !(mode == Mode::Constant) {
                assert(variable.key_spec() != one_key());
                v_lc.lemma_nonzero_has_var(variable.key_spec());
                lemma_coeff_at(v_lc.entries(), 0);
            }
            if !(mode == Mode::Constant) {
                assert(final(cs).state().constraints_spec().last() == final(cs).state().constraints_spec()[old(cs).state().constraints_spec().len() as int]);
            }
        }
        Boolean { lc: v_lc, var: Ghost(variable.key_spec()) }
    }

    /// Initializes a constant boolean circuit from a primitive boolean value.
    fn constant(value: bool) -> (r: Boolean)
        ensures
            r.bit() == value,
            r.is_const(),
            r.lc_spec().constant_val() == bit_val(value),
    {
        let lc = if value {
            Circuit::one()
        } else {
            Circuit::zero()
        };
        Boolean { lc, var: Ghost(one_key()) }
    }
}

/// Negating twice gives back the bit, the constancy and the mode.
pub proof fn lemma_double_negation(a: Boolean, b: Boolean, c: Boolean)
    requires
        b.negates(a),
        !a.is_const() ==> b.var_spec() == a.var_spec() && b.is_negation() == !a.is_negation(),
        c.negates(b),
        !b.is_const() ==> c.var_spec() == b.var_spec() && c.is_negation() == !b.is_negation(),
        a.inv(),
        c.inv(),
    ensures
        c.bit() == a.bit(),
        c.is_const() == a.is_const(),
        c.mode_spec() == a.mode_spec(),
{
    if !a.is_const() {
        if a.is_negation() {
            assert(!single_shape(a.lc_spec(), a.var_spec()));
        } else {
            assert(single_shape(a.lc_spec(), a.var_spec()));
            assert(!negated_shape(c.lc_spec(), c.var_spec()));
            assert(single_shape(c.lc_spec(), c.var_spec()));
        }
    }
}

/// Every boolean is of the boolean type: a constant zero or one, or terms over bit
/// variables with a zero constant and a value of zero or one.
pub proof fn lemma_boolean_type(b: Boolean)
    requires
        b.inv(),
        b.lc_spec().wf(),
    ensures
        b.lc_spec().is_boolean_type_spec(),
{
    let lc = b.lc_spec();
    let v = b.var_spec();
    lemma_shape(lc, v);
    lemma_one_key();
    if !lc.is_const() {
        let i = choose|i: int| 0 <= i < lc.entries().len() && #[trigger] lc.entries()[i].0 == v;
        assert(key_val(lc.entries()[i].0) == 0 || key_val(lc.entries()[i].0) == 1);
    }
}

/// Small facts of arithmetic modulo `p` on bits.
pub proof fn lemma_bit_arith()
    ensures
        sub_mod(0, 0) == 0,
        sub_mod(0, 1) == modulus() - 1,
        sub_mod(1, 0) == 1,
        sub_mod(1, 1) == 0,
        sub_mod(0, (modulus() - 1) as nat) == 1,
        sub_mod(1, (modulus() - 1) as nat) == 2,
        sub_mod(2, 0) == 2,
        sub_mod(1, 1) == 0,
        sub_mod(0, 2) == modulus() - 2,
        0nat % modulus() == 0,
        1nat % modulus() == 1,
        2nat % modulus() == 2,
{
    let m = modulus() as int;
    vstd::arithmetic::div_mod::lemma_small_mod(0, modulus());
    vstd::arithmetic::div_mod::lemma_small_mod(1, modulus());
    vstd::arithmetic::div_mod::lemma_small_mod(2, modulus());
    vstd::arithmetic::div_mod::lemma_small_mod((modulus() - 1) as nat, modulus());
    vstd::arithmetic::div_mod::lemma_small_mod((modulus() - 2) as nat, modulus());
    vstd::arithmetic::div_mod::lemma_mod_self_0(m);
    vstd::arithmetic::div_mod::lemma_mod_add_multiples_vanish(1, m);
    vstd::arithmetic::div_mod::lemma_mod_add_multiples_vanish(2, m);
}

} // verus!
