//! Base field elements as circuits: linear combinations whose value is the element.

use crate::circuit::{enforced, Circuit};
use crate::constraint::{additions_spec, gates_spec, satisfied_spec};
use crate::fp::{modulus, sub_mod, Fp};
use crate::lc_lemmas::lemma_coeff_at;
use crate::linear_combination::{entry_view, LinearCombination};
use crate::mode::Mode;
use crate::r1cs::R1CS;
use crate::traits::Inject;
use crate::variable::{Variable, VariableKey};
use vstd::prelude::*;

verus! {

/// The effect of registering a new variable of mode `mode` and value `value`: a constant,
/// a public or a private variable more, and nothing else.
pub open spec fn added(old: R1CS, new: R1CS, mode: Mode, value: Fp) -> bool {
    &&& new.constraints_spec() == old.constraints_spec()
    &&& new.gates_spec() == old.gates_spec()
    &&& mode == Mode::Constant ==> {
        &&& new.constants_spec() == old.constants_spec().push(Variable::Constant(value))
        &&& new.public_spec() == old.public_spec()
        &&& new.private_spec() == old.private_spec()
        &&& new.counter_spec() == old.counter_spec().with_constant()
    }
    &&& mode == Mode::Public ==> {
        &&& new.constants_spec() == old.constants_spec()
        &&& new.public_spec() == old.public_spec().push(
            Variable::Public(old.public_spec().len() as u64, value),
        )
        &&& new.private_spec() == old.private_spec()
        &&& new.counter_spec() == old.counter_spec().with_public()
    }
    &&& mode == Mode::Private ==> {
        &&& new.constants_spec() == old.constants_spec()
        &&& new.public_spec() == old.public_spec()
        &&& new.private_spec() == old.private_spec().push(
            Variable::Private(old.private_spec().len() as u64, value),
        )
        &&& new.counter_spec() == old.counter_spec().with_private()
    }
}

/// The effect of multiplying two variable elements: a private variable holding the product
/// `v`, and one satisfied constraint.
pub open spec fn multiplied(old: R1CS, new: R1CS, v: nat) -> bool {
    let n = old.constraints_spec().len();
    let p = new.private_spec().last();
    &&& new.constants_spec() == old.constants_spec()
    &&& new.public_spec() == old.public_spec()
    &&& new.private_spec() == old.private_spec().push(p)
    &&& p is Private
    &&& p.index_spec() == old.private_spec().len()
    &&& p.val() == v
    &&& new.constraints_spec().len() == n + 1
    &&& new.constraints_spec().take(n as int) == old.constraints_spec()
    &&& new.constraints_spec()[n as int].satisfied()
    &&& old.gates_spec() <= new.gates_spec()
    &&& new.counter_spec() == old.counter_spec().with_private().with_constraint(
        n as usize,
        (new.gates_spec() - old.gates_spec()) as nat,
    )
}

/// A base field element in a circuit.
pub struct Field {
    lc: LinearCombination,
}

impl Field {
    /// The linear combination of the element.
    pub closed spec fn lc_spec(self) -> LinearCombination {
        self.lc
    }

    /// The value of the element, in `[0, p)`.
    pub open spec fn val(self) -> nat {
        self.lc_spec().val()
    }

    /// The element is a constant.
    pub open spec fn is_const(self) -> bool {
        self.lc_spec().is_const()
    }

    /// Returns the constant one.
    pub fn one() -> (r: Field)
        ensures
            r.is_const(),
            r.val() == 1,
    {
        Field { lc: Circuit::one() }
    }

    /// Returns the constant zero.
    pub fn zero() -> (r: Field)
        ensures
            r.is_const(),
            r.val() == 0,
    {
        Field { lc: Circuit::zero() }
    }

    /// Returns `true` if the element is a constant.
    pub fn is_constant(&self) -> (r: bool)
        ensures
            r == self.is_const(),
    {
        self.lc.is_constant()
    }

    /// Ejects the value of the element.
    pub fn eject_value(&self) -> (r: Fp)
        ensures
            r@ == self.val(),
    {
        self.lc.value()
    }

    /// Ejects the mode of the element.
    pub fn eject_mode(&self) -> (r: Mode)
        ensures
            r == self.lc_spec().mode_spec(),
    {
        self.lc.mode()
    }

    /// Returns `self + other`, without a constraint.
    pub fn add(&self, other: &Field) -> (r: Field)
        ensures
            r.val() == (self.val() + other.val()) % modulus(),
            r.lc_spec().num_terms() <= self.lc_spec().num_terms() + other.lc_spec().num_terms(),
            r.lc_spec().constant_val() == (self.lc_spec().constant_val()
                + other.lc_spec().constant_val()) % modulus(),
            forall|k: VariableKey| #[trigger]
                r.lc_spec().coeff(k) == (self.lc_spec().coeff(k) + other.lc_spec().coeff(k))
                    % modulus(),
            entry_view(r.lc_spec().entries()) == self.lc_spec().sum_entries(other.lc_spec()),
    {
        Field { lc: self.lc.add(&other.lc) }
    }

    /// Sets `self` to `self + other`, without a constraint.
    pub fn add_assign(&mut self, other: &Field)
        ensures
            final(self).val() == (old(self).val() + other.val()) % modulus(),
            final(self).lc_spec().num_terms() <= old(self).lc_spec().num_terms()
                + other.lc_spec().num_terms(),
            final(self).lc_spec().constant_val() == (old(self).lc_spec().constant_val()
                + other.lc_spec().constant_val()) % modulus(),
            forall|k: VariableKey| #[trigger]
                final(self).lc_spec().coeff(k) == (old(self).lc_spec().coeff(k)
                    + other.lc_spec().coeff(k)) % modulus(),
            entry_view(final(self).lc_spec().entries()) == old(self).lc_spec().sum_entries(
                other.lc_spec(),
            ),
    {
        let r = self.add(other);
        *self = r;
    }

    /// Returns `self - other`, without a constraint.
    pub fn sub(&self, other: &Field) -> (r: Field)
        ensures
            r.val() == sub_mod(self.val(), other.val()),
            r.lc_spec().num_terms() <= self.lc_spec().num_terms() + other.lc_spec().num_terms(),
            r.lc_spec().constant_val() == sub_mod(
                self.lc_spec().constant_val(),
                other.lc_spec().constant_val(),
            ),
            forall|k: VariableKey| #[trigger]
                r.lc_spec().coeff(k) == sub_mod(self.lc_spec().coeff(k), other.lc_spec().coeff(k)),
    {
        Field { lc: self.lc.sub(&other.lc) }
    }

    /// Returns `self * other`. A constant operand scales the other without a constraint;
    /// otherwise the product is witnessed as a private variable `c` and
    /// `self * other == c` enforced.
    pub fn mul(&self, other: &Field, cs: &mut Circuit) -> (r: Field)
        requires
            old(cs).wf(),
            old(cs).state().room(4 + self.lc_spec().num_terms() + other.lc_spec().num_terms()),
        ensures
            final(cs).wf(),
            r.val() == (self.val() * other.val()) % modulus(),
            self.is_const() || other.is_const() ==> final(cs).state() == old(cs).state(),
            self.is_const() && other.is_const() ==> r.is_const(),
            self.is_const() && !other.is_const() ==> r.lc_spec().num_terms()
                == other.lc_spec().num_terms(),
            !self.is_const() && other.is_const() ==> r.lc_spec().num_terms()
                == self.lc_spec().num_terms(),
            !self.is_const() && !other.is_const() ==> {
                &&& r.lc_spec().num_terms() == 1
                &&& r.lc_spec().mode_spec() == Mode::Private
                &&& multiplied(old(cs).state(), final(cs).state(), r.val())
                &&& final(cs).state().gates_spec() <= old(cs).state().gates_spec() + 1
                    + self.lc_spec().num_terms() + other.lc_spec().num_terms()
            },
    {
        proof {
            use_type_invariant(&self.lc);
            use_type_invariant(&other.lc);
            self.lc.lemma_wf();
            other.lc.lemma_wf();
        }
        if other.lc.is_constant() {
            let k = other.lc.value();
            Field { lc: self.lc.mul(&k) }
        } else if self.lc.is_constant() {
            let k = self.lc.value();
            let lc = other.lc.mul(&k);
            proof {
                vstd::arithmetic::mul::lemma_mul_is_commutative(self.val() as int, other.val() as int);
            }
            Field { lc }
        } else {
            let value = self.lc.value().mul(&other.lc.value());
            let ghost old_state = cs.state();
            let product = <Field as Inject>::new(Mode::Private, value, cs);
            let ghost mid = cs.state();
            let x = self.lc.duplicate();
            let y = other.lc.duplicate();
            let z = product.lc.duplicate();
            let ghost (gx, gy, gz) = (x, y, z);
            proof {
                value.lemma_lt_modulus();
                assert(satisfied_spec(gx, gy, gz));
                assert(additions_spec(gz) == 0);
            }
            cs.enforce(x, y, z);
            proof {
                let n = old_state.constraints_spec().len() as int;
                assert(cs.state().constraints_spec().take(n) =~= old_state.constraints_spec());
            }
            product
        }
    }

    /// Sets `self` to `self * other`.
    pub fn mul_assign(&mut self, other: &Field, cs: &mut Circuit)
        requires
            old(cs).wf(),
            old(cs).state().room(4 + old(self).lc_spec().num_terms() + other.lc_spec().num_terms()),
        ensures
            final(cs).wf(),
            final(self).val() == (old(self).val() * other.val()) % modulus(),
            old(self).is_const() || other.is_const() ==> final(cs).state() == old(cs).state(),
            old(self).is_const() && other.is_const() ==> final(self).is_const(),
            !old(self).is_const() && !other.is_const() ==> {
                &&& final(self).lc_spec().num_terms() == 1
                &&& final(self).lc_spec().mode_spec() == Mode::Private
                &&& multiplied(old(cs).state(), final(cs).state(), final(self).val())
                &&& final(cs).state().gates_spec() <= old(cs).state().gates_spec() + 1 + old(
                    self,
                ).lc_spec().num_terms() + other.lc_spec().num_terms()
            },
    {
        let r = self.mul(other, cs);
        *self = r;
    }
}

impl Inject for Field {
    type Primitive = Fp;

    /// The element holds `value` in mode `mode`, and is registered in `new` as `added` says.
    open spec fn injects(old: R1CS, new: R1CS, mode: Mode, value: Fp, r: Field) -> bool {
        &&& r.val() == value@
        &&& r.is_const() == (mode == Mode::Constant)
        &&& r.lc_spec().num_terms() <= 1
        &&& r.lc_spec().mode_spec() == mode
        &&& mode != Mode::Constant ==> r.lc_spec().constant_val() == 0
        &&& added(old, new, mode, value)
    }

    /// Initializes a new element of the given mode and value, registered in the system.
    fn new(mode: Mode, value: Fp, cs: &mut Circuit) -> (r: Field)
        ensures
            r.val() == value@,
            r.is_const() == (mode == Mode::Constant),
            r.lc_spec().num_terms() <= 1,
            r.lc_spec().mode_spec() == mode,
            mode != Mode::Constant ==> r.lc_spec().constant_val() == 0,
            added(old(cs).state(), final(cs).state(), mode, value),
    {
        let variable = cs.new_variable(mode, value);
        let lc = LinearCombination::from_variable(&variable);
        proof {
            use_type_invariant(&lc);
            if !(mode == Mode::Constant) {
                lc.lemma_nonzero_has_var(variable.key_spec());
                lc.lemma_value_one_term(variable.key_spec());
                lc.lemma_wf();
                lemma_coeff_at(lc.entries(), 0);
            }
        }
        Field { lc }
    }

    /// Initializes a constant element, not registered in any system.
    fn constant(value: Fp) -> (r: Field)
        ensures
            r.val() == value@,
            r.is_const(),
    {
        Field { lc: LinearCombination::from_constant(value) }
    }
}

} // verus!
