//! The environment in which circuits are synthesized: it owns a constraint system, hands
//! out variables, enforces constraints, and keeps scopes.

use crate::assignment::{constraints_assigned, indexed, Assignment};
use crate::constraint::{constraints_text, gates_spec, satisfied_spec, Constraint};
use crate::counter::{has_period, join_names, ScopeError};
use crate::fp::{modulus, sub_mod, Fp};
use crate::linear_combination::LinearCombination;
use crate::mode::Mode;
use crate::r1cs::R1CS;
use crate::traits::Inject;
use crate::variable::{Variable, VariableKey};
use vstd::arithmetic::power::pow;
use vstd::prelude::*;

verus! {

/// A circuit environment.
pub struct Circuit {
    r1cs: R1CS,
}

/// Whether `x` has a multiplicative inverse of the form `x^(p - 2)`.
pub open spec fn has_fermat_inverse(x: nat) -> bool {
    (x * (pow(x as int, (modulus() - 2) as nat) % (modulus() as int))) % (modulus() as int) == 1
}

/// The value `x^(p - 2) mod p`, the inverse of `x` where it has one.
pub open spec fn fermat_inverse(x: nat) -> nat {
    (pow(x as int, (modulus() - 2) as nat) % (modulus() as int)) as nat
}

/// `a` and `b` have the same terms with the same coefficients, so `a - b` has none.
pub open spec fn same_terms(a: LinearCombination, b: LinearCombination) -> bool {
    forall|k: VariableKey| #[trigger] a.has_var(k) || #[trigger] b.has_var(k) ==> a.has_var(k) && b.has_var(k)
        && a.coeff(k) == b.coeff(k)
}

/// The state after enforcing `a * b == c` on a system in state `old`: unchanged when all
/// three are constants, else one more constraint, tagged with the current scope.
pub open spec fn enforced(
    old: R1CS,
    new: R1CS,
    a: LinearCombination,
    b: LinearCombination,
    c: LinearCombination,
) -> bool {
    if a.is_const() && b.is_const() && c.is_const() {
        new == old
    } else {
        let n = old.constraints_spec().len();
        &&& new.constraints_spec().len() == n + 1
        &&& new.constraints_spec().take(n as int) == old.constraints_spec()
        &&& new.constraints_spec()[n as int].a_spec() == a
        &&& new.constraints_spec()[n as int].b_spec() == b
        &&& new.constraints_spec()[n as int].c_spec() == c
        &&& new.constraints_spec()[n as int].scope_spec() == join_names(old.counter_spec().names)
        &&& new.gates_spec() == old.gates_spec() + gates_spec(a, b, c)
        &&& new.constants_spec() == old.constants_spec()
        &&& new.public_spec() == old.public_spec()
        &&& new.private_spec() == old.private_spec()
        &&& new.counter_spec() == old.counter_spec().with_constraint(n as usize, gates_spec(a, b, c))
    }
}

/// The constant linear combination one.
pub open spec fn is_one_constant(lc: LinearCombination) -> bool {
    &&& lc.is_const()
    &&& lc.constant_val() == 1
    &&& lc.val() == 1
}

/// A constraint system with nothing in it but the public constant one.
pub open spec fn is_empty_system(r: R1CS) -> bool {
    &&& r.constants_spec().len() == 0
    &&& r.public_spec().len() == 1
    &&& r.private_spec().len() == 0
    &&& r.constraints_spec().len() == 0
}

impl Circuit {
    /// The constraint system of the environment.
    pub closed spec fn state(self) -> R1CS {
        self.r1cs
    }

    /// The environment is well-formed.
    pub open spec fn wf(self) -> bool {
        self.state().wf()
    }

    /// A new environment with an empty constraint system.
    pub fn new() -> (r: Circuit)
        ensures
            r.wf(),
            is_empty_system(r.state()),
            r.state().gates_spec() == 0,
            r.state().counter_spec().names.len() == 0,
            r.state().counter_spec().current.constraints.len() == 0,
            r.state().counter_spec().current.constants == 0,
            r.state().counter_spec().current.public == 0,
            r.state().counter_spec().current.private == 0,
            r.state().counter_spec().current.gates == 0,
    {
        Circuit { r1cs: R1CS::new() }
    }

    /// Returns the `zero` constant.
    pub fn zero() -> (r: LinearCombination)
        ensures
            r.is_const(),
            r.constant_val() == 0,
            r.val() == 0,
    {
        LinearCombination::zero()
    }

    /// Returns the `one` constant.
    pub fn one() -> (r: LinearCombination)
        ensures
            r.is_const(),
            r.constant_val() == 1,
            r.val() == 1,
    {
        LinearCombination::one()
    }

    /// Returns a new variable of the given mode and value.
    pub fn new_variable(&mut self, mode: Mode, value: Fp) -> (v: Variable)
        requires
            old(self).wf(),
            old(self).state().room(1),
        ensures
            final(self).wf(),
            v.mode_spec() == mode,
            v.value_spec() == value,
            v.val() == value@,
            final(self).state().constraints_spec() == old(self).state().constraints_spec(),
            final(self).state().gates_spec() == old(self).state().gates_spec(),
            mode == Mode::Constant ==> {
                &&& v == Variable::Constant(value)
                &&& final(self).state().constants_spec() == old(self).state().constants_spec().push(v)
                &&& final(self).state().public_spec() == old(self).state().public_spec()
                &&& final(self).state().private_spec() == old(self).state().private_spec()
                &&& final(self).state().counter_spec() == old(self).state().counter_spec().with_constant()
            },
            mode == Mode::Public ==> {
                &&& v == Variable::Public(old(self).state().public_spec().len() as u64, value)
                &&& final(self).state().constants_spec() == old(self).state().constants_spec()
                &&& final(self).state().public_spec() == old(self).state().public_spec().push(v)
                &&& final(self).state().private_spec() == old(self).state().private_spec()
                &&& final(self).state().counter_spec() == old(self).state().counter_spec().with_public()
            },
            mode == Mode::Private ==> {
                &&& v == Variable::Private(old(self).state().private_spec().len() as u64, value)
                &&& final(self).state().constants_spec() == old(self).state().constants_spec()
                &&& final(self).state().public_spec() == old(self).state().public_spec()
                &&& final(self).state().private_spec() == old(self).state().private_spec().push(v)
                &&& final(self).state().counter_spec() == old(self).state().counter_spec().with_private()
            },
    {
        match mode {
            Mode::Constant => self.r1cs.new_constant(value),
            Mode::Public => self.r1cs.new_public(value),
            Mode::Private => self.r1cs.new_private(value),
        }
    }

    /// Enters a new scope named `name`; a name with a period is refused.
    pub fn push_scope(&mut self, name: &str) -> (r: Result<(), ScopeError>)
        requires
            old(self).wf(),
        ensures
            final(self).wf(),
            r is Err <==> has_period(name@),
            r is Err ==> final(self).state() == old(self).state(),
            r is Ok ==> final(self).state().counter_spec() == old(self).state().counter_spec().pushed(
                name@,
            ),
            final(self).state().constants_spec() == old(self).state().constants_spec(),
            final(self).state().public_spec() == old(self).state().public_spec(),
            final(self).state().private_spec() == old(self).state().private_spec(),
            final(self).state().constraints_spec() == old(self).state().constraints_spec(),
            final(self).state().gates_spec() == old(self).state().gates_spec(),
    {
        self.r1cs.push_scope(name)
    }

    /// Leaves the innermost scope, which must be named `name`.
    pub fn pop_scope(&mut self, name: &str) -> (r: Result<(), ScopeError>)
        requires
            old(self).wf(),
        ensures
            final(self).wf(),
            r is Err <==> (old(self).state().counter_spec().names.len() == 0 || old(
                self,
            ).state().counter_spec().names.last() != name@),
            r is Err ==> final(self).state() == old(self).state(),
            r is Ok ==> final(self).state().counter_spec() == old(
                self,
            ).state().counter_spec().popped(),
            final(self).state().constants_spec() == old(self).state().constants_spec(),
            final(self).state().public_spec() == old(self).state().public_spec(),
            final(self).state().private_spec() == old(self).state().private_spec(),
            final(self).state().constraints_spec() == old(self).state().constraints_spec(),
            final(self).state().gates_spec() == old(self).state().gates_spec(),
    {
        self.r1cs.pop_scope(name)
    }

    /// Adds one constraint enforcing that `(A * B) == C`; one of constants only must hold
    /// already, and is not recorded.
    pub fn enforce(&mut self, a: LinearCombination, b: LinearCombination, c: LinearCombination)
        requires
            old(self).wf(),
            a.is_const() && b.is_const() && c.is_const() ==> satisfied_spec(a, b, c),
            old(self).state().room(1 + gates_spec(a, b, c)),
        ensures
            final(self).wf(),
            enforced(old(self).state(), final(self).state(), a, b, c),
    {
        if a.is_constant() && b.is_constant() && c.is_constant() {
            return;
        }
        let scope = self.r1cs.scope();
        let ghost old_r1cs = self.r1cs;
        let constraint = Constraint::new(scope, a, b, c);
        self.r1cs.enforce(constraint);
        proof {
            let n = old_r1cs.constraints_spec().len();
            assert(self.r1cs.constraints_spec().take(n as int) =~= old_r1cs.constraints_spec());
        }
    }

    /// Adds one constraint enforcing that the given boolean is `true`: `boolean * 1 == 1`.
    pub fn assert_true(&mut self, boolean: LinearCombination)
        requires
            old(self).wf(),
            boolean.is_const() ==> boolean.val() == 1,
            old(self).state().room(2 + boolean.num_terms()),
        ensures
            final(self).wf(),
            exists|b: LinearCombination, c: LinearCombination|
                is_one_constant(b) && is_one_constant(c) && enforced(
                    old(self).state(),
                    final(self).state(),
                    boolean,
                    b,
                    c,
                ),
    {
        let b = Circuit::one();
        let c = Circuit::one();
        proof {
            boolean.lemma_val_bound();
            vstd::arithmetic::div_mod::lemma_small_mod(boolean.val(), modulus());
        }
        let ghost bb = b;
        let ghost cc = c;
        self.enforce(boolean, b, c);
        proof {
            assert(is_one_constant(bb) && is_one_constant(cc));
        }
    }

    /// Adds one constraint enforcing that `a == b`: `a * 1 == b`.
    pub fn assert_eq(&mut self, a: LinearCombination, b: LinearCombination)
        requires
            old(self).wf(),
            a.is_const() && b.is_const() ==> a.val() == b.val(),
            old(self).state().room(2 + a.num_terms() + b.num_terms()),
        ensures
            final(self).wf(),
            exists|one: LinearCombination|
                is_one_constant(one) && enforced(old(self).state(), final(self).state(), a, one, b),
    {
        let one = Circuit::one();
        proof {
            a.lemma_val_bound();
            vstd::arithmetic::div_mod::lemma_small_mod(a.val(), modulus());
        }
        let ghost one_g = one;
        self.enforce(a, one, b);
        proof {
            assert(is_one_constant(one_g));
        }
    }

    /// Adds one constraint enforcing that `a != b`: `(a - b) * m == 1`, where the multiplier
    /// `m` is a new variable holding the inverse of `a - b` (a constant if `a` and `b` are),
    /// or zero where `a - b` has no inverse. A difference without terms must have an
    /// inverse.
    pub fn assert_neq(&mut self, a: LinearCombination, b: LinearCombination)
        requires
            old(self).wf(),
            same_terms(a, b) ==> has_fermat_inverse(sub_mod(a.val(), b.val())),
            old(self).state().room(4 + a.num_terms() + b.num_terms()),
        ensures
            final(self).wf(),
            ({
                let x = sub_mod(a.val(), b.val());
                let fi = has_fermat_inverse(x);
                let both = a.is_const() && b.is_const();
                let o = old(self).state();
                let n = final(self).state();
                &&& n.public_spec() == o.public_spec()
                &&& n.constants_spec().len() == o.constants_spec().len() + if fi && both {
                    1int
                } else {
                    0int
                }
                &&& n.constants_spec().take(o.constants_spec().len() as int) == o.constants_spec()
                &&& fi && both ==> n.constants_spec().last().val() == fermat_inverse(x)
                &&& n.private_spec().len() == o.private_spec().len() + if fi && !both {
                    1int
                } else {
                    0int
                }
                &&& n.private_spec().take(o.private_spec().len() as int) == o.private_spec()
                &&& fi && !both ==> n.private_spec().last().val() == fermat_inverse(x)
                &&& n.constraints_spec().len() == o.constraints_spec().len() + if both {
                    0int
                } else {
                    1int
                }
                &&& n.constraints_spec().take(o.constraints_spec().len() as int)
                    == o.constraints_spec()
                &&& !both ==> n.constraints_spec().last().satisfied() == fi
            }),
    {
        let mode = Mode::witness_mode(&[&a, &b]);
        let a_minus_b = a.sub(&b);
        let ghost o = self.r1cs;
        let ghost x = sub_mod(a.val(), b.val());
        proof {
            a.lemma_val_bound();
            b.lemma_val_bound();
            assert(a_minus_b.is_const() == same_terms(a, b)) by {
                if !a_minus_b.is_const() {
                    let k = a_minus_b.entries()[0].0;
                    assert(a_minus_b.has_var(k));
                }
                if !same_terms(a, b) {
                    let k = choose|k: VariableKey| !((a.has_var(k) || b.has_var(k)) ==> a.has_var(k) && b.has_var(k) && a.coeff(k) == b.coeff(k));
                    assert(a_minus_b.has_var(k));
                }
            }
            assert(mode == Mode::Constant <==> (a.is_const() && b.is_const()));
        }
        let inverse = a_minus_b.value().inverse();
        let multiplier = match inverse {
            Some(inverse) => {
                let v = self.new_variable(mode, inverse);
                LinearCombination::from_variable(&v)
            },
            None => Circuit::zero(),
        };
        let one = Circuit::one();
        let ghost mid = self.r1cs;
        proof {
            vstd::arithmetic::div_mod::lemma_small_mod(1, modulus());
        }
        self.enforce(a_minus_b, multiplier, one);
        proof {
            let n = self.r1cs;
            assert(mid.constants_spec().take(o.constants_spec().len() as int) =~= o.constants_spec());
            assert(mid.private_spec().take(o.private_spec().len() as int) =~= o.private_spec());
            assert(n.constraints_spec().take(o.constraints_spec().len() as int) =~= o.constraints_spec());
            match inverse {
                Some(i) => {
                    assert(multiplier.val() == fermat_inverse(x));
                },
                None => {
                    assert(multiplier.val() == 0);
                    assert(x * 0 == 0);
                    vstd::arithmetic::div_mod::lemma_small_mod(0, modulus());
                },
            }
        }
    }

    /// Returns a new witness of the given mode and value: the value injected as a circuit.
    pub fn new_witness<T: Inject>(&mut self, mode: Mode, value: T::Primitive) -> (r: T)
        requires
            old(self).wf(),
            old(self).state().room(4),
        ensures
            final(self).wf(),
            T::injects(old(self).state(), final(self).state(), mode, value, r),
    {
        T::new(mode, value, self)
    }

    /// Returns the number of constants in the entire environment.
    pub fn num_constants(&self) -> (r: u64)
        requires
            self.wf(),
        ensures
            r == self.state().constants_spec().len(),
    {
        self.r1cs.num_constants()
    }

    /// Returns the number of public variables in the entire environment.
    pub fn num_public(&self) -> (r: u64)
        requires
            self.wf(),
        ensures
            r == self.state().public_spec().len(),
    {
        self.r1cs.num_public()
    }

    /// Returns the number of private variables in the entire environment.
    pub fn num_private(&self) -> (r: u64)
        requires
            self.wf(),
        ensures
            r == self.state().private_spec().len(),
    {
        self.r1cs.num_private()
    }

    /// Returns the number of constraints in the entire environment.
    pub fn num_constraints(&self) -> (r: u64)
        requires
            self.wf(),
        ensures
            r == self.state().constraints_spec().len(),
    {
        self.r1cs.num_constraints()
    }

    /// Returns the number of gates in the entire environment.
    pub fn num_gates(&self) -> (r: u64)
        ensures
            r == self.state().gates_spec(),
    {
        self.r1cs.num_gates()
    }

    /// Returns the numbers of constants, public variables, private variables, constraints,
    /// and gates in the entire environment.
    pub fn count(&self) -> (r: (u64, u64, u64, u64, u64))
        requires
            self.wf(),
        ensures
            r.0 == self.state().constants_spec().len(),
            r.1 == self.state().public_spec().len(),
            r.2 == self.state().private_spec().len(),
            r.3 == self.state().constraints_spec().len(),
            r.4 == self.state().gates_spec(),
    {
        (
            self.num_constants(),
            self.num_public(),
            self.num_private(),
            self.num_constraints(),
            self.num_gates(),
        )
    }

    /// Returns the number of constants for the current scope.
    pub fn num_constants_in_scope(&self) -> (r: u64)
        ensures
            r == self.state().counter_spec().current.constants,
    {
        self.r1cs.num_constants_in_scope()
    }

    /// Returns the number of public variables for the current scope.
    pub fn num_public_in_scope(&self) -> (r: u64)
        ensures
            r == self.state().counter_spec().current.public,
    {
        self.r1cs.num_public_in_scope()
    }

    /// Returns the number of private variables for the current scope.
    pub fn num_private_in_scope(&self) -> (r: u64)
        ensures
            r == self.state().counter_spec().current.private,
    {
        self.r1cs.num_private_in_scope()
    }

    /// Returns the number of constraints for the current scope.
    pub fn num_constraints_in_scope(&self) -> (r: u64)
        requires
            self.wf(),
        ensures
            r == self.state().counter_spec().current.constraints.len(),
    {
        self.r1cs.num_constraints_in_scope()
    }

    /// Returns the number of gates for the current scope.
    pub fn num_gates_in_scope(&self) -> (r: u64)
        ensures
            r == self.state().counter_spec().current.gates,
    {
        self.r1cs.num_gates_in_scope()
    }

    /// Returns the numbers of constants, public variables, private variables, constraints,
    /// and gates for the current scope.
    pub fn count_in_scope(&self) -> (r: (u64, u64, u64, u64, u64))
        requires
            self.wf(),
        ensures
            r.0 == self.state().counter_spec().current.constants,
            r.1 == self.state().counter_spec().current.public,
            r.2 == self.state().counter_spec().current.private,
            r.3 == self.state().counter_spec().current.constraints.len(),
            r.4 == self.state().counter_spec().current.gates,
    {
        (
            self.num_constants_in_scope(),
            self.num_public_in_scope(),
            self.num_private_in_scope(),
            self.num_constraints_in_scope(),
            self.num_gates_in_scope(),
        )
    }

    /// Returns the current scope: the names of the open scopes joined by periods.
    pub fn scope(&self) -> (r: String)
        ensures
            r@ == join_names(self.state().counter_spec().names),
    {
        self.r1cs.scope()
    }

    /// Takes the given constraint system into an environment that holds nothing yet, and
    /// leaves the environment reset: empty, with no gates and no open scope.
    pub fn inject_r1cs(&mut self, r1cs: R1CS)
        requires
            old(self).wf(),
            is_empty_system(old(self).state()),
            r1cs.wf(),
        ensures
            final(self).wf(),
            is_empty_system(final(self).state()),
            final(self).state().gates_spec() == 0,
            final(self).state().counter_spec().names.len() == 0,
    {
        self.r1cs = r1cs;
        self.reset();
    }

    /// Returns the constraint system of the environment, leaving it empty.
    pub fn eject_r1cs_and_reset(&mut self) -> (r: R1CS)
        ensures
            r == old(self).state(),
            final(self).wf(),
            is_empty_system(final(self).state()),
            final(self).state().gates_spec() == 0,
            final(self).state().counter_spec().names.len() == 0,
    {
        let mut fresh = R1CS::new();
        core::mem::swap(&mut self.r1cs, &mut fresh);
        fresh
    }

    /// Returns the assignment of the constraint system of the environment, leaving it
    /// empty.
    pub fn eject_assignment_and_reset(&mut self) -> (r: Assignment)
        requires
            old(self).wf(),
        ensures
            r.public_spec() == indexed(old(self).state().public_spec()),
            r.private_spec() == indexed(old(self).state().private_spec()),
            constraints_assigned(r.constraints_spec(), old(self).state().constraints_spec()),
            final(self).wf(),
            is_empty_system(final(self).state()),
    {
        let r1cs = self.eject_r1cs_and_reset();
        Assignment::from_r1cs(r1cs)
    }

    /// Clears the environment, leaving it empty.
    pub fn reset(&mut self)
        ensures
            final(self).wf(),
            is_empty_system(final(self).state()),
            final(self).state().gates_spec() == 0,
            final(self).state().counter_spec().names.len() == 0,
    {
        self.r1cs = R1CS::new();
    }

    /// The environment as text: that of its constraint system.
    pub fn to_string(&self) -> (r: String)
        ensures
            r@ == constraints_text(self.state().constraints_spec()) + "\n"@,
    {
        self.r1cs.to_string()
    }

    /// Returns `true` if all constraints in the environment are satisfied.
    pub fn is_satisfied(&self) -> (r: bool)
        ensures
            r == self.state().satisfied(),
    {
        self.r1cs.is_satisfied()
    }

    /// Returns `true` if all constraints in the current scope are satisfied.
    pub fn is_satisfied_in_scope(&self) -> (r: bool)
        requires
            self.wf(),
        ensures
            r == forall|j: int|
                0 <= j < self.state().counter_spec().current.constraints.len() ==> (
                #[trigger] self.state().constraints_spec()[self.state().counter_spec().current.constraints[j] as int]).satisfied(),
    {
        self.r1cs.is_satisfied_in_scope()
    }
}

} // verus!
