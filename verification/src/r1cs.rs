//! A rank-1 constraint system: its variables, its constraints, and its scopes.

use crate::constraint::{all_satisfied, all_constraints_satisfied, constraints_text, Constraint};
use crate::counter::{counts_within, has_period, join_names, Counter, CounterView, ScopeError};
use crate::fp::Fp;
use crate::variable::Variable;
use vstd::prelude::*;

verus! {

/// Every constraint index recorded for a scope, open or saved, is below `n`.
pub open spec fn indices_below(v: CounterView, n: nat) -> bool {
    &&& forall|j: int| 0 <= j < v.current.constraints.len() ==> #[trigger] v.current.constraints[j] < n
    &&& forall|i: int, j: int|
        0 <= i < v.saved.len() && 0 <= j < v.saved[i].constraints.len() ==> #[trigger] v.saved[i].constraints[j]
            < n
}

/// A rank-1 constraint system.
pub struct R1CS {
    constants: Vec<Variable>,
    public: Vec<Variable>,
    private: Vec<Variable>,
    constraints: Vec<Constraint>,
    counter: Counter,
    gates: u64,
}

impl R1CS {
    /// The constants, in creation order.
    pub closed spec fn constants_spec(self) -> Seq<Variable> {
        self.constants@
    }

    /// The public variables, in index order; the first is the constant one.
    pub closed spec fn public_spec(self) -> Seq<Variable> {
        self.public@
    }

    /// The private variables, in index order.
    pub closed spec fn private_spec(self) -> Seq<Variable> {
        self.private@
    }

    /// The constraints, in the order they were enforced.
    pub closed spec fn constraints_spec(self) -> Seq<Constraint> {
        self.constraints@
    }

    /// The scope stack.
    pub closed spec fn counter_spec(self) -> CounterView {
        self.counter@
    }

    /// The number of gates of all constraints.
    pub closed spec fn gates_spec(self) -> nat {
        self.gates as nat
    }

    /// Every count of the whole system leaves room for `n` more.
    pub open spec fn room(self, n: nat) -> bool {
        &&& self.constants_spec().len() + n <= u64::MAX
        &&& self.public_spec().len() + n <= u64::MAX
        &&& self.private_spec().len() + n <= u64::MAX
        &&& self.constraints_spec().len() + n <= u64::MAX
        &&& self.gates_spec() + n <= u64::MAX
    }

    /// Every constraint holds.
    pub open spec fn satisfied(self) -> bool {
        all_satisfied(self.constraints_spec())
    }

    /// The variables are indexed by position, the first public variable is the constant
    /// one, and the counts of each scope are within those of the whole system.
    pub closed spec fn wf(self) -> bool {
        &&& self.counter@.valid()
        &&& self.constants@.len() <= u64::MAX
        &&& self.public@.len() <= u64::MAX
        &&& self.private@.len() <= u64::MAX
        &&& self.constraints@.len() <= u64::MAX
        &&& forall|i: int| 0 <= i < self.constants@.len() ==> (#[trigger] self.constants@[i]) is Constant
        &&& self.public@.len() >= 1
        &&& self.public@[0].val() == 1
        &&& forall|i: int|
            0 <= i < self.public@.len() ==> (#[trigger] self.public@[i]) is Public
                && self.public@[i].index_spec() == i
        &&& forall|i: int|
            0 <= i < self.private@.len() ==> (#[trigger] self.private@[i]) is Private
                && self.private@[i].index_spec() == i
        &&& indices_below(self.counter@, self.constraints@.len())
        &&& self.counter.within(
            self.constants@.len() as nat,
            self.public@.len() as nat,
            self.private@.len() as nat,
            self.constraints@.len() as nat,
            self.gates as nat,
        )
    }

    /// What a well-formed system guarantees of its public variables.
    pub proof fn lemma_wf(self)
        requires
            self.wf(),
        ensures
            self.public_spec().len() >= 1,
            self.public_spec()[0].val() == 1,
            self.public_spec()[0] is Public,
            self.public_spec()[0].index_spec() == 0,
            self.counter_spec().valid(),
            forall|i: int|
                0 <= i < self.public_spec().len() ==> (#[trigger] self.public_spec()[i]) is Public
                    && self.public_spec()[i].index_spec() == i,
            forall|i: int|
                0 <= i < self.private_spec().len() ==> (#[trigger] self.private_spec()[i]) is Private
                    && self.private_spec()[i].index_spec() == i,
            self.counter_spec().current.constants <= self.constants_spec().len(),
            self.counter_spec().current.public <= self.public_spec().len(),
            self.counter_spec().current.private <= self.private_spec().len(),
            self.counter_spec().current.constraints.len() <= self.constraints_spec().len(),
            self.counter_spec().current.gates <= self.gates_spec(),
    {
    }

    /// Returns a new instance of a constraint system, holding only the public constant one.
    pub fn new() -> (r: R1CS)
        ensures
            r.wf(),
            r.constants_spec().len() == 0,
            r.public_spec().len() == 1,
            r.private_spec().len() == 0,
            r.constraints_spec().len() == 0,
            r.gates_spec() == 0,
            r.counter_spec().names.len() == 0,
            r.counter_spec().current.constraints.len() == 0,
            r.counter_spec().current.constants == 0,
            r.counter_spec().current.public == 0,
            r.counter_spec().current.private == 0,
            r.counter_spec().current.gates == 0,
    {
        let mut public: Vec<Variable> = Vec::new();
        public.push(Variable::Public(0u64, Fp::one()));
        let r = R1CS {
            constants: Vec::new(),
            public,
            private: Vec::new(),
            constraints: Vec::new(),
            counter: Counter::new(),
            gates: 0,
        };
        proof {
            assert(r.counter@.saved.len() == 0);
        }
        r
    }

    /// Appends the given scope to the current environment.
    pub fn push_scope(&mut self, name: &str) -> (r: Result<(), ScopeError>)
        requires
            old(self).wf(),
        ensures
            final(self).wf(),
            r is Err <==> has_period(name@),
            r is Err ==> *final(self) == *old(self),
            r is Ok ==> final(self).counter_spec() == old(self).counter_spec().pushed(name@),
            final(self).constants_spec() == old(self).constants_spec(),
            final(self).public_spec() == old(self).public_spec(),
            final(self).private_spec() == old(self).private_spec(),
            final(self).constraints_spec() == old(self).constraints_spec(),
            final(self).gates_spec() == old(self).gates_spec(),
    {
        let ghost c = self.constants@.len() as nat;
        let ghost pb = self.public@.len() as nat;
        let ghost pr = self.private@.len() as nat;
        let ghost n = self.constraints@.len() as nat;
        let ghost g = self.gates as nat;
        assert(self.counter.within(c, pb, pr, n, g));
        let r = self.counter.push(name);
        proof {
            assert(self.counter.within(c, pb, pr, n, g));
            assert(self.counter@.valid());
            if r is Ok {
                assert(self.counter@.current.constraints =~= Seq::<usize>::empty());
                assert forall|i: int, j: int|
                    0 <= i < self.counter@.saved.len() && 0 <= j
                        < self.counter@.saved[i].constraints.len() implies #[trigger] self.counter@.saved[i].constraints[j]
                        < self.constraints@.len() by {
                    if i < self.counter@.saved.len() - 1 {
                        assert(self.counter@.saved[i] == old(self).counter@.saved[i]);
                    }
                }
            }
        }
        r
    }

    /// Removes the given scope from the current environment.
    pub fn pop_scope(&mut self, name: &str) -> (r: Result<(), ScopeError>)
        requires
            old(self).wf(),
        ensures
            final(self).wf(),
            r is Err <==> (old(self).counter_spec().names.len() == 0 || old(
                self,
            ).counter_spec().names.last() != name@),
            r is Err ==> *final(self) == *old(self),
            r is Ok ==> final(self).counter_spec() == old(self).counter_spec().popped(),
            final(self).constants_spec() == old(self).constants_spec(),
            final(self).public_spec() == old(self).public_spec(),
            final(self).private_spec() == old(self).private_spec(),
            final(self).constraints_spec() == old(self).constraints_spec(),
            final(self).gates_spec() == old(self).gates_spec(),
    {
        let ghost old_view = self.counter@;
        let r = self.counter.pop(name);
        proof {
            if r is Ok {
                assert(old_view.saved.len() > 0);
                assert forall|i: int, j: int|
                    0 <= i < self.counter@.saved.len() && 0 <= j
                        < self.counter@.saved[i].constraints.len() implies #[trigger] self.counter@.saved[i].constraints[j]
                        < self.constraints@.len() by {
                    assert(self.counter@.saved[i] == old_view.saved[i]);
                }
                assert forall|j: int| 0 <= j < self.counter@.current.constraints.len() implies #[trigger] self.counter@.current.constraints[j]
                        < self.constraints@.len() by {
                    assert(self.counter@.current == old_view.saved[old_view.saved.len() - 1]);
                }
                assert(counts_within(
                    old_view.saved[old_view.saved.len() - 1],
                    self.constants@.len() as nat,
                    self.public@.len() as nat,
                    self.private@.len() as nat,
                    self.constraints@.len() as nat,
                    self.gates as nat,
                ));
            }
        }
        r
    }

    /// Returns a new constant with the given value.
    pub fn new_constant(&mut self, value: Fp) -> (v: Variable)
        requires
            old(self).wf(),
            old(self).room(1),
        ensures
            final(self).wf(),
            v == Variable::Constant(value),
            final(self).constants_spec() == old(self).constants_spec().push(v),
            final(self).public_spec() == old(self).public_spec(),
            final(self).private_spec() == old(self).private_spec(),
            final(self).constraints_spec() == old(self).constraints_spec(),
            final(self).gates_spec() == old(self).gates_spec(),
            final(self).counter_spec() == old(self).counter_spec().with_constant(),
    {
        let variable = Variable::Constant(value);
        self.constants.push(variable);
        self.counter.increment_constant();
        proof {
            assert forall|i: int| 0 <= i < self.constants@.len() implies (
            #[trigger] self.constants@[i]) is Constant by {
                if i < self.constants@.len() - 1 {
                    assert(self.constants@[i] == old(self).constants@[i]);
                }
            }
        }
        variable
    }

    /// Returns a new public variable with the given value, indexed after the others.
    pub fn new_public(&mut self, value: Fp) -> (v: Variable)
        requires
            old(self).wf(),
            old(self).room(1),
        ensures
            final(self).wf(),
            v == Variable::Public(old(self).public_spec().len() as u64, value),
            final(self).public_spec() == old(self).public_spec().push(v),
            final(self).constants_spec() == old(self).constants_spec(),
            final(self).private_spec() == old(self).private_spec(),
            final(self).constraints_spec() == old(self).constraints_spec(),
            final(self).gates_spec() == old(self).gates_spec(),
            final(self).counter_spec() == old(self).counter_spec().with_public(),
    {
        let variable = Variable::Public(self.public.len() as u64, value);
        self.public.push(variable);
        self.counter.increment_public();
        proof {
            assert forall|i: int| 0 <= i < self.public@.len() implies (
            #[trigger] self.public@[i]) is Public && self.public@[i].index_spec() == i by {
                if i < self.public@.len() - 1 {
                    assert(self.public@[i] == old(self).public@[i]);
                }
            }
            assert(self.public@[0] == old(self).public@[0]);
        }
        variable
    }

    /// Returns a new private variable with the given value, indexed after the others.
    pub fn new_private(&mut self, value: Fp) -> (v: Variable)
        requires
            old(self).wf(),
            old(self).room(1),
        ensures
            final(self).wf(),
            v == Variable::Private(old(self).private_spec().len() as u64, value),
            final(self).private_spec() == old(self).private_spec().push(v),
            final(self).constants_spec() == old(self).constants_spec(),
            final(self).public_spec() == old(self).public_spec(),
            final(self).constraints_spec() == old(self).constraints_spec(),
            final(self).gates_spec() == old(self).gates_spec(),
            final(self).counter_spec() == old(self).counter_spec().with_private(),
    {
        let variable = Variable::Private(self.private.len() as u64, value);
        self.private.push(variable);
        self.counter.increment_private();
        proof {
            assert forall|i: int| 0 <= i < self.private@.len() implies (
            #[trigger] self.private@[i]) is Private && self.private@[i].index_spec() == i by {
                if i < self.private@.len() - 1 {
                    assert(self.private@[i] == old(self).private@[i]);
                }
            }
        }
        variable
    }

    /// Adds one constraint enforcing that `(A * B) == C`.
    pub fn enforce(&mut self, constraint: Constraint)
        requires
            old(self).wf(),
            old(self).room(1 + constraint.gates()),
        ensures
            final(self).wf(),
            final(self).constraints_spec() == old(self).constraints_spec().push(constraint),
            final(self).gates_spec() == old(self).gates_spec() + constraint.gates(),
            final(self).constants_spec() == old(self).constants_spec(),
            final(self).public_spec() == old(self).public_spec(),
            final(self).private_spec() == old(self).private_spec(),
            final(self).counter_spec() == old(self).counter_spec().with_constraint(
                old(self).constraints_spec().len() as usize,
                constraint.gates(),
            ),
    {
        let g = constraint.num_gates();
        let index = self.constraints.len();
        self.gates = self.gates + g;
        self.constraints.push(constraint);
        self.counter.add_constraint(index, g);
    }

    /// Returns `true` if all constraints in the environment are satisfied.
    pub fn is_satisfied(&self) -> (r: bool)
        ensures
            r == self.satisfied(),
    {
        all_constraints_satisfied(&self.constraints)
    }

    /// Returns `true` if all constraints in the current scope are satisfied.
    pub fn is_satisfied_in_scope(&self) -> (r: bool)
        requires
            self.wf(),
        ensures
            r == forall|j: int|
                0 <= j < self.counter_spec().current.constraints.len() ==> (
                #[trigger] self.constraints_spec()[self.counter_spec().current.constraints[j] as int]).satisfied(),
    {
        let indices = self.counter.scope_constraints();
        let mut j: usize = 0;
        while j < indices.len()
            invariant
                0 <= j <= indices@.len(),
                indices@ == self.counter@.current.constraints,
                indices_below(self.counter@, self.constraints@.len()),
                forall|k: int|
                    0 <= k < j ==> (#[trigger] self.constraints@[indices@[k] as int]).satisfied(),
            decreases indices@.len() - j,
        {
            let index = indices[j];
            if !self.constraints[index].is_satisfied() {
                proof {
                    assert(!(self.constraints_spec()[self.counter_spec().current.constraints[j as int] as int]).satisfied());
                }
                return false;
            }
            j = j + 1;
        }
        proof {
            assert forall|k: int| 0 <= k < self.counter_spec().current.constraints.len() implies (
            #[trigger] self.constraints_spec()[self.counter_spec().current.constraints[k] as int]).satisfied() by {
                assert(self.constraints@[indices@[k] as int].satisfied());
            }
        }
        true
    }

    /// Returns the current scope: the names of the open scopes joined by periods.
    pub fn scope(&self) -> (r: String)
        ensures
            r@ == join_names(self.counter_spec().names),
    {
        self.counter.scope()
    }

    /// Returns the number of constants in the constraint system.
    pub fn num_constants(&self) -> (r: u64)
        requires
            self.wf(),
        ensures
            r == self.constants_spec().len(),
    {
        self.constants.len() as u64
    }

    /// Returns the number of public variables in the constraint system.
    pub fn num_public(&self) -> (r: u64)
        requires
            self.wf(),
        ensures
            r == self.public_spec().len(),
    {
        self.public.len() as u64
    }

    /// Returns the number of private variables in the constraint system.
    pub fn num_private(&self) -> (r: u64)
        requires
            self.wf(),
        ensures
            r == self.private_spec().len(),
    {
        self.private.len() as u64
    }

    /// Returns the number of constraints in the constraint system.
    pub fn num_constraints(&self) -> (r: u64)
        requires
            self.wf(),
        ensures
            r == self.constraints_spec().len(),
    {
        self.constraints.len() as u64
    }

    /// Returns the number of gates in the constraint system.
    pub fn num_gates(&self) -> (r: u64)
        ensures
            r == self.gates_spec(),
    {
        self.gates
    }

    /// Returns the number of constants for the current scope.
    pub fn num_constants_in_scope(&self) -> (r: u64)
        ensures
            r == self.counter_spec().current.constants,
    {
        self.counter.num_constants_in_scope()
    }

    /// Returns the number of public variables for the current scope.
    pub fn num_public_in_scope(&self) -> (r: u64)
        ensures
            r == self.counter_spec().current.public,
    {
        self.counter.num_public_in_scope()
    }

    /// Returns the number of private variables for the current scope.
    pub fn num_private_in_scope(&self) -> (r: u64)
        ensures
            r == self.counter_spec().current.private,
    {
        self.counter.num_private_in_scope()
    }

    /// Returns the number of constraints for the current scope.
    pub fn num_constraints_in_scope(&self) -> (r: u64)
        requires
            self.wf(),
        ensures
            r == self.counter_spec().current.constraints.len(),
    {
        self.counter.num_constraints_in_scope()
    }

    /// Returns the number of gates for the current scope.
    pub fn num_gates_in_scope(&self) -> (r: u64)
        ensures
            r == self.counter_spec().current.gates,
    {
        self.counter.num_gates_in_scope()
    }

    /// Returns the public variables in the constraint system.
    pub fn to_public_variables(&self) -> (r: &Vec<Variable>)
        ensures
            r@ == self.public_spec(),
    {
        &self.public
    }

    /// Returns the private variables in the constraint system.
    pub fn to_private_variables(&self) -> (r: &Vec<Variable>)
        ensures
            r@ == self.private_spec(),
    {
        &self.private
    }

    /// Returns the constraints in the constraint system.
    pub fn to_constraints(&self) -> (r: &Vec<Constraint>)
        ensures
            r@ == self.constraints_spec(),
    {
        &self.constraints
    }
    /// The constraint system as text: the text of each constraint, then a newline.
    pub fn to_string(&self) -> (r: String)
        ensures
            r@ == constraints_text(self.constraints_spec()) + "\n"@,
    {
        let mut out = String::new();
        let mut i: usize = 0;
        while i < self.constraints.len()
            invariant
                0 <= i <= self.constraints@.len(),
                out@ == constraints_text(self.constraints@.take(i as int)),
            decreases self.constraints@.len() - i,
        {
            proof {
                assert(self.constraints@.take(i as int + 1).drop_last() =~= self.constraints@.take(
                    i as int,
                ));
            }
            let text = self.constraints[i].to_string();
            out.append(text.as_str());
            i = i + 1;
        }
        proof {
            assert(self.constraints@.take(self.constraints@.len() as int) =~= self.constraints@);
        }
        out.append("\n");
        out
    }
}

} // verus!
