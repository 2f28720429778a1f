//! Scopes of a constraint system: a stack of named scopes, each counting the constants,
//! public and private variables, constraints and gates created while it is the innermost.

use vstd::prelude::*;

verus! {

/// Why a scope could not be entered or left.
#[derive(Clone, Copy, Debug, PartialEq, Eq, Structural)]
pub enum ScopeError {
    /// A scope name may not contain a period.
    InvalidName,
    /// The name does not match the innermost scope.
    MismatchedScope,
}

/// What is saved of an enclosing scope while an inner one is open.
pub struct SavedScope {
    constraints: Vec<usize>,
    constants: u64,
    public: u64,
    private: u64,
    gates: u64,
}

/// The counts of one scope.
pub struct ScopeCounts {
    pub constraints: Seq<usize>,
    pub constants: nat,
    pub public: nat,
    pub private: nat,
    pub gates: nat,
}

/// The state of the scope stack: the names of the open scopes, outermost first; the
/// counts of the innermost; and those saved of each enclosing one.
pub struct CounterView {
    pub names: Seq<Seq<char>>,
    pub current: ScopeCounts,
    pub saved: Seq<ScopeCounts>,
}

/// The counts of a fresh scope.
pub open spec fn empty_counts() -> ScopeCounts {
    ScopeCounts {
        constraints: Seq::empty(),
        constants: 0,
        public: 0,
        private: 0,
        gates: 0,
    }
}

/// Whether a scope name holds a period.
pub open spec fn has_period(name: Seq<char>) -> bool {
    exists|i: int| 0 <= i < name.len() && name[i] == '.'
}

impl CounterView {
    /// The state after entering the scope `name`.
    pub open spec fn pushed(self, name: Seq<char>) -> CounterView {
        CounterView {
            names: self.names.push(name),
            current: empty_counts(),
            saved: self.saved.push(self.current),
        }
    }

    /// The state after leaving the innermost scope.
    pub open spec fn popped(self) -> CounterView {
        CounterView {
            names: self.names.drop_last(),
            current: self.saved.last(),
            saved: self.saved.drop_last(),
        }
    }

    /// The state with one more constant in the current scope.
    pub open spec fn with_constant(self) -> CounterView {
        CounterView {
            current: ScopeCounts { constants: self.current.constants + 1, ..self.current },
            ..self
        }
    }

    /// The state with one more public variable in the current scope.
    pub open spec fn with_public(self) -> CounterView {
        CounterView { current: ScopeCounts { public: self.current.public + 1, ..self.current }, ..self }
    }

    /// The state with one more private variable in the current scope.
    pub open spec fn with_private(self) -> CounterView {
        CounterView {
            current: ScopeCounts { private: self.current.private + 1, ..self.current },
            ..self
        }
    }

    /// The state with one more constraint, the one at index `c`, of `g` gates, in the current
    /// scope.
    pub open spec fn with_constraint(self, c: usize, g: nat) -> CounterView {
        CounterView {
            current: ScopeCounts {
                constraints: self.current.constraints.push(c),
                gates: self.current.gates + g,
                ..self.current
            },
            ..self
        }
    }

    /// As many saved counts as open scopes.
    pub open spec fn valid(self) -> bool {
        self.names.len() == self.saved.len()
    }
}

/// Leaving a scope right after entering it restores the state before.
pub proof fn lemma_pop_after_push(c: CounterView, name: Seq<char>)
    requires
        c.valid(),
    ensures
        c.pushed(name).valid(),
        c.pushed(name).popped() == c,
{
    assert(c.pushed(name).popped().names =~= c.names);
    assert(c.pushed(name).popped().saved =~= c.saved);
}

/// Leaving a scope restores the enclosing scope exactly, whatever was counted inside it.
pub proof fn lemma_pop_discards_inner(c: CounterView, name: Seq<char>, inner: CounterView)
    requires
        c.valid(),
        inner.names == c.pushed(name).names,
        inner.saved == c.pushed(name).saved,
    ensures
        inner.popped() == c,
{
    assert(inner.popped().names =~= c.names);
    assert(inner.popped().saved =~= c.saved);
}

/// The scope stack of a constraint system.
pub struct Counter {
    names: Vec<String>,
    constraints: Vec<usize>,
    constants: u64,
    public: u64,
    private: u64,
    gates: u64,
    parents: Vec<SavedScope>,
}

impl SavedScope {
    pub closed spec fn counts(self) -> ScopeCounts {
        ScopeCounts {
            constraints: self.constraints@,
            constants: self.constants as nat,
            public: self.public as nat,
            private: self.private as nat,
            gates: self.gates as nat,
        }
    }
}

/// Every count of `s` is at most the given bounds.
pub open spec fn counts_within(s: ScopeCounts, c: nat, pb: nat, pr: nat, n: nat, g: nat) -> bool {
    &&& s.constants <= c
    &&& s.public <= pb
    &&& s.private <= pr
    &&& s.constraints.len() <= n
    &&& s.gates <= g
}

impl View for Counter {
    type V = CounterView;

    closed spec fn view(&self) -> CounterView {
        CounterView {
            names: self.names@.map_values(|s: String| s@),
            current: ScopeCounts {
                constraints: self.constraints@,
                constants: self.constants as nat,
                public: self.public as nat,
                private: self.private as nat,
                gates: self.gates as nat,
            },
            saved: self.parents@.map_values(|p: SavedScope| p.counts()),
        }
    }
}

impl Counter {
    /// Every count, current or saved, is within the given bounds.
    pub open spec fn within(self, c: nat, pb: nat, pr: nat, n: nat, g: nat) -> bool {
        &&& counts_within(self@.current, c, pb, pr, n, g)
        &&& forall|i: int|
            0 <= i < self@.saved.len() ==> counts_within(#[trigger] self@.saved[i], c, pb, pr, n, g)
    }

    /// An empty scope stack.
    pub fn new() -> (r: Counter)
        ensures
            r@.names.len() == 0,
            r@.saved.len() == 0,
            r@.current == empty_counts(),
            r@.valid(),
    {
        let r = Counter {
            names: Vec::new(),
            constraints: Vec::new(),
            constants: 0,
            public: 0,
            private: 0,
            gates: 0,
            parents: Vec::new(),
        };
        proof {
            assert(r@.names =~= Seq::<Seq<char>>::empty());
            assert(r@.saved =~= Seq::<ScopeCounts>::empty());
            assert(r@.current.constraints =~= Seq::<usize>::empty());
        }
        r
    }

    /// Enters the scope `name`; refuses a name with a period.
    pub fn push(&mut self, name: &str) -> (r: Result<(), ScopeError>)
        requires
            old(self)@.valid(),
        ensures
            r is Err <==> has_period(name@),
            r is Err ==> *final(self) == *old(self),
            r is Ok ==> final(self)@ == old(self)@.pushed(name@),
            final(self)@.valid(),
            forall|c: nat, pb: nat, pr: nat, n: nat, g: nat|
                #[trigger] old(self).within(c, pb, pr, n, g) ==> final(self).within(c, pb, pr, n, g),
    {
        if contains_period(name) {
            return Err(ScopeError::InvalidName);
        }
        let ghost old_view = self@;
        let mut constraints: Vec<usize> = Vec::new();
        core::mem::swap(&mut constraints, &mut self.constraints);
        let saved = SavedScope {
            constraints,
            constants: self.constants,
            public: self.public,
            private: self.private,
            gates: self.gates,
        };
        assert(saved.counts() == old_view.current);
        let ghost old_parents = self.parents@;
        self.parents.push(saved);
        assert(self.parents@ =~= old_parents.push(saved));
        self.names.push(String::from_str(name));
        self.constants = 0;
        self.public = 0;
        self.private = 0;
        self.gates = 0;
        proof {
            assert(self@.names =~= old_view.names.push(name@));
            assert(self@.saved =~= old_view.saved.push(old_view.current));
            assert(self@.current.constraints =~= Seq::<usize>::empty());
        }
        Ok(())
    }

    /// Leaves the innermost scope, which must be named `name`.
    pub fn pop(&mut self, name: &str) -> (r: Result<(), ScopeError>)
        requires
            old(self)@.valid(),
        ensures
            r is Err <==> (old(self)@.names.len() == 0 || old(self)@.names.last() != name@),
            r is Err ==> *final(self) == *old(self),
            r is Ok ==> final(self)@ == old(self)@.popped(),
            final(self)@.valid(),
            forall|c: nat, pb: nat, pr: nat, n: nat, g: nat|
                #[trigger] old(self).within(c, pb, pr, n, g) ==> final(self).within(c, pb, pr, n, g),
    {
        let n = self.names.len();
        if n == 0 {
            return Err(ScopeError::MismatchedScope);
        }
        let matches = self.names[n - 1].eq(&String::from_str(name));
        if !matches {
            return Err(ScopeError::MismatchedScope);
        }
        let ghost old_view = self@;
        let ghost old_self = *self;
        let saved = self.parents.pop();
        let _ = self.names.pop();
        match saved {
            Some(saved) => {
                self.constraints = saved.constraints;
                self.constants = saved.constants;
                self.public = saved.public;
                self.private = saved.private;
                self.gates = saved.gates;
                proof {
                    assert(self@.names =~= old_view.names.drop_last());
                    assert(self@.saved =~= old_view.saved.drop_last());
                    assert(old_view.saved.last() == saved.counts());
                    assert forall|c: nat, pb: nat, pr: nat, n: nat, g: nat|
                        #[trigger] old_self.within(c, pb, pr, n, g) implies self.within(
                            c,
                            pb,
                            pr,
                            n,
                            g,
                        ) by {
                        assert(counts_within(old_view.saved[old_view.saved.len() - 1], c, pb, pr, n, g));
                        assert forall|i: int| 0 <= i < self@.saved.len() implies counts_within(
                            #[trigger] self@.saved[i],
                            c,
                            pb,
                            pr,
                            n,
                            g,
                        ) by {
                            assert(self@.saved[i] == old_view.saved[i]);
                        }
                    }
                }
            },
            None => {
                assert(false);
            },
        }
        Ok(())
    }

    /// The current scope: the names of the open scopes joined by periods.
    pub fn scope(&self) -> (r: String)
        ensures
            r@ == join_names(self@.names),
    {
        let mut out = String::new();
        let mut i: usize = 0;
        proof {
            assert(self@.names.take(0) =~= Seq::<Seq<char>>::empty());
        }
        while i < self.names.len()
            invariant
                0 <= i <= self.names@.len(),
                self@.names == self.names@.map_values(|s: String| s@),
                out@ == join_names(self@.names.take(i as int)),
            decreases self.names@.len() - i,
        {
            proof {
                assert(self@.names.take(i as int + 1).drop_last() =~= self@.names.take(i as int));
            }
            if i > 0 {
                out.append(".");
            }
            out.append(self.names[i].as_str());
            proof {
                reveal_strlit(".");
            }
            i = i + 1;
        }
        proof {
            assert(self@.names.take(self@.names.len() as int) =~= self@.names);
        }
        out
    }

    /// Records a new constant.
    pub fn increment_constant(&mut self)
        requires
            old(self)@.current.constants < u64::MAX,
        ensures
            final(self)@ == old(self)@.with_constant(),
            forall|c: nat, pb: nat, pr: nat, n: nat, g: nat|
                #[trigger] old(self).within(c, pb, pr, n, g) ==> final(self).within(c + 1, pb, pr, n, g),
    {
        let ghost old_self = *self;
        self.constants = self.constants + 1;
        proof {
            assert(self@.saved == old_self@.saved);
        }
    }

    /// Records a new public variable.
    pub fn increment_public(&mut self)
        requires
            old(self)@.current.public < u64::MAX,
        ensures
            final(self)@ == old(self)@.with_public(),
            forall|c: nat, pb: nat, pr: nat, n: nat, g: nat|
                #[trigger] old(self).within(c, pb, pr, n, g) ==> final(self).within(c, pb + 1, pr, n, g),
    {
        let ghost old_self = *self;
        self.public = self.public + 1;
        proof {
            assert(self@.saved == old_self@.saved);
        }
    }

    /// Records a new private variable.
    pub fn increment_private(&mut self)
        requires
            old(self)@.current.private < u64::MAX,
        ensures
            final(self)@ == old(self)@.with_private(),
            forall|c: nat, pb: nat, pr: nat, n: nat, g: nat|
                #[trigger] old(self).within(c, pb, pr, n, g) ==> final(self).within(c, pb, pr + 1, n, g),
    {
        let ghost old_self = *self;
        self.private = self.private + 1;
        proof {
            assert(self@.saved == old_self@.saved);
        }
    }

    /// Records the constraint at index `constraint`, of `gates` gates, in the current scope.
    pub fn add_constraint(&mut self, constraint: usize, gates: u64)
        requires
            old(self)@.current.gates + gates <= u64::MAX,
        ensures
            final(self)@ == old(self)@.with_constraint(constraint, gates as nat),
            forall|c: nat, pb: nat, pr: nat, n: nat, g: nat|
                #[trigger] old(self).within(c, pb, pr, n, g) ==> final(self).within(
                    c,
                    pb,
                    pr,
                    n + 1,
                    g + gates as nat,
                ),
    {
        let ghost old_self = *self;
        self.constraints.push(constraint);
        self.gates = self.gates + gates;
        proof {
            assert(self@.saved == old_self@.saved);
            assert(self@.current.constraints =~= old_self@.current.constraints.push(constraint));
        }
    }

    /// The indices of the constraints of the current scope.
    pub fn scope_constraints(&self) -> (r: &Vec<usize>)
        ensures
            r@ == self@.current.constraints,
    {
        &self.constraints
    }

    /// Returns the number of constants for the current scope.
    pub fn num_constants_in_scope(&self) -> (r: u64)
        ensures
            r == self@.current.constants,
    {
        self.constants
    }

    /// Returns the number of public variables for the current scope.
    pub fn num_public_in_scope(&self) -> (r: u64)
        ensures
            r == self@.current.public,
    {
        self.public
    }

    /// Returns the number of private variables for the current scope.
    pub fn num_private_in_scope(&self) -> (r: u64)
        ensures
            r == self@.current.private,
    {
        self.private
    }

    /// Returns the number of constraints for the current scope.
    pub fn num_constraints_in_scope(&self) -> (r: u64)
        ensures
            r == self@.current.constraints.len(),
    {
        self.constraints.len() as u64
    }

    /// Returns the number of gates for the current scope.
    pub fn num_gates_in_scope(&self) -> (r: u64)
        ensures
            r == self@.current.gates,
    {
        self.gates
    }
}

/// Whether `name` holds a period.
fn contains_period(name: &str) -> (r: bool)
    ensures
        r == has_period(name@),
{
    let len = name.unicode_len();
    let mut i: usize = 0;
    while i < len
        invariant
            0 <= i <= len,
            len == name@.len(),
            forall|j: int| 0 <= j < i ==> name@[j] != '.',
        decreases len - i,
    {
        if name.get_char(i) == '.' {
            return true;
        }
        i = i + 1;
    }
    false
}

/// The names joined by periods.
pub open spec fn join_names(names: Seq<Seq<char>>) -> Seq<char>
    decreases names.len(),
{
    if names.len() == 0 {
        Seq::empty()
    } else if names.len() == 1 {
        names[0]
    } else {
        join_names(names.drop_last()) + seq!['.'] + names.last()
    }
}

/// The scope path of open names: none gives the empty text, one gives that name, and
/// pushing a name onto open names extends their path by a period and the name.
pub proof fn lemma_scope_path_push(ns: Seq<Seq<char>>, x: Seq<char>)
    ensures
        join_names(Seq::<Seq<char>>::empty()) == Seq::<char>::empty(),
        ns.len() == 0 ==> join_names(ns.push(x)) == x,
        ns.len() > 0 ==> join_names(ns.push(x)) == join_names(ns) + seq!['.'] + x,
{
    assert(ns.push(x).drop_last() =~= ns);
    assert(ns.push(x).last() == x);
    if ns.len() == 0 {
        assert(ns.push(x)[0] == x);
    }
}

} // verus!
