//! Rank-1 constraints `a * b == c` over linear combinations, tagged with their scope.

use crate::decimal::decimal;
use crate::fp::{modulus, Fp};
use crate::linear_combination::LinearCombination;
use vstd::prelude::*;

verus! {

/// The number of gates that one constraint with linear combinations `a`, `b`, `c` consumes:
/// one multiplication and the additions of each linear combination.
pub open spec fn additions_spec(lc: LinearCombination) -> nat {
    if lc.constant_val() != 0 && lc.num_terms() > 0 {
        lc.num_terms()
    } else if lc.num_terms() == 0 {
        0
    } else {
        (lc.num_terms() - 1) as nat
    }
}

/// The gates of the constraint `a * b == c`.
pub open spec fn gates_spec(a: LinearCombination, b: LinearCombination, c: LinearCombination) -> nat {
    1 + additions_spec(a) + additions_spec(b) + additions_spec(c)
}

/// Whether `a * b == c` holds under the assignment.
pub open spec fn satisfied_spec(
    a: LinearCombination,
    b: LinearCombination,
    c: LinearCombination,
) -> bool {
    (a.val() * b.val()) % modulus() == c.val()
}

/// The constraint `a * b == c`, enforced in the scope `scope`.
pub struct Constraint {
    scope: String,
    a: LinearCombination,
    b: LinearCombination,
    c: LinearCombination,
}

impl Constraint {
    /// The scope in which the constraint was enforced.
    pub closed spec fn scope_spec(self) -> Seq<char> {
        self.scope@
    }

    /// The left factor.
    pub closed spec fn a_spec(self) -> LinearCombination {
        self.a
    }

    /// The right factor.
    pub closed spec fn b_spec(self) -> LinearCombination {
        self.b
    }

    /// The product.
    pub closed spec fn c_spec(self) -> LinearCombination {
        self.c
    }

    /// Whether the constraint holds under the assignment.
    pub open spec fn satisfied(self) -> bool {
        satisfied_spec(self.a_spec(), self.b_spec(), self.c_spec())
    }

    /// The gates the constraint consumes.
    pub open spec fn gates(self) -> nat {
        gates_spec(self.a_spec(), self.b_spec(), self.c_spec())
    }

    /// The constraint `a * b == c` in the scope `scope`.
    pub fn new(scope: String, a: LinearCombination, b: LinearCombination, c: LinearCombination) -> (r:
        Constraint)
        ensures
            r.scope_spec() == scope@,
            r.a_spec() == a,
            r.b_spec() == b,
            r.c_spec() == c,
    {
        Constraint { scope, a, b, c }
    }

    /// A copy of the constraint.
    pub fn duplicate(&self) -> (r: Constraint)
        ensures
            r.scope_spec() == self.scope_spec(),
            r.a_spec().entries() == self.a_spec().entries(),
            r.a_spec().constant_val() == self.a_spec().constant_val(),
            r.a_spec().val() == self.a_spec().val(),
            r.b_spec().entries() == self.b_spec().entries(),
            r.b_spec().constant_val() == self.b_spec().constant_val(),
            r.b_spec().val() == self.b_spec().val(),
            r.c_spec().entries() == self.c_spec().entries(),
            r.c_spec().constant_val() == self.c_spec().constant_val(),
            r.c_spec().val() == self.c_spec().val(),
            r.satisfied() == self.satisfied(),
            r.gates() == self.gates(),
    {
        Constraint {
            scope: self.scope.clone(),
            a: self.a.duplicate(),
            b: self.b.duplicate(),
            c: self.c.duplicate(),
        }
    }

    /// Returns the number of gates consumed by this constraint.
    pub fn num_gates(&self) -> (r: u64)
        requires
            self.gates() <= u64::MAX,
        ensures
            r == self.gates(),
    {
        1 + self.a.num_additions() + self.b.num_additions() + self.c.num_additions()
    }

    /// Returns `true` if the constraint is satisfied.
    pub fn is_satisfied(&self) -> (r: bool)
        ensures
            r == self.satisfied(),
    {
        let a = self.a.value();
        let b = self.b.value();
        let c = self.c.value();
        a.mul(&b).equals(&c)
    }

    /// Returns a reference to the terms `(a, b, c)`.
    pub fn to_terms(&self) -> (r: (&LinearCombination, &LinearCombination, &LinearCombination))
        ensures
            *r.0 == self.a_spec(),
            *r.1 == self.b_spec(),
            *r.2 == self.c_spec(),
    {
        (&self.a, &self.b, &self.c)
    }

    /// The constraint as text: its scope, and `a * b == c` over the values, or `!=` with a
    /// note where it is not satisfied.
    pub fn to_string(&self) -> (r: String)
        ensures
            r@ == constraint_text(*self),
    {
        let satisfied = self.is_satisfied();
        let mut out = String::new();
        out.append("Constraint ");
        out.append(self.scope.as_str());
        out.append(":\n\t");
        let a = self.a.value().to_string();
        out.append(a.as_str());
        out.append(" * ");
        let b = self.b.value().to_string();
        out.append(b.as_str());
        if satisfied {
            out.append(" == ");
        } else {
            out.append(" != ");
        }
        let c = self.c.value().to_string();
        out.append(c.as_str());
        if satisfied {
            out.append("\n");
        } else {
            out.append(" (Unsatisfied)\n");
        }
        out
    }

    /// Returns the scope of the constraint.
    pub fn scope(&self) -> (r: &String)
        ensures
            r@ == self.scope_spec(),
    {
        &self.scope
    }
}

/// The text of a constraint: its scope, and `a * b == c` over the values, or `!=` with a
/// note where it is not satisfied.
pub open spec fn constraint_text(c: Constraint) -> Seq<char> {
    "Constraint "@ + c.scope_spec() + ":\n\t"@ + decimal(c.a_spec().val()) + " * "@ + decimal(
        c.b_spec().val(),
    ) + if c.satisfied() {
        " == "@
    } else {
        " != "@
    } + decimal(c.c_spec().val()) + if c.satisfied() {
        "\n"@
    } else {
        " (Unsatisfied)\n"@
    }
}

/// The texts of the constraints, one after the other.
pub open spec fn constraints_text(cs: Seq<Constraint>) -> Seq<char>
    decreases cs.len(),
{
    if cs.len() == 0 {
        Seq::empty()
    } else {
        constraints_text(cs.drop_last()) + constraint_text(cs.last())
    }
}

/// Whether every constraint holds.
pub open spec fn all_satisfied(cs: Seq<Constraint>) -> bool {
    forall|i: int| 0 <= i < cs.len() ==> (#[trigger] cs[i]).satisfied()
}

/// Returns `true` if every constraint in `constraints` is satisfied.
pub fn all_constraints_satisfied(constraints: &Vec<Constraint>) -> (r: bool)
    ensures
        r == all_satisfied(constraints@),
{
    let mut i: usize = 0;
    while i < constraints.len()
        invariant
            0 <= i <= constraints@.len(),
            forall|j: int| 0 <= j < i ==> (#[trigger] constraints@[j]).satisfied(),
        decreases constraints@.len() - i,
    {
        if !constraints[i].is_satisfied() {
            return false;
        }
        i = i + 1;
    }
    true
}

/// The text of a constraint ends with ` (Unsatisfied)` and a line break exactly when
/// `a * b == c` fails; where it holds, the text ends with the last digit of `c` and a line
/// break.
pub proof fn lemma_constraint_text_marks(c: Constraint)
    ensures
        ({
            let t = constraint_text(c);
            let u = " (Unsatisfied)\n"@;
            !c.satisfied() <==> (t.len() >= u.len() && t.subrange(t.len() - u.len(), t.len() as int)
                == u)
        }),
        ({
            let t = constraint_text(c);
            let n = ("Constraint "@ + c.scope_spec() + ":\n\t"@ + decimal(c.a_spec().val())
                + " * "@ + decimal(c.b_spec().val())).len();
            &&& n + 4 <= t.len()
            &&& c.satisfied() ==> t.subrange(n as int, n + 4int) == " == "@
            &&& !c.satisfied() ==> t.subrange(n as int, n + 4int) == " != "@
        }),
{
    let t = constraint_text(c);
    let u = " (Unsatisfied)\n"@;
    reveal_strlit(" (Unsatisfied)\n");
    reveal_strlit("\n");
    let head = "Constraint "@ + c.scope_spec() + ":\n\t"@ + decimal(c.a_spec().val()) + " * "@
        + decimal(c.b_spec().val()) + if c.satisfied() {
        " == "@
    } else {
        " != "@
    } + decimal(c.c_spec().val());
    let front = "Constraint "@ + c.scope_spec() + ":\n\t"@ + decimal(c.a_spec().val()) + " * "@
        + decimal(c.b_spec().val());
    let n = front.len() as int;
    reveal_strlit(" == ");
    reveal_strlit(" != ");
    let mid = if c.satisfied() {
        " == "@
    } else {
        " != "@
    };
    assert(head == front + mid + decimal(c.c_spec().val()));
    assert(t.subrange(n, n + 4) =~= mid);
    if c.satisfied() {
        assert(t == head + "\n"@);
        crate::decimal::lemma_decimal_value(c.c_spec().val());
        let d = decimal(c.c_spec().val());
        assert(head.len() >= d.len());
        assert(head[head.len() - 1] == d[d.len() - 1]);
        assert('0' <= d[d.len() - 1] <= '9');
        if t.len() >= u.len() && t.subrange(t.len() - u.len(), t.len() as int) == u {
            assert(t.subrange(t.len() - u.len(), t.len() as int)[13] == t[t.len() - 2]);
            assert(t[t.len() - 2] == head[head.len() - 1]);
            assert(u[13] == ')');
            assert(false);
        }
    } else {
        assert(t == head + u);
        assert(t.subrange(t.len() - u.len(), t.len() as int) =~= u);
    }
}

} // verus!
