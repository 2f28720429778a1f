//! Diagnostic text of variables and linear combinations: their kinds, indices, values and
//! coefficients, with the terms in variable order.

use crate::decimal::decimal;
use crate::fp::Fp;
use crate::linear_combination::LinearCombination;
use crate::variable::{key_val, key_wf, Variable, VariableKey};
use vstd::prelude::*;

verus! {

/// The text of a variable: its kind, index where it has one, and value.
pub open spec fn variable_text(v: Variable) -> Seq<char> {
    match v {
        Variable::Constant(x) => "Constant("@ + decimal(x@) + ")"@,
        Variable::Public(i, x) => "Public("@ + decimal(i as nat) + ", "@ + decimal(x@) + ")"@,
        Variable::Private(i, x) => "Private("@ + decimal(i as nat) + ", "@ + decimal(x@) + ")"@,
    }
}

/// The text of the public or private variable with key `k`.
pub open spec fn key_text(k: VariableKey) -> Seq<char> {
    (if k.0 == 1 {
        "Public("@
    } else {
        "Private("@
    }) + decimal(k.1 as nat) + ", "@ + decimal(key_val(k)) + ")"@
}

/// The text of one term: ` + v` for a coefficient of one, ` + c * v` otherwise.
pub open spec fn term_text(e: (VariableKey, Fp)) -> Seq<char> {
    if e.1@ == 1 {
        " + "@ + key_text(e.0)
    } else {
        " + "@ + decimal(e.1@) + " * "@ + key_text(e.0)
    }
}

/// The texts of the terms, one after the other.
pub open spec fn terms_text(s: Seq<(VariableKey, Fp)>) -> Seq<char>
    decreases s.len(),
{
    if s.len() == 0 {
        Seq::empty()
    } else {
        terms_text(s.drop_last()) + term_text(s.last())
    }
}

/// The order of the variables of terms: public before private, then by index.
pub open spec fn key_lt(a: VariableKey, b: VariableKey) -> bool {
    a.0 < b.0 || (a.0 == b.0 && a.1 < b.1)
}

/// The terms are in variable order.
pub open spec fn keys_sorted(s: Seq<(VariableKey, Fp)>) -> bool {
    forall|i: int, j: int| 0 <= i < j < s.len() ==> !key_lt(#[trigger] s[j].0, #[trigger] s[i].0)
}

/// The text of a linear combination: its constant, then its terms in variable order.
pub open spec fn lc_text(lc: LinearCombination, text: Seq<char>) -> bool {
    exists|s: Seq<(VariableKey, Fp)>|
        {
            &&& #[trigger] keys_sorted(s)
            &&& s.to_multiset() == lc.entries().to_multiset()
            &&& text == "Constant("@ + decimal(lc.constant_val()) + ")"@ + terms_text(s)
        }
}

/// Inserting an element at any place adds it to the multiset of a sequence.
proof fn lemma_insert_multiset<A>(s: Seq<A>, p: int, x: A)
    requires
        0 <= p <= s.len(),
    ensures
        s.insert(p, x).to_multiset() =~= s.to_multiset().insert(x),
{
    broadcast use vstd::seq_lib::group_to_multiset_ensures;

    let a = s.take(p);
    let b = s.skip(p);
    assert(s.insert(p, x) =~= (a + seq![x]) + b);
    assert(s =~= a + b);
    vstd::seq_lib::lemma_multiset_commutative(a + seq![x], b);
    vstd::seq_lib::lemma_multiset_commutative(a, seq![x]);
    vstd::seq_lib::lemma_multiset_commutative(a, b);
    assert(seq![x] =~= Seq::<A>::empty().push(x));
    assert(Seq::<A>::empty().to_multiset() =~= vstd::multiset::Multiset::empty());
}

impl Variable {
    /// The variable as diagnostic text: its kind, index where it has one, and value.
    pub fn debug_string(&self) -> (r: String)
        ensures
            r@ == variable_text(*self),
    {
        let mut out = String::new();
        match self {
            Variable::Constant(x) => {
                out.append("Constant(");
            },
            Variable::Public(i, _) => {
                out.append("Public(");
                let index = Fp::from_u64(*i).to_string();
                out.append(index.as_str());
                out.append(", ");
            },
            Variable::Private(i, _) => {
                out.append("Private(");
                let index = Fp::from_u64(*i).to_string();
                out.append(index.as_str());
                out.append(", ");
            },
        }
        let value = self.value().to_string();
        out.append(value.as_str());
        out.append(")");
        out
    }
}

impl LinearCombination {
    /// The terms in variable order, stable among terms of equal order.
    fn sorted_entries(&self) -> (r: Vec<(VariableKey, Fp)>)
        ensures
            keys_sorted(r@),
            r@.to_multiset() == self.entries().to_multiset(),
            forall|i: int| 0 <= i < r@.len() ==> key_wf((#[trigger] r@[i]).0),
    {
        broadcast use vstd::seq_lib::group_to_multiset_ensures;

        let n = self.len();
        let mut out: Vec<(VariableKey, Fp)> = Vec::new();
        let mut i: usize = 0;
        proof {
            assert(self.entries().take(0) =~= Seq::<(VariableKey, Fp)>::empty());
        }
        while i < n
            invariant
                0 <= i <= n,
                n == self.num_terms(),
                keys_sorted(out@),
                out@.to_multiset() == self.entries().take(i as int).to_multiset(),
                forall|j: int| 0 <= j < out@.len() ==> key_wf((#[trigger] out@[j]).0),
            decreases n - i,
        {
            let (variable, coefficient) = self.term_at(i);
            let k = variable.key();
            let mut p: usize = 0;
            while p < out.len() && !(k.0 < out[p].0.0 || (k.0 == out[p].0.0 && k.1 < out[p].0.1))
                invariant
                    0 <= p <= out@.len(),
                    forall|j: int| 0 <= j < p ==> !key_lt(k, #[trigger] out@[j].0),
                decreases out@.len() - p,
            {
                p = p + 1;
            }
            let ghost before = out@;
            out.insert(p, (k, coefficient));
            proof {
                let x = (k, coefficient);
                assert(x == self.entries()[i as int]);
                lemma_insert_multiset(before, p as int, x);
                assert(self.entries().take(i as int + 1) =~= self.entries().take(i as int).push(x));
                vstd::seq_lib::to_multiset_build(self.entries().take(i as int), x);
                assert(out@ == before.insert(p as int, x));
                assert forall|a: int, b: int| 0 <= a < b < out@.len() implies !key_lt(
                    #[trigger] out@[b].0,
                    #[trigger] out@[a].0,
                ) by {
                    if b < p {
                        assert(out@[a] == before[a]);
                        assert(out@[b] == before[b]);
                    } else if a < p && b == p {
                        assert(out@[a] == before[a]);
                    } else if a < p && b > p {
                        assert(out@[a] == before[a]);
                        assert(out@[b] == before[b - 1]);
                    } else if a == p {
                        assert(out@[b] == before[b - 1]);
                        assert(key_lt(k, before[p as int].0));
                        if b - 1 > p {
                            assert(!key_lt(before[b - 1].0, before[p as int].0));
                        }
                    } else {
                        assert(out@[a] == before[a - 1]);
                        assert(out@[b] == before[b - 1]);
                    }
                }
                assert forall|j: int| 0 <= j < out@.len() implies key_wf((#[trigger] out@[j]).0) by {
                    if j < p {
                        assert(out@[j] == before[j]);
                    } else if j > p {
                        assert(out@[j] == before[j - 1]);
                    }
                }
            }
            i = i + 1;
        }
        proof {
            assert(self.entries().take(n as int) =~= self.entries());
        }
        out
    }

    /// The linear combination as diagnostic text: `Constant(c)`, then ` + v` or
    /// ` + k * v` for each term in variable order.
    pub fn debug_string(&self) -> (r: String)
        ensures
            lc_text(*self, r@),
    {
        let sorted = self.sorted_entries();
        let mut out = String::new();
        out.append("Constant(");
        let constant = self.to_constant().to_string();
        out.append(constant.as_str());
        out.append(")");
        let ghost head = out@;
        let mut i: usize = 0;
        proof {
            assert(sorted@.take(0) =~= Seq::<(VariableKey, Fp)>::empty());
        }
        while i < sorted.len()
            invariant
                0 <= i <= sorted@.len(),
                forall|j: int| 0 <= j < sorted@.len() ==> key_wf((#[trigger] sorted@[j]).0),
                out@ == head + terms_text(sorted@.take(i as int)),
            decreases sorted@.len() - i,
        {
            proof {
                assert(sorted@.take(i as int + 1).drop_last() =~= sorted@.take(i as int));
                assert(key_wf(sorted@[i as int].0));
            }
            let text = term_string(sorted[i]);
            out.append(text.as_str());
            i = i + 1;
        }
        proof {
            assert(sorted@.take(sorted@.len() as int) =~= sorted@);
            assert(keys_sorted(sorted@));
        }
        out
    }
}

/// The text of one term.
fn term_string(e: (VariableKey, Fp)) -> (r: String)
    requires
        key_wf(e.0),
    ensures
        r@ == term_text(e),
{
    let (k, c) = e;
    let mut out = String::new();
    out.append(" + ");
    if !c.is_one() {
        let coefficient = c.to_string();
        out.append(coefficient.as_str());
        out.append(" * ");
    }
    if k.0 == 1 {
        out.append("Public(");
    } else {
        out.append("Private(");
    }
    let index = Fp::from_u64(k.1).to_string();
    out.append(index.as_str());
    out.append(", ");
    let value = Variable::from_key(k).value().to_string();
    out.append(value.as_str());
    out.append(")");
    out
}

} // verus!
