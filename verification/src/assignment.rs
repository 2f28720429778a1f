//! The assignment of a constraint system: the values of its public and private variables
//! by index, and its constraints over variables named by kind and index alone.
//!
//! The variable values are kept in `indexmap::IndexMap`s from indices to values, and the
//! terms of each linear combination in one from variable keys to coefficients. Their
//! contents are named by `index_entries` and `term_entries`; the wrappers below state what
//! each `IndexMap` method does to them.

use crate::constraint::Constraint;
use crate::fp::Fp;
use crate::lc_lemmas::{has_key, keys_distinct, keys_wf};
use crate::linear_combination::LinearCombination;
use crate::r1cs::R1CS;
use crate::terms::{
    term_entries, terms_get_index, terms_index_of, terms_insert_new, terms_len, terms_new,
    terms_set_at, Terms,
};
use crate::variable::{key_wf, Index, Variable, VariableKey};
use indexmap::IndexMap;
use vstd::prelude::*;

verus! {

/// The index-value pairs of a map from indices to values, in insertion order.
pub uninterp spec fn index_entries(m: IndexMap<u64, Fp>) -> Seq<(u64, Fp)>;

/// The pairs `s` after inserting `(k, v)`: a pair with key `k` keeps its place and takes
/// the value `v`; otherwise the pair goes last.
pub open spec fn inserted<K, V>(s: Seq<(K, V)>, k: K, v: V) -> Seq<(K, V)> {
    if exists|i: int| 0 <= i < s.len() && #[trigger] s[i].0 == k {
        let i = choose|i: int| 0 <= i < s.len() && #[trigger] s[i].0 == k;
        s.update(i, (k, v))
    } else {
        s.push((k, v))
    }
}

/// `IndexMap::new`: an empty map.
#[verifier::external_body]
fn index_map_new() -> (m: IndexMap<u64, Fp>)
    ensures
        index_entries(m) == Seq::<(u64, Fp)>::empty(),
{
    IndexMap::new()
}

/// `IndexMap::insert`: an entry with key `k` keeps its place and takes the value `v`;
/// otherwise the pair goes last.
#[verifier::external_body]
fn index_map_insert(m: &mut IndexMap<u64, Fp>, k: u64, v: Fp)
    ensures
        index_entries(*final(m)) == inserted(index_entries(*old(m)), k, v),
{
    m.insert(k, v);
}

/// `IndexMap::len`: the number of entries.
#[verifier::external_body]
fn index_map_len(m: &IndexMap<u64, Fp>) -> (n: usize)
    ensures
        n == index_entries(*m).len(),
{
    m.len()
}

/// `IndexMap::get_index`: the entry at index `i`, copied out, if there is one.
#[verifier::external_body]
fn index_map_get_index(m: &IndexMap<u64, Fp>, i: usize) -> (r: Option<(u64, Fp)>)
    ensures
        i < index_entries(*m).len() ==> r == Some(index_entries(*m)[i as int]),
        i >= index_entries(*m).len() ==> r is None,
{
    m.get_index(i).map(|(k, v)| (*k, *v))
}

/// The key of a variable of the assignment: its kind and index, without its value.
pub open spec fn assignment_key(k: VariableKey) -> VariableKey {
    (k.0, k.1, [0u64, 0u64, 0u64, 0u64, 0u64, 0u64, 0u64, 0u64, 0u64, 0u64, 0u64, 0u64])
}

/// The terms of a linear combination of the assignment, from those of a linear
/// combination: each coefficient inserted in turn under the key of its variable.
pub open spec fn collected(s: Seq<(VariableKey, Fp)>) -> Seq<(VariableKey, Fp)>
    decreases s.len(),
{
    if s.len() == 0 {
        Seq::empty()
    } else {
        inserted(collected(s.drop_last()), assignment_key(s.last().0), s.last().1)
    }
}

/// Every key names a public (kind one) or a private (kind two) variable.
pub open spec fn kinds_wf(s: Seq<(VariableKey, Fp)>) -> bool {
    forall|i: int| 0 <= i < s.len() ==> (#[trigger] s[i]).0.0 == 1u8 || s[i].0.0 == 2u8
}

/// Every public variable of the terms has an index below `u64::MAX`, so that the next
/// index exists.
pub open spec fn public_indices_bounded(s: Seq<(VariableKey, Fp)>) -> bool {
    forall|i: int| 0 <= i < s.len() && (#[trigger] s[i]).0.0 == 1u8 ==> s[i].0.1 < u64::MAX
}

/// A term in a system whose public variable zero is the constant one: whether its variable
/// is public, its index there (a public index moves up by one, past the constant one), and
/// its coefficient.
pub open spec fn converted_term(e: (VariableKey, Fp)) -> (bool, u64, Fp) {
    if e.0.0 == 1u8 {
        (true, (e.0.1 + 1) as u64, e.1)
    } else {
        (false, e.0.1, e.1)
    }
}

/// Each pair after an insertion is the pair at its place before, or has the inserted key.
proof fn lemma_inserted_elems<K, V>(s: Seq<(K, V)>, k: K, v: V)
    ensures
        s.len() <= inserted(s, k, v).len(),
        forall|i: int|
            0 <= i < inserted(s, k, v).len() ==> (#[trigger] inserted(s, k, v)[i]).0 == k || (i
                < s.len() && inserted(s, k, v)[i] == s[i]),
{
}

/// The terms that insertion leaves keep the kinds of the keys that went in.
proof fn lemma_collected_kinds(s: Seq<(VariableKey, Fp)>)
    requires
        keys_wf(s),
    ensures
        kinds_wf(collected(s)),
    decreases s.len(),
{
    if s.len() > 0 {
        lemma_collected_kinds(s.drop_last());
        assert(key_wf(s[s.len() - 1].0));
        let c = collected(s.drop_last());
        let k = assignment_key(s.last().0);
        assert(collected(s) == inserted(c, k, s.last().1));
        assert(k.0 == 1u8 || k.0 == 2u8);
        lemma_inserted_elems(c, k, s.last().1);
        assert forall|i: int| 0 <= i < collected(s).len() implies (#[trigger] collected(s)[i]).0.0
            == 1u8 || collected(s)[i].0.0 == 2u8 by {
            if collected(s)[i].0 != k {
                assert(collected(s)[i] == c[i]);
            }
        }
    }
}

/// A linear combination of the assignment: a constant and coefficients of variables named
/// by kind and index.
pub struct AssignmentLC {
    constant: Fp,
    terms: Terms,
}

impl AssignmentLC {
    /// The constant term.
    pub closed spec fn constant_spec(self) -> Fp {
        self.constant
    }

    /// The terms, in order.
    pub closed spec fn entries(self) -> Seq<(VariableKey, Fp)> {
        term_entries(self.terms)
    }

    /// The linear combination `lc` with its variables named by kind and index.
    pub fn from_lc(lc: &LinearCombination) -> (r: AssignmentLC)
        ensures
            r.constant_spec()@ == lc.constant_val(),
            r.entries() == collected(lc.entries()),
            keys_distinct(r.entries()),
            kinds_wf(r.entries()),
    {
        let constant = lc.to_constant();
        let n = lc.len();
        let mut terms = terms_new();
        let mut i: usize = 0;
        proof {
            assert(lc.entries().take(0) =~= Seq::<(VariableKey, Fp)>::empty());
        }
        while i < n
            invariant
                0 <= i <= n,
                n == lc.num_terms(),
                term_entries(terms) == collected(lc.entries().take(i as int)),
                keys_distinct(term_entries(terms)),
            decreases n - i,
        {
            let (variable, coefficient) = lc.term_at(i);
            let k = variable.key();
            let key: VariableKey = (
                k.0,
                k.1,
                [0u64, 0u64, 0u64, 0u64, 0u64, 0u64, 0u64, 0u64, 0u64, 0u64, 0u64, 0u64],
            );
            let ghost before = term_entries(terms);
            proof {
                assert(lc.entries().take(i as int + 1).drop_last() =~= lc.entries().take(
                    i as int,
                ));
                assert(key == assignment_key(lc.entries()[i as int].0));
            }
            match terms_index_of(&terms, &key) {
                Some(j) => {
                    terms_set_at(&mut terms, j, coefficient);
                    proof {
                        assert(before[j as int].0 == key);
                        let c = choose|c: int| 0 <= c < before.len() && #[trigger] before[c].0 == key;
                        assert(c == j);
                        assert(term_entries(terms) =~= inserted(before, key, coefficient));
                        assert(keys_distinct(term_entries(terms))) by {
                            assert forall|a: int, b: int|
                                0 <= a < term_entries(terms).len() && 0 <= b < term_entries(
                                    terms,
                                ).len() && a != b implies term_entries(terms)[a].0
                                != term_entries(terms)[b].0 by {
                                assert(term_entries(terms)[a].0 == before[a].0);
                                assert(term_entries(terms)[b].0 == before[b].0);
                            }
                        }
                    }
                },
                None => {
                    terms_insert_new(&mut terms, key, coefficient);
                    proof {
                        assert(!(exists|c: int| 0 <= c < before.len() && #[trigger] before[c].0
                            == key));
                        assert(keys_distinct(term_entries(terms))) by {
                            assert forall|a: int, b: int|
                                0 <= a < term_entries(terms).len() && 0 <= b < term_entries(
                                    terms,
                                ).len() && a != b implies term_entries(terms)[a].0
                                != term_entries(terms)[b].0 by {
                                if a < before.len() {
                                    assert(term_entries(terms)[a] == before[a]);
                                }
                                if b < before.len() {
                                    assert(term_entries(terms)[b] == before[b]);
                                }
                            }
                        }
                    }
                },
            }
            i = i + 1;
        }
        proof {
            assert(lc.entries().take(n as int) =~= lc.entries());
            use_type_invariant(lc);
            lc.lemma_wf();
            lemma_collected_kinds(lc.entries());
        }
        AssignmentLC { constant, terms }
    }

    /// The terms in a system whose public variable zero is the constant one: each term in
    /// order, a public index moved up by one, and then the constant as the coefficient of
    /// public variable zero.
    pub open spec fn converted(self) -> Seq<(bool, u64, Fp)> {
        self.entries().map_values(|e: (VariableKey, Fp)| converted_term(e)).push(
            (true, 0u64, self.constant_spec()),
        )
    }

    /// The linear combination in a system whose public variable zero is the constant one:
    /// each term in order, a public index moved up by one, and then the constant as the
    /// coefficient of public variable zero.
    pub fn convert(&self) -> (r: Vec<(bool, u64, Fp)>)
        requires
            convertible(*self),
        ensures
            r@ == self.converted(),
    {
        let n = terms_len(&self.terms);
        let mut out: Vec<(bool, u64, Fp)> = Vec::new();
        let mut i: usize = 0;
        while i < n
            invariant
                0 <= i <= n,
                n == self.entries().len(),
                public_indices_bounded(self.entries()),
                out@ == self.entries().take(i as int).map_values(
                    |e: (VariableKey, Fp)| converted_term(e),
                ),
            decreases n - i,
        {
            let (key, coefficient) = match terms_get_index(&self.terms, i) {
                Some(e) => e,
                None => {
                    assert(false);
                    return out;
                },
            };
            proof {
                assert(self.entries()[i as int] == (key, coefficient));
            }
            if key.0 == 1u8 {
                out.push((true, key.1 + 1, coefficient));
            } else {
                out.push((false, key.1, coefficient));
            }
            proof {
                assert(self.entries().take(i as int + 1).map_values(
                    |e: (VariableKey, Fp)| converted_term(e),
                ) =~= self.entries().take(i as int).map_values(
                    |e: (VariableKey, Fp)| converted_term(e),
                ).push(converted_term((key, coefficient))));
            }
            i = i + 1;
        }
        out.push((true, 0u64, self.constant));
        proof {
            assert(self.entries().take(n as int) =~= self.entries());
        }
        out
    }
}

/// The values of the variables of a constraint system by index, and its constraints over
/// variables named by kind and index.
pub struct Assignment {
    public: IndexMap<u64, Fp>,
    private: IndexMap<u64, Fp>,
    constraints: Vec<(AssignmentLC, AssignmentLC, AssignmentLC)>,
}

/// The values of a map from indices to values, in order.
fn values_of(m: &IndexMap<u64, Fp>) -> (r: Vec<Fp>)
    ensures
        r@ == index_entries(*m).map_values(|e: (u64, Fp)| e.1),
{
    let n = index_map_len(m);
    let mut out: Vec<Fp> = Vec::new();
    let mut i: usize = 0;
    while i < n
        invariant
            0 <= i <= n,
            n == index_entries(*m).len(),
            out@ == index_entries(*m).take(i as int).map_values(|e: (u64, Fp)| e.1),
        decreases n - i,
    {
        let e = match index_map_get_index(m, i) {
            Some(e) => e,
            None => {
                assert(false);
                (0u64, Fp::zero())
            },
        };
        out.push(e.1);
        proof {
            assert(index_entries(*m).take(i as int + 1).map_values(|e: (u64, Fp)| e.1)
                =~= index_entries(*m).take(i as int).map_values(|e: (u64, Fp)| e.1).push(e.1));
        }
        i = i + 1;
    }
    proof {
        assert(index_entries(*m).take(n as int) =~= index_entries(*m));
    }
    out
}

/// The linear combination can be converted: every key names a public or private variable,
/// and every public index has a next one.
pub open spec fn convertible(lc: AssignmentLC) -> bool {
    &&& kinds_wf(lc.entries())
    &&& public_indices_bounded(lc.entries())
}

/// The constraints of an assignment are those of a system, in the same order: each linear
/// combination keeps its constant, and its terms are collected under variables named by
/// kind and index.
pub open spec fn constraints_assigned(
    t: Seq<(AssignmentLC, AssignmentLC, AssignmentLC)>,
    cs: Seq<Constraint>,
) -> bool {
    &&& t.len() == cs.len()
    &&& forall|j: int|
        0 <= j < t.len() ==> {
            let c = cs[j];
            let e = #[trigger] t[j];
            &&& e.0.constant_spec()@ == c.a_spec().constant_val()
            &&& e.0.entries() == collected(c.a_spec().entries())
            &&& e.1.constant_spec()@ == c.b_spec().constant_val()
            &&& e.1.entries() == collected(c.b_spec().entries())
            &&& e.2.constant_spec()@ == c.c_spec().constant_val()
            &&& e.2.entries() == collected(c.c_spec().entries())
        }
}

/// The index-value pairs of the given variables, in order.
pub open spec fn indexed(vars: Seq<Variable>) -> Seq<(u64, Fp)> {
    vars.map_values(|v: Variable| (v.index_spec(), v.value_spec()))
}

impl Assignment {
    /// The index-value pairs of the public variables.
    pub closed spec fn public_spec(self) -> Seq<(u64, Fp)> {
        index_entries(self.public)
    }

    /// The index-value pairs of the private variables.
    pub closed spec fn private_spec(self) -> Seq<(u64, Fp)> {
        index_entries(self.private)
    }

    /// The constraints.
    pub closed spec fn constraints_spec(self) -> Seq<(AssignmentLC, AssignmentLC, AssignmentLC)> {
        self.constraints@
    }

    /// The index-value pairs of variables indexed by their position.
    fn index_values(vars: &Vec<Variable>) -> (m: IndexMap<u64, Fp>)
        requires
            forall|i: int| 0 <= i < vars@.len() ==> (#[trigger] vars@[i]).index_spec() == i,
        ensures
            index_entries(m) == indexed(vars@),
    {
        let mut m = index_map_new();
        let mut i: usize = 0;
        while i < vars.len()
            invariant
                0 <= i <= vars@.len(),
                forall|j: int| 0 <= j < vars@.len() ==> (#[trigger] vars@[j]).index_spec() == j,
                index_entries(m) == indexed(vars@.take(i as int)),
            decreases vars@.len() - i,
        {
            let v = vars[i];
            let ghost before = index_entries(m);
            proof {
                assert forall|c: int| 0 <= c < before.len() implies #[trigger] before[c].0
                    != v.index_spec() by {
                    assert(before[c] == (vars@[c].index_spec(), vars@[c].value_spec()));
                }
            }
            index_map_insert(&mut m, v.index(), v.value());
            proof {
                assert(indexed(vars@.take(i as int + 1)) =~= before.push(
                    (v.index_spec(), v.value_spec()),
                ));
            }
            i = i + 1;
        }
        proof {
            assert(vars@.take(vars@.len() as int) =~= vars@);
        }
        m
    }

    /// The assignment of a constraint system: the values of its public and private
    /// variables by index, and its constraints with variables named by kind and index.
    pub fn from_r1cs(r1cs: R1CS) -> (r: Assignment)
        requires
            r1cs.wf(),
        ensures
            r.public_spec() == indexed(r1cs.public_spec()),
            r.private_spec() == indexed(r1cs.private_spec()),
            constraints_assigned(r.constraints_spec(), r1cs.constraints_spec()),
    {
        proof {
            R1CS::lemma_wf(r1cs);
        }
        let public = Assignment::index_values(r1cs.to_public_variables());
        let private = Assignment::index_values(r1cs.to_private_variables());
        let cs = r1cs.to_constraints();
        let mut constraints: Vec<(AssignmentLC, AssignmentLC, AssignmentLC)> = Vec::new();
        let mut i: usize = 0;
        while i < cs.len()
            invariant
                0 <= i <= cs@.len(),
                cs@ == r1cs.constraints_spec(),
                constraints@.len() == i,
                forall|j: int|
                    0 <= j < i ==> {
                        let c = cs@[j];
                        let t = #[trigger] constraints@[j];
                        &&& t.0.constant_spec()@ == c.a_spec().constant_val()
                        &&& t.0.entries() == collected(c.a_spec().entries())
                        &&& t.1.constant_spec()@ == c.b_spec().constant_val()
                        &&& t.1.entries() == collected(c.b_spec().entries())
                        &&& t.2.constant_spec()@ == c.c_spec().constant_val()
                        &&& t.2.entries() == collected(c.c_spec().entries())
                    },
            decreases cs@.len() - i,
        {
            let (a, b, c) = cs[i].to_terms();
            let triple = (AssignmentLC::from_lc(a), AssignmentLC::from_lc(b), AssignmentLC::from_lc(c));
            constraints.push(triple);
            i = i + 1;
        }
        Assignment { public, private, constraints }
    }

    /// Returns the values of the public inputs, in order.
    pub fn public_inputs(&self) -> (r: Vec<Fp>)
        ensures
            r@ == self.public_spec().map_values(|e: (u64, Fp)| e.1),
    {
        values_of(&self.public)
    }

    /// The plan by which the assignment is synthesized into a constraint system whose public
    /// variable zero is the constant one: the values of the public variables, allocated in
    /// order after it (so public index `i` becomes `i + 1`); the values of the private
    /// variables, allocated in order; and each constraint, in order, with its three linear
    /// combinations converted to that system's indexing.
    pub fn synthesis_plan(&self) -> (r: (
        Vec<Fp>,
        Vec<Fp>,
        Vec<(Vec<(bool, u64, Fp)>, Vec<(bool, u64, Fp)>, Vec<(bool, u64, Fp)>)>,
    ))
        requires
            forall|i: int| 0 <= i < self.public_spec().len() ==> #[trigger] self.public_spec()[i].0 == i,
            forall|i: int|
                0 <= i < self.private_spec().len() ==> #[trigger] self.private_spec()[i].0 == i,
            forall|j: int|
                0 <= j < self.constraints_spec().len() ==> {
                    let t = #[trigger] self.constraints_spec()[j];
                    &&& convertible(t.0)
                    &&& convertible(t.1)
                    &&& convertible(t.2)
                },
        ensures
            r.0@ == self.public_spec().map_values(|e: (u64, Fp)| e.1),
            r.1@ == self.private_spec().map_values(|e: (u64, Fp)| e.1),
            r.2@.len() == self.constraints_spec().len(),
            forall|j: int|
                0 <= j < r.2@.len() ==> {
                    let t = self.constraints_spec()[j];
                    let e = #[trigger] r.2@[j];
                    &&& e.0@ == t.0.converted()
                    &&& e.1@ == t.1.converted()
                    &&& e.2@ == t.2.converted()
                },
    {
        let public = values_of(&self.public);
        let private = values_of(&self.private);
        let mut constraints: Vec<(Vec<(bool, u64, Fp)>, Vec<(bool, u64, Fp)>, Vec<(bool, u64, Fp)>)> = Vec::new();
        let mut j: usize = 0;
        while j < self.constraints.len()
            invariant
                0 <= j <= self.constraints_spec().len(),
                constraints@.len() == j,
                forall|k: int|
                    0 <= k < self.constraints_spec().len() ==> {
                        let t = #[trigger] self.constraints_spec()[k];
                        &&& convertible(t.0)
                        &&& convertible(t.1)
                        &&& convertible(t.2)
                    },
                forall|k: int|
                    0 <= k < j ==> {
                        let t = self.constraints_spec()[k];
                        let e = #[trigger] constraints@[k];
                        &&& e.0@ == t.0.converted()
                        &&& e.1@ == t.1.converted()
                        &&& e.2@ == t.2.converted()
                    },
            decreases self.constraints_spec().len() - j,
        {
            let t = &self.constraints[j];
            proof {
                assert(convertible(self.constraints_spec()[j as int].0));
            }
            let a = t.0.convert();
            let b = t.1.convert();
            let c = t.2.convert();
            constraints.push((a, b, c));
            j = j + 1;
        }
        (public, private, constraints)
    }

    /// Returns the number of public variables in the assignment.
    pub fn num_public(&self) -> (r: u64)
        ensures
            r == self.public_spec().len(),
    {
        let n = index_map_len(&self.public);
        n as u64
    }

    /// Returns the number of private variables in the assignment.
    pub fn num_private(&self) -> (r: u64)
        ensures
            r == self.private_spec().len(),
    {
        let n = index_map_len(&self.private);
        n as u64
    }

    /// Returns the number of constraints in the assignment.
    pub fn num_constraints(&self) -> (r: u64)
        ensures
            r == self.constraints_spec().len(),
    {
        self.constraints.len() as u64
    }
}

/// Converting keeps every term, in order, with its own coefficient; a public variable stays
/// public with its index moved up by one, a private one keeps its index; and the constant
/// comes last, as the coefficient of public variable zero.
pub proof fn lemma_convert_keeps_terms(lc: AssignmentLC)
    requires
        convertible(lc),
    ensures
        lc.converted().len() == lc.entries().len() + 1,
        forall|i: int|
            0 <= i < lc.entries().len() ==> {
                let e = lc.entries()[i];
                let t = #[trigger] lc.converted()[i];
                &&& t.2 == e.1
                &&& t.0 == (e.0.0 == 1u8)
                &&& t.0 ==> t.1 == e.0.1 + 1
                &&& !t.0 ==> t.1 == e.0.1
            },
        lc.converted()[lc.entries().len() as int] == (true, 0u64, lc.constant_spec()),
{
    assert forall|i: int| 0 <= i < lc.entries().len() implies #[trigger] lc.entries()[i].0.0
        == 1u8 ==> lc.entries()[i].0.1 < u64::MAX by {}
}

} // verus!
