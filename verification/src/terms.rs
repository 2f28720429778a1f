//! The terms of a linear combination, kept in an `indexmap::IndexMap` from variable
//! keys to coefficients, in insertion order.
//!
//! The contents of a map are named by `term_entries`: the key-coefficient pairs in
//! index order. The wrappers below state what each `IndexMap` method does to them.

use crate::fp::Fp;
use crate::variable::VariableKey;
use indexmap::IndexMap;
use vstd::prelude::*;

verus! {

#[verifier::external_type_specification]
#[verifier::external_body]
#[verifier::reject_recursive_types(K)]
#[verifier::reject_recursive_types(V)]
#[verifier::reject_recursive_types(S)]
pub struct ExIndexMap<K, V, S>(IndexMap<K, V, S>);

/// The map from variable keys to coefficients that a linear combination holds.
pub type Terms = IndexMap<VariableKey, Fp>;

/// The key-coefficient pairs of a map of terms, in index order.
pub uninterp spec fn term_entries(m: IndexMap<VariableKey, Fp>) -> Seq<(VariableKey, Fp)>;

/// The sequence with the entry at `i` replaced by the last one, and the last one dropped:
/// what `IndexMap::swap_remove_index` leaves.
pub open spec fn swap_removed<T>(s: Seq<T>, i: int) -> Seq<T> {
    if i == s.len() - 1 {
        s.drop_last()
    } else {
        s.drop_last().update(i, s.last())
    }
}

/// `IndexMap::new`: an empty map.
#[verifier::external_body]
pub(crate) fn terms_new() -> (m: Terms)
    ensures
        term_entries(m) == Seq::<(VariableKey, Fp)>::empty(),
{
    IndexMap::new()
}

/// `IndexMap::clone`: a map with the same entries in the same order.
#[verifier::external_body]
pub(crate) fn terms_clone(m: &Terms) -> (c: Terms)
    ensures
        term_entries(c) == term_entries(*m),
{
    m.clone()
}

/// `IndexMap::len`: the number of entries.
#[verifier::external_body]
pub(crate) fn terms_len(m: &Terms) -> (n: usize)
    ensures
        n == term_entries(*m).len(),
{
    m.len()
}

/// `IndexMap::get_index`: the entry at index `i`, copied out, if there is one.
#[verifier::external_body]
pub(crate) fn terms_get_index(m: &Terms, i: usize) -> (r: Option<(VariableKey, Fp)>)
    ensures
        i < term_entries(*m).len() ==> r == Some(term_entries(*m)[i as int]),
        i >= term_entries(*m).len() ==> r is None,
{
    m.get_index(i).map(|(k, v)| (*k, *v))
}

/// `IndexMap::get_index_of`: the index of an entry whose key is `k`, if there is one.
#[verifier::external_body]
pub(crate) fn terms_index_of(m: &Terms, k: &VariableKey) -> (r: Option<usize>)
    ensures
        r matches Some(i) ==> i < term_entries(*m).len() && term_entries(*m)[i as int].0 == *k,
        r is None ==> forall|i: int|
            0 <= i < term_entries(*m).len() ==> #[trigger] term_entries(*m)[i].0 != *k,
{
    m.get_index_of(k)
}

/// `IndexMap::insert` of a key that no entry holds: the pair goes last.
#[verifier::external_body]
pub(crate) fn terms_insert_new(m: &mut Terms, k: VariableKey, v: Fp)
    requires
        forall|i: int|
            0 <= i < term_entries(*old(m)).len() ==> #[trigger] term_entries(*old(m))[i].0 != k,
    ensures
        term_entries(*final(m)) == term_entries(*old(m)).push((k, v)),
{
    m.insert(k, v);
}

/// Assignment through `IndexMap`'s `IndexMut<usize>`: the coefficient at index `i`
/// becomes `v`, and the key and order stay.
#[verifier::external_body]
pub(crate) fn terms_set_at(m: &mut Terms, i: usize, v: Fp)
    requires
        i < term_entries(*old(m)).len(),
    ensures
        term_entries(*final(m)) == term_entries(*old(m)).update(
            i as int,
            (term_entries(*old(m))[i as int].0, v),
        ),
{
    m[i] = v;
}

/// `IndexMap::swap_remove_index`: the entry at `i` leaves, and the last entry takes its
/// place.
#[verifier::external_body]
pub(crate) fn terms_swap_remove_at(m: &mut Terms, i: usize) -> (r: Option<(VariableKey, Fp)>)
    requires
        i < term_entries(*old(m)).len(),
    ensures
        r == Some(term_entries(*old(m))[i as int]),
        term_entries(*final(m)) == swap_removed(term_entries(*old(m)), i as int),
{
    m.swap_remove_index(i)
}

} // verus!
