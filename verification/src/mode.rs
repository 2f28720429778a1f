//! The visibility of a value in a circuit: constant, public input, or private witness.

use crate::linear_combination::LinearCombination;
use vstd::prelude::*;

verus! {

/// The visibility of a value in a circuit.
#[derive(Clone, Copy, Debug, PartialEq, Eq, Structural, Hash)]
pub enum Mode {
    Constant,
    Public,
    Private,
}

/// The place of a mode in the order `Constant < Public < Private`.
pub open spec fn mode_rank(m: Mode) -> nat {
    match m {
        Mode::Constant => 0,
        Mode::Public => 1,
        Mode::Private => 2,
    }
}

/// One step of `Mode::combine`: lift `current` to `next` when `next` is less visible.
pub open spec fn combine_step(current: Mode, next: Mode) -> Mode {
    if current != Mode::Private && current != next {
        match (current, next) {
            (Mode::Constant, Mode::Public) => next,
            (Mode::Constant, Mode::Private) => next,
            (Mode::Public, Mode::Private) => next,
            (_, _) => current,
        }
    } else {
        current
    }
}

/// `Mode::combine` of `start` and `modes`, taken left to right.
pub open spec fn combine_all(start: Mode, modes: Seq<Mode>) -> Mode
    decreases modes.len(),
{
    if modes.len() == 0 {
        start
    } else {
        combine_step(combine_all(start, modes.drop_last()), modes.last())
    }
}

/// The highest rank among `start` and `modes`.
pub open spec fn max_rank(start: Mode, modes: Seq<Mode>) -> nat
    decreases modes.len(),
{
    if modes.len() == 0 {
        mode_rank(start)
    } else {
        let r = max_rank(start, modes.drop_last());
        let q = mode_rank(modes.last());
        if r < q {
            q
        } else {
            r
        }
    }
}

impl Mode {
    /// Returns `true` if the mode is a constant.
    pub fn is_constant(&self) -> (r: bool)
        ensures
            r == (*self == Mode::Constant),
    {
        matches!(self, Mode::Constant)
    }

    /// Returns `true` if the mode is public.
    pub fn is_public(&self) -> (r: bool)
        ensures
            r == (*self == Mode::Public),
    {
        matches!(self, Mode::Public)
    }

    /// Returns `true` if the mode is private.
    pub fn is_private(&self) -> (r: bool)
        ensures
            r == (*self == Mode::Private),
    {
        matches!(self, Mode::Private)
    }

    /// The mode of a witness computed from the given linear combinations: constant when
    /// all of them are constants, and private otherwise.
    pub fn witness_mode(circuits: &[&LinearCombination]) -> (r: Mode)
        ensures
            r == if forall|i: int| 0 <= i < circuits@.len() ==> (#[trigger] circuits@[i]).is_const() {
                Mode::Constant
            } else {
                Mode::Private
            },
    {
        let mut i: usize = 0;
        while i < circuits.len()
            invariant
                0 <= i <= circuits@.len(),
                forall|j: int| 0 <= j < i ==> (#[trigger] circuits@[j]).is_const(),
            decreases circuits@.len() - i,
        {
            if !circuits[i].is_constant() {
                return Mode::Private;
            }
            i = i + 1;
        }
        Mode::Constant
    }

    /// Deduces the mode of a value computed from values of the given modes:
    /// start from `starting_mode` and lift to `Public` or `Private` as the modes require.
    pub fn combine(starting_mode: Mode, modes: &[Mode]) -> (r: Mode)
        ensures
            r == combine_all(starting_mode, modes@),
            r == least_visible(starting_mode, modes@),
            mode_rank(r) == max_rank(starting_mode, modes@),
    {
        let mut current_mode = starting_mode;
        let mut i: usize = 0;
        while i < modes.len()
            invariant
                0 <= i <= modes@.len(),
                current_mode == combine_all(starting_mode, modes@.take(i as int)),
            decreases modes@.len() - i,
        {
            let next_mode = modes[i];
            proof {
                assert(modes@.take(i as int + 1).drop_last() =~= modes@.take(i as int));
            }
            if !current_mode.is_private() && current_mode != next_mode {
                match (current_mode, next_mode) {
                    (Mode::Constant, Mode::Public)
                    | (Mode::Constant, Mode::Private)
                    | (Mode::Public, Mode::Private) => current_mode = next_mode,
                    (_, _) => {},
                }
            }
            i = i + 1;
        }
        proof {
            assert(modes@.take(modes@.len() as int) =~= modes@);
            lemma_combine_is_max(starting_mode, modes@);
            lemma_combine_is_least_visible(starting_mode, modes@);
        }
        current_mode
    }

    /// The mode of a boolean flag: constant for `true`, private for `false`.
    pub fn from_bool(v: bool) -> (r: Mode)
        ensures
            r == (if v {
                Mode::Constant
            } else {
                Mode::Private
            }),
    {
        if v {
            Mode::Constant
        } else {
            Mode::Private
        }
    }

    /// The lowercase name of the mode.
    pub fn name(&self) -> (r: &'static str)
        ensures
            r@ == (match *self {
                Mode::Constant => "constant"@,
                Mode::Public => "public"@,
                Mode::Private => "private"@,
            }),
    {
        match self {
            Mode::Constant => "constant",
            Mode::Public => "public",
            Mode::Private => "private",
        }
    }
}

/// Combining modes lifts the start to the least visible mode among all of them:
/// the combined mode has the highest rank in `Constant < Public < Private`.
pub proof fn lemma_combine_is_max(start: Mode, modes: Seq<Mode>)
    ensures
        mode_rank(combine_all(start, modes)) == max_rank(start, modes),
    decreases modes.len(),
{
    if modes.len() > 0 {
        lemma_combine_is_max(start, modes.drop_last());
    }
}

/// Appending a mode never lowers the combined mode, and the combined mode is at least
/// as high as the appended one.
pub proof fn lemma_combine_monotone(start: Mode, modes: Seq<Mode>, next: Mode)
    ensures
        mode_rank(combine_all(start, modes)) <= mode_rank(combine_all(start, modes.push(next))),
        mode_rank(next) <= mode_rank(combine_all(start, modes.push(next))),
{
    lemma_combine_is_max(start, modes);
    lemma_combine_is_max(start, modes.push(next));
    assert(modes.push(next).drop_last() =~= modes);
}

/// The least visible mode among `start` and `modes`: private where any of them is, else
/// public where any is, else constant.
pub open spec fn least_visible(start: Mode, modes: Seq<Mode>) -> Mode {
    if start == Mode::Private || modes.contains(Mode::Private) {
        Mode::Private
    } else if start == Mode::Public || modes.contains(Mode::Public) {
        Mode::Public
    } else {
        Mode::Constant
    }
}

/// Combining is taking the least visible mode.
pub proof fn lemma_combine_is_least_visible(start: Mode, modes: Seq<Mode>)
    ensures
        combine_all(start, modes) == least_visible(start, modes),
    decreases modes.len(),
{
    if modes.len() > 0 {
        let rest = modes.drop_last();
        lemma_combine_is_least_visible(start, rest);
        lemma_contains_push(rest, modes.last());
        assert(rest.push(modes.last()) =~= modes);
    }
}

/// A mode occurs in `s` pushed with `x` when it is `x` or occurs in `s`.
proof fn lemma_contains_push(s: Seq<Mode>, x: Mode)
    ensures
        forall|m: Mode| #[trigger] s.push(x).contains(m) <==> (m == x || s.contains(m)),
{
    assert forall|m: Mode| #[trigger] s.push(x).contains(m) <==> (m == x || s.contains(m)) by {
        if s.push(x).contains(m) {
            let i = choose|i: int| 0 <= i < s.push(x).len() && s.push(x)[i] == m;
            if i < s.len() {
                assert(s[i] == m);
            }
        }
        if s.contains(m) {
            let i = choose|i: int| 0 <= i < s.len() && s[i] == m;
            assert(s.push(x)[i] == m);
        }
        if m == x {
            assert(s.push(x)[s.len() as int] == m);
        }
    }
}

/// A mode occurs in `a + b` when it occurs in `a` or in `b`.
proof fn lemma_contains_concat(a: Seq<Mode>, b: Seq<Mode>)
    ensures
        forall|m: Mode| #[trigger] (a + b).contains(m) <==> (a.contains(m) || b.contains(m)),
{
    assert forall|m: Mode| #[trigger] (a + b).contains(m) <==> (a.contains(m) || b.contains(m)) by {
        if (a + b).contains(m) {
            let i = choose|i: int| 0 <= i < (a + b).len() && (a + b)[i] == m;
            if i < a.len() {
                assert(a[i] == m);
            } else {
                assert(b[i - a.len()] == m);
            }
        }
        if a.contains(m) {
            let i = choose|i: int| 0 <= i < a.len() && a[i] == m;
            assert((a + b)[i] == m);
        }
        if b.contains(m) {
            let i = choose|i: int| 0 <= i < b.len() && b[i] == m;
            assert((a + b)[a.len() + i] == m);
        }
    }
}

/// Combining ignores the order of the modes and how often each occurs: two lists in which
/// the same modes occur (a permutation of one another, say) combine alike.
pub proof fn lemma_combine_order_free(start: Mode, xs: Seq<Mode>, zs: Seq<Mode>)
    requires
        forall|m: Mode| #[trigger] xs.contains(m) <==> zs.contains(m),
    ensures
        combine_all(start, xs) == combine_all(start, zs),
{
    lemma_combine_is_least_visible(start, xs);
    lemma_combine_is_least_visible(start, zs);
    assert(xs.contains(Mode::Private) == zs.contains(Mode::Private));
    assert(xs.contains(Mode::Public) == zs.contains(Mode::Public));
}

/// Combining two modes is commutative.
pub proof fn lemma_combine_commutes(a: Mode, b: Mode)
    ensures
        combine_all(a, seq![b]) == combine_all(b, seq![a]),
{
    lemma_combine_is_least_visible(a, seq![b]);
    lemma_combine_is_least_visible(b, seq![a]);
    assert(seq![b].contains(b) && seq![a].contains(a)) by {
        assert(seq![b][0] == b);
        assert(seq![a][0] == a);
    }
}

/// Combining in two steps is combining the two lists joined.
pub proof fn lemma_combine_chains(start: Mode, xs: Seq<Mode>, ys: Seq<Mode>)
    ensures
        combine_all(combine_all(start, xs), ys) == combine_all(start, xs + ys),
{
    lemma_combine_is_least_visible(start, xs);
    lemma_combine_is_least_visible(combine_all(start, xs), ys);
    lemma_combine_is_least_visible(start, xs + ys);
    lemma_contains_concat(xs, ys);
    assert((xs + ys).contains(Mode::Private) == (xs.contains(Mode::Private) || ys.contains(
        Mode::Private,
    )));
    assert((xs + ys).contains(Mode::Public) == (xs.contains(Mode::Public) || ys.contains(
        Mode::Public,
    )));
}

/// Combining with nothing gives the start, and a constant start with one mode gives that
/// mode.
pub proof fn lemma_combine_identity(m: Mode)
    ensures
        combine_all(m, Seq::<Mode>::empty()) == m,
        combine_all(Mode::Constant, seq![m]) == m,
{
    lemma_combine_is_least_visible(Mode::Constant, seq![m]);
    assert(seq![m][0] == m);
    assert(seq![m].contains(m));
}

/// Private absorbs: a private start, or a private mode anywhere in the list, gives private.
pub proof fn lemma_combine_absorbs(start: Mode, modes: Seq<Mode>)
    ensures
        combine_all(Mode::Private, modes) == Mode::Private,
        modes.contains(Mode::Private) ==> combine_all(start, modes) == Mode::Private,
{
    lemma_combine_is_least_visible(Mode::Private, modes);
    lemma_combine_is_least_visible(start, modes);
}

/// Combining again with the same modes changes nothing.
pub proof fn lemma_combine_idempotent(start: Mode, modes: Seq<Mode>)
    ensures
        combine_all(combine_all(start, modes), modes) == combine_all(start, modes),
{
    lemma_combine_is_least_visible(start, modes);
    lemma_combine_is_least_visible(combine_all(start, modes), modes);
}

/// Combining ignores the order of the modes: a permutation of the list, one with the same
/// modes as often, combines alike.
pub proof fn lemma_combine_permutation(start: Mode, xs: Seq<Mode>, zs: Seq<Mode>)
    requires
        xs.to_multiset() == zs.to_multiset(),
    ensures
        combine_all(start, xs) == combine_all(start, zs),
{
    assert forall|m: Mode| #[trigger] xs.contains(m) <==> zs.contains(m) by {
        vstd::seq_lib::to_multiset_contains(xs, m);
        vstd::seq_lib::to_multiset_contains(zs, m);
    }
    lemma_combine_order_free(start, xs, zs);
}

} // verus!
