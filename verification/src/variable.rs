//! Variables of a constraint system: constants, public inputs, and private witnesses.

use crate::fp::{canonical_limbs, limbs_val, Fp};
use crate::mode::Mode;
use vstd::prelude::*;

verus! {

/// The relative index of a variable among those of its mode.
pub type Index = u64;

/// What identifies a non-constant variable in a linear combination: the rank of its
/// mode (`1` public, `2` private), its index, and the limbs of its value.
pub type VariableKey = (u8, u64, [u64; 12]);

/// A variable of a constraint system, with its assigned value.
#[derive(Clone, Copy)]
pub enum Variable {
    Constant(Fp),
    Public(Index, Fp),
    Private(Index, Fp),
}

/// The value that the limbs of a key stand for.
pub open spec fn key_val(k: VariableKey) -> nat {
    limbs_val(k.2@)
}

/// A key of a public or private variable, with canonical value limbs.
pub open spec fn key_wf(k: VariableKey) -> bool {
    &&& (k.0 == 1 || k.0 == 2)
    &&& canonical_limbs(k.2@)
}

impl Variable {
    /// The value assigned to the variable, as a number in `[0, p)`.
    pub open spec fn val(self) -> nat {
        match self {
            Variable::Constant(v) => v@,
            Variable::Public(_, v) => v@,
            Variable::Private(_, v) => v@,
        }
    }

    /// The mode of the variable.
    pub open spec fn mode_spec(self) -> Mode {
        match self {
            Variable::Constant(..) => Mode::Constant,
            Variable::Public(..) => Mode::Public,
            Variable::Private(..) => Mode::Private,
        }
    }

    /// The relative index of the variable (`0` for a constant).
    pub open spec fn index_spec(self) -> u64 {
        match self {
            Variable::Constant(..) => 0,
            Variable::Public(i, _) => i,
            Variable::Private(i, _) => i,
        }
    }

    /// The value of the variable as a field element.
    pub open spec fn value_spec(self) -> Fp {
        match self {
            Variable::Constant(v) => v,
            Variable::Public(_, v) => v,
            Variable::Private(_, v) => v,
        }
    }

    /// The key of a public or private variable.
    pub open spec fn key_spec(self) -> VariableKey {
        match self {
            Variable::Constant(v) => (0u8, 0u64, v.limbs_spec()),
            Variable::Public(i, v) => (1u8, i, v.limbs_spec()),
            Variable::Private(i, v) => (2u8, i, v.limbs_spec()),
        }
    }

    /// Returns `true` if the variable is a constant.
    pub fn is_constant(&self) -> (r: bool)
        ensures
            r == (*self is Constant),
    {
        matches!(self, Variable::Constant(..))
    }

    /// Returns `true` if the variable is public.
    pub fn is_public(&self) -> (r: bool)
        ensures
            r == (*self is Public),
    {
        matches!(self, Variable::Public(..))
    }

    /// Returns `true` if the variable is private.
    pub fn is_private(&self) -> (r: bool)
        ensures
            r == (*self is Private),
    {
        matches!(self, Variable::Private(..))
    }

    /// Returns the mode of the variable.
    pub fn mode(&self) -> (r: Mode)
        ensures
            r == self.mode_spec(),
    {
        match self {
            Variable::Constant(..) => Mode::Constant,
            Variable::Public(..) => Mode::Public,
            Variable::Private(..) => Mode::Private,
        }
    }

    /// Returns the relative index of the variable.
    pub fn index(&self) -> (r: Index)
        ensures
            r == self.index_spec(),
    {
        match self {
            Variable::Constant(..) => 0,
            Variable::Public(index, ..) => *index,
            Variable::Private(index, ..) => *index,
        }
    }

    /// Returns the value of the variable.
    pub fn value(&self) -> (r: Fp)
        ensures
            r == self.value_spec(),
            r@ == self.val(),
    {
        match self {
            Variable::Constant(value) => *value,
            Variable::Public(_, value) => *value,
            Variable::Private(_, value) => *value,
        }
    }

    /// The key of the variable in a linear combination.
    pub fn key(&self) -> (r: VariableKey)
        ensures
            r == self.key_spec(),
            !(*self is Constant) ==> key_wf(r),
            key_val(r) == self.val(),
    {
        match self {
            Variable::Constant(v) => (0u8, 0u64, v.to_limbs()),
            Variable::Public(i, v) => (1u8, *i, v.to_limbs()),
            Variable::Private(i, v) => (2u8, *i, v.to_limbs()),
        }
    }

    /// The public or private variable that a key identifies.
    pub fn from_key(k: VariableKey) -> (r: Variable)
        requires
            key_wf(k),
        ensures
            r.key_spec() == k,
            !(r is Constant),
            r.val() == key_val(k),
    {
        let v = Fp::from_limbs(k.2);
        if k.0 == 1 {
            Variable::Public(k.1, v)
        } else {
            Variable::Private(k.1, v)
        }
    }

    /// Orders variables: constants by value, then public ones by index, then private ones
    /// by index.
    pub fn cmp(&self, other: &Variable) -> (r: core::cmp::Ordering)
        ensures
            (r == core::cmp::Ordering::Less) == variable_lt(*self, *other),
            (r == core::cmp::Ordering::Greater) == variable_lt(*other, *self),
    {
        match (self, other) {
            (Variable::Constant(v1), Variable::Constant(v2)) => {
                if v1.less_than(v2) {
                    core::cmp::Ordering::Less
                } else if v2.less_than(v1) {
                    core::cmp::Ordering::Greater
                } else {
                    core::cmp::Ordering::Equal
                }
            },
            (Variable::Constant(..), _) => core::cmp::Ordering::Less,
            (_, Variable::Constant(..)) => core::cmp::Ordering::Greater,
            (Variable::Public(i1, ..), Variable::Public(i2, ..)) => {
                if *i1 < *i2 {
                    core::cmp::Ordering::Less
                } else if *i2 < *i1 {
                    core::cmp::Ordering::Greater
                } else {
                    core::cmp::Ordering::Equal
                }
            },
            (Variable::Private(i1, ..), Variable::Private(i2, ..)) => {
                if *i1 < *i2 {
                    core::cmp::Ordering::Less
                } else if *i2 < *i1 {
                    core::cmp::Ordering::Greater
                } else {
                    core::cmp::Ordering::Equal
                }
            },
            (Variable::Public(..), Variable::Private(..)) => core::cmp::Ordering::Less,
            (Variable::Private(..), Variable::Public(..)) => core::cmp::Ordering::Greater,
        }
    }
    /// Orders variables as `cmp` does, always comparably.
    pub fn partial_cmp(&self, other: &Variable) -> (r: Option<core::cmp::Ordering>)
        ensures
            r is Some,
            (r == Some(core::cmp::Ordering::Less)) == variable_lt(*self, *other),
            (r == Some(core::cmp::Ordering::Greater)) == variable_lt(*other, *self),
    {
        Some(self.cmp(other))
    }
}

/// The order of variables: constants (by value) before public variables (by index)
/// before private variables (by index).
pub open spec fn variable_lt(a: Variable, b: Variable) -> bool {
    match (a, b) {
        (Variable::Constant(v1), Variable::Constant(v2)) => v1@ < v2@,
        (Variable::Constant(..), _) => true,
        (_, Variable::Constant(..)) => false,
        (Variable::Public(i1, _), Variable::Public(i2, _)) => i1 < i2,
        (Variable::Private(i1, _), Variable::Private(i2, _)) => i1 < i2,
        (Variable::Public(..), Variable::Private(..)) => true,
        (Variable::Private(..), Variable::Public(..)) => false,
    }
}

/// The order of variables is a strict order: irreflexive and transitive.
pub proof fn lemma_variable_order(a: Variable, b: Variable, c: Variable)
    ensures
        !variable_lt(a, a),
        variable_lt(a, b) && variable_lt(b, c) ==> variable_lt(a, c),
        !(variable_lt(a, b) && variable_lt(b, a)),
{
}

} // verus!
