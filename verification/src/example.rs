//! A circuit that sums powers of two in a purposefully constraint-inefficient manner, used
//! to exercise the environment end to end.

use crate::circuit::{is_empty_system, Circuit};
use crate::field::{multiplied, Field};
use crate::fp::{modulus, Fp};
use crate::mode::Mode;
use crate::r1cs::R1CS;
use crate::traits::Inject;
use vstd::prelude::*;

verus! {

/// `2^n`.
pub open spec fn power_of_two(n: nat) -> nat
    decreases n,
{
    if n == 0 {
        1
    } else {
        2 * power_of_two((n - 1) as nat)
    }
}

/// The powers of two up to `2^65` are below the modulus.
proof fn lemma_power_of_two_small(n: nat)
    requires
        n <= 65,
    ensures
        power_of_two(n) <= power_of_two(65),
        power_of_two(65) == 36893488147419103232nat,
        power_of_two(65) < modulus(),
    decreases 65 - n,
{
    reveal_with_fuel(power_of_two, 66);
    if n < 65 {
        lemma_power_of_two_small(n + 1);
    }
}

/// A multiplication keeps a satisfied system satisfied.
proof fn lemma_multiplied_satisfied(old: R1CS, new: R1CS, v: nat)
    requires
        multiplied(old, new, v),
        old.satisfied(),
    ensures
        new.satisfied(),
{
    let n = old.constraints_spec().len() as int;
    assert forall|j: int| 0 <= j < new.constraints_spec().len() implies (
    #[trigger] new.constraints_spec()[j]).satisfied() by {
        if j < n {
            assert(new.constraints_spec().take(n)[j] == new.constraints_spec()[j]);
            assert(old.constraints_spec()[j].satisfied());
        }
    }
}

/// Computes `2^64 - 1`: starting from a public zero and a private one, adds the accumulator
/// to the candidate and doubles the accumulator, witnessing each factor two as a new private
/// variable, sixty-four times. The candidate ends as `2^64 - 1`, one less than the
/// accumulator, with two public variables, `2 * 64 + 1` private ones and sixty-four satisfied
/// constraints in the system.
pub fn create_example_circuit(cs: &mut Circuit) -> (r: Field)
    requires
        old(cs).wf(),
        is_empty_system(old(cs).state()),
        old(cs).state().room(400),
    ensures
        final(cs).wf(),
        r.val() == power_of_two(64) - 1,
        final(cs).state().constants_spec().len() == 0,
        final(cs).state().public_spec().len() == 2,
        final(cs).state().private_spec().len() == 2 * 64 + 1,
        final(cs).state().constraints_spec().len() == 64,
        final(cs).state().satisfied(),
{
    let zero = Fp::zero();
    let one = Fp::one();
    let two = one.add(&one);
    proof {
        lemma_power_of_two_small(0);
        reveal_with_fuel(power_of_two, 2);
        vstd::arithmetic::div_mod::lemma_small_mod(2, modulus());
    }
    let ghost g0 = cs.state().gates_spec();
    let mut candidate = <Field as Inject>::new(Mode::Public, zero, cs);
    let mut accumulator = <Field as Inject>::new(Mode::Private, one, cs);
    let mut i: u64 = 0;
    while i < 64
        invariant
            cs.wf(),
            i <= 64,
            cs.state().constants_spec().len() == 0,
            cs.state().public_spec().len() == 2,
            cs.state().private_spec().len() == 2 * i + 1,
            cs.state().constraints_spec().len() == i,
            cs.state().gates_spec() <= g0 + 3 * i,
            g0 + 400 <= u64::MAX,
            cs.state().satisfied(),
            two@ == 2,
            !accumulator.is_const(),
            accumulator.lc_spec().num_terms() == 1,
            accumulator.val() == power_of_two(i as nat),
            candidate.val() + 1 == power_of_two(i as nat),
        decreases 64 - i,
    {
        proof {
            lemma_power_of_two_small(i as nat);
            lemma_power_of_two_small((i + 1) as nat);
            assert(power_of_two((i + 1) as nat) == 2 * power_of_two(i as nat));
            vstd::arithmetic::div_mod::lemma_small_mod(
                (candidate.val() + accumulator.val()) as nat,
                modulus(),
            );
            vstd::arithmetic::div_mod::lemma_small_mod(
                (accumulator.val() * 2) as nat,
                modulus(),
            );
        }
        candidate.add_assign(&accumulator);
        let factor = <Field as Inject>::new(Mode::Private, two, cs);
        let ghost before = cs.state();
        accumulator.mul_assign(&factor, cs);
        proof {
            lemma_multiplied_satisfied(before, cs.state(), accumulator.val());
        }
        i = i + 1;
    }
    candidate
}

} // verus!
