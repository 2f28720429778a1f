# snarkd_crypto

A builder of rank-1 constraint systems over the base field of BLS12-377, with boolean
gadgets, written in Verus. The functions of the library state their behaviour in
contracts, and Verus proves them; the few trusted wrappers around `indexmap` say what
they assume of it.

Two things are not here. Synthesizing an assignment into an outside proving system stops
at a plan (`Assignment::synthesis_plan`): the values to allocate, in order, and each
constraint in that system's indexing; driving an actual constraint system with it is left
to its user. And that every nonzero field element has an inverse, which rests on the
modulus being prime, is not proved: `Fp::inverse` and `Circuit::assert_neq` state their
results in terms of the Fermat inverse `x^(p - 2)`.

## Layout

- `src/fp.rs`, `src/decimal.rs`: the base field, as twelve 32-bit limbs, with its
  arithmetic, Fermat inverse and decimal notation.
- `src/variable.rs`, `src/terms.rs`, `src/lc_lemmas.rs`, `src/linear_combination.rs`:
  variables and linear combinations over them; the terms are kept in an
  `indexmap::IndexMap`, reached through small trusted wrappers.
- `src/constraint.rs`, `src/counter.rs`, `src/r1cs.rs`, `src/assignment.rs`: constraints,
  named scopes with their counts, the constraint system, its assignment, and the plan for
  synthesizing that assignment elsewhere.
- `src/circuit.rs`: the environment in which circuits are synthesized.
- `src/boolean/`: booleans and their gadgets (NOT, AND, OR, XOR, NAND, NOR, equality,
  selection, full adder and subtractor). Each gadget computes the right bit, keeps the
  shape of a boolean, and only adds satisfied constraints; `src/boolean/soundness.rs` shows
  that those constraints, under any assignment that satisfies them, force each output to the
  bit that the gadget computes from its inputs.
- `src/field.rs`, `src/example.rs`: field elements as circuits, and an example circuit.
- `src/count.rs`: measurements of what a circuit synthesizes.
- `app/lib.rs`: closure-based scopes and halting, which stay unverified.
