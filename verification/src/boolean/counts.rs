//! What the boolean gadgets add to a system: for each gadget, exactly how many private
//! variables (each with one constraint) it witnesses, and when its output is a constant,
//! as functions of which inputs are constants and of their bits.

use super::soundness::BitOp;
use super::Boolean;
use vstd::prelude::*;

verus! {

/// A constant input of bit `x` decides `op` whatever the other input is.
pub open spec fn absorbs(op: BitOp, x: bool) -> bool {
    match op {
        BitOp::And => !x,
        BitOp::Nand => !x,
        BitOp::Or => x,
        BitOp::Nor => x,
        BitOp::Xor => false,
        BitOp::Xnor => false,
    }
}

/// The output of `op` is a constant, for inputs that are constants (`ac`, `bc`) of bits
/// `ab` and `bb`: both inputs are constants, or a constant input decides `op`.
pub open spec fn const_output(op: BitOp, ac: bool, ab: bool, bc: bool, bb: bool) -> bool {
    ||| ac && bc
    ||| ac && absorbs(op, ab)
    ||| bc && absorbs(op, bb)
}

/// The private variables, and constraints, that a two-input gate adds: one where neither
/// input is a constant, else none.
pub open spec fn gate_cost(ac: bool, bc: bool) -> nat {
    if !ac && !bc {
        1
    } else {
        0
    }
}

/// The output of `op` on the booleans `a` and `b` is a constant.
pub open spec fn gate_output_const(op: BitOp, a: Boolean, b: Boolean) -> bool {
    const_output(op, a.is_const(), a.bit(), b.is_const(), b.bit())
}

/// The private variables, and constraints, that the full adder adds on inputs `a`, `b` and
/// `c` that are constants (`ac`, `bc`, `cc`) of bits `ab`, `bb`, `cb`: those of
/// `a XOR b`, of that XOR `c`, of `a AND b`, of `c AND (a XOR b)` and of the OR of the
/// last two.
pub open spec fn adder_cost(ac: bool, ab: bool, bc: bool, bb: bool, cc: bool, cb: bool) -> nat {
    let x_c = const_output(BitOp::Xor, ac, ab, bc, bb);
    let x_b = ab != bb;
    let y_c = const_output(BitOp::And, ac, ab, bc, bb);
    let y_b = ab && bb;
    let z_c = const_output(BitOp::And, cc, cb, x_c, x_b);
    let z_b = cb && x_b;
    gate_cost(ac, bc) + gate_cost(x_c, cc) + gate_cost(ac, bc) + gate_cost(cc, x_c) + gate_cost(
        y_c,
        z_c,
    )
}

/// The private variables, and constraints, that the full subtractor adds on inputs `a`, `b`
/// and `borrow` that are constants (`ac`, `bc`, `wc`) of bits `ab`, `bb`, `wb`: those of
/// `a XOR b`, of that XOR `borrow`, of `(NOT a) AND b`, of `borrow AND NOT (a XOR b)` and of
/// the OR of the last two.
pub open spec fn subtractor_cost(ac: bool, ab: bool, bc: bool, bb: bool, wc: bool, wb: bool) -> nat {
    let x_c = const_output(BitOp::Xor, ac, ab, bc, bb);
    let x_b = ab != bb;
    let y_c = const_output(BitOp::And, ac, !ab, bc, bb);
    let z_c = const_output(BitOp::And, wc, wb, x_c, !x_b);
    gate_cost(ac, bc) + gate_cost(x_c, wc) + gate_cost(ac, bc) + gate_cost(wc, x_c) + gate_cost(
        y_c,
        z_c,
    )
}

} // verus!
