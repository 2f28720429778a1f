use snarkd_crypto::boolean::Boolean;
use snarkd_crypto::circuit::Circuit;
use snarkd_crypto::mode::Mode;
use snarkd_crypto::traits::{Inject, Subtractor};

fn assert_scope(
    cs: &Circuit,
    num_constants: u64,
    num_public: u64,
    num_private: u64,
    num_constraints: u64,
) {
    assert!(cs.is_satisfied_in_scope(), "(is_satisfied_in_scope)");
    assert_eq!(num_constants, cs.num_constants_in_scope(), "(num_constants)");
    assert_eq!(num_public, cs.num_public_in_scope(), "(num_public)");
    assert_eq!(num_private, cs.num_private_in_scope(), "(num_private)");
    assert_eq!(num_constraints, cs.num_constraints_in_scope(), "(num_constraints)");
}

#[allow(clippy::too_many_arguments)]
fn check_subtractor(cs: &mut Circuit, 
    name: &str,
    expected_difference: bool,
    expected_borrow: bool,
    a: Boolean,
    b: Boolean,
    c: Boolean,
    num_constants: u64,
    num_public: u64,
    num_private: u64,
    num_constraints: u64,
) {
    cs.push_scope(name).unwrap();
    let case = format!(
        "({} SUB {} WITH {})",
        a.eject_value(),
        b.eject_value(),
        c.eject_value()
    );
    let (candidate_difference, candidate_borrow) = a.subtractor(&b, &c, cs);
    assert_eq!(
        expected_difference,
        candidate_difference.eject_value(),
        "DIFF {}",
        case
    );
    assert_eq!(
        expected_borrow,
        candidate_borrow.eject_value(),
        "BORROW {}",
        case
    );
    assert_scope(cs,
        num_constants,
        num_public,
        num_private,
        num_constraints
    );
    cs.pop_scope(name).unwrap();
}

fn check_false_sub_false_with_false(cs: &mut Circuit, 
    mode_a: Mode,
    mode_b: Mode,
    mode_c: Mode,
    num_constants: u64,
    num_public: u64,
    num_private: u64,
    num_constraints: u64,
) {
    // false SUB false WITH false => (false, false)
    let expected_difference = false;
    let expected_carry = false;
    let a = Boolean::new(mode_a, false, cs);
    let b = Boolean::new(mode_b, false, cs);
    let c = Boolean::new(mode_c, false, cs);
    check_subtractor(cs, 
        "false SUB false WITH false",
        expected_difference,
        expected_carry,
        a,
        b,
        c,
        num_constants,
        num_public,
        num_private,
        num_constraints,
    );
}

fn check_false_sub_false_with_true(cs: &mut Circuit, 
    mode_a: Mode,
    mode_b: Mode,
    mode_c: Mode,
    num_constants: u64,
    num_public: u64,
    num_private: u64,
    num_constraints: u64,
) {
    // false SUB false WITH true => (true, true)
    let expected_difference = true;
    let expected_carry = true;
    let a = Boolean::new(mode_a, false, cs);
    let b = Boolean::new(mode_b, false, cs);
    let c = Boolean::new(mode_c, true, cs);
    check_subtractor(cs, 
        "false SUB false WITH true",
        expected_difference,
        expected_carry,
        a,
        b,
        c,
        num_constants,
        num_public,
        num_private,
        num_constraints,
    );
}

fn check_false_sub_true_with_false(cs: &mut Circuit, 
    mode_a: Mode,
    mode_b: Mode,
    mode_c: Mode,
    num_constants: u64,
    num_public: u64,
    num_private: u64,
    num_constraints: u64,
) {
    // false SUB true WITH false => (true, true)
    let expected_difference = true;
    let expected_carry = true;
    let a = Boolean::new(mode_a, false, cs);
    let b = Boolean::new(mode_b, true, cs);
    let c = Boolean::new(mode_c, false, cs);
    check_subtractor(cs, 
        "false SUB true WITH false",
        expected_difference,
        expected_carry,
        a,
        b,
        c,
        num_constants,
        num_public,
        num_private,
        num_constraints,
    );
}

fn check_false_sub_true_with_true(cs: &mut Circuit, 
    mode_a: Mode,
    mode_b: Mode,
    mode_c: Mode,
    num_constants: u64,
    num_public: u64,
    num_private: u64,
    num_constraints: u64,
) {
    // false SUB true WITH true => (false, true)
    let expected_difference = false;
    let expected_carry = true;
    let a = Boolean::new(mode_a, false, cs);
    let b = Boolean::new(mode_b, true, cs);
    let c = Boolean::new(mode_c, true, cs);
    check_subtractor(cs, 
        "false SUB true WITH true",
        expected_difference,
        expected_carry,
        a,
        b,
        c,
        num_constants,
        num_public,
        num_private,
        num_constraints,
    );
}

fn check_true_sub_false_with_false(cs: &mut Circuit, 
    mode_a: Mode,
    mode_b: Mode,
    mode_c: Mode,
    num_constants: u64,
    num_public: u64,
    num_private: u64,
    num_constraints: u64,
) {
    // true SUB false WITH false => (true, false)
    let expected_difference = true;
    let expected_carry = false;
    let a = Boolean::new(mode_a, true, cs);
    let b = Boolean::new(mode_b, false, cs);
    let c = Boolean::new(mode_c, false, cs);
    check_subtractor(cs, 
        "true SUB false WITH false",
        expected_difference,
        expected_carry,
        a,
        b,
        c,
        num_constants,
        num_public,
        num_private,
        num_constraints,
    );
}

fn check_true_sub_false_with_true(cs: &mut Circuit, 
    mode_a: Mode,
    mode_b: Mode,
    mode_c: Mode,
    num_constants: u64,
    num_public: u64,
    num_private: u64,
    num_constraints: u64,
) {
    // true SUB false WITH true => (false, false)
    let expected_difference = false;
    let expected_carry = false;
    let a = Boolean::new(mode_a, true, cs);
    let b = Boolean::new(mode_b, false, cs);
    let c = Boolean::new(mode_c, true, cs);
    check_subtractor(cs, 
        "true SUB false WITH true",
        expected_difference,
        expected_carry,
        a,
        b,
        c,
        num_constants,
        num_public,
        num_private,
        num_constraints,
    );
}

fn check_true_sub_true_with_false(cs: &mut Circuit, 
    mode_a: Mode,
    mode_b: Mode,
    mode_c: Mode,
    num_constants: u64,
    num_public: u64,
    num_private: u64,
    num_constraints: u64,
) {
    // true SUB true WITH false => (false, false)
    let expected_difference = false;
    let expected_carry = false;
    let a = Boolean::new(mode_a, true, cs);
    let b = Boolean::new(mode_b, true, cs);
    let c = Boolean::new(mode_c, false, cs);
    check_subtractor(cs, 
        "true SUB true WITH false",
        expected_difference,
        expected_carry,
        a,
        b,
        c,
        num_constants,
        num_public,
        num_private,
        num_constraints,
    );
}

fn check_true_sub_true_with_true(cs: &mut Circuit, 
    mode_a: Mode,
    mode_b: Mode,
    mode_c: Mode,
    num_constants: u64,
    num_public: u64,
    num_private: u64,
    num_constraints: u64,
) {
    // true SUB true WITH true => (true, true)
    let expected_difference = true;
    let expected_carry = true;
    let a = Boolean::new(mode_a, true, cs);
    let b = Boolean::new(mode_b, true, cs);
    let c = Boolean::new(mode_c, true, cs);
    check_subtractor(cs, 
        "true SUB true WITH true",
        expected_difference,
        expected_carry,
        a,
        b,
        c,
        num_constants,
        num_public,
        num_private,
        num_constraints,
    );
}

#[test]
fn test_constant_sub_constant_with_constant() {
    let mut cs = Circuit::new();
    check_false_sub_false_with_false(&mut cs, Mode::Constant, Mode::Constant, Mode::Constant, 0, 0, 0, 0);
    check_false_sub_false_with_true(&mut cs, Mode::Constant, Mode::Constant, Mode::Constant, 0, 0, 0, 0);
    check_false_sub_true_with_false(&mut cs, Mode::Constant, Mode::Constant, Mode::Constant, 0, 0, 0, 0);
    check_false_sub_true_with_true(&mut cs, Mode::Constant, Mode::Constant, Mode::Constant, 0, 0, 0, 0);
    check_true_sub_false_with_false(&mut cs, Mode::Constant, Mode::Constant, Mode::Constant, 0, 0, 0, 0);
    check_true_sub_false_with_true(&mut cs, Mode::Constant, Mode::Constant, Mode::Constant, 0, 0, 0, 0);
    check_true_sub_true_with_false(&mut cs, Mode::Constant, Mode::Constant, Mode::Constant, 0, 0, 0, 0);
    check_true_sub_true_with_true(&mut cs, Mode::Constant, Mode::Constant, Mode::Constant, 0, 0, 0, 0);
}

#[test]
fn test_constant_sub_constant_with_public() {
    let mut cs = Circuit::new();
    check_false_sub_false_with_false(&mut cs, Mode::Constant, Mode::Constant, Mode::Public, 0, 0, 0, 0);
    check_false_sub_false_with_true(&mut cs, Mode::Constant, Mode::Constant, Mode::Public, 0, 0, 0, 0);
    check_false_sub_true_with_false(&mut cs, Mode::Constant, Mode::Constant, Mode::Public, 0, 0, 0, 0);
    check_false_sub_true_with_true(&mut cs, Mode::Constant, Mode::Constant, Mode::Public, 0, 0, 0, 0);
    check_true_sub_false_with_false(&mut cs, Mode::Constant, Mode::Constant, Mode::Public, 0, 0, 0, 0);
    check_true_sub_false_with_true(&mut cs, Mode::Constant, Mode::Constant, Mode::Public, 0, 0, 0, 0);
    check_true_sub_true_with_false(&mut cs, Mode::Constant, Mode::Constant, Mode::Public, 0, 0, 0, 0);
    check_true_sub_true_with_true(&mut cs, Mode::Constant, Mode::Constant, Mode::Public, 0, 0, 0, 0);
}

#[test]
fn test_constant_sub_constant_with_private() {
    let mut cs = Circuit::new();
    check_false_sub_false_with_false(&mut cs, Mode::Constant, Mode::Constant, Mode::Private, 0, 0, 0, 0);
    check_false_sub_false_with_true(&mut cs, Mode::Constant, Mode::Constant, Mode::Private, 0, 0, 0, 0);
    check_false_sub_true_with_false(&mut cs, Mode::Constant, Mode::Constant, Mode::Private, 0, 0, 0, 0);
    check_false_sub_true_with_true(&mut cs, Mode::Constant, Mode::Constant, Mode::Private, 0, 0, 0, 0);
    check_true_sub_false_with_false(&mut cs, Mode::Constant, Mode::Constant, Mode::Private, 0, 0, 0, 0);
    check_true_sub_false_with_true(&mut cs, Mode::Constant, Mode::Constant, Mode::Private, 0, 0, 0, 0);
    check_true_sub_true_with_false(&mut cs, Mode::Constant, Mode::Constant, Mode::Private, 0, 0, 0, 0);
    check_true_sub_true_with_true(&mut cs, Mode::Constant, Mode::Constant, Mode::Private, 0, 0, 0, 0);
}

#[test]
fn test_constant_sub_public_with_constant() {
    let mut cs = Circuit::new();
    check_false_sub_false_with_false(&mut cs, Mode::Constant, Mode::Public, Mode::Constant, 0, 0, 0, 0);
    check_false_sub_false_with_true(&mut cs, Mode::Constant, Mode::Public, Mode::Constant, 0, 0, 1, 1); // <- Differs
    check_false_sub_true_with_false(&mut cs, Mode::Constant, Mode::Public, Mode::Constant, 0, 0, 0, 0);
    check_false_sub_true_with_true(&mut cs, Mode::Constant, Mode::Public, Mode::Constant, 0, 0, 1, 1); // <- Differs
    check_true_sub_false_with_false(&mut cs, Mode::Constant, Mode::Public, Mode::Constant, 0, 0, 0, 0);
    check_true_sub_false_with_true(&mut cs, Mode::Constant, Mode::Public, Mode::Constant, 0, 0, 0, 0);
    check_true_sub_true_with_false(&mut cs, Mode::Constant, Mode::Public, Mode::Constant, 0, 0, 0, 0);
    check_true_sub_true_with_true(&mut cs, Mode::Constant, Mode::Public, Mode::Constant, 0, 0, 0, 0);
}

#[test]
fn test_constant_sub_public_with_public() {
    let mut cs = Circuit::new();
    check_false_sub_false_with_false(&mut cs, Mode::Constant, Mode::Public, Mode::Public, 0, 0, 3, 3); // <- Differs
    check_false_sub_false_with_true(&mut cs, Mode::Constant, Mode::Public, Mode::Public, 0, 0, 3, 3); // <- Differs
    check_false_sub_true_with_false(&mut cs, Mode::Constant, Mode::Public, Mode::Public, 0, 0, 3, 3); // <- Differs
    check_false_sub_true_with_true(&mut cs, Mode::Constant, Mode::Public, Mode::Public, 0, 0, 3, 3); // <- Differs
    check_true_sub_false_with_false(&mut cs, Mode::Constant, Mode::Public, Mode::Public, 0, 0, 2, 2);
    check_true_sub_false_with_true(&mut cs, Mode::Constant, Mode::Public, Mode::Public, 0, 0, 2, 2);
    check_true_sub_true_with_false(&mut cs, Mode::Constant, Mode::Public, Mode::Public, 0, 0, 2, 2);
    check_true_sub_true_with_true(&mut cs, Mode::Constant, Mode::Public, Mode::Public, 0, 0, 2, 2);
}

#[test]
fn test_constant_sub_public_with_private() {
    let mut cs = Circuit::new();
    check_false_sub_false_with_false(&mut cs, Mode::Constant, Mode::Public, Mode::Private, 0, 0, 3, 3); // <- Differs
    check_false_sub_false_with_true(&mut cs, Mode::Constant, Mode::Public, Mode::Private, 0, 0, 3, 3); // <- Differs
    check_false_sub_true_with_false(&mut cs, Mode::Constant, Mode::Public, Mode::Private, 0, 0, 3, 3); // <- Differs
    check_false_sub_true_with_true(&mut cs, Mode::Constant, Mode::Public, Mode::Private, 0, 0, 3, 3); // <- Differs
    check_true_sub_false_with_false(&mut cs, Mode::Constant, Mode::Public, Mode::Private, 0, 0, 2, 2);
    check_true_sub_false_with_true(&mut cs, Mode::Constant, Mode::Public, Mode::Private, 0, 0, 2, 2);
    check_true_sub_true_with_false(&mut cs, Mode::Constant, Mode::Public, Mode::Private, 0, 0, 2, 2);
    check_true_sub_true_with_true(&mut cs, Mode::Constant, Mode::Public, Mode::Private, 0, 0, 2, 2);
}

#[test]
fn test_constant_sub_private_with_constant() {
    let mut cs = Circuit::new();
    check_false_sub_false_with_false(&mut cs, Mode::Constant, Mode::Private, Mode::Constant, 0, 0, 0, 0);
    check_false_sub_false_with_true(&mut cs, Mode::Constant, Mode::Private, Mode::Constant, 0, 0, 1, 1); // <- Differs
    check_false_sub_true_with_false(&mut cs, Mode::Constant, Mode::Private, Mode::Constant, 0, 0, 0, 0);
    check_false_sub_true_with_true(&mut cs, Mode::Constant, Mode::Private, Mode::Constant, 0, 0, 1, 1); // <- Differs
    check_true_sub_false_with_false(&mut cs, Mode::Constant, Mode::Private, Mode::Constant, 0, 0, 0, 0);
    check_true_sub_false_with_true(&mut cs, Mode::Constant, Mode::Private, Mode::Constant, 0, 0, 0, 0);
    check_true_sub_true_with_false(&mut cs, Mode::Constant, Mode::Private, Mode::Constant, 0, 0, 0, 0);
    check_true_sub_true_with_true(&mut cs, Mode::Constant, Mode::Private, Mode::Constant, 0, 0, 0, 0);
}

#[test]
fn test_constant_sub_private_with_public() {
    let mut cs = Circuit::new();
    check_false_sub_false_with_false(&mut cs, Mode::Constant, Mode::Private, Mode::Public, 0, 0, 3, 3); // <- Differs
    check_false_sub_false_with_true(&mut cs, Mode::Constant, Mode::Private, Mode::Public, 0, 0, 3, 3); // <- Differs
    check_false_sub_true_with_false(&mut cs, Mode::Constant, Mode::Private, Mode::Public, 0, 0, 3, 3); // <- Differs
    check_false_sub_true_with_true(&mut cs, Mode::Constant, Mode::Private, Mode::Public, 0, 0, 3, 3); // <- Differs
    check_true_sub_false_with_false(&mut cs, Mode::Constant, Mode::Private, Mode::Public, 0, 0, 2, 2);
    check_true_sub_false_with_true(&mut cs, Mode::Constant, Mode::Private, Mode::Public, 0, 0, 2, 2);
    check_true_sub_true_with_false(&mut cs, Mode::Constant, Mode::Private, Mode::Public, 0, 0, 2, 2);
    check_true_sub_true_with_true(&mut cs, Mode::Constant, Mode::Private, Mode::Public, 0, 0, 2, 2);
}

#[test]
fn test_constant_sub_private_with_private() {
    let mut cs = Circuit::new();
    check_false_sub_false_with_false(&mut cs, Mode::Constant, Mode::Private, Mode::Private, 0, 0, 3, 3); // <- Differs
    check_false_sub_false_with_true(&mut cs, Mode::Constant, Mode::Private, Mode::Private, 0, 0, 3, 3); // <- Differs
    check_false_sub_true_with_false(&mut cs, Mode::Constant, Mode::Private, Mode::Private, 0, 0, 3, 3); // <- Differs
    check_false_sub_true_with_true(&mut cs, Mode::Constant, Mode::Private, Mode::Private, 0, 0, 3, 3); // <- Differs
    check_true_sub_false_with_false(&mut cs, Mode::Constant, Mode::Private, Mode::Private, 0, 0, 2, 2);
    check_true_sub_false_with_true(&mut cs, Mode::Constant, Mode::Private, Mode::Private, 0, 0, 2, 2);
    check_true_sub_true_with_false(&mut cs, Mode::Constant, Mode::Private, Mode::Private, 0, 0, 2, 2);
    check_true_sub_true_with_true(&mut cs, Mode::Constant, Mode::Private, Mode::Private, 0, 0, 2, 2);
}

#[test]
fn test_public_sub_constant_with_constant() {
    let mut cs = Circuit::new();
    check_false_sub_false_with_false(&mut cs, Mode::Public, Mode::Constant, Mode::Constant, 0, 0, 0, 0);
    check_false_sub_false_with_true(&mut cs, Mode::Public, Mode::Constant, Mode::Constant, 0, 0, 0, 0);
    check_false_sub_true_with_false(&mut cs, Mode::Public, Mode::Constant, Mode::Constant, 0, 0, 0, 0);
    check_false_sub_true_with_true(&mut cs, Mode::Public, Mode::Constant, Mode::Constant, 0, 0, 1, 1); // <- Differs
    check_true_sub_false_with_false(&mut cs, Mode::Public, Mode::Constant, Mode::Constant, 0, 0, 0, 0);
    check_true_sub_false_with_true(&mut cs, Mode::Public, Mode::Constant, Mode::Constant, 0, 0, 0, 0);
    check_true_sub_true_with_false(&mut cs, Mode::Public, Mode::Constant, Mode::Constant, 0, 0, 0, 0);
    check_true_sub_true_with_true(&mut cs, Mode::Public, Mode::Constant, Mode::Constant, 0, 0, 1, 1);
    // <- Differs
}

#[test]
fn test_public_sub_constant_with_public() {
    let mut cs = Circuit::new();
    check_false_sub_false_with_false(&mut cs, Mode::Public, Mode::Constant, Mode::Public, 0, 0, 2, 2);
    check_false_sub_false_with_true(&mut cs, Mode::Public, Mode::Constant, Mode::Public, 0, 0, 2, 2);
    check_false_sub_true_with_false(&mut cs, Mode::Public, Mode::Constant, Mode::Public, 0, 0, 3, 3); // <- Differs
    check_false_sub_true_with_true(&mut cs, Mode::Public, Mode::Constant, Mode::Public, 0, 0, 3, 3); // <- Differs
    check_true_sub_false_with_false(&mut cs, Mode::Public, Mode::Constant, Mode::Public, 0, 0, 2, 2);
    check_true_sub_false_with_true(&mut cs, Mode::Public, Mode::Constant, Mode::Public, 0, 0, 2, 2);
    check_true_sub_true_with_false(&mut cs, Mode::Public, Mode::Constant, Mode::Public, 0, 0, 3, 3); // <- Differs
    check_true_sub_true_with_true(&mut cs, Mode::Public, Mode::Constant, Mode::Public, 0, 0, 3, 3);
    // <- Differs
}

#[test]
fn test_public_sub_constant_with_private() {
    let mut cs = Circuit::new();
    check_false_sub_false_with_false(&mut cs, Mode::Public, Mode::Constant, Mode::Private, 0, 0, 2, 2);
    check_false_sub_false_with_true(&mut cs, Mode::Public, Mode::Constant, Mode::Private, 0, 0, 2, 2);
    check_false_sub_true_with_false(&mut cs, Mode::Public, Mode::Constant, Mode::Private, 0, 0, 3, 3); // <- Differs
    check_false_sub_true_with_true(&mut cs, Mode::Public, Mode::Constant, Mode::Private, 0, 0, 3, 3); // <- Differs
    check_true_sub_false_with_false(&mut cs, Mode::Public, Mode::Constant, Mode::Private, 0, 0, 2, 2);
    check_true_sub_false_with_true(&mut cs, Mode::Public, Mode::Constant, Mode::Private, 0, 0, 2, 2);
    check_true_sub_true_with_false(&mut cs, Mode::Public, Mode::Constant, Mode::Private, 0, 0, 3, 3); // <- Differs
    check_true_sub_true_with_true(&mut cs, Mode::Public, Mode::Constant, Mode::Private, 0, 0, 3, 3);
    // <- Differs
}

#[test]
fn test_public_sub_public_with_constant() {
    let mut cs = Circuit::new();
    check_false_sub_false_with_false(&mut cs, Mode::Public, Mode::Public, Mode::Constant, 0, 0, 2, 2);
    check_false_sub_false_with_true(&mut cs, Mode::Public, Mode::Public, Mode::Constant, 0, 0, 3, 3); // <- Differs
    check_false_sub_true_with_false(&mut cs, Mode::Public, Mode::Public, Mode::Constant, 0, 0, 2, 2);
    check_false_sub_true_with_true(&mut cs, Mode::Public, Mode::Public, Mode::Constant, 0, 0, 3, 3); // <- Differs
    check_true_sub_false_with_false(&mut cs, Mode::Public, Mode::Public, Mode::Constant, 0, 0, 2, 2);
    check_true_sub_false_with_true(&mut cs, Mode::Public, Mode::Public, Mode::Constant, 0, 0, 3, 3); // <- Differs
    check_true_sub_true_with_false(&mut cs, Mode::Public, Mode::Public, Mode::Constant, 0, 0, 2, 2);
    check_true_sub_true_with_true(&mut cs, Mode::Public, Mode::Public, Mode::Constant, 0, 0, 3, 3);
    // <- Differs
}

#[test]
fn test_public_sub_public_with_public() {
    let mut cs = Circuit::new();
    check_false_sub_false_with_false(&mut cs, Mode::Public, Mode::Public, Mode::Public, 0, 0, 5, 5);
    check_false_sub_false_with_true(&mut cs, Mode::Public, Mode::Public, Mode::Public, 0, 0, 5, 5);
    check_false_sub_true_with_false(&mut cs, Mode::Public, Mode::Public, Mode::Public, 0, 0, 5, 5);
    check_false_sub_true_with_true(&mut cs, Mode::Public, Mode::Public, Mode::Public, 0, 0, 5, 5);
    check_true_sub_false_with_false(&mut cs, Mode::Public, Mode::Public, Mode::Public, 0, 0, 5, 5);
    check_true_sub_false_with_true(&mut cs, Mode::Public, Mode::Public, Mode::Public, 0, 0, 5, 5);
    check_true_sub_true_with_false(&mut cs, Mode::Public, Mode::Public, Mode::Public, 0, 0, 5, 5);
    check_true_sub_true_with_true(&mut cs, Mode::Public, Mode::Public, Mode::Public, 0, 0, 5, 5);
}

#[test]
fn test_public_sub_public_with_private() {
    let mut cs = Circuit::new();
    check_false_sub_false_with_false(&mut cs, Mode::Public, Mode::Public, Mode::Private, 0, 0, 5, 5);
    check_false_sub_false_with_true(&mut cs, Mode::Public, Mode::Public, Mode::Private, 0, 0, 5, 5);
    check_false_sub_true_with_false(&mut cs, Mode::Public, Mode::Public, Mode::Private, 0, 0, 5, 5);
    check_false_sub_true_with_true(&mut cs, Mode::Public, Mode::Public, Mode::Private, 0, 0, 5, 5);
    check_true_sub_false_with_false(&mut cs, Mode::Public, Mode::Public, Mode::Private, 0, 0, 5, 5);
    check_true_sub_false_with_true(&mut cs, Mode::Public, Mode::Public, Mode::Private, 0, 0, 5, 5);
    check_true_sub_true_with_false(&mut cs, Mode::Public, Mode::Public, Mode::Private, 0, 0, 5, 5);
    check_true_sub_true_with_true(&mut cs, Mode::Public, Mode::Public, Mode::Private, 0, 0, 5, 5);
}

#[test]
fn test_public_sub_private_with_constant() {
    let mut cs = Circuit::new();
    check_false_sub_false_with_false(&mut cs, Mode::Public, Mode::Private, Mode::Constant, 0, 0, 2, 2);
    check_false_sub_false_with_true(&mut cs, Mode::Public, Mode::Private, Mode::Constant, 0, 0, 3, 3); // <- Differs
    check_false_sub_true_with_false(&mut cs, Mode::Public, Mode::Private, Mode::Constant, 0, 0, 2, 2);
    check_false_sub_true_with_true(&mut cs, Mode::Public, Mode::Private, Mode::Constant, 0, 0, 3, 3); // <- Differs
    check_true_sub_false_with_false(&mut cs, Mode::Public, Mode::Private, Mode::Constant, 0, 0, 2, 2);
    check_true_sub_false_with_true(&mut cs, Mode::Public, Mode::Private, Mode::Constant, 0, 0, 3, 3); // <- Differs
    check_true_sub_true_with_false(&mut cs, Mode::Public, Mode::Private, Mode::Constant, 0, 0, 2, 2);
    check_true_sub_true_with_true(&mut cs, Mode::Public, Mode::Private, Mode::Constant, 0, 0, 3, 3);
    // <- Differs
}

#[test]
fn test_public_sub_private_with_public() {
    let mut cs = Circuit::new();
    check_false_sub_false_with_false(&mut cs, Mode::Public, Mode::Private, Mode::Public, 0, 0, 5, 5);
    check_false_sub_false_with_true(&mut cs, Mode::Public, Mode::Private, Mode::Public, 0, 0, 5, 5);
    check_false_sub_true_with_false(&mut cs, Mode::Public, Mode::Private, Mode::Public, 0, 0, 5, 5);
    check_false_sub_true_with_true(&mut cs, Mode::Public, Mode::Private, Mode::Public, 0, 0, 5, 5);
    check_true_sub_false_with_false(&mut cs, Mode::Public, Mode::Private, Mode::Public, 0, 0, 5, 5);
    check_true_sub_false_with_true(&mut cs, Mode::Public, Mode::Private, Mode::Public, 0, 0, 5, 5);
    check_true_sub_true_with_false(&mut cs, Mode::Public, Mode::Private, Mode::Public, 0, 0, 5, 5);
    check_true_sub_true_with_true(&mut cs, Mode::Public, Mode::Private, Mode::Public, 0, 0, 5, 5);
}

#[test]
fn test_public_sub_private_with_private() {
    let mut cs = Circuit::new();
    check_false_sub_false_with_false(&mut cs, Mode::Public, Mode::Private, Mode::Private, 0, 0, 5, 5);
    check_false_sub_false_with_true(&mut cs, Mode::Public, Mode::Private, Mode::Private, 0, 0, 5, 5);
    check_false_sub_true_with_false(&mut cs, Mode::Public, Mode::Private, Mode::Private, 0, 0, 5, 5);
    check_false_sub_true_with_true(&mut cs, Mode::Public, Mode::Private, Mode::Private, 0, 0, 5, 5);
    check_true_sub_false_with_false(&mut cs, Mode::Public, Mode::Private, Mode::Private, 0, 0, 5, 5);
    check_true_sub_false_with_true(&mut cs, Mode::Public, Mode::Private, Mode::Private, 0, 0, 5, 5);
    check_true_sub_true_with_false(&mut cs, Mode::Public, Mode::Private, Mode::Private, 0, 0, 5, 5);
    check_true_sub_true_with_true(&mut cs, Mode::Public, Mode::Private, Mode::Private, 0, 0, 5, 5);
}
