use snarkd_crypto::boolean::Boolean;
use snarkd_crypto::circuit::Circuit;
use snarkd_crypto::mode::Mode;
use snarkd_crypto::traits::{FromBits, Inject};

fn assert_scope(
    cs: &Circuit,
    num_constants: u64,
    num_public: u64,
    num_private: u64,
    num_constraints: u64,
) {
    assert!(cs.is_satisfied_in_scope(), "(is_satisfied_in_scope)");
    assert_eq!(num_constants, cs.num_constants_in_scope(), "(num_constants)");
    assert_eq!(num_public, cs.num_public_in_scope(), "(num_public)");
    assert_eq!(num_private, cs.num_private_in_scope(), "(num_private)");
    assert_eq!(num_constraints, cs.num_constraints_in_scope(), "(num_constraints)");
}

fn check_from_bits_le(cs: &mut Circuit, 
    name: &str,
    expected: bool,
    candidate: &Boolean,
    num_constants: u64,
    num_public: u64,
    num_private: u64,
    num_constraints: u64,
) {
    cs.push_scope(name).unwrap();
    let candidate = Boolean::from_bits_le(&[candidate.duplicate()]);
    assert_eq!(expected, candidate.eject_value());
    assert_scope(cs, num_constants, num_public, num_private, num_constraints);
    cs.pop_scope(name).unwrap();
    cs.reset();
}

fn check_from_bits_be(cs: &mut Circuit, 
    name: &str,
    expected: bool,
    candidate: &Boolean,
    num_constants: u64,
    num_public: u64,
    num_private: u64,
    num_constraints: u64,
) {
    cs.push_scope(name).unwrap();
    let candidate = Boolean::from_bits_be(&[candidate.duplicate()]);
    assert_eq!(expected, candidate.eject_value());
    assert_scope(cs, num_constants, num_public, num_private, num_constraints);
    cs.pop_scope(name).unwrap();
    cs.reset();
}

#[test]
fn test_from_bits_constant() {
    let mut cs = Circuit::new();
    let candidate = Boolean::new(Mode::Constant, true, &mut cs);
    check_from_bits_le(&mut cs, "Constant", true, &candidate, 0, 0, 0, 0);
    check_from_bits_be(&mut cs, "Constant", true, &candidate, 0, 0, 0, 0);

    let candidate = Boolean::new(Mode::Constant, false, &mut cs);
    check_from_bits_le(&mut cs, "Constant", false, &candidate, 0, 0, 0, 0);
    check_from_bits_be(&mut cs, "Constant", false, &candidate, 0, 0, 0, 0);
}

#[test]
fn test_from_bits_public() {
    let mut cs = Circuit::new();
    let candidate = Boolean::new(Mode::Public, true, &mut cs);
    check_from_bits_le(&mut cs, "Public", true, &candidate, 0, 0, 0, 0);
    check_from_bits_be(&mut cs, "Public", true, &candidate, 0, 0, 0, 0);

    let candidate = Boolean::new(Mode::Public, false, &mut cs);
    check_from_bits_le(&mut cs, "Public", false, &candidate, 0, 0, 0, 0);
    check_from_bits_be(&mut cs, "Public", false, &candidate, 0, 0, 0, 0);
}

#[test]
fn test_from_bits_private() {
    let mut cs = Circuit::new();
    let candidate = Boolean::new(Mode::Private, true, &mut cs);
    check_from_bits_le(&mut cs, "Private", true, &candidate, 0, 0, 0, 0);
    check_from_bits_be(&mut cs, "Private", true, &candidate, 0, 0, 0, 0);

    let candidate = Boolean::new(Mode::Private, false, &mut cs);
    check_from_bits_le(&mut cs, "Private", false, &candidate, 0, 0, 0, 0);
    check_from_bits_be(&mut cs, "Private", false, &candidate, 0, 0, 0, 0);
}
