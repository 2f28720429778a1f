use snarkd_crypto::boolean::Boolean;
use snarkd_crypto::circuit::Circuit;
use snarkd_crypto::mode::Mode;
use snarkd_crypto::traits::Inject;

fn assert_scope(
    cs: &Circuit,
    num_constants: u64,
    num_public: u64,
    num_private: u64,
    num_constraints: u64,
) {
    assert!(cs.is_satisfied_in_scope(), "(is_satisfied_in_scope)");
    assert_eq!(num_constants, cs.num_constants_in_scope(), "(num_constants)");
    assert_eq!(num_public, cs.num_public_in_scope(), "(num_public)");
    assert_eq!(num_private, cs.num_private_in_scope(), "(num_private)");
    assert_eq!(num_constraints, cs.num_constraints_in_scope(), "(num_constraints)");
}

#[test]
fn test_new_constant() {
    let mut cs = Circuit::new();
    cs.push_scope("test_new_constant").unwrap();
    let candidate = Boolean::new(Mode::Constant, false, &mut cs);
    assert!(!candidate.eject_value()); // false
    assert_scope(&cs, 1, 0, 0, 0);

    let candidate = Boolean::new(Mode::Constant, true, &mut cs);
    assert!(candidate.eject_value()); // true
    assert_scope(&cs, 2, 0, 0, 0);
    cs.pop_scope("test_new_constant").unwrap();
}

#[test]
fn test_new_public() {
    let mut cs = Circuit::new();
    cs.push_scope("test_new_public").unwrap();
    let candidate = Boolean::new(Mode::Public, false, &mut cs);
    assert!(!candidate.eject_value()); // false
    assert_scope(&cs, 0, 1, 0, 1);

    let candidate = Boolean::new(Mode::Public, true, &mut cs);
    assert!(candidate.eject_value()); // true
    assert_scope(&cs, 0, 2, 0, 2);
    cs.pop_scope("test_new_public").unwrap();
}

#[test]
fn test_new_private() {
    let mut cs = Circuit::new();
    cs.push_scope("test_new_private").unwrap();
    let candidate = Boolean::new(Mode::Private, false, &mut cs);
    assert!(!candidate.eject_value()); // false
    assert_scope(&cs, 0, 0, 1, 1);

    let candidate = Boolean::new(Mode::Private, true, &mut cs);
    assert!(candidate.eject_value()); // true
    assert_scope(&cs, 0, 0, 2, 2);
    cs.pop_scope("test_new_private").unwrap();
}

#[test]
fn test_display() {
    let mut cs = Circuit::new();
    let candidate = Boolean::new(Mode::Constant, false, &mut cs);
    assert_eq!("false.constant", candidate.to_string());

    let candidate = Boolean::new(Mode::Constant, true, &mut cs);
    assert_eq!("true.constant", candidate.to_string());

    let candidate = Boolean::new(Mode::Public, false, &mut cs);
    assert_eq!("false.public", candidate.to_string());

    let candidate = Boolean::new(Mode::Public, true, &mut cs);
    assert_eq!("true.public", candidate.to_string());

    let candidate = Boolean::new(Mode::Private, false, &mut cs);
    assert_eq!("false.private", candidate.to_string());

    let candidate = Boolean::new(Mode::Private, true, &mut cs);
    assert_eq!("true.private", candidate.to_string());
}
