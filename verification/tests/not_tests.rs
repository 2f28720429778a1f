use snarkd_crypto::boolean::Boolean;
use snarkd_crypto::circuit::Circuit;
use snarkd_crypto::count::Count;
use snarkd_crypto::mode::Mode;
use snarkd_crypto::traits::Inject;

fn assert_count(cs: &Circuit, count: &Count) {
    assert!(cs.is_satisfied_in_scope(), "(is_satisfied_in_scope)");
    assert!(count.matches(
        cs.num_constants_in_scope(),
        cs.num_public_in_scope(),
        cs.num_private_in_scope(),
        cs.num_constraints_in_scope(),
    ));
}

fn check_not(cs: &mut Circuit, name: &str, expected: bool, candidate_input: Boolean) {
    cs.push_scope(name).unwrap();
    let mode = candidate_input.eject_mode();
    let candidate_output = candidate_input.not();
    assert_eq!(expected, candidate_output.eject_value());
    assert_count(cs, &Count::is(0, 0, 0, 0));
    let expected_mode = match mode {
        Mode::Constant => Mode::Constant,
        _ => Mode::Private,
    };
    assert_eq!(expected_mode, candidate_output.eject_mode());
    cs.pop_scope(name).unwrap();
}

#[test]
fn test_not_constant() {
    let mut cs = Circuit::new();
    // NOT false
    let expected = true;
    let candidate_input = Boolean::new(Mode::Constant, false, &mut cs);
    check_not(&mut cs, "NOT false", expected, candidate_input);

    // NOT true
    let expected = false;
    let candidate_input = Boolean::new(Mode::Constant, true, &mut cs);
    check_not(&mut cs, "NOT true", expected, candidate_input);
}

#[test]
fn test_not_public() {
    let mut cs = Circuit::new();
    // NOT false
    let expected = true;
    let candidate_input = Boolean::new(Mode::Public, false, &mut cs);
    check_not(&mut cs, "NOT false", expected, candidate_input);

    // NOT true
    let expected = false;
    let candidate_input = Boolean::new(Mode::Public, true, &mut cs);
    check_not(&mut cs, "NOT true", expected, candidate_input);
}

#[test]
fn test_not_private() {
    let mut cs = Circuit::new();
    // NOT false
    let expected = true;
    let candidate_input = Boolean::new(Mode::Private, false, &mut cs);
    check_not(&mut cs, "NOT false", expected, candidate_input);

    // NOT true
    let expected = false;
    let candidate_input = Boolean::new(Mode::Private, true, &mut cs);
    check_not(&mut cs, "NOT true", expected, candidate_input);
}
