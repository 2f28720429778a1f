use snarkd_crypto::assignment::{Assignment, AssignmentLC};
use snarkd_crypto::boolean::Boolean;
use snarkd_crypto::circuit::Circuit;
use snarkd_crypto::count::{Count, Measurement};
use snarkd_crypto::counter::ScopeError;
use snarkd_crypto::field::Field;
use snarkd_crypto::fp::Fp;
use snarkd_crypto::linear_combination::LinearCombination;
use snarkd_crypto::mode::Mode;
use snarkd_crypto::r1cs::R1CS;
use snarkd_crypto::traits::{Adder, Equal, FromBits, Inject, Subtractor, Ternary, ToBits};
use snarkd_crypto::variable::Variable;

fn fp(n: u64) -> Fp {
    Fp::from_u64(n)
}

#[test]
fn test_fp_decimal_text() {
    assert_eq!("0", Fp::zero().to_string());
    assert_eq!("1", Fp::one().to_string());
    assert_eq!("10", fp(10).to_string());
    assert_eq!("18446744073709551615", fp(u64::MAX).to_string());
    let big = fp(u64::MAX).mul(&fp(u64::MAX));
    assert_eq!("340282366920938463426481119284349108225", big.to_string());
    // p - 1, the largest element.
    let minus_one = Fp::zero().sub(&Fp::one());
    assert_eq!(
        "258664426012969094010652733694893533536393512754914660539884262666720468348340822774968888139573360124440321458176",
        minus_one.to_string()
    );
}

#[test]
fn test_fp_arithmetic() {
    assert_eq!(fp(5), fp(2).add(&fp(3)));
    assert_eq!(fp(6), fp(2).mul(&fp(3)));
    assert_eq!(fp(1), fp(3).sub(&fp(2)));
    assert_eq!(Fp::zero(), fp(3).add(&fp(3).neg()));
    assert_eq!(fp(8), fp(4).double());
    let inverse = fp(7).inverse().unwrap();
    assert_eq!(Fp::one(), inverse.mul(&fp(7)));
    assert!(Fp::zero().inverse().is_none());
}

#[test]
fn test_linear_combination_sub_add_cancels() {
    let mut cs = Circuit::new();
    let x = cs.new_variable(Mode::Private, fp(9));
    let y = cs.new_variable(Mode::Public, fp(4));
    let a = LinearCombination::from_variable(&x).add(&LinearCombination::one());
    let b = LinearCombination::from_variable(&y);
    let back = a.sub(&b).add(&b);
    assert_eq!(a.value(), back.value());
    assert_eq!(a.to_constant(), back.to_constant());
    assert_eq!(fp(10), back.value());
    assert_eq!(1, back.len());
}

#[test]
fn test_variable_add_sub() {
    let a = Variable::Constant(fp(2));
    let b = Variable::Constant(fp(3));
    let sum = a.add(&b);
    assert!(sum.is_constant());
    assert_eq!(fp(5), sum.value());
    let difference = b.sub(&a);
    assert!(difference.is_constant());
    assert_eq!(fp(1), difference.value());

    let x = Variable::Private(0, fp(4));
    let twice = x.add(&x);
    assert_eq!(1, twice.len());
    assert_eq!(fp(8), twice.value());
    assert_eq!(fp(2), twice.term_at(0).1);
    let none = x.sub(&x);
    assert!(none.is_constant());
    assert_eq!(Fp::zero(), none.value());
    assert_eq!("4", x.to_string());
}

#[test]
fn test_mode_combine_and_witness_mode() {
    assert_eq!(Mode::Constant, Mode::combine(Mode::Constant, &[]));
    assert_eq!(Mode::Public, Mode::combine(Mode::Constant, &[Mode::Public, Mode::Constant]));
    assert_eq!(Mode::Private, Mode::combine(Mode::Public, &[Mode::Private, Mode::Public]));
    let one = LinearCombination::one();
    let mut cs = Circuit::new();
    let v = LinearCombination::from_variable(&cs.new_variable(Mode::Public, fp(3)));
    assert_eq!(Mode::Constant, Mode::witness_mode(&[&one, &one]));
    assert_eq!(Mode::Private, Mode::witness_mode(&[&one, &v]));
    assert_eq!(Mode::Constant, Mode::from_bool(true));
    assert_eq!(Mode::Private, Mode::from_bool(false));
}

#[test]
fn test_scope_errors_and_restore() {
    let mut cs = Circuit::new();
    assert_eq!(Err(ScopeError::InvalidName), cs.push_scope("a.b"));
    assert_eq!(Err(ScopeError::MismatchedScope), cs.pop_scope("outer"));
    cs.push_scope("outer").unwrap();
    let _ = Boolean::new(Mode::Private, true, &mut cs);
    assert_eq!(1, cs.num_private_in_scope());
    cs.push_scope("inner").unwrap();
    assert_eq!("outer.inner", cs.scope());
    let _ = Boolean::new(Mode::Private, false, &mut cs);
    let _ = Boolean::new(Mode::Public, false, &mut cs);
    assert_eq!(1, cs.num_private_in_scope());
    assert_eq!(1, cs.num_public_in_scope());
    assert_eq!(Err(ScopeError::MismatchedScope), cs.pop_scope("outer"));
    cs.pop_scope("inner").unwrap();
    // The counts of the enclosing scope are back as they were.
    assert_eq!(1, cs.num_private_in_scope());
    assert_eq!(0, cs.num_public_in_scope());
    assert_eq!(1, cs.num_constraints_in_scope());
    cs.pop_scope("outer").unwrap();
    assert_eq!((0, 2, 2, 3, 6), cs.count());
}

#[test]
fn test_gadgets_keep_system_satisfied() {
    let mut cs = Circuit::new();
    let a = Boolean::new(Mode::Private, true, &mut cs);
    let b = Boolean::new(Mode::Public, false, &mut cs);
    let c = Boolean::new(Mode::Private, true, &mut cs);
    let and = a.bitand(&b, &mut cs);
    let or = a.bitor(&b, &mut cs);
    let xor = a.bitxor(&c, &mut cs);
    let nand = b.nand(&c, &mut cs);
    let nor = b.nor(&c, &mut cs);
    let select = Boolean::ternary(&b, &a, &c, &mut cs);
    let equal = a.is_equal(&c, &mut cs);
    assert!(!and.eject_value());
    assert!(or.eject_value());
    assert!(!xor.eject_value());
    assert!(nand.eject_value());
    assert!(!nor.eject_value());
    assert!(select.eject_value());
    assert!(equal.eject_value());
    assert!(cs.is_satisfied());
    assert_eq!(2 + 7, cs.num_private());
}

#[test]
fn test_double_negation() {
    let mut cs = Circuit::new();
    for mode in [Mode::Constant, Mode::Public, Mode::Private] {
        for value in [true, false] {
            let a = Boolean::new(mode, value, &mut cs);
            let b = a.not();
            let c = b.not();
            assert_eq!(value, c.eject_value());
            assert_eq!(a.eject_mode(), c.eject_mode());
        }
    }
}

#[test]
fn test_adder_and_subtractor_arithmetic() {
    let mut cs = Circuit::new();
    for x in [false, true] {
        for y in [false, true] {
            for z in [false, true] {
                let a = Boolean::new(Mode::Private, x, &mut cs);
                let b = Boolean::new(Mode::Public, y, &mut cs);
                let c = Boolean::new(Mode::Private, z, &mut cs);
                let (sum, carry) = a.adder(&b, &c, &mut cs);
                let total = x as u8 + y as u8 + z as u8;
                assert_eq!(total % 2 == 1, sum.eject_value());
                assert_eq!(total >= 2, carry.eject_value());
                let (difference, borrow) = a.subtractor(&b, &c, &mut cs);
                let signed = x as i8 - y as i8 - z as i8;
                assert_eq!(signed.rem_euclid(2) == 1, difference.eject_value());
                assert_eq!(signed < 0, borrow.eject_value());
            }
        }
    }
    assert!(cs.is_satisfied());
}

#[test]
fn test_assert_eq_and_neq() {
    let mut cs = Circuit::new();
    let x = LinearCombination::from_variable(&cs.new_variable(Mode::Private, fp(5)));
    let y = LinearCombination::from_variable(&cs.new_variable(Mode::Private, fp(7)));
    cs.assert_eq(x.add(&LinearCombination::zero()), x.duplicate());
    cs.assert_neq(x.duplicate(), y.duplicate());
    assert!(cs.is_satisfied());
    assert_eq!(2, cs.num_constraints());
    // The multiplier of a variable difference is a new private variable.
    assert_eq!(3, cs.num_private());
    // Equal variables give an unsatisfied constraint, with a zero multiplier.
    let z = LinearCombination::from_variable(&cs.new_variable(Mode::Private, fp(5)));
    cs.assert_neq(x.duplicate(), z);
    assert!(!cs.is_satisfied());
    // Two distinct constants need no constraint, only a constant multiplier.
    let mut other = Circuit::new();
    other.assert_neq(LinearCombination::one(), LinearCombination::zero());
    assert_eq!(0, other.num_constraints());
    assert_eq!(1, other.num_constants());
}

#[test]
fn test_assert_true_unsatisfied() {
    let mut cs = Circuit::new();
    let b = Boolean::new(Mode::Private, false, &mut cs);
    cs.assert_true(b.into_lc());
    assert!(!cs.is_satisfied());
    cs.reset();
    assert!(cs.is_satisfied());
    assert_eq!((0, 1, 0, 0, 0), cs.count());
}

#[test]
fn test_field_mul_modes() {
    let mut cs = Circuit::new();
    let a = Field::new(Mode::Private, fp(6), &mut cs);
    let b = Field::new(Mode::Public, fp(7), &mut cs);
    let k = Field::constant(fp(2));
    let product = a.mul(&b, &mut cs);
    assert_eq!(fp(42), product.eject_value());
    assert_eq!(Mode::Private, product.eject_mode());
    assert_eq!(1, cs.num_constraints());
    let scaled = a.mul(&k, &mut cs);
    assert_eq!(fp(12), scaled.eject_value());
    assert_eq!(1, cs.num_constraints());
    let constant = k.mul(&Field::one(), &mut cs);
    assert!(constant.is_constant());
    assert_eq!(fp(3), Field::one().add(&k).eject_value());
    assert_eq!(fp(4), a.sub(&k).eject_value());
    assert!(cs.is_satisfied());
}

#[test]
fn test_eject_and_inject() {
    let mut cs = Circuit::new();
    let a = Boolean::new(Mode::Public, true, &mut cs);
    let b = Boolean::new(Mode::Private, false, &mut cs);
    let _ = a.bitand(&b, &mut cs);
    let r1cs: R1CS = cs.eject_r1cs_and_reset();
    assert_eq!((0, 1, 0, 0, 0), cs.count());
    assert_eq!(2, r1cs.num_public());
    assert_eq!(2, r1cs.num_private());
    assert_eq!(3, r1cs.num_constraints());
    // Injecting leaves the environment reset.
    cs.inject_r1cs(r1cs);
    assert_eq!((0, 1, 0, 0, 0), cs.count());
    let a = Boolean::new(Mode::Public, true, &mut cs);
    let b = Boolean::new(Mode::Private, false, &mut cs);
    let _ = a.bitand(&b, &mut cs);
    let assignment: Assignment = cs.eject_assignment_and_reset();
    assert_eq!(2, assignment.num_public());
    assert_eq!(2, assignment.num_private());
    assert_eq!(3, assignment.num_constraints());
    assert_eq!(vec![Fp::one(), Fp::one()], assignment.public_inputs());
    assert_eq!(1, cs.num_public());
}

#[test]
fn test_constraint_text() {
    let mut cs = Circuit::new();
    cs.push_scope("gate").unwrap();
    let a = Boolean::new(Mode::Private, true, &mut cs);
    cs.pop_scope("gate").unwrap();
    let _ = a;
    assert_eq!("Constraint gate:\n\t0 * 1 == 0\n\n", cs.to_string());
}

#[test]
fn test_count_add_mul() {
    let a = Count::is(1, 2, 3, 4);
    let b = Count::less_than(1, 1, 1, 1);
    let c = a.add(b);
    assert!(c.matches(2, 3, 4, 5));
    assert!(c.matches(1, 2, 3, 4));
    assert!(!c.matches(3, 3, 4, 5));
    let d = a.mul(3);
    assert!(d.matches(3, 6, 9, 12));
    assert!(!d.matches(3, 6, 9, 11));
    assert!(Count::zero().matches(0, 0, 0, 0));
    assert_eq!(Measurement::Range(3, 9), Measurement::Range(1, 3).mul(3));
    assert_eq!(Measurement::Range(1, 8), Measurement::Range(1, 5).add(Measurement::UpperBound(3)));
}

#[test]
fn test_from_and_to_bits_copy() {
    let mut cs = Circuit::new();
    let a = Boolean::new(Mode::Public, true, &mut cs);
    let bits = a.to_bits_le();
    assert_eq!(1, bits.len());
    let back = Boolean::from_bits_be(&bits);
    assert!(back.eject_value());
    assert_eq!(Mode::Public, back.eject_mode());
}

#[test]
fn test_debug_text() {
    assert_eq!("Constant(3)", Variable::Constant(fp(3)).debug_string());
    assert_eq!("Public(2, 7)", Variable::Public(2, fp(7)).debug_string());
    assert_eq!("Private(0, 5)", Variable::Private(0, fp(5)).debug_string());
    let private = LinearCombination::from_variable(&Variable::Private(0, fp(5)));
    let public = LinearCombination::from_variable(&Variable::Public(1, fp(1)));
    // Terms come out in variable order, public before private.
    let lc = private.mul(&fp(2)).add(&public).add(&LinearCombination::one());
    assert_eq!("Constant(1) + Public(1, 1) + 2 * Private(0, 5)", lc.debug_string());
    assert_eq!("Constant(0)", LinearCombination::zero().debug_string());
}

#[test]
fn test_is_boolean_type_asks_every_variable() {
    // Constant zero, value one, but the variable `Private(0)` holds two.
    let lc = Variable::Private(0, fp(2)).sub(&Variable::Private(1, fp(1)));
    assert_eq!(fp(1), lc.value());
    assert!(!lc.is_boolean_type());
    // Every variable a bit, value one.
    let lc = Variable::Private(0, fp(1)).add(&Variable::Private(1, fp(0)));
    assert!(lc.is_boolean_type());
}

fn term_indices(lc: &LinearCombination) -> Vec<u64> {
    let mut out = Vec::new();
    for i in 0..lc.len() {
        out.push(lc.term_at(i).0.index());
    }
    out
}

#[test]
fn test_add_assign_keeps_order() {
    // `self` has fewer terms than `other`: its terms stay first, the new ones follow.
    let mut a = LinearCombination::from_variable(&Variable::Private(0, fp(1)));
    let b = Variable::Private(1, fp(1)).add(&Variable::Private(2, fp(1)));
    a.add_assign(&b);
    assert_eq!(vec![0, 1, 2], term_indices(&a));
    assert_eq!(fp(3), a.value());

    // Adding zero changes nothing; adding into zero gives the other's terms in order.
    let before = term_indices(&a);
    a.add_assign(&LinearCombination::zero());
    assert_eq!(before, term_indices(&a));
    let mut z = LinearCombination::zero();
    z.add_assign(&a);
    assert_eq!(before, term_indices(&z));
    assert_eq!(a.value(), z.value());

    // A term whose coefficient becomes zero leaves, and the last term takes its place.
    let mut c = a.clone();
    c.add_assign(&LinearCombination::from_variable(&Variable::Private(0, fp(1))).neg());
    assert_eq!(vec![2, 1], term_indices(&c));
    assert_eq!(fp(2), c.value());
}

#[test]
fn test_assignment_lc_convert() {
    let lc = Variable::Public(1, fp(3))
        .add(&Variable::Private(0, fp(4)))
        .add(&LinearCombination::one());
    let converted = AssignmentLC::from_lc(&lc).convert();
    assert_eq!(
        vec![(true, 2, fp(1)), (false, 0, fp(1)), (true, 0, fp(1))],
        converted
    );
}

#[test]
fn test_mode_combine_laws() {
    let all = [Mode::Constant, Mode::Public, Mode::Private];
    for s in all {
        for a in all {
            for b in all {
                // Order does not matter, and combining in two steps is combining once.
                assert_eq!(Mode::combine(s, &[a, b]), Mode::combine(s, &[b, a]));
                assert_eq!(
                    Mode::combine(Mode::combine(s, &[a]), &[b]),
                    Mode::combine(s, &[a, b])
                );
                // Combining again changes nothing.
                let once = Mode::combine(s, &[a, b]);
                assert_eq!(once, Mode::combine(once, &[a, b]));
            }
            assert_eq!(Mode::combine(s, &[a]), Mode::combine(a, &[s]));
            assert_eq!(Mode::Private, Mode::combine(s, &[a, Mode::Private]));
        }
        assert_eq!(s, Mode::combine(s, &[]));
        assert_eq!(s, Mode::combine(Mode::Constant, &[s]));
        assert_eq!(Mode::Private, Mode::combine(Mode::Private, &[s]));
    }
}

#[test]
fn test_from_variables_first_occurrence_order() {
    let vars = [
        Variable::Private(3, fp(1)),
        Variable::Constant(fp(5)),
        Variable::Public(1, fp(2)),
        Variable::Private(3, fp(1)),
        Variable::Private(0, fp(4)),
    ];
    let lc = LinearCombination::from_variables(&vars);
    assert_eq!(vec![3, 1, 0], term_indices(&lc));
    assert_eq!(fp(2), lc.term_at(0).1);
    assert_eq!(fp(5), lc.to_constant());
}

#[test]
fn test_synthesis_plan() {
    let mut cs = Circuit::new();
    let a = Boolean::new(Mode::Public, true, &mut cs);
    let b = Boolean::new(Mode::Private, false, &mut cs);
    let _ = a.bitand(&b, &mut cs);
    let assignment = cs.eject_assignment_and_reset();
    let (public, private, constraints) = assignment.synthesis_plan();
    assert_eq!(vec![Fp::one(), Fp::one()], public);
    assert_eq!(vec![Fp::zero(), Fp::zero()], private);
    assert_eq!(3, constraints.len());
    // `a * b == c`: public variable one moves to index two, past the constant one.
    let (x, y, z) = &constraints[2];
    assert_eq!(&vec![(true, 2, fp(1)), (true, 0, fp(0))], x);
    assert_eq!(&vec![(false, 0, fp(1)), (true, 0, fp(0))], y);
    assert_eq!(&vec![(false, 1, fp(1)), (true, 0, fp(0))], z);
}
