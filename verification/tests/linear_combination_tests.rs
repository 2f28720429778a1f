use snarkd_crypto::circuit::Circuit;
use snarkd_crypto::fp::Fp;
use snarkd_crypto::linear_combination::LinearCombination;
use snarkd_crypto::mode::Mode;
use snarkd_crypto::variable::Variable;

#[test]
fn test_zero() {
    let zero = Fp::zero();

    let candidate = LinearCombination::zero();
    assert_eq!(zero, candidate.to_constant());
    assert_eq!(0, candidate.len());
    assert_eq!(zero, candidate.value());
}

#[test]
fn test_one() {
    let one = Fp::one();

    let candidate = LinearCombination::one();
    assert_eq!(one, candidate.to_constant());
    assert_eq!(0, candidate.len());
    assert_eq!(one, candidate.value());
}

#[test]
fn test_two() {
    let one = Fp::one();
    let two = one.add(&one);

    let candidate = LinearCombination::one().add(&LinearCombination::one());
    assert_eq!(two, candidate.to_constant());
    assert_eq!(0, candidate.len());
    assert_eq!(two, candidate.value());
}

#[test]
fn test_is_constant() {
    let zero = Fp::zero();
    let one = Fp::one();

    let candidate = LinearCombination::zero();
    assert!(candidate.is_constant());
    assert_eq!(zero, candidate.to_constant());
    assert_eq!(zero, candidate.value());

    let candidate = LinearCombination::one();
    assert!(candidate.is_constant());
    assert_eq!(one, candidate.to_constant());
    assert_eq!(one, candidate.value());
}

#[test]
fn test_mul() {
    let zero = Fp::zero();
    let one = Fp::one();
    let two = one.add(&one);
    let four = two.add(&two);

    let start = LinearCombination::from_variable(&Variable::Public(1, one));
    assert!(!start.is_constant());
    assert_eq!(one, start.value());

    // Compute 1 * 4.
    let candidate = start.mul(&four);
    assert_eq!(four, candidate.value());
    assert_eq!(zero, candidate.to_constant());
    assert_eq!(1, candidate.len());

    let (candidate_variable, candidate_coefficient) = candidate.term_at(0);
    assert!(candidate_variable.is_public());
    assert_eq!(one, candidate_variable.value());
    assert_eq!(four, candidate_coefficient);
}

#[test]
fn test_num_additions() {
    let mut cs = Circuit::new();
    let one_public = &cs.new_variable(Mode::Public, Fp::one());
    let one_private = &cs.new_variable(Mode::Private, Fp::one());
    let two_private = one_private.add(one_private);

    let candidate = LinearCombination::zero();
    assert_eq!(0, candidate.num_additions());

    let candidate = LinearCombination::one();
    assert_eq!(0, candidate.num_additions());

    let candidate = LinearCombination::zero().add(&LinearCombination::from_variable(one_public));
    assert_eq!(0, candidate.num_additions());

    let candidate = LinearCombination::one().add(&LinearCombination::from_variable(one_public));
    assert_eq!(1, candidate.num_additions());

    let candidate = LinearCombination::zero().add(&LinearCombination::from_variable(one_public)).add(&LinearCombination::from_variable(one_public));
    assert_eq!(0, candidate.num_additions());

    let candidate = LinearCombination::one().add(&LinearCombination::from_variable(one_public)).add(&LinearCombination::from_variable(one_public));
    assert_eq!(1, candidate.num_additions());

    let candidate = LinearCombination::zero().add(&LinearCombination::from_variable(one_public)).add(&LinearCombination::from_variable(one_private));
    assert_eq!(1, candidate.num_additions());

    let candidate = LinearCombination::one().add(&LinearCombination::from_variable(one_public)).add(&LinearCombination::from_variable(one_private));
    assert_eq!(2, candidate.num_additions());

    let candidate = LinearCombination::zero().add(&LinearCombination::from_variable(one_public)).add(&LinearCombination::from_variable(one_private)).add(&LinearCombination::from_variable(one_public));
    assert_eq!(1, candidate.num_additions());

    let candidate = LinearCombination::one().add(&LinearCombination::from_variable(one_public)).add(&LinearCombination::from_variable(one_private)).add(&LinearCombination::from_variable(one_public));
    assert_eq!(2, candidate.num_additions());

    let candidate = LinearCombination::zero().add(&LinearCombination::from_variable(one_public)).add(&LinearCombination::from_variable(one_private)).add(&LinearCombination::from_variable(one_public)).add(&LinearCombination::from_variable(one_private));
    assert_eq!(1, candidate.num_additions());

    let candidate = LinearCombination::one().add(&LinearCombination::from_variable(one_public)).add(&LinearCombination::from_variable(one_private)).add(&LinearCombination::from_variable(one_public)).add(&LinearCombination::from_variable(one_private));
    assert_eq!(2, candidate.num_additions());

    let candidate = LinearCombination::zero().add(&LinearCombination::zero()).add(&LinearCombination::from_variable(one_public)).add(&LinearCombination::from_variable(one_private)).add(&LinearCombination::from_variable(one_public)).add(&LinearCombination::from_variable(one_private));
    assert_eq!(1, candidate.num_additions());

    let candidate = LinearCombination::one().add(&LinearCombination::zero()).add(&LinearCombination::from_variable(one_public)).add(&LinearCombination::from_variable(one_private)).add(&LinearCombination::from_variable(one_public)).add(&LinearCombination::from_variable(one_private));
    assert_eq!(2, candidate.num_additions());

    let candidate = LinearCombination::one().add(&LinearCombination::zero()).add(&LinearCombination::one()).add(&LinearCombination::from_variable(one_public)).add(&LinearCombination::from_variable(one_private)).add(&LinearCombination::from_variable(one_public)).add(&LinearCombination::from_variable(one_private));
    assert_eq!(2, candidate.num_additions());

    let candidate = LinearCombination::zero().add(&LinearCombination::zero()).add(&LinearCombination::from_variable(one_public)).add(&LinearCombination::from_variable(one_private)).add(&LinearCombination::from_variable(one_public)).add(&LinearCombination::from_variable(one_private)).add(&two_private);
    assert_eq!(1, candidate.num_additions());

    let candidate = LinearCombination::one().add(&LinearCombination::zero()).add(&LinearCombination::from_variable(one_public)).add(&LinearCombination::from_variable(one_private)).add(&LinearCombination::from_variable(one_public)).add(&LinearCombination::from_variable(one_private)).add(&two_private);
    assert_eq!(2, candidate.num_additions());

    let candidate = LinearCombination::one().add(&LinearCombination::zero()).add(&LinearCombination::one()).add(&LinearCombination::from_variable(one_public)).add(&LinearCombination::from_variable(one_private)).add(&LinearCombination::from_variable(one_public)).add(&LinearCombination::from_variable(one_private)).add(&two_private);
    assert_eq!(2, candidate.num_additions());

    // Now check with subtractions.

    let candidate = LinearCombination::zero().sub(&LinearCombination::from_variable(one_public));
    assert_eq!(0, candidate.num_additions());

    let candidate = LinearCombination::one().sub(&LinearCombination::from_variable(one_public));
    assert_eq!(1, candidate.num_additions());

    let candidate = LinearCombination::zero().add(&LinearCombination::from_variable(one_public)).sub(&LinearCombination::from_variable(one_public));
    assert_eq!(0, candidate.num_additions());

    let candidate = LinearCombination::one().add(&LinearCombination::from_variable(one_public)).sub(&LinearCombination::from_variable(one_public));
    assert_eq!(0, candidate.num_additions());

    let candidate = LinearCombination::zero().add(&LinearCombination::from_variable(one_public)).sub(&LinearCombination::from_variable(one_private));
    assert_eq!(1, candidate.num_additions());

    let candidate = LinearCombination::one().add(&LinearCombination::from_variable(one_public)).sub(&LinearCombination::from_variable(one_private));
    assert_eq!(2, candidate.num_additions());

    let candidate = LinearCombination::zero().add(&LinearCombination::from_variable(one_public)).add(&LinearCombination::from_variable(one_private)).sub(&LinearCombination::from_variable(one_public));
    assert_eq!(0, candidate.num_additions());

    let candidate = LinearCombination::one().add(&LinearCombination::from_variable(one_public)).add(&LinearCombination::from_variable(one_private)).sub(&LinearCombination::from_variable(one_public));
    assert_eq!(1, candidate.num_additions());

    let candidate = LinearCombination::zero().add(&LinearCombination::from_variable(one_public)).add(&LinearCombination::from_variable(one_private)).add(&LinearCombination::from_variable(one_public)).sub(&LinearCombination::from_variable(one_private));
    assert_eq!(0, candidate.num_additions());

    let candidate = LinearCombination::one().add(&LinearCombination::from_variable(one_public)).add(&LinearCombination::from_variable(one_private)).add(&LinearCombination::from_variable(one_public)).sub(&LinearCombination::from_variable(one_private));
    assert_eq!(1, candidate.num_additions());

    let candidate = LinearCombination::zero().add(&LinearCombination::zero()).add(&LinearCombination::from_variable(one_public)).add(&LinearCombination::from_variable(one_private)).add(&LinearCombination::from_variable(one_public)).sub(&LinearCombination::from_variable(one_private));
    assert_eq!(0, candidate.num_additions());

    let candidate = LinearCombination::one().add(&LinearCombination::zero()).add(&LinearCombination::from_variable(one_public)).add(&LinearCombination::from_variable(one_private)).add(&LinearCombination::from_variable(one_public)).sub(&LinearCombination::from_variable(one_private));
    assert_eq!(1, candidate.num_additions());

    let candidate = LinearCombination::one().add(&LinearCombination::zero()).add(&LinearCombination::one()).add(&LinearCombination::from_variable(one_public)).add(&LinearCombination::from_variable(one_private)).add(&LinearCombination::from_variable(one_public)).sub(&LinearCombination::from_variable(one_private));
    assert_eq!(1, candidate.num_additions());

    let candidate = LinearCombination::zero().add(&LinearCombination::zero()).add(&LinearCombination::from_variable(one_public)).add(&LinearCombination::from_variable(one_private)).add(&LinearCombination::from_variable(one_public)).add(&LinearCombination::from_variable(one_private)).sub(&two_private);
    assert_eq!(0, candidate.num_additions());

    let candidate = LinearCombination::one().add(&LinearCombination::zero()).add(&LinearCombination::from_variable(one_public)).add(&LinearCombination::from_variable(one_private)).add(&LinearCombination::from_variable(one_public)).add(&LinearCombination::from_variable(one_private)).sub(&two_private);
    assert_eq!(1, candidate.num_additions());

    let candidate = LinearCombination::one().add(&LinearCombination::zero()).add(&LinearCombination::one()).add(&LinearCombination::from_variable(one_public)).add(&LinearCombination::from_variable(one_private)).add(&LinearCombination::from_variable(one_public)).add(&LinearCombination::from_variable(one_private)).sub(&two_private);
    assert_eq!(1, candidate.num_additions());
}
