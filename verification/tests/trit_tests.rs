use bternary::{InvalidTritValueError, Trit};

#[test]
fn test_full_add_exhaustive() {
    let trits = [Trit::Neg, Trit::Zero, Trit::Pos];
    for &a in &trits {
        for &b in &trits {
            for &c in &trits {
                let sum = a.to_i8() + b.to_i8() + c.to_i8();
                let (result, carry) = a.full_add(b, c);
                let check_sum = result.to_i8() + (carry.to_i8() * 3);
                assert_eq!(sum, check_sum, "Failed for inputs: {:?}, {:?}, {:?}", a, b, c);
            }
        }
    }

    assert_eq!(Trit::Neg.full_add(Trit::Neg, Trit::Neg), (Trit::Zero, Trit::Neg));
    assert_eq!(Trit::Pos.full_add(Trit::Pos, Trit::Zero), (Trit::Neg, Trit::Pos));
    assert_eq!(Trit::Pos.full_add(Trit::Neg, Trit::Zero), (Trit::Zero, Trit::Zero));
}

#[test]
fn test_negate_and_neg_op() {
    assert_eq!(Trit::Pos.negate(), Trit::Neg);
    assert_eq!(Trit::Zero.negate(), Trit::Zero);
    assert_eq!(Trit::Neg.negate(), Trit::Pos);

    assert_eq!(-Trit::Pos, Trit::Neg);
    assert_eq!(-Trit::Zero, Trit::Zero);
    assert_eq!(-Trit::Neg, Trit::Pos);
}

#[test]
fn test_multiply_and_mul_op() {
    assert_eq!(Trit::Pos.multiply(Trit::Pos), Trit::Pos);
    assert_eq!(Trit::Pos.multiply(Trit::Neg), Trit::Neg);
    assert_eq!(Trit::Neg.multiply(Trit::Pos), Trit::Neg);
    assert_eq!(Trit::Neg.multiply(Trit::Neg), Trit::Pos);
    assert_eq!(Trit::Pos.multiply(Trit::Zero), Trit::Zero);
    assert_eq!(Trit::Zero.multiply(Trit::Neg), Trit::Zero);

    assert_eq!(Trit::Pos * Trit::Pos, Trit::Pos);
    assert_eq!(Trit::Neg * Trit::Pos, Trit::Neg);
    assert_eq!(Trit::Zero * Trit::Pos, Trit::Zero);
}

#[test]
fn test_try_from_i8() {
    assert_eq!(Trit::try_from(1), Ok(Trit::Pos));
    assert_eq!(Trit::try_from(0), Ok(Trit::Zero));
    assert_eq!(Trit::try_from(-1), Ok(Trit::Neg));

    assert_eq!(Trit::try_from(2), Err(InvalidTritValueError(2)));
    assert_eq!(Trit::try_from(-2), Err(InvalidTritValueError(-2)));
    assert_eq!(Trit::try_from(i8::MAX), Err(InvalidTritValueError(i8::MAX)));
    assert_eq!(Trit::try_from(i8::MIN), Err(InvalidTritValueError(i8::MIN)));
}

#[test]
fn test_full_add_every_result() {
    let trits = [Trit::Neg, Trit::Zero, Trit::Pos];
    let expected = [
        (Trit::Zero, Trit::Neg),
        (Trit::Pos, Trit::Neg),
        (Trit::Neg, Trit::Zero),
        (Trit::Zero, Trit::Zero),
        (Trit::Pos, Trit::Zero),
        (Trit::Neg, Trit::Pos),
        (Trit::Zero, Trit::Pos),
    ];
    for &a in &trits {
        for &b in &trits {
            for &c in &trits {
                let total = a.to_i8() + b.to_i8() + c.to_i8();
                assert_eq!(a.full_add(b, c), expected[(total + 3) as usize]);
            }
        }
    }
}

#[test]
fn test_trit_values_and_symbols() {
    assert_eq!(Trit::Neg.to_i8(), -1);
    assert_eq!(Trit::Zero.to_i8(), 0);
    assert_eq!(Trit::Pos.to_i8(), 1);
    assert_eq!(Trit::Neg.as_str(), "T");
    assert_eq!(Trit::Zero.as_str(), "0");
    assert_eq!(Trit::Pos.as_str(), "1");
}

#[test]
fn test_trit_multiply_is_integer_product() {
    let trits = [Trit::Neg, Trit::Zero, Trit::Pos];
    for &a in &trits {
        for &b in &trits {
            assert_eq!(a.multiply(b).to_i8(), a.to_i8() * b.to_i8());
            assert_eq!((a * b).to_i8(), a.to_i8() * b.to_i8());
        }
        assert_eq!(a.negate().negate(), a);
        assert_eq!(Trit::try_from(a.to_i8()), Ok(a));
    }
}

#[test]
fn test_try_from_i8_carries_the_value() {
    match Trit::try_from(3) {
        Err(InvalidTritValueError(v)) => assert_eq!(v, 3),
        Ok(_) => panic!("3 is no trit"),
    }
}

#[test]
fn test_trit_order() {
    assert!(Trit::Neg < Trit::Zero);
    assert!(Trit::Zero < Trit::Pos);
    assert!(Trit::Neg < Trit::Pos);
    assert_eq!(Trit::Pos.max(Trit::Neg), Trit::Pos);
}
