use bternary::{Trit, Tryte, Word};

fn word(val: i64) -> Word {
    Word::from_int(val)
}

fn tryte(val: i16) -> Tryte {
    Tryte::from_int(val)
}

#[test]
fn test_negation() {
    assert_eq!(word(0).negate(), word(0));
    assert_eq!((-word(123)).to_int(), -123);
    assert_eq!((-word(-55)).to_int(), 55);
    let val = word(99);
    assert_eq!(-(-val), val);
}

#[test]
fn test_addition() {
    assert_eq!((word(5) + word(3)).to_int(), 8);
    assert_eq!((word(-5) + word(3)).to_int(), -2);
    assert_eq!((word(5) + word(-3)).to_int(), 2);
    assert_eq!((word(-5) + word(-3)).to_int(), -8);
    assert_eq!((word(10) + word(0)).to_int(), 10);
    let max = word(141_214_768_240);
    let one = word(1);
    assert_eq!((max + one).to_int(), -141_214_768_240);
}

#[test]
fn test_subtraction() {
    assert_eq!((word(5) - word(3)).to_int(), 2);
    assert_eq!((word(-5) - word(3)).to_int(), -8);
    assert_eq!((word(5) - word(-3)).to_int(), 8);
    assert_eq!((word(-5) - word(-3)).to_int(), -2);
    assert_eq!((word(10) - word(0)).to_int(), 10);
}

#[test]
fn test_multiplication() {
    assert_eq!((word(5) * word(3)).to_int(), 15);
    assert_eq!((word(-5) * word(3)).to_int(), -15);
    assert_eq!((word(5) * word(-3)).to_int(), -15);
    assert_eq!((word(-5) * word(-3)).to_int(), 15);
    assert_eq!((word(10) * word(0)).to_int(), 0);
    assert_eq!((word(10) * word(1)).to_int(), 10);
    assert_eq!((word(10) * word(-1)).to_int(), -10);
}

#[test]
fn test_division() {
    assert_eq!((word(10) / word(3)).to_int(), 3);
    assert_eq!((word(10) / word(-3)).to_int(), -3);
    assert_eq!((word(-10) / word(3)).to_int(), -3);
    assert_eq!((word(-10) / word(-3)).to_int(), 3);
    assert_eq!((word(0) / word(5)).to_int(), 0);
    assert_eq!((word(3) / word(10)).to_int(), 0);
    assert_eq!((word(364) / word(10)).to_int(), 36);
}

#[test]
fn test_remainder() {
    assert_eq!((word(10) % word(3)).to_int(), 1);
    assert_eq!((word(10) % word(-3)).to_int(), 1);
    assert_eq!((word(-10) % word(3)).to_int(), -1);
    assert_eq!((word(-10) % word(-3)).to_int(), -1);
    assert_eq!((word(5) % word(3)).to_int(), -1);
    assert_eq!((word(0) % word(3)).to_int(), 0);
}

#[test]
fn test_shift_left() {
    assert_eq!(word(10).shift_left(1).to_int(), 30);
    assert_eq!(word(-15).shift_left(1).to_int(), -45);
    assert_eq!(word(15_690_529_805).shift_left(2).to_int(), -141_214_768_236);
    assert_eq!(word(100).shift_left(0).to_int(), 100);
    assert!(word(300).shift_left(24).is_zero());
    assert!(word(300).shift_left(30).is_zero());
}

#[test]
fn test_full_add_gives_the_carry() {
    let (sum, carry) = tryte(364).full_add(&tryte(364), Trit::Pos);
    assert_eq!(sum.to_int(), 0);
    assert_eq!(carry, Trit::Pos);
    let (sum, carry) = tryte(-364).full_add(&tryte(-364), Trit::Neg);
    assert_eq!(sum.to_int(), 0);
    assert_eq!(carry, Trit::Neg);
    let (sum, carry) = tryte(200).full_add(&tryte(200), Trit::Zero);
    assert_eq!(sum.to_int(), -329);
    assert_eq!(carry, Trit::Pos);
    let (sum, carry) = tryte(5).full_add(&tryte(3), Trit::Neg);
    assert_eq!(sum.to_int(), 7);
    assert_eq!(carry, Trit::Zero);
}

#[test]
fn test_full_add_sum_and_carry_make_the_total() {
    for a in [-364i16, -200, -1, 0, 1, 13, 364] {
        for b in [-364i16, -122, 0, 5, 243, 364] {
            for c in [Trit::Neg, Trit::Zero, Trit::Pos] {
                let (sum, carry) = tryte(a).full_add(&tryte(b), c);
                let total = a as i32 + b as i32 + c.to_i8() as i32;
                assert_eq!(sum.to_int() as i32 + 729 * carry.to_i8() as i32, total);
            }
        }
    }
}

#[test]
fn test_addition_wraps_at_both_ends() {
    assert_eq!((tryte(364) + tryte(1)).to_int(), -364);
    assert_eq!((tryte(-364) + tryte(-1)).to_int(), 364);
    assert_eq!((tryte(-364) - tryte(1)).to_int(), 364);
    assert_eq!((tryte(364) + tryte(364)).to_int(), -1);
}

#[test]
fn test_negation_is_an_involution() {
    for v in -364i16..=364 {
        let x = tryte(v);
        assert_eq!(x.negate().negate(), x);
        assert_eq!(x.negate().to_int(), -v);
        assert_eq!((-x).to_int(), -v);
    }
    assert_eq!(tryte(0).negate(), tryte(0));
}

#[test]
fn test_subtraction_is_addition_of_the_negation() {
    for a in [-364i16, -100, -5, 0, 7, 250, 364] {
        for b in [-364i16, -13, 0, 1, 200, 364] {
            assert_eq!(tryte(a) - tryte(b), tryte(a) + tryte(b).negate());
        }
    }
}

#[test]
fn test_multiplication_by_zero_and_one() {
    for v in [-364i16, -99, -1, 0, 1, 42, 364] {
        assert_eq!(tryte(v) * tryte(0), tryte(0));
        assert_eq!(tryte(v) * tryte(1), tryte(v));
        assert_eq!(tryte(v).multiply(&tryte(-1)), tryte(v).negate());
    }
}

#[test]
fn test_multiplication_wraps() {
    assert_eq!((tryte(100) * tryte(100)).to_int(), -206);
    assert_eq!((tryte(-27) * tryte(27)).to_int(), 0);
    assert_eq!((tryte(20) * tryte(-18)).to_int(), -360);
    assert_eq!(tryte(13).multiply(&tryte(28)).to_int(), 364);
}

#[test]
fn test_shift_left_by_one_is_times_three() {
    for v in [-364i16, -122, -121, -1, 0, 1, 40, 121, 122, 364] {
        assert_eq!(tryte(v).shift_left(1), tryte(v) * tryte(3));
    }
    assert_eq!(tryte(13).shift_left(5).to_int(), 243);
    assert_eq!(tryte(300).shift_left(2).to_int(), -216);
    assert!(tryte(364).shift_left(6).is_zero());
    assert!(tryte(364).shift_left(usize::MAX).is_zero());
}

#[test]
fn test_abs() {
    assert_eq!(tryte(-364).abs().to_int(), 364);
    assert_eq!(tryte(364).abs().to_int(), 364);
    assert_eq!(tryte(0).abs().to_int(), 0);
    assert_eq!(tryte(-5).abs(), tryte(5));
    assert_eq!(word(-141_214_768_240).abs().to_int(), 141_214_768_240);
}

#[test]
fn test_div_rem_of_small_dividends_is_exact() {
    for a in -182i16..=182 {
        for b in [-364i16, -40, -7, -2, -1, 1, 2, 3, 5, 13, 121, 364] {
            let (q, r) = tryte(a).div_rem(tryte(b));
            assert_eq!(q.to_int() * b + r.to_int(), a);
            assert!(2 * r.to_int().abs() <= b.abs());
        }
    }
}

#[test]
fn test_div_rem_values() {
    let cases: &[(i16, i16, i16, i16)] = &[
        (7, 2, 4, -1),
        (-7, 2, -4, 1),
        (5, 2, 2, 1),
        (9, 2, 5, -1),
        (1, 2, 1, -1),
        (-1, 2, -1, 1),
        (13, 5, 3, -2),
        (200, 7, 29, -3),
        (-200, 7, -29, 3),
        (364, -364, -1, 0),
        (364, 1, 364, 0),
    ];
    for &(a, b, q, r) in cases {
        let (quotient, remainder) = tryte(a).div_rem(tryte(b));
        assert_eq!(quotient.to_int(), q, "quotient of {} by {}", a, b);
        assert_eq!(remainder.to_int(), r, "remainder of {} by {}", a, b);
    }
}

#[test]
fn test_div_rem_of_large_dividends_wraps() {
    let cases: &[(i16, i16, i16, i16)] = &[
        (364, 5, 40, 164),
        (-364, 5, 40, 165),
        (-364, 1, 364, 1),
        (300, 2, 121, 58),
        (-300, 2, 121, 187),
    ];
    for &(a, b, q, r) in cases {
        let (quotient, remainder) = tryte(a).div_rem(tryte(b));
        assert_eq!(quotient.to_int(), q, "quotient of {} by {}", a, b);
        assert_eq!(remainder.to_int(), r, "remainder of {} by {}", a, b);
        let back = (q as i32 * b as i32 + r as i32 - a as i32).rem_euclid(729);
        assert_eq!(back, 0);
        assert!(r.abs() <= a.abs());
    }
}

#[test]
fn test_compound_assignment() {
    let mut x = tryte(10);
    x += tryte(5);
    assert_eq!(x.to_int(), 15);
    x -= tryte(20);
    assert_eq!(x.to_int(), -5);
    x *= tryte(-7);
    assert_eq!(x.to_int(), 35);
    x /= tryte(3);
    assert_eq!(x.to_int(), 12);
    x %= tryte(5);
    assert_eq!(x.to_int(), 2);
    let mut y = tryte(364);
    y += tryte(1);
    assert_eq!(y.to_int(), -364);
}
