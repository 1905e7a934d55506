use bternary::word::TRITS_IN_WORD;
use bternary::{BalancedInt, Trit, Tryte, Word};

fn testing_trits() -> [Trit; 24] {
    [
        Trit::Neg, Trit::Zero, Trit::Pos, Trit::Neg, Trit::Pos, Trit::Zero,
        Trit::Neg, Trit::Zero, Trit::Pos, Trit::Neg, Trit::Pos, Trit::Zero,
        Trit::Neg, Trit::Zero, Trit::Pos, Trit::Neg, Trit::Pos, Trit::Zero,
        Trit::Neg, Trit::Zero, Trit::Pos, Trit::Neg, Trit::Pos, Trit::Zero,
    ]
}

#[test]
fn word_test_word_zero() {
    let word = Word::zero();
    assert_eq!(word, Word::new([Trit::Zero; TRITS_IN_WORD]));
}

#[test]
fn word_test_word_from_trit() {
    let word = Word::from(Trit::Pos);
    let mut expected = [Trit::Zero; TRITS_IN_WORD];
    expected[0] = Trit::Pos;
    assert_eq!(word, Word::new(expected));
}

#[test]
fn word_test_word_from_trits() {
    let word = Word::from(testing_trits());
    assert_eq!(word, Word::new(testing_trits()));
}

#[test]
fn word_test_word_display() {
    let word = Word::from(testing_trits());
    let display = word.to_string();
    let expected = "01T10T01T10T01T10T01T10T";
    assert_eq!(display, expected);
}

#[test]
fn test_word_zero() {
    let word = Word::zero();
    assert_eq!(word, Word::new([Trit::Zero; TRITS_IN_WORD]));
}

#[test]
fn test_word_from_trit() {
    let word = Word::from(Trit::Pos);
    let mut expected = [Trit::Zero; TRITS_IN_WORD];
    expected[0] = Trit::Pos;
    assert_eq!(word, Word::new(expected));
}

#[test]
fn test_word_from_trits() {
    let trits = [
        Trit::Neg, Trit::Zero, Trit::Pos, Trit::Neg, Trit::Pos, Trit::Zero,
        Trit::Neg, Trit::Zero, Trit::Pos, Trit::Neg, Trit::Pos, Trit::Zero,
        Trit::Neg, Trit::Zero, Trit::Pos, Trit::Neg, Trit::Pos, Trit::Zero,
        Trit::Neg, Trit::Zero, Trit::Pos, Trit::Neg, Trit::Pos, Trit::Zero,
    ];
    let word = Word::from(trits);
    assert_eq!(word, Word::new(trits));
}

#[test]
fn test_word_display() {
    let trits = [
        Trit::Neg, Trit::Zero, Trit::Pos, Trit::Neg, Trit::Pos, Trit::Zero,
        Trit::Neg, Trit::Zero, Trit::Pos, Trit::Neg, Trit::Pos, Trit::Zero,
        Trit::Neg, Trit::Zero, Trit::Pos, Trit::Neg, Trit::Pos, Trit::Zero,
        Trit::Neg, Trit::Zero, Trit::Pos, Trit::Neg, Trit::Pos, Trit::Zero,
    ];
    let word = Word::from(trits);
    let display = word.to_string();
    let expected = "01T10T01T10T01T10T01T10T";
    assert_eq!(display, expected);
}

#[test]
fn test_width_constants() {
    assert_eq!(bternary::tryte::TRITS_IN_TRYTE, 6);
    assert_eq!(bternary::word::TRYTES_IN_WORD, 4);
    assert_eq!(TRITS_IN_WORD, 24);
}

#[test]
fn test_default_is_zero() {
    assert_eq!(Word::default(), Word::zero());
    assert_eq!(Tryte::default(), Tryte::zero());
    assert!(Word::default().is_zero());
}

#[test]
fn test_from_trit_sets_index_zero() {
    let tryte = Tryte::from(Trit::Neg);
    assert_eq!(tryte[0], Trit::Neg);
    for i in 1..6 {
        assert_eq!(tryte[i], Trit::Zero);
    }
    assert_eq!(tryte.to_int(), -1);
}

#[test]
fn test_from_trit_without_room() {
    let empty = BalancedInt::<0>::from(Trit::Pos);
    assert_eq!(empty, BalancedInt::<0>::zero());
    assert!(empty.is_zero());
    assert_eq!(empty.to_string(), "");
}

#[test]
fn test_iter_goes_from_least_significant() {
    let word = Word::new(testing_trits());
    let seen: Vec<Trit> = word.iter().copied().collect();
    assert_eq!(seen.len(), 24);
    assert_eq!(seen[0], Trit::Neg);
    assert_eq!(seen[1], Trit::Zero);
    assert_eq!(seen[2], Trit::Pos);
    assert_eq!(seen, testing_trits().to_vec());
}

#[test]
fn test_iter_mut_and_index_mut_write_trits() {
    let mut tryte = Tryte::zero();
    for t in tryte.iter_mut() {
        *t = Trit::Pos;
    }
    assert_eq!(tryte.to_int(), 364);
    tryte[5] = Trit::Zero;
    assert_eq!(tryte.to_int(), 121);
    tryte[0] = Trit::Neg;
    assert_eq!(tryte.to_int(), 119);
}

#[test]
fn test_tryte_zero_and_iter() {
    let tryte = Tryte::zero();
    assert_eq!(tryte.iter().count(), 6);
    assert!(tryte.iter().all(|&t| t == Trit::Zero));
}
