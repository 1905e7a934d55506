use bternary::{BIntError, Trit, Tryte, Word};

#[test]
fn test_read_trit_range_reads_a_field() {
    let word = Word::from_int(13 + 27 * 5);
    assert_eq!(word.read_trit_range(0, 2), Ok(13));
    assert_eq!(word.read_trit_range(3, 5), Ok(5));
    assert_eq!(word.read_trit_range(0, 23), Ok(148));
    assert_eq!(word.read_trit_range(1, 1), Ok(1));
    assert_eq!(word.read_trit_range(6, 23), Ok(0));
    let negative = Word::from_int(-148);
    assert_eq!(negative.read_trit_range(0, 2), Ok(-13));
    assert_eq!(negative.read_trit_range(3, 5), Ok(-5));
}

#[test]
fn test_read_trit_range_rejects_a_bad_range() {
    let word = Word::from_int(7);
    assert_eq!(word.read_trit_range(3, 2), Err(BIntError::RangeInvalid(3, 2)));
    assert_eq!(word.read_trit_range(0, 24), Err(BIntError::RangeInvalid(0, 24)));
    assert_eq!(word.read_trit_range(24, 24), Err(BIntError::RangeInvalid(24, 24)));
    assert_eq!(
        word.read_trit_range(usize::MAX, usize::MAX),
        Err(BIntError::RangeInvalid(usize::MAX, usize::MAX))
    );
    let tryte = Tryte::from_int(7);
    assert_eq!(tryte.read_trit_range(0, 6), Err(BIntError::RangeInvalid(0, 6)));
    assert_eq!(tryte.read_trit_range(0, 5), Ok(7));
}

#[test]
fn test_write_trit_range_writes_a_field() {
    let mut word = Word::from_int(1);
    assert_eq!(word.write_trit_range(-13, 3, 5), Ok(()));
    assert_eq!(word.to_int(), 1 - 13 * 27);
    assert_eq!(word.read_trit_range(3, 5), Ok(-13));
    assert_eq!(word.read_trit_range(0, 2), Ok(1));
    assert_eq!(word.write_trit_range(0, 3, 5), Ok(()));
    assert_eq!(word.to_int(), 1);
}

#[test]
fn test_write_trit_range_round_trip() {
    for start in 0..6usize {
        for end in start..6usize {
            let len = (end - start + 1) as u32;
            let max = (3i16.pow(len) - 1) / 2;
            for v in -max..=max {
                let mut tryte = Tryte::new([Trit::Pos; 6]);
                assert_eq!(tryte.write_trit_range(v, start, end), Ok(()));
                assert_eq!(tryte.read_trit_range(start, end), Ok(v));
                for i in 0..6 {
                    if i < start || i > end {
                        assert_eq!(tryte[i], Trit::Pos);
                    }
                }
            }
        }
    }
}

#[test]
fn test_write_trit_range_rejects_what_does_not_fit() {
    let mut tryte = Tryte::zero();
    assert_eq!(tryte.write_trit_range(5, 2, 3), Err(BIntError::ValueRange));
    assert_eq!(tryte.write_trit_range(-5, 2, 3), Err(BIntError::ValueRange));
    assert_eq!(tryte.write_trit_range(4, 2, 3), Ok(()));
    assert_eq!(tryte.to_int(), 36);
    assert_eq!(tryte.write_trit_range(365, 0, 5), Err(BIntError::ValueRange));
    assert_eq!(tryte.write_trit_range(2, 0, 0), Err(BIntError::ValueRange));
    let mut word = Word::zero();
    assert_eq!(word.write_trit_range(141_214_768_241, 0, 23), Err(BIntError::ValueRange));
    assert_eq!(word.write_trit_range(141_214_768_240, 0, 23), Ok(()));
    assert_eq!(word.to_int(), 141_214_768_240);
}

#[test]
fn test_write_trit_range_leaves_the_low_trits_when_it_fails() {
    let mut tryte = Tryte::new([Trit::Pos; 6]);
    assert_eq!(tryte.write_trit_range(5, 2, 3), Err(BIntError::ValueRange));
    assert_eq!(tryte.to_string(), "11TT11");
    assert_eq!(tryte.read_trit_range(2, 3), Ok(-4));
    assert_eq!(tryte.write_trit_range(-14, 0, 2), Err(BIntError::ValueRange));
    assert_eq!(tryte.to_string(), "11T111");
    assert_eq!(tryte.read_trit_range(0, 2), Ok(13));
}

#[test]
fn test_write_trit_range_rejects_a_bad_range() {
    let mut tryte = Tryte::from_int(100);
    assert_eq!(tryte.write_trit_range(0, 4, 3), Err(BIntError::RangeInvalid(4, 3)));
    assert_eq!(tryte.write_trit_range(0, 0, 6), Err(BIntError::RangeInvalid(0, 6)));
    assert_eq!(tryte.write_trit_range(0, 6, 6), Err(BIntError::RangeInvalid(6, 6)));
    assert_eq!(tryte.to_int(), 100);
}
