use bternary::{NativeInt, Tryte, TryteConversionError};

#[test]
fn test_tryte_try_from_i16() {
    for v in -364i16..=364 {
        let tryte = Tryte::try_from(v).unwrap();
        assert_eq!(tryte.to_int(), v);
        assert_eq!(i16::from(tryte), v);
    }
    assert_eq!(Tryte::try_from(365i16), Err(TryteConversionError::ValueOutOfRange(365)));
    assert_eq!(Tryte::try_from(-365i16), Err(TryteConversionError::ValueOutOfRange(-365)));
    assert_eq!(Tryte::try_from(i16::MAX), Err(TryteConversionError::ValueOutOfRange(i16::MAX)));
    assert_eq!(Tryte::try_from(i16::MIN), Err(TryteConversionError::ValueOutOfRange(i16::MIN)));
}

#[test]
fn test_tryte_try_from_u16() {
    assert_eq!(Tryte::try_from(0u16).unwrap().to_int(), 0);
    assert_eq!(Tryte::try_from(13u16).unwrap().to_string(), "000111");
    assert_eq!(Tryte::try_from(364u16).unwrap().to_int(), 364);
    assert_eq!(Tryte::try_from(365u16), Err(TryteConversionError::ValueOutOfRangeUnsigned(365)));
    assert_eq!(
        Tryte::try_from(u16::MAX),
        Err(TryteConversionError::ValueOutOfRangeUnsigned(u16::MAX))
    );
}

#[test]
fn test_tryte_from_i8_and_u8() {
    assert_eq!(Tryte::from(i8::MIN).to_int(), -128);
    assert_eq!(Tryte::from(i8::MAX).to_int(), 127);
    assert_eq!(Tryte::from(-1i8).to_string(), "00000T");
    assert_eq!(Tryte::from(0u8).to_int(), 0);
    assert_eq!(Tryte::from(u8::MAX).to_int(), 255);
}

#[test]
fn test_i16_from_tryte() {
    assert_eq!(i16::from(Tryte::from_int(-364)), -364);
    assert_eq!(i16::from(Tryte::from_int(364)), 364);
    assert_eq!(i16::from(Tryte::zero()), 0);
}

#[test]
fn test_native_int_conversions() {
    assert_eq!(<i16 as NativeInt>::try_from_i64(32767), Some(32767i16));
    assert_eq!(<i16 as NativeInt>::try_from_i64(-32768), Some(-32768i16));
    assert_eq!(<i16 as NativeInt>::try_from_i64(32768), None);
    assert_eq!(<i16 as NativeInt>::try_from_i64(-32769), None);
    assert_eq!(<i64 as NativeInt>::try_from_i64(i64::MIN), Some(i64::MIN));
    assert_eq!(NativeInt::to_i64(-5i16), -5i64);
    assert_eq!(NativeInt::to_i64(7i64), 7i64);
}
