//! The tryte: a balanced ternary integer of six trits, and its checked
//! conversions to and from native integers.
use crate::balanced_int::{ArithmeticTernaryInteger, BalancedInt, TernaryIntegerRepr};
use crate::digits::{fits, lemma_seq_value_bound, lemma_wrap_fits, max_value, pow3};
use vstd::prelude::*;
use vstd::std_specs::convert::{FromSpecImpl, TryFromSpecImpl};

verus! {

/// The number of trits in a tryte.
pub const TRITS_IN_TRYTE: usize = 6;

/// The largest integer that a tryte holds. The smallest is its negation.
pub const TRYTE_MAX: i16 = 364;

/// A balanced ternary integer of six trits, from -364 to 364.
pub type Tryte = BalancedInt<TRITS_IN_TRYTE>;

/// Why a native integer is not turned into a tryte.
#[derive(Debug, Clone, Copy, PartialEq, Eq, Structural)]
pub enum TryteConversionError {
    /// The signed integer lies outside the range of a tryte.
    ValueOutOfRange(i16),
    /// The unsigned integer lies beyond the largest value of a tryte.
    ValueOutOfRangeUnsigned(u16),
    /// The negative integer has no unsigned form.
    NegativeValueNotAllowed(i16),
}

/// Six trits hold the integers from -364 to 364.
pub proof fn lemma_tryte_range()
    ensures
        pow3(6) == 729,
        max_value(6) == TRYTE_MAX,
{
    reveal_with_fuel(pow3, 7);
}

impl TernaryIntegerRepr for Tryte {
    type Int = i16;

    proof fn lemma_native_holds(&self) {
        lemma_seq_value_bound(self@);
        lemma_tryte_range();
    }
}

impl ArithmeticTernaryInteger for Tryte {

}

impl TryFromSpecImpl<i16> for Tryte {
    open spec fn obeys_try_from_spec() -> bool {
        true
    }

    open spec fn try_from_spec(value: i16) -> Result<Tryte, TryteConversionError> {
        if fits(value as int, 6) {
            Ok(Tryte::from_value(value as int))
        } else {
            Err(TryteConversionError::ValueOutOfRange(value))
        }
    }
}

impl TryFrom<i16> for Tryte {
    type Error = TryteConversionError;

    /// The tryte that stands for `value`, which has to lie within the range
    /// of a tryte.
    fn try_from(value: i16) -> (r: Result<Tryte, TryteConversionError>)
        ensures
            r is Ok <==> -TRYTE_MAX <= value <= TRYTE_MAX,
            r matches Ok(t) ==> t.value() == value,
            r matches Err(e) ==> e == TryteConversionError::ValueOutOfRange(value),
    {
        proof {
            lemma_tryte_range();
        }
        if value < -TRYTE_MAX || value > TRYTE_MAX {
            return Err(TryteConversionError::ValueOutOfRange(value));
        }
        let t = Tryte::from_int(value);
        proof {
            lemma_wrap_fits(value as int, 6);
            t.lemma_is_from_value(value as int);
        }
        Ok(t)
    }
}

impl TryFromSpecImpl<u16> for Tryte {
    open spec fn obeys_try_from_spec() -> bool {
        true
    }

    open spec fn try_from_spec(value: u16) -> Result<Tryte, TryteConversionError> {
        if fits(value as int, 6) {
            Ok(Tryte::from_value(value as int))
        } else {
            Err(TryteConversionError::ValueOutOfRangeUnsigned(value))
        }
    }
}

impl TryFrom<u16> for Tryte {
    type Error = TryteConversionError;

    /// The tryte that stands for `value`, which has to be at most the
    /// largest value of a tryte.
    fn try_from(value: u16) -> (r: Result<Tryte, TryteConversionError>)
        ensures
            r is Ok <==> value <= TRYTE_MAX,
            r matches Ok(t) ==> t.value() == value,
            r matches Err(e) ==> e == TryteConversionError::ValueOutOfRangeUnsigned(value),
    {
        proof {
            lemma_tryte_range();
        }
        if value > 364 {
            return Err(TryteConversionError::ValueOutOfRangeUnsigned(value));
        }
        let t = Tryte::from_int(value as i16);
        proof {
            lemma_wrap_fits(value as int, 6);
            t.lemma_is_from_value(value as int);
        }
        Ok(t)
    }
}

impl FromSpecImpl<i8> for Tryte {
    open spec fn obeys_from_spec() -> bool {
        true
    }

    open spec fn from_spec(value: i8) -> Tryte {
        Tryte::from_value(value as int)
    }
}

impl From<i8> for Tryte {
    /// The tryte that stands for `value`: a tryte holds every `i8`.
    fn from(value: i8) -> (r: Tryte)
        ensures
            r.value() == value,
    {
        let t = Tryte::from_int(value as i16);
        proof {
            lemma_tryte_range();
            lemma_wrap_fits(value as int, 6);
            t.lemma_is_from_value(value as int);
        }
        t
    }
}

impl FromSpecImpl<u8> for Tryte {
    open spec fn obeys_from_spec() -> bool {
        true
    }

    open spec fn from_spec(value: u8) -> Tryte {
        Tryte::from_value(value as int)
    }
}

impl From<u8> for Tryte {
    /// The tryte that stands for `value`: a tryte holds every `u8`.
    fn from(value: u8) -> (r: Tryte)
        ensures
            r.value() == value,
    {
        let t = Tryte::from_int(value as i16);
        proof {
            lemma_tryte_range();
            lemma_wrap_fits(value as int, 6);
            t.lemma_is_from_value(value as int);
        }
        t
    }
}

impl FromSpecImpl<Tryte> for i16 {
    open spec fn obeys_from_spec() -> bool {
        true
    }

    open spec fn from_spec(tryte: Tryte) -> i16 {
        tryte.value() as i16
    }
}

impl From<Tryte> for i16 {
    /// The integer that the tryte stands for.
    fn from(tryte: Tryte) -> (r: i16)
        ensures
            r == tryte.value(),
    {
        proof {
            lemma_seq_value_bound(tryte@);
            lemma_tryte_range();
        }
        tryte.to_int()
    }
}

} // verus!
