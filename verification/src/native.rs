//! The native signed integers that balanced ternary values are converted to
//! and from.
use vstd::prelude::*;

verus! {

/// A native signed integer of at most 64 bits.
pub trait NativeInt: Copy + Sized {
    /// The integer that a value of the type stands for.
    spec fn as_int(self) -> int;

    /// The smallest integer that the type holds.
    spec fn spec_min() -> int;

    /// The largest integer that the type holds.
    spec fn spec_max() -> int;

    /// The type's range contains zero and lies within that of `i64`.
    proof fn lemma_native_range()
        ensures
            i64::MIN <= Self::spec_min() <= 0,
            0 <= Self::spec_max() <= i64::MAX,
    ;

    /// The value as an `i64`.
    fn to_i64(self) -> (r: i64)
        ensures
            r == self.as_int(),
            Self::spec_min() <= r <= Self::spec_max(),
    ;

    /// The value of the type that stands for `v`, where there is one.
    fn try_from_i64(v: i64) -> (r: Option<Self>)
        ensures
            r is Some <==> Self::spec_min() <= v <= Self::spec_max(),
            r matches Some(x) ==> x.as_int() == v,
    ;
}

impl NativeInt for i16 {
    open spec fn as_int(self) -> int {
        self as int
    }

    open spec fn spec_min() -> int {
        i16::MIN as int
    }

    open spec fn spec_max() -> int {
        i16::MAX as int
    }

    proof fn lemma_native_range() {
    }

    fn to_i64(self) -> (r: i64) {
        self as i64
    }

    fn try_from_i64(v: i64) -> (r: Option<i16>) {
        match i16::try_from(v) {
            Ok(x) => Some(x),
            Err(_) => None,
        }
    }
}

impl NativeInt for i64 {
    open spec fn as_int(self) -> int {
        self as int
    }

    open spec fn spec_min() -> int {
        i64::MIN as int
    }

    open spec fn spec_max() -> int {
        i64::MAX as int
    }

    proof fn lemma_native_range() {
    }

    fn to_i64(self) -> (r: i64) {
        self
    }

    fn try_from_i64(v: i64) -> (r: Option<i64>) {
        Some(v)
    }
}

} // verus!
