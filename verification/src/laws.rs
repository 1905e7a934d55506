//! What holds of the conversions and of the arithmetic taken together.
use crate::balanced_int::{
    read_range_seq, write_range_seq, ArithmeticTernaryInteger, BalancedInt,
};
use crate::digits::{
    balanced_digits, fits, lemma_balanced_digits_of_value, lemma_balanced_digits_value,
    lemma_negate_seq_involution, lemma_pow3_max, lemma_seq_value_bound, lemma_shift_seq_value,
    lemma_wrap_fits, lemma_wrap_mul, lemma_wrap_unique, max_value, negate_seq, pow3, repeat,
    seq_value, shift_seq, wrap,
};
use crate::trit::Trit;
use vstd::prelude::*;
use vstd::std_specs::ops::{AddSpec, MulSpec, NegSpec, SubSpec};

verus! {

/// An integer that `n` trits can hold is found again from its `n` balanced
/// trits.
pub proof fn lemma_digits_round_trip(v: int, n: nat)
    requires
        fits(v, n),
    ensures
        seq_value(balanced_digits(v, n)) == v,
        wrap(v, n) == v,
{
    lemma_balanced_digits_value(v, n);
    lemma_wrap_fits(v, n);
}

/// A sequence of trits is found again from the integer it stands for.
pub proof fn lemma_value_round_trip(s: Seq<Trit>)
    ensures
        balanced_digits(seq_value(s), s.len()) == s,
        fits(seq_value(s), s.len()),
{
    lemma_balanced_digits_of_value(s);
    lemma_seq_value_bound(s);
}

/// One more than the largest value of a width wraps round to the smallest.
pub proof fn lemma_wrap_past_max(n: nat)
    ensures
        wrap(max_value(n) + 1, n) == -max_value(n),
        wrap(-max_value(n) - 1, n) == max_value(n),
{
    lemma_pow3_max(n);
    let p = pow3(n);
    let m = max_value(n);
    assert(-m == (m + 1) + (-1) * p) by (nonlinear_arith)
        requires
            p == 2 * m + 1,
    ;
    lemma_wrap_unique(m + 1, n, -m, -1);
    assert(m == (-m - 1) + 1 * p) by (nonlinear_arith)
        requires
            p == 2 * m + 1,
    ;
    lemma_wrap_unique(-m - 1, n, m, 1);
}

/// A value that fits a range of trits is read from it as it was written to
/// it, and writing leaves the trits outside the range as they were.
pub proof fn lemma_range_round_trip(s: Seq<Trit>, v: int, start: int, end: int)
    requires
        0 <= start <= end < s.len(),
        fits(v, (end - start + 1) as nat),
    ensures
        read_range_seq(write_range_seq(s, v, start, end), start, end) == v,
        write_range_seq(s, v, start, end).len() == s.len(),
        forall|j: int|
            0 <= j < s.len() && !(start <= j <= end) ==> write_range_seq(s, v, start, end)[j]
                == s[j],
{
    let len = (end - start + 1) as nat;
    let written = write_range_seq(s, v, start, end);
    lemma_balanced_digits_value(v, len);
    lemma_wrap_fits(v, len);
    assert(written.subrange(start, end + 1) =~= balanced_digits(v, len));
}

impl<const N: usize> BalancedInt<N> {
    /// An integer that the width can hold is the value of what stands for
    /// it, and a value is what stands for the integer that it is worth.
    pub proof fn lemma_round_trip(self, v: int)
        ensures
            fits(v, N as nat) ==> Self::from_value(v).value() == v,
            Self::from_value(self.value()) == self,
    {
        Self::lemma_from_value(v);
        if fits(v, N as nat) {
            lemma_wrap_fits(v, N as nat);
        }
        lemma_seq_value_bound(self@);
        lemma_wrap_fits(self.value(), N as nat);
        self.lemma_is_from_value(self.value());
    }
}

impl<const N: usize> BalancedInt<N> where Self: ArithmeticTernaryInteger {
    /// Negating twice gives the value back, and zero is its own negation.
    pub proof fn lemma_negate_involution(self)
        ensures
            negate_seq(negate_seq(self@)) == self@,
            self.neg_spec().neg_spec() == self,
            self.value() == 0 ==> self.neg_spec() == self,
    {
        lemma_negate_seq_involution(self@);
        let v = self.value();
        lemma_seq_value_bound(self@);
        Self::lemma_from_value(-v);
        lemma_wrap_fits(-v, N as nat);
        lemma_wrap_fits(v, N as nat);
        self.lemma_is_from_value(v);
    }

    /// Subtracting is adding the negation.
    pub proof fn lemma_sub_is_add_neg(self, rhs: Self)
        ensures
            self.sub_spec(rhs) == self.add_spec(rhs.neg_spec()),
    {
        let a = self.value();
        let b = rhs.value();
        lemma_seq_value_bound(rhs@);
        Self::lemma_from_value(-b);
        lemma_wrap_fits(-b, N as nat);
    }

    /// Adding one to the largest value gives the smallest.
    pub proof fn lemma_add_past_max(self, one: Self)
        requires
            self.value() == max_value(N as nat),
            one.value() == 1,
        ensures
            self.add_spec(one).value() == -max_value(N as nat),
    {
        Self::lemma_from_value(self.value() + one.value());
        lemma_wrap_past_max(N as nat);
    }

    /// A product with zero is zero, and a product with one is the other
    /// factor.
    pub proof fn lemma_mul_zero_one(self, rhs: Self)
        ensures
            rhs.value() == 0 ==> self.mul_spec(rhs) == rhs,
            rhs.value() == 1 ==> self.mul_spec(rhs) == self,
    {
        let x = self.value();
        lemma_seq_value_bound(self@);
        lemma_seq_value_bound(rhs@);
        if rhs.value() == 0 {
            assert(x * 0 == 0) by (nonlinear_arith);
            lemma_wrap_fits(0, N as nat);
            rhs.lemma_is_from_value(0);
        }
        if rhs.value() == 1 {
            assert(x * 1 == x) by (nonlinear_arith);
            lemma_wrap_fits(x, N as nat);
            self.lemma_is_from_value(x);
        }
    }

    /// Moving the trits up by one position multiplies by three, and moving
    /// them up by the width or more leaves zero.
    pub proof fn lemma_shift_is_mul(self, three: Self, k: nat)
        requires
            three.value() == wrap(3, N as nat),
        ensures
            Self::from_seq(shift_seq(self@, 1)) == self.mul_spec(three),
            seq_value(shift_seq(self@, 1)) == wrap(3 * self.value(), N as nat),
            k >= N ==> shift_seq(self@, k) == repeat(Trit::Zero, N as nat),
    {
        let x = self.value();
        lemma_shift_seq_value(self@, 1);
        lemma_shift_seq_value(self@, k);
        reveal_with_fuel(pow3, 2);
        assert(x * pow3(1) == 3 * x) by (nonlinear_arith)
            requires
                pow3(1) == 3,
        ;
        assert(x * 3 == 3 * x) by (nonlinear_arith);
        lemma_wrap_mul(x, 3, N as nat);
        let shifted = Self::from_seq(shift_seq(self@, 1));
        Self::lemma_from_seq(shift_seq(self@, 1));
        shifted.lemma_is_from_value(x * three.value());
    }
}

} // verus!
