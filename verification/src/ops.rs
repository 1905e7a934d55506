//! The operators `-x`, `+`, `-`, `*`, `/` and `%` on balanced ternary
//! integers.
use crate::balanced_int::{ArithmeticTernaryInteger, BalancedInt};
use crate::digits::{lemma_seq_value_bound, lemma_wrap_fits, wrap};
use crate::division::div_rem_spec;
use crate::trit::Trit;
use vstd::prelude::*;
use vstd::std_specs::ops::{
    AddSpecImpl, DivSpecImpl, MulSpecImpl, NegSpecImpl, RemSpecImpl, SubSpecImpl,
};

verus! {

impl<const N: usize> NegSpecImpl for BalancedInt<N> where Self: ArithmeticTernaryInteger {
    open spec fn obeys_neg_spec() -> bool {
        true
    }

    open spec fn neg_req(self) -> bool {
        true
    }

    open spec fn neg_spec(self) -> Self {
        Self::from_value(-self.value())
    }
}

impl<const N: usize> std::ops::Neg for BalancedInt<N> where Self: ArithmeticTernaryInteger {
    type Output = Self;

    /// The value of opposite sign.
    fn neg(self) -> (r: Self)
        ensures
            r.value() == -self.value(),
    {
        let r = self.negate();
        proof {
            lemma_seq_value_bound(r@);
            lemma_wrap_fits(-self.value(), N as nat);
            r.lemma_is_from_value(-self.value());
        }
        r
    }
}

impl<const N: usize> AddSpecImpl for BalancedInt<N> where Self: ArithmeticTernaryInteger {
    open spec fn obeys_add_spec() -> bool {
        true
    }

    open spec fn add_req(self, rhs: Self) -> bool {
        true
    }

    open spec fn add_spec(self, rhs: Self) -> Self {
        Self::from_value(self.value() + rhs.value())
    }
}

impl<const N: usize> std::ops::Add for BalancedInt<N> where Self: ArithmeticTernaryInteger {
    type Output = Self;

    /// The sum within the width: the carry out of the most significant
    /// position is dropped.
    fn add(self, rhs: Self) -> (r: Self)
        ensures
            r.value() == wrap(self.value() + rhs.value(), N as nat),
    {
        let (sum, _carry) = self.full_add(&rhs, Trit::Zero);
        proof {
            sum.lemma_is_from_value(self.value() + rhs.value());
        }
        sum
    }
}

impl<const N: usize> SubSpecImpl for BalancedInt<N> where Self: ArithmeticTernaryInteger {
    open spec fn obeys_sub_spec() -> bool {
        true
    }

    open spec fn sub_req(self, rhs: Self) -> bool {
        true
    }

    open spec fn sub_spec(self, rhs: Self) -> Self {
        Self::from_value(self.value() - rhs.value())
    }
}

impl<const N: usize> std::ops::Sub for BalancedInt<N> where Self: ArithmeticTernaryInteger {
    type Output = Self;

    /// The difference within the width: the sum of `self` and the negation
    /// of `rhs`.
    fn sub(self, rhs: Self) -> (r: Self)
        ensures
            r.value() == wrap(self.value() - rhs.value(), N as nat),
    {
        let (sum, _carry) = self.full_add(&rhs.negate(), Trit::Zero);
        proof {
            sum.lemma_is_from_value(self.value() - rhs.value());
        }
        sum
    }
}

impl<const N: usize> MulSpecImpl for BalancedInt<N> where Self: ArithmeticTernaryInteger {
    open spec fn obeys_mul_spec() -> bool {
        true
    }

    open spec fn mul_req(self, rhs: Self) -> bool {
        true
    }

    open spec fn mul_spec(self, rhs: Self) -> Self {
        Self::from_value(self.value() * rhs.value())
    }
}

impl<const N: usize> std::ops::Mul for BalancedInt<N> where Self: ArithmeticTernaryInteger {
    type Output = Self;

    /// The product within the width.
    fn mul(self, rhs: Self) -> (r: Self)
        ensures
            r.value() == wrap(self.value() * rhs.value(), N as nat),
    {
        let r = self.multiply(&rhs);
        proof {
            r.lemma_is_from_value(self.value() * rhs.value());
        }
        r
    }
}

impl<const N: usize> DivSpecImpl for BalancedInt<N> where Self: ArithmeticTernaryInteger {
    open spec fn obeys_div_spec() -> bool {
        true
    }

    open spec fn div_req(self, rhs: Self) -> bool {
        rhs.value() != 0
    }

    open spec fn div_spec(self, rhs: Self) -> Self {
        Self::from_value(div_rem_spec(self.value(), rhs.value(), N as nat).0)
    }
}

impl<const N: usize> std::ops::Div for BalancedInt<N> where Self: ArithmeticTernaryInteger {
    type Output = Self;

    /// The quotient of the division with remainder by `rhs`, which is not
    /// zero.
    fn div(self, rhs: Self) -> (r: Self)
        ensures
            r.value() == div_rem_spec(self.value(), rhs.value(), N as nat).0,
    {
        let (quotient, _remainder) = self.div_rem(rhs);
        proof {
            lemma_seq_value_bound(quotient@);
            lemma_wrap_fits(quotient.value(), N as nat);
            quotient.lemma_is_from_value(quotient.value());
        }
        quotient
    }
}

impl<const N: usize> RemSpecImpl for BalancedInt<N> where Self: ArithmeticTernaryInteger {
    open spec fn obeys_rem_spec() -> bool {
        true
    }

    open spec fn rem_req(self, rhs: Self) -> bool {
        rhs.value() != 0
    }

    open spec fn rem_spec(self, rhs: Self) -> Self {
        Self::from_value(div_rem_spec(self.value(), rhs.value(), N as nat).1)
    }
}

impl<const N: usize> std::ops::Rem for BalancedInt<N> where Self: ArithmeticTernaryInteger {
    type Output = Self;

    /// The remainder of the division with remainder by `rhs`, which is not
    /// zero.
    fn rem(self, rhs: Self) -> (r: Self)
        ensures
            r.value() == div_rem_spec(self.value(), rhs.value(), N as nat).1,
    {
        let (_quotient, remainder) = self.div_rem(rhs);
        proof {
            lemma_seq_value_bound(remainder@);
            lemma_wrap_fits(remainder.value(), N as nat);
            remainder.lemma_is_from_value(remainder.value());
        }
        remainder
    }
}

impl<const N: usize> std::ops::AddAssign for BalancedInt<N> where Self: ArithmeticTernaryInteger {
    /// Puts the sum within the width in the place of `self`.
    fn add_assign(&mut self, rhs: Self)
        ensures
            final(self).value() == wrap(old(self).value() + rhs.value(), N as nat),
    {
        let (sum, _carry) = self.full_add(&rhs, Trit::Zero);
        *self = sum;
    }
}

impl<const N: usize> std::ops::SubAssign for BalancedInt<N> where Self: ArithmeticTernaryInteger {
    /// Puts the difference within the width in the place of `self`.
    fn sub_assign(&mut self, rhs: Self)
        ensures
            final(self).value() == wrap(old(self).value() - rhs.value(), N as nat),
    {
        let (sum, _carry) = self.full_add(&rhs.negate(), Trit::Zero);
        *self = sum;
    }
}

impl<const N: usize> std::ops::MulAssign for BalancedInt<N> where Self: ArithmeticTernaryInteger {
    /// Puts the product within the width in the place of `self`.
    fn mul_assign(&mut self, rhs: Self)
        ensures
            final(self).value() == wrap(old(self).value() * rhs.value(), N as nat),
    {
        let product = self.multiply(&rhs);
        *self = product;
    }
}

impl<const N: usize> std::ops::DivAssign for BalancedInt<N> where Self: ArithmeticTernaryInteger {
    /// Puts the quotient by `rhs`, which is not zero, in the place of
    /// `self`.
    fn div_assign(&mut self, rhs: Self)
        requires
            rhs.value() != 0,
        ensures
            final(self).value() == div_rem_spec(old(self).value(), rhs.value(), N as nat).0,
    {
        let (quotient, _remainder) = self.div_rem(rhs);
        *self = quotient;
    }
}

impl<const N: usize> std::ops::RemAssign for BalancedInt<N> where Self: ArithmeticTernaryInteger {
    /// Puts the remainder by `rhs`, which is not zero, in the place of
    /// `self`.
    fn rem_assign(&mut self, rhs: Self)
        requires
            rhs.value() != 0,
        ensures
            final(self).value() == div_rem_spec(old(self).value(), rhs.value(), N as nat).1,
    {
        let (_quotient, remainder) = self.div_rem(rhs);
        *self = remainder;
    }
}

} // verus!
