//! Arithmetic on balanced ternary integers. What a width cannot hold wraps
//! round: every result is right up to a multiple of `3^N`.
use crate::balanced_int::{ArithmeticTernaryInteger, BalancedInt};
use crate::digits::{
    lemma_negate_seq_value, lemma_pow3_max, lemma_seq_value_bound, lemma_seq_value_push,
    lemma_seq_value_zeros, lemma_shift_seq_value, lemma_wrap_add, lemma_wrap_fits,
    lemma_wrap_neg, lemma_wrap_unique, magnitude, negate_seq, pow3, seq_value, shift_seq, wrap,
};
use crate::trit::Trit;
use vstd::prelude::*;

verus! {

impl<const N: usize> BalancedInt<N> where Self: ArithmeticTernaryInteger {
    /// Adds `other` and `carry_in` to `self`, trit by trit from the least
    /// significant up. The first result is the sum within the width, the
    /// second the carry out of the most significant position.
    pub fn full_add(&self, other: &Self, carry_in: Trit) -> (r: (Self, Trit))
        ensures
            r.0.value() + pow3(N as nat) * r.1.value() == self.value() + other.value()
                + carry_in.value(),
            r.0.value() == wrap(self.value() + other.value() + carry_in.value(), N as nat),
    {
        let mut result = [Trit::Zero;N];
        let mut carry = carry_in;
        let mut i: usize = 0;
        proof {
            assert(pow3(0) * carry.value() == carry.value()) by (nonlinear_arith)
                requires
                    pow3(0) == 1,
            ;
        }
        while i < N
            invariant
                i <= N,
                seq_value(result@.take(i as int)) + pow3(i as nat) * carry.value() == seq_value(
                    self@.take(i as int),
                ) + seq_value(other@.take(i as int)) + carry_in.value(),
            decreases N - i,
        {
            let ghost before = result@;
            let ghost old_carry = carry;
            let (sum, new_carry) = self.0[i].full_add(other.0[i], carry);
            result[i] = sum;
            carry = new_carry;
            proof {
                let a = self@[i as int];
                let b = other@[i as int];
                assert(result@.take(i + 1) =~= before.take(i as int).push(sum));
                assert(self@.take(i + 1) =~= self@.take(i as int).push(a));
                assert(other@.take(i + 1) =~= other@.take(i as int).push(b));
                lemma_seq_value_push(before.take(i as int), sum);
                lemma_seq_value_push(self@.take(i as int), a);
                lemma_seq_value_push(other@.take(i as int), b);
                let p = pow3(i as nat);
                assert(pow3((i + 1) as nat) == 3 * p);
                assert(sum.value() * p + (3 * p) * new_carry.value() == a.value() * p + b.value()
                    * p + p * old_carry.value()) by (nonlinear_arith)
                    requires
                        sum.value() + 3 * new_carry.value() == a.value() + b.value()
                            + old_carry.value(),
                ;
            }
            i += 1;
        }
        let r = BalancedInt(result);
        proof {
            assert(result@.take(N as int) =~= r@);
            assert(self@.take(N as int) =~= self@);
            assert(other@.take(N as int) =~= other@);
            lemma_seq_value_bound(r@);
            let total = self.value() + other.value() + carry_in.value();
            assert(r.value() == total + (-carry.value()) * pow3(N as nat)) by (nonlinear_arith)
                requires
                    r.value() + pow3(N as nat) * carry.value() == total,
            ;
            lemma_wrap_unique(total, N as nat, r.value(), -carry.value());
        }
        (r, carry)
    }

    /// The value of opposite sign: every trit is negated, and nothing is
    /// carried.
    pub fn negate(&self) -> (r: Self)
        ensures
            r@ == negate_seq(self@),
            r.value() == -self.value(),
    {
        let mut result = [Trit::Zero;N];
        let mut i: usize = 0;
        while i < N
            invariant
                i <= N,
                forall|j: int| 0 <= j < i ==> result@[j] == negate_seq(self@)[j],
            decreases N - i,
        {
            result[i] = self.0[i].negate();
            i += 1;
        }
        let r = BalancedInt(result);
        proof {
            assert(r@ =~= negate_seq(self@));
            lemma_negate_seq_value(self@);
        }
        r
    }

    /// Moves every trit up by `amt` positions, which multiplies by
    /// `3^amt`. `Zero` comes in at the low end; the trits that pass the most
    /// significant position are lost.
    pub fn shift_left(&self, amt: usize) -> (r: Self)
        ensures
            r@ == shift_seq(self@, amt as nat),
            r.value() == wrap(self.value() * pow3(amt as nat), N as nat),
            amt >= N ==> r.value() == 0,
    {
        let mut result = [Trit::Zero;N];
        proof {
            crate::balanced_int::lemma_filled::<N>(Trit::Zero);
        }
        let mut i: usize = amt;
        while i < N
            invariant
                amt <= i,
                forall|j: int| 0 <= j < N && j < i ==> result@[j] == shift_seq(self@, amt as nat)[j],
                forall|j: int| 0 <= j < N && j >= i ==> result@[j] == Trit::Zero,
            decreases N - i,
        {
            result[i] = self.0[i - amt];
            i += 1;
        }
        let r = BalancedInt(result);
        proof {
            assert(r@ =~= shift_seq(self@, amt as nat));
            lemma_shift_seq_value(self@, amt as nat);
            if amt >= N {
                lemma_seq_value_zeros(N as nat);
            }
        }
        r
    }

    /// The absolute value: the negation of a negative value, and any other
    /// value as it is.
    pub fn abs(&self) -> (r: Self)
        ensures
            r.value() == magnitude(self.value()),
            self.value() < 0 ==> r@ == negate_seq(self@),
            self.value() >= 0 ==> r == *self,
    {
        if self.sign() == Trit::Neg {
            self.negate()
        } else {
            *self
        }
    }

    /// The product of `self` and `rhs`, by shifting and adding: for each
    /// trit of `rhs`, `self` moved up to the position of that trit is added
    /// or subtracted.
    pub fn multiply(&self, rhs: &Self) -> (r: Self)
        ensures
            r.value() == wrap(self.value() * rhs.value(), N as nat),
    {
        let mut accumulator = Self::zero();
        let mut i: usize = 0;
        proof {
            lemma_pow3_max(N as nat);
            assert(self.value() * 0 == 0) by (nonlinear_arith);
            lemma_wrap_fits(0, N as nat);
        }
        while i < N
            invariant
                i <= N,
                accumulator.value() == wrap(
                    self.value() * seq_value(rhs@.take(i as int)),
                    N as nat,
                ),
            decreases N - i,
        {
            let t = rhs.0[i];
            let ghost low = seq_value(rhs@.take(i as int));
            let ghost x = self.value();
            let ghost p = pow3(i as nat);
            proof {
                assert(rhs@.take(i + 1) =~= rhs@.take(i as int).push(t));
                lemma_seq_value_push(rhs@.take(i as int), t);
            }
            if t != Trit::Zero {
                let shifted = self.shift_left(i);
                let partial = if t == Trit::Pos {
                    shifted
                } else {
                    shifted.negate()
                };
                let (sum, _carry) = accumulator.full_add(&partial, Trit::Zero);
                proof {
                    lemma_wrap_neg(x * p, N as nat);
                    assert(partial.value() == wrap(t.value() * (x * p), N as nat)) by {
                        if t == Trit::Pos {
                            assert(t.value() * (x * p) == x * p) by (nonlinear_arith)
                                requires
                                    t.value() == 1,
                            ;
                        } else {
                            assert(t.value() * (x * p) == -(x * p)) by (nonlinear_arith)
                                requires
                                    t.value() == -1,
                            ;
                        }
                    }
                    lemma_wrap_add(x * low, t.value() * (x * p), N as nat);
                    assert(x * low + t.value() * (x * p) == x * (low + t.value() * p))
                        by (nonlinear_arith);
                }
                accumulator = sum;
            } else {
                proof {
                    assert(low + t.value() * p == low) by (nonlinear_arith)
                        requires
                            t.value() == 0,
                    ;
                }
            }
            i += 1;
        }
        proof {
            assert(rhs@.take(N as int) =~= rhs@);
        }
        accumulator
    }
}

} // verus!
