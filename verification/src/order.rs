//! Equality and order of balanced ternary integers: both go by the integer
//! that the trits stand for.
use crate::balanced_int::BalancedInt;
use crate::digits::{lemma_seq_value_order, sign_of};
use crate::trit::Trit;
use std::cmp::Ordering;
use vstd::prelude::*;
use vstd::std_specs::cmp::{PartialEqSpecImpl, PartialOrdSpecImpl};

verus! {

/// How the integer `a` stands to the integer `b`.
pub open spec fn ordering_of(a: int, b: int) -> Ordering {
    if a < b {
        Ordering::Less
    } else if a == b {
        Ordering::Equal
    } else {
        Ordering::Greater
    }
}

impl<const N: usize> BalancedInt<N> {
    /// The sign of `self - other`: the two are compared trit by trit from
    /// the most significant down, and the first trit that differs decides.
    pub fn difference_sign(&self, other: &Self) -> (r: Trit)
        ensures
            r == sign_of(self.value() - other.value()),
            r == Trit::Zero <==> *self == *other,
    {
        let mut i: usize = N;
        while i > 0
            invariant
                i <= N,
                forall|j: int| i <= j < N ==> self@[j] == other@[j],
            decreases i,
        {
            i -= 1;
            let a = self.0[i].to_i8();
            let b = other.0[i].to_i8();
            if a < b {
                proof {
                    lemma_seq_value_order(self@, other@, i as int);
                }
                return Trit::Neg;
            }
            if a > b {
                proof {
                    lemma_seq_value_order(other@, self@, i as int);
                }
                return Trit::Pos;
            }
        }
        proof {
            assert(self@ =~= other@);
            Self::lemma_ext_equal(*self, *other);
        }
        Trit::Zero
    }

    /// Compares the two by the integers they stand for.
    pub fn compare(&self, other: &Self) -> (r: Ordering)
        ensures
            r == ordering_of(self.value(), other.value()),
    {
        match self.difference_sign(other) {
            Trit::Neg => Ordering::Less,
            Trit::Zero => Ordering::Equal,
            Trit::Pos => Ordering::Greater,
        }
    }
}

impl<const N: usize> PartialEqSpecImpl for BalancedInt<N> {
    open spec fn obeys_eq_spec() -> bool {
        true
    }

    open spec fn eq_spec(&self, other: &Self) -> bool {
        *self == *other
    }
}

impl<const N: usize> PartialEq for BalancedInt<N> {
    /// Whether the two have the same trits, which is whether they stand for
    /// the same integer.
    fn eq(&self, other: &Self) -> (r: bool)
        ensures
            r <==> self.value() == other.value(),
    {
        self.difference_sign(other) == Trit::Zero
    }
}

impl<const N: usize> Eq for BalancedInt<N> {

}

impl<const N: usize> PartialOrdSpecImpl for BalancedInt<N> {
    open spec fn obeys_partial_cmp_spec() -> bool {
        true
    }

    open spec fn partial_cmp_spec(&self, other: &Self) -> Option<Ordering> {
        Some(ordering_of(self.value(), other.value()))
    }
}

impl<const N: usize> PartialOrd for BalancedInt<N> {
    /// Compares the two by the integers they stand for.
    fn partial_cmp(&self, other: &Self) -> (r: Option<Ordering>) {
        Some(self.compare(other))
    }
}

} // verus!
