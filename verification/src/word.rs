//! The word: a balanced ternary integer of four trytes.
use crate::balanced_int::{ArithmeticTernaryInteger, BalancedInt, TernaryIntegerRepr};
use crate::digits::{lemma_seq_value_bound, max_value, pow3};
use crate::tryte::TRITS_IN_TRYTE;
use vstd::prelude::*;

verus! {

/// The number of trytes in a word.
pub const TRYTES_IN_WORD: usize = 4;

/// The number of trits in a word.
pub const TRITS_IN_WORD: usize = TRITS_IN_TRYTE * TRYTES_IN_WORD;

/// A balanced ternary integer of twenty-four trits, from -141214768240 to
/// 141214768240.
pub type Word = BalancedInt<TRITS_IN_WORD>;

/// Twenty-four trits hold the integers from -141214768240 to 141214768240.
pub proof fn lemma_word_range()
    ensures
        pow3(24) == 282429536481,
        max_value(24) == 141214768240,
{
    reveal_with_fuel(pow3, 25);
}

impl TernaryIntegerRepr for Word {
    type Int = i64;

    proof fn lemma_native_holds(&self) {
        lemma_seq_value_bound(self@);
        lemma_word_range();
    }
}

impl ArithmeticTernaryInteger for Word {

}

} // verus!
