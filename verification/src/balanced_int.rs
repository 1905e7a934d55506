//! The fixed-width balanced ternary integer: its trits, what it is worth,
//! and its conversions to and from native integers.
use crate::digits::{
    balanced_digits, drop_low, fits, leading_trit, lemma_balanced_digits_value,
    lemma_balanced_digits_zero, lemma_fits_iff_no_rest, lemma_leading_trit_is_sign,
    lemma_max_value_step, lemma_pow3_monotonic, lemma_seq_value_bound, lemma_seq_value_extremes,
    lemma_seq_value_push, lemma_seq_value_unique, lemma_seq_value_zeros, lemma_wrap_fits,
    low_trit, max_value, pow3, repeat, seq_value, sign_of, wrap,
};
use crate::native::NativeInt;
use crate::trit::Trit;
use vstd::array::spec_array_update;
use vstd::pervasive::unreached;
use vstd::prelude::*;
use vstd::std_specs::convert::FromSpecImpl;
use vstd::std_specs::iter::IteratorSpec;
use vstd::string::StringExecFns;

verus! {

/// An integer of `N` balanced trits. The trit at index 0 is the least
/// significant.
#[derive(Debug, Clone, Copy)]
pub struct BalancedInt<const N: usize>(pub [Trit; N]);

/// What went wrong when a range of trits was read or written.
#[derive(Debug, Clone, Copy, PartialEq, Eq, Structural)]
pub enum BIntError {
    /// The range from the first index to the second is empty or reaches
    /// beyond the last trit.
    RangeInvalid(usize, usize),
    /// The value does not fit into the trits that were to hold it.
    ValueRange,
}

impl<const N: usize> View for BalancedInt<N> {
    type V = Seq<Trit>;

    open spec fn view(&self) -> Seq<Trit> {
        self.0@
    }
}

/// The array that holds the first `k` trits of `s` and `Zero` above them.
pub open spec fn array_of<const N: usize>(s: Seq<Trit>, k: nat) -> [Trit; N]
    decreases k,
{
    if k == 0 {
        [Trit::Zero;N]
    } else {
        spec_array_update(array_of::<N>(s, (k - 1) as nat), k - 1, s[k - 1])
    }
}

/// The array of `array_of` holds what it is said to hold.
pub proof fn lemma_array_of<const N: usize>(s: Seq<Trit>, k: nat)
    requires
        k <= N,
        k <= s.len(),
    ensures
        array_of::<N>(s, k)@ == s.take(k as int) + repeat(Trit::Zero, (N - k) as nat),
    decreases k,
{
    let a = array_of::<N>(s, k);
    let expected = s.take(k as int) + repeat(Trit::Zero, (N - k) as nat);
    if k > 0 {
        let b = array_of::<N>(s, (k - 1) as nat);
        lemma_array_of::<N>(s, (k - 1) as nat);
        assert(a@ == b@.update(k - 1, s[k - 1]));
        assert forall|i: int| 0 <= i < N implies a@[i] == #[trigger] expected[i] by {
            if i < k - 1 {
                assert(b@[i] == s.take(k - 1)[i]);
            } else if i >= k {
                assert(b@[i] == repeat(Trit::Zero, (N - k + 1) as nat)[i - (k - 1)]);
                assert(expected[i] == repeat(Trit::Zero, (N - k) as nat)[i - k]);
            }
        }
    } else {
        lemma_filled::<N>(Trit::Zero);
    }
    assert(a@ =~= expected);
}

/// An array filled with one trit holds that trit at every index.
pub proof fn lemma_filled<const N: usize>(t: Trit)
    ensures
        [t;N]@ == repeat(t, N as nat),
{
    let a = [t;N];
    vstd::array::axiom_spec_array_fill_for_copy_type::<Trit, N>(t);
    assert(a@.len() == N);
    assert forall|i: int| 0 <= i < N implies a@[i] == #[trigger] repeat(t, N as nat)[i] by {
        assert(a@[i] == t);
    }
    assert(a@ =~= repeat(t, N as nat));
}

impl<const N: usize> BalancedInt<N> {
    /// The integer that the trits stand for.
    pub open spec fn value(&self) -> int {
        seq_value(self@)
    }

    /// The value whose trits are those of `s`, which has `N` of them.
    pub open spec fn from_seq(s: Seq<Trit>) -> Self {
        BalancedInt(array_of::<N>(s, N as nat))
    }

    /// The value that stands for `v`, wrapped into the range of `N` trits.
    pub open spec fn from_value(v: int) -> Self {
        Self::from_seq(balanced_digits(v, N as nat))
    }

    /// `from_seq` gives the value with the trits it was given.
    pub proof fn lemma_from_seq(s: Seq<Trit>)
        requires
            s.len() == N,
        ensures
            Self::from_seq(s)@ == s,
    {
        lemma_array_of::<N>(s, N as nat);
        assert(Self::from_seq(s)@ =~= s);
    }

    /// `from_value` gives the value that stands for `v` wrapped into the
    /// range of `N` trits.
    pub proof fn lemma_from_value(v: int)
        ensures
            Self::from_value(v)@ == balanced_digits(v, N as nat),
            Self::from_value(v).value() == wrap(v, N as nat),
    {
        lemma_balanced_digits_value(v, N as nat);
        Self::lemma_from_seq(balanced_digits(v, N as nat));
    }

    /// The value that stands for `v` wrapped into the range of `N` trits is
    /// `from_value(v)` and no other.
    pub proof fn lemma_is_from_value(self, v: int)
        requires
            self.value() == wrap(v, N as nat),
        ensures
            self == Self::from_value(v),
    {
        Self::lemma_from_value(v);
        lemma_seq_value_unique(self@, Self::from_value(v)@);
        Self::lemma_ext_equal(self, Self::from_value(v));
    }

    /// Two values with the same trits are the same value.
    pub proof fn lemma_ext_equal(a: Self, b: Self)
        requires
            a@ == b@,
        ensures
            a == b,
    {
        assert(a.0 =~= b.0);
    }
}

/// The iterator `std::slice::IterMut`, which `iter_mut` hands out. It is
/// carried through as it is: nothing is known of what it holds.
#[verifier::external_type_specification]
#[verifier::external_body]
#[verifier::reject_recursive_types(E)]
pub struct ExIterMut<'a, E: 'a>(std::slice::IterMut<'a, E>);

/// The binding of a width to the native integer that holds its values.
pub trait TernaryIntegerRepr: View<V = Seq<Trit>> + Sized {
    /// The smallest native signed integer whose range contains every value
    /// of the width.
    type Int: NativeInt;

    /// The native integer holds what the trits stand for.
    proof fn lemma_native_holds(&self)
        ensures
            <Self::Int as NativeInt>::spec_min() <= seq_value(self@) <= <Self::Int as NativeInt>::spec_max(),
    ;
}

/// Marks the widths that have the arithmetic operations.
pub trait ArithmeticTernaryInteger {

}

/// The text of a sequence of trits: one character for each, the most
/// significant first.
pub open spec fn display_seq(s: Seq<Trit>) -> Seq<char> {
    Seq::new(s.len(), |i: int| s[s.len() - 1 - i].symbol())
}

/// What the trits of `s` from `start` to `end`, both included, stand for
/// as an integer of their own, `start` being its least significant trit.
pub open spec fn read_range_seq(s: Seq<Trit>, start: int, end: int) -> int {
    seq_value(s.subrange(start, end + 1))
}

/// The sequence `s` with the balanced trits of `v` in the place of its
/// trits from `start` to `end`, both included. Where that range cannot
/// hold `v`, it holds as many of the low trits of `v` as it has room for.
pub open spec fn write_range_seq(s: Seq<Trit>, v: int, start: int, end: int) -> Seq<Trit> {
    s.take(start) + balanced_digits(v, (end - start + 1) as nat) + s.skip(end + 1)
}

/// The least significant balanced trit of `value`, and what is left of
/// `value` without it.
fn split_low(value: i64) -> (r: (Trit, i64))
    ensures
        r.0 == low_trit(value as int),
        r.1 == drop_low(value as int),
{
    let rem: i64 = value % 3;
    let quot: i64 = value / 3;
    if rem == 2 {
        (Trit::Neg, quot + 1)
    } else if rem == -2 {
        (Trit::Pos, quot - 1)
    } else if rem == 1 {
        (Trit::Pos, quot)
    } else if rem == -1 {
        (Trit::Neg, quot)
    } else {
        (Trit::Zero, quot)
    }
}

impl<const N: usize> BalancedInt<N> {
    /// The value whose trits are all `Zero`.
    pub fn zero() -> (r: Self)
        ensures
            r@ == repeat(Trit::Zero, N as nat),
            r.value() == 0,
    {
        let r = BalancedInt([Trit::Zero;N]);
        proof {
            lemma_filled::<N>(Trit::Zero);
            lemma_seq_value_zeros(N as nat);
        }
        r
    }

    /// The value with the given trits, the least significant first.
    pub fn new(trits: [Trit; N]) -> (r: Self)
        ensures
            r@ == trits@,
            r == BalancedInt(trits),
    {
        BalancedInt(trits)
    }

    /// An iterator over the trits, the least significant first.
    pub fn iter(&self) -> (it: std::slice::Iter<'_, Trit>)
        ensures
            IteratorSpec::remaining(&it) == self@.as_ref(),
            IteratorSpec::decrease(&it) is Some,
            IteratorSpec::initial_value_relation(&it, &it),
    {
        self.0.iter()
    }

    /// An iterator over the places of the trits, the least significant
    /// first. It is the iterator that `iter_mut` of the standard library
    /// hands out for the slice of trits. Nothing is claimed of it, nor of
    /// the trits that are written through it.
    #[verifier::external_body]
    pub fn iter_mut(&mut self) -> (it: std::slice::IterMut<'_, Trit>) {
        self.0.iter_mut()
    }

    /// Whether the value is zero, that is, whether every trit is `Zero`.
    pub fn is_zero(&self) -> (r: bool)
        ensures
            r <==> self.value() == 0,
            r <==> self@ == repeat(Trit::Zero, N as nat),
    {
        let ghost zeros = repeat(Trit::Zero, N as nat);
        proof {
            lemma_seq_value_zeros(N as nat);
            if self.value() == 0 {
                lemma_seq_value_unique(self@, zeros);
            }
        }
        let mut i: usize = 0;
        while i < N
            invariant
                i <= N,
                zeros == repeat(Trit::Zero, N as nat),
                self.value() == 0 ==> self@ == zeros,
                forall|j: int| 0 <= j < i ==> self@[j] == Trit::Zero,
            decreases N - i,
        {
            if self.0[i] != Trit::Zero {
                assert(zeros[i as int] == Trit::Zero);
                return false;
            }
            i += 1;
        }
        assert(self@ =~= zeros);
        true
    }

    /// The sign of the value: the most significant trit that is not `Zero`,
    /// or `Zero` where the value is zero.
    pub fn sign(&self) -> (r: Trit)
        ensures
            r == leading_trit(self@),
            r == sign_of(self.value()),
    {
        proof {
            lemma_leading_trit_is_sign(self@);
            assert(self@.take(N as int) =~= self@);
        }
        let mut i: usize = N;
        while i > 0
            invariant
                i <= N,
                leading_trit(self@) == sign_of(self.value()),
                leading_trit(self@) == leading_trit(self@.take(i as int)),
            decreases i,
        {
            i -= 1;
            let t = self.0[i];
            proof {
                let upper = self@.take(i + 1);
                assert(upper.last() == self@[i as int]);
                assert(upper.drop_last() =~= self@.take(i as int));
            }
            if t != Trit::Zero {
                return t;
            }
        }
        Trit::Zero
    }

    /// The value as text: one character for each trit, the most significant
    /// first, `1` for `Pos`, `0` for `Zero` and `T` for `Neg`.
    pub fn to_string(&self) -> (r: String)
        ensures
            r@ == display_seq(self@),
    {
        let mut out = String::new();
        let mut i: usize = N;
        while i > 0
            invariant
                i <= N,
                out@ == display_seq(self@).take(N - i),
            decreases i,
        {
            i -= 1;
            out.append(self.0[i].as_str());
            assert(out@ =~= display_seq(self@).take(N - i));
        }
        assert(out@ =~= display_seq(self@));
        out
    }
}

impl<const N: usize> vstd::std_specs::core::IndexSpecImpl<usize> for BalancedInt<N> {
    open spec fn index_req(&self, index: &usize) -> bool {
        *index < N
    }
}

impl<const N: usize> std::ops::Index<usize> for BalancedInt<N> {
    type Output = Trit;

    /// The trit at position `index`.
    fn index(&self, index: usize) -> (r: &Trit)
        ensures
            *r == self@[index as int],
    {
        &self.0[index]
    }
}

impl<const N: usize> std::ops::IndexMut<usize> for BalancedInt<N> {
    /// The place of the trit at position `index`.
    fn index_mut(&mut self, index: usize) -> (r: &mut Trit)
        requires
            index < N,
        ensures
            *r == old(self)@[index as int],
            final(self)@ == old(self)@.update(index as int, *final(r)),
    {
        &mut self.0[index]
    }
}

impl<const N: usize> Default for BalancedInt<N> {
    /// The value whose trits are all `Zero`.
    fn default() -> (r: Self)
        ensures
            r@ == repeat(Trit::Zero, N as nat),
            r.value() == 0,
    {
        Self::zero()
    }
}

impl<const N: usize> FromSpecImpl<[Trit; N]> for BalancedInt<N> {
    open spec fn obeys_from_spec() -> bool {
        true
    }

    open spec fn from_spec(trits: [Trit; N]) -> Self {
        BalancedInt(trits)
    }
}

impl<const N: usize> From<[Trit; N]> for BalancedInt<N> {
    /// The value with the given trits, the least significant first.
    fn from(trits: [Trit; N]) -> (r: Self)
        ensures
            r@ == trits@,
    {
        BalancedInt(trits)
    }
}

impl<const N: usize> FromSpecImpl<Trit> for BalancedInt<N> {
    open spec fn obeys_from_spec() -> bool {
        true
    }

    open spec fn from_spec(trit: Trit) -> Self {
        Self::from_value(trit.value())
    }
}

impl<const N: usize> From<Trit> for BalancedInt<N> {
    /// The value with `trit` at index 0 and `Zero` above it. A value of no
    /// trits has no place for it and is zero.
    fn from(trit: Trit) -> (r: Self)
        ensures
            r@ == balanced_digits(trit.value(), N as nat),
            r.value() == wrap(trit.value(), N as nat),
            N > 0 ==> r@ == repeat(Trit::Zero, N as nat).update(0, trit) && r.value()
                == trit.value(),
    {
        let mut trits = [Trit::Zero;N];
        if N > 0 {
            trits[0] = trit;
        }
        let r = BalancedInt(trits);
        proof {
            let v = trit.value();
            let zeros = repeat(Trit::Zero, N as nat);
            lemma_filled::<N>(Trit::Zero);
            lemma_balanced_digits_value(v, N as nat);
            if N > 0 {
                let upper = repeat(Trit::Zero, (N - 1) as nat);
                lemma_balanced_digits_zero((N - 1) as nat);
                assert(drop_low(v) == 0);
                assert(low_trit(v) == trit);
                assert(r@ == zeros.update(0, trit));
                assert forall|i: int| 0 <= i < N implies r@[i] == #[trigger] (seq![trit]
                    + upper)[i] by {
                    if i > 0 {
                        assert(zeros[i] == Trit::Zero);
                        assert(upper[i - 1] == Trit::Zero);
                    }
                }
                assert(r@ =~= seq![trit] + upper);
                assert(r@ =~= balanced_digits(v, N as nat));
                lemma_max_value_step(0);
                lemma_pow3_monotonic(1, N as nat);
                lemma_wrap_fits(v, N as nat);
            } else {
                assert(r@ =~= balanced_digits(v, N as nat));
            }
            Self::lemma_from_seq(balanced_digits(v, N as nat));
            Self::lemma_ext_equal(r, Self::from_value(v));
        }
        r
    }
}

impl<const N: usize> BalancedInt<N> where Self: TernaryIntegerRepr {
    /// The native integer of the width holds every value of the width.
    pub proof fn lemma_native_holds_width()
        ensures
            <<Self as TernaryIntegerRepr>::Int as NativeInt>::spec_min() <= -max_value(N as nat),
            max_value(N as nat) <= <<Self as TernaryIntegerRepr>::Int as NativeInt>::spec_max(),
    {
        let top = BalancedInt::<N>([Trit::Pos;N]);
        let bottom = BalancedInt::<N>([Trit::Neg;N]);
        lemma_filled::<N>(Trit::Pos);
        lemma_filled::<N>(Trit::Neg);
        lemma_seq_value_extremes(N as nat);
        top.lemma_native_holds();
        bottom.lemma_native_holds();
    }

    /// The value as a native integer.
    pub fn to_int(self) -> (r: <Self as TernaryIntegerRepr>::Int)
        ensures
            r.as_int() == self.value(),
    {
        proof {
            Self::lemma_native_holds_width();
            <<Self as TernaryIntegerRepr>::Int as NativeInt>::lemma_native_range();
        }
        let acc = self.range_value(0, N);
        assert(self@.subrange(0, N as int) =~= self@);
        match <<Self as TernaryIntegerRepr>::Int as NativeInt>::try_from_i64(acc) {
            Some(x) => x,
            None => unreached(),
        }
    }

    /// What the trits from `start` up to `end`, without `end`, stand for
    /// when `start` is given the weight one.
    fn range_value(&self, start: usize, end: usize) -> (r: i64)
        requires
            start <= end <= N,
        ensures
            r == seq_value(self@.subrange(start as int, end as int)),
            fits(r as int, (end - start) as nat),
            <<Self as TernaryIntegerRepr>::Int as NativeInt>::spec_min() <= r
                <= <<Self as TernaryIntegerRepr>::Int as NativeInt>::spec_max(),
    {
        proof {
            Self::lemma_native_holds_width();
            <<Self as TernaryIntegerRepr>::Int as NativeInt>::lemma_native_range();
        }
        let mut acc: i64 = 0;
        let mut i: usize = end;
        proof {
            lemma_seq_value_bound(self@.subrange(end as int, end as int));
            lemma_pow3_monotonic((end - start) as nat, N as nat);
        }
        while i > start
            invariant
                start <= i <= end <= N,
                acc == seq_value(self@.subrange(i as int, end as int)),
                fits(acc as int, (end - i) as nat),
                max_value(N as nat) <= i64::MAX,
            decreases i,
        {
            i -= 1;
            proof {
                let wide = self@.subrange(i as int, end as int);
                assert(wide.drop_first() =~= self@.subrange(i + 1, end as int));
                assert(wide[0] == self@[i as int]);
                lemma_seq_value_bound(wide);
                lemma_max_value_step((end - i - 1) as nat);
                lemma_pow3_monotonic((end - i) as nat, N as nat);
            }
            acc = acc * 3 + self.0[i].to_i8() as i64;
        }
        acc
    }

    /// The value that stands for `value`. Where the width cannot hold
    /// `value`, the trits above the width are left out: the result is
    /// `value` wrapped into the range of the width.
    pub fn from_int(value: <Self as TernaryIntegerRepr>::Int) -> (r: Self)
        ensures
            r@ == balanced_digits(value.as_int(), N as nat),
            r.value() == wrap(value.as_int(), N as nat),
            fits(value.as_int(), N as nat) ==> r.value() == value.as_int(),
    {
        let mut trits = [Trit::Zero;N];
        let mut rest: i64 = value.to_i64();
        let mut i: usize = 0;
        let ghost all = balanced_digits(value.as_int(), N as nat);
        assert(trits@.take(0) + all =~= all);
        while i < N && rest != 0
            invariant
                i <= N,
                all == trits@.take(i as int) + balanced_digits(rest as int, (N - i) as nat),
                forall|j: int| i <= j < N ==> trits@[j] == Trit::Zero,
            decreases N - i,
        {
            let ghost before = trits@;
            let (t, q) = split_low(rest);
            trits[i] = t;
            proof {
                let upper = balanced_digits(q as int, (N - i - 1) as nat);
                assert(balanced_digits(rest as int, (N - i) as nat) =~= seq![t] + upper);
                assert(trits@.take(i + 1) =~= before.take(i as int).push(t));
                assert(trits@.take(i + 1) + upper =~= before.take(i as int) + (seq![t] + upper));
            }
            rest = q;
            i += 1;
        }
        let r = BalancedInt(trits);
        proof {
            if i < N {
                lemma_balanced_digits_zero((N - i) as nat);
            }
            assert(r@ =~= all);
            lemma_balanced_digits_value(value.as_int(), N as nat);
            if fits(value.as_int(), N as nat) {
                lemma_wrap_fits(value.as_int(), N as nat);
            }
        }
        r
    }

    /// Reads the trits from `start` to `end`, both included, as an integer
    /// of its own, `start` being its least significant trit.
    pub fn read_trit_range(&self, start: usize, end: usize) -> (r: Result<
        <Self as TernaryIntegerRepr>::Int,
        BIntError,
    >)
        ensures
            r is Ok <==> start <= end < N,
            r matches Ok(x) ==> x.as_int() == read_range_seq(self@, start as int, end as int),
            r matches Err(e) ==> e == BIntError::RangeInvalid(start, end),
    {
        if start > end || end >= N {
            Err(BIntError::RangeInvalid(start, end))
        } else {
            let acc = self.range_value(start, end + 1);
            match <<Self as TernaryIntegerRepr>::Int as NativeInt>::try_from_i64(acc) {
                Some(x) => Ok(x),
                None => Err(BIntError::ValueRange),
            }
        }
    }

    /// Writes `value` into the trits from `start` to `end`, both included,
    /// `start` taking its least significant trit. The other trits stay as
    /// they are. Where the range cannot hold `value`, it is left with the
    /// low trits of `value` and the call fails.
    pub fn write_trit_range(
        &mut self,
        value: <Self as TernaryIntegerRepr>::Int,
        start: usize,
        end: usize,
    ) -> (r: Result<(), BIntError>)
        ensures
            !(start <= end < N) ==> r == Err::<(), BIntError>(BIntError::RangeInvalid(start, end))
                && final(self)@ == old(self)@,
            start <= end < N ==> {
                let len = (end - start + 1) as nat;
                &&& final(self)@ == write_range_seq(
                    old(self)@,
                    value.as_int(),
                    start as int,
                    end as int,
                )
                &&& read_range_seq(final(self)@, start as int, end as int) == wrap(
                    value.as_int(),
                    len,
                )
                &&& fits(value.as_int(), len) ==> r == Ok::<(), BIntError>(())
                &&& !fits(value.as_int(), len) ==> r == Err::<(), BIntError>(BIntError::ValueRange)
            },
    {
        if start > end || end >= N {
            return Err(BIntError::RangeInvalid(start, end));
        }
        let ghost len = (end - start + 1) as nat;
        let ghost all = balanced_digits(value.as_int(), len);
        let mut rest: i64 = value.to_i64();
        let mut i: usize = start;
        proof {
            assert(self@.subrange(start as int, start as int) + all =~= all);
            assert(pow3(0) * rest == rest) by (nonlinear_arith)
                requires
                    pow3(0) == 1,
            ;
        }
        while i <= end
            invariant
                start <= i <= end + 1,
                end < N,
                len == end - start + 1,
                forall|j: int| 0 <= j < N && !(start <= j < i) ==> self@[j] == old(self)@[j],
                all == self@.subrange(start as int, i as int) + balanced_digits(
                    rest as int,
                    (end + 1 - i) as nat,
                ),
                value.as_int() == seq_value(self@.subrange(start as int, i as int)) + pow3(
                    (i - start) as nat,
                ) * rest,
            decreases end + 1 - i,
        {
            let ghost before = self@;
            let ghost lower = before.subrange(start as int, i as int);
            let (t, q) = split_low(rest);
            self.0[i] = t;
            proof {
                let upper = balanced_digits(q as int, (end - i) as nat);
                assert(balanced_digits(rest as int, (end + 1 - i) as nat) =~= seq![t] + upper);
                assert(self@.subrange(start as int, i + 1) =~= lower.push(t));
                assert(lower.push(t) + upper =~= lower + (seq![t] + upper));
                lemma_seq_value_push(lower, t);
                lemma_max_value_step((i - start) as nat);
                let p = pow3((i - start) as nat);
                assert(p * rest == t.value() * p + (3 * p) * q) by (nonlinear_arith)
                    requires
                        rest == t.value() + 3 * q,
                ;
            }
            rest = q;
            i += 1;
        }
        proof {
            let written = self@.subrange(start as int, end + 1);
            assert(written =~= all);
            lemma_fits_iff_no_rest(value.as_int(), written, rest as int);
            assert(self@ =~= write_range_seq(
                old(self)@,
                value.as_int(),
                start as int,
                end as int,
            ));
        }
        if rest != 0 {
            Err(BIntError::ValueRange)
        } else {
            Ok(())
        }
    }
}

} // verus!
