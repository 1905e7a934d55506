//! Division with remainder, by long division from the most significant
//! position down.
use crate::balanced_int::{ArithmeticTernaryInteger, BalancedInt};
use crate::digits::{
    drop_low, fits, lemma_low_trit, lemma_max_value_step, lemma_pow3_add, lemma_pow3_max,
    lemma_pow3_monotonic, lemma_seq_value_bound, lemma_seq_value_update, lemma_seq_value_zeros,
    lemma_shift_seq_exact,
    lemma_wrap_add, lemma_wrap_congruent, lemma_wrap_fits, lemma_wrap_unique, magnitude,
    max_value, pow3, repeat, seq_value, wrap,
};
use crate::trit::Trit;
use vstd::prelude::*;

verus! {

/// The number of balanced trits that it takes to write `v`: none for zero.
pub open spec fn trit_len(v: int) -> nat
    decreases magnitude(v),
{
    if v == 0 {
        0
    } else {
        1 + trit_len(drop_low(v))
    }
}

/// One position of the long division, on a remainder `r` and the divisor
/// moved up to that position, `s`. Where taking `s` away does not make the
/// remainder larger in magnitude, the quotient trit is `Pos`; else, where
/// adding `s` does not, it is `Neg`; else it is `Zero` and the remainder
/// stays. Both attempts are made within `n` trits and wrap round.
pub open spec fn div_step(r: int, s: int, n: nat) -> (Trit, int) {
    if magnitude(wrap(r - s, n)) <= magnitude(r) {
        (Trit::Pos, wrap(r - s, n))
    } else if magnitude(wrap(r + s, n)) <= magnitude(r) {
        (Trit::Neg, wrap(r + s, n))
    } else {
        (Trit::Zero, r)
    }
}

/// The quotient and the remainder that the positions below `i` give, from
/// position `i - 1` down to 0, for a remainder `r` and a divisor `d`.
pub open spec fn div_steps(r: int, d: int, i: nat, n: nat) -> (int, int)
    decreases i,
{
    if i == 0 {
        (0, r)
    } else {
        let k = (i - 1) as nat;
        let (t, r1) = div_step(r, d * pow3(k), n);
        let (q, r2) = div_steps(r1, d, k, n);
        (t.value() * pow3(k) + q, r2)
    }
}

/// The number of positions at which a divisor `d` is tried within `n`
/// trits: those to which it can be moved up and still fit the width.
pub open spec fn div_positions(d: int, n: nat) -> nat {
    if 0 < trit_len(d) <= n {
        (n + 1 - trit_len(d)) as nat
    } else {
        0
    }
}

/// The quotient and the remainder of `a` by `b` within `n` trits. The
/// division is made by the magnitude of `b`, which starts at the highest
/// position from which it still fits the width, and the quotient takes the
/// sign of `b` afterwards.
pub open spec fn div_rem_spec(a: int, b: int, n: nat) -> (int, int) {
    let d = magnitude(b);
    let (q, r) = div_steps(a, d, div_positions(d, n), n);
    (
        if b < 0 {
            -q
        } else {
            q
        },
        r,
    )
}

/// A sequence whose most significant trit other than `Zero` is at index
/// `m` stands for an integer of `m + 1` trits.
pub proof fn lemma_trit_len_of_seq(s: Seq<Trit>, m: int)
    requires
        0 <= m < s.len(),
        s[m] != Trit::Zero,
        forall|j: int| m < j < s.len() ==> s[j] == Trit::Zero,
    ensures
        trit_len(seq_value(s)) == m + 1,
        seq_value(s) != 0,
    decreases s.len(),
{
    let v = seq_value(s);
    let rest = s.drop_first();
    let w = seq_value(rest);
    if m == 0 {
        assert(rest =~= repeat(Trit::Zero, rest.len()));
        lemma_seq_value_zeros(rest.len());
        assert(trit_len(drop_low(v)) == 0);
    } else {
        lemma_trit_len_of_seq(rest, m - 1);
        assert(drop_low(v) == w);
    }
}

/// An integer other than zero lies beyond the range of one trit less than
/// it takes to write it, and within the range of as many as it takes.
pub proof fn lemma_trit_len_bounds(v: int)
    requires
        v != 0,
    ensures
        trit_len(v) >= 1,
        max_value((trit_len(v) - 1) as nat) < magnitude(v) <= max_value(trit_len(v)),
    decreases magnitude(v),
{
    let w = drop_low(v);
    lemma_low_trit(v);
    if w == 0 {
        reveal_with_fuel(pow3, 2);
        assert(trit_len(w) == 0);
    } else {
        lemma_trit_len_bounds(w);
        lemma_max_value_step((trit_len(w) - 1) as nat);
        lemma_max_value_step(trit_len(w));
    }
}

/// What fits `n` trits takes at most `n` trits to write.
pub proof fn lemma_trit_len_fits(v: int, n: nat)
    requires
        fits(v, n),
    ensures
        trit_len(v) <= n,
{
    if v != 0 {
        lemma_trit_len_bounds(v);
        if trit_len(v) > n {
            lemma_pow3_monotonic(n, (trit_len(v) - 1) as nat);
        }
    }
}

/// One position of the division leaves a remainder that is no larger in
/// magnitude, fits the width, and differs from the old one by the quotient
/// trit times the divisor at that position, up to a multiple of `3^n`.
pub proof fn lemma_div_step(r: int, s: int, n: nat)
    requires
        fits(r, n),
    ensures
        ({
            let (t, r1) = div_step(r, s, n);
            &&& fits(r1, n)
            &&& magnitude(r1) <= magnitude(r)
            &&& wrap(t.value() * s + r1, n) == r
        }),
{
    let (t, r1) = div_step(r, s, n);
    lemma_wrap_fits(r, n);
    let k1 = lemma_wrap_congruent(r - s, n);
    let k2 = lemma_wrap_congruent(r + s, n);
    if t == Trit::Pos {
        lemma_wrap_add(r - s, s, n);
    } else if t == Trit::Neg {
        lemma_wrap_add(r + s, -s, n);
    }
}

/// The positions below `i` leave a remainder that is no larger in
/// magnitude than the one they began with, and a quotient of `i` trits;
/// quotient times divisor plus remainder is what they began with, up to a
/// multiple of `3^n`.
pub proof fn lemma_div_steps(r: int, d: int, i: nat, n: nat)
    requires
        fits(r, n),
    ensures
        ({
            let (q, r2) = div_steps(r, d, i, n);
            &&& fits(r2, n)
            &&& fits(q, i)
            &&& magnitude(r2) <= magnitude(r)
            &&& wrap(q * d + r2, n) == r
        }),
    decreases i,
{
    lemma_wrap_fits(r, n);
    lemma_pow3_max(i);
    if i == 0 {
        assert(0 * d + r == r) by (nonlinear_arith);
    } else {
        let k = (i - 1) as nat;
        let s = d * pow3(k);
        let (t, r1) = div_step(r, s, n);
        let (q1, r2) = div_steps(r1, d, k, n);
        let q = t.value() * pow3(k) + q1;
        lemma_div_step(r, s, n);
        lemma_div_steps(r1, d, k, n);
        lemma_max_value_step(k);
        lemma_pow3_max(k);
        assert(fits(q, i)) by (nonlinear_arith)
            requires
                q == t.value() * pow3(k) + q1,
                -1 <= t.value() <= 1,
                -max_value(k) <= q1 <= max_value(k),
                pow3(k) == 2 * max_value(k) + 1,
                max_value(i) == 3 * max_value(k) + 1,
        ;
        assert(q * d + r2 == t.value() * s + (q1 * d + r2)) by (nonlinear_arith)
            requires
                q == t.value() * pow3(k) + q1,
                s == d * pow3(k),
        ;
        lemma_wrap_add(t.value() * s, q1 * d + r2, n);
    }
}

/// Within `n` trits, the quotient times the divisor plus the remainder is
/// the dividend up to a multiple of `3^n`, and the remainder is no larger
/// in magnitude than the dividend.
pub proof fn lemma_div_rem_congruent(a: int, b: int, n: nat)
    requires
        fits(a, n),
    ensures
        ({
            let (q, r) = div_rem_spec(a, b, n);
            &&& fits(q, n)
            &&& fits(r, n)
            &&& magnitude(r) <= magnitude(a)
            &&& wrap(q * b + r, n) == a
        }),
{
    let d = magnitude(b);
    let i = div_positions(d, n);
    let (q0, r) = div_steps(a, d, i, n);
    lemma_div_steps(a, d, i, n);
    lemma_pow3_monotonic(i, n);
    if b < 0 {
        assert((-q0) * b == q0 * d) by (nonlinear_arith)
            requires
                d == -b,
        ;
    }
}

/// One position of the division on a remainder that is small against the
/// width and at most one and a half times the divisor at that position:
/// nothing wraps, and the new remainder is at most half that divisor.
pub proof fn lemma_div_step_exact(r: int, s: int, n: nat)
    requires
        0 < s <= max_value(n),
        2 * magnitude(r) <= max_value(n),
        2 * magnitude(r) <= 3 * s,
    ensures
        ({
            let (t, r1) = div_step(r, s, n);
            &&& r == t.value() * s + r1
            &&& 2 * magnitude(r1) <= s
            &&& magnitude(r1) <= magnitude(r)
        }),
{
    let m = max_value(n);
    let p = pow3(n);
    lemma_pow3_max(n);
    let below = r - s;
    let above = r + s;
    if below >= -m {
        lemma_wrap_fits(below, n);
    } else {
        assert(below + p == below + 1 * p) by (nonlinear_arith);
        lemma_wrap_unique(below, n, below + p, 1);
    }
    if above <= m {
        lemma_wrap_fits(above, n);
    } else {
        assert(above - p == above + (-1) * p) by (nonlinear_arith);
        lemma_wrap_unique(above, n, above - p, -1);
    }
    let (t, r1) = div_step(r, s, n);
    assert(t.value() * s == if t == Trit::Pos {
        s
    } else if t == Trit::Neg {
        -s
    } else {
        0
    }) by (nonlinear_arith)
        requires
            t == Trit::Pos ==> t.value() == 1,
            t == Trit::Neg ==> t.value() == -1,
            t == Trit::Zero ==> t.value() == 0,
    ;
}

/// The positions below `i` on a remainder that is small against the width
/// and at most half the divisor moved up by `i` positions: nothing wraps,
/// and the division is exact with a remainder of at most half the divisor.
pub proof fn lemma_div_steps_exact(r: int, d: int, i: nat, n: nat)
    requires
        d > 0,
        2 * magnitude(r) <= max_value(n),
        2 * magnitude(r) <= d * pow3(i),
        i > 0 ==> d * pow3((i - 1) as nat) <= max_value(n),
    ensures
        ({
            let (q, r2) = div_steps(r, d, i, n);
            &&& r == q * d + r2
            &&& 2 * magnitude(r2) <= d
        }),
    decreases i,
{
    if i == 0 {
        assert(0 * d + r == r) by (nonlinear_arith);
    } else {
        let k = (i - 1) as nat;
        let s = d * pow3(k);
        lemma_pow3_max(k);
        assert(s > 0) by (nonlinear_arith)
            requires
                s == d * pow3(k),
                d > 0,
                pow3(k) >= 1,
        ;
        assert(d * pow3(i) == 3 * s) by (nonlinear_arith)
            requires
                s == d * pow3(k),
                pow3(i) == 3 * pow3(k),
        ;
        let (t, r1) = div_step(r, s, n);
        lemma_div_step_exact(r, s, n);
        if k > 0 {
            let j = (k - 1) as nat;
            lemma_pow3_max(j);
            assert(d * pow3(j) <= s) by (nonlinear_arith)
                requires
                    s == d * pow3(k),
                    pow3(k) == 3 * pow3(j),
                    d > 0,
                    pow3(j) >= 1,
            ;
        }
        lemma_div_steps_exact(r1, d, k, n);
        let (q1, r2) = div_steps(r1, d, k, n);
        let q = t.value() * pow3(k) + q1;
        assert(q * d + r2 == t.value() * s + (q1 * d + r2)) by (nonlinear_arith)
            requires
                q == t.value() * pow3(k) + q1,
                s == d * pow3(k),
        ;
    }
}

/// Where the dividend is at most half the largest value of the width,
/// nothing wraps: the quotient times the divisor plus the remainder is the
/// dividend, and the remainder is at most half the divisor in magnitude.
pub proof fn lemma_div_rem_exact(a: int, b: int, n: nat)
    requires
        b != 0,
        fits(b, n),
        2 * magnitude(a) <= max_value(n),
    ensures
        ({
            let (q, r) = div_rem_spec(a, b, n);
            &&& a == q * b + r
            &&& 2 * magnitude(r) <= magnitude(b)
        }),
{
    let d = magnitude(b);
    let len = trit_len(d);
    lemma_trit_len_bounds(d);
    lemma_trit_len_fits(d, n);
    let i = div_positions(d, n);
    let top = (i - 1) as nat;
    let below = (len - 1) as nat;
    lemma_pow3_max(n);
    lemma_pow3_max(len);
    lemma_pow3_max(below);
    lemma_pow3_max(i);
    lemma_pow3_max(top);
    lemma_pow3_add(below, i);
    lemma_pow3_add(len, top);
    assert(2 * (d * pow3(i)) >= pow3(n) + 1) by (nonlinear_arith)
        requires
            2 * d >= pow3(below) + 1,
            pow3(below) * pow3(i) == pow3(n),
            pow3(i) >= 1,
    ;
    assert(2 * (d * pow3(top)) <= pow3(n) - 1) by (nonlinear_arith)
        requires
            2 * d <= pow3(len) - 1,
            pow3(len) * pow3(top) == pow3(n),
            pow3(top) >= 1,
            d > 0,
    ;
    lemma_div_steps_exact(a, d, i, n);
    let (q0, r) = div_steps(a, d, i, n);
    if b < 0 {
        assert((-q0) * b == q0 * d) by (nonlinear_arith)
            requires
                d == -b,
        ;
    }
}

impl<const N: usize> BalancedInt<N> where Self: ArithmeticTernaryInteger {
    /// The index of the most significant trit that is not `Zero`.
    fn leading_index(&self) -> (r: usize)
        requires
            self.value() != 0,
        ensures
            r < N,
            self@[r as int] != Trit::Zero,
            forall|j: int| r < j < N ==> self@[j] == Trit::Zero,
    {
        let mut i: usize = N;
        while i > 0
            invariant
                i <= N,
                self.value() != 0,
                forall|j: int| i <= j < N ==> self@[j] == Trit::Zero,
            decreases i,
        {
            i -= 1;
            if self.0[i] != Trit::Zero {
                return i;
            }
        }
        proof {
            assert(self@ =~= repeat(Trit::Zero, N as nat));
            lemma_seq_value_zeros(N as nat);
        }
        0
    }

    /// Divides `self` by `rhs`, which is not zero. The first result is the
    /// quotient, the second the remainder.
    pub fn div_rem(self, rhs: Self) -> (r: (Self, Self))
        requires
            rhs.value() != 0,
        ensures
            (r.0.value(), r.1.value()) == div_rem_spec(self.value(), rhs.value(), N as nat),
            wrap(r.0.value() * rhs.value() + r.1.value(), N as nat) == self.value(),
            magnitude(r.1.value()) <= magnitude(self.value()),
            2 * magnitude(self.value()) <= max_value(N as nat) ==> self.value() == r.0.value()
                * rhs.value() + r.1.value() && 2 * magnitude(r.1.value()) <= magnitude(
                rhs.value(),
            ),
    {
        proof {
            lemma_seq_value_bound(self@);
            lemma_seq_value_bound(rhs@);
            lemma_div_rem_congruent(self.value(), rhs.value(), N as nat);
            if 2 * magnitude(self.value()) <= max_value(N as nat) {
                lemma_div_rem_exact(self.value(), rhs.value(), N as nat);
            }
        }
        let divisor_sign = rhs.sign();
        let divisor = rhs.abs();
        let msb = divisor.leading_index();
        let ghost d = divisor.value();
        let ghost steps = div_positions(d, N as nat);
        proof {
            lemma_trit_len_of_seq(divisor@, msb as int);
        }
        let mut remainder = self;
        let mut quotient = Self::zero();
        let mut i: usize = N - msb;
        while i > 0
            invariant
                i <= N - msb,
                msb < N,
                d == divisor.value(),
                forall|j: int| msb < j < N ==> divisor@[j] == Trit::Zero,
                forall|j: int| 0 <= j < i ==> quotient@[j] == Trit::Zero,
                div_steps(self.value(), d, steps, N as nat) == (
                    quotient.value() + div_steps(remainder.value(), d, i as nat, N as nat).0,
                    div_steps(remainder.value(), d, i as nat, N as nat).1,
                ),
            decreases i,
        {
            i -= 1;
            let ghost q_before = quotient;
            let ghost r_before = remainder.value();
            let shifted = divisor.shift_left(i);
            proof {
                lemma_shift_seq_exact(divisor@, i as nat);
            }
            let (rem_after_sub, _carry) = remainder.full_add(&shifted.negate(), Trit::Zero);
            if rem_after_sub.abs() <= remainder.abs() {
                remainder = rem_after_sub;
                quotient.0[i] = Trit::Pos;
            } else {
                let (rem_after_add, _carry) = remainder.full_add(&shifted, Trit::Zero);
                if rem_after_add.abs() <= remainder.abs() {
                    remainder = rem_after_add;
                    quotient.0[i] = Trit::Neg;
                }
            }
            proof {
                let step = div_step(r_before, d * pow3(i as nat), N as nat);
                assert(remainder.value() == step.1);
                assert(quotient@ =~= q_before@.update(i as int, step.0));
                lemma_seq_value_update(q_before@, i as int, step.0);
            }
        }
        if divisor_sign == Trit::Neg {
            quotient = quotient.negate();
        }
        (quotient, remainder)
    }
}

} // verus!
