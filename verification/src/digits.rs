//! The mathematics of balanced ternary: what a sequence of trits is worth,
//! which integers a width can hold, and how an integer outside that range is
//! brought back into it.
use crate::trit::Trit;
use vstd::arithmetic::div_mod::{
    lemma_fundamental_div_mod, lemma_fundamental_div_mod_converse, lemma_mod_bound,
};
use vstd::prelude::*;

verus! {

/// Three to the power `n`.
pub open spec fn pow3(n: nat) -> int
    decreases n,
{
    if n == 0 {
        1
    } else {
        3 * pow3((n - 1) as nat)
    }
}

/// The largest integer that `n` trits can hold, `(3^n - 1) / 2`. The smallest
/// is its negation.
pub open spec fn max_value(n: nat) -> int {
    (pow3(n) - 1) / 2
}

/// Whether `n` trits can hold `v`.
pub open spec fn fits(v: int, n: nat) -> bool {
    -max_value(n) <= v <= max_value(n)
}

/// The integer that a sequence of trits stands for, the trit at index 0
/// being the least significant: the sum of `s[i] * 3^i`.
pub open spec fn seq_value(s: Seq<Trit>) -> int
    decreases s.len(),
{
    if s.len() == 0 {
        0
    } else {
        s[0].value() + 3 * seq_value(s.drop_first())
    }
}

/// The integer within the range of `n` trits that differs from `v` by a
/// multiple of `3^n`.
pub open spec fn wrap(v: int, n: nat) -> int {
    (v + max_value(n)) % pow3(n) - max_value(n)
}

/// The least significant balanced trit of `v`.
pub open spec fn low_trit(v: int) -> Trit {
    Trit::from_value((v + 1) % 3 - 1)
}

/// What is left of `v` once its least significant balanced trit is taken
/// away: `v == low_trit(v) + 3 * drop_low(v)`.
pub open spec fn drop_low(v: int) -> int {
    (v + 1) / 3
}

/// The `n` least significant balanced trits of `v`, least significant first.
pub open spec fn balanced_digits(v: int, n: nat) -> Seq<Trit>
    decreases n,
{
    if n == 0 {
        Seq::empty()
    } else {
        seq![low_trit(v)] + balanced_digits(drop_low(v), (n - 1) as nat)
    }
}

/// `n` trits that are all `t`.
pub open spec fn repeat(t: Trit, n: nat) -> Seq<Trit> {
    Seq::new(n, |i: int| t)
}

/// The sequence with every trit of `s` negated.
pub open spec fn negate_seq(s: Seq<Trit>) -> Seq<Trit> {
    Seq::new(s.len(), |i: int| Trit::from_value(-s[i].value()))
}

/// The sequence with every trit of `s` moved up by `k` positions: `Zero`
/// comes in at the low end, and what passes the high end is lost.
pub open spec fn shift_seq(s: Seq<Trit>, k: nat) -> Seq<Trit> {
    Seq::new(
        s.len(),
        |i: int|
            if i >= k {
                s[i - k]
            } else {
                Trit::Zero
            },
    )
}

/// The absolute value of `v`.
pub open spec fn magnitude(v: int) -> int {
    if v < 0 {
        -v
    } else {
        v
    }
}

/// The sign of `v` as a trit.
pub open spec fn sign_of(v: int) -> Trit {
    if v < 0 {
        Trit::Neg
    } else if v == 0 {
        Trit::Zero
    } else {
        Trit::Pos
    }
}

/// The most significant trit of `s` that is not `Zero`; `Zero` where there
/// is none.
pub open spec fn leading_trit(s: Seq<Trit>) -> Trit
    decreases s.len(),
{
    if s.len() == 0 {
        Trit::Zero
    } else if s.last() != Trit::Zero {
        s.last()
    } else {
        leading_trit(s.drop_last())
    }
}

/// `3^n` is odd and positive: it is twice the largest value of `n` trits,
/// and one.
pub proof fn lemma_pow3_max(n: nat)
    ensures
        pow3(n) == 2 * max_value(n) + 1,
        max_value(n) >= 0,
        pow3(n) >= 1,
    decreases n,
{
    if n > 0 {
        lemma_pow3_max((n - 1) as nat);
    }
}

/// One more trit triples the range and adds one.
pub proof fn lemma_max_value_step(n: nat)
    ensures
        max_value(n + 1) == 3 * max_value(n) + 1,
        pow3(n + 1) == 3 * pow3(n),
{
    lemma_pow3_max(n);
    lemma_pow3_max(n + 1);
}

/// Powers of three multiply as their exponents add.
pub proof fn lemma_pow3_add(a: nat, b: nat)
    ensures
        pow3(a + b) == pow3(a) * pow3(b),
    decreases a,
{
    if a == 0 {
        assert(pow3(0) * pow3(b) == pow3(b)) by (nonlinear_arith)
            requires
                pow3(0) == 1,
        ;
    } else {
        lemma_pow3_add((a - 1) as nat, b);
        let x = pow3((a - 1) as nat);
        let y = pow3(b);
        assert(pow3(a + b) == 3 * pow3((a + b - 1) as nat));
        assert((3 * x) * y == 3 * (x * y)) by (nonlinear_arith);
    }
}

/// A wider integer holds at least what a narrower one holds.
pub proof fn lemma_pow3_monotonic(a: nat, b: nat)
    requires
        a <= b,
    ensures
        pow3(a) <= pow3(b),
        max_value(a) <= max_value(b),
    decreases b,
{
    lemma_pow3_max(a);
    lemma_pow3_max(b);
    if a < b {
        lemma_pow3_monotonic(a, (b - 1) as nat);
        lemma_pow3_max((b - 1) as nat);
    }
}

/// The value of a sequence of trits lies within the range of its length.
pub proof fn lemma_seq_value_bound(s: Seq<Trit>)
    ensures
        fits(seq_value(s), s.len()),
    decreases s.len(),
{
    if s.len() == 0 {
        lemma_pow3_max(0);
    } else {
        lemma_seq_value_bound(s.drop_first());
        lemma_max_value_step((s.len() - 1) as nat);
    }
}

/// The value of two sequences laid end to end: the second counts from the
/// position where the first ends.
pub proof fn lemma_seq_value_concat(a: Seq<Trit>, b: Seq<Trit>)
    ensures
        seq_value(a + b) == seq_value(a) + pow3(a.len()) * seq_value(b),
    decreases a.len(),
{
    if a.len() == 0 {
        assert(a + b =~= b);
        assert(pow3(0) * seq_value(b) == seq_value(b)) by (nonlinear_arith)
            requires
                pow3(0) == 1,
        ;
    } else {
        let rest = a.drop_first();
        lemma_seq_value_concat(rest, b);
        assert((a + b).drop_first() =~= rest + b);
        assert((a + b)[0] == a[0]);
        let p = pow3(rest.len());
        let vb = seq_value(b);
        assert(pow3(a.len()) == 3 * p);
        assert((3 * p) * vb == 3 * (p * vb)) by (nonlinear_arith);
    }
}

/// A sequence is worth its lower part plus its upper part counted from
/// where the lower part ends.
pub proof fn lemma_seq_value_split(s: Seq<Trit>, k: int)
    requires
        0 <= k <= s.len(),
    ensures
        seq_value(s) == seq_value(s.take(k)) + pow3(k as nat) * seq_value(s.skip(k)),
{
    assert(s =~= s.take(k) + s.skip(k));
    lemma_seq_value_concat(s.take(k), s.skip(k));
}

/// One more trit on top adds that trit at the weight of its position.
pub proof fn lemma_seq_value_push(s: Seq<Trit>, t: Trit)
    ensures
        seq_value(s.push(t)) == seq_value(s) + t.value() * pow3(s.len()),
{
    let one = seq![t];
    assert(s.push(t) =~= s + one);
    lemma_seq_value_concat(s, one);
    assert(one.drop_first() =~= Seq::<Trit>::empty());
    assert(seq_value(one.drop_first()) == 0);
    assert(seq_value(one) == t.value());
    assert(pow3(s.len()) * t.value() == t.value() * pow3(s.len())) by (nonlinear_arith);
}

/// Zeros are worth nothing.
pub proof fn lemma_seq_value_zeros(n: nat)
    ensures
        seq_value(repeat(Trit::Zero, n)) == 0,
    decreases n,
{
    if n > 0 {
        lemma_seq_value_zeros((n - 1) as nat);
        assert(repeat(Trit::Zero, n).drop_first() =~= repeat(Trit::Zero, (n - 1) as nat));
    }
}

/// A sequence of `Pos` alone is worth the largest value of its length, one
/// of `Neg` alone the smallest.
pub proof fn lemma_seq_value_extremes(n: nat)
    ensures
        seq_value(repeat(Trit::Pos, n)) == max_value(n),
        seq_value(repeat(Trit::Neg, n)) == -max_value(n),
    decreases n,
{
    if n == 0 {
        lemma_pow3_max(0);
    } else {
        lemma_seq_value_extremes((n - 1) as nat);
        lemma_max_value_step((n - 1) as nat);
        assert(repeat(Trit::Pos, n).drop_first() =~= repeat(Trit::Pos, (n - 1) as nat));
        assert(repeat(Trit::Neg, n).drop_first() =~= repeat(Trit::Neg, (n - 1) as nat));
    }
}

/// Balanced ternary is unique: two sequences of one length with one value
/// are the same sequence.
pub proof fn lemma_seq_value_unique(a: Seq<Trit>, b: Seq<Trit>)
    requires
        a.len() == b.len(),
        seq_value(a) == seq_value(b),
    ensures
        a == b,
    decreases a.len(),
{
    if a.len() > 0 {
        let ra = a.drop_first();
        let rb = b.drop_first();
        assert(a[0].value() - b[0].value() == 3 * (seq_value(rb) - seq_value(ra)));
        assert(a[0] == b[0]);
        lemma_seq_value_unique(ra, rb);
        assert(a =~= seq![a[0]] + ra);
        assert(b =~= seq![b[0]] + rb);
    }
    assert(a =~= b);
}

/// The wrapped value lies within the range and differs from `v` by a
/// multiple of `3^n`.
pub proof fn lemma_wrap_congruent(v: int, n: nat) -> (k: int)
    ensures
        fits(wrap(v, n), n),
        wrap(v, n) == v + k * pow3(n),
{
    lemma_pow3_max(n);
    let p = pow3(n);
    let x = v + max_value(n);
    lemma_mod_bound(x, p);
    lemma_fundamental_div_mod(x, p);
    let k = -(x / p);
    assert(k * p == -(p * (x / p))) by (nonlinear_arith)
        requires
            k == -(x / p),
    ;
    k
}

/// Whatever lies within the range and differs from `v` by a multiple of
/// `3^n` is the wrapped value of `v`.
pub proof fn lemma_wrap_unique(v: int, n: nat, w: int, k: int)
    requires
        fits(w, n),
        w == v + k * pow3(n),
    ensures
        wrap(v, n) == w,
{
    lemma_pow3_max(n);
    let p = pow3(n);
    let x = v + max_value(n);
    let r = w + max_value(n);
    assert(x == (-k) * p + r) by (nonlinear_arith)
        requires
            r == x + k * p,
    ;
    lemma_fundamental_div_mod_converse(x, p, -k, r);
}

/// A value within the range is left as it is.
pub proof fn lemma_wrap_fits(v: int, n: nat)
    requires
        fits(v, n),
    ensures
        wrap(v, n) == v,
{
    assert(v == v + 0 * pow3(n)) by (nonlinear_arith);
    lemma_wrap_unique(v, n, v, 0);
}

/// Wrapping sees only the residue: a summand may be wrapped beforehand.
pub proof fn lemma_wrap_add(a: int, b: int, n: nat)
    ensures
        wrap(wrap(a, n) + b, n) == wrap(a + b, n),
        wrap(a + wrap(b, n), n) == wrap(a + b, n),
        wrap(wrap(a, n) + wrap(b, n), n) == wrap(a + b, n),
{
    let p = pow3(n);
    let ka = lemma_wrap_congruent(a, n);
    let kb = lemma_wrap_congruent(b, n);
    let k = lemma_wrap_congruent(a + b, n);
    let w = wrap(a + b, n);
    assert(w == (wrap(a, n) + b) + (k - ka) * p) by (nonlinear_arith)
        requires
            w == a + b + k * p,
            wrap(a, n) == a + ka * p,
    ;
    lemma_wrap_unique(wrap(a, n) + b, n, w, k - ka);
    assert(w == (a + wrap(b, n)) + (k - kb) * p) by (nonlinear_arith)
        requires
            w == a + b + k * p,
            wrap(b, n) == b + kb * p,
    ;
    lemma_wrap_unique(a + wrap(b, n), n, w, k - kb);
    assert(w == (wrap(a, n) + wrap(b, n)) + (k - ka - kb) * p) by (nonlinear_arith)
        requires
            w == a + b + k * p,
            wrap(a, n) == a + ka * p,
            wrap(b, n) == b + kb * p,
    ;
    lemma_wrap_unique(wrap(a, n) + wrap(b, n), n, w, k - ka - kb);
}

/// The range is symmetric, so wrapping commutes with negation.
pub proof fn lemma_wrap_neg(v: int, n: nat)
    ensures
        wrap(-v, n) == -wrap(v, n),
{
    let p = pow3(n);
    let k = lemma_wrap_congruent(v, n);
    assert(-wrap(v, n) == -v + (-k) * p) by (nonlinear_arith)
        requires
            wrap(v, n) == v + k * p,
    ;
    lemma_wrap_unique(-v, n, -wrap(v, n), -k);
}

/// A factor may be wrapped before the product is.
pub proof fn lemma_wrap_mul(a: int, b: int, n: nat)
    ensures
        wrap(wrap(a, n) * b, n) == wrap(a * b, n),
        wrap(a * wrap(b, n), n) == wrap(a * b, n),
{
    let p = pow3(n);
    let ka = lemma_wrap_congruent(a, n);
    let kb = lemma_wrap_congruent(b, n);
    let k = lemma_wrap_congruent(a * b, n);
    let w = wrap(a * b, n);
    assert(w == wrap(a, n) * b + (k - ka * b) * p) by (nonlinear_arith)
        requires
            w == a * b + k * p,
            wrap(a, n) == a + ka * p,
    ;
    lemma_wrap_unique(wrap(a, n) * b, n, w, k - ka * b);
    assert(w == a * wrap(b, n) + (k - a * kb) * p) by (nonlinear_arith)
        requires
            w == a * b + k * p,
            wrap(b, n) == b + kb * p,
    ;
    lemma_wrap_unique(a * wrap(b, n), n, w, k - a * kb);
}

/// An integer is its least significant balanced trit plus three times the
/// rest.
pub proof fn lemma_low_trit(v: int)
    ensures
        v == low_trit(v).value() + 3 * drop_low(v),
        v == 0 ==> low_trit(v) == Trit::Zero && drop_low(v) == 0,
        magnitude(drop_low(v)) <= magnitude(v),
{
}

/// The balanced trits of an integer are as many as were asked for.
pub proof fn lemma_balanced_digits_len(v: int, n: nat)
    ensures
        balanced_digits(v, n).len() == n,
    decreases n,
{
    if n > 0 {
        lemma_balanced_digits_len(drop_low(v), (n - 1) as nat);
    }
}

/// The `n` balanced trits of `v` stand for `v` wrapped into the range of
/// `n` trits.
pub proof fn lemma_balanced_digits_value(v: int, n: nat)
    ensures
        balanced_digits(v, n).len() == n,
        seq_value(balanced_digits(v, n)) == wrap(v, n),
    decreases n,
{
    lemma_balanced_digits_len(v, n);
    let d = balanced_digits(v, n);
    lemma_seq_value_bound(d);
    if n == 0 {
        lemma_pow3_max(0);
        assert(0 == v + (-v) * pow3(0)) by (nonlinear_arith)
            requires
                pow3(0) == 1,
        ;
        lemma_wrap_unique(v, 0, 0, -v);
    } else {
        let m = (n - 1) as nat;
        let rest = balanced_digits(drop_low(v), m);
        lemma_balanced_digits_value(drop_low(v), m);
        lemma_low_trit(v);
        assert(d.drop_first() =~= rest);
        let k = lemma_wrap_congruent(drop_low(v), m);
        assert(seq_value(d) == v + k * pow3(n)) by (nonlinear_arith)
            requires
                seq_value(d) == low_trit(v).value() + 3 * seq_value(rest),
                seq_value(rest) == drop_low(v) + k * pow3(m),
                v == low_trit(v).value() + 3 * drop_low(v),
                pow3(n) == 3 * pow3(m),
        ;
        lemma_wrap_unique(v, n, seq_value(d), k);
    }
}

/// The balanced trits of zero are zeros.
pub proof fn lemma_balanced_digits_zero(n: nat)
    ensures
        balanced_digits(0, n) == repeat(Trit::Zero, n),
    decreases n,
{
    if n > 0 {
        lemma_balanced_digits_zero((n - 1) as nat);
        lemma_balanced_digits_len(0, (n - 1) as nat);
    }
    lemma_balanced_digits_len(0, n);
    assert(balanced_digits(0, n) =~= repeat(Trit::Zero, n));
}

/// The balanced trits of what a sequence stands for are that sequence.
pub proof fn lemma_balanced_digits_of_value(s: Seq<Trit>)
    ensures
        balanced_digits(seq_value(s), s.len()) == s,
{
    lemma_balanced_digits_value(seq_value(s), s.len());
    lemma_seq_value_bound(s);
    lemma_wrap_fits(seq_value(s), s.len());
    lemma_seq_value_unique(balanced_digits(seq_value(s), s.len()), s);
}

/// Where `v` is the value of `s` plus `q` times the weight of the position
/// above `s`, the trits of `s` hold `v` if and only if `q` is zero.
pub proof fn lemma_fits_iff_no_rest(v: int, s: Seq<Trit>, q: int)
    requires
        v == seq_value(s) + pow3(s.len()) * q,
    ensures
        fits(v, s.len()) <==> q == 0,
        wrap(v, s.len()) == seq_value(s),
{
    let p = pow3(s.len());
    lemma_pow3_max(s.len());
    lemma_seq_value_bound(s);
    if q != 0 {
        assert(p * q >= p || p * q <= -p) by (nonlinear_arith)
            requires
                q != 0,
                p >= 1,
        ;
    } else {
        assert(p * q == 0) by (nonlinear_arith)
            requires
                q == 0,
        ;
    }
    assert(seq_value(s) == v + (-q) * p) by (nonlinear_arith)
        requires
            v == seq_value(s) + p * q,
    ;
    lemma_wrap_unique(v, s.len(), seq_value(s), -q);
}

/// The leading trit of a sequence is the sign of its value.
pub proof fn lemma_leading_trit_is_sign(s: Seq<Trit>)
    ensures
        leading_trit(s) == sign_of(seq_value(s)),
    decreases s.len(),
{
    if s.len() > 0 {
        let low = s.drop_last();
        let top = s.last();
        assert(s =~= low.push(top));
        lemma_seq_value_push(low, top);
        lemma_seq_value_bound(low);
        lemma_pow3_max(low.len());
        lemma_leading_trit_is_sign(low);
        let p = pow3(low.len());
        assert(top.value() * p == if top == Trit::Pos {
            p
        } else if top == Trit::Neg {
            -p
        } else {
            0
        }) by (nonlinear_arith)
            requires
                -1 <= top.value() <= 1,
                top == Trit::Pos ==> top.value() == 1,
                top == Trit::Neg ==> top.value() == -1,
                top == Trit::Zero ==> top.value() == 0,
        ;
    }
}

/// Of two sequences of one length that agree above position `i` and differ
/// at it, the one with the greater trit there has the greater value.
pub proof fn lemma_seq_value_order(a: Seq<Trit>, b: Seq<Trit>, i: int)
    requires
        a.len() == b.len(),
        0 <= i < a.len(),
        forall|j: int| i < j < a.len() ==> a[j] == b[j],
        a[i].value() < b[i].value(),
    ensures
        seq_value(a) < seq_value(b),
{
    let k = i + 1;
    lemma_seq_value_split(a, k);
    lemma_seq_value_split(b, k);
    assert(a.skip(k) =~= b.skip(k));
    let la = a.take(k);
    let lb = b.take(k);
    assert(la =~= la.drop_last().push(a[i]));
    assert(lb =~= lb.drop_last().push(b[i]));
    lemma_seq_value_push(la.drop_last(), a[i]);
    lemma_seq_value_push(lb.drop_last(), b[i]);
    lemma_seq_value_bound(la.drop_last());
    lemma_seq_value_bound(lb.drop_last());
    lemma_pow3_max(i as nat);
    let p = pow3(i as nat);
    let x = a[i].value();
    let y = b[i].value();
    assert(y * p - x * p >= p) by (nonlinear_arith)
        requires
            x < y,
            p >= 1,
    ;
}

/// Negating every trit negates the value: nothing is carried.
pub proof fn lemma_negate_seq_value(s: Seq<Trit>)
    ensures
        seq_value(negate_seq(s)) == -seq_value(s),
    decreases s.len(),
{
    if s.len() > 0 {
        lemma_negate_seq_value(s.drop_first());
        assert(negate_seq(s).drop_first() =~= negate_seq(s.drop_first()));
        assert(negate_seq(s)[0].value() == -s[0].value());
    }
}

/// Negating twice gives the sequence back.
pub proof fn lemma_negate_seq_involution(s: Seq<Trit>)
    ensures
        negate_seq(negate_seq(s)) == s,
{
    assert forall|i: int| 0 <= i < s.len() implies #[trigger] negate_seq(negate_seq(s))[i]
        == s[i] by {
        assert(negate_seq(s)[i].value() == -s[i].value());
    }
    assert(negate_seq(negate_seq(s)) =~= s);
}

/// Moving the trits up by `k` positions multiplies the value by `3^k`, up
/// to what the width can hold.
pub proof fn lemma_shift_seq_value(s: Seq<Trit>, k: nat)
    ensures
        seq_value(shift_seq(s, k)) == wrap(seq_value(s) * pow3(k), s.len()),
        k >= s.len() ==> shift_seq(s, k) == repeat(Trit::Zero, s.len()),
{
    let n = s.len();
    let v = seq_value(s);
    let shifted = shift_seq(s, k);
    lemma_seq_value_bound(shifted);
    if k >= n {
        assert(shifted =~= repeat(Trit::Zero, n));
        lemma_seq_value_zeros(n);
        lemma_pow3_add(n, (k - n) as nat);
        let c = pow3((k - n) as nat);
        assert(0 == v * pow3(k) + (-(v * c)) * pow3(n)) by (nonlinear_arith)
            requires
                pow3(k) == pow3(n) * c,
        ;
        lemma_wrap_unique(v * pow3(k), n, 0, -(v * c));
    } else {
        let m = n - k;
        let low = s.take(m);
        let high = s.skip(m);
        assert(shifted =~= repeat(Trit::Zero, k) + low);
        lemma_seq_value_concat(repeat(Trit::Zero, k), low);
        lemma_seq_value_zeros(k);
        lemma_seq_value_split(s, m);
        lemma_pow3_add(k, m as nat);
        let u = seq_value(high);
        assert(seq_value(shifted) == v * pow3(k) + (-u) * pow3(n)) by (nonlinear_arith)
            requires
                seq_value(shifted) == pow3(k) * seq_value(low),
                v == seq_value(low) + pow3(m as nat) * u,
                pow3(n) == pow3(k) * pow3(m as nat),
        ;
        lemma_wrap_unique(v * pow3(k), n, seq_value(shifted), -u);
    }
}

/// Putting another trit at position `k` changes the value by the
/// difference of the two trits at the weight of that position.
pub proof fn lemma_seq_value_update(s: Seq<Trit>, k: int, t: Trit)
    requires
        0 <= k < s.len(),
    ensures
        seq_value(s.update(k, t)) == seq_value(s) + (t.value() - s[k].value()) * pow3(k as nat),
{
    let u = s.update(k, t);
    lemma_seq_value_split(s, k + 1);
    lemma_seq_value_split(u, k + 1);
    assert(u.skip(k + 1) =~= s.skip(k + 1));
    assert(s.take(k + 1) =~= s.take(k).push(s[k]));
    assert(u.take(k + 1) =~= s.take(k).push(t));
    lemma_seq_value_push(s.take(k), s[k]);
    lemma_seq_value_push(s.take(k), t);
    let p = pow3(k as nat);
    assert(t.value() * p - s[k].value() * p == (t.value() - s[k].value()) * p)
        by (nonlinear_arith);
}

/// Where the `k` most significant trits are `Zero`, moving the trits up by
/// `k` positions loses nothing: the value is multiplied by `3^k`.
pub proof fn lemma_shift_seq_exact(s: Seq<Trit>, k: nat)
    requires
        k <= s.len(),
        forall|j: int| s.len() - k <= j < s.len() ==> s[j] == Trit::Zero,
    ensures
        seq_value(shift_seq(s, k)) == seq_value(s) * pow3(k),
        fits(seq_value(s) * pow3(k), s.len()),
{
    let n = s.len();
    let m = n - k;
    let shifted = shift_seq(s, k);
    assert(shifted =~= repeat(Trit::Zero, k) + s.take(m));
    lemma_seq_value_concat(repeat(Trit::Zero, k), s.take(m));
    lemma_seq_value_zeros(k);
    lemma_seq_value_split(s, m);
    assert(s.skip(m) =~= repeat(Trit::Zero, k));
    let low = seq_value(s.take(m));
    assert(pow3(m as nat) * 0 == 0) by (nonlinear_arith);
    assert(pow3(k) * low == low * pow3(k)) by (nonlinear_arith);
    lemma_seq_value_bound(shifted);
}

} // verus!
