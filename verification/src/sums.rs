//! Sums over weight vectors, and the facts about truncated scaling that the
//! normalization invariant rests on.

use vstd::prelude::*;

verus! {

/// Sum of a sequence of fixed-point values, as a mathematical integer.
pub open spec fn wsum(s: Seq<i64>) -> int
    decreases s.len(),
{
    if s.len() == 0 {
        0
    } else {
        wsum(s.drop_last()) + s.last()
    }
}

/// Extending a prefix by one element adds that element to the prefix sum.
pub proof fn lemma_wsum_take_succ(s: Seq<i64>, i: int)
    requires
        0 <= i < s.len(),
    ensures
        wsum(s.take(i + 1)) == wsum(s.take(i)) + s[i],
{
    assert(s.take(i + 1).drop_last() =~= s.take(i));
    assert(s.take(i + 1).last() == s[i]);
}

/// A sequence is the `len`-prefix of itself.
pub proof fn lemma_wsum_take_all(s: Seq<i64>)
    ensures
        wsum(s.take(s.len() as int)) == wsum(s),
{
    assert(s.take(s.len() as int) =~= s);
}

/// Pointwise domination, up to a uniform slack `c`, bounds the sums.
pub proof fn lemma_wsum_shift_ge(a: Seq<i64>, b: Seq<i64>, c: int)
    requires
        a.len() == b.len(),
        forall|i: int| 0 <= i < a.len() ==> a[i] >= b[i] - c,
    ensures
        wsum(a) >= wsum(b) - a.len() * c,
    decreases a.len(),
{
    if a.len() > 0 {
        let ad = a.drop_last();
        let bd = b.drop_last();
        assert(forall|i: int| 0 <= i < ad.len() ==> ad[i] == a[i] && bd[i] == b[i]);
        lemma_wsum_shift_ge(ad, bd, c);
        assert((a.len() - 1) * c + c == a.len() * c) by (nonlinear_arith);
    }
}

/// Elementwise range bounds give bounds on the sum.
pub proof fn lemma_wsum_bounds(s: Seq<i64>, lo: int, hi: int)
    requires
        forall|i: int| 0 <= i < s.len() ==> lo <= #[trigger] s[i] <= hi,
    ensures
        s.len() * lo <= wsum(s) <= s.len() * hi,
    decreases s.len(),
{
    if s.len() == 0 {
        assert(s.len() * lo == 0) by (nonlinear_arith)
            requires s.len() == 0;
        assert(s.len() * hi == 0) by (nonlinear_arith)
            requires s.len() == 0;
    } else {
        let sd = s.drop_last();
        assert(forall|i: int| 0 <= i < sd.len() ==> sd[i] == s[i]);
        lemma_wsum_bounds(sd, lo, hi);
        assert((s.len() - 1) * lo + lo == s.len() * lo) by (nonlinear_arith);
        assert((s.len() - 1) * hi + hi == s.len() * hi) by (nonlinear_arith);
    }
}

/// In a sequence of nonnegative values, each element is at most the sum.
pub proof fn lemma_elem_le_wsum(s: Seq<i64>, i: int)
    requires
        0 <= i < s.len(),
        forall|j: int| 0 <= j < s.len() ==> 0 <= s[j],
    ensures
        s[i] <= wsum(s),
    decreases s.len(),
{
    let sd = s.drop_last();
    assert(forall|j: int| 0 <= j < sd.len() ==> sd[j] == s[j]);
    if i < s.len() - 1 {
        lemma_elem_le_wsum(sd, i);
        lemma_wsum_bounds(sd, 0, i64::MAX as int);
        assert(sd.len() * 0 == 0) by (nonlinear_arith);
    } else {
        lemma_wsum_bounds(sd, 0, i64::MAX as int);
        assert(sd.len() * 0 == 0) by (nonlinear_arith);
    }
}

/// Sum of a sequence scaled elementwise by `k / d`, rounding each element
/// down.
pub open spec fn wsum_scaled(s: Seq<i64>, k: int, d: int) -> int
    decreases s.len(),
{
    if s.len() == 0 {
        0
    } else {
        wsum_scaled(s.drop_last(), k, d) + s.last() * k / d
    }
}

/// The sum of the rounded scalings tracks the scaled sum: each element
/// loses less than one unit of `d`.
pub proof fn lemma_wsum_scaled_bounds(s: Seq<i64>, k: int, d: int)
    requires
        1 <= d,
        0 <= k,
        forall|i: int| 0 <= i < s.len() ==> 0 <= s[i],
    ensures
        wsum_scaled(s, k, d) * d <= wsum(s) * k,
        wsum(s) * k <= (wsum_scaled(s, k, d) + s.len()) * d,
        s.len() > 0 ==> wsum(s) * k < (wsum_scaled(s, k, d) + s.len()) * d,
        0 <= wsum_scaled(s, k, d),
    decreases s.len(),
{
    if s.len() == 0 {
        assert(wsum(s) * k == 0) by (nonlinear_arith)
            requires wsum(s) == 0;
        assert((wsum_scaled(s, k, d) + s.len()) * d == 0) by (nonlinear_arith)
            requires wsum_scaled(s, k, d) == 0, s.len() == 0;
    } else {
        let sd = s.drop_last();
        assert(forall|i: int| 0 <= i < sd.len() ==> sd[i] == s[i]);
        lemma_wsum_scaled_bounds(sd, k, d);
        let x = s.last() as int;
        let q = x * k / d;
        assert(0 <= x * k) by (nonlinear_arith)
            requires 0 <= x, 0 <= k;
        vstd::arithmetic::div_mod::lemma_fundamental_div_mod(x * k, d);
        vstd::arithmetic::div_mod::lemma_mod_division_less_than_divisor(x * k, d);
        vstd::arithmetic::div_mod::lemma_div_pos_is_pos(x * k, d);
        assert(q * d <= x * k < (q + 1) * d) by (nonlinear_arith)
            requires
                x * k == d * q + (x * k) % d,
                0 <= (x * k) % d < d;
        assert(wsum_scaled(s, k, d) * d == wsum_scaled(sd, k, d) * d + q * d) by (nonlinear_arith)
            requires wsum_scaled(s, k, d) == wsum_scaled(sd, k, d) + q;
        assert(wsum(s) * k == wsum(sd) * k + x * k) by (nonlinear_arith)
            requires wsum(s) == wsum(sd) + x;
        assert((wsum_scaled(s, k, d) + s.len()) * d
            == (wsum_scaled(sd, k, d) + sd.len()) * d + (q + 1) * d) by (nonlinear_arith)
            requires
                wsum_scaled(s, k, d) == wsum_scaled(sd, k, d) + q,
                s.len() == sd.len() + 1;
    }
}

/// A sequence whose elements each equal the rounded scaling of another
/// sequence sums to the scaled sum.
pub proof fn lemma_wsum_scaled_pointwise(a: Seq<i64>, s: Seq<i64>, k: int, d: int)
    requires
        a.len() == s.len(),
        forall|i: int| 0 <= i < s.len() ==> a[i] == s[i] * k / d,
    ensures
        wsum(a) == wsum_scaled(s, k, d),
    decreases s.len(),
{
    if s.len() > 0 {
        let ad = a.drop_last();
        let sd = s.drop_last();
        assert(forall|i: int| 0 <= i < sd.len() ==> ad[i] == a[i] && sd[i] == s[i]);
        lemma_wsum_scaled_pointwise(ad, sd, k, d);
    }
}

} // verus!
