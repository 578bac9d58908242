//! Signed 16.16 fixed-point arithmetic.
//!
//! A value `x: i64` stands for the real number `x / FX_ONE`.  All pipeline
//! math (landmark reconstruction, filtering, ROI geometry) is carried out on
//! such values, with products accumulated in `i128` and divided once, so
//! every executable result is pinned to an exact integer formula.
//!
//! Division follows the convention of rounding toward zero, written in
//! specifications with [`div_t`].

use vstd::prelude::*;
use vstd::arithmetic::div_mod::{
    lemma_div_is_ordered, lemma_div_multiples_vanish, lemma_div_nonincreasing,
    lemma_div_pos_is_pos,
};

verus! {

/// The fixed-point unit: `FX_ONE` stands for the real number 1.0.
pub const FX_ONE: i64 = 65536;

/// `x` lies in the closed interval `[-m, m]`.
pub open spec fn bounded(x: int, m: int) -> bool {
    -m <= x <= m
}

/// Division rounding toward zero (the usual machine convention), defined
/// for positive divisors.  Euclidean `/` on `int` rounds toward negative
/// infinity; `div_t` agrees with it on non-negative dividends.
pub open spec fn div_t(a: int, d: int) -> int {
    if a >= 0 {
        a / d
    } else {
        -((-a) / d)
    }
}

/// Rounding toward zero never grows a bound: if `|a| <= m * d` then
/// `|div_t(a, d)| <= m`.
pub proof fn lemma_div_t_bound(a: int, d: int, m: int)
    requires
        1 <= d,
        0 <= m,
        bounded(a, m * d),
    ensures
        bounded(div_t(a, d), m),
{
    assert(m * d == d * m) by (nonlinear_arith);
    if a >= 0 {
        lemma_div_is_ordered(a, d * m, d);
        lemma_div_multiples_vanish(m, d);
        lemma_div_pos_is_pos(a, d);
    } else {
        lemma_div_is_ordered(-a, d * m, d);
        lemma_div_multiples_vanish(m, d);
        lemma_div_pos_is_pos(-a, d);
    }
}

/// Dividing a non-negative number by a positive one never increases it.
pub proof fn lemma_div_t_shrinks(a: int, d: int)
    requires
        1 <= d,
        0 <= a,
    ensures
        0 <= div_t(a, d) <= a,
{
    lemma_div_pos_is_pos(a, d);
    lemma_div_nonincreasing(a, d);
}

/// Truncating division of an `i128` by a positive divisor, with the exact
/// quotient in the contract.
pub fn div_trunc(a: i128, d: i128) -> (r: i128)
    requires
        1 <= d,
        a != i128::MIN,
    ensures
        r == div_t(a as int, d as int),
        bounded(r as int, if a >= 0 { a as int } else { -(a as int) }),
{
    if a >= 0 {
        let q: u128 = (a as u128) / (d as u128);
        proof {
            lemma_div_t_shrinks(a as int, d as int);
        }
        q as i128
    } else {
        let n: i128 = -a;
        let q: u128 = (n as u128) / (d as u128);
        proof {
            lemma_div_t_shrinks(n as int, d as int);
        }
        -(q as i128)
    }
}

/// Fixed-point product: the real product of the two operands, rounded
/// toward zero back onto the 16.16 grid.
pub fn fx_mul(a: i64, b: i64) -> (r: i64)
    requires
        bounded(a * b, 0x4000_0000_0000_0000_0000),
    ensures
        r == div_t(a * b, FX_ONE as int),
        bounded(r as int, 0x4000_0000_0000_0000),
{
    let p: i128 = (a as i128) * (b as i128);
    proof {
        lemma_div_t_bound(p as int, FX_ONE as int, 0x4000_0000_0000_0000);
    }
    let q: i128 = div_trunc(p, FX_ONE as i128);
    q as i64
}

/// Absolute value, defined for everything but `i64::MIN`.
pub fn abs_i64(a: i64) -> (r: i64)
    requires
        a != i64::MIN,
    ensures
        r == (if a >= 0 { a as int } else { -(a as int) }),
        r >= 0,
{
    if a >= 0 {
        a
    } else {
        -a
    }
}

/// Mathematical dot product of two equal-length sequences of fixed-point
/// values (the result carries scale `FX_ONE * FX_ONE` until divided).
pub open spec fn dot(u: Seq<i64>, v: Seq<i64>) -> int
    decreases u.len(),
{
    if u.len() == 0 || v.len() == 0 {
        0
    } else {
        dot(u.drop_last(), v.drop_last()) + u.last() * v.last()
    }
}

/// A dot product of `n` terms, each factor bounded, is bounded by
/// `n * mu * mv`.
pub proof fn lemma_dot_bound(u: Seq<i64>, v: Seq<i64>, mu: int, mv: int)
    requires
        u.len() == v.len(),
        0 <= mu,
        0 <= mv,
        forall|i: int| 0 <= i < u.len() ==> bounded(#[trigger] u[i] as int, mu),
        forall|i: int| 0 <= i < v.len() ==> bounded(#[trigger] v[i] as int, mv),
    ensures
        bounded(dot(u, v), u.len() * mu * mv),
    decreases u.len(),
{
    if u.len() == 0 {
    } else {
        let n = u.len() as int;
        lemma_dot_bound(u.drop_last(), v.drop_last(), mu, mv);
        assert(bounded(u.last() * v.last(), mu * mv)) by (nonlinear_arith)
            requires
                bounded(u.last() as int, mu),
                bounded(v.last() as int, mv),
                0 <= mu,
                0 <= mv,
        ;
        assert((n - 1) * mu * mv + mu * mv == n * mu * mv) by (nonlinear_arith);
    }
}

/// Exact executable dot product; the factor bounds `mu`, `mv` keep the
/// `i128` accumulator in range.
pub fn dot_prod(u: &Vec<i64>, v: &Vec<i64>, mu: i64, mv: i64) -> (r: i128)
    requires
        u@.len() == v@.len(),
        u@.len() <= 0x10000,
        0 <= mu <= 0x1_0000_0000_0000,
        0 <= mv <= 0x1_0000_0000_0000,
        forall|i: int| 0 <= i < u@.len() ==> bounded(#[trigger] u@[i] as int, mu as int),
        forall|i: int| 0 <= i < v@.len() ==> bounded(#[trigger] v@[i] as int, mv as int),
    ensures
        r == dot(u@, v@),
        bounded(r as int, u@.len() * mu * mv),
{
    let n = u.len();
    let mut acc: i128 = 0;
    let mut i: usize = 0;
    proof {
        assert(u@.take(0) =~= Seq::<i64>::empty());
        assert(v@.take(0) =~= Seq::<i64>::empty());
    }
    while i < n
        invariant
            n == u@.len(),
            n == v@.len(),
            n <= 0x10000,
            0 <= i <= n,
            0 <= mu <= 0x1_0000_0000_0000,
            0 <= mv <= 0x1_0000_0000_0000,
            forall|k: int| 0 <= k < u@.len() ==> bounded(#[trigger] u@[k] as int, mu as int),
            forall|k: int| 0 <= k < v@.len() ==> bounded(#[trigger] v@[k] as int, mv as int),
            acc == dot(u@.take(i as int), v@.take(i as int)),
            bounded(acc as int, (i as int) * (mu as int) * (mv as int)),
        decreases n - i,
    {
        let a: i64 = u[i];
        let b: i64 = v[i];
        proof {
            let iv = i as int;
            assert(bounded(a as int * (b as int), (mu as int) * (mv as int)))
                by (nonlinear_arith)
                requires
                    bounded(a as int, mu as int),
                    bounded(b as int, mv as int),
                    0 <= mu,
                    0 <= mv,
            ;
            assert((iv + 1) * (mu as int) * (mv as int)
                == iv * (mu as int) * (mv as int) + (mu as int) * (mv as int))
                by (nonlinear_arith);
            assert((iv + 1) * (mu as int) * (mv as int)
                <= 0x10000 * 0x1_0000_0000_0000 * 0x1_0000_0000_0000)
                by (nonlinear_arith)
                requires
                    0 <= iv + 1 <= 0x10000,
                    0 <= mu <= 0x1_0000_0000_0000,
                    0 <= mv <= 0x1_0000_0000_0000,
            ;
            assert(u@.take(iv + 1).drop_last() =~= u@.take(iv));
            assert(v@.take(iv + 1).drop_last() =~= v@.take(iv));
        }
        let p: i128 = (a as i128) * (b as i128);
        acc = acc + p;
        i = i + 1;
    }
    proof {
        assert(u@.take(n as int) =~= u@);
        assert(v@.take(n as int) =~= v@);
    }
    acc
}

} // verus!
