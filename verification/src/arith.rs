//! Two's-complement wrap-around arithmetic on unbounded integers, and finite
//! summations, as the mathematical vocabulary of the matrix contracts.
//!
//! Every element of a matrix is an `i64`; additions, subtractions and
//! multiplications of elements wrap. `wrap` maps an unbounded integer to the
//! unique representative of its residue class that fits in an `i64`, and
//! `wrap_eq` is congruence modulo `2^64`. `csum` is the sum of the first `k`
//! values of an integer function; dot products and the block sums of
//! Strassen's algorithm are all stated through it.

use vstd::prelude::*;
use vstd::arithmetic::div_mod::{
    lemma_add_mod_noop, lemma_fundamental_div_mod_converse_mod, lemma_mod_bound,
    lemma_mul_mod_noop_general, lemma_sub_mod_noop,
};

verus! {

/// The number of distinct `i64` values; wrap-around arithmetic is congruence
/// modulo this constant.
pub open spec fn wrap_modulus() -> int {
    0x1_0000_0000_0000_0000
}

/// The unique integer in `[i64::MIN, i64::MAX]` congruent to `x` modulo
/// `wrap_modulus()`: the value an `i64` holds after `x` wraps around.
pub open spec fn wrap(x: int) -> int {
    if x % wrap_modulus() > i64::MAX as int {
        x % wrap_modulus() - wrap_modulus()
    } else {
        x % wrap_modulus()
    }
}

/// `x` and `y` are congruent modulo `wrap_modulus()`.
pub open spec fn wrap_eq(x: int, y: int) -> bool {
    x % wrap_modulus() == y % wrap_modulus()
}

/// `wrap` lands in the `i64` range and does not leave the residue class.
pub proof fn lemma_wrap_range(x: int)
    ensures
        i64::MIN <= wrap(x) <= i64::MAX,
        wrap_eq(wrap(x), x),
{
    let m = wrap_modulus();
    lemma_mod_bound(x, m);
    if x % m > i64::MAX as int {
        lemma_fundamental_div_mod_converse_mod(x % m - m, m, -1, x % m);
    } else {
        lemma_fundamental_div_mod_converse_mod(x % m, m, 0, x % m);
    }
}

/// On values that already fit in an `i64`, `wrap` is the identity.
pub proof fn lemma_wrap_id(x: int)
    requires
        i64::MIN <= x <= i64::MAX,
    ensures
        wrap(x) == x,
{
    let m = wrap_modulus();
    if x >= 0 {
        lemma_fundamental_div_mod_converse_mod(x, m, 0, x);
    } else {
        lemma_fundamental_div_mod_converse_mod(x, m, -1, x + m);
    }
}

/// Congruent values wrap to the same representative.
pub proof fn lemma_wrap_eq_wrap(x: int, y: int)
    requires
        wrap_eq(x, y),
    ensures
        wrap(x) == wrap(y),
{
}

/// Congruence is preserved by addition.
pub proof fn lemma_wrap_eq_add(x1: int, y1: int, x2: int, y2: int)
    requires
        wrap_eq(x1, y1),
        wrap_eq(x2, y2),
    ensures
        wrap_eq(x1 + x2, y1 + y2),
{
    let m = wrap_modulus();
    lemma_add_mod_noop(x1, x2, m);
    lemma_add_mod_noop(y1, y2, m);
}

/// Congruence is preserved by subtraction.
pub proof fn lemma_wrap_eq_sub(x1: int, y1: int, x2: int, y2: int)
    requires
        wrap_eq(x1, y1),
        wrap_eq(x2, y2),
    ensures
        wrap_eq(x1 - x2, y1 - y2),
{
    let m = wrap_modulus();
    lemma_sub_mod_noop(x1, x2, m);
    lemma_sub_mod_noop(y1, y2, m);
}

/// Congruence is preserved by multiplication.
pub proof fn lemma_wrap_eq_mul(x1: int, y1: int, x2: int, y2: int)
    requires
        wrap_eq(x1, y1),
        wrap_eq(x2, y2),
    ensures
        wrap_eq(x1 * x2, y1 * y2),
{
    let m = wrap_modulus();
    lemma_mul_mod_noop_general(x1, x2, m);
    lemma_mul_mod_noop_general(y1, y2, m);
}

/// Wrapping addition of two `i64` values, with its result pinned to the
/// wrap-around of the exact sum.
pub fn wadd(x: i64, y: i64) -> (r: i64)
    ensures
        r as int == wrap(x as int + y as int),
{
    proof {
        let m = wrap_modulus();
        let s = x as int + y as int;
        if s > i64::MAX as int {
            lemma_fundamental_div_mod_converse_mod(s, m, 0, s);
        } else if s < i64::MIN as int {
            lemma_fundamental_div_mod_converse_mod(s, m, -1, s + m);
        } else {
            lemma_wrap_id(s);
        }
    }
    x.wrapping_add(y)
}

/// Wrapping subtraction of two `i64` values.
pub fn wsub(x: i64, y: i64) -> (r: i64)
    ensures
        r as int == wrap(x as int - y as int),
{
    proof {
        let m = wrap_modulus();
        let s = x as int - y as int;
        if s > i64::MAX as int {
            lemma_fundamental_div_mod_converse_mod(s, m, 0, s);
        } else if s < i64::MIN as int {
            lemma_fundamental_div_mod_converse_mod(s, m, -1, s + m);
        } else {
            lemma_wrap_id(s);
        }
    }
    x.wrapping_sub(y)
}

/// Wrapping multiplication of two `i64` values.
pub fn wmul(x: i64, y: i64) -> (r: i64)
    ensures
        r as int == wrap(x as int * y as int),
{
    proof {
        let m = wrap_modulus();
        lemma_mod_bound(x as int * y as int, m);
    }
    x.wrapping_mul(y)
}

/// The sum `f(0) + f(1) + ... + f(k - 1)`; zero when `k <= 0`.
pub open spec fn csum(k: int, f: spec_fn(int) -> int) -> int
    decreases k,
{
    if k <= 0 {
        0
    } else {
        csum(k - 1, f) + f(k - 1)
    }
}

/// Pointwise equal functions have equal sums.
pub proof fn lemma_csum_pointwise(k: int, f: spec_fn(int) -> int, g: spec_fn(int) -> int)
    requires
        forall|t: int| 0 <= t < k ==> #[trigger] f(t) == g(t),
    ensures
        csum(k, f) == csum(k, g),
    decreases k,
{
    if k > 0 {
        lemma_csum_pointwise(k - 1, f, g);
    }
}

/// Pointwise congruent functions have congruent sums.
pub proof fn lemma_csum_wrap_eq(k: int, f: spec_fn(int) -> int, g: spec_fn(int) -> int)
    requires
        forall|t: int| 0 <= t < k ==> wrap_eq(#[trigger] f(t), #[trigger] g(t)),
    ensures
        wrap_eq(csum(k, f), csum(k, g)),
    decreases k,
{
    if k <= 0 {
    } else {
        lemma_csum_wrap_eq(k - 1, f, g);
        lemma_wrap_eq_add(csum(k - 1, f), csum(k - 1, g), f(k - 1), g(k - 1));
    }
}

/// A sum of pointwise zeros is zero.
pub proof fn lemma_csum_zero(k: int, f: spec_fn(int) -> int)
    requires
        forall|t: int| 0 <= t < k ==> #[trigger] f(t) == 0,
    ensures
        csum(k, f) == 0,
    decreases k,
{
    if k > 0 {
        lemma_csum_zero(k - 1, f);
    }
}

/// Summation distributes over a pointwise sum of two functions.
pub proof fn lemma_csum_combine2(
    k: int,
    f1: spec_fn(int) -> int,
    f2: spec_fn(int) -> int,
    h: spec_fn(int) -> int,
)
    requires
        forall|t: int| 0 <= t < k ==> #[trigger] h(t) == f1(t) + f2(t),
    ensures
        csum(k, h) == csum(k, f1) + csum(k, f2),
    decreases k,
{
    if k > 0 {
        lemma_csum_combine2(k - 1, f1, f2, h);
    }
}

/// Summation distributes over the four-term combination `f1 + f2 - f3 + f4`,
/// the shape of Strassen's recombination formulas.
pub proof fn lemma_csum_combine4(
    k: int,
    f1: spec_fn(int) -> int,
    f2: spec_fn(int) -> int,
    f3: spec_fn(int) -> int,
    f4: spec_fn(int) -> int,
    h: spec_fn(int) -> int,
)
    requires
        forall|t: int| 0 <= t < k ==> #[trigger] h(t) == f1(t) + f2(t) - f3(t) + f4(t),
    ensures
        csum(k, h) == csum(k, f1) + csum(k, f2) - csum(k, f3) + csum(k, f4),
    decreases k,
{
    if k > 0 {
        lemma_csum_combine4(k - 1, f1, f2, f3, f4, h);
    }
}

/// A sum over `[0, n)` splits at `m` into a sum over `[0, m)` and a shifted
/// sum over `[0, n - m)`.
pub proof fn lemma_csum_split(n: int, m: int, f: spec_fn(int) -> int, g: spec_fn(int) -> int)
    requires
        0 <= m <= n,
        forall|t: int| 0 <= t < n - m ==> #[trigger] g(t) == f(m + t),
    ensures
        csum(n, f) == csum(m, f) + csum(n - m, g),
    decreases n,
{
    if n > m {
        lemma_csum_split(n - 1, m, f, g);
        assert(g(n - 1 - m) == f(n - 1));
    }
}

} // verus!
