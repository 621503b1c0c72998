use vstd::prelude::*;

verus! {

/// Absolute value of a mathematical integer.
pub open spec fn abs_i(a: int) -> int {
    if a < 0 {
        -a
    } else {
        a
    }
}

/// The smaller of two mathematical integers.
pub open spec fn min_i(a: int, b: int) -> int {
    if a <= b {
        a
    } else {
        b
    }
}

/// Quotient rounded toward zero, the rounding rule of the executable
/// division below; the divisor is expected to be positive.
pub open spec fn tdiv(a: int, b: int) -> int
    recommends
        b > 0,
{
    if a >= 0 {
        a / b
    } else {
        -((-a) / b)
    }
}

/// Truncating division extended to a negative divisor, matching the
/// executable rounding of a signed quotient.
pub open spec fn sdiv(a: int, b: int) -> int
    recommends
        b != 0,
{
    if b > 0 {
        tdiv(a, b)
    } else {
        -tdiv(a, -b)
    }
}

/// Floor of the square root: the greatest r with r * r <= n (and 0 for n <= 0).
pub open spec fn isqrt_spec(n: int) -> int
    decreases n,
{
    if n <= 0 {
        0
    } else {
        let p = isqrt_spec(n - 1);
        if (p + 1) * (p + 1) <= n {
            p + 1
        } else {
            p
        }
    }
}

/// The floor square root is characterized by the two bracketing squares.
pub proof fn lemma_isqrt_spec(n: int)
    requires
        n >= 0,
    ensures
        0 <= isqrt_spec(n),
        isqrt_spec(n) * isqrt_spec(n) <= n,
        n < (isqrt_spec(n) + 1) * (isqrt_spec(n) + 1),
    decreases n,
{
    if n == 0 {
    } else {
        lemma_isqrt_spec(n - 1);
        let p = isqrt_spec(n - 1);
        if (p + 1) * (p + 1) <= n {
            assert(n < (p + 1 + 1) * (p + 1 + 1)) by (nonlinear_arith)
                requires
                    0 <= p,
                    n - 1 < (p + 1) * (p + 1),
                    (p + 1) * (p + 1) <= n,
            ;
        }
    }
}

/// Any r bracketed by the two squares is the floor square root.
pub proof fn lemma_isqrt_unique(n: int, r: int)
    requires
        n >= 0,
        0 <= r,
        r * r <= n,
        n < (r + 1) * (r + 1),
    ensures
        r == isqrt_spec(n),
{
    lemma_isqrt_spec(n);
    let s = isqrt_spec(n);
    if r < s {
        assert((r + 1) * (r + 1) <= s * s) by (nonlinear_arith)
            requires
                0 <= r,
                r + 1 <= s,
        ;
    }
    if s < r {
        assert((s + 1) * (s + 1) <= r * r) by (nonlinear_arith)
            requires
                0 <= s,
                s + 1 <= r,
        ;
    }
}

/// The floor square root is monotone.
pub proof fn lemma_isqrt_monotone(a: int, b: int)
    requires
        0 <= a <= b,
    ensures
        isqrt_spec(a) <= isqrt_spec(b),
{
    lemma_isqrt_spec(a);
    lemma_isqrt_spec(b);
    let sa = isqrt_spec(a);
    let sb = isqrt_spec(b);
    if sb < sa {
        assert((sb + 1) * (sb + 1) <= sa * sa) by (nonlinear_arith)
            requires
                0 <= sb,
                sb + 1 <= sa,
        ;
    }
}

/// Floor division respects cross-multiplied ordering: when x * n is at
/// most y * m, the quotient x / m is at most y / n.
pub proof fn lemma_div_cross_ordered(x: int, m: int, y: int, n: int)
    requires
        0 <= x,
        0 <= y,
        1 <= m,
        1 <= n,
        x * n <= y * m,
    ensures
        x / m <= y / n,
{
    let q = x / m;
    vstd::arithmetic::div_mod::lemma_fundamental_div_mod(x, m);
    vstd::arithmetic::div_mod::lemma_mod_bound(x, m);
    vstd::arithmetic::div_mod::lemma_div_pos_is_pos(x, m);
    assert(q * m <= x) by (nonlinear_arith)
        requires
            x == m * q + x % m,
            0 <= x % m,
    ;
    assert((q * n) * m <= y * m) by (nonlinear_arith)
        requires
            q * m <= x,
            x * n <= y * m,
            0 <= n,
    ;
    assert(q * n <= y) by (nonlinear_arith)
        requires
            (q * n) * m <= y * m,
            1 <= m,
    ;
    vstd::arithmetic::div_mod::lemma_fundamental_div_mod(y, n);
    vstd::arithmetic::div_mod::lemma_mod_bound(y, n);
    assert(q <= y / n) by (nonlinear_arith)
        requires
            q * n <= y,
            y == n * (y / n) + y % n,
            0 <= y % n < n,
    ;
}

/// A product is bounded by the product of the bounds of its factors.
pub proof fn lemma_abs_mul_bound(a: int, b: int, aa: int, bb: int)
    by (nonlinear_arith)
    requires
        -aa <= a <= aa,
        -bb <= b <= bb,
    ensures
        -(aa * bb) <= a * b <= aa * bb,
{
}

/// A component whose square is at most n lies within the floor square root of n.
pub proof fn lemma_sq_le_isqrt(c: int, n: int, r: int)
    by (nonlinear_arith)
    requires
        c * c <= n,
        0 <= r,
        n < (r + 1) * (r + 1),
    ensures
        -r <= c <= r,
{
}

/// The scaled quotient tdiv(p * s, n) squares to within one rounding
/// step of the exact ratio: its square times n^2 brackets p^2 * s^2,
/// and it stays within any bound qb whose product with n covers |p| * s.
pub proof fn lemma_tdiv_scale_squares(p: int, s: int, n: int, qb: int)
    requires
        1 <= n,
        0 <= s,
        0 <= qb,
        abs_i(p) * s <= qb * n,
    ensures
        -qb <= tdiv(p * s, n) <= qb,
        tdiv(p * s, n) * tdiv(p * s, n) * (n * n) <= p * p * (s * s),
        p * p * (s * s) < (tdiv(p * s, n) * tdiv(p * s, n) + 2 * qb + 1) * (n * n),
{
    let b = abs_i(p);
    let a = b * s;
    assert(0 <= a && a * a == (p * p) * (s * s)) by (nonlinear_arith)
        requires
            0 <= s,
            b == abs_i(p),
            a == b * s,
            (p < 0 ==> b == -p) && (p >= 0 ==> b == p),
    ;
    vstd::arithmetic::div_mod::lemma_fundamental_div_mod(a, n);
    vstd::arithmetic::div_mod::lemma_mod_bound(a, n);
    vstd::arithmetic::div_mod::lemma_div_pos_is_pos(a, n);
    let q0 = a / n;
    assert(n * q0 <= a < n * (q0 + 1)) by (nonlinear_arith)
        requires
            a == n * q0 + a % n,
            0 <= a % n < n,
    ;
    assert(qb * n == n * qb) by (nonlinear_arith);
    vstd::arithmetic::div_mod::lemma_div_is_ordered(a, n * qb, n);
    vstd::arithmetic::div_mod::lemma_div_multiples_vanish(qb, n);
    assert(q0 <= qb);
    let q = tdiv(p * s, n);
    if p >= 0 {
        assert(p * s == a) by (nonlinear_arith)
            requires
                p >= 0,
                b == p,
                a == b * s,
        ;
        assert(q == q0);
    } else {
        assert(p * s == -a) by (nonlinear_arith)
            requires
                p < 0,
                b == -p,
                a == b * s,
        ;
        if a == 0 {
            assert(q == 0 && q0 == 0);
        } else {
            assert(q == -q0);
        }
    }
    assert(q * q == q0 * q0) by (nonlinear_arith)
        requires
            q == q0 || q == -q0,
    ;
    assert(q0 * q0 * (n * n) <= a * a) by (nonlinear_arith)
        requires
            0 <= q0,
            1 <= n,
            n * q0 <= a,
    ;
    assert(a * a < (q0 * q0 + 2 * qb + 1) * (n * n)) by (nonlinear_arith)
        requires
            0 <= a,
            a < n * (q0 + 1),
            0 <= q0 <= qb,
            1 <= n,
    ;
}

/// Floor square root by binary search over an exclusive upper bound.
pub fn isqrt(n: i128) -> (r: i128)
    requires
        0 <= n < 1329227995784915872903807060280344576,
    ensures
        r == isqrt_spec(n as int),
        0 <= r,
        r * r <= n,
        n < (r + 1) * (r + 1),
{
    let mut lo: i128 = 0;
    let mut hi: i128 = 1152921504606846976;
    while lo + 1 < hi
        invariant
            0 <= lo < hi <= 1152921504606846976,
            lo * lo <= n,
            n < hi * hi,
        decreases hi - lo,
    {
        let mid = lo + (hi - lo) / 2;
        proof {
            lemma_abs_mul_bound(mid as int, mid as int, 1152921504606846976, 1152921504606846976);
        }
        if mid * mid <= n {
            lo = mid;
        } else {
            hi = mid;
        }
    }
    proof {
        assert(n < (lo + 1) * (lo + 1)) by (nonlinear_arith)
            requires
                n < hi * hi,
                hi <= lo + 1,
                0 <= lo < hi,
        ;
        lemma_isqrt_unique(n as int, lo as int);
    }
    lo
}

/// (c * s) / r rounded toward zero, for a non-negative scale s and a
/// positive divisor r that bounds |c|; the result is bounded by the scale.
pub fn mul_div_scale(c: i128, s: i128, r: i128) -> (q: i128)
    requires
        1 <= r,
        0 <= s,
        -r <= c <= r,
        r * s <= 170141183460469231731687303715884105727,
    ensures
        q == tdiv(c * s, r as int),
        -s <= q <= s,
{
    let t = if c < 0 {
        -c
    } else {
        c
    };
    proof {
        lemma_abs_mul_bound(t as int, s as int, r as int, s as int);
        assert(t * s <= r * s) by (nonlinear_arith)
            requires
                0 <= t <= r,
                0 <= s,
        ;
    }
    let p = t * s;
    proof {
        vstd::arithmetic::div_mod::lemma_div_pos_is_pos(p as int, r as int);
        vstd::arithmetic::div_mod::lemma_div_is_ordered(p as int, r * s, r as int);
        vstd::arithmetic::div_mod::lemma_div_multiples_vanish(s as int, r as int);
        assert(r * s == (r as int) * (s as int));
        assert((r as int) * (s as int) / (r as int) == s);
    }
    let q0 = p / r;
    proof {
        assert((-c) * s == -(c * s)) by (nonlinear_arith);
    }
    if c < 0 {
        -q0
    } else {
        q0
    }
}

} // verus!
