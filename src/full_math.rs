use vstd::prelude::*;
use crate::error::ErrorCode;

verus! {

/// Denominator of the Q64.64 fixed-point growth values.
pub const Q64: u128 = 0x1_0000_0000_0000_0000;

/// 2^128 as an integer.
pub open spec fn two_128() -> int {
    0x1_0000_0000_0000_0000_0000_0000_0000_0000int
}

/// `floor(a * b / denominator)`, with the full 256-bit product: fails only
/// when the quotient itself does not fit in 128 bits.
pub open spec fn mul_div_floor_spec(a: u128, b: u128, denominator: u128) -> Result<u128, ErrorCode> {
    if denominator == 0 {
        Err(ErrorCode::DivideByZero)
    } else if (a * b) / (denominator as int) > u128::MAX {
        Err(ErrorCode::ArithmeticOverflow)
    } else {
        Ok(((a * b) / (denominator as int)) as u128)
    }
}

proof fn lemma_expand(q: int, ah: int, al: int, bh: int, bl: int)
    ensures
        (q * ah + al) * (q * bh + bl) == q * q * (ah * bh) + q * (al * bh + ah * bl) + al * bl,
{
    let (x, y) = (q * ah, q * bh);
    vstd::arithmetic::mul::lemma_mul_is_distributive_add(x + al, y, bl);
    vstd::arithmetic::mul::lemma_mul_is_distributive_add_other_way(y, x, al);
    vstd::arithmetic::mul::lemma_mul_is_distributive_add_other_way(bl, x, al);
    assert(x * y == q * q * (ah * bh)) by (nonlinear_arith)
        requires x == q * ah, y == q * bh;
    assert(al * y == q * (al * bh)) by (nonlinear_arith)
        requires y == q * bh;
    assert(x * bl == q * (ah * bl)) by (nonlinear_arith)
        requires x == q * ah;
    vstd::arithmetic::mul::lemma_mul_is_distributive_add(q, al * bh, ah * bl);
}

/// The 256-bit product of two 128-bit values, as high and low halves.
pub(crate) fn mul_wide(a: u128, b: u128) -> (r: (u128, u128))
    ensures
        r.0 * two_128() + r.1 == a * b,
{
    let q = Q64;
    let ghost qi = q as int;
    let a_hi = a / q;
    let a_lo = a % q;
    let b_hi = b / q;
    let b_lo = b % q;
    proof {
        let (ah, al, bh, bl) = (a_hi as int, a_lo as int, b_hi as int, b_lo as int);
        vstd::arithmetic::div_mod::lemma_fundamental_div_mod(a as int, qi);
        vstd::arithmetic::div_mod::lemma_fundamental_div_mod(b as int, qi);
        vstd::arithmetic::div_mod::lemma_mod_pos_bound(a as int, qi);
        vstd::arithmetic::div_mod::lemma_mod_pos_bound(b as int, qi);
        assert(ah < qi && bh < qi);
        assert(ah * bh < qi * qi && ah * bl < qi * qi && al * bh < qi * qi && al * bl < qi * qi) by (nonlinear_arith)
            requires 0 <= ah < qi, 0 <= bh < qi, 0 <= al < qi, 0 <= bl < qi;
    }
    let ll = a_lo * b_lo;
    let lh = a_lo * b_hi;
    let hl = a_hi * b_lo;
    let hh = a_hi * b_hi;
    let mid = lh % q + hl % q + ll / q;
    let lo = (mid % q) * q + ll % q;
    proof {
        let (ah, al, bh, bl) = (a_hi as int, a_lo as int, b_hi as int, b_lo as int);
        let (lli, lhi, hli, hhi, m) = (ll as int, lh as int, hl as int, hh as int, mid as int);
        vstd::arithmetic::div_mod::lemma_fundamental_div_mod(lli, qi);
        vstd::arithmetic::div_mod::lemma_fundamental_div_mod(lhi, qi);
        vstd::arithmetic::div_mod::lemma_fundamental_div_mod(hli, qi);
        vstd::arithmetic::div_mod::lemma_fundamental_div_mod(m, qi);
        vstd::arithmetic::div_mod::lemma_mod_pos_bound(lli, qi);
        vstd::arithmetic::div_mod::lemma_mod_pos_bound(m, qi);
        assert(two_128() == qi * qi);
        lemma_expand(qi, ah, al, bh, bl);
        assert(a * b == qi * qi * hhi + qi * (lhi + hli) + lli);
        let h = hhi + lhi / qi + hli / qi + m / qi;
        assert(qi * qi * hhi + qi * (lhi + hli) + lli == qi * qi * h + lo) by (nonlinear_arith)
            requires
                lhi == qi * (lhi / qi) + lhi % qi,
                hli == qi * (hli / qi) + hli % qi,
                lli == qi * (lli / qi) + lli % qi,
                m == qi * (m / qi) + m % qi,
                m == lhi % qi + hli % qi + lli / qi,
                lo == (m % qi) * qi + lli % qi,
                h == hhi + lhi / qi + hli / qi + m / qi;
        assert((a as int) * (b as int) < qi * qi * qi * qi) by (nonlinear_arith)
            requires 0 <= a < qi * qi, 0 <= b < qi * qi;
        assert(h < qi * qi) by (nonlinear_arith)
            requires qi * qi * h + lo < qi * qi * qi * qi, lo >= 0, qi > 0;
        assert(lhi / qi >= 0 && hli / qi >= 0 && m / qi >= 0);
    }
    let hi = hh + lh / q + hl / q + mid / q;
    (hi, lo)
}

proof fn lemma_double_shift(j: u32)
    requires
        j < 128,
    ensures
        j >= 1 ==> (1u128 << j) == 2 * (1u128 << ((j - 1) as u32)),
        j == 0 ==> (1u128 << j) == 1,
        (1u128 << j) >= 1,
        j == 127 ==> (1u128 << j) == 0x8000_0000_0000_0000_0000_0000_0000_0000u128,
{
    assert(j == 127 ==> (1u128 << j) == 0x8000_0000_0000_0000_0000_0000_0000_0000u128) by (bit_vector);
    assert(j >= 1 ==> (1u128 << j) == 2 * (1u128 << ((j - 1) as u32))) by (bit_vector)
        requires j < 128;
    assert(j == 0 ==> (1u128 << j) == 1) by (bit_vector);
    assert((1u128 << j) >= 1) by (bit_vector)
        requires j < 128;
}

/// Divides the 256-bit value `hi * 2^128 + lo` by `d`, one bit of `lo` at a
/// time; `hi < d` keeps the quotient within 128 bits.
pub(crate) fn div_wide(hi: u128, lo: u128, d: u128) -> (r: (u128, u128))
    requires
        hi < d,
    ensures
        hi * two_128() + lo == r.0 * d + r.1,
        r.1 < d,
{
    let mut q: u128 = 0;
    let mut rem: u128 = hi;
    let mut rest: u128 = lo;
    let mut k: u32 = 128;
    let ghost mut pre: int = 0;
    let ghost mut pw: int = two_128();
    let ghost mut sc: int = 1;
    proof {
        lemma_double_shift(127);
    }
    while k > 0
        invariant
            k <= 128,
            rem < d,
            pw * sc == two_128(),
            pw >= 1,
            sc >= 1,
            k >= 1 ==> pw == 2 * (1u128 << ((k - 1) as u32)),
            k == 0 ==> pw == 1,
            lo == pre * pw + rest,
            0 <= rest < pw,
            pre >= 0,
            hi * sc + pre == q * d + rem,
            q < sc,
            k >= 1 ==> sc <= 0x8000_0000_0000_0000_0000_0000_0000_0000int,
        decreases k,
    {
        let j = k - 1;
        proof {
            lemma_double_shift(j);
            if j >= 1 {
                lemma_double_shift((j - 1) as u32);
            }
        }
        let p = 1u128 << j;
        let ghost (q0, r0) = (q as int, rem as int);
        let bit: u128 = if rest >= p { 1 } else { 0 };
        rest = rest - bit * p;
        let gap = d - rem - bit;
        if rem >= gap {
            rem = rem - gap;
            q = 2 * q + 1;
        } else {
            rem = 2 * rem + bit;
            q = 2 * q;
        }
        proof {
            let old_pre = pre;
            let old_sc = sc;
            pre = 2 * old_pre + bit;
            pw = p as int;
            sc = 2 * old_sc;
            assert(lo == pre * pw + rest) by (nonlinear_arith)
                requires lo == old_pre * (2 * p) + rest + bit * p, pre == 2 * old_pre + bit, pw == p;
            assert(pw * sc == two_128()) by (nonlinear_arith)
                requires (2 * pw) * old_sc == two_128(), sc == 2 * old_sc;
            let qb: int = (q - 2 * q0) as int;
            assert(qb == 0 || qb == 1);
            assert(rem + qb * d == 2 * r0 + bit);
            assert(hi * sc + pre == q * d + rem) by (nonlinear_arith)
                requires
                    hi * old_sc + old_pre == q0 * d + r0,
                    sc == 2 * old_sc,
                    pre == 2 * old_pre + bit,
                    q == 2 * q0 + qb,
                    rem + qb * d == 2 * r0 + bit;
            assert(q < sc);
            if j >= 1 {
                assert(sc <= 0x8000_0000_0000_0000_0000_0000_0000_0000int) by (nonlinear_arith)
                    requires pw * sc == two_128(), pw >= 2;
            }
        }
        k = j;
    }
    (q, rem)
}

/// Multiplies, then divides rounding down. Never rounds up: the result times
/// the denominator is at most the exact product.
pub fn mul_div_floor(a: u128, b: u128, denominator: u128) -> (r: Result<u128, ErrorCode>)
    ensures
        r == mul_div_floor_spec(a, b, denominator),
        r matches Ok(q) ==> q * denominator <= a * b < (q + 1) * denominator,
{
    if denominator == 0 {
        return Err(ErrorCode::DivideByZero);
    }
    let (hi, lo) = mul_wide(a, b);
    let ghost n = a * b;
    let ghost d = denominator as int;
    proof {
        vstd::arithmetic::div_mod::lemma_fundamental_div_mod(n, d);
        vstd::arithmetic::div_mod::lemma_mod_pos_bound(n, d);
    }
    if hi >= denominator {
        proof {
            assert(n >= d * two_128()) by (nonlinear_arith)
                requires n == hi * two_128() + lo, hi >= d, lo >= 0, two_128() > 0;
            assert(n / d >= two_128()) by (nonlinear_arith)
                requires n == d * (n / d) + n % d, n % d < d, n >= d * two_128(), d > 0;
        }
        return Err(ErrorCode::ArithmeticOverflow);
    }
    let (q, rem) = div_wide(hi, lo, denominator);
    proof {
        vstd::arithmetic::div_mod::lemma_fundamental_div_mod_converse(n, d, q as int, rem as int);
        assert(q * d <= n < (q + 1) * d) by (nonlinear_arith)
            requires n == q * d + rem, 0 <= rem < d;
    }
    Ok(q)
}

/// `floor(a * b / 2^64)` with the full 256-bit product: fails only when the
/// quotient itself does not fit in 128 bits.
pub open spec fn mul_q64_floor_spec(a: u128, b: u128) -> Result<u128, ErrorCode> {
    if (a * b) / (Q64 as int) > u128::MAX {
        Err(ErrorCode::ArithmeticOverflow)
    } else {
        Ok(((a * b) / (Q64 as int)) as u128)
    }
}

/// Multiplies two Q64.64 values, or a Q64.64 value and an integer, and
/// drops the 64 fractional bits, rounding down. Works on 64-bit limbs so
/// that no intermediate product overflows.
pub fn mul_q64_floor(a: u128, b: u128) -> (r: Result<u128, ErrorCode>)
    ensures
        r == mul_q64_floor_spec(a, b),
{
    let q = Q64;
    let a_hi = a / q;
    let a_lo = a % q;
    let b_hi = b / q;
    let b_lo = b % q;
    proof {
        let (al, bl, qq) = (a_lo as int, b_lo as int, q as int);
        vstd::arithmetic::div_mod::lemma_mod_pos_bound(a as int, qq);
        vstd::arithmetic::div_mod::lemma_mod_pos_bound(b as int, qq);
        assert(al * bl < qq * qq) by (nonlinear_arith)
            requires 0 <= al < qq, 0 <= bl < qq;
    }
    let low = a_lo * b_lo;
    let ghost qi = q as int;
    proof {
        let (ai, bi, ah, al, bh, bl, lo) = (a as int, b as int, a_hi as int, a_lo as int, b_hi as int, b_lo as int,
            low as int);
        vstd::arithmetic::div_mod::lemma_fundamental_div_mod(ai, qi);
        vstd::arithmetic::div_mod::lemma_fundamental_div_mod(bi, qi);
        vstd::arithmetic::div_mod::lemma_fundamental_div_mod(lo, qi);
        vstd::arithmetic::div_mod::lemma_mod_pos_bound(lo, qi);
        assert(ah < qi && bh < qi);
        assert(ah * bh < qi * qi && ah * bl < qi * qi && al * bh < qi * qi) by (nonlinear_arith)
            requires ah < qi, bh < qi, al < qi, bl < qi, ah >= 0, bh >= 0, al >= 0, bl >= 0;
        let x = ah * bh * qi + ah * bl + al * bh;
        lemma_expand(qi, ah, al, bh, bl);
        assert(qi * (ah * bh * qi + ah * bl + al * bh) == qi * qi * (ah * bh) + qi * (al * bh + ah * bl)) by (nonlinear_arith);
        assert(qi * (x + lo / qi) == qi * x + qi * (lo / qi)) by (nonlinear_arith);
        assert(ai * bi == qi * x + lo);
        assert(ai * bi == qi * (x + lo / qi) + lo % qi);
        vstd::arithmetic::div_mod::lemma_fundamental_div_mod_converse(ai * bi, qi, x + lo / qi, lo % qi);
        assert(ah * bl >= 0 && al * bh >= 0 && ah * bh >= 0) by (nonlinear_arith)
            requires ah >= 0, bh >= 0, al >= 0, bl >= 0;
        assert((a * b) / qi == x + lo / qi);
    }
    let hi_hi = a_hi * b_hi;
    if hi_hi >= q {
        proof {
            let h = hi_hi as int;
            assert(h * qi >= qi * qi) by (nonlinear_arith) requires h >= qi, qi > 0;
        }
        return Err(ErrorCode::ArithmeticOverflow);
    }
    let top = hi_hi * q;
    let cross_1 = a_hi * b_lo;
    let cross_2 = a_lo * b_hi;
    let sum = match top.checked_add(cross_1) {
        Some(v) => v,
        None => return Err(ErrorCode::ArithmeticOverflow),
    };
    let sum = match sum.checked_add(cross_2) {
        Some(v) => v,
        None => return Err(ErrorCode::ArithmeticOverflow),
    };
    match sum.checked_add(low / q) {
        Some(v) => Ok(v),
        None => Err(ErrorCode::ArithmeticOverflow),
    }
}

/// The least integer at or above `x / d`.
pub open spec fn ceil_div(x: int, d: int) -> int {
    if x % d == 0 {
        x / d
    } else {
        x / d + 1
    }
}

/// `ceil(a * b / denominator)`, with the same failures as the floor form.
pub open spec fn mul_div_ceil_spec(a: u128, b: u128, denominator: u128) -> Result<u128, ErrorCode> {
    if denominator == 0 {
        Err(ErrorCode::DivideByZero)
    } else if ceil_div(a * b, denominator as int) > u128::MAX {
        Err(ErrorCode::ArithmeticOverflow)
    } else {
        Ok(ceil_div(a * b, denominator as int) as u128)
    }
}

/// Rounding up stays within any whole multiple bound: `x <= k * d` gives
/// `ceil_div(x, d) <= k`.
pub proof fn lemma_ceil_div_le(x: int, d: int, k: int)
    requires
        x >= 0,
        d > 0,
        x <= k * d,
    ensures
        ceil_div(x, d) <= k,
        ceil_div(x, d) >= x / d,
{
    vstd::arithmetic::div_mod::lemma_fundamental_div_mod(x, d);
    vstd::arithmetic::div_mod::lemma_mod_pos_bound(x, d);
    let q = x / d;
    let r = x % d;
    assert(d * q == q * d) by (nonlinear_arith);
    if q >= k {
        assert(q * d >= k * d) by (nonlinear_arith)
            requires q >= k, d > 0;
        assert(r == 0);
        assert(q <= k) by (nonlinear_arith)
            requires q * d <= k * d, d > 0;
    }
}

/// Adding whole multiples of `d` adds whole steps to the rounded-up quotient.
pub proof fn lemma_ceil_div_shift(k: int, d: int, y: int)
    requires
        k >= 0,
        d > 0,
        y >= 0,
    ensures
        ceil_div(k * d + y, d) == k + ceil_div(y, d),
{
    vstd::arithmetic::div_mod::lemma_fundamental_div_mod(y, d);
    vstd::arithmetic::div_mod::lemma_mod_pos_bound(y, d);
    assert(k * d + y == d * (k + y / d) + y % d) by (nonlinear_arith)
        requires y == d * (y / d) + y % d;
    vstd::arithmetic::div_mod::lemma_fundamental_div_mod_converse(k * d + y, d, k + y / d, y % d);
}

/// Rounding up never exceeds the dividend when the divisor is at least one.
pub proof fn lemma_ceil_div_at_most(x: int, d: int)
    requires
        x >= 0,
        d >= 1,
    ensures
        0 <= ceil_div(x, d) <= x,
{
    vstd::arithmetic::div_mod::lemma_fundamental_div_mod(x, d);
    vstd::arithmetic::div_mod::lemma_mod_pos_bound(x, d);
    let q = x / d;
    assert(q >= 0);
    assert(d * q >= q) by (nonlinear_arith)
        requires d >= 1, q >= 0;
}

/// Multiplies, then divides rounding up.
pub fn mul_div_ceil(a: u128, b: u128, denominator: u128) -> (r: Result<u128, ErrorCode>)
    ensures
        r == mul_div_ceil_spec(a, b, denominator),
{
    if denominator == 0 {
        return Err(ErrorCode::DivideByZero);
    }
    let (hi, lo) = mul_wide(a, b);
    let ghost n = a * b;
    let ghost d = denominator as int;
    proof {
        vstd::arithmetic::div_mod::lemma_fundamental_div_mod(n, d);
        vstd::arithmetic::div_mod::lemma_mod_pos_bound(n, d);
    }
    if hi >= denominator {
        proof {
            assert(n >= d * two_128()) by (nonlinear_arith)
                requires n == hi * two_128() + lo, hi >= d, lo >= 0, two_128() > 0;
            assert(n / d >= two_128()) by (nonlinear_arith)
                requires n == d * (n / d) + n % d, n % d < d, n >= d * two_128(), d > 0;
        }
        return Err(ErrorCode::ArithmeticOverflow);
    }
    let (q, rem) = div_wide(hi, lo, denominator);
    proof {
        vstd::arithmetic::div_mod::lemma_fundamental_div_mod_converse(n, d, q as int, rem as int);
    }
    if rem == 0 {
        Ok(q)
    } else if q == u128::MAX {
        Err(ErrorCode::ArithmeticOverflow)
    } else {
        Ok(q + 1)
    }
}

} // verus!
