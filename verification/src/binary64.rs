//! Exact arithmetic on IEEE 754 binary64 numbers held as bits.
//!
//! Display servers speak of scales and refresh rates in floating point. Here
//! such numbers stay bits, and the few results that layouts need (a quotient
//! or a product rounded to a whole number) are computed with integers, to the
//! last digit that the floating-point operations would give: each operation
//! rounds to 53 significant bits, ties to even, and the final rounding to a
//! whole number goes half away from zero.

use vstd::arithmetic::div_mod::lemma_fundamental_div_mod;
use vstd::arithmetic::power2::{
    lemma_pow2_adds, lemma_pow2_pos, lemma_pow2_strictly_increases, lemma_pow2_unfold, pow2,
};
use vstd::prelude::*;

verus! {

/// Bits of positive infinity: above them lie the NaNs and the negative numbers.
pub const INFINITY: u64 = 0x7ff0_0000_0000_0000;

/// 2 to the 52nd.
pub const TWO_52: u64 = 0x10_0000_0000_0000;

/// Whether the bits are those of a finite number above zero.
pub open spec fn positive_finite(bits: u64) -> bool {
    0 < bits < INFINITY
}

/// A finite positive number is `significand * 2^exponent`.
pub open spec fn significand(bits: u64) -> nat {
    if bits / TWO_52 == 0 {
        (bits % TWO_52) as nat
    } else {
        (bits % TWO_52 + TWO_52) as nat
    }
}

/// A finite positive number is `significand * 2^exponent`.
pub open spec fn exponent(bits: u64) -> int {
    if bits / TWO_52 == 0 {
        -1074
    } else {
        bits / TWO_52 - 1075
    }
}

/// `a / b` rounded to the nearest whole number, ties to even.
pub open spec fn nearest_even(a: nat, b: nat) -> nat {
    let q = a / b;
    let r = a % b;
    if 2 * r < b || (2 * r == b && q % 2 == 0) {
        q
    } else {
        q + 1
    }
}

/// Shifting `a / b` left by `j` bits gives it exactly 53 bits before the point.
pub open spec fn shift_fits(a: nat, b: nat, j: nat) -> bool {
    pow2(52) * b <= a * pow2(j) < pow2(53) * b
}

/// The shift that gives `a / b` 53 bits before the point.
pub open spec fn shift_of(a: nat, b: nat) -> nat {
    choose|j: nat| shift_fits(a, b, j)
}

/// `a / b` rounded to 53 significant bits is `rounded(a, b) / 2^shift_of(a, b)`.
pub open spec fn rounded(a: nat, b: nat) -> nat {
    nearest_even(a * pow2(shift_of(a, b)), b)
}

/// `t * 2^k` rounded to a whole number, halves up.
pub open spec fn whole(t: nat, k: int) -> nat {
    if k >= 0 {
        t * pow2(k as nat)
    } else {
        (t + pow2((-k - 1) as nat)) / pow2((-k) as nat)
    }
}

/// The smaller of a number and a bound.
pub open spec fn at_most(n: nat, max: nat) -> nat {
    if n <= max {
        n
    } else {
        max
    }
}

proof fn shift_unique(a: nat, b: nat, i: nat, j: nat)
    requires
        shift_fits(a, b, i),
        shift_fits(a, b, j),
    ensures
        i == j,
{
    if i < j {
        shift_order(a, b, i, j);
    } else if j < i {
        shift_order(a, b, j, i);
    }
}

proof fn shift_order(a: nat, b: nat, i: nat, j: nat)
    requires
        i < j,
        shift_fits(a, b, i),
    ensures
        !shift_fits(a, b, j),
{
    lemma_pow2_unfold(53);
    lemma_pow2_unfold((i + 1) as nat);
    if i + 1 < j {
        lemma_pow2_strictly_increases((i + 1) as nat, j);
    }
    let p = pow2(i);
    let q = pow2(j);
    assert(q >= 2 * p);
    assert(a * q >= 2 * (a * p)) by (nonlinear_arith)
        requires
            q >= 2 * p,
            a >= 0,
    ;
    let c = pow2(52);
    assert((2 * c) * b == 2 * (c * b)) by (nonlinear_arith);
}

/// A shift that fits is the one.
pub proof fn shift_is(a: nat, b: nat, j: nat)
    requires
        shift_fits(a, b, j),
    ensures
        shift_of(a, b) == j,
{
    let k = shift_of(a, b);
    assert(shift_fits(a, b, k));
    shift_unique(a, b, j, k);
}

/// A quotient rounded to 53 significant bits: `t / 2^j`.
pub struct Rounded {
    pub t: u64,
    pub j: u64,
}

/// Divide, rounding to 53 significant bits.
pub fn divide(a: u64, b: u64) -> (r: Rounded)
    requires
        0 < a,
        0 < b < 0x4000_0000_0000_0000,
        a < 0x20_0000_0000_0000 * b,
    ensures
        shift_fits(a as nat, b as nat, r.j as nat),
        r.j == shift_of(a as nat, b as nat),
        r.t == rounded(a as nat, b as nat),
        TWO_52 <= r.t <= 2 * TWO_52,
        r.j <= 115,
{
    proof {
        two_52();
        vstd::arithmetic::power2::lemma2_to64();
    }
    let low: u128 = 0x10_0000_0000_0000 * (b as u128);
    let mut n: u128 = a as u128;
    let mut j: u64 = 0;
    while n < low
        invariant
            0 < a,
            low == 0x10_0000_0000_0000 * b,
            b < 0x4000_0000_0000_0000,
            n == a * pow2(j as nat),
            n < 2 * low,
            n >= pow2(j as nat),
            j <= 115,
        decreases 2 * low - n,
    {
        proof {
            lemma_pow2_unfold((j + 1) as nat);
            lemma_pow2_pos(j as nat);
            let p = pow2(j as nat);
            assert(a * (2 * p) == 2 * (a * p)) by (nonlinear_arith);
            if j >= 114 {
                // The shifted number would have outgrown its bound.
                lemma_pow2_adds(62, 52);
                if j > 114 {
                    lemma_pow2_strictly_increases(114, j as nat);
                }
                vstd::arithmetic::power2::lemma2_to64();
                two_52();
                assert(pow2(62) == 0x4000_0000_0000_0000) by {
                    vstd::arithmetic::power2::lemma2_to64_rest();
                }
                assert(pow2(114) == 0x4000_0000_0000_0000 * TWO_52);
                assert(false);
            }
        }
        n = n * 2;
        j = j + 1;
    }
    proof {
        assert(pow2(52) * (b as nat) <= a as nat * pow2(j as nat));
        assert(pow2(53) * (b as nat) == 2 * low) by {
            assert(0x20_0000_0000_0000 * b == 2 * (0x10_0000_0000_0000 * b));
        }
        shift_is(a as nat, b as nat, j as nat);
    }
    let q: u128 = n / (b as u128);
    let r: u128 = n % (b as u128);
    proof {
        lemma_fundamental_div_mod(n as int, b as int);
        let bb = b as int;
        let qq = q as int;
        assert(TWO_52 <= qq < 2 * TWO_52) by (nonlinear_arith)
            requires
                n == bb * qq + r,
                0 <= r < bb,
                TWO_52 * bb <= n < 2 * TWO_52 * bb,
                bb > 0,
        ;
    }
    let up: bool = !(2 * r < b as u128 || (2 * r == b as u128 && q % 2 == 0));
    let t: u64 = if up {
        (q + 1) as u64
    } else {
        q as u64
    };
    Rounded { t, j }
}

proof fn two_52()
    ensures
        pow2(52) == TWO_52,
        pow2(53) == 2 * TWO_52,
{
    vstd::arithmetic::power2::lemma2_to64_rest();
}

/// `2^c`.
fn power(c: u64) -> (r: u128)
    requires
        c <= 100,
    ensures
        r == pow2(c as nat),
{
    let mut p: u128 = 1;
    let mut i: u64 = 0;
    proof {
        vstd::arithmetic::power2::lemma2_to64();
        power_bound(100);
    }
    while i < c
        invariant
            i <= c <= 100,
            p == pow2(i as nat),
            pow2(100) < 0x8000_0000_0000_0000_0000_0000_0000_0000,
        decreases c - i,
    {
        proof {
            lemma_pow2_unfold((i + 1) as nat);
            if i < 100 {
                lemma_pow2_strictly_increases(i as nat, 100);
            }
        }
        p = p * 2;
        i = i + 1;
    }
    p
}

proof fn power_bound(c: nat)
    requires
        c <= 100,
    ensures
        pow2(c) < 0x8000_0000_0000_0000_0000_0000_0000_0000,
{
    vstd::arithmetic::power2::lemma2_to64();
    vstd::arithmetic::power2::lemma2_to64_rest();
    lemma_pow2_adds(50, 50);
    if c < 100 {
        lemma_pow2_strictly_increases(c, 100);
    }
}

/// Round `t * 2^k` to a whole number, halves up, no higher than `max`.
pub fn whole_up_to(t: u64, k: i64, max: u64) -> (r: u64)
    requires
        TWO_52 <= t <= 2 * TWO_52,
        max < TWO_52,
        -0x1000_0000 < k < 0x1000_0000,
    ensures
        r == at_most(whole(t as nat, k as int), max as nat),
{
    if k >= 0 {
        proof {
            lemma_pow2_pos(k as nat);
            let p = pow2(k as nat);
            assert(t as nat * p >= t) by (nonlinear_arith)
                requires
                    p >= 1,
            ;
        }
        return max;
    }
    let c: u64 = (-k) as u64;
    if c > 60 {
        proof {
            two_52();
            lemma_pow2_unfold(c as nat);
            let h = pow2((c - 1) as nat);
            let f = pow2(c as nat);
            assert(h > t) by {
                vstd::arithmetic::power2::lemma2_to64_rest();
                if c > 61 {
                    lemma_pow2_strictly_increases(60, (c - 1) as nat);
                }
            }
            vstd::arithmetic::div_mod::lemma_basic_div((t + h) as int, f as int);
        }
        return 0;
    }
    let half = power(c - 1);
    let full = power(c);
    proof {
        power_small(c as nat);
    }
    let v: u128 = (t as u128 + half) / full;
    if v <= max as u128 {
        v as u64
    } else {
        max
    }
}

proof fn power_small(c: nat)
    requires
        1 <= c <= 60,
    ensures
        0 < pow2(c) <= 0x1000_0000_0000_0000,
        0 < pow2((c - 1) as nat) <= 0x1000_0000_0000_0000,
{
    vstd::arithmetic::power2::lemma2_to64_rest();
    lemma_pow2_pos(c);
    lemma_pow2_pos((c - 1) as nat);
    if c < 60 {
        lemma_pow2_strictly_increases(c, 60);
    }
    lemma_pow2_strictly_increases((c - 1) as nat, 60);
}

/// What `(a / x).round()` is for a whole number `a` and the number `x > 0` with
/// the given bits, no higher than `max`.
pub open spec fn quotient_by(a: nat, bits: u64, max: nat) -> nat {
    if a == 0 || bits == INFINITY {
        0
    } else {
        at_most(
            whole(
                rounded(a, significand(bits)),
                -exponent(bits) - shift_of(a, significand(bits)),
            ),
            max,
        )
    }
}

/// Divide a whole number by a positive binary64 number and round.
pub fn divide_by(a: u32, bits: u64, max: u64) -> (r: u64)
    requires
        0 < bits <= INFINITY,
        max < TWO_52,
    ensures
        r == quotient_by(a as nat, bits, max as nat),
{
    if a == 0 || bits == INFINITY {
        return 0;
    }
    let (m, e) = split(bits);
    assert(a < 0x20_0000_0000_0000 * m);
    let q = divide(a as u64, m);
    whole_up_to(q.t, -e - (q.j as i64), max)
}

/// Significand and exponent of a positive finite number.
fn split(bits: u64) -> (r: (u64, i64))
    requires
        positive_finite(bits),
    ensures
        r.0 == significand(bits),
        r.1 == exponent(bits),
        0 < r.0 < 2 * TWO_52,
        -1074 <= r.1 <= 971,
{
    let f: u64 = bits % TWO_52;
    let x: u64 = bits / TWO_52;
    if x == 0 {
        (f, -1074)
    } else {
        (f + TWO_52, x as i64 - 1075)
    }
}

/// What `(x * 1000.0).round()` is for a number above zero, no higher than `max`.
pub open spec fn thousandfold(bits: u64, max: nat) -> nat {
    let a = 1000 * significand(bits);
    at_most(whole(rounded(a, 2048), 11 + exponent(bits) - shift_of(a, 2048)), max)
}

/// What `(x * 1000.0).round() as u32` is for any binary64 number.
pub open spec fn in_thousandths(bits: u64) -> u32 {
    if bits == INFINITY {
        u32::MAX
    } else if positive_finite(bits) {
        thousandfold(bits, u32::MAX as nat) as u32
    } else {
        0
    }
}

/// `(x * 1000.0).round() as u32`: hertz to millihertz.
pub fn to_thousandths(bits: u64) -> (r: u32)
    ensures
        r == in_thousandths(bits),
{
    if bits == INFINITY {
        return u32::MAX;
    }
    if bits == 0 || bits > INFINITY {
        return 0;
    }
    let (m, e) = split(bits);
    let q = divide(1000 * m, 2048);
    let v = whole_up_to(q.t, 11 + e - (q.j as i64), u32::MAX as u64);
    v as u32
}

/// What `(a as f64 / b as f64 * 1000.0).round() as u32` is: the quotient and
/// the product are each rounded to 53 bits.
pub open spec fn ratio_in_thousandths(a: nat, b: nat) -> u32 {
    if a == 0 {
        0
    } else {
        let t = rounded(a, b);
        at_most(
            whole(rounded(1000 * t, 2048), 11 - shift_of(a, b) - shift_of(1000 * t, 2048)),
            u32::MAX as nat,
        ) as u32
    }
}

/// `(a as f64 / b as f64 * 1000.0).round() as u32`.
pub fn ratio_thousandths(a: u64, b: u64) -> (r: u32)
    requires
        0 < b < 0x4000_0000_0000_0000,
        a < 0x20_0000_0000_0000 * b,
    ensures
        r == ratio_in_thousandths(a as nat, b as nat),
{
    if a == 0 {
        return 0;
    }
    let q = divide(a, b);
    let p = divide(1000 * q.t, 2048);
    let v = whole_up_to(p.t, 11 - (q.j as i64) - (p.j as i64), u32::MAX as u64);
    v as u32
}

/// What `(a as f64 / b as f64).round()` is, no higher than `max`; a quotient by
/// zero is infinite, and zero by zero counts as zero.
pub open spec fn ratio_in_whole(a: nat, b: nat, max: nat) -> nat {
    if a == 0 {
        0
    } else if b == 0 {
        max
    } else {
        at_most(whole(rounded(a, b), -(shift_of(a, b) as int)), max)
    }
}

/// `(a as f64 / b as f64).round()`, no higher than `max`.
pub fn ratio_whole(a: u64, b: u64, max: u64) -> (r: u64)
    requires
        b < 0x4000_0000_0000_0000,
        b > 0 ==> a < 0x20_0000_0000_0000 * b,
        max < TWO_52,
    ensures
        r == ratio_in_whole(a as nat, b as nat, max as nat),
{
    if a == 0 {
        return 0;
    }
    if b == 0 {
        return max;
    }
    let q = divide(a, b);
    whole_up_to(q.t, -(q.j as i64), max)
}

// --------------------------------------------------------------------- laws

proof fn shift_exists(q: nat, j: nat) -> (r: nat)
    requires
        0 < q,
        q * pow2(j) < pow2(53),
    ensures
        r >= j,
        pow2(52) <= q * pow2(r) < pow2(53),
    decreases pow2(53) - q * pow2(j),
{
    if q * pow2(j) >= pow2(52) {
        j
    } else {
        lemma_pow2_unfold((j + 1) as nat);
        lemma_pow2_unfold(53);
        lemma_pow2_pos(j);
        let p = pow2(j);
        assert(q * (2 * p) == 2 * (q * p)) by (nonlinear_arith);
        assert(q * p > 0) by (nonlinear_arith)
            requires
                q > 0,
                p > 0,
        ;
        shift_exists(q, (j + 1) as nat)
    }
}

proof fn nearest_even_exact(c: nat, b: nat)
    requires
        b > 0,
    ensures
        nearest_even(c * b, b) == c,
{
    vstd::arithmetic::div_mod::lemma_div_multiples_vanish(c as int, b as int);
    vstd::arithmetic::div_mod::lemma_mod_multiples_basic(c as int, b as int);
    assert(c * b == b * c) by (nonlinear_arith);
}

proof fn whole_exact(q: nat, j: nat)
    ensures
        whole(q * pow2(j), -(j as int)) == q,
{
    lemma_pow2_pos(j);
    if j == 0 {
        vstd::arithmetic::power2::lemma2_to64();
        assert(q * 1 == q) by (nonlinear_arith);
        assert(pow2(0) == 1);
        assert(whole(q * pow2(0), 0) == (q * pow2(0)) * pow2(0));
    } else {
        let p = pow2(j);
        let h = pow2((j - 1) as nat);
        lemma_pow2_unfold(j);
        lemma_pow2_pos((j - 1) as nat);
        assert(p == 2 * h);
        vstd::arithmetic::div_mod::lemma_fundamental_div_mod_converse(
            (q * p + h) as int,
            p as int,
            q as int,
            h as int,
        );
    }
}

/// A quotient that comes out even is exact: `q * b` divided by `b` is `q`.
pub proof fn even_quotient_is_exact(q: nat, b: nat, max: nat)
    requires
        0 < q < pow2(53),
        b > 0,
    ensures
        ratio_in_whole(q * b, b, max) == at_most(q, max),
        rounded(q * b, b) == q * pow2(shift_of(q * b, b)),
{
    vstd::arithmetic::power2::lemma2_to64();
    assert(q * 1 == q) by (nonlinear_arith);
    let j = shift_exists(q, 0);
    let p = pow2(j);
    let lo = pow2(52);
    let hi = pow2(53);
    assert(lo * b <= (q * b) * p < hi * b) by (nonlinear_arith)
        requires
            lo <= q * p < hi,
            b > 0,
    ;
    shift_is(q * b, b, j);
    assert((q * b) * p == (q * p) * b) by (nonlinear_arith);
    nearest_even_exact(q * p, b);
    whole_exact(q, j);
    assert(q * b > 0) by (nonlinear_arith)
        requires
            q > 0,
            b > 0,
    ;
}

/// Dividing by 1.0 changes nothing.
pub proof fn dividing_by_one_changes_nothing(a: nat, max: nat)
    requires
        a < pow2(53),
    ensures
        quotient_by(a, 0x3ff0_0000_0000_0000, max) == at_most(a, max),
{
    let bits: u64 = 0x3ff0_0000_0000_0000;
    assert(bits == 0x3ff * TWO_52);
    assert(bits / TWO_52 == 0x3ff && bits % TWO_52 == 0);
    vstd::arithmetic::power2::lemma2_to64();
    vstd::arithmetic::power2::lemma2_to64_rest();
    assert(significand(bits) == TWO_52 && pow2(52) == TWO_52);
    if a > 0 {
        assert(a * 1 == a) by (nonlinear_arith);
        let k = shift_exists(a, 0);
        let j = (k + 52) as nat;
        lemma_pow2_adds(k, 52);
        let p = pow2(k);
        let b = pow2(52);
        assert(pow2(j) == p * b);
        let hi = pow2(53);
        assert(b * b <= a * (p * b) < hi * b) by (nonlinear_arith)
            requires
                b <= a * p < hi,
                b > 0,
        ;
        shift_is(a, b, j);
        assert(a * (p * b) == (a * p) * b) by (nonlinear_arith);
        nearest_even_exact(a * p, b);
        whole_exact(a, k);
    }
}

/// A whole number of hertz is exactly a thousand times as many millihertz.
pub proof fn whole_hertz_become_exact_millihertz(bits: u64, n: nat)
    requires
        0 < bits < INFINITY,
        exponent(bits) <= -20,
        significand(bits) == n * pow2((-exponent(bits)) as nat),
        1000 * n <= u32::MAX,
    ensures
        in_thousandths(bits) == 1000 * n,
{
    let e = (-exponent(bits)) as nat;
    let a = 1000 * significand(bits);
    let j = shift_of(a, 2048);
    thousandfold_is_exact(n, e, j);
    assert(a * pow2(j) == (1000 * (n * pow2(e))) * pow2(j));
}

/// A rate that divides evenly into whole hertz is exactly a thousand times as many
/// millihertz.
pub proof fn even_rate_becomes_exact_millihertz(q: nat, b: nat)
    requires
        q > 0,
        b > 0,
        1000 * q <= u32::MAX,
    ensures
        ratio_in_thousandths(q * b, b) == 1000 * q,
{
    vstd::arithmetic::power2::lemma2_to64();
    vstd::arithmetic::power2::lemma2_to64_rest();
    even_quotient_is_exact(q, b, 0);
    assert(q * 1 == q) by (nonlinear_arith);
    let s = shift_exists(q, 0);
    let p = pow2(s);
    let lo = pow2(52);
    let hi = pow2(53);
    assert(lo * b <= (q * b) * p < hi * b) by (nonlinear_arith)
        requires
            lo <= q * p < hi,
            b > 0,
    ;
    shift_is(q * b, b, s);
    if s < 20 {
        vstd::arithmetic::power2::lemma_pow2_strictly_increases(s, 20);
        assert(q * p < lo) by (nonlinear_arith)
            requires
                q < 0x1_0000_0000,
                p < 0x10_0000,
                lo == 0x10_0000_0000_0000,
        ;
    }
    let t = rounded(q * b, b);
    thousandfold_is_exact(q, s, shift_of(1000 * t, 2048));
    assert(q * b > 0) by (nonlinear_arith)
        requires
            q > 0,
            b > 0,
    ;
}

proof fn thousandfold_is_exact(n: nat, e: nat, j: nat)
    requires
        e >= 20,
    ensures
        whole(
            nearest_even((1000 * (n * pow2(e))) * pow2(j), 2048),
            11 - e - j,
        ) == 1000 * n,
{
    vstd::arithmetic::power2::lemma2_to64();
    let m = (e + j - 11) as nat;
    lemma_pow2_adds(e, j);
    lemma_pow2_adds(m, 11);
    let x = pow2(e);
    let y = pow2(j);
    let z = pow2(m);
    assert(x * y == z * 2048);
    let t = (1000 * n) * z;
    assert((1000 * (n * x)) * y == t * 2048) by (nonlinear_arith)
        requires
            x * y == z * 2048,
            t == (1000 * n) * z,
    ;
    nearest_even_exact(t, 2048);
    whole_exact(1000 * n, m);
}

} // verus!
