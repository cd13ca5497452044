//! Which of several binary64 numbers lies closest to a given one, decided
//! exactly on the bits.
//!
//! Multiplied by `2^1074` every finite binary64 number is a whole number, of at
//! most 2098 bits. Distances are compared on those, held as little-endian
//! 32-bit limbs.

use crate::binary64::{exponent, significand, INFINITY, TWO_52};
use crate::topology::{scale_positive, Scale};
use vstd::arithmetic::power2::{lemma_pow2_unfold, pow2};
use vstd::prelude::*;

verus! {

// -------------------------------------------------------------------- limbs

/// One more than the largest limb.
pub const LIMB: u64 = 0x1_0000_0000;

/// The weight of the limb at an index.
pub open spec fn weight(n: nat) -> nat
    decreases n,
{
    if n == 0 {
        1
    } else {
        LIMB as nat * weight((n - 1) as nat)
    }
}

/// The number that little-endian limbs stand for.
pub open spec fn limbs_value(s: Seq<u32>) -> nat
    decreases s.len(),
{
    if s.len() == 0 {
        0
    } else {
        limbs_value(s.drop_last()) + s.last() as nat * weight((s.len() - 1) as nat)
    }
}

proof fn value_below_weight(s: Seq<u32>)
    ensures
        limbs_value(s) < weight(s.len()),
    decreases s.len(),
{
    if s.len() > 0 {
        value_below_weight(s.drop_last());
        let w = weight((s.len() - 1) as nat);
        let d = s.last() as nat;
        assert(d * w + w <= LIMB as nat * w) by (nonlinear_arith)
            requires
                d < LIMB as nat,
                LIMB == 0x1_0000_0000,
                d + 1 <= 0x1_0000_0000,
        ;
    }
}

/// The limbs of a number, and zeros up to a length.
fn padded(v: &Vec<u32>, n: usize) -> (r: Vec<u32>)
    requires
        v@.len() <= n,
    ensures
        r@.len() == n,
        limbs_value(r@) == limbs_value(v@),
{
    let mut r: Vec<u32> = Vec::new();
    for i in 0..v.len()
        invariant
            r@ == v@.take(i as int),
    {
        r.push(v[i]);
        assert(r@ =~= v@.take(i + 1));
    }
    assert(v@.take(v@.len() as int) =~= v@);
    while r.len() < n
        invariant
            r@.len() <= n,
            limbs_value(r@) == limbs_value(v@),
        decreases n - r@.len(),
    {
        let ghost before = r@;
        r.push(0);
        proof {
            assert(r@.drop_last() =~= before);
            assert(0nat * weight(before.len()) == 0) by (nonlinear_arith);
        }
    }
    r
}

/// The larger of two lengths.
fn longer(a: usize, b: usize) -> (r: usize)
    ensures
        r >= a,
        r >= b,
        r == a || r == b,
{
    if a >= b {
        a
    } else {
        b
    }
}

/// The sum of two numbers.
fn sum(a: &Vec<u32>, b: &Vec<u32>) -> (r: Vec<u32>)
    ensures
        limbs_value(r@) == limbs_value(a@) + limbs_value(b@),
{
    let n: usize = longer(a.len(), b.len());
    let x = padded(a, n);
    let y = padded(b, n);
    let mut r: Vec<u32> = Vec::new();
    let mut carry: u64 = 0;
    proof {
        assert(x@.take(0) =~= Seq::<u32>::empty());
        assert(y@.take(0) =~= Seq::<u32>::empty());
    }
    for i in 0..n
        invariant
            x@.len() == n,
            y@.len() == n,
            r@.len() == i,
            carry <= 1,
            limbs_value(r@) + carry as nat * weight(i as nat) == limbs_value(x@.take(i as int))
                + limbs_value(y@.take(i as int)),
    {
        let t: u64 = x[i] as u64 + y[i] as u64 + carry;
        let ghost before = r@;
        let ghost c = carry as nat;
        let low: u32 = (t % LIMB) as u32;
        r.push(low);
        carry = t / LIMB;
        proof {
            assert(r@.drop_last() =~= before);
            assert(x@.take(i + 1).drop_last() =~= x@.take(i as int));
            assert(y@.take(i + 1).drop_last() =~= y@.take(i as int));
            let w = weight(i as nat);
            let l = low as nat;
            let d = carry as nat;
            let p = x@[i as int] as nat;
            let q = y@[i as int] as nat;
            assert(l + d * 0x1_0000_0000 == p + q + c);
            assert(l * w + d * (0x1_0000_0000 * w) == p * w + q * w + c * w) by (nonlinear_arith)
                requires
                    l + d * 0x1_0000_0000 == p + q + c,
            ;
        }
    }
    assert(x@.take(n as int) =~= x@);
    assert(y@.take(n as int) =~= y@);
    if carry > 0 {
        let ghost before = r@;
        r.push(1);
        assert(r@.drop_last() =~= before);
    } else {
        assert(0nat * weight(n as nat) == 0) by (nonlinear_arith);
    }
    r
}

/// Whether the first of two numbers is the smaller one.
fn less(a: &Vec<u32>, b: &Vec<u32>) -> (r: bool)
    ensures
        r == (limbs_value(a@) < limbs_value(b@)),
{
    let n: usize = longer(a.len(), b.len());
    let x = padded(a, n);
    let y = padded(b, n);
    let mut r = false;
    for i in 0..n
        invariant
            x@.len() == n,
            y@.len() == n,
            r == (limbs_value(x@.take(i as int)) < limbs_value(y@.take(i as int))),
    {
        let ghost w = weight(i as nat);
        let ghost p = x@[i as int] as nat;
        let ghost q = y@[i as int] as nat;
        proof {
            assert(x@.take(i + 1).drop_last() =~= x@.take(i as int));
            assert(y@.take(i + 1).drop_last() =~= y@.take(i as int));
            value_below_weight(x@.take(i as int));
            value_below_weight(y@.take(i as int));
            assert(p < q ==> p * w + w <= q * w) by (nonlinear_arith);
            assert(q < p ==> q * w + w <= p * w) by (nonlinear_arith);
        }
        if x[i] < y[i] {
            r = true;
        } else if x[i] > y[i] {
            r = false;
        }
    }
    assert(x@.take(n as int) =~= x@);
    assert(y@.take(n as int) =~= y@);
    r
}

/// The number `m * 2^k`.
fn shifted(m: u64, k: u32) -> (r: Vec<u32>)
    ensures
        limbs_value(r@) == m as nat * pow2(k as nat),
{
    let mut r: Vec<u32> = Vec::new();
    r.push((m % LIMB) as u32);
    r.push((m / LIMB) as u32);
    proof {
        let s = r@;
        assert(s.drop_last().drop_last() =~= Seq::<u32>::empty());
        assert(limbs_value(s.drop_last().drop_last()) == 0);
        assert(weight(0) == 1);
        assert(weight(1) == 0x1_0000_0000 * weight(0));
        let lo = s.drop_last();
        assert(lo.len() == 1 && lo.last() == m % LIMB);
        assert(lo.last() as nat * weight(0) == m % LIMB);
        assert(limbs_value(lo) == m % LIMB);
        assert(s.last() == m / LIMB);
        assert(weight((s.len() - 1) as nat) == 0x1_0000_0000);
        assert(limbs_value(s) == m as nat);
        vstd::arithmetic::power2::lemma2_to64();
        assert(m as nat * pow2(0) == m as nat) by (nonlinear_arith)
            requires
                pow2(0) == 1,
        ;
    }
    for i in 0..k
        invariant
            limbs_value(r@) == m as nat * pow2(i as nat),
    {
        r = sum(&r, &r);
        proof {
            lemma_pow2_unfold((i + 1) as nat);
            let p = pow2(i as nat);
            let n = m as nat;
            assert(n * p + n * p == n * (2 * p)) by (nonlinear_arith);
        }
    }
    r
}

// ---------------------------------------------------------------- distances

/// Bits of negative zero: the sign bit.
pub const SIGN: u64 = 0x8000_0000_0000_0000;

/// Whether the bits are those of a finite number.
pub open spec fn finite(bits: u64) -> bool {
    bits % SIGN < INFINITY
}

/// Whether the bits are those of a NaN.
pub open spec fn not_a_number(bits: u64) -> bool {
    bits % SIGN > INFINITY
}

/// The magnitude of a finite number, times `2^1074`.
pub open spec fn magnitude(bits: u64) -> nat {
    significand(bits % SIGN) * pow2((exponent(bits % SIGN) + 1074) as nat)
}

/// A finite number, times `2^1074`.
pub open spec fn scaled(bits: u64) -> int {
    if bits >= SIGN {
        -(magnitude(bits) as int)
    } else {
        magnitude(bits) as int
    }
}

/// The distance of two finite numbers, times `2^1074`.
pub open spec fn gap(a: u64, b: u64) -> nat {
    let d = scaled(a) - scaled(b);
    if d >= 0 {
        d as nat
    } else {
        (-d) as nat
    }
}

/// Whether one number is nearer to a third than another is. A number that is
/// not finite is infinitely far.
pub open spec fn nearer(a: u64, b: u64, w: u64) -> bool {
    finite(w) && finite(a) && (finite(b) ==> gap(a, w) < gap(b, w))
}

/// Whether the distance of two numbers is defined: neither is a NaN, and they
/// are not the same infinity.
pub open spec fn distance_defined(a: u64, b: u64) -> bool {
    !not_a_number(a) && !not_a_number(b) && (a == b ==> finite(a))
}

fn limbs_of(bits: u64) -> (r: Vec<u32>)
    requires
        finite(bits),
    ensures
        limbs_value(r@) == magnitude(bits),
{
    let b: u64 = bits % SIGN;
    let x: u64 = b / TWO_52;
    if x == 0 {
        shifted(b % TWO_52, 0)
    } else {
        shifted(b % TWO_52 + TWO_52, (x - 1) as u32)
    }
}

/// Whether one number is nearer to a third than another is.
fn is_nearer(a: u64, b: u64, w: u64) -> (r: bool)
    ensures
        r == nearer(a, b, w),
{
    if w % SIGN >= INFINITY || a % SIGN >= INFINITY {
        return false;
    }
    if b % SIGN >= INFINITY {
        return true;
    }
    let ma = limbs_of(a);
    let mb = limbs_of(b);
    let mw = limbs_of(w);
    let ww = sum(&mw, &mw);
    let a_opposite = (a >= SIGN) != (w >= SIGN);
    let b_opposite = (b >= SIGN) != (w >= SIGN);
    if a_opposite && b_opposite {
        less(&ma, &mb)
    } else if a_opposite {
        // |a| + |w| < ||b| - |w||, which needs |b| above |w|
        less(&sum(&ma, &ww), &mb)
    } else if b_opposite {
        // ||a| - |w|| < |b| + |w|
        if less(&mw, &ma) {
            less(&ma, &sum(&mb, &ww))
        } else {
            less(&shifted(0, 0), &sum(&ma, &mb))
        }
    } else if less(&mw, &ma) {
        if less(&mw, &mb) {
            less(&ma, &mb)
        } else {
            less(&sum(&ma, &mb), &ww)
        }
    } else if less(&mw, &mb) {
        less(&ww, &sum(&ma, &mb))
    } else {
        less(&mb, &ma)
    }
}

/// The scale nearest to the wanted one; the first of several.
pub open spec fn nearest(supported: Seq<Scale>, wanted: Scale) -> Scale
    decreases supported.len(),
{
    if supported.len() <= 1 {
        supported[0]
    } else {
        let best = nearest(supported.drop_last(), wanted);
        if nearer(supported.last().bits, best.bits, wanted.bits) {
            supported.last()
        } else {
            best
        }
    }
}

/// The supported scale closest to the wanted one. Where none is listed, the
/// wanted one if it is positive, the preferred one otherwise.
pub open spec fn snapped(wanted: Scale, preferred: Scale, supported: Seq<Scale>) -> Scale {
    if supported.len() > 0 {
        nearest(supported, wanted)
    } else if scale_positive(wanted) {
        wanted
    } else {
        preferred
    }
}

/// Whether the distances from the wanted scale are defined, where they matter.
pub open spec fn snap_defined(wanted: Scale, supported: Seq<Scale>) -> bool {
    supported.len() >= 2 ==> forall|i: int|
        0 <= i < supported.len() ==> distance_defined(#[trigger] supported[i].bits, wanted.bits)
}

/// Whether the distances from the wanted scale are defined, where they matter.
pub fn can_snap(wanted: Scale, supported: &Vec<Scale>) -> (r: bool)
    ensures
        r == snap_defined(wanted, supported@),
{
    if supported.len() < 2 {
        return true;
    }
    let w: u64 = wanted.bits;
    for i in 0..supported.len()
        invariant
            w == wanted.bits,
            supported@.len() >= 2,
            forall|j: int| 0 <= j < i ==> distance_defined(#[trigger] supported@[j].bits, w),
    {
        let a: u64 = supported[i].bits;
        if a % SIGN > INFINITY || w % SIGN > INFINITY || (a == w && a % SIGN >= INFINITY) {
            assert(!distance_defined(supported@[i as int].bits, w));
            return false;
        }
    }
    true
}

/// Mutter rejects scales it didn't offer; snap to the closest supported one.
pub fn snap_scale(wanted: Scale, preferred: Scale, supported: &Vec<Scale>) -> (r: Scale)
    requires
        snap_defined(wanted, supported@),
    ensures
        r == snapped(wanted, preferred, supported@),
{
    if supported.len() == 0 {
        return if wanted.is_positive() {
            wanted
        } else {
            preferred
        };
    }
    let mut best: Scale = supported[0];
    assert(supported@.take(1)[0] == supported@[0]);
    for i in 1..supported.len()
        invariant
            supported@.len() > 0,
            best == nearest(supported@.take(i as int), wanted),
    {
        assert(supported@.take(i + 1).drop_last() =~= supported@.take(i as int));
        if is_nearer(supported[i].bits, best.bits, wanted.bits) {
            best = supported[i];
        }
    }
    assert(supported@.take(supported@.len() as int) =~= supported@);
    best
}

// --------------------------------------------------------------------- laws

/// The chosen scale is a supported one, and no supported one is nearer.
pub proof fn snapped_is_closest(wanted: Scale, preferred: Scale, supported: Seq<Scale>, i: int)
    requires
        0 <= i < supported.len(),
    ensures
        supported.contains(snapped(wanted, preferred, supported)),
        !nearer(supported[i].bits, snapped(wanted, preferred, supported).bits, wanted.bits),
{
    nearest_is_best(supported, wanted, i);
}

proof fn nearest_is_best(s: Seq<Scale>, w: Scale, i: int)
    requires
        0 <= i < s.len(),
    ensures
        s.contains(nearest(s, w)),
        !nearer(s[i].bits, nearest(s, w).bits, w.bits),
    decreases s.len(),
{
    if s.len() > 1 {
        let t = s.drop_last();
        let best = nearest(t, w);
        if i < t.len() {
            nearest_is_best(t, w, i);
            assert(t[i] == s[i]);
        } else {
            nearest_is_best(t, w, 0);
        }
        let k = choose|k: int| 0 <= k < t.len() && t[k] == best;
        assert(s[k] == best);
        assert(s[s.len() - 1] == s.last());
    } else {
        assert(s[0] == nearest(s, w));
    }
}

/// A finite scale that is supported is kept as it is, unless another supported
/// one has the same value, as zero and negative zero do.
pub proof fn supported_scale_is_kept(wanted: Scale, preferred: Scale, supported: Seq<Scale>)
    requires
        supported.contains(wanted),
        finite(wanted.bits),
        forall|i: int|
            0 <= i < supported.len() && finite((#[trigger] supported[i]).bits) && scaled(
                supported[i].bits,
            ) == scaled(wanted.bits) ==> supported[i] == wanted,
    ensures
        snapped(wanted, preferred, supported) == wanted,
{
    let k = choose|k: int| 0 <= k < supported.len() && supported[k] == wanted;
    nearest_is_best(supported, wanted, k);
    let r = snapped(wanted, preferred, supported);
    let j = choose|j: int| 0 <= j < supported.len() && supported[j] == r;
    assert(gap(wanted.bits, wanted.bits) == 0);
    assert(finite(r.bits));
    assert(gap(r.bits, wanted.bits) == 0);
    assert(supported[j] == wanted);
}

/// Where no scale is listed, a positive one is taken as wanted and any other gives way to
/// the preferred one; where only one is listed, it is taken.
pub proof fn scale_without_a_choice(wanted: Scale, preferred: Scale, only: Scale)
    ensures
        0 < wanted.bits <= 0x7ff0_0000_0000_0000 ==> snapped(wanted, preferred, Seq::empty())
            == wanted,
        wanted.bits == 0 || wanted.bits > 0x7ff0_0000_0000_0000 ==> snapped(
            wanted,
            preferred,
            Seq::empty(),
        ) == preferred,
        snapped(wanted, preferred, seq![only]) == only,
{
}

} // verus!
