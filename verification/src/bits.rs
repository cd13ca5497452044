//! The low bits of numbers, and single bits of flag words.

use vstd::prelude::*;

verus! {

/// The lower 32 bits of a number.
pub open spec fn low_u32(n: int) -> u32 {
    (n % 0x1_0000_0000) as u32
}

/// The lower 16 bits of a number.
pub open spec fn low_u16(n: int) -> u16 {
    (n % 0x1_0000) as u16
}

/// The lower 8 bits of a number.
pub open spec fn low_u8(n: int) -> u8 {
    (n % 0x100) as u8
}

/// The lower 32 bits of a number, as a signed number.
pub open spec fn low_i32(n: int) -> i32 {
    let low = n % 0x1_0000_0000;
    if low < 0x8000_0000 {
        low as i32
    } else {
        (low - 0x1_0000_0000) as i32
    }
}

/// The lower 16 bits of a number, as a signed number.
pub open spec fn low_i16(n: int) -> i16 {
    let low = n % 0x1_0000;
    if low < 0x8000 {
        low as i16
    } else {
        (low - 0x1_0000) as i16
    }
}

/// The remainder of a number modulo `2^32`, never negative.
fn low_word(n: i64) -> (r: i128)
    ensures
        r == (n as int) % 0x1_0000_0000,
        0 <= r < 0x1_0000_0000,
{
    let lifted: i128 = n as i128 + 0x1_0000_0000_0000_0000;
    let low: i128 = lifted % 0x1_0000_0000;
    assert(low == (n as int) % 0x1_0000_0000) by {
        let n0 = n as int;
        vstd::arithmetic::div_mod::lemma_mod_multiples_vanish(0x1_0000_0000, n0, 0x1_0000_0000);
        assert(0x1_0000_0000 * 0x1_0000_0000 + n0 == lifted);
    }
    low
}

/// The lower 32 bits of a number.
pub fn truncate_u32(n: u64) -> (r: u32)
    ensures
        r == low_u32(n as int),
{
    (n % 0x1_0000_0000) as u32
}

/// The lower 32 bits of a signed number.
pub fn signed_to_u32(n: i32) -> (r: u32)
    ensures
        r == low_u32(n as int),
{
    low_word(n as i64) as u32
}

/// The lower 32 bits of a number, as a signed number.
pub fn truncate_i32(n: i64) -> (r: i32)
    ensures
        r == low_i32(n as int),
{
    let low = low_word(n);
    if low < 0x8000_0000 {
        low as i32
    } else {
        (low - 0x1_0000_0000) as i32
    }
}

/// The lower 16 bits of a number.
pub fn truncate_u16(n: u32) -> (r: u16)
    ensures
        r == low_u16(n as int),
{
    (n % 0x1_0000) as u16
}

/// The lower 8 bits of a number.
pub fn truncate_u8(n: u32) -> (r: u8)
    ensures
        r == low_u8(n as int),
{
    (n % 0x100) as u8
}

/// The lower 16 bits of a number, as a signed number.
pub fn truncate_i16(n: i32) -> (r: i16)
    ensures
        r == low_i16(n as int),
{
    let low: i128 = low_word(n as i64) % 0x1_0000;
    assert(low == (n as int) % 0x1_0000) by {
        let n0 = n as int;
        let q = n0 / 0x1_0000_0000;
        vstd::arithmetic::div_mod::lemma_fundamental_div_mod(n0, 0x1_0000_0000);
        vstd::arithmetic::div_mod::lemma_mod_multiples_vanish(
            0x1_0000 * q,
            n0 % 0x1_0000_0000,
            0x1_0000,
        );
        assert(0x1_0000 * (0x1_0000 * q) == 0x1_0000_0000 * q);
    }
    if low < 0x8000 {
        low as i16
    } else {
        (low - 0x1_0000) as i16
    }
}

/// Whether the bit of the given weight (a power of two) is set.
pub open spec fn has_bit(flags: int, weight: int) -> bool {
    (flags / weight) % 2 == 1
}

/// Whether the bit of the given weight is set.
pub fn bit_set(flags: u32, weight: u32) -> (r: bool)
    requires
        weight > 0,
    ensures
        r == has_bit(flags as int, weight as int),
{
    (flags / weight) % 2 == 1
}

/// The low bits of a number are that number where it fits, and differ from it by whole
/// multiples of what fits.
pub proof fn low_bits_keep_what_fits(n: int)
    ensures
        0 <= n < 0x1_0000_0000 ==> low_u32(n) == n,
        0 <= n < 0x1_0000 ==> low_u16(n) == n,
        0 <= n < 0x100 ==> low_u8(n) == n,
        -0x8000_0000 <= n < 0x8000_0000 ==> low_i32(n) == n && low_i32(low_u32(n) as int) == n,
        -0x8000 <= n < 0x8000 ==> low_i16(n) == n && low_i16(low_u16(n) as int) == n,
        (n - low_u32(n)) % 0x1_0000_0000 == 0,
        (n - low_i32(n)) % 0x1_0000_0000 == 0,
        (n - low_u16(n)) % 0x1_0000 == 0,
        (n - low_i16(n)) % 0x1_0000 == 0,
        (n - low_u8(n)) % 0x100 == 0,
{
}

/// A bit is set exactly if its weight is among those that make up the number.
pub proof fn set_bits_make_up_the_number(above: int, below: int, weight: int)
    requires
        weight > 0,
        0 <= below < weight,
    ensures
        has_bit(2 * weight * above + weight + below, weight),
        !has_bit(2 * weight * above + below, weight),
{
    assert(2 * weight * above + weight + below == (2 * above + 1) * weight + below)
        by (nonlinear_arith);
    assert(2 * weight * above + below == (2 * above) * weight + below) by (nonlinear_arith);
    vstd::arithmetic::div_mod::lemma_fundamental_div_mod_converse(
        (2 * above + 1) * weight + below,
        weight,
        2 * above + 1,
        below,
    );
    vstd::arithmetic::div_mod::lemma_fundamental_div_mod_converse(
        (2 * above) * weight + below,
        weight,
        2 * above,
        below,
    );
}

} // verus!
