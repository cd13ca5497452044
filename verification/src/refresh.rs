//! Refresh rates as users write them.
//!
//! A requested rate is a decimal number of hertz with any number of digits.
//! Modes have whole millihertz, so all that matters of the request is where it
//! lies among the whole and half millihertz; that much is kept, exactly.

use crate::seqs::{first_where, first_where_is, first_where_none};
use crate::text::{
    all_digits, ascii_lower, chars_of, decimal, decimal_reads_back, digit_value, digits_value,
    is_digit, part, same_chars, text_of, to_ascii_lower,
};
use vstd::prelude::*;

verus! {

/// A requested refresh rate.
#[derive(Debug, Clone, Copy, PartialEq, Eq, Structural)]
pub enum RefreshHz {
    /// Four times the rate in millihertz. Rates strictly between two multiples
    /// of half a millihertz share the odd number between them; rates below zero
    /// share -1, and rates beyond every mode's share [`FARTHEST`].
    Near { quarter_mhz: i64 },
    /// An infinite or undefined rate: no mode is closer to it than another.
    Unordered,
}

/// Four times a rate that no mode reaches.
pub const FARTHEST: i64 = 0x8_0000_0000;

/// Ten to the `n`.
pub open spec fn pow10(n: nat) -> nat
    decreases n,
{
    if n == 0 {
        1
    } else {
        10 * pow10((n - 1) as nat)
    }
}

/// Four times `d * 10^k`; between two even numbers, the odd one.
pub open spec fn quarters(d: nat, k: int) -> nat {
    if k >= 0 {
        4 * (d * pow10(k as nat))
    } else {
        let m = pow10((-k) as nat);
        let r = d % m;
        4 * (d / m) + if r == 0 {
            0nat
        } else if 2 * r < m {
            1nat
        } else if 2 * r == m {
            2nat
        } else {
            3nat
        }
    }
}

/// `d * 10^k` hertz, negated if `negative`.
pub open spec fn rate(negative: bool, d: nat, k: int) -> RefreshHz {
    let q = quarters(d, k + 3);
    RefreshHz::Near {
        quarter_mhz: if negative {
            if d == 0 {
                0i64
            } else {
                -1i64
            }
        } else if q <= FARTHEST {
            q as i64
        } else {
            FARTHEST
        },
    }
}

/// The condition that a character marks an exponent.
pub open spec fn exponent_mark() -> spec_fn(char) -> bool {
    |c: char| c == 'e' || c == 'E'
}

/// The condition that a character is the decimal point.
pub open spec fn point_mark() -> spec_fn(char) -> bool {
    |c: char| c == '.'
}

/// What stands before the first character that meets a condition.
pub open spec fn head(s: Seq<char>, mark: spec_fn(char) -> bool) -> Seq<char> {
    match first_where(s, mark) {
        Some(i) => s.take(i),
        None => s,
    }
}

/// What stands behind the first character that meets a condition, if any does.
pub open spec fn tail(s: Seq<char>, mark: spec_fn(char) -> bool) -> Option<Seq<char>> {
    match first_where(s, mark) {
        Some(i) => Some(s.skip(i + 1)),
        None => None,
    }
}

/// Whether a text begins with a sign.
pub open spec fn signed(s: Seq<char>) -> bool {
    s.len() > 0 && (s[0] == '+' || s[0] == '-')
}

/// A text without its sign.
pub open spec fn unsigned(s: Seq<char>) -> Seq<char> {
    if signed(s) {
        s.skip(1)
    } else {
        s
    }
}

/// Whether a text begins with a minus sign.
pub open spec fn negative(s: Seq<char>) -> bool {
    s.len() > 0 && s[0] == '-'
}

/// A whole number: an optional sign, then at least one digit.
pub open spec fn integer_in(s: Seq<char>) -> Option<int> {
    let body = unsigned(s);
    if body.len() > 0 && all_digits(body) {
        Some(
            if negative(s) {
                -(digits_value(body) as int)
            } else {
                digits_value(body) as int
            },
        )
    } else {
        None
    }
}

/// The exponent of a number: zero without a mark.
pub open spec fn exponent_in(s: Seq<char>) -> Option<int> {
    match tail(s, exponent_mark()) {
        Some(t) => integer_in(t),
        None => Some(0),
    }
}

/// The digits behind the point.
pub open spec fn fraction_in(mantissa: Seq<char>) -> Seq<char> {
    match tail(mantissa, point_mark()) {
        Some(t) => t,
        None => Seq::empty(),
    }
}

/// An unsigned decimal number: digits with at most one point among them, then
/// an optional exponent. The result `(d, k)` stands for `d * 10^k`.
pub open spec fn number(s: Seq<char>) -> Option<(nat, int)> {
    let mantissa = head(s, exponent_mark());
    let digits = head(mantissa, point_mark()) + fraction_in(mantissa);
    match exponent_in(s) {
        Some(e) => if digits.len() > 0 && all_digits(digits) {
            Some((digits_value(digits), e - fraction_in(mantissa).len()))
        } else {
            None
        },
        None => None,
    }
}

/// Whether a text names an infinity or an undefined number.
pub open spec fn unordered_word(s: Seq<char>) -> bool {
    let w = ascii_lower(s);
    w == "inf"@ || w == "infinity"@ || w == "nan"@
}

/// The rate that a text denotes.
pub open spec fn refresh_in(s: Seq<char>) -> Option<RefreshHz> {
    let body = unsigned(s);
    if unordered_word(body) {
        Some(RefreshHz::Unordered)
    } else {
        match number(body) {
            Some((d, k)) => Some(rate(negative(s), d, k)),
            None => None,
        }
    }
}

// ------------------------------------------------------------ digit strings

proof fn pow10_positive(n: nat)
    ensures
        pow10(n) > 0,
    decreases n,
{
    if n > 0 {
        pow10_positive((n - 1) as nat);
    }
}

proof fn pow10_adds(a: nat, b: nat)
    ensures
        pow10(a + b) == pow10(a) * pow10(b),
    decreases b,
{
    if b > 0 {
        pow10_adds(a, (b - 1) as nat);
        let x = pow10(a);
        let y = pow10((b - 1) as nat);
        assert(10 * (x * y) == x * (10 * y)) by (nonlinear_arith);
    } else {
        assert(pow10(a) * 1 == pow10(a)) by (nonlinear_arith);
    }
}

proof fn digits_below(s: Seq<char>)
    requires
        all_digits(s),
    ensures
        digits_value(s) < pow10(s.len()),
    decreases s.len(),
{
    if s.len() > 0 {
        assert(all_digits(s.drop_last())) by {
            assert forall|i: int| 0 <= i < s.len() - 1 implies is_digit(
                #[trigger] s.drop_last()[i],
            ) by {
                assert(is_digit(s[i]));
            }
        }
        digits_below(s.drop_last());
        assert(is_digit(s[s.len() - 1]));
    }
}

/// A digit string is its front, shifted, plus its rest.
pub proof fn digits_split(s: Seq<char>, i: int)
    requires
        0 <= i <= s.len(),
    ensures
        digits_value(s) == digits_value(s.take(i)) * pow10((s.len() - i) as nat) + digits_value(
            s.skip(i),
        ),
    decreases s.len() - i,
{
    if i == s.len() {
        assert(s.take(i) =~= s);
        assert(s.skip(i) =~= Seq::<char>::empty());
        assert(digits_value(s) * 1 == digits_value(s)) by (nonlinear_arith);
    } else {
        let t = s.drop_last();
        digits_split(t, i);
        assert(t.take(i) =~= s.take(i));
        assert(s.skip(i).drop_last() =~= t.skip(i));
        assert(s.skip(i).last() == s.last());
        let x = digits_value(s.take(i));
        let y = pow10((t.len() - i) as nat);
        assert(10 * (x * y) == x * (10 * y)) by (nonlinear_arith);
    }
}

/// Whether every digit is zero.
pub open spec fn all_zeros(s: Seq<char>) -> bool {
    forall|i: int| 0 <= i < s.len() ==> #[trigger] s[i] == '0'
}

proof fn zero_digits(s: Seq<char>)
    requires
        all_digits(s),
    ensures
        digits_value(s) == 0 <==> all_zeros(s),
    decreases s.len(),
{
    if s.len() > 0 {
        let t = s.drop_last();
        assert(all_digits(t)) by {
            assert forall|i: int| 0 <= i < t.len() implies is_digit(#[trigger] t[i]) by {
                assert(is_digit(s[i]));
            }
        }
        zero_digits(t);
        assert(is_digit(s[s.len() - 1]));
        if all_zeros(s) {
            assert forall|i: int| 0 <= i < t.len() implies #[trigger] t[i] == '0' by {
                assert(s[i] == '0');
            }
        }
        if digits_value(s) == 0 {
            assert forall|i: int| 0 <= i < s.len() implies #[trigger] s[i] == '0' by {
                if i < t.len() {
                    assert(t[i] == '0');
                }
            }
        }
    }
}

/// The value of the first `p` places of a digit string, zeros behind its end.
spec fn places(s: Seq<char>, p: int) -> nat {
    if p <= 0 {
        0
    } else if p <= s.len() {
        digits_value(s.take(p))
    } else {
        digits_value(s) * pow10((p - s.len()) as nat)
    }
}

proof fn places_step(s: Seq<char>, p: int)
    requires
        p >= 0,
    ensures
        places(s, p + 1) == 10 * places(s, p) + if p < s.len() {
            digit_value(s[p])
        } else {
            0
        },
{
    if p < s.len() {
        let t = s.take(p + 1);
        assert(t.drop_last() =~= s.take(p));
        assert(t.last() == s[p]);
        assert(digits_value(t) == 10 * digits_value(t.drop_last()) + digit_value(t.last()));
        assert(s.take(0) =~= Seq::<char>::empty());
        assert(places(s, p) == digits_value(s.take(p)));
    } else if p == s.len() {
        assert(s.take(p) =~= s);
        assert(pow10(1) == 10) by {
            reveal_with_fuel(pow10, 2);
        }
        assert(s.take(0) =~= Seq::<char>::empty());
        assert(digits_value(s) * 10 == 10 * digits_value(s)) by (nonlinear_arith);
    } else {
        let x = digits_value(s);
        let y = pow10((p - s.len()) as nat);
        let z = pow10((p + 1 - s.len()) as nat);
        assert(z == 10 * y);
        assert(x * z == 10 * (x * y)) by (nonlinear_arith)
            requires
                z == 10 * y,
        ;
        assert(places(s, p) == x * y);
        assert(places(s, p + 1) == x * z);
    }
}

proof fn places_grow(s: Seq<char>, p: int, q: int)
    requires
        0 <= p <= q,
    ensures
        places(s, p) <= places(s, q),
    decreases q - p,
{
    if p < q {
        places_grow(s, p, q - 1);
        places_step(s, q - 1);
    }
}

/// The whole part of a number whose point stands behind place `p`, no higher
/// than `0x2_0000_0000`.
fn whole_part(digits: &Vec<char>, p: i128) -> (r: u64)
    requires
        all_digits(digits@),
        p < 0x10_0000_0000_0000_0000_0000_0000,
    ensures
        r == if places(digits@, p as int) <= 0x2_0000_0000 {
            places(digits@, p as int) as int
        } else {
            0x2_0000_0000
        },
{
    let mut v: u64 = 0;
    let mut j: i128 = 0;
    let n: i128 = digits.len() as i128;
    while j < p && v < 0x2_0000_0000 && !(j >= n && v == 0)
        invariant
            all_digits(digits@),
            0 <= j,
            n == digits.len(),
            p > 0 ==> j <= p,
            p < 0x10_0000_0000_0000_0000_0000_0000,
            p <= 0 ==> j == 0,
            v == if places(digits@, j as int) <= 0x2_0000_0000 {
                places(digits@, j as int) as int
            } else {
                0x2_0000_0000
            },
        decreases p - j,
    {
        proof {
            places_step(digits@, j as int);
        }
        let d: u64 = if j < n {
            let c = digits[j as usize];
            assert(is_digit(digits@[j as int]));
            c as u64 - 48
        } else {
            0
        };
        v = 10 * v + d;
        if v > 0x2_0000_0000 {
            v = 0x2_0000_0000;
        }
        j = j + 1;
    }
    proof {
        if p > 0 {
            places_grow(digits@, j as int, p as int);
            if j < p && v == 0 {
                vanishing(digits@, j as int, p as int);
            }
        }
    }
    v
}

proof fn vanishing(s: Seq<char>, p: int, q: int)
    requires
        s.len() <= p <= q,
        places(s, p) == 0,
    ensures
        places(s, q) == 0,
    decreases q - p,
{
    if p < q {
        vanishing(s, p, q - 1);
        places_step(s, q - 1);
    }
}

/// Whether every digit from `from` on is zero.
fn zeros_from(digits: &Vec<char>, from: usize) -> (r: bool)
    requires
        from <= digits.len(),
        all_digits(digits@),
    ensures
        r == (digits_value(digits@.skip(from as int)) == 0),
{
    let ghost t = digits@.skip(from as int);
    proof {
        assert(all_digits(t)) by {
            assert forall|i: int| 0 <= i < t.len() implies is_digit(#[trigger] t[i]) by {
                assert(is_digit(digits@[from + i]));
            }
        }
        zero_digits(t);
    }
    for i in from..digits.len()
        invariant
            from <= digits.len(),
            t == digits@.skip(from as int),
            digits_value(t) == 0 <==> all_zeros(t),
            forall|j: int| 0 <= j < i - from ==> #[trigger] t[j] == '0',
    {
        assert(t[i - from] == digits@[i as int]);
        if digits[i] != '0' {
            return false;
        }
    }
    true
}

/// The quarters of a digit string whose point stands behind place `p`.
fn quarters_at(digits: &Vec<char>, p: i128) -> (r: i64)
    requires
        all_digits(digits@),
        -0x10_0000_0000_0000_0000_0000_0000 < p < 0x10_0000_0000_0000_0000_0000_0000,
    ensures
        r == if quarters(digits_value(digits@), p - digits@.len()) <= FARTHEST {
            quarters(digits_value(digits@), p - digits@.len()) as int
        } else {
            FARTHEST as int
        },
{
    let n: i128 = digits.len() as i128;
    let i: u64 = whole_part(digits, p);
    let ghost d = digits_value(digits@);
    if p >= n {
        proof {
            if p == n {
                assert(digits@.take(n as int) =~= digits@);
                assert(d * 1 == d) by (nonlinear_arith);
                assert(digits@.len() == 0 ==> d == 0);
            }
            assert(places(digits@, p as int) == d * pow10((p - n) as nat));
        }
        return 4 * (i as i64);
    }
    let ghost m = pow10((n - p) as nat);
    proof {
        digits_below(digits@);
        pow10_positive((n - p) as nat);
    }
    if p < 0 {
        proof {
            pow10_adds(n as nat, (-p) as nat);
            pow10_positive(n as nat);
            pow10_positive((-p - 1) as nat);
            let a = pow10(n as nat);
            let b = pow10((-p) as nat);
            assert(b >= 10);
            assert(a * b >= 10 * a) by (nonlinear_arith)
                requires
                    b >= 10,
                    a > 0,
            ;
            assert(m >= 10 * a);
            vstd::arithmetic::div_mod::lemma_basic_div(d as int, m as int);
            vstd::arithmetic::div_mod::lemma_small_mod(d, m);
        }
        assert(digits@.skip(0) =~= digits@);
        return if zeros_from(digits, 0) {
            0
        } else {
            1
        };
    }
    let at: usize = p as usize;
    let ghost t = digits@.skip(at as int);
    let ghost s = digits_value(t);
    proof {
        digits_split(digits@, at as int);
        assert(digits@.take(0) =~= Seq::<char>::empty());
        assert(places(digits@, p as int) == digits_value(digits@.take(at as int)));
        assert(all_digits(t)) by {
            assert forall|j: int| 0 <= j < t.len() implies is_digit(#[trigger] t[j]) by {
                assert(is_digit(digits@[at + j]));
            }
        }
        digits_below(t);
        let w = digits_value(digits@.take(at as int));
        assert(d == m * w + s) by {
            assert(w * m == m * w) by (nonlinear_arith);
        }
        vstd::arithmetic::div_mod::lemma_fundamental_div_mod_converse(
            d as int,
            m as int,
            w as int,
            s as int,
        );
        digits_split(t, 1);
        assert(t.skip(1) =~= digits@.skip(at + 1));
        assert(t.take(1).drop_last() =~= Seq::<char>::empty());
        assert(digits_value(t.take(1).drop_last()) == 0);
        assert(digits_value(t.take(1)) == digit_value(t[0]));
        assert(all_digits(t.skip(1))) by {
            assert forall|j: int| 0 <= j < t.skip(1).len() implies is_digit(
                #[trigger] t.skip(1)[j],
            ) by {
                assert(is_digit(t[j + 1]));
            }
        }
        digits_below(t.skip(1));
        assert(is_digit(t[0]));
        assert(m == 10 * pow10((t.len() - 1) as nat));
    }
    let rest = zeros_from(digits, at + 1);
    let c = digits[at];
    let ghost h = pow10((t.len() - 1) as nat);
    let ghost a = digit_value(c);
    let ghost tail_value = digits_value(t.skip(1));
    assert(s == a * h + tail_value && tail_value < h && m == 10 * h);
    let class: i64 = if c == '0' && rest {
        proof {
            assert(0 * h == 0) by (nonlinear_arith);
        }
        0
    } else if (c as u32) < 53 {
        proof {
            assert(a * h <= 4 * h) by (nonlinear_arith)
                requires
                    a <= 4,
            ;
            if a > 0 {
                assert(a * h >= h) by (nonlinear_arith)
                    requires
                        a >= 1,
                ;
            } else {
                assert(0 * h == 0) by (nonlinear_arith);
            }
        }
        1
    } else if c == '5' && rest {
        proof {
            assert(a == 5);
            assert(5 * h == a * h);
        }
        2
    } else {
        proof {
            assert(a * h >= 5 * h) by (nonlinear_arith)
                requires
                    a >= 5,
            ;
            if a > 5 {
                assert(a * h >= 6 * h) by (nonlinear_arith)
                    requires
                        a >= 6,
                ;
            }
        }
        3
    };
    let q: i64 = 4 * (i as i64) + class;
    if q <= FARTHEST {
        q
    } else {
        FARTHEST
    }
}

// ------------------------------------------------------------------ reading

fn exponent_at(cs: &Vec<char>) -> (r: Option<usize>)
    ensures
        match (r, first_where(cs@, exponent_mark())) {
            (Some(i), Some(want)) => i == want && i < cs.len(),
            (None, None) => true,
            _ => false,
        },
{
    for i in 0..cs.len()
        invariant
            forall|j: int| 0 <= j < i ==> !exponent_mark()(cs@[j]),
    {
        if cs[i] == 'e' || cs[i] == 'E' {
            proof {
                first_where_is(cs@, exponent_mark(), i as int);
            }
            return Some(i);
        }
    }
    proof {
        first_where_none(cs@, exponent_mark());
    }
    None
}

fn point_at(cs: &Vec<char>) -> (r: Option<usize>)
    ensures
        match (r, first_where(cs@, point_mark())) {
            (Some(i), Some(want)) => i == want && i < cs.len(),
            (None, None) => true,
            _ => false,
        },
{
    for i in 0..cs.len()
        invariant
            forall|j: int| 0 <= j < i ==> !point_mark()(cs@[j]),
    {
        if cs[i] == '.' {
            proof {
                first_where_is(cs@, point_mark(), i as int);
            }
            return Some(i);
        }
    }
    proof {
        first_where_none(cs@, point_mark());
    }
    None
}

fn digits_only(cs: &Vec<char>) -> (r: bool)
    ensures
        r == all_digits(cs@),
{
    for i in 0..cs.len()
        invariant
            forall|j: int| 0 <= j < i ==> is_digit(#[trigger] cs@[j]),
    {
        if !(cs[i] >= '0' && cs[i] <= '9') {
            assert(!is_digit(cs@[i as int]));
            return false;
        }
    }
    true
}

fn without_sign(cs: &Vec<char>) -> (r: Vec<char>)
    ensures
        r@ == unsigned(cs@),
{
    if cs.len() > 0 && (cs[0] == '+' || cs[0] == '-') {
        let r = part(cs, 1, cs.len());
        assert(r@ =~= cs@.skip(1));
        r
    } else {
        let r = part(cs, 0, cs.len());
        assert(r@ =~= cs@);
        r
    }
}

/// A whole number, as far as its distance from zero stays below `2^80`.
fn integer(cs: &Vec<char>) -> (r: Option<i128>)
    ensures
        match (r, integer_in(cs@)) {
            (Some(v), Some(want)) => {
                &&& -0x1_0000_0000_0000_0000_0000 <= v <= 0x1_0000_0000_0000_0000_0000
                &&& v == want || (v == 0x1_0000_0000_0000_0000_0000 && want >= v) || (v
                    == -0x1_0000_0000_0000_0000_0000 && want <= v)
            },
            (None, None) => true,
            _ => false,
        },
{
    let body = without_sign(cs);
    if body.len() == 0 || !digits_only(&body) {
        return None;
    }
    let minus = cs[0] == '-';
    let mut v: i128 = 0;
    assert(body@.take(0) =~= Seq::<char>::empty());
    for i in 0..body.len()
        invariant
            all_digits(body@),
            0 <= v <= 0x1_0000_0000_0000_0000_0000,
            v == digits_value(body@.take(i as int)) || (v == 0x1_0000_0000_0000_0000_0000
                && digits_value(body@.take(i as int)) >= v),
    {
        assert(is_digit(body@[i as int]));
        assert(body@.take(i + 1).drop_last() =~= body@.take(i as int));
        v = 10 * v + (body[i] as i128 - 48);
        if v > 0x1_0000_0000_0000_0000_0000 {
            v = 0x1_0000_0000_0000_0000_0000;
        }
    }
    assert(body@.take(body@.len() as int) =~= body@);
    if minus {
        Some(-v)
    } else {
        Some(v)
    }
}

fn is_word(cs: &Vec<char>, word: &str) -> (r: bool)
    ensures
        r == (ascii_lower(cs@) == word@),
{
    same_chars(&to_ascii_lower(text_of(cs).as_str()), &chars_of(word))
}

proof fn quarters_far(d: nat, n: nat, p: int, q: int)
    requires
        d < pow10(n),
        n <= 0xffff_ffff_ffff_ffff,
        (p == q) || (q >= p >= 0x8000_0000_0000_0000_0000) || (q <= p
            <= -0x8000_0000_0000_0000_0000),
    ensures
        quarters(d, p - n) == quarters(d, q - n) || (quarters(d, p - n) > FARTHEST && quarters(
            d,
            q - n,
        ) > FARTHEST),
{
    if p != q && p > 0 {
        if d == 0 {
            assert(0 * pow10((p - n) as nat) == 0) by (nonlinear_arith);
            assert(0 * pow10((q - n) as nat) == 0) by (nonlinear_arith);
        } else {
            far_above(d, p - n);
            far_above(d, q - n);
        }
    } else if p != q {
        far_below(d, n, (n - p) as nat);
        far_below(d, n, (n - q) as nat);
    }
}

proof fn far_above(d: nat, k: int)
    requires
        d > 0,
        k >= 11,
    ensures
        quarters(d, k) > FARTHEST,
{
    pow10_adds(11, (k - 11) as nat);
    pow10_positive((k - 11) as nat);
    assert(pow10(11) == 100_000_000_000) by {
        reveal_with_fuel(pow10, 12);
    }
    let y = pow10((k - 11) as nat);
    assert(100_000_000_000 * y >= 100_000_000_000) by (nonlinear_arith)
        requires
            y >= 1,
    ;
    let z = pow10(k as nat);
    assert(d * z >= z) by (nonlinear_arith)
        requires
            d >= 1,
            z >= 0,
    ;
}

proof fn far_below(d: nat, n: nat, l: nat)
    requires
        d < pow10(n),
        l > n,
    ensures
        quarters(d, -(l as int)) == if d == 0 {
            0nat
        } else {
            1nat
        },
{
    pow10_adds(n, (l - n) as nat);
    pow10_positive(n);
    pow10_positive((l - n - 1) as nat);
    let a = pow10(n);
    let b = pow10((l - n) as nat);
    assert(b >= 10);
    let m = pow10(l);
    assert(m >= 10 * a) by (nonlinear_arith)
        requires
            m == a * b,
            b >= 10,
            a > 0,
    ;
    vstd::arithmetic::div_mod::lemma_basic_div(d as int, m as int);
    vstd::arithmetic::div_mod::lemma_small_mod(d, m);
}

/// Read a requested refresh rate: an optional sign, digits with an optional
/// point, an optional exponent, or the name of an infinity or of an undefined
/// number.
pub fn parse_refresh(cs: &Vec<char>) -> (r: Option<RefreshHz>)
    ensures
        r == refresh_in(cs@),
{
    let body = without_sign(cs);
    if is_word(&body, "inf") || is_word(&body, "infinity") || is_word(&body, "nan") {
        return Some(RefreshHz::Unordered);
    }
    let mark = exponent_at(&body);
    let e: i128 = match mark {
        Some(i) => {
            let t = part(&body, i + 1, body.len());
            assert(t@ =~= body@.skip(i + 1));
            match integer(&t) {
                Some(e) => e,
                None => {
                    return None;
                },
            }
        },
        None => 0,
    };
    let end: usize = match mark {
        Some(i) => i,
        None => body.len(),
    };
    let mantissa = part(&body, 0, end);
    assert(mantissa@ =~= head(body@, exponent_mark()));
    let point = point_at(&mantissa);
    let mut digits: Vec<char> = match point {
        Some(i) => part(&mantissa, 0, i),
        None => part(&mantissa, 0, mantissa.len()),
    };
    assert(digits@ =~= head(mantissa@, point_mark()));
    let before: usize = digits.len();
    if let Some(i) = point {
        let mut fraction = part(&mantissa, i + 1, mantissa.len());
        assert(fraction@ =~= fraction_in(mantissa@));
        digits.append(&mut fraction);
    } else {
        assert(digits@ =~= head(mantissa@, point_mark()) + fraction_in(mantissa@));
    }
    if digits.len() == 0 || !digits_only(&digits) {
        return None;
    }
    let p: i128 = before as i128 + e + 3;
    let ghost d = digits_value(digits@);
    let ghost want = exponent_in(body@)->0;
    let ghost k = want - fraction_in(mantissa@).len();
    proof {
        digits_below(digits@);
        quarters_far(d, digits@.len(), p as int, before + want + 3);
        assert(before + want + 3 - digits@.len() == k + 3);
    }
    if cs.len() > 0 && cs[0] == '-' {
        assert(digits@.skip(0) =~= digits@);
        return Some(
            RefreshHz::Near {
                quarter_mhz: if zeros_from(&digits, 0) {
                    0
                } else {
                    -1
                },
            },
        );
    }
    Some(RefreshHz::Near { quarter_mhz: quarters_at(&digits, p) })
}

/// A rate lies where it was written: an even number of quarters is exactly that much, an odd
/// one stands for what lies strictly between its even neighbors.
pub proof fn rate_lies_where_it_was_written(d: nat, k: int)
    ensures
        k >= 0 ==> quarters(d, k) == 4 * (d * pow10(k as nat)),
        k < 0 ==> {
            let m = pow10((-k) as nat);
            let q = quarters(d, k);
            &&& q % 2 == 0 ==> q * m == 4 * d
            &&& q % 2 == 1 ==> (q - 1) * m < 4 * d < (q + 1) * m
        },
        pow10(0) == 1,
        k >= 0 ==> pow10((k + 1) as nat) == 10 * pow10(k as nat),
{
    if k < 0 {
        let m = pow10((-k) as nat);
        pow10_positive((-k) as nat);
        let w = d / m;
        let r = d % m;
        vstd::arithmetic::div_mod::lemma_fundamental_div_mod(d as int, m as int);
        assert(d == m * w + r && 0 <= r < m);
        let q = quarters(d, k);
        let c = q - 4 * w;
        assert(q * m == 4 * (m * w) + c * m) by (nonlinear_arith)
            requires
                c == q - 4 * w,
        ;
        assert((q - 1) * m == 4 * (m * w) + (c - 1) * m) by (nonlinear_arith)
            requires
                c == q - 4 * w,
        ;
        assert((q + 1) * m == 4 * (m * w) + (c + 1) * m) by (nonlinear_arith)
            requires
                c == q - 4 * w,
        ;
        assert(4 * d == 4 * (m * w) + 4 * r);
        if c == 0 {
            assert(c * m == 0) by (nonlinear_arith)
                requires
                    c == 0,
            ;
        } else if c == 1 {
            assert((c - 1) * m == 0 && (c + 1) * m == 2 * m) by (nonlinear_arith)
                requires
                    c == 1,
            ;
        } else if c == 2 {
            assert(c * m == 2 * m) by (nonlinear_arith)
                requires
                    c == 2,
            ;
        } else {
            assert(c == 3);
            assert((c - 1) * m == 2 * m && (c + 1) * m == 4 * m) by (nonlinear_arith)
                requires
                    c == 3,
            ;
        }
    }
}

/// A whole number of hertz is read as exactly that, as long as any mode could have it; a
/// minus sign leaves nothing but zero.
pub proof fn whole_hertz_are_read_exactly(n: nat)
    ensures
        4000 * n <= FARTHEST ==> refresh_in(decimal(n)) == Some(
            RefreshHz::Near { quarter_mhz: (4000 * n) as i64 },
        ),
        4000 * n > FARTHEST ==> refresh_in(decimal(n)) == Some(
            RefreshHz::Near { quarter_mhz: FARTHEST },
        ),
        refresh_in(seq!['-'] + decimal(n)) == Some(
            RefreshHz::Near {
                quarter_mhz: if n == 0 {
                    0i64
                } else {
                    -1i64
                },
            },
        ),
{
    let s = decimal(n);
    decimal_reads_back(n);
    assert(is_digit(s[0]));
    assert forall|i: int| 0 <= i < s.len() implies !exponent_mark()(s[i]) && !point_mark()(
        s[i],
    ) by {
        assert(is_digit(s[i]));
    }
    first_where_none(s, exponent_mark());
    first_where_none(s, point_mark());
    assert(head(s, point_mark()) + fraction_in(s) =~= s);
    reveal_with_fuel(pow10, 4);
    assert(pow10(3) == 1000);
    assert(quarters(n, 3) == 4 * (n * 1000));
    let w = ascii_lower(s);
    reveal_strlit("inf");
    reveal_strlit("infinity");
    reveal_strlit("nan");
    assert(w[0] == s[0]);
    let t = seq!['-'] + s;
    assert(t.skip(1) =~= s);
}

/// An exponent moves the decimal point by as many places as it says.
pub proof fn exponent_moves_the_point(n: nat, k: nat)
    ensures
        refresh_in(decimal(n) + seq!['e'] + decimal(k)) == Some(rate(false, n, k as int)),
        refresh_in(decimal(n) + seq!['e', '-'] + decimal(k)) == Some(rate(false, n, -(k as int))),
{
    decimal_reads_back(k);
    let d = decimal(k);
    let minus = seq!['-'] + d;
    assert(minus.skip(1) =~= d);
    assert(is_digit(d[0]));
    read_with_exponent(n, d);
    read_with_exponent(n, minus);
    assert(decimal(n) + seq!['e'] + minus =~= decimal(n) + seq!['e', '-'] + d);
}

proof fn read_with_exponent(n: nat, t: Seq<char>)
    requires
        integer_in(t) is Some,
    ensures
        refresh_in(decimal(n) + seq!['e'] + t) == Some(rate(false, n, integer_in(t)->0)),
{
    let d = decimal(n);
    let s = d + seq!['e'] + t;
    let at = d.len() as int;
    decimal_reads_back(n);
    assert(s[0] == d[0] && is_digit(d[0]));
    assert forall|i: int| 0 <= i < at implies !exponent_mark()(s[i]) && !point_mark()(d[i]) by {
        assert(s[i] == d[i]);
        assert(is_digit(d[i]));
    }
    assert(s[at] == 'e');
    first_where_is(s, exponent_mark(), at);
    first_where_none(d, point_mark());
    assert(s.take(at) =~= d);
    assert(s.skip(at + 1) =~= t);
    assert(head(d, point_mark()) + fraction_in(d) =~= d);
    reveal_strlit("inf");
    reveal_strlit("infinity");
    reveal_strlit("nan");
    assert(ascii_lower(s)[0] == s[0]);
}

} // verus!
