//! Text helpers with exact contracts over sequences of characters.

use crate::seqs::{first_where, first_where_is, first_where_none};
use std::hash::BuildHasher;
use vstd::prelude::*;

verus! {

/// `String::push` appends one character.
pub assume_specification[ String::push ](s: &mut String, c: char)
    ensures
        final(s)@ == old(s)@.push(c),
;

/// The characters of `s`, in order.
pub fn chars_of(s: &str) -> (r: Vec<char>)
    ensures
        r@ == s@,
{
    let mut out: Vec<char> = Vec::new();
    for c in it: s.chars()
        invariant
            out@ == s@.take(it.index() as int),
            it.seq() == s@,
    {
        out.push(c);
    }
    out
}

/// The text made of `cs`.
pub fn text_of(cs: &Vec<char>) -> (r: String)
    ensures
        r@ == cs@,
{
    let mut out = String::new();
    for i in 0..cs.len()
        invariant
            out@ == cs@.take(i as int),
    {
        out.push(cs[i]);
        assert(cs@.take(i as int).push(cs@[i as int]) =~= cs@.take(i + 1));
    }
    assert(cs@.take(cs@.len() as int) =~= cs@);
    out
}


/// Whether two texts hold the same characters.
pub fn same_text(a: &str, b: &str) -> (r: bool)
    ensures
        r == (a@ == b@),
{
    let x = chars_of(a);
    let y = chars_of(b);
    same_chars(&x, &y)
}

/// Whether two character vectors are equal.
pub fn same_chars(x: &Vec<char>, y: &Vec<char>) -> (r: bool)
    ensures
        r == (x@ == y@),
{
    if x.len() != y.len() {
        return false;
    }
    for i in 0..x.len()
        invariant
            x.len() == y.len(),
            forall|j: int| 0 <= j < i ==> x@[j] == y@[j],
    {
        if x[i] != y[i] {
            assert(x@[i as int] != y@[i as int]);
            return false;
        }
    }
    assert(x@ =~= y@);
    true
}

/// The characters of `cs` from `from` up to `to`.
pub fn part(cs: &Vec<char>, from: usize, to: usize) -> (r: Vec<char>)
    requires
        from <= to <= cs.len(),
    ensures
        r@ == cs@.subrange(from as int, to as int),
{
    let mut out: Vec<char> = Vec::new();
    for i in from..to
        invariant
            from <= to <= cs.len(),
            out@ == cs@.subrange(from as int, i as int),
    {
        out.push(cs[i]);
        assert(cs@.subrange(from as int, i as int).push(cs@[i as int]) =~= cs@.subrange(
            from as int,
            i + 1,
        ));
    }
    out
}

/// `a` followed by `b`.
pub fn join2(a: &str, b: &str) -> (r: String)
    ensures
        r@ == a@ + b@,
{
    let mut s = a.to_owned();
    s.append(b);
    s
}

/// `a`, `b` and `c` in a row.
pub fn join3(a: &str, b: &str, c: &str) -> (r: String)
    ensures
        r@ == a@ + b@ + c@,
{
    let mut s = a.to_owned();
    s.append(b);
    s.append(c);
    s
}

/// The texts of `parts` with `separator` between neighbours.
pub open spec fn joined(parts: Seq<Seq<char>>, separator: Seq<char>) -> Seq<char>
    decreases parts.len(),
{
    if parts.len() == 0 {
        Seq::empty()
    } else if parts.len() == 1 {
        parts[0]
    } else {
        joined(parts.drop_last(), separator) + separator + parts.last()
    }
}

/// The character contents of a list of texts.
pub open spec fn texts(list: Seq<String>) -> Seq<Seq<char>> {
    list.map_values(|s: String| s@)
}

/// Join a list of texts.
pub fn join_texts(parts: &Vec<String>, separator: &str) -> (r: String)
    ensures
        r@ == joined(texts(parts@), separator@),
{
    let mut out = String::new();
    for i in 0..parts.len()
        invariant
            out@ == joined(texts(parts@).take(i as int), separator@),
    {
        let ghost before = out@;
        if i > 0 {
            out.append(separator);
        }
        out.append(parts[i].as_str());
        proof {
            let t = texts(parts@).take(i + 1);
            assert(t.drop_last() =~= texts(parts@).take(i as int));
            if i == 0 {
                assert(before =~= Seq::<char>::empty());
                assert(out@ =~= t[0]);
            }
        }
    }
    assert(texts(parts@).take(parts@.len() as int) =~= texts(parts@));
    out
}

// ---------------------------------------------------------------- numbers

/// The character of a decimal or hexadecimal digit value.
pub open spec fn digit_char(d: int) -> char {
    if d < 10 {
        (48 + d) as char
    } else {
        (87 + d) as char
    }
}

/// Decimal notation of `n`, without leading zeros.
pub open spec fn decimal(n: nat) -> Seq<char>
    decreases n,
{
    if n < 10 {
        seq![digit_char(n as int)]
    } else {
        decimal(n / 10).push(digit_char((n % 10) as int))
    }
}

/// Decimal notation of a signed number.
pub open spec fn signed_decimal(n: int) -> Seq<char> {
    if n < 0 {
        seq!['-'] + decimal((-n) as nat)
    } else {
        decimal(n as nat)
    }
}

/// Lower-case hexadecimal notation of `n`, without leading zeros.
pub open spec fn hexadecimal(n: nat) -> Seq<char>
    decreases n,
{
    if n < 16 {
        seq![digit_char(n as int)]
    } else {
        hexadecimal(n / 16).push(digit_char((n % 16) as int))
    }
}

/// The `width` lowest decimal digits of `n`, zeros included.
pub open spec fn padded_decimal(n: nat, width: nat) -> Seq<char>
    decreases width,
{
    if width == 0 {
        Seq::empty()
    } else {
        padded_decimal(n / 10, (width - 1) as nat).push(digit_char((n % 10) as int))
    }
}

/// The `width` lowest hexadecimal digits of `n`, zeros included.
pub open spec fn padded_hexadecimal(n: nat, width: nat) -> Seq<char>
    decreases width,
{
    if width == 0 {
        Seq::empty()
    } else {
        padded_hexadecimal(n / 16, (width - 1) as nat).push(digit_char((n % 16) as int))
    }
}

fn digit_of(d: u8) -> (c: char)
    requires
        d < 16,
    ensures
        c == digit_char(d as int),
{
    if d < 10 {
        (48 + d) as char
    } else {
        (87 + d) as char
    }
}

/// Append the decimal notation of `n`.
pub fn push_decimal(out: &mut String, n: u64)
    ensures
        final(out)@ == old(out)@ + decimal(n as nat),
    decreases n,
{
    if n >= 10 {
        push_decimal(out, n / 10);
    }
    out.push(digit_of((n % 10) as u8));
    assert(out@ =~= old(out)@ + decimal(n as nat));
}

/// Decimal notation of `n`.
pub fn decimal_text(n: u64) -> (r: String)
    ensures
        r@ == decimal(n as nat),
{
    let mut out = String::new();
    push_decimal(&mut out, n);
    assert(out@ =~= decimal(n as nat));
    out
}

/// Decimal notation of a signed number.
pub fn signed_decimal_text(n: i64) -> (r: String)
    requires
        n > i64::MIN,
    ensures
        r@ == signed_decimal(n as int),
{
    let mut out = String::new();
    if n < 0 {
        out.push('-');
        push_decimal(&mut out, (-n) as u64);
    } else {
        push_decimal(&mut out, n as u64);
    }
    assert(out@ =~= signed_decimal(n as int));
    out
}

/// Append the lower-case hexadecimal notation of `n`.
pub fn push_hexadecimal(out: &mut String, n: u64)
    ensures
        final(out)@ == old(out)@ + hexadecimal(n as nat),
    decreases n,
{
    if n >= 16 {
        push_hexadecimal(out, n / 16);
    }
    out.push(digit_of((n % 16) as u8));
    assert(out@ =~= old(out)@ + hexadecimal(n as nat));
}

/// Append the `width` lowest decimal digits of `n`.
pub fn push_padded_decimal(out: &mut String, n: u64, width: usize)
    ensures
        final(out)@ == old(out)@ + padded_decimal(n as nat, width as nat),
    decreases width,
{
    if width > 0 {
        push_padded_decimal(out, n / 10, width - 1);
        out.push(digit_of((n % 10) as u8));
    }
    assert(out@ =~= old(out)@ + padded_decimal(n as nat, width as nat));
}

/// Append the `width` lowest hexadecimal digits of `n`.
pub fn push_padded_hexadecimal(out: &mut String, n: u64, width: usize)
    ensures
        final(out)@ == old(out)@ + padded_hexadecimal(n as nat, width as nat),
    decreases width,
{
    if width > 0 {
        push_padded_hexadecimal(out, n / 16, width - 1);
        out.push(digit_of((n % 16) as u8));
    }
    assert(out@ =~= old(out)@ + padded_hexadecimal(n as nat, width as nat));
}

/// Whether `c` is an ASCII decimal digit.
pub open spec fn is_digit(c: char) -> bool {
    '0' <= c <= '9'
}

/// Value of an ASCII decimal digit.
pub open spec fn digit_value(c: char) -> nat {
    (c as int - 48) as nat
}

/// Whether every character is a digit.
pub open spec fn all_digits(s: Seq<char>) -> bool {
    forall|i: int| 0 <= i < s.len() ==> is_digit(#[trigger] s[i])
}

/// Value of a digit string, read from the left.
pub open spec fn digits_value(s: Seq<char>) -> nat
    decreases s.len(),
{
    if s.len() == 0 {
        0
    } else {
        10 * digits_value(s.drop_last()) + digit_value(s.last())
    }
}

/// Decimal notation is a non-empty digit string with the value it denotes.
pub proof fn decimal_reads_back(n: nat)
    ensures
        all_digits(decimal(n)),
        decimal(n).len() > 0,
        digits_value(decimal(n)) == n,
    decreases n,
{
    if n >= 10 {
        decimal_reads_back(n / 10);
        assert(decimal(n).drop_last() =~= decimal(n / 10));
    } else {
        assert(decimal(n).drop_last() =~= Seq::<char>::empty());
        assert(digits_value(decimal(n).drop_last()) == 0);
    }
}

/// Padded decimal notation holds the lowest digits of the number.
pub proof fn padded_decimal_reads_back(n: nat, width: nat)
    ensures
        all_digits(padded_decimal(n, width)),
        padded_decimal(n, width).len() == width,
        width == 3 ==> digits_value(padded_decimal(n, width)) == n % 1000,
        width == 2 ==> digits_value(padded_decimal(n, width)) == n % 100,
        width == 1 ==> digits_value(padded_decimal(n, width)) == n % 10,
        width == 0 ==> digits_value(padded_decimal(n, width)) == 0,
    decreases width,
{
    if width > 0 {
        let w = (width - 1) as nat;
        padded_decimal_reads_back(n / 10, w);
        assert(padded_decimal(n, width).drop_last() =~= padded_decimal(n / 10, w));
    }
}

/// What a decimal number text without a minus sign denotes, if it fits: an
/// optional `+`, then at least one digit.
pub open spec fn number_in(s: Seq<char>, max: nat) -> Option<nat> {
    let body = if s.len() > 0 && s[0] == '+' {
        s.drop_first()
    } else {
        s
    };
    if body.len() > 0 && all_digits(body) && digits_value(body) <= max {
        Some(digits_value(body))
    } else {
        None
    }
}

proof fn digits_value_grows(s: Seq<char>, n: int)
    requires
        0 <= n <= s.len(),
    ensures
        digits_value(s.take(n)) <= digits_value(s),
    decreases s.len() - n,
{
    if n < s.len() {
        digits_value_grows(s, n + 1);
        assert(s.take(n + 1).drop_last() =~= s.take(n));
    } else {
        assert(s.take(n) =~= s);
    }
}

/// Read an unsigned 32-bit number.
pub fn parse_u32(cs: &Vec<char>) -> (r: Option<u32>)
    ensures
        match (r, number_in(cs@, u32::MAX as nat)) {
            (Some(v), Some(n)) => v as nat == n,
            (None, None) => true,
            _ => false,
        },
{
    let start: usize = if cs.len() > 0 && cs[0] == '+' {
        1
    } else {
        0
    };
    let ghost body = cs@.skip(start as int);
    proof {
        if start == 1 {
            assert(body =~= cs@.drop_first());
        } else {
            assert(body =~= cs@);
        }
    }
    if start == cs.len() {
        return None;
    }
    let mut value: u32 = 0;
    let mut i: usize = start;
    while i < cs.len()
        invariant
            start <= i <= cs.len(),
            body == cs@.skip(start as int),
            value as nat == digits_value(body.take(i - start)),
            forall|j: int| 0 <= j < i - start ==> is_digit(#[trigger] body[j]),
            body.len() > 0,
            number_in(cs@, u32::MAX as nat) == (if all_digits(body) && digits_value(body)
                <= u32::MAX {
                Some(digits_value(body))
            } else {
                None
            }),
        decreases cs.len() - i,
    {
        let c = cs[i];
        assert(body[i - start] == c);
        if !(c >= '0' && c <= '9') {
            assert(!is_digit(body[i - start]));
            return None;
        }
        let d: u32 = c as u32 - 48;
        proof {
            assert(body.take(i - start + 1).drop_last() =~= body.take(i - start));
            assert(digits_value(body.take(i - start + 1)) == 10 * value + d);
            digits_value_grows(body, i - start + 1);
        }
        if value > 429496729 || (value == 429496729 && d > 5) {
            return None;
        }
        value = value * 10 + d;
        i = i + 1;
    }
    assert(body.take(body.len() as int) =~= body);
    Some(value)
}

// ---------------------------------------------------------------- trimming

/// Unicode `White_Space`.
pub open spec fn is_white(c: char) -> bool {
    let u = c as u32;
    ||| 0x09 <= u <= 0x0d
    ||| u == 0x20
    ||| u == 0x85
    ||| u == 0xa0
    ||| u == 0x1680
    ||| 0x2000 <= u <= 0x200a
    ||| u == 0x2028
    ||| u == 0x2029
    ||| u == 0x202f
    ||| u == 0x205f
    ||| u == 0x3000
}

/// Whether `c` is Unicode white space.
pub fn white(c: char) -> (r: bool)
    ensures
        r == is_white(c),
{
    let u: u32 = c as u32;
    (0x09 <= u && u <= 0x0d) || u == 0x20 || u == 0x85 || u == 0xa0 || u == 0x1680 || (0x2000 <= u
        && u <= 0x200a) || u == 0x2028 || u == 0x2029 || u == 0x202f || u == 0x205f || u == 0x3000
}

/// `s` without its leading white space.
pub open spec fn trim_start(s: Seq<char>) -> Seq<char>
    decreases s.len(),
{
    if s.len() > 0 && is_white(s[0]) {
        trim_start(s.drop_first())
    } else {
        s
    }
}

/// `s` without its trailing white space.
pub open spec fn trim_end(s: Seq<char>) -> Seq<char>
    decreases s.len(),
{
    if s.len() > 0 && is_white(s.last()) {
        trim_end(s.drop_last())
    } else {
        s
    }
}

/// `s` without white space at either end.
pub open spec fn trimmed(s: Seq<char>) -> Seq<char> {
    trim_end(trim_start(s))
}

/// Text without white space at its ends is its own trimming.
pub proof fn trimmed_fixed(s: Seq<char>)
    requires
        s.len() > 0 ==> !is_white(s[0]) && !is_white(s.last()),
    ensures
        trimmed(s) == s,
{
}

/// Remove white space at both ends.
pub fn trim(cs: &Vec<char>) -> (r: Vec<char>)
    ensures
        r@ == trimmed(cs@),
{
    let n = cs.len();
    let mut lo: usize = 0;
    assert(cs@.skip(0) =~= cs@);
    while lo < n && white(cs[lo])
        invariant
            lo <= n == cs.len(),
            trim_start(cs@) == trim_start(cs@.skip(lo as int)),
        decreases n - lo,
    {
        assert(cs@.skip(lo as int).drop_first() =~= cs@.skip(lo + 1));
        lo = lo + 1;
    }
    let ghost front = cs@.skip(lo as int);
    assert(trim_start(cs@) == front);
    let mut hi: usize = n;
    assert(cs@.subrange(lo as int, hi as int) =~= front);
    while lo < hi && white(cs[hi - 1])
        invariant
            lo <= hi <= n == cs.len(),
            trim_end(front) == trim_end(cs@.subrange(lo as int, hi as int)),
        decreases hi,
    {
        assert(cs@.subrange(lo as int, hi as int).drop_last() =~= cs@.subrange(
            lo as int,
            hi - 1,
        ));
        hi = hi - 1;
    }
    part(cs, lo, hi)
}

/// Remove white space at both ends of a text.
pub fn trim_text(s: &str) -> (r: String)
    ensures
        r@ == trimmed(s@),
{
    text_of(&trim(&chars_of(s)))
}

// ------------------------------------------------------- lines and words

/// The pieces of a text between its line feeds.
pub open spec fn lines(s: Seq<char>) -> Seq<Seq<char>>
    decreases s.len(),
{
    if s.len() == 0 {
        seq![Seq::empty()]
    } else {
        let front = lines(s.drop_last());
        if s.last() == '\n' {
            front.push(Seq::empty())
        } else {
            front.drop_last().push(front.last().push(s.last()))
        }
    }
}

/// The condition that a character is white space.
pub open spec fn white_mark() -> spec_fn(char) -> bool {
    |c: char| is_white(c)
}

/// The characters before the first white space.
pub open spec fn word(s: Seq<char>) -> Seq<char> {
    match first_where(s, white_mark()) {
        Some(i) => s.take(i),
        None => s,
    }
}

/// The second of the words that white space separates; empty when there are
/// fewer than two.
pub open spec fn second_word(s: Seq<char>) -> Seq<char> {
    let a = trim_start(s);
    word(trim_start(a.skip(word(a).len() as int)))
}

fn skip_white(cs: &Vec<char>) -> (r: Vec<char>)
    ensures
        r@ == trim_start(cs@),
{
    let n = cs.len();
    let mut lo: usize = 0;
    assert(cs@.skip(0) =~= cs@);
    while lo < n && white(cs[lo])
        invariant
            lo <= n == cs.len(),
            trim_start(cs@) == trim_start(cs@.skip(lo as int)),
        decreases n - lo,
    {
        assert(cs@.skip(lo as int).drop_first() =~= cs@.skip(lo + 1));
        lo = lo + 1;
    }
    let r = part(cs, lo, n);
    assert(r@ =~= cs@.skip(lo as int));
    r
}

fn word_end(cs: &Vec<char>) -> (r: usize)
    ensures
        r <= cs.len(),
        word(cs@) == cs@.take(r as int),
        r == word(cs@).len(),
{
    for i in 0..cs.len()
        invariant
            forall|j: int| 0 <= j < i ==> !white_mark()(cs@[j]),
    {
        if white(cs[i]) {
            proof {
                first_where_is(cs@, white_mark(), i as int);
            }
            return i;
        }
    }
    proof {
        first_where_none(cs@, white_mark());
        assert(cs@.take(cs@.len() as int) =~= cs@);
    }
    cs.len()
}

/// Whether the second word of some line of `text` is `wanted`.
pub open spec fn line_lists(text: Seq<char>, wanted: Seq<char>) -> bool {
    exists|i: int|
        0 <= i < lines(text).len() && second_word(#[trigger] lines(text)[i]) == wanted
}

/// Split a text into its lines.
pub fn split_lines(text: &str) -> (r: Vec<Vec<char>>)
    ensures
        r@.len() == lines(text@).len(),
        forall|i: int| 0 <= i < r@.len() ==> (#[trigger] r@[i])@ == lines(text@)[i],
{
    let cs = chars_of(text);
    let mut done: Vec<Vec<char>> = Vec::new();
    let mut current: Vec<char> = Vec::new();
    for i in 0..cs.len()
        invariant
            cs@ == text@,
            done@.len() + 1 == lines(cs@.take(i as int)).len(),
            current@ == lines(cs@.take(i as int)).last(),
            forall|j: int|
                0 <= j < done@.len() ==> (#[trigger] done@[j])@ == lines(cs@.take(i as int))[j],
    {
        assert(cs@.take(i + 1).drop_last() =~= cs@.take(i as int));
        if cs[i] == '\n' {
            done.push(current);
            current = Vec::new();
        } else {
            current.push(cs[i]);
        }
    }
    assert(cs@.take(cs@.len() as int) =~= text@);
    done.push(current);
    done
}

/// Whether the second word of some line of `text` is `wanted`.
pub fn lists_in_second_column(text: &str, wanted: &str) -> (r: bool)
    ensures
        r == (wanted@.len() > 0 && line_lists(text@, wanted@)),
{
    let want = chars_of(wanted);
    if want.len() == 0 {
        return false;
    }
    let all = split_lines(text);
    for i in 0..all.len()
        invariant
            want@ == wanted@,
            want@.len() > 0,
            all@.len() == lines(text@).len(),
            forall|j: int| 0 <= j < all@.len() ==> (#[trigger] all@[j])@ == lines(text@)[j],
            forall|j: int| 0 <= j < i ==> second_word(#[trigger] lines(text@)[j]) != wanted@,
    {
        let a = skip_white(&all[i]);
        let end = word_end(&a);
        let rest = part(&a, end, a.len());
        assert(rest@ =~= a@.skip(end as int));
        let b = skip_white(&rest);
        let stop = word_end(&b);
        let second = part(&b, 0, stop);
        assert(second@ =~= b@.take(stop as int));
        assert(second@ == second_word(lines(text@)[i as int]));
        if same_chars(&second, &want) {
            return true;
        }
    }
    false
}

// ---------------------------------------------------------------- searching

/// Whether `s` begins with `prefix`.
pub open spec fn begins_with(s: Seq<char>, prefix: Seq<char>) -> bool {
    prefix.len() <= s.len() && s.take(prefix.len() as int) == prefix
}

/// Whether `needle` occurs in `s` at `at`.
pub open spec fn occurs_at(s: Seq<char>, needle: Seq<char>, at: int) -> bool {
    0 <= at && at + needle.len() <= s.len() && s.subrange(at, at + needle.len()) == needle
}

/// Whether `needle` occurs in `s`.
pub open spec fn occurs_in(s: Seq<char>, needle: Seq<char>) -> bool {
    exists|at: int| occurs_at(s, needle, at)
}

fn equal_at(s: &Vec<char>, needle: &Vec<char>, at: usize) -> (r: bool)
    requires
        at + needle.len() <= s.len(),
    ensures
        r == occurs_at(s@, needle@, at as int),
{
    for i in 0..needle.len()
        invariant
            at + needle.len() <= s.len(),
            forall|j: int| 0 <= j < i ==> s@[at + j] == needle@[j],
    {
        if s[at + i] != needle[i] {
            assert(s@.subrange(at as int, at + needle@.len())[i as int] != needle@[i as int]);
            return false;
        }
    }
    assert(s@.subrange(at as int, at + needle@.len()) =~= needle@);
    true
}

/// Whether `s` begins with `prefix`.
pub fn starts_with(s: &Vec<char>, prefix: &Vec<char>) -> (r: bool)
    ensures
        r == begins_with(s@, prefix@),
{
    if prefix.len() > s.len() {
        return false;
    }
    assert(s@.subrange(0, prefix@.len() as int) =~= s@.take(prefix@.len() as int));
    equal_at(s, prefix, 0)
}

/// What follows `prefix` in `s`, if `s` begins with it.
pub fn strip_prefix(s: &str, prefix: &str) -> (r: Option<String>)
    ensures
        match r {
            Some(rest) => begins_with(s@, prefix@) && rest@ == s@.skip(prefix@.len() as int),
            None => !begins_with(s@, prefix@),
        },
{
    let cs = chars_of(s);
    let ps = chars_of(prefix);
    if starts_with(&cs, &ps) {
        let rest = part(&cs, ps.len(), cs.len());
        assert(rest@ =~= s@.skip(prefix@.len() as int));
        Some(text_of(&rest))
    } else {
        None
    }
}

/// Whether `needle` occurs in `s`.
pub fn contains(s: &str, needle: &str) -> (r: bool)
    ensures
        r == occurs_in(s@, needle@),
{
    let cs = chars_of(s);
    let ns = chars_of(needle);
    if ns.len() > cs.len() {
        return false;
    }
    let last = cs.len() - ns.len();
    let mut at: usize = 0;
    while at <= last
        invariant
            last == cs.len() - ns.len(),
            at <= last + 1,
            cs@ == s@,
            ns@ == needle@,
            forall|k: int| 0 <= k < at ==> !occurs_at(s@, needle@, k),
        decreases last + 1 - at,
    {
        if equal_at(&cs, &ns, at) {
            return true;
        }
        if at == last {
            return false;
        }
        at = at + 1;
    }
    false
}

// ---------------------------------------------------------------- ASCII case

/// ASCII lower case of one character.
pub open spec fn ascii_lower_char(c: char) -> char {
    if 'A' <= c <= 'Z' {
        (c as u8 + 32) as char
    } else {
        c
    }
}

/// ASCII lower case of a text.
pub open spec fn ascii_lower(s: Seq<char>) -> Seq<char> {
    s.map_values(|c: char| ascii_lower_char(c))
}

/// ASCII lower case of a text.
pub fn to_ascii_lower(s: &str) -> (r: Vec<char>)
    ensures
        r@ == ascii_lower(s@),
{
    let cs = chars_of(s);
    let mut out: Vec<char> = Vec::new();
    for i in 0..cs.len()
        invariant
            out.len() == i,
            forall|j: int| 0 <= j < i ==> out@[j] == ascii_lower_char(cs@[j]),
    {
        let c = cs[i];
        if c >= 'A' && c <= 'Z' {
            out.push((c as u8 + 32) as char);
        } else {
            out.push(c);
        }
    }
    assert(out@ =~= ascii_lower(s@));
    out
}

/// Whether two texts agree up to ASCII case.
pub fn same_ignoring_ascii_case(a: &str, b: &str) -> (r: bool)
    ensures
        r == (ascii_lower(a@) == ascii_lower(b@)),
{
    same_chars(&to_ascii_lower(a), &to_ascii_lower(b))
}

// ------------------------------------------------------------------- order

/// Whether a text comes before another one in the order of their characters.
pub open spec fn text_before(a: Seq<char>, b: Seq<char>) -> bool
    decreases a.len(),
{
    if b.len() == 0 {
        false
    } else if a.len() == 0 {
        true
    } else if a[0] != b[0] {
        a[0] < b[0]
    } else {
        text_before(a.drop_first(), b.drop_first())
    }
}

/// Whether a text comes before another one.
pub fn comes_before(a: &str, b: &str) -> (r: bool)
    ensures
        r == text_before(a@, b@),
{
    let x = chars_of(a);
    let y = chars_of(b);
    let mut i: usize = 0;
    assert(x@.skip(0) =~= x@ && y@.skip(0) =~= y@);
    while i < x.len() && i < y.len() && x[i] == y[i]
        invariant
            i <= x.len(),
            i <= y.len(),
            text_before(x@, y@) == text_before(x@.skip(i as int), y@.skip(i as int)),
        decreases x.len() - i,
    {
        assert(x@.skip(i as int).drop_first() =~= x@.skip(i + 1));
        assert(y@.skip(i as int).drop_first() =~= y@.skip(i + 1));
        i = i + 1;
    }
    if i == y.len() {
        false
    } else if i == x.len() {
        true
    } else {
        x[i] < y[i]
    }
}

/// No text comes before itself, and of two different texts exactly one comes
/// before the other.
pub proof fn text_order_is_total(a: Seq<char>, b: Seq<char>)
    ensures
        !text_before(a, a),
        a != b ==> text_before(a, b) != text_before(b, a),
    decreases a.len(),
{
    if a.len() > 0 && b.len() > 0 {
        text_order_is_total(a.drop_first(), b.drop_first());
        if a[0] != b[0] {
            assert(a[0] < b[0] || b[0] < a[0]);
        } else if a.drop_first() == b.drop_first() {
            assert(a =~= seq![a[0]] + a.drop_first());
            assert(b =~= seq![b[0]] + b.drop_first());
            assert(a == b);
        } else {
            assert(text_before(a, b) == text_before(a.drop_first(), b.drop_first()));
            assert(text_before(b, a) == text_before(b.drop_first(), a.drop_first()));
        }
    } else if a.len() > 0 {
        text_order_is_total(a.drop_first(), b);
        assert(text_before(b, a));
    } else if b.len() > 0 {
        assert(text_before(a, b));
        assert(!text_before(b, a));
    } else {
        assert(a =~= b);
    }
}

/// The text order is transitive.
pub proof fn text_order_is_transitive(a: Seq<char>, b: Seq<char>, c: Seq<char>)
    requires
        text_before(a, b),
        text_before(b, c),
    ensures
        text_before(a, c),
    decreases a.len(),
{
    if a.len() > 0 && b.len() > 0 && c.len() > 0 && a[0] == b[0] && b[0] == c[0] {
        text_order_is_transitive(a.drop_first(), b.drop_first(), c.drop_first());
    }
}

// ---------------------------------------------------------------- decoding

/// The text that `String::from_utf8_lossy` reads from bytes.
pub uninterp spec fn utf8_text(bytes: Seq<u8>) -> Seq<char>;

/// `String::from_utf8_lossy`: the text is a function of the bytes alone, named
/// [`utf8_text`]; valid UTF-8 is decoded unchanged. How invalid bytes are
/// replaced is not claimed.
#[verifier::external_body]
fn from_utf8_lossy(bytes: &[u8]) -> (r: String)
    ensures
        r@ == utf8_text(bytes@),
        vstd::utf8::valid_utf8(bytes@) ==> r@ == vstd::utf8::decode_utf8(bytes@),
{
    String::from_utf8_lossy(bytes).into_owned()
}

/// Decode bytes that should be UTF-8; invalid ones are replaced.
pub fn decode(bytes: &[u8]) -> (r: String)
    ensures
        r@ == utf8_text(bytes@),
        vstd::utf8::valid_utf8(bytes@) ==> r@ == vstd::utf8::decode_utf8(bytes@),
{
    from_utf8_lossy(bytes)
}

/// The text that `String::from_utf16_lossy` reads from UTF-16 units.
pub uninterp spec fn utf16_text(units: Seq<u16>) -> Seq<char>;

/// `String::from_utf16_lossy`: the text is a function of the units alone, named
/// [`utf16_text`]; nothing else is claimed of it.
#[verifier::external_body]
fn from_utf16_lossy(units: &[u16]) -> (r: String)
    ensures
        r@ == utf16_text(units@),
{
    String::from_utf16_lossy(units)
}

/// The condition that a UTF-16 unit ends a text.
pub open spec fn nul_mark() -> spec_fn(u16) -> bool {
    |u: u16| u == 0
}

/// The units before the first zero.
pub open spec fn before_nul(units: Seq<u16>) -> Seq<u16> {
    match first_where(units, nul_mark()) {
        Some(i) => units.take(i),
        None => units,
    }
}

/// The units before the first zero.
pub fn until_nul(units: &Vec<u16>) -> (r: Vec<u16>)
    ensures
        r@ == before_nul(units@),
{
    let mut out: Vec<u16> = Vec::new();
    for i in 0..units.len()
        invariant
            out@ == units@.take(i as int),
            forall|j: int| 0 <= j < i ==> !nul_mark()(units@[j]),
    {
        if units[i] == 0 {
            proof {
                first_where_is(units@, nul_mark(), i as int);
            }
            return out;
        }
        out.push(units[i]);
        assert(units@.take(i as int).push(units@[i as int]) =~= units@.take(i + 1));
    }
    proof {
        first_where_none(units@, nul_mark());
        assert(units@.take(units@.len() as int) =~= units@);
    }
    out
}

/// Decode a zero-terminated UTF-16 buffer.
pub fn utf16_str(units: &Vec<u16>) -> (r: String)
    ensures
        r@ == utf16_text(before_nul(units@)),
{
    from_utf16_lossy(until_nul(units).as_slice())
}

/// The parts of a text between the occurrences of a character.
pub open spec fn fields(s: Seq<char>, mark: char) -> Seq<Seq<char>>
    decreases s.len(),
{
    if s.len() == 0 {
        seq![Seq::<char>::empty()]
    } else {
        let before = fields(s.drop_last(), mark);
        if s.last() == mark {
            before.push(Seq::empty())
        } else {
            before.drop_last().push(before.last().push(s.last()))
        }
    }
}

/// The parts of a text between the occurrences of a character.
pub fn split_fields(s: &str, mark: char) -> (r: Vec<String>)
    ensures
        texts(r@) == fields(s@, mark),
        r@.len() > 0,
{
    let cs = chars_of(s);
    let mut done: Vec<String> = Vec::new();
    let mut part = String::new();
    proof {
        assert(cs@.take(0) =~= Seq::<char>::empty());
        assert(texts(done@).push(part@) =~= fields(cs@.take(0), mark));
    }
    for i in 0..cs.len()
        invariant
            cs@ == s@,
            texts(done@).push(part@) == fields(cs@.take(i as int), mark),
    {
        let ghost before = texts(done@);
        let ghost last = part@;
        assert(cs@.take(i + 1).drop_last() =~= cs@.take(i as int));
        assert(before.push(last).drop_last() =~= before);
        if cs[i] == mark {
            done.push(part);
            part = String::new();
            assert(texts(done@) =~= before.push(last));
            assert(part@ =~= Seq::<char>::empty());
        } else {
            part.push(cs[i]);
        }
        assert(texts(done@).push(part@) =~= fields(cs@.take(i + 1), mark));
    }
    assert(cs@.take(cs@.len() as int) =~= cs@);
    let ghost before = texts(done@);
    let ghost last = part@;
    done.push(part);
    assert(texts(done@) =~= before.push(last));
    done
}

/// The hash of a text that [`hash_text`] computes.
pub uninterp spec fn text_hash(text: Seq<char>) -> u64;

/// `BuildHasher::hash_one` with the default-keyed `DefaultHasher`: the hash is a
/// function of the text alone, named [`text_hash`].
#[verifier::external_body]
pub(crate) fn hash_text(text: &str) -> (r: u64)
    ensures
        r == text_hash(text@),
{
    std::hash::BuildHasherDefault::<std::collections::hash_map::DefaultHasher>::default().hash_one(
        text,
    )
}

/// Trimming takes away all white space at both ends and nothing else.
pub proof fn trimming_takes_the_white_ends(s: Seq<char>) -> (kept: (int, int))
    ensures
        0 <= kept.0 <= kept.1 <= s.len(),
        trimmed(s) == s.subrange(kept.0, kept.1),
        forall|i: int| 0 <= i < kept.0 ==> is_white(#[trigger] s[i]),
        forall|i: int| kept.1 <= i < s.len() ==> is_white(#[trigger] s[i]),
        kept.0 < kept.1 ==> !is_white(s[kept.0]) && !is_white(s[kept.1 - 1]),
{
    let a = white_start(s);
    let t = trim_start(s);
    let n = white_end(t);
    assert forall|i: int| a + n <= i < s.len() implies is_white(#[trigger] s[i]) by {
        assert(t[i - a] == s[i]);
    }
    assert(trimmed(s) =~= s.subrange(a, a + n));
    if n > 0 {
        assert(t[0] == s[a]);
        assert(t[n - 1] == s[a + n - 1]);
    }
    (a, a + n)
}

proof fn white_start(s: Seq<char>) -> (a: int)
    ensures
        0 <= a <= s.len(),
        trim_start(s) == s.skip(a),
        forall|i: int| 0 <= i < a ==> is_white(#[trigger] s[i]),
        a < s.len() ==> !is_white(s[a]),
    decreases s.len(),
{
    if s.len() > 0 && is_white(s[0]) {
        let t = s.drop_first();
        let b = white_start(t);
        assert(t.skip(b) =~= s.skip(b + 1));
        assert forall|i: int| 0 <= i < b + 1 implies is_white(#[trigger] s[i]) by {
            if i > 0 {
                assert(t[i - 1] == s[i]);
            }
        }
        if b < t.len() {
            assert(t[b] == s[b + 1]);
        }
        b + 1
    } else {
        assert(s.skip(0) =~= s);
        0
    }
}

proof fn white_end(s: Seq<char>) -> (n: int)
    ensures
        0 <= n <= s.len(),
        trim_end(s) == s.take(n),
        forall|i: int| n <= i < s.len() ==> is_white(#[trigger] s[i]),
        n > 0 ==> !is_white(s[n - 1]),
    decreases s.len(),
{
    if s.len() > 0 && is_white(s.last()) {
        let t = s.drop_last();
        let m = white_end(t);
        assert(t.take(m) =~= s.take(m));
        assert forall|i: int| m <= i < s.len() implies is_white(#[trigger] s[i]) by {
            if i < t.len() {
                assert(t[i] == s[i]);
            }
        }
        m
    } else {
        assert(s.take(s.len() as int) =~= s);
        s.len() as int
    }
}

/// Fields hold no mark, and joined by the mark they are the text again.
pub proof fn fields_join_to_the_text(s: Seq<char>, mark: char)
    ensures
        fields(s, mark).len() > 0,
        joined(fields(s, mark), seq![mark]) == s,
        forall|i: int, j: int|
            0 <= i < fields(s, mark).len() && 0 <= j < fields(s, mark)[i].len()
                ==> #[trigger] fields(s, mark)[i][j] != mark,
    decreases s.len(),
{
    if s.len() > 0 {
        let t = s.drop_last();
        fields_join_to_the_text(t, mark);
        let before = fields(t, mark);
        let now = fields(s, mark);
        if s.last() == mark {
            assert(now.drop_last() =~= before);
            assert(joined(now, seq![mark]) == joined(before, seq![mark]) + seq![mark]
                + Seq::<char>::empty());
            assert(t + seq![mark] + Seq::<char>::empty() =~= s);
        } else {
            let last = before.last().push(s.last());
            assert(now.last() == last);
            assert(now.drop_last() =~= before.drop_last());
            if before.len() == 1 {
                assert(joined(before, seq![mark]) == before[0]);
                assert(before[0].push(s.last()) =~= s);
            } else {
                let front = joined(before.drop_last(), seq![mark]);
                assert(joined(before, seq![mark]) == front + seq![mark] + before.last());
                assert(front + seq![mark] + last =~= t.push(s.last()));
                assert(t.push(s.last()) =~= s);
            }
        }
        assert forall|i: int, j: int|
            0 <= i < now.len() && 0 <= j < now[i].len() implies #[trigger] now[i][j] != mark by {
            if i < now.len() - 1 {
                assert(now[i] == before[i]);
            } else if s.last() != mark {
                assert(now[i] == before.last().push(s.last()));
                if j < before.last().len() {
                    assert(before[before.len() - 1][j] != mark);
                }
            }
        }
    }
}

/// Lines are the fields between line feeds.
pub proof fn lines_end_at_line_feeds(s: Seq<char>)
    ensures
        lines(s) == fields(s, '\n'),
        joined(lines(s), seq!['\n']) == s,
    decreases s.len(),
{
    if s.len() > 0 {
        lines_end_at_line_feeds(s.drop_last());
    }
    fields_join_to_the_text(s, '\n');
}

/// Whether a text is without white space.
pub open spec fn solid(s: Seq<char>) -> bool {
    forall|i: int| 0 <= i < s.len() ==> !is_white(#[trigger] s[i])
}

/// Whether a text is nothing but white space.
pub open spec fn blank(s: Seq<char>) -> bool {
    forall|i: int| 0 <= i < s.len() ==> is_white(#[trigger] s[i])
}

proof fn blank_start_is_trimmed(blanks: Seq<char>, rest: Seq<char>)
    requires
        blank(blanks),
        rest.len() == 0 || !is_white(rest[0]),
    ensures
        trim_start(blanks + rest) == rest,
    decreases blanks.len(),
{
    let s = blanks + rest;
    if blanks.len() > 0 {
        assert(s[0] == blanks[0]);
        let fewer = blanks.drop_first();
        assert forall|i: int| 0 <= i < fewer.len() implies is_white(#[trigger] fewer[i]) by {
            assert(fewer[i] == blanks[i + 1]);
        }
        assert(s.drop_first() =~= fewer + rest);
        blank_start_is_trimmed(fewer, rest);
    } else {
        assert(s =~= rest);
    }
}

proof fn word_ends_at_white(w: Seq<char>, rest: Seq<char>)
    requires
        solid(w),
        rest.len() == 0 || is_white(rest[0]),
    ensures
        word(w + rest) == w,
{
    let s = w + rest;
    assert forall|i: int| 0 <= i < w.len() implies !white_mark()(s[i]) by {
        assert(s[i] == w[i]);
    }
    if rest.len() > 0 {
        assert(s[w.len() as int] == rest[0]);
        first_where_is(s, white_mark(), w.len() as int);
        assert(s.take(w.len() as int) =~= w);
    } else {
        assert(s =~= w);
        first_where_none(s, white_mark());
    }
}

/// The second word of a text is the one behind the first white space that follows a word.
pub proof fn second_word_follows_the_first(
    indent: Seq<char>,
    a: Seq<char>,
    between: Seq<char>,
    b: Seq<char>,
    rest: Seq<char>,
)
    requires
        blank(indent),
        solid(a) && a.len() > 0,
        blank(between) && between.len() > 0,
        solid(b) && b.len() > 0,
        rest.len() == 0 || is_white(rest[0]),
    ensures
        second_word(indent + a + between + b + rest) == b,
{
    let tail = between + b + rest;
    let s = indent + a + between + b + rest;
    assert((a + tail)[0] == a[0]);
    assert(s =~= indent + (a + tail));
    blank_start_is_trimmed(indent, a + tail);
    assert(tail[0] == between[0]);
    word_ends_at_white(a, tail);
    assert((a + tail).skip(a.len() as int) =~= tail);
    assert((b + rest)[0] == b[0]);
    assert(tail =~= between + (b + rest));
    blank_start_is_trimmed(between, b + rest);
    word_ends_at_white(b, rest);
}

/// A text occurs in another exactly if the other is made of it and what stands around it.
pub proof fn occurrences_are_parts(
    s: Seq<char>,
    needle: Seq<char>,
    before: Seq<char>,
    after: Seq<char>,
)
    ensures
        occurs_in(before + needle + after, needle),
        begins_with(needle + after, needle),
        occurs_in(s, needle) ==> exists|at: int|
            0 <= at && at + needle.len() <= s.len() && #[trigger] s.take(at) + needle + s.skip(
                at + needle.len(),
            ) == s,
{
    let whole = before + needle + after;
    let n = before.len() as int;
    assert(whole.subrange(n, n + needle.len()) =~= needle);
    assert(occurs_at(whole, needle, n));
    assert((needle + after).take(needle.len() as int) =~= needle);
    if occurs_in(s, needle) {
        let at = choose|at: int| occurs_at(s, needle, at);
        assert(s.take(at) + s.subrange(at, at + needle.len()) + s.skip(at + needle.len()) =~= s);
    }
}

/// Texts are ordered by the first character in which they differ; a text stands before
/// every longer one that begins with it.
pub proof fn first_difference_decides(a: Seq<char>, b: Seq<char>, k: int)
    requires
        0 <= k <= a.len(),
        k <= b.len(),
        forall|i: int| 0 <= i < k ==> #[trigger] a[i] == b[i],
    ensures
        k < a.len() && k < b.len() && a[k] < b[k] ==> text_before(a, b) && !text_before(b, a),
        k == a.len() && k < b.len() ==> text_before(a, b) && !text_before(b, a),
        k == a.len() && k == b.len() ==> !text_before(a, b) && !text_before(b, a),
    decreases k,
{
    if k > 0 {
        let s = a.drop_first();
        let t = b.drop_first();
        assert forall|i: int| 0 <= i < k - 1 implies #[trigger] s[i] == t[i] by {
            assert(a[i + 1] == b[i + 1]);
        }
        assert(a[0] == b[0]);
        first_difference_decides(s, t, k - 1);
        if k < a.len() {
            assert(s[k - 1] == a[k]);
        }
        if k < b.len() {
            assert(t[k - 1] == b[k]);
        }
    }
}

/// A number within the limit is read back from its digits, also behind a plus sign; a text
/// with any other character in it is no number.
pub proof fn numbers_are_read_back(n: nat, max: nat, s: Seq<char>, i: int)
    ensures
        n <= max ==> number_in(decimal(n), max) == Some(n),
        n <= max ==> number_in(seq!['+'] + decimal(n), max) == Some(n),
        n > max ==> number_in(decimal(n), max) is None,
        number_in(s, max) matches Some(v) ==> v <= max,
        0 < i < s.len() && !('0' <= s[i] <= '9') ==> number_in(s, max) is None,
        s.len() == 0 ==> number_in(s, max) is None,
{
    decimal_reads_back(n);
    let d = decimal(n);
    assert(d.len() > 0);
    assert(is_digit(d[0]));
    assert((seq!['+'] + d).drop_first() =~= d);
    if 0 < i < s.len() && !is_digit(s[i]) {
        if s[0] == '+' {
            assert(s.drop_first()[i - 1] == s[i]);
        }
    }
}

/// Two codes with the same hexadecimal digits are the same.
pub proof fn hexadecimal_digits_tell_codes_apart(a: nat, b: nat, width: nat)
    requires
        padded_hexadecimal(a, width) == padded_hexadecimal(b, width),
    ensures
        padded_hexadecimal(a, width).len() == width,
        width == 4 && a < 65536 && b < 65536 ==> a == b,
{
    reveal_with_fuel(padded_hexadecimal, 5);
    hexadecimal_width(a, width);
    if width == 4 && a < 65536 && b < 65536 {
        let s = padded_hexadecimal(a, 4);
        let t = padded_hexadecimal(b, 4);
        assert(s[3] == digit_char((a % 16) as int));
        assert(t[3] == digit_char((b % 16) as int));
        assert(s[2] == digit_char((a / 16 % 16) as int));
        assert(t[2] == digit_char((b / 16 % 16) as int));
        assert(s[1] == digit_char((a / 16 / 16 % 16) as int));
        assert(t[1] == digit_char((b / 16 / 16 % 16) as int));
        assert(s[0] == digit_char((a / 16 / 16 / 16 % 16) as int));
        assert(t[0] == digit_char((b / 16 / 16 / 16 % 16) as int));
    }
}

proof fn hexadecimal_width(n: nat, width: nat)
    ensures
        padded_hexadecimal(n, width).len() == width,
    decreases width,
{
    if width > 0 {
        hexadecimal_width(n / 16, (width - 1) as nat);
    }
}

/// Digits are those of the usual notation.
pub proof fn digits_are_the_usual_ones(d: int)
    requires
        0 <= d < 16,
    ensures
        d < 10 ==> digit_char(d) as int - '0' as int == d,
        d >= 10 ==> digit_char(d) as int - 'a' as int == d - 10,
{
}

/// Only the capital letters of ASCII change, each into its small one.
pub proof fn only_capitals_become_small(s: Seq<char>, i: int)
    requires
        0 <= i < s.len(),
    ensures
        ascii_lower(s).len() == s.len(),
        'A' <= s[i] <= 'Z' ==> ascii_lower(s)[i] as int == s[i] as int + 32,
        !('A' <= s[i] <= 'Z') ==> ascii_lower(s)[i] == s[i],
        ascii_lower(ascii_lower(s)) == ascii_lower(s),
{
    assert(ascii_lower(ascii_lower(s)) =~= ascii_lower(s));
}

/// A text ends before its first null.
pub proof fn text_ends_before_the_first_null(units: Seq<u16>, rest: Seq<u16>)
    requires
        forall|i: int| 0 <= i < units.len() ==> #[trigger] units[i] != 0,
    ensures
        before_nul(units) == units,
        before_nul(units + seq![0u16] + rest) == units,
{
    first_where_none(units, nul_mark());
    let all = units + seq![0u16] + rest;
    let n = units.len() as int;
    assert(all[n] == 0);
    assert forall|i: int| 0 <= i < n implies !nul_mark()(all[i]) by {
        assert(all[i] == units[i]);
    }
    first_where_is(all, nul_mark(), n);
    assert(all.take(n) =~= units);
}

/// A text with a mark in it has the fields before the mark and those behind it.
pub proof fn fields_part_at_a_mark(x: Seq<char>, y: Seq<char>, mark: char)
    ensures
        fields(x + seq![mark] + y, mark) == fields(x, mark) + fields(y, mark),
    decreases y.len(),
{
    let s = x + seq![mark] + y;
    fields_join_to_the_text(x, mark);
    fields_join_to_the_text(y, mark);
    if y.len() == 0 {
        assert(s.drop_last() =~= x);
        assert(fields(s, mark) =~= fields(x, mark) + fields(y, mark));
    } else {
        let z = y.drop_last();
        assert(s.drop_last() =~= x + seq![mark] + z);
        fields_part_at_a_mark(x, z, mark);
        fields_join_to_the_text(z, mark);
        assert(s.last() == y.last());
        assert(fields(s, mark) =~= fields(x, mark) + fields(y, mark));
    }
}

/// A text without a mark is a single field.
pub proof fn text_without_a_mark_is_one_field(s: Seq<char>, mark: char)
    requires
        forall|i: int| 0 <= i < s.len() ==> #[trigger] s[i] != mark,
    ensures
        fields(s, mark) == seq![s],
    decreases s.len(),
{
    if s.len() > 0 {
        let t = s.drop_last();
        assert forall|i: int| 0 <= i < t.len() implies #[trigger] t[i] != mark by {
            assert(t[i] == s[i]);
        }
        text_without_a_mark_is_one_field(t, mark);
        assert(t.push(s.last()) =~= s);
        assert(fields(s, mark) =~= seq![s]);
    } else {
        assert(s =~= Seq::<char>::empty());
    }
}

/// Numbers with the same notation are the same.
pub proof fn notations_tell_numbers_apart(a: int, b: int)
    requires
        signed_decimal(a) == signed_decimal(b),
    ensures
        a == b,
        forall|i: int|
            0 <= i < signed_decimal(a).len() ==> (#[trigger] signed_decimal(a)[i] == '-' || '0'
                <= signed_decimal(a)[i] <= '9'),
{
    let x = if a < 0 {
        -a
    } else {
        a
    };
    let y = if b < 0 {
        -b
    } else {
        b
    };
    decimal_reads_back(x as nat);
    decimal_reads_back(y as nat);
    assert(is_digit(decimal(x as nat)[0]));
    assert(is_digit(decimal(y as nat)[0]));
    if a < 0 {
        assert(signed_decimal(a)[0] == '-');
        assert(signed_decimal(a).skip(1) =~= decimal(x as nat));
        assert forall|i: int| 0 <= i < signed_decimal(a).len() implies (#[trigger] signed_decimal(
            a,
        )[i] == '-' || '0' <= signed_decimal(a)[i] <= '9') by {
            if i > 0 {
                assert(is_digit(decimal(x as nat)[i - 1]));
            }
        }
    } else {
        assert forall|i: int| 0 <= i < signed_decimal(a).len() implies (#[trigger] signed_decimal(
            a,
        )[i] == '-' || '0' <= signed_decimal(a)[i] <= '9') by {
            assert(is_digit(decimal(x as nat)[i]));
        }
    }
    if b < 0 {
        assert(signed_decimal(b)[0] == '-');
        assert(signed_decimal(b).skip(1) =~= decimal(y as nat));
    }
}

} // verus!
