//! Mode specifications as users write them, and the mode they select.

use crate::refresh::{
    digits_split, exponent_mark, head, number, parse_refresh, point_mark, pow10, quarters,
    refresh_in, tail, unsigned, RefreshHz,
};
use crate::seqs::{first_where, first_where_is, first_where_none};
use crate::text::{
    all_digits, ascii_lower, chars_of, decimal, decimal_reads_back, digits_value, is_digit,
    number_in, padded_decimal, padded_decimal_reads_back, parse_u32, part, trim, trimmed,
    trimmed_fixed,
};
use crate::topology::{mode_text, Mode};
use vstd::prelude::*;

verus! {

/// A user-supplied mode specification like `3840x2160@120` or `3840x2160`.
#[derive(Debug, Clone, Copy, PartialEq, Eq, Structural)]
pub struct ModeSpec {
    pub width: u32,
    pub height: u32,
    pub refresh_hz: Option<RefreshHz>,
}

/// The condition that a character stands before the refresh rate.
pub open spec fn rate_mark() -> spec_fn(char) -> bool {
    |c: char| c == '@'
}

/// The condition that a character stands between width and height.
pub open spec fn by_mark() -> spec_fn(char) -> bool {
    |c: char| c == 'x' || c == 'X'
}

/// The size that `WxH` denotes.
pub open spec fn size_in(s: Seq<char>) -> Option<(nat, nat)> {
    let d = trimmed(s);
    match tail(d, by_mark()) {
        Some(h) => match (
            number_in(trimmed(head(d, by_mark())), u32::MAX as nat),
            number_in(trimmed(h), u32::MAX as nat),
        ) {
            (Some(w), Some(h)) => Some((w, h)),
            _ => None,
        },
        None => None,
    }
}

/// The specification that `WxH` or `WxH@Hz` denotes.
pub open spec fn spec_in(s: Seq<char>) -> Option<ModeSpec> {
    match size_in(head(s, rate_mark())) {
        Some((w, h)) => match tail(s, rate_mark()) {
            Some(t) => match refresh_in(trimmed(t)) {
                Some(r) => Some(
                    ModeSpec { width: w as u32, height: h as u32, refresh_hz: Some(r) },
                ),
                None => None,
            },
            None => Some(ModeSpec { width: w as u32, height: h as u32, refresh_hz: None }),
        },
        None => None,
    }
}

/// Whether a mode has the specified resolution.
pub open spec fn has_size(spec: ModeSpec, m: Mode) -> bool {
    m.width == spec.width && m.height == spec.height
}

/// Four times how far a mode's refresh lies from a requested one.
pub open spec fn distance(m: Mode, want: RefreshHz) -> int {
    match want {
        RefreshHz::Near { quarter_mhz } => {
            let d = 4 * m.refresh_mhz - quarter_mhz;
            if d >= 0 {
                d
            } else {
                -d
            }
        },
        RefreshHz::Unordered => 0,
    }
}

/// Whether a mode suits a specification better than another one: a closer
/// refresh, or a higher one when none was requested.
pub open spec fn better(spec: ModeSpec, a: Mode, b: Mode) -> bool {
    match spec.refresh_hz {
        Some(want) => distance(a, want) < distance(b, want),
        None => a.refresh_mhz > b.refresh_mhz,
    }
}

/// The best mode of the specified resolution; the earlier of equally good ones.
pub open spec fn best_mode(spec: ModeSpec, modes: Seq<Mode>) -> Option<Mode>
    decreases modes.len(),
{
    if modes.len() == 0 {
        None
    } else {
        let m = modes.last();
        match best_mode(spec, modes.drop_last()) {
            Some(b) => Some(
                if has_size(spec, m) && better(spec, m, b) {
                    m
                } else {
                    b
                },
            ),
            None => if has_size(spec, m) {
                Some(m)
            } else {
                None
            },
        }
    }
}

fn mark_at(cs: &Vec<char>, a: char, b: char) -> (r: Option<usize>)
    ensures
        match (r, first_where(cs@, |c: char| c == a || c == b)) {
            (Some(i), Some(want)) => i == want && i < cs.len(),
            (None, None) => true,
            _ => false,
        },
{
    let ghost p = |c: char| c == a || c == b;
    for i in 0..cs.len()
        invariant
            p == (|c: char| c == a || c == b),
            forall|j: int| 0 <= j < i ==> !p(cs@[j]),
    {
        if cs[i] == a || cs[i] == b {
            proof {
                first_where_is(cs@, p, i as int);
            }
            return Some(i);
        }
    }
    proof {
        first_where_none(cs@, p);
    }
    None
}

impl ModeSpec {
    /// Parse `WxH` or `WxH@Hz` (Hz may be fractional).
    pub fn parse(spec: &str) -> (r: Option<Self>)
        ensures
            r == spec_in(spec@),
    {
        let cs = chars_of(spec);
        let at = mark_at(&cs, '@', '@');
        proof {
            assert((|c: char| c == '@' || c == '@') =~= rate_mark());
            assert((|c: char| c == 'x' || c == 'X') =~= by_mark());
        }
        let refresh: Option<RefreshHz> = match at {
            Some(i) => {
                let t = part(&cs, i + 1, cs.len());
                assert(t@ =~= cs@.skip(i + 1));
                match parse_refresh(&trim(&t)) {
                    Some(r) => Some(r),
                    None => {
                        return None;
                    },
                }
            },
            None => None,
        };
        let end: usize = match at {
            Some(i) => i,
            None => cs.len(),
        };
        let dims = part(&cs, 0, end);
        assert(dims@ =~= head(cs@, rate_mark()));
        let d = trim(&dims);
        match mark_at(&d, 'x', 'X') {
            Some(i) => {
                let w = part(&d, 0, i);
                let h = part(&d, i + 1, d.len());
                assert(w@ =~= d@.take(i as int));
                assert(h@ =~= d@.skip(i + 1));
                match (parse_u32(&trim(&w)), parse_u32(&trim(&h))) {
                    (Some(width), Some(height)) => Some(
                        ModeSpec { width, height, refresh_hz: refresh },
                    ),
                    _ => None,
                }
            },
            None => None,
        }
    }

    fn better(&self, a: Mode, b: Mode) -> (r: bool)
        ensures
            r == better(*self, a, b),
    {
        match self.refresh_hz {
            Some(RefreshHz::Near { quarter_mhz }) => {
                let x: i128 = 4 * (a.refresh_mhz as i128) - quarter_mhz as i128;
                let y: i128 = 4 * (b.refresh_mhz as i128) - quarter_mhz as i128;
                let x: i128 = if x >= 0 {
                    x
                } else {
                    -x
                };
                let y: i128 = if y >= 0 {
                    y
                } else {
                    -y
                };
                x < y
            },
            Some(RefreshHz::Unordered) => false,
            None => a.refresh_mhz > b.refresh_mhz,
        }
    }

    /// Pick the best matching mode: exact resolution required, then closest
    /// refresh to the requested one (or the highest refresh if unspecified).
    pub fn best_match(&self, modes: &[Mode]) -> (r: Option<Mode>)
        ensures
            r == best_mode(*self, modes@),
    {
        let mut best: Option<Mode> = None;
        for i in 0..modes.len()
            invariant
                best == best_mode(*self, modes@.take(i as int)),
        {
            assert(modes@.take(i + 1).drop_last() =~= modes@.take(i as int));
            let m = modes[i];
            if m.width == self.width && m.height == self.height {
                best = match best {
                    Some(b) => if self.better(m, b) {
                        Some(m)
                    } else {
                        Some(b)
                    },
                    None => Some(m),
                };
            }
        }
        assert(modes@.take(modes@.len() as int) =~= modes@);
        best
    }
}

/// How far two modes' refresh rates lie apart.
pub open spec fn refresh_gap(a: Mode, b: Mode) -> nat {
    if a.refresh_mhz >= b.refresh_mhz {
        (a.refresh_mhz - b.refresh_mhz) as nat
    } else {
        (b.refresh_mhz - a.refresh_mhz) as nat
    }
}

/// Whether two modes have the same resolution.
pub open spec fn same_size(a: Mode, b: Mode) -> bool {
    a.width == b.width && a.height == b.height
}

/// Where the mode of the wanted resolution with the closest refresh stands; the
/// first of equally close ones.
pub open spec fn closest_at(modes: Seq<Mode>, wanted: Mode) -> Option<int>
    decreases modes.len(),
{
    if modes.len() == 0 {
        None
    } else {
        let m = modes.last();
        let rest = closest_at(modes.drop_last(), wanted);
        if !same_size(m, wanted) {
            rest
        } else {
            match rest {
                Some(i) => if refresh_gap(m, wanted) < refresh_gap(modes[i], wanted) {
                    Some(modes.len() - 1)
                } else {
                    Some(i)
                },
                None => Some(modes.len() - 1),
            }
        }
    }
}

fn gap(a: Mode, b: Mode) -> (r: u32)
    ensures
        r == refresh_gap(a, b),
{
    if a.refresh_mhz >= b.refresh_mhz {
        a.refresh_mhz - b.refresh_mhz
    } else {
        b.refresh_mhz - a.refresh_mhz
    }
}

/// Find the mode of the wanted resolution with the closest refresh.
pub fn closest_mode(modes: &Vec<Mode>, wanted: Mode) -> (r: Option<usize>)
    ensures
        match (r, closest_at(modes@, wanted)) {
            (Some(i), Some(want)) => i == want && i < modes.len(),
            (None, None) => true,
            _ => false,
        },
{
    let mut best: Option<usize> = None;
    for k in 0..modes.len()
        invariant
            match (best, closest_at(modes@.take(k as int), wanted)) {
                (Some(i), Some(want)) => i == want && i < k,
                (None, None) => true,
                _ => false,
            },
    {
        assert(modes@.take(k + 1).drop_last() =~= modes@.take(k as int));
        let m = modes[k];
        if m.width == wanted.width && m.height == wanted.height {
            best = match best {
                Some(i) => if gap(m, wanted) < gap(modes[i], wanted) {
                    Some(k)
                } else {
                    Some(i)
                },
                None => Some(k),
            };
        }
    }
    assert(modes@.take(modes@.len() as int) =~= modes@);
    best
}

// --------------------------------------------------------------------- laws

/// The chosen mode is an advertised one of the specified resolution, no such
/// mode suits better, and one is chosen whenever there is any.
pub proof fn best_mode_is_best(spec: ModeSpec, modes: Seq<Mode>)
    ensures
        match best_mode(spec, modes) {
            Some(m) => {
                &&& exists|i: int| 0 <= i < modes.len() && #[trigger] modes[i] == m
                &&& has_size(spec, m)
                &&& forall|i: int|
                    0 <= i < modes.len() && has_size(spec, #[trigger] modes[i]) ==> !better(
                        spec,
                        modes[i],
                        m,
                    )
            },
            None => forall|i: int| 0 <= i < modes.len() ==> !has_size(spec, #[trigger] modes[i]),
        },
    decreases modes.len(),
{
    if modes.len() > 0 {
        let t = modes.drop_last();
        best_mode_is_best(spec, t);
        assert(forall|i: int| 0 <= i < t.len() ==> t[i] == modes[i]);
        let n = modes.len() - 1;
        assert(modes[n] == modes.last());
        if best_mode(spec, t) is Some {
            let k = choose|i: int| 0 <= i < t.len() && #[trigger] t[i] == best_mode(spec, t)->0;
            assert(modes[k] == best_mode(spec, t)->0);
        }
        assert forall|i: int|
            0 <= i < modes.len() && has_size(spec, #[trigger] modes[i]) implies best_mode(
            spec,
            modes,
        ) is Some && !better(spec, modes[i], best_mode(spec, modes)->0) by {
            if i < n {
                assert(has_size(spec, t[i]));
            }
        }
    }
}

/// The notation of a mode denotes its size and exactly its refresh.
pub proof fn mode_text_reads_back(m: Mode)
    ensures
        spec_in(mode_text(m)) == Some(
            ModeSpec {
                width: m.width,
                height: m.height,
                refresh_hz: Some(RefreshHz::Near { quarter_mhz: (4 * m.refresh_mhz) as i64 }),
            },
        ),
{
    let w = decimal(m.width as nat);
    let h = decimal(m.height as nat);
    let hz = decimal((m.refresh_mhz / 1000) as nat);
    let mhz = padded_decimal((m.refresh_mhz % 1000) as nat, 3);
    decimal_reads_back(m.width as nat);
    decimal_reads_back(m.height as nat);
    decimal_reads_back((m.refresh_mhz / 1000) as nat);
    padded_decimal_reads_back((m.refresh_mhz % 1000) as nat, 3);
    let dims = w + seq!['x'] + h;
    let rest = hz + seq!['.'] + mhz;
    let s = mode_text(m);
    assert(s =~= dims + seq!['@'] + rest);
    let n = dims.len() as int;
    assert forall|j: int| 0 <= j < n implies !rate_mark()(s[j]) by {
        assert(s[j] == dims[j]);
        if j < w.len() {
            assert(is_digit(w[j]));
        } else if j > w.len() {
            assert(is_digit(h[j - w.len() - 1]));
        }
    }
    first_where_is(s, rate_mark(), n);
    assert(s.take(n) =~= dims);
    assert(s.skip(n + 1) =~= rest);
    // The size.
    assert(is_digit(w[0]) && is_digit(h[h.len() - 1]));
    assert(dims[0] == w[0] && dims.last() == h.last());
    trimmed_fixed(dims);
    let x = w.len() as int;
    assert forall|j: int| 0 <= j < x implies !by_mark()(dims[j]) by {
        assert(is_digit(w[j]));
    }
    first_where_is(dims, by_mark(), x);
    assert(dims.take(x) =~= w);
    assert(dims.skip(x + 1) =~= h);
    assert(is_digit(w[w.len() - 1]) && is_digit(h[0]));
    trimmed_fixed(w);
    trimmed_fixed(h);
    // The refresh.
    assert(is_digit(hz[0]) && is_digit(mhz[2]));
    assert(rest[0] == hz[0] && rest.last() == mhz[2]);
    trimmed_fixed(rest);
    fixed_point_reads_back(hz, mhz);
    assert(spec_in(s) == Some(
        ModeSpec {
            width: m.width,
            height: m.height,
            refresh_hz: Some(RefreshHz::Near { quarter_mhz: (4 * m.refresh_mhz) as i64 }),
        },
    ));
}

proof fn fixed_point_reads_back(hz: Seq<char>, mhz: Seq<char>)
    requires
        hz.len() > 0,
        all_digits(hz),
        mhz.len() == 3,
        all_digits(mhz),
        1000 * digits_value(hz) + digits_value(mhz) <= u32::MAX,
    ensures
        refresh_in(hz + seq!['.'] + mhz) == Some(
            RefreshHz::Near {
                quarter_mhz: (4 * (1000 * digits_value(hz) + digits_value(mhz))) as i64,
            },
        ),
{
    let s = hz + seq!['.'] + mhz;
    let n = hz.len() as int;
    assert(is_digit(hz[0]));
    assert(s[0] == hz[0]);
    assert(unsigned(s) == s);
    assert(ascii_lower(s)[0] == s[0]);
    reveal_strlit("inf");
    reveal_strlit("infinity");
    reveal_strlit("nan");
    assert forall|j: int| 0 <= j < s.len() implies !exponent_mark()(s[j]) by {
        if j < n {
            assert(is_digit(hz[j]));
        } else if j > n {
            assert(is_digit(mhz[j - n - 1]));
        }
    }
    first_where_none(s, exponent_mark());
    assert forall|j: int| 0 <= j < n implies !point_mark()(s[j]) by {
        assert(is_digit(hz[j]));
    }
    first_where_is(s, point_mark(), n);
    assert(s.take(n) =~= hz);
    assert(s.skip(n + 1) =~= mhz);
    let digits = hz + mhz;
    assert(all_digits(digits)) by {
        assert forall|i: int| 0 <= i < digits.len() implies is_digit(#[trigger] digits[i]) by {
            if i < n {
                assert(is_digit(hz[i]));
            } else {
                assert(is_digit(mhz[i - n]));
            }
        }
    }
    digits_split(digits, n);
    assert(digits.take(n) =~= hz);
    assert(digits.skip(n) =~= mhz);
    assert(pow10(3) == 1000) by {
        reveal_with_fuel(pow10, 4);
    }
    let d = digits_value(digits);
    assert(d == 1000 * digits_value(hz) + digits_value(mhz)) by {
        let a = digits_value(hz);
        assert(a * 1000 == 1000 * a) by (nonlinear_arith);
    }
    assert(pow10(0) == 1);
    assert(d * 1 == d) by (nonlinear_arith);
    assert(quarters(d, 0) == 4 * d);
    assert(number(s) == Some((d, -3int)));
}

/// A mode that a display advertises is found again from its notation.
pub proof fn advertised_mode_is_found_again(m: Mode, modes: Seq<Mode>)
    requires
        exists|i: int| 0 <= i < modes.len() && #[trigger] modes[i] == m,
    ensures
        spec_in(mode_text(m)) is Some,
        best_mode(spec_in(mode_text(m))->0, modes) == Some(m),
{
    mode_text_reads_back(m);
    let spec = spec_in(mode_text(m))->0;
    best_mode_is_best(spec, modes);
    let i = choose|i: int| 0 <= i < modes.len() && #[trigger] modes[i] == m;
    assert(has_size(spec, modes[i]));
    let b = best_mode(spec, modes)->0;
    assert(!better(spec, modes[i], b));
}

/// The closest mode has the wanted resolution, none of that resolution is
/// closer, and there is one whenever any mode has that resolution.
pub proof fn closest_is_closest(modes: Seq<Mode>, wanted: Mode)
    ensures
        match closest_at(modes, wanted) {
            Some(k) => {
                &&& 0 <= k < modes.len()
                &&& same_size(modes[k], wanted)
                &&& forall|i: int|
                    0 <= i < modes.len() && same_size(#[trigger] modes[i], wanted) ==> refresh_gap(
                        modes[k],
                        wanted,
                    ) <= refresh_gap(modes[i], wanted)
            },
            None => forall|i: int|
                0 <= i < modes.len() ==> !same_size(#[trigger] modes[i], wanted),
        },
    decreases modes.len(),
{
    if modes.len() > 0 {
        let t = modes.drop_last();
        closest_is_closest(t, wanted);
        let n = modes.len() - 1;
        assert(forall|i: int| 0 <= i < t.len() ==> t[i] == modes[i]);
        assert(modes[n] == modes.last());
        assert forall|i: int|
            0 <= i < modes.len() && same_size(#[trigger] modes[i], wanted) implies closest_at(
            modes,
            wanted,
        ) is Some && refresh_gap(modes[closest_at(modes, wanted)->0], wanted) <= refresh_gap(
            modes[i],
            wanted,
        ) by {
            if i < n {
                assert(same_size(t[i], wanted));
            }
        }
    }
}

/// A wanted mode that is offered is chosen exactly.
pub proof fn offered_mode_is_chosen(modes: Seq<Mode>, wanted: Mode)
    requires
        modes.contains(wanted),
    ensures
        closest_at(modes, wanted) is Some,
        modes[closest_at(modes, wanted)->0] == wanted,
{
    closest_is_closest(modes, wanted);
    let i = choose|i: int| 0 <= i < modes.len() && modes[i] == wanted;
    assert(same_size(modes[i], wanted));
}

/// How far two numbers lie apart.
pub open spec fn apart(a: int, b: int) -> int {
    if a >= b {
        a - b
    } else {
        b - a
    }
}

/// The mode chosen for a specification is an advertised one of exactly that width
/// and height. None of these lies closer to the refresh that was asked for, and
/// none is faster where none was asked for. One is chosen whenever there is any.
pub proof fn chosen_mode_suits_best(spec: ModeSpec, modes: Seq<Mode>)
    ensures
        match best_mode(spec, modes) {
            Some(m) => {
                &&& modes.contains(m)
                &&& m.width == spec.width && m.height == spec.height
                &&& forall|i: int|
                    0 <= i < modes.len() && (#[trigger] modes[i]).width == spec.width
                        && modes[i].height == spec.height ==> {
                        &&& spec.refresh_hz is None ==> modes[i].refresh_mhz <= m.refresh_mhz
                        &&& spec.refresh_hz matches Some(RefreshHz::Near { quarter_mhz }) ==> apart(
                            4 * m.refresh_mhz,
                            quarter_mhz as int,
                        ) <= apart(4 * modes[i].refresh_mhz, quarter_mhz as int)
                    }
            },
            None => forall|i: int|
                0 <= i < modes.len() ==> (#[trigger] modes[i]).width != spec.width
                    || modes[i].height != spec.height,
        },
{
    best_mode_is_best(spec, modes);
    if best_mode(spec, modes) is Some {
        let m = best_mode(spec, modes)->0;
        let k = choose|i: int| 0 <= i < modes.len() && #[trigger] modes[i] == m;
        assert(modes[k] == m);
        assert forall|i: int|
            0 <= i < modes.len() && (#[trigger] modes[i]).width == spec.width && modes[i].height
                == spec.height implies {
            &&& spec.refresh_hz is None ==> modes[i].refresh_mhz <= m.refresh_mhz
            &&& spec.refresh_hz matches Some(RefreshHz::Near { quarter_mhz }) ==> apart(
                4 * m.refresh_mhz,
                quarter_mhz as int,
            ) <= apart(4 * modes[i].refresh_mhz, quarter_mhz as int)
        } by {
            assert(has_size(spec, modes[i]));
            assert(!better(spec, modes[i], m));
        }
    } else {
        assert forall|i: int| 0 <= i < modes.len() implies (#[trigger] modes[i]).width != spec.width
            || modes[i].height != spec.height by {
            assert(!has_size(spec, modes[i]));
        }
    }
}

/// The mode that a display server is asked for has exactly the planned width and
/// height, and none of these lies closer to the planned refresh. There is one
/// whenever any mode has that size.
pub proof fn nearest_mode_keeps_the_size(modes: Seq<Mode>, wanted: Mode)
    ensures
        match closest_at(modes, wanted) {
            Some(k) => {
                &&& 0 <= k < modes.len()
                &&& modes[k].width == wanted.width && modes[k].height == wanted.height
                &&& forall|i: int|
                    0 <= i < modes.len() && (#[trigger] modes[i]).width == wanted.width
                        && modes[i].height == wanted.height ==> apart(
                        modes[k].refresh_mhz as int,
                        wanted.refresh_mhz as int,
                    ) <= apart(modes[i].refresh_mhz as int, wanted.refresh_mhz as int)
            },
            None => forall|i: int|
                0 <= i < modes.len() ==> (#[trigger] modes[i]).width != wanted.width
                    || modes[i].height != wanted.height,
        },
{
    closest_is_closest(modes, wanted);
    assert forall|i: int|
        0 <= i < modes.len() && (#[trigger] modes[i]).width == wanted.width && modes[i].height
            == wanted.height implies same_size(modes[i], wanted) by {}
    if closest_at(modes, wanted) is Some {
        let k = closest_at(modes, wanted)->0;
        assert forall|i: int|
            0 <= i < modes.len() && (#[trigger] modes[i]).width == wanted.width && modes[i].height
                == wanted.height implies apart(
            modes[k].refresh_mhz as int,
            wanted.refresh_mhz as int,
        ) <= apart(modes[i].refresh_mhz as int, wanted.refresh_mhz as int) by {
            assert(same_size(modes[i], wanted));
            assert(refresh_gap(modes[k], wanted) <= refresh_gap(modes[i], wanted));
        }
    } else {
        assert forall|i: int| 0 <= i < modes.len() implies (#[trigger] modes[i]).width
            != wanted.width || modes[i].height != wanted.height by {
            assert(!same_size(modes[i], wanted));
        }
    }
}

} // verus!
