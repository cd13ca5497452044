//! Minimal EDID blob parsing: exactly the identity triple NoSignal needs
//! (PNP vendor id, product code, serial), preferring the monitor descriptor
//! serial *string* over the numeric serial when present: that is what
//! compositors expose and what survives across ports.

use crate::identity::EdidId;
use crate::text::{
    decimal, decimal_text, hexadecimal_digits_tell_codes_apart, padded_hexadecimal,
    push_padded_hexadecimal, text_of, trim, trimmed,
};
use vstd::prelude::*;

verus! {

/// Whether the bytes begin with the fixed EDID header.
pub open spec fn has_header(b: Seq<u8>) -> bool {
    &&& b[0] == 0
    &&& forall|i: int| 1 <= i < 7 ==> #[trigger] b[i] == 0xff
    &&& b[7] == 0
}

/// The letter with a five-bit code: `A` is 1; other codes show as `?`.
pub open spec fn pnp_letter(code: int) -> char {
    if 1 <= code <= 26 {
        (64 + code) as char
    } else {
        '?'
    }
}

/// The PNP vendor id: three five-bit letters in two bytes, big-endian.
pub open spec fn vendor_of(hi: u8, lo: u8) -> Seq<char> {
    let id = 256 * hi + lo;
    seq![pnp_letter(id / 1024 % 32), pnp_letter(id / 32 % 32), pnp_letter(id % 32)]
}

/// Whether the 18-byte descriptor at `at` holds a serial string.
pub open spec fn is_serial_descriptor(b: Seq<u8>, at: int) -> bool {
    b[at] == 0 && b[at + 1] == 0 && b[at + 3] == 0xff
}

/// The characters from `from` on: one per byte, up to a line feed.
pub open spec fn line_from(b: Seq<u8>, from: int, to: int) -> Seq<char>
    decreases to - from,
{
    if from >= to || b[from] == 0x0a {
        Seq::empty()
    } else {
        seq![b[from] as char] + line_from(b, from + 1, to)
    }
}

/// The serial string among the first `n` descriptors: that of the last one
/// whose text is not blank.
pub open spec fn serial_string(b: Seq<u8>, n: int) -> Option<Seq<char>>
    decreases n,
{
    if n <= 0 {
        None
    } else {
        let at = 54 + 18 * (n - 1);
        let text = trimmed(line_from(b, at + 5, at + 18));
        if is_serial_descriptor(b, at) && text.len() > 0 {
            Some(text)
        } else {
            serial_string(b, n - 1)
        }
    }
}

/// The numeric serial: four bytes, little-endian.
pub open spec fn serial_number(b: Seq<u8>) -> nat {
    (b[12] + 256 * b[13] + 65536 * b[14] + 16777216 * b[15]) as nat
}

/// The serial: the serial string when there is one, the number otherwise.
pub open spec fn serial_of(b: Seq<u8>) -> Seq<char> {
    match serial_string(b, 4) {
        Some(text) => text,
        None => decimal(serial_number(b)),
    }
}

/// The product code: two bytes, little-endian, as four hexadecimal digits.
pub open spec fn product_of(b: Seq<u8>) -> Seq<char> {
    "0x"@ + padded_hexadecimal((b[10] + 256 * b[11]) as nat, 4)
}

fn letter(code: u16) -> (c: char)
    requires
        code < 32,
    ensures
        c == pnp_letter(code as int),
{
    if 1 <= code && code <= 26 {
        (64 + code as u8) as char
    } else {
        '?'
    }
}

/// The three letters of a PNP vendor id.
pub fn pnp_vendor(hi: u8, lo: u8) -> (r: String)
    ensures
        r@ == vendor_of(hi, lo),
{
    let id: u16 = 256 * (hi as u16) + lo as u16;
    let mut s = String::new();
    s.push(letter(id / 1024 % 32));
    s.push(letter(id / 32 % 32));
    s.push(letter(id % 32));
    assert(s@ =~= vendor_of(hi, lo));
    s
}

/// A product code as `0x` and four hexadecimal digits.
pub fn product_text(code: u16) -> (r: String)
    ensures
        r@ == "0x"@ + padded_hexadecimal(code as nat, 4),
{
    let mut s = "0x".to_owned();
    push_padded_hexadecimal(&mut s, code as u64, 4);
    s
}

fn line(b: &[u8], from: usize, to: usize) -> (r: Vec<char>)
    requires
        from <= to <= b@.len(),
    ensures
        r@ == line_from(b@, from as int, to as int),
{
    let mut out: Vec<char> = Vec::new();
    let mut i: usize = from;
    while i < to && b[i] != 0x0a
        invariant
            from <= i <= to <= b@.len(),
            line_from(b@, from as int, to as int) == out@ + line_from(b@, i as int, to as int),
        decreases to - i,
    {
        let ghost rest = line_from(b@, i + 1, to as int);
        proof {
            assert(out@ + (seq![b@[i as int] as char] + rest) =~= out@.push(b@[i as int] as char)
                + rest);
        }
        out.push(b[i] as char);
        i = i + 1;
    }
    assert(out@ + Seq::<char>::empty() =~= out@);
    out
}

fn header(b: &[u8]) -> (r: bool)
    requires
        b@.len() >= 128,
    ensures
        r == has_header(b@),
{
    b[0] == 0 && b[1] == 0xff && b[2] == 0xff && b[3] == 0xff && b[4] == 0xff && b[5] == 0xff && b[6]
        == 0xff && b[7] == 0
}

/// Whether a result is the identity that an EDID base block holds; there is
/// none in a block that is too short or lacks the header.
pub open spec fn holds_identity(r: Option<EdidId>, b: Seq<u8>) -> bool {
    if b.len() >= 128 && has_header(b) {
        &&& r is Some
        &&& r->0.vendor@ == vendor_of(b[8], b[9])
        &&& r->0.product@ == product_of(b)
        &&& r->0.serial@ == serial_of(b)
    } else {
        r is None
    }
}

/// Parse an EDID base block (128+ bytes). Returns `None` when the header is
/// invalid; callers treat that as "EDID unreadable" and fall back to
/// connector identity.
pub fn parse(bytes: &[u8]) -> (r: Option<EdidId>)
    ensures
        holds_identity(r, bytes@),
{
    if bytes.len() < 128 || !header(bytes) {
        return None;
    }
    let vendor = pnp_vendor(bytes[8], bytes[9]);
    let code: u16 = bytes[10] as u16 + 256 * (bytes[11] as u16);
    let product = product_text(code);
    let number: u32 = bytes[12] as u32 + 256 * (bytes[13] as u32) + 65536 * (bytes[14] as u32)
        + 16777216 * (bytes[15] as u32);
    let mut text: Option<String> = None;
    for i in 0..4usize
        invariant
            bytes@.len() >= 128,
            match (text, serial_string(bytes@, i as int)) {
                (Some(t), Some(want)) => t@ == want,
                (None, None) => true,
                _ => false,
            },
    {
        let at: usize = 54 + 18 * i;
        if bytes[at] == 0 && bytes[at + 1] == 0 && bytes[at + 3] == 0xff {
            let t = trim(&line(bytes, at + 5, at + 18));
            if t.len() > 0 {
                text = Some(text_of(&t));
            }
        }
    }
    let serial = match text {
        Some(t) => t,
        None => decimal_text(number as u64),
    };
    Some(EdidId { vendor, product, serial })
}

/// The letters of a vendor are those that its two bytes were made of.
pub proof fn vendor_letters_are_read_back(a: int, b: int, c: int, hi: u8, lo: u8)
    requires
        1 <= a <= 26,
        1 <= b <= 26,
        1 <= c <= 26,
        256 * hi + lo == 1024 * a + 32 * b + c,
    ensures
        vendor_of(hi, lo).len() == 3,
        vendor_of(hi, lo)[0] as int - 'A' as int == a - 1,
        vendor_of(hi, lo)[1] as int - 'A' as int == b - 1,
        vendor_of(hi, lo)[2] as int - 'A' as int == c - 1,
{
}

/// Displays with the same product have the same product code.
pub proof fn product_tells_codes_apart(a: Seq<u8>, b: Seq<u8>)
    requires
        product_of(a) == product_of(b),
    ensures
        a[10] == b[10],
        a[11] == b[11],
{
    let x = (a[10] + 256 * a[11]) as nat;
    let y = (b[10] + 256 * b[11]) as nat;
    let n = "0x"@.len() as int;
    assert(product_of(a).skip(n) =~= padded_hexadecimal(x, 4));
    assert(product_of(b).skip(n) =~= padded_hexadecimal(y, 4));
    hexadecimal_digits_tell_codes_apart(x, y, 4);
}

proof fn line_holds_the_bytes(b: Seq<u8>, from: int, to: int, n: int)
    requires
        0 <= from <= from + n <= to <= b.len(),
        forall|i: int| from <= i < from + n ==> #[trigger] b[i] != 0x0a,
        from + n < to ==> b[from + n] == 0x0a,
    ensures
        line_from(b, from, to) == Seq::new(n as nat, |i: int| b[from + i] as char),
    decreases n,
{
    let want = Seq::new(n as nat, |i: int| b[from + i] as char);
    if n > 0 {
        line_holds_the_bytes(b, from + 1, to, n - 1);
        assert(line_from(b, from, to) =~= want);
    } else {
        assert(want =~= Seq::<char>::empty());
    }
}

/// Whether the bytes of a descriptor say that it holds a serial.
pub open spec fn descriptor_is_serial(b: Seq<u8>, k: int) -> bool {
    b[54 + 18 * k] == 0 && b[55 + 18 * k] == 0 && b[57 + 18 * k] == 0xff
}

/// The serial is the text of the last descriptor of its kind that is not blank: its bytes up
/// to a line feed, without white space around them. Without one it is the number in the
/// bytes 12 to 15, the lowest first.
pub proof fn serial_text_comes_before_the_number(b: Seq<u8>, k: int, n: int)
    requires
        b.len() >= 128,
        0 <= k < 4,
        0 <= n <= 13,
        forall|i: int| 59 + 18 * k <= i < 59 + 18 * k + n ==> #[trigger] b[i] != 0x0a,
        n < 13 ==> b[59 + 18 * k + n] == 0x0a,
    ensures
        ({
            let text = trimmed(Seq::new(n as nat, |i: int| b[59 + 18 * k + i] as char));
            &&& descriptor_is_serial(b, k) && text.len() > 0 && (forall|j: int|
                k < j < 4 ==> !#[trigger] descriptor_is_serial(b, j)) ==> serial_of(b) == text
            &&& (forall|j: int| 0 <= j < 4 ==> !#[trigger] descriptor_is_serial(b, j))
                ==> serial_of(b) == decimal(
                (b[12] + 0x100 * b[13] + 0x1_0000 * b[14] + 0x100_0000 * b[15]) as nat,
            )
        }),
{
    line_holds_the_bytes(b, 59 + 18 * k, 72 + 18 * k, n);
    reveal_with_fuel(serial_string, 5);
    assert(54 + 18 * 0 == 54 && 54 + 18 * 1 == 72 && 54 + 18 * 2 == 90 && 54 + 18 * 3 == 108);
    if forall|j: int| 0 <= j < 4 ==> !#[trigger] descriptor_is_serial(b, j) {
        assert(!descriptor_is_serial(b, 0));
        assert(!descriptor_is_serial(b, 1));
        assert(!descriptor_is_serial(b, 2));
        assert(!descriptor_is_serial(b, 3));
    }
    if forall|j: int| k < j < 4 ==> !#[trigger] descriptor_is_serial(b, j) {
        assert(k < 1 ==> !descriptor_is_serial(b, 1));
        assert(k < 2 ==> !descriptor_is_serial(b, 2));
        assert(k < 3 ==> !descriptor_is_serial(b, 3));
    }
}

/// An identity is read exactly where there is a whole block with the fixed header.
pub proof fn only_a_whole_block_is_read(r: Option<EdidId>, b: Seq<u8>)
    requires
        holds_identity(r, b),
    ensures
        r is Some <==> b.len() >= 128 && b.take(8) == seq![
            0u8,
            0xff,
            0xff,
            0xff,
            0xff,
            0xff,
            0xff,
            0,
        ],
        r is Some ==> r->0.vendor@ == vendor_of(b[8], b[9]),
        r is Some ==> r->0.product@ == product_of(b),
        r is Some ==> r->0.serial@ == serial_of(b),
{
    if b.len() >= 128 {
        let head = seq![0u8, 0xff, 0xff, 0xff, 0xff, 0xff, 0xff, 0];
        if has_header(b) {
            assert(b.take(8) =~= head);
        }
        if b.take(8) == head {
            assert forall|i: int| 1 <= i < 7 implies #[trigger] b[i] == 0xff by {
                assert(b.take(8)[i] == head[i]);
            }
            assert(b.take(8)[0] == head[0] && b.take(8)[7] == head[7]);
        }
    }
}

} // verus!
