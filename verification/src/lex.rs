//! Byte classes, runs of bytes, numbers and text: the lexical layer that the
//! grammars of this crate share.

use vstd::prelude::*;
use vstd::string::StringSliceAdditionalSpecFns;
use vstd::utf8::{decode_utf8, encode_utf8, valid_utf8};

verus! {

/// `(`
pub const OPEN: u8 = 0x28;

/// `)`
pub const CLOSE: u8 = 0x29;

/// The space.
pub const SPACE: u8 = 0x20;

/// The horizontal tab.
pub const TAB: u8 = 0x09;

/// The backslash.
pub const BACKSLASH: u8 = 0x5c;

/// `.`
pub const DOT: u8 = 0x2e;

/// The classes of bytes that the grammars scan runs of.
#[derive(Clone, Copy, Debug, PartialEq, Eq, Structural)]
pub enum ByteClass {
    /// Space and horizontal tab.
    Blank,
    /// Space and NUL, the padding tolerated between entries.
    Padding,
    /// `0` to `9`.
    Digit,
    /// ASCII letters and digits.
    Alphanumeric,
    /// ASCII letters, digits and `_`.
    Ident,
    /// Everything but space and the two parentheses.
    Name,
}

/// `0` to `9`.
pub open spec fn is_digit(b: u8) -> bool {
    0x30 <= b <= 0x39
}

/// A decimal digit, or `a` to `f` in either case.
pub open spec fn is_hex_digit(b: u8) -> bool {
    is_digit(b) || 0x41 <= b <= 0x46 || 0x61 <= b <= 0x66
}

/// An ASCII letter or digit.
pub open spec fn is_alphanumeric(b: u8) -> bool {
    is_digit(b) || 0x41 <= b <= 0x5a || 0x61 <= b <= 0x7a
}

impl ByteClass {
    /// Whether byte `b` belongs to the class.
    pub open spec fn has(self, b: u8) -> bool {
        match self {
            ByteClass::Blank => b == SPACE || b == TAB,
            ByteClass::Padding => b == SPACE || b == 0,
            ByteClass::Digit => is_digit(b),
            ByteClass::Alphanumeric => is_alphanumeric(b),
            ByteClass::Ident => is_alphanumeric(b) || b == 0x5f,
            ByteClass::Name => b != SPACE && b != OPEN && b != CLOSE,
        }
    }

    /// Tests whether byte `b` belongs to the class.
    pub fn test(self, b: u8) -> (r: bool)
        ensures
            r == self.has(b),
    {
        match self {
            ByteClass::Blank => b == SPACE || b == TAB,
            ByteClass::Padding => b == SPACE || b == 0,
            ByteClass::Digit => 0x30 <= b && b <= 0x39,
            ByteClass::Alphanumeric => (0x30 <= b && b <= 0x39) || (0x41 <= b && b <= 0x5a) || (0x61
                <= b && b <= 0x7a),
            ByteClass::Ident => (0x30 <= b && b <= 0x39) || (0x41 <= b && b <= 0x5a) || (0x61 <= b
                && b <= 0x7a) || b == 0x5f,
            ByteClass::Name => b != SPACE && b != OPEN && b != CLOSE,
        }
    }
}

/// Where the longest run of bytes of `class` that starts at `p` ends: the
/// first position from `p` on that holds another byte, or the end of `s`.
pub open spec fn span_end(s: Seq<u8>, p: int, class: ByteClass) -> int
    decreases s.len() - p,
{
    if 0 <= p < s.len() && class.has(s[p]) {
        span_end(s, p + 1, class)
    } else {
        p
    }
}

/// What `span_end` is, said without recursion.
pub proof fn lemma_span_end(s: Seq<u8>, p: int, class: ByteClass)
    requires
        0 <= p <= s.len(),
    ensures
        p <= span_end(s, p, class) <= s.len(),
        forall|k: int| p <= k < span_end(s, p, class) ==> class.has(#[trigger] s[k]),
        span_end(s, p, class) < s.len() ==> !class.has(s[span_end(s, p, class)]),
    decreases s.len() - p,
{
    if p < s.len() && class.has(s[p]) {
        lemma_span_end(s, p + 1, class);
    }
}

/// A run that is known to hold class bytes up to `e` and to stop there ends
/// at `e`.
pub proof fn lemma_span_end_is(s: Seq<u8>, p: int, e: int, class: ByteClass)
    requires
        0 <= p <= e <= s.len(),
        forall|k: int| p <= k < e ==> class.has(#[trigger] s[k]),
        e < s.len() ==> !class.has(s[e]),
    ensures
        span_end(s, p, class) == e,
    decreases e - p,
{
    if p < e {
        lemma_span_end_is(s, p + 1, e, class);
    }
}

/// A run never ends before it starts, nor behind the input.
pub proof fn lemma_span_grows(s: Seq<u8>, p: int, class: ByteClass)
    ensures
        span_end(s, p, class) >= p,
        0 <= p <= s.len() ==> span_end(s, p, class) <= s.len(),
    decreases s.len() - p,
{
    if 0 <= p < s.len() && class.has(s[p]) {
        lemma_span_grows(s, p + 1, class);
    }
}

/// Scans the run of bytes of `class` that starts at `p`.
pub(crate) fn span(i: &[u8], p: usize, class: ByteClass) -> (e: usize)
    requires
        p <= i@.len(),
    ensures
        e == span_end(i@, p as int, class),
        p <= e <= i@.len(),
{
    let mut e: usize = p;
    while e < i.len() && class.test(i[e])
        invariant
            p <= e <= i@.len(),
            forall|k: int| p <= k < e ==> class.has(#[trigger] i@[k]),
        decreases i@.len() - e,
    {
        e = e + 1;
    }
    proof {
        lemma_span_end_is(i@, p as int, e as int, class);
    }
    e
}

/// The number that a hexadecimal digit stands for.
pub open spec fn hex_digit_value(b: u8) -> int {
    if is_digit(b) {
        b - 0x30
    } else if 0x41 <= b <= 0x46 {
        b - 0x41 + 10
    } else {
        b - 0x61 + 10
    }
}

/// Reads one hexadecimal digit of either case.
pub fn hex_digit(b: u8) -> (r: Option<u8>)
    ensures
        r is Some <==> is_hex_digit(b),
        r matches Some(v) ==> v == hex_digit_value(b),
{
    if b >= 0x30 && b <= 0x39 {
        Some(b - 0x30)
    } else if b >= 0x41 && b <= 0x46 {
        Some(b - 0x41 + 10)
    } else if b >= 0x61 && b <= 0x66 {
        Some(b - 0x61 + 10)
    } else {
        None
    }
}

/// The number that the decimal digits `s[from..to]` write.
pub open spec fn decimal_value(s: Seq<u8>, from: int, to: int) -> nat
    decreases to - from,
{
    if to <= from {
        0
    } else {
        (decimal_value(s, from, to - 1) * 10 + (s[to - 1] - 0x30)) as nat
    }
}

/// More digits never write a smaller number.
pub proof fn lemma_decimal_grows(s: Seq<u8>, from: int, mid: int, to: int)
    requires
        0 <= from <= mid <= to <= s.len(),
        forall|k: int| from <= k < to ==> is_digit(#[trigger] s[k]),
    ensures
        decimal_value(s, from, mid) <= decimal_value(s, from, to),
    decreases to - mid,
{
    if mid < to {
        lemma_decimal_grows(s, from, mid, to - 1);
        assert(is_digit(s[to - 1]));
    }
}

/// Reads the decimal number written by the digits `i[from..to]`, if it is
/// at most `limit`.
pub(crate) fn decimal(i: &[u8], from: usize, to: usize, limit: u32) -> (r: Option<u32>)
    requires
        from <= to <= i@.len(),
        forall|k: int| from <= k < to ==> is_digit(#[trigger] i@[k]),
    ensures
        r is Some <==> decimal_value(i@, from as int, to as int) <= limit,
        r matches Some(v) ==> v == decimal_value(i@, from as int, to as int),
{
    let mut acc: u64 = 0;
    let mut k: usize = from;
    while k < to
        invariant
            from <= k <= to <= i@.len(),
            forall|j: int| from <= j < to ==> is_digit(#[trigger] i@[j]),
            acc == decimal_value(i@, from as int, k as int),
            acc <= limit,
        decreases to - k,
    {
        assert(is_digit(i@[k as int]));
        let d: u64 = (i[k] - 0x30) as u64;
        let next: u64 = acc * 10 + d;
        assert(next == decimal_value(i@, from as int, k + 1));
        if next > limit as u64 {
            proof {
                lemma_decimal_grows(i@, from as int, k + 1, to as int);
            }
            return None;
        }
        acc = next;
        k = k + 1;
    }
    Some(acc as u32)
}

/// `core::str::from_utf8`: the bytes as text where they are valid UTF-8,
/// `None` where they are not. The text's encoding is the bytes given.
#[verifier::external_body]
fn str_from_utf8<'a>(bytes: &'a [u8]) -> (r: Option<&'a str>)
    ensures
        r is Some <==> valid_utf8(bytes@),
        r matches Some(s) ==> s.spec_bytes() == bytes@,
{
    match core::str::from_utf8(bytes) {
        Ok(s) => Some(s),
        Err(_) => None,
    }
}

/// `String::push` appends one character.
pub assume_specification[ std::string::String::push ](s: &mut std::string::String, c: char)
    ensures
        final(s)@ == old(s)@.push(c),
;

/// The character whose code is the byte `b`.
pub fn latin1(b: u8) -> (c: char)
    ensures
        c == b as char,
{
    b as char
}

/// Reads bytes as UTF-8 text.
pub fn text(bytes: &[u8]) -> (r: Option<&str>)
    ensures
        r is Some <==> valid_utf8(bytes@),
        r matches Some(s) ==> s@ == decode_utf8(bytes@),
{
    broadcast use vstd::utf8::encode_utf8_decode_utf8;

    let r = str_from_utf8(bytes);
    proof {
        if let Some(s) = r {
            assert(encode_utf8(s@) == bytes@);
            assert(decode_utf8(encode_utf8(s@)) == s@);
        }
    }
    r
}

/// Whether all the bytes are ASCII.
pub open spec fn is_ascii_bytes(s: Seq<u8>) -> bool {
    forall|k: int| 0 <= k < s.len() ==> #[trigger] s[k] < 0x80
}

/// The text that has one character for each byte of `s`: the character
/// whose code is the byte. For ASCII bytes it is the text that they spell.
pub open spec fn byte_text(s: Seq<u8>) -> Seq<char> {
    Seq::new(s.len(), |k: int| s[k] as char)
}

/// ASCII bytes are valid UTF-8 and decode to one character each.
pub proof fn lemma_ascii_is_text(s: Seq<u8>)
    requires
        is_ascii_bytes(s),
    ensures
        valid_utf8(s),
        decode_utf8(s) == byte_text(s),
        encode_utf8(byte_text(s)) == s,
{
    broadcast use vstd::utf8::encode_utf8_decode_utf8;
    broadcast use vstd::utf8::encode_utf8_valid_utf8;

    let chars = byte_text(s);
    assert forall|k: int| 0 <= k < chars.len() implies 0 <= #[trigger] (chars[k] as nat) < 128 by {
        assert(s[k] < 0x80);
    }
    vstd::utf8::is_ascii_chars_encode_utf8(chars);
    assert(encode_utf8(chars) =~= s) by {
        assert forall|k: int| 0 <= k < s.len() implies encode_utf8(chars)[k] == s[k] by {
            assert(chars[k] as u8 == s[k]);
        }
    }
    assert(valid_utf8(encode_utf8(chars)));
    assert(decode_utf8(encode_utf8(chars)) == chars);
}

/// Compares two texts.
pub fn same_text(a: &str, b: &str) -> (r: bool)
    ensures
        r == (a@ == b@),
{
    broadcast use vstd::utf8::encode_utf8_decode_utf8;

    let x = a.as_bytes();
    let y = b.as_bytes();
    assert(decode_utf8(encode_utf8(a@)) == a@);
    assert(decode_utf8(encode_utf8(b@)) == b@);
    if x.len() != y.len() {
        return false;
    }
    let mut k: usize = 0;
    while k < x.len()
        invariant
            k <= x@.len(),
            x@.len() == y@.len(),
            x@ == encode_utf8(a@),
            y@ == encode_utf8(b@),
            forall|j: int| 0 <= j < k ==> x@[j] == y@[j],
        decreases x@.len() - k,
    {
        if x[k] != y[k] {
            return false;
        }
        k = k + 1;
    }
    assert(x@ =~= y@);
    true
}

} // verus!
