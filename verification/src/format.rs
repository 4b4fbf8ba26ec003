//! Writing values as text: decimal numbers, escaped bytes, and the entries
//! of a capability string.

use crate::entries::{entry_views, EntryView, Value};
use crate::lex::{byte_text, decimal_value, is_digit, latin1};
use vstd::prelude::*;
use vstd::string::StringExecFns;

verus! {

/// The character of a decimal digit or of a small hexadecimal one.
pub open spec fn digit_char(d: int) -> char {
    if d < 10 {
        (0x30 + d) as u8 as char
    } else {
        (0x61 + d - 10) as u8 as char
    }
}

/// The decimal digits that write `n`, without leading zeros.
pub open spec fn decimal_digits(n: nat) -> Seq<char>
    decreases n,
{
    if n < 10 {
        seq![digit_char(n as int)]
    } else {
        decimal_digits(n / 10).push(digit_char((n % 10) as int))
    }
}

/// The decimal digits that write `n`, as bytes.
pub open spec fn decimal_bytes(n: nat) -> Seq<u8>
    decreases n,
{
    if n < 10 {
        seq![(0x30 + n) as u8]
    } else {
        decimal_bytes(n / 10).push((0x30 + n % 10) as u8)
    }
}

/// The bytes of a number are digits, and spell its text.
pub proof fn lemma_decimal_bytes(n: nat)
    ensures
        decimal_bytes(n).len() > 0,
        forall|k: int| 0 <= k < decimal_bytes(n).len() ==> is_digit(#[trigger] decimal_bytes(n)[k]),
        byte_text(decimal_bytes(n)) == decimal_digits(n),
    decreases n,
{
    if n >= 10 {
        lemma_decimal_bytes(n / 10);
    }
    assert(byte_text(decimal_bytes(n)) =~= decimal_digits(n));
}

/// The digits that write a number are read as that number.
pub proof fn lemma_decimal_reads_back(s: Seq<u8>, from: int, n: nat)
    requires
        0 <= from,
        from + decimal_bytes(n).len() <= s.len(),
        forall|k: int| 0 <= k < decimal_bytes(n).len() ==> s[from + k] == #[trigger] decimal_bytes(n)[k],
    ensures
        decimal_value(s, from, from + decimal_bytes(n).len()) == n,
    decreases n,
{
    let digits = decimal_bytes(n);
    let to = from + digits.len();
    if n >= 10 {
        let shorter = decimal_bytes(n / 10);
        assert forall|k: int| 0 <= k < shorter.len() implies s[from + k] == #[trigger] shorter[k] by {
            assert(digits[k] == shorter[k]);
        }
        lemma_decimal_reads_back(s, from, n / 10);
        assert(s[to - 1] == digits[digits.len() - 1]);
    } else {
        assert(s[from + 0] == digits[0]);
        assert(decimal_value(s, from, from) == 0);
    }
}

/// How a byte is written in an escaped payload: printable ASCII as itself,
/// but for the backslash and the two quotes, which get a backslash in front;
/// tab, carriage return and line feed as `\t`, `\r` and `\n`; every other
/// byte as `\x` and two small hexadecimal digits.
pub open spec fn escaped_byte(b: u8) -> Seq<char> {
    if b == 0x09 {
        seq!['\\', 't']
    } else if b == 0x0d {
        seq!['\\', 'r']
    } else if b == 0x0a {
        seq!['\\', 'n']
    } else if b == 0x5c || b == 0x27 || b == 0x22 {
        seq!['\\', b as char]
    } else if 0x20 <= b <= 0x7e {
        seq![b as char]
    } else {
        seq!['\\', 'x', digit_char(b as int / 16), digit_char(b as int % 16)]
    }
}

/// The bytes of `s` written one after the other, each escaped.
pub open spec fn escaped(s: Seq<u8>) -> Seq<char>
    decreases s.len(),
{
    if s.len() == 0 {
        Seq::empty()
    } else {
        escaped(s.drop_last()) + escaped_byte(s.last())
    }
}

/// An entry as it is written in a capability string, its payload escaped.
pub open spec fn formatted(e: EntryView) -> Seq<char> {
    match e {
        EntryView::String { tag, value } => tag + seq!['('] + escaped(value) + seq![')'],
        EntryView::Binary { tag, data } => tag + seq![' ', 'b', 'i', 'n', '('] + decimal_digits(
            data.len(),
        ) + seq!['('] + escaped(data) + seq![')', ')'],
    }
}

/// Entries as they are written in a capability string, one after the
/// other.
pub open spec fn formatted_all(es: Seq<EntryView>) -> Seq<char>
    decreases es.len(),
{
    if es.len() == 0 {
        Seq::empty()
    } else {
        formatted(es[0]) + formatted_all(es.drop_first())
    }
}

/// Writes one digit.
fn push_digit(out: &mut String, d: u8)
    requires
        d < 16,
    ensures
        final(out)@ == old(out)@.push(digit_char(d as int)),
{
    if d < 10 {
        out.push(latin1(0x30 + d));
    } else {
        out.push(latin1(0x61 + d - 10));
    }
}

/// Writes a number in decimal.
pub fn push_decimal(out: &mut String, n: usize)
    ensures
        final(out)@ == old(out)@ + decimal_digits(n as nat),
    decreases n,
{
    if n >= 10 {
        push_decimal(out, n / 10);
    }
    push_digit(out, (n % 10) as u8);
    proof {
        if n >= 10 {
            assert(final(out)@ =~= old(out)@ + decimal_digits(n as nat));
        } else {
            assert(final(out)@ =~= old(out)@ + decimal_digits(n as nat));
        }
    }
}

/// Writes one byte, escaped.
fn push_escaped_byte(out: &mut String, b: u8)
    ensures
        final(out)@ == old(out)@ + escaped_byte(b),
{
    if b == 0x09 {
        out.push('\\');
        out.push('t');
    } else if b == 0x0d {
        out.push('\\');
        out.push('r');
    } else if b == 0x0a {
        out.push('\\');
        out.push('n');
    } else if b == 0x5c || b == 0x27 || b == 0x22 {
        out.push('\\');
        out.push(latin1(b));
    } else if 0x20 <= b && b <= 0x7e {
        out.push(latin1(b));
    } else {
        out.push('\\');
        out.push('x');
        push_digit(out, b / 16);
        push_digit(out, b % 16);
    }
    assert(final(out)@ =~= old(out)@ + escaped_byte(b));
}

/// Writes bytes, each escaped.
pub fn push_escaped(out: &mut String, s: &[u8])
    ensures
        final(out)@ == old(out)@ + escaped(s@),
{
    let ghost start = out@;
    let mut k: usize = 0;
    assert(s@.take(0) =~= Seq::empty());
    assert(start + escaped(s@.take(0)) =~= start);
    while k < s.len()
        invariant
            k <= s@.len(),
            out@ == start + escaped(s@.take(k as int)),
        decreases s@.len() - k,
    {
        let ghost before = out@;
        push_escaped_byte(out, s[k]);
        proof {
            assert(s@.take(k + 1).drop_last() =~= s@.take(k as int));
            assert(s@.take(k + 1).last() == s@[k as int]);
            assert(out@ =~= start + escaped(s@.take(k + 1)));
        }
        k = k + 1;
    }
    assert(s@.take(k as int) =~= s@);
}

impl<'i> Value<'i> {
    /// Writes entries as a capability string: one after the other, without
    /// parentheses around the whole.
    pub fn format_all(entries: &[Value<'i>]) -> (out: String)
        ensures
            out@ == formatted_all(entry_views(entries@)),
    {
        let ghost all = entry_views(entries@);
        let mut out = String::new();
        let mut k: usize = 0;
        assert(all.skip(0) =~= all);
        assert(out@ + formatted_all(all.skip(0)) =~= formatted_all(all));
        while k < entries.len()
            invariant
                k <= entries@.len(),
                all == entry_views(entries@),
                out@ + formatted_all(all.skip(k as int)) == formatted_all(all),
            decreases entries@.len() - k,
        {
            let ghost before = out@;
            let text = entries[k].format();
            out.append(text.as_str());
            proof {
                assert(all.skip(k as int)[0] == entries@[k as int]@);
                assert(all.skip(k as int).drop_first() =~= all.skip(k + 1));
                assert(before + formatted_all(all.skip(k as int)) =~= out@ + formatted_all(
                    all.skip(k + 1),
                ));
            }
            k = k + 1;
        }
        assert(out@ + formatted_all(all.skip(k as int)) =~= out@);
        out
    }

    /// Writes the entry as it stands in a capability string, its payload
    /// escaped.
    pub fn format(&self) -> (out: String)
        ensures
            out@ == formatted(self@),
    {
        let mut out = String::new();
        match *self {
            Value::String { tag, value } => {
                out.append(tag);
                out.push('(');
                push_escaped(&mut out, value);
                out.push(')');
                assert(out@ =~= formatted(self@));
            },
            Value::Binary { tag, data } => {
                out.append(tag);
                out.push(' ');
                out.push('b');
                out.push('i');
                out.push('n');
                out.push('(');
                push_decimal(&mut out, data.len());
                out.push('(');
                push_escaped(&mut out, data);
                out.push(')');
                out.push(')');
                assert(out@ =~= formatted(self@));
            },
        }
        out
    }
}

} // verus!
