//! The payload grammar of `vcpname`: the names that a display gives to its
//! features and to their values.

use crate::caps::{borrowed_flags, VcpName, VcpNameView};
use crate::error::{failed_at, lemma_prepend, prepend, reads_as, stop, Parsed, ParseError};
use crate::grammar::{hex_pair, lemma_padded_hex_advances, padded_hex, padded_hexvalue};
use crate::lex::{
    hex_digit, is_hex_digit, latin1, lemma_span_grows, span, span_end, text, ByteClass, BACKSLASH,
    CLOSE, OPEN,
};
use std::borrow::Cow;
use vstd::prelude::*;
use vstd::slice::slice_subrange;
use vstd::utf8::{decode_utf8, valid_utf8};

verus! {

/// Whether an escape `\xHH`, with two hexadecimal digits, stands at `k`.
pub open spec fn is_escape(t: Seq<u8>, k: int) -> bool {
    0 <= k && k + 3 < t.len() && t[k] == BACKSLASH && t[k + 1] == 0x78 && is_hex_digit(t[k + 2])
        && is_hex_digit(t[k + 3])
}

/// The characters that the bytes of `t` stand for from `k` on: an escape
/// `\xHH` for the character with the code `HH`, any other byte for the
/// character with its own code.
pub open spec fn unescaped(t: Seq<u8>, k: int) -> Seq<char>
    decreases t.len() - k,
{
    if k < 0 || k >= t.len() {
        Seq::empty()
    } else if is_escape(t, k) {
        seq![hex_pair(t, k + 2) as char] + unescaped(t, k + 4)
    } else {
        seq![t[k] as char] + unescaped(t, k + 1)
    }
}

/// Whether the bytes `t` are the text of a name as they stand: they hold no
/// backslash and are valid UTF-8. Such a name is borrowed from the input;
/// any other is an owned copy.
pub open spec fn is_verbatim(t: Seq<u8>) -> bool {
    !t.contains(BACKSLASH) && valid_utf8(t)
}

/// The text of a name written as the bytes `t`. Bytes without a backslash
/// that are valid UTF-8 are the text itself; all others are read byte by
/// byte, with their escapes.
pub open spec fn name_text(t: Seq<u8>) -> Seq<char> {
    if is_verbatim(t) {
        decode_utf8(t)
    } else {
        unescaped(t, 0)
    }
}

/// The names of the values of a feature from `p` on, separated by blanks,
/// and the position behind them and the blanks that follow them.
pub open spec fn feature_value_names(s: Seq<u8>, p: int) -> (Seq<Seq<char>>, int)
    decreases s.len() - p,
    via feature_value_names_decreases
{
    let q = span_end(s, p, ByteClass::Blank);
    let e = span_end(s, q, ByteClass::Name);
    if e > q {
        let rest = feature_value_names(s, e);
        (seq![name_text(s.subrange(q, e))] + rest.0, rest.1)
    } else {
        (Seq::empty(), q)
    }
}

#[via_fn]
proof fn feature_value_names_decreases(s: Seq<u8>, p: int) {
    lemma_span_grows(s, p, ByteClass::Blank);
    lemma_span_grows(s, span_end(s, p, ByteClass::Blank), ByteClass::Name);
}

/// Of each of the names of the values of a feature from `p` on, whether it
/// stands in the input as it is, and so is borrowed from it.
pub open spec fn feature_value_names_borrowed(s: Seq<u8>, p: int) -> Seq<bool>
    decreases s.len() - p,
    via feature_value_names_borrowed_decreases
{
    let q = span_end(s, p, ByteClass::Blank);
    let e = span_end(s, q, ByteClass::Name);
    if e > q {
        seq![is_verbatim(s.subrange(q, e))] + feature_value_names_borrowed(s, e)
    } else {
        Seq::empty()
    }
}

#[via_fn]
proof fn feature_value_names_borrowed_decreases(s: Seq<u8>, p: int) {
    lemma_span_grows(s, p, ByteClass::Blank);
    lemma_span_grows(s, span_end(s, p, ByteClass::Blank), ByteClass::Name);
}

/// The names of the values end inside the input.
pub proof fn lemma_feature_value_names_end(s: Seq<u8>, p: int)
    requires
        0 <= p <= s.len(),
    ensures
        p <= feature_value_names(s, p).1 <= s.len(),
    decreases s.len() - p,
{
    let q = span_end(s, p, ByteClass::Blank);
    lemma_span_grows(s, p, ByteClass::Blank);
    let e = span_end(s, q, ByteClass::Name);
    lemma_span_grows(s, q, ByteClass::Name);
    if e > q {
        lemma_feature_value_names_end(s, e);
    }
}

/// The names of one feature at `p`: its code as a hexadecimal byte between
/// blanks, and in parentheses its name, if it has one, and the bracketed
/// list of the names of its values, if it has one. A name is borrowed from
/// the input where it stands there as it is, and an owned copy where not.
pub open spec fn feature_name(s: Seq<u8>, p: int) -> Parsed<VcpNameView> {
    match padded_hex(s, p) {
        Parsed::Failed { kind, at } => Parsed::Failed { kind, at },
        Parsed::Done { value: feature, next: a } => {
            let e = span_end(s, a + 1, ByteClass::Name);
            let name = if e > a + 1 {
                Some(name_text(s.subrange(a + 1, e)))
            } else {
                None
            };
            let name_borrowed = if e > a + 1 {
                Some(is_verbatim(s.subrange(a + 1, e)))
            } else {
                None
            };
            let (names, c) = feature_value_names(s, e + 1);
            if !(a < s.len() && s[a] == OPEN) {
                failed_at(s, a)
            } else if e < s.len() && s[e] == OPEN {
                if !(c < s.len() && s[c] == CLOSE) {
                    failed_at(s, c)
                } else if !(c + 1 < s.len() && s[c + 1] == CLOSE) {
                    failed_at(s, c + 1)
                } else {
                    Parsed::Done {
                        value: VcpNameView {
                            feature,
                            name,
                            value_names: Some(names),
                            name_borrowed,
                            value_names_borrowed: Some(feature_value_names_borrowed(s, e + 1)),
                        },
                        next: c + 2,
                    }
                }
            } else if !(e < s.len() && s[e] == CLOSE) {
                failed_at(s, e)
            } else {
                Parsed::Done {
                    value: VcpNameView {
                        feature,
                        name,
                        value_names: None,
                        name_borrowed,
                        value_names_borrowed: None,
                    },
                    next: e + 1,
                }
            }
        },
    }
}

/// The names of a feature are at least two bytes long and end inside the
/// input.
pub proof fn lemma_feature_name_advances(s: Seq<u8>, p: int)
    ensures
        feature_name(s, p) matches Parsed::Done { next, .. } ==> p + 2 <= next <= s.len(),
        feature_name(s, p) matches Parsed::Failed { at, .. } ==> (0 <= p <= s.len() ==> p <= at
            <= s.len()),
{
    lemma_padded_hex_advances(s, p);
    if let Parsed::Done { value, next: a } = padded_hex(s, p) {
        let e = span_end(s, a + 1, ByteClass::Name);
        lemma_span_grows(s, a + 1, ByteClass::Name);
        if a < s.len() && e < s.len() {
            lemma_feature_value_names_end(s, e + 1);
        }
    }
}

/// The names that a `vcpname` entry lists from `p` on, up to the end of the
/// input.
pub open spec fn feature_names(s: Seq<u8>, p: int) -> Parsed<Seq<VcpNameView>>
    decreases s.len() - p,
    via feature_names_decreases
{
    if p >= s.len() {
        Parsed::Done { value: Seq::empty(), next: p }
    } else {
        match feature_name(s, p) {
            Parsed::Done { value, next } => prepend(seq![value], feature_names(s, next)),
            Parsed::Failed { kind, at } => Parsed::Failed { kind, at },
        }
    }
}

#[via_fn]
proof fn feature_names_decreases(s: Seq<u8>, p: int) {
    lemma_feature_name_advances(s, p);
}

/// Reads the characters that the bytes `t` stand for, with their escapes.
pub fn backslash_escape(t: &[u8]) -> (out: String)
    ensures
        out@ == unescaped(t@, 0),
{
    let mut out = String::new();
    let mut k: usize = 0;
    let len = t.len();
    assert(out@ + unescaped(t@, 0) =~= unescaped(t@, 0));
    while k < len
        invariant
            k <= len == t@.len(),
            out@ + unescaped(t@, k as int) == unescaped(t@, 0),
        decreases len - k,
    {
        let ghost before = out@;
        let mut escape: Option<u8> = None;
        if len - k > 3 && t[k] == BACKSLASH && t[k + 1] == 0x78 {
            if let Some(high) = hex_digit(t[k + 2]) {
                if let Some(low) = hex_digit(t[k + 3]) {
                    escape = Some(high * 16 + low);
                }
            }
        }
        match escape {
            Some(b) => {
                out.push(latin1(b));
                assert(before + unescaped(t@, k as int) =~= out@ + unescaped(t@, k + 4));
                k = k + 4;
            },
            None => {
                out.push(latin1(t[k]));
                assert(before + unescaped(t@, k as int) =~= out@ + unescaped(t@, k + 1));
                k = k + 1;
            },
        }
    }
    assert(out@ + unescaped(t@, k as int) =~= out@);
    out
}

/// Tests whether `t` holds a backslash.
fn has_backslash(t: &[u8]) -> (r: bool)
    ensures
        r == t@.contains(BACKSLASH),
{
    let mut k: usize = 0;
    while k < t.len()
        invariant
            k <= t@.len(),
            forall|j: int| 0 <= j < k ==> t@[j] != BACKSLASH,
        decreases t@.len() - k,
    {
        if t[k] == BACKSLASH {
            return true;
        }
        k = k + 1;
    }
    false
}

/// Reads the name written as the bytes `t`: borrowed where the bytes are the
/// text, built where they have to be read byte by byte.
pub fn value_escape_nospace<'i>(t: &'i [u8]) -> (name: Cow<'i, str>)
    ensures
        name@ == name_text(t@),
        name is Borrowed <==> is_verbatim(t@),
{
    if !has_backslash(t) {
        if let Some(s) = text(t) {
            return Cow::Borrowed(s);
        }
    }
    Cow::Owned(backslash_escape(t))
}

/// Reads the names of the values of a feature from `p` on.
pub(crate) fn value_names<'i>(i: &'i [u8], p: usize) -> (r: (Vec<Cow<'i, str>>, usize))
    requires
        p <= i@.len(),
    ensures
        r.0.deep_view() == feature_value_names(i@, p as int).0,
        borrowed_flags(r.0@) == feature_value_names_borrowed(i@, p as int),
        r.1 == feature_value_names(i@, p as int).1,
        r.1 <= i@.len(),
{
    let mut out: Vec<Cow<'i, str>> = Vec::new();
    let mut k: usize = p;
    assert(out.deep_view() =~= Seq::<Seq<char>>::empty());
    assert(out.deep_view() + feature_value_names(i@, p as int).0 =~= feature_value_names(
        i@,
        p as int,
    ).0);
    assert(borrowed_flags(out@) + feature_value_names_borrowed(i@, p as int)
        =~= feature_value_names_borrowed(i@, p as int));
    loop
        invariant
            p <= k <= i@.len(),
            borrowed_flags(out@) + feature_value_names_borrowed(i@, k as int)
                == feature_value_names_borrowed(i@, p as int),
            out.deep_view() + feature_value_names(i@, k as int).0 == feature_value_names(
                i@,
                p as int,
            ).0,
            feature_value_names(i@, k as int).1 == feature_value_names(i@, p as int).1,
        decreases i@.len() - k,
    {
        let q = span(i, k, ByteClass::Blank);
        let e = span(i, q, ByteClass::Name);
        if e == q {
            assert(out.deep_view() + Seq::<Seq<char>>::empty() =~= out.deep_view());
            assert(borrowed_flags(out@) + Seq::<bool>::empty() =~= borrowed_flags(out@));
            return (out, q);
        }
        let name = value_escape_nospace(slice_subrange(i, q, e));
        let ghost before = out.deep_view();
        let ghost flags = borrowed_flags(out@);
        out.push(name);
        assert(out.deep_view() =~= before + seq![name@]);
        assert(borrowed_flags(out@) =~= flags + seq![name is Borrowed]);
        assert(flags + feature_value_names_borrowed(i@, k as int) =~= borrowed_flags(out@)
            + feature_value_names_borrowed(i@, e as int));
        assert(before + feature_value_names(i@, k as int).0 =~= out.deep_view()
            + feature_value_names(i@, e as int).0);
        k = e;
    }
}

/// Reads the names of one feature at `p`.
pub fn vcpname<'i>(i: &'i [u8], p: usize) -> (r: Result<(VcpName<'i>, usize), ParseError<'i>>)
    requires
        p <= i@.len(),
    ensures
        reads_as(r, i@, feature_name(i@, p as int)),
{
    let (feature, a) = match padded_hexvalue(i, p) {
        Ok(r) => r,
        Err(e) => {
            return Err(e);
        },
    };
    let len = i.len();
    if !(a < len && i[a] == OPEN) {
        return Err(ParseError::at(stop(i, a), i, a));
    }
    let e = span(i, a + 1, ByteClass::Name);
    let name = if e > a + 1 {
        Some(value_escape_nospace(slice_subrange(i, a + 1, e)))
    } else {
        None
    };
    if e < len && i[e] == OPEN {
        let (names, c) = value_names(i, e + 1);
        if !(c < len && i[c] == CLOSE) {
            return Err(ParseError::at(stop(i, c), i, c));
        }
        if !(c + 1 < len && i[c + 1] == CLOSE) {
            return Err(ParseError::at(stop(i, c + 1), i, c + 1));
        }
        Ok((VcpName { feature, name, value_names: Some(names) }, c + 2))
    } else if !(e < len && i[e] == CLOSE) {
        Err(ParseError::at(stop(i, e), i, e))
    } else {
        Ok((VcpName { feature, name, value_names: None }, e + 1))
    }
}

/// Reads the names that a `vcpname` entry lists.
pub fn vcpname_list<'i>(i: &'i [u8]) -> (r: Result<(Vec<VcpName<'i>>, usize), ParseError<'i>>)
    ensures
        reads_as(r, i@, feature_names(i@, 0)),
{
    let mut out: Vec<VcpName<'i>> = Vec::new();
    let mut k: usize = 0;
    proof {
        assert(out.deep_view() =~= Seq::<VcpNameView>::empty());
        lemma_prepend(Seq::<VcpNameView>::empty(), Seq::<VcpNameView>::empty(), feature_names(i@, 0));
    }
    loop
        invariant
            k <= i@.len(),
            feature_names(i@, 0) == prepend(out.deep_view(), feature_names(i@, k as int)),
        decreases i@.len() - k,
    {
        if k >= i.len() {
            assert(out.deep_view() + Seq::<VcpNameView>::empty() =~= out.deep_view());
            return Ok((out, k));
        }
        proof {
            lemma_feature_name_advances(i@, k as int);
        }
        match vcpname(i, k) {
            Err(e) => {
                return Err(e);
            },
            Ok((v, next)) => {
                let ghost before = out.deep_view();
                proof {
                    lemma_prepend(before, seq![v.deep_view()], feature_names(i@, next as int));
                }
                out.push(v);
                assert(out.deep_view() =~= before + seq![v.deep_view()]);
                k = next;
            },
        }
    }
}

} // verus!
