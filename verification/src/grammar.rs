//! The payload grammars of the entries that hold numbers: `cmds`, `mswhql`,
//! `mccs_ver` and `vcp`.

use crate::caps::{Vcp, VcpValue, VcpValueView, VcpView};
use crate::error::{
    failed_at, lemma_prepend, prepend, reads_as, stop, ErrorKind, Parsed, ParseError,
};
use crate::lex::{
    decimal, decimal_value, hex_digit, hex_digit_value, is_digit, is_hex_digit, lemma_span_end,
    lemma_span_grows, span, span_end, ByteClass, CLOSE, DOT, OPEN,
};
use vstd::prelude::*;

verus! {

/// The byte that the two hexadecimal digits at `q` write.
pub open spec fn hex_pair(s: Seq<u8>, q: int) -> u8 {
    (hex_digit_value(s[q]) * 16 + hex_digit_value(s[q + 1])) as u8
}

/// A byte written as two hexadecimal digits at `q`. The failure is at `q`:
/// the input is truncated where it ends before the second digit, invalid
/// where a byte is no digit.
pub open spec fn hex_byte(s: Seq<u8>, q: int) -> Parsed<u8> {
    if q < 0 || q >= s.len() {
        Parsed::Failed { kind: ErrorKind::UnexpectedEndOfInput, at: q }
    } else if !is_hex_digit(s[q]) {
        Parsed::Failed { kind: ErrorKind::InvalidData, at: q }
    } else if q + 1 >= s.len() {
        Parsed::Failed { kind: ErrorKind::UnexpectedEndOfInput, at: q }
    } else if !is_hex_digit(s[q + 1]) {
        Parsed::Failed { kind: ErrorKind::InvalidData, at: q }
    } else {
        Parsed::Done { value: hex_pair(s, q), next: q + 2 }
    }
}

/// A hexadecimal byte with blanks on either side.
pub open spec fn padded_hex(s: Seq<u8>, p: int) -> Parsed<u8> {
    match hex_byte(s, span_end(s, p, ByteClass::Blank)) {
        Parsed::Done { value, next } => Parsed::Done {
            value,
            next: span_end(s, next, ByteClass::Blank),
        },
        Parsed::Failed { kind, at } => Parsed::Failed { kind, at },
    }
}

/// A padded byte is at least two bytes long and ends inside the input.
pub proof fn lemma_padded_hex_advances(s: Seq<u8>, p: int)
    ensures
        padded_hex(s, p) matches Parsed::Done { next, .. } ==> p + 2 <= next <= s.len(),
        padded_hex(s, p) matches Parsed::Failed { at, .. } ==> (0 <= p <= s.len() ==> p <= at
            <= s.len()),
{
    let q = span_end(s, p, ByteClass::Blank);
    lemma_span_grows(s, p, ByteClass::Blank);
    lemma_span_grows(s, q + 2, ByteClass::Blank);
}

/// A list of hexadecimal bytes from `p` on, each with blanks on either side.
/// A bracketed list runs up to the closing parenthesis and ends behind it; a
/// bare one runs up to the end of the input.
pub open spec fn hex_run(s: Seq<u8>, p: int, bracketed: bool) -> Parsed<Seq<u8>>
    decreases s.len() - p,
    via hex_run_decreases
{
    if bracketed && 0 <= p < s.len() && s[p] == CLOSE {
        Parsed::Done { value: Seq::empty(), next: p + 1 }
    } else if !bracketed && p >= s.len() {
        Parsed::Done { value: Seq::empty(), next: p }
    } else {
        match padded_hex(s, p) {
            Parsed::Done { value, next } => prepend(seq![value], hex_run(s, next, bracketed)),
            Parsed::Failed { kind, at } => Parsed::Failed { kind, at },
        }
    }
}

#[via_fn]
proof fn hex_run_decreases(s: Seq<u8>, p: int, bracketed: bool) {
    lemma_padded_hex_advances(s, p);
}

/// The value of a `mswhql` entry: exactly one decimal digit.
pub open spec fn whql(s: Seq<u8>) -> Parsed<u8> {
    if s.len() == 0 {
        Parsed::Failed { kind: ErrorKind::UnexpectedEndOfInput, at: 0 }
    } else if !is_digit(s[0]) {
        Parsed::Failed { kind: ErrorKind::InvalidData, at: 0 }
    } else {
        Parsed::Done { value: (s[0] - 0x30) as u8, next: 1 }
    }
}

/// A decimal number of one byte at `p`: all the digits that stand there. It
/// fails at `p` where no digit stands or the number is more than 255.
pub open spec fn decimal_byte(s: Seq<u8>, p: int) -> Parsed<u8> {
    let e = span_end(s, p, ByteClass::Digit);
    if e == p {
        failed_at(s, p)
    } else if decimal_value(s, p, e) > 255 {
        Parsed::Failed { kind: ErrorKind::InvalidData, at: p }
    } else {
        Parsed::Done { value: decimal_value(s, p, e) as u8, next: e }
    }
}

/// Whether `s` is four hexadecimal digits and nothing else.
pub open spec fn is_hex_version(s: Seq<u8>) -> bool {
    s.len() == 4 && is_hex_digit(s[0]) && is_hex_digit(s[1]) && is_hex_digit(s[2])
        && is_hex_digit(s[3])
}

/// The value of a `mccs_ver` entry: `major.minor` in decimal, or, as some
/// displays have it, two hexadecimal bytes without a separator.
pub open spec fn version_pair(s: Seq<u8>) -> Parsed<(u8, u8)> {
    if is_hex_version(s) {
        Parsed::Done { value: (hex_pair(s, 0), hex_pair(s, 2)), next: 4 }
    } else {
        match decimal_byte(s, 0) {
            Parsed::Failed { kind, at } => Parsed::Failed { kind, at },
            Parsed::Done { value: major, next: dot } => if !(dot < s.len() && s[dot] == DOT) {
                failed_at(s, dot)
            } else {
                match decimal_byte(s, dot + 1) {
                    Parsed::Failed { kind, at } => Parsed::Failed { kind, at },
                    Parsed::Done { value: minor, next } => Parsed::Done {
                        value: (major, minor),
                        next,
                    },
                }
            },
        }
    }
}

/// A value of a feature at `p`: a hexadecimal byte, and behind it, where
/// a parenthesis opens there, the bracketed list of its sub-values. Blanks
/// may stand on either side of it.
pub open spec fn feature_value(s: Seq<u8>, p: int) -> Parsed<VcpValueView> {
    match padded_hex(s, p) {
        Parsed::Failed { kind, at } => Parsed::Failed { kind, at },
        Parsed::Done { value, next } => if next < s.len() && s[next] == OPEN {
            match hex_run(s, next + 1, true) {
                Parsed::Failed { kind, at } => Parsed::Failed { kind, at },
                Parsed::Done { value: subs, next: end } => Parsed::Done {
                    value: VcpValueView { value, sub_values: Some(subs) },
                    next: span_end(s, end, ByteClass::Blank),
                },
            }
        } else {
            Parsed::Done { value: VcpValueView { value, sub_values: None }, next }
        },
    }
}

/// A list of bytes ends inside the input, and a bracketed one is not empty.
pub proof fn lemma_hex_run_advances(s: Seq<u8>, p: int, bracketed: bool)
    requires
        0 <= p <= s.len(),
    ensures
        hex_run(s, p, bracketed) matches Parsed::Done { next, .. } ==> p <= next <= s.len() && (
        bracketed ==> p < next),
        hex_run(s, p, bracketed) matches Parsed::Failed { at, .. } ==> p <= at <= s.len(),
    decreases s.len() - p,
{
    if bracketed && p < s.len() && s[p] == CLOSE {
    } else if !bracketed && p >= s.len() {
    } else {
        lemma_padded_hex_advances(s, p);
        if let Parsed::Done { value, next } = padded_hex(s, p) {
            lemma_hex_run_advances(s, next, bracketed);
        }
    }
}

/// A value of a feature is at least two bytes long and ends inside the
/// input.
pub proof fn lemma_feature_value_advances(s: Seq<u8>, p: int)
    ensures
        feature_value(s, p) matches Parsed::Done { next, .. } ==> p + 2 <= next <= s.len(),
        feature_value(s, p) matches Parsed::Failed { at, .. } ==> (0 <= p <= s.len() ==> p <= at
            <= s.len()),
{
    lemma_padded_hex_advances(s, p);
    if let Parsed::Done { value, next } = padded_hex(s, p) {
        if next < s.len() && s[next] == OPEN {
            lemma_hex_run_advances(s, next + 1, true);
            if let Parsed::Done { value: subs, next: end } = hex_run(s, next + 1, true) {
                lemma_span_grows(s, end, ByteClass::Blank);
            }
        }
    }
}

/// The bracketed list of the values of a feature, from `p` on, which is
/// behind the opening parenthesis. It ends behind the closing one.
pub open spec fn feature_values(s: Seq<u8>, p: int) -> Parsed<Seq<VcpValueView>>
    decreases s.len() - p,
    via feature_values_decreases
{
    if 0 <= p < s.len() && s[p] == CLOSE {
        Parsed::Done { value: Seq::empty(), next: p + 1 }
    } else {
        match feature_value(s, p) {
            Parsed::Done { value, next } => prepend(seq![value], feature_values(s, next)),
            Parsed::Failed { kind, at } => Parsed::Failed { kind, at },
        }
    }
}

#[via_fn]
proof fn feature_values_decreases(s: Seq<u8>, p: int) {
    lemma_feature_value_advances(s, p);
}

/// A bracketed list of values is not empty and ends inside the input.
pub proof fn lemma_feature_values_advances(s: Seq<u8>, p: int)
    requires
        0 <= p <= s.len(),
    ensures
        feature_values(s, p) matches Parsed::Done { next, .. } ==> p < next <= s.len(),
        feature_values(s, p) matches Parsed::Failed { at, .. } ==> p <= at <= s.len(),
    decreases s.len() - p,
{
    if p < s.len() && s[p] == CLOSE {
    } else {
        lemma_feature_value_advances(s, p);
        if let Parsed::Done { value, next } = feature_value(s, p) {
            lemma_feature_values_advances(s, next);
        }
    }
}

/// A feature at `q`: its code as a hexadecimal byte, blanks, and, where a
/// parenthesis opens behind them, the bracketed list of its values.
pub open spec fn feature(s: Seq<u8>, q: int) -> Parsed<VcpView> {
    match padded_hex(s, q) {
        Parsed::Failed { kind, at } => Parsed::Failed { kind, at },
        Parsed::Done { value, next } => if next < s.len() && s[next] == OPEN {
            match feature_values(s, next + 1) {
                Parsed::Failed { kind, at } => Parsed::Failed { kind, at },
                Parsed::Done { value: values, next: end } => Parsed::Done {
                    value: VcpView { feature: value, values: Some(values) },
                    next: end,
                },
            }
        } else {
            Parsed::Done { value: VcpView { feature: value, values: None }, next }
        },
    }
}

/// A feature is at least two bytes long and ends inside the input.
pub proof fn lemma_feature_advances(s: Seq<u8>, q: int)
    ensures
        feature(s, q) matches Parsed::Done { next, .. } ==> q + 2 <= next <= s.len(),
        feature(s, q) matches Parsed::Failed { at, .. } ==> (0 <= q <= s.len() ==> q <= at
            <= s.len()),
{
    lemma_padded_hex_advances(s, q);
    if let Parsed::Done { value, next } = padded_hex(s, q) {
        if next < s.len() && s[next] == OPEN {
            lemma_feature_values_advances(s, next + 1);
        }
    }
}

/// The features that a `vcp` entry lists from `p` on, up to the end of the
/// input; blanks may stand before, between and behind them.
pub open spec fn features(s: Seq<u8>, p: int) -> Parsed<Seq<VcpView>>
    decreases s.len() - p,
    via features_decreases
{
    let q = span_end(s, p, ByteClass::Blank);
    if q >= s.len() {
        Parsed::Done { value: Seq::empty(), next: q }
    } else {
        match feature(s, q) {
            Parsed::Done { value, next } => prepend(seq![value], features(s, next)),
            Parsed::Failed { kind, at } => Parsed::Failed { kind, at },
        }
    }
}

#[via_fn]
proof fn features_decreases(s: Seq<u8>, p: int) {
    let q = span_end(s, p, ByteClass::Blank);
    lemma_span_grows(s, p, ByteClass::Blank);
    lemma_feature_advances(s, q);
}

/// Reads a byte written as two hexadecimal digits at `q`.
pub(crate) fn hexvalue<'i>(i: &'i [u8], q: usize) -> (r: Result<(u8, usize), ParseError<'i>>)
    requires
        q <= i@.len(),
    ensures
        reads_as(r, i@, hex_byte(i@, q as int)),
{
    if q >= i.len() {
        return Err(ParseError::at(ErrorKind::UnexpectedEndOfInput, i, q));
    }
    let high = match hex_digit(i[q]) {
        Some(d) => d,
        None => {
            return Err(ParseError::at(ErrorKind::InvalidData, i, q));
        },
    };
    if q + 1 >= i.len() {
        return Err(ParseError::at(ErrorKind::UnexpectedEndOfInput, i, q));
    }
    let low = match hex_digit(i[q + 1]) {
        Some(d) => d,
        None => {
            return Err(ParseError::at(ErrorKind::InvalidData, i, q));
        },
    };
    Ok((high * 16 + low, q + 2))
}

/// Reads a hexadecimal byte with blanks on either side.
pub(crate) fn padded_hexvalue<'i>(i: &'i [u8], p: usize) -> (r: Result<(u8, usize), ParseError<'i>>)
    requires
        p <= i@.len(),
    ensures
        reads_as(r, i@, padded_hex(i@, p as int)),
{
    let q = span(i, p, ByteClass::Blank);
    match hexvalue(i, q) {
        Ok((v, next)) => Ok((v, span(i, next, ByteClass::Blank))),
        Err(e) => Err(e),
    }
}

/// Reads a list of hexadecimal bytes from `p` on: up to the closing
/// parenthesis where it is bracketed, up to the end of the input where not.
pub(crate) fn hexarray<'i>(i: &'i [u8], p: usize, bracketed: bool) -> (r: Result<
    (Vec<u8>, usize),
    ParseError<'i>,
>)
    requires
        p <= i@.len(),
    ensures
        reads_as(r, i@, hex_run(i@, p as int, bracketed)),
{
    let mut out: Vec<u8> = Vec::new();
    let mut k: usize = p;
    proof {
        assert(out.deep_view() =~= Seq::<u8>::empty());
        lemma_prepend(Seq::<u8>::empty(), Seq::<u8>::empty(), hex_run(i@, p as int, bracketed));
    }
    loop
        invariant
            p <= k <= i@.len(),
            hex_run(i@, p as int, bracketed) == prepend(
                out.deep_view(),
                hex_run(i@, k as int, bracketed),
            ),
        decreases i@.len() - k,
    {
        if bracketed && k < i.len() && i[k] == CLOSE {
            assert(out.deep_view() + Seq::<u8>::empty() =~= out.deep_view());
            return Ok((out, k + 1));
        }
        if !bracketed && k >= i.len() {
            assert(out.deep_view() + Seq::<u8>::empty() =~= out.deep_view());
            return Ok((out, k));
        }
        proof {
            lemma_padded_hex_advances(i@, k as int);
        }
        match padded_hexvalue(i, k) {
            Err(e) => {
                return Err(e);
            },
            Ok((v, next)) => {
                let ghost before = out.deep_view();
                proof {
                    lemma_prepend(before, seq![v], hex_run(i@, next as int, bracketed));
                }
                out.push(v);
                assert(out.deep_view() =~= before + seq![v]);
                k = next;
            },
        }
    }
}

/// Reads the value of a `mswhql` entry.
pub fn mswhql<'i>(i: &'i [u8]) -> (r: Result<(u8, usize), ParseError<'i>>)
    ensures
        reads_as(r, i@, whql(i@)),
{
    if i.len() == 0 {
        Err(ParseError::at(ErrorKind::UnexpectedEndOfInput, i, 0))
    } else if !ByteClass::Digit.test(i[0]) {
        Err(ParseError::at(ErrorKind::InvalidData, i, 0))
    } else {
        Ok((i[0] - 0x30, 1))
    }
}

/// Reads a decimal number of one byte at `p`.
pub(crate) fn decimal_u8<'i>(i: &'i [u8], p: usize) -> (r: Result<(u8, usize), ParseError<'i>>)
    requires
        p <= i@.len(),
    ensures
        reads_as(r, i@, decimal_byte(i@, p as int)),
{
    let e = span(i, p, ByteClass::Digit);
    if e == p {
        return Err(ParseError::at(stop(i, p), i, p));
    }
    proof {
        lemma_span_end(i@, p as int, ByteClass::Digit);
    }
    match decimal(i, p, e, 255) {
        Some(v) => Ok((v as u8, e)),
        None => Err(ParseError::at(ErrorKind::InvalidData, i, p)),
    }
}

/// Reads the value of a `mccs_ver` entry.
pub fn mccs_ver<'i>(i: &'i [u8]) -> (r: Result<((u8, u8), usize), ParseError<'i>>)
    ensures
        reads_as(r, i@, version_pair(i@)),
{
    if i.len() == 4 {
        if let Ok((major, _)) = hexvalue(i, 0) {
            if let Ok((minor, _)) = hexvalue(i, 2) {
                return Ok(((major, minor), 4));
            }
        }
    }
    let (major, dot) = match decimal_u8(i, 0) {
        Ok(r) => r,
        Err(e) => {
            return Err(e);
        },
    };
    if !(dot < i.len() && i[dot] == DOT) {
        return Err(ParseError::at(stop(i, dot), i, dot));
    }
    match decimal_u8(i, dot + 1) {
        Ok((minor, next)) => Ok(((major, minor), next)),
        Err(e) => Err(e),
    }
}

/// Reads a value of a feature at `p`, with its sub-values if it has any.
pub(crate) fn vcp_value<'i>(i: &'i [u8], p: usize) -> (r: Result<(VcpValue, usize), ParseError<'i>>)
    requires
        p <= i@.len(),
    ensures
        reads_as(r, i@, feature_value(i@, p as int)),
{
    let (value, next) = match padded_hexvalue(i, p) {
        Ok(r) => r,
        Err(e) => {
            return Err(e);
        },
    };
    if next < i.len() && i[next] == OPEN {
        proof {
            lemma_hex_run_advances(i@, next + 1, true);
        }
        match hexarray(i, next + 1, true) {
            Ok((subs, end)) => Ok(
                (VcpValue { value, sub_values: Some(subs) }, span(i, end, ByteClass::Blank)),
            ),
            Err(e) => Err(e),
        }
    } else {
        Ok((VcpValue { value, sub_values: None }, next))
    }
}

/// Reads the bracketed list of the values of a feature from `p` on.
pub(crate) fn vcp_values<'i>(i: &'i [u8], p: usize) -> (r: Result<(Vec<VcpValue>, usize), ParseError<'i>>)
    requires
        p <= i@.len(),
    ensures
        reads_as(r, i@, feature_values(i@, p as int)),
{
    let mut out: Vec<VcpValue> = Vec::new();
    let mut k: usize = p;
    proof {
        assert(out.deep_view() =~= Seq::<VcpValueView>::empty());
        lemma_prepend(
            Seq::<VcpValueView>::empty(),
            Seq::<VcpValueView>::empty(),
            feature_values(i@, p as int),
        );
    }
    loop
        invariant
            p <= k <= i@.len(),
            feature_values(i@, p as int) == prepend(
                out.deep_view(),
                feature_values(i@, k as int),
            ),
        decreases i@.len() - k,
    {
        if k < i.len() && i[k] == CLOSE {
            assert(out.deep_view() + Seq::<VcpValueView>::empty() =~= out.deep_view());
            return Ok((out, k + 1));
        }
        proof {
            lemma_feature_value_advances(i@, k as int);
        }
        match vcp_value(i, k) {
            Err(e) => {
                return Err(e);
            },
            Ok((v, next)) => {
                let ghost before = out.deep_view();
                proof {
                    lemma_prepend(before, seq![v.deep_view()], feature_values(i@, next as int));
                }
                out.push(v);
                assert(out.deep_view() =~= before + seq![v.deep_view()]);
                k = next;
            },
        }
    }
}

/// Reads a feature at `q`, with its values if it lists any.
pub(crate) fn vcp<'i>(i: &'i [u8], q: usize) -> (r: Result<(Vcp, usize), ParseError<'i>>)
    requires
        q <= i@.len(),
    ensures
        reads_as(r, i@, feature(i@, q as int)),
{
    let (code, next) = match padded_hexvalue(i, q) {
        Ok(r) => r,
        Err(e) => {
            return Err(e);
        },
    };
    if next < i.len() && i[next] == OPEN {
        proof {
            lemma_feature_values_advances(i@, next + 1);
        }
        match vcp_values(i, next + 1) {
            Ok((values, end)) => Ok((Vcp { feature: code, values: Some(values) }, end)),
            Err(e) => Err(e),
        }
    } else {
        Ok((Vcp { feature: code, values: None }, next))
    }
}

/// Reads the features that a `vcp` entry lists.
pub fn vcp_list<'i>(i: &'i [u8]) -> (r: Result<(Vec<Vcp>, usize), ParseError<'i>>)
    ensures
        reads_as(r, i@, features(i@, 0)),
{
    let mut out: Vec<Vcp> = Vec::new();
    let mut k: usize = 0;
    proof {
        assert(out.deep_view() =~= Seq::<VcpView>::empty());
        lemma_prepend(Seq::<VcpView>::empty(), Seq::<VcpView>::empty(), features(i@, 0));
    }
    loop
        invariant
            k <= i@.len(),
            features(i@, 0) == prepend(out.deep_view(), features(i@, k as int)),
        decreases i@.len() - k,
    {
        let q = span(i, k, ByteClass::Blank);
        if q >= i.len() {
            assert(out.deep_view() + Seq::<VcpView>::empty() =~= out.deep_view());
            return Ok((out, q));
        }
        proof {
            lemma_feature_advances(i@, q as int);
        }
        match vcp(i, q) {
            Err(e) => {
                return Err(e);
            },
            Ok((v, next)) => {
                let ghost before = out.deep_view();
                proof {
                    lemma_prepend(before, seq![v.deep_view()], features(i@, next as int));
                }
                out.push(v);
                assert(out.deep_view() =~= before + seq![v.deep_view()]);
                k = next;
            },
        }
    }
}

} // verus!
