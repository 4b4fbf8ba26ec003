//! The entry tokenizer: splits a capability string into its tagged entries.
//!
//! An entry is an identifier followed by a parenthesised payload,
//! `tag(payload)`, or by a length-prefixed blob, `tag bin(len(blob))`. The
//! whole string may stand in up to two pairs of parentheses, and space or
//! NUL may pad the closing ones.

use crate::error::{
    failed_at, gathered, lemma_gathered_failure, stop, ErrorKind, Failure, Parsed, ParseError,
};
use crate::lex::{
    byte_text, decimal, decimal_value, lemma_ascii_is_text, lemma_span_end, same_text, span,
    span_end, text, ByteClass, CLOSE, OPEN, SPACE,
};
use vstd::prelude::*;
use vstd::slice::slice_subrange;

verus! {

/// An entry of a capability string.
#[derive(Copy, Clone, Debug, PartialEq, Eq)]
pub enum Value<'i> {
    /// A parenthesised payload.
    String {
        /// The entry's name.
        tag: &'i str,
        /// What stands between the parentheses.
        value: &'i [u8],
    },
    /// A length-prefixed blob.
    Binary {
        /// The entry's name.
        tag: &'i str,
        /// The blob.
        data: &'i [u8],
    },
}

/// An entry as plain values.
pub enum EntryView {
    String { tag: Seq<char>, value: Seq<u8> },
    Binary { tag: Seq<char>, data: Seq<u8> },
}

impl EntryView {
    /// The entry's name.
    pub open spec fn tag(self) -> Seq<char> {
        match self {
            EntryView::String { tag, .. } => tag,
            EntryView::Binary { tag, .. } => tag,
        }
    }
}

impl<'i> View for Value<'i> {
    type V = EntryView;

    open spec fn view(&self) -> EntryView {
        match *self {
            Value::String { tag, value } => EntryView::String { tag: tag@, value: value@ },
            Value::Binary { tag, data } => EntryView::Binary { tag: tag@, data: data@ },
        }
    }
}

/// `cmds`
pub open spec fn word_cmds() -> Seq<u8> {
    seq![0x63u8, 0x6du8, 0x64u8, 0x73u8]
}

/// `model`
pub open spec fn word_model() -> Seq<u8> {
    seq![0x6du8, 0x6fu8, 0x64u8, 0x65u8, 0x6cu8]
}

/// ` bin`
pub open spec fn word_bin() -> Seq<u8> {
    seq![0x20u8, 0x62u8, 0x69u8, 0x6eu8]
}

/// Whether `s` holds the bytes of `word` from position `p` on.
pub open spec fn holds_word(s: Seq<u8>, p: int, word: Seq<u8>) -> bool {
    0 <= p && p + word.len() <= s.len() && forall|k: int|
        0 <= k < word.len() ==> s[p + k] == #[trigger] word[k]
}

/// How many of the parentheses that may wrap a capability string open `s`:
/// two at most.
pub open spec fn opening_count(s: Seq<u8>) -> int {
    if s.len() >= 1 && s[0] == OPEN {
        if s.len() >= 2 && s[1] == OPEN {
            2
        } else {
            1
        }
    } else {
        0
    }
}

/// What follows an entry from `p` on: padding of space and NUL, and closing
/// parentheses for as many of the `budget` opening ones as are still
/// unmatched. Gives the position behind the trailer and the number of
/// parentheses closed.
pub open spec fn trailer(s: Seq<u8>, p: int, budget: nat) -> (int, nat)
    decreases s.len() - p,
{
    if 0 <= p < s.len() && s[p] == CLOSE && budget > 0 {
        let (e, n) = trailer(s, p + 1, (budget - 1) as nat);
        (e, n + 1)
    } else if 0 <= p < s.len() && ByteClass::Padding.has(s[p]) {
        trailer(s, p + 1, budget)
    } else {
        (p, 0)
    }
}

/// A trailer ends inside the input and closes no more parentheses than are
/// open.
pub proof fn lemma_trailer_bounds(s: Seq<u8>, p: int, budget: nat)
    requires
        0 <= p <= s.len(),
    ensures
        p <= trailer(s, p, budget).0 <= s.len(),
        trailer(s, p, budget).1 <= budget,
    decreases s.len() - p,
{
    if p < s.len() && s[p] == CLOSE && budget > 0 {
        lemma_trailer_bounds(s, p + 1, (budget - 1) as nat);
    } else if p < s.len() && ByteClass::Padding.has(s[p]) {
        lemma_trailer_bounds(s, p + 1, budget);
    }
}

/// The position of the parenthesis that closes the payload which `p` lies
/// in, `depth` parentheses deep: the first closing one from `p` on that no
/// opening one from `p` on matches. `None` where the input ends before it.
pub open spec fn closing(s: Seq<u8>, p: int, depth: nat) -> Option<int>
    decreases s.len() - p,
{
    if p < 0 || p >= s.len() {
        None
    } else if s[p] == CLOSE {
        if depth == 0 {
            Some(p)
        } else {
            closing(s, p + 1, (depth - 1) as nat)
        }
    } else if s[p] == OPEN {
        closing(s, p + 1, depth + 1)
    } else {
        closing(s, p + 1, depth)
    }
}

/// The closing parenthesis of a payload is a closing parenthesis inside the
/// input.
pub proof fn lemma_closing_bounds(s: Seq<u8>, p: int, depth: nat)
    requires
        0 <= p,
    ensures
        closing(s, p, depth) matches Some(c) ==> p <= c < s.len() && s[c] == CLOSE,
    decreases s.len() - p,
{
    if p < s.len() {
        if s[p] == CLOSE {
            if depth > 0 {
                lemma_closing_bounds(s, p + 1, (depth - 1) as nat);
            }
        } else if s[p] == OPEN {
            lemma_closing_bounds(s, p + 1, depth + 1);
        } else {
            lemma_closing_bounds(s, p + 1, depth);
        }
    }
}

/// The vendor recovery for a display that writes its model name bare, in
/// front of `cmds(`: the length of the model name that starts at `r`. It is
/// the run of letters and digits from `r` on without its last four bytes,
/// which must be `cmds` with an opening parenthesis behind them, and it is
/// not empty.
pub open spec fn bare_model(s: Seq<u8>, r: int) -> Option<int> {
    let e = span_end(s, r, ByteClass::Alphanumeric);
    if e - r > 4 && holds_word(s, e - 4, word_cmds()) && e < s.len() && s[e] == OPEN {
        Some(e - 4 - r)
    } else {
        None
    }
}

/// Where a bare model name starts at entry position `p`, and its length:
/// behind the word `model` where no parenthesis follows the word, or at `p`
/// itself where the entry before was `type`.
pub open spec fn recovered_model(s: Seq<u8>, p: int, after_type: bool) -> Option<(int, int)> {
    if holds_word(s, p, word_model()) && !(p + 5 < s.len() && s[p + 5] == OPEN) && bare_model(
        s,
        p + 5,
    ) is Some {
        Some((p + 5, bare_model(s, p + 5)->0))
    } else if after_type && bare_model(s, p) is Some {
        Some((p, bare_model(s, p)->0))
    } else {
        None
    }
}

/// The blob of a binary entry, from the parenthesis at `p` that follows
/// ` bin`: `(` blanks, a decimal length that fits 32 bits, blanks, `(`, as
/// many raw bytes as the length says, `)` and `)`.
pub open spec fn blob(s: Seq<u8>, p: int) -> Parsed<Seq<u8>> {
    let d0 = span_end(s, p + 1, ByteClass::Blank);
    let d1 = span_end(s, d0, ByteClass::Digit);
    let n = decimal_value(s, d0, d1);
    let b = span_end(s, d1, ByteClass::Blank);
    if !(0 <= p < s.len() && s[p] == OPEN) {
        failed_at(s, p)
    } else if d1 == d0 {
        failed_at(s, d0)
    } else if n > u32::MAX {
        Parsed::Failed { kind: ErrorKind::InvalidData, at: d0 }
    } else if !(b < s.len() && s[b] == OPEN) {
        failed_at(s, b)
    } else if b + 1 + n > s.len() {
        Parsed::Failed { kind: ErrorKind::UnexpectedEndOfInput, at: b + 1 }
    } else if !(b + 1 + n < s.len() && s[b + 1 + n] == CLOSE) {
        failed_at(s, b + 1 + n)
    } else if !(b + 2 + n < s.len() && s[b + 2 + n] == CLOSE) {
        failed_at(s, b + 2 + n)
    } else {
        Parsed::Done { value: s.subrange(b + 1, b + 1 + n), next: b + 3 + n }
    }
}

/// The payload of a string entry, from the parenthesis at `p` on: all that
/// stands before the parenthesis that closes it. Parentheses inside the
/// payload nest; nothing else of it is read.
pub open spec fn payload(s: Seq<u8>, p: int) -> Parsed<Seq<u8>> {
    if !(0 <= p < s.len() && s[p] == OPEN) {
        failed_at(s, p)
    } else {
        match closing(s, p + 1, 0) {
            None => Parsed::Failed { kind: ErrorKind::UnexpectedEndOfInput, at: p + 1 },
            Some(c) => Parsed::Done { value: s.subrange(p + 1, c), next: c + 1 },
        }
    }
}

/// The entry that `s` starts with, after blanks. `after_type` says that the
/// entry before it was `type`.
pub open spec fn entry(s: Seq<u8>, after_type: bool) -> Parsed<EntryView> {
    let p = span_end(s, 0, ByteClass::Blank);
    let q = span_end(s, p, ByteClass::Ident);
    let tag = byte_text(s.subrange(p, q));
    match recovered_model(s, p, after_type) {
        Some((start, n)) => Parsed::Done {
            value: EntryView::String { tag: "model"@, value: s.subrange(start, start + n) },
            next: start + n,
        },
        None => if q == p {
            failed_at(s, p)
        } else if holds_word(s, q, word_bin()) {
            match blob(s, q + 4) {
                Parsed::Done { value, next } => Parsed::Done {
                    value: EntryView::Binary { tag, data: value },
                    next: span_end(s, next, ByteClass::Blank),
                },
                Parsed::Failed { kind, at } => Parsed::Failed { kind, at },
            }
        } else {
            match payload(s, q) {
                Parsed::Done { value, next } => Parsed::Done {
                    value: EntryView::String { tag, value },
                    next: span_end(s, next, ByteClass::Blank),
                },
                Parsed::Failed { kind, at } => Parsed::Failed { kind, at },
            }
        },
    }
}

/// An entry that was read ends inside the input, and is not empty.
pub proof fn lemma_entry_advances(s: Seq<u8>, after_type: bool)
    ensures
        entry(s, after_type) matches Parsed::Done { next, .. } ==> 0 < next <= s.len(),
        entry(s, after_type) matches Parsed::Failed { at, .. } ==> 0 <= at <= s.len(),
{
    let p = span_end(s, 0, ByteClass::Blank);
    let q = span_end(s, p, ByteClass::Ident);
    lemma_span_end(s, 0, ByteClass::Blank);
    lemma_span_end(s, p, ByteClass::Ident);
    match recovered_model(s, p, after_type) {
        Some((start, n)) => {
            if p + 5 <= s.len() {
                lemma_span_end(s, p + 5, ByteClass::Alphanumeric);
            }
            lemma_span_end(s, p, ByteClass::Alphanumeric);
        },
        None => {
            if q == p {
            } else if holds_word(s, q, word_bin()) {
                assert(word_bin().len() == 4);
                if q + 5 <= s.len() {
                    let d0 = span_end(s, q + 5, ByteClass::Blank);
                    lemma_span_end(s, q + 5, ByteClass::Blank);
                    let d1 = span_end(s, d0, ByteClass::Digit);
                    lemma_span_end(s, d0, ByteClass::Digit);
                    let b = span_end(s, d1, ByteClass::Blank);
                    lemma_span_end(s, d1, ByteClass::Blank);
                    if let Parsed::Done { next, .. } = blob(s, q + 4) {
                        lemma_span_end(s, next, ByteClass::Blank);
                    }
                }
            } else {
                if q < s.len() {
                    lemma_closing_bounds(s, q + 1, 0);
                }
                if let Parsed::Done { next, .. } = payload(s, q) {
                    lemma_span_end(s, next, ByteClass::Blank);
                }
            }
        },
    }
}

/// Whether what a parse returned is what the grammar says of the input.
pub open spec fn reads_entry<'i>(
    r: Result<(Value<'i>, usize), ParseError<'i>>,
    s: Seq<u8>,
    m: Parsed<EntryView>,
) -> bool {
    match m {
        Parsed::Done { value, next } => r matches Ok((v, n)) && v@ == value && n == next,
        Parsed::Failed { kind, at } => r matches Err(e) && e@ == (Failure {
            kind,
            input: s.skip(at),
        }),
    }
}

/// Counts the parentheses that wrap the whole string: the leading opening
/// ones, two at most.
pub fn caps_prefix(i: &[u8]) -> (n: usize)
    ensures
        n == opening_count(i@),
        n <= 2,
        n <= i@.len(),
{
    if i.len() >= 1 && i[0] == OPEN {
        if i.len() >= 2 && i[1] == OPEN {
            2
        } else {
            1
        }
    } else {
        0
    }
}

/// Reads the trailer of an entry from `pos` on: padding, and closing
/// parentheses while `brackets` of the opening ones are unmatched. Returns
/// the position behind the trailer and the number of parentheses closed.
pub(crate) fn caps_suffix(brackets: usize, i: &[u8], pos: usize) -> (r: (usize, usize))
    requires
        pos <= i@.len(),
    ensures
        (r.0 as int, r.1 as nat) == trailer(i@, pos as int, brackets as nat),
        pos <= r.0 <= i@.len(),
        r.1 <= brackets,
{
    let mut p: usize = pos;
    let mut left: usize = brackets;
    let mut closed: usize = 0;
    loop
        invariant
            pos <= p <= i@.len(),
            closed + left == brackets,
            trailer(i@, pos as int, brackets as nat).0 == trailer(i@, p as int, left as nat).0,
            trailer(i@, pos as int, brackets as nat).1 == trailer(i@, p as int, left as nat).1
                + closed,
        ensures
            pos <= p <= i@.len(),
            closed <= brackets,
            trailer(i@, pos as int, brackets as nat) == (p as int, closed as nat),
        decreases i@.len() - p,
    {
        if p < i.len() && i[p] == CLOSE && left > 0 {
            left = left - 1;
            closed = closed + 1;
            p = p + 1;
        } else if p < i.len() && (i[p] == SPACE || i[p] == 0) {
            p = p + 1;
        } else {
            break ;
        }
    }
    (p, closed)
}

/// Finds the parenthesis that closes the payload which starts at `p`.
pub(crate) fn balancedparens(i: &[u8], p: usize) -> (r: Option<usize>)
    requires
        p <= i@.len(),
    ensures
        r is Some <==> closing(i@, p as int, 0) is Some,
        r matches Some(c) ==> closing(i@, p as int, 0) == Some(c as int) && p <= c < i@.len(),
{
    let mut k: usize = p;
    let mut depth: usize = 0;
    while k < i.len()
        invariant
            p <= k <= i@.len(),
            depth <= k - p,
            closing(i@, p as int, 0) == closing(i@, k as int, depth as nat),
        decreases i@.len() - k,
    {
        let c = i[k];
        if c == CLOSE {
            if depth == 0 {
                return Some(k);
            }
            depth = depth - 1;
        } else if c == OPEN {
            depth = depth + 1;
        }
        k = k + 1;
    }
    None
}

/// Tests for the word `cmds` at `p`.
fn cmds_at(i: &[u8], p: usize) -> (r: bool)
    requires
        p + 4 <= i@.len(),
    ensures
        r == holds_word(i@, p as int, word_cmds()),
{
    let r = i[p] == 0x63 && i[p + 1] == 0x6d && i[p + 2] == 0x64 && i[p + 3] == 0x73;
    proof {
        let w = word_cmds();
        if r {
            assert forall|k: int| 0 <= k < w.len() implies i@[p + k] == #[trigger] w[k] by {
                if k == 0 {
                } else if k == 1 {
                } else if k == 2 {
                } else {
                }
            }
        } else {
            assert(w[0] == 0x63 && w[1] == 0x6d && w[2] == 0x64 && w[3] == 0x73);
        }
    }
    r
}

/// Tests for the word `model` at `p`.
fn model_at(i: &[u8], p: usize) -> (r: bool)
    requires
        p <= i@.len(),
    ensures
        r == holds_word(i@, p as int, word_model()),
        r ==> p + 5 <= i@.len(),
{
    if i.len() - p < 5 {
        return false;
    }
    let r = i[p] == 0x6d && i[p + 1] == 0x6f && i[p + 2] == 0x64 && i[p + 3] == 0x65 && i[p + 4]
        == 0x6c;
    proof {
        let w = word_model();
        if r {
            assert forall|k: int| 0 <= k < w.len() implies i@[p + k] == #[trigger] w[k] by {
                if k == 0 {
                } else if k == 1 {
                } else if k == 2 {
                } else if k == 3 {
                } else {
                }
            }
        } else {
            assert(w[0] == 0x6d && w[1] == 0x6f && w[2] == 0x64 && w[3] == 0x65 && w[4] == 0x6c);
        }
    }
    r
}

/// Tests for the word ` bin` at `p`.
fn bin_at(i: &[u8], p: usize) -> (r: bool)
    requires
        p <= i@.len(),
    ensures
        r == holds_word(i@, p as int, word_bin()),
        r ==> p + 4 <= i@.len(),
{
    if i.len() - p < 4 {
        return false;
    }
    let r = i[p] == 0x20 && i[p + 1] == 0x62 && i[p + 2] == 0x69 && i[p + 3] == 0x6e;
    proof {
        let w = word_bin();
        if r {
            assert forall|k: int| 0 <= k < w.len() implies i@[p + k] == #[trigger] w[k] by {
                if k == 0 {
                } else if k == 1 {
                } else if k == 2 {
                } else {
                }
            }
        } else {
            assert(w[0] == 0x20 && w[1] == 0x62 && w[2] == 0x69 && w[3] == 0x6e);
        }
    }
    r
}

/// The vendor recovery for a bare model name at `r`: its length, if one
/// stands there.
pub(crate) fn modelhack(i: &[u8], r: usize) -> (m: Option<usize>)
    requires
        r <= i@.len(),
    ensures
        m is Some <==> bare_model(i@, r as int) is Some,
        m matches Some(n) ==> bare_model(i@, r as int) == Some(n as int) && 0 < n && r + n + 4
            < i@.len(),
{
    let e = span(i, r, ByteClass::Alphanumeric);
    if e - r > 4 && cmds_at(i, e - 4) && e < i.len() && i[e] == OPEN {
        Some(e - 4 - r)
    } else {
        None
    }
}

/// Reads the blob of a binary entry from position `p`, which follows
/// ` bin`. Returns where the blob starts, where it ends, and the position
/// behind the entry's last parenthesis.
fn binary<'i>(i: &'i [u8], p: usize) -> (r: Result<(usize, usize, usize), ParseError<'i>>)
    requires
        p <= i@.len(),
    ensures
        match blob(i@, p as int) {
            Parsed::Done { value, next } => r matches Ok((from, to, n)) && from <= to <= i@.len()
                && value == i@.subrange(from as int, to as int) && n == next && n <= i@.len(),
            Parsed::Failed { kind, at } => r matches Err(e) && e@ == (Failure {
                kind,
                input: i@.skip(at),
            }),
        },
{
    if !(p < i.len() && i[p] == OPEN) {
        return Err(ParseError::at(stop(i, p), i, p));
    }
    let d0 = span(i, p + 1, ByteClass::Blank);
    let d1 = span(i, d0, ByteClass::Digit);
    if d1 == d0 {
        return Err(ParseError::at(stop(i, d0), i, d0));
    }
    proof {
        lemma_span_end(i@, d0 as int, ByteClass::Digit);
    }
    let count = match decimal(i, d0, d1, u32::MAX) {
        Some(n) => n as usize,
        None => {
            return Err(ParseError::at(ErrorKind::InvalidData, i, d0));
        },
    };
    let b = span(i, d1, ByteClass::Blank);
    if !(b < i.len() && i[b] == OPEN) {
        return Err(ParseError::at(stop(i, b), i, b));
    }
    if count > i.len() - (b + 1) {
        return Err(ParseError::at(ErrorKind::UnexpectedEndOfInput, i, b + 1));
    }
    let end = b + 1 + count;
    if !(end < i.len() && i[end] == CLOSE) {
        return Err(ParseError::at(stop(i, end), i, end));
    }
    if !(end + 1 < i.len() && i[end + 1] == CLOSE) {
        return Err(ParseError::at(stop(i, end + 1), i, end + 1));
    }
    Ok((b + 1, end, end + 2))
}

/// Whether a tag, if there is one, is `type`.
pub open spec fn is_type(tag: Option<&str>) -> bool {
    tag matches Some(t) && t@ == "type"@
}

/// Reads the identifier `i[from..to]` as text.
fn ident<'i>(i: &'i [u8], from: usize, to: usize) -> (t: &'i str)
    requires
        from <= to <= i@.len(),
        forall|k: int| from <= k < to ==> ByteClass::Ident.has(#[trigger] i@[k]),
    ensures
        t@ == byte_text(i@.subrange(from as int, to as int)),
{
    let run = slice_subrange(i, from, to);
    proof {
        assert forall|k: int| 0 <= k < run@.len() implies #[trigger] run@[k] < 0x80 by {
            assert(ByteClass::Ident.has(i@[from + k]));
        }
        lemma_ascii_is_text(run@);
    }
    text(run).unwrap()
}

/// Reads the entry that `i` starts with. Returns it with the position
/// behind it.
pub fn entry_at<'i>(i: &'i [u8], previous_tag: Option<&'i str>) -> (r: Result<
    (Value<'i>, usize),
    ParseError<'i>,
>)
    ensures
        reads_entry(r, i@, entry(i@, is_type(previous_tag))),
        r matches Ok((_, n)) ==> 0 < n <= i@.len(),
{
    proof {
        lemma_entry_advances(i@, is_type(previous_tag));
    }
    let len = i.len();
    let p = span(i, 0, ByteClass::Blank);
    if model_at(i, p) && !(p + 5 < len && i[p + 5] == OPEN) {
        if let Some(n) = modelhack(i, p + 5) {
            let value = slice_subrange(i, p + 5, p + 5 + n);
            return Ok((Value::String { tag: "model", value }, p + 5 + n));
        }
    }
    let after_type = match previous_tag {
        Some(t) => same_text(t, "type"),
        None => false,
    };
    if after_type {
        if let Some(n) = modelhack(i, p) {
            let value = slice_subrange(i, p, p + n);
            return Ok((Value::String { tag: "model", value }, p + n));
        }
    }
    let q = span(i, p, ByteClass::Ident);
    if q == p {
        return Err(ParseError::at(stop(i, p), i, p));
    }
    proof {
        lemma_span_end(i@, p as int, ByteClass::Ident);
    }
    let tag = ident(i, p, q);
    if bin_at(i, q) {
        match binary(i, q + 4) {
            Ok((from, to, next)) => {
                let data = slice_subrange(i, from, to);
                let end = span(i, next, ByteClass::Blank);
                Ok((Value::Binary { tag, data }, end))
            },
            Err(e) => Err(e),
        }
    } else {
        if !(q < i.len() && i[q] == OPEN) {
            return Err(ParseError::at(stop(i, q), i, q));
        }
        match balancedparens(i, q + 1) {
            Some(c) => {
                let value = slice_subrange(i, q + 1, c);
                let end = span(i, c + 1, ByteClass::Blank);
                Ok((Value::String { tag, value }, end))
            },
            None => Err(ParseError::at(ErrorKind::UnexpectedEndOfInput, i, q + 1)),
        }
    }
}

/// Entries as plain values.
pub open spec fn entry_views<'i>(entries: Seq<Value<'i>>) -> Seq<EntryView> {
    Seq::new(entries.len(), |k: int| entries[k]@)
}

/// What a parse returned, as plain values.
pub open spec fn outcome<'i>(r: Result<Value<'i>, ParseError<'i>>) -> Result<EntryView, Failure> {
    match r {
        Ok(v) => Ok(v@),
        Err(e) => Err(e@),
    }
}

/// The same of each of a list of results.
pub open spec fn outcomes<'i>(v: Seq<Result<Value<'i>, ParseError<'i>>>) -> Seq<
    Result<EntryView, Failure>,
> {
    Seq::new(v.len(), |k: int| outcome(v[k]))
}

impl<'i> Value<'i> {
    /// Starts the tokenizer on a capability string.
    pub fn parse_capabilities(capability_string: &'i [u8]) -> (p: ValueParser<'i>)
        ensures
            p == (ValueParser { input: capability_string, brackets: None, previous_tag: None }),
    {
        ValueParser::new(capability_string)
    }

    /// Reads the one entry that `data` starts with; what follows it is not
    /// looked at.
    pub fn parse(data: &'i str) -> (r: Result<Self, ParseError<'i>>)
        ensures
            outcome(r) == first_entry(vstd::utf8::encode_utf8(data@)),
    {
        Self::parse_bytes(data.as_bytes())
    }

    /// Reads the one entry that `data` starts with; what follows it is not
    /// looked at.
    pub fn parse_bytes(data: &'i [u8]) -> (r: Result<Self, ParseError<'i>>)
        ensures
            outcome(r) == first_entry(data@),
    {
        match entry_at(data, None) {
            Ok((v, _)) => Ok(v),
            Err(e) => Err(e),
        }
    }

    /// Reads the entry that `input` starts with, and returns it with the
    /// input that follows it. `previous_tag` is the tag of the entry read
    /// before, which decides whether a bare model name is looked for.
    pub fn parse_nom(input: &'i [u8], previous_tag: Option<&'i str>) -> (r: Result<
        (&'i [u8], Self),
        ParseError<'i>,
    >)
        ensures
            match entry(input@, is_type(previous_tag)) {
                Parsed::Done { value, next } => r matches Ok((rest, v)) && v@ == value && rest@
                    == input@.skip(next),
                Parsed::Failed { kind, at } => r matches Err(e) && e@ == (Failure {
                    kind,
                    input: input@.skip(at),
                }),
            },
    {
        match entry_at(input, previous_tag) {
            Ok((v, next)) => Ok((slice_subrange(input, next, input.len()), v)),
            Err(e) => Err(e),
        }
    }

    /// A tokenizer with nothing to read.
    pub fn nom_parser() -> (p: ValueParser<'i>)
        ensures
            p.input@.len() == 0,
            p.brackets is None,
            p.previous_tag is None,
    {
        ValueParser::default()
    }

    /// The entry's name.
    pub fn tag(&self) -> (t: &'i str)
        ensures
            t@ == self@.tag(),
    {
        match *self {
            Value::String { tag, .. } => tag,
            Value::Binary { tag, .. } => tag,
        }
    }
}

/// The first entry of `s`, read on its own.
pub open spec fn first_entry(s: Seq<u8>) -> Result<EntryView, Failure> {
    match entry(s, false) {
        Parsed::Done { value, .. } => Ok(value),
        Parsed::Failed { kind, at } => Err(Failure { kind, input: s.skip(at) }),
    }
}

/// The tokenizer: what is left of the capability string, how many of the
/// parentheses that wrap it are still open (`None` before the first entry,
/// when they have not been counted), and the tag of the entry read last.
#[derive(Clone, Debug, PartialEq, Eq)]
pub struct ValueParser<'i> {
    pub input: &'i [u8],
    pub brackets: Option<usize>,
    pub previous_tag: Option<&'i str>,
}

/// One step of the tokenizer, as plain values: what it returns and the state
/// it leaves.
pub struct Step {
    pub result: Result<EntryView, Failure>,
    pub input: Seq<u8>,
    pub brackets: usize,
    pub after_type: bool,
}

/// The step that the tokenizer takes from a state. Before the first entry it
/// counts and skips the opening parentheses that wrap the string. Then it
/// reads one entry and its trailer. A failure leaves the input at the entry
/// that failed.
pub open spec fn step(input: Seq<u8>, brackets: Option<usize>, after_type: bool) -> Step {
    let off = if brackets is None {
        opening_count(input)
    } else {
        0
    };
    let budget: usize = if brackets is None {
        off as usize
    } else {
        brackets->0
    };
    let body = input.skip(off);
    match entry(body, after_type) {
        Parsed::Failed { kind, at } => Step {
            result: Err(Failure { kind, input: body.skip(at) }),
            input: body,
            brackets: budget,
            after_type,
        },
        Parsed::Done { value, next } => {
            let (e, n) = trailer(body, next, budget as nat);
            Step {
                result: Ok(value),
                input: body.skip(e),
                brackets: (budget - n) as usize,
                after_type: value.tag() == "type"@,
            }
        },
    }
}

/// A step that reads an entry shortens the input.
pub proof fn lemma_step_advances(input: Seq<u8>, brackets: Option<usize>, after_type: bool)
    ensures
        step(input, brackets, after_type).result is Ok ==> step(
            input,
            brackets,
            after_type,
        ).input.len() < input.len(),
{
    let off = if brackets is None {
        opening_count(input)
    } else {
        0
    };
    let budget: usize = if brackets is None {
        off as usize
    } else {
        brackets->0
    };
    let body = input.skip(off);
    lemma_entry_advances(body, after_type);
    if let Parsed::Done { value, next } = entry(body, after_type) {
        lemma_trailer_bounds(body, next, budget as nat);
    }
}

/// All that the tokenizer returns from a state on, in order: one result for
/// each entry up to the end of the input, or up to the first failure, which
/// is the last result then.
pub open spec fn entries(input: Seq<u8>, brackets: Option<usize>, after_type: bool) -> Seq<
    Result<EntryView, Failure>,
>
    decreases input.len(),
{
    let st = step(input, brackets, after_type);
    if input.len() == 0 {
        Seq::empty()
    } else if st.result is Ok && st.input.len() < input.len() {
        seq![st.result] + entries(st.input, Some(st.brackets), st.after_type)
    } else {
        seq![st.result]
    }
}

/// The tokenizer as plain values.
pub struct ParserView {
    pub input: Seq<u8>,
    pub brackets: Option<usize>,
    pub previous_tag: Option<Seq<char>>,
}

impl<'i> View for ValueParser<'i> {
    type V = ParserView;

    open spec fn view(&self) -> ParserView {
        ParserView {
            input: self.input@,
            brackets: self.brackets,
            previous_tag: match self.previous_tag {
                Some(t) => Some(t@),
                None => None,
            },
        }
    }
}

/// Whether the tokenizer `after` and the result `r` are what one step makes
/// of the tokenizer `before`. The result and what is left of the input are
/// those of `step`. The tag read last is that of the entry read; a failure
/// leaves it as it was. A failure changes nothing at all where the
/// parentheses that wrap the string were counted before; where they were
/// not, it counts and skips them.
pub open spec fn stepped<'i>(
    before: ValueParser<'i>,
    after: ValueParser<'i>,
    r: Result<Value<'i>, ParseError<'i>>,
) -> bool {
    let st = step(before.input@, before.brackets, before.after_type());
    &&& outcome(r) == st.result
    &&& after.input@ == st.input
    &&& after.brackets == Some(st.brackets)
    &&& after.after_type() == st.after_type
    &&& r matches Ok(v) ==> (after.previous_tag matches Some(t) && t@ == v@.tag())
    &&& r is Err ==> after.previous_tag == before.previous_tag
    &&& r is Err && before.brackets is Some ==> after == before
}

impl<'i> Default for ValueParser<'i> {
    /// A tokenizer with nothing to read.
    fn default() -> (p: Self)
        ensures
            p.input@.len() == 0,
            p.brackets is None,
            p.previous_tag is None,
    {
        ValueParser { input: &[], brackets: None, previous_tag: None }
    }
}

impl<'i> ValueParser<'i> {
    /// Whether the entry read last was `type`.
    pub open spec fn after_type(&self) -> bool {
        is_type(self.previous_tag)
    }

    /// A tokenizer at the start of a capability string.
    pub fn new(capability_string: &'i [u8]) -> (p: Self)
        ensures
            p == (ValueParser { input: capability_string, brackets: None, previous_tag: None }),
    {
        ValueParser { input: capability_string, brackets: None, previous_tag: None }
    }

    /// Reads the next entry and its trailer. A failure leaves the tag read
    /// last as it was, and the whole tokenizer where the parentheses that
    /// wrap the string were counted before.
    pub fn nom(&mut self) -> (r: Result<Value<'i>, ParseError<'i>>)
        ensures
            stepped(*old(self), *final(self), r),
    {
        let budget: usize = match self.brackets {
            None => {
                let n = caps_prefix(self.input);
                self.input = slice_subrange(self.input, n, self.input.len());
                self.brackets = Some(n);
                n
            },
            Some(b) => b,
        };
        let body = self.input;
        assert(old(self).input@.skip(0) =~= old(self).input@);
        match entry_at(body, self.previous_tag) {
            Err(e) => Err(e),
            Ok((v, next)) => {
                self.previous_tag = Some(v.tag());
                let (end, closed) = caps_suffix(budget, body, next);
                self.input = slice_subrange(body, end, body.len());
                self.brackets = Some(budget - closed);
                Ok(v)
            },
        }
    }

    /// Reads the next entry and its trailer, as `nom` does.
    pub fn nom_result(&mut self) -> (r: Result<Value<'i>, ParseError<'i>>)
        ensures
            stepped(*old(self), *final(self), r),
    {
        self.nom()
    }

    /// Reads the next entry, if any input is left.
    pub fn next(&mut self) -> (r: Option<Result<Value<'i>, ParseError<'i>>>)
        ensures
            old(self).input@.len() == 0 ==> r is None && *final(self) == *old(self),
            old(self).input@.len() > 0 ==> r is Some && stepped(*old(self), *final(self), r->0),
    {
        if self.input.len() == 0 {
            None
        } else {
            Some(self.nom_result())
        }
    }

    /// Reads all entries that are left: the entries in order where none
    /// fails, the first failure where one does.
    pub fn collect(self) -> (r: Result<Vec<Value<'i>>, ParseError<'i>>)
        ensures
            match gathered(entries(self.input@, self.brackets, self.after_type())) {
                Ok(es) => r matches Ok(v) && entry_views(v@) == es,
                Err(f) => r matches Err(e) && e@ == f,
            },
    {
        let ghost all = entries(self.input@, self.brackets, self.after_type());
        let results = self.nom_iter();
        let ghost rs = outcomes(results@);
        let mut out: Vec<Value<'i>> = Vec::new();
        let mut k: usize = 0;
        assert(rs.take(0) =~= Seq::empty());
        assert(entry_views(out@) =~= Seq::empty());
        while k < results.len()
            invariant
                k <= results@.len(),
                rs == outcomes(results@),
                rs == all,
                all == entries(self.input@, self.brackets, self.after_type()),
                gathered(rs.take(k as int)) == Ok::<Seq<EntryView>, Failure>(entry_views(out@)),
            decreases results@.len() - k,
        {
            proof {
                assert(rs.take(k + 1).drop_last() =~= rs.take(k as int));
                assert(rs.take(k + 1).last() == outcome(results@[k as int]));
            }
            match results[k] {
                Ok(v) => {
                    let ghost before = entry_views(out@);
                    out.push(v);
                    assert(entry_views(out@) =~= before.push(v@));
                },
                Err(e) => {
                    proof {
                        lemma_gathered_failure(rs, k + 1);
                    }
                    return Err(e);
                },
            }
            k = k + 1;
        }
        assert(rs.take(k as int) =~= rs);
        Ok(out)
    }

    /// Reads all entries that are left, up to the first failure.
    pub fn nom_iter(self) -> (out: Vec<Result<Value<'i>, ParseError<'i>>>)
        ensures
            outcomes(out@) == entries(self.input@, self.brackets, self.after_type()),
    {
        let mut parser = self;
        let mut out: Vec<Result<Value<'i>, ParseError<'i>>> = Vec::new();
        let mut failed = false;
        while !failed && parser.input.len() > 0
            invariant
                entries(self.input@, self.brackets, self.after_type()) == outcomes(out@) + (
                if failed {
                    Seq::empty()
                } else {
                    entries(parser.input@, parser.brackets, parser.after_type())
                }),
            decreases
                    if failed {
                        0
                    } else {
                        parser.input@.len() + 1
                    },
        {
            proof {
                lemma_step_advances(parser.input@, parser.brackets, parser.after_type());
            }
            let ghost before = outcomes(out@);
            let r = parser.nom_result();
            if r.is_err() {
                failed = true;
            }
            out.push(r);
            assert(outcomes(out@) =~= before + seq![outcome(r)]);
        }
        assert(outcomes(out@) + Seq::empty() =~= outcomes(out@));
        out
    }
}

} // verus!
