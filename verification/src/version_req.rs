//! Requirement expressions: comparisons of a value with literals, joined by
//! `&&` and `||` and grouped by parentheses.
//!
//! ```text
//! expr       := primary ( ("&&" | "||") expr )?
//! primary    := "(" expr ")" | comparison
//! comparison := ( "<=" | "<" | ">=" | ">" | "=" )? literal
//! ```
//!
//! The two operators bind alike and to the right: `a && b || c` is
//! `a && (b || c)`. A comparison without an operator tests for equality.

use crate::error::{failed_at, stop, ErrorKind, Failure, Parsed, ParseError};
use crate::format::{
    decimal_bytes, decimal_digits, lemma_decimal_bytes, lemma_decimal_reads_back, push_decimal,
};
use crate::grammar::{decimal_byte, decimal_u8};
use crate::lex::{
    byte_text, hex_digit, hex_digit_value, is_digit, is_hex_digit, lemma_span_end_is,
    lemma_span_grows, span, span_end, ByteClass, CLOSE, DOT, OPEN, SPACE,
};
use crate::model::Version;
use vstd::prelude::*;

verus! {

/// A requirement on a value of type `V`.
#[derive(Debug, PartialEq, Eq, PartialOrd, Ord)]
pub enum Req<V> {
    Bracket(Box<Req<V>>),
    And(Box<Req<V>>, Box<Req<V>>),
    Or(Box<Req<V>>, Box<Req<V>>),
    Eq(V),
    Ge(V),
    Le(V),
    Gt(V),
    Lt(V),
}

/// Whether `b` is a copy of `a`: the same expression, over copies of its
/// literals.
pub open spec fn copied<V: Clone>(a: Req<V>, b: Req<V>) -> bool
    decreases a,
{
    match (a, b) {
        (Req::Bracket(x), Req::Bracket(y)) => copied(*x, *y),
        (Req::And(x, z), Req::And(y, w)) => copied(*x, *y) && copied(*z, *w),
        (Req::Or(x, z), Req::Or(y, w)) => copied(*x, *y) && copied(*z, *w),
        (Req::Eq(x), Req::Eq(y)) => vstd::pervasive::cloned::<V>(x, y),
        (Req::Ge(x), Req::Ge(y)) => vstd::pervasive::cloned::<V>(x, y),
        (Req::Le(x), Req::Le(y)) => vstd::pervasive::cloned::<V>(x, y),
        (Req::Gt(x), Req::Gt(y)) => vstd::pervasive::cloned::<V>(x, y),
        (Req::Lt(x), Req::Lt(y)) => vstd::pervasive::cloned::<V>(x, y),
        _ => false,
    }
}

impl<V: Clone> Clone for Req<V> {
    fn clone(&self) -> (res: Self)
        ensures
            copied(*self, res),
        decreases self,
    {
        match self {
            Req::Bracket(inner) => Req::Bracket(Box::new((&**inner).clone())),
            Req::And(lhs, rhs) => Req::And(
                Box::new((&**lhs).clone()),
                Box::new((&**rhs).clone()),
            ),
            Req::Or(lhs, rhs) => Req::Or(Box::new((&**lhs).clone()), Box::new((&**rhs).clone())),
            Req::Eq(x) => Req::Eq(x.clone()),
            Req::Ge(x) => Req::Ge(x.clone()),
            Req::Le(x) => Req::Le(x.clone()),
            Req::Gt(x) => Req::Gt(x.clone()),
            Req::Lt(x) => Req::Lt(x.clone()),
        }
    }
}

/// A requirement on an MCCS version.
pub type VersionReq = Req<Version>;

/// Whether what a parse returned is what the grammar says of the input `s`.
pub open spec fn reads_value<'i, T>(
    r: Result<(T, usize), ParseError<'i>>,
    s: Seq<u8>,
    m: Parsed<T>,
) -> bool {
    match m {
        Parsed::Done { value, next } => r matches Ok((v, n)) && v == value && n == next && next
            <= s.len(),
        Parsed::Failed { kind, at } => r matches Err(e) && e@ == (Failure {
            kind,
            input: s.skip(at),
        }),
    }
}

/// The same for a parse that reads its whole input.
pub open spec fn reads_whole<'i, T>(r: Result<T, ParseError<'i>>, m: Result<T, Failure>) -> bool {
    match m {
        Ok(value) => r matches Ok(v) && v == value,
        Err(f) => r matches Err(e) && e@ == f,
    }
}

/// A type of values that requirements are made on: ordered, with literals
/// that can be read and written.
pub trait ReqValue: Sized {
    /// The place of the value in the order of its type.
    spec fn rank(&self) -> int;

    /// The literal at `p`, blanks around it included.
    spec fn literal(s: Seq<u8>, p: int) -> Parsed<Self>;

    /// The value as a literal.
    spec fn text(&self) -> Seq<char>;

    /// The value as the bytes of a literal.
    spec fn bytes(&self) -> Seq<u8>;

    /// The bytes of a literal start with a digit, hold digits and dots
    /// only, and spell the text of the value.
    proof fn lemma_bytes(x: Self)
        ensures
            x.bytes().len() > 0,
            is_digit(x.bytes()[0]),
            forall|k: int|
                0 <= k < x.bytes().len() ==> is_digit(#[trigger] x.bytes()[k]) || x.bytes()[k]
                    == DOT,
            x.text() == byte_text(x.bytes()),
    ;

    /// A value that is written out at `p` reads back, where the input ends
    /// or goes on with a space or a closing parenthesis behind it.
    proof fn lemma_literal_reads_back(s: Seq<u8>, p: int, x: Self)
        requires
            0 <= p,
            p + x.bytes().len() <= s.len(),
            forall|k: int| 0 <= k < x.bytes().len() ==> s[p + k] == #[trigger] x.bytes()[k],
            p + x.bytes().len() < s.len() ==> ends_literal(s[p + x.bytes().len()]),
        ensures
            Self::literal(s, p) == (Parsed::Done {
                value: x,
                next: span_end(s, p + x.bytes().len(), ByteClass::Blank),
            }),
    ;

    /// A literal is not empty and ends inside the input.
    proof fn lemma_literal_advances(s: Seq<u8>, p: int)
        ensures
            Self::literal(s, p) matches Parsed::Done { next, .. } ==> p < next && (0 <= p
                <= s.len() ==> next <= s.len()),
            Self::literal(s, p) matches Parsed::Failed { at, .. } ==> (0 <= p <= s.len() ==> p
                <= at <= s.len()),
    ;

    /// Reads the literal at `p`.
    fn parse_nom<'i>(i: &'i [u8], p: usize) -> (r: Result<(Self, usize), ParseError<'i>>)
        requires
            p <= i@.len(),
        ensures
            reads_value(r, i@, Self::literal(i@, p as int)),
    ;

    /// Whether the value comes before `other`.
    fn before(&self, other: &Self) -> (r: bool)
        ensures
            r == (self.rank() < other.rank()),
    ;

    /// Whether the value has the place of `other`.
    fn same(&self, other: &Self) -> (r: bool)
        ensures
            r == (self.rank() == other.rank()),
    ;

    /// Writes the value as a literal.
    fn push_text(&self, out: &mut String)
        ensures
            final(out)@ == old(out)@ + self.text(),
    ;
}

/// A byte that may stand behind a literal in a requirement that is written
/// out: a space or a closing parenthesis.
pub open spec fn ends_literal(b: u8) -> bool {
    b == SPACE || b == CLOSE
}

/// Whether the value `v` meets the requirement `r`.
pub open spec fn holds<V: ReqValue>(r: Req<V>, v: V) -> bool
    decreases r,
{
    match r {
        Req::Bracket(inner) => holds(*inner, v),
        Req::And(lhs, rhs) => holds(*lhs, v) && holds(*rhs, v),
        Req::Or(lhs, rhs) => holds(*lhs, v) || holds(*rhs, v),
        Req::Eq(x) => v.rank() == x.rank(),
        Req::Ge(x) => v.rank() >= x.rank(),
        Req::Le(x) => v.rank() <= x.rank(),
        Req::Gt(x) => v.rank() > x.rank(),
        Req::Lt(x) => v.rank() < x.rank(),
    }
}

/// The requirement as text: a comparison always with its operator, `&&` and
/// `||` with a space on either side.
pub open spec fn req_text<V: ReqValue>(r: Req<V>) -> Seq<char>
    decreases r,
{
    match r {
        Req::Bracket(inner) => seq!['('] + req_text(*inner) + seq![')'],
        Req::And(lhs, rhs) => req_text(*lhs) + seq![' ', '&', '&', ' '] + req_text(*rhs),
        Req::Or(lhs, rhs) => req_text(*lhs) + seq![' ', '|', '|', ' '] + req_text(*rhs),
        Req::Eq(x) => seq!['='] + x.text(),
        Req::Gt(x) => seq!['>'] + x.text(),
        Req::Ge(x) => seq!['>', '='] + x.text(),
        Req::Lt(x) => seq!['<'] + x.text(),
        Req::Le(x) => seq!['<', '='] + x.text(),
    }
}

/// The comparison operators.
#[derive(Clone, Copy, Debug, PartialEq, Eq, Structural)]
pub enum Comparison {
    Eq,
    Ge,
    Le,
    Gt,
    Lt,
}

impl Comparison {
    /// The comparison of this kind with the literal `x`.
    pub open spec fn with<V>(self, x: V) -> Req<V> {
        match self {
            Comparison::Eq => Req::Eq(x),
            Comparison::Ge => Req::Ge(x),
            Comparison::Le => Req::Le(x),
            Comparison::Gt => Req::Gt(x),
            Comparison::Lt => Req::Lt(x),
        }
    }

    /// Makes the comparison of this kind with the literal `x`.
    pub fn of<V>(self, x: V) -> (r: Req<V>)
        ensures
            r == self.with(x),
    {
        match self {
            Comparison::Eq => Req::Eq(x),
            Comparison::Ge => Req::Ge(x),
            Comparison::Le => Req::Le(x),
            Comparison::Gt => Req::Gt(x),
            Comparison::Lt => Req::Lt(x),
        }
    }
}

/// `<`
pub const LESS: u8 = 0x3c;

/// `=`
pub const EQUAL: u8 = 0x3d;

/// `>`
pub const GREATER: u8 = 0x3e;

/// `&`
pub const AMPERSAND: u8 = 0x26;

/// `|`
pub const BAR: u8 = 0x7c;

/// The operator that stands at `q` and the position behind it; equality
/// and `q` itself where none stands there.
pub open spec fn operator(s: Seq<u8>, q: int) -> (Comparison, int) {
    if 0 <= q < s.len() && s[q] == LESS {
        if q + 1 < s.len() && s[q + 1] == EQUAL {
            (Comparison::Le, q + 2)
        } else {
            (Comparison::Lt, q + 1)
        }
    } else if 0 <= q < s.len() && s[q] == GREATER {
        if q + 1 < s.len() && s[q + 1] == EQUAL {
            (Comparison::Ge, q + 2)
        } else {
            (Comparison::Gt, q + 1)
        }
    } else if 0 <= q < s.len() && s[q] == EQUAL {
        (Comparison::Eq, q + 1)
    } else {
        (Comparison::Eq, q)
    }
}

/// A comparison at `p`: blanks, an operator or none, and a literal.
pub open spec fn comparison<V: ReqValue>(s: Seq<u8>, p: int) -> Parsed<Req<V>> {
    let (op, q) = operator(s, span_end(s, p, ByteClass::Blank));
    match V::literal(s, q) {
        Parsed::Done { value, next } => Parsed::Done { value: op.with(value), next },
        Parsed::Failed { kind, at } => Parsed::Failed { kind, at },
    }
}

/// Whether `&&` or `||` stands at `a`, and which: `Some(true)` for `&&`.
pub open spec fn junction(s: Seq<u8>, a: int) -> Option<bool> {
    if 0 <= a && a + 1 < s.len() && s[a] == AMPERSAND && s[a + 1] == AMPERSAND {
        Some(true)
    } else if 0 <= a && a + 1 < s.len() && s[a] == BAR && s[a + 1] == BAR {
        Some(false)
    } else {
        None
    }
}

/// The expression at `p`. A primary comes first: a bracketed expression
/// where a parenthesis stands at `p`, a comparison where not. Where `&&` or
/// `||` follows it, behind blanks, the rest is read as one expression and is
/// its right-hand side. (A primary always ends behind `p`: see
/// `lemma_expr_advances`. The test for it serves the recursion alone.)
pub open spec fn expr<V: ReqValue>(s: Seq<u8>, p: int) -> Parsed<Req<V>>
    decreases s.len() - p, 1int,
    via expr_decreases::<V>
{
    match primary::<V>(s, p) {
        Parsed::Failed { kind, at } => Parsed::Failed { kind, at },
        Parsed::Done { value: lhs, next } => {
            let a = span_end(s, next, ByteClass::Blank);
            let b = span_end(s, a + 2, ByteClass::Blank);
            match junction(s, a) {
                None => Parsed::Done { value: lhs, next: a },
                Some(and) => if !(p < next <= s.len()) {
                    Parsed::Failed { kind: ErrorKind::InvalidData, at: p }
                } else {
                    match expr::<V>(s, b) {
                        Parsed::Failed { kind, at } => Parsed::Failed { kind, at },
                        Parsed::Done { value: rhs, next: end } => Parsed::Done {
                            value: if and {
                                Req::And(Box::new(lhs), Box::new(rhs))
                            } else {
                                Req::Or(Box::new(lhs), Box::new(rhs))
                            },
                            next: end,
                        },
                    }
                },
            }
        },
    }
}

/// The primary at `p`: `(`, an expression and `)`, or a comparison.
pub open spec fn primary<V: ReqValue>(s: Seq<u8>, p: int) -> Parsed<Req<V>>
    decreases s.len() - p, 0int,
    via primary_decreases::<V>
{
    if 0 <= p < s.len() && s[p] == OPEN {
        match expr::<V>(s, p + 1) {
            Parsed::Failed { kind, at } => Parsed::Failed { kind, at },
            Parsed::Done { value, next } => if next < s.len() && s[next] == CLOSE {
                Parsed::Done { value: Req::Bracket(Box::new(value)), next: next + 1 }
            } else {
                failed_at(s, next)
            },
        }
    } else {
        comparison::<V>(s, p)
    }
}

#[via_fn]
proof fn expr_decreases<V: ReqValue>(s: Seq<u8>, p: int) {
    assert forall|n: int| #![trigger span_end(s, n, ByteClass::Blank)]
        span_end(s, n, ByteClass::Blank) >= n && (0 <= n <= s.len() ==> span_end(
            s,
            n,
            ByteClass::Blank,
        ) <= s.len()) by {
        lemma_span_grows(s, n, ByteClass::Blank);
    }
}

#[via_fn]
proof fn primary_decreases<V: ReqValue>(s: Seq<u8>, p: int) {
}

/// The requirement that the whole of `s` writes.
pub open spec fn requirement<V: ReqValue>(s: Seq<u8>) -> Result<Req<V>, Failure> {
    expr::<V>(s, 0).whole(s)
}

/// A comparison is not empty and ends inside the input.
pub proof fn lemma_comparison_advances<V: ReqValue>(s: Seq<u8>, p: int)
    requires
        0 <= p <= s.len(),
    ensures
        comparison::<V>(s, p) matches Parsed::Done { next, .. } ==> p < next <= s.len(),
        comparison::<V>(s, p) matches Parsed::Failed { at, .. } ==> p <= at <= s.len(),
{
    let q0 = span_end(s, p, ByteClass::Blank);
    lemma_span_grows(s, p, ByteClass::Blank);
    let (op, q) = operator(s, q0);
    V::lemma_literal_advances(s, q);
}

/// An expression and a primary are not empty and end inside the input.
pub proof fn lemma_expr_advances<V: ReqValue>(s: Seq<u8>, p: int, which: int)
    requires
        0 <= p <= s.len(),
        which == 0 || which == 1,
    ensures
        which == 1 ==> (expr::<V>(s, p) matches Parsed::Done { next, .. } ==> p < next <= s.len()),
        which == 1 ==> (expr::<V>(s, p) matches Parsed::Failed { at, .. } ==> p <= at <= s.len()),
        which == 0 ==> (primary::<V>(s, p) matches Parsed::Done { next, .. } ==> p < next
            <= s.len()),
        which == 0 ==> (primary::<V>(s, p) matches Parsed::Failed { at, .. } ==> p <= at
            <= s.len()),
    decreases s.len() - p, which,
{
    if which == 0 {
        if p < s.len() && s[p] == OPEN {
            lemma_expr_advances::<V>(s, p + 1, 1);
        } else {
            lemma_comparison_advances::<V>(s, p);
        }
    } else {
        lemma_expr_advances::<V>(s, p, 0);
        if let Parsed::Done { value: lhs, next } = primary::<V>(s, p) {
            let a = span_end(s, next, ByteClass::Blank);
            lemma_span_grows(s, next, ByteClass::Blank);
            if junction(s, a) is Some {
                let b = span_end(s, a + 2, ByteClass::Blank);
                lemma_span_grows(s, a + 2, ByteClass::Blank);
                lemma_expr_advances::<V>(s, b, 1);
            }
        }
    }
}

/// Reads a comparison at `p`.
pub fn parse_req<'i, V: ReqValue>(i: &'i [u8], p: usize) -> (r: Result<
    (Req<V>, usize),
    ParseError<'i>,
>)
    requires
        p <= i@.len(),
    ensures
        reads_value(r, i@, comparison::<V>(i@, p as int)),
{
    let q = span(i, p, ByteClass::Blank);
    let len = i.len();
    let (op, at) = if q < len && i[q] == LESS {
        if q + 1 < len && i[q + 1] == EQUAL {
            (Comparison::Le, q + 2)
        } else {
            (Comparison::Lt, q + 1)
        }
    } else if q < len && i[q] == GREATER {
        if q + 1 < len && i[q + 1] == EQUAL {
            (Comparison::Ge, q + 2)
        } else {
            (Comparison::Gt, q + 1)
        }
    } else if q < len && i[q] == EQUAL {
        (Comparison::Eq, q + 1)
    } else {
        (Comparison::Eq, q)
    };
    match V::parse_nom(i, at) {
        Ok((x, next)) => Ok((op.of(x), next)),
        Err(e) => Err(e),
    }
}

/// Reads the expression at `p`.
pub fn parse_req_expr<'i, V: ReqValue>(i: &'i [u8], p: usize) -> (r: Result<
    (Req<V>, usize),
    ParseError<'i>,
>)
    requires
        p <= i@.len(),
    ensures
        reads_value(r, i@, expr::<V>(i@, p as int)),
    decreases i@.len() - p,
{
    let len = i.len();
    proof {
        lemma_expr_advances::<V>(i@, p as int, 0);
    }
    let (lhs, next) = if p < len && i[p] == OPEN {
        match parse_req_expr::<V>(i, p + 1) {
            Err(e) => {
                return Err(e);
            },
            Ok((inner, next)) => {
                if !(next < len && i[next] == CLOSE) {
                    return Err(ParseError::at(stop(i, next), i, next));
                }
                (Req::Bracket(Box::new(inner)), next + 1)
            },
        }
    } else {
        match parse_req::<V>(i, p) {
            Err(e) => {
                return Err(e);
            },
            Ok(r) => r,
        }
    };
    let a = span(i, next, ByteClass::Blank);
    let and = if len - a >= 2 && i[a] == AMPERSAND && i[a + 1] == AMPERSAND {
        true
    } else if len - a >= 2 && i[a] == BAR && i[a + 1] == BAR {
        false
    } else {
        return Ok((lhs, a));
    };
    let b = span(i, a + 2, ByteClass::Blank);
    match parse_req_expr::<V>(i, b) {
        Err(e) => Err(e),
        Ok((rhs, end)) => Ok(
            (
                if and {
                    Req::And(Box::new(lhs), Box::new(rhs))
                } else {
                    Req::Or(Box::new(lhs), Box::new(rhs))
                },
                end,
            ),
        ),
    }
}

/// Reads the requirement that the text `req` writes.
pub fn parse_requirement<'i, V: ReqValue>(req: &'i str) -> (r: Result<Req<V>, ParseError<'i>>)
    ensures
        reads_whole(r, requirement::<V>(vstd::utf8::encode_utf8(req@))),
{
    let i = req.as_bytes();
    match parse_req_expr::<V>(i, 0) {
        Err(e) => Err(e),
        Ok((req, next)) => if next >= i.len() {
            Ok(req)
        } else {
            Err(ParseError::at(ErrorKind::InvalidData, i, next))
        },
    }
}

impl<V: ReqValue> Req<V> {
    /// Both requirements.
    pub fn and(self, rhs: Self) -> (r: Self)
        ensures
            r == Req::And(Box::new(self), Box::new(rhs)),
    {
        Req::And(Box::new(self), Box::new(rhs))
    }

    /// One of the requirements, or both.
    pub fn or(self, rhs: Self) -> (r: Self)
        ensures
            r == Req::Or(Box::new(self), Box::new(rhs)),
    {
        Req::Or(Box::new(self), Box::new(rhs))
    }

    /// Whether the value `v` meets the requirement.
    pub fn matches(&self, v: &V) -> (r: bool)
        ensures
            r == holds(*self, *v),
        decreases *self,
    {
        match self {
            Req::Bracket(inner) => inner.matches(v),
            Req::And(lhs, rhs) => {
                let l = lhs.matches(v);
                let r = rhs.matches(v);
                l && r
            },
            Req::Or(lhs, rhs) => {
                let l = lhs.matches(v);
                let r = rhs.matches(v);
                l || r
            },
            Req::Eq(x) => v.same(x),
            Req::Ge(x) => !v.before(x),
            Req::Le(x) => !x.before(v),
            Req::Gt(x) => x.before(v),
            Req::Lt(x) => v.before(x),
        }
    }

    /// Writes the requirement behind `out`.
    pub fn push_text(&self, out: &mut String)
        ensures
            final(out)@ == old(out)@ + req_text(*self),
        decreases *self,
    {
        match self {
            Req::Bracket(inner) => {
                out.push('(');
                inner.push_text(out);
                out.push(')');
            },
            Req::And(lhs, rhs) => {
                lhs.push_text(out);
                out.push(' ');
                out.push('&');
                out.push('&');
                out.push(' ');
                rhs.push_text(out);
            },
            Req::Or(lhs, rhs) => {
                lhs.push_text(out);
                out.push(' ');
                out.push('|');
                out.push('|');
                out.push(' ');
                rhs.push_text(out);
            },
            Req::Eq(x) => {
                out.push('=');
                x.push_text(out);
            },
            Req::Gt(x) => {
                out.push('>');
                x.push_text(out);
            },
            Req::Ge(x) => {
                out.push('>');
                out.push('=');
                x.push_text(out);
            },
            Req::Lt(x) => {
                out.push('<');
                x.push_text(out);
            },
            Req::Le(x) => {
                out.push('<');
                out.push('=');
                x.push_text(out);
            },
        }
        assert(final(out)@ =~= old(out)@ + req_text(*self));
    }

    /// The requirement as text.
    pub fn format(&self) -> (out: String)
        ensures
            out@ == req_text(*self),
    {
        let mut out = String::new();
        self.push_text(&mut out);
        assert(Seq::<char>::empty() + req_text(*self) =~= req_text(*self));
        out
    }
}

impl Default for Req<Version> {
    /// The requirement that every version meets.
    fn default() -> (r: Self)
        ensures
            r == Req::Ge(Version { major: 0, minor: 0 }),
    {
        Req::Ge(Version::new(0, 0))
    }
}

/// Whether `0x` stands at `q`.
pub open spec fn has_hex_mark(s: Seq<u8>, q: int) -> bool {
    0 <= q && q + 1 < s.len() && s[q] == 0x30 && s[q + 1] == 0x78
}

/// One or two hexadecimal digits at `h`: the byte they write.
pub open spec fn hex_byte_short(s: Seq<u8>, h: int) -> Parsed<u8> {
    if !(0 <= h < s.len() && is_hex_digit(s[h])) {
        failed_at(s, h)
    } else if h + 1 < s.len() && is_hex_digit(s[h + 1]) {
        Parsed::Done {
            value: (hex_digit_value(s[h]) * 16 + hex_digit_value(s[h + 1])) as u8,
            next: h + 2,
        }
    } else {
        Parsed::Done { value: hex_digit_value(s[h]) as u8, next: h + 1 }
    }
}

/// A byte literal at `p`: decimal, or `0x` and one or two hexadecimal
/// digits, with blanks on either side.
pub open spec fn byte_literal(s: Seq<u8>, p: int) -> Parsed<u8> {
    let q = span_end(s, p, ByteClass::Blank);
    let number = if has_hex_mark(s, q) {
        hex_byte_short(s, q + 2)
    } else {
        decimal_byte(s, q)
    };
    match number {
        Parsed::Done { value, next } => Parsed::Done {
            value,
            next: span_end(s, next, ByteClass::Blank),
        },
        Parsed::Failed { kind, at } => Parsed::Failed { kind, at },
    }
}

/// A version literal at `p`: `major.minor` in decimal, with blanks on either
/// side and around the dot.
pub open spec fn version_literal(s: Seq<u8>, p: int) -> Parsed<Version> {
    match decimal_byte(s, span_end(s, p, ByteClass::Blank)) {
        Parsed::Failed { kind, at } => Parsed::Failed { kind, at },
        Parsed::Done { value: major, next } => {
            let dot = span_end(s, next, ByteClass::Blank);
            if !(dot < s.len() && s[dot] == DOT) {
                failed_at(s, dot)
            } else {
                match decimal_byte(s, span_end(s, dot + 1, ByteClass::Blank)) {
                    Parsed::Failed { kind, at } => Parsed::Failed { kind, at },
                    Parsed::Done { value: minor, next: end } => Parsed::Done {
                        value: Version { major, minor },
                        next: span_end(s, end, ByteClass::Blank),
                    },
                }
            }
        },
    }
}

/// A decimal byte is not empty and ends inside the input.
pub proof fn lemma_decimal_byte_advances(s: Seq<u8>, p: int)
    ensures
        decimal_byte(s, p) matches Parsed::Done { next, .. } ==> p < next && (0 <= p <= s.len()
            ==> next <= s.len()),
        decimal_byte(s, p) matches Parsed::Failed { at, .. } ==> at == p,
{
    lemma_span_grows(s, p, ByteClass::Digit);
}

/// A byte that is written out in decimal at `p` reads back, where no digit
/// follows it.
pub proof fn lemma_decimal_byte_reads_back(s: Seq<u8>, p: int, x: u8)
    requires
        0 <= p,
        p + decimal_bytes(x as nat).len() <= s.len(),
        forall|k: int|
            0 <= k < decimal_bytes(x as nat).len() ==> s[p + k] == #[trigger] decimal_bytes(
                x as nat,
            )[k],
        p + decimal_bytes(x as nat).len() < s.len() ==> !is_digit(
            s[p + decimal_bytes(x as nat).len()],
        ),
    ensures
        decimal_byte(s, p) == (Parsed::Done {
            value: x,
            next: p + decimal_bytes(x as nat).len(),
        }),
{
    let digits = decimal_bytes(x as nat);
    lemma_decimal_bytes(x as nat);
    assert forall|k: int| p <= k < p + digits.len() implies ByteClass::Digit.has(#[trigger] s[k]) by {
        assert(is_digit(digits[k - p]));
        assert(s[p + (k - p)] == digits[k - p]);
    }
    lemma_span_end_is(s, p, p + digits.len(), ByteClass::Digit);
    lemma_decimal_reads_back(s, p, x as nat);
}

/// Reads one or two hexadecimal digits at `h`.
pub fn hex_u8<'i>(i: &'i [u8], h: usize) -> (r: Result<(u8, usize), ParseError<'i>>)
    requires
        h <= i@.len(),
    ensures
        reads_value(r, i@, hex_byte_short(i@, h as int)),
{
    let len = i.len();
    if h >= len {
        return Err(ParseError::at(stop(i, h), i, h));
    }
    let high = match hex_digit(i[h]) {
        Some(d) => d,
        None => {
            return Err(ParseError::at(stop(i, h), i, h));
        },
    };
    if h + 1 < len {
        if let Some(low) = hex_digit(i[h + 1]) {
            return Ok((high * 16 + low, h + 2));
        }
    }
    Ok((high, h + 1))
}

/// Reads a byte literal at `p`.
pub fn parse_u8<'i>(i: &'i [u8], p: usize) -> (r: Result<(u8, usize), ParseError<'i>>)
    requires
        p <= i@.len(),
    ensures
        reads_value(r, i@, byte_literal(i@, p as int)),
{
    let q = span(i, p, ByteClass::Blank);
    let number = if i.len() - q >= 2 && i[q] == 0x30 && i[q + 1] == 0x78 {
        hex_u8(i, q + 2)
    } else {
        decimal_u8(i, q)
    };
    match number {
        Ok((v, next)) => Ok((v, span(i, next, ByteClass::Blank))),
        Err(e) => Err(e),
    }
}

/// Reads a version literal at `p`.
pub fn parse_version<'i>(i: &'i [u8], p: usize) -> (r: Result<(Version, usize), ParseError<'i>>)
    requires
        p <= i@.len(),
    ensures
        reads_value(r, i@, version_literal(i@, p as int)),
{
    let (major, next) = match decimal_u8(i, span(i, p, ByteClass::Blank)) {
        Ok(r) => r,
        Err(e) => {
            return Err(e);
        },
    };
    let dot = span(i, next, ByteClass::Blank);
    if !(dot < i.len() && i[dot] == DOT) {
        return Err(ParseError::at(stop(i, dot), i, dot));
    }
    match decimal_u8(i, span(i, dot + 1, ByteClass::Blank)) {
        Ok((minor, end)) => Ok((Version::new(major, minor), span(i, end, ByteClass::Blank))),
        Err(e) => Err(e),
    }
}

impl ReqValue for u8 {
    open spec fn rank(&self) -> int {
        *self as int
    }

    open spec fn literal(s: Seq<u8>, p: int) -> Parsed<u8> {
        byte_literal(s, p)
    }

    open spec fn text(&self) -> Seq<char> {
        decimal_digits(*self as nat)
    }

    open spec fn bytes(&self) -> Seq<u8> {
        decimal_bytes(*self as nat)
    }

    proof fn lemma_bytes(x: u8) {
        lemma_decimal_bytes(x as nat);
    }

    proof fn lemma_literal_reads_back(s: Seq<u8>, p: int, x: u8) {
        lemma_decimal_byte_reads_back(s, p, x);
        let digits = decimal_bytes(x as nat);
        lemma_decimal_bytes(x as nat);
        assert(is_digit(digits[0]));
        assert(s[p + 0] == digits[0]);
        lemma_span_end_is(s, p, p, ByteClass::Blank);
        if p + 1 < s.len() {
            if digits.len() > 1 {
                assert(is_digit(digits[1]));
                assert(s[p + 1] == digits[1]);
            }
        }
        assert(!has_hex_mark(s, p));
    }

    proof fn lemma_literal_advances(s: Seq<u8>, p: int) {
        let q = span_end(s, p, ByteClass::Blank);
        lemma_span_grows(s, p, ByteClass::Blank);
        lemma_decimal_byte_advances(s, q);
        if has_hex_mark(s, q) {
            if let Parsed::Done { value, next } = hex_byte_short(s, q + 2) {
                lemma_span_grows(s, next, ByteClass::Blank);
            }
        } else {
            if let Parsed::Done { value, next } = decimal_byte(s, q) {
                lemma_span_grows(s, next, ByteClass::Blank);
            }
        }
    }

    fn parse_nom<'i>(i: &'i [u8], p: usize) -> (r: Result<(u8, usize), ParseError<'i>>) {
        parse_u8(i, p)
    }

    fn before(&self, other: &u8) -> (r: bool) {
        *self < *other
    }

    fn same(&self, other: &u8) -> (r: bool) {
        *self == *other
    }

    fn push_text(&self, out: &mut String) {
        push_decimal(out, *self as usize);
    }
}

impl ReqValue for Version {
    open spec fn rank(&self) -> int {
        Version::rank(*self)
    }

    open spec fn literal(s: Seq<u8>, p: int) -> Parsed<Version> {
        version_literal(s, p)
    }

    open spec fn text(&self) -> Seq<char> {
        decimal_digits(self.major as nat) + seq!['.'] + decimal_digits(self.minor as nat)
    }

    open spec fn bytes(&self) -> Seq<u8> {
        decimal_bytes(self.major as nat) + seq![DOT] + decimal_bytes(self.minor as nat)
    }

    proof fn lemma_bytes(x: Version) {
        lemma_decimal_bytes(x.major as nat);
        lemma_decimal_bytes(x.minor as nat);
        let a = decimal_bytes(x.major as nat);
        let b = decimal_bytes(x.minor as nat);
        assert(x.bytes()[0] == a[0]);
        assert forall|k: int| 0 <= k < x.bytes().len() implies is_digit(#[trigger] x.bytes()[k])
            || x.bytes()[k] == DOT by {
            if k < a.len() {
                assert(x.bytes()[k] == a[k]);
            } else if k > a.len() {
                assert(x.bytes()[k] == b[k - a.len() - 1]);
            }
        }
        assert(x.text() =~= byte_text(x.bytes()));
    }

    proof fn lemma_literal_reads_back(s: Seq<u8>, p: int, x: Version) {
        let a = decimal_bytes(x.major as nat);
        let b = decimal_bytes(x.minor as nat);
        let dot = p + a.len();
        lemma_decimal_bytes(x.major as nat);
        lemma_decimal_bytes(x.minor as nat);
        assert forall|k: int| 0 <= k < a.len() implies s[p + k] == #[trigger] a[k] by {
            assert(x.bytes()[k] == a[k]);
        }
        assert(s[dot] == DOT) by {
            assert(x.bytes()[a.len() as int] == DOT);
            assert(s[p + a.len()] == x.bytes()[a.len() as int]);
        }
        assert forall|k: int| 0 <= k < b.len() implies s[dot + 1 + k] == #[trigger] b[k] by {
            assert(x.bytes()[a.len() + 1 + k] == b[k]);
            assert(s[p + (a.len() + 1 + k)] == x.bytes()[a.len() + 1 + k]);
        }
        assert(is_digit(a[0]));
        assert(s[p + 0] == a[0]);
        lemma_span_end_is(s, p, p, ByteClass::Blank);
        lemma_decimal_byte_reads_back(s, p, x.major);
        lemma_span_end_is(s, dot, dot, ByteClass::Blank);
        assert(is_digit(b[0]));
        assert(s[dot + 1 + 0] == b[0]);
        lemma_span_end_is(s, dot + 1, dot + 1, ByteClass::Blank);
        lemma_decimal_byte_reads_back(s, dot + 1, x.minor);
    }

    proof fn lemma_literal_advances(s: Seq<u8>, p: int) {
        let q = span_end(s, p, ByteClass::Blank);
        lemma_span_grows(s, p, ByteClass::Blank);
        lemma_decimal_byte_advances(s, q);
        if let Parsed::Done { value: major, next } = decimal_byte(s, q) {
            let dot = span_end(s, next, ByteClass::Blank);
            lemma_span_grows(s, next, ByteClass::Blank);
            if dot < s.len() && s[dot] == DOT {
                let m = span_end(s, dot + 1, ByteClass::Blank);
                lemma_span_grows(s, dot + 1, ByteClass::Blank);
                lemma_decimal_byte_advances(s, m);
                if let Parsed::Done { value: minor, next: end } = decimal_byte(s, m) {
                    lemma_span_grows(s, end, ByteClass::Blank);
                }
            }
        }
    }

    fn parse_nom<'i>(i: &'i [u8], p: usize) -> (r: Result<(Version, usize), ParseError<'i>>) {
        parse_version(i, p)
    }

    fn before(&self, other: &Version) -> (r: bool) {
        self.major < other.major || (self.major == other.major && self.minor < other.minor)
    }

    fn same(&self, other: &Version) -> (r: bool) {
        self.major == other.major && self.minor == other.minor
    }

    fn push_text(&self, out: &mut String) {
        push_decimal(out, self.major as usize);
        out.push('.');
        push_decimal(out, self.minor as usize);
        assert(final(out)@ =~= old(out)@ + self.text());
    }
}

} // verus!
