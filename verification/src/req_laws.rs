//! What holds of requirement expressions: one that is written out reads
//! back as itself, if it has the shape that the reader gives to what it
//! reads.

use crate::error::{Failure, Parsed};
use crate::lex::{
    byte_text, is_ascii_bytes, is_digit, lemma_ascii_is_text, lemma_span_end, lemma_span_end_is,
    span_end, ByteClass, CLOSE, DOT, OPEN, SPACE,
};
use crate::version_req::{
    comparison, ends_literal, expr, junction, operator, primary, req_text, requirement, Req,
    ReqValue, AMPERSAND, BAR, EQUAL, GREATER, LESS,
};
use vstd::prelude::*;
use vstd::utf8::encode_utf8;

verus! {

/// Whether a requirement is a primary: not a junction of two.
pub open spec fn is_primary<V>(r: Req<V>) -> bool {
    !(r is And) && !(r is Or)
}

/// Whether a requirement has the shape of one that was read: the left-hand
/// side of every `&&` and `||` in it is a primary.
pub open spec fn right_leaning<V>(r: Req<V>) -> bool
    decreases r,
{
    match r {
        Req::Bracket(inner) => right_leaning(*inner),
        Req::And(lhs, rhs) => is_primary(*lhs) && right_leaning(*lhs) && right_leaning(*rhs),
        Req::Or(lhs, rhs) => is_primary(*lhs) && right_leaning(*lhs) && right_leaning(*rhs),
        _ => true,
    }
}

/// The requirement as the bytes of its text.
pub open spec fn req_bytes<V: ReqValue>(r: Req<V>) -> Seq<u8>
    decreases r,
{
    match r {
        Req::Bracket(inner) => seq![OPEN] + req_bytes(*inner) + seq![CLOSE],
        Req::And(lhs, rhs) => req_bytes(*lhs) + seq![SPACE, AMPERSAND, AMPERSAND, SPACE]
            + req_bytes(*rhs),
        Req::Or(lhs, rhs) => req_bytes(*lhs) + seq![SPACE, BAR, BAR, SPACE] + req_bytes(*rhs),
        Req::Eq(x) => seq![EQUAL] + x.bytes(),
        Req::Gt(x) => seq![GREATER] + x.bytes(),
        Req::Ge(x) => seq![GREATER, EQUAL] + x.bytes(),
        Req::Lt(x) => seq![LESS] + x.bytes(),
        Req::Le(x) => seq![LESS, EQUAL] + x.bytes(),
    }
}

/// Whether `s` holds the bytes `b` from position `p` on.
pub open spec fn placed(s: Seq<u8>, p: int, b: Seq<u8>) -> bool {
    0 <= p && p + b.len() <= s.len() && forall|k: int| 0 <= k < b.len() ==> s[p + k] == #[trigger] b[k]
}

/// The bytes of a requirement are not empty, start with no blank, are
/// ASCII, and spell its text.
pub proof fn lemma_req_bytes<V: ReqValue>(r: Req<V>)
    ensures
        req_bytes(r).len() > 0,
        !ByteClass::Blank.has(req_bytes(r)[0]),
        is_ascii_bytes(req_bytes(r)),
        req_text(r) == byte_text(req_bytes(r)),
    decreases r,
{
    let b = req_bytes(r);
    match r {
        Req::Bracket(inner) => {
            lemma_req_bytes(*inner);
            let i = req_bytes(*inner);
            assert forall|k: int| 0 <= k < b.len() implies #[trigger] b[k] < 0x80 by {
                if 0 < k && k <= i.len() {
                    assert(b[k] == i[k - 1]);
                }
            }
            assert(req_text(r) =~= byte_text(b));
        },
        Req::And(lhs, rhs) => {
            lemma_req_bytes(*lhs);
            lemma_req_bytes(*rhs);
            let x = req_bytes(*lhs);
            let y = req_bytes(*rhs);
            assert(b[0] == x[0]);
            assert forall|k: int| 0 <= k < b.len() implies #[trigger] b[k] < 0x80 by {
                if k < x.len() {
                    assert(b[k] == x[k]);
                } else if k >= x.len() + 4 {
                    assert(b[k] == y[k - x.len() - 4]);
                }
            }
            assert(req_text(r) =~= byte_text(b));
        },
        Req::Or(lhs, rhs) => {
            lemma_req_bytes(*lhs);
            lemma_req_bytes(*rhs);
            let x = req_bytes(*lhs);
            let y = req_bytes(*rhs);
            assert(b[0] == x[0]);
            assert forall|k: int| 0 <= k < b.len() implies #[trigger] b[k] < 0x80 by {
                if k < x.len() {
                    assert(b[k] == x[k]);
                } else if k >= x.len() + 4 {
                    assert(b[k] == y[k - x.len() - 4]);
                }
            }
            assert(req_text(r) =~= byte_text(b));
        },
        Req::Eq(x) => {
            lemma_literal_is_ascii(x);
            let l = x.bytes();
            assert forall|k: int| 0 <= k < b.len() implies #[trigger] b[k] < 0x80 by {
                if k >= 1 {
                    assert(b[k] == l[k - 1]);
                }
            }
            assert(req_text(r) =~= byte_text(b));
        },
        Req::Gt(x) => {
            lemma_literal_is_ascii(x);
            let l = x.bytes();
            assert forall|k: int| 0 <= k < b.len() implies #[trigger] b[k] < 0x80 by {
                if k >= 1 {
                    assert(b[k] == l[k - 1]);
                }
            }
            assert(req_text(r) =~= byte_text(b));
        },
        Req::Lt(x) => {
            lemma_literal_is_ascii(x);
            let l = x.bytes();
            assert forall|k: int| 0 <= k < b.len() implies #[trigger] b[k] < 0x80 by {
                if k >= 1 {
                    assert(b[k] == l[k - 1]);
                }
            }
            assert(req_text(r) =~= byte_text(b));
        },
        Req::Ge(x) => {
            lemma_literal_is_ascii(x);
            let l = x.bytes();
            assert forall|k: int| 0 <= k < b.len() implies #[trigger] b[k] < 0x80 by {
                if k >= 2 {
                    assert(b[k] == l[k - 2]);
                }
            }
            assert(req_text(r) =~= byte_text(b));
        },
        Req::Le(x) => {
            lemma_literal_is_ascii(x);
            let l = x.bytes();
            assert forall|k: int| 0 <= k < b.len() implies #[trigger] b[k] < 0x80 by {
                if k >= 2 {
                    assert(b[k] == l[k - 2]);
                }
            }
            assert(req_text(r) =~= byte_text(b));
        },
    }
}

/// The bytes of a literal are ASCII.
proof fn lemma_literal_is_ascii<V: ReqValue>(x: V)
    ensures
        x.bytes().len() > 0,
        is_digit(x.bytes()[0]),
        is_ascii_bytes(x.bytes()),
        x.text() == byte_text(x.bytes()),
{
    V::lemma_bytes(x);
    assert forall|k: int| 0 <= k < x.bytes().len() implies #[trigger] x.bytes()[k] < 0x80 by {
        assert(is_digit(x.bytes()[k]) || x.bytes()[k] == DOT);
    }
}

/// Where a run of blanks ends, none starts.
proof fn lemma_span_settles(s: Seq<u8>, p: int)
    requires
        0 <= p <= s.len(),
    ensures
        span_end(s, span_end(s, p, ByteClass::Blank), ByteClass::Blank) == span_end(
            s,
            p,
            ByteClass::Blank,
        ),
        p <= span_end(s, p, ByteClass::Blank) <= s.len(),
{
    lemma_span_end(s, p, ByteClass::Blank);
    let e = span_end(s, p, ByteClass::Blank);
    lemma_span_end_is(s, e, e, ByteClass::Blank);
}

/// A comparison that is written out at `p` reads back.
proof fn lemma_comparison_reads_back<V: ReqValue>(s: Seq<u8>, p: int, r: Req<V>)
    requires
        is_primary(r),
        !(r is Bracket),
        placed(s, p, req_bytes(r)),
        p + req_bytes(r).len() < s.len() ==> ends_literal(s[p + req_bytes(r).len()]),
    ensures
        comparison::<V>(s, p) == (Parsed::Done {
            value: r,
            next: span_end(s, p + req_bytes(r).len(), ByteClass::Blank),
        }),
{
    let b = req_bytes(r);
    let x = match r {
        Req::Eq(x) => x,
        Req::Gt(x) => x,
        Req::Ge(x) => x,
        Req::Lt(x) => x,
        Req::Le(x) => x,
        _ => arbitrary(),
    };
    let lit = x.bytes();
    let q = p + b.len() - lit.len();
    V::lemma_bytes(x);
    assert(s[p + 0] == b[0]);
    lemma_span_end_is(s, p, p, ByteClass::Blank);
    assert(s[p + 1] == b[1]);
    assert(b[b.len() - lit.len()] == lit[0]);
    assert(operator(s, p).1 == q);
    assert forall|k: int| 0 <= k < lit.len() implies s[q + k] == #[trigger] lit[k] by {
        assert(b[b.len() - lit.len() + k] == lit[k]);
        assert(s[p + (b.len() - lit.len() + k)] == b[b.len() - lit.len() + k]);
    }
    V::lemma_literal_reads_back(s, q, x);
}

/// A primary that is written out at `p` reads back, where the input ends
/// or goes on with a space or a closing parenthesis behind it.
pub proof fn lemma_primary_reads_back<V: ReqValue>(s: Seq<u8>, p: int, r: Req<V>)
    requires
        is_primary(r),
        right_leaning(r),
        placed(s, p, req_bytes(r)),
        p + req_bytes(r).len() < s.len() ==> ends_literal(s[p + req_bytes(r).len()]),
    ensures
        primary::<V>(s, p) matches Parsed::Done { value, next } && value == r && p < next
            <= s.len() && span_end(s, next, ByteClass::Blank) == span_end(
            s,
            p + req_bytes(r).len(),
            ByteClass::Blank,
        ),
    decreases r, 0int,
{
    let b = req_bytes(r);
    lemma_req_bytes(r);
    assert(s[p + 0] == b[0]);
    lemma_span_settles(s, p + b.len());
    match r {
        Req::Bracket(inner) => {
            let i = req_bytes(*inner);
            assert forall|k: int| 0 <= k < i.len() implies s[p + 1 + k] == #[trigger] i[k] by {
                assert(b[k + 1] == i[k]);
                assert(s[p + (k + 1)] == b[k + 1]);
            }
            assert(s[p + 1 + i.len()] == CLOSE) by {
                assert(b[i.len() as int + 1] == CLOSE);
                assert(s[p + (i.len() + 1)] == b[i.len() as int + 1]);
            }
            lemma_expr_reads_back(s, p + 1, *inner);
        },
        _ => {
            lemma_comparison_reads_back(s, p, r);
        },
    }
}

/// An expression that is written out at `p` reads back, where the input
/// ends or goes on with a closing parenthesis behind it.
pub proof fn lemma_expr_reads_back<V: ReqValue>(s: Seq<u8>, p: int, r: Req<V>)
    requires
        right_leaning(r),
        placed(s, p, req_bytes(r)),
        p + req_bytes(r).len() < s.len() ==> s[p + req_bytes(r).len()] == CLOSE,
    ensures
        expr::<V>(s, p) == (Parsed::Done { value: r, next: p + req_bytes(r).len() }),
    decreases r, 1int,
{
    let b = req_bytes(r);
    let end = p + b.len();
    lemma_req_bytes(r);
    match r {
        Req::And(lhs, rhs) => {
            lemma_junction_reads_back(s, p, *lhs, *rhs, true);
            lemma_expr_reads_back(s, p + req_bytes(*lhs).len() + 4, *rhs);
        },
        Req::Or(lhs, rhs) => {
            lemma_junction_reads_back(s, p, *lhs, *rhs, false);
            lemma_expr_reads_back(s, p + req_bytes(*lhs).len() + 4, *rhs);
        },
        _ => {
            lemma_primary_reads_back(s, p, r);
            lemma_span_end_is(s, end, end, ByteClass::Blank);
            assert(junction(s, end) is None);
        },
    }
}

/// The left-hand side of a junction that is written out at `p` reads back,
/// and the junction behind it is found with the right-hand side in place.
proof fn lemma_junction_reads_back<V: ReqValue>(
    s: Seq<u8>,
    p: int,
    lhs: Req<V>,
    rhs: Req<V>,
    and: bool,
)
    requires
        is_primary(lhs),
        right_leaning(lhs),
        placed(
            s,
            p,
            req_bytes(lhs) + (if and {
                seq![SPACE, AMPERSAND, AMPERSAND, SPACE]
            } else {
                seq![SPACE, BAR, BAR, SPACE]
            }) + req_bytes(rhs),
        ),
    ensures
        primary::<V>(s, p) matches Parsed::Done { value, next } && value == lhs && p < next
            <= s.len() && span_end(s, next, ByteClass::Blank) == p + req_bytes(lhs).len() + 1,
        junction(s, p + req_bytes(lhs).len() + 1) == Some(and),
        span_end(s, p + req_bytes(lhs).len() + 3, ByteClass::Blank) == p + req_bytes(lhs).len()
            + 4,
        placed(s, p + req_bytes(lhs).len() + 4, req_bytes(rhs)),
    decreases lhs, 2int,
{
    let x = req_bytes(lhs);
    let y = req_bytes(rhs);
    let mid = if and {
        seq![SPACE, AMPERSAND, AMPERSAND, SPACE]
    } else {
        seq![SPACE, BAR, BAR, SPACE]
    };
    let b = x + mid + y;
    let a = p + x.len();
    lemma_req_bytes(rhs);
    assert forall|k: int| 0 <= k < x.len() implies s[p + k] == #[trigger] x[k] by {
        assert(b[k] == x[k]);
    }
    assert forall|k: int| 0 <= k < 4 implies s[a + k] == #[trigger] mid[k] by {
        assert(b[x.len() + k] == mid[k]);
        assert(s[p + (x.len() + k)] == b[x.len() + k]);
    }
    assert forall|k: int| 0 <= k < y.len() implies s[a + 4 + k] == #[trigger] y[k] by {
        assert(b[x.len() + 4 + k] == y[k]);
        assert(s[p + (x.len() + 4 + k)] == b[x.len() + 4 + k]);
    }
    assert(s[a + 0] == mid[0] && s[a + 1] == mid[1] && s[a + 2] == mid[2] && s[a + 3] == mid[3]);
    assert(s[a + 4 + 0] == y[0]);
    lemma_primary_reads_back(s, p, lhs);
    lemma_span_end_is(s, a, a + 1, ByteClass::Blank);
    lemma_span_end_is(s, a + 3, a + 4, ByteClass::Blank);
}

/// Writing a requirement and reading it again gives the requirement back,
/// if it has the shape of one that was read: its text is what `format`
/// gives, and the reader makes of that text the requirement itself.
pub proof fn law_written_requirement_reads_back<V: ReqValue>(r: Req<V>)
    requires
        right_leaning(r),
    ensures
        requirement::<V>(encode_utf8(req_text(r))) == Ok::<Req<V>, Failure>(r),
{
    let s = req_bytes(r);
    lemma_req_bytes(r);
    lemma_ascii_is_text(s);
    lemma_expr_reads_back(s, 0, r);
}

/// What is read has the shape of what was read: a primary is a primary, and
/// the left-hand side of every junction is one.
pub proof fn lemma_read_is_right_leaning<V: ReqValue>(s: Seq<u8>, p: int, which: int)
    requires
        0 <= p <= s.len(),
        which == 0 || which == 1,
    ensures
        which == 1 ==> (expr::<V>(s, p) matches Parsed::Done { value, .. } ==> right_leaning(
            value,
        )),
        which == 0 ==> (primary::<V>(s, p) matches Parsed::Done { value, .. } ==> is_primary(value)
            && right_leaning(value)),
    decreases s.len() - p, which,
{
    if which == 0 {
        if p < s.len() && s[p] == OPEN {
            lemma_read_is_right_leaning::<V>(s, p + 1, 1);
        }
    } else {
        lemma_read_is_right_leaning::<V>(s, p, 0);
        crate::version_req::lemma_expr_advances::<V>(s, p, 0);
        if let Parsed::Done { value: lhs, next } = primary::<V>(s, p) {
            let a = span_end(s, next, ByteClass::Blank);
            crate::lex::lemma_span_grows(s, next, ByteClass::Blank);
            if junction(s, a) is Some {
                let b = span_end(s, a + 2, ByteClass::Blank);
                crate::lex::lemma_span_grows(s, a + 2, ByteClass::Blank);
                lemma_read_is_right_leaning::<V>(s, b, 1);
            }
        }
    }
}

/// A requirement goes round through its text: what was read from any bytes
/// is read again from the text that `format` gives for it.
pub proof fn law_requirement_round_trip<V: ReqValue>(s: Seq<u8>, r: Req<V>)
    requires
        requirement::<V>(s) == Ok::<Req<V>, Failure>(r),
    ensures
        requirement::<V>(encode_utf8(req_text(r))) == Ok::<Req<V>, Failure>(r),
{
    lemma_read_is_right_leaning::<V>(s, 0, 1);
    law_written_requirement_reads_back(r);
}

} // verus!
