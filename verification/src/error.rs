//! Failures of a parse, and what a grammar rule makes of its input.

use vstd::prelude::*;

verus! {

/// Why a parse stopped.
#[derive(Clone, Copy, Debug, PartialEq, Eq, Structural)]
pub enum ErrorKind {
    /// The input ended where more was required.
    UnexpectedEndOfInput,
    /// The input holds a byte that no rule accepts at its place.
    InvalidData,
}

/// A failed parse: its kind and the input from the offending byte onwards.
#[derive(Clone, Copy, Debug, PartialEq, Eq)]
pub struct ParseError<'i> {
    pub kind: ErrorKind,
    pub input: &'i [u8],
}

/// What a failed parse reports, as plain values.
pub struct Failure {
    pub kind: ErrorKind,
    pub input: Seq<u8>,
}

/// What a grammar rule makes of the input from some position on: a value and
/// the position behind what it read, or the kind of failure and the position
/// of the offending byte.
pub enum Parsed<T> {
    Done { value: T, next: int },
    Failed { kind: ErrorKind, at: int },
}

/// The failure of a rule that needs a byte at `at` and finds none that it
/// accepts: the input is truncated where it ends there, invalid otherwise.
pub open spec fn failed_at<T>(s: Seq<u8>, at: int) -> Parsed<T> {
    Parsed::Failed {
        kind: if at >= s.len() {
            ErrorKind::UnexpectedEndOfInput
        } else {
            ErrorKind::InvalidData
        },
        at,
    }
}

impl<T> Parsed<T> {
    /// What a rule that must read all of `s` makes of it: the value, where
    /// nothing is left behind it; a failure at what is left, otherwise.
    pub open spec fn whole(self, s: Seq<u8>) -> Result<T, Failure> {
        match self {
            Parsed::Done { value, next } => if next >= s.len() {
                Ok(value)
            } else {
                Err(Failure { kind: ErrorKind::InvalidData, input: s.skip(next) })
            },
            Parsed::Failed { kind, at } => Err(Failure { kind, input: s.skip(at) }),
        }
    }
}

/// The list read by a rule, with the items read before it in front.
pub open spec fn prepend<T>(head: Seq<T>, m: Parsed<Seq<T>>) -> Parsed<Seq<T>> {
    match m {
        Parsed::Done { value, next } => Parsed::Done { value: head + value, next },
        Parsed::Failed { kind, at } => Parsed::Failed { kind, at },
    }
}

/// Items in front of items in front of a list are all in front of it.
pub proof fn lemma_prepend<T>(a: Seq<T>, b: Seq<T>, m: Parsed<Seq<T>>)
    ensures
        prepend(a, prepend(b, m)) == prepend(a + b, m),
        prepend(Seq::<T>::empty(), m) == m,
{
    match m {
        Parsed::Done { value, next } => {
            assert(a + (b + value) =~= (a + b) + value);
            assert(Seq::<T>::empty() + value =~= value);
        },
        Parsed::Failed { .. } => {},
    }
}

/// Whether what a parse returned is what the grammar says of the input `s`:
/// the same value and the position behind it, or the same kind of failure
/// with the input from the offending byte on.
pub open spec fn reads_as<'i, T: DeepView>(
    r: Result<(T, usize), ParseError<'i>>,
    s: Seq<u8>,
    m: Parsed<T::V>,
) -> bool {
    match m {
        Parsed::Done { value, next } => r matches Ok((v, n)) && v.deep_view() == value && n == next
            && next <= s.len(),
        Parsed::Failed { kind, at } => r matches Err(e) && e@ == (Failure {
            kind,
            input: s.skip(at),
        }),
    }
}

/// The values of a list of results where all are values; their first
/// failure where not.
pub open spec fn gathered<T>(rs: Seq<Result<T, Failure>>) -> Result<Seq<T>, Failure>
    decreases rs.len(),
{
    if rs.len() == 0 {
        Ok(Seq::empty())
    } else {
        match gathered(rs.drop_last()) {
            Err(f) => Err(f),
            Ok(values) => match rs.last() {
                Ok(v) => Ok(values.push(v)),
                Err(f) => Err(f),
            },
        }
    }
}

/// A failure among the first results is the failure of them all.
pub proof fn lemma_gathered_failure<T>(rs: Seq<Result<T, Failure>>, k: int)
    requires
        0 <= k <= rs.len(),
        gathered(rs.take(k)) is Err,
    ensures
        gathered(rs) == gathered(rs.take(k)),
    decreases rs.len() - k,
{
    if k < rs.len() {
        assert(rs.take(k + 1).drop_last() =~= rs.take(k));
        lemma_gathered_failure(rs, k + 1);
    } else {
        assert(rs.take(k) =~= rs);
    }
}

/// What is gathered from values alone is the values.
pub proof fn lemma_gathered_values<T>(values: Seq<T>)
    ensures
        gathered(Seq::new(values.len(), |k: int| Ok::<T, Failure>(values[k]))) == Ok::<
            Seq<T>,
            Failure,
        >(values),
    decreases values.len(),
{
    let rs = Seq::new(values.len(), |k: int| Ok::<T, Failure>(values[k]));
    if values.len() > 0 {
        let fewer = values.drop_last();
        lemma_gathered_values(fewer);
        assert(rs.drop_last() =~= Seq::new(fewer.len(), |k: int| Ok::<T, Failure>(fewer[k])));
        assert(fewer.push(values.last()) =~= values);
    } else {
        assert(Seq::<T>::empty() =~= values);
    }
}

impl<'i> ParseError<'i> {
    /// The failure as plain values.
    pub open spec fn view(&self) -> Failure {
        Failure { kind: self.kind, input: self.input@ }
    }

    /// The error raised at byte `at` of `src`.
    pub(crate) fn at(kind: ErrorKind, src: &'i [u8], at: usize) -> (e: Self)
        requires
            at <= src@.len(),
        ensures
            e@ == (Failure { kind, input: src@.skip(at as int) }),
    {
        let rest = vstd::slice::slice_subrange(src, at, src.len());
        ParseError { kind, input: rest }
    }
}

/// The kind of the failure of a rule that needs a byte at `at`.
pub(crate) fn stop(i: &[u8], at: usize) -> (k: ErrorKind)
    ensures
        k == if at >= i@.len() {
            ErrorKind::UnexpectedEndOfInput
        } else {
            ErrorKind::InvalidData
        },
{
    if at >= i.len() {
        ErrorKind::UnexpectedEndOfInput
    } else {
        ErrorKind::InvalidData
    }
}

} // verus!
