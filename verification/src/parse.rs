//! A capability string decoded in one go: all its capabilities in order, or
//! the first failure.

use crate::caps::{decoded, decoded_each, CapView};
use crate::entries::{entries, lemma_step_advances, step, ValueParser};
use crate::error::{gathered, Failure, ParseError};
use vstd::prelude::*;

pub use crate::caps::Cap;

verus! {

/// The capabilities read before, in front of what is gathered behind them.
pub open spec fn after(head: Seq<CapView>, rest: Result<Seq<CapView>, Failure>) -> Result<
    Seq<CapView>,
    Failure,
> {
    match rest {
        Ok(caps) => Ok(head + caps),
        Err(f) => Err(f),
    }
}

/// What is gathered from a list of results is its first result in front of
/// what is gathered from the others, unless it is a failure.
pub proof fn lemma_gathered_front(first: Result<CapView, Failure>, rest: Seq<Result<CapView, Failure>>)
    ensures
        gathered(seq![first] + rest) == match first {
            Ok(c) => after(seq![c], gathered(rest)),
            Err(f) => Err(f),
        },
    decreases rest.len(),
{
    let all = seq![first] + rest;
    if rest.len() == 0 {
        assert(all.drop_last() =~= Seq::empty());
        assert(all.last() == first);
        assert(gathered(all.drop_last()) == Ok::<Seq<CapView>, Failure>(Seq::empty()));
        assert(gathered(rest) == Ok::<Seq<CapView>, Failure>(Seq::empty()));
        if let Ok(c) = first {
            assert(Seq::<CapView>::empty().push(c) =~= seq![c] + Seq::<CapView>::empty());
        }
    } else {
        assert(all.drop_last() =~= seq![first] + rest.drop_last());
        assert(all.last() == rest.last());
        lemma_gathered_front(first, rest.drop_last());
        match first {
            Err(f) => {
                assert(gathered(all.drop_last()) == Err::<Seq<CapView>, Failure>(f));
            },
            Ok(c) => match gathered(rest.drop_last()) {
                Err(f) => {
                    assert(gathered(all.drop_last()) == Err::<Seq<CapView>, Failure>(f));
                },
                Ok(caps) => {
                    assert(gathered(all.drop_last()) == Ok::<Seq<CapView>, Failure>(
                        seq![c] + caps,
                    ));
                    if let Ok(last) = rest.last() {
                        assert((seq![c] + caps).push(last) =~= seq![c] + caps.push(last));
                    }
                },
            },
        }
    }
}

/// What is gathered from all that the tokenizer returns from a state on.
pub open spec fn gathered_from(input: Seq<u8>, brackets: Option<usize>, after_type: bool) -> Result<
    Seq<CapView>,
    Failure,
> {
    gathered(decoded_each(entries(input, brackets, after_type)))
}

/// The step that the tokenizer takes gives the first capability, or the
/// failure of all.
pub proof fn lemma_gathered_step(input: Seq<u8>, brackets: Option<usize>, after_type: bool)
    requires
        input.len() > 0,
    ensures
        gathered_from(input, brackets, after_type) == match step(
            input,
            brackets,
            after_type,
        ).result {
            Err(f) => Err(f),
            Ok(e) => match decoded(e) {
                Err(f) => Err(f),
                Ok(c) => after(
                    seq![c],
                    gathered_from(
                        step(input, brackets, after_type).input,
                        Some(step(input, brackets, after_type).brackets),
                        step(input, brackets, after_type).after_type,
                    ),
                ),
            },
        },
{
    let st = step(input, brackets, after_type);
    let rest = decoded_each(entries(st.input, Some(st.brackets), st.after_type));
    let head = match st.result {
        Ok(e) => decoded(e),
        Err(f) => Err(f),
    };
    lemma_step_advances(input, brackets, after_type);
    let now = entries(input, brackets, after_type);
    if st.result is Ok {
        assert(now =~= seq![st.result] + entries(st.input, Some(st.brackets), st.after_type));
        assert(decoded_each(now) =~= seq![head] + rest);
        lemma_gathered_front(head, rest);
    } else {
        assert(now =~= seq![st.result]);
        assert(decoded_each(now) =~= seq![head] + Seq::empty());
        lemma_gathered_front(head, Seq::empty());
    }
}

/// Capabilities in front of capabilities in front of a rest.
pub proof fn lemma_after_after(a: Seq<CapView>, b: Seq<CapView>, rest: Result<Seq<CapView>, Failure>)
    ensures
        after(a, after(b, rest)) == after(a + b, rest),
        after(a, Ok(Seq::empty())) == Ok::<Seq<CapView>, Failure>(a),
        after(Seq::empty(), rest) == rest,
{
    assert(a + Seq::<CapView>::empty() =~= a);
    if let Ok(caps) = rest {
        assert(a + (b + caps) =~= (a + b) + caps);
        assert(Seq::<CapView>::empty() + caps =~= caps);
    }
}

/// Decodes a capability string: the capabilities of its entries in order.
/// The first entry that fails, in the tokenizer or in its own grammar,
/// fails the whole.
pub fn parse_capabilities<'i>(capability_string: &'i [u8]) -> (r: Result<
    Vec<Cap<'i>>,
    ParseError<'i>,
>)
    ensures
        match gathered_from(capability_string@, None, false) {
            Ok(caps) => r matches Ok(v) && v.deep_view() == caps,
            Err(f) => r matches Err(e) && e@ == f,
        },
{
    let mut parser = ValueParser::new(capability_string);
    let mut out: Vec<Cap<'i>> = Vec::new();
    let ghost all = gathered_from(capability_string@, None, false);
    proof {
        assert(out.deep_view() =~= Seq::<CapView>::empty());
        lemma_after_after(Seq::empty(), Seq::empty(), all);
    }
    while parser.input.len() > 0
        invariant
            all == gathered_from(capability_string@, None, false),
            all == after(
                out.deep_view(),
                gathered_from(parser.input@, parser.brackets, parser.after_type()),
            ),
        decreases parser.input@.len(),
    {
        proof {
            lemma_gathered_step(parser.input@, parser.brackets, parser.after_type());
            lemma_step_advances(parser.input@, parser.brackets, parser.after_type());
        }
        let entry = match parser.nom_result() {
            Ok(entry) => entry,
            Err(e) => {
                return Err(e);
            },
        };
        let cap = match Cap::parse_entry(entry) {
            Ok(cap) => cap,
            Err(e) => {
                return Err(e);
            },
        };
        let ghost before = out.deep_view();
        out.push(cap);
        proof {
            assert(out.deep_view() =~= before + seq![cap.deep_view()]);
            lemma_after_after(
                before,
                seq![cap.deep_view()],
                gathered_from(parser.input@, parser.brackets, parser.after_type()),
            );
        }
    }
    proof {
        assert(entries(parser.input@, parser.brackets, parser.after_type()) =~= Seq::empty());
        assert(decoded_each(Seq::empty()) =~= Seq::empty());
        lemma_after_after(out.deep_view(), Seq::empty(), all);
    }
    Ok(out)
}

} // verus!
