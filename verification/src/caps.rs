//! The capabilities that the entries of a capability string decode to.

use crate::entries::{entries, outcome, outcomes, EntryView, Value, ValueParser};
use crate::error::{ErrorKind, Failure, ParseError};
use crate::grammar::{
    features, hex_run, hexarray, mccs_ver, mswhql, vcp_list, version_pair, whql,
};
use crate::lex::{same_text, text};
use crate::names::{feature_names, vcpname_list};
use std::borrow::Cow;
use vstd::prelude::*;
use vstd::utf8::{decode_utf8, valid_utf8};

verus! {

/// A value that a VCP feature can take, with the sub-values that some
/// displays list for it.
#[derive(Clone, Debug, PartialEq, Eq)]
pub struct VcpValue {
    pub value: u8,
    pub sub_values: Option<Vec<u8>>,
}

/// A `VcpValue` as plain values.
pub struct VcpValueView {
    pub value: u8,
    pub sub_values: Option<Seq<u8>>,
}

impl DeepView for VcpValue {
    type V = VcpValueView;

    open spec fn deep_view(&self) -> VcpValueView {
        VcpValueView { value: self.value, sub_values: self.sub_values.deep_view() }
    }
}

impl VcpValue {
    /// A value without sub-values.
    pub fn new(value: u8) -> (v: Self)
        ensures
            v.deep_view() == (VcpValueView { value, sub_values: None }),
    {
        VcpValue { value, sub_values: None }
    }

    /// The sub-values; none where none are listed.
    pub fn sub_values(&self) -> (s: &[u8])
        ensures
            s@ == match self.sub_values {
                Some(v) => v@,
                None => Seq::empty(),
            },
    {
        match &self.sub_values {
            Some(v) => v.as_slice(),
            None => &[],
        }
    }
}

/// A VCP feature that the display supports, with the values it can take
/// where the display lists them.
#[derive(Clone, Debug, PartialEq, Eq)]
pub struct Vcp {
    pub feature: u8,
    pub values: Option<Vec<VcpValue>>,
}

/// A `Vcp` as plain values.
pub struct VcpView {
    pub feature: u8,
    pub values: Option<Seq<VcpValueView>>,
}

impl DeepView for Vcp {
    type V = VcpView;

    open spec fn deep_view(&self) -> VcpView {
        VcpView { feature: self.feature, values: self.values.deep_view() }
    }
}

impl Vcp {
    /// The values of the feature; none where none are listed.
    pub fn values(&self) -> (s: &[VcpValue])
        ensures
            s@ == match self.values {
                Some(v) => v@,
                None => Seq::empty(),
            },
    {
        match &self.values {
            Some(v) => v.as_slice(),
            None => &[],
        }
    }
}

/// The names that a display gives to a VCP feature and to its values.
#[derive(Clone, Debug, PartialEq, Eq)]
pub struct VcpName<'i> {
    pub feature: u8,
    pub name: Option<Cow<'i, str>>,
    pub value_names: Option<Vec<Cow<'i, str>>>,
}

/// A `VcpName` as plain values: the texts of the names, and of each name
/// whether it is borrowed from the input or an owned copy.
pub struct VcpNameView {
    pub feature: u8,
    pub name: Option<Seq<char>>,
    pub value_names: Option<Seq<Seq<char>>>,
    pub name_borrowed: Option<bool>,
    pub value_names_borrowed: Option<Seq<bool>>,
}

/// Of each of a list of names, whether it is borrowed.
pub open spec fn borrowed_flags<'i>(names: Seq<Cow<'i, str>>) -> Seq<bool> {
    Seq::new(names.len(), |k: int| names[k] is Borrowed)
}

impl<'i> DeepView for VcpName<'i> {
    type V = VcpNameView;

    open spec fn deep_view(&self) -> VcpNameView {
        VcpNameView {
            feature: self.feature,
            name: self.name.deep_view(),
            value_names: self.value_names.deep_view(),
            name_borrowed: match self.name {
                Some(name) => Some(name is Borrowed),
                None => None,
            },
            value_names_borrowed: match self.value_names {
                Some(names) => Some(borrowed_flags(names@)),
                None => None,
            },
        }
    }
}

impl<'i> VcpName<'i> {
    /// The names of the values; none where none are listed.
    pub fn value_names(&self) -> (s: &[Cow<'i, str>])
        ensures
            s@ == match self.value_names {
                Some(v) => v@,
                None => Seq::empty(),
            },
    {
        match &self.value_names {
            Some(v) => v.as_slice(),
            None => &[],
        }
    }
}

/// One decoded entry of a capability string.
#[derive(Clone, Debug, PartialEq, Eq)]
pub enum Cap<'a> {
    Protocol(&'a str),
    Type(&'a str),
    Model(&'a str),
    Commands(Vec<u8>),
    Whql(u8),
    MccsVersion(u8, u8),
    Vcp(Vec<Vcp>),
    VcpNames(Vec<VcpName<'a>>),
    Edid(&'a [u8]),
    Vdif(&'a [u8]),
    Unknown(Value<'a>),
}

/// A `Cap` as plain values.
pub enum CapView {
    Protocol(Seq<char>),
    Type(Seq<char>),
    Model(Seq<char>),
    Commands(Seq<u8>),
    Whql(u8),
    MccsVersion(u8, u8),
    Vcp(Seq<VcpView>),
    VcpNames(Seq<VcpNameView>),
    Edid(Seq<u8>),
    Vdif(Seq<u8>),
    Unknown(EntryView),
}

impl<'a> DeepView for Cap<'a> {
    type V = CapView;

    open spec fn deep_view(&self) -> CapView {
        match self {
            Cap::Protocol(s) => CapView::Protocol(s@),
            Cap::Type(s) => CapView::Type(s@),
            Cap::Model(s) => CapView::Model(s@),
            Cap::Commands(v) => CapView::Commands(v@),
            Cap::Whql(v) => CapView::Whql(*v),
            Cap::MccsVersion(major, minor) => CapView::MccsVersion(*major, *minor),
            Cap::Vcp(v) => CapView::Vcp(v.deep_view()),
            Cap::VcpNames(v) => CapView::VcpNames(v.deep_view()),
            Cap::Edid(d) => CapView::Edid(d@),
            Cap::Vdif(d) => CapView::Vdif(d@),
            Cap::Unknown(e) => CapView::Unknown(e@),
        }
    }
}

/// A payload that must be text: the text that valid UTF-8 encodes.
pub open spec fn text_value(s: Seq<u8>) -> Result<Seq<char>, Failure> {
    if valid_utf8(s) {
        Ok(decode_utf8(s))
    } else {
        Err(Failure { kind: ErrorKind::InvalidData, input: s })
    }
}

/// What a blob decodes to, by its tag.
pub open spec fn binary_cap(tag: Seq<char>, data: Seq<u8>) -> CapView {
    if tag == "edid"@ {
        CapView::Edid(data)
    } else if tag == "vdif"@ {
        CapView::Vdif(data)
    } else {
        CapView::Unknown(EntryView::Binary { tag, data })
    }
}

/// What a payload decodes to, by its tag. The grammar of the tag must take
/// the whole payload. A tag without a grammar keeps its payload as it is.
pub open spec fn string_cap(tag: Seq<char>, s: Seq<u8>) -> Result<CapView, Failure> {
    if tag == "prot"@ {
        match text_value(s) {
            Ok(t) => Ok(CapView::Protocol(t)),
            Err(f) => Err(f),
        }
    } else if tag == "type"@ {
        match text_value(s) {
            Ok(t) => Ok(CapView::Type(t)),
            Err(f) => Err(f),
        }
    } else if tag == "model"@ {
        match text_value(s) {
            Ok(t) => Ok(CapView::Model(t)),
            Err(f) => Err(f),
        }
    } else if tag == "cmds"@ {
        match hex_run(s, 0, false).whole(s) {
            Ok(v) => Ok(CapView::Commands(v)),
            Err(f) => Err(f),
        }
    } else if tag == "mswhql"@ {
        match whql(s).whole(s) {
            Ok(v) => Ok(CapView::Whql(v)),
            Err(f) => Err(f),
        }
    } else if tag == "mccs_ver"@ {
        match version_pair(s).whole(s) {
            Ok(v) => Ok(CapView::MccsVersion(v.0, v.1)),
            Err(f) => Err(f),
        }
    } else if tag == "vcp"@ || tag == "VCP"@ {
        match features(s, 0).whole(s) {
            Ok(v) => Ok(CapView::Vcp(v)),
            Err(f) => Err(f),
        }
    } else if tag == "vcpname"@ {
        match feature_names(s, 0).whole(s) {
            Ok(v) => Ok(CapView::VcpNames(v)),
            Err(f) => Err(f),
        }
    } else {
        Ok(CapView::Unknown(EntryView::String { tag, value: s }))
    }
}

/// What an entry decodes to.
pub open spec fn decoded(e: EntryView) -> Result<CapView, Failure> {
    match e {
        EntryView::String { tag, value } => string_cap(tag, value),
        EntryView::Binary { tag, data } => Ok(binary_cap(tag, data)),
    }
}

/// What the results of the tokenizer decode to, one by one: a failure of
/// the tokenizer stays what it is.
pub open spec fn decoded_each(rs: Seq<Result<EntryView, Failure>>) -> Seq<Result<CapView, Failure>> {
    Seq::new(
        rs.len(),
        |k: int|
            match rs[k] {
                Ok(e) => decoded(e),
                Err(f) => Err(f),
            },
    )
}

/// What a decoding returned, as plain values.
pub open spec fn cap_outcome<'i>(r: Result<Cap<'i>, ParseError<'i>>) -> Result<CapView, Failure> {
    match r {
        Ok(c) => Ok(c.deep_view()),
        Err(e) => Err(e@),
    }
}

/// The same of each of a list of results.
pub open spec fn cap_outcomes<'i>(v: Seq<Result<Cap<'i>, ParseError<'i>>>) -> Seq<
    Result<CapView, Failure>,
> {
    Seq::new(v.len(), |k: int| cap_outcome(v[k]))
}

/// Holds a rule to having read all of `i`.
pub fn finish<'i, T>(i: &'i [u8], r: Result<(T, usize), ParseError<'i>>) -> (out: Result<
    T,
    ParseError<'i>,
>)
    requires
        r matches Ok((_, n)) ==> n <= i@.len(),
    ensures
        match r {
            Ok((v, n)) => if n >= i@.len() {
                out == Ok::<T, ParseError<'i>>(v)
            } else {
                out matches Err(e) && e@ == (Failure {
                    kind: ErrorKind::InvalidData,
                    input: i@.skip(n as int),
                })
            },
            Err(e) => out == Err::<T, ParseError<'i>>(e),
        },
{
    match r {
        Ok((v, n)) => if n >= i.len() {
            Ok(v)
        } else {
            Err(ParseError::at(ErrorKind::InvalidData, i, n))
        },
        Err(e) => Err(e),
    }
}

/// Reads a payload that must be text.
pub fn value<'i>(i: &'i [u8]) -> (r: Result<&'i str, ParseError<'i>>)
    ensures
        match text_value(i@) {
            Ok(t) => r matches Ok(s) && s@ == t,
            Err(f) => r matches Err(e) && e@ == f,
        },
{
    match text(i) {
        Some(s) => Ok(s),
        None => {
            assert(i@.skip(0) =~= i@);
            Err(ParseError::at(ErrorKind::InvalidData, i, 0))
        },
    }
}

impl<'i> Cap<'i> {
    /// Decodes all the entries that the tokenizer still yields: one result
    /// for each of its results.
    pub fn parse_entries(entries: ValueParser<'i>) -> (out: Vec<Result<Cap<'i>, ParseError<'i>>>)
        ensures
            cap_outcomes(out@) == decoded_each(
                crate::entries::entries(entries.input@, entries.brackets, entries.after_type()),
            ),
    {
        let results = entries.nom_iter();
        let mut out: Vec<Result<Cap<'i>, ParseError<'i>>> = Vec::new();
        let mut k: usize = 0;
        while k < results.len()
            invariant
                k <= results@.len(),
                out@.len() == k,
                forall|j: int|
                    0 <= j < k ==> cap_outcome(#[trigger] out@[j]) == match outcome(results@[j]) {
                        Ok(e) => decoded(e),
                        Err(f) => Err(f),
                    },
            decreases results@.len() - k,
        {
            let r = match results[k] {
                Ok(e) => Self::parse_entry(e),
                Err(e) => Err(e),
            };
            out.push(r);
            k = k + 1;
        }
        assert(cap_outcomes(out@) =~= decoded_each(outcomes(results@)));
        out
    }

    /// Decodes one entry.
    pub fn parse_entry(value: Value<'i>) -> (r: Result<Cap<'i>, ParseError<'i>>)
        ensures
            cap_outcome(r) == decoded(value@),
    {
        match value {
            Value::String { tag, value } => Self::parse_string(tag, value),
            Value::Binary { tag, data } => Ok(Self::parse_data(tag, data)),
        }
    }

    /// Decodes a blob by its tag.
    pub fn parse_data(tag: &'i str, i: &'i [u8]) -> (c: Cap<'i>)
        ensures
            c.deep_view() == binary_cap(tag@, i@),
    {
        if same_text(tag, "edid") {
            Cap::Edid(i)
        } else if same_text(tag, "vdif") {
            Cap::Vdif(i)
        } else {
            Cap::Unknown(Value::Binary { tag, data: i })
        }
    }

    /// Decodes a payload by its tag.
    pub fn parse_string(tag: &'i str, i: &'i [u8]) -> (r: Result<Cap<'i>, ParseError<'i>>)
        ensures
            cap_outcome(r) == string_cap(tag@, i@),
    {
        if same_text(tag, "prot") {
            match value(i) {
                Ok(s) => Ok(Cap::Protocol(s)),
                Err(e) => Err(e),
            }
        } else if same_text(tag, "type") {
            match value(i) {
                Ok(s) => Ok(Cap::Type(s)),
                Err(e) => Err(e),
            }
        } else if same_text(tag, "model") {
            match value(i) {
                Ok(s) => Ok(Cap::Model(s)),
                Err(e) => Err(e),
            }
        } else if same_text(tag, "cmds") {
            match finish(i, hexarray(i, 0, false)) {
                Ok(v) => {
                    assert(v.deep_view() =~= v@);
                    Ok(Cap::Commands(v))
                },
                Err(e) => Err(e),
            }
        } else if same_text(tag, "mswhql") {
            match finish(i, mswhql(i)) {
                Ok(v) => Ok(Cap::Whql(v)),
                Err(e) => Err(e),
            }
        } else if same_text(tag, "mccs_ver") {
            match finish(i, mccs_ver(i)) {
                Ok((major, minor)) => Ok(Cap::MccsVersion(major, minor)),
                Err(e) => Err(e),
            }
        } else if same_text(tag, "vcp") || same_text(tag, "VCP") {
            match finish(i, vcp_list(i)) {
                Ok(v) => Ok(Cap::Vcp(v)),
                Err(e) => Err(e),
            }
        } else if same_text(tag, "vcpname") {
            match finish(i, vcpname_list(i)) {
                Ok(v) => Ok(Cap::VcpNames(v)),
                Err(e) => Err(e),
            }
        } else {
            Ok(Cap::Unknown(Value::String { tag, value: i }))
        }
    }
}

} // verus!
