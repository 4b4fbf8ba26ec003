//! What holds of the library as a whole: decoding is a function of the
//! bytes, and entries that are written out read back as themselves.

use crate::aggregate::{
    blank_descriptor, capabilities_of, feature_in_order, listed, listed_order, named_upto, once,
    values_in_order, with_all_names, with_cap, with_caps, with_feature, with_features, with_name,
    with_names,
};
use crate::caps::{
    cap_outcomes, decoded_each, Cap, CapView, VcpNameView, VcpValueView, VcpView,
};
use crate::entries::{
    bare_model, blob, closing, entries, entry, holds_word, opening_count, outcome,
    recovered_model, step, stepped, trailer, word_bin, word_cmds, word_model, EntryView, Step,
    Value, ValueParser,
};
use crate::error::{gathered, lemma_gathered_values, Failure, Parsed, ParseError};
use crate::format::{
    decimal_bytes, decimal_digits, escaped, formatted, formatted_all, lemma_decimal_bytes,
    lemma_decimal_reads_back,
};
use crate::lex::{
    byte_text, is_ascii_bytes, is_digit, lemma_ascii_is_text, lemma_span_end, lemma_span_end_is,
    span_end, ByteClass, CLOSE, OPEN, SPACE,
};
use crate::model::{no_capabilities, Capabilities, CapabilitiesView, DescriptorView};
use vstd::prelude::*;
use vstd::utf8::encode_utf8;

verus! {

/// Decoding the same bytes twice gives equal results: whatever two runs of
/// the decoder return for one capability string, entry by entry, is the
/// same as plain values.
pub proof fn law_decoding_is_a_function<'a, 'b>(
    bytes: Seq<u8>,
    first: Seq<Result<Cap<'a>, ParseError<'a>>>,
    second: Seq<Result<Cap<'b>, ParseError<'b>>>,
)
    requires
        cap_outcomes(first) == decoded_each(entries(bytes, None, false)),
        cap_outcomes(second) == decoded_each(entries(bytes, None, false)),
    ensures
        cap_outcomes(first) == cap_outcomes(second),
        first.len() == second.len(),
{
    assert(cap_outcomes(first).len() == first.len());
    assert(cap_outcomes(second).len() == second.len());
}

/// Reading the capabilities of the same bytes twice gives equal results:
/// both runs fail alike, or both give the same capabilities.
pub proof fn law_capabilities_are_a_function<'a, 'b>(
    bytes: Seq<u8>,
    first: Result<Capabilities, ParseError<'a>>,
    second: Result<Capabilities, ParseError<'b>>,
)
    requires
        match capabilities_of(bytes) {
            Ok(c) => first matches Ok(v) && v@ == c,
            Err(f) => first matches Err(e) && e@ == f,
        },
        match capabilities_of(bytes) {
            Ok(c) => second matches Ok(v) && v@ == c,
            Err(f) => second matches Err(e) && e@ == f,
        },
    ensures
        match (first, second) {
            (Ok(a), Ok(b)) => a@ == b@,
            (Err(a), Err(b)) => a@ == b@,
            _ => false,
        },
{
}

/// A step of the tokenizer depends on the tokenizer alone: two tokenizers
/// that are equal as plain values give equal results, and are equal again
/// after the step.
pub proof fn law_step_is_a_function<'a, 'b>(
    first: ValueParser<'a>,
    first_after: ValueParser<'a>,
    first_result: Result<Value<'a>, ParseError<'a>>,
    second: ValueParser<'b>,
    second_after: ValueParser<'b>,
    second_result: Result<Value<'b>, ParseError<'b>>,
)
    requires
        first@ == second@,
        stepped(first, first_after, first_result),
        stepped(second, second_after, second_result),
    ensures
        outcome(first_result) == outcome(second_result),
        first_after@ == second_after@,
{
}

/// A failed entry consumes nothing: where the parentheses that wrap the
/// string were counted before, a step that fails leaves the tokenizer as it
/// was, so that the next step fails in the same way.
pub proof fn law_failed_step_changes_nothing<'a>(
    before: ValueParser<'a>,
    after: ValueParser<'a>,
    r: Result<Value<'a>, ParseError<'a>>,
    again: ValueParser<'a>,
    r_again: Result<Value<'a>, ParseError<'a>>,
)
    requires
        before.brackets is Some,
        stepped(before, after, r),
        r is Err,
        stepped(after, again, r_again),
    ensures
        after == before,
        again == before,
        outcome(r_again) == outcome(r),
{
}

/// Whether two sets of features list the same features, each with the same
/// values.
pub open spec fn same_listing(a: Map<u8, DescriptorView>, b: Map<u8, DescriptorView>) -> bool {
    &&& a.dom() == b.dom()
    &&& forall|code: u8| #[trigger] a.contains_key(code) ==> a[code].values.dom() == b[code].values.dom()
}

/// Names that are given by place add no value.
proof fn lemma_named_upto_adds_nothing(
    values: Map<u8, Option<Seq<char>>>,
    order: Seq<u8>,
    names: Seq<Seq<char>>,
    n: nat,
)
    ensures
        named_upto(values, order, names, n).dom() == values.dom(),
    decreases n,
{
    if n > 0 {
        lemma_named_upto_adds_nothing(values, order, names, (n - 1) as nat);
        assert(named_upto(values, order, names, n).dom() =~= values.dom());
    }
}

/// The names of one feature add no feature and no value.
proof fn lemma_name_adds_nothing(m: Map<u8, DescriptorView>, n: VcpNameView, listing: Seq<CapView>)
    ensures
        same_listing(m, with_name(m, n, listing)),
{
    let after = with_name(m, n, listing);
    assert(after.dom() =~= m.dom());
    assert forall|code: u8| #[trigger] m.contains_key(code) implies m[code].values.dom()
        == after[code].values.dom() by {
        if code == n.feature {
            if let Some(names) = n.value_names {
                let order = listed_order(listing, n.feature);
                lemma_named_upto_adds_nothing(
                    m[code].values,
                    order,
                    names,
                    if order.len() <= names.len() {
                        order.len()
                    } else {
                        names.len()
                    },
                );
            }
        }
    }
}

/// The names of a list of features add no feature and no value.
proof fn lemma_names_add_nothing(
    m: Map<u8, DescriptorView>,
    list: Seq<VcpNameView>,
    listing: Seq<CapView>,
)
    ensures
        same_listing(m, with_names(m, list, listing)),
    decreases list.len(),
{
    if list.len() > 0 {
        lemma_names_add_nothing(m, list.drop_last(), listing);
        lemma_name_adds_nothing(with_names(m, list.drop_last(), listing), list.last(), listing);
    }
}

/// Names name what is listed, and no more: whatever the `vcpname` entries
/// of a capability string say, the features are those that its `vcp`
/// entries list, each with the values listed for it. A name for a feature
/// or a value that is not listed is dropped.
pub proof fn law_names_add_nothing(
    m: Map<u8, DescriptorView>,
    caps: Seq<CapView>,
    listing: Seq<CapView>,
)
    ensures
        same_listing(m, with_all_names(m, caps, listing)),
    decreases caps.len(),
{
    if caps.len() > 0 {
        law_names_add_nothing(m, caps.drop_last(), listing);
        let before = with_all_names(m, caps.drop_last(), listing);
        if let CapView::VcpNames(list) = caps.last() {
            lemma_names_add_nothing(before, list, listing);
        }
    }
}

/// Whether `order` holds the values of a feature as they are listed: each
/// value that `values` holds once, and no other.
pub open spec fn lists(order: Seq<u8>, values: Map<u8, Option<Seq<char>>>) -> bool {
    &&& order.no_duplicates()
    &&& forall|v: u8| order.contains(v) <==> values.contains_key(v)
}

/// The values that the features hold for the feature `code`; none where
/// they do not hold the feature.
pub open spec fn values_of(m: Map<u8, DescriptorView>, code: u8) -> Map<u8, Option<Seq<char>>> {
    if m.contains_key(code) {
        m[code].values
    } else {
        Map::empty()
    }
}

/// A value put behind a list once is in the list once.
proof fn lemma_once(order: Seq<u8>, values: Map<u8, Option<Seq<char>>>, x: u8)
    requires
        lists(order, values),
    ensures
        lists(once(order, x), values.insert(x, None)),
{
    let after = once(order, x);
    if order.contains(x) {
        assert forall|v: u8| after.contains(v) <==> values.insert(x, None).contains_key(v) by {}
    } else {
        assert(after[order.len() as int] == x);
        assert forall|v: u8| after.contains(v) <==> values.insert(x, None).contains_key(v) by {
            if after.contains(v) {
                let i = choose|i: int| 0 <= i < after.len() && after[i] == v;
                if i < order.len() {
                    assert(order[i] == v);
                }
            }
            if order.contains(v) {
                let i = choose|i: int| 0 <= i < order.len() && order[i] == v;
                assert(after[i] == v);
            }
        }
        assert forall|i: int, j: int| 0 <= i < after.len() && 0 <= j < after.len() && i != j implies after[i] != after[j] by {
            if i < order.len() {
                assert(order[i] == after[i]);
            }
            if j < order.len() {
                assert(order[j] == after[j]);
            }
        }
    }
}

/// The values of a listing, put behind a list in order, are the values that
/// the feature gets from the listing.
proof fn lemma_values_in_order(
    order: Seq<u8>,
    values: Map<u8, Option<Seq<char>>>,
    list: Seq<VcpValueView>,
)
    requires
        lists(order, values),
    ensures
        lists(values_in_order(order, list), listed(values, list)),
    decreases list.len(),
{
    if list.len() > 0 {
        lemma_values_in_order(order, values, list.drop_last());
        lemma_once(
            values_in_order(order, list.drop_last()),
            listed(values, list.drop_last()),
            list.last().value,
        );
    }
}

/// One item of a `vcp` entry keeps the list and the values of a feature
/// together.
proof fn lemma_feature_in_order(
    order: Seq<u8>,
    m: Map<u8, DescriptorView>,
    f: VcpView,
    code: u8,
)
    requires
        lists(order, values_of(m, code)),
    ensures
        lists(feature_in_order(order, seq![f], code), values_of(with_feature(m, f), code)),
{
    let none = Seq::<VcpView>::empty();
    assert(seq![f].drop_last() =~= none);
    assert(feature_in_order(order, none, code) == order);
    let after = with_feature(m, f);
    if f.feature == code {
        let d = if m.contains_key(code) {
            m[code]
        } else {
            blank_descriptor()
        };
        assert(d.values == values_of(m, code));
        if let Some(values) = f.values {
            lemma_values_in_order(order, d.values, values);
        }
    } else {
        assert(values_of(after, code) == values_of(m, code));
    }
}

/// The items of a `vcp` entry keep the list and the values of a feature
/// together.
proof fn lemma_features_in_order(
    order: Seq<u8>,
    m: Map<u8, DescriptorView>,
    features: Seq<VcpView>,
    code: u8,
)
    requires
        lists(order, values_of(m, code)),
    ensures
        lists(
            feature_in_order(order, features, code),
            values_of(with_features(m, features), code),
        ),
    decreases features.len(),
{
    if features.len() > 0 {
        let before = feature_in_order(order, features.drop_last(), code);
        let folded = with_features(m, features.drop_last());
        lemma_features_in_order(order, m, features.drop_last(), code);
        lemma_feature_in_order(before, folded, features.last(), code);
        let one = seq![features.last()];
        assert(one.drop_last() =~= Seq::<VcpView>::empty());
        assert(feature_in_order(before, Seq::<VcpView>::empty(), code) == before);
        assert(one.last() == features.last());
        assert(feature_in_order(before, one, code) == feature_in_order(order, features, code));
    }
}

/// The order in which the values of a feature are listed holds the values
/// that the feature has, each once: every name that has a place among the
/// listed values goes to a value of the feature.
pub proof fn law_listed_values_are_the_values(caps: Seq<CapView>, code: u8)
    ensures
        lists(
            listed_order(caps, code),
            values_of(with_caps(no_capabilities(), caps).vcp_features, code),
        ),
    decreases caps.len(),
{
    if caps.len() > 0 {
        law_listed_values_are_the_values(caps.drop_last(), code);
        let before = listed_order(caps.drop_last(), code);
        let folded = with_caps(no_capabilities(), caps.drop_last());
        match caps.last() {
            CapView::Vcp(features) => {
                lemma_features_in_order(before, folded.vcp_features, features, code);
            },
            _ => {},
        }
    } else {
        assert(values_of(no_capabilities().vcp_features, code) =~= Map::empty());
    }
}

/// A byte that is written as itself in an escaped payload.
pub open spec fn is_plain(b: u8) -> bool {
    0x20 <= b <= 0x7e && b != 0x5c && b != 0x27 && b != 0x22
}

/// Whether the parentheses of `v` match: the parenthesis that closes a
/// payload `v` is the one behind it.
pub open spec fn balanced(v: Seq<u8>) -> bool {
    closing(v.push(CLOSE), 0, 0) == Some(v.len() as int)
}

/// An entry to write: its tag and its payload as bytes, and whether it is
/// written as a blob.
pub struct Written {
    pub tag: Seq<u8>,
    pub payload: Seq<u8>,
    pub binary: bool,
}

/// A string entry as bytes: the tag, and the payload in parentheses.
pub open spec fn string_wire(tag: Seq<u8>, value: Seq<u8>) -> Seq<u8> {
    tag + seq![OPEN] + value + seq![CLOSE]
}

/// A binary entry as bytes: the tag, ` bin`, and in parentheses the length
/// of the blob in decimal and the blob in parentheses.
pub open spec fn binary_wire(tag: Seq<u8>, data: Seq<u8>) -> Seq<u8> {
    tag + word_bin() + seq![OPEN] + decimal_bytes(data.len()) + seq![OPEN] + data + seq![
        CLOSE,
        CLOSE,
    ]
}

impl Written {
    /// The entry as plain values.
    pub open spec fn entry(self) -> EntryView {
        if self.binary {
            EntryView::Binary { tag: byte_text(self.tag), data: self.payload }
        } else {
            EntryView::String { tag: byte_text(self.tag), value: self.payload }
        }
    }

    /// The entry as bytes.
    pub open spec fn wire(self) -> Seq<u8> {
        if self.binary {
            binary_wire(self.tag, self.payload)
        } else {
            string_wire(self.tag, self.payload)
        }
    }

    /// Whether the entry is one that reads back: its tag is an identifier,
    /// its payload is made of bytes that are written as themselves, and the
    /// parentheses of a payload match, or the length of a blob fits 32
    /// bits.
    pub open spec fn canonical(self) -> bool {
        &&& self.tag.len() > 0
        &&& forall|k: int| 0 <= k < self.tag.len() ==> ByteClass::Ident.has(#[trigger] self.tag[k])
        &&& forall|k: int| 0 <= k < self.payload.len() ==> is_plain(#[trigger] self.payload[k])
        &&& if self.binary {
            self.payload.len() <= u32::MAX
        } else {
            balanced(self.payload)
        }
    }
}

/// The entries written one after the other.
pub open spec fn wire_all(ws: Seq<Written>) -> Seq<u8>
    decreases ws.len(),
{
    if ws.len() == 0 {
        Seq::empty()
    } else {
        ws[0].wire() + wire_all(ws.drop_first())
    }
}

/// The text that `format` gives for the entries, one after the other.
pub open spec fn text_all(ws: Seq<Written>) -> Seq<char>
    decreases ws.len(),
{
    if ws.len() == 0 {
        Seq::empty()
    } else {
        formatted(ws[0].entry()) + text_all(ws.drop_first())
    }
}

/// Whether the vendor recovery leaves the written entries alone: it takes
/// none of them for a bare model name, where `after_type` says that an
/// entry `type` stands in front of them.
pub open spec fn unrecovered(ws: Seq<Written>, after_type: bool) -> bool
    decreases ws.len(),
{
    ws.len() == 0 || (recovered_model(wire_all(ws), 0, after_type) is None && unrecovered(
        ws.drop_first(),
        ws[0].entry().tag() == "type"@,
    ))
}

/// Plain bytes are escaped to themselves.
pub proof fn lemma_plain_is_kept(v: Seq<u8>)
    requires
        forall|k: int| 0 <= k < v.len() ==> is_plain(#[trigger] v[k]),
    ensures
        escaped(v) == byte_text(v),
    decreases v.len(),
{
    if v.len() > 0 {
        lemma_plain_is_kept(v.drop_last());
        assert(is_plain(v[v.len() - 1]));
        assert(escaped(v) =~= byte_text(v));
    } else {
        assert(escaped(v) =~= byte_text(v));
    }
}

/// The closing parenthesis of a payload is found at the same place wherever
/// the payload stands in the input.
pub proof fn lemma_closing_moves(s: Seq<u8>, off: int, t: Seq<u8>, k: int, depth: nat)
    requires
        0 <= off,
        0 <= k <= t.len(),
        off + t.len() <= s.len(),
        forall|j: int| 0 <= j < t.len() ==> s[off + j] == #[trigger] t[j],
        closing(t, k, depth) is Some,
    ensures
        closing(s, off + k, depth) == Some(off + closing(t, k, depth)->0),
    decreases t.len() - k,
{
    if k < t.len() {
        assert(s[off + k] == t[k]);
        if t[k] == CLOSE {
            if depth > 0 {
                lemma_closing_moves(s, off, t, k + 1, (depth - 1) as nat);
            }
        } else if t[k] == OPEN {
            lemma_closing_moves(s, off, t, k + 1, depth + 1);
        } else {
            lemma_closing_moves(s, off, t, k + 1, depth);
        }
    }
}

/// Whether `s` starts with the tag and the payload in parentheses, byte by
/// byte.
spec fn string_laid_out(s: Seq<u8>, tag: Seq<u8>, value: Seq<u8>) -> bool {
    let n = tag.len() as int;
    let m = value.len() as int;
    &&& s.len() >= n + m + 2
    &&& forall|k: int| 0 <= k < n ==> s[k] == #[trigger] tag[k]
    &&& s[n] == OPEN
    &&& forall|j: int| 0 <= j < m ==> s[n + 1 + j] == #[trigger] value[j]
    &&& s[n + 1 + m] == CLOSE
}

/// Whether `s` starts with the tag, ` bin`, and in parentheses the digits
/// and the blob in parentheses, byte by byte.
spec fn binary_laid_out(s: Seq<u8>, tag: Seq<u8>, digits: Seq<u8>, data: Seq<u8>) -> bool {
    let n = tag.len() as int;
    let l = digits.len() as int;
    let m = data.len() as int;
    &&& s.len() >= n + l + m + 8
    &&& forall|k: int| 0 <= k < n ==> s[k] == #[trigger] tag[k]
    &&& forall|k: int| 0 <= k < 4 ==> s[n + k] == #[trigger] word_bin()[k]
    &&& s[n + 4] == OPEN
    &&& forall|k: int| 0 <= k < l ==> s[n + 5 + k] == #[trigger] digits[k]
    &&& s[n + 5 + l] == OPEN
    &&& forall|j: int| 0 <= j < m ==> s[n + 6 + l + j] == #[trigger] data[j]
    &&& s[n + 6 + l + m] == CLOSE
    &&& s[n + 7 + l + m] == CLOSE
}

/// Whether `s` ends at `at` or goes on with the first byte of a tag.
spec fn tag_follows(s: Seq<u8>, at: int) -> bool {
    at == s.len() || (0 <= at < s.len() && ByteClass::Ident.has(s[at]))
}

/// Where the bytes of a written entry stand in front of `rest`.
proof fn lemma_wire_layout(w: Written, rest: Seq<u8>)
    ensures
        !w.binary ==> string_laid_out(w.wire() + rest, w.tag, w.payload),
        w.binary ==> binary_laid_out(
            w.wire() + rest,
            w.tag,
            decimal_bytes(w.payload.len()),
            w.payload,
        ),
        forall|k: int| 0 <= k < rest.len() ==> (w.wire() + rest)[w.wire().len() + k] == rest[k],
        (w.wire() + rest).len() == w.wire().len() + rest.len(),
        !w.binary ==> w.wire().len() == w.tag.len() + w.payload.len() + 2,
        w.binary ==> w.wire().len() == w.tag.len() + decimal_bytes(w.payload.len()).len()
            + w.payload.len() + 8,
{
    assert(word_bin().len() == 4);
}

/// The text of a canonical string entry is its bytes.
proof fn lemma_string_text(s: Seq<u8>, tag: Seq<u8>, value: Seq<u8>)
    requires
        string_laid_out(s, tag, value),
        s.len() == tag.len() + value.len() + 2,
        forall|k: int| 0 <= k < tag.len() ==> ByteClass::Ident.has(#[trigger] tag[k]),
        forall|k: int| 0 <= k < value.len() ==> is_plain(#[trigger] value[k]),
    ensures
        formatted(EntryView::String { tag: byte_text(tag), value }) == byte_text(s),
        is_ascii_bytes(s),
{
    let n = tag.len() as int;
    let m = value.len() as int;
    lemma_plain_is_kept(value);
    assert forall|k: int| 0 <= k < s.len() implies #[trigger] s[k] < 0x80 by {
        if k < n {
            assert(ByteClass::Ident.has(tag[k]));
        } else if n < k && k < n + 1 + m {
            assert(is_plain(value[k - n - 1]));
            assert(s[n + 1 + (k - n - 1)] == value[k - n - 1]);
        }
    }
    let t = formatted(EntryView::String { tag: byte_text(tag), value });
    assert(t.len() == s.len());
    assert forall|k: int| 0 <= k < s.len() implies t[k] == byte_text(s)[k] by {
        if k < n {
            assert(s[k] == tag[k]);
        } else if n < k && k < n + 1 + m {
            assert(s[n + 1 + (k - n - 1)] == value[k - n - 1]);
            assert(byte_text(value)[k - n - 1] == escaped(value)[k - n - 1]);
        }
    }
    assert(t =~= byte_text(s));
}

/// The text of a canonical binary entry is its bytes.
proof fn lemma_blob_text(s: Seq<u8>, tag: Seq<u8>, data: Seq<u8>)
    requires
        binary_laid_out(s, tag, decimal_bytes(data.len()), data),
        s.len() == tag.len() + decimal_bytes(data.len()).len() + data.len() + 8,
        forall|k: int| 0 <= k < tag.len() ==> ByteClass::Ident.has(#[trigger] tag[k]),
        forall|k: int| 0 <= k < data.len() ==> is_plain(#[trigger] data[k]),
    ensures
        formatted(EntryView::Binary { tag: byte_text(tag), data }) == byte_text(s),
        is_ascii_bytes(s),
{
    let digits = decimal_bytes(data.len());
    let n = tag.len() as int;
    let l = digits.len() as int;
    let m = data.len() as int;
    let e = EntryView::Binary { tag: byte_text(tag), data };
    lemma_decimal_bytes(data.len());
    lemma_plain_is_kept(data);
    assert forall|k: int| 0 <= k < s.len() implies #[trigger] s[k] < 0x80 by {
        if k < n {
            assert(ByteClass::Ident.has(tag[k]));
        } else if k < n + 4 {
            assert(s[n + (k - n)] == word_bin()[k - n]);
        } else if n + 5 <= k && k < n + 5 + l {
            assert(is_digit(digits[k - n - 5]));
            assert(s[n + 5 + (k - n - 5)] == digits[k - n - 5]);
        } else if n + 6 + l <= k && k < n + 6 + l + m {
            assert(is_plain(data[k - n - 6 - l]));
            assert(s[n + 6 + l + (k - n - 6 - l)] == data[k - n - 6 - l]);
        }
    }
    let t = formatted(e);
    assert(t.len() == s.len());
    assert forall|k: int| 0 <= k < s.len() implies t[k] == byte_text(s)[k] by {
        if k < n {
            assert(s[k] == tag[k]);
        } else if k < n + 4 {
            assert(s[n + (k - n)] == word_bin()[k - n]);
        } else if n + 5 <= k && k < n + 5 + l {
            assert(s[n + 5 + (k - n - 5)] == digits[k - n - 5]);
            assert(byte_text(digits)[k - n - 5] == decimal_digits(data.len())[k - n - 5]);
        } else if n + 6 + l <= k && k < n + 6 + l + m {
            assert(s[n + 6 + l + (k - n - 6 - l)] == data[k - n - 6 - l]);
            assert(byte_text(data)[k - n - 6 - l] == escaped(data)[k - n - 6 - l]);
        }
    }
    assert(t =~= byte_text(s));
}

/// A canonical string entry is read from bytes that start with it.
proof fn lemma_string_entry_is_read(s: Seq<u8>, tag: Seq<u8>, value: Seq<u8>, after_type: bool)
    requires
        string_laid_out(s, tag, value),
        tag.len() > 0,
        forall|k: int| 0 <= k < tag.len() ==> ByteClass::Ident.has(#[trigger] tag[k]),
        balanced(value),
        tag_follows(s, tag.len() as int + value.len() + 2),
        recovered_model(s, 0, after_type) is None,
    ensures
        entry(s, after_type) == (Parsed::Done {
            value: EntryView::String { tag: byte_text(tag), value },
            next: tag.len() as int + value.len() + 2,
        }),
{
    let n = tag.len() as int;
    let m = value.len() as int;
    assert(ByteClass::Ident.has(tag[0]));
    assert(s[0] == tag[0]);
    lemma_span_end_is(s, 0, 0, ByteClass::Blank);
    assert forall|k: int| 0 <= k < n implies ByteClass::Ident.has(#[trigger] s[k]) by {
        assert(ByteClass::Ident.has(tag[k]));
    }
    lemma_span_end_is(s, 0, n, ByteClass::Ident);
    assert(!holds_word(s, n, word_bin())) by {
        assert(word_bin()[0] == 0x20);
        if holds_word(s, n, word_bin()) {
            assert(s[n + 0] == word_bin()[0]);
        }
    }
    let t = value.push(CLOSE);
    assert forall|j: int| 0 <= j < t.len() implies s[n + 1 + j] == #[trigger] t[j] by {
        if j < m {
            assert(s[n + 1 + j] == value[j]);
        }
    }
    lemma_closing_moves(s, n + 1, t, 0, 0);
    lemma_span_end_is(s, n + m + 2, n + m + 2, ByteClass::Blank);
    assert(s.subrange(0, n) =~= tag);
    assert(s.subrange(n + 1, n + 1 + m) =~= value);
}

/// The blob of a binary entry is read from bytes that start with the entry.
proof fn lemma_blob_is_read(s: Seq<u8>, tag: Seq<u8>, data: Seq<u8>)
    requires
        binary_laid_out(s, tag, decimal_bytes(data.len()), data),
        data.len() <= u32::MAX,
    ensures
        blob(s, tag.len() as int + 4) == (Parsed::Done {
            value: data,
            next: tag.len() as int + decimal_bytes(data.len()).len() + data.len() + 8,
        }),
{
    let digits = decimal_bytes(data.len());
    let n = tag.len() as int;
    let l = digits.len() as int;
    let m = data.len() as int;
    lemma_decimal_bytes(data.len());
    assert(is_digit(digits[0]));
    assert(s[n + 5 + 0] == digits[0]);
    lemma_span_end_is(s, n + 5, n + 5, ByteClass::Blank);
    assert forall|k: int| n + 5 <= k < n + 5 + l implies ByteClass::Digit.has(#[trigger] s[k]) by {
        assert(is_digit(digits[k - n - 5]));
        assert(s[n + 5 + (k - n - 5)] == digits[k - n - 5]);
    }
    lemma_span_end_is(s, n + 5, n + 5 + l, ByteClass::Digit);
    lemma_decimal_reads_back(s, n + 5, data.len());
    lemma_span_end_is(s, n + 5 + l, n + 5 + l, ByteClass::Blank);
    assert(s.subrange(n + 6 + l, n + 6 + l + m) =~= data);
}

/// A canonical binary entry is read from bytes that start with it.
proof fn lemma_blob_entry_is_read(s: Seq<u8>, tag: Seq<u8>, data: Seq<u8>, after_type: bool)
    requires
        binary_laid_out(s, tag, decimal_bytes(data.len()), data),
        tag.len() > 0,
        forall|k: int| 0 <= k < tag.len() ==> ByteClass::Ident.has(#[trigger] tag[k]),
        data.len() <= u32::MAX,
        tag_follows(s, tag.len() as int + decimal_bytes(data.len()).len() + data.len() + 8),
        recovered_model(s, 0, after_type) is None,
    ensures
        entry(s, after_type) == (Parsed::Done {
            value: EntryView::Binary { tag: byte_text(tag), data },
            next: tag.len() as int + decimal_bytes(data.len()).len() + data.len() + 8,
        }),
{
    let n = tag.len() as int;
    let end = tag.len() as int + decimal_bytes(data.len()).len() + data.len() + 8;
    lemma_blob_is_read(s, tag, data);
    assert(ByteClass::Ident.has(tag[0]));
    assert(s[0] == tag[0]);
    lemma_span_end_is(s, 0, 0, ByteClass::Blank);
    assert forall|k: int| 0 <= k < n implies ByteClass::Ident.has(#[trigger] s[k]) by {
        assert(ByteClass::Ident.has(tag[k]));
    }
    assert(s[n + 0] == word_bin()[0]);
    lemma_span_end_is(s, 0, n, ByteClass::Ident);
    assert(word_bin().len() == 4);
    assert(holds_word(s, n, word_bin()));
    lemma_span_end_is(s, end, end, ByteClass::Blank);
    assert(s.subrange(0, n) =~= tag);
}

/// A canonical entry in front of `rest` is read from the bytes of both.
proof fn lemma_written_is_read(w: Written, rest: Seq<u8>, after_type: bool)
    requires
        w.canonical(),
        rest.len() > 0 ==> ByteClass::Ident.has(rest[0]),
        recovered_model(w.wire() + rest, 0, after_type) is None,
    ensures
        entry(w.wire() + rest, after_type) == (Parsed::Done {
            value: w.entry(),
            next: w.wire().len() as int,
        }),
        w.wire().len() > 0,
        ByteClass::Ident.has((w.wire() + rest)[0]),
{
    let s = w.wire() + rest;
    lemma_wire_layout(w, rest);
    if rest.len() > 0 {
        assert(s[w.wire().len() as int + 0] == rest[0]);
    }
    assert(s[0] == w.tag[0]);
    assert(ByteClass::Ident.has(w.tag[0]));
    if w.binary {
        lemma_blob_entry_is_read(s, w.tag, w.payload, after_type);
    } else {
        lemma_string_entry_is_read(s, w.tag, w.payload, after_type);
    }
}

/// The step that reads an entry which a tag or nothing follows, where no
/// parentheses wrap the input.
proof fn lemma_step_reads_entry(
    s: Seq<u8>,
    brackets: Option<usize>,
    after_type: bool,
    e: EntryView,
    next: int,
)
    requires
        entry(s, after_type) == (Parsed::Done { value: e, next }),
        0 < next <= s.len(),
        ByteClass::Ident.has(s[0]),
        brackets is None || brackets == Some(0usize),
        tag_follows(s, next),
    ensures
        step(s, brackets, after_type) == (Step {
            result: Ok(e),
            input: s.skip(next),
            brackets: 0,
            after_type: e.tag() == "type"@,
        }),
{
    assert(opening_count(s) == 0);
    assert(s.skip(0) =~= s);
    assert(trailer(s, next, 0) == (next, 0nat));
}

/// The text of canonical entries is their bytes.
proof fn lemma_text_all(ws: Seq<Written>)
    requires
        forall|k: int| 0 <= k < ws.len() ==> (#[trigger] ws[k]).canonical(),
    ensures
        text_all(ws) == byte_text(wire_all(ws)),
        is_ascii_bytes(wire_all(ws)),
        ws.len() > 0 ==> wire_all(ws).len() > 0 && ByteClass::Ident.has(wire_all(ws)[0]),
    decreases ws.len(),
{
    if ws.len() > 0 {
        let w = ws[0];
        let rest = ws.drop_first();
        assert forall|k: int| 0 <= k < rest.len() implies (#[trigger] rest[k]).canonical() by {
            assert(ws[k + 1].canonical());
        }
        lemma_text_all(rest);
        assert(w.canonical());
        lemma_wire_layout(w, Seq::empty());
        assert(w.wire() + Seq::<u8>::empty() =~= w.wire());
        if w.binary {
            lemma_blob_text(w.wire(), w.tag, w.payload);
        } else {
            lemma_string_text(w.wire(), w.tag, w.payload);
        }
        assert(text_all(ws) =~= byte_text(wire_all(ws)));
        assert(wire_all(ws)[0] == w.wire()[0]);
        assert(w.wire()[0] == w.tag[0]);
        assert(ByteClass::Ident.has(w.tag[0]));
        assert forall|k: int| 0 <= k < wire_all(ws).len() implies #[trigger] wire_all(ws)[k]
            < 0x80 by {
            if k < w.wire().len() {
                assert(wire_all(ws)[k] == w.wire()[k]);
            } else {
                assert(wire_all(ws)[k] == wire_all(rest)[k - w.wire().len()]);
            }
        }
    } else {
        assert(text_all(ws) =~= byte_text(wire_all(ws)));
    }
}

/// What the tokenizer returns from a state on is what its step returns, and
/// what it returns from the state that the step leaves.
proof fn lemma_entries_after_step(s: Seq<u8>, brackets: Option<usize>, after_type: bool, st: Step)
    requires
        s.len() > 0,
        step(s, brackets, after_type) == st,
        st.result is Ok,
        st.input.len() < s.len(),
    ensures
        entries(s, brackets, after_type) == seq![st.result] + entries(
            st.input,
            Some(st.brackets),
            st.after_type,
        ),
{
}

/// The first of the written entries is read, and the others are left.
proof fn lemma_first_is_read(ws: Seq<Written>, brackets: Option<usize>, after_type: bool)
    requires
        ws.len() > 0,
        forall|k: int| 0 <= k < ws.len() ==> (#[trigger] ws[k]).canonical(),
        recovered_model(wire_all(ws), 0, after_type) is None,
        brackets is None || brackets == Some(0usize),
    ensures
        entries(wire_all(ws), brackets, after_type) == seq![
            Ok::<EntryView, Failure>(ws[0].entry()),
        ] + entries(
            wire_all(ws.drop_first()),
            Some(0usize),
            ws[0].entry().tag() == "type"@,
        ),
{
    let s = wire_all(ws);
    let w = ws[0];
    let others = ws.drop_first();
    let rest = wire_all(others);
    assert forall|k: int| 0 <= k < others.len() implies (#[trigger] others[k]).canonical() by {
        assert(ws[k + 1].canonical());
    }
    assert(w.canonical());
    lemma_text_all(others);
    lemma_written_is_read(w, rest, after_type);
    let next = w.wire().len() as int;
    lemma_wire_layout(w, rest);
    if rest.len() > 0 {
        assert(s[next + 0] == rest[0]);
    }
    lemma_step_reads_entry(s, brackets, after_type, w.entry(), next);
    assert(s.skip(next) =~= rest);
    lemma_entries_after_step(s, brackets, after_type, step(s, brackets, after_type));
}

/// The entries that the tokenizer reads from canonical entries written one
/// after the other are those entries.
proof fn lemma_all_read_back(ws: Seq<Written>, brackets: Option<usize>, after_type: bool)
    requires
        forall|k: int| 0 <= k < ws.len() ==> (#[trigger] ws[k]).canonical(),
        unrecovered(ws, after_type),
        brackets is None || brackets == Some(0usize),
    ensures
        entries(wire_all(ws), brackets, after_type) == Seq::new(
            ws.len(),
            |k: int| Ok::<EntryView, Failure>(ws[k].entry()),
        ),
    decreases ws.len(),
{
    let s = wire_all(ws);
    let all = Seq::new(ws.len(), |k: int| Ok::<EntryView, Failure>(ws[k].entry()));
    if ws.len() == 0 {
        assert(entries(s, brackets, after_type) =~= all);
    } else {
        let others = ws.drop_first();
        let then = ws[0].entry().tag() == "type"@;
        assert forall|k: int| 0 <= k < others.len() implies (#[trigger] others[k]).canonical() by {
            assert(ws[k + 1].canonical());
        }
        lemma_first_is_read(ws, brackets, after_type);
        lemma_all_read_back(others, Some(0usize), then);
        let tail = Seq::new(others.len(), |k: int| Ok::<EntryView, Failure>(others[k].entry()));
        assert(seq![Ok::<EntryView, Failure>(ws[0].entry())] + tail =~= all);
    }
}

/// Writing entries and reading them again gives the entries back. This
/// holds of canonical entries which the vendor recovery does not take for
/// a bare model name: the text that `format` gives for them, one after the
/// other, is their bytes, and the tokenizer reads from it those entries in
/// order and nothing else.
pub proof fn law_written_entries_read_back(ws: Seq<Written>)
    requires
        forall|k: int| 0 <= k < ws.len() ==> (#[trigger] ws[k]).canonical(),
        unrecovered(ws, false),
    ensures
        entries(encode_utf8(text_all(ws)), None, false) == Seq::new(
            ws.len(),
            |k: int| Ok::<EntryView, Failure>(ws[k].entry()),
        ),
{
    lemma_text_all(ws);
    lemma_ascii_is_text(wire_all(ws));
    lemma_all_read_back(ws, None, false);
}

/// Writing one entry and reading it again gives the entry back: the law of
/// all written entries, said of one.
pub proof fn law_written_entry_reads_back(w: Written)
    requires
        w.canonical(),
        recovered_model(w.wire(), 0, false) is None,
    ensures
        encode_utf8(formatted(w.entry())) == w.wire(),
        entries(w.wire(), None, false) == seq![Ok::<EntryView, Failure>(w.entry())],
{
    let ws = seq![w];
    let none = Seq::<Written>::empty();
    assert(ws.drop_first() =~= none);
    assert(wire_all(none) =~= Seq::<u8>::empty());
    assert(text_all(none) =~= Seq::<char>::empty());
    assert(wire_all(ws) =~= w.wire());
    assert(text_all(ws) =~= formatted(w.entry()));
    assert(unrecovered(none, w.entry().tag() == "type"@));
    assert(unrecovered(ws, false));
    lemma_text_all(ws);
    lemma_ascii_is_text(wire_all(ws));
    lemma_all_read_back(ws, None, false);
    assert(Seq::new(ws.len(), |k: int| Ok::<EntryView, Failure>(ws[k].entry())) =~= seq![
        Ok::<EntryView, Failure>(w.entry()),
    ]);
}

/// Whether the vendor recovery cannot take a tag for a bare model name: the
/// tag does not end in `cmds` behind other bytes.
pub open spec fn unmistakable(tag: Seq<u8>) -> bool {
    !(tag.len() > 4 && holds_word(tag, tag.len() - 4, word_cmds()))
}

/// No bare model name is found at the start of bytes that start with an
/// identifier in front of `(` or a space, if the identifier does not end in
/// `cmds` behind other bytes.
proof fn lemma_tag_is_not_recovered(s: Seq<u8>, tag: Seq<u8>, after_type: bool)
    requires
        0 < tag.len() < s.len(),
        forall|k: int| 0 <= k < tag.len() ==> s[k] == #[trigger] tag[k],
        forall|k: int| 0 <= k < tag.len() ==> ByteClass::Ident.has(#[trigger] tag[k]),
        s[tag.len() as int] == OPEN || s[tag.len() as int] == SPACE,
        unmistakable(tag),
    ensures
        recovered_model(s, 0, after_type) is None,
{
    let n = tag.len() as int;
    assert forall|r: int| (r == 0 || r == 5) && r <= n implies bare_model(s, r) is None by {
        let e = span_end(s, r, ByteClass::Alphanumeric);
        lemma_span_end(s, r, ByteClass::Alphanumeric);
        if bare_model(s, r) is Some {
            if e > n {
                assert(ByteClass::Alphanumeric.has(s[n]));
            }
            if e < n {
                assert(s[e] == tag[e]);
                assert(ByteClass::Ident.has(tag[e]));
            }
            assert(e == n);
            assert(word_cmds().len() == 4);
            assert forall|k: int| 0 <= k < 4 implies tag[n - 4 + k] == #[trigger] word_cmds()[k] by {
                assert(s[e - 4 + k] == word_cmds()[k]);
                assert(s[n - 4 + k] == tag[n - 4 + k]);
            }
            assert(holds_word(tag, n - 4, word_cmds()));
        }
    }
    if holds_word(s, 0, word_model()) {
        assert(word_model().len() == 5);
        if n < 5 {
            assert(s[0 + n] == word_model()[n]);
        }
    }
}

/// The vendor recovery leaves written entries alone whose tags it cannot
/// mistake.
proof fn lemma_unrecovered(ws: Seq<Written>, after_type: bool)
    requires
        forall|k: int| 0 <= k < ws.len() ==> (#[trigger] ws[k]).canonical(),
        forall|k: int| 0 <= k < ws.len() ==> unmistakable((#[trigger] ws[k]).tag),
    ensures
        unrecovered(ws, after_type),
    decreases ws.len(),
{
    if ws.len() > 0 {
        let w = ws[0];
        let others = ws.drop_first();
        assert forall|k: int| 0 <= k < others.len() implies (#[trigger] others[k]).canonical() by {
            assert(ws[k + 1].canonical());
        }
        assert forall|k: int| 0 <= k < others.len() implies unmistakable(
            (#[trigger] others[k]).tag,
        ) by {
            assert(unmistakable(ws[k + 1].tag));
        }
        assert(w.canonical());
        assert(unmistakable(w.tag));
        let rest = wire_all(others);
        lemma_wire_layout(w, rest);
        let s = wire_all(ws);
        let n = w.tag.len() as int;
        assert(s[n] == OPEN || s[n] == SPACE) by {
            if w.binary {
                assert(s[n + 0] == word_bin()[0]);
            }
        }
        lemma_tag_is_not_recovered(s, w.tag, after_type);
        lemma_unrecovered(others, w.entry().tag() == "type"@);
    }
}

/// The entry as it is written: its tag as the bytes of its text.
pub open spec fn written_of(e: EntryView) -> Written {
    match e {
        EntryView::String { tag, value } => Written {
            tag: encode_utf8(tag),
            payload: value,
            binary: false,
        },
        EntryView::Binary { tag, data } => Written {
            tag: encode_utf8(tag),
            payload: data,
            binary: true,
        },
    }
}

/// Whether an entry is one that reads back when it is written: its tag is
/// an identifier that does not end in `cmds` behind other bytes, its
/// payload is made of printable ASCII bytes without backslash and quotes,
/// and the parentheses of a payload match, or the length of a blob fits 32
/// bits.
pub open spec fn readable(e: EntryView) -> bool {
    written_of(e).canonical() && unmistakable(written_of(e).tag)
}

/// A readable entry is the entry of what is written of it.
proof fn lemma_written_of(e: EntryView)
    requires
        readable(e),
    ensures
        written_of(e).entry() == e,
{
    broadcast use vstd::utf8::encode_utf8_decode_utf8;

    let tag = written_of(e).tag;
    assert forall|k: int| 0 <= k < tag.len() implies #[trigger] tag[k] < 0x80 by {
        assert(ByteClass::Ident.has(tag[k]));
    }
    lemma_ascii_is_text(tag);
    assert(vstd::utf8::decode_utf8(encode_utf8(e.tag())) == e.tag());
}

/// The text of readable entries is the text of what is written of them.
proof fn lemma_formatted_all(es: Seq<EntryView>)
    requires
        forall|k: int| 0 <= k < es.len() ==> readable(#[trigger] es[k]),
    ensures
        formatted_all(es) == text_all(Seq::new(es.len(), |k: int| written_of(es[k]))),
    decreases es.len(),
{
    let ws = Seq::new(es.len(), |k: int| written_of(es[k]));
    if es.len() > 0 {
        let rest = es.drop_first();
        assert forall|k: int| 0 <= k < rest.len() implies readable(#[trigger] rest[k]) by {
            assert(readable(es[k + 1]));
        }
        lemma_formatted_all(rest);
        assert(ws.drop_first() =~= Seq::new(rest.len(), |k: int| written_of(rest[k])));
        assert(readable(es[0]));
        lemma_written_of(es[0]);
    }
}

/// Writing entries and reading them again gives the entries back, nothing
/// left over: the tokenizer reads from the text that `format` gives for
/// readable entries, one after the other, those entries in order and no
/// others.
pub proof fn law_formatted_entries_read_back(es: Seq<EntryView>)
    requires
        forall|k: int| 0 <= k < es.len() ==> readable(#[trigger] es[k]),
    ensures
        entries(encode_utf8(formatted_all(es)), None, false) == Seq::new(
            es.len(),
            |k: int| Ok::<EntryView, Failure>(es[k]),
        ),
{
    let ws = Seq::new(es.len(), |k: int| written_of(es[k]));
    assert forall|k: int| 0 <= k < ws.len() implies (#[trigger] ws[k]).canonical() by {
        assert(readable(es[k]));
    }
    assert forall|k: int| 0 <= k < ws.len() implies unmistakable((#[trigger] ws[k]).tag) by {
        assert(readable(es[k]));
    }
    lemma_unrecovered(ws, false);
    lemma_formatted_all(es);
    law_written_entries_read_back(ws);
    assert forall|k: int| 0 <= k < es.len() implies ws[k].entry() == es[k] by {
        assert(readable(es[k]));
        lemma_written_of(es[k]);
    }
    assert(Seq::new(ws.len(), |k: int| Ok::<EntryView, Failure>(ws[k].entry())) =~= Seq::new(
        es.len(),
        |k: int| Ok::<EntryView, Failure>(es[k]),
    ));
}

/// Writing entries and collecting them again gives the entries back: what
/// is collected from the text that `format` gives for readable entries, one
/// after the other, is those entries in order, without a failure and with
/// nothing left over.
pub proof fn law_formatted_entries_are_collected(es: Seq<EntryView>)
    requires
        forall|k: int| 0 <= k < es.len() ==> readable(#[trigger] es[k]),
    ensures
        gathered(entries(encode_utf8(formatted_all(es)), None, false)) == Ok::<
            Seq<EntryView>,
            Failure,
        >(es),
{
    law_formatted_entries_read_back(es);
    lemma_gathered_values(es);
}

} // verus!
