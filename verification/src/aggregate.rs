//! From a capability string to the capabilities it spells out.
//!
//! The entries are decoded in order and folded into one record. The names of
//! a `vcpname` entry are applied last, whatever its place in the string:
//! they name features and values that the `vcp` entries have listed, and
//! those only. The names of the values of a feature go to the values by
//! place, in the order in which the `vcp` entries list them.

use crate::caps::{Cap, CapView, Vcp, VcpName, VcpNameView, VcpValue, VcpValueView, VcpView};
use crate::entries::{EntryView, Value};
use crate::error::{Failure, ParseError};
use crate::parse::gathered_from;
use crate::lex::text;
use crate::model::{
    features_view, no_capabilities, values_view, Capabilities, CapabilitiesView,
    DescriptorView, Protocol, Type, UnknownData, UnknownDataView, UnknownTag, UnknownTagView,
    ValueNames, VcpDescriptor, Version, protocol_named, type_named,
};
use std::borrow::Cow;
use std::collections::BTreeMap;
use vstd::prelude::*;
use vstd::slice::slice_to_vec;
use vstd::utf8::{decode_utf8, valid_utf8};

verus! {

/// The values of a feature with those of `list` added, each without a name.
/// A value that is listed again loses the name it had.
pub open spec fn listed(values: Map<u8, Option<Seq<char>>>, list: Seq<VcpValueView>) -> Map<
    u8,
    Option<Seq<char>>,
>
    decreases list.len(),
{
    if list.len() == 0 {
        values
    } else {
        listed(values, list.drop_last()).insert(list.last().value, None)
    }
}

/// The descriptor that a feature has before anything is known of it.
pub open spec fn blank_descriptor() -> DescriptorView {
    DescriptorView { name: None, values: Map::empty() }
}

/// The features with `f` added: the values that `f` lists are added to those
/// that the feature has.
pub open spec fn with_feature(m: Map<u8, DescriptorView>, f: VcpView) -> Map<u8, DescriptorView> {
    let d = if m.contains_key(f.feature) {
        m[f.feature]
    } else {
        blank_descriptor()
    };
    let values = match f.values {
        Some(list) => listed(d.values, list),
        None => d.values,
    };
    m.insert(f.feature, DescriptorView { name: d.name, values })
}

/// The features with those of `list` added in order.
pub open spec fn with_features(m: Map<u8, DescriptorView>, list: Seq<VcpView>) -> Map<
    u8,
    DescriptorView,
>
    decreases list.len(),
{
    if list.len() == 0 {
        m
    } else {
        with_feature(with_features(m, list.drop_last()), list.last())
    }
}

/// What is kept of an entry that no grammar is known for: its payload as
/// text where it is valid UTF-8, as bytes where not.
pub open spec fn unknown_tag(e: EntryView) -> UnknownTagView {
    UnknownTagView {
        name: e.tag(),
        data: match e {
            EntryView::String { value, .. } => if valid_utf8(value) {
                UnknownDataView::String(decode_utf8(value))
            } else {
                UnknownDataView::StringBytes(value)
            },
            EntryView::Binary { data, .. } => UnknownDataView::Binary(data),
        },
    }
}

/// The capabilities with one decoded entry folded in. An entry that occurs
/// again replaces the one before it, but for `vcp`, `vdif` and the unknown
/// entries, which add up. The names of a `vcpname` entry are left for later.
pub open spec fn with_cap(acc: CapabilitiesView, cap: CapView) -> CapabilitiesView {
    match cap {
        CapView::Protocol(t) => CapabilitiesView { protocol: Some(protocol_named(t)), ..acc },
        CapView::Type(t) => CapabilitiesView { ty: Some(type_named(t)), ..acc },
        CapView::Model(t) => CapabilitiesView { model: Some(t), ..acc },
        CapView::Commands(c) => CapabilitiesView { commands: c, ..acc },
        CapView::Whql(w) => CapabilitiesView { ms_whql: Some(w), ..acc },
        CapView::MccsVersion(major, minor) => CapabilitiesView {
            mccs_version: Some(Version { major, minor }),
            ..acc
        },
        CapView::Vcp(list) => CapabilitiesView {
            vcp_features: with_features(acc.vcp_features, list),
            ..acc
        },
        CapView::VcpNames(_) => acc,
        CapView::Edid(d) => CapabilitiesView { edid: Some(d), ..acc },
        CapView::Vdif(d) => CapabilitiesView { vdif: acc.vdif.push(d), ..acc },
        CapView::Unknown(e) => CapabilitiesView {
            unknown_tags: acc.unknown_tags.push(unknown_tag(e)),
            ..acc
        },
    }
}

/// The capabilities with the decoded entries folded in, in order.
pub open spec fn with_caps(acc: CapabilitiesView, caps: Seq<CapView>) -> CapabilitiesView
    decreases caps.len(),
{
    if caps.len() == 0 {
        acc
    } else {
        with_cap(with_caps(acc, caps.drop_last()), caps.last())
    }
}

/// A list of values with `v` at its end, unless it holds `v` already.
pub open spec fn once(order: Seq<u8>, v: u8) -> Seq<u8> {
    if order.contains(v) {
        order
    } else {
        order.push(v)
    }
}

/// A list of values with those of `values` behind it in order, each that
/// it does not hold yet.
pub open spec fn values_in_order(order: Seq<u8>, values: Seq<VcpValueView>) -> Seq<u8>
    decreases values.len(),
{
    if values.len() == 0 {
        order
    } else {
        once(values_in_order(order, values.drop_last()), values.last().value)
    }
}

/// A list of values with those behind it that the items of `features` list
/// for the feature `code`, in order.
pub open spec fn feature_in_order(order: Seq<u8>, features: Seq<VcpView>, code: u8) -> Seq<u8>
    decreases features.len(),
{
    if features.len() == 0 {
        order
    } else {
        let before = feature_in_order(order, features.drop_last(), code);
        match features.last().values {
            Some(values) => if features.last().feature == code {
                values_in_order(before, values)
            } else {
                before
            },
            None => before,
        }
    }
}

/// The values of the feature `code` in the order in which the `vcp` entries
/// among `caps` list them. A value that is listed more than once stands
/// once, at the place where it is listed first. Where the feature is listed
/// more than once, in one `vcp` entry or in several, the values of a later
/// listing follow those of the earlier ones.
pub open spec fn listed_order(caps: Seq<CapView>, code: u8) -> Seq<u8>
    decreases caps.len(),
{
    if caps.len() == 0 {
        Seq::empty()
    } else {
        let before = listed_order(caps.drop_last(), code);
        match caps.last() {
            CapView::Vcp(features) => feature_in_order(before, features, code),
            _ => before,
        }
    }
}

/// The values of a feature with the first `n` names of `names` given to the
/// first `n` values of `order`, each name to the value at its place. A name
/// at the place of a value that the feature does not have is dropped.
pub open spec fn named_upto(
    values: Map<u8, Option<Seq<char>>>,
    order: Seq<u8>,
    names: Seq<Seq<char>>,
    n: nat,
) -> Map<u8, Option<Seq<char>>>
    decreases n,
{
    if n == 0 {
        values
    } else {
        let before = named_upto(values, order, names, (n - 1) as nat);
        if before.contains_key(order[n - 1]) {
            before.insert(order[n - 1], Some(names[n - 1]))
        } else {
            before
        }
    }
}

/// The values of a feature with the names of `names` given to them by
/// place, where `order` is the order in which the values are listed: the
/// first name to the value listed first, and so on. Values beyond the names
/// keep what they have; names beyond the values are dropped.
pub open spec fn named_values(
    values: Map<u8, Option<Seq<char>>>,
    order: Seq<u8>,
    names: Seq<Seq<char>>,
) -> Map<u8, Option<Seq<char>>> {
    named_upto(
        values,
        order,
        names,
        if order.len() <= names.len() {
            order.len()
        } else {
            names.len()
        },
    )
}

/// The features with the names of `n` applied: to a feature that is listed,
/// and to no other. The names of its values go to the values in the order
/// in which the entries of `listing` list them.
pub open spec fn with_name(
    m: Map<u8, DescriptorView>,
    n: VcpNameView,
    listing: Seq<CapView>,
) -> Map<u8, DescriptorView> {
    if m.contains_key(n.feature) {
        let d = m[n.feature];
        m.insert(
            n.feature,
            DescriptorView {
                name: if n.name is Some {
                    n.name
                } else {
                    d.name
                },
                values: match n.value_names {
                    Some(names) => named_values(d.values, listed_order(listing, n.feature), names),
                    None => d.values,
                },
            },
        )
    } else {
        m
    }
}

/// The features with the names of `list` applied in order.
pub open spec fn with_names(
    m: Map<u8, DescriptorView>,
    list: Seq<VcpNameView>,
    listing: Seq<CapView>,
) -> Map<u8, DescriptorView>
    decreases list.len(),
{
    if list.len() == 0 {
        m
    } else {
        with_name(with_names(m, list.drop_last(), listing), list.last(), listing)
    }
}

/// The features with the names of all `vcpname` entries among `caps`
/// applied, in the order of the entries; `listing` holds the entries that
/// list the values.
pub open spec fn with_all_names(
    m: Map<u8, DescriptorView>,
    caps: Seq<CapView>,
    listing: Seq<CapView>,
) -> Map<u8, DescriptorView>
    decreases caps.len(),
{
    if caps.len() == 0 {
        m
    } else {
        let before = with_all_names(m, caps.drop_last(), listing);
        match caps.last() {
            CapView::VcpNames(list) => with_names(before, list, listing),
            _ => before,
        }
    }
}

/// The capabilities that a list of decoded entries spells out. All entries
/// but the names are folded in first; the names are applied then, onto the
/// values as all the `vcp` entries list them, whatever the place of a
/// `vcpname` entry among them. Every listed value is a value of its
/// feature then (`laws::law_listed_values_are_the_values`), so that no name
/// with a place among them is dropped.
pub open spec fn aggregate(caps: Seq<CapView>) -> CapabilitiesView {
    let c = with_caps(no_capabilities(), caps);
    CapabilitiesView { vcp_features: with_all_names(c.vcp_features, caps, caps), ..c }
}

/// The capabilities that a capability string spells out, or the first
/// failure of an entry of it.
pub open spec fn capabilities_of(bytes: Seq<u8>) -> Result<CapabilitiesView, Failure> {
    match gathered_from(bytes, None, false) {
        Ok(caps) => Ok(aggregate(caps)),
        Err(f) => Err(f),
    }
}

/// Adds the values of `list` to those of a feature.
fn add_values(values: &mut ValueNames, list: &Vec<VcpValue>)
    ensures
        values_view(final(values)@) == listed(values_view(old(values)@), list.deep_view()),
{
    let ghost start = values_view(values@);
    let ghost all = list.deep_view();
    let mut k: usize = 0;
    while k < list.len()
        invariant
            k <= list@.len(),
            all == list.deep_view(),
            values_view(values@) == listed(start, all.take(k as int)),
        decreases list@.len() - k,
    {
        let ghost before = values@;
        values.insert(list[k].value, None);
        proof {
            assert(all.take(k + 1).drop_last() =~= all.take(k as int));
            assert(all.take(k + 1).last() == list@[k as int].deep_view());
            assert(values_view(values@) =~= values_view(before).insert(list@[k as int].value, None));
        }
        k = k + 1;
    }
    assert(all.take(k as int) =~= all);
}

/// Adds a feature and the values it lists.
fn add_feature(m: &mut BTreeMap<u8, VcpDescriptor>, f: &Vcp)
    ensures
        features_view(final(m)@) == with_feature(features_view(old(m)@), f.deep_view()),
{
    let ghost start = m@;
    let d = match m.remove(&f.feature) {
        Some(d) => d,
        None => VcpDescriptor::default(),
    };
    let mut values = d.values;
    if let Some(list) = &f.values {
        add_values(&mut values, list);
    }
    let full = VcpDescriptor { name: d.name, values };
    m.insert(f.feature, full);
    assert(features_view(m@) =~= features_view(start).insert(f.feature, full@));
}

/// Adds the features of `list` in order.
fn add_features(m: &mut BTreeMap<u8, VcpDescriptor>, list: &Vec<Vcp>)
    ensures
        features_view(final(m)@) == with_features(features_view(old(m)@), list.deep_view()),
{
    let ghost start = features_view(m@);
    let ghost all = list.deep_view();
    let mut k: usize = 0;
    while k < list.len()
        invariant
            k <= list@.len(),
            all == list.deep_view(),
            features_view(m@) == with_features(start, all.take(k as int)),
        decreases list@.len() - k,
    {
        add_feature(m, &list[k]);
        proof {
            assert(all.take(k + 1).drop_last() =~= all.take(k as int));
            assert(all.take(k + 1).last() == list@[k as int].deep_view());
        }
        k = k + 1;
    }
    assert(all.take(k as int) =~= all);
}

/// Keeps an entry that no grammar is known for.
pub fn unknown_tag_of(v: Value<'_>) -> (t: UnknownTag)
    ensures
        t@ == unknown_tag(v@),
{
    match v {
        Value::Binary { tag, data } => UnknownTag {
            name: tag.to_owned(),
            data: UnknownData::Binary(slice_to_vec(data)),
        },
        Value::String { tag, value } => match text(value) {
            Some(s) => UnknownTag { name: tag.to_owned(), data: UnknownData::String(s.to_owned()) },
            None => UnknownTag {
                name: tag.to_owned(),
                data: UnknownData::StringBytes(slice_to_vec(value)),
            },
        },
    }
}

/// The entry that an unknown tag was kept from: text goes back to the
/// bytes that encode it.
pub open spec fn kept_entry(t: UnknownTagView) -> EntryView {
    match t.data {
        UnknownDataView::Binary(data) => EntryView::Binary { tag: t.name, data },
        UnknownDataView::StringBytes(value) => EntryView::String { tag: t.name, value },
        UnknownDataView::String(value) => EntryView::String {
            tag: t.name,
            value: vstd::utf8::encode_utf8(value),
        },
    }
}

/// The entry that an unknown tag was kept from.
pub fn value_of(t: &UnknownTag) -> (v: Value<'_>)
    ensures
        v@ == kept_entry(t@),
{
    let tag = t.name.as_str();
    match &t.data {
        UnknownData::Binary(data) => Value::Binary { tag, data: data.as_slice() },
        UnknownData::StringBytes(value) => Value::String { tag, value: value.as_slice() },
        UnknownData::String(value) => Value::String { tag, value: value.as_str().as_bytes() },
    }
}

impl<'a> From<Value<'a>> for UnknownTag {
    /// Keeps an entry that no grammar is known for.
    fn from(v: Value<'a>) -> (t: Self)
        ensures
            t@ == unknown_tag(v@),
    {
        unknown_tag_of(v)
    }
}

impl<'a> vstd::std_specs::convert::FromSpecImpl<Value<'a>> for UnknownTag {
    open spec fn obeys_from_spec() -> bool {
        false
    }

    open spec fn from_spec(v: Value<'a>) -> Self {
        arbitrary()
    }
}

impl<'a> From<&'a UnknownTag> for Value<'a> {
    /// The entry that an unknown tag was kept from.
    fn from(t: &'a UnknownTag) -> (v: Self)
        ensures
            v@ == kept_entry(t@),
    {
        value_of(t)
    }
}

impl<'a> vstd::std_specs::convert::FromSpecImpl<&'a UnknownTag> for Value<'a> {
    open spec fn obeys_from_spec() -> bool {
        false
    }

    open spec fn from_spec(t: &'a UnknownTag) -> Self {
        arbitrary()
    }
}

/// Folds one decoded entry into the capabilities.
fn apply_cap(caps: &mut Capabilities, cap: &Cap<'_>)
    ensures
        final(caps)@ == with_cap(old(caps)@, cap.deep_view()),
{
    match cap {
        Cap::Protocol(s) => {
            caps.protocol = Some(Protocol::named(s));
        },
        Cap::Type(s) => {
            caps.ty = Some(Type::named(s));
        },
        Cap::Model(s) => {
            caps.model = Some((*s).to_owned());
        },
        Cap::Commands(c) => {
            caps.commands = slice_to_vec(c.as_slice());
        },
        Cap::Whql(w) => {
            caps.ms_whql = Some(*w);
        },
        Cap::MccsVersion(major, minor) => {
            caps.mccs_version = Some(Version::new(*major, *minor));
        },
        Cap::Vcp(list) => {
            let mut features = BTreeMap::new();
            std::mem::swap(&mut features, &mut caps.vcp_features);
            add_features(&mut features, list);
            caps.vcp_features = features;
        },
        Cap::VcpNames(_) => {},
        Cap::Edid(d) => {
            caps.edid = Some(slice_to_vec(d));
        },
        Cap::Vdif(d) => {
            let ghost before = caps@.vdif;
            caps.vdif.push(slice_to_vec(d));
            assert(caps@.vdif =~= before.push(d@));
        },
        Cap::Unknown(e) => {
            let ghost before = caps@.unknown_tags;
            caps.unknown_tags.push(unknown_tag_of(*e));
            assert(caps@.unknown_tags =~= before.push(unknown_tag(e@)));
        },
    }
}

/// A name as an owned text.
fn owned(name: &Cow<'_, str>) -> (s: String)
    ensures
        s@ == name@,
{
    match name {
        Cow::Borrowed(b) => (*b).to_owned(),
        Cow::Owned(o) => o.clone(),
    }
}

/// Tests whether a list of values holds `v`.
fn holds_value(order: &Vec<u8>, v: u8) -> (r: bool)
    ensures
        r == order@.contains(v),
{
    let mut k: usize = 0;
    while k < order.len()
        invariant
            k <= order@.len(),
            forall|j: int| 0 <= j < k ==> order@[j] != v,
        decreases order@.len() - k,
    {
        if order[k] == v {
            return true;
        }
        k = k + 1;
    }
    false
}

/// Puts the values of `values` behind a list, each that it does not hold
/// yet.
fn order_values(order: &mut Vec<u8>, values: &Vec<VcpValue>)
    ensures
        final(order)@ == values_in_order(old(order)@, values.deep_view()),
{
    let ghost start = order@;
    let ghost all = values.deep_view();
    let mut k: usize = 0;
    while k < values.len()
        invariant
            k <= values@.len(),
            all == values.deep_view(),
            order@ == values_in_order(start, all.take(k as int)),
        decreases values@.len() - k,
    {
        proof {
            assert(all.take(k + 1).drop_last() =~= all.take(k as int));
            assert(all.take(k + 1).last() == values@[k as int].deep_view());
        }
        let v = values[k].value;
        if !holds_value(order, v) {
            order.push(v);
        }
        k = k + 1;
    }
    assert(all.take(k as int) =~= all);
}

/// Puts behind a list the values that the items of `features` list for the
/// feature `code`.
fn order_features(order: &mut Vec<u8>, features: &Vec<Vcp>, code: u8)
    ensures
        final(order)@ == feature_in_order(old(order)@, features.deep_view(), code),
{
    let ghost start = order@;
    let ghost all = features.deep_view();
    let mut k: usize = 0;
    while k < features.len()
        invariant
            k <= features@.len(),
            all == features.deep_view(),
            order@ == feature_in_order(start, all.take(k as int), code),
        decreases features@.len() - k,
    {
        proof {
            assert(all.take(k + 1).drop_last() =~= all.take(k as int));
            assert(all.take(k + 1).last() == features@[k as int].deep_view());
        }
        if features[k].feature == code {
            if let Some(values) = &features[k].values {
                order_values(order, values);
            }
        }
        k = k + 1;
    }
    assert(all.take(k as int) =~= all);
}

/// Collects the values of the feature `code` in the order in which the
/// `vcp` entries among `caps` list them.
fn listed_order_of(caps: &Vec<Cap<'_>>, code: u8) -> (order: Vec<u8>)
    ensures
        order@ == listed_order(caps.deep_view(), code),
{
    let ghost all = caps.deep_view();
    let mut order: Vec<u8> = Vec::new();
    let mut k: usize = 0;
    assert(all.take(0) =~= Seq::empty());
    while k < caps.len()
        invariant
            k <= caps@.len(),
            all == caps.deep_view(),
            order@ == listed_order(all.take(k as int), code),
        decreases caps@.len() - k,
    {
        proof {
            assert(all.take(k + 1).drop_last() =~= all.take(k as int));
            assert(all.take(k + 1).last() == caps@[k as int].deep_view());
        }
        match &caps[k] {
            Cap::Vcp(features) => {
                order_features(&mut order, features, code);
            },
            _ => {},
        }
        k = k + 1;
    }
    assert(all.take(k as int) =~= all);
    order
}

/// Gives the names of `names` to the values of a feature, by their place
/// in `order`.
fn name_values(values: &mut ValueNames, order: &Vec<u8>, names: &Vec<Cow<'_, str>>)
    ensures
        values_view(final(values)@) == named_values(
            values_view(old(values)@),
            order@,
            names.deep_view(),
        ),
{
    let ghost start = values_view(values@);
    let ghost all = names.deep_view();
    let count = if order.len() <= names.len() {
        order.len()
    } else {
        names.len()
    };
    let mut k: usize = 0;
    while k < count
        invariant
            k <= count,
            count <= order@.len(),
            count <= names@.len(),
            all == names.deep_view(),
            values_view(values@) == named_upto(start, order@, all, k as nat),
        decreases count - k,
    {
        let ghost before = values@;
        if values.contains_key(&order[k]) {
            let name = owned(&names[k]);
            values.insert(order[k], Some(name));
            assert(values_view(values@) =~= values_view(before).insert(
                order@[k as int],
                Some(name@),
            ));
            assert(all[k as int] == names@[k as int]@);
        }
        k = k + 1;
    }
}

/// Applies the names of `n` to its feature, if the feature is listed.
fn apply_name(m: &mut BTreeMap<u8, VcpDescriptor>, n: &VcpName<'_>, listing: &Vec<Cap<'_>>)
    ensures
        features_view(final(m)@) == with_name(
            features_view(old(m)@),
            n.deep_view(),
            listing.deep_view(),
        ),
{
    let ghost start = m@;
    match m.remove(&n.feature) {
        None => {
            assert(m@ =~= start);
        },
        Some(d) => {
            let name = match &n.name {
                Some(name) => Some(owned(name)),
                None => d.name,
            };
            let mut values = d.values;
            if let Some(names) = &n.value_names {
                let order = listed_order_of(listing, n.feature);
                name_values(&mut values, &order, names);
            }
            let full = VcpDescriptor { name, values };
            m.insert(n.feature, full);
            assert(features_view(m@) =~= features_view(start).insert(n.feature, full@));
        },
    }
}

/// Applies the names of `list` in order.
fn apply_names(
    m: &mut BTreeMap<u8, VcpDescriptor>,
    list: &Vec<VcpName<'_>>,
    listing: &Vec<Cap<'_>>,
)
    ensures
        features_view(final(m)@) == with_names(
            features_view(old(m)@),
            list.deep_view(),
            listing.deep_view(),
        ),
{
    let ghost start = features_view(m@);
    let ghost all = list.deep_view();
    let mut k: usize = 0;
    while k < list.len()
        invariant
            k <= list@.len(),
            all == list.deep_view(),
            features_view(m@) == with_names(start, all.take(k as int), listing.deep_view()),
        decreases list@.len() - k,
    {
        apply_name(m, &list[k], listing);
        proof {
            assert(all.take(k + 1).drop_last() =~= all.take(k as int));
            assert(all.take(k + 1).last() == list@[k as int].deep_view());
        }
        k = k + 1;
    }
    assert(all.take(k as int) =~= all);
}

/// Reads the capabilities that a capability string spells out. The first
/// entry that fails, in the tokenizer or in its own grammar, fails the
/// whole.
pub fn parse_capabilities<'i>(capability_string: &'i [u8]) -> (r: Result<
    Capabilities,
    ParseError<'i>,
>)
    ensures
        match capabilities_of(capability_string@) {
            Ok(c) => r matches Ok(v) && v@ == c,
            Err(f) => r matches Err(e) && e@ == f,
        },
{
    let list = match crate::parse::parse_capabilities(capability_string) {
        Ok(list) => list,
        Err(e) => {
            return Err(e);
        },
    };
    let ghost all = list.deep_view();
    let mut caps = Capabilities::default();
    let mut k: usize = 0;
    assert(all.take(0) =~= Seq::empty());
    while k < list.len()
        invariant
            k <= list@.len(),
            all == list.deep_view(),
            caps@ == with_caps(no_capabilities(), all.take(k as int)),
        decreases list@.len() - k,
    {
        apply_cap(&mut caps, &list[k]);
        proof {
            assert(all.take(k + 1).drop_last() =~= all.take(k as int));
            assert(all.take(k + 1).last() == list@[k as int].deep_view());
        }
        k = k + 1;
    }
    assert(all.take(k as int) =~= all);
    let ghost folded = caps@;
    let mut features = BTreeMap::new();
    std::mem::swap(&mut features, &mut caps.vcp_features);
    let mut j: usize = 0;
    assert(all.take(0) =~= Seq::empty());
    while j < list.len()
        invariant
            j <= list@.len(),
            all == list.deep_view(),
            features_view(features@) == with_all_names(
                folded.vcp_features,
                all.take(j as int),
                all,
            ),
        decreases list@.len() - j,
    {
        proof {
            assert(all.take(j + 1).drop_last() =~= all.take(j as int));
            assert(all.take(j + 1).last() == list@[j as int].deep_view());
        }
        match &list[j] {
            Cap::VcpNames(names) => {
                apply_names(&mut features, names, &list);
            },
            _ => {},
        }
        j = j + 1;
    }
    assert(all.take(j as int) =~= all);
    caps.vcp_features = features;
    Ok(caps)
}

} // verus!
