//! What the VCP feature codes mean: the descriptors of a database of
//! features, and how the raw values of a feature are read.

use crate::format::{decimal_digits, push_decimal};
use crate::model::{values_view, Capabilities, Value, ValueNames};
use std::collections::BTreeMap;
use vstd::prelude::*;

verus! {

/// How the raw value of a table is read.
#[derive(Debug, Copy, Clone, PartialEq, Eq, PartialOrd, Ord, Hash, Structural)]
pub enum TableInterpretation {
    /// Generic unparsed data.
    Generic,
    /// The first byte is the code page, where `0x00` is the default.
    CodePage,
}

impl Default for TableInterpretation {
    fn default() -> (t: Self)
        ensures
            t == TableInterpretation::Generic,
    {
        TableInterpretation::Generic
    }
}

/// The bytes of `table` from the second on, each in decimal with `, ` in
/// front of it.
pub open spec fn more_bytes(table: Seq<u8>) -> Seq<char>
    decreases table.len(),
{
    if table.len() <= 1 {
        Seq::empty()
    } else {
        more_bytes(table.drop_last()) + seq![',', ' '] + decimal_digits(table.last() as nat)
    }
}

/// A table as a list of its bytes in decimal: `[1, 2, 3]`.
pub open spec fn byte_list(table: Seq<u8>) -> Seq<char> {
    if table.len() == 0 {
        seq!['[', ']']
    } else {
        seq!['['] + decimal_digits(table[0] as nat) + more_bytes(table) + seq![']']
    }
}

/// What a table reads as under an interpretation: the list of its bytes, or
/// its code page, which a table without bytes does not have.
pub open spec fn table_text(t: TableInterpretation, table: Seq<u8>) -> Option<Seq<char>> {
    match t {
        TableInterpretation::Generic => Some(byte_list(table)),
        TableInterpretation::CodePage => if table.len() > 0 {
            Some(decimal_digits(table[0] as nat))
        } else {
            None
        },
    }
}

impl TableInterpretation {
    /// Formats a table for user display. This fails where the table has not
    /// the bytes that the interpretation needs.
    pub fn format(&self, table: &[u8]) -> (r: Result<String, ()>)
        ensures
            match table_text(*self, table@) {
                Some(t) => r matches Ok(s) && s@ == t,
                None => r is Err,
            },
    {
        let mut out = String::new();
        match *self {
            TableInterpretation::Generic => {
                out.push('[');
                if table.len() > 0 {
                    push_decimal(&mut out, table[0] as usize);
                    let ghost head = out@;
                    let mut k: usize = 1;
                    assert(table@.take(1).len() <= 1);
                    assert(head + more_bytes(table@.take(1)) =~= head);
                    while k < table.len()
                        invariant
                            1 <= k <= table@.len(),
                            out@ == head + more_bytes(table@.take(k as int)),
                        decreases table@.len() - k,
                    {
                        out.push(',');
                        out.push(' ');
                        push_decimal(&mut out, table[k] as usize);
                        proof {
                            assert(table@.take(k + 1).drop_last() =~= table@.take(k as int));
                            assert(table@.take(k + 1).last() == table@[k as int]);
                            assert(out@ =~= head + more_bytes(table@.take(k + 1)));
                        }
                        k = k + 1;
                    }
                    assert(table@.take(k as int) =~= table@);
                }
                out.push(']');
                assert(out@ =~= byte_list(table@));
                Ok(out)
            },
            TableInterpretation::CodePage => {
                if table.len() > 0 {
                    push_decimal(&mut out, table[0] as usize);
                    assert(out@ =~= decimal_digits(table@[0] as nat));
                    Ok(out)
                } else {
                    Err(())
                }
            },
        }
    }
}

/// How the raw value of a feature is read.
#[derive(Debug, Copy, Clone, PartialEq, Eq, PartialOrd, Ord, Hash, Structural)]
pub enum ValueInterpretation {
    /// Generic unparsed data.
    Continuous,
    /// Generic unparsed data.
    NonContinuous,
    /// Must be set to a non-zero value in order to run the operation.
    NonZeroWrite,
    /// The MCCS version is returned in `mh` (major version) and `ml`
    /// (minor version).
    VcpVersion,
}

/// What a value reads as under an interpretation.
pub open spec fn value_text(i: ValueInterpretation, v: Value) -> Seq<char> {
    match i {
        ValueInterpretation::Continuous => decimal_digits(crate::model::word(v.sh, v.sl) as nat)
            + seq![' ', '/', ' '] + decimal_digits(crate::model::word(v.mh, v.ml) as nat),
        ValueInterpretation::NonContinuous => decimal_digits(
            crate::model::word(v.sh, v.sl) as nat,
        ),
        ValueInterpretation::NonZeroWrite => if v.sl == 0 {
            seq!['u', 'n', 's', 'e', 't']
        } else {
            seq!['s', 'e', 't']
        },
        ValueInterpretation::VcpVersion => decimal_digits(v.mh as nat) + seq!['.'] + decimal_digits(
            v.ml as nat,
        ),
    }
}

impl ValueInterpretation {
    /// Formats a value for user display.
    pub fn format(&self, value: &Value) -> (out: String)
        ensures
            out@ == value_text(*self, *value),
    {
        let mut out = String::new();
        match *self {
            ValueInterpretation::Continuous => {
                push_decimal(&mut out, value.value() as usize);
                out.push(' ');
                out.push('/');
                out.push(' ');
                push_decimal(&mut out, value.maximum() as usize);
            },
            ValueInterpretation::NonContinuous => {
                push_decimal(&mut out, value.value() as usize);
            },
            ValueInterpretation::NonZeroWrite => {
                if value.sl == 0 {
                    out.push('u');
                    out.push('n');
                }
                out.push('s');
                out.push('e');
                out.push('t');
            },
            ValueInterpretation::VcpVersion => {
                push_decimal(&mut out, value.mh as usize);
                out.push('.');
                push_decimal(&mut out, value.ml as usize);
            },
        }
        assert(out@ =~= value_text(*self, *value));
        out
    }
}

/// The type of a VCP value and how to interpret it.
#[derive(Debug, Clone, PartialEq, Eq, PartialOrd, Ord, Hash)]
#[allow(inconsistent_fields)]
pub enum ValueType {
    /// The type of the data is not known.
    Unknown,
    /// The data is a continuous value.
    Continuous {
        /// How to interpret the continuous value.
        interpretation: ValueInterpretation,
    },
    /// The data is a non-continuous value.
    NonContinuous {
        /// The values allowed or supported to be set, and their names.
        values: ValueNames,
        /// How to interpret the non-continuous value.
        interpretation: ValueInterpretation,
    },
    /// The data is a table (byte array).
    Table {
        /// How to interpret the table.
        interpretation: TableInterpretation,
    },
}

/// A `ValueType` as plain values.
#[allow(inconsistent_fields)]
pub enum ValueTypeModel {
    Unknown,
    Continuous { interpretation: ValueInterpretation },
    NonContinuous { values: Map<u8, Option<Seq<char>>>, interpretation: ValueInterpretation },
    Table { interpretation: TableInterpretation },
}

impl View for ValueType {
    type V = ValueTypeModel;

    open spec fn view(&self) -> ValueTypeModel {
        match self {
            ValueType::Unknown => ValueTypeModel::Unknown,
            ValueType::Continuous { interpretation } => ValueTypeModel::Continuous {
                interpretation: *interpretation,
            },
            ValueType::NonContinuous { values, interpretation } => ValueTypeModel::NonContinuous {
                values: values_view(values@),
                interpretation: *interpretation,
            },
            ValueType::Table { interpretation } => ValueTypeModel::Table {
                interpretation: *interpretation,
            },
        }
    }
}

impl Default for ValueType {
    fn default() -> (t: Self)
        ensures
            t@ == ValueTypeModel::Unknown,
    {
        ValueType::Unknown
    }
}

/// The operations allowed on a VCP feature code.
#[derive(Debug, Copy, Clone, PartialEq, Eq, PartialOrd, Ord, Hash, Structural)]
pub enum Access {
    /// The value can only be read from.
    ReadOnly,
    /// The value can only be written to.
    WriteOnly,
    /// The value can be read and written.
    ReadWrite,
}

impl Default for Access {
    fn default() -> (a: Self)
        ensures
            a == Access::ReadWrite,
    {
        Access::ReadWrite
    }
}

/// What a VCP feature code does and how its values are written.
#[derive(Debug, Clone)]
pub struct Descriptor {
    /// The name of the feature.
    pub name: Option<String>,
    /// A detailed description of the feature.
    pub description: Option<String>,
    /// The MCCS grouping this feature belongs to.
    pub group: Option<String>,
    /// The VCP code of the feature.
    pub code: u8,
    /// The data type of the feature.
    pub ty: ValueType,
    /// Whether the feature can be set, read, or both.
    pub access: Access,
    /// Whether the MCCS specification requires a display to support the
    /// feature.
    pub mandatory: bool,
    /// The feature codes whose values may change with the value of this
    /// one.
    pub interacts_with: Vec<u8>,
}

/// A `Descriptor` as plain values.
pub struct DescriptorModel {
    pub name: Option<Seq<char>>,
    pub description: Option<Seq<char>>,
    pub group: Option<Seq<char>>,
    pub code: u8,
    pub ty: ValueTypeModel,
    pub access: Access,
    pub mandatory: bool,
    pub interacts_with: Seq<u8>,
}

impl View for Descriptor {
    type V = DescriptorModel;

    open spec fn view(&self) -> DescriptorModel {
        DescriptorModel {
            name: crate::model::opt_text(self.name),
            description: crate::model::opt_text(self.description),
            group: crate::model::opt_text(self.group),
            code: self.code,
            ty: self.ty@,
            access: self.access,
            mandatory: self.mandatory,
            interacts_with: self.interacts_with@,
        }
    }
}

/// The descriptor of a feature that nothing is known of.
pub open spec fn blank_record() -> DescriptorModel {
    DescriptorModel {
        name: None,
        description: None,
        group: None,
        code: 0,
        ty: ValueTypeModel::Unknown,
        access: Access::ReadWrite,
        mandatory: false,
        interacts_with: Seq::empty(),
    }
}

impl Default for Descriptor {
    fn default() -> (d: Self)
        ensures
            d@ == blank_record(),
    {
        Descriptor {
            name: None,
            description: None,
            group: None,
            code: 0,
            ty: ValueType::Unknown,
            access: Access::ReadWrite,
            mandatory: false,
            interacts_with: Vec::new(),
        }
    }
}

/// The descriptors by feature code, as plain values.
pub open spec fn records_view(m: Map<u8, Descriptor>) -> Map<u8, DescriptorModel> {
    Map::new(|k: u8| m.contains_key(k), |k: u8| m[k]@)
}

/// The values that a display lists for a feature, each with the name that
/// the display gives it, or else the name that the database has for it.
pub open spec fn supported_values(
    known: Map<u8, Option<Seq<char>>>,
    listed: Map<u8, Option<Seq<char>>>,
) -> Map<u8, Option<Seq<char>>> {
    Map::new(
        |k: u8| listed.contains_key(k),
        |k: u8|
            if listed[k] is Some {
                listed[k]
            } else if known.contains_key(k) {
                known[k]
            } else {
                None
            },
    )
}

/// The descriptor of a feature that a display supports: with the name that
/// the display gives the feature, if it gives one, and, for a non-continuous
/// feature, with the values that the display lists and no others.
pub open spec fn supported(d: DescriptorModel, vcp: crate::model::DescriptorView) -> DescriptorModel {
    DescriptorModel {
        name: if vcp.name is Some {
            vcp.name
        } else {
            d.name
        },
        ty: match d.ty {
            ValueTypeModel::NonContinuous { values, interpretation } => ValueTypeModel::NonContinuous {
                values: supported_values(values, vcp.values),
                interpretation,
            },
            other => other,
        },
        ..d
    }
}

/// The database cut down to what a display supports: the features that its
/// capabilities list, each as `supported` has it.
pub open spec fn filtered(
    m: Map<u8, DescriptorModel>,
    features: Map<u8, crate::model::DescriptorView>,
) -> Map<u8, DescriptorModel> {
    Map::new(
        |k: u8| m.contains_key(k) && features.contains_key(k),
        |k: u8| supported(m[k], features[k]),
    )
}

/// All the VCP feature codes that an MCCS specification or a display
/// supports, each with its descriptor.
#[derive(Debug, Clone)]
pub struct Database {
    entries: BTreeMap<u8, Descriptor>,
}

impl View for Database {
    type V = Map<u8, DescriptorModel>;

    closed spec fn view(&self) -> Map<u8, DescriptorModel> {
        records_view(self.entries@)
    }
}

impl Default for Database {
    fn default() -> (d: Self)
        ensures
            d@ == Map::<u8, DescriptorModel>::empty(),
    {
        let d = Database { entries: BTreeMap::new() };
        assert(d@ =~= Map::empty());
        d
    }
}

/// A name as an owned copy.
fn copied(name: &Option<String>) -> (r: Option<String>)
    ensures
        crate::model::opt_text(r) == crate::model::opt_text(*name),
{
    match name {
        Some(s) => Some(s.clone()),
        None => None,
    }
}

/// Cuts the values of a feature down to those that a display lists.
fn supported_names(known: &ValueNames, listed: &ValueNames) -> (out: ValueNames)
    ensures
        values_view(out@) == supported_values(values_view(known@), values_view(listed@)),
{
    let mut out: ValueNames = BTreeMap::new();
    let mut k: u8 = 0;
    loop
        invariant_except_break
            forall|key: u8| #[trigger]
                values_view(out@).contains_key(key) <==> key < k && listed@.contains_key(key),
            forall|key: u8| #[trigger]
                values_view(out@).contains_key(key) ==> values_view(out@)[key] == supported_values(
                    values_view(known@),
                    values_view(listed@),
                )[key],
        ensures
            values_view(out@) == supported_values(values_view(known@), values_view(listed@)),
        decreases 256 - k,
    {
        let ghost before = out@;
        match listed.get(&k) {
            None => {},
            Some(name) => {
                let name = match name {
                    Some(s) => Some(s.clone()),
                    None => match known.get(&k) {
                        Some(n) => copied(n),
                        None => None,
                    },
                };
                out.insert(k, name);
                assert(values_view(out@) =~= values_view(before).insert(
                    k,
                    crate::model::opt_text(name),
                ));
            },
        }
        if k == 255 {
            assert(values_view(out@) =~= supported_values(
                values_view(known@),
                values_view(listed@),
            ));
            break ;
        }
        k = k + 1;
    }
    out
}

impl Database {
    /// A database that holds the given descriptors.
    pub(crate) fn from_entries(entries: BTreeMap<u8, Descriptor>) -> (d: Self)
        ensures
            d@ == records_view(entries@),
    {
        Database { entries }
    }

    /// The descriptors of the database.
    pub(crate) fn into_entries(self) -> (entries: BTreeMap<u8, Descriptor>)
        ensures
            records_view(entries@) == self@,
    {
        self.entries
    }

    /// Filters out the feature codes and the values that the display does
    /// not support.
    pub fn apply_capabilities(&mut self, caps: &Capabilities)
        ensures
            final(self)@ == filtered(old(self)@, caps@.vcp_features),
    {
        let mut kept: BTreeMap<u8, Descriptor> = BTreeMap::new();
        let ghost start = self@;
        let ghost features = caps@.vcp_features;
        let mut k: u8 = 0;
        loop
            invariant_except_break
                start == records_view(self.entries@),
                features == caps@.vcp_features,
                forall|key: u8| #[trigger]
                    records_view(kept@).contains_key(key) <==> key < k && start.contains_key(key)
                        && features.contains_key(key),
                forall|key: u8| #[trigger]
                    records_view(kept@).contains_key(key) ==> records_view(kept@)[key]
                        == supported(start[key], features[key]),
            ensures
                records_view(kept@) == filtered(start, features),
            decreases 256 - k,
        {
            let ghost before = kept@;
            if let Some(desc) = self.entries.get(&k) {
                if let Some(vcp) = caps.vcp_features.get(&k) {
                    let name = match &vcp.name {
                        Some(n) => Some(n.clone()),
                        None => copied(&desc.name),
                    };
                    let ty = match &desc.ty {
                        ValueType::NonContinuous { values, interpretation } => {
                            ValueType::NonContinuous {
                                values: supported_names(values, &vcp.values),
                                interpretation: *interpretation,
                            }
                        },
                        ValueType::Unknown => ValueType::Unknown,
                        ValueType::Continuous { interpretation } => ValueType::Continuous {
                            interpretation: *interpretation,
                        },
                        ValueType::Table { interpretation } => ValueType::Table {
                            interpretation: *interpretation,
                        },
                    };
                    let full = Descriptor {
                        name,
                        description: copied(&desc.description),
                        group: copied(&desc.group),
                        code: desc.code,
                        ty,
                        access: desc.access,
                        mandatory: desc.mandatory,
                        interacts_with: vstd::slice::slice_to_vec(desc.interacts_with.as_slice()),
                    };
                    kept.insert(k, full);
                    assert(records_view(kept@) =~= records_view(before).insert(k, full@));
                }
            }
            if k == 255 {
                assert(records_view(kept@) =~= filtered(start, features));
                break ;
            }
            k = k + 1;
        }
        self.entries = kept;
    }

    /// The descriptor of a VCP feature code.
    pub fn get(&self, code: u8) -> (r: Option<&Descriptor>)
        ensures
            r is Some <==> self@.contains_key(code),
            r matches Some(d) ==> d@ == self@[code],
    {
        self.entries.get(&code)
    }
}

} // verus!
