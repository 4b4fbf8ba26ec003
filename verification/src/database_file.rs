//! A database of features as it is written down: groups and feature
//! records, each record for the versions of the specification that its
//! requirement admits. Applying the records of one version to a database
//! gives the descriptors of that version.

use crate::db::{
    blank_record, records_view, Access, Database, Descriptor, DescriptorModel,
    TableInterpretation, ValueInterpretation, ValueType, ValueTypeModel,
};
use crate::lex::same_text;
use crate::model::{opt_text, values_view, ValueNames, Version};
use crate::version_req::{holds, Req};
use std::collections::BTreeMap;
use vstd::prelude::*;

verus! {

/// A group of features.
#[derive(Debug, Clone)]
pub struct DatabaseGroup {
    pub id: String,
    pub name: String,
}

/// A `DatabaseGroup` as plain values.
pub struct GroupView {
    pub id: Seq<char>,
    pub name: Seq<char>,
}

impl View for DatabaseGroup {
    type V = GroupView;

    open spec fn view(&self) -> GroupView {
        GroupView { id: self.id@, name: self.name@ }
    }
}

/// The type of a feature's value.
#[derive(Debug, Clone, Copy, PartialEq, Eq, Structural)]
pub enum DatabaseType {
    Table,
    NonContinuous,
    Continuous,
}

/// Whether a feature can be read and written.
#[derive(Debug, Clone, Copy, PartialEq, Eq, Structural)]
pub enum DatabaseReadWrite {
    ReadOnly,
    WriteOnly,
    ReadWrite,
}

/// A value of a feature: one byte, or a range, which is kept as written.
#[derive(Debug, Clone)]
pub enum DatabaseValue {
    Value(u8),
    Range(String),
}

/// A value of a feature with its name.
#[derive(Debug, Clone)]
pub struct DatabaseValueDesc {
    pub value: DatabaseValue,
    pub name: String,
    pub desc: Option<String>,
    pub desc_long: Option<String>,
}

/// What is read of a `DatabaseValueDesc`: the byte, if it is one, and the
/// name.
pub struct ValueDescView {
    pub value: Option<u8>,
    pub name: Seq<char>,
}

impl View for DatabaseValueDesc {
    type V = ValueDescView;

    open spec fn view(&self) -> ValueDescView {
        ValueDescView {
            value: match self.value {
                DatabaseValue::Value(v) => Some(v),
                DatabaseValue::Range(_) => None,
            },
            name: self.name@,
        }
    }
}

/// The interpretations that a record can name.
#[derive(Debug, Clone, Copy, PartialEq, Eq, Structural)]
pub enum DatabaseInterpretationId {
    CodePage,
    NonZeroWrite,
    VcpVersion,
}

/// How the values of a feature are read: by a named interpretation, or as
/// the listed values.
#[derive(Debug, Clone)]
pub enum DatabaseInterpretation {
    Id(DatabaseInterpretationId),
    Values(Vec<DatabaseValueDesc>),
}

/// A `DatabaseInterpretation` as plain values.
pub enum InterpretationView {
    Id(DatabaseInterpretationId),
    Values(Seq<ValueDescView>),
}

impl View for DatabaseInterpretation {
    type V = InterpretationView;

    open spec fn view(&self) -> InterpretationView {
        match self {
            DatabaseInterpretation::Id(id) => InterpretationView::Id(*id),
            DatabaseInterpretation::Values(v) => InterpretationView::Values(
                Seq::new(v@.len(), |k: int| v@[k]@),
            ),
        }
    }
}

/// The record of a feature, for the versions that `version` admits.
#[derive(Debug, Clone)]
pub struct DatabaseFeature {
    pub code: u8,
    pub version: Req<Version>,
    pub name: Option<String>,
    pub desc: Option<String>,
    pub group: Option<String>,
    pub ty: Option<DatabaseType>,
    pub interpretation: Option<DatabaseInterpretation>,
    pub mandatory: bool,
    pub access: Option<DatabaseReadWrite>,
    pub desc_long: Option<String>,
    pub interacts_with: Vec<u8>,
}

/// What is read of a `DatabaseFeature`, as plain values.
pub struct FeatureView {
    pub code: u8,
    pub version: Req<Version>,
    pub name: Option<Seq<char>>,
    pub desc: Option<Seq<char>>,
    pub group: Option<Seq<char>>,
    pub ty: Option<DatabaseType>,
    pub interpretation: Option<InterpretationView>,
    pub mandatory: bool,
    pub access: Option<DatabaseReadWrite>,
    pub interacts_with: Seq<u8>,
}

impl View for DatabaseFeature {
    type V = FeatureView;

    open spec fn view(&self) -> FeatureView {
        FeatureView {
            code: self.code,
            version: self.version,
            name: opt_text(self.name),
            desc: opt_text(self.desc),
            group: opt_text(self.group),
            ty: self.ty,
            interpretation: match self.interpretation {
                Some(i) => Some(i@),
                None => None,
            },
            mandatory: self.mandatory,
            access: self.access,
            interacts_with: self.interacts_with@,
        }
    }
}

/// A database of features as it is written down.
#[derive(Debug, Clone)]
pub struct DatabaseFile {
    pub groups: Vec<DatabaseGroup>,
    pub vcp_features: Vec<DatabaseFeature>,
}

/// The groups of a file as plain values.
pub open spec fn groups_view(groups: Seq<DatabaseGroup>) -> Seq<GroupView> {
    Seq::new(groups.len(), |k: int| groups[k]@)
}

/// The records of a file as plain values.
pub open spec fn features_view(features: Seq<DatabaseFeature>) -> Seq<FeatureView> {
    Seq::new(features.len(), |k: int| features[k]@)
}

/// Why a record cannot be applied.
#[derive(Debug, Clone, Copy, PartialEq, Eq, Structural)]
pub enum DatabaseError {
    /// A table lists names of values.
    TableWithValueNames,
    /// A table names an interpretation that is not one of tables.
    InvalidTableInterpretation(DatabaseInterpretationId),
    /// A non-continuous value names an interpretation that is not one of
    /// such values.
    InvalidNonContinuousInterpretation(DatabaseInterpretationId),
}

/// The name of the first group with the given id.
pub open spec fn group_name(groups: Seq<GroupView>, id: Seq<char>) -> Option<Seq<char>>
    decreases groups.len(),
{
    if groups.len() == 0 {
        None
    } else if groups[0].id == id {
        Some(groups[0].name)
    } else {
        group_name(groups.drop_first(), id)
    }
}

/// The values that a record lists, with their names: the bytes among them,
/// a later one in place of an earlier one of the same value. Ranges are
/// left out.
pub open spec fn named_in(values: Seq<ValueDescView>) -> Map<u8, Option<Seq<char>>>
    decreases values.len(),
{
    if values.len() == 0 {
        Map::empty()
    } else {
        let before = named_in(values.drop_last());
        match values.last().value {
            Some(v) => before.insert(v, Some(values.last().name)),
            None => before,
        }
    }
}

/// The type of value that a record describes, or why it describes none.
pub open spec fn value_type(ty: DatabaseType, interpretation: Option<InterpretationView>) -> Result<
    ValueTypeModel,
    DatabaseError,
> {
    match ty {
        DatabaseType::Table => match interpretation {
            None => Ok(ValueTypeModel::Table { interpretation: TableInterpretation::Generic }),
            Some(InterpretationView::Values(_)) => Err(DatabaseError::TableWithValueNames),
            Some(InterpretationView::Id(id)) => match id {
                DatabaseInterpretationId::CodePage => Ok(
                    ValueTypeModel::Table { interpretation: TableInterpretation::CodePage },
                ),
                _ => Err(DatabaseError::InvalidTableInterpretation(id)),
            },
        },
        DatabaseType::Continuous => Ok(
            ValueTypeModel::Continuous { interpretation: ValueInterpretation::Continuous },
        ),
        DatabaseType::NonContinuous => match interpretation {
            None => Ok(
                ValueTypeModel::NonContinuous {
                    values: Map::empty(),
                    interpretation: ValueInterpretation::NonContinuous,
                },
            ),
            Some(InterpretationView::Values(values)) => Ok(
                ValueTypeModel::NonContinuous {
                    values: named_in(values),
                    interpretation: ValueInterpretation::NonContinuous,
                },
            ),
            Some(InterpretationView::Id(id)) => match id {
                DatabaseInterpretationId::NonZeroWrite => Ok(
                    ValueTypeModel::NonContinuous {
                        values: Map::empty(),
                        interpretation: ValueInterpretation::NonZeroWrite,
                    },
                ),
                DatabaseInterpretationId::VcpVersion => Ok(
                    ValueTypeModel::NonContinuous {
                        values: Map::empty(),
                        interpretation: ValueInterpretation::VcpVersion,
                    },
                ),
                _ => Err(DatabaseError::InvalidNonContinuousInterpretation(id)),
            },
        },
    }
}

/// The access that a record grants.
pub open spec fn access_of(a: DatabaseReadWrite) -> Access {
    match a {
        DatabaseReadWrite::ReadOnly => Access::ReadOnly,
        DatabaseReadWrite::WriteOnly => Access::WriteOnly,
        DatabaseReadWrite::ReadWrite => Access::ReadWrite,
    }
}

/// A descriptor with a record applied, where `ty` is the type of value
/// that results: what the record says replaces what the descriptor had;
/// what it leaves out stays. The feature is mandatory where any record says
/// so, and interacts with all the features that any record names. A group
/// that the file does not list leaves the feature without a group.
pub open spec fn merged(
    d: DescriptorModel,
    f: FeatureView,
    ty: ValueTypeModel,
    groups: Seq<GroupView>,
) -> DescriptorModel {
    DescriptorModel {
        name: if f.name is Some {
            f.name
        } else {
            d.name
        },
        description: if f.desc is Some {
            f.desc
        } else {
            d.description
        },
        group: match f.group {
            Some(id) => group_name(groups, id),
            None => d.group,
        },
        code: f.code,
        ty,
        access: match f.access {
            Some(a) => access_of(a),
            None => d.access,
        },
        mandatory: d.mandatory || f.mandatory,
        interacts_with: d.interacts_with + f.interacts_with,
    }
}

/// The type of value that a record gives a feature: the one it describes,
/// if it names a type, and why it describes none where it does not fit.
pub open spec fn record_type(f: FeatureView) -> Result<Option<ValueTypeModel>, DatabaseError> {
    match f.ty {
        Some(t) => match value_type(t, f.interpretation) {
            Ok(ty) => Ok(Some(ty)),
            Err(e) => Err(e),
        },
        None => Ok(None),
    }
}

/// A descriptor with a record applied, or why the record cannot be applied.
pub open spec fn with_record(d: DescriptorModel, f: FeatureView, groups: Seq<GroupView>) -> Result<
    DescriptorModel,
    DatabaseError,
> {
    match record_type(f) {
        Err(e) => Err(e),
        Ok(Some(ty)) => Ok(merged(d, f, ty, groups)),
        Ok(None) => Ok(merged(d, f, d.ty, groups)),
    }
}

/// The descriptors with the records of a file applied in order, for one
/// version: a record whose requirement the version does not meet is passed
/// over. The first record that cannot be applied ends it: the descriptors
/// are then as the records before it left them, and the failure is given.
pub open spec fn applied(
    m: Map<u8, DescriptorModel>,
    features: Seq<FeatureView>,
    groups: Seq<GroupView>,
    version: Version,
) -> (Map<u8, DescriptorModel>, Option<DatabaseError>)
    decreases features.len(),
{
    if features.len() == 0 {
        (m, None)
    } else {
        let (before, failed) = applied(m, features.drop_last(), groups, version);
        let f = features.last();
        let d = if before.contains_key(f.code) {
            before[f.code]
        } else {
            blank_record()
        };
        if failed is Some || !holds(f.version, version) {
            (before, failed)
        } else {
            match with_record(d, f, groups) {
                Ok(n) => (before.insert(f.code, n), None),
                Err(e) => (before, Some(e)),
            }
        }
    }
}

/// A failure among the first records is the failure of them all.
pub proof fn lemma_applied_failure(
    m: Map<u8, DescriptorModel>,
    features: Seq<FeatureView>,
    groups: Seq<GroupView>,
    version: Version,
    k: int,
)
    requires
        0 <= k <= features.len(),
        applied(m, features.take(k), groups, version).1 is Some,
    ensures
        applied(m, features, groups, version) == applied(m, features.take(k), groups, version),
    decreases features.len() - k,
{
    if k < features.len() {
        assert(features.take(k + 1).drop_last() =~= features.take(k));
        lemma_applied_failure(m, features, groups, version, k + 1);
    } else {
        assert(features.take(k) =~= features);
    }
}

/// Finds the name of the first group with the given id.
fn find_group(groups: &Vec<DatabaseGroup>, id: &str) -> (r: Option<String>)
    ensures
        opt_text(r) == group_name(groups_view(groups@), id@),
{
    let ghost all = groups_view(groups@);
    let mut k: usize = 0;
    assert(all.skip(0) =~= all);
    while k < groups.len()
        invariant
            k <= groups@.len(),
            all == groups_view(groups@),
            group_name(all, id@) == group_name(all.skip(k as int), id@),
        decreases groups@.len() - k,
    {
        assert(all.skip(k as int)[0] == groups@[k as int]@);
        if same_text(groups[k].id.as_str(), id) {
            return Some(groups[k].name.clone());
        }
        assert(all.skip(k as int).drop_first() =~= all.skip(k + 1));
        k = k + 1;
    }
    None
}

/// Collects the values that a record lists, with their names.
fn collect_values(values: &Vec<DatabaseValueDesc>) -> (out: ValueNames)
    ensures
        values_view(out@) == named_in(Seq::new(values@.len(), |k: int| values@[k]@)),
{
    let ghost all = Seq::new(values@.len(), |k: int| values@[k]@);
    let mut out: ValueNames = BTreeMap::new();
    let mut k: usize = 0;
    assert(all.take(0) =~= Seq::empty());
    assert(values_view(out@) =~= Map::empty());
    while k < values.len()
        invariant
            k <= values@.len(),
            all == Seq::new(values@.len(), |k: int| values@[k]@),
            values_view(out@) == named_in(all.take(k as int)),
        decreases values@.len() - k,
    {
        let ghost before = out@;
        proof {
            assert(all.take(k + 1).drop_last() =~= all.take(k as int));
            assert(all.take(k + 1).last() == values@[k as int]@);
        }
        match &values[k].value {
            DatabaseValue::Value(v) => {
                let name = values[k].name.clone();
                out.insert(*v, Some(name));
                assert(values_view(out@) =~= values_view(before).insert(*v, Some(name@)));
            },
            DatabaseValue::Range(_) => {},
        }
        k = k + 1;
    }
    assert(all.take(k as int) =~= all);
    out
}

/// Works out the type of value that a record describes.
fn type_of(ty: DatabaseType, interpretation: &Option<DatabaseInterpretation>) -> (r: Result<
    ValueType,
    DatabaseError,
>)
    ensures
        match value_type(
            ty,
            match *interpretation {
                Some(i) => Some(i@),
                None => None,
            },
        ) {
            Ok(t) => r matches Ok(v) && v@ == t,
            Err(e) => r == Err::<ValueType, DatabaseError>(e),
        },
{
    match ty {
        DatabaseType::Table => match interpretation {
            None => Ok(ValueType::Table { interpretation: TableInterpretation::Generic }),
            Some(DatabaseInterpretation::Values(_)) => Err(DatabaseError::TableWithValueNames),
            Some(DatabaseInterpretation::Id(id)) => match id {
                DatabaseInterpretationId::CodePage => Ok(
                    ValueType::Table { interpretation: TableInterpretation::CodePage },
                ),
                _ => Err(DatabaseError::InvalidTableInterpretation(*id)),
            },
        },
        DatabaseType::Continuous => Ok(
            ValueType::Continuous { interpretation: ValueInterpretation::Continuous },
        ),
        DatabaseType::NonContinuous => match interpretation {
            None => {
                let t = ValueType::NonContinuous {
                    values: BTreeMap::new(),
                    interpretation: ValueInterpretation::NonContinuous,
                };
                assert(t@->NonContinuous_values =~= Map::empty());
                Ok(t)
            },
            Some(DatabaseInterpretation::Values(values)) => Ok(
                ValueType::NonContinuous {
                    values: collect_values(values),
                    interpretation: ValueInterpretation::NonContinuous,
                },
            ),
            Some(DatabaseInterpretation::Id(id)) => match id {
                DatabaseInterpretationId::NonZeroWrite => {
                    let t = ValueType::NonContinuous {
                        values: BTreeMap::new(),
                        interpretation: ValueInterpretation::NonZeroWrite,
                    };
                    assert(t@->NonContinuous_values =~= Map::empty());
                    Ok(t)
                },
                DatabaseInterpretationId::VcpVersion => {
                    let t = ValueType::NonContinuous {
                        values: BTreeMap::new(),
                        interpretation: ValueInterpretation::VcpVersion,
                    };
                    assert(t@->NonContinuous_values =~= Map::empty());
                    Ok(t)
                },
                _ => Err(DatabaseError::InvalidNonContinuousInterpretation(*id)),
            },
        },
    }
}

/// Works out the type of value that a record gives a feature.
fn record_type_of(f: &DatabaseFeature) -> (r: Result<Option<ValueType>, DatabaseError>)
    ensures
        match record_type(f@) {
            Ok(Some(t)) => r matches Ok(Some(v)) && v@ == t,
            Ok(None) => r matches Ok(None),
            Err(e) => r == Err::<Option<ValueType>, DatabaseError>(e),
        },
{
    match f.ty {
        Some(t) => match type_of(t, &f.interpretation) {
            Ok(ty) => Ok(Some(ty)),
            Err(e) => Err(e),
        },
        None => Ok(None),
    }
}

/// Applies one record to a descriptor, with the type of value that the
/// record gives it, if it gives one.
fn apply_record(
    d: Descriptor,
    f: &DatabaseFeature,
    ty: Option<ValueType>,
    groups: &Vec<DatabaseGroup>,
) -> (r: Descriptor)
    ensures
        r@ == merged(
            d@,
            f@,
            match ty {
                Some(t) => t@,
                None => d.ty@,
            },
            groups_view(groups@),
        ),
{
    let ty = match ty {
        Some(t) => t,
        None => d.ty,
    };
    let name = match &f.name {
        Some(n) => Some(n.clone()),
        None => d.name,
    };
    let description = match &f.desc {
        Some(n) => Some(n.clone()),
        None => d.description,
    };
    let group = match &f.group {
        Some(id) => find_group(groups, id.as_str()),
        None => d.group,
    };
    let access = match f.access {
        Some(DatabaseReadWrite::ReadOnly) => Access::ReadOnly,
        Some(DatabaseReadWrite::WriteOnly) => Access::WriteOnly,
        Some(DatabaseReadWrite::ReadWrite) => Access::ReadWrite,
        None => d.access,
    };
    let mut interacts_with = d.interacts_with;
    let ghost start = interacts_with@;
    let mut k: usize = 0;
    assert(start + f.interacts_with@.take(0) =~= start);
    while k < f.interacts_with.len()
        invariant
            k <= f.interacts_with@.len(),
            interacts_with@ == start + f.interacts_with@.take(k as int),
        decreases f.interacts_with@.len() - k,
    {
        interacts_with.push(f.interacts_with[k]);
        assert(interacts_with@ =~= start + f.interacts_with@.take(k + 1));
        k = k + 1;
    }
    assert(f.interacts_with@.take(k as int) =~= f.interacts_with@);
    Descriptor {
        name,
        description,
        group,
        code: f.code,
        ty,
        access,
        mandatory: d.mandatory || f.mandatory,
        interacts_with,
    }
}

impl Database {
    /// Applies the records of a file for one version of the specification.
    /// The first record that cannot be applied fails the call and leaves the
    /// database as the records before it made it.
    pub fn apply_database(&mut self, db: &DatabaseFile, mccs_version: &Version) -> (r: Result<
        (),
        DatabaseError,
    >)
        ensures
            ({
                let (m, failed) = applied(
                    old(self)@,
                    features_view(db.vcp_features@),
                    groups_view(db.groups@),
                    *mccs_version,
                );
                &&& final(self)@ == m
                &&& match failed {
                    None => r is Ok,
                    Some(e) => r == Err::<(), DatabaseError>(e),
                }
            }),
    {
        let mut taken = Database::default();
        std::mem::swap(self, &mut taken);
        let mut entries = taken.into_entries();
        let ghost start = records_view(entries@);
        let ghost all = features_view(db.vcp_features@);
        let ghost groups = groups_view(db.groups@);
        let mut k: usize = 0;
        assert(all.take(0) =~= Seq::empty());
        while k < db.vcp_features.len()
            invariant
                k <= db.vcp_features@.len(),
                start == old(self)@,
                all == features_view(db.vcp_features@),
                groups == groups_view(db.groups@),
                applied(start, all.take(k as int), groups, *mccs_version) == (
                    records_view(entries@),
                    None::<DatabaseError>,
                ),
            decreases db.vcp_features@.len() - k,
        {
            let f = &db.vcp_features[k];
            proof {
                assert(all.take(k + 1).drop_last() =~= all.take(k as int));
                assert(all.take(k + 1).last() == f@);
            }
            if f.version.matches(mccs_version) {
                let ghost before = entries@;
                let ty = match record_type_of(f) {
                    Ok(ty) => ty,
                    Err(e) => {
                        proof {
                            lemma_applied_failure(start, all, groups, *mccs_version, k + 1);
                        }
                        *self = Database::from_entries(entries);
                        return Err(e);
                    },
                };
                let d = match entries.remove(&f.code) {
                    Some(d) => d,
                    None => Descriptor::default(),
                };
                let n = apply_record(d, f, ty, &db.groups);
                entries.insert(f.code, n);
                assert(records_view(entries@) =~= records_view(before).insert(f.code, n@));
            }
            k = k + 1;
        }
        assert(all.take(k as int) =~= all);
        *self = Database::from_entries(entries);
        Ok(())
    }

    /// The database that the records of a file make for one version of the
    /// specification.
    pub fn from_file(db: &DatabaseFile, mccs_version: &Version) -> (r: Result<Self, DatabaseError>)
        ensures
            ({
                let (m, failed) = applied(
                    Map::empty(),
                    features_view(db.vcp_features@),
                    groups_view(db.groups@),
                    *mccs_version,
                );
                match failed {
                    None => r matches Ok(d) && d@ == m,
                    Some(e) => r == Err::<Database, DatabaseError>(e),
                }
            }),
    {
        let mut s = Database::default();
        match s.apply_database(db, mccs_version) {
            Ok(()) => Ok(s),
            Err(e) => Err(e),
        }
    }
}

} // verus!
