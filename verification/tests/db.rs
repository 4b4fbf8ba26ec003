use mccs::aggregate::parse_capabilities;
use mccs::database_file::{
    DatabaseError, DatabaseFeature, DatabaseFile, DatabaseGroup, DatabaseInterpretation,
    DatabaseInterpretationId, DatabaseReadWrite, DatabaseType, DatabaseValue, DatabaseValueDesc,
};
use mccs::db::{
    Access, Database, Descriptor, TableInterpretation, ValueInterpretation, ValueType,
};
use mccs::version_req::{parse_requirement, Req};
use mccs::{Value, Version};
use std::collections::BTreeMap;

fn feature(code: u8, version: &str) -> DatabaseFeature {
    DatabaseFeature {
        code,
        version: parse_requirement::<Version>(version).unwrap(),
        name: None,
        desc: None,
        group: None,
        ty: None,
        interpretation: None,
        mandatory: false,
        access: None,
        desc_long: None,
        interacts_with: vec![],
    }
}

fn value(v: u8, name: &str) -> DatabaseValueDesc {
    DatabaseValueDesc { value: DatabaseValue::Value(v), name: name.into(), desc: None, desc_long: None }
}

fn file() -> DatabaseFile {
    DatabaseFile {
        groups: vec![
            DatabaseGroup { id: "image".into(), name: "Image Adjustment".into() },
            DatabaseGroup { id: "misc".into(), name: "Miscellaneous".into() },
            DatabaseGroup { id: "image".into(), name: "Shadowed".into() },
        ],
        vcp_features: vec![
            DatabaseFeature {
                name: Some("Luminance".into()),
                desc: Some("Brightness of the image".into()),
                group: Some("image".into()),
                ty: Some(DatabaseType::Continuous),
                mandatory: true,
                access: Some(DatabaseReadWrite::ReadWrite),
                interacts_with: vec![0x12],
                ..feature(0x10, ">=2.0")
            },
            DatabaseFeature {
                name: Some("Input Select".into()),
                group: Some("nowhere".into()),
                ty: Some(DatabaseType::NonContinuous),
                interpretation: Some(DatabaseInterpretation::Values(vec![
                    value(0x01, "Analog 1"),
                    value(0x0f, "DisplayPort 1"),
                    DatabaseValueDesc {
                        value: DatabaseValue::Range("0x20..0x2f".into()),
                        name: "Reserved".into(),
                        desc: None,
                        desc_long: None,
                    },
                    value(0x11, "HDMI 1"),
                    value(0x01, "VGA"),
                ])),
                access: Some(DatabaseReadWrite::ReadOnly),
                ..feature(0x60, ">=2.0")
            },
            DatabaseFeature {
                desc: Some("Only in version 3".into()),
                interacts_with: vec![0x14, 0x16],
                mandatory: false,
                ..feature(0x10, ">=3.0")
            },
            DatabaseFeature {
                name: Some("Code Page".into()),
                ty: Some(DatabaseType::Table),
                interpretation: Some(DatabaseInterpretation::Id(DatabaseInterpretationId::CodePage)),
                access: Some(DatabaseReadWrite::WriteOnly),
                ..feature(0x71, "2.2 || >= 3.0")
            },
            DatabaseFeature {
                name: Some("VCP Version".into()),
                ty: Some(DatabaseType::NonContinuous),
                interpretation: Some(DatabaseInterpretation::Id(DatabaseInterpretationId::VcpVersion)),
                ..feature(0xdf, ">=0.0")
            },
        ],
    }
}

#[test]
fn records_of_a_version_are_applied() {
    let db = Database::from_file(&file(), &Version::new(2, 1)).unwrap();
    let d = db.get(0x10).unwrap();
    assert_eq!(d.name.as_deref(), Some("Luminance"));
    assert_eq!(d.description.as_deref(), Some("Brightness of the image"));
    assert_eq!(d.group.as_deref(), Some("Image Adjustment"));
    assert_eq!(d.code, 0x10);
    assert_eq!(d.ty, ValueType::Continuous { interpretation: ValueInterpretation::Continuous });
    assert_eq!(d.access, Access::ReadWrite);
    assert!(d.mandatory);
    assert_eq!(d.interacts_with, vec![0x12]);
    let d = db.get(0x60).unwrap();
    assert_eq!(d.group, None);
    assert_eq!(d.access, Access::ReadOnly);
    let mut values = BTreeMap::new();
    values.insert(0x01, Some("VGA".to_string()));
    values.insert(0x0f, Some("DisplayPort 1".to_string()));
    values.insert(0x11, Some("HDMI 1".to_string()));
    assert_eq!(
        d.ty,
        ValueType::NonContinuous { values, interpretation: ValueInterpretation::NonContinuous }
    );
    assert!(db.get(0x71).is_none());
    assert_eq!(
        db.get(0xdf).unwrap().ty,
        ValueType::NonContinuous {
            values: BTreeMap::new(),
            interpretation: ValueInterpretation::VcpVersion
        }
    );
    assert!(db.get(0x11).is_none());
}

#[test]
fn later_records_refine_earlier_ones() {
    let db = Database::from_file(&file(), &Version::new(3, 0)).unwrap();
    let d = db.get(0x10).unwrap();
    assert_eq!(d.name.as_deref(), Some("Luminance"));
    assert_eq!(d.description.as_deref(), Some("Only in version 3"));
    assert_eq!(d.group.as_deref(), Some("Image Adjustment"));
    assert!(d.mandatory);
    assert_eq!(d.interacts_with, vec![0x12, 0x14, 0x16]);
    let d = db.get(0x71).unwrap();
    assert_eq!(d.ty, ValueType::Table { interpretation: TableInterpretation::CodePage });
    assert_eq!(d.access, Access::WriteOnly);
    assert!(Database::from_file(&file(), &Version::new(2, 2)).unwrap().get(0x71).is_some());
}

#[test]
fn records_that_do_not_fit_fail() {
    let bad = |ty, interpretation| DatabaseFile {
        groups: vec![],
        vcp_features: vec![
            DatabaseFeature { name: Some("kept".into()), ..feature(1, ">=0.0") },
            DatabaseFeature {
                name: Some("bad".into()),
                ty: Some(ty),
                interpretation: Some(interpretation),
                ..feature(2, ">=2.0")
            },
            feature(3, ">=0.0"),
        ],
    };
    let version = Version::new(2, 0);
    assert_eq!(
        Database::from_file(&bad(DatabaseType::Table, DatabaseInterpretation::Values(vec![])), &version)
            .unwrap_err(),
        DatabaseError::TableWithValueNames
    );
    assert_eq!(
        Database::from_file(
            &bad(DatabaseType::Table, DatabaseInterpretation::Id(DatabaseInterpretationId::VcpVersion)),
            &version
        )
        .unwrap_err(),
        DatabaseError::InvalidTableInterpretation(DatabaseInterpretationId::VcpVersion)
    );
    let nc = bad(
        DatabaseType::NonContinuous,
        DatabaseInterpretation::Id(DatabaseInterpretationId::CodePage),
    );
    let mut db = Database::default();
    assert_eq!(
        db.apply_database(&nc, &version).unwrap_err(),
        DatabaseError::InvalidNonContinuousInterpretation(DatabaseInterpretationId::CodePage)
    );
    assert_eq!(db.get(1).unwrap().name.as_deref(), Some("kept"));
    assert!(db.get(2).is_none());
    assert!(db.get(3).is_none());
    let mut db = Database::default();
    db.apply_database(&nc, &Version::new(1, 0)).unwrap();
    assert!(db.get(2).is_none());
    assert!(db.get(3).is_some());
    let continuous = bad(DatabaseType::Continuous, DatabaseInterpretation::Values(vec![]));
    assert!(Database::from_file(&continuous, &version).is_ok());
}

#[test]
fn capabilities_filter_the_database() {
    let mut db = Database::from_file(&file(), &Version::new(2, 1)).unwrap();
    let caps =
        parse_capabilities(b"vcp(10 60(11 0F 03) 99)vcpname(10(Backlight)60((a)))").unwrap();
    db.apply_capabilities(&caps);
    assert!(db.get(0xdf).is_none());
    assert!(db.get(0x99).is_none());
    let d = db.get(0x10).unwrap();
    assert_eq!(d.name.as_deref(), Some("Backlight"));
    assert_eq!(d.ty, ValueType::Continuous { interpretation: ValueInterpretation::Continuous });
    let d = db.get(0x60).unwrap();
    assert_eq!(d.name.as_deref(), Some("Input Select"));
    let mut values = BTreeMap::new();
    values.insert(0x03, None);
    values.insert(0x0f, Some("DisplayPort 1".to_string()));
    values.insert(0x11, Some("a".to_string()));
    assert_eq!(
        d.ty,
        ValueType::NonContinuous { values, interpretation: ValueInterpretation::NonContinuous }
    );
    let mut db = Database::from_file(&file(), &Version::new(2, 1)).unwrap();
    db.apply_capabilities(&parse_capabilities(b"vcp(60 77(01))").unwrap());
    assert_eq!(
        db.get(0x60).unwrap().ty,
        ValueType::NonContinuous {
            values: BTreeMap::new(),
            interpretation: ValueInterpretation::NonContinuous
        }
    );
    assert!(db.get(0x10).is_none());
}

#[test]
fn tables_as_text() {
    assert_eq!(TableInterpretation::Generic.format(&[1, 2, 30, 255]), Ok("[1, 2, 30, 255]".into()));
    assert_eq!(TableInterpretation::Generic.format(&[7]), Ok("[7]".into()));
    assert_eq!(TableInterpretation::Generic.format(&[]), Ok("[]".into()));
    assert_eq!(
        TableInterpretation::Generic.format(&[0, 10, 100]).unwrap(),
        format!("{:?}", [0u8, 10, 100])
    );
    assert_eq!(TableInterpretation::CodePage.format(&[0xe0, 1]), Ok("224".into()));
    assert_eq!(TableInterpretation::CodePage.format(&[]), Err(()));
    assert_eq!(TableInterpretation::default(), TableInterpretation::Generic);
}

#[test]
fn values_as_text() {
    let v = Value { ty: 0, mh: 0x01, ml: 0x00, sh: 0x00, sl: 0x4b };
    assert_eq!(ValueInterpretation::Continuous.format(&v), "75 / 256");
    assert_eq!(ValueInterpretation::NonContinuous.format(&v), "75");
    assert_eq!(ValueInterpretation::NonZeroWrite.format(&v), "set");
    assert_eq!(ValueInterpretation::NonZeroWrite.format(&Value::from_value(0x0100)), "unset");
    assert_eq!(ValueInterpretation::VcpVersion.format(&Value { mh: 2, ml: 1, ..v }), "2.1");
    assert_eq!(
        ValueInterpretation::Continuous.format(&Value::from_value(0xffff)),
        "65535 / 0"
    );
}

#[test]
fn defaults() {
    assert_eq!(Access::default(), Access::ReadWrite);
    assert_eq!(ValueType::default(), ValueType::Unknown);
    let d = Descriptor::default();
    assert_eq!((d.name, d.description, d.group), (None, None, None));
    assert_eq!((d.code, d.ty, d.access, d.mandatory), (0, ValueType::Unknown, Access::ReadWrite, false));
    assert!(d.interacts_with.is_empty());
    assert!(Database::default().get(0).is_none());
    assert_eq!(Req::<Version>::default(), Req::Ge(Version::new(0, 0)));
}
