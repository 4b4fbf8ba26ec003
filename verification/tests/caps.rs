use mccs::caps::{finish, Cap, Vcp, VcpName, VcpValue};
use mccs::entries::{Value, ValueParser};
use mccs::error::ErrorKind;
use mccs::names::{backslash_escape, value_escape_nospace, vcpname, vcpname_list};
use std::borrow::Cow;

fn decode_all(data: &[u8]) -> Vec<Cap<'_>> {
    Cap::parse_entries(ValueParser::new(data))
        .into_iter()
        .map(|cap| cap.unwrap())
        .collect()
}

#[test]
fn vcpname_temp() {
    let testdata = br"14((9300 6500 5500))44(Rotate)80(Do\x20this(On Off))82(Fixit)";
    let expected = [
        VcpName {
            feature: 0x14,
            name: None,
            value_names: Some(vec!["9300".into(), "6500".into(), "5500".into()]),
        },
        VcpName {
            feature: 0x44,
            name: Some("Rotate".into()),
            value_names: None,
        },
        VcpName {
            feature: 0x80,
            name: Some("Do this".into()),
            value_names: Some(vec!["On".into(), "Off".into()]),
        },
        VcpName {
            feature: 0x82,
            name: Some("Fixit".into()),
            value_names: None,
        },
    ];

    let vcps = finish(testdata, vcpname_list(testdata)).unwrap();
    assert_eq!(vcps.len(), expected.len());

    for (vcp, exp) in vcps.into_iter().zip(expected) {
        assert_eq!(vcp, exp);
    }
}

#[test]
fn vcpname_brightness() {
    let testdata = b"10(Brightness)";
    let expected = VcpName {
        feature: 0x10,
        name: Some("Brightness".into()),
        value_names: None,
    };
    let vcp = finish(testdata, vcpname(testdata, 0)).unwrap();

    assert_eq!(vcp, expected);
}

#[test]
fn commands_in_source_order() {
    let cap = Cap::parse_string("cmds", b"01 02 03 0C E3 F3").unwrap();
    assert_eq!(cap, Cap::Commands(vec![0x01, 0x02, 0x03, 0x0C, 0xE3, 0xF3]));
    assert_eq!(Cap::parse_string("cmds", b"").unwrap(), Cap::Commands(vec![]));
    assert_eq!(Cap::parse_string("cmds", b" 0a\t0B ").unwrap(), Cap::Commands(vec![0x0a, 0x0b]));
}

#[test]
fn commands_failures() {
    let err = Cap::parse_string("cmds", b"01 zz").unwrap_err();
    assert_eq!((err.kind, err.input), (ErrorKind::InvalidData, &b"zz"[..]));
    let err = Cap::parse_string("cmds", b"01 0").unwrap_err();
    assert_eq!((err.kind, err.input), (ErrorKind::UnexpectedEndOfInput, &b"0"[..]));
    let err = Cap::parse_string("cmds", b" ").unwrap_err();
    assert_eq!((err.kind, err.input), (ErrorKind::UnexpectedEndOfInput, &b""[..]));
    let err = Cap::parse_string("cmds", b"01 +F").unwrap_err();
    assert_eq!((err.kind, err.input), (ErrorKind::InvalidData, &b"+F"[..]));
    let err = Cap::parse_string("cmds", b"01)").unwrap_err();
    assert_eq!((err.kind, err.input), (ErrorKind::InvalidData, &b")"[..]));
}

#[test]
fn vcp_features_and_values() {
    let cap = Cap::parse_string("vcp", b"02 04 14(05 08 0B)").unwrap();
    let expected = Cap::Vcp(vec![
        Vcp { feature: 0x02, values: None },
        Vcp { feature: 0x04, values: None },
        Vcp {
            feature: 0x14,
            values: Some(vec![VcpValue::new(0x05), VcpValue::new(0x08), VcpValue::new(0x0B)]),
        },
    ]);
    assert_eq!(cap, expected);
    assert_eq!(Cap::parse_string("VCP", b"02 04 14(05 08 0B)").unwrap(), expected);
}

#[test]
fn vcp_sub_values_and_blanks() {
    let cap = Cap::parse_string("vcp", b" 0203(10 00) 60( 11(01 02) 12 ) ").unwrap();
    assert_eq!(
        cap,
        Cap::Vcp(vec![
            Vcp { feature: 0x02, values: None },
            Vcp {
                feature: 0x03,
                values: Some(vec![VcpValue::new(0x10), VcpValue::new(0x00)]),
            },
            Vcp {
                feature: 0x60,
                values: Some(vec![
                    VcpValue { value: 0x11, sub_values: Some(vec![0x01, 0x02]) },
                    VcpValue::new(0x12),
                ]),
            },
        ])
    );
    assert_eq!(Cap::parse_string("vcp", b"  ").unwrap(), Cap::Vcp(vec![]));
    assert_eq!(
        Cap::parse_string("vcp", b"14()").unwrap(),
        Cap::Vcp(vec![Vcp { feature: 0x14, values: Some(vec![]) }])
    );
}

#[test]
fn vcp_failures() {
    let err = Cap::parse_string("vcp", b"14(05 zz)").unwrap_err();
    assert_eq!((err.kind, err.input), (ErrorKind::InvalidData, &b"zz)"[..]));
    let err = Cap::parse_string("vcp", b"14(05 08").unwrap_err();
    assert_eq!((err.kind, err.input), (ErrorKind::UnexpectedEndOfInput, &b""[..]));
    let err = Cap::parse_string("vcp", b"14( )").unwrap_err();
    assert_eq!((err.kind, err.input), (ErrorKind::InvalidData, &b")"[..]));
    let err = Cap::parse_string("vcp", b"02 )").unwrap_err();
    assert_eq!((err.kind, err.input), (ErrorKind::InvalidData, &b")"[..]));
}

#[test]
fn accessors_default_to_empty() {
    let bare = Vcp { feature: 1, values: None };
    assert!(bare.values().is_empty());
    let listed = Vcp { feature: 1, values: Some(vec![VcpValue::new(7)]) };
    assert_eq!(listed.values(), [VcpValue::new(7)]);
    assert!(VcpValue::new(7).sub_values().is_empty());
    assert_eq!(VcpValue { value: 7, sub_values: Some(vec![1, 2]) }.sub_values(), [1, 2]);
    let name = VcpName { feature: 1, name: None, value_names: None };
    assert!(name.value_names().is_empty());
    let name = VcpName { feature: 1, name: None, value_names: Some(vec!["On".into()]) };
    assert_eq!(name.value_names(), [Cow::Borrowed("On")]);
}

#[test]
fn type_model_hack_and_commands() {
    let caps = decode_all(b"type(lcd)27UD58cmds(01 02 03)");
    assert_eq!(
        caps,
        [Cap::Type("lcd"), Cap::Model("27UD58"), Cap::Commands(vec![0x01, 0x02, 0x03])]
    );
}

#[test]
fn edid_blob_is_raw() {
    let caps = decode_all(b"edid bin(3(\xFF) ))");
    assert_eq!(caps, [Cap::Edid(&[0xFF, b')', b' '])]);
    let caps = decode_all(b"vdif bin(3 (abc))unknown bin(2(ab))");
    assert_eq!(
        caps,
        [Cap::Vdif(b"abc"), Cap::Unknown(Value::Binary { tag: "unknown", data: b"ab" })]
    );
}

#[test]
fn escaped_name_and_value_names() {
    let cap = Cap::parse_string("vcpname", br"80(Do\x20this(On Off))").unwrap();
    assert_eq!(
        cap,
        Cap::VcpNames(vec![VcpName {
            feature: 0x80,
            name: Some("Do this".into()),
            value_names: Some(vec!["On".into(), "Off".into()]),
        }])
    );
}

#[test]
fn escapes() {
    assert_eq!(backslash_escape(br"Do\x20this"), "Do this");
    assert_eq!(backslash_escape(br"a\x4a\x4Ab"), "aJJb");
    assert_eq!(backslash_escape(br"\xZZ\x2"), r"\xZZ\x2");
    assert_eq!(backslash_escape(br"\x+F"), r"\x+F");
    assert_eq!(backslash_escape(b"\xff\\xff"), "\u{ff}\u{ff}");
    assert_eq!(backslash_escape(b""), "");
    assert!(matches!(value_escape_nospace(b"plain"), Cow::Borrowed("plain")));
    assert!(matches!(value_escape_nospace("caf\u{e9}".as_bytes()), Cow::Borrowed(_)));
    assert!(matches!(value_escape_nospace(br"a\x41"), Cow::Owned(_)));
    assert!(matches!(value_escape_nospace(br"a\b"), Cow::Owned(_)));
    assert!(matches!(value_escape_nospace(b"caf\xe9"), Cow::Owned(_)));
    let names = finish(br"80(Do\x20this(On Off))", vcpname_list(br"80(Do\x20this(On Off))")).unwrap();
    assert!(matches!(names[0].name, Some(Cow::Owned(_))));
    assert!(matches!(names[0].value_names.as_ref().unwrap()[0], Cow::Borrowed("On")));
    assert_eq!(value_escape_nospace(br"a\x41"), "aA");
    assert_eq!(value_escape_nospace("caf\u{e9}".as_bytes()), "caf\u{e9}");
    assert_eq!(value_escape_nospace(b"caf\xe9"), "caf\u{e9}");
}

#[test]
fn vcpname_shapes() {
    let parse = |data: &'static [u8]| finish(data, vcpname_list(data));
    assert_eq!(
        parse(b"10()").unwrap(),
        [VcpName { feature: 0x10, name: None, value_names: None }]
    );
    assert_eq!(
        parse(b" 10 (A( x\ty  z ))11(B)").unwrap(),
        [
            VcpName {
                feature: 0x10,
                name: Some("A".into()),
                value_names: Some(vec!["x\ty".into(), "z".into()]),
            },
            VcpName { feature: 0x11, name: Some("B".into()), value_names: None },
        ]
    );
    assert_eq!(
        parse(b"10(( ))").unwrap(),
        [VcpName { feature: 0x10, name: None, value_names: Some(vec![]) }]
    );
    let err = parse(b"10(Brightness )").unwrap_err();
    assert_eq!((err.kind, err.input), (ErrorKind::InvalidData, &b" )"[..]));
    let err = parse(b"10(Brightness) ").unwrap_err();
    assert_eq!((err.kind, err.input), (ErrorKind::UnexpectedEndOfInput, &b""[..]));
    let err = parse(b"10(A(x)").unwrap_err();
    assert_eq!((err.kind, err.input), (ErrorKind::UnexpectedEndOfInput, &b""[..]));
    let err = parse(b"10(A(x(y)))").unwrap_err();
    assert_eq!((err.kind, err.input), (ErrorKind::InvalidData, &b"(y)))"[..]));
    let err = parse(b"10 A").unwrap_err();
    assert_eq!((err.kind, err.input), (ErrorKind::InvalidData, &b"A"[..]));
}

#[test]
fn whql_is_one_digit() {
    assert_eq!(Cap::parse_string("mswhql", b"1").unwrap(), Cap::Whql(1));
    assert_eq!(Cap::parse_string("mswhql", b"0").unwrap(), Cap::Whql(0));
    let err = Cap::parse_string("mswhql", b"").unwrap_err();
    assert_eq!((err.kind, err.input), (ErrorKind::UnexpectedEndOfInput, &b""[..]));
    let err = Cap::parse_string("mswhql", b"x").unwrap_err();
    assert_eq!((err.kind, err.input), (ErrorKind::InvalidData, &b"x"[..]));
    let err = Cap::parse_string("mswhql", b"12").unwrap_err();
    assert_eq!((err.kind, err.input), (ErrorKind::InvalidData, &b"2"[..]));
}

#[test]
fn mccs_version_forms() {
    assert_eq!(Cap::parse_string("mccs_ver", b"2.1").unwrap(), Cap::MccsVersion(2, 1));
    assert_eq!(Cap::parse_string("mccs_ver", b"22.01").unwrap(), Cap::MccsVersion(22, 1));
    assert_eq!(Cap::parse_string("mccs_ver", b"0201").unwrap(), Cap::MccsVersion(2, 1));
    assert_eq!(Cap::parse_string("mccs_ver", b"021A").unwrap(), Cap::MccsVersion(2, 0x1a));
    assert_eq!(Cap::parse_string("mccs_ver", b"255.255").unwrap(), Cap::MccsVersion(255, 255));
    let err = Cap::parse_string("mccs_ver", b"256.0").unwrap_err();
    assert_eq!((err.kind, err.input), (ErrorKind::InvalidData, &b"256.0"[..]));
    let err = Cap::parse_string("mccs_ver", b"2.").unwrap_err();
    assert_eq!((err.kind, err.input), (ErrorKind::UnexpectedEndOfInput, &b""[..]));
    let err = Cap::parse_string("mccs_ver", b"2").unwrap_err();
    assert_eq!((err.kind, err.input), (ErrorKind::UnexpectedEndOfInput, &b""[..]));
    let err = Cap::parse_string("mccs_ver", b"2.1x").unwrap_err();
    assert_eq!((err.kind, err.input), (ErrorKind::InvalidData, &b"x"[..]));
    let err = Cap::parse_string("mccs_ver", b"v2").unwrap_err();
    assert_eq!((err.kind, err.input), (ErrorKind::InvalidData, &b"v2"[..]));
}

#[test]
fn text_entries_need_text() {
    assert_eq!(Cap::parse_string("prot", b"monitor").unwrap(), Cap::Protocol("monitor"));
    assert_eq!(Cap::parse_string("type", b"LCD").unwrap(), Cap::Type("LCD"));
    assert_eq!(Cap::parse_string("model", b"").unwrap(), Cap::Model(""));
    let err = Cap::parse_string("model", b"ab\xff").unwrap_err();
    assert_eq!((err.kind, err.input), (ErrorKind::InvalidData, &b"ab\xff"[..]));
}

#[test]
fn unknown_tags_are_kept() {
    assert_eq!(
        Cap::parse_string("asset_eep", b"40").unwrap(),
        Cap::Unknown(Value::String { tag: "asset_eep", value: b"40" })
    );
    assert_eq!(
        Cap::parse_string("Prot", b"display").unwrap(),
        Cap::Unknown(Value::String { tag: "Prot", value: b"display" })
    );
    assert_eq!(
        Cap::parse_data("EDID", b"ab"),
        Cap::Unknown(Value::Binary { tag: "EDID", data: b"ab" })
    );
    assert_eq!(Cap::parse_data("edid", b"ab"), Cap::Edid(b"ab"));
    assert_eq!(
        Cap::parse_entry(Value::Binary { tag: "vdif", data: b"ab" }).unwrap(),
        Cap::Vdif(b"ab")
    );
}

#[test]
fn a_bad_entry_fails_alone() {
    let caps = Cap::parse_entries(ValueParser::new(b"cmds(zz)mswhql(1)"));
    assert_eq!(caps.len(), 2);
    assert_eq!(caps[0].as_ref().unwrap_err().kind, ErrorKind::InvalidData);
    assert_eq!(caps[1], Ok(Cap::Whql(1)));
}

#[test]
fn decoding_twice_gives_the_same() {
    let data = &b"(prot(monitor)type(lcd)model(X)cmds(01 02)vcp(02 14(05 08))mccs_ver(2.1))"[..];
    assert_eq!(
        Cap::parse_entries(ValueParser::new(data)),
        Cap::parse_entries(ValueParser::new(data))
    );
}
