use mccs::aggregate::{parse_capabilities, unknown_tag_of, value_of};
use mccs::entries::Value as Entry;
use mccs::error::ErrorKind;
use mccs::{
    Capabilities, Protocol, Type, UnknownData, UnknownTag, Value, VcpDescriptor, Version, Void,
};
use std::collections::BTreeMap;

fn names(pairs: &[(u8, Option<&str>)]) -> BTreeMap<u8, Option<String>> {
    pairs.iter().map(|(k, v)| (*k, v.map(String::from))).collect()
}

#[test]
fn whole_string_is_folded() {
    let caps = parse_capabilities(
        b"(prot(monitor)type(lcd)27UD58cmds(01 02 03 0C E3 F3)vcp(02 14(05 08 0B) 60( 11 12 0F 10))mccs_ver(2.1)mswhql(1)asset_eep(40))",
    )
    .unwrap();
    let mut features = BTreeMap::new();
    features.insert(0x02, VcpDescriptor::default());
    features.insert(
        0x14,
        VcpDescriptor { name: None, values: names(&[(0x05, None), (0x08, None), (0x0b, None)]) },
    );
    features.insert(
        0x60,
        VcpDescriptor {
            name: None,
            values: names(&[(0x0f, None), (0x10, None), (0x11, None), (0x12, None)]),
        },
    );
    let expected = Capabilities {
        protocol: Some(Protocol::Monitor),
        ty: Some(Type::Lcd),
        model: Some("27UD58".into()),
        commands: vec![0x01, 0x02, 0x03, 0x0c, 0xe3, 0xf3],
        ms_whql: Some(1),
        mccs_version: Some(Version::new(2, 1)),
        vcp_features: features,
        edid: None,
        vdif: vec![],
        unknown_tags: vec![UnknownTag {
            name: "asset_eep".into(),
            data: UnknownData::String("40".into()),
        }],
    };
    assert_eq!(caps, expected);
}

#[test]
fn names_are_applied_after_all_features() {
    let caps = parse_capabilities(
        br"vcpname(14((9300 6500 5500))44(Rotate)80(Do\x20this(On Off))82(Fixit))vcp(14(03 01 02)44 80(07))",
    )
    .unwrap();
    let mut features = BTreeMap::new();
    features.insert(
        0x14,
        VcpDescriptor {
            name: None,
            values: names(&[(3, Some("9300")), (1, Some("6500")), (2, Some("5500"))]),
        },
    );
    features.insert(0x44, VcpDescriptor { name: Some("Rotate".into()), values: names(&[]) });
    features.insert(
        0x80,
        VcpDescriptor { name: Some("Do this".into()), values: names(&[(7, Some("On"))]) },
    );
    assert_eq!(caps.vcp_features, features);
}

#[test]
fn names_without_a_feature_are_dropped() {
    let caps = parse_capabilities(b"vcpname(10(Brightness))").unwrap();
    assert!(caps.vcp_features.is_empty());
    let caps = parse_capabilities(b"vcp(10 12(01 02 03))vcpname(12((a b)))").unwrap();
    assert_eq!(
        caps.vcp_features[&0x12].values,
        names(&[(1, Some("a")), (2, Some("b")), (3, None)])
    );
    assert_eq!(caps.vcp_features[&0x10], VcpDescriptor::default());
}

#[test]
fn repeated_entries() {
    let caps = parse_capabilities(
        b"model(a)model(b)vcp(10(01))vcp(10(02) 11)vdif bin(1(x))vdif bin(2(yz))edid bin(1(p))edid bin(1(q))",
    )
    .unwrap();
    assert_eq!(caps.model.as_deref(), Some("b"));
    assert_eq!(caps.vcp_features[&0x10].values, names(&[(1, None), (2, None)]));
    assert_eq!(caps.vcp_features[&0x11], VcpDescriptor::default());
    assert_eq!(caps.vdif, vec![b"x".to_vec(), b"yz".to_vec()]);
    assert_eq!(caps.edid, Some(b"q".to_vec()));
}

#[test]
fn first_failure_fails_the_whole() {
    let err = parse_capabilities(b"prot(monitor)cmds(01 zz)mswhql(12)").unwrap_err();
    assert_eq!((err.kind, err.input), (ErrorKind::InvalidData, &b"zz"[..]));
    let err = parse_capabilities(b"prot(monitor)edid bin(5(ab))").unwrap_err();
    assert_eq!((err.kind, err.input), (ErrorKind::UnexpectedEndOfInput, &b"ab))"[..]));
    assert_eq!(parse_capabilities(b"").unwrap(), Capabilities::default());
}

#[test]
fn unknown_tags_keep_their_payload() {
    let caps = parse_capabilities(b"a(text)b(\xff\xfe)c bin(2(\x00\x01))").unwrap();
    assert_eq!(
        caps.unknown_tags,
        vec![
            UnknownTag { name: "a".into(), data: UnknownData::String("text".into()) },
            UnknownTag { name: "b".into(), data: UnknownData::StringBytes(vec![0xff, 0xfe]) },
            UnknownTag { name: "c".into(), data: UnknownData::Binary(vec![0, 1]) },
        ]
    );
    for tag in &caps.unknown_tags {
        let entry = value_of(tag);
        assert_eq!(&unknown_tag_of(entry), tag);
        assert_eq!(&UnknownTag::from(Entry::from(tag)), tag);
    }
}

#[test]
fn protocol_and_type_names() {
    assert_eq!(Protocol::from("monitor"), Protocol::Monitor);
    assert_eq!(Protocol::from("display"), Protocol::Display);
    assert_eq!(Protocol::from("Monitor"), Protocol::Unknown("Monitor".into()));
    assert_eq!("display".parse::<Protocol>().unwrap(), Protocol::Display);
    assert_eq!(Protocol::Unknown("x".into()).as_str(), "x");
    assert_eq!(Protocol::Monitor.as_str(), "monitor");
    assert_eq!(Type::from("crt"), Type::Crt);
    assert_eq!(Type::from("LCD"), Type::Lcd);
    assert_eq!(Type::from("LeD"), Type::Led);
    assert_eq!(Type::from("oled"), Type::Unknown("oled".into()));
    assert_eq!("lcd".parse::<Type>().unwrap(), Type::Lcd);
    assert_eq!(Type::Led.as_str(), "led");
    assert_eq!(Type::Unknown("oled".into()).as_str(), "oled");
}

#[test]
fn value_bytes() {
    let v = Value::from_value(0x1234);
    assert_eq!((v.sh, v.sl, v.mh, v.ml, v.ty), (0x12, 0x34, 0, 0, 0));
    assert_eq!(v.value(), 0x1234);
    assert_eq!(v.maximum(), 0);
    let v = Value { ty: 0, mh: 0xff, ml: 0xfe, sh: 0, sl: 7 };
    assert_eq!(v.maximum(), 0xfffe);
    assert_eq!(v.value(), 7);
    assert_eq!(Value::from_value(0xffff).value(), 0xffff);
    assert_eq!(Value::default(), Value::from_value(0));
}

#[test]
fn versions_and_descriptor_values() {
    assert_eq!(Version::new(2, 1), Version { major: 2, minor: 1 });
    assert!(Version::new(2, 1) < Version::new(2, 2));
    assert!(Version::new(2, 200) < Version::new(3, 0));
    assert_eq!(Version::default(), Version::new(0, 0));
    let d = VcpDescriptor { name: None, values: names(&[(9, None), (0, None), (255, None)]) };
    assert_eq!(d.values(), vec![0, 9, 255]);
    assert_eq!(VcpDescriptor::default().values(), Vec::<u8>::new());
}

#[test]
fn value_names_go_by_listed_order() {
    let caps = parse_capabilities(b"vcp(14(0B 05))vcpname(14((warm cool)))").unwrap();
    assert_eq!(
        caps.vcp_features[&0x14].values,
        names(&[(0x0b, Some("warm")), (0x05, Some("cool"))])
    );
    let caps =
        parse_capabilities(b"vcp(60( 11 12 0F 10))vcpname(60((hdmi1 hdmi2 dp1 dp2)))").unwrap();
    assert_eq!(
        caps.vcp_features[&0x60].values,
        names(&[
            (0x11, Some("hdmi1")),
            (0x12, Some("hdmi2")),
            (0x0f, Some("dp1")),
            (0x10, Some("dp2")),
        ])
    );
}

#[test]
fn a_value_listed_again_keeps_its_first_place() {
    let caps = parse_capabilities(b"vcp(14(0B 05 0B 01))vcpname(14((a b c d)))").unwrap();
    assert_eq!(
        caps.vcp_features[&0x14].values,
        names(&[(0x0b, Some("a")), (0x05, Some("b")), (0x01, Some("c"))])
    );
}

#[test]
fn later_listings_of_a_feature_follow_earlier_ones() {
    let caps = parse_capabilities(
        b"vcp(14(0B) 15(02) 14(05 0B))vcpname(14((a b c))15((x y)))vcp(14(01) 15(01))",
    )
    .unwrap();
    assert_eq!(
        caps.vcp_features[&0x14].values,
        names(&[(0x0b, Some("a")), (0x05, Some("b")), (0x01, Some("c"))])
    );
    assert_eq!(
        caps.vcp_features[&0x15].values,
        names(&[(0x02, Some("x")), (0x01, Some("y"))])
    );
}

#[test]
fn later_names_replace_earlier_ones_by_place() {
    let caps =
        parse_capabilities(b"vcp(14(0B 05 01))vcpname(14((a b c)))vcpname(14(Temp(x)))").unwrap();
    assert_eq!(caps.vcp_features[&0x14].name.as_deref(), Some("Temp"));
    assert_eq!(
        caps.vcp_features[&0x14].values,
        names(&[(0x0b, Some("x")), (0x05, Some("b")), (0x01, Some("c"))])
    );
}

#[test]
fn naming_a_protocol_or_a_type_cannot_fail() {
    let protocol: Result<Protocol, Void> = "monitor".parse();
    match protocol {
        Ok(p) => assert_eq!(p, Protocol::Monitor),
        Err(Void::Never(never)) => match never {},
    }
    let ty: Result<Type, Void> = "tube".parse();
    match ty {
        Ok(t) => assert_eq!(t, Type::Unknown("tube".into())),
        Err(Void::Never(never)) => match never {},
    }
}
