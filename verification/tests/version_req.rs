use mccs::error::ErrorKind;
use mccs::version_req::{
    hex_u8, parse_req, parse_req_expr, parse_requirement, parse_u8, parse_version, Req, VersionReq,
};
use mccs::Version;

#[test]
fn version() {
    assert_eq!(parse_version(b"22.01", 0).unwrap().0, Version {
        major: 22,
        minor: 1
    })
}

#[test]
fn version_eq() {
    assert_eq!(
        parse_req_expr(b"2.0", 0).unwrap().0,
        VersionReq::Eq(Version { major: 2, minor: 0 })
    )
}

#[test]
fn version_req() {
    assert_eq!(
        parse_req_expr(b"<=3.1", 0).unwrap().0,
        VersionReq::Le(Version { major: 3, minor: 1 })
    )
}

#[test]
fn u8_req() {
    assert_eq!(parse_req_expr(b"<=0x0a", 0).unwrap().0, Req::Le(0xa))
}

#[test]
fn u8_expr() {
    assert_eq!(
        parse_req_expr(b"0x0a && <0x05", 0).unwrap().0,
        Req::Eq(0xa).and(Req::Lt(5))
    )
}

#[test]
fn u8_chained_expr() {
    assert_eq!(
        parse_req_expr(b"(0x0a && <0x05) || (0x01 && 0x02)", 0).unwrap().0,
        Req::Bracket(Req::Eq(0xa).and(Req::Lt(5)).into()).or(Req::Bracket(Req::Eq(1).and(Req::Eq(2)).into()))
    )
}

#[test]
fn u8_ordered_chain() {
    assert_eq!(
        parse_req_expr(b"0x0a || 0x01 || 0x02", 0).unwrap().0,
        Req::Eq(0xa).or(Req::Eq(1).or(Req::Eq(2)))
    )
}

#[test]
fn u8_nested_expr() {
    assert_eq!(
        parse_req_expr(b"((0x0a && (0x01 && 0x02)) || <0x03)", 0)
            .unwrap()
            .0,
        Req::Bracket(
            Req::Bracket(Req::Eq(0xa).and(Req::Bracket(Req::Eq(1).and(Req::Eq(2)).into())).into())
                .or(Req::Lt(3))
                .into()
        )
    )
}

#[test]
fn u8_input_select_expr() {
    assert_eq!(
        parse_req_expr(b"(>=0x13 && <=0x18) || =0x1A || >=0x1C", 0)
            .unwrap()
            .0,
        Req::Bracket(Req::Ge(0x13).and(Req::Le(0x18)).into()).or(Req::Eq(0x1a).or(Req::Ge(0x1c)))
    )
}

#[test]
fn input_select_matches() {
    let req = parse_requirement::<u8>("(>=0x13 && <=0x18) || =0x1A || >=0x1C").unwrap();
    assert!(req.matches(&0x14));
    assert!(!req.matches(&0x19));
    assert!(req.matches(&0x1A));
    assert!(req.matches(&0x1D));
    assert!(!req.matches(&0x12));
    assert!(req.matches(&0x13));
    assert!(req.matches(&0x18));
    assert!(!req.matches(&0x1B));
    assert!(req.matches(&0xff));
}

#[test]
fn operators_bind_alike_and_to_the_right() {
    let req = parse_requirement::<u8>("1 && 2 || 3").unwrap();
    assert_eq!(req, Req::Eq(1).and(Req::Eq(2).or(Req::Eq(3))));
    assert!(!req.matches(&3));
    assert!(!req.matches(&1));
    let req = parse_requirement::<u8>("1 || 2 && 3").unwrap();
    assert_eq!(req, Req::Eq(1).or(Req::Eq(2).and(Req::Eq(3))));
    assert!(req.matches(&1));
    assert!(!req.matches(&2));
}

#[test]
fn every_comparison() {
    for (text, below, at, above) in [
        ("=5", false, true, false),
        ("5", false, true, false),
        ("<5", true, false, false),
        ("<=5", true, true, false),
        (">5", false, false, true),
        (">=5", false, true, true),
    ] {
        let req = parse_requirement::<u8>(text).unwrap();
        assert_eq!((req.matches(&4), req.matches(&5), req.matches(&6)), (below, at, above));
    }
}

#[test]
fn version_order_is_major_then_minor() {
    let req = parse_requirement::<Version>(">= 2.1 && < 3.0").unwrap();
    assert!(req.matches(&Version::new(2, 1)));
    assert!(req.matches(&Version::new(2, 255)));
    assert!(!req.matches(&Version::new(2, 0)));
    assert!(!req.matches(&Version::new(3, 0)));
    assert!(!req.matches(&Version::new(1, 200)));
    assert!(VersionReq::default().matches(&Version::new(0, 0)));
    assert_eq!(VersionReq::default(), Req::Ge(Version::new(0, 0)));
}

#[test]
fn literals() {
    assert_eq!(parse_u8(b" 0x1f rest", 0).unwrap(), (0x1f, 6));
    assert_eq!(parse_u8(b"0xA", 0).unwrap(), (10, 3));
    assert_eq!(parse_u8(b"0x123", 0).unwrap(), (0x12, 4));
    assert_eq!(parse_u8(b"255", 0).unwrap(), (255, 3));
    assert_eq!(parse_u8(b"007 ", 0).unwrap(), (7, 4));
    assert_eq!(hex_u8(b"fG", 0).unwrap(), (15, 1));
    assert_eq!(parse_version(b" 2 . 10 ", 0).unwrap(), (Version::new(2, 10), 8));
    let err = parse_u8(b"256", 0).unwrap_err();
    assert_eq!((err.kind, err.input), (ErrorKind::InvalidData, &b"256"[..]));
    let err = parse_u8(b"0x", 0).unwrap_err();
    assert_eq!((err.kind, err.input), (ErrorKind::UnexpectedEndOfInput, &b""[..]));
    let err = parse_u8(b"0xg", 0).unwrap_err();
    assert_eq!((err.kind, err.input), (ErrorKind::InvalidData, &b"g"[..]));
    let err = parse_version(b"2", 0).unwrap_err();
    assert_eq!((err.kind, err.input), (ErrorKind::UnexpectedEndOfInput, &b""[..]));
    let err = parse_version(b"2.x", 0).unwrap_err();
    assert_eq!((err.kind, err.input), (ErrorKind::InvalidData, &b"x"[..]));
    let err = parse_version(b"2.300", 0).unwrap_err();
    assert_eq!((err.kind, err.input), (ErrorKind::InvalidData, &b"300"[..]));
    assert_eq!(parse_req::<u8>(b" >= 7", 0).unwrap(), (Req::Ge(7), 5));
}

#[test]
fn malformed_requirements() {
    let err = parse_requirement::<u8>("1 garbage").unwrap_err();
    assert_eq!((err.kind, err.input), (ErrorKind::InvalidData, &b"garbage"[..]));
    let err = parse_requirement::<u8>("(1 && 2").unwrap_err();
    assert_eq!((err.kind, err.input), (ErrorKind::UnexpectedEndOfInput, &b""[..]));
    let err = parse_requirement::<u8>("1 &&").unwrap_err();
    assert_eq!((err.kind, err.input), (ErrorKind::UnexpectedEndOfInput, &b""[..]));
    let err = parse_requirement::<u8>("").unwrap_err();
    assert_eq!((err.kind, err.input), (ErrorKind::UnexpectedEndOfInput, &b""[..]));
    let err = parse_requirement::<u8>("1 & 2").unwrap_err();
    assert_eq!((err.kind, err.input), (ErrorKind::InvalidData, &b"& 2"[..]));
    let err = parse_requirement::<u8>("(1))").unwrap_err();
    assert_eq!((err.kind, err.input), (ErrorKind::InvalidData, &b")"[..]));
    let err = parse_requirement::<u8>(" (1)").unwrap_err();
    assert_eq!((err.kind, err.input), (ErrorKind::InvalidData, &b"(1)"[..]));
    let err = parse_requirement::<Version>("2").unwrap_err();
    assert_eq!((err.kind, err.input), (ErrorKind::UnexpectedEndOfInput, &b""[..]));
}

#[test]
fn requirements_as_text() {
    let req = parse_requirement::<u8>("(>=0x13 && <=0x18) || =0x1A || >=0x1C").unwrap();
    assert_eq!(req.format(), "(>=19 && <=24) || =26 || >=28");
    assert_eq!(parse_requirement::<u8>(&req.format()).unwrap(), req);
    let req = parse_requirement::<Version>("2.1 || (< 3.0 && >2.2)").unwrap();
    assert_eq!(req.format(), "=2.1 || (<3.0 && >2.2)");
    assert_eq!(parse_requirement::<Version>(&req.format()).unwrap(), req);
    assert_eq!(req.clone(), req);
}
