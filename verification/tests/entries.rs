use mccs::entries::{Value, ValueParser};
use mccs::error::{ErrorKind, ParseError};

fn collect(data: &[u8]) -> Result<Vec<Value<'_>>, ParseError<'_>> {
    ValueParser::new(data).collect()
}

#[test]
fn model_hacks() {
    let testdata = [
        (
            &[
                &b"type(lcd)ABCdcmds()"[..],
                &b"type(lcd)modelABCdcmds()"[..],
                &b"type(lcd)model(ABCd)cmds()"[..],
            ][..],
            &[
                Value::String {
                    tag: "type",
                    value: b"lcd",
                },
                Value::String {
                    tag: "model",
                    value: b"ABCd",
                },
                Value::String {
                    tag: "cmds",
                    value: b"",
                },
            ][..],
        ),
        (
            &[&b"type(lcd)cmds()model(ABCd)"[..]][..],
            &[
                Value::String {
                    tag: "type",
                    value: b"lcd",
                },
                Value::String {
                    tag: "cmds",
                    value: b"",
                },
                Value::String {
                    tag: "model",
                    value: b"ABCd",
                },
            ][..],
        ),
    ];

    for (testdatas, expected) in testdata {
        for testdata in testdatas {
            let testdata: Result<Vec<_>, _> = collect(testdata);
            assert_eq!(testdata.unwrap(), expected);
        }
    }
}

#[test]
fn bin_entries() {
    let testdata = b"edid bin(3(\xff) ))vdif bin(3 (abc))unknown bin(2(ab))";
    let expected = [
        Value::Binary {
            tag: "edid",
            data: b"\xff) ",
        },
        Value::Binary {
            tag: "vdif",
            data: b"abc",
        },
        Value::Binary {
            tag: "unknown",
            data: b"ab",
        },
    ];

    let entries: Result<Vec<_>, _> = collect(testdata);
    assert_eq!(entries.unwrap(), expected);
}

#[test]
fn truncated_blob_is_unexpected_end() {
    let err = collect(b"edid bin(5(ab))").unwrap_err();
    assert_eq!(err.kind, ErrorKind::UnexpectedEndOfInput);
    assert_eq!(err.input, b"ab))");
}

#[test]
fn unterminated_payload_is_unexpected_end() {
    let err = collect(b"prot(monitor").unwrap_err();
    assert_eq!(err.kind, ErrorKind::UnexpectedEndOfInput);
    assert_eq!(err.input, b"monitor");
    let err = collect(b"vcp(14(05 08)").unwrap_err();
    assert_eq!(err.kind, ErrorKind::UnexpectedEndOfInput);
    assert_eq!(err.input, b"14(05 08)");
}

#[test]
fn bad_identifier_is_invalid_data() {
    let err = collect(b"prot(monitor)-type(lcd)").unwrap_err();
    assert_eq!(err.kind, ErrorKind::InvalidData);
    assert_eq!(err.input, b"-type(lcd)");
}

#[test]
fn wrapping_parentheses_are_absorbed() {
    for data in [
        &b"prot(monitor)type(lcd)"[..],
        &b"(prot(monitor)type(lcd))"[..],
        &b"((prot(monitor)type(lcd)))"[..],
        &b"((prot(monitor)type(lcd)) \0 )"[..],
    ] {
        let got = collect(data).unwrap();
        assert_eq!(
            got,
            [
                Value::String { tag: "prot", value: b"monitor" },
                Value::String { tag: "type", value: b"lcd" },
            ]
        );
    }
}

#[test]
fn leftover_after_wrapping_is_a_failure() {
    let results = ValueParser::new(b"(prot(monitor)))").nom_iter();
    assert_eq!(results.len(), 2);
    assert_eq!(results[0], Ok(Value::String { tag: "prot", value: b"monitor" }));
    let err = results[1].unwrap_err();
    assert_eq!(err.kind, ErrorKind::InvalidData);
    assert_eq!(err.input, b")");
}

#[test]
fn tokenizer_state_after_each_step() {
    let mut parser = ValueParser::new(b"((a(1))b(2))");
    assert_eq!(parser.brackets, None);
    assert_eq!(parser.next(), Some(Ok(Value::String { tag: "a", value: b"1" })));
    assert_eq!(parser.brackets, Some(1));
    assert_eq!(parser.input, b"b(2))");
    assert_eq!(parser.next(), Some(Ok(Value::String { tag: "b", value: b"2" })));
    assert_eq!(parser.brackets, Some(0));
    assert_eq!(parser.input, b"");
    assert_eq!(parser.next(), None);
}

#[test]
fn nested_payload_is_kept_whole() {
    let got = Value::parse_bytes(b"window1(type (PIP) area(25 25 1895 1175))rest").unwrap();
    assert_eq!(
        got,
        Value::String { tag: "window1", value: b"type (PIP) area(25 25 1895 1175)" }
    );
    let (rest, got) = Value::parse_nom(b" vcp(02 03) tail", None).unwrap();
    assert_eq!(got, Value::String { tag: "vcp", value: b"02 03" });
    assert_eq!(rest, b"tail");
    assert_eq!(Value::parse("mswhql(1)").unwrap().tag(), "mswhql");
}

#[test]
fn blob_length_must_fit() {
    let err = Value::parse_bytes(b"edid bin(4294967296(ab))").unwrap_err();
    assert_eq!(err.kind, ErrorKind::InvalidData);
    assert_eq!(err.input, b"4294967296(ab))");
    let err = Value::parse_bytes(b"edid bin((ab))").unwrap_err();
    assert_eq!(err.kind, ErrorKind::InvalidData);
    assert_eq!(err.input, b"(ab))");
    let got = Value::parse_bytes(b"edid bin( 2\t(ab))").unwrap();
    assert_eq!(got, Value::Binary { tag: "edid", data: b"ab" });
}

#[test]
fn empty_parser_yields_nothing() {
    assert_eq!(Value::nom_parser().nom_iter(), vec![]);
    assert_eq!(Value::parse_capabilities(b"").nom_iter(), vec![]);
}

#[test]
fn a_step_keeps_the_tag_it_read() {
    let mut parser = ValueParser::new(b"(prot(monitor)type(lcd)-bad(1))");
    assert_eq!(parser.previous_tag, None);
    assert_eq!(parser.next(), Some(Ok(Value::String { tag: "prot", value: b"monitor" })));
    assert_eq!(parser.previous_tag, Some("prot"));
    assert_eq!(parser.next(), Some(Ok(Value::String { tag: "type", value: b"lcd" })));
    assert_eq!(parser.previous_tag, Some("type"));
    let before = parser.clone();
    let first = parser.next().unwrap().unwrap_err();
    assert_eq!((first.kind, first.input), (ErrorKind::InvalidData, &b"-bad(1))"[..]));
    assert_eq!(parser, before);
    assert_eq!(parser.previous_tag, Some("type"));
    let second = parser.nom_result().unwrap_err();
    assert_eq!(second, first);
    assert_eq!(parser, before);
    assert_eq!(parser.nom().unwrap_err(), first);
    assert_eq!(parser, before);
}

#[test]
fn a_failed_first_step_only_counts_the_parentheses() {
    let mut parser = ValueParser::new(b"((-bad(1)))");
    let err = parser.next().unwrap().unwrap_err();
    assert_eq!((err.kind, err.input), (ErrorKind::InvalidData, &b"-bad(1)))"[..]));
    assert_eq!(parser.input, b"-bad(1)))");
    assert_eq!(parser.brackets, Some(2));
    assert_eq!(parser.previous_tag, None);
}

#[test]
fn equal_tokenizers_step_alike() {
    for data in [
        &b"(prot(monitor)type(lcd)27UD58cmds(01 02)edid bin(2(ab)))"[..],
        &b"type(lcd)model(x)broken"[..],
        &b""[..],
    ] {
        let mut first = ValueParser::new(data);
        let mut second = ValueParser::new(data);
        loop {
            assert_eq!(first, second);
            let (a, b) = (first.next(), second.next());
            assert_eq!(a, b);
            assert_eq!(first, second);
            match a {
                Some(Ok(_)) => {},
                _ => break,
            }
        }
    }
}

#[test]
fn collecting_agrees_with_the_results_one_by_one() {
    for data in [
        &b"(prot(monitor)type(lcd)27UD58cmds(01 02)edid bin(2(ab)))"[..],
        &b"type(lcd)model(x)broken"[..],
        &b"prot(monitor)edid bin(5(ab))"[..],
        &b""[..],
    ] {
        let one_by_one: Result<Vec<_>, _> = ValueParser::new(data).nom_iter().into_iter().collect();
        assert_eq!(ValueParser::new(data).collect(), one_by_one);
    }
    let err = ValueParser::new(b"a(1)b(2").collect().unwrap_err();
    assert_eq!((err.kind, err.input), (ErrorKind::UnexpectedEndOfInput, &b"2"[..]));
}
