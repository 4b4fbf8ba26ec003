use mccs::entries::{Value, ValueParser};

#[test]
fn entries_are_written_as_they_are_read() {
    let e = Value::String { tag: "vcp", value: b"02 14(05 08)" };
    assert_eq!(e.format(), "vcp(02 14(05 08))");
    let e = Value::Binary { tag: "edid", data: b"abc" };
    assert_eq!(e.format(), "edid bin(3(abc))");
    let e = Value::Binary { tag: "edid", data: b"0123456789ab" };
    assert_eq!(e.format(), "edid bin(12(0123456789ab))");
    let e = Value::Binary { tag: "x", data: b"" };
    assert_eq!(e.format(), "x bin(0())");
}

#[test]
fn payload_bytes_are_escaped() {
    let e = Value::String { tag: "t", value: b"a\tb\rc\nd\\e'f\"g\x00h\x7f\xff\x1b~ " };
    assert_eq!(e.format(), "t(a\\tb\\rc\\nd\\\\e\\'f\\\"g\\x00h\\x7f\\xff\\x1b~ )");
    assert_eq!(e.format(), format!("t({})", b"a\tb\rc\nd\\e'f\"g\x00h\x7f\xff\x1b~ ".escape_ascii()));
}

#[test]
fn written_entries_read_back() {
    for data in [
        &b"prot(monitor)"[..],
        &b"vcp(02 04 14(05 08 0B))"[..],
        &b"window1(type (PIP) area(25 25 1895 1175))"[..],
        &b"edid bin(3(abc))"[..],
        &b"cmds()"[..],
    ] {
        let entries = ValueParser::new(data).nom_iter();
        assert_eq!(entries.len(), 1);
        let entry = entries[0].unwrap();
        let text = entry.format();
        assert_eq!(text.as_bytes(), data);
        assert_eq!(ValueParser::new(text.as_bytes()).nom_iter(), vec![Ok(entry)]);
    }
}

#[test]
fn written_sequences_read_back() {
    let data = &b"(prot(monitor)type(LCD)model(ACER)cmds(01 02 03 07 0C E3 F3)vcp(02 04 14(05 08 0B) 60(01 03 11))mswhql(1)asset_eep(40)edid bin(4(abcd))mccs_ver(2.0))"[..];
    let entries: Vec<_> = ValueParser::new(data)
        .nom_iter()
        .into_iter()
        .map(|entry| entry.unwrap())
        .collect();
    assert_eq!(entries.len(), 9);
    let text: String = entries.iter().map(|entry| entry.format()).collect();
    assert_eq!(text.as_bytes(), &data[1..data.len() - 1]);
    assert_eq!(Value::format_all(&entries), text);
    let again: Vec<_> = ValueParser::new(text.as_bytes())
        .nom_iter()
        .into_iter()
        .map(|entry| entry.unwrap())
        .collect();
    assert_eq!(again, entries);
}

#[test]
fn a_bare_model_name_does_not_read_back() {
    let entry = Value::String { tag: "modelXcmds", value: b"01" };
    let text = entry.format();
    assert_eq!(text, "modelXcmds(01)");
    assert_eq!(
        ValueParser::new(text.as_bytes()).nom_iter(),
        vec![
            Ok(Value::String { tag: "model", value: b"X" }),
            Ok(Value::String { tag: "cmds", value: b"01" }),
        ]
    );
}

#[test]
fn all_entries_are_written_in_order() {
    assert_eq!(Value::format_all(&[]), "");
    let entries = [
        Value::String { tag: "type", value: b"lcd" },
        Value::Binary { tag: "edid", data: b"ab" },
        Value::String { tag: "model", value: b"X(1)" },
    ];
    let text = Value::format_all(&entries);
    assert_eq!(text, "type(lcd)edid bin(2(ab))model(X(1))");
    assert_eq!(ValueParser::new(text.as_bytes()).collect().unwrap(), entries);
    let again: Vec<_> = ValueParser::new(text.as_bytes())
        .nom_iter()
        .into_iter()
        .map(|entry| entry.unwrap())
        .collect();
    assert_eq!(again, entries);
}

#[test]
fn a_tag_that_ends_in_cmds_does_not_read_back_after_type() {
    let entries = [
        Value::String { tag: "type", value: b"lcd" },
        Value::String { tag: "Xcmds", value: b"01" },
    ];
    let text = Value::format_all(&entries);
    assert_eq!(
        ValueParser::new(text.as_bytes()).nom_iter(),
        vec![
            Ok(Value::String { tag: "type", value: b"lcd" }),
            Ok(Value::String { tag: "model", value: b"X" }),
            Ok(Value::String { tag: "cmds", value: b"01" }),
        ]
    );
}
