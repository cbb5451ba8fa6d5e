use winereg::error::PrefixError;
use winereg::model::RegistryValue;
use winereg::store::WineRegistry;

#[test]
fn serializer_exact_output() {
    let mut reg = WineRegistry::new();
    reg.set_value("Software\\Wine", "Version", RegistryValue::Str("win10".to_string()))
        .unwrap();
    reg.set_value(
        "Software\\Wine\\Direct3D",
        "csmt",
        RegistryValue::Dword(1),
    )
    .unwrap();
    reg.set_value("Software\\Wine\\Direct3D", "", RegistryValue::Binary(vec![0xab, 0x01]))
        .unwrap();
    let text = reg.serialize();
    assert_eq!(
        text,
        "Windows Registry Editor Version 5.00\n\
         [Software\\Wine]\n\
         \"Version\"=\"win10\"\n\
         [Software\\Wine\\Direct3D]\n\
         \"csmt\"=dword:00000001\n\
         @=hex:ab,01\n"
    );
}

#[test]
fn serializer_escapes_and_variants() {
    let mut reg = WineRegistry::new();
    reg.set_value(
        "Software\\K",
        "sp\\ec\"ial",
        RegistryValue::Str("a\\b\"c".to_string()),
    )
    .unwrap();
    reg.set_value(
        "Software\\K",
        "exp",
        RegistryValue::ExpandStr("%PATH%".to_string()),
    )
    .unwrap();
    reg.set_value(
        "Software\\K",
        "multi",
        RegistryValue::MultiStr(vec!["a".to_string(), "b".to_string()]),
    )
    .unwrap();
    reg.delete_value("Software\\K", "gone").unwrap();
    let text = reg.serialize();
    assert_eq!(
        text,
        "Windows Registry Editor Version 5.00\n\
         [Software\\K]\n\
         \"sp\\\\ec\\\"ial\"=\"a\\\\b\\\"c\"\n\
         \"exp\"=str(2):\"%PATH%\"\n\
         \"multi\"=str(7):\"a\\0b\"\n\
         \"gone\"=-\n"
    );
}

#[test]
fn round_trip_preserves_everything_but_tombstones() {
    // Save-then-load gives back an equal registry, except that slots set
    // to the Delete tombstone are absent afterwards.
    let mut reg = WineRegistry::new();
    reg.set_value("Software\\Wine", "Version", RegistryValue::Str("win10".to_string()))
        .unwrap();
    reg.set_value("Software\\Wine", "", RegistryValue::ExpandStr("%x%".to_string()))
        .unwrap();
    reg.set_value("Software\\Wine\\Direct3D", "csmt", RegistryValue::Dword(0xdeadbeef))
        .unwrap();
    reg.set_value(
        "Software\\Wine\\Direct3D",
        "bin",
        RegistryValue::Binary(vec![]),
    )
    .unwrap();
    reg.set_value(
        "Software\\Wine\\Fonts",
        "list",
        RegistryValue::MultiStr(vec!["one".to_string(), "two".to_string()]),
    )
    .unwrap();
    reg.delete_value("Software\\Wine", "Stale").unwrap();
    reg.delete_key("Software\\Wine\\Gone").unwrap();

    let text = reg.serialize();
    let back = WineRegistry::load_from_str(&text).unwrap();

    assert_eq!(
        back.get_value("Software\\Wine", "Version").unwrap(),
        Some(RegistryValue::Str("win10".to_string()))
    );
    assert_eq!(
        back.get_value("Software\\Wine", "(default)").unwrap(),
        Some(RegistryValue::ExpandStr("%x%".to_string()))
    );
    assert_eq!(
        back.get_value("Software\\Wine\\Direct3D", "csmt").unwrap(),
        Some(RegistryValue::Dword(0xdeadbeef))
    );
    assert_eq!(
        back.get_value("Software\\Wine\\Direct3D", "bin").unwrap(),
        Some(RegistryValue::Binary(vec![]))
    );
    assert_eq!(
        back.get_value("Software\\Wine\\Fonts", "list").unwrap(),
        Some(RegistryValue::MultiStr(vec!["one".to_string(), "two".to_string()]))
    );
    // The tombstoned slot is absent after the round trip.
    assert_eq!(back.get_value("Software\\Wine", "Stale").unwrap(), None);
    // The deleted key survives as a tombstoned key without values.
    assert!(back.key_exists("Software\\Wine\\Gone").unwrap());
    assert!(back.get_key_values("Software\\Wine\\Gone").unwrap().is_empty());

    // Serializing the reloaded registry reproduces the text exactly,
    // except that the tombstoned value line is gone.
    let text2 = back.serialize();
    let reloaded = WineRegistry::load_from_str(&text2).unwrap();
    assert_eq!(reloaded.registry, back.registry);
}

#[test]
fn parser_accepts_comments_blanks_and_crlf() {
    let text = "Windows Registry Editor Version 5.00\r\n\
                \r\n\
                ; a comment line\r\n\
                [Software\\K]\r\n\
                \"a\"=\"1\"\r\n";
    let reg = WineRegistry::load_from_str(text).unwrap();
    assert_eq!(
        reg.get_value("Software\\K", "a").unwrap(),
        Some(RegistryValue::Str("1".to_string()))
    );
}

#[test]
fn parser_rejects_malformed_input() {
    let cases = [
        "",
        "REGEDIT4\n",
        "Windows Registry Editor Version 5.00\n\"a\"=\"1\"\n",
        "Windows Registry Editor Version 5.00\n[Software\\K\n",
        "Windows Registry Editor Version 5.00\n[]\n",
        "Windows Registry Editor Version 5.00\n[K]\n\"a\"=\"1\"\n\"a\"=\"2\"\n",
        "Windows Registry Editor Version 5.00\n[K]\n[K]\n",
        "Windows Registry Editor Version 5.00\n[K]\n\"a\"=dword:123\n",
        "Windows Registry Editor Version 5.00\n[K]\n\"a\"=hex:0\n",
        "Windows Registry Editor Version 5.00\n[K]\n\"a\"=\"unterminated\n",
        "Windows Registry Editor Version 5.00\n[K]\nnonsense\n",
    ];
    for text in cases {
        match WineRegistry::load_from_str(text) {
            Err(PrefixError::Parse(_)) => {},
            other => panic!("expected Parse error for {:?}, got {:?}", text, other.map(|_| ())),
        }
    }
}

#[test]
fn parser_applies_value_tombstones() {
    let text = "Windows Registry Editor Version 5.00\n\
                [Software\\K]\n\
                \"a\"=\"1\"\n\
                \"a\"=-\n";
    let reg = WineRegistry::load_from_str(text).unwrap();
    assert_eq!(reg.get_value("Software\\K", "a").unwrap(), None);
    assert!(reg.get_key_values("Software\\K").unwrap().is_empty());
}

#[test]
fn parser_reads_replace_convention() {
    // A tombstone section directly followed by a live section of the same
    // path reopens the key as a replacement.
    let text = "Windows Registry Editor Version 5.00\n\
                [-Software\\K]\n\
                [Software\\K]\n\
                \"a\"=\"1\"\n";
    let reg = WineRegistry::load_from_str(text).unwrap();
    assert_eq!(
        reg.get_value("Software\\K", "a").unwrap(),
        Some(RegistryValue::Str("1".to_string()))
    );
    // And it round-trips.
    let text2 = reg.serialize();
    assert_eq!(text2, text);
}

#[test]
fn parser_decodes_escapes_and_hex_case() {
    let text = "Windows Registry Editor Version 5.00\n\
                [K]\n\
                \"q\"=\"a\\\\b\\\"c\"\n\
                \"d\"=dword:DEADBEEF\n\
                \"m\"=str(7):\"x\\0y\"\n";
    let reg = WineRegistry::load_from_str(text).unwrap();
    assert_eq!(
        reg.get_value("K", "q").unwrap(),
        Some(RegistryValue::Str("a\\b\"c".to_string()))
    );
    assert_eq!(
        reg.get_value("K", "d").unwrap(),
        Some(RegistryValue::Dword(0xdeadbeef))
    );
    assert_eq!(
        reg.get_value("K", "m").unwrap(),
        Some(RegistryValue::MultiStr(vec!["x".to_string(), "y".to_string()]))
    );
}

#[test]
fn empty_registry_serializes_to_header_only() {
    let reg = WineRegistry::new();
    assert_eq!(reg.serialize(), "Windows Registry Editor Version 5.00\n");
    let back = WineRegistry::load_from_str(&reg.serialize()).unwrap();
    assert!(back.find_keys("").unwrap().is_empty());
}
