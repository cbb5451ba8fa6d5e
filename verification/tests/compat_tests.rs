//! Cross-checks against the regashii crate, which reads and writes the
//! same registry dialect.

use winereg::model::RegistryValue;
use winereg::store::WineRegistry;

#[test]
fn regashii_reads_our_output() {
    let mut reg = WineRegistry::new();
    reg.set_value("Software\\Wine", "Version", RegistryValue::Str("win10".to_string()))
        .unwrap();
    reg.set_value("Software\\Wine\\Direct3D", "csmt", RegistryValue::Dword(1))
        .unwrap();
    reg.set_value(
        "Software\\Wine\\Direct3D",
        "bin",
        RegistryValue::Binary(vec![0xab, 0x01]),
    )
    .unwrap();
    reg.delete_key("Software\\Wine\\Gone").unwrap();

    let text = reg.serialize();
    let parsed = regashii::Registry::deserialize(&text).unwrap();

    let wine_key = parsed
        .keys()
        .get(&regashii::KeyName::new("Software\\Wine"))
        .unwrap();
    assert_eq!(
        wine_key.values().get(&regashii::ValueName::named("Version")),
        Some(&regashii::Value::Sz("win10".to_string()))
    );

    let d3d_key = parsed
        .keys()
        .get(&regashii::KeyName::new("Software\\Wine\\Direct3D"))
        .unwrap();
    assert_eq!(
        d3d_key.values().get(&regashii::ValueName::named("csmt")),
        Some(&regashii::Value::Dword(1))
    );
    assert_eq!(
        d3d_key.values().get(&regashii::ValueName::named("bin")),
        Some(&regashii::Value::Binary(vec![0xab, 0x01]))
    );

    let gone = parsed
        .keys()
        .get(&regashii::KeyName::new("Software\\Wine\\Gone"))
        .unwrap();
    assert_eq!(gone.kind(), regashii::KeyKind::Delete);
}

#[test]
fn we_read_regashii_output() {
    let source = regashii::Registry::new(regashii::Format::Regedit5)
        .with(
            "Software\\Wine",
            regashii::Key::new()
                .with(regashii::ValueName::named("Version"), regashii::Value::Sz("win7".into()))
                .with(regashii::ValueName::Default, regashii::Value::Sz("root".into()))
                .with(regashii::ValueName::named("n"), regashii::Value::Dword(0xff))
                .with(
                    regashii::ValueName::named("b"),
                    regashii::Value::Binary(vec![1, 2, 3]),
                ),
        )
        .with("Software\\Wine\\Dead", regashii::Key::deleted());

    let text = source.serialize();
    let reg = WineRegistry::load_from_str(&text).unwrap();

    assert_eq!(
        reg.get_value("Software\\Wine", "Version").unwrap(),
        Some(RegistryValue::Str("win7".to_string()))
    );
    assert_eq!(
        reg.get_value("Software\\Wine", "(default)").unwrap(),
        Some(RegistryValue::Str("root".to_string()))
    );
    assert_eq!(
        reg.get_value("Software\\Wine", "n").unwrap(),
        Some(RegistryValue::Dword(0xff))
    );
    assert_eq!(
        reg.get_value("Software\\Wine", "b").unwrap(),
        Some(RegistryValue::Binary(vec![1, 2, 3]))
    );
    assert!(reg.key_exists("Software\\Wine\\Dead").unwrap());
    assert!(reg.get_key_values("Software\\Wine\\Dead").unwrap().is_empty());
}
