use winereg::error::PrefixError;
use winereg::model::{RegistryValue, ValueName};
use winereg::store::WineRegistry;

#[test]
fn default_and_named_slots_are_independent() {
    // The default slot and a named slot never overwrite one another.
    let mut reg = WineRegistry::new();
    reg.set_value("Software\\K", "", RegistryValue::Str("default-val".to_string()))
        .unwrap();
    reg.set_value(
        "Software\\K",
        "SomeName",
        RegistryValue::Str("named-val".to_string()),
    )
    .unwrap();

    assert_eq!(
        reg.get_value("Software\\K", "(default)").unwrap(),
        Some(RegistryValue::Str("default-val".to_string()))
    );
    assert_eq!(
        reg.get_value("Software\\K", "SomeName").unwrap(),
        Some(RegistryValue::Str("named-val".to_string()))
    );

    // Overwriting one leaves the other alone.
    reg.set_value("Software\\K", "(default)", RegistryValue::Dword(7))
        .unwrap();
    assert_eq!(
        reg.get_value("Software\\K", "").unwrap(),
        Some(RegistryValue::Dword(7))
    );
    assert_eq!(
        reg.get_value("Software\\K", "SomeName").unwrap(),
        Some(RegistryValue::Str("named-val".to_string()))
    );
}

#[test]
fn exact_key_path_matching() {
    let mut reg = WineRegistry::new();
    reg.set_value("Software\\Wine", "a", RegistryValue::Dword(1))
        .unwrap();
    assert_eq!(reg.get_value("software\\wine", "a").unwrap(), None);
    assert_eq!(reg.get_value("Software\\Wine\\", "a").unwrap(), None);
    assert!(reg.key_exists("Software\\Wine").unwrap());
    assert!(!reg.key_exists("Software").unwrap());
}

#[test]
fn find_keys_by_substring() {
    let mut reg = WineRegistry::new();
    reg.set_value("Software\\Wine\\Direct3D", "a", RegistryValue::Dword(1))
        .unwrap();
    reg.set_value("Software\\Wine\\Mac Driver", "b", RegistryValue::Dword(2))
        .unwrap();
    reg.set_value("Control Panel\\Desktop", "c", RegistryValue::Dword(3))
        .unwrap();

    let all = reg.find_keys("").unwrap();
    assert_eq!(all.len(), 3);

    let wine = reg.find_keys("Wine").unwrap();
    assert_eq!(wine.len(), 2);

    let driver = reg.find_keys("Driver").unwrap();
    assert_eq!(driver, vec!["Software\\Wine\\Mac Driver".to_string()]);

    assert!(reg.find_keys("zzz").unwrap().is_empty());
}

#[test]
fn get_key_values_renders_default_slot() {
    let mut reg = WineRegistry::new();
    reg.set_value("Software\\K", "", RegistryValue::Str("d".to_string()))
        .unwrap();
    reg.set_value("Software\\K", "n", RegistryValue::Dword(3))
        .unwrap();
    let values = reg.get_key_values("Software\\K").unwrap();
    assert_eq!(values.len(), 2);
    assert_eq!(values[0].name, "(default)");
    assert_eq!(values[0].value, RegistryValue::Str("d".to_string()));
    assert_eq!(values[1].name, "n");
    assert!(reg.get_key_values("Software\\Absent").unwrap().is_empty());
}

#[test]
fn delete_value_writes_tombstone() {
    let mut reg = WineRegistry::new();
    reg.set_value("Software\\K", "n", RegistryValue::Dword(3))
        .unwrap();
    reg.delete_value("Software\\K", "n").unwrap();
    // The tombstone is visible in memory; removal happens at save time.
    assert_eq!(
        reg.get_value("Software\\K", "n").unwrap(),
        Some(RegistryValue::Delete)
    );
}

#[test]
fn delete_key_drops_values() {
    let mut reg = WineRegistry::new();
    reg.set_value("Software\\K", "n", RegistryValue::Dword(3))
        .unwrap();
    reg.delete_key("Software\\K").unwrap();
    assert!(reg.key_exists("Software\\K").unwrap());
    assert_eq!(reg.get_value("Software\\K", "n").unwrap(), None);
    assert!(reg.get_key_values("Software\\K").unwrap().is_empty());
}

#[test]
fn same_slot_identity() {
    let a = ValueName::Default;
    let b = ValueName::Named("".to_string());
    // The default slot is distinct from a named slot called "".
    assert!(!a.same_slot(&b));
    assert!(a.same_slot(&ValueName::Default));
    assert!(ValueName::Named("x".to_string()).same_slot(&ValueName::Named("x".to_string())));
}

fn reg_text(body: &str) -> String {
    format!("Windows Registry Editor Version 5.00\n{}", body)
}

#[test]
fn precedence_user_replaces_wholesale() {
    // system.reg has key A, userdef.reg key B, user.reg key C: the result
    // holds only C, never a union.
    let system = reg_text("[A]\n\"x\"=\"1\"\n");
    let userdef = reg_text("[B]\n\"x\"=\"2\"\n");
    let user = reg_text("[C]\n\"x\"=\"3\"\n");

    let reg = WineRegistry::load_from_prefix_texts(
        "/prefix",
        Some(&system),
        Some(&userdef),
        Some(&user),
    )
    .unwrap();
    let keys = reg.find_keys("").unwrap();
    assert_eq!(keys, vec!["C".to_string()]);
    assert_eq!(reg.path(), Some(&"/prefix".to_string()));
}

#[test]
fn precedence_fallbacks() {
    let system = reg_text("[A]\n\"x\"=\"1\"\n");
    let userdef = reg_text("[B]\n\"x\"=\"2\"\n");

    // user.reg and userdef.reg absent: exactly system.reg's content.
    let only_system =
        WineRegistry::load_from_prefix_texts("/p", Some(&system), None, None).unwrap();
    assert_eq!(only_system.find_keys("").unwrap(), vec!["A".to_string()]);

    // Only system.reg absent: userdef.reg's content.
    let userdef_wins =
        WineRegistry::load_from_prefix_texts("/p", None, Some(&userdef), None).unwrap();
    assert_eq!(userdef_wins.find_keys("").unwrap(), vec!["B".to_string()]);

    // A system file with zero keys is replaced wholesale by userdef.reg.
    let empty_system = reg_text("");
    let replaced = WineRegistry::load_from_prefix_texts(
        "/p",
        Some(&empty_system),
        Some(&userdef),
        None,
    )
    .unwrap();
    assert_eq!(replaced.find_keys("").unwrap(), vec!["B".to_string()]);

    // A system file with keys is kept over userdef.reg when user.reg is
    // absent.
    let kept = WineRegistry::load_from_prefix_texts("/p", Some(&system), Some(&userdef), None)
        .unwrap();
    assert_eq!(kept.find_keys("").unwrap(), vec!["A".to_string()]);
}

#[test]
fn no_valid_registry_files_is_an_error() {
    let broken = "not a registry at all";
    match WineRegistry::load_from_prefix_texts("/p", Some(broken), None, None) {
        Err(PrefixError::NotFound(_)) => {},
        other => panic!("expected NotFound, got {:?}", other.map(|_| ())),
    }
    match WineRegistry::load_from_prefix_texts("/p", None, None, None) {
        Err(PrefixError::NotFound(_)) => {},
        other => panic!("expected NotFound, got {:?}", other.map(|_| ())),
    }
}

#[test]
fn unparseable_file_is_skipped() {
    // A present-but-unparseable user.reg is treated as absent.
    let system = reg_text("[A]\n\"x\"=\"1\"\n");
    let garbage = "garbage";
    let reg = WineRegistry::load_from_prefix_texts("/p", Some(&system), None, Some(garbage))
        .unwrap();
    assert_eq!(reg.find_keys("").unwrap(), vec!["A".to_string()]);
}
