use nvproton::CoreError;
use nvproton::profile::ProfileDocument;
use nvproton::profile::ProfileManager;
use nvproton::profile::ResolveWalk;
use nvproton::settings::SettingValue;
use nvproton::settings::SettingsMap;

fn doc(name: &str, extends: Option<&str>) -> ProfileDocument {
    let mut d = ProfileDocument::new(name.to_string());
    d.extends = extends.map(|e| e.to_string());
    d
}

fn set_int(m: &mut SettingsMap, key: &str, v: i64) {
    m.set_entry(key, SettingValue::Int(v));
}

fn get<'a>(m: &'a SettingsMap, key: &str) -> Option<&'a SettingValue> {
    m.get(key)
}

#[test]
fn nested_merge_preserves_ancestor_keys() {
    // profile A: {x: 1, y: {a: 1}}; profile B extends A: {y: {b: 2}}
    let mut a = doc("A", None);
    set_int(&mut a.settings, "x", 1);
    let mut a_y = SettingsMap::new();
    set_int(&mut a_y, "a", 1);
    a.settings.set_entry("y", SettingValue::Mapping(a_y));

    let mut b = doc("B", Some("A"));
    let mut b_y = SettingsMap::new();
    set_int(&mut b_y, "b", 2);
    b.settings.set_entry("y", SettingValue::Mapping(b_y));

    let mut walk = ResolveWalk::begin("B");
    assert_eq!(walk.needed().as_deref(), Some("B"));
    walk.feed(b).expect("chain continues");
    assert_eq!(walk.needed().as_deref(), Some("A"));
    walk.feed(a).expect("chain ends");
    assert!(walk.is_complete());
    let resolved = walk.finish();
    assert_eq!(resolved.name, "B");

    let settings = match resolved.settings {
        SettingValue::Mapping(m) => m,
        _ => panic!("resolved settings are a mapping"),
    };
    assert!(matches!(get(&settings, "x"), Some(SettingValue::Int(1))));
    let y = match get(&settings, "y") {
        Some(SettingValue::Mapping(y)) => y,
        _ => panic!("y stays a mapping"),
    };
    assert!(matches!(get(y, "a"), Some(SettingValue::Int(1))));
    assert!(matches!(get(y, "b"), Some(SettingValue::Int(2))));
}

#[test]
fn child_value_overrides_ancestor() {
    let mut a = doc("A", None);
    set_int(&mut a.settings, "x", 1);
    let mut b = doc("B", Some("A"));
    set_int(&mut b.settings, "x", 9);

    let mut walk = ResolveWalk::begin("B");
    walk.feed(b).expect("feed B");
    walk.feed(a).expect("feed A");
    let resolved = walk.finish();
    let settings = match resolved.settings {
        SettingValue::Mapping(m) => m,
        _ => panic!("mapping"),
    };
    assert!(matches!(get(&settings, "x"), Some(SettingValue::Int(9))));
}

#[test]
fn self_extension_is_a_cycle() {
    // profile C extends C must fail with CycleDetected, not loop
    let c = doc("C", Some("C"));
    let mut walk = ResolveWalk::begin("C");
    let r = walk.feed(c);
    assert!(matches!(r, Err(CoreError::CycleDetected)));
    assert!(walk.has_cycle());
    assert!(walk.needed().is_none());
}

#[test]
fn longer_cycle_is_detected() {
    let a = doc("A", Some("B"));
    let b = doc("B", Some("A"));
    let mut walk = ResolveWalk::begin("A");
    walk.feed(a).expect("first link");
    let r = walk.feed(b);
    assert!(matches!(r, Err(CoreError::CycleDetected)));
}

#[test]
fn updates_nested_values() {
    let mut document = ProfileDocument::new("test".into());
    document
        .apply_sets(&vec![
            ("graphics.fsr".into(), "balanced".into()),
            ("audio.volume".into(), "90".into()),
        ])
        .expect("apply sets");
    let graphics = match document.settings.get("graphics") {
        Some(SettingValue::Mapping(m)) => m,
        _ => panic!("graphics is a mapping"),
    };
    match graphics.get("fsr") {
        Some(SettingValue::Str(v)) => assert_eq!(v, "balanced"),
        _ => panic!("fsr holds a string"),
    }
}

#[test]
fn set_on_scalar_path_conflicts() {
    let mut m = SettingsMap::new();
    m.set_entry("a", SettingValue::Str("scalar".to_string()));
    let r = m.set_nested_value("a.b", SettingValue::Str("x".to_string()));
    assert!(matches!(r, Err(CoreError::ParseError)));
    // nothing changed
    assert!(matches!(m.get("a"), Some(SettingValue::Str(_))));
}

#[test]
fn manager_paths() {
    let pm = ProfileManager::new("/cfg/profiles".to_string());
    assert_eq!(pm.path_for("performance"), "/cfg/profiles/performance.yaml");
}
