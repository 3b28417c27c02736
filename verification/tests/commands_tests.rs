use brave_shields_cli::commands::{get, list, reset};
use brave_shields_cli::error::CliError;
use brave_shields_cli::json::JsonValue;
use brave_shields_cli::preferences::get_exception_entries;

fn s(x: &str) -> JsonValue {
    JsonValue::Str(x.to_string())
}

fn obj(members: Vec<(&str, JsonValue)>) -> JsonValue {
    JsonValue::Object(members.into_iter().map(|(k, v)| (k.to_string(), v)).collect())
}

fn entry(setting: i64, lm: &str) -> JsonValue {
    obj(vec![("last_modified", s(lm)), ("setting", JsonValue::Int(setting))])
}

fn prefs(exceptions: Vec<(&str, JsonValue)>) -> JsonValue {
    obj(vec![("profile", obj(vec![("content_settings", obj(vec![("exceptions", obj(exceptions))]))]))])
}

fn value_of(rows: &[(String, String)], name: &str) -> String {
    rows.iter().find(|r| r.0 == name).unwrap().1.clone()
}

fn setting_at(p: &JsonValue, key: &str, pattern: &str) -> Option<i64> {
    get_exception_entries(p, key)?.get(pattern)?.get("setting")?.as_i64()
}

fn do_set(p: &mut JsonValue, domain: &str, setting: &str, value: &str) {
    let plan = brave_shields_cli::commands::set::run(domain, setting, value).unwrap();
    brave_shields_cli::commands::set::apply(p, plan);
}

#[test]
fn get_reads_overrides_and_defaults() {
    let p = prefs(vec![
        ("braveShields", obj(vec![("example.com,*", entry(2, "123"))])),
        ("fingerprintingV2", obj(vec![("example.com,*", entry(1, "123"))])),
    ]);
    let rows = get::run(&p, "example.com").unwrap();
    assert_eq!(value_of(&rows, "shields"), "off");
    assert_eq!(value_of(&rows, "fingerprinting"), "disabled");
    assert_eq!(value_of(&rows, "ads"), "default");
    let rows = get::run(&obj(vec![]), "example.com").unwrap();
    for name in ["shields", "ads", "fingerprinting", "https-upgrade", "scripts"] {
        assert_eq!(value_of(&rows, name), "default");
    }
    assert!(matches!(get::run(&p, ""), Err(CliError::EmptyDomain)));
}

#[test]
fn unknown_stored_values_show_as_unknown() {
    let p = prefs(vec![("braveShields", obj(vec![("example.com,*", entry(9, "1"))]))]);
    assert_eq!(value_of(&get::run(&p, "example.com").unwrap(), "shields"), "unknown");
}

#[test]
fn set_writes_each_setting() {
    let mut p = obj(vec![]);
    do_set(&mut p, "example.com", "shields", "off");
    assert_eq!(setting_at(&p, "braveShields", "example.com,*"), Some(2));
    do_set(&mut p, "example.com", "https-upgrade", "strict");
    assert_eq!(setting_at(&p, "httpsUpgrades", "example.com,*"), Some(2));
    do_set(&mut p, "example.com", "ads", "disabled");
    assert_eq!(setting_at(&p, "shieldsAds", "example.com,*"), Some(1));
    assert_eq!(setting_at(&p, "trackers", "example.com,*"), Some(1));
    let cf = get_exception_entries(&p, "cosmeticFilteringV2").unwrap().get("example.com,*").unwrap();
    assert_eq!(cf.get("setting").unwrap().get("cosmeticFilteringV2").unwrap().as_i64(), Some(0));
}

#[test]
fn set_overwrites_and_keeps_other_domains() {
    let mut p = prefs(vec![("braveShields", obj(vec![("other.com,*", entry(1, "100")), ("example.com,*", entry(1, "100"))]))]);
    do_set(&mut p, "example.com", "shields", "off");
    assert_eq!(setting_at(&p, "braveShields", "example.com,*"), Some(2));
    assert_eq!(setting_at(&p, "braveShields", "other.com,*"), Some(1));
}

#[test]
fn set_stamps_a_decimal_time() {
    let plan = brave_shields_cli::commands::set::run("example.com", "shields", "on").unwrap();
    assert!(!plan.timestamp.is_empty());
    assert!(plan.timestamp.chars().all(|c| c.is_ascii_digit()));
    assert_eq!(plan.pattern, "example.com,*");
}

#[test]
fn set_checks_name_value_then_domain() {
    assert!(matches!(brave_shields_cli::commands::set::run("bad domain", "cookies", "on"), Err(CliError::UnknownSetting { .. })));
    match brave_shields_cli::commands::set::run("bad domain", "shields", "maybe") {
        Err(e) => assert_eq!(e.message(), "invalid value 'maybe' for shields. Valid values: on, off"),
        Ok(_) => panic!("accepted a bad value"),
    }
    assert!(matches!(brave_shields_cli::commands::set::run("bad domain", "shields", "on"), Err(CliError::InvalidDomain { .. })));
}

#[test]
fn set_then_get_and_reset() {
    let mut p = obj(vec![]);
    do_set(&mut p, "example.com", "shields", "off");
    assert_eq!(value_of(&get::run(&p, "example.com").unwrap(), "shields"), "off");
    let plan = reset::run("example.com", None).unwrap();
    reset::apply(&mut p, &plan);
    assert_eq!(value_of(&get::run(&p, "example.com").unwrap(), "shields"), "default");
}

#[test]
fn reset_one_setting_keeps_the_others() {
    let mut p = prefs(vec![
        ("braveShields", obj(vec![("example.com,*", entry(2, "1"))])),
        ("fingerprintingV2", obj(vec![("example.com,*", entry(1, "2"))])),
    ]);
    let plan = reset::run("example.com", Some("fingerprinting")).unwrap();
    reset::apply(&mut p, &plan);
    assert_eq!(setting_at(&p, "fingerprintingV2", "example.com,*"), None);
    assert_eq!(setting_at(&p, "braveShields", "example.com,*"), Some(2));
}

#[test]
fn reset_ads_removes_all_three() {
    let mut p = prefs(vec![
        ("cosmeticFilteringV2", obj(vec![("example.com,*", obj(vec![("last_modified", s("1")), ("setting", obj(vec![("cosmeticFilteringV2", JsonValue::Int(2))]))]))])),
        ("shieldsAds", obj(vec![("example.com,*", entry(2, "1"))])),
        ("trackers", obj(vec![("example.com,*", entry(2, "1"))])),
    ]);
    let plan = reset::run("example.com", Some("ads")).unwrap();
    reset::apply(&mut p, &plan);
    for key in ["shieldsAds", "trackers", "cosmeticFilteringV2"] {
        assert!(get_exception_entries(&p, key).unwrap().get("example.com,*").is_none());
    }
    let mut empty = obj(vec![]);
    let plan = reset::run("nonexistent.com", None).unwrap();
    reset::apply(&mut empty, &plan);
}

#[test]
fn raw_patterns() {
    let mut p = obj(vec![]);
    let plan = brave_shields_cli::commands::set::run_pattern("*,*", "shields", "off").unwrap();
    brave_shields_cli::commands::set::apply(&mut p, plan);
    assert_eq!(setting_at(&p, "braveShields", "*,*"), Some(2));
    assert_eq!(value_of(&get::run_pattern(&p, "*,*"), "shields"), "off");
    let plan = reset::run_pattern("*,*", None).unwrap();
    reset::apply(&mut p, &plan);
    assert_eq!(setting_at(&p, "braveShields", "*,*"), None);
}

#[test]
fn list_groups_by_domain_in_order() {
    let p = prefs(vec![
        ("braveShields", obj(vec![("b.com,*", entry(1, "2")), ("a.com,*", entry(2, "1")), ("example.com,*", entry(2, "1"))])),
        ("fingerprintingV2", obj(vec![("c.com,*", entry(1, "3")), ("example.com,*", entry(1, "2"))])),
    ]);
    let listed = list::run(&p);
    let domains: Vec<&str> = listed.iter().map(|d| d.domain.as_str()).collect();
    assert_eq!(domains, vec!["a.com", "b.com", "c.com", "example.com"]);
    let ex = &listed[3];
    assert_eq!(ex.overrides, vec![("fingerprinting".to_string(), "disabled".to_string()), ("shields".to_string(), "off".to_string())]);
    assert!(list::run(&obj(vec![])).is_empty());
}

#[test]
fn multiple_sets_then_list() {
    let mut p = obj(vec![]);
    do_set(&mut p, "example.com", "shields", "off");
    do_set(&mut p, "example.com", "fingerprinting", "aggressive");
    do_set(&mut p, "example.com", "scripts", "block");
    let listed = list::run(&p);
    assert_eq!(listed.len(), 1);
    assert_eq!(listed[0].domain, "example.com");
    assert_eq!(
        listed[0].overrides,
        vec![
            ("fingerprinting".to_string(), "aggressive".to_string()),
            ("scripts".to_string(), "block".to_string()),
            ("shields".to_string(), "off".to_string()),
        ]
    );
}

#[test]
fn list_agrees_with_get() {
    let mut p = prefs(vec![
        ("braveShields", obj(vec![("a.com,*", entry(2, "1")), ("[*.]b.com", entry(1, "1"))])),
        ("httpsUpgrades", obj(vec![("a.com,*", entry(9, "1"))])),
    ]);
    do_set(&mut p, "a.com", "ads", "aggressive");
    do_set(&mut p, "c.com", "https-upgrade", "strict");
    let listed = list::run(&p);
    for d in ["a.com", "c.com"] {
        let rows = get::run(&p, d).unwrap();
        let shown = &listed.iter().find(|x| x.domain == d).unwrap().overrides;
        for (name, value) in rows.iter() {
            if value != "default" && value != "unknown" {
                assert!(shown.contains(&(name.clone(), value.clone())));
            }
        }
    }
    let a = &listed.iter().find(|x| x.domain == "a.com").unwrap().overrides;
    assert_eq!(a, &vec![("ads".to_string(), "aggressive".to_string()), ("shields".to_string(), "off".to_string())]);
    assert!(listed.iter().all(|x| x.domain != "[*.]b.com" && x.domain != "b.com"));
}
