use brave_shields_cli::error::CliError;
use brave_shields_cli::json::JsonValue;
use brave_shields_cli::platform::{Channel, Platform};
use brave_shields_cli::preferences::{
    brave_process_names, brave_running, get_exception_entries, get_exception_entries_mut, get_exceptions,
    insert_exception, remove_exception, running_decision, check_brave_not_running,
};

fn s(x: &str) -> JsonValue {
    JsonValue::Str(x.to_string())
}

fn obj(members: Vec<(&str, JsonValue)>) -> JsonValue {
    JsonValue::Object(members.into_iter().map(|(k, v)| (k.to_string(), v)).collect())
}

fn entry(setting: i64, lm: &str) -> JsonValue {
    obj(vec![("setting", JsonValue::Int(setting)), ("last_modified", s(lm))])
}

fn prefs_with(key: &str, members: Vec<(&str, JsonValue)>) -> JsonValue {
    obj(vec![("profile", obj(vec![("content_settings", obj(vec![("exceptions", obj(vec![(key, obj(members))]))]))]))])
}

fn setting_at(prefs: &JsonValue, key: &str, pattern: &str) -> Option<i64> {
    get_exception_entries(prefs, key)?.get(pattern)?.get("setting")?.as_i64()
}

#[test]
fn test_read_exceptions() {
    let prefs = prefs_with("braveShields", vec![("example.com,*", obj(vec![("last_modified", s("123")), ("setting", JsonValue::Int(2))]))]);
    let entries = get_exception_entries(&prefs, "braveShields").unwrap();
    assert!(entries.get("example.com,*").is_some());
    assert_eq!(setting_at(&prefs, "braveShields", "example.com,*"), Some(2));
}

#[test]
fn test_write_new_entry() {
    let mut prefs = obj(vec![]);
    insert_exception(&mut prefs, "braveShields", "example.com,*".to_string(), entry(2, "123"));
    assert_eq!(setting_at(&prefs, "braveShields", "example.com,*"), Some(2));
}

#[test]
fn test_write_preserves_existing() {
    let mut prefs = prefs_with("braveShields", vec![("existing.com,*", entry(1, "100"))]);
    insert_exception(&mut prefs, "braveShields", "new.com,*".to_string(), entry(2, "200"));
    assert_eq!(setting_at(&prefs, "braveShields", "existing.com,*"), Some(1));
    assert_eq!(setting_at(&prefs, "braveShields", "new.com,*"), Some(2));
}

#[test]
fn test_create_missing_intermediates() {
    let mut prefs = obj(vec![("some_other_key", JsonValue::Bool(true))]);
    insert_exception(&mut prefs, "braveShields", "test.com,*".to_string(), entry(1, "0"));
    assert!(prefs.pointer("/profile/content_settings/exceptions/braveShields/test.com,*").is_some());
    assert!(matches!(prefs.get("some_other_key"), Some(JsonValue::Bool(true))));
}

#[test]
fn test_cosmetic_filtering_nested_format() {
    let mut prefs = obj(vec![]);
    insert_exception(
        &mut prefs,
        "cosmeticFilteringV2",
        "example.com,*".to_string(),
        obj(vec![("last_modified", s("123")), ("setting", obj(vec![("cosmeticFilteringV2", JsonValue::Int(2))]))]),
    );
    let entries = get_exception_entries(&prefs, "cosmeticFilteringV2").unwrap();
    let setting = entries.get("example.com,*").unwrap().get("setting").unwrap();
    assert_eq!(setting.get("cosmeticFilteringV2").unwrap().as_i64(), Some(2));
}

// ---- further cases of this library ----

#[test]
fn exceptions_need_objects_along_the_path() {
    assert!(get_exceptions(&obj(vec![])).is_none());
    let not_object = obj(vec![("profile", obj(vec![("content_settings", obj(vec![("exceptions", JsonValue::Int(1))]))]))]);
    assert!(get_exceptions(&not_object).is_none());
    let mut prefs = not_object;
    let entries = get_exception_entries_mut(&mut prefs, "javascript");
    assert!(entries.is_object());
    assert!(get_exception_entries(&prefs, "javascript").is_some());
}

#[test]
fn remove_exception_leaves_other_patterns() {
    let mut prefs = prefs_with("braveShields", vec![("a.com,*", entry(2, "1")), ("b.com,*", entry(1, "2"))]);
    remove_exception(&mut prefs, "braveShields", "a.com,*");
    assert_eq!(setting_at(&prefs, "braveShields", "a.com,*"), None);
    assert_eq!(setting_at(&prefs, "braveShields", "b.com,*"), Some(1));
}

#[test]
fn process_names_per_platform() {
    assert_eq!(brave_process_names(Channel::Release, Platform::Linux), vec!["brave-browser"]);
    assert_eq!(brave_process_names(Channel::Dev, Platform::MacOs), vec!["Brave Browser Development"]);
    assert!(brave_process_names(Channel::Beta, Platform::Other).is_empty());
}

#[test]
fn running_browser_blocks_writes_unless_forced() {
    let procs = vec!["bash".to_string(), "brave-browser-beta".to_string()];
    assert!(brave_running(&procs, Channel::Beta, Platform::Linux));
    assert!(!brave_running(&procs, Channel::Release, Platform::Linux));
    match running_decision(&procs, Channel::Beta, Platform::Linux, false) {
        Err(e) => {
            assert!(matches!(e, CliError::BraveRunning { channel: Channel::Beta }));
            assert_eq!(e.message(), "Brave Beta is running. Quit the browser first, or use --force to write anyway.");
        }
        Ok(_) => panic!("allowed a write while running"),
    }
    assert_eq!(running_decision(&procs, Channel::Beta, Platform::Linux, true).unwrap(), true);
    assert_eq!(running_decision(&procs, Channel::Release, Platform::Linux, false).unwrap(), false);
}

#[test]
fn running_check_on_unsupported_platform_and_forced() {
    for c in [Channel::Release, Channel::Beta, Channel::Nightly, Channel::Dev] {
        assert!(matches!(check_brave_not_running(c, Platform::Other, false), Ok(false)));
        assert!(matches!(check_brave_not_running(c, Platform::Other, true), Ok(false)));
        assert!(check_brave_not_running(c, Platform::Linux, true).is_ok());
    }
}
