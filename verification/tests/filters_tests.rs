use brave_shields_cli::commands::filters::{
    add_rule, clear_rules, load_rules, normalize_rule, remove_rule, run_list, write_all_filters,
};
use brave_shields_cli::error::CliError;
use brave_shields_cli::json::JsonValue;
use brave_shields_cli::local_state::get_custom_filters;

fn s(x: &str) -> JsonValue {
    JsonValue::Str(x.to_string())
}

fn obj(members: Vec<(&str, JsonValue)>) -> JsonValue {
    JsonValue::Object(members.into_iter().map(|(k, v)| (k.to_string(), v)).collect())
}

fn local_state_with_filters(filters: &str) -> JsonValue {
    obj(vec![
        ("brave", obj(vec![("ad_block", obj(vec![("custom_filters", s(filters))]))])),
        ("profile", obj(vec![("info_cache", obj(vec![("Default", obj(vec![("name", s("Test Profile"))]))])), ("last_used", s("Default"))])),
    ])
}

fn filters_text(ls: &JsonValue) -> String {
    ls.pointer("/brave/ad_block/custom_filters").unwrap().as_str().unwrap().clone()
}

fn strings(v: &[&str]) -> Vec<String> {
    v.iter().map(|x| x.to_string()).collect()
}

#[test]
fn test_get_custom_filters_with_entries() {
    let state = obj(vec![("brave", obj(vec![("ad_block", obj(vec![("custom_filters", s("||example.com^\nexample.com##h1\n\n!comment"))]))]))]);
    let filters = get_custom_filters(&state);
    assert_eq!(filters, strings(&["||example.com^", "example.com##h1", "!comment"]));
}

#[test]
fn test_get_custom_filters_empty() {
    let state = obj(vec![]);
    let filters = get_custom_filters(&state);
    assert!(filters.is_empty());
}

#[test]
fn test_get_custom_filters_empty_string() {
    let state = obj(vec![("brave", obj(vec![("ad_block", obj(vec![("custom_filters", s(""))]))]))]);
    let filters = get_custom_filters(&state);
    assert!(filters.is_empty());
}

// ---- further cases of this library ----

#[test]
fn list_skips_blank_lines() {
    assert_eq!(run_list(&local_state_with_filters("||a.com^\n\n||b.com^\n\n")), strings(&["||a.com^", "||b.com^"]));
    assert!(run_list(&obj(vec![])).is_empty());
}

#[test]
fn add_appends_once() {
    let mut ls = obj(vec![]);
    add_rule(&mut ls, "||example.com^");
    assert_eq!(filters_text(&ls), "||example.com^");
    let mut ls = local_state_with_filters("||old.com^");
    add_rule(&mut ls, "||new.com^");
    assert_eq!(filters_text(&ls), "||old.com^\n||new.com^");
    add_rule(&mut ls, "||new.com^");
    assert_eq!(filters_text(&ls), "||old.com^\n||new.com^");
    assert_eq!(ls.pointer("/profile/last_used").unwrap().as_str().unwrap(), "Default");
}

#[test]
fn add_then_list_and_remove_then_list() {
    let mut ls = obj(vec![]);
    add_rule(&mut ls, "||a.com^");
    add_rule(&mut ls, "||b.com^");
    assert_eq!(run_list(&ls).len(), 2);
    assert!(remove_rule(&mut ls, "||a.com^"));
    assert_eq!(run_list(&ls), strings(&["||b.com^"]));
}

#[test]
fn remove_keeps_other_rules_and_reports_missing() {
    let mut ls = local_state_with_filters("||a.com^\n||b.com^\n||c.com^");
    assert!(remove_rule(&mut ls, "||b.com^"));
    assert_eq!(filters_text(&ls), "||a.com^\n||c.com^");
    assert!(!remove_rule(&mut ls, "||nope.com^"));
    assert_eq!(filters_text(&ls), "||a.com^\n||c.com^");
}

#[test]
fn clear_empties_the_text() {
    let mut ls = local_state_with_filters("||a.com^\n||b.com^");
    clear_rules(&mut ls);
    assert_eq!(filters_text(&ls), "");
    assert!(run_list(&ls).is_empty());
    let mut untouched = obj(vec![("other", JsonValue::Int(1))]);
    clear_rules(&mut untouched);
    assert!(untouched.pointer("/brave").is_none());
}

#[test]
fn empty_rules_are_refused() {
    assert!(matches!(normalize_rule("   "), Err(CliError::EmptyFilter)));
    assert_eq!(normalize_rule("  ||a.com^ ").unwrap(), "||a.com^");
}

#[test]
fn load_replaces_the_filters() {
    let mut ls = local_state_with_filters("||old.com^");
    load_rules(&mut ls, "||a.com^\n\n||b.com^\n\n");
    assert_eq!(run_list(&ls), strings(&["||a.com^", "||b.com^"]));
    assert!(!filters_text(&ls).contains("||old.com^"));
    load_rules(&mut ls, "||a.com^\n||b.com^\n||c.com^");
    assert_eq!(run_list(&ls).len(), 3);
    assert_eq!(ls.pointer("/profile/last_used").unwrap().as_str().unwrap(), "Default");
}

#[test]
fn write_all_filters_makes_the_path() {
    let mut ls = obj(vec![("brave", JsonValue::Int(3))]);
    write_all_filters(&mut ls, "@@||a.com^\n||b.com^".to_string());
    assert_eq!(filters_text(&ls), "@@||a.com^\n||b.com^");
}
