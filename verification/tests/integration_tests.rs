use brave_shields_cli::commands::bisect::{
    begin, check_resume, estimated_steps, filters_with_exceptions, new_session, on_answer, parse_answer,
    parse_rules, require_rules, BisectAction, BisectState, Answer,
};
use brave_shields_cli::commands::filters::{
    add_rule, clear_rules, load_rules, normalize_rule, remove_rule, run_list, write_all_filters,
};
use brave_shields_cli::commands::{get, list, reset};
use brave_shields_cli::error::CliError;
use brave_shields_cli::json::JsonValue;
use brave_shields_cli::platform::Channel;
use brave_shields_cli::profile::resolve_profile;
use brave_shields_cli::shields::{to_stored, ShieldSetting};
use brave_shields_cli::scriptlets::{
    add_scriptlet, clear_scriptlets, listing_json, read_scriptlets, remove_scriptlet, scriptlet_content,
    scriptlets_to_json, validate_name, Scriptlet,
};

fn js(x: &str) -> JsonValue {
    JsonValue::Str(x.to_string())
}

fn ob(members: Vec<(&str, JsonValue)>) -> JsonValue {
    JsonValue::Object(members.into_iter().map(|(k, v)| (k.to_string(), v)).collect())
}

fn en(setting: i64, lm: &str) -> JsonValue {
    ob(vec![("setting", JsonValue::Int(setting)), ("last_modified", js(lm))])
}

fn with_exceptions(exceptions: Vec<(&str, JsonValue)>) -> JsonValue {
    ob(vec![("profile", ob(vec![("content_settings", ob(vec![("exceptions", ob(exceptions))]))]))])
}

fn at<'a>(v: &'a JsonValue, path: &[&str]) -> Option<&'a JsonValue> {
    let mut cur = v;
    for k in path {
        cur = cur.get(k)?;
    }
    Some(cur)
}

fn stored<'a>(p: &'a JsonValue, key: &str, pattern: &str) -> Option<&'a JsonValue> {
    at(p, &["profile", "content_settings", "exceptions", key, pattern])
}

fn stored_setting(p: &JsonValue, key: &str, pattern: &str) -> Option<i64> {
    stored(p, key, pattern)?.get("setting")?.as_i64()
}

fn cli_set(p: &mut JsonValue, domain: &str, setting: &str, value: &str) -> Result<(), CliError> {
    let plan = brave_shields_cli::commands::set::run(domain, setting, value)?;
    brave_shields_cli::commands::set::apply(p, plan);
    Ok(())
}

fn cli_set_pattern(p: &mut JsonValue, pattern: &str, setting: &str, value: &str) -> Result<(), CliError> {
    let plan = brave_shields_cli::commands::set::run_pattern(pattern, setting, value)?;
    brave_shields_cli::commands::set::apply(p, plan);
    Ok(())
}

fn shown(rows: &[(String, String)], name: &str) -> String {
    rows.iter().find(|r| r.0 == name).unwrap().1.clone()
}

fn cli_reset(p: &mut JsonValue, domain: &str, setting: Option<&str>) -> Result<(), CliError> {
    let plan = reset::run(domain, setting)?;
    reset::apply(p, &plan);
    Ok(())
}

fn listed_override(l: &[brave_shields_cli::output::DomainOverrides], domain: &str, name: &str) -> Option<String> {
    let d = l.iter().find(|d| d.domain == domain)?;
    d.overrides.iter().find(|o| o.0 == name).map(|o| o.1.clone())
}

fn base_local_state() -> JsonValue {
    ob(vec![(
        "profile",
        ob(vec![("last_used", js("Default")), ("info_cache", ob(vec![("Default", ob(vec![("name", js("Test Profile"))]))]))]),
    )])
}

fn local_state_filters(filters: &str) -> JsonValue {
    ob(vec![
        (
            "profile",
            ob(vec![("last_used", js("Default")), ("info_cache", ob(vec![("Default", ob(vec![("name", js("Test Profile"))]))]))]),
        ),
        ("brave", ob(vec![("ad_block", ob(vec![("custom_filters", js(filters))]))])),
    ])
}

fn filters_text(ls: &JsonValue) -> String {
    at(ls, &["brave", "ad_block", "custom_filters"]).unwrap().as_str().unwrap().clone()
}

fn cli_filters_add(ls: &mut JsonValue, rule: &str) {
    let rule = normalize_rule(rule).unwrap();
    add_rule(ls, &rule);
}

fn cli_filters_remove(ls: &mut JsonValue, rule: &str) -> bool {
    let rule = normalize_rule(rule).unwrap();
    remove_rule(ls, &rule)
}

fn cli_filters_load(ls: &mut JsonValue, rules: &[&str]) {
    load_rules(ls, &rules.join("\n"));
}

#[derive(Debug, PartialEq)]
enum Ending {
    Found(String),
    Nothing,
    Suspended,
}

/// Drive a session as the command does: load filters for each question, read answers line by
/// line (end of input quits), and after a finished session answer the restore prompt.
fn drive(ls: &mut JsonValue, mut state: BisectState, input: &str) -> (Ending, BisectState) {
    let mut lines = input.lines();
    let mut next_answer = move || loop {
        match lines.next() {
            None => return Answer::Quit,
            Some(l) => {
                if let Some(a) = parse_answer(l) {
                    return a;
                }
            }
        }
    };
    let mut t = begin(&mut state, false);
    let ending = loop {
        match t.action {
            BisectAction::Ask { excepted } => {
                write_all_filters(ls, filters_with_exceptions(&state.all_rules, &excepted));
                let a = next_answer();
                t = on_answer(&mut state, a, false);
            }
            BisectAction::Found { rule } => break Ending::Found(rule),
            BisectAction::NothingToBisect => break Ending::Nothing,
            BisectAction::Suspend => break Ending::Suspended,
        }
    };
    if ending != Ending::Suspended && next_answer() == Answer::Yes {
        write_all_filters(ls, state.original_filters.clone());
    }
    (ending, state)
}

fn bisect_file(ls: &mut JsonValue, rules: &[&str], input: &str) -> Ending {
    let parsed = parse_rules(&rules.join("\n"));
    require_rules(&parsed, "rules.txt").unwrap();
    let state = new_session(parsed, ls, Channel::Release);
    drive(ls, state, input).0
}

fn saved(list: &Vec<Scriptlet>) -> JsonValue {
    scriptlets_to_json(list)
}

fn loaded(doc: Option<&JsonValue>) -> Vec<Scriptlet> {
    read_scriptlets(doc).unwrap()
}

fn cli_scriptlets_add(doc: &mut Option<JsonValue>, name: &str, content: &str) -> Result<(), CliError> {
    validate_name(name)?;
    let mut list = loaded(doc.as_ref());
    add_scriptlet(&mut list, name, content)?;
    *doc = Some(saved(&list));
    Ok(())
}

fn listing(doc: &Option<JsonValue>) -> Vec<(String, i64)> {
    let l = listing_json(&loaded(doc.as_ref()));
    l.as_array()
        .unwrap()
        .iter()
        .map(|e| (e.get("name").unwrap().as_str().unwrap().clone(), e.get("size").unwrap().as_i64().unwrap()))
        .collect()
}

// get

#[test]
fn test_get_domain_with_overrides() {
    let p = with_exceptions(vec![
        ("braveShields", ob(vec![("example.com,*", en(2, "123"))])),
        ("fingerprintingV2", ob(vec![("example.com,*", en(1, "123"))])),
    ]);
    let rows = get::run(&p, "example.com").unwrap();
    assert_eq!(shown(&rows, "shields"), "off");
    assert_eq!(shown(&rows, "fingerprinting"), "disabled");
}

#[test]
fn test_get_domain_no_overrides() {
    let rows = get::run(&ob(vec![]), "example.com").unwrap();
    for name in ["shields", "ads", "fingerprinting", "https-upgrade", "scripts"] {
        assert_eq!(shown(&rows, name), "default");
    }
}

// set

#[test]
fn test_set_shields_off() {
    let mut p = ob(vec![]);
    cli_set(&mut p, "example.com", "shields", "off").unwrap();
    assert_eq!(stored_setting(&p, "braveShields", "example.com,*"), Some(2));
}

#[test]
fn test_set_shields_on() {
    let mut p = ob(vec![]);
    cli_set(&mut p, "example.com", "shields", "on").unwrap();
    assert_eq!(stored_setting(&p, "braveShields", "example.com,*"), Some(1));
}

#[test]
fn test_set_fingerprinting_disabled() {
    let mut p = ob(vec![]);
    cli_set(&mut p, "example.com", "fingerprinting", "disabled").unwrap();
    assert_eq!(stored_setting(&p, "fingerprintingV2", "example.com,*"), Some(1));
}

#[test]
fn test_set_fingerprinting_aggressive() {
    let mut p = ob(vec![]);
    cli_set(&mut p, "example.com", "fingerprinting", "aggressive").unwrap();
    assert_eq!(stored_setting(&p, "fingerprintingV2", "example.com,*"), Some(2));
}

#[test]
fn test_set_fingerprinting_standard() {
    let mut p = ob(vec![]);
    cli_set(&mut p, "example.com", "fingerprinting", "standard").unwrap();
    assert_eq!(stored_setting(&p, "fingerprintingV2", "example.com,*"), Some(3));
}

#[test]
fn test_set_https_strict() {
    let mut p = ob(vec![]);
    cli_set(&mut p, "example.com", "https-upgrade", "strict").unwrap();
    assert_eq!(stored_setting(&p, "httpsUpgrades", "example.com,*"), Some(2));
}

#[test]
fn test_set_scripts_block() {
    let mut p = ob(vec![]);
    cli_set(&mut p, "example.com", "scripts", "block").unwrap();
    assert_eq!(stored_setting(&p, "javascript", "example.com,*"), Some(2));
}

fn cosmetic_of(p: &JsonValue) -> Option<i64> {
    stored(p, "cosmeticFilteringV2", "example.com,*")?.get("setting")?.get("cosmeticFilteringV2")?.as_i64()
}

#[test]
fn test_set_ads_standard() {
    let mut p = ob(vec![]);
    cli_set(&mut p, "example.com", "ads", "standard").unwrap();
    assert_eq!(stored_setting(&p, "shieldsAds", "example.com,*"), Some(2));
    assert_eq!(stored_setting(&p, "trackers", "example.com,*"), Some(2));
    assert_eq!(cosmetic_of(&p), Some(2));
}

#[test]
fn test_set_ads_aggressive() {
    let mut p = ob(vec![]);
    cli_set(&mut p, "example.com", "ads", "aggressive").unwrap();
    assert_eq!(stored_setting(&p, "shieldsAds", "example.com,*"), Some(2));
    assert_eq!(stored_setting(&p, "trackers", "example.com,*"), Some(2));
    assert_eq!(cosmetic_of(&p), Some(1));
}

#[test]
fn test_set_ads_disabled() {
    let mut p = ob(vec![]);
    cli_set(&mut p, "example.com", "ads", "disabled").unwrap();
    assert_eq!(stored_setting(&p, "shieldsAds", "example.com,*"), Some(1));
    assert_eq!(stored_setting(&p, "trackers", "example.com,*"), Some(1));
    assert_eq!(cosmetic_of(&p), Some(0));
}

#[test]
fn test_set_overwrites_existing() {
    let mut p = with_exceptions(vec![("braveShields", ob(vec![("example.com,*", en(1, "100"))]))]);
    cli_set(&mut p, "example.com", "shields", "off").unwrap();
    assert_eq!(stored_setting(&p, "braveShields", "example.com,*"), Some(2));
}

#[test]
fn test_set_generates_last_modified() {
    let mut p = ob(vec![]);
    cli_set(&mut p, "example.com", "shields", "on").unwrap();
    let lm = stored(&p, "braveShields", "example.com,*").unwrap().get("last_modified").unwrap().as_str().unwrap().clone();
    assert!(!lm.is_empty());
    assert!(lm.chars().all(|c| c.is_ascii_digit()));
}

#[test]
fn test_set_preserves_other_domains() {
    let mut p = with_exceptions(vec![("braveShields", ob(vec![("other.com,*", en(1, "100"))]))]);
    cli_set(&mut p, "example.com", "shields", "off").unwrap();
    assert_eq!(stored_setting(&p, "braveShields", "other.com,*"), Some(1));
    assert_eq!(stored_setting(&p, "braveShields", "example.com,*"), Some(2));
}

// list

#[test]
fn test_list_empty() {
    assert_eq!(list::run(&ob(vec![])).len(), 0);
}

#[test]
fn test_list_multiple_domains() {
    let p = with_exceptions(vec![
        ("braveShields", ob(vec![("a.com,*", en(2, "1")), ("b.com,*", en(1, "2"))])),
        ("fingerprintingV2", ob(vec![("c.com,*", en(1, "3"))])),
    ]);
    let l = list::run(&p);
    assert_eq!(l.len(), 3);
    let domains: Vec<&str> = l.iter().map(|d| d.domain.as_str()).collect();
    assert!(domains.contains(&"a.com"));
    assert!(domains.contains(&"b.com"));
    assert!(domains.contains(&"c.com"));
}

#[test]
fn test_list_deduplicates_domains() {
    let p = with_exceptions(vec![
        ("braveShields", ob(vec![("example.com,*", en(2, "1"))])),
        ("fingerprintingV2", ob(vec![("example.com,*", en(1, "2"))])),
    ]);
    let l = list::run(&p);
    assert_eq!(l.len(), 1);
    assert_eq!(l[0].domain, "example.com");
    assert_eq!(listed_override(&l, "example.com", "shields").unwrap(), "off");
    assert_eq!(listed_override(&l, "example.com", "fingerprinting").unwrap(), "disabled");
}

// reset

#[test]
fn test_reset_all_for_domain() {
    let mut p = with_exceptions(vec![
        ("braveShields", ob(vec![("example.com,*", en(2, "1"))])),
        ("fingerprintingV2", ob(vec![("example.com,*", en(1, "2"))])),
    ]);
    cli_reset(&mut p, "example.com", None).unwrap();
    assert!(stored(&p, "braveShields", "example.com,*").is_none());
    assert!(stored(&p, "fingerprintingV2", "example.com,*").is_none());
}

#[test]
fn test_reset_single_setting() {
    let mut p = with_exceptions(vec![
        ("braveShields", ob(vec![("example.com,*", en(2, "1"))])),
        ("fingerprintingV2", ob(vec![("example.com,*", en(1, "2"))])),
    ]);
    cli_reset(&mut p, "example.com", Some("fingerprinting")).unwrap();
    assert!(stored(&p, "fingerprintingV2", "example.com,*").is_none());
    assert_eq!(stored_setting(&p, "braveShields", "example.com,*"), Some(2));
}

#[test]
fn test_reset_ads_removes_all_three() {
    let mut p = with_exceptions(vec![
        ("shieldsAds", ob(vec![("example.com,*", en(2, "1"))])),
        ("trackers", ob(vec![("example.com,*", en(2, "1"))])),
        (
            "cosmeticFilteringV2",
            ob(vec![(
                "example.com,*",
                ob(vec![("setting", ob(vec![("cosmeticFilteringV2", JsonValue::Int(2))])), ("last_modified", js("1"))]),
            )]),
        ),
    ]);
    cli_reset(&mut p, "example.com", Some("ads")).unwrap();
    assert!(stored(&p, "shieldsAds", "example.com,*").is_none());
    assert!(stored(&p, "trackers", "example.com,*").is_none());
    assert!(stored(&p, "cosmeticFilteringV2", "example.com,*").is_none());
}

#[test]
fn test_reset_nonexistent_domain() {
    let mut p = ob(vec![]);
    assert!(cli_reset(&mut p, "nonexistent.com", None).is_ok());
}

#[test]
fn test_reset_preserves_other_domains() {
    let mut p = with_exceptions(vec![(
        "braveShields",
        ob(vec![("example.com,*", en(2, "1")), ("other.com,*", en(1, "2"))]),
    )]);
    cli_reset(&mut p, "example.com", None).unwrap();
    assert!(stored(&p, "braveShields", "example.com,*").is_none());
    assert_eq!(stored_setting(&p, "braveShields", "other.com,*"), Some(1));
}

// round trips

#[test]
fn test_set_then_get() {
    let mut p = ob(vec![]);
    cli_set(&mut p, "example.com", "shields", "off").unwrap();
    assert_eq!(shown(&get::run(&p, "example.com").unwrap(), "shields"), "off");
}

#[test]
fn test_set_then_list() {
    let mut p = ob(vec![]);
    cli_set(&mut p, "a.com", "shields", "off").unwrap();
    cli_set(&mut p, "b.com", "fingerprinting", "disabled").unwrap();
    assert_eq!(list::run(&p).len(), 2);
}

#[test]
fn test_set_then_reset_then_get() {
    let mut p = ob(vec![]);
    cli_set(&mut p, "example.com", "shields", "off").unwrap();
    cli_reset(&mut p, "example.com", None).unwrap();
    assert_eq!(shown(&get::run(&p, "example.com").unwrap(), "shields"), "default");
}

#[test]
fn test_multiple_sets_then_list() {
    let mut p = ob(vec![]);
    cli_set(&mut p, "example.com", "shields", "off").unwrap();
    cli_set(&mut p, "example.com", "fingerprinting", "aggressive").unwrap();
    cli_set(&mut p, "example.com", "scripts", "block").unwrap();
    let l = list::run(&p);
    assert_eq!(l.len(), 1);
    assert_eq!(l[0].domain, "example.com");
    assert_eq!(listed_override(&l, "example.com", "shields").unwrap(), "off");
    assert_eq!(listed_override(&l, "example.com", "fingerprinting").unwrap(), "aggressive");
    assert_eq!(listed_override(&l, "example.com", "scripts").unwrap(), "block");
}

// filters

#[test]
fn test_filters_list_empty() {
    assert_eq!(run_list(&base_local_state()).len(), 0);
}

#[test]
fn test_filters_list_with_entries() {
    let f = run_list(&local_state_filters("||example.com^\nexample.com##h1"));
    assert_eq!(f.len(), 2);
    assert_eq!(f[0], "||example.com^");
    assert_eq!(f[1], "example.com##h1");
}

#[test]
fn test_filters_list_skips_blank_lines() {
    assert_eq!(run_list(&local_state_filters("||a.com^\n\n||b.com^\n\n")).len(), 2);
}

#[test]
fn test_filters_add() {
    let mut ls = base_local_state();
    cli_filters_add(&mut ls, "||example.com^");
    assert!(filters_text(&ls).contains("||example.com^"));
}

#[test]
fn test_filters_add_to_existing() {
    let mut ls = local_state_filters("||old.com^");
    cli_filters_add(&mut ls, "||new.com^");
    let f = filters_text(&ls);
    assert!(f.contains("||old.com^"));
    assert!(f.contains("||new.com^"));
}

#[test]
fn test_filters_add_no_duplicate() {
    let mut ls = local_state_filters("||example.com^");
    cli_filters_add(&mut ls, "||example.com^");
    let f = filters_text(&ls);
    assert_eq!(f.lines().filter(|l| l.trim() == "||example.com^").count(), 1);
}

#[test]
fn test_filters_remove() {
    let mut ls = local_state_filters("||a.com^\n||b.com^\n||c.com^");
    assert!(cli_filters_remove(&mut ls, "||b.com^"));
    let f = filters_text(&ls);
    assert!(f.contains("||a.com^"));
    assert!(!f.contains("||b.com^"));
    assert!(f.contains("||c.com^"));
}

#[test]
fn test_filters_remove_nonexistent() {
    let mut ls = local_state_filters("||a.com^");
    assert!(!cli_filters_remove(&mut ls, "||nope.com^"));
    assert_eq!(filters_text(&ls), "||a.com^");
}

#[test]
fn test_filters_clear() {
    let mut ls = local_state_filters("||a.com^\n||b.com^");
    clear_rules(&mut ls);
    assert!(filters_text(&ls).is_empty());
}

#[test]
fn test_filters_add_then_list() {
    let mut ls = base_local_state();
    cli_filters_add(&mut ls, "||example.com^");
    cli_filters_add(&mut ls, "example.com##h1");
    assert_eq!(run_list(&ls).len(), 2);
}

#[test]
fn test_filters_add_then_remove_then_list() {
    let mut ls = base_local_state();
    cli_filters_add(&mut ls, "||a.com^");
    cli_filters_add(&mut ls, "||b.com^");
    cli_filters_remove(&mut ls, "||a.com^");
    let f = run_list(&ls);
    assert_eq!(f.len(), 1);
    assert_eq!(f[0], "||b.com^");
}

#[test]
fn test_filters_clear_then_list() {
    let mut ls = local_state_filters("||a.com^\n||b.com^");
    clear_rules(&mut ls);
    assert_eq!(run_list(&ls).len(), 0);
}

#[test]
fn test_filters_preserves_other_local_state() {
    let mut ls = local_state_filters("||old.com^");
    cli_filters_add(&mut ls, "||new.com^");
    assert_eq!(at(&ls, &["profile", "last_used"]).unwrap().as_str().unwrap(), "Default");
}

// raw patterns

#[test]
fn test_set_with_raw_pattern() {
    let mut p = ob(vec![]);
    cli_set_pattern(&mut p, "*,*", "shields", "off").unwrap();
    assert_eq!(stored_setting(&p, "braveShields", "*,*"), Some(2));
}

#[test]
fn test_get_with_raw_pattern() {
    let p = with_exceptions(vec![("braveShields", ob(vec![("*,*", en(2, "123"))]))]);
    assert_eq!(shown(&get::run_pattern(&p, "*,*"), "shields"), "off");
}

#[test]
fn test_reset_with_raw_pattern() {
    let mut p = with_exceptions(vec![("braveShields", ob(vec![("*,*", en(2, "123"))]))]);
    let plan = reset::run_pattern("*,*", None).unwrap();
    reset::apply(&mut p, &plan);
    assert!(stored(&p, "braveShields", "*,*").is_none());
}

#[test]
fn test_set_then_get_with_pattern() {
    let mut p = ob(vec![]);
    cli_set_pattern(&mut p, "*,*", "shields", "off").unwrap();
    assert_eq!(shown(&get::run_pattern(&p, "*,*"), "shields"), "off");
}

// filters load

#[test]
fn test_filters_load() {
    let mut ls = base_local_state();
    cli_filters_load(&mut ls, &["||example.com^", "example.com##h1"]);
    let f = filters_text(&ls);
    assert!(f.contains("||example.com^"));
    assert!(f.contains("example.com##h1"));
}

#[test]
fn test_filters_load_replaces_existing() {
    let mut ls = local_state_filters("||old.com^");
    cli_filters_load(&mut ls, &["||new.com^"]);
    let f = filters_text(&ls);
    assert!(!f.contains("||old.com^"));
    assert!(f.contains("||new.com^"));
}

#[test]
fn test_filters_load_skips_blank_lines() {
    let mut ls = base_local_state();
    cli_filters_load(&mut ls, &["||a.com^", "", "||b.com^", "", ""]);
    assert_eq!(run_list(&ls).len(), 2);
}

#[test]
fn test_filters_load_then_list() {
    let mut ls = base_local_state();
    cli_filters_load(&mut ls, &["||a.com^", "||b.com^", "||c.com^"]);
    assert_eq!(run_list(&ls).len(), 3);
}

#[test]
fn test_filters_load_preserves_other_local_state() {
    let mut ls = local_state_filters("||old.com^");
    cli_filters_load(&mut ls, &["||new.com^"]);
    assert_eq!(at(&ls, &["profile", "last_used"]).unwrap().as_str().unwrap(), "Default");
}

// bisect

#[test]
fn test_bisect_empty_file() {
    let none: [&str; 0] = [];
    let rules = parse_rules(&none.join("\n"));
    let e = require_rules(&rules, "rules.txt").unwrap_err();
    assert!(e.message().contains("no filter rules found"));
}

#[test]
fn test_bisect_initial_no() {
    let mut ls = base_local_state();
    assert_eq!(bisect_file(&mut ls, &["||a.com^", "||b.com^"], "n\n"), Ending::Nothing);
}

#[test]
fn test_bisect_single_rule() {
    let mut ls = base_local_state();
    assert_eq!(bisect_file(&mut ls, &["||bad.com^"], "y\n"), Ending::Found("||bad.com^".to_string()));
}

#[test]
fn test_bisect_two_rules_bad_is_second() {
    let mut ls = base_local_state();
    assert_eq!(bisect_file(&mut ls, &["||good.com^", "||bad.com^"], "y\ny\n"), Ending::Found("||bad.com^".to_string()));
}

#[test]
fn test_bisect_two_rules_bad_is_first() {
    let mut ls = base_local_state();
    assert_eq!(bisect_file(&mut ls, &["||bad.com^", "||good.com^"], "y\nn\n"), Ending::Found("||bad.com^".to_string()));
}

#[test]
fn test_bisect_four_rules_finds_third() {
    let mut ls = base_local_state();
    assert_eq!(
        bisect_file(&mut ls, &["||a.com^", "||b.com^", "||c.com^", "||d.com^"], "y\ny\nn\n"),
        Ending::Found("||c.com^".to_string())
    );
}

#[test]
fn test_bisect_eight_rules() {
    let mut ls = base_local_state();
    let rules = ["||r0.com^", "||r1.com^", "||r2.com^", "||r3.com^", "||r4.com^", "||r5.com^", "||r6.com^", "||r7.com^"];
    assert_eq!(bisect_file(&mut ls, &rules, "y\ny\nn\ny\n"), Ending::Found("||r5.com^".to_string()));
}

#[test]
fn test_bisect_restores_original_filters() {
    let mut ls = local_state_filters("||original.com^");
    let _ = bisect_file(&mut ls, &["||a.com^", "||b.com^"], "y\ny\ny\n");
    assert_eq!(filters_text(&ls), "||original.com^");
}

#[test]
fn test_bisect_restores_filters_on_initial_no() {
    let mut ls = local_state_filters("||original.com^");
    let _ = bisect_file(&mut ls, &["||a.com^"], "n\ny\n");
    assert_eq!(filters_text(&ls), "||original.com^");
}

#[test]
fn test_bisect_quit() {
    let mut ls = base_local_state();
    assert_eq!(bisect_file(&mut ls, &["||a.com^", "||b.com^"], "y\nq\n"), Ending::Suspended);
}

#[test]
fn test_bisect_quit_does_not_restore_filters() {
    let mut ls = local_state_filters("||original.com^");
    let _ = bisect_file(&mut ls, &["||a.com^", "||b.com^"], "y\nq\n");
    assert_ne!(filters_text(&ls), "||original.com^");
}

#[test]
fn test_bisect_eof_treated_as_quit() {
    let mut ls = base_local_state();
    assert_eq!(bisect_file(&mut ls, &["||a.com^", "||b.com^"], ""), Ending::Suspended);
}

#[test]
fn test_bisect_resume() {
    let doc = ob(vec![
        ("original_filters", js("")),
        ("channel", js("release")),
        ("all_rules", JsonValue::Array(vec![js("||a.com^"), js("||b.com^"), js("||c.com^")])),
        ("candidate_indices", JsonValue::Array(vec![JsonValue::Int(1), JsonValue::Int(2)])),
        ("step", JsonValue::Int(1)),
    ]);
    let state = BisectState::from_json(&doc).unwrap();
    check_resume(&state, Channel::Release).unwrap();
    let mut ls = base_local_state();
    let (ending, _) = drive(&mut ls, state, "y\ny\n");
    assert_eq!(ending, Ending::Found("||c.com^".to_string()));
}

#[test]
fn test_bisect_resume_channel_mismatch() {
    let doc = ob(vec![
        ("original_filters", js("")),
        ("channel", js("nightly")),
        ("all_rules", JsonValue::Array(vec![js("||a.com^")])),
        ("candidate_indices", JsonValue::Array(vec![JsonValue::Int(0)])),
        ("step", JsonValue::Int(0)),
    ]);
    let state = BisectState::from_json(&doc).unwrap();
    let e = check_resume(&state, Channel::Release).unwrap_err();
    assert!(e.message().contains("does not match"));
}

#[test]
fn test_bisect_loads_filters_into_local_state() {
    let mut ls = local_state_filters("");
    let _ = bisect_file(&mut ls, &["||only.com^"], "y\ny\n");
    assert_eq!(filters_text(&ls), "");
}

#[test]
fn test_bisect_stderr_shows_step_count() {
    let rules = parse_rules(&["||a.com^", "||b.com^", "||c.com^", "||d.com^"].join("\n"));
    assert_eq!(rules.len(), 4);
    assert_eq!(estimated_steps(rules.len()), 2);
    let mut ls = base_local_state();
    assert_eq!(
        bisect_file(&mut ls, &["||a.com^", "||b.com^", "||c.com^", "||d.com^"], "y\ny\nn\n"),
        Ending::Found("||c.com^".to_string())
    );
}

#[test]
fn test_bisect_found_message_in_stderr() {
    let mut state = new_session(parse_rules("||a.com^\n||b.com^"), &base_local_state(), Channel::Release);
    let _ = begin(&mut state, false);
    let _ = on_answer(&mut state, Answer::Yes, false);
    let t = on_answer(&mut state, Answer::Yes, false);
    assert!(t.save.is_some());
    assert!(matches!(t.action, BisectAction::Found { ref rule } if rule == "||b.com^"));
}

#[test]
fn test_bisect_resume_corrupted_all_rules() {
    let doc = ob(vec![
        ("original_filters", js("")),
        ("channel", js("release")),
        ("all_rules", JsonValue::Array(vec![js("||a.com^"), JsonValue::Int(42), js("||c.com^")])),
        ("candidate_indices", JsonValue::Array(vec![JsonValue::Int(0), JsonValue::Int(1), JsonValue::Int(2)])),
        ("step", JsonValue::Int(1)),
    ]);
    let e = BisectState::from_json(&doc).unwrap_err();
    assert!(e.message().contains("non-string"));
}

// scriptlets

#[test]
fn test_scriptlets_list_empty() {
    assert!(listing(&None).is_empty());
}

#[test]
fn test_scriptlets_add_and_list() {
    let mut doc = None;
    cli_scriptlets_add(&mut doc, "user-test.js", "console.log('hi')").unwrap();
    assert_eq!(listing(&doc), vec![("user-test.js".to_string(), 17)]);
}

#[test]
fn test_scriptlets_get() {
    let mut doc = None;
    cli_scriptlets_add(&mut doc, "user-test.js", "console.log('hello')").unwrap();
    assert_eq!(scriptlet_content(&loaded(doc.as_ref()), "user-test.js").unwrap(), "console.log('hello')");
}

#[test]
fn test_scriptlets_get_nonexistent() {
    assert!(scriptlet_content(&loaded(None), "user-nope.js").is_err());
}

#[test]
fn test_scriptlets_add_replaces_existing() {
    let mut doc = None;
    cli_scriptlets_add(&mut doc, "user-test.js", "// version 1").unwrap();
    cli_scriptlets_add(&mut doc, "user-test.js", "// version 2").unwrap();
    assert_eq!(listing(&doc), vec![("user-test.js".to_string(), 12)]);
}

#[test]
fn test_scriptlets_remove() {
    let mut doc = None;
    cli_scriptlets_add(&mut doc, "user-test.js", "// test").unwrap();
    let mut list = loaded(doc.as_ref());
    assert!(remove_scriptlet(&mut list, "user-test.js"));
    doc = Some(saved(&list));
    assert!(listing(&doc).is_empty());
}

#[test]
fn test_scriptlets_remove_nonexistent() {
    let mut list = loaded(None);
    assert!(!remove_scriptlet(&mut list, "user-nope.js"));
}

#[test]
fn test_scriptlets_clear() {
    let mut doc = None;
    cli_scriptlets_add(&mut doc, "user-a.js", "// a").unwrap();
    cli_scriptlets_add(&mut doc, "user-b.js", "// b").unwrap();
    let mut list = loaded(doc.as_ref());
    clear_scriptlets(&mut list);
    doc = Some(saved(&list));
    assert!(listing(&doc).is_empty());
}

#[test]
fn test_scriptlets_add_invalid_name() {
    let mut doc = None;
    assert!(cli_scriptlets_add(&mut doc, "bad-name.js", "// test").is_err());
}

#[test]
fn test_scriptlets_add_path_separator_rejected() {
    let mut doc = None;
    let e = cli_scriptlets_add(&mut doc, "user-../../etc/passwd.js", "// test").unwrap_err();
    assert!(e.message().contains("path separator"));
}

#[test]
fn removing_a_rule_just_added_lists_the_filters_as_before() {
    for text in ["", "||a.com^", "||a.com^\n", "||a.com^\n\n||b.com^", "  \n||a.com^\r\n||b.com^"] {
        let mut ls = local_state_filters(text);
        let before = run_list(&ls);
        cli_filters_add(&mut ls, "  ||z.com^ ");
        assert!(run_list(&ls).contains(&"||z.com^".to_string()));
        assert!(cli_filters_remove(&mut ls, "||z.com^"));
        assert_eq!(run_list(&ls), before);
    }
}

#[test]
fn stored_entries_follow_the_setting_keys() {
    for s in ShieldSetting::all() {
        for v in s.valid_values() {
            let es = to_stored(s, v, "42").unwrap();
            let keys: Vec<&str> = es.iter().map(|e| e.0).collect();
            assert_eq!(keys, s.json_keys());
            assert_eq!(es[0].0, s.primary_json_key());
            for e in es.iter() {
                assert_eq!(e.1.get("last_modified").unwrap().as_str().unwrap(), "42");
            }
        }
        assert!(to_stored(s, "invalid", "0").is_err());
    }
}

#[test]
fn list_shows_exactly_what_get_shows() {
    let p = with_exceptions(vec![
        ("braveShields", ob(vec![("a.com,*", en(2, "1")), ("b.com,*", en(9, "1")), ("[*.]c.com", en(1, "1"))])),
        ("javascript", ob(vec![("b.com,*", en(2, "1")), ("a.com,*", ob(vec![("setting", js("x"))]))])),
    ]);
    let l = list::run(&p);
    for d in ["a.com", "b.com", "c.com", "z.com"] {
        let rows = get::run(&p, d).unwrap();
        for (name, value) in rows.iter() {
            let listed = listed_override(&l, d, name);
            if value == "default" || value == "unknown" {
                assert_eq!(listed, None);
            } else {
                assert_eq!(listed, Some(value.clone()));
            }
        }
    }
}

#[test]
fn profiles_are_selected_by_directory_or_display_name() {
    let ls = ob(vec![(
        "profile",
        ob(vec![
            ("last_used", js("Default")),
            (
                "info_cache",
                ob(vec![("Default", ob(vec![("name", js("Personal"))])), ("Profile 1", ob(vec![("name", js("Work"))]))]),
            ),
        ]),
    )]);
    let p = resolve_profile(&ls, Some("Work")).unwrap();
    assert_eq!((p.dir_name.as_str(), p.display_name.as_str()), ("Profile 1", "Work"));
    let p = resolve_profile(&ls, Some("Default")).unwrap();
    assert_eq!((p.dir_name.as_str(), p.display_name.as_str()), ("Default", "Personal"));
    assert!(resolve_profile(&ls, Some("Nonexistent")).unwrap_err().message().contains("not found"));
}
