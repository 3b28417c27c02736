use brave_shields_cli::error::CliError;
use brave_shields_cli::json::JsonValue;
use brave_shields_cli::scriptlets::{
    add_scriptlet, clear_scriptlets, db_path, listing_json, lock_path, read_scriptlets, remove_scriptlet,
    scriptlet_content, scriptlets_from_json, scriptlets_text, scriptlets_to_json, validate_name, Scriptlet,
};

fn s(x: &str) -> JsonValue {
    JsonValue::Str(x.to_string())
}

fn obj(members: Vec<(&str, JsonValue)>) -> JsonValue {
    JsonValue::Object(members.into_iter().map(|(k, v)| (k.to_string(), v)).collect())
}

/// Store a list and read it back, as the database round trip does.
fn store_and_read(list: &Vec<Scriptlet>) -> Vec<Scriptlet> {
    let stored = scriptlets_to_json(list);
    read_scriptlets(Some(&stored)).unwrap()
}

#[test]
fn test_validate_name_valid() {
    assert!(validate_name("user-test.js").is_ok());
    assert!(validate_name("user-my-script.js").is_ok());
}

#[test]
fn test_validate_name_missing_prefix() {
    assert!(validate_name("test.js").is_err());
}

#[test]
fn test_validate_name_missing_suffix() {
    assert!(validate_name("user-test").is_err());
}

#[test]
fn test_validate_name_empty() {
    assert!(validate_name("").is_err());
}

#[test]
fn test_validate_name_non_ascii() {
    assert!(validate_name("user-t\u{00e9}st.js").is_err());
}

#[test]
fn test_validate_name_rejects_path_separators() {
    assert!(validate_name("user-../../etc/passwd.js").is_err());
    assert!(validate_name("user-foo/bar.js").is_err());
    assert!(validate_name("user-foo\\bar.js").is_err());
}

#[test]
fn test_nonexistent_db_dir_returns_empty() {
    // Nothing stored at all
    let scriptlets = read_scriptlets(None).unwrap();
    assert!(scriptlets.is_empty());
}

// ---- further cases of this library ----

#[test]
fn name_errors_say_which_rule_failed() {
    assert_eq!(validate_name("").unwrap_err().message(), "scriptlet name must not be empty");
    assert_eq!(validate_name("user-é.js").unwrap_err().message(), "scriptlet name must be ASCII");
    assert!(validate_name("user-../../etc/passwd.js").unwrap_err().message().contains("path separator"));
    assert_eq!(
        validate_name("bad-name.js").unwrap_err().message(),
        "scriptlet name must start with 'user-' (got 'bad-name.js')"
    );
    assert_eq!(
        validate_name("user-test").unwrap_err().message(),
        "scriptlet name must end with '.js' (got 'user-test')"
    );
}

#[test]
fn add_and_read_back() {
    let mut list = Vec::new();
    add_scriptlet(&mut list, "user-test.js", "console.log('hi')").unwrap();
    let read = store_and_read(&list);
    assert_eq!(read.len(), 1);
    assert_eq!(read[0].name, "user-test.js");
    assert_eq!(read[0].content, "console.log('hi')");
}

#[test]
fn add_replaces_existing_and_keeps_others() {
    let mut list = Vec::new();
    add_scriptlet(&mut list, "user-test.js", "old").unwrap();
    add_scriptlet(&mut list, "user-other.js", "// other").unwrap();
    add_scriptlet(&mut list, "user-test.js", "new").unwrap();
    let read = store_and_read(&list);
    assert_eq!(read.len(), 2);
    assert_eq!(read[0].name, "user-other.js");
    assert_eq!(read[1].name, "user-test.js");
    assert_eq!(read[1].content, "new");
}

#[test]
fn invalid_names_leave_the_list_alone() {
    let mut list = Vec::new();
    assert!(add_scriptlet(&mut list, "bad-name.js", "").is_err());
    assert!(add_scriptlet(&mut list, "user-test", "").is_err());
    assert!(list.is_empty());
}

#[test]
fn remove_reports_whether_found() {
    let mut list = Vec::new();
    add_scriptlet(&mut list, "user-a.js", "// a").unwrap();
    add_scriptlet(&mut list, "user-b.js", "// b").unwrap();
    assert!(remove_scriptlet(&mut list, "user-a.js"));
    assert_eq!(list.len(), 1);
    assert_eq!(list[0].name, "user-b.js");
    assert!(!remove_scriptlet(&mut list, "user-nope.js"));
    assert_eq!(list.len(), 1);
}

#[test]
fn clear_then_read_is_empty() {
    let mut list = Vec::new();
    add_scriptlet(&mut list, "user-a.js", "// a").unwrap();
    clear_scriptlets(&mut list);
    assert!(store_and_read(&list).is_empty());
}

#[test]
fn empty_and_unicode_content_round_trip() {
    let mut list = Vec::new();
    add_scriptlet(&mut list, "user-empty.js", "").unwrap();
    add_scriptlet(&mut list, "user-uni.js", "/* é — ✓ */").unwrap();
    let read = store_and_read(&list);
    assert_eq!(read[0].content, "");
    assert_eq!(read[1].content, "/* é — ✓ */");
}

#[test]
fn stored_content_is_base64() {
    let mut list = Vec::new();
    add_scriptlet(&mut list, "user-test.js", "console.log('hi')").unwrap();
    let stored = scriptlets_to_json(&list);
    let entry = &stored.as_array().unwrap()[0];
    assert_eq!(entry.get("content").unwrap().as_str().unwrap(), "Y29uc29sZS5sb2coJ2hpJyk=");
    assert_eq!(
        entry.get("kind").unwrap().get("mime").unwrap().as_str().unwrap(),
        "application/javascript"
    );
}

#[test]
fn decodes_entries_written_elsewhere() {
    let doc = JsonValue::Array(vec![obj(vec![("name", s("user-x.js")), ("content", s("Y29uc29sZS5sb2coJ2hpJyk="))])]);
    let read = scriptlets_from_json(&doc).unwrap();
    assert_eq!(read[0].content, "console.log('hi')");
}

#[test]
fn read_rejects_bad_documents() {
    assert!(matches!(scriptlets_from_json(&s("not an array")), Err(CliError::ScriptletsNotArray)));
    let missing_name = JsonValue::Array(vec![obj(vec![("content", s("Y29uc29sZS5sb2coJ2hpJyk="))])]);
    assert!(matches!(scriptlets_from_json(&missing_name), Err(CliError::ScriptletMissingName)));
    let missing_content = JsonValue::Array(vec![obj(vec![("name", s("user-a.js"))])]);
    assert!(matches!(scriptlets_from_json(&missing_content), Err(CliError::ScriptletMissingContent)));
    let bad_base64 = JsonValue::Array(vec![obj(vec![("name", s("user-a.js")), ("content", s("!!!"))])]);
    assert!(matches!(scriptlets_from_json(&bad_base64), Err(CliError::ScriptletBadBase64)));
    // base64 of the bytes ff fe, which are not UTF-8
    let not_utf8 = JsonValue::Array(vec![obj(vec![("name", s("user-a.js")), ("content", s("//4="))])]);
    assert!(matches!(scriptlets_from_json(&not_utf8), Err(CliError::ScriptletContentNotUtf8)));
}

#[test]
fn stored_value_must_be_utf8() {
    assert_eq!(scriptlets_text(b"[]".to_vec()).unwrap(), "[]");
    assert!(matches!(scriptlets_text(vec![0xff, 0x00]), Err(CliError::ScriptletsNotUtf8)));
}

#[test]
fn get_finds_by_name() {
    let mut list = Vec::new();
    add_scriptlet(&mut list, "user-test.js", "console.log('hello')").unwrap();
    assert_eq!(scriptlet_content(&list, "user-test.js").unwrap(), "console.log('hello')");
    match scriptlet_content(&list, "user-nope.js") {
        Err(e) => assert_eq!(e.message(), "scriptlet 'user-nope.js' not found"),
        Ok(_) => panic!("found a missing scriptlet"),
    }
}

#[test]
fn listing_shows_sizes_in_bytes() {
    let mut list = Vec::new();
    add_scriptlet(&mut list, "user-test.js", "console.log('hi')").unwrap();
    add_scriptlet(&mut list, "user-u.js", "é").unwrap();
    let listing = listing_json(&list);
    let items = listing.as_array().unwrap();
    assert_eq!(items[0].get("name").unwrap().as_str().unwrap(), "user-test.js");
    assert_eq!(items[0].get("size").unwrap().as_u64(), Some(17));
    assert_eq!(items[1].get("size").unwrap().as_u64(), Some(2));
}

#[test]
fn database_paths() {
    assert_eq!(db_path("/home/u/.config/BraveSoftware/Brave-Browser"), "/home/u/.config/BraveSoftware/Brave-Browser/Default/AdBlock Custom Resources");
    assert_eq!(lock_path("/b"), "/b/Default/AdBlock Custom Resources.lock");
}
