use brave_shields_cli::commands::profiles;
use brave_shields_cli::error::CliError;
use brave_shields_cli::json::JsonValue;
use brave_shields_cli::profile::{list_profiles, preferences_path, resolve_profile, ProfileInfo};

fn s(x: &str) -> JsonValue {
    JsonValue::Str(x.to_string())
}

fn obj(members: Vec<(&str, JsonValue)>) -> JsonValue {
    JsonValue::Object(members.into_iter().map(|(k, v)| (k.to_string(), v)).collect())
}

/// The fixture Local State, members in the order serde_json keeps them.
fn fixture() -> JsonValue {
    obj(vec![(
        "profile",
        obj(vec![
            (
                "info_cache",
                obj(vec![
                    ("Default", obj(vec![("name", s("Person 1"))])),
                    ("Profile 1", obj(vec![("name", s("Work"))])),
                    ("Profile 2", obj(vec![("name", s("Personal"))])),
                ]),
            ),
            ("last_used", s("Default")),
        ]),
    )])
}

#[test]
fn test_resolve_by_display_name() {
    let profile = resolve_profile(&fixture(), Some("Work")).unwrap();
    assert_eq!(profile.dir_name, "Profile 1");
    assert_eq!(profile.display_name, "Work");
}

#[test]
fn test_resolve_by_dir_name() {
    let profile = resolve_profile(&fixture(), Some("Profile 1")).unwrap();
    assert_eq!(profile.dir_name, "Profile 1");
    assert_eq!(profile.display_name, "Work");
}

#[test]
fn test_resolve_default_profile() {
    let profile = resolve_profile(&fixture(), None).unwrap();
    assert_eq!(profile.dir_name, "Default");
    assert_eq!(profile.display_name, "Person 1");
}

#[test]
fn test_unknown_profile_errors() {
    let result = resolve_profile(&fixture(), Some("Nonexistent"));
    assert!(result.is_err());
    let err = result.unwrap_err().message();
    assert!(err.contains("not found"));
}

#[test]
fn test_list_profiles() {
    let profiles = list_profiles(&fixture()).unwrap();
    assert_eq!(profiles.len(), 3);
    let names: Vec<&str> = profiles.iter().map(|p| p.display_name.as_str()).collect();
    assert!(names.contains(&"Work"));
    assert!(names.contains(&"Personal"));
    assert!(names.contains(&"Person 1"));
}

// ---- further cases of this library ----

#[test]
fn not_found_lists_the_profiles() {
    assert_eq!(
        resolve_profile(&fixture(), Some("Nonexistent")).unwrap_err().message(),
        "profile 'Nonexistent' not found. Available profiles: 'Person 1' (Default), 'Work' (Profile 1), 'Personal' (Profile 2)"
    );
}

#[test]
fn missing_fields_are_reported() {
    let empty = obj(vec![]);
    assert_eq!(resolve_profile(&empty, None).unwrap_err().message(), "Local State missing profile.last_used");
    assert_eq!(resolve_profile(&empty, Some("x")).unwrap_err().message(), "Local State missing profile.info_cache");
    assert!(matches!(list_profiles(&empty), Err(CliError::LocalStateMissing { .. })));
    assert!(profiles::run(&empty).is_err());
}

#[test]
fn display_name_falls_back_to_directory() {
    let ls = obj(vec![(
        "profile",
        obj(vec![
            ("info_cache", obj(vec![("Default", obj(vec![])), ("Profile 3", obj(vec![("name", JsonValue::Int(3))]))])),
            ("last_used", s("Profile 9")),
        ]),
    )]);
    let listed = list_profiles(&ls).unwrap();
    assert_eq!(listed[0].display_name, "Default");
    assert_eq!(listed[1].display_name, "Profile 3");
    let p = resolve_profile(&ls, None).unwrap();
    assert_eq!(p.dir_name, "Profile 9");
    assert_eq!(p.display_name, "Profile 9");
}

#[test]
fn last_used_is_looked_up_as_a_pointer() {
    // A directory name with `/` reads two tokens of the pointer.
    let ls = obj(vec![(
        "profile",
        obj(vec![
            ("info_cache", obj(vec![("a", obj(vec![("b", obj(vec![("name", s("Nested"))]))]))])),
            ("last_used", s("a/b")),
        ]),
    )]);
    let p = resolve_profile(&ls, None).unwrap();
    assert_eq!(p.dir_name, "a/b");
    assert_eq!(p.display_name, "Nested");
}

#[test]
fn profiles_command_lists_in_order() {
    let listed = profiles::run(&fixture()).unwrap();
    let dirs: Vec<&str> = listed.iter().map(|p| p.dir_name.as_str()).collect();
    assert_eq!(dirs, vec!["Default", "Profile 1", "Profile 2"]);
}

#[test]
fn preferences_file_path() {
    let p = ProfileInfo { dir_name: "Profile 1".to_string(), display_name: "Work".to_string() };
    assert_eq!(preferences_path("/home/u/brave", &p), "/home/u/brave/Profile 1/Preferences");
    assert_eq!(preferences_path("/home/u/brave/", &p), "/home/u/brave/Profile 1/Preferences");
}
