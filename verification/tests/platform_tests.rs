use brave_shields_cli::chromium_time::{from_unix_micros, now, timestamp_from_clock};
use brave_shields_cli::error::CliError;
use brave_shields_cli::output::OutputFormat;
use brave_shields_cli::platform::{
    brave_dir_for_channel, missing_dir_error, path_join, resolve_brave_dir, Channel, Platform,
};

#[test]
fn test_channel_dir_names() {
    let home = Some("/Users/someone");
    let release = brave_dir_for_channel(home, Platform::MacOs, Channel::Release).unwrap();
    let beta = brave_dir_for_channel(home, Platform::MacOs, Channel::Beta).unwrap();
    let nightly = brave_dir_for_channel(home, Platform::MacOs, Channel::Nightly).unwrap();
    let dev = brave_dir_for_channel(home, Platform::MacOs, Channel::Dev).unwrap();
    assert!(release.ends_with("Brave-Browser"));
    assert!(beta.ends_with("Brave-Browser-Beta"));
    assert!(nightly.ends_with("Brave-Browser-Nightly"));
    assert!(dev.ends_with("Brave-Browser-Development"));
}

#[test]
fn test_timestamp_is_reasonable() {
    let ts: i64 = now().unwrap().parse().unwrap();
    // Post-2024 in Chromium epoch: 2024-01-01 ~= 13_348_876_800_000_000
    assert!(ts > 13_348_876_800_000_000);
    // Pre-2100 in Chromium epoch: 2100-01-01 ~= 15_745_036_800_000_000
    assert!(ts < 15_745_036_800_000_000);
}

#[test]
fn test_timestamp_format() {
    let ts = now().unwrap();
    assert!(ts.chars().all(|c| c.is_ascii_digit()));
    assert!(!ts.is_empty());
}

// ---- further cases of this library ----

#[test]
fn chromium_time_is_shifted_unix_time() {
    assert_eq!(from_unix_micros(0).unwrap(), "11644473600000000");
    assert_eq!(from_unix_micros(1_700_000_000_000_000).unwrap(), "13344473600000000");
    assert_eq!(from_unix_micros(-11_644_473_600_000_000).unwrap(), "0");
    assert!(matches!(from_unix_micros(i64::MAX), Err(CliError::TimestampOverflow)));
}

#[test]
fn data_directories() {
    assert_eq!(
        brave_dir_for_channel(Some("/home/u"), Platform::Linux, Channel::Nightly).unwrap(),
        "/home/u/.config/BraveSoftware/Brave-Browser-Nightly"
    );
    assert_eq!(
        brave_dir_for_channel(Some("/Users/u"), Platform::MacOs, Channel::Release).unwrap(),
        "/Users/u/Library/Application Support/BraveSoftware/Brave-Browser"
    );
    assert!(matches!(brave_dir_for_channel(None, Platform::Linux, Channel::Release), Err(CliError::NoHomeDirectory)));
    assert!(matches!(brave_dir_for_channel(Some("/h"), Platform::Other, Channel::Release), Err(CliError::UnsupportedPlatform)));
    assert_eq!(resolve_brave_dir(Some("/tmp/x"), None, Platform::Other, Channel::Dev).unwrap(), "/tmp/x");
}

#[test]
fn missing_directory_messages() {
    assert_eq!(missing_dir_error(true, "/nope", Channel::Release).message(), "specified --brave-dir does not exist: /nope");
    assert_eq!(
        missing_dir_error(false, "/h/x", Channel::Beta).message(),
        "Brave Beta data directory not found at /h/x. Is Brave Beta installed?"
    );
}

#[test]
fn path_join_follows_pathbuf() {
    assert_eq!(path_join("a", "b"), "a/b");
    assert_eq!(path_join("a/", "b"), "a/b");
    assert_eq!(path_join("", "b"), "b");
    assert_eq!(path_join("a", "/abs"), "/abs");
}

#[test]
fn channel_names() {
    assert_eq!(Channel::Dev.display_name(), "Development");
    assert_eq!(Channel::default_channel(), Channel::Release);
    assert_eq!(Channel::Beta.dir_name(), "Brave-Browser-Beta");
}

#[test]
fn output_formats() {
    assert_eq!(OutputFormat::from_str("json").unwrap(), OutputFormat::Json);
    assert_eq!(OutputFormat::from_str("table").unwrap(), OutputFormat::Table);
    assert_eq!(OutputFormat::from_str("yaml").unwrap_err().message(), "unknown format 'yaml'. Valid: json, table");
}

#[test]
fn clock_readings_become_chromium_time() {
    assert!(matches!(timestamp_from_clock(None), Err(CliError::ClockBeforeEpoch)));
    assert_eq!(CliError::ClockBeforeEpoch.message(), "system time before Unix epoch");
    assert_eq!(timestamp_from_clock(Some((0, 0))).unwrap(), "11644473600000000");
    assert_eq!(timestamp_from_clock(Some((0, 999))).unwrap(), "11644473600000000");
    assert_eq!(timestamp_from_clock(Some((1_700_000_000, 123_456_789))).unwrap(), "13344473600123456");
    assert_eq!(timestamp_from_clock(Some((8_000_000_000_000, 0))).unwrap(), "8011644473600000000");
    assert!(matches!(timestamp_from_clock(Some((9_000_000_000_000, 0))), Err(CliError::TimestampOverflow)));
    assert!(matches!(timestamp_from_clock(Some((u64::MAX, 0))), Err(CliError::TimestampOverflow)));
}
