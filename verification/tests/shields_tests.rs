use brave_shields_cli::error::CliError;
use brave_shields_cli::json::JsonValue;
use brave_shields_cli::shields::{
    domain_from_pattern, domain_pattern, from_stored, read_cosmetic_value, read_setting_value, to_stored,
    validate_domain, ShieldSetting,
};

fn setting_of(entry: &JsonValue) -> Option<i64> {
    entry.get("setting").and_then(|v| v.as_i64())
}

fn cosmetic_of(entry: &JsonValue) -> Option<i64> {
    entry.get("setting").and_then(|v| v.get("cosmeticFilteringV2")).and_then(|v| v.as_i64())
}

#[test]
fn test_shields_to_stored() {
    let entries = to_stored(ShieldSetting::Shields, "on", "0").unwrap();
    assert_eq!(entries.len(), 1);
    assert_eq!(entries[0].0, "braveShields");
    assert_eq!(setting_of(&entries[0].1), Some(1));

    let entries = to_stored(ShieldSetting::Shields, "off", "0").unwrap();
    assert_eq!(setting_of(&entries[0].1), Some(2));
}

#[test]
fn test_shields_from_stored() {
    assert_eq!(from_stored(ShieldSetting::Shields, 1, None).unwrap(), "on");
    assert_eq!(from_stored(ShieldSetting::Shields, 2, None).unwrap(), "off");
}

#[test]
fn test_fingerprinting_to_stored() {
    let entries = to_stored(ShieldSetting::Fingerprinting, "standard", "0").unwrap();
    assert_eq!(setting_of(&entries[0].1), Some(3));
    let entries = to_stored(ShieldSetting::Fingerprinting, "aggressive", "0").unwrap();
    assert_eq!(setting_of(&entries[0].1), Some(2));
    let entries = to_stored(ShieldSetting::Fingerprinting, "disabled", "0").unwrap();
    assert_eq!(setting_of(&entries[0].1), Some(1));
}

#[test]
fn test_fingerprinting_from_stored() {
    assert_eq!(from_stored(ShieldSetting::Fingerprinting, 3, None).unwrap(), "standard");
    assert_eq!(from_stored(ShieldSetting::Fingerprinting, 2, None).unwrap(), "aggressive");
    assert_eq!(from_stored(ShieldSetting::Fingerprinting, 1, None).unwrap(), "disabled");
}

#[test]
fn test_https_upgrade_to_stored() {
    let entries = to_stored(ShieldSetting::HttpsUpgrade, "standard", "0").unwrap();
    assert_eq!(setting_of(&entries[0].1), Some(3));
    let entries = to_stored(ShieldSetting::HttpsUpgrade, "strict", "0").unwrap();
    assert_eq!(setting_of(&entries[0].1), Some(2));
    let entries = to_stored(ShieldSetting::HttpsUpgrade, "disabled", "0").unwrap();
    assert_eq!(setting_of(&entries[0].1), Some(1));
}

#[test]
fn test_https_upgrade_from_stored() {
    assert_eq!(from_stored(ShieldSetting::HttpsUpgrade, 3, None).unwrap(), "standard");
    assert_eq!(from_stored(ShieldSetting::HttpsUpgrade, 2, None).unwrap(), "strict");
    assert_eq!(from_stored(ShieldSetting::HttpsUpgrade, 1, None).unwrap(), "disabled");
}

#[test]
fn test_scripts_to_stored() {
    let entries = to_stored(ShieldSetting::Scripts, "allow", "0").unwrap();
    assert_eq!(setting_of(&entries[0].1), Some(1));
    let entries = to_stored(ShieldSetting::Scripts, "block", "0").unwrap();
    assert_eq!(setting_of(&entries[0].1), Some(2));
}

#[test]
fn test_scripts_from_stored() {
    assert_eq!(from_stored(ShieldSetting::Scripts, 1, None).unwrap(), "allow");
    assert_eq!(from_stored(ShieldSetting::Scripts, 2, None).unwrap(), "block");
}

#[test]
fn test_ads_to_stored() {
    let entries = to_stored(ShieldSetting::Ads, "standard", "0").unwrap();
    assert_eq!(entries.len(), 3);
    assert_eq!(entries[0].0, "shieldsAds");
    assert_eq!(setting_of(&entries[0].1), Some(2));
    assert_eq!(entries[1].0, "trackers");
    assert_eq!(setting_of(&entries[1].1), Some(2));
    assert_eq!(entries[2].0, "cosmeticFilteringV2");
    assert_eq!(cosmetic_of(&entries[2].1), Some(2));

    let entries = to_stored(ShieldSetting::Ads, "aggressive", "0").unwrap();
    assert_eq!(setting_of(&entries[0].1), Some(2));
    assert_eq!(cosmetic_of(&entries[2].1), Some(1));

    let entries = to_stored(ShieldSetting::Ads, "disabled", "0").unwrap();
    assert_eq!(setting_of(&entries[0].1), Some(1));
    assert_eq!(setting_of(&entries[1].1), Some(1));
    assert_eq!(cosmetic_of(&entries[2].1), Some(0));
}

#[test]
fn test_ads_from_stored() {
    assert_eq!(from_stored(ShieldSetting::Ads, 2, Some(2)).unwrap(), "standard");
    assert_eq!(from_stored(ShieldSetting::Ads, 2, Some(1)).unwrap(), "aggressive");
    assert_eq!(from_stored(ShieldSetting::Ads, 1, Some(0)).unwrap(), "disabled");
}

#[test]
fn test_domain_pattern() {
    assert_eq!(domain_pattern("example.com").unwrap(), "example.com,*");
}

#[test]
fn test_domain_from_pattern() {
    assert_eq!(domain_from_pattern("example.com,*"), Some("example.com".to_string()));
    assert_eq!(domain_from_pattern("invalid"), None);
}

#[test]
fn test_unknown_stored_value() {
    assert!(from_stored(ShieldSetting::Shields, 99, None).is_err());
}

#[test]
fn test_invalid_cli_value() {
    assert!(to_stored(ShieldSetting::Shields, "invalid", "0").is_err());
}

#[test]
fn test_validate_domain_rejects_quotes() {
    assert!(domain_pattern("foo\"bar").is_err());
    assert!(domain_pattern("foo'bar").is_err());
}

#[test]
fn test_validate_domain_rejects_commas() {
    assert!(domain_pattern("foo,bar").is_err());
}

#[test]
fn test_validate_domain_rejects_unicode() {
    assert!(domain_pattern("exämple.com").is_err());
    assert!(domain_pattern("\u{200b}evil.com").is_err());
}

#[test]
fn test_validate_domain_rejects_empty() {
    assert!(domain_pattern("").is_err());
}

#[test]
fn test_validate_domain_accepts_valid() {
    assert!(domain_pattern("example.com").is_ok());
    assert!(domain_pattern("sub.example.com").is_ok());
    assert!(domain_pattern("my-site.co.uk").is_ok());
    assert!(domain_pattern("test_site.com").is_ok());
}

// ---- further cases of this library ----

#[test]
fn cli_names_round_trip_through_from_cli() {
    for s in ShieldSetting::all() {
        assert_eq!(ShieldSetting::from_cli(s.cli_name()).unwrap(), s);
    }
    match ShieldSetting::from_cli("cookies") {
        Err(CliError::UnknownSetting { name }) => assert_eq!(name, "cookies"),
        other => panic!("unexpected {:?}", other),
    }
}

#[test]
fn json_keys_and_valid_values() {
    assert_eq!(ShieldSetting::Ads.json_keys(), vec!["shieldsAds", "trackers", "cosmeticFilteringV2"]);
    assert_eq!(ShieldSetting::Ads.primary_json_key(), "shieldsAds");
    assert_eq!(ShieldSetting::HttpsUpgrade.json_keys(), vec!["httpsUpgrades"]);
    assert_eq!(ShieldSetting::Scripts.valid_values(), vec!["allow", "block"]);
    assert_eq!(ShieldSetting::HttpsUpgrade.valid_values(), vec!["standard", "strict", "disabled"]);
}

#[test]
fn validate_domain_errors_name_the_problem() {
    assert!(matches!(validate_domain(""), Err(CliError::EmptyDomain)));
    match validate_domain("a b") {
        Err(CliError::InvalidDomain { domain }) => assert_eq!(domain, "a b"),
        other => panic!("unexpected {:?}", other),
    }
}

#[test]
fn to_stored_keeps_the_timestamp() {
    let entries = to_stored(ShieldSetting::Scripts, "block", "13350000000000000").unwrap();
    let lm = entries[0].1.get("last_modified").and_then(|v| v.as_str()).unwrap();
    assert_eq!(lm, "13350000000000000");
}

#[test]
fn to_stored_then_from_stored_gives_the_value_back() {
    for s in ShieldSetting::all() {
        for v in s.valid_values() {
            let entries = to_stored(s, v, "1").unwrap();
            let primary = read_setting_value(&entries[0].1).unwrap();
            let cosmetic = if s == ShieldSetting::Ads { read_cosmetic_value(&entries[2].1) } else { None };
            assert_eq!(from_stored(s, primary, cosmetic).unwrap(), v);
        }
    }
}

#[test]
fn ads_falls_back_on_the_primary_value() {
    assert_eq!(from_stored(ShieldSetting::Ads, 1, None).unwrap(), "disabled");
    assert_eq!(from_stored(ShieldSetting::Ads, 2, Some(7)).unwrap(), "standard");
    match from_stored(ShieldSetting::Ads, 3, None) {
        Err(CliError::UnknownStoredValue { primary, cosmetic, .. }) => {
            assert_eq!(primary, 3);
            assert_eq!(cosmetic, -1);
        }
        other => panic!("unexpected {:?}", other),
    }
}

#[test]
fn domain_from_pattern_needs_the_suffix() {
    assert_eq!(domain_from_pattern(",*"), Some("".to_string()));
    assert_eq!(domain_from_pattern("example.com,"), None);
    assert_eq!(domain_from_pattern("[*.]example.com,*"), Some("[*.]example.com".to_string()));
}
