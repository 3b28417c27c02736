//! `get`: the shield settings of one domain.
use vstd::prelude::*;

use crate::error::CliError;
use crate::json::{Json, JsonValue};
use crate::preferences::{get_exception_entries, spec_exception_entries};
use crate::shields::{
    self, all_settings, read_cosmetic_value, spec_domain_pattern, spec_read_cosmetic_value,
    spec_read_setting_value, spec_valid_domain, stored_to_cli, ShieldSetting,
};
use crate::text::owned;

verus! {

/// The cosmetic filtering value stored for `pattern`, read for ads.
pub open spec fn spec_cosmetic_for(prefs: Json, pattern: Seq<char>) -> Option<i64> {
    match spec_exception_entries(prefs, "cosmeticFilteringV2"@) {
        Some(es) => match es.member(pattern) {
            Some(entry) => spec_read_cosmetic_value(entry),
            None => None,
        },
        None => None,
    }
}

/// What `get` shows for a setting: `default` when nothing is stored, `unknown` when the
/// stored value has no CLI form.
pub open spec fn spec_setting_display(prefs: Json, setting: ShieldSetting, pattern: Seq<char>) -> Seq<char> {
    match spec_exception_entries(prefs, setting.spec_primary_json_key()) {
        None => "default"@,
        Some(es) => match es.member(pattern) {
            None => "default"@,
            Some(entry) => match spec_read_setting_value(entry) {
                None => "default"@,
                Some(primary) => {
                    let cosmetic = if setting is Ads {
                        spec_cosmetic_for(prefs, pattern)
                    } else {
                        None
                    };
                    match stored_to_cli(setting, primary, cosmetic) {
                        Some(v) => v,
                        None => "unknown"@,
                    }
                },
            },
        },
    }
}

/// The value shown for one setting of a pattern.
pub fn read_setting_value(prefs: &JsonValue, setting: ShieldSetting, pattern: &str) -> (r: String)
    ensures
        r@ == spec_setting_display(prefs@, setting, pattern@),
{
    let primary_key = setting.primary_json_key();
    let entries = match get_exception_entries(prefs, primary_key) {
        Some(e) => e,
        None => return owned("default"),
    };
    let entry = match entries.get(pattern) {
        Some(e) => e,
        None => return owned("default"),
    };
    let primary_value = match shields::read_setting_value(entry) {
        Some(v) => v,
        None => return owned("default"),
    };
    let cosmetic_value = if setting == ShieldSetting::Ads {
        match get_exception_entries(prefs, "cosmeticFilteringV2") {
            Some(es) => match es.get(pattern) {
                Some(entry) => read_cosmetic_value(entry),
                None => None,
            },
            None => None,
        }
    } else {
        None
    };
    match shields::from_stored(setting, primary_value, cosmetic_value) {
        Ok(v) => v,
        Err(_) => owned("unknown"),
    }
}

/// The (setting, value) rows that `get` shows for a pattern, in the order of `all_settings()`.
pub open spec fn spec_pattern_rows(prefs: Json, pattern: Seq<char>) -> Seq<(Seq<char>, Seq<char>)> {
    all_settings().map_values(|s: ShieldSetting| (s.spec_cli_name(), spec_setting_display(prefs, s, pattern)))
}

/// The (setting, value) rows that `get` shows for a domain, in the order of `all_settings()`.
pub open spec fn spec_get_rows(prefs: Json, domain: Seq<char>) -> Seq<(Seq<char>, Seq<char>)> {
    spec_pattern_rows(prefs, spec_domain_pattern(domain))
}

pub open spec fn rows_model(rows: Seq<(String, String)>) -> Seq<(Seq<char>, Seq<char>)> {
    rows.map_values(|r: (String, String)| (r.0@, r.1@))
}

/// `get --pattern`: one (CLI name, value) row per setting for a raw match pattern.
pub fn run_pattern(prefs: &JsonValue, pattern: &str) -> (rows: Vec<(String, String)>)
    ensures
        rows_model(rows@) == spec_pattern_rows(prefs@, pattern@),
{
    let settings = ShieldSetting::all();
    let ghost want = spec_pattern_rows(prefs@, pattern@);
    let mut rows: Vec<(String, String)> = Vec::new();
    for i in 0..settings.len()
        invariant
            settings@ == all_settings(),
            want == spec_pattern_rows(prefs@, pattern@),
            rows_model(rows@) == want.subrange(0, i as int),
    {
        let setting = settings[i];
        let value = read_setting_value(prefs, setting, pattern);
        let row = (owned(setting.cli_name()), value);
        let ghost rm = (row.0@, row.1@);
        let ghost before = rows@;
        rows.push(row);
        assert(rm == want[i as int]);
        assert(rows_model(rows@) =~= rows_model(before).push(rm));
        assert(want.subrange(0, i + 1) =~= want.subrange(0, i as int).push(want[i as int]));
    }
    assert(want.subrange(0, want.len() as int) =~= want);
    rows
}

/// Show shield settings for a domain: one (CLI name, value) row per setting.
pub fn run(prefs: &JsonValue, domain: &str) -> (r: Result<Vec<(String, String)>, CliError>)
    ensures
        match r {
            Ok(rows) => spec_valid_domain(domain@) && rows_model(rows@) == spec_get_rows(prefs@, domain@),
            Err(e) => !spec_valid_domain(domain@) && (domain@.len() == 0 ==> e is EmptyDomain)
                && (domain@.len() > 0 ==> (e matches CliError::InvalidDomain { domain: d } && d@
                == domain@)),
        },
{
    let pattern = shields::domain_pattern(domain)?;
    Ok(run_pattern(prefs, pattern.as_str()))
}

} // verus!
