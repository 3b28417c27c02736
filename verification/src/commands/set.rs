//! `set`: store a shield setting for a domain.
use vstd::prelude::*;

use crate::chromium_time;
use crate::error::CliError;
use crate::json::{Json, JsonValue};
use crate::preferences::{insert_exception, spec_insert_exception};
use crate::shields::{
    self, entries_model, spec_domain_pattern, spec_valid_domain, stored_entries, ShieldSetting,
};
use crate::text::{decimal, owned, str_eq};
use crate::preferences::lemma_insert_exception;
use crate::json::lemma_with_member_member;
use crate::shields::{simple_entry_model, cosmetic_entry_model, stored_code, cosmetic_code};

verus! {

/// What `set` writes: the pattern key, the timestamp, and the (json_key, entry) pairs.
pub struct SetPlan {
    pub pattern: String,
    pub timestamp: String,
    pub entries: Vec<(&'static str, JsonValue)>,
}

/// `prefs` after storing each (json_key, entry) pair under `pattern`, in order.
pub open spec fn spec_apply_entries(prefs: Json, pattern: Seq<char>, es: Seq<(Seq<char>, Json)>) -> Json
    decreases es.len(),
{
    if es.len() == 0 {
        prefs
    } else {
        spec_insert_exception(
            spec_apply_entries(prefs, pattern, es.drop_last()),
            es.last().0,
            pattern,
            es.last().1,
        )
    }
}

/// Whether `value` is one of `values`.
fn contains_value(values: &Vec<&'static str>, value: &str) -> (r: bool)
    ensures
        r == exists|i: int| 0 <= i < values@.len() && (#[trigger] values@[i])@ == value@,
{
    for i in 0..values.len()
        invariant
            forall|j: int| 0 <= j < i ==> (#[trigger] values@[j])@ != value@,
    {
        if str_eq(values[i], value) {
            return true;
        }
    }
    false
}

/// The setting a `set` request names, when its value is one the setting accepts.
fn check_setting_value(setting_name: &str, value: &str) -> (r: Result<ShieldSetting, CliError>)
    ensures
        match r {
            Ok(s) => ShieldSetting::spec_from_cli(setting_name@) == Some(s) && s.spec_valid_values().contains(value@),
            Err(e) => match ShieldSetting::spec_from_cli(setting_name@) {
                None => e matches CliError::UnknownSetting { name } && name@ == setting_name@,
                Some(s) => !s.spec_valid_values().contains(value@) && (
                e matches CliError::InvalidSettingValue { setting_name: n, value: v } && n@
                    == setting_name@ && v@ == value@),
            },
        },
{
    let setting = ShieldSetting::from_cli(setting_name)?;
    let valid = setting.valid_values();
    if !contains_value(&valid, value) {
        proof {
            assert forall|i: int| 0 <= i < setting.spec_valid_values().len() implies setting.spec_valid_values()[i] != value@ by {
                assert(valid@[i]@ == setting.spec_valid_values()[i]);
            }
        }
        return Err(
            CliError::InvalidSettingValue { setting_name: owned(setting_name), value: owned(value) },
        );
    }
    let ghost k = choose|i: int| 0 <= i < valid@.len() && (#[trigger] valid@[i])@ == value@;
    assert(setting.spec_valid_values()[k] == value@);
    Ok(setting)
}

/// Take the time and compute the entries that store `value` under `pattern`.
fn plan_with(setting: ShieldSetting, value: &str, pattern: String) -> (r: Result<SetPlan, CliError>)
    requires
        setting.spec_valid_values().contains(value@),
    ensures
        match r {
            Ok(plan) => plan.pattern@ == pattern@ && stored_entries(setting, value@, plan.timestamp@)
                == Some(entries_model(plan.entries@)) && (exists|n: int|
                chromium_time::UNIX_TO_CHROMIUM_EPOCH_OFFSET_US <= n <= i64::MAX && #[trigger] decimal(n)
                == plan.timestamp@),
            Err(e) => e is TimestampOverflow || e is ClockBeforeEpoch,
        },
{
    let timestamp = chromium_time::now()?;
    let entries = match shields::to_stored(setting, value, timestamp.as_str()) {
        Ok(es) => es,
        Err(e) => {
            proof {
                assert(shields::stored_code(setting, value@) is Some);
            }
            return Err(e);
        },
    };
    Ok(SetPlan { pattern, timestamp, entries })
}

/// Check a `set` request and compute what it stores.
/// Checks, in order: the setting name, the value, the domain; then takes the time.
pub fn run(domain: &str, setting_name: &str, value: &str) -> (r: Result<SetPlan, CliError>)
    ensures
        match r {
            Ok(plan) => match ShieldSetting::spec_from_cli(setting_name@) {
                Some(s) => s.spec_valid_values().contains(value@) && spec_valid_domain(domain@)
                    && plan.pattern@ == spec_domain_pattern(domain@) && stored_entries(
                    s,
                    value@,
                    plan.timestamp@,
                ) == Some(entries_model(plan.entries@)) && (exists|n: int|
                    chromium_time::UNIX_TO_CHROMIUM_EPOCH_OFFSET_US <= n <= i64::MAX && #[trigger] decimal(n)
                    == plan.timestamp@),
                None => false,
            },
            Err(e) => match ShieldSetting::spec_from_cli(setting_name@) {
                None => e matches CliError::UnknownSetting { name } && name@ == setting_name@,
                Some(s) => if !s.spec_valid_values().contains(value@) {
                    e matches CliError::InvalidSettingValue { setting_name: n, value: v } && n@
                        == setting_name@ && v@ == value@
                } else if !spec_valid_domain(domain@) {
                    (domain@.len() == 0 ==> e is EmptyDomain) && (domain@.len() > 0 ==> (
                    e matches CliError::InvalidDomain { domain: d } && d@ == domain@))
                } else {
                    e is TimestampOverflow || e is ClockBeforeEpoch
                },
            },
        },
{
    let setting = check_setting_value(setting_name, value)?;
    let pattern = shields::domain_pattern(domain)?;
    plan_with(setting, value, pattern)
}

/// `set --pattern`: like `run`, with a raw match pattern in place of a domain.
/// Checks, in order: the setting name, the value; then takes the time.
pub fn run_pattern(pattern: &str, setting_name: &str, value: &str) -> (r: Result<SetPlan, CliError>)
    ensures
        match r {
            Ok(plan) => match ShieldSetting::spec_from_cli(setting_name@) {
                Some(s) => s.spec_valid_values().contains(value@) && plan.pattern@ == pattern@
                    && stored_entries(s, value@, plan.timestamp@) == Some(entries_model(plan.entries@))
                    && (exists|n: int|
                    chromium_time::UNIX_TO_CHROMIUM_EPOCH_OFFSET_US <= n <= i64::MAX && #[trigger] decimal(n)
                    == plan.timestamp@),
                None => false,
            },
            Err(e) => match ShieldSetting::spec_from_cli(setting_name@) {
                None => e matches CliError::UnknownSetting { name } && name@ == setting_name@,
                Some(s) => if !s.spec_valid_values().contains(value@) {
                    e matches CliError::InvalidSettingValue { setting_name: n, value: v } && n@
                        == setting_name@ && v@ == value@
                } else {
                    e is TimestampOverflow || e is ClockBeforeEpoch
                },
            },
        },
{
    let setting = check_setting_value(setting_name, value)?;
    plan_with(setting, value, owned(pattern))
}

/// Store the planned entries in a Preferences document.
pub fn apply(prefs: &mut JsonValue, plan: SetPlan)
    requires
        old(prefs)@.indexable(),
    ensures
        final(prefs)@ == spec_apply_entries(old(prefs)@, plan.pattern@, entries_model(plan.entries@)),
{
    let ghost start = prefs@;
    let ghost es = entries_model(plan.entries@);
    let SetPlan { pattern, timestamp: _, entries } = plan;
    let ghost ents = entries@;
    for p in it: entries
        invariant
            it.seq() == ents,
            es == entries_model(ents),
            prefs@.indexable(),
            prefs@ == spec_apply_entries(start, pattern@, es.subrange(0, it.index())),
    {
        let ghost i = it.index();
        let (json_key, entry) = p;
        proof {
            crate::preferences::lemma_insert_exception(prefs@, json_key@, pattern@, entry@, json_key@);
            assert(es.subrange(0, i + 1).drop_last() =~= es.subrange(0, i));
        }
        insert_exception(prefs, json_key, pattern.clone(), entry);
    }
    proof {
        assert(es.subrange(0, es.len() as int) =~= es);
    }
}

} // verus!

verus! {

/// Setting a value for a pattern (a domain's `domain,*` or a raw pattern) and then reading that
/// setting back (`get`) gives the value that was set, whatever the document held before and
/// whatever the timestamp.
pub proof fn lemma_set_then_get(
    prefs: Json,
    pattern: Seq<char>,
    setting: ShieldSetting,
    value: Seq<char>,
    lm: Seq<char>,
)
    requires
        prefs.indexable(),
        setting.spec_valid_values().contains(value),
    ensures
        stored_entries(setting, value, lm) is Some,
        crate::commands::get::spec_setting_display(
            spec_apply_entries(prefs, pattern, stored_entries(setting, value, lm)->0),
            setting,
            pattern,
        ) == value,
{
    shields::lemma_stored_roundtrip(setting, value);
    let pat = pattern;
    let c = stored_code(setting, value)->0;
    let es = stored_entries(setting, value, lm)->0;
    let pk = setting.spec_primary_json_key();
    shields::lemma_read_entries(c, lm);
    shields::lemma_read_entries(cosmetic_code(value), lm);
    if setting is Ads {
        reveal_strlit("shieldsAds");
        reveal_strlit("trackers");
        reveal_strlit("cosmeticFilteringV2");
        let cf = "cosmeticFilteringV2"@;
        assert("shieldsAds"@.len() != "trackers"@.len());
        assert("shieldsAds"@.len() != cf.len());
        assert("trackers"@.len() != cf.len());
        let p1 = spec_insert_exception(prefs, "shieldsAds"@, pat, simple_entry_model(c, lm));
        let p2 = spec_insert_exception(p1, "trackers"@, pat, simple_entry_model(c, lm));
        let p3 = spec_insert_exception(p2, cf, pat, cosmetic_entry_model(cosmetic_code(value), lm));
        let es2 = es.drop_last();
        let es1 = es2.drop_last();
        assert(es1.drop_last() =~= Seq::<(Seq<char>, Json)>::empty());
        assert(spec_apply_entries(prefs, pat, es1.drop_last()) == prefs);
        assert(spec_apply_entries(prefs, pat, es1) == p1);
        assert(spec_apply_entries(prefs, pat, es2) == p2);
        assert(spec_apply_entries(prefs, pat, es) == p3);
        lemma_insert_exception(prefs, "shieldsAds"@, pat, simple_entry_model(c, lm), "shieldsAds"@);
        lemma_insert_exception(p1, "trackers"@, pat, simple_entry_model(c, lm), "shieldsAds"@);
        lemma_insert_exception(p2, cf, pat, cosmetic_entry_model(cosmetic_code(value), lm), "shieldsAds"@);
        lemma_insert_exception(p2, cf, pat, cosmetic_entry_model(cosmetic_code(value), lm), cf);
        let e1 = crate::preferences::exceptions_object(prefs).object_at("shieldsAds"@);
        lemma_with_member_member(e1, pat, simple_entry_model(c, lm), pat);
        let e3 = crate::preferences::exceptions_object(p2).object_at(cf);
        lemma_with_member_member(e3, pat, cosmetic_entry_model(cosmetic_code(value), lm), pat);
    } else {
        let p1 = spec_insert_exception(prefs, pk, pat, simple_entry_model(c, lm));
        assert(es.drop_last() =~= Seq::<(Seq<char>, Json)>::empty());
        assert(spec_apply_entries(prefs, pat, es.drop_last()) == prefs);
        assert(spec_apply_entries(prefs, pat, es) == p1);
        lemma_insert_exception(prefs, pk, pat, simple_entry_model(c, lm), pk);
        let e1 = crate::preferences::exceptions_object(prefs).object_at(pk);
        lemma_with_member_member(e1, pat, simple_entry_model(c, lm), pat);
    }
}

} // verus!

verus! {

/// Storing entries under one pattern changes no entry of any other pattern, and keeps the
/// document an object.
pub proof fn lemma_set_preserves_other_patterns(
    prefs: Json,
    pattern: Seq<char>,
    es: Seq<(Seq<char>, Json)>,
    key2: Seq<char>,
    pattern2: Seq<char>,
)
    requires
        prefs.indexable(),
        pattern2 != pattern,
    ensures
        spec_apply_entries(prefs, pattern, es).indexable(),
        crate::preferences::spec_stored_entry(spec_apply_entries(prefs, pattern, es), key2, pattern2)
            == crate::preferences::spec_stored_entry(prefs, key2, pattern2),
    decreases es.len(),
{
    if es.len() > 0 {
        lemma_set_preserves_other_patterns(prefs, pattern, es.drop_last(), key2, pattern2);
        let p = spec_apply_entries(prefs, pattern, es.drop_last());
        crate::preferences::lemma_insert_stored_entry(p, es.last().0, pattern, es.last().1, key2, pattern2);
        lemma_insert_exception(p, es.last().0, pattern, es.last().1, key2);
    }
}

} // verus!
