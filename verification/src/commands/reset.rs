//! `reset`: remove shield overrides for a domain.
use vstd::prelude::*;

use crate::commands::get::spec_setting_display;
use crate::error::CliError;
use crate::json::{Json, JsonValue};
use crate::preferences::{
    lemma_remove_exception, lemma_remove_stored_entry, remove_exception, spec_exception_entries,
    spec_remove_exception, spec_stored_entry,
};
use crate::shields::{self, all_settings, spec_domain_pattern, spec_valid_domain, ShieldSetting};

verus! {

/// What `reset` removes: the pattern key and the settings whose entries go.
pub struct ResetPlan {
    pub pattern: String,
    pub settings: Vec<ShieldSetting>,
}

/// The JSON keys of the settings, in order.
pub open spec fn reset_keys(settings: Seq<ShieldSetting>) -> Seq<Seq<char>>
    decreases settings.len(),
{
    if settings.len() == 0 {
        Seq::empty()
    } else {
        reset_keys(settings.drop_last()) + settings.last().spec_json_keys()
    }
}

/// `prefs` after removing `pattern` from the exception object of each key, in order.
pub open spec fn spec_remove_keys(prefs: Json, pattern: Seq<char>, keys: Seq<Seq<char>>) -> Json
    decreases keys.len(),
{
    if keys.len() == 0 {
        prefs
    } else {
        spec_remove_exception(spec_remove_keys(prefs, pattern, keys.drop_last()), keys.last(), pattern)
    }
}

/// The settings a `reset` request names: one, or all of them.
fn reset_settings(setting_name: Option<&str>) -> (r: Result<Vec<ShieldSetting>, CliError>)
    ensures
        match r {
            Ok(v) => match setting_name {
                Some(n) => match ShieldSetting::spec_from_cli(n@) {
                    Some(s) => v@ == seq![s],
                    None => false,
                },
                None => v@ == all_settings(),
            },
            Err(e) => setting_name matches Some(n) && ShieldSetting::spec_from_cli(n@) is None && (
            e matches CliError::UnknownSetting { name } && name@ == n@),
        },
{
    match setting_name {
        Some(name) => {
            let s = ShieldSetting::from_cli(name)?;
            let v = vec![s];
            assert(v@ =~= seq![s]);
            Ok(v)
        },
        None => Ok(ShieldSetting::all()),
    }
}

/// Check a `reset` request: the domain first, then the setting name when one is given.
pub fn run(domain: &str, setting_name: Option<&str>) -> (r: Result<ResetPlan, CliError>)
    ensures
        match r {
            Ok(plan) => spec_valid_domain(domain@) && plan.pattern@ == spec_domain_pattern(domain@)
                && match setting_name {
                Some(n) => match ShieldSetting::spec_from_cli(n@) {
                    Some(s) => plan.settings@ == seq![s],
                    None => false,
                },
                None => plan.settings@ == all_settings(),
            },
            Err(e) => if !spec_valid_domain(domain@) {
                (domain@.len() == 0 ==> e is EmptyDomain) && (domain@.len() > 0 ==> (
                e matches CliError::InvalidDomain { domain: d } && d@ == domain@))
            } else {
                setting_name matches Some(n) && ShieldSetting::spec_from_cli(n@) is None && (
                e matches CliError::UnknownSetting { name } && name@ == n@)
            },
        },
{
    let pattern = shields::domain_pattern(domain)?;
    let settings = reset_settings(setting_name)?;
    Ok(ResetPlan { pattern, settings })
}

/// `reset --pattern`: like `run`, with a raw match pattern in place of a domain.
pub fn run_pattern(pattern: &str, setting_name: Option<&str>) -> (r: Result<ResetPlan, CliError>)
    ensures
        match r {
            Ok(plan) => plan.pattern@ == pattern@ && match setting_name {
                Some(n) => match ShieldSetting::spec_from_cli(n@) {
                    Some(s) => plan.settings@ == seq![s],
                    None => false,
                },
                None => plan.settings@ == all_settings(),
            },
            Err(e) => setting_name matches Some(n) && ShieldSetting::spec_from_cli(n@) is None && (
            e matches CliError::UnknownSetting { name } && name@ == n@),
        },
{
    let settings = reset_settings(setting_name)?;
    Ok(ResetPlan { pattern: crate::text::owned(pattern), settings })
}

/// Remove the planned entries from a Preferences document.
pub fn apply(prefs: &mut JsonValue, plan: &ResetPlan)
    requires
        old(prefs)@.indexable(),
    ensures
        final(prefs)@ == spec_remove_keys(old(prefs)@, plan.pattern@, reset_keys(plan.settings@)),
        final(prefs)@.indexable(),
{
    let ghost start = prefs@;
    let ghost pat = plan.pattern@;
    for i in 0..plan.settings.len()
        invariant
            prefs@.indexable(),
            pat == plan.pattern@,
            prefs@ == spec_remove_keys(start, pat, reset_keys(plan.settings@.subrange(0, i as int))),
    {
        let setting = plan.settings[i];
        let keys = setting.json_keys();
        let ghost before = reset_keys(plan.settings@.subrange(0, i as int));
        proof {
            assert(plan.settings@.subrange(0, i + 1).drop_last() =~= plan.settings@.subrange(0, i as int));
        }
        for j in 0..keys.len()
            invariant
                prefs@.indexable(),
                pat == plan.pattern@,
                keys@.len() == setting.spec_json_keys().len(),
                forall|t: int| 0 <= t < keys@.len() ==> (#[trigger] keys@[t])@ == setting.spec_json_keys()[t],
                prefs@ == spec_remove_keys(start, pat, before + setting.spec_json_keys().subrange(0, j as int)),
        {
            let ghost ks = before + setting.spec_json_keys().subrange(0, j as int);
            let ghost ks2 = before + setting.spec_json_keys().subrange(0, j + 1);
            proof {
                assert(ks2.drop_last() =~= ks);
                assert(ks2.last() == keys@[j as int]@);
                lemma_remove_exception(prefs@, keys@[j as int]@, pat, keys@[j as int]@);
            }
            remove_exception(prefs, keys[j], plan.pattern.as_str());
        }
        proof {
            assert(setting.spec_json_keys().subrange(0, keys@.len() as int) =~= setting.spec_json_keys());
            assert(reset_keys(plan.settings@.subrange(0, i + 1)) == before + setting.spec_json_keys());
        }
    }
    proof {
        assert(plan.settings@.subrange(0, plan.settings@.len() as int) =~= plan.settings@);
    }
}

/// After removing a pattern under a list of keys, its entries under those keys are gone and
/// every other entry reads as before.
pub proof fn lemma_remove_keys_stored_entry(
    prefs: Json,
    pattern: Seq<char>,
    keys: Seq<Seq<char>>,
    key2: Seq<char>,
    pattern2: Seq<char>,
)
    requires
        prefs.indexable(),
    ensures
        spec_remove_keys(prefs, pattern, keys).indexable(),
        spec_stored_entry(spec_remove_keys(prefs, pattern, keys), key2, pattern2) == if pattern2
            == pattern && keys.contains(key2) {
            None
        } else {
            spec_stored_entry(prefs, key2, pattern2)
        },
    decreases keys.len(),
{
    if keys.len() > 0 {
        let init = keys.drop_last();
        lemma_remove_keys_stored_entry(prefs, pattern, init, key2, pattern2);
        let p = spec_remove_keys(prefs, pattern, init);
        lemma_remove_stored_entry(p, keys.last(), pattern, key2, pattern2);
        lemma_remove_exception(p, keys.last(), pattern, key2);
        assert(keys.contains(key2) <==> (init.contains(key2) || keys.last() == key2)) by {
            if keys.contains(key2) {
                let t = choose|t: int| 0 <= t < keys.len() && keys[t] == key2;
                if t < keys.len() - 1 {
                    assert(init[t] == key2);
                }
            }
            if init.contains(key2) {
                let t = choose|t: int| 0 <= t < init.len() && init[t] == key2;
                assert(keys[t] == key2);
            }
        }
    }
}

/// What `get` shows depends only on the stored entries of the setting's keys.
pub proof fn lemma_display_default_when_absent(prefs: Json, setting: ShieldSetting, pattern: Seq<char>)
    requires
        spec_stored_entry(prefs, setting.spec_primary_json_key(), pattern) is None,
    ensures
        spec_setting_display(prefs, setting, pattern) == "default"@,
{
}

/// Each setting's primary key is among the keys that resetting it removes.
pub proof fn lemma_reset_keys_contain_primary(settings: Seq<ShieldSetting>, i: int)
    requires
        0 <= i < settings.len(),
    ensures
        reset_keys(settings).contains(settings[i].spec_primary_json_key()),
    decreases settings.len(),
{
    let init = settings.drop_last();
    let pk = settings[i].spec_primary_json_key();
    let ks = settings.last().spec_json_keys();
    if i < settings.len() - 1 {
        lemma_reset_keys_contain_primary(init, i);
        let t = choose|t: int| 0 <= t < reset_keys(init).len() && reset_keys(init)[t] == pk;
        assert(reset_keys(settings)[t] == pk);
    } else {
        assert(ks[0] == pk);
        assert(reset_keys(settings)[reset_keys(init).len() as int] == pk);
    }
}

/// After resetting settings for a pattern (a domain's `domain,*` or a raw pattern), `get` shows
/// `default` for each of them.
pub proof fn lemma_reset_then_get(prefs: Json, pattern: Seq<char>, settings: Seq<ShieldSetting>, i: int)
    requires
        prefs.indexable(),
        0 <= i < settings.len(),
    ensures
        spec_setting_display(
            spec_remove_keys(prefs, pattern, reset_keys(settings)),
            settings[i],
            pattern,
        ) == "default"@,
{
    let pat = pattern;
    let pk = settings[i].spec_primary_json_key();
    lemma_reset_keys_contain_primary(settings, i);
    lemma_remove_keys_stored_entry(prefs, pat, reset_keys(settings), pk, pat);
    lemma_display_default_when_absent(spec_remove_keys(prefs, pat, reset_keys(settings)), settings[i], pat);
}

/// Resetting one domain leaves every entry of every other pattern as it was.
pub proof fn lemma_reset_preserves_other_patterns(
    prefs: Json,
    pattern: Seq<char>,
    settings: Seq<ShieldSetting>,
    key2: Seq<char>,
    pattern2: Seq<char>,
)
    requires
        prefs.indexable(),
        pattern2 != pattern,
    ensures
        spec_stored_entry(spec_remove_keys(prefs, pattern, reset_keys(settings)), key2, pattern2)
            == spec_stored_entry(prefs, key2, pattern2),
{
    lemma_remove_keys_stored_entry(prefs, pattern, reset_keys(settings), key2, pattern2);
}

} // verus!
