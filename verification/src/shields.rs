//! Shield settings, their command-line values and the entries stored for them.
use vstd::prelude::*;

use crate::error::CliError;
use crate::json::{Json, JsonValue, lemma_members_set_absent};
use crate::text::{chars_of, owned, str_eq};

verus! {

broadcast use vstd::string::group_string_axioms;

/// All shield setting types.
#[derive(Debug, Clone, Copy, PartialEq, Eq, Hash, Structural)]
pub enum ShieldSetting {
    Shields,
    Ads,
    Fingerprinting,
    HttpsUpgrade,
    Scripts,
}

/// The settings in the order in which `get`, `list` and `reset` visit them.
pub open spec fn all_settings() -> Seq<ShieldSetting> {
    seq![
        ShieldSetting::Shields,
        ShieldSetting::Ads,
        ShieldSetting::Fingerprinting,
        ShieldSetting::HttpsUpgrade,
        ShieldSetting::Scripts,
    ]
}

impl ShieldSetting {
    /// All settings, in order.
    pub fn all() -> (r: Vec<ShieldSetting>)
        ensures
            r@ == all_settings(),
    {
        let r = vec![
            ShieldSetting::Shields,
            ShieldSetting::Ads,
            ShieldSetting::Fingerprinting,
            ShieldSetting::HttpsUpgrade,
            ShieldSetting::Scripts,
        ];
        assert(r@ =~= all_settings());
        r
    }

    pub open spec fn spec_cli_name(self) -> Seq<char> {
        match self {
            ShieldSetting::Shields => "shields"@,
            ShieldSetting::Ads => "ads"@,
            ShieldSetting::Fingerprinting => "fingerprinting"@,
            ShieldSetting::HttpsUpgrade => "https-upgrade"@,
            ShieldSetting::Scripts => "scripts"@,
        }
    }

    /// CLI name for this setting.
    pub fn cli_name(&self) -> (r: &'static str)
        ensures
            r@ == self.spec_cli_name(),
    {
        match self {
            ShieldSetting::Shields => "shields",
            ShieldSetting::Ads => "ads",
            ShieldSetting::Fingerprinting => "fingerprinting",
            ShieldSetting::HttpsUpgrade => "https-upgrade",
            ShieldSetting::Scripts => "scripts",
        }
    }

    /// The setting whose CLI name is `s`.
    pub open spec fn spec_from_cli(s: Seq<char>) -> Option<ShieldSetting> {
        if s == "shields"@ {
            Some(ShieldSetting::Shields)
        } else if s == "ads"@ {
            Some(ShieldSetting::Ads)
        } else if s == "fingerprinting"@ {
            Some(ShieldSetting::Fingerprinting)
        } else if s == "https-upgrade"@ {
            Some(ShieldSetting::HttpsUpgrade)
        } else if s == "scripts"@ {
            Some(ShieldSetting::Scripts)
        } else {
            None
        }
    }

    /// Parse a CLI setting name.
    pub fn from_cli(s: &str) -> (r: Result<ShieldSetting, CliError>)
        ensures
            match r {
                Ok(x) => Self::spec_from_cli(s@) == Some(x),
                Err(e) => Self::spec_from_cli(s@) is None && (e matches CliError::UnknownSetting { name }
                    && name@ == s@),
            },
    {
        if str_eq(s, "shields") {
            Ok(ShieldSetting::Shields)
        } else if str_eq(s, "ads") {
            Ok(ShieldSetting::Ads)
        } else if str_eq(s, "fingerprinting") {
            Ok(ShieldSetting::Fingerprinting)
        } else if str_eq(s, "https-upgrade") {
            Ok(ShieldSetting::HttpsUpgrade)
        } else if str_eq(s, "scripts") {
            Ok(ShieldSetting::Scripts)
        } else {
            Err(CliError::UnknownSetting { name: owned(s) })
        }
    }

    pub open spec fn spec_json_keys(self) -> Seq<Seq<char>> {
        match self {
            ShieldSetting::Shields => seq!["braveShields"@],
            ShieldSetting::Ads => seq!["shieldsAds"@, "trackers"@, "cosmeticFilteringV2"@],
            ShieldSetting::Fingerprinting => seq!["fingerprintingV2"@],
            ShieldSetting::HttpsUpgrade => seq!["httpsUpgrades"@],
            ShieldSetting::Scripts => seq!["javascript"@],
        }
    }

    /// JSON keys in Preferences exceptions that this setting reads/writes.
    pub fn json_keys(&self) -> (r: Vec<&'static str>)
        ensures
            r@.len() == self.spec_json_keys().len(),
            forall|i: int| 0 <= i < r@.len() ==> (#[trigger] r@[i])@ == self.spec_json_keys()[i],
    {
        match self {
            ShieldSetting::Shields => vec!["braveShields"],
            ShieldSetting::Ads => vec!["shieldsAds", "trackers", "cosmeticFilteringV2"],
            ShieldSetting::Fingerprinting => vec!["fingerprintingV2"],
            ShieldSetting::HttpsUpgrade => vec!["httpsUpgrades"],
            ShieldSetting::Scripts => vec!["javascript"],
        }
    }

    pub open spec fn spec_primary_json_key(self) -> Seq<char> {
        match self {
            ShieldSetting::Shields => "braveShields"@,
            ShieldSetting::Ads => "shieldsAds"@,
            ShieldSetting::Fingerprinting => "fingerprintingV2"@,
            ShieldSetting::HttpsUpgrade => "httpsUpgrades"@,
            ShieldSetting::Scripts => "javascript"@,
        }
    }

    /// The primary JSON key used for reading the setting value.
    pub fn primary_json_key(&self) -> (r: &'static str)
        ensures
            r@ == self.spec_primary_json_key(),
    {
        match self {
            ShieldSetting::Shields => "braveShields",
            ShieldSetting::Ads => "shieldsAds",
            ShieldSetting::Fingerprinting => "fingerprintingV2",
            ShieldSetting::HttpsUpgrade => "httpsUpgrades",
            ShieldSetting::Scripts => "javascript",
        }
    }

    pub open spec fn spec_valid_values(self) -> Seq<Seq<char>> {
        match self {
            ShieldSetting::Shields => seq!["on"@, "off"@],
            ShieldSetting::Ads => seq!["standard"@, "aggressive"@, "disabled"@],
            ShieldSetting::Fingerprinting => seq!["standard"@, "aggressive"@, "disabled"@],
            ShieldSetting::HttpsUpgrade => seq!["standard"@, "strict"@, "disabled"@],
            ShieldSetting::Scripts => seq!["allow"@, "block"@],
        }
    }

    /// Valid CLI values for this setting.
    pub fn valid_values(&self) -> (r: Vec<&'static str>)
        ensures
            r@.len() == self.spec_valid_values().len(),
            forall|i: int| 0 <= i < r@.len() ==> (#[trigger] r@[i])@ == self.spec_valid_values()[i],
    {
        match self {
            ShieldSetting::Shields => vec!["on", "off"],
            ShieldSetting::Ads => vec!["standard", "aggressive", "disabled"],
            ShieldSetting::Fingerprinting => vec!["standard", "aggressive", "disabled"],
            ShieldSetting::HttpsUpgrade => vec!["standard", "strict", "disabled"],
            ShieldSetting::Scripts => vec!["allow", "block"],
        }
    }
}

} // verus!

verus! {

/// Characters allowed in a domain: ASCII letters and digits, `.`, `-` and `_`.
pub open spec fn is_domain_char(c: char) -> bool {
    ('a' <= c && c <= 'z') || ('A' <= c && c <= 'Z') || ('0' <= c && c <= '9') || c == '.' || c
        == '-' || c == '_'
}

/// A domain is non-empty and made of domain characters only.
pub open spec fn spec_valid_domain(d: Seq<char>) -> bool {
    d.len() > 0 && forall|i: int| 0 <= i < d.len() ==> is_domain_char(#[trigger] d[i])
}

fn domain_char(c: char) -> (b: bool)
    ensures
        b == is_domain_char(c),
{
    ('a' <= c && c <= 'z') || ('A' <= c && c <= 'Z') || ('0' <= c && c <= '9') || c == '.' || c
        == '-' || c == '_'
}

/// Validate that a domain contains only safe characters.
pub fn validate_domain(domain: &str) -> (r: Result<(), CliError>)
    ensures
        r is Ok <==> spec_valid_domain(domain@),
        r matches Err(e) ==> (domain@.len() == 0 ==> e is EmptyDomain) && (domain@.len() > 0 ==> (
        e matches CliError::InvalidDomain { domain: d } && d@ == domain@)),
{
    let cs = chars_of(domain);
    if cs.len() == 0 {
        return Err(CliError::EmptyDomain);
    }
    let mut i: usize = 0;
    while i < cs.len()
        invariant
            cs@ == domain@,
            i <= cs@.len(),
            forall|j: int| 0 <= j < i ==> is_domain_char(#[trigger] cs@[j]),
        decreases cs@.len() - i,
    {
        if !domain_char(cs[i]) {
            return Err(CliError::InvalidDomain { domain: owned(domain) });
        }
        i = i + 1;
    }
    Ok(())
}

/// The pattern key `domain,*` used in Preferences exceptions.
pub open spec fn spec_domain_pattern(domain: Seq<char>) -> Seq<char> {
    domain + ",*"@
}

/// Format a domain into the pattern key used in Preferences exceptions.
pub fn domain_pattern(domain: &str) -> (r: Result<String, CliError>)
    ensures
        match r {
            Ok(p) => spec_valid_domain(domain@) && p@ == spec_domain_pattern(domain@),
            Err(e) => !spec_valid_domain(domain@) && (domain@.len() == 0 ==> e is EmptyDomain)
                && (domain@.len() > 0 ==> (e matches CliError::InvalidDomain { domain: d } && d@
                == domain@)),
        },
{
    validate_domain(domain)?;
    Ok(crate::text::concat(domain, ",*"))
}

/// The domain of a pattern key `domain,*`.
pub open spec fn spec_domain_from_pattern(pattern: Seq<char>) -> Option<Seq<char>> {
    if pattern.len() >= 2 && pattern[pattern.len() - 2] == ',' && pattern[pattern.len() - 1]
        == '*' {
        Some(pattern.subrange(0, pattern.len() - 2))
    } else {
        None
    }
}

/// Extract the domain from a pattern key like "example.com,*".
pub fn domain_from_pattern(pattern: &str) -> (r: Option<String>)
    ensures
        match r {
            Some(d) => spec_domain_from_pattern(pattern@) == Some(d@),
            None => spec_domain_from_pattern(pattern@) is None,
        },
{
    let cs = chars_of(pattern);
    let n = cs.len();
    if n >= 2 && cs[n - 2] == ',' && cs[n - 1] == '*' {
        let mut d: Vec<char> = Vec::new();
        let mut i: usize = 0;
        while i < n - 2
            invariant
                n == cs@.len(),
                n >= 2,
                i <= n - 2,
                d@ == cs@.subrange(0, i as int),
            decreases n - 2 - i,
        {
            d.push(cs[i]);
            i = i + 1;
            assert(d@ =~= cs@.subrange(0, i as int));
        }
        Some(crate::text::string_from_chars(&d))
    } else {
        None
    }
}

/// Domain and pattern are inverse: the domain of `domain,*` is `domain`.
pub proof fn lemma_domain_pattern_roundtrip(domain: Seq<char>)
    ensures
        spec_domain_from_pattern(spec_domain_pattern(domain)) == Some(domain),
{
    reveal_strlit(",*");
    let p = spec_domain_pattern(domain);
    assert(p.subrange(0, p.len() - 2) =~= domain);
}

/// The only pattern whose domain is `domain` is `domain,*`.
pub proof fn lemma_pattern_of_domain(pattern: Seq<char>)
    requires
        spec_domain_from_pattern(pattern) is Some,
    ensures
        pattern == spec_domain_pattern(spec_domain_from_pattern(pattern)->0),
{
    reveal_strlit(",*");
    let d = spec_domain_from_pattern(pattern)->0;
    assert(spec_domain_pattern(d) =~= pattern);
}

/// Distinct settings have distinct CLI names.
pub proof fn lemma_cli_name_injective(a: ShieldSetting, b: ShieldSetting)
    requires
        a != b,
    ensures
        a.spec_cli_name() != b.spec_cli_name(),
{
    reveal_strlit("shields");
    reveal_strlit("ads");
    reveal_strlit("fingerprinting");
    reveal_strlit("https-upgrade");
    reveal_strlit("scripts");
    if a.spec_cli_name().len() == b.spec_cli_name().len() {
        assert(a.spec_cli_name()[1] != b.spec_cli_name()[1]);
    }
}

/// No valid value of a setting reads `default` or `unknown`.
pub proof fn lemma_valid_value_not_placeholder(setting: ShieldSetting, v: Seq<char>)
    requires
        setting.spec_valid_values().contains(v),
    ensures
        v != "default"@,
        v != "unknown"@,
{
    reveal_strlit("default");
    reveal_strlit("unknown");
    reveal_strlit("on");
    reveal_strlit("off");
    reveal_strlit("standard");
    reveal_strlit("aggressive");
    reveal_strlit("disabled");
    reveal_strlit("strict");
    reveal_strlit("allow");
    reveal_strlit("block");
    let i = choose|i: int| 0 <= i < setting.spec_valid_values().len() && setting.spec_valid_values()[i] == v;
    assert(v.len() != 7);
}

} // verus!

verus! {

/// The stored integer for a CLI value (for ads: the `shieldsAds` and `trackers` value).
pub open spec fn stored_code(setting: ShieldSetting, v: Seq<char>) -> Option<i64> {
    match setting {
        ShieldSetting::Shields => if v == "on"@ {
            Some(1i64)
        } else if v == "off"@ {
            Some(2i64)
        } else {
            None
        },
        ShieldSetting::Fingerprinting => if v == "standard"@ {
            Some(3i64)
        } else if v == "aggressive"@ {
            Some(2i64)
        } else if v == "disabled"@ {
            Some(1i64)
        } else {
            None
        },
        ShieldSetting::HttpsUpgrade => if v == "standard"@ {
            Some(3i64)
        } else if v == "strict"@ {
            Some(2i64)
        } else if v == "disabled"@ {
            Some(1i64)
        } else {
            None
        },
        ShieldSetting::Scripts => if v == "allow"@ {
            Some(1i64)
        } else if v == "block"@ {
            Some(2i64)
        } else {
            None
        },
        ShieldSetting::Ads => if v == "standard"@ {
            Some(2i64)
        } else if v == "aggressive"@ {
            Some(2i64)
        } else if v == "disabled"@ {
            Some(1i64)
        } else {
            None
        },
    }
}

/// The stored `cosmeticFilteringV2` value for an ads CLI value.
pub open spec fn cosmetic_code(v: Seq<char>) -> i64 {
    if v == "standard"@ {
        2
    } else if v == "aggressive"@ {
        1
    } else {
        0
    }
}

/// `{"last_modified": lm, "setting": code}`.
pub open spec fn simple_entry_model(code: i64, lm: Seq<char>) -> Json {
    Json::Object(seq![("last_modified"@, Json::Str(lm)), ("setting"@, Json::Int(code))])
}

/// `{"last_modified": lm, "setting": {"cosmeticFilteringV2": code}}`.
pub open spec fn cosmetic_entry_model(code: i64, lm: Seq<char>) -> Json {
    Json::Object(
        seq![
            ("last_modified"@, Json::Str(lm)),
            ("setting"@, Json::Object(seq![("cosmeticFilteringV2"@, Json::Int(code))])),
        ],
    )
}

/// The (json_key, entry) pairs that store CLI value `v` of a setting.
pub open spec fn stored_entries(setting: ShieldSetting, v: Seq<char>, lm: Seq<char>) -> Option<
    Seq<(Seq<char>, Json)>,
> {
    match stored_code(setting, v) {
        None => None,
        Some(c) => Some(
            if setting is Ads {
                seq![
                    ("shieldsAds"@, simple_entry_model(c, lm)),
                    ("trackers"@, simple_entry_model(c, lm)),
                    ("cosmeticFilteringV2"@, cosmetic_entry_model(cosmetic_code(v), lm)),
                ]
            } else {
                seq![(setting.spec_primary_json_key(), simple_entry_model(c, lm))]
            },
        ),
    }
}

/// The model of a list of (json_key, entry) pairs.
pub open spec fn entries_model(es: Seq<(&str, JsonValue)>) -> Seq<(Seq<char>, Json)> {
    es.map_values(|p: (&str, JsonValue)| (p.0@, p.1@))
}

fn simple_entry(setting: i64, last_modified: &str) -> (r: JsonValue)
    ensures
        r@ == simple_entry_model(setting, last_modified@),
{
    proof {
        reveal_strlit("last_modified");
        reveal_strlit("setting");
    }
    let mut r = JsonValue::new_object();
    let lm = JsonValue::Str(owned(last_modified));
    proof {
        lemma_members_set_absent(Seq::empty(), "last_modified"@, lm@);
        assert("last_modified"@.len() != "setting"@.len());
        lemma_members_set_absent(seq![("last_modified"@, lm@)], "setting"@, Json::Int(setting));
        assert(Seq::<(Seq<char>, Json)>::empty().push(("last_modified"@, lm@)) =~= seq![("last_modified"@, lm@)]);
        assert(seq![("last_modified"@, lm@)].push(("setting"@, Json::Int(setting))) =~= seq![("last_modified"@, lm@), ("setting"@, Json::Int(setting))]);
    }
    r.set(owned("last_modified"), lm);
    r.set(owned("setting"), JsonValue::Int(setting));
    r
}

fn cosmetic_entry(cosmetic_val: i64, last_modified: &str) -> (r: JsonValue)
    ensures
        r@ == cosmetic_entry_model(cosmetic_val, last_modified@),
{
    proof {
        reveal_strlit("last_modified");
        reveal_strlit("setting");
    }
    let mut inner = JsonValue::new_object();
    proof {
        lemma_members_set_absent(Seq::empty(), "cosmeticFilteringV2"@, Json::Int(cosmetic_val));
    }
    inner.set(owned("cosmeticFilteringV2"), JsonValue::Int(cosmetic_val));
    let mut r = JsonValue::new_object();
    let lm = JsonValue::Str(owned(last_modified));
    proof {
        lemma_members_set_absent(Seq::empty(), "last_modified"@, lm@);
        assert("last_modified"@.len() != "setting"@.len());
        lemma_members_set_absent(seq![("last_modified"@, lm@)], "setting"@, inner@);
        assert(Seq::<(Seq<char>, Json)>::empty().push(("last_modified"@, lm@)) =~= seq![("last_modified"@, lm@)]);
        assert(seq![("last_modified"@, lm@)].push(("setting"@, inner@)) =~= seq![("last_modified"@, lm@), ("setting"@, inner@)]);
        assert(Seq::<(Seq<char>, Json)>::empty().push(("cosmeticFilteringV2"@, Json::Int(cosmetic_val))) =~= seq![("cosmeticFilteringV2"@, Json::Int(cosmetic_val))]);
    }
    r.set(owned("last_modified"), lm);
    r.set(owned("setting"), inner);
    r
}

/// Convert a CLI value string to the stored JSON entries for a setting.
/// Returns a vec of (json_key, entry_value) pairs.
pub fn to_stored(setting: ShieldSetting, cli_value: &str, last_modified: &str) -> (r: Result<
    Vec<(&'static str, JsonValue)>,
    CliError,
>)
    ensures
        match r {
            Ok(es) => stored_entries(setting, cli_value@, last_modified@) == Some(
                entries_model(es@),
            ),
            Err(e) => stored_entries(setting, cli_value@, last_modified@) is None && (
            e matches CliError::InvalidStoredValue { setting: s, value } && s == setting && value@
                == cli_value@),
        },
{
    let code: i64 = match setting {
        ShieldSetting::Shields => if str_eq(cli_value, "on") {
            1
        } else if str_eq(cli_value, "off") {
            2
        } else {
            -1
        },
        ShieldSetting::Fingerprinting => if str_eq(cli_value, "standard") {
            3
        } else if str_eq(cli_value, "aggressive") {
            2
        } else if str_eq(cli_value, "disabled") {
            1
        } else {
            -1
        },
        ShieldSetting::HttpsUpgrade => if str_eq(cli_value, "standard") {
            3
        } else if str_eq(cli_value, "strict") {
            2
        } else if str_eq(cli_value, "disabled") {
            1
        } else {
            -1
        },
        ShieldSetting::Scripts => if str_eq(cli_value, "allow") {
            1
        } else if str_eq(cli_value, "block") {
            2
        } else {
            -1
        },
        ShieldSetting::Ads => if str_eq(cli_value, "standard") {
            2
        } else if str_eq(cli_value, "aggressive") {
            2
        } else if str_eq(cli_value, "disabled") {
            1
        } else {
            -1
        },
    };
    if code < 0 {
        return Err(CliError::InvalidStoredValue { setting, value: owned(cli_value) });
    }
    assert(stored_code(setting, cli_value@) == Some(code));
    let mut es: Vec<(&'static str, JsonValue)> = Vec::new();
    match setting {
        ShieldSetting::Ads => {
            let cosmetic: i64 = if str_eq(cli_value, "standard") {
                2
            } else if str_eq(cli_value, "aggressive") {
                1
            } else {
                0
            };
            es.push(("shieldsAds", simple_entry(code, last_modified)));
            es.push(("trackers", simple_entry(code, last_modified)));
            es.push(("cosmeticFilteringV2", cosmetic_entry(cosmetic, last_modified)));
        },
        _ => {
            es.push((setting.primary_json_key(), simple_entry(code, last_modified)));
        },
    }
    assert(entries_model(es@) =~= stored_entries(setting, cli_value@, last_modified@)->0);
    Ok(es)
}

/// The CLI value for stored values of a setting.
pub open spec fn stored_to_cli(setting: ShieldSetting, primary: i64, cosmetic: Option<i64>) -> Option<
    Seq<char>,
> {
    match setting {
        ShieldSetting::Shields => if primary == 1 {
            Some("on"@)
        } else if primary == 2 {
            Some("off"@)
        } else {
            None
        },
        ShieldSetting::Fingerprinting => if primary == 3 {
            Some("standard"@)
        } else if primary == 2 {
            Some("aggressive"@)
        } else if primary == 1 {
            Some("disabled"@)
        } else {
            None
        },
        ShieldSetting::HttpsUpgrade => if primary == 3 {
            Some("standard"@)
        } else if primary == 2 {
            Some("strict"@)
        } else if primary == 1 {
            Some("disabled"@)
        } else {
            None
        },
        ShieldSetting::Scripts => if primary == 1 {
            Some("allow"@)
        } else if primary == 2 {
            Some("block"@)
        } else {
            None
        },
        ShieldSetting::Ads => if primary == 1 {
            Some("disabled"@)
        } else if primary == 2 {
            if cosmetic == Some(1i64) {
                Some("aggressive"@)
            } else {
                Some("standard"@)
            }
        } else {
            None
        },
    }
}

/// Convert stored JSON values back to a CLI value string.
pub fn from_stored(setting: ShieldSetting, primary_value: i64, cosmetic_value: Option<i64>) -> (r:
    Result<String, CliError>)
    ensures
        match r {
            Ok(s) => stored_to_cli(setting, primary_value, cosmetic_value) == Some(s@),
            Err(e) => stored_to_cli(setting, primary_value, cosmetic_value) is None && e
                == (CliError::UnknownStoredValue {
                setting,
                primary: primary_value,
                cosmetic: match cosmetic_value {
                    Some(c) => c,
                    None => -1i64,
                },
            }),
        },
{
    let cosmetic: i64 = match cosmetic_value {
        Some(c) => c,
        None => -1,
    };
    let err = CliError::UnknownStoredValue { setting, primary: primary_value, cosmetic };
    match setting {
        ShieldSetting::Shields => if primary_value == 1 {
            Ok(owned("on"))
        } else if primary_value == 2 {
            Ok(owned("off"))
        } else {
            Err(err)
        },
        ShieldSetting::Fingerprinting => if primary_value == 3 {
            Ok(owned("standard"))
        } else if primary_value == 2 {
            Ok(owned("aggressive"))
        } else if primary_value == 1 {
            Ok(owned("disabled"))
        } else {
            Err(err)
        },
        ShieldSetting::HttpsUpgrade => if primary_value == 3 {
            Ok(owned("standard"))
        } else if primary_value == 2 {
            Ok(owned("strict"))
        } else if primary_value == 1 {
            Ok(owned("disabled"))
        } else {
            Err(err)
        },
        ShieldSetting::Scripts => if primary_value == 1 {
            Ok(owned("allow"))
        } else if primary_value == 2 {
            Ok(owned("block"))
        } else {
            Err(err)
        },
        ShieldSetting::Ads => if primary_value == 2 && cosmetic == 2 {
            Ok(owned("standard"))
        } else if primary_value == 2 && cosmetic == 1 {
            Ok(owned("aggressive"))
        } else if primary_value == 1 {
            Ok(owned("disabled"))
        } else if primary_value == 2 {
            Ok(owned("standard"))
        } else {
            Err(err)
        },
    }
}

/// The integer at `entry.setting`.
pub open spec fn spec_read_setting_value(entry: Json) -> Option<i64> {
    match entry.member("setting"@) {
        Some(v) => v.as_i64(),
        None => None,
    }
}

/// The integer at `entry.setting.cosmeticFilteringV2`.
pub open spec fn spec_read_cosmetic_value(entry: Json) -> Option<i64> {
    match entry.member("setting"@) {
        Some(v) => match v.member("cosmeticFilteringV2"@) {
            Some(w) => w.as_i64(),
            None => None,
        },
        None => None,
    }
}

/// Read the stored integer "setting" value from an exception entry.
pub fn read_setting_value(entry: &JsonValue) -> (r: Option<i64>)
    ensures
        r == spec_read_setting_value(entry@),
{
    match entry.get("setting") {
        Some(v) => v.as_i64(),
        None => None,
    }
}

/// Read the cosmetic filtering value from a cosmeticFilteringV2 exception entry.
/// The setting is stored as {"setting": {"cosmeticFilteringV2": N}}.
pub fn read_cosmetic_value(entry: &JsonValue) -> (r: Option<i64>)
    ensures
        r == spec_read_cosmetic_value(entry@),
{
    match entry.get("setting") {
        Some(v) => match v.get("cosmeticFilteringV2") {
            Some(w) => w.as_i64(),
            None => None,
        },
        None => None,
    }
}

} // verus!

verus! {

/// The stored entries read back as the code they were made with.
pub proof fn lemma_read_entries(c: i64, lm: Seq<char>)
    ensures
        spec_read_setting_value(simple_entry_model(c, lm)) == Some(c),
        spec_read_cosmetic_value(cosmetic_entry_model(c, lm)) == Some(c),
{
    reveal_strlit("last_modified");
    reveal_strlit("setting");
    reveal_strlit("cosmeticFilteringV2");
    assert("last_modified"@.len() != "setting"@.len());
    let m1: Seq<(Seq<char>, Json)> = seq![("last_modified"@, Json::Str(lm)), ("setting"@, Json::Int(c))];
    crate::json::lemma_member_index_at(m1, "setting"@, 1);
    let inner = Json::Object(seq![("cosmeticFilteringV2"@, Json::Int(c))]);
    let m2: Seq<(Seq<char>, Json)> = seq![("last_modified"@, Json::Str(lm)), ("setting"@, inner)];
    crate::json::lemma_member_index_at(m2, "setting"@, 1);
    crate::json::lemma_member_index_at(seq![("cosmeticFilteringV2"@, Json::Int(c))], "cosmeticFilteringV2"@, 0);
}

/// A CLI value is accepted exactly when it has a stored form, and the stored form reads back
/// as the same CLI value.
pub proof fn lemma_stored_roundtrip(setting: ShieldSetting, v: Seq<char>)
    requires
        setting.spec_valid_values().contains(v),
    ensures
        stored_code(setting, v) is Some,
        stored_to_cli(
            setting,
            stored_code(setting, v)->0,
            if setting is Ads { Some(cosmetic_code(v)) } else { None },
        ) == Some(v),
{
    reveal_strlit("on");
    reveal_strlit("off");
    reveal_strlit("standard");
    reveal_strlit("aggressive");
    reveal_strlit("disabled");
    reveal_strlit("strict");
    reveal_strlit("allow");
    reveal_strlit("block");
    let vals = setting.spec_valid_values();
    let i = choose|i: int| 0 <= i < vals.len() && vals[i] == v;
    assert("standard"@ != "disabled"@) by {
        assert("standard"@[0] != "disabled"@[0]);
    }
    assert("standard"@ != "aggressive"@) by {
        assert("standard"@.len() != "aggressive"@.len());
    }
    assert("aggressive"@ != "disabled"@) by {
        assert("aggressive"@.len() != "disabled"@.len());
    }
    assert("standard"@ != "strict"@) by {
        assert("standard"@.len() != "strict"@.len());
    }
    assert("strict"@ != "disabled"@) by {
        assert("strict"@.len() != "disabled"@.len());
    }
    assert("on"@ != "off"@) by {
        assert("on"@.len() != "off"@.len());
    }
    assert("allow"@ != "block"@) by {
        assert("allow"@[0] != "block"@[0]);
    }
}

} // verus!

verus! {

/// What `to_stored` writes: entries exactly for the setting's valid values; their keys are the
/// setting's JSON keys in order, the primary key first, and each entry carries the given
/// `last_modified` time.
pub proof fn lemma_stored_entries_shape(setting: ShieldSetting, v: Seq<char>, lm: Seq<char>)
    ensures
        stored_entries(setting, v, lm) is Some <==> setting.spec_valid_values().contains(v),
        stored_entries(setting, v, lm) matches Some(es) ==> {
            &&& es.map_values(|e: (Seq<char>, Json)| e.0) == setting.spec_json_keys()
            &&& es[0].0 == setting.spec_primary_json_key()
            &&& forall|i: int| 0 <= i < es.len() ==> (#[trigger] es[i]).1.member("last_modified"@) == Some(
                Json::Str(lm),
            )
        },
{
    let vals = setting.spec_valid_values();
    if vals.contains(v) {
        lemma_stored_roundtrip(setting, v);
    }
    if stored_code(setting, v) is Some {
        match setting {
            ShieldSetting::Shields => {
                if v == "on"@ { assert(vals[0] == v); } else { assert(vals[1] == v); }
            },
            ShieldSetting::Scripts => {
                if v == "allow"@ { assert(vals[0] == v); } else { assert(vals[1] == v); }
            },
            ShieldSetting::HttpsUpgrade => {
                if v == "standard"@ { assert(vals[0] == v); } else if v == "strict"@ { assert(vals[1] == v); } else { assert(vals[2] == v); }
            },
            _ => {
                if v == "standard"@ { assert(vals[0] == v); } else if v == "aggressive"@ { assert(vals[1] == v); } else { assert(vals[2] == v); }
            },
        }
        let es = stored_entries(setting, v, lm)->0;
        assert(es.map_values(|e: (Seq<char>, Json)| e.0) =~= setting.spec_json_keys());
        assert forall|i: int| 0 <= i < es.len() implies (#[trigger] es[i]).1.member("last_modified"@) == Some(
            Json::Str(lm),
        ) by {
            let e = es[i].1;
            match e {
                Json::Object(ms) => {
                    crate::json::lemma_member_index_at(ms, "last_modified"@, 0);
                },
                _ => {},
            }
        }
    }
}

} // verus!

verus! {

/// A stored value read back is one of the setting's valid values.
pub proof fn lemma_stored_to_cli_valid(setting: ShieldSetting, v: Seq<char>)
    requires
        exists|p: i64, c: Option<i64>| stored_to_cli(setting, p, c) == Some(v),
    ensures
        setting.spec_valid_values().contains(v),
{
    let vals = setting.spec_valid_values();
    match setting {
        ShieldSetting::Shields => {
            if v == "on"@ { assert(vals[0] == v); } else { assert(vals[1] == v); }
        },
        ShieldSetting::Scripts => {
            if v == "allow"@ { assert(vals[0] == v); } else { assert(vals[1] == v); }
        },
        ShieldSetting::HttpsUpgrade => {
            if v == "standard"@ { assert(vals[0] == v); } else if v == "strict"@ { assert(vals[1] == v); } else { assert(vals[2] == v); }
        },
        _ => {
            if v == "standard"@ { assert(vals[0] == v); } else if v == "aggressive"@ { assert(vals[1] == v); } else { assert(vals[2] == v); }
        },
    }
}

} // verus!

verus! {

/// Whether a character code is an ASCII letter (`A`-`Z` 65-90, `a`-`z` 97-122) or digit
/// (`0`-`9` 48-57), or one of `.` (46), `-` (45) and `_` (95).
pub open spec fn ascii_host_code(c: u32) -> bool {
    (65 <= c <= 90) || (97 <= c <= 122) || (48 <= c <= 57) || c == 46 || c == 45 || c == 95
}

proof fn lemma_domain_char_code(c: char)
    ensures
        is_domain_char(c) <==> ascii_host_code(c as u32),
{
    assert('a' as u32 == 97 && 'z' as u32 == 122 && 'A' as u32 == 65 && 'Z' as u32 == 90);
    assert('0' as u32 == 48 && '9' as u32 == 57 && '.' as u32 == 46 && '-' as u32 == 45 && '_' as u32 == 95);
}

/// The domains that `validate_domain` and `domain_pattern` accept are exactly the non-empty
/// ones made of ASCII letters, ASCII digits, `.`, `-` and `_` (so `9gag.com` and
/// `192.168.1.1` are domains, and any other character, such as `/`, `,` or `*`, is refused).
pub proof fn lemma_valid_domain_chars(d: Seq<char>)
    ensures
        spec_valid_domain(d) <==> d.len() > 0 && forall|i: int| 0 <= i < d.len() ==> ascii_host_code(
            #[trigger] d[i] as u32,
        ),
{
    if d.len() > 0 && forall|i: int| 0 <= i < d.len() ==> ascii_host_code(#[trigger] d[i] as u32) {
        assert forall|i: int| 0 <= i < d.len() implies is_domain_char(#[trigger] d[i]) by {
            lemma_domain_char_code(d[i]);
        }
    }
    if spec_valid_domain(d) {
        assert forall|i: int| 0 <= i < d.len() implies ascii_host_code(#[trigger] d[i] as u32) by {
            lemma_domain_char_code(d[i]);
        }
    }
}

} // verus!
