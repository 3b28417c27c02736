//! The errors the library reports, with the data each one carries.
use vstd::prelude::*;

use crate::platform::Channel;
use crate::shields::ShieldSetting;
use crate::text::{concat, decimal, digits, i64_to_string, owned, push_str, usize_to_string};

verus! {

/// Everything that can go wrong in the library's logic.
#[derive(Debug)]
pub enum CliError {
    /// A setting name that is not one of the five shield settings.
    UnknownSetting { name: String },
    /// A value that the setting does not accept, as reported by `to_stored`.
    InvalidStoredValue { setting: ShieldSetting, value: String },
    /// A value that the setting does not accept, as reported by `set`.
    InvalidSettingValue { setting_name: String, value: String },
    /// A stored value with no command-line form.
    UnknownStoredValue { setting: ShieldSetting, primary: i64, cosmetic: i64 },
    /// An empty domain.
    EmptyDomain,
    /// A domain with a character other than ASCII letters, digits, `.`, `-` and `_`.
    InvalidDomain { domain: String },
    /// An output format other than `json` and `table`.
    UnknownFormat { name: String },
    /// The current time does not fit a Chromium timestamp.
    TimestampOverflow,
    /// The system clock is set before the Unix epoch (1970-01-01).
    ClockBeforeEpoch,
    /// A filter rule that is empty once white space is trimmed.
    EmptyFilter,
    /// A channel name other than `release`, `beta`, `nightly` and `dev`.
    UnknownChannel { name: String },
    /// A bisect state document without the named field (or with a field of the wrong type).
    MissingStateField { name: String },
    /// A bisect state document whose rules are not all strings.
    NonStringRule,
    /// A bisect state document whose candidate indices are not all unsigned integers.
    NonIntegerIndex,
    /// A candidate index that is not the index of a rule.
    CandidateOutOfRange { index: usize, len: usize },
    /// A rules file without any filter rule.
    NoRules { path: String },
    /// A bisect state saved for another channel.
    ChannelMismatch { saved: String, current: String },
    /// A bisect state with no candidate rule left.
    NoCandidates,
    /// Local State lacks a field the profile lookup needs (`profile.last_used`, `profile.info_cache`).
    LocalStateMissing { field: String },
    /// No profile has this directory or display name; the known profiles as (display name, directory).
    ProfileNotFound { name: String, available: Vec<(String, String)> },
    /// An empty scriptlet name.
    ScriptletNameEmpty,
    /// A scriptlet name with a non-ASCII character.
    ScriptletNameNotAscii,
    /// A scriptlet name with `/`, a backslash or `..`.
    ScriptletNamePath { name: String },
    /// A scriptlet name that does not start with `user-`.
    ScriptletNamePrefix { name: String },
    /// A scriptlet name that does not end with `.js`.
    ScriptletNameSuffix { name: String },
    /// The stored scriptlets value is not UTF-8.
    ScriptletsNotUtf8,
    /// The stored scriptlets value is not a JSON array.
    ScriptletsNotArray,
    /// A stored scriptlet without a string `name`.
    ScriptletMissingName,
    /// A stored scriptlet without a string `content`.
    ScriptletMissingContent,
    /// A stored scriptlet whose content is not valid base64.
    ScriptletBadBase64,
    /// A stored scriptlet whose decoded content is not UTF-8.
    ScriptletContentNotUtf8,
    /// No scriptlet has this name.
    ScriptletNotFound { name: String },
    /// The browser of this channel is running, and writing was not forced.
    BraveRunning { channel: Channel },
    /// The directory given with `--brave-dir` does not exist.
    BraveDirMissing { path: String },
    /// The channel's data directory does not exist.
    DataDirNotFound { channel: Channel, path: String },
    /// `HOME` is not set.
    NoHomeDirectory,
    /// No Brave data directory is known for this operating system.
    UnsupportedPlatform,
}

/// Texts joined with a separator.
pub open spec fn join_with(ls: Seq<Seq<char>>, sep: Seq<char>) -> Seq<char>
    decreases ls.len(),
{
    if ls.len() == 0 {
        Seq::empty()
    } else if ls.len() == 1 {
        ls[0]
    } else {
        join_with(ls.drop_last(), sep) + sep + ls.last()
    }
}

/// `'<display>' (<dir>)` for each profile, joined with `, `.
pub open spec fn profiles_text(available: Seq<(String, String)>) -> Seq<char> {
    join_with(available.map_values(|p: (String, String)| "'"@ + p.0@ + "' ("@ + p.1@ + ")"@), ", "@)
}

/// The valid values of a setting name, joined with `, ` (none for an unknown name).
pub open spec fn valid_values_text(setting_name: Seq<char>) -> Seq<char> {
    match ShieldSetting::spec_from_cli(setting_name) {
        Some(s) => join_with(s.spec_valid_values(), ", "@),
        None => Seq::empty(),
    }
}

/// The message of each error, as the command line prints it.
pub open spec fn spec_message(e: CliError) -> Seq<char> {
    match e {
        CliError::UnknownSetting { name } => "unknown setting '"@ + name@
            + "'. Valid settings: shields, ads, fingerprinting, https-upgrade, scripts"@,
        CliError::InvalidStoredValue { setting, value } => "invalid value '"@ + value@ + "' for "@
            + setting.spec_cli_name() + ". Valid: "@ + join_with(setting.spec_valid_values(), ", "@),
        CliError::InvalidSettingValue { setting_name, value } => "invalid value '"@ + value@
            + "' for "@ + setting_name@ + ". Valid values: "@ + valid_values_text(setting_name@),
        CliError::UnknownStoredValue { setting, primary, cosmetic } => if setting is Ads {
            "unknown stored values shieldsAds="@ + decimal(primary as int) + ", cosmeticFilteringV2="@
                + decimal(cosmetic as int) + " for ads"@
        } else {
            "unknown stored value "@ + decimal(primary as int) + " for "@ + setting.spec_primary_json_key()
        },
        CliError::EmptyDomain => "domain must not be empty"@,
        CliError::InvalidDomain { domain } => "invalid domain '"@ + domain@
            + "': only ASCII alphanumeric characters, dots, hyphens, and underscores are allowed"@,
        CliError::UnknownFormat { name } => "unknown format '"@ + name@ + "'. Valid: json, table"@,
        CliError::TimestampOverflow => "Chromium timestamp overflow"@,
        CliError::ClockBeforeEpoch => "system time before Unix epoch"@,
        CliError::EmptyFilter => "filter rule must not be empty"@,
        CliError::UnknownChannel { name } => "unknown channel '"@ + name@ + "'"@,
        CliError::MissingStateField { name } => "missing "@ + name@,
        CliError::NonStringRule => "all_rules contains non-string value"@,
        CliError::NonIntegerIndex => "candidate_indices contains non-integer value"@,
        CliError::CandidateOutOfRange { index, len } => "candidate index "@ + digits(index as nat)
            + " out of range ("@ + digits(len as nat) + ")"@,
        CliError::NoRules { path } => "no filter rules found in "@ + path@,
        CliError::ChannelMismatch { saved, current } => "state file channel ("@ + saved@
            + ") does not match current channel ("@ + current@ + ")"@,
        CliError::NoCandidates => "bisect state has no candidates"@,
        CliError::LocalStateMissing { field } => "Local State missing "@ + field@,
        CliError::ProfileNotFound { name, available } => "profile '"@ + name@
            + "' not found. Available profiles: "@ + profiles_text(available@),
        CliError::ScriptletNameEmpty => "scriptlet name must not be empty"@,
        CliError::ScriptletNameNotAscii => "scriptlet name must be ASCII"@,
        CliError::ScriptletNamePath { name } =>
            "scriptlet name must not contain path separators or traversal sequences (got '"@
            + name@ + "')"@,
        CliError::ScriptletNamePrefix { name } => "scriptlet name must start with 'user-' (got '"@
            + name@ + "')"@,
        CliError::ScriptletNameSuffix { name } => "scriptlet name must end with '.js' (got '"@
            + name@ + "')"@,
        CliError::ScriptletsNotUtf8 => "SCRIPTLETS value is not valid UTF-8"@,
        CliError::ScriptletsNotArray => "failed to parse SCRIPTLETS JSON"@,
        CliError::ScriptletMissingName => "scriptlet missing name"@,
        CliError::ScriptletMissingContent => "scriptlet missing content"@,
        CliError::ScriptletBadBase64 => "failed to decode scriptlet content"@,
        CliError::ScriptletContentNotUtf8 => "scriptlet content is not valid UTF-8"@,
        CliError::ScriptletNotFound { name } => "scriptlet '"@ + name@ + "' not found"@,
        CliError::BraveRunning { channel } => "Brave "@ + channel.spec_display_name()
            + " is running. Quit the browser first, or use --force to write anyway."@,
        CliError::BraveDirMissing { path } => "specified --brave-dir does not exist: "@ + path@,
        CliError::DataDirNotFound { channel, path } => "Brave "@ + channel.spec_display_name()
            + " data directory not found at "@ + path@ + ". Is Brave "@ + channel.spec_display_name()
            + " installed?"@,
        CliError::NoHomeDirectory => "could not determine home directory"@,
        CliError::UnsupportedPlatform => "unsupported platform; use --brave-dir to specify the path manually"@,
    }
}

/// Texts joined with a separator.
pub fn join_strs(ls: &Vec<&str>, sep: &str) -> (r: String)
    ensures
        r@ == join_with(ls@.map_values(|s: &str| s@), sep@),
{
    let ghost m = ls@.map_values(|s: &str| s@);
    let mut out = String::new();
    for i in 0..ls.len()
        invariant
            m == ls@.map_values(|s: &str| s@),
            out@ == join_with(m.subrange(0, i as int), sep@),
    {
        proof {
            assert(m.subrange(0, i + 1).drop_last() =~= m.subrange(0, i as int));
            if i == 0 {
                assert(m.subrange(0, 0) =~= Seq::<Seq<char>>::empty());
            }
        }
        if i > 0 {
            push_str(&mut out, sep);
        }
        push_str(&mut out, ls[i]);
        assert(out@ =~= join_with(m.subrange(0, i + 1), sep@));
    }
    assert(m.subrange(0, m.len() as int) =~= m);
    out
}

fn profiles_message(available: &Vec<(String, String)>) -> (r: String)
    ensures
        r@ == profiles_text(available@),
{
    let ghost m = available@.map_values(|p: (String, String)| "'"@ + p.0@ + "' ("@ + p.1@ + ")"@);
    let mut out = String::new();
    for i in 0..available.len()
        invariant
            m == available@.map_values(|p: (String, String)| "'"@ + p.0@ + "' ("@ + p.1@ + ")"@),
            out@ == join_with(m.subrange(0, i as int), ", "@),
    {
        proof {
            assert(m.subrange(0, i + 1).drop_last() =~= m.subrange(0, i as int));
            if i == 0 {
                assert(m.subrange(0, 0) =~= Seq::<Seq<char>>::empty());
            }
        }
        if i > 0 {
            push_str(&mut out, ", ");
        }
        push_str(&mut out, "'");
        push_str(&mut out, available[i].0.as_str());
        push_str(&mut out, "' (");
        push_str(&mut out, available[i].1.as_str());
        push_str(&mut out, ")");
        assert(out@ =~= join_with(m.subrange(0, i + 1), ", "@));
    }
    assert(m.subrange(0, m.len() as int) =~= m);
    out
}

fn cat3(a: &str, b: &str, c: &str) -> (r: String)
    ensures
        r@ == a@ + b@ + c@,
{
    let mut s = concat(a, b);
    push_str(&mut s, c);
    s
}

impl CliError {
    /// The message printed for this error.
    pub fn message(&self) -> (r: String)
        ensures
            r@ == spec_message(*self),
    {
        match self {
            CliError::UnknownSetting { name } => cat3(
                "unknown setting '",
                name.as_str(),
                "'. Valid settings: shields, ads, fingerprinting, https-upgrade, scripts",
            ),
            CliError::InvalidStoredValue { setting, value } => {
                let mut s = cat3("invalid value '", value.as_str(), "' for ");
                push_str(&mut s, setting.cli_name());
                push_str(&mut s, ". Valid: ");
                let vals = setting.valid_values();
                let j = join_strs(&vals, ", ");
                push_str(&mut s, j.as_str());
                assert(vals@.map_values(|x: &str| x@) =~= setting.spec_valid_values());
                s
            },
            CliError::InvalidSettingValue { setting_name, value } => {
                let mut s = cat3("invalid value '", value.as_str(), "' for ");
                push_str(&mut s, setting_name.as_str());
                push_str(&mut s, ". Valid values: ");
                match ShieldSetting::from_cli(setting_name.as_str()) {
                    Ok(setting) => {
                        let vals = setting.valid_values();
                        let j = join_strs(&vals, ", ");
                        push_str(&mut s, j.as_str());
                        assert(vals@.map_values(|x: &str| x@) =~= setting.spec_valid_values());
                    },
                    Err(_) => {},
                }
                s
            },
            CliError::UnknownStoredValue { setting, primary, cosmetic } => {
                if *setting == ShieldSetting::Ads {
                    let mut s = owned("unknown stored values shieldsAds=");
                    push_str(&mut s, i64_to_string(*primary).as_str());
                    push_str(&mut s, ", cosmeticFilteringV2=");
                    push_str(&mut s, i64_to_string(*cosmetic).as_str());
                    push_str(&mut s, " for ads");
                    s
                } else {
                    let mut s = owned("unknown stored value ");
                    push_str(&mut s, i64_to_string(*primary).as_str());
                    push_str(&mut s, " for ");
                    push_str(&mut s, setting.primary_json_key());
                    s
                }
            },
            CliError::EmptyDomain => owned("domain must not be empty"),
            CliError::InvalidDomain { domain } => cat3(
                "invalid domain '",
                domain.as_str(),
                "': only ASCII alphanumeric characters, dots, hyphens, and underscores are allowed",
            ),
            CliError::UnknownFormat { name } => cat3(
                "unknown format '",
                name.as_str(),
                "'. Valid: json, table",
            ),
            CliError::TimestampOverflow => owned("Chromium timestamp overflow"),
            CliError::ClockBeforeEpoch => owned("system time before Unix epoch"),
            CliError::EmptyFilter => owned("filter rule must not be empty"),
            CliError::UnknownChannel { name } => cat3("unknown channel '", name.as_str(), "'"),
            CliError::MissingStateField { name } => concat("missing ", name.as_str()),
            CliError::NonStringRule => owned("all_rules contains non-string value"),
            CliError::NonIntegerIndex => owned("candidate_indices contains non-integer value"),
            CliError::CandidateOutOfRange { index, len } => {
                let mut s = owned("candidate index ");
                push_str(&mut s, usize_to_string(*index).as_str());
                push_str(&mut s, " out of range (");
                push_str(&mut s, usize_to_string(*len).as_str());
                push_str(&mut s, ")");
                s
            },
            CliError::NoRules { path } => concat("no filter rules found in ", path.as_str()),
            CliError::ChannelMismatch { saved, current } => {
                let mut s = cat3("state file channel (", saved.as_str(), ") does not match current channel (");
                push_str(&mut s, current.as_str());
                push_str(&mut s, ")");
                s
            },
            CliError::NoCandidates => owned("bisect state has no candidates"),
            CliError::LocalStateMissing { field } => concat("Local State missing ", field.as_str()),
            CliError::ProfileNotFound { name, available } => {
                let mut s = cat3("profile '", name.as_str(), "' not found. Available profiles: ");
                push_str(&mut s, profiles_message(available).as_str());
                s
            },
            CliError::ScriptletNameEmpty => owned("scriptlet name must not be empty"),
            CliError::ScriptletNameNotAscii => owned("scriptlet name must be ASCII"),
            CliError::ScriptletNamePath { name } => cat3(
                "scriptlet name must not contain path separators or traversal sequences (got '",
                name.as_str(),
                "')",
            ),
            CliError::ScriptletNamePrefix { name } => cat3(
                "scriptlet name must start with 'user-' (got '",
                name.as_str(),
                "')",
            ),
            CliError::ScriptletNameSuffix { name } => cat3(
                "scriptlet name must end with '.js' (got '",
                name.as_str(),
                "')",
            ),
            CliError::ScriptletsNotUtf8 => owned("SCRIPTLETS value is not valid UTF-8"),
            CliError::ScriptletsNotArray => owned("failed to parse SCRIPTLETS JSON"),
            CliError::ScriptletMissingName => owned("scriptlet missing name"),
            CliError::ScriptletMissingContent => owned("scriptlet missing content"),
            CliError::ScriptletBadBase64 => owned("failed to decode scriptlet content"),
            CliError::ScriptletContentNotUtf8 => owned("scriptlet content is not valid UTF-8"),
            CliError::ScriptletNotFound { name } => cat3("scriptlet '", name.as_str(), "' not found"),
            CliError::BraveRunning { channel } => cat3(
                "Brave ",
                channel.display_name(),
                " is running. Quit the browser first, or use --force to write anyway.",
            ),
            CliError::BraveDirMissing { path } => concat("specified --brave-dir does not exist: ", path.as_str()),
            CliError::DataDirNotFound { channel, path } => {
                let mut s = cat3("Brave ", channel.display_name(), " data directory not found at ");
                push_str(&mut s, path.as_str());
                push_str(&mut s, ". Is Brave ");
                push_str(&mut s, channel.display_name());
                push_str(&mut s, " installed?");
                s
            },
            CliError::NoHomeDirectory => owned("could not determine home directory"),
            CliError::UnsupportedPlatform => owned(
                "unsupported platform; use --brave-dir to specify the path manually",
            ),
        }
    }
}

} // verus!
