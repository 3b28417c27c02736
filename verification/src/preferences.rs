//! The shield exceptions inside a Preferences document.
use vstd::prelude::*;

use crate::error::CliError;
use crate::json::{Json, JsonValue};
use crate::platform::{Channel, Platform};
use crate::text::str_eq;

verus! {

/// `profile.content_settings.exceptions`, when every step is present and the last is an object.
pub open spec fn spec_exceptions(prefs: Json) -> Option<Json> {
    match prefs.member("profile"@) {
        Some(a) => match a.member("content_settings"@) {
            Some(b) => match b.member("exceptions"@) {
                Some(c) => if c is Object {
                    Some(c)
                } else {
                    None
                },
                None => None,
            },
            None => None,
        },
        None => None,
    }
}

/// The exception object for a JSON key (e.g. `braveShields`), when present and an object.
pub open spec fn spec_exception_entries(prefs: Json, key: Seq<char>) -> Option<Json> {
    match spec_exceptions(prefs) {
        Some(e) => match e.member(key) {
            Some(x) => if x is Object {
                Some(x)
            } else {
                None
            },
            None => None,
        },
        None => None,
    }
}

/// The exceptions object after every step of the path has been made an object.
pub open spec fn exceptions_object(prefs: Json) -> Json {
    prefs.object_at("profile"@).object_at("content_settings"@).object_at("exceptions"@)
}

/// `prefs` with the exceptions object replaced by `e` (and the path made of objects).
pub open spec fn with_exceptions(prefs: Json, e: Json) -> Json {
    let a = prefs.object_at("profile"@);
    let b = a.object_at("content_settings"@);
    prefs.with_member("profile"@, a.with_member("content_settings"@, b.with_member("exceptions"@, e)))
}

/// `prefs` with the exception object of `key` replaced by `entries`.
pub open spec fn with_exception_entries(prefs: Json, key: Seq<char>, entries: Json) -> Json {
    with_exceptions(prefs, exceptions_object(prefs).with_member(key, entries))
}

/// `prefs` after `get_exception_entries_mut(prefs, key).insert(pattern, entry)`.
pub open spec fn spec_insert_exception(prefs: Json, key: Seq<char>, pattern: Seq<char>, entry: Json) -> Json {
    with_exception_entries(
        prefs,
        key,
        exceptions_object(prefs).object_at(key).with_member(pattern, entry),
    )
}

/// `prefs` after removing `pattern` from the exception object of `key`, if it is there.
pub open spec fn spec_remove_exception(prefs: Json, key: Seq<char>, pattern: Seq<char>) -> Json {
    match spec_exception_entries(prefs, key) {
        Some(e) => if e.member(pattern) is Some {
            with_exception_entries(prefs, key, e.without_member(pattern))
        } else {
            prefs
        },
        None => prefs,
    }
}

/// Navigate to the exceptions object, returning None if any intermediate key is missing.
pub fn get_exceptions(prefs: &JsonValue) -> (r: Option<&JsonValue>)
    ensures
        match r {
            Some(e) => spec_exceptions(prefs@) == Some(e@),
            None => spec_exceptions(prefs@) is None,
        },
{
    let a = prefs.get("profile")?;
    let b = a.get("content_settings")?;
    let c = b.get("exceptions")?;
    if c.is_object() {
        Some(c)
    } else {
        None
    }
}

/// Navigate to the exceptions object, creating intermediate objects as needed.
pub fn get_exceptions_mut(prefs: &mut JsonValue) -> (r: &mut JsonValue)
    requires
        old(prefs)@.indexable(),
    ensures
        r@ == exceptions_object(old(prefs)@),
        final(prefs)@ == with_exceptions(old(prefs)@, final(r)@),
{
    let a = prefs.member_object_mut("profile");
    let b = a.member_object_mut("content_settings");
    b.member_object_mut("exceptions")
}

/// Get a specific exception type (e.g. "braveShields") from the exceptions object.
pub fn get_exception_entries<'a>(prefs: &'a JsonValue, key: &str) -> (r: Option<&'a JsonValue>)
    ensures
        match r {
            Some(e) => spec_exception_entries(prefs@, key@) == Some(e@),
            None => spec_exception_entries(prefs@, key@) is None,
        },
{
    let e = get_exceptions(prefs)?;
    let x = e.get(key)?;
    if x.is_object() {
        Some(x)
    } else {
        None
    }
}

/// Get a mutable reference to a specific exception type, creating it if missing.
pub fn get_exception_entries_mut<'a>(prefs: &'a mut JsonValue, key: &str) -> (r: &'a mut JsonValue)
    requires
        old(prefs)@.indexable(),
    ensures
        r@ == exceptions_object(old(prefs)@).object_at(key@),
        r@ is Object,
        final(prefs)@ == with_exception_entries(old(prefs)@, key@, final(r)@),
{
    let e = get_exceptions_mut(prefs);
    e.member_object_mut(key)
}

/// Store `entry` under `pattern` in the exception object of `key`.
pub fn insert_exception(prefs: &mut JsonValue, key: &str, pattern: String, entry: JsonValue)
    requires
        old(prefs)@.indexable(),
    ensures
        final(prefs)@ == spec_insert_exception(old(prefs)@, key@, pattern@, entry@),
{
    let entries = get_exception_entries_mut(prefs, key);
    entries.set(pattern, entry);
}

/// Remove `pattern` from the exception object of `key`, when that object holds it.
pub fn remove_exception(prefs: &mut JsonValue, key: &str, pattern: &str)
    requires
        old(prefs)@.indexable(),
    ensures
        final(prefs)@ == spec_remove_exception(old(prefs)@, key@, pattern@),
{
    let present = match get_exception_entries(prefs, key) {
        Some(entries) => entries.get(pattern).is_some(),
        None => false,
    };
    if present {
        let entries = get_exception_entries_mut(prefs, key);
        entries.remove(pattern);
    }
}

} // verus!

verus! {

/// The exceptions object made along the path is the existing one, or an empty object.
pub proof fn lemma_exceptions_object(prefs: Json)
    ensures
        exceptions_object(prefs) == match spec_exceptions(prefs) {
            Some(e) => e,
            None => Json::Object(Seq::empty()),
        },
{
}

/// The exceptions object of a document whose exceptions were replaced by the object `e`.
pub proof fn lemma_with_exceptions(prefs: Json, e: Json)
    requires
        prefs.indexable(),
        e is Object,
    ensures
        spec_exceptions(with_exceptions(prefs, e)) == Some(e),
        with_exceptions(prefs, e).indexable(),
{
    let a = prefs.object_at("profile"@);
    let b = a.object_at("content_settings"@);
    let b2 = b.with_member("exceptions"@, e);
    let a2 = a.with_member("content_settings"@, b2);
    crate::json::lemma_with_member_member(b, "exceptions"@, e, "exceptions"@);
    crate::json::lemma_with_member_member(a, "content_settings"@, b2, "content_settings"@);
    crate::json::lemma_with_member_member(prefs, "profile"@, a2, "profile"@);
}

/// The exception objects after replacing the one of `key`.
pub proof fn lemma_with_exception_entries(prefs: Json, key: Seq<char>, entries: Json, key2: Seq<char>)
    requires
        prefs.indexable(),
        entries is Object,
    ensures
        with_exception_entries(prefs, key, entries).indexable(),
        spec_exception_entries(with_exception_entries(prefs, key, entries), key2) == if key2
            == key {
            Some(entries)
        } else {
            spec_exception_entries(prefs, key2)
        },
{
    let e = exceptions_object(prefs);
    let e2 = e.with_member(key, entries);
    lemma_with_exceptions(prefs, e2);
    crate::json::lemma_with_member_member(e, key, entries, key2);
    lemma_exceptions_object(prefs);
}

/// Storing an entry: the exception object of `key` gains it, all others are unchanged.
pub proof fn lemma_insert_exception(prefs: Json, key: Seq<char>, pattern: Seq<char>, entry: Json, key2: Seq<char>)
    requires
        prefs.indexable(),
    ensures
        spec_insert_exception(prefs, key, pattern, entry).indexable(),
        spec_exception_entries(spec_insert_exception(prefs, key, pattern, entry), key2) == if key2
            == key {
            Some(exceptions_object(prefs).object_at(key).with_member(pattern, entry))
        } else {
            spec_exception_entries(prefs, key2)
        },
{
    let ek = exceptions_object(prefs).object_at(key).with_member(pattern, entry);
    lemma_with_exception_entries(prefs, key, ek, key2);
}

/// Removing an entry: the exception object of `key` loses it, all others are unchanged.
pub proof fn lemma_remove_exception(prefs: Json, key: Seq<char>, pattern: Seq<char>, key2: Seq<char>)
    requires
        prefs.indexable(),
    ensures
        spec_remove_exception(prefs, key, pattern).indexable(),
        spec_exception_entries(spec_remove_exception(prefs, key, pattern), key2) == if key2 == key {
            match spec_exception_entries(prefs, key) {
                Some(e) => Some(e.without_member(pattern)),
                None => None,
            }
        } else {
            spec_exception_entries(prefs, key2)
        },
{
    match spec_exception_entries(prefs, key) {
        Some(e) => {
            if e.member(pattern) is Some {
                lemma_with_exception_entries(prefs, key, e.without_member(pattern), key2);
            } else {
                if key2 == key {
                    match e {
                        Json::Object(m) => {
                            assert forall|k: Seq<char>| #[trigger] e.without_member(pattern).member(k) == e.member(k) by {
                                crate::json::lemma_without_member_member(e, pattern, k);
                                if k == pattern {}
                            }
                            crate::json::lemma_members_remove_absent(m, pattern);
                        },
                        _ => {},
                    }
                }
            }
        },
        None => {},
    }
}

} // verus!

verus! {

/// The entry stored under `pattern` in the exception object of `key`.
pub open spec fn spec_stored_entry(prefs: Json, key: Seq<char>, pattern: Seq<char>) -> Option<Json> {
    match spec_exception_entries(prefs, key) {
        Some(e) => e.member(pattern),
        None => None,
    }
}

/// Storing an entry changes exactly that entry: every other (key, pattern) reads as before.
pub proof fn lemma_insert_stored_entry(
    prefs: Json,
    key: Seq<char>,
    pattern: Seq<char>,
    entry: Json,
    key2: Seq<char>,
    pattern2: Seq<char>,
)
    requires
        prefs.indexable(),
    ensures
        spec_stored_entry(spec_insert_exception(prefs, key, pattern, entry), key2, pattern2) == if key2
            == key && pattern2 == pattern {
            Some(entry)
        } else {
            spec_stored_entry(prefs, key2, pattern2)
        },
{
    lemma_insert_exception(prefs, key, pattern, entry, key2);
    lemma_exceptions_object(prefs);
    let ek = exceptions_object(prefs).object_at(key);
    crate::json::lemma_with_member_member(ek, pattern, entry, pattern2);
}

/// Removing an entry changes exactly that entry: every other (key, pattern) reads as before.
pub proof fn lemma_remove_stored_entry(
    prefs: Json,
    key: Seq<char>,
    pattern: Seq<char>,
    key2: Seq<char>,
    pattern2: Seq<char>,
)
    requires
        prefs.indexable(),
    ensures
        spec_stored_entry(spec_remove_exception(prefs, key, pattern), key2, pattern2) == if key2
            == key && pattern2 == pattern {
            None
        } else {
            spec_stored_entry(prefs, key2, pattern2)
        },
{
    lemma_remove_exception(prefs, key, pattern, key2);
    match spec_exception_entries(prefs, key) {
        Some(e) => {
            crate::json::lemma_without_member_member(e, pattern, pattern2);
        },
        None => {},
    }
}

/// The process name of a channel's browser on a platform; none where the layout is unknown.
pub open spec fn spec_brave_process_names(channel: Channel, platform: Platform) -> Seq<Seq<char>> {
    match platform {
        Platform::MacOs => seq![
            match channel {
                Channel::Release => "Brave Browser"@,
                Channel::Beta => "Brave Browser Beta"@,
                Channel::Nightly => "Brave Browser Nightly"@,
                Channel::Dev => "Brave Browser Development"@,
            },
        ],
        Platform::Linux => seq![
            match channel {
                Channel::Release => "brave-browser"@,
                Channel::Beta => "brave-browser-beta"@,
                Channel::Nightly => "brave-browser-nightly"@,
                Channel::Dev => "brave-browser-dev"@,
            },
        ],
        Platform::Other => Seq::empty(),
    }
}

/// Process names for each Brave channel per platform.
pub fn brave_process_names(channel: Channel, platform: Platform) -> (r: Vec<&'static str>)
    ensures
        r@.map_values(|s: &str| s@) == spec_brave_process_names(channel, platform),
{
    let mut v: Vec<&'static str> = Vec::new();
    match platform {
        Platform::MacOs => v.push(
            match channel {
                Channel::Release => "Brave Browser",
                Channel::Beta => "Brave Browser Beta",
                Channel::Nightly => "Brave Browser Nightly",
                Channel::Dev => "Brave Browser Development",
            },
        ),
        Platform::Linux => v.push(
            match channel {
                Channel::Release => "brave-browser",
                Channel::Beta => "brave-browser-beta",
                Channel::Nightly => "brave-browser-nightly",
                Channel::Dev => "brave-browser-dev",
            },
        ),
        Platform::Other => {},
    }
    assert(v@.map_values(|s: &str| s@) =~= spec_brave_process_names(channel, platform));
    v
}

/// Whether some running process has one of the browser's names.
pub open spec fn spec_brave_running(running: Seq<Seq<char>>, channel: Channel, platform: Platform) -> bool {
    exists|i: int, j: int|
        0 <= i < running.len() && 0 <= j < spec_brave_process_names(channel, platform).len()
            && #[trigger] running[i] == #[trigger] spec_brave_process_names(channel, platform)[j]
}

/// What a write does about a running browser: refuse unless forced, and warn when forced.
/// `Ok(true)` asks for the warning.
pub open spec fn spec_running_decision(running: bool, force: bool) -> Result<bool, ()> {
    if running {
        if force {
            Ok(true)
        } else {
            Err(())
        }
    } else {
        Ok(false)
    }
}

/// Whether a list of process names holds the browser of `channel`.
pub fn brave_running(running: &Vec<String>, channel: Channel, platform: Platform) -> (r: bool)
    ensures
        r == spec_brave_running(running@.map_values(|s: String| s@), channel, platform),
{
    let names = brave_process_names(channel, platform);
    let ghost rm = running@.map_values(|s: String| s@);
    let ghost nm = names@.map_values(|s: &str| s@);
    for i in 0..running.len()
        invariant
            rm == running@.map_values(|s: String| s@),
            nm == names@.map_values(|s: &str| s@),
            nm == spec_brave_process_names(channel, platform),
            forall|a: int, b: int| 0 <= a < i && 0 <= b < nm.len() ==> #[trigger] rm[a] != #[trigger] nm[b],
    {
        for j in 0..names.len()
            invariant
                rm == running@.map_values(|s: String| s@),
                nm == names@.map_values(|s: &str| s@),
                nm == spec_brave_process_names(channel, platform),
                forall|a: int, b: int| 0 <= a < i && 0 <= b < nm.len() ==> #[trigger] rm[a] != #[trigger] nm[b],
                forall|b: int| 0 <= b < j ==> rm[i as int] != #[trigger] nm[b],
                i < running@.len(),
        {
            if str_eq(running[i].as_str(), names[j]) {
                assert(rm[i as int] == nm[j as int]);
                return true;
            }
        }
    }
    false
}

/// Decide what to do about the running processes `running` before writing.
pub fn running_decision(running: &Vec<String>, channel: Channel, platform: Platform, force: bool) -> (r: Result<bool, CliError>)
    ensures
        match r {
            Ok(w) => spec_running_decision(
                spec_brave_running(running@.map_values(|s: String| s@), channel, platform),
                force,
            ) == Ok::<bool, ()>(w),
            Err(e) => spec_running_decision(
                spec_brave_running(running@.map_values(|s: String| s@), channel, platform),
                force,
            ) is Err && e == CliError::BraveRunning { channel },
        },
{
    if brave_running(running, channel, platform) {
        if force {
            Ok(true)
        } else {
            Err(CliError::BraveRunning { channel })
        }
    } else {
        Ok(false)
    }
}

/// The names of the running processes (`sysinfo`'s `System::new_all`, then each process's
/// `name`, converted lossily from the OS string); nothing when the process table cannot be read.
/// The result depends on the machine and the moment, so nothing is stated of it.
#[verifier::external_body]
fn running_process_names() -> (r: Option<Vec<String>>)
{
    match sysinfo::System::new_all() {
        Ok(s) => Some(s.processes().values().map(|p| p.name().to_string_lossy().into_owned()).collect()),
        Err(_) => None,
    }
}

/// Check if a specific Brave channel is currently running.
/// Errors by default; pass `force: true` to downgrade to a warning (`Ok(true)`: print it).
/// When the process table cannot be read, the browser counts as not running.
pub fn check_brave_not_running(channel: Channel, platform: Platform, force: bool) -> (r: Result<bool, CliError>)
    ensures
        match r {
            Ok(w) => w ==> force,
            Err(e) => !force && e == CliError::BraveRunning { channel },
        },
        force ==> r is Ok,
        platform is Other ==> r == Ok::<bool, CliError>(false),
{
    match running_process_names() {
        Some(names) => running_decision(&names, channel, platform, force),
        None => Ok(false),
    }
}

} // verus!
