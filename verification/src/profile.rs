//! Brave profiles, as Local State lists them under `profile.info_cache`.
use vstd::prelude::*;

use crate::error::CliError;
use crate::json::{lemma_member_index, lemma_model_members, member_index, members_get, Json, JsonValue};
use crate::platform::{path_join, spec_path_join};
use crate::pointer::{
    lemma_pointer_get_concat, lemma_split_on_append, lemma_split_on_sep, lemma_unescape_plain, pointer_get,
    pointer_tokens, spec_parse_index, spec_pointer, split_on,
};
use crate::text::{concat, owned, push_str};

verus! {

/// Information about a Brave profile.
#[derive(Debug)]
pub struct ProfileInfo {
    pub dir_name: String,
    pub display_name: String,
}

/// The display name of a profile: its `name` when that is a string, else its directory name.
pub open spec fn display_of(dir: Seq<char>, info: Json) -> Seq<char> {
    match info.member("name"@) {
        Some(Json::Str(s)) => s,
        _ => dir,
    }
}

/// The profiles of an info cache, as (directory name, display name), in member order.
pub open spec fn profiles_of(m: Seq<(Seq<char>, Json)>) -> Seq<(Seq<char>, Seq<char>)> {
    m.map_values(|e: (Seq<char>, Json)| (e.0, display_of(e.0, e.1)))
}

/// The info cache object `profile.info_cache`, if Local State has one.
pub open spec fn info_cache(local_state: Json) -> Option<Seq<(Seq<char>, Json)>> {
    match spec_pointer(local_state, "/profile/info_cache"@) {
        Some(Json::Object(m)) => Some(m),
        _ => None,
    }
}

impl ProfileInfo {
    pub open spec fn model(self) -> (Seq<char>, Seq<char>) {
        (self.dir_name@, self.display_name@)
    }
}

pub open spec fn profiles_model(v: Seq<ProfileInfo>) -> Seq<(Seq<char>, Seq<char>)> {
    v.map_values(|p: ProfileInfo| p.model())
}

/// The name of one member's display name, for a member list.
fn display_name_of(dir: &String, info: &JsonValue) -> (r: String)
    ensures
        r@ == display_of(dir@, info@),
{
    match info.get("name") {
        Some(v) => match v.as_str() {
            Some(s) => owned(s.as_str()),
            None => owned(dir.as_str()),
        },
        None => owned(dir.as_str()),
    }
}

/// The info cache member list of Local State.
fn info_cache_members(local_state: &JsonValue) -> (r: Result<&Vec<(String, JsonValue)>, CliError>)
    ensures
        match r {
            Ok(m) => info_cache(local_state@) == Some(JsonValue::model_members(m@)),
            Err(e) => info_cache(local_state@) is None && (e matches CliError::LocalStateMissing {
                field,
            } && field@ == "profile.info_cache"@),
        },
{
    match local_state.pointer("/profile/info_cache") {
        Some(v) => match v.as_object() {
            Some(m) => Ok(m),
            None => Err(CliError::LocalStateMissing { field: owned("profile.info_cache") }),
        },
        None => Err(CliError::LocalStateMissing { field: owned("profile.info_cache") }),
    }
}

/// List all profiles from the Local State info_cache.
pub fn list_profiles(local_state: &JsonValue) -> (r: Result<Vec<ProfileInfo>, CliError>)
    ensures
        match r {
            Ok(v) => info_cache(local_state@) matches Some(m) && profiles_model(v@) == profiles_of(m),
            Err(e) => info_cache(local_state@) is None && (e matches CliError::LocalStateMissing {
                field,
            } && field@ == "profile.info_cache"@),
        },
{
    let m = info_cache_members(local_state)?;
    let ghost mm = JsonValue::model_members(m@);
    proof {
        lemma_model_members(m@);
    }
    let mut out: Vec<ProfileInfo> = Vec::new();
    for i in 0..m.len()
        invariant
            mm == JsonValue::model_members(m@),
            mm.len() == m@.len(),
            forall|j: int| 0 <= j < m@.len() ==> #[trigger] mm[j] == (m@[j].0@, m@[j].1@),
            profiles_model(out@) == profiles_of(mm.subrange(0, i as int)),
    {
        let p = ProfileInfo { dir_name: owned(m[i].0.as_str()), display_name: display_name_of(&m[i].0, &m[i].1) };
        let ghost pm = p.model();
        let ghost before = out@;
        out.push(p);
        assert(pm == (mm[i as int].0, display_of(mm[i as int].0, mm[i as int].1)));
        assert(profiles_model(out@) =~= profiles_model(before).push(pm));
        assert(profiles_of(mm.subrange(0, i + 1)) =~= profiles_of(mm.subrange(0, i as int)).push(pm));
    }
    assert(mm.subrange(0, mm.len() as int) =~= mm);
    Ok(out)
}

/// Whether `k` is the first member whose display name is `name` (a `name` string equal to it).
pub open spec fn first_named_at(m: Seq<(Seq<char>, Json)>, name: Seq<char>, k: int) -> bool {
    &&& 0 <= k < m.len()
    &&& m[k].1.member("name"@) == Some(Json::Str(name))
    &&& forall|j: int| 0 <= j < k ==> (#[trigger] m[j]).1.member("name"@) != Some(Json::Str(name))
}

/// The profile a name selects in an info cache: the member with that directory name, else the
/// first member with that display name.
pub open spec fn select_profile(m: Seq<(Seq<char>, Json)>, name: Seq<char>) -> Option<(Seq<char>, Seq<char>)> {
    match members_get(m, name) {
        Some(info) => Some((name, display_of(name, info))),
        None => if exists|k: int| first_named_at(m, name, k) {
            let k = choose|k: int| first_named_at(m, name, k);
            Some((m[k].0, name))
        } else {
            None
        },
    }
}

/// The profile `resolve_profile` picks: with no name, `profile.last_used` and the display name
/// found at `/profile/info_cache/<last_used>/name`; with a name, `select_profile` in the info cache.
pub open spec fn spec_resolve_profile(local_state: Json, arg: Option<Seq<char>>) -> Option<(Seq<char>, Seq<char>)> {
    match arg {
        None => match spec_pointer(local_state, "/profile/last_used"@) {
            Some(Json::Str(lu)) => Some(
                (
                    lu,
                    match spec_pointer(local_state, "/profile/info_cache/"@ + lu + "/name"@) {
                        Some(Json::Str(d)) => d,
                        _ => lu,
                    },
                ),
            ),
            _ => None,
        },
        Some(name) => match info_cache(local_state) {
            Some(m) => select_profile(m, name),
            None => None,
        },
    }
}

/// The (display name, directory) pairs a "not found" error lists.
pub open spec fn available_of(m: Seq<(Seq<char>, Json)>) -> Seq<(Seq<char>, Seq<char>)> {
    m.map_values(|e: (Seq<char>, Json)| (display_of(e.0, e.1), e.0))
}

pub open spec fn pairs_model(v: Seq<(String, String)>) -> Seq<(Seq<char>, Seq<char>)> {
    v.map_values(|p: (String, String)| (p.0@, p.1@))
}

/// Resolve the profile directory name from an optional user-specified name.
/// If no name is given, uses `profile.last_used` from Local State.
/// Accepts either a display name (e.g. "Work") or dir name (e.g. "Profile 1").
pub fn resolve_profile(local_state: &JsonValue, profile_arg: Option<&str>) -> (r: Result<ProfileInfo, CliError>)
    ensures
        match r {
            Ok(p) => spec_resolve_profile(
                local_state@,
                match profile_arg {
                    Some(s) => Some(s@),
                    None => None,
                },
            ) == Some(p.model()),
            Err(e) => match profile_arg {
                None => spec_pointer(local_state@, "/profile/last_used"@).unwrap_or(Json::Null) !is Str
                    && (e matches CliError::LocalStateMissing { field } && field@ == "profile.last_used"@),
                Some(name) => match info_cache(local_state@) {
                    None => e matches CliError::LocalStateMissing { field } && field@ == "profile.info_cache"@,
                    Some(m) => select_profile(m, name@) is None && (e matches CliError::ProfileNotFound {
                        name: n,
                        available,
                    } && n@ == name@ && pairs_model(available@) == available_of(m)),
                },
            },
        },
{
    match profile_arg {
        None => {
            let lu = match local_state.pointer("/profile/last_used") {
                Some(v) => match v.as_str() {
                    Some(s) => s,
                    None => return Err(CliError::LocalStateMissing { field: owned("profile.last_used") }),
                },
                None => return Err(CliError::LocalStateMissing { field: owned("profile.last_used") }),
            };
            let mut p = concat("/profile/info_cache/", lu.as_str());
            push_str(&mut p, "/name");
            let display = match local_state.pointer(p.as_str()) {
                Some(v) => match v.as_str() {
                    Some(d) => owned(d.as_str()),
                    None => owned(lu.as_str()),
                },
                None => owned(lu.as_str()),
            };
            Ok(ProfileInfo { dir_name: owned(lu.as_str()), display_name: display })
        },
        Some(name) => {
            let m = info_cache_members(local_state)?;
            let ghost mm = JsonValue::model_members(m@);
            proof {
                lemma_model_members(m@);
                lemma_member_index(mm, name@);
            }
            match crate::json::find_member(m, name) {
                Some(i) => {
                    let display = display_name_of(&m[i].0, &m[i].1);
                    return Ok(ProfileInfo { dir_name: owned(name), display_name: display });
                },
                None => {},
            }
            for i in 0..m.len()
                invariant
                    mm == JsonValue::model_members(m@),
                    mm.len() == m@.len(),
                    forall|j: int| 0 <= j < m@.len() ==> #[trigger] mm[j] == (m@[j].0@, m@[j].1@),
                    members_get(mm, name@) is None,
                    info_cache(local_state@) == Some(mm),
                    profile_arg == Some(name),
                    forall|j: int| 0 <= j < i ==> (#[trigger] mm[j]).1.member("name"@) != Some(Json::Str(name@)),
            {
                let named = match m[i].1.get("name") {
                    Some(v) => match v.as_str() {
                        Some(d) => crate::text::str_eq(d.as_str(), name),
                        None => false,
                    },
                    None => false,
                };
                if named {
                    proof {
                        assert(first_named_at(mm, name@, i as int));
                        let k = choose|k: int| first_named_at(mm, name@, k);
                        if k < i {
                            assert(mm[k].1.member("name"@) != Some(Json::Str(name@)));
                        } else if i < k {
                            assert(mm[i as int].1.member("name"@) != Some(Json::Str(name@)));
                        }
                        assert(k == i);
                        assert(exists|k: int| first_named_at(mm, name@, k));
                        assert(select_profile(mm, name@) == Some((mm[i as int].0, name@)));
                    }
                    return Ok(ProfileInfo { dir_name: owned(m[i].0.as_str()), display_name: owned(name) });
                }
            }
            proof {
                if exists|k: int| first_named_at(mm, name@, k) {
                    let k = choose|k: int| first_named_at(mm, name@, k);
                    assert(mm[k].1.member("name"@) != Some(Json::Str(name@)));
                }
            }
            let mut available: Vec<(String, String)> = Vec::new();
            for i in 0..m.len()
                invariant
                    mm == JsonValue::model_members(m@),
                    mm.len() == m@.len(),
                    forall|j: int| 0 <= j < m@.len() ==> #[trigger] mm[j] == (m@[j].0@, m@[j].1@),
                    pairs_model(available@) == available_of(mm.subrange(0, i as int)),
            {
                let d = display_name_of(&m[i].0, &m[i].1);
                let pair = (d, owned(m[i].0.as_str()));
                let ghost pm = (pair.0@, pair.1@);
                let ghost before = available@;
                available.push(pair);
                assert(pm == (display_of(mm[i as int].0, mm[i as int].1), mm[i as int].0));
                assert(pairs_model(available@) =~= pairs_model(before).push(pm));
                assert(available_of(mm.subrange(0, i + 1)) =~= available_of(mm.subrange(0, i as int)).push(pm));
            }
            assert(mm.subrange(0, mm.len() as int) =~= mm);
            Err(CliError::ProfileNotFound { name: owned(name), available })
        },
    }
}

/// The path of the Preferences file of a profile: `<brave_dir>/<dir_name>/Preferences`.
pub fn preferences_path(brave_dir: &str, profile: &ProfileInfo) -> (r: String)
    ensures
        r@ == spec_path_join(spec_path_join(brave_dir@, profile.dir_name@), "Preferences"@),
{
    let d = path_join(brave_dir, profile.dir_name.as_str());
    path_join(d.as_str(), "Preferences")
}

/// A listed profile is found again by its directory name: for the first member with a given
/// key, selecting that key gives the listed (directory, display name) pair.
pub proof fn lemma_select_listed_profile(m: Seq<(Seq<char>, Json)>, i: int)
    requires
        0 <= i < m.len(),
        member_index(m, m[i].0) == i,
    ensures
        select_profile(m, m[i].0) == Some(profiles_of(m)[i]),
{
}

/// The tokens of `/profile/info_cache/<dir>/name`, for a directory name without `/` or `~`.
proof fn lemma_display_pointer_tokens(dir: Seq<char>)
    requires
        forall|i: int| 0 <= i < dir.len() ==> dir[i] != '/' && dir[i] != '~',
    ensures
        pointer_tokens("/profile/info_cache/"@ + dir + "/name"@) == seq![
            "profile"@,
            "info_cache"@,
            dir,
            "name"@,
        ],
        pointer_tokens("/profile/info_cache"@) == seq!["profile"@, "info_cache"@],
{
    reveal_strlit("/profile/info_cache/");
    reveal_strlit("/profile/info_cache");
    reveal_strlit("/name");
    reveal_strlit("profile");
    reveal_strlit("info_cache");
    reveal_strlit("name");
    let profile = "profile"@;
    let info = "info_cache"@;
    let name = "name"@;
    let e = Seq::<char>::empty();
    let s1 = e.push('/');
    let s2 = s1 + profile;
    let s3 = s2.push('/');
    let s4 = s3 + info;
    let s5 = s4.push('/');
    let s6 = s5 + dir;
    let s7 = s6.push('/');
    let s8 = s7 + name;
    assert(split_on(e, '/') =~= seq![e]);
    lemma_split_on_sep(e, '/');
    lemma_split_on_append(s1, profile, '/');
    lemma_split_on_sep(s2, '/');
    lemma_split_on_append(s3, info, '/');
    lemma_split_on_sep(s4, '/');
    lemma_split_on_append(s5, dir, '/');
    lemma_split_on_sep(s6, '/');
    lemma_split_on_append(s7, name, '/');
    assert(split_on(s1, '/') =~= seq![e, e]);
    assert(e + profile =~= profile);
    assert(split_on(s2, '/') =~= seq![e, profile]);
    assert(split_on(s3, '/') =~= seq![e, profile, e]);
    assert(split_on(s4, '/') =~= seq![e, profile, info]);
    assert(split_on(s5, '/') =~= seq![e, profile, info, e]);
    assert(e + info =~= info);
    assert(split_on(s6, '/') =~= seq![e, profile, info, dir]);
    assert(e + dir =~= dir);
    assert(split_on(s7, '/') =~= seq![e, profile, info, dir, e]);
    assert(split_on(s8, '/') =~= seq![e, profile, info, dir, name]);
    assert(e + name =~= name);
    assert(s8 =~= "/profile/info_cache/"@ + dir + "/name"@);
    assert(s4 =~= "/profile/info_cache"@);
    lemma_unescape_plain(profile);
    lemma_unescape_plain(info);
    lemma_unescape_plain(dir);
    lemma_unescape_plain(name);
    assert(pointer_tokens(s8) =~= seq![profile, info, dir, name]);
    assert(pointer_tokens(s4) =~= seq![profile, info]);
}

/// The default profile is shown as `profiles` lists it: when `profile.last_used` names a member
/// of the info cache (without `/` or `~`, which a pointer would read as separators or escapes),
/// resolving no name gives that member's directory and listed display name.
pub proof fn lemma_default_profile_is_listed(local_state: Json, k: int)
    requires
        info_cache(local_state) is Some,
        0 <= k < info_cache(local_state)->0.len(),
        member_index(info_cache(local_state)->0, info_cache(local_state)->0[k].0) == k,
        spec_pointer(local_state, "/profile/last_used"@) == Some(Json::Str(info_cache(local_state)->0[k].0)),
        forall|i: int|
            0 <= i < info_cache(local_state)->0[k].0.len() ==> info_cache(local_state)->0[k].0[i] != '/'
                && info_cache(local_state)->0[k].0[i] != '~',
    ensures
        spec_resolve_profile(local_state, None) == Some(profiles_of(info_cache(local_state)->0)[k]),
{
    let m = info_cache(local_state)->0;
    let dir = m[k].0;
    let entry = m[k].1;
    lemma_display_pointer_tokens(dir);
    reveal_strlit("/profile/info_cache");
    reveal_strlit("/profile/info_cache/");
    reveal_strlit("name");
    let t1 = seq!["profile"@, "info_cache"@];
    let t2 = seq![dir, "name"@];
    assert(t1 + t2 =~= seq!["profile"@, "info_cache"@, dir, "name"@]);
    lemma_pointer_get_concat(local_state, t1, t2);
    assert(pointer_get(local_state, t1) == Some(Json::Object(m)));
    lemma_member_index(m, dir);
    assert(members_get(m, dir) == Some(entry));
    assert(t2.drop_first() =~= seq!["name"@]);
    assert(seq!["name"@].drop_first() =~= Seq::<Seq<char>>::empty());
    let p = "/profile/info_cache/"@ + dir + "/name"@;
    assert(p[0] == '/');
    assert(spec_pointer(local_state, p) == pointer_get(local_state, t1 + t2));
    assert(pointer_get(local_state, t1 + t2) == pointer_get(Json::Object(m), t2));
    assert(pointer_get(Json::Object(m), t2) == pointer_get(entry, seq!["name"@]));
    assert(pointer_get(entry, seq!["name"@]) == match entry.member("name"@) {
        Some(x) => Some(x),
        None => None::<Json>,
    }) by {
        match entry {
            Json::Object(em) => {
                assert(seq!["name"@][0] == "name"@);
                match members_get(em, "name"@) {
                    Some(x) => {
                        assert(pointer_get(x, seq!["name"@].drop_first()) == Some(x));
                    },
                    None => {},
                }
            },
            Json::Array(a) => {
                assert(!('0' <= "name"@[0] && "name"@[0] <= '9'));
                assert(spec_parse_index("name"@) is None);
            },
            _ => {},
        }
    }
}

} // verus!

verus! {

/// Selecting a profile by name finds one exactly when the name is a directory of the info
/// cache or some profile's display name; the profile found is a directory of the cache, and
/// its directory or its display name is the name asked for.
pub proof fn lemma_select_profile_by_name(m: Seq<(Seq<char>, Json)>, name: Seq<char>)
    ensures
        select_profile(m, name) is Some <==> (exists|i: int| 0 <= i < m.len() && (#[trigger] m[i]).0 == name)
            || (exists|i: int| 0 <= i < m.len() && (#[trigger] m[i]).1.member("name"@) == Some(Json::Str(name))),
        select_profile(m, name) matches Some(p) ==> (exists|i: int| 0 <= i < m.len() && (#[trigger] m[i]).0 == p.0)
            && (p.0 == name || p.1 == name),
{
    lemma_member_index(m, name);
    let ki = member_index(m, name);
    if ki >= 0 {
        assert(m[ki].0 == name);
    } else {
        if exists|i: int| 0 <= i < m.len() && (#[trigger] m[i]).1.member("name"@) == Some(Json::Str(name)) {
            let i0 = choose|i: int| 0 <= i < m.len() && (#[trigger] m[i]).1.member("name"@) == Some(Json::Str(name));
            let k = lemma_first_named(m, name, i0);
            let kk = choose|k: int| first_named_at(m, name, k);
            assert(first_named_at(m, name, kk));
        }
    }
}

/// Among the members with display name `name` up to `i`, there is a first.
proof fn lemma_first_named(m: Seq<(Seq<char>, Json)>, name: Seq<char>, i: int) -> (k: int)
    requires
        0 <= i < m.len(),
        m[i].1.member("name"@) == Some(Json::Str(name)),
    ensures
        first_named_at(m, name, k),
    decreases i,
{
    if exists|j: int| 0 <= j < i && (#[trigger] m[j]).1.member("name"@) == Some(Json::Str(name)) {
        let j = choose|j: int| 0 <= j < i && (#[trigger] m[j]).1.member("name"@) == Some(Json::Str(name));
        lemma_first_named(m, name, j)
    } else {
        i
    }
}

} // verus!
