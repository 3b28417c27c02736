//! `list`: all per-site shield overrides, grouped by domain.
use vstd::prelude::*;

use crate::commands::get::spec_cosmetic_for;
use crate::json::{Json, JsonValue, lemma_model_members};
use crate::output::{overrides_model, pairs_model, DomainOverrides};
use crate::preferences::{get_exception_entries, spec_exception_entries};
use crate::shields::{
    self, all_settings, read_cosmetic_value, spec_domain_from_pattern, spec_read_setting_value,
    stored_to_cli, ShieldSetting,
};
use crate::text::{owned, str_eq};
use crate::text_order::{keys_distinct, keys_sorted, sort_by_key, Keyed};

verus! {

broadcast use vstd::seq_lib::group_to_multiset_ensures;

/// Index of the first pair whose key is `k`, or -1.
pub open spec fn key_index<V>(m: Seq<(Seq<char>, V)>, k: Seq<char>) -> int
    decreases m.len(),
{
    if m.len() == 0 {
        -1
    } else {
        let r = key_index(m.drop_last(), k);
        if r >= 0 {
            r
        } else if m.last().0 == k {
            m.len() - 1
        } else {
            -1
        }
    }
}

/// Replace the value of the first pair with key `k`, or append `(k, v)`.
pub open spec fn assoc_set<V>(m: Seq<(Seq<char>, V)>, k: Seq<char>, v: V) -> Seq<(Seq<char>, V)> {
    let i = key_index(m, k);
    if i >= 0 {
        m.update(i, (k, v))
    } else {
        m.push((k, v))
    }
}

pub proof fn lemma_key_index<V>(m: Seq<(Seq<char>, V)>, k: Seq<char>)
    ensures
        -1 <= key_index(m, k) < m.len(),
        key_index(m, k) >= 0 ==> m[key_index(m, k)].0 == k,
        forall|j: int| 0 <= j < m.len() && (key_index(m, k) < 0 || j < key_index(m, k))
            ==> m[j].0 != k,
    decreases m.len(),
{
    if m.len() > 0 {
        lemma_key_index(m.drop_last(), k);
        assert forall|j: int| 0 <= j < m.len() - 1 implies m[j] == m.drop_last()[j] by {}
    }
}

pub proof fn lemma_key_index_at<V>(m: Seq<(Seq<char>, V)>, k: Seq<char>, i: int)
    requires
        0 <= i <= m.len(),
        forall|j: int| 0 <= j < i ==> m[j].0 != k,
        i == m.len() || m[i].0 == k,
    ensures
        key_index(m, k) == if i == m.len() { -1 } else { i },
{
    lemma_key_index(m, k);
}

/// Record `name = v` for domain `d`.
pub open spec fn spec_add_override(
    acc: Seq<(Seq<char>, Seq<(Seq<char>, Seq<char>)>)>,
    d: Seq<char>,
    name: Seq<char>,
    v: Seq<char>,
) -> Seq<(Seq<char>, Seq<(Seq<char>, Seq<char>)>)> {
    let i = key_index(acc, d);
    if i >= 0 {
        acc.update(i, (d, assoc_set(acc[i].1, name, v)))
    } else {
        acc.push((d, seq![(name, v)]))
    }
}

/// The overrides recorded for the members (pattern, entry) of a setting's exception object.
pub open spec fn collect_members(
    acc: Seq<(Seq<char>, Seq<(Seq<char>, Seq<char>)>)>,
    prefs: Json,
    setting: ShieldSetting,
    ms: Seq<(Seq<char>, Json)>,
) -> Seq<(Seq<char>, Seq<(Seq<char>, Seq<char>)>)>
    decreases ms.len(),
{
    if ms.len() == 0 {
        acc
    } else {
        let a = collect_members(acc, prefs, setting, ms.drop_last());
        let pattern = ms.last().0;
        let entry = ms.last().1;
        match spec_domain_from_pattern(pattern) {
            None => a,
            Some(d) => match spec_read_setting_value(entry) {
                None => a,
                Some(primary) => {
                    let cosmetic = if setting is Ads {
                        spec_cosmetic_for(prefs, pattern)
                    } else {
                        None
                    };
                    match stored_to_cli(setting, primary, cosmetic) {
                        Some(v) => spec_add_override(a, d, setting.spec_cli_name(), v),
                        None => a,
                    }
                },
            },
        }
    }
}

/// The overrides recorded for one setting.
pub open spec fn collect_setting(
    acc: Seq<(Seq<char>, Seq<(Seq<char>, Seq<char>)>)>,
    prefs: Json,
    setting: ShieldSetting,
) -> Seq<(Seq<char>, Seq<(Seq<char>, Seq<char>)>)> {
    match spec_exception_entries(prefs, setting.spec_primary_json_key()) {
        Some(Json::Object(ms)) => collect_members(acc, prefs, setting, ms),
        _ => acc,
    }
}

/// The overrides recorded for the settings, in order.
pub open spec fn collect_settings(prefs: Json, settings: Seq<ShieldSetting>) -> Seq<
    (Seq<char>, Seq<(Seq<char>, Seq<char>)>),
>
    decreases settings.len(),
{
    if settings.len() == 0 {
        Seq::empty()
    } else {
        collect_setting(collect_settings(prefs, settings.drop_last()), prefs, settings.last())
    }
}

/// What `list` shows: each domain with an override, in the order first met, with its
/// (setting, value) pairs.
pub open spec fn spec_list(prefs: Json) -> Seq<(Seq<char>, Seq<(Seq<char>, Seq<char>)>)> {
    collect_settings(prefs, all_settings())
}

fn find_domain(acc: &Vec<DomainOverrides>, d: &str) -> (r: Option<usize>)
    ensures
        match r {
            Some(i) => key_index(overrides_model(acc@), d@) == i,
            None => key_index(overrides_model(acc@), d@) == -1,
        },
{
    let ghost m = overrides_model(acc@);
    for i in 0..acc.len()
        invariant
            m == overrides_model(acc@),
            forall|j: int| 0 <= j < i ==> m[j].0 != d@,
    {
        if str_eq(acc[i].domain.as_str(), d) {
            proof {
                lemma_key_index_at(m, d@, i as int);
            }
            return Some(i);
        }
    }
    proof {
        lemma_key_index_at(m, d@, m.len() as int);
    }
    None
}

fn find_pair(overrides: &Vec<(String, String)>, name: &str) -> (r: Option<usize>)
    ensures
        match r {
            Some(i) => key_index(pairs_model(overrides@), name@) == i,
            None => key_index(pairs_model(overrides@), name@) == -1,
        },
{
    let ghost m = pairs_model(overrides@);
    for i in 0..overrides.len()
        invariant
            m == pairs_model(overrides@),
            forall|j: int| 0 <= j < i ==> m[j].0 != name@,
    {
        if str_eq(overrides[i].0.as_str(), name) {
            proof {
                lemma_key_index_at(m, name@, i as int);
            }
            return Some(i);
        }
    }
    proof {
        lemma_key_index_at(m, name@, m.len() as int);
    }
    None
}

fn set_override(overrides: &mut Vec<(String, String)>, name: &str, v: String)
    ensures
        pairs_model(final(overrides)@) == assoc_set(pairs_model(old(overrides)@), name@, v@),
{
    let ghost m = pairs_model(overrides@);
    proof {
        lemma_key_index(m, name@);
    }
    match find_pair(overrides, name) {
        Some(i) => {
            proof {
                lemma_key_index_at(m, name@, i as int);
            }
            overrides.remove(i);
            overrides.insert(i, (owned(name), v));
            assert(pairs_model(overrides@) =~= assoc_set(m, name@, v@));
        },
        None => {
            proof {
                lemma_key_index_at(m, name@, m.len() as int);
            }
            overrides.push((owned(name), v));
            assert(pairs_model(overrides@) =~= assoc_set(m, name@, v@));
        },
    }
}

fn add_override(acc: &mut Vec<DomainOverrides>, d: String, name: &str, v: String)
    ensures
        overrides_model(final(acc)@) == spec_add_override(overrides_model(old(acc)@), d@, name@, v@),
{
    let ghost m = overrides_model(acc@);
    proof {
        lemma_key_index(m, d@);
    }
    match find_domain(acc, d.as_str()) {
        Some(i) => {
            let ghost old_acc = acc@;
            let mut entry = acc.remove(i);
            assert(entry == old_acc[i as int]);
            assert(entry.model() == m[i as int]);
            set_override(&mut entry.overrides, name, v);
            assert(entry.model() == (d@, assoc_set(m[i as int].1, name@, v@)));
            acc.insert(i, entry);
            assert(acc@ =~= old_acc.update(i as int, entry));
            assert(key_index(m, d@) == i);
            let ghost lhs = overrides_model(acc@);
            let ghost rhs = spec_add_override(m, d@, name@, v@);
            assert(lhs.len() == rhs.len());
            assert forall|j: int| 0 <= j < lhs.len() implies #[trigger] lhs[j] == rhs[j] by {
                if j != i {
                    assert(acc@[j] == old_acc[j]);
                }
            }
            assert(lhs =~= rhs);
        },
        None => {
            let mut overrides: Vec<(String, String)> = Vec::new();
            overrides.push((owned(name), v));
            assert(pairs_model(overrides@) =~= seq![(name@, v@)]);
            let ghost old_acc = acc@;
            acc.push(DomainOverrides { domain: d, overrides });
            assert(acc@ =~= old_acc.push(DomainOverrides { domain: d, overrides }));
            assert(overrides_model(acc@) =~= spec_add_override(m, d@, name@, v@));
        },
    }
}

/// Record the overrides stored for one setting.
pub fn collect_setting_overrides(prefs: &JsonValue, setting: ShieldSetting, domain_map: &mut Vec<DomainOverrides>)
    ensures
        overrides_model(final(domain_map)@) == collect_setting(overrides_model(old(domain_map)@), prefs@, setting),
{
    let primary_key = setting.primary_json_key();
    let entries = match get_exception_entries(prefs, primary_key) {
        Some(e) => e,
        None => return,
    };
    let members = match entries.as_object() {
        Some(m) => m,
        None => return,
    };
    let ghost ms = JsonValue::model_members(members@);
    let ghost start = overrides_model(domain_map@);
    proof {
        lemma_model_members(members@);
    }
    for i in 0..members.len()
        invariant
            ms == JsonValue::model_members(members@),
            ms.len() == members@.len(),
            forall|j: int| 0 <= j < members@.len() ==> #[trigger] ms[j] == (members@[j].0@, members@[j].1@),
            spec_exception_entries(prefs@, setting.spec_primary_json_key()) == Some(Json::Object(ms)),
            overrides_model(domain_map@) == collect_members(start, prefs@, setting, ms.subrange(0, i as int)),
    {
        let ghost sub = ms.subrange(0, i + 1);
        proof {
            assert(sub.drop_last() =~= ms.subrange(0, i as int));
            assert(sub.last() == ms[i as int]);
        }
        let pattern = &members[i].0;
        let entry = &members[i].1;
        if let Some(domain) = shields::domain_from_pattern(pattern.as_str()) {
            if let Some(primary_value) = shields::read_setting_value(entry) {
                record_override(prefs, setting, pattern, domain, primary_value, domain_map);
            }
        }
    }
    proof {
        assert(ms.subrange(0, ms.len() as int) =~= ms);
    }
}

fn record_override(
    prefs: &JsonValue,
    setting: ShieldSetting,
    pattern: &String,
    domain: String,
    primary_value: i64,
    domain_map: &mut Vec<DomainOverrides>,
)
    ensures
        overrides_model(final(domain_map)@) == ({
            let a = overrides_model(old(domain_map)@);
            let cosmetic = if setting is Ads {
                spec_cosmetic_for(prefs@, pattern@)
            } else {
                None
            };
            match stored_to_cli(setting, primary_value, cosmetic) {
                Some(v) => spec_add_override(a, domain@, setting.spec_cli_name(), v),
                None => a,
            }
        }),
{
        let cosmetic_value = if setting == ShieldSetting::Ads {
            match get_exception_entries(prefs, "cosmeticFilteringV2") {
                Some(es) => match es.get(pattern.as_str()) {
                    Some(e) => read_cosmetic_value(e),
                    None => None,
                },
                None => None,
            }
        } else {
            None
        };
        match shields::from_stored(setting, primary_value, cosmetic_value) {
            Ok(cli_value) => add_override(domain_map, domain, setting.cli_name(), cli_value),
            Err(_) => {},
        }
}

/// The per-site overrides, each domain in the order first met.
fn collect_all(prefs: &JsonValue) -> (r: Vec<DomainOverrides>)
    ensures
        overrides_model(r@) == spec_list(prefs@),
{
    let mut domain_map: Vec<DomainOverrides> = Vec::new();
    let settings = ShieldSetting::all();
    proof {
        assert(overrides_model(domain_map@) =~= Seq::empty());
    }
    for i in 0..settings.len()
        invariant
            settings@ == all_settings(),
            overrides_model(domain_map@) == collect_settings(prefs@, settings@.subrange(0, i as int)),
    {
        proof {
            assert(settings@.subrange(0, i + 1).drop_last() =~= settings@.subrange(0, i as int));
        }
        collect_setting_overrides(prefs, settings[i], &mut domain_map);
    }
    proof {
        assert(settings@.subrange(0, 5) =~= settings@);
    }
    domain_map
}

/// No two pairs share a key.
pub open spec fn distinct_keys<V>(m: Seq<(Seq<char>, V)>) -> bool {
    forall|i: int, j: int| 0 <= i < m.len() && 0 <= j < m.len() && i != j ==> #[trigger] m[i].0 != #[trigger] m[j].0
}

/// Domains are listed once, and each domain lists a setting once.
pub open spec fn well_grouped(acc: Seq<(Seq<char>, Seq<(Seq<char>, Seq<char>)>)>) -> bool {
    &&& distinct_keys(acc)
    &&& forall|i: int| 0 <= i < acc.len() ==> distinct_keys(#[trigger] acc[i].1)
}

proof fn lemma_assoc_set_distinct<V>(m: Seq<(Seq<char>, V)>, k: Seq<char>, v: V)
    requires
        distinct_keys(m),
    ensures
        distinct_keys(assoc_set(m, k, v)),
{
    lemma_key_index(m, k);
    let r = assoc_set(m, k, v);
    assert forall|i: int, j: int| 0 <= i < r.len() && 0 <= j < r.len() && i != j implies #[trigger] r[i].0 != #[trigger] r[j].0 by {
        let t = key_index(m, k);
        if t < 0 {
            if i == m.len() {
                assert(r[j] == m[j]);
            } else if j == m.len() {
                assert(r[i] == m[i]);
            } else {
                assert(r[i] == m[i] && r[j] == m[j]);
            }
        } else {
            if i == t {
                assert(r[j] == m[j]);
            } else if j == t {
                assert(r[i] == m[i]);
            } else {
                assert(r[i] == m[i] && r[j] == m[j]);
            }
        }
    }
}

proof fn lemma_add_override_grouped(
    acc: Seq<(Seq<char>, Seq<(Seq<char>, Seq<char>)>)>,
    d: Seq<char>,
    name: Seq<char>,
    v: Seq<char>,
)
    requires
        well_grouped(acc),
    ensures
        well_grouped(spec_add_override(acc, d, name, v)),
{
    lemma_key_index(acc, d);
    let i0 = key_index(acc, d);
    let r = spec_add_override(acc, d, name, v);
    if i0 >= 0 {
        lemma_assoc_set_distinct(acc[i0].1, name, v);
    }
    assert forall|i: int, j: int| 0 <= i < r.len() && 0 <= j < r.len() && i != j implies #[trigger] r[i].0 != #[trigger] r[j].0 by {
        if i0 < 0 {
            if i == acc.len() {
                assert(r[j] == acc[j]);
            } else if j == acc.len() {
                assert(r[i] == acc[i]);
            } else {
                assert(r[i] == acc[i] && r[j] == acc[j]);
            }
        } else {
            if i == i0 {
                assert(r[j] == acc[j]);
            } else if j == i0 {
                assert(r[i] == acc[i]);
            } else {
                assert(r[i] == acc[i] && r[j] == acc[j]);
            }
        }
    }
    assert forall|i: int| 0 <= i < r.len() implies distinct_keys(#[trigger] r[i].1) by {
        if i0 < 0 && i == acc.len() {
            assert(r[i].1 == seq![(name, v)]);
        } else if i != i0 {
            assert(r[i] == acc[i]);
        }
    }
}

proof fn lemma_collect_members_grouped(
    acc: Seq<(Seq<char>, Seq<(Seq<char>, Seq<char>)>)>,
    prefs: Json,
    setting: ShieldSetting,
    ms: Seq<(Seq<char>, Json)>,
)
    requires
        well_grouped(acc),
    ensures
        well_grouped(collect_members(acc, prefs, setting, ms)),
    decreases ms.len(),
{
    if ms.len() > 0 {
        lemma_collect_members_grouped(acc, prefs, setting, ms.drop_last());
        let a = collect_members(acc, prefs, setting, ms.drop_last());
        let pattern = ms.last().0;
        match spec_domain_from_pattern(pattern) {
            Some(d) => match spec_read_setting_value(ms.last().1) {
                Some(primary) => {
                    let cosmetic = if setting is Ads {
                        spec_cosmetic_for(prefs, pattern)
                    } else {
                        None
                    };
                    match stored_to_cli(setting, primary, cosmetic) {
                        Some(v) => lemma_add_override_grouped(a, d, setting.spec_cli_name(), v),
                        None => {},
                    }
                },
                None => {},
            },
            None => {},
        }
    }
}

/// The listing groups overrides: each domain once, each setting once per domain.
pub proof fn lemma_collect_settings_grouped(prefs: Json, settings: Seq<ShieldSetting>)
    ensures
        well_grouped(collect_settings(prefs, settings)),
    decreases settings.len(),
{
    if settings.len() > 0 {
        lemma_collect_settings_grouped(prefs, settings.drop_last());
        let a = collect_settings(prefs, settings.drop_last());
        match spec_exception_entries(prefs, settings.last().spec_primary_json_key()) {
            Some(Json::Object(ms)) => lemma_collect_members_grouped(a, prefs, settings.last(), ms),
            _ => {},
        }
    } else {
        assert(collect_settings(prefs, settings) =~= Seq::empty());
    }
}

/// Whether a listed domain shows the overrides of an entry of `spec_list`: the same domain and
/// the same (setting, value) pairs, sorted by setting.
#[verifier::opaque]
pub open spec fn shows_entry(d: DomainOverrides, e: (Seq<char>, Seq<(Seq<char>, Seq<char>)>)) -> bool {
    &&& d.domain@ == e.0
    &&& keys_sorted(d.overrides@)
    &&& d.overrides@.len() == e.1.len()
    &&& forall|p: (Seq<char>, Seq<char>)| pairs_model(d.overrides@).contains(p) <==> e.1.contains(p)
}

/// Whether a listed domain shows some entry of `l`.
pub open spec fn shown_in(d: DomainOverrides, l: Seq<(Seq<char>, Seq<(Seq<char>, Seq<char>)>)>) -> bool {
    exists|j: int| 0 <= j < l.len() && #[trigger] shows_entry(d, l[j])
}

/// Whether some listed domain shows the entry `e`.
pub open spec fn listed(r: Seq<DomainOverrides>, e: (Seq<char>, Seq<(Seq<char>, Seq<char>)>)) -> bool {
    exists|i: int| 0 <= i < r.len() && #[trigger] shows_entry(r[i], e)
}

/// List all per-site shield overrides: each domain once, in increasing order, with its
/// (setting, value) pairs in increasing order of setting name.
pub fn run(prefs: &JsonValue) -> (r: Vec<DomainOverrides>)
    ensures
        keys_sorted(r@),
        r@.len() == spec_list(prefs@).len(),
        forall|i: int| 0 <= i < r@.len() ==> shown_in(#[trigger] r@[i], spec_list(prefs@)),
        forall|j: int| 0 <= j < spec_list(prefs@).len() ==> listed(r@, #[trigger] spec_list(prefs@)[j]),
{
    let collected = collect_all(prefs);
    let ghost l = spec_list(prefs@);
    proof {
        lemma_collect_settings_grouped(prefs@, all_settings());
    }
    let mut grouped: Vec<DomainOverrides> = Vec::new();
    let mut rest = collected;
    let n = rest.len();
    let mut k: usize = 0;
    while rest.len() > 0
        invariant
            l == spec_list(prefs@),
            well_grouped(l),
            n == l.len(),
            k + rest@.len() == n,
            grouped@.len() == k,
            forall|t: int| 0 <= t < rest@.len() ==> #[trigger] rest@[t].model() == l[k + t],
            forall|t: int| 0 <= t < k ==> shows_entry(#[trigger] grouped@[t], l[t]),
        decreases rest@.len(),
    {
        let ghost before = rest@;
        let d = rest.remove(0);
        assert(d.model() == l[k as int]);
        proof {
            assert forall|t: int| 0 <= t < rest@.len() implies #[trigger] rest@[t].model() == l[k + 1 + t] by {
                assert(rest@[t] == before[t + 1]);
            }
            let ov = d.overrides@;
            assert(pairs_model(ov) == l[k as int].1);
            assert(distinct_keys(l[k as int].1));
            assert forall|a: int, b: int| 0 <= a < ov.len() && 0 <= b < ov.len() && a != b implies #[trigger] ov[a].key_of() != #[trigger] ov[b].key_of() by {
                assert(pairs_model(ov)[a].0 == ov[a].0@);
                assert(pairs_model(ov)[b].0 == ov[b].0@);
            }
        }
        let DomainOverrides { domain, overrides } = d;
        let ghost ov0 = overrides@;
        let sorted = sort_by_key(overrides);
        proof {
            lemma_pairs_model_multiset(ov0, sorted@);
            assert(pairs_model(ov0) == l[k as int].1);
        }
        let ghost g0 = grouped@;
        grouped.push(DomainOverrides { domain, overrides: sorted });
        proof {
            reveal(shows_entry);
            assert(shows_entry(grouped@[k as int], l[k as int]));
            assert forall|t: int| 0 <= t < k + 1 implies shows_entry(#[trigger] grouped@[t], l[t]) by {
                if t < k {
                    assert(grouped@[t] == g0[t]);
                }
            }
        }
        k = k + 1;
    }
    proof {
        reveal(shows_entry);
        assert forall|a: int, b: int| 0 <= a < grouped@.len() && 0 <= b < grouped@.len() && a != b implies #[trigger] grouped@[a].key_of() != #[trigger] grouped@[b].key_of() by {
            assert(shows_entry(grouped@[a], l[a]));
            assert(shows_entry(grouped@[b], l[b]));
        }
    }
    let ghost g = grouped@;
    let r = sort_by_key(grouped);
    proof {
        lemma_reordered_shows(g, r@, l);
    }
    r
}

/// A reordering of listed domains still shows every entry, and only those.
proof fn lemma_reordered_shows(
    g: Seq<DomainOverrides>,
    r: Seq<DomainOverrides>,
    l: Seq<(Seq<char>, Seq<(Seq<char>, Seq<char>)>)>,
)
    requires
        g.len() == l.len(),
        forall|t: int| 0 <= t < g.len() ==> shows_entry(#[trigger] g[t], l[t]),
        r.to_multiset() == g.to_multiset(),
    ensures
        r.len() == l.len(),
        forall|i: int| 0 <= i < r.len() ==> shown_in(#[trigger] r[i], l),
        forall|j: int| 0 <= j < l.len() ==> listed(r, #[trigger] l[j]),
{
    assert(r.len() == r.to_multiset().len());
    assert(g.len() == g.to_multiset().len());
    assert forall|i: int| 0 <= i < r.len() implies shown_in(#[trigger] r[i], l) by {
        assert(r.to_multiset().count(r[i]) > 0);
        assert(g.contains(r[i]));
        let j = choose|j: int| 0 <= j < g.len() && g[j] == r[i];
        assert(shows_entry(g[j], l[j]));
        assert(shows_entry(r[i], l[j]));
    }
    assert forall|j: int| 0 <= j < l.len() implies listed(r, #[trigger] l[j]) by {
        assert(shows_entry(g[j], l[j]));
        assert(g.to_multiset().count(g[j]) > 0);
        assert(r.contains(g[j]));
        let i = choose|i: int| 0 <= i < r.len() && r[i] == g[j];
        assert(shows_entry(r[i], l[j]));
    }
}

/// Reordering a list of pairs keeps its length and the models it holds.
proof fn lemma_pairs_model_multiset(a: Seq<(String, String)>, b: Seq<(String, String)>)
    requires
        a.to_multiset() == b.to_multiset(),
    ensures
        a.len() == b.len(),
        forall|p: (Seq<char>, Seq<char>)| pairs_model(a).contains(p) <==> pairs_model(b).contains(p),
{
    assert(a.len() == a.to_multiset().len());
    assert(b.len() == b.to_multiset().len());
    assert forall|p: (Seq<char>, Seq<char>)| pairs_model(a).contains(p) implies pairs_model(b).contains(p) by {
        let i = choose|i: int| 0 <= i < pairs_model(a).len() && pairs_model(a)[i] == p;
        assert(a.to_multiset().count(a[i]) > 0);
        assert(b.contains(a[i]));
        let k = choose|k: int| 0 <= k < b.len() && b[k] == a[i];
        assert(pairs_model(b)[k] == p);
    }
    assert forall|p: (Seq<char>, Seq<char>)| pairs_model(b).contains(p) implies pairs_model(a).contains(p) by {
        let i = choose|i: int| 0 <= i < pairs_model(b).len() && pairs_model(b)[i] == p;
        assert(b.to_multiset().count(b[i]) > 0);
        assert(a.contains(b[i]));
        let k = choose|k: int| 0 <= k < a.len() && a[k] == b[i];
        assert(pairs_model(a)[k] == p);
    }
}

} // verus!

verus! {

/// The value of the first pair with key `k`.
pub open spec fn pair_get<V>(m: Seq<(Seq<char>, V)>, k: Seq<char>) -> Option<V> {
    let i = key_index(m, k);
    if i >= 0 {
        Some(m[i].1)
    } else {
        None
    }
}

/// The value that a listing shows for setting `name` of domain `d`, if it shows one.
pub open spec fn listed_value(
    l: Seq<(Seq<char>, Seq<(Seq<char>, Seq<char>)>)>,
    d: Seq<char>,
    name: Seq<char>,
) -> Option<Seq<char>> {
    match pair_get(l, d) {
        Some(ps) => pair_get(ps, name),
        None => None,
    }
}

/// Each pattern occurs at most once in the exception object of `key` (as in any JSON object
/// read from a file).
pub open spec fn unique_patterns(prefs: Json, key: Seq<char>) -> bool {
    match spec_exception_entries(prefs, key) {
        Some(Json::Object(ms)) => distinct_keys(ms),
        _ => true,
    }
}

proof fn lemma_assoc_set_get<V>(m: Seq<(Seq<char>, V)>, k: Seq<char>, v: V, k2: Seq<char>)
    ensures
        pair_get(assoc_set(m, k, v), k2) == if k2 == k { Some(v) } else { pair_get(m, k2) },
{
    lemma_key_index(m, k);
    lemma_key_index(m, k2);
    let i = key_index(m, k);
    let i2 = key_index(m, k2);
    let r = assoc_set(m, k, v);
    if i >= 0 {
        lemma_key_index_at(r, k, i);
        if k2 != k {
            lemma_key_index_at(r, k2, if i2 >= 0 { i2 } else { r.len() as int });
        }
    } else {
        lemma_key_index_at(r, k, m.len() as int);
        if k2 != k {
            lemma_key_index_at(r, k2, if i2 >= 0 { i2 } else { r.len() as int });
        }
    }
}

proof fn lemma_add_override_listed(
    acc: Seq<(Seq<char>, Seq<(Seq<char>, Seq<char>)>)>,
    d2: Seq<char>,
    n2: Seq<char>,
    v2: Seq<char>,
    d: Seq<char>,
    n: Seq<char>,
)
    ensures
        listed_value(spec_add_override(acc, d2, n2, v2), d, n) == if d2 == d && n2 == n {
            Some(v2)
        } else {
            listed_value(acc, d, n)
        },
{
    lemma_key_index(acc, d2);
    let i = key_index(acc, d2);
    let inner = if i >= 0 { assoc_set(acc[i].1, n2, v2) } else { seq![(n2, v2)] };
    assert(spec_add_override(acc, d2, n2, v2) == assoc_set(acc, d2, inner));
    lemma_assoc_set_get(acc, d2, inner, d);
    if d2 == d {
        if i >= 0 {
            lemma_assoc_set_get(acc[i].1, n2, v2, n);
        } else {
            lemma_key_index_at(seq![(n2, v2)], n, if n == n2 { 0 } else { 1 });
        }
    }
}

proof fn lemma_distinct_drop_last<V>(m: Seq<(Seq<char>, V)>)
    requires
        distinct_keys(m),
        m.len() > 0,
    ensures
        distinct_keys(m.drop_last()),
{
    let p = m.drop_last();
    assert forall|i: int, j: int| 0 <= i < p.len() && 0 <= j < p.len() && i != j implies #[trigger] p[i].0 != #[trigger] p[j].0 by {
        assert(p[i] == m[i] && p[j] == m[j]);
    }
}

/// A member that no pattern `d,*` has, or an override of another setting, leaves what is
/// listed for (`d`, `name`) as it was.
proof fn lemma_collect_members_other(
    acc: Seq<(Seq<char>, Seq<(Seq<char>, Seq<char>)>)>,
    prefs: Json,
    setting: ShieldSetting,
    ms: Seq<(Seq<char>, Json)>,
    d: Seq<char>,
    name: Seq<char>,
)
    requires
        setting.spec_cli_name() != name || forall|j: int| 0 <= j < ms.len() ==> (#[trigger] ms[j]).0
            != shields::spec_domain_pattern(d),
    ensures
        listed_value(collect_members(acc, prefs, setting, ms), d, name) == listed_value(acc, d, name),
    decreases ms.len(),
{
    if ms.len() > 0 {
        let p = ms.drop_last();
        assert forall|j: int| 0 <= j < p.len() implies #[trigger] p[j] == ms[j] by {}
        lemma_collect_members_other(acc, prefs, setting, p, d, name);
        let a = collect_members(acc, prefs, setting, p);
        let pattern = ms.last().0;
        match spec_domain_from_pattern(pattern) {
            Some(d2) => match spec_read_setting_value(ms.last().1) {
                Some(primary) => {
                    let cosmetic = if setting is Ads {
                        spec_cosmetic_for(prefs, pattern)
                    } else {
                        None
                    };
                    match stored_to_cli(setting, primary, cosmetic) {
                        Some(v) => {
                            shields::lemma_pattern_of_domain(pattern);
                            assert(ms[ms.len() - 1].0 == pattern);
                            lemma_add_override_listed(a, d2, setting.spec_cli_name(), v, d, name);
                        },
                        None => {},
                    }
                },
                None => {},
            },
            None => {},
        }
    }
}

/// The member `d,*` of a setting's exception object gives what is listed for that setting
/// of `d`, whatever was collected before.
proof fn lemma_collect_members_found(
    acc: Seq<(Seq<char>, Seq<(Seq<char>, Seq<char>)>)>,
    prefs: Json,
    setting: ShieldSetting,
    ms: Seq<(Seq<char>, Json)>,
    d: Seq<char>,
    entry: Json,
    primary: i64,
    v: Seq<char>,
)
    requires
        distinct_keys(ms),
        crate::json::members_get(ms, shields::spec_domain_pattern(d)) == Some(entry),
        spec_read_setting_value(entry) == Some(primary),
        stored_to_cli(
            setting,
            primary,
            if setting is Ads {
                spec_cosmetic_for(prefs, shields::spec_domain_pattern(d))
            } else {
                None
            },
        ) == Some(v),
    ensures
        listed_value(collect_members(acc, prefs, setting, ms), d, setting.spec_cli_name()) == Some(v),
    decreases ms.len(),
{
    let q = shields::spec_domain_pattern(d);
    crate::json::lemma_member_index(ms, q);
    let k = crate::json::member_index(ms, q);
    let p = ms.drop_last();
    let a = collect_members(acc, prefs, setting, p);
    let pattern = ms.last().0;
    let name = setting.spec_cli_name();
    shields::lemma_domain_pattern_roundtrip(d);
    if pattern == q {
        assert(ms[ms.len() - 1].0 == q);
        assert(k == ms.len() - 1);
        lemma_add_override_listed(a, d, name, v, d, name);
    } else {
        lemma_distinct_drop_last(ms);
        assert forall|j: int| 0 <= j < k implies #[trigger] p[j].0 != q by {
            assert(p[j] == ms[j]);
        }
        crate::json::lemma_member_index_at(p, q, k);
        lemma_collect_members_found(acc, prefs, setting, p, d, entry, primary, v);
        match spec_domain_from_pattern(pattern) {
            Some(d2) => match spec_read_setting_value(ms.last().1) {
                Some(pr) => {
                    let cosmetic = if setting is Ads {
                        spec_cosmetic_for(prefs, pattern)
                    } else {
                        None
                    };
                    match stored_to_cli(setting, pr, cosmetic) {
                        Some(v2) => {
                            shields::lemma_pattern_of_domain(pattern);
                            lemma_add_override_listed(a, d2, name, v2, d, name);
                        },
                        None => {},
                    }
                },
                None => {},
            },
            None => {},
        }
    }
}

proof fn lemma_collect_settings_found(prefs: Json, settings: Seq<ShieldSetting>, s: ShieldSetting, d: Seq<char>)
    requires
        settings.contains(s),
        unique_patterns(prefs, s.spec_primary_json_key()),
        s.spec_valid_values().contains(
            crate::commands::get::spec_setting_display(prefs, s, shields::spec_domain_pattern(d)),
        ),
    ensures
        listed_value(collect_settings(prefs, settings), d, s.spec_cli_name()) == Some(
            crate::commands::get::spec_setting_display(prefs, s, shields::spec_domain_pattern(d)),
        ),
    decreases settings.len(),
{
    let q = shields::spec_domain_pattern(d);
    let shown = crate::commands::get::spec_setting_display(prefs, s, q);
    shields::lemma_valid_value_not_placeholder(s, shown);
    let t = settings.last();
    let a = collect_settings(prefs, settings.drop_last());
    if t == s {
        match spec_exception_entries(prefs, s.spec_primary_json_key()) {
            Some(Json::Object(ms)) => {
                let entry = crate::json::members_get(ms, q)->0;
                let primary = spec_read_setting_value(entry)->0;
                lemma_collect_members_found(a, prefs, s, ms, d, entry, primary, shown);
            },
            _ => {},
        }
    } else {
        let i = choose|i: int| 0 <= i < settings.len() && settings[i] == s;
        assert(settings.drop_last()[i] == s);
        lemma_collect_settings_found(prefs, settings.drop_last(), s, d);
        shields::lemma_cli_name_injective(t, s);
        match spec_exception_entries(prefs, t.spec_primary_json_key()) {
            Some(Json::Object(ms)) => lemma_collect_members_other(a, prefs, t, ms, d, s.spec_cli_name()),
            _ => {},
        }
    }
}

/// `list` agrees with `get`: where `get` shows a value for a setting of a domain (neither
/// `default` nor `unknown`), `list` shows that domain with the same value for that setting.
pub proof fn lemma_list_shows_get(prefs: Json, s: ShieldSetting, d: Seq<char>)
    requires
        unique_patterns(prefs, s.spec_primary_json_key()),
        s.spec_valid_values().contains(
            crate::commands::get::spec_setting_display(prefs, s, shields::spec_domain_pattern(d)),
        ),
    ensures
        listed_value(spec_list(prefs), d, s.spec_cli_name()) == Some(
            crate::commands::get::spec_setting_display(prefs, s, shields::spec_domain_pattern(d)),
        ),
{
    let all = all_settings();
    let i: int = match s {
        ShieldSetting::Shields => 0,
        ShieldSetting::Ads => 1,
        ShieldSetting::Fingerprinting => 2,
        ShieldSetting::HttpsUpgrade => 3,
        ShieldSetting::Scripts => 4,
    };
    assert(all[i] == s);
    lemma_collect_settings_found(prefs, all, s, d);
}

} // verus!

verus! {

proof fn lemma_members_set_distinct(m: Seq<(Seq<char>, Json)>, k: Seq<char>, v: Json)
    requires
        distinct_keys(m),
    ensures
        distinct_keys(crate::json::members_set(m, k, v)),
{
    crate::json::lemma_member_index(m, k);
    let t = crate::json::member_index(m, k);
    let r = crate::json::members_set(m, k, v);
    assert forall|i: int, j: int| 0 <= i < r.len() && 0 <= j < r.len() && i != j implies #[trigger] r[i].0 != #[trigger] r[j].0 by {
        if t < 0 {
            if i == m.len() {
                assert(r[j] == m[j]);
            } else if j == m.len() {
                assert(r[i] == m[i]);
            } else {
                assert(r[i] == m[i] && r[j] == m[j]);
            }
        } else {
            if i == t {
                assert(r[j] == m[j]);
            } else if j == t {
                assert(r[i] == m[i]);
            } else {
                assert(r[i] == m[i] && r[j] == m[j]);
            }
        }
    }
}

/// Storing entries keeps each pattern once in every exception object.
proof fn lemma_apply_entries_unique(
    prefs: Json,
    pattern: Seq<char>,
    es: Seq<(Seq<char>, Json)>,
    key: Seq<char>,
)
    requires
        prefs.indexable(),
        unique_patterns(prefs, key),
    ensures
        crate::commands::set::spec_apply_entries(prefs, pattern, es).indexable(),
        unique_patterns(crate::commands::set::spec_apply_entries(prefs, pattern, es), key),
    decreases es.len(),
{
    if es.len() > 0 {
        lemma_apply_entries_unique(prefs, pattern, es.drop_last(), key);
        let p = crate::commands::set::spec_apply_entries(prefs, pattern, es.drop_last());
        let k = es.last().0;
        crate::preferences::lemma_insert_exception(p, k, pattern, es.last().1, key);
        if k == key {
            crate::preferences::lemma_exceptions_object(p);
            let o = crate::preferences::exceptions_object(p).object_at(k);
            match o {
                Json::Object(ms) => {
                    if ms.len() > 0 {
                        assert(spec_exception_entries(p, key) == Some(o));
                    }
                    lemma_members_set_distinct(ms, pattern, es.last().1);
                },
                _ => {},
            }
        }
    }
}

/// Setting a value for a domain and then listing shows the domain with that value for the
/// setting, whatever the document held before (each pattern once per exception object) and
/// whatever the timestamp.
pub proof fn lemma_set_then_list(
    prefs: Json,
    domain: Seq<char>,
    setting: ShieldSetting,
    value: Seq<char>,
    lm: Seq<char>,
)
    requires
        prefs.indexable(),
        unique_patterns(prefs, setting.spec_primary_json_key()),
        setting.spec_valid_values().contains(value),
    ensures
        shields::stored_entries(setting, value, lm) is Some,
        listed_value(
            spec_list(
                crate::commands::set::spec_apply_entries(
                    prefs,
                    shields::spec_domain_pattern(domain),
                    shields::stored_entries(setting, value, lm)->0,
                ),
            ),
            domain,
            setting.spec_cli_name(),
        ) == Some(value),
{
    let q = shields::spec_domain_pattern(domain);
    crate::commands::set::lemma_set_then_get(prefs, q, setting, value, lm);
    let es = shields::stored_entries(setting, value, lm)->0;
    lemma_apply_entries_unique(prefs, q, es, setting.spec_primary_json_key());
    lemma_list_shows_get(crate::commands::set::spec_apply_entries(prefs, q, es), setting, domain);
}

} // verus!

verus! {

/// The value that the member `q` of a setting's exception object gives, if it gives one.
pub open spec fn member_shown(prefs: Json, setting: ShieldSetting, ms: Seq<(Seq<char>, Json)>, q: Seq<char>) -> Option<
    Seq<char>,
> {
    match crate::json::members_get(ms, q) {
        Some(entry) => match spec_read_setting_value(entry) {
            Some(primary) => stored_to_cli(
                setting,
                primary,
                if setting is Ads {
                    spec_cosmetic_for(prefs, q)
                } else {
                    None
                },
            ),
            None => None,
        },
        None => None,
    }
}

/// What a setting's members record for (`d`, its name): the value of the member `d,*`, if it
/// gives one, and otherwise what was recorded before.
proof fn lemma_collect_members_exact(
    acc: Seq<(Seq<char>, Seq<(Seq<char>, Seq<char>)>)>,
    prefs: Json,
    setting: ShieldSetting,
    ms: Seq<(Seq<char>, Json)>,
    d: Seq<char>,
)
    requires
        distinct_keys(ms),
    ensures
        listed_value(collect_members(acc, prefs, setting, ms), d, setting.spec_cli_name()) == match member_shown(
            prefs,
            setting,
            ms,
            shields::spec_domain_pattern(d),
        ) {
            Some(v) => Some(v),
            None => listed_value(acc, d, setting.spec_cli_name()),
        },
    decreases ms.len(),
{
    let q = shields::spec_domain_pattern(d);
    let name = setting.spec_cli_name();
    match member_shown(prefs, setting, ms, q) {
        Some(v) => {
            let entry = crate::json::members_get(ms, q)->0;
            let primary = spec_read_setting_value(entry)->0;
            lemma_collect_members_found(acc, prefs, setting, ms, d, entry, primary, v);
        },
        None => {
            if ms.len() > 0 {
                crate::json::lemma_member_index(ms, q);
                let k = crate::json::member_index(ms, q);
                let p = ms.drop_last();
                let a = collect_members(acc, prefs, setting, p);
                let pattern = ms.last().0;
                lemma_distinct_drop_last(ms);
                shields::lemma_domain_pattern_roundtrip(d);
                if pattern == q {
                    assert(ms[ms.len() - 1].0 == q);
                    assert(k == ms.len() - 1);
                    assert forall|j: int| 0 <= j < p.len() implies (#[trigger] p[j]).0 != q by {
                        assert(p[j] == ms[j]);
                    }
                    lemma_collect_members_other(acc, prefs, setting, p, d, name);
                } else {
                    assert forall|j: int| 0 <= j < p.len() && (k < 0 || j < k) implies #[trigger] p[j].0 != q by {
                        assert(p[j] == ms[j]);
                    }
                    crate::json::lemma_member_index_at(p, q, if k < 0 { p.len() as int } else { k });
                    lemma_collect_members_exact(acc, prefs, setting, p, d);
                    match spec_domain_from_pattern(pattern) {
                        Some(d2) => match spec_read_setting_value(ms.last().1) {
                            Some(pr) => {
                                let cosmetic = if setting is Ads {
                                    spec_cosmetic_for(prefs, pattern)
                                } else {
                                    None
                                };
                                match stored_to_cli(setting, pr, cosmetic) {
                                    Some(v2) => {
                                        shields::lemma_pattern_of_domain(pattern);
                                        lemma_add_override_listed(a, d2, name, v2, d, name);
                                    },
                                    None => {},
                                }
                            },
                            None => {},
                        },
                        None => {},
                    }
                }
            }
        },
    }
}

/// No setting outside `settings` is listed.
proof fn lemma_collect_settings_absent(prefs: Json, settings: Seq<ShieldSetting>, s: ShieldSetting, d: Seq<char>)
    requires
        !settings.contains(s),
    ensures
        listed_value(collect_settings(prefs, settings), d, s.spec_cli_name()) is None,
    decreases settings.len(),
{
    if settings.len() == 0 {
        assert(key_index(Seq::<(Seq<char>, Seq<(Seq<char>, Seq<char>)>)>::empty(), d) == -1);
    } else {
        let t = settings.last();
        assert(settings[settings.len() - 1] == t);
        assert(!settings.drop_last().contains(s)) by {
            if settings.drop_last().contains(s) {
                let i = choose|i: int| 0 <= i < settings.drop_last().len() && settings.drop_last()[i] == s;
                assert(settings[i] == s);
            }
        }
        lemma_collect_settings_absent(prefs, settings.drop_last(), s, d);
        shields::lemma_cli_name_injective(t, s);
        let a = collect_settings(prefs, settings.drop_last());
        match spec_exception_entries(prefs, t.spec_primary_json_key()) {
            Some(Json::Object(ms)) => lemma_collect_members_other(a, prefs, t, ms, d, s.spec_cli_name()),
            _ => {},
        }
    }
}

/// What `get` shows, as `list` would show it: the value, or nothing for `default` and `unknown`.
pub open spec fn get_shown(prefs: Json, s: ShieldSetting, d: Seq<char>) -> Option<Seq<char>> {
    let v = crate::commands::get::spec_setting_display(prefs, s, shields::spec_domain_pattern(d));
    if s.spec_valid_values().contains(v) {
        Some(v)
    } else {
        None
    }
}

proof fn lemma_collect_settings_exact(prefs: Json, settings: Seq<ShieldSetting>, s: ShieldSetting, d: Seq<char>)
    requires
        settings.contains(s),
        forall|i: int, j: int| 0 <= i < j < settings.len() ==> settings[i] != settings[j],
        unique_patterns(prefs, s.spec_primary_json_key()),
    ensures
        listed_value(collect_settings(prefs, settings), d, s.spec_cli_name()) == get_shown(prefs, s, d),
    decreases settings.len(),
{
    let q = shields::spec_domain_pattern(d);
    let t = settings.last();
    let p = settings.drop_last();
    let a = collect_settings(prefs, p);
    assert(settings[settings.len() - 1] == t);
    assert forall|i: int, j: int| 0 <= i < j < p.len() implies p[i] != p[j] by {
        assert(p[i] == settings[i] && p[j] == settings[j]);
    }
    if t == s {
        assert(!p.contains(s)) by {
            if p.contains(s) {
                let i = choose|i: int| 0 <= i < p.len() && p[i] == s;
                assert(settings[i] == s);
            }
        }
        lemma_collect_settings_absent(prefs, p, s, d);
        let shown = crate::commands::get::spec_setting_display(prefs, s, q);
        match spec_exception_entries(prefs, s.spec_primary_json_key()) {
            Some(Json::Object(ms)) => {
                lemma_collect_members_exact(a, prefs, s, ms, d);
                match member_shown(prefs, s, ms, q) {
                    Some(v) => {
                        shields::lemma_stored_to_cli_valid(s, v);
                    },
                    None => {
                        lemma_not_shown_placeholder(prefs, s, q);
                    },
                }
            },
            _ => {
                lemma_not_shown_placeholder(prefs, s, q);
            },
        }
    } else {
        let i = choose|i: int| 0 <= i < settings.len() && settings[i] == s;
        assert(p[i] == s);
        lemma_collect_settings_exact(prefs, p, s, d);
        shields::lemma_cli_name_injective(t, s);
        match spec_exception_entries(prefs, t.spec_primary_json_key()) {
            Some(Json::Object(ms)) => lemma_collect_members_other(a, prefs, t, ms, d, s.spec_cli_name()),
            _ => {},
        }
    }
}

/// `default` and `unknown` are no setting's values.
proof fn lemma_not_shown_placeholder(prefs: Json, s: ShieldSetting, q: Seq<char>)
    requires
        crate::commands::get::spec_setting_display(prefs, s, q) == "default"@
            || crate::commands::get::spec_setting_display(prefs, s, q) == "unknown"@,
    ensures
        !s.spec_valid_values().contains(crate::commands::get::spec_setting_display(prefs, s, q)),
{
    let v = crate::commands::get::spec_setting_display(prefs, s, q);
    if s.spec_valid_values().contains(v) {
        shields::lemma_valid_value_not_placeholder(s, v);
    }
}

/// `list` and `get` agree exactly: for every domain and setting, `list` shows the value that
/// `get` shows, and shows nothing for that setting of the domain where `get` shows `default`
/// or `unknown` (each pattern once in the setting's exception object).
pub proof fn lemma_list_matches_get(prefs: Json, s: ShieldSetting, d: Seq<char>)
    requires
        unique_patterns(prefs, s.spec_primary_json_key()),
    ensures
        listed_value(spec_list(prefs), d, s.spec_cli_name()) == get_shown(prefs, s, d),
{
    let all = all_settings();
    let i: int = match s {
        ShieldSetting::Shields => 0,
        ShieldSetting::Ads => 1,
        ShieldSetting::Fingerprinting => 2,
        ShieldSetting::HttpsUpgrade => 3,
        ShieldSetting::Scripts => 4,
    };
    assert(all[i] == s);
    assert forall|a: int, b: int| 0 <= a < b < all.len() implies all[a] != all[b] by {}
    lemma_collect_settings_exact(prefs, all, s, d);
}

} // verus!

verus! {

/// What one setting adds to a listing (`collect_setting_overrides`): for a domain `d`, the
/// setting's value becomes the one its member `d,*` gives (an integer `setting` that reads back
/// as a value), and stays as it was when that member gives none; no other setting's listed
/// value changes (each pattern once in the setting's exception object).
pub proof fn lemma_collect_setting_exact(
    acc: Seq<(Seq<char>, Seq<(Seq<char>, Seq<char>)>)>,
    prefs: Json,
    s: ShieldSetting,
    d: Seq<char>,
    name: Seq<char>,
)
    requires
        unique_patterns(prefs, s.spec_primary_json_key()),
    ensures
        listed_value(collect_setting(acc, prefs, s), d, name) == if name == s.spec_cli_name() {
            match spec_exception_entries(prefs, s.spec_primary_json_key()) {
                Some(Json::Object(ms)) => match member_shown(prefs, s, ms, shields::spec_domain_pattern(d)) {
                    Some(v) => Some(v),
                    None => listed_value(acc, d, name),
                },
                _ => listed_value(acc, d, name),
            }
        } else {
            listed_value(acc, d, name)
        },
{
    match spec_exception_entries(prefs, s.spec_primary_json_key()) {
        Some(Json::Object(ms)) => {
            if name == s.spec_cli_name() {
                lemma_collect_members_exact(acc, prefs, s, ms, d);
            } else {
                lemma_collect_members_other(acc, prefs, s, ms, d, name);
            }
        },
        _ => {},
    }
}

} // verus!
