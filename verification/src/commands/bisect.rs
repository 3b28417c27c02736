//! `filters bisect`: find the filter rule behind a site issue by halving the candidates.
use vstd::prelude::*;

use crate::commands::filters::join_lines;
use crate::error::CliError;
use crate::json::{json_uint, uint_value, Json, JsonValue};
use vstd::arithmetic::power2::{lemma2_to64, lemma2_to64_rest, lemma_pow2_strictly_increases, lemma_pow2_unfold, pow2};
use crate::local_state::{custom_filters_text, spec_custom_filters_text, strings_model};
use crate::platform::Channel;
use crate::text::{
    chars_of, is_blank, lines, owned, push_char, push_str, split_lines, str_eq, string_from_chars,
    trim, trim_chars,
};

verus! {

pub open spec fn spec_channel_to_str(channel: Channel) -> Seq<char> {
    match channel {
        Channel::Release => "release"@,
        Channel::Beta => "beta"@,
        Channel::Nightly => "nightly"@,
        Channel::Dev => "dev"@,
    }
}

/// The channel name saved in a bisect state file.
pub fn channel_to_str(channel: Channel) -> (r: &'static str)
    ensures
        r@ == spec_channel_to_str(channel),
{
    match channel {
        Channel::Release => "release",
        Channel::Beta => "beta",
        Channel::Nightly => "nightly",
        Channel::Dev => "dev",
    }
}

pub open spec fn spec_channel_from_str(s: Seq<char>) -> Option<Channel> {
    if s == "release"@ {
        Some(Channel::Release)
    } else if s == "beta"@ {
        Some(Channel::Beta)
    } else if s == "nightly"@ {
        Some(Channel::Nightly)
    } else if s == "dev"@ {
        Some(Channel::Dev)
    } else {
        None
    }
}

/// The channel of a name saved in a bisect state file.
pub fn channel_from_str(s: &str) -> (r: Result<Channel, CliError>)
    ensures
        match r {
            Ok(c) => spec_channel_from_str(s@) == Some(c),
            Err(e) => spec_channel_from_str(s@) is None && (e matches CliError::UnknownChannel {
                name,
            } && name@ == s@),
        },
{
    if str_eq(s, "release") {
        Ok(Channel::Release)
    } else if str_eq(s, "beta") {
        Ok(Channel::Beta)
    } else if str_eq(s, "nightly") {
        Ok(Channel::Nightly)
    } else if str_eq(s, "dev") {
        Ok(Channel::Dev)
    } else {
        Err(CliError::UnknownChannel { name: owned(s) })
    }
}

/// Reading back a saved channel name gives the channel.
pub proof fn lemma_channel_roundtrip(c: Channel)
    ensures
        spec_channel_from_str(spec_channel_to_str(c)) == Some(c),
{
    reveal_strlit("release");
    reveal_strlit("beta");
    reveal_strlit("nightly");
    reveal_strlit("dev");
    assert("release"@.len() != "beta"@.len());
    assert("release"@[0] != "nightly"@[0]);
    assert("release"@.len() != "dev"@.len());
    assert("beta"@.len() != "nightly"@.len());
    assert("beta"@.len() != "dev"@.len());
    assert("nightly"@.len() != "dev"@.len());
}

/// Whether `s` begins with `p`.
pub open spec fn starts_with(s: Seq<char>, p: Seq<char>) -> bool {
    p.len() <= s.len() && s.subrange(0, p.len() as int) == p
}

/// Position of the first `##` in `s`, or -1.
pub open spec fn find_double_hash(s: Seq<char>) -> int
    decreases s.len(),
{
    if s.len() < 2 {
        -1
    } else {
        let r = find_double_hash(s.drop_last());
        if r >= 0 {
            r
        } else if s[s.len() - 2] == '#' && s[s.len() - 1] == '#' {
            s.len() - 2
        } else {
            -1
        }
    }
}

pub proof fn lemma_find_double_hash(s: Seq<char>)
    ensures
        find_double_hash(s) == -1 || 0 <= find_double_hash(s) <= s.len() - 2,
        find_double_hash(s) >= 0 ==> s[find_double_hash(s)] == '#' && s[find_double_hash(s) + 1] == '#',
        forall|j: int| 0 <= j < s.len() - 1 && (find_double_hash(s) < 0 || j < find_double_hash(s))
            ==> !(#[trigger] s[j] == '#' && s[j + 1] == '#'),
    decreases s.len(),
{
    if s.len() >= 2 {
        lemma_find_double_hash(s.drop_last());
        assert forall|j: int| 0 <= j < s.len() - 1 implies #[trigger] s[j] == s.drop_last()[j] by {}
    }
}

pub proof fn lemma_find_double_hash_at(s: Seq<char>, i: int)
    requires
        0 <= i,
        i <= s.len() - 1 || i == s.len(),
        forall|j: int| 0 <= j < i && j < s.len() - 1 ==> !(#[trigger] s[j] == '#' && s[j + 1] == '#'),
        i >= s.len() - 1 || (s[i] == '#' && s[i + 1] == '#'),
    ensures
        find_double_hash(s) == if i >= s.len() - 1 { -1 } else { i },
{
    lemma_find_double_hash(s);
}

/// Whether the cosmetic exception mark `#@#` starts at position `i` of `s`.
pub open spec fn exception_mark_at(s: Seq<char>, i: int) -> bool {
    0 <= i && i + 3 <= s.len() && s[i] == '#' && s[i + 1] == '@' && s[i + 2] == '#'
}

/// Whether a rule is already an exception: a network exception (`@@` in front) or a cosmetic
/// exception (`#@#`, after a domain or at the start).
pub open spec fn is_exception_rule(rule: Seq<char>) -> bool {
    starts_with(rule, seq!['@', '@']) || exists|i: int| #[trigger] exception_mark_at(rule, i)
}

/// The exception form of a filter rule: network rules get `@@` in front, cosmetic rules
/// (`##`, but not a scriptlet `###+`) get `##` replaced by `#@#`, exceptions stay as they are.
pub open spec fn spec_make_exception(rule: Seq<char>) -> Seq<char> {
    if is_exception_rule(rule) {
        rule
    } else {
        let p = find_double_hash(rule);
        if p >= 0 && !starts_with(rule.subrange(p, rule.len() as int), seq!['#', '#', '#', '+']) {
            rule.subrange(0, p) + seq!['#', '@', '#'] + rule.subrange(p + 2, rule.len() as int)
        } else {
            seq!['@', '@'] + rule
        }
    }
}

/// Convert a filter rule into its exception form.
/// - Network rules (`||example.com^`) get `@@` prefix
/// - Cosmetic rules (`example.com##.ad`) get `##` replaced with `#@#`
/// - Rules already in exception form (`@@` in front, or `#@#` anywhere) are returned as-is
pub fn make_exception(rule: &str) -> (r: String)
    ensures
        r@ == spec_make_exception(rule@),
{
    let cs = chars_of(rule);
    let n = cs.len();
    if n >= 2 && cs[0] == '@' && cs[1] == '@' {
        assert(rule@.subrange(0, 2) =~= seq!['@', '@']);
        return owned(rule);
    }
    proof {
        if 2 <= n {
            assert(rule@.subrange(0, 2) != seq!['@', '@']) by {
                if cs@[0] != '@' {
                    assert(rule@.subrange(0, 2)[0] != '@');
                } else {
                    assert(rule@.subrange(0, 2)[1] != '@');
                }
            }
        }
    }
    let mut k: usize = 0;
    while n >= 3 && k <= n - 3
        invariant
            n == cs@.len(),
            cs@ == rule@,
            k <= n,
            forall|j: int| 0 <= j < k ==> !#[trigger] exception_mark_at(rule@, j),
            n >= 3 ==> k <= n - 2,
        decreases n - k,
    {
        if cs[k] == '#' && cs[k + 1] == '@' && cs[k + 2] == '#' {
            assert(exception_mark_at(rule@, k as int));
            return owned(rule);
        }
        k = k + 1;
    }
    assert(!is_exception_rule(rule@));
    let mut i: usize = 0;
    while i < n && i + 1 < n && !(cs[i] == '#' && cs[i + 1] == '#')
        invariant
            n == cs@.len(),
            cs@ == rule@,
            i <= n,
            forall|j: int| 0 <= j < i && j < n - 1 ==> !(#[trigger] cs@[j] == '#' && cs@[j + 1] == '#'),
        decreases n - i,
    {
        i = i + 1;
    }
    let found = i < n && i + 1 < n;
    let ghost p = if found { i as int } else { -1 };
    proof {
        if found {
            lemma_find_double_hash_at(rule@, i as int);
        } else {
            lemma_find_double_hash_at(rule@, if n == 0 { 0 } else { n as int });
        }
    }
    assert(find_double_hash(rule@) == p);
    if found {
        let scriptlet = n - i > 3 && cs[i + 2] == '#' && cs[i + 3] == '+';
        let ghost tail = rule@.subrange(i as int, n as int);
        proof {
            if scriptlet {
                assert(tail.subrange(0, 4) =~= seq!['#', '#', '#', '+']);
            } else if 4 <= tail.len() {
                assert(tail.subrange(0, 4) != seq!['#', '#', '#', '+']) by {
                    if cs@[i + 2] != '#' {
                        assert(tail.subrange(0, 4)[2] != '#');
                    } else {
                        assert(tail.subrange(0, 4)[3] != '+');
                    }
                }
            }
        }
        if !scriptlet {
            let mut out = string_from_chars(crate::text::sub_chars(cs.as_slice(), 0, i).as_slice());
            push_char(&mut out, '#');
            push_char(&mut out, '@');
            push_char(&mut out, '#');
            let rest = crate::text::sub_chars(cs.as_slice(), i + 2, n);
            push_str(&mut out, string_from_chars(rest.as_slice()).as_str());
            assert(out@ =~= rule@.subrange(0, i as int) + seq!['#', '@', '#'] + rule@.subrange(
                i + 2,
                n as int,
            ));
            return out;
        }
    }
    let mut out = String::new();
    push_char(&mut out, '@');
    push_char(&mut out, '@');
    push_str(&mut out, rule);
    assert(out@ =~= seq!['@', '@'] + rule@);
    out
}

} // verus!

verus! {

/// Whether a line holds a rule: something besides white space, not starting with `!`.
pub open spec fn is_rule_line(l: Seq<char>) -> bool {
    trim(l).len() > 0 && trim(l)[0] != '!'
}

/// The rule lines, in order.
pub open spec fn rule_lines(ls: Seq<Seq<char>>) -> Seq<Seq<char>>
    decreases ls.len(),
{
    if ls.len() == 0 {
        ls
    } else if is_rule_line(ls.last()) {
        rule_lines(ls.drop_last()).push(ls.last())
    } else {
        rule_lines(ls.drop_last())
    }
}

/// The filter rules of a rules file: its lines, without blank lines and `!` comments.
pub fn parse_rules(content: &str) -> (r: Vec<String>)
    ensures
        strings_model(r@) == rule_lines(lines(content@)),
{
    let cs = chars_of(content);
    let ls = split_lines(cs.as_slice());
    let ghost m = crate::text::vecs_model(ls@);
    let mut out: Vec<String> = Vec::new();
    for i in 0..ls.len()
        invariant
            m == crate::text::vecs_model(ls@),
            m == lines(content@),
            strings_model(out@) == rule_lines(m.subrange(0, i as int)),
    {
        proof {
            assert(m.subrange(0, i + 1).drop_last() =~= m.subrange(0, i as int));
            assert(m.subrange(0, i + 1).last() == ls@[i as int]@);
        }
        let t = trim_chars(ls[i].as_slice());
        if t.len() > 0 && t[0] != '!' {
            let ghost before = out@;
            out.push(string_from_chars(ls[i].as_slice()));
            assert(strings_model(out@) =~= strings_model(before).push(ls@[i as int]@));
        }
    }
    assert(m.subrange(0, m.len() as int) =~= m);
    out
}

/// Strings joined with line feeds.
pub fn join_strings(ls: &Vec<String>) -> (r: String)
    ensures
        r@ == join_lines(strings_model(ls@)),
{
    let ghost m = strings_model(ls@);
    let mut out = String::new();
    for i in 0..ls.len()
        invariant
            m == strings_model(ls@),
            out@ == join_lines(m.subrange(0, i as int)),
    {
        proof {
            let p = m.subrange(0, i + 1);
            assert(p.drop_last() =~= m.subrange(0, i as int));
            if i == 0 {
                assert(m.subrange(0, 0) =~= Seq::<Seq<char>>::empty());
            }
        }
        if i > 0 {
            push_char(&mut out, '\n');
        }
        push_str(&mut out, ls[i].as_str());
        assert(out@ =~= join_lines(m.subrange(0, i + 1)));
    }
    assert(m.subrange(0, m.len() as int) =~= m);
    out
}

/// The working filter lines: each excepted rule in its exception form, the others as they are.
pub open spec fn exception_lines(rules: Seq<Seq<char>>, excepted: Seq<usize>) -> Seq<Seq<char>> {
    Seq::new(
        rules.len(),
        |i: int|
            if excepted.contains(i as usize) {
                spec_make_exception(rules[i])
            } else {
                rules[i]
            },
    )
}

fn contains_index(v: &Vec<usize>, x: usize) -> (r: bool)
    ensures
        r == v@.contains(x),
{
    for i in 0..v.len()
        invariant
            forall|j: int| 0 <= j < i ==> v@[j] != x,
    {
        if v[i] == x {
            return true;
        }
    }
    false
}

/// The content of the working filter file: the rules with the excepted ones in exception form.
pub fn filters_with_exceptions(all_rules: &Vec<String>, excepted_indices: &Vec<usize>) -> (r: String)
    ensures
        r@ == join_lines(exception_lines(strings_model(all_rules@), excepted_indices@)),
{
    let ghost want = exception_lines(strings_model(all_rules@), excepted_indices@);
    let mut ls: Vec<String> = Vec::new();
    for i in 0..all_rules.len()
        invariant
            want == exception_lines(strings_model(all_rules@), excepted_indices@),
            strings_model(ls@) == want.subrange(0, i as int),
    {
        let line = if contains_index(excepted_indices, i) {
            make_exception(all_rules[i].as_str())
        } else {
            owned(all_rules[i].as_str())
        };
        assert(strings_model(all_rules@)[i as int] == all_rules@[i as int]@);
        assert(want[i as int] == line@);
        let ghost before = ls@;
        ls.push(line);
        assert(strings_model(ls@) =~= strings_model(before).push(line@));
        assert(strings_model(ls@) =~= want.subrange(0, i + 1));
    }
    assert(want.subrange(0, want.len() as int) =~= want);
    join_strings(&ls)
}

} // verus!

verus! {

/// The saved progress of a bisect session.
#[derive(Debug)]
pub struct BisectState {
    pub original_filters: String,
    pub channel: String,
    pub all_rules: Vec<String>,
    pub candidate_indices: Vec<usize>,
    pub step: u32,
}

/// The content of a bisect session.
pub struct BisectModel {
    pub original_filters: Seq<char>,
    pub channel: Seq<char>,
    pub all_rules: Seq<Seq<char>>,
    pub candidate_indices: Seq<usize>,
    pub step: u32,
}

impl BisectState {
    pub open spec fn model(self) -> BisectModel {
        BisectModel {
            original_filters: self.original_filters@,
            channel: self.channel@,
            all_rules: strings_model(self.all_rules@),
            candidate_indices: self.candidate_indices@,
            step: self.step,
        }
    }
}

impl BisectModel {
    /// Every candidate is the index of a rule.
    pub open spec fn wf(self) -> bool {
        forall|i: int| 0 <= i < self.candidate_indices.len() ==> (#[trigger] self.candidate_indices[i])
            < self.all_rules.len()
    }
}

/// The JSON document that saves a bisect session.
pub open spec fn spec_state_json(m: BisectModel) -> Json {
    Json::Object(
        seq![
            ("original_filters"@, Json::Str(m.original_filters)),
            ("channel"@, Json::Str(m.channel)),
            ("all_rules"@, Json::Array(Seq::new(m.all_rules.len(), |i: int| Json::Str(m.all_rules[i])))),
            (
                "candidate_indices"@,
                Json::Array(
                    Seq::new(
                        m.candidate_indices.len(),
                        |i: int| json_uint(m.candidate_indices[i] as u64),
                    ),
                ),
            ),
            ("step"@, Json::Int(m.step as i64)),
        ],
    )
}

/// Why a bisect state document is rejected.
pub enum StateProblem {
    Missing(Seq<char>),
    NonStringRule,
    NonIntegerIndex,
    OutOfRange(usize, usize),
}

/// Whether every item is a string.
pub open spec fn all_strings(items: Seq<Json>) -> bool {
    forall|i: int| 0 <= i < items.len() ==> #[trigger] items[i] is Str
}

/// Whether every item is an unsigned integer.
pub open spec fn all_u64(items: Seq<Json>) -> bool {
    forall|i: int| 0 <= i < items.len() ==> (#[trigger] items[i]).as_u64() is Some
}

/// Whether `k` is the first position of a candidate that is not below `n`.
pub open spec fn first_out_of_range_at(c: Seq<usize>, n: nat, k: int) -> bool {
    &&& 0 <= k < c.len()
    &&& c[k] >= n
    &&& forall|j: int| 0 <= j < k ==> #[trigger] c[j] < n
}

/// Whether every candidate is below `n`.
pub open spec fn all_in_range(c: Seq<usize>, n: nat) -> bool {
    forall|j: int| 0 <= j < c.len() ==> #[trigger] c[j] < n
}

/// The strings of an array of JSON strings.
pub open spec fn json_strings(items: Seq<Json>) -> Seq<Seq<char>> {
    items.map_values(|j: Json| j->Str_0)
}

/// The indices of an array of JSON unsigned integers.
pub open spec fn json_indices(items: Seq<Json>) -> Seq<usize> {
    items.map_values(|j: Json| j.as_u64()->0 as usize)
}

/// The session of a document whose fields all have the right types, or the first candidate
/// index that is out of range.
pub open spec fn checked_model(of: Seq<char>, ch: Seq<char>, rules: Seq<Seq<char>>, cands: Seq<usize>, st: u64) -> Result<BisectModel, StateProblem> {
    if all_in_range(cands, rules.len()) {
        Ok(
            BisectModel {
                original_filters: of,
                channel: ch,
                all_rules: rules,
                candidate_indices: cands,
                step: st as u32,
            },
        )
    } else {
        let k = choose|k: int| first_out_of_range_at(cands, rules.len(), k);
        Err(StateProblem::OutOfRange(cands[k], rules.len() as usize))
    }
}

/// A bisect session read back from its JSON document, or the first problem found: the fields
/// `original_filters`, `channel`, `all_rules`, `candidate_indices`, `step` in this order, then
/// each candidate index against the number of rules.
pub open spec fn spec_from_json(v: Json) -> Result<BisectModel, StateProblem> {
    match v.index("original_filters"@).as_str() {
        None => Err(StateProblem::Missing("original_filters"@)),
        Some(of) => match v.index("channel"@).as_str() {
            None => Err(StateProblem::Missing("channel"@)),
            Some(ch) => match v.index("all_rules"@) {
                Json::Array(rs) => if !all_strings(rs) {
                    Err(StateProblem::NonStringRule)
                } else {
                    match v.index("candidate_indices"@) {
                        Json::Array(cs) => if !all_u64(cs) {
                            Err(StateProblem::NonIntegerIndex)
                        } else {
                            match v.index("step"@).as_u64() {
                                None => Err(StateProblem::Missing("step"@)),
                                Some(st) => checked_model(of, ch, json_strings(rs), json_indices(cs), st),
                            }
                        },
                        _ => Err(StateProblem::Missing("candidate_indices"@)),
                    }
                },
                _ => Err(StateProblem::Missing("all_rules"@)),
            },
        },
    }
}

/// The error reported for a problem.
pub open spec fn reports(e: CliError, p: StateProblem) -> bool {
    match p {
        StateProblem::Missing(name) => e matches CliError::MissingStateField { name: n } && n@ == name,
        StateProblem::NonStringRule => e is NonStringRule,
        StateProblem::NonIntegerIndex => e is NonIntegerIndex,
        StateProblem::OutOfRange(i, n) => e == CliError::CandidateOutOfRange { index: i, len: n },
    }
}

/// The member `key` of `v`, or `null`.
fn index_or_null<'a>(v: &'a JsonValue, key: &str, null: &'a JsonValue) -> (r: &'a JsonValue)
    requires
        null@ == Json::Null,
    ensures
        r@ == v@.index(key@),
{
    match v.get(key) {
        Some(x) => x,
        None => null,
    }
}

/// The rules of a JSON array, or `NonStringRule`.
fn rules_from_items(items: &Vec<JsonValue>) -> (r: Result<Vec<String>, CliError>)
    ensures
        match r {
            Ok(v) => all_strings(JsonValue::model_items(items@)) && strings_model(v@) == json_strings(
                JsonValue::model_items(items@),
            ),
            Err(e) => !all_strings(JsonValue::model_items(items@)) && e is NonStringRule,
        },
{
    let ghost m = JsonValue::model_items(items@);
    proof {
        crate::json::lemma_model_items(items@);
    }
    let mut out: Vec<String> = Vec::new();
    for i in 0..items.len()
        invariant
            m == JsonValue::model_items(items@),
            m.len() == items@.len(),
            forall|j: int| 0 <= j < items@.len() ==> #[trigger] m[j] == items@[j]@,
            forall|j: int| 0 <= j < i ==> #[trigger] m[j] is Str,
            strings_model(out@) == json_strings(m.subrange(0, i as int)),
    {
        match items[i].as_str() {
            Some(s) => {
                let ghost before = out@;
                out.push(owned(s.as_str()));
                assert(strings_model(out@) =~= strings_model(before).push(s@));
                assert(m.subrange(0, i + 1) =~= m.subrange(0, i as int).push(Json::Str(s@)));
                assert(json_strings(m.subrange(0, i + 1)) =~= json_strings(m.subrange(0, i as int)).push(s@));
            },
            None => {
                assert(!(m[i as int] is Str));
                return Err(CliError::NonStringRule);
            },
        }
    }
    assert(m.subrange(0, m.len() as int) =~= m);
    Ok(out)
}

/// The indices of a JSON array, or `NonIntegerIndex`.
fn indices_from_items(items: &Vec<JsonValue>) -> (r: Result<Vec<usize>, CliError>)
    ensures
        match r {
            Ok(v) => all_u64(JsonValue::model_items(items@)) && v@ == json_indices(
                JsonValue::model_items(items@),
            ),
            Err(e) => !all_u64(JsonValue::model_items(items@)) && e is NonIntegerIndex,
        },
{
    let ghost m = JsonValue::model_items(items@);
    proof {
        crate::json::lemma_model_items(items@);
    }
    let mut out: Vec<usize> = Vec::new();
    for i in 0..items.len()
        invariant
            m == JsonValue::model_items(items@),
            m.len() == items@.len(),
            forall|j: int| 0 <= j < items@.len() ==> #[trigger] m[j] == items@[j]@,
            forall|j: int| 0 <= j < i ==> (#[trigger] m[j]).as_u64() is Some,
            out@ == json_indices(m.subrange(0, i as int)),
    {
        match items[i].as_u64() {
            Some(n) => {
                out.push(n as usize);
                assert(out@ =~= json_indices(m.subrange(0, i + 1)));
            },
            None => {
                assert(m[i as int].as_u64() is None);
                return Err(CliError::NonIntegerIndex);
            },
        }
    }
    assert(m.subrange(0, m.len() as int) =~= m);
    Ok(out)
}

/// The first candidate that is not the index of a rule, if any.
fn find_out_of_range(c: &Vec<usize>, n: usize) -> (r: Option<usize>)
    ensures
        match r {
            Some(k) => first_out_of_range_at(c@, n as nat, k as int),
            None => all_in_range(c@, n as nat),
        },
{
    for i in 0..c.len()
        invariant
            forall|j: int| 0 <= j < i ==> #[trigger] c@[j] < n,
    {
        if c[i] >= n {
            return Some(i);
        }
    }
    None
}

impl BisectState {
    /// The JSON document that saves this session.
    pub fn to_json(&self) -> (r: JsonValue)
        ensures
            r@ == spec_state_json(self.model()),
    {
        let ghost m = self.model();
        let mut rules: Vec<JsonValue> = Vec::new();
        for i in 0..self.all_rules.len()
            invariant
                JsonValue::model_items(rules@) == Seq::new(
                    i as nat,
                    |k: int| Json::Str(strings_model(self.all_rules@)[k]),
                ),
        {
            let ghost before = rules@;
            rules.push(JsonValue::Str(owned(self.all_rules[i].as_str())));
            proof {
                crate::json::lemma_model_items(rules@);
                crate::json::lemma_model_items(before);
                assert(strings_model(self.all_rules@)[i as int] == self.all_rules@[i as int]@);
                assert(JsonValue::model_items(rules@)[i as int] == Json::Str(strings_model(self.all_rules@)[i as int]));
                assert forall|k: int| 0 <= k < i implies JsonValue::model_items(rules@)[k] == Json::Str(strings_model(self.all_rules@)[k]) by {
                    assert(rules@[k] == before[k]);
                    assert(JsonValue::model_items(before)[k] == Seq::new(
                        i as nat,
                        |k: int| Json::Str(strings_model(self.all_rules@)[k]),
                    )[k]);
                }
            }
            assert(JsonValue::model_items(rules@) =~= Seq::new(
                (i + 1) as nat,
                |k: int| Json::Str(strings_model(self.all_rules@)[k]),
            ));
        }
        let mut cands: Vec<JsonValue> = Vec::new();
        for i in 0..self.candidate_indices.len()
            invariant
                JsonValue::model_items(cands@) == Seq::new(
                    i as nat,
                    |k: int| json_uint(self.candidate_indices@[k] as u64),
                ),
        {
            let ghost before = cands@;
            let n = self.candidate_indices[i] as u64;
            let item = uint_value(n);
            cands.push(item);
            proof {
                crate::json::lemma_model_items(cands@);
                crate::json::lemma_model_items(before);
                assert(item@ == json_uint(n));
                assert(JsonValue::model_items(cands@)[i as int] == json_uint(self.candidate_indices@[i as int] as u64));
                assert forall|k: int| 0 <= k < i implies JsonValue::model_items(cands@)[k] == json_uint(self.candidate_indices@[k] as u64) by {
                    assert(cands@[k] == before[k]);
                    assert(JsonValue::model_items(before)[k] == Seq::new(
                        i as nat,
                        |k: int| json_uint(self.candidate_indices@[k] as u64),
                    )[k]);
                }
            }
            assert(JsonValue::model_items(cands@) =~= Seq::new(
                (i + 1) as nat,
                |k: int| json_uint(self.candidate_indices@[k] as u64),
            ));
        }
        let mut members: Vec<(String, JsonValue)> = Vec::new();
        members.push((owned("original_filters"), JsonValue::Str(owned(self.original_filters.as_str()))));
        members.push((owned("channel"), JsonValue::Str(owned(self.channel.as_str()))));
        members.push((owned("all_rules"), JsonValue::Array(rules)));
        members.push((owned("candidate_indices"), JsonValue::Array(cands)));
        members.push((owned("step"), JsonValue::Int(self.step as i64)));
        let ghost want = match spec_state_json(m) {
            Json::Object(ms) => ms,
            _ => Seq::empty(),
        };
        proof {
            assert(want.len() == 5);
            assert(Seq::new(m.all_rules.len(), |k: int| Json::Str(m.all_rules[k])) =~= Seq::new(
                self.all_rules@.len(),
                |k: int| Json::Str(strings_model(self.all_rules@)[k]),
            ));
            crate::json::lemma_model_members_ext(members@, want);
        }
        JsonValue::Object(members)
    }

    /// Read a session back from its JSON document.
    pub fn from_json(v: &JsonValue) -> (r: Result<BisectState, CliError>)
        ensures
            match r {
                Ok(s) => spec_from_json(v@) == Ok::<BisectModel, StateProblem>(s.model()),
                Err(e) => spec_from_json(v@) matches Err(p) && reports(e, p),
            },
    {
        let null = JsonValue::Null;
        let original_filters = match index_or_null(v, "original_filters", &null).as_str() {
            Some(s) => owned(s.as_str()),
            None => return Err(CliError::MissingStateField { name: owned("original_filters") }),
        };
        let channel = match index_or_null(v, "channel", &null).as_str() {
            Some(s) => owned(s.as_str()),
            None => return Err(CliError::MissingStateField { name: owned("channel") }),
        };
        let all_rules = match index_or_null(v, "all_rules", &null).as_array() {
            Some(items) => rules_from_items(items)?,
            None => return Err(CliError::MissingStateField { name: owned("all_rules") }),
        };
        let candidate_indices = match index_or_null(v, "candidate_indices", &null).as_array() {
            Some(items) => indices_from_items(items)?,
            None => return Err(CliError::MissingStateField { name: owned("candidate_indices") }),
        };
        let step = match index_or_null(v, "step", &null).as_u64() {
            Some(n) => n as u32,
            None => return Err(CliError::MissingStateField { name: owned("step") }),
        };
        if let Some(k) = find_out_of_range(&candidate_indices, all_rules.len()) {
            proof {
                let n = strings_model(all_rules@).len();
                let k2 = choose|k2: int| first_out_of_range_at(candidate_indices@, n, k2);
                assert(first_out_of_range_at(candidate_indices@, n, k as int));
                if k2 < k {
                    assert(candidate_indices@[k2] < n);
                } else if k < k2 {
                    assert(candidate_indices@[k as int] < n);
                }
            }
            return Err(CliError::CandidateOutOfRange { index: candidate_indices[k], len: all_rules.len() });
        }
        Ok(BisectState { original_filters, channel, all_rules, candidate_indices, step })
    }
}

/// Saving a well-formed session and reading the document back gives the same session.
pub proof fn lemma_state_roundtrip(m: BisectModel)
    requires
        m.wf(),
    ensures
        spec_from_json(spec_state_json(m)) == Ok::<BisectModel, StateProblem>(m),
{
    reveal_strlit("original_filters");
    reveal_strlit("channel");
    reveal_strlit("all_rules");
    reveal_strlit("candidate_indices");
    reveal_strlit("step");
    let v = spec_state_json(m);
    let ms = match v {
        Json::Object(ms) => ms,
        _ => Seq::empty(),
    };
    assert(ms[0].0.len() == 16 && ms[1].0.len() == 7 && ms[2].0.len() == 9 && ms[3].0.len() == 17);
    crate::json::lemma_member_index_at(ms, "original_filters"@, 0);
    crate::json::lemma_member_index_at(ms, "channel"@, 1);
    crate::json::lemma_member_index_at(ms, "all_rules"@, 2);
    crate::json::lemma_member_index_at(ms, "candidate_indices"@, 3);
    crate::json::lemma_member_index_at(ms, "step"@, 4);
    let rs = Seq::new(m.all_rules.len(), |i: int| Json::Str(m.all_rules[i]));
    let cs = Seq::new(
        m.candidate_indices.len(),
        |i: int| json_uint(m.candidate_indices[i] as u64),
    );
    assert(v.index("all_rules"@) == Json::Array(rs));
    assert(v.index("candidate_indices"@) == Json::Array(cs));
    assert(all_strings(rs));
    assert forall|i: int| 0 <= i < cs.len() implies (#[trigger] cs[i]).as_u64() == Some(
        m.candidate_indices[i] as u64,
    ) by {}
    assert(all_u64(cs));
    assert(json_strings(rs) =~= m.all_rules);
    assert(json_indices(cs) =~= m.candidate_indices);
    assert(v.index("step"@).as_u64() == Some(m.step as u64));
}

} // verus!

verus! {

/// The number of halvings that bring `n` candidates down to one: `ceil(log2(n))`,
/// and one step when there is at most one candidate.
pub open spec fn spec_estimated_steps(n: nat) -> nat {
    if n <= 1 {
        1
    } else {
        choose|k: nat| k >= 1 && #[trigger] pow2(k) >= n && pow2((k - 1) as nat) < n
    }
}

/// The estimated number of bisect steps for `n` candidates.
pub fn estimated_steps(n: usize) -> (r: u32)
    ensures
        r == spec_estimated_steps(n as nat),
        n > 1 ==> pow2(r as nat) >= n && pow2((r - 1) as nat) < n,
{
    if n <= 1 {
        return 1;
    }
    let mut k: u32 = 0;
    let mut p: u128 = 1;
    proof {
        lemma2_to64();
    }
    while p < n as u128
        invariant
            p == pow2(k as nat),
            k == 0 || pow2((k - 1) as nat) < n,
            n > 1,
            k <= 64,
            n <= usize::MAX,
        decreases 64 - k,
    {
        proof {
            lemma_pow2_unfold((k + 1) as nat);
            if k >= 64 {
                lemma2_to64_rest();
                assert(k == 64);
            }
        }
        p = p * 2;
        k = k + 1;
    }
    proof {
        let w = choose|w: nat| w >= 1 && #[trigger] pow2(w) >= n && pow2((w - 1) as nat) < n;
        assert(k >= 1 && pow2(k as nat) >= n && pow2((k - 1) as nat) < n);
        if w < k {
            if w < k - 1 {
                lemma_pow2_strictly_increases(w, (k - 1) as nat);
            }
        } else if k < w {
            if k < w - 1 {
                lemma_pow2_strictly_increases(k as nat, (w - 1) as nat);
            }
        }
    }
    k
}

/// An answer to a bisect prompt.
#[derive(PartialEq, Eq, Structural, Clone, Copy, Debug)]
pub enum Answer {
    Yes,
    No,
    Quit,
}

/// A character in lower case, for ASCII letters.
pub open spec fn lower_char(c: char) -> char {
    if 'A' <= c && c <= 'Z' {
        ((c as u8) + 32) as u8 as char
    } else {
        c
    }
}

/// The text in lower case, for ASCII letters.
pub open spec fn ascii_lower(s: Seq<char>) -> Seq<char> {
    s.map_values(|c: char| lower_char(c))
}

/// The answer a typed line gives: `y`/`yes`, `n`/`no` or `q`/`quit`, around white space
/// and in any case; nothing for any other line.
pub open spec fn spec_parse_answer(line: Seq<char>) -> Option<Answer> {
    let w = ascii_lower(trim(line));
    if w == seq!['y'] || w == seq!['y', 'e', 's'] {
        Some(Answer::Yes)
    } else if w == seq!['n'] || w == seq!['n', 'o'] {
        Some(Answer::No)
    } else if w == seq!['q'] || w == seq!['q', 'u', 'i', 't'] {
        Some(Answer::Quit)
    } else {
        None
    }
}

fn lower(c: char) -> (r: char)
    ensures
        r == lower_char(c),
{
    if 'A' <= c && c <= 'Z' {
        ((c as u8) + 32) as char
    } else {
        c
    }
}

fn is_word(w: &Vec<char>, target: &[char]) -> (r: bool)
    ensures
        r == (w@ == target@),
{
    crate::text::chars_eq(w.as_slice(), target)
}

/// Read an answer from a typed line.
pub fn parse_answer(line: &str) -> (r: Option<Answer>)
    ensures
        r == spec_parse_answer(line@),
{
    let cs = chars_of(line);
    let t = trim_chars(cs.as_slice());
    let mut w: Vec<char> = Vec::new();
    for i in 0..t.len()
        invariant
            w@ == ascii_lower(t@.subrange(0, i as int)),
    {
        w.push(lower(t[i]));
        assert(w@ =~= ascii_lower(t@.subrange(0, i + 1)));
    }
    assert(t@.subrange(0, t@.len() as int) =~= t@);
    let y = ['y'];
    let yes = ['y', 'e', 's'];
    let n = ['n'];
    let no = ['n', 'o'];
    let q = ['q'];
    let quit = ['q', 'u', 'i', 't'];
    assert(y@ =~= seq!['y']);
    assert(yes@ =~= seq!['y', 'e', 's']);
    assert(n@ =~= seq!['n']);
    assert(no@ =~= seq!['n', 'o']);
    assert(q@ =~= seq!['q']);
    assert(quit@ =~= seq!['q', 'u', 'i', 't']);
    if is_word(&w, &y) || is_word(&w, &yes) {
        Some(Answer::Yes)
    } else if is_word(&w, &n) || is_word(&w, &no) {
        Some(Answer::No)
    } else if is_word(&w, &q) || is_word(&w, &quit) {
        Some(Answer::Quit)
    } else {
        None
    }
}

/// The candidates a step excepts: the first half (the smaller one when the count is odd).
pub open spec fn first_half(c: Seq<usize>) -> Seq<usize> {
    c.subrange(0, (c.len() / 2) as int)
}

/// The candidates a step keeps active: the second half.
pub open spec fn second_half(c: Seq<usize>) -> Seq<usize> {
    c.subrange((c.len() / 2) as int, c.len() as int)
}

/// The candidates left after an answer: the active half when the issue is still present,
/// the excepted half when it is gone.
pub open spec fn narrowed(c: Seq<usize>, present: bool) -> Seq<usize> {
    if present {
        second_half(c)
    } else {
        first_half(c)
    }
}

/// Split the candidates in two halves at `len / 2`.
pub fn split_candidates(c: &Vec<usize>) -> (r: (Vec<usize>, Vec<usize>))
    ensures
        r.0@ == first_half(c@),
        r.1@ == second_half(c@),
{
    let mid = c.len() / 2;
    let mut first: Vec<usize> = Vec::new();
    let mut second: Vec<usize> = Vec::new();
    for i in 0..c.len()
        invariant
            mid == c@.len() / 2,
            i <= mid ==> first@ == c@.subrange(0, i as int) && second@.len() == 0,
            i > mid ==> first@ == c@.subrange(0, mid as int) && second@ == c@.subrange(mid as int, i as int),
    {
        if i < mid {
            first.push(c[i]);
            assert(first@ =~= c@.subrange(0, i + 1));
        } else {
            second.push(c[i]);
            assert(second@ =~= c@.subrange(mid as int, i + 1));
        }
    }
    proof {
        if c@.len() <= mid {
            assert(second@ =~= c@.subrange(mid as int, c@.len() as int));
        }
    }
    (first, second)
}

/// The indices `0..n`.
pub open spec fn all_indices(n: nat) -> Seq<usize> {
    Seq::new(n, |i: int| i as usize)
}

/// A rules file must hold at least one rule.
pub fn require_rules(rules: &Vec<String>, rules_path: &str) -> (r: Result<(), CliError>)
    ensures
        match r {
            Ok(()) => rules@.len() > 0,
            Err(e) => rules@.len() == 0 && (e matches CliError::NoRules { path } && path@ == rules_path@),
        },
{
    if rules.len() == 0 {
        Err(CliError::NoRules { path: owned(rules_path) })
    } else {
        Ok(())
    }
}

/// A new session over `rules`: every rule a candidate, the current custom filters kept
/// to be restored at the end.
pub fn new_session(rules: Vec<String>, local_state: &JsonValue, channel: Channel) -> (r: BisectState)
    requires
        rules@.len() > 0,
    ensures
        r.model() == (BisectModel {
            original_filters: spec_custom_filters_text(local_state@),
            channel: spec_channel_to_str(channel),
            all_rules: strings_model(rules@),
            candidate_indices: all_indices(rules@.len()),
            step: 0,
        }),
        r.model().wf(),
        r.candidate_indices@.len() >= 1,
{
    let text = custom_filters_text(local_state);
    let mut cands: Vec<usize> = Vec::new();
    for i in 0..rules.len()
        invariant
            cands@ == all_indices(i as nat),
    {
        cands.push(i);
        assert(cands@ =~= all_indices((i + 1) as nat));
    }
    let r = BisectState {
        original_filters: string_from_chars(text.as_slice()),
        channel: owned(channel_to_str(channel)),
        all_rules: rules,
        candidate_indices: cands,
        step: 0,
    };
    assert(r.model().candidate_indices =~= all_indices(r.model().all_rules.len()));
    r
}

/// Checks on a resumed session: its channel is the current one and candidates are left.
pub fn check_resume(state: &BisectState, channel: Channel) -> (r: Result<(), CliError>)
    ensures
        match r {
            Ok(()) => spec_channel_from_str(state.channel@) == Some(channel)
                && state.candidate_indices@.len() > 0,
            Err(e) => match spec_channel_from_str(state.channel@) {
                None => e matches CliError::UnknownChannel { name } && name@ == state.channel@,
                Some(c) => if c != channel {
                    e matches CliError::ChannelMismatch { saved, current } && saved@ == state.channel@
                        && current@ == spec_channel_to_str(channel)
                } else {
                    state.candidate_indices@.len() == 0 && e is NoCandidates
                },
            },
        },
{
    let saved = channel_from_str(state.channel.as_str())?;
    if saved != channel {
        return Err(
            CliError::ChannelMismatch {
                saved: owned(state.channel.as_str()),
                current: owned(channel_to_str(channel)),
            },
        );
    }
    if state.candidate_indices.len() == 0 {
        return Err(CliError::NoCandidates);
    }
    Ok(())
}

/// What the bisect loop does next.
#[derive(Debug)]
pub enum BisectAction {
    /// Load the rules, those at `excepted` in exception form, and ask whether the issue is present.
    Ask { excepted: Vec<usize> },
    /// The rule behind the issue has been found.
    Found { rule: String },
    /// The issue is absent with every rule loaded: there is nothing to bisect.
    NothingToBisect,
    /// Stop; the saved state lets the session resume.
    Suspend,
}

/// The content of a bisect action.
pub enum ActionModel {
    Ask(Seq<usize>),
    Found(Seq<char>),
    NothingToBisect,
    Suspend,
}

impl BisectAction {
    pub open spec fn model(self) -> ActionModel {
        match self {
            BisectAction::Ask { excepted } => ActionModel::Ask(excepted@),
            BisectAction::Found { rule } => ActionModel::Found(rule@),
            BisectAction::NothingToBisect => ActionModel::NothingToBisect,
            BisectAction::Suspend => ActionModel::Suspend,
        }
    }
}

/// The next action, and the state document to save before it is carried out, if any.
pub struct Transition {
    pub action: BisectAction,
    pub save: Option<JsonValue>,
}

/// The document of a session to save, if one is to be saved.
pub open spec fn saved_doc(s: Option<BisectModel>) -> Option<Json> {
    match s {
        Some(m) => Some(spec_state_json(m)),
        None => None,
    }
}

impl Transition {
    /// The saved document of a transition.
    pub open spec fn save_model(self) -> Option<Json> {
        match self.save {
            Some(j) => Some(j@),
            None => None,
        }
    }
}

impl BisectModel {
    /// A session the loop can run: well formed, with a candidate left.
    pub open spec fn runnable(self) -> bool {
        self.wf() && self.candidate_indices.len() >= 1 && self.step < u32::MAX
    }

    pub open spec fn with_candidates(self, c: Seq<usize>) -> BisectModel {
        BisectModel { candidate_indices: c, ..self }
    }

    pub open spec fn with_step(self, step: u32) -> BisectModel {
        BisectModel { step, ..self }
    }
}

/// After the candidates are settled: report the last candidate's rule, or stop (saving the
/// session as it stands) when interrupted, or start the next step, excepting the first half.
/// `save` is what was to be saved already.
pub open spec fn spec_advance(m: BisectModel, interrupted: bool, save: Option<BisectModel>) -> (
    BisectModel,
    ActionModel,
    Option<BisectModel>,
) {
    if m.candidate_indices.len() == 1 {
        (m, ActionModel::Found(m.all_rules[m.candidate_indices[0] as int]), save)
    } else if interrupted {
        (m, ActionModel::Suspend, Some(m))
    } else {
        (m.with_step((m.step + 1) as u32), ActionModel::Ask(first_half(m.candidate_indices)), save)
    }
}

/// Entering the loop: a session that has made no step first confirms the issue with every
/// rule loaded.
pub open spec fn spec_begin(m: BisectModel, interrupted: bool) -> (BisectModel, ActionModel, Option<BisectModel>) {
    if m.step == 0 {
        (m, ActionModel::Ask(Seq::empty()), None)
    } else {
        spec_advance(m, interrupted, None)
    }
}

/// An answer to the last question. While confirming (no step made), `no` ends the session;
/// during a step, `yes` keeps the active half and `no` the excepted half, and the session is
/// saved as answered, at the step just asked, before the next step begins. `quit` saves the
/// session as it stands.
pub open spec fn spec_on_answer(m: BisectModel, answer: Answer, interrupted: bool) -> (
    BisectModel,
    ActionModel,
    Option<BisectModel>,
) {
    match answer {
        Answer::Quit => (m, ActionModel::Suspend, Some(m)),
        Answer::Yes => if m.step == 0 {
            spec_advance(m, interrupted, None)
        } else {
            let m2 = m.with_candidates(narrowed(m.candidate_indices, true));
            spec_advance(m2, interrupted, Some(m2))
        },
        Answer::No => if m.step == 0 {
            (m, ActionModel::NothingToBisect, None)
        } else {
            let m2 = m.with_candidates(narrowed(m.candidate_indices, false));
            spec_advance(m2, interrupted, Some(m2))
        },
    }
}

fn advance(state: &mut BisectState, interrupted: bool, save: Option<JsonValue>, Ghost(saved): Ghost<Option<BisectModel>>) -> (t: Transition)
    requires
        old(state).model().runnable(),
        match save {
            Some(j) => saved matches Some(sm) && j@ == spec_state_json(sm),
            None => saved is None,
        },
    ensures
        (final(state).model(), t.action.model()) == (
            spec_advance(old(state).model(), interrupted, saved).0,
            spec_advance(old(state).model(), interrupted, saved).1,
        ),
        t.save_model() == saved_doc(spec_advance(old(state).model(), interrupted, saved).2),
{
    if state.candidate_indices.len() == 1 {
        let k = state.candidate_indices[0];
        assert(strings_model(state.all_rules@)[k as int] == state.all_rules@[k as int]@);
        let rule = owned(state.all_rules[k].as_str());
        Transition { action: BisectAction::Found { rule }, save }
    } else if interrupted {
        Transition { action: BisectAction::Suspend, save: Some(state.to_json()) }
    } else {
        state.step = state.step + 1;
        let (first, _second) = split_candidates(&state.candidate_indices);
        Transition { action: BisectAction::Ask { excepted: first }, save }
    }
}

/// Enter the bisect loop.
pub fn begin(state: &mut BisectState, interrupted: bool) -> (t: Transition)
    requires
        old(state).model().runnable(),
    ensures
        (final(state).model(), t.action.model()) == (
            spec_begin(old(state).model(), interrupted).0,
            spec_begin(old(state).model(), interrupted).1,
        ),
        t.save_model() == saved_doc(spec_begin(old(state).model(), interrupted).2),
{
    if state.step == 0 {
        Transition { action: BisectAction::Ask { excepted: Vec::new() }, save: None }
    } else {
        advance(state, interrupted, None, Ghost(None))
    }
}

/// Take an answer to the last question.
pub fn on_answer(state: &mut BisectState, answer: Answer, interrupted: bool) -> (t: Transition)
    requires
        old(state).model().runnable(),
        old(state).step > 0 ==> old(state).candidate_indices@.len() >= 2,
    ensures
        (final(state).model(), t.action.model()) == (
            spec_on_answer(old(state).model(), answer, interrupted).0,
            spec_on_answer(old(state).model(), answer, interrupted).1,
        ),
        t.save_model() == saved_doc(spec_on_answer(old(state).model(), answer, interrupted).2),
{
    match answer {
        Answer::Quit => Transition { action: BisectAction::Suspend, save: Some(state.to_json()) },
        Answer::Yes => {
            if state.step == 0 {
                advance(state, interrupted, None, Ghost(None))
            } else {
                let (_first, second) = split_candidates(&state.candidate_indices);
                proof {
                    lemma_halves_runnable(state.model());
                }
                state.candidate_indices = second;
                let doc = state.to_json();
                let ghost m2 = state.model();
                advance(state, interrupted, Some(doc), Ghost(Some(m2)))
            }
        },
        Answer::No => {
            if state.step == 0 {
                Transition { action: BisectAction::NothingToBisect, save: None }
            } else {
                let (first, _second) = split_candidates(&state.candidate_indices);
                proof {
                    lemma_halves_runnable(state.model());
                }
                state.candidate_indices = first;
                let doc = state.to_json();
                let ghost m2 = state.model();
                advance(state, interrupted, Some(doc), Ghost(Some(m2)))
            }
        },
    }
}

/// Both halves of a runnable session's candidates still make a runnable session
/// (the first half only when there are at least two candidates).
pub proof fn lemma_halves_runnable(m: BisectModel)
    requires
        m.runnable(),
    ensures
        m.with_candidates(second_half(m.candidate_indices)).runnable(),
        m.candidate_indices.len() >= 2 ==> m.with_candidates(first_half(m.candidate_indices)).runnable(),
{
    let c = m.candidate_indices;
    assert forall|i: int| 0 <= i < second_half(c).len() implies #[trigger] second_half(c)[i] < m.all_rules.len() by {
        assert(second_half(c)[i] == c[i + c.len() / 2]);
    }
    assert forall|i: int| 0 <= i < first_half(c).len() implies #[trigger] first_half(c)[i] < m.all_rules.len() by {
        assert(first_half(c)[i] == c[i]);
    }
}

/// The answer of a user who reports truthfully whether the issue is present, when the issue
/// comes from the rule at index `culprit`: present with every rule loaded, and during a step
/// present exactly when the culprit is not among the excepted rules.
pub open spec fn truthful_answer(m: BisectModel, culprit: usize) -> Answer {
    if m.step == 0 || !first_half(m.candidate_indices).contains(culprit) {
        Answer::Yes
    } else {
        Answer::No
    }
}

/// A session waiting for an answer: well formed, and during a step with at least two candidates.
pub open spec fn awaiting_answer(m: BisectModel) -> bool {
    m.runnable() && (m.step > 0 ==> m.candidate_indices.len() >= 2)
}

/// Bisection finds the culprit: with truthful answers the culprit stays a candidate, every
/// step leaves fewer candidates, the session never ends with "nothing to bisect", and the
/// rule it reports is the culprit's.
pub proof fn lemma_bisect_keeps_culprit(m: BisectModel, culprit: usize, interrupted: bool)
    requires
        awaiting_answer(m),
        m.candidate_indices.contains(culprit),
    ensures
        ({
            let (m2, a, _) = spec_on_answer(m, truthful_answer(m, culprit), interrupted);
            &&& m2.candidate_indices.contains(culprit)
            &&& !(a is NothingToBisect)
            &&& (a matches ActionModel::Found(rule) ==> rule == m.all_rules[culprit as int])
            &&& (m.step > 0 ==> m2.candidate_indices.len() < m.candidate_indices.len())
        }),
{
    let c = m.candidate_indices;
    let k = choose|k: int| 0 <= k < c.len() && c[k] == culprit;
    let h = c.len() / 2;
    if m.step > 0 {
        if first_half(c).contains(culprit) {
            let n2 = first_half(c);
            assert(n2.len() == 1 ==> n2[0] == culprit);
        } else {
            assert(k >= h) by {
                if k < h {
                    assert(first_half(c)[k] == culprit);
                }
            }
            let n2 = second_half(c);
            assert(n2[k - h] == culprit);
            assert(n2.len() == 1 ==> n2[0] == culprit);
        }
    } else {
        assert(c.len() == 1 ==> c[0] == culprit);
    }
}

/// Each step at least halves the candidates: at most `2^k` candidates before a step leave
/// at most `2^(k-1)` after it, whatever the answer.
pub proof fn lemma_step_halves(m: BisectModel, answer: Answer, interrupted: bool, k: nat)
    requires
        awaiting_answer(m),
        m.step > 0,
        answer != Answer::Quit,
        k >= 1,
        m.candidate_indices.len() <= pow2(k),
    ensures
        spec_on_answer(m, answer, interrupted).0.candidate_indices.len() <= pow2((k - 1) as nat),
{
    lemma_pow2_unfold(k);
}

/// Every question the loop asks leaves a session that can take its answer.
pub proof fn lemma_asks_await_answer(m: BisectModel, answer: Answer, interrupted: bool)
    requires
        awaiting_answer(m),
    ensures
        spec_begin(m, interrupted).1 is Ask && spec_begin(m, interrupted).0.step < u32::MAX
            ==> awaiting_answer(spec_begin(m, interrupted).0),
        spec_on_answer(m, answer, interrupted).1 is Ask && spec_on_answer(m, answer, interrupted).0.step
            < u32::MAX ==> awaiting_answer(spec_on_answer(m, answer, interrupted).0),
{
    lemma_halves_runnable(m);
}

} // verus!

verus! {

/// No step of a session changes what it restores or bisects: the original filters, the
/// channel and the loaded rules stay as the session began, whatever the answers.
pub proof fn lemma_session_keeps_original(m: BisectModel, answer: Answer, interrupted: bool)
    ensures
        spec_begin(m, interrupted).0.original_filters == m.original_filters,
        spec_begin(m, interrupted).0.channel == m.channel,
        spec_begin(m, interrupted).0.all_rules == m.all_rules,
        spec_on_answer(m, answer, interrupted).0.original_filters == m.original_filters,
        spec_on_answer(m, answer, interrupted).0.channel == m.channel,
        spec_on_answer(m, answer, interrupted).0.all_rules == m.all_rules,
{
}

} // verus!

verus! {

/// What a transition saves is the session at the step last asked, never one step ahead:
/// after an answer the saved session has the candidates left by that answer and the step of
/// the question, so a resumed session asks the next step next.
pub proof fn lemma_saves_answered_step(m: BisectModel, answer: Answer, interrupted: bool)
    requires
        awaiting_answer(m),
    ensures
        spec_on_answer(m, answer, interrupted).2 matches Some(sm) ==> sm.step == m.step,
        spec_begin(m, interrupted).2 matches Some(sm) ==> sm == m,
        m.step > 0 && answer != Answer::Quit ==> spec_on_answer(m, answer, interrupted).2 == Some(
            m.with_candidates(narrowed(m.candidate_indices, answer == Answer::Yes)),
        ),
{
}

} // verus!

verus! {

/// Rules already in exception form are returned as they are, and what `make_exception` gives
/// is in exception form: converting twice is converting once.
pub proof fn lemma_make_exception_idempotent(rule: Seq<char>)
    ensures
        is_exception_rule(rule) ==> spec_make_exception(rule) == rule,
        is_exception_rule(spec_make_exception(rule)),
        spec_make_exception(spec_make_exception(rule)) == spec_make_exception(rule),
{
    if !is_exception_rule(rule) {
        let p = find_double_hash(rule);
        lemma_find_double_hash(rule);
        let r = spec_make_exception(rule);
        if p >= 0 && !starts_with(rule.subrange(p, rule.len() as int), seq!['#', '#', '#', '+']) {
            assert(r[p] == '#' && r[p + 1] == '@' && r[p + 2] == '#');
            assert(exception_mark_at(r, p));
        } else {
            assert(r.subrange(0, 2) =~= seq!['@', '@']);
        }
    }
}

} // verus!

verus! {

/// The rule that a session reports when every step question, starting from the pending one, is
/// answered truthfully for the rule at `culprit`, if it reports one within `k` step questions.
pub open spec fn truthful_steps(m: BisectModel, culprit: usize, k: nat) -> Option<Seq<char>>
    decreases k,
{
    if k == 0 {
        None
    } else {
        let (m2, a, _) = spec_on_answer(m, truthful_answer(m, culprit), false);
        match a {
            ActionModel::Found(r) => Some(r),
            ActionModel::Ask(_) => truthful_steps(m2, culprit, (k - 1) as nat),
            _ => None,
        }
    }
}

/// The rule that a whole session reports when the confirming question and then every step
/// question are answered truthfully for the rule at `culprit`, if it reports one within `k`
/// step questions.
pub open spec fn truthful_session(m: BisectModel, culprit: usize, k: nat) -> Option<Seq<char>> {
    let (m1, a1, _) = spec_on_answer(m, truthful_answer(m, culprit), false);
    match a1 {
        ActionModel::Found(r) => Some(r),
        ActionModel::Ask(_) => truthful_steps(m1, culprit, k),
        _ => None,
    }
}

proof fn lemma_truthful_steps(m: BisectModel, culprit: usize, k: nat)
    requires
        awaiting_answer(m),
        m.step > 0,
        m.candidate_indices.contains(culprit),
        m.candidate_indices.len() <= pow2(k),
        m.step + k <= u32::MAX,
    ensures
        truthful_steps(m, culprit, k) == Some(m.all_rules[culprit as int]),
    decreases k,
{
    lemma2_to64();
    assert(k >= 1);
    let ans = truthful_answer(m, culprit);
    lemma_bisect_keeps_culprit(m, culprit, false);
    lemma_step_halves(m, ans, false, k);
    lemma_asks_await_answer(m, ans, false);
    let (m2, a, _) = spec_on_answer(m, ans, false);
    match a {
        ActionModel::Ask(_) => {
            assert(m2.candidate_indices.len() >= 2);
            assert(k >= 2) by {
                if k == 1 {
                    assert(pow2(0) == 1);
                }
            }
            lemma_truthful_steps(m2, culprit, (k - 1) as nat);
        },
        _ => {},
    }
}

/// Bisection finds the culprit in one session: a session that has made no step first asks to
/// confirm the issue with every rule loaded; when that question and every step question are
/// answered truthfully for the rule at `culprit`, the session reports that rule after at most
/// `k` step questions, for any `k` with `n <= 2^k` candidates (for `n > 1`, `estimated_steps(n)`,
/// `ceil(log2 n)`, is the least such `k`; one candidate is reported with no step question).
pub proof fn lemma_session_finds_culprit(m: BisectModel, culprit: usize, k: nat)
    requires
        m.runnable(),
        m.step == 0,
        m.candidate_indices.contains(culprit),
        m.candidate_indices.len() <= pow2(k),
        k < u32::MAX,
    ensures
        spec_begin(m, false) == (m, ActionModel::Ask(Seq::empty()), None::<BisectModel>),
        truthful_session(m, culprit, k) == Some(m.all_rules[culprit as int]),
        m.candidate_indices.len() == 1 ==> truthful_session(m, culprit, 0) == Some(
            m.all_rules[culprit as int],
        ),
{
    let c = m.candidate_indices;
    let i = choose|i: int| 0 <= i < c.len() && c[i] == culprit;
    if c.len() == 1 {
        assert(c[0] == culprit);
    } else {
        let m1 = m.with_step(1);
        assert(awaiting_answer(m1));
        lemma_truthful_steps(m1, culprit, k);
    }
}

} // verus!

verus! {

/// One step of the bisect loop: with candidates `C` (at least two) and `m = |C| / 2`, the
/// question excepts exactly `C[..m]`; `yes` keeps `C[m..]`, `no` keeps `C[..m]`, `quit` keeps
/// `C` and suspends. After `yes` or `no` the candidates are fewer, none empty and all in range;
/// the rule is reported once one is left, and otherwise the next step excepts the first half
/// of what is left.
pub proof fn lemma_loop_step(m: BisectModel, answer: Answer)
    requires
        awaiting_answer(m),
        m.step > 0,
    ensures
        ({
            let c = m.candidate_indices;
            let (m2, a, _) = spec_on_answer(m, answer, false);
            &&& answer == Answer::Quit ==> m2 == m && a is Suspend
            &&& answer == Answer::Yes ==> m2.candidate_indices == c.subrange((c.len() / 2) as int, c.len() as int)
            &&& answer == Answer::No ==> m2.candidate_indices == c.subrange(0, (c.len() / 2) as int)
            &&& answer != Answer::Quit ==> {
                &&& m2.wf()
                &&& 1 <= m2.candidate_indices.len() < c.len()
                &&& m2.candidate_indices.len() == 1 ==> a == ActionModel::Found(
                    m.all_rules[m2.candidate_indices[0] as int],
                )
                &&& m2.candidate_indices.len() > 1 ==> a == ActionModel::Ask(
                    first_half(m2.candidate_indices),
                ) && m2.step == m.step + 1
            }
        }),
{
    lemma_halves_runnable(m);
}

} // verus!

verus! {

/// The exception form of a rule that is not an exception yet (no `@@` in front, no `#@#` in
/// it): with a first `##` at `p` whose tail does not start with `###+` (a scriptlet such as
/// `##+js(..)` included), that `##` becomes `#@#` and the rest stays; with no `##`, or a
/// first `##` starting `###+`, `@@` goes in front.
pub proof fn lemma_make_exception_forms(rule: Seq<char>, p: int)
    requires
        !(rule.len() >= 2 && rule[0] == '@' && rule[1] == '@'),
        forall|i: int| 0 <= i && i + 2 < rule.len() ==> !(rule[i] == '#' && rule[i + 1] == '@' && #[trigger] rule[i + 2] == '#'),
        -1 <= p < rule.len() - 1,
        p >= 0 ==> rule[p] == '#' && rule[p + 1] == '#',
        forall|j: int| 0 <= j < rule.len() - 1 && (p < 0 || j < p) ==> !(#[trigger] rule[j] == '#' && rule[j + 1] == '#'),
    ensures
        p >= 0 && !(p + 3 < rule.len() && rule[p + 2] == '#' && rule[p + 3] == '+') ==> spec_make_exception(rule)
            == rule.subrange(0, p) + seq!['#', '@', '#'] + rule.subrange(p + 2, rule.len() as int),
        p < 0 || (p + 3 < rule.len() && rule[p + 2] == '#' && rule[p + 3] == '+') ==> spec_make_exception(rule)
            == seq!['@', '@'] + rule,
{
    assert(!starts_with(rule, seq!['@', '@'])) by {
        if starts_with(rule, seq!['@', '@']) {
            assert(rule.subrange(0, 2)[0] == '@' && rule.subrange(0, 2)[1] == '@');
        }
    }
    assert(!is_exception_rule(rule)) by {
        if exists|i: int| #[trigger] exception_mark_at(rule, i) {
            let i = choose|i: int| #[trigger] exception_mark_at(rule, i);
            assert(rule[i + 2] == '#');
        }
    }
    if p >= 0 {
        lemma_find_double_hash_at(rule, p);
        let tail = rule.subrange(p, rule.len() as int);
        if p + 3 < rule.len() && rule[p + 2] == '#' && rule[p + 3] == '+' {
            assert(tail.subrange(0, 4) =~= seq!['#', '#', '#', '+']);
        } else if 4 <= tail.len() {
            assert(tail.subrange(0, 4) != seq!['#', '#', '#', '+']) by {
                if rule[p + 2] != '#' {
                    assert(tail.subrange(0, 4)[2] != '#');
                } else {
                    assert(tail.subrange(0, 4)[3] != '+');
                }
            }
        }
    } else {
        lemma_find_double_hash_at(rule, if rule.len() == 0 { 0 } else { rule.len() as int });
    }
}

} // verus!
