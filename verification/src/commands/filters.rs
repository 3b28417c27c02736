//! `filters`: the custom adblock filter rules kept in Local State.
use vstd::prelude::*;

use crate::error::CliError;
use crate::json::{Json, JsonValue};
use crate::local_state::{
    custom_filters_text, get_custom_filters, spec_custom_filters, spec_custom_filters_text,
    strings_model,
};
use crate::text::{
    chars_eq, chars_of, lines, owned, push_char, split_lines, string_from_chars, trim, trim_chars,
    vecs_model,
};

verus! {

/// `local_state` with `brave.ad_block.custom_filters` set to the text `t`; `brave` and
/// `brave.ad_block` are made objects first when they are missing or not objects.
pub open spec fn with_custom_filters_text(local_state: Json, t: Seq<char>) -> Json {
    let b = local_state.object_at("brave"@);
    let a = b.object_at("ad_block"@);
    local_state.with_member(
        "brave"@,
        b.with_member("ad_block"@, a.with_member("custom_filters"@, Json::Str(t))),
    )
}

/// Whether some line, without surrounding white space, is `rule`.
pub open spec fn has_rule(ls: Seq<Seq<char>>, rule: Seq<char>) -> bool {
    exists|i: int| 0 <= i < ls.len() && trim(#[trigger] ls[i]) == rule
}

/// The Local State after `filters add rule`.
pub open spec fn spec_add_rule(local_state: Json, rule: Seq<char>) -> Json {
    let text = spec_custom_filters_text(local_state);
    if has_rule(lines(text), rule) {
        local_state
    } else {
        with_custom_filters_text(
            local_state,
            if text.len() == 0 {
                rule
            } else {
                text + seq!['\n'] + rule
            },
        )
    }
}

/// Lines joined with line feeds.
pub open spec fn join_lines(ls: Seq<Seq<char>>) -> Seq<char>
    decreases ls.len(),
{
    if ls.len() == 0 {
        Seq::empty()
    } else if ls.len() == 1 {
        ls[0]
    } else {
        join_lines(ls.drop_last()) + seq!['\n'] + ls.last()
    }
}

/// The lines that, without surrounding white space, are not `rule`.
pub open spec fn lines_without(ls: Seq<Seq<char>>, rule: Seq<char>) -> Seq<Seq<char>>
    decreases ls.len(),
{
    if ls.len() == 0 {
        ls
    } else if trim(ls.last()) == rule {
        lines_without(ls.drop_last(), rule)
    } else {
        lines_without(ls.drop_last(), rule).push(ls.last())
    }
}

/// The Local State after `filters remove rule`.
pub open spec fn spec_remove_rule(local_state: Json, rule: Seq<char>) -> Json {
    let ls = lines(spec_custom_filters_text(local_state));
    if has_rule(ls, rule) {
        with_custom_filters_text(local_state, join_lines(lines_without(ls, rule)))
    } else {
        local_state
    }
}

/// Whether `brave.ad_block.custom_filters` is present, whatever its type.
pub open spec fn has_custom_filters(local_state: Json) -> bool {
    match local_state.member("brave"@) {
        Some(b) => match b.member("ad_block"@) {
            Some(a) => a.member("custom_filters"@) is Some,
            None => false,
        },
        None => false,
    }
}

/// The Local State after `filters clear`.
pub open spec fn spec_clear_rules(local_state: Json) -> Json {
    if has_custom_filters(local_state) {
        with_custom_filters_text(local_state, Seq::empty())
    } else {
        local_state
    }
}

/// List all custom filter rules.
pub fn run_list(local_state: &JsonValue) -> (r: Vec<String>)
    ensures
        strings_model(r@) == spec_custom_filters(local_state@),
{
    get_custom_filters(local_state)
}

/// A rule as given on the command line: without surrounding white space, and not empty.
pub fn normalize_rule(filter: &str) -> (r: Result<String, CliError>)
    ensures
        match r {
            Ok(rule) => rule@ == trim(filter@) && rule@.len() > 0,
            Err(e) => trim(filter@).len() == 0 && e is EmptyFilter,
        },
{
    let cs = chars_of(filter);
    let t = trim_chars(cs.as_slice());
    if t.len() == 0 {
        Err(CliError::EmptyFilter)
    } else {
        Ok(string_from_chars(t.as_slice()))
    }
}

/// Set `brave.ad_block.custom_filters` to `text`, making the path of objects as needed.
pub fn write_all_filters(local_state: &mut JsonValue, text: String)
    requires
        old(local_state)@.indexable(),
    ensures
        final(local_state)@ == with_custom_filters_text(old(local_state)@, text@),
{
    let b = local_state.member_object_mut("brave");
    let a = b.member_object_mut("ad_block");
    a.set(owned("custom_filters"), JsonValue::Str(text));
}

/// Whether some line, without surrounding white space, is `rule`.
fn contains_rule(ls: &Vec<Vec<char>>, rule: &[char]) -> (r: bool)
    ensures
        r == has_rule(vecs_model(ls@), rule@),
{
    let ghost m = vecs_model(ls@);
    for i in 0..ls.len()
        invariant
            m == vecs_model(ls@),
            forall|j: int| 0 <= j < i ==> trim(#[trigger] m[j]) != rule@,
    {
        let t = trim_chars(ls[i].as_slice());
        if chars_eq(t.as_slice(), rule) {
            assert(trim(m[i as int]) == rule@);
            return true;
        }
    }
    false
}

/// Add a custom filter rule, unless a line already holds it.
pub fn add_rule(local_state: &mut JsonValue, rule: &str)
    requires
        old(local_state)@.indexable(),
    ensures
        final(local_state)@ == spec_add_rule(old(local_state)@, rule@),
{
    let text = custom_filters_text(local_state);
    let ls = split_lines(text.as_slice());
    let r = chars_of(rule);
    if contains_rule(&ls, r.as_slice()) {
        return;
    }
    let mut new_text = string_from_chars(text.as_slice());
    if text.len() > 0 {
        push_char(&mut new_text, '\n');
    }
    crate::text::push_str(&mut new_text, rule);
    assert(new_text@ =~= if text@.len() == 0 {
        rule@
    } else {
        text@ + seq!['\n'] + rule@
    });
    write_all_filters(local_state, new_text);
}

/// Lines joined with line feeds.
pub fn join_with_newlines(ls: &Vec<Vec<char>>) -> (r: String)
    ensures
        r@ == join_lines(vecs_model(ls@)),
{
    let ghost m = vecs_model(ls@);
    let mut out = String::new();
    for i in 0..ls.len()
        invariant
            m == vecs_model(ls@),
            out@ == join_lines(m.subrange(0, i as int)),
    {
        proof {
            let p = m.subrange(0, i + 1);
            assert(p.drop_last() =~= m.subrange(0, i as int));
            if i == 0 {
                assert(m.subrange(0, 0) =~= Seq::<Seq<char>>::empty());
            }
        }
        if i > 0 {
            push_char(&mut out, '\n');
        }
        let s = string_from_chars(ls[i].as_slice());
        crate::text::push_str(&mut out, s.as_str());
        assert(out@ =~= join_lines(m.subrange(0, i + 1)));
    }
    assert(m.subrange(0, m.len() as int) =~= m);
    out
}

/// Remove a custom filter rule: every line that holds it. Returns whether one was found.
pub fn remove_rule(local_state: &mut JsonValue, rule: &str) -> (found: bool)
    requires
        old(local_state)@.indexable(),
    ensures
        found == has_rule(lines(spec_custom_filters_text(old(local_state)@)), rule@),
        final(local_state)@ == spec_remove_rule(old(local_state)@, rule@),
{
    let text = custom_filters_text(local_state);
    let ls = split_lines(text.as_slice());
    let r = chars_of(rule);
    let ghost m = vecs_model(ls@);
    let mut kept: Vec<Vec<char>> = Vec::new();
    let mut found = false;
    for i in 0..ls.len()
        invariant
            m == vecs_model(ls@),
            r@ == rule@,
            vecs_model(kept@) == lines_without(m.subrange(0, i as int), rule@),
            found == has_rule(m.subrange(0, i as int), rule@),
    {
        let ghost p = m.subrange(0, i + 1);
        proof {
            assert(p.drop_last() =~= m.subrange(0, i as int));
            assert(p.last() == ls@[i as int]@);
        }
        let t = trim_chars(ls[i].as_slice());
        if chars_eq(t.as_slice(), r.as_slice()) {
            found = true;
            proof {
                assert(p[i as int] == m[i as int]);
            }
        } else {
            let ghost before = kept@;
            kept.push(sub_all(&ls[i]));
            assert(vecs_model(kept@) =~= vecs_model(before).push(ls@[i as int]@));
        }
        proof {
            if found {
                if has_rule(m.subrange(0, i as int), rule@) {
                    let j = choose|j: int| 0 <= j < i && trim(#[trigger] m.subrange(0, i as int)[j]) == rule@;
                    assert(p[j] == m.subrange(0, i as int)[j]);
                } else {
                    assert(trim(p[i as int]) == rule@);
                }
                assert(has_rule(p, rule@));
            } else {
                assert forall|j: int| 0 <= j < i + 1 implies trim(#[trigger] p[j]) != rule@ by {
                    if j < i {
                        assert(p[j] == m.subrange(0, i as int)[j]);
                    }
                }
            }
        }
    }
    assert(m.subrange(0, m.len() as int) =~= m);
    if found {
        let joined = join_with_newlines(&kept);
        write_all_filters(local_state, joined);
    }
    found
}

/// A copy of a character vector.
fn sub_all(v: &Vec<char>) -> (r: Vec<char>)
    ensures
        r@ == v@,
{
    crate::text::sub_chars(v.as_slice(), 0, v.len())
}

/// Remove all custom filter rules: the text becomes empty when it is present.
pub fn clear_rules(local_state: &mut JsonValue)
    requires
        old(local_state)@.indexable(),
    ensures
        final(local_state)@ == spec_clear_rules(old(local_state)@),
{
    let present = match local_state.get("brave") {
        Some(b) => match b.get("ad_block") {
            Some(a) => a.get("custom_filters").is_some(),
            None => false,
        },
        None => false,
    };
    if present {
        write_all_filters(local_state, String::new());
    }
}

} // verus!

verus! {

/// Joining at least two lines: the first, a line feed, and the rest joined.
pub proof fn lemma_join_front(ls: Seq<Seq<char>>)
    requires
        ls.len() >= 2,
    ensures
        join_lines(ls) == ls[0] + seq!['\n'] + join_lines(ls.drop_first()),
    decreases ls.len(),
{
    let init = ls.drop_last();
    if ls.len() == 2 {
        assert(init.len() == 1);
        assert(ls.drop_first().len() == 1);
        assert(join_lines(init) == ls[0]);
        assert(join_lines(ls.drop_first()) == ls[1]);
    } else {
        lemma_join_front(init);
        assert(init.drop_first() =~= ls.drop_first().drop_last());
        assert(ls.drop_first().last() == ls.last());
        assert(init[0] == ls[0]);
        assert(join_lines(ls.drop_first()) == join_lines(init.drop_first()) + seq!['\n'] + ls.last());
        assert(join_lines(ls) =~= ls[0] + seq!['\n'] + join_lines(ls.drop_first()));
    }
}

/// Every line of joined one-line texts trims to the trim of one of them.
pub proof fn lemma_lines_of_join(ls: Seq<Seq<char>>)
    requires
        forall|j: int| 0 <= j < ls.len() ==> crate::text::no_newline(#[trigger] ls[j]),
    ensures
        forall|i: int|
            0 <= i < lines(join_lines(ls)).len() ==> exists|j: int|
                0 <= j < ls.len() && trim(#[trigger] lines(join_lines(ls))[i]) == trim(ls[j]),
    decreases ls.len(),
{
    if ls.len() == 0 {
        assert(lines(join_lines(ls)) =~= Seq::<Seq<char>>::empty());
    } else if ls.len() == 1 {
        crate::text::lemma_lines_single(ls[0]);
        assert forall|i: int| 0 <= i < lines(join_lines(ls)).len() implies exists|j: int|
            0 <= j < ls.len() && trim(#[trigger] lines(join_lines(ls))[i]) == trim(ls[j]) by {
            assert(trim(lines(join_lines(ls))[i]) == trim(ls[0]));
        }
    } else {
        lemma_join_front(ls);
        let rest = ls.drop_first();
        lemma_lines_of_join(rest);
        let r = join_lines(rest);
        let s = ls[0] + seq!['\n'] + r;
        crate::text::lemma_first_newline_at(s, ls[0].len() as int);
        assert(s.subrange(0, ls[0].len() as int) =~= ls[0]);
        assert(s.subrange(ls[0].len() as int + 1, s.len() as int) =~= r);
        crate::text::lemma_trim_strip_cr(ls[0]);
        assert forall|i: int| 0 <= i < lines(join_lines(ls)).len() implies exists|j: int|
            0 <= j < ls.len() && trim(#[trigger] lines(join_lines(ls))[i]) == trim(ls[j]) by {
            if i == 0 {
                assert(trim(lines(s)[0]) == trim(ls[0]));
            } else {
                assert(lines(s)[i] == lines(r)[i - 1]);
                let j2 = choose|j: int| 0 <= j < rest.len() && trim(lines(r)[i - 1]) == trim(rest[j]);
                assert(rest[j2] == ls[j2 + 1]);
            }
        }
    }
}

/// The lines kept by `lines_without` are lines of the input, none of which trims to `rule`.
pub proof fn lemma_lines_without(ls: Seq<Seq<char>>, rule: Seq<char>)
    ensures
        forall|i: int| 0 <= i < lines_without(ls, rule).len() ==> trim(#[trigger] lines_without(ls, rule)[i]) != rule
            && exists|j: int| 0 <= j < ls.len() && lines_without(ls, rule)[i] == ls[j],
    decreases ls.len(),
{
    if ls.len() > 0 {
        let init = ls.drop_last();
        lemma_lines_without(init, rule);
        let lw = lines_without(ls, rule);
        assert forall|i: int| 0 <= i < lw.len() implies trim(#[trigger] lw[i]) != rule
            && exists|j: int| 0 <= j < ls.len() && lw[i] == ls[j] by {
            if i < lines_without(init, rule).len() {
                let j = choose|j: int| 0 <= j < init.len() && lines_without(init, rule)[i] == init[j];
                assert(lw[i] == lines_without(init, rule)[i]);
                assert(ls[j] == init[j]);
            } else {
                assert(lw[i] == ls.last());
                assert(ls[ls.len() - 1] == ls.last());
            }
        }
    }
}

/// The non-blank lines are lines of the input.
pub proof fn lemma_non_blank_subset(ls: Seq<Seq<char>>)
    ensures
        forall|i: int| 0 <= i < crate::local_state::non_blank(ls).len() ==> exists|j: int|
            0 <= j < ls.len() && #[trigger] crate::local_state::non_blank(ls)[i] == ls[j],
    decreases ls.len(),
{
    if ls.len() > 0 {
        let init = ls.drop_last();
        lemma_non_blank_subset(init);
        let nb = crate::local_state::non_blank(ls);
        let nbi = crate::local_state::non_blank(init);
        assert forall|i: int| 0 <= i < nb.len() implies exists|j: int| 0 <= j < ls.len() && #[trigger] nb[i] == ls[j] by {
            if i < nbi.len() {
                assert(nb[i] == nbi[i]);
                let j2 = choose|j: int| 0 <= j < init.len() && #[trigger] nbi[i] == init[j];
                assert(ls[j2] == init[j2]);
            } else {
                assert(nb[i] == ls[ls.len() - 1]);
            }
        }
    }
}

/// A line with something besides white space is among the non-blank lines.
pub proof fn lemma_non_blank_keeps(ls: Seq<Seq<char>>, i: int)
    requires
        0 <= i < ls.len(),
        trim(ls[i]).len() > 0,
    ensures
        exists|j: int| 0 <= j < crate::local_state::non_blank(ls).len() && #[trigger] crate::local_state::non_blank(ls)[j] == ls[i],
    decreases ls.len(),
{
    let init = ls.drop_last();
    let nb = crate::local_state::non_blank(ls);
    if i < ls.len() - 1 {
        lemma_non_blank_keeps(init, i);
        let j = choose|j: int| 0 <= j < crate::local_state::non_blank(init).len() && #[trigger] crate::local_state::non_blank(init)[j] == init[i];
        assert(nb[j] == crate::local_state::non_blank(init)[j]);
    } else {
        assert(nb[nb.len() - 1] == ls[i]);
    }
}

/// The custom filters text of a document whose text was set to `t`.
pub proof fn lemma_custom_filters_text_written(local_state: Json, t: Seq<char>)
    ensures
        spec_custom_filters_text(with_custom_filters_text(local_state, t)) == t,
{
    let b = local_state.object_at("brave"@);
    let a = b.object_at("ad_block"@);
    let a2 = a.with_member("custom_filters"@, Json::Str(t));
    let b2 = b.with_member("ad_block"@, a2);
    crate::json::lemma_with_member_member(a, "custom_filters"@, Json::Str(t), "custom_filters"@);
    crate::json::lemma_with_member_member(b, "ad_block"@, a2, "ad_block"@);
    crate::json::lemma_with_member_member(local_state, "brave"@, b2, "brave"@);
}

/// After adding a rule, a listed filter is that rule (once white space is trimmed).
pub proof fn lemma_add_then_list(local_state: Json, rule: Seq<char>)
    requires
        trim(rule) == rule,
        rule.len() > 0,
        crate::text::no_newline(rule),
    ensures
        exists|i: int| 0 <= i < spec_custom_filters(spec_add_rule(local_state, rule)).len()
            && trim(#[trigger] spec_custom_filters(spec_add_rule(local_state, rule))[i]) == rule,
{
    let text = spec_custom_filters_text(local_state);
    if has_rule(lines(text), rule) {
        let i = choose|i: int| 0 <= i < lines(text).len() && trim(#[trigger] lines(text)[i]) == rule;
        lemma_non_blank_keeps(lines(text), i);
        let nb = crate::local_state::non_blank(lines(text));
        let j = choose|j: int| 0 <= j < nb.len() && #[trigger] nb[j] == lines(text)[i];
        assert(trim(spec_custom_filters(spec_add_rule(local_state, rule))[j]) == rule);
    } else {
        let t = if text.len() == 0 { rule } else { text + seq!['\n'] + rule };
        lemma_custom_filters_text_written(local_state, t);
        if text.len() == 0 {
            crate::text::lemma_lines_single(rule);
            lemma_non_blank_keeps(lines(t), 0);
            let nb = crate::local_state::non_blank(lines(t));
            let j = choose|j: int| 0 <= j < nb.len() && #[trigger] nb[j] == lines(t)[0];
            assert(trim(spec_custom_filters(spec_add_rule(local_state, rule))[j]) == rule);
        } else {
            crate::text::lemma_lines_append_line(text, rule);
            lemma_non_blank_keeps(lines(t), lines(t).len() - 1);
            let nb = crate::local_state::non_blank(lines(t));
            let j = choose|j: int| 0 <= j < nb.len() && #[trigger] nb[j] == lines(t)[lines(t).len() - 1];
            assert(trim(spec_custom_filters(spec_add_rule(local_state, rule))[j]) == rule);
        }
    }
}

/// Adding a rule twice is the same as adding it once.
pub proof fn lemma_add_idempotent(local_state: Json, rule: Seq<char>)
    requires
        trim(rule) == rule,
        rule.len() > 0,
        crate::text::no_newline(rule),
    ensures
        spec_add_rule(spec_add_rule(local_state, rule), rule) == spec_add_rule(local_state, rule),
{
    let text = spec_custom_filters_text(local_state);
    if !has_rule(lines(text), rule) {
        let t = if text.len() == 0 { rule } else { text + seq!['\n'] + rule };
        lemma_custom_filters_text_written(local_state, t);
        if text.len() == 0 {
            crate::text::lemma_lines_single(rule);
            assert(trim(lines(t)[0]) == rule);
        } else {
            crate::text::lemma_lines_append_line(text, rule);
            assert(trim(lines(t)[lines(t).len() - 1]) == rule);
        }
    }
}

/// After removing a rule, no listed filter is that rule (once white space is trimmed).
pub proof fn lemma_remove_then_list(local_state: Json, rule: Seq<char>)
    ensures
        forall|i: int| 0 <= i < spec_custom_filters(spec_remove_rule(local_state, rule)).len()
            ==> trim(#[trigger] spec_custom_filters(spec_remove_rule(local_state, rule))[i]) != rule,
{
    let ls = lines(spec_custom_filters_text(local_state));
    let after = spec_remove_rule(local_state, rule);
    if has_rule(ls, rule) {
        let lw = lines_without(ls, rule);
        lemma_custom_filters_text_written(local_state, join_lines(lw));
        lemma_lines_without(ls, rule);
        crate::text::lemma_lines_no_newline(spec_custom_filters_text(local_state));
        assert forall|j: int| 0 <= j < lw.len() implies crate::text::no_newline(#[trigger] lw[j]) by {
            let k = choose|k: int| 0 <= k < ls.len() && lw[j] == ls[k];
        }
        lemma_lines_of_join(lw);
        let out = lines(join_lines(lw));
        lemma_non_blank_subset(out);
        assert forall|i: int| 0 <= i < spec_custom_filters(after).len() implies trim(#[trigger] spec_custom_filters(after)[i]) != rule by {
            let k = choose|k: int| 0 <= k < out.len() && #[trigger] crate::local_state::non_blank(out)[i] == out[k];
            let j = choose|j: int| 0 <= j < lw.len() && trim(#[trigger] out[k]) == trim(lw[j]);
        }
    } else {
        lemma_non_blank_subset(ls);
        assert forall|i: int| 0 <= i < spec_custom_filters(after).len() implies trim(#[trigger] spec_custom_filters(after)[i]) != rule by {
            let k = choose|k: int| 0 <= k < ls.len() && #[trigger] crate::local_state::non_blank(ls)[i] == ls[k];
        }
    }
}

/// After clearing, no custom filter is listed.
pub proof fn lemma_clear_then_list(local_state: Json)
    ensures
        spec_custom_filters(spec_clear_rules(local_state)).len() == 0,
{
    if has_custom_filters(local_state) {
        lemma_custom_filters_text_written(local_state, Seq::empty());
    }
    assert(lines(spec_custom_filters_text(spec_clear_rules(local_state))) =~= Seq::<Seq<char>>::empty());
}

/// Writing the custom filters text leaves every other top-level member as it was.
pub proof fn lemma_filters_preserve_other_members(local_state: Json, t: Seq<char>, k: Seq<char>)
    requires
        local_state.indexable(),
        k != "brave"@,
    ensures
        with_custom_filters_text(local_state, t).member(k) == local_state.member(k),
{
    let b = local_state.object_at("brave"@);
    let a = b.object_at("ad_block"@);
    crate::json::lemma_with_member_member(
        local_state,
        "brave"@,
        b.with_member("ad_block"@, a.with_member("custom_filters"@, Json::Str(t))),
        k,
    );
}

/// The Local State after `filters load`: the custom filters become the rule lines of the
/// file (blank lines and `!` comments left out), one per line.
pub open spec fn spec_load_rules(local_state: Json, content: Seq<char>) -> Json {
    with_custom_filters_text(
        local_state,
        join_lines(crate::commands::bisect::rule_lines(lines(content))),
    )
}

/// Replace the custom filters with the rules of a rules file.
pub fn load_rules(local_state: &mut JsonValue, content: &str)
    requires
        old(local_state)@.indexable(),
    ensures
        final(local_state)@ == spec_load_rules(old(local_state)@, content@),
{
    let rules = crate::commands::bisect::parse_rules(content);
    let text = crate::commands::bisect::join_strings(&rules);
    write_all_filters(local_state, text);
}

/// Whether a line can be read back unchanged from a joined text: not empty, without a line
/// feed, not ending in a carriage return.
pub open spec fn plain_line(l: Seq<char>) -> bool {
    l.len() > 0 && crate::text::no_newline(l) && l.last() != '\r'
}

/// Splitting joined plain lines gives the lines back.
pub proof fn lemma_lines_of_join_exact(ls: Seq<Seq<char>>)
    requires
        forall|j: int| 0 <= j < ls.len() ==> plain_line(#[trigger] ls[j]),
    ensures
        lines(join_lines(ls)) == ls,
    decreases ls.len(),
{
    if ls.len() == 0 {
        assert(lines(join_lines(ls)) =~= ls);
    } else if ls.len() == 1 {
        assert(plain_line(ls[0]));
        crate::text::lemma_lines_single(ls[0]);
        assert(seq![ls[0]] =~= ls);
    } else {
        lemma_join_front(ls);
        let rest = ls.drop_first();
        assert forall|j: int| 0 <= j < rest.len() implies plain_line(#[trigger] rest[j]) by {
            assert(rest[j] == ls[j + 1]);
        }
        lemma_lines_of_join_exact(rest);
        let r = join_lines(rest);
        let s = ls[0] + seq!['\n'] + r;
        assert(plain_line(ls[0]));
        crate::text::lemma_first_newline_at(s, ls[0].len() as int);
        assert(s.subrange(0, ls[0].len() as int) =~= ls[0]);
        assert(s.subrange(ls[0].len() as int + 1, s.len() as int) =~= r);
        assert(seq![ls[0]] + rest =~= ls);
    }
}

/// The rule lines of a text are exactly its non-blank lines that are not comments.
proof fn lemma_rule_lines_plain(ls: Seq<Seq<char>>)
    requires
        forall|j: int| 0 <= j < ls.len() ==> crate::text::no_newline(#[trigger] ls[j]),
        forall|j: int| 0 <= j < ls.len() ==> !(#[trigger] ls[j].len() > 0 && ls[j].last() == '\r'),
    ensures
        forall|j: int| 0 <= j < crate::commands::bisect::rule_lines(ls).len() ==> plain_line(
            #[trigger] crate::commands::bisect::rule_lines(ls)[j],
        ),
        crate::local_state::non_blank(crate::commands::bisect::rule_lines(ls)) == crate::commands::bisect::rule_lines(ls),
    decreases ls.len(),
{
    if ls.len() > 0 {
        let p = ls.drop_last();
        assert forall|j: int| 0 <= j < p.len() implies crate::text::no_newline(#[trigger] p[j]) by {
            assert(p[j] == ls[j]);
        }
        assert forall|j: int| 0 <= j < p.len() implies !(#[trigger] p[j].len() > 0 && p[j].last() == '\r') by {
            assert(p[j] == ls[j]);
        }
        lemma_rule_lines_plain(p);
        let rp = crate::commands::bisect::rule_lines(p);
        if crate::commands::bisect::is_rule_line(ls.last()) {
            let l = ls.last();
            assert(crate::text::no_newline(ls[ls.len() - 1]));
            assert(!(ls[ls.len() - 1].len() > 0 && ls[ls.len() - 1].last() == '\r'));
            assert(l.len() > 0) by {
                if l.len() == 0 {
                    assert(trim(l) =~= l) by {
                        assert(l =~= Seq::<char>::empty());
                    }
                }
            }
            let rl = rp.push(l);
            assert forall|j: int| 0 <= j < rl.len() implies plain_line(#[trigger] rl[j]) by {
                if j < rp.len() {
                    assert(rl[j] == rp[j]);
                }
            }
            assert(rl.drop_last() =~= rp);
        }
    }
}

/// After loading a rules file, the listed custom filters are the file's rule lines, in order
/// (for files without a line that ends in two carriage returns).
pub proof fn lemma_load_then_list(local_state: Json, content: Seq<char>)
    requires
        forall|j: int| 0 <= j < lines(content).len() ==> !(#[trigger] lines(content)[j].len() > 0
            && lines(content)[j].last() == '\r'),
    ensures
        spec_custom_filters(spec_load_rules(local_state, content)) == crate::commands::bisect::rule_lines(
            lines(content),
        ),
{
    let rs = crate::commands::bisect::rule_lines(lines(content));
    crate::text::lemma_lines_no_newline(content);
    lemma_rule_lines_plain(lines(content));
    lemma_lines_of_join_exact(rs);
    lemma_custom_filters_text_written(local_state, join_lines(rs));
}

} // verus!

verus! {

/// A line that holds no line feed and does not end in a carriage return (it may be empty).
pub open spec fn bare_line(l: Seq<char>) -> bool {
    crate::text::no_newline(l) && (l.len() == 0 || l.last() != '\r')
}

/// A text none of whose lines ends in a carriage return, nor the text itself.
pub open spec fn no_line_ends_in_cr(t: Seq<char>) -> bool {
    &&& (t.len() == 0 || t.last() != '\r')
    &&& forall|j: int| 0 <= j < lines(t).len() ==> bare_line(#[trigger] lines(t)[j])
}

proof fn lemma_lines_of_bare_line_newline(x: Seq<char>)
    requires
        bare_line(x),
    ensures
        lines(x + seq!['\n']) == seq![x],
{
    let t = x + seq!['\n'];
    crate::text::lemma_first_newline_at(t, x.len() as int);
    assert(t.subrange(0, x.len() as int) =~= x);
    assert(t.subrange(x.len() as int + 1, t.len() as int) =~= Seq::<char>::empty());
    assert(lines(Seq::<char>::empty()) =~= Seq::<Seq<char>>::empty());
    assert(crate::text::strip_cr(x) == x);
    assert(lines(t) =~= seq![x]);
}

/// Joined bare lines followed by a line feed split back into those lines.
proof fn lemma_lines_join_newline(p: Seq<Seq<char>>)
    requires
        p.len() > 0,
        forall|j: int| 0 <= j < p.len() ==> bare_line(#[trigger] p[j]),
    ensures
        lines(join_lines(p) + seq!['\n']) == p,
    decreases p.len(),
{
    if p.len() == 1 {
        lemma_lines_of_bare_line_newline(p[0]);
        assert(seq![p[0]] =~= p);
    } else {
        let q = p.drop_last();
        let x = p.last();
        assert(bare_line(p[p.len() - 1]));
        assert forall|j: int| 0 <= j < q.len() implies bare_line(#[trigger] q[j]) by {
            assert(q[j] == p[j]);
        }
        lemma_lines_join_newline(q);
        assert(join_lines(p) + seq!['\n'] =~= join_lines(q) + seq!['\n'] + (x + seq!['\n']));
        crate::text::lemma_lines_split(join_lines(q), x + seq!['\n']);
        lemma_lines_of_bare_line_newline(x);
        assert(q.push(x) =~= p);
    }
}

/// Joined bare lines split back into those lines, but for an empty last line, which a
/// trailing line feed does not make.
proof fn lemma_lines_join_bare(m: Seq<Seq<char>>)
    requires
        forall|j: int| 0 <= j < m.len() ==> bare_line(#[trigger] m[j]),
    ensures
        lines(join_lines(m)) == if m.len() > 0 && m.last().len() == 0 {
            m.drop_last()
        } else {
            m
        },
{
    if m.len() == 0 {
        assert(lines(join_lines(m)) =~= m);
    } else if m.len() == 1 {
        assert(bare_line(m[0]));
        crate::text::lemma_lines_single(m[0]);
        if m[0].len() == 0 {
            assert(m.drop_last() =~= Seq::<Seq<char>>::empty());
        } else {
            assert(seq![m[0]] =~= m);
        }
    } else {
        let p = m.drop_last();
        let x = m.last();
        assert(bare_line(m[m.len() - 1]));
        assert forall|j: int| 0 <= j < p.len() implies bare_line(#[trigger] p[j]) by {
            assert(p[j] == m[j]);
        }
        lemma_lines_join_newline(p);
        crate::text::lemma_lines_split(join_lines(p), x);
        crate::text::lemma_lines_single(x);
        if x.len() == 0 {
            assert(lines(join_lines(m)) =~= p);
        } else {
            assert(p.push(x) =~= m);
            assert(lines(join_lines(m)) =~= m);
        }
    }
}

/// Lines none of which is `rule` (trimmed) are all kept.
proof fn lemma_lines_without_none(ls: Seq<Seq<char>>, rule: Seq<char>)
    requires
        forall|j: int| 0 <= j < ls.len() ==> trim(#[trigger] ls[j]) != rule,
    ensures
        lines_without(ls, rule) == ls,
    decreases ls.len(),
{
    if ls.len() > 0 {
        let p = ls.drop_last();
        assert(trim(ls[ls.len() - 1]) != rule);
        assert forall|j: int| 0 <= j < p.len() implies trim(#[trigger] p[j]) != rule by {
            assert(p[j] == ls[j]);
        }
        lemma_lines_without_none(p, rule);
        assert(p.push(ls.last()) =~= ls);
    }
}

/// A blank last line is not listed.
proof fn lemma_non_blank_drop_blank(ls: Seq<Seq<char>>)
    requires
        ls.len() > 0,
        ls.last().len() == 0,
    ensures
        crate::local_state::non_blank(ls) == crate::local_state::non_blank(ls.drop_last()),
{
    assert(trim(ls.last()).len() == 0);
}

/// Removing a rule just added gives the filters back: when no line of the custom filters is
/// the rule (trimmed), and no line ends in a carriage return, `filters add` and then
/// `filters remove` of that rule list the same filters as before.
pub proof fn lemma_add_then_remove(local_state: Json, rule: Seq<char>)
    requires
        trim(rule) == rule,
        rule.len() > 0,
        crate::text::no_newline(rule),
        !has_rule(lines(spec_custom_filters_text(local_state)), rule),
        no_line_ends_in_cr(spec_custom_filters_text(local_state)),
    ensures
        spec_custom_filters(spec_remove_rule(spec_add_rule(local_state, rule), rule)) == spec_custom_filters(
            local_state,
        ),
{
    let t = spec_custom_filters_text(local_state);
    let t2 = if t.len() == 0 { rule } else { t + seq!['\n'] + rule };
    let added = spec_add_rule(local_state, rule);
    lemma_custom_filters_text_written(local_state, t2);
    assert(spec_custom_filters_text(added) == t2);
    let m = if t.len() == 0 { Seq::<Seq<char>>::empty() } else { lines(t + seq!['\n']) };
    crate::text::lemma_lines_single(rule);
    if t.len() == 0 {
        assert(lines(t2) =~= m.push(rule));
        assert(lines(t) =~= Seq::<Seq<char>>::empty());
    } else {
        crate::text::lemma_lines_split(t, rule);
        crate::text::lemma_lines_push_newline(t);
        assert(lines(t2) =~= m.push(rule));
    }
    let l2 = lines(t2);
    assert(l2[l2.len() - 1] == rule);
    assert(has_rule(l2, rule));
    assert(l2.drop_last() =~= m);
    crate::text::lemma_lines_no_newline(t);
    assert forall|j: int| 0 <= j < m.len() implies bare_line(#[trigger] m[j]) && trim(m[j]) != rule by {
        if j < lines(t).len() {
            assert(m[j] == lines(t)[j]);
            assert(bare_line(lines(t)[j]));
            if trim(m[j]) == rule {
                assert(has_rule(lines(t), rule));
            }
        } else {
            assert(m[j] == Seq::<char>::empty());
            assert(trim(Seq::<char>::empty()).len() == 0);
        }
    }
    lemma_lines_without_none(m, rule);
    assert(lines_without(l2, rule) == m);
    let removed = spec_remove_rule(added, rule);
    lemma_custom_filters_text_written(added, join_lines(m));
    assert(spec_custom_filters_text(removed) == join_lines(m));
    lemma_lines_join_bare(m);
    if m.len() > 0 && m.last().len() == 0 {
        lemma_non_blank_drop_blank(m);
    }
    if t.len() > 0 && t.last() == '\n' {
        assert(m.drop_last() =~= lines(t));
        lemma_non_blank_drop_blank(m);
    }
}

} // verus!
