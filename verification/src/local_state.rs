//! Custom adblock filter rules inside a Local State document.
use vstd::prelude::*;

use crate::json::{Json, JsonValue};
use crate::text::{chars_of, is_blank, lines, split_lines, string_from_chars, trim, vecs_model};

verus! {

/// The text at `brave.ad_block.custom_filters`, or empty when it is missing or not a string.
pub open spec fn spec_custom_filters_text(local_state: Json) -> Seq<char> {
    match local_state.member("brave"@) {
        Some(b) => match b.member("ad_block"@) {
            Some(a) => match a.member("custom_filters"@) {
                Some(Json::Str(s)) => s,
                _ => Seq::empty(),
            },
            None => Seq::empty(),
        },
        None => Seq::empty(),
    }
}

/// The lines that hold something other than white space, in order.
pub open spec fn non_blank(ls: Seq<Seq<char>>) -> Seq<Seq<char>>
    decreases ls.len(),
{
    if ls.len() == 0 {
        ls
    } else if trim(ls.last()).len() == 0 {
        non_blank(ls.drop_last())
    } else {
        non_blank(ls.drop_last()).push(ls.last())
    }
}

/// The custom filter rules: the non-blank lines of the custom filters text.
pub open spec fn spec_custom_filters(local_state: Json) -> Seq<Seq<char>> {
    non_blank(lines(spec_custom_filters_text(local_state)))
}

/// The models of a list of strings.
pub open spec fn strings_model(v: Seq<String>) -> Seq<Seq<char>> {
    v.map_values(|s: String| s@)
}

/// The characters of the custom filters text.
pub fn custom_filters_text(local_state: &JsonValue) -> (r: Vec<char>)
    ensures
        r@ == spec_custom_filters_text(local_state@),
{
    let s = match local_state.get("brave") {
        Some(b) => match b.get("ad_block") {
            Some(a) => match a.get("custom_filters") {
                Some(v) => v.as_str(),
                None => None,
            },
            None => None,
        },
        None => None,
    };
    match s {
        Some(s) => chars_of(s.as_str()),
        None => Vec::new(),
    }
}

/// The non-blank lines, as strings.
pub fn non_blank_lines(ls: &Vec<Vec<char>>) -> (r: Vec<String>)
    ensures
        strings_model(r@) == non_blank(vecs_model(ls@)),
{
    let ghost m = vecs_model(ls@);
    let mut out: Vec<String> = Vec::new();
    for i in 0..ls.len()
        invariant
            m == vecs_model(ls@),
            strings_model(out@) == non_blank(m.subrange(0, i as int)),
    {
        proof {
            assert(m.subrange(0, i + 1).drop_last() =~= m.subrange(0, i as int));
            assert(m.subrange(0, i + 1).last() == ls@[i as int]@);
        }
        if !is_blank(ls[i].as_slice()) {
            let ghost before = out@;
            out.push(string_from_chars(ls[i].as_slice()));
            assert(strings_model(out@) =~= strings_model(before).push(ls@[i as int]@));
        }
    }
    assert(m.subrange(0, m.len() as int) =~= m);
    out
}

/// Extract custom filter rules from Local State as a list of non-empty lines.
pub fn get_custom_filters(local_state: &JsonValue) -> (r: Vec<String>)
    ensures
        strings_model(r@) == spec_custom_filters(local_state@),
{
    let text = custom_filters_text(local_state);
    let ls = split_lines(text.as_slice());
    non_blank_lines(&ls)
}

} // verus!
