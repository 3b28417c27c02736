//! JSON Pointer lookup (RFC 6901), as `serde_json::Value::pointer` does it.
use vstd::prelude::*;

use crate::json::{lemma_model_items, lemma_member_index, members_get, Json, JsonValue};
use crate::text::{chars_of, vecs_model};

verus! {

/// The pieces of `s` between the separators `sep` (`str::split`): one more piece than
/// separators, empty pieces included.
pub open spec fn split_on(s: Seq<char>, sep: char) -> Seq<Seq<char>>
    decreases s.len(),
{
    if s.len() == 0 {
        seq![Seq::empty()]
    } else {
        let p = split_on(s.drop_last(), sep);
        if s.last() == sep {
            p.push(Seq::empty())
        } else {
            p.update(p.len() - 1, p.last().push(s.last()))
        }
    }
}

pub proof fn lemma_split_on_len(s: Seq<char>, sep: char)
    ensures
        split_on(s, sep).len() >= 1,
    decreases s.len(),
{
    if s.len() > 0 {
        lemma_split_on_len(s.drop_last(), sep);
    }
}

/// Every non-overlapping occurrence of the pair `a b`, from the left, replaced by `r`.
pub open spec fn replace_pair(s: Seq<char>, a: char, b: char, r: char) -> Seq<char>
    decreases s.len(),
{
    if s.len() < 2 {
        s
    } else if s[0] == a && s[1] == b {
        seq![r] + replace_pair(s.subrange(2, s.len() as int), a, b, r)
    } else {
        seq![s[0]] + replace_pair(s.subrange(1, s.len() as int), a, b, r)
    }
}

/// A reference token with its escapes undone: `~1` becomes `/`, then `~0` becomes `~`.
pub open spec fn unescape(t: Seq<char>) -> Seq<char> {
    replace_pair(replace_pair(t, '~', '1', '/'), '~', '0', '~')
}

/// The reference tokens of a pointer that starts with `/`.
pub open spec fn pointer_tokens(p: Seq<char>) -> Seq<Seq<char>> {
    split_on(p, '/').drop_first().map_values(|t: Seq<char>| unescape(t))
}

pub open spec fn is_digit(c: char) -> bool {
    '0' <= c && c <= '9'
}

/// The value of a string of decimal digits.
pub open spec fn digits_value(s: Seq<char>) -> nat
    decreases s.len(),
{
    if s.len() == 0 {
        0
    } else {
        digits_value(s.drop_last()) * 10 + ((s.last() as nat) - ('0' as nat)) as nat
    }
}

/// An array index token: decimal digits without a leading zero (but `0` itself), within `usize`.
pub open spec fn spec_parse_index(s: Seq<char>) -> Option<usize> {
    if s.len() == 0 || (s[0] == '0' && s.len() != 1) || !(forall|i: int|
        0 <= i < s.len() ==> is_digit(#[trigger] s[i])) || digits_value(s) > usize::MAX {
        None
    } else {
        Some(digits_value(s) as usize)
    }
}

/// The value reached by following `tokens` from `v`: a member of an object, an item of an array.
pub open spec fn pointer_get(v: Json, tokens: Seq<Seq<char>>) -> Option<Json>
    decreases tokens.len(),
{
    if tokens.len() == 0 {
        Some(v)
    } else {
        match v {
            Json::Object(m) => match members_get(m, tokens[0]) {
                Some(x) => pointer_get(x, tokens.drop_first()),
                None => None,
            },
            Json::Array(a) => match spec_parse_index(tokens[0]) {
                Some(i) => if i < a.len() {
                    pointer_get(a[i as int], tokens.drop_first())
                } else {
                    None
                },
                None => None,
            },
            _ => None,
        }
    }
}

/// `Value::pointer`: the whole value for an empty pointer, nothing for a pointer that does
/// not start with `/`, else the value its tokens lead to.
pub open spec fn spec_pointer(v: Json, p: Seq<char>) -> Option<Json> {
    if p.len() == 0 {
        Some(v)
    } else if p[0] != '/' {
        None
    } else {
        pointer_get(v, pointer_tokens(p))
    }
}

/// Split characters at a separator.
pub fn split_chars(s: &[char], sep: char) -> (r: Vec<Vec<char>>)
    ensures
        vecs_model(r@) == split_on(s@, sep),
{
    let mut out: Vec<Vec<char>> = Vec::new();
    let mut cur: Vec<char> = Vec::new();
    for i in 0..s.len()
        invariant
            vecs_model(out@).push(cur@) == split_on(s@.subrange(0, i as int), sep),
    {
        let ghost t = s@.subrange(0, i + 1);
        proof {
            assert(t.drop_last() =~= s@.subrange(0, i as int));
            lemma_split_on_len(s@.subrange(0, i as int), sep);
        }
        if s[i] == sep {
            let ghost before = out@;
            let mut done: Vec<char> = Vec::new();
            std::mem::swap(&mut done, &mut cur);
            out.push(done);
            assert(vecs_model(out@) =~= vecs_model(before).push(done@));
            assert(vecs_model(out@).push(cur@) =~= split_on(t, sep));
        } else {
            let ghost c0 = cur@;
            cur.push(s[i]);
            assert(vecs_model(out@).push(cur@) =~= split_on(t, sep));
        }
    }
    assert(s@.subrange(0, s@.len() as int) =~= s@);
    let ghost before = out@;
    out.push(cur);
    assert(vecs_model(out@) =~= vecs_model(before).push(out@.last()@));
    out
}

/// Replace each non-overlapping pair `a b`, from the left, by `r`.
pub fn replace_pair_chars(s: &[char], a: char, b: char, r: char) -> (out: Vec<char>)
    ensures
        out@ == replace_pair(s@, a, b, r),
{
    let n = s.len();
    let mut out: Vec<char> = Vec::new();
    let mut i: usize = 0;
    assert(s@.subrange(0, n as int) =~= s@);
    assert(out@ + replace_pair(s@, a, b, r) =~= replace_pair(s@, a, b, r));
    while i < n
        invariant
            n == s@.len(),
            i <= n,
            out@ + replace_pair(s@.subrange(i as int, n as int), a, b, r) == replace_pair(s@, a, b, r),
        decreases n - i,
    {
        let ghost rest = s@.subrange(i as int, n as int);
        if i + 1 < n && s[i] == a && s[i + 1] == b {
            assert(rest.subrange(2, rest.len() as int) =~= s@.subrange(i + 2, n as int));
            out.push(r);
            i = i + 2;
            assert(out@ + replace_pair(s@.subrange(i as int, n as int), a, b, r) =~= replace_pair(
                s@,
                a,
                b,
                r,
            ));
        } else if i + 1 < n {
            assert(rest.subrange(1, rest.len() as int) =~= s@.subrange(i + 1, n as int));
            out.push(s[i]);
            i = i + 1;
            assert(out@ + replace_pair(s@.subrange(i as int, n as int), a, b, r) =~= replace_pair(
                s@,
                a,
                b,
                r,
            ));
        } else {
            out.push(s[i]);
            i = i + 1;
            assert(out@ + replace_pair(s@.subrange(i as int, n as int), a, b, r) =~= replace_pair(
                s@,
                a,
                b,
                r,
            ));
        }
    }
    assert(out@ =~= out@ + replace_pair(s@.subrange(n as int, n as int), a, b, r));
    out
}

/// The value of a digit prefix never exceeds the value of the whole digit string.
pub proof fn lemma_digits_value_prefix(s: Seq<char>, i: int)
    requires
        0 <= i <= s.len(),
        forall|j: int| 0 <= j < s.len() ==> is_digit(#[trigger] s[j]),
    ensures
        digits_value(s.subrange(0, i)) <= digits_value(s),
    decreases s.len(),
{
    if i < s.len() {
        let p = s.drop_last();
        assert forall|j: int| 0 <= j < p.len() implies is_digit(#[trigger] p[j]) by {
            assert(p[j] == s[j]);
        }
        lemma_digits_value_prefix(p, i);
        assert(p.subrange(0, i) =~= s.subrange(0, i));
    } else {
        assert(s.subrange(0, i) =~= s);
    }
}

/// Parse an array index token.
pub fn parse_index(s: &[char]) -> (r: Option<usize>)
    ensures
        r == spec_parse_index(s@),
{
    let n = s.len();
    if n == 0 || (s[0] == '0' && n != 1) {
        return None;
    }
    let mut acc: usize = 0;
    let mut i: usize = 0;
    while i < n
        invariant
            n == s@.len(),
            i <= n,
            acc == digits_value(s@.subrange(0, i as int)),
            forall|j: int| 0 <= j < i ==> is_digit(#[trigger] s@[j]),
        decreases n - i,
    {
        let c = s[i];
        if !('0' <= c && c <= '9') {
            return None;
        }
        let d = (c as u32 - '0' as u32) as usize;
        assert(s@.subrange(0, i + 1).drop_last() =~= s@.subrange(0, i as int));
        match acc.checked_mul(10) {
            Some(m) => match m.checked_add(d) {
                Some(v) => {
                    acc = v;
                },
                None => {
                    proof {
                        assert(digits_value(s@.subrange(0, i + 1)) > usize::MAX);
                        lemma_overflow_stays(s@, i as int + 1);
                    }
                    return None;
                },
            },
            None => {
                proof {
                    assert(digits_value(s@.subrange(0, i + 1)) > usize::MAX);
                    lemma_overflow_stays(s@, i as int + 1);
                }
                return None;
            },
        }
        i = i + 1;
    }
    assert(s@.subrange(0, n as int) =~= s@);
    Some(acc)
}

/// Once a digit prefix is too large for `usize`, so is the digit string, or a later
/// character is not a digit.
proof fn lemma_overflow_stays(s: Seq<char>, i: int)
    requires
        0 <= i <= s.len(),
        forall|j: int| 0 <= j < i ==> is_digit(#[trigger] s[j]),
        digits_value(s.subrange(0, i)) > usize::MAX,
    ensures
        spec_parse_index(s) is None,
{
    if forall|j: int| 0 <= j < s.len() ==> is_digit(#[trigger] s[j]) {
        lemma_digits_value_prefix(s, i);
    }
}

impl JsonValue {
    /// Follow reference tokens from this value.
    pub fn pointer_tokens_get<'a>(&'a self, tokens: &Vec<Vec<char>>) -> (r: Option<&'a JsonValue>)
        ensures
            match r {
                Some(x) => pointer_get(self@, vecs_model(tokens@)) == Some(x@),
                None => pointer_get(self@, vecs_model(tokens@)) is None,
            },
    {
        let ghost ts = vecs_model(tokens@);
        let mut cur: &'a JsonValue = self;
        let mut i: usize = 0;
        assert(ts.subrange(0, ts.len() as int) =~= ts);
        while i < tokens.len()
            invariant
                ts == vecs_model(tokens@),
                i <= tokens@.len(),
                pointer_get(self@, ts) == pointer_get(cur@, ts.subrange(i as int, ts.len() as int)),
            decreases tokens@.len() - i,
        {
            let ghost rest = ts.subrange(i as int, ts.len() as int);
            assert(rest.drop_first() =~= ts.subrange(i + 1, ts.len() as int));
            assert(rest[0] == tokens@[i as int]@);
            let tok = &tokens[i];
            let next: &'a JsonValue = match cur {
                JsonValue::Object(_) => {
                    match cur.get_chars(tok.as_slice()) {
                        Some(x) => x,
                        None => return None,
                    }
                },
                JsonValue::Array(items) => {
                    proof {
                        lemma_model_items(items@);
                    }
                    match parse_index(tok.as_slice()) {
                        Some(k) => if k < items.len() {
                            &items[k]
                        } else {
                            return None;
                        },
                        None => return None,
                    }
                },
                _ => return None,
            };
            cur = next;
            i = i + 1;
        }
        assert(ts.subrange(i as int, ts.len() as int) =~= Seq::<Seq<char>>::empty());
        Some(cur)
    }

    /// `Value::pointer`: look up a value by a JSON Pointer.
    pub fn pointer<'a>(&'a self, p: &str) -> (r: Option<&'a JsonValue>)
        ensures
            match r {
                Some(x) => spec_pointer(self@, p@) == Some(x@),
                None => spec_pointer(self@, p@) is None,
            },
    {
        let cs = chars_of(p);
        if cs.len() == 0 {
            return Some(self);
        }
        if cs[0] != '/' {
            return None;
        }
        let pieces = split_chars(cs.as_slice(), '/');
        let mut tokens: Vec<Vec<char>> = Vec::new();
        let ghost want = pointer_tokens(p@);
        proof {
            lemma_split_on_len(p@, '/');
        }
        let mut j: usize = 1;
        while j < pieces.len()
            invariant
                1 <= j <= pieces@.len(),
                want == pointer_tokens(p@),
                vecs_model(pieces@) == split_on(p@, '/'),
                vecs_model(tokens@) == want.subrange(0, j - 1),
            decreases pieces@.len() - j,
        {
            let once = replace_pair_chars(pieces[j].as_slice(), '~', '1', '/');
            let tok = replace_pair_chars(once.as_slice(), '~', '0', '~');
            let ghost before = tokens@;
            proof {
                assert(vecs_model(pieces@)[j as int] == pieces@[j as int]@);
                assert(want[j - 1] == unescape(split_on(p@, '/')[j as int]));
            }
            tokens.push(tok);
            assert(vecs_model(tokens@) =~= vecs_model(before).push(tok@));
            assert(tok@ == unescape(pieces@[j as int]@));
            assert(vecs_model(tokens@) =~= want.subrange(0, j as int));
            j = j + 1;
        }
        assert(want.subrange(0, want.len() as int) =~= want);
        self.pointer_tokens_get(&tokens)
    }

    /// The member `key` of an object, for a key given as characters.
    pub fn get_chars<'a>(&'a self, key: &[char]) -> (r: Option<&'a JsonValue>)
        ensures
            match r {
                Some(v) => self@.member(key@) == Some(v@),
                None => self@.member(key@) is None,
            },
    {
        let k = crate::text::string_from_chars(key);
        match self.get(k.as_str()) {
            Some(v) => Some(v),
            None => None,
        }
    }
}

/// Appending text without a separator extends the last piece.
pub proof fn lemma_split_on_append(a: Seq<char>, b: Seq<char>, sep: char)
    requires
        forall|i: int| 0 <= i < b.len() ==> b[i] != sep,
    ensures
        split_on(a + b, sep) == split_on(a, sep).update(
            split_on(a, sep).len() - 1,
            split_on(a, sep).last() + b,
        ),
    decreases b.len(),
{
    lemma_split_on_len(a, sep);
    if b.len() == 0 {
        assert(a + b =~= a);
        assert(split_on(a, sep).last() + b =~= split_on(a, sep).last());
        assert(split_on(a, sep).update(split_on(a, sep).len() - 1, split_on(a, sep).last()) =~= split_on(a, sep));
    } else {
        let b0 = b.drop_last();
        lemma_split_on_append(a, b0, sep);
        assert((a + b).drop_last() =~= a + b0);
        assert((a + b).last() == b.last());
        let p = split_on(a, sep);
        let q = split_on(a + b0, sep);
        assert(q == p.update(p.len() - 1, p.last() + b0));
        assert(q.len() == p.len());
        assert(q.last() == p.last() + b0);
        assert(b.last() != sep);
        assert(split_on(a + b, sep) == q.update(q.len() - 1, q.last().push(b.last())));
        assert((p.last() + b0).push(b.last()) =~= p.last() + b);
        assert(split_on(a + b, sep) =~= p.update(p.len() - 1, p.last() + b));
    }
}

/// Appending a separator starts an empty piece.
pub proof fn lemma_split_on_sep(a: Seq<char>, sep: char)
    ensures
        split_on(a.push(sep), sep) == split_on(a, sep).push(Seq::empty()),
{
    assert(a.push(sep).drop_last() =~= a);
}

/// A text without the first character of the pair is left as it is.
pub proof fn lemma_replace_pair_absent(s: Seq<char>, a: char, b: char, r: char)
    requires
        forall|i: int| 0 <= i < s.len() ==> s[i] != a,
    ensures
        replace_pair(s, a, b, r) == s,
    decreases s.len(),
{
    if s.len() >= 2 {
        let t = s.subrange(1, s.len() as int);
        lemma_replace_pair_absent(t, a, b, r);
        assert(seq![s[0]] + t =~= s);
    }
}

/// A token without `~` needs no unescaping.
pub proof fn lemma_unescape_plain(t: Seq<char>)
    requires
        forall|i: int| 0 <= i < t.len() ==> t[i] != '~',
    ensures
        unescape(t) == t,
{
    lemma_replace_pair_absent(t, '~', '1', '/');
    lemma_replace_pair_absent(t, '~', '0', '~');
}

/// Following two token lists in turn is following their concatenation.
pub proof fn lemma_pointer_get_concat(v: Json, t1: Seq<Seq<char>>, t2: Seq<Seq<char>>)
    ensures
        pointer_get(v, t1 + t2) == match pointer_get(v, t1) {
            Some(x) => pointer_get(x, t2),
            None => None,
        },
    decreases t1.len(),
{
    if t1.len() == 0 {
        assert(t1 + t2 =~= t2);
    } else {
        assert((t1 + t2).drop_first() =~= t1.drop_first() + t2);
        assert((t1 + t2)[0] == t1[0]);
        match v {
            Json::Object(m) => match members_get(m, t1[0]) {
                Some(x) => lemma_pointer_get_concat(x, t1.drop_first(), t2),
                None => {},
            },
            Json::Array(a) => match spec_parse_index(t1[0]) {
                Some(i) => if i < a.len() {
                    lemma_pointer_get_concat(a[i as int], t1.drop_first(), t2);
                },
                None => {},
            },
            _ => {},
        }
    }
}

} // verus!
