//! Character-level text utilities with exact specifications.
use vstd::prelude::*;

verus! {

broadcast use vstd::string::group_string_axioms;

/// The characters of a string slice, in order.
pub fn chars_of(s: &str) -> (v: Vec<char>)
    ensures
        v@ == s@,
{
    let mut v: Vec<char> = Vec::new();
    for c in it: s.chars()
        invariant
            it.seq() == s@,
            v@ == s@.take(it.index()),
    {
        v.push(c);
        assert(v@ =~= s@.take(it.index() + 1));
    }
    assert(v@ =~= s@);
    v
}

} // verus!

verus! {

/// Whether two string slices hold the same characters.
pub fn str_eq(a: &str, b: &str) -> (r: bool)
    ensures
        r == (a@ == b@),
{
    let x = chars_of(a);
    let y = chars_of(b);
    chars_eq(&x, &y)
}

/// Whether two character slices are equal.
pub fn chars_eq(x: &[char], y: &[char]) -> (r: bool)
    ensures
        r == (x@ == y@),
{
    if x.len() != y.len() {
        return false;
    }
    let mut i: usize = 0;
    while i < x.len()
        invariant
            x@.len() == y@.len(),
            i <= x@.len(),
            forall|j: int| 0 <= j < i ==> x@[j] == y@[j],
        decreases x@.len() - i,
    {
        if x[i] != y[i] {
            return false;
        }
        i = i + 1;
    }
    assert(x@ =~= y@);
    true
}

/// `String::push`: std documents that it appends the character to the end of the string,
/// which is all this states.
#[verifier::external_body]
pub(crate) fn push_char(s: &mut String, c: char)
    ensures
        final(s)@ == old(s)@.push(c),
{
    s.push(c);
}

/// Append a string slice to the end of a string.
pub(crate) fn push_str(s: &mut String, t: &str)
    ensures
        final(s)@ == old(s)@ + t@,
{
    s.append(t);
}

/// A string holding exactly the given characters.
pub fn string_from_chars(v: &[char]) -> (s: String)
    ensures
        s@ == v@,
{
    let mut s = String::new();
    let mut i: usize = 0;
    while i < v.len()
        invariant
            i <= v@.len(),
            s@ == v@.subrange(0, i as int),
        decreases v@.len() - i,
    {
        push_char(&mut s, v[i]);
        i = i + 1;
        assert(s@ =~= v@.subrange(0, i as int));
    }
    assert(v@.subrange(0, v@.len() as int) =~= v@);
    s
}

/// A copy of a string slice as an owned string.
pub fn owned(t: &str) -> (s: String)
    ensures
        s@ == t@,
{
    let mut s = String::new();
    push_str(&mut s, t);
    assert(s@ =~= t@);
    s
}

/// The concatenation of two string slices.
pub fn concat(a: &str, b: &str) -> (s: String)
    ensures
        s@ == a@ + b@,
{
    let mut s = String::new();
    push_str(&mut s, a);
    push_str(&mut s, b);
    assert(s@ =~= a@ + b@);
    s
}

} // verus!

verus! {

/// The decimal digit character for `d < 10`.
pub open spec fn digit_char(d: nat) -> char {
    if d == 0 { '0' } else if d == 1 { '1' } else if d == 2 { '2' } else if d == 3 { '3' }
    else if d == 4 { '4' } else if d == 5 { '5' } else if d == 6 { '6' } else if d == 7 { '7' }
    else if d == 8 { '8' } else { '9' }
}

/// The decimal digits of a natural number, without leading zeros.
pub open spec fn digits(n: nat) -> Seq<char>
    decreases n,
{
    if n < 10 {
        seq![digit_char(n)]
    } else {
        digits(n / 10).push(digit_char(n % 10))
    }
}

/// The decimal text of an integer (`i64::to_string`).
pub open spec fn decimal(n: int) -> Seq<char> {
    if n < 0 {
        seq!['-'] + digits((-n) as nat)
    } else {
        digits(n as nat)
    }
}

fn digit(d: u64) -> (c: char)
    requires
        d < 10,
    ensures
        c == digit_char(d as nat),
{
    if d == 0 { '0' } else if d == 1 { '1' } else if d == 2 { '2' } else if d == 3 { '3' }
    else if d == 4 { '4' } else if d == 5 { '5' } else if d == 6 { '6' } else if d == 7 { '7' }
    else if d == 8 { '8' } else { '9' }
}

fn push_digits(s: &mut String, n: u64)
    ensures
        final(s)@ == old(s)@ + digits(n as nat),
    decreases n,
{
    if n >= 10 {
        push_digits(s, n / 10);
    }
    push_char(s, digit(n % 10));
    assert(final(s)@ =~= old(s)@ + digits(n as nat)) by {
        if n >= 10 {
            assert(digits(n as nat) == digits((n / 10) as nat).push(digit_char((n % 10) as nat)));
        }
    }
}

/// The decimal text of a `usize`.
pub fn usize_to_string(n: usize) -> (s: String)
    ensures
        s@ == digits(n as nat),
{
    let mut s = String::new();
    push_digits(&mut s, n as u64);
    assert(s@ =~= digits(n as nat));
    s
}

/// The decimal text of an `i64`.
pub fn i64_to_string(n: i64) -> (s: String)
    ensures
        s@ == decimal(n as int),
{
    let mut s = String::new();
    if n < 0 {
        push_char(&mut s, '-');
        let m: u64 = if n == i64::MIN {
            0x8000_0000_0000_0000u64
        } else {
            (-n) as u64
        };
        push_digits(&mut s, m);
    } else {
        push_digits(&mut s, n as u64);
    }
    assert(s@ =~= decimal(n as int));
    s
}

} // verus!

verus! {

/// Unicode `White_Space` (`char::is_whitespace`).
pub open spec fn is_white_space(c: char) -> bool {
    ('\u{9}' <= c && c <= '\u{d}') || c == ' ' || c == '\u{85}' || c == '\u{a0}' || c == '\u{1680}'
        || ('\u{2000}' <= c && c <= '\u{200a}') || c == '\u{2028}' || c == '\u{2029}' || c
        == '\u{202f}' || c == '\u{205f}' || c == '\u{3000}'
}

/// Whether a character is white space.
pub fn is_whitespace(c: char) -> (b: bool)
    ensures
        b == is_white_space(c),
{
    ('\u{9}' <= c && c <= '\u{d}') || c == ' ' || c == '\u{85}' || c == '\u{a0}' || c == '\u{1680}'
        || ('\u{2000}' <= c && c <= '\u{200a}') || c == '\u{2028}' || c == '\u{2029}' || c
        == '\u{202f}' || c == '\u{205f}' || c == '\u{3000}'
}

/// `s` without leading white space.
pub open spec fn trim_start(s: Seq<char>) -> Seq<char>
    decreases s.len(),
{
    if s.len() > 0 && is_white_space(s[0]) {
        trim_start(s.drop_first())
    } else {
        s
    }
}

/// `s` without trailing white space.
pub open spec fn trim_end(s: Seq<char>) -> Seq<char>
    decreases s.len(),
{
    if s.len() > 0 && is_white_space(s.last()) {
        trim_end(s.drop_last())
    } else {
        s
    }
}

/// `s` without leading and trailing white space (`str::trim`).
pub open spec fn trim(s: Seq<char>) -> Seq<char> {
    trim_end(trim_start(s))
}

/// Skipping `i` leading white-space characters does not change the start trim.
pub proof fn lemma_trim_start_skip(s: Seq<char>, i: int)
    requires
        0 <= i <= s.len(),
        forall|j: int| 0 <= j < i ==> is_white_space(#[trigger] s[j]),
    ensures
        trim_start(s) == trim_start(s.subrange(i, s.len() as int)),
    decreases i,
{
    if i > 0 {
        lemma_trim_start_skip(s.drop_first(), i - 1);
        assert(s.drop_first().subrange(i - 1, s.len() - 1) =~= s.subrange(i, s.len() as int));
    } else {
        assert(s.subrange(0, s.len() as int) =~= s);
    }
}

/// Dropping `n` trailing white-space characters does not change the end trim.
pub proof fn lemma_trim_end_skip(s: Seq<char>, n: int)
    requires
        0 <= n <= s.len(),
        forall|j: int| n <= j < s.len() ==> is_white_space(#[trigger] s[j]),
    ensures
        trim_end(s) == trim_end(s.subrange(0, n)),
    decreases s.len() - n,
{
    if n < s.len() {
        lemma_trim_end_skip(s.drop_last(), n);
        assert(s.drop_last().subrange(0, n) =~= s.subrange(0, n));
    } else {
        assert(s.subrange(0, n) =~= s);
    }
}

/// The characters of `s` without leading and trailing white space.
pub fn trim_chars(s: &[char]) -> (r: Vec<char>)
    ensures
        r@ == trim(s@),
{
    let n = s.len();
    let mut i: usize = 0;
    while i < n && is_whitespace(s[i])
        invariant
            n == s@.len(),
            i <= n,
            forall|j: int| 0 <= j < i ==> is_white_space(#[trigger] s@[j]),
        decreases n - i,
    {
        i = i + 1;
    }
    proof {
        lemma_trim_start_skip(s@, i as int);
    }
    let ghost t = s@.subrange(i as int, n as int);
    assert(trim_start(t) == t);
    let mut k: usize = n;
    while k > i && is_whitespace(s[k - 1])
        invariant
            n == s@.len(),
            i <= k <= n,
            forall|j: int| k <= j < n ==> is_white_space(#[trigger] s@[j]),
        decreases k,
    {
        k = k - 1;
    }
    proof {
        lemma_trim_end_skip(t, (k - i) as int);
        assert forall|j: int| (k - i) <= j < t.len() implies is_white_space(#[trigger] t[j]) by {
            assert(t[j] == s@[i + j]);
        }
        let u = t.subrange(0, (k - i) as int);
        assert(u.len() == 0 || !is_white_space(u.last()));
    }
    let mut r: Vec<char> = Vec::new();
    let mut j: usize = i;
    while j < k
        invariant
            n == s@.len(),
            i <= j <= k <= n,
            r@ == s@.subrange(i as int, j as int),
        decreases k - j,
    {
        r.push(s[j]);
        j = j + 1;
        assert(r@ =~= s@.subrange(i as int, j as int));
    }
    assert(r@ =~= t.subrange(0, (k - i) as int));
    r
}

/// Whether the characters, without surrounding white space, are empty.
pub fn is_blank(s: &[char]) -> (b: bool)
    ensures
        b == (trim(s@).len() == 0),
{
    let t = trim_chars(s);
    t.len() == 0
}

} // verus!

verus! {

/// Position of the first line feed in `s`, or -1.
pub open spec fn first_newline(s: Seq<char>) -> int
    decreases s.len(),
{
    if s.len() == 0 {
        -1
    } else if s[0] == '\n' {
        0
    } else {
        let r = first_newline(s.drop_first());
        if r < 0 {
            -1
        } else {
            r + 1
        }
    }
}

pub proof fn lemma_first_newline(s: Seq<char>)
    ensures
        -1 <= first_newline(s) < s.len(),
        first_newline(s) >= 0 ==> s[first_newline(s)] == '\n',
        forall|j: int| 0 <= j < s.len() && (first_newline(s) < 0 || j < first_newline(s)) ==> s[j] != '\n',
    decreases s.len(),
{
    if s.len() > 0 {
        lemma_first_newline(s.drop_first());
        assert forall|j: int| 1 <= j < s.len() implies s[j] == s.drop_first()[j - 1] by {}
    }
}

pub proof fn lemma_first_newline_at(s: Seq<char>, i: int)
    requires
        0 <= i <= s.len(),
        forall|j: int| 0 <= j < i ==> s[j] != '\n',
        i == s.len() || s[i] == '\n',
    ensures
        first_newline(s) == if i == s.len() { -1 } else { i },
{
    lemma_first_newline(s);
}

/// `s` without one trailing carriage return.
pub open spec fn strip_cr(s: Seq<char>) -> Seq<char> {
    if s.len() > 0 && s.last() == '\r' {
        s.drop_last()
    } else {
        s
    }
}

/// The lines of `s` (`str::lines`): split after each line feed, which is dropped together
/// with a carriage return just before it; no empty line follows a final line feed.
pub open spec fn lines(s: Seq<char>) -> Seq<Seq<char>>
    decreases s.len(),
{
    if s.len() == 0 {
        Seq::empty()
    } else {
        let k = first_newline(s);
        if k < 0 {
            seq![s]
        } else {
            proof {
                lemma_first_newline(s);
            }
            seq![strip_cr(s.subrange(0, k))] + lines(s.subrange(k + 1, s.len() as int))
        }
    }
}

/// The models of a list of character vectors.
pub open spec fn vecs_model(v: Seq<Vec<char>>) -> Seq<Seq<char>> {
    v.map_values(|x: Vec<char>| x@)
}

/// The characters `s[a..b]`.
pub fn sub_chars(s: &[char], a: usize, b: usize) -> (r: Vec<char>)
    requires
        a <= b <= s@.len(),
    ensures
        r@ == s@.subrange(a as int, b as int),
{
    let mut r: Vec<char> = Vec::new();
    let mut j: usize = a;
    while j < b
        invariant
            a <= j <= b <= s@.len(),
            r@ == s@.subrange(a as int, j as int),
        decreases b - j,
    {
        r.push(s[j]);
        j = j + 1;
        assert(r@ =~= s@.subrange(a as int, j as int));
    }
    r
}

/// The lines of a character slice.
pub fn split_lines(s: &[char]) -> (r: Vec<Vec<char>>)
    ensures
        vecs_model(r@) == lines(s@),
{
    let n = s.len();
    let mut out: Vec<Vec<char>> = Vec::new();
    let mut start: usize = 0;
    let mut i: usize = 0;
    assert(s@.subrange(0, n as int) =~= s@);
    assert(vecs_model(out@) =~= Seq::<Seq<char>>::empty());
    assert(vecs_model(out@) + lines(s@) =~= lines(s@));
    while i < n
        invariant
            n == s@.len(),
            start <= i <= n,
            forall|j: int| start <= j < i ==> s@[j] != '\n',
            lines(s@) == vecs_model(out@) + lines(s@.subrange(start as int, n as int)),
        decreases n - i,
    {
        if s[i] == '\n' {
            let ghost t = s@.subrange(start as int, n as int);
            proof {
                lemma_first_newline_at(t, (i - start) as int);
                assert(t.subrange(0, (i - start) as int) =~= s@.subrange(start as int, i as int));
                assert(t.subrange((i - start) + 1, t.len() as int) =~= s@.subrange(i + 1, n as int));
            }
            let mut line = sub_chars(s, start, i);
            if line.len() > 0 && line[line.len() - 1] == '\r' {
                line.pop();
            }
            assert(line@ == strip_cr(s@.subrange(start as int, i as int)));
            let ghost before = out@;
            out.push(line);
            assert(vecs_model(out@) =~= vecs_model(before).push(line@));
            start = i + 1;
        }
        i = i + 1;
    }
    let ghost t = s@.subrange(start as int, n as int);
    if start < n {
        proof {
            lemma_first_newline_at(t, t.len() as int);
        }
        let line = sub_chars(s, start, n);
        let ghost before = out@;
        out.push(line);
        assert(vecs_model(out@) =~= vecs_model(before).push(line@));
    }
    out
}

} // verus!

verus! {

/// Whether `s` holds no line feed.
pub open spec fn no_newline(s: Seq<char>) -> bool {
    forall|j: int| 0 <= j < s.len() ==> s[j] != '\n'
}

/// The lines of a text without a line feed: the text itself, unless it is empty.
pub proof fn lemma_lines_single(s: Seq<char>)
    requires
        no_newline(s),
    ensures
        lines(s) == if s.len() == 0 { Seq::<Seq<char>>::empty() } else { seq![s] },
{
    if s.len() > 0 {
        lemma_first_newline_at(s, s.len() as int);
    }
}

/// Lines hold no line feed.
pub proof fn lemma_lines_no_newline(s: Seq<char>)
    ensures
        forall|i: int| 0 <= i < lines(s).len() ==> no_newline(#[trigger] lines(s)[i]),
    decreases s.len(),
{
    if s.len() > 0 {
        lemma_first_newline(s);
        let k = first_newline(s);
        if k >= 0 {
            let rest = s.subrange(k + 1, s.len() as int);
            lemma_lines_no_newline(rest);
            let first = strip_cr(s.subrange(0, k));
            assert(no_newline(first));
            assert forall|i: int| 0 <= i < lines(s).len() implies no_newline(#[trigger] lines(s)[i]) by {
                if i > 0 {
                    assert(lines(s)[i] == lines(rest)[i - 1]);
                }
            }
        }
    }
}

/// The last line of `a`, a line feed and a one-line `b` is `b`.
pub proof fn lemma_lines_append_line(a: Seq<char>, b: Seq<char>)
    requires
        b.len() > 0,
        no_newline(b),
    ensures
        lines(a + seq!['\n'] + b).len() > 0,
        lines(a + seq!['\n'] + b).last() == b,
    decreases a.len(),
{
    let s = a + seq!['\n'] + b;
    lemma_first_newline(s);
    lemma_first_newline(a);
    let ka = first_newline(a);
    if ka >= 0 {
        lemma_first_newline_at(s, ka);
        let rest_a = a.subrange(ka + 1, a.len() as int);
        assert(s.subrange(ka + 1, s.len() as int) =~= rest_a + seq!['\n'] + b);
        lemma_lines_append_line(rest_a, b);
    } else {
        lemma_first_newline_at(s, a.len() as int);
        assert(s.subrange(a.len() as int + 1, s.len() as int) =~= b);
        lemma_lines_single(b);
    }
}

/// Removing a trailing carriage return does not change the trimmed text.
pub proof fn lemma_trim_strip_cr(s: Seq<char>)
    ensures
        trim(strip_cr(s)) == trim(s),
{
    if s.len() > 0 && s.last() == '\r' {
        let t = trim_start(s);
        let t2 = trim_start(s.drop_last());
        lemma_trim_start_drop_last_ws(s);
    }
}

/// Trimming a text that ends with white space: the trailing character does not matter.
proof fn lemma_trim_start_drop_last_ws(s: Seq<char>)
    requires
        s.len() > 0,
        is_white_space(s.last()),
    ensures
        trim_end(trim_start(s)) == trim_end(trim_start(s.drop_last())),
    decreases s.len(),
{
    if s.len() > 1 && is_white_space(s[0]) {
        lemma_trim_start_drop_last_ws(s.drop_first());
        assert(s.drop_first().drop_last() =~= s.drop_last().drop_first());
    } else if is_white_space(s[0]) {
        assert(s.drop_first() =~= Seq::<char>::empty());
        assert(s.drop_last() =~= Seq::<char>::empty());
    } else {
        assert(trim_start(s) == s);
        assert(s.drop_last().len() == 0 || trim_start(s.drop_last()) == s.drop_last());
        assert(trim_end(s) == trim_end(s.drop_last()));
    }
}

} // verus!

verus! {

/// The lines of a text with a line feed after `a`: those of `a` with that line feed, then
/// those of what follows it.
pub proof fn lemma_lines_split(a: Seq<char>, c: Seq<char>)
    ensures
        lines(a + seq!['\n'] + c) == lines(a + seq!['\n']) + lines(c),
    decreases a.len(),
{
    let s = a + seq!['\n'] + c;
    let t = a + seq!['\n'];
    lemma_first_newline(a);
    let ka = first_newline(a);
    if ka >= 0 {
        lemma_first_newline_at(s, ka);
        lemma_first_newline_at(t, ka);
        let ra = a.subrange(ka + 1, a.len() as int);
        assert(s.subrange(ka + 1, s.len() as int) =~= ra + seq!['\n'] + c);
        assert(t.subrange(ka + 1, t.len() as int) =~= ra + seq!['\n']);
        assert(s.subrange(0, ka) =~= t.subrange(0, ka));
        lemma_lines_split(ra, c);
        assert(lines(s) =~= lines(t) + lines(c));
    } else {
        lemma_first_newline_at(s, a.len() as int);
        lemma_first_newline_at(t, a.len() as int);
        assert(s.subrange(a.len() as int + 1, s.len() as int) =~= c);
        assert(t.subrange(a.len() as int + 1, t.len() as int) =~= Seq::<char>::empty());
        assert(s.subrange(0, a.len() as int) =~= t.subrange(0, a.len() as int));
        assert(lines(Seq::<char>::empty()) =~= Seq::<Seq<char>>::empty());
        assert(t.subrange(0, a.len() as int) =~= a);
        assert(s.subrange(0, a.len() as int) =~= a);
        assert(lines(t) =~= seq![strip_cr(a)]);
        assert(lines(s) =~= lines(t) + lines(c));
    }
}

/// A line feed added after a text that does not end in a carriage return: an empty last line
/// when the text already ended in a line feed, and otherwise the same lines.
pub proof fn lemma_lines_push_newline(a: Seq<char>)
    requires
        a.len() > 0,
        a.last() != '\r',
    ensures
        lines(a + seq!['\n']) == if a.last() == '\n' {
            lines(a).push(Seq::<char>::empty())
        } else {
            lines(a)
        },
    decreases a.len(),
{
    let t = a + seq!['\n'];
    lemma_first_newline(a);
    let ka = first_newline(a);
    if ka >= 0 {
        lemma_first_newline_at(t, ka);
        let ra = a.subrange(ka + 1, a.len() as int);
        assert(t.subrange(ka + 1, t.len() as int) =~= ra + seq!['\n']);
        assert(t.subrange(0, ka) =~= a.subrange(0, ka));
        if ra.len() == 0 {
            let nl = seq!['\n'];
            lemma_first_newline_at(nl, 0);
            assert(nl.subrange(1, 1) =~= Seq::<char>::empty());
            assert(nl.subrange(0, 0) =~= Seq::<char>::empty());
            assert(ra + seq!['\n'] =~= nl);
            assert(lines(Seq::<char>::empty()) =~= Seq::<Seq<char>>::empty());
            assert(strip_cr(Seq::<char>::empty()) =~= Seq::<char>::empty());
            assert(lines(nl) =~= seq![Seq::<char>::empty()]);
            assert(lines(ra) =~= Seq::<Seq<char>>::empty());
            assert(lines(t) =~= lines(a).push(Seq::<char>::empty()));
        } else {
            assert(ra.last() == a.last());
            lemma_lines_push_newline(ra);
            assert(lines(t) =~= if a.last() == '\n' {
                lines(a).push(Seq::<char>::empty())
            } else {
                lines(a)
            });
        }
    } else {
        lemma_first_newline_at(t, a.len() as int);
        lemma_lines_single(a);
        assert(t.subrange(0, a.len() as int) =~= a);
        assert(t.subrange(a.len() as int + 1, t.len() as int) =~= Seq::<char>::empty());
        assert(lines(Seq::<char>::empty()) =~= Seq::<Seq<char>>::empty());
        assert(strip_cr(a) == a);
        assert(lines(t) =~= lines(a));
    }
}

} // verus!
