//! Lexicographic order on texts, and lists sorted by a text key (as a `BTreeMap` keeps them).
use vstd::prelude::*;

use crate::text::chars_of;
use vstd::multiset::Multiset;

verus! {

broadcast use vstd::seq_lib::group_to_multiset_ensures;

/// Whether `a` comes before `b`: character by character, a proper prefix first.
/// (UTF-8 byte order, which `String`'s `Ord` uses, is the order of the characters.)
pub open spec fn text_lt(a: Seq<char>, b: Seq<char>) -> bool
    decreases a.len(),
{
    if a.len() == 0 {
        b.len() > 0
    } else if b.len() == 0 {
        false
    } else if a[0] != b[0] {
        a[0] < b[0]
    } else {
        text_lt(a.drop_first(), b.drop_first())
    }
}

pub proof fn lemma_text_lt_irreflexive(a: Seq<char>)
    ensures
        !text_lt(a, a),
    decreases a.len(),
{
    if a.len() > 0 {
        lemma_text_lt_irreflexive(a.drop_first());
    }
}

pub proof fn lemma_text_lt_transitive(a: Seq<char>, b: Seq<char>, c: Seq<char>)
    requires
        text_lt(a, b),
        text_lt(b, c),
    ensures
        text_lt(a, c),
    decreases a.len(),
{
    if a.len() > 0 && b.len() > 0 && c.len() > 0 && a[0] == b[0] && b[0] == c[0] {
        lemma_text_lt_transitive(a.drop_first(), b.drop_first(), c.drop_first());
    }
}

/// Two different texts are ordered one way or the other.
pub proof fn lemma_text_lt_total(a: Seq<char>, b: Seq<char>)
    ensures
        a == b || text_lt(a, b) || text_lt(b, a),
    decreases a.len(),
{
    if a.len() == 0 && b.len() == 0 {
        assert(a =~= b);
    } else if a.len() > 0 && b.len() > 0 && a[0] == b[0] {
        let ta = a.drop_first();
        let tb = b.drop_first();
        lemma_text_lt_total(ta, tb);
        if ta == tb {
            assert(a.len() == b.len());
            assert forall|k: int| 0 <= k < a.len() implies a[k] == b[k] by {
                if k > 0 {
                    assert(a[k] == ta[k - 1]);
                    assert(b[k] == tb[k - 1]);
                }
            }
            assert(a =~= b);
        }
    }
}

/// Whether `a` comes before `b`.
pub fn str_lt(a: &str, b: &str) -> (r: bool)
    ensures
        r == text_lt(a@, b@),
{
    let x = chars_of(a);
    let y = chars_of(b);
    let mut i: usize = 0;
    assert(x@.subrange(0, x@.len() as int) =~= x@);
    assert(y@.subrange(0, y@.len() as int) =~= y@);
    while i < x.len() && i < y.len() && x[i] == y[i]
        invariant
            i <= x@.len(),
            i <= y@.len(),
            text_lt(x@, y@) == text_lt(x@.subrange(i as int, x@.len() as int), y@.subrange(i as int, y@.len() as int)),
        decreases x@.len() - i,
    {
        let ghost xs = x@.subrange(i as int, x@.len() as int);
        let ghost ys = y@.subrange(i as int, y@.len() as int);
        assert(xs.drop_first() =~= x@.subrange(i + 1, x@.len() as int));
        assert(ys.drop_first() =~= y@.subrange(i + 1, y@.len() as int));
        i = i + 1;
    }
    proof {
        let xs = x@.subrange(i as int, x@.len() as int);
        let ys = y@.subrange(i as int, y@.len() as int);
        if i < x@.len() && i < y@.len() {
            assert(xs[0] == x@[i as int] && ys[0] == y@[i as int]);
        }
    }
    if i == x.len() {
        i < y.len()
    } else if i == y.len() {
        false
    } else {
        x[i] < y[i]
    }
}

/// A value found by a text key.
pub trait Keyed: Sized {
    spec fn key_of(&self) -> Seq<char>;

    fn key(&self) -> (r: &str)
        ensures
            r@ == self.key_of(),
    ;
}

/// Keys in increasing order.
pub open spec fn keys_sorted<T: Keyed>(s: Seq<T>) -> bool {
    forall|i: int, j: int| 0 <= i < j < s.len() ==> text_lt(#[trigger] s[i].key_of(), #[trigger] s[j].key_of())
}

/// No two items share a key.
pub open spec fn keys_distinct<T: Keyed>(s: Seq<T>) -> bool {
    forall|i: int, j: int| 0 <= i < s.len() && 0 <= j < s.len() && i != j ==> #[trigger] s[i].key_of() != #[trigger] s[j].key_of()
}

/// Position of the item with the smallest key.
fn min_key_index<T: Keyed>(v: &Vec<T>) -> (m: usize)
    requires
        v@.len() > 0,
        keys_distinct(v@),
    ensures
        m < v@.len(),
        forall|j: int| 0 <= j < v@.len() && j != m ==> text_lt(v@[m as int].key_of(), #[trigger] v@[j].key_of()),
{
    let mut m: usize = 0;
    let mut i: usize = 1;
    while i < v.len()
        invariant
            m < i <= v@.len(),
            keys_distinct(v@),
            forall|j: int| 0 <= j < i && j != m ==> text_lt(v@[m as int].key_of(), #[trigger] v@[j].key_of()),
        decreases v@.len() - i,
    {
        if str_lt(v[i].key(), v[m].key()) {
            proof {
                assert forall|j: int| 0 <= j < i + 1 && j != i implies text_lt(v@[i as int].key_of(), #[trigger] v@[j].key_of()) by {
                    if j != m {
                        lemma_text_lt_transitive(v@[i as int].key_of(), v@[m as int].key_of(), v@[j].key_of());
                    }
                }
            }
            m = i;
        } else {
            proof {
                lemma_text_lt_total(v@[i as int].key_of(), v@[m as int].key_of());
            }
        }
        i = i + 1;
    }
    m
}

/// Sort items with distinct keys by key.
pub fn sort_by_key<T: Keyed>(v: Vec<T>) -> (r: Vec<T>)
    requires
        keys_distinct(v@),
    ensures
        keys_sorted(r@),
        r@.to_multiset() == v@.to_multiset(),
{
    let mut rest = v;
    let mut out: Vec<T> = Vec::new();
    while rest.len() > 0
        invariant
            keys_sorted(out@),
            keys_distinct(rest@),
            out@.to_multiset().add(rest@.to_multiset()) == v@.to_multiset(),
            forall|i: int, j: int| 0 <= i < out@.len() && 0 <= j < rest@.len() ==> text_lt(#[trigger] out@[i].key_of(), #[trigger] rest@[j].key_of()),
        decreases rest@.len(),
    {
        let m = min_key_index(&rest);
        let ghost before = rest@;
        let ghost out0 = out@;
        let x = rest.remove(m);
        proof {
            assert(rest@ == before.remove(m as int));
            assert forall|j: int| 0 <= j < rest@.len() implies text_lt(x.key_of(), #[trigger] rest@[j].key_of()) by {
                if j < m {
                    assert(rest@[j] == before[j]);
                } else {
                    assert(rest@[j] == before[j + 1]);
                }
            }
            assert forall|i: int, j: int| 0 <= i < rest@.len() && 0 <= j < rest@.len() && i != j implies #[trigger] rest@[i].key_of() != #[trigger] rest@[j].key_of() by {
                let bi = if i < m { i } else { i + 1 };
                let bj = if j < m { j } else { j + 1 };
                assert(rest@[i] == before[bi]);
                assert(rest@[j] == before[bj]);
            }
        }
        out.push(x);
        proof {
            assert(out@ == out0.push(x));
            assert forall|i: int, j: int| 0 <= i < j < out@.len() implies text_lt(#[trigger] out@[i].key_of(), #[trigger] out@[j].key_of()) by {
                if j == out@.len() - 1 {
                    assert(out@[j] == x);
                    assert(out@[i] == out0[i]);
                    assert(text_lt(out0[i].key_of(), before[m as int].key_of()));
                } else {
                    assert(out@[i] == out0[i] && out@[j] == out0[j]);
                }
            }
            assert forall|i: int, j: int| 0 <= i < out@.len() && 0 <= j < rest@.len() implies text_lt(#[trigger] out@[i].key_of(), #[trigger] rest@[j].key_of()) by {
                let bj = if j < m { j } else { j + 1 };
                assert(rest@[j] == before[bj]);
                if i < out0.len() {
                    assert(out@[i] == out0[i]);
                } else {
                    assert(out@[i] == x);
                }
            }
            assert(before.to_multiset() == rest@.to_multiset().insert(x));
            assert(out@.to_multiset() == out0.to_multiset().insert(x));
            assert(out@.to_multiset().add(rest@.to_multiset()) =~= out0.to_multiset().add(before.to_multiset()));
        }
    }
    assert(rest@.to_multiset() =~= Multiset::empty());
    assert(out@.to_multiset().add(rest@.to_multiset()) =~= out@.to_multiset());
    out
}

} // verus!
