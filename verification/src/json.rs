//! A JSON document model: the values that Preferences and Local State hold.
use vstd::prelude::*;

verus! {

broadcast use vstd::std_specs::vec::group_vec_axioms;

/// The mathematical content of a JSON value.
pub enum Json {
    Null,
    Bool(bool),
    Int(i64),
    UInt(u64),
    Float(Seq<char>),
    Str(Seq<char>),
    Array(Seq<Json>),
    Object(Seq<(Seq<char>, Json)>),
}

/// A JSON value. Numbers that fit an `i64` are `Int`, larger non-negative
/// integers are `UInt`, and every other number keeps its decimal text in `Float`.
/// An object lists its members in order; a key is looked up at its first occurrence.
#[derive(Debug)]
pub enum JsonValue {
    Null,
    Bool(bool),
    Int(i64),
    UInt(u64),
    Float(String),
    Str(String),
    Array(Vec<JsonValue>),
    Object(Vec<(String, JsonValue)>),
}

impl JsonValue {
    pub open spec fn model(self) -> Json
        decreases self,
    {
        match self {
            JsonValue::Null => Json::Null,
            JsonValue::Bool(b) => Json::Bool(b),
            JsonValue::Int(n) => Json::Int(n),
            JsonValue::UInt(n) => Json::UInt(n),
            JsonValue::Float(s) => Json::Float(s@),
            JsonValue::Str(s) => Json::Str(s@),
            JsonValue::Array(a) => Json::Array(Self::model_items(a@)),
            JsonValue::Object(o) => Json::Object(Self::model_members(o@)),
        }
    }

    pub open spec fn model_items(s: Seq<JsonValue>) -> Seq<Json>
        decreases s,
    {
        if s.len() == 0 {
            Seq::empty()
        } else {
            Self::model_items(s.subrange(0, s.len() - 1)).push(s[s.len() - 1].model())
        }
    }

    pub open spec fn model_members(s: Seq<(String, JsonValue)>) -> Seq<(Seq<char>, Json)>
        decreases s,
    {
        if s.len() == 0 {
            Seq::empty()
        } else {
            Self::model_members(s.subrange(0, s.len() - 1)).push(
                (s[s.len() - 1].0@, s[s.len() - 1].1.model()),
            )
        }
    }
}

impl View for JsonValue {
    type V = Json;

    open spec fn view(&self) -> Json {
        self.model()
    }
}

} // verus!

verus! {

/// Index of the first member whose key is `k`, or -1 when there is none.
pub open spec fn member_index(m: Seq<(Seq<char>, Json)>, k: Seq<char>) -> int
    decreases m.len(),
{
    if m.len() == 0 {
        -1
    } else {
        let r = member_index(m.drop_last(), k);
        if r >= 0 {
            r
        } else if m.last().0 == k {
            m.len() - 1
        } else {
            -1
        }
    }
}

/// The value of the first member with key `k`.
pub open spec fn members_get(m: Seq<(Seq<char>, Json)>, k: Seq<char>) -> Option<Json> {
    let i = member_index(m, k);
    if i >= 0 {
        Some(m[i].1)
    } else {
        None
    }
}

/// Replace the value of the first member with key `k`, or append a new member.
pub open spec fn members_set(m: Seq<(Seq<char>, Json)>, k: Seq<char>, v: Json) -> Seq<(Seq<char>, Json)> {
    let i = member_index(m, k);
    if i >= 0 {
        m.update(i, (k, v))
    } else {
        m.push((k, v))
    }
}

/// The members whose key is not `k`, in order.
pub open spec fn members_remove(m: Seq<(Seq<char>, Json)>, k: Seq<char>) -> Seq<(Seq<char>, Json)>
    decreases m.len(),
{
    if m.len() == 0 {
        m
    } else if m.last().0 == k {
        members_remove(m.drop_last(), k)
    } else {
        members_remove(m.drop_last(), k).push(m.last())
    }
}

impl Json {
    /// The member `k` of an object; nothing for any other value.
    pub open spec fn member(self, k: Seq<char>) -> Option<Json> {
        match self {
            Json::Object(m) => members_get(m, k),
            _ => None,
        }
    }

    /// Assigning `self[k] = v`: `null` first becomes an empty object.
    pub open spec fn with_member(self, k: Seq<char>, v: Json) -> Json {
        match self {
            Json::Object(m) => Json::Object(members_set(m, k, v)),
            _ => Json::Object(seq![(k, v)]),
        }
    }

    /// Removing the key `k` from an object; any other value is unchanged.
    pub open spec fn without_member(self, k: Seq<char>) -> Json {
        match self {
            Json::Object(m) => Json::Object(members_remove(m, k)),
            _ => self,
        }
    }

    pub open spec fn is_object(self) -> bool {
        self is Object
    }

    /// Whether `self[k] = v` is defined: only objects and `null` can be indexed for assignment.
    pub open spec fn indexable(self) -> bool {
        self is Object || self is Null
    }

    pub open spec fn as_i64(self) -> Option<i64> {
        match self {
            Json::Int(n) => Some(n),
            Json::UInt(n) => if n <= i64::MAX { Some(n as i64) } else { None },
            _ => None,
        }
    }

    pub open spec fn as_u64(self) -> Option<u64> {
        match self {
            Json::Int(n) => if n >= 0 { Some(n as u64) } else { None },
            Json::UInt(n) => Some(n),
            _ => None,
        }
    }

    pub open spec fn as_str(self) -> Option<Seq<char>> {
        match self {
            Json::Str(s) => Some(s),
            _ => None,
        }
    }

    /// Indexing `self[k]`: `null` when the member is missing or `self` is not an object.
    pub open spec fn index(self, k: Seq<char>) -> Json {
        match self.member(k) {
            Some(v) => v,
            None => Json::Null,
        }
    }
}

/// A looked-up member: the first with key `k`, and no earlier one has that key.
pub proof fn lemma_member_index(m: Seq<(Seq<char>, Json)>, k: Seq<char>)
    ensures
        -1 <= member_index(m, k) < m.len(),
        member_index(m, k) >= 0 ==> m[member_index(m, k)].0 == k,
        forall|j: int| 0 <= j < m.len() && (member_index(m, k) < 0 || j < member_index(m, k))
            ==> m[j].0 != k,
    decreases m.len(),
{
    if m.len() > 0 {
        lemma_member_index(m.drop_last(), k);
        assert forall|j: int| 0 <= j < m.len() - 1 implies m[j] == m.drop_last()[j] by {}
    }
}

/// The first index found by a scan is the member index.
pub proof fn lemma_member_index_at(m: Seq<(Seq<char>, Json)>, k: Seq<char>, i: int)
    requires
        0 <= i <= m.len(),
        forall|j: int| 0 <= j < i ==> m[j].0 != k,
        i == m.len() || m[i].0 == k,
    ensures
        member_index(m, k) == if i == m.len() { -1 } else { i },
{
    lemma_member_index(m, k);
}

/// Reading a member back after writing it gives the value written; other members stay.
pub proof fn lemma_members_set_get(m: Seq<(Seq<char>, Json)>, k: Seq<char>, v: Json, k2: Seq<char>)
    ensures
        members_get(members_set(m, k, v), k2) == if k2 == k { Some(v) } else { members_get(m, k2) },
{
    lemma_member_index(m, k);
    lemma_member_index(m, k2);
    let i = member_index(m, k);
    let i2 = member_index(m, k2);
    let r = members_set(m, k, v);
    if i >= 0 {
        lemma_member_index_at(r, k, i);
        if k2 != k {
            lemma_member_index_at(r, k2, if i2 >= 0 { i2 } else { r.len() as int });
        }
    } else {
        lemma_member_index_at(r, k, m.len() as int);
        if k2 != k {
            lemma_member_index_at(r, k2, if i2 >= 0 { i2 } else { r.len() as int });
        }
    }
}

/// After removing a key it is absent; other members stay.
pub proof fn lemma_members_remove_get(m: Seq<(Seq<char>, Json)>, k: Seq<char>, k2: Seq<char>)
    ensures
        members_get(members_remove(m, k), k2) == if k2 == k { None } else { members_get(m, k2) },
    decreases m.len(),
{
    if m.len() > 0 {
        let p = m.drop_last();
        lemma_members_remove_get(p, k, k2);
        lemma_member_index(m, k2);
        lemma_member_index(p, k2);
        let rp = members_remove(p, k);
        let r = members_remove(m, k);
        lemma_member_index(rp, k2);
        lemma_member_index(r, k2);
        if m.last().0 != k {
            assert(r.drop_last() == rp);
        }
    }
}

} // verus!

verus! {

/// The model of a member list lines up with the list, member by member.
pub proof fn lemma_model_members(s: Seq<(String, JsonValue)>)
    ensures
        JsonValue::model_members(s).len() == s.len(),
        forall|i: int|
            0 <= i < s.len() ==> #[trigger] JsonValue::model_members(s)[i] == (s[i].0@, s[i].1@),
    decreases s.len(),
{
    if s.len() > 0 {
        let p = s.subrange(0, s.len() - 1);
        lemma_model_members(p);
        assert forall|i: int| 0 <= i < s.len() - 1 implies p[i] == s[i] by {}
    }
}

/// The model of an item list lines up with the list, item by item.
pub proof fn lemma_model_items(s: Seq<JsonValue>)
    ensures
        JsonValue::model_items(s).len() == s.len(),
        forall|i: int| 0 <= i < s.len() ==> #[trigger] JsonValue::model_items(s)[i] == s[i]@,
    decreases s.len(),
{
    if s.len() > 0 {
        let p = s.subrange(0, s.len() - 1);
        lemma_model_items(p);
        assert forall|i: int| 0 <= i < s.len() - 1 implies p[i] == s[i] by {}
    }
}

/// Two member lists with the same members have the same model.
pub proof fn lemma_model_members_ext(s: Seq<(String, JsonValue)>, t: Seq<(Seq<char>, Json)>)
    requires
        s.len() == t.len(),
        forall|i: int| 0 <= i < s.len() ==> (#[trigger] s[i]).0@ == t[i].0 && s[i].1@ == t[i].1,
    ensures
        JsonValue::model_members(s) == t,
{
    lemma_model_members(s);
    assert(JsonValue::model_members(s) =~= t);
}

/// Position of the first member with key `key` in a member list.
pub fn find_member(m: &Vec<(String, JsonValue)>, key: &str) -> (r: Option<usize>)
    ensures
        match r {
            Some(i) => member_index(JsonValue::model_members(m@), key@) == i,
            None => member_index(JsonValue::model_members(m@), key@) == -1,
        },
{
    let ghost mm = JsonValue::model_members(m@);
    proof {
        lemma_model_members(m@);
    }
    let mut i: usize = 0;
    while i < m.len()
        invariant
            i <= m@.len(),
            mm == JsonValue::model_members(m@),
            mm.len() == m@.len(),
            forall|j: int| 0 <= j < m@.len() ==> #[trigger] mm[j] == (m@[j].0@, m@[j].1@),
            forall|j: int| 0 <= j < i ==> mm[j].0 != key@,
        decreases m@.len() - i,
    {
        if crate::text::str_eq(m[i].0.as_str(), key) {
            proof {
                lemma_member_index_at(mm, key@, i as int);
            }
            return Some(i);
        }
        i = i + 1;
    }
    proof {
        lemma_member_index_at(mm, key@, mm.len() as int);
    }
    None
}

impl JsonValue {
    /// An empty object.
    pub fn new_object() -> (r: JsonValue)
        ensures
            r@ == Json::Object(Seq::empty()),
    {
        let r = JsonValue::Object(Vec::new());
        proof {
            lemma_model_members_ext(Seq::<(String, JsonValue)>::empty(), Seq::empty());
        }
        r
    }

    /// The member `key` of an object (`Value::get` with a string key).
    pub fn get<'a>(&'a self, key: &str) -> (r: Option<&'a JsonValue>)
        ensures
            match r {
                Some(v) => self@.member(key@) == Some(v@),
                None => self@.member(key@) is None,
            },
    {
        match self {
            JsonValue::Object(m) => {
                proof {
                    lemma_model_members(m@);
                    lemma_member_index(JsonValue::model_members(m@), key@);
                }
                match find_member(m, key) {
                    Some(i) => Some(&m[i].1),
                    None => None,
                }
            },
            _ => None,
        }
    }

    pub fn is_object(&self) -> (b: bool)
        ensures
            b == self@.is_object(),
    {
        match self {
            JsonValue::Object(_) => true,
            _ => false,
        }
    }

    pub fn is_null(&self) -> (b: bool)
        ensures
            b == (self@ is Null),
    {
        match self {
            JsonValue::Null => true,
            _ => false,
        }
    }

    pub fn as_i64(&self) -> (r: Option<i64>)
        ensures
            r == self@.as_i64(),
    {
        match self {
            JsonValue::Int(n) => Some(*n),
            JsonValue::UInt(n) => if *n <= 0x7fff_ffff_ffff_ffffu64 {
                Some(*n as i64)
            } else {
                None
            },
            _ => None,
        }
    }

    pub fn as_u64(&self) -> (r: Option<u64>)
        ensures
            r == self@.as_u64(),
    {
        match self {
            JsonValue::Int(n) => if *n >= 0 {
                Some(*n as u64)
            } else {
                None
            },
            JsonValue::UInt(n) => Some(*n),
            _ => None,
        }
    }

    pub fn as_str(&self) -> (r: Option<&String>)
        ensures
            match r {
                Some(s) => self@.as_str() == Some(s@),
                None => self@.as_str() is None,
            },
    {
        match self {
            JsonValue::Str(s) => Some(s),
            _ => None,
        }
    }

    pub fn as_array(&self) -> (r: Option<&Vec<JsonValue>>)
        ensures
            match r {
                Some(a) => self@ == Json::Array(JsonValue::model_items(a@)),
                None => !(self@ is Array),
            },
    {
        match self {
            JsonValue::Array(a) => Some(a),
            _ => None,
        }
    }

    pub fn as_object(&self) -> (r: Option<&Vec<(String, JsonValue)>>)
        ensures
            match r {
                Some(m) => self@ == Json::Object(JsonValue::model_members(m@)),
                None => !(self@ is Object),
            },
    {
        match self {
            JsonValue::Object(m) => Some(m),
            _ => None,
        }
    }

    /// Assignment `self[key] = value`; `null` becomes an object first.
    pub fn set(&mut self, key: String, value: JsonValue)
        requires
            old(self)@.indexable(),
        ensures
            final(self)@ == old(self)@.with_member(key@, value@),
    {
        let mut tmp = JsonValue::Null;
        std::mem::swap(self, &mut tmp);
        match tmp {
            JsonValue::Object(mut m) => {
                let ghost mm = JsonValue::model_members(m@);
                proof {
                    lemma_model_members(m@);
                }
                let ghost target = members_set(mm, key@, value@);
                proof {
                    lemma_member_index(mm, key@);
                }
                match find_member(&m, key.as_str()) {
                    Some(i) => {
                        m.remove(i);
                        m.insert(i, (key, value));
                    },
                    None => {
                        m.push((key, value));
                    },
                }
                proof {
                    lemma_model_members_ext(m@, target);
                }
                *self = JsonValue::Object(m);
            },
            _ => {
                let ghost k = key@;
                let ghost v = value@;
                let mut m: Vec<(String, JsonValue)> = Vec::new();
                m.push((key, value));
                proof {
                    lemma_model_members_ext(m@, seq![(k, v)]);
                }
                *self = JsonValue::Object(m);
            },
        }
    }

    /// Remove the key `key` from an object (`Map::remove`); other values are unchanged.
    pub fn remove(&mut self, key: &str)
        ensures
            final(self)@ == old(self)@.without_member(key@),
    {
        let mut tmp = JsonValue::Null;
        std::mem::swap(self, &mut tmp);
        match tmp {
            JsonValue::Object(m) => {
                let ghost ms = m@;
                let ghost mm = JsonValue::model_members(m@);
                proof {
                    lemma_model_members(m@);
                }
                let mut out: Vec<(String, JsonValue)> = Vec::new();
                for p in it: m
                    invariant
                        it.seq() == ms,
                        mm == JsonValue::model_members(ms),
                        mm.len() == ms.len(),
                        forall|j: int| 0 <= j < ms.len() ==> #[trigger] mm[j] == (ms[j].0@, ms[j].1@),
                        JsonValue::model_members(out@) == members_remove(mm.subrange(0, it.index()), key@),
                {
                    let ghost i = it.index();
                    proof {
                        lemma_model_members(out@);
                        assert(mm.subrange(0, i + 1).drop_last() =~= mm.subrange(0, i));
                    }
                    if !crate::text::str_eq(p.0.as_str(), key) {
                        let ghost before = out@;
                        out.push(p);
                        proof {
                            lemma_model_members(out@);
                            lemma_model_members_ext(out@, JsonValue::model_members(before).push(mm[i]));
                        }
                    }
                }
                proof {
                    assert(mm.subrange(0, mm.len() as int) =~= mm);
                }
                *self = JsonValue::Object(out);
            },
            other => {
                *self = other;
            },
        }
    }
}

} // verus!

verus! {

/// Writing a key that no member has appends it.
pub proof fn lemma_members_set_absent(m: Seq<(Seq<char>, Json)>, k: Seq<char>, v: Json)
    requires
        forall|i: int| 0 <= i < m.len() ==> (#[trigger] m[i]).0 != k,
    ensures
        members_set(m, k, v) == m.push((k, v)),
        member_index(m, k) == -1,
{
    lemma_member_index(m, k);
}

} // verus!

verus! {

/// Writing the same key twice keeps only the second value.
pub proof fn lemma_members_set_set(m: Seq<(Seq<char>, Json)>, k: Seq<char>, a: Json, b: Json)
    ensures
        members_set(members_set(m, k, a), k, b) == members_set(m, k, b),
{
    lemma_member_index(m, k);
    let i = member_index(m, k);
    let r = members_set(m, k, a);
    if i >= 0 {
        lemma_member_index_at(r, k, i);
        assert(members_set(r, k, b) =~= members_set(m, k, b));
    } else {
        lemma_member_index_at(r, k, m.len() as int);
        assert(members_set(r, k, b) =~= members_set(m, k, b));
    }
}

impl Json {
    /// The value at `self[k]` when it is an object, else an empty object
    /// (what `if !v.get(k).is_some_and(|x| x.is_object()) { v[k] = json!({}) }` leaves there).
    pub open spec fn object_at(self, k: Seq<char>) -> Json {
        match self.member(k) {
            Some(x) => if x is Object {
                x
            } else {
                Json::Object(Seq::empty())
            },
            None => Json::Object(Seq::empty()),
        }
    }
}

/// Reading a member of a written object.
pub proof fn lemma_with_member_member(j: Json, k: Seq<char>, v: Json, k2: Seq<char>)
    ensures
        j.with_member(k, v).member(k2) == if k2 == k { Some(v) } else if j is Object { j.member(k2) } else { None },
{
    match j {
        Json::Object(m) => {
            lemma_members_set_get(m, k, v, k2);
        },
        _ => {
            lemma_members_set_get(Seq::empty(), k, v, k2);
            assert(Seq::<(Seq<char>, Json)>::empty().push((k, v)) =~= seq![(k, v)]);
        },
    }
}

/// Reading a member of an object after removing a key.
pub proof fn lemma_without_member_member(j: Json, k: Seq<char>, k2: Seq<char>)
    ensures
        j.without_member(k).member(k2) == if k2 == k { None } else { j.member(k2) },
{
    match j {
        Json::Object(m) => {
            lemma_members_remove_get(m, k, k2);
        },
        _ => {},
    }
}

} // verus!

verus! {

/// Updating one member of a list updates the same position of its model.
pub proof fn lemma_model_members_update(s: Seq<(String, JsonValue)>)
    ensures
        forall|i: int, p: (String, JsonValue)|
            0 <= i < s.len() ==> #[trigger] JsonValue::model_members(s.update(i, p))
                == JsonValue::model_members(s).update(i, (p.0@, p.1@)),
{
    assert forall|i: int, p: (String, JsonValue)| 0 <= i < s.len() implies #[trigger] JsonValue::model_members(s.update(i, p))
        == JsonValue::model_members(s).update(i, (p.0@, p.1@)) by {
        lemma_model_members(s);
        lemma_model_members_ext(s.update(i, p), JsonValue::model_members(s).update(i, (p.0@, p.1@)));
    }
}

/// Writing a member twice keeps only the second value.
pub proof fn lemma_with_member_twice(j: Json, k: Seq<char>, a: Json)
    requires
        j.indexable(),
    ensures
        forall|b: Json| #[trigger] j.with_member(k, a).with_member(k, b) == j.with_member(k, b),
{
    assert forall|b: Json| #[trigger] j.with_member(k, a).with_member(k, b) == j.with_member(k, b) by {
        match j {
            Json::Object(m) => {
                lemma_members_set_set(m, k, a, b);
            },
            _ => {
                lemma_members_set_set(Seq::empty(), k, a, b);
                assert(Seq::<(Seq<char>, Json)>::empty().push((k, a)) =~= seq![(k, a)]);
                assert(Seq::<(Seq<char>, Json)>::empty().push((k, b)) =~= seq![(k, b)]);
            },
        }
    }
}

/// A mutable reference to the value of member `i`.
fn member_value_mut(m: &mut Vec<(String, JsonValue)>, i: usize) -> (r: &mut JsonValue)
    requires
        i < old(m)@.len(),
    ensures
        *r == old(m)@[i as int].1,
        final(m)@ == old(m)@.update(i as int, (old(m)@[i as int].0, *final(r))),
{
    &mut m[i].1
}

/// The member list of an object value.
pub open spec fn members_of(v: JsonValue) -> Seq<(String, JsonValue)> {
    match v {
        JsonValue::Object(m) => m@,
        _ => Seq::empty(),
    }
}

/// A mutable reference to the value of member `i` of an object.
fn object_value_mut(v: &mut JsonValue, i: usize) -> (r: &mut JsonValue)
    requires
        *old(v) is Object,
        i < members_of(*old(v)).len(),
    ensures
        *r == members_of(*old(v))[i as int].1,
        *final(v) is Object,
        members_of(*final(v)) == members_of(*old(v)).update(
            i as int,
            (members_of(*old(v))[i as int].0, *final(r)),
        ),
        final(v)@ == Json::Object(
            JsonValue::model_members(
                members_of(*old(v)).update(i as int, (members_of(*old(v))[i as int].0, *final(r))),
            ),
        ),
{
    match v {
        JsonValue::Object(m) => member_value_mut(m, i),
        _ => {
            proof {
                assert(false);
            }
            v
        },
    }
}

impl JsonValue {
    /// A mutable reference to the object at `self[key]`, made an empty object first
    /// when the member is missing or not an object.
    pub fn member_object_mut(&mut self, key: &str) -> (r: &mut JsonValue)
        requires
            old(self)@.indexable(),
        ensures
            r@ == old(self)@.object_at(key@),
            final(self)@ == old(self)@.with_member(key@, final(r)@),
    {
        let ghost o = self@;
        let needs_reset = match self.get(key) {
            Some(v) => !v.is_object(),
            None => true,
        };
        if needs_reset {
            self.set(crate::text::owned(key), JsonValue::new_object());
        }
        proof {
            lemma_with_member_member(o, key@, Json::Object(Seq::empty()), key@);
        }
        let ghost mid = self@;
        assert(mid.member(key@) == Some(o.object_at(key@)));
        let ghost ms = members_of(*self);
        let ghost mm = JsonValue::model_members(ms);
        let i: usize = match self.as_object() {
            Some(m) => {
                proof {
                    lemma_model_members(m@);
                    lemma_member_index(mm, key@);
                }
                match find_member(m, key) {
                    Some(i) => i,
                    None => {
                        proof {
                            assert(false);
                        }
                        0
                    },
                }
            },
            None => {
                proof {
                    assert(false);
                }
                0
            },
        };
        proof {
            lemma_model_members(ms);
            lemma_model_members_update(ms);
            assert(mm[i as int].0 == key@);
            assert forall|v: Json| #[trigger] members_set(mm, key@, v) == mm.update(i as int, (key@, v)) by {}
            if needs_reset {
                lemma_with_member_twice(o, key@, Json::Object(Seq::empty()));
            }
            assert(mid == Json::Object(mm));
            assert forall|b: Json| #[trigger] o.with_member(key@, b) == Json::Object(mm.update(i as int, (key@, b))) by {
                assert(mid.with_member(key@, b) == Json::Object(members_set(mm, key@, b)));
            }
        }
        object_value_mut(self, i)
    }
}

} // verus!

verus! {

/// Removing a key that no member has changes nothing.
pub proof fn lemma_members_remove_absent(m: Seq<(Seq<char>, Json)>, k: Seq<char>)
    requires
        members_get(m, k) is None,
    ensures
        members_remove(m, k) == m,
    decreases m.len(),
{
    if m.len() > 0 {
        let p = m.drop_last();
        lemma_member_index(m, k);
        lemma_member_index(p, k);
        lemma_members_remove_absent(p, k);
        assert(m.last().0 != k);
        assert(p.push(m.last()) =~= m);
    }
}

/// A JSON number for an unsigned integer: `Int` when it fits an `i64`.
pub open spec fn json_uint(n: u64) -> Json {
    if n <= i64::MAX as u64 {
        Json::Int(n as i64)
    } else {
        Json::UInt(n)
    }
}

/// The JSON number of an unsigned integer.
pub fn uint_value(n: u64) -> (r: JsonValue)
    ensures
        r@ == json_uint(n),
{
    if n <= 0x7fff_ffff_ffff_ffffu64 {
        JsonValue::Int(n as i64)
    } else {
        JsonValue::UInt(n)
    }
}

} // verus!
