//! Custom scriptlets: the list Brave keeps under the key `SCRIPTLETS` of its
//! "AdBlock Custom Resources" database, as JSON with base64 content.
use vstd::prelude::*;
use vstd::utf8::{decode_utf8, encode_utf8, encode_utf8_decode_utf8, encode_utf8_valid_utf8, valid_utf8};

use crate::error::CliError;
use crate::json::{lemma_member_index_at, lemma_model_items, lemma_model_members_ext, uint_value, json_uint, Json, JsonValue};
use crate::platform::{path_join, spec_path_join};
use crate::text::{concat, owned, str_eq};

verus! {

/// A single custom scriptlet.
#[derive(Debug)]
pub struct Scriptlet {
    pub name: String,
    pub content: String,
}

impl Scriptlet {
    pub open spec fn model(self) -> (Seq<char>, Seq<char>) {
        (self.name@, self.content@)
    }
}

pub open spec fn scriptlets_model(v: Seq<Scriptlet>) -> Seq<(Seq<char>, Seq<char>)> {
    v.map_values(|s: Scriptlet| s.model())
}

/// The directory name of the scriptlet database.
pub const DB_DIR_NAME: &'static str = "AdBlock Custom Resources";

/// Resolve the path to the AdBlock Custom Resources LevelDB.
/// This is always under Default/, regardless of active profile.
pub fn db_path(brave_dir: &str) -> (r: String)
    ensures
        r@ == spec_path_join(spec_path_join(brave_dir@, "Default"@), DB_DIR_NAME@),
{
    let d = path_join(brave_dir, "Default");
    path_join(d.as_str(), DB_DIR_NAME)
}

/// The lock file that guards the database: its path with the extension `.lock`.
pub fn lock_path(brave_dir: &str) -> (r: String)
    ensures
        r@ == spec_path_join(spec_path_join(brave_dir@, "Default"@), DB_DIR_NAME@) + ".lock"@,
{
    let p = db_path(brave_dir);
    concat(p.as_str(), ".lock")
}

// ---------------------------------------------------------------------------------------
// Names

pub open spec fn contains_char(s: Seq<char>, c: char) -> bool {
    exists|i: int| 0 <= i < s.len() && s[i] == c
}

pub open spec fn contains_dot_dot(s: Seq<char>) -> bool {
    exists|i: int| 0 <= i < s.len() - 1 && s[i] == '.' && #[trigger] s[i + 1] == '.'
}

pub open spec fn is_ascii_text(s: Seq<char>) -> bool {
    forall|i: int| 0 <= i < s.len() ==> (#[trigger] s[i] as u32) < 128
}

pub open spec fn has_prefix(s: Seq<char>, p: Seq<char>) -> bool {
    p.len() <= s.len() && s.subrange(0, p.len() as int) == p
}

pub open spec fn has_suffix(s: Seq<char>, p: Seq<char>) -> bool {
    p.len() <= s.len() && s.subrange(s.len() - p.len(), s.len() as int) == p
}

/// Whether position `j` starts a path separator or a `..`.
pub open spec fn path_piece_at(s: Seq<char>, j: int) -> bool {
    s[j] == '/' || s[j] == '\\' || (j + 1 < s.len() && s[j] == '.' && s[j + 1] == '.')
}

/// Why a scriptlet name is refused, checked in this order.
pub enum NameProblem {
    Empty,
    NotAscii,
    Path,
    Prefix,
    Suffix,
}

/// The first problem of a scriptlet name: Brave wants a non-empty ASCII name without path
/// separators or `..`, of the form `user-*.js`.
pub open spec fn name_problem(name: Seq<char>) -> Option<NameProblem> {
    if name.len() == 0 {
        Some(NameProblem::Empty)
    } else if !is_ascii_text(name) {
        Some(NameProblem::NotAscii)
    } else if contains_char(name, '/') || contains_char(name, '\\') || contains_dot_dot(name) {
        Some(NameProblem::Path)
    } else if !has_prefix(name, "user-"@) {
        Some(NameProblem::Prefix)
    } else if !has_suffix(name, ".js"@) {
        Some(NameProblem::Suffix)
    } else {
        None
    }
}

/// The error that reports a name problem.
pub open spec fn reports_name(e: CliError, p: NameProblem, name: Seq<char>) -> bool {
    match p {
        NameProblem::Empty => e is ScriptletNameEmpty,
        NameProblem::NotAscii => e is ScriptletNameNotAscii,
        NameProblem::Path => e matches CliError::ScriptletNamePath { name: n } && n@ == name,
        NameProblem::Prefix => e matches CliError::ScriptletNamePrefix { name: n } && n@ == name,
        NameProblem::Suffix => e matches CliError::ScriptletNameSuffix { name: n } && n@ == name,
    }
}

fn text_has_prefix(s: &[char], p: &[char]) -> (r: bool)
    ensures
        r == has_prefix(s@, p@),
{
    if p.len() > s.len() {
        return false;
    }
    for i in 0..p.len()
        invariant
            p@.len() <= s@.len(),
            forall|j: int| 0 <= j < i ==> s@[j] == p@[j],
    {
        if s[i] != p[i] {
            assert(s@.subrange(0, p@.len() as int)[i as int] != p@[i as int]);
            return false;
        }
    }
    assert(s@.subrange(0, p@.len() as int) =~= p@);
    true
}

fn text_has_suffix(s: &[char], p: &[char]) -> (r: bool)
    ensures
        r == has_suffix(s@, p@),
{
    if p.len() > s.len() {
        return false;
    }
    let sl = s.len();
    let off = sl - p.len();
    let mut i: usize = 0;
    while i < p.len()
        invariant
            p@.len() <= s@.len(),
            off + p@.len() == s@.len(),
            sl == s@.len(),
            i <= p@.len(),
            forall|j: int| 0 <= j < i ==> s@[off + j] == p@[j],
        decreases p@.len() - i,
    {
        if s[off + i] != p[i] {
            assert(s@.subrange(off as int, s@.len() as int)[i as int] != p@[i as int]);
            return false;
        }
        i = i + 1;
    }
    assert(s@.subrange(off as int, s@.len() as int) =~= p@);
    true
}

/// Validate a scriptlet name matches Brave's requirements.
pub fn validate_name(name: &str) -> (r: Result<(), CliError>)
    ensures
        match r {
            Ok(()) => name_problem(name@) is None,
            Err(e) => name_problem(name@) matches Some(p) && reports_name(e, p, name@),
        },
{
    let cs = crate::text::chars_of(name);
    let n = cs.len();
    if n == 0 {
        return Err(CliError::ScriptletNameEmpty);
    }
    let mut ascii = true;
    let mut path = false;
    for i in 0..n
        invariant
            n == cs@.len(),
            cs@ == name@,
            ascii == (forall|j: int| 0 <= j < i ==> (#[trigger] cs@[j] as u32) < 128),
            path == (exists|j: int| 0 <= j < i && #[trigger] path_piece_at(cs@, j)),
    {
        let c = cs[i];
        if !((c as u32) < 128) {
            ascii = false;
        }
        if c == '/' || c == '\\' || (i + 1 < n && c == '.' && cs[i + 1] == '.') {
            assert(path_piece_at(cs@, i as int));
            path = true;
        }
    }
    if !ascii {
        return Err(CliError::ScriptletNameNotAscii);
    }
    proof {
        if contains_char(name@, '/') {
            let j = choose|j: int| 0 <= j < name@.len() && name@[j] == '/';
            assert(path_piece_at(cs@, j));
        }
        if contains_char(name@, '\\') {
            let j = choose|j: int| 0 <= j < name@.len() && name@[j] == '\\';
            assert(path_piece_at(cs@, j));
        }
        if contains_dot_dot(name@) {
            let j = choose|j: int| 0 <= j < name@.len() - 1 && name@[j] == '.' && #[trigger] name@[j + 1] == '.';
            assert(path_piece_at(cs@, j));
        }
        if path {
            let j = choose|j: int| 0 <= j < n && #[trigger] path_piece_at(cs@, j);
            if cs@[j] == '/' {
                assert(contains_char(name@, '/'));
            } else if cs@[j] == '\\' {
                assert(contains_char(name@, '\\'));
            } else {
                assert(name@[j + 1] == '.');
                assert(contains_dot_dot(name@));
            }
        }
    }
    if path {
        return Err(CliError::ScriptletNamePath { name: owned(name) });
    }
    let prefix = ['u', 's', 'e', 'r', '-'];
    let suffix = ['.', 'j', 's'];
    proof {
        reveal_strlit("user-");
        reveal_strlit(".js");
        assert(prefix@ =~= "user-"@);
        assert(suffix@ =~= ".js"@);
    }
    if !text_has_prefix(cs.as_slice(), &prefix) {
        return Err(CliError::ScriptletNamePrefix { name: owned(name) });
    }
    if !text_has_suffix(cs.as_slice(), &suffix) {
        return Err(CliError::ScriptletNameSuffix { name: owned(name) });
    }
    Ok(())
}

// ---------------------------------------------------------------------------------------
// The list

/// The list without the scriptlets named `name`, in order.
pub open spec fn without_name(l: Seq<(Seq<char>, Seq<char>)>, name: Seq<char>) -> Seq<(Seq<char>, Seq<char>)>
    decreases l.len(),
{
    if l.len() == 0 {
        l
    } else if l.last().0 == name {
        without_name(l.drop_last(), name)
    } else {
        without_name(l.drop_last(), name).push(l.last())
    }
}

/// Adding a scriptlet: any with the same name leaves, the new one goes last.
pub open spec fn spec_add(l: Seq<(Seq<char>, Seq<char>)>, name: Seq<char>, content: Seq<char>) -> Seq<(Seq<char>, Seq<char>)> {
    without_name(l, name).push((name, content))
}

/// Whether some scriptlet has this name.
pub open spec fn has_name(l: Seq<(Seq<char>, Seq<char>)>, name: Seq<char>) -> bool {
    exists|i: int| 0 <= i < l.len() && (#[trigger] l[i]).0 == name
}

/// Keep the scriptlets whose name is not `name`.
fn retain_other_names(list: &mut Vec<Scriptlet>, name: &str)
    ensures
        scriptlets_model(final(list)@) == without_name(scriptlets_model(old(list)@), name@),
{
    let mut kept: Vec<Scriptlet> = Vec::new();
    let ghost m = scriptlets_model(list@);
    let mut rest: Vec<Scriptlet> = Vec::new();
    std::mem::swap(&mut rest, list);
    let n = rest.len();
    let mut i: usize = 0;
    let mut taken: Vec<Scriptlet> = rest;
    while i < n
        invariant
            n == m.len(),
            i <= n,
            taken@.len() == n,
            m == scriptlets_model(taken@),
            scriptlets_model(kept@) == without_name(m.subrange(0, i as int), name@),
        decreases n - i,
    {
        proof {
            assert(m.subrange(0, i + 1).drop_last() =~= m.subrange(0, i as int));
            assert(m.subrange(0, i + 1).last() == taken@[i as int].model());
        }
        if !str_eq(taken[i].name.as_str(), name) {
            let s = Scriptlet { name: owned(taken[i].name.as_str()), content: owned(taken[i].content.as_str()) };
            let ghost before = kept@;
            kept.push(s);
            assert(scriptlets_model(kept@) =~= scriptlets_model(before).push(taken@[i as int].model()));
        }
        i = i + 1;
    }
    assert(m.subrange(0, n as int) =~= m);
    *list = kept;
}

/// Add a scriptlet. If one with the same name exists, it is replaced.
pub fn add_scriptlet(list: &mut Vec<Scriptlet>, name: &str, content: &str) -> (r: Result<(), CliError>)
    ensures
        match r {
            Ok(()) => name_problem(name@) is None && scriptlets_model(final(list)@) == spec_add(
                scriptlets_model(old(list)@),
                name@,
                content@,
            ),
            Err(e) => name_problem(name@) matches Some(p) && reports_name(e, p, name@)
                && final(list)@ == old(list)@,
        },
{
    validate_name(name)?;
    retain_other_names(list, name);
    let ghost before = list@;
    list.push(Scriptlet { name: owned(name), content: owned(content) });
    assert(scriptlets_model(list@) =~= scriptlets_model(before).push((name@, content@)));
    Ok(())
}

/// Removing the scriptlets named `name` leaves the list as it was exactly when none has it.
pub proof fn lemma_without_name_len(l: Seq<(Seq<char>, Seq<char>)>, name: Seq<char>)
    ensures
        without_name(l, name).len() <= l.len(),
        without_name(l, name).len() == l.len() <==> !has_name(l, name),
        !has_name(l, name) ==> without_name(l, name) == l,
        !has_name(without_name(l, name), name),
    decreases l.len(),
{
    if l.len() > 0 {
        let p = l.drop_last();
        lemma_without_name_len(p, name);
        assert forall|i: int| 0 <= i < p.len() implies #[trigger] p[i] == l[i] by {}
        if has_name(p, name) {
            let i = choose|i: int| 0 <= i < p.len() && (#[trigger] p[i]).0 == name;
            assert(l[i].0 == name);
        }
        if l.last().0 != name {
            let w = without_name(p, name);
            assert forall|i: int| 0 <= i < w.push(l.last()).len() implies (#[trigger] w.push(l.last())[i]).0 != name by {
                if i < w.len() {
                    assert(w.push(l.last())[i] == w[i]);
                }
            }
            if !has_name(l, name) {
                assert(!has_name(p, name)) by {
                    if has_name(p, name) {
                        let i = choose|i: int| 0 <= i < p.len() && (#[trigger] p[i]).0 == name;
                        assert(l[i].0 == name);
                    }
                }
                assert(p.push(l.last()) =~= l);
            }
            if has_name(l, name) {
                let i = choose|i: int| 0 <= i < l.len() && (#[trigger] l[i]).0 == name;
                assert(i < p.len());
                assert(p[i].0 == name);
            }
        } else {
            assert(l[l.len() - 1].0 == name);
        }
    }
}

/// Remove a scriptlet by name. Returns true if it was found.
pub fn remove_scriptlet(list: &mut Vec<Scriptlet>, name: &str) -> (found: bool)
    ensures
        found == has_name(scriptlets_model(old(list)@), name@),
        scriptlets_model(final(list)@) == without_name(scriptlets_model(old(list)@), name@),
{
    let before = list.len();
    retain_other_names(list, name);
    proof {
        lemma_without_name_len(scriptlets_model(old(list)@), name@);
    }
    list.len() != before
}

/// The scriptlet named `name`, the first one when several are.
pub fn find_scriptlet<'a>(list: &'a Vec<Scriptlet>, name: &str) -> (r: Option<&'a Scriptlet>)
    ensures
        match r {
            Some(s) => exists|i: int|
                0 <= i < list@.len() && list@[i] == *s && s.name@ == name@ && forall|j: int|
                    0 <= j < i ==> (#[trigger] list@[j]).name@ != name@,
            None => !has_name(scriptlets_model(list@), name@),
        },
{
    for i in 0..list.len()
        invariant
            forall|j: int| 0 <= j < i ==> (#[trigger] list@[j]).name@ != name@,
    {
        if str_eq(list[i].name.as_str(), name) {
            return Some(&list[i]);
        }
    }
    proof {
        if has_name(scriptlets_model(list@), name@) {
            let i = choose|i: int| 0 <= i < list@.len() && (#[trigger] scriptlets_model(list@)[i]).0 == name@;
            assert(list@[i].name@ == name@);
        }
    }
    None
}

/// The content of the scriptlet named `name` (`scriptlets get`).
pub fn scriptlet_content(list: &Vec<Scriptlet>, name: &str) -> (r: Result<String, CliError>)
    ensures
        match r {
            Ok(c) => exists|i: int|
                0 <= i < list@.len() && list@[i].name@ == name@ && c@ == list@[i].content@
                    && forall|j: int| 0 <= j < i ==> (#[trigger] list@[j]).name@ != name@,
            Err(e) => !has_name(scriptlets_model(list@), name@) && (e matches CliError::ScriptletNotFound {
                name: n,
            } && n@ == name@),
        },
{
    match find_scriptlet(list, name) {
        Some(s) => Ok(owned(s.content.as_str())),
        None => Err(CliError::ScriptletNotFound { name: owned(name) }),
    }
}

// ---------------------------------------------------------------------------------------
// Storage form

/// The standard base64 text (RFC 4648 alphabet, `=` padding) of some bytes.
pub uninterp spec fn base64_encode(bytes: Seq<u8>) -> Seq<char>;

/// The bytes a standard base64 text decodes to; nothing when the text is not valid base64.
pub uninterp spec fn base64_decode(text: Seq<char>) -> Option<Seq<u8>>;

/// The error `base64` reports for text it cannot decode.
#[verifier::external_type_specification]
#[verifier::external_body]
pub struct ExDecodeError(base64::DecodeError);

/// `STANDARD.encode` of the `base64` crate. The encoding is canonical RFC 4648 base64: four
/// characters for every three bytes or part of them, and it decodes back to the bytes.
/// (A slice never holds more than `isize::MAX` bytes, so the length computation that
/// `encode` checks cannot overflow.)
#[verifier::external_body]
fn encode_base64(bytes: &[u8]) -> (r: String)
    ensures
        r@ == base64_encode(bytes@),
        r@.len() == (bytes@.len() + 2) / 3 * 4,
        base64_decode(r@) == Some(bytes@),
{
    base64::Engine::encode(&base64::engine::general_purpose::STANDARD, bytes)
}

/// `STANDARD.decode` of the `base64` crate, on the bytes of a text.
#[verifier::external_body]
fn decode_base64(text: &str) -> (r: Result<Vec<u8>, base64::DecodeError>)
    ensures
        match r {
            Ok(b) => base64_decode(text@) == Some(b@),
            Err(_) => base64_decode(text@) is None,
        },
{
    base64::Engine::decode(&base64::engine::general_purpose::STANDARD, text)
}

/// `String::from_utf8`: the text of bytes that are valid UTF-8.
#[verifier::external_body]
fn string_from_utf8(bytes: Vec<u8>) -> (r: Option<String>)
    ensures
        match r {
            Some(s) => valid_utf8(bytes@) && s@ == decode_utf8(bytes@),
            None => !valid_utf8(bytes@),
        },
{
    String::from_utf8(bytes).ok()
}

/// The stored form of one scriptlet: its name, its content as base64 of the UTF-8 bytes,
/// and the kind `application/javascript`.
pub open spec fn entry_json(name: Seq<char>, content: Seq<char>) -> Json {
    Json::Object(
        seq![
            ("name"@, Json::Str(name)),
            ("content"@, Json::Str(base64_encode(encode_utf8(content)))),
            ("kind"@, Json::Object(seq![("mime"@, Json::Str("application/javascript"@))])),
        ],
    )
}

/// The stored form of a scriptlet list.
pub open spec fn spec_scriptlets_json(l: Seq<(Seq<char>, Seq<char>)>) -> Json {
    Json::Array(Seq::new(l.len(), |i: int| entry_json(l[i].0, l[i].1)))
}

/// Why a stored scriptlet cannot be read.
pub enum EntryProblem {
    NotArray,
    MissingName,
    MissingContent,
    BadBase64,
    NotUtf8,
}

/// One stored scriptlet read back: a string `name`, a string `content` that is empty or base64
/// of UTF-8 text.
pub open spec fn decode_entry(e: Json) -> Result<(Seq<char>, Seq<char>), EntryProblem> {
    match e.index("name"@) {
        Json::Str(name) => match e.index("content"@) {
            Json::Str(c) => if c.len() == 0 {
                Ok((name, Seq::empty()))
            } else {
                match base64_decode(c) {
                    None => Err(EntryProblem::BadBase64),
                    Some(b) => if valid_utf8(b) {
                        Ok((name, decode_utf8(b)))
                    } else {
                        Err(EntryProblem::NotUtf8)
                    },
                }
            },
            _ => Err(EntryProblem::MissingContent),
        },
        _ => Err(EntryProblem::MissingName),
    }
}

/// The stored scriptlets read back in order, or the problem of the first one that cannot be.
pub open spec fn decode_entries(items: Seq<Json>) -> Result<Seq<(Seq<char>, Seq<char>)>, EntryProblem>
    decreases items.len(),
{
    if items.len() == 0 {
        Ok(Seq::empty())
    } else {
        match decode_entries(items.drop_last()) {
            Err(p) => Err(p),
            Ok(prev) => match decode_entry(items.last()) {
                Err(p) => Err(p),
                Ok(x) => Ok(prev.push(x)),
            },
        }
    }
}

/// The scriptlets of a stored JSON document, which must be an array.
pub open spec fn spec_scriptlets_from_json(v: Json) -> Result<Seq<(Seq<char>, Seq<char>)>, EntryProblem> {
    match v {
        Json::Array(items) => decode_entries(items),
        _ => Err(EntryProblem::NotArray),
    }
}

/// The error that reports an entry problem.
pub open spec fn reports_entry(e: CliError, p: EntryProblem) -> bool {
    match p {
        EntryProblem::NotArray => e is ScriptletsNotArray,
        EntryProblem::MissingName => e is ScriptletMissingName,
        EntryProblem::MissingContent => e is ScriptletMissingContent,
        EntryProblem::BadBase64 => e is ScriptletBadBase64,
        EntryProblem::NotUtf8 => e is ScriptletContentNotUtf8,
    }
}

/// The text of the stored value, which must be UTF-8.
pub fn scriptlets_text(raw: Vec<u8>) -> (r: Result<String, CliError>)
    ensures
        match r {
            Ok(s) => valid_utf8(raw@) && s@ == decode_utf8(raw@),
            Err(e) => !valid_utf8(raw@) && e is ScriptletsNotUtf8,
        },
{
    match string_from_utf8(raw) {
        Some(s) => Ok(s),
        None => Err(CliError::ScriptletsNotUtf8),
    }
}

fn member_or_null<'a>(v: &'a JsonValue, key: &str, null: &'a JsonValue) -> (r: &'a JsonValue)
    requires
        null@ == Json::Null,
    ensures
        r@ == v@.index(key@),
{
    match v.get(key) {
        Some(x) => x,
        None => null,
    }
}

/// Read one stored scriptlet.
fn scriptlet_from_entry(e: &JsonValue) -> (r: Result<Scriptlet, CliError>)
    ensures
        match r {
            Ok(s) => decode_entry(e@) == Ok::<(Seq<char>, Seq<char>), EntryProblem>(s.model()),
            Err(err) => decode_entry(e@) matches Err(p) && reports_entry(err, p),
        },
{
    let null = JsonValue::Null;
    let name = match member_or_null(e, "name", &null).as_str() {
        Some(n) => owned(n.as_str()),
        None => return Err(CliError::ScriptletMissingName),
    };
    let c = match member_or_null(e, "content", &null).as_str() {
        Some(c) => c,
        None => return Err(CliError::ScriptletMissingContent),
    };
    if c.as_str().is_empty() {
        return Ok(Scriptlet { name, content: String::new() });
    }
    let bytes = match decode_base64(c.as_str()) {
        Ok(b) => b,
        Err(_) => return Err(CliError::ScriptletBadBase64),
    };
    match string_from_utf8(bytes) {
        Some(content) => Ok(Scriptlet { name, content }),
        None => Err(CliError::ScriptletContentNotUtf8),
    }
}

/// Read the scriptlets of a stored JSON document.
pub fn scriptlets_from_json(v: &JsonValue) -> (r: Result<Vec<Scriptlet>, CliError>)
    ensures
        match r {
            Ok(l) => spec_scriptlets_from_json(v@) == Ok::<Seq<(Seq<char>, Seq<char>)>, EntryProblem>(
                scriptlets_model(l@),
            ),
            Err(e) => spec_scriptlets_from_json(v@) matches Err(p) && reports_entry(e, p),
        },
{
    let items = match v.as_array() {
        Some(items) => items,
        None => return Err(CliError::ScriptletsNotArray),
    };
    let ghost m = JsonValue::model_items(items@);
    proof {
        lemma_model_items(items@);
    }
    let mut out: Vec<Scriptlet> = Vec::new();
    assert(m.subrange(0, 0) =~= Seq::<Json>::empty());
    assert(scriptlets_model(out@) =~= Seq::<(Seq<char>, Seq<char>)>::empty());
    for i in 0..items.len()
        invariant
            v@ == Json::Array(m),
            m == JsonValue::model_items(items@),
            m.len() == items@.len(),
            forall|j: int| 0 <= j < items@.len() ==> #[trigger] m[j] == items@[j]@,
            decode_entries(m.subrange(0, i as int)) == Ok::<Seq<(Seq<char>, Seq<char>)>, EntryProblem>(
                scriptlets_model(out@),
            ),
    {
        proof {
            assert(m.subrange(0, i + 1).drop_last() =~= m.subrange(0, i as int));
            assert(m.subrange(0, i + 1).last() == items@[i as int]@);
        }
        let s = scriptlet_from_entry(&items[i]);
        match s {
            Ok(s) => {
                let ghost before = out@;
                let ghost sm = s.model();
                out.push(s);
                assert(scriptlets_model(out@) =~= scriptlets_model(before).push(sm));
            },
            Err(e) => {
                proof {
                    lemma_decode_entries_prefix_err(m, i as int + 1);
                }
                return Err(e);
            },
        }
    }
    assert(m.subrange(0, m.len() as int) =~= m);
    Ok(out)
}

/// An error in the first items stays the result for the whole list.
proof fn lemma_decode_entries_prefix_err(m: Seq<Json>, k: int)
    requires
        0 <= k <= m.len(),
        decode_entries(m.subrange(0, k)) is Err,
    ensures
        decode_entries(m) == decode_entries(m.subrange(0, k)),
    decreases m.len() - k,
{
    if k < m.len() {
        assert(m.subrange(0, k + 1).drop_last() =~= m.subrange(0, k));
        lemma_decode_entries_prefix_err(m, k + 1);
    } else {
        assert(m.subrange(0, k) =~= m);
    }
}

/// The stored form of one scriptlet.
fn scriptlet_entry(s: &Scriptlet) -> (r: JsonValue)
    ensures
        r@ == entry_json(s.name@, s.content@),
        decode_entry(r@) == Ok::<(Seq<char>, Seq<char>), EntryProblem>(s.model()),
{
    let encoded = encode_base64(s.content.as_str().as_bytes());
    proof {
        lemma_entry_roundtrip(s.name@, s.content@);
    }
    let mut kind: Vec<(String, JsonValue)> = Vec::new();
    kind.push((owned("mime"), JsonValue::Str(owned("application/javascript"))));
    let mut members: Vec<(String, JsonValue)> = Vec::new();
    members.push((owned("name"), JsonValue::Str(owned(s.name.as_str()))));
    members.push((owned("content"), JsonValue::Str(encoded)));
    members.push((owned("kind"), JsonValue::Object(kind)));
    proof {
        lemma_model_members_ext(kind@, seq![("mime"@, Json::Str("application/javascript"@))]);
        let want = match entry_json(s.name@, s.content@) {
            Json::Object(ms) => ms,
            _ => Seq::empty(),
        };
        lemma_model_members_ext(members@, want);
    }
    JsonValue::Object(members)
}

/// The stored form of a scriptlet list.
pub fn scriptlets_to_json(list: &Vec<Scriptlet>) -> (r: JsonValue)
    ensures
        r@ == spec_scriptlets_json(scriptlets_model(list@)),
        spec_scriptlets_from_json(r@) == Ok::<Seq<(Seq<char>, Seq<char>)>, EntryProblem>(
            scriptlets_model(list@),
        ),
{
    let ghost l = scriptlets_model(list@);
    let mut items: Vec<JsonValue> = Vec::new();
    proof {
        lemma_model_items(items@);
        assert(JsonValue::model_items(items@) =~= Seq::<Json>::empty());
        assert(l.subrange(0, 0) =~= Seq::<(Seq<char>, Seq<char>)>::empty());
    }
    for i in 0..list.len()
        invariant
            l == scriptlets_model(list@),
            JsonValue::model_items(items@) == Seq::new(i as nat, |k: int| entry_json(l[k].0, l[k].1)),
            decode_entries(JsonValue::model_items(items@)) == Ok::<Seq<(Seq<char>, Seq<char>)>, EntryProblem>(
                l.subrange(0, i as int),
            ),
    {
        let ghost before = items@;
        let e = scriptlet_entry(&list[i]);
        items.push(e);
        proof {
            lemma_model_items(items@);
            lemma_model_items(before);
            assert forall|k: int| 0 <= k < i implies JsonValue::model_items(items@)[k] == entry_json(l[k].0, l[k].1) by {
                assert(items@[k] == before[k]);
                assert(JsonValue::model_items(before)[k] == Seq::new(i as nat, |k: int| entry_json(l[k].0, l[k].1))[k]);
            }
        }
        assert(JsonValue::model_items(items@) =~= Seq::new((i + 1) as nat, |k: int| entry_json(l[k].0, l[k].1)));
        proof {
            let mi = JsonValue::model_items(items@);
            assert(mi.drop_last() =~= JsonValue::model_items(before));
            assert(mi.last() == e@);
            assert(l[i as int] == list@[i as int].model());
            assert(l.subrange(0, i + 1) =~= l.subrange(0, i as int).push(l[i as int]));
        }
    }
    assert(l.subrange(0, l.len() as int) =~= l);
    JsonValue::Array(items)
}

/// The listing of `scriptlets list --format json`: each name with its size in bytes.
pub open spec fn spec_listing_json(l: Seq<Scriptlet>) -> Json {
    Json::Array(
        Seq::new(
            l.len(),
            |i: int|
                Json::Object(
                    seq![
                        ("name"@, Json::Str(l[i].name@)),
                        ("size"@, json_uint((encode_utf8(l[i].content@).len() as usize) as u64)),
                    ],
                ),
        ),
    )
}

/// The JSON listing of scriptlet names and sizes.
pub fn listing_json(list: &Vec<Scriptlet>) -> (r: JsonValue)
    ensures
        r@ == spec_listing_json(list@),
{
    let ghost want = spec_listing_json(list@);
    let mut items: Vec<JsonValue> = Vec::new();
    for i in 0..list.len()
        invariant
            want == spec_listing_json(list@),
            JsonValue::model_items(items@) == want->Array_0.subrange(0, i as int),
    {
        let ghost before = items@;
        let size = list[i].content.as_str().len();
        let mut members: Vec<(String, JsonValue)> = Vec::new();
        members.push((owned("name"), JsonValue::Str(owned(list[i].name.as_str()))));
        members.push((owned("size"), uint_value(size as u64)));
        proof {
            let wi = match want->Array_0[i as int] {
                Json::Object(ms) => ms,
                _ => Seq::empty(),
            };
            lemma_model_members_ext(members@, wi);
        }
        items.push(JsonValue::Object(members));
        proof {
            lemma_model_items(items@);
            lemma_model_items(before);
            assert forall|k: int| 0 <= k < i implies JsonValue::model_items(items@)[k] == want->Array_0[k] by {
                assert(items@[k] == before[k]);
                assert(JsonValue::model_items(before)[k] == want->Array_0.subrange(0, i as int)[k]);
            }
        }
        assert(JsonValue::model_items(items@) =~= want->Array_0.subrange(0, i + 1));
    }
    assert(want->Array_0.subrange(0, list@.len() as int) =~= want->Array_0);
    JsonValue::Array(items)
}

/// Reading back the stored form of one scriptlet gives its name and content, given what
/// `encode_base64` states of the base64 text of the content's bytes.
proof fn lemma_entry_roundtrip(name: Seq<char>, content: Seq<char>)
    requires
        base64_decode(base64_encode(encode_utf8(content))) == Some(encode_utf8(content)),
        base64_encode(encode_utf8(content)).len() == (encode_utf8(content).len() + 2) / 3 * 4,
    ensures
        decode_entry(entry_json(name, content)) == Ok::<(Seq<char>, Seq<char>), EntryProblem>((name, content)),
{
    reveal_strlit("name");
    reveal_strlit("content");
    reveal_strlit("kind");
    let ms = match entry_json(name, content) {
        Json::Object(ms) => ms,
        _ => Seq::empty(),
    };
    assert(ms[0].0.len() == 4 && ms[1].0.len() == 7);
    lemma_member_index_at(ms, "name"@, 0);
    lemma_member_index_at(ms, "content"@, 1);
    let bytes = encode_utf8(content);
    encode_utf8_decode_utf8(content);
    encode_utf8_valid_utf8(content);
    if content.len() > 0 {
        assert(bytes.len() > 0) by {
            if bytes.len() == 0 {
                assert(bytes =~= Seq::<u8>::empty());
                assert(decode_utf8(Seq::<u8>::empty()) =~= Seq::<char>::empty());
            }
        }
    } else {
        assert(content =~= Seq::<char>::empty());
        assert(bytes =~= Seq::<u8>::empty());
    }
}

/// No two scriptlets share a name.
pub open spec fn unique_names(l: Seq<(Seq<char>, Seq<char>)>) -> bool {
    forall|i: int, j: int| 0 <= i < j < l.len() ==> (#[trigger] l[i]).0 != (#[trigger] l[j]).0
}

/// What remains after removing a name comes from the list, and keeps names unique.
pub proof fn lemma_without_name_sub(l: Seq<(Seq<char>, Seq<char>)>, name: Seq<char>)
    ensures
        forall|i: int| 0 <= i < without_name(l, name).len() ==> l.contains(#[trigger] without_name(l, name)[i]),
        unique_names(l) ==> unique_names(without_name(l, name)),
    decreases l.len(),
{
    if l.len() > 0 {
        let p = l.drop_last();
        lemma_without_name_sub(p, name);
        let w = without_name(p, name);
        assert forall|i: int| 0 <= i < w.len() implies l.contains(#[trigger] w[i]) by {
            let k = choose|k: int| 0 <= k < p.len() && p[k] == w[i];
            assert(l[k] == w[i]);
        }
        if l.last().0 != name {
            let w2 = w.push(l.last());
            assert forall|i: int| 0 <= i < w2.len() implies l.contains(#[trigger] w2[i]) by {
                if i < w.len() {
                    assert(w2[i] == w[i]);
                } else {
                    assert(l[l.len() - 1] == w2[i]);
                }
            }
            if unique_names(l) {
                assert(unique_names(p)) by {
                    assert forall|i: int, j: int| 0 <= i < j < p.len() implies (#[trigger] p[i]).0 != (#[trigger] p[j]).0 by {
                        assert(p[i] == l[i] && p[j] == l[j]);
                    }
                }
                assert forall|i: int, j: int| 0 <= i < j < w2.len() implies (#[trigger] w2[i]).0 != (#[trigger] w2[j]).0 by {
                    if j == w.len() {
                        let k = choose|k: int| 0 <= k < p.len() && p[k] == w[i];
                        assert(w2[i] == l[k]);
                        assert(w2[j] == l[l.len() - 1]);
                    } else {
                        assert(w2[i] == w[i] && w2[j] == w[j]);
                    }
                }
            }
        } else {
            if unique_names(l) {
                assert(unique_names(p)) by {
                    assert forall|i: int, j: int| 0 <= i < j < p.len() implies (#[trigger] p[i]).0 != (#[trigger] p[j]).0 by {
                        assert(p[i] == l[i] && p[j] == l[j]);
                    }
                }
            }
        }
    }
}

/// Adding a scriptlet: it is the last one and the only one with its name, the others keep
/// their order and content, and names stay unique.
pub proof fn lemma_add_scriptlet(l: Seq<(Seq<char>, Seq<char>)>, name: Seq<char>, content: Seq<char>)
    ensures
        spec_add(l, name, content).last() == (name, content),
        forall|i: int| 0 <= i < spec_add(l, name, content).len() - 1 ==> (#[trigger] spec_add(l, name, content)[i]).0 != name,
        without_name(spec_add(l, name, content), name) == without_name(l, name),
        unique_names(l) ==> unique_names(spec_add(l, name, content)),
{
    let w = without_name(l, name);
    let a = spec_add(l, name, content);
    lemma_without_name_len(l, name);
    lemma_without_name_sub(l, name);
    assert(a.drop_last() =~= w);
    assert forall|i: int| 0 <= i < a.len() - 1 implies (#[trigger] a[i]).0 != name by {
        assert(a[i] == w[i]);
        assert(!has_name(w, name));
    }
    lemma_without_name_len(w, name);
    if unique_names(l) {
        assert forall|i: int, j: int| 0 <= i < j < a.len() implies (#[trigger] a[i]).0 != (#[trigger] a[j]).0 by {
            if j == a.len() - 1 {
                assert(a[i] == w[i]);
            } else {
                assert(a[i] == w[i] && a[j] == w[j]);
            }
        }
    }
}

/// Read all custom scriptlets from the stored document; none when nothing is stored
/// (no database, or no `SCRIPTLETS` key).
pub fn read_scriptlets(stored: Option<&JsonValue>) -> (r: Result<Vec<Scriptlet>, CliError>)
    ensures
        match stored {
            None => r matches Ok(l) && l@.len() == 0,
            Some(v) => match r {
                Ok(l) => spec_scriptlets_from_json(v@) == Ok::<Seq<(Seq<char>, Seq<char>)>, EntryProblem>(
                    scriptlets_model(l@),
                ),
                Err(e) => spec_scriptlets_from_json(v@) matches Err(p) && reports_entry(e, p),
            },
        },
{
    match stored {
        None => Ok(Vec::new()),
        Some(v) => scriptlets_from_json(v),
    }
}

/// Remove all custom scriptlets.
pub fn clear_scriptlets(list: &mut Vec<Scriptlet>)
    ensures
        final(list)@.len() == 0,
{
    list.clear();
}

} // verus!

verus! {

/// The scriptlet names that are accepted (by `validate_name`, and so by `add_scriptlet`, which
/// then adds the scriptlet as the last one) are exactly those made of characters with codes
/// below 128 (letters, digits and punctuation alike), holding no `/`, no `\` and no `..`,
/// starting with `user-` and ending with `.js`.
pub proof fn lemma_accepted_scriptlet_names(name: Seq<char>, l: Seq<(Seq<char>, Seq<char>)>, content: Seq<char>)
    ensures
        name_problem(name) is None <==> {
            &&& forall|i: int| 0 <= i < name.len() ==> (#[trigger] name[i] as u32) < 128
            &&& forall|i: int| 0 <= i < name.len() ==> #[trigger] name[i] != '/' && name[i] != '\\'
            &&& forall|i: int| 0 <= i && i + 1 < name.len() ==> !(#[trigger] name[i] == '.' && name[i + 1] == '.')
            &&& name.len() >= 8
            &&& name[0] == 'u' && name[1] == 's' && name[2] == 'e' && name[3] == 'r' && name[4] == '-'
            &&& name[name.len() - 3] == '.' && name[name.len() - 2] == 'j' && name[name.len() - 1] == 's'
        },
        name_problem(name) is None ==> spec_add(l, name, content).last() == (name, content),
{
    reveal_strlit("user-");
    reveal_strlit(".js");
    let pre = "user-"@;
    let suf = ".js"@;
    if name_problem(name) is None {
        assert(name.subrange(0, 5) == pre);
        assert(name.subrange(name.len() - 3, name.len() as int) == suf);
        assert(name[0] == name.subrange(0, 5)[0]);
        assert(name[1] == name.subrange(0, 5)[1]);
        assert(name[2] == name.subrange(0, 5)[2]);
        assert(name[3] == name.subrange(0, 5)[3]);
        assert(name[4] == name.subrange(0, 5)[4]);
        assert(name[name.len() - 3] == name.subrange(name.len() - 3, name.len() as int)[0]);
        assert(name[name.len() - 2] == name.subrange(name.len() - 3, name.len() as int)[1]);
        assert(name[name.len() - 1] == name.subrange(name.len() - 3, name.len() as int)[2]);
        if name.len() < 8 {
            // the prefix and suffix overlap: `user-` ends in `-`, `.js` starts with `.`
            if name.len() == 5 {
                assert(name[4] == '-' && name[2] == '.');
            } else if name.len() == 6 {
                assert(name[3] == '.');
            } else {
                assert(name[4] == '.');
            }
        }
        assert forall|i: int| 0 <= i < name.len() implies #[trigger] name[i] != '/' && name[i] != '\\' by {
            if name[i] == '/' {
                assert(contains_char(name, '/'));
            }
            if name[i] == '\\' {
                assert(contains_char(name, '\\'));
            }
        }
        assert forall|i: int| 0 <= i && i + 1 < name.len() implies !(#[trigger] name[i] == '.' && name[i + 1] == '.') by {
            if name[i] == '.' && name[i + 1] == '.' {
                assert(contains_dot_dot(name));
            }
        }
    }
    if ({
        &&& forall|i: int| 0 <= i < name.len() ==> (#[trigger] name[i] as u32) < 128
        &&& forall|i: int| 0 <= i < name.len() ==> #[trigger] name[i] != '/' && name[i] != '\\'
        &&& forall|i: int| 0 <= i && i + 1 < name.len() ==> !(#[trigger] name[i] == '.' && name[i + 1] == '.')
        &&& name.len() >= 8
        &&& name[0] == 'u' && name[1] == 's' && name[2] == 'e' && name[3] == 'r' && name[4] == '-'
        &&& name[name.len() - 3] == '.' && name[name.len() - 2] == 'j' && name[name.len() - 1] == 's'
    }) {
        assert(name.subrange(0, 5) =~= pre);
        assert(name.subrange(name.len() - 3, name.len() as int) =~= suf);
        assert(!contains_char(name, '/'));
        assert(!contains_char(name, '\\'));
        assert(!contains_dot_dot(name)) by {
            if contains_dot_dot(name) {
                let i = choose|i: int| 0 <= i < name.len() - 1 && name[i] == '.' && #[trigger] name[i + 1] == '.';
                assert(!(name[i] == '.' && name[i + 1] == '.'));
            }
        }
    }
    lemma_add_scriptlet(l, name, content);
}

} // verus!
