//! Plain-value models of parsed TOML and JSON documents.
//!
//! Manifest files are read and deserialized at the edge of the program into
//! these trees; the manifest logic only ever reads (and, for JSON, edits)
//! them. Tables and objects keep their entries in the order the document
//! model yields them.
use vstd::prelude::*;
use crate::text::str_eq;

verus! {

broadcast use vstd::string::group_string_axioms;

/// A TOML value.
#[derive(Debug)]
pub enum TomlValue {
    String(String),
    Integer(i64),
    /// A float, kept as its IEEE-754 bit pattern.
    Float(u64),
    Boolean(bool),
    /// A date-time, kept as written.
    Datetime(String),
    Array(Vec<TomlValue>),
    Table(Vec<(String, TomlValue)>),
}

/// A JSON value.
#[derive(Debug)]
pub enum JsonValue {
    Null,
    Bool(bool),
    /// A number, kept as its decimal text.
    Number(String),
    String(String),
    Array(Vec<JsonValue>),
    Object(Vec<(String, JsonValue)>),
}

pub open spec fn opt_ref<T>(r: Option<&T>) -> Option<T> {
    match r {
        Some(v) => Some(*v),
        None => None,
    }
}

// ── TOML ────────────────────────────────────────────────────────────────────

/// The value stored under the first entry named `key`.
pub open spec fn toml_lookup(entries: Seq<(String, TomlValue)>, key: Seq<char>) -> Option<TomlValue>
    decreases entries.len(),
{
    if entries.len() == 0 {
        None
    } else if entries[0].0@ == key {
        Some(entries[0].1)
    } else {
        toml_lookup(entries.drop_first(), key)
    }
}

/// `value.get(key)`: the entry of a table, nothing for any other value.
pub open spec fn toml_get(v: TomlValue, key: Seq<char>) -> Option<TomlValue> {
    match v {
        TomlValue::Table(e) => toml_lookup(e@, key),
        _ => None,
    }
}

/// `get` on an optional value.
pub open spec fn toml_get_opt(v: Option<TomlValue>, key: Seq<char>) -> Option<TomlValue> {
    match v {
        Some(x) => toml_get(x, key),
        None => None,
    }
}

/// The string held by an optional value, if it is a string.
pub open spec fn toml_str(v: Option<TomlValue>) -> Option<Seq<char>> {
    match v {
        Some(TomlValue::String(s)) => Some(s@),
        _ => None,
    }
}

/// The string held by an optional value, or `dflt`.
pub open spec fn toml_str_or(v: Option<TomlValue>, dflt: Seq<char>) -> Seq<char> {
    match toml_str(v) {
        Some(s) => s,
        None => dflt,
    }
}

/// The entries of an optional value, if it is a table.
pub open spec fn toml_table(v: Option<TomlValue>) -> Option<Seq<(String, TomlValue)>> {
    match v {
        Some(TomlValue::Table(e)) => Some(e@),
        _ => None,
    }
}

/// The items of an optional value, if it is an array.
pub open spec fn toml_array(v: Option<TomlValue>) -> Option<Seq<TomlValue>> {
    match v {
        Some(TomlValue::Array(a)) => Some(a@),
        _ => None,
    }
}

pub fn toml_lookup_exec<'a>(entries: &'a Vec<(String, TomlValue)>, key: &str) -> (r: Option<&'a TomlValue>)
    ensures
        opt_ref(r) == toml_lookup(entries@, key@),
{
    let mut i: usize = 0;
    assert(entries@.skip(0) == entries@);
    while i < entries.len()
        invariant
            i <= entries.len(),
            toml_lookup(entries@, key@) == toml_lookup(entries@.skip(i as int), key@),
        decreases entries.len() - i,
    {
        let ghost rest = entries@.skip(i as int);
        assert(rest[0] == entries@[i as int]);
        if str_eq(entries[i].0.as_str(), key) {
            return Some(&entries[i].1);
        }
        assert(rest.drop_first() == entries@.skip(i + 1));
        i = i + 1;
    }
    None
}

impl TomlValue {
    /// `value.get(key)`.
    pub fn get(&self, key: &str) -> (r: Option<&TomlValue>)
        ensures
            opt_ref(r) == toml_get(*self, key@),
    {
        match self {
            TomlValue::Table(e) => toml_lookup_exec(e, key),
            _ => None,
        }
    }

    /// The string, if this is a string.
    pub fn as_str(&self) -> (r: Option<&String>)
        ensures
            match r {
                Some(s) => toml_str(Some(*self)) == Some(s@),
                None => toml_str(Some(*self)) is None,
            },
    {
        match self {
            TomlValue::String(s) => Some(s),
            _ => None,
        }
    }
}

/// `v.get(key)` on an optional value.
pub fn toml_get_in<'a>(v: Option<&'a TomlValue>, key: &str) -> (r: Option<&'a TomlValue>)
    ensures
        opt_ref(r) == toml_get_opt(opt_ref(v), key@),
{
    match v {
        Some(x) => x.get(key),
        None => None,
    }
}

/// The string held by an optional value, or `dflt`.
pub fn toml_str_or_exec(v: Option<&TomlValue>, dflt: &str) -> (r: String)
    ensures
        r@ == toml_str_or(opt_ref(v), dflt@),
{
    match v {
        Some(TomlValue::String(s)) => s.clone(),
        _ => dflt.to_string(),
    }
}

/// The string held by an optional value, copied.
pub fn toml_str_exec(v: Option<&TomlValue>) -> (r: Option<String>)
    ensures
        match r {
            Some(s) => toml_str(opt_ref(v)) == Some(s@),
            None => toml_str(opt_ref(v)) is None,
        },
{
    match v {
        Some(TomlValue::String(s)) => Some(s.clone()),
        _ => None,
    }
}

// ── JSON ────────────────────────────────────────────────────────────────────

/// The value stored under the first member named `key`.
pub open spec fn json_lookup(members: Seq<(String, JsonValue)>, key: Seq<char>) -> Option<JsonValue>
    decreases members.len(),
{
    if members.len() == 0 {
        None
    } else if members[0].0@ == key {
        Some(members[0].1)
    } else {
        json_lookup(members.drop_first(), key)
    }
}

/// `value.get(key)`: the member of an object, nothing for any other value.
pub open spec fn json_get(v: JsonValue, key: Seq<char>) -> Option<JsonValue> {
    match v {
        JsonValue::Object(m) => json_lookup(m@, key),
        _ => None,
    }
}

/// The string held by an optional value, if it is a string.
pub open spec fn json_str(v: Option<JsonValue>) -> Option<Seq<char>> {
    match v {
        Some(JsonValue::String(s)) => Some(s@),
        _ => None,
    }
}

/// The string held by an optional value, or `dflt`.
pub open spec fn json_str_or(v: Option<JsonValue>, dflt: Seq<char>) -> Seq<char> {
    match json_str(v) {
        Some(s) => s,
        None => dflt,
    }
}

pub fn json_lookup_exec<'a>(members: &'a Vec<(String, JsonValue)>, key: &str) -> (r: Option<&'a JsonValue>)
    ensures
        opt_ref(r) == json_lookup(members@, key@),
{
    let mut i: usize = 0;
    assert(members@.skip(0) == members@);
    while i < members.len()
        invariant
            i <= members.len(),
            json_lookup(members@, key@) == json_lookup(members@.skip(i as int), key@),
        decreases members.len() - i,
    {
        let ghost rest = members@.skip(i as int);
        assert(rest[0] == members@[i as int]);
        if str_eq(members[i].0.as_str(), key) {
            return Some(&members[i].1);
        }
        assert(rest.drop_first() == members@.skip(i + 1));
        i = i + 1;
    }
    None
}

impl JsonValue {
    /// `value.get(key)`.
    pub fn get(&self, key: &str) -> (r: Option<&JsonValue>)
        ensures
            opt_ref(r) == json_get(*self, key@),
    {
        match self {
            JsonValue::Object(m) => json_lookup_exec(m, key),
            _ => None,
        }
    }
}

/// The string held by an optional value, or `dflt`.
pub fn json_str_or_exec(v: Option<&JsonValue>, dflt: &str) -> (r: String)
    ensures
        r@ == json_str_or(opt_ref(v), dflt@),
{
    match v {
        Some(JsonValue::String(s)) => s.clone(),
        _ => dflt.to_string(),
    }
}

/// The string held by an optional value, copied.
pub fn json_str_exec(v: Option<&JsonValue>) -> (r: Option<String>)
    ensures
        match r {
            Some(s) => json_str(opt_ref(v)) == Some(s@),
            None => json_str(opt_ref(v)) is None,
        },
{
    match v {
        Some(JsonValue::String(s)) => Some(s.clone()),
        _ => None,
    }
}

/// The mathematical form of a JSON value.
pub enum JsonView {
    Null,
    Bool(bool),
    Number(Seq<char>),
    String(Seq<char>),
    Array(Seq<JsonView>),
    Object(Seq<(Seq<char>, JsonView)>),
}

pub open spec fn json_view(j: JsonValue) -> JsonView
    decreases j,
{
    match j {
        JsonValue::Null => JsonView::Null,
        JsonValue::Bool(b) => JsonView::Bool(b),
        JsonValue::Number(n) => JsonView::Number(n@),
        JsonValue::String(s) => JsonView::String(s@),
        JsonValue::Array(a) => JsonView::Array(
            Seq::new(
                a@.len(),
                |i: int|
                    if 0 <= i < a@.len() {
                        json_view(a@[i])
                    } else {
                        JsonView::Null
                    },
            ),
        ),
        JsonValue::Object(m) => JsonView::Object(
            Seq::new(
                m@.len(),
                |i: int|
                    if 0 <= i < m@.len() {
                        (m@[i].0@, json_view(m@[i].1))
                    } else {
                        (Seq::empty(), JsonView::Null)
                    },
            ),
        ),
    }
}

/// The members of an object, viewed.
pub open spec fn members_view(m: Seq<(String, JsonValue)>) -> Seq<(Seq<char>, JsonView)> {
    Seq::new(m.len(), |i: int| (m[i].0@, json_view(m[i].1)))
}

impl View for JsonValue {
    type V = JsonView;

    open spec fn view(&self) -> JsonView {
        json_view(*self)
    }
}

pub proof fn lemma_object_view(m: Vec<(String, JsonValue)>)
    ensures
        json_view(JsonValue::Object(m)) == JsonView::Object(members_view(m@)),
{
    assert(members_view(m@) =~= match json_view(JsonValue::Object(m)) {
        JsonView::Object(v) => v,
        _ => Seq::empty(),
    });
}

/// Index of the first member named `k`, or the number of members.
pub open spec fn key_index(m: Seq<(Seq<char>, JsonView)>, k: Seq<char>) -> int
    decreases m.len(),
{
    if m.len() == 0 {
        0
    } else if m[0].0 == k {
        0
    } else {
        1 + key_index(m.drop_first(), k)
    }
}

/// The value of the member named `k`, if any.
pub open spec fn member_of(m: Seq<(Seq<char>, JsonView)>, k: Seq<char>) -> Option<JsonView> {
    if key_index(m, k) < m.len() {
        Some(m[key_index(m, k)].1)
    } else {
        None
    }
}

/// The members with `k` set to `v`: replaced in place if present, else added
/// at the end.
pub open spec fn set_member(m: Seq<(Seq<char>, JsonView)>, k: Seq<char>, v: JsonView) -> Seq<(Seq<char>, JsonView)> {
    if key_index(m, k) < m.len() {
        m.update(key_index(m, k), (k, v))
    } else {
        m.push((k, v))
    }
}

/// The members without the member named `k`.
pub open spec fn remove_member(m: Seq<(Seq<char>, JsonView)>, k: Seq<char>) -> Seq<(Seq<char>, JsonView)> {
    if key_index(m, k) < m.len() {
        m.remove(key_index(m, k))
    } else {
        m
    }
}

pub proof fn lemma_key_index(m: Seq<(Seq<char>, JsonView)>, k: Seq<char>)
    ensures
        0 <= key_index(m, k) <= m.len(),
        key_index(m, k) < m.len() ==> m[key_index(m, k)].0 == k,
        forall|j: int| 0 <= j < key_index(m, k) ==> m[j].0 != k,
    decreases m.len(),
{
    if m.len() > 0 && m[0].0 != k {
        lemma_key_index(m.drop_first(), k);
        assert forall|j: int| 0 <= j < key_index(m, k) implies m[j].0 != k by {
            if j > 0 {
                assert(m[j] == m.drop_first()[j - 1]);
            }
        }
    }
}

pub proof fn lemma_key_index_unique(m: Seq<(Seq<char>, JsonView)>, k: Seq<char>, i: int)
    requires
        0 <= i <= m.len(),
        i < m.len() ==> m[i].0 == k,
        forall|j: int| 0 <= j < i ==> m[j].0 != k,
    ensures
        key_index(m, k) == i,
    decreases i,
{
    if i > 0 {
        assert(m[0].0 != k);
        assert forall|j: int| 0 <= j < i - 1 implies m.drop_first()[j].0 != k by {
            assert(m.drop_first()[j] == m[j + 1]);
        }
        if i < m.len() {
            assert(m.drop_first()[i - 1] == m[i]);
        }
        lemma_key_index_unique(m.drop_first(), k, i - 1);
    }
}

/// No key occurs twice among the members (as in every object that a JSON
/// text parses into).
pub open spec fn distinct_keys(m: Seq<(Seq<char>, JsonView)>) -> bool {
    forall|i: int, j: int| 0 <= i < j < m.len() ==> m[i].0 != m[j].0
}

/// A member set to a value reads back as that value.
pub proof fn lemma_member_of_set(m: Seq<(Seq<char>, JsonView)>, k: Seq<char>, v: JsonView)
    ensures
        member_of(set_member(m, k, v), k) == Some(v),
{
    lemma_key_index(m, k);
    let u = set_member(m, k, v);
    let i = key_index(m, k);
    if i < m.len() {
        assert forall|j: int| 0 <= j < i implies u[j].0 != k by {}
        lemma_key_index_unique(u, k, i);
    } else {
        assert forall|j: int| 0 <= j < m.len() implies u[j].0 != k by {
            assert(u[j] == m[j]);
        }
        lemma_key_index_unique(u, k, m.len() as int);
    }
}

/// Setting a member to the value it was just set to changes nothing.
pub proof fn lemma_set_member_twice(m: Seq<(Seq<char>, JsonView)>, k: Seq<char>, v: JsonView)
    ensures
        set_member(set_member(m, k, v), k, v) == set_member(m, k, v),
{
    let u = set_member(m, k, v);
    lemma_member_of_set(m, k, v);
    lemma_key_index(u, k);
    let i = key_index(u, k);
    assert(u[i] == (k, v));
    assert(u.update(i, (k, v)) =~= u);
}

/// Replacing the value of a member keeps every key where it was.
pub proof fn lemma_key_index_update(m: Seq<(Seq<char>, JsonView)>, i: int, v: JsonView, k: Seq<char>)
    requires
        0 <= i < m.len(),
    ensures
        key_index(m.update(i, (m[i].0, v)), k) == key_index(m, k),
{
    lemma_key_index(m, k);
    let u = m.update(i, (m[i].0, v));
    assert forall|j: int| 0 <= j < key_index(m, k) implies u[j].0 != k by {}
    lemma_key_index_unique(u, k, key_index(m, k));
}

/// Removing a member from members with distinct keys leaves no member of
/// that key.
pub proof fn lemma_remove_member_absent(m: Seq<(Seq<char>, JsonView)>, k: Seq<char>)
    requires
        distinct_keys(m),
    ensures
        member_of(remove_member(m, k), k) is None,
{
    lemma_key_index(m, k);
    let i = key_index(m, k);
    let r = remove_member(m, k);
    if i < m.len() {
        assert forall|j: int| 0 <= j < r.len() implies r[j].0 != k by {
            if j < i {
                assert(r[j] == m[j]);
            } else {
                assert(r[j] == m[j + 1]);
                assert(m[i].0 != m[j + 1].0);
            }
        }
        lemma_key_index_unique(r, k, r.len() as int);
    } else {
        lemma_key_index_unique(r, k, r.len() as int);
    }
}

/// Index of the member named `key`, or the number of members.
pub fn find_member(members: &Vec<(String, JsonValue)>, key: &str) -> (i: usize)
    ensures
        i == key_index(members_view(members@), key@),
{
    let ghost mv = members_view(members@);
    let mut i: usize = 0;
    while i < members.len() && !str_eq(members[i].0.as_str(), key)
        invariant
            i <= members.len(),
            mv == members_view(members@),
            forall|j: int| 0 <= j < i ==> mv[j].0 != key@,
        decreases members.len() - i,
    {
        i = i + 1;
    }
    proof {
        lemma_key_index_unique(mv, key@, i as int);
    }
    i
}

} // verus!
