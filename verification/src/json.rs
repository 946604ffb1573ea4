//! A JSON document as the hook installer reads and rewrites it.
//!
//! `Json` holds what a parser hands over: objects keep their members as a
//! sequence of (key, value) pairs, in the order the parser yields them (key
//! order, for serde_json's map), and numbers keep the text that denotes them.
//! `JsonValue` is its mathematical view, on which the contracts of the
//! installer are stated.
use vstd::prelude::*;
use crate::text::same_text;

verus! {

/// The mathematical view of a JSON value.
#[verifier::ext_equal]
pub enum JsonValue {
    Null,
    Bool(bool),
    Number(Seq<char>),
    Str(Seq<char>),
    Array(Seq<JsonValue>),
    Object(Seq<(Seq<char>, JsonValue)>),
}

/// A JSON value.
#[derive(Debug)]
pub enum Json {
    Null,
    Bool(bool),
    /// A number, kept as the text that denotes it.
    Number(String),
    Str(String),
    Array(Vec<Json>),
    /// Members, in the order the parser yielded them.
    Object(Vec<(String, Json)>),
}

impl View for Json {
    type V = JsonValue;

    open spec fn view(&self) -> JsonValue
        decreases self,
    {
        match self {
            Json::Null => JsonValue::Null,
            Json::Bool(b) => JsonValue::Bool(*b),
            Json::Number(n) => JsonValue::Number(n@),
            Json::Str(s) => JsonValue::Str(s@),
            Json::Array(items) => JsonValue::Array(
                Seq::new(
                    items.len() as nat,
                    |i: int|
                        if 0 <= i < items.len() {
                            items@[i]@
                        } else {
                            JsonValue::Null
                        },
                ),
            ),
            Json::Object(entries) => {
                let es = entries@;
                let vals = Seq::new(
                    es.len(),
                    |i: int|
                        if 0 <= i < es.len() {
                            es[i].1@
                        } else {
                            JsonValue::Null
                        },
                );
                JsonValue::Object(Seq::new(es.len(), |i: int| (es[i].0@, vals[i])))
            },
        }
    }
}

/// Object members.
pub type Members = Seq<(Seq<char>, JsonValue)>;

/// The views of a sequence of values.
pub open spec fn views(items: Seq<Json>) -> Seq<JsonValue> {
    Seq::new(items.len(), |i: int| items[i]@)
}

/// The views of a sequence of members.
pub open spec fn member_views(entries: Seq<(String, Json)>) -> Members {
    Seq::new(entries.len(), |i: int| (entries[i].0@, entries[i].1@))
}

/// The view of an array is the views of its items.
pub proof fn lemma_array_view(items: Vec<Json>)
    ensures
        Json::Array(items)@ == JsonValue::Array(views(items@)),
{
    let j = Json::Array(items);
    let s = j@->Array_0;
    assert(s =~= views(items@));
}

/// The view of an object is the views of its members.
pub proof fn lemma_object_view(entries: Vec<(String, Json)>)
    ensures
        Json::Object(entries)@ == JsonValue::Object(member_views(entries@)),
{
    let j = Json::Object(entries);
    let s = j@->Object_0;
    assert(s.len() == entries@.len());
    assert forall|i: int| 0 <= i < s.len() implies s[i] == member_views(entries@)[i] by {
        let e = entries@[i];
        assert(s[i].0 == e.0@);
        assert(s[i].1 == e.1@);
    }
    assert(s =~= member_views(entries@));
}

/// Position of the first member with key `k` at or after `i`.
pub open spec fn key_index_from(es: Members, k: Seq<char>, i: int) -> Option<int>
    decreases es.len() - i,
{
    if i < 0 || i >= es.len() {
        None
    } else if es[i].0 == k {
        Some(i)
    } else {
        key_index_from(es, k, i + 1)
    }
}

/// Position of the member with key `k`.
pub open spec fn key_index(es: Members, k: Seq<char>) -> Option<int> {
    key_index_from(es, k, 0)
}

/// `Map::get`: the value of the member with key `k`.
pub open spec fn field(es: Members, k: Seq<char>) -> Option<JsonValue> {
    match key_index(es, k) {
        Some(i) => Some(es[i].1),
        None => None,
    }
}

/// `Map::insert` on the member sequence: the member with key `k` gets value
/// `v` in place, or a new member is appended when there is none. (Printing
/// goes through serde_json's map, which orders members by key.)
pub open spec fn with_field(es: Members, k: Seq<char>, v: JsonValue) -> Members {
    match key_index(es, k) {
        Some(i) => es.update(i, (k, v)),
        None => es.push((k, v)),
    }
}

/// `Value::get` with a key: the member of an object; nothing for other values.
pub open spec fn member(v: JsonValue, k: Seq<char>) -> Option<JsonValue> {
    match v {
        JsonValue::Object(es) => field(es, k),
        _ => None,
    }
}

/// No two members share a key (as in any parsed object).
pub open spec fn keys_unique(es: Members) -> bool {
    forall|i: int, j: int| 0 <= i < es.len() && 0 <= j < es.len() && i != j ==> es[i].0 != es[j].0
}

/// Every object in the value, at any depth, has unique keys (as every
/// value that serde_json parses).
pub open spec fn json_keys_unique(v: JsonValue) -> bool
    decreases v,
{
    match v {
        JsonValue::Array(items) => forall|i: int|
            0 <= i < items.len() ==> json_keys_unique(#[trigger] items[i]),
        JsonValue::Object(es) => keys_unique(es) && forall|i: int|
            0 <= i < es.len() ==> json_keys_unique(#[trigger] es[i].1),
        _ => true,
    }
}

/// Two values are the same document up to the order of object members:
/// scalars are equal, arrays hold the same items in the same order, and
/// objects, each with unique keys, have the same keys with the same values.
pub open spec fn json_same(a: JsonValue, b: JsonValue) -> bool
    decreases a,
{
    match a {
        JsonValue::Array(xs) => match b {
            JsonValue::Array(ys) => xs.len() == ys.len() && forall|i: int|
                0 <= i < xs.len() ==> json_same(#[trigger] xs[i], ys[i]),
            _ => false,
        },
        JsonValue::Object(es) => match b {
            JsonValue::Object(fs) => {
                &&& keys_unique(es)
                &&& keys_unique(fs)
                &&& forall|i: int|
                    0 <= i < es.len() ==> (#[trigger] field(fs, es[i].0) matches Some(w)
                        && json_same(es[i].1, w))
                &&& forall|j: int| 0 <= j < fs.len() ==> #[trigger] key_index(es, fs[j].0) is Some
            },
            _ => false,
        },
        _ => a == b,
    }
}

/// Two optional values are both absent, or both present and the same.
pub open spec fn json_same_opt(a: Option<JsonValue>, b: Option<JsonValue>) -> bool {
    match a {
        Some(x) => match b {
            Some(y) => json_same(x, y),
            None => false,
        },
        None => b is None,
    }
}

/// In an object with unique keys, each member is found under its own key.
pub proof fn lemma_unique_key_index(es: Members, i: int)
    requires
        keys_unique(es),
        0 <= i < es.len(),
    ensures
        key_index(es, es[i].0) == Some(i),
        field(es, es[i].0) == Some(es[i].1),
{
    lemma_key_index_first(es, es[i].0, i);
}

/// Two documents that are the same have the same members, each the same.
pub proof fn lemma_same_member(a: JsonValue, b: JsonValue, k: Seq<char>)
    requires
        json_same(a, b),
    ensures
        json_same_opt(member(a, k), member(b, k)),
{
    match a {
        JsonValue::Object(es) => {
            let fs = b->Object_0;
            lemma_key_index(es, k);
            lemma_key_index(fs, k);
            match key_index(es, k) {
                Some(i) => {
                    assert(field(fs, es[i].0) is Some);
                },
                None => {
                    if key_index(fs, k) is Some {
                        let j = key_index(fs, k)->0;
                        assert(key_index(es, fs[j].0) is Some);
                    }
                },
            }
        },
        _ => {},
    }
}

/// What `key_index_from` answers has the key, and no member before it does.
pub proof fn lemma_key_index_from(es: Members, k: Seq<char>, i: int)
    requires
        0 <= i,
    ensures
        match key_index_from(es, k, i) {
            Some(n) => i <= n < es.len() && es[n].0 == k && forall|j: int|
                i <= j < n ==> es[j].0 != k,
            None => forall|j: int| i <= j < es.len() ==> es[j].0 != k,
        },
    decreases es.len() - i,
{
    if i < es.len() && es[i].0 != k {
        lemma_key_index_from(es, k, i + 1);
    }
}

/// The first member with key `k` is what `key_index` answers.
pub proof fn lemma_key_index_first(es: Members, k: Seq<char>, n: int)
    requires
        0 <= n < es.len(),
        es[n].0 == k,
        forall|j: int| 0 <= j < n ==> es[j].0 != k,
    ensures
        key_index(es, k) == Some(n),
{
    lemma_key_index_from(es, k, 0);
    if key_index(es, k) is None {
        assert(es[n].0 != k);
    }
}

/// The key index, described.
pub proof fn lemma_key_index(es: Members, k: Seq<char>)
    ensures
        match key_index(es, k) {
            Some(n) => 0 <= n < es.len() && es[n].0 == k && forall|j: int|
                0 <= j < n ==> es[j].0 != k,
            None => forall|j: int| 0 <= j < es.len() ==> es[j].0 != k,
        },
{
    lemma_key_index_from(es, k, 0);
}

/// Setting a member and reading it back.
pub proof fn lemma_with_field(es: Members, k: Seq<char>, v: JsonValue, k2: Seq<char>)
    ensures
        field(with_field(es, k, v), k2) == if k2 == k {
            Some(v)
        } else {
            field(es, k2)
        },
        key_index(es, k) is Some ==> with_field(es, k, v).len() == es.len(),
{
    lemma_key_index(es, k);
    lemma_key_index(es, k2);
    let r = with_field(es, k, v);
    lemma_key_index(r, k2);
    match key_index(es, k) {
        Some(i) => {
            if k2 == k {
                lemma_key_index_first(r, k2, i);
            } else {
                match key_index(es, k2) {
                    Some(n) => {
                        lemma_key_index_first(r, k2, n);
                    },
                    None => {},
                }
            }
        },
        None => {
            if k2 == k {
                lemma_key_index_first(r, k2, es.len() as int);
            } else {
                match key_index(es, k2) {
                    Some(n) => {
                        lemma_key_index_first(r, k2, n);
                    },
                    None => {},
                }
            }
        },
    }
}

/// Setting a member to the value it already has changes nothing.
pub proof fn lemma_with_same_field(es: Members, k: Seq<char>, v: JsonValue)
    requires
        field(es, k) == Some(v),
    ensures
        with_field(es, k, v) == es,
{
    lemma_key_index(es, k);
    let i = key_index(es, k)->0;
    assert(es.update(i, (k, v)) =~= es);
}

impl Json {
    /// An object with no members.
    pub fn empty_object() -> (r: Json)
        ensures
            r@ == JsonValue::Object(Seq::empty()),
            json_keys_unique(r@),
    {
        let es: Vec<(String, Json)> = Vec::new();
        proof {
            lemma_object_view(es);
            assert(member_views(es@) =~= Seq::empty());
        }
        Json::Object(es)
    }
}

/// Position of the member with key `key`.
pub fn find_key(entries: &Vec<(String, Json)>, key: &str) -> (r: Option<usize>)
    ensures
        match r {
            Some(i) => key_index(member_views(entries@), key@) == Some(i as int) && i
                < entries.len() && entries@[i as int].0@ == key@,
            None => key_index(member_views(entries@), key@) is None,
        },
{
    let ghost es = member_views(entries@);
    let mut i: usize = 0;
    while i < entries.len()
        invariant
            i <= entries.len(),
            es == member_views(entries@),
            key_index(es, key@) == key_index_from(es, key@, i as int),
        decreases entries.len() - i,
    {
        if same_text(entries[i].0.as_str(), key) {
            proof {
                lemma_key_index_from(es, key@, i as int);
            }
            return Some(i);
        }
        i += 1;
    }
    None
}

} // verus!
