//! The JSON value model that the data formats are converted through.
//!
//! Objects keep their members sorted by key, each key once, as the map of
//! the JSON library orders them; arrays keep their order.

use vstd::prelude::*;
use serde_json::Value as LibJson;
use crate::text::str_eq as str_equal;

verus! {

broadcast use vstd::std_specs::vec::group_vec_axioms, vstd::seq::group_seq_axioms;

/// A JSON value as the converters hold it. A number is kept as the decimal
/// text the JSON library writes for it.
#[derive(Debug)]
pub enum Value {
    Null,
    Bool(bool),
    Number(String),
    String(String),
    Array(Vec<Value>),
    Object(Vec<(String, Value)>),
}

/// The mathematical JSON value that a `Value` stands for.
#[verifier::ext_equal]
pub enum Json {
    Null,
    Bool(bool),
    Number(Seq<char>),
    Str(Seq<char>),
    Array(Seq<Json>),
    Object(Seq<(Seq<char>, Json)>),
}

/// The JSON value a `Value` holds.
pub open spec fn json_of(v: Value) -> Json
    decreases v, 0nat,
{
    match v {
        Value::Null => Json::Null,
        Value::Bool(b) => Json::Bool(b),
        Value::Number(t) => Json::Number(t@),
        Value::String(s) => Json::Str(s@),
        Value::Array(items) => Json::Array(json_of_items(items@)),
        Value::Object(members) => Json::Object(json_of_members(members@)),
    }
}

/// The JSON values of a sequence of `Value`s.
pub open spec fn json_of_items(items: Seq<Value>) -> Seq<Json>
    decreases items, 1nat,
{
    if items.len() == 0 {
        Seq::empty()
    } else {
        json_of_items(items.drop_last()).push(json_of(items.last()))
    }
}

/// The JSON members of a sequence of keyed `Value`s.
pub open spec fn json_of_members(members: Seq<(String, Value)>) -> Seq<(Seq<char>, Json)>
    decreases members, 1nat,
{
    if members.len() == 0 {
        Seq::empty()
    } else {
        let m = members.last();
        json_of_members(members.drop_last()).push((m.0@, json_of(m.1)))
    }
}


/// The order of object keys: lexicographic by code point, which is the
/// order of their UTF-8 bytes.
pub open spec fn key_lt(a: Seq<char>, b: Seq<char>) -> bool
    decreases a.len(),
{
    if a.len() == 0 {
        b.len() > 0
    } else if b.len() == 0 {
        false
    } else if a[0] != b[0] {
        a[0] < b[0]
    } else {
        key_lt(a.drop_first(), b.drop_first())
    }
}

/// The key order is a strict total order.
pub proof fn lemma_key_order(a: Seq<char>, b: Seq<char>)
    ensures
        !key_lt(a, a),
        key_lt(a, b) ==> !key_lt(b, a),
        a != b ==> key_lt(a, b) || key_lt(b, a),
    decreases a.len(),
{
    if a.len() > 0 && b.len() > 0 {
        lemma_key_order(a.drop_first(), b.drop_first());
        lemma_key_order(a.drop_first(), a.drop_first());
        if a[0] == b[0] && a != b {
            assert(a.drop_first() != b.drop_first()) by {
                if a.drop_first() == b.drop_first() {
                    assert(a =~= seq![a[0]] + a.drop_first());
                    assert(b =~= seq![b[0]] + b.drop_first());
                }
            }
        }
    } else if a.len() == 0 && b.len() == 0 {
        assert(a =~= b);
    } else if a.len() > 0 {
        lemma_key_order(a.drop_first(), a.drop_first());
    }
}

/// The key order is transitive.
pub proof fn lemma_key_lt_transitive(a: Seq<char>, b: Seq<char>, c: Seq<char>)
    requires
        key_lt(a, b),
        key_lt(b, c),
    ensures
        key_lt(a, c),
    decreases a.len(),
{
    if a.len() > 0 && b.len() > 0 && c.len() > 0 {
        if a[0] == b[0] && b[0] == c[0] {
            lemma_key_lt_transitive(a.drop_first(), b.drop_first(), c.drop_first());
        }
    }
}

/// Compares two keys in the key order.
pub fn key_less(a: &str, b: &str) -> (r: bool)
    ensures
        r == key_lt(a@, b@),
{
    let n = a.unicode_len();
    let m = b.unicode_len();
    let mut i: usize = 0;
    proof {
        assert(a@.skip(0) =~= a@);
        assert(b@.skip(0) =~= b@);
    }
    while i < n && i < m
        invariant
            n == a@.len(),
            m == b@.len(),
            i <= n,
            i <= m,
            key_lt(a@, b@) == key_lt(a@.skip(i as int), b@.skip(i as int)),
        decreases n - i,
    {
        let x = a.get_char(i);
        let y = b.get_char(i);
        proof {
            assert(a@.skip(i as int)[0] == x);
            assert(b@.skip(i as int)[0] == y);
            assert(a@.skip(i as int).drop_first() =~= a@.skip(i + 1));
            assert(b@.skip(i as int).drop_first() =~= b@.skip(i + 1));
        }
        if x != y {
            return x < y;
        }
        i = i + 1;
    }
    proof {
        assert(a@.skip(i as int).len() == n - i);
        assert(b@.skip(i as int).len() == m - i);
    }
    n < m
}


/// The members of a `Value` object, seen one by one.
pub proof fn lemma_json_of_members(ms: Seq<(String, Value)>)
    ensures
        json_of_members(ms).len() == ms.len(),
        forall|j: int| 0 <= j < ms.len() ==> #[trigger] json_of_members(ms)[j] == (ms[j].0@, json_of(ms[j].1)),
    decreases ms.len(),
{
    if ms.len() > 0 {
        lemma_json_of_members(ms.drop_last());
    }
}

/// The items of a `Value` array, seen one by one.
pub proof fn lemma_json_of_items(items: Seq<Value>)
    ensures
        json_of_items(items).len() == items.len(),
        forall|j: int| 0 <= j < items.len() ==> #[trigger] json_of_items(items)[j] == json_of(items[j]),
    decreases items.len(),
{
    if items.len() > 0 {
        lemma_json_of_items(items.drop_last());
    }
}

/// Keys strictly increase from member to member, so each key occurs once.
pub open spec fn keys_sorted(ms: Seq<(Seq<char>, Json)>) -> bool {
    forall|i: int, j: int| 0 <= i < j < ms.len() ==> key_lt(#[trigger] ms[i].0, #[trigger] ms[j].0)
}

/// Every object inside a JSON value, at any depth, has sorted keys.
pub open spec fn json_wf(j: Json) -> bool
    decreases j, 0nat,
{
    match j {
        Json::Array(items) => items_wf(items),
        Json::Object(ms) => keys_sorted(ms) && members_wf(ms),
        _ => true,
    }
}

/// Every item of the sequence is well formed.
pub open spec fn items_wf(items: Seq<Json>) -> bool
    decreases items, 1nat,
{
    if items.len() == 0 {
        true
    } else {
        items_wf(items.drop_last()) && json_wf(items.last())
    }
}

/// Every member value of the sequence is well formed.
pub open spec fn members_wf(ms: Seq<(Seq<char>, Json)>) -> bool
    decreases ms, 1nat,
{
    if ms.len() == 0 {
        true
    } else {
        members_wf(ms.drop_last()) && json_wf(ms.last().1)
    }
}

/// The members after setting `k` to `v`: the member with key `k` is
/// replaced where there is one, else a new member is placed before the
/// first greater key. This is the insertion of an ordered map.
pub open spec fn members_insert(ms: Seq<(Seq<char>, Json)>, k: Seq<char>, v: Json) -> Seq<(Seq<char>, Json)>
    decreases ms.len(),
{
    if ms.len() == 0 {
        seq![(k, v)]
    } else if ms[0].0 == k {
        seq![(k, v)] + ms.drop_first()
    } else if key_lt(k, ms[0].0) {
        seq![(k, v)] + ms
    } else {
        seq![ms[0]] + members_insert(ms.drop_first(), k, v)
    }
}

/// The value of the first member with key `k`, if any.
pub open spec fn members_get(ms: Seq<(Seq<char>, Json)>, k: Seq<char>) -> Option<Json>
    decreases ms.len(),
{
    if ms.len() == 0 {
        None
    } else if ms[0].0 == k {
        Some(ms[0].1)
    } else {
        members_get(ms.drop_first(), k)
    }
}

/// The insertion found by a scan: `i` is the first position whose key is
/// not below `k`.
proof fn lemma_members_insert_at(ms: Seq<(Seq<char>, Json)>, k: Seq<char>, v: Json, i: int)
    requires
        0 <= i <= ms.len(),
        forall|j: int| 0 <= j < i ==> key_lt(#[trigger] ms[j].0, k),
        i < ms.len() ==> !key_lt(ms[i].0, k),
    ensures
        members_insert(ms, k, v) == (if i < ms.len() && ms[i].0 == k {
            ms.take(i) + seq![(k, v)] + ms.skip(i + 1)
        } else {
            ms.take(i) + seq![(k, v)] + ms.skip(i)
        }),
    decreases i,
{
    if i == 0 {
        if ms.len() > 0 {
            lemma_key_order(ms[0].0, k);
            assert(ms.skip(1) =~= ms.drop_first());
        }
        assert(ms.skip(0) =~= ms);
        assert(ms.take(0) + seq![(k, v)] =~= seq![(k, v)]);
    } else {
        let t = ms.drop_first();
        lemma_key_order(ms[0].0, k);
        assert forall|j: int| 0 <= j < i - 1 implies key_lt(#[trigger] t[j].0, k) by {
            assert(t[j] == ms[j + 1]);
        }
        lemma_members_insert_at(t, k, v, i - 1);
        if i < ms.len() && ms[i].0 == k {
            assert(ms.take(i) + seq![(k, v)] + ms.skip(i + 1) =~= seq![ms[0]] + (t.take(i - 1) + seq![(k, v)] + t.skip(i)));
        } else {
            assert(ms.take(i) + seq![(k, v)] + ms.skip(i) =~= seq![ms[0]] + (t.take(i - 1) + seq![(k, v)] + t.skip(i - 1)));
        }
    }
}

/// Sets the member `key` of an object's member list to `value`, keeping
/// the members sorted by key as the JSON library's map does.
pub fn insert_member(members: &mut Vec<(String, Value)>, key: String, value: Value)
    ensures
        json_of_members(final(members)@) == members_insert(json_of_members(old(members)@), key@, json_of(value)),
{
    let ghost old_ms = json_of_members(members@);
    proof {
        lemma_json_of_members(members@);
    }
    let n = members.len();
    let mut i: usize = 0;
    while i < n && key_less(members[i].0.as_str(), key.as_str())
        invariant
            n == members@.len(),
            i <= n,
            old_ms == json_of_members(members@),
            old_ms.len() == n,
            forall|j: int| 0 <= j < n ==> #[trigger] old_ms[j] == (members@[j].0@, json_of(members@[j].1)),
            forall|j: int| 0 <= j < i ==> key_lt(#[trigger] old_ms[j].0, key@),
        decreases n - i,
    {
        i = i + 1;
    }
    let ghost kv = (key@, json_of(value));
    proof {
        lemma_members_insert_at(old_ms, key@, json_of(value), i as int);
    }
    if i < n && str_equal(members[i].0.as_str(), key.as_str()) {
        let ghost before = members@;
        members.set(i, (key, value));
        proof {
            lemma_json_of_members(members@);
            assert(json_of_members(members@) =~= old_ms.take(i as int) + seq![kv] + old_ms.skip(i + 1));
        }
    } else {
        members.insert(i, (key, value));
        proof {
            lemma_json_of_members(members@);
            assert(json_of_members(members@) =~= old_ms.take(i as int) + seq![kv] + old_ms.skip(i as int));
        }
    }
}

/// The value of member `key` in an object's member list, if there is one.
pub fn get_member<'a>(members: &'a Vec<(String, Value)>, key: &str) -> (r: Option<&'a Value>)
    ensures
        match r {
            Some(v) => members_get(json_of_members(members@), key@) == Some(json_of(*v)),
            None => members_get(json_of_members(members@), key@) is None,
        },
{
    let ghost ms = json_of_members(members@);
    proof {
        lemma_json_of_members(members@);
    }
    let n = members.len();
    let mut i: usize = 0;
    proof {
        assert(ms.skip(0) =~= ms);
    }
    while i < n
        invariant
            n == members@.len(),
            i <= n,
            ms.len() == n,
            ms == json_of_members(members@),
            forall|j: int| 0 <= j < n ==> #[trigger] ms[j] == (members@[j].0@, json_of(members@[j].1)),
            members_get(ms, key@) == members_get(ms.skip(i as int), key@),
        decreases n - i,
    {
        proof {
            assert(ms.skip(i as int)[0] == ms[i as int]);
            assert(ms.skip(i as int).drop_first() =~= ms.skip(i + 1));
        }
        if str_equal(members[i].0.as_str(), key) {
            proof {
                assert(ms.skip(i as int)[0].0 == key@);
                assert(ms.skip(i as int).len() > 0);
                assert(members_get(ms.skip(i as int), key@) == Some(ms.skip(i as int)[0].1));
                assert(ms[i as int].1 == json_of(members@[i as int].1));
            }
            return Some(&members[i].1);
        }
        i = i + 1;
    }
    proof {
        assert(ms.skip(i as int).len() == 0);
    }
    None
}


/// Reading back a member after setting it: the new value is found under
/// its key, and every other key keeps what it had.
pub proof fn lemma_members_get_insert(ms: Seq<(Seq<char>, Json)>, k: Seq<char>, v: Json, k2: Seq<char>)
    ensures
        members_get(members_insert(ms, k, v), k) == Some(v),
        k2 != k ==> members_get(members_insert(ms, k, v), k2) == members_get(ms, k2),
    decreases ms.len(),
{
    if ms.len() > 0 {
        let t = ms.drop_first();
        lemma_members_get_insert(t, k, v, k2);
        let r = members_insert(ms, k, v);
        if ms[0].0 == k {
            assert(r[0] == (k, v));
            assert(r.drop_first() =~= t);
        } else if key_lt(k, ms[0].0) {
            assert(r[0] == (k, v));
            assert(r.drop_first() =~= ms);
        } else {
            let u = members_insert(t, k, v);
            assert(r[0] == ms[0]);
            assert(r.drop_first() =~= u);
        }
    } else {
        let r = members_insert(ms, k, v);
        assert(r =~= seq![(k, v)]);
        assert(r[0] == (k, v));
        assert(r.drop_first() =~= Seq::<(Seq<char>, Json)>::empty());
        assert(members_get(r.drop_first(), k2) is None);
    }
}

/// Setting a member keeps an object's keys sorted, each key once.
pub proof fn lemma_members_insert_sorted(ms: Seq<(Seq<char>, Json)>, k: Seq<char>, v: Json)
    requires
        keys_sorted(ms),
    ensures
        keys_sorted(members_insert(ms, k, v)),
        forall|k2: Seq<char>| #![trigger members_get(members_insert(ms, k, v), k2)]
            (members_get(members_insert(ms, k, v), k2) is Some) <==> (k2 == k || members_get(ms, k2) is Some),
    decreases ms.len(),
{
    lemma_members_keys(ms);
    if ms.len() > 0 {
        let t = ms.drop_first();
        assert(keys_sorted(t)) by {
            assert forall|i: int, j: int| 0 <= i < j < t.len() implies key_lt(#[trigger] t[i].0, #[trigger] t[j].0) by {
                assert(t[i] == ms[i + 1]);
                assert(t[j] == ms[j + 1]);
            }
        }
        lemma_members_insert_sorted(t, k, v);
        let r = members_insert(ms, k, v);
        lemma_members_keys(r);
        lemma_members_keys(t);
        lemma_members_keys(members_insert(t, k, v));
        if ms[0].0 == k {
            assert forall|i: int, j: int| 0 <= i < j < r.len() implies key_lt(#[trigger] r[i].0, #[trigger] r[j].0) by {
                assert(r[j] == ms[j]);
                if i > 0 {
                    assert(r[i] == ms[i]);
                }
            }
        } else if key_lt(k, ms[0].0) {
            assert forall|i: int, j: int| 0 <= i < j < r.len() implies key_lt(#[trigger] r[i].0, #[trigger] r[j].0) by {
                assert(r[j] == ms[j - 1]);
                if i > 0 {
                    assert(r[i] == ms[i - 1]);
                } else if j - 1 > 0 {
                    lemma_key_lt_transitive(k, ms[0].0, ms[j - 1].0);
                }
            }
        } else {
            let u = members_insert(t, k, v);
            lemma_key_order(ms[0].0, k);
            assert forall|i: int, j: int| 0 <= i < j < r.len() implies key_lt(#[trigger] r[i].0, #[trigger] r[j].0) by {
                assert(r[j] == u[j - 1]);
                if i > 0 {
                    assert(r[i] == u[i - 1]);
                } else {
                    // u's keys are those of t plus k, all above ms[0]'s key
                    let kj = u[j - 1].0;
                    assert(members_get(u, kj) is Some) by {
                        lemma_members_get_of_key(u, j - 1);
                    }
                    if kj != k {
                        let w = choose|w: int| 0 <= w < t.len() && t[w].0 == kj;
                        assert(t[w] == ms[w + 1]);
                    }
                }
            }
        }
        assert forall|k2: Seq<char>| #![trigger members_get(members_insert(ms, k, v), k2)]
            (members_get(members_insert(ms, k, v), k2) is Some) <==> (k2 == k || members_get(ms, k2) is Some) by {
            lemma_members_get_insert(ms, k, v, k2);
        }
    } else {
        assert forall|k2: Seq<char>| #![trigger members_get(members_insert(ms, k, v), k2)]
            (members_get(members_insert(ms, k, v), k2) is Some) <==> (k2 == k || members_get(ms, k2) is Some) by {
            lemma_members_get_insert(ms, k, v, k2);
        }
    }
}

/// A key is found exactly when some member carries it.
pub proof fn lemma_members_keys(ms: Seq<(Seq<char>, Json)>)
    ensures
        forall|k: Seq<char>| #![trigger members_get(ms, k)]
            (members_get(ms, k) is Some) <==> (exists|w: int| 0 <= w < ms.len() && ms[w].0 == k),
    decreases ms.len(),
{
    if ms.len() > 0 {
        let t = ms.drop_first();
        lemma_members_keys(t);
        assert forall|k: Seq<char>| #![trigger members_get(ms, k)]
            (members_get(ms, k) is Some) <==> (exists|w: int| 0 <= w < ms.len() && ms[w].0 == k) by {
            if members_get(ms, k) is Some {
                if ms[0].0 != k {
                    assert(members_get(t, k) is Some);
                    let w = choose|w: int| 0 <= w < t.len() && t[w].0 == k;
                    assert(ms[w + 1] == t[w]);
                }
            }
            if exists|w: int| 0 <= w < ms.len() && ms[w].0 == k {
                let w = choose|w: int| 0 <= w < ms.len() && ms[w].0 == k;
                if w > 0 && ms[0].0 != k {
                    assert(t[w - 1] == ms[w]);
                    assert(members_get(t, k) is Some);
                }
            }
        }
    }
}

proof fn lemma_members_get_of_key(ms: Seq<(Seq<char>, Json)>, w: int)
    requires
        0 <= w < ms.len(),
    ensures
        members_get(ms, ms[w].0) is Some,
{
    lemma_members_keys(ms);
}


/// Setting a key greater than every key present appends its member.
pub proof fn lemma_members_insert_last(ms: Seq<(Seq<char>, Json)>, k: Seq<char>, v: Json)
    requires
        forall|j: int| 0 <= j < ms.len() ==> key_lt(#[trigger] ms[j].0, k),
    ensures
        members_insert(ms, k, v) == ms.push((k, v)),
{
    lemma_members_insert_at(ms, k, v, ms.len() as int);
    assert(ms.take(ms.len() as int) + seq![(k, v)] + ms.skip(ms.len() as int) =~= ms.push((k, v)));
}

/// In members with sorted keys, each member's key finds that member's value.
pub proof fn lemma_members_get_sorted(ms: Seq<(Seq<char>, Json)>, j: int)
    requires
        keys_sorted(ms),
        0 <= j < ms.len(),
    ensures
        members_get(ms, ms[j].0) == Some(ms[j].1),
    decreases j,
{
    if j > 0 {
        let t = ms.drop_first();
        assert(key_lt(ms[0].0, ms[j].0));
        lemma_key_order(ms[0].0, ms[0].0);
        assert(keys_sorted(t)) by {
            assert forall|a: int, b: int| 0 <= a < b < t.len() implies key_lt(#[trigger] t[a].0, #[trigger] t[b].0) by {
                assert(t[a] == ms[a + 1]);
                assert(t[b] == ms[b + 1]);
            }
        }
        lemma_members_get_sorted(t, j - 1);
        assert(t[j - 1] == ms[j]);
    }
}

/// A value of the JSON library; what it holds is opaque.
#[verifier::external_type_specification]
#[verifier::external_body]
pub struct ExSerdeJsonValue(LibJson);

/// Takes a value of the JSON library into the converter's model, variant
/// for variant: a number keeps the text the library writes for it, and an
/// object its members in the library's (key) order.
#[verifier::external_body]
pub(crate) fn from_serde(v: LibJson) -> Value {
    match v {
        LibJson::Null => Value::Null,
        LibJson::Bool(b) => Value::Bool(b),
        LibJson::Number(n) => Value::Number(n.to_string()),
        LibJson::String(s) => Value::String(s),
        LibJson::Array(items) => Value::Array(items.into_iter().map(from_serde).collect()),
        LibJson::Object(map) => Value::Object(map.into_iter().map(|(k, x)| (k, from_serde(x))).collect()),
    }
}

/// Hands a model value to the JSON library, variant for variant; a number's
/// text is read back with the library's number parser, whose message is
/// returned if it refuses the text.
#[verifier::external_body]
pub(crate) fn to_serde(v: &Value) -> Result<LibJson, String> {
    match v {
        Value::Null => Ok(LibJson::Null),
        Value::Bool(b) => Ok(LibJson::Bool(*b)),
        Value::Number(t) => t.parse::<serde_json::Number>().map(LibJson::Number).map_err(|e| e.to_string()),
        Value::String(s) => Ok(LibJson::String(s.clone())),
        Value::Array(items) => Ok(LibJson::Array(items.iter().map(to_serde).collect::<Result<_, String>>()?)),
        Value::Object(ms) => Ok(LibJson::Object(ms.iter().map(|(k, x)| Ok((k.clone(), to_serde(x)?))).collect::<Result<_, String>>()?)),
    }
}

/// The compact text `serde_json` writes (its `Display`) for a value.
pub uninterp spec fn serde_json_compact(j: Json) -> Seq<char>;

/// Writes a value as compact JSON with the JSON library's `Display`, after
/// handing it over with `to_serde`. A number whose text the library's
/// number parser refuses (none that a parser of this crate produced) is
/// written as the empty text. The text depends on the value alone; the
/// library's formatter writes null as `null` and a boolean as `true` or
/// `false`.
#[verifier::external_body]
fn compact_json(v: &Value) -> (r: String)
    ensures
        r@ == serde_json_compact(json_of(*v)),
        json_of(*v) is Null ==> r@ == "null"@,
        json_of(*v) matches Json::Bool(b) ==> r@ == (if b { "true"@ } else { "false"@ }),
{
    to_serde(v).map(|x| x.to_string()).unwrap_or_default()
}

/// The compact JSON text of a value, as the JSON library writes it.
pub fn to_json_text(v: &Value) -> (r: String)
    ensures
        r@ == serde_json_compact(json_of(*v)),
        json_of(*v) is Null ==> r@ == "null"@,
        json_of(*v) matches Json::Bool(b) ==> r@ == (if b { "true"@ } else { "false"@ }),
{
    compact_json(v)
}

/// Setting a member adds its value and keeps the others.
pub proof fn lemma_members_insert_values(ms: Seq<(Seq<char>, Json)>, k: Seq<char>, v: Json)
    ensures
        forall|i: int| 0 <= i < members_insert(ms, k, v).len() ==> {
            ||| (#[trigger] members_insert(ms, k, v)[i]).1 == v
            ||| exists|j: int| 0 <= j < ms.len() && ms[j].1 == members_insert(ms, k, v)[i].1
        },
    decreases ms.len(),
{
    if ms.len() > 0 {
        let t = ms.drop_first();
        lemma_members_insert_values(t, k, v);
        let r = members_insert(ms, k, v);
        assert forall|i: int| 0 <= i < r.len() implies {
            ||| (#[trigger] r[i]).1 == v
            ||| exists|j: int| 0 <= j < ms.len() && ms[j].1 == r[i].1
        } by {
            if ms[0].0 == k {
                if i > 0 {
                    assert(r[i] == ms[i]);
                }
            } else if key_lt(k, ms[0].0) {
                if i > 0 {
                    assert(r[i] == ms[i - 1]);
                }
            } else {
                if i == 0 {
                    assert(r[0] == ms[0]);
                } else {
                    let u = members_insert(t, k, v);
                    assert(r[i] == u[i - 1]);
                    if u[i - 1].1 != v {
                        let j = choose|j: int| 0 <= j < t.len() && t[j].1 == u[i - 1].1;
                        assert(ms[j + 1] == t[j]);
                    }
                }
            }
        }
    }
}


/// Members are well formed exactly when each member value is.
pub proof fn lemma_members_wf(ms: Seq<(Seq<char>, Json)>)
    ensures
        members_wf(ms) <==> forall|i: int| 0 <= i < ms.len() ==> json_wf(#[trigger] ms[i].1),
    decreases ms.len(),
{
    if ms.len() > 0 {
        let p = ms.drop_last();
        lemma_members_wf(p);
        if forall|i: int| 0 <= i < ms.len() ==> json_wf(#[trigger] ms[i].1) {
            assert forall|i: int| 0 <= i < p.len() implies json_wf(#[trigger] p[i].1) by {
                assert(p[i] == ms[i]);
            }
            assert(json_wf(ms[ms.len() - 1].1));
        }
        if members_wf(ms) {
            assert forall|i: int| 0 <= i < ms.len() implies json_wf(#[trigger] ms[i].1) by {
                if i < p.len() {
                    assert(p[i] == ms[i]);
                    assert(json_wf(p[i].1));
                }
            }
        }
    }
}

/// Setting a well-formed member value keeps members well formed.
pub proof fn lemma_members_insert_wf(ms: Seq<(Seq<char>, Json)>, k: Seq<char>, v: Json)
    requires
        members_wf(ms),
        json_wf(v),
    ensures
        members_wf(members_insert(ms, k, v)),
{
    let r = members_insert(ms, k, v);
    lemma_members_wf(ms);
    lemma_members_wf(r);
    lemma_members_insert_values(ms, k, v);
    assert forall|i: int| 0 <= i < r.len() implies json_wf(#[trigger] r[i].1) by {
        if r[i].1 != v {
            let j = choose|j: int| 0 <= j < ms.len() && ms[j].1 == r[i].1;
            assert(json_wf(ms[j].1));
        }
    }
}

} // verus!
