//! Structured values carried by memories (JSON documents) and the keyed
//! field maps that hold them.
use vstd::prelude::*;
use crate::text::{str_eq, opt_view, string_views};

verus! {

/// A JSON document; the library carries these values without looking inside.
#[verifier::external_type_specification]
#[verifier::external_body]
pub struct ExJsonValue(serde_json::Value);

/// Calls `serde_json::Value::clone`, which copies the document.
#[verifier::external_body]
pub(crate) fn clone_json(v: &serde_json::Value) -> (r: serde_json::Value)
    ensures
        r == *v,
{
    v.clone()
}

/// The contents of a field map: its keys and values in insertion order,
/// each key at most once.
pub open spec fn keys_unique(s: Seq<(Seq<char>, serde_json::Value)>) -> bool {
    forall|i: int, j: int| 0 <= i < j < s.len() ==> #[trigger] s[i].0 != #[trigger] s[j].0
}

/// The contents after setting `key` to `value`: the entry with that key
/// is replaced in place, or a new entry is added at the end.
pub open spec fn keyed_insert(
    s: Seq<(Seq<char>, serde_json::Value)>,
    key: Seq<char>,
    value: serde_json::Value,
) -> Seq<(Seq<char>, serde_json::Value)> {
    if exists|i: int| 0 <= i < s.len() && #[trigger] s[i].0 == key {
        let i = choose|i: int| 0 <= i < s.len() && #[trigger] s[i].0 == key;
        s.update(i, (key, value))
    } else {
        s.push((key, value))
    }
}

/// A map from text keys to JSON values.
#[derive(Debug)]
pub struct FieldMap {
    entries: Vec<(String, serde_json::Value)>,
}

impl View for FieldMap {
    type V = Seq<(Seq<char>, serde_json::Value)>;

    closed spec fn view(&self) -> Seq<(Seq<char>, serde_json::Value)> {
        self.entries@.map_values(|e: (String, serde_json::Value)| (e.0@, e.1))
    }
}

impl Clone for FieldMap {
    /// A copy holding the same entries.
    fn clone(&self) -> (r: FieldMap)
        ensures
            r@ == self@,
    {
        let n = self.entries.len();
        let mut out: Vec<(String, serde_json::Value)> = Vec::new();
        let mut i: usize = 0;
        while i < n
            invariant
                n == self.entries@.len(),
                i <= n,
                out@.len() == i,
                forall|j: int| 0 <= j < i ==> (#[trigger] out@[j]).0@ == self.entries@[j].0@ && out@[j].1 == self.entries@[j].1,
            decreases n - i,
        {
            out.push((self.entries[i].0.clone(), clone_json(&self.entries[i].1)));
            i = i + 1;
        }
        let r = FieldMap { entries: out };
        assert(r@ =~= self@);
        r
    }
}

impl FieldMap {
    /// Whether no key occurs twice.
    pub open spec fn wf(&self) -> bool {
        keys_unique(self@)
    }

    /// An empty map.
    pub fn new() -> (r: FieldMap)
        ensures
            r@ == Seq::<(Seq<char>, serde_json::Value)>::empty(),
            r.wf(),
    {
        let r = FieldMap { entries: Vec::new() };
        assert(r@ =~= Seq::<(Seq<char>, serde_json::Value)>::empty());
        r
    }

    /// The number of entries.
    pub fn len(&self) -> (n: usize)
        ensures
            n == self@.len(),
    {
        self.entries.len()
    }

    /// Sets `key` to `value`.
    pub fn insert(&mut self, key: String, value: serde_json::Value)
        requires
            old(self).wf(),
        ensures
            final(self).wf(),
            final(self)@ == keyed_insert(old(self)@, key@, value),
    {
        let ghost k = key@;
        let n = self.entries.len();
        let mut i: usize = 0;
        while i < n
            invariant
                n == self.entries@.len(),
                self@ == old(self)@,
                k == key@,
                keys_unique(self@),
                i <= n,
                forall|j: int| 0 <= j < i ==> #[trigger] self@[j].0 != k,
            decreases n - i,
        {
            assert(self@[i as int] == (self.entries@[i as int].0@, self.entries@[i as int].1));
            if str_eq(self.entries[i].0.as_str(), key.as_str()) {
                assert(self@[i as int].0 == k);
                let ghost before = self@;
                self.entries.set(i, (key, value));
                proof {
                    assert(exists|j: int| 0 <= j < before.len() && #[trigger] before[j].0 == k);
                    let c = choose|j: int| 0 <= j < before.len() && #[trigger] before[j].0 == k;
                    assert(c == i);
                    assert(self@ =~= before.update(i as int, (k, value)));
                }
                return;
            }
            i = i + 1;
        }
        let ghost before = self@;
        self.entries.push((key, value));
        assert(self@ =~= before.push((k, value)));
    }

    /// The value stored under `key`, if any.
    pub fn get(&self, key: &str) -> (r: Option<&serde_json::Value>)
        ensures
            r is None <==> forall|i: int| 0 <= i < self@.len() ==> #[trigger] self@[i].0 != key@,
            r matches Some(v) ==> exists|i: int| 0 <= i < self@.len() && #[trigger] self@[i].0 == key@ && self@[i].1 == *v,
            self.wf() ==> match r {
                Some(v) => keyed_get(self@, key@) == Some(*v),
                None => keyed_get(self@, key@) is None,
            },
    {
        let n = self.entries.len();
        let mut i: usize = 0;
        while i < n
            invariant
                n == self.entries@.len(),
                i <= n,
                forall|j: int| 0 <= j < i ==> #[trigger] self@[j].0 != key@,
            decreases n - i,
        {
            assert(self@[i as int] == (self.entries@[i as int].0@, self.entries@[i as int].1));
            if str_eq(self.entries[i].0.as_str(), key) {
                assert(self@[i as int].0 == key@);
                proof {
                    if self.wf() {
                        let c = choose|j: int| 0 <= j < self@.len() && #[trigger] self@[j].0 == key@;
                        assert(c == i);
                    }
                }
                return Some(&self.entries[i].1);
            }
            i = i + 1;
        }
        None
    }
}


impl FieldMap {
    /// The key of the entry at position `i`.
    pub fn key_at(&self, i: usize) -> (r: &String)
        requires
            i < self@.len(),
        ensures
            r@ == self@[i as int].0,
    {
        &self.entries[i].0
    }

    /// The value of the entry at position `i`.
    pub fn value_at(&self, i: usize) -> (r: &serde_json::Value)
        requires
            i < self@.len(),
        ensures
            *r == self@[i as int].1,
    {
        &self.entries[i].1
    }

    /// Removes the entry with key `key`, if there is one; the others keep
    /// their order.
    pub fn remove(&mut self, key: &str)
        requires
            old(self).wf(),
        ensures
            final(self).wf(),
            final(self)@ == keyed_remove(old(self)@, key@),
    {
        let n = self.entries.len();
        let mut i: usize = 0;
        while i < n
            invariant
                n == self.entries@.len(),
                self@ == old(self)@,
                keys_unique(self@),
                i <= n,
                forall|j: int| 0 <= j < i ==> #[trigger] self@[j].0 != key@,
            decreases n - i,
        {
            assert(self@[i as int] == (self.entries@[i as int].0@, self.entries@[i as int].1));
            if str_eq(self.entries[i].0.as_str(), key) {
                let ghost before = self@;
                assert(before[i as int].0 == key@);
                self.entries.remove(i);
                proof {
                    let c = choose|j: int| 0 <= j < before.len() && #[trigger] before[j].0 == key@;
                    assert(c == i);
                    assert(self@ =~= before.remove(i as int));
                    assert forall|a: int, b: int| 0 <= a < b < self@.len() implies #[trigger] self@[a].0 != #[trigger] self@[b].0 by {
                        let a0 = if a < i { a } else { a + 1 };
                        let b0 = if b < i { b } else { b + 1 };
                        assert(self@[a] == before[a0]);
                        assert(self@[b] == before[b0]);
                    }
                }
                return;
            }
            i = i + 1;
        }
    }
}

/// The contents after removing the entry with key `key`, if any.
pub open spec fn keyed_remove(s: Seq<(Seq<char>, serde_json::Value)>, key: Seq<char>) -> Seq<(Seq<char>, serde_json::Value)> {
    if exists|i: int| 0 <= i < s.len() && #[trigger] s[i].0 == key {
        let i = choose|i: int| 0 <= i < s.len() && #[trigger] s[i].0 == key;
        s.remove(i)
    } else {
        s
    }
}

/// The value stored under `key`, if any.
pub open spec fn keyed_get(s: Seq<(Seq<char>, serde_json::Value)>, key: Seq<char>) -> Option<serde_json::Value> {
    if exists|i: int| 0 <= i < s.len() && #[trigger] s[i].0 == key {
        let i = choose|i: int| 0 <= i < s.len() && #[trigger] s[i].0 == key;
        Some(s[i].1)
    } else {
        None
    }
}

/// Setting a key and then reading it gives the value set; other keys read
/// as before; keys stay unique.
pub proof fn lemma_insert_then_get(
    s: Seq<(Seq<char>, serde_json::Value)>,
    key: Seq<char>,
    value: serde_json::Value,
    other: Seq<char>,
)
    requires
        keys_unique(s),
    ensures
        keys_unique(keyed_insert(s, key, value)),
        keyed_get(keyed_insert(s, key, value), key) == Some(value),
        other != key ==> keyed_get(keyed_insert(s, key, value), other) == keyed_get(s, other),
{
    let t = keyed_insert(s, key, value);
    if exists|i: int| 0 <= i < s.len() && #[trigger] s[i].0 == key {
        let i = choose|i: int| 0 <= i < s.len() && #[trigger] s[i].0 == key;
        assert(t[i].0 == key);
        assert forall|a: int, b: int| 0 <= a < b < t.len() implies #[trigger] t[a].0 != #[trigger] t[b].0 by {
            assert(t[a].0 == s[a].0 && t[b].0 == s[b].0);
        }
        let c = choose|j: int| 0 <= j < t.len() && #[trigger] t[j].0 == key;
        assert(t[c].0 == s[c].0);
        assert(c == i);
        if other != key && exists|j: int| 0 <= j < s.len() && #[trigger] s[j].0 == other {
            let j = choose|j: int| 0 <= j < s.len() && #[trigger] s[j].0 == other;
            assert(t[j].0 == other);
            let d = choose|x: int| 0 <= x < t.len() && #[trigger] t[x].0 == other;
            assert(t[d].0 == s[d].0);
            assert(d == j);
        }
        if other != key && !exists|j: int| 0 <= j < s.len() && #[trigger] s[j].0 == other {
            assert forall|x: int| 0 <= x < t.len() implies #[trigger] t[x].0 != other by {
                assert(t[x].0 == s[x].0);
            }
        }
    } else {
        assert(t[s.len() as int].0 == key);
        assert forall|a: int, b: int| 0 <= a < b < t.len() implies #[trigger] t[a].0 != #[trigger] t[b].0 by {
            assert(t[a].0 == s[a].0);
            if b < s.len() {
                assert(t[b].0 == s[b].0);
            }
        }
        let c = choose|j: int| 0 <= j < t.len() && #[trigger] t[j].0 == key;
        if c < s.len() {
            assert(t[c].0 == s[c].0);
        }
        assert(c == s.len());
        if other != key && exists|j: int| 0 <= j < s.len() && #[trigger] s[j].0 == other {
            let j = choose|j: int| 0 <= j < s.len() && #[trigger] s[j].0 == other;
            assert(t[j].0 == other);
            let d = choose|x: int| 0 <= x < t.len() && #[trigger] t[x].0 == other;
            if d < s.len() {
                assert(t[d].0 == s[d].0);
            }
            assert(d == j);
        }
        if other != key && !exists|j: int| 0 <= j < s.len() && #[trigger] s[j].0 == other {
            assert forall|x: int| 0 <= x < t.len() implies #[trigger] t[x].0 != other by {
                if x < s.len() {
                    assert(t[x].0 == s[x].0);
                }
            }
        }
    }
}

/// Setting a key leaves every other key as it was, and keys stay unique.
pub(crate) proof fn lemma_insert_keeps_others(s: Seq<(Seq<char>, serde_json::Value)>, key: Seq<char>, value: serde_json::Value)
    requires
        keys_unique(s),
    ensures
        keys_unique(keyed_insert(s, key, value)),
        keyed_get(keyed_insert(s, key, value), key) == Some(value),
        forall|other: Seq<char>| other != key ==> #[trigger] keyed_get(keyed_insert(s, key, value), other) == keyed_get(s, other),
{
    lemma_insert_then_get(s, key, value, key);
    assert forall|other: Seq<char>| other != key implies #[trigger] keyed_get(keyed_insert(s, key, value), other)
        == keyed_get(s, other) by {
        lemma_insert_then_get(s, key, value, other);
    }
}

/// Whether `f` holds entries with distinct keys that give, for every key,
/// what `s` gives.
pub open spec fn same_lookups(f: Option<Seq<(Seq<char>, serde_json::Value)>>, s: Seq<(Seq<char>, serde_json::Value)>) -> bool {
    f matches Some(e) && keys_unique(e) && forall|k: Seq<char>| #[trigger] keyed_get(e, k) == keyed_get(s, k)
}

/// The JSON boolean holding `b` (`Value::Bool`).
pub uninterp spec fn json_bool(b: bool) -> serde_json::Value;

/// What `serde_json::from_value::<bool>` gives: the value of a JSON
/// boolean, nothing for any other value.
pub uninterp spec fn json_bool_of(v: serde_json::Value) -> Option<bool>;

/// The JSON array holding the given values (`Value::Array`).
pub uninterp spec fn json_array(items: Seq<serde_json::Value>) -> serde_json::Value;

/// What `serde_json::from_value::<Vec<Value>>` gives: the items of a JSON
/// array, nothing for any other value.
pub uninterp spec fn json_array_of(v: serde_json::Value) -> Option<Seq<serde_json::Value>>;

/// The text of the error `serde_json::from_value` gives when a map is read
/// from a value that is not an object.
pub uninterp spec fn json_map_error(v: serde_json::Value) -> Seq<char>;

/// The text of the error `serde_json::from_value` gives when a string is
/// read from a value that is not a string.
pub uninterp spec fn json_string_error(v: serde_json::Value) -> Seq<char>;

/// The text of the error `serde_json::from_value` gives when a `u32` is
/// read from a value that is not one.
pub uninterp spec fn json_u32_error(v: serde_json::Value) -> Seq<char>;

/// What `Value::as_str` gives: the text of a JSON string, nothing for any
/// other value.
pub uninterp spec fn json_str_of(v: serde_json::Value) -> Option<Seq<char>>;

/// The JSON string holding a text (`Value::String`).
pub uninterp spec fn json_text(s: Seq<char>) -> serde_json::Value;

/// What `serde_json::to_value` gives for an optional text: the JSON string,
/// or `null`.
pub uninterp spec fn json_opt_text(o: Option<Seq<char>>) -> serde_json::Value;

/// What `serde_json::to_value` gives for a list of texts: an array of
/// strings.
pub open spec fn json_text_list(s: Seq<Seq<char>>) -> serde_json::Value {
    json_array(s.map_values(|t: Seq<char>| json_text(t)))
}

/// What `serde_json::from_value::<Vec<String>>` gives: the texts of an
/// array of strings, nothing for any other value.
pub open spec fn json_text_list_of(v: serde_json::Value) -> Option<Seq<Seq<char>>> {
    match json_array_of(v) {
        Some(items) => if forall|i: int| 0 <= i < items.len() ==> (#[trigger] json_str_of(items[i])) is Some {
            Some(items.map_values(|x: serde_json::Value| json_str_of(x)->0))
        } else {
            None
        },
        None => None,
    }
}

/// The JSON number holding an unsigned integer (`Value::from`).
pub uninterp spec fn json_u32(n: u32) -> serde_json::Value;

/// What `serde_json::from_value::<u32>` gives: the value of a JSON number
/// that is a `u32`, nothing otherwise.
pub uninterp spec fn json_u32_of(v: serde_json::Value) -> Option<u32>;

/// The entries of a JSON object (`Value::as_object`), in the map's order;
/// nothing for any other value.
pub uninterp spec fn json_fields_of(v: serde_json::Value) -> Option<Seq<(Seq<char>, serde_json::Value)>>;

/// The JSON object holding the given entries.
pub uninterp spec fn json_object(fields: Seq<(Seq<char>, serde_json::Value)>) -> serde_json::Value;

/// Calls `Value::as_str` and copies the text.
#[verifier::external_body]
pub(crate) fn json_as_str(v: &serde_json::Value) -> (r: Option<String>)
    ensures
        opt_view(r) == json_str_of(*v),
{
    v.as_str().map(|s| s.to_string())
}

/// Builds `Value::String`; `as_str` on it gives the text back.
#[verifier::external_body]
pub(crate) fn json_from_str(s: &str) -> (r: serde_json::Value)
    ensures
        r == json_text(s@),
        json_str_of(r) == Some(s@),
{
    serde_json::Value::String(s.to_string())
}

/// Calls `serde_json::to_value` on an optional text; `as_str` on the
/// result gives the text back (and nothing for `null`).
#[verifier::external_body]
pub(crate) fn json_from_opt_str(o: &Option<String>) -> (r: serde_json::Value)
    ensures
        r == json_opt_text(opt_view(*o)),
        json_str_of(r) == opt_view(*o),
{
    serde_json::to_value(o).unwrap_or(serde_json::Value::Null)
}

/// Calls `serde_json::to_value` on a list of texts; reading it back as a
/// list of texts gives the list.
#[verifier::external_body]
pub(crate) fn json_from_strings(v: &Vec<String>) -> (r: serde_json::Value)
    ensures
        r == json_text_list(string_views(v@)),
        json_text_list_of(r) == Some(string_views(v@)),
{
    serde_json::to_value(v).unwrap_or(serde_json::Value::Null)
}

/// Calls `serde_json::from_value::<Vec<String>>`.
#[verifier::external_body]
pub(crate) fn json_as_strings(v: &serde_json::Value) -> (r: Option<Vec<String>>)
    ensures
        match r {
            Some(l) => json_text_list_of(*v) == Some(string_views(l@)),
            None => json_text_list_of(*v) is None,
        },
{
    serde_json::from_value::<Vec<String>>(v.clone()).ok()
}

/// Builds a JSON number with `Value::from`; reading it back as a `u32`
/// gives the number.
#[verifier::external_body]
pub(crate) fn json_from_u32(n: u32) -> (r: serde_json::Value)
    ensures
        r == json_u32(n),
        json_u32_of(r) == Some(n),
{
    serde_json::Value::from(n)
}

/// Calls `serde_json::from_value::<u32>`.
#[verifier::external_body]
pub(crate) fn json_as_u32(v: &serde_json::Value) -> (r: Option<u32>)
    ensures
        r == json_u32_of(*v),
{
    serde_json::from_value::<u32>(v.clone()).ok()
}

/// Calls `Value::as_object` and copies the entries, in the map's order;
/// an object's keys are unique.
#[verifier::external_body]
pub(crate) fn json_as_fields(v: &serde_json::Value) -> (r: Option<FieldMap>)
    ensures
        match r {
            Some(m) => json_fields_of(*v) == Some(m@) && m.wf(),
            None => json_fields_of(*v) is None,
        },
{
    v.as_object().map(|o| FieldMap { entries: o.iter().map(|(k, x)| (k.clone(), x.clone())).collect() })
}

/// Builds a JSON object from the entries (`Value::Object`). An object is a
/// map: when no key occurs twice among the entries, reading its entries
/// back finds each key with the value it was given, and no other key.
#[verifier::external_body]
pub(crate) fn json_from_fields(m: &FieldMap) -> (r: serde_json::Value)
    ensures
        r == json_object(m@),
        m.wf() ==> same_lookups(json_fields_of(r), m@),
{
    serde_json::Value::Object(m.entries.iter().map(|(k, x)| (k.clone(), x.clone())).collect())
}

/// Builds a JSON boolean; reading it back as a `bool` gives `b`.
#[verifier::external_body]
pub(crate) fn json_from_bool(b: bool) -> (r: serde_json::Value)
    ensures
        r == json_bool(b),
        json_bool_of(r) == Some(b),
{
    serde_json::Value::Bool(b)
}

/// Calls `serde_json::from_value::<bool>`.
#[verifier::external_body]
pub(crate) fn json_as_bool(v: &serde_json::Value) -> (r: Option<bool>)
    ensures
        r == json_bool_of(*v),
{
    serde_json::from_value::<bool>(v.clone()).ok()
}

/// Builds a JSON array of the values; reading it back as a list of values
/// gives them.
#[verifier::external_body]
pub(crate) fn json_from_values(items: Vec<serde_json::Value>) -> (r: serde_json::Value)
    ensures
        r == json_array(items@),
        json_array_of(r) == Some(items@),
{
    serde_json::Value::Array(items)
}

/// Calls `serde_json::from_value::<Vec<Value>>`.
#[verifier::external_body]
pub(crate) fn json_as_values(v: &serde_json::Value) -> (r: Option<Vec<serde_json::Value>>)
    ensures
        match r {
            Some(l) => json_array_of(*v) == Some(l@),
            None => json_array_of(*v) is None,
        },
{
    serde_json::from_value::<Vec<serde_json::Value>>(v.clone()).ok()
}

/// Calls `serde_json::from_value::<BTreeMap<String, Value>>` and copies the
/// entries in the map's order, or gives the error's text.
#[verifier::external_body]
pub(crate) fn json_read_map(v: &serde_json::Value) -> (r: Result<FieldMap, String>)
    ensures
        match r {
            Ok(m) => json_fields_of(*v) == Some(m@) && m.wf(),
            Err(e) => json_fields_of(*v) is None && e@ == json_map_error(*v),
        },
{
    match serde_json::from_value::<std::collections::BTreeMap<String, serde_json::Value>>(v.clone()) {
        Ok(map) => Ok(FieldMap { entries: map.into_iter().collect() }),
        Err(e) => Err(e.to_string()),
    }
}

/// Calls `serde_json::from_value::<String>`, giving the text or the
/// error's text.
#[verifier::external_body]
pub(crate) fn json_read_string(v: &serde_json::Value) -> (r: Result<String, String>)
    ensures
        match r {
            Ok(t) => json_str_of(*v) == Some(t@),
            Err(e) => json_str_of(*v) is None && e@ == json_string_error(*v),
        },
{
    serde_json::from_value::<String>(v.clone()).map_err(|e| e.to_string())
}

/// Calls `serde_json::from_value::<u32>`, giving the number or the error's
/// text.
#[verifier::external_body]
pub(crate) fn json_read_u32(v: &serde_json::Value) -> (r: Result<u32, String>)
    ensures
        match r {
            Ok(n) => json_u32_of(*v) == Some(n),
            Err(e) => json_u32_of(*v) is None && e@ == json_u32_error(*v),
        },
{
    serde_json::from_value::<u32>(v.clone()).map_err(|e| e.to_string())
}

} // verus!
