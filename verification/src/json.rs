//! A plain-data model of JSON documents, as the ingestion and search logic
//! reads them.
use vstd::prelude::*;

use crate::text::{chars_eq, chars_of, str_eq};

verus! {

/// A JSON number, as held by a JSON parser: a non-negative integer, a negative
/// integer, or a floating-point value.
pub enum JsonNumber {
    /// A non-negative integer.
    PosInt(u64),
    /// A negative integer.
    NegInt(i64),
    /// A floating-point number: its IEEE-754 bits, and its value truncated
    /// toward zero and saturated to the range of `i64` (what `as i64` gives).
    Float { bits: u64, truncated: i64 },
}

/// A JSON value. Objects are lists of `(key, value)` entries in iteration
/// order; a parser never produces two entries with the same key.
pub enum JsonValue {
    Null,
    Bool(bool),
    Number(JsonNumber),
    String(String),
    Array(Vec<JsonValue>),
    Object(Vec<(String, JsonValue)>),
}

/// The mathematical value of a [`JsonValue`]: strings are character
/// sequences and containers are sequences.
pub enum Json {
    Null,
    Bool(bool),
    Number(JsonNumber),
    Str(Seq<char>),
    Array(Seq<Json>),
    Object(Seq<(Seq<char>, Json)>),
}

/// The views of the first `n` items.
pub open spec fn view_items(items: Seq<JsonValue>, n: nat) -> Seq<Json>
    decreases items, n,
{
    if n == 0 || n > items.len() {
        Seq::empty()
    } else {
        view_items(items, (n - 1) as nat).push(view_value(items[n - 1]))
    }
}

/// The views of the first `n` entries.
pub open spec fn view_entries(entries: Seq<(String, JsonValue)>, n: nat) -> Seq<(Seq<char>, Json)>
    decreases entries, n,
{
    if n == 0 || n > entries.len() {
        Seq::empty()
    } else {
        view_entries(entries, (n - 1) as nat).push(
            (entries[n - 1].0@, view_value(entries[n - 1].1)),
        )
    }
}

/// The mathematical value of a JSON value.
pub open spec fn view_value(v: JsonValue) -> Json
    decreases v, 0nat,
{
    match v {
        JsonValue::Null => Json::Null,
        JsonValue::Bool(b) => Json::Bool(b),
        JsonValue::Number(n) => Json::Number(n),
        JsonValue::String(s) => Json::Str(s@),
        JsonValue::Array(items) => Json::Array(view_items(items@, items@.len())),
        JsonValue::Object(entries) => Json::Object(view_entries(entries@, entries@.len())),
    }
}

impl View for JsonValue {
    type V = Json;

    open spec fn view(&self) -> Json {
        view_value(*self)
    }
}

/// Whether no two entries share a key.
pub open spec fn keys_unique(entries: Seq<(String, JsonValue)>) -> bool {
    forall|i: int, j: int|
        0 <= i < entries.len() && 0 <= j < entries.len() && i != j ==> entries[i].0@
            != entries[j].0@
}

/// Whether some entry has the key `key`.
pub open spec fn has_key(entries: Seq<(String, JsonValue)>, key: Seq<char>) -> bool {
    exists|i: int| 0 <= i < entries.len() && #[trigger] entries[i].0@ == key
}

/// The position of the first entry with key `key` (meaningful when
/// `has_key`).
pub open spec fn key_index(entries: Seq<(String, JsonValue)>, key: Seq<char>) -> int {
    choose|i: int|
        0 <= i < entries.len() && #[trigger] entries[i].0@ == key && forall|j: int|
            0 <= j < i ==> #[trigger] entries[j].0@ != key
}

/// The first entry with key `key` is the one `key_index` designates.
pub proof fn lemma_first_index(entries: Seq<(String, JsonValue)>, i: int, key: Seq<char>)
    requires
        0 <= i < entries.len(),
        entries[i].0@ == key,
        forall|j: int| 0 <= j < i ==> #[trigger] entries[j].0@ != key,
    ensures
        has_key(entries, key),
        key_index(entries, key) == i,
        lookup(entries, key) == Some(entries[i].1),
{
    assert(has_key(entries, key));
    let k = key_index(entries, key);
    if k < i {
        assert(entries[k].0@ != key);
    }
    if k > i {
        assert(entries[i].0@ != key);
    }
}

/// The value stored under `key`, if any.
pub open spec fn lookup(entries: Seq<(String, JsonValue)>, key: Seq<char>) -> Option<JsonValue> {
    if has_key(entries, key) {
        Some(entries[key_index(entries, key)].1)
    } else {
        None
    }
}

/// `serde_json::Value::get` with a string key: the member of an object.
pub open spec fn get_member(v: JsonValue, key: Seq<char>) -> Option<JsonValue> {
    match v {
        JsonValue::Object(entries) => lookup(entries@, key),
        _ => None,
    }
}

/// Whether a value is an object whose keys are unique (as a parser makes
/// them).
pub open spec fn object_wf(v: JsonValue) -> bool {
    match v {
        JsonValue::Object(entries) => keys_unique(entries@),
        _ => true,
    }
}

/// Any two positions with the same key are the same position.
pub proof fn lemma_unique_index(entries: Seq<(String, JsonValue)>, i: int, key: Seq<char>)
    requires
        keys_unique(entries),
        0 <= i < entries.len(),
        entries[i].0@ == key,
    ensures
        has_key(entries, key),
        key_index(entries, key) == i,
        lookup(entries, key) == Some(entries[i].1),
{
    assert forall|j: int| 0 <= j < i implies #[trigger] entries[j].0@ != key by {}
    lemma_first_index(entries, i, key);
}

impl JsonNumber {
    /// `Number::is_i64`.
    pub open spec fn spec_is_i64(&self) -> bool {
        match self {
            JsonNumber::PosInt(u) => *u <= i64::MAX as u64,
            JsonNumber::NegInt(_) => true,
            JsonNumber::Float { .. } => false,
        }
    }

    /// `Number::is_u64`.
    pub open spec fn spec_is_u64(&self) -> bool {
        self is PosInt
    }

    /// `Number::as_i64`.
    pub open spec fn spec_as_i64(&self) -> Option<i64> {
        match self {
            JsonNumber::PosInt(u) => if *u <= i64::MAX as u64 {
                Some(*u as i64)
            } else {
                None
            },
            JsonNumber::NegInt(i) => Some(*i),
            JsonNumber::Float { .. } => None,
        }
    }

    /// `Number::as_f64` followed by `as i64`: the value truncated toward
    /// zero and saturated to `i64`.
    pub open spec fn spec_as_f64_truncated(&self) -> i64 {
        match self {
            JsonNumber::PosInt(u) => if *u <= i64::MAX as u64 {
                *u as i64
            } else {
                i64::MAX
            },
            JsonNumber::NegInt(i) => *i,
            JsonNumber::Float { truncated, .. } => *truncated,
        }
    }

    /// `Number::is_i64`.
    pub fn is_i64(&self) -> (r: bool)
        ensures
            r == self.spec_is_i64(),
    {
        match self {
            JsonNumber::PosInt(u) => *u <= i64::MAX as u64,
            JsonNumber::NegInt(_) => true,
            JsonNumber::Float { .. } => false,
        }
    }

    /// `Number::is_u64`.
    pub fn is_u64(&self) -> (r: bool)
        ensures
            r == self.spec_is_u64(),
    {
        match self {
            JsonNumber::PosInt(_) => true,
            _ => false,
        }
    }

    /// `Number::as_i64`.
    pub fn as_i64(&self) -> (r: Option<i64>)
        ensures
            r == self.spec_as_i64(),
    {
        match self {
            JsonNumber::PosInt(u) => if *u <= i64::MAX as u64 {
                Some(*u as i64)
            } else {
                None
            },
            JsonNumber::NegInt(i) => Some(*i),
            JsonNumber::Float { .. } => None,
        }
    }

    /// `Number::as_f64` followed by `as i64`.
    pub fn as_f64_truncated(&self) -> (r: i64)
        ensures
            r == self.spec_as_f64_truncated(),
    {
        match self {
            JsonNumber::PosInt(u) => if *u <= i64::MAX as u64 {
                *u as i64
            } else {
                i64::MAX
            },
            JsonNumber::NegInt(i) => *i,
            JsonNumber::Float { truncated, .. } => *truncated,
        }
    }

    /// A copy of the number.
    pub fn duplicate(&self) -> (r: JsonNumber)
        ensures
            r == *self,
    {
        match self {
            JsonNumber::PosInt(u) => JsonNumber::PosInt(*u),
            JsonNumber::NegInt(i) => JsonNumber::NegInt(*i),
            JsonNumber::Float { bits, truncated } => JsonNumber::Float {
                bits: *bits,
                truncated: *truncated,
            },
        }
    }
}

impl JsonValue {
    /// `Value::is_i64`.
    pub open spec fn spec_is_i64(&self) -> bool {
        match self {
            JsonValue::Number(n) => n.spec_is_i64(),
            _ => false,
        }
    }

    /// `Value::is_u64`.
    pub open spec fn spec_is_u64(&self) -> bool {
        match self {
            JsonValue::Number(n) => n.spec_is_u64(),
            _ => false,
        }
    }

    /// `Value::is_null`.
    pub fn is_null(&self) -> (r: bool)
        ensures
            r == (*self is Null),
    {
        match self {
            JsonValue::Null => true,
            _ => false,
        }
    }

    /// `Value::is_string`.
    pub fn is_string(&self) -> (r: bool)
        ensures
            r == (*self is String),
    {
        match self {
            JsonValue::String(_) => true,
            _ => false,
        }
    }

    /// `Value::is_boolean`.
    pub fn is_boolean(&self) -> (r: bool)
        ensures
            r == (*self is Bool),
    {
        match self {
            JsonValue::Bool(_) => true,
            _ => false,
        }
    }

    /// `Value::is_number`.
    pub fn is_number(&self) -> (r: bool)
        ensures
            r == (*self is Number),
    {
        match self {
            JsonValue::Number(_) => true,
            _ => false,
        }
    }

    /// `Value::is_array`.
    pub fn is_array(&self) -> (r: bool)
        ensures
            r == (*self is Array),
    {
        match self {
            JsonValue::Array(_) => true,
            _ => false,
        }
    }

    /// `Value::is_object`.
    pub fn is_object(&self) -> (r: bool)
        ensures
            r == (*self is Object),
    {
        match self {
            JsonValue::Object(_) => true,
            _ => false,
        }
    }

    /// `Value::is_i64`.
    pub fn is_i64(&self) -> (r: bool)
        ensures
            r == self.spec_is_i64(),
    {
        match self {
            JsonValue::Number(n) => n.is_i64(),
            _ => false,
        }
    }

    /// `Value::is_u64`.
    pub fn is_u64(&self) -> (r: bool)
        ensures
            r == self.spec_is_u64(),
    {
        match self {
            JsonValue::Number(n) => n.is_u64(),
            _ => false,
        }
    }

    /// `Value::get` with a string key: the member named `key` of an object,
    /// `None` for a missing key or a value that is not an object.
    pub fn get(&self, key: &str) -> (r: Option<&JsonValue>)
        ensures
            r == match get_member(*self, key@) {
                Some(v) => Some(&v),
                None => None::<&JsonValue>,
            },
    {
        match self {
            JsonValue::Object(entries) => {
                match find_entry(entries, key) {
                    Some(i) => {
                        proof {
                            lemma_first_index(entries@, i as int, key@);
                        }
                        Some(&entries[i].1)
                    },
                    None => None,
                }
            },
            _ => None,
        }
    }

    /// A copy of the value.
    pub fn duplicate(&self) -> (r: JsonValue)
        ensures
            r@ == self@,
        decreases self,
    {
        match self {
            JsonValue::Null => JsonValue::Null,
            JsonValue::Bool(b) => JsonValue::Bool(*b),
            JsonValue::Number(n) => JsonValue::Number(n.duplicate()),
            JsonValue::String(s) => JsonValue::String(s.clone()),
            JsonValue::Array(items) => {
                let mut out: Vec<JsonValue> = Vec::new();
                let mut i: usize = 0;
                while i < items.len()
                    invariant
                        *self == JsonValue::Array(*items),
                        i <= items@.len(),
                        out@.len() == i,
                        forall|j: int| 0 <= j < i ==> view_value(#[trigger] out@[j]) == view_value(
                            items@[j],
                        ),
                    decreases items@.len() - i,
                {
                    proof {
                        assert(decreases_to!(*self => self->Array_0));
                        assert(decreases_to!(*items => items[i as int]));
                    }
                    let item = items[i].duplicate();
                    out.push(item);
                    i = i + 1;
                }
                proof {
                    lemma_view_items_same(out@, items@, out@.len());
                }
                JsonValue::Array(out)
            },
            JsonValue::Object(entries) => {
                let mut out: Vec<(String, JsonValue)> = Vec::new();
                let mut i: usize = 0;
                while i < entries.len()
                    invariant
                        *self == JsonValue::Object(*entries),
                        i <= entries@.len(),
                        out@.len() == i,
                        forall|j: int|
                            0 <= j < i ==> (#[trigger] out@[j]).0@ == entries@[j].0@ && view_value(
                                out@[j].1,
                            ) == view_value(entries@[j].1),
                    decreases entries@.len() - i,
                {
                    proof {
                        assert(decreases_to!(*self => self->Object_0));
                        assert(decreases_to!(*entries => entries[i as int]));
                        assert(decreases_to!(entries[i as int] => entries[i as int].1));
                    }
                    let key = entries[i].0.clone();
                    let value = entries[i].1.duplicate();
                    out.push((key, value));
                    i = i + 1;
                }
                proof {
                    lemma_view_entries_same(out@, entries@, out@.len());
                }
                JsonValue::Object(out)
            },
        }
    }
}

/// Item sequences whose items have equal views have equal views.
pub proof fn lemma_view_items_same(a: Seq<JsonValue>, b: Seq<JsonValue>, n: nat)
    requires
        a.len() == b.len(),
        n <= a.len(),
        forall|j: int| 0 <= j < a.len() ==> view_value(#[trigger] a[j]) == view_value(b[j]),
    ensures
        view_items(a, n) == view_items(b, n),
    decreases n,
{
    if n > 0 {
        lemma_view_items_same(a, b, (n - 1) as nat);
        assert(view_value(a[n - 1]) == view_value(b[n - 1]));
    }
}

/// Entry sequences whose entries have equal keys and value views have equal
/// views.
pub proof fn lemma_view_entries_same(
    a: Seq<(String, JsonValue)>,
    b: Seq<(String, JsonValue)>,
    n: nat,
)
    requires
        a.len() == b.len(),
        n <= a.len(),
        forall|j: int|
            0 <= j < a.len() ==> (#[trigger] a[j]).0@ == b[j].0@ && view_value(a[j].1)
                == view_value(b[j].1),
    ensures
        view_entries(a, n) == view_entries(b, n),
    decreases n,
{
    if n > 0 {
        lemma_view_entries_same(a, b, (n - 1) as nat);
        assert(a[n - 1].0@ == b[n - 1].0@);
    }
}

/// The position of the entry whose key is `key`, if any.
pub fn find_entry(entries: &Vec<(String, JsonValue)>, key: &str) -> (r: Option<usize>)
    ensures
        r matches Some(i) ==> i < entries@.len() && entries@[i as int].0@ == key@ && forall|j: int|
            0 <= j < i ==> #[trigger] entries@[j].0@ != key@,
        r is None ==> !has_key(entries@, key@),
{
    let target = chars_of(key);
    let mut i: usize = 0;
    while i < entries.len()
        invariant
            i <= entries@.len(),
            target@ == key@,
            forall|j: int| 0 <= j < i ==> entries@[j].0@ != key@,
        decreases entries@.len() - i,
    {
        let k = chars_of(entries[i].0.as_str());
        if chars_eq(k.as_slice(), target.as_slice()) {
            return Some(i);
        }
        i = i + 1;
    }
    None
}

/// Sets `key` to `value` in an object's entries: replaces the value of an
/// existing entry in place, or appends a new entry (`Map::insert`).
pub fn insert_entry(entries: &mut Vec<(String, JsonValue)>, key: String, value: JsonValue)
    requires
        keys_unique(old(entries)@),
    ensures
        keys_unique(final(entries)@),
        has_key(old(entries)@, key@) ==> final(entries)@ == old(entries)@.update(
            key_index(old(entries)@, key@),
            (final(entries)@[key_index(old(entries)@, key@)].0, value),
        ) && final(entries)@[key_index(old(entries)@, key@)].0@ == key@,
        !has_key(old(entries)@, key@) ==> final(entries)@ == old(entries)@.push((key, value)),
{
    match find_entry(entries, key.as_str()) {
        Some(i) => {
            proof {
                lemma_unique_index(old(entries)@, i as int, key@);
            }
            let k = entries[i].0.clone();
            entries.set(i, (k, value));
        },
        None => {
            entries.push((key, value));
        },
    }
}

/// Whether a string slice equals a literal-like string slice.
pub fn key_is(key: &String, name: &str) -> (r: bool)
    ensures
        r == (key@ == name@),
{
    str_eq(key.as_str(), name)
}

} // verus!
