//! A JSON document as the library reads and rewrites it, with its
//! mathematical view.
use vstd::prelude::*;
use crate::text::{chars_of, str_eq};

verus! {

/// A JSON number: a non-negative integer, a negative integer, or any other
/// number, kept as its decimal text.
#[derive(Debug)]
pub enum JsonNumber {
    PosInt(u64),
    NegInt(i64),
    Float(String),
}

/// A JSON value. The entries of an object keep their order, and a lookup
/// finds the first entry under a key.
#[derive(Debug)]
pub enum JsonValue {
    Null,
    Bool(bool),
    Number(JsonNumber),
    String(String),
    Array(Vec<JsonValue>),
    Object(Vec<(String, JsonValue)>),
}

pub enum NumberData {
    PosInt(u64),
    NegInt(i64),
    Float(Seq<char>),
}

/// The mathematical form of a JSON value.
pub enum JsonData {
    Null,
    Bool(bool),
    Number(NumberData),
    Str(Seq<char>),
    Array(Seq<JsonData>),
    Object(Seq<(Seq<char>, JsonData)>),
}

impl View for JsonNumber {
    type V = NumberData;

    open spec fn view(&self) -> NumberData {
        match self {
            JsonNumber::PosInt(n) => NumberData::PosInt(*n),
            JsonNumber::NegInt(n) => NumberData::NegInt(*n),
            JsonNumber::Float(t) => NumberData::Float(t@),
        }
    }
}

pub open spec fn json_data(v: JsonValue) -> JsonData
    decreases v,
{
    match v {
        JsonValue::Null => JsonData::Null,
        JsonValue::Bool(b) => JsonData::Bool(b),
        JsonValue::Number(n) => JsonData::Number(n@),
        JsonValue::String(s) => JsonData::Str(s@),
        JsonValue::Array(xs) => JsonData::Array(
            Seq::new(xs@.len(), |i: int| if 0 <= i < xs@.len() { json_data(xs@[i]) } else { JsonData::Null }),
        ),
        JsonValue::Object(es) => JsonData::Object(
            Seq::new(es@.len(), |i: int| if 0 <= i < es@.len() { (es@[i].0@, json_data(es@[i].1)) } else { (Seq::empty(), JsonData::Null) }),
        ),
    }
}

impl View for JsonValue {
    type V = JsonData;

    open spec fn view(&self) -> JsonData {
        json_data(*self)
    }
}


/// The value under `key` in an object: the first entry from index `i` on
/// whose key is `key`.
pub open spec fn entry_from(es: Seq<(Seq<char>, JsonData)>, key: Seq<char>, i: int) -> Option<JsonData>
    decreases es.len() - i,
{
    if i < 0 || i >= es.len() {
        None
    } else if es[i].0 == key {
        Some(es[i].1)
    } else {
        entry_from(es, key, i + 1)
    }
}

/// What `Value::get(key)` gives: the member `key` of an object; nothing for
/// any other kind of value.
pub open spec fn member(d: JsonData, key: Seq<char>) -> Option<JsonData> {
    match d {
        JsonData::Object(es) => entry_from(es, key, 0),
        _ => None,
    }
}

/// What `Value::as_str` gives.
pub open spec fn text_of(d: JsonData) -> Option<Seq<char>> {
    match d {
        JsonData::Str(s) => Some(s),
        _ => None,
    }
}

/// What `Value::as_array` gives.
pub open spec fn items_of(d: JsonData) -> Option<Seq<JsonData>> {
    match d {
        JsonData::Array(xs) => Some(xs),
        _ => None,
    }
}

/// What `Value::as_bool` gives.
pub open spec fn bool_of(d: JsonData) -> Option<bool> {
    match d {
        JsonData::Bool(b) => Some(b),
        _ => None,
    }
}

/// What `Value::as_u64` gives.
pub open spec fn u64_of(d: JsonData) -> Option<u64> {
    match d {
        JsonData::Number(NumberData::PosInt(n)) => Some(n),
        _ => None,
    }
}

/// The text under `key` when it is a string.
pub open spec fn member_text(d: JsonData, key: Seq<char>) -> Option<Seq<char>> {
    match member(d, key) {
        Some(v) => text_of(v),
        None => None,
    }
}

/// The text under `key`, or the empty text.
pub open spec fn member_text_or_empty(d: JsonData, key: Seq<char>) -> Seq<char> {
    match member_text(d, key) {
        Some(t) => t,
        None => Seq::empty(),
    }
}

impl JsonValue {
    pub proof fn lemma_object_view(&self)
        requires
            self is Object,
        ensures
            self@ is Object,
            self@->Object_0.len() == self->Object_0@.len(),
            forall|j: int|
                #![trigger self->Object_0@[j]]
                0 <= j < self->Object_0@.len() ==> self@->Object_0[j] == (
                    self->Object_0@[j].0@,
                    self->Object_0@[j].1@,
                ),
    {
    }

    pub proof fn lemma_array_view(&self)
        requires
            self is Array,
        ensures
            self@ is Array,
            self@->Array_0.len() == self->Array_0@.len(),
            forall|j: int|
                #![trigger self->Array_0@[j]]
                0 <= j < self->Array_0@.len() ==> self@->Array_0[j] == self->Array_0@[j]@,
    {
    }

    /// The member `key` of an object.
    pub fn get(&self, key: &str) -> (r: Option<&JsonValue>)
        ensures
            r is Some == member(self@, key@) is Some,
            r is Some ==> r->0@ == member(self@, key@)->0,
    {
        match self {
            JsonValue::Object(es) => {
                proof {
                    self.lemma_object_view();
                }
                let ghost ds = self@->Object_0;
                let mut i: usize = 0;
                while i < es.len()
                    invariant
                        i <= es.len(),
                        ds.len() == es@.len(),
                        self@ == JsonData::Object(ds),
                        forall|j: int|
                            #![trigger es@[j]]
                            0 <= j < es@.len() ==> ds[j] == (es@[j].0@, es@[j].1@),
                        entry_from(ds, key@, 0) == entry_from(ds, key@, i as int),
                    decreases es.len() - i,
                {
                    assert(ds[i as int] == (es@[i as int].0@, es@[i as int].1@));
                    if str_eq(es[i].0.as_str(), key) {
                        return Some(&es[i].1);
                    }
                    i = i + 1;
                }
                None
            },
            _ => None,
        }
    }

    /// The text of a string value.
    pub fn as_str(&self) -> (r: Option<&str>)
        ensures
            r is Some == text_of(self@) is Some,
            r is Some ==> r->0@ == text_of(self@)->0,
    {
        match self {
            JsonValue::String(s) => Some(s.as_str()),
            _ => None,
        }
    }

    /// The items of an array value.
    pub fn as_array(&self) -> (r: Option<&Vec<JsonValue>>)
        ensures
            r is Some == items_of(self@) is Some,
            r is Some ==> r->0@.len() == items_of(self@)->0.len() && forall|j: int|
                #![trigger r->0@[j]]
                0 <= j < r->0@.len() ==> r->0@[j]@ == items_of(self@)->0[j],
    {
        match self {
            JsonValue::Array(xs) => {
                proof {
                    self.lemma_array_view();
                }
                Some(xs)
            },
            _ => None,
        }
    }

    /// The value of a boolean.
    pub fn as_bool(&self) -> (r: Option<bool>)
        ensures
            r == bool_of(self@),
    {
        match self {
            JsonValue::Bool(b) => Some(*b),
            _ => None,
        }
    }

    /// The value of a non-negative integer.
    pub fn as_u64(&self) -> (r: Option<u64>)
        ensures
            r == u64_of(self@),
    {
        match self {
            JsonValue::Number(JsonNumber::PosInt(n)) => Some(*n),
            _ => None,
        }
    }

    /// The text under `key` when it is a string.
    pub fn member_str(&self, key: &str) -> (r: Option<&str>)
        ensures
            r is Some == member_text(self@, key@) is Some,
            r is Some ==> r->0@ == member_text(self@, key@)->0,
    {
        match self.get(key) {
            Some(v) => v.as_str(),
            None => None,
        }
    }
}

/// The object entries `es` with the value of the first entry (from index `i`
/// on) named `key` replaced by `v`; unchanged when there is none.
pub open spec fn entries_set(es: Seq<(Seq<char>, JsonData)>, key: Seq<char>, v: JsonData, i: int) -> Seq<
    (Seq<char>, JsonData),
>
    decreases es.len() - i,
{
    if i < 0 || i >= es.len() {
        es
    } else if es[i].0 == key {
        es.update(i, (key, v))
    } else {
        entries_set(es, key, v, i + 1)
    }
}

/// An object with its member `key` set to `v` (the first such member, as
/// `Value::get_mut` finds it); any other value unchanged.
pub open spec fn with_member(d: JsonData, key: Seq<char>, v: JsonData) -> JsonData {
    match d {
        JsonData::Object(es) => JsonData::Object(entries_set(es, key, v, 0)),
        _ => d,
    }
}

/// An object with `key` set to `v`: the existing member replaced, else the
/// member added, as `Map::insert` does.
pub open spec fn inserted(d: JsonData, key: Seq<char>, v: JsonData) -> JsonData {
    match d {
        JsonData::Object(es) => if member(d, key) is Some {
            JsonData::Object(entries_set(es, key, v, 0))
        } else {
            JsonData::Object(es.push((key, v)))
        },
        _ => d,
    }
}

proof fn lemma_entries_set_finds(es: Seq<(Seq<char>, JsonData)>, key: Seq<char>, v: JsonData, i: int)
    requires
        0 <= i,
    ensures
        entries_set(es, key, v, i).len() == es.len(),
        forall|j: int| 0 <= j < i && j < es.len() ==> #[trigger] entries_set(es, key, v, i)[j] == es[j],
        entry_from(es, key, i) is Some ==> entry_from(entries_set(es, key, v, i), key, i) == Some(v),
    decreases es.len() - i,
{
    if i < es.len() && es[i].0 != key {
        lemma_entries_set_finds(es, key, v, i + 1);
        let t = entries_set(es, key, v, i + 1);
        assert(t[i] == es[i]);
    }
}

proof fn lemma_entry_after_push(es: Seq<(Seq<char>, JsonData)>, key: Seq<char>, v: JsonData, i: int)
    requires
        0 <= i <= es.len(),
        entry_from(es, key, i) is None,
    ensures
        entry_from(es.push((key, v)), key, i) == Some(v),
    decreases es.len() - i,
{
    if i < es.len() {
        assert(es.push((key, v))[i] == es[i]);
        lemma_entry_after_push(es, key, v, i + 1);
    }
}

/// After an object's member `key` is set to `v`, the object's member `key`
/// is `v`, whether it had one before or not.
pub proof fn lemma_inserted_member(d: JsonData, key: Seq<char>, v: JsonData)
    requires
        d is Object,
    ensures
        member(inserted(d, key, v), key) == Some(v),
{
    let es = d->Object_0;
    if member(d, key) is Some {
        lemma_entries_set_finds(es, key, v, 0);
    } else {
        lemma_entry_after_push(es, key, v, 0);
    }
}

/// An exact copy of a number.
pub fn copy_number(n: &JsonNumber) -> (r: JsonNumber)
    ensures
        r@ == n@,
{
    match n {
        JsonNumber::PosInt(x) => JsonNumber::PosInt(*x),
        JsonNumber::NegInt(x) => JsonNumber::NegInt(*x),
        JsonNumber::Float(t) => JsonNumber::Float(t.clone()),
    }
}

impl JsonValue {
    /// An exact copy.
    pub fn copy(&self) -> (r: JsonValue)
        ensures
            r@ == self@,
        decreases self,
    {
        match self {
            JsonValue::Object(es) => {
                proof {
                    self.lemma_object_view();
                }
                let mut out: Vec<(String, JsonValue)> = Vec::new();
                let mut i: usize = 0;
                while i < es.len()
                    invariant
                        i <= es.len(),
                        self is Object,
                        es@ == self->Object_0@,
                        self@->Object_0.len() == es@.len(),
                        forall|j: int|
                            #![trigger es@[j]]
                            0 <= j < es@.len() ==> self@->Object_0[j] == (es@[j].0@, es@[j].1@),
                        out@.len() == i,
                        forall|j: int|
                            #![trigger out@[j]]
                            0 <= j < i ==> (out@[j].0@, out@[j].1@) == self@->Object_0[j],
                    decreases es.len() - i,
                {
                    let child: &JsonValue = &es[i].1;
                    proof {
                        let ghost entries = self->Object_0;
                        assert(decreases_to!(*self => entries));
                        assert(decreases_to!(entries => entries@));
                        assert(decreases_to!(entries@ => entries@[i as int]));
                        assert(decreases_to!(entries@[i as int] => entries@[i as int].1));
                        assert(decreases_to!(self => child));
                        assert(self@->Object_0[i as int] == (es@[i as int].0@, es@[i as int].1@));
                    }
                    out.push((es[i].0.clone(), child.copy()));
                    i = i + 1;
                }
                let r = JsonValue::Object(out);
                proof {
                    r.lemma_object_view();
                    assert(r@->Object_0 =~= self@->Object_0);
                }
                r
            },
            JsonValue::Array(xs) => {
                proof {
                    self.lemma_array_view();
                }
                let mut out: Vec<JsonValue> = Vec::new();
                let mut i: usize = 0;
                while i < xs.len()
                    invariant
                        i <= xs.len(),
                        self is Array,
                        xs@ == self->Array_0@,
                        self@->Array_0.len() == xs@.len(),
                        forall|j: int| #![trigger xs@[j]] 0 <= j < xs@.len() ==> self@->Array_0[j] == xs@[j]@,
                        out@.len() == i,
                        forall|j: int| #![trigger out@[j]] 0 <= j < i ==> out@[j]@ == self@->Array_0[j],
                    decreases xs.len() - i,
                {
                    let child: &JsonValue = &xs[i];
                    proof {
                        let ghost items = self->Array_0;
                        assert(decreases_to!(*self => items));
                        assert(decreases_to!(items => items@));
                        assert(decreases_to!(items@ => items@[i as int]));
                        assert(decreases_to!(self => child));
                        assert(self@->Array_0[i as int] == xs@[i as int]@);
                    }
                    out.push(child.copy());
                    i = i + 1;
                }
                let r = JsonValue::Array(out);
                proof {
                    r.lemma_array_view();
                    assert(r@->Array_0 =~= self@->Array_0);
                }
                r
            },
            JsonValue::Null => JsonValue::Null,
            JsonValue::Bool(b) => JsonValue::Bool(*b),
            JsonValue::Number(n) => JsonValue::Number(copy_number(n)),
            JsonValue::String(s) => JsonValue::String(s.clone()),
        }
    }

    /// Sets the first member named `key` of an object to `v`; leaves any
    /// other value, or an object without such a member, as it is.
    pub fn set_member(self, key: &str, v: JsonValue) -> (r: JsonValue)
        ensures
            r@ == with_member(self@, key@, v@),
    {
        match self {
            JsonValue::Object(mut es) => {
                let ghost orig = JsonValue::Object(es);
                proof {
                    orig.lemma_object_view();
                }
                let ghost ds = orig@->Object_0;
                let mut i: usize = 0;
                while i < es.len() && !str_eq(es[i].0.as_str(), key)
                    invariant
                        i <= es.len(),
                        ds.len() == es@.len(),
                        forall|j: int|
                            #![trigger es@[j]]
                            0 <= j < es@.len() ==> ds[j] == (es@[j].0@, es@[j].1@),
                        entries_set(ds, key@, v@, 0) == entries_set(ds, key@, v@, i as int),
                    decreases es.len() - i,
                {
                    assert(ds[i as int] == (es@[i as int].0@, es@[i as int].1@));
                    i = i + 1;
                }
                if i < es.len() {
                    assert(ds[i as int] == (es@[i as int].0@, es@[i as int].1@));
                    let name = es[i].0.clone();
                    let ghost vv = v@;
                    es.set(i, (name, v));
                    let r = JsonValue::Object(es);
                    proof {
                        r.lemma_object_view();
                        assert(r@->Object_0 =~= ds.update(i as int, (key@, vv)));
                    }
                    r
                } else {
                    let r = JsonValue::Object(es);
                    proof {
                        r.lemma_object_view();
                        assert(r@->Object_0 =~= ds);
                    }
                    r
                }
            },
            other => other,
        }
    }

    /// Sets member `key` of an object to `v`, adding it when absent, as
    /// `Map::insert` does; leaves any other value as it is.
    pub fn insert_member(self, key: &str, v: JsonValue) -> (r: JsonValue)
        ensures
            r@ == inserted(self@, key@, v@),
    {
        let present = self.get(key).is_some();
        if present {
            self.set_member(key, v)
        } else {
            match self {
                JsonValue::Object(mut es) => {
                    let ghost orig = JsonValue::Object(es);
                    proof {
                        orig.lemma_object_view();
                    }
                    let ghost ds = orig@->Object_0;
                    let ghost vv = v@;
                    es.push((key.to_owned(), v));
                    let r = JsonValue::Object(es);
                    proof {
                        r.lemma_object_view();
                        assert(r@->Object_0 =~= ds.push((key@, vv)));
                    }
                    r
                },
                other => other,
            }
        }
    }
}

} // verus!
