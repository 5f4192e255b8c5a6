//! Recursive scrubbing of sensitive members from event payloads.
use vstd::prelude::*;
use crate::json::{copy_number, JsonData, JsonNumber, JsonValue};
use crate::text::{ascii_lowercase, chars_of, seq_eq, to_ascii_lowercase};

verus! {

/// The text that replaces a scrubbed value.
pub open spec fn filtered_text() -> Seq<char> {
    "[Filtered]"@
}

/// Whether an object key names a sensitive member: its ASCII-lowercased form
/// is one of `fields`.
pub open spec fn is_sensitive(key: Seq<char>, fields: Seq<Seq<char>>) -> bool {
    fields.contains(ascii_lowercase(key))
}

/// `d` with the value of every sensitive member, at any depth, replaced by
/// `"[Filtered]"`.
pub open spec fn scrubbed(d: JsonData, fields: Seq<Seq<char>>) -> JsonData
    decreases d,
{
    match d {
        JsonData::Object(es) => JsonData::Object(
            Seq::new(
                es.len(),
                |i: int|
                    if 0 <= i < es.len() {
                        if is_sensitive(es[i].0, fields) {
                            (es[i].0, JsonData::Str(filtered_text()))
                        } else {
                            (es[i].0, scrubbed(es[i].1, fields))
                        }
                    } else {
                        (Seq::empty(), JsonData::Null)
                    },
            ),
        ),
        JsonData::Array(xs) => JsonData::Array(
            Seq::new(
                xs.len(),
                |i: int|
                    if 0 <= i < xs.len() {
                        scrubbed(xs[i], fields)
                    } else {
                        JsonData::Null
                    },
            ),
        ),
        other => other,
    }
}

/// Every sensitive member, at any depth, holds `"[Filtered]"`.
pub open spec fn no_sensitive_values(d: JsonData, fields: Seq<Seq<char>>) -> bool
    decreases d,
{
    match d {
        JsonData::Object(es) => forall|i: int|
            #![trigger es[i]]
            0 <= i < es.len() ==> if is_sensitive(es[i].0, fields) {
                es[i].1 == JsonData::Str(filtered_text())
            } else {
                no_sensitive_values(es[i].1, fields)
            },
        JsonData::Array(xs) => forall|i: int|
            #![trigger xs[i]]
            0 <= i < xs.len() ==> no_sensitive_values(xs[i], fields),
        _ => true,
    }
}

/// No member anywhere in `d` has a sensitive name.
pub open spec fn no_sensitive_keys(d: JsonData, fields: Seq<Seq<char>>) -> bool
    decreases d,
{
    match d {
        JsonData::Object(es) => forall|i: int|
            #![trigger es[i]]
            0 <= i < es.len() ==> !is_sensitive(es[i].0, fields) && no_sensitive_keys(
                es[i].1,
                fields,
            ),
        JsonData::Array(xs) => forall|i: int|
            #![trigger xs[i]]
            0 <= i < xs.len() ==> no_sensitive_keys(xs[i], fields),
        _ => true,
    }
}

/// The texts of a list of field names.
pub open spec fn field_views(fields: Seq<String>) -> Seq<Seq<char>> {
    fields.map_values(|f: String| f@)
}

fn sensitive(key: &str, fields: &[String]) -> (r: bool)
    ensures
        r == is_sensitive(key@, field_views(fields@)),
{
    let lowered = to_ascii_lowercase(&chars_of(key));
    let mut i: usize = 0;
    while i < fields.len()
        invariant
            i <= fields@.len(),
            lowered@ == ascii_lowercase(key@),
            forall|j: int| 0 <= j < i ==> fields@[j]@ != lowered@,
        decreases fields.len() - i,
    {
        if seq_eq(&chars_of(fields[i].as_str()), &lowered) {
            assert(field_views(fields@)[i as int] == lowered@);
            return true;
        }
        i = i + 1;
    }
    assert forall|j: int| 0 <= j < field_views(fields@).len() implies field_views(
        fields@,
    )[j] != ascii_lowercase(key@) by {
        assert(field_views(fields@)[j] == fields@[j]@);
    }
    false
}

/// A scrubbed copy of `v`.
fn scrub_copy(v: &JsonValue, fields: &[String]) -> (r: JsonValue)
    ensures
        r@ == scrubbed(v@, field_views(fields@)),
    decreases v,
{
    let ghost fv = field_views(fields@);
    match v {
        JsonValue::Object(es) => {
            proof {
                v.lemma_object_view();
            }
            let ghost ds = v@->Object_0;
            let mut out: Vec<(String, JsonValue)> = Vec::new();
            let mut i: usize = 0;
            while i < es.len()
                invariant
                    i <= es.len(),
                    fv == field_views(fields@),
                    ds.len() == es@.len(),
                    v@ == JsonData::Object(ds),
                    v is Object,
                    es@ == v->Object_0@,
                    forall|j: int|
                        #![trigger es@[j]]
                        0 <= j < es@.len() ==> ds[j] == (es@[j].0@, es@[j].1@),
                    out@.len() == i,
                    forall|j: int|
                        #![trigger out@[j]]
                        0 <= j < i ==> (out@[j].0@, out@[j].1@) == scrubbed(v@, fv)->Object_0[j],
                decreases es.len() - i,
            {
                assert(ds[i as int] == (es@[i as int].0@, es@[i as int].1@));
                proof {
                    let ghost entries = v->Object_0;
                    assert(decreases_to!(*v => entries));
                    assert(decreases_to!(entries => entries@));
                    assert(decreases_to!(entries@ => entries@[i as int]));
                    assert(decreases_to!(entries@[i as int] => entries@[i as int].1));
                    assert(decreases_to!(*v => entries@[i as int].1));
                    assert(decreases_to!(v => entries@[i as int].1));
                }
                let key = es[i].0.clone();
                let child: &JsonValue = &es[i].1;
                proof {
                    assert(*child == v->Object_0@[i as int].1);
                    assert(decreases_to!(v => child));
                }
                let value = if sensitive(es[i].0.as_str(), fields) {
                    JsonValue::String("[Filtered]".to_owned())
                } else {
                    scrub_copy(child, fields)
                };
                out.push((key, value));
                i = i + 1;
            }
            let r = JsonValue::Object(out);
            proof {
                r.lemma_object_view();
                assert(r@->Object_0 =~= scrubbed(v@, fv)->Object_0);
            }
            r
        },
        JsonValue::Array(xs) => {
            proof {
                v.lemma_array_view();
            }
            let ghost ds = v@->Array_0;
            let mut out: Vec<JsonValue> = Vec::new();
            let mut i: usize = 0;
            while i < xs.len()
                invariant
                    i <= xs.len(),
                    fv == field_views(fields@),
                    ds.len() == xs@.len(),
                    v@ == JsonData::Array(ds),
                    v is Array,
                    xs@ == v->Array_0@,
                    forall|j: int| #![trigger xs@[j]] 0 <= j < xs@.len() ==> ds[j] == xs@[j]@,
                    out@.len() == i,
                    forall|j: int|
                        #![trigger out@[j]]
                        0 <= j < i ==> out@[j]@ == scrubbed(v@, fv)->Array_0[j],
                decreases xs.len() - i,
            {
                assert(ds[i as int] == xs@[i as int]@);
                proof {
                    let ghost items = v->Array_0;
                    assert(decreases_to!(*v => items));
                    assert(decreases_to!(items => items@));
                    assert(decreases_to!(items@ => items@[i as int]));
                    assert(decreases_to!(*v => items@[i as int]));
                    assert(decreases_to!(v => items@[i as int]));
                }
                let child: &JsonValue = &xs[i];
                proof {
                    assert(*child == v->Array_0@[i as int]);
                    assert(decreases_to!(v => child));
                }
                out.push(scrub_copy(child, fields));
                i = i + 1;
            }
            let r = JsonValue::Array(out);
            proof {
                r.lemma_array_view();
                assert(r@->Array_0 =~= scrubbed(v@, fv)->Array_0);
            }
            r
        },
        JsonValue::Null => JsonValue::Null,
        JsonValue::Bool(b) => JsonValue::Bool(*b),
        JsonValue::Number(n) => JsonValue::Number(copy_number(n)),
        JsonValue::String(s) => JsonValue::String(s.clone()),
    }
}

/// Replaces, at any depth, the value of every member whose ASCII-lowercased
/// name is one of `fields` with the string `"[Filtered]"`.
pub fn scrub_sensitive_with(value: &mut JsonValue, fields: &[String])
    ensures
        final(value)@ == scrubbed(old(value)@, field_views(fields@)),
{
    let scrubbed_value = scrub_copy(value, fields);
    *value = scrubbed_value;
}

/// The members scrubbed when a project names none of its own.
pub open spec fn default_sensitive_fields() -> Seq<Seq<char>> {
    seq!["password"@, "passwd"@, "authorization"@, "cookie"@, "token"@, "secret"@]
}

/// Scrubs the default sensitive members: `password`, `passwd`,
/// `authorization`, `cookie`, `token` and `secret`.
pub fn scrub_sensitive(value: &mut JsonValue)
    ensures
        final(value)@ == scrubbed(old(value)@, default_sensitive_fields()),
{
    let mut fields: Vec<String> = Vec::new();
    fields.push("password".to_owned());
    fields.push("passwd".to_owned());
    fields.push("authorization".to_owned());
    fields.push("cookie".to_owned());
    fields.push("token".to_owned());
    fields.push("secret".to_owned());
    assert(field_views(fields@) =~= default_sensitive_fields());
    scrub_sensitive_with(value, fields.as_slice());
}

/// After scrubbing, no sensitive member anywhere in the document holds
/// anything but `"[Filtered]"`.
pub proof fn lemma_scrub_leaves_no_sensitive_value(d: JsonData, fields: Seq<Seq<char>>)
    ensures
        no_sensitive_values(scrubbed(d, fields), fields),
    decreases d,
{
    match d {
        JsonData::Object(es) => {
            let s = scrubbed(d, fields);
            assert forall|i: int| 0 <= i < es.len() && !is_sensitive(es[i].0, fields) implies no_sensitive_values(
                scrubbed(es[i].1, fields),
                fields,
            ) by {
                lemma_scrub_leaves_no_sensitive_value(es[i].1, fields);
            }
            assert(no_sensitive_values(s, fields));
        },
        JsonData::Array(xs) => {
            assert forall|i: int| 0 <= i < xs.len() implies no_sensitive_values(
                scrubbed(xs[i], fields),
                fields,
            ) by {
                lemma_scrub_leaves_no_sensitive_value(xs[i], fields);
            }
        },
        _ => {},
    }
}

/// Scrubbing twice gives what scrubbing once gives.
pub proof fn lemma_scrub_idempotent(d: JsonData, fields: Seq<Seq<char>>)
    ensures
        scrubbed(scrubbed(d, fields), fields) == scrubbed(d, fields),
    decreases d,
{
    match d {
        JsonData::Object(es) => {
            let s = scrubbed(d, fields);
            let ss = scrubbed(s, fields);
            assert forall|i: int| 0 <= i < es.len() implies #[trigger] ss->Object_0[i]
                == s->Object_0[i] by {
                if !is_sensitive(es[i].0, fields) {
                    lemma_scrub_idempotent(es[i].1, fields);
                }
            }
            assert(ss->Object_0 =~= s->Object_0);
        },
        JsonData::Array(xs) => {
            let s = scrubbed(d, fields);
            let ss = scrubbed(s, fields);
            assert forall|i: int| 0 <= i < xs.len() implies #[trigger] ss->Array_0[i]
                == s->Array_0[i] by {
                lemma_scrub_idempotent(xs[i], fields);
            }
            assert(ss->Array_0 =~= s->Array_0);
        },
        _ => {},
    }
}

/// A document with no sensitive member anywhere comes out of scrubbing as it
/// went in.
pub proof fn lemma_scrub_keeps_clean_documents(d: JsonData, fields: Seq<Seq<char>>)
    requires
        no_sensitive_keys(d, fields),
    ensures
        scrubbed(d, fields) == d,
    decreases d,
{
    match d {
        JsonData::Object(es) => {
            let s = scrubbed(d, fields);
            assert forall|i: int| 0 <= i < es.len() implies #[trigger] s->Object_0[i] == es[i] by {
                assert(!is_sensitive(es[i].0, fields) && no_sensitive_keys(es[i].1, fields));
                lemma_scrub_keeps_clean_documents(es[i].1, fields);
            }
            assert(s->Object_0 =~= es);
        },
        JsonData::Array(xs) => {
            let s = scrubbed(d, fields);
            assert forall|i: int| 0 <= i < xs.len() implies #[trigger] s->Array_0[i] == xs[i] by {
                assert(no_sensitive_keys(xs[i], fields));
                lemma_scrub_keeps_clean_documents(xs[i], fields);
            }
            assert(s->Array_0 =~= xs);
        },
        _ => {},
    }
}

/// Scrubbing keeps the shape of a document: an object keeps its member
/// names in order, an array its length.
pub proof fn lemma_scrub_keeps_member_names(d: JsonData, fields: Seq<Seq<char>>)
    ensures
        d is Object ==> scrubbed(d, fields) is Object && scrubbed(d, fields)->Object_0.len()
            == d->Object_0.len() && forall|i: int|
            0 <= i < d->Object_0.len() ==> #[trigger] scrubbed(d, fields)->Object_0[i].0
                == d->Object_0[i].0,
        d is Array ==> scrubbed(d, fields) is Array && scrubbed(d, fields)->Array_0.len()
            == d->Array_0.len(),
{
}

} // verus!
