//! Reading JSON text into the library's JSON documents.
use vstd::prelude::*;
use crate::json::{JsonData, JsonNumber, JsonValue, NumberData};

verus! {

#[verifier::external_type_specification]
#[verifier::external_body]
pub struct ExSerdeValue(serde_json::Value);

/// The syntax error of `bytes` read as one JSON document, if any.
pub uninterp spec fn json_syntax_error(bytes: Seq<u8>) -> Option<Seq<char>>;

/// The value `serde_json` reads from `bytes` when they are one JSON document.
pub uninterp spec fn parsed_json(bytes: Seq<u8>) -> serde_json::Value;

/// One level of a parsed value, its members and items left as parsed values.
pub enum LayerData {
    Null,
    Bool(bool),
    Number(Option<u64>, Option<i64>, Seq<char>),
    Str(Seq<char>),
    Array(Seq<serde_json::Value>),
    Object(Seq<(Seq<char>, serde_json::Value)>),
}

/// The top level of a parsed value.
pub uninterp spec fn json_layer_of(v: serde_json::Value) -> LayerData;

/// One level of a parsed value, as `json_layer` hands it out.
pub enum ValueLayer<'a> {
    Null,
    Bool(bool),
    Number(Option<u64>, Option<i64>, String),
    Str(String),
    Array(Vec<&'a serde_json::Value>),
    Object(Vec<(String, &'a serde_json::Value)>),
}

pub open spec fn layer_view<'a>(l: ValueLayer<'a>) -> LayerData {
    match l {
        ValueLayer::Null => LayerData::Null,
        ValueLayer::Bool(b) => LayerData::Bool(b),
        ValueLayer::Number(u, i, t) => LayerData::Number(u, i, t@),
        ValueLayer::Str(s) => LayerData::Str(s@),
        ValueLayer::Array(xs) => LayerData::Array(xs@.map_values(|x: &'a serde_json::Value| *x)),
        ValueLayer::Object(es) => LayerData::Object(
            es@.map_values(|e: (String, &'a serde_json::Value)| (e.0@, *e.1)),
        ),
    }
}

/// `serde_json::from_slice::<serde_json::Value>`, keeping the text of its
/// error. Trusted: it fails exactly when the named syntax error says so, and
/// otherwise gives the named parsed value.
#[verifier::external_body]
fn json_parse(bytes: &[u8]) -> (r: Result<serde_json::Value, String>)
    ensures
        r is Err <==> json_syntax_error(bytes@) is Some,
        r matches Err(e) ==> json_syntax_error(bytes@) == Some(e@),
        r matches Ok(v) ==> v == parsed_json(bytes@),
{
    serde_json::from_slice::<serde_json::Value>(bytes).map_err(|error| error.to_string())
}

/// The variant of a `serde_json::Value` with its fields: for a number its
/// `as_u64`, `as_i64` and `to_string`, for an array its items (`iter`), for
/// an object its entries (`iter`) in the map's order. Trusted: the result is
/// the named layer.
#[verifier::external_body]
fn json_layer<'a>(v: &'a serde_json::Value) -> (r: ValueLayer<'a>)
    ensures
        layer_view(r) == json_layer_of(*v),
{
    match v {
        serde_json::Value::Null => ValueLayer::Null,
        serde_json::Value::Bool(b) => ValueLayer::Bool(*b),
        serde_json::Value::Number(n) => ValueLayer::Number(n.as_u64(), n.as_i64(), n.to_string()),
        serde_json::Value::String(s) => ValueLayer::Str(s.clone()),
        serde_json::Value::Array(xs) => ValueLayer::Array(xs.iter().collect()),
        serde_json::Value::Object(m) => ValueLayer::Object(m.iter().map(|(k, x)| (k.clone(), x)).collect()),
    }
}

/// A JSON number: a non-negative integer when it reads as `u64`, a negative
/// one when it reads as `i64`, else its text.
pub open spec fn number_of(u: Option<u64>, i: Option<i64>, t: Seq<char>) -> NumberData {
    match u {
        Some(n) => NumberData::PosInt(n),
        None => match i {
            Some(n) => NumberData::NegInt(n),
            None => NumberData::Float(t),
        },
    }
}

/// A parsed value as a document, read at most `depth` levels deep (deeper
/// levels read as null).
pub open spec fn json_of_value(v: serde_json::Value, depth: nat) -> JsonData
    decreases depth,
{
    if depth == 0 {
        JsonData::Null
    } else {
        match json_layer_of(v) {
            LayerData::Null => JsonData::Null,
            LayerData::Bool(b) => JsonData::Bool(b),
            LayerData::Number(u, i, t) => JsonData::Number(number_of(u, i, t)),
            LayerData::Str(s) => JsonData::Str(s),
            LayerData::Array(xs) => JsonData::Array(
                Seq::new(xs.len(), |k: int| json_of_value(xs[k], (depth - 1) as nat)),
            ),
            LayerData::Object(es) => JsonData::Object(
                Seq::new(es.len(), |k: int| (es[k].0, json_of_value(es[k].1, (depth - 1) as nat))),
            ),
        }
    }
}

/// The document JSON text stands for. It is read as deep as the text has
/// bytes, which every nesting the text can hold stays within.
pub open spec fn json_value_of(bytes: Seq<u8>) -> JsonData {
    json_of_value(parsed_json(bytes), bytes.len())
}

fn number_from(u: Option<u64>, i: Option<i64>, t: String) -> (r: JsonNumber)
    ensures
        r@ == number_of(u, i, t@),
{
    match u {
        Some(n) => JsonNumber::PosInt(n),
        None => match i {
            Some(n) => JsonNumber::NegInt(n),
            None => JsonNumber::Float(t),
        },
    }
}

/// The document a parsed value stands for, read `depth` levels deep.
fn document_of(v: &serde_json::Value, depth: usize) -> (r: JsonValue)
    ensures
        r@ == json_of_value(*v, depth as nat),
    decreases depth,
{
    if depth == 0 {
        return JsonValue::Null;
    }
    let layer = json_layer(v);
    let ghost lv = layer_view(layer);
    match layer {
        ValueLayer::Null => JsonValue::Null,
        ValueLayer::Bool(b) => JsonValue::Bool(b),
        ValueLayer::Number(u, i, t) => JsonValue::Number(number_from(u, i, t)),
        ValueLayer::Str(s) => JsonValue::String(s),
        ValueLayer::Array(xs) => {
            let ghost ds = lv->Array_0;
            let mut out: Vec<JsonValue> = Vec::new();
            let mut k: usize = 0;
            while k < xs.len()
                invariant
                    k <= xs.len(),
                    depth > 0,
                    ds == xs@.map_values(|x: &serde_json::Value| *x),
                    out@.len() == k,
                    forall|j: int|
                        #![trigger out@[j]]
                        0 <= j < k ==> out@[j]@ == json_of_value(ds[j], (depth - 1) as nat),
                decreases xs.len() - k,
            {
                let item = document_of(xs[k], depth - 1);
                out.push(item);
                k = k + 1;
            }
            let r = JsonValue::Array(out);
            proof {
                r.lemma_array_view();
                let ghost expect = json_of_value(*v, depth as nat);
                assert(expect == JsonData::Array(expect->Array_0));
                assert(r@->Array_0 =~= expect->Array_0) by {
                    assert forall|j: int| 0 <= j < ds.len() implies r@->Array_0[j]
                        == expect->Array_0[j] by {
                        assert(r->Array_0@[j]@ == out@[j]@);
                    }
                }
            }
            r
        },
        ValueLayer::Object(es) => {
            let ghost ds = lv->Object_0;
            let mut out: Vec<(String, JsonValue)> = Vec::new();
            let mut k: usize = 0;
            while k < es.len()
                invariant
                    k <= es.len(),
                    depth > 0,
                    ds == es@.map_values(|e: (String, &serde_json::Value)| (e.0@, *e.1)),
                    out@.len() == k,
                    forall|j: int|
                        #![trigger out@[j]]
                        0 <= j < k ==> out@[j].0@ == ds[j].0 && out@[j].1@ == json_of_value(
                            ds[j].1,
                            (depth - 1) as nat,
                        ),
                decreases es.len() - k,
            {
                let key = es[k].0.clone();
                let item = document_of(es[k].1, depth - 1);
                out.push((key, item));
                k = k + 1;
            }
            let r = JsonValue::Object(out);
            proof {
                r.lemma_object_view();
                let ghost expect = json_of_value(*v, depth as nat);
                assert(expect == JsonData::Object(expect->Object_0));
                assert(r@->Object_0 =~= expect->Object_0) by {
                    assert forall|j: int| 0 <= j < ds.len() implies r@->Object_0[j]
                        == expect->Object_0[j] by {
                        assert(r->Object_0@[j].1@ == out@[j].1@);
                    }
                }
            }
            r
        },
    }
}

/// Reads JSON text into a document, or the text of its syntax error.
pub fn json_value(bytes: &[u8]) -> (r: Result<JsonValue, String>)
    ensures
        r is Err <==> json_syntax_error(bytes@) is Some,
        r matches Err(e) ==> json_syntax_error(bytes@) == Some(e@),
        r matches Ok(v) ==> v@ == json_value_of(bytes@),
{
    match json_parse(bytes) {
        Err(e) => Err(e),
        Ok(v) => Ok(document_of(&v, bytes.len())),
    }
}

} // verus!
