//! Ingestion decisions: shaping an SDK payload into an event, the checks an
//! event must pass, and the scrubbing applied before it is stored.
use vstd::prelude::*;
use crate::error::{AppError, ErrorData};
use crate::json::{
    inserted, items_of, lemma_inserted_member, member, member_text, text_of, JsonData, JsonValue,
};
use crate::model::IngestEvent;
use crate::scrub::{field_views, scrub_sensitive_with, scrubbed};
use crate::text::{ascii_lowercase, chars_of, string_of, to_ascii_lowercase, trim, trimmed};

verus! {

/// The message an event payload stands for when its `message` is not a
/// string: `message.formatted`, else `transaction`, else `event`.
pub open spec fn fallback_message(payload: JsonData) -> Seq<char> {
    let formatted = match member(payload, "message"@) {
        Some(m) => member_text(m, "formatted"@),
        None => None,
    };
    match formatted {
        Some(t) => t,
        None => match member_text(payload, "transaction"@) {
            Some(t) => t,
            None => "event"@,
        },
    }
}

/// A payload with a string `message`: kept as it is when it has one, else
/// given its fallback message.
pub open spec fn shaped_payload(payload: JsonData) -> Result<JsonData, ErrorData> {
    if !(payload is Object) {
        Err(ErrorData::BadRequest("event payload must be an object"@))
    } else if member_text(payload, "message"@) is Some {
        Ok(payload)
    } else {
        Ok(inserted(payload, "message"@, JsonData::Str(fallback_message(payload))))
    }
}

/// A payload whose `message` is not a string but has a string `formatted`
/// is given that text as its message, whatever else (such as a
/// `transaction`) the payload holds.
pub proof fn lemma_formatted_message_wins(payload: JsonData, m: JsonData, f: Seq<char>)
    requires
        payload is Object,
        member_text(payload, "message"@) is None,
        member(payload, "message"@) == Some(m),
        member_text(m, "formatted"@) == Some(f),
    ensures
        shaped_payload(payload) matches Ok(v) && member(v, "message"@) == Some(JsonData::Str(f)),
{
    lemma_inserted_member(payload, "message"@, JsonData::Str(fallback_message(payload)));
}

/// A payload without a string `message` or `message.formatted` takes its
/// `transaction` as its message when that is a string, else `event`.
pub proof fn lemma_transaction_then_event(payload: JsonData)
    requires
        payload is Object,
        member_text(payload, "message"@) is None,
        match member(payload, "message"@) {
            Some(m) => member_text(m, "formatted"@) is None,
            None => true,
        },
    ensures
        shaped_payload(payload) matches Ok(v) && member(v, "message"@) == Some(
            JsonData::Str(
                match member_text(payload, "transaction"@) {
                    Some(t) => t,
                    None => "event"@,
                },
            ),
        ),
{
    lemma_inserted_member(payload, "message"@, JsonData::Str(fallback_message(payload)));
}

/// A payload whose `message` is a string keeps it and is otherwise left as
/// it is; anything but an object is refused.
pub proof fn lemma_string_message_is_kept(payload: JsonData)
    ensures
        payload is Object && member_text(payload, "message"@) is Some ==> shaped_payload(payload)
            == Ok::<JsonData, ErrorData>(payload),
        !(payload is Object) ==> shaped_payload(payload) is Err,
{
}

/// Shapes the JSON of an event or transaction item into an event payload.
pub fn event_from_payload(payload: JsonValue) -> (r: Result<JsonValue, AppError>)
    ensures
        match r {
            Ok(v) => shaped_payload(payload@) == Ok::<JsonData, ErrorData>(v@),
            Err(e) => shaped_payload(payload@) == Err::<JsonData, ErrorData>(e@),
        },
{
    let is_object = match &payload {
        JsonValue::Object(_) => true,
        _ => false,
    };
    if !is_object {
        return Err(AppError::BadRequest("event payload must be an object".to_owned()));
    }
    if payload.member_str("message").is_some() {
        return Ok(payload);
    }
    let formatted = match payload.get("message") {
        Some(m) => match m.member_str("formatted") {
            Some(t) => Some(t.to_owned()),
            None => None,
        },
        None => None,
    };
    let message = match formatted {
        Some(t) => t,
        None => match payload.member_str("transaction") {
            Some(t) => t.to_owned(),
            None => "event".to_owned(),
        },
    };
    Ok(payload.insert_member("message", JsonValue::String(message)))
}

/// An event must carry a message that is not only whitespace.
pub fn require_message(event: &IngestEvent) -> (r: Result<(), AppError>)
    ensures
        r is Ok <==> trimmed(event.message@).len() > 0,
        r matches Err(e) ==> e@ == ErrorData::BadRequest("message is required"@),
{
    let t = trim(&chars_of(event.message.as_str()));
    if t.len() == 0 {
        Err(AppError::BadRequest("message is required".to_owned()))
    } else {
        Ok(())
    }
}

/// The strings of a project's scrub-field list, ASCII-lowercased; nothing
/// when the list is not an array.
pub open spec fn scrub_list(d: JsonData) -> Seq<Seq<char>>
    decreases d,
{
    match d {
        JsonData::Array(xs) => strings_lowered(xs),
        _ => Seq::empty(),
    }
}

pub open spec fn strings_lowered(xs: Seq<JsonData>) -> Seq<Seq<char>>
    decreases xs.len(),
{
    if xs.len() == 0 {
        Seq::empty()
    } else {
        strings_lowered(xs.drop_last()) + match text_of(xs.last()) {
            Some(t) => seq![ascii_lowercase(t)],
            None => Seq::empty(),
        }
    }
}

/// The member names a project scrubs, from its stored list.
pub fn scrub_field_list(scrub_fields: &JsonValue) -> (r: Vec<String>)
    ensures
        field_views(r@) == scrub_list(scrub_fields@),
{
    let mut out: Vec<String> = Vec::new();
    match scrub_fields.as_array() {
        Some(xs) => {
            let ghost ds = items_of(scrub_fields@)->0;
            let mut i: usize = 0;
            while i < xs.len()
                invariant
                    i <= xs@.len(),
                    ds.len() == xs@.len(),
                    scrub_fields@ == JsonData::Array(ds),
                    forall|j: int| #![trigger xs@[j]] 0 <= j < xs@.len() ==> xs@[j]@ == ds[j],
                    field_views(out@) == strings_lowered(ds.take(i as int)),
                decreases xs.len() - i,
            {
                assert(ds.take(i + 1).drop_last() =~= ds.take(i as int));
                assert(ds.take(i + 1).last() == xs@[i as int]@);
                let ghost before = field_views(out@);
                match xs[i].as_str() {
                    Some(t) => {
                        let lowered = string_of(&to_ascii_lowercase(&chars_of(t)));
                        out.push(lowered);
                        assert(field_views(out@) =~= before + seq![ascii_lowercase(t@)]);
                    },
                    None => {
                        assert(before + Seq::<Seq<char>>::empty() =~= before);
                    },
                }
                i = i + 1;
            }
            assert(ds.take(xs@.len() as int) =~= ds);
            out
        },
        None => {
            assert(field_views(out@) =~= Seq::<Seq<char>>::empty());
            out
        },
    }
}

/// Scrubs the tags, contexts and exception of an event with the project's
/// field list; nothing else changes.
pub fn scrub_event(event: &mut IngestEvent, fields: &[String])
    ensures
        final(event).tags@ == scrubbed(old(event).tags@, field_views(fields@)),
        final(event).contexts@ == scrubbed(old(event).contexts@, field_views(fields@)),
        final(event).exception@ == scrubbed(old(event).exception@, field_views(fields@)),
        final(event).message@ == old(event).message@,
        final(event).level@ == old(event).level@,
        final(event).fingerprint@ == old(event).fingerprint@,
        final(event).event_id == old(event).event_id,
        final(event).timestamp == old(event).timestamp,
        final(event).environment == old(event).environment,
        final(event).release == old(event).release,
        final(event).sdk@ == old(event).sdk@,
        final(event).server_name == old(event).server_name,
        final(event).platform == old(event).platform,
{
    scrub_sensitive_with(&mut event.tags, fields);
    scrub_sensitive_with(&mut event.contexts, fields);
    scrub_sensitive_with(&mut event.exception, fields);
}

/// A client-chosen event id already stored: accepted again when it belongs
/// to the same project, a conflict otherwise.
pub fn existing_event_outcome(existing_project_id: u128, project_id: u128) -> (r: Result<(), AppError>)
    ensures
        r is Ok <==> existing_project_id == project_id,
        r matches Err(e) ==> e@ == ErrorData::Conflict("event id is already used by another project"@),
{
    if existing_project_id != project_id {
        Err(AppError::Conflict("event id is already used by another project".to_owned()))
    } else {
        Ok(())
    }
}

} // verus!
