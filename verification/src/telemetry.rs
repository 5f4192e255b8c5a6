//! Services and structured logs: which service an event or a log record
//! belongs to, and what is recorded about it.
use vstd::prelude::*;
use crate::json::{inserted, member, member_text, text_of, JsonData, JsonValue};
use crate::model::IngestEvent;

verus! {

/// The value of a typed log attribute: `attributes[name].value`.
pub open spec fn attribute_value(attributes: JsonData, name: Seq<char>) -> Option<JsonData> {
    match member(attributes, name) {
        Some(a) => member(a, "value"@),
        None => None,
    }
}

/// The value of the typed log attribute `name`.
pub fn attribute<'a>(attributes: &'a JsonValue, name: &str) -> (r: Option<&'a JsonValue>)
    ensures
        r is Some <==> attribute_value(attributes@, name@) is Some,
        r matches Some(v) ==> v@ == attribute_value(attributes@, name@)->0,
{
    match attributes.get(name) {
        Some(a) => a.get("value"),
        None => None,
    }
}

/// The text of the typed log attribute `name`, when it is a string.
pub open spec fn attribute_text(attributes: JsonData, name: Seq<char>) -> Option<Seq<char>> {
    match attribute_value(attributes, name) {
        Some(v) => text_of(v),
        None => None,
    }
}

fn attribute_str(attributes: &JsonValue, name: &str) -> (r: Option<String>)
    ensures
        r is Some <==> attribute_text(attributes@, name@) is Some,
        r matches Some(v) ==> v@ == attribute_text(attributes@, name@)->0,
{
    match attribute(attributes, name) {
        Some(v) => match v.as_str() {
            Some(t) => Some(t.to_owned()),
            None => None,
        },
        None => None,
    }
}

pub open spec fn text_opt(o: Option<String>) -> Option<Seq<char>> {
    match o {
        Some(s) => Some(s@),
        None => None,
    }
}

/// The service record a log line updates.
#[derive(Debug)]
pub struct LogService {
    pub name: String,
    pub environment: String,
    pub release: Option<String>,
    pub sdk_name: Option<String>,
    pub sdk_version: Option<String>,
}

/// The service of a log record: `service.name`, else `service`, else
/// `unknown-service`; the environment `sentry.environment`, else `default`;
/// release and SDK from their `sentry.` attributes.
pub fn log_service(attributes: &JsonValue) -> (s: LogService)
    ensures
        s.name@ == match attribute_text(attributes@, "service.name"@) {
            Some(t) => t,
            None => match attribute_text(attributes@, "service"@) {
                Some(t) => t,
                None => "unknown-service"@,
            },
        },
        s.environment@ == match attribute_text(attributes@, "sentry.environment"@) {
            Some(t) => t,
            None => "default"@,
        },
        text_opt(s.release) == attribute_text(attributes@, "sentry.release"@),
        text_opt(s.sdk_name) == attribute_text(attributes@, "sentry.sdk.name"@),
        text_opt(s.sdk_version) == attribute_text(attributes@, "sentry.sdk.version"@),
{
    let name = match attribute_str(attributes, "service.name") {
        Some(t) => t,
        None => match attribute_str(attributes, "service") {
            Some(t) => t,
            None => "unknown-service".to_owned(),
        },
    };
    let environment = match attribute_str(attributes, "sentry.environment") {
        Some(t) => t,
        None => "default".to_owned(),
    };
    LogService {
        name,
        environment,
        release: attribute_str(attributes, "sentry.release"),
        sdk_name: attribute_str(attributes, "sentry.sdk.name"),
        sdk_version: attribute_str(attributes, "sentry.sdk.version"),
    }
}

/// The service record an event updates, and its trace id.
#[derive(Debug)]
pub struct EventServiceFields {
    pub name: String,
    pub environment: String,
    pub sdk_name: Option<String>,
    pub sdk_version: Option<String>,
    pub runtime: JsonValue,
    pub trace_id: Option<String>,
}

/// The text at `outer.inner` of a document.
pub open spec fn nested_text(d: JsonData, outer: Seq<char>, inner: Seq<char>) -> Option<Seq<char>> {
    match member(d, outer) {
        Some(o) => member_text(o, inner),
        None => None,
    }
}

fn nested_str(d: &JsonValue, outer: &str, inner: &str) -> (r: Option<String>)
    ensures
        r is Some <==> nested_text(d@, outer@, inner@) is Some,
        r matches Some(v) ==> v@ == nested_text(d@, outer@, inner@)->0,
{
    match d.get(outer) {
        Some(o) => match o.member_str(inner) {
            Some(t) => Some(t.to_owned()),
            None => None,
        },
        None => None,
    }
}

/// The runtime context recorded for a service: the event's `runtime`
/// context (an empty object when absent) with the event's server name and
/// platform added when the context is an object.
pub open spec fn runtime_context(e: IngestEvent) -> JsonData {
    let base = match member(e.contexts@, "runtime"@) {
        Some(r) => r,
        None => JsonData::Object(Seq::empty()),
    };
    let with_server = match e.server_name {
        Some(s) => inserted(base, "server_name"@, JsonData::Str(s@)),
        None => base,
    };
    match e.platform {
        Some(p) => inserted(with_server, "platform"@, JsonData::Str(p@)),
        None => with_server,
    }
}

/// The service of an event: the `service` tag, else the `service.name`
/// context, else `unknown-service`; the environment, else `default`; the SDK
/// name and version; the runtime context; and the trace id of the `trace`
/// context.
pub fn event_service(event: &IngestEvent) -> (s: EventServiceFields)
    ensures
        s.name@ == match member_text(event.tags@, "service"@) {
            Some(t) => t,
            None => match nested_text(event.contexts@, "service"@, "name"@) {
                Some(t) => t,
                None => "unknown-service"@,
            },
        },
        s.environment@ == match event.environment {
            Some(e) => e@,
            None => "default"@,
        },
        text_opt(s.sdk_name) == member_text(event.sdk@, "name"@),
        text_opt(s.sdk_version) == member_text(event.sdk@, "version"@),
        s.runtime@ == runtime_context(*event),
        text_opt(s.trace_id) == nested_text(event.contexts@, "trace"@, "trace_id"@),
{
    let name = match event.tags.member_str("service") {
        Some(t) => t.to_owned(),
        None => match nested_str(&event.contexts, "service", "name") {
            Some(t) => t,
            None => "unknown-service".to_owned(),
        },
    };
    let environment = match &event.environment {
        Some(e) => e.clone(),
        None => "default".to_owned(),
    };
    let sdk_name = match event.sdk.member_str("name") {
        Some(t) => Some(t.to_owned()),
        None => None,
    };
    let sdk_version = match event.sdk.member_str("version") {
        Some(t) => Some(t.to_owned()),
        None => None,
    };
    let base = match event.contexts.get("runtime") {
        Some(r) => r.copy(),
        None => {
            let empty: Vec<(String, JsonValue)> = Vec::new();
            let v = JsonValue::Object(empty);
            proof {
                v.lemma_object_view();
                assert(v@->Object_0 =~= Seq::<(Seq<char>, JsonData)>::empty());
            }
            v
        },
    };
    let with_server = match &event.server_name {
        Some(s) => base.insert_member("server_name", JsonValue::String(s.clone())),
        None => base,
    };
    let runtime = match &event.platform {
        Some(p) => with_server.insert_member("platform", JsonValue::String(p.clone())),
        None => with_server,
    };
    EventServiceFields {
        name,
        environment,
        sdk_name,
        sdk_version,
        runtime,
        trace_id: nested_str(&event.contexts, "trace", "trace_id"),
    }
}

} // verus!
