use open_sentry::alert::{alert_delivery, alert_payload, test_payload};
use open_sentry::error::AppError;
use open_sentry::ingest::{
    event_from_payload, existing_event_outcome, require_message, scrub_event, scrub_field_list,
};
use open_sentry::json::{JsonNumber, JsonValue};
use open_sentry::model::{default_level, IngestEvent};
use open_sentry::scrub::{scrub_sensitive, scrub_sensitive_with};
use open_sentry::telemetry::{attribute, event_service, log_service};

fn s(text: &str) -> JsonValue {
    JsonValue::String(text.to_string())
}

fn obj(entries: Vec<(&str, JsonValue)>) -> JsonValue {
    JsonValue::Object(entries.into_iter().map(|(k, v)| (k.to_string(), v)).collect())
}

fn event(message: &str) -> IngestEvent {
    IngestEvent {
        event_id: Some(7),
        level: default_level(),
        message: message.into(),
        fingerprint: JsonValue::Null,
        timestamp: Some(1_700_000_000_000_000),
        environment: None,
        release: None,
        sdk: obj(vec![]),
        server_name: None,
        platform: None,
        tags: obj(vec![]),
        contexts: obj(vec![]),
        exception: obj(vec![]),
    }
}

fn path<'a>(v: &'a JsonValue, keys: &[&str]) -> Option<&'a JsonValue> {
    let mut cur = v;
    for k in keys {
        cur = cur.get(k)?;
    }
    Some(cur)
}

#[test]
fn recursively_scrubs_sensitive_fields() {
    let mut value = obj(vec![
        ("request", obj(vec![("headers", obj(vec![("authorization", s("Bearer x"))]))])),
        ("token", s("x")),
    ]);
    scrub_sensitive(&mut value);
    assert_eq!(value.get("token").and_then(JsonValue::as_str), Some("[Filtered]"));
    assert_eq!(
        path(&value, &["request", "headers", "authorization"]).and_then(JsonValue::as_str),
        Some("[Filtered]")
    );
}

#[test]
fn scrubbing_matches_names_case_insensitively_inside_arrays_and_is_idempotent() {
    let mut value = obj(vec![
        ("list", JsonValue::Array(vec![obj(vec![("Password", s("p")), ("user", s("u"))])])),
        ("Secret", obj(vec![("nested", s("n"))])),
    ]);
    scrub_sensitive(&mut value);
    let item = &value.get("list").and_then(JsonValue::as_array).unwrap()[0];
    assert_eq!(item.get("Password").and_then(JsonValue::as_str), Some("[Filtered]"));
    assert_eq!(item.get("user").and_then(JsonValue::as_str), Some("u"));
    assert_eq!(value.get("Secret").and_then(JsonValue::as_str), Some("[Filtered]"));
    let before = format!("{:?}", value);
    scrub_sensitive(&mut value);
    assert_eq!(format!("{:?}", value), before);
}

#[test]
fn project_scrub_fields_replace_the_defaults() {
    let fields = scrub_field_list(&JsonValue::Array(vec![
        s("Card_Number"),
        JsonValue::Number(JsonNumber::PosInt(3)),
        s("ssn"),
    ]));
    assert_eq!(fields, vec!["card_number".to_string(), "ssn".to_string()]);
    assert!(scrub_field_list(&s("card_number")).is_empty());
    let mut value = obj(vec![("card_number", s("4111")), ("token", s("t"))]);
    scrub_sensitive_with(&mut value, &fields);
    assert_eq!(value.get("card_number").and_then(JsonValue::as_str), Some("[Filtered]"));
    assert_eq!(value.get("token").and_then(JsonValue::as_str), Some("t"));
}

#[test]
fn scrub_event_touches_tags_contexts_and_exception_only() {
    let mut e = event("password=1");
    e.tags = obj(vec![("password", s("p"))]);
    e.contexts = obj(vec![("app", obj(vec![("token", s("t"))]))]);
    e.exception = obj(vec![("secret", s("s"))]);
    scrub_event(&mut e, &["password".to_string(), "token".to_string(), "secret".to_string()]);
    assert_eq!(e.tags.get("password").and_then(JsonValue::as_str), Some("[Filtered]"));
    assert_eq!(path(&e.contexts, &["app", "token"]).and_then(JsonValue::as_str), Some("[Filtered]"));
    assert_eq!(e.exception.get("secret").and_then(JsonValue::as_str), Some("[Filtered]"));
    assert_eq!(e.message, "password=1");
}

#[test]
fn event_payload_gets_a_message() {
    let kept = event_from_payload(obj(vec![("message", s("boom"))])).unwrap();
    assert_eq!(kept.get("message").and_then(JsonValue::as_str), Some("boom"));
    let formatted = event_from_payload(obj(vec![(
        "message",
        obj(vec![("formatted", s("fmt"))]),
    )]))
    .unwrap();
    assert_eq!(formatted.get("message").and_then(JsonValue::as_str), Some("fmt"));
    let transaction = event_from_payload(obj(vec![("transaction", s("GET /"))])).unwrap();
    assert_eq!(transaction.get("message").and_then(JsonValue::as_str), Some("GET /"));
    let bare = event_from_payload(obj(vec![])).unwrap();
    assert_eq!(bare.get("message").and_then(JsonValue::as_str), Some("event"));
    assert!(matches!(
        event_from_payload(s("x")),
        Err(AppError::BadRequest(m)) if m == "event payload must be an object"
    ));
}

#[test]
fn events_need_a_message_and_their_own_project() {
    assert!(require_message(&event("boom")).is_ok());
    assert!(matches!(require_message(&event(" \n ")), Err(AppError::BadRequest(m)) if m == "message is required"));
    assert!(existing_event_outcome(1, 1).is_ok());
    assert!(matches!(
        existing_event_outcome(1, 2),
        Err(AppError::Conflict(m)) if m == "event id is already used by another project"
    ));
    assert_eq!(default_level(), "error");
}

#[test]
fn reads_typed_log_attribute_value() {
    let attributes = obj(vec![(
        "service.name",
        obj(vec![("value", s("checkout")), ("type", s("string"))]),
    )]);
    assert_eq!(
        attribute(&attributes, "service.name").and_then(JsonValue::as_str),
        Some("checkout")
    );
    assert!(attribute(&attributes, "service").is_none());
}

#[test]
fn log_service_falls_back() {
    let typed = |v: &str| obj(vec![("value", s(v)), ("type", s("string"))]);
    let attributes = obj(vec![
        ("service", typed("api")),
        ("sentry.release", typed("1.0")),
        ("sentry.sdk.name", typed("sentry.rust")),
    ]);
    let svc = log_service(&attributes);
    assert_eq!(svc.name, "api");
    assert_eq!(svc.environment, "default");
    assert_eq!(svc.release.as_deref(), Some("1.0"));
    assert_eq!(svc.sdk_name.as_deref(), Some("sentry.rust"));
    assert_eq!(svc.sdk_version, None);
    assert_eq!(log_service(&obj(vec![])).name, "unknown-service");
}

#[test]
fn event_service_fields() {
    let mut e = event("x");
    e.tags = obj(vec![("service", s("billing"))]);
    e.environment = Some("prod".into());
    e.sdk = obj(vec![("name", s("sentry.python")), ("version", s("2.0"))]);
    e.contexts = obj(vec![
        ("runtime", obj(vec![("name", s("CPython"))])),
        ("trace", obj(vec![("trace_id", s("abc"))])),
    ]);
    e.server_name = Some("web-1".into());
    e.platform = Some("python".into());
    let f = event_service(&e);
    assert_eq!(f.name, "billing");
    assert_eq!(f.environment, "prod");
    assert_eq!(f.sdk_name.as_deref(), Some("sentry.python"));
    assert_eq!(f.sdk_version.as_deref(), Some("2.0"));
    assert_eq!(f.trace_id.as_deref(), Some("abc"));
    assert_eq!(f.runtime.get("name").and_then(JsonValue::as_str), Some("CPython"));
    assert_eq!(f.runtime.get("server_name").and_then(JsonValue::as_str), Some("web-1"));
    assert_eq!(f.runtime.get("platform").and_then(JsonValue::as_str), Some("python"));
    let bare = event_service(&event("x"));
    assert_eq!(bare.name, "unknown-service");
    assert_eq!(bare.environment, "default");
    assert!(bare.runtime.get("platform").is_none());
}

#[test]
fn alert_delivery_follows_the_escalation_policy() {
    let d = alert_delivery("email".into(), "ops@example.com".into(), false, None).unwrap();
    assert_eq!((d.channel.as_str(), d.target.as_str(), d.delay_seconds), ("email", "ops@example.com", 0));
    let d = alert_delivery(
        "email".into(),
        "ops@example.com".into(),
        true,
        Some(("telegram".into(), "123".into(), 300)),
    )
    .unwrap();
    assert_eq!((d.channel.as_str(), d.target.as_str(), d.delay_seconds), ("telegram", "123", 300));
    assert!(matches!(
        alert_delivery("email".into(), "x".into(), true, None),
        Err(AppError::BadRequest(m)) if m == "escalation policy has no resolvable first step"
    ));
}

#[test]
fn alert_payloads() {
    let p = alert_payload("rule", "proj", "issue", "evt", "fatal", "boom");
    for (k, v) in [
        ("rule_name", "rule"),
        ("project_id", "proj"),
        ("issue_id", "issue"),
        ("event_id", "evt"),
        ("level", "fatal"),
        ("message", "boom"),
    ] {
        assert_eq!(p.get(k).and_then(JsonValue::as_str), Some(v));
    }
    let t = test_payload("rule", "proj");
    assert!(matches!(t.get("issue_id"), Some(JsonValue::Null)));
    assert_eq!(t.get("test").and_then(JsonValue::as_bool), Some(true));
    assert_eq!(t.get("rule_name").and_then(JsonValue::as_str), Some("rule"));
}

#[test]
fn scrubbing_leaves_clean_documents_alone() {
    let make = || {
        obj(vec![
            ("user", obj(vec![("id", JsonValue::Number(JsonNumber::PosInt(3)))])),
            ("list", JsonValue::Array(vec![s("a"), JsonValue::Null, JsonValue::Bool(false)])),
            ("ratio", JsonValue::Number(JsonNumber::Float("0.5".into()))),
        ])
    };
    let mut value = make();
    scrub_sensitive(&mut value);
    assert_eq!(format!("{:?}", value), format!("{:?}", make()));
}
