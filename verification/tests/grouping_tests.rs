use open_sentry::grouping::{fingerprint, normalize_message};
use open_sentry::json::{JsonNumber, JsonValue};
use open_sentry::model::IngestEvent;

fn s(text: &str) -> JsonValue {
    JsonValue::String(text.to_string())
}

fn obj(entries: Vec<(&str, JsonValue)>) -> JsonValue {
    JsonValue::Object(entries.into_iter().map(|(k, v)| (k.to_string(), v)).collect())
}

fn event(message: &str, fingerprint: JsonValue, exception: JsonValue) -> IngestEvent {
    IngestEvent {
        event_id: None,
        level: "error".into(),
        message: message.into(),
        fingerprint,
        timestamp: None,
        environment: None,
        release: None,
        sdk: obj(vec![]),
        server_name: None,
        platform: None,
        tags: obj(vec![]),
        contexts: obj(vec![]),
        exception,
    }
}

fn timeout() -> JsonValue {
    obj(vec![("type", s("Timeout"))])
}

fn frames_exception() -> JsonValue {
    let frame = obj(vec![
        ("module", s("checkout")),
        ("function", s("charge")),
        ("filename", s("src/payment.rs")),
        ("lineno", JsonValue::Number(JsonNumber::PosInt(42))),
        ("in_app", JsonValue::Bool(true)),
    ]);
    let value = obj(vec![
        ("type", s("Timeout")),
        ("stacktrace", obj(vec![("frames", JsonValue::Array(vec![frame]))])),
    ]);
    obj(vec![("values", JsonValue::Array(vec![value]))])
}

#[test]
fn fingerprint_normalizes_case_and_whitespace() {
    assert_eq!(
        fingerprint(&event("Payment  TIMEOUT", JsonValue::Null, timeout())),
        fingerprint(&event("payment timeout", JsonValue::Null, timeout()))
    );
}

#[test]
fn sdk_fingerprint_overrides_dynamic_message() {
    let fp = || JsonValue::Array(vec![s("payment-timeout")]);
    assert_eq!(
        fingerprint(&event("order 1", fp(), timeout())),
        fingerprint(&event("order 2", fp(), timeout()))
    );
}

#[test]
fn stable_stack_frames_prevent_dynamic_message_fragmentation() {
    assert_eq!(
        fingerprint(&event("order 1", JsonValue::Null, frames_exception())),
        fingerprint(&event("order 2", JsonValue::Null, frames_exception()))
    );
}

#[test]
fn fingerprint_is_a_sha256_hex_digest() {
    let fp = fingerprint(&event("boom", JsonValue::Null, timeout()));
    assert_eq!(fp.len(), 64);
    assert!(fp.chars().all(|c| c.is_ascii_hexdigit() && !c.is_ascii_uppercase()));
}

#[test]
fn different_messages_without_frames_group_apart() {
    assert_ne!(
        fingerprint(&event("order 1", JsonValue::Null, timeout())),
        fingerprint(&event("order 2", JsonValue::Null, timeout()))
    );
}

#[test]
fn different_sdk_fingerprints_group_apart() {
    assert_ne!(
        fingerprint(&event("x", JsonValue::Array(vec![s("a")]), timeout())),
        fingerprint(&event("x", JsonValue::Array(vec![s("b")]), timeout()))
    );
}

#[test]
fn message_normalization_lowercases_and_collapses_spaces() {
    assert_eq!(normalize_message("  Payment \t TIMEOUT\n now "), "payment timeout now");
    assert_eq!(normalize_message(""), "");
}

#[test]
fn extra_whitespace_keeps_the_fingerprint() {
    let base = fingerprint(&event("order 1", JsonValue::Null, timeout()));
    for spaced in ["order  1", " order 1", "order 1\t", "order \n 1"] {
        assert_eq!(fingerprint(&event(spaced, JsonValue::Null, timeout())), base);
    }
}

fn frames(functions: &[&str]) -> JsonValue {
    let frames = functions
        .iter()
        .map(|f| obj(vec![("module", s("m")), ("function", s(f)), ("filename", s("f.rs"))]))
        .collect();
    obj(vec![("stacktrace", obj(vec![("frames", JsonValue::Array(frames))]))])
}

#[test]
fn only_the_five_innermost_in_app_frames_count() {
    let fp = |fs: &[&str]| fingerprint(&event("x", JsonValue::Null, frames(fs)));
    let base = fp(&["a", "b", "c", "d", "e", "f", "g"]);
    assert_eq!(fp(&["z", "b", "c", "d", "e", "f", "g"]), base);
    assert_eq!(fp(&["a", "z", "c", "d", "e", "f", "g"]), base);
    assert_ne!(fp(&["a", "b", "z", "d", "e", "f", "g"]), base);
    assert_ne!(fp(&["a", "b", "c", "d", "e", "f", "z"]), base);
}

#[test]
fn frames_marked_not_in_app_are_skipped() {
    let with_vendor = obj(vec![(
        "stacktrace",
        obj(vec![(
            "frames",
            JsonValue::Array(vec![
                obj(vec![("function", s("main"))]),
                obj(vec![("function", s("vendor")), ("in_app", JsonValue::Bool(false))]),
            ]),
        )]),
    )]);
    let without_vendor = obj(vec![(
        "stacktrace",
        obj(vec![("frames", JsonValue::Array(vec![obj(vec![("function", s("main"))])]))]),
    )]);
    assert_eq!(
        fingerprint(&event("a", JsonValue::Null, with_vendor)),
        fingerprint(&event("b", JsonValue::Null, without_vendor))
    );
}

#[test]
fn default_placeholder_mixes_sdk_and_default_grouping() {
    let fp = JsonValue::Array(vec![s("{{ default }}"), s("tenant-1")]);
    let a = fingerprint(&event("order 1", fp, timeout()));
    let fp2 = JsonValue::Array(vec![s("{{ default }}"), s("tenant-1")]);
    let b = fingerprint(&event("order 2", fp2, timeout()));
    assert_ne!(a, b);
    let plain = fingerprint(&event("order 1", JsonValue::Null, timeout()));
    assert_ne!(a, plain);
}

#[test]
fn frame_lines_and_columns_do_not_matter() {
    let frame = |line: u64| {
        obj(vec![
            ("module", s("m")),
            ("function", s("f")),
            ("filename", s("f.rs")),
            ("lineno", JsonValue::Number(JsonNumber::PosInt(line))),
            ("colno", JsonValue::Number(JsonNumber::PosInt(line * 2))),
        ])
    };
    let exc = |line: u64| obj(vec![("stacktrace", obj(vec![("frames", JsonValue::Array(vec![frame(line)]))]))]);
    assert_eq!(
        fingerprint(&event("one", JsonValue::Null, exc(10))),
        fingerprint(&event("two", JsonValue::Null, exc(99)))
    );
}

#[test]
fn messages_positions_and_library_frames_together_do_not_matter() {
    let app = |function: &str, line: u64| {
        obj(vec![
            ("module", s("shop")),
            ("function", s(function)),
            ("filename", s("shop.rs")),
            ("lineno", JsonValue::Number(JsonNumber::PosInt(line))),
            ("colno", JsonValue::Number(JsonNumber::PosInt(line + 3))),
        ])
    };
    let vendor = |function: &str| {
        obj(vec![("function", s(function)), ("in_app", JsonValue::Bool(false))])
    };
    let exc = |frames: Vec<JsonValue>| {
        let value = obj(vec![
            ("type", s("PaymentError")),
            ("stacktrace", obj(vec![("frames", JsonValue::Array(frames))])),
        ]);
        obj(vec![("values", JsonValue::Array(vec![value]))])
    };
    let a = exc(vec![app("main", 1), vendor("tokio"), app("pay", 10)]);
    let b = exc(vec![vendor("hyper"), app("main", 7), app("pay", 55), vendor("serde")]);
    assert_eq!(
        fingerprint(&event("order 17 failed", JsonValue::Null, a)),
        fingerprint(&event("order 9000 failed", JsonValue::Null, b))
    );
    let c = exc(vec![app("main", 1), app("refund", 10)]);
    let d = exc(vec![app("main", 1), app("pay", 10)]);
    assert_ne!(
        fingerprint(&event("x", JsonValue::Null, c)),
        fingerprint(&event("x", JsonValue::Null, d))
    );
}
