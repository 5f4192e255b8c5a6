use std::io::Write;

use flate2::write::{GzEncoder, ZlibEncoder};
use flate2::Compression;
use open_sentry::envelope::{
    decode, item_header_from, parse, MAX_DECOMPRESSED_BYTES, MAX_EVENT_BYTES, MAX_ITEMS,
};
use open_sentry::json::{JsonNumber, JsonValue};
use open_sentry::json_text::json_value;
use open_sentry::error::AppError;

fn gzip(bytes: &[u8]) -> Vec<u8> {
    let mut e = GzEncoder::new(Vec::new(), Compression::default());
    e.write_all(bytes).unwrap();
    e.finish().unwrap()
}

fn zlib(bytes: &[u8]) -> Vec<u8> {
    let mut e = ZlibEncoder::new(Vec::new(), Compression::default());
    e.write_all(bytes).unwrap();
    e.finish().unwrap()
}

#[test]
fn parses_length_delimited_item() {
    let input = br#"{"event_id":"abc"}
{"type":"event","length":7}
{"x":1}
"#;
    let items = parse(input).unwrap();
    assert_eq!(items.len(), 1);
    assert_eq!(items[0].payload, br#"{"x":1}"#);
}

#[test]
fn rejects_too_many_items() {
    let mut input = b"{}\n".to_vec();
    for _ in 0..=MAX_ITEMS {
        input.extend_from_slice(b"{\"type\":\"attachment\",\"length\":0}\n\n");
    }
    assert!(matches!(parse(&input), Err(AppError::PayloadTooLarge(_))));
}

#[test]
fn accepts_exactly_the_item_limit() {
    let mut input = b"{}\n".to_vec();
    for _ in 0..MAX_ITEMS {
        input.extend_from_slice(b"{\"type\":\"attachment\",\"length\":0}\n\n");
    }
    assert_eq!(parse(&input).unwrap().len(), MAX_ITEMS);
}

#[test]
fn items_without_length_take_the_next_line_and_last_line_may_lack_newline() {
    let input = b"{}\n{\"type\":\"event\"}\n{\"a\":1}\n\n\n{\"type\":\"session\"}\n{\"s\":2}";
    let items = parse(input).unwrap();
    assert_eq!(items.len(), 2);
    assert_eq!(items[0].item_type, "event");
    assert_eq!(items[0].payload, b"{\"a\":1}");
    assert_eq!(items[1].item_type, "session");
    assert_eq!(items[1].payload, b"{\"s\":2}");
}

#[test]
fn length_delimited_payload_may_hold_newlines() {
    let input = b"{}\n{\"type\":\"attachment\",\"length\":5}\na\nb\nc\n";
    let items = parse(input).unwrap();
    assert_eq!(items.len(), 1);
    assert_eq!(items[0].payload, b"a\nb\nc");
}

#[test]
fn header_only_envelope_has_no_items() {
    assert_eq!(parse(b"{}").unwrap().len(), 0);
    assert_eq!(parse(b"{}\n").unwrap().len(), 0);
}

#[test]
fn envelope_errors() {
    assert!(matches!(parse(b"not json\n"), Err(AppError::BadRequest(m)) if m.starts_with("invalid envelope header: ")));
    assert!(matches!(parse(b"{}\n{\"length\":1}\nx\n"), Err(AppError::BadRequest(m)) if m.starts_with("invalid item header: ")));
    assert!(matches!(parse(b"{}\n{\"type\":\"event\",\"length\":10}\nabc"), Err(AppError::BadRequest(m)) if m == "truncated envelope item"));
    let mut big = b"{}\n{\"type\":\"event\"}\n".to_vec();
    big.extend(std::iter::repeat(b'a').take(MAX_EVENT_BYTES + 1));
    assert!(matches!(parse(&big), Err(AppError::PayloadTooLarge(m)) if m == "event item exceeds 1 MiB"));
    let mut attachment = b"{}\n{\"type\":\"attachment\"}\n".to_vec();
    attachment.extend(std::iter::repeat(b'a').take(MAX_EVENT_BYTES + 1));
    assert_eq!(parse(&attachment).unwrap()[0].payload.len(), MAX_EVENT_BYTES + 1);
}

#[test]
fn decodes_identity_gzip_and_deflate() {
    let body = b"{\"message\":\"hello\"}";
    assert_eq!(decode(None, body).unwrap(), body);
    assert_eq!(decode(Some("identity"), body).unwrap(), body);
    assert_eq!(decode(Some("gzip"), &gzip(body)).unwrap(), body);
    assert_eq!(decode(Some("deflate"), &zlib(body)).unwrap(), body);
    assert_eq!(decode(Some("zlib"), &zlib(body)).unwrap(), body);
}

#[test]
fn decode_errors() {
    assert!(matches!(decode(Some("br"), b"x"), Err(AppError::BadRequest(m)) if m == "unsupported content encoding: br"));
    assert!(matches!(decode(Some("gzip"), b"not gzip"), Err(AppError::BadRequest(m)) if m.starts_with("invalid compressed payload: ")));
    let too_big = vec![0u8; MAX_DECOMPRESSED_BYTES + 1];
    assert!(matches!(decode(Some("gzip"), &gzip(&too_big)), Err(AppError::PayloadTooLarge(m)) if m == "decompressed payload exceeds 20 MiB"));
    assert!(matches!(decode(None, &too_big), Err(AppError::PayloadTooLarge(_))));
    let at_limit = vec![0u8; MAX_DECOMPRESSED_BYTES];
    assert_eq!(decode(Some("gzip"), &gzip(&at_limit)).unwrap().len(), MAX_DECOMPRESSED_BYTES);
}

#[test]
fn framed_items_read_back_in_order() {
    let items: Vec<(&str, &[u8])> = vec![
        ("event", b"{\"message\":\"a\"}"),
        ("attachment", b"line one\nline two\n"),
        ("log", b""),
        ("transaction", b"{}"),
    ];
    let mut input = b"{\"event_id\":\"x\"}\n".to_vec();
    for (t, p) in &items {
        input.extend_from_slice(format!("{{\"type\":\"{}\",\"length\":{}}}\n", t, p.len()).as_bytes());
        input.extend_from_slice(p);
        input.push(b'\n');
    }
    let parsed = parse(&input).unwrap();
    assert_eq!(parsed.len(), items.len());
    for (item, (t, p)) in parsed.iter().zip(items.iter()) {
        assert_eq!(item.item_type, *t);
        assert_eq!(item.payload, *p);
    }
}

fn object(entries: Vec<(&str, JsonValue)>) -> JsonValue {
    JsonValue::Object(entries.into_iter().map(|(k, v)| (k.to_string(), v)).collect())
}

#[test]
fn item_header_fields() {
    let header = object(vec![
        ("type", JsonValue::String("event".to_string())),
        ("length", JsonValue::Number(JsonNumber::PosInt(12))),
        ("content_type", JsonValue::String("application/json".to_string())),
    ]);
    assert_eq!(item_header_from(&header).unwrap(), ("event".to_string(), Some(12)));
    let no_length = object(vec![("type", JsonValue::String("log".to_string()))]);
    assert_eq!(item_header_from(&no_length).unwrap(), ("log".to_string(), None));
    let null_length = object(vec![
        ("type", JsonValue::String("log".to_string())),
        ("length", JsonValue::Null),
    ]);
    assert_eq!(item_header_from(&null_length).unwrap(), ("log".to_string(), None));
    let pair = JsonValue::Array(vec![
        JsonValue::String("event".to_string()),
        JsonValue::Number(JsonNumber::PosInt(3)),
    ]);
    assert_eq!(item_header_from(&pair).unwrap(), ("event".to_string(), Some(3)));
}

#[test]
fn item_header_errors() {
    let missing = object(vec![("length", JsonValue::Number(JsonNumber::PosInt(1)))]);
    assert_eq!(item_header_from(&missing).unwrap_err(), "missing field `type`");
    let number_type = object(vec![("type", JsonValue::Number(JsonNumber::PosInt(1)))]);
    assert_eq!(
        item_header_from(&number_type).unwrap_err(),
        "invalid type for `type`, expected a string"
    );
    let negative = object(vec![
        ("type", JsonValue::String("event".to_string())),
        ("length", JsonValue::Number(JsonNumber::NegInt(-1))),
    ]);
    assert_eq!(
        item_header_from(&negative).unwrap_err(),
        "invalid type for `length`, expected an unsigned integer"
    );
    let text_length = object(vec![
        ("type", JsonValue::String("event".to_string())),
        ("length", JsonValue::String("3".to_string())),
    ]);
    assert!(item_header_from(&text_length).is_err());
    let short = JsonValue::Array(vec![JsonValue::String("event".to_string())]);
    assert_eq!(
        item_header_from(&short).unwrap_err(),
        "invalid length, expected an item header of 2 elements"
    );
    assert_eq!(
        item_header_from(&JsonValue::Bool(true)).unwrap_err(),
        "invalid type, expected an item header"
    );
}

#[test]
fn json_text_reads_into_documents() {
    let v = json_value(b"{\"a\":[1,-2,2.5,null,true],\"b\":{\"c\":\"d\"}}").unwrap();
    let a = v.get("a").unwrap();
    match a {
        JsonValue::Array(xs) => {
            assert_eq!(xs.len(), 5);
            assert!(matches!(xs[0], JsonValue::Number(JsonNumber::PosInt(1))));
            assert!(matches!(xs[1], JsonValue::Number(JsonNumber::NegInt(-2))));
            assert!(matches!(&xs[2], JsonValue::Number(JsonNumber::Float(t)) if t == "2.5"));
            assert!(matches!(xs[3], JsonValue::Null));
            assert!(matches!(xs[4], JsonValue::Bool(true)));
        }
        _ => panic!("expected an array"),
    }
    let c = v.get("b").unwrap().get("c").unwrap();
    assert!(matches!(c, JsonValue::String(s) if s == "d"));
    assert!(json_value(b"{\"a\":").is_err());
    assert!(json_value(b"").is_err());
}

#[test]
fn array_item_headers_parse() {
    let parsed = parse(b"{}\n[\"event\",2]\nab\n").unwrap();
    assert_eq!(parsed.len(), 1);
    assert_eq!(parsed[0].item_type, "event");
    assert_eq!(parsed[0].payload, b"ab");
}
