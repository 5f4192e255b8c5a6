use open_sentry::json::{JsonNumber, JsonValue};
use open_sentry::symbols::{event_release, symbolicate_exception, validate_debug_file, DebugFile};

const MAP: &str = r#"{"version":3,"sources":["src/checkout.ts"],"names":["charge"],"mappings":"AAAAA"}"#;

fn s(text: &str) -> JsonValue {
    JsonValue::String(text.to_string())
}

fn obj(entries: Vec<(&str, JsonValue)>) -> JsonValue {
    JsonValue::Object(entries.into_iter().map(|(k, v)| (k.to_string(), v)).collect())
}

fn exception(frames: Vec<JsonValue>) -> JsonValue {
    obj(vec![(
        "values",
        JsonValue::Array(vec![obj(vec![
            ("type", s("TypeError")),
            ("stacktrace", obj(vec![("frames", JsonValue::Array(frames))])),
        ])]),
    )])
}

fn frames_of(e: &JsonValue) -> &Vec<JsonValue> {
    e.get("values")
        .and_then(JsonValue::as_array)
        .map(|v| &v[0])
        .and_then(|v| v.get("stacktrace"))
        .and_then(|v| v.get("frames"))
        .and_then(JsonValue::as_array)
        .unwrap()
}

fn map_file(name: &str, payload: &str) -> DebugFile {
    DebugFile { name: name.into(), payload: payload.as_bytes().to_vec() }
}

#[test]
fn validates_source_map_and_rejects_random_native_file() {
    assert!(validate_debug_file(
        "source_map",
        br#"{"version":3,"sources":["src.ts"],"names":[],"mappings":"AAAA"}"#
    )
    .is_ok());
    assert!(validate_debug_file("native_symbol", b"random").is_err());
}

#[test]
fn debug_file_kinds() {
    assert!(validate_debug_file("native_symbol", b"\x7fELF\x02\x01").is_ok());
    assert!(validate_debug_file("native_symbol", &[0xfe, 0xed, 0xfa, 0xce]).is_ok());
    assert!(validate_debug_file("native_symbol", b"Microsoft C/C++ MSF 7.00").is_ok());
    assert_eq!(
        validate_debug_file("native_symbol", b"\x7fEL"),
        Err("unrecognized ELF, Mach-O, or PDB symbol file".to_string())
    );
    assert_eq!(
        validate_debug_file("proguard", b""),
        Err("kind must be source_map or native_symbol".to_string())
    );
    assert!(validate_debug_file("source_map", b"not a map").is_err());
}

#[test]
fn events_without_release_are_not_symbolicated() {
    assert_eq!(event_release(Some("1.0".into())), Ok("1.0".to_string()));
    assert_eq!(event_release(None), Err("event has no release".to_string()));
}

#[test]
fn source_map_rewrites_matching_frames() {
    let frame = obj(vec![
        ("filename", s("https://cdn.example.com/app.js")),
        ("function", s("a")),
        ("lineno", JsonValue::Number(JsonNumber::PosInt(1))),
        ("colno", JsonValue::Number(JsonNumber::PosInt(1))),
    ]);
    let other = obj(vec![("filename", s("vendor.js"))]);
    let out = symbolicate_exception(
        exception(vec![frame, other]),
        &vec![map_file("app.js.map", MAP)],
        &vec![],
    )
    .unwrap();
    let frames = frames_of(&out);
    assert_eq!(frames.len(), 2);
    assert_eq!(frames[0].get("filename").and_then(JsonValue::as_str), Some("src/checkout.ts"));
    assert_eq!(frames[0].get("function").and_then(JsonValue::as_str), Some("charge"));
    assert_eq!(frames[0].get("lineno").and_then(JsonValue::as_u64), Some(1));
    assert_eq!(frames[0].get("colno").and_then(JsonValue::as_u64), Some(1));
    assert_eq!(frames[1].get("filename").and_then(JsonValue::as_str), Some("vendor.js"));
    assert_eq!(
        out.get("values")
            .and_then(JsonValue::as_array)
            .and_then(|v| v[0].get("type"))
            .and_then(JsonValue::as_str),
        Some("TypeError")
    );
}

#[test]
fn symbolication_failures() {
    let frame = || obj(vec![("filename", s("app.js"))]);
    assert_eq!(
        symbolicate_exception(exception(vec![frame()]), &vec![], &vec![]).unwrap_err(),
        "no debug file matches event release"
    );
    let maps = vec![map_file("app.js.map", MAP)];
    assert_eq!(
        symbolicate_exception(obj(vec![]), &maps, &vec![]).unwrap_err(),
        "event has no stack frames"
    );
    assert_eq!(
        symbolicate_exception(exception(vec![obj(vec![("filename", s("other.js"))])]), &maps, &vec![])
            .unwrap_err(),
        "no stack frame matched uploaded source maps"
    );
    assert!(symbolicate_exception(
        exception(vec![frame()]),
        &vec![map_file("app.js.map", "not a map")],
        &vec![]
    )
    .is_err());
}

#[test]
fn unparsable_native_files_are_skipped() {
    let frame = obj(vec![("instruction_addr", s("0x1000"))]);
    let natives = vec![DebugFile { name: "lib.so".into(), payload: b"random".to_vec() }];
    assert_eq!(
        symbolicate_exception(exception(vec![frame]), &vec![], &natives).unwrap_err(),
        "no stack frame matched uploaded source maps"
    );
}

fn put16(v: &mut Vec<u8>, x: u16) {
    v.extend_from_slice(&x.to_le_bytes());
}
fn put32(v: &mut Vec<u8>, x: u32) {
    v.extend_from_slice(&x.to_le_bytes());
}
fn put64(v: &mut Vec<u8>, x: u64) {
    v.extend_from_slice(&x.to_le_bytes());
}

fn section(v: &mut Vec<u8>, name: u32, kind: u32, offset: u64, size: u64, link: u32, info: u32, entsize: u64) {
    put32(v, name);
    put32(v, kind);
    put64(v, 0);
    put64(v, 0);
    put64(v, offset);
    put64(v, size);
    put32(v, link);
    put32(v, info);
    put64(v, 1);
    put64(v, entsize);
}

/// A little-endian ELF64 object whose symbol table holds `charge`, an
/// absolute function symbol at 0x1000 of 0x20 bytes.
fn elf_with_symbol() -> Vec<u8> {
    let mut v = Vec::new();
    v.extend_from_slice(&[0x7f, b'E', b'L', b'F', 2, 1, 1, 0, 0, 0, 0, 0, 0, 0, 0, 0]);
    put16(&mut v, 1);
    put16(&mut v, 62);
    put32(&mut v, 1);
    put64(&mut v, 0);
    put64(&mut v, 0);
    put64(&mut v, 152);
    put32(&mut v, 0);
    put16(&mut v, 64);
    put16(&mut v, 0);
    put16(&mut v, 0);
    put16(&mut v, 64);
    put16(&mut v, 4);
    put16(&mut v, 3);
    assert_eq!(v.len(), 64);
    v.extend_from_slice(b"\0charge\0");
    v.extend_from_slice(&[0u8; 24]);
    put32(&mut v, 1);
    v.push(0x12);
    v.push(0);
    put16(&mut v, 0xfff1);
    put64(&mut v, 0x1000);
    put64(&mut v, 0x20);
    assert_eq!(v.len(), 120);
    v.extend_from_slice(b"\0.strtab\0.symtab\0.shstrtab\0");
    v.resize(152, 0);
    v.extend_from_slice(&[0u8; 64]);
    section(&mut v, 1, 3, 64, 8, 0, 0, 0);
    section(&mut v, 9, 2, 72, 48, 1, 1, 24);
    section(&mut v, 17, 3, 120, 27, 0, 0, 0);
    v
}

#[test]
fn native_symbols_name_the_function_at_an_address() {
    let natives = vec![
        DebugFile { name: "broken.so".into(), payload: b"random".to_vec() },
        DebugFile { name: "app.so".into(), payload: elf_with_symbol() },
    ];
    let inside = obj(vec![("instruction_addr", s("0x1010")), ("function", s("?"))]);
    let outside = obj(vec![("instruction_addr", s("0x2000")), ("function", s("?"))]);
    let out = symbolicate_exception(exception(vec![inside, outside]), &vec![], &natives).unwrap();
    let frames = frames_of(&out);
    assert_eq!(frames[0].get("function").and_then(JsonValue::as_str), Some("charge"));
    assert_eq!(frames[1].get("function").and_then(JsonValue::as_str), Some("?"));
    assert!(validate_debug_file("native_symbol", &elf_with_symbol()).is_ok());
}

const RANGE_MAP: &str = r#"{"version":3,"sources":["src/a.ts"],"names":[],"mappings":"kDAAA","rangeMappings":"B"}"#;

fn positioned(line: u64, col: u64) -> JsonValue {
    obj(vec![
        ("filename", s("app.js")),
        ("lineno", JsonValue::Number(JsonNumber::PosInt(line))),
        ("colno", JsonValue::Number(JsonNumber::PosInt(col))),
    ])
}

#[test]
fn range_tokens_move_the_source_column() {
    let maps = vec![map_file("app.js.map", RANGE_MAP)];
    let out = symbolicate_exception(exception(vec![positioned(1, 61)]), &maps, &vec![]).unwrap();
    let frames = frames_of(&out);
    assert_eq!(frames[0].get("filename").and_then(JsonValue::as_str), Some("src/a.ts"));
    assert_eq!(frames[0].get("lineno").and_then(JsonValue::as_u64), Some(1));
    assert_eq!(frames[0].get("colno").and_then(JsonValue::as_u64), Some(11));
}

#[test]
fn range_token_past_the_column_on_an_earlier_line_gives_no_token() {
    let maps = vec![map_file("app.js.map", RANGE_MAP)];
    assert_eq!(
        symbolicate_exception(exception(vec![positioned(2, 11)]), &maps, &vec![]).unwrap_err(),
        "no stack frame matched uploaded source maps"
    );
}

#[test]
fn index_maps_look_up_in_their_sections() {
    let index = r#"{"version":3,"sections":[
        {"offset":{"line":0,"column":0},"map":{"version":3,"sources":["a.ts"],"names":[],"mappings":"AAAA"}},
        {"offset":{"line":5,"column":0},"map":{"version":3,"sources":["b.ts"],"names":[],"mappings":"AAAA"}}]}"#;
    let maps = vec![map_file("app.js.map", index)];
    let out = symbolicate_exception(exception(vec![positioned(7, 1), positioned(1, 1)]), &maps, &vec![])
        .unwrap();
    let frames = frames_of(&out);
    assert_eq!(frames[0].get("filename").and_then(JsonValue::as_str), Some("b.ts"));
    assert_eq!(frames[1].get("filename").and_then(JsonValue::as_str), Some("a.ts"));
}
