use open_sentry::grouping::{join_parts, split_whitespace};
use open_sentry::json::{JsonNumber, JsonValue};
use open_sentry::text::{
    chars_of, has_prefix, has_suffix, i64_decimal, is_whitespace, seq_eq, slice_chars, str_eq,
    string_of, to_ascii_lowercase, trim, u64_decimal,
};

fn cs(s: &str) -> Vec<char> {
    s.chars().collect()
}

#[test]
fn text_helpers() {
    assert_eq!(chars_of("aé"), vec!['a', 'é']);
    assert_eq!(string_of(&cs("héllo")), "héllo");
    assert!(str_eq("abc", "abc") && !str_eq("abc", "abd"));
    assert!(seq_eq(&cs("x"), &cs("x")) && !seq_eq(&cs("x"), &cs("xy")));
    assert!(has_prefix(&cs("Bearer x"), &cs("Bearer ")));
    assert!(!has_prefix(&cs("Bear"), &cs("Bearer ")));
    assert!(has_suffix(&cs("app.js.map"), &cs(".map")));
    assert_eq!(slice_chars(&cs("abcdef"), 1, 3), cs("bc"));
    assert_eq!(trim(&cs("\u{3000} \t a b \n")), cs("a b"));
    assert!(is_whitespace('\u{2003}') && !is_whitespace('x'));
    assert_eq!(to_ascii_lowercase(&cs("ÀbC")), cs("Àbc"));
    assert_eq!(u64_decimal(0), "0");
    assert_eq!(u64_decimal(u64::MAX), u64::MAX.to_string());
    assert_eq!(i64_decimal(i64::MIN), i64::MIN.to_string());
    assert_eq!(i64_decimal(-7), "-7");
}

#[test]
fn whitespace_split_and_join() {
    assert_eq!(split_whitespace(&cs("  a \t bb\nc  ")), vec![cs("a"), cs("bb"), cs("c")]);
    assert!(split_whitespace(&cs("   ")).is_empty());
    assert_eq!(join_parts(&vec![cs("a"), cs("bb")], &cs(" ")), cs("a bb"));
    assert_eq!(join_parts(&vec![], &cs(" ")), cs(""));
}

#[test]
fn json_access_and_update() {
    let v = JsonValue::Object(vec![
        ("a".to_string(), JsonValue::String("x".into())),
        ("n".to_string(), JsonValue::Number(JsonNumber::PosInt(5))),
        ("neg".to_string(), JsonValue::Number(JsonNumber::NegInt(-5))),
        ("b".to_string(), JsonValue::Bool(true)),
        ("list".to_string(), JsonValue::Array(vec![JsonValue::Null])),
    ]);
    assert_eq!(v.get("a").and_then(JsonValue::as_str), Some("x"));
    assert_eq!(v.member_str("a"), Some("x"));
    assert_eq!(v.member_str("n"), None);
    assert_eq!(v.get("n").and_then(JsonValue::as_u64), Some(5));
    assert_eq!(v.get("neg").and_then(JsonValue::as_u64), None);
    assert_eq!(v.get("b").and_then(JsonValue::as_bool), Some(true));
    assert_eq!(v.get("list").and_then(JsonValue::as_array).map(Vec::len), Some(1));
    assert!(v.get("missing").is_none());
    assert!(JsonValue::Null.get("a").is_none());
    let copy = v.copy();
    assert_eq!(format!("{:?}", copy), format!("{:?}", v));
    let set = v.set_member("a", JsonValue::Null);
    assert!(matches!(set.get("a"), Some(JsonValue::Null)));
    let unchanged = set.set_member("zzz", JsonValue::Null);
    assert!(unchanged.get("zzz").is_none());
    let inserted = unchanged.insert_member("zzz", JsonValue::Bool(false));
    assert_eq!(inserted.get("zzz").and_then(JsonValue::as_bool), Some(false));
    let replaced = inserted.insert_member("zzz", JsonValue::Bool(true));
    assert_eq!(replaced.get("zzz").and_then(JsonValue::as_bool), Some(true));
    if let JsonValue::Object(es) = &replaced {
        assert_eq!(es.len(), 6);
    }
}
