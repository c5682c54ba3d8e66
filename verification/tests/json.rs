use ipinfo_round_robin_api::json::{redact_object, redact_token, redact_token_field};
use serde_json::Value;

fn redacted(body: &str) -> String {
    String::from_utf8(redact_token_field(body.as_bytes().to_vec())).unwrap()
}

#[test]
fn tokens_keep_three_characters() {
    assert_eq!(redact_token("abcdef"), "abc...");
    assert_eq!(redact_token("abcd"), "abc...");
    assert_eq!(redact_token("abc"), "...");
    assert_eq!(redact_token(""), "...");
    assert_eq!(redact_token("äöüß"), "äöü...");
    assert_eq!(redact_token("abcdef"), redact_token("abcxyz"));
    assert_eq!(redact_token(&redact_token("abcdef")), "abc...");
    assert_eq!(redact_token(&redact_token("ab")), "...");
}

#[test]
fn token_field_is_redacted() {
    assert_eq!(
        redacted(r#"{ "token": "1234567", "requests": {"day": 5} }"#),
        r#"{"requests":{"day":5},"token":"123..."}"#
    );
}

#[test]
fn bodies_without_token_are_written_anew() {
    assert_eq!(redacted(r#"{ "b" : 1, "a" : "x" }"#), r#"{"a":"x","b":1}"#);
    assert_eq!(redacted(r#"{"token": 12345}"#), r#"{"token":12345}"#);
    assert_eq!(redacted("{}"), "{}");
}

#[test]
fn other_bodies_stay() {
    for body in ["", "not json", "[1,2]", "\"token\"", "{\"token\":"] {
        assert_eq!(redacted(body), body);
    }
    assert_eq!(redact_token_field(vec![0xff, 0xfe]), vec![0xff, 0xfe]);
}

#[test]
fn other_members_stay() {
    let mut map: serde_json::Map<String, Value> = serde_json::Map::new();
    map.insert("token".into(), Value::String("secret-token".into()));
    map.insert("token2".into(), Value::String("secret-token".into()));
    map.insert("n".into(), Value::Bool(true));
    redact_object(&mut map);
    assert_eq!(map.get("token"), Some(&Value::String("sec...".into())));
    assert_eq!(map.get("token2"), Some(&Value::String("secret-token".into())));
    assert_eq!(map.get("n"), Some(&Value::Bool(true)));
    assert_eq!(map.len(), 3);
}

#[test]
fn redacted_body_reads_back() {
    let once = redact_token_field(r#"{"token":"a\"bcdéf","x":[1.5,null]}"#.as_bytes().to_vec());
    let read: serde_json::Map<String, Value> = serde_json::from_slice(&once).unwrap();
    assert_eq!(read.get("token"), Some(&Value::String("a\"b...".into())));
    assert_eq!(redact_token_field(once.clone()), once);
}
