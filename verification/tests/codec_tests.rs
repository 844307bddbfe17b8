//! The stack navigation comment: canonical JSON, base64 payload, body
//! layout, and the payload round trip.

use base64::Engine;
use jj_ryu::codec::build_stack_comment_body;
use jj_ryu::codec::parse_stack_comment_json;
use jj_ryu::codec::render_stack_json;
use jj_ryu::codec::StackCommentData;
use jj_ryu::codec::StackItem;
use jj_ryu::strutil::str_contains;
use jj_ryu::strutil::u64_to_string;

fn item(name: &str, url: &str, number: u64) -> StackItem {
    StackItem {
        bookmark_name: name.to_string(),
        pr_url: url.to_string(),
        pr_number: number,
    }
}

fn two_item_data() -> StackCommentData {
    StackCommentData {
        version: 0,
        stack: vec![
            item("feat-a", "https://example.invalid/pull/1", 1),
            item("feat-b", "https://example.invalid/pull/2", 2),
        ],
    }
}

#[test]
fn test_render_stack_json_exact() {
    let data = two_item_data();
    let json = render_stack_json(&data);
    let expected = "{\"version\":0,\"stack\":[{\"bookmark_name\":\"feat-a\",\"pr_url\":\"https://example.invalid/pull/1\",\"pr_number\":1},{\"bookmark_name\":\"feat-b\",\"pr_url\":\"https://example.invalid/pull/2\",\"pr_number\":2}]}";
    assert_eq!(json, expected);
}

#[test]
fn test_rendered_json_parses_with_serde() {
    let data = two_item_data();
    let json = render_stack_json(&data);
    let value: serde_json::Value = serde_json::from_str(&json).unwrap();
    assert_eq!(value["version"], serde_json::Value::from(0u64));
    assert_eq!(value["stack"][0]["bookmark_name"], serde_json::Value::from("feat-a"));
    assert_eq!(value["stack"][1]["pr_number"], serde_json::Value::from(2u64));
}

#[test]
fn test_comment_body_layout() {
    let data = two_item_data();
    let body = build_stack_comment_body(&data, 0);
    let json = render_stack_json(&data);
    let expected_payload = base64::engine::general_purpose::STANDARD.encode(json.as_bytes());
    let expected = format!(
        "<!--- JJ-RYU_STACK: {expected_payload} --->\n* [#2](https://example.invalid/pull/2)\n* **#1 \u{1F448}**\n\n---\nThis stack of pull requests is managed by [jj-ryu](https://github.com/dmmulroy/jj-ryu)."
    );
    assert_eq!(body, expected);
}

#[test]
fn test_comment_payload_round_trip() {
    // The base64 JSON decoded from a built comment body is the canonical
    // JSON the body was built from.
    let data = two_item_data();
    for idx in 0..data.stack.len() {
        let body = build_stack_comment_body(&data, idx);
        let decoded = parse_stack_comment_json(&body).unwrap();
        assert_eq!(decoded, render_stack_json(&data));
        let value: serde_json::Value = serde_json::from_str(&decoded).unwrap();
        assert_eq!(value["stack"][0]["pr_number"], serde_json::Value::from(1u64));
    }
}

#[test]
fn test_render_escapes_quotes_and_backslashes() {
    let data = StackCommentData {
        version: 0,
        stack: vec![item("fe\"at", "https://example.invalid/a\\b", 7)],
    };
    let json = render_stack_json(&data);
    assert_eq!(
        json,
        "{\"version\":0,\"stack\":[{\"bookmark_name\":\"fe\\\"at\",\"pr_url\":\"https://example.invalid/a\\\\b\",\"pr_number\":7}]}"
    );
    // The escaped rendering is valid JSON and recovers the raw strings.
    let value: serde_json::Value = serde_json::from_str(&json).unwrap();
    assert_eq!(value["stack"][0]["bookmark_name"], serde_json::Value::from("fe\"at"));
    assert_eq!(
        value["stack"][0]["pr_url"],
        serde_json::Value::from("https://example.invalid/a\\b")
    );
}

#[test]
fn test_parse_rejects_foreign_body() {
    assert!(parse_stack_comment_json("just a comment").is_none());
}

#[test]
fn test_u64_rendering() {
    assert_eq!(u64_to_string(0), "0");
    assert_eq!(u64_to_string(9), "9");
    assert_eq!(u64_to_string(12345), "12345");
    assert_eq!(u64_to_string(u64::MAX), "18446744073709551615");
}

#[test]
fn test_str_contains() {
    assert!(str_contains("abcdef", "cde"));
    assert!(str_contains("abcdef", ""));
    assert!(str_contains("abcdef", "abcdef"));
    assert!(!str_contains("abcdef", "cdf"));
    assert!(!str_contains("ab", "abc"));
}
