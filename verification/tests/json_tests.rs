use kv_gateway::json::parse_get_body;
use kv_gateway::json::parse_set_body;
use kv_gateway::json::render_get_body;

#[test]
fn parse_get_plain() {
    let body = b"{\"key\":\"a\"}".to_vec();
    assert_eq!(parse_get_body(&body), Some(b"a".to_vec()));
}

#[test]
fn parse_get_with_whitespace() {
    let body = b" \t{ \"key\" : \"abc\" }\r\n".to_vec();
    assert_eq!(parse_get_body(&body), Some(b"abc".to_vec()));
}

#[test]
fn parse_get_empty_key() {
    let body = b"{\"key\":\"\"}".to_vec();
    assert_eq!(parse_get_body(&body), Some(b"".to_vec()));
}

#[test]
fn parse_get_unescapes() {
    let body = b"{\"key\":\"a\\\"b\\\\c\\n\\t\\/d\"}".to_vec();
    assert_eq!(parse_get_body(&body), Some(b"a\"b\\c\n\t/d".to_vec()));
}

#[test]
fn parse_get_rejects_malformed() {
    assert_eq!(parse_get_body(&b"".to_vec()), None);
    assert_eq!(parse_get_body(&b"{".to_vec()), None);
    assert_eq!(parse_get_body(&b"not json".to_vec()), None);
    assert_eq!(parse_get_body(&b"{\"key\":\"a\"".to_vec()), None);
    assert_eq!(parse_get_body(&b"{\"key\":1}".to_vec()), None);
    assert_eq!(parse_get_body(&b"{\"wrong\":\"a\"}".to_vec()), None);
    assert_eq!(parse_get_body(&b"{\"key\":\"a\"} trailing".to_vec()), None);
    assert_eq!(parse_get_body(&b"{\"key\":\"unterminated}".to_vec()), None);
    assert_eq!(parse_get_body(&b"{\"key\":\"bad\\qescape\"}".to_vec()), None);
}

#[test]
fn parse_get_hex_escapes() {
    let body = b"{\"key\":\"\\u0001\\u001F\\u0041\"}".to_vec();
    assert_eq!(parse_get_body(&body), Some(b"\x01\x1fA".to_vec()));
}

#[test]
fn parse_get_rejects_bad_hex_escapes() {
    assert_eq!(parse_get_body(&b"{\"key\":\"\\u0100\"}".to_vec()), None);
    assert_eq!(parse_get_body(&b"{\"key\":\"\\u00g1\"}".to_vec()), None);
    assert_eq!(parse_get_body(&b"{\"key\":\"\\uffff\"}".to_vec()), None);
    assert_eq!(parse_get_body(&b"{\"key\":\"\\u00\"}".to_vec()), None);
}

#[test]
fn parse_set_plain() {
    let body = b"{\"key\":\"a\",\"value\":\"1\"}".to_vec();
    assert_eq!(parse_set_body(&body), Some((b"a".to_vec(), b"1".to_vec())));
}

#[test]
fn parse_set_with_whitespace() {
    let body = b"{ \"key\" : \"k\" , \"value\" : \"v\" }".to_vec();
    assert_eq!(parse_set_body(&body), Some((b"k".to_vec(), b"v".to_vec())));
}

#[test]
fn parse_set_rejects_malformed() {
    assert_eq!(parse_set_body(&b"".to_vec()), None);
    assert_eq!(parse_set_body(&b"{\"key\":\"a\"}".to_vec()), None);
    assert_eq!(parse_set_body(&b"{\"value\":\"1\",\"key\":\"a\"}".to_vec()), None);
    assert_eq!(parse_set_body(&b"{\"key\":\"a\",\"value\":1}".to_vec()), None);
    assert_eq!(parse_set_body(&b"{\"key\":\"a\",\"value\":\"1\"},".to_vec()), None);
}

#[test]
fn render_plain_body() {
    let body = render_get_body(&b"a".to_vec(), &b"1".to_vec());
    assert_eq!(body, b"{\"key\":\"a\",\"value\":\"1\"}".to_vec());
}

#[test]
fn render_escapes_quote_and_backslash() {
    let body = render_get_body(&b"a\"b".to_vec(), &b"c\\d".to_vec());
    assert_eq!(body, b"{\"key\":\"a\\\"b\",\"value\":\"c\\\\d\"}".to_vec());
}

#[test]
fn render_escapes_control_bytes() {
    let body = render_get_body(&b"k".to_vec(), &b"a\nb\t\r\x08\x0c".to_vec());
    assert_eq!(
        body,
        b"{\"key\":\"k\",\"value\":\"a\\nb\\t\\r\\b\\f\"}".to_vec()
    );
}

#[test]
fn render_unit_separator_as_hex_escape() {
    let body = render_get_body(&b"k".to_vec(), &b"\x01\x1f".to_vec());
    assert_eq!(body, b"{\"key\":\"k\",\"value\":\"\\u0001\\u001f\"}".to_vec());
}

#[test]
fn render_then_parse_round_trip() {
    let key = b"a\"b\\c\nd\x01".to_vec();
    let value = b"v\t1\x1f".to_vec();
    let rendered = render_get_body(&key, &value);
    // The response body is itself a store request shape with the same
    // members, so the parser must recover exactly what was rendered.
    assert_eq!(parse_set_body(&rendered), Some((key, value)));
}
