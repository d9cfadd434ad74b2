//! The message codec: decoding lines, encoding responses, and the
//! round-trip between them.

use leptos_mcp::codec::{decode, encode_response, DecodeError, RespBody, RespError, Response};
use leptos_mcp::json::{encode_json, Json};
use leptos_mcp::parse::parse_json;

#[test]
fn decode_reads_id_method_and_params() {
    let req = decode(r#"{"jsonrpc":"2.0","id":1,"method":"ping","params":{"a":1}}"#).unwrap();
    assert_eq!(req.id, Some(Json::Int(1)));
    assert_eq!(req.method, "ping");
    assert_eq!(
        req.params,
        Some(Json::Obj(vec![("a".to_string(), Json::Int(1))]))
    );
}

#[test]
fn decode_rejects_each_malformed_shape_with_its_own_error() {
    assert!(matches!(decode("not json"), Err(DecodeError::Syntax)));
    assert!(matches!(decode("[1,2,3]"), Err(DecodeError::NotObject)));
    assert!(matches!(decode(r#"{"method":"x"}"#), Err(DecodeError::MissingTag)));
    assert!(matches!(decode(r#"{"jsonrpc":"2.0"}"#), Err(DecodeError::MissingMethod)));
    assert!(matches!(
        decode(r#"{"jsonrpc":"2.0","method":7}"#),
        Err(DecodeError::MissingMethod)
    ));
    assert!(matches!(decode(r#"{"jsonrpc":2,"method":"x"}"#), Err(DecodeError::MissingTag)));
}

#[test]
fn decode_treats_null_id_and_null_params_as_absent() {
    let req = decode(r#"{"jsonrpc":"2.0","id":null,"method":"m","params":null}"#).unwrap();
    assert!(req.id.is_none());
    assert!(req.params.is_none());
}

#[test]
fn encode_success_response_is_one_compact_line() {
    let r = Response { id: Json::Int(5), body: RespBody::Value(Json::Obj(vec![])) };
    assert_eq!(encode_response(&r), r#"{"jsonrpc":"2.0","id":5,"result":{}}"#);
}

#[test]
fn encode_error_response_carries_code_and_message() {
    let r = Response {
        id: Json::Str("x".to_string()),
        body: RespBody::Failure(RespError { code: -32600, message: "bad".to_string() }),
    };
    assert_eq!(
        encode_response(&r),
        r#"{"jsonrpc":"2.0","id":"x","error":{"code":-32600,"message":"bad"}}"#
    );
}

#[test]
fn response_round_trips_through_the_codec() {
    let r = Response {
        id: Json::Int(42),
        body: RespBody::Value(Json::Arr(vec![
            Json::Null,
            Json::Bool(true),
            Json::Int(-7),
            Json::Str("line one\nline \"two\"\t\\".to_string()),
            Json::Obj(vec![("k".to_string(), Json::Arr(vec![]))]),
        ])),
    };
    let line = encode_response(&r);
    assert!(!line.contains('\n'));
    let back = parse_json(&line).unwrap();
    assert_eq!(encode_json(&back), line);
}

#[test]
fn json_value_round_trips_through_encode_and_parse() {
    let v = Json::Obj(vec![
        ("empty".to_string(), Json::Str(String::new())),
        ("esc".to_string(), Json::Str("\u{1}\u{1f} \"q\" /".to_string())),
        ("nums".to_string(), Json::Arr(vec![
            Json::Int(0),
            Json::Int(i64::MAX),
            Json::Int(i64::MIN),
        ])),
        ("deep".to_string(), Json::Arr(vec![Json::Arr(vec![Json::Arr(vec![Json::Int(1)])])])),
    ]);
    let line = encode_json(&v);
    assert_eq!(parse_json(&line), Some(v));
}

#[test]
fn parser_accepts_the_usual_escapes_and_rejects_bad_input() {
    assert_eq!(
        parse_json(r#""a\nb\tc\"d\\e\/f\u0001""#),
        Some(Json::Str("a\nb\tc\"d\\e/f\u{1}".to_string()))
    );
    assert_eq!(parse_json(r#"[1, 2 , 3]"#), Some(Json::Arr(vec![
        Json::Int(1),
        Json::Int(2),
        Json::Int(3),
    ])));
    assert_eq!(parse_json("9223372036854775807"), Some(Json::Int(i64::MAX)));
    assert_eq!(parse_json("-9223372036854775808"), Some(Json::Int(i64::MIN)));
    assert_eq!(parse_json("9223372036854775808"), None);
    assert_eq!(parse_json("123456789012345678901"), None);
    assert_eq!(parse_json("1.5"), None);
    let unclosed = "{\"a\":1".to_string();
    assert_eq!(parse_json(&unclosed), None);
    assert_eq!(parse_json("[1,]"), None);
    assert_eq!(parse_json("\"unterminated"), None);
    assert_eq!(parse_json("null extra"), None);
    assert_eq!(parse_json("nul"), None);
}

#[test]
fn parser_rejects_leading_zeros() {
    assert_eq!(parse_json("0"), Some(Json::Int(0)));
    assert_eq!(parse_json("-0"), Some(Json::Int(0)));
    assert_eq!(parse_json("10"), Some(Json::Int(10)));
    assert_eq!(parse_json("01"), None);
    assert_eq!(parse_json("-01"), None);
    assert_eq!(parse_json("007"), None);
}

#[test]
fn parser_reads_single_byte_unicode_escapes() {
    assert_eq!(parse_json(r#""\u0041""#), Some(Json::Str("A".to_string())));
    assert_eq!(parse_json(r#""\u00e9""#), Some(Json::Str("\u{e9}".to_string())));
    // code points above U+00FF are not accepted
    assert_eq!(parse_json(r#""\u20ac""#), None);
}

#[test]
fn duplicate_keys_take_the_last_binding() {
    let req = decode(r#"{"jsonrpc":"2.0","id":1,"id":2,"method":"a","method":"b"}"#).unwrap();
    assert_eq!(req.id, Some(Json::Int(2)));
    assert_eq!(req.method, "b");
}
