//! End-to-end behaviour of the protocol engine, one line in, one line out.

use leptos_mcp::protocol::McpServer;

fn handle(line: &str) -> Option<String> {
    McpServer::new().handle_line(line)
}

#[test]
fn initialize_request_gets_the_handshake_line() {
    let out = handle(r#"{"jsonrpc":"2.0","id":1,"method":"initialize"}"#).unwrap();
    assert_eq!(
        out,
        r#"{"jsonrpc":"2.0","id":1,"result":{"protocolVersion":"2024-11-05","capabilities":{"tools":{}},"serverInfo":{"name":"leptos-mcp-server","version":"0.1.0"}}}"#
    );
}

#[test]
fn unknown_tool_gets_a_protocol_error() {
    let out =
        handle(r#"{"jsonrpc":"2.0","id":2,"method":"tools/call","params":{"name":"nope","arguments":{}}}"#)
            .unwrap();
    assert_eq!(
        out,
        r#"{"jsonrpc":"2.0","id":2,"error":{"code":-32600,"message":"Unknown tool: nope"}}"#
    );
}

#[test]
fn notification_gets_no_output_even_for_a_known_method() {
    assert!(handle(r#"{"jsonrpc":"2.0","method":"initialize"}"#).is_none());
}

#[test]
fn null_id_counts_as_a_notification() {
    assert!(handle(r#"{"jsonrpc":"2.0","id":null,"method":"initialize"}"#).is_none());
}

#[test]
fn two_requests_back_to_back_answer_in_order() {
    let server = McpServer::new();
    let lines = vec![
        r#"{"jsonrpc":"2.0","id":1,"method":"initialize"}"#.to_string(),
        r#"{"jsonrpc":"2.0","id":2,"method":"initialize"}"#.to_string(),
    ];
    let outs = server.process_lines(&lines);
    assert_eq!(outs.len(), 2);
    assert!(outs[0].contains(r#""id":1"#));
    assert!(outs[1].contains(r#""id":2"#));
}

#[test]
fn malformed_line_is_skipped_and_the_session_goes_on() {
    let server = McpServer::new();
    let lines = vec![
        "this is not json".to_string(),
        r#"{"jsonrpc":"2.0","id":7,"method":"initialize"}"#.to_string(),
    ];
    let outs = server.process_lines(&lines);
    assert_eq!(outs.len(), 1);
    assert!(outs[0].contains(r#""id":7"#));
}

#[test]
fn blank_line_produces_no_output() {
    assert!(handle("   \t  ").is_none());
    assert!(handle("").is_none());
}

#[test]
fn unknown_request_method_gets_an_empty_success() {
    let out = handle(r#"{"jsonrpc":"2.0","id":3,"method":"does/not-exist"}"#).unwrap();
    assert_eq!(out, r#"{"jsonrpc":"2.0","id":3,"result":{}}"#);
}

#[test]
fn tools_call_without_params_is_a_protocol_error() {
    let out = handle(r#"{"jsonrpc":"2.0","id":4,"method":"tools/call"}"#).unwrap();
    assert_eq!(
        out,
        r#"{"jsonrpc":"2.0","id":4,"error":{"code":-32600,"message":"Missing params"}}"#
    );
}

#[test]
fn tools_call_without_a_name_is_a_protocol_error() {
    let out = handle(r#"{"jsonrpc":"2.0","id":5,"method":"tools/call","params":{}}"#).unwrap();
    assert_eq!(
        out,
        r#"{"jsonrpc":"2.0","id":5,"error":{"code":-32600,"message":"Missing tool name"}}"#
    );
}

#[test]
fn tools_list_advertises_the_three_operations_in_order() {
    let out = handle(r#"{"jsonrpc":"2.0","id":6,"method":"tools/list"}"#).unwrap();
    let a = out.find("list-sections").unwrap();
    let b = out.find("get-documentation").unwrap();
    let c = out.find("leptos-autofixer").unwrap();
    assert!(a < b && b < c);
    assert!(out.contains(r#""id":6"#));
    assert!(out.contains(r#"{"type":"object","properties":{},"required":[]}"#));
    assert!(out.contains(r#""required":["section"]"#));
    assert!(out.contains(r#""required":["code"]"#));
}

#[test]
fn tools_call_get_documentation_wraps_text_content() {
    let out = handle(
        r#"{"jsonrpc":"2.0","id":8,"method":"tools/call","params":{"name":"get-documentation","arguments":{"section":"signals"}}}"#,
    )
    .unwrap();
    assert!(out.contains(r#""id":8"#));
    assert!(out.contains("\"text\":\"# Signals\\n\\n"));
}

#[test]
fn string_id_is_echoed_verbatim() {
    let out = handle(r#"{"jsonrpc":"2.0","id":"abc","method":"initialize"}"#).unwrap();
    assert!(out.contains(r#""id":"abc""#));
}

#[test]
fn whitespace_between_tokens_is_tolerated() {
    let out = handle(r#" { "jsonrpc" : "2.0" , "id" : 9 , "method" : "initialize" } "#).unwrap();
    assert!(out.contains(r#""id":9"#));
}

#[test]
fn tools_call_list_sections_returns_the_listing() {
    let out = handle(
        r#"{"jsonrpc":"2.0","id":10,"method":"tools/call","params":{"name":"list-sections"}}"#,
    )
    .unwrap();
    assert!(out.contains(r#""id":10"#));
    assert!(out.contains("* title: Getting Started, use_cases:"));
    assert!(out.contains("path: suspense"));
}

#[test]
fn tools_call_autofixer_reads_the_code_argument() {
    let out = handle(
        r#"{"jsonrpc":"2.0","id":11,"method":"tools/call","params":{"name":"leptos-autofixer","arguments":{"code":"println!(\"hi\")"}}}"#,
    )
    .unwrap();
    assert!(out.contains("WARNING: Use tracing macros"));
}

#[test]
fn tools_call_with_missing_arguments_uses_empty_defaults() {
    let out = handle(
        r#"{"jsonrpc":"2.0","id":12,"method":"tools/call","params":{"name":"get-documentation"}}"#,
    )
    .unwrap();
    // an empty query matches the first section in declaration order
    assert!(out.contains("\"text\":\"# Getting Started\\n\\n"));
}
