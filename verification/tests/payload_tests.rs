use mcp_middleware::mcp_payload::{DecodeError, McpInputData, McpInputPayload};

#[test]
fn test_init_payload() {
    let init_payload = "{\"jsonrpc\":\"2.0\",\"method\":\"initialize\",\"id\":1,\"params\":{\"protocolVersion\":\"2025-03-26\",\"capabilities\":{},\"clientInfo\":{\"name\":\"openai-mcp\",\"version\":\"1.0.0\"}}}";

    let mpc_payload = McpInputPayload::try_parse(init_payload).unwrap();

    println!("Mcp Payload: {:?}", mpc_payload);
}

#[test]
fn initialize_extracts_protocol_version() {
    let payload = "{\"jsonrpc\":\"2.0\",\"method\":\"initialize\",\"id\":1,\"params\":{\"protocolVersion\":\"2025-03-26\"}}";
    let p = McpInputPayload::try_parse(payload).unwrap();
    assert_eq!(p.id, 1);
    assert_eq!(p._version, "2.0");
    match p.data {
        McpInputData::Initialize(m) => assert_eq!(m.protocol_version, "2025-03-26"),
        other => panic!("wrong variant: {:?}", other),
    }
}

#[test]
fn ping_with_id_seven() {
    let p = McpInputPayload::try_parse("{\"jsonrpc\":\"2.0\",\"method\":\"ping\",\"id\":7}").unwrap();
    assert_eq!(p.id, 7);
    assert!(matches!(p.data, McpInputData::Ping));
}

#[test]
fn missing_id_defaults_to_zero() {
    let p = McpInputPayload::try_parse("{\"jsonrpc\":\"2.0\",\"method\":\"ping\"}").unwrap();
    assert_eq!(p.id, 0);
}

#[test]
fn unknown_method_forwarded() {
    let p = McpInputPayload::try_parse(
        "{\"jsonrpc\":\"2.0\",\"method\":\"foo/bar\",\"id\":1,\"params\":{\"a\":1}}",
    )
    .unwrap();
    match p.data {
        McpInputData::Other { method, data } => {
            assert_eq!(method, "foo/bar");
            assert_eq!(data, "{\"a\":1}");
        },
        other => panic!("wrong variant: {:?}", other),
    }
}

#[test]
fn resources_list_empty_params_falls_back() {
    let p = McpInputPayload::try_parse(
        "{\"jsonrpc\":\"2.0\",\"method\":\"resources/list\",\"id\":2,\"params\":{}}",
    )
    .unwrap();
    match p.data {
        McpInputData::ResourcesList(m) => assert_eq!(m.cursor, None),
        other => panic!("wrong variant: {:?}", other),
    }
}

#[test]
fn resources_list_missing_params_falls_back() {
    let p = McpInputPayload::try_parse("{\"jsonrpc\":\"2.0\",\"method\":\"resources/list\",\"id\":2}")
        .unwrap();
    match p.data {
        McpInputData::ResourcesList(m) => assert_eq!(m.cursor, None),
        other => panic!("wrong variant: {:?}", other),
    }
}

#[test]
fn resources_list_with_cursor() {
    let p = McpInputPayload::try_parse(
        "{\"jsonrpc\":\"2.0\",\"method\":\"resources/list\",\"id\":2,\"params\":{\"cursor\":\"abc\"}}",
    )
    .unwrap();
    match p.data {
        McpInputData::ResourcesList(m) => assert_eq!(m.cursor, Some(String::from("abc"))),
        other => panic!("wrong variant: {:?}", other),
    }
}

#[test]
fn read_and_subscribe_extract_uri() {
    let p = McpInputPayload::try_parse(
        "{\"jsonrpc\":\"2.0\",\"method\":\"resources/read\",\"id\":3,\"params\":{\"uri\":\"mem://a\"}}",
    )
    .unwrap();
    match p.data {
        McpInputData::ReadResource(m) => assert_eq!(m.uri, "mem://a"),
        other => panic!("wrong variant: {:?}", other),
    }
    let p = McpInputPayload::try_parse(
        "{\"jsonrpc\":\"2.0\",\"method\":\"resources/subscribe\",\"id\":4,\"params\":{\"uri\":\"mem://b\"}}",
    )
    .unwrap();
    match p.data {
        McpInputData::SubscribeResource(m) => assert_eq!(m.uri, "mem://b"),
        other => panic!("wrong variant: {:?}", other),
    }
}

#[test]
fn read_without_uri_is_invalid_params() {
    let r = McpInputPayload::try_parse(
        "{\"jsonrpc\":\"2.0\",\"method\":\"resources/read\",\"id\":3,\"params\":{}}",
    );
    assert_eq!(r.unwrap_err(), DecodeError::InvalidParams);
}

#[test]
fn tools_and_prompts_list_take_no_params() {
    let p = McpInputPayload::try_parse("{\"jsonrpc\":\"2.0\",\"method\":\"tools/list\",\"id\":1}")
        .unwrap();
    assert!(matches!(p.data, McpInputData::ToolsList));
    let p = McpInputPayload::try_parse("{\"jsonrpc\":\"2.0\",\"method\":\"prompts/list\",\"id\":1}")
        .unwrap();
    assert!(matches!(p.data, McpInputData::PromptsList));
}

#[test]
fn notification_initialized_decodes() {
    let p = McpInputPayload::try_parse(
        "{\"jsonrpc\":\"2.0\",\"method\":\"notifications/initialized\"}",
    )
    .unwrap();
    assert!(matches!(p.data, McpInputData::NotificationsInitialize));
}

#[test]
fn tool_call_keeps_raw_arguments() {
    let p = McpInputPayload::try_parse(
        "{\"jsonrpc\":\"2.0\",\"method\":\"tools/call\",\"id\":5,\"params\":{\"name\":\"add\",\"arguments\":{\"x\":1,\"y\":[2,3]}}}",
    )
    .unwrap();
    match p.data {
        McpInputData::ExecuteToolCall(m) => {
            assert_eq!(m.name, "add");
            assert_eq!(m.arguments, "{\"x\":1,\"y\":[2,3]}");
        },
        other => panic!("wrong variant: {:?}", other),
    }
}

#[test]
fn tool_call_without_arguments_is_invalid() {
    let r = McpInputPayload::try_parse(
        "{\"jsonrpc\":\"2.0\",\"method\":\"tools/call\",\"id\":5,\"params\":{\"name\":\"add\"}}",
    );
    assert_eq!(r.unwrap_err(), DecodeError::InvalidParams);
}

#[test]
fn get_prompt_with_arguments() {
    let p = McpInputPayload::try_parse(
        "{\"jsonrpc\":\"2.0\",\"method\":\"prompts/get\",\"id\":6,\"params\":{\"name\":\"greet\",\"arguments\":{\"who\":\"you\"}}}",
    )
    .unwrap();
    match p.data {
        McpInputData::GetPrompt(m) => {
            assert_eq!(m.name, "greet");
            let args = m.arguments.unwrap();
            assert_eq!(args.len(), 1);
            assert_eq!(args[0].0, "who");
            assert_eq!(args[0].1, "you");
        },
        other => panic!("wrong variant: {:?}", other),
    }
}

#[test]
fn get_prompt_arguments_absent_or_null() {
    for payload in [
        "{\"jsonrpc\":\"2.0\",\"method\":\"prompts/get\",\"id\":6,\"params\":{\"name\":\"greet\"}}",
        "{\"jsonrpc\":\"2.0\",\"method\":\"prompts/get\",\"id\":6,\"params\":{\"name\":\"greet\",\"arguments\":null}}",
    ] {
        let p = McpInputPayload::try_parse(payload).unwrap();
        match p.data {
            McpInputData::GetPrompt(m) => {
                assert_eq!(m.name, "greet");
                assert!(m.arguments.is_none());
            },
            other => panic!("wrong variant: {:?}", other),
        }
    }
}

#[test]
fn missing_version_and_method_errors() {
    let r = McpInputPayload::try_parse("{\"method\":\"ping\",\"id\":1}");
    assert_eq!(r.unwrap_err(), DecodeError::MissingVersion);
    let r = McpInputPayload::try_parse("{\"jsonrpc\":\"2.0\",\"id\":1}");
    assert_eq!(r.unwrap_err(), DecodeError::MissingMethod);
}

#[test]
fn non_object_input_is_malformed() {
    assert_eq!(McpInputPayload::try_parse("").unwrap_err(), DecodeError::Malformed);
    assert_eq!(McpInputPayload::try_parse("[1,2]").unwrap_err(), DecodeError::Malformed);
    assert_eq!(
        McpInputPayload::try_parse("{\"jsonrpc\":\"2.0\"").unwrap_err(),
        DecodeError::Malformed
    );
}

#[test]
fn id_must_be_a_base_10_integer() {
    let r = McpInputPayload::try_parse("{\"jsonrpc\":\"2.0\",\"method\":\"ping\",\"id\":\"7\"}");
    assert_eq!(r.unwrap_err(), DecodeError::InvalidId);
    let r = McpInputPayload::try_parse("{\"jsonrpc\":\"2.0\",\"method\":\"ping\",\"id\":1.5}");
    assert_eq!(r.unwrap_err(), DecodeError::InvalidId);
}

#[test]
fn id_covers_the_i64_range() {
    let p = McpInputPayload::try_parse(
        "{\"jsonrpc\":\"2.0\",\"method\":\"ping\",\"id\":9223372036854775807}",
    )
    .unwrap();
    assert_eq!(p.id, i64::MAX);
    let p = McpInputPayload::try_parse(
        "{\"jsonrpc\":\"2.0\",\"method\":\"ping\",\"id\":-9223372036854775808}",
    )
    .unwrap();
    assert_eq!(p.id, i64::MIN);
    let r = McpInputPayload::try_parse(
        "{\"jsonrpc\":\"2.0\",\"method\":\"ping\",\"id\":9223372036854775808}",
    );
    assert_eq!(r.unwrap_err(), DecodeError::InvalidId);
}

#[test]
fn later_duplicate_keys_win() {
    let p = McpInputPayload::try_parse(
        "{\"jsonrpc\":\"2.0\",\"method\":\"ping\",\"id\":1,\"id\":2}",
    )
    .unwrap();
    assert_eq!(p.id, 2);
}

#[test]
fn whitespace_and_unknown_keys_are_tolerated() {
    let p = McpInputPayload::try_parse(
        " { \"jsonrpc\" : \"2.0\" , \"extra\" : [ {\"deep\": \"}\"} ] , \"method\" : \"ping\" , \"id\" : 9 } ",
    )
    .unwrap();
    assert_eq!(p.id, 9);
    assert!(matches!(p.data, McpInputData::Ping));
}

#[test]
fn unicode_escapes_are_resolved() {
    let p = McpInputPayload::try_parse(
        "{\"jsonrpc\":\"2.0\",\"method\":\"resources/read\",\"id\":1,\"params\":{\"uri\":\"\\u0041\\u00e9\\u2603\"}}",
    )
    .unwrap();
    match p.data {
        McpInputData::ReadResource(m) => assert_eq!(m.uri, "A\u{e9}\u{2603}"),
        other => panic!("wrong variant: {:?}", other),
    }
}

#[test]
fn surrogate_halves_are_rejected() {
    let r = McpInputPayload::try_parse(
        "{\"jsonrpc\":\"2.0\",\"method\":\"resources/read\",\"id\":1,\"params\":{\"uri\":\"\\ud834\\udd1e\"}}",
    );
    assert_eq!(r.unwrap_err(), DecodeError::InvalidParams);
}

#[test]
fn get_prompt_duplicate_argument_keys_keep_the_last() {
    let p = McpInputPayload::try_parse(
        "{\"jsonrpc\":\"2.0\",\"method\":\"prompts/get\",\"id\":6,\"params\":{\"name\":\"greet\",\"arguments\":{\"who\":\"a\",\"tone\":\"t\",\"who\":\"b\"}}}",
    )
    .unwrap();
    match p.data {
        McpInputData::GetPrompt(m) => {
            let args = m.arguments.unwrap();
            assert_eq!(args.len(), 2);
            assert_eq!(args[0].0, "tone");
            assert_eq!(args[0].1, "t");
            assert_eq!(args[1].0, "who");
            assert_eq!(args[1].1, "b");
        },
        other => panic!("wrong variant: {:?}", other),
    }
}

#[test]
fn escaped_strings_are_unescaped() {
    let p = McpInputPayload::try_parse(
        "{\"jsonrpc\":\"2.0\",\"method\":\"resources/read\",\"id\":1,\"params\":{\"uri\":\"a\\\"b\\\\c\\nd\"}}",
    )
    .unwrap();
    match p.data {
        McpInputData::ReadResource(m) => assert_eq!(m.uri, "a\"b\\c\nd"),
        other => panic!("wrong variant: {:?}", other),
    }
}
