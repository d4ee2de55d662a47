use mcp_middleware::mcp_output_contract::{
    build_ping_response, compile_execute_tool_call_response, compile_get_prompt_response,
    compile_init_response, compile_prompts_list, compile_read_resource_response,
    compile_resources_list, compile_tool_calls,
};
use mcp_middleware::prompts::{PromptArgument, PromptExecutionResult, PromptSchemaData};
use mcp_middleware::render::{build, i64_to_string};
use mcp_middleware::resources::{
    ResourceContent, ResourceIcon, ResourceReadResult, ResourceSchemaData,
};
use mcp_middleware::tools::ToolCallSchemaData;

#[test]
fn ping_frame_is_bit_exact() {
    assert_eq!(
        build_ping_response(7),
        "data: {\"jsonrpc\":\"2.0\",\"id\":7,\"result\":{}}\n\n"
    );
}

#[test]
fn build_wraps_any_result_object() {
    assert_eq!(
        build("{\"x\":1}", -3),
        "data: {\"jsonrpc\":\"2.0\",\"id\":-3,\"result\":{\"x\":1}}\n\n"
    );
}

#[test]
fn integer_rendering() {
    assert_eq!(i64_to_string(0), "0");
    assert_eq!(i64_to_string(1234567890), "1234567890");
    assert_eq!(i64_to_string(-42), "-42");
    assert_eq!(i64_to_string(i64::MAX), "9223372036854775807");
    assert_eq!(i64_to_string(i64::MIN), "-9223372036854775808");
}

#[test]
fn init_with_one_resource_advertises_only_resources() {
    let r = compile_init_response("srv", "1.0", "hi", "2025-03-26", 1, false, true, false);
    assert_eq!(
        r,
        "data: {\"jsonrpc\":\"2.0\",\"id\":1,\"result\":{\"protocolVersion\":\"2025-03-26\",\"capabilities\":{\"resources\":{\"listChanged\":true}},\"serverInfo\":{\"name\":\"srv\",\"version\":\"1.0\"},\"instructions\":\"hi\"}}\n\n"
    );
}

#[test]
fn init_with_all_capabilities() {
    let r = compile_init_response("srv", "1.0", "hi", "2025-03-26", 2, true, true, true);
    assert_eq!(
        r,
        "data: {\"jsonrpc\":\"2.0\",\"id\":2,\"result\":{\"protocolVersion\":\"2025-03-26\",\"capabilities\":{\"resources\":{\"listChanged\":true},\"tools\":{\"listChanged\":true},\"prompts\":{\"listChanged\":true}},\"serverInfo\":{\"name\":\"srv\",\"version\":\"1.0\"},\"instructions\":\"hi\"}}\n\n"
    );
}

#[test]
fn init_with_no_capabilities_is_empty_object() {
    let r = compile_init_response("srv", "1.0", "", "2025-03-26", 3, false, false, false);
    assert_eq!(
        r,
        "data: {\"jsonrpc\":\"2.0\",\"id\":3,\"result\":{\"protocolVersion\":\"2025-03-26\",\"capabilities\":{},\"serverInfo\":{\"name\":\"srv\",\"version\":\"1.0\"},\"instructions\":\"\"}}\n\n"
    );
}

#[test]
fn strings_are_escaped_in_output() {
    let r = compile_init_response("s\"x", "1\n0", "a\\b", "v\t1", 1, false, false, false);
    assert_eq!(
        r,
        "data: {\"jsonrpc\":\"2.0\",\"id\":1,\"result\":{\"protocolVersion\":\"v\\t1\",\"capabilities\":{},\"serverInfo\":{\"name\":\"s\\\"x\",\"version\":\"1\\n0\"},\"instructions\":\"a\\\\b\"}}\n\n"
    );
}

#[test]
fn control_characters_are_escaped_in_output() {
    let response = PromptExecutionResult {
        description: String::from("d"),
        message: String::from("a\u{1}b\u{1f}c"),
    };
    assert_eq!(
        compile_get_prompt_response(&response, 1),
        "data: {\"jsonrpc\":\"2.0\",\"id\":1,\"result\":{\"description\":\"d\",\"messages\":[{\"role\":\"user\",\"content\":{\"type\":\"text\",\"text\":\"a\\u0001b\\u001fc\"}}]}}\n\n"
    );
}

#[test]
fn tools_list_carries_both_schemas() {
    let tools = vec![ToolCallSchemaData {
        name: String::from("add"),
        description: String::from("Adds"),
        input: String::from("{\"type\":\"object\"}"),
        output: String::from("{\"type\":\"number\"}"),
    }];
    assert_eq!(
        compile_tool_calls(&tools, 4),
        "data: {\"jsonrpc\":\"2.0\",\"id\":4,\"result\":{\"tools\":[{\"name\":\"add\",\"description\":\"Adds\",\"inputSchema\":{\"type\":\"object\"},\"outputSchema\":{\"type\":\"number\"}}]}}\n\n"
    );
}

#[test]
fn empty_tools_list() {
    let tools: Vec<ToolCallSchemaData> = Vec::new();
    assert_eq!(
        compile_tool_calls(&tools, 4),
        "data: {\"jsonrpc\":\"2.0\",\"id\":4,\"result\":{\"tools\":[]}}\n\n"
    );
}

#[test]
fn prompts_list_renders_arguments() {
    let prompts = vec![PromptSchemaData {
        name: String::from("greet"),
        description: String::from("Greets"),
        argument_descriptions: vec![
            PromptArgument {
                name: String::from("who"),
                description: String::from("Whom"),
                required: true,
            },
            PromptArgument {
                name: String::from("tone"),
                description: String::from("How"),
                required: false,
            },
        ],
    }];
    assert_eq!(
        compile_prompts_list(&prompts, 5),
        "data: {\"jsonrpc\":\"2.0\",\"id\":5,\"result\":{\"prompts\":[{\"name\":\"greet\",\"description\":\"Greets\",\"arguments\":[{\"name\":\"who\",\"description\":\"Whom\",\"required\":true},{\"name\":\"tone\",\"description\":\"How\",\"required\":false}]}]}}\n\n"
    );
}

#[test]
fn resources_list_leaves_absent_fields_out() {
    let resources = vec![ResourceSchemaData {
        uri: String::from("mem://a"),
        name: String::from("A"),
        description: String::from("dA"),
        mime_type: String::from("text/plain"),
        title: None,
        size: None,
        icons: Vec::new(),
    }];
    assert_eq!(
        compile_resources_list(&resources, 6, None),
        "data: {\"jsonrpc\":\"2.0\",\"id\":6,\"result\":{\"resources\":[{\"uri\":\"mem://a\",\"name\":\"A\",\"description\":\"dA\",\"mimeType\":\"text/plain\"}]}}\n\n"
    );
}

#[test]
fn resources_list_renders_present_fields_and_cursor() {
    let resources = vec![ResourceSchemaData {
        uri: String::from("mem://a"),
        name: String::from("A"),
        description: String::from("dA"),
        mime_type: String::from("text/plain"),
        title: Some(String::from("T")),
        size: Some(42),
        icons: vec![ResourceIcon {
            src: String::from("i.png"),
            mime_type: String::from("image/png"),
            sizes: vec![String::from("48x48")],
        }],
    }];
    assert_eq!(
        compile_resources_list(&resources, 6, Some("next")),
        "data: {\"jsonrpc\":\"2.0\",\"id\":6,\"result\":{\"resources\":[{\"uri\":\"mem://a\",\"name\":\"A\",\"description\":\"dA\",\"mimeType\":\"text/plain\",\"title\":\"T\",\"size\":42,\"icons\":[{\"src\":\"i.png\",\"mimeType\":\"image/png\",\"sizes\":[\"48x48\"]}]}],\"nextCursor\":\"next\"}}\n\n"
    );
}

#[test]
fn icon_sizes_may_be_empty_but_stay_an_array() {
    let resources = vec![ResourceSchemaData {
        uri: String::from("mem://a"),
        name: String::from("A"),
        description: String::from("d"),
        mime_type: String::from("text/plain"),
        title: None,
        size: None,
        icons: vec![ResourceIcon {
            src: String::from("i.png"),
            mime_type: String::from("image/png"),
            sizes: Vec::new(),
        }],
    }];
    assert_eq!(
        compile_resources_list(&resources, 1, None),
        "data: {\"jsonrpc\":\"2.0\",\"id\":1,\"result\":{\"resources\":[{\"uri\":\"mem://a\",\"name\":\"A\",\"description\":\"d\",\"mimeType\":\"text/plain\",\"icons\":[{\"src\":\"i.png\",\"mimeType\":\"image/png\",\"sizes\":[]}]}]}}\n\n"
    );
}

#[test]
fn read_resource_response_text_and_blob() {
    let response = ResourceReadResult {
        contents: vec![
            ResourceContent {
                uri: String::from("mem://a"),
                mime_type: String::from("text/plain"),
                text: Some(String::from("hello")),
                blob: None,
            },
            ResourceContent {
                uri: String::from("mem://b"),
                mime_type: String::from("application/octet-stream"),
                text: None,
                blob: Some(String::from("AQID")),
            },
        ],
    };
    assert_eq!(
        compile_read_resource_response(&response, 8),
        "data: {\"jsonrpc\":\"2.0\",\"id\":8,\"result\":{\"contents\":[{\"uri\":\"mem://a\",\"mimeType\":\"text/plain\",\"text\":\"hello\"},{\"uri\":\"mem://b\",\"mimeType\":\"application/octet-stream\",\"blob\":\"AQID\"}]}}\n\n"
    );
}

#[test]
fn tool_call_success_carries_structured_content() {
    assert_eq!(
        compile_execute_tool_call_response("{\"ok\":true}", 5, false),
        "data: {\"jsonrpc\":\"2.0\",\"id\":5,\"result\":{\"content\":[{\"type\":\"text\",\"text\":\"{\\\"ok\\\":true}\"}],\"structuredContent\":{\"ok\":true},\"isError\":false}}\n\n"
    );
}

#[test]
fn tool_call_error_has_no_structured_content() {
    assert_eq!(
        compile_execute_tool_call_response("boom", 5, true),
        "data: {\"jsonrpc\":\"2.0\",\"id\":5,\"result\":{\"content\":[{\"type\":\"text\",\"text\":\"boom\"}],\"isError\":true}}\n\n"
    );
}

#[test]
fn get_prompt_response_wraps_one_user_message() {
    let response = PromptExecutionResult {
        description: String::from("d"),
        message: String::from("m"),
    };
    assert_eq!(
        compile_get_prompt_response(&response, 9),
        "data: {\"jsonrpc\":\"2.0\",\"id\":9,\"result\":{\"description\":\"d\",\"messages\":[{\"role\":\"user\",\"content\":{\"type\":\"text\",\"text\":\"m\"}}]}}\n\n"
    );
}
