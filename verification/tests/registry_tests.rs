use mcp_middleware::prompts::{
    McpPromptService, McpPrompts, PromptDefinition, PromptExecutor,
};
use mcp_middleware::resources::{
    McpResourceService, McpResources, ResourceContent, ResourceExecutor, ResourceReadResult,
};

struct FixedResource {
    body: String,
}

impl McpResourceService for FixedResource {
    fn read_resource(&self, uri: &str) -> Result<ResourceReadResult, String> {
        Ok(ResourceReadResult {
            contents: vec![ResourceContent {
                uri: String::from(uri),
                mime_type: String::from("text/plain"),
                text: Some(self.body.clone()),
                blob: None,
            }],
        })
    }
}

fn resource(uri: &str, name: &str, body: &str) -> ResourceExecutor<FixedResource> {
    ResourceExecutor {
        resource_uri: String::from(uri),
        resource_name: String::from(name),
        description: String::from("a test resource"),
        mime_type: String::from("text/plain"),
        title: None,
        size: None,
        icons: Vec::new(),
        holder: FixedResource { body: String::from(body) },
    }
}

#[test]
fn resource_list_is_sorted_by_uri() {
    let mut reg: McpResources<FixedResource> = McpResources::new();
    reg.add(resource("mem://c", "C", "3"));
    reg.add(resource("mem://a", "A", "1"));
    reg.add(resource("mem://b", "B", "2"));
    let list = reg.get_list();
    let uris: Vec<&str> = list.iter().map(|d| d.uri.as_str()).collect();
    assert_eq!(uris, ["mem://a", "mem://b", "mem://c"]);
}

#[test]
fn later_resource_registration_wins() {
    let mut reg: McpResources<FixedResource> = McpResources::new();
    reg.add(resource("mem://a", "first", "1"));
    reg.add(resource("mem://a", "second", "2"));
    let got = reg.get("mem://a").unwrap();
    assert_eq!(got.resource_name, "second");
    assert_eq!(reg.get_list().len(), 1);
}

#[test]
fn has_resources_tracks_registrations() {
    let mut reg: McpResources<FixedResource> = McpResources::new();
    assert!(!reg.has_resources());
    reg.add(resource("mem://a", "A", "1"));
    assert!(reg.has_resources());
}

#[test]
fn read_delegates_to_the_handler() {
    let mut reg: McpResources<FixedResource> = McpResources::new();
    reg.add(resource("mem://a", "A", "hello"));
    let r = reg.read("mem://a").unwrap();
    assert_eq!(r.contents.len(), 1);
    assert_eq!(r.contents[0].text.as_deref(), Some("hello"));
}

#[test]
fn read_unknown_uri_names_it() {
    let reg: McpResources<FixedResource> = McpResources::new();
    let e = reg.read("mem://nope").unwrap_err();
    assert_eq!(e, "Resource with URI mem://nope is not found");
}

struct EchoPrompt;

impl McpPromptService for EchoPrompt {
    fn execute_prompt(&self, arguments: Vec<(String, String)>) -> Result<String, String> {
        let mut out = String::new();
        for (k, v) in arguments.iter() {
            out.push_str(k);
            out.push('=');
            out.push_str(v);
            out.push(';');
        }
        Ok(out)
    }
}

fn prompt(name: &str) -> PromptExecutor<EchoPrompt> {
    PromptExecutor {
        prompt_name: String::from(name),
        description: String::from("a test prompt"),
        argument_descriptions: Vec::new(),
        holder: EchoPrompt,
    }
}

#[test]
fn prompt_list_is_sorted_by_name() {
    let mut reg: McpPrompts<EchoPrompt> = McpPrompts::new();
    reg.add(prompt("b"));
    reg.add(prompt("a"));
    let list = reg.get_list();
    let names: Vec<&str> = list.iter().map(|p| p.name.as_str()).collect();
    assert_eq!(names, ["a", "b"]);
}

#[test]
fn later_prompt_registration_wins() {
    let mut reg: McpPrompts<EchoPrompt> = McpPrompts::new();
    let mut first = prompt("p");
    first.description = String::from("first");
    let mut second = prompt("p");
    second.description = String::from("second");
    reg.add(first);
    reg.add(second);
    assert_eq!(reg.get("p").unwrap().description, "second");
    assert!(reg.has_prompts());
}

#[test]
fn execute_converts_json_values_to_plain_strings() {
    let mut reg: McpPrompts<EchoPrompt> = McpPrompts::new();
    reg.add(prompt("echo"));
    let out = reg
        .execute("echo", "{\"s\":\"a\\\"b\",\"n\":7,\"b\":true,\"z\":null,\"o\":{\"x\":1}}")
        .unwrap();
    assert_eq!(out, "s=a\"b;n=7;b=true;z=;o={\"x\":1};");
}

#[test]
fn execute_unknown_prompt_names_it() {
    let reg: McpPrompts<EchoPrompt> = McpPrompts::new();
    let e = reg.execute("nope", "{}").unwrap_err();
    assert_eq!(e, "Prompt with name nope is not found");
}

#[test]
fn execute_rejects_bad_input() {
    let mut reg: McpPrompts<EchoPrompt> = McpPrompts::new();
    reg.add(prompt("echo"));
    let e = reg.execute("echo", "not json").unwrap_err();
    assert_eq!(e, "Can not deserialize input data not json");
}

#[test]
fn execute_non_object_input_yields_empty_arguments() {
    let mut reg: McpPrompts<EchoPrompt> = McpPrompts::new();
    reg.add(prompt("echo"));
    assert_eq!(reg.execute("echo", "[1]").unwrap(), "");
    assert_eq!(reg.execute("echo", "5").unwrap(), "");
    assert_eq!(reg.execute("echo", "null").unwrap(), "");
    assert_eq!(reg.execute("echo", "\"x\"").unwrap(), "");
}

#[test]
fn execute_rejects_object_with_invalid_value() {
    let mut reg: McpPrompts<EchoPrompt> = McpPrompts::new();
    reg.add(prompt("echo"));
    let e = reg.execute("echo", "{\"a\":@#$}").unwrap_err();
    assert_eq!(e, "Can not deserialize input data {\"a\":@#$}");
}

#[test]
fn execute_keeps_the_last_of_duplicate_keys() {
    let mut reg: McpPrompts<EchoPrompt> = McpPrompts::new();
    reg.add(prompt("echo"));
    let out = reg.execute("echo", "{\"a\":\"1\",\"b\":\"x\",\"a\":\"2\"}").unwrap();
    assert_eq!(out, "b=x;a=2;");
}

#[test]
fn prompt_definition_builders_accumulate_arguments() {
    let d = PromptDefinition::new(String::from("greet"), String::from("Greets"))
        .with_argument(String::from("who"), String::from("Whom"), true);
    assert_eq!(d.name, "greet");
    assert_eq!(d.arguments.len(), 1);
    assert_eq!(d.arguments[0].name, "who");
    assert!(d.arguments[0].required);

    let mut d = d;
    d.add_argument(String::from("tone"), String::from("How"), false);
    assert_eq!(d.arguments.len(), 2);
    assert_eq!(d.arguments[1].name, "tone");
    assert!(!d.arguments[1].required);
}

use mcp_middleware::tools::{McpToolService, McpTools, ToolExecutor};

struct UpperTool;

impl McpToolService for UpperTool {
    fn execute_tool(&self, arguments: &str) -> Result<String, String> {
        Ok(arguments.to_uppercase())
    }
}

fn tool(name: &str) -> ToolExecutor<UpperTool> {
    ToolExecutor {
        name: String::from(name),
        description: String::from("a test tool"),
        input: String::from("{\"type\":\"object\"}"),
        output: String::from("{\"type\":\"string\"}"),
        holder: UpperTool,
    }
}

#[test]
fn tool_list_is_sorted_by_name() {
    let mut reg: McpTools<UpperTool> = McpTools::new();
    reg.add(tool("b"));
    reg.add(tool("a"));
    let list = reg.get_list();
    let names: Vec<&str> = list.iter().map(|t| t.name.as_str()).collect();
    assert_eq!(names, ["a", "b"]);
    assert!(reg.has_tools());
}

#[test]
fn later_tool_registration_wins() {
    let mut reg: McpTools<UpperTool> = McpTools::new();
    let mut first = tool("t");
    first.description = String::from("first");
    let mut second = tool("t");
    second.description = String::from("second");
    reg.add(first);
    reg.add(second);
    assert_eq!(reg.get("t").unwrap().description, "second");
}

#[test]
fn tool_execute_delegates_and_names_missing_tools() {
    let mut reg: McpTools<UpperTool> = McpTools::new();
    reg.add(tool("up"));
    assert_eq!(reg.execute("up", "{\"k\":1}").unwrap(), "{\"K\":1}");
    let e = reg.execute("nope", "{}").unwrap_err();
    assert_eq!(e, "Tool with name nope is not found");
}
