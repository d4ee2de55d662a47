//! The response compiler: one function per response kind, each proved
//! to produce the exact outbound frame its specification function
//! writes down.  Every frame is `data: ` + one JSON-RPC object carrying
//! `jsonrpc`, the echoed `id` and the `result` object + a blank line.

use vstd::prelude::*;
use vstd::string::*;
use crate::prompts::{PromptExecutionResult, PromptSchemaData, SpecPromptArgument, SpecPromptSchema};
use crate::render::{
    append_join_comma, append_quoted, append_u64, build, spec_join_comma, spec_quoted,
    spec_rpc_frame, spec_u64_str,
};
use crate::resources::{ResourceContent, ResourceReadResult, ResourceSchemaData, SpecContent, SpecIcon, SpecResource};
use crate::tools::{SpecTool, ToolCallSchemaData};

verus! {

pub open spec fn spec_bool_str(b: bool) -> Seq<char> {
    if b {
        "true"@
    } else {
        "false"@
    }
}

fn append_bool(out: &mut String, b: bool)
    ensures
        final(out)@ == old(out)@ + spec_bool_str(b),
{
    if b {
        out.append("true");
    } else {
        out.append("false");
    }
}

/// The members of the `capabilities` object: one sub-object per
/// capability kind that is present, in the fixed order resources,
/// tools, prompts, each carrying `listChanged: true`.
pub open spec fn spec_caps_entries(has_tools: bool, has_resources: bool, has_prompts: bool) -> Seq<
    Seq<char>,
> {
    (if has_resources {
        seq!["\"resources\":{\"listChanged\":true}"@]
    } else {
        Seq::empty()
    }) + (if has_tools {
        seq!["\"tools\":{\"listChanged\":true}"@]
    } else {
        Seq::empty()
    }) + (if has_prompts {
        seq!["\"prompts\":{\"listChanged\":true}"@]
    } else {
        Seq::empty()
    })
}

/// The rendered `capabilities` object.
pub open spec fn spec_capabilities(has_tools: bool, has_resources: bool, has_prompts: bool) -> Seq<
    char,
> {
    "{"@ + spec_join_comma(spec_caps_entries(has_tools, has_resources, has_prompts)) + "}"@
}

fn append_capabilities(out: &mut String, has_tools: bool, has_resources: bool, has_prompts: bool)
    ensures
        final(out)@ == old(out)@ + spec_capabilities(has_tools, has_resources, has_prompts),
{
    let mut entries: Vec<String> = Vec::new();
    if has_resources {
        entries.push(String::from_str("\"resources\":{\"listChanged\":true}"));
    }
    if has_tools {
        entries.push(String::from_str("\"tools\":{\"listChanged\":true}"));
    }
    if has_prompts {
        entries.push(String::from_str("\"prompts\":{\"listChanged\":true}"));
    }
    assert(entries.deep_view() =~= spec_caps_entries(has_tools, has_resources, has_prompts));
    out.append("{");
    append_join_comma(out, &entries);
    out.append("}");
}

/// The `initialize` result object: the protocol version, the
/// capability advertisement, the server identity and its instructions.
pub open spec fn spec_init_result(
    name: Seq<char>,
    version: Seq<char>,
    instructions: Seq<char>,
    protocol_version: Seq<char>,
    has_tools: bool,
    has_resources: bool,
    has_prompts: bool,
) -> Seq<char> {
    "{\"protocolVersion\":"@ + spec_quoted(protocol_version) + ",\"capabilities\":"@
        + spec_capabilities(has_tools, has_resources, has_prompts) + ",\"serverInfo\":{\"name\":"@
        + spec_quoted(name) + ",\"version\":"@ + spec_quoted(version) + "},\"instructions\":"@
        + spec_quoted(instructions) + "}"@
}

/// Compiles the `initialize` response.  A capability kind appears in
/// `capabilities` exactly when its flag is set.
pub fn compile_init_response(
    name: &str,
    version: &str,
    instructions: &str,
    protocol_version: &str,
    id: i64,
    has_tools: bool,
    has_resources: bool,
    has_prompts: bool,
) -> (r: String)
    ensures
        r@ == spec_rpc_frame(
            id as int,
            spec_init_result(
                name@,
                version@,
                instructions@,
                protocol_version@,
                has_tools,
                has_resources,
                has_prompts,
            ),
        ),
{
    let mut body = String::from_str("{\"protocolVersion\":");
    append_quoted(&mut body, protocol_version);
    body.append(",\"capabilities\":");
    append_capabilities(&mut body, has_tools, has_resources, has_prompts);
    body.append(",\"serverInfo\":{\"name\":");
    append_quoted(&mut body, name);
    body.append(",\"version\":");
    append_quoted(&mut body, version);
    body.append("},\"instructions\":");
    append_quoted(&mut body, instructions);
    body.append("}");
    assert(body@ =~= spec_init_result(
        name@,
        version@,
        instructions@,
        protocol_version@,
        has_tools,
        has_resources,
        has_prompts,
    ));
    build(body.as_str(), id)
}

/// One entry of the tool listing; the input and output schemas are
/// embedded as already rendered JSON, and both are always present.
pub open spec fn spec_tool_entry(t: SpecTool) -> Seq<char> {
    "{\"name\":"@ + spec_quoted(t.name) + ",\"description\":"@ + spec_quoted(t.description)
        + ",\"inputSchema\":"@ + t.input + ",\"outputSchema\":"@ + t.output + "}"@
}

/// The `tools/list` result object.
pub open spec fn spec_tools_result(ts: Seq<SpecTool>) -> Seq<char> {
    "{\"tools\":["@ + spec_join_comma(ts.map_values(|t: SpecTool| spec_tool_entry(t))) + "]}"@
}

fn tool_entry(t: &ToolCallSchemaData) -> (r: String)
    ensures
        r@ == spec_tool_entry(t@),
{
    let mut e = String::from_str("{\"name\":");
    append_quoted(&mut e, t.name.as_str());
    e.append(",\"description\":");
    append_quoted(&mut e, t.description.as_str());
    e.append(",\"inputSchema\":");
    e.append(t.input.as_str());
    e.append(",\"outputSchema\":");
    e.append(t.output.as_str());
    e.append("}");
    assert(e@ =~= spec_tool_entry(t@));
    e
}

/// Compiles the `tools/list` response.
pub fn compile_tool_calls(tools: &Vec<ToolCallSchemaData>, id: i64) -> (r: String)
    ensures
        r@ == spec_rpc_frame(id as int, spec_tools_result(tools.deep_view())),
{
    let ghost ts = tools.deep_view();
    let mut entries: Vec<String> = Vec::new();
    let mut i: usize = 0;
    assert(ts.take(0).map_values(|t: SpecTool| spec_tool_entry(t)) =~= Seq::<Seq<char>>::empty());
    while i < tools.len()
        invariant
            i <= tools.len(),
            ts == tools.deep_view(),
            entries.deep_view() == ts.take(i as int).map_values(|t: SpecTool| spec_tool_entry(t)),
        decreases tools.len() - i,
    {
        entries.push(tool_entry(&tools[i]));
        proof {
            assert(ts[i as int] == tools[i as int]@);
            assert(ts.take(i + 1).map_values(|t: SpecTool| spec_tool_entry(t)) =~= ts.take(
                i as int,
            ).map_values(|t: SpecTool| spec_tool_entry(t)).push(spec_tool_entry(ts[i as int])));
        }
        i = i + 1;
    }
    assert(ts.take(tools.len() as int) =~= ts);
    let mut body = String::from_str("{\"tools\":[");
    append_join_comma(&mut body, &entries);
    body.append("]}");
    assert(body@ =~= spec_tools_result(ts));
    build(body.as_str(), id)
}

/// One entry of a prompt's argument listing.
pub open spec fn spec_prompt_arg_entry(a: SpecPromptArgument) -> Seq<char> {
    "{\"name\":"@ + spec_quoted(a.name) + ",\"description\":"@ + spec_quoted(a.description)
        + ",\"required\":"@ + spec_bool_str(a.required) + "}"@
}

/// One entry of the prompt listing.
pub open spec fn spec_prompt_entry(p: SpecPromptSchema) -> Seq<char> {
    "{\"name\":"@ + spec_quoted(p.name) + ",\"description\":"@ + spec_quoted(p.description)
        + ",\"arguments\":["@ + spec_join_comma(
        p.arguments.map_values(|a: SpecPromptArgument| spec_prompt_arg_entry(a)),
    ) + "]}"@
}

/// The `prompts/list` result object.
pub open spec fn spec_prompts_result(ps: Seq<SpecPromptSchema>) -> Seq<char> {
    "{\"prompts\":["@ + spec_join_comma(
        ps.map_values(|p: SpecPromptSchema| spec_prompt_entry(p)),
    ) + "]}"@
}

fn prompt_entry(p: &PromptSchemaData) -> (r: String)
    ensures
        r@ == spec_prompt_entry(p@),
{
    let ghost args = p.argument_descriptions.deep_view();
    let mut arg_entries: Vec<String> = Vec::new();
    let mut i: usize = 0;
    assert(args.take(0).map_values(|a: SpecPromptArgument| spec_prompt_arg_entry(a)) =~= Seq::<
        Seq<char>,
    >::empty());
    while i < p.argument_descriptions.len()
        invariant
            i <= p.argument_descriptions.len(),
            args == p.argument_descriptions.deep_view(),
            arg_entries.deep_view() == args.take(i as int).map_values(
                |a: SpecPromptArgument| spec_prompt_arg_entry(a),
            ),
        decreases p.argument_descriptions.len() - i,
    {
        let a = &p.argument_descriptions[i];
        let mut e = String::from_str("{\"name\":");
        append_quoted(&mut e, a.name.as_str());
        e.append(",\"description\":");
        append_quoted(&mut e, a.description.as_str());
        e.append(",\"required\":");
        append_bool(&mut e, a.required);
        e.append("}");
        assert(e@ =~= spec_prompt_arg_entry(args[i as int]));
        arg_entries.push(e);
        proof {
            assert(args.take(i + 1).map_values(|a: SpecPromptArgument| spec_prompt_arg_entry(a))
                =~= args.take(i as int).map_values(
                |a: SpecPromptArgument| spec_prompt_arg_entry(a),
            ).push(spec_prompt_arg_entry(args[i as int])));
        }
        i = i + 1;
    }
    assert(args.take(p.argument_descriptions.len() as int) =~= args);
    let mut e = String::from_str("{\"name\":");
    append_quoted(&mut e, p.name.as_str());
    e.append(",\"description\":");
    append_quoted(&mut e, p.description.as_str());
    e.append(",\"arguments\":[");
    append_join_comma(&mut e, &arg_entries);
    e.append("]}");
    assert(e@ =~= spec_prompt_entry(p@));
    e
}

/// Compiles the `prompts/list` response.
pub fn compile_prompts_list(prompts: &Vec<PromptSchemaData>, id: i64) -> (r: String)
    ensures
        r@ == spec_rpc_frame(id as int, spec_prompts_result(prompts.deep_view())),
{
    let ghost ps = prompts.deep_view();
    let mut entries: Vec<String> = Vec::new();
    let mut i: usize = 0;
    assert(ps.take(0).map_values(|p: SpecPromptSchema| spec_prompt_entry(p)) =~= Seq::<
        Seq<char>,
    >::empty());
    while i < prompts.len()
        invariant
            i <= prompts.len(),
            ps == prompts.deep_view(),
            entries.deep_view() == ps.take(i as int).map_values(
                |p: SpecPromptSchema| spec_prompt_entry(p),
            ),
        decreases prompts.len() - i,
    {
        entries.push(prompt_entry(&prompts[i]));
        proof {
            assert(ps[i as int] == prompts[i as int]@);
            assert(ps.take(i + 1).map_values(|p: SpecPromptSchema| spec_prompt_entry(p)) =~= ps.take(
                i as int,
            ).map_values(|p: SpecPromptSchema| spec_prompt_entry(p)).push(
                spec_prompt_entry(ps[i as int]),
            ));
        }
        i = i + 1;
    }
    assert(ps.take(prompts.len() as int) =~= ps);
    let mut body = String::from_str("{\"prompts\":[");
    append_join_comma(&mut body, &entries);
    body.append("]}");
    assert(body@ =~= spec_prompts_result(ps));
    build(body.as_str(), id)
}

/// The `prompts/get` result object: the description and one user
/// message carrying the produced text.
pub open spec fn spec_get_prompt_result(description: Seq<char>, message: Seq<char>) -> Seq<char> {
    "{\"description\":"@ + spec_quoted(description)
        + ",\"messages\":[{\"role\":\"user\",\"content\":{\"type\":\"text\",\"text\":"@
        + spec_quoted(message) + "}}]}"@
}

/// Compiles the `prompts/get` response.
pub fn compile_get_prompt_response(response: &PromptExecutionResult, id: i64) -> (r: String)
    ensures
        r@ == spec_rpc_frame(
            id as int,
            spec_get_prompt_result(response.description@, response.message@),
        ),
{
    let mut body = String::from_str("{\"description\":");
    append_quoted(&mut body, response.description.as_str());
    body.append(",\"messages\":[{\"role\":\"user\",\"content\":{\"type\":\"text\",\"text\":");
    append_quoted(&mut body, response.message.as_str());
    body.append("}}]}");
    assert(body@ =~= spec_get_prompt_result(response.description@, response.message@));
    build(body.as_str(), id)
}

/// One icon of a resource entry; `sizes` is always an array, possibly
/// empty, of strings.
pub open spec fn spec_icon_entry(ic: SpecIcon) -> Seq<char> {
    "{\"src\":"@ + spec_quoted(ic.src) + ",\"mimeType\":"@ + spec_quoted(ic.mime_type)
        + ",\"sizes\":["@ + spec_join_comma(ic.sizes.map_values(|s: Seq<char>| spec_quoted(s)))
        + "]}"@
}

/// One entry of the resource listing.  The optional fields `title`,
/// `size` and `icons` appear exactly when present (for icons:
/// non-empty); absence writes nothing, never a null placeholder.
pub open spec fn spec_resource_entry(d: SpecResource) -> Seq<char> {
    "{\"uri\":"@ + spec_quoted(d.uri) + ",\"name\":"@ + spec_quoted(d.name) + ",\"description\":"@
        + spec_quoted(d.description) + ",\"mimeType\":"@ + spec_quoted(d.mime_type) + (match d.title {
        Some(t) => ",\"title\":"@ + spec_quoted(t),
        None => Seq::<char>::empty(),
    }) + (match d.size {
        Some(s) => ",\"size\":"@ + spec_u64_str(s as int),
        None => Seq::<char>::empty(),
    }) + (if d.icons.len() > 0 {
        ",\"icons\":["@ + spec_join_comma(d.icons.map_values(|ic: SpecIcon| spec_icon_entry(ic)))
            + "]"@
    } else {
        Seq::<char>::empty()
    }) + "}"@
}

/// The `resources/list` result object; `nextCursor` appears exactly
/// when a continuation cursor was produced.
pub open spec fn spec_resources_result(ds: Seq<SpecResource>, cursor: Option<Seq<char>>) -> Seq<
    char,
> {
    "{\"resources\":["@ + spec_join_comma(
        ds.map_values(|d: SpecResource| spec_resource_entry(d)),
    ) + "]"@ + (match cursor {
        Some(c) => ",\"nextCursor\":"@ + spec_quoted(c),
        None => Seq::<char>::empty(),
    }) + "}"@
}

fn icon_entry(ic: &crate::resources::ResourceIcon) -> (r: String)
    ensures
        r@ == spec_icon_entry(ic@),
{
    let ghost sizes = ic.sizes.deep_view();
    let mut size_entries: Vec<String> = Vec::new();
    let mut i: usize = 0;
    assert(sizes.take(0).map_values(|s: Seq<char>| spec_quoted(s)) =~= Seq::<Seq<char>>::empty());
    while i < ic.sizes.len()
        invariant
            i <= ic.sizes.len(),
            sizes == ic.sizes.deep_view(),
            size_entries.deep_view() == sizes.take(i as int).map_values(
                |s: Seq<char>| spec_quoted(s),
            ),
        decreases ic.sizes.len() - i,
    {
        let mut q = String::new();
        append_quoted(&mut q, ic.sizes[i].as_str());
        assert(q@ =~= spec_quoted(sizes[i as int]));
        size_entries.push(q);
        proof {
            assert(sizes.take(i + 1).map_values(|s: Seq<char>| spec_quoted(s)) =~= sizes.take(
                i as int,
            ).map_values(|s: Seq<char>| spec_quoted(s)).push(spec_quoted(sizes[i as int])));
        }
        i = i + 1;
    }
    assert(sizes.take(ic.sizes.len() as int) =~= sizes);
    let mut e = String::from_str("{\"src\":");
    append_quoted(&mut e, ic.src.as_str());
    e.append(",\"mimeType\":");
    append_quoted(&mut e, ic.mime_type.as_str());
    e.append(",\"sizes\":[");
    append_join_comma(&mut e, &size_entries);
    e.append("]}");
    assert(e@ =~= spec_icon_entry(ic@));
    e
}

#[verifier::rlimit(50)]
fn resource_entry(d: &ResourceSchemaData) -> (r: String)
    ensures
        r@ == spec_resource_entry(d@),
{
    let mut e = String::from_str("{\"uri\":");
    append_quoted(&mut e, d.uri.as_str());
    e.append(",\"name\":");
    append_quoted(&mut e, d.name.as_str());
    e.append(",\"description\":");
    append_quoted(&mut e, d.description.as_str());
    e.append(",\"mimeType\":");
    append_quoted(&mut e, d.mime_type.as_str());
    match &d.title {
        Some(t) => {
            e.append(",\"title\":");
            append_quoted(&mut e, t.as_str());
        },
        None => {},
    }
    match &d.size {
        Some(s) => {
            e.append(",\"size\":");
            append_u64(&mut e, *s);
        },
        None => {},
    }
    if d.icons.len() > 0 {
        let ghost icons = d.icons.deep_view();
        let mut icon_entries: Vec<String> = Vec::new();
        let mut i: usize = 0;
        assert(icons.take(0).map_values(|ic: SpecIcon| spec_icon_entry(ic)) =~= Seq::<
            Seq<char>,
        >::empty());
        while i < d.icons.len()
            invariant
                i <= d.icons.len(),
                icons == d.icons.deep_view(),
                icon_entries.deep_view() == icons.take(i as int).map_values(
                    |ic: SpecIcon| spec_icon_entry(ic),
                ),
            decreases d.icons.len() - i,
        {
            icon_entries.push(icon_entry(&d.icons[i]));
            proof {
                assert(icons[i as int] == d.icons[i as int]@);
                assert(icons.take(i + 1).map_values(|ic: SpecIcon| spec_icon_entry(ic))
                    =~= icons.take(i as int).map_values(|ic: SpecIcon| spec_icon_entry(ic)).push(
                    spec_icon_entry(icons[i as int]),
                ));
            }
            i = i + 1;
        }
        assert(icons.take(d.icons.len() as int) =~= icons);
        e.append(",\"icons\":[");
        append_join_comma(&mut e, &icon_entries);
        e.append("]");
    }
    e.append("}");
    assert(e@ =~= spec_resource_entry(d@));
    e
}

/// Compiles the `resources/list` response.
pub fn compile_resources_list(
    resources: &Vec<ResourceSchemaData>,
    id: i64,
    next_cursor: Option<&str>,
) -> (r: String)
    ensures
        r@ == spec_rpc_frame(
            id as int,
            spec_resources_result(
                resources.deep_view(),
                (match next_cursor {
                    Some(c) => Some(c@),
                    None => None,
                }),
            ),
        ),
{
    let ghost ds = resources.deep_view();
    let mut entries: Vec<String> = Vec::new();
    let mut i: usize = 0;
    assert(ds.take(0).map_values(|d: SpecResource| spec_resource_entry(d)) =~= Seq::<
        Seq<char>,
    >::empty());
    while i < resources.len()
        invariant
            i <= resources.len(),
            ds == resources.deep_view(),
            entries.deep_view() == ds.take(i as int).map_values(
                |d: SpecResource| spec_resource_entry(d),
            ),
        decreases resources.len() - i,
    {
        entries.push(resource_entry(&resources[i]));
        proof {
            assert(ds[i as int] == resources[i as int]@);
            assert(ds.take(i + 1).map_values(|d: SpecResource| spec_resource_entry(d)) =~= ds.take(
                i as int,
            ).map_values(|d: SpecResource| spec_resource_entry(d)).push(
                spec_resource_entry(ds[i as int]),
            ));
        }
        i = i + 1;
    }
    assert(ds.take(resources.len() as int) =~= ds);
    let mut body = String::from_str("{\"resources\":[");
    append_join_comma(&mut body, &entries);
    body.append("]");
    match next_cursor {
        Some(c) => {
            body.append(",\"nextCursor\":");
            append_quoted(&mut body, c);
        },
        None => {},
    }
    body.append("}");
    assert(body@ =~= spec_resources_result(
        ds,
        (match next_cursor {
            Some(c) => Some(c@),
            None => None,
        }),
    ));
    build(body.as_str(), id)
}

/// One entry of a read result; exactly the populated one of `text`
/// and `blob` is written.
pub open spec fn spec_content_entry(c: SpecContent) -> Seq<char> {
    "{\"uri\":"@ + spec_quoted(c.uri) + ",\"mimeType\":"@ + spec_quoted(c.mime_type) + (match c.text {
        Some(t) => ",\"text\":"@ + spec_quoted(t),
        None => Seq::<char>::empty(),
    }) + (match c.blob {
        Some(b) => ",\"blob\":"@ + spec_quoted(b),
        None => Seq::<char>::empty(),
    }) + "}"@
}

/// The `resources/read` result object.
pub open spec fn spec_read_result(cs: Seq<SpecContent>) -> Seq<char> {
    "{\"contents\":["@ + spec_join_comma(cs.map_values(|c: SpecContent| spec_content_entry(c)))
        + "]}"@
}

fn content_entry(c: &ResourceContent) -> (r: String)
    ensures
        r@ == spec_content_entry(c@),
{
    let mut e = String::from_str("{\"uri\":");
    append_quoted(&mut e, c.uri.as_str());
    e.append(",\"mimeType\":");
    append_quoted(&mut e, c.mime_type.as_str());
    match &c.text {
        Some(t) => {
            e.append(",\"text\":");
            append_quoted(&mut e, t.as_str());
        },
        None => {},
    }
    match &c.blob {
        Some(b) => {
            e.append(",\"blob\":");
            append_quoted(&mut e, b.as_str());
        },
        None => {},
    }
    e.append("}");
    assert(e@ =~= spec_content_entry(c@));
    e
}

/// Compiles the `resources/read` response.
pub fn compile_read_resource_response(response: &ResourceReadResult, id: i64) -> (r: String)
    ensures
        r@ == spec_rpc_frame(id as int, spec_read_result(response@)),
{
    let ghost cs = response.contents.deep_view();
    let mut entries: Vec<String> = Vec::new();
    let mut i: usize = 0;
    assert(cs.take(0).map_values(|c: SpecContent| spec_content_entry(c)) =~= Seq::<
        Seq<char>,
    >::empty());
    while i < response.contents.len()
        invariant
            i <= response.contents.len(),
            cs == response.contents.deep_view(),
            entries.deep_view() == cs.take(i as int).map_values(
                |c: SpecContent| spec_content_entry(c),
            ),
        decreases response.contents.len() - i,
    {
        entries.push(content_entry(&response.contents[i]));
        proof {
            assert(cs[i as int] == response.contents[i as int]@);
            assert(cs.take(i + 1).map_values(|c: SpecContent| spec_content_entry(c)) =~= cs.take(
                i as int,
            ).map_values(|c: SpecContent| spec_content_entry(c)).push(
                spec_content_entry(cs[i as int]),
            ));
        }
        i = i + 1;
    }
    assert(cs.take(response.contents.len() as int) =~= cs);
    let mut body = String::from_str("{\"contents\":[");
    append_join_comma(&mut body, &entries);
    body.append("]}");
    assert(body@ =~= spec_read_result(response@));
    build(body.as_str(), id)
}

/// The tool-call result object: always a `content` array with one text
/// entry and always `isError`; `structuredContent` embeds the raw
/// response exactly when the call did not error.
pub open spec fn spec_tool_call_result(response: Seq<char>, is_error: bool) -> Seq<char> {
    "{\"content\":[{\"type\":\"text\",\"text\":"@ + spec_quoted(response) + "}]"@ + (if !is_error {
        ",\"structuredContent\":"@ + response
    } else {
        Seq::<char>::empty()
    }) + ",\"isError\":"@ + spec_bool_str(is_error) + "}"@
}

/// Compiles the `tools/call` response.
pub fn compile_execute_tool_call_response(response: &str, id: i64, is_error: bool) -> (r: String)
    ensures
        r@ == spec_rpc_frame(id as int, spec_tool_call_result(response@, is_error)),
{
    let mut body = String::from_str("{\"content\":[{\"type\":\"text\",\"text\":");
    append_quoted(&mut body, response);
    body.append("}]");
    if !is_error {
        body.append(",\"structuredContent\":");
        body.append(response);
    }
    body.append(",\"isError\":");
    append_bool(&mut body, is_error);
    body.append("}");
    assert(body@ =~= spec_tool_call_result(response@, is_error));
    build(body.as_str(), id)
}

/// Capability negotiation: the `capabilities` object of the
/// `initialize` response carries a kind's sub-object exactly when that
/// kind's registry reported itself non-empty — independently for
/// tools, resources and prompts.
pub proof fn lemma_capabilities_iff(has_tools: bool, has_resources: bool, has_prompts: bool)
    ensures
        spec_caps_entries(has_tools, has_resources, has_prompts).contains(
            "\"tools\":{\"listChanged\":true}"@,
        ) <==> has_tools,
        spec_caps_entries(has_tools, has_resources, has_prompts).contains(
            "\"resources\":{\"listChanged\":true}"@,
        ) <==> has_resources,
        spec_caps_entries(has_tools, has_resources, has_prompts).contains(
            "\"prompts\":{\"listChanged\":true}"@,
        ) <==> has_prompts,
{
    let rs = "\"resources\":{\"listChanged\":true}"@;
    let ts = "\"tools\":{\"listChanged\":true}"@;
    let ps = "\"prompts\":{\"listChanged\":true}"@;
    assert(rs.len() == 32 && ts.len() == 28 && ps.len() == 30) by {
        reveal_strlit("\"resources\":{\"listChanged\":true}");
        reveal_strlit("\"tools\":{\"listChanged\":true}");
        reveal_strlit("\"prompts\":{\"listChanged\":true}");
    }
    let entries = spec_caps_entries(has_tools, has_resources, has_prompts);
    if has_resources {
        assert(entries[0] == rs);
        assert(entries.contains(rs));
    }
    if has_tools {
        let i: int = if has_resources {
            1
        } else {
            0
        };
        assert(entries[i] == ts);
        assert(entries.contains(ts));
    }
    if has_prompts {
        let i: int = (if has_resources {
            1int
        } else {
            0int
        }) + (if has_tools {
            1int
        } else {
            0int
        });
        assert(entries[i] == ps);
        assert(entries.contains(ps));
    }
    assert(forall|j: int| 0 <= j < entries.len() ==> (#[trigger] entries[j] == rs || entries[j]
        == ts || entries[j] == ps));
    if !has_resources {
        assert(forall|j: int| 0 <= j < entries.len() ==> #[trigger] entries[j] != rs);
    }
    if !has_tools {
        assert(forall|j: int| 0 <= j < entries.len() ==> #[trigger] entries[j] != ts);
    }
    if !has_prompts {
        assert(forall|j: int| 0 <= j < entries.len() ==> #[trigger] entries[j] != ps);
    }
}

/// Resources-list optional fields appear exactly when present: a
/// descriptor with no title, no size and no icons renders as the four
/// required fields alone, and a listing with no continuation cursor
/// carries no `nextCursor` — nothing is written as a null or empty
/// placeholder.
#[verifier::rlimit(60)]
pub proof fn lemma_resources_list_optional(d: SpecResource, ds: Seq<SpecResource>, t: Seq<char>)
    ensures
        (d.title is None && d.size is None && d.icons.len() == 0) ==> spec_resource_entry(d)
            == "{\"uri\":"@ + spec_quoted(d.uri) + ",\"name\":"@ + spec_quoted(d.name)
            + ",\"description\":"@ + spec_quoted(d.description) + ",\"mimeType\":"@ + spec_quoted(
            d.mime_type,
        ) + "}"@,
        (d.title == Some(t) && d.size is None && d.icons.len() == 0) ==> spec_resource_entry(d)
            == "{\"uri\":"@ + spec_quoted(d.uri) + ",\"name\":"@ + spec_quoted(d.name)
            + ",\"description\":"@ + spec_quoted(d.description) + ",\"mimeType\":"@ + spec_quoted(
            d.mime_type,
        ) + ",\"title\":"@ + spec_quoted(t) + "}"@,
        spec_resources_result(ds, None) == "{\"resources\":["@ + spec_join_comma(
            ds.map_values(|x: SpecResource| spec_resource_entry(x)),
        ) + "]"@ + "}"@,
        spec_resources_result(ds, Some(t)) == "{\"resources\":["@ + spec_join_comma(
            ds.map_values(|x: SpecResource| spec_resource_entry(x)),
        ) + "]"@ + ",\"nextCursor\":"@ + spec_quoted(t) + "}"@,
{
    if d.title is None && d.size is None && d.icons.len() == 0 {
        assert(spec_resource_entry(d) =~= "{\"uri\":"@ + spec_quoted(d.uri) + ",\"name\":"@
            + spec_quoted(d.name) + ",\"description\":"@ + spec_quoted(d.description)
            + ",\"mimeType\":"@ + spec_quoted(d.mime_type) + "}"@);
    }
    if d.title == Some(t) && d.size is None && d.icons.len() == 0 {
        assert(spec_resource_entry(d) =~= "{\"uri\":"@ + spec_quoted(d.uri) + ",\"name\":"@
            + spec_quoted(d.name) + ",\"description\":"@ + spec_quoted(d.description)
            + ",\"mimeType\":"@ + spec_quoted(d.mime_type) + ",\"title\":"@ + spec_quoted(t)
            + "}"@);
    }
    assert(spec_resources_result(ds, None) =~= "{\"resources\":["@ + spec_join_comma(
        ds.map_values(|x: SpecResource| spec_resource_entry(x)),
    ) + "]"@ + "}"@);
    assert(spec_resources_result(ds, Some(t)) =~= "{\"resources\":["@ + spec_join_comma(
        ds.map_values(|x: SpecResource| spec_resource_entry(x)),
    ) + "]"@ + ",\"nextCursor\":"@ + spec_quoted(t) + "}"@);
}

/// The tool-call result always carries the text content entry and the
/// `isError` flag, and carries `structuredContent` exactly when the
/// call did not error.
pub proof fn lemma_tool_call_result_shape(response: Seq<char>)
    ensures
        spec_tool_call_result(response, false) == "{\"content\":[{\"type\":\"text\",\"text\":"@
            + spec_quoted(response) + "}]"@ + ",\"structuredContent\":"@ + response
            + ",\"isError\":"@ + "false"@ + "}"@,
        spec_tool_call_result(response, true) == "{\"content\":[{\"type\":\"text\",\"text\":"@
            + spec_quoted(response) + "}]"@ + ",\"isError\":"@ + "true"@ + "}"@,
{
    assert(spec_tool_call_result(response, false) =~= "{\"content\":[{\"type\":\"text\",\"text\":"@
        + spec_quoted(response) + "}]"@ + ",\"structuredContent\":"@ + response
        + ",\"isError\":"@ + "false"@ + "}"@);
    assert(spec_tool_call_result(response, true) =~= "{\"content\":[{\"type\":\"text\",\"text\":"@
        + spec_quoted(response) + "}]"@ + ",\"isError\":"@ + "true"@ + "}"@);
}

/// Compiles the `ping` response: an empty result object.
pub fn build_ping_response(id: i64) -> (r: String)
    ensures
        r@ == spec_rpc_frame(id as int, "{}"@),
{
    build("{}", id)
}

} // verus!
