//! The inbound side: decoding one request envelope and building the
//! typed request model.  The envelope decoder walks the top-level pairs
//! of the JSON object once, keeps the raw span of `params`, and defers
//! the parameter shape to the request kind that consumes it.

use vstd::prelude::*;
use vstd::string::*;
use crate::json_text::{
    dedup_last_wins, object_pairs, spec_last_wins, spec_object_pairs, spec_string_content,
    spec_unescape, str_eq, string_content, unescape,
};

verus! {

/// A structured decode failure.  `MissingVersion` and `MissingMethod`
/// name the two required envelope fields; `InvalidId` an `id` that is
/// not a base-10 integer; `Malformed` a byte stream that is not one
/// JSON object; `InvalidParams` a parameter payload whose shape does
/// not fit the method that owns it.
#[derive(Debug, Clone, Copy, PartialEq, Eq, Structural)]
pub enum DecodeError {
    MissingVersion,
    MissingMethod,
    InvalidId,
    Malformed,
    InvalidParams,
}

/// The request model at the specification level: what each decoded
/// request stands for, over character sequences.
pub enum SpecRequest {
    Initialize { protocol_version: Seq<char> },
    ResourcesList { cursor: Option<Seq<char>> },
    ReadResource { uri: Seq<char> },
    SubscribeResource { uri: Seq<char> },
    NotificationsInitialize,
    ToolsList,
    PromptsList,
    ExecuteToolCall { name: Seq<char>, arguments: Seq<char> },
    GetPrompt { name: Seq<char>, arguments: Option<Seq<(Seq<char>, Seq<char>)>> },
    Ping,
    Other { method: Seq<char>, data: Seq<char> },
}

#[derive(Debug, Clone)]
pub struct InitializeMpcContract {
    pub protocol_version: String,
}

impl View for InitializeMpcContract {
    type V = Seq<char>;

    open spec fn view(&self) -> Seq<char> {
        self.protocol_version@
    }
}

#[derive(Debug, Clone)]
pub struct ResourcesListModel {
    pub cursor: Option<String>,
}

impl View for ResourcesListModel {
    type V = Option<Seq<char>>;

    open spec fn view(&self) -> Option<Seq<char>> {
        self.cursor.deep_view()
    }
}

#[derive(Debug, Clone)]
pub struct ReadResourceModel {
    pub uri: String,
}

impl View for ReadResourceModel {
    type V = Seq<char>;

    open spec fn view(&self) -> Seq<char> {
        self.uri@
    }
}

#[derive(Debug, Clone)]
pub struct SubscribeResourceModel {
    pub uri: String,
}

impl View for SubscribeResourceModel {
    type V = Seq<char>;

    open spec fn view(&self) -> Seq<char> {
        self.uri@
    }
}

/// The tool-call parameters: the tool's name and its arguments kept as
/// the raw JSON text of the `arguments` value.
#[derive(Debug, Clone)]
pub struct ExecuteToolCallModel {
    pub name: String,
    pub arguments: String,
}

/// The get-prompt parameters: the prompt's name and, when given, its
/// arguments as name/value pairs, each key once with its last given
/// value.
#[derive(Debug, Clone)]
pub struct GetPromptModel {
    pub name: String,
    pub arguments: Option<Vec<(String, String)>>,
}

/// A decoded request.
#[derive(Debug)]
pub enum McpInputData {
    Initialize(InitializeMpcContract),
    ResourcesList(ResourcesListModel),
    ReadResource(ReadResourceModel),
    SubscribeResource(SubscribeResourceModel),
    NotificationsInitialize,
    ToolsList,
    PromptsList,
    ExecuteToolCall(ExecuteToolCallModel),
    GetPrompt(GetPromptModel),
    Ping,
    Other { method: String, data: String },
}

impl View for McpInputData {
    type V = SpecRequest;

    open spec fn view(&self) -> SpecRequest {
        match self {
            McpInputData::Initialize(m) => SpecRequest::Initialize { protocol_version: m@ },
            McpInputData::ResourcesList(m) => SpecRequest::ResourcesList { cursor: m@ },
            McpInputData::ReadResource(m) => SpecRequest::ReadResource { uri: m@ },
            McpInputData::SubscribeResource(m) => SpecRequest::SubscribeResource { uri: m@ },
            McpInputData::NotificationsInitialize => SpecRequest::NotificationsInitialize,
            McpInputData::ToolsList => SpecRequest::ToolsList,
            McpInputData::PromptsList => SpecRequest::PromptsList,
            McpInputData::ExecuteToolCall(m) => SpecRequest::ExecuteToolCall {
                name: m.name@,
                arguments: m.arguments@,
            },
            McpInputData::GetPrompt(m) => SpecRequest::GetPrompt {
                name: m.name@,
                arguments: m.arguments.deep_view(),
            },
            McpInputData::Ping => SpecRequest::Ping,
            McpInputData::Other { method, data } => SpecRequest::Other {
                method: method@,
                data: data@,
            },
        }
    }
}

/// The value under `key`, when several occur the last one.
pub open spec fn spec_lookup(ps: Seq<(Seq<char>, Seq<char>)>, key: Seq<char>) -> Option<Seq<char>>
    decreases ps.len(),
{
    if ps.len() == 0 {
        None
    } else if ps.last().0 == key {
        Some(ps.last().1)
    } else {
        spec_lookup(ps.drop_last(), key)
    }
}

/// Finds the last value under `key`, as [`spec_lookup`] defines.
pub fn lookup_last(pairs: &Vec<(String, String)>, key: &str) -> (r: Option<String>)
    ensures
        (match spec_lookup(pairs.deep_view(), key@) {
            Some(v) => r matches Some(u) && u@ == v,
            None => r is None,
        }),
{
    let ghost ps = pairs.deep_view();
    let mut i: usize = pairs.len();
    assert(ps.take(pairs.len() as int) =~= ps);
    while i > 0
        invariant
            i <= pairs.len(),
            ps == pairs.deep_view(),
            spec_lookup(ps, key@) == spec_lookup(ps.take(i as int), key@),
        decreases i,
    {
        let j = i - 1;
        assert(ps.take(i as int).last() == ps[j as int]);
        assert(ps.take(i as int).drop_last() =~= ps.take(j as int));
        assert(ps[j as int] == (pairs[j as int].0@, pairs[j as int].1@));
        if str_eq(pairs[j].0.as_str(), key) {
            return Some(pairs[j].1.clone());
        }
        i = j;
    }
    assert(ps.take(0) =~= Seq::<(Seq<char>, Seq<char>)>::empty());
    None
}

/// The protocol version out of an `initialize` parameter object.
pub open spec fn spec_init_params(params: Seq<char>) -> Option<Seq<char>> {
    match spec_object_pairs(params) {
        Some(ps) => match spec_lookup(ps, "protocolVersion"@) {
            Some(v) => spec_string_content(v),
            None => None,
        },
        None => None,
    }
}

/// The URI out of a resource read/subscribe parameter object.
pub open spec fn spec_uri_param(params: Seq<char>) -> Option<Seq<char>> {
    match spec_object_pairs(params) {
        Some(ps) => match spec_lookup(ps, "uri"@) {
            Some(v) => spec_string_content(v),
            None => None,
        },
        None => None,
    }
}

/// The continuation cursor of a list request: absent, malformed or
/// null all fall back to no cursor, a string value is taken.
pub open spec fn spec_cursor_param(params: Seq<char>) -> Option<Seq<char>> {
    match spec_object_pairs(params) {
        Some(ps) => match spec_lookup(ps, "cursor"@) {
            Some(v) => spec_string_content(v),
            None => None,
        },
        None => None,
    }
}

/// Every pair of a prompt-argument object read as string to string:
/// the key unescaped, the value a JSON string.
pub open spec fn spec_string_args(ps: Seq<(Seq<char>, Seq<char>)>) -> Option<
    Seq<(Seq<char>, Seq<char>)>,
>
    decreases ps.len(),
{
    if ps.len() == 0 {
        Some(Seq::empty())
    } else {
        match (spec_unescape(ps[0].0), spec_string_content(ps[0].1), spec_string_args(ps.skip(1))) {
            (Some(k), Some(v), Some(rest)) => Some(seq![(k, v)] + rest),
            _ => None,
        }
    }
}

/// The get-prompt parameters: a required `name` string and an optional
/// `arguments` object of string values (`null` counts as absent; of a
/// repeated argument key the last occurrence wins).
pub open spec fn spec_get_prompt_params(params: Seq<char>) -> Option<
    (Seq<char>, Option<Seq<(Seq<char>, Seq<char>)>>),
> {
    match spec_object_pairs(params) {
        Some(ps) => match spec_lookup(ps, "name"@) {
            Some(nv) => match spec_string_content(nv) {
                Some(name) => match spec_lookup(ps, "arguments"@) {
                    None => Some((name, None)),
                    Some(raw) => if raw == "null"@ {
                        Some((name, None))
                    } else {
                        match spec_object_pairs(raw) {
                            Some(aps) => match spec_string_args(aps) {
                                Some(args) => Some((name, Some(spec_last_wins(args)))),
                                None => None,
                            },
                            None => None,
                        }
                    },
                },
                None => None,
            },
            None => None,
        },
        None => None,
    }
}

/// The tool-call parameters: a required `name` string and a required
/// `arguments` value, kept raw.
pub open spec fn spec_tool_call_params(params: Seq<char>) -> Option<(Seq<char>, Seq<char>)> {
    match spec_object_pairs(params) {
        Some(ps) => match spec_lookup(ps, "name"@) {
            Some(nv) => match spec_string_content(nv) {
                Some(name) => match spec_lookup(ps, "arguments"@) {
                    Some(raw) => Some((name, raw)),
                    None => None,
                },
                None => None,
            },
            None => None,
        },
        None => None,
    }
}

fn init_params(params: &str) -> (r: Option<String>)
    ensures
        (match spec_init_params(params@) {
            Some(v) => r matches Some(u) && u@ == v,
            None => r is None,
        }),
{
    match object_pairs(params) {
        Some(ps) => match lookup_last(&ps, "protocolVersion") {
            Some(v) => string_content(v.as_str()),
            None => None,
        },
        None => None,
    }
}

fn uri_param(params: &str) -> (r: Option<String>)
    ensures
        (match spec_uri_param(params@) {
            Some(v) => r matches Some(u) && u@ == v,
            None => r is None,
        }),
{
    match object_pairs(params) {
        Some(ps) => match lookup_last(&ps, "uri") {
            Some(v) => string_content(v.as_str()),
            None => None,
        },
        None => None,
    }
}

fn cursor_param(params: &str) -> (r: Option<String>)
    ensures
        (match spec_cursor_param(params@) {
            Some(v) => r matches Some(u) && u@ == v,
            None => r is None,
        }),
{
    match object_pairs(params) {
        Some(ps) => match lookup_last(&ps, "cursor") {
            Some(v) => string_content(v.as_str()),
            None => None,
        },
        None => None,
    }
}

fn string_args(pairs: &Vec<(String, String)>) -> (r: Option<Vec<(String, String)>>)
    ensures
        (match spec_string_args(pairs.deep_view()) {
            Some(args) => r matches Some(v) && v.deep_view() == args,
            None => r is None,
        }),
{
    let ghost ps = pairs.deep_view();
    let mut out: Vec<(String, String)> = Vec::new();
    let mut i: usize = 0;
    assert(ps.skip(0) =~= ps);
    while i < pairs.len()
        invariant
            i <= pairs.len(),
            ps == pairs.deep_view(),
            (spec_string_args(ps) is Some) <==> (spec_string_args(ps.skip(i as int)) is Some),
            spec_string_args(ps) is Some ==> spec_string_args(ps) == Some(
                out.deep_view() + spec_string_args(ps.skip(i as int))->Some_0,
            ),
        decreases pairs.len() - i,
    {
        let ghost suf = ps.skip(i as int);
        assert(suf[0] == ps[i as int]);
        assert(ps[i as int] == (pairs[i as int].0@, pairs[i as int].1@));
        assert(suf.skip(1) =~= ps.skip(i + 1));
        let k = match unescape(pairs[i].0.as_str()) {
            Some(k) => k,
            None => {
                return None;
            },
        };
        let v = match string_content(pairs[i].1.as_str()) {
            Some(v) => v,
            None => {
                return None;
            },
        };
        let ghost pair = (k@, v@);
        out.push((k, v));
        proof {
            if spec_string_args(ps.skip(i + 1)) is Some {
                let rest = spec_string_args(ps.skip(i + 1))->Some_0;
                assert(out.deep_view() + rest =~= (out.deep_view().drop_last()) + (seq![pair]
                    + rest));
            }
        }
        i = i + 1;
    }
    assert(ps.skip(pairs.len() as int) =~= Seq::<(Seq<char>, Seq<char>)>::empty());
    proof {
        if spec_string_args(ps) is Some {
            assert(out.deep_view() + Seq::<(Seq<char>, Seq<char>)>::empty() =~= out.deep_view());
        }
    }
    Some(out)
}

/// Which request a method name and a raw parameter span stand for.
/// Every unrecognized method is carried through as `Other`, never
/// dropped; a recognized method whose parameters do not fit fails with
/// `InvalidParams`, except `resources/list`, which falls back to no
/// cursor.
pub open spec fn spec_request(method: Seq<char>, params: Seq<char>) -> Result<
    SpecRequest,
    DecodeError,
> {
    if method == "initialize"@ {
        match spec_init_params(params) {
            Some(pv) => Ok(SpecRequest::Initialize { protocol_version: pv }),
            None => Err(DecodeError::InvalidParams),
        }
    } else if method == "notifications/initialized"@ {
        Ok(SpecRequest::NotificationsInitialize)
    } else if method == "resources/list"@ {
        Ok(SpecRequest::ResourcesList { cursor: spec_cursor_param(params) })
    } else if method == "resources/read"@ {
        match spec_uri_param(params) {
            Some(uri) => Ok(SpecRequest::ReadResource { uri }),
            None => Err(DecodeError::InvalidParams),
        }
    } else if method == "resources/subscribe"@ {
        match spec_uri_param(params) {
            Some(uri) => Ok(SpecRequest::SubscribeResource { uri }),
            None => Err(DecodeError::InvalidParams),
        }
    } else if method == "tools/list"@ {
        Ok(SpecRequest::ToolsList)
    } else if method == "prompts/list"@ {
        Ok(SpecRequest::PromptsList)
    } else if method == "prompts/get"@ {
        match spec_get_prompt_params(params) {
            Some((name, arguments)) => Ok(SpecRequest::GetPrompt { name, arguments }),
            None => Err(DecodeError::InvalidParams),
        }
    } else if method == "ping"@ {
        Ok(SpecRequest::Ping)
    } else if method == "tools/call"@ {
        match spec_tool_call_params(params) {
            Some((name, arguments)) => Ok(SpecRequest::ExecuteToolCall { name, arguments }),
            None => Err(DecodeError::InvalidParams),
        }
    } else {
        Ok(SpecRequest::Other { method: method, data: params })
    }
}

impl McpInputData {
    /// Builds the request model for one method name and raw parameter
    /// span, as [`spec_request`] defines.
    pub fn from_str(method: &str, params: &str) -> (r: Result<McpInputData, DecodeError>)
        ensures
            (match spec_request(method@, params@) {
                Ok(sr) => r matches Ok(d) && d@ == sr,
                Err(e) => r matches Err(e2) && e2 == e,
            }),
    {
        if str_eq(method, "initialize") {
            match init_params(params) {
                Some(pv) => Ok(McpInputData::Initialize(InitializeMpcContract {
                    protocol_version: pv,
                })),
                None => Err(DecodeError::InvalidParams),
            }
        } else if str_eq(method, "notifications/initialized") {
            Ok(McpInputData::NotificationsInitialize)
        } else if str_eq(method, "resources/list") {
            Ok(McpInputData::ResourcesList(ResourcesListModel { cursor: cursor_param(params) }))
        } else if str_eq(method, "resources/read") {
            match uri_param(params) {
                Some(uri) => Ok(McpInputData::ReadResource(ReadResourceModel { uri })),
                None => Err(DecodeError::InvalidParams),
            }
        } else if str_eq(method, "resources/subscribe") {
            match uri_param(params) {
                Some(uri) => Ok(McpInputData::SubscribeResource(SubscribeResourceModel { uri })),
                None => Err(DecodeError::InvalidParams),
            }
        } else if str_eq(method, "tools/list") {
            Ok(McpInputData::ToolsList)
        } else if str_eq(method, "prompts/list") {
            Ok(McpInputData::PromptsList)
        } else if str_eq(method, "prompts/get") {
            match object_pairs(params) {
                Some(ps) => match lookup_last(&ps, "name") {
                    Some(nv) => match string_content(nv.as_str()) {
                        Some(name) => match lookup_last(&ps, "arguments") {
                            None => Ok(McpInputData::GetPrompt(GetPromptModel {
                                name,
                                arguments: None,
                            })),
                            Some(raw) => {
                                if str_eq(raw.as_str(), "null") {
                                    Ok(McpInputData::GetPrompt(GetPromptModel {
                                        name,
                                        arguments: None,
                                    }))
                                } else {
                                    match object_pairs(raw.as_str()) {
                                        Some(aps) => match string_args(&aps) {
                                            Some(args) => Ok(McpInputData::GetPrompt(
                                                GetPromptModel {
                                                    name,
                                                    arguments: Some(dedup_last_wins(&args)),
                                                },
                                            )),
                                            None => Err(DecodeError::InvalidParams),
                                        },
                                        None => Err(DecodeError::InvalidParams),
                                    }
                                }
                            },
                        },
                        None => Err(DecodeError::InvalidParams),
                    },
                    None => Err(DecodeError::InvalidParams),
                },
                None => Err(DecodeError::InvalidParams),
            }
        } else if str_eq(method, "ping") {
            Ok(McpInputData::Ping)
        } else if str_eq(method, "tools/call") {
            match object_pairs(params) {
                Some(ps) => match lookup_last(&ps, "name") {
                    Some(nv) => match string_content(nv.as_str()) {
                        Some(name) => match lookup_last(&ps, "arguments") {
                            Some(raw) => Ok(McpInputData::ExecuteToolCall(ExecuteToolCallModel {
                                name,
                                arguments: raw,
                            })),
                            None => Err(DecodeError::InvalidParams),
                        },
                        None => Err(DecodeError::InvalidParams),
                    },
                    None => Err(DecodeError::InvalidParams),
                },
                None => Err(DecodeError::InvalidParams),
            }
        } else {
            Ok(McpInputData::Other {
                method: String::from_str(method),
                data: String::from_str(params),
            })
        }
    }
}

/// Every supported method decodes to the request variant of its own
/// kind, whatever the parameters: the variant tag is decided by the
/// method name alone, and the methods that validate parameters fail
/// only into `InvalidParams`.
pub proof fn lemma_method_dispatch(params: Seq<char>)
    ensures
        spec_request("ping"@, params) == Ok::<SpecRequest, DecodeError>(SpecRequest::Ping),
        spec_request("tools/list"@, params) == Ok::<SpecRequest, DecodeError>(
            SpecRequest::ToolsList,
        ),
        spec_request("prompts/list"@, params) == Ok::<SpecRequest, DecodeError>(
            SpecRequest::PromptsList,
        ),
        spec_request("notifications/initialized"@, params) == Ok::<SpecRequest, DecodeError>(
            SpecRequest::NotificationsInitialize,
        ),
        spec_request("resources/list"@, params) == Ok::<SpecRequest, DecodeError>(
            SpecRequest::ResourcesList { cursor: spec_cursor_param(params) },
        ),
        (spec_request("initialize"@, params) matches Ok(r) ==> r is Initialize),
        (spec_request("resources/read"@, params) matches Ok(r) ==> r is ReadResource),
        (spec_request("resources/subscribe"@, params) matches Ok(r) ==> r is SubscribeResource),
        (spec_request("prompts/get"@, params) matches Ok(r) ==> r is GetPrompt),
        (spec_request("tools/call"@, params) matches Ok(r) ==> r is ExecuteToolCall),
        (spec_request("initialize"@, params) matches Err(e) ==> e == DecodeError::InvalidParams),
        (spec_request("resources/read"@, params) matches Err(e) ==> e
            == DecodeError::InvalidParams),
        (spec_request("resources/subscribe"@, params) matches Err(e) ==> e
            == DecodeError::InvalidParams),
        (spec_request("prompts/get"@, params) matches Err(e) ==> e == DecodeError::InvalidParams),
        (spec_request("tools/call"@, params) matches Err(e) ==> e == DecodeError::InvalidParams),
{
    reveal_strlit("initialize");
    reveal_strlit("notifications/initialized");
    reveal_strlit("resources/list");
    reveal_strlit("resources/read");
    reveal_strlit("resources/subscribe");
    reveal_strlit("tools/list");
    reveal_strlit("prompts/list");
    reveal_strlit("prompts/get");
    reveal_strlit("ping");
    reveal_strlit("tools/call");
    assert("ping"@.len() == 4);
    assert("initialize"@.len() == 10);
    assert("notifications/initialized"@.len() == 25);
    assert("resources/list"@.len() == 14);
    assert("resources/read"@.len() == 14);
    assert("resources/subscribe"@.len() == 19);
    assert("tools/list"@.len() == 10);
    assert("prompts/list"@.len() == 12);
    assert("prompts/get"@.len() == 11);
    assert("tools/call"@.len() == 10);
    assert("tools/list"@[0] == 't' && "initialize"@[0] == 'i');
    assert("tools/list"@ != "initialize"@);
    assert("tools/call"@[0] == 't' && "tools/call"@ != "initialize"@);
    assert("tools/call"@[6] == 'c' && "tools/list"@[6] == 'l');
    assert("tools/call"@ != "tools/list"@);
    assert("resources/read"@[10] == 'r' && "resources/list"@[10] == 'l');
    assert("resources/read"@ != "resources/list"@);
    assert(spec_request("ping"@, params) == Ok::<SpecRequest, DecodeError>(SpecRequest::Ping));
    assert(spec_request("tools/list"@, params) == Ok::<SpecRequest, DecodeError>(
        SpecRequest::ToolsList,
    ));
    assert(spec_request("prompts/list"@, params) == Ok::<SpecRequest, DecodeError>(
        SpecRequest::PromptsList,
    ));
    assert(spec_request("notifications/initialized"@, params) == Ok::<SpecRequest, DecodeError>(
        SpecRequest::NotificationsInitialize,
    ));
    assert(spec_request("resources/list"@, params) == Ok::<SpecRequest, DecodeError>(
        SpecRequest::ResourcesList { cursor: spec_cursor_param(params) },
    ));
}

/// A method outside the table is forwarded as `Other`, untouched and
/// never dropped, whatever its parameters.
pub proof fn lemma_unknown_method_forwarded(method: Seq<char>, params: Seq<char>)
    requires
        method != "initialize"@,
        method != "notifications/initialized"@,
        method != "resources/list"@,
        method != "resources/read"@,
        method != "resources/subscribe"@,
        method != "tools/list"@,
        method != "prompts/list"@,
        method != "prompts/get"@,
        method != "ping"@,
        method != "tools/call"@,
    ensures
        spec_request(method, params) == Ok::<SpecRequest, DecodeError>(
            SpecRequest::Other { method, data: params },
        ),
{
}

/// The envelope fields gathered while walking the top-level pairs:
/// version, method, id, raw params, each the last occurrence seen.
pub open spec fn spec_fold_step(
    acc: (Option<Seq<char>>, Option<Seq<char>>, Option<i64>, Option<Seq<char>>),
    pair: (Seq<char>, Seq<char>),
) -> Result<(Option<Seq<char>>, Option<Seq<char>>, Option<i64>, Option<Seq<char>>), DecodeError> {
    if pair.0 == "jsonrpc"@ {
        Ok((spec_string_content(pair.1), acc.1, acc.2, acc.3))
    } else if pair.0 == "method"@ {
        Ok((acc.0, spec_string_content(pair.1), acc.2, acc.3))
    } else if pair.0 == "id"@ {
        match crate::json_text::spec_parse_i64(pair.1) {
            Some(n) => Ok((acc.0, acc.1, Some(n), acc.3)),
            None => Err(DecodeError::InvalidId),
        }
    } else if pair.0 == "params"@ {
        Ok((acc.0, acc.1, acc.2, Some(pair.1)))
    } else {
        Ok(acc)
    }
}

pub open spec fn spec_fold_fields(ps: Seq<(Seq<char>, Seq<char>)>) -> Result<
    (Option<Seq<char>>, Option<Seq<char>>, Option<i64>, Option<Seq<char>>),
    DecodeError,
>
    decreases ps.len(),
{
    if ps.len() == 0 {
        Ok((None, None, None, None))
    } else {
        match spec_fold_fields(ps.drop_last()) {
            Err(e) => Err(e),
            Ok(acc) => spec_fold_step(acc, ps.last()),
        }
    }
}

/// Once a prefix of the pairs fails, the whole walk fails the same way.
proof fn lemma_fold_prefix_err(ps: Seq<(Seq<char>, Seq<char>)>, i: int)
    requires
        0 <= i <= ps.len(),
        spec_fold_fields(ps.take(i)) is Err,
    ensures
        spec_fold_fields(ps) == spec_fold_fields(ps.take(i)),
    decreases ps.len() - i,
{
    if i < ps.len() {
        assert(ps.take(i + 1).drop_last() =~= ps.take(i));
        lemma_fold_prefix_err(ps, i + 1);
    } else {
        assert(ps.take(i) =~= ps);
    }
}

/// The decoded envelope at the specification level.
pub struct SpecPayload {
    pub version: Seq<char>,
    pub id: int,
    pub data: SpecRequest,
}

/// What a whole inbound text decodes to: the envelope fields are read
/// in one pass over the top-level pairs (later duplicates win), the
/// version and the method must be present, a missing id defaults to 0,
/// a missing `params` to the empty span, and the request model is
/// built from method and raw params.
pub open spec fn spec_try_parse(s: Seq<char>) -> Result<SpecPayload, DecodeError> {
    match spec_object_pairs(s) {
        None => Err(DecodeError::Malformed),
        Some(ps) => match spec_fold_fields(ps) {
            Err(e) => Err(e),
            Ok((ver, meth, id, params)) => {
                if ver is None {
                    Err(DecodeError::MissingVersion)
                } else if meth is None {
                    Err(DecodeError::MissingMethod)
                } else {
                    let p = if params is Some {
                        params->Some_0
                    } else {
                        Seq::empty()
                    };
                    match spec_request(meth->Some_0, p) {
                        Err(e) => Err(e),
                        Ok(req) => Ok(SpecPayload {
                            version: ver->Some_0,
                            id: if id is Some {
                                id->Some_0 as int
                            } else {
                                0
                            },
                            data: req,
                        }),
                    }
                }
            },
        },
    }
}

/// A decoded envelope: protocol version, request id (0 when absent)
/// and the request model.
#[derive(Debug)]
pub struct McpInputPayload {
    pub _version: String,
    pub id: i64,
    pub data: McpInputData,
}

impl View for McpInputPayload {
    type V = SpecPayload;

    open spec fn view(&self) -> SpecPayload {
        SpecPayload { version: self._version@, id: self.id as int, data: self.data@ }
    }
}

impl McpInputPayload {
    /// Decodes one inbound JSON object, as [`spec_try_parse`] defines.
    pub fn try_parse(src: &str) -> (r: Result<McpInputPayload, DecodeError>)
        ensures
            (match spec_try_parse(src@) {
                Ok(sp) => r matches Ok(p) && p@ == sp,
                Err(e) => r matches Err(e2) && e2 == e,
            }),
    {
        let pairs = match object_pairs(src) {
            Some(ps) => ps,
            None => {
                return Err(DecodeError::Malformed);
            },
        };
        let ghost ps = pairs.deep_view();
        let mut version: Option<String> = None;
        let mut method: Option<String> = None;
        let mut id: Option<i64> = None;
        let mut params: Option<String> = None;
        let mut i: usize = 0;
        assert(ps.take(0) =~= Seq::<(Seq<char>, Seq<char>)>::empty());
        while i < pairs.len()
            invariant
                i <= pairs.len(),
                ps == pairs.deep_view(),
                spec_object_pairs(src@) == Some(ps),
                spec_fold_fields(ps.take(i as int)) == Ok::<_, DecodeError>(
                    (version.deep_view(), method.deep_view(), id, params.deep_view()),
                ),
            decreases pairs.len() - i,
        {
            assert(ps.take(i + 1).drop_last() =~= ps.take(i as int));
            assert(ps.take(i + 1).last() == ps[i as int]);
            assert(ps[i as int] == (pairs[i as int].0@, pairs[i as int].1@));
            let k = &pairs[i].0;
            if str_eq(k.as_str(), "jsonrpc") {
                version = string_content(pairs[i].1.as_str());
            } else if str_eq(k.as_str(), "method") {
                method = string_content(pairs[i].1.as_str());
            } else if str_eq(k.as_str(), "id") {
                match crate::json_text::parse_i64(pairs[i].1.as_str()) {
                    Some(n) => {
                        id = Some(n);
                    },
                    None => {
                        proof {
                            lemma_fold_prefix_err(ps, i + 1);
                        }
                        return Err(DecodeError::InvalidId);
                    },
                }
            } else if str_eq(k.as_str(), "params") {
                params = Some(pairs[i].1.clone());
            }
            i = i + 1;
        }
        assert(ps.take(pairs.len() as int) =~= ps);
        let version = match version {
            Some(v) => v,
            None => {
                return Err(DecodeError::MissingVersion);
            },
        };
        let method = match method {
            Some(m) => m,
            None => {
                return Err(DecodeError::MissingMethod);
            },
        };
        let params_str = match params {
            Some(p) => p,
            None => String::new(),
        };
        let data = match McpInputData::from_str(method.as_str(), params_str.as_str()) {
            Ok(d) => d,
            Err(e) => {
                return Err(e);
            },
        };
        let id_value: i64 = match id {
            Some(n) => n,
            None => 0,
        };
        Ok(McpInputPayload { _version: version, id: id_value, data })
    }
}

} // verus!
