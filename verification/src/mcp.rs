//! The client of tool servers: the requests that are sent, and what is made of the
//! answers.
use vstd::prelude::*;
use crate::execute::{text_block, OutcomeView, ToolResult};
use crate::json::{
    array_view, compact_json, copy_json, field_of, json_view, lemma_array_view, lemma_member_pos_is,
    lemma_object_view, members_view, new_object, parse_strict, strict_json, text_in, write_compact, Json, JsonNumber,
    JsonView, NumberView,
};
use crate::message::{Text, TextContent, TextView, UserBlockView, UserContentBlock};
use crate::text::{joined, owned, same_text};

verus! {

/// A tool that a server offers.
#[derive(Debug, PartialEq, Eq)]
pub struct McpToolDef {
    pub name: String,
    pub description: String,
    pub input_schema: Json,
}

#[verifier::ext_equal]
pub struct DefView {
    pub name: Text,
    pub description: Text,
    pub input_schema: JsonView,
}

impl DeepView for McpToolDef {
    type V = DefView;

    open spec fn deep_view(&self) -> DefView {
        DefView {
            name: self.name@,
            description: self.description@,
            input_schema: json_view(self.input_schema),
        }
    }
}

/// A request as JSON.
pub open spec fn request_json(id: u64, method: Text, params: JsonView) -> JsonView {
    JsonView::Object(
        seq![
            ("jsonrpc"@, JsonView::String("2.0"@)),
            ("id"@, JsonView::Number(NumberView::PosInt(id))),
            ("method"@, JsonView::String(method)),
            ("params"@, params),
        ],
    )
}

pub fn rpc_request(id: u64, method: &str, params: Json) -> (r: Json)
    ensures
        json_view(r) == request_json(id, method@, json_view(params)),
{
    let ghost pv = json_view(params);
    let mut o: Vec<(String, Json)> = Vec::new();
    o.push((owned("jsonrpc"), Json::String(owned("2.0"))));
    o.push((owned("id"), Json::Number(JsonNumber::PosInt(id))));
    o.push((owned("method"), Json::String(owned(method))));
    o.push((owned("params"), params));
    proof {
        lemma_object_view(o);
        assert(members_view(o@) =~= request_json(id, method@, pv)->Object_0);
    }
    Json::Object(o)
}

/// A notification as JSON.
pub open spec fn notification_json(method: Text) -> JsonView {
    JsonView::Object(seq![("jsonrpc"@, JsonView::String("2.0"@)), ("method"@, JsonView::String(method))])
}

pub fn rpc_notification(method: &str) -> (r: Json)
    ensures
        json_view(r) == notification_json(method@),
{
    let mut o: Vec<(String, Json)> = Vec::new();
    o.push((owned("jsonrpc"), Json::String(owned("2.0"))));
    o.push((owned("method"), Json::String(owned(method))));
    proof {
        lemma_object_view(o);
        assert(members_view(o@) =~= seq![
            ("jsonrpc"@, JsonView::String("2.0"@)),
            ("method"@, JsonView::String(method@)),
        ]);
    }
    Json::Object(o)
}

/// The client of one server: it numbers its requests.
#[derive(Debug, PartialEq, Eq)]
pub struct McpClient {
    pub next_id: u64,
}

/// The parameters of the request that opens a connection.
pub open spec fn initialize_json(version: Text) -> JsonView {
    JsonView::Object(
        seq![
            ("protocolVersion"@, JsonView::String("2025-11-25"@)),
            ("capabilities"@, crate::json::empty_object()),
            (
                "clientInfo"@,
                JsonView::Object(
                    seq![
                        ("name"@, JsonView::String("omp-headless"@)),
                        ("version"@, JsonView::String(version)),
                    ],
                ),
            ),
        ],
    )
}

fn initialize_params(version: &str) -> (r: Json)
    ensures
        json_view(r) == initialize_json(version@),
{
    let mut info: Vec<(String, Json)> = Vec::new();
    info.push((owned("name"), Json::String(owned("omp-headless"))));
    info.push((owned("version"), Json::String(owned(version))));
    let mut o: Vec<(String, Json)> = Vec::new();
    proof {
        lemma_object_view(info);
        assert(members_view(info@) =~= seq![
            ("name"@, JsonView::String("omp-headless"@)),
            ("version"@, JsonView::String(version@)),
        ]);
    }
    o.push((owned("protocolVersion"), Json::String(owned("2025-11-25"))));
    o.push((owned("capabilities"), new_object()));
    o.push((owned("clientInfo"), Json::Object(info)));
    proof {
        lemma_object_view(o);
        assert(members_view(o@) =~= initialize_json(version@)->Object_0);
    }
    Json::Object(o)
}

impl McpClient {
    pub fn new() -> (r: Self)
        ensures
            r.next_id == 0,
    {
        McpClient { next_id: 0 }
    }

    /// The next request. Numbers start over after the last one.
    pub fn rpc(&mut self, method: &str, params: Json) -> (r: Json)
        ensures
            json_view(r) == request_json(old(self).next_id, method@, json_view(params)),
            final(self).next_id == (if old(self).next_id == u64::MAX {
                0
            } else {
                old(self).next_id + 1
            }),
    {
        let id = self.next_id;
        self.next_id = id.wrapping_add(1);
        rpc_request(id, method, params)
    }

    /// The request that opens a connection.
    pub fn initialize(&mut self, version: &str) -> (r: Json)
        ensures
            json_view(r) == request_json(old(self).next_id, "initialize"@, initialize_json(version@)),
            final(self).next_id == (if old(self).next_id == u64::MAX {
                0
            } else {
                old(self).next_id + 1
            }),
    {
        self.rpc("initialize", initialize_params(version))
    }

    /// The notification that a connection is open.
    pub fn notify_initialized(&self) -> (r: Json)
        ensures
            json_view(r) == notification_json("notifications/initialized"@),
    {
        rpc_notification("notifications/initialized")
    }

    /// The request for the list of tools.
    pub fn ask_tools(&mut self) -> (r: Json)
        ensures
            json_view(r) == request_json(old(self).next_id, "tools/list"@, JsonView::Null),
            final(self).next_id == (if old(self).next_id == u64::MAX {
                0
            } else {
                old(self).next_id + 1
            }),
    {
        self.rpc("tools/list", Json::Null)
    }

    /// The request that calls a tool.
    pub fn call_tool(&mut self, name: &str, arguments: Json) -> (r: Json)
        ensures
            json_view(r) == request_json(
                old(self).next_id,
                "tools/call"@,
                call_json(name@, json_view(arguments)),
            ),
            final(self).next_id == (if old(self).next_id == u64::MAX {
                0
            } else {
                old(self).next_id + 1
            }),
    {
        self.rpc("tools/call", call_params(name, arguments))
    }
}

/// What is wrong with an answer.
#[derive(Debug, PartialEq, Eq)]
pub enum McpError {
    /// The answer's status is no success.
    Status { status: u16, body: String },
    /// The answer is no JSON.
    NotJson(String),
    /// The answer is this error, as JSON.
    Rpc(String),
    /// The list of tools is missing from this result, as JSON.
    NoTools(String),
}

/// What is wrong with the answer to a method; `status_line` is the status as HTTP
/// writes it.
pub open spec fn error_report(e: McpError, method: Text, status_line: Text) -> Text {
    match e {
        McpError::Status { status: _, body } => "MCP "@ + method + " HTTP "@ + status_line + ": "@ + body@,
        McpError::NotJson(text) => "MCP "@ + method + " 响应非 JSON: "@ + text@,
        McpError::Rpc(error) => "MCP "@ + method + " JSON-RPC error: "@ + error@,
        McpError::NoTools(result) => method + " 响应缺 tools 数组: "@ + result@,
    }
}

impl McpError {
    pub fn to_text(&self, method: &str, status_line: &str) -> (r: String)
        ensures
            r@ == error_report(*self, method@, status_line@),
    {
        let named = joined("MCP ", method);
        match self {
            McpError::Status { status: _, body } => {
                let a = joined(named.as_str(), " HTTP ");
                let b = joined(a.as_str(), status_line);
                let c = joined(b.as_str(), ": ");
                joined(c.as_str(), body.as_str())
            },
            McpError::NotJson(text) => {
                let a = joined(named.as_str(), " 响应非 JSON: ");
                joined(a.as_str(), text.as_str())
            },
            McpError::Rpc(error) => {
                let a = joined(named.as_str(), " JSON-RPC error: ");
                joined(a.as_str(), error.as_str())
            },
            McpError::NoTools(result) => {
                let a = joined(method, " 响应缺 tools 数组: ");
                joined(a.as_str(), result.as_str())
            },
        }
    }
}

/// What the model is told of a call that the server did not answer.
pub fn call_failure_text(name: &str, error: &str) -> (r: String)
    ensures
        r@ == "MCP 工具 "@ + name@ + " 调用失败: "@ + error@,
{
    let a = joined("MCP 工具 ", name);
    let b = joined(a.as_str(), " 调用失败: ");
    joined(b.as_str(), error)
}

/// What an answer's body says: a result, null where there is none, or an error.
pub open spec fn body_result(body: JsonView) -> Result<JsonView, JsonView> {
    match field_of(body, "error"@) {
        Some(e) => if e is Null {
            Ok(result_or_null(body))
        } else {
            Err(e)
        },
        None => Ok(result_or_null(body)),
    }
}

pub open spec fn result_or_null(body: JsonView) -> JsonView {
    match field_of(body, "result"@) {
        Some(r) => r,
        None => JsonView::Null,
    }
}

/// What an answer's body says.
pub fn rpc_body_result(body: &Json) -> (r: Result<Json, McpError>)
    ensures
        match body_result(json_view(*body)) {
            Ok(v) => r is Ok && json_view(r->Ok_0) == v,
            Err(e) => r is Err && r->Err_0 is Rpc && r->Err_0->Rpc_0@ == compact_json(e),
        },
{
    let failed = match body.get("error") {
        Some(Json::Null) => None,
        Some(e) => Some(write_compact(e)),
        None => None,
    };
    if let Some(e) = failed {
        return Err(McpError::Rpc(e));
    }
    match body.get("result") {
        Some(v) => Ok(copy_json(v)),
        None => Ok(Json::Null),
    }
}

/// What an answer says.
pub fn rpc_result(status: u16, text: String) -> (r: Result<Json, McpError>)
    ensures
        !(200 <= status < 300) ==> r == Err::<Json, McpError>(McpError::Status { status, body: text }),
        200 <= status < 300 ==> match strict_json(text@) {
            None => r == Err::<Json, McpError>(McpError::NotJson(text)),
            Some(body) => match body_result(body) {
                Ok(v) => r is Ok && json_view(r->Ok_0) == v,
                Err(e) => r is Err && r->Err_0 is Rpc && r->Err_0->Rpc_0@ == compact_json(e),
            },
        },
{
    if !(200 <= status && status < 300) {
        return Err(McpError::Status { status, body: text });
    }
    match parse_strict(text.as_str()) {
        None => Err(McpError::NotJson(text)),
        Some(body) => rpc_body_result(&body),
    }
}

/// The schema of a tool that gives none.
pub open spec fn any_object_schema() -> JsonView {
    JsonView::Object(
        seq![("type"@, JsonView::String("object"@)), ("properties"@, crate::json::empty_object())],
    )
}

fn empty_schema() -> (r: Json)
    ensures
        json_view(r) == any_object_schema(),
{
    let mut o: Vec<(String, Json)> = Vec::new();
    o.push((owned("type"), Json::String(owned("object"))));
    o.push((owned("properties"), new_object()));
    proof {
        lemma_object_view(o);
        assert(members_view(o@) =~= any_object_schema()->Object_0);
    }
    Json::Object(o)
}

/// The tool that an item of the list describes; none where it has no name.
pub open spec fn def_of(tool: JsonView) -> Option<DefView> {
    match text_in(field_of(tool, "name"@)) {
        None => None,
        Some(name) => Some(
            DefView {
                name,
                description: match text_in(field_of(tool, "description"@)) {
                    Some(d) => d,
                    None => Seq::empty(),
                },
                input_schema: match field_of(tool, "inputSchema"@) {
                    Some(s) => s,
                    None => any_object_schema(),
                },
            },
        ),
    }
}

pub open spec fn defs_of(tools: Seq<JsonView>) -> Seq<DefView>
    decreases tools.len(),
{
    if tools.len() == 0 {
        Seq::empty()
    } else {
        match def_of(tools.last()) {
            Some(d) => defs_of(tools.drop_last()).push(d),
            None => defs_of(tools.drop_last()),
        }
    }
}

fn tool_def(tool: &Json) -> (r: Option<McpToolDef>)
    ensures
        r.deep_view() == def_of(json_view(*tool)),
{
    match tool.get("name") {
        Some(Json::String(name)) => {
            let description = match tool.get("description") {
                Some(Json::String(d)) => d.clone(),
                _ => String::new(),
            };
            assert(description@ =~= match text_in(field_of(json_view(*tool), "description"@)) {
                Some(d) => d,
                None => Seq::empty(),
            });
            let input_schema = match tool.get("inputSchema") {
                Some(s) => copy_json(s),
                None => empty_schema(),
            };
            Some(McpToolDef { name: name.clone(), description, input_schema })
        },
        _ => None,
    }
}

/// The tools that the result of a list names. Items without a name are passed
/// over.
pub fn list_tools(result: &Json) -> (r: Result<Vec<McpToolDef>, McpError>)
    ensures
        match field_of(json_view(*result), "tools"@) {
            Some(JsonView::Array(tools)) => r is Ok && r->Ok_0.deep_view() == defs_of(tools),
            _ => r is Err && r->Err_0 is NoTools && r->Err_0->NoTools_0@ == compact_json(json_view(*result)),
        },
{
    match result.get("tools") {
        Some(Json::Array(tools)) => {
            let ghost all = array_view(tools@);
            proof {
                lemma_array_view(*tools);
            }
            let mut defs: Vec<McpToolDef> = Vec::new();
            let mut i: usize = 0;
            assert(all.take(0) =~= Seq::empty());
            assert(defs.deep_view() =~= Seq::empty());
            while i < tools.len()
                invariant
                    all == array_view(tools@),
                    i <= tools.len(),
                    defs.deep_view() == defs_of(all.take(i as int)),
                decreases tools.len() - i,
            {
                let ghost before = defs.deep_view();
                assert(all.take(i + 1).drop_last() =~= all.take(i as int));
                assert(all.take(i + 1).last() == json_view(tools@[i as int]));
                if let Some(d) = tool_def(&tools[i]) {
                    let ghost view = d.deep_view();
                    defs.push(d);
                    assert(defs.deep_view() =~= before.push(view));
                }
                i = i + 1;
            }
            assert(all.take(tools.len() as int) =~= all);
            Ok(defs)
        },
        _ => Err(McpError::NoTools(write_compact(result))),
    }
}

/// The parameters of a call.
pub open spec fn call_json(name: Text, arguments: JsonView) -> JsonView {
    JsonView::Object(seq![("name"@, JsonView::String(name)), ("arguments"@, arguments)])
}

fn call_params(name: &str, arguments: Json) -> (r: Json)
    ensures
        json_view(r) == call_json(name@, json_view(arguments)),
{
    let ghost av = json_view(arguments);
    let mut o: Vec<(String, Json)> = Vec::new();
    o.push((owned("name"), Json::String(owned(name))));
    o.push((owned("arguments"), arguments));
    proof {
        lemma_object_view(o);
        assert(members_view(o@) =~= seq![("name"@, JsonView::String(name@)), ("arguments"@, av)]);
    }
    Json::Object(o)
}

/// The text of the text blocks of an answer, in order.
pub open spec fn answer_text(blocks: Seq<JsonView>) -> Text
    decreases blocks.len(),
{
    if blocks.len() == 0 {
        Seq::empty()
    } else {
        let before = answer_text(blocks.drop_last());
        let b = blocks.last();
        if text_in(field_of(b, "type"@)) == Some("text"@) {
            match text_in(field_of(b, "text"@)) {
                Some(t) => before + t,
                None => before,
            }
        } else {
            before
        }
    }
}

pub open spec fn answer_blocks(result: JsonView) -> Seq<JsonView> {
    match field_of(result, "content"@) {
        Some(JsonView::Array(b)) => b,
        _ => Seq::empty(),
    }
}

/// What a call's answer comes to: its text, and whether the tool failed.
pub open spec fn call_outcome(result: JsonView) -> OutcomeView {
    OutcomeView {
        content: seq![text_block(answer_text(answer_blocks(result)))],
        details: None,
        is_error: field_of(result, "isError"@) == Some(JsonView::Bool(true)),
        useless: false,
    }
}

fn join_blocks(blocks: &Vec<Json>) -> (r: String)
    ensures
        r@ == answer_text(array_view(blocks@)),
{
    let ghost all = array_view(blocks@);
    let mut text = String::new();
    let mut i: usize = 0;
    assert(all.take(0) =~= Seq::empty());
    while i < blocks.len()
        invariant
            all == array_view(blocks@),
            i <= blocks.len(),
            text@ == answer_text(all.take(i as int)),
        decreases blocks.len() - i,
    {
        assert(all.take(i + 1).drop_last() =~= all.take(i as int));
        assert(all.take(i + 1).last() == json_view(blocks@[i as int]));
        let is_text = match blocks[i].get("type") {
            Some(Json::String(t)) => same_text(t.as_str(), "text"),
            _ => false,
        };
        if is_text {
            if let Some(Json::String(t)) = blocks[i].get("text") {
                text = joined(text.as_str(), t.as_str());
            }
        }
        i = i + 1;
    }
    assert(all.take(blocks.len() as int) =~= all);
    text
}

/// What a call's answer comes to.
pub fn map_call_result(result: &Json) -> (r: ToolResult)
    ensures
        r.deep_view() == call_outcome(json_view(*result)),
{
    let text = match result.get("content") {
        Some(Json::Array(blocks)) => {
            proof {
                lemma_array_view(*blocks);
            }
            join_blocks(blocks)
        },
        _ => String::new(),
    };
    assert(text@ =~= answer_text(answer_blocks(json_view(*result))));
    let is_error = match result.get("isError") {
        Some(Json::Bool(b)) => *b,
        _ => false,
    };
    let mut content: Vec<UserContentBlock> = Vec::new();
    let ghost tv = text@;
    content.push(UserContentBlock::Text(TextContent { text, text_signature: None }));
    assert(content.deep_view() =~= seq![text_block(tv)]);
    ToolResult { content, details: None, is_error, useless: false }
}

/// Two requests of a client, one after the other, differ in their numbers.
pub proof fn law_requests_are_told_apart(id: u64, method: Text, params: JsonView, method2: Text, params2: JsonView)
    ensures
        request_json(id, method, params) != request_json(id.wrapping_add(1), method2, params2),
{
    let a = request_json(id, method, params)->Object_0;
    let b = request_json(id.wrapping_add(1), method2, params2)->Object_0;
    assert(a[1].1 == JsonView::Number(NumberView::PosInt(id)));
    assert(b[1].1 == JsonView::Number(NumberView::PosInt(id.wrapping_add(1))));
}

/// The tools of a server are those that the items with a name describe, and no
/// others.
pub proof fn law_named_tools_are_listed(tools: Seq<JsonView>)
    ensures
        forall|d: DefView| #[trigger]
            defs_of(tools).contains(d) <==> exists|i: int| 0 <= i < tools.len() && def_of(#[trigger] tools[i]) == Some(d),
    decreases tools.len(),
{
    if tools.len() > 0 {
        let before = tools.drop_last();
        law_named_tools_are_listed(before);
        let list = defs_of(before);
        assert forall|d: DefView| #[trigger] defs_of(tools).contains(d) implies exists|i: int|
            0 <= i < tools.len() && def_of(#[trigger] tools[i]) == Some(d) by {
            if list.contains(d) {
                let i = choose|i: int| 0 <= i < before.len() && def_of(#[trigger] before[i]) == Some(d);
                assert(tools[i] == before[i]);
            } else {
                assert(def_of(tools[tools.len() - 1]) == Some(d));
            }
        }
        assert forall|d: DefView|
            (exists|i: int| 0 <= i < tools.len() && def_of(#[trigger] tools[i]) == Some(d)) implies #[trigger] defs_of(
            tools,
        ).contains(d) by {
            let i = choose|i: int| 0 <= i < tools.len() && def_of(#[trigger] tools[i]) == Some(d);
            if i < before.len() {
                assert(before[i] == tools[i]);
                assert(list.contains(d));
                let k = choose|k: int| 0 <= k < list.len() && list[k] == d;
                assert(defs_of(tools)[k] == d);
            } else {
                assert(defs_of(tools)[list.len() as int] == d);
            }
        }
    }
}

/// A request names its method and carries its parameters under its number.
pub proof fn law_request_says_what_it_asks(id: u64, method: Text, params: JsonView)
    ensures
        field_of(request_json(id, method, params), "id"@) == Some(JsonView::Number(NumberView::PosInt(id))),
        text_in(field_of(request_json(id, method, params), "method"@)) == Some(method),
        field_of(request_json(id, method, params), "params"@) == Some(params),
        text_in(field_of(request_json(id, method, params), "jsonrpc"@)) == Some("2.0"@),
        text_in(field_of(notification_json(method), "method"@)) == Some(method),
        field_of(notification_json(method), "id"@) is None,
        text_in(field_of(call_json(method, params), "name"@)) == Some(method),
        field_of(call_json(method, params), "arguments"@) == Some(params),
{
    reveal_strlit("jsonrpc");
    reveal_strlit("id");
    reveal_strlit("method");
    reveal_strlit("params");
    reveal_strlit("name");
    reveal_strlit("arguments");
    assert("jsonrpc"@.len() == 7 && "id"@.len() == 2 && "method"@.len() == 6 && "params"@.len() == 6 && "name"@.len() == 4
        && "arguments"@.len() == 9);
    assert("method"@[0] == 'm' && "params"@[0] == 'p');
    let r = request_json(id, method, params)->Object_0;
    lemma_member_pos_is(r, "jsonrpc"@, 0);
    lemma_member_pos_is(r, "id"@, 1);
    lemma_member_pos_is(r, "method"@, 2);
    lemma_member_pos_is(r, "params"@, 3);
    let n = notification_json(method)->Object_0;
    lemma_member_pos_is(n, "method"@, 1);
    lemma_member_pos_is(n, "id"@, 2);
    let c = call_json(method, params)->Object_0;
    lemma_member_pos_is(c, "name"@, 0);
    lemma_member_pos_is(c, "arguments"@, 1);
}

/// An answer is its result, unless it names an error.
pub proof fn law_answer_is_its_result(body: JsonView)
    ensures
        ({
            let e = field_of(body, "error"@);
            let r = field_of(body, "result"@);
            &&& e is Some && !(e->0 is Null) ==> body_result(body) == Err::<JsonView, _>(e->0)
            &&& (e is None || e->0 is Null) && r is Some ==> body_result(body) == Ok::<_, JsonView>(r->0)
            &&& (e is None || e->0 is Null) && r is None ==> body_result(body) == Ok::<_, JsonView>(JsonView::Null)
        }),
{
}

/// A tool is listed under its name, with its description and its schema; without a
/// schema it takes any object.
pub proof fn law_listed_tool_is_described(tool: JsonView, name: Text)
    requires
        text_in(field_of(tool, "name"@)) == Some(name),
    ensures
        ({
            let d = def_of(tool);
            &&& d is Some && d->0.name == name
            &&& text_in(field_of(tool, "description"@)) is Some ==> Some(d->0.description) == text_in(
                field_of(tool, "description"@),
            )
            &&& text_in(field_of(tool, "description"@)) is None ==> d->0.description.len() == 0
            &&& field_of(tool, "inputSchema"@) is Some ==> Some(d->0.input_schema) == field_of(tool, "inputSchema"@)
            &&& field_of(tool, "inputSchema"@) is None ==> text_in(field_of(d->0.input_schema, "type"@)) == Some("object"@)
        }),
{
    reveal_strlit("type");
    reveal_strlit("properties");
    assert("type"@.len() == 4 && "properties"@.len() == 10);
    lemma_member_pos_is(any_object_schema()->Object_0, "type"@, 0);
}

/// Tools are listed in the order in which they come.
pub proof fn law_tools_are_listed_in_order(tools: Seq<JsonView>, tool: JsonView)
    ensures
        def_of(tool) is Some ==> defs_of(tools.push(tool)) == defs_of(tools).push(def_of(tool)->0),
        def_of(tool) is None ==> defs_of(tools.push(tool)) == defs_of(tools),
        defs_of(Seq::empty()).len() == 0,
        text_in(field_of(tool, "name"@)) is None ==> def_of(tool) is None,
{
    assert(tools.push(tool).drop_last() =~= tools);
}

/// The text of an answer is that of its text blocks, one behind the other, and it is an
/// error where it says so.
pub proof fn law_answer_is_its_text(blocks: Seq<JsonView>, b: JsonView, result: JsonView)
    ensures
        text_in(field_of(b, "type"@)) == Some("text"@) && text_in(field_of(b, "text"@)) is Some ==> answer_text(
            blocks.push(b),
        ) == answer_text(blocks) + text_in(field_of(b, "text"@))->0,
        !(text_in(field_of(b, "type"@)) == Some("text"@) && text_in(field_of(b, "text"@)) is Some) ==> answer_text(
            blocks.push(b),
        ) == answer_text(blocks),
        answer_text(Seq::empty()).len() == 0,
        call_outcome(result).is_error == (field_of(result, "isError"@) == Some(JsonView::Bool(true))),
        call_outcome(result).content.len() == 1,
        field_of(result, "content"@) == Some(JsonView::Array(blocks)) ==> call_outcome(result).content[0]
            == UserBlockView::Text(TextView { text: answer_text(blocks), text_signature: None }),
{
    assert(blocks.push(b).drop_last() =~= blocks);
}

/// A server is told who asks, and in which version of the protocol.
pub proof fn law_client_introduces_itself(version: Text)
    ensures
        text_in(field_of(initialize_json(version), "protocolVersion"@)) == Some("2025-11-25"@),
        field_of(initialize_json(version), "clientInfo"@) is Some,
        text_in(field_of(field_of(initialize_json(version), "clientInfo"@)->0, "name"@)) == Some("omp-headless"@),
        text_in(field_of(field_of(initialize_json(version), "clientInfo"@)->0, "version"@)) == Some(version),
{
    reveal_strlit("protocolVersion");
    reveal_strlit("capabilities");
    reveal_strlit("clientInfo");
    reveal_strlit("name");
    reveal_strlit("version");
    assert("protocolVersion"@.len() == 15 && "capabilities"@.len() == 12 && "clientInfo"@.len() == 10 && "name"@.len() == 4
        && "version"@.len() == 7);
    let o = initialize_json(version)->Object_0;
    lemma_member_pos_is(o, "protocolVersion"@, 0);
    lemma_member_pos_is(o, "clientInfo"@, 2);
    let c = o[2].1->Object_0;
    lemma_member_pos_is(c, "name"@, 0);
    lemma_member_pos_is(c, "version"@, 1);
}

} // verus!
