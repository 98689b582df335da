//! The client of tool servers, against a server that answers in place.
use omp_headless::execute::ToolResult;
use omp_headless::json::{Json, JsonNumber};
use omp_headless::json_repair::parse_json_with_repair;
use omp_headless::mcp::{
    call_failure_text, list_tools, map_call_result, rpc_body_result, rpc_result, McpClient, McpError,
};
use omp_headless::message::UserContentBlock;

fn json(text: &str) -> Json {
    parse_json_with_repair(text).unwrap()
}

const INITIALIZED: &str = r#"{"protocolVersion":"2024-11-05","capabilities":{"tools":{}},"serverInfo":{"name":"FakeMcp","version":"1.0.0"}}"#;

const TOOLS: &str = r#"{ "tools": [
    {"name":"kanban_get_card","description":"读卡片","inputSchema":{"type":"object","properties":{"card_id":{"type":"string"}},"required":["card_id"]}},
    {"name":"kanban_create_comment","description":"写回评论","inputSchema":{"type":"object","properties":{"card_id":{"type":"string"},"content":{"type":"string"}},"required":["card_id","content"]}}
]}"#;

fn number_of(request: &Json) -> u64 {
    match request.get("id") {
        Some(Json::Number(JsonNumber::PosInt(n))) => *n,
        other => panic!("{other:?}"),
    }
}

/// The body that the server answers a request with.
fn answer(request: &Json) -> String {
    let id = number_of(request);
    let method = request.get("method").unwrap().as_str().unwrap();
    let failed = |message: String| {
        format!(r#"{{"jsonrpc":"2.0","id":{id},"error":{{"code":-32601,"message":"{message}"}}}}"#)
    };
    let result = match method {
        "initialize" => INITIALIZED.to_string(),
        "tools/list" => TOOLS.to_string(),
        "tools/call" => {
            let params = request.get("params").unwrap();
            match params.get("name").unwrap().as_str().unwrap() {
                "kanban_get_card" => r#"{"content":[{"type":"text","text":"{\"card\":{\"id\":\"c1\"}}"}]}"#.to_string(),
                "kanban_create_comment" => {
                    let said = params.get("arguments").unwrap().get("content").unwrap().as_str().unwrap();
                    format!(r#"{{"content":[{{"type":"text","text":"comment: {said}"}}]}}"#)
                }
                "boom" => r#"{"content":[{"type":"text","text":"错误: 炸了"}],"isError":true}"#.to_string(),
                other => return failed(format!("未知工具: {other}")),
            }
        }
        _ => return failed("method not found".to_string()),
    };
    format!(r#"{{"jsonrpc":"2.0","id":{id},"result":{result}}}"#)
}

fn text_of(result: &ToolResult) -> String {
    match &result.content[..] {
        [UserContentBlock::Text(t)] => t.text.clone(),
        other => panic!("{other:?}"),
    }
}

#[test]
fn initialize_returns_server_info() {
    let mut client = McpClient::new();
    let request = client.initialize("0.1.0");
    assert_eq!(request.get("params").unwrap().get("protocolVersion").unwrap().as_str(), Some("2025-11-25"));
    assert_eq!(request.get("params").unwrap().get("clientInfo").unwrap().get("version").unwrap().as_str(), Some("0.1.0"));
    let info = rpc_result(200, answer(&request)).expect("initialize");
    assert_eq!(info.get("serverInfo").unwrap().get("name").unwrap().as_str(), Some("FakeMcp"));
}

#[test]
fn notify_initialized_ok() {
    let client = McpClient::new();
    let note = client.notify_initialized();
    assert_eq!(note, json(r#"{"jsonrpc":"2.0","method":"notifications/initialized"}"#));
}

#[test]
fn list_tools_parses_defs() {
    let mut client = McpClient::new();
    let request = client.ask_tools();
    let result = rpc_result(200, answer(&request)).expect("list");
    let defs = list_tools(&result).expect("list");
    let names: Vec<&str> = defs.iter().map(|d| d.name.as_str()).collect();
    assert_eq!(names, vec!["kanban_get_card", "kanban_create_comment"]);
    assert_eq!(defs[1].description, "写回评论");
    assert_eq!(defs[1].input_schema.get("required"), Some(&json(r#"["card_id", "content"]"#)));
}

#[test]
fn call_tool_success_maps_text() {
    let mut client = McpClient::new();
    let request = client.call_tool("kanban_get_card", json(r#"{ "card_id": "c1" }"#));
    let result = rpc_result(200, answer(&request)).expect("call");
    let mapped = map_call_result(&result);
    assert!(!mapped.is_error);
    assert!(!mapped.content.is_empty());
    assert_eq!(text_of(&mapped), r#"{"card":{"id":"c1"}}"#);
}

#[test]
fn call_tool_iserror_maps_soft_failure() {
    let mut client = McpClient::new();
    let request = client.call_tool("boom", json("{}"));
    let result = rpc_result(200, answer(&request)).expect("call");
    let mapped = map_call_result(&result);
    assert!(mapped.is_error);
    assert_eq!(text_of(&mapped), "错误: 炸了");
}

#[test]
fn call_tool_rpc_error_is_err() {
    let mut client = McpClient::new();
    let request = client.call_tool("nope", json("{}"));
    match rpc_result(200, answer(&request)) {
        Err(McpError::Rpc(text)) => assert_eq!(text, r#"{"code":-32601,"message":"未知工具: nope"}"#),
        other => panic!("{other:?}"),
    }
}

#[test]
fn connect_http_yields_adapted_tools() {
    let mut client = McpClient::new();
    let first = client.initialize("0.1.0");
    assert!(rpc_result(200, answer(&first)).is_ok());
    let second = client.ask_tools();
    assert_eq!(number_of(&first), 0);
    assert_eq!(number_of(&second), 1);
    let tools = list_tools(&rpc_result(200, answer(&second)).unwrap()).unwrap();
    assert_eq!(tools.len(), 2);
    assert_eq!(tools[0].name, "kanban_get_card");
    assert_eq!(tools[1].name, "kanban_create_comment");
    assert_eq!(tools[1].description, "写回评论");
    assert_eq!(tools[1].input_schema.get("required"), Some(&json(r#"["card_id", "content"]"#)));
}

#[test]
fn mcp_tool_execute_forwards_call() {
    let mut client = McpClient::new();
    let request = client.call_tool("kanban_create_comment", json(r#"{ "card_id": "c1", "content": "结论：ZUIHOU" }"#));
    let out = map_call_result(&rpc_result(200, answer(&request)).expect("execute ok"));
    assert!(!out.is_error);
    assert!(text_of(&out).contains("ZUIHOU"));
}

#[test]
fn mcp_tool_execute_rpc_error_is_tool_error() {
    let mut client = McpClient::new();
    let request = client.call_tool("nope", json("{}"));
    let error = rpc_result(200, answer(&request)).expect_err("a call of an unknown tool");
    let text = call_failure_text("nope", &error.to_text("tools/call", "200 OK"));
    assert!(text.contains("调用失败"));
    assert_eq!(
        text,
        r#"MCP 工具 nope 调用失败: MCP tools/call JSON-RPC error: {"code":-32601,"message":"未知工具: nope"}"#
    );
}

#[test]
fn errors_name_their_method() {
    let status = McpError::Status { status: 404, body: "gone".to_string() };
    assert_eq!(status.to_text("tools/list", "404 Not Found"), "MCP tools/list HTTP 404 Not Found: gone");
    assert_eq!(McpError::NotJson("<".to_string()).to_text("initialize", ""), "MCP initialize 响应非 JSON: <");
    assert_eq!(McpError::NoTools("{}".to_string()).to_text("tools/list", ""), "tools/list 响应缺 tools 数组: {}");
}

#[test]
fn failed_answers_are_told_apart() {
    assert_eq!(
        rpc_result(503, "down".to_string()),
        Err(McpError::Status { status: 503, body: "down".to_string() })
    );
    assert_eq!(rpc_result(200, "<html>".to_string()), Err(McpError::NotJson("<html>".to_string())));
    assert_eq!(rpc_body_result(&json(r#"{"error":null}"#)), Ok(Json::Null));
    assert_eq!(rpc_body_result(&json(r#"{"result":[1]}"#)), Ok(json("[1]")));
    assert_eq!(list_tools(&json(r#"{"tool":[]}"#)), Err(McpError::NoTools(r#"{"tool":[]}"#.to_string())));
}

#[test]
fn tools_without_a_name_are_passed_over() {
    let defs = list_tools(&json(r#"{"tools":[{"description":"x"},{"name":"a"},{"name":7}]}"#)).unwrap();
    assert_eq!(defs.len(), 1);
    assert_eq!(defs[0].name, "a");
    assert_eq!(defs[0].description, "");
    assert_eq!(defs[0].input_schema, json(r#"{"type":"object","properties":{}}"#));
}

#[test]
fn only_text_blocks_are_joined() {
    let result = json(r#"{"content":[{"type":"text","text":"a"},{"type":"image","text":"x"},{"type":"text"},{"type":"text","text":"b"}],"isError":"yes"}"#);
    let mapped = map_call_result(&result);
    assert_eq!(text_of(&mapped), "ab");
    assert!(!mapped.is_error);
    assert_eq!(text_of(&map_call_result(&Json::Null)), "");
}

#[test]
fn request_numbers_start_over_after_the_last() {
    let mut client = McpClient { next_id: u64::MAX };
    assert_eq!(number_of(&client.ask_tools()), u64::MAX);
    assert_eq!(number_of(&client.ask_tools()), 0);
}
