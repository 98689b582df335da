//! What is sent of a conversation.
use omp_headless::json::{Json, JsonNumber};
use omp_headless::json_repair::parse_json_with_repair;
use omp_headless::message::{
    AssistantContent, AssistantMessage, FallbackContent, ImageContent, Message, RedactedThinkingContent, StopReason,
    TextContent, ThinkingContent, ToolCall, ToolResultMessage, Usage, UserContent, UserContentBlock, UserMessage,
};
use omp_headless::provider::{
    encode_messages, encode_params, join_paragraphs, normalize_image_media_type, LlmContext, WireTool,
};
use omp_headless::wire::{
    ContentBlockParam, ImageSource, MessageContent, MessageParam, ModelRef, Role, SystemPrompt, ToolResultContent,
};

const NON_VISION_IMAGE_PLACEHOLDER: &str = "[image omitted: model does not support vision]";
const EMPTY_ERROR_TOOL_RESULT_TEXT: &str = "Tool failed with no output.";

fn json(text: &str) -> Json {
    parse_json_with_repair(text).unwrap()
}

fn assistant(content: Vec<AssistantContent>, stop: StopReason) -> Message {
    Message::Assistant(Box::new(AssistantMessage {
        content,
        api: "anthropic-messages".into(),
        provider: "anthropic".into(),
        model: "m".into(),
        context_snapshot: None,
        retry_recovery: None,
        response_id: None,
        upstream_provider: None,
        usage: Usage::default(),
        stop_reason: stop,
        stop_details: None,
        error_message: None,
        tool_call_abort_messages: None,
        error_status: None,
        error_id: None,
        disabled_features: None,
        provider_payload: None,
        timestamp: 0,
        duration: None,
        ttft: None,
    }))
}

fn user_text(text: &str) -> Message {
    Message::User(UserMessage {
        content: UserContent::Text(text.into()),
        synthetic: None,
        steering: None,
        attribution: None,
        provider_payload: None,
        timestamp: 0,
    })
}

fn user_blocks(blocks: Vec<UserContentBlock>) -> Message {
    Message::User(UserMessage {
        content: UserContent::Blocks(blocks),
        synthetic: None,
        steering: None,
        attribution: None,
        provider_payload: None,
        timestamp: 0,
    })
}

fn tool_result(id: &str, name: &str, content: Vec<UserContentBlock>, is_error: bool) -> Message {
    Message::ToolResult(ToolResultMessage {
        tool_call_id: id.into(),
        tool_name: name.into(),
        content,
        details: None,
        is_error,
        attribution: None,
        pruned_at: None,
        useless: None,
        timestamp: 0,
    })
}

fn text_block(text: &str) -> AssistantContent {
    AssistantContent::Text(TextContent { text: text.into(), text_signature: None })
}

fn thinking(text: &str, signature: Option<&str>) -> AssistantContent {
    AssistantContent::Thinking(ThinkingContent {
        thinking: text.into(),
        thinking_signature: signature.map(Into::into),
        item_id: None,
    })
}

fn tool_call(id: &str, name: &str, args: Json) -> AssistantContent {
    AssistantContent::ToolCall(ToolCall {
        id: id.into(),
        name: name.into(),
        arguments: args,
        thought_signature: None,
        intent: None,
        raw_block: None,
        custom_wire_name: None,
    })
}

fn u_text(text: &str) -> UserContentBlock {
    UserContentBlock::Text(TextContent { text: text.into(), text_signature: None })
}

fn u_image(data: &str, mime: &str) -> UserContentBlock {
    UserContentBlock::Image(ImageContent {
        data: data.into(),
        mime_type: mime.into(),
        detail: None,
    })
}

fn assistant_blocks(params: &[MessageParam], index: usize) -> &[ContentBlockParam] {
    match &params[index].content {
        MessageContent::Blocks(blocks) => blocks,
        MessageContent::Text(_) => panic!("expected block content at param {index}"),
    }
}

// thinking

#[test]
fn signed_thinking_round_trips_as_thinking_block() {
    let msgs = vec![
        user_text("hi"),
        assistant(
            vec![thinking("reason", Some("sig-abc")), text_block("answer")],
            StopReason::Stop,
        ),
    ];
    let params = encode_messages(&msgs, true);
    // user, assistant, trailing "Continue." (assistant is last).
    assert_eq!(params.len(), 3);
    assert_eq!(params[1].role, Role::Assistant);
    assert_eq!(assistant_blocks(&params, 1), &[
        ContentBlockParam::Thinking { thinking: "reason".into(), signature: "sig-abc".into() },
        ContentBlockParam::Text { text: "answer".into(), cache_control: None },
    ]);
}

#[test]
fn unsigned_thinking_demotes_to_bare_text() {
    // Unsigned thinking is sent as text, not dropped. Whitespace-only thinking IS dropped.
    let msgs = vec![assistant(
        vec![thinking("bare reasoning", None), thinking("   ", None), text_block("done")],
        StopReason::Stop,
    )];
    let params = encode_messages(&msgs, true);
    assert_eq!(assistant_blocks(&params, 0), &[
        ContentBlockParam::Text { text: "bare reasoning".into(), cache_control: None },
        ContentBlockParam::Text { text: "done".into(), cache_control: None },
    ]);
}

// redactedThinking / fallback

#[test]
fn redacted_thinking_encodes_and_skips_empty() {
    let msgs = vec![assistant(
        vec![
            AssistantContent::RedactedThinking(RedactedThinkingContent { data: "enc==".into() }),
            AssistantContent::RedactedThinking(RedactedThinkingContent { data: "  ".into() }),
            text_block("visible"),
        ],
        StopReason::Stop,
    )];
    let params = encode_messages(&msgs, true);
    assert_eq!(assistant_blocks(&params, 0), &[
        ContentBlockParam::RedactedThinking { data: "enc==".into() },
        ContentBlockParam::Text { text: "visible".into(), cache_control: None },
    ]);
}

#[test]
fn fallback_marker_is_dropped() {
    // Markers of a fallback are not sent.
    let msgs = vec![assistant(
        vec![
            AssistantContent::Fallback(FallbackContent {
                from: ModelRef { model: "fable".into() },
                to: ModelRef { model: "opus".into() },
            }),
            text_block("after fallback"),
        ],
        StopReason::Stop,
    )];
    let params = encode_messages(&msgs, true);
    assert_eq!(assistant_blocks(&params, 0), &[ContentBlockParam::Text {
        text: "after fallback".into(),
        cache_control: None,
    }]);
}

// images

#[test]
fn assistant_image_is_dropped() {
    let msgs = vec![assistant(
        vec![
            AssistantContent::Image(ImageContent {
                data: "AAAA".into(),
                mime_type: "image/png".into(),
                detail: None,
            }),
            text_block("caption"),
        ],
        StopReason::Stop,
    )];
    let params = encode_messages(&msgs, true);
    assert_eq!(assistant_blocks(&params, 0), &[ContentBlockParam::Text {
        text: "caption".into(),
        cache_control: None,
    }]);
}

#[test]
fn user_image_encodes_base64_with_media_normalization_and_synthetic_text() {
    // Image-only user content: jpg normalizes to jpeg, and a synthetic
    // "(see attached image)" text block is prepended.
    let msgs = vec![user_blocks(vec![u_image("DATA", "IMAGE/JPG")])];
    let params = encode_messages(&msgs, true);
    assert_eq!(assistant_blocks(&params, 0), &[
        ContentBlockParam::Text {
            text: "(see attached image)".into(),
            cache_control: None,
        },
        ContentBlockParam::Image {
            source: ImageSource::Base64 {
                media_type: "image/jpeg".into(),
                data: "DATA".into(),
            },
            cache_control: None,
        },
    ]);
}

#[test]
fn unsupported_image_becomes_text_placeholder_no_synthetic() {
    // Unsupported mime → text placeholder; since sawImage stays false, no
    // synthetic "(see attached image)" is added.
    let msgs = vec![user_blocks(vec![u_image("DATA", "image/tiff")])];
    let params = encode_messages(&msgs, true);
    assert_eq!(assistant_blocks(&params, 0), &[ContentBlockParam::Text {
        text: "[unsupported image: image/tiff]".into(),
        cache_control: None,
    }]);
}

#[test]
fn non_vision_target_joins_text_and_placeholders() {
    let msgs = vec![user_blocks(vec![u_text("look"), u_image("DATA", "image/png")])];
    let params = encode_messages(&msgs, false);
    assert_eq!(assistant_blocks(&params, 0), &[ContentBlockParam::Text {
        text: format!("look\n{}", NON_VISION_IMAGE_PLACEHOLDER),
        cache_control: None,
    }]);
}

// message assembly

#[test]
fn consecutive_tool_results_batch_into_one_user_message() {
    let msgs = vec![
        assistant(
            vec![tool_call("t1", "read", json("{}")), tool_call("t2", "grep", json("{}"))],
            StopReason::ToolUse,
        ),
        tool_result("t1", "read", vec![u_text("file body")], false),
        tool_result("t2", "grep", vec![u_text("match")], false),
        user_text("thanks"),
    ];
    let params = encode_messages(&msgs, true);
    // assistant, ONE user (both tool results), user "thanks".
    assert_eq!(params.len(), 3);
    assert_eq!(params[1].role, Role::User);
    let batched = assistant_blocks(&params, 1);
    assert_eq!(batched.len(), 2);
    assert!(
        matches!(&batched[0], ContentBlockParam::ToolResult { tool_use_id, .. } if tool_use_id == "t1")
    );
    assert!(
        matches!(&batched[1], ContentBlockParam::ToolResult { tool_use_id, .. } if tool_use_id == "t2")
    );
    assert_eq!(params[2].content, MessageContent::Text("thanks".into()));
}

#[test]
fn empty_error_tool_result_gets_placeholder() {
    let msgs = vec![
        assistant(vec![tool_call("t1", "bash", json("{}"))], StopReason::ToolUse),
        tool_result("t1", "bash", vec![], true),
    ];
    let params = encode_messages(&msgs, true);
    let block = &assistant_blocks(&params, 1)[0];
    match block {
        ContentBlockParam::ToolResult { content, is_error, .. } => {
            assert_eq!(*is_error, Some(true));
            assert_eq!(
                *content,
                Some(ToolResultContent::Blocks(vec![ContentBlockParam::Text {
                    text: EMPTY_ERROR_TOOL_RESULT_TEXT.into(),
                    cache_control: None,
                }]))
            );
        },
        other => panic!("expected tool_result, got {other:?}"),
    }
}

#[test]
fn error_tool_result_hoists_images_out() {
    // Images are illegal in an error tool_result; text stays, images hoist
    // after the run behind a caption.
    let msgs = vec![
        assistant(vec![tool_call("t1", "screenshot", json("{}"))], StopReason::ToolUse),
        tool_result("t1", "screenshot", vec![u_text("boom"), u_image("IMG", "image/png")], true),
    ];
    let params = encode_messages(&msgs, true);
    let blocks = assistant_blocks(&params, 1);
    // tool_result (text only) + caption text + hoisted image.
    assert_eq!(blocks.len(), 3);
    match &blocks[0] {
        ContentBlockParam::ToolResult { content, .. } => assert_eq!(
            *content,
            Some(ToolResultContent::Blocks(vec![ContentBlockParam::Text {
                text: "boom".into(),
                cache_control: None,
            }]))
        ),
        other => panic!("expected tool_result, got {other:?}"),
    }
    assert!(
        matches!(&blocks[1], ContentBlockParam::Text { text, .. } if text.starts_with("Attached image"))
    );
    assert!(matches!(&blocks[2], ContentBlockParam::Image { .. }));
}

#[test]
fn trailing_block_after_tool_use_is_partitioned_after() {
    let msgs = vec![assistant(
        vec![text_block("before"), tool_call("t1", "read", json("{}")), text_block("after")],
        StopReason::ToolUse,
    )];
    let params = encode_messages(&msgs, true);
    let blocks = assistant_blocks(&params, 0);
    assert_eq!(blocks, &[
        ContentBlockParam::Text { text: "before".into(), cache_control: None },
        ContentBlockParam::Text { text: "after".into(), cache_control: None },
        ContentBlockParam::ToolUse {
            id: "t1".into(),
            name: "read".into(),
            input: json("{}"),
            cache_control: None,
        },
    ]);
}

#[test]
fn trailing_assistant_gets_continue_turn() {
    let msgs = vec![user_text("hi"), assistant(vec![text_block("bye")], StopReason::Stop)];
    let params = encode_messages(&msgs, true);
    assert_eq!(params.len(), 3);
    assert_eq!(params[2].role, Role::User);
    assert_eq!(params[2].content, MessageContent::Text("Continue.".into()));
}

#[test]
fn adjacent_assistants_get_continue_between() {
    // Two assistant turns with no user turn between (e.g. an empty user turn
    // was dropped) must be separated by a Continue. user turn.
    let msgs = vec![
        assistant(vec![text_block("one")], StopReason::Stop),
        user_text("   "), // whitespace-only → dropped, leaving adjacent assistants
        assistant(vec![text_block("two")], StopReason::Stop),
    ];
    let params = encode_messages(&msgs, true);
    // assistant, Continue., assistant, trailing Continue.
    assert_eq!(params.len(), 4);
    assert_eq!(params[0].role, Role::Assistant);
    assert_eq!(params[1].content, MessageContent::Text("Continue.".into()));
    assert_eq!(params[2].role, Role::Assistant);
    assert_eq!(params[3].content, MessageContent::Text("Continue.".into()));
}

#[test]
fn whitespace_text_and_empty_user_are_skipped() {
    let msgs = vec![
        user_text("   "),
        user_blocks(vec![u_text("  ")]),
        assistant(vec![text_block("  "), text_block("kept")], StopReason::Stop),
    ];
    let params = encode_messages(&msgs, true);
    // Both user turns dropped; assistant keeps only "kept"; trailing Continue.
    assert_eq!(params.len(), 2);
    assert_eq!(assistant_blocks(&params, 0), &[ContentBlockParam::Text {
        text: "kept".into(),
        cache_control: None,
    }]);
    assert_eq!(params[1].content, MessageContent::Text("Continue.".into()));
}

// multi-turn replay sequence

#[test]
fn multi_turn_thinking_toolcall_result_replay() {
    // assistant(thinking+signature, toolCall) → toolResult → assistant(text).
    let msgs = vec![
        user_text("fix the bug"),
        assistant(
            vec![
                thinking("let me look", Some("sig1")),
                tool_call("t1", "read", json(r#"{"path": "a.py"}"#)),
            ],
            StopReason::ToolUse,
        ),
        tool_result("t1", "read", vec![u_text("def add(): ...")], false),
        assistant(vec![text_block("fixed it")], StopReason::Stop),
    ];
    let params = encode_messages(&msgs, true);
    // user, assistant(think+tooluse), user(toolresult), assistant(text), Continue.
    assert_eq!(params.len(), 5);
    assert_eq!(params[0].content, MessageContent::Text("fix the bug".into()));

    assert_eq!(params[1].role, Role::Assistant);
    assert_eq!(assistant_blocks(&params, 1), &[
        ContentBlockParam::Thinking { thinking: "let me look".into(), signature: "sig1".into() },
        ContentBlockParam::ToolUse {
            id: "t1".into(),
            name: "read".into(),
            input: json(r#"{"path": "a.py"}"#),
            cache_control: None,
        },
    ]);

    assert_eq!(params[2].role, Role::User);
    assert!(
        matches!(&assistant_blocks(&params, 2)[0], ContentBlockParam::ToolResult { tool_use_id, .. } if tool_use_id == "t1")
    );

    assert_eq!(params[3].role, Role::Assistant);
    assert_eq!(assistant_blocks(&params, 3), &[ContentBlockParam::Text {
        text: "fixed it".into(),
        cache_control: None,
    }]);

    assert_eq!(params[4].content, MessageContent::Text("Continue.".into()));
}

#[test]
fn media_types_are_normalized() {
    assert_eq!(normalize_image_media_type("image/JPG").as_deref(), Some("image/jpeg"));
    assert_eq!(normalize_image_media_type("image/png").as_deref(), Some("image/png"));
    assert_eq!(normalize_image_media_type("image/gif").as_deref(), Some("image/gif"));
    assert_eq!(normalize_image_media_type("image/webp").as_deref(), Some("image/webp"));
    assert_eq!(normalize_image_media_type("image/tiff"), None);
}

#[test]
fn turns_alternate() {
    let msgs = vec![
        assistant(vec![text_block("a")], StopReason::Stop),
        assistant(vec![tool_call("t1", "read", json("{}"))], StopReason::ToolUse),
        tool_result("t1", "read", vec![], true),
        assistant(vec![text_block("b")], StopReason::Stop),
        assistant(vec![text_block("c")], StopReason::Stop),
    ];
    let params = encode_messages(&msgs, true);
    for pair in params.windows(2) {
        assert!(pair[0].role != Role::Assistant || pair[1].role == Role::User);
    }
    assert_eq!(params.last().unwrap().role, Role::User);
}

#[test]
fn request_has_prompt_tools_and_messages() {
    let context = LlmContext {
        system_prompt: vec!["one".into(), "two".into()],
        messages: vec![user_text("hi")],
        tools: vec![WireTool {
            name: "read".into(),
            description: "reads".into(),
            input_schema: json(r#"{"type":"object","properties":{"n":{"type":"integer","minimum":1}}}"#),
        }],
    };
    let params = encode_params(&context, "m", 100, &Some(JsonNumber::PosInt(1)));
    assert_eq!(params.model, "m");
    assert_eq!(params.max_tokens, 100);
    assert_eq!(params.temperature, Some(JsonNumber::PosInt(1)));
    assert_eq!(params.system, Some(SystemPrompt::Text("one\n\ntwo".into())));
    assert_eq!(params.messages.len(), 1);
    let tools = params.tools.unwrap();
    assert_eq!(tools[0].name, "read");
    assert_eq!(tools[0].description.as_deref(), Some("reads"));
    assert_eq!(tools[0].input_schema, context.tools[0].input_schema);
    let bare = LlmContext { system_prompt: vec![], messages: vec![], tools: vec![] };
    let params = encode_params(&bare, "m", 1, &None);
    assert!(params.system.is_none() && params.tools.is_none() && params.temperature.is_none());
    assert_eq!(join_paragraphs(&vec!["a".into(), "b".into()]), "a\n\nb");
}
