//! Shapes of the Messages API: what is sent, and what comes back.
use vstd::prelude::*;
use crate::json::{json_view, Json, JsonNumber, JsonView};

verus! {

#[derive(Debug, Clone, Copy, PartialEq, Eq, Structural)]
pub enum CacheTtl {
    OneHour,
    FiveMinutes,
}

#[derive(Debug, Clone, Copy, PartialEq, Eq, Structural)]
pub enum CacheScope {
    Global,
}

#[derive(Debug, Clone, Copy, PartialEq, Eq, Structural)]
pub enum CacheControl {
    Ephemeral { ttl: Option<CacheTtl>, scope: Option<CacheScope> },
}

#[derive(Debug, PartialEq, Eq)]
pub enum ImageSource {
    Base64 { media_type: String, data: String },
    Url { url: String },
    File { file_id: String },
}

#[derive(Debug, PartialEq, Eq)]
pub struct ModelRef {
    pub model: String,
}

#[derive(Debug, PartialEq, Eq)]
pub enum ToolResultContent {
    Text(String),
    Blocks(Vec<ContentBlockParam>),
}

/// A block of a message that is sent.
#[derive(Debug, PartialEq, Eq)]
pub enum ContentBlockParam {
    Text { text: String, cache_control: Option<CacheControl> },
    Image { source: ImageSource, cache_control: Option<CacheControl> },
    ToolUse { id: String, name: String, input: Json, cache_control: Option<CacheControl> },
    ToolResult {
        tool_use_id: String,
        content: Option<ToolResultContent>,
        is_error: Option<bool>,
        cache_control: Option<CacheControl>,
    },
    Thinking { thinking: String, signature: String },
    RedactedThinking { data: String },
    Fallback { from: ModelRef, to: ModelRef },
}

#[derive(Debug, Clone, Copy, PartialEq, Eq, Structural)]
pub enum Role {
    User,
    Assistant,
    System,
}

#[derive(Debug, PartialEq, Eq)]
pub enum MessageContent {
    Text(String),
    Blocks(Vec<ContentBlockParam>),
}

#[derive(Debug, PartialEq, Eq)]
pub struct MessageParam {
    pub role: Role,
    pub content: MessageContent,
}

/// A tool on offer.
#[derive(Debug, PartialEq, Eq)]
pub struct Tool {
    pub name: String,
    pub description: Option<String>,
    pub input_schema: Json,
    pub cache_control: Option<CacheControl>,
    pub strict: Option<bool>,
    pub eager_input_streaming: Option<bool>,
}

#[derive(Debug, PartialEq, Eq)]
pub enum ToolChoice {
    Auto { disable_parallel_tool_use: Option<bool> },
    Any { disable_parallel_tool_use: Option<bool> },
    Tool { name: String, disable_parallel_tool_use: Option<bool> },
    NoTool,
}

#[derive(Debug, PartialEq, Eq)]
pub struct Metadata {
    pub user_id: Option<String>,
}

#[derive(Debug, Clone, Copy, PartialEq, Eq, Structural)]
pub enum ThinkingDisplay {
    Summarized,
    Omitted,
}

#[derive(Debug, Clone, Copy, PartialEq, Eq, Structural)]
pub enum ThinkingConfig {
    Enabled { budget_tokens: u64, display: Option<ThinkingDisplay> },
    Disabled,
    Adaptive { display: Option<ThinkingDisplay> },
}

#[derive(Debug, Clone, Copy, PartialEq, Eq, Structural)]
pub enum TaskBudget {
    Tokens { total: u64, remaining: Option<u64> },
}

#[derive(Debug, PartialEq, Eq)]
pub struct OutputConfig {
    pub effort: Option<String>,
    pub task_budget: Option<TaskBudget>,
}

#[derive(Debug, PartialEq, Eq)]
pub struct FallbackParam {
    pub model: String,
    pub max_tokens: Option<u64>,
    pub thinking: Option<ThinkingConfig>,
    pub output_config: Option<OutputConfig>,
    pub speed: Option<String>,
}

#[derive(Debug, PartialEq, Eq)]
pub struct ContextManagement {
    pub edits: Vec<ContextManagementEdit>,
}

#[derive(Debug, PartialEq, Eq)]
pub struct ContextManagementEdit {
    pub edit_type: String,
    pub keep: String,
}

#[derive(Debug, PartialEq, Eq)]
pub enum SystemPrompt {
    Text(String),
    Blocks(Vec<ContentBlockParam>),
}

/// Why the provider says that it stopped; a reason of no known name keeps it.
#[derive(Debug, PartialEq, Eq)]
pub enum WireStopReason {
    Known(KnownStopReason),
    Other(String),
}

#[derive(Debug, Clone, Copy, PartialEq, Eq, Structural)]
pub enum KnownStopReason {
    EndTurn,
    MaxTokens,
    StopSequence,
    ToolUse,
    PauseTurn,
    Refusal,
    Sensitive,
    ModelContextWindowExceeded,
}

#[derive(Debug, Clone, Copy, PartialEq, Eq, Structural)]
pub struct CacheCreation {
    pub ephemeral_5m_input_tokens: Option<u64>,
    pub ephemeral_1h_input_tokens: Option<u64>,
}

#[derive(Debug, Clone, Copy, PartialEq, Eq, Structural)]
pub struct ServerToolUsage {
    pub web_search_requests: Option<u64>,
    pub web_fetch_requests: Option<u64>,
}

#[derive(Debug, PartialEq, Eq)]
pub struct UsageIteration {
    pub iteration_type: Option<String>,
    pub model: Option<String>,
    pub input_tokens: Option<u64>,
    pub output_tokens: Option<u64>,
    pub cache_read_input_tokens: Option<u64>,
    pub cache_creation_input_tokens: Option<u64>,
}

/// Token counts as the provider reports them.
#[derive(Debug, PartialEq, Eq)]
pub struct WireUsage {
    pub input_tokens: Option<u64>,
    pub output_tokens: Option<u64>,
    pub cache_read_input_tokens: Option<u64>,
    pub cache_creation_input_tokens: Option<u64>,
    pub cache_creation: Option<CacheCreation>,
    pub server_tool_use: Option<ServerToolUsage>,
    pub iterations: Option<Vec<UsageIteration>>,
}

#[derive(Debug, PartialEq, Eq)]
pub enum ResponseContentBlock {
    Text { text: String },
    Thinking { thinking: String, signature: Option<String> },
    RedactedThinking { data: String },
    ToolUse { id: String, name: String, input: Option<Json> },
    Fallback { from: ModelRef, to: ModelRef },
}

#[derive(Debug, PartialEq, Eq)]
pub enum ResponseBlock {
    Known(ResponseContentBlock),
    Unknown(Json),
}

/// A complete response.
#[derive(Debug, PartialEq, Eq)]
pub struct ResponseMessage {
    pub id: String,
    pub message_type: Option<String>,
    pub role: Option<String>,
    pub model: Option<String>,
    pub content: Vec<ResponseBlock>,
    pub stop_reason: Option<WireStopReason>,
    pub stop_sequence: Option<String>,
    pub usage: WireUsage,
}

#[derive(Debug, PartialEq, Eq)]
pub struct StopDetails {
    pub detail_type: String,
    pub category: Option<String>,
    pub explanation: Option<String>,
}

#[derive(Debug, PartialEq, Eq)]
pub enum ContentBlockDelta {
    TextDelta { text: String },
    InputJsonDelta { partial_json: String },
    ThinkingDelta { thinking: String },
    SignatureDelta { signature: String },
}

#[derive(Debug, PartialEq, Eq)]
pub struct MessageDelta {
    pub stop_reason: Option<WireStopReason>,
    pub stop_sequence: Option<String>,
    pub stop_details: Option<StopDetails>,
}

/// An event of the response stream.
#[allow(inconsistent_fields)]
#[derive(Debug, PartialEq, Eq)]
pub enum RawMessageStreamEvent {
    MessageStart { message: ResponseMessage },
    ContentBlockStart { index: u64, content_block: ResponseBlock },
    ContentBlockDelta { index: u64, delta: ContentBlockDelta },
    ContentBlockStop { index: u64 },
    MessageDelta { delta: MessageDelta, usage: WireUsage },
    MessageStop,
}

#[derive(Debug, PartialEq, Eq)]
pub struct ErrorEnvelope {
    pub error: ApiErrorBody,
}

#[derive(Debug, PartialEq, Eq)]
pub struct ApiErrorBody {
    pub error_type: String,
    pub message: String,
}

// ---- what the blocks that are sent are ---------------------------------------

#[verifier::ext_equal]
pub enum SourceView {
    Base64(Seq<char>, Seq<char>),
    Url(Seq<char>),
    File(Seq<char>),
}

#[verifier::ext_equal]
pub enum ResultView {
    Text(Seq<char>),
    Blocks(Seq<ParamView>),
}

#[allow(inconsistent_fields)]
#[verifier::ext_equal]
pub enum ParamView {
    Text { text: Seq<char>, cache_control: Option<CacheControl> },
    Image { source: SourceView, cache_control: Option<CacheControl> },
    ToolUse { id: Seq<char>, name: Seq<char>, input: JsonView, cache_control: Option<CacheControl> },
    ToolResult {
        tool_use_id: Seq<char>,
        content: Option<ResultView>,
        is_error: Option<bool>,
        cache_control: Option<CacheControl>,
    },
    Thinking { thinking: Seq<char>, signature: Seq<char> },
    RedactedThinking { data: Seq<char> },
    Fallback { from: Seq<char>, to: Seq<char> },
}

pub open spec fn source_view(s: ImageSource) -> SourceView {
    match s {
        ImageSource::Base64 { media_type, data } => SourceView::Base64(media_type@, data@),
        ImageSource::Url { url } => SourceView::Url(url@),
        ImageSource::File { file_id } => SourceView::File(file_id@),
    }
}

pub open spec fn param_view(p: ContentBlockParam) -> ParamView
    decreases p,
{
    match p {
        ContentBlockParam::Text { text, cache_control } => ParamView::Text { text: text@, cache_control },
        ContentBlockParam::Image { source, cache_control } => ParamView::Image {
            source: source_view(source),
            cache_control,
        },
        ContentBlockParam::ToolUse { id, name, input, cache_control } => ParamView::ToolUse {
            id: id@,
            name: name@,
            input: json_view(input),
            cache_control,
        },
        ContentBlockParam::ToolResult { tool_use_id, content, is_error, cache_control } => ParamView::ToolResult {
            tool_use_id: tool_use_id@,
            content: match content {
                Some(ToolResultContent::Text(t)) => Some(ResultView::Text(t@)),
                Some(ToolResultContent::Blocks(v)) => Some(
                    ResultView::Blocks(
                        Seq::new(
                            v@.len(),
                            |i: int|
                                if 0 <= i < v@.len() {
                                    param_view(v@[i])
                                } else {
                                    ParamView::RedactedThinking { data: Seq::empty() }
                                },
                        ),
                    ),
                ),
                None => None,
            },
            is_error,
            cache_control,
        },
        ContentBlockParam::Thinking { thinking, signature } => ParamView::Thinking {
            thinking: thinking@,
            signature: signature@,
        },
        ContentBlockParam::RedactedThinking { data } => ParamView::RedactedThinking { data: data@ },
        ContentBlockParam::Fallback { from, to } => ParamView::Fallback {
            from: from.model@,
            to: to.model@,
        },
    }
}

impl DeepView for ContentBlockParam {
    type V = ParamView;

    open spec fn deep_view(&self) -> ParamView {
        param_view(*self)
    }
}

#[verifier::ext_equal]
pub enum ContentParamView {
    Text(Seq<char>),
    Blocks(Seq<ParamView>),
}

#[verifier::ext_equal]
pub struct MessageParamView {
    pub role: Role,
    pub content: ContentParamView,
}

impl DeepView for MessageContent {
    type V = ContentParamView;

    open spec fn deep_view(&self) -> ContentParamView {
        match self {
            MessageContent::Text(t) => ContentParamView::Text(t@),
            MessageContent::Blocks(b) => ContentParamView::Blocks(b.deep_view()),
        }
    }
}

impl DeepView for MessageParam {
    type V = MessageParamView;

    open spec fn deep_view(&self) -> MessageParamView {
        MessageParamView { role: self.role, content: self.content.deep_view() }
    }
}

#[verifier::ext_equal]
pub struct ToolView {
    pub name: Seq<char>,
    pub description: Option<Seq<char>>,
    pub input_schema: JsonView,
    pub cache_control: Option<CacheControl>,
    pub strict: Option<bool>,
    pub eager_input_streaming: Option<bool>,
}

impl DeepView for Tool {
    type V = ToolView;

    open spec fn deep_view(&self) -> ToolView {
        ToolView {
            name: self.name@,
            description: self.description.deep_view(),
            input_schema: json_view(self.input_schema),
            cache_control: self.cache_control,
            strict: self.strict,
            eager_input_streaming: self.eager_input_streaming,
        }
    }
}

/// A request to the Messages API. The sampling temperature and `top_p`, which
/// are fractions, are kept as they are written.
#[derive(Debug, PartialEq, Eq)]
pub struct MessageCreateParams {
    pub model: String,
    pub messages: Vec<MessageParam>,
    pub max_tokens: u64,
    pub system: Option<SystemPrompt>,
    pub temperature: Option<JsonNumber>,
    pub top_p: Option<JsonNumber>,
    pub top_k: Option<u64>,
    pub stop_sequences: Option<Vec<String>>,
    pub stream: Option<bool>,
    pub tools: Option<Vec<Tool>>,
    pub tool_choice: Option<ToolChoice>,
    pub metadata: Option<Metadata>,
    pub thinking: Option<ThinkingConfig>,
    pub output_config: Option<OutputConfig>,
    pub speed: Option<String>,
    pub context_management: Option<ContextManagement>,
    pub fallbacks: Option<Vec<FallbackParam>>,
}

} // verus!
