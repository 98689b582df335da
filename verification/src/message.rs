//! Conversation messages and what they are made of.
use vstd::prelude::*;
use crate::json::{copy_json, copy_number, json_view, Json, JsonNumber, JsonView, NumberView};
pub use crate::wire::{ModelRef, StopDetails};

verus! {

/// A block of text.
#[derive(Debug, PartialEq, Eq)]
pub struct TextContent {
    pub text: String,
    pub text_signature: Option<String>,
}

/// A block of the model's reasoning.
#[derive(Debug, PartialEq, Eq)]
pub struct ThinkingContent {
    pub thinking: String,
    pub thinking_signature: Option<String>,
    pub item_id: Option<String>,
}

/// Reasoning that the provider handed over encrypted.
#[derive(Debug, PartialEq, Eq)]
pub struct RedactedThinkingContent {
    pub data: String,
}

/// A note that another model took over.
#[derive(Debug, PartialEq, Eq)]
pub struct FallbackContent {
    pub from: ModelRef,
    pub to: ModelRef,
}

/// An image, base64-encoded.
#[derive(Debug, PartialEq, Eq)]
pub struct ImageContent {
    pub data: String,
    pub mime_type: String,
    pub detail: Option<String>,
}

/// A request by the model to run a tool.
#[derive(Debug, PartialEq, Eq)]
pub struct ToolCall {
    pub id: String,
    pub name: String,
    pub arguments: Json,
    pub thought_signature: Option<String>,
    pub intent: Option<String>,
    pub raw_block: Option<String>,
    pub custom_wire_name: Option<String>,
}

/// A block of an assistant message.
#[derive(Debug, PartialEq, Eq)]
pub enum AssistantContent {
    Text(TextContent),
    Thinking(ThinkingContent),
    RedactedThinking(RedactedThinkingContent),
    Fallback(FallbackContent),
    Image(ImageContent),
    ToolCall(ToolCall),
}

#[derive(Debug, Clone, Copy, PartialEq, Eq, Structural)]
pub struct OrchestrationUsage {
    pub input: Option<u64>,
    pub cache_read: Option<u64>,
    pub output: Option<u64>,
}

/// Tokens written to the cache, by how long they live.
#[derive(Debug, Clone, Copy, PartialEq, Eq, Structural)]
pub struct CttlUsage {
    pub ephemeral_5m: Option<u64>,
    pub ephemeral_1h: Option<u64>,
}

/// Uses of tools that the provider runs itself.
#[derive(Debug, Clone, Copy, PartialEq, Eq, Structural)]
pub struct ServerUsage {
    pub web_search: Option<u64>,
    pub web_fetch: Option<u64>,
}

/// What the tokens cost, as the amounts are written.
#[derive(Debug, PartialEq, Eq)]
pub struct UsageCost {
    pub input: JsonNumber,
    pub output: JsonNumber,
    pub cache_read: JsonNumber,
    pub cache_write: JsonNumber,
    pub total: JsonNumber,
}

/// Token counts of a turn.
#[derive(Debug, PartialEq, Eq)]
pub struct Usage {
    pub input: u64,
    pub output: u64,
    pub cache_read: u64,
    pub cache_write: u64,
    pub total_tokens: u64,
    pub orchestration: Option<OrchestrationUsage>,
    pub premium_requests: Option<u64>,
    pub reasoning_tokens: Option<u64>,
    pub cttl: Option<CttlUsage>,
    pub server: Option<ServerUsage>,
    pub cost: UsageCost,
}

/// Why a turn stopped.
#[derive(Debug, Clone, Copy, PartialEq, Eq, Structural)]
pub enum StopReason {
    Stop,
    Length,
    ToolUse,
    Error,
    Aborted,
}

#[derive(Debug, Clone, Copy, PartialEq, Eq, Structural)]
pub struct ContextSnapshot {
    pub prompt_tokens: u64,
    pub non_message_tokens: u64,
    pub last_message_timestamp: Option<i64>,
}

/// A turn of the model.
#[derive(Debug, PartialEq, Eq)]
pub struct AssistantMessage {
    pub content: Vec<AssistantContent>,
    pub api: String,
    pub provider: String,
    pub model: String,
    pub context_snapshot: Option<ContextSnapshot>,
    pub retry_recovery: Option<Json>,
    pub response_id: Option<String>,
    pub upstream_provider: Option<String>,
    pub usage: Usage,
    pub stop_reason: StopReason,
    pub stop_details: Option<StopDetails>,
    pub error_message: Option<String>,
    pub tool_call_abort_messages: Option<Vec<(String, String)>>,
    pub error_status: Option<u16>,
    pub error_id: Option<u64>,
    pub disabled_features: Option<Vec<String>>,
    pub provider_payload: Option<Json>,
    pub timestamp: i64,
    pub duration: Option<u64>,
    pub ttft: Option<u64>,
}

/// Who a message is from.
#[derive(Debug, Clone, Copy, PartialEq, Eq, Structural)]
pub enum MessageAttribution {
    User,
    Agent,
}

#[derive(Debug, PartialEq, Eq)]
pub enum UserContent {
    Text(String),
    Blocks(Vec<UserContentBlock>),
}

#[derive(Debug, PartialEq, Eq)]
pub enum UserContentBlock {
    Text(TextContent),
    Image(ImageContent),
}

#[derive(Debug, PartialEq, Eq)]
pub struct UserMessage {
    pub content: UserContent,
    pub synthetic: Option<bool>,
    pub steering: Option<bool>,
    pub attribution: Option<MessageAttribution>,
    pub provider_payload: Option<Json>,
    pub timestamp: i64,
}

#[derive(Debug, PartialEq, Eq)]
pub struct DeveloperMessage {
    pub content: UserContent,
    pub attribution: Option<MessageAttribution>,
    pub provider_payload: Option<Json>,
    pub timestamp: i64,
}

/// The outcome of a tool call.
#[derive(Debug, PartialEq, Eq)]
pub struct ToolResultMessage {
    pub tool_call_id: String,
    pub tool_name: String,
    pub content: Vec<UserContentBlock>,
    pub details: Option<Json>,
    pub is_error: bool,
    pub attribution: Option<MessageAttribution>,
    pub pruned_at: Option<i64>,
    pub useless: Option<bool>,
    pub timestamp: i64,
}

#[derive(Debug, PartialEq, Eq)]
pub enum Message {
    User(UserMessage),
    Developer(DeveloperMessage),
    Assistant(Box<AssistantMessage>),
    ToolResult(ToolResultMessage),
}

// ---- what these values are -------------------------------------------------

pub type Text = Seq<char>;

#[verifier::ext_equal]
pub struct TextView {
    pub text: Text,
    pub text_signature: Option<Text>,
}

#[verifier::ext_equal]
pub struct ThinkingView {
    pub thinking: Text,
    pub thinking_signature: Option<Text>,
    pub item_id: Option<Text>,
}

#[verifier::ext_equal]
pub struct ImageView {
    pub data: Text,
    pub mime_type: Text,
    pub detail: Option<Text>,
}

#[verifier::ext_equal]
pub struct ToolCallView {
    pub id: Text,
    pub name: Text,
    pub arguments: JsonView,
    pub thought_signature: Option<Text>,
    pub intent: Option<Text>,
    pub raw_block: Option<Text>,
    pub custom_wire_name: Option<Text>,
}

#[verifier::ext_equal]
pub enum ContentView {
    Text(TextView),
    Thinking(ThinkingView),
    RedactedThinking(Text),
    Fallback(Text, Text),
    Image(ImageView),
    ToolCall(ToolCallView),
}

#[verifier::ext_equal]
pub struct CostView {
    pub input: NumberView,
    pub output: NumberView,
    pub cache_read: NumberView,
    pub cache_write: NumberView,
    pub total: NumberView,
}

#[verifier::ext_equal]
pub struct UsageView {
    pub input: u64,
    pub output: u64,
    pub cache_read: u64,
    pub cache_write: u64,
    pub total_tokens: u64,
    pub orchestration: Option<OrchestrationUsage>,
    pub premium_requests: Option<u64>,
    pub reasoning_tokens: Option<u64>,
    pub cttl: Option<CttlUsage>,
    pub server: Option<ServerUsage>,
    pub cost: CostView,
}

#[verifier::ext_equal]
pub struct StopDetailsView {
    pub detail_type: Text,
    pub category: Option<Text>,
    pub explanation: Option<Text>,
}

#[verifier::ext_equal]
pub struct AssistantView {
    pub content: Seq<ContentView>,
    pub api: Text,
    pub provider: Text,
    pub model: Text,
    pub context_snapshot: Option<ContextSnapshot>,
    pub retry_recovery: Option<JsonView>,
    pub response_id: Option<Text>,
    pub upstream_provider: Option<Text>,
    pub usage: UsageView,
    pub stop_reason: StopReason,
    pub stop_details: Option<StopDetailsView>,
    pub error_message: Option<Text>,
    pub tool_call_abort_messages: Option<Seq<(Text, Text)>>,
    pub error_status: Option<u16>,
    pub error_id: Option<u64>,
    pub disabled_features: Option<Seq<Text>>,
    pub provider_payload: Option<JsonView>,
    pub timestamp: i64,
    pub duration: Option<u64>,
    pub ttft: Option<u64>,
}

#[verifier::ext_equal]
pub enum UserBlockView {
    Text(TextView),
    Image(ImageView),
}

#[verifier::ext_equal]
pub enum UserContentView {
    Text(Text),
    Blocks(Seq<UserBlockView>),
}

#[verifier::ext_equal]
pub struct UserView {
    pub content: UserContentView,
    pub synthetic: Option<bool>,
    pub steering: Option<bool>,
    pub attribution: Option<MessageAttribution>,
    pub provider_payload: Option<JsonView>,
    pub timestamp: i64,
}

#[verifier::ext_equal]
pub struct DeveloperView {
    pub content: UserContentView,
    pub attribution: Option<MessageAttribution>,
    pub provider_payload: Option<JsonView>,
    pub timestamp: i64,
}

#[verifier::ext_equal]
pub struct ToolResultView {
    pub tool_call_id: Text,
    pub tool_name: Text,
    pub content: Seq<UserBlockView>,
    pub details: Option<JsonView>,
    pub is_error: bool,
    pub attribution: Option<MessageAttribution>,
    pub pruned_at: Option<i64>,
    pub useless: Option<bool>,
    pub timestamp: i64,
}

#[verifier::ext_equal]
pub enum MessageView {
    User(UserView),
    Developer(DeveloperView),
    Assistant(AssistantView),
    ToolResult(ToolResultView),
}

impl DeepView for TextContent {
    type V = TextView;

    open spec fn deep_view(&self) -> TextView {
        TextView { text: self.text@, text_signature: self.text_signature.deep_view() }
    }
}

impl DeepView for ThinkingContent {
    type V = ThinkingView;

    open spec fn deep_view(&self) -> ThinkingView {
        ThinkingView {
            thinking: self.thinking@,
            thinking_signature: self.thinking_signature.deep_view(),
            item_id: self.item_id.deep_view(),
        }
    }
}

impl DeepView for ImageContent {
    type V = ImageView;

    open spec fn deep_view(&self) -> ImageView {
        ImageView { data: self.data@, mime_type: self.mime_type@, detail: self.detail.deep_view() }
    }
}

impl DeepView for ToolCall {
    type V = ToolCallView;

    open spec fn deep_view(&self) -> ToolCallView {
        ToolCallView {
            id: self.id@,
            name: self.name@,
            arguments: json_view(self.arguments),
            thought_signature: self.thought_signature.deep_view(),
            intent: self.intent.deep_view(),
            raw_block: self.raw_block.deep_view(),
            custom_wire_name: self.custom_wire_name.deep_view(),
        }
    }
}

impl DeepView for AssistantContent {
    type V = ContentView;

    open spec fn deep_view(&self) -> ContentView {
        match self {
            AssistantContent::Text(b) => ContentView::Text(b.deep_view()),
            AssistantContent::Thinking(b) => ContentView::Thinking(b.deep_view()),
            AssistantContent::RedactedThinking(b) => ContentView::RedactedThinking(b.data@),
            AssistantContent::Fallback(b) => ContentView::Fallback(b.from.model@, b.to.model@),
            AssistantContent::Image(b) => ContentView::Image(b.deep_view()),
            AssistantContent::ToolCall(b) => ContentView::ToolCall(b.deep_view()),
        }
    }
}

impl DeepView for UsageCost {
    type V = CostView;

    open spec fn deep_view(&self) -> CostView {
        CostView {
            input: self.input.deep_view(),
            output: self.output.deep_view(),
            cache_read: self.cache_read.deep_view(),
            cache_write: self.cache_write.deep_view(),
            total: self.total.deep_view(),
        }
    }
}

impl DeepView for Usage {
    type V = UsageView;

    open spec fn deep_view(&self) -> UsageView {
        UsageView {
            input: self.input,
            output: self.output,
            cache_read: self.cache_read,
            cache_write: self.cache_write,
            total_tokens: self.total_tokens,
            orchestration: self.orchestration,
            premium_requests: self.premium_requests,
            reasoning_tokens: self.reasoning_tokens,
            cttl: self.cttl,
            server: self.server,
            cost: self.cost.deep_view(),
        }
    }
}

impl DeepView for StopDetails {
    type V = StopDetailsView;

    open spec fn deep_view(&self) -> StopDetailsView {
        StopDetailsView {
            detail_type: self.detail_type@,
            category: self.category.deep_view(),
            explanation: self.explanation.deep_view(),
        }
    }
}

impl DeepView for AssistantMessage {
    type V = AssistantView;

    open spec fn deep_view(&self) -> AssistantView {
        AssistantView {
            content: self.content.deep_view(),
            api: self.api@,
            provider: self.provider@,
            model: self.model@,
            context_snapshot: self.context_snapshot,
            retry_recovery: self.retry_recovery.deep_view(),
            response_id: self.response_id.deep_view(),
            upstream_provider: self.upstream_provider.deep_view(),
            usage: self.usage.deep_view(),
            stop_reason: self.stop_reason,
            stop_details: self.stop_details.deep_view(),
            error_message: self.error_message.deep_view(),
            tool_call_abort_messages: self.tool_call_abort_messages.deep_view(),
            error_status: self.error_status,
            error_id: self.error_id,
            disabled_features: self.disabled_features.deep_view(),
            provider_payload: self.provider_payload.deep_view(),
            timestamp: self.timestamp,
            duration: self.duration,
            ttft: self.ttft,
        }
    }
}

impl DeepView for UserContentBlock {
    type V = UserBlockView;

    open spec fn deep_view(&self) -> UserBlockView {
        match self {
            UserContentBlock::Text(b) => UserBlockView::Text(b.deep_view()),
            UserContentBlock::Image(b) => UserBlockView::Image(b.deep_view()),
        }
    }
}

impl DeepView for UserContent {
    type V = UserContentView;

    open spec fn deep_view(&self) -> UserContentView {
        match self {
            UserContent::Text(s) => UserContentView::Text(s@),
            UserContent::Blocks(b) => UserContentView::Blocks(b.deep_view()),
        }
    }
}

impl DeepView for UserMessage {
    type V = UserView;

    open spec fn deep_view(&self) -> UserView {
        UserView {
            content: self.content.deep_view(),
            synthetic: self.synthetic,
            steering: self.steering,
            attribution: self.attribution,
            provider_payload: self.provider_payload.deep_view(),
            timestamp: self.timestamp,
        }
    }
}

impl DeepView for DeveloperMessage {
    type V = DeveloperView;

    open spec fn deep_view(&self) -> DeveloperView {
        DeveloperView {
            content: self.content.deep_view(),
            attribution: self.attribution,
            provider_payload: self.provider_payload.deep_view(),
            timestamp: self.timestamp,
        }
    }
}

impl DeepView for ToolResultMessage {
    type V = ToolResultView;

    open spec fn deep_view(&self) -> ToolResultView {
        ToolResultView {
            tool_call_id: self.tool_call_id@,
            tool_name: self.tool_name@,
            content: self.content.deep_view(),
            details: self.details.deep_view(),
            is_error: self.is_error,
            attribution: self.attribution,
            pruned_at: self.pruned_at,
            useless: self.useless,
            timestamp: self.timestamp,
        }
    }
}

impl DeepView for Message {
    type V = MessageView;

    open spec fn deep_view(&self) -> MessageView {
        match self {
            Message::User(m) => MessageView::User(m.deep_view()),
            Message::Developer(m) => MessageView::Developer(m.deep_view()),
            Message::Assistant(m) => MessageView::Assistant((**m).deep_view()),
            Message::ToolResult(m) => MessageView::ToolResult(m.deep_view()),
        }
    }
}

// ---- copies ----------------------------------------------------------------

pub fn copy_text(o: &Option<String>) -> (r: Option<String>)
    ensures
        r == *o,
{
    match o {
        Some(s) => Some(s.clone()),
        None => None,
    }
}

pub fn copy_opt_json(o: &Option<Json>) -> (r: Option<Json>)
    ensures
        r.deep_view() == o.deep_view(),
{
    match o {
        Some(j) => Some(copy_json(j)),
        None => None,
    }
}

impl Clone for TextContent {
    fn clone(&self) -> (r: Self)
        ensures
            r == *self,
    {
        TextContent { text: self.text.clone(), text_signature: copy_text(&self.text_signature) }
    }
}

impl Clone for ThinkingContent {
    fn clone(&self) -> (r: Self)
        ensures
            r == *self,
    {
        ThinkingContent {
            thinking: self.thinking.clone(),
            thinking_signature: copy_text(&self.thinking_signature),
            item_id: copy_text(&self.item_id),
        }
    }
}

impl Clone for ImageContent {
    fn clone(&self) -> (r: Self)
        ensures
            r == *self,
    {
        ImageContent {
            data: self.data.clone(),
            mime_type: self.mime_type.clone(),
            detail: copy_text(&self.detail),
        }
    }
}

impl Clone for ModelRef {
    fn clone(&self) -> (r: Self)
        ensures
            r == *self,
    {
        ModelRef { model: self.model.clone() }
    }
}

impl Clone for StopDetails {
    fn clone(&self) -> (r: Self)
        ensures
            r == *self,
    {
        StopDetails {
            detail_type: self.detail_type.clone(),
            category: copy_text(&self.category),
            explanation: copy_text(&self.explanation),
        }
    }
}

impl Clone for ToolCall {
    fn clone(&self) -> (r: Self)
        ensures
            r.deep_view() == self.deep_view(),
    {
        ToolCall {
            id: self.id.clone(),
            name: self.name.clone(),
            arguments: copy_json(&self.arguments),
            thought_signature: copy_text(&self.thought_signature),
            intent: copy_text(&self.intent),
            raw_block: copy_text(&self.raw_block),
            custom_wire_name: copy_text(&self.custom_wire_name),
        }
    }
}

impl Clone for AssistantContent {
    fn clone(&self) -> (r: Self)
        ensures
            r.deep_view() == self.deep_view(),
    {
        match self {
            AssistantContent::Text(b) => AssistantContent::Text(b.clone()),
            AssistantContent::Thinking(b) => AssistantContent::Thinking(b.clone()),
            AssistantContent::RedactedThinking(b) => AssistantContent::RedactedThinking(
                RedactedThinkingContent { data: b.data.clone() },
            ),
            AssistantContent::Fallback(b) => AssistantContent::Fallback(
                FallbackContent { from: b.from.clone(), to: b.to.clone() },
            ),
            AssistantContent::Image(b) => AssistantContent::Image(b.clone()),
            AssistantContent::ToolCall(b) => AssistantContent::ToolCall(b.clone()),
        }
    }
}

impl Clone for UsageCost {
    fn clone(&self) -> (r: Self)
        ensures
            r.deep_view() == self.deep_view(),
    {
        UsageCost {
            input: copy_number(&self.input),
            output: copy_number(&self.output),
            cache_read: copy_number(&self.cache_read),
            cache_write: copy_number(&self.cache_write),
            total: copy_number(&self.total),
        }
    }
}

impl Clone for Usage {
    fn clone(&self) -> (r: Self)
        ensures
            r.deep_view() == self.deep_view(),
    {
        Usage {
            input: self.input,
            output: self.output,
            cache_read: self.cache_read,
            cache_write: self.cache_write,
            total_tokens: self.total_tokens,
            orchestration: self.orchestration,
            premium_requests: self.premium_requests,
            reasoning_tokens: self.reasoning_tokens,
            cttl: self.cttl,
            server: self.server,
            cost: self.cost.clone(),
        }
    }
}

/// Copies of the blocks of a message.
pub fn copy_content(v: &Vec<AssistantContent>) -> (r: Vec<AssistantContent>)
    ensures
        r.deep_view() == v.deep_view(),
{
    let mut out: Vec<AssistantContent> = Vec::new();
    let mut i: usize = 0;
    while i < v.len()
        invariant
            i <= v.len(),
            out.len() == i,
            forall|k: int| 0 <= k < i ==> (#[trigger] out@[k]).deep_view() == v@[k].deep_view(),
        decreases v.len() - i,
    {
        out.push(v[i].clone());
        i = i + 1;
    }
    assert(out.deep_view() =~= v.deep_view());
    out
}

pub fn copy_texts(v: &Vec<String>) -> (r: Vec<String>)
    ensures
        r.deep_view() == v.deep_view(),
{
    let mut out: Vec<String> = Vec::new();
    let mut i: usize = 0;
    while i < v.len()
        invariant
            i <= v.len(),
            out.len() == i,
            forall|k: int| 0 <= k < i ==> (#[trigger] out@[k])@ == v@[k]@,
        decreases v.len() - i,
    {
        out.push(v[i].clone());
        i = i + 1;
    }
    assert(out.deep_view() =~= v.deep_view());
    out
}

pub fn copy_pairs(v: &Vec<(String, String)>) -> (r: Vec<(String, String)>)
    ensures
        r.deep_view() == v.deep_view(),
{
    let mut out: Vec<(String, String)> = Vec::new();
    let mut i: usize = 0;
    while i < v.len()
        invariant
            i <= v.len(),
            out.len() == i,
            forall|k: int| 0 <= k < i ==> (#[trigger] out@[k]).0@ == v@[k].0@ && out@[k].1@ == v@[k].1@,
        decreases v.len() - i,
    {
        out.push((v[i].0.clone(), v[i].1.clone()));
        i = i + 1;
    }
    assert(out.deep_view() =~= v.deep_view());
    out
}

impl Clone for AssistantMessage {
    fn clone(&self) -> (r: Self)
        ensures
            r.deep_view() == self.deep_view(),
    {
        AssistantMessage {
            content: copy_content(&self.content),
            api: self.api.clone(),
            provider: self.provider.clone(),
            model: self.model.clone(),
            context_snapshot: self.context_snapshot,
            retry_recovery: copy_opt_json(&self.retry_recovery),
            response_id: copy_text(&self.response_id),
            upstream_provider: copy_text(&self.upstream_provider),
            usage: self.usage.clone(),
            stop_reason: self.stop_reason,
            stop_details: match &self.stop_details {
                Some(d) => Some(d.clone()),
                None => None,
            },
            error_message: copy_text(&self.error_message),
            tool_call_abort_messages: match &self.tool_call_abort_messages {
                Some(m) => Some(copy_pairs(m)),
                None => None,
            },
            error_status: self.error_status,
            error_id: self.error_id,
            disabled_features: match &self.disabled_features {
                Some(f) => Some(copy_texts(f)),
                None => None,
            },
            provider_payload: copy_opt_json(&self.provider_payload),
            timestamp: self.timestamp,
            duration: self.duration,
            ttft: self.ttft,
        }
    }
}

impl Clone for UserContentBlock {
    fn clone(&self) -> (r: Self)
        ensures
            r == *self,
    {
        match self {
            UserContentBlock::Text(b) => UserContentBlock::Text(b.clone()),
            UserContentBlock::Image(b) => UserContentBlock::Image(b.clone()),
        }
    }
}

pub fn copy_user_blocks(v: &Vec<UserContentBlock>) -> (r: Vec<UserContentBlock>)
    ensures
        r@ == v@,
        r.deep_view() == v.deep_view(),
{
    let mut out: Vec<UserContentBlock> = Vec::new();
    let mut i: usize = 0;
    while i < v.len()
        invariant
            i <= v.len(),
            out.len() == i,
            forall|k: int| 0 <= k < i ==> #[trigger] out@[k] == v@[k],
        decreases v.len() - i,
    {
        out.push(v[i].clone());
        i = i + 1;
    }
    assert(out@ =~= v@);
    assert(out.deep_view() =~= v.deep_view());
    out
}

impl Clone for UserContent {
    fn clone(&self) -> (r: Self)
        ensures
            r.deep_view() == self.deep_view(),
    {
        match self {
            UserContent::Text(s) => UserContent::Text(s.clone()),
            UserContent::Blocks(b) => UserContent::Blocks(copy_user_blocks(b)),
        }
    }
}

impl Clone for UserMessage {
    fn clone(&self) -> (r: Self)
        ensures
            r.deep_view() == self.deep_view(),
    {
        UserMessage {
            content: self.content.clone(),
            synthetic: self.synthetic,
            steering: self.steering,
            attribution: self.attribution,
            provider_payload: copy_opt_json(&self.provider_payload),
            timestamp: self.timestamp,
        }
    }
}

impl Clone for DeveloperMessage {
    fn clone(&self) -> (r: Self)
        ensures
            r.deep_view() == self.deep_view(),
    {
        DeveloperMessage {
            content: self.content.clone(),
            attribution: self.attribution,
            provider_payload: copy_opt_json(&self.provider_payload),
            timestamp: self.timestamp,
        }
    }
}

impl Clone for ToolResultMessage {
    fn clone(&self) -> (r: Self)
        ensures
            r.deep_view() == self.deep_view(),
    {
        ToolResultMessage {
            tool_call_id: self.tool_call_id.clone(),
            tool_name: self.tool_name.clone(),
            content: copy_user_blocks(&self.content),
            details: copy_opt_json(&self.details),
            is_error: self.is_error,
            attribution: self.attribution,
            pruned_at: self.pruned_at,
            useless: self.useless,
            timestamp: self.timestamp,
        }
    }
}

impl Clone for Message {
    fn clone(&self) -> (r: Self)
        ensures
            r.deep_view() == self.deep_view(),
    {
        match self {
            Message::User(m) => Message::User(m.clone()),
            Message::Developer(m) => Message::Developer(m.clone()),
            Message::Assistant(m) => Message::Assistant(Box::new((**m).clone())),
            Message::ToolResult(m) => Message::ToolResult(m.clone()),
        }
    }
}

/// Copies of messages.
pub fn copy_messages(v: &Vec<Message>) -> (r: Vec<Message>)
    ensures
        r.deep_view() == v.deep_view(),
{
    let mut out: Vec<Message> = Vec::new();
    let mut i: usize = 0;
    while i < v.len()
        invariant
            i <= v.len(),
            out.len() == i,
            forall|k: int| 0 <= k < i ==> (#[trigger] out@[k]).deep_view() == v@[k].deep_view(),
        decreases v.len() - i,
    {
        out.push(v[i].clone());
        i = i + 1;
    }
    assert(out.deep_view() =~= v.deep_view());
    out
}

/// The views of a sequence of values.
pub open spec fn views<T: DeepView>(v: Seq<T>) -> Seq<T::V> {
    Seq::new(v.len(), |i: int| v[i].deep_view())
}

// ---- what a new turn starts with ------------------------------------------

pub open spec fn zero_cost() -> CostView {
    CostView {
        input: NumberView::PosInt(0),
        output: NumberView::PosInt(0),
        cache_read: NumberView::PosInt(0),
        cache_write: NumberView::PosInt(0),
        total: NumberView::PosInt(0),
    }
}

pub open spec fn zero_usage() -> UsageView {
    UsageView {
        input: 0,
        output: 0,
        cache_read: 0,
        cache_write: 0,
        total_tokens: 0,
        orchestration: None,
        premium_requests: None,
        reasoning_tokens: None,
        cttl: None,
        server: None,
        cost: zero_cost(),
    }
}

impl Default for UsageCost {
    fn default() -> (r: Self)
        ensures
            r.deep_view() == zero_cost(),
    {
        UsageCost {
            input: JsonNumber::PosInt(0),
            output: JsonNumber::PosInt(0),
            cache_read: JsonNumber::PosInt(0),
            cache_write: JsonNumber::PosInt(0),
            total: JsonNumber::PosInt(0),
        }
    }
}

impl Default for Usage {
    fn default() -> (r: Self)
        ensures
            r.deep_view() == zero_usage(),
    {
        Usage {
            input: 0,
            output: 0,
            cache_read: 0,
            cache_write: 0,
            total_tokens: 0,
            orchestration: None,
            premium_requests: None,
            reasoning_tokens: None,
            cttl: None,
            server: None,
            cost: UsageCost::default(),
        }
    }
}

} // verus!
