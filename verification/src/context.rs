//! The conversation that a journal holds, as the model is to see it.
//!
//! The branch that ends in the leaf is replayed: the settings on it are taken in,
//! the newest compaction stands for what it sums up, and tool calls without a
//! result are left out.
use vstd::prelude::*;
use crate::entries::{
    branch, find_entry, id_of, last_with_id, lemma_last_with_id, positions, ref_view, walk_branch, CompactionEntry,
    KnownEntry, SessionEntry,
};
use crate::json::{copy_json, field_of, json_view, text_in, Json, JsonView};
use crate::message::{
    copy_opt_json, copy_text, AssistantContent, AssistantMessage, AssistantView, ContentView, Message,
    MessageAttribution, MessageView, Text, ThinkingContent, ThinkingView, UserContent, UserContentView,
};
use crate::text::{holds_text, joined, owned, same_text};
use crate::time::{iso_instant, iso_to_unix_ms};

verus! {

/// The message that stands for what a compaction sums up.
#[derive(Debug, PartialEq, Eq)]
pub struct CompactionSummaryMessage {
    pub summary: String,
    pub short_summary: Option<String>,
    pub tokens_before: i64,
    pub provider_payload: Option<Json>,
    pub blocks: Option<Vec<Json>>,
    pub images: Option<Vec<Json>>,
    pub warning: Option<String>,
    pub timestamp: i64,
}

/// The message that stands for another branch.
#[derive(Debug, PartialEq, Eq)]
pub struct BranchSummaryMessage {
    pub summary: String,
    pub from_id: String,
    pub timestamp: i64,
}

/// A message that an extension put into the conversation.
#[derive(Debug, PartialEq, Eq)]
pub struct CustomMessage {
    pub custom_type: String,
    pub content: UserContent,
    pub display: bool,
    pub details: Option<Json>,
    pub attribution: Option<MessageAttribution>,
    pub timestamp: i64,
}

#[derive(Debug, PartialEq, Eq)]
pub enum ContextMessage {
    Standard(Message),
    CompactionSummary(CompactionSummaryMessage),
    Custom(CustomMessage),
    BranchSummary(BranchSummaryMessage),
}

#[allow(inconsistent_fields)]
#[verifier::ext_equal]
pub enum ContextView {
    Standard(MessageView),
    CompactionSummary {
        summary: Text,
        short_summary: Option<Text>,
        tokens_before: i64,
        provider_payload: Option<JsonView>,
        blocks: Option<Seq<JsonView>>,
        images: Option<Seq<JsonView>>,
        warning: Option<Text>,
        timestamp: i64,
    },
    Custom {
        custom_type: Text,
        content: UserContentView,
        display: bool,
        details: Option<JsonView>,
        attribution: Option<MessageAttribution>,
        timestamp: i64,
    },
    BranchSummary { summary: Text, from_id: Text, timestamp: i64 },
}

impl DeepView for ContextMessage {
    type V = ContextView;

    open spec fn deep_view(&self) -> ContextView {
        match self {
            ContextMessage::Standard(m) => ContextView::Standard(m.deep_view()),
            ContextMessage::CompactionSummary(m) => ContextView::CompactionSummary {
                summary: m.summary@,
                short_summary: m.short_summary.deep_view(),
                tokens_before: m.tokens_before,
                provider_payload: m.provider_payload.deep_view(),
                blocks: m.blocks.deep_view(),
                images: m.images.deep_view(),
                warning: m.warning.deep_view(),
                timestamp: m.timestamp,
            },
            ContextMessage::Custom(m) => ContextView::Custom {
                custom_type: m.custom_type@,
                content: m.content.deep_view(),
                display: m.display,
                details: m.details.deep_view(),
                attribution: m.attribution,
                timestamp: m.timestamp,
            },
            ContextMessage::BranchSummary(m) => ContextView::BranchSummary {
                summary: m.summary@,
                from_id: m.from_id@,
                timestamp: m.timestamp,
            },
        }
    }
}

/// The conversation with the settings that hold at its end.
#[derive(Debug, PartialEq, Eq)]
pub struct SessionContext {
    pub messages: Vec<ContextMessage>,
    /// The model of each role, in the order in which the roles came up.
    pub models: Vec<(String, String)>,
    pub thinking_level: Option<String>,
    pub service_tier: Option<Json>,
    pub mode: String,
}

/// The instant of an entry, in Unix milliseconds; zero where it has none.
pub open spec fn instant_or_zero(t: Text) -> i64 {
    match iso_instant(t) {
        Some(ms) => ms as i64,
        None => 0,
    }
}

fn entry_instant(t: &str) -> (r: i64)
    ensures
        r == instant_or_zero(t@),
{
    match iso_to_unix_ms(t) {
        Ok(ms) => ms,
        Err(_) => 0,
    }
}

// ---- settings -----------------------------------------------------------------------

pub type Models = Seq<(Text, Text)>;

/// The position of a role, or the number of roles.
pub open spec fn role_pos(m: Models, role: Text) -> int
    decreases m.len(),
{
    if m.len() == 0 {
        0
    } else if m[0].0 == role {
        0
    } else {
        1 + role_pos(m.subrange(1, m.len() as int), role)
    }
}

/// The models with that of a role set.
pub open spec fn with_model(m: Models, role: Text, model: Text) -> Models {
    let p = role_pos(m, role);
    if 0 <= p < m.len() {
        m.update(p, (role, model))
    } else {
        m.push((role, model))
    }
}

#[verifier::ext_equal]
pub struct SettingsView {
    pub models: Models,
    pub thinking_level: Option<Text>,
    pub service_tier: Option<JsonView>,
    pub mode: Text,
    /// Whether the default model was set by an entry of its own.
    pub explicit_default: bool,
}

pub open spec fn initial_settings() -> SettingsView {
    SettingsView {
        models: Seq::empty(),
        thinking_level: Some("off"@),
        service_tier: None,
        mode: "none"@,
        explicit_default: false,
    }
}

/// The settings after an entry. Until the default model is set, it is the one of
/// the last response.
pub open spec fn settings_after(s: SettingsView, e: SessionEntry) -> SettingsView {
    match e {
        SessionEntry::Known(KnownEntry::ThinkingLevelChange(c)) => SettingsView {
            thinking_level: Some(
                match c.thinking_level {
                    Some(t) => t@,
                    None => "off"@,
                },
            ),
            ..s
        },
        SessionEntry::Known(KnownEntry::ModelChange(c)) => {
            let role = match c.role {
                Some(r) => r@,
                None => "default"@,
            };
            SettingsView {
                models: with_model(s.models, role, c.model@),
                explicit_default: s.explicit_default || role == "default"@,
                ..s
            }
        },
        SessionEntry::Known(KnownEntry::ServiceTierChange(c)) => SettingsView {
            service_tier: Some(json_view(c.service_tier)),
            ..s
        },
        SessionEntry::Known(KnownEntry::ModeChange(c)) => SettingsView { mode: c.mode@, ..s },
        SessionEntry::Known(KnownEntry::Message(m)) => match m.message {
            Message::Assistant(a) => if s.explicit_default {
                s
            } else {
                SettingsView {
                    models: with_model(
                        s.models,
                        "default"@,
                        a.provider@ + seq!['/'] + a.model@,
                    ),
                    ..s
                }
            },
            _ => s,
        },
        _ => s,
    }
}

pub open spec fn settings_of(path: Seq<SessionEntry>) -> SettingsView
    decreases path.len(),
{
    if path.len() == 0 {
        initial_settings()
    } else {
        settings_after(settings_of(path.drop_last()), path.last())
    }
}

// ---- messages --------------------------------------------------------------------------

/// Whether a response was lost and recovered by another: it is not replayed.
pub open spec fn was_recovered(a: AssistantView) -> bool {
    match a.retry_recovery {
        Some(v) => text_in(field_of(v, "status"@)) == Some("recovered"@),
        None => false,
    }
}

/// The message that an entry stands for, if it stands for one.
pub open spec fn message_of(e: SessionEntry) -> Option<ContextView> {
    match e {
        SessionEntry::Known(KnownEntry::Message(m)) => match m.message.deep_view() {
            MessageView::Assistant(a) => if was_recovered(a) {
                None
            } else {
                Some(ContextView::Standard(MessageView::Assistant(a)))
            },
            other => Some(ContextView::Standard(other)),
        },
        SessionEntry::Known(KnownEntry::CustomMessage(c)) => Some(
            ContextView::Custom {
                custom_type: c.custom_type@,
                content: c.content.deep_view(),
                display: c.display,
                details: c.details.deep_view(),
                attribution: c.attribution,
                timestamp: instant_or_zero(c.timestamp@),
            },
        ),
        SessionEntry::Known(KnownEntry::BranchSummary(b)) => if b.summary@.len() == 0 {
            None
        } else {
            Some(
                ContextView::BranchSummary {
                    summary: b.summary@,
                    from_id: b.from_id@,
                    timestamp: instant_or_zero(b.timestamp@),
                },
            )
        },
        _ => None,
    }
}

pub open spec fn messages_of(path: Seq<SessionEntry>) -> Seq<ContextView>
    decreases path.len(),
{
    if path.len() == 0 {
        Seq::empty()
    } else {
        let before = messages_of(path.drop_last());
        match message_of(path.last()) {
            Some(m) => before.push(m),
            None => before,
        }
    }
}

pub open spec fn is_compaction(e: SessionEntry) -> bool {
    match e {
        SessionEntry::Known(KnownEntry::Compaction(_)) => true,
        _ => false,
    }
}

/// The position of the last compaction of a path.
pub open spec fn last_compaction(path: Seq<SessionEntry>) -> Option<int>
    decreases path.len(),
{
    if path.len() == 0 {
        None
    } else if is_compaction(path.last()) {
        Some(path.len() - 1)
    } else {
        last_compaction(path.drop_last())
    }
}

/// The position of the first entry with an identifier, or the number of entries.
pub open spec fn first_with_id(path: Seq<SessionEntry>, id: Text) -> int
    decreases path.len(),
{
    if path.len() == 0 {
        0
    } else if id_of(path[0]) == Some(id) {
        0
    } else {
        1 + first_with_id(path.subrange(1, path.len() as int), id)
    }
}

pub open spec fn summary_of(c: CompactionEntry) -> ContextView {
    ContextView::CompactionSummary {
        summary: c.summary@,
        short_summary: c.short_summary.deep_view(),
        tokens_before: c.tokens_before,
        provider_payload: None,
        blocks: None,
        images: None,
        warning: c.warning.deep_view(),
        timestamp: instant_or_zero(c.timestamp@),
    }
}

/// The messages of a path. Its last compaction comes first, then the entries from
/// the first that it keeps up to it, then those behind it.
pub open spec fn replayed(path: Seq<SessionEntry>) -> Seq<ContextView> {
    match last_compaction(path) {
        None => messages_of(path),
        Some(c) => {
            let comp = path[c]->Known_0->Compaction_0;
            let before = path.take(c);
            let from = first_with_id(before, comp.first_kept_entry_id@);
            seq![summary_of(comp)] + messages_of(before.subrange(from, before.len() as int)) + messages_of(
                path.subrange(c + 1, path.len() as int),
            )
        },
    }
}

// ---- tool calls without a result -----------------------------------------------------------

/// Whether the messages hold a result of the call.
pub open spec fn is_paired(messages: Seq<ContextView>, id: Text) -> bool {
    exists|i: int| 0 <= i < messages.len() && answers_call(#[trigger] messages[i], id)
}

pub open spec fn answers_call(m: ContextView, id: Text) -> bool {
    match m {
        ContextView::Standard(MessageView::ToolResult(r)) => r.tool_call_id == id,
        _ => false,
    }
}

/// Whether a block is a tool call that is not among the paired ones.
pub open spec fn dangles(b: ContentView, paired: Seq<Text>) -> bool {
    match b {
        ContentView::ToolCall(c) => !paired.contains(c.id),
        _ => false,
    }
}

pub open spec fn any_dangles(content: Seq<ContentView>, paired: Seq<Text>) -> bool {
    exists|i: int| 0 <= i < content.len() && dangles(#[trigger] content[i], paired)
}

/// The blocks of a turn that is rewritten: without the calls that dangle and
/// without encrypted reasoning, and with reasoning unsigned.
pub open spec fn rewritten(content: Seq<ContentView>, paired: Seq<Text>) -> Seq<ContentView>
    decreases content.len(),
{
    if content.len() == 0 {
        Seq::empty()
    } else {
        let before = rewritten(content.drop_last(), paired);
        let b = content.last();
        if dangles(b, paired) || b is RedactedThinking {
            before
        } else {
            match b {
                ContentView::Thinking(t) => before.push(
                    ContentView::Thinking(ThinkingView { thinking_signature: None, ..t }),
                ),
                _ => before.push(b),
            }
        }
    }
}

/// A message without calls that dangle; none where nothing is left of it.
pub open spec fn stripped_message(m: ContextView, paired: Seq<Text>) -> Option<ContextView> {
    match m {
        ContextView::Standard(MessageView::Assistant(a)) => if any_dangles(a.content, paired) {
            let content = rewritten(a.content, paired);
            if content.len() == 0 {
                None
            } else {
                Some(ContextView::Standard(MessageView::Assistant(AssistantView { content, ..a })))
            }
        } else {
            Some(m)
        },
        _ => Some(m),
    }
}

pub open spec fn stripped_with(messages: Seq<ContextView>, paired: Seq<Text>) -> Seq<ContextView>
    decreases messages.len(),
{
    if messages.len() == 0 {
        Seq::empty()
    } else {
        let before = stripped_with(messages.drop_last(), paired);
        match stripped_message(messages.last(), paired) {
            Some(m) => before.push(m),
            None => before,
        }
    }
}

/// The calls that the messages hold a result of, in the order of the results.
pub open spec fn paired_calls(messages: Seq<ContextView>) -> Seq<Text>
    decreases messages.len(),
{
    if messages.len() == 0 {
        Seq::empty()
    } else {
        match messages.last() {
            ContextView::Standard(MessageView::ToolResult(r)) => paired_calls(messages.drop_last()).push(
                r.tool_call_id,
            ),
            _ => paired_calls(messages.drop_last()),
        }
    }
}

/// The messages without tool calls that have no result among them.
pub open spec fn stripped(messages: Seq<ContextView>) -> Seq<ContextView> {
    stripped_with(messages, paired_calls(messages))
}

// ---- the context -----------------------------------------------------------------------------

/// The entries of the branch that ends in the leaf, from its root on. Without a
/// leaf named, the last entry is it.
pub open spec fn path_to(entries: Seq<SessionEntry>, leaf: Option<int>) -> Seq<SessionEntry> {
    let b = branch(entries, leaf);
    Seq::new(b.len(), |i: int| entries[b[b.len() - 1 - i]])
}

pub open spec fn leaf_of(entries: Seq<SessionEntry>, leaf_id: Option<Text>) -> Option<int> {
    match leaf_id {
        Some(id) => last_with_id(entries, id),
        None => if entries.len() > 0 {
            Some(entries.len() - 1)
        } else {
            None
        },
    }
}

fn entry_message(e: &SessionEntry) -> (r: Option<ContextMessage>)
    ensures
        r.deep_view() == message_of(*e),
{
    match e {
        SessionEntry::Known(KnownEntry::Message(m)) => {
            if let Message::Assistant(a) = &m.message {
                if recovered(a) {
                    return None;
                }
            }
            Some(ContextMessage::Standard(m.message.clone()))
        },
        SessionEntry::Known(KnownEntry::CustomMessage(c)) => Some(
            ContextMessage::Custom(
                CustomMessage {
                    custom_type: c.custom_type.clone(),
                    content: c.content.clone(),
                    display: c.display,
                    details: copy_opt_json(&c.details),
                    attribution: c.attribution,
                    timestamp: entry_instant(c.timestamp.as_str()),
                },
            ),
        ),
        SessionEntry::Known(KnownEntry::BranchSummary(b)) => if b.summary.as_str().is_empty() {
            None
        } else {
            Some(
                ContextMessage::BranchSummary(
                    BranchSummaryMessage {
                        summary: b.summary.clone(),
                        from_id: b.from_id.clone(),
                        timestamp: entry_instant(b.timestamp.as_str()),
                    },
                ),
            )
        },
        _ => None,
    }
}

fn recovered(a: &AssistantMessage) -> (r: bool)
    ensures
        r == was_recovered(a.deep_view()),
{
    match &a.retry_recovery {
        Some(v) => match v.get("status") {
            Some(Json::String(s)) => same_text(s.as_str(), "recovered"),
            _ => false,
        },
        None => false,
    }
}

/// The entries at positions.
pub open spec fn at_positions(entries: Seq<SessionEntry>, p: Seq<usize>) -> Seq<SessionEntry> {
    Seq::new(p.len(), |i: int| entries[p[i] as int])
}

/// Appends the messages of the entries at the positions `from..to` of a path.
fn append_messages(
    entries: &Vec<SessionEntry>,
    path: &Vec<usize>,
    from: usize,
    to: usize,
    out: &mut Vec<ContextMessage>,
)
    requires
        from <= to <= path.len(),
        forall|k: int| 0 <= k < path@.len() ==> #[trigger] path@[k] < entries.len(),
    ensures
        final(out).deep_view() == old(out).deep_view() + messages_of(
            at_positions(entries@, path@).subrange(from as int, to as int),
        ),
{
    let ghost p = at_positions(entries@, path@);
    let ghost start = out.deep_view();
    let mut i: usize = from;
    assert(p.subrange(from as int, from as int) =~= Seq::empty());
    assert(start + Seq::<ContextView>::empty() =~= start);
    while i < to
        invariant
            p == at_positions(entries@, path@),
            from <= i <= to <= path.len(),
            forall|k: int| 0 <= k < path@.len() ==> #[trigger] path@[k] < entries.len(),
            out.deep_view() == start + messages_of(p.subrange(from as int, i as int)),
        decreases to - i,
    {
        let ghost before = out.deep_view();
        proof {
            assert(p.subrange(from as int, i + 1).drop_last() =~= p.subrange(from as int, i as int));
            assert(p.subrange(from as int, i + 1).last() == p[i as int]);
        }
        let at = path[i];
        if let Some(m) = entry_message(&entries[at]) {
            let ghost view = m.deep_view();
            out.push(m);
            assert(out.deep_view() =~= before.push(view));
            assert(out.deep_view() =~= start + messages_of(p.subrange(from as int, i + 1)));
        }
        i = i + 1;
    }
}

fn find_role(models: &Vec<(String, String)>, role: &str) -> (p: usize)
    ensures
        p == role_pos(models.deep_view(), role@),
        p <= models.len(),
{
    let ghost m = models.deep_view();
    let mut i: usize = 0;
    assert(m.subrange(0, m.len() as int) =~= m);
    while i < models.len()
        invariant
            m == models.deep_view(),
            i <= models.len(),
            role_pos(m, role@) == i + role_pos(m.subrange(i as int, m.len() as int), role@),
        decreases models.len() - i,
    {
        let ghost rest = m.subrange(i as int, m.len() as int);
        assert(rest[0].0 == models@[i as int].0@);
        assert(rest.subrange(1, rest.len() as int) =~= m.subrange(i + 1, m.len() as int));
        if same_text(models[i].0.as_str(), role) {
            return i;
        }
        i = i + 1;
    }
    i
}

fn set_model(models: &mut Vec<(String, String)>, role: &str, model: String)
    ensures
        final(models).deep_view() == with_model(old(models).deep_view(), role@, model@),
{
    let ghost before = models.deep_view();
    let p = find_role(models, role);
    assert(before.len() == models.len());
    let pair = (owned(role), model);
    if p < models.len() {
        models.set(p, pair);
    } else {
        models.push(pair);
    }
    assert(models.deep_view() =~= with_model(before, role@, model@));
}

struct Settings {
    models: Vec<(String, String)>,
    thinking_level: Option<String>,
    service_tier: Option<Json>,
    mode: String,
    explicit_default: bool,
}

impl DeepView for Settings {
    type V = SettingsView;

    closed spec fn deep_view(&self) -> SettingsView {
        SettingsView {
            models: self.models.deep_view(),
            thinking_level: self.thinking_level.deep_view(),
            service_tier: self.service_tier.deep_view(),
            mode: self.mode@,
            explicit_default: self.explicit_default,
        }
    }
}

fn take_setting(s: &mut Settings, e: &SessionEntry)
    ensures
        final(s).deep_view() == settings_after(old(s).deep_view(), *e),
{
    match e {
        SessionEntry::Known(KnownEntry::ThinkingLevelChange(c)) => {
            s.thinking_level = Some(
                match &c.thinking_level {
                    Some(t) => t.clone(),
                    None => owned("off"),
                },
            );
        },
        SessionEntry::Known(KnownEntry::ModelChange(c)) => {
            let role = match &c.role {
                Some(r) => r.clone(),
                None => owned("default"),
            };
            if same_text(role.as_str(), "default") {
                s.explicit_default = true;
            }
            set_model(&mut s.models, role.as_str(), c.model.clone());
        },
        SessionEntry::Known(KnownEntry::ServiceTierChange(c)) => {
            s.service_tier = Some(copy_json(&c.service_tier));
        },
        SessionEntry::Known(KnownEntry::ModeChange(c)) => {
            s.mode = c.mode.clone();
        },
        SessionEntry::Known(KnownEntry::Message(m)) => {
            if let Message::Assistant(a) = &m.message {
                if !s.explicit_default {
                    let mut name = a.provider.clone();
                    name.push('/');
                    assert(name@ =~= a.provider@ + seq!['/']);
                    let full = joined(name.as_str(), a.model.as_str());
                    set_model(&mut s.models, "default", full);
                }
            }
        },
        _ => {},
    }
}

fn summary_message(c: &CompactionEntry) -> (r: ContextMessage)
    ensures
        r.deep_view() == summary_of(*c),
{
    ContextMessage::CompactionSummary(
        CompactionSummaryMessage {
            summary: c.summary.clone(),
            short_summary: copy_text(&c.short_summary),
            tokens_before: c.tokens_before,
            provider_payload: None,
            blocks: None,
            images: None,
            warning: copy_text(&c.warning),
            timestamp: entry_instant(c.timestamp.as_str()),
        },
    )
}

/// The position of the last compaction on a path.
fn find_compaction(entries: &Vec<SessionEntry>, path: &Vec<usize>) -> (r: Option<usize>)
    requires
        forall|k: int| 0 <= k < path@.len() ==> #[trigger] path@[k] < entries.len(),
    ensures
        match r {
            Some(c) => last_compaction(at_positions(entries@, path@)) == Some(c as int) && c < path.len()
                && is_compaction(entries@[path@[c as int] as int]),
            None => last_compaction(at_positions(entries@, path@)) is None,
        },
{
    let ghost p = at_positions(entries@, path@);
    let mut n: usize = path.len();
    assert(p.take(n as int) =~= p);
    while n > 0
        invariant
            p == at_positions(entries@, path@),
            n <= path.len(),
            forall|k: int| 0 <= k < path@.len() ==> #[trigger] path@[k] < entries.len(),
            last_compaction(p) == last_compaction(p.take(n as int)),
        decreases n,
    {
        proof {
            assert(p.take(n as int).last() == p[n - 1]);
            assert(p.take(n as int).drop_last() =~= p.take(n - 1));
        }
        let at = path[n - 1];
        if let SessionEntry::Known(KnownEntry::Compaction(_)) = &entries[at] {
            return Some(n - 1);
        }
        n = n - 1;
    }
    None
}

/// The position of the first entry with an identifier among the first `n` of a
/// path, or `n`.
fn find_first(entries: &Vec<SessionEntry>, path: &Vec<usize>, n: usize, id: &str) -> (r: usize)
    requires
        n <= path.len(),
        forall|k: int| 0 <= k < path@.len() ==> #[trigger] path@[k] < entries.len(),
    ensures
        r == first_with_id(at_positions(entries@, path@).take(n as int), id@),
        r <= n,
{
    let ghost p = at_positions(entries@, path@).take(n as int);
    let mut i: usize = 0;
    assert(p.subrange(0, p.len() as int) =~= p);
    while i < n
        invariant
            p == at_positions(entries@, path@).take(n as int),
            i <= n <= path.len(),
            forall|k: int| 0 <= k < path@.len() ==> #[trigger] path@[k] < entries.len(),
            first_with_id(p, id@) == i + first_with_id(p.subrange(i as int, p.len() as int), id@),
        decreases n - i,
    {
        let ghost rest = p.subrange(i as int, p.len() as int);
        assert(rest[0] == entries@[path@[i as int] as int]);
        assert(rest.subrange(1, rest.len() as int) =~= p.subrange(i + 1, p.len() as int));
        let at = path[i];
        if let Some(other) = entries[at].id() {
            if same_text(other, id) {
                return i;
            }
        }
        i = i + 1;
    }
    i
}

fn block_dangles(b: &AssistantContent, paired: &Vec<String>) -> (r: bool)
    ensures
        r == dangles(b.deep_view(), paired.deep_view()),
{
    match b {
        AssistantContent::ToolCall(c) => !holds_text(paired, c.id.as_str()),
        _ => false,
    }
}

fn rewrite(content: &Vec<AssistantContent>, paired: &Vec<String>) -> (r: Vec<AssistantContent>)
    ensures
        r.deep_view() == rewritten(content.deep_view(), paired.deep_view()),
{
    let ghost c = content.deep_view();
    let ghost pv = paired.deep_view();
    let mut out: Vec<AssistantContent> = Vec::new();
    let mut i: usize = 0;
    assert(c.take(0) =~= Seq::empty());
    assert(out.deep_view() =~= Seq::empty());
    while i < content.len()
        invariant
            c == content.deep_view(),
            pv == paired.deep_view(),
            i <= content.len(),
            out.deep_view() == rewritten(c.take(i as int), pv),
        decreases content.len() - i,
    {
        let ghost before = out.deep_view();
        assert(c.take(i + 1).drop_last() =~= c.take(i as int));
        assert(c.take(i + 1).last() == content@[i as int].deep_view());
        let gone = block_dangles(&content[i], paired) || match &content[i] {
            AssistantContent::RedactedThinking(_) => true,
            _ => false,
        };
        if !gone {
            let block = match &content[i] {
                AssistantContent::Thinking(t) => AssistantContent::Thinking(
                    ThinkingContent {
                        thinking: t.thinking.clone(),
                        thinking_signature: None,
                        item_id: copy_text(&t.item_id),
                    },
                ),
                other => other.clone(),
            };
            let ghost view = block.deep_view();
            out.push(block);
            assert(out.deep_view() =~= before.push(view));
        }
        i = i + 1;
    }
    assert(c.take(content.len() as int) =~= c);
    out
}

fn has_dangling(content: &Vec<AssistantContent>, paired: &Vec<String>) -> (r: bool)
    ensures
        r == any_dangles(content.deep_view(), paired.deep_view()),
{
    let ghost c = content.deep_view();
    let mut i: usize = 0;
    while i < content.len()
        invariant
            c == content.deep_view(),
            i <= content.len(),
            forall|k: int| 0 <= k < i ==> !dangles(#[trigger] c[k], paired.deep_view()),
        decreases content.len() - i,
    {
        assert(c[i as int] == content@[i as int].deep_view());
        if block_dangles(&content[i], paired) {
            return true;
        }
        i = i + 1;
    }
    false
}

/// Drops the tool calls that have no result among the messages.
#[verifier::rlimit(40)]
pub fn strip_dangling_tool_calls(messages: Vec<ContextMessage>) -> (r: Vec<ContextMessage>)
    ensures
        r.deep_view() == stripped(messages.deep_view()),
{
    let ghost ms = messages.deep_view();
    let mut paired: Vec<String> = Vec::new();
    let mut i: usize = 0;
    assert(ms.take(0) =~= Seq::empty());
    assert(paired.deep_view() =~= Seq::empty());
    while i < messages.len()
        invariant
            ms == messages.deep_view(),
            i <= messages.len(),
            paired.deep_view() == paired_calls(ms.take(i as int)),
        decreases messages.len() - i,
    {
        let ghost before = paired.deep_view();
        assert(ms.take(i + 1).drop_last() =~= ms.take(i as int));
        assert(ms.take(i + 1).last() == messages@[i as int].deep_view());
        if let ContextMessage::Standard(Message::ToolResult(t)) = &messages[i] {
            paired.push(t.tool_call_id.clone());
            assert(paired.deep_view() =~= before.push(t.tool_call_id@));
        }
        i = i + 1;
    }
    assert(ms.take(messages.len() as int) =~= ms);
    let ghost pv = paired.deep_view();
    let ghost n = messages.len();
    let mut rest = messages;
    let mut back: Vec<ContextMessage> = Vec::new();
    // The messages are taken off the end, so that each is moved once.
    while rest.len() > 0
        invariant
            ms.len() == n,
            rest.len() + back.len() == n,
            rest.deep_view() == ms.take(rest.len() as int),
            back.deep_view() == ms.subrange(rest.len() as int, n as int).reverse(),
        decreases rest.len(),
    {
        let ghost k = rest.len() - 1;
        let ghost taken = back.deep_view();
        assert(rest.deep_view()[k] == rest@[k].deep_view());
        if let Some(m) = rest.pop() {
            let ghost view = m.deep_view();
            back.push(m);
            proof {
                assert(rest.deep_view() =~= ms.take(k));
                assert(back.deep_view() =~= taken.push(view));
                assert(ms.subrange(k, n as int).reverse() =~= taken.push(view));
            }
        }
    }
    let mut out: Vec<ContextMessage> = Vec::new();
    let mut done: usize = 0;
    assert(out.deep_view() =~= Seq::empty());
    assert(ms.subrange(0, n as int) =~= ms);
    while back.len() > 0
        invariant
            ms.len() == n,
            pv == paired.deep_view(),
            done + back.len() == n,
            back.deep_view() == ms.subrange(done as int, n as int).reverse(),
            out.deep_view() == stripped_with(ms.take(done as int), pv),
        decreases back.len(),
    {
        let ghost d = done as int;
        let ghost before = out.deep_view();
        let ghost left = back.deep_view();
        proof {
            assert(ms.take(d + 1).drop_last() =~= ms.take(d));
            assert(ms.take(d + 1).last() == ms[d]);
            assert(left.last() == ms[d]);
            assert(left.last() == back@[back@.len() - 1].deep_view());
            assert(left.drop_last() =~= ms.subrange(d + 1, n as int).reverse());
        }
        if let Some(m) = back.pop() {
            assert(back.deep_view() =~= left.drop_last());
            let kept = strip_message(m, &paired);
            if let Some(m) = kept {
                let ghost view = m.deep_view();
                out.push(m);
                assert(out.deep_view() =~= before.push(view));
            }
        }
        done = done + 1;
    }
    assert(ms.take(n as int) =~= ms);
    out
}

fn strip_message(m: ContextMessage, paired: &Vec<String>) -> (r: Option<ContextMessage>)
    ensures
        r.deep_view() == stripped_message(m.deep_view(), paired.deep_view()),
{
    match m {
        ContextMessage::Standard(Message::Assistant(a)) => {
            if !has_dangling(&a.content, paired) {
                return Some(ContextMessage::Standard(Message::Assistant(a)));
            }
            let content = rewrite(&a.content, paired);
            assert(content.deep_view().len() == content.len());
            if content.len() == 0 {
                return None;
            }
            let mut turn = *a;
            turn.content = content;
            Some(ContextMessage::Standard(Message::Assistant(Box::new(turn))))
        },
        other => Some(other),
    }
}

/// The conversation of the branch that ends in the leaf.
#[verifier::rlimit(40)]
pub fn build_session_context(entries: &Vec<SessionEntry>, leaf_id: Option<&str>) -> (r: SessionContext)
    ensures
        match leaf_of(entries@, ref_view(leaf_id)) {
            None => r.messages@.len() == 0 && r.models@.len() == 0 && r.thinking_level is None && r.service_tier is None
                && r.mode@ == "none"@,
            Some(leaf) => ({
                let path = path_to(entries@, Some(leaf));
                let s = settings_of(path);
                &&& r.messages.deep_view() == stripped(replayed(path))
                &&& r.models.deep_view() == s.models
                &&& r.thinking_level.deep_view() == s.thinking_level
                &&& r.service_tier.deep_view() == s.service_tier
                &&& r.mode@ == s.mode
            }),
        },
{
    let leaf = match leaf_id {
        Some(id) => find_entry(entries, id),
        None => if entries.len() > 0 {
            Some(entries.len() - 1)
        } else {
            None
        },
    };
    if leaf.is_none() {
        return SessionContext {
            messages: Vec::new(),
            models: Vec::new(),
            thinking_level: None,
            service_tier: None,
            mode: owned("none"),
        };
    }
    let up = walk_branch(entries, leaf);
    let path = reversed(&up);
    let ghost b = positions(up@);
    let ghost full = path_to(entries@, leaf_of(entries@, ref_view(leaf_id)));
    let ghost p = at_positions(entries@, path@);
    assert forall|k: int| 0 <= k < path@.len() implies #[trigger] path@[k] < entries.len() by {
        assert(path@[k] == up@[up@.len() - 1 - k]);
    }
    assert(p =~= full);
    let mut s = Settings {
        models: Vec::new(),
        thinking_level: Some(owned("off")),
        service_tier: None,
        mode: owned("none"),
        explicit_default: false,
    };
    assert(s.models.deep_view() =~= Seq::empty());
    let mut i: usize = 0;
    assert(p.take(0) =~= Seq::empty());
    while i < path.len()
        invariant
            p == at_positions(entries@, path@),
            i <= path.len(),
            forall|k: int| 0 <= k < path@.len() ==> #[trigger] path@[k] < entries.len(),
            s.deep_view() == settings_of(p.take(i as int)),
        decreases path.len() - i,
    {
        assert(p.take(i + 1).drop_last() =~= p.take(i as int));
        assert(p.take(i + 1).last() == p[i as int]);
        let at = path[i];
        take_setting(&mut s, &entries[at]);
        i = i + 1;
    }
    assert(p.take(path.len() as int) =~= p);
    let messages = replay(entries, &path);
    let messages = strip_dangling_tool_calls(messages);
    SessionContext {
        messages,
        models: s.models,
        thinking_level: s.thinking_level,
        service_tier: s.service_tier,
        mode: s.mode,
    }
}

fn reversed(v: &Vec<usize>) -> (r: Vec<usize>)
    ensures
        r@.len() == v@.len(),
        forall|k: int| 0 <= k < r@.len() ==> #[trigger] r@[k] == v@[v@.len() - 1 - k],
{
    let mut out: Vec<usize> = Vec::new();
    let mut i: usize = v.len();
    while i > 0
        invariant
            i <= v.len(),
            out.len() == v.len() - i,
            forall|k: int| 0 <= k < out@.len() ==> #[trigger] out@[k] == v@[v@.len() - 1 - k],
        decreases i,
    {
        i = i - 1;
        out.push(v[i]);
    }
    out
}

/// The messages of a path.
fn replay(entries: &Vec<SessionEntry>, path: &Vec<usize>) -> (r: Vec<ContextMessage>)
    requires
        forall|k: int| 0 <= k < path@.len() ==> #[trigger] path@[k] < entries.len(),
    ensures
        r.deep_view() == replayed(at_positions(entries@, path@)),
{
    let ghost p = at_positions(entries@, path@);
    let mut out: Vec<ContextMessage> = Vec::new();
    assert(out.deep_view() =~= Seq::empty());
    match find_compaction(entries, path) {
        None => {
            append_messages(entries, path, 0, path.len(), &mut out);
            assert(p.subrange(0, p.len() as int) =~= p);
            assert(Seq::<ContextView>::empty() + messages_of(p) =~= messages_of(p));
        },
        Some(c) => {
            let at = path[c];
            if let SessionEntry::Known(KnownEntry::Compaction(comp)) = &entries[at] {
                let first = summary_message(comp);
                let ghost view = first.deep_view();
                out.push(first);
                assert(out.deep_view() =~= seq![view]);
                let from = find_first(entries, path, c, comp.first_kept_entry_id.as_str());
                append_messages(entries, path, from, c, &mut out);
                append_messages(entries, path, c + 1, path.len(), &mut out);
                proof {
                    let before = p.take(c as int);
                    assert(before.subrange(from as int, before.len() as int) =~= p.subrange(
                        from as int,
                        c as int,
                    ));
                }
            }
        },
    }
    out
}

// ---- what holds of every context --------------------------------------------------------------

proof fn lemma_paired_calls(messages: Seq<ContextView>, id: Text)
    ensures
        paired_calls(messages).contains(id) == is_paired(messages, id),
    decreases messages.len(),
{
    if messages.len() > 0 {
        let d = messages.drop_last();
        lemma_paired_calls(d, id);
        let before = paired_calls(d);
        let now = paired_calls(messages);
        if before.contains(id) {
            let k = choose|k: int| 0 <= k < before.len() && before[k] == id;
            assert(now[k] == id);
        }
        if is_paired(d, id) {
            let k = choose|k: int| 0 <= k < d.len() && answers_call(#[trigger] d[k], id);
            assert(messages[k] == d[k]);
        }
        if answers_call(messages.last(), id) {
            assert(now.last() == id);
            assert(now[now.len() - 1] == id);
            assert(answers_call(messages[messages.len() - 1], id));
        }
        if now.contains(id) && !before.contains(id) {
            let k = choose|k: int| 0 <= k < now.len() && now[k] == id;
            if k < before.len() {
                assert(before[k] == id);
            }
            assert(answers_call(messages.last(), id));
        }
        if is_paired(messages, id) && !is_paired(d, id) {
            let k = choose|k: int| 0 <= k < messages.len() && answers_call(#[trigger] messages[k], id);
            if k < d.len() {
                assert(d[k] == messages[k]);
            }
        }
    }
}

proof fn lemma_rewritten_paired(content: Seq<ContentView>, paired: Seq<Text>)
    ensures
        forall|i: int|
            0 <= i < rewritten(content, paired).len() ==> !dangles(#[trigger] rewritten(content, paired)[i], paired),
    decreases content.len(),
{
    if content.len() > 0 {
        lemma_rewritten_paired(content.drop_last(), paired);
        let before = rewritten(content.drop_last(), paired);
        let now = rewritten(content, paired);
        assert forall|i: int| 0 <= i < now.len() implies !dangles(#[trigger] now[i], paired) by {
            if i < before.len() {
                assert(now[i] == before[i]);
            } else {
                assert(!dangles(content.last(), paired));
            }
        }
    }
}

proof fn lemma_stripped_with(messages: Seq<ContextView>, paired: Seq<Text>, id: Text)
    ensures
        forall|i: int|
            0 <= i < stripped_with(messages, paired).len() ==> no_dangling(
                #[trigger] stripped_with(messages, paired)[i],
                paired,
            ),
        is_paired(messages, id) == is_paired(stripped_with(messages, paired), id),
    decreases messages.len(),
{
    if messages.len() > 0 {
        let d = messages.drop_last();
        lemma_stripped_with(d, paired, id);
        let before = stripped_with(d, paired);
        let now = stripped_with(messages, paired);
        let m = messages.last();
        if let ContextView::Standard(MessageView::Assistant(a)) = m {
            lemma_rewritten_paired(a.content, paired);
        }
        if is_paired(d, id) {
            let k = choose|k: int| 0 <= k < d.len() && answers_call(#[trigger] d[k], id);
            assert(messages[k] == d[k]);
            let l = choose|l: int| 0 <= l < before.len() && answers_call(#[trigger] before[l], id);
            assert(now[l] == before[l]);
        }
        if answers_call(m, id) {
            assert(answers_call(messages[messages.len() - 1], id));
            assert(now.last() == m);
            assert(answers_call(now[now.len() - 1], id));
        }
        if is_paired(messages, id) && !is_paired(d, id) {
            let k = choose|k: int| 0 <= k < messages.len() && answers_call(#[trigger] messages[k], id);
            if k < d.len() {
                assert(d[k] == messages[k]);
            }
        }
        if is_paired(now, id) && !is_paired(before, id) {
            let k = choose|k: int| 0 <= k < now.len() && answers_call(#[trigger] now[k], id);
            if k < before.len() {
                assert(before[k] == now[k]);
            }
            assert(answers_call(m, id));
        }
    }
}

/// A message holds no call that dangles.
pub open spec fn no_dangling(m: ContextView, paired: Seq<Text>) -> bool {
    match m {
        ContextView::Standard(MessageView::Assistant(a)) => !any_dangles(a.content, paired),
        _ => true,
    }
}

/// Every tool call that is left has its result among the messages that are left.
pub proof fn law_every_call_is_answered(messages: Seq<ContextView>, i: int, j: int)
    requires
        0 <= i < stripped(messages).len(),
        stripped(messages)[i] is Standard,
        stripped(messages)[i]->Standard_0 is Assistant,
        0 <= j < stripped(messages)[i]->Standard_0->Assistant_0.content.len(),
        stripped(messages)[i]->Standard_0->Assistant_0.content[j] is ToolCall,
    ensures
        is_paired(
            stripped(messages),
            stripped(messages)[i]->Standard_0->Assistant_0.content[j]->ToolCall_0.id,
        ),
{
    let paired = paired_calls(messages);
    let content = stripped(messages)[i]->Standard_0->Assistant_0.content;
    let id = content[j]->ToolCall_0.id;
    lemma_stripped_with(messages, paired, id);
    lemma_paired_calls(messages, id);
    assert(no_dangling(stripped(messages)[i], paired));
    assert(!dangles(content[j], paired));
}

proof fn lemma_nothing_dangles(messages: Seq<ContextView>, paired: Seq<Text>)
    requires
        forall|i: int| 0 <= i < messages.len() ==> no_dangling(#[trigger] messages[i], paired),
    ensures
        stripped_with(messages, paired) == messages,
    decreases messages.len(),
{
    if messages.len() > 0 {
        let d = messages.drop_last();
        assert forall|i: int| 0 <= i < d.len() implies no_dangling(#[trigger] d[i], paired) by {
            assert(d[i] == messages[i]);
        }
        lemma_nothing_dangles(d, paired);
        assert(no_dangling(messages[messages.len() - 1], paired));
        assert(d.push(messages.last()) =~= messages);
    } else {
        assert(stripped_with(messages, paired) =~= messages);
    }
}

/// A conversation in which every call is answered is left as it is.
pub proof fn law_answered_conversation_is_untouched(messages: Seq<ContextView>)
    requires
        forall|i: int|
            0 <= i < messages.len() ==> no_dangling(#[trigger] messages[i], paired_calls(messages)),
    ensures
        stripped(messages) == messages,
{
    lemma_nothing_dangles(messages, paired_calls(messages));
}

/// Where a branch was compacted, its conversation begins with the summary of its
/// last compaction.
pub proof fn law_compacted_branch_begins_with_summary(path: Seq<SessionEntry>, c: int)
    requires
        last_compaction(path) == Some(c),
    ensures
        0 <= c < path.len(),
        is_compaction(path[c]),
        forall|k: int| c < k < path.len() ==> !is_compaction(#[trigger] path[k]),
        replayed(path).len() > 0,
        replayed(path)[0] == summary_of(path[c]->Known_0->Compaction_0),
{
    lemma_last_compaction(path);
}

proof fn lemma_last_compaction(path: Seq<SessionEntry>)
    ensures
        match last_compaction(path) {
            Some(c) => 0 <= c < path.len() && is_compaction(path[c]) && forall|k: int|
                c < k < path.len() ==> !is_compaction(#[trigger] path[k]),
            None => forall|k: int| 0 <= k < path.len() ==> !is_compaction(#[trigger] path[k]),
        },
    decreases path.len(),
{
    if path.len() > 0 && !is_compaction(path.last()) {
        let before = path.drop_last();
        lemma_last_compaction(before);
        assert forall|k: int| 0 <= k < path.len() && (match last_compaction(before) {
            Some(c) => c < k,
            None => true,
        }) implies !is_compaction(#[trigger] path[k]) by {
            if k < before.len() {
                assert(before[k] == path[k]);
            }
        }
    }
}

/// Whether no role occurs twice.
pub open spec fn roles_differ(m: Models) -> bool {
    forall|i: int, j: int| 0 <= i < j < m.len() ==> (#[trigger] m[i]).0 != (#[trigger] m[j]).0
}

proof fn lemma_role_pos(m: Models, role: Text)
    ensures
        0 <= role_pos(m, role) <= m.len(),
        role_pos(m, role) < m.len() ==> m[role_pos(m, role)].0 == role,
        forall|i: int| 0 <= i < role_pos(m, role) ==> (#[trigger] m[i]).0 != role,
    decreases m.len(),
{
    if m.len() > 0 && m[0].0 != role {
        let t = m.subrange(1, m.len() as int);
        lemma_role_pos(t, role);
        assert forall|i: int| 0 <= i < role_pos(m, role) implies (#[trigger] m[i]).0 != role by {
            if i > 0 {
                assert(t[i - 1] == m[i]);
            }
        }
    }
}

proof fn lemma_with_model(m: Models, role: Text, model: Text)
    requires
        roles_differ(m),
    ensures
        roles_differ(with_model(m, role, model)),
        with_model(m, role, model).contains((role, model)),
{
    lemma_role_pos(m, role);
    let p = role_pos(m, role);
    let n = with_model(m, role, model);
    assert(n[p] == (role, model));
    assert forall|i: int, j: int| 0 <= i < j < n.len() implies (#[trigger] n[i]).0 != (#[trigger] n[j]).0 by {
        if p < m.len() {
            assert(n[i].0 == m[i].0 && n[j].0 == m[j].0);
        } else if j < m.len() {
            assert(n[i] == m[i] && n[j] == m[j]);
        } else {
            assert(n[i] == m[i]);
        }
    }
}

/// Every role has one model; right behind a change of model it is the one that was
/// changed to.
pub proof fn law_each_role_has_one_model(path: Seq<SessionEntry>)
    ensures
        roles_differ(settings_of(path).models),
        path.len() > 0 ==> match path.last() {
            SessionEntry::Known(KnownEntry::ModelChange(c)) => settings_of(path).models.contains(
                (
                    match c.role {
                        Some(r) => r@,
                        None => "default"@,
                    },
                    c.model@,
                ),
            ),
            _ => true,
        },
    decreases path.len(),
{
    if path.len() > 0 {
        law_each_role_has_one_model(path.drop_last());
        let s = settings_of(path.drop_last());
        match path.last() {
            SessionEntry::Known(KnownEntry::ModelChange(c)) => {
                let role = match c.role {
                    Some(r) => r@,
                    None => "default"@,
                };
                lemma_with_model(s.models, role, c.model@);
            },
            SessionEntry::Known(KnownEntry::Message(m)) => {
                if let Message::Assistant(a) = m.message {
                    lemma_with_model(s.models, "default"@, a.provider@ + seq!['/'] + a.model@);
                }
            },
            _ => {},
        }
    }
}

// ---- what becomes of the entries ------------------------------------------------------------

/// Every message of the journal is replayed as it is, results of tools included,
/// failed or not; only a response that another recovered is left out. Messages of
/// extensions and summaries of other branches are replayed with what they hold, an
/// empty summary aside, and no other entry gives a message.
pub proof fn law_entry_is_replayed_as_it_is(e: SessionEntry)
    ensures
        match e {
            SessionEntry::Known(KnownEntry::Message(m)) => {
                let v = m.message.deep_view();
                let lost = v is Assistant && v->Assistant_0.retry_recovery is Some && text_in(
                    field_of(v->Assistant_0.retry_recovery->0, "status"@),
                ) == Some("recovered"@);
                &&& !lost ==> message_of(e) == Some(ContextView::Standard(v))
                &&& lost ==> message_of(e) is None
                &&& v is ToolResult || v is User || v is Developer ==> message_of(e) == Some(ContextView::Standard(v))
            },
            SessionEntry::Known(KnownEntry::CustomMessage(c)) => message_of(e) == Some(
                (ContextView::Custom {
                    custom_type: c.custom_type@,
                    content: c.content.deep_view(),
                    display: c.display,
                    details: c.details.deep_view(),
                    attribution: c.attribution,
                    timestamp: instant_or_zero(c.timestamp@),
                }),
            ),
            SessionEntry::Known(KnownEntry::BranchSummary(b)) => {
                &&& b.summary@.len() > 0 ==> message_of(e) == Some(
                    (ContextView::BranchSummary {
                        summary: b.summary@,
                        from_id: b.from_id@,
                        timestamp: instant_or_zero(b.timestamp@),
                    }),
                )
                &&& b.summary@.len() == 0 ==> message_of(e) is None
            },
            _ => message_of(e) is None,
        },
{
}

/// The instant of an entry is the one that its timestamp names.
pub proof fn law_entry_instant(t: Text)
    ensures
        iso_instant(t) is Some && i64::MIN <= iso_instant(t)->0 <= i64::MAX ==> instant_or_zero(t) == iso_instant(t)->0,
        iso_instant(t) is None ==> instant_or_zero(t) == 0,
{
}

/// Entries are replayed one by one, in order: what a path gives is what its beginning
/// gives and behind it what the rest gives.
pub proof fn law_entries_are_replayed_in_order(a: Seq<SessionEntry>, b: Seq<SessionEntry>)
    ensures
        messages_of(a + b) == messages_of(a) + messages_of(b),
        a.len() == 1 && message_of(a[0]) is Some ==> messages_of(a) == seq![message_of(a[0])->0],
        a.len() == 1 && message_of(a[0]) is None ==> messages_of(a).len() == 0,
    decreases b.len(),
{
    if b.len() == 0 {
        assert(a + b =~= a);
        assert(messages_of(a) + messages_of(b) =~= messages_of(a));
    } else {
        law_entries_are_replayed_in_order(a, b.drop_last());
        assert((a + b).drop_last() =~= a + b.drop_last());
        assert(messages_of(a + b) =~= messages_of(a) + messages_of(b));
    }
    if a.len() == 1 {
        assert(a.drop_last() =~= Seq::empty());
        assert(messages_of(a.drop_last()) =~= Seq::empty());
        if message_of(a[0]) is Some {
            assert(messages_of(a) =~= seq![message_of(a[0])->0]);
        }
    }
}

/// The messages on a path, whatever else stands on it, are all replayed: where every
/// entry is a message that no other recovered, message by message.
pub proof fn law_messages_are_replayed_one_for_one(path: Seq<SessionEntry>, k: int)
    requires
        0 <= k < path.len(),
        forall|i: int|
            0 <= i < path.len() ==> {
                &&& (#[trigger] path[i]) is Known
                &&& path[i]->Known_0 is Message
                &&& !(path[i]->Known_0->Message_0.message.deep_view() is Assistant)
                    || path[i]->Known_0->Message_0.message.deep_view()->Assistant_0.retry_recovery is None
            },
    ensures
        replayed(path).len() == path.len(),
        replayed(path)[k] == ContextView::Standard(path[k]->Known_0->Message_0.message.deep_view()),
    decreases path.len(),
{
    lemma_last_compaction(path);
    assert(last_compaction(path) is None) by {
        if last_compaction(path) is Some {
            assert(is_compaction(path[last_compaction(path)->0]));
        }
    }
    let d = path.drop_last();
    assert(path[path.len() - 1] is Known);
    if d.len() > 0 {
        assert forall|i: int| 0 <= i < d.len() implies (#[trigger] d[i]) is Known && d[i]->Known_0 is Message && (!(
        d[i]->Known_0->Message_0.message.deep_view() is Assistant)
            || d[i]->Known_0->Message_0.message.deep_view()->Assistant_0.retry_recovery is None) by {
            assert(path[i] is Known);
        }
        let j = if k < d.len() {
            k
        } else {
            0
        };
        law_messages_are_replayed_one_for_one(d, j);
        lemma_last_compaction(d);
        assert(last_compaction(d) is None) by {
            if last_compaction(d) is Some {
                assert(d[last_compaction(d)->0] == path[last_compaction(d)->0]);
                assert(is_compaction(d[last_compaction(d)->0]));
            }
        }
    } else {
        assert(messages_of(d) =~= Seq::empty());
    }
}

/// A path without a compaction is replayed whole. Where there is one, its summary
/// comes first, with what it says, then the entries from the one that it names up to
/// it, then those behind it; where it names none on the path, only those behind it.
pub proof fn law_compaction_is_replayed(path: Seq<SessionEntry>, c: int, f: int)
    requires
        0 <= f <= c < path.len(),
        path[c] is Known,
        path[c]->Known_0 is Compaction,
        forall|k: int|
            c < k < path.len() ==> !((#[trigger] path[k]) is Known && path[k]->Known_0 is Compaction),
        f < c ==> id_of(path[f]) == Some(path[c]->Known_0->Compaction_0.first_kept_entry_id@),
        forall|k: int| 0 <= k < f ==> id_of(#[trigger] path[k]) != Some(path[c]->Known_0->Compaction_0.first_kept_entry_id@),
    ensures
        ({
            let comp = path[c]->Known_0->Compaction_0;
            let first = replayed(path)[0];
            &&& replayed(path) == seq![first] + messages_of(path.subrange(f, c)) + messages_of(
                path.subrange(c + 1, path.len() as int),
            )
            &&& first is CompactionSummary
            &&& first->CompactionSummary_summary == comp.summary@
            &&& first->short_summary == comp.short_summary.deep_view()
            &&& first->tokens_before == comp.tokens_before
            &&& first->warning == comp.warning.deep_view()
            &&& first->provider_payload is None && first->blocks is None && first->images is None
            &&& first->CompactionSummary_timestamp == instant_or_zero(comp.timestamp@)
        }),
{
    lemma_last_compaction(path);
    assert(is_compaction(path[c]));
    let got = last_compaction(path);
    assert(got == Some(c)) by {
        if got is Some && got->0 > c {
            assert(is_compaction(path[got->0]));
        }
    }
    let comp = path[c]->Known_0->Compaction_0;
    let before = path.take(c);
    lemma_first_with_id_is(before, comp.first_kept_entry_id@, f);
    assert(before.subrange(f, before.len() as int) =~= path.subrange(f, c));
    assert(replayed(path) =~= seq![summary_of(comp)] + messages_of(path.subrange(f, c)) + messages_of(
        path.subrange(c + 1, path.len() as int),
    ));
}

/// A path without a compaction is replayed whole.
pub proof fn law_uncompacted_path_is_replayed_whole(path: Seq<SessionEntry>)
    requires
        forall|k: int| 0 <= k < path.len() ==> !((#[trigger] path[k]) is Known && path[k]->Known_0 is Compaction),
    ensures
        replayed(path) == messages_of(path),
{
    lemma_last_compaction(path);
    if last_compaction(path) is Some {
        assert(is_compaction(path[last_compaction(path)->0]));
    }
}

proof fn lemma_first_with_id_is(path: Seq<SessionEntry>, id: Text, f: int)
    requires
        0 <= f <= path.len(),
        f < path.len() ==> id_of(path[f]) == Some(id),
        forall|k: int| 0 <= k < f ==> id_of(#[trigger] path[k]) != Some(id),
    ensures
        first_with_id(path, id) == f,
    decreases path.len(),
{
    if path.len() > 0 && f > 0 {
        assert(id_of(path[0]) != Some(id));
        let t = path.subrange(1, path.len() as int);
        assert forall|k: int| 0 <= k < f - 1 implies id_of(#[trigger] t[k]) != Some(id) by {
            assert(t[k] == path[k + 1]);
        }
        lemma_first_with_id_is(t, id, f - 1);
    }
}

proof fn lemma_answered(messages: Seq<ContextView>, id: Text)
    ensures
        paired_calls(messages).contains(id) == (exists|i: int|
            0 <= i < messages.len() && (#[trigger] messages[i]) is Standard && messages[i]->Standard_0 is ToolResult
                && messages[i]->Standard_0->ToolResult_0.tool_call_id == id),
{
    lemma_paired_calls(messages, id);
    if is_paired(messages, id) {
        let i = choose|i: int| 0 <= i < messages.len() && answers_call(#[trigger] messages[i], id);
        assert(messages[i] is Standard);
    }
    if exists|i: int|
        0 <= i < messages.len() && (#[trigger] messages[i]) is Standard && messages[i]->Standard_0 is ToolResult
            && messages[i]->Standard_0->ToolResult_0.tool_call_id == id {
        let i = choose|i: int|
            0 <= i < messages.len() && (#[trigger] messages[i]) is Standard && messages[i]->Standard_0 is ToolResult
                && messages[i]->Standard_0->ToolResult_0.tool_call_id == id;
        assert(answers_call(messages[i], id));
    }
}

/// Only turns of the model with a call that has no result are changed: any other
/// message stays as it is. Of such a turn the calls without a result and hidden
/// reasoning go, other reasoning loses its signature, and everything else stays in
/// its order; a turn of which nothing is left goes.
pub proof fn law_only_unanswered_calls_are_stripped(messages: Seq<ContextView>, m: ContextView)
    ensures
        ({
            let paired = paired_calls(messages);
            let calls_answered = forall|j: int|
                0 <= j < m->Standard_0->Assistant_0.content.len()
                    && (#[trigger] m->Standard_0->Assistant_0.content[j]) is ToolCall ==> (exists|i: int|
                    0 <= i < messages.len() && (#[trigger] messages[i]) is Standard && messages[i]->Standard_0 is ToolResult
                        && messages[i]->Standard_0->ToolResult_0.tool_call_id
                        == m->Standard_0->Assistant_0.content[j]->ToolCall_0.id);
            let turn = m is Standard && m->Standard_0 is Assistant;
            &&& !turn ==> stripped_message(m, paired) == Some(m)
            &&& turn && calls_answered ==> stripped_message(m, paired) == Some(m)
            &&& turn && !calls_answered ==> {
                let a = m->Standard_0->Assistant_0;
                let content = rewritten(a.content, paired);
                &&& content.len() == 0 ==> stripped_message(m, paired) is None
                &&& content.len() > 0 ==> stripped_message(m, paired) == Some(
                    ContextView::Standard(MessageView::Assistant(AssistantView { content, ..a })),
                )
            }
        }),
{
    let paired = paired_calls(messages);
    if m is Standard && m->Standard_0 is Assistant {
        let content = m->Standard_0->Assistant_0.content;
        assert forall|j: int| 0 <= j < content.len() && (#[trigger] content[j]) is ToolCall implies dangles(
            content[j],
            paired,
        ) == !(exists|i: int|
            0 <= i < messages.len() && (#[trigger] messages[i]) is Standard && messages[i]->Standard_0 is ToolResult
                && messages[i]->Standard_0->ToolResult_0.tool_call_id == content[j]->ToolCall_0.id) by {
            lemma_answered(messages, content[j]->ToolCall_0.id);
        }
        if any_dangles(content, paired) {
            let j = choose|j: int| 0 <= j < content.len() && dangles(#[trigger] content[j], paired);
            assert(content[j] is ToolCall);
        }
    }
}

/// A turn is rewritten block by block, in order.
pub proof fn law_blocks_are_rewritten_in_order(a: Seq<ContentView>, b: Seq<ContentView>, paired: Seq<Text>)
    ensures
        rewritten(a + b, paired) == rewritten(a, paired) + rewritten(b, paired),
        a.len() == 1 && a[0] is ToolCall && paired.contains(a[0]->ToolCall_0.id) ==> rewritten(a, paired) == a,
        a.len() == 1 && a[0] is ToolCall && !paired.contains(a[0]->ToolCall_0.id) ==> rewritten(a, paired).len() == 0,
        a.len() == 1 && (a[0] is Text || a[0] is Image || a[0] is Fallback) ==> rewritten(a, paired) == a,
        a.len() == 1 && a[0] is RedactedThinking ==> rewritten(a, paired).len() == 0,
        a.len() == 1 && a[0] is Thinking ==> rewritten(a, paired) == seq![
            ContentView::Thinking(ThinkingView { thinking_signature: None, ..a[0]->Thinking_0 }),
        ],
    decreases b.len(),
{
    if b.len() == 0 {
        assert(a + b =~= a);
        assert(rewritten(a, paired) + rewritten(b, paired) =~= rewritten(a, paired));
    } else {
        law_blocks_are_rewritten_in_order(a, b.drop_last(), paired);
        assert((a + b).drop_last() =~= a + b.drop_last());
        assert(rewritten(a + b, paired) =~= rewritten(a, paired) + rewritten(b, paired));
    }
    if a.len() == 1 {
        assert(a.drop_last() =~= Seq::empty());
        assert(rewritten(a.drop_last(), paired) =~= Seq::empty());
        assert(Seq::<ContentView>::empty().push(a[0]) =~= a);
        if a[0] is Thinking {
            assert(rewritten(a, paired) =~= seq![
                ContentView::Thinking(ThinkingView { thinking_signature: None, ..a[0]->Thinking_0 }),
            ]);
        }
    }
}

/// Messages are stripped one by one, in order.
pub proof fn law_messages_are_stripped_in_order(a: Seq<ContextView>, b: Seq<ContextView>, paired: Seq<Text>)
    ensures
        stripped_with(a + b, paired) == stripped_with(a, paired) + stripped_with(b, paired),
        a.len() == 1 && stripped_message(a[0], paired) is Some ==> stripped_with(a, paired) == seq![
            stripped_message(a[0], paired)->0,
        ],
        a.len() == 1 && stripped_message(a[0], paired) is None ==> stripped_with(a, paired).len() == 0,
        stripped(a) == stripped_with(a, paired_calls(a)),
    decreases b.len(),
{
    if b.len() == 0 {
        assert(a + b =~= a);
        assert(stripped_with(a, paired) + stripped_with(b, paired) =~= stripped_with(a, paired));
    } else {
        law_messages_are_stripped_in_order(a, b.drop_last(), paired);
        assert((a + b).drop_last() =~= a + b.drop_last());
        assert(stripped_with(a + b, paired) =~= stripped_with(a, paired) + stripped_with(b, paired));
    }
    if a.len() == 1 {
        assert(a.drop_last() =~= Seq::empty());
        assert(stripped_with(a.drop_last(), paired) =~= Seq::empty());
        if stripped_message(a[0], paired) is Some {
            assert(stripped_with(a, paired) =~= seq![stripped_message(a[0], paired)->0]);
        }
    }
}

/// Setting the model of a role sets it and leaves those of the other roles.
pub proof fn law_model_of_a_role_is_set(m: Models, role: Text, model: Text)
    ensures
        with_model(m, role, model).contains((role, model)),
        forall|i: int| 0 <= i < m.len() && (#[trigger] m[i]).0 != role ==> with_model(m, role, model)[i] == m[i],
        m.len() <= with_model(m, role, model).len() <= m.len() + 1,
{
    lemma_role_pos(m, role);
    let n = with_model(m, role, model);
    let p = role_pos(m, role);
    assert(n[p] == (role, model));
}

/// Each entry that sets something sets that and nothing else; the last one counts.
/// Until the default model is set, it is the one of the last response.
pub proof fn law_settings_follow_entries(s: SettingsView, e: SessionEntry)
    ensures
        match e {
            SessionEntry::Known(KnownEntry::ThinkingLevelChange(c)) => {
                &&& settings_after(s, e) == (SettingsView {
                    thinking_level: settings_after(s, e).thinking_level,
                    ..s
                })
                &&& c.thinking_level is Some ==> settings_after(s, e).thinking_level == Some(c.thinking_level->0@)
                &&& c.thinking_level is None ==> settings_after(s, e).thinking_level == Some("off"@)
            },
            SessionEntry::Known(KnownEntry::ModelChange(c)) => {
                let n = settings_after(s, e);
                &&& n == (SettingsView { models: n.models, explicit_default: n.explicit_default, ..s })
                &&& c.role is Some ==> n.models == with_model(s.models, c.role->0@, c.model@)
                &&& c.role is None ==> n.models == with_model(s.models, "default"@, c.model@)
                &&& n.explicit_default == (s.explicit_default || c.role is None || c.role->0@ == "default"@)
            },
            SessionEntry::Known(KnownEntry::ServiceTierChange(c)) => settings_after(s, e) == (SettingsView {
                service_tier: Some(json_view(c.service_tier)),
                ..s
            }),
            SessionEntry::Known(KnownEntry::ModeChange(c)) => settings_after(s, e) == (SettingsView { mode: c.mode@, ..s }),
            SessionEntry::Known(KnownEntry::Message(m)) => {
                let v = m.message.deep_view();
                &&& !(v is Assistant) || s.explicit_default ==> settings_after(s, e) == s
                &&& v is Assistant && !s.explicit_default ==> settings_after(s, e) == (SettingsView {
                    models: with_model(
                        s.models,
                        "default"@,
                        v->Assistant_0.provider + seq!['/'] + v->Assistant_0.model,
                    ),
                    ..s
                })
            },
            _ => settings_after(s, e) == s,
        },
        settings_of(Seq::empty()).models.len() == 0,
        settings_of(Seq::empty()).thinking_level == Some("off"@),
        settings_of(Seq::empty()).service_tier is None,
        settings_of(Seq::empty()).mode == "none"@,
        !settings_of(Seq::empty()).explicit_default,
{
}

/// The settings of a path are those of its beginning after its last entry.
pub proof fn law_settings_are_taken_in_order(path: Seq<SessionEntry>, e: SessionEntry)
    ensures
        settings_of(path.push(e)) == settings_after(settings_of(path), e),
{
    assert(path.push(e).drop_last() =~= path);
}

/// The leaf is the last entry that carries the identifier given, or without one the
/// last entry.
pub proof fn law_leaf_is_the_last(entries: Seq<SessionEntry>, leaf_id: Option<Text>)
    ensures
        leaf_id is None && entries.len() > 0 ==> leaf_of(entries, leaf_id) == Some(entries.len() - 1),
        leaf_id is None && entries.len() == 0 ==> leaf_of(entries, leaf_id) is None,
        leaf_id is Some && leaf_of(entries, leaf_id) is None ==> forall|k: int|
            0 <= k < entries.len() ==> id_of(#[trigger] entries[k]) != leaf_id,
        leaf_id is Some && leaf_of(entries, leaf_id) is Some ==> {
            let p = leaf_of(entries, leaf_id)->0;
            &&& 0 <= p < entries.len()
            &&& id_of(entries[p]) == leaf_id
            &&& forall|k: int| p < k < entries.len() ==> id_of(#[trigger] entries[k]) != leaf_id
        },
{
    if leaf_id is Some {
        lemma_last_with_id(entries, leaf_id->0);
    }
}

/// The path to a leaf ends in it and is its branch, from the root on.
pub proof fn law_path_is_the_branch(entries: Seq<SessionEntry>, leaf: Option<int>, i: int)
    requires
        0 <= i < branch(entries, leaf).len(),
    ensures
        path_to(entries, leaf).len() == branch(entries, leaf).len(),
        path_to(entries, leaf)[branch(entries, leaf).len() - 1 - i] == entries[branch(entries, leaf)[i]],
{
}

proof fn lemma_message_held(path: Seq<SessionEntry>, k: int)
    requires
        0 <= k < path.len(),
        message_of(path[k]) is Some,
    ensures
        messages_of(path).contains(message_of(path[k])->0),
    decreases path.len(),
{
    let d = path.drop_last();
    let all = messages_of(path);
    let before = messages_of(d);
    let m = message_of(path[k])->0;
    if k < d.len() {
        assert(d[k] == path[k]);
        lemma_message_held(d, k);
        let i = choose|i: int| 0 <= i < before.len() && before[i] == m;
        assert(all[i] == m);
    } else {
        assert(all[all.len() - 1] == m);
    }
}

proof fn lemma_stripped_holds(messages: Seq<ContextView>, paired: Seq<Text>, m: ContextView)
    requires
        messages.contains(m),
        !(m is Standard && m->Standard_0 is Assistant),
    ensures
        stripped_with(messages, paired).contains(m),
    decreases messages.len(),
{
    let k = choose|k: int| 0 <= k < messages.len() && messages[k] == m;
    let d = messages.drop_last();
    let all = stripped_with(messages, paired);
    let before = stripped_with(d, paired);
    if k < d.len() {
        assert(d[k] == m);
        lemma_stripped_holds(d, paired, m);
        let i = choose|i: int| 0 <= i < before.len() && before[i] == m;
        assert(all[i] == m);
    } else {
        assert(stripped_message(m, paired) == Some(m));
        assert(all[all.len() - 1] == m);
    }
}

/// Every message of the user or the developer and every result of a tool, failed or not,
/// that stands on a path without a compaction, or behind its last one, is in the
/// conversation as it stands in the journal.
pub proof fn law_messages_reach_the_conversation(path: Seq<SessionEntry>, k: int, from: int)
    requires
        0 <= from <= k < path.len(),
        path[k] is Known,
        path[k]->Known_0 is Message,
        !(path[k]->Known_0->Message_0.message.deep_view() is Assistant),
        forall|j: int| from <= j < path.len() ==> !((#[trigger] path[j]) is Known && path[j]->Known_0 is Compaction),
        from > 0 ==> path[from - 1] is Known && path[from - 1]->Known_0 is Compaction,
    ensures
        stripped(replayed(path)).contains(ContextView::Standard(path[k]->Known_0->Message_0.message.deep_view())),
{
    let m = ContextView::Standard(path[k]->Known_0->Message_0.message.deep_view());
    lemma_last_compaction(path);
    let got = last_compaction(path);
    let tail = path.subrange(from, path.len() as int);
    assert(tail[k - from] == path[k]);
    lemma_message_held(tail, k - from);
    let i = choose|i: int| 0 <= i < messages_of(tail).len() && messages_of(tail)[i] == m;
    if from == 0 {
        assert(tail =~= path);
        if got is Some {
            assert(is_compaction(path[got->0]));
        }
        assert(replayed(path)[i] == m);
    } else {
        assert(is_compaction(path[from - 1]));
        assert(got == Some(from - 1)) by {
            if got is Some && got->0 > from - 1 {
                assert(is_compaction(path[got->0]));
            }
        }
        let all = replayed(path);
        assert(all[all.len() - messages_of(tail).len() + i] == m);
    }
    assert(replayed(path).contains(m));
    lemma_stripped_holds(replayed(path), paired_calls(replayed(path)), m);
}

} // verus!
