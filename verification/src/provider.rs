//! The encoder of a conversation: harness messages in, request parameters out.
use vstd::prelude::*;
use crate::json::{copy_json, copy_number, empty_object, json_view, new_object, Json, JsonNumber, JsonView};
use crate::message::{
    AssistantContent, AssistantMessage, ContentView, Message, MessageView, Text, ThinkingContent, ThinkingView,
    ToolResultMessage, ToolResultView, UserBlockView, UserContent, UserContentBlock, UserContentView,
};
use crate::text::{chars_of, joined, owned, same_text, trim_text, trimmed};
use crate::wire::{
    param_view, ContentBlockParam, ContentParamView, ImageSource, MessageContent, MessageCreateParams,
    MessageParam, MessageParamView, ParamView, ResultView, Role, SourceView, SystemPrompt, Tool,
    ToolResultContent, ToolView,
};

verus! {

/// Whether a text is nothing but white space.
pub open spec fn is_blank(s: Text) -> bool {
    trimmed(s).len() == 0
}

fn blank(s: &str) -> (r: bool)
    ensures
        r == is_blank(s@),
{
    let t = trim_text(s);
    t.as_str().is_empty()
}

pub open spec fn text_param(t: Text) -> ParamView {
    ParamView::Text { text: t, cache_control: None }
}

pub open spec fn ascii_lower_char(c: char) -> char {
    if 'A' <= c <= 'Z' {
        ((c as u32 + 32) as u32) as char
    } else {
        c
    }
}

pub open spec fn ascii_lower(s: Text) -> Text {
    Seq::new(s.len(), |i: int| ascii_lower_char(s[i]))
}

/// The media type that the API takes an image of the given type as.
pub open spec fn media_type_of(mime: Text) -> Option<Text> {
    let n = ascii_lower(trimmed(mime));
    if n == "image/jpg"@ {
        Some("image/jpeg"@)
    } else if n == "image/jpeg"@ || n == "image/png"@ || n == "image/gif"@ || n == "image/webp"@ {
        Some(n)
    } else {
        None
    }
}

fn lower_char(c: char) -> (r: char)
    ensures
        r == ascii_lower_char(c),
{
    if 'A' <= c && c <= 'Z' {
        (c as u8 + 32) as char
    } else {
        c
    }
}

pub fn normalize_image_media_type(mime: &str) -> (r: Option<String>)
    ensures
        r.deep_view() == media_type_of(mime@),
{
    let t = trim_text(mime);
    let v = chars_of(t.as_str());
    let mut normalized = String::new();
    let mut i: usize = 0;
    while i < v.len()
        invariant
            v@ == t@,
            i <= v.len(),
            normalized@ == ascii_lower(t@).take(i as int),
        decreases v.len() - i,
    {
        normalized.push(lower_char(v[i]));
        assert(normalized@ =~= ascii_lower(t@).take(i + 1));
        i = i + 1;
    }
    assert(ascii_lower(t@).take(v.len() as int) =~= ascii_lower(t@));
    let n = normalized.as_str();
    if same_text(n, "image/jpg") {
        Some(owned("image/jpeg"))
    } else if same_text(n, "image/jpeg") || same_text(n, "image/png") || same_text(n, "image/gif")
        || same_text(n, "image/webp") {
        Some(normalized)
    } else {
        None
    }
}

/// What a block of user content is sent as; blank text is not sent.
pub open spec fn user_param(b: UserBlockView, vision: bool) -> Option<ParamView> {
    match b {
        UserBlockView::Text(t) => if is_blank(t.text) {
            None
        } else {
            Some(text_param(t.text))
        },
        UserBlockView::Image(i) => if !vision {
            Some(text_param("[image omitted: model does not support vision]"@))
        } else {
            match media_type_of(i.mime_type) {
                None => Some(text_param("[unsupported image: "@ + i.mime_type + "]"@)),
                Some(m) => Some(
                    ParamView::Image { source: SourceView::Base64(m, i.data), cache_control: None },
                ),
            }
        },
    }
}

/// What the blocks are sent as, each for itself.
pub open spec fn user_params(blocks: Seq<UserBlockView>, vision: bool) -> Seq<ParamView>
    decreases blocks.len(),
{
    if blocks.len() == 0 {
        Seq::empty()
    } else {
        let before = user_params(blocks.drop_last(), vision);
        match user_param(blocks.last(), vision) {
            Some(p) => before.push(p),
            None => before,
        }
    }
}

/// Whether a block is text that is sent.
pub open spec fn has_text(blocks: Seq<UserBlockView>) -> bool {
    exists|i: int|
        0 <= i < blocks.len() && (#[trigger] blocks[i]) is Text && !is_blank(blocks[i]->Text_0.text)
}

pub open spec fn has_image(params: Seq<ParamView>) -> bool {
    exists|i: int| 0 <= i < params.len() && (#[trigger] params[i]) is Image
}

/// The texts among the blocks, joined by line feeds.
pub open spec fn joined_texts(params: Seq<ParamView>) -> Text
    decreases params.len(),
{
    if params.len() == 0 {
        Seq::empty()
    } else if params.len() == 1 {
        params[0]->Text_text
    } else {
        joined_texts(params.drop_last()) + seq!['\n'] + params.last()->Text_text
    }
}

/// What user content is sent as. Images alone get a text in front; a model that
/// cannot see gets one text.
pub open spec fn content_params(blocks: Seq<UserBlockView>, vision: bool) -> Seq<ParamView> {
    let out = user_params(blocks, vision);
    if !vision {
        seq![text_param(joined_texts(out))]
    } else if has_image(out) && !has_text(blocks) {
        seq![text_param("(see attached image)"@)] + out
    } else {
        out
    }
}

/// Whether content holds nothing to send.
pub open spec fn nothing_to_send(params: Seq<ParamView>) -> bool {
    params.len() == 0 || (params.len() == 1 && params[0] is Text && is_blank(params[0]->Text_text))
}

proof fn lemma_user_params_texts(blocks: Seq<UserBlockView>)
    ensures
        forall|i: int|
            0 <= i < user_params(blocks, false).len() ==> (#[trigger] user_params(blocks, false)[i]) is Text,
    decreases blocks.len(),
{
    if blocks.len() > 0 {
        lemma_user_params_texts(blocks.drop_last());
    }
}

/// What user content is sent as.
pub fn convert_content_blocks(blocks: &Vec<UserContentBlock>, supports_images: bool) -> (r: Vec<ContentBlockParam>)
    ensures
        r.deep_view() == content_params(blocks.deep_view(), supports_images),
        forall|i: int| 0 <= i < r@.len() ==> (#[trigger] r@[i] is Text || r@[i] is Image),
{
    let ghost all = blocks.deep_view();
    let mut out: Vec<ContentBlockParam> = Vec::new();
    let mut saw_text = false;
    let mut saw_image = false;
    let mut text = String::new();
    let mut i: usize = 0;
    assert(all.take(0) =~= Seq::empty());
    assert(out.deep_view() =~= Seq::empty());
    while i < blocks.len()
        invariant
            all == blocks.deep_view(),
            i <= blocks.len(),
            out.deep_view() == user_params(all.take(i as int), supports_images),
            saw_text == has_text(all.take(i as int)),
            saw_image == has_image(out.deep_view()),
            !supports_images ==> text@ == joined_texts(out.deep_view()),
            forall|k: int| 0 <= k < out@.len() ==> (#[trigger] out@[k] is Text || out@[k] is Image),
        decreases blocks.len() - i,
    {
        let ghost before = out.deep_view();
        let ghost here = all.take(i as int);
        let ghost next = all.take(i + 1);
        let ghost was_text = saw_text;
        let ghost was_image = saw_image;
        proof {
            assert(next.drop_last() =~= here);
            assert(next.last() == blocks@[i as int].deep_view());
            assert forall|k: int| 0 <= k < here.len() implies here[k] == next[k] by {}
        }
        let param = match &blocks[i] {
            UserContentBlock::Text(t) => if blank(t.text.as_str()) {
                None
            } else {
                saw_text = true;
                Some(ContentBlockParam::Text { text: t.text.clone(), cache_control: None })
            },
            UserContentBlock::Image(image) => if !supports_images {
                Some(
                    ContentBlockParam::Text {
                        text: owned("[image omitted: model does not support vision]"),
                        cache_control: None,
                    },
                )
            } else {
                match normalize_image_media_type(image.mime_type.as_str()) {
                    None => {
                        let a = joined("[unsupported image: ", image.mime_type.as_str());
                        Some(
                            ContentBlockParam::Text { text: joined(a.as_str(), "]"), cache_control: None },
                        )
                    },
                    Some(media_type) => {
                        saw_image = true;
                        Some(
                            ContentBlockParam::Image {
                                source: ImageSource::Base64 { media_type, data: image.data.clone() },
                                cache_control: None,
                            },
                        )
                    },
                }
            },
        };
        proof {
            if was_text {
                let k = choose|k: int|
                    0 <= k < here.len() && (#[trigger] here[k]) is Text && !is_blank(here[k]->Text_0.text);
                assert(next[k] == here[k]);
            }
            if saw_text {
                assert(has_text(next)) by {
                    if !was_text {
                        assert(next[i as int] == blocks@[i as int].deep_view());
                    }
                }
            } else if has_text(next) {
                let k = choose|k: int|
                    0 <= k < next.len() && (#[trigger] next[k]) is Text && !is_blank(next[k]->Text_0.text);
                if k < here.len() {
                    assert(here[k] == next[k]);
                }
            }
        }
        if let Some(p) = param {
            let ghost view = p.deep_view();
            if !supports_images {
                if let ContentBlockParam::Text { text: t, cache_control: _ } = &p {
                    if out.len() > 0 {
                        let ghost so_far = text@;
                        text.push('\n');
                        assert(text@ =~= so_far + seq!['\n']);
                        text = joined(text.as_str(), t.as_str());
                    } else {
                        text = t.clone();
                    }
                }
            }
            out.push(p);
            proof {
                let now = before.push(view);
                assert(out.deep_view() =~= now);
                assert(now.drop_last() =~= before);
                lemma_user_params_texts(next);
                if was_image {
                    let k = choose|k: int| 0 <= k < before.len() && (#[trigger] before[k]) is Image;
                    assert(now[k] == before[k]);
                }
                if saw_image && !was_image {
                    assert(now[before.len() as int] is Image);
                }
                if !saw_image && has_image(now) {
                    let k = choose|k: int| 0 <= k < now.len() && (#[trigger] now[k]) is Image;
                    if k < before.len() {
                        assert(before[k] == now[k]);
                    }
                }
            }
        }
        i = i + 1;
    }
    assert(all.take(blocks.len() as int) =~= all);
    if !supports_images {
        let mut one: Vec<ContentBlockParam> = Vec::new();
        one.push(ContentBlockParam::Text { text, cache_control: None });
        assert(one.deep_view() =~= content_params(all, false));
        return one;
    }
    if saw_image && !saw_text {
        let ghost before = out.deep_view();
        out.insert(0, ContentBlockParam::Text { text: owned("(see attached image)"), cache_control: None });
        assert(out.deep_view() =~= seq![text_param("(see attached image)"@)] + before);
    }
    out
}

/// Whether content holds nothing to send.
fn is_empty_wire_content(blocks: &Vec<ContentBlockParam>) -> (r: bool)
    ensures
        r == nothing_to_send(blocks.deep_view()),
{
    assert(blocks.deep_view().len() == blocks.len());
    if blocks.len() == 0 {
        return true;
    }
    if blocks.len() == 1 {
        assert(blocks.deep_view()[0] == blocks@[0].deep_view());
        if let ContentBlockParam::Text { text, cache_control: _ } = &blocks[0] {
            return blank(text.as_str());
        }
    }
    false
}

// ---- tool results --------------------------------------------------------------

pub open spec fn images_only(params: Seq<ParamView>) -> Seq<ParamView> {
    params.filter(|p: ParamView| p is Image)
}

pub open spec fn texts_only(params: Seq<ParamView>) -> Seq<ParamView> {
    params.filter(|p: ParamView| p is Text)
}

/// The body of a tool result: an error holds no images, and is never empty.
pub open spec fn result_body(r: ToolResultView, vision: bool) -> Seq<ParamView> {
    let content = content_params(r.content, vision);
    let kept = if r.is_error && has_image(content) {
        texts_only(content)
    } else {
        content
    };
    if r.is_error && nothing_to_send(kept) {
        seq![text_param("Tool failed with no output."@)]
    } else {
        kept
    }
}

/// The images that a tool result's error cannot hold.
pub open spec fn hoisted_images(r: ToolResultView, vision: bool) -> Seq<ParamView> {
    let content = content_params(r.content, vision);
    if r.is_error && has_image(content) {
        images_only(content)
    } else {
        Seq::empty()
    }
}

pub open spec fn result_param(r: ToolResultView, vision: bool) -> ParamView {
    ParamView::ToolResult {
        tool_use_id: r.tool_call_id,
        content: Some(ResultView::Blocks(result_body(r, vision))),
        is_error: Some(r.is_error),
        cache_control: None,
    }
}

fn copy_flat(p: &ContentBlockParam) -> (r: ContentBlockParam)
    requires
        p is Text || p is Image,
    ensures
        r.deep_view() == p.deep_view(),
        r is Text == p is Text,
        r is Image == p is Image,
{
    match p {
        ContentBlockParam::Text { text, cache_control } => ContentBlockParam::Text {
            text: text.clone(),
            cache_control: *cache_control,
        },
        ContentBlockParam::Image { source, cache_control } => ContentBlockParam::Image {
            source: match source {
                ImageSource::Base64 { media_type, data } => ImageSource::Base64 {
                    media_type: media_type.clone(),
                    data: data.clone(),
                },
                ImageSource::Url { url } => ImageSource::Url { url: url.clone() },
                ImageSource::File { file_id } => ImageSource::File { file_id: file_id.clone() },
            },
            cache_control: *cache_control,
        },
        _ => ContentBlockParam::RedactedThinking { data: String::new() },
    }
}

/// The block of a tool result; the images that it cannot hold go to `hoisted`.
fn build_tool_result_block(
    result: &ToolResultMessage,
    supports_images: bool,
    hoisted: &mut Vec<ContentBlockParam>,
) -> (r: ContentBlockParam)
    ensures
        r.deep_view() == result_param(result.deep_view(), supports_images),
        final(hoisted).deep_view() == old(hoisted).deep_view() + hoisted_images(
            result.deep_view(),
            supports_images,
        ),
{
    let mut content = convert_content_blocks(&result.content, supports_images);
    let ghost c = content.deep_view();
    let ghost before = hoisted.deep_view();
    if result.is_error && any_image(&content) {
        let mut kept: Vec<ContentBlockParam> = Vec::new();
        let mut i: usize = 0;
        let ghost fi = |p: ParamView| p is Image;
        let ghost ft = |p: ParamView| p is Text;
        proof {
            reveal(Seq::filter);
            assert(c.take(0) =~= Seq::empty());
            assert(kept.deep_view() =~= c.take(0).filter(ft));
            assert(hoisted.deep_view() =~= before + c.take(0).filter(fi));
        }
        while i < content.len()
            invariant
                c == content.deep_view(),
                fi == (|p: ParamView| p is Image),
                ft == (|p: ParamView| p is Text),
                i <= content.len(),
                kept.deep_view() == c.take(i as int).filter(ft),
                hoisted.deep_view() == before + c.take(i as int).filter(fi),
                forall|k: int| 0 <= k < content@.len() ==> (#[trigger] content@[k] is Text || content@[k] is Image),
            decreases content.len() - i,
        {
            let ghost kept_before = kept.deep_view();
            let ghost hoisted_before = hoisted.deep_view();
            proof {
                reveal(Seq::filter);
                assert(c.take(i + 1).drop_last() =~= c.take(i as int));
                assert(c.take(i + 1).last() == content@[i as int].deep_view());
                assert(content@[i as int] is Text || content@[i as int] is Image);
            }
            let block = copy_flat(&content[i]);
            let ghost view = block.deep_view();
            match &block {
                ContentBlockParam::Image { .. } => {
                    hoisted.push(block);
                    assert(hoisted.deep_view() =~= hoisted_before.push(view));
                    assert(hoisted.deep_view() =~= before + c.take(i + 1).filter(fi));
                },
                _ => {
                    kept.push(block);
                    assert(kept.deep_view() =~= kept_before.push(view));
                },
            }
            i = i + 1;
        }
        assert(c.take(content.len() as int) =~= c);
        content = kept;
    } else {
        assert(before + Seq::<ParamView>::empty() =~= before);
    }
    if result.is_error && is_empty_wire_content(&content) {
        content = Vec::new();
        content.push(
            ContentBlockParam::Text { text: owned("Tool failed with no output."), cache_control: None },
        );
        assert(content.deep_view() =~= seq![text_param("Tool failed with no output."@)]);
    }
    let r = ContentBlockParam::ToolResult {
        tool_use_id: result.tool_call_id.clone(),
        content: Some(ToolResultContent::Blocks(content)),
        is_error: Some(result.is_error),
        cache_control: None,
    };
    proof {
        assert(param_view(r)->ToolResult_content->0->Blocks_0 =~= content.deep_view());
    }
    r
}

fn any_image(content: &Vec<ContentBlockParam>) -> (r: bool)
    ensures
        r == has_image(content.deep_view()),
{
    let ghost c = content.deep_view();
    let mut i: usize = 0;
    while i < content.len()
        invariant
            c == content.deep_view(),
            i <= content.len(),
            forall|k: int| 0 <= k < i ==> !((#[trigger] c[k]) is Image),
        decreases content.len() - i,
    {
        assert(c[i as int] == content@[i as int].deep_view());
        if let ContentBlockParam::Image { .. } = &content[i] {
            return true;
        }
        i = i + 1;
    }
    false
}

// ---- assistant turns --------------------------------------------------------------

/// What a block of an assistant turn is sent as. Reasoning without a signature
/// is sent as text; fallback notes and images are not sent.
pub open spec fn assistant_param(b: ContentView) -> Option<ParamView> {
    match b {
        ContentView::Text(t) => if is_blank(t.text) {
            None
        } else {
            Some(text_param(t.text))
        },
        ContentView::Thinking(t) => if t.thinking_signature is Some && !is_blank(
            t.thinking_signature->0,
        ) {
            Some(ParamView::Thinking { thinking: t.thinking, signature: t.thinking_signature->0 })
        } else if is_blank(t.thinking) {
            None
        } else {
            Some(text_param(t.thinking))
        },
        ContentView::RedactedThinking(d) => if is_blank(d) {
            None
        } else {
            Some(ParamView::RedactedThinking { data: d })
        },
        ContentView::Fallback(_, _) => None,
        ContentView::Image(_) => None,
        ContentView::ToolCall(c) => Some(
            ParamView::ToolUse {
                id: c.id,
                name: c.name,
                input: if c.arguments is Null {
                    empty_object()
                } else {
                    c.arguments
                },
                cache_control: None,
            },
        ),
    }
}

/// The blocks of a turn that are sent other than tool calls, in order.
pub open spec fn spoken_params(content: Seq<ContentView>) -> Seq<ParamView>
    decreases content.len(),
{
    if content.len() == 0 {
        Seq::empty()
    } else {
        let before = spoken_params(content.drop_last());
        match assistant_param(content.last()) {
            Some(p) => if p is ToolUse {
                before
            } else {
                before.push(p)
            },
            None => before,
        }
    }
}

/// The tool calls of a turn, in order.
pub open spec fn call_params(content: Seq<ContentView>) -> Seq<ParamView>
    decreases content.len(),
{
    if content.len() == 0 {
        Seq::empty()
    } else {
        let before = call_params(content.drop_last());
        match assistant_param(content.last()) {
            Some(p) => if p is ToolUse {
                before.push(p)
            } else {
                before
            },
            None => before,
        }
    }
}

/// What an assistant turn is sent as: its tool calls come last.
pub open spec fn turn_params(content: Seq<ContentView>) -> Seq<ParamView> {
    spoken_params(content) + call_params(content)
}

fn encode_block(block: &AssistantContent) -> (r: Option<ContentBlockParam>)
    ensures
        r.deep_view() == assistant_param(block.deep_view()),
{
    match block {
        AssistantContent::Text(t) => if blank(t.text.as_str()) {
            None
        } else {
            Some(ContentBlockParam::Text { text: t.text.clone(), cache_control: None })
        },
        AssistantContent::Thinking(t) => encode_thinking_block(t),
        AssistantContent::RedactedThinking(b) => if blank(b.data.as_str()) {
            None
        } else {
            Some(ContentBlockParam::RedactedThinking { data: b.data.clone() })
        },
        AssistantContent::Fallback(_) => None,
        AssistantContent::Image(_) => None,
        AssistantContent::ToolCall(c) => Some(
            ContentBlockParam::ToolUse {
                id: c.id.clone(),
                name: c.name.clone(),
                input: match &c.arguments {
                    Json::Null => new_object(),
                    other => copy_json(other),
                },
                cache_control: None,
            },
        ),
    }
}

fn encode_thinking_block(t: &ThinkingContent) -> (r: Option<ContentBlockParam>)
    ensures
        r.deep_view() == assistant_param(ContentView::Thinking(t.deep_view())),
{
    if let Some(signature) = &t.thinking_signature {
        if !blank(signature.as_str()) {
            return Some(
                ContentBlockParam::Thinking { thinking: t.thinking.clone(), signature: signature.clone() },
            );
        }
    }
    if blank(t.thinking.as_str()) {
        return None;
    }
    Some(ContentBlockParam::Text { text: t.thinking.clone(), cache_control: None })
}

/// What an assistant turn is sent as; none where nothing of it is sent.
fn encode_assistant_message(assistant: &AssistantMessage) -> (r: Option<Vec<ContentBlockParam>>)
    ensures
        match r {
            Some(blocks) => blocks.deep_view() == turn_params(assistant.content.deep_view())
                && blocks.deep_view().len() > 0,
            None => turn_params(assistant.content.deep_view()).len() == 0,
        },
{
    let ghost c = assistant.content.deep_view();
    let mut spoken: Vec<ContentBlockParam> = Vec::new();
    let mut calls: Vec<ContentBlockParam> = Vec::new();
    let mut i: usize = 0;
    assert(c.take(0) =~= Seq::empty());
    assert(spoken.deep_view() =~= Seq::empty());
    assert(calls.deep_view() =~= Seq::empty());
    while i < assistant.content.len()
        invariant
            c == assistant.content.deep_view(),
            i <= assistant.content.len(),
            spoken.deep_view() == spoken_params(c.take(i as int)),
            calls.deep_view() == call_params(c.take(i as int)),
        decreases assistant.content.len() - i,
    {
        let ghost spoken_before = spoken.deep_view();
        let ghost calls_before = calls.deep_view();
        assert(c.take(i + 1).drop_last() =~= c.take(i as int));
        assert(c.take(i + 1).last() == assistant.content@[i as int].deep_view());
        if let Some(p) = encode_block(&assistant.content[i]) {
            let ghost view = p.deep_view();
            match &p {
                ContentBlockParam::ToolUse { .. } => {
                    calls.push(p);
                    assert(calls.deep_view() =~= calls_before.push(view));
                },
                _ => {
                    spoken.push(p);
                    assert(spoken.deep_view() =~= spoken_before.push(view));
                },
            }
        }
        i = i + 1;
    }
    assert(c.take(assistant.content.len() as int) =~= c);
    let ghost s = spoken.deep_view();
    let ghost t = calls.deep_view();
    spoken.append(&mut calls);
    assert(spoken.deep_view() =~= s + t);
    if spoken.len() == 0 {
        assert(spoken.deep_view().len() == 0);
        None
    } else {
        assert(spoken.deep_view().len() > 0);
        Some(spoken)
    }
}

// ---- conversations ------------------------------------------------------------------

pub open spec fn user_turn(content: UserContentView, vision: bool) -> Seq<MessageParamView> {
    match content {
        UserContentView::Text(t) => if is_blank(t) {
            Seq::empty()
        } else {
            seq![MessageParamView { role: Role::User, content: ContentParamView::Text(t) }]
        },
        UserContentView::Blocks(b) => {
            let params = content_params(b, vision);
            if nothing_to_send(params) {
                Seq::empty()
            } else {
                seq![MessageParamView { role: Role::User, content: ContentParamView::Blocks(params) }]
            }
        },
    }
}

pub open spec fn assistant_turn(content: Seq<ContentView>) -> Seq<MessageParamView> {
    let params = turn_params(content);
    if params.len() == 0 {
        Seq::empty()
    } else {
        seq![MessageParamView { role: Role::Assistant, content: ContentParamView::Blocks(params) }]
    }
}

/// How many tool results follow each other from `i` on.
pub open spec fn results_run(messages: Seq<MessageView>, i: int) -> nat
    decreases messages.len() - i,
{
    if 0 <= i < messages.len() && messages[i] is ToolResult {
        1 + results_run(messages, i + 1)
    } else {
        0
    }
}

/// The blocks of the tool results from `i` up to `j`.
pub open spec fn result_params(messages: Seq<MessageView>, i: int, j: int, vision: bool) -> Seq<ParamView>
    decreases j - i,
{
    if j <= i {
        Seq::empty()
    } else {
        result_params(messages, i, j - 1, vision).push(
            result_param(messages[j - 1]->ToolResult_0, vision),
        )
    }
}

pub open spec fn all_hoisted(messages: Seq<MessageView>, i: int, j: int, vision: bool) -> Seq<ParamView>
    decreases j - i,
{
    if j <= i {
        Seq::empty()
    } else {
        all_hoisted(messages, i, j - 1, vision) + hoisted_images(
            messages[j - 1]->ToolResult_0,
            vision,
        )
    }
}

/// The one user turn that the tool results from `i` up to `j` are sent as.
pub open spec fn results_turn(messages: Seq<MessageView>, i: int, j: int, vision: bool) -> MessageParamView {
    let hoisted = all_hoisted(messages, i, j, vision);
    let blocks = result_params(messages, i, j, vision);
    MessageParamView {
        role: Role::User,
        content: ContentParamView::Blocks(
            if hoisted.len() > 0 {
                blocks + seq![text_param("Attached image(s) from the tool result(s) above:"@)] + hoisted
            } else {
                blocks
            },
        ),
    }
}

/// What the messages from `i` on are sent as, before adjacent turns are parted.
pub open spec fn turns_from(messages: Seq<MessageView>, i: int, vision: bool) -> Seq<MessageParamView>
    decreases crate::provider::left(messages, i),
{
    if i < 0 || i >= messages.len() {
        Seq::empty()
    } else {
        match messages[i] {
            MessageView::User(u) => user_turn(u.content, vision) + turns_from(messages, i + 1, vision),
            MessageView::Developer(d) => user_turn(d.content, vision) + turns_from(messages, i + 1, vision),
            MessageView::Assistant(a) => assistant_turn(a.content) + turns_from(messages, i + 1, vision),
            MessageView::ToolResult(_) => {
                let n = 1 + results_run(messages, i + 1);
                seq![results_turn(messages, i, i + n, vision)] + turns_from(messages, i + n, vision)
            },
        }
    }
}

pub open spec fn left(messages: Seq<MessageView>, i: int) -> nat {
    if i < messages.len() {
        (messages.len() - i) as nat
    } else {
        0
    }
}

pub open spec fn continue_turn() -> MessageParamView {
    MessageParamView { role: Role::User, content: ContentParamView::Text("Continue."@) }
}

/// The turns with a user turn behind every assistant turn that another follows
/// or none does.
pub open spec fn parted(turns: Seq<MessageParamView>) -> Seq<MessageParamView>
    decreases turns.len(),
{
    if turns.len() == 0 {
        Seq::empty()
    } else {
        let before = if turns.len() > 1 && turns[turns.len() - 2].role == Role::Assistant && turns.last().role
            == Role::Assistant {
            unended(turns.drop_last()).push(continue_turn())
        } else {
            unended(turns.drop_last())
        };
        if turns.last().role == Role::Assistant {
            before.push(turns.last()).push(continue_turn())
        } else {
            before.push(turns.last())
        }
    }
}

/// The turns with a user turn between assistant turns that follow each other.
pub open spec fn unended(turns: Seq<MessageParamView>) -> Seq<MessageParamView>
    decreases turns.len(),
{
    if turns.len() == 0 {
        Seq::empty()
    } else if turns.len() > 1 && turns[turns.len() - 2].role == Role::Assistant && turns.last().role
        == Role::Assistant {
        unended(turns.drop_last()).push(continue_turn()).push(turns.last())
    } else {
        unended(turns.drop_last()).push(turns.last())
    }
}

/// What a conversation is sent as.
pub open spec fn encoded(messages: Seq<MessageView>, vision: bool) -> Seq<MessageParamView> {
    parted(turns_from(messages, 0, vision))
}

/// The turn of user content, where it holds something to send.
fn user_like(content: &UserContent, supports_images: bool) -> (r: Option<MessageParam>)
    ensures
        match r {
            Some(p) => user_turn(content.deep_view(), supports_images) == seq![p.deep_view()],
            None => user_turn(content.deep_view(), supports_images) == Seq::<MessageParamView>::empty(),
        },
{
    match content {
        UserContent::Text(text) => {
            if blank(text.as_str()) {
                return None;
            }
            Some(MessageParam { role: Role::User, content: MessageContent::Text(text.clone()) })
        },
        UserContent::Blocks(blocks) => {
            let converted = convert_content_blocks(blocks, supports_images);
            if is_empty_wire_content(&converted) {
                return None;
            }
            Some(MessageParam { role: Role::User, content: MessageContent::Blocks(converted) })
        },
    }
}

/// The user turn of the tool results from `start` on, and the position behind
/// them.
fn batch_results(messages: &Vec<Message>, start: usize, supports_images: bool) -> (r: (MessageParam, usize))
    requires
        start < messages.len(),
        messages.deep_view()[start as int] is ToolResult,
    ensures
        r.1 == start + 1 + results_run(messages.deep_view(), start + 1),
        start < r.1 <= messages.len(),
        r.0.deep_view() == results_turn(
            messages.deep_view(),
            start as int,
            r.1 as int,
            supports_images,
        ),
{
    let ghost m = messages.deep_view();
    let mut blocks: Vec<ContentBlockParam> = Vec::new();
    let mut hoisted: Vec<ContentBlockParam> = Vec::new();
    let mut at: usize = start;
    assert(blocks.deep_view() =~= Seq::empty());
    assert(hoisted.deep_view() =~= Seq::empty());
    let mut more = true;
    while more
        invariant
            m == messages.deep_view(),
            start <= at <= messages.len(),
            m.len() == messages.len(),
            start < messages.len(),
            m[start as int] is ToolResult,
            more ==> at < messages.len() && m[at as int] is ToolResult,
            at == start ==> more,
            at > start ==> 1 + results_run(m, start + 1) == at - start + results_run(m, at as int),
            !more ==> results_run(m, at as int) == 0,
            blocks.deep_view() == result_params(m, start as int, at as int, supports_images),
            hoisted.deep_view() == all_hoisted(m, start as int, at as int, supports_images),
        decreases messages.len() - at, if more { 1int } else { 0int },
    {
        let ghost before = blocks.deep_view();
        assert(m[at as int] == messages@[at as int].deep_view());
        if let Message::ToolResult(result) = &messages[at] {
            let block = build_tool_result_block(result, supports_images, &mut hoisted);
            let ghost view = block.deep_view();
            blocks.push(block);
            assert(blocks.deep_view() =~= before.push(view));
        }
        at = at + 1;
        more = at < messages.len() && is_tool_result(&messages[at]);
        proof {
            if at < messages.len() {
                assert(m[at as int] == messages@[at as int].deep_view());
            }
        }
    }
    if hoisted.len() > 0 {
        let ghost b = blocks.deep_view();
        let ghost h = hoisted.deep_view();
        assert(h.len() > 0);
        blocks.push(
            ContentBlockParam::Text {
                text: owned("Attached image(s) from the tool result(s) above:"),
                cache_control: None,
            },
        );
        assert(blocks.deep_view() =~= b + seq![text_param("Attached image(s) from the tool result(s) above:"@)]);
        let ghost c = blocks.deep_view();
        blocks.append(&mut hoisted);
        assert(blocks.deep_view() =~= c + h);
    } else {
        assert(hoisted.deep_view().len() == 0);
    }
    (MessageParam { role: Role::User, content: MessageContent::Blocks(blocks) }, at)
}

fn is_tool_result(m: &Message) -> (r: bool)
    ensures
        r == m.deep_view() is ToolResult,
{
    match m {
        Message::ToolResult(_) => true,
        _ => false,
    }
}

/// The turns of the message at `index`, and the position of the next one.
fn encode_message(messages: &Vec<Message>, index: usize, supports_images: bool) -> (r: (
    Option<MessageParam>,
    usize,
))
    requires
        index < messages.len(),
    ensures
        index < r.1 <= messages.len(),
        turns_from(messages.deep_view(), index as int, supports_images) == (match r.0 {
            Some(p) => seq![p.deep_view()],
            None => Seq::<MessageParamView>::empty(),
        }) + turns_from(messages.deep_view(), r.1 as int, supports_images),
{
    let ghost m = messages.deep_view();
    assert(m[index as int] == messages@[index as int].deep_view());
    match &messages[index] {
        Message::User(user) => (user_like(&user.content, supports_images), index + 1),
        Message::Developer(dev) => (user_like(&dev.content, supports_images), index + 1),
        Message::Assistant(assistant) => match encode_assistant_message(assistant) {
            Some(blocks) => (
                Some(MessageParam { role: Role::Assistant, content: MessageContent::Blocks(blocks) }),
                index + 1,
            ),
            None => (None, index + 1),
        },
        Message::ToolResult(_) => {
            let (p, behind) = batch_results(messages, index, supports_images);
            (Some(p), behind)
        },
    }
}

/// What a conversation is sent as.
pub fn encode_messages(messages: &Vec<Message>, supports_images: bool) -> (r: Vec<MessageParam>)
    ensures
        r.deep_view() == encoded(messages.deep_view(), supports_images),
{
    let ghost m = messages.deep_view();
    let ghost all = turns_from(m, 0, supports_images);
    let ghost mut raw: Seq<MessageParamView> = Seq::empty();
    let mut params: Vec<MessageParam> = Vec::new();
    let mut index: usize = 0;
    assert(raw + all =~= all);
    assert(params.deep_view() =~= unended(raw));
    while index < messages.len()
        invariant
            m == messages.deep_view(),
            m.len() == messages.len(),
            index <= messages.len(),
            raw + turns_from(m, index as int, supports_images) == all,
            params.deep_view() == unended(raw),
        decreases messages.len() - index,
    {
        let (turn, next) = encode_message(messages, index, supports_images);
        let ghost rest = turns_from(m, next as int, supports_images);
        match turn {
            Some(p) => {
                let ghost view = p.deep_view();
                push_turn(&mut params, p, Ghost(raw));
                proof {
                    assert(raw + (seq![view] + rest) =~= raw.push(view) + rest);
                    raw = raw.push(view);
                }
            },
            None => {
                assert(raw + (Seq::<MessageParamView>::empty() + rest) =~= raw + rest);
            },
        }
        index = next;
    }
    assert(raw + Seq::<MessageParamView>::empty() =~= raw);
    proof {
        lemma_unended(raw);
        lemma_parted(raw);
    }
    if ends_with_assistant(&params) {
        let ghost before = params.deep_view();
        params.push(continue_param());
        assert(params.deep_view() =~= before.push(continue_turn()));
    }
    params
}

fn continue_param() -> (r: MessageParam)
    ensures
        r.deep_view() == continue_turn(),
{
    MessageParam { role: Role::User, content: MessageContent::Text(owned("Continue.")) }
}

fn ends_with_assistant(params: &Vec<MessageParam>) -> (r: bool)
    ensures
        r == (params.deep_view().len() > 0 && params.deep_view().last().role == Role::Assistant),
{
    assert(params.deep_view().len() == params.len());
    if params.len() == 0 {
        return false;
    }
    assert(params.deep_view().last() == params@[params.len() - 1].deep_view());
    params[params.len() - 1].role == Role::Assistant
}

/// Appends a turn; where it and the one before are the assistant's, a user turn
/// comes between them.
fn push_turn(params: &mut Vec<MessageParam>, turn: MessageParam, Ghost(raw): Ghost<Seq<MessageParamView>>)
    requires
        old(params).deep_view() == unended(raw),
    ensures
        final(params).deep_view() == unended(raw.push(turn.deep_view())),
{
    let ghost view = turn.deep_view();
    let ghost before = params.deep_view();
    proof {
        lemma_unended(raw);
        assert(raw.push(view).drop_last() =~= raw);
    }
    if turn.role == Role::Assistant && ends_with_assistant(params) {
        params.push(continue_param());
        assert(params.deep_view() =~= before.push(continue_turn()));
    }
    let ghost mid = params.deep_view();
    params.push(turn);
    assert(params.deep_view() =~= mid.push(view));
}

proof fn lemma_parted(t: Seq<MessageParamView>)
    ensures
        parted(t) == if t.len() > 0 && t.last().role == Role::Assistant {
            unended(t).push(continue_turn())
        } else {
            unended(t)
        },
{
}

// ---- requests -----------------------------------------------------------------------

/// A tool as the provider is told of it, with its schema normalized.
#[derive(Debug, PartialEq, Eq)]
pub struct WireTool {
    pub name: String,
    pub description: String,
    pub input_schema: Json,
}

/// What a model call is about.
#[derive(Debug, PartialEq, Eq)]
pub struct LlmContext {
    pub system_prompt: Vec<String>,
    pub messages: Vec<Message>,
    pub tools: Vec<WireTool>,
}

/// Paragraphs joined by blank lines.
pub open spec fn joined_paragraphs(p: Seq<Text>) -> Text
    decreases p.len(),
{
    if p.len() == 0 {
        Seq::empty()
    } else if p.len() == 1 {
        p[0]
    } else {
        joined_paragraphs(p.drop_last()) + "\n\n"@ + p.last()
    }
}

pub fn join_paragraphs(p: &Vec<String>) -> (r: String)
    ensures
        r@ == joined_paragraphs(p.deep_view()),
{
    let ghost all = p.deep_view();
    let mut out = String::new();
    let mut i: usize = 0;
    assert(all.take(0) =~= Seq::empty());
    while i < p.len()
        invariant
            all == p.deep_view(),
            i <= p.len(),
            out@ == joined_paragraphs(all.take(i as int)),
        decreases p.len() - i,
    {
        assert(all.take(i + 1).drop_last() =~= all.take(i as int));
        assert(all.take(i + 1).last() == p@[i as int]@);
        if i > 0 {
            let a = joined(out.as_str(), "\n\n");
            out = joined(a.as_str(), p[i].as_str());
        } else {
            out = p[i].clone();
        }
        i = i + 1;
    }
    assert(all.take(p.len() as int) =~= all);
    out
}

pub open spec fn tool_param(t: WireTool) -> ToolView {
    ToolView {
        name: t.name@,
        description: Some(t.description@),
        input_schema: json_view(t.input_schema),
        cache_control: None,
        strict: None,
        eager_input_streaming: None,
    }
}

/// The request that a model call is made with: the system prompt as paragraphs,
/// the tools where there are any, the conversation, and nothing else set.
pub fn encode_params(
    context: &LlmContext,
    model: &str,
    max_tokens: u64,
    temperature: &Option<JsonNumber>,
) -> (r: MessageCreateParams)
    ensures
        r.model@ == model@,
        r.messages.deep_view() == encoded(context.messages.deep_view(), true),
        r.max_tokens == max_tokens,
        context.system_prompt@.len() == 0 ==> r.system is None,
        context.system_prompt@.len() > 0 ==> r.system is Some && r.system->0 is Text && r.system->0->Text_0@
            == joined_paragraphs(context.system_prompt.deep_view()),
        r.temperature.deep_view() == temperature.deep_view(),
        context.tools@.len() == 0 ==> r.tools is None,
        context.tools@.len() > 0 ==> r.tools is Some && r.tools->0.deep_view() == Seq::new(
            context.tools@.len(),
            |i: int| tool_param(context.tools@[i]),
        ),
        r.top_p is None && r.top_k is None && r.stop_sequences is None && r.stream is None && r.tool_choice is None
            && r.metadata is None && r.thinking is None && r.output_config is None && r.speed is None
            && r.context_management is None && r.fallbacks is None,
{
    let system = if context.system_prompt.len() == 0 {
        None
    } else {
        Some(SystemPrompt::Text(join_paragraphs(&context.system_prompt)))
    };
    let tools = if context.tools.len() == 0 {
        None
    } else {
        let mut out: Vec<Tool> = Vec::new();
        let mut i: usize = 0;
        while i < context.tools.len()
            invariant
                i <= context.tools.len(),
                out.len() == i,
                forall|k: int| 0 <= k < i ==> (#[trigger] out@[k]).deep_view() == tool_param(context.tools@[k]),
            decreases context.tools.len() - i,
        {
            let tool = &context.tools[i];
            out.push(
                Tool {
                    name: tool.name.clone(),
                    description: Some(tool.description.clone()),
                    input_schema: copy_json(&tool.input_schema),
                    cache_control: None,
                    strict: None,
                    eager_input_streaming: None,
                },
            );
            i = i + 1;
        }
        assert(out.deep_view() =~= Seq::new(context.tools@.len(), |i: int| tool_param(context.tools@[i])));
        Some(out)
    };
    MessageCreateParams {
        model: owned(model),
        messages: encode_messages(&context.messages, true),
        max_tokens,
        system,
        temperature: match temperature {
            Some(t) => Some(copy_number(t)),
            None => None,
        },
        top_p: None,
        top_k: None,
        stop_sequences: None,
        stream: None,
        tools,
        tool_choice: None,
        metadata: None,
        thinking: None,
        output_config: None,
        speed: None,
        context_management: None,
        fallbacks: None,
    }
}

// ---- what holds of every request ------------------------------------------------------

/// No two assistant turns follow each other.
pub open spec fn alternating(p: Seq<MessageParamView>) -> bool {
    forall|i: int, j: int|
        0 <= i && j == i + 1 && j < p.len() && (#[trigger] p[i]).role == Role::Assistant ==> (
        #[trigger] p[j]).role != Role::Assistant
}

proof fn lemma_unended(t: Seq<MessageParamView>)
    ensures
        alternating(unended(t)),
        t.len() > 0 ==> unended(t).len() > 0 && unended(t).last() == t.last(),
        t.len() == 0 ==> unended(t).len() == 0,
    decreases t.len(),
{
    if t.len() > 0 {
        let d = t.drop_last();
        lemma_unended(d);
        let u = unended(t);
        let b = unended(d);
        if t.len() > 1 {
            assert(d.last() == t[t.len() - 2]);
        }
        assert forall|i: int, j: int|
            0 <= i && j == i + 1 && j < u.len() && (#[trigger] u[i]).role == Role::Assistant implies (
        #[trigger] u[j]).role != Role::Assistant by {
            if j < b.len() {
                assert(u[i] == b[i] && u[j] == b[j]);
            } else if i == b.len() - 1 {
                assert(u[i] == b[i]);
            }
        }
    }
}

/// What is sent never has two assistant turns in a row, and never ends with one.
pub proof fn law_request_turns_alternate(messages: Seq<MessageView>, vision: bool)
    ensures
        alternating(encoded(messages, vision)),
        encoded(messages, vision).len() > 0 ==> encoded(messages, vision).last().role != Role::Assistant,
{
    let t = turns_from(messages, 0, vision);
    lemma_unended(t);
    lemma_parted(t);
    let e = encoded(messages, vision);
    let u = unended(t);
    assert forall|i: int, j: int|
        0 <= i && j == i + 1 && j < e.len() && (#[trigger] e[i]).role == Role::Assistant implies (
    #[trigger] e[j]).role != Role::Assistant by {
        assert(u[i] == e[i]);
        if j < u.len() {
            assert(u[j] == e[j]);
        }
    }
}

proof fn lemma_parts_kinds(c: Seq<ContentView>)
    ensures
        forall|i: int| 0 <= i < spoken_params(c).len() ==> !((#[trigger] spoken_params(c)[i]) is ToolUse),
        forall|i: int| 0 <= i < call_params(c).len() ==> (#[trigger] call_params(c)[i]) is ToolUse,
    decreases c.len(),
{
    if c.len() > 0 {
        lemma_parts_kinds(c.drop_last());
    }
}

/// In an assistant turn nothing stands behind a tool call but tool calls.
pub proof fn law_tool_calls_come_last(c: Seq<ContentView>, i: int, j: int)
    requires
        0 <= i <= j < turn_params(c).len(),
        turn_params(c)[i] is ToolUse,
    ensures
        turn_params(c)[j] is ToolUse,
{
    lemma_parts_kinds(c);
    let s = spoken_params(c);
    if i < s.len() {
        assert(turn_params(c)[i] == s[i]);
    }
    assert(turn_params(c)[j] == call_params(c)[j - s.len()]);
}

/// An error result that is sent holds no image and is not empty.
pub proof fn law_error_results_are_sendable(r: ToolResultView, vision: bool)
    requires
        r.is_error,
    ensures
        !has_image(result_body(r, vision)),
        !nothing_to_send(result_body(r, vision)),
{
    let content = content_params(r.content, vision);
    reveal_strlit("Tool failed with no output.");
    let fallback = "Tool failed with no output."@;
    assert(fallback[0] == 'T');
    assert(fallback.last() == '.');
    assert(trimmed(fallback) == fallback);
    if has_image(content) {
        lemma_filter_texts(content);
    }
}

proof fn lemma_filter_texts(p: Seq<ParamView>)
    ensures
        forall|i: int| 0 <= i < texts_only(p).len() ==> (#[trigger] texts_only(p)[i]) is Text,
    decreases p.len(),
{
    reveal(Seq::filter);
    if p.len() > 0 {
        lemma_filter_texts(p.drop_last());
    }
}

/// Tool results that follow each other are sent as one turn with one block for
/// each, in order.
pub proof fn law_results_stay_paired(messages: Seq<MessageView>, i: int, j: int, vision: bool, k: int)
    requires
        i <= k < j,
    ensures
        result_params(messages, i, j, vision).len() == j - i,
        result_params(messages, i, j, vision)[k - i] == result_param(
            messages[k]->ToolResult_0,
            vision,
        ),
    decreases j - i,
{
    lemma_result_params_len(messages, i, j, vision);
    if k < j - 1 {
        law_results_stay_paired(messages, i, j - 1, vision, k);
    } else {
        lemma_result_params_len(messages, i, j - 1, vision);
    }
}

proof fn lemma_result_params_len(messages: Seq<MessageView>, i: int, j: int, vision: bool)
    requires
        i <= j,
    ensures
        result_params(messages, i, j, vision).len() == j - i,
    decreases j - i,
{
    if i < j {
        lemma_result_params_len(messages, i, j - 1, vision);
    }
}

/// Reasoning is never lost unless it is blank: with a signature it is sent as
/// reasoning under that signature, without one as text.
pub proof fn law_reasoning_is_sent(t: ThinkingView)
    requires
        !is_blank(t.thinking),
    ensures
        match assistant_param(ContentView::Thinking(t)) {
            Some(ParamView::Thinking { thinking, signature }) => thinking == t.thinking && t.thinking_signature == Some(
                signature,
            ),
            Some(ParamView::Text { text, .. }) => text == t.thinking && (t.thinking_signature is None || is_blank(
                t.thinking_signature->0,
            )),
            _ => false,
        },
{
}

/// An assistant turn is sent without its images and its notes of a fallback.
pub proof fn law_images_and_fallbacks_are_not_sent(b: ContentView)
    requires
        b is Image || b is Fallback,
    ensures
        assistant_param(b) is None,
{
}

// ---- what is sent of what was said -----------------------------------------------------------

/// A text of the user is sent as it is, unless it is blank. An image is sent as it is
/// to a model that can see, if its type is one that the API takes; else a text stands
/// in its place.
pub proof fn law_user_block_is_sent(b: UserBlockView, vision: bool)
    ensures
        b is Text && trimmed(b->Text_0.text).len() > 0 ==> user_param(b, vision) == Some(
            (ParamView::Text { text: b->Text_0.text, cache_control: None }),
        ),
        b is Text && trimmed(b->Text_0.text).len() == 0 ==> user_param(b, vision) is None,
        b is Image && vision && media_type_of(b->Image_0.mime_type) is Some ==> user_param(b, vision) == Some(
            (ParamView::Image {
                source: SourceView::Base64(media_type_of(b->Image_0.mime_type)->0, b->Image_0.data),
                cache_control: None,
            }),
        ),
        b is Image && vision && media_type_of(b->Image_0.mime_type) is None ==> user_param(b, vision) == Some(
            (ParamView::Text {
                text: "[unsupported image: "@ + b->Image_0.mime_type + "]"@,
                cache_control: None,
            }),
        ),
        b is Image && !vision ==> user_param(b, vision) == Some(
            (ParamView::Text { text: "[image omitted: model does not support vision]"@, cache_control: None }),
        ),
{
}

/// An image is taken under the four types that the API knows, in any case and with
/// space around, and under one other name of one of them; under no other.
pub proof fn law_image_types(mime: Text)
    ensures
        ({
            let n = ascii_lower(trimmed(mime));
            &&& n == "image/png"@ ==> media_type_of(mime) == Some("image/png"@)
            &&& n == "image/gif"@ ==> media_type_of(mime) == Some("image/gif"@)
            &&& n == "image/webp"@ ==> media_type_of(mime) == Some("image/webp"@)
            &&& n == "image/jpeg"@ || n == "image/jpg"@ ==> media_type_of(mime) == Some("image/jpeg"@)
            &&& media_type_of(mime) is Some ==> n == "image/png"@ || n == "image/gif"@ || n == "image/webp"@ || n
                == "image/jpeg"@ || n == "image/jpg"@
        }),
{
    reveal_strlit("image/png");
    reveal_strlit("image/gif");
    reveal_strlit("image/webp");
    reveal_strlit("image/jpeg");
    reveal_strlit("image/jpg");
    assert("image/png"@.len() == 9 && "image/gif"@.len() == 9 && "image/jpg"@.len() == 9 && "image/webp"@.len() == 10
        && "image/jpeg"@.len() == 10);
    assert("image/png"@[6] == 'p' && "image/gif"@[6] == 'g' && "image/jpg"@[6] == 'j');
}

/// Blocks are sent one by one, in order: what blocks are sent as is what the first of
/// them are sent as and behind it what the others are.
pub proof fn law_user_blocks_are_sent_in_order(a: Seq<UserBlockView>, b: Seq<UserBlockView>, vision: bool)
    ensures
        user_params(a + b, vision) == user_params(a, vision) + user_params(b, vision),
        a.len() == 1 && user_param(a[0], vision) is Some ==> user_params(a, vision) == seq![user_param(a[0], vision)->0],
        a.len() == 1 && user_param(a[0], vision) is None ==> user_params(a, vision).len() == 0,
    decreases b.len(),
{
    if b.len() == 0 {
        assert(a + b =~= a);
        assert(user_params(a, vision) + user_params(b, vision) =~= user_params(a, vision));
    } else {
        law_user_blocks_are_sent_in_order(a, b.drop_last(), vision);
        assert((a + b).drop_last() =~= a + b.drop_last());
        assert(user_params(a + b, vision) =~= user_params(a, vision) + user_params(b, vision));
    }
    if a.len() == 1 {
        assert(a.drop_last() =~= Seq::empty());
        assert(user_params(a.drop_last(), vision) =~= Seq::empty());
        if user_param(a[0], vision) is Some {
            assert(user_params(a, vision) =~= seq![user_param(a[0], vision)->0]);
        }
    }
}

/// A model that can see gets every block of the content, in order; where they are
/// images without a text, a text stands in front, and else nothing is added. A model
/// that cannot see gets one text, with a line for each block.
pub proof fn law_content_is_sent_whole(blocks: Seq<UserBlockView>)
    ensures
        ({
            let all = user_params(blocks, true);
            let images = exists|i: int| 0 <= i < all.len() && (#[trigger] all[i]) is Image;
            let texts = exists|i: int|
                0 <= i < blocks.len() && (#[trigger] blocks[i]) is Text && trimmed(blocks[i]->Text_0.text).len() > 0;
            &&& images && !texts ==> content_params(blocks, true) == seq![
                ParamView::Text { text: "(see attached image)"@, cache_control: None },
            ] + all
            &&& !(images && !texts) ==> content_params(blocks, true) == all
        }),
        content_params(blocks, false).len() == 1,
        content_params(blocks, false)[0] is Text,
        user_params(blocks, false).len() == 1 ==> content_params(blocks, false) == user_params(blocks, false),
{
    if user_params(blocks, false).len() == 1 {
        lemma_user_params_texts(blocks);
        lemma_user_params_plain(blocks);
        assert(content_params(blocks, false) =~= user_params(blocks, false));
    }
}

proof fn lemma_user_params_plain(blocks: Seq<UserBlockView>)
    ensures
        forall|i: int|
            0 <= i < user_params(blocks, false).len() ==> (#[trigger] user_params(blocks, false)[i])->Text_cache_control
                is None,
    decreases blocks.len(),
{
    if blocks.len() > 0 {
        lemma_user_params_plain(blocks.drop_last());
    }
}

/// Lines are put together in order, with a line feed between them.
pub proof fn law_lines_are_joined(params: Seq<ParamView>, text: Text)
    ensures
        params.len() == 0 ==> joined_texts(params.push(text_param(text))) == text,
        params.len() > 0 ==> joined_texts(params.push(text_param(text))) == joined_texts(params) + seq!['\n'] + text,
{
    let all = params.push(text_param(text));
    assert(all.drop_last() =~= params);
}

proof fn lemma_in_filter(p: Seq<ParamView>, f: spec_fn(ParamView) -> bool, k: int)
    requires
        0 <= k < p.len(),
        f(p[k]),
    ensures
        p.filter(f).contains(p[k]),
    decreases p.len(),
{
    reveal(Seq::filter);
    let init = p.drop_last();
    if k == p.len() - 1 {
        assert(p.filter(f).last() == p[k]);
    } else {
        assert(init[k] == p[k]);
        lemma_in_filter(init, f, k);
        let j = choose|j: int| 0 <= j < init.filter(f).len() && init.filter(f)[j] == p[k];
        assert(p.filter(f)[j] == p[k]);
    }
}

proof fn lemma_same_param_filter(p: Seq<ParamView>, f: spec_fn(ParamView) -> bool, g: spec_fn(ParamView) -> bool)
    requires
        forall|b: ParamView| #[trigger] f(b) == g(b),
    ensures
        p.filter(f) == p.filter(g),
    decreases p.len(),
{
    reveal(Seq::filter);
    if p.len() > 0 {
        lemma_same_param_filter(p.drop_last(), f, g);
        assert(f(p.last()) == g(p.last()));
    }
}

/// Nothing that a tool returned is lost on the way to the model. A result that is no
/// error is sent whole, under the identifier of its call. An error that holds images
/// is sent without them, and each of them is sent behind the results; an error that
/// holds none is sent whole; an error without any output says that it has none.
pub proof fn law_tool_result_is_sent_whole(r: ToolResultView, vision: bool)
    ensures
        ({
            let all = content_params(r.content, vision);
            let sent = result_param(r, vision);
            let body = sent->ToolResult_content->0->Blocks_0;
            let behind = hoisted_images(r, vision);
            let images = exists|i: int| 0 <= i < all.len() && (#[trigger] all[i]) is Image;
            let texts = all.filter(|p: ParamView| p is Text);
            let kept = if images {
                texts
            } else {
                all
            };
            let empty = kept.len() == 0 || (kept.len() == 1 && kept[0] is Text && trimmed(kept[0]->Text_text).len() == 0);
            &&& sent is ToolResult
            &&& sent->tool_use_id == r.tool_call_id
            &&& sent->is_error == Some(r.is_error)
            &&& sent->ToolResult_content is Some && sent->ToolResult_content->0 is Blocks
            &&& !r.is_error ==> body == all && behind.len() == 0
            &&& r.is_error && !images ==> behind.len() == 0
            &&& r.is_error && images ==> behind == all.filter(|p: ParamView| p is Image)
            &&& r.is_error && !empty ==> body == kept
            &&& r.is_error && empty ==> body == seq![
                ParamView::Text { text: "Tool failed with no output."@, cache_control: None },
            ]
            &&& forall|i: int|
                0 <= i < all.len() && (#[trigger] all[i]) is Image ==> body.contains(all[i]) || behind.contains(all[i])
            &&& forall|i: int|
                0 <= i < all.len() && (#[trigger] all[i]) is Text && trimmed(all[i]->Text_text).len() > 0
                    ==> body.contains(all[i])
        }),
{
    let all = content_params(r.content, vision);
    let fi = |p: ParamView| p is Image;
    let ft = |p: ParamView| p is Text;
    lemma_same_param_filter(all, fi, |p: ParamView| p is Image);
    assert(images_only(all) == all.filter(fi)) by {
        lemma_same_param_filter(all, fi, |p: ParamView| p is Image);
    }
    assert(texts_only(all) == all.filter(ft)) by {
        lemma_same_param_filter(all, ft, |p: ParamView| p is Text);
    }
    let body = result_body(r, vision);
    let behind = hoisted_images(r, vision);
    assert forall|i: int| 0 <= i < all.len() && (#[trigger] all[i]) is Image implies body.contains(all[i])
        || behind.contains(all[i]) by {
        if r.is_error {
            assert(has_image(all));
            lemma_in_filter(all, fi, i);
        }
    }
    assert forall|i: int|
        0 <= i < all.len() && (#[trigger] all[i]) is Text && trimmed(all[i]->Text_text).len() > 0 implies body.contains(
        all[i],
    ) by {
        if r.is_error && has_image(all) {
            lemma_in_filter(all, ft, i);
            let t = texts_only(all);
            let j = choose|j: int| 0 <= j < t.len() && t[j] == all[i];
            assert(t[j] is Text);
            assert(!nothing_to_send(t));
        }
    }
}

/// What the model said is sent back as it was: texts, reasoning with its signature,
/// reasoning without one as text, hidden reasoning, and calls with their arguments.
/// What is blank is not sent.
pub proof fn law_assistant_block_is_sent(b: ContentView)
    ensures
        b is Text && trimmed(b->Text_0.text).len() > 0 ==> assistant_param(b) == Some(
            (ParamView::Text { text: b->Text_0.text, cache_control: None }),
        ),
        b is Text && trimmed(b->Text_0.text).len() == 0 ==> assistant_param(b) is None,
        b is Thinking && b->Thinking_0.thinking_signature is Some && trimmed(b->Thinking_0.thinking_signature->0).len()
            > 0 ==> assistant_param(b) == Some(
            (ParamView::Thinking {
                thinking: b->Thinking_0.thinking,
                signature: b->Thinking_0.thinking_signature->0,
            }),
        ),
        b is Thinking && b->Thinking_0.thinking_signature is None && trimmed(b->Thinking_0.thinking).len() > 0
            ==> assistant_param(b) == Some((ParamView::Text { text: b->Thinking_0.thinking, cache_control: None })),
        b is RedactedThinking && trimmed(b->RedactedThinking_0).len() > 0 ==> assistant_param(b) == Some(
            (ParamView::RedactedThinking { data: b->RedactedThinking_0 }),
        ),
        b is ToolCall ==> assistant_param(b) == Some(
            (ParamView::ToolUse {
                id: b->ToolCall_0.id,
                name: b->ToolCall_0.name,
                input: if b->ToolCall_0.arguments is Null {
                    JsonView::Object(Seq::empty())
                } else {
                    b->ToolCall_0.arguments
                },
                cache_control: None,
            }),
        ),
{
}

/// The blocks of a turn are sent one by one: what is no call in its order, and the
/// calls in theirs.
pub proof fn law_turn_is_sent_in_order(a: Seq<ContentView>, b: Seq<ContentView>)
    ensures
        spoken_params(a + b) == spoken_params(a) + spoken_params(b),
        call_params(a + b) == call_params(a) + call_params(b),
        turn_params(a) == spoken_params(a) + call_params(a),
        a.len() == 1 && a[0] is ToolCall ==> spoken_params(a).len() == 0 && call_params(a) == seq![
            assistant_param(a[0])->0,
        ],
        a.len() == 1 && !(a[0] is ToolCall) ==> call_params(a).len() == 0,
        a.len() == 1 && !(a[0] is ToolCall) && assistant_param(a[0]) is Some ==> spoken_params(a) == seq![
            assistant_param(a[0])->0,
        ],
        a.len() == 1 && !(a[0] is ToolCall) && assistant_param(a[0]) is None ==> spoken_params(a).len() == 0,
    decreases b.len(),
{
    if b.len() == 0 {
        assert(a + b =~= a);
        assert(spoken_params(a) + spoken_params(b) =~= spoken_params(a));
        assert(call_params(a) + call_params(b) =~= call_params(a));
    } else {
        law_turn_is_sent_in_order(a, b.drop_last());
        assert((a + b).drop_last() =~= a + b.drop_last());
        assert(spoken_params(a + b) =~= spoken_params(a) + spoken_params(b));
        assert(call_params(a + b) =~= call_params(a) + call_params(b));
    }
    if a.len() == 1 {
        assert(a.drop_last() =~= Seq::empty());
        assert(spoken_params(a.drop_last()) =~= Seq::empty());
        assert(call_params(a.drop_last()) =~= Seq::empty());
        if assistant_param(a[0]) is Some {
            assert(a[0] is ToolCall ==> call_params(a) =~= seq![assistant_param(a[0])->0]);
            assert(!(a[0] is ToolCall) ==> spoken_params(a) =~= seq![assistant_param(a[0])->0]);
        }
    }
}

/// From any message on, a conversation is sent as that message and then the others:
/// a message of the user or the developer as a user turn with its content, one of the
/// model as an assistant turn with its content, both unless nothing is left of them.
pub proof fn law_messages_are_sent_in_order(messages: Seq<MessageView>, i: int, vision: bool)
    requires
        0 <= i < messages.len(),
        !(messages[i] is ToolResult),
    ensures
        ({
            let turns = turns_from(messages, i, vision);
            let rest = turns_from(messages, i + 1, vision);
            let said = match messages[i] {
                MessageView::User(u) => Some(u.content),
                MessageView::Developer(d) => Some(d.content),
                _ => None,
            };
            &&& turns == rest || (turns.len() == rest.len() + 1 && turns.subrange(1, turns.len() as int) == rest)
            &&& said is Some && said->0 is Text ==> {
                let t = said->0->Text_0;
                if trimmed(t).len() > 0 {
                    turns.len() > 0 && turns[0] == (MessageParamView {
                        role: Role::User,
                        content: ContentParamView::Text(t),
                    }) && turns.len() == rest.len() + 1
                } else {
                    turns == rest
                }
            }
            &&& said is Some && said->0 is Blocks ==> {
                let p = content_params(said->0->Blocks_0, vision);
                if p.len() == 0 || (p.len() == 1 && p[0] is Text && trimmed(p[0]->Text_text).len() == 0) {
                    turns == rest
                } else {
                    turns.len() == rest.len() + 1 && turns[0] == (MessageParamView {
                        role: Role::User,
                        content: ContentParamView::Blocks(p),
                    })
                }
            }
            &&& messages[i] is Assistant ==> {
                let p = turn_params(messages[i]->Assistant_0.content);
                if p.len() == 0 {
                    turns == rest
                } else {
                    turns.len() == rest.len() + 1 && turns[0] == (MessageParamView {
                        role: Role::Assistant,
                        content: ContentParamView::Blocks(p),
                    })
                }
            }
        }),
{
    let turns = turns_from(messages, i, vision);
    let rest = turns_from(messages, i + 1, vision);
    assert(Seq::<MessageParamView>::empty() + rest =~= rest);
    if turns.len() == rest.len() + 1 {
        assert(turns.subrange(1, turns.len() as int) =~= rest);
    }
}

/// Tool results that follow each other are sent as one user turn: first a block for
/// each, in order, then, where errors held images, a note and those images, in order.
/// What comes behind the results comes behind that turn.
pub proof fn law_results_are_sent_together(messages: Seq<MessageView>, i: int, n: int, vision: bool)
    requires
        0 <= i,
        n > 0,
        i + n <= messages.len(),
        forall|k: int| i <= k < i + n ==> (#[trigger] messages[k]) is ToolResult,
        i + n < messages.len() ==> !(messages[i + n] is ToolResult),
    ensures
        ({
            let turns = turns_from(messages, i, vision);
            let blocks = turns[0].content->Blocks_0;
            let images = all_hoisted(messages, i, i + n, vision);
            &&& turns.len() > 0 && turns.subrange(1, turns.len() as int) == turns_from(messages, i + n, vision)
            &&& turns[0].role == Role::User && turns[0].content is Blocks
            &&& blocks.len() == n + (if images.len() > 0 {
                1 + images.len()
            } else {
                0
            })
            &&& forall|k: int|
                0 <= k < n ==> (#[trigger] blocks[k]) == result_param(messages[i + k]->ToolResult_0, vision)
            &&& images.len() > 0 ==> blocks[n] == (ParamView::Text {
                text: "Attached image(s) from the tool result(s) above:"@,
                cache_control: None,
            }) && blocks.subrange(n + 1, blocks.len() as int) == images
        }),
{
    lemma_results_run(messages, i + 1, n - 1);
    let turns = turns_from(messages, i, vision);
    let rest = turns_from(messages, i + n, vision);
    assert(turns.subrange(1, turns.len() as int) =~= rest);
    lemma_result_params_len(messages, i, i + n, vision);
    let blocks = turns[0].content->Blocks_0;
    let images = all_hoisted(messages, i, i + n, vision);
    assert forall|k: int| 0 <= k < n implies (#[trigger] blocks[k]) == result_param(
        messages[i + k]->ToolResult_0,
        vision,
    ) by {
        law_results_stay_paired(messages, i, i + n, vision, i + k);
    }
    if images.len() > 0 {
        assert(blocks.subrange(n + 1, blocks.len() as int) =~= images);
    }
}

proof fn lemma_results_run(messages: Seq<MessageView>, i: int, n: int)
    requires
        0 <= i,
        0 <= n,
        i + n <= messages.len(),
        forall|k: int| i <= k < i + n ==> (#[trigger] messages[k]) is ToolResult,
        i + n < messages.len() ==> !(messages[i + n] is ToolResult),
    ensures
        results_run(messages, i) == n,
    decreases n,
{
    if n > 0 {
        assert(messages[i] is ToolResult);
        lemma_results_run(messages, i + 1, n - 1);
    }
}

/// The images that are sent behind results are those of each result, in order.
pub proof fn law_images_behind_results(messages: Seq<MessageView>, i: int, j: int, vision: bool)
    requires
        i <= j,
    ensures
        all_hoisted(messages, i, i, vision).len() == 0,
        all_hoisted(messages, i, j + 1, vision) == all_hoisted(messages, i, j, vision) + hoisted_images(
            messages[j]->ToolResult_0,
            vision,
        ),
{
}

/// Whether a turn asks the model to go on.
pub open spec fn asks_to_continue(t: MessageParamView) -> bool {
    t.role == Role::User && t.content == ContentParamView::Text("Continue."@)
}

proof fn lemma_push_turn_filter(t: Seq<MessageParamView>, x: MessageParamView, f: spec_fn(MessageParamView) -> bool)
    ensures
        t.push(x).filter(f) == (if f(x) {
            t.filter(f).push(x)
        } else {
            t.filter(f)
        }),
{
    reveal(Seq::filter);
    assert(t.push(x).drop_last() =~= t);
}

proof fn lemma_unended_keeps(t: Seq<MessageParamView>, f: spec_fn(MessageParamView) -> bool)
    requires
        !f(continue_turn()),
    ensures
        unended(t).filter(f) == t.filter(f),
    decreases t.len(),
{
    reveal(Seq::filter);
    if t.len() > 0 {
        let d = t.drop_last();
        lemma_unended_keeps(d, f);
        let u = unended(d);
        lemma_push_turn_filter(u, continue_turn(), f);
        lemma_push_turn_filter(u.push(continue_turn()), t.last(), f);
        lemma_push_turn_filter(u, t.last(), f);
    }
}

/// The request holds the turns of the conversation, all of them and in order; nothing
/// is added but turns that ask the model to go on, and none where the turns alternate
/// and the last is the user's.
pub proof fn law_request_holds_every_turn(messages: Seq<MessageView>, vision: bool)
    ensures
        ({
            let turns = turns_from(messages, 0, vision);
            let sent = encoded(messages, vision);
            let said = |t: MessageParamView| !asks_to_continue(t);
            &&& sent.filter(said) == turns.filter(said)
            &&& (forall|i: int, j: int|
                0 <= i && j == i + 1 && j < turns.len() && (#[trigger] turns[i]).role == Role::Assistant ==> (
                #[trigger] turns[j]).role != Role::Assistant) && (turns.len() > 0 ==> turns.last().role
                != Role::Assistant) ==> sent == turns
        }),
{
    let t = turns_from(messages, 0, vision);
    let said = |x: MessageParamView| !asks_to_continue(x);
    assert(!said(continue_turn()));
    if t.len() > 0 {
        let d = t.drop_last();
        lemma_unended_keeps(d, said);
        let u = unended(d);
        let v = u.push(continue_turn());
        lemma_push_turn_filter(u, continue_turn(), said);
        lemma_push_turn_filter(u, t.last(), said);
        lemma_push_turn_filter(v, t.last(), said);
        lemma_push_turn_filter(u.push(t.last()), continue_turn(), said);
        lemma_push_turn_filter(v.push(t.last()), continue_turn(), said);
        assert(t.filter(said) == (if said(t.last()) {
            d.filter(said).push(t.last())
        } else {
            d.filter(said)
        })) by {
            assert(d.push(t.last()) =~= t);
            lemma_push_turn_filter(d, t.last(), said);
        }
    }
    if alternating(t) && (t.len() > 0 ==> t.last().role != Role::Assistant) {
        if t.len() > 0 {
            let d = t.drop_last();
            assert forall|i: int, j: int|
                0 <= i && j == i + 1 && j < d.len() && (#[trigger] d[i]).role == Role::Assistant implies (
            #[trigger] d[j]).role != Role::Assistant by {
                assert(t[i] == d[i] && t[j] == d[j]);
            }
            lemma_unended_same(d);
            assert(d.push(t.last()) =~= t);
        } else {
            assert(encoded(messages, vision) =~= t);
        }
    }
}

proof fn lemma_unended_same(t: Seq<MessageParamView>)
    requires
        alternating(t),
    ensures
        unended(t) == t,
    decreases t.len(),
{
    if t.len() > 0 {
        let d = t.drop_last();
        assert forall|i: int, j: int|
            0 <= i && j == i + 1 && j < d.len() && (#[trigger] d[i]).role == Role::Assistant implies (
        #[trigger] d[j]).role != Role::Assistant by {
            assert(t[i] == d[i] && t[j] == d[j]);
        }
        lemma_unended_same(d);
        if t.len() > 1 {
            assert(t[t.len() - 2].role == Role::Assistant ==> t[t.len() - 1].role != Role::Assistant);
        }
        assert(d.push(t.last()) =~= t);
    } else {
        assert(unended(t) =~= t);
    }
}

/// The system prompt is its paragraphs in order, with an empty line between them, and
/// a tool is sent under its name, with its description and schema.
pub proof fn law_prompt_and_tools_are_sent(p: Seq<Text>, last: Text, t: WireTool)
    ensures
        p.len() == 0 ==> joined_paragraphs(p.push(last)) == last,
        p.len() > 0 ==> joined_paragraphs(p.push(last)) == joined_paragraphs(p) + "\n\n"@ + last,
        tool_param(t).name == t.name@,
        tool_param(t).description == Some(t.description@),
        tool_param(t).input_schema == json_view(t.input_schema),
{
    assert(p.push(last).drop_last() =~= p);
}

/// Letters in either case are the same letter in the name of a type; everything else is
/// itself.
pub proof fn law_case_does_not_matter(s: Text, i: int)
    requires
        0 <= i < s.len(),
    ensures
        ascii_lower(s).len() == s.len(),
        'A' <= s[i] <= 'Z' ==> ascii_lower(s)[i] as nat == s[i] as nat + 32,
        !('A' <= s[i] <= 'Z') ==> ascii_lower(s)[i] == s[i],
{
}

} // verus!
