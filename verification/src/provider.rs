//! Model providers: what is sent to them, and what their answers mean.
//!
//! There are exactly two wire formats: Anthropic Messages and OpenAI Chat
//! Completions. The canonical conversation shape is Anthropic's content-block form
//! (text, `tool_use`, `tool_result`); the other is translated at its boundary in
//! both directions, so that everything else sees one representation.

use crate::budget::saturating;
use crate::conversation::{Conversation, MessageView, ToolSpec, ToolSpecView, message_views, tool_views};
use crate::http::{add_header, header_texts, one_header};
use crate::json::{
    Json, JsonView, Members, NumberView, empty_object, field, json_parsed, json_text, lemma_views_push, member,
    member_array, member_text, member_u64, views,
};
use crate::manifest::AgentDef;
use crate::table::Table;
use crate::text::{cat2, chars_of, decimal, decimal_text, same, strip_prefix, strip_suffix, text_of, trim, trimmed};
use vstd::prelude::*;

verus! {

#[derive(Debug, Clone, Copy, PartialEq, Eq, Structural)]
pub enum StopReason {
    EndTurn,
    ToolUse,
    MaxTokens,
    Other,
}

#[derive(Debug)]
pub struct ToolCall {
    pub id: String,
    pub name: String,
    pub arguments: Json,
}

/// What a [`ToolCall`] asks for.
pub struct CallView {
    pub id: Seq<char>,
    pub name: Seq<char>,
    pub arguments: JsonView,
}

impl View for ToolCall {
    type V = CallView;

    open spec fn view(&self) -> CallView {
        CallView { id: self.id@, name: self.name@, arguments: self.arguments@ }
    }
}

/// What a list of calls asks for.
pub open spec fn call_views(list: Seq<ToolCall>) -> Seq<CallView> {
    list.map_values(|c: ToolCall| c@)
}

/// A call added to a list adds what it asks for.
pub proof fn lemma_call_push(list: Seq<ToolCall>, c: ToolCall)
    ensures
        call_views(list.push(c)) == call_views(list).push(c@),
{
    assert(call_views(list.push(c)) =~= call_views(list).push(c@));
}

impl ToolCall {
    pub fn copy(&self) -> (r: ToolCall)
        ensures
            r@ == self@,
    {
        ToolCall { id: self.id.clone(), name: self.name.clone(), arguments: self.arguments.copy() }
    }
}

#[derive(Debug)]
pub struct ProviderResponse {
    pub text: String,
    pub tool_calls: Vec<ToolCall>,
    pub stop_reason: StopReason,
    pub input_tokens: u64,
    pub output_tokens: u64,
    /// Tokens served from the provider's prompt cache. Billed at a fraction of
    /// the input rate, so they are tracked separately.
    pub cache_read_tokens: u64,
    /// Tokens written to the prompt cache this call.
    pub cache_write_tokens: u64,
    /// The concrete model that answered, after alias resolution.
    pub model: String,
    /// The assistant turn exactly as the provider returned it, so it can be
    /// replayed verbatim in the next request.
    pub raw_content: Json,
}

/// What a [`ProviderResponse`] says.
#[verifier::ext_equal]
pub struct ReplyView {
    pub text: Seq<char>,
    pub tool_calls: Seq<CallView>,
    pub stop_reason: StopReason,
    pub input_tokens: u64,
    pub output_tokens: u64,
    pub cache_read_tokens: u64,
    pub cache_write_tokens: u64,
    pub model: Seq<char>,
    pub raw_content: JsonView,
}

impl View for ProviderResponse {
    type V = ReplyView;

    open spec fn view(&self) -> ReplyView {
        ReplyView {
            text: self.text@,
            tool_calls: call_views(self.tool_calls@),
            stop_reason: self.stop_reason,
            input_tokens: self.input_tokens,
            output_tokens: self.output_tokens,
            cache_read_tokens: self.cache_read_tokens,
            cache_write_tokens: self.cache_write_tokens,
            model: self.model@,
            raw_content: self.raw_content@,
        }
    }
}

/// All tokens of a reply.
pub open spec fn reply_tokens(r: ReplyView) -> u64 {
    saturating(
        saturating(saturating(r.input_tokens, r.output_tokens), r.cache_read_tokens),
        r.cache_write_tokens,
    )
}

impl ProviderResponse {
    pub fn total_tokens(&self) -> (r: u64)
        ensures
            r == reply_tokens(self@),
    {
        self.input_tokens.saturating_add(self.output_tokens).saturating_add(self.cache_read_tokens).saturating_add(
            self.cache_write_tokens,
        )
    }
}

/// Whether a content block is of a type.
pub open spec fn is_block(b: JsonView, kind: Seq<char>) -> bool {
    member_text(b, "type"@) == Some(kind)
}

fn block_is(b: &Json, kind: &str) -> (r: bool)
    ensures
        r == is_block(b@, kind@),
{
    match b.get_str("type") {
        Some(t) => same(t, kind),
        None => false,
    }
}

/// A text, or none of it.
pub open spec fn or_empty(t: Option<Seq<char>>) -> Seq<char> {
    match t {
        Some(s) => s,
        None => Seq::empty(),
    }
}

/// The text blocks of a content, one after the other.
pub open spec fn blocks_text(blocks: Seq<JsonView>) -> Seq<char>
    decreases blocks.len(),
{
    if blocks.len() == 0 {
        Seq::empty()
    } else {
        let before = blocks_text(blocks.drop_last());
        if is_block(blocks.last(), "text"@) {
            before + or_empty(member_text(blocks.last(), "text"@))
        } else {
            before
        }
    }
}

/// The call that a `tool_use` block asks for.
pub open spec fn block_call(b: JsonView) -> CallView {
    CallView {
        id: or_empty(member_text(b, "id"@)),
        name: or_empty(member_text(b, "name"@)),
        arguments: match member(b, "input"@) {
            Some(v) => v,
            None => empty_object(),
        },
    }
}

/// The `tool_use` blocks of a content.
pub open spec fn blocks_calls(blocks: Seq<JsonView>) -> Seq<CallView>
    decreases blocks.len(),
{
    if blocks.len() == 0 {
        Seq::empty()
    } else {
        let before = blocks_calls(blocks.drop_last());
        if is_block(blocks.last(), "tool_use"@) {
            before.push(block_call(blocks.last()))
        } else {
            before
        }
    }
}

/// A text member of an object, empty where there is none.
pub fn text_or_empty(j: &Json, name: &str) -> (r: String)
    ensures
        r@ == or_empty(member_text(j@, name@)),
{
    match j.get_str(name) {
        Some(t) => t.to_owned(),
        None => String::new(),
    }
}

fn member_or_empty(j: &Json, name: &str) -> (r: Json)
    ensures
        r@ == (match member(j@, name@) {
            Some(v) => v,
            None => empty_object(),
        }),
{
    match j.get(name) {
        Some(v) => v.copy(),
        None => Json::empty(),
    }
}

/// A count in the usage of a payload; zero where it is missing.
pub open spec fn usage_count(payload: JsonView, name: Seq<char>) -> u64 {
    match member(payload, "usage"@) {
        Some(u) => match member_u64(u, name) {
            Some(n) => n,
            None => 0,
        },
        None => 0,
    }
}

fn count_usage(payload: &Json, name: &str) -> (r: u64)
    ensures
        r == usage_count(payload@, name@),
{
    match payload.get("usage") {
        Some(u) => match u.get_u64(name) {
            Some(n) => n,
            None => 0,
        },
        None => 0,
    }
}

/// The model that a payload names, else the one that was asked.
pub open spec fn answering_model(payload: JsonView, model: Seq<char>) -> Seq<char> {
    match member_text(payload, "model"@) {
        Some(m) => m,
        None => model,
    }
}

fn model_of(payload: &Json, model: &str) -> (r: String)
    ensures
        r@ == answering_model(payload@, model@),
{
    match payload.get_str("model") {
        Some(m) => m.to_owned(),
        None => model.to_owned(),
    }
}

/// Why an Anthropic model stopped.
pub open spec fn anthropic_stop(payload: JsonView) -> StopReason {
    match member_text(payload, "stop_reason"@) {
        Some(t) => if t == "tool_use"@ {
            StopReason::ToolUse
        } else if t == "end_turn"@ || t == "stop_sequence"@ {
            StopReason::EndTurn
        } else if t == "max_tokens"@ {
            StopReason::MaxTokens
        } else {
            StopReason::Other
        },
        None => StopReason::Other,
    }
}

/// What an Anthropic payload with a content array says.
pub open spec fn anthropic_reply(payload: JsonView, content: Seq<JsonView>, model: Seq<char>) -> ReplyView {
    ReplyView {
        text: blocks_text(content),
        tool_calls: blocks_calls(content),
        stop_reason: anthropic_stop(payload),
        input_tokens: usage_count(payload, "input_tokens"@),
        output_tokens: usage_count(payload, "output_tokens"@),
        cache_read_tokens: usage_count(payload, "cache_read_input_tokens"@),
        cache_write_tokens: usage_count(payload, "cache_creation_input_tokens"@),
        model: answering_model(payload, model),
        raw_content: JsonView::Array(content),
    }
}

/// Reads an Anthropic Messages payload.
pub fn parse_anthropic(payload: &Json, model: &str) -> (r: Result<ProviderResponse, String>)
    ensures
        match (r, member_array(payload@, "content"@)) {
            (Ok(p), Some(content)) => p@ == anthropic_reply(payload@, content, model@),
            (Err(e), None) => e@ == "anthropic response had no content array"@,
            _ => false,
        },
{
    let content = match payload.get_array("content") {
        Some(c) => c,
        None => {
            return Err("anthropic response had no content array".to_owned());
        },
    };
    let ghost blocks = views(content@);
    let mut text = String::new();
    let mut tool_calls: Vec<ToolCall> = Vec::new();
    let mut raw: Vec<Json> = Vec::new();
    let mut i: usize = 0;
    assert(text@ =~= blocks_text(blocks.take(0)));
    assert(call_views(tool_calls@) =~= blocks_calls(blocks.take(0)));
    assert(views(raw@) =~= blocks.take(0));
    while i < content.len()
        invariant
            i <= content@.len(),
            blocks == views(content@),
            text@ == blocks_text(blocks.take(i as int)),
            call_views(tool_calls@) == blocks_calls(blocks.take(i as int)),
            views(raw@) == blocks.take(i as int),
        decreases content.len() - i,
    {
        let block = &content[i];
        proof {
            assert(blocks[i as int] == block@);
            assert(blocks.take(i + 1).drop_last() =~= blocks.take(i as int));
            assert(blocks.take(i + 1) =~= blocks.take(i as int).push(block@));
            reveal_strlit("text");
            reveal_strlit("tool_use");
            assert("text"@.len() != "tool_use"@.len());
        }
        if block_is(block, "text") {
            let t = text_or_empty(block, "text");
            text.append(t.as_str());
        } else if block_is(block, "tool_use") {
            let call = ToolCall {
                id: text_or_empty(block, "id"),
                name: text_or_empty(block, "name"),
                arguments: member_or_empty(block, "input"),
            };
            proof {
                lemma_call_push(tool_calls@, call);
            }
            tool_calls.push(call);
        }
        let copy = block.copy();
        proof {
            lemma_views_push(raw@, copy);
        }
        raw.push(copy);
        i = i + 1;
    }
    assert(blocks.take(blocks.len() as int) =~= blocks);
    let stop_reason = match payload.get_str("stop_reason") {
        Some(t) => if same(t, "tool_use") {
            StopReason::ToolUse
        } else if same(t, "end_turn") || same(t, "stop_sequence") {
            StopReason::EndTurn
        } else if same(t, "max_tokens") {
            StopReason::MaxTokens
        } else {
            StopReason::Other
        },
        None => StopReason::Other,
    };
    Ok(
        ProviderResponse {
            text,
            tool_calls,
            stop_reason,
            input_tokens: count_usage(payload, "input_tokens"),
            output_tokens: count_usage(payload, "output_tokens"),
            cache_read_tokens: count_usage(payload, "cache_read_input_tokens"),
            cache_write_tokens: count_usage(payload, "cache_creation_input_tokens"),
            model: model_of(payload, model),
            raw_content: Json::array(raw),
        },
    )
}

/// A message of a chat.
pub open spec fn chat_message(role: Seq<char>, content: JsonView) -> JsonView {
    JsonView::Object(Map::empty().insert("role"@, JsonView::Str(role)).insert("content"@, content))
}

/// A value as text: a string is itself, anything else is printed.
pub open spec fn as_text(j: JsonView) -> Seq<char> {
    match j {
        JsonView::Str(s) => s,
        other => json_text(other),
    }
}

/// The message that a `tool_result` block becomes.
pub open spec fn tool_message(b: JsonView) -> JsonView {
    JsonView::Object(
        Map::empty().insert("role"@, JsonView::Str("tool"@)).insert("tool_call_id"@, field(b, "tool_use_id"@)).insert(
            "content"@,
            JsonView::Str(
                match member(b, "content"@) {
                    Some(c) => as_text(c),
                    None => Seq::empty(),
                },
            ),
        ),
    )
}

/// The messages that the `tool_result` blocks of a content become.
pub open spec fn tool_messages(blocks: Seq<JsonView>) -> Seq<JsonView>
    decreases blocks.len(),
{
    if blocks.len() == 0 {
        Seq::empty()
    } else {
        let before = tool_messages(blocks.drop_last());
        if is_block(blocks.last(), "tool_result"@) {
            before.push(tool_message(blocks.last()))
        } else {
            before
        }
    }
}

/// The function call that a `tool_use` block becomes.
pub open spec fn function_call(b: JsonView) -> JsonView {
    JsonView::Object(
        Map::empty().insert("id"@, field(b, "id"@)).insert("type"@, JsonView::Str("function"@)).insert(
            "function"@,
            JsonView::Object(
                Map::empty().insert("name"@, field(b, "name"@)).insert(
                    "arguments"@,
                    JsonView::Str(
                        match member(b, "input"@) {
                            Some(v) => json_text(v),
                            None => "{}"@,
                        },
                    ),
                ),
            ),
        ),
    )
}

/// The function calls that the `tool_use` blocks of a content become.
pub open spec fn function_calls(blocks: Seq<JsonView>) -> Seq<JsonView>
    decreases blocks.len(),
{
    if blocks.len() == 0 {
        Seq::empty()
    } else {
        let before = function_calls(blocks.drop_last());
        if is_block(blocks.last(), "tool_use"@) {
            before.push(function_call(blocks.last()))
        } else {
            before
        }
    }
}

/// The message that an assistant turn of blocks becomes.
pub open spec fn assistant_message(blocks: Seq<JsonView>) -> JsonView {
    let text = blocks_text(blocks);
    let m = Map::empty().insert("role"@, JsonView::Str("assistant"@)).insert(
        "content"@,
        if text.len() == 0 {
            JsonView::Null
        } else {
            JsonView::Str(text)
        },
    );
    if function_calls(blocks).len() == 0 {
        JsonView::Object(m)
    } else {
        JsonView::Object(m.insert("tool_calls"@, JsonView::Array(function_calls(blocks))))
    }
}

/// The chat messages that one canonical message becomes.
pub open spec fn openai_messages(role: Seq<char>, content: JsonView) -> Seq<JsonView> {
    match content {
        JsonView::Str(s) => seq![chat_message(role, JsonView::Str(s))],
        JsonView::Array(blocks) => if role == "user"@ {
            let text = blocks_text(blocks);
            if text.len() == 0 {
                tool_messages(blocks)
            } else {
                tool_messages(blocks).push(chat_message("user"@, JsonView::Str(text)))
            }
        } else if role == "assistant"@ {
            seq![assistant_message(blocks)]
        } else {
            seq![chat_message(role, JsonView::Str(json_text(content)))]
        },
        other => seq![chat_message(role, JsonView::Str(json_text(other)))],
    }
}

fn message_json(role: &str, content: Json) -> (r: Json)
    ensures
        r@ == chat_message(role@, content@),
{
    let mut m = Members::new();
    m.put("role", Json::str(role));
    m.put("content", content);
    Json::Object(m)
}

/// A member of an object, `null` where there is none.
pub fn member_or_null(j: &Json, name: &str) -> (r: Json)
    ensures
        r@ == field(j@, name@),
{
    match j.get(name) {
        Some(v) => v.copy(),
        None => Json::Null,
    }
}

fn collect_text(blocks: &Vec<Json>) -> (r: String)
    ensures
        r@ == blocks_text(views(blocks@)),
{
    let ghost all = views(blocks@);
    let mut text = String::new();
    let mut i: usize = 0;
    assert(text@ =~= blocks_text(all.take(0)));
    while i < blocks.len()
        invariant
            i <= blocks@.len(),
            all == views(blocks@),
            text@ == blocks_text(all.take(i as int)),
        decreases blocks.len() - i,
    {
        assert(all.take(i + 1).drop_last() =~= all.take(i as int));
        assert(all.take(i + 1).last() == blocks@[i as int]@);
        if block_is(&blocks[i], "text") {
            let t = text_or_empty(&blocks[i], "text");
            text.append(t.as_str());
        }
        i = i + 1;
    }
    assert(all.take(all.len() as int) =~= all);
    text
}

fn collect_results(blocks: &Vec<Json>) -> (r: Vec<Json>)
    ensures
        views(r@) == tool_messages(views(blocks@)),
{
    let ghost all = views(blocks@);
    let mut out: Vec<Json> = Vec::new();
    let mut i: usize = 0;
    assert(views(out@) =~= tool_messages(all.take(0)));
    while i < blocks.len()
        invariant
            i <= blocks@.len(),
            all == views(blocks@),
            views(out@) == tool_messages(all.take(i as int)),
        decreases blocks.len() - i,
    {
        let b = &blocks[i];
        assert(all.take(i + 1).drop_last() =~= all.take(i as int));
        assert(all.take(i + 1).last() == b@);
        if block_is(b, "tool_result") {
            let content = match b.get("content") {
                Some(Json::Str(s)) => s.clone(),
                Some(other) => other.to_text(),
                None => String::new(),
            };
            let mut m = Members::new();
            m.put("role", Json::str("tool"));
            m.put("tool_call_id", member_or_null(b, "tool_use_id"));
            m.put("content", Json::str(content.as_str()));
            let message = Json::Object(m);
            assert(content@ =~= match member(b@, "content"@) {
                Some(c) => as_text(c),
                None => Seq::empty(),
            });
            proof {
                lemma_views_push(out@, message);
            }
            out.push(message);
        }
        i = i + 1;
    }
    assert(all.take(all.len() as int) =~= all);
    out
}

fn collect_calls(blocks: &Vec<Json>) -> (r: Vec<Json>)
    ensures
        views(r@) == function_calls(views(blocks@)),
{
    let ghost all = views(blocks@);
    let mut out: Vec<Json> = Vec::new();
    let mut i: usize = 0;
    assert(views(out@) =~= function_calls(all.take(0)));
    while i < blocks.len()
        invariant
            i <= blocks@.len(),
            all == views(blocks@),
            views(out@) == function_calls(all.take(i as int)),
        decreases blocks.len() - i,
    {
        let b = &blocks[i];
        assert(all.take(i + 1).drop_last() =~= all.take(i as int));
        assert(all.take(i + 1).last() == b@);
        if block_is(b, "tool_use") {
            let arguments = match b.get("input") {
                Some(v) => v.to_text(),
                None => "{}".to_owned(),
            };
            let mut f = Members::new();
            f.put("name", member_or_null(b, "name"));
            f.put("arguments", Json::str(arguments.as_str()));
            let mut m = Members::new();
            m.put("id", member_or_null(b, "id"));
            m.put("type", Json::str("function"));
            m.put("function", Json::Object(f));
            let call = Json::Object(m);
            proof {
                lemma_views_push(out@, call);
            }
            out.push(call);
        }
        i = i + 1;
    }
    assert(all.take(all.len() as int) =~= all);
    out
}

/// Translate one canonical (Anthropic-shaped) message into chat messages.
/// A user turn holding tool results becomes one `tool` message per result.
pub fn to_openai_messages(role: &str, content: &Json) -> (r: Vec<Json>)
    ensures
        views(r@) == openai_messages(role@, content@),
{
    let mut out: Vec<Json> = Vec::new();
    assert(views(out@) =~= Seq::empty());
    match content {
        Json::Str(s) => {
            let m = message_json(role, Json::str(s.as_str()));
            proof {
                lemma_views_push(out@, m);
            }
            out.push(m);
            assert(views(out@) =~= openai_messages(role@, content@));
        },
        Json::Array(blocks) => {
            proof {
                Json::lemma_array_views(*blocks);
            }
            if same(role, "user") {
                out = collect_results(blocks);
                let text = collect_text(blocks);
                if !text.as_str().is_empty() {
                    let m = message_json("user", Json::Str(text));
                    proof {
                        lemma_views_push(out@, m);
                    }
                    out.push(m);
                }
            } else if same(role, "assistant") {
                let text = collect_text(blocks);
                let calls = collect_calls(blocks);
                let empty = text.as_str().is_empty();
                let mut m = Members::new();
                m.put("role", Json::str("assistant"));
                m.put(
                    "content",
                    if empty {
                        Json::Null
                    } else {
                        Json::Str(text)
                    },
                );
                assert(views(calls@).len() == calls@.len());
                if calls.len() > 0 {
                    m.put("tool_calls", Json::array(calls));
                }
                let message = Json::Object(m);
                assert(message@ == assistant_message(views(blocks@)));
                proof {
                    lemma_views_push(out@, message);
                }
                out.push(message);
                assert(views(out@) =~= openai_messages(role@, content@));
            } else {
                let m = message_json(role, Json::Str(content.to_text()));
                proof {
                    lemma_views_push(out@, m);
                }
                out.push(m);
                assert(views(out@) =~= openai_messages(role@, content@));
            }
        },
        other => {
            let m = message_json(role, Json::Str(other.to_text()));
            proof {
                lemma_views_push(out@, m);
            }
            out.push(m);
            assert(views(out@) =~= openai_messages(role@, content@));
        },
    }
    out
}

/// The texts of the parts of a chat message, one after the other.
pub open spec fn parts_text(parts: Seq<JsonView>) -> Seq<char>
    decreases parts.len(),
{
    if parts.len() == 0 {
        Seq::empty()
    } else {
        parts_text(parts.drop_last()) + or_empty(member_text(parts.last(), "text"@))
    }
}

/// The text of a chat message.
pub open spec fn message_text(message: JsonView) -> Seq<char> {
    match member(message, "content"@) {
        Some(JsonView::Str(s)) => s,
        Some(JsonView::Array(parts)) => parts_text(parts),
        _ => Seq::empty(),
    }
}

/// The arguments of a function call: decoded from their string form, taken as they
/// are, or none.
pub open spec fn call_arguments(f: JsonView) -> JsonView {
    match member(f, "arguments"@) {
        Some(JsonView::Str(s)) => match json_parsed(s) {
            Some(v) => v,
            None => empty_object(),
        },
        Some(v) => v,
        None => empty_object(),
    }
}

/// The call that a function call at a place asks for.
pub open spec fn chat_call(c: JsonView, i: int) -> CallView {
    let f = field(c, "function"@);
    CallView {
        id: match member_text(c, "id"@) {
            Some(t) => t,
            None => "call_"@ + decimal(i as nat),
        },
        name: or_empty(member_text(f, "name"@)),
        arguments: call_arguments(f),
    }
}

/// The calls of a chat message.
pub open spec fn chat_calls(message: JsonView) -> Seq<CallView> {
    match member_array(message, "tool_calls"@) {
        Some(calls) => Seq::new(calls.len(), |i: int| chat_call(calls[i], i)),
        None => Seq::empty(),
    }
}

/// A text block.
pub open spec fn text_block(text: Seq<char>) -> JsonView {
    JsonView::Object(Map::empty().insert("type"@, JsonView::Str("text"@)).insert("text"@, JsonView::Str(text)))
}

/// A `tool_use` block.
pub open spec fn use_block(c: CallView) -> JsonView {
    JsonView::Object(
        Map::empty().insert("type"@, JsonView::Str("tool_use"@)).insert("id"@, JsonView::Str(c.id)).insert(
            "name"@,
            JsonView::Str(c.name),
        ).insert("input"@, c.arguments),
    )
}

/// The canonical content of a text and calls.
pub open spec fn canonical(text: Seq<char>, calls: Seq<CallView>) -> Seq<JsonView> {
    let uses = calls.map_values(|c: CallView| use_block(c));
    if text.len() == 0 {
        uses
    } else {
        seq![text_block(text)] + uses
    }
}

/// Why a chat model stopped.
pub open spec fn openai_stop(choice: JsonView, any_calls: bool) -> StopReason {
    match member_text(choice, "finish_reason"@) {
        Some(t) => if t == "tool_calls"@ || t == "function_call"@ {
            StopReason::ToolUse
        } else if t == "stop"@ {
            StopReason::EndTurn
        } else if t == "length"@ {
            StopReason::MaxTokens
        } else if any_calls {
            StopReason::ToolUse
        } else {
            StopReason::Other
        },
        None => if any_calls {
            StopReason::ToolUse
        } else {
            StopReason::Other
        },
    }
}

/// The tokens that a chat model read from its cache.
pub open spec fn cached_tokens(payload: JsonView) -> u64 {
    match member(payload, "usage"@) {
        Some(u) => match member(u, "prompt_tokens_details"@) {
            Some(d) => match member_u64(d, "cached_tokens"@) {
                Some(n) => n,
                None => 0,
            },
            None => 0,
        },
        None => 0,
    }
}

/// What a chat payload with a choice and its message says.
pub open spec fn openai_reply(payload: JsonView, choice: JsonView, message: JsonView, model: Seq<char>) -> ReplyView {
    ReplyView {
        text: message_text(message),
        tool_calls: chat_calls(message),
        stop_reason: openai_stop(choice, chat_calls(message).len() > 0),
        input_tokens: usage_count(payload, "prompt_tokens"@),
        output_tokens: usage_count(payload, "completion_tokens"@),
        cache_read_tokens: cached_tokens(payload),
        cache_write_tokens: 0,
        model: answering_model(payload, model),
        raw_content: JsonView::Array(canonical(message_text(message), chat_calls(message))),
    }
}

/// What is wrong with a chat payload, or the choice and message it holds.
pub open spec fn chat_choice(payload: JsonView) -> Result<(JsonView, JsonView), Seq<char>> {
    match member_array(payload, "choices"@) {
        Some(choices) => if choices.len() == 0 {
            Err("chat completion had no choices"@)
        } else {
            match member(choices[0], "message"@) {
                Some(m) => Ok((choices[0], m)),
                None => Err("chat completion choice had no message"@),
            }
        },
        None => Err("chat completion had no choices"@),
    }
}

fn text_of_message(message: &Json) -> (r: String)
    ensures
        r@ == message_text(message@),
{
    match message.get("content") {
        Some(Json::Str(s)) => s.clone(),
        Some(Json::Array(parts)) => {
            proof {
                Json::lemma_array_views(*parts);
            }
            let ghost all = views(parts@);
            let mut text = String::new();
            let mut i: usize = 0;
            assert(text@ =~= parts_text(all.take(0)));
            while i < parts.len()
                invariant
                    i <= parts@.len(),
                    all == views(parts@),
                    text@ == parts_text(all.take(i as int)),
                decreases parts.len() - i,
            {
                assert(all.take(i + 1).drop_last() =~= all.take(i as int));
                assert(all.take(i + 1).last() == parts@[i as int]@);
                let t = text_or_empty(&parts[i], "text");
                text.append(t.as_str());
                i = i + 1;
            }
            assert(all.take(all.len() as int) =~= all);
            text
        },
        _ => String::new(),
    }
}

fn read_chat_call(c: &Json, i: usize) -> (r: ToolCall)
    ensures
        r@ == chat_call(c@, i as int),
{
    let id = match c.get_str("id") {
        Some(t) => t.to_owned(),
        None => cat2("call_", decimal_text(i as u64).as_str()),
    };
    let f = member_or_null(c, "function");
    let arguments = match f.get("arguments") {
        Some(Json::Str(s)) => match crate::json::parse(s.as_str()) {
            Some(v) => v,
            None => Json::empty(),
        },
        Some(v) => v.copy(),
        None => Json::empty(),
    };
    ToolCall { id, name: text_or_empty(&f, "name"), arguments }
}

/// A text block.
pub fn text_to_block(text: &str) -> (r: Json)
    ensures
        r@ == text_block(text@),
{
    let mut m = Members::new();
    m.put("type", Json::str("text"));
    m.put("text", Json::str(text));
    Json::Object(m)
}

fn call_to_block(c: &ToolCall) -> (r: Json)
    ensures
        r@ == use_block(c@),
{
    let mut m = Members::new();
    m.put("type", Json::str("tool_use"));
    m.put("id", Json::str(c.id.as_str()));
    m.put("name", Json::str(c.name.as_str()));
    m.put("input", c.arguments.copy());
    Json::Object(m)
}

/// The canonical content of a text and calls.
pub fn canonical_content(text: &str, calls: &Vec<ToolCall>) -> (r: Json)
    ensures
        r@ == JsonView::Array(canonical(text@, call_views(calls@))),
{
    let mut raw: Vec<Json> = Vec::new();
    let ghost start: Seq<JsonView> = if text@.len() == 0 {
        Seq::empty()
    } else {
        seq![text_block(text@)]
    };
    if !text.is_empty() {
        raw.push(text_to_block(text));
    }
    assert(views(raw@) =~= start);
    let mut i: usize = 0;
    let ghost uses = call_views(calls@).map_values(|c: CallView| use_block(c));
    assert(start + uses.take(0) =~= start);
    while i < calls.len()
        invariant
            i <= calls@.len(),
            uses == call_views(calls@).map_values(|c: CallView| use_block(c)),
            views(raw@) == start + uses.take(i as int),
        decreases calls.len() - i,
    {
        let b = call_to_block(&calls[i]);
        proof {
            lemma_views_push(raw@, b);
            assert(uses.take(i + 1) =~= uses.take(i as int).push(b@));
            assert(start + uses.take(i + 1) =~= (start + uses.take(i as int)).push(b@));
        }
        raw.push(b);
        i = i + 1;
    }
    assert(uses.take(uses.len() as int) =~= uses);
    assert(start + uses =~= canonical(text@, call_views(calls@)));
    Json::array(raw)
}

/// Reads a chat completion payload.
pub fn parse_openai(payload: &Json, model: &str) -> (r: Result<ProviderResponse, String>)
    ensures
        match (r, chat_choice(payload@)) {
            (Ok(p), Ok(c)) => p@ == openai_reply(payload@, c.0, c.1, model@),
            (Err(e), Err(f)) => e@ == f,
            _ => false,
        },
{
    let choices = match payload.get_array("choices") {
        Some(c) => c,
        None => {
            return Err("chat completion had no choices".to_owned());
        },
    };
    if choices.len() == 0 {
        assert(views(choices@).len() == 0);
        return Err("chat completion had no choices".to_owned());
    }
    let choice = &choices[0];
    assert(views(choices@)[0] == choice@);
    let message = match choice.get("message") {
        Some(m) => m,
        None => {
            return Err("chat completion choice had no message".to_owned());
        },
    };
    let text = text_of_message(message);
    let mut tool_calls: Vec<ToolCall> = Vec::new();
    match message.get_array("tool_calls") {
        Some(calls) => {
            let ghost all = views(calls@);
            let mut i: usize = 0;
            while i < calls.len()
                invariant
                    i <= calls@.len(),
                    all == views(calls@),
                    tool_calls@.len() == i,
                    forall|k: int| 0 <= k < i ==> (#[trigger] tool_calls@[k])@ == chat_call(all[k], k),
                decreases calls.len() - i,
            {
                assert(all[i as int] == calls@[i as int]@);
                tool_calls.push(read_chat_call(&calls[i], i));
                i = i + 1;
            }
            assert(call_views(tool_calls@) =~= chat_calls(message@));
        },
        None => {
            assert(call_views(tool_calls@) =~= chat_calls(message@));
        },
    }
    let any_calls = tool_calls.len() > 0;
    assert(any_calls == (chat_calls(message@).len() > 0)) by {
        assert(call_views(tool_calls@).len() == tool_calls@.len());
    }
    let stop_reason = match choice.get_str("finish_reason") {
        Some(t) => if same(t, "tool_calls") || same(t, "function_call") {
            StopReason::ToolUse
        } else if same(t, "stop") {
            StopReason::EndTurn
        } else if same(t, "length") {
            StopReason::MaxTokens
        } else if any_calls {
            StopReason::ToolUse
        } else {
            StopReason::Other
        },
        None => if any_calls {
            StopReason::ToolUse
        } else {
            StopReason::Other
        },
    };
    let cache_read_tokens: u64 = match payload.get("usage") {
        Some(u) => match u.get("prompt_tokens_details") {
            Some(d) => match d.get_u64("cached_tokens") {
                Some(n) => n,
                None => 0,
            },
            None => 0,
        },
        None => 0,
    };
    let raw_content = canonical_content(text.as_str(), &tool_calls);
    Ok(
        ProviderResponse {
            text,
            tool_calls,
            stop_reason,
            input_tokens: count_usage(payload, "prompt_tokens"),
            output_tokens: count_usage(payload, "completion_tokens"),
            cache_read_tokens,
            cache_write_tokens: 0,
            model: model_of(payload, model),
            raw_content,
        },
    )
}

/// Where the brace that was opened first is closed, past the closing one. Braces in
/// strings do not count, and a backslash in a string hides the character behind it.
pub open spec fn closed_at(s: Seq<char>, i: int, depth: int, in_str: bool, escape: bool) -> Option<int>
    decreases s.len() - i,
{
    if i < 0 || i >= s.len() {
        None
    } else if in_str {
        if escape {
            closed_at(s, i + 1, depth, true, false)
        } else if s[i] == '\\' {
            closed_at(s, i + 1, depth, true, true)
        } else if s[i] == '"' {
            closed_at(s, i + 1, depth, false, false)
        } else {
            closed_at(s, i + 1, depth, true, false)
        }
    } else if s[i] == '"' {
        closed_at(s, i + 1, depth, true, false)
    } else if s[i] == '{' {
        closed_at(s, i + 1, depth + 1, false, false)
    } else if s[i] == '}' {
        if depth - 1 == 0 {
            Some(i + 1)
        } else {
            closed_at(s, i + 1, depth - 1, false, false)
        }
    } else {
        closed_at(s, i + 1, depth, false, false)
    }
}

/// What stands between the marks of a code fence.
pub open spec fn unfenced(s: Seq<char>) -> Option<Seq<char>> {
    let inner = match crate::text::after_prefix(s, "```json"@) {
        Some(t) => Some(t),
        None => crate::text::after_prefix(s, "```"@),
    };
    match inner {
        Some(t) => match crate::text::before_suffix(t, "```"@) {
            Some(u) => Some(trimmed(u)),
            None => None,
        },
        None => None,
    }
}

/// The value of the first braces of a text that close.
pub open spec fn braced_json(s: Seq<char>) -> Option<JsonView> {
    let start = crate::text::first_at(s, '{');
    if start < s.len() {
        match closed_at(s, start, 0, false, false) {
            Some(end) => json_parsed(s.subrange(start, end)),
            None => None,
        }
    } else {
        None
    }
}

/// The structured value in a text: all of it, where it is an object or an array;
/// what stands in a code fence; or the first braces that close.
pub open spec fn recovered(text: Seq<char>) -> Option<JsonView> {
    let s = trimmed(text);
    match json_parsed(s) {
        Some(JsonView::Object(m)) => Some(JsonView::Object(m)),
        Some(JsonView::Array(a)) => Some(JsonView::Array(a)),
        _ => match unfenced(s) {
            Some(inner) => match json_parsed(inner) {
                Some(v) => Some(v),
                None => braced_json(s),
            },
            None => braced_json(s),
        },
    }
}

proof fn lemma_closed_in_bounds(s: Seq<char>, i: int, depth: int, in_str: bool, escape: bool)
    requires
        0 <= i,
    ensures
        closed_at(s, i, depth, in_str, escape) matches Some(end) ==> i < end <= s.len(),
    decreases s.len() - i,
{
    if i < s.len() {
        lemma_closed_in_bounds(s, i + 1, depth, true, false);
        lemma_closed_in_bounds(s, i + 1, depth, true, true);
        lemma_closed_in_bounds(s, i + 1, depth, false, false);
        lemma_closed_in_bounds(s, i + 1, depth + 1, false, false);
        lemma_closed_in_bounds(s, i + 1, depth - 1, false, false);
    }
}

/// The value of the first braces of a text that close.
fn read_braced(text: &str) -> (r: Option<Json>)
    ensures
        match r {
            Some(j) => braced_json(text@) == Some(j@),
            None => braced_json(text@) is None,
        },
{
    let chars = chars_of(text);
    let mut start: usize = 0;
    while start < chars.len() && chars[start] != '{'
        invariant
            start <= chars@.len(),
            chars@ == text@,
            forall|j: int| 0 <= j < start ==> text@[j] != '{',
        decreases chars.len() - start,
    {
        start = start + 1;
    }
    proof {
        crate::text::lemma_first_at(text@, '{', start as int);
    }
    if start >= chars.len() {
        return None;
    }
    let mut depth: usize = 0;
    let mut in_str = false;
    let mut escape = false;
    let mut i: usize = start;
    while i < chars.len()
        invariant
            start <= i <= chars.len(),
            start < chars@.len(),
            chars@ == text@,
            start == crate::text::first_at(text@, '{'),
            depth <= i - start,
            i > start ==> depth >= 1,
            text@[start as int] == '{',
            in_str ==> i > start,
            escape ==> in_str,
            closed_at(text@, start as int, 0, false, false) == closed_at(
                text@,
                i as int,
                depth as int,
                in_str,
                escape,
            ),
        decreases chars.len() - i,
    {
        let c = chars[i];
        if in_str {
            if escape {
                escape = false;
            } else if c == '\\' {
                escape = true;
            } else if c == '"' {
                in_str = false;
            }
        } else if c == '"' {
            in_str = true;
        } else if c == '{' {
            depth = depth + 1;
        } else if c == '}' {
            if depth == 1 {
                let piece = text_of(&chars, start, i + 1);
                return crate::json::parse(piece.as_str());
            }
            depth = depth - 1;
        }
        i = i + 1;
    }
    None
}

/// Best-effort recovery of structured output from prose.
///
/// Smaller models frequently answer a forced tool call in text: often correct
/// JSON, sometimes wrapped in a code fence.
pub fn recover_json(text: &str) -> (r: Option<Json>)
    ensures
        match r {
            Some(j) => recovered(text@) == Some(j@),
            None => recovered(text@) is None,
        },
{
    let t = trim(text);
    if let Some(v) = crate::json::parse(t.as_str()) {
        let structured = match &v {
            Json::Object(_) => true,
            Json::Array(_) => true,
            _ => false,
        };
        if structured {
            return Some(v);
        }
    }
    let inner = match strip_prefix(t.as_str(), "```json") {
        Some(s) => Some(s),
        None => strip_prefix(t.as_str(), "```"),
    };
    let fenced = match inner {
        Some(s) => strip_suffix(s.as_str(), "```"),
        None => None,
    };
    if let Some(s) = fenced {
        if let Some(v) = crate::json::parse(trim(s.as_str()).as_str()) {
            return Some(v);
        }
    }
    read_braced(t.as_str())
}

/// What an optional text holds.
pub open spec fn maybe_str(s: Option<&str>) -> Option<Seq<char>> {
    match s {
        Some(t) => Some(t@),
        None => None,
    }
}

/// Everything a provider needs for one completion.
pub struct CompletionRequest<'a> {
    pub agent: &'a AgentDef,
    pub conversation: &'a Conversation,
    pub tools: &'a [ToolSpec],
    /// Force the model to call this tool. This is how structured output is
    /// made a guarantee rather than a request.
    pub force_tool: Option<&'a str>,
    /// Extra system text appended after the agent's own system prompt: resolved
    /// context providers, handoff instructions.
    pub system_suffix: &'a str,
}

/// What a [`CompletionRequest`] asks.
pub struct RequestView {
    pub agent: Seq<char>,
    pub model: Seq<char>,
    pub system: Seq<char>,
    pub max_tokens: u32,
    pub temperature: Option<NumberView>,
    pub cache: bool,
    pub messages: Seq<MessageView>,
    pub tools: Seq<ToolSpecView>,
    pub force_tool: Option<Seq<char>>,
    pub system_suffix: Seq<char>,
}

impl<'a> View for CompletionRequest<'a> {
    type V = RequestView;

    open spec fn view(&self) -> RequestView {
        RequestView {
            agent: self.agent.name@,
            model: self.agent.model@,
            system: self.agent.system@,
            max_tokens: self.agent.max_tokens,
            temperature: match self.agent.temperature {
                Some(n) => Some(n@),
                None => None,
            },
            cache: self.agent.cache,
            messages: self.conversation@,
            tools: tool_views(self.tools@),
            force_tool: maybe_str(self.force_tool),
            system_suffix: self.system_suffix@,
        }
    }
}

/// The system prompt of a request: the agent's own, and what is appended to it.
pub open spec fn whole_system(system: Seq<char>, suffix: Seq<char>) -> Seq<char> {
    if suffix.len() == 0 {
        system
    } else if system.len() == 0 {
        suffix
    } else {
        system + "\n\n"@ + suffix
    }
}

/// A request without tools or a system prompt, given its messages.
pub open spec fn bare_body(r: RequestView, messages: Seq<JsonView>) -> Map<Seq<char>, JsonView> {
    Map::empty().insert("model"@, JsonView::Str(r.model)).insert(
        "max_tokens"@,
        JsonView::Number(NumberView::Int(r.max_tokens as int)),
    ).insert(
        "temperature"@,
        match r.temperature {
            Some(n) => JsonView::Number(n),
            None => JsonView::Null,
        },
    ).insert("messages"@, JsonView::Array(messages))
}

/// The mark that asks for caching.
pub open spec fn ephemeral() -> JsonView {
    JsonView::Object(Map::empty().insert("type"@, JsonView::Str("ephemeral"@)))
}

/// The messages of a conversation, as they are.
pub open spec fn plain_messages(messages: Seq<MessageView>) -> Seq<JsonView> {
    messages.map_values(|m: MessageView| chat_message(m.role, m.content))
}

/// A system prompt as a block, on which a cache breakpoint can sit.
pub open spec fn system_block(system: Seq<char>, cache: bool) -> JsonView {
    let m = Map::empty().insert("type"@, JsonView::Str("text"@)).insert("text"@, JsonView::Str(system));
    JsonView::Object(
        if cache {
            m.insert("cache_control"@, ephemeral())
        } else {
            m
        },
    )
}

/// A tool as Anthropic Messages has it.
pub open spec fn anthropic_tool(t: ToolSpecView, mark: bool) -> JsonView {
    let m = Map::empty().insert("name"@, JsonView::Str(t.name)).insert(
        "description"@,
        JsonView::Str(t.description),
    ).insert("input_schema"@, t.input_schema);
    JsonView::Object(
        if mark {
            m.insert("cache_control"@, ephemeral())
        } else {
            m
        },
    )
}

/// The tools as Anthropic Messages has them: the last is marked where caching is
/// asked for.
pub open spec fn anthropic_tools(tools: Seq<ToolSpecView>, cache: bool) -> Seq<JsonView> {
    Seq::new(tools.len(), |i: int| anthropic_tool(tools[i], cache && i + 1 == tools.len()))
}

/// The body that is posted to Anthropic Messages.
pub open spec fn anthropic_body(r: RequestView) -> JsonView {
    let bare = bare_body(r, plain_messages(r.messages));
    let system = whole_system(r.system, r.system_suffix);
    let prompted = if system.len() == 0 {
        bare
    } else {
        bare.insert("system"@, JsonView::Array(seq![system_block(system, r.cache)]))
    };
    JsonView::Object(
        if r.tools.len() == 0 {
            prompted
        } else {
            let tooled = prompted.insert("tools"@, JsonView::Array(anthropic_tools(r.tools, r.cache)));
            match r.force_tool {
                Some(name) => tooled.insert(
                    "tool_choice"@,
                    JsonView::Object(
                        Map::empty().insert("type"@, JsonView::Str("tool"@)).insert("name"@, JsonView::Str(name)),
                    ),
                ),
                None => tooled,
            }
        },
    )
}

/// The chat messages that a conversation becomes.
pub open spec fn flat_messages(messages: Seq<MessageView>) -> Seq<JsonView>
    decreases messages.len(),
{
    if messages.len() == 0 {
        Seq::empty()
    } else {
        flat_messages(messages.drop_last()) + openai_messages(messages.last().role, messages.last().content)
    }
}

/// A tool as Chat Completions has it.
pub open spec fn openai_tool(t: ToolSpecView) -> JsonView {
    JsonView::Object(
        Map::empty().insert("type"@, JsonView::Str("function"@)).insert(
            "function"@,
            JsonView::Object(
                Map::empty().insert("name"@, JsonView::Str(t.name)).insert(
                    "description"@,
                    JsonView::Str(t.description),
                ).insert("parameters"@, t.input_schema),
            ),
        ),
    )
}

/// The body that is posted to Chat Completions.
pub open spec fn openai_body(r: RequestView) -> JsonView {
    let system = whole_system(r.system, r.system_suffix);
    let start = if system.len() == 0 {
        Seq::empty()
    } else {
        seq![chat_message("system"@, JsonView::Str(system))]
    };
    let bare = bare_body(r, start + flat_messages(r.messages));
    JsonView::Object(
        if r.tools.len() == 0 {
            bare
        } else {
            let tooled = bare.insert(
                "tools"@,
                JsonView::Array(r.tools.map_values(|t: ToolSpecView| openai_tool(t))),
            );
            match r.force_tool {
                Some(name) => tooled.insert(
                    "tool_choice"@,
                    JsonView::Object(
                        Map::empty().insert("type"@, JsonView::Str("function"@)).insert(
                            "function"@,
                            JsonView::Object(Map::empty().insert("name"@, JsonView::Str(name))),
                        ),
                    ),
                ),
                None => tooled,
            }
        },
    )
}

fn ephemeral_json() -> (r: Json)
    ensures
        r@ == ephemeral(),
{
    let mut m = Members::new();
    m.put("type", Json::str("ephemeral"));
    Json::Object(m)
}

impl<'a> CompletionRequest<'a> {
    /// The system prompt: the agent's own, and what is appended to it.
    pub fn full_system(&self) -> (r: String)
        ensures
            r@ == whole_system(self@.system, self@.system_suffix),
    {
        let mut s = self.agent.system.clone();
        if !self.system_suffix.is_empty() {
            if !s.as_str().is_empty() {
                s.append("\n\n");
            }
            s.append(self.system_suffix);
        }
        assert(s@ =~= whole_system(self@.system, self@.system_suffix));
        s
    }

    fn bare(&self, messages: Vec<Json>) -> (r: Members)
        ensures
            Json::Object(r)@ == JsonView::Object(bare_body(self@, views(messages@))),
    {
        let mut m = Members::new();
        m.put("model", Json::str(self.agent.model.as_str()));
        m.put("max_tokens", Json::num(self.agent.max_tokens as u64));
        m.put(
            "temperature",
            match &self.agent.temperature {
                Some(n) => Json::Number(n.copy()),
                None => Json::Null,
            },
        );
        m.put("messages", Json::array(messages));
        m
    }

    /// The messages of the conversation, as they are.
    pub fn plain_messages(&self) -> (r: Vec<Json>)
        ensures
            views(r@) == plain_messages(self@.messages),
    {
        let list = &self.conversation.messages;
        let mut out: Vec<Json> = Vec::new();
        let mut i: usize = 0;
        while i < list.len()
            invariant
                i <= list@.len(),
                out@.len() == i,
                forall|k: int|
                    0 <= k < i ==> (#[trigger] out@[k])@ == chat_message(list@[k].role@, list@[k].content@),
            decreases list.len() - i,
        {
            out.push(message_json(list[i].role.as_str(), list[i].content.copy()));
            i = i + 1;
        }
        assert(views(out@) =~= plain_messages(self@.messages));
        out
    }

    /// The body that is posted to Anthropic Messages. The system prompt and the
    /// tool list are identical on every step of a run, which is the shape that
    /// prompt caching rewards.
    pub fn to_anthropic(&self) -> (r: Json)
        ensures
            r@ == anthropic_body(self@),
    {
        let mut body = self.bare(self.plain_messages());
        let system = self.full_system();
        if !system.as_str().is_empty() {
            let mut block = Members::new();
            block.put("type", Json::str("text"));
            block.put("text", Json::str(system.as_str()));
            if self.agent.cache {
                block.put("cache_control", ephemeral_json());
            }
            let mut blocks: Vec<Json> = Vec::new();
            blocks.push(Json::Object(block));
            assert(views(blocks@) =~= seq![system_block(system@, self@.cache)]);
            body.put("system", Json::array(blocks));
        }
        if self.tools.len() > 0 {
            let mut tools: Vec<Json> = Vec::new();
            let n: usize = self.tools.len();
            let mut i: usize = 0;
            while i < n
                invariant
                    i <= n == self.tools@.len(),
                    tools@.len() == i,
                    forall|k: int|
                        0 <= k < i ==> (#[trigger] tools@[k])@ == anthropic_tool(
                            self.tools@[k]@,
                            self@.cache && k + 1 == n,
                        ),
                decreases n - i,
            {
                let t = &self.tools[i];
                let mut m = Members::new();
                m.put("name", Json::str(t.name.as_str()));
                m.put("description", Json::str(t.description.as_str()));
                m.put("input_schema", t.input_schema.copy());
                if self.agent.cache && i + 1 == n {
                    m.put("cache_control", ephemeral_json());
                }
                tools.push(Json::Object(m));
                i = i + 1;
            }
            assert(views(tools@) =~= anthropic_tools(self@.tools, self@.cache));
            body.put("tools", Json::array(tools));
            if let Some(name) = self.force_tool {
                let mut m = Members::new();
                m.put("type", Json::str("tool"));
                m.put("name", Json::str(name));
                body.put("tool_choice", Json::Object(m));
            }
        }
        Json::Object(body)
    }

    fn flat(&self) -> (r: Vec<Json>)
        ensures
            views(r@) == (if whole_system(self@.system, self@.system_suffix).len() == 0 {
                Seq::empty()
            } else {
                seq![
                    chat_message("system"@, JsonView::Str(whole_system(self@.system, self@.system_suffix))),
                ]
            }) + flat_messages(self@.messages),
    {
        let mut out: Vec<Json> = Vec::new();
        let system = self.full_system();
        let ghost start: Seq<JsonView> = if system@.len() == 0 {
            Seq::empty()
        } else {
            seq![chat_message("system"@, JsonView::Str(system@))]
        };
        if !system.as_str().is_empty() {
            out.push(message_json("system", Json::Str(system)));
        }
        assert(views(out@) =~= start);
        let ghost all = self@.messages;
        let list = &self.conversation.messages;
        let mut i: usize = 0;
        assert(start =~= start + flat_messages(all.take(0)));
        while i < list.len()
            invariant
                i <= list@.len(),
                all == message_views(list@),
                views(out@) == start + flat_messages(all.take(i as int)),
            decreases list.len() - i,
        {
            let mut more = to_openai_messages(list[i].role.as_str(), &list[i].content);
            proof {
                assert(all.take(i + 1).drop_last() =~= all.take(i as int));
                assert(views(out@ + more@) =~= views(out@) + views(more@));
                assert(start + flat_messages(all.take(i as int)) + views(more@) =~= start + (flat_messages(
                    all.take(i as int),
                ) + views(more@)));
            }
            out.append(&mut more);
            i = i + 1;
        }
        assert(all.take(all.len() as int) =~= all);
        out
    }

    /// The body that is posted to Chat Completions.
    pub fn to_openai(&self) -> (r: Json)
        ensures
            r@ == openai_body(self@),
    {
        let mut body = self.bare(self.flat());
        if self.tools.len() > 0 {
            let mut tools: Vec<Json> = Vec::new();
            let mut i: usize = 0;
            while i < self.tools.len()
                invariant
                    i <= self.tools@.len(),
                    tools@.len() == i,
                    forall|k: int| 0 <= k < i ==> (#[trigger] tools@[k])@ == openai_tool(self.tools@[k]@),
                decreases self.tools.len() - i,
            {
                let t = &self.tools[i];
                let mut f = Members::new();
                f.put("name", Json::str(t.name.as_str()));
                f.put("description", Json::str(t.description.as_str()));
                f.put("parameters", t.input_schema.copy());
                let mut m = Members::new();
                m.put("type", Json::str("function"));
                m.put("function", Json::Object(f));
                tools.push(Json::Object(m));
                i = i + 1;
            }
            assert(views(tools@) =~= self@.tools.map_values(|t: ToolSpecView| openai_tool(t)));
            body.put("tools", Json::array(tools));
            if let Some(name) = self.force_tool {
                let mut f = Members::new();
                f.put("name", Json::str(name));
                let mut m = Members::new();
                m.put("type", Json::str("function"));
                m.put("function", Json::Object(f));
                body.put("tool_choice", Json::Object(m));
            }
        }
        Json::Object(body)
    }
}

/// A request to post: where to, under which headers, and what.
#[derive(Debug)]
pub struct HttpCall {
    pub url: String,
    pub headers: Vec<(String, String)>,
    pub body: Json,
    /// How long the answer may take.
    pub timeout_secs: u64,
}

/// A base address without the slashes that end it.
pub open spec fn base_of(url: Seq<char>) -> Seq<char> {
    crate::text::trim_end_by(url, crate::text::only('/'))
}

/// The value of a name in an environment.
pub open spec fn env_text(env: Map<Seq<char>, String>, name: Seq<char>) -> Option<Seq<char>> {
    if env.contains_key(name) {
        Some(env[name]@)
    } else {
        None
    }
}

/// The value of a name in an environment, where it is there and not empty.
pub open spec fn env_key(env: Map<Seq<char>, String>, name: Seq<char>) -> Option<Seq<char>> {
    match env_text(env, name) {
        Some(v) => if v.len() == 0 {
            None
        } else {
            Some(v)
        },
        None => None,
    }
}

/// The value of a name in an environment, where it is there and not empty.
pub fn key_in(env: &Table<String>, name: &str) -> (r: Option<String>)
    ensures
        crate::run::maybe_text(r) == env_key(env@, name@),
{
    match env.get(name) {
        Some(v) => if v.as_str().is_empty() {
            None
        } else {
            Some(v.clone())
        },
        None => None,
    }
}

/// Whether a status says that a request succeeded.
pub open spec fn is_success(status: u16) -> bool {
    200 <= status < 300
}

/// The detail that Anthropic gives of an error.
pub open spec fn anthropic_detail(payload: JsonView) -> Seq<char> {
    match member(payload, "error"@) {
        Some(e) => match member_text(e, "message"@) {
            Some(t) => t,
            None => "no detail"@,
        },
        None => "no detail"@,
    }
}

/// The detail that a chat server gives of an error: its message, or the whole of
/// it.
pub open spec fn openai_detail(payload: JsonView) -> Seq<char> {
    match member(payload, "error"@) {
        Some(e) => match member(e, "message"@) {
            Some(m) => as_text(m),
            None => as_text(e),
        },
        None => "no detail"@,
    }
}

/// Anthropic Messages, at an address and with a key.
#[derive(Debug)]
pub struct AnthropicProvider {
    pub api_key: String,
    pub base_url: String,
    pub version: String,
}

impl AnthropicProvider {
    /// Build from the environment. Returns `None` when no key is configured, so
    /// an app with declared-but-unused agents still boots.
    pub fn from_env(env: &Table<String>) -> (r: Option<AnthropicProvider>)
        ensures
            match env_key(env@, "ANTHROPIC_API_KEY"@) {
                Some(key) => r matches Some(p) && p.api_key@ == key && p.base_url@ == (match env_text(
                    env@,
                    "ANTHROPIC_BASE_URL"@,
                ) {
                    Some(url) => url,
                    None => "https://api.anthropic.com"@,
                }) && p.version@ == "2023-06-01"@,
                None => r is None,
            },
    {
        let key = match key_in(env, "ANTHROPIC_API_KEY") {
            Some(k) => k,
            None => {
                return None;
            },
        };
        let url = match env.get("ANTHROPIC_BASE_URL") {
            Some(u) => u.clone(),
            None => "https://api.anthropic.com".to_owned(),
        };
        Some(AnthropicProvider::new(key, url))
    }

    pub fn new(api_key: String, base_url: String) -> (r: AnthropicProvider)
        ensures
            r.api_key@ == api_key@,
            r.base_url@ == base_url@,
            r.version@ == "2023-06-01"@,
    {
        AnthropicProvider { api_key, base_url, version: "2023-06-01".to_owned() }
    }

    pub fn name(&self) -> (r: &'static str)
        ensures
            r@ == "anthropic"@,
    {
        "anthropic"
    }

    /// What to post for a request.
    pub fn request(&self, req: &CompletionRequest) -> (r: HttpCall)
        ensures
            r.url@ == base_of(self.base_url@) + "/v1/messages"@,
            header_texts(r.headers@) == seq![
                ("x-api-key"@, self.api_key@),
                ("anthropic-version"@, self.version@),
                ("content-type"@, "application/json"@),
            ],
            r.body@ == anthropic_body(req@),
            r.timeout_secs == 300,
    {
        let url = cat2(crate::text::trim_end_char(self.base_url.as_str(), '/').as_str(), "/v1/messages");
        let mut headers = one_header("x-api-key", self.api_key.as_str());
        add_header(&mut headers, "anthropic-version", self.version.as_str());
        add_header(&mut headers, "content-type", "application/json");
        assert(header_texts(headers@) =~= seq![
            ("x-api-key"@, self.api_key@),
            ("anthropic-version"@, self.version@),
            ("content-type"@, "application/json"@),
        ]);
        HttpCall { url, headers, body: req.to_anthropic(), timeout_secs: 300 }
    }

    /// What an answer means: its status as a number and as text, and its body.
    pub fn settle(&self, status: u16, status_text: &str, payload: &Json, model: &str) -> (r: Result<
        ProviderResponse,
        String,
    >)
        ensures
            if !is_success(status) {
                r matches Err(e) && e@ == "anthropic "@ + status_text@ + ": "@ + anthropic_detail(payload@)
            } else {
                match (r, member_array(payload@, "content"@)) {
                    (Ok(p), Some(content)) => p@ == anthropic_reply(payload@, content, model@),
                    (Err(e), None) => e@ == "anthropic response had no content array"@,
                    _ => false,
                }
            },
    {
        if status < 200 || status >= 300 {
            let detail = match payload.get("error") {
                Some(e) => match e.get_str("message") {
                    Some(t) => t,
                    None => "no detail",
                },
                None => "no detail",
            };
            return Err(crate::text::cat4("anthropic ", status_text, ": ", detail));
        }
        parse_anthropic(payload, model)
    }
}

/// Chat Completions, as Ollama, vLLM, LM Studio, OpenAI, Groq and OpenRouter speak
/// it.
#[derive(Debug)]
pub struct OpenAiCompatProvider {
    pub api_key: Option<String>,
    pub base_url: String,
    pub label: String,
}

fn printed(j: &Json) -> (r: String)
    ensures
        r@ == as_text(j@),
{
    match j {
        Json::Str(s) => s.clone(),
        other => other.to_text(),
    }
}

impl OpenAiCompatProvider {
    pub fn new(base_url: String, api_key: Option<String>, label: &str) -> (r: OpenAiCompatProvider)
        ensures
            r.base_url@ == base_url@,
            crate::run::maybe_text(r.api_key) == crate::run::maybe_text(api_key),
            r.label@ == label@,
    {
        OpenAiCompatProvider { api_key, base_url, label: label.to_owned() }
    }

    pub fn name(&self) -> (r: &str)
        ensures
            r@ == self.label@,
    {
        self.label.as_str()
    }

    /// What to post for a request.
    pub fn request(&self, req: &CompletionRequest) -> (r: HttpCall)
        ensures
            r.url@ == base_of(self.base_url@) + "/chat/completions"@,
            header_texts(r.headers@) == (match self.api_key {
                Some(key) => seq![
                    ("content-type"@, "application/json"@),
                    ("authorization"@, "Bearer "@ + key@),
                ],
                None => seq![("content-type"@, "application/json"@)],
            }),
            r.body@ == openai_body(req@),
            r.timeout_secs == 600,
    {
        let url = cat2(crate::text::trim_end_char(self.base_url.as_str(), '/').as_str(), "/chat/completions");
        let mut headers = one_header("content-type", "application/json");
        if let Some(key) = &self.api_key {
            add_header(&mut headers, "authorization", cat2("Bearer ", key.as_str()).as_str());
            assert(header_texts(headers@) =~= seq![
                ("content-type"@, "application/json"@),
                ("authorization"@, "Bearer "@ + key@),
            ]);
        }
        HttpCall { url, headers, body: req.to_openai(), timeout_secs: 600 }
    }

    /// What an answer means: its status as a number and as text, and its body.
    pub fn settle(&self, status: u16, status_text: &str, payload: &Json, model: &str) -> (r: Result<
        ProviderResponse,
        String,
    >)
        ensures
            if !is_success(status) {
                r matches Err(e) && e@ == self.label@ + " "@ + status_text@ + ": "@ + openai_detail(payload@)
            } else {
                match (r, chat_choice(payload@)) {
                    (Ok(p), Ok(c)) => p@ == openai_reply(payload@, c.0, c.1, model@),
                    (Err(e), Err(f)) => e@ == f,
                    _ => false,
                }
            },
    {
        if status < 200 || status >= 300 {
            let detail = match payload.get("error") {
                Some(e) => match e.get("message") {
                    Some(m) => printed(m),
                    None => printed(e),
                },
                None => "no detail".to_owned(),
            };
            return Err(crate::text::cat5(self.label.as_str(), " ", status_text, ": ", detail.as_str()));
        }
        parse_openai(payload, model)
    }
}

/// Whether a message on the wire has a role and a content.
pub open spec fn is_message(j: JsonView, role: Seq<char>, content: JsonView) -> bool {
    member(j, "role"@) == Some(JsonView::Str(role)) && member(j, "content"@) == Some(content)
}

proof fn lemma_chat_message(role: Seq<char>, content: JsonView)
    ensures
        is_message(chat_message(role, content), role, content),
{
    reveal_strlit("role");
    reveal_strlit("content");
    assert("role"@.len() == 4);
    assert("content"@.len() == 7);
}

/// Whether a request's settings stand in a body: the model, the ceiling and the
/// temperature.
pub open spec fn is_set_as_asked(body: JsonView, r: RequestView) -> bool {
    &&& member(body, "model"@) == Some(JsonView::Str(r.model))
    &&& member(body, "max_tokens"@) == Some(JsonView::Number(NumberView::Int(r.max_tokens as int)))
    &&& r.temperature matches Some(n) ==> member(body, "temperature"@) == Some(JsonView::Number(n))
    &&& r.temperature is None ==> member(body, "temperature"@) == Some(JsonView::Null)
}

/// What is told to a model besides the conversation holds the agent's own prompt, then what
/// is appended to it, and nothing is lost of either.
pub proof fn law_a_prompt_holds_both_its_parts(system: Seq<char>, suffix: Seq<char>)
    ensures
        system.is_prefix_of(whole_system(system, suffix)),
        suffix.is_suffix_of(whole_system(system, suffix)),
        whole_system(system, suffix).len() >= system.len() + suffix.len(),
        suffix.len() == 0 ==> whole_system(system, suffix) == system,
        system.len() == 0 ==> whole_system(system, suffix) == suffix,
        whole_system(system, suffix).len() == 0 <==> system.len() == 0 && suffix.len() == 0,
{
    reveal_strlit("\n\n");
    let w = whole_system(system, suffix);
    assert(w.subrange(0, system.len() as int) =~= system);
    assert(w.subrange(w.len() - suffix.len(), w.len() as int) =~= suffix);
    if system.len() == 0 && suffix.len() == 0 {
        assert(w =~= suffix);
    }
}

/// A body for Anthropic Messages says all that is asked: the settings; every message, in
/// order, as it stands; the whole prompt in one block of text, which is marked for caching
/// exactly if that is asked; every tool, in order, with its name, its description and what
/// it takes, the last alone being marked; and the one that must be used.
pub proof fn law_a_messages_body_says_all_that_is_asked(r: RequestView)
    ensures
        ({
            let body = anthropic_body(r);
            &&& is_set_as_asked(body, r)
            &&& member_array(body, "messages"@) matches Some(list)
            &&& list.len() == r.messages.len()
            &&& forall|i: int|
                0 <= i < list.len() ==> is_message(#[trigger] list[i], r.messages[i].role, r.messages[i].content)
        }),
        r.system.len() == 0 && r.system_suffix.len() == 0 ==> member(anthropic_body(r), "system"@) is None,
        r.system.len() > 0 || r.system_suffix.len() > 0 ==> ({
            &&& member_array(anthropic_body(r), "system"@) matches Some(blocks)
            &&& blocks.len() == 1
            &&& member(blocks[0], "type"@) == Some(JsonView::Str("text"@))
            &&& member_text(blocks[0], "text"@) matches Some(text)
            &&& r.system.is_prefix_of(text)
            &&& r.system_suffix.is_suffix_of(text)
            &&& text.len() >= r.system.len() + r.system_suffix.len()
            &&& member(blocks[0], "cache_control"@) is Some <==> r.cache
        }),
        r.tools.len() == 0 ==> member(anthropic_body(r), "tools"@) is None && member(anthropic_body(r), "tool_choice"@)
            is None,
        r.tools.len() > 0 ==> ({
            &&& member_array(anthropic_body(r), "tools"@) matches Some(list)
            &&& list.len() == r.tools.len()
            &&& forall|i: int|
                0 <= i < list.len() ==> member(#[trigger] list[i], "name"@) == Some(JsonView::Str(r.tools[i].name))
                    && member(list[i], "description"@) == Some(JsonView::Str(r.tools[i].description)) && member(
                    list[i],
                    "input_schema"@,
                ) == Some(r.tools[i].input_schema) && (member(list[i], "cache_control"@) is Some <==> r.cache && i
                    == list.len() - 1)
            &&& r.force_tool is None ==> member(anthropic_body(r), "tool_choice"@) is None
            &&& r.force_tool matches Some(name) ==> (member(anthropic_body(r), "tool_choice"@) matches Some(c) && member(
                c,
                "type"@,
            ) == Some(JsonView::Str("tool"@)) && member(c, "name"@) == Some(JsonView::Str(name)))
        }),
{
    reveal_strlit("model");
    reveal_strlit("max_tokens");
    reveal_strlit("temperature");
    reveal_strlit("messages");
    reveal_strlit("system");
    reveal_strlit("tools");
    reveal_strlit("tool_choice");
    assert("model"@.len() == 5);
    assert("max_tokens"@.len() == 10);
    assert("temperature"@.len() == 11);
    assert("messages"@.len() == 8);
    assert("system"@.len() == 6);
    assert("tools"@.len() == 5);
    assert("tool_choice"@.len() == 11);
    assert("model"@[0] != "tools"@[0]);
    assert("temperature"@[1] != "tool_choice"@[1]);
    reveal_strlit("type");
    reveal_strlit("text");
    reveal_strlit("cache_control");
    reveal_strlit("name");
    reveal_strlit("description");
    reveal_strlit("input_schema");
    assert("type"@.len() == 4);
    assert("text"@.len() == 4);
    assert("cache_control"@.len() == 13);
    assert("name"@.len() == 4);
    assert("description"@.len() == 11);
    assert("input_schema"@.len() == 12);
    assert("type"@[1] != "text"@[1]);
    assert("type"@[0] != "name"@[0]);
    assert("text"@[0] != "name"@[0]);
    law_a_prompt_holds_both_its_parts(r.system, r.system_suffix);
    let body = anthropic_body(r);
    let list = member_array(body, "messages"@)->0;
    assert forall|i: int| 0 <= i < list.len() implies is_message(
        #[trigger] list[i],
        r.messages[i].role,
        r.messages[i].content,
    ) by {
        lemma_chat_message(r.messages[i].role, r.messages[i].content);
    }
}

/// A body for Chat Completions says all that is asked: the settings; the whole prompt as
/// the first message, where there is one, and what each message becomes behind it, in
/// order; every tool, in order, with its name, its description and what it takes; and the
/// one that must be used.
pub proof fn law_a_chat_body_says_all_that_is_asked(r: RequestView)
    ensures
        ({
            let body = openai_body(r);
            let prompted = r.system.len() > 0 || r.system_suffix.len() > 0;
            &&& is_set_as_asked(body, r)
            &&& member_array(body, "messages"@) matches Some(list)
            &&& !prompted ==> list == flat_messages(r.messages)
            &&& prompted ==> list.len() > 0 && list.skip(1) == flat_messages(r.messages) && member(list[0], "role"@)
                == Some(JsonView::Str("system"@)) && (member_text(list[0], "content"@) matches Some(text)
                && r.system.is_prefix_of(text) && r.system_suffix.is_suffix_of(text) && text.len() >= r.system.len()
                + r.system_suffix.len())
        }),
        r.tools.len() == 0 ==> member(openai_body(r), "tools"@) is None && member(openai_body(r), "tool_choice"@)
            is None,
        r.tools.len() > 0 ==> ({
            &&& member_array(openai_body(r), "tools"@) matches Some(list)
            &&& list.len() == r.tools.len()
            &&& forall|i: int|
                0 <= i < list.len() ==> member(#[trigger] list[i], "type"@) == Some(JsonView::Str("function"@)) && (
                member(list[i], "function"@) matches Some(f) && member(f, "name"@) == Some(
                    JsonView::Str(r.tools[i].name),
                ) && member(f, "description"@) == Some(JsonView::Str(r.tools[i].description)) && member(
                    f,
                    "parameters"@,
                ) == Some(r.tools[i].input_schema))
            &&& r.force_tool is None ==> member(openai_body(r), "tool_choice"@) is None
            &&& r.force_tool matches Some(name) ==> (member(openai_body(r), "tool_choice"@) matches Some(c) && member(
                c,
                "type"@,
            ) == Some(JsonView::Str("function"@)) && (member(c, "function"@) matches Some(f) && member(f, "name"@)
                == Some(JsonView::Str(name))))
        }),
{
    reveal_strlit("model");
    reveal_strlit("max_tokens");
    reveal_strlit("temperature");
    reveal_strlit("messages");
    reveal_strlit("system");
    reveal_strlit("tools");
    reveal_strlit("tool_choice");
    assert("model"@.len() == 5);
    assert("max_tokens"@.len() == 10);
    assert("temperature"@.len() == 11);
    assert("messages"@.len() == 8);
    assert("system"@.len() == 6);
    assert("tools"@.len() == 5);
    assert("tool_choice"@.len() == 11);
    assert("model"@[0] != "tools"@[0]);
    assert("temperature"@[1] != "tool_choice"@[1]);
    reveal_strlit("type");
    reveal_strlit("function");
    reveal_strlit("name");
    reveal_strlit("description");
    reveal_strlit("parameters");
    reveal_strlit("role");
    reveal_strlit("content");
    assert("type"@.len() == 4);
    assert("function"@.len() == 8);
    assert("name"@.len() == 4);
    assert("description"@.len() == 11);
    assert("parameters"@.len() == 10);
    assert("role"@.len() == 4);
    assert("content"@.len() == 7);
    assert("type"@[0] != "name"@[0]);
    assert("type"@[0] != "role"@[0]);
    assert("name"@[0] != "role"@[0]);
    law_a_prompt_holds_both_its_parts(r.system, r.system_suffix);
    let list = member_array(openai_body(r), "messages"@)->0;
    let flat = flat_messages(r.messages);
    if r.system.len() > 0 || r.system_suffix.len() > 0 {
        assert(list.skip(1) =~= flat);
    } else {
        assert(list =~= flat);
    }
}

/// A conversation becomes what its messages become, one behind the other: appending a
/// message appends what it becomes, and what stood there before stays.
pub proof fn law_messages_become_chat_messages_in_order(messages: Seq<MessageView>, role: Seq<char>, content: JsonView)
    ensures
        flat_messages(Seq::empty()).len() == 0,
        flat_messages(messages.push(MessageView { role, content })) == flat_messages(messages) + openai_messages(
            role,
            content,
        ),
        content matches JsonView::Str(s) ==> openai_messages(role, content).len() == 1 && is_message(
            openai_messages(role, content)[0],
            role,
            JsonView::Str(s),
        ),
{
    let all = messages.push(MessageView { role, content });
    assert(all.drop_last() =~= messages);
    if let JsonView::Str(s) = content {
        lemma_chat_message(role, JsonView::Str(s));
    }
}

proof fn lemma_tool_messages(blocks: Seq<JsonView>)
    requires
        forall|i: int| 0 <= i < blocks.len() ==> is_block(#[trigger] blocks[i], "tool_result"@),
    ensures
        tool_messages(blocks).len() == blocks.len(),
        forall|i: int| 0 <= i < blocks.len() ==> #[trigger] tool_messages(blocks)[i] == tool_message(blocks[i]),
        blocks_text(blocks).len() == 0,
    decreases blocks.len(),
{
    reveal_strlit("text");
    reveal_strlit("tool_result");
    if blocks.len() > 0 {
        let rest = blocks.drop_last();
        assert forall|i: int| 0 <= i < rest.len() implies is_block(#[trigger] rest[i], "tool_result"@) by {
            assert(rest[i] == blocks[i]);
        }
        lemma_tool_messages(rest);
        assert(is_block(blocks[blocks.len() - 1], "tool_result"@));
        assert("text"@.len() == 4 && "tool_result"@.len() == 11);
        assert forall|i: int| 0 <= i < blocks.len() implies #[trigger] tool_messages(blocks)[i] == tool_message(
            blocks[i],
        ) by {
            if i < rest.len() {
                assert(tool_messages(rest)[i] == tool_message(rest[i]));
            }
        }
    }
}

/// The results of a turn reach a chat model one message each, in order: each message is of
/// a tool, says by its id which call it answers, and holds what the result holds.
pub proof fn law_results_become_tool_messages(blocks: Seq<JsonView>)
    requires
        forall|i: int|
            0 <= i < blocks.len() ==> member(#[trigger] blocks[i], "type"@) == Some(JsonView::Str("tool_result"@)),
    ensures
        ({
            let out = openai_messages("user"@, JsonView::Array(blocks));
            &&& out.len() == blocks.len()
            &&& forall|i: int|
                0 <= i < out.len() ==> member(#[trigger] out[i], "role"@) == Some(JsonView::Str("tool"@)) && (member(
                    blocks[i],
                    "tool_use_id"@,
                ) matches Some(id) ==> member(out[i], "tool_call_id"@) == Some(id)) && (member(blocks[i], "content"@)
                    matches Some(JsonView::Str(t)) ==> member(out[i], "content"@) == Some(JsonView::Str(t)))
        }),
{
    reveal_strlit("role");
    reveal_strlit("tool_call_id");
    reveal_strlit("content");
    assert("role"@.len() == 4);
    assert("tool_call_id"@.len() == 12);
    assert("content"@.len() == 7);
    assert forall|i: int| 0 <= i < blocks.len() implies is_block(#[trigger] blocks[i], "tool_result"@) by {
        assert(member(blocks[i], "type"@) == Some(JsonView::Str("tool_result"@)));
    }
    lemma_tool_messages(blocks);
    let out = openai_messages("user"@, JsonView::Array(blocks));
    assert(out == tool_messages(blocks));
    assert forall|i: int| 0 <= i < out.len() implies member(#[trigger] out[i], "role"@) == Some(JsonView::Str("tool"@))
        && (member(blocks[i], "tool_use_id"@) matches Some(id) ==> member(out[i], "tool_call_id"@) == Some(id)) && (
    member(blocks[i], "content"@) matches Some(JsonView::Str(t)) ==> member(out[i], "content"@) == Some(
        JsonView::Str(t),
    )) by {
        assert(out[i] == tool_message(blocks[i]));
    }
}

proof fn lemma_use_block(c: CallView)
    ensures
        is_block(use_block(c), "tool_use"@),
        !is_block(use_block(c), "text"@),
        block_call(use_block(c)) == c,
        member(use_block(c), "id"@) == Some(JsonView::Str(c.id)),
        member(use_block(c), "name"@) == Some(JsonView::Str(c.name)),
        member(use_block(c), "input"@) == Some(c.arguments),
{
    reveal_strlit("type");
    reveal_strlit("id");
    reveal_strlit("name");
    reveal_strlit("input");
    assert("type"@.len() == 4);
    assert("id"@.len() == 2);
    assert("name"@.len() == 4);
    assert("input"@.len() == 5);
    assert("type"@[0] != "name"@[0]);
    reveal_strlit("text");
    reveal_strlit("tool_use");
    assert("text"@.len() == 4 && "tool_use"@.len() == 8);
}

proof fn lemma_text_block(text: Seq<char>)
    ensures
        is_block(text_block(text), "text"@),
        !is_block(text_block(text), "tool_use"@),
        member_text(text_block(text), "text"@) == Some(text),
{
    reveal_strlit("type");
    reveal_strlit("text");
    assert("type"@.len() == 4);
    assert("text"@.len() == 4);
    assert("type"@[1] != "text"@[1]);
    reveal_strlit("tool_use");
    assert("tool_use"@.len() == 8);
}

proof fn lemma_uses(start: Seq<JsonView>, calls: Seq<CallView>)
    ensures
        blocks_calls(start + calls.map_values(|c: CallView| use_block(c))) == blocks_calls(start) + calls,
        blocks_text(start + calls.map_values(|c: CallView| use_block(c))) == blocks_text(start),
        function_calls(start + calls.map_values(|c: CallView| use_block(c))) == function_calls(start)
            + calls.map_values(|c: CallView| function_call(use_block(c))),
    decreases calls.len(),
{
    let uses = calls.map_values(|c: CallView| use_block(c));
    if calls.len() == 0 {
        assert(start + uses =~= start);
        assert(blocks_calls(start) + calls =~= blocks_calls(start));
        assert(function_calls(start) + calls.map_values(|c: CallView| function_call(use_block(c))) =~= function_calls(
            start,
        ));
    } else {
        let rest = calls.drop_last();
        let before = rest.map_values(|c: CallView| use_block(c));
        lemma_uses(start, rest);
        lemma_use_block(calls.last());
        assert((start + uses).drop_last() =~= start + before);
        assert((start + uses).last() == use_block(calls.last()));
        assert((blocks_calls(start) + rest).push(calls.last()) =~= blocks_calls(start) + calls);
        assert((function_calls(start) + rest.map_values(|c: CallView| function_call(use_block(c)))).push(
            function_call(use_block(calls.last())),
        ) =~= function_calls(start) + calls.map_values(|c: CallView| function_call(use_block(c))));
    }
}

proof fn lemma_canonical(text: Seq<char>, calls: Seq<CallView>)
    ensures
        blocks_text(canonical(text, calls)) == text,
        blocks_calls(canonical(text, calls)) == calls,
        function_calls(canonical(text, calls)) == calls.map_values(|c: CallView| function_call(use_block(c))),
{
    let none = Seq::<JsonView>::empty();
    let uses = calls.map_values(|c: CallView| use_block(c));
    if text.len() == 0 {
        lemma_uses(none, calls);
        assert(none + uses =~= uses);
        assert(blocks_calls(none) + calls =~= calls);
        assert(blocks_text(none) =~= text);
        assert(function_calls(none) + calls.map_values(|c: CallView| function_call(use_block(c))) =~= calls.map_values(
            |c: CallView| function_call(use_block(c)),
        ));
    } else {
        let start = seq![text_block(text)];
        lemma_text_block(text);
        assert(start.drop_last() =~= none);
        assert(start.last() == text_block(text));
        assert(blocks_text(none).len() == 0 && blocks_calls(none).len() == 0 && function_calls(none).len() == 0);
        assert(blocks_text(start) =~= text);
        assert(blocks_calls(start) =~= Seq::<CallView>::empty());
        assert(function_calls(start) =~= none);
        lemma_uses(start, calls);
        assert(blocks_calls(start) + calls =~= calls);
        assert(function_calls(start) + calls.map_values(|c: CallView| function_call(use_block(c))) =~= calls.map_values(
            |c: CallView| function_call(use_block(c)),
        ));
    }
}

/// What a model said and asked for is read back from the conversation as it was, by either
/// wire: the text, and each call with its id, its name and its arguments, in order.
pub proof fn law_a_turn_is_read_back_as_it_was_said(payload: JsonView, text: Seq<char>, calls: Seq<CallView>, model: Seq<char>)
    ensures
        anthropic_reply(payload, canonical(text, calls), model).text == text,
        anthropic_reply(payload, canonical(text, calls), model).tool_calls == calls,
        anthropic_reply(payload, canonical(text, calls), model).raw_content == JsonView::Array(canonical(text, calls)),
        ({
            let out = openai_messages("assistant"@, JsonView::Array(canonical(text, calls)));
            &&& out.len() == 1
            &&& member(out[0], "role"@) == Some(JsonView::Str("assistant"@))
            &&& text.len() > 0 ==> member(out[0], "content"@) == Some(JsonView::Str(text))
            &&& calls.len() == 0 ==> member(out[0], "tool_calls"@) is None
            &&& calls.len() > 0 ==> (member_array(out[0], "tool_calls"@) matches Some(list) && list.len() == calls.len()
                && forall|i: int|
                0 <= i < list.len() ==> member(#[trigger] list[i], "id"@) == Some(JsonView::Str(calls[i].id)) && member(
                    list[i],
                    "type"@,
                ) == Some(JsonView::Str("function"@)) && (member(list[i], "function"@) matches Some(f) && member(
                    f,
                    "name"@,
                ) == Some(JsonView::Str(calls[i].name)) && member(f, "arguments"@) == Some(
                    JsonView::Str(json_text(calls[i].arguments)),
                )))
        }),
{
    reveal_strlit("role");
    reveal_strlit("content");
    reveal_strlit("tool_calls");
    reveal_strlit("id");
    reveal_strlit("type");
    reveal_strlit("function");
    reveal_strlit("name");
    reveal_strlit("arguments");
    assert("role"@.len() == 4);
    assert("content"@.len() == 7);
    assert("tool_calls"@.len() == 10);
    assert("id"@.len() == 2);
    assert("type"@.len() == 4);
    assert("function"@.len() == 8);
    assert("name"@.len() == 4);
    assert("arguments"@.len() == 9);
    assert("role"@[0] != "type"@[0]);
    assert("role"@[0] != "name"@[0]);
    assert("type"@[0] != "name"@[0]);
    reveal_strlit("assistant");
    reveal_strlit("user");
    assert("assistant"@.len() == 9 && "user"@.len() == 4);
    lemma_canonical(text, calls);
    let out = openai_messages("assistant"@, JsonView::Array(canonical(text, calls)));
    let list = calls.map_values(|c: CallView| function_call(use_block(c)));
    assert forall|i: int| 0 <= i < list.len() implies member(#[trigger] list[i], "id"@) == Some(
        JsonView::Str(calls[i].id),
    ) && member(list[i], "type"@) == Some(JsonView::Str("function"@)) && (member(list[i], "function"@) matches Some(f)
        && member(f, "name"@) == Some(JsonView::Str(calls[i].name)) && member(f, "arguments"@) == Some(
        JsonView::Str(json_text(calls[i].arguments)),
    )) by {
        lemma_use_block(calls[i]);
    }
}

/// A count of a payload's usage.
pub open spec fn used(payload: JsonView, name: Seq<char>) -> Option<JsonView> {
    match member(payload, "usage"@) {
        Some(u) => member(u, name),
        None => None,
    }
}

/// A reply of Anthropic Messages is counted as it says: what was read, written, read from
/// the cache and written to it, each under its own name; what is not said is nothing. It is
/// the model's that the payload names, and ends as the payload says.
pub proof fn law_a_messages_reply_is_counted_as_it_says(
    payload: JsonView,
    content: Seq<JsonView>,
    model: Seq<char>,
    n: u64,
)
    ensures
        ({
            let r = anthropic_reply(payload, content, model);
            let said = JsonView::Number(NumberView::Int(n as int));
            &&& used(payload, "input_tokens"@) == Some(said) ==> r.input_tokens == n
            &&& used(payload, "output_tokens"@) == Some(said) ==> r.output_tokens == n
            &&& used(payload, "cache_read_input_tokens"@) == Some(said) ==> r.cache_read_tokens == n
            &&& used(payload, "cache_creation_input_tokens"@) == Some(said) ==> r.cache_write_tokens == n
            &&& member(payload, "usage"@) is None ==> r.input_tokens == 0 && r.output_tokens == 0 && r.cache_read_tokens
                == 0 && r.cache_write_tokens == 0
            &&& member(payload, "model"@) matches Some(JsonView::Str(m)) ==> r.model == m
            &&& member(payload, "model"@) is None ==> r.model == model
            &&& member(payload, "stop_reason"@) == Some(JsonView::Str("tool_use"@)) ==> r.stop_reason
                == StopReason::ToolUse
            &&& member(payload, "stop_reason"@) == Some(JsonView::Str("end_turn"@)) ==> r.stop_reason
                == StopReason::EndTurn
            &&& member(payload, "stop_reason"@) == Some(JsonView::Str("stop_sequence"@)) ==> r.stop_reason
                == StopReason::EndTurn
            &&& member(payload, "stop_reason"@) == Some(JsonView::Str("max_tokens"@)) ==> r.stop_reason
                == StopReason::MaxTokens
        }),
{
    reveal_strlit("tool_use");
    reveal_strlit("end_turn");
    reveal_strlit("stop_sequence");
    reveal_strlit("max_tokens");
    assert("tool_use"@.len() == 8);
    assert("end_turn"@.len() == 8);
    assert("stop_sequence"@.len() == 13);
    assert("max_tokens"@.len() == 10);
    assert("tool_use"@[0] != "end_turn"@[0]);
}

/// A reply of Chat Completions is read as it says: the text, each call with its id, its
/// name and its arguments decoded, in order; the counts under their own names; and why it
/// ended. It is kept in the same form as a reply of the other wire, from which the same
/// text and calls are read.
pub proof fn law_a_chat_reply_is_read_as_it_says(
    payload: JsonView,
    choice: JsonView,
    message: JsonView,
    model: Seq<char>,
    n: u64,
)
    ensures
        ({
            let r = openai_reply(payload, choice, message, model);
            let said = JsonView::Number(NumberView::Int(n as int));
            &&& member(message, "content"@) matches Some(JsonView::Str(t)) ==> r.text == t
            &&& member(message, "tool_calls"@) is None ==> r.tool_calls.len() == 0
            &&& member(message, "tool_calls"@) matches Some(JsonView::Array(list)) ==> (r.tool_calls.len() == list.len()
                && forall|i: int|
                0 <= i < list.len() ==> (member(list[i], "id"@) matches Some(JsonView::Str(id)) ==> (
                #[trigger] r.tool_calls[i]).id == id) && (member(list[i], "function"@) matches Some(f) ==> (member(
                    f,
                    "name"@,
                ) matches Some(JsonView::Str(name)) ==> r.tool_calls[i].name == name) && (member(f, "arguments"@)
                    matches Some(JsonView::Str(text)) ==> (json_parsed(text) matches Some(v) ==> r.tool_calls[i].arguments
                    == v)) && (member(f, "arguments"@) matches Some(JsonView::Object(m)) ==> r.tool_calls[i].arguments
                    == JsonView::Object(m))))
            &&& used(payload, "prompt_tokens"@) == Some(said) ==> r.input_tokens == n
            &&& used(payload, "completion_tokens"@) == Some(said) ==> r.output_tokens == n
            &&& member(payload, "usage"@) is None ==> r.input_tokens == 0 && r.output_tokens == 0 && r.cache_read_tokens
                == 0
            &&& (used(payload, "prompt_tokens_details"@) matches Some(d) && member(d, "cached_tokens"@) == Some(said))
                ==> r.cache_read_tokens == n
            &&& r.cache_write_tokens == 0
            &&& member(payload, "model"@) matches Some(JsonView::Str(m)) ==> r.model == m
            &&& member(payload, "model"@) is None ==> r.model == model
            &&& member(choice, "finish_reason"@) == Some(JsonView::Str("tool_calls"@)) ==> r.stop_reason
                == StopReason::ToolUse
            &&& member(choice, "finish_reason"@) == Some(JsonView::Str("function_call"@)) ==> r.stop_reason
                == StopReason::ToolUse
            &&& member(choice, "finish_reason"@) == Some(JsonView::Str("stop"@)) ==> r.stop_reason
                == StopReason::EndTurn
            &&& member(choice, "finish_reason"@) == Some(JsonView::Str("length"@)) ==> r.stop_reason
                == StopReason::MaxTokens
            &&& member(choice, "finish_reason"@) is None && r.tool_calls.len() > 0 ==> r.stop_reason
                == StopReason::ToolUse
            &&& r.raw_content matches JsonView::Array(blocks)
            &&& anthropic_reply(payload, blocks, model).text == r.text
            &&& anthropic_reply(payload, blocks, model).tool_calls == r.tool_calls
        }),
{
    reveal_strlit("tool_calls");
    reveal_strlit("function_call");
    reveal_strlit("stop");
    reveal_strlit("length");
    assert("tool_calls"@.len() == 10);
    assert("function_call"@.len() == 13);
    assert("stop"@.len() == 4);
    assert("length"@.len() == 6);
    lemma_canonical(message_text(message), chat_calls(message));
}

/// All tokens of a reply are counted, each once.
pub proof fn law_all_tokens_of_a_reply_count(r: ReplyView)
    requires
        r.input_tokens + r.output_tokens + r.cache_read_tokens + r.cache_write_tokens <= u64::MAX,
    ensures
        reply_tokens(r) == r.input_tokens + r.output_tokens + r.cache_read_tokens + r.cache_write_tokens,
{
}

/// What a chat server is sent of a call is what it would send for it: the same id and name,
/// and the arguments as text that stands for the same value.
pub proof fn law_a_call_is_written_as_it_is_read(c: CallView, i: int)
    ensures
        chat_call(function_call(use_block(c)), i).id == c.id,
        chat_call(function_call(use_block(c)), i).name == c.name,
        json_parsed(json_text(c.arguments)) matches Some(v) ==> chat_call(function_call(use_block(c)), i).arguments
            == v,
{
    reveal_strlit("id");
    reveal_strlit("type");
    reveal_strlit("function");
    reveal_strlit("name");
    reveal_strlit("arguments");
    assert("id"@.len() == 2);
    assert("type"@.len() == 4);
    assert("function"@.len() == 8);
    assert("name"@.len() == 4);
    assert("arguments"@.len() == 9);
    assert("type"@[0] != "name"@[0]);
    lemma_use_block(c);
}

proof fn lemma_closed_at(s: Seq<char>, i: int, depth: int, in_str: bool, escape: bool)
    requires
        0 <= i,
    ensures
        closed_at(s, i, depth, in_str, escape) matches Some(end) ==> i < end <= s.len() && s[end - 1] == '}',
    decreases s.len() - i,
{
    if i < s.len() {
        lemma_closed_at(s, i + 1, depth, true, false);
        lemma_closed_at(s, i + 1, depth, true, true);
        lemma_closed_at(s, i + 1, depth, false, false);
        lemma_closed_at(s, i + 1, depth + 1, false, false);
        lemma_closed_at(s, i + 1, depth - 1, false, false);
    }
}

proof fn lemma_first_brace(s: Seq<char>)
    ensures
        0 <= crate::text::first_at(s, '{') <= s.len(),
        crate::text::first_at(s, '{') < s.len() ==> s[crate::text::first_at(s, '{')] == '{',
    decreases s.len(),
{
    if s.len() > 0 && s[0] != '{' {
        lemma_first_brace(s.skip(1));
    }
}

/// Structured output is recovered from prose: a text that is an object or an array is that
/// value; what stands in a fence is read; and otherwise what is read starts and ends with a
/// brace.
pub proof fn law_structured_output_is_recovered(text: Seq<char>)
    ensures
        json_parsed(trimmed(text)) matches Some(JsonView::Object(m)) ==> recovered(text) == Some(JsonView::Object(m)),
        json_parsed(trimmed(text)) matches Some(JsonView::Array(a)) ==> recovered(text) == Some(JsonView::Array(a)),
        json_parsed(trimmed(text)) is None ==> (unfenced(trimmed(text)) matches Some(inner) ==> (json_parsed(inner)
            matches Some(v) ==> recovered(text) == Some(v))),
        json_parsed(trimmed(text)) is None && unfenced(trimmed(text)) is None ==> (recovered(text) matches Some(v)
            ==> exists|from: int, to: int|
            0 <= from < to <= trimmed(text).len() && trimmed(text)[from] == '{' && trimmed(text)[to - 1] == '}'
                && json_parsed(#[trigger] trimmed(text).subrange(from, to)) == Some(v)),
{
    let s = trimmed(text);
    lemma_first_brace(s);
    let start = crate::text::first_at(s, '{');
    if start < s.len() {
        lemma_closed_at(s, start, 0, false, false);
        if let Some(end) = closed_at(s, start, 0, false, false) {
            assert(s.subrange(start, end).len() == end - start);
        }
    }
}

/// What a fence holds is read without the fence.
pub proof fn law_a_fence_is_taken_off(inner: Seq<char>)
    requires
        !"json"@.is_prefix_of(inner),
    ensures
        unfenced("```json"@ + inner + "```"@) == Some(trimmed(inner)),
        unfenced("```"@ + inner + "```"@) == Some(trimmed(inner)),
        inner.len() > 0 && inner[0] != '`' ==> unfenced(inner) is None,
{
    reveal_strlit("```json");
    reveal_strlit("```");
    reveal_strlit("json");
    assert("```json"@.len() == 7);
    assert("```"@.len() == 3);
    assert("json"@.len() == 4);
    let mark = "```"@;
    let typed = "```json"@;
    assert(typed =~= mark + "json"@);
    let a = typed + inner + mark;
    assert(a.subrange(0, 7) =~= typed);
    let ra = a.skip(7);
    assert(ra =~= inner + mark);
    assert(ra.subrange(ra.len() - 3, ra.len() as int) =~= mark);
    assert(ra.take(ra.len() - 3) =~= inner);
    let b = mark + inner + mark;
    assert(b.subrange(0, 3) =~= mark);
    assert(b.skip(3) =~= inner + mark);
    assert(!typed.is_prefix_of(b)) by {
        if typed.is_prefix_of(b) {
            assert(b.subrange(0, 7) =~= typed);
            assert(b[3] == typed[3] && b[4] == typed[4] && b[5] == typed[5] && b[6] == typed[6]);
            assert(typed[3] == 'j' && typed[4] == 's' && typed[5] == 'o' && typed[6] == 'n');
            assert(mark[0] == '`');
            if inner.len() >= 4 {
                assert(inner[0] == 'j' && inner[1] == 's' && inner[2] == 'o' && inner[3] == 'n');
                assert(inner.subrange(0, 4) =~= "json"@);
            } else {
                assert(b[3 + inner.len() as int] == '`');
            }
        }
    }
    if inner.len() > 0 && inner[0] != '`' {
        assert(typed[0] == '`' && mark[0] == '`');
        if typed.is_prefix_of(inner) {
            assert(inner.subrange(0, 7)[0] == inner[0]);
        }
        if mark.is_prefix_of(inner) {
            assert(inner.subrange(0, 3)[0] == inner[0]);
        }
    }
}

/// The detail of an error is what the provider says of it; the first choice of a chat is the
/// one that is read.
pub proof fn law_a_providers_error_is_told(payload: JsonView, e: JsonView, said: Seq<char>, choices: Seq<JsonView>)
    ensures
        member(payload, "error"@) == Some(e) && member(e, "message"@) == Some(JsonView::Str(said)) ==> anthropic_detail(
            payload,
        ) == said && openai_detail(payload) == said,
        member(payload, "error"@) == Some(JsonView::Str(said)) ==> openai_detail(payload) == said,
        member(payload, "error"@) is None ==> anthropic_detail(payload) == "no detail"@ && openai_detail(payload)
            == "no detail"@,
        member(payload, "choices"@) == Some(JsonView::Array(choices)) && choices.len() > 0 && member(
            choices[0],
            "message"@,
        ) is Some ==> chat_choice(payload) == Ok::<(JsonView, JsonView), Seq<char>>(
            (choices[0], member(choices[0], "message"@)->0),
        ),
        member(payload, "choices"@) is None || member(payload, "choices"@) == Some(JsonView::Array(Seq::empty()))
            ==> chat_choice(payload) is Err,
        forall|status: u16| #[trigger] is_success(status) <==> 200 <= status <= 299,
{
}

} // verus!
