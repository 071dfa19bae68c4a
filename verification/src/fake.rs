//! Stand-ins for a model: a fixed script, and a tiny command language.

use crate::budget::saturating;
use crate::conversation::{MessageView, message_views, ToolSpecView};
use crate::json::{
    Json, JsonView, empty_object, json_first, json_parsed, json_text, member_text, Members, parse, parse_first, views,
};
use crate::provider::{
    CallView, CompletionRequest, ProviderResponse, ReplyView, RequestView, StopReason, ToolCall, call_views,
    canonical_content, lemma_call_push, plain_messages, text_block, text_to_block, use_block,
};
use crate::text::{
    after_prefix, behind, byte_len, cat2, cat3, cat4, cut_once, decimal, decimal_text, join, joined, last_chars,
    lemma_texts_push, same, split, split_on, split_once, strip_prefix, tail, text_behind, texts, trim, trimmed,
};
use vstd::prelude::*;

verus! {

/// A reply that says nothing of a cache.
pub open spec fn uncached(
    text: Seq<char>,
    tool_calls: Seq<CallView>,
    raw: Seq<JsonView>,
    stop_reason: StopReason,
    input_tokens: u64,
    output_tokens: u64,
    model: Seq<char>,
) -> ReplyView {
    ReplyView {
        text,
        tool_calls,
        stop_reason,
        input_tokens,
        output_tokens,
        cache_read_tokens: 0,
        cache_write_tokens: 0,
        model,
        raw_content: JsonView::Array(raw),
    }
}

/// A reply of text.
pub open spec fn text_reply(
    text: Seq<char>,
    stop_reason: StopReason,
    input_tokens: u64,
    output_tokens: u64,
    model: Seq<char>,
) -> ReplyView {
    uncached(text, Seq::empty(), seq![text_block(text)], stop_reason, input_tokens, output_tokens, model)
}

/// A reply that asks for calls.
pub open spec fn call_reply(calls: Seq<CallView>, input_tokens: u64, output_tokens: u64, model: Seq<char>) -> ReplyView {
    uncached(
        Seq::empty(),
        calls,
        calls.map_values(|c: CallView| use_block(c)),
        StopReason::ToolUse,
        input_tokens,
        output_tokens,
        model,
    )
}

fn reply_with_text(text: String, stop_reason: StopReason, input: u64, output: u64, model: &str) -> (r: ProviderResponse)
    ensures
        r@ == text_reply(text@, stop_reason, input, output, model@),
{
    let mut raw: Vec<Json> = Vec::new();
    raw.push(text_to_block(text.as_str()));
    assert(views(raw@) =~= seq![text_block(text@)]);
    let calls: Vec<ToolCall> = Vec::new();
    assert(call_views(calls@) =~= Seq::empty());
    ProviderResponse {
        text,
        tool_calls: calls,
        stop_reason,
        input_tokens: input,
        output_tokens: output,
        cache_read_tokens: 0,
        cache_write_tokens: 0,
        model: model.to_owned(),
        raw_content: Json::array(raw),
    }
}

fn reply_with_calls(calls: Vec<ToolCall>, input: u64, output: u64, model: &str) -> (r: ProviderResponse)
    ensures
        r@ == call_reply(call_views(calls@), input, output, model@),
{
    proof {
        reveal_strlit("");
    }
    let raw_content = canonical_content("", &calls);
    let text = String::new();
    assert(text@ =~= Seq::<char>::empty());
    ProviderResponse {
        text,
        tool_calls: calls,
        stop_reason: StopReason::ToolUse,
        input_tokens: input,
        output_tokens: output,
        cache_read_tokens: 0,
        cache_write_tokens: 0,
        model: model.to_owned(),
        raw_content,
    }
}

/// One turn of a script.
#[derive(Debug)]
pub enum Turn {
    Text(String),
    /// Text that the output limit cut short.
    Truncated(String),
    Tool { name: String, arguments: Json },
    Tools(Vec<(String, Json)>),
    Error(String),
}

/// What a [`Turn`] says.
#[verifier::ext_equal]
pub enum TurnView {
    Text(Seq<char>),
    Truncated(Seq<char>),
    Tool { name: Seq<char>, arguments: JsonView },
    Tools(Seq<(Seq<char>, JsonView)>),
    Error(Seq<char>),
}

/// What a list of named arguments says.
pub open spec fn named_views(list: Seq<(String, Json)>) -> Seq<(Seq<char>, JsonView)> {
    list.map_values(|p: (String, Json)| (p.0@, p.1@))
}

impl View for Turn {
    type V = TurnView;

    open spec fn view(&self) -> TurnView {
        match self {
            Turn::Text(s) => TurnView::Text(s@),
            Turn::Truncated(s) => TurnView::Truncated(s@),
            Turn::Tool { name, arguments } => TurnView::Tool { name: name@, arguments: arguments@ },
            Turn::Tools(list) => TurnView::Tools(named_views(list@)),
            Turn::Error(s) => TurnView::Error(s@),
        }
    }
}

/// What a script says.
pub open spec fn turn_views(list: Seq<Turn>) -> Seq<TurnView> {
    list.map_values(|t: Turn| t@)
}

/// What a scripted provider was asked, recorded for assertions.
#[derive(Debug)]
pub struct CompletionSnapshot {
    pub model: String,
    pub system: String,
    pub system_suffix: String,
    pub message_count: usize,
    pub tool_names: Vec<String>,
    pub force_tool: Option<String>,
    pub messages: Vec<Json>,
}

/// Whether a snapshot records a request.
pub open spec fn records(s: CompletionSnapshot, r: RequestView) -> bool {
    &&& s.model@ == r.model
    &&& s.system@ == r.system
    &&& s.system_suffix@ == r.system_suffix
    &&& s.message_count == r.messages.len()
    &&& texts(s.tool_names@) == r.tools.map_values(|t: ToolSpecView| t.name)
    &&& crate::run::maybe_text(s.force_tool) == r.force_tool
    &&& views(s.messages@) == plain_messages(r.messages)
}

/// Replays a fixed script, so that the whole agent runtime can be run without a
/// network or an API key.
#[derive(Debug)]
pub struct ScriptedProvider {
    pub turns: Vec<Turn>,
    pub count: usize,
    pub input_tokens: u64,
    pub output_tokens: u64,
    pub repeat_last: bool,
    pub seen: Vec<CompletionSnapshot>,
}

/// The turn that answers a call: the one at its place; past the end the last, where
/// it is repeated; else no text.
pub open spec fn scripted_turn(turns: Seq<TurnView>, repeat_last: bool, n: int) -> TurnView {
    if n < turns.len() {
        turns[n]
    } else if repeat_last && turns.len() > 0 {
        turns.last()
    } else {
        TurnView::Text(Seq::empty())
    }
}

/// What a turn answers, as the call of a number.
pub open spec fn turn_reply(turn: TurnView, n: nat, input: u64, output: u64, model: Seq<char>) -> Result<
    ReplyView,
    Seq<char>,
> {
    match turn {
        TurnView::Error(e) => Err(e),
        TurnView::Text(t) => Ok(text_reply(t, StopReason::EndTurn, input, output, model)),
        TurnView::Truncated(t) => Ok(text_reply(t, StopReason::MaxTokens, input, output, model)),
        TurnView::Tool { name, arguments } => Ok(
            call_reply(seq![CallView { id: "call_"@ + decimal(n), name, arguments }], input, output, model),
        ),
        TurnView::Tools(list) => Ok(
            call_reply(
                Seq::new(
                    list.len(),
                    |i: int|
                        CallView {
                            id: "call_"@ + decimal(n) + "_"@ + decimal(i as nat),
                            name: list[i].0,
                            arguments: list[i].1,
                        },
                ),
                input,
                output,
                model,
            ),
        ),
    }
}

/// What a script of some turns starts as.
pub open spec fn fresh_script(p: ScriptedProvider, turns: Seq<TurnView>, repeat_last: bool) -> bool {
    &&& turn_views(p.turns@) == turns
    &&& p.count == 0
    &&& p.input_tokens == 10
    &&& p.output_tokens == 10
    &&& p.repeat_last == repeat_last
    &&& p.seen@.len() == 0
}

/// The turn that a kind, a text and a value stand for.
pub open spec fn turn_of(kind: Seq<char>, a: Seq<char>, b: JsonView) -> TurnView {
    if kind == "tool"@ {
        TurnView::Tool { name: a, arguments: b }
    } else if kind == "error"@ {
        TurnView::Error(a)
    } else if kind == "truncated"@ {
        TurnView::Truncated(a)
    } else {
        TurnView::Text(a)
    }
}

impl ScriptedProvider {
    fn new(turns: Vec<Turn>, repeat_last: bool) -> (r: ScriptedProvider)
        ensures
            fresh_script(r, turn_views(turns@), repeat_last),
    {
        ScriptedProvider { turns, count: 0, input_tokens: 10, output_tokens: 10, repeat_last, seen: Vec::new() }
    }

    pub fn text(s: &str) -> (r: ScriptedProvider)
        ensures
            fresh_script(r, seq![TurnView::Text(s@)], false),
    {
        let mut turns: Vec<Turn> = Vec::new();
        turns.push(Turn::Text(s.to_owned()));
        assert(turn_views(turns@) =~= seq![TurnView::Text(s@)]);
        ScriptedProvider::new(turns, false)
    }

    pub fn error(s: &str) -> (r: ScriptedProvider)
        ensures
            fresh_script(r, seq![TurnView::Error(s@)], true),
    {
        let mut turns: Vec<Turn> = Vec::new();
        turns.push(Turn::Error(s.to_owned()));
        assert(turn_views(turns@) =~= seq![TurnView::Error(s@)]);
        ScriptedProvider::new(turns, true)
    }

    pub fn tool_then_text(tool: &str, arguments: Json, text: &str) -> (r: ScriptedProvider)
        ensures
            fresh_script(
                r,
                seq![TurnView::Tool { name: tool@, arguments: arguments@ }, TurnView::Text(text@)],
                false,
            ),
    {
        let mut turns: Vec<Turn> = Vec::new();
        turns.push(Turn::Tool { name: tool.to_owned(), arguments });
        turns.push(Turn::Text(text.to_owned()));
        assert(turn_views(turns@) =~= seq![
            TurnView::Tool { name: tool@, arguments: arguments@ },
            TurnView::Text(text@),
        ]);
        ScriptedProvider::new(turns, false)
    }

    /// Several tool calls in one turn, and a text answer after it.
    pub fn tools_then_text(tools: Vec<(&str, Json)>, text: &str) -> (r: ScriptedProvider)
        ensures
            fresh_script(
                r,
                seq![
                    TurnView::Tools(tools@.map_values(|p: (&str, Json)| (p.0@, p.1@))),
                    TurnView::Text(text@),
                ],
                false,
            ),
    {
        let mut list: Vec<(String, Json)> = Vec::new();
        let mut i: usize = 0;
        while i < tools.len()
            invariant
                i <= tools@.len(),
                list@.len() == i,
                forall|k: int| 0 <= k < i ==> (#[trigger] list@[k]).0@ == tools@[k].0@ && list@[k].1@ == tools@[k].1@,
            decreases tools.len() - i,
        {
            list.push((tools[i].0.to_owned(), tools[i].1.copy()));
            i = i + 1;
        }
        assert(named_views(list@) =~= tools@.map_values(|p: (&str, Json)| (p.0@, p.1@)));
        let mut turns: Vec<Turn> = Vec::new();
        turns.push(Turn::Tools(list));
        turns.push(Turn::Text(text.to_owned()));
        assert(turn_views(turns@) =~= seq![TurnView::Tools(named_views(list@)), TurnView::Text(text@)]);
        ScriptedProvider::new(turns, false)
    }

    /// An arbitrary sequence: each entry is `("tool", name, args)`,
    /// `("error", message, _)`, `("truncated", text, _)` or `("text", text, _)`.
    pub fn sequence(turns: Vec<(&str, &str, Json)>) -> (r: ScriptedProvider)
        ensures
            fresh_script(
                r,
                turns@.map_values(|t: (&str, &str, Json)| turn_of(t.0@, t.1@, t.2@)),
                false,
            ),
    {
        let mut list: Vec<Turn> = Vec::new();
        let mut i: usize = 0;
        while i < turns.len()
            invariant
                i <= turns@.len(),
                list@.len() == i,
                forall|k: int|
                    0 <= k < i ==> (#[trigger] list@[k])@ == turn_of(turns@[k].0@, turns@[k].1@, turns@[k].2@),
            decreases turns.len() - i,
        {
            let kind = turns[i].0;
            let a = turns[i].1.to_owned();
            let turn = if same(kind, "tool") {
                Turn::Tool { name: a, arguments: turns[i].2.copy() }
            } else if same(kind, "error") {
                Turn::Error(a)
            } else if same(kind, "truncated") {
                Turn::Truncated(a)
            } else {
                Turn::Text(a)
            };
            list.push(turn);
            i = i + 1;
        }
        assert(turn_views(list@) =~= turns@.map_values(
            |t: (&str, &str, Json)| turn_of(t.0@, t.1@, t.2@),
        ));
        ScriptedProvider::new(list, false)
    }

    pub fn always_tool(tool: &str, arguments: Json) -> (r: ScriptedProvider)
        ensures
            fresh_script(r, seq![TurnView::Tool { name: tool@, arguments: arguments@ }], true),
    {
        let mut turns: Vec<Turn> = Vec::new();
        turns.push(Turn::Tool { name: tool.to_owned(), arguments });
        assert(turn_views(turns@) =~= seq![TurnView::Tool { name: tool@, arguments: arguments@ }]);
        ScriptedProvider::new(turns, true)
    }

    pub fn with_tokens(self, input: u64, output: u64) -> (r: ScriptedProvider)
        ensures
            r == (ScriptedProvider { input_tokens: input, output_tokens: output, ..self }),
    {
        ScriptedProvider {
            turns: self.turns,
            count: self.count,
            input_tokens: input,
            output_tokens: output,
            repeat_last: self.repeat_last,
            seen: self.seen,
        }
    }

    /// What was asked, oldest first.
    pub fn snapshots(&self) -> (r: &Vec<CompletionSnapshot>)
        ensures
            *r == self.seen,
    {
        &self.seen
    }

    pub fn calls(&self) -> (r: usize)
        ensures
            r == self.count,
    {
        self.count
    }

    pub fn name(&self) -> (r: &'static str)
        ensures
            r@ == "scripted"@,
    {
        "scripted"
    }

    fn snapshot(req: &CompletionRequest) -> (r: CompletionSnapshot)
        ensures
            records(r, req@),
    {
        let mut tool_names: Vec<String> = Vec::new();
        let mut i: usize = 0;
        while i < req.tools.len()
            invariant
                i <= req.tools@.len(),
                tool_names@.len() == i,
                forall|k: int| 0 <= k < i ==> (#[trigger] tool_names@[k])@ == req.tools@[k].name@,
            decreases req.tools.len() - i,
        {
            tool_names.push(req.tools[i].name.clone());
            i = i + 1;
        }
        assert(texts(tool_names@) =~= req@.tools.map_values(|t: ToolSpecView| t.name));
        let force_tool = match req.force_tool {
            Some(t) => Some(t.to_owned()),
            None => None,
        };
        CompletionSnapshot {
            model: req.agent.model.clone(),
            system: req.agent.system.clone(),
            system_suffix: req.system_suffix.to_owned(),
            message_count: req.conversation.messages.len(),
            tool_names,
            force_tool,
            messages: req.plain_messages(),
        }
    }

    /// Answers with the next turn of the script, and records what was asked.
    pub fn complete(&mut self, req: &CompletionRequest) -> (r: Result<ProviderResponse, String>)
        ensures
            final(self).turns == old(self).turns,
            final(self).input_tokens == old(self).input_tokens,
            final(self).output_tokens == old(self).output_tokens,
            final(self).repeat_last == old(self).repeat_last,
            final(self).count == old(self).count.wrapping_add(1),
            final(self).seen@.len() == old(self).seen@.len() + 1,
            final(self).seen@.drop_last() == old(self).seen@,
            records(final(self).seen@.last(), req@),
            match (
                r,
                turn_reply(
                    scripted_turn(turn_views(old(self).turns@), old(self).repeat_last, old(self).count as int),
                    old(self).count as nat,
                    old(self).input_tokens,
                    old(self).output_tokens,
                    req@.model,
                ),
            ) {
                (Ok(p), Ok(v)) => p@ == v,
                (Err(e), Err(m)) => e@ == m,
                _ => false,
            },
    {
        let ghost before = self.seen@;
        self.seen.push(ScriptedProvider::snapshot(req));
        assert(self.seen@.drop_last() =~= before);
        let n: usize = self.count;
        self.count = n.wrapping_add(1);
        let model = req.agent.model.as_str();
        let input: u64 = self.input_tokens;
        let output: u64 = self.output_tokens;
        let count = decimal_text(n as u64);
        let len: usize = self.turns.len();
        let at: usize = if n < len {
            n
        } else if self.repeat_last && len > 0 {
            len - 1
        } else {
            let text = String::new();
            assert(text@ =~= Seq::<char>::empty());
            return Ok(reply_with_text(text, StopReason::EndTurn, input, output, model));
        };
        let ghost turn = scripted_turn(turn_views(self.turns@), self.repeat_last, n as int);
        assert(turn == self.turns@[at as int]@);
        match &self.turns[at] {
            Turn::Error(e) => Err(e.clone()),
            Turn::Text(t) => Ok(reply_with_text(t.clone(), StopReason::EndTurn, input, output, model)),
            Turn::Truncated(t) => Ok(reply_with_text(t.clone(), StopReason::MaxTokens, input, output, model)),
            Turn::Tool { name, arguments } => {
                let mut calls: Vec<ToolCall> = Vec::new();
                calls.push(
                    ToolCall {
                        id: cat2("call_", count.as_str()),
                        name: name.clone(),
                        arguments: arguments.copy(),
                    },
                );
                assert(call_views(calls@) =~= seq![
                    CallView { id: "call_"@ + decimal(n as nat), name: name@, arguments: arguments@ },
                ]);
                Ok(reply_with_calls(calls, input, output, model))
            },
            Turn::Tools(list) => {
                let mut calls: Vec<ToolCall> = Vec::new();
                let mut i: usize = 0;
                while i < list.len()
                    invariant
                        i <= list@.len(),
                        calls@.len() == i,
                        count@ == decimal(n as nat),
                        forall|k: int|
                            0 <= k < i ==> (#[trigger] calls@[k])@ == (CallView {
                                id: "call_"@ + decimal(n as nat) + "_"@ + decimal(k as nat),
                                name: list@[k].0@,
                                arguments: list@[k].1@,
                            }),
                    decreases list.len() - i,
                {
                    calls.push(
                        ToolCall {
                            id: cat4("call_", count.as_str(), "_", decimal_text(i as u64).as_str()),
                            name: list[i].0.clone(),
                            arguments: list[i].1.copy(),
                        },
                    );
                    i = i + 1;
                }
                let ghost named = named_views(list@);
                assert(call_views(calls@) =~= Seq::new(
                    named.len(),
                    |i: int|
                        CallView {
                            id: "call_"@ + decimal(n as nat) + "_"@ + decimal(i as nat),
                            name: named[i].0,
                            arguments: named[i].1,
                        },
                ));
                Ok(reply_with_calls(calls, input, output, model))
            },
        }
    }
}

/// A deterministic stand-in for a model, driven by a tiny command language in
/// the latest user message. Enabled with `WEBCORTEX_FAKE_PROVIDER=1`; never
/// selected otherwise.
///
/// Commands, one per `;`-separated clause of the last user text:
///
/// * `tool:<name> <json>`   — request that tool call
/// * `handoff:<agent>`      — request `transfer_to_<agent>`
/// * `json:<object>`        — when a tool is being forced, answer with it
/// * `context?`             — answer with the resolved system suffix, so a
///   test can see what context providers injected
/// * anything else          — answered as text, prefixed by the agent name
///
/// After tool results come back the fake answers with a text summary of them,
/// so a run terminates.
#[derive(Debug, Clone, Copy)]
pub struct FakeProvider;

/// The tokens that a length in bytes counts for.
pub open spec fn rough_tokens(bytes: nat) -> u64 {
    (bytes / 4) as u64
}

/// The tokens that messages count for: the more conversation, the more of them.
pub open spec fn message_tokens(messages: Seq<MessageView>) -> u64
    decreases messages.len(),
{
    if messages.len() == 0 {
        0
    } else {
        saturating(
            message_tokens(messages.drop_last()),
            saturating(rough_tokens(byte_len(json_text(messages.last().content))), 1),
        )
    }
}

/// The tokens that a request counts for.
pub open spec fn fake_tokens(r: RequestView) -> u64 {
    saturating(message_tokens(r.messages), rough_tokens(byte_len(r.system_suffix)))
}

/// The last message of a conversation, where it is a text.
pub open spec fn last_text(messages: Seq<MessageView>) -> Option<Seq<char>> {
    if messages.len() == 0 {
        None
    } else {
        match messages.last().content {
            JsonView::Str(s) => Some(s),
            _ => None,
        }
    }
}

/// What a forced tool is called with: the first JSON value behind `json:`, else the
/// prompt and the agent.
pub open spec fn forced_arguments(prompt: Seq<char>, agent: Seq<char>) -> JsonView {
    let given = match behind(prompt, "json:"@) {
        Some(rest) => json_first(trimmed(rest)),
        None => None,
    };
    match given {
        Some(v) => v,
        None => JsonView::Object(
            Map::empty().insert("text"@, JsonView::Str(prompt)).insert("agent"@, JsonView::Str(agent)),
        ),
    }
}

/// The end of a result, and its length.
pub open spec fn result_note(s: Seq<char>) -> Seq<char> {
    tail(s, 160) + " (len="@ + decimal(s.len()) + ")"@
}

/// The notes on the results that blocks hold.
pub open spec fn result_notes(blocks: Seq<JsonView>) -> Seq<Seq<char>>
    decreases blocks.len(),
{
    if blocks.len() == 0 {
        Seq::empty()
    } else {
        let before = result_notes(blocks.drop_last());
        match member_text(blocks.last(), "content"@) {
            Some(s) => before.push(result_note(s)),
            None => before,
        }
    }
}

/// What a summary of the last message says.
pub open spec fn results_summary(messages: Seq<MessageView>) -> Seq<char> {
    if messages.len() == 0 {
        Seq::empty()
    } else {
        match messages.last().content {
            JsonView::Array(blocks) => joined(result_notes(blocks), " | "@),
            _ => Seq::empty(),
        }
    }
}

/// The name and the arguments of the call that a clause asks for.
pub open spec fn clause_call(clause: Seq<char>) -> Option<(Seq<char>, JsonView)> {
    match after_prefix(clause, "tool:"@) {
        Some(rest) => {
            let (name, args) = match cut_once(trimmed(rest), ' ') {
                Some(p) => p,
                None => (trimmed(rest), "{}"@),
            };
            Some(
                (
                    name,
                    match json_parsed(trimmed(args)) {
                        Some(v) => v,
                        None => empty_object(),
                    },
                ),
            )
        },
        None => match after_prefix(clause, "handoff:"@) {
            Some(agent) => Some(
                (
                    "transfer_to_"@ + trimmed(agent),
                    JsonView::Object(Map::empty().insert("reason"@, JsonView::Str("asked to"@))),
                ),
            ),
            None => None,
        },
    }
}

/// The calls that clauses ask for, each named by the place of its clause.
pub open spec fn clause_calls(clauses: Seq<Seq<char>>) -> Seq<CallView>
    decreases clauses.len(),
{
    if clauses.len() == 0 {
        Seq::empty()
    } else {
        let before = clause_calls(clauses.drop_last());
        match clause_call(trimmed(clauses.last())) {
            Some(c) => before.push(
                CallView { id: "fake_"@ + decimal((clauses.len() - 1) as nat), name: c.0, arguments: c.1 },
            ),
            None => before,
        }
    }
}

/// What the fake answers.
pub open spec fn fake_reply(r: RequestView) -> ReplyView {
    let input = fake_tokens(r);
    let say = |text: Seq<char>| text_reply(text, StopReason::EndTurn, input, 10, r.model);
    match (r.force_tool, last_text(r.messages)) {
        (Some(forced), last) => {
            let prompt = match last {
                Some(t) => t,
                None => Seq::empty(),
            };
            call_reply(
                seq![CallView { id: "fake_forced"@, name: forced, arguments: forced_arguments(prompt, r.agent) }],
                input,
                10,
                r.model,
            )
        },
        (None, None) => say(r.agent + " says: "@ + results_summary(r.messages)),
        (None, Some(text)) => if trimmed(text) == "context?"@ {
            say(r.system + "|"@ + r.system_suffix)
        } else {
            let calls = clause_calls(split_on(text, ';'));
            if calls.len() > 0 {
                call_reply(calls, input, 10, r.model)
            } else {
                say(r.agent + " echoes: "@ + text)
            }
        },
    }
}

fn count_tokens(req: &CompletionRequest) -> (r: u64)
    ensures
        r == fake_tokens(req@),
{
    let list = &req.conversation.messages;
    let ghost all = req@.messages;
    let mut sum: u64 = 0;
    let mut i: usize = 0;
    assert(all.take(0).len() == 0);
    while i < list.len()
        invariant
            i <= list@.len(),
            all == message_views(list@),
            sum == message_tokens(all.take(i as int)),
        decreases list.len() - i,
    {
        assert(all.take(i + 1).drop_last() =~= all.take(i as int));
        assert(all.take(i + 1).last().content == list@[i as int].content@);
        let text = list[i].content.to_text();
        let n: u64 = text.as_str().as_bytes().len() as u64 / 4;
        sum = sum.saturating_add(n.saturating_add(1));
        i = i + 1;
    }
    assert(all.take(all.len() as int) =~= all);
    sum.saturating_add(req.system_suffix.as_bytes().len() as u64 / 4)
}

fn read_forced(prompt: &str, agent: &str) -> (r: Json)
    ensures
        r@ == forced_arguments(prompt@, agent@),
{
    let given = match text_behind(prompt, "json:") {
        Some(rest) => parse_first(trim(rest.as_str()).as_str()),
        None => None,
    };
    match given {
        Some(v) => v,
        None => {
            let mut m = Members::new();
            m.put("text", Json::str(prompt));
            m.put("agent", Json::str(agent));
            Json::Object(m)
        },
    }
}

fn note_results(blocks: &Vec<Json>) -> (r: Vec<String>)
    ensures
        texts(r@) == result_notes(views(blocks@)),
{
    let ghost all = views(blocks@);
    let mut out: Vec<String> = Vec::new();
    let mut i: usize = 0;
    assert(texts(out@) =~= result_notes(all.take(0)));
    while i < blocks.len()
        invariant
            i <= blocks@.len(),
            all == views(blocks@),
            texts(out@) == result_notes(all.take(i as int)),
        decreases blocks.len() - i,
    {
        assert(all.take(i + 1).drop_last() =~= all.take(i as int));
        assert(all.take(i + 1).last() == blocks@[i as int]@);
        if let Some(s) = blocks[i].get_str("content") {
            let chars = crate::text::chars_of(s);
            let note = cat4(
                last_chars(s, 160).as_str(),
                " (len=",
                decimal_text(chars.len() as u64).as_str(),
                ")",
            );
            proof {
                lemma_texts_push(out@, note);
            }
            out.push(note);
        }
        i = i + 1;
    }
    assert(all.take(all.len() as int) =~= all);
    out
}

fn read_clause(clause: &str) -> (r: Option<(String, Json)>)
    ensures
        match r {
            Some(c) => clause_call(clause@) == Some((c.0@, c.1@)),
            None => clause_call(clause@) is None,
        },
{
    if let Some(rest) = strip_prefix(clause, "tool:") {
        let rest = trim(rest.as_str());
        let (name, args) = match split_once(rest.as_str(), ' ') {
            Some(p) => p,
            None => (rest, "{}".to_owned()),
        };
        let arguments = match parse(trim(args.as_str()).as_str()) {
            Some(v) => v,
            None => Json::empty(),
        };
        return Some((name, arguments));
    }
    if let Some(agent) = strip_prefix(clause, "handoff:") {
        let mut m = Members::new();
        m.put("reason", Json::str("asked to"));
        return Some((cat2("transfer_to_", trim(agent.as_str()).as_str()), Json::Object(m)));
    }
    None
}

fn read_clauses(text: &str) -> (r: Vec<ToolCall>)
    ensures
        call_views(r@) == clause_calls(split_on(text@, ';')),
{
    let clauses = split(text, ';');
    let ghost all = split_on(text@, ';');
    let mut calls: Vec<ToolCall> = Vec::new();
    let mut i: usize = 0;
    assert(call_views(calls@) =~= clause_calls(all.take(0)));
    while i < clauses.len()
        invariant
            i <= clauses@.len(),
            all == texts(clauses@),
            call_views(calls@) == clause_calls(all.take(i as int)),
        decreases clauses.len() - i,
    {
        assert(all.take(i + 1).drop_last() =~= all.take(i as int));
        assert(all.take(i + 1).last() == clauses@[i as int]@);
        let clause = trim(clauses[i].as_str());
        if let Some((name, arguments)) = read_clause(clause.as_str()) {
            let call = ToolCall { id: cat2("fake_", decimal_text(i as u64).as_str()), name, arguments };
            proof {
                lemma_call_push(calls@, call);
            }
            calls.push(call);
        }
        i = i + 1;
    }
    assert(all.take(all.len() as int) =~= all);
    calls
}

impl FakeProvider {
    pub fn name(&self) -> (r: &'static str)
        ensures
            r@ == "fake"@,
    {
        "fake"
    }

    /// Answers a request.
    pub fn complete(&self, req: &CompletionRequest) -> (r: ProviderResponse)
        ensures
            r@ == fake_reply(req@),
    {
        let input: u64 = count_tokens(req);
        let model = req.agent.model.as_str();
        let list = &req.conversation.messages;
        let n: usize = list.len();
        let last: Option<&Json> = if n > 0 {
            Some(&list[n - 1].content)
        } else {
            None
        };
        let text = match last {
            Some(Json::Str(s)) => Some(s.clone()),
            _ => None,
        };
        assert(crate::run::maybe_text(text) == last_text(req@.messages));
        if let Some(forced) = req.force_tool {
            let prompt = match text {
                Some(t) => t,
                None => String::new(),
            };
            assert(last_text(req@.messages) is None ==> prompt@ =~= Seq::empty());
            let arguments = read_forced(prompt.as_str(), req.agent.name.as_str());
            let mut calls: Vec<ToolCall> = Vec::new();
            calls.push(ToolCall { id: "fake_forced".to_owned(), name: forced.to_owned(), arguments });
            assert(call_views(calls@) =~= seq![
                CallView { id: "fake_forced"@, name: forced@, arguments: arguments@ },
            ]);
            return reply_with_calls(calls, input, 10, model);
        }
        let text = match text {
            Some(t) => t,
            None => {
                let summary = match last {
                    Some(Json::Array(blocks)) => {
                        proof {
                            Json::lemma_array_views(*blocks);
                        }
                        join(&note_results(blocks), " | ")
                    },
                    _ => String::new(),
                };
                assert(summary@ =~= results_summary(req@.messages));
                let reply = cat3(req.agent.name.as_str(), " says: ", summary.as_str());
                return reply_with_text(reply, StopReason::EndTurn, input, 10, model);
            },
        };
        if same(trim(text.as_str()).as_str(), "context?") {
            let reply = cat3(req.agent.system.as_str(), "|", req.system_suffix);
            return reply_with_text(reply, StopReason::EndTurn, input, 10, model);
        }
        let calls = read_clauses(text.as_str());
        assert(call_views(calls@).len() == calls@.len());
        if calls.len() > 0 {
            return reply_with_calls(calls, input, 10, model);
        }
        let reply = cat3(req.agent.name.as_str(), " echoes: ", text.as_str());
        reply_with_text(reply, StopReason::EndTurn, input, 10, model)
    }
}

/// A script answers call by call: the turn of a call's number is what it answers with, with
/// the tokens that were set; past its end the last turn is repeated where it is to be, and
/// nothing is said where it is not.
pub proof fn law_a_script_answers_call_by_call(
    turns: Seq<TurnView>,
    repeat_last: bool,
    at: int,
    n: nat,
    input: u64,
    output: u64,
    model: Seq<char>,
    turn: TurnView,
)
    requires
        0 <= at,
    ensures
        at < turns.len() ==> scripted_turn(turns, repeat_last, at) == turns[at],
        at >= turns.len() > 0 && repeat_last ==> scripted_turn(turns, repeat_last, at) == turns.last(),
        at >= turns.len() && !repeat_last ==> (scripted_turn(turns, repeat_last, at) matches TurnView::Text(t) && t.len() == 0),
        turn_reply(turn, n, input, output, model) matches Ok(r) ==> r.input_tokens == input && r.output_tokens == output
            && r.model == model && r.cache_read_tokens == 0 && r.cache_write_tokens == 0,
        turn matches TurnView::Error(e) ==> turn_reply(turn, n, input, output, model) == Err::<ReplyView, Seq<char>>(e),
        turn matches TurnView::Text(t) ==> (turn_reply(turn, n, input, output, model) matches Ok(r) && r.text == t
            && r.tool_calls.len() == 0 && r.stop_reason == StopReason::EndTurn),
        turn matches TurnView::Truncated(t) ==> (turn_reply(turn, n, input, output, model) matches Ok(r) && r.text == t
            && r.tool_calls.len() == 0 && r.stop_reason == StopReason::MaxTokens),
        turn matches TurnView::Tool { name, arguments } ==> (turn_reply(turn, n, input, output, model) matches Ok(r)
            && r.stop_reason == StopReason::ToolUse && r.tool_calls.len() == 1 && r.tool_calls[0].name == name
            && r.tool_calls[0].arguments == arguments),
        turn matches TurnView::Tools(list) ==> (turn_reply(turn, n, input, output, model) matches Ok(r) && r.stop_reason
            == StopReason::ToolUse && r.tool_calls.len() == list.len() && forall|i: int|
            0 <= i < list.len() ==> (#[trigger] r.tool_calls[i]).name == list[i].0 && r.tool_calls[i].arguments == list[i].1),
{
}

/// A word makes the turn that it names, and any other word makes a text.
pub proof fn law_a_word_makes_its_turn(kind: Seq<char>, a: Seq<char>, b: JsonView)
    ensures
        turn_of("tool"@, a, b) == (TurnView::Tool { name: a, arguments: b }),
        turn_of("error"@, a, b) == TurnView::Error(a),
        turn_of("truncated"@, a, b) == TurnView::Truncated(a),
        kind != "tool"@ && kind != "error"@ && kind != "truncated"@ ==> turn_of(kind, a, b) == TurnView::Text(a),
{
    reveal_strlit("tool");
    reveal_strlit("error");
    reveal_strlit("truncated");
    assert("tool"@.len() == 4);
    assert("error"@.len() == 5);
    assert("truncated"@.len() == 9);
}

/// The fake does what it is told: a forced tool is called; a text that asks for nothing is
/// echoed under the agent's name; and it answers as the model that it was asked as.
pub proof fn law_the_fake_does_what_it_is_told(r: RequestView, said: Seq<char>)
    ensures
        fake_reply(r).model == r.model,
        r.force_tool matches Some(name) ==> fake_reply(r).stop_reason == StopReason::ToolUse && fake_reply(r).tool_calls.len()
            == 1 && fake_reply(r).tool_calls[0].name == name,
        r.force_tool is None && r.messages.len() > 0 && r.messages.last().content == JsonView::Str(said) && trimmed(said)
            != "context?"@ && clause_calls(split_on(said, ';')).len() == 0 ==> fake_reply(r).text == r.agent + " echoes: "@
            + said && fake_reply(r).stop_reason == StopReason::EndTurn,
        r.force_tool is None && r.messages.len() > 0 && r.messages.last().content == JsonView::Str(said) && trimmed(said)
            == "context?"@ ==> fake_reply(r).text == r.system + "|"@ + r.system_suffix,
        r.force_tool is None && r.messages.len() > 0 && r.messages.last().content == JsonView::Str(said) && trimmed(said)
            != "context?"@ && clause_calls(split_on(said, ';')).len() > 0 ==> fake_reply(r).tool_calls == clause_calls(
            split_on(said, ';'),
        ) && fake_reply(r).stop_reason == StopReason::ToolUse,
{
}

/// A clause asks for the call that it names: a tool with the arguments behind its name, or a
/// transfer to an agent.
pub proof fn law_a_clause_asks_for_the_call_it_names(name: Seq<char>, args: Seq<char>, v: JsonView)
    requires
        name.len() > 0 && !name.contains(' ') && !crate::text::is_space(name[0]) && !crate::text::is_space(name.last()),
        args.len() > 0 && !crate::text::is_space(args[0]) && !crate::text::is_space(args.last()),
        json_parsed(args) == Some(v),
    ensures
        clause_call("tool:"@ + (name + seq![' '] + args)) == Some((name, v)),
        clause_call("handoff:"@ + name) matches Some(c) && c.0 == "transfer_to_"@ + name,
{
    reveal_strlit("tool:");
    reveal_strlit("handoff:");
    assert("tool:"@.len() == 5);
    assert("handoff:"@.len() == 8);
    let rest = name + seq![' '] + args;
    let a = "tool:"@ + rest;
    assert(a.subrange(0, 5) =~= "tool:"@);
    assert(a.skip(5) =~= rest);
    assert(rest[0] == name[0] && rest.last() == args.last());
    assert(trimmed(rest) == rest);
    assert(trimmed(args) == args);
    assert(trimmed(name) == name);
    crate::text::law_a_text_is_cut_once(name, args, ' ');
    let b = "handoff:"@ + name;
    assert(b.subrange(0, 8) =~= "handoff:"@);
    assert(b.skip(8) =~= name);
    assert("tool:"@[0] == 't' && "handoff:"@[0] == 'h');
    if "tool:"@.is_prefix_of(b) {
        assert(b.subrange(0, 5)[0] == b[0]);
    }
}

} // verus!
