//! The agent runtime.
//!
//! A run is a machine: the library decides, and whoever drives it completes,
//! dispatches and resolves what it asks for. What makes this different from a tool
//! loop written by hand:
//!
//! * **Authority is delegated, never granted.** A run acts with a subset of its
//!   caller's scopes, and a handoff can only shrink it further.
//! * **Budgets compose.** A shared budget travels with the request tree.
//! * **Context is bounded.** Tool results are capped before the model sees them, and
//!   a conversation that outgrows its window is compacted.
//! * **Dangerous tools stop and wait for a human**, and the run resumes once the human
//!   has decided, including the rest of the turn it was in.
//! * **Every step is audited and every token is charged to a ledger.**

use crate::conversation::{Message, MessageView, ToolSpec, ToolSpecView, lemma_tool_push, message_views, tool_views};
use crate::json::{Json, JsonView, Members, empty_object, json_text, member, member_text, views};
use crate::manifest::{AgentDef, Manifest, Route, agent_named, tool_route};
use crate::provider::{as_text, is_block, or_empty};
use crate::text::{
    byte_len, cat2, cat3, cat4, cat5, cat6, decimal, decimal_text, head_within, join, joined, lemma_texts_push,
    prefix_within, same, suffix_within, tail_within, texts,
};
use vstd::prelude::*;

verus! {

/// A `tool_result` block.
pub open spec fn result_block(id: Seq<char>, content: JsonView, is_error: bool) -> JsonView {
    JsonView::Object(
        Map::empty().insert("type"@, JsonView::Str("tool_result"@)).insert("tool_use_id"@, JsonView::Str(id)).insert(
            "content"@,
            JsonView::Str(as_text(content)),
        ).insert("is_error"@, JsonView::Bool(is_error)),
    )
}

/// A `tool_result` block.
pub fn tool_result(id: &str, content: &Json, is_error: bool) -> (r: Json)
    ensures
        r@ == result_block(id@, content@, is_error),
{
    let text = match content {
        Json::Str(s) => s.clone(),
        other => other.to_text(),
    };
    let mut m = Members::new();
    m.put("type", Json::str("tool_result"));
    m.put("tool_use_id", Json::str(id));
    m.put("content", Json::str(text.as_str()));
    m.put("is_error", Json::Bool(is_error));
    Json::Object(m)
}

/// An object that says what went wrong.
pub open spec fn error_object(message: Seq<char>) -> JsonView {
    JsonView::Object(Map::empty().insert("error"@, JsonView::Str(message)))
}

/// An object that says what went wrong.
pub fn error_json(message: &str) -> (r: Json)
    ensures
        r@ == error_object(message@),
{
    let mut m = Members::new();
    m.put("error", Json::str(message));
    Json::Object(m)
}

/// A tool result as the model sees it: itself where it fits in so many bytes, else
/// the start of its text, saying so. Zero is no bound.
pub open spec fn bounded_view(value: JsonView, max_bytes: nat) -> JsonView {
    let text = json_text(value);
    if max_bytes == 0 || byte_len(text) <= max_bytes {
        value
    } else {
        let head = prefix_within(text, max_bytes as int);
        JsonView::Str(
            head + "…[truncated: showing "@ + decimal(byte_len(head)) + " of "@ + decimal(byte_len(text))
                + " bytes; narrow the query to see the rest]"@,
        )
    }
}

/// Cap what the model sees of a tool result. The full value is still in the
/// step record and the audit log; only the model's copy is cut.
pub fn bounded(value: &Json, max_bytes: usize) -> (r: Json)
    ensures
        r@ == bounded_view(value@, max_bytes as nat),
{
    let text = value.to_text();
    let len: usize = text.as_str().as_bytes().len();
    if max_bytes == 0 || len <= max_bytes {
        return value.copy();
    }
    let head = head_within(text.as_str(), max_bytes);
    let end: usize = head.as_str().as_bytes().len();
    Json::Str(
        cat6(
            head.as_str(),
            "…[truncated: showing ",
            decimal_text(end as u64).as_str(),
            " of ",
            decimal_text(len as u64).as_str(),
            " bytes; narrow the query to see the rest]",
        ),
    )
}

/// What the model sees of a result is the result, or a text that starts with the
/// longest part of its printed form that keeps the bound, and no character is cut
/// apart.
pub proof fn law_bounding_cuts_between_characters(value: JsonView, max_bytes: nat)
    ensures
        max_bytes == 0 || byte_len(json_text(value)) <= max_bytes ==> bounded_view(value, max_bytes) == value,
        max_bytes > 0 && byte_len(json_text(value)) > max_bytes ==> ({
            let head = prefix_within(json_text(value), max_bytes as int);
            &&& bounded_view(value, max_bytes) matches JsonView::Str(shown)
            &&& head.is_prefix_of(shown)
            &&& head.is_prefix_of(json_text(value))
            &&& byte_len(head) <= max_bytes
        }),
{
    let text = json_text(value);
    if max_bytes > 0 && byte_len(text) > max_bytes {
        let head = prefix_within(text, max_bytes as int);
        crate::text::law_a_prefix_within_a_bound_is_the_longest(text, max_bytes as int);
        let shown = bounded_view(value, max_bytes)->Str_0;
        assert(shown.subrange(0, head.len() as int) =~= head);
    }
}

/// What a block says in a transcript.
pub open spec fn block_note(b: JsonView) -> Seq<char> {
    if is_block(b, "text"@) {
        or_empty(member_text(b, "text"@))
    } else if is_block(b, "tool_use"@) {
        "[called "@ + (match member_text(b, "name"@) {
            Some(n) => n,
            None => "?"@,
        }) + " with "@ + (match member(b, "input"@) {
            Some(i) => json_text(i),
            None => Seq::empty(),
        }) + "]"@
    } else if is_block(b, "tool_result"@) {
        "[result: "@ + or_empty(member_text(b, "content"@)) + "]"@
    } else {
        Seq::empty()
    }
}

/// What blocks say in a transcript, without those that say nothing.
pub open spec fn block_notes(blocks: Seq<JsonView>) -> Seq<Seq<char>>
    decreases blocks.len(),
{
    if blocks.len() == 0 {
        Seq::empty()
    } else {
        let before = block_notes(blocks.drop_last());
        let note = block_note(blocks.last());
        if note.len() == 0 {
            before
        } else {
            before.push(note)
        }
    }
}

/// What a message says in a transcript.
pub open spec fn transcribed(content: JsonView) -> Seq<char> {
    match content {
        JsonView::Str(s) => s,
        JsonView::Array(blocks) => joined(block_notes(blocks), "\n"@),
        other => json_text(other),
    }
}

fn note_block(b: &Json) -> (r: String)
    ensures
        r@ == block_note(b@),
{
    let kind = match b.get_str("type") {
        Some(k) => k,
        None => {
            let r = String::new();
            assert(r@ =~= Seq::<char>::empty());
            return r;
        },
    };
    if same(kind, "text") {
        crate::provider::text_or_empty(b, "text")
    } else if same(kind, "tool_use") {
        let name = match b.get_str("name") {
            Some(n) => n,
            None => "?",
        };
        let input = match b.get("input") {
            Some(i) => i.to_text(),
            None => String::new(),
        };
        assert(input@ =~= match member(b@, "input"@) {
            Some(i) => json_text(i),
            None => Seq::empty(),
        });
        cat5("[called ", name, " with ", input.as_str(), "]")
    } else if same(kind, "tool_result") {
        cat3("[result: ", crate::provider::text_or_empty(b, "content").as_str(), "]")
    } else {
        let r = String::new();
        assert(r@ =~= Seq::<char>::empty());
        r
    }
}

/// What a message says in a transcript.
pub fn render_message(content: &Json) -> (r: String)
    ensures
        r@ == transcribed(content@),
{
    match content {
        Json::Str(s) => s.clone(),
        Json::Array(blocks) => {
            proof {
                Json::lemma_array_views(*blocks);
            }
            let ghost all = views(blocks@);
            let mut notes: Vec<String> = Vec::new();
            let mut i: usize = 0;
            assert(texts(notes@) =~= block_notes(all.take(0)));
            while i < blocks.len()
                invariant
                    i <= blocks@.len(),
                    all == views(blocks@),
                    texts(notes@) == block_notes(all.take(i as int)),
                decreases blocks.len() - i,
            {
                assert(all.take(i + 1).drop_last() =~= all.take(i as int));
                assert(all.take(i + 1).last() == blocks@[i as int]@);
                let note = note_block(&blocks[i]);
                if !note.as_str().is_empty() {
                    proof {
                        lemma_texts_push(notes@, note);
                    }
                    notes.push(note);
                }
                i = i + 1;
            }
            assert(all.take(all.len() as int) =~= all);
            join(&notes, "\n")
        },
        other => other.to_text(),
    }
}

/// The schema of a tool that takes nothing.
pub open spec fn open_schema() -> JsonView {
    JsonView::Object(
        Map::empty().insert("type"@, JsonView::Str("object"@)).insert("properties"@, empty_object()),
    )
}

/// The schema of a handoff.
pub open spec fn handoff_schema() -> JsonView {
    JsonView::Object(
        Map::empty().insert("type"@, JsonView::Str("object"@)).insert(
            "properties"@,
            JsonView::Object(
                Map::empty().insert(
                    "reason"@,
                    JsonView::Object(
                        Map::empty().insert("type"@, JsonView::Str("string"@)).insert(
                            "description"@,
                            JsonView::Str("Why this agent is better placed to continue."@),
                        ),
                    ),
                ),
            ),
        ).insert("required"@, crate::json::text_array(seq!["reason"@])),
    )
}

/// The tool that a route is to an agent.
pub open spec fn route_tool(name: Seq<char>, r: Route) -> ToolSpecView {
    ToolSpecView {
        name,
        description: if r.description@.len() == 0 {
            r.summary@
        } else {
            r.description@
        },
        input_schema: match r.input_schema {
            Some(s) => s@,
            None => open_schema(),
        },
    }
}

/// The tools of some names that have a route.
pub open spec fn route_tools(names: Seq<Seq<char>>, routes: Seq<Route>) -> Seq<ToolSpecView>
    decreases names.len(),
{
    if names.len() == 0 {
        Seq::empty()
    } else {
        let before = route_tools(names.drop_last(), routes);
        match tool_route(routes, names.last()) {
            Some(r) => before.push(route_tool(names.last(), r)),
            None => before,
        }
    }
}

/// The tool that a handoff is to an agent.
pub open spec fn handoff_tool(target: Seq<char>, agents: Seq<AgentDef>) -> ToolSpecView {
    let description = match agent_named(agents, target) {
        Some(a) => a.description@,
        None => Seq::empty(),
    };
    ToolSpecView {
        name: "transfer_to_"@ + target,
        description: if description.len() == 0 {
            "Hand the conversation to the "@ + target + " agent."@
        } else {
            "Hand the conversation to the "@ + target + " agent: "@ + description
        },
        input_schema: handoff_schema(),
    }
}

/// The tools that an agent is offered: its own, and one for each handoff.
pub open spec fn offered_tools(def: AgentDef, routes: Seq<Route>, agents: Seq<AgentDef>) -> Seq<ToolSpecView> {
    route_tools(texts(def.tools@), routes) + texts(def.handoffs@).map_values(|t: Seq<char>| handoff_tool(t, agents))
}

/// The schema of a tool that takes nothing.
pub fn open_schema_json() -> (r: Json)
    ensures
        r@ == open_schema(),
{
    let mut m = Members::new();
    m.put("type", Json::str("object"));
    m.put("properties", Json::empty());
    Json::Object(m)
}

fn handoff_schema_json() -> (r: Json)
    ensures
        r@ == handoff_schema(),
{
    let mut reason = Members::new();
    reason.put("type", Json::str("string"));
    reason.put("description", Json::str("Why this agent is better placed to continue."));
    let mut properties = Members::new();
    properties.put("reason", Json::Object(reason));
    let mut required: Vec<String> = Vec::new();
    required.push("reason".to_owned());
    assert(texts(required@) =~= seq!["reason"@]);
    let mut m = Members::new();
    m.put("type", Json::str("object"));
    m.put("properties", Json::Object(properties));
    m.put("required", crate::json::texts_to_json(&required));
    Json::Object(m)
}

/// The tools that an agent is offered: its own, and one for each handoff.
pub fn tool_specs(manifest: &Manifest, def: &AgentDef) -> (r: Vec<ToolSpec>)
    ensures
        tool_views(r@) == offered_tools(*def, manifest.routes@, manifest.agents@),
{
    let ghost routes = manifest.routes@;
    let ghost agents = manifest.agents@;
    let ghost names = texts(def.tools@);
    let mut specs: Vec<ToolSpec> = Vec::new();
    let mut i: usize = 0;
    assert(tool_views(specs@) =~= route_tools(names.take(0), routes));
    while i < def.tools.len()
        invariant
            i <= def.tools@.len(),
            names == texts(def.tools@),
            routes == manifest.routes@,
            tool_views(specs@) == route_tools(names.take(i as int), routes),
        decreases def.tools.len() - i,
    {
        assert(names.take(i + 1).drop_last() =~= names.take(i as int));
        assert(names.take(i + 1).last() == def.tools@[i as int]@);
        if let Some(r) = manifest.route_for_tool(def.tools[i].as_str()) {
            let spec_tool = ToolSpec {
                name: def.tools[i].clone(),
                description: if r.description.as_str().is_empty() {
                    r.summary.clone()
                } else {
                    r.description.clone()
                },
                input_schema: match &r.input_schema {
                    Some(s) => s.copy(),
                    None => open_schema_json(),
                },
            };
            proof {
                lemma_tool_push(specs@, spec_tool);
            }
            specs.push(spec_tool);
        }
        i = i + 1;
    }
    assert(names.take(names.len() as int) =~= names);
    let ghost own = route_tools(names, routes);
    let ghost given = texts(def.handoffs@).map_values(|t: Seq<char>| handoff_tool(t, agents));
    let mut j: usize = 0;
    assert(own + given.take(0) =~= own);
    while j < def.handoffs.len()
        invariant
            j <= def.handoffs@.len(),
            agents == manifest.agents@,
            given == texts(def.handoffs@).map_values(|t: Seq<char>| handoff_tool(t, agents)),
            tool_views(specs@) == own + given.take(j as int),
        decreases def.handoffs.len() - j,
    {
        let target = def.handoffs[j].as_str();
        let description = match manifest.agent_def(target) {
            Some(a) => a.description.clone(),
            None => String::new(),
        };
        assert(description@ =~= match agent_named(agents, target@) {
            Some(a) => a.description@,
            None => Seq::empty(),
        });
        let spec_tool = ToolSpec {
            name: cat2("transfer_to_", target),
            description: if description.as_str().is_empty() {
                cat3("Hand the conversation to the ", target, " agent.")
            } else {
                cat4("Hand the conversation to the ", target, " agent: ", description.as_str())
            },
            input_schema: handoff_schema_json(),
        };
        proof {
            assert(given[j as int] == spec_tool@);
            lemma_tool_push(specs@, spec_tool);
            assert(own + given.take(j + 1) =~= (own + given.take(j as int)).push(spec_tool@));
        }
        specs.push(spec_tool);
        j = j + 1;
    }
    assert(given.take(given.len() as int) =~= given);
    specs
}

/// What is appended to the system prompt of an agent: its rendered context, and
/// guidance on handoffs where it has any.
pub open spec fn suffix_for(def: AgentDef, rendered: Seq<char>) -> Seq<char> {
    let guidance = "When a request is better handled by another agent, call the matching transfer_to_* tool instead of answering it yourself."@;
    if def.handoffs@.len() == 0 {
        rendered
    } else if rendered.len() == 0 {
        guidance
    } else {
        rendered + "\n\n"@ + guidance
    }
}

/// What is appended to the system prompt of an agent, given its rendered context.
pub fn system_suffix(def: &AgentDef, rendered: &str) -> (r: String)
    ensures
        r@ == suffix_for(*def, rendered@),
{
    let mut suffix = rendered.to_owned();
    if def.handoffs.len() > 0 {
        if !suffix.as_str().is_empty() {
            suffix.append("\n\n");
        }
        suffix.append(
            "When a request is better handled by another agent, call the matching transfer_to_* tool instead of answering it yourself.",
        );
    }
    assert(suffix@ =~= suffix_for(*def, rendered@));
    suffix
}

/// The messages of a transcript, a line each.
pub open spec fn transcript(messages: Seq<MessageView>) -> Seq<char>
    decreases messages.len(),
{
    if messages.len() == 0 {
        Seq::empty()
    } else {
        transcript(messages.drop_last()) + messages.last().role + ": "@ + transcribed(messages.last().content) + "\n"@
    }
}

/// How many bytes of a transcript a summary is made from.
pub open spec fn transcript_limit(max_context: u64) -> nat {
    if 3 * max_context < 4000 {
        4000
    } else {
        (3 * max_context) as nat
    }
}

/// A transcript within a bound, oldest text first to go.
pub open spec fn recent_transcript(messages: Seq<MessageView>, limit: nat) -> Seq<char> {
    let all = transcript(messages);
    if byte_len(all) > limit {
        "[earlier turns omitted]\n"@ + suffix_within(all, limit)
    } else {
        all
    }
}

/// A transcript of the first messages within a bound, oldest text first to go.
pub fn write_transcript(messages: &Vec<Message>, count: usize, max_context: u64) -> (r: String)
    requires
        count <= messages@.len(),
    ensures
        r@ == recent_transcript(message_views(messages@).take(count as int), transcript_limit(max_context)),
{
    let ghost all = message_views(messages@);
    let mut out = String::new();
    let mut i: usize = 0;
    assert(out@ =~= transcript(all.take(0)));
    while i < count
        invariant
            i <= count <= messages@.len(),
            all == message_views(messages@),
            out@ == transcript(all.take(i as int)),
        decreases count - i,
    {
        assert(all.take(i + 1).drop_last() =~= all.take(i as int));
        assert(all.take(i + 1).last() == messages@[i as int]@);
        out = cat5(
            out.as_str(),
            messages[i].role.as_str(),
            ": ",
            render_message(&messages[i].content).as_str(),
            "\n",
        );
        i = i + 1;
    }
    let len: usize = out.as_str().as_bytes().len();
    let limit: usize = if max_context < 1334 {
        4000
    } else if max_context > (usize::MAX / 3) as u64 {
        usize::MAX
    } else {
        (max_context as usize) * 3
    };
    if len > limit {
        cat2("[earlier turns omitted]\n", tail_within(out.as_str(), limit).as_str())
    } else {
        out
    }
}

/// A result says which call it answers, whether that went wrong, and what came of it as
/// text: a text as it stands, and anything else as it prints.
pub proof fn law_a_result_names_the_call_that_it_answers(id: Seq<char>, content: JsonView, is_error: bool)
    ensures
        member(result_block(id, content, is_error), "type"@) == Some(JsonView::Str("tool_result"@)),
        member(result_block(id, content, is_error), "tool_use_id"@) == Some(JsonView::Str(id)),
        member(result_block(id, content, is_error), "is_error"@) == Some(JsonView::Bool(is_error)),
        content matches JsonView::Str(t) ==> member(result_block(id, content, is_error), "content"@) == Some(
            JsonView::Str(t),
        ),
        !(content is Str) ==> member(result_block(id, content, is_error), "content"@) == Some(
            JsonView::Str(json_text(content)),
        ),
{
    reveal_strlit("type");
    reveal_strlit("tool_use_id");
    reveal_strlit("content");
    reveal_strlit("is_error");
    assert("type"@.len() == 4);
    assert("tool_use_id"@.len() == 11);
    assert("content"@.len() == 7);
    assert("is_error"@.len() == 8);
}

proof fn lemma_route_tools(names: Seq<Seq<char>>, routes: Seq<Route>)
    requires
        forall|i: int| 0 <= i < names.len() ==> tool_route(routes, #[trigger] names[i]) is Some,
    ensures
        route_tools(names, routes).len() == names.len(),
        forall|i: int|
            0 <= i < names.len() ==> #[trigger] route_tools(names, routes)[i] == route_tool(
                names[i],
                tool_route(routes, names[i])->0,
            ),
    decreases names.len(),
{
    if names.len() > 0 {
        let rest = names.drop_last();
        assert forall|i: int| 0 <= i < rest.len() implies tool_route(routes, #[trigger] rest[i]) is Some by {
            assert(rest[i] == names[i]);
        }
        lemma_route_tools(rest, routes);
        assert(names[names.len() - 1] == names.last());
        assert forall|i: int| 0 <= i < names.len() implies #[trigger] route_tools(names, routes)[i] == route_tool(
            names[i],
            tool_route(routes, names[i])->0,
        ) by {
            if i < rest.len() {
                assert(route_tools(rest, routes)[i] == route_tools(names, routes)[i]);
                assert(rest[i] == names[i]);
            }
        }
    }
}

/// An agent is offered the tools that it declares, in order, each under its name with what
/// its route says of it and what its route takes; and behind them one transfer for each
/// agent that it may hand over to.
pub proof fn law_an_agent_is_offered_its_tools(def: AgentDef, routes: Seq<Route>, agents: Seq<AgentDef>, i: int)
    requires
        forall|k: int| 0 <= k < def.tools@.len() ==> tool_route(routes, (#[trigger] def.tools@[k])@) is Some,
        0 <= i < def.tools@.len() + def.handoffs@.len(),
    ensures
        ({
            let offered = offered_tools(def, routes, agents);
            let n = def.tools@.len();
            &&& offered.len() == n + def.handoffs@.len()
            &&& i < n ==> ({
                let r = tool_route(routes, def.tools@[i]@)->0;
                &&& offered[i].name == def.tools@[i]@
                &&& r.description@.len() > 0 ==> offered[i].description == r.description@
                &&& r.description@.len() == 0 ==> offered[i].description == r.summary@
                &&& r.input_schema matches Some(s) ==> offered[i].input_schema == s@
                &&& r.input_schema is None ==> member(offered[i].input_schema, "type"@) == Some(
                    JsonView::Str("object"@),
                )
            })
            &&& i >= n ==> offered[i].name == "transfer_to_"@ + def.handoffs@[i - n]@ && member(
                offered[i].input_schema,
                "type"@,
            ) == Some(JsonView::Str("object"@)) && (agent_named(agents, def.handoffs@[i - n]@) matches Some(a)
                ==> a.description@.is_suffix_of(offered[i].description) || a.description@.len() == 0)
        }),
{
    reveal_strlit("type");
    reveal_strlit("properties");
    reveal_strlit("required");
    assert("type"@.len() == 4);
    assert("properties"@.len() == 10);
    assert("required"@.len() == 8);
    let names = texts(def.tools@);
    assert forall|k: int| 0 <= k < names.len() implies tool_route(routes, #[trigger] names[k]) is Some by {
        assert(names[k] == def.tools@[k]@);
    }
    lemma_route_tools(names, routes);
    let offered = offered_tools(def, routes, agents);
    let n = def.tools@.len() as int;
    if i < n {
        assert(offered[i] == route_tools(names, routes)[i]);
    } else {
        let target = def.handoffs@[i - n]@;
        assert(texts(def.handoffs@)[i - n] == target);
        assert(offered[i] == handoff_tool(target, agents));
        if let Some(a) = agent_named(agents, target) {
            let d = offered[i].description;
            if a.description@.len() > 0 {
                assert(d.subrange(d.len() - a.description@.len(), d.len() as int) =~= a.description@);
            }
        }
    }
}

/// A transcript says what was said, in order: each message stands in it behind its role, a
/// text as it is.
pub proof fn law_a_transcript_says_what_was_said(messages: Seq<MessageView>, role: Seq<char>, said: Seq<char>)
    ensures
        transcript(messages.push(MessageView { role, content: JsonView::Str(said) })) == transcript(messages) + role
            + ": "@ + said + "\n"@,
        transcript(Seq::empty()).len() == 0,
{
    let m = MessageView { role, content: JsonView::Str(said) };
    assert(messages.push(m).drop_last() =~= messages);
}

/// A message of blocks is transcribed block by block: a text as it is, a call with its tool
/// and what it was called with, and a result with what it said.
pub proof fn law_a_block_is_transcribed(blocks: Seq<JsonView>, b: JsonView, said: Seq<char>, name: Seq<char>, input: JsonView)
    requires
        blocks.len() == 0,
    ensures
        member(b, "type"@) == Some(JsonView::Str("text"@)) && member(b, "text"@) == Some(JsonView::Str(said))
            ==> transcribed(JsonView::Array(blocks.push(b))) == said,
        member(b, "type"@) == Some(JsonView::Str("tool_result"@)) && member(b, "content"@) == Some(JsonView::Str(said))
            ==> transcribed(JsonView::Array(blocks.push(b))) == "[result: "@ + said + "]"@,
        member(b, "type"@) == Some(JsonView::Str("tool_use"@)) && member(b, "name"@) == Some(JsonView::Str(name))
            && member(b, "input"@) == Some(input) ==> transcribed(JsonView::Array(blocks.push(b))) == "[called "@ + name
            + " with "@ + json_text(input) + "]"@,
{
    reveal_strlit("text");
    reveal_strlit("tool_use");
    reveal_strlit("tool_result");
    assert("text"@.len() == 4);
    assert("tool_use"@.len() == 8);
    assert("tool_result"@.len() == 11);
    reveal_strlit("]");
    let all = blocks.push(b);
    assert(all.drop_last() =~= blocks);
    assert(block_notes(blocks) =~= Seq::empty());
    let note = block_note(b);
    if note.len() == 0 {
        assert(block_notes(all) =~= Seq::empty());
        assert(transcribed(JsonView::Array(all)) =~= Seq::empty());
        assert(note =~= Seq::empty());
    } else {
        assert(block_notes(all) =~= seq![note]);
    }
}

/// A summary is made from the end of the transcript: all of it where it fits, else as much
/// of its end as fits behind a note, and never less than the smallest bound.
pub proof fn law_a_summary_is_made_from_the_end(messages: Seq<MessageView>, max_context: u64)
    ensures
        ({
            let all = transcript(messages);
            let limit = transcript_limit(max_context);
            let shown = recent_transcript(messages, limit);
            &&& limit >= 4000 && limit >= 3 * max_context
            &&& byte_len(all) <= limit ==> shown == all
            &&& byte_len(all) > limit ==> exists|t: Seq<char>|
                shown == "[earlier turns omitted]\n"@ + t && #[trigger] t.is_suffix_of(all) && byte_len(t) <= limit
        }),
{
    let all = transcript(messages);
    let limit = transcript_limit(max_context);
    lemma_suffix_within(all, limit);
    let t = suffix_within(all, limit);
    assert(t.is_suffix_of(all));
}

proof fn lemma_suffix_within(s: Seq<char>, max: nat)
    ensures
        suffix_within(s, max).is_suffix_of(s),
        byte_len(suffix_within(s, max)) <= max,
    decreases s.len(),
{
    if s.len() == 0 {
        assert(s =~= Seq::<char>::empty());
        assert(vstd::utf8::encode_utf8(s) =~= Seq::<u8>::empty());
        assert(s.subrange(0, 0) =~= s);
    } else if byte_len(s) <= max {
        assert(s.subrange(0, s.len() as int) =~= s);
    } else {
        let rest = s.skip(1);
        lemma_suffix_within(rest, max);
        let t = suffix_within(rest, max);
        assert(s.subrange(s.len() - t.len(), s.len() as int) =~= rest.subrange(rest.len() - t.len(), rest.len() as int));
    }
}

/// What is appended to the system prompt starts with the rendered context, all of it; and
/// an agent that may hand over is told of the transfers.
pub proof fn law_the_context_is_appended_whole(def: AgentDef, rendered: Seq<char>)
    ensures
        rendered.is_prefix_of(suffix_for(def, rendered)),
        def.handoffs@.len() == 0 ==> suffix_for(def, rendered) == rendered,
        def.handoffs@.len() > 0 ==> suffix_for(def, rendered).len() > rendered.len(),
{
    reveal_strlit(
        "When a request is better handled by another agent, call the matching transfer_to_* tool instead of answering it yourself.",
    );
    let s = suffix_for(def, rendered);
    assert(s.subrange(0, rendered.len() as int) =~= rendered);
}

} // verus!
