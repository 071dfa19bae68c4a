//! Flows: orchestration as data.
//!
//! Three shapes cover most multi-agent arrangements:
//!
//! * **Pipeline** — steps in order, each fed the previous output.
//! * **Parallel** — every branch fed the same input.
//! * **Route** — a cheap model classifies the input; one branch runs.
//!
//! Every step is a tool call, under a delegated principal, one nesting level deeper,
//! against the flow's shared budget. A flow is itself a tool, so flows nest.

use crate::app::{ask_outcome, deeper, one_deeper, tool_call, tool_request};
use crate::audit::{AuditEvent, EventView, event_views, flow_finished_event, flow_started_event};
use crate::auth::{Principal, PrincipalView, delegate_view};
use crate::budget::{SharedBudget, reached};
use crate::context::{render, rendered};
use crate::conversation::{Conversation, MessageView, ToolSpec, ToolSpecView, tool_views};
use crate::http::{AskView, PylonRequest, key_list, keys_of};
use crate::json::{
    Json, JsonView, Members, field, json_text, lemma_views_push, member, member_array, member_text, members_view,
    text_array, texts_to_json, views,
};
use crate::ledger::{Ledger, count_json};
use crate::manifest::{AgentDef, Approval, ContextPolicy, FlowDef, FlowKind, FlowStep, Manifest, MergeStrategy, Op, Route, tool_route};
use crate::provider::{
    CallView, CompletionRequest, ProviderResponse, ReplyView, RequestView, member_or_null, or_empty, recover_json,
    recovered, reply_tokens,
};
use crate::run::{maybe_text, put_text, text_value, with_member};
use crate::runtime::{budget_charged, is_gated, ledger_charged, open_question, outcome_view, record, reply_view};
use crate::text::{
    after_prefix, cat2, cat3, cat4, cat5, contains, contains_text, debug_quoted, i64_reading, join, joined, lowered,
    parse_i64, quoted, replace, replaced, same, same_ignoring_case, split, split_on, strip_prefix, texts, trim,
    trim_char, trimmed, unwrapped_by,
};
use vstd::prelude::*;

verus! {

/// The place in a list that a segment of a path names.
pub open spec fn index_reading(segment: Seq<char>) -> Option<int> {
    if segment.len() > 0 && segment[0] == '-' {
        None
    } else {
        i64_reading(segment)
    }
}

/// The part of a value that one segment of a path leads to.
pub open spec fn part_of(v: JsonView, segment: Seq<char>) -> Option<JsonView> {
    match v {
        JsonView::Object(m) => if m.contains_key(segment) {
            Some(m[segment])
        } else {
            None
        },
        JsonView::Array(a) => match index_reading(segment) {
            Some(i) => if 0 <= i < a.len() {
                Some(a[i])
            } else {
                None
            },
            None => None,
        },
        _ => None,
    }
}

/// The part of a value that a path leads to; `null` where it leads nowhere.
pub open spec fn walked(v: JsonView, segments: Seq<Seq<char>>) -> JsonView
    decreases segments.len(),
{
    if segments.len() == 0 {
        v
    } else {
        match part_of(v, segments[0]) {
            Some(part) => walked(part, segments.skip(1)),
            None => JsonView::Null,
        }
    }
}

fn part<'a>(v: &'a Json, segment: &str) -> (r: Option<&'a Json>)
    ensures
        match r {
            Some(x) => part_of(v@, segment@) == Some(x@),
            None => part_of(v@, segment@) is None,
        },
{
    match v {
        Json::Object(m) => m.get(segment),
        Json::Array(a) => {
            proof {
                Json::lemma_array_views(*a);
                reveal_strlit("-");
            }
            if crate::text::starts_with(segment, "-") {
                assert("-"@.is_prefix_of(segment@));
                assert(segment@[0] == "-"@[0]);
                return None;
            }
            proof {
                if segment@.len() > 0 && segment@[0] == '-' {
                    assert(segment@.subrange(0, 1) =~= "-"@);
                }
            }
            match parse_i64(segment) {
                Some(i) => {
                    let len: usize = a.len();
                    if i >= 0 && (i as u64) < (len as u64) {
                        assert(views(a@)[i as int] == a@[i as int]@);
                        Some(&a[i as usize])
                    } else {
                        None
                    }
                },
                None => None,
            }
        },
        _ => None,
    }
}

/// The part of a value that a dotted path leads to; `null` where it leads nowhere.
pub fn walk(v: &Json, path: &str) -> (r: Json)
    ensures
        r@ == walked(v@, split_on(path@, '.')),
{
    let segments = split(path, '.');
    let ghost all = split_on(path@, '.');
    let mut cur = v;
    let mut i: usize = 0;
    assert(all.skip(0) =~= all);
    while i < segments.len()
        invariant
            i <= segments@.len(),
            all == texts(segments@),
            all == split_on(path@, '.'),
            walked(cur@, all.skip(i as int)) == walked(v@, all),
        decreases segments.len() - i,
    {
        assert(all.skip(i as int)[0] == segments@[i as int]@);
        assert(all.skip(i as int).skip(1) =~= all.skip(i + 1));
        match part(cur, segments[i].as_str()) {
            Some(x) => {
                cur = x;
            },
            None => {
                return Json::Null;
            },
        }
        i = i + 1;
    }
    cur.copy()
}

/// What a text of a template stands for: `$` is the incoming value, `$input` the
/// original input, and either may be followed by a dotted path. Everything else is
/// literal.
pub open spec fn resolved_text(s: Seq<char>, incoming: JsonView, original: JsonView) -> JsonView {
    if s == "$"@ {
        incoming
    } else if s == "$input"@ {
        original
    } else {
        match after_prefix(s, "$input."@) {
            Some(path) => walked(original, split_on(path, '.')),
            None => match after_prefix(s, "$."@) {
                Some(path) => walked(incoming, split_on(path, '.')),
                None => JsonView::Str(s),
            },
        }
    }
}

/// What a template stands for.
pub open spec fn resolved(t: JsonView, incoming: JsonView, original: JsonView) -> JsonView
    decreases t,
{
    match t {
        JsonView::Str(s) => resolved_text(s, incoming, original),
        JsonView::Array(items) => JsonView::Array(
            Seq::new(
                items.len(),
                |i: int|
                    if 0 <= i < items.len() {
                        resolved(items[i], incoming, original)
                    } else {
                        JsonView::Null
                    },
            ),
        ),
        JsonView::Object(m) => JsonView::Object(
            Map::new(
                |k: Seq<char>| m.contains_key(k),
                |k: Seq<char>|
                    if m.contains_key(k) {
                        resolved(m[k], incoming, original)
                    } else {
                        JsonView::Null
                    },
            ),
        ),
        other => other,
    }
}

/// What a template stands for.
pub fn resolve_template(t: &Json, incoming: &Json, original: &Json) -> (r: Json)
    ensures
        r@ == resolved(t@, incoming@, original@),
    decreases t,
{
    match t {
        Json::Str(s) => {
            if same(s.as_str(), "$") {
                return incoming.copy();
            }
            if same(s.as_str(), "$input") {
                return original.copy();
            }
            if let Some(path) = strip_prefix(s.as_str(), "$input.") {
                return walk(original, path.as_str());
            }
            if let Some(path) = strip_prefix(s.as_str(), "$.") {
                return walk(incoming, path.as_str());
            }
            Json::Str(s.clone())
        },
        Json::Array(items) => {
            proof {
                Json::lemma_array_views(*items);
            }
            let ghost all = views(items@);
            let mut out: Vec<Json> = Vec::new();
            let mut i: usize = 0;
            while i < items.len()
                invariant
                    i <= items@.len(),
                    *t == Json::Array(*items),
                    out@.len() == i,
                    all == views(items@),
                    forall|k: int| 0 <= k < i ==> (#[trigger] out@[k])@ == resolved(all[k], incoming@, original@),
                decreases items.len() - i,
            {
                proof {
                    assert(decreases_to!(t => t->Array_0));
                    assert(decreases_to!(t->Array_0 => t->Array_0@));
                    assert(decreases_to!(t->Array_0@ => t->Array_0@[i as int]));
                    assert(all[i as int] == items@[i as int]@);
                }
                out.push(resolve_template(&items[i], incoming, original));
                i = i + 1;
            }
            let r = Json::array(out);
            assert(r@->Array_0 =~= resolved(t@, incoming@, original@)->Array_0);
            r
        },
        Json::Object(m) => {
            let mut out = Members::new();
            let mut i: usize = 0;
            let ghost f = |k: Map<Seq<char>, JsonView>| resolved(JsonView::Object(k), incoming@, original@)->Object_0;
            assert(out@ =~= f(members_view(m.list@, 0)));
            while i < m.list.len()
                invariant
                    i <= m.list@.len(),
                    *t == Json::Object(*m),
                    f == (|k: Map<Seq<char>, JsonView>|
                        resolved(JsonView::Object(k), incoming@, original@)->Object_0),
                    out@ == f(members_view(m.list@, i as nat)),
                decreases m.list.len() - i,
            {
                proof {
                    assert(decreases_to!(t => t->Object_0));
                    assert(decreases_to!(t->Object_0 => t->Object_0.list));
                    assert(decreases_to!(t->Object_0.list => t->Object_0.list@));
                    assert(decreases_to!(t->Object_0.list@ => t->Object_0.list@[i as int]));
                    assert(decreases_to!(t->Object_0.list@[i as int] => t->Object_0.list@[i as int].1));
                }
                let v = resolve_template(&m.list[i].1, incoming, original);
                let ghost was = out@;
                out.put(m.list[i].0.as_str(), v);
                proof {
                    let a = members_view(m.list@, i as nat);
                    let b = members_view(m.list@, (i + 1) as nat);
                    assert(b == a.insert(m.list@[i as int].0@, m.list@[i as int].1@));
                    assert(f(b) =~= f(a).insert(m.list@[i as int].0@, v@));
                }
                i = i + 1;
            }
            Json::Object(out)
        },
        other => other.copy(),
    }
}

/// The error of the last step that has one.
pub open spec fn last_error(steps: Seq<JsonView>) -> Option<Seq<char>>
    decreases steps.len(),
{
    if steps.len() == 0 {
        None
    } else {
        match member_text(steps.last(), "error"@) {
            Some(e) => Some(e),
            None => last_error(steps.drop_last()),
        }
    }
}

/// Whether a value is the envelope of an agent's or a flow's outcome.
pub open spec fn is_envelope(v: JsonView) -> bool {
    member(v, "output"@) is Some && (member(v, "run_id"@) is Some || member(v, "flow"@) is Some)
}

/// What is said of a step that waits for a human.
pub open spec fn suspended_text(tool: Seq<char>, v: JsonView) -> Seq<char> {
    let id = match member_text(field(v, "pending_approval"@), "approval_id"@) {
        Some(id) => id,
        None => "?"@,
    };
    "step "@ + debug_quoted(tool) + " suspended on an approval gate (approval "@ + id
        + "); a flow cannot wait for a human, so resume that run directly or keep gated tools out of flow steps"@
}

/// What the next step receives. Agent and flow results are envelopes; the useful part
/// is `output`.
pub open spec fn unwrapped(tool: Seq<char>, v: JsonView) -> Result<JsonView, Seq<char>> {
    if !is_envelope(v) {
        Ok(v)
    } else if member_text(v, "status"@) == Some("awaiting_approval"@) {
        Err(suspended_text(tool, v))
    } else if member_text(v, "status"@) == Some("failed"@) {
        let why = match member_array(v, "steps"@) {
            Some(steps) => or_empty(last_error(steps)),
            None => Seq::empty(),
        };
        Err("step "@ + debug_quoted(tool) + " failed: "@ + why)
    } else {
        Ok(field(v, "output"@))
    }
}

fn find_error(steps: &Vec<Json>) -> (r: String)
    ensures
        r@ == or_empty(last_error(views(steps@))),
{
    let ghost all = views(steps@);
    let mut n: usize = steps.len();
    assert(all.take(n as int) =~= all);
    while n > 0
        invariant
            n <= steps@.len(),
            all == views(steps@),
            last_error(all.take(n as int)) == last_error(all),
        decreases n,
    {
        assert(all.take(n as int).last() == steps@[n - 1]@);
        assert(all.take(n as int).drop_last() =~= all.take(n - 1));
        n = n - 1;
        if let Some(e) = steps[n].get_str("error") {
            return e.to_owned();
        }
    }
    let r = String::new();
    assert(r@ =~= Seq::<char>::empty());
    r
}

fn status_is(v: &Json, status: &str) -> (r: bool)
    ensures
        r == (member_text(v@, "status"@) == Some(status@)),
{
    match v.get_str("status") {
        Some(s) => same(s, status),
        None => false,
    }
}

/// What the next step receives. Agent and flow results are envelopes; the useful part
/// is `output`.
pub fn unwrap_output(tool: &str, v: Json) -> (r: Result<Json, String>)
    ensures
        outcome_view(r) == unwrapped(tool@, v@),
{
    let envelope = v.get("output").is_some() && (v.get("run_id").is_some() || v.get("flow").is_some());
    if !envelope {
        return Ok(v);
    }
    if status_is(&v, "awaiting_approval") {
        let pending = member_or_null(&v, "pending_approval");
        let id = match pending.get_str("approval_id") {
            Some(id) => id,
            None => "?",
        };
        return Err(
            cat5(
                "step ",
                quoted(tool).as_str(),
                " suspended on an approval gate (approval ",
                id,
                "); a flow cannot wait for a human, so resume that run directly or keep gated tools out of flow steps",
            ),
        );
    }
    if status_is(&v, "failed") {
        let why = match v.get_array("steps") {
            Some(steps) => find_error(steps),
            None => String::new(),
        };
        assert(member_array(v@, "steps"@) is None ==> why@ =~= Seq::empty());
        return Err(cat4("step ", quoted(tool).as_str(), " failed: ", why.as_str()));
    }
    Ok(member_or_null(&v, "output"))
}

/// Whether a tool is an agent.
pub open spec fn is_agent_tool(routes: Seq<Route>, tool: Seq<char>) -> bool {
    tool_route(routes, tool) matches Some(r) && r.op is Agent
}

/// An object whose only member is `input`.
pub open spec fn input_object(v: JsonView) -> JsonView {
    JsonView::Object(Map::empty().insert("input"@, v))
}

/// What a step is called with: its template resolved, or the incoming value passed
/// through, wrapped as `{"input": …}` where it does not fit the target.
pub open spec fn step_args(routes: Seq<Route>, step: FlowStep, incoming: JsonView, original: JsonView) -> JsonView {
    match step.input {
        Some(template) => resolved(template@, incoming, original),
        None => if is_agent_tool(routes, step.tool@) {
            match incoming {
                JsonView::Object(m) => if m.contains_key("input"@) {
                    incoming
                } else {
                    input_object(JsonView::Str(json_text(incoming)))
                },
                JsonView::Str(s) => input_object(JsonView::Str(s)),
                other => input_object(JsonView::Str(json_text(other))),
            }
        } else {
            match incoming {
                JsonView::Object(_) => incoming,
                other => input_object(other),
            }
        },
    }
}

fn wrap_input(v: Json) -> (r: Json)
    ensures
        r@ == input_object(v@),
{
    let mut m = Members::new();
    m.put("input", v);
    Json::Object(m)
}

/// What a step is called with.
pub fn build_args(manifest: &Manifest, step: &FlowStep, incoming: &Json, original: &Json) -> (r: Json)
    ensures
        r@ == step_args(manifest.routes@, *step, incoming@, original@),
{
    if let Some(template) = &step.input {
        return resolve_template(template, incoming, original);
    }
    let agent = match manifest.route_for_tool(step.tool.as_str()) {
        Some(r) => matches!(&r.op, Op::Agent { .. }),
        None => false,
    };
    if agent {
        match incoming {
            Json::Object(m) => if m.get("input").is_some() {
                incoming.copy()
            } else {
                wrap_input(Json::Str(incoming.to_text()))
            },
            Json::Str(s) => wrap_input(Json::Str(s.clone())),
            other => wrap_input(Json::Str(other.to_text())),
        }
    } else {
        match incoming {
            Json::Object(_) => incoming.copy(),
            other => wrap_input(other.copy()),
        }
    }
}

/// Whether an object has one member, of a name.
pub open spec fn only_member(m: Map<Seq<char>, JsonView>, name: Seq<char>) -> bool {
    m.contains_key(name) && forall|k: Seq<char>| #[trigger] m.contains_key(k) ==> k == name
}

/// What a classifier is shown of an input.
pub open spec fn shown_input(input: JsonView) -> Seq<char> {
    match input {
        JsonView::Str(s) => s,
        JsonView::Object(m) => if only_member(m, "input"@) {
            rendered(m["input"@])
        } else {
            rendered(input)
        },
        other => rendered(other),
    }
}

/// What a classifier is asked.
pub open spec fn classify_question(labels: Seq<Seq<char>>, prompt: Option<Seq<char>>, input: JsonView) -> Seq<char> {
    let listed = joined(labels, ", "@);
    let shown = shown_input(input);
    match prompt {
        Some(p) => {
            let q = replaced(p, "{labels}"@, listed);
            if contains_text(q, "{input}"@) {
                replaced(q, "{input}"@, shown)
            } else {
                q + "\n\nInput:\n"@ + shown
            }
        },
        None => "Classify the input into exactly one of these labels: "@ + listed + ".\n\nInput:\n"@ + shown,
    }
}

/// The schema of the tool that a classifier answers with.
pub open spec fn choice_schema(labels: Seq<Seq<char>>) -> JsonView {
    JsonView::Object(
        Map::empty().insert("type"@, JsonView::Str("object"@)).insert(
            "properties"@,
            JsonView::Object(
                Map::empty().insert(
                    "label"@,
                    JsonView::Object(
                        Map::empty().insert("type"@, JsonView::Str("string"@)).insert("enum"@, text_array(labels)),
                    ),
                ),
            ),
        ).insert("required"@, text_array(seq!["label"@])),
    )
}

/// A question for a classifier, which is forced to call its only tool, `choose`.
#[derive(Debug)]
pub struct Classification {
    pub agent: AgentDef,
    pub conversation: Conversation,
    pub tools: Vec<ToolSpec>,
}

impl Classification {
    /// The request that asks it.
    pub fn request(&self) -> (r: CompletionRequest<'_>)
        ensures
            r@ == (RequestView {
                force_tool: Some("choose"@),
                ..open_question(self.agent, self.conversation@, tool_views(self.tools@), ""@)
            }),
    {
        CompletionRequest {
            agent: &self.agent,
            conversation: &self.conversation,
            tools: self.tools.as_slice(),
            force_tool: Some("choose"),
            system_suffix: "",
        }
    }
}

/// Whether a classification is the one that a flow asks for.
pub open spec fn is_classification(
    c: Classification,
    flow: Seq<char>,
    labels: Seq<Seq<char>>,
    model: Option<Seq<char>>,
    prompt: Option<Seq<char>>,
    input: JsonView,
) -> bool {
    &&& c.agent.name@ == flow + ":route"@
    &&& c.agent.description@.len() == 0
    &&& c.agent.model@ == (match model {
        Some(m) => m,
        None => "fast"@,
    })
    &&& c.agent.system@
        == "You are a router. Read the input and choose exactly one label by calling the choose tool."@
    &&& c.agent.tools@.len() == 0
    &&& c.agent.max_steps == Some(1u32)
    &&& c.agent.token_budget is None
    &&& c.agent.scopes@.len() == 0
    &&& c.agent.temperature is None
    &&& c.agent.max_tokens == 256
    &&& c.agent.handoffs@.len() == 0
    &&& c.agent.context@.len() == 0
    &&& !c.agent.cache
    &&& crate::manifest::is_default_policy(c.agent.policy)
    &&& c.conversation@ == seq![
        MessageView { role: "user"@, content: JsonView::Str(classify_question(labels, prompt, input)) },
    ]
    &&& tool_views(c.tools@) == seq![
        ToolSpecView {
            name: "choose"@,
            description: "Choose the single best label for the input."@,
            input_schema: choice_schema(labels),
        },
    ]
}

fn has_only(m: &Members, name: &str) -> (r: bool)
    ensures
        r == only_member(m@, name@),
{
    let mut i: usize = 0;
    while i < m.list.len()
        invariant
            i <= m.list@.len(),
            forall|k: Seq<char>| #[trigger] members_view(m.list@, i as nat).contains_key(k) ==> k == name@,
            i > 0 ==> members_view(m.list@, i as nat).contains_key(name@),
        decreases m.list.len() - i,
    {
        if !same(m.list[i].0.as_str(), name) {
            proof {
                lemma_members_stay(m.list@, (i + 1) as nat, m.list@.len(), m.list@[i as int].0@);
            }
            return false;
        }
        proof {
            let a = members_view(m.list@, i as nat);
            let b = members_view(m.list@, (i + 1) as nat);
            assert(b == a.insert(m.list@[i as int].0@, m.list@[i as int].1@));
            assert forall|k: Seq<char>| #[trigger] b.contains_key(k) implies k == name@ by {
                if k != m.list@[i as int].0@ {
                    assert(a.contains_key(k));
                }
            }
        }
        i = i + 1;
    }
    m.list.len() > 0
}

proof fn lemma_members_stay(list: Seq<(String, Json)>, n: nat, to: nat, name: Seq<char>)
    requires
        n <= to <= list.len(),
        members_view(list, n).contains_key(name),
    ensures
        members_view(list, to).contains_key(name),
    decreases to - n,
{
    if n < to {
        lemma_members_stay(list, n, (to - 1) as nat, name);
    }
}

fn show_input(input: &Json) -> (r: String)
    ensures
        r@ == shown_input(input@),
{
    match input {
        Json::Str(s) => s.clone(),
        Json::Object(m) => {
            if has_only(m, "input") {
                if let Some(v) = m.get("input") {
                    return render(v);
                }
            }
            render(input)
        },
        other => render(other),
    }
}

fn ask_label(labels: &Vec<String>, prompt: Option<&str>, input: &Json) -> (r: String)
    ensures
        r@ == classify_question(texts(labels@), crate::provider::maybe_str(prompt), input@),
{
    let listed = join(labels, ", ");
    let shown = show_input(input);
    match prompt {
        Some(p) => {
            proof {
                reveal_strlit("{labels}");
                reveal_strlit("{input}");
            }
            let q = replace(p, "{labels}", listed.as_str());
            if contains(q.as_str(), "{input}") {
                replace(q.as_str(), "{input}", shown.as_str())
            } else {
                cat3(q.as_str(), "\n\nInput:\n", shown.as_str())
            }
        },
        None => cat4(
            "Classify the input into exactly one of these labels: ",
            listed.as_str(),
            ".\n\nInput:\n",
            shown.as_str(),
        ),
    }
}

fn choice_schema_json(labels: &Vec<String>) -> (r: Json)
    ensures
        r@ == choice_schema(texts(labels@)),
{
    let mut label = Members::new();
    label.put("type", Json::str("string"));
    label.put("enum", texts_to_json(labels));
    let mut properties = Members::new();
    properties.put("label", Json::Object(label));
    let mut required: Vec<String> = Vec::new();
    required.push("label".to_owned());
    assert(texts(required@) =~= seq!["label"@]);
    let mut m = Members::new();
    m.put("type", Json::str("object"));
    m.put("properties", Json::Object(properties));
    m.put("required", texts_to_json(&required));
    Json::Object(m)
}

/// The question that sorts an input into one of some labels.
pub fn classification(
    flow: &str,
    labels: &Vec<String>,
    model: Option<&str>,
    prompt: Option<&str>,
    input: &Json,
) -> (r: Classification)
    ensures
        is_classification(
            r,
            flow@,
            texts(labels@),
            crate::provider::maybe_str(model),
            crate::provider::maybe_str(prompt),
            input@,
        ),
{
    let question = ask_label(labels, prompt, input);
    let agent = AgentDef {
        name: cat2(flow, ":route"),
        description: String::new(),
        model: match model {
            Some(m) => m.to_owned(),
            None => "fast".to_owned(),
        },
        system: "You are a router. Read the input and choose exactly one label by calling the choose tool.".to_owned(),
        tools: Vec::new(),
        max_steps: Some(1),
        token_budget: None,
        scopes: Vec::new(),
        temperature: None,
        max_tokens: 256,
        handoffs: Vec::new(),
        context: Vec::new(),
        cache: false,
        policy: ContextPolicy::default(),
    };
    let mut conversation = Conversation::default();
    let ghost asked = question@;
    conversation.say("user", Json::Str(question));
    assert(conversation@ =~= seq![MessageView { role: "user"@, content: JsonView::Str(asked) }]);
    let mut tools: Vec<ToolSpec> = Vec::new();
    tools.push(
        ToolSpec {
            name: "choose".to_owned(),
            description: "Choose the single best label for the input.".to_owned(),
            input_schema: choice_schema_json(labels),
        },
    );
    assert(tool_views(tools@) =~= seq![
        ToolSpecView {
            name: "choose"@,
            description: "Choose the single best label for the input."@,
            input_schema: choice_schema(texts(labels@)),
        },
    ]);
    Classification { agent, conversation, tools }
}

/// The first call of a tool.
pub open spec fn first_call(calls: Seq<CallView>, name: Seq<char>) -> Option<CallView>
    decreases calls.len(),
{
    if calls.len() == 0 {
        None
    } else if calls[0].name == name {
        Some(calls[0])
    } else {
        first_call(calls.skip(1), name)
    }
}

/// The first label that is another, whatever the case.
pub open spec fn matching_label(labels: Seq<Seq<char>>, said: Seq<char>) -> Option<Seq<char>>
    decreases labels.len(),
{
    if labels.len() == 0 {
        None
    } else if lowered(labels[0]) == lowered(said) {
        Some(labels[0])
    } else {
        matching_label(labels.skip(1), said)
    }
}

/// The label that a classifier's reply chooses: by calling the tool, else in JSON, else
/// as its whole text.
pub open spec fn chosen_label(labels: Seq<Seq<char>>, r: ReplyView) -> Option<Seq<char>> {
    let called = match first_call(r.tool_calls, "choose"@) {
        Some(c) => member_text(c.arguments, "label"@),
        None => None,
    };
    let written = match recovered(r.text) {
        Some(v) => member_text(v, "label"@),
        None => None,
    };
    match called {
        Some(l) => Some(l),
        None => match written {
            Some(l) => Some(l),
            None => matching_label(labels, unwrapped_by(trimmed(r.text), '"')),
        },
    }
}

/// The label that a classifier's reply stands for, spelled as it is declared where it
/// matches one; what the model said otherwise, so that the flow can fall through to its
/// default route.
pub open spec fn label_of(flow: Seq<char>, labels: Seq<Seq<char>>, r: ReplyView) -> Result<Seq<char>, Seq<char>> {
    match chosen_label(labels, r) {
        Some(said) => Ok(
            match matching_label(labels, said) {
                Some(l) => l,
                None => said,
            },
        ),
        None => Err(
            "flow "@ + debug_quoted(flow) + ": the classifier did not choose a label (it said: "@ + debug_quoted(
                r.text,
            ) + ")"@,
        ),
    }
}

fn match_label(labels: &Vec<String>, said: &str) -> (r: Option<String>)
    ensures
        maybe_text(r) == matching_label(texts(labels@), said@),
{
    let ghost all = texts(labels@);
    let mut i: usize = 0;
    assert(all.skip(0) =~= all);
    while i < labels.len()
        invariant
            i <= labels@.len(),
            all == texts(labels@),
            matching_label(all.skip(i as int), said@) == matching_label(all, said@),
        decreases labels.len() - i,
    {
        assert(all.skip(i as int)[0] == labels@[i as int]@);
        assert(all.skip(i as int).skip(1) =~= all.skip(i + 1));
        if same_ignoring_case(labels[i].as_str(), said) {
            return Some(labels[i].clone());
        }
        i = i + 1;
    }
    None
}

fn read_choice(r: &ProviderResponse) -> (s: Option<String>)
    ensures
        maybe_text(s) == (match first_call(r@.tool_calls, "choose"@) {
            Some(c) => member_text(c.arguments, "label"@),
            None => None,
        }),
{
    let ghost all = r@.tool_calls;
    let mut i: usize = 0;
    assert(all.skip(0) =~= all);
    while i < r.tool_calls.len()
        invariant
            i <= r.tool_calls@.len(),
            all == r@.tool_calls,
            first_call(all.skip(i as int), "choose"@) == first_call(all, "choose"@),
        decreases r.tool_calls.len() - i,
    {
        assert(all.skip(i as int)[0] == r.tool_calls@[i as int]@);
        assert(all.skip(i as int).skip(1) =~= all.skip(i + 1));
        if same(r.tool_calls[i].name.as_str(), "choose") {
            return match r.tool_calls[i].arguments.get_str("label") {
                Some(l) => Some(l.to_owned()),
                None => None,
            };
        }
        i = i + 1;
    }
    None
}

/// The label that a classifier's reply stands for.
pub fn read_label(flow: &str, labels: &Vec<String>, r: &ProviderResponse) -> (s: Result<String, String>)
    ensures
        crate::runtime::text_outcome(s) == label_of(flow@, texts(labels@), r@),
{
    let mut said = read_choice(r);
    if said.is_none() {
        if let Some(v) = recover_json(r.text.as_str()) {
            if let Some(l) = v.get_str("label") {
                said = Some(l.to_owned());
            }
        }
    }
    if said.is_none() {
        let whole = trim_char(trim(r.text.as_str()).as_str(), '"');
        said = match_label(labels, whole.as_str());
    }
    assert(maybe_text(said) == chosen_label(texts(labels@), r@));
    match said {
        Some(l) => match match_label(labels, l.as_str()) {
            Some(m) => Ok(m),
            None => Ok(l),
        },
        None => Err(
            cat5(
                "flow ",
                quoted(flow).as_str(),
                ": the classifier did not choose a label (it said: ",
                quoted(r.text.as_str()).as_str(),
                ")",
            ),
        ),
    }
}

/// What a flow did in one step.
#[derive(Debug)]
pub struct StepRecord {
    pub tool: String,
    pub duration_ms: u64,
    pub ok: bool,
    pub error: Option<String>,
    pub label: Option<String>,
}

/// What a [`StepRecord`] says.
#[verifier::ext_equal]
pub struct RecordView {
    pub tool: Seq<char>,
    pub duration_ms: u64,
    pub ok: bool,
    pub error: Option<Seq<char>>,
    pub label: Option<Seq<char>>,
}

impl View for StepRecord {
    type V = RecordView;

    open spec fn view(&self) -> RecordView {
        RecordView {
            tool: self.tool@,
            duration_ms: self.duration_ms,
            ok: self.ok,
            error: maybe_text(self.error),
            label: maybe_text(self.label),
        }
    }
}

/// What a list of records says.
pub open spec fn record_views(list: Seq<StepRecord>) -> Seq<RecordView> {
    list.map_values(|r: StepRecord| r@)
}

proof fn lemma_record_push(list: Seq<StepRecord>, r: StepRecord)
    ensures
        record_views(list.push(r)) == record_views(list).push(r@),
{
    assert(record_views(list.push(r)) =~= record_views(list).push(r@));
}

/// A record as JSON, without what is absent.
pub open spec fn record_json(r: RecordView) -> JsonView {
    let m = Map::empty().insert("tool"@, JsonView::Str(r.tool)).insert("duration_ms"@, count_json(r.duration_ms)).insert(
        "ok"@,
        JsonView::Bool(r.ok),
    );
    let m = with_member(m, "error"@, text_value(r.error));
    JsonView::Object(with_member(m, "label"@, text_value(r.label)))
}

impl StepRecord {
    pub fn to_json(&self) -> (r: Json)
        ensures
            r@ == record_json(self@),
    {
        let mut m = Members::new();
        m.put("tool", Json::str(self.tool.as_str()));
        m.put("duration_ms", Json::num(self.duration_ms));
        m.put("ok", Json::Bool(self.ok));
        put_text(&mut m, "error", &self.error);
        put_text(&mut m, "label", &self.label);
        Json::Object(m)
    }
}

/// The record of a step's outcome.
pub open spec fn step_record(tool: Seq<char>, outcome: Result<JsonView, Seq<char>>, duration_ms: u64) -> RecordView {
    RecordView {
        tool,
        duration_ms,
        ok: outcome is Ok,
        error: match outcome {
            Ok(_) => None,
            Err(e) => Some(e),
        },
        label: None,
    }
}

/// What a step gives, once its envelope is opened.
pub open spec fn step_outcome(tool: Seq<char>, outcome: Result<JsonView, Seq<char>>) -> Result<JsonView, Seq<char>> {
    match outcome {
        Ok(v) => unwrapped(tool, v),
        Err(e) => Err(e),
    }
}

/// How a flow that did not fail ended.
#[derive(Debug, Clone, Copy, PartialEq, Eq, Structural)]
pub enum FlowStatus {
    Completed,
    BudgetExhausted,
}

impl FlowStatus {
    pub open spec fn text(&self) -> Seq<char> {
        match self {
            FlowStatus::Completed => "completed"@,
            FlowStatus::BudgetExhausted => "budget_exhausted"@,
        }
    }

    pub fn as_str(&self) -> (r: &'static str)
        ensures
            r@ == self.text(),
    {
        match self {
            FlowStatus::Completed => "completed",
            FlowStatus::BudgetExhausted => "budget_exhausted",
        }
    }
}

/// What whoever drives a flow is to do next.
#[derive(Debug)]
pub enum FlowAction<'a> {
    /// A step is to be called with arguments, and its outcome handed to
    /// [`FlowRun::called`].
    Call { step: &'a FlowStep, args: Json },
    /// Every branch is to be called with arguments, in any order, and the outcomes
    /// handed to [`FlowRun::called_all`] in the order of the branches.
    CallAll { each: Vec<Json> },
    /// The input is to be classified, and the reply handed to
    /// [`FlowRun::classified`].
    Classify(Classification),
    /// The flow is over: [`FlowRun::finish`].
    Finish(FlowStatus),
    /// The flow has failed.
    Fail(String),
}

/// A run of a flow.
#[derive(Debug)]
pub struct FlowRun<'a> {
    pub def: &'a FlowDef,
    pub manifest: &'a Manifest,
    pub run_id: String,
    pub actor: Principal,
    /// The flow's nesting level; its steps are called one level deeper.
    pub depth: u32,
    pub input: Json,
    /// What the last step gave.
    pub value: Json,
    /// The steps of a pipeline that are behind.
    pub at: usize,
    /// The label that the input was sorted under.
    pub label: Option<String>,
    pub records: Vec<StepRecord>,
}

/// What a [`FlowRun`] holds besides its definition.
#[verifier::ext_equal]
pub struct FlowView {
    pub run_id: Seq<char>,
    pub actor: PrincipalView,
    pub depth: u32,
    pub input: JsonView,
    pub value: JsonView,
    pub at: nat,
    pub label: Option<Seq<char>>,
    pub records: Seq<RecordView>,
}

impl<'a> View for FlowRun<'a> {
    type V = FlowView;

    open spec fn view(&self) -> FlowView {
        FlowView {
            run_id: self.run_id@,
            actor: self.actor@,
            depth: self.depth,
            input: self.input@,
            value: self.value@,
            at: self.at as nat,
            label: maybe_text(self.label),
            records: record_views(self.records@),
        }
    }
}

/// The labels that a flow sorts inputs under.
pub open spec fn labels_of(def: FlowDef) -> Seq<Seq<char>> {
    match def.kind {
        FlowKind::Route { routes, .. } => key_list(routes.pairs()),
        _ => Seq::empty(),
    }
}

/// The step that a label leads to.
pub open spec fn routed_step(def: FlowDef, label: Seq<char>) -> Option<FlowStep> {
    match def.kind {
        FlowKind::Route { routes, default, .. } => if routes@.contains_key(label) {
            Some(routes@[label])
        } else {
            default
        },
        _ => None,
    }
}

/// The step at hand: the next of a pipeline, or the one that the label leads to.
pub open spec fn step_at_hand(def: FlowDef, v: FlowView) -> Option<FlowStep> {
    match def.kind {
        FlowKind::Pipeline { steps } => if v.at < steps@.len() {
            Some(steps@[v.at as int])
        } else {
            None
        },
        FlowKind::Parallel { .. } => None,
        FlowKind::Route { .. } => match v.label {
            Some(l) => routed_step(def, l),
            None => None,
        },
    }
}

/// The request that a step of a flow is, or why there is none. A gate stops a flow just as
/// it stops an agent, and a flow cannot wait.
pub open spec fn step_call(
    routes: Seq<Route>,
    tool: Seq<char>,
    args: JsonView,
    actor: PrincipalView,
    depth: u32,
) -> Result<AskView, Seq<char>> {
    if is_gated(routes, tool) {
        Err("tool "@ + debug_quoted(tool) + " requires human approval and cannot run unattended inside a flow"@)
    } else {
        tool_call(routes, tool, args, actor, deeper(depth))
    }
}

/// Whether an action is to call a step with what it is owed.
pub open spec fn calls_step(a: FlowAction, def: FlowDef, routes: Seq<Route>, v: FlowView) -> bool {
    &&& a matches FlowAction::Call { step, args }
    &&& step_at_hand(def, v) == Some(*step)
    &&& args@ == step_args(routes, *step, v.value, v.input)
}

/// Whether an action is the first of a flow.
pub open spec fn is_first_action(a: FlowAction, def: FlowDef, routes: Seq<Route>, v: FlowView) -> bool {
    match def.kind {
        FlowKind::Pipeline { steps } => if steps@.len() == 0 {
            a == FlowAction::Finish(FlowStatus::Completed)
        } else {
            calls_step(a, def, routes, v)
        },
        FlowKind::Parallel { branches, .. } => a matches FlowAction::CallAll { each } && views(each@)
            == branches@.map_values(|b: FlowStep| step_args(routes, b, v.input, v.input)),
        FlowKind::Route { classify_with, classify_prompt, .. } => a matches FlowAction::Classify(c)
            && is_classification(
            c,
            def.name@,
            labels_of(def),
            maybe_text(classify_with),
            maybe_text(classify_prompt),
            v.input,
        ),
    }
}

/// A flow that starts.
pub open spec fn fresh_flow(
    def: FlowDef,
    run_id: Seq<char>,
    caller: PrincipalView,
    depth: u32,
    input: JsonView,
) -> FlowView {
    FlowView {
        run_id,
        actor: delegate_view(caller, def.name@, texts(def.scopes@)),
        depth,
        input,
        value: input,
        at: 0,
        label: None,
        records: Seq::empty(),
    }
}

/// A flow once the step at hand gave something.
pub open spec fn after_step(
    v: FlowView,
    def: FlowDef,
    tool: Seq<char>,
    outcome: Result<JsonView, Seq<char>>,
    duration_ms: u64,
) -> FlowView {
    let given = step_outcome(tool, outcome);
    let records = v.records.push(step_record(tool, given, duration_ms));
    match given {
        Ok(value) => FlowView {
            value,
            at: if def.kind is Pipeline {
                v.at + 1
            } else {
                v.at
            },
            records,
            ..v
        },
        Err(_) => FlowView { records, ..v },
    }
}

/// The event of a flow that failed.
pub open spec fn flow_failed(v: FlowView, def: FlowDef, tree: u64) -> EventView {
    flow_finished_event(v.run_id, def.name@, "failed"@, tree)
}

fn text_ref(s: &Option<String>) -> (r: Option<&str>)
    ensures
        crate::provider::maybe_str(r) == maybe_text(*s),
{
    match s {
        Some(t) => Some(t.as_str()),
        None => None,
    }
}

impl<'a> FlowRun<'a> {
    /// Starts a flow on behalf of a caller.
    pub fn start(
        def: &'a FlowDef,
        manifest: &'a Manifest,
        run_id: String,
        caller: &Principal,
        depth: u32,
        input: Json,
        trail: &mut Vec<AuditEvent>,
    ) -> (r: FlowRun<'a>)
        ensures
            r.def == def,
            r.manifest == manifest,
            r@ == fresh_flow(*def, run_id@, caller@, depth, input@),
            event_views(final(trail)@) == event_views(old(trail)@).push(
                flow_started_event(run_id@, def.name@, r@.actor),
            ),
    {
        let actor = caller.delegate_to_agent(def.name.as_str(), &def.scopes);
        let event = AuditEvent::flow_started(run_id.as_str(), def.name.as_str(), &actor);
        record(trail, event);
        let value = input.copy();
        let r = FlowRun { def, manifest, run_id, actor, depth, input, value, at: 0, label: None, records: Vec::new() };
        assert(r@.records =~= Seq::empty());
        r
    }

    /// The request that a step is: made under the flow's own authority, one level deeper
    /// than the flow. It is to be dispatched like any other. Where there is no such
    /// request, that is the step's outcome.
    pub fn step_request(&self, step: &FlowStep, args: &Json) -> (r: Result<PylonRequest, String>)
        ensures
            ask_outcome(r) == step_call(self.manifest.routes@, step.tool@, args@, self@.actor, self.depth),
    {
        if let Some(route) = self.manifest.route_for_tool(step.tool.as_str()) {
            if let Approval::Required = route.approval {
                return Err(
                    cat3(
                        "tool ",
                        quoted(step.tool.as_str()).as_str(),
                        " requires human approval and cannot run unattended inside a flow",
                    ),
                );
            }
        }
        tool_request(self.manifest, step.tool.as_str(), args, &self.actor, one_deeper(self.depth))
    }

    /// What is done first.
    pub fn first(&self) -> (r: FlowAction<'a>)
        requires
            self.at == 0,
        ensures
            is_first_action(r, *self.def, self.manifest.routes@, self@),
    {
        let def: &'a FlowDef = self.def;
        match &def.kind {
            FlowKind::Pipeline { steps } => {
                if steps.len() == 0 {
                    return FlowAction::Finish(FlowStatus::Completed);
                }
                let step = &steps[0];
                FlowAction::Call { step, args: build_args(self.manifest, step, &self.value, &self.input) }
            },
            FlowKind::Parallel { branches, .. } => {
                let mut args: Vec<Json> = Vec::new();
                let ghost routes = self.manifest.routes@;
                let mut i: usize = 0;
                while i < branches.len()
                    invariant
                        i <= branches@.len(),
                        args@.len() == i,
                        routes == self.manifest.routes@,
                        forall|k: int|
                            0 <= k < i ==> (#[trigger] args@[k])@ == step_args(
                                routes,
                                branches@[k],
                                self.input@,
                                self.input@,
                            ),
                    decreases branches.len() - i,
                {
                    args.push(build_args(self.manifest, &branches[i], &self.input, &self.input));
                    i = i + 1;
                }
                assert(views(args@) =~= branches@.map_values(
                    |b: FlowStep| step_args(routes, b, self.input@, self.input@),
                ));
                FlowAction::CallAll { each: args }
            },
            FlowKind::Route { routes, classify_with, classify_prompt, .. } => {
                let labels = keys_of(routes);
                FlowAction::Classify(
                    classification(
                        def.name.as_str(),
                        &labels,
                        text_ref(classify_with),
                        text_ref(classify_prompt),
                        &self.input,
                    ),
                )
            },
        }
    }

    fn keep(&mut self, r: StepRecord)
        ensures
            final(self).def == old(self).def,
            final(self).manifest == old(self).manifest,
            final(self)@ == (FlowView { records: old(self)@.records.push(r@), ..old(self)@ }),
    {
        proof {
            lemma_record_push(self.records@, r);
        }
        self.records.push(r);
    }

    fn fail(&self, error: String, budget: &SharedBudget, trail: &mut Vec<AuditEvent>) -> (r: FlowAction<'a>)
        ensures
            r matches FlowAction::Fail(e) && e@ == error@,
            event_views(final(trail)@) == event_views(old(trail)@).push(
                flow_failed(self@, *self.def, budget.spent),
            ),
    {
        let event = AuditEvent::flow_finished(
            self.run_id.as_str(),
            self.def.name.as_str(),
            "failed",
            budget.used(),
        );
        record(trail, event);
        FlowAction::Fail(error)
    }

    /// Takes the outcome of the step at hand.
    pub fn called(
        &mut self,
        outcome: Result<Json, String>,
        duration_ms: u64,
        budget: &SharedBudget,
        trail: &mut Vec<AuditEvent>,
    ) -> (r: FlowAction<'a>)
        requires
            step_at_hand(*old(self).def, old(self)@) is Some,
        ensures
            final(self).def == old(self).def,
            final(self).manifest == old(self).manifest,
            ({
                let def = *old(self).def;
                let tool = step_at_hand(def, old(self)@)->0.tool@;
                let given = step_outcome(tool, outcome_view(outcome));
                let v = after_step(old(self)@, def, tool, outcome_view(outcome), duration_ms);
                &&& final(self)@ == v
                &&& match (def.kind, given) {
                    (FlowKind::Pipeline { .. }, Err(e)) => r matches FlowAction::Fail(f) && f@ == e && event_views(
                        final(trail)@,
                    ) == event_views(old(trail)@),
                    (FlowKind::Pipeline { steps }, Ok(_)) => event_views(final(trail)@) == event_views(old(trail)@)
                        && if reached(budget.max_tokens, budget.spent) {
                        r == FlowAction::Finish(FlowStatus::BudgetExhausted)
                    } else if v.at >= steps@.len() {
                        r == FlowAction::Finish(FlowStatus::Completed)
                    } else {
                        calls_step(r, def, old(self).manifest.routes@, v)
                    },
                    (_, Err(e)) => r matches FlowAction::Fail(f) && f@ == e && event_views(final(trail)@)
                        == event_views(old(trail)@).push(flow_failed(old(self)@, def, budget.spent)),
                    (_, Ok(_)) => r == FlowAction::Finish(FlowStatus::Completed) && event_views(final(trail)@)
                        == event_views(old(trail)@),
                }
            }),
    {
        let def: &'a FlowDef = self.def;
        let step: &'a FlowStep = match &def.kind {
            FlowKind::Pipeline { steps } => &steps[self.at],
            FlowKind::Parallel { .. } => vstd::pervasive::unreached(),
            FlowKind::Route { routes, default, .. } => {
                let label = match &self.label {
                    Some(l) => l.as_str(),
                    None => vstd::pervasive::unreached(),
                };
                match routes.get(label) {
                    Some(s) => s,
                    None => match default {
                        Some(s) => s,
                        None => vstd::pervasive::unreached(),
                    },
                }
            },
        };
        assert(step_at_hand(*def, self@) == Some(*step));
        let ghost was = self@;
        let ghost raw = outcome_view(outcome);
        let given = match outcome {
            Ok(v) => unwrap_output(step.tool.as_str(), v),
            Err(e) => Err(e),
        };
        assert(outcome_view(given) == step_outcome(step.tool@, raw));
        let pipeline = matches!(&def.kind, FlowKind::Pipeline { .. });
        match given {
            Err(e) => {
                self.keep(
                    StepRecord {
                        tool: step.tool.clone(),
                        duration_ms,
                        ok: false,
                        error: Some(e.clone()),
                        label: None,
                    },
                );
                assert(self@ =~= after_step(was, *def, step.tool@, raw, duration_ms));
                if pipeline {
                    FlowAction::Fail(e)
                } else {
                    self.fail(e, budget, trail)
                }
            },
            Ok(v) => {
                self.keep(
                    StepRecord { tool: step.tool.clone(), duration_ms, ok: true, error: None, label: None },
                );
                self.value = v;
                match &def.kind {
                    FlowKind::Pipeline { steps } => {
                        let len: usize = steps.len();
                        self.at = self.at + 1;
                        assert(self@ =~= after_step(was, *def, step.tool@, raw, duration_ms));
                        if budget.exhausted() {
                            FlowAction::Finish(FlowStatus::BudgetExhausted)
                        } else if self.at >= len {
                            FlowAction::Finish(FlowStatus::Completed)
                        } else {
                            let next = &steps[self.at];
                            FlowAction::Call {
                                step: next,
                                args: build_args(self.manifest, next, &self.value, &self.input),
                            }
                        }
                    },
                    _ => {
                        assert(self@ =~= after_step(was, *def, step.tool@, raw, duration_ms));
                        FlowAction::Finish(FlowStatus::Completed)
                    },
                }
            },
        }
    }
}

/// What branches came to, and how long each took.
pub open spec fn outcome_views(list: Seq<(Result<Json, String>, u64)>) -> Seq<(Result<JsonView, Seq<char>>, u64)> {
    list.map_values(|o: (Result<Json, String>, u64)| (outcome_view(o.0), o.1))
}

/// What branches give, once their envelopes are opened.
pub open spec fn branch_outcomes(
    branches: Seq<FlowStep>,
    outcomes: Seq<(Result<JsonView, Seq<char>>, u64)>,
) -> Seq<Result<JsonView, Seq<char>>> {
    Seq::new(outcomes.len(), |i: int| step_outcome(branches[i].tool@, outcomes[i].0))
}

/// The records of branches.
pub open spec fn branch_records(
    branches: Seq<FlowStep>,
    outcomes: Seq<(Result<JsonView, Seq<char>>, u64)>,
) -> Seq<RecordView> {
    Seq::new(
        outcomes.len(),
        |i: int| step_record(branches[i].tool@, step_outcome(branches[i].tool@, outcomes[i].0), outcomes[i].1),
    )
}

/// The first error of some outcomes.
pub open spec fn first_error(outcomes: Seq<Result<JsonView, Seq<char>>>) -> Option<Seq<char>>
    decreases outcomes.len(),
{
    if outcomes.len() == 0 {
        None
    } else {
        match first_error(outcomes.drop_last()) {
            Some(e) => Some(e),
            None => match outcomes.last() {
                Ok(_) => None,
                Err(e) => Some(e),
            },
        }
    }
}

/// The values of some outcomes.
pub open spec fn ok_values(outcomes: Seq<Result<JsonView, Seq<char>>>) -> Seq<JsonView>
    decreases outcomes.len(),
{
    if outcomes.len() == 0 {
        Seq::empty()
    } else {
        match outcomes.last() {
            Ok(v) => ok_values(outcomes.drop_last()).push(v),
            Err(_) => ok_values(outcomes.drop_last()),
        }
    }
}

/// Branch outputs in one object: objects are merged, later branches winning, and
/// anything else is kept under the branch's tool name.
pub open spec fn merged_values(branches: Seq<FlowStep>, values: Seq<JsonView>) -> Map<Seq<char>, JsonView>
    decreases values.len(),
{
    if values.len() == 0 || values.len() > branches.len() {
        Map::empty()
    } else {
        let before = merged_values(branches, values.drop_last());
        match values.last() {
            JsonView::Object(m) => before.union_prefer_right(m),
            other => before.insert(branches[values.len() - 1].tool@, other),
        }
    }
}

/// What a flow of branches gives.
pub open spec fn joined_values(branches: Seq<FlowStep>, merge: MergeStrategy, values: Seq<JsonView>) -> JsonView {
    match merge {
        MergeStrategy::Collect => JsonView::Array(values),
        MergeStrategy::Merge => JsonView::Object(merged_values(branches, values)),
    }
}

fn merge_object(into: &mut Members, from: &Members)
    ensures
        final(into)@ == old(into)@.union_prefer_right(from@),
{
    let ghost before = into@;
    let mut i: usize = 0;
    assert(into@ =~= before.union_prefer_right(members_view(from.list@, 0)));
    while i < from.list.len()
        invariant
            i <= from.list@.len(),
            into@ == before.union_prefer_right(members_view(from.list@, i as nat)),
        decreases from.list.len() - i,
    {
        into.put(from.list[i].0.as_str(), from.list[i].1.copy());
        proof {
            let a = members_view(from.list@, i as nat);
            let b = members_view(from.list@, (i + 1) as nat);
            assert(b == a.insert(from.list@[i as int].0@, from.list@[i as int].1@));
            assert(into@ =~= before.union_prefer_right(b));
        }
        i = i + 1;
    }
}

fn merge_values(branches: &Vec<FlowStep>, values: &Vec<Json>) -> (r: Members)
    requires
        values@.len() <= branches@.len(),
    ensures
        r@ == merged_values(branches@, views(values@)),
{
    let ghost all = views(values@);
    let mut out = Members::new();
    let mut i: usize = 0;
    assert(out@ =~= merged_values(branches@, all.take(0)));
    while i < values.len()
        invariant
            i <= values@.len() <= branches@.len(),
            all == views(values@),
            out@ == merged_values(branches@, all.take(i as int)),
        decreases values.len() - i,
    {
        proof {
            assert(all.take(i + 1).drop_last() =~= all.take(i as int));
            assert(all.take(i + 1).last() == values@[i as int]@);
        }
        match &values[i] {
            Json::Object(m) => {
                merge_object(&mut out, m);
            },
            other => {
                out.put(branches[i].tool.as_str(), other.copy());
            },
        }
        i = i + 1;
    }
    assert(all.take(all.len() as int) =~= all);
    out
}

proof fn lemma_all_ok(outcomes: Seq<Result<JsonView, Seq<char>>>)
    ensures
        ok_values(outcomes).len() <= outcomes.len(),
        first_error(outcomes) is None ==> ok_values(outcomes).len() == outcomes.len(),
    decreases outcomes.len(),
{
    if outcomes.len() > 0 {
        lemma_all_ok(outcomes.drop_last());
    }
}

/// The record of a classification.
pub open spec fn classify_record(label: Result<Seq<char>, Seq<char>>, duration_ms: u64) -> RecordView {
    RecordView {
        tool: "classify"@,
        duration_ms,
        ok: label is Ok,
        error: match label {
            Ok(_) => None,
            Err(e) => Some(e),
        },
        label: match label {
            Ok(l) => Some(l),
            Err(_) => None,
        },
    }
}

/// The label that a classification came to.
pub open spec fn reply_label(def: FlowDef, reply: Result<ReplyView, Seq<char>>) -> Result<Seq<char>, Seq<char>> {
    match reply {
        Ok(r) => label_of(def.name@, labels_of(def), r),
        Err(e) => Err(e),
    }
}

/// What is said of a label that leads nowhere.
pub open spec fn no_route_text(flow: Seq<char>, label: Seq<char>) -> Seq<char> {
    "flow "@ + debug_quoted(flow) + ": classifier chose "@ + debug_quoted(label)
        + ", which has no route and there is no default"@
}

/// The outcome of a flow as JSON.
pub open spec fn flow_json(def: FlowDef, v: FlowView, status: FlowStatus, tree: u64, duration_ms: u64) -> JsonView {
    JsonView::Object(
        Map::empty().insert("flow"@, JsonView::Str(def.name@)).insert("run_id"@, JsonView::Str(v.run_id)).insert(
            "status"@,
            JsonView::Str(status.text()),
        ).insert("output"@, v.value).insert(
            "steps"@,
            JsonView::Array(v.records.map_values(|r: RecordView| record_json(r))),
        ).insert(
            "usage"@,
            JsonView::Object(Map::empty().insert("tree_tokens"@, count_json(tree))),
        ).insert("duration_ms"@, count_json(duration_ms)),
    )
}

impl<'a> FlowRun<'a> {
    /// Takes the outcomes of all branches, in their order.
    pub fn called_all(
        &mut self,
        outcomes: Vec<(Result<Json, String>, u64)>,
        budget: &SharedBudget,
        trail: &mut Vec<AuditEvent>,
    ) -> (r: FlowAction<'a>)
        requires
            old(self).def.kind matches FlowKind::Parallel { branches, .. } && branches@.len() == outcomes@.len(),
        ensures
            final(self).def == old(self).def,
            final(self).manifest == old(self).manifest,
            ({
                let branches = old(self).def.kind->branches@;
                let merge = old(self).def.kind->merge;
                let given = branch_outcomes(branches, outcome_views(outcomes@));
                let kept = FlowView {
                    records: old(self)@.records + branch_records(branches, outcome_views(outcomes@)),
                    ..old(self)@
                };
                match first_error(given) {
                    Some(e) => {
                        &&& r matches FlowAction::Fail(f)
                        &&& f@ == e
                        &&& final(self)@ == kept
                        &&& event_views(final(trail)@) == event_views(old(trail)@).push(
                            flow_failed(old(self)@, *old(self).def, budget.spent),
                        )
                    },
                    None => {
                        &&& r == FlowAction::Finish(
                            if reached(budget.max_tokens, budget.spent) {
                                FlowStatus::BudgetExhausted
                            } else {
                                FlowStatus::Completed
                            },
                        )
                        &&& final(self)@ == (FlowView {
                            value: joined_values(branches, merge, ok_values(given)),
                            ..kept
                        })
                        &&& event_views(final(trail)@) == event_views(old(trail)@)
                    },
                }
            }),
    {
        let def: &'a FlowDef = self.def;
        let ghost was = self@;
        let ghost raw = outcome_views(outcomes@);
        let (branches, merge) = match &def.kind {
            FlowKind::Parallel { branches, merge } => (branches, *merge),
            _ => vstd::pervasive::unreached(),
        };
        let ghost given = branch_outcomes(branches@, raw);
        let ghost recs = branch_records(branches@, raw);
        let mut values: Vec<Json> = Vec::new();
        let mut fault: Option<String> = None;
        let mut i: usize = 0;
        proof {
            assert(views(values@) =~= ok_values(given.take(0)));
            assert(was.records + recs.take(0) =~= was.records);
        }
        while i < outcomes.len()
            invariant
                i <= outcomes@.len() == branches@.len(),
                self.def == def,
                self.manifest == old(self).manifest,
                raw == outcome_views(outcomes@),
                given == branch_outcomes(branches@, raw),
                recs == branch_records(branches@, raw),
                maybe_text(fault) == first_error(given.take(i as int)),
                views(values@) == ok_values(given.take(i as int)),
                self@ == (FlowView { records: was.records + recs.take(i as int), ..was }),
            decreases outcomes.len() - i,
        {
            let tool = branches[i].tool.as_str();
            let out = match &outcomes[i].0 {
                Ok(v) => unwrap_output(tool, v.copy()),
                Err(e) => Err(e.clone()),
            };
            proof {
                assert(given.take(i + 1).drop_last() =~= given.take(i as int));
                assert(given.take(i + 1).last() == outcome_view(out));
                assert(was.records + recs.take(i + 1) =~= (was.records + recs.take(i as int)).push(recs[i as int]));
            }
            let duration_ms: u64 = outcomes[i].1;
            match out {
                Ok(v) => {
                    self.keep(
                        StepRecord { tool: tool.to_owned(), duration_ms, ok: true, error: None, label: None },
                    );
                    proof {
                        lemma_views_push(values@, v);
                    }
                    values.push(v);
                },
                Err(e) => {
                    self.keep(
                        StepRecord {
                            tool: tool.to_owned(),
                            duration_ms,
                            ok: false,
                            error: Some(e.clone()),
                            label: None,
                        },
                    );
                    if fault.is_none() {
                        fault = Some(e);
                    }
                },
            }
            i = i + 1;
        }
        proof {
            assert(given.take(given.len() as int) =~= given);
            assert(recs.take(recs.len() as int) =~= recs);
            lemma_all_ok(given);
            assert(views(values@).len() == values@.len());
        }
        if let Some(e) = fault {
            return self.fail(e, budget, trail);
        }
        self.value = match merge {
            MergeStrategy::Collect => Json::array(values),
            MergeStrategy::Merge => Json::Object(merge_values(branches, &values)),
        };
        if budget.exhausted() {
            FlowAction::Finish(FlowStatus::BudgetExhausted)
        } else {
            FlowAction::Finish(FlowStatus::Completed)
        }
    }

    /// Takes the reply of the classifier.
    pub fn classified(
        &mut self,
        reply: Result<ProviderResponse, String>,
        duration_ms: u64,
        budget: &mut SharedBudget,
        ledger: &mut Ledger,
        trail: &mut Vec<AuditEvent>,
    ) -> (r: FlowAction<'a>)
        requires
            old(self).def.kind is Route,
        ensures
            final(self).def == old(self).def,
            final(self).manifest == old(self).manifest,
            match reply {
                Ok(p) => budget_charged(*old(budget), *final(budget), reply_tokens(p@)) && ledger_charged(
                    *old(ledger),
                    *final(ledger),
                    "flow"@,
                    old(self).def.name@,
                    p@,
                ),
                Err(_) => *final(budget) == *old(budget) && *final(ledger) == *old(ledger),
            },
            ({
                let def = *old(self).def;
                let label = reply_label(def, reply_view(reply));
                let kept = FlowView {
                    records: old(self)@.records.push(classify_record(label, duration_ms)),
                    ..old(self)@
                };
                let failed = event_views(old(trail)@).push(flow_failed(old(self)@, def, final(budget).spent));
                match label {
                    Err(e) => {
                        &&& r matches FlowAction::Fail(f)
                        &&& f@ == e
                        &&& final(self)@ == kept
                        &&& event_views(final(trail)@) == failed
                    },
                    Ok(l) => {
                        &&& final(self)@ == (FlowView { label: Some(l), ..kept })
                        &&& match routed_step(def, l) {
                            Some(_) => calls_step(r, def, old(self).manifest.routes@, final(self)@) && event_views(
                                final(trail)@,
                            ) == event_views(old(trail)@),
                            None => r matches FlowAction::Fail(f) && f@ == no_route_text(def.name@, l) && event_views(
                                final(trail)@,
                            ) == failed,
                        }
                    },
                }
            }),
    {
        let def: &'a FlowDef = self.def;
        let (routes, default) = match &def.kind {
            FlowKind::Route { routes, default, .. } => (routes, default),
            _ => vstd::pervasive::unreached(),
        };
        let label = match reply {
            Ok(p) => {
                let _ = budget.charge(p.total_tokens());
                ledger.charge(
                    "flow",
                    def.name.as_str(),
                    p.model.as_str(),
                    p.input_tokens,
                    p.output_tokens,
                    p.cache_read_tokens,
                    p.cache_write_tokens,
                );
                let labels = keys_of(routes);
                read_label(def.name.as_str(), &labels, &p)
            },
            Err(e) => Err(e),
        };
        assert(crate::runtime::text_outcome(label) == reply_label(*def, reply_view(reply)));
        match label {
            Err(e) => {
                self.keep(
                    StepRecord {
                        tool: "classify".to_owned(),
                        duration_ms,
                        ok: false,
                        error: Some(e.clone()),
                        label: None,
                    },
                );
                self.fail(e, &*budget, trail)
            },
            Ok(l) => {
                self.keep(
                    StepRecord {
                        tool: "classify".to_owned(),
                        duration_ms,
                        ok: true,
                        error: None,
                        label: Some(l.clone()),
                    },
                );
                let step: Option<&'a FlowStep> = match routes.get(l.as_str()) {
                    Some(s) => Some(s),
                    None => match default {
                        Some(s) => Some(s),
                        None => None,
                    },
                };
                let missing = cat5(
                    "flow ",
                    quoted(def.name.as_str()).as_str(),
                    ": classifier chose ",
                    quoted(l.as_str()).as_str(),
                    ", which has no route and there is no default",
                );
                self.label = Some(l);
                match step {
                    Some(s) => FlowAction::Call {
                        step: s,
                        args: build_args(self.manifest, s, &self.value, &self.input),
                    },
                    None => self.fail(missing, &*budget, trail),
                }
            },
        }
    }

    /// Ends a flow.
    pub fn finish(
        &self,
        status: FlowStatus,
        duration_ms: u64,
        budget: &SharedBudget,
        ledger: &mut Ledger,
        trail: &mut Vec<AuditEvent>,
    ) -> (r: Json)
        requires
            old(ledger).run_count() < u64::MAX,
        ensures
            r@ == flow_json(*self.def, self@, status, budget.spent, duration_ms),
            event_views(final(trail)@) == event_views(old(trail)@).push(
                flow_finished_event(self@.run_id, self.def.name@, status.text(), budget.spent),
            ),
            final(ledger)@ == old(ledger)@,
            final(ledger).run_count() == old(ledger).run_count() + 1,
            final(ledger).since() == old(ledger).since(),
    {
        let event = AuditEvent::flow_finished(
            self.run_id.as_str(),
            self.def.name.as_str(),
            status.as_str(),
            budget.used(),
        );
        record(trail, event);
        ledger.count_run();
        let mut steps: Vec<Json> = Vec::new();
        let mut i: usize = 0;
        while i < self.records.len()
            invariant
                i <= self.records@.len(),
                steps@.len() == i,
                forall|k: int| 0 <= k < i ==> (#[trigger] steps@[k])@ == record_json(self.records@[k]@),
            decreases self.records.len() - i,
        {
            steps.push(self.records[i].to_json());
            i = i + 1;
        }
        assert(views(steps@) =~= self@.records.map_values(|r: RecordView| record_json(r)));
        let mut usage = Members::new();
        usage.put("tree_tokens", Json::num(budget.used()));
        let mut m = Members::new();
        m.put("flow", Json::str(self.def.name.as_str()));
        m.put("run_id", Json::str(self.run_id.as_str()));
        m.put("status", Json::str(status.as_str()));
        m.put("output", self.value.copy());
        m.put("steps", Json::array(steps));
        m.put("usage", Json::Object(usage));
        m.put("duration_ms", Json::num(duration_ms));
        Json::Object(m)
    }
}

/// No flow has a step called that a human must approve.
pub proof fn law_a_flow_calls_no_gated_tool(
    routes: Seq<Route>,
    tool: Seq<char>,
    args: JsonView,
    actor: PrincipalView,
    depth: u32,
)
    requires
        step_call(routes, tool, args, actor, depth) is Ok,
    ensures
        !is_gated(routes, tool),
        step_call(routes, tool, args, actor, depth)->Ok_0.principal == actor,
        step_call(routes, tool, args, actor, depth)->Ok_0.depth == deeper(depth),
{
}

/// A flow never has more authority than its caller.
pub proof fn law_a_flow_never_gains_authority(
    def: FlowDef,
    run_id: Seq<char>,
    caller: PrincipalView,
    depth: u32,
    input: JsonView,
    scope: Seq<char>,
)
    requires
        crate::auth::grants(fresh_flow(def, run_id, caller, depth, input).actor.scopes, scope),
    ensures
        crate::auth::grants(caller.scopes, scope),
{
    crate::auth::law_delegation_never_gains_authority(texts(def.scopes@), caller.scopes, scope);
}

/// A flow of branches succeeds only if each branch does, and what it collects has one
/// value for each branch, in their order.
pub proof fn law_branches_are_collected_in_order(outcomes: Seq<Result<JsonView, Seq<char>>>, i: int)
    requires
        first_error(outcomes) is None,
        0 <= i < outcomes.len(),
    ensures
        ok_values(outcomes).len() == outcomes.len(),
        outcomes[i] == Ok::<JsonView, Seq<char>>(ok_values(outcomes)[i]),
    decreases outcomes.len(),
{
    lemma_all_ok(outcomes);
    lemma_all_ok(outcomes.drop_last());
    if i < outcomes.len() - 1 {
        law_branches_are_collected_in_order(outcomes.drop_last(), i);
        assert(outcomes.drop_last()[i] == outcomes[i]);
    }
}

/// Where a branch fails, the flow fails with the error of the first that does.
pub proof fn law_the_first_error_is_reported(outcomes: Seq<Result<JsonView, Seq<char>>>, i: int)
    requires
        0 <= i < outcomes.len(),
        outcomes[i] is Err,
        forall|j: int| 0 <= j < i ==> (#[trigger] outcomes[j]) is Ok,
    ensures
        first_error(outcomes) == Some(outcomes[i]->Err_0),
    decreases outcomes.len(),
{
    let init = outcomes.drop_last();
    if i < outcomes.len() - 1 {
        assert(init[i] == outcomes[i]);
        law_the_first_error_is_reported(init, i);
    } else {
        lemma_no_error(init);
    }
}

proof fn lemma_no_error(outcomes: Seq<Result<JsonView, Seq<char>>>)
    requires
        forall|j: int| 0 <= j < outcomes.len() ==> (#[trigger] outcomes[j]) is Ok,
    ensures
        first_error(outcomes) is None,
    decreases outcomes.len(),
{
    if outcomes.len() > 0 {
        assert forall|j: int| 0 <= j < outcomes.drop_last().len() implies (#[trigger] outcomes.drop_last()[j]) is Ok by {
            assert(outcomes[j] is Ok);
        }
        lemma_no_error(outcomes.drop_last());
    }
}

/// A value that is no envelope passes from step to step as it is, and an envelope's
/// `output` is all that passes.
pub proof fn law_only_the_output_of_an_envelope_passes(tool: Seq<char>, v: JsonView)
    ensures
        !is_envelope(v) ==> unwrapped(tool, v) == Ok::<JsonView, Seq<char>>(v),
        is_envelope(v) && member_text(v, "status"@) == Some("completed"@) ==> unwrapped(tool, v) == Ok::<
            JsonView,
            Seq<char>,
        >(field(v, "output"@)),
        is_envelope(v) && member_text(v, "status"@) == Some("awaiting_approval"@) ==> unwrapped(tool, v) is Err,
        is_envelope(v) && member_text(v, "status"@) == Some("failed"@) ==> unwrapped(tool, v) is Err,
{
    reveal_strlit("completed");
    reveal_strlit("awaiting_approval");
    reveal_strlit("failed");
    assert("completed"@.len() != "awaiting_approval"@.len());
    assert("completed"@.len() != "failed"@.len());
}

/// A step without a template is fed the output before it and nothing else: whatever the
/// flow was started with, it is called with the same. An agent is given a text as its input
/// as it stands, an object that has an input as it is, and anything else as it prints; any
/// other tool is given an object as it is, and anything else as its input.
pub proof fn law_a_step_is_fed_the_output_before_it(
    routes: Seq<Route>,
    step: FlowStep,
    incoming: JsonView,
    one: JsonView,
    other: JsonView,
)
    requires
        step.input is None,
    ensures
        step_args(routes, step, incoming, one) == step_args(routes, step, incoming, other),
        ({
            let args = step_args(routes, step, incoming, one);
            let agent = tool_route(routes, step.tool@) matches Some(r) && r.op is Agent;
            &&& incoming matches JsonView::Str(s) ==> args == JsonView::Object(map!["input"@ => JsonView::Str(s)])
            &&& incoming matches JsonView::Object(m) ==> (m.contains_key("input"@) || !agent ==> args == incoming)
            &&& incoming matches JsonView::Object(m) ==> (!m.contains_key("input"@) && agent ==> args
                == JsonView::Object(map!["input"@ => JsonView::Str(json_text(incoming))]))
            &&& !(incoming is Object) && !(incoming is Str) && agent ==> args == JsonView::Object(
                map!["input"@ => JsonView::Str(json_text(incoming))],
            )
            &&& !(incoming is Object) && !agent ==> args == JsonView::Object(map!["input"@ => incoming])
        }),
{
    let args = step_args(routes, step, incoming, one);
    if let JsonView::Object(m) = args {
        if args != incoming {
            assert(m =~= map!["input"@ => m["input"@]]);
        }
    }
}

/// A pipeline passes values on: what a step gave is what the next one is called with. After
/// a step that gave a text, the next step is the one behind it, and an agent without a
/// template is called with that text; the flow's own input and authority stay what they
/// were, and one record is added.
pub proof fn law_the_next_step_gets_what_the_last_one_gave(
    a: FlowAction,
    def: FlowDef,
    routes: Seq<Route>,
    v: FlowView,
    tool: Seq<char>,
    said: JsonView,
    duration_ms: u64,
)
    requires
        def.kind is Pipeline,
        member(said, "output"@) is None,
        calls_step(a, def, routes, after_step(v, def, tool, Ok(said), duration_ms)),
    ensures
        ({
            let after = after_step(v, def, tool, Ok(said), duration_ms);
            &&& a matches FlowAction::Call { step, args }
            &&& def.kind matches FlowKind::Pipeline { steps }
            &&& v.at + 1 < steps@.len() && *step == steps@[v.at as int + 1]
            &&& after.value == said
            &&& after.input == v.input
            &&& after.actor == v.actor
            &&& after.depth == v.depth
            &&& after.records.len() == v.records.len() + 1
            &&& after.records.last().tool == tool
            &&& after.records.last().ok
            &&& after.records.last().duration_ms == duration_ms
            &&& step.input is None && said is Str ==> args@ == JsonView::Object(map!["input"@ => said])
            &&& step.input is None && said is Object && !is_agent_tool(routes, step.tool@) ==> args@ == said
        }),
{
    let after = after_step(v, def, tool, Ok(said), duration_ms);
    if let FlowAction::Call { step, args } = a {
        if step.input is None {
            law_a_step_is_fed_the_output_before_it(routes, *step, said, v.input, v.input);
        }
    }
}

/// A failed step leaves the value as it was, and is recorded with its error.
pub proof fn law_a_failed_step_is_recorded(v: FlowView, def: FlowDef, tool: Seq<char>, error: Seq<char>, duration_ms: u64)
    ensures
        ({
            let after = after_step(v, def, tool, Err(error), duration_ms);
            &&& after.value == v.value
            &&& after.at == v.at
            &&& after.input == v.input
            &&& after.records.drop_last() == v.records
            &&& after.records.last().tool == tool
            &&& !after.records.last().ok
            &&& after.records.last().error == Some(error)
        }),
{
    assert(after_step(v, def, tool, Err(error), duration_ms).records.drop_last() =~= v.records);
}

/// A flow starts with its input: that is what its first step is fed. It acts for its
/// caller, with no more than they hold.
pub proof fn law_a_flow_starts_with_its_input(
    def: FlowDef,
    run_id: Seq<char>,
    caller: PrincipalView,
    depth: u32,
    input: JsonView,
    a: FlowAction,
    routes: Seq<Route>,
)
    requires
        is_first_action(a, def, routes, fresh_flow(def, run_id, caller, depth, input)),
    ensures
        ({
            let v = fresh_flow(def, run_id, caller, depth, input);
            &&& v.run_id == run_id && v.depth == depth && v.input == input && v.value == input && v.records.len() == 0
            &&& crate::auth::acts_for(v.actor, crate::auth::root_of(caller))
            &&& def.kind matches FlowKind::Pipeline { steps } ==> (steps@.len() > 0 ==> (a matches FlowAction::Call {
                step,
                args,
            } && *step == steps@[0] && (step.input is None && input is Str ==> args@ == JsonView::Object(
                map!["input"@ => input],
            ))))
            &&& def.kind matches FlowKind::Parallel { branches, .. } ==> (a matches FlowAction::CallAll { each }
                && each@.len() == branches@.len() && forall|i: int|
                0 <= i < branches@.len() && branches@[i].input is None && input is Str ==> (#[trigger] each@[i])@
                    == JsonView::Object(map!["input"@ => input]))
        }),
{
    crate::auth::law_delegation_keeps_the_root(caller, def.name@, texts(def.scopes@), crate::auth::root_of(caller));
    match def.kind {
        FlowKind::Pipeline { steps } => {
            if let FlowAction::Call { step, args } = a {
                if step.input is None {
                    law_a_step_is_fed_the_output_before_it(routes, *step, input, input, input);
                }
            }
        },
        FlowKind::Parallel { branches, .. } => {
            if let FlowAction::CallAll { each } = a {
                assert(views(each@).len() == each@.len());
                assert forall|i: int| 0 <= i < branches@.len() && branches@[i].input is None && input is Str implies (
                #[trigger] each@[i])@ == JsonView::Object(map!["input"@ => input]) by {
                    law_a_step_is_fed_the_output_before_it(routes, branches@[i], input, input, input);
                    assert(views(each@)[i] == each@[i]@);
                }
            }
        },
        _ => {},
    }
}

/// A path leads through a value member by member: through an object by the name, through a
/// list by the place, and nowhere where there is no such part.
pub proof fn law_a_path_leads_member_by_member(v: JsonView, name: Seq<char>, rest: Seq<Seq<char>>)
    ensures
        walked(v, Seq::empty()) == v,
        v matches JsonView::Object(m) ==> (m.contains_key(name) ==> walked(v, seq![name] + rest) == walked(m[name], rest)),
        v matches JsonView::Object(m) ==> (!m.contains_key(name) ==> walked(v, seq![name] + rest) == JsonView::Null),
        v matches JsonView::Array(a) ==> (i64_reading(name) matches Some(i) ==> (0 <= i < a.len() && name.len() > 0
            && name[0] != '-' ==> walked(v, seq![name] + rest) == walked(a[i], rest))),
        !(v is Object) && !(v is Array) ==> walked(v, seq![name] + rest) == JsonView::Null,
{
    let path = seq![name] + rest;
    assert(path[0] == name);
    assert(path.skip(1) =~= rest);
}

/// A template stands for what it names: `$` for the incoming value and `$input` for the
/// flow's own input, each with a path behind it for a part of it; a text that starts with no
/// `$`, a number, a truth value and nothing for themselves; and a list and an object for
/// what their parts stand for.
pub proof fn law_a_template_stands_for_what_it_names(
    t: JsonView,
    name: Seq<char>,
    incoming: JsonView,
    original: JsonView,
)
    requires
        !name.contains('.'),
    ensures
        resolved(JsonView::Str("$"@), incoming, original) == incoming,
        resolved(JsonView::Str("$input"@), incoming, original) == original,
        resolved(JsonView::Str("$."@ + name), incoming, original) == field_or_place(incoming, name),
        resolved(JsonView::Str("$input."@ + name), incoming, original) == field_or_place(original, name),
        t matches JsonView::Str(s) ==> ((s.len() == 0 || s[0] != '$') ==> resolved(t, incoming, original) == t),
        t is Number || t is Bool || t is Null ==> resolved(t, incoming, original) == t,
        t matches JsonView::Array(items) ==> (resolved(t, incoming, original) matches JsonView::Array(out) && out.len()
            == items.len() && forall|i: int|
            0 <= i < items.len() ==> #[trigger] out[i] == resolved(items[i], incoming, original)),
        t matches JsonView::Object(m) ==> (resolved(t, incoming, original) matches JsonView::Object(out) && out.dom()
            == m.dom() && forall|k: Seq<char>|
            m.contains_key(k) ==> #[trigger] out[k] == resolved(m[k], incoming, original)),
{
    reveal_strlit("$");
    reveal_strlit("$input");
    reveal_strlit("$input.");
    reveal_strlit("$.");
    assert("$"@.len() == 1);
    assert("$input"@.len() == 6);
    assert("$input."@.len() == 7);
    assert("$."@.len() == 2);
    let a = "$."@ + name;
    let b = "$input."@ + name;
    assert(a[0] == '$' && a[1] == '.');
    assert(b[0] == '$' && b[1] == 'i');
    assert("$input."@[1] == 'i' && "$input"@[1] == 'i' && "$."@[1] == '.');
    assert(a.subrange(0, 2) =~= "$."@);
    assert(a.skip(2) =~= name);
    assert(b.subrange(0, 7) =~= "$input."@);
    assert(b.skip(7) =~= name);
    assert(!"$input."@.is_prefix_of(a)) by {
        if "$input."@.is_prefix_of(a) {
            assert(a.subrange(0, 7)[1] == '.');
        }
    }
    crate::text::law_a_text_is_cut_at_each_separator(name, Seq::empty(), '.');
    law_a_path_leads_member_by_member(incoming, name, Seq::empty());
    law_a_path_leads_member_by_member(original, name, Seq::empty());
    assert(seq![name] + Seq::<Seq<char>>::empty() =~= seq![name]);
    if let JsonView::Str(s) = t {
        if s.len() == 0 || s[0] != '$' {
            assert("$"@[0] == '$' && "$input"@[0] == '$' && "$."@[0] == '$' && "$input."@[0] == '$');
            if "$."@.is_prefix_of(s) {
                assert(s.subrange(0, 2)[0] == '$');
            }
            if "$input."@.is_prefix_of(s) {
                assert(s.subrange(0, 7)[0] == '$');
            }
        }
    }
    if let JsonView::Object(m) = t {
        assert(resolved(t, incoming, original)->Object_0.dom() =~= m.dom());
    }
}

/// The member of an object, or the item of a list, of a name; nothing where there is none.
pub open spec fn field_or_place(v: JsonView, name: Seq<char>) -> JsonView {
    match v {
        JsonView::Object(m) => if m.contains_key(name) {
            m[name]
        } else {
            JsonView::Null
        },
        JsonView::Array(a) => match index_reading(name) {
            Some(i) => if 0 <= i < a.len() {
                a[i]
            } else {
                JsonView::Null
            },
            None => JsonView::Null,
        },
        _ => JsonView::Null,
    }
}

/// What an agent or a flow gives is its output: the rest of its envelope does not pass. One
/// that waits for a human, or failed, is an error; and what is no envelope passes as it is.
pub proof fn law_an_envelope_gives_its_output(tool: Seq<char>, v: JsonView, output: JsonView)
    ensures
        member(v, "output"@) is None ==> unwrapped(tool, v) == Ok::<JsonView, Seq<char>>(v),
        member(v, "run_id"@) is None && member(v, "flow"@) is None ==> unwrapped(tool, v) == Ok::<
            JsonView,
            Seq<char>,
        >(v),
        member(v, "output"@) == Some(output) && (member(v, "run_id"@) is Some || member(v, "flow"@) is Some) ==> ({
            &&& member(v, "status"@) == Some(JsonView::Str("awaiting_approval"@)) ==> unwrapped(tool, v) is Err
            &&& member(v, "status"@) == Some(JsonView::Str("failed"@)) ==> unwrapped(tool, v) is Err
            &&& member(v, "status"@) != Some(JsonView::Str("awaiting_approval"@)) && member(v, "status"@) != Some(
                JsonView::Str("failed"@),
            ) ==> unwrapped(tool, v) == Ok::<JsonView, Seq<char>>(output)
        }),
{
}

/// Branches are joined as declared: collected, each value stands in its place; merged, each
/// member of an object stands under its name, of two the later, and anything else under the
/// name of its tool.
pub proof fn law_branches_are_joined_as_declared(branches: Seq<FlowStep>, values: Seq<JsonView>, next: JsonView, k: Seq<char>)
    requires
        values.len() < branches.len(),
    ensures
        joined_values(branches, MergeStrategy::Collect, values) == JsonView::Array(values),
        ({
            let before = joined_values(branches, MergeStrategy::Merge, values);
            let after = joined_values(branches, MergeStrategy::Merge, values.push(next));
            &&& member(joined_values(branches, MergeStrategy::Merge, Seq::empty()), k) is None
            &&& next matches JsonView::Object(m) ==> (m.contains_key(k) ==> member(after, k) == Some(m[k]))
            &&& next matches JsonView::Object(m) ==> (!m.contains_key(k) ==> member(after, k) == member(before, k))
            &&& !(next is Object) && k == branches[values.len() as int].tool@ ==> member(after, k) == Some(next)
            &&& !(next is Object) && k != branches[values.len() as int].tool@ ==> member(after, k) == member(before, k)
        }),
{
    assert(values.push(next).drop_last() =~= values);
}

proof fn lemma_matching_label(labels: Seq<Seq<char>>, said: Seq<char>)
    ensures
        matching_label(labels, said) matches Some(l) ==> labels.contains(l) && lowered(l) == lowered(said),
        matching_label(labels, said) is None ==> forall|i: int|
            0 <= i < labels.len() ==> lowered(#[trigger] labels[i]) != lowered(said),
    decreases labels.len(),
{
    if labels.len() > 0 {
        if lowered(labels[0]) == lowered(said) {
            assert(labels.contains(labels[0]));
        } else {
            let rest = labels.skip(1);
            lemma_matching_label(rest, said);
            if let Some(l) = matching_label(labels, said) {
                let i = choose|i: int| 0 <= i < rest.len() && rest[i] == l;
                assert(labels[i + 1] == l);
            } else {
                assert forall|i: int| 0 <= i < labels.len() implies lowered(#[trigger] labels[i]) != lowered(said) by {
                    if i > 0 {
                        assert(rest[i - 1] == labels[i]);
                    }
                }
            }
        }
    }
}

/// The label is the one that the classifier chose: where it calls the tool with a label that
/// is declared, whatever the case, it is that label as it is declared; and one that is not
/// declared is handed on as it was said, so that the default takes it.
pub proof fn law_the_label_is_the_one_that_was_chosen(
    flow: Seq<char>,
    labels: Seq<Seq<char>>,
    r: ReplyView,
    said: Seq<char>,
)
    requires
        r.tool_calls.len() > 0,
        r.tool_calls[0].name == "choose"@,
        member(r.tool_calls[0].arguments, "label"@) == Some(JsonView::Str(said)),
    ensures
        label_of(flow, labels, r) matches Ok(l) && (l == said || (labels.contains(l) && lowered(l) == lowered(said))),
        (exists|i: int| 0 <= i < labels.len() && lowered(#[trigger] labels[i]) == lowered(said)) ==> (label_of(
            flow,
            labels,
            r,
        ) matches Ok(l) && labels.contains(l)),
        (forall|i: int| 0 <= i < labels.len() ==> lowered(#[trigger] labels[i]) != lowered(said)) ==> label_of(
            flow,
            labels,
            r,
        ) == Ok::<Seq<char>, Seq<char>>(said),
{
    lemma_matching_label(labels, said);
}

/// A flow that routes runs the step of the label, and the default where the label has none.
pub proof fn law_a_label_leads_to_its_step(def: FlowDef, label: Seq<char>)
    requires
        def.kind is Route,
    ensures
        def.kind matches FlowKind::Route { routes, default, .. } ==> ({
            &&& routes@.contains_key(label) ==> routed_step(def, label) == Some(routes@[label])
            &&& !routes@.contains_key(label) ==> routed_step(def, label) == default
        }),
{
}

/// A classifier is offered every label and no other, and is shown the input.
pub proof fn law_a_classifier_is_offered_every_label(labels: Seq<Seq<char>>, input: Seq<char>)
    ensures
        ({
            &&& member(choice_schema(labels), "type"@) == Some(JsonView::Str("object"@))
            &&& member(choice_schema(labels), "properties"@) matches Some(p)
            &&& member(p, "label"@) matches Some(l)
            &&& member(l, "enum"@) matches Some(JsonView::Array(list))
            &&& list.len() == labels.len()
            &&& forall|i: int| 0 <= i < labels.len() ==> #[trigger] list[i] == JsonView::Str(labels[i])
            &&& member(choice_schema(labels), "required"@) matches Some(JsonView::Array(must))
            &&& must == seq![JsonView::Str("label"@)]
        }),
        input.is_suffix_of(classify_question(labels, None, JsonView::Str(input))),
        contains_text(classify_question(labels, None, JsonView::Str(input)), joined(labels, ", "@)),
{
    reveal_strlit("type");
    reveal_strlit("properties");
    reveal_strlit("required");
    reveal_strlit("label");
    reveal_strlit("enum");
    assert("type"@.len() == 4);
    assert("properties"@.len() == 10);
    assert("required"@.len() == 8);
    assert("label"@.len() == 5);
    assert("enum"@.len() == 4);
    assert("type"@[0] != "enum"@[0]);
    assert(member(choice_schema(labels), "required"@)->0->Array_0 =~= seq![JsonView::Str("label"@)]);
    let q = classify_question(labels, None, JsonView::Str(input));
    let start = "Classify the input into exactly one of these labels: "@;
    let listed = joined(labels, ", "@);
    assert(q.subrange(q.len() - input.len(), q.len() as int) =~= input);
    assert(q.subrange(start.len() as int, start.len() as int + listed.len()) =~= listed);
    assert(crate::text::occurs_at(q, listed, start.len() as int));
}

/// What a flow came to is reported: its output, how it ended, and one entry for each step,
/// in order, with the tool and whether it went well.
pub proof fn law_a_flow_reports_its_output(def: FlowDef, v: FlowView, status: FlowStatus, tree: u64, duration_ms: u64)
    ensures
        ({
            let j = flow_json(def, v, status, tree, duration_ms);
            &&& member(j, "flow"@) == Some(JsonView::Str(def.name@))
            &&& member(j, "run_id"@) == Some(JsonView::Str(v.run_id))
            &&& member(j, "output"@) == Some(v.value)
            &&& status is Completed ==> member(j, "status"@) == Some(JsonView::Str("completed"@))
            &&& status is BudgetExhausted ==> member(j, "status"@) == Some(JsonView::Str("budget_exhausted"@))
            &&& member(j, "usage"@) matches Some(u) && member(u, "tree_tokens"@) == Some(
                JsonView::Number(crate::json::NumberView::Int(tree as int)),
            )
            &&& member(j, "steps"@) matches Some(JsonView::Array(steps))
            &&& steps.len() == v.records.len()
            &&& forall|i: int|
                0 <= i < steps.len() ==> member(#[trigger] steps[i], "tool"@) == Some(
                    JsonView::Str(v.records[i].tool),
                ) && member(steps[i], "ok"@) == Some(JsonView::Bool(v.records[i].ok)) && (v.records[i].error matches Some(
                    e,
                ) ==> member(steps[i], "error"@) == Some(JsonView::Str(e))) && (v.records[i].label matches Some(l)
                    ==> member(steps[i], "label"@) == Some(JsonView::Str(l)))
        }),
{
    reveal_strlit("flow");
    reveal_strlit("run_id");
    reveal_strlit("status");
    reveal_strlit("output");
    reveal_strlit("steps");
    reveal_strlit("usage");
    reveal_strlit("duration_ms");
    reveal_strlit("tree_tokens");
    reveal_strlit("tool");
    reveal_strlit("ok");
    reveal_strlit("error");
    reveal_strlit("label");
    assert("flow"@.len() == 4);
    assert("run_id"@.len() == 6);
    assert("status"@.len() == 6);
    assert("output"@.len() == 6);
    assert("steps"@.len() == 5);
    assert("usage"@.len() == 5);
    assert("duration_ms"@.len() == 11);
    assert("tree_tokens"@.len() == 11);
    assert("tool"@.len() == 4);
    assert("ok"@.len() == 2);
    assert("error"@.len() == 5);
    assert("label"@.len() == 5);
    assert("flow"@[0] != "tool"@[0]);
    assert("run_id"@[0] != "status"@[0]);
    assert("run_id"@[0] != "output"@[0]);
    assert("status"@[0] != "output"@[0]);
    assert("steps"@[0] != "usage"@[0]);
    assert("steps"@[0] != "error"@[0]);
    assert("steps"@[0] != "label"@[0]);
    assert("usage"@[0] != "error"@[0]);
    assert("usage"@[0] != "label"@[0]);
    assert("duration_ms"@[0] != "tree_tokens"@[0]);
    assert("error"@[0] != "label"@[0]);
}

proof fn lemma_ok_values(outcomes: Seq<Result<JsonView, Seq<char>>>)
    requires
        forall|i: int| 0 <= i < outcomes.len() ==> (#[trigger] outcomes[i]) is Ok,
    ensures
        first_error(outcomes) is None,
        ok_values(outcomes).len() == outcomes.len(),
        forall|i: int| 0 <= i < outcomes.len() ==> #[trigger] ok_values(outcomes)[i] == outcomes[i]->Ok_0,
    decreases outcomes.len(),
{
    if outcomes.len() > 0 {
        let rest = outcomes.drop_last();
        assert forall|i: int| 0 <= i < rest.len() implies (#[trigger] rest[i]) is Ok by {
            assert(rest[i] == outcomes[i]);
        }
        lemma_ok_values(rest);
        assert(outcomes[outcomes.len() - 1] == outcomes.last());
        assert forall|i: int| 0 <= i < outcomes.len() implies #[trigger] ok_values(outcomes)[i] == outcomes[i]->Ok_0 by {
            if i < rest.len() {
                assert(ok_values(rest)[i] == ok_values(outcomes)[i]);
                assert(rest[i] == outcomes[i]);
            }
        }
    }
}

proof fn lemma_first_error(outcomes: Seq<Result<JsonView, Seq<char>>>, i: int)
    requires
        0 <= i < outcomes.len(),
        outcomes[i] is Err,
        forall|k: int| 0 <= k < i ==> (#[trigger] outcomes[k]) is Ok,
    ensures
        first_error(outcomes) == Some(outcomes[i]->Err_0),
    decreases outcomes.len(),
{
    let rest = outcomes.drop_last();
    assert forall|k: int| 0 <= k < rest.len() implies #[trigger] rest[k] == outcomes[k] by {}
    if i < rest.len() {
        lemma_first_error(rest, i);
    } else {
        assert forall|k: int| 0 <= k < rest.len() implies (#[trigger] rest[k]) is Ok by {
            assert(outcomes[k] is Ok);
        }
        lemma_ok_values(rest);
    }
}

/// Branches that all went well give their values in order, and of those that did not the
/// first error is the flow's; each branch has its record, in order, under its tool.
pub proof fn law_branches_give_their_values_in_order(
    branches: Seq<FlowStep>,
    outcomes: Seq<(Result<JsonView, Seq<char>>, u64)>,
    i: int,
)
    requires
        branches.len() == outcomes.len(),
        0 <= i < outcomes.len(),
        forall|k: int| 0 <= k < i ==> ((#[trigger] outcomes[k]).0 matches Ok(v) && member(v, "output"@) is None),
    ensures
        ({
            let given = branch_outcomes(branches, outcomes);
            let record = branch_records(branches, outcomes)[i];
            &&& branch_records(branches, outcomes).len() == branches.len()
            &&& record.tool == branches[i].tool@ && record.duration_ms == outcomes[i].1
            &&& outcomes[i].0 matches Err(e) ==> first_error(given) == Some(e) && !record.ok && record.error == Some(e)
            &&& outcomes[i].0 matches Ok(v) ==> (member(v, "output"@) is None ==> given[i] == Ok::<JsonView, Seq<char>>(v)
                && record.ok && record.error is None)
            &&& (i == outcomes.len() - 1 && (outcomes[i].0 matches Ok(v) && member(v, "output"@) is None)) ==> ({
                &&& first_error(given) is None
                &&& ok_values(given).len() == branches.len()
                &&& forall|k: int| 0 <= k < branches.len() ==> #[trigger] ok_values(given)[k] == outcomes[k].0->Ok_0
            })
        }),
{
    let given = branch_outcomes(branches, outcomes);
    assert forall|k: int| 0 <= k < i implies (#[trigger] given[k]) is Ok by {
        assert(outcomes[k].0 is Ok);
    }
    if outcomes[i].0 is Err {
        lemma_first_error(given, i);
    } else if i == outcomes.len() - 1 && member(outcomes[i].0->Ok_0, "output"@) is None {
        assert forall|k: int| 0 <= k < given.len() implies (#[trigger] given[k]) is Ok by {
            if k < i {
                assert(outcomes[k].0 is Ok);
            }
        }
        lemma_ok_values(given);
        assert forall|k: int| 0 <= k < branches.len() implies #[trigger] ok_values(given)[k] == outcomes[k].0->Ok_0 by {
            if k < i {
                assert(outcomes[k].0 is Ok);
            }
            assert(given[k] == Ok::<JsonView, Seq<char>>(outcomes[k].0->Ok_0));
        }
    }
}

/// A classifier is asked by the model that the flow declares, with the one tool that chooses
/// among the labels; what it chose is recorded, and what could not be chosen with why.
pub proof fn law_a_classifier_is_asked_to_choose(
    c: Classification,
    flow: Seq<char>,
    labels: Seq<Seq<char>>,
    model: Option<Seq<char>>,
    prompt: Option<Seq<char>>,
    input: JsonView,
    label: Result<Seq<char>, Seq<char>>,
    duration_ms: u64,
)
    requires
        is_classification(c, flow, labels, model, prompt, input),
    ensures
        model matches Some(m) ==> c.agent.model@ == m,
        model is None ==> c.agent.model@ == "fast"@,
        c.conversation@.len() == 1 && c.conversation@[0].role == "user"@,
        prompt is None && input is Str ==> (c.conversation@[0].content matches JsonView::Str(q) && input->Str_0.is_suffix_of(
            q,
        )),
        tool_views(c.tools@).len() == 1 && tool_views(c.tools@)[0].name == "choose"@,
        member(tool_views(c.tools@)[0].input_schema, "properties"@) matches Some(p) && (member(p, "label"@) matches Some(l)
            && (member(l, "enum"@) matches Some(JsonView::Array(list)) && list.len() == labels.len())),
        ({
            let r = classify_record(label, duration_ms);
            &&& r.tool == "classify"@ && r.duration_ms == duration_ms && r.ok == (label is Ok)
            &&& label matches Ok(l) ==> r.label == Some(l) && r.error is None
            &&& label matches Err(e) ==> r.error == Some(e) && r.label is None
        }),
{
    if let JsonView::Str(s) = input {
        law_a_classifier_is_offered_every_label(labels, s);
    } else {
        law_a_classifier_is_offered_every_label(labels, Seq::empty());
    }
}

/// A classifier that fails leaves its error; and one that answers, the label that it chose
/// among those that the flow routes.
pub proof fn law_a_reply_labels_the_input(def: FlowDef, reply: Result<ReplyView, Seq<char>>, label: Seq<char>)
    requires
        def.kind is Route,
    ensures
        reply matches Err(e) ==> reply_label(def, reply) == Err::<Seq<char>, Seq<char>>(e),
        reply matches Ok(r) ==> (r.tool_calls.len() > 0 && r.tool_calls[0].name == "choose"@ && member(
            r.tool_calls[0].arguments,
            "label"@,
        ) == Some(JsonView::Str(label)) && labels_of(def).contains(label) ==> (reply_label(def, reply) matches Ok(l)
            && lowered(l) == lowered(label) && labels_of(def).contains(l))),
        def.kind matches FlowKind::Route { routes, .. } ==> labels_of(def).len() == routes.pairs().len() && forall|i: int|
            0 <= i < routes.pairs().len() ==> #[trigger] labels_of(def)[i] == routes.pairs()[i].0,
{
    if let Ok(r) = reply {
        if r.tool_calls.len() > 0 && r.tool_calls[0].name == "choose"@ && member(r.tool_calls[0].arguments, "label"@) == Some(
            JsonView::Str(label),
        ) && labels_of(def).contains(label) {
            let labels = labels_of(def);
            law_the_label_is_the_one_that_was_chosen(def.name@, labels, r, label);
            let i = choose|i: int| 0 <= i < labels.len() && labels[i] == label;
            assert(lowered(labels[i]) == lowered(label));
        }
    }
}

/// Without a call, a label that the reply is, in quotes or not, is the one that it chose;
/// and a reply in which none can be found is an error.
pub proof fn law_a_plain_answer_is_a_label(flow: Seq<char>, labels: Seq<Seq<char>>, r: ReplyView, i: int)
    requires
        r.tool_calls.len() == 0,
        recovered(r.text) is None,
    ensures
        0 <= i < labels.len() && unwrapped_by(trimmed(r.text), '"') == labels[i] ==> (label_of(flow, labels, r) matches Ok(l)
            && labels.contains(l) && lowered(l) == lowered(labels[i])),
        (forall|k: int| 0 <= k < labels.len() ==> lowered(#[trigger] labels[k]) != lowered(unwrapped_by(trimmed(r.text), '"')))
            ==> label_of(flow, labels, r) is Err,
{
    lemma_matching_label(labels, unwrapped_by(trimmed(r.text), '"'));
    assert(first_call(r.tool_calls, "choose"@) is None);
    let said = unwrapped_by(trimmed(r.text), '"');
    if let Some(l) = matching_label(labels, said) {
        lemma_matching_label(labels, l);
    }
}

/// A step of a flow is called under the flow's authority, one deeper than the flow; a gated
/// tool is not.
pub proof fn law_a_step_is_called_under_the_flows_authority(
    routes: Seq<Route>,
    tool: Seq<char>,
    args: Map<Seq<char>, JsonView>,
    actor: PrincipalView,
    depth: u32,
)
    requires
        depth < u32::MAX,
    ensures
        ({
            let gated = tool_route(routes, tool) matches Some(r) && r.approval == Approval::Required;
            let call = step_call(routes, tool, JsonView::Object(args), actor, depth);
            &&& gated ==> call is Err
            &&& !gated && tool_route(routes, tool) is Some ==> (call matches Ok(ask) && ask.principal == actor && ask.depth
                == depth + 1 && ask.method == tool_route(routes, tool)->0.method@)
        }),
{
    if tool_route(routes, tool) is Some {
        crate::app::law_a_tool_call_carries_its_arguments(routes, tool, args, actor, deeper(depth), tool);
    }
}

/// A step that waits for a human says on which approval, and one that failed says what its
/// last step did.
pub proof fn law_a_step_that_did_not_go_well_says_why(tool: Seq<char>, v: JsonView, pending: JsonView, id: Seq<char>, steps: Seq<JsonView>, last: JsonView, why: Seq<char>)
    ensures
        member(v, "pending_approval"@) == Some(pending) && member(pending, "approval_id"@) == Some(JsonView::Str(id))
            ==> contains_text(suspended_text(tool, v), id),
        member(last, "error"@) == Some(JsonView::Str(why)) ==> last_error(steps.push(last)) == Some(why),
        member(last, "error"@) is None ==> last_error(steps.push(last)) == last_error(steps),
        last_error(Seq::empty()) is None,
{
    assert(steps.push(last).drop_last() =~= steps);
    if member(v, "pending_approval"@) == Some(pending) && member(pending, "approval_id"@) == Some(JsonView::Str(id)) {
        let s = suspended_text(tool, v);
        let before = "step "@ + debug_quoted(tool) + " suspended on an approval gate (approval "@;
        assert(s.subrange(before.len() as int, before.len() as int + id.len()) =~= id);
        assert(crate::text::occurs_at(s, id, before.len() as int));
    }
}

/// A classifier is shown a text as it is, the input alone where that is all there is, and
/// anything else as it prints.
pub proof fn law_a_classifier_is_shown_the_input(s: Seq<char>, v: JsonView, m: Map<Seq<char>, JsonView>)
    ensures
        shown_input(JsonView::Str(s)) == s,
        shown_input(JsonView::Object(map!["input"@ => JsonView::Str(s)])) == s,
        m.contains_key(s) && s != "input"@ ==> shown_input(JsonView::Object(m)) == crate::json::json_pretty(
            JsonView::Object(m),
        ),
        v is Array || v is Number || v is Bool || v is Null ==> shown_input(v) == crate::json::json_pretty(v),
{
    assert(only_member(map!["input"@ => JsonView::Str(s)], "input"@)) by {
        assert(map!["input"@ => JsonView::Str(s)].dom() =~= set!["input"@]);
    }
    if m.contains_key(s) && s != "input"@ && only_member(m, "input"@) {
        assert(m.dom().contains(s));
    }
}

/// A flow that failed is audited as failed, with what its tree spent.
pub proof fn law_a_failed_flow_is_audited(v: FlowView, def: FlowDef, tree: u64)
    ensures
        ({
            let e = flow_failed(v, def, tree);
            &&& e.kind == "flow_finished"@ && e.run_id == v.run_id && e.tool == Some(def.name@)
            &&& member(e.detail, "status"@) == Some(JsonView::Str("failed"@))
            &&& member(e.detail, "tree_tokens"@) == Some(JsonView::Number(crate::json::NumberView::Int(tree as int)))
        }),
{
    reveal_strlit("status");
    reveal_strlit("tree_tokens");
    assert("status"@.len() == 6);
    assert("tree_tokens"@.len() == 11);
}

} // verus!
