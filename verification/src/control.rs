//! The control plane: introspection and operations endpoints, mounted under the
//! server's control prefix.
//!
//! Everything except `/health` requires the `webcortex:admin` scope when any
//! authentication is configured. An open endpoint here would be an open door to
//! every tool in the application.

use crate::audit::{AuditEvent, EventView, event_views};
use crate::auth::{Principal, PrincipalKind, PrincipalView, grants};
use crate::http::{PylonResponse, ResponseView, error_response, json_response};
use crate::json::{
    Json, JsonView, Members, NumberView, member, member_text, parse_bytes, text_array, texts_to_json, views,
};
use crate::manifest::{
    AgentDef, Approval, BehaviourDef, ContextDef, ContextPolicy, ContextSource, FlowDef, FlowKind, FlowStep, Manifest,
    MergeStrategy, Op, Route, is_public,
};
use crate::mcp::exposed;
use crate::openapi::{agent_names, document, flow_names, generate, tool_names};
use crate::run::{maybe_json, maybe_text, put_text, text_value, with_member};
use crate::table::{Table, pairs_map};
use crate::text::{cat3, lemma_texts_push, only, same, starts_with, strip_prefix, texts, trim_end_by, trim_end_char};
use crate::validation::manifest_fault;
use vstd::prelude::*;

verus! {

/// A count as a value.
pub open spec fn number(n: int) -> JsonView {
    JsonView::Number(NumberView::Int(n))
}

/// A value that may be absent, which is then null.
pub open spec fn or_null(v: Option<JsonView>) -> JsonView {
    match v {
        Some(j) => j,
        None => JsonView::Null,
    }
}

/// A count that may be absent.
pub open spec fn number_or_null(n: Option<u64>) -> JsonView {
    match n {
        Some(k) => number(k as int),
        None => JsonView::Null,
    }
}

fn json_or_null(v: &Option<Json>) -> (r: Json)
    ensures
        r@ == or_null(maybe_json(*v)),
{
    match v {
        Some(j) => j.copy(),
        None => Json::Null,
    }
}

fn text_or_null(v: &Option<String>) -> (r: Json)
    ensures
        r@ == or_null(text_value(maybe_text(*v))),
{
    match v {
        Some(s) => Json::str(s.as_str()),
        None => Json::Null,
    }
}

fn count_or_null(v: Option<u64>) -> (r: Json)
    ensures
        r@ == number_or_null(v),
{
    match v {
        Some(n) => Json::num(n),
        None => Json::Null,
    }
}

/// An object of one member.
pub open spec fn single(name: Seq<char>, value: JsonView) -> JsonView {
    JsonView::Object(Map::empty().insert(name, value))
}

fn single_json(name: &str, value: Json) -> (r: Json)
    ensures
        r@ == single(name@, value@),
{
    let mut m = Members::new();
    m.put(name, value);
    Json::Object(m)
}

/// What the running application holds, beside its manifest.
pub struct Live {
    /// Interpreter workers.
    pub workers: u64,
    /// Multi-turn sessions in memory.
    pub sessions: u64,
    /// What the ledger reports.
    pub usage: Json,
    /// What the model registry describes.
    pub models: Json,
    /// A summary of each run that waits for a human.
    pub approvals: Vec<Json>,
    /// The newest events of the audit trail.
    pub events: Vec<AuditEvent>,
}

/// What is said of the application's health.
pub open spec fn health_json(m: Manifest, live: Live) -> JsonView {
    JsonView::Object(
        Map::empty().insert("status"@, JsonView::Str("ok"@)).insert("app"@, JsonView::Str(m.name@)).insert(
            "version"@,
            JsonView::Str(m.version@),
        ).insert("routes"@, number(m.routes@.len() as int)).insert(
            "tools"@,
            number(exposed(m.routes@).len() as int),
        ).insert("agents"@, number(m.agents@.len() as int)).insert(
            "behaviours"@,
            number(m.behaviours@.len() as int),
        ).insert("flows"@, number(m.flows@.len() as int)).insert("python_workers"@, number(live.workers as int)).insert(
            "sessions"@,
            number(live.sessions as int),
        ).insert("pending_approvals"@, number(live.approvals@.len() as int)),
    )
}

fn health(m: &Manifest, live: &Live) -> (r: Json)
    ensures
        r@ == health_json(*m, *live),
{
    let tools = m.exposed_tools();
    assert(tools@.len() == tools@.unref().len());
    let mut o = Members::new();
    o.put("status", Json::str("ok"));
    o.put("app", Json::str(m.name.as_str()));
    o.put("version", Json::str(m.version.as_str()));
    o.put("routes", Json::num(m.routes.len() as u64));
    o.put("tools", Json::num(tools.len() as u64));
    o.put("agents", Json::num(m.agents.len() as u64));
    o.put("behaviours", Json::num(m.behaviours.len() as u64));
    o.put("flows", Json::num(m.flows.len() as u64));
    o.put("python_workers", Json::num(live.workers));
    o.put("sessions", Json::num(live.sessions));
    o.put("pending_approvals", Json::num(live.approvals.len() as u64));
    Json::Object(o)
}

/// A step of a flow.
pub open spec fn flow_step_json(s: FlowStep) -> JsonView {
    JsonView::Object(
        Map::empty().insert("tool"@, JsonView::Str(s.tool@)).insert("input"@, or_null(maybe_json(s.input))),
    )
}

/// A list of steps.
pub open spec fn flow_steps_json(list: Seq<FlowStep>) -> JsonView {
    JsonView::Array(list.map_values(|s: FlowStep| flow_step_json(s)))
}

/// The shape of a flow.
pub open spec fn flow_kind_json(k: FlowKind) -> JsonView {
    JsonView::Object(
        match k {
            FlowKind::Pipeline { steps } => Map::empty().insert("kind"@, JsonView::Str("pipeline"@)).insert(
                "steps"@,
                flow_steps_json(steps@),
            ),
            FlowKind::Parallel { branches, merge } => Map::empty().insert("kind"@, JsonView::Str("parallel"@)).insert(
                "branches"@,
                flow_steps_json(branches@),
            ).insert(
                "merge"@,
                JsonView::Str(
                    match merge {
                        MergeStrategy::Collect => "collect"@,
                        MergeStrategy::Merge => "merge"@,
                    },
                ),
            ),
            FlowKind::Route { routes, default, classify_with, classify_prompt } => Map::empty().insert(
                "kind"@,
                JsonView::Str("route"@),
            ).insert("routes"@, JsonView::Object(routes@.map_values(|s: FlowStep| flow_step_json(s)))).insert(
                "default"@,
                match default {
                    Some(s) => flow_step_json(s),
                    None => JsonView::Null,
                },
            ).insert("classify_with"@, or_null(text_value(maybe_text(classify_with)))).insert(
                "classify_prompt"@,
                or_null(text_value(maybe_text(classify_prompt))),
            ),
        },
    )
}

/// A flow as the control plane lists it.
pub open spec fn flow_json(f: FlowDef) -> JsonView {
    JsonView::Object(
        Map::empty().insert("name"@, JsonView::Str(f.name@)).insert("description"@, JsonView::Str(f.description@)).insert(
            "kind"@,
            flow_kind_json(f.kind),
        ).insert("scopes"@, text_array(texts(f.scopes@))).insert("token_budget"@, number_or_null(f.token_budget)).insert(
            "input_schema"@,
            or_null(maybe_json(f.input_schema)),
        ),
    )
}

fn flow_step(s: &FlowStep) -> (r: Json)
    ensures
        r@ == flow_step_json(*s),
{
    let mut o = Members::new();
    o.put("tool", Json::str(s.tool.as_str()));
    o.put("input", json_or_null(&s.input));
    Json::Object(o)
}

fn flow_steps(list: &Vec<FlowStep>) -> (r: Json)
    ensures
        r@ == flow_steps_json(list@),
{
    let mut out: Vec<Json> = Vec::new();
    let mut i: usize = 0;
    while i < list.len()
        invariant
            i <= list@.len(),
            out@.len() == i,
            forall|k: int| 0 <= k < i ==> (#[trigger] out@[k])@ == flow_step_json(list@[k]),
        decreases list.len() - i,
    {
        out.push(flow_step(&list[i]));
        i = i + 1;
    }
    assert(views(out@) =~= list@.map_values(|s: FlowStep| flow_step_json(s)));
    Json::array(out)
}

fn flow_routes(t: &Table<FlowStep>) -> (r: Json)
    ensures
        r@ == JsonView::Object(t@.map_values(|s: FlowStep| flow_step_json(s))),
{
    let ghost show = |s: FlowStep| flow_step_json(s);
    let mut m = Members::new();
    let n: usize = t.len();
    let ghost all = t.pairs();
    let mut i: usize = 0;
    assert(pairs_map(all.take(0)).map_values(show) =~= Map::<Seq<char>, JsonView>::empty());
    while i < n
        invariant
            i <= n == all.len(),
            all == t.pairs(),
            show == (|s: FlowStep| flow_step_json(s)),
            Json::Object(m)@ == JsonView::Object(pairs_map(all.take(i as int)).map_values(show)),
        decreases n - i,
    {
        let k = t.key_at(i);
        let v = t.value_at(i);
        m.put(k, flow_step(v));
        proof {
            assert(all.take(i + 1).drop_last() =~= all.take(i as int));
            assert(pairs_map(all.take(i + 1)).map_values(show) =~= pairs_map(all.take(i as int)).map_values(show).insert(
                k@,
                flow_step_json(*v),
            ));
        }
        i = i + 1;
    }
    assert(all.take(all.len() as int) =~= all);
    Json::Object(m)
}

fn flow_kind(k: &FlowKind) -> (r: Json)
    ensures
        r@ == flow_kind_json(*k),
{
    let mut o = Members::new();
    match k {
        FlowKind::Pipeline { steps } => {
            o.put("kind", Json::str("pipeline"));
            o.put("steps", flow_steps(steps));
        },
        FlowKind::Parallel { branches, merge } => {
            o.put("kind", Json::str("parallel"));
            o.put("branches", flow_steps(branches));
            o.put(
                "merge",
                match merge {
                    MergeStrategy::Collect => Json::str("collect"),
                    MergeStrategy::Merge => Json::str("merge"),
                },
            );
        },
        FlowKind::Route { routes, default, classify_with, classify_prompt } => {
            o.put("kind", Json::str("route"));
            o.put("routes", flow_routes(routes));
            o.put(
                "default",
                match default {
                    Some(s) => flow_step(s),
                    None => Json::Null,
                },
            );
            o.put("classify_with", text_or_null(classify_with));
            o.put("classify_prompt", text_or_null(classify_prompt));
        },
    }
    Json::Object(o)
}

fn flow_entry(f: &FlowDef) -> (r: Json)
    ensures
        r@ == flow_json(*f),
{
    let mut o = Members::new();
    o.put("name", Json::str(f.name.as_str()));
    o.put("description", Json::str(f.description.as_str()));
    o.put("kind", flow_kind(&f.kind));
    o.put("scopes", texts_to_json(&f.scopes));
    o.put("token_budget", count_or_null(f.token_budget));
    o.put("input_schema", json_or_null(&f.input_schema));
    Json::Object(o)
}

fn list_flows(list: &Vec<FlowDef>) -> (r: Json)
    ensures
        r@ == JsonView::Array(list@.map_values(|f: FlowDef| flow_json(f))),
{
    let mut out: Vec<Json> = Vec::new();
    let mut i: usize = 0;
    while i < list.len()
        invariant
            i <= list@.len(),
            out@.len() == i,
            forall|k: int| 0 <= k < i ==> (#[trigger] out@[k])@ == flow_json(list@[k]),
        decreases list.len() - i,
    {
        out.push(flow_entry(&list[i]));
        i = i + 1;
    }
    assert(views(out@) =~= list@.map_values(|f: FlowDef| flow_json(f)));
    Json::array(out)
}

/// A context provider as the control plane lists it.
pub open spec fn context_json(c: ContextDef) -> JsonView {
    JsonView::Object(
        Map::empty().insert("name"@, JsonView::Str(c.name@)).insert("description"@, JsonView::Str(c.description@)).insert(
            "kind"@,
            JsonView::Str(
                match c.source {
                    ContextSource::Static { .. } => "static"@,
                    ContextSource::Query { .. } => "query"@,
                    ContextSource::Python { .. } => "python"@,
                },
            ),
        ).insert("max_chars"@, number(c.max_chars as int)),
    )
}

fn list_contexts(list: &Vec<ContextDef>) -> (r: Json)
    ensures
        r@ == JsonView::Array(list@.map_values(|c: ContextDef| context_json(c))),
{
    let mut out: Vec<Json> = Vec::new();
    let mut i: usize = 0;
    while i < list.len()
        invariant
            i <= list@.len(),
            out@.len() == i,
            forall|k: int| 0 <= k < i ==> (#[trigger] out@[k])@ == context_json(list@[k]),
        decreases list.len() - i,
    {
        let c = &list[i];
        let mut o = Members::new();
        o.put("name", Json::str(c.name.as_str()));
        o.put("description", Json::str(c.description.as_str()));
        o.put(
            "kind",
            match &c.source {
                ContextSource::Static { .. } => Json::str("static"),
                ContextSource::Query { .. } => Json::str("query"),
                ContextSource::Python { .. } => Json::str("python"),
            },
        );
        o.put("max_chars", Json::num(c.max_chars as u64));
        out.push(Json::Object(o));
        i = i + 1;
    }
    assert(views(out@) =~= list@.map_values(|c: ContextDef| context_json(c)));
    Json::array(out)
}

/// A tool as the control plane lists it.
pub open spec fn tool_json(r: Route) -> JsonView {
    JsonView::Object(
        Map::empty().insert("name"@, JsonView::Str(r.tool_text())).insert("method"@, JsonView::Str(r.method@)).insert(
            "path"@,
            JsonView::Str(r.path@),
        ).insert("description"@, JsonView::Str(r.description@)).insert(
            "input_schema"@,
            or_null(maybe_json(r.input_schema)),
        ).insert("read_only"@, JsonView::Bool(r.tool.read_only)).insert("scopes"@, text_array(texts(r.scopes@))).insert(
            "approval"@,
            JsonView::Str(
                match r.approval {
                    Approval::Never => "never"@,
                    Approval::Required => "required"@,
                },
            ),
        ),
    )
}

fn tool_entry(r: &Route) -> (j: Json)
    ensures
        j@ == tool_json(*r),
{
    let mut o = Members::new();
    o.put("name", Json::str(r.tool_name().as_str()));
    o.put("method", Json::str(r.method.as_str()));
    o.put("path", Json::str(r.path.as_str()));
    o.put("description", Json::str(r.description.as_str()));
    o.put("input_schema", json_or_null(&r.input_schema));
    o.put("read_only", Json::Bool(r.tool.read_only));
    o.put("scopes", texts_to_json(&r.scopes));
    o.put(
        "approval",
        match r.approval {
            Approval::Never => Json::str("never"),
            Approval::Required => Json::str("required"),
        },
    );
    Json::Object(o)
}

fn list_tools(m: &Manifest) -> (r: Json)
    ensures
        r@ == JsonView::Array(exposed(m.routes@).map_values(|x: Route| tool_json(x))),
{
    let tools = m.exposed_tools();
    let ghost all = exposed(m.routes@);
    assert(tools@.unref() == all);
    let mut out: Vec<Json> = Vec::new();
    let mut i: usize = 0;
    while i < tools.len()
        invariant
            i <= tools@.len(),
            tools@.unref() == all,
            out@.len() == i,
            forall|k: int| 0 <= k < i ==> (#[trigger] out@[k])@ == tool_json(all[k]),
        decreases tools.len() - i,
    {
        assert(all[i as int] == *tools@[i as int]);
        out.push(tool_entry(tools[i]));
        i = i + 1;
    }
    assert(views(out@) =~= all.map_values(|x: Route| tool_json(x)));
    Json::array(out)
}

/// A route as the control plane lists it.
pub open spec fn route_json(r: Route) -> JsonView {
    JsonView::Object(
        Map::empty().insert("id"@, number(r.id as int)).insert("method"@, JsonView::Str(r.method@)).insert(
            "path"@,
            JsonView::Str(r.path@),
        ).insert("op"@, JsonView::Str(r.op.kind_text())).insert(
            "tool"@,
            if r.tool.expose {
                JsonView::Str(r.tool_text())
            } else {
                JsonView::Null
            },
        ).insert("scopes"@, text_array(texts(r.scopes@))),
    )
}

fn list_routes(list: &Vec<Route>) -> (r: Json)
    ensures
        r@ == JsonView::Array(list@.map_values(|x: Route| route_json(x))),
{
    let mut out: Vec<Json> = Vec::new();
    let mut i: usize = 0;
    while i < list.len()
        invariant
            i <= list@.len(),
            out@.len() == i,
            forall|k: int| 0 <= k < i ==> (#[trigger] out@[k])@ == route_json(list@[k]),
        decreases list.len() - i,
    {
        let r = &list[i];
        let mut o = Members::new();
        o.put("id", Json::num(r.id as u64));
        o.put("method", Json::str(r.method.as_str()));
        o.put("path", Json::str(r.path.as_str()));
        o.put("op", Json::str(r.op.kind()));
        o.put(
            "tool",
            if r.tool.expose {
                Json::str(r.tool_name().as_str())
            } else {
                Json::Null
            },
        );
        o.put("scopes", texts_to_json(&r.scopes));
        out.push(Json::Object(o));
        i = i + 1;
    }
    assert(views(out@) =~= list@.map_values(|x: Route| route_json(x)));
    Json::array(out)
}

/// An audit event as a value: what is absent is left out.
pub open spec fn event_json(e: EventView) -> JsonView {
    let m = with_member(
        with_member(
            Map::empty().insert("kind"@, JsonView::Str(e.kind)).insert("run_id"@, JsonView::Str(e.run_id)),
            "actor"@,
            text_value(e.actor),
        ),
        "tool"@,
        text_value(e.tool),
    );
    JsonView::Object(
        if e.detail == JsonView::Null {
            m
        } else {
            m.insert("detail"@, e.detail)
        },
    )
}

fn list_events(list: &Vec<AuditEvent>) -> (r: Json)
    ensures
        r@ == JsonView::Array(event_views(list@).map_values(|e: EventView| event_json(e))),
{
    let ghost all = event_views(list@);
    let mut out: Vec<Json> = Vec::new();
    let mut i: usize = 0;
    while i < list.len()
        invariant
            i <= list@.len(),
            all == event_views(list@),
            out@.len() == i,
            forall|k: int| 0 <= k < i ==> (#[trigger] out@[k])@ == event_json(all[k]),
        decreases list.len() - i,
    {
        let e = &list[i];
        assert(all[i as int] == e@);
        let mut o = Members::new();
        o.put("kind", Json::str(e.kind.as_str()));
        o.put("run_id", Json::str(e.run_id.as_str()));
        put_text(&mut o, "actor", &e.actor);
        put_text(&mut o, "tool", &e.tool);
        if !e.detail.is_null() {
            o.put("detail", e.detail.copy());
        }
        out.push(Json::Object(o));
        i = i + 1;
    }
    assert(views(out@) =~= all.map_values(|e: EventView| event_json(e)));
    Json::array(out)
}

/// A behaviour as the control plane lists it.
pub open spec fn behaviour_json(b: BehaviourDef) -> JsonView {
    JsonView::Object(
        Map::empty().insert("name"@, JsonView::Str(b.name@)).insert("description"@, JsonView::Str(b.description@)).insert(
            "tools"@,
            text_array(texts(b.tools@)),
        ).insert("scopes"@, text_array(texts(b.scopes@))).insert("max_steps"@, number(b.max_steps as int)).insert(
            "token_budget"@,
            number_or_null(b.token_budget),
        ).insert("input_schema"@, or_null(maybe_json(b.input_schema))),
    )
}

fn list_behaviours(list: &Vec<BehaviourDef>) -> (r: Json)
    ensures
        r@ == JsonView::Array(list@.map_values(|b: BehaviourDef| behaviour_json(b))),
{
    let mut out: Vec<Json> = Vec::new();
    let mut i: usize = 0;
    while i < list.len()
        invariant
            i <= list@.len(),
            out@.len() == i,
            forall|k: int| 0 <= k < i ==> (#[trigger] out@[k])@ == behaviour_json(list@[k]),
        decreases list.len() - i,
    {
        let b = &list[i];
        let mut o = Members::new();
        o.put("name", Json::str(b.name.as_str()));
        o.put("description", Json::str(b.description.as_str()));
        o.put("tools", texts_to_json(&b.tools));
        o.put("scopes", texts_to_json(&b.scopes));
        o.put("max_steps", Json::num(b.max_steps as u64));
        o.put("token_budget", count_or_null(b.token_budget));
        o.put("input_schema", json_or_null(&b.input_schema));
        out.push(Json::Object(o));
        i = i + 1;
    }
    assert(views(out@) =~= list@.map_values(|b: BehaviourDef| behaviour_json(b)));
    Json::array(out)
}

/// What an agent keeps of its context.
pub open spec fn policy_json(p: ContextPolicy) -> JsonView {
    JsonView::Object(
        Map::empty().insert("max_tool_result_bytes"@, number(p.max_tool_result_bytes as int)).insert(
            "max_context_tokens"@,
            number_or_null(p.max_context_tokens),
        ).insert("compact_with"@, or_null(text_value(maybe_text(p.compact_with)))).insert(
            "keep_recent"@,
            number(p.keep_recent as int),
        ),
    )
}

/// An agent as the control plane lists it.
pub open spec fn agent_json(a: AgentDef) -> JsonView {
    JsonView::Object(
        Map::empty().insert("name"@, JsonView::Str(a.name@)).insert("model"@, JsonView::Str(a.model@)).insert(
            "description"@,
            JsonView::Str(a.description@),
        ).insert("tools"@, text_array(texts(a.tools@))).insert("handoffs"@, text_array(texts(a.handoffs@))).insert(
            "context"@,
            text_array(texts(a.context@)),
        ).insert(
            "max_steps"@,
            match a.max_steps {
                Some(n) => number(n as int),
                None => JsonView::Null,
            },
        ).insert("token_budget"@, number_or_null(a.token_budget)).insert("scopes"@, text_array(texts(a.scopes@))).insert(
            "cache"@,
            JsonView::Bool(a.cache),
        ).insert("policy"@, policy_json(a.policy)),
    )
}

fn agent_entry(a: &AgentDef) -> (r: Json)
    ensures
        r@ == agent_json(*a),
{
    let mut p = Members::new();
    p.put("max_tool_result_bytes", Json::num(a.policy.max_tool_result_bytes as u64));
    p.put("max_context_tokens", count_or_null(a.policy.max_context_tokens));
    p.put("compact_with", text_or_null(&a.policy.compact_with));
    p.put("keep_recent", Json::num(a.policy.keep_recent as u64));
    let mut o = Members::new();
    o.put("name", Json::str(a.name.as_str()));
    o.put("model", Json::str(a.model.as_str()));
    o.put("description", Json::str(a.description.as_str()));
    o.put("tools", texts_to_json(&a.tools));
    o.put("handoffs", texts_to_json(&a.handoffs));
    o.put("context", texts_to_json(&a.context));
    o.put(
        "max_steps",
        match a.max_steps {
            Some(n) => Json::num(n as u64),
            None => Json::Null,
        },
    );
    o.put("token_budget", count_or_null(a.token_budget));
    o.put("scopes", texts_to_json(&a.scopes));
    o.put("cache", Json::Bool(a.cache));
    o.put("policy", Json::Object(p));
    Json::Object(o)
}

fn list_agents(list: &Vec<AgentDef>) -> (r: Json)
    ensures
        r@ == JsonView::Array(list@.map_values(|a: AgentDef| agent_json(a))),
{
    let mut out: Vec<Json> = Vec::new();
    let mut i: usize = 0;
    while i < list.len()
        invariant
            i <= list@.len(),
            out@.len() == i,
            forall|k: int| 0 <= k < i ==> (#[trigger] out@[k])@ == agent_json(list@[k]),
        decreases list.len() - i,
    {
        out.push(agent_entry(&list[i]));
        i = i + 1;
    }
    assert(views(out@) =~= list@.map_values(|a: AgentDef| agent_json(a)));
    Json::array(out)
}

/// Whether any authentication is configured.
pub open spec fn has_auth(m: Manifest) -> bool {
    m.auth.api_keys@.len() > 0 || m.auth.jwt is Some
}

/// The routes that a human must approve.
pub open spec fn gated_names(routes: Seq<Route>) -> Seq<Seq<char>>
    decreases routes.len(),
{
    if routes.len() == 0 {
        Seq::empty()
    } else if routes.last().approval == Approval::Required {
        gated_names(routes.drop_last()).push(routes.last().tool_text())
    } else {
        gated_names(routes.drop_last())
    }
}

/// A route in a few words.
pub open spec fn route_line(r: Route) -> Seq<char> {
    r.method@ + " "@ + r.path@
}

/// The security posture: what is reachable with no credential.
pub open spec fn security_json(m: Manifest) -> JsonView {
    JsonView::Object(
        Map::empty().insert("auth_configured"@, JsonView::Bool(has_auth(m))).insert(
            "cors_enabled"@,
            JsonView::Bool(m.cors.enabled),
        ).insert("cors_origins"@, text_array(texts(m.cors.allow_origins@))).insert(
            "rate_limited"@,
            JsonView::Bool(m.rate_limit.enabled),
        ).insert("security_headers"@, JsonView::Bool(m.security_headers.enabled)).insert(
            "anonymous_scopes"@,
            text_array(texts(m.auth.anonymous_scopes@)),
        ).insert(
            "public_routes"@,
            text_array(m.routes@.filter(|x: Route| is_public(x)).map_values(|x: Route| route_line(x))),
        ).insert("gated_tools"@, text_array(gated_names(m.routes@))),
    )
}

fn gated_tools(routes: &Vec<Route>) -> (r: Vec<String>)
    ensures
        texts(r@) == gated_names(routes@),
{
    let ghost all = routes@;
    let mut out: Vec<String> = Vec::new();
    let mut i: usize = 0;
    assert(texts(out@) =~= gated_names(all.take(0)));
    while i < routes.len()
        invariant
            i <= routes@.len(),
            all == routes@,
            texts(out@) == gated_names(all.take(i as int)),
        decreases routes.len() - i,
    {
        proof {
            assert(all.take(i + 1).drop_last() =~= all.take(i as int));
            assert(all.take(i + 1).last() == all[i as int]);
        }
        if let Approval::Required = routes[i].approval {
            let name = routes[i].tool_name();
            proof {
                lemma_texts_push(out@, name);
            }
            out.push(name);
        }
        i = i + 1;
    }
    assert(all.take(all.len() as int) =~= all);
    out
}

fn public_lines(m: &Manifest) -> (r: Vec<String>)
    ensures
        texts(r@) == m.routes@.filter(|x: Route| is_public(x)).map_values(|x: Route| route_line(x)),
{
    let open = m.public_routes();
    let ghost all = m.routes@.filter(|x: Route| is_public(x));
    let mut out: Vec<String> = Vec::new();
    let mut i: usize = 0;
    while i < open.len()
        invariant
            i <= open@.len(),
            open@.unref() == all,
            out@.len() == i,
            forall|k: int| 0 <= k < i ==> (#[trigger] out@[k])@ == route_line(all[k]),
        decreases open.len() - i,
    {
        assert(all[i as int] == *open@[i as int]);
        out.push(cat3(open[i].method.as_str(), " ", open[i].path.as_str()));
        i = i + 1;
    }
    assert(texts(out@) =~= all.map_values(|x: Route| route_line(x)));
    out
}

fn security(m: &Manifest) -> (r: Json)
    ensures
        r@ == security_json(*m),
{
    let mut o = Members::new();
    o.put("auth_configured", Json::Bool(auth_configured(m)));
    o.put("cors_enabled", Json::Bool(m.cors.enabled));
    o.put("cors_origins", texts_to_json(&m.cors.allow_origins));
    o.put("rate_limited", Json::Bool(m.rate_limit.enabled));
    o.put("security_headers", Json::Bool(m.security_headers.enabled));
    o.put("anonymous_scopes", texts_to_json(&m.auth.anonymous_scopes));
    o.put("public_routes", texts_to_json(&public_lines(m)));
    o.put("gated_tools", texts_to_json(&gated_tools(&m.routes)));
    Json::Object(o)
}

/// Whether any authentication is configured.
pub fn auth_configured(m: &Manifest) -> (r: bool)
    ensures
        r == has_auth(*m),
{
    m.auth.api_keys.len() > 0 || m.auth.jwt.is_some()
}

/// The discovery handshake some clients issue before they post.
pub open spec fn mcp_json() -> JsonView {
    JsonView::Object(
        Map::empty().insert("transport"@, JsonView::Str("streamable-http"@)).insert(
            "protocolVersion"@,
            JsonView::Str(crate::mcp::protocol_version()),
        ).insert("hint"@, JsonView::Str("POST JSON-RPC to this endpoint"@)),
    )
}

/// A text without any copies of a prefix at its start.
pub open spec fn without_prefixes(s: Seq<char>, prefix: Seq<char>) -> Seq<char>
    decreases s.len(),
{
    if prefix.len() > 0 && prefix.is_prefix_of(s) {
        without_prefixes(s.skip(prefix.len() as int), prefix)
    } else {
        s
    }
}

fn strip_prefixes(text: &str, prefix: &str) -> (r: String)
    requires
        prefix@.len() > 0,
    ensures
        r@ == without_prefixes(text@, prefix@),
{
    let mut left = text.to_owned();
    loop
        invariant
            prefix@.len() > 0,
            without_prefixes(left@, prefix@) == without_prefixes(text@, prefix@),
        ensures
            left@ == without_prefixes(text@, prefix@),
        decreases left@.len(),
    {
        match strip_prefix(left.as_str(), prefix) {
            Some(rest) => {
                proof {
                    assert(prefix@.is_prefix_of(left@));
                    assert(rest@ =~= left@.skip(prefix@.len() as int));
                }
                left = rest;
            },
            None => {
                break;
            },
        }
    }
    left
}

/// What a request to the control plane comes to.
pub enum Control {
    /// The answer is there.
    Reply(PylonResponse),
    /// A gated call is decided, and the run that asked for it goes on.
    Decide { id: String, approve: bool, note: String },
    /// The body is a message of the tool protocol: [`crate::mcp::handle`].
    Mcp,
}

/// What a [`Control`] says.
pub enum ControlView {
    Reply(ResponseView),
    Decide { id: Seq<char>, approve: bool, note: Seq<char> },
    Mcp,
}

impl View for Control {
    type V = ControlView;

    open spec fn view(&self) -> ControlView {
        match *self {
            Control::Reply(r) => ControlView::Reply(r@),
            Control::Decide { id, approve, note } => ControlView::Decide { id: id@, approve, note: note@ },
            Control::Mcp => ControlView::Mcp,
        }
    }
}

/// What a human's decision comes to.
pub open spec fn decision_of(rest: Seq<char>, body: Seq<u8>) -> ControlView {
    let said = match crate::json::json_parsed_bytes(body) {
        Some(j) => j,
        None => JsonView::Null,
    };
    match member(said, "approve"@) {
        Some(JsonView::Bool(approve)) => ControlView::Decide {
            id: trim_end_by(without_prefixes(rest, "/approvals/"@), only('/')),
            approve,
            note: match member_text(said, "note"@) {
                Some(n) => n,
                None => ""@,
            },
        },
        _ => ControlView::Reply(
            error_response(400, "body must be {\"approve\": true|false, \"note\": \"\u{2026}\"}"@),
        ),
    }
}

fn decide(rest: &str, body: &[u8]) -> (r: Control)
    ensures
        r@ == decision_of(rest@, body@),
{
    let said = match parse_bytes(body) {
        Some(j) => j,
        None => Json::Null,
    };
    let approve = match said.get("approve") {
        Some(Json::Bool(b)) => *b,
        _ => {
            return Control::Reply(
                PylonResponse::error(400, "body must be {\"approve\": true|false, \"note\": \"\u{2026}\"}"),
            );
        },
    };
    let note = match said.get_str("note") {
        Some(n) => n.to_owned(),
        None => "".to_owned(),
    };
    proof {
        reveal_strlit("/approvals/");
    }
    let id = trim_end_char(strip_prefixes(rest, "/approvals/").as_str(), '/');
    Control::Decide { id, approve, note }
}

/// What is said of a control endpoint that is not there.
pub open spec fn no_endpoint(method: Seq<char>, rest: Seq<char>, request_id: Seq<char>) -> ControlView {
    ControlView::Reply(
        error_response(
            404,
            "no control endpoint "@ + method + " "@ + rest + " (request "@ + request_id + ")"@,
        ),
    )
}

/// What the control plane answers a caller that may use it.
pub open spec fn endpoint(
    m: Manifest,
    live: Live,
    method: Seq<char>,
    rest: Seq<char>,
    body: Seq<u8>,
    request_id: Seq<char>,
) -> ControlView {
    if method == "GET"@ {
        let said = if rest == "/health"@ {
            Some(health_json(m, live))
        } else if rest == "/usage"@ {
            Some(live.usage@)
        } else if rest == "/models"@ {
            Some(live.models@)
        } else if rest == "/approvals"@ {
            Some(single("approvals"@, JsonView::Array(views(live.approvals@))))
        } else if rest == "/flows"@ {
            Some(single("flows"@, JsonView::Array(m.flows@.map_values(|f: FlowDef| flow_json(f)))))
        } else if rest == "/contexts"@ {
            Some(single("contexts"@, JsonView::Array(m.contexts@.map_values(|c: ContextDef| context_json(c)))))
        } else if rest == "/openapi.json"@ {
            Some(document(m))
        } else if rest == "/tools"@ {
            Some(single("tools"@, JsonView::Array(exposed(m.routes@).map_values(|x: Route| tool_json(x)))))
        } else if rest == "/mcp"@ {
            Some(mcp_json())
        } else if rest == "/routes"@ {
            Some(single("routes"@, JsonView::Array(m.routes@.map_values(|x: Route| route_json(x)))))
        } else if rest == "/audit"@ {
            Some(single("events"@, JsonView::Array(event_views(live.events@).map_values(|e: EventView| event_json(e)))))
        } else if rest == "/behaviours"@ {
            Some(single("behaviours"@, JsonView::Array(m.behaviours@.map_values(|b: BehaviourDef| behaviour_json(b)))))
        } else if rest == "/agents"@ {
            Some(single("agents"@, JsonView::Array(m.agents@.map_values(|a: AgentDef| agent_json(a)))))
        } else if rest == "/security"@ {
            Some(security_json(m))
        } else {
            None
        };
        match said {
            Some(j) => ControlView::Reply(json_response(200, j)),
            None => no_endpoint(method, rest, request_id),
        }
    } else if method == "POST"@ && "/approvals/"@.is_prefix_of(rest) {
        decision_of(rest, body)
    } else if method == "POST"@ && rest == "/mcp"@ {
        ControlView::Mcp
    } else {
        no_endpoint(method, rest, request_id)
    }
}

/// Whether a caller is refused the control plane: the status, if so.
pub open spec fn control_refusal(m: Manifest, rest: Seq<char>, p: PrincipalView) -> Option<u16> {
    if has_auth(m) && rest != "/health"@ && !grants(p.scopes, "webcortex:admin"@) {
        Some(
            if p.kind == PrincipalKind::Anonymous {
                401
            } else {
                403
            },
        )
    } else {
        None
    }
}

/// What the control plane answers.
pub open spec fn controlled(
    m: Manifest,
    live: Live,
    method: Seq<char>,
    rest: Seq<char>,
    body: Seq<u8>,
    p: PrincipalView,
    request_id: Seq<char>,
) -> ControlView {
    match control_refusal(m, rest, p) {
        Some(status) => ControlView::Reply(
            error_response(status, "the webcortex control plane requires the 'webcortex:admin' scope"@),
        ),
        None => endpoint(m, live, method, rest, body, request_id),
    }
}

fn look_up(m: &Manifest, live: &Live, rest: &str) -> (r: Option<Json>)
    ensures
        match r {
            Some(j) => forall|body: Seq<u8>, id: Seq<char>| #[trigger]
                endpoint(*m, *live, "GET"@, rest@, body, id) == ControlView::Reply(json_response(200, j@)),
            None => forall|body: Seq<u8>, id: Seq<char>| #[trigger]
                endpoint(*m, *live, "GET"@, rest@, body, id) == no_endpoint("GET"@, rest@, id),
        },
{
    if same(rest, "/health") {
        Some(health(m, live))
    } else if same(rest, "/usage") {
        Some(live.usage.copy())
    } else if same(rest, "/models") {
        Some(live.models.copy())
    } else if same(rest, "/approvals") {
        let list = copy_list(&live.approvals);
        Some(single_json("approvals", Json::array(list)))
    } else if same(rest, "/flows") {
        Some(single_json("flows", list_flows(&m.flows)))
    } else if same(rest, "/contexts") {
        Some(single_json("contexts", list_contexts(&m.contexts)))
    } else if same(rest, "/openapi.json") {
        Some(generate(m))
    } else if same(rest, "/tools") {
        Some(single_json("tools", list_tools(m)))
    } else if same(rest, "/mcp") {
        let mut o = Members::new();
        o.put("transport", Json::str("streamable-http"));
        o.put("protocolVersion", Json::str("2025-06-18"));
        o.put("hint", Json::str("POST JSON-RPC to this endpoint"));
        Some(Json::Object(o))
    } else if same(rest, "/routes") {
        Some(single_json("routes", list_routes(&m.routes)))
    } else if same(rest, "/audit") {
        Some(single_json("events", list_events(&live.events)))
    } else if same(rest, "/behaviours") {
        Some(single_json("behaviours", list_behaviours(&m.behaviours)))
    } else if same(rest, "/agents") {
        Some(single_json("agents", list_agents(&m.agents)))
    } else if same(rest, "/security") {
        Some(security(m))
    } else {
        None
    }
}

fn copy_list(list: &Vec<Json>) -> (r: Vec<Json>)
    ensures
        views(r@) == views(list@),
{
    let mut out: Vec<Json> = Vec::new();
    let mut i: usize = 0;
    while i < list.len()
        invariant
            i <= list@.len(),
            out@.len() == i,
            forall|k: int| 0 <= k < i ==> (#[trigger] out@[k])@ == list@[k]@,
        decreases list.len() - i,
    {
        out.push(list[i].copy());
        i = i + 1;
    }
    assert(views(out@) =~= views(list@));
    out
}

/// Answers a request to the control plane, whose path goes on with `rest` behind
/// the prefix.
pub fn control_plane(
    m: &Manifest,
    live: &Live,
    method: &str,
    rest: &str,
    body: &[u8],
    principal: &Principal,
    request_id: &str,
) -> (r: Control)
    ensures
        r@ == controlled(*m, *live, method@, rest@, body@, principal@, request_id@),
{
    if auth_configured(m) && !same(rest, "/health") && !principal.has_scope("webcortex:admin") {
        let status: u16 = if principal.is_anonymous() {
            401
        } else {
            403
        };
        return Control::Reply(
            PylonResponse::error(status, "the webcortex control plane requires the 'webcortex:admin' scope"),
        );
    }
    if same(method, "GET") {
        if let Some(j) = look_up(m, live, rest) {
            return Control::Reply(PylonResponse::json(200, &j));
        }
    } else if same(method, "POST") {
        if starts_with(rest, "/approvals/") {
            return decide(rest, body);
        }
        if same(rest, "/mcp") {
            return Control::Mcp;
        }
    }
    Control::Reply(
        PylonResponse::error(
            404,
            crate::text::cat7("no control endpoint ", method, " ", rest, " (request ", request_id, ")").as_str(),
        ),
    )
}

/// How many of some routes never enter an interpreter.
pub open spec fn native_count(routes: Seq<Route>) -> nat
    decreases routes.len(),
{
    if routes.len() == 0 {
        0
    } else {
        native_count(routes.drop_last()) + if routes.last().op is Python {
            0nat
        } else {
            1
        }
    }
}

/// How many of some routes never enter an interpreter.
pub fn native_routes(routes: &Vec<Route>) -> (r: usize)
    ensures
        r == native_count(routes@),
{
    let ghost all = routes@;
    let mut n: usize = 0;
    let mut i: usize = 0;
    while i < routes.len()
        invariant
            n <= i <= routes@.len(),
            all == routes@,
            n == native_count(all.take(i as int)),
        decreases routes.len() - i,
    {
        proof {
            assert(all.take(i + 1).drop_last() =~= all.take(i as int));
            assert(all.take(i + 1).last() == all[i as int]);
        }
        let interpreted = match &routes[i].op {
            Op::Python { .. } => true,
            _ => false,
        };
        if !interpreted {
            n = n + 1;
        }
        i = i + 1;
    }
    assert(all.take(all.len() as int) =~= all);
    n
}

/// What is reported of a manifest that is sound.
pub open spec fn inspection(m: Manifest) -> JsonView {
    JsonView::Object(
        Map::empty().insert("name"@, JsonView::Str(m.name@)).insert("routes"@, number(m.routes@.len() as int)).insert(
            "native_routes"@,
            number(native_count(m.routes@) as int),
        ).insert("tools"@, text_array(exposed(m.routes@).map_values(|x: Route| x.tool_text()))).insert(
            "agents"@,
            text_array(m.agents@.map_values(|a: AgentDef| a.name@)),
        ).insert("behaviours"@, text_array(m.behaviours@.map_values(|b: BehaviourDef| b.name@))).insert(
            "flows"@,
            text_array(m.flows@.map_values(|f: FlowDef| f.name@)),
        ).insert("contexts"@, text_array(m.contexts@.map_values(|c: ContextDef| c.name@))),
    )
}

/// Validates a manifest, and reports the table of routes and tools that it gives.
pub fn inspect_manifest(m: &Manifest) -> (r: Result<Json, String>)
    ensures
        match manifest_fault(*m) {
            Some(e) => r matches Err(said) && said@ == "invalid application: "@ + e,
            None => r matches Ok(j) && j@ == inspection(*m),
        },
{
    if let Err(e) = m.validate() {
        return Err(crate::text::cat2("invalid application: ", e.as_str()));
    }
    let mut behaviours: Vec<String> = Vec::new();
    let mut i: usize = 0;
    while i < m.behaviours.len()
        invariant
            i <= m.behaviours@.len(),
            behaviours@.len() == i,
            forall|k: int| 0 <= k < i ==> (#[trigger] behaviours@[k])@ == m.behaviours@[k].name@,
        decreases m.behaviours.len() - i,
    {
        behaviours.push(m.behaviours[i].name.clone());
        i = i + 1;
    }
    assert(texts(behaviours@) =~= m.behaviours@.map_values(|b: BehaviourDef| b.name@));
    let mut contexts: Vec<String> = Vec::new();
    let mut j: usize = 0;
    while j < m.contexts.len()
        invariant
            j <= m.contexts@.len(),
            contexts@.len() == j,
            forall|k: int| 0 <= k < j ==> (#[trigger] contexts@[k])@ == m.contexts@[k].name@,
        decreases m.contexts.len() - j,
    {
        contexts.push(m.contexts[j].name.clone());
        j = j + 1;
    }
    assert(texts(contexts@) =~= m.contexts@.map_values(|c: ContextDef| c.name@));
    let mut o = Members::new();
    o.put("name", Json::str(m.name.as_str()));
    o.put("routes", Json::num(m.routes.len() as u64));
    o.put("native_routes", Json::num(native_routes(&m.routes) as u64));
    o.put("tools", texts_to_json(&tool_names(m)));
    o.put("agents", texts_to_json(&agent_names(m)));
    o.put("behaviours", texts_to_json(&behaviours));
    o.put("flows", texts_to_json(&flow_names(m)));
    o.put("contexts", texts_to_json(&contexts));
    Ok(Json::Object(o))
}

/// Where authentication is configured, nothing but the health of the application is
/// shown to a caller without the admin scope, whatever they ask.
pub proof fn law_the_control_plane_is_closed(
    m: Manifest,
    live: Live,
    method: Seq<char>,
    rest: Seq<char>,
    body: Seq<u8>,
    p: PrincipalView,
    request_id: Seq<char>,
)
    requires
        has_auth(m),
        !grants(p.scopes, "webcortex:admin"@),
        rest != "/health"@,
    ensures
        controlled(m, live, method, rest, body, p, request_id) matches ControlView::Reply(r) && (r.status == 401
            || r.status == 403) && r.body == error_response(
            r.status,
            "the webcortex control plane requires the 'webcortex:admin' scope"@,
        ).body,
{
}

/// Whether an answer is a list under a name.
pub open spec fn answers_list(r: ControlView, name: Seq<char>, list: Seq<JsonView>) -> bool {
    r == ControlView::Reply(json_response(200, JsonView::Object(map![name => JsonView::Array(list)])))
}

/// Each endpoint of the control plane answers what it is for: the lists hold one entry for
/// each thing that is declared, parked or audited, in order.
#[verifier::rlimit(60)]
pub proof fn law_an_endpoint_answers_what_it_is_for(m: Manifest, live: Live, body: Seq<u8>, request_id: Seq<char>)
    ensures
        endpoint(m, live, "GET"@, "/usage"@, body, request_id) == ControlView::Reply(json_response(200, live.usage@)),
        endpoint(m, live, "GET"@, "/models"@, body, request_id) == ControlView::Reply(json_response(200, live.models@)),
        endpoint(m, live, "GET"@, "/health"@, body, request_id) == ControlView::Reply(json_response(200, health_json(m, live))),
        endpoint(m, live, "GET"@, "/openapi.json"@, body, request_id) == ControlView::Reply(json_response(200, document(m))),
        endpoint(m, live, "GET"@, "/security"@, body, request_id) == ControlView::Reply(json_response(200, security_json(m))),
        exists|list: Seq<JsonView>|
            #[trigger] answers_list(endpoint(m, live, "GET"@, "/flows"@, body, request_id), "flows"@, list) && list.len()
                == m.flows@.len() && forall|i: int| 0 <= i < list.len() ==> #[trigger] list[i] == flow_json(m.flows@[i]),
        exists|list: Seq<JsonView>|
            #[trigger] answers_list(endpoint(m, live, "GET"@, "/contexts"@, body, request_id), "contexts"@, list) && list.len()
                == m.contexts@.len() && forall|i: int| 0 <= i < list.len() ==> #[trigger] list[i] == context_json(m.contexts@[i]),
        exists|list: Seq<JsonView>|
            #[trigger] answers_list(endpoint(m, live, "GET"@, "/routes"@, body, request_id), "routes"@, list) && list.len()
                == m.routes@.len() && forall|i: int| 0 <= i < list.len() ==> #[trigger] list[i] == route_json(m.routes@[i]),
        exists|list: Seq<JsonView>|
            #[trigger] answers_list(endpoint(m, live, "GET"@, "/behaviours"@, body, request_id), "behaviours"@, list) && list.len()
                == m.behaviours@.len() && forall|i: int| 0 <= i < list.len() ==> #[trigger] list[i] == behaviour_json(m.behaviours@[i]),
        exists|list: Seq<JsonView>|
            #[trigger] answers_list(endpoint(m, live, "GET"@, "/agents"@, body, request_id), "agents"@, list) && list.len()
                == m.agents@.len() && forall|i: int| 0 <= i < list.len() ==> #[trigger] list[i] == agent_json(m.agents@[i]),
        exists|list: Seq<JsonView>|
            #[trigger] answers_list(endpoint(m, live, "GET"@, "/approvals"@, body, request_id), "approvals"@, list) && list.len()
                == live.approvals@.len() && forall|i: int| 0 <= i < list.len() ==> #[trigger] list[i] == live.approvals@[i]@,
        exists|list: Seq<JsonView>|
            #[trigger] answers_list(endpoint(m, live, "GET"@, "/audit"@, body, request_id), "events"@, list) && list.len()
                == live.events@.len() && forall|i: int| 0 <= i < list.len() ==> #[trigger] list[i] == event_json(live.events@[i]@),
        exists|list: Seq<JsonView>|
            #[trigger] answers_list(endpoint(m, live, "GET"@, "/tools"@, body, request_id), "tools"@, list) && list.len()
                == exposed(m.routes@).len() && forall|i: int| 0 <= i < list.len() ==> #[trigger] list[i] == tool_json(exposed(m.routes@)[i]),
{
    reveal_strlit("/health");
    reveal_strlit("/usage");
    reveal_strlit("/models");
    reveal_strlit("/approvals");
    reveal_strlit("/flows");
    reveal_strlit("/contexts");
    reveal_strlit("/openapi.json");
    reveal_strlit("/tools");
    reveal_strlit("/mcp");
    reveal_strlit("/routes");
    reveal_strlit("/audit");
    reveal_strlit("/behaviours");
    reveal_strlit("/agents");
    reveal_strlit("/security");
    assert("/health"@.len() == 7);
    assert("/usage"@.len() == 6);
    assert("/models"@.len() == 7);
    assert("/approvals"@.len() == 10);
    assert("/flows"@.len() == 6);
    assert("/contexts"@.len() == 9);
    assert("/openapi.json"@.len() == 13);
    assert("/tools"@.len() == 6);
    assert("/mcp"@.len() == 4);
    assert("/routes"@.len() == 7);
    assert("/audit"@.len() == 6);
    assert("/behaviours"@.len() == 11);
    assert("/agents"@.len() == 7);
    assert("/security"@.len() == 9);
    assert("/health"@[1] != "/models"@[1]);
    assert("/health"@[1] != "/routes"@[1]);
    assert("/health"@[1] != "/agents"@[1]);
    assert("/usage"@[1] != "/flows"@[1]);
    assert("/usage"@[1] != "/tools"@[1]);
    assert("/usage"@[1] != "/audit"@[1]);
    assert("/models"@[1] != "/routes"@[1]);
    assert("/models"@[1] != "/agents"@[1]);
    assert("/flows"@[1] != "/tools"@[1]);
    assert("/flows"@[1] != "/audit"@[1]);
    assert("/contexts"@[1] != "/security"@[1]);
    assert("/tools"@[1] != "/audit"@[1]);
    assert("/routes"@[1] != "/agents"@[1]);
    let flows_listed = m.flows@.map_values(|x: FlowDef| flow_json(x));
    assert(single("flows"@, JsonView::Array(flows_listed)) == JsonView::Object(map!["flows"@ => JsonView::Array(flows_listed)])) by {
        assert(Map::empty().insert("flows"@, JsonView::Array(flows_listed)) =~= map!["flows"@ => JsonView::Array(flows_listed)]);
    }
    assert(answers_list(endpoint(m, live, "GET"@, "/flows"@, body, request_id), "flows"@, flows_listed));
    let contexts_listed = m.contexts@.map_values(|x: ContextDef| context_json(x));
    assert(single("contexts"@, JsonView::Array(contexts_listed)) == JsonView::Object(map!["contexts"@ => JsonView::Array(contexts_listed)])) by {
        assert(Map::empty().insert("contexts"@, JsonView::Array(contexts_listed)) =~= map!["contexts"@ => JsonView::Array(contexts_listed)]);
    }
    assert(answers_list(endpoint(m, live, "GET"@, "/contexts"@, body, request_id), "contexts"@, contexts_listed));
    let routes_listed = m.routes@.map_values(|x: Route| route_json(x));
    assert(single("routes"@, JsonView::Array(routes_listed)) == JsonView::Object(map!["routes"@ => JsonView::Array(routes_listed)])) by {
        assert(Map::empty().insert("routes"@, JsonView::Array(routes_listed)) =~= map!["routes"@ => JsonView::Array(routes_listed)]);
    }
    assert(answers_list(endpoint(m, live, "GET"@, "/routes"@, body, request_id), "routes"@, routes_listed));
    let behaviours_listed = m.behaviours@.map_values(|x: BehaviourDef| behaviour_json(x));
    assert(single("behaviours"@, JsonView::Array(behaviours_listed)) == JsonView::Object(map!["behaviours"@ => JsonView::Array(behaviours_listed)])) by {
        assert(Map::empty().insert("behaviours"@, JsonView::Array(behaviours_listed)) =~= map!["behaviours"@ => JsonView::Array(behaviours_listed)]);
    }
    assert(answers_list(endpoint(m, live, "GET"@, "/behaviours"@, body, request_id), "behaviours"@, behaviours_listed));
    let agents_listed = m.agents@.map_values(|x: AgentDef| agent_json(x));
    assert(single("agents"@, JsonView::Array(agents_listed)) == JsonView::Object(map!["agents"@ => JsonView::Array(agents_listed)])) by {
        assert(Map::empty().insert("agents"@, JsonView::Array(agents_listed)) =~= map!["agents"@ => JsonView::Array(agents_listed)]);
    }
    assert(answers_list(endpoint(m, live, "GET"@, "/agents"@, body, request_id), "agents"@, agents_listed));
    let approvals_listed = views(live.approvals@);
    assert(single("approvals"@, JsonView::Array(approvals_listed)) == JsonView::Object(map!["approvals"@ => JsonView::Array(approvals_listed)])) by {
        assert(Map::empty().insert("approvals"@, JsonView::Array(approvals_listed)) =~= map!["approvals"@ => JsonView::Array(approvals_listed)]);
    }
    assert(answers_list(endpoint(m, live, "GET"@, "/approvals"@, body, request_id), "approvals"@, approvals_listed));
    let events_listed = event_views(live.events@).map_values(|e: EventView| event_json(e));
    assert(single("events"@, JsonView::Array(events_listed)) == JsonView::Object(map!["events"@ => JsonView::Array(events_listed)])) by {
        assert(Map::empty().insert("events"@, JsonView::Array(events_listed)) =~= map!["events"@ => JsonView::Array(events_listed)]);
    }
    assert(answers_list(endpoint(m, live, "GET"@, "/audit"@, body, request_id), "events"@, events_listed));
    let tools_listed = exposed(m.routes@).map_values(|x: Route| tool_json(x));
    assert(single("tools"@, JsonView::Array(tools_listed)) == JsonView::Object(map!["tools"@ => JsonView::Array(tools_listed)])) by {
        assert(Map::empty().insert("tools"@, JsonView::Array(tools_listed)) =~= map!["tools"@ => JsonView::Array(tools_listed)]);
    }
    assert(answers_list(endpoint(m, live, "GET"@, "/tools"@, body, request_id), "tools"@, tools_listed));
}

/// What is declared is listed as it is declared: a tool by its name, with where it is served,
/// what it takes and what it demands.
pub proof fn law_a_tool_is_listed_as_it_is_declared(r: Route)
    ensures
        ({
            let j = tool_json(r);
            &&& member(j, "name"@) == Some(JsonView::Str(r.tool_text()))
            &&& member(j, "method"@) == Some(JsonView::Str(r.method@))
            &&& member(j, "path"@) == Some(JsonView::Str(r.path@))
            &&& member(j, "description"@) == Some(JsonView::Str(r.description@))
            &&& member(j, "read_only"@) == Some(JsonView::Bool(r.tool.read_only))
            &&& r.input_schema matches Some(n) ==> member(j, "input_schema"@) == Some(n@)
            &&& r.input_schema is None ==> member(j, "input_schema"@) == Some(JsonView::Null)
            &&& (member(j, "scopes"@) matches Some(JsonView::Array(list)) && list.len() == r.scopes@.len() && forall|i: int|
                0 <= i < list.len() ==> #[trigger] list[i] == JsonView::Str(r.scopes@[i]@))
            &&& r.approval == Approval::Required ==> member(j, "approval"@) == Some(JsonView::Str("required"@))
            &&& r.approval == Approval::Never ==> member(j, "approval"@) == Some(JsonView::Str("never"@))
        }),
        ({
            let j = route_json(r);
            &&& member(j, "id"@) == Some(JsonView::Number(NumberView::Int(r.id as int)))
            &&& member(j, "method"@) == Some(JsonView::Str(r.method@))
            &&& member(j, "path"@) == Some(JsonView::Str(r.path@))
            &&& member(j, "op"@) == Some(JsonView::Str(r.op.kind_text()))
            &&& (member(j, "scopes"@) matches Some(JsonView::Array(list)) && list.len() == r.scopes@.len() && forall|i: int|
                0 <= i < list.len() ==> #[trigger] list[i] == JsonView::Str(r.scopes@[i]@))
            &&& r.tool.expose ==> member(j, "tool"@) == Some(JsonView::Str(r.tool_text()))
            &&& !r.tool.expose ==> member(j, "tool"@) == Some(JsonView::Null)
        }),
{
    reveal_strlit("name");
    reveal_strlit("method");
    reveal_strlit("path");
    reveal_strlit("description");
    reveal_strlit("input_schema");
    reveal_strlit("read_only");
    reveal_strlit("scopes");
    reveal_strlit("approval");
    reveal_strlit("id");
    reveal_strlit("op");
    reveal_strlit("tool");
    assert("name"@.len() == 4);
    assert("method"@.len() == 6);
    assert("path"@.len() == 4);
    assert("description"@.len() == 11);
    assert("input_schema"@.len() == 12);
    assert("read_only"@.len() == 9);
    assert("scopes"@.len() == 6);
    assert("approval"@.len() == 8);
    assert("id"@.len() == 2);
    assert("op"@.len() == 2);
    assert("tool"@.len() == 4);
    assert("name"@[0] != "path"@[0]);
    assert("name"@[0] != "tool"@[0]);
    assert("method"@[0] != "scopes"@[0]);
    assert("path"@[0] != "tool"@[0]);
    assert("id"@[0] != "op"@[0]);
}

/// An agent and a behaviour are listed with what they are told, what they may call and hold,
/// and their limits.
pub proof fn law_an_agent_is_listed_as_it_is_declared(a: AgentDef, b: BehaviourDef)
    ensures
        ({
            let j = agent_json(a);
            &&& member(j, "name"@) == Some(JsonView::Str(a.name@))
            &&& member(j, "model"@) == Some(JsonView::Str(a.model@))
            &&& member(j, "description"@) == Some(JsonView::Str(a.description@))
            &&& member(j, "cache"@) == Some(JsonView::Bool(a.cache))
            &&& (member(j, "tools"@) matches Some(JsonView::Array(list)) && list.len() == a.tools@.len() && forall|i: int|
                0 <= i < list.len() ==> #[trigger] list[i] == JsonView::Str(a.tools@[i]@))
            &&& (member(j, "handoffs"@) matches Some(JsonView::Array(list)) && list.len() == a.handoffs@.len() && forall|i: int|
                0 <= i < list.len() ==> #[trigger] list[i] == JsonView::Str(a.handoffs@[i]@))
            &&& (member(j, "context"@) matches Some(JsonView::Array(list)) && list.len() == a.context@.len() && forall|i: int|
                0 <= i < list.len() ==> #[trigger] list[i] == JsonView::Str(a.context@[i]@))
            &&& (member(j, "scopes"@) matches Some(JsonView::Array(list)) && list.len() == a.scopes@.len() && forall|i: int|
                0 <= i < list.len() ==> #[trigger] list[i] == JsonView::Str(a.scopes@[i]@))
            &&& a.max_steps matches Some(n) ==> member(j, "max_steps"@) == Some(JsonView::Number(NumberView::Int(n as int)))
            &&& a.max_steps is None ==> member(j, "max_steps"@) == Some(JsonView::Null)
            &&& a.token_budget matches Some(n) ==> member(j, "token_budget"@) == Some(JsonView::Number(NumberView::Int(n as int)))
            &&& a.token_budget is None ==> member(j, "token_budget"@) == Some(JsonView::Null)
            &&& member(j, "policy"@) matches Some(p) && member(p, "keep_recent"@) == Some(
                JsonView::Number(NumberView::Int(a.policy.keep_recent as int)),
            ) && member(p, "max_tool_result_bytes"@) == Some(
                JsonView::Number(NumberView::Int(a.policy.max_tool_result_bytes as int)),
            )
        }),
        ({
            let j = behaviour_json(b);
            &&& member(j, "name"@) == Some(JsonView::Str(b.name@))
            &&& member(j, "description"@) == Some(JsonView::Str(b.description@))
            &&& (member(j, "tools"@) matches Some(JsonView::Array(list)) && list.len() == b.tools@.len() && forall|i: int|
                0 <= i < list.len() ==> #[trigger] list[i] == JsonView::Str(b.tools@[i]@))
            &&& (member(j, "scopes"@) matches Some(JsonView::Array(list)) && list.len() == b.scopes@.len() && forall|i: int|
                0 <= i < list.len() ==> #[trigger] list[i] == JsonView::Str(b.scopes@[i]@))
            &&& member(j, "max_steps"@) == Some(JsonView::Number(NumberView::Int(b.max_steps as int)))
            &&& b.token_budget matches Some(n) ==> member(j, "token_budget"@) == Some(JsonView::Number(NumberView::Int(n as int)))
            &&& b.token_budget is None ==> member(j, "token_budget"@) == Some(JsonView::Null)
            &&& b.input_schema matches Some(n) ==> member(j, "input_schema"@) == Some(n@)
            &&& b.input_schema is None ==> member(j, "input_schema"@) == Some(JsonView::Null)
        }),
{
    reveal_strlit("name");
    reveal_strlit("model");
    reveal_strlit("description");
    reveal_strlit("tools");
    reveal_strlit("handoffs");
    reveal_strlit("context");
    reveal_strlit("max_steps");
    reveal_strlit("token_budget");
    reveal_strlit("scopes");
    reveal_strlit("cache");
    reveal_strlit("policy");
    reveal_strlit("input_schema");
    reveal_strlit("max_tool_result_bytes");
    reveal_strlit("max_context_tokens");
    reveal_strlit("compact_with");
    reveal_strlit("keep_recent");
    assert("name"@.len() == 4);
    assert("model"@.len() == 5);
    assert("description"@.len() == 11);
    assert("tools"@.len() == 5);
    assert("handoffs"@.len() == 8);
    assert("context"@.len() == 7);
    assert("max_steps"@.len() == 9);
    assert("token_budget"@.len() == 12);
    assert("scopes"@.len() == 6);
    assert("cache"@.len() == 5);
    assert("policy"@.len() == 6);
    assert("input_schema"@.len() == 12);
    assert("max_tool_result_bytes"@.len() == 21);
    assert("max_context_tokens"@.len() == 18);
    assert("compact_with"@.len() == 12);
    assert("keep_recent"@.len() == 11);
    assert("model"@[0] != "tools"@[0]);
    assert("model"@[0] != "cache"@[0]);
    assert("description"@[0] != "keep_recent"@[0]);
    assert("tools"@[0] != "cache"@[0]);
    assert("token_budget"@[0] != "input_schema"@[0]);
    assert("token_budget"@[0] != "compact_with"@[0]);
    assert("scopes"@[0] != "policy"@[0]);
    assert("input_schema"@[0] != "compact_with"@[0]);
}

/// A flow is listed with its steps, in order, and a context provider with its kind and bound.
pub proof fn law_a_flow_is_listed_as_it_is_declared(f: FlowDef, c: ContextDef, s: FlowStep)
    ensures
        ({
            let j = flow_json(f);
            &&& member(j, "name"@) == Some(JsonView::Str(f.name@))
            &&& member(j, "description"@) == Some(JsonView::Str(f.description@))
            &&& (member(j, "scopes"@) matches Some(JsonView::Array(list)) && list.len() == f.scopes@.len() && forall|i: int|
                0 <= i < list.len() ==> #[trigger] list[i] == JsonView::Str(f.scopes@[i]@))
            &&& f.token_budget matches Some(n) ==> member(j, "token_budget"@) == Some(JsonView::Number(NumberView::Int(n as int)))
            &&& f.token_budget is None ==> member(j, "token_budget"@) == Some(JsonView::Null)
            &&& f.input_schema matches Some(n) ==> member(j, "input_schema"@) == Some(n@)
            &&& f.input_schema is None ==> member(j, "input_schema"@) == Some(JsonView::Null)
            &&& member(j, "kind"@) matches Some(k)
            &&& f.kind matches FlowKind::Pipeline { steps } ==> member(k, "kind"@) == Some(JsonView::Str("pipeline"@)) && (
            member(k, "steps"@) matches Some(JsonView::Array(list)) && list.len() == steps@.len() && forall|i: int|
                0 <= i < list.len() ==> #[trigger] list[i] == flow_step_json(steps@[i]))
            &&& f.kind matches FlowKind::Parallel { branches, .. } ==> member(k, "kind"@) == Some(
                JsonView::Str("parallel"@),
            ) && (member(k, "branches"@) matches Some(JsonView::Array(list)) && list.len() == branches@.len()
                && forall|i: int| 0 <= i < list.len() ==> #[trigger] list[i] == flow_step_json(branches@[i]))
            &&& f.kind matches FlowKind::Route { routes, .. } ==> member(k, "kind"@) == Some(JsonView::Str("route"@)) && (
            member(k, "routes"@) matches Some(JsonView::Object(all)) && all.dom() == routes@.dom() && forall|l: Seq<char>|
                routes@.contains_key(l) ==> #[trigger] all[l] == flow_step_json(routes@[l]))
        }),
        ({
            let j = flow_step_json(s);
            &&& member(j, "tool"@) == Some(JsonView::Str(s.tool@))
            &&& s.input matches Some(n) ==> member(j, "input"@) == Some(n@)
            &&& s.input is None ==> member(j, "input"@) == Some(JsonView::Null)
        }),
        ({
            let j = context_json(c);
            &&& member(j, "name"@) == Some(JsonView::Str(c.name@))
            &&& member(j, "description"@) == Some(JsonView::Str(c.description@))
            &&& member(j, "max_chars"@) == Some(JsonView::Number(NumberView::Int(c.max_chars as int)))
        }),
{
    reveal_strlit("name");
    reveal_strlit("description");
    reveal_strlit("kind");
    reveal_strlit("scopes");
    reveal_strlit("token_budget");
    reveal_strlit("input_schema");
    reveal_strlit("steps");
    reveal_strlit("branches");
    reveal_strlit("merge");
    reveal_strlit("routes");
    reveal_strlit("default");
    reveal_strlit("classify_with");
    reveal_strlit("classify_prompt");
    reveal_strlit("tool");
    reveal_strlit("input");
    reveal_strlit("max_chars");
    assert("name"@.len() == 4);
    assert("description"@.len() == 11);
    assert("kind"@.len() == 4);
    assert("scopes"@.len() == 6);
    assert("token_budget"@.len() == 12);
    assert("input_schema"@.len() == 12);
    assert("steps"@.len() == 5);
    assert("branches"@.len() == 8);
    assert("merge"@.len() == 5);
    assert("routes"@.len() == 6);
    assert("default"@.len() == 7);
    assert("classify_with"@.len() == 13);
    assert("classify_prompt"@.len() == 15);
    assert("tool"@.len() == 4);
    assert("input"@.len() == 5);
    assert("max_chars"@.len() == 9);
    assert("name"@[0] != "kind"@[0]);
    assert("name"@[0] != "tool"@[0]);
    assert("kind"@[0] != "tool"@[0]);
    assert("scopes"@[0] != "routes"@[0]);
    assert("token_budget"@[0] != "input_schema"@[0]);
    assert("steps"@[0] != "merge"@[0]);
    assert("steps"@[0] != "input"@[0]);
    assert("merge"@[0] != "input"@[0]);
    if let FlowKind::Route { routes, .. } = f.kind {
        let k = member(flow_json(f), "kind"@)->0;
        assert(member(k, "routes"@)->0->Object_0.dom() =~= routes@.dom());
    }
}

/// An event is listed with its kind and its run, and with who, which tool and what where it
/// says so.
pub proof fn law_an_event_is_listed_as_it_was_audited(e: EventView)
    ensures
        ({
            let j = event_json(e);
            &&& member(j, "kind"@) == Some(JsonView::Str(e.kind))
            &&& member(j, "run_id"@) == Some(JsonView::Str(e.run_id))
            &&& member(j, "actor"@) == (match e.actor {
                Some(t) => Some(JsonView::Str(t)),
                None => None,
            })
            &&& member(j, "tool"@) == (match e.tool {
                Some(t) => Some(JsonView::Str(t)),
                None => None,
            })
            &&& member(j, "detail"@) == (if e.detail == JsonView::Null {
                None
            } else {
                Some(e.detail)
            })
        }),
{
    reveal_strlit("kind");
    reveal_strlit("run_id");
    reveal_strlit("actor");
    reveal_strlit("tool");
    reveal_strlit("detail");
    assert("kind"@.len() == 4);
    assert("run_id"@.len() == 6);
    assert("actor"@.len() == 5);
    assert("tool"@.len() == 4);
    assert("detail"@.len() == 6);
    assert("kind"@[0] != "tool"@[0]);
    assert("run_id"@[0] != "detail"@[0]);
}

/// The health of an application counts what is declared, what is kept and what waits.
pub proof fn law_health_counts_what_is_there(m: Manifest, live: Live)
    ensures
        ({
            let j = health_json(m, live);
            &&& member(j, "status"@) == Some(JsonView::Str("ok"@))
            &&& member(j, "app"@) == Some(JsonView::Str(m.name@))
            &&& member(j, "version"@) == Some(JsonView::Str(m.version@))
            &&& member(j, "routes"@) == Some(JsonView::Number(NumberView::Int(m.routes@.len() as int)))
            &&& member(j, "tools"@) == Some(JsonView::Number(NumberView::Int(exposed(m.routes@).len() as int)))
            &&& member(j, "agents"@) == Some(JsonView::Number(NumberView::Int(m.agents@.len() as int)))
            &&& member(j, "behaviours"@) == Some(JsonView::Number(NumberView::Int(m.behaviours@.len() as int)))
            &&& member(j, "flows"@) == Some(JsonView::Number(NumberView::Int(m.flows@.len() as int)))
            &&& member(j, "python_workers"@) == Some(JsonView::Number(NumberView::Int(live.workers as int)))
            &&& member(j, "sessions"@) == Some(JsonView::Number(NumberView::Int(live.sessions as int)))
            &&& member(j, "pending_approvals"@) == Some(JsonView::Number(NumberView::Int(live.approvals@.len() as int)))
        }),
{
    reveal_strlit("status");
    reveal_strlit("app");
    reveal_strlit("version");
    reveal_strlit("routes");
    reveal_strlit("tools");
    reveal_strlit("agents");
    reveal_strlit("behaviours");
    reveal_strlit("flows");
    reveal_strlit("python_workers");
    reveal_strlit("sessions");
    reveal_strlit("pending_approvals");
    assert("status"@.len() == 6);
    assert("app"@.len() == 3);
    assert("version"@.len() == 7);
    assert("routes"@.len() == 6);
    assert("tools"@.len() == 5);
    assert("agents"@.len() == 6);
    assert("behaviours"@.len() == 10);
    assert("flows"@.len() == 5);
    assert("python_workers"@.len() == 14);
    assert("sessions"@.len() == 8);
    assert("pending_approvals"@.len() == 17);
    assert("status"@[0] != "routes"@[0]);
    assert("status"@[0] != "agents"@[0]);
    assert("routes"@[0] != "agents"@[0]);
    assert("tools"@[0] != "flows"@[0]);
}

proof fn lemma_gated_names(routes: Seq<Route>, name: Seq<char>)
    ensures
        gated_names(routes).contains(name) <==> exists|i: int|
            0 <= i < routes.len() && (#[trigger] routes[i]).approval == Approval::Required && routes[i].tool_text() == name,
    decreases routes.len(),
{
    if routes.len() > 0 {
        let rest = routes.drop_last();
        let last = routes.last();
        lemma_gated_names(rest, name);
        let before = gated_names(rest);
        let all = gated_names(routes);
        assert(routes[routes.len() - 1] == last);
        assert forall|i: int| 0 <= i < rest.len() implies #[trigger] rest[i] == routes[i] by {}
        if exists|i: int| 0 <= i < routes.len() && (#[trigger] routes[i]).approval == Approval::Required && routes[i].tool_text() == name {
            let i = choose|i: int| 0 <= i < routes.len() && (#[trigger] routes[i]).approval == Approval::Required && routes[i].tool_text() == name;
            if i < rest.len() {
                assert(rest[i] == routes[i]);
                let k = choose|k: int| 0 <= k < before.len() && before[k] == name;
                assert(all[k] == name);
            } else {
                assert(all[all.len() - 1] == name);
            }
        }
        if all.contains(name) {
            let k = choose|k: int| 0 <= k < all.len() && all[k] == name;
            if k < before.len() {
                assert(before[k] == name);
                let i = choose|i: int| 0 <= i < rest.len() && (#[trigger] rest[i]).approval == Approval::Required && rest[i].tool_text() == name;
                assert(routes[i] == rest[i]);
            }
        }
    }
}

/// The security posture says what is switched on, and lists exactly the routes that demand no
/// scope and the tools that wait for a human.
pub proof fn law_the_posture_lists_what_is_open(m: Manifest, r: Route, name: Seq<char>)
    ensures
        ({
            let j = security_json(m);
            &&& member(j, "auth_configured"@) == Some(JsonView::Bool(m.auth.api_keys@.len() > 0 || m.auth.jwt is Some))
            &&& member(j, "cors_enabled"@) == Some(JsonView::Bool(m.cors.enabled))
            &&& member(j, "rate_limited"@) == Some(JsonView::Bool(m.rate_limit.enabled))
            &&& member(j, "security_headers"@) == Some(JsonView::Bool(m.security_headers.enabled))
            &&& (member(j, "cors_origins"@) matches Some(JsonView::Array(list)) && list.len() == m.cors.allow_origins@.len() && forall|i: int|
                0 <= i < list.len() ==> #[trigger] list[i] == JsonView::Str(m.cors.allow_origins@[i]@))
            &&& (member(j, "anonymous_scopes"@) matches Some(JsonView::Array(list)) && list.len() == m.auth.anonymous_scopes@.len() && forall|i: int|
                0 <= i < list.len() ==> #[trigger] list[i] == JsonView::Str(m.auth.anonymous_scopes@[i]@))
            &&& member(j, "gated_tools"@) matches Some(JsonView::Array(list)) && (list.contains(JsonView::Str(name)) <==> exists|i: int|
                0 <= i < m.routes@.len() && (#[trigger] m.routes@[i]).approval == Approval::Required && m.routes@[i].tool_text()
                    == name)
            &&& m.routes@.contains(r) && r.scopes@.len() == 0 && r.tool.scopes@.len() == 0 ==> (member(j, "public_routes"@)
                matches Some(JsonView::Array(list)) && list.contains(JsonView::Str(r.method@ + " "@ + r.path@)))
            &&& member(j, "public_routes"@) matches Some(JsonView::Array(list)) && forall|i: int|
                0 <= i < list.len() ==> exists|k: int|
                    0 <= k < m.routes@.len() && (#[trigger] m.routes@[k]).scopes@.len() == 0 && m.routes@[k].tool.scopes@.len()
                        == 0 && #[trigger] list[i] == JsonView::Str(m.routes@[k].method@ + " "@ + m.routes@[k].path@)
        }),
{
    reveal_strlit("auth_configured");
    reveal_strlit("cors_enabled");
    reveal_strlit("cors_origins");
    reveal_strlit("rate_limited");
    reveal_strlit("security_headers");
    reveal_strlit("anonymous_scopes");
    reveal_strlit("public_routes");
    reveal_strlit("gated_tools");
    assert("auth_configured"@.len() == 15);
    assert("cors_enabled"@.len() == 12);
    assert("cors_origins"@.len() == 12);
    assert("rate_limited"@.len() == 12);
    assert("security_headers"@.len() == 16);
    assert("anonymous_scopes"@.len() == 16);
    assert("public_routes"@.len() == 13);
    assert("gated_tools"@.len() == 11);
    assert("cors_enabled"@[5] != "cors_origins"@[5]);
    assert("cors_enabled"@[0] != "rate_limited"@[0]);
    assert("cors_origins"@[0] != "rate_limited"@[0]);
    assert("security_headers"@[0] != "anonymous_scopes"@[0]);
    lemma_gated_names(m.routes@, name);
    let names = gated_names(m.routes@);
    let shown = member(security_json(m), "gated_tools"@)->0->Array_0;
    if names.contains(name) {
        let k = choose|k: int| 0 <= k < names.len() && names[k] == name;
        assert(shown[k] == JsonView::Str(name));
    }
    if shown.contains(JsonView::Str(name)) {
        let k = choose|k: int| 0 <= k < shown.len() && shown[k] == JsonView::Str(name);
        assert(names[k] == name);
    }
    let keep = |x: Route| is_public(x);
    let kept = m.routes@.filter(keep);
    let open = member(security_json(m), "public_routes"@)->0->Array_0;
    if m.routes@.contains(r) && r.scopes@.len() == 0 && r.tool.scopes@.len() == 0 {
        let i = choose|i: int| 0 <= i < m.routes@.len() && m.routes@[i] == r;
        assert(keep(m.routes@[i]));
        m.routes@.lemma_filter_contains(keep, i);
        let k = choose|k: int| 0 <= k < kept.len() && kept[k] == r;
        assert(open[k] == JsonView::Str(r.method@ + " "@ + r.path@));
    }
    assert forall|i: int| 0 <= i < open.len() implies exists|k: int|
        0 <= k < m.routes@.len() && (#[trigger] m.routes@[k]).scopes@.len() == 0 && m.routes@[k].tool.scopes@.len() == 0
            && #[trigger] open[i] == JsonView::Str(m.routes@[k].method@ + " "@ + m.routes@[k].path@) by {
        let x = kept[i];
        assert(kept.contains(x));
        m.routes@.lemma_filter_pred(keep, i);
        m.routes@.lemma_filter_contains_rev(keep, x);
        let k = choose|k: int| 0 <= k < m.routes@.len() && m.routes@[k] == x;
        assert(open[i] == JsonView::Str(m.routes@[k].method@ + " "@ + m.routes@[k].path@));
    }
}

/// A human's decision is read as they sent it: the id behind the endpoint's name, whether
/// they approve, and their note; a body that does not say whether is refused.
pub proof fn law_a_decision_is_read_as_it_was_sent(
    m: Manifest,
    live: Live,
    id: Seq<char>,
    body: Seq<u8>,
    said: JsonView,
    approve: bool,
    note: Seq<char>,
    request_id: Seq<char>,
)
    requires
        crate::json::json_parsed_bytes(body) == Some(said),
        id.len() > 0,
        !id.contains('/'),
    ensures
        ({
            let r = endpoint(m, live, "POST"@, "/approvals/"@ + id, body, request_id);
            &&& member(said, "approve"@) == Some(JsonView::Bool(approve)) && member(said, "note"@) == Some(
                JsonView::Str(note),
            ) ==> r == (ControlView::Decide { id, approve, note })
            &&& member(said, "approve"@) == Some(JsonView::Bool(approve)) && member(said, "note"@) is None ==> (r
                matches ControlView::Decide { id: i, approve: a, note: n } && i == id && a == approve && n.len() == 0)
            &&& !(member(said, "approve"@) matches Some(JsonView::Bool(_))) ==> (r matches ControlView::Reply(res)
                && res.status == 400)
            &&& endpoint(m, live, "POST"@, "/mcp"@, body, request_id) is Mcp
        }),
{
    reveal_strlit("POST");
    reveal_strlit("GET");
    reveal_strlit("/approvals/");
    reveal_strlit("/mcp");
    reveal_strlit("");
    assert("POST"@.len() == 4);
    assert("GET"@.len() == 3);
    assert("/approvals/"@.len() == 11);
    assert("/mcp"@.len() == 4);
    assert(""@.len() == 0);
    assert("POST"@[0] != "/mcp"@[0]);
    let prefix = "/approvals/"@;
    let rest = prefix + id;
    assert(rest.subrange(0, prefix.len() as int) =~= prefix);
    assert(rest.skip(prefix.len() as int) =~= id);
    assert(prefix[0] == '/');
    assert(!prefix.is_prefix_of(id)) by {
        if prefix.is_prefix_of(id) {
            assert(id.subrange(0, prefix.len() as int)[0] == id[0]);
            assert(id.contains(id[0]));
        }
    }
    assert(without_prefixes(id, prefix) == id);
    assert(without_prefixes(rest, prefix) == id);
    assert(id.contains(id.last())) by {
        assert(id[id.len() - 1] == id.last());
    }
    assert(trim_end_by(id, only('/')) == id);
    assert(!prefix.is_prefix_of("/mcp"@));
}

/// A caller without the scope of the control plane is refused where there is any
/// authentication, and told whether logging in would help; anyone may ask for its health.
pub proof fn law_the_control_plane_tells_login_from_lack(m: Manifest, rest: Seq<char>, p: PrincipalView)
    ensures
        ({
            let closed = (m.auth.api_keys@.len() > 0 || m.auth.jwt is Some) && rest != "/health"@ && !grants(
                p.scopes,
                "webcortex:admin"@,
            );
            &&& control_refusal(m, rest, p) is Some <==> closed
            &&& closed && p.kind == PrincipalKind::Anonymous ==> control_refusal(m, rest, p) == Some(401u16)
            &&& closed && p.kind != PrincipalKind::Anonymous ==> control_refusal(m, rest, p) == Some(403u16)
        }),
{
}

/// A route counts as native exactly where no interpreter runs it.
pub proof fn law_a_route_is_native_unless_an_interpreter_runs_it(routes: Seq<Route>, r: Route)
    ensures
        native_count(Seq::empty()) == 0,
        r.op is Python ==> native_count(routes.push(r)) == native_count(routes),
        !(r.op is Python) ==> native_count(routes.push(r)) == native_count(routes) + 1,
{
    assert(routes.push(r).drop_last() =~= routes);
}

/// An inspection counts the routes and names what is declared, each list in order.
pub proof fn law_an_inspection_names_what_is_declared(m: Manifest)
    ensures
        ({
            let j = inspection(m);
            &&& member(j, "name"@) == Some(JsonView::Str(m.name@))
            &&& member(j, "routes"@) == Some(JsonView::Number(NumberView::Int(m.routes@.len() as int)))
            &&& member(j, "native_routes"@) == Some(JsonView::Number(NumberView::Int(native_count(m.routes@) as int)))
            &&& (member(j, "tools"@) matches Some(JsonView::Array(list)) && list.len() == exposed(m.routes@).len() && forall|i: int|
                0 <= i < list.len() ==> #[trigger] list[i] == JsonView::Str(exposed(m.routes@)[i].tool_text()))
            &&& (member(j, "agents"@) matches Some(JsonView::Array(list)) && list.len() == m.agents@.len() && forall|i: int|
                0 <= i < list.len() ==> #[trigger] list[i] == JsonView::Str(m.agents@[i].name@))
            &&& (member(j, "behaviours"@) matches Some(JsonView::Array(list)) && list.len() == m.behaviours@.len() && forall|i: int|
                0 <= i < list.len() ==> #[trigger] list[i] == JsonView::Str(m.behaviours@[i].name@))
            &&& (member(j, "flows"@) matches Some(JsonView::Array(list)) && list.len() == m.flows@.len() && forall|i: int|
                0 <= i < list.len() ==> #[trigger] list[i] == JsonView::Str(m.flows@[i].name@))
            &&& (member(j, "contexts"@) matches Some(JsonView::Array(list)) && list.len() == m.contexts@.len() && forall|i: int|
                0 <= i < list.len() ==> #[trigger] list[i] == JsonView::Str(m.contexts@[i].name@))
        }),
{
    reveal_strlit("name");
    reveal_strlit("routes");
    reveal_strlit("native_routes");
    reveal_strlit("tools");
    reveal_strlit("agents");
    reveal_strlit("behaviours");
    reveal_strlit("flows");
    reveal_strlit("contexts");
    assert("name"@.len() == 4);
    assert("routes"@.len() == 6);
    assert("native_routes"@.len() == 13);
    assert("tools"@.len() == 5);
    assert("agents"@.len() == 6);
    assert("behaviours"@.len() == 10);
    assert("flows"@.len() == 5);
    assert("contexts"@.len() == 8);
    assert("routes"@[0] != "agents"@[0]);
    assert("tools"@[0] != "flows"@[0]);
}

} // verus!
