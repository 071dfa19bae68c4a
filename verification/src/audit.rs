//! The audit trail.
//!
//! Every agent action is recorded, including the ones that were refused, which
//! are usually the interesting ones.

use crate::auth::{Principal, PrincipalView};
use crate::conversation::{ToolSpec, ToolSpecView, tool_views};
use crate::json::{Json, JsonView, Members, text_array, texts_to_json};
use crate::ledger::count_json;
use crate::run::{RunStatus, Usage, maybe_text};
use crate::text::{same, texts};
use vstd::prelude::*;

verus! {

#[derive(Debug)]
pub struct AuditEvent {
    pub kind: String,
    pub run_id: String,
    pub actor: Option<String>,
    pub tool: Option<String>,
    pub detail: Json,
}

/// What an [`AuditEvent`] says.
pub struct EventView {
    pub kind: Seq<char>,
    pub run_id: Seq<char>,
    pub actor: Option<Seq<char>>,
    pub tool: Option<Seq<char>>,
    pub detail: JsonView,
}

impl View for AuditEvent {
    type V = EventView;

    open spec fn view(&self) -> EventView {
        EventView {
            kind: self.kind@,
            run_id: self.run_id@,
            actor: maybe_text(self.actor),
            tool: maybe_text(self.tool),
            detail: self.detail@,
        }
    }
}

/// What a list of events says.
pub open spec fn event_views(list: Seq<AuditEvent>) -> Seq<EventView> {
    list.map_values(|e: AuditEvent| e@)
}

/// An event added to a list adds what it says.
pub proof fn lemma_event_push(list: Seq<AuditEvent>, e: AuditEvent)
    ensures
        event_views(list.push(e)) == event_views(list).push(e@),
{
    assert(event_views(list.push(e)) =~= event_views(list).push(e@));
}

/// The start of a run. The granted scopes are the security-relevant fact: they
/// prove what the run *could* have done.
pub open spec fn started_event(
    run_id: Seq<char>,
    agent: Seq<char>,
    actor: PrincipalView,
    tools: Seq<ToolSpecView>,
) -> EventView {
    EventView {
        kind: "agent_started"@,
        run_id,
        actor: Some(actor.id),
        tool: None,
        detail: JsonView::Object(
            Map::empty().insert("agent"@, JsonView::Str(agent)).insert("granted_scopes"@, text_array(actor.scopes)).insert(
                "tools"@,
                text_array(tools.map_values(|t: ToolSpecView| t.name)),
            ),
        ),
    }
}

/// The end of a run.
pub open spec fn finished_event(run_id: Seq<char>, agent: Seq<char>, status: RunStatus, usage: Usage) -> EventView {
    EventView {
        kind: "agent_finished"@,
        run_id,
        actor: None,
        tool: None,
        detail: JsonView::Object(
            Map::empty().insert("agent"@, JsonView::Str(agent)).insert("status"@, JsonView::Str(status.text())).insert(
                "steps"@,
                count_json(usage.steps as u64),
            ).insert("tool_calls"@, count_json(usage.tool_calls as u64)).insert(
                "input_tokens"@,
                count_json(usage.input_tokens),
            ).insert("output_tokens"@, count_json(usage.output_tokens)),
        ),
    }
}

/// The failure of a run.
pub open spec fn failed_event(run_id: Seq<char>, agent: Seq<char>, error: Seq<char>) -> EventView {
    EventView {
        kind: "agent_failed"@,
        run_id,
        actor: None,
        tool: None,
        detail: JsonView::Object(
            Map::empty().insert("agent"@, JsonView::Str(agent)).insert("error"@, JsonView::Str(error)),
        ),
    }
}

/// An event about a tool.
pub open spec fn tool_event(
    kind: Seq<char>,
    run_id: Seq<char>,
    actor: Seq<char>,
    tool: Seq<char>,
    detail: Map<Seq<char>, JsonView>,
) -> EventView {
    EventView { kind, run_id, actor: Some(actor), tool: Some(tool), detail: JsonView::Object(detail) }
}

/// A tool call that was made.
pub open spec fn called_detail(arguments: JsonView, ok: bool, duration_ms: u64) -> Map<Seq<char>, JsonView> {
    Map::empty().insert("arguments"@, arguments).insert("ok"@, JsonView::Bool(ok)).insert(
        "duration_ms"@,
        count_json(duration_ms),
    )
}

/// A tool call that was refused.
pub open spec fn refused_detail(reason: Seq<char>) -> Map<Seq<char>, JsonView> {
    Map::empty().insert("reason"@, JsonView::Str(reason))
}

/// A tool call that waits for a human.
pub open spec fn requested_detail(arguments: JsonView, approval_id: Seq<char>) -> Map<Seq<char>, JsonView> {
    Map::empty().insert("arguments"@, arguments).insert("approval_id"@, JsonView::Str(approval_id))
}

/// A tool call that a human has decided on.
pub open spec fn decided_detail(approval_id: Seq<char>, approved: bool, note: Seq<char>) -> Map<Seq<char>, JsonView> {
    Map::empty().insert("approval_id"@, JsonView::Str(approval_id)).insert("approved"@, JsonView::Bool(approved)).insert(
        "note"@,
        JsonView::Str(note),
    )
}

/// A conversation that changes hands.
pub open spec fn handoff_event(
    run_id: Seq<char>,
    actor: Seq<char>,
    from: Seq<char>,
    to: Seq<char>,
    reason: Seq<char>,
) -> EventView {
    EventView {
        kind: "handoff"@,
        run_id,
        actor: Some(actor),
        tool: None,
        detail: JsonView::Object(
            Map::empty().insert("from"@, JsonView::Str(from)).insert("to"@, JsonView::Str(to)).insert(
                "reason"@,
                JsonView::Str(reason),
            ),
        ),
    }
}

/// The start of a flow.
pub open spec fn flow_started_event(run_id: Seq<char>, flow: Seq<char>, actor: PrincipalView) -> EventView {
    EventView {
        kind: "flow_started"@,
        run_id,
        actor: Some(actor.id),
        tool: Some(flow),
        detail: JsonView::Object(Map::empty().insert("granted_scopes"@, text_array(actor.scopes))),
    }
}

/// The end of a flow.
pub open spec fn flow_finished_event(run_id: Seq<char>, flow: Seq<char>, status: Seq<char>, tokens: u64) -> EventView {
    EventView {
        kind: "flow_finished"@,
        run_id,
        actor: None,
        tool: Some(flow),
        detail: JsonView::Object(
            Map::empty().insert("status"@, JsonView::Str(status)).insert("tree_tokens"@, count_json(tokens)),
        ),
    }
}

impl AuditEvent {
    pub fn copy(&self) -> (r: AuditEvent)
        ensures
            r@ == self@,
    {
        AuditEvent {
            kind: self.kind.clone(),
            run_id: self.run_id.clone(),
            actor: crate::run::copy_text(&self.actor),
            tool: crate::run::copy_text(&self.tool),
            detail: self.detail.copy(),
        }
    }

    pub fn agent_started(run_id: &str, agent: &str, actor: &Principal, tools: &Vec<ToolSpec>) -> (r: AuditEvent)
        ensures
            r@ == started_event(run_id@, agent@, actor@, tool_views(tools@)),
    {
        let mut names: Vec<String> = Vec::new();
        let mut i: usize = 0;
        while i < tools.len()
            invariant
                i <= tools@.len(),
                names@.len() == i,
                forall|k: int| 0 <= k < i ==> (#[trigger] names@[k])@ == tools@[k].name@,
            decreases tools.len() - i,
        {
            names.push(tools[i].name.clone());
            i = i + 1;
        }
        assert(texts(names@) =~= tool_views(tools@).map_values(|t: ToolSpecView| t.name));
        let mut m = Members::new();
        m.put("agent", Json::str(agent));
        m.put("granted_scopes", texts_to_json(&actor.scopes));
        m.put("tools", texts_to_json(&names));
        AuditEvent {
            kind: "agent_started".to_owned(),
            run_id: run_id.to_owned(),
            actor: Some(actor.id.clone()),
            tool: None,
            detail: Json::Object(m),
        }
    }

    pub fn agent_finished(run_id: &str, agent: &str, status: RunStatus, usage: &Usage) -> (r: AuditEvent)
        ensures
            r@ == finished_event(run_id@, agent@, status, *usage),
    {
        let mut m = Members::new();
        m.put("agent", Json::str(agent));
        m.put("status", Json::str(status.as_str()));
        m.put("steps", Json::num(usage.steps as u64));
        m.put("tool_calls", Json::num(usage.tool_calls as u64));
        m.put("input_tokens", Json::num(usage.input_tokens));
        m.put("output_tokens", Json::num(usage.output_tokens));
        AuditEvent {
            kind: "agent_finished".to_owned(),
            run_id: run_id.to_owned(),
            actor: None,
            tool: None,
            detail: Json::Object(m),
        }
    }

    pub fn agent_failed(run_id: &str, agent: &str, error: &str) -> (r: AuditEvent)
        ensures
            r@ == failed_event(run_id@, agent@, error@),
    {
        let mut m = Members::new();
        m.put("agent", Json::str(agent));
        m.put("error", Json::str(error));
        AuditEvent {
            kind: "agent_failed".to_owned(),
            run_id: run_id.to_owned(),
            actor: None,
            tool: None,
            detail: Json::Object(m),
        }
    }

    fn about_tool(kind: &str, run_id: &str, actor: &Principal, tool: &str, detail: Members) -> (r: AuditEvent)
        ensures
            r@ == tool_event(kind@, run_id@, actor.id@, tool@, detail@),
    {
        AuditEvent {
            kind: kind.to_owned(),
            run_id: run_id.to_owned(),
            actor: Some(actor.id.clone()),
            tool: Some(tool.to_owned()),
            detail: Json::Object(detail),
        }
    }

    pub fn tool_called(
        run_id: &str,
        actor: &Principal,
        tool: &str,
        arguments: &Json,
        ok: bool,
        duration_ms: u64,
    ) -> (r: AuditEvent)
        ensures
            r@ == tool_event(
                "tool_called"@,
                run_id@,
                actor.id@,
                tool@,
                called_detail(arguments@, ok, duration_ms),
            ),
    {
        let mut m = Members::new();
        m.put("arguments", arguments.copy());
        m.put("ok", Json::Bool(ok));
        m.put("duration_ms", Json::num(duration_ms));
        AuditEvent::about_tool("tool_called", run_id, actor, tool, m)
    }

    pub fn tool_refused(run_id: &str, actor: &Principal, tool: &str, reason: &str) -> (r: AuditEvent)
        ensures
            r@ == tool_event("tool_refused"@, run_id@, actor.id@, tool@, refused_detail(reason@)),
    {
        let mut m = Members::new();
        m.put("reason", Json::str(reason));
        AuditEvent::about_tool("tool_refused", run_id, actor, tool, m)
    }

    pub fn approval_requested(
        run_id: &str,
        actor: &Principal,
        tool: &str,
        arguments: &Json,
        approval_id: &str,
    ) -> (r: AuditEvent)
        ensures
            r@ == tool_event(
                "approval_requested"@,
                run_id@,
                actor.id@,
                tool@,
                requested_detail(arguments@, approval_id@),
            ),
    {
        let mut m = Members::new();
        m.put("arguments", arguments.copy());
        m.put("approval_id", Json::str(approval_id));
        AuditEvent::about_tool("approval_requested", run_id, actor, tool, m)
    }

    pub fn approval_decided(
        run_id: &str,
        actor: &Principal,
        tool: &str,
        approval_id: &str,
        approved: bool,
        note: &str,
    ) -> (r: AuditEvent)
        ensures
            r@ == tool_event(
                "approval_decided"@,
                run_id@,
                actor.id@,
                tool@,
                decided_detail(approval_id@, approved, note@),
            ),
    {
        let mut m = Members::new();
        m.put("approval_id", Json::str(approval_id));
        m.put("approved", Json::Bool(approved));
        m.put("note", Json::str(note));
        AuditEvent::about_tool("approval_decided", run_id, actor, tool, m)
    }

    pub fn handoff(run_id: &str, actor: &Principal, from: &str, to: &str, reason: &str) -> (r: AuditEvent)
        ensures
            r@ == handoff_event(run_id@, actor.id@, from@, to@, reason@),
    {
        let mut m = Members::new();
        m.put("from", Json::str(from));
        m.put("to", Json::str(to));
        m.put("reason", Json::str(reason));
        AuditEvent {
            kind: "handoff".to_owned(),
            run_id: run_id.to_owned(),
            actor: Some(actor.id.clone()),
            tool: None,
            detail: Json::Object(m),
        }
    }

    pub fn flow_started(run_id: &str, flow: &str, actor: &Principal) -> (r: AuditEvent)
        ensures
            r@ == flow_started_event(run_id@, flow@, actor@),
    {
        let mut m = Members::new();
        m.put("granted_scopes", texts_to_json(&actor.scopes));
        AuditEvent {
            kind: "flow_started".to_owned(),
            run_id: run_id.to_owned(),
            actor: Some(actor.id.clone()),
            tool: Some(flow.to_owned()),
            detail: Json::Object(m),
        }
    }

    pub fn flow_finished(run_id: &str, flow: &str, status: &str, tokens: u64) -> (r: AuditEvent)
        ensures
            r@ == flow_finished_event(run_id@, flow@, status@, tokens),
    {
        let mut m = Members::new();
        m.put("status", Json::str(status));
        m.put("tree_tokens", Json::num(tokens));
        AuditEvent {
            kind: "flow_finished".to_owned(),
            run_id: run_id.to_owned(),
            actor: None,
            tool: Some(flow.to_owned()),
            detail: Json::Object(m),
        }
    }
}

/// Keeps a bounded number of recent events.
#[derive(Debug)]
pub struct MemoryAudit {
    pub events: Vec<AuditEvent>,
    pub capacity: usize,
}

impl View for MemoryAudit {
    type V = Seq<EventView>;

    open spec fn view(&self) -> Seq<EventView> {
        event_views(self.events@)
    }
}

/// The last `n` of a sequence, or all of it.
pub open spec fn newest<T>(s: Seq<T>, n: int) -> Seq<T> {
    if s.len() <= n {
        s
    } else {
        s.skip(s.len() - n)
    }
}

impl Default for MemoryAudit {
    fn default() -> (r: Self)
        ensures
            r@ == Seq::<EventView>::empty(),
            r.capacity == 1000,
    {
        MemoryAudit::with_capacity(1000)
    }
}

impl MemoryAudit {
    pub fn with_capacity(capacity: usize) -> (r: MemoryAudit)
        ensures
            r@ == Seq::<EventView>::empty(),
            r.capacity == capacity,
    {
        let r = MemoryAudit { events: Vec::new(), capacity };
        assert(r@ =~= Seq::<EventView>::empty());
        r
    }

    /// Adds an event; where there is no room, the oldest goes.
    pub fn record(&mut self, event: AuditEvent)
        ensures
            final(self).capacity == old(self).capacity,
            final(self)@ == (if old(self)@.len() >= old(self).capacity && old(self)@.len() > 0 {
                old(self)@.skip(1)
            } else {
                old(self)@
            }).push(event@),
    {
        let ghost was = self@;
        if self.events.len() >= self.capacity && self.events.len() > 0 {
            let _oldest = self.events.remove(0);
            assert(self@ =~= was.skip(1));
        }
        proof {
            lemma_event_push(self.events@, event);
        }
        self.events.push(event);
    }

    /// The most recent events, newest last.
    pub fn recent(&self, limit: usize) -> (r: Vec<AuditEvent>)
        ensures
            event_views(r@) == newest(self@, limit as int),
    {
        let n: usize = self.events.len();
        let from: usize = if n <= limit {
            0
        } else {
            n - limit
        };
        let mut out: Vec<AuditEvent> = Vec::new();
        let mut i: usize = from;
        while i < n
            invariant
                from <= i <= n == self.events@.len(),
                out@.len() == i - from,
                forall|k: int| 0 <= k < i - from ==> (#[trigger] out@[k])@ == self.events@[from + k]@,
            decreases n - i,
        {
            out.push(self.events[i].copy());
            i = i + 1;
        }
        assert(event_views(out@) =~= newest(self@, limit as int));
        out
    }

    /// Whether an event of a kind is among those kept.
    pub fn contains(&self, kind: &str) -> (r: bool)
        ensures
            r == exists|i: int| 0 <= i < self@.len() && (#[trigger] self@[i]).kind == kind@,
    {
        let mut i: usize = 0;
        while i < self.events.len()
            invariant
                i <= self.events@.len(),
                forall|k: int| 0 <= k < i ==> (#[trigger] self@[k]).kind != kind@,
            decreases self.events.len() - i,
        {
            assert(self@[i as int].kind == self.events@[i as int].kind@);
            if same(self.events[i].kind.as_str(), kind) {
                return true;
            }
            i = i + 1;
        }
        false
    }
}

/// A trail that has room for at least one event never outgrows its capacity, and
/// the newest event is always the last.
pub proof fn law_the_trail_is_bounded(before: Seq<EventView>, after: Seq<EventView>, event: EventView, capacity: usize)
    requires
        capacity > 0,
        before.len() <= capacity,
        after == (if before.len() >= capacity && before.len() > 0 {
            before.skip(1)
        } else {
            before
        }).push(event),
    ensures
        after.len() <= capacity,
        after.last() == event,
        after == newest(before.push(event), capacity as int),
{
    if before.len() >= capacity {
        assert(after =~= newest(before.push(event), capacity as int));
    }
}

/// The trail says what a run could do and what came of it: its start names the agent, whom
/// it acts as, each scope that it was granted and each tool that it was offered; its end
/// says how it ended and what it used; and its failure says why.
pub proof fn law_the_trail_tells_of_a_run(
    run_id: Seq<char>,
    agent: Seq<char>,
    actor: PrincipalView,
    tools: Seq<ToolSpecView>,
    status: RunStatus,
    usage: Usage,
    error: Seq<char>,
)
    ensures
        ({
            let e = started_event(run_id, agent, actor, tools);
            &&& e.kind == "agent_started"@ && e.run_id == run_id && e.actor == Some(actor.id) && e.tool is None
            &&& crate::json::member(e.detail, "agent"@) == Some(JsonView::Str(agent))
            &&& crate::json::member(e.detail, "granted_scopes"@) matches Some(JsonView::Array(list)) && list.len()
                == actor.scopes.len() && forall|i: int|
                0 <= i < list.len() ==> #[trigger] list[i] == JsonView::Str(actor.scopes[i])
            &&& crate::json::member(e.detail, "tools"@) matches Some(JsonView::Array(list)) && list.len() == tools.len()
                && forall|i: int| 0 <= i < list.len() ==> #[trigger] list[i] == JsonView::Str(tools[i].name)
        }),
        ({
            let e = finished_event(run_id, agent, status, usage);
            &&& e.kind == "agent_finished"@ && e.run_id == run_id
            &&& crate::json::member(e.detail, "agent"@) == Some(JsonView::Str(agent))
            &&& crate::json::member(e.detail, "status"@) == Some(JsonView::Str(status.text()))
            &&& crate::json::member(e.detail, "steps"@) == Some(JsonView::Number(crate::json::NumberView::Int(usage.steps as int)))
            &&& crate::json::member(e.detail, "tool_calls"@) == Some(JsonView::Number(crate::json::NumberView::Int(usage.tool_calls as int)))
            &&& crate::json::member(e.detail, "input_tokens"@) == Some(JsonView::Number(crate::json::NumberView::Int(usage.input_tokens as int)))
            &&& crate::json::member(e.detail, "output_tokens"@) == Some(JsonView::Number(crate::json::NumberView::Int(usage.output_tokens as int)))
        }),
        ({
            let e = failed_event(run_id, agent, error);
            &&& e.kind == "agent_failed"@ && e.run_id == run_id
            &&& crate::json::member(e.detail, "agent"@) == Some(JsonView::Str(agent))
            &&& crate::json::member(e.detail, "error"@) == Some(JsonView::Str(error))
        }),
{
    reveal_strlit("agent");
    reveal_strlit("granted_scopes");
    reveal_strlit("tools");
    reveal_strlit("status");
    reveal_strlit("steps");
    reveal_strlit("tool_calls");
    reveal_strlit("input_tokens");
    reveal_strlit("output_tokens");
    reveal_strlit("error");
    assert("agent"@.len() == 5);
    assert("granted_scopes"@.len() == 14);
    assert("tools"@.len() == 5);
    assert("status"@.len() == 6);
    assert("steps"@.len() == 5);
    assert("tool_calls"@.len() == 10);
    assert("input_tokens"@.len() == 12);
    assert("output_tokens"@.len() == 13);
    assert("error"@.len() == 5);
    assert("agent"@[0] != "tools"@[0]);
    assert("agent"@[0] != "steps"@[0]);
    assert("agent"@[0] != "error"@[0]);
    assert("tools"@[0] != "steps"@[0]);
    assert("tools"@[0] != "error"@[0]);
    assert("steps"@[0] != "error"@[0]);
}

/// The trail says of each call who made it, which tool it called, with what, and what came
/// of it: that it ran, that it was refused and why, that it waits, and how it was decided.
pub proof fn law_the_trail_tells_of_a_call(
    kind: Seq<char>,
    run_id: Seq<char>,
    actor: Seq<char>,
    tool: Seq<char>,
    detail: Map<Seq<char>, JsonView>,
    arguments: JsonView,
    went_well: bool,
    duration_ms: u64,
    said: Seq<char>,
    approval_id: Seq<char>,
)
    ensures
        tool_event(kind, run_id, actor, tool, detail).kind == kind,
        tool_event(kind, run_id, actor, tool, detail).run_id == run_id,
        tool_event(kind, run_id, actor, tool, detail).actor == Some(actor),
        tool_event(kind, run_id, actor, tool, detail).tool == Some(tool),
        tool_event(kind, run_id, actor, tool, detail).detail == JsonView::Object(detail),
        called_detail(arguments, went_well, duration_ms) == map!["arguments"@ => arguments, "ok"@ => JsonView::Bool(went_well), "duration_ms"@ => JsonView::Number(crate::json::NumberView::Int(duration_ms as int))],
        refused_detail(said) == map!["reason"@ => JsonView::Str(said)],
        requested_detail(arguments, approval_id) == map!["arguments"@ => arguments, "approval_id"@ => JsonView::Str(approval_id)],
        decided_detail(approval_id, went_well, said) == map!["approval_id"@ => JsonView::Str(approval_id), "approved"@ => JsonView::Bool(went_well), "note"@ => JsonView::Str(said)],
{
    assert(called_detail(arguments, went_well, duration_ms) =~= map!["arguments"@ => arguments, "ok"@ => JsonView::Bool(went_well), "duration_ms"@ => JsonView::Number(crate::json::NumberView::Int(duration_ms as int))]);
    assert(refused_detail(said) =~= map!["reason"@ => JsonView::Str(said)]);
    assert(requested_detail(arguments, approval_id) =~= map!["arguments"@ => arguments, "approval_id"@ => JsonView::Str(approval_id)]);
    assert(decided_detail(approval_id, went_well, said) =~= map!["approval_id"@ => JsonView::Str(approval_id), "approved"@ => JsonView::Bool(went_well), "note"@ => JsonView::Str(said)]);
}

/// The trail says of a handoff who handed over to whom and why, and of a flow what it could
/// do and how it ended.
pub proof fn law_the_trail_tells_of_a_handoff_and_a_flow(
    run_id: Seq<char>,
    actor: PrincipalView,
    from: Seq<char>,
    to: Seq<char>,
    reason: Seq<char>,
    tokens: u64,
)
    ensures
        ({
            let e = handoff_event(run_id, actor.id, from, to, reason);
            &&& e.kind == "handoff"@ && e.run_id == run_id && e.actor == Some(actor.id)
            &&& crate::json::member(e.detail, "from"@) == Some(JsonView::Str(from))
            &&& crate::json::member(e.detail, "to"@) == Some(JsonView::Str(to))
            &&& crate::json::member(e.detail, "reason"@) == Some(JsonView::Str(reason))
        }),
        ({
            let e = flow_started_event(run_id, from, actor);
            &&& e.kind == "flow_started"@ && e.run_id == run_id && e.actor == Some(actor.id) && e.tool == Some(from)
            &&& crate::json::member(e.detail, "granted_scopes"@) matches Some(JsonView::Array(list)) && list.len()
                == actor.scopes.len() && forall|i: int|
                0 <= i < list.len() ==> #[trigger] list[i] == JsonView::Str(actor.scopes[i])
        }),
        ({
            let e = flow_finished_event(run_id, from, to, tokens);
            &&& e.kind == "flow_finished"@ && e.run_id == run_id && e.tool == Some(from)
            &&& crate::json::member(e.detail, "status"@) == Some(JsonView::Str(to))
            &&& crate::json::member(e.detail, "tree_tokens"@) == Some(JsonView::Number(crate::json::NumberView::Int(tokens as int)))
        }),
{
    reveal_strlit("from");
    reveal_strlit("to");
    reveal_strlit("reason");
    reveal_strlit("status");
    reveal_strlit("tree_tokens");
    assert("from"@.len() == 4);
    assert("to"@.len() == 2);
    assert("reason"@.len() == 6);
    assert("status"@.len() == 6);
    assert("tree_tokens"@.len() == 11);
    assert("reason"@[0] != "status"@[0]);
}

/// The newest events are handed out: the last ones, in order, and all where there are no
/// more.
pub proof fn law_the_newest_are_handed_out<T>(s: Seq<T>, n: int)
    requires
        n >= 0,
    ensures
        newest(s, n).is_suffix_of(s),
        newest(s, n).len() == (if s.len() <= n {
            s.len() as int
        } else {
            n
        }),
{
    let r = newest(s, n);
    assert(s.subrange(s.len() - r.len(), s.len() as int) =~= r);
}

} // verus!
