//! What an agent run produces.

use crate::budget::saturating;
use crate::json::{Json, JsonView, Members, text_array};
use crate::ledger::count_json;
use crate::text::texts;
use vstd::prelude::*;

verus! {

#[derive(Debug, Clone, Copy, PartialEq, Eq, Structural)]
pub enum RunStatus {
    Completed,
    /// The last response was cut off at `max_tokens`: `output` may be
    /// incomplete, and any tool call in that response was not run.
    MaxTokens,
    /// Hit `max_steps` before the model stopped asking for tools.
    StepLimit,
    /// Hit the token budget: its own, or the request tree's.
    BudgetExhausted,
    /// Suspended on an approval gate; resumable.
    AwaitingApproval,
    Failed,
}

impl RunStatus {
    /// How the status is written.
    pub open spec fn text(&self) -> Seq<char> {
        match self {
            RunStatus::Completed => "completed"@,
            RunStatus::MaxTokens => "max_tokens"@,
            RunStatus::StepLimit => "step_limit"@,
            RunStatus::BudgetExhausted => "budget_exhausted"@,
            RunStatus::AwaitingApproval => "awaiting_approval"@,
            RunStatus::Failed => "failed"@,
        }
    }

    /// How the status is written.
    pub fn as_str(&self) -> (r: &'static str)
        ensures
            r@ == self.text(),
    {
        match self {
            RunStatus::Completed => "completed",
            RunStatus::MaxTokens => "max_tokens",
            RunStatus::StepLimit => "step_limit",
            RunStatus::BudgetExhausted => "budget_exhausted",
            RunStatus::AwaitingApproval => "awaiting_approval",
            RunStatus::Failed => "failed",
        }
    }
}

#[derive(Debug, Clone, Copy, PartialEq, Eq, Structural)]
pub enum StepKind {
    Model,
    ToolCall,
    /// The runtime refused the call: missing scope, unknown tool, or a gate.
    ToolRefused,
    ApprovalRequested,
    /// A human declined a gated call; the model was told so and continued.
    ApprovalDenied,
    /// The conversation was handed to another agent.
    Handoff,
    /// Older turns were summarised to stay inside the context window.
    Compaction,
}

impl StepKind {
    /// How the kind is written.
    pub open spec fn text(&self) -> Seq<char> {
        match self {
            StepKind::Model => "model"@,
            StepKind::ToolCall => "tool_call"@,
            StepKind::ToolRefused => "tool_refused"@,
            StepKind::ApprovalRequested => "approval_requested"@,
            StepKind::ApprovalDenied => "approval_denied"@,
            StepKind::Handoff => "handoff"@,
            StepKind::Compaction => "compaction"@,
        }
    }

    /// How the kind is written.
    pub fn as_str(&self) -> (r: &'static str)
        ensures
            r@ == self.text(),
    {
        match self {
            StepKind::Model => "model",
            StepKind::ToolCall => "tool_call",
            StepKind::ToolRefused => "tool_refused",
            StepKind::ApprovalRequested => "approval_requested",
            StepKind::ApprovalDenied => "approval_denied",
            StepKind::Handoff => "handoff",
            StepKind::Compaction => "compaction",
        }
    }
}

#[derive(Debug, Clone, Copy, PartialEq, Eq, Structural)]
pub struct Usage {
    pub input_tokens: u64,
    pub output_tokens: u64,
    pub cache_read_tokens: u64,
    pub cache_write_tokens: u64,
    pub steps: u32,
    pub tool_calls: u32,
    pub handoffs: u32,
    pub compactions: u32,
    /// Tokens spent by the whole request tree this run belongs to, including
    /// nested agents, behaviours and flows.
    pub tree_tokens: u64,
}

/// Usage of nothing.
pub open spec fn no_usage() -> Usage {
    Usage {
        input_tokens: 0,
        output_tokens: 0,
        cache_read_tokens: 0,
        cache_write_tokens: 0,
        steps: 0,
        tool_calls: 0,
        handoffs: 0,
        compactions: 0,
        tree_tokens: 0,
    }
}

impl Default for Usage {
    fn default() -> (r: Self)
        ensures
            r == no_usage(),
    {
        Usage {
            input_tokens: 0,
            output_tokens: 0,
            cache_read_tokens: 0,
            cache_write_tokens: 0,
            steps: 0,
            tool_calls: 0,
            handoffs: 0,
            compactions: 0,
            tree_tokens: 0,
        }
    }
}

/// All tokens of a usage.
pub open spec fn usage_tokens(u: Usage) -> u64 {
    saturating(
        saturating(saturating(u.input_tokens, u.output_tokens), u.cache_read_tokens),
        u.cache_write_tokens,
    )
}

/// A usage as JSON.
pub open spec fn usage_json(u: Usage) -> JsonView {
    JsonView::Object(
        Map::empty().insert("input_tokens"@, count_json(u.input_tokens)).insert(
            "output_tokens"@,
            count_json(u.output_tokens),
        ).insert("cache_read_tokens"@, count_json(u.cache_read_tokens)).insert(
            "cache_write_tokens"@,
            count_json(u.cache_write_tokens),
        ).insert("steps"@, count_json(u.steps as u64)).insert("tool_calls"@, count_json(u.tool_calls as u64)).insert(
            "handoffs"@,
            count_json(u.handoffs as u64),
        ).insert("compactions"@, count_json(u.compactions as u64)).insert(
            "tree_tokens"@,
            count_json(u.tree_tokens),
        ),
    )
}

impl Usage {
    pub fn total_tokens(&self) -> (r: u64)
        ensures
            r == usage_tokens(*self),
    {
        self.input_tokens.saturating_add(self.output_tokens).saturating_add(self.cache_read_tokens).saturating_add(
            self.cache_write_tokens,
        )
    }

    pub fn to_json(&self) -> (r: Json)
        ensures
            r@ == usage_json(*self),
    {
        let mut m = Members::new();
        m.put("input_tokens", Json::num(self.input_tokens));
        m.put("output_tokens", Json::num(self.output_tokens));
        m.put("cache_read_tokens", Json::num(self.cache_read_tokens));
        m.put("cache_write_tokens", Json::num(self.cache_write_tokens));
        m.put("steps", Json::num(self.steps as u64));
        m.put("tool_calls", Json::num(self.tool_calls as u64));
        m.put("handoffs", Json::num(self.handoffs as u64));
        m.put("compactions", Json::num(self.compactions as u64));
        m.put("tree_tokens", Json::num(self.tree_tokens));
        Json::Object(m)
    }
}

#[derive(Debug)]
pub struct Step {
    pub index: u32,
    pub kind: StepKind,
    pub tool: Option<String>,
    pub arguments: Option<Json>,
    pub result: Option<Json>,
    pub error: Option<String>,
    pub duration_ms: u64,
}

/// What a [`Step`] records.
pub struct StepView {
    pub index: u32,
    pub kind: StepKind,
    pub tool: Option<Seq<char>>,
    pub arguments: Option<JsonView>,
    pub result: Option<JsonView>,
    pub error: Option<Seq<char>>,
    pub duration_ms: u64,
}

/// The text of a string that may be absent.
pub open spec fn maybe_text(s: Option<String>) -> Option<Seq<char>> {
    match s {
        Some(t) => Some(t@),
        None => None,
    }
}

/// What a value that may be absent holds.
pub open spec fn maybe_json(j: Option<Json>) -> Option<JsonView> {
    match j {
        Some(v) => Some(v@),
        None => None,
    }
}

impl View for Step {
    type V = StepView;

    open spec fn view(&self) -> StepView {
        StepView {
            index: self.index,
            kind: self.kind,
            tool: maybe_text(self.tool),
            arguments: maybe_json(self.arguments),
            result: maybe_json(self.result),
            error: maybe_text(self.error),
            duration_ms: self.duration_ms,
        }
    }
}

/// What a list of steps records.
pub open spec fn step_views(list: Seq<Step>) -> Seq<StepView> {
    list.map_values(|s: Step| s@)
}

/// A step added to a list adds what it records.
pub proof fn lemma_step_push(list: Seq<Step>, s: Step)
    ensures
        step_views(list.push(s)) == step_views(list).push(s@),
{
    assert(step_views(list.push(s)) =~= step_views(list).push(s@));
}

/// A map with a member added, where there is a value for it.
pub open spec fn with_member(m: Map<Seq<char>, JsonView>, name: Seq<char>, value: Option<JsonView>) -> Map<
    Seq<char>,
    JsonView,
> {
    match value {
        Some(v) => m.insert(name, v),
        None => m,
    }
}

/// A text that may be absent, as JSON.
pub open spec fn text_value(t: Option<Seq<char>>) -> Option<JsonView> {
    match t {
        Some(s) => Some(JsonView::Str(s)),
        None => None,
    }
}

/// A step as JSON, without what is absent.
pub open spec fn step_json(s: StepView) -> JsonView {
    let m = Map::empty().insert("index"@, count_json(s.index as u64)).insert("kind"@, JsonView::Str(s.kind.text()));
    let m = with_member(m, "tool"@, text_value(s.tool));
    let m = with_member(m, "arguments"@, s.arguments);
    let m = with_member(m, "result"@, s.result);
    let m = with_member(m, "error"@, text_value(s.error));
    JsonView::Object(m.insert("duration_ms"@, count_json(s.duration_ms)))
}

/// Adds a text member, where there is one.
pub fn put_text(m: &mut Members, name: &str, value: &Option<String>)
    ensures
        final(m)@ == with_member(old(m)@, name@, text_value(maybe_text(*value))),
{
    match value {
        Some(t) => {
            m.put(name, Json::str(t.as_str()));
        },
        None => {},
    }
}

/// Adds a member, where there is one.
pub fn put_json(m: &mut Members, name: &str, value: &Option<Json>)
    ensures
        final(m)@ == with_member(old(m)@, name@, maybe_json(*value)),
{
    match value {
        Some(j) => {
            m.put(name, j.copy());
        },
        None => {},
    }
}

/// A copy of a string that may be absent.
pub fn copy_text(s: &Option<String>) -> (r: Option<String>)
    ensures
        maybe_text(r) == maybe_text(*s),
{
    match s {
        Some(t) => Some(t.clone()),
        None => None,
    }
}

/// A copy of a value that may be absent.
pub fn copy_json(j: &Option<Json>) -> (r: Option<Json>)
    ensures
        maybe_json(r) == maybe_json(*j),
{
    match j {
        Some(v) => Some(v.copy()),
        None => None,
    }
}

impl Step {
    pub fn copy(&self) -> (r: Step)
        ensures
            r@ == self@,
    {
        Step {
            index: self.index,
            kind: self.kind,
            tool: copy_text(&self.tool),
            arguments: copy_json(&self.arguments),
            result: copy_json(&self.result),
            error: copy_text(&self.error),
            duration_ms: self.duration_ms,
        }
    }

    pub fn to_json(&self) -> (r: Json)
        ensures
            r@ == step_json(self@),
    {
        let mut m = Members::new();
        m.put("index", Json::num(self.index as u64));
        m.put("kind", Json::str(self.kind.as_str()));
        put_text(&mut m, "tool", &self.tool);
        put_json(&mut m, "arguments", &self.arguments);
        put_json(&mut m, "result", &self.result);
        put_text(&mut m, "error", &self.error);
        m.put("duration_ms", Json::num(self.duration_ms));
        Json::Object(m)
    }
}

#[derive(Debug)]
pub struct PendingApproval {
    pub approval_id: String,
    pub tool: String,
    pub arguments: Json,
    pub reason: String,
}

/// What a [`PendingApproval`] says.
pub struct PendingView {
    pub approval_id: Seq<char>,
    pub tool: Seq<char>,
    pub arguments: JsonView,
    pub reason: Seq<char>,
}

impl View for PendingApproval {
    type V = PendingView;

    open spec fn view(&self) -> PendingView {
        PendingView {
            approval_id: self.approval_id@,
            tool: self.tool@,
            arguments: self.arguments@,
            reason: self.reason@,
        }
    }
}

/// A pending approval as JSON.
pub open spec fn pending_json(p: PendingView) -> JsonView {
    JsonView::Object(
        Map::empty().insert("approval_id"@, JsonView::Str(p.approval_id)).insert("tool"@, JsonView::Str(p.tool)).insert(
            "arguments"@,
            p.arguments,
        ).insert("reason"@, JsonView::Str(p.reason)),
    )
}

impl PendingApproval {
    pub fn to_json(&self) -> (r: Json)
        ensures
            r@ == pending_json(self@),
    {
        let mut m = Members::new();
        m.put("approval_id", Json::str(self.approval_id.as_str()));
        m.put("tool", Json::str(self.tool.as_str()));
        m.put("arguments", self.arguments.copy());
        m.put("reason", Json::str(self.reason.as_str()));
        Json::Object(m)
    }
}

/// The outcome of an agent run.
#[derive(Debug)]
pub struct RunResult {
    pub run_id: String,
    /// The agent that produced the final answer, after any handoffs.
    pub agent: String,
    /// Every agent the run passed through, in order.
    pub path: Vec<String>,
    pub status: RunStatus,
    /// Final assistant text, if the run produced any.
    pub output: String,
    pub steps: Vec<Step>,
    pub usage: Usage,
    /// Set when `status` is `AwaitingApproval`.
    pub pending_approval: Option<PendingApproval>,
    /// Echoed when the run belongs to a session.
    pub session_id: Option<String>,
}

/// What a [`RunResult`] says.
pub struct ResultView {
    pub run_id: Seq<char>,
    pub agent: Seq<char>,
    pub path: Seq<Seq<char>>,
    pub status: RunStatus,
    pub output: Seq<char>,
    pub steps: Seq<StepView>,
    pub usage: Usage,
    pub pending_approval: Option<PendingView>,
    pub session_id: Option<Seq<char>>,
}

/// What a pending approval that may be absent says.
pub open spec fn maybe_pending(p: Option<PendingApproval>) -> Option<PendingView> {
    match p {
        Some(x) => Some(x@),
        None => None,
    }
}

impl View for RunResult {
    type V = ResultView;

    open spec fn view(&self) -> ResultView {
        ResultView {
            run_id: self.run_id@,
            agent: self.agent@,
            path: texts(self.path@),
            status: self.status,
            output: self.output@,
            steps: step_views(self.steps@),
            usage: self.usage,
            pending_approval: maybe_pending(self.pending_approval),
            session_id: maybe_text(self.session_id),
        }
    }
}

/// A run's outcome as JSON, without what is absent.
pub open spec fn result_json(r: ResultView) -> JsonView {
    let m = Map::empty().insert("run_id"@, JsonView::Str(r.run_id)).insert("agent"@, JsonView::Str(r.agent)).insert(
        "path"@,
        text_array(r.path),
    ).insert("status"@, JsonView::Str(r.status.text())).insert("output"@, JsonView::Str(r.output)).insert(
        "steps"@,
        JsonView::Array(r.steps.map_values(|s: StepView| step_json(s))),
    ).insert("usage"@, usage_json(r.usage));
    let m = with_member(
        m,
        "pending_approval"@,
        match r.pending_approval {
            Some(p) => Some(pending_json(p)),
            None => None,
        },
    );
    JsonView::Object(with_member(m, "session_id"@, text_value(r.session_id)))
}

/// Steps as a JSON array.
pub fn steps_to_json(steps: &Vec<Step>) -> (r: Json)
    ensures
        r@ == JsonView::Array(step_views(steps@).map_values(|s: StepView| step_json(s))),
{
    let mut out: Vec<Json> = Vec::new();
    let mut i: usize = 0;
    while i < steps.len()
        invariant
            i <= steps@.len(),
            out@.len() == i,
            forall|k: int| 0 <= k < i ==> (#[trigger] out@[k])@ == step_json(steps@[k]@),
        decreases steps.len() - i,
    {
        out.push(steps[i].to_json());
        i = i + 1;
    }
    proof {
        Json::lemma_array(out);
        assert(Json::Array(out)@->Array_0 =~= step_views(steps@).map_values(|s: StepView| step_json(s)));
    }
    Json::Array(out)
}

impl RunResult {
    pub fn to_json(&self) -> (r: Json)
        ensures
            r@ == result_json(self@),
    {
        let mut m = Members::new();
        m.put("run_id", Json::str(self.run_id.as_str()));
        m.put("agent", Json::str(self.agent.as_str()));
        m.put("path", crate::json::texts_to_json(&self.path));
        m.put("status", Json::str(self.status.as_str()));
        m.put("output", Json::str(self.output.as_str()));
        m.put("steps", steps_to_json(&self.steps));
        m.put("usage", self.usage.to_json());
        match &self.pending_approval {
            Some(p) => {
                m.put("pending_approval", p.to_json());
            },
            None => {},
        }
        put_text(&mut m, "session_id", &self.session_id);
        Json::Object(m)
    }
}

/// A usage says each of its counts under its name.
pub proof fn law_a_usage_says_each_count(u: Usage)
    ensures
        ({
            let j = usage_json(u);
            &&& crate::json::member(j, "input_tokens"@) == Some(JsonView::Number(crate::json::NumberView::Int(u.input_tokens as int)))
            &&& crate::json::member(j, "output_tokens"@) == Some(JsonView::Number(crate::json::NumberView::Int(u.output_tokens as int)))
            &&& crate::json::member(j, "cache_read_tokens"@) == Some(JsonView::Number(crate::json::NumberView::Int(u.cache_read_tokens as int)))
            &&& crate::json::member(j, "cache_write_tokens"@) == Some(JsonView::Number(crate::json::NumberView::Int(u.cache_write_tokens as int)))
            &&& crate::json::member(j, "steps"@) == Some(JsonView::Number(crate::json::NumberView::Int(u.steps as int)))
            &&& crate::json::member(j, "tool_calls"@) == Some(JsonView::Number(crate::json::NumberView::Int(u.tool_calls as int)))
            &&& crate::json::member(j, "handoffs"@) == Some(JsonView::Number(crate::json::NumberView::Int(u.handoffs as int)))
            &&& crate::json::member(j, "compactions"@) == Some(JsonView::Number(crate::json::NumberView::Int(u.compactions as int)))
            &&& crate::json::member(j, "tree_tokens"@) == Some(JsonView::Number(crate::json::NumberView::Int(u.tree_tokens as int)))
        }),
        u.input_tokens + u.output_tokens + u.cache_read_tokens + u.cache_write_tokens <= u64::MAX ==> usage_tokens(u)
            == u.input_tokens + u.output_tokens + u.cache_read_tokens + u.cache_write_tokens,
{
    reveal_strlit("input_tokens");
    reveal_strlit("output_tokens");
    reveal_strlit("cache_read_tokens");
    reveal_strlit("cache_write_tokens");
    reveal_strlit("steps");
    reveal_strlit("tool_calls");
    reveal_strlit("handoffs");
    reveal_strlit("compactions");
    reveal_strlit("tree_tokens");
    assert("input_tokens"@.len() == 12);
    assert("output_tokens"@.len() == 13);
    assert("cache_read_tokens"@.len() == 17);
    assert("cache_write_tokens"@.len() == 18);
    assert("steps"@.len() == 5);
    assert("tool_calls"@.len() == 10);
    assert("handoffs"@.len() == 8);
    assert("compactions"@.len() == 11);
    assert("tree_tokens"@.len() == 11);
    assert("compactions"@[0] != "tree_tokens"@[0]);
}

/// A step says what was done: its kind, the tool and what it was called with, and what came
/// of it; and nothing of what is absent.
pub proof fn law_a_step_says_what_was_done(s: StepView)
    ensures
        ({
            let j = step_json(s);
            &&& crate::json::member(j, "index"@) == Some(JsonView::Number(crate::json::NumberView::Int(s.index as int)))
            &&& crate::json::member(j, "kind"@) == Some(JsonView::Str(s.kind.text()))
            &&& crate::json::member(j, "duration_ms"@) == Some(JsonView::Number(crate::json::NumberView::Int(s.duration_ms as int)))
            &&& crate::json::member(j, "tool"@) == (match s.tool {
                Some(t) => Some(JsonView::Str(t)),
                None => None,
            })
            &&& crate::json::member(j, "arguments"@) == s.arguments
            &&& crate::json::member(j, "result"@) == s.result
            &&& crate::json::member(j, "error"@) == (match s.error {
                Some(t) => Some(JsonView::Str(t)),
                None => None,
            })
        }),
{
    reveal_strlit("index");
    reveal_strlit("kind");
    reveal_strlit("tool");
    reveal_strlit("arguments");
    reveal_strlit("result");
    reveal_strlit("error");
    reveal_strlit("duration_ms");
    assert("index"@.len() == 5);
    assert("kind"@.len() == 4);
    assert("tool"@.len() == 4);
    assert("arguments"@.len() == 9);
    assert("result"@.len() == 6);
    assert("error"@.len() == 5);
    assert("duration_ms"@.len() == 11);
    assert("index"@[0] != "error"@[0]);
    assert("kind"@[0] != "tool"@[0]);
}

/// An outcome says what the run came to: its output, how it ended, through which agents,
/// each step in order, what it used, and what it waits for.
pub proof fn law_an_outcome_says_what_the_run_came_to(r: ResultView)
    ensures
        ({
            let j = result_json(r);
            &&& crate::json::member(j, "run_id"@) == Some(JsonView::Str(r.run_id))
            &&& crate::json::member(j, "agent"@) == Some(JsonView::Str(r.agent))
            &&& crate::json::member(j, "output"@) == Some(JsonView::Str(r.output))
            &&& crate::json::member(j, "status"@) == Some(JsonView::Str(r.status.text()))
            &&& crate::json::member(j, "usage"@) == Some(usage_json(r.usage))
            &&& crate::json::member(j, "path"@) matches Some(JsonView::Array(list)) && list.len() == r.path.len()
                && forall|i: int| 0 <= i < list.len() ==> #[trigger] list[i] == JsonView::Str(r.path[i])
            &&& crate::json::member(j, "steps"@) matches Some(JsonView::Array(list)) && list.len() == r.steps.len()
                && forall|i: int| 0 <= i < list.len() ==> #[trigger] list[i] == step_json(r.steps[i])
            &&& r.pending_approval is None ==> crate::json::member(j, "pending_approval"@) is None
            &&& r.pending_approval matches Some(p) ==> crate::json::member(j, "pending_approval"@) matches Some(w)
                && crate::json::member(w, "approval_id"@) == Some(JsonView::Str(p.approval_id)) && crate::json::member(
                w,
                "tool"@,
            ) == Some(JsonView::Str(p.tool)) && crate::json::member(w, "arguments"@) == Some(p.arguments)
                && crate::json::member(w, "reason"@) == Some(JsonView::Str(p.reason))
            &&& crate::json::member(j, "session_id"@) == (match r.session_id {
                Some(t) => Some(JsonView::Str(t)),
                None => None,
            })
        }),
{
    reveal_strlit("run_id");
    reveal_strlit("agent");
    reveal_strlit("path");
    reveal_strlit("status");
    reveal_strlit("output");
    reveal_strlit("steps");
    reveal_strlit("usage");
    reveal_strlit("pending_approval");
    reveal_strlit("session_id");
    reveal_strlit("approval_id");
    reveal_strlit("tool");
    reveal_strlit("arguments");
    reveal_strlit("reason");
    assert("run_id"@.len() == 6);
    assert("agent"@.len() == 5);
    assert("path"@.len() == 4);
    assert("status"@.len() == 6);
    assert("output"@.len() == 6);
    assert("steps"@.len() == 5);
    assert("usage"@.len() == 5);
    assert("pending_approval"@.len() == 16);
    assert("session_id"@.len() == 10);
    assert("approval_id"@.len() == 11);
    assert("tool"@.len() == 4);
    assert("arguments"@.len() == 9);
    assert("reason"@.len() == 6);
    assert("run_id"@[0] != "status"@[0]);
    assert("run_id"@[0] != "output"@[0]);
    assert("run_id"@[1] != "reason"@[1]);
    assert("agent"@[0] != "steps"@[0]);
    assert("agent"@[0] != "usage"@[0]);
    assert("path"@[0] != "tool"@[0]);
    assert("status"@[0] != "output"@[0]);
    assert("status"@[0] != "reason"@[0]);
    assert("output"@[0] != "reason"@[0]);
    assert("steps"@[0] != "usage"@[0]);
}

/// How a run ended and what a step was are written each in a word of their own.
pub proof fn law_each_ending_has_its_own_word(a: RunStatus, b: RunStatus)
    ensures
        a.text() == b.text() ==> a == b,
        RunStatus::Completed.text() == "completed"@,
        RunStatus::Failed.text() == "failed"@,
        RunStatus::AwaitingApproval.text() == "awaiting_approval"@,
        RunStatus::MaxTokens.text() == "max_tokens"@,
        RunStatus::StepLimit.text() == "step_limit"@,
        RunStatus::BudgetExhausted.text() == "budget_exhausted"@,
        StepKind::Model.text() == "model"@,
        StepKind::ToolCall.text() == "tool_call"@,
        StepKind::ToolRefused.text() == "tool_refused"@,
        StepKind::ApprovalRequested.text() == "approval_requested"@,
        StepKind::ApprovalDenied.text() == "approval_denied"@,
        StepKind::Handoff.text() == "handoff"@,
        StepKind::Compaction.text() == "compaction"@,
{
    reveal_strlit("completed");
    reveal_strlit("max_tokens");
    reveal_strlit("step_limit");
    reveal_strlit("budget_exhausted");
    reveal_strlit("awaiting_approval");
    reveal_strlit("failed");
    assert("completed"@.len() == 9);
    assert("max_tokens"@.len() == 10);
    assert("step_limit"@.len() == 10);
    assert("budget_exhausted"@.len() == 16);
    assert("awaiting_approval"@.len() == 17);
    assert("failed"@.len() == 6);
    assert("max_tokens"@[0] != "step_limit"@[0]);
}

} // verus!
