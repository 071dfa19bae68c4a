//! The machine that an agent run is.
//!
//! Everything mutable lives in a [`Run`]. Each of its transitions answers with the
//! [`Action`] that comes next; whoever drives the run performs it and hands the
//! outcome to the transition that the action names.

use crate::agent::{
    bounded, bounded_view, error_json, error_object, offered_tools, recent_transcript, result_block, tool_result,
    tool_specs, transcript_limit, write_transcript,
};
use crate::app::{ask_outcome, deeper, one_deeper, tool_call, tool_request};
use crate::audit::{
    AuditEvent, EventView, called_detail, decided_detail, event_views, failed_event, finished_event, handoff_event,
    lemma_event_push, refused_detail, requested_detail, started_event, tool_event,
};
use crate::auth::{Principal, PrincipalView, delegate_view, granted_of, grants, is_shared_identity};
use crate::budget::{SharedBudget, reached, saturating};
use crate::conversation::{Conversation, Message, MessageView, ToolSpec, ToolSpecView, message_views, tool_views};
use crate::http::PylonRequest;
use crate::json::{Json, JsonView, Members, json_text, lemma_views_push, member, member_text, views};
use crate::ledger::{KeyView, Ledger, after_charge, count_json, one_call};
use crate::manifest::{AgentDef, Approval, ContextPolicy, Manifest, Route, agent_named, tool_route};
use crate::provider::{
    CallView, CompletionRequest, ProviderResponse, ReplyView, RequestView, StopReason, ToolCall, call_views, or_empty,
    reply_tokens, text_or_empty,
};
use crate::run::{
    PendingApproval, PendingView, ResultView, RunResult, RunStatus, Step, StepKind, StepView, Usage, copy_text,
    lemma_step_push, maybe_text, no_usage, step_views, usage_tokens,
};
use crate::session::{EntryView, SessionStore, is_kept, saved, session_key};
use crate::text::{
    after_prefix, byte_len, cat2, cat3, cat4, cat5, copy_texts, debug_quoted, holds, join, joined, lemma_texts_push,
    prefix_within, quoted, same, strip_prefix, texts,
};
use vstd::prelude::*;

verus! {

/// What a run has come to.
#[derive(Debug)]
pub struct RunState<'a> {
    pub run_id: String,
    /// The agent currently in control. Changes on handoff.
    pub def: &'a AgentDef,
    /// The agent that started the run. Its limits govern the whole run.
    pub entry: &'a AgentDef,
    /// Who started the run. A handoff re-delegates from here.
    pub caller: Principal,
    /// The authority tool calls run under: `caller` delegated to `def`, and
    /// only ever narrowed by a handoff.
    pub actor: Principal,
    pub conversation: Conversation,
    pub usage: Usage,
    pub steps: Vec<Step>,
    pub output: String,
    pub path: Vec<String>,
    /// This run's nesting level; its tool calls dispatch one level deeper.
    pub depth: u32,
    /// Resolved context blocks and handoff guidance, appended to the system
    /// prompt. Re-resolved for the new agent on a handoff.
    pub system_suffix: String,
    /// Input size of the last provider call: the real measure of context.
    pub last_input_tokens: u64,
    /// Consecutive failed compactions, and the step the next attempt waits
    /// for. A summariser that keeps failing would otherwise be called, and
    /// charged, on every remaining step.
    pub compaction_failures: u32,
    pub compaction_retry_at: u32,
    /// The client's session id, echoed in the result.
    pub session_id: Option<String>,
    /// Where the conversation is saved: the session id scoped by the entry
    /// agent and the caller, so another principal's id cannot reach it.
    pub session_key: Option<String>,
}

/// A question for the agent in control of a run.
pub struct Question<'a> {
    pub agent: &'a AgentDef,
    pub conversation: &'a Conversation,
    pub tools: Vec<ToolSpec>,
    pub system_suffix: &'a str,
}

/// What an agent is asked: to go on with a conversation, with tools of which it need not
/// use any.
pub open spec fn open_question(
    agent: AgentDef,
    messages: Seq<MessageView>,
    tools: Seq<ToolSpecView>,
    system_suffix: Seq<char>,
) -> RequestView {
    RequestView {
        agent: agent.name@,
        model: agent.model@,
        system: agent.system@,
        max_tokens: agent.max_tokens,
        temperature: match agent.temperature {
            Some(n) => Some(n@),
            None => None,
        },
        cache: agent.cache,
        messages,
        tools,
        force_tool: None,
        system_suffix,
    }
}

impl<'a> Question<'a> {
    /// The request that asks it.
    pub fn request(&self) -> (r: CompletionRequest<'_>)
        ensures
            r@ == open_question(*self.agent, self.conversation@, tool_views(self.tools@), self.system_suffix@),
    {
        CompletionRequest {
            agent: self.agent,
            conversation: self.conversation,
            tools: self.tools.as_slice(),
            force_tool: None,
            system_suffix: self.system_suffix,
        }
    }
}

/// What a [`RunState`] holds.
#[verifier::ext_equal]
pub struct RunView {
    pub run_id: Seq<char>,
    pub def: AgentDef,
    pub entry: AgentDef,
    pub caller: PrincipalView,
    pub actor: PrincipalView,
    pub conversation: Seq<MessageView>,
    pub usage: Usage,
    pub steps: Seq<StepView>,
    pub output: Seq<char>,
    pub path: Seq<Seq<char>>,
    pub depth: u32,
    pub system_suffix: Seq<char>,
    pub last_input_tokens: u64,
    pub compaction_failures: u32,
    pub compaction_retry_at: u32,
    pub session_id: Option<Seq<char>>,
    pub session_key: Option<Seq<char>>,
}

impl<'a> View for RunState<'a> {
    type V = RunView;

    open spec fn view(&self) -> RunView {
        RunView {
            run_id: self.run_id@,
            def: *self.def,
            entry: *self.entry,
            caller: self.caller@,
            actor: self.actor@,
            conversation: self.conversation@,
            usage: self.usage,
            steps: step_views(self.steps@),
            output: self.output@,
            path: texts(self.path@),
            depth: self.depth,
            system_suffix: self.system_suffix@,
            last_input_tokens: self.last_input_tokens,
            compaction_failures: self.compaction_failures,
            compaction_retry_at: self.compaction_retry_at,
            session_id: maybe_text(self.session_id),
            session_key: maybe_text(self.session_key),
        }
    }
}

/// A count that goes up by one, and stays where it is at its largest.
pub open spec fn counted(n: u32) -> u32 {
    if n == u32::MAX {
        n
    } else {
        (n + 1) as u32
    }
}

/// A run with a step added to its record.
pub open spec fn stepped(st: RunView, step: StepView) -> RunView {
    RunView { steps: st.steps.push(step), ..st }
}

/// A step about a tool call.
pub open spec fn call_step_view(
    index: u32,
    kind: StepKind,
    call: CallView,
    result: Option<JsonView>,
    error: Option<Seq<char>>,
    duration_ms: u64,
) -> StepView {
    StepView {
        index,
        kind,
        tool: Some(call.name),
        arguments: Some(call.arguments),
        result,
        error,
        duration_ms,
    }
}

/// A step that is not about a tool.
pub open spec fn plain_step(
    index: u32,
    kind: StepKind,
    result: Option<JsonView>,
    error: Option<Seq<char>>,
    duration_ms: u64,
) -> StepView {
    StepView { index, kind, tool: None, arguments: None, result, error, duration_ms }
}

/// A run with the tokens of a reply added to its usage.
pub open spec fn spent(st: RunView, r: ReplyView) -> RunView {
    RunView {
        usage: Usage {
            input_tokens: saturating(st.usage.input_tokens, r.input_tokens),
            output_tokens: saturating(st.usage.output_tokens, r.output_tokens),
            cache_read_tokens: saturating(st.usage.cache_read_tokens, r.cache_read_tokens),
            cache_write_tokens: saturating(st.usage.cache_write_tokens, r.cache_write_tokens),
            ..st.usage
        },
        ..st
    }
}

/// Whether a budget was charged with tokens.
pub open spec fn budget_charged(before: SharedBudget, after: SharedBudget, tokens: u64) -> bool {
    after.label == before.label && after.max_tokens == before.max_tokens && after.spent == saturating(
        before.spent,
        tokens,
    )
}

/// Whether a ledger was charged with a reply.
pub open spec fn ledger_charged(before: Ledger, after: Ledger, kind: Seq<char>, name: Seq<char>, r: ReplyView) -> bool {
    &&& after@ == after_charge(
        before@,
        KeyView { kind, name, model: r.model },
        one_call(r.input_tokens, r.output_tokens, r.cache_read_tokens, r.cache_write_tokens),
    )
    &&& after.run_count() == before.run_count()
    &&& after.since() == before.since()
}

/// How many steps a run of an agent may take.
pub open spec fn step_limit(def: AgentDef) -> u32 {
    match def.max_steps {
        Some(n) => n,
        None => 12,
    }
}

/// The limit that a run has reached, given its request tree's budget.
pub open spec fn limit_of(st: RunView, tree_max: Option<u64>, tree_spent: u64) -> Option<RunStatus> {
    if st.usage.steps >= step_limit(st.entry) {
        Some(RunStatus::StepLimit)
    } else if reached(st.entry.token_budget, usage_tokens(st.usage)) || reached(tree_max, tree_spent) {
        Some(RunStatus::BudgetExhausted)
    } else {
        None
    }
}

/// The last assistant message up to `i` behind which enough messages follow.
pub open spec fn last_cut(messages: Seq<MessageView>, keep: int, i: int) -> Option<int>
    decreases i,
{
    if i < 1 {
        None
    } else if messages[i].role == "assistant"@ && messages.len() - i >= keep {
        Some(i)
    } else {
        last_cut(messages, keep, i - 1)
    }
}

/// How many messages survive a compaction untouched, at least.
pub open spec fn kept_messages(policy: ContextPolicy) -> int {
    if policy.keep_recent == 0 {
        1
    } else {
        policy.keep_recent as int
    }
}

/// Where the conversation of a run is cut, if it has outgrown its window. The cut
/// lands on an assistant message, so that a tool call and its result are never
/// separated.
pub open spec fn compaction_cut(st: RunView) -> Option<int> {
    match st.entry.policy.max_context_tokens {
        None => None,
        Some(max) => {
            let n = st.conversation.len() as int;
            let keep = kept_messages(st.entry.policy);
            if st.last_input_tokens <= max || n <= keep + 1 {
                None
            } else {
                match last_cut(st.conversation, keep, n - 1) {
                    Some(c) => if c < 2 {
                        None
                    } else {
                        Some(c)
                    },
                    None => None,
                }
            }
        },
    }
}

/// Where the conversation of a run is to be cut now: not while it waits after a
/// failure.
pub open spec fn compaction_due(st: RunView) -> Option<int> {
    if st.usage.steps >= st.compaction_retry_at {
        compaction_cut(st)
    } else {
        None
    }
}

/// The model that summarises the conversations of an agent.
pub open spec fn compact_model(def: AgentDef) -> Seq<char> {
    match def.policy.compact_with {
        Some(m) => m@,
        None => "fast"@,
    }
}

/// What a summariser is told to do.
pub open spec fn compact_prompt() -> Seq<char> {
    "You compress conversations between a user, an assistant and its tools. Produce a dense summary that preserves: the user's original request verbatim if short; every fact, identifier, number and decision; the results of tool calls that later steps may need; and any open questions. Omit pleasantries. Do not add anything."@
}

/// What a summariser is asked.
pub open spec fn compact_question(st: RunView, cut: int) -> Seq<char> {
    "Summarise this conversation so far:\n\n"@ + recent_transcript(
        st.conversation.take(cut),
        transcript_limit(st.entry.policy.max_context_tokens->0),
    )
}

/// A conversation that is to be summarised.
#[derive(Debug)]
pub struct Compaction {
    pub cut: usize,
    pub agent: AgentDef,
    pub conversation: Conversation,
}

/// Whether a compaction is the one that is due.
pub open spec fn is_compaction(c: Compaction, st: RunView) -> bool {
    &&& compaction_due(st) == Some(c.cut as int)
    &&& c.agent.name@ == st.entry.name@ + ":compact"@
    &&& c.agent.description@.len() == 0
    &&& c.agent.model@ == compact_model(st.entry)
    &&& c.agent.system@ == compact_prompt()
    &&& c.agent.tools@.len() == 0
    &&& c.agent.max_steps == Some(1u32)
    &&& c.agent.token_budget is None
    &&& c.agent.scopes@.len() == 0
    &&& c.agent.temperature is None
    &&& c.agent.max_tokens == 4096
    &&& c.agent.handoffs@.len() == 0
    &&& c.agent.context@.len() == 0
    &&& !c.agent.cache
    &&& crate::manifest::is_default_policy(c.agent.policy)
    &&& c.conversation@ == seq![
        MessageView { role: "user"@, content: JsonView::Str(compact_question(st, c.cut as int)) },
    ]
}

/// How many steps to wait after so many failures.
pub open spec fn backoff(failures: u32) -> u32 {
    if failures < 32 {
        1u32 << failures
    } else {
        u32::MAX
    }
}

/// The sum of two counts, stopped at the largest that fits.
pub open spec fn saturating32(a: u32, b: u32) -> u32 {
    if a + b > u32::MAX {
        u32::MAX
    } else {
        (a + b) as u32
    }
}

/// A run whose compaction failed: recorded so it is visible, and retried after 2, 4,
/// 8… steps rather than on every one.
pub open spec fn compaction_failed(st: RunView, error: Seq<char>) -> RunView {
    let failures = counted(st.compaction_failures);
    RunView {
        compaction_failures: failures,
        compaction_retry_at: saturating32(st.usage.steps, backoff(failures)),
        steps: st.steps.push(plain_step(st.usage.steps, StepKind::Compaction, None, Some(error), 0)),
        ..st
    }
}

/// A conversation whose first messages are summarised.
pub open spec fn summarised_messages(messages: Seq<MessageView>, cut: int, summary: Seq<char>) -> Seq<MessageView> {
    seq![
        MessageView {
            role: "user"@,
            content: JsonView::Str("[Summary of the conversation so far]\n"@ + summary),
        },
    ] + messages.skip(cut)
}

/// How many messages there were before and after a compaction.
pub open spec fn compaction_counts(before: nat, after: nat) -> Map<Seq<char>, JsonView> {
    Map::empty().insert("messages_before"@, count_json(before as u64)).insert(
        "messages_after"@,
        count_json(after as u64),
    )
}

/// A run whose conversation was summarised.
pub open spec fn compacted(st: RunView, cut: int, summary: Seq<char>, duration_ms: u64) -> RunView {
    let messages = summarised_messages(st.conversation, cut, summary);
    RunView {
        conversation: messages,
        usage: Usage { compactions: counted(st.usage.compactions), ..st.usage },
        last_input_tokens: 0,
        compaction_failures: 0,
        steps: st.steps.push(
            plain_step(
                st.usage.steps,
                StepKind::Compaction,
                Some(
                    JsonView::Object(
                        compaction_counts(st.conversation.len(), messages.len()).insert(
                            "summary_chars"@,
                            count_json(byte_len(summary) as u64),
                        ),
                    ),
                ),
                None,
                duration_ms,
            ),
        ),
        ..st
    }
}

/// The event of a compaction.
pub open spec fn compaction_event(st: RunView, cut: int) -> EventView {
    EventView {
        kind: "compaction"@,
        run_id: st.run_id,
        actor: Some(st.actor.id),
        tool: None,
        detail: JsonView::Object(
            compaction_counts(st.conversation.len(), (st.conversation.len() - cut + 1) as nat),
        ),
    }
}

/// What a summariser's reply makes of a run.
pub open spec fn after_summary(
    st: RunView,
    cut: int,
    reply: Result<ReplyView, Seq<char>>,
    duration_ms: u64,
) -> RunView {
    let model = debug_quoted(compact_model(st.entry));
    match reply {
        Err(e) => compaction_failed(st, "compaction with model "@ + model + " failed: "@ + e),
        Ok(r) => if r.text.len() == 0 {
            compaction_failed(spent(st, r), "compaction model "@ + model + " returned no text"@)
        } else {
            compacted(spent(st, r), cut, r.text, duration_ms)
        },
    }
}

/// The events of a summariser's reply.
pub open spec fn summary_events(st: RunView, cut: int, reply: Result<ReplyView, Seq<char>>) -> Seq<EventView> {
    match reply {
        Ok(r) => if r.text.len() == 0 {
            Seq::empty()
        } else {
            seq![compaction_event(st, cut)]
        },
        Err(_) => Seq::empty(),
    }
}

/// What a reply says.
pub open spec fn reply_view(r: Result<ProviderResponse, String>) -> Result<ReplyView, Seq<char>> {
    match r {
        Ok(p) => Ok(p@),
        Err(e) => Err(e@),
    }
}

/// The size of what a reply was made from.
pub open spec fn input_size(r: ReplyView) -> u64 {
    saturating(saturating(r.input_tokens, r.cache_read_tokens), r.cache_write_tokens)
}

/// A run after a reply of the model in control.
pub open spec fn after_reply(st: RunView, r: ReplyView, duration_ms: u64) -> RunView {
    let paid = spent(st, r);
    RunView {
        usage: Usage { steps: counted(st.usage.steps), ..paid.usage },
        last_input_tokens: input_size(r),
        steps: st.steps.push(
            plain_step(
                st.usage.steps,
                StepKind::Model,
                Some(
                    JsonView::Object(
                        Map::empty().insert("model"@, JsonView::Str(r.model)).insert(
                            "input_tokens"@,
                            count_json(input_size(r)),
                        ).insert("output_tokens"@, count_json(r.output_tokens)),
                    ),
                ),
                None,
                duration_ms,
            ),
        ),
        output: if r.text.len() == 0 {
            st.output
        } else {
            r.text
        },
        conversation: st.conversation.push(MessageView { role: "assistant"@, content: r.raw_content }),
        ..st
    }
}

/// A run whose model could not be asked.
pub open spec fn after_fault(st: RunView, error: Seq<char>, duration_ms: u64) -> RunView {
    stepped(st, plain_step(st.usage.steps, StepKind::Model, None, Some(error), duration_ms))
}

/// Whether a reply ends a run. A truncated response may hold a half-written tool
/// call: running it would act on arguments the model never finished.
pub open spec fn reply_ends(r: ReplyView) -> Option<RunStatus> {
    if r.stop_reason == StopReason::MaxTokens {
        Some(RunStatus::MaxTokens)
    } else if r.stop_reason != StopReason::ToolUse || r.tool_calls.len() == 0 {
        Some(RunStatus::Completed)
    } else {
        None
    }
}

/// The agent that a call hands the conversation to, if the agent in control may.
pub open spec fn handoff_target(def: AgentDef, call: CallView) -> Option<Seq<char>> {
    match after_prefix(call.name, "transfer_to_"@) {
        Some(t) => if texts(def.handoffs@).contains(t) {
            Some(t)
        } else {
            None
        },
        None => None,
    }
}

/// Whether a tool waits for a human.
pub open spec fn is_gated(routes: Seq<Route>, tool: Seq<char>) -> bool {
    tool_route(routes, tool) matches Some(r) && r.approval == Approval::Required
}

/// What becomes of a call.
pub enum CallFate {
    /// The conversation changes hands.
    Handoff(Seq<char>),
    /// The conversation cannot change hands.
    NoAgent(Seq<char>),
    /// The tool is not one of the agent's.
    NoTool(Seq<char>),
    /// The call waits for a human.
    Gated,
    /// The call is dispatched.
    Dispatch,
}

/// What is said of a handoff to an agent that is not declared.
pub open spec fn no_agent_text(target: Seq<char>) -> Seq<char> {
    "handoff target "@ + debug_quoted(target) + " is not a declared agent"@
}

/// What is said of a tool that an agent does not have.
pub open spec fn no_tool_text(def: AgentDef, tool: Seq<char>) -> Seq<char> {
    "tool "@ + debug_quoted(tool) + " is not available to this agent; available: "@ + joined(
        texts(def.tools@),
        ", "@,
    )
}

/// What becomes of a call of the agent in control.
pub open spec fn fate_of(def: AgentDef, routes: Seq<Route>, agents: Seq<AgentDef>, call: CallView) -> CallFate {
    match handoff_target(def, call) {
        Some(t) => match agent_named(agents, t) {
            Some(_) => CallFate::Handoff(t),
            None => CallFate::NoAgent(no_agent_text(t)),
        },
        None => if !texts(def.tools@).contains(call.name) {
            CallFate::NoTool(no_tool_text(def, call.name))
        } else if is_gated(routes, call.name) {
            CallFate::Gated
        } else {
            CallFate::Dispatch
        },
    }
}

/// The calls of one turn of the model: those before `at` have results.
#[derive(Debug)]
pub struct Batch {
    pub calls: Vec<ToolCall>,
    pub at: usize,
    pub results: Vec<Json>,
}

/// A run in the middle of a turn, and what was audited.
#[verifier::ext_equal]
pub struct Turn {
    pub st: RunView,
    pub calls: Seq<CallView>,
    pub at: int,
    pub results: Seq<JsonView>,
    pub trail: Seq<EventView>,
}

/// A turn with a result for the call at hand, and a step that records it.
pub open spec fn answered(t: Turn, step: StepView, result: JsonView) -> Turn {
    Turn { st: stepped(t.st, step), at: t.at + 1, results: t.results.push(result), ..t }
}

/// A turn whose call at hand was refused.
pub open spec fn refused_call(t: Turn, message: Seq<char>, duration_ms: u64) -> Turn {
    let call = t.calls[t.at];
    answered(
        t,
        call_step_view(t.st.usage.steps, StepKind::ToolRefused, call, None, Some(message), duration_ms),
        result_block(call.id, error_object(message), true),
    )
}

/// A turn up to its first call that takes more than a refusal.
pub open spec fn walked(t: Turn, routes: Seq<Route>, agents: Seq<AgentDef>) -> Turn
    decreases t.calls.len() - t.at,
{
    if t.at < 0 || t.at >= t.calls.len() {
        t
    } else {
        match fate_of(t.st.def, routes, agents, t.calls[t.at]) {
            CallFate::NoAgent(m) => walked(refused_call(t, m, 0), routes, agents),
            CallFate::NoTool(m) => walked(
                Turn {
                    trail: t.trail.push(
                        tool_event(
                            "tool_refused"@,
                            t.st.run_id,
                            t.st.actor.id,
                            t.calls[t.at].name,
                            refused_detail(m),
                        ),
                    ),
                    ..refused_call(t, m, 0)
                },
                routes,
                agents,
            ),
            _ => t,
        }
    }
}

/// What whoever drives a run is to do next.
#[derive(Debug, Clone, Copy, PartialEq, Eq, Structural)]
pub enum Action {
    /// The run is over: [`Run::finish`].
    Stop(RunStatus),
    /// Older turns are to be summarised as [`Run::compaction`] says, and the reply
    /// handed to [`Run::summarised`].
    Summarise,
    /// The agent in control is to be asked as [`Run::question`] says, and its reply handed
    /// to [`Run::replied`].
    Complete,
    /// The context of the next agent is to be resolved as [`Run::handoff`] says, and
    /// handed to [`Run::handed`].
    Resolve,
    /// The call at hand is to be dispatched, and its outcome handed to
    /// [`Run::dispatched`].
    Dispatch,
    /// The call at hand waits for a human: [`Run::suspend`].
    Suspend,
}

/// What a run does between two turns.
pub open spec fn top_action(st: RunView, tree_max: Option<u64>, tree_spent: u64) -> Action {
    match limit_of(st, tree_max, tree_spent) {
        Some(status) => Action::Stop(status),
        None => if compaction_due(st) is Some {
            Action::Summarise
        } else {
            Action::Complete
        },
    }
}

/// The reason that a call gives for a handoff.
pub open spec fn handoff_reason(call: CallView) -> Seq<char> {
    or_empty(member_text(call.arguments, "reason"@))
}

/// Goes on with a turn: refuses what is to be refused, and says what comes next.
pub open spec fn advanced(
    t: Turn,
    routes: Seq<Route>,
    agents: Seq<AgentDef>,
    tree_max: Option<u64>,
    tree_spent: u64,
) -> (Turn, Action) {
    let w = walked(t, routes, agents);
    if w.at >= w.calls.len() {
        let st = RunView {
            conversation: w.st.conversation.push(
                MessageView { role: "user"@, content: JsonView::Array(w.results) },
            ),
            ..w.st
        };
        (
            Turn { st, calls: Seq::empty(), at: 0, results: Seq::empty(), ..w },
            top_action(st, tree_max, tree_spent),
        )
    } else {
        let call = w.calls[w.at];
        match fate_of(w.st.def, routes, agents, call) {
            CallFate::Handoff(target) => (
                Turn {
                    trail: w.trail.push(
                        handoff_event(
                            w.st.run_id,
                            w.st.actor.id,
                            w.st.def.name@,
                            target,
                            handoff_reason(call),
                        ),
                    ),
                    ..w
                },
                Action::Resolve,
            ),
            CallFate::Gated => (w, Action::Suspend),
            _ => (w, Action::Dispatch),
        }
    }
}

/// Where walking a turn stops, a call is left that takes more than a refusal, or
/// none is left.
proof fn lemma_walked(t: Turn, routes: Seq<Route>, agents: Seq<AgentDef>)
    requires
        0 <= t.at <= t.calls.len(),
    ensures
        ({
            let w = walked(t, routes, agents);
            &&& w.calls == t.calls
            &&& t.at <= w.at <= t.calls.len()
            &&& w.results.len() - w.at == t.results.len() - t.at
            &&& t.results.is_prefix_of(w.results)
            &&& w.at < w.calls.len() ==> !(fate_of(w.st.def, routes, agents, w.calls[w.at]) is NoAgent)
                && !(fate_of(w.st.def, routes, agents, w.calls[w.at]) is NoTool)
            &&& w.st.def == t.st.def
            &&& w.st.entry == t.st.entry
            &&& w.st.caller == t.st.caller
            &&& w.st.actor == t.st.actor
            &&& w.st.conversation == t.st.conversation
            &&& w.st.usage == t.st.usage
        }),
    decreases t.calls.len() - t.at,
{
    if t.at < t.calls.len() {
        match fate_of(t.st.def, routes, agents, t.calls[t.at]) {
            CallFate::NoAgent(m) => {
                let next = refused_call(t, m, 0);
                lemma_walked(next, routes, agents);
                assert(t.results =~= next.results.take(t.results.len() as int));
                assert(t.results =~= walked(t, routes, agents).results.take(t.results.len() as int));
            },
            CallFate::NoTool(m) => {
                let next = Turn {
                    trail: t.trail.push(
                        tool_event(
                            "tool_refused"@,
                            t.st.run_id,
                            t.st.actor.id,
                            t.calls[t.at].name,
                            refused_detail(m),
                        ),
                    ),
                    ..refused_call(t, m, 0)
                };
                lemma_walked(next, routes, agents);
                assert(t.results =~= next.results.take(t.results.len() as int));
                assert(t.results =~= walked(t, routes, agents).results.take(t.results.len() as int));
            },
            _ => {},
        }
    }
}

impl<'a> RunState<'a> {
    fn push_step(&mut self, step: Step)
        ensures
            final(self)@ == stepped(old(self)@, step@),
            final(self).def == old(self).def,
            final(self).entry == old(self).entry,
    {
        proof {
            lemma_step_push(self.steps@, step);
        }
        self.steps.push(step);
    }

    fn push_plain(
        &mut self,
        index: u32,
        kind: StepKind,
        result: Option<Json>,
        error: Option<String>,
        duration_ms: u64,
    )
        ensures
            final(self)@ == stepped(
                old(self)@,
                plain_step(index, kind, crate::run::maybe_json(result), maybe_text(error), duration_ms),
            ),
            final(self).def == old(self).def,
            final(self).entry == old(self).entry,
    {
        self.push_step(Step { index, kind, tool: None, arguments: None, result, error, duration_ms });
    }

    fn push_call(
        &mut self,
        kind: StepKind,
        call: &ToolCall,
        result: Option<Json>,
        error: Option<String>,
        duration_ms: u64,
    )
        ensures
            final(self)@ == stepped(
                old(self)@,
                call_step_view(
                    old(self)@.usage.steps,
                    kind,
                    call@,
                    crate::run::maybe_json(result),
                    maybe_text(error),
                    duration_ms,
                ),
            ),
            final(self).def == old(self).def,
            final(self).entry == old(self).entry,
    {
        let index: u32 = self.usage.steps;
        self.push_step(
            Step {
                index,
                kind,
                tool: Some(call.name.clone()),
                arguments: Some(call.arguments.copy()),
                result,
                error,
                duration_ms,
            },
        );
    }

    /// Charges a reply to the run, its tree and the ledger. Over-budget is detected
    /// between turns; charging never fails a step that already happened.
    fn charge(&mut self, kind: &str, r: &ProviderResponse, budget: &mut SharedBudget, ledger: &mut Ledger)
        ensures
            final(self)@ == spent(old(self)@, r@),
            final(self).def == old(self).def,
            final(self).entry == old(self).entry,
            budget_charged(*old(budget), *final(budget), reply_tokens(r@)),
            ledger_charged(*old(ledger), *final(ledger), kind@, old(self)@.def.name@, r@),
    {
        self.usage.input_tokens = self.usage.input_tokens.saturating_add(r.input_tokens);
        self.usage.output_tokens = self.usage.output_tokens.saturating_add(r.output_tokens);
        self.usage.cache_read_tokens = self.usage.cache_read_tokens.saturating_add(r.cache_read_tokens);
        self.usage.cache_write_tokens = self.usage.cache_write_tokens.saturating_add(r.cache_write_tokens);
        let _ = budget.charge(r.total_tokens());
        ledger.charge(
            kind,
            self.def.name.as_str(),
            r.model.as_str(),
            r.input_tokens,
            r.output_tokens,
            r.cache_read_tokens,
            r.cache_write_tokens,
        );
    }

    /// The limit that the run has reached.
    pub fn limit(&self, budget: &SharedBudget) -> (r: Option<RunStatus>)
        ensures
            r == limit_of(self@, budget.max_tokens, budget.spent),
    {
        let max_steps: u32 = match self.entry.max_steps {
            Some(n) => n,
            None => 12,
        };
        if self.usage.steps >= max_steps {
            return Some(RunStatus::StepLimit);
        }
        if let Some(max) = self.entry.token_budget {
            if self.usage.total_tokens() >= max {
                return Some(RunStatus::BudgetExhausted);
            }
        }
        if budget.exhausted() {
            return Some(RunStatus::BudgetExhausted);
        }
        None
    }

    /// Where the conversation is to be cut now.
    pub fn cut(&self) -> (r: Option<usize>)
        ensures
            match r {
                Some(c) => compaction_due(self@) == Some(c as int) && 2 <= c < self.conversation.messages@.len(),
                None => compaction_due(self@) is None,
            },
    {
        if self.usage.steps < self.compaction_retry_at {
            return None;
        }
        let max: u64 = match self.entry.policy.max_context_tokens {
            Some(m) => m,
            None => {
                return None;
            },
        };
        if self.last_input_tokens <= max {
            return None;
        }
        let messages = &self.conversation.messages;
        let n: usize = messages.len();
        let keep: usize = if self.entry.policy.keep_recent == 0 {
            1
        } else {
            self.entry.policy.keep_recent
        };
        let ghost all = self@.conversation;
        assert(all.len() == n);
        if n <= keep || n - keep <= 1 {
            return None;
        }
        let mut i: usize = n - 1;
        while i >= 1
            invariant
                i < n == messages@.len(),
                all == message_views(messages@),
                messages == &self.conversation.messages,
                all == self@.conversation,
                keep == kept_messages(self@.entry.policy),
                last_cut(all, keep as int, i as int) == last_cut(all, keep as int, n - 1),
                compaction_due(self@) == (match last_cut(all, keep as int, n - 1) {
                    Some(c) => if c < 2 {
                        None::<int>
                    } else {
                        Some(c)
                    },
                    None => None,
                }),
            decreases i,
        {
            assert(all[i as int] == messages@[i as int]@);
            if same(messages[i].role.as_str(), "assistant") && n - i >= keep {
                if i < 2 {
                    return None;
                }
                return Some(i);
            }
            i = i - 1;
        }
        None
    }
}

/// Adds an event to a trail.
pub fn record(trail: &mut Vec<AuditEvent>, event: AuditEvent)
    ensures
        event_views(final(trail)@) == event_views(old(trail)@).push(event@),
{
    proof {
        lemma_event_push(trail@, event);
    }
    trail.push(event);
}

/// The authority after a handoff: delegated from the original caller, and filtered by
/// what the current actor already held.
pub open spec fn handed_actor(caller: PrincipalView, actor: PrincipalView, next: AgentDef) -> PrincipalView {
    let delegate = delegate_view(caller, next.name@, texts(next.scopes@));
    PrincipalView { scopes: granted_of(delegate.scopes, actor.scopes), ..delegate }
}

/// What the first message of a conversation says.
pub open spec fn first_text(messages: Seq<MessageView>) -> Seq<char> {
    if messages.len() == 0 {
        Seq::empty()
    } else {
        match messages[0].content {
            JsonView::Str(s) => s,
            _ => Seq::empty(),
        }
    }
}

/// What is told to the agent that takes over.
pub open spec fn handed_note(target: Seq<char>) -> JsonView {
    JsonView::Object(
        Map::empty().insert("handed_off_to"@, JsonView::Str(target)).insert(
            "note"@,
            JsonView::Str("You are now "@ + target + ". Continue the conversation from here."@),
        ),
    )
}

/// A turn after its call at hand swapped the agent in control, or failed to.
pub open spec fn handed_turn(
    t: Turn,
    next: AgentDef,
    suffix: Result<Seq<char>, Seq<char>>,
    duration_ms: u64,
) -> Turn {
    let call = t.calls[t.at];
    let target = handoff_target(t.st.def, call)->0;
    match suffix {
        Ok(text) => {
            let st = RunView {
                system_suffix: text,
                actor: handed_actor(t.st.caller, t.st.actor, next),
                def: next,
                path: t.st.path.push(target),
                usage: Usage { handoffs: counted(t.st.usage.handoffs), ..t.st.usage },
                ..t.st
            };
            answered(
                Turn { st, ..t },
                call_step_view(
                    st.usage.steps,
                    StepKind::Handoff,
                    call,
                    Some(JsonView::Object(Map::empty().insert("agent"@, JsonView::Str(target)))),
                    None,
                    duration_ms,
                ),
                result_block(call.id, handed_note(target), false),
            )
        },
        Err(e) => refused_call(t, e, duration_ms),
    }
}

/// A turn after its call at hand was dispatched. A failed tool is information the
/// model can act on, not a reason to abort the run.
pub open spec fn dispatched_turn(t: Turn, outcome: Result<JsonView, Seq<char>>, duration_ms: u64) -> Turn {
    let call = t.calls[t.at];
    let st = RunView {
        usage: Usage { tool_calls: counted(t.st.usage.tool_calls), ..t.st.usage },
        ..t.st
    };
    let u = Turn {
        st,
        trail: t.trail.push(
            tool_event(
                "tool_called"@,
                t.st.run_id,
                t.st.actor.id,
                call.name,
                called_detail(call.arguments, outcome is Ok, duration_ms),
            ),
        ),
        ..t
    };
    match outcome {
        Ok(v) => answered(
            u,
            call_step_view(st.usage.steps, StepKind::ToolCall, call, Some(v), None, duration_ms),
            result_block(call.id, bounded_view(v, st.entry.policy.max_tool_result_bytes as nat), false),
        ),
        Err(e) => answered(
            u,
            call_step_view(st.usage.steps, StepKind::ToolCall, call, None, Some(e), duration_ms),
            result_block(call.id, error_object(e), true),
        ),
    }
}

/// What the model is told of a call that a human declined.
pub open spec fn declined_text(tool: Seq<char>, note: Seq<char>) -> Seq<char> {
    if note.len() == 0 {
        "a human declined to allow "@ + debug_quoted(tool) + "; do not retry it"@
    } else {
        "a human declined to allow "@ + debug_quoted(tool) + ": "@ + note + ". Do not retry it"@
    }
}

/// A turn after a human decided on its call at hand: an approved call is still to be
/// dispatched, and a declined one is answered.
pub open spec fn decided_turn(t: Turn, approval_id: Seq<char>, approve: bool, note: Seq<char>) -> Turn {
    let call = t.calls[t.at];
    let u = Turn {
        trail: t.trail.push(
            tool_event(
                "approval_decided"@,
                t.st.run_id,
                t.st.actor.id,
                call.name,
                decided_detail(approval_id, approve, note),
            ),
        ),
        ..t
    };
    if approve {
        u
    } else {
        let message = declined_text(call.name, note);
        answered(
            u,
            call_step_view(t.st.usage.steps, StepKind::ApprovalDenied, call, None, Some(message), 0),
            result_block(call.id, error_object(message), true),
        )
    }
}

/// What is said of a call that waits for a human.
pub open spec fn gated_text(tool: Seq<char>) -> Seq<char> {
    "tool "@ + debug_quoted(tool) + " is gated and requires human approval before it runs"@
}

/// The agent that takes over, with what its context is resolved from.
#[derive(Debug)]
pub struct Handoff<'a> {
    pub agent: &'a AgentDef,
    pub actor: Principal,
    pub input: String,
}

/// A run of an agent.
#[derive(Debug)]
pub struct Run<'a> {
    pub st: RunState<'a>,
    /// The calls of the turn at hand.
    pub batch: Batch,
    pub manifest: &'a Manifest,
}

impl<'a> Run<'a> {
    /// The run in its turn, and what was audited.
    pub open spec fn turn(&self, trail: Seq<AuditEvent>) -> Turn {
        Turn {
            st: self.st@,
            calls: call_views(self.batch.calls@),
            at: self.batch.at as int,
            results: views(self.batch.results@),
            trail: event_views(trail),
        }
    }

    /// What becomes of the call at hand.
    pub open spec fn fate(&self) -> CallFate {
        fate_of(
            self.st@.def,
            self.manifest.routes@,
            self.manifest.agents@,
            self.batch.calls@[self.batch.at as int]@,
        )
    }

    /// What a run does between two turns.
    pub fn top(&self, budget: &SharedBudget) -> (r: Action)
        ensures
            r == top_action(self.st@, budget.max_tokens, budget.spent),
    {
        match self.st.limit(budget) {
            Some(status) => Action::Stop(status),
            None => if self.st.cut().is_some() {
                Action::Summarise
            } else {
                Action::Complete
            },
        }
    }

    /// Adds the result of the call at hand.
    fn answer(&mut self, result: Json)
        requires
            old(self).batch.at < old(self).batch.calls@.len(),
        ensures
            final(self).st == old(self).st,
            final(self).manifest == old(self).manifest,
            final(self).batch.calls == old(self).batch.calls,
            final(self).batch.at == old(self).batch.at + 1,
            views(final(self).batch.results@) == views(old(self).batch.results@).push(result@),
    {
        let n: usize = self.batch.calls.len();
        assert(n == self.batch.calls@.len());
        proof {
            lemma_views_push(self.batch.results@, result);
        }
        self.batch.results.push(result);
        self.batch.at = self.batch.at + 1;
    }

    fn refuse(&mut self, call: &ToolCall, message: String, duration_ms: u64)
        requires
            old(self).batch.at < old(self).batch.calls@.len(),
            call@ == old(self).batch.calls@[old(self).batch.at as int]@,
        ensures
            final(self).manifest == old(self).manifest,
            final(self).batch.calls == old(self).batch.calls,
            final(self).batch.at == old(self).batch.at + 1,
            forall|trail: Seq<AuditEvent>| #[trigger]
                final(self).turn(trail) == refused_call(old(self).turn(trail), message@, duration_ms),
    {
        let result = tool_result(call.id.as_str(), &error_json(message.as_str()), true);
        self.st.push_call(StepKind::ToolRefused, call, None, Some(message), duration_ms);
        self.answer(result);
    }

    /// Goes on with the turn at hand.
    fn advance(&mut self, budget: &SharedBudget, trail: &mut Vec<AuditEvent>) -> (r: Action)
        requires
            old(self).batch.at <= old(self).batch.calls@.len(),
        ensures
            (final(self).turn(final(trail)@), r) == advanced(
                old(self).turn(old(trail)@),
                old(self).manifest.routes@,
                old(self).manifest.agents@,
                budget.max_tokens,
                budget.spent,
            ),
            final(self).manifest == old(self).manifest,
    {
        let ghost start = self.turn(trail@);
        let manifest = self.manifest;
        let ghost routes = manifest.routes@;
        let ghost agents = manifest.agents@;
        while self.batch.at < self.batch.calls.len()
            invariant
                self.manifest == manifest,
                routes == manifest.routes@,
                agents == manifest.agents@,
                self.batch.at <= self.batch.calls@.len(),
                walked(self.turn(trail@), routes, agents) == walked(start, routes, agents),
                advanced(start, routes, agents, budget.max_tokens, budget.spent) == advanced(
                    old(self).turn(old(trail)@),
                    old(self).manifest.routes@,
                    old(self).manifest.agents@,
                    budget.max_tokens,
                    budget.spent,
                ),
                old(self).manifest == manifest,
            decreases self.batch.calls@.len() - self.batch.at,
        {
            let call = self.batch.calls[self.batch.at].copy();
            let ghost now = self.turn(trail@);
            assert(now.calls[now.at] == call@);
            let target = match strip_prefix(call.name.as_str(), "transfer_to_") {
                Some(t) => if holds(&self.st.def.handoffs, t.as_str()) {
                    Some(t)
                } else {
                    None
                },
                None => None,
            };
            assert(maybe_text(target) == handoff_target(self.st@.def, call@));
            if let Some(t) = target {
                match manifest.agent_def(t.as_str()) {
                    None => {
                        let message = cat3("handoff target ", quoted(t.as_str()).as_str(), " is not a declared agent");
                        self.refuse(&call, message, 0);
                    },
                    Some(_) => {
                        let reason = text_or_empty(&call.arguments, "reason");
                        let event = AuditEvent::handoff(
                            self.st.run_id.as_str(),
                            &self.st.actor,
                            self.st.def.name.as_str(),
                            t.as_str(),
                            reason.as_str(),
                        );
                        record(trail, event);
                        return Action::Resolve;
                    },
                }
            } else if !holds(&self.st.def.tools, call.name.as_str()) {
                let message = cat4(
                    "tool ",
                    quoted(call.name.as_str()).as_str(),
                    " is not available to this agent; available: ",
                    join(&self.st.def.tools, ", ").as_str(),
                );
                let event = AuditEvent::tool_refused(
                    self.st.run_id.as_str(),
                    &self.st.actor,
                    call.name.as_str(),
                    message.as_str(),
                );
                self.refuse(&call, message, 0);
                record(trail, event);
            } else {
                let gated = match manifest.route_for_tool(call.name.as_str()) {
                    Some(r) => r.approval == Approval::Required,
                    None => false,
                };
                if gated {
                    return Action::Suspend;
                }
                return Action::Dispatch;
            }
        }
        let ghost w = self.turn(trail@);
        assert(w.at >= w.calls.len());
        let mut results: Vec<Json> = Vec::new();
        std::mem::swap(&mut results, &mut self.batch.results);
        self.batch.calls = Vec::new();
        self.batch.at = 0;
        self.st.conversation.say("user", Json::array(results));
        proof {
            let after = RunView {
                conversation: w.st.conversation.push(
                    MessageView { role: "user"@, content: JsonView::Array(w.results) },
                ),
                ..w.st
            };
            assert(self.st@ =~= after);
            assert(call_views(self.batch.calls@) =~= Seq::empty());
            assert(views(self.batch.results@) =~= Seq::empty());
        }
        self.top(budget)
    }
}

impl Compaction {
    /// The request that asks for the summary.
    pub fn request(&self) -> (r: CompletionRequest<'_>)
        ensures
            r@ == open_question(self.agent, self.conversation@, Seq::empty(), ""@),
    {
        let r = CompletionRequest {
            agent: &self.agent,
            conversation: &self.conversation,
            tools: &[],
            force_tool: None,
            system_suffix: "",
        };
        assert(r@.tools =~= Seq::empty());
        r
    }
}

impl<'a> Run<'a> {
    /// What the agent in control is asked: to go on with the conversation, with its tools
    /// and those by which it may hand over, and with its context.
    pub fn question(&self) -> (r: Question<'_>)
        ensures
            *r.agent == self.st@.def,
            r.conversation@ == self.st@.conversation,
            tool_views(r.tools@) == offered_tools(self.st@.def, self.manifest.routes@, self.manifest.agents@),
            r.system_suffix@ == self.st@.system_suffix,
    {
        Question {
            agent: self.st.def,
            conversation: &self.st.conversation,
            tools: tool_specs(self.manifest, self.st.def),
            system_suffix: self.st.system_suffix.as_str(),
        }
    }

    /// The conversation that is to be summarised now.
    pub fn compaction(&self) -> (r: Option<Compaction>)
        ensures
            match r {
                Some(c) => is_compaction(c, self.st@),
                None => compaction_due(self.st@) is None,
            },
    {
        let cut: usize = match self.st.cut() {
            Some(c) => c,
            None => {
                return None;
            },
        };
        let entry = self.st.entry;
        let max: u64 = match entry.policy.max_context_tokens {
            Some(m) => m,
            None => 0,
        };
        let text = write_transcript(&self.st.conversation.messages, cut, max);
        let model = match &entry.policy.compact_with {
            Some(m) => m.clone(),
            None => "fast".to_owned(),
        };
        let agent = AgentDef {
            name: cat2(entry.name.as_str(), ":compact"),
            description: String::new(),
            model,
            system: "You compress conversations between a user, an assistant and its tools. Produce a dense summary that preserves: the user's original request verbatim if short; every fact, identifier, number and decision; the results of tool calls that later steps may need; and any open questions. Omit pleasantries. Do not add anything.".to_owned(),
            tools: Vec::new(),
            max_steps: Some(1),
            token_budget: None,
            scopes: Vec::new(),
            temperature: None,
            max_tokens: 4096,
            handoffs: Vec::new(),
            context: Vec::new(),
            cache: false,
            policy: ContextPolicy::default(),
        };
        let mut conversation = Conversation::default();
        conversation.say("user", Json::Str(cat2("Summarise this conversation so far:\n\n", text.as_str())));
        assert(conversation@ =~= seq![
            MessageView { role: "user"@, content: JsonView::Str(compact_question(self.st@, cut as int)) },
        ]);
        Some(Compaction { cut, agent, conversation })
    }

    fn fail_compaction(&mut self, error: String)
        ensures
            final(self).st@ == compaction_failed(old(self).st@, error@),
            final(self).st.def == old(self).st.def,
            final(self).batch == old(self).batch,
            final(self).manifest == old(self).manifest,
    {
        let failures: u32 = self.st.compaction_failures.saturating_add(1);
        let wait: u32 = if failures < 32 {
            1u32 << failures
        } else {
            u32::MAX
        };
        let steps: u32 = self.st.usage.steps;
        self.st.compaction_failures = failures;
        self.st.compaction_retry_at = steps.saturating_add(wait);
        self.st.push_plain(steps, StepKind::Compaction, None, Some(error), 0);
    }

    fn compact(&mut self, cut: usize, summary: &str, duration_ms: u64, trail: &mut Vec<AuditEvent>)
        requires
            cut <= old(self).st.conversation.messages@.len(),
        ensures
            final(self).st@ == compacted(old(self).st@, cut as int, summary@, duration_ms),
            final(self).batch == old(self).batch,
            final(self).manifest == old(self).manifest,
            event_views(final(trail)@) == event_views(old(trail)@).push(
                compaction_event(old(self).st@, cut as int),
            ),
    {
        let ghost was = self.st@;
        let before: usize = self.st.conversation.messages.len();
        let ghost all = self.st.conversation.messages@;
        let mut tail = self.st.conversation.messages.split_off(cut);
        let mut messages: Vec<Message> = Vec::new();
        messages.push(
            Message::new("user", Json::Str(cat2("[Summary of the conversation so far]\n", summary))),
        );
        messages.append(&mut tail);
        let after: usize = messages.len();
        proof {
            let head = MessageView {
                role: "user"@,
                content: JsonView::Str("[Summary of the conversation so far]\n"@ + summary@),
            };
            assert(message_views(messages@) =~= summarised_messages(was.conversation, cut as int, summary@));
        }
        self.st.conversation = Conversation { messages };
        self.st.usage.compactions = self.st.usage.compactions.saturating_add(1);
        self.st.last_input_tokens = 0;
        self.st.compaction_failures = 0;
        let mut counts = Members::new();
        counts.put("messages_before", Json::num(before as u64));
        counts.put("messages_after", Json::num(after as u64));
        let detail = Json::Object(counts.copy());
        counts.put("summary_chars", Json::num(summary.as_bytes().len() as u64));
        let steps: u32 = self.st.usage.steps;
        self.st.push_plain(steps, StepKind::Compaction, Some(Json::Object(counts)), None, duration_ms);
        let event = AuditEvent {
            kind: "compaction".to_owned(),
            run_id: self.st.run_id.clone(),
            actor: Some(self.st.actor.id.clone()),
            tool: None,
            detail,
        };
        assert(event@ == compaction_event(was, cut as int));
        record(trail, event);
    }

    /// Takes the reply of a summariser. The agent in control is asked next, whatever
    /// it says: a failed compaction is not a reason to abandon the run.
    pub fn summarised(
        &mut self,
        cut: usize,
        reply: Result<ProviderResponse, String>,
        duration_ms: u64,
        budget: &mut SharedBudget,
        ledger: &mut Ledger,
        trail: &mut Vec<AuditEvent>,
    ) -> (r: Action)
        requires
            cut <= old(self).st.conversation.messages@.len(),
        ensures
            r == Action::Complete,
            final(self).st@ == after_summary(old(self).st@, cut as int, reply_view(reply), duration_ms),
            final(self).batch == old(self).batch,
            final(self).manifest == old(self).manifest,
            event_views(final(trail)@) == event_views(old(trail)@) + summary_events(
                old(self).st@,
                cut as int,
                reply_view(reply),
            ),
            match reply {
                Ok(p) => budget_charged(*old(budget), *final(budget), reply_tokens(p@)) && ledger_charged(
                    *old(ledger),
                    *final(ledger),
                    "compaction"@,
                    old(self).st@.def.name@,
                    p@,
                ),
                Err(_) => *final(budget) == *old(budget) && *final(ledger) == *old(ledger),
            },
    {
        let ghost was = self.st@;
        let model = match &self.st.entry.policy.compact_with {
            Some(m) => m.clone(),
            None => "fast".to_owned(),
        };
        let model = quoted(model.as_str());
        match reply {
            Err(e) => {
                let message = cat4("compaction with model ", model.as_str(), " failed: ", e.as_str());
                self.fail_compaction(message);
                assert(event_views(trail@) =~= event_views(trail@) + Seq::<EventView>::empty());
            },
            Ok(p) => {
                self.st.charge("compaction", &p, budget, ledger);
                if p.text.as_str().is_empty() {
                    let message = cat3("compaction model ", model.as_str(), " returned no text");
                    self.fail_compaction(message);
                    assert(event_views(trail@) =~= event_views(trail@) + Seq::<EventView>::empty());
                } else {
                    self.compact(cut, p.text.as_str(), duration_ms, trail);
                    assert(event_views(trail@) =~= event_views(old(trail)@) + seq![compaction_event(was, cut as int)]);
                }
            },
        }
        Action::Complete
    }

    /// Takes the reply of the agent in control.
    pub fn replied(
        &mut self,
        reply: Result<ProviderResponse, String>,
        duration_ms: u64,
        budget: &mut SharedBudget,
        ledger: &mut Ledger,
        trail: &mut Vec<AuditEvent>,
    ) -> (r: Action)
        ensures
            final(self).manifest == old(self).manifest,
            match reply {
                Err(e) => {
                    &&& r == Action::Stop(RunStatus::Failed)
                    &&& final(self).st@ == after_fault(old(self).st@, e@, duration_ms)
                    &&& final(self).batch == old(self).batch
                    &&& event_views(final(trail)@) == event_views(old(trail)@).push(
                        failed_event(old(self).st@.run_id, old(self).st@.def.name@, e@),
                    )
                    &&& *final(budget) == *old(budget)
                    &&& *final(ledger) == *old(ledger)
                },
                Ok(p) => {
                    let st = after_reply(old(self).st@, p@, duration_ms);
                    &&& budget_charged(*old(budget), *final(budget), reply_tokens(p@))
                    &&& ledger_charged(*old(ledger), *final(ledger), "agent"@, old(self).st@.def.name@, p@)
                    &&& match reply_ends(p@) {
                        Some(status) => r == Action::Stop(status) && final(self).st@ == st && final(self).batch
                            == old(self).batch && event_views(final(trail)@) == event_views(old(trail)@),
                        None => (final(self).turn(final(trail)@), r) == advanced(
                            Turn {
                                st,
                                calls: p@.tool_calls,
                                at: 0,
                                results: Seq::empty(),
                                trail: event_views(old(trail)@),
                            },
                            old(self).manifest.routes@,
                            old(self).manifest.agents@,
                            final(budget).max_tokens,
                            final(budget).spent,
                        ),
                    }
                },
            },
    {
        let ghost was = self.st@;
        let p = match reply {
            Ok(p) => p,
            Err(e) => {
                let index: u32 = self.st.usage.steps;
                let event = AuditEvent::agent_failed(
                    self.st.run_id.as_str(),
                    self.st.def.name.as_str(),
                    e.as_str(),
                );
                self.st.push_plain(index, StepKind::Model, None, Some(e), duration_ms);
                record(trail, event);
                return Action::Stop(RunStatus::Failed);
            },
        };
        let ghost said = p@;
        self.st.charge("agent", &p, budget, ledger);
        let index: u32 = self.st.usage.steps;
        self.st.usage.steps = index.saturating_add(1);
        let size: u64 = p.input_tokens.saturating_add(p.cache_read_tokens).saturating_add(p.cache_write_tokens);
        self.st.last_input_tokens = size;
        let mut m = Members::new();
        m.put("model", Json::str(p.model.as_str()));
        m.put("input_tokens", Json::num(size));
        m.put("output_tokens", Json::num(p.output_tokens));
        self.st.push_plain(index, StepKind::Model, Some(Json::Object(m)), None, duration_ms);
        if !p.text.as_str().is_empty() {
            self.st.output = p.text.clone();
        }
        self.st.conversation.say("assistant", p.raw_content.copy());
        assert(self.st@ =~= after_reply(was, said, duration_ms));
        if p.stop_reason == StopReason::MaxTokens {
            return Action::Stop(RunStatus::MaxTokens);
        }
        assert(call_views(p.tool_calls@).len() == p.tool_calls@.len());
        if p.stop_reason != StopReason::ToolUse || p.tool_calls.len() == 0 {
            return Action::Stop(RunStatus::Completed);
        }
        self.batch = Batch { calls: p.tool_calls, at: 0, results: Vec::new() };
        assert(views(self.batch.results@) =~= Seq::empty());
        self.advance(&*budget, trail)
    }

    /// The request that the call at hand is: made under the run's own authority, one
    /// level deeper than the run. It is to be dispatched like any other, and its outcome
    /// handed to [`Run::dispatched`]. Where there is no such request, that is the outcome.
    pub fn call_request(&self) -> (r: Result<PylonRequest, String>)
        requires
            self.batch.at < self.batch.calls@.len(),
        ensures
            ask_outcome(r) == tool_call(
                self.manifest.routes@,
                self.batch.calls@[self.batch.at as int]@.name,
                self.batch.calls@[self.batch.at as int]@.arguments,
                self.st@.actor,
                deeper(self.st.depth),
            ),
    {
        let call = &self.batch.calls[self.batch.at];
        tool_request(
            self.manifest,
            call.name.as_str(),
            &call.arguments,
            &self.st.actor,
            one_deeper(self.st.depth),
        )
    }

    /// Takes the outcome of the call at hand.
    pub fn dispatched(
        &mut self,
        outcome: Result<Json, String>,
        duration_ms: u64,
        budget: &SharedBudget,
        trail: &mut Vec<AuditEvent>,
    ) -> (r: Action)
        requires
            old(self).batch.at < old(self).batch.calls@.len(),
        ensures
            (final(self).turn(final(trail)@), r) == advanced(
                dispatched_turn(old(self).turn(old(trail)@), outcome_view(outcome), duration_ms),
                old(self).manifest.routes@,
                old(self).manifest.agents@,
                budget.max_tokens,
                budget.spent,
            ),
            final(self).manifest == old(self).manifest,
    {
        let ghost was = self.turn(trail@);
        let call = self.batch.calls[self.batch.at].copy();
        assert(was.calls[was.at] == call@);
        self.st.usage.tool_calls = self.st.usage.tool_calls.saturating_add(1);
        let event = AuditEvent::tool_called(
            self.st.run_id.as_str(),
            &self.st.actor,
            call.name.as_str(),
            &call.arguments,
            outcome.is_ok(),
            duration_ms,
        );
        record(trail, event);
        match outcome {
            Ok(value) => {
                let shown = bounded(&value, self.st.entry.policy.max_tool_result_bytes);
                let result = tool_result(call.id.as_str(), &shown, false);
                self.st.push_call(StepKind::ToolCall, &call, Some(value), None, duration_ms);
                self.answer(result);
            },
            Err(e) => {
                let result = tool_result(call.id.as_str(), &error_json(e.as_str()), true);
                self.st.push_call(StepKind::ToolCall, &call, None, Some(e), duration_ms);
                self.answer(result);
            },
        }
        assert(self.turn(trail@) =~= dispatched_turn(was, outcome_view(outcome), duration_ms));
        self.advance(budget, trail)
    }

    /// The agent that takes over, with what its context is resolved from.
    pub fn handoff(&self) -> (r: Option<Handoff<'a>>)
        requires
            self.batch.at < self.batch.calls@.len(),
        ensures
            match r {
                Some(h) => self.fate() matches CallFate::Handoff(t) && agent_named(self.manifest.agents@, t) == Some(
                    *h.agent,
                ) && h.actor@ == handed_actor(self.st@.caller, self.st@.actor, *h.agent) && h.input@ == first_text(
                    self.st@.conversation,
                ),
                None => !(self.fate() is Handoff),
            },
    {
        let call = &self.batch.calls[self.batch.at];
        let target = match strip_prefix(call.name.as_str(), "transfer_to_") {
            Some(t) => t,
            None => {
                return None;
            },
        };
        if !holds(&self.st.def.handoffs, target.as_str()) {
            return None;
        }
        assert(handoff_target(self.st@.def, call@) == Some(target@));
        match self.manifest.agent_def(target.as_str()) {
            Some(next) => {
                let messages = &self.st.conversation.messages;
                let input = if messages.len() > 0 {
                    match &messages[0].content {
                        Json::Str(s) => s.clone(),
                        _ => String::new(),
                    }
                } else {
                    String::new()
                };
                assert(input@ =~= first_text(self.st@.conversation));
                Some(Handoff { agent: next, actor: self.next_actor(next), input })
            },
            None => None,
        }
    }

    fn next_actor(&self, next: &AgentDef) -> (r: Principal)
        ensures
            r@ == handed_actor(self.st@.caller, self.st@.actor, *next),
    {
        let delegate = self.st.caller.delegate_to_agent(next.name.as_str(), &next.scopes);
        let scopes = self.st.actor.granted(&delegate.scopes);
        Principal { id: delegate.id, kind: delegate.kind, scopes, claims: delegate.claims }
    }

    /// Takes what is appended to the next agent's system prompt, and swaps the agent
    /// in control.
    pub fn handed(
        &mut self,
        suffix: Result<String, String>,
        duration_ms: u64,
        budget: &SharedBudget,
        trail: &mut Vec<AuditEvent>,
    ) -> (r: Action)
        requires
            old(self).batch.at < old(self).batch.calls@.len(),
            old(self).fate() is Handoff,
        ensures
            (final(self).turn(final(trail)@), r) == advanced(
                handed_turn(
                    old(self).turn(old(trail)@),
                    agent_named(old(self).manifest.agents@, old(self).fate()->Handoff_0)->0,
                    text_outcome(suffix),
                    duration_ms,
                ),
                old(self).manifest.routes@,
                old(self).manifest.agents@,
                budget.max_tokens,
                budget.spent,
            ),
            final(self).manifest == old(self).manifest,
    {
        let ghost was = self.turn(trail@);
        let call = self.batch.calls[self.batch.at].copy();
        assert(was.calls[was.at] == call@);
        match suffix {
            Err(e) => {
                self.refuse(&call, e, duration_ms);
            },
            Ok(text) => {
                if let Some(h) = self.handoff() {
                    let target = match strip_prefix(call.name.as_str(), "transfer_to_") {
                        Some(t) => t,
                        None => String::new(),
                    };
                    assert(handoff_target(was.st.def, call@) == Some(target@));
                    let mut shown = Members::new();
                    shown.put("agent", Json::str(target.as_str()));
                    let mut note = Members::new();
                    note.put("handed_off_to", Json::str(target.as_str()));
                    note.put(
                        "note",
                        Json::Str(
                            cat3("You are now ", target.as_str(), ". Continue the conversation from here."),
                        ),
                    );
                    let result = tool_result(call.id.as_str(), &Json::Object(note), false);
                    self.st.system_suffix = text;
                    self.st.actor = h.actor;
                    self.st.def = h.agent;
                    proof {
                        lemma_texts_push(self.st.path@, target);
                    }
                    self.st.path.push(target);
                    self.st.usage.handoffs = self.st.usage.handoffs.saturating_add(1);
                    self.st.push_call(StepKind::Handoff, &call, Some(Json::Object(shown)), None, duration_ms);
                    self.answer(result);
                }
            },
        }
        assert(self.turn(trail@) =~= handed_turn(
            was,
            agent_named(old(self).manifest.agents@, old(self).fate()->Handoff_0)->0,
            text_outcome(suffix),
            duration_ms,
        ));
        self.advance(budget, trail)
    }

    /// Takes a human's decision on the call at hand. The rest of the interrupted turn
    /// goes on too, so that a model that asked for three tools and hit a gate on the
    /// second still gets all three results back.
    pub fn decided(
        &mut self,
        approval_id: &str,
        approve: bool,
        note: &str,
        budget: &SharedBudget,
        trail: &mut Vec<AuditEvent>,
    ) -> (r: Action)
        requires
            old(self).batch.at < old(self).batch.calls@.len(),
        ensures
            final(self).manifest == old(self).manifest,
            ({
                let t = decided_turn(old(self).turn(old(trail)@), approval_id@, approve, note@);
                if approve {
                    final(self).turn(final(trail)@) == t && r == Action::Dispatch
                } else {
                    (final(self).turn(final(trail)@), r) == advanced(
                        t,
                        old(self).manifest.routes@,
                        old(self).manifest.agents@,
                        budget.max_tokens,
                        budget.spent,
                    )
                }
            }),
    {
        let ghost was = self.turn(trail@);
        let call = self.batch.calls[self.batch.at].copy();
        assert(was.calls[was.at] == call@);
        let event = AuditEvent::approval_decided(
            self.st.run_id.as_str(),
            &self.st.actor,
            call.name.as_str(),
            approval_id,
            approve,
            note,
        );
        record(trail, event);
        if approve {
            return Action::Dispatch;
        }
        let name = quoted(call.name.as_str());
        let message = if note.is_empty() {
            cat3("a human declined to allow ", name.as_str(), "; do not retry it")
        } else {
            cat5("a human declined to allow ", name.as_str(), ": ", note, ". Do not retry it")
        };
        let result = tool_result(call.id.as_str(), &error_json(message.as_str()), true);
        self.st.push_call(StepKind::ApprovalDenied, &call, None, Some(message), 0);
        self.answer(result);
        assert(self.turn(trail@) =~= decided_turn(was, approval_id@, approve, note@));
        self.advance(budget, trail)
    }

    /// Parks the call at hand until a human decides.
    pub fn suspend(&mut self, approval_id: &str, trail: &mut Vec<AuditEvent>) -> (r: PendingApproval)
        requires
            old(self).batch.at < old(self).batch.calls@.len(),
        ensures
            final(self).manifest == old(self).manifest,
            final(self).batch == old(self).batch,
            ({
                let call = old(self).batch.calls@[old(self).batch.at as int]@;
                &&& final(self).st@ == stepped(
                    old(self).st@,
                    call_step_view(
                        old(self).st@.usage.steps,
                        StepKind::ApprovalRequested,
                        call,
                        Some(JsonView::Object(Map::empty().insert("approval_id"@, JsonView::Str(approval_id@)))),
                        None,
                        0,
                    ),
                )
                &&& event_views(final(trail)@) == event_views(old(trail)@).push(
                    tool_event(
                        "approval_requested"@,
                        old(self).st@.run_id,
                        old(self).st@.actor.id,
                        call.name,
                        requested_detail(call.arguments, approval_id@),
                    ),
                )
                &&& r@ == (PendingView {
                    approval_id: approval_id@,
                    tool: call.name,
                    arguments: call.arguments,
                    reason: gated_text(call.name),
                })
            }),
    {
        let call = self.batch.calls[self.batch.at].copy();
        let mut m = Members::new();
        m.put("approval_id", Json::str(approval_id));
        self.st.push_call(StepKind::ApprovalRequested, &call, Some(Json::Object(m)), None, 0);
        let event = AuditEvent::approval_requested(
            self.st.run_id.as_str(),
            &self.st.actor,
            call.name.as_str(),
            &call.arguments,
            approval_id,
        );
        record(trail, event);
        PendingApproval {
            approval_id: approval_id.to_owned(),
            reason: cat3(
                "tool ",
                quoted(call.name.as_str()).as_str(),
                " is gated and requires human approval before it runs",
            ),
            tool: call.name,
            arguments: call.arguments,
        }
    }
}

/// What an outcome says.
pub open spec fn outcome_view(r: Result<Json, String>) -> Result<JsonView, Seq<char>> {
    match r {
        Ok(v) => Ok(v@),
        Err(e) => Err(e@),
    }
}

/// What an outcome of text says.
pub open spec fn text_outcome(r: Result<String, String>) -> Result<Seq<char>, Seq<char>> {
    match r {
        Ok(t) => Ok(t@),
        Err(e) => Err(e@),
    }
}

/// What is told of a run that waits for a human.
pub open spec fn parked_json(run: Run, approval_id: Seq<char>, age_secs: u64) -> JsonView {
    let call = run.batch.calls@[run.batch.at as int]@;
    JsonView::Object(
        Map::empty().insert("approval_id"@, JsonView::Str(approval_id)).insert(
            "run_id"@,
            JsonView::Str(run.st@.run_id),
        ).insert("agent"@, JsonView::Str(run.st@.def.name@)).insert("caller"@, JsonView::Str(run.st@.caller.id)).insert(
            "tool"@,
            JsonView::Str(call.name),
        ).insert("arguments"@, call.arguments).insert("age_secs"@, count_json(age_secs)).insert(
            "session_id"@,
            match run.st@.session_id {
                Some(s) => JsonView::Str(s),
                None => JsonView::Null,
            },
        ),
    )
}

/// How a run is started: where it sits in the request tree and whether it
/// continues a session.
#[derive(Debug)]
pub struct RunOptions {
    pub depth: u32,
    /// Client-visible session id. The store key also includes the principal.
    pub session_id: Option<String>,
    /// Discard any existing session history before this turn.
    pub reset_session: bool,
}

impl Default for RunOptions {
    fn default() -> (r: Self)
        ensures
            r.depth == 0,
            r.session_id is None,
            !r.reset_session,
    {
        RunOptions { depth: 0, session_id: None, reset_session: false }
    }
}

/// The session that a run belongs to. Callers who share one identity cannot open one:
/// they would see each other's history.
pub open spec fn session_of(caller: PrincipalView, session_id: Option<Seq<char>>) -> Option<Seq<char>> {
    if is_shared_identity(caller) {
        None
    } else {
        session_id
    }
}

/// Where the session of a run is kept.
pub open spec fn key_of(def: AgentDef, caller: PrincipalView, session_id: Option<Seq<char>>) -> Option<Seq<char>> {
    match session_id {
        Some(sid) => Some(session_key(def.name@, caller.id, sid)),
        None => None,
    }
}

/// The conversation that a run continues.
pub open spec fn history(
    sessions: Map<Seq<char>, EntryView>,
    ttl: u128,
    key: Option<Seq<char>>,
    reset: bool,
    now: u128,
) -> Seq<MessageView> {
    match key {
        Some(k) => if !reset && sessions.contains_key(k) && is_kept(sessions[k], now, ttl) {
            sessions[k].conversation
        } else {
            Seq::empty()
        },
        None => Seq::empty(),
    }
}

/// The sessions once a run has taken up its own: it is touched, or forgotten.
pub open spec fn taken_up(
    sessions: Map<Seq<char>, EntryView>,
    ttl: u128,
    key: Option<Seq<char>>,
    reset: bool,
    now: u128,
) -> Map<Seq<char>, EntryView> {
    match key {
        Some(k) => if !reset && sessions.contains_key(k) && is_kept(sessions[k], now, ttl) {
            sessions.insert(k, EntryView { touched: now, ..sessions[k] })
        } else {
            sessions.remove(k)
        },
        None => sessions,
    }
}

/// A run that starts: it acts with delegated authority, which is always a subset of
/// the caller's.
pub open spec fn fresh_run(
    run_id: Seq<char>,
    def: AgentDef,
    caller: PrincipalView,
    input: Seq<char>,
    depth: u32,
    session_id: Option<Seq<char>>,
    history: Seq<MessageView>,
) -> RunView {
    RunView {
        run_id,
        def,
        entry: def,
        caller,
        actor: delegate_view(caller, def.name@, texts(def.scopes@)),
        conversation: history.push(MessageView { role: "user"@, content: JsonView::Str(input) }),
        usage: no_usage(),
        steps: Seq::empty(),
        output: Seq::empty(),
        path: seq![def.name@],
        depth,
        system_suffix: Seq::empty(),
        last_input_tokens: 0,
        compaction_failures: 0,
        compaction_retry_at: 0,
        session_id,
        session_key: key_of(def, caller, session_id),
    }
}

/// The outcome of a run.
pub open spec fn outcome_of(st: RunView, status: RunStatus, pending: Option<PendingView>, tree: u64) -> ResultView {
    ResultView {
        run_id: st.run_id,
        agent: st.def.name@,
        path: st.path,
        status,
        output: st.output,
        steps: st.steps,
        usage: Usage { tree_tokens: tree, ..st.usage },
        pending_approval: pending,
        session_id: st.session_id,
    }
}

fn copy_steps(steps: &Vec<Step>) -> (r: Vec<Step>)
    ensures
        step_views(r@) == step_views(steps@),
{
    let mut out: Vec<Step> = Vec::new();
    let mut i: usize = 0;
    while i < steps.len()
        invariant
            i <= steps@.len(),
            out@.len() == i,
            forall|k: int| 0 <= k < i ==> (#[trigger] out@[k])@ == steps@[k]@,
        decreases steps.len() - i,
    {
        out.push(steps[i].copy());
        i = i + 1;
    }
    assert(step_views(out@) =~= step_views(steps@));
    out
}

impl<'a> Run<'a> {
    /// Sets a run up, and takes up its session.
    pub fn start(
        run_id: String,
        manifest: &'a Manifest,
        def: &'a AgentDef,
        caller: &Principal,
        input: &str,
        opts: &RunOptions,
        sessions: &mut SessionStore,
        now: u128,
    ) -> (r: Run<'a>)
        ensures
            r.manifest == manifest,
            r.batch.calls@.len() == 0,
            r.batch.at == 0,
            r.batch.results@.len() == 0,
            ({
                let sid = session_of(caller@, maybe_text(opts.session_id));
                let key = key_of(*def, caller@, sid);
                &&& r.st@ == fresh_run(
                    run_id@,
                    *def,
                    caller@,
                    input@,
                    opts.depth,
                    sid,
                    history(old(sessions)@, old(sessions).ttl, key, opts.reset_session, now),
                )
                &&& final(sessions)@ == taken_up(old(sessions)@, old(sessions).ttl, key, opts.reset_session, now)
            }),
            final(sessions).capacity == old(sessions).capacity,
            final(sessions).ttl == old(sessions).ttl,
    {
        let ghost was = sessions@;
        let session_id = if caller.is_shared() {
            None
        } else {
            copy_text(&opts.session_id)
        };
        let ghost sid = session_of(caller@, maybe_text(opts.session_id));
        assert(maybe_text(session_id) == sid);
        let ghost key = key_of(*def, caller@, sid);
        let session_key = match &session_id {
            Some(id) => Some(SessionStore::key(def.name.as_str(), caller.id.as_str(), id.as_str())),
            None => None,
        };
        assert(maybe_text(session_key) == key);
        let mut conversation = Conversation::default();
        if let Some(k) = &session_key {
            if opts.reset_session {
                let _ = sessions.forget(k.as_str());
            } else if let Some(c) = sessions.load(k.as_str(), now) {
                conversation = c;
            }
        }
        assert(conversation@ =~= history(was, sessions.ttl, key, opts.reset_session, now));
        assert(sessions@ =~= taken_up(was, sessions.ttl, key, opts.reset_session, now));
        conversation.say("user", Json::str(input));
        let mut path: Vec<String> = Vec::new();
        path.push(def.name.clone());
        let st = RunState {
            run_id,
            def,
            entry: def,
            caller: caller.copy(),
            actor: caller.delegate_to_agent(def.name.as_str(), &def.scopes),
            conversation,
            usage: Usage::default(),
            steps: Vec::new(),
            output: String::new(),
            path,
            depth: opts.depth,
            system_suffix: String::new(),
            last_input_tokens: 0,
            compaction_failures: 0,
            compaction_retry_at: 0,
            session_id,
            session_key,
        };
        proof {
            assert(st@.path =~= seq![def.name@]);
            assert(st@.steps =~= Seq::empty());
            assert(st@.output =~= Seq::empty());
            assert(st@.system_suffix =~= Seq::empty());
        }
        Run { st, batch: Batch { calls: Vec::new(), at: 0, results: Vec::new() }, manifest }
    }

    /// Begins a run, once what is appended to its system prompt is known.
    pub fn begin(&mut self, suffix: String, budget: &SharedBudget, trail: &mut Vec<AuditEvent>) -> (r: Action)
        ensures
            final(self).st@ == (RunView { system_suffix: suffix@, ..old(self).st@ }),
            final(self).batch == old(self).batch,
            final(self).manifest == old(self).manifest,
            event_views(final(trail)@) == event_views(old(trail)@).push(
                started_event(
                    old(self).st@.run_id,
                    old(self).st@.def.name@,
                    old(self).st@.actor,
                    offered_tools(old(self).st@.def, old(self).manifest.routes@, old(self).manifest.agents@),
                ),
            ),
            r == top_action(final(self).st@, budget.max_tokens, budget.spent),
    {
        self.st.system_suffix = suffix;
        let tools = tool_specs(self.manifest, self.st.def);
        let event = AuditEvent::agent_started(
            self.st.run_id.as_str(),
            self.st.def.name.as_str(),
            &self.st.actor,
            &tools,
        );
        record(trail, event);
        self.top(budget)
    }

    /// The outcome of a run whose context could not be resolved.
    pub fn not_started(&self, error: String, trail: &mut Vec<AuditEvent>) -> (r: RunResult)
        ensures
            r@ == (ResultView {
                run_id: self.st@.run_id,
                agent: self.st@.def.name@,
                path: seq![self.st@.def.name@],
                status: RunStatus::Failed,
                output: Seq::empty(),
                steps: seq![plain_step(0, StepKind::Model, None, Some(error@), 0)],
                usage: no_usage(),
                pending_approval: None,
                session_id: self.st@.session_id,
            }),
            event_views(final(trail)@) == event_views(old(trail)@).push(
                failed_event(self.st@.run_id, self.st@.def.name@, error@),
            ),
    {
        let event = AuditEvent::agent_failed(self.st.run_id.as_str(), self.st.def.name.as_str(), error.as_str());
        record(trail, event);
        let ghost why = error@;
        let mut path: Vec<String> = Vec::new();
        path.push(self.st.def.name.clone());
        let mut steps: Vec<Step> = Vec::new();
        steps.push(
            Step {
                index: 0,
                kind: StepKind::Model,
                tool: None,
                arguments: None,
                result: None,
                error: Some(error),
                duration_ms: 0,
            },
        );
        let output = String::new();
        proof {
            assert(texts(path@) =~= seq![self.st@.def.name@]);
            assert(step_views(steps@) =~= seq![plain_step(0, StepKind::Model, None, Some(why), 0)]);
            assert(output@ =~= Seq::<char>::empty());
        }
        RunResult {
            run_id: self.st.run_id.clone(),
            agent: self.st.def.name.clone(),
            path,
            status: RunStatus::Failed,
            output,
            steps,
            usage: Usage::default(),
            pending_approval: None,
            session_id: copy_text(&self.st.session_id),
        }
    }

    /// Ends a run, or pauses it where it waits for a human. The conversation of a run
    /// that is over is saved to its session.
    pub fn finish(
        &self,
        status: RunStatus,
        pending: Option<PendingApproval>,
        budget: &SharedBudget,
        ledger: &mut Ledger,
        sessions: &mut SessionStore,
        now: u128,
        trail: &mut Vec<AuditEvent>,
    ) -> (r: RunResult)
        requires
            old(ledger).run_count() < u64::MAX,
        ensures
            r@ == outcome_of(self.st@, status, crate::run::maybe_pending(pending), budget.spent),
            event_views(final(trail)@) == event_views(old(trail)@).push(
                finished_event(self.st@.run_id, self.st@.def.name@, status, r@.usage),
            ),
            final(ledger)@ == old(ledger)@,
            final(ledger).run_count() == old(ledger).run_count() + 1,
            final(ledger).since() == old(ledger).since(),
            final(sessions).capacity == old(sessions).capacity,
            final(sessions).ttl == old(sessions).ttl,
            match self.st@.session_key {
                Some(k) => if status == RunStatus::AwaitingApproval {
                    final(sessions)@ == old(sessions)@
                } else {
                    saved(
                        old(sessions)@,
                        final(sessions)@,
                        k,
                        EntryView { conversation: self.st@.conversation, touched: now },
                        old(sessions).capacity,
                        old(sessions).ttl,
                    )
                },
                None => final(sessions)@ == old(sessions)@,
            },
    {
        let mut usage: Usage = self.st.usage;
        usage.tree_tokens = budget.used();
        let event = AuditEvent::agent_finished(
            self.st.run_id.as_str(),
            self.st.def.name.as_str(),
            status,
            &usage,
        );
        record(trail, event);
        ledger.count_run();
        if status != RunStatus::AwaitingApproval {
            if let Some(key) = &self.st.session_key {
                sessions.save(key.as_str(), self.st.conversation.copy(), now);
            }
        }
        RunResult {
            run_id: self.st.run_id.clone(),
            agent: self.st.def.name.clone(),
            path: copy_texts(&self.st.path),
            status,
            output: self.st.output.clone(),
            steps: copy_steps(&self.st.steps),
            usage,
            pending_approval: pending,
            session_id: copy_text(&self.st.session_id),
        }
    }

    /// What a run that waits for a human says of itself, so many seconds after it
    /// was parked.
    pub fn summary(&self, approval_id: &str, age_secs: u64) -> (r: Json)
        requires
            self.batch.at < self.batch.calls@.len(),
        ensures
            r@ == parked_json(*self, approval_id@, age_secs),
    {
        let call = &self.batch.calls[self.batch.at];
        let mut m = Members::new();
        m.put("approval_id", Json::str(approval_id));
        m.put("run_id", Json::str(self.st.run_id.as_str()));
        m.put("agent", Json::str(self.st.def.name.as_str()));
        m.put("caller", Json::str(self.st.caller.id.as_str()));
        m.put("tool", Json::str(call.name.as_str()));
        m.put("arguments", call.arguments.copy());
        m.put("age_secs", Json::num(age_secs));
        m.put(
            "session_id",
            match &self.st.session_id {
                Some(s) => Json::str(s.as_str()),
                None => Json::Null,
            },
        );
        Json::Object(m)
    }

    /// Who started the run.
    pub fn caller(&self) -> (r: &Principal)
        ensures
            *r == self.st.caller,
    {
        &self.st.caller
    }
}

/// A handoff only ever shrinks authority: whatever scope the new actor has, the old
/// one had, and so had whoever started the run.
pub proof fn law_a_handoff_never_gains_authority(
    caller: PrincipalView,
    actor: PrincipalView,
    next: AgentDef,
    scope: Seq<char>,
)
    requires
        grants(handed_actor(caller, actor, next).scopes, scope),
    ensures
        grants(actor.scopes, scope),
        grants(caller.scopes, scope),
{
    let wanted = texts(next.scopes@);
    let delegate = delegate_view(caller, next.name@, wanted);
    let got = granted_of(delegate.scopes, actor.scopes);
    let held = |s: Seq<char>| grants(actor.scopes, s);
    let x = if got.contains(scope) {
        scope
    } else {
        "*"@
    };
    let i = choose|i: int| 0 <= i < got.len() && got[i] == x;
    delegate.scopes.lemma_filter_pred(held, i);
    delegate.scopes.lemma_filter_contains_rev(held, x);
    crate::auth::law_delegation_never_gains_authority(wanted, caller.scopes, x);
}

/// Whoever a run is handed to acts for whoever started it acts for.
pub proof fn law_a_handoff_keeps_the_root(
    caller: PrincipalView,
    actor: PrincipalView,
    next: AgentDef,
    root: crate::auth::RootView,
)
    requires
        crate::auth::acts_for(caller, root),
    ensures
        crate::auth::acts_for(handed_actor(caller, actor, next), root),
        crate::auth::reachable_identity(handed_actor(caller, actor, next), root)
            == crate::auth::reachable_identity(caller, root),
{
    crate::auth::law_delegation_keeps_the_root(caller, next.name@, texts(next.scopes@), root);
}

/// A run never takes more steps than its first agent allows: a model is asked only
/// below the limit, and being asked is one step.
pub proof fn law_the_step_limit_is_exact(
    st: RunView,
    tree_max: Option<u64>,
    tree_spent: u64,
    r: ReplyView,
    duration_ms: u64,
)
    requires
        !(top_action(st, tree_max, tree_spent) is Stop),
    ensures
        st.usage.steps < step_limit(st.entry),
        after_reply(st, r, duration_ms).usage.steps == st.usage.steps + 1,
        after_reply(st, r, duration_ms).usage.steps <= step_limit(st.entry),
        after_reply(st, r, duration_ms).entry == st.entry,
{
}

/// A run goes on only while neither its own token budget nor its tree's is
/// exhausted.
pub proof fn law_an_exhausted_budget_stops_a_run(st: RunView, tree_max: Option<u64>, tree_spent: u64)
    requires
        reached(st.entry.token_budget, usage_tokens(st.usage)) || reached(tree_max, tree_spent),
    ensures
        top_action(st, tree_max, tree_spent) is Stop,
{
}

/// Callers who share one identity never continue a conversation, and leave none behind
/// to be continued.
pub proof fn law_a_shared_identity_opens_no_session(
    def: AgentDef,
    caller: PrincipalView,
    session_id: Option<Seq<char>>,
    sessions: Map<Seq<char>, EntryView>,
    ttl: u128,
    reset: bool,
    now: u128,
)
    requires
        is_shared_identity(caller),
    ensures
        ({
            let key = key_of(def, caller, session_of(caller, session_id));
            &&& key is None
            &&& history(sessions, ttl, key, reset, now).len() == 0
            &&& taken_up(sessions, ttl, key, reset, now) == sessions
        }),
{
}

/// A gated call is never dispatched on its own: going on with a turn dispatches no
/// call whose route requires approval, nor one that is not the agent's.
pub proof fn law_a_gated_call_waits(
    t: Turn,
    routes: Seq<Route>,
    agents: Seq<AgentDef>,
    tree_max: Option<u64>,
    tree_spent: u64,
)
    requires
        0 <= t.at <= t.calls.len(),
        advanced(t, routes, agents, tree_max, tree_spent).1 is Dispatch,
    ensures
        ({
            let u = advanced(t, routes, agents, tree_max, tree_spent).0;
            &&& 0 <= u.at < u.calls.len()
            &&& !is_gated(routes, u.calls[u.at].name)
            &&& texts(u.st.def.tools@).contains(u.calls[u.at].name)
        }),
{
    lemma_walked(t, routes, agents);
}

/// What a run asks for can be done, and nothing is asked for without need: a conversation
/// is summarised where that is due, an agent is asked where no limit is reached, and a call
/// is dispatched, handed on or held up where there is one of that kind at hand.
pub proof fn law_every_action_can_be_performed(
    t: Turn,
    routes: Seq<Route>,
    agents: Seq<AgentDef>,
    tree_max: Option<u64>,
    tree_spent: u64,
)
    requires
        0 <= t.at <= t.calls.len(),
    ensures
        ({
            let (u, action) = advanced(t, routes, agents, tree_max, tree_spent);
            let at_hand = fate_of(u.st.def, routes, agents, u.calls[u.at]);
            match action {
                Action::Stop(status) => limit_of(u.st, tree_max, tree_spent) == Some(status),
                Action::Summarise => limit_of(u.st, tree_max, tree_spent) is None && compaction_due(u.st) is Some,
                Action::Complete => limit_of(u.st, tree_max, tree_spent) is None && compaction_due(u.st) is None,
                Action::Resolve => 0 <= u.at < u.calls.len() && at_hand is Handoff,
                Action::Dispatch => 0 <= u.at < u.calls.len() && at_hand is Dispatch,
                Action::Suspend => 0 <= u.at < u.calls.len() && at_hand is Gated,
            }
        }),
{
    lemma_walked(t, routes, agents);
}

/// The rest of a turn survives whatever happens to one of its calls: as long as the
/// turn goes on its calls are the same, what was answered stays answered, and there is
/// one result for each call that is behind.
pub proof fn law_every_call_gets_one_result(
    t: Turn,
    routes: Seq<Route>,
    agents: Seq<AgentDef>,
    tree_max: Option<u64>,
    tree_spent: u64,
)
    requires
        0 <= t.at <= t.calls.len(),
        t.results.len() == t.at,
    ensures
        ({
            let w = walked(t, routes, agents);
            let (u, action) = advanced(t, routes, agents, tree_max, tree_spent);
            &&& t.results.is_prefix_of(w.results)
            &&& w.results.len() == w.at
            &&& w.at < w.calls.len() ==> u.calls == t.calls && u.results == w.results && u.results.len() == u.at
            &&& w.at >= w.calls.len() ==> w.results.len() == t.calls.len() && u.st.conversation
                == t.st.conversation.push(MessageView { role: "user"@, content: JsonView::Array(w.results) })
        }),
{
    lemma_walked(t, routes, agents);
}

/// A decision touches one call alone. Approved, it is still the call at hand, as the model
/// asked for it; declined, it is answered with an error that says so and carries the
/// human's note, and the turn goes on behind it.
pub proof fn law_a_denial_is_an_error_the_model_reads(t: Turn, approval_id: Seq<char>, approve: bool, note: Seq<char>)
    requires
        0 <= t.at < t.calls.len(),
    ensures
        ({
            let u = decided_turn(t, approval_id, approve, note);
            &&& u.calls == t.calls
            &&& u.st.conversation == t.st.conversation
            &&& u.st.actor == t.st.actor
            &&& u.trail.len() == t.trail.len() + 1
            &&& approve ==> u.at == t.at && u.results == t.results && u.st == t.st
            &&& !approve ==> u.at == t.at + 1 && u.results == t.results.push(
                result_block(t.calls[t.at].id, error_object(declined_text(t.calls[t.at].name, note)), true),
            )
        }),
{
}

/// A compaction keeps the recent messages untouched, as many as the policy asks for;
/// the conversation still starts with the user, and the assistant speaks next.
pub proof fn law_compaction_keeps_the_recent_turns(st: RunView, cut: int, summary: Seq<char>, duration_ms: u64)
    requires
        compaction_due(st) == Some(cut),
    ensures
        ({
            let after = compacted(st, cut, summary, duration_ms).conversation;
            &&& 2 <= cut < st.conversation.len()
            &&& after.len() == st.conversation.len() - cut + 1
            &&& after.len() < st.conversation.len()
            &&& after.skip(1) == st.conversation.skip(cut)
            &&& after.len() - 1 >= kept_messages(st.entry.policy)
            &&& after[0].role == "user"@
            &&& after[1].role == "assistant"@
        }),
{
    lemma_last_cut(st.conversation, kept_messages(st.entry.policy), st.conversation.len() - 1);
    let after = compacted(st, cut, summary, duration_ms).conversation;
    assert(after.skip(1) =~= st.conversation.skip(cut));
    assert(after[1] == st.conversation[cut]);
}

proof fn lemma_last_cut(messages: Seq<MessageView>, keep: int, i: int)
    requires
        i < messages.len(),
    ensures
        last_cut(messages, keep, i) matches Some(c) ==> 1 <= c <= i && messages[c].role == "assistant"@
            && messages.len() - c >= keep,
    decreases i,
{
    if i >= 1 {
        lemma_last_cut(messages, keep, i - 1);
    }
}

/// After a failure no compaction is tried for at least two steps, and for twice as
/// long after each failure in a row, until the wait is as long as a count can be.
pub proof fn law_a_failed_compaction_backs_off(st: RunView, error: Seq<char>)
    requires
        st.usage.steps < u32::MAX,
    ensures
        ({
            let after = compaction_failed(st, error);
            let wait = backoff(counted(st.compaction_failures));
            &&& wait >= 2
            &&& after.compaction_retry_at == saturating32(st.usage.steps, wait)
            &&& compaction_due(after) is None
            &&& st.compaction_failures < 30 ==> backoff(counted(after.compaction_failures)) == 2 * wait
        }),
{
    let n = counted(st.compaction_failures);
    let m = counted(n);
    assert(1 <= n < 32 ==> (1u32 << n) >= 2) by (bit_vector);
    assert(1 <= n < 31 && m == n + 1 ==> (1u32 << m) == 2 * (1u32 << n)) by (bit_vector);
}

/// A run keeps who started it and under whose limits: going on with a turn changes
/// neither, nor does it change the authority it acts with.
pub proof fn law_going_on_keeps_the_authority(t: Turn, routes: Seq<Route>, agents: Seq<AgentDef>)
    requires
        0 <= t.at <= t.calls.len(),
    ensures
        walked(t, routes, agents).st.caller == t.st.caller,
        walked(t, routes, agents).st.actor == t.st.actor,
        walked(t, routes, agents).st.entry == t.st.entry,
{
    lemma_walked(t, routes, agents);
}

/// Whether results answer the first of some calls, in order: each is a tool result, and
/// says by its id which call it answers.
pub open spec fn answers(results: Seq<JsonView>, calls: Seq<CallView>) -> bool {
    results.len() <= calls.len() && forall|i: int|
        0 <= i < results.len() ==> member(#[trigger] results[i], "type"@) == Some(JsonView::Str("tool_result"@))
            && member(results[i], "tool_use_id"@) == Some(JsonView::Str(calls[i].id))
}

proof fn lemma_answered(t: Turn, step: StepView, content: JsonView, is_error: bool)
    requires
        0 <= t.at < t.calls.len(),
        t.results.len() == t.at,
        answers(t.results, t.calls),
    ensures
        answers(answered(t, step, result_block(t.calls[t.at].id, content, is_error)).results, t.calls),
        answered(t, step, result_block(t.calls[t.at].id, content, is_error)).results.len() == t.at + 1,
{
    let block = result_block(t.calls[t.at].id, content, is_error);
    crate::agent::law_a_result_names_the_call_that_it_answers(t.calls[t.at].id, content, is_error);
    let now = t.results.push(block);
    assert forall|i: int| 0 <= i < now.len() implies member(#[trigger] now[i], "type"@) == Some(
        JsonView::Str("tool_result"@),
    ) && member(now[i], "tool_use_id"@) == Some(JsonView::Str(t.calls[i].id)) by {
        if i < t.results.len() {
            assert(now[i] == t.results[i]);
        }
    }
}

proof fn lemma_walked_answers(t: Turn, routes: Seq<Route>, agents: Seq<AgentDef>)
    requires
        0 <= t.at <= t.calls.len(),
        t.results.len() == t.at,
        answers(t.results, t.calls),
    ensures
        answers(walked(t, routes, agents).results, t.calls),
    decreases t.calls.len() - t.at,
{
    if t.at < t.calls.len() {
        let call = t.calls[t.at];
        match fate_of(t.st.def, routes, agents, call) {
            CallFate::NoAgent(m) => {
                lemma_answered(
                    t,
                    call_step_view(t.st.usage.steps, StepKind::ToolRefused, call, None, Some(m), 0),
                    error_object(m),
                    true,
                );
                lemma_walked_answers(refused_call(t, m, 0), routes, agents);
            },
            CallFate::NoTool(m) => {
                lemma_answered(
                    t,
                    call_step_view(t.st.usage.steps, StepKind::ToolRefused, call, None, Some(m), 0),
                    error_object(m),
                    true,
                );
                let next = Turn {
                    trail: t.trail.push(
                        tool_event("tool_refused"@, t.st.run_id, t.st.actor.id, call.name, refused_detail(m)),
                    ),
                    ..refused_call(t, m, 0)
                };
                lemma_walked_answers(next, routes, agents);
            },
            _ => {},
        }
    }
}

/// Results answer the calls that the model made, one each and in their order, whatever
/// became of them. When the turn is over, what the model reads next is one message of the
/// user with exactly one result for each call, which bears the id of that call.
pub proof fn law_the_model_reads_one_result_for_each_call(
    t: Turn,
    routes: Seq<Route>,
    agents: Seq<AgentDef>,
    tree_max: Option<u64>,
    tree_spent: u64,
)
    requires
        0 <= t.at <= t.calls.len(),
        t.results.len() == t.at,
        answers(t.results, t.calls),
    ensures
        ({
            let u = advanced(t, routes, agents, tree_max, tree_spent).0;
            if u.st.conversation.len() == t.st.conversation.len() {
                &&& u.calls == t.calls
                &&& t.at <= u.at < t.calls.len()
                &&& u.results.len() == u.at
                &&& answers(u.results, u.calls)
                &&& u.st.conversation == t.st.conversation
            } else {
                let said = u.st.conversation.last();
                &&& u.st.conversation.drop_last() == t.st.conversation
                &&& said.role == "user"@
                &&& said.content matches JsonView::Array(results)
                &&& results.len() == t.calls.len()
                &&& answers(results, t.calls)
                &&& t.results.is_prefix_of(results)
                &&& u.calls.len() == 0
            }
        }),
{
    lemma_walked(t, routes, agents);
    lemma_walked_answers(t, routes, agents);
    let w = walked(t, routes, agents);
    let u = advanced(t, routes, agents, tree_max, tree_spent).0;
    if w.at >= w.calls.len() {
        assert(u.st.conversation.drop_last() =~= t.st.conversation);
    }
}

/// What a tool answered goes to the model under the id of the call that asked for it, and
/// to nobody else: the result that is added bears that id, is marked as an error exactly if
/// the tool failed, and holds what the tool answered, or, where it failed, why. The record
/// holds the answer in full, under the name and the arguments of the call; one call more is
/// counted, and one event says so.
pub proof fn law_a_tools_answer_reaches_the_model(t: Turn, outcome: Result<JsonView, Seq<char>>, duration_ms: u64)
    requires
        0 <= t.at < t.calls.len(),
        t.results.len() == t.at,
        answers(t.results, t.calls),
    ensures
        ({
            let u = dispatched_turn(t, outcome, duration_ms);
            let call = t.calls[t.at];
            let added = u.results.last();
            let step = u.st.steps.last();
            let event = u.trail.last();
            let most = t.st.entry.policy.max_tool_result_bytes;
            &&& u.at == t.at + 1
            &&& u.calls == t.calls
            &&& u.results.drop_last() == t.results
            &&& answers(u.results, u.calls)
            &&& member(added, "tool_use_id"@) == Some(JsonView::Str(call.id))
            &&& member(added, "is_error"@) == Some(JsonView::Bool(outcome is Err))
            &&& outcome matches Ok(JsonView::Str(s)) ==> (most == 0 || byte_len(json_text(JsonView::Str(s))) <= most
                ==> member(added, "content"@) == Some(JsonView::Str(s)))
            &&& outcome matches Ok(v) ==> (!(v is Str) && (most == 0 || byte_len(json_text(v)) <= most) ==> member(
                added,
                "content"@,
            ) == Some(JsonView::Str(json_text(v))))
            &&& outcome matches Ok(v) ==> (most > 0 && byte_len(json_text(v)) > most ==> (member(added, "content"@)
                matches Some(JsonView::Str(shown)) && prefix_within(json_text(v), most as int).is_prefix_of(shown)))
            &&& outcome matches Err(e) ==> member(added, "content"@) == Some(
                JsonView::Str(json_text(JsonView::Object(map!["error"@ => JsonView::Str(e)]))),
            )
            &&& u.st.steps.drop_last() == t.st.steps
            &&& step.kind == StepKind::ToolCall
            &&& step.tool == Some(call.name)
            &&& step.arguments == Some(call.arguments)
            &&& step.index == t.st.usage.steps
            &&& step.duration_ms == duration_ms
            &&& outcome matches Ok(v) ==> step.result == Some(v) && step.error is None
            &&& outcome matches Err(e) ==> step.result is None && step.error == Some(e)
            &&& t.st.usage.tool_calls < u32::MAX ==> u.st.usage.tool_calls == t.st.usage.tool_calls + 1
            &&& u.st.conversation == t.st.conversation
            &&& u.st.def == t.st.def
            &&& u.st.actor == t.st.actor
            &&& u.trail.drop_last() == t.trail
            &&& event.kind == "tool_called"@
            &&& event.run_id == t.st.run_id
            &&& event.actor == Some(t.st.actor.id)
            &&& event.tool == Some(call.name)
            &&& member(event.detail, "arguments"@) == Some(call.arguments)
            &&& member(event.detail, "ok"@) == Some(JsonView::Bool(outcome is Ok))
        }),
{
    reveal_strlit("arguments");
    reveal_strlit("ok");
    reveal_strlit("duration_ms");
    assert("arguments"@.len() == 9);
    assert("ok"@.len() == 2);
    assert("duration_ms"@.len() == 11);
    let u = dispatched_turn(t, outcome, duration_ms);
    let call = t.calls[t.at];
    let most = t.st.entry.policy.max_tool_result_bytes;
    assert(u.results.drop_last() =~= t.results);
    assert(u.st.steps.drop_last() =~= t.st.steps);
    assert(u.trail.drop_last() =~= t.trail);
    match outcome {
        Ok(v) => {
            crate::agent::law_bounding_cuts_between_characters(v, most as nat);
            crate::agent::law_a_result_names_the_call_that_it_answers(
                call.id,
                bounded_view(v, most as nat),
                false,
            );
            lemma_answered(t, u.st.steps.last(), bounded_view(v, most as nat), false);
        },
        Err(e) => {
            assert(error_object(e)->Object_0 =~= map!["error"@ => JsonView::Str(e)]);
            crate::agent::law_a_result_names_the_call_that_it_answers(call.id, error_object(e), true);
            lemma_answered(t, u.st.steps.last(), error_object(e), true);
        },
    }
}

/// A reply is taken into the run: what the model said is the next message of the
/// conversation, as it said it, and where it said a text that is the output; one more step
/// and all its tokens are counted; and who acts, for whom and how deep stays what it was.
pub proof fn law_a_reply_is_taken_into_the_run(st: RunView, r: ReplyView, duration_ms: u64)
    ensures
        ({
            let u = after_reply(st, r, duration_ms);
            let step = u.steps.last();
            &&& u.conversation.drop_last() == st.conversation
            &&& u.conversation.last().role == "assistant"@
            &&& u.conversation.last().content == r.raw_content
            &&& r.text.len() > 0 ==> u.output == r.text
            &&& r.text.len() == 0 ==> u.output == st.output
            &&& st.usage.steps < u32::MAX ==> u.usage.steps == st.usage.steps + 1
            &&& st.usage.input_tokens + r.input_tokens <= u64::MAX ==> u.usage.input_tokens == st.usage.input_tokens
                + r.input_tokens
            &&& st.usage.output_tokens + r.output_tokens <= u64::MAX ==> u.usage.output_tokens == st.usage.output_tokens
                + r.output_tokens
            &&& st.usage.cache_read_tokens + r.cache_read_tokens <= u64::MAX ==> u.usage.cache_read_tokens
                == st.usage.cache_read_tokens + r.cache_read_tokens
            &&& st.usage.cache_write_tokens + r.cache_write_tokens <= u64::MAX ==> u.usage.cache_write_tokens
                == st.usage.cache_write_tokens + r.cache_write_tokens
            &&& u.usage.tool_calls == st.usage.tool_calls && u.usage.handoffs == st.usage.handoffs && u.usage.compactions
                == st.usage.compactions
            &&& r.input_tokens + r.cache_read_tokens + r.cache_write_tokens <= u64::MAX ==> u.last_input_tokens
                == r.input_tokens + r.cache_read_tokens + r.cache_write_tokens
            &&& u.steps.drop_last() == st.steps
            &&& step.kind == StepKind::Model && step.index == st.usage.steps && step.duration_ms == duration_ms
            &&& step.error is None
            &&& step.result matches Some(said) && member(said, "model"@) == Some(JsonView::Str(r.model))
            &&& u.run_id == st.run_id && u.def == st.def && u.entry == st.entry && u.caller == st.caller && u.actor
                == st.actor && u.path == st.path && u.depth == st.depth && u.system_suffix == st.system_suffix
                && u.session_id == st.session_id && u.session_key == st.session_key
        }),
{
    reveal_strlit("model");
    reveal_strlit("input_tokens");
    reveal_strlit("output_tokens");
    assert("model"@.len() == 5);
    assert("input_tokens"@.len() == 12);
    assert("output_tokens"@.len() == 13);
    let u = after_reply(st, r, duration_ms);
    assert(u.conversation.drop_last() =~= st.conversation);
    assert(u.steps.drop_last() =~= st.steps);
}

/// A model that cannot be asked leaves the conversation as it was, and a step says why.
pub proof fn law_a_fault_of_the_model_is_recorded(st: RunView, error: Seq<char>, duration_ms: u64)
    ensures
        ({
            let u = after_fault(st, error, duration_ms);
            &&& u.conversation == st.conversation && u.usage == st.usage && u.output == st.output
            &&& u.steps.drop_last() == st.steps
            &&& u.steps.last().kind == StepKind::Model && u.steps.last().error == Some(error)
        }),
{
    assert(after_fault(st, error, duration_ms).steps.drop_last() =~= st.steps);
}

/// A run goes on after a reply exactly where the model stopped to have tools called and
/// names some; one that was cut short ends as cut short, and any other is complete.
pub proof fn law_a_run_goes_on_while_tools_are_called(r: ReplyView)
    ensures
        reply_ends(r) is None <==> r.stop_reason == StopReason::ToolUse && r.tool_calls.len() > 0,
        r.stop_reason == StopReason::MaxTokens ==> reply_ends(r) == Some(RunStatus::MaxTokens),
        reply_ends(r) matches Some(s) ==> (r.stop_reason != StopReason::MaxTokens ==> s == RunStatus::Completed),
{
}

/// A run starts with what it was asked: the input is the last message, from the user, behind
/// the history; nothing is spent or said yet, and the agent in control is the one that was
/// called, which acts for the caller.
pub proof fn law_a_run_starts_with_its_input(
    run_id: Seq<char>,
    def: AgentDef,
    caller: PrincipalView,
    input: Seq<char>,
    depth: u32,
    session_id: Option<Seq<char>>,
    before: Seq<MessageView>,
)
    ensures
        ({
            let st = fresh_run(run_id, def, caller, input, depth, session_id, before);
            &&& st.conversation.drop_last() == before
            &&& st.conversation.last() == (MessageView { role: "user"@, content: JsonView::Str(input) })
            &&& st.run_id == run_id && st.def == def && st.entry == def && st.caller == caller && st.depth == depth
            &&& st.path == seq![def.name@]
            &&& st.output.len() == 0 && st.steps.len() == 0 && st.usage.steps == 0 && st.usage.input_tokens == 0
                && st.usage.output_tokens == 0 && st.usage.tool_calls == 0
            &&& crate::auth::acts_for(st.actor, crate::auth::root_of(caller))
            &&& forall|s: Seq<char>| #[trigger] grants(st.actor.scopes, s) ==> grants(caller.scopes, s)
        }),
{
    let st = fresh_run(run_id, def, caller, input, depth, session_id, before);
    assert(st.conversation.drop_last() =~= before);
    crate::auth::law_delegation_keeps_the_root(caller, def.name@, texts(def.scopes@), crate::auth::root_of(caller));
    assert forall|s: Seq<char>| #[trigger] grants(st.actor.scopes, s) implies grants(caller.scopes, s) by {
        crate::auth::law_delegation_never_gains_authority(texts(def.scopes@), caller.scopes, s);
    }
}

/// A model is asked what its agent declares, with the conversation and the tools that it is
/// given, and may choose whether to use any.
pub proof fn law_a_model_is_asked_what_its_agent_declares(
    agent: AgentDef,
    messages: Seq<MessageView>,
    tools: Seq<ToolSpecView>,
    suffix: Seq<char>,
)
    ensures
        ({
            let q = open_question(agent, messages, tools, suffix);
            &&& q.agent == agent.name@ && q.model == agent.model@ && q.system == agent.system@
            &&& q.max_tokens == agent.max_tokens && q.cache == agent.cache
            &&& q.temperature is Some <==> agent.temperature is Some
            &&& agent.temperature matches Some(n) ==> q.temperature == Some(n@)
            &&& q.messages == messages && q.tools == tools && q.system_suffix == suffix
            &&& q.force_tool is None
        }),
{
}

/// A call hands over exactly where it names a transfer to an agent that the one in control
/// may hand over to; any other call runs a tool of the agent in control, and what is neither
/// is refused by name.
pub proof fn law_a_call_goes_where_its_name_says(
    def: AgentDef,
    routes: Seq<Route>,
    agents: Seq<AgentDef>,
    call: CallView,
    target: Seq<char>,
)
    ensures
        call.name == "transfer_to_"@ + target && texts(def.handoffs@).contains(target) ==> handoff_target(def, call)
            == Some(target),
        handoff_target(def, call) == Some(target) ==> call.name == "transfer_to_"@ + target && texts(
            def.handoffs@,
        ).contains(target),
        handoff_target(def, call) == Some(target) && agent_named(agents, target) is Some ==> fate_of(
            def,
            routes,
            agents,
            call,
        ) == CallFate::Handoff(target),
        handoff_target(def, call) == Some(target) && agent_named(agents, target) is None ==> fate_of(
            def,
            routes,
            agents,
            call,
        ) is NoAgent,
        handoff_target(def, call) is None ==> ({
            let fate = fate_of(def, routes, agents, call);
            let gated = tool_route(routes, call.name) matches Some(r) && r.approval == Approval::Required;
            &&& fate is NoTool <==> !texts(def.tools@).contains(call.name)
            &&& fate is Gated <==> texts(def.tools@).contains(call.name) && gated
            &&& fate is Dispatch <==> texts(def.tools@).contains(call.name) && !gated
        }),
{
    let mark = "transfer_to_"@;
    let name = mark + target;
    assert(name.subrange(0, mark.len() as int) =~= mark);
    assert(name.skip(mark.len() as int) =~= target);
    if handoff_target(def, call) == Some(target) {
        assert(call.name =~= call.name.subrange(0, mark.len() as int) + call.name.skip(mark.len() as int));
    }
}

/// A handoff hands the conversation on: the next agent is in control, in the same
/// conversation and for the same caller; the model that called for it reads under the call's
/// id who took over; and one that cannot be done leaves the agent in control and says why.
pub proof fn law_a_handoff_hands_the_conversation_on(
    t: Turn,
    next: AgentDef,
    suffix: Result<Seq<char>, Seq<char>>,
    duration_ms: u64,
)
    requires
        0 <= t.at < t.calls.len(),
        handoff_target(t.st.def, t.calls[t.at]) is Some,
    ensures
        ({
            let u = handed_turn(t, next, suffix, duration_ms);
            let call = t.calls[t.at];
            let target = handoff_target(t.st.def, call)->0;
            let added = u.results.last();
            &&& u.at == t.at + 1 && u.calls == t.calls && u.trail == t.trail
            &&& u.results.drop_last() == t.results
            &&& member(added, "tool_use_id"@) == Some(JsonView::Str(call.id))
            &&& member(added, "is_error"@) == Some(JsonView::Bool(suffix is Err))
            &&& u.st.conversation == t.st.conversation && u.st.caller == t.st.caller && u.st.entry == t.st.entry
                && u.st.run_id == t.st.run_id && u.st.depth == t.st.depth && u.st.output == t.st.output
            &&& u.st.steps.drop_last() == t.st.steps && u.st.steps.last().tool == Some(call.name)
            &&& suffix matches Ok(text) ==> ({
                &&& u.st.def == next && u.st.system_suffix == text && u.st.path == t.st.path.push(target)
                &&& t.st.usage.handoffs < u32::MAX ==> u.st.usage.handoffs == t.st.usage.handoffs + 1
                &&& member(added, "content"@) == Some(JsonView::Str(json_text(handed_note(target))))
                &&& member(handed_note(target), "handed_off_to"@) == Some(JsonView::Str(target))
                &&& u.st.steps.last().kind == StepKind::Handoff
                &&& u.st.steps.last().result == Some(JsonView::Object(map!["agent"@ => JsonView::Str(target)]))
            })
            &&& suffix matches Err(e) ==> ({
                &&& u.st.def == t.st.def && u.st.actor == t.st.actor && u.st.path == t.st.path
                &&& member(added, "content"@) == Some(
                    JsonView::Str(json_text(JsonView::Object(map!["error"@ => JsonView::Str(e)]))),
                )
                &&& u.st.steps.last().kind == StepKind::ToolRefused && u.st.steps.last().error == Some(e)
            })
        }),
{
    reveal_strlit("handed_off_to");
    reveal_strlit("note");
    assert("handed_off_to"@.len() == 13);
    assert("note"@.len() == 4);
    reveal_strlit("type");
    reveal_strlit("tool_use_id");
    reveal_strlit("content");
    reveal_strlit("is_error");
    assert("type"@.len() == 4);
    assert("tool_use_id"@.len() == 11);
    assert("content"@.len() == 7);
    assert("is_error"@.len() == 8);
    let u = handed_turn(t, next, suffix, duration_ms);
    let target = handoff_target(t.st.def, t.calls[t.at])->0;
    assert(u.results.drop_last() =~= t.results);
    assert(u.st.steps.drop_last() =~= t.st.steps);
    assert(Map::empty().insert("agent"@, JsonView::Str(target)) =~= map!["agent"@ => JsonView::Str(target)]);
    if let Err(e) = suffix {
        assert(error_object(e)->Object_0 =~= map!["error"@ => JsonView::Str(e)]);
    }
}

/// A call that a human declined is answered, under its id, with an error that says so and
/// gives the note; one that they approved is left to be dispatched. Either way the decision
/// is audited.
pub proof fn law_a_decision_is_told_to_the_model(t: Turn, approval_id: Seq<char>, approve: bool, note: Seq<char>)
    requires
        0 <= t.at < t.calls.len(),
    ensures
        ({
            let u = decided_turn(t, approval_id, approve, note);
            let call = t.calls[t.at];
            let added = u.results.last();
            let event = u.trail.last();
            &&& u.trail.drop_last() == t.trail
            &&& event.kind == "approval_decided"@ && event.run_id == t.st.run_id && event.tool == Some(call.name)
                && event.actor == Some(t.st.actor.id)
            &&& !approve ==> ({
                &&& u.at == t.at + 1 && u.results.drop_last() == t.results
                &&& member(added, "tool_use_id"@) == Some(JsonView::Str(call.id))
                &&& member(added, "is_error"@) == Some(JsonView::Bool(true))
                &&& u.st.steps.last().kind == StepKind::ApprovalDenied && u.st.steps.last().tool == Some(call.name)
                &&& u.st.steps.last().error matches Some(e) && member(added, "content"@) == Some(
                    JsonView::Str(json_text(JsonView::Object(map!["error"@ => JsonView::Str(e)]))),
                ) && crate::text::contains_text(e, debug_quoted(call.name)) && (note.len() > 0
                    ==> crate::text::contains_text(e, note))
            })
            &&& approve ==> u.at == t.at && u.results == t.results && u.st == t.st
        }),
{
    reveal_strlit("type");
    reveal_strlit("tool_use_id");
    reveal_strlit("content");
    reveal_strlit("is_error");
    assert("type"@.len() == 4);
    assert("tool_use_id"@.len() == 11);
    assert("content"@.len() == 7);
    assert("is_error"@.len() == 8);
    let u = decided_turn(t, approval_id, approve, note);
    let call = t.calls[t.at];
    assert(u.trail.drop_last() =~= t.trail);
    if !approve {
        assert(u.results.drop_last() =~= t.results);
        let e = declined_text(call.name, note);
        assert(error_object(e)->Object_0 =~= map!["error"@ => JsonView::Str(e)]);
        let start = "a human declined to allow "@;
        let q = debug_quoted(call.name);
        assert(e.subrange(start.len() as int, start.len() as int + q.len()) =~= q);
        assert(crate::text::occurs_at(e, q, start.len() as int));
        if note.len() > 0 {
            let before = start + q + ": "@;
            assert(e.subrange(before.len() as int, before.len() as int + note.len()) =~= note);
            assert(crate::text::occurs_at(e, note, before.len() as int));
        }
    }
}

/// The outcome of a run is what it came to: its last output, how it ended, its steps and its
/// usage, with what the whole request tree spent.
pub proof fn law_an_outcome_is_what_the_run_came_to(st: RunView, status: RunStatus, pending: Option<PendingView>, tree: u64)
    ensures
        ({
            let r = outcome_of(st, status, pending, tree);
            &&& r.run_id == st.run_id && r.agent == st.def.name@ && r.path == st.path && r.status == status
            &&& r.output == st.output && r.steps == st.steps && r.pending_approval == pending && r.session_id == st.session_id
            &&& r.usage.tree_tokens == tree && r.usage.input_tokens == st.usage.input_tokens && r.usage.output_tokens
                == st.usage.output_tokens && r.usage.cache_read_tokens == st.usage.cache_read_tokens
                && r.usage.cache_write_tokens == st.usage.cache_write_tokens && r.usage.steps == st.usage.steps
                && r.usage.tool_calls == st.usage.tool_calls && r.usage.handoffs == st.usage.handoffs
                && r.usage.compactions == st.usage.compactions
        }),
{
}

/// A summary takes the place of what it sums up: the conversation starts with it, and the
/// messages from the cut on follow as they were. A summariser that fails or says nothing
/// leaves the conversation.
pub proof fn law_a_summary_takes_the_place_of_what_it_sums_up(
    st: RunView,
    cut: int,
    reply: Result<ReplyView, Seq<char>>,
    duration_ms: u64,
)
    requires
        0 <= cut <= st.conversation.len(),
    ensures
        ({
            let u = after_summary(st, cut, reply, duration_ms);
            &&& reply matches Ok(r) ==> (r.text.len() > 0 ==> (u.conversation.skip(1) == st.conversation.skip(cut)
                && u.conversation[0].role == "user"@ && (u.conversation[0].content matches JsonView::Str(s)
                && r.text.is_suffix_of(s)) && u.usage.output_tokens == saturating(st.usage.output_tokens, r.output_tokens)
                && (st.usage.compactions < u32::MAX ==> u.usage.compactions == st.usage.compactions + 1)
                && u.steps.last().error is None))
            &&& reply matches Ok(r) ==> (r.text.len() == 0 ==> u.conversation == st.conversation
                && u.steps.last().error is Some)
            &&& reply matches Err(e) ==> u.conversation == st.conversation && (u.steps.last().error matches Some(m)
                && e.is_suffix_of(m))
            &&& u.steps.drop_last() == st.steps && u.steps.last().kind == StepKind::Compaction
            &&& u.def == st.def && u.actor == st.actor && u.caller == st.caller && u.output == st.output
        }),
{
    let u = after_summary(st, cut, reply, duration_ms);
    assert(u.steps.drop_last() =~= st.steps);
    match reply {
        Ok(r) => {
            if r.text.len() > 0 {
                assert(u.conversation.skip(1) =~= st.conversation.skip(cut));
                let s = u.conversation[0].content->Str_0;
                assert(s.subrange(s.len() - r.text.len(), s.len() as int) =~= r.text);
            }
        },
        Err(e) => {
            let m = u.steps.last().error->0;
            assert(m.subrange(m.len() - e.len(), m.len() as int) =~= e);
        },
    }
}

/// A summariser is shown what is cut off: the question ends with the transcript of the
/// messages before the cut, and it goes to the model that is declared for it.
pub proof fn law_a_summariser_is_shown_what_is_cut_off(c: Compaction, st: RunView)
    requires
        is_compaction(c, st),
    ensures
        ({
            let shown = crate::agent::transcript(st.conversation.take(c.cut as int));
            &&& st.entry.policy.compact_with matches Some(m) ==> c.agent.model@ == m@
            &&& st.entry.policy.compact_with is None ==> c.agent.model@ == "fast"@
            &&& c.conversation@.len() == 1 && c.conversation@[0].role == "user"@
            &&& c.agent.tools@.len() == 0 && c.agent.handoffs@.len() == 0
            &&& byte_len(shown) <= 4000 ==> (c.conversation@[0].content matches JsonView::Str(s) && shown.is_suffix_of(s))
        }),
{
    let shown = crate::agent::transcript(st.conversation.take(c.cut as int));
    let s = c.conversation@[0].content->Str_0;
    if byte_len(shown) <= 4000 {
        assert(s.subrange(s.len() - shown.len(), s.len() as int) =~= shown);
    }
}

proof fn lemma_latest_cut(messages: Seq<MessageView>, keep: int, i: int)
    requires
        i < messages.len(),
    ensures
        match last_cut(messages, keep, i) {
            Some(c) => 1 <= c <= i && messages[c].role == "assistant"@ && messages.len() - c >= keep && forall|k: int|
                c < k <= i ==> !((#[trigger] messages[k]).role == "assistant"@ && messages.len() - k >= keep),
            None => forall|k: int|
                1 <= k <= i ==> !((#[trigger] messages[k]).role == "assistant"@ && messages.len() - k >= keep),
        },
    decreases i,
{
    if i >= 1 {
        lemma_latest_cut(messages, keep, i - 1);
    }
}

/// A conversation is cut only where it has outgrown its window, and as late as it can be: at
/// the last message of the assistant behind which the recent ones that are to be kept follow.
pub proof fn law_a_conversation_is_cut_as_late_as_it_can_be(st: RunView, cut: int)
    requires
        compaction_cut(st) == Some(cut),
    ensures
        st.entry.policy.max_context_tokens matches Some(max) && st.last_input_tokens > max,
        2 <= cut < st.conversation.len(),
        st.conversation[cut].role == "assistant"@,
        st.conversation.len() - cut >= st.entry.policy.keep_recent,
        forall|k: int|
            cut < k < st.conversation.len() && st.conversation.len() - k >= st.entry.policy.keep_recent && st.conversation.len()
                - k >= 1 ==> (#[trigger] st.conversation[k]).role != "assistant"@,
{
    lemma_latest_cut(st.conversation, kept_messages(st.entry.policy), st.conversation.len() - 1);
}

/// A session is taken up where it was left: its conversation is what the run continues, as
/// long as it has not expired and is not to be forgotten; then the run starts anew.
pub proof fn law_a_session_is_taken_up_where_it_was_left(
    sessions: Map<Seq<char>, EntryView>,
    ttl: u128,
    key: Seq<char>,
    reset: bool,
    now: u128,
)
    ensures
        ({
            let known = sessions.contains_key(key) && is_kept(sessions[key], now, ttl);
            let before = history(sessions, ttl, Some(key), reset, now);
            let after = taken_up(sessions, ttl, Some(key), reset, now);
            &&& known && !reset ==> before == sessions[key].conversation && after.contains_key(key)
                && after[key].conversation == sessions[key].conversation && after[key].touched == now
            &&& !known || reset ==> before.len() == 0 && !after.contains_key(key)
            &&& forall|k: Seq<char>|
                k != key ==> (#[trigger] after.contains_key(k) == sessions.contains_key(k)) && (sessions.contains_key(k)
                    ==> after[k] == sessions[k])
        }),
{
}

/// A run that waits says for what: the approval, the run, the agent, the caller, the tool and
/// what it is to be called with.
pub proof fn law_a_waiting_run_says_for_what(run: Run, approval_id: Seq<char>, age_secs: u64)
    ensures
        ({
            let j = parked_json(run, approval_id, age_secs);
            let call = run.batch.calls@[run.batch.at as int]@;
            &&& member(j, "approval_id"@) == Some(JsonView::Str(approval_id))
            &&& member(j, "run_id"@) == Some(JsonView::Str(run.st@.run_id))
            &&& member(j, "agent"@) == Some(JsonView::Str(run.st@.def.name@))
            &&& member(j, "caller"@) == Some(JsonView::Str(run.st@.caller.id))
            &&& member(j, "tool"@) == Some(JsonView::Str(call.name))
            &&& member(j, "arguments"@) == Some(call.arguments)
            &&& member(j, "age_secs"@) == Some(JsonView::Number(crate::json::NumberView::Int(age_secs as int)))
            &&& run.st@.session_id matches Some(s) ==> member(j, "session_id"@) == Some(JsonView::Str(s))
        }),
{
    reveal_strlit("approval_id");
    reveal_strlit("run_id");
    reveal_strlit("agent");
    reveal_strlit("caller");
    reveal_strlit("tool");
    reveal_strlit("arguments");
    reveal_strlit("age_secs");
    reveal_strlit("session_id");
    assert("approval_id"@.len() == 11);
    assert("run_id"@.len() == 6);
    assert("agent"@.len() == 5);
    assert("caller"@.len() == 6);
    assert("tool"@.len() == 4);
    assert("arguments"@.len() == 9);
    assert("age_secs"@.len() == 8);
    assert("session_id"@.len() == 10);
    assert("run_id"@[0] != "caller"@[0]);
}

/// An agent that sets no limit may take twelve steps; one that sets one, as many as it says;
/// and a run of it stops where it has taken them.
pub proof fn law_an_agents_limit_is_the_one_it_sets(st: RunView, tree_max: Option<u64>, tree_spent: u64)
    ensures
        st.entry.max_steps matches Some(n) ==> (st.usage.steps >= n ==> top_action(st, tree_max, tree_spent)
            == Action::Stop(RunStatus::StepLimit)),
        st.entry.max_steps is None && st.usage.steps >= 12 ==> top_action(st, tree_max, tree_spent) == Action::Stop(
            RunStatus::StepLimit,
        ),
        top_action(st, tree_max, tree_spent) == Action::Stop(RunStatus::StepLimit) ==> st.usage.steps >= (
        match st.entry.max_steps {
            Some(n) => n,
            None => 12u32,
        }),
        top_action(st, tree_max, tree_spent) == Action::Stop(RunStatus::BudgetExhausted) ==> ({
            ||| st.entry.token_budget matches Some(n) && st.usage.input_tokens + st.usage.output_tokens
                + st.usage.cache_read_tokens + st.usage.cache_write_tokens >= n
            ||| tree_max matches Some(n) && tree_spent >= n
        }),
{
}

/// What a reply cost is charged once: to the budget all its tokens, and to the ledger one call
/// of who asked, under the model that answered.
pub proof fn law_a_reply_is_charged_once(
    before: SharedBudget,
    after: SharedBudget,
    books: Ledger,
    charged: Ledger,
    kind: Seq<char>,
    name: Seq<char>,
    r: ReplyView,
)
    requires
        budget_charged(before, after, reply_tokens(r)),
        ledger_charged(books, charged, kind, name, r),
    ensures
        after.max_tokens == before.max_tokens && after.label == before.label,
        before.spent + r.input_tokens + r.output_tokens + r.cache_read_tokens + r.cache_write_tokens <= u64::MAX
            ==> after.spent == before.spent + r.input_tokens + r.output_tokens + r.cache_read_tokens + r.cache_write_tokens,
        charged@ == after_charge(
            books@,
            (KeyView { kind, name, model: r.model }),
            (crate::ledger::Totals {
                calls: 1,
                input_tokens: r.input_tokens,
                output_tokens: r.output_tokens,
                cache_read_tokens: r.cache_read_tokens,
                cache_write_tokens: r.cache_write_tokens,
            }),
        ),
        charged.run_count() == books.run_count() && charged.since() == books.since(),
{
}

/// A compaction is audited with how many messages there were and are.
pub proof fn law_a_compaction_is_audited(st: RunView, cut: int, reply: Result<ReplyView, Seq<char>>)
    requires
        0 <= cut <= st.conversation.len() <= u32::MAX,
    ensures
        ({
            let done = reply matches Ok(r) && r.text.len() > 0;
            let events = summary_events(st, cut, reply);
            &&& !done ==> events.len() == 0
            &&& done ==> events.len() == 1 && events[0].kind == "compaction"@ && events[0].run_id == st.run_id
                && events[0].actor == Some(st.actor.id) && member(events[0].detail, "messages_before"@) == Some(
                JsonView::Number(crate::json::NumberView::Int(st.conversation.len() as int)),
            ) && member(events[0].detail, "messages_after"@) == Some(
                JsonView::Number(crate::json::NumberView::Int(st.conversation.len() - cut + 1)),
            )
        }),
{
    reveal_strlit("messages_before");
    reveal_strlit("messages_after");
    assert("messages_before"@.len() == 15);
    assert("messages_after"@.len() == 14);
}

/// A refused call is answered under its id with the reason, as an error, and recorded as
/// refused; an agent that takes over is told what the conversation began with; and one that
/// hands over is audited with why.
pub proof fn law_a_refused_call_is_told_why(t: Turn, message: Seq<char>, duration_ms: u64, first: Seq<char>, reason: Seq<char>)
    requires
        0 <= t.at < t.calls.len(),
    ensures
        ({
            let u = refused_call(t, message, duration_ms);
            let call = t.calls[t.at];
            let added = u.results.last();
            &&& u.at == t.at + 1 && u.calls == t.calls && u.trail == t.trail && u.results.drop_last() == t.results
            &&& member(added, "tool_use_id"@) == Some(JsonView::Str(call.id))
            &&& member(added, "is_error"@) == Some(JsonView::Bool(true))
            &&& member(added, "content"@) == Some(
                JsonView::Str(json_text(JsonView::Object(map!["error"@ => JsonView::Str(message)]))),
            )
            &&& u.st.steps.drop_last() == t.st.steps && u.st.steps.last().kind == StepKind::ToolRefused
                && u.st.steps.last().tool == Some(call.name) && u.st.steps.last().error == Some(message)
            &&& u.st.conversation == t.st.conversation && u.st.usage == t.st.usage
            &&& member(call.arguments, "reason"@) == Some(JsonView::Str(reason)) ==> handoff_reason(call) == reason
        }),
        t.st.conversation.len() > 0 && t.st.conversation[0].content == JsonView::Str(first) ==> first_text(
            t.st.conversation,
        ) == first,
{
    reveal_strlit("type");
    reveal_strlit("tool_use_id");
    reveal_strlit("content");
    reveal_strlit("is_error");
    assert("type"@.len() == 4);
    assert("tool_use_id"@.len() == 11);
    assert("content"@.len() == 7);
    assert("is_error"@.len() == 8);
    let u = refused_call(t, message, duration_ms);
    assert(u.results.drop_last() =~= t.results);
    assert(u.st.steps.drop_last() =~= t.st.steps);
    assert(error_object(message)->Object_0 =~= map!["error"@ => JsonView::Str(message)]);
}

/// A turn stops at the first call that takes more than a refusal, and does with it what its
/// name says; when there is none left the model is asked again.
pub proof fn law_a_turn_does_what_its_calls_say(
    t: Turn,
    routes: Seq<Route>,
    agents: Seq<AgentDef>,
    tree_max: Option<u64>,
    tree_spent: u64,
)
    requires
        0 <= t.at < t.calls.len(),
    ensures
        ({
            let fate = fate_of(t.st.def, routes, agents, t.calls[t.at]);
            let (u, action) = advanced(t, routes, agents, tree_max, tree_spent);
            &&& fate is Dispatch ==> action is Dispatch && u == t
            &&& fate is Gated ==> action is Suspend && u == t
            &&& fate matches CallFate::Handoff(target) ==> action is Resolve && u.at == t.at && u.st == t.st && u.trail.drop_last()
                == t.trail && u.trail.last().kind == "handoff"@ && member(u.trail.last().detail, "to"@) == Some(
                JsonView::Str(target),
            ) && member(u.trail.last().detail, "from"@) == Some(JsonView::Str(t.st.def.name@))
        }),
{
    reveal_strlit("from");
    reveal_strlit("to");
    reveal_strlit("reason");
    assert("from"@.len() == 4);
    assert("to"@.len() == 2);
    assert("reason"@.len() == 6);
    let (u, action) = advanced(t, routes, agents, tree_max, tree_spent);
    if fate_of(t.st.def, routes, agents, t.calls[t.at]) is Handoff {
        assert(u.trail.drop_last() =~= t.trail);
    }
}

/// A model is asked as long as nothing stops the run and its conversation fits.
pub proof fn law_a_model_is_asked_while_nothing_stops_the_run(st: RunView, tree_max: Option<u64>, tree_spent: u64)
    ensures
        top_action(st, tree_max, tree_spent) is Summarise ==> compaction_cut(st) is Some,
        st.entry.policy.max_context_tokens is None && st.entry.token_budget is None && tree_max is None && (
        match st.entry.max_steps {
            Some(n) => st.usage.steps < n,
            None => st.usage.steps < 12,
        }) ==> top_action(st, tree_max, tree_spent) is Complete,
{
}

/// A compaction waits exactly until the step that it was put off to: from that step on, the
/// first one included, it is done where the conversation can be cut, and before it never.
pub proof fn law_a_compaction_is_due_again_when_its_wait_is_over(st: RunView)
    ensures
        st.usage.steps >= st.compaction_retry_at ==> compaction_due(st) == compaction_cut(st),
        st.usage.steps == st.compaction_retry_at ==> compaction_due(st) == compaction_cut(st),
        st.usage.steps < st.compaction_retry_at ==> compaction_due(st) is None,
{
}

} // verus!
