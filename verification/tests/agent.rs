use webcortex::agent::{bounded, render_message, system_suffix, write_transcript};
use webcortex::app::{run_result_response, settle_tool, App, Step as Work};
use webcortex::approvals::Approvals;
use webcortex::audit::AuditEvent;
use webcortex::auth::{Principal, PrincipalKind};
use webcortex::budget::SharedBudget;
use webcortex::conversation::Message;
use webcortex::fake::ScriptedProvider;
use webcortex::http::PylonRequest;
use webcortex::json::{parse, Json, Members};
use webcortex::ledger::Ledger;
use webcortex::manifest::{
    AgentDef, Approval, AuthConfig, ContextPolicy, CorsConfig, Manifest, ModelsConfig, Op, RateLimitConfig, Route,
    SecurityHeaders, ServerConfig, ToolExposure,
};
use webcortex::run::{RunResult, RunStatus, StepKind};
use webcortex::runtime::{Action, Run, RunOptions};
use webcortex::session::SessionStore;
use webcortex::table::Table;

fn json(text: &str) -> Json {
    parse(text).expect("test value parses")
}

fn route(id: u32, method: &str, path: &str, op: Op, tool: &str) -> Route {
    Route {
        id,
        method: method.into(),
        path: path.into(),
        op,
        summary: String::new(),
        description: String::new(),
        input_schema: None,
        output_schema: None,
        tool: ToolExposure { expose: true, name: Some(tool.into()), ..ToolExposure::default() },
        scopes: vec![],
        approval: Approval::Never,
        validate_body: false,
    }
}

fn fixed(body: &str) -> Op {
    Op::Static { status: 200, body: json(body) }
}

fn agent(name: &str, tools: &[&str], max_steps: u32) -> AgentDef {
    AgentDef {
        name: name.into(),
        description: String::new(),
        model: "test".into(),
        system: String::new(),
        tools: tools.iter().map(|t| t.to_string()).collect(),
        max_steps: Some(max_steps),
        token_budget: None,
        scopes: vec![],
        temperature: None,
        max_tokens: 4096,
        handoffs: vec![],
        context: vec![],
        cache: true,
        policy: ContextPolicy::default(),
    }
}

fn manifest() -> Manifest {
    let rows: Vec<String> = (0..2000).map(|i| format!(r#"{{"i": {i}, "text": "row row row"}}"#)).collect();
    let mut danger = route(1, "POST", "/danger", fixed(r#"{"done": true}"#), "danger");
    danger.approval = Approval::Required;
    let mut admin = route(2, "GET", "/admin", fixed(r#"{"secret": 1}"#), "admin_only");
    admin.scopes = vec!["admin".into()];
    let mut worker =
        route(4, "POST", "/agents/worker", Op::Agent { agent: "worker".into(), stream: false }, "worker");
    worker.input_schema = Some(json(r#"{"type": "object", "properties": {"input": {"type": "string"}}}"#));
    let mut a = agent("a", &["safe", "danger", "admin_only", "big", "worker"], 5);
    a.handoffs = vec!["b".into()];
    let mut b = agent("b", &["safe"], 5);
    b.description = "the specialist".into();
    b.scopes = vec!["read".into()];
    Manifest {
        name: "t".into(),
        version: "0.1.0".into(),
        description: String::new(),
        server: ServerConfig::default(),
        database: None,
        routes: vec![
            route(0, "GET", "/safe", fixed(r#"{"ok": true}"#), "safe"),
            danger,
            admin,
            route(3, "GET", "/big", fixed(&format!(r#"{{"rows": [{}]}}"#, rows.join(","))), "big"),
            worker,
        ],
        upstreams: Table::new(),
        agents: vec![a, b, agent("worker", &["safe"], 3)],
        behaviours: vec![],
        auth: AuthConfig {
            api_keys: Table::new(),
            api_key_header: "x-api-key".into(),
            jwt: None,
            anonymous_scopes: vec![],
        },
        cors: CorsConfig::default(),
        rate_limit: RateLimitConfig::default(),
        security_headers: SecurityHeaders::default(),
        templates: None,
        models: ModelsConfig { aliases: Table::new(), providers: Table::new(), pricing: Table::new() },
        contexts: vec![],
        flows: vec![],
    }
}

fn caller(scopes: &[&str]) -> Principal {
    Principal {
        id: "u1".into(),
        kind: PrincipalKind::ApiKey,
        scopes: scopes.iter().map(|s| s.to_string()).collect(),
        claims: Members::new(),
    }
}

/// Everything around a run: what performs the actions and hands the events back.
struct World<'a> {
    app: App<'a>,
    provider: ScriptedProvider,
    trail: Vec<AuditEvent>,
    ledger: Ledger,
    sessions: SessionStore,
    approvals: Approvals<Run<'a>>,
    next_id: u32,
    now: u128,
}

impl<'a> World<'a> {
    fn new(manifest: &'a Manifest, provider: ScriptedProvider) -> Self {
        World {
            app: App::build(manifest, &Table::new()).expect("app builds"),
            provider,
            trail: vec![],
            ledger: Ledger::new(0),
            sessions: SessionStore::new(10, 60),
            approvals: Approvals::new(60),
            next_id: 0,
            now: 0,
        }
    }

    fn audited(&self, kind: &str) -> bool {
        self.trail.iter().any(|e| e.kind == kind)
    }

    fn fresh(&mut self, what: &str) -> String {
        self.next_id += 1;
        format!("{what}{}", self.next_id)
    }

    fn dispatch(&mut self, tool: &str, asked: Result<PylonRequest, String>, budget: &mut SharedBudget) -> Result<Json, String> {
        let mut req = asked?;
        let res = match self.app.dispatch(&mut req, false) {
            Work::Respond(res) => res,
            Work::Agent { def, call } => {
                let result = self.run_in_tree(def, &req.principal, &call.input, &call.opts, budget);
                run_result_response(&result)
            }
            other => panic!("no such work here: {other:?}"),
        };
        settle_tool(tool, &res)
    }

    fn run_in_tree(
        &mut self,
        def: &'a AgentDef,
        caller: &Principal,
        input: &str,
        opts: &RunOptions,
        budget: &mut SharedBudget,
    ) -> RunResult {
        let id = self.fresh("run");
        let mut run = Run::start(id, self.app.manifest, def, caller, input, opts, &mut self.sessions, 0);
        let suffix = system_suffix(def, "");
        let action = run.begin(suffix, budget, &mut self.trail);
        self.drive(run, action, budget)
    }

    fn drive(&mut self, mut run: Run<'a>, mut action: Action, budget: &mut SharedBudget) -> RunResult {
        loop {
            action = match action {
                Action::Stop(status) => {
                    return run.finish(status, None, budget, &mut self.ledger, &mut self.sessions, 0, &mut self.trail);
                }
                Action::Summarise => {
                    let c = run.compaction().expect("a compaction is due");
                    let reply = self.provider.complete(&c.request());
                    run.summarised(c.cut, reply, 1, budget, &mut self.ledger, &mut self.trail)
                }
                Action::Complete => {
                    let reply = self.provider.complete(&run.question().request());
                    run.replied(reply, 1, budget, &mut self.ledger, &mut self.trail)
                }
                Action::Resolve => {
                    let next = run.handoff().expect("there is a next agent").agent;
                    run.handed(Ok(system_suffix(next, "")), 1, budget, &mut self.trail)
                }
                Action::Dispatch => {
                    let tool = run.batch.calls[run.batch.at].name.clone();
                    let outcome = self.dispatch(&tool, run.call_request(), budget);
                    run.dispatched(outcome, 1, budget, &mut self.trail)
                }
                Action::Suspend => {
                    let id = self.fresh("approval");
                    let pending = run.suspend(&id, &mut self.trail);
                    let result = run.finish(
                        RunStatus::AwaitingApproval,
                        Some(pending),
                        budget,
                        &mut self.ledger,
                        &mut self.sessions,
                        0,
                        &mut self.trail,
                    );
                    self.approvals.park(id, 0, run);
                    return result;
                }
            };
        }
    }

    fn run_with(&mut self, agent: &str, caller: &Principal, input: &str, opts: &RunOptions) -> RunResult {
        let def = self.app.manifest.agent_def(agent).expect("declared");
        let mut budget = SharedBudget::for_agent(def);
        self.run_in_tree(def, caller, input, opts, &mut budget)
    }

    fn run(&mut self, agent: &str, caller: &Principal, input: &str) -> RunResult {
        self.run_with(agent, caller, input, &RunOptions::default())
    }

    fn resolve(&mut self, id: &str, approve: bool, note: &str, approver: &Principal) -> Result<RunResult, String> {
        let mut run = self.approvals.resolve_approval(id, approve, approver, self.now, &mut self.trail)?;
        let mut budget = SharedBudget::for_agent(run.st.entry);
        let action = run.decided(id, approve, note, &budget, &mut self.trail);
        Ok(self.drive(run, action, &mut budget))
    }
}

#[test]
fn a_plain_answer_completes_in_one_step() {
    let m = manifest();
    let mut w = World::new(&m, ScriptedProvider::text("hello"));
    let out = w.run("a", &caller(&[]), "hi");
    assert_eq!(out.status, RunStatus::Completed);
    assert_eq!(out.output, "hello");
    assert_eq!(out.usage.tool_calls, 0);
    assert_eq!(out.path, vec!["a"]);
}

#[test]
fn a_tool_call_is_dispatched_in_process_then_the_run_completes() {
    let m = manifest();
    let mut w = World::new(&m, ScriptedProvider::tool_then_text("safe", json("{}"), "done"));
    let out = w.run("a", &caller(&[]), "go");
    assert_eq!(out.status, RunStatus::Completed);
    assert_eq!(out.usage.tool_calls, 1);
    let call = out.steps.iter().find(|s| s.kind == StepKind::ToolCall).unwrap();
    assert_eq!(call.result.as_ref().unwrap().to_text(), r#"{"ok":true}"#);
    assert!(w.audited("tool_called"));
}

#[test]
fn a_gated_tool_suspends_the_run_and_the_rest_of_the_turn_survives_resume() {
    // Three calls in one turn; the second is gated.
    let m = manifest();
    let script = ScriptedProvider::tools_then_text(
        vec![("safe", json("{}")), ("danger", json("{}")), ("safe", json(r#"{"n": 2}"#))],
        "all done",
    );
    let mut w = World::new(&m, script);
    let out = w.run("a", &caller(&["*"]), "go");
    assert_eq!(out.status, RunStatus::AwaitingApproval);
    let pending = out.pending_approval.as_ref().expect("awaiting approval");
    assert_eq!(pending.tool, "danger");
    assert!(w.audited("approval_requested"));
    // The gated tool did NOT run; the one before it did.
    assert_eq!(out.steps.iter().filter(|s| s.kind == StepKind::ToolCall).count(), 1);
    assert_eq!(w.approvals.pending_approvals(0).len(), 1);

    let resumed = w.resolve(&pending.approval_id, true, "ok", &caller(&["*"])).expect("resumes");
    assert_eq!(resumed.status, RunStatus::Completed);
    assert_eq!(resumed.output, "all done");
    // All three tool calls now have results: safe, danger, safe.
    let calls: Vec<_> =
        resumed.steps.iter().filter(|s| s.kind == StepKind::ToolCall).map(|s| s.tool.clone().unwrap()).collect();
    assert_eq!(calls, vec!["safe", "danger", "safe"]);
    // And the conversation the model saw carried every tool_result.
    assert!(w.audited("approval_decided"));
    assert!(w.approvals.pending_approvals(0).is_empty(), "consumed on resume");
}

#[test]
fn a_denied_approval_tells_the_model_and_continues() {
    let m = manifest();
    let mut w = World::new(&m, ScriptedProvider::tool_then_text("danger", json("{}"), "understood"));
    let out = w.run("a", &caller(&["*"]), "go");
    let pending = out.pending_approval.expect("awaiting approval");
    let resumed = w.resolve(&pending.approval_id, false, "not today", &caller(&["*"])).expect("resumes");
    assert_eq!(resumed.status, RunStatus::Completed);
    assert!(resumed.steps.iter().any(|s| s.kind == StepKind::ApprovalDenied));
    assert!(!resumed.steps.iter().any(|s| s.kind == StepKind::ToolCall), "denied tool must not run");
    // The model was told, in the tool_result it received.
    let last = w.provider.snapshots().last().unwrap().messages.last().unwrap();
    let blocks = last.get_array("content").unwrap();
    assert!(blocks[0].get_str("content").unwrap().contains("not today"));
}

#[test]
fn an_unknown_approval_id_is_an_error() {
    let m = manifest();
    let mut w = World::new(&m, ScriptedProvider::text("x"));
    let e = w.resolve("nope", true, "", &caller(&["*"])).unwrap_err();
    assert_eq!(e, "no pending approval \"nope\"; it may have expired or already been decided");
}

#[test]
fn an_agent_cannot_reach_a_scope_its_caller_lacks() {
    let m = manifest();
    let mut w = World::new(&m, ScriptedProvider::tool_then_text("admin_only", json("{}"), "x"));
    let out = w.run("a", &caller(&[]), "go");
    let call = out.steps.iter().find(|s| s.kind == StepKind::ToolCall).unwrap();
    assert!(call.error.as_ref().unwrap().contains("403"));
}

#[test]
fn an_agent_reaches_a_scoped_route_when_the_caller_holds_the_scope() {
    let m = manifest();
    let mut w = World::new(&m, ScriptedProvider::tool_then_text("admin_only", json("{}"), "x"));
    let out = w.run("a", &caller(&["admin"]), "go");
    let call = out.steps.iter().find(|s| s.kind == StepKind::ToolCall).unwrap();
    assert_eq!(call.result.as_ref().unwrap().to_text(), r#"{"secret":1}"#);
}

#[test]
fn a_tool_outside_the_agents_list_is_refused_not_dispatched() {
    let m = manifest();
    let mut w = World::new(&m, ScriptedProvider::tool_then_text("nonexistent", json("{}"), "x"));
    let out = w.run("a", &caller(&["*"]), "go");
    assert!(out.steps.iter().any(|s| s.kind == StepKind::ToolRefused));
    assert!(w.audited("tool_refused"));
}

#[test]
fn a_looping_model_is_stopped_by_the_step_limit() {
    let mut m = manifest();
    m.agents[0].max_steps = Some(3);
    let mut w = World::new(&m, ScriptedProvider::always_tool("safe", json("{}")));
    let out = w.run("a", &caller(&[]), "go");
    assert_eq!(out.status, RunStatus::StepLimit);
    assert_eq!(out.usage.steps, 3, "must stop exactly at the limit");
}

#[test]
fn the_token_budget_is_enforced_by_the_runtime() {
    let mut m = manifest();
    m.agents[0].max_steps = Some(50);
    m.agents[0].token_budget = Some(500);
    let mut w = World::new(&m, ScriptedProvider::always_tool("safe", json("{}")).with_tokens(100, 100));
    let out = w.run("a", &caller(&[]), "go");
    assert_eq!(out.status, RunStatus::BudgetExhausted);
    assert!(out.usage.total_tokens() >= 500 && out.usage.total_tokens() < 1000);
}

#[test]
fn a_shared_budget_bounds_a_supervisor_and_its_workers_together() {
    // The supervisor calls the worker agent as a tool, forever. Each nested
    // run has its own generous limits; only the shared budget stops it.
    let mut m = manifest();
    m.agents[0].max_steps = Some(50);
    m.agents[0].token_budget = Some(1_000);
    let script = ScriptedProvider::always_tool("worker", json(r#"{"input": "go"}"#)).with_tokens(100, 100);
    let mut w = World::new(&m, script);
    let out = w.run("a", &caller(&[]), "go");
    assert_eq!(out.status, RunStatus::BudgetExhausted);
    assert!(out.usage.tree_tokens >= 1_000, "tree spend {} must reach the ceiling", out.usage.tree_tokens);
    assert!(out.usage.tree_tokens > out.usage.total_tokens(), "workers' tokens count against the tree");
    assert!(out.usage.tree_tokens < 3_000, "and the ceiling is enforced promptly: {}", out.usage.tree_tokens);
}

#[test]
fn nested_agent_calls_carry_depth_so_a_cycle_is_bounded() {
    let mut m = manifest();
    // Make the worker call itself. Two steps per level keeps the tree
    // small (2^depth runs); the ceiling is what must stop the recursion.
    m.agents[2].tools = vec!["worker".into()];
    m.agents[2].max_steps = Some(2);
    m.server.max_invocation_depth = 3;
    let mut w = World::new(&m, ScriptedProvider::always_tool("worker", json(r#"{"input": "x"}"#)));
    let out = w.run("worker", &caller(&[]), "go");
    // The 508 surfaces inside the nested run results, three levels down.
    let rendered: String = out.steps.iter().map(|s| s.to_json().to_text()).collect();
    assert!(rendered.contains("508"), "the nesting ceiling must trip: {rendered}");
    assert!(rendered.contains("ceiling of 3"), "{rendered}");
}

#[test]
fn a_handoff_swaps_the_agent_and_shrinks_authority() {
    let m = manifest();
    let script = ScriptedProvider::sequence(vec![
        ("tool", "transfer_to_b", json(r#"{"reason": "specialist"}"#)),
        ("tool", "admin_only", json("{}")),
        ("text", "from b", Json::Null),
    ]);
    let mut w = World::new(&m, script);
    // Caller holds admin, but agent b only declares read, so after the
    // handoff admin_only must be out of reach — and out of b's tool list.
    let out = w.run("a", &caller(&["admin", "read"]), "go");
    assert_eq!(out.status, RunStatus::Completed);
    assert_eq!(out.path, vec!["a", "b"]);
    assert_eq!(out.agent, "b");
    assert_eq!(out.usage.handoffs, 1);
    assert!(out.steps.iter().any(|s| s.kind == StepKind::Handoff));
    assert!(w.audited("handoff"));
    // b was refused admin_only: not in its tool list.
    assert!(out.steps.iter().any(|s| s.kind == StepKind::ToolRefused && s.tool.as_deref() == Some("admin_only")));
    // The second provider call was made as b: b's tools, b's description.
    let snaps = w.provider.snapshots();
    assert_eq!(snaps[1].tool_names, vec!["safe"]);
    assert!(snaps[0].tool_names.contains(&"transfer_to_b".to_string()));
    assert!(snaps[0].system_suffix.contains("transfer_to_"));
}

#[test]
fn a_handoff_to_an_undeclared_agent_is_refused() {
    let m = manifest();
    let script = ScriptedProvider::tool_then_text("transfer_to_worker", json(r#"{"reason": "x"}"#), "ok");
    let mut w = World::new(&m, script);
    let out = w.run("a", &caller(&["*"]), "go");
    assert!(out.steps.iter().any(|s| s.kind == StepKind::ToolRefused));
    assert_eq!(out.path, vec!["a"]);
}

#[test]
fn large_tool_results_are_bounded_before_the_model_sees_them() {
    let mut m = manifest();
    m.agents[0].policy.max_tool_result_bytes = 500;
    let mut w = World::new(&m, ScriptedProvider::tool_then_text("big", json("{}"), "ok"));
    let out = w.run("a", &caller(&[]), "go");
    assert_eq!(out.status, RunStatus::Completed);
    // The step record keeps the full value…
    let step = out.steps.iter().find(|s| s.kind == StepKind::ToolCall).unwrap();
    assert!(step.result.as_ref().unwrap().get_array("rows").unwrap().len() == 2000);
    // …but the model's copy was cut.
    let seen = w.provider.snapshots()[1].messages.last().unwrap();
    let content = seen.get_array("content").unwrap()[0].get_str("content").unwrap();
    assert!(content.contains("truncated"), "{content}");
    assert!(content.len() < 700);
}

fn compacting(max_steps: u32) -> Manifest {
    let mut m = manifest();
    m.agents[0].max_steps = Some(max_steps);
    m.agents[0].policy.max_context_tokens = Some(500);
    m.agents[0].policy.keep_recent = 2;
    m.agents[0].policy.compact_with = Some("test".into());
    m
}

#[test]
fn the_conversation_is_compacted_when_it_outgrows_the_window() {
    // Every call reports 1000 input tokens; the window is 500, so after the
    // first call the runtime must compact before the next.
    let m = compacting(5);
    let script = ScriptedProvider::sequence(vec![
        ("tool", "safe", json("{}")),
        ("tool", "safe", json("{}")),
        ("text", "SUMMARY", Json::Null),  // the compaction answer
        ("tool", "safe", json("{}")),
        ("text", "SUMMARY2", Json::Null), // a second compaction
        ("text", "final", Json::Null),
    ])
    .with_tokens(1000, 10);
    let mut w = World::new(&m, script);
    let out = w.run("a", &caller(&[]), "go");
    assert_eq!(out.status, RunStatus::Completed, "{:?}", out.steps);
    assert_eq!(out.usage.compactions, 2, "{:?}", out.steps);
    assert_eq!(out.output, "final");

    assert!(w.audited("compaction"));
    // Some provider call saw a conversation starting with the summary.
    let snaps = w.provider.snapshots();
    let summarised = snaps
        .iter()
        .any(|s| s.messages.first().and_then(|m| m.get_str("content")).is_some_and(|t| t.contains("[Summary")));
    assert!(summarised, "no call saw a compacted conversation");
    // And every compacted conversation still alternates and starts with user.
    for s in snaps {
        assert_eq!(s.messages[0].get_str("role"), Some("user"));
    }
}

#[test]
fn a_failed_compaction_is_recorded_and_the_run_continues() {
    let m = compacting(5);
    let script = ScriptedProvider::sequence(vec![
        ("tool", "safe", json("{}")),
        ("tool", "safe", json("{}")),
        ("error", "summariser unavailable", Json::Null), // the compaction call
        ("text", "final", Json::Null),
    ])
    .with_tokens(1000, 10);
    let mut w = World::new(&m, script);
    let out = w.run("a", &caller(&[]), "go");
    assert_eq!(out.status, RunStatus::Completed, "{:?}", out.steps);
    assert_eq!(out.output, "final");
    assert_eq!(out.usage.compactions, 0);
    let step = out.steps.iter().find(|s| s.kind == StepKind::Compaction).expect("a compaction step");
    let error = step.error.as_deref().unwrap_or_default();
    assert!(error.contains("\"test\"") && error.contains("summariser unavailable"), "{error}");
}

#[test]
fn a_compaction_that_keeps_failing_backs_off_instead_of_retrying_every_step() {
    // Every call gets a tool turn, so the summariser never returns text and
    // every compaction attempt fails.
    let m = compacting(12);
    let mut w = World::new(&m, ScriptedProvider::always_tool("safe", json("{}")).with_tokens(1000, 10));
    let out = w.run("a", &caller(&[]), "go");
    assert_eq!(out.status, RunStatus::StepLimit, "{:?}", out.steps);
    let failed: Vec<_> = out.steps.iter().filter(|s| s.kind == StepKind::Compaction).map(|s| s.index).collect();
    // First eligible at step 2, then after waits of 2 and 4 steps; the next
    // would be step 16, past the limit.
    assert_eq!(failed, vec![2, 4, 8]);
    let attempts = w.provider.snapshots().iter().filter(|s| s.system.starts_with("You compress")).count();
    assert_eq!(attempts, 3);
}

#[test]
fn a_response_cut_off_at_max_tokens_is_reported_as_such() {
    let m = manifest();
    let mut w = World::new(&m, ScriptedProvider::sequence(vec![("truncated", "half an ans", Json::Null)]));
    let out = w.run("a", &caller(&[]), "go");
    assert_eq!(out.status, RunStatus::MaxTokens);
    assert_eq!(out.output, "half an ans");
}

#[test]
fn model_loop_routes_are_recognised_for_their_own_timeout() {
    let m = manifest();
    let w = World::new(&m, ScriptedProvider::text("x"));
    assert!(w.app.runs_a_model_loop("POST", "/agents/worker"));
    assert!(!w.app.runs_a_model_loop("GET", "/safe"));
    assert!(!w.app.runs_a_model_loop("GET", "/no-such-route"));
}

#[test]
fn sessions_carry_the_conversation_between_runs() {
    let m = manifest();
    let script = ScriptedProvider::sequence(vec![
        ("text", "one", Json::Null),
        ("text", "two", Json::Null),
        ("text", "fresh", Json::Null),
    ]);
    let mut w = World::new(&m, script);
    let opts = RunOptions { session_id: Some("s1".into()), ..RunOptions::default() };
    let a = w.run_with("a", &caller(&[]), "first", &opts);
    assert_eq!(a.session_id.as_deref(), Some("s1"));
    let b = w.run_with("a", &caller(&[]), "second", &opts);
    assert_eq!(b.session_id.as_deref(), Some("s1"), "every turn echoes the session id");
    assert_eq!(w.provider.snapshots()[0].message_count, 1);
    assert_eq!(w.provider.snapshots()[1].message_count, 3, "user, assistant, user");
    // Another principal with the same session id starts fresh.
    let other = Principal { id: "u2".into(), ..caller(&[]) };
    let _ = w.run_with("a", &other, "hello", &opts);
    assert_eq!(w.provider.snapshots()[2].message_count, 1);
}

#[test]
fn an_anonymous_caller_cannot_open_a_session() {
    let m = manifest();
    let script = ScriptedProvider::sequence(vec![("text", "one", Json::Null), ("text", "two", Json::Null)]);
    let mut w = World::new(&m, script);
    let opts = RunOptions { session_id: Some("s1".into()), ..RunOptions::default() };
    for _ in 0..2 {
        let out = w.run_with("a", &Principal::anonymous(), "hello", &opts);
        assert!(out.session_id.is_none());
    }
    assert_eq!(w.provider.snapshots()[1].message_count, 1);
    assert!(w.sessions.is_empty());
    assert!(Principal::anonymous().delegate_to_agent("a", &[]).delegate_to_agent("b", &[]).is_shared());
    assert!(!caller(&[]).delegate_to_agent("a", &[]).is_shared());
}

#[test]
fn a_provider_error_fails_the_run_without_panicking() {
    let m = manifest();
    let mut w = World::new(&m, ScriptedProvider::error("upstream exploded"));
    let out = w.run("a", &caller(&[]), "go");
    assert_eq!(out.status, RunStatus::Failed);
    assert!(w.audited("agent_failed"));
}

#[test]
fn every_run_is_audited_and_charged() {
    let m = manifest();
    let mut w = World::new(&m, ScriptedProvider::text("hi"));
    w.run("a", &caller(&[]), "go");
    assert!(w.audited("agent_started"));
    assert!(w.audited("agent_finished"));
    let usage = w.ledger.snapshot(&Table::new(), 0, &Json::Null);
    assert_eq!(usage.get_u64("runs"), Some(1));
    assert_eq!(usage.get("by_caller").unwrap().get("agent:a").unwrap().get_u64("calls"), Some(1));
}

#[test]
fn bounded_cuts_on_a_char_boundary() {
    let v = json(r#"{"s": "ééééééééééééééééééééé"}"#);
    let out = bounded(&v, 10);
    assert!(out.as_str().unwrap().contains("truncated"));
    assert_eq!(bounded(&v, 10_000).to_text(), v.to_text());
}

#[test]
fn a_waiting_run_expires() {
    let m = manifest();
    let mut w = World::new(&m, ScriptedProvider::tool_then_text("danger", json("{}"), "x"));
    let out = w.run("a", &caller(&["*"]), "go");
    let id = out.pending_approval.unwrap().approval_id;
    let listed = w.approvals.pending_approvals(5_000_000_000);
    assert_eq!(listed[0].get_u64("age_secs"), Some(5));
    assert_eq!(listed[0].get_str("approval_id"), Some(id.as_str()));
    assert!(w.approvals.pending_approvals(60_000_000_001).is_empty());
    assert!(w.resolve(&id, true, "", &caller(&["*"])).is_err());
}

#[test]
fn an_expired_run_is_not_decided_though_nothing_swept_it() {
    let m = manifest();
    let mut w = World::new(&m, ScriptedProvider::tool_then_text("danger", json("{}"), "x"));
    let id = w.run("a", &caller(&["*"]), "go").pending_approval.unwrap().approval_id;
    w.now = 60_000_000_001;
    let late = w.resolve(&id, true, "", &caller(&["*"])).unwrap_err();
    assert_eq!(late, format!("no pending approval {id:?}; it may have expired or already been decided"));
    w.now = 0;
    assert!(w.resolve(&id, true, "", &caller(&["*"])).is_err(), "it is gone");
}

#[test]
fn a_decision_is_left_in_the_trail_of_whoever_took_it() {
    let m = manifest();
    let mut w = World::new(&m, ScriptedProvider::tool_then_text("danger", json("{}"), "x"));
    let id = w.run("a", &caller(&["*"]), "go").pending_approval.unwrap().approval_id;
    let approver = Principal { id: "boss".into(), ..caller(&["*"]) };
    w.resolve(&id, true, "", &approver).unwrap();
    let e = w.trail.iter().find(|e| e.kind == "approval_resolved").unwrap();
    assert_eq!(e.actor.as_deref(), Some("boss"));
    assert_eq!(e.detail.get_str("on_behalf_of"), Some("u1"));
    assert!(w.resolve(&id, true, "", &approver).is_err(), "a decision is consumed");
}

#[test]
fn a_transcript_keeps_the_newest_turns() {
    let messages = vec![
        Message::new("user", Json::str("question")),
        Message::new("assistant", json(r#"[{"type":"tool_use","name":"t","input":{"n":1}}]"#)),
    ];
    let all = write_transcript(&messages, 2, 100_000);
    assert!(all.contains("question") && all.contains("[called t with {\"n\":1}]"), "{all}");
    assert_eq!(render_message(&Json::str("plain")), "plain");
    assert_eq!(
        render_message(&json(r#"[{"type":"tool_result","content":"r"},{"type":"text","text":"t"}]"#)),
        "[result: r]\nt"
    );
}
