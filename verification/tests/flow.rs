use webcortex::audit::AuditEvent;
use webcortex::auth::{Principal, PrincipalKind};
use webcortex::budget::SharedBudget;
use webcortex::flow::{resolve_template, unwrap_output, walk, FlowAction, FlowRun, FlowStatus};
use webcortex::json::{parse, Json, Members, Number};
use webcortex::ledger::Ledger;
use webcortex::manifest::{
    Approval, AuthConfig, CorsConfig, FlowDef, FlowKind, FlowStep, Manifest, MergeStrategy, ModelsConfig, Op,
    RateLimitConfig, Route, SecurityHeaders, ServerConfig, ToolExposure,
};
use webcortex::provider::{ProviderResponse, StopReason, ToolCall};
use webcortex::table::Table;

fn json(text: &str) -> Json {
    parse(text).expect("test value parses")
}

#[test]
fn templates_resolve_paths_against_incoming_and_original() {
    let incoming = json(r#"{"a": {"b": [10, 20]}, "s": "x"}"#);
    let original = json(r#"{"q": "hello"}"#);
    let t = json(r#"{"whole": "$", "deep": "$.a.b.1", "orig": "$input.q", "lit": "$notapath", "n": 3}"#);
    let out = resolve_template(&t, &incoming, &original);
    assert_eq!(out.get("whole").unwrap().to_text(), incoming.to_text());
    assert_eq!(out.get_u64("deep"), Some(20));
    assert_eq!(out.get_str("orig"), Some("hello"));
    assert_eq!(out.get_str("lit"), Some("$notapath"));
    assert_eq!(out.get_u64("n"), Some(3));
    assert!(resolve_template(&json("\"$.missing.x\""), &incoming, &original).is_null());
}

#[test]
fn envelopes_are_unwrapped_and_suspended_runs_are_errors() {
    let done = json(r#"{"output": "x", "run_id": "1", "status": "completed"}"#);
    assert_eq!(unwrap_output("t", done).unwrap().as_str(), Some("x"));
    assert_eq!(unwrap_output("t", json(r#"{"rows": 1}"#)).unwrap().to_text(), r#"{"rows":1}"#);
    let err = unwrap_output(
        "t",
        json(
            r#"{"output": "", "run_id": "1", "status": "awaiting_approval",
                "pending_approval": {"approval_id": "abc"}}"#,
        ),
    )
    .unwrap_err();
    assert!(err.contains("abc"));
}

#[test]
fn walking_off_a_value_is_null() {
    let v = json(r#"{"a": [1, {"b": 2}]}"#);
    assert_eq!(walk(&v, "a.1.b").as_u64(), Some(2));
    assert!(walk(&v, "a.2").is_null());
    assert!(walk(&v, "a.x").is_null());
}

fn step(tool: &str) -> FlowStep {
    FlowStep { tool: tool.into(), input: None }
}

fn flow(kind: FlowKind, token_budget: Option<u64>) -> FlowDef {
    FlowDef {
        name: "f".into(),
        description: String::new(),
        kind,
        scopes: vec!["read".into()],
        token_budget,
        input_schema: None,
    }
}

fn route(tool: &str, approval: Approval) -> Route {
    Route {
        id: 0,
        method: "GET".into(),
        path: "/one".into(),
        op: Op::Static { status: 200, body: json("{}") },
        summary: String::new(),
        description: String::new(),
        input_schema: None,
        output_schema: None,
        tool: ToolExposure { expose: true, name: Some(tool.into()), ..ToolExposure::default() },
        scopes: vec![],
        approval,
        validate_body: false,
    }
}

fn manifest() -> Manifest {
    Manifest {
        name: "t".into(),
        version: "0.1.0".into(),
        description: String::new(),
        server: ServerConfig::default(),
        database: None,
        routes: vec![],
        upstreams: Table::new(),
        agents: vec![],
        behaviours: vec![],
        auth: AuthConfig {
            api_keys: Table::new(),
            api_key_header: "x-api-key".into(),
            jwt: None,
            anonymous_scopes: vec![],
        },
        cors: CorsConfig::default(),
        rate_limit: RateLimitConfig::default(),
        security_headers: SecurityHeaders::default(),
        templates: None,
        models: ModelsConfig { aliases: Table::new(), providers: Table::new(), pricing: Table::new() },
        contexts: vec![],
        flows: vec![],
    }
}

fn caller() -> Principal {
    Principal {
        id: "u1".into(),
        kind: PrincipalKind::ApiKey,
        scopes: vec!["read".into(), "write".into()],
        claims: Members::new(),
    }
}

fn reply(tool_calls: Vec<ToolCall>, text: &str) -> ProviderResponse {
    ProviderResponse {
        text: text.into(),
        tool_calls,
        stop_reason: StopReason::EndTurn,
        input_tokens: 10,
        output_tokens: 5,
        cache_read_tokens: 0,
        cache_write_tokens: 0,
        model: "m".into(),
        raw_content: Json::Null,
    }
}

#[test]
fn a_pipeline_hands_each_step_the_last_ones_output() {
    let m = manifest();
    let def = flow(FlowKind::Pipeline { steps: vec![step("one"), step("two")] }, None);
    let budget = SharedBudget::new("f", None);
    let mut ledger = Ledger::new(0);
    let mut trail: Vec<AuditEvent> = vec![];
    let mut run = FlowRun::start(&def, &m, "r".into(), &caller(), 2, json(r#"{"q":1}"#), &mut trail);
    assert_eq!(run.actor.scopes, vec!["read"], "a flow never gains authority");
    match run.first() {
        FlowAction::Call { step, args } => {
            assert_eq!(step.tool, "one");
            assert_eq!(args.to_text(), r#"{"q":1}"#);
            assert_eq!(run.step_request(step, &args).unwrap_err(), "unknown tool \"one\"");
        }
        other => panic!("{other:?}"),
    }
    match run.called(Ok(json(r#"{"n":2}"#)), 3, &budget, &mut trail) {
        FlowAction::Call { step, args } => {
            assert_eq!(step.tool, "two");
            assert_eq!(args.to_text(), r#"{"n":2}"#);
        }
        other => panic!("{other:?}"),
    }
    assert!(matches!(run.called(Ok(json("9")), 4, &budget, &mut trail), FlowAction::Finish(FlowStatus::Completed)));
    let out = run.finish(FlowStatus::Completed, 7, &budget, &mut ledger, &mut trail);
    assert_eq!(out.get_u64("output"), Some(9));
    assert_eq!(ledger.run_total(), 1);
    assert!(trail.iter().any(|e| e.kind == "flow_started") && trail.iter().any(|e| e.kind == "flow_finished"));
}

#[test]
fn a_flow_refuses_a_gated_step() {
    let mut m = manifest();
    m.routes = vec![route("one", Approval::Never), route("two", Approval::Required)];
    m.routes[1].id = 1;
    m.routes[1].path = "/two".into();
    let def = flow(FlowKind::Pipeline { steps: vec![step("one"), step("two")] }, None);
    let mut trail: Vec<AuditEvent> = vec![];
    let run = FlowRun::start(&def, &m, "r".into(), &caller(), 3, Json::Null, &mut trail);
    let req = run.step_request(&step("one"), &Json::empty()).unwrap();
    assert_eq!((req.path.as_str(), req.depth, req.principal.id.as_str()), ("/one", 4, "agent:f#u1"));
    assert_eq!(
        run.step_request(&step("two"), &Json::empty()).unwrap_err(),
        "tool \"two\" requires human approval and cannot run unattended inside a flow"
    );
}

#[test]
fn a_failing_step_fails_the_pipeline() {
    let m = manifest();
    let def = flow(FlowKind::Pipeline { steps: vec![step("one"), step("two")] }, None);
    let budget = SharedBudget::new("f", None);
    let mut trail: Vec<AuditEvent> = vec![];
    let mut run = FlowRun::start(&def, &m, "r".into(), &caller(), 0, Json::Null, &mut trail);
    match run.called(Err("boom".into()), 1, &budget, &mut trail) {
        FlowAction::Fail(e) => assert!(e.contains("boom"), "{e}"),
        other => panic!("{other:?}"),
    }
}

#[test]
fn branches_are_collected_in_order_or_merged() {
    let m = manifest();
    let budget = SharedBudget::new("f", None);
    for (merge, expected) in
        [(MergeStrategy::Collect, r#"[{"a":1,"b":1},{"a":2}]"#), (MergeStrategy::Merge, r#"{"a":2,"b":1}"#)]
    {
        let def = flow(FlowKind::Parallel { branches: vec![step("x"), step("y")], merge }, None);
        let mut trail: Vec<AuditEvent> = vec![];
        let mut run = FlowRun::start(&def, &m, "r".into(), &caller(), 0, Json::empty(), &mut trail);
        assert!(matches!(run.first(), FlowAction::CallAll { each } if each.len() == 2));
        let outcomes = vec![(Ok(json(r#"{"a":1,"b":1}"#)), 1), (Ok(json(r#"{"a":2}"#)), 2)];
        assert!(matches!(run.called_all(outcomes, &budget, &mut trail), FlowAction::Finish(_)));
        assert_eq!(run.value.to_text(), expected);
    }
}

#[test]
fn a_router_runs_the_branch_that_the_model_chose() {
    let m = manifest();
    let mut routes = Table::new();
    routes.insert("billing", step("bill"));
    routes.insert("support", step("help"));
    let def = flow(
        FlowKind::Route { routes, default: Some(step("other")), classify_with: None, classify_prompt: None },
        None,
    );
    let mut budget = SharedBudget::new("f", None);
    let mut ledger = Ledger::new(0);
    for (said, tool) in [("BILLING", "bill"), ("support", "help"), ("nonsense", "other")] {
        let mut trail: Vec<AuditEvent> = vec![];
        let mut run = FlowRun::start(&def, &m, "r".into(), &caller(), 0, json("\"hi\""), &mut trail);
        match run.first() {
            FlowAction::Classify(c) => {
                assert_eq!(c.agent.model, "fast");
                assert_eq!(c.tools.len(), 1);
            }
            other => panic!("{other:?}"),
        }
        let call = ToolCall {
            id: "1".into(),
            name: "choose".into(),
            arguments: json(&format!(r#"{{"label":"{said}"}}"#)),
        };
        match run.classified(Ok(reply(vec![call], "")), 1, &mut budget, &mut ledger, &mut trail) {
            FlowAction::Call { step, .. } => assert_eq!(step.tool, tool),
            other => panic!("{other:?}"),
        }
    }
    assert_eq!(budget.used(), 45);
}

#[test]
fn a_number_is_kept_as_it_was_written() {
    assert!(matches!(json("3"), Json::Number(Number::Unsigned(3))));
    assert!(matches!(json("-3"), Json::Number(Number::Negative(-3))));
}
