use webcortex::auth::{Principal, PrincipalKind, Root};
use webcortex::behaviour::{
    in_flight, is_nesting_ceiling, model_question, parse_gather_item, settle_model, AskOptions, BehaviourContext,
    GatherItem, Halt,
};
use webcortex::bridge::{delivered, NoBridge};
use webcortex::budget::SharedBudget;
use webcortex::json::{parse, Json, Members, Number};
use webcortex::ledger::Ledger;
use webcortex::manifest::{
    Approval, AuthConfig, BehaviourDef, ContextDef, ContextSource, CorsConfig, Manifest, ModelsConfig, Op,
    RateLimitConfig, Route, SecurityHeaders, ServerConfig, ToolExposure,
};
use webcortex::provider::{ProviderResponse, StopReason, ToolCall};
use webcortex::table::Table;

fn json(text: &str) -> Json {
    parse(text).expect("test value parses")
}

fn route(id: u32, path: &str, tool: &str, approval: Approval) -> Route {
    Route {
        id,
        method: "GET".into(),
        path: path.into(),
        op: Op::Static { status: 200, body: json("{}") },
        summary: String::new(),
        description: String::new(),
        input_schema: None,
        output_schema: None,
        tool: ToolExposure { expose: true, name: Some(tool.into()), ..ToolExposure::default() },
        scopes: vec![],
        approval,
        validate_body: false,
    }
}

fn manifest() -> Manifest {
    Manifest {
        name: "t".into(),
        version: "0.1.0".into(),
        description: String::new(),
        server: ServerConfig::default(),
        database: None,
        routes: vec![
            route(0, "/safe", "safe", Approval::Never),
            route(1, "/other", "other", Approval::Never),
            route(2, "/danger", "danger", Approval::Required),
        ],
        upstreams: Table::new(),
        agents: vec![],
        behaviours: vec![],
        auth: AuthConfig {
            api_keys: Table::new(),
            api_key_header: "x-api-key".into(),
            jwt: None,
            anonymous_scopes: vec![],
        },
        cors: CorsConfig::default(),
        rate_limit: RateLimitConfig::default(),
        security_headers: SecurityHeaders::default(),
        templates: None,
        models: ModelsConfig { aliases: Table::new(), providers: Table::new(), pricing: Table::new() },
        contexts: vec![ContextDef {
            name: "rules".into(),
            description: String::new(),
            source: ContextSource::Static { value: json("1") },
            max_chars: 40,
        }],
        flows: vec![],
    }
}

fn def(tools: &[&str], max_steps: u32, token_budget: Option<u64>) -> BehaviourDef {
    BehaviourDef {
        name: "nightly".into(),
        description: String::new(),
        handler: 1,
        tools: tools.iter().map(|t| t.to_string()).collect(),
        scopes: vec![],
        max_steps,
        token_budget,
        model: "house".into(),
        max_tokens: 100,
        temperature: Some(Number::Unsigned(1)),
        input_schema: None,
        context: vec!["rules".into(), "gone".into()],
    }
}

fn principal() -> Principal {
    Principal { id: "u1".into(), kind: PrincipalKind::Agent, scopes: vec!["read".into()], claims: Members::new() }
}

fn reply(text: &str, calls: Vec<ToolCall>, input: u64) -> ProviderResponse {
    ProviderResponse {
        text: text.into(),
        tool_calls: calls,
        stop_reason: StopReason::EndTurn,
        input_tokens: input,
        output_tokens: 1,
        cache_read_tokens: 2,
        cache_write_tokens: 3,
        model: "house".into(),
        raw_content: Json::Null,
    }
}

fn respond(args: &str) -> ToolCall {
    ToolCall { id: "1".into(), name: "respond".into(), arguments: json(args) }
}

const PLAIN: AskOptions<'static> =
    AskOptions { schema: None, system: None, model: None, max_tokens: None, temperature: None };

fn said<T>(r: Result<T, Halt>) -> String {
    match r {
        Ok(_) => panic!("was let through"),
        Err(Halt::Halted(m)) => format!("halted: {m}"),
        Err(Halt::Denied(m)) => format!("denied: {m}"),
        Err(Halt::Failed(m)) => format!("failed: {m}"),
        Err(Halt::Invalid(m)) => format!("invalid: {m}"),
    }
}

#[test]
fn an_undeclared_tool_is_denied_and_a_gated_one_halts() {
    let m = manifest();
    let d = def(&["safe", "danger"], 10, None);
    let mut ctx = BehaviourContext::new(&m, &d, "r".into(), principal(), 1);
    assert!(ctx.call("safe").is_ok());
    assert_eq!(
        said(ctx.call("other")),
        "denied: behaviour \"nightly\" may not call \"other\"; declared tools: safe, danger"
    );
    assert_eq!(
        said(ctx.call("danger")),
        "halted: tool \"danger\" requires human approval and cannot run unattended inside a behaviour"
    );
    assert_eq!(ctx.steps, 1, "a refused call is no step");
}

#[test]
fn the_step_budget_stops_a_loop() {
    let m = manifest();
    let d = def(&[], 2, None);
    let mut ctx = BehaviourContext::new(&m, &d, "r".into(), principal(), 1);
    assert!(ctx.call("safe").is_ok() && ctx.call("safe").is_ok());
    assert_eq!(said(ctx.call("safe")), "halted: behaviour \"nightly\" exceeded its step budget of 2");
    let mut fresh = BehaviourContext::new(&m, &d, "r".into(), principal(), 1);
    assert!(fresh.charge_steps(2).is_ok());
    assert!(fresh.charge_steps(1).is_err());
}

#[test]
fn a_call_is_made_under_the_runs_own_authority() {
    let m = manifest();
    let d = def(&[], 2, None);
    let ctx = BehaviourContext::new(&m, &d, "r".into(), principal(), 4);
    let req = ctx.call_request("safe", &json(r#"{"q":1}"#)).unwrap();
    assert_eq!((req.path.as_str(), req.depth, req.principal.id.as_str()), ("/safe", 4, "u1"));
    assert!(ctx.call_request("ghost", &json("{}")).is_err());
}

#[test]
fn failures_are_raised_and_the_ceiling_halts() {
    let m = manifest();
    let d = def(&[], 10, None);
    let mut ctx = BehaviourContext::new(&m, &d, "r".into(), principal(), 1);
    assert_eq!(ctx.settle_call("safe", Ok(json("7")), 5).unwrap().as_u64(), Some(7));
    assert_eq!(said(ctx.settle_call("safe", Err("boom".into()), 5)), "failed: boom");
    let deep = "tool safe failed with 508: nested";
    assert_eq!(
        said(ctx.settle_call("safe", Err(deep.into()), 5)),
        format!("halted: behaviour \"nightly\" was stopped: {deep}")
    );
    let kinds: Vec<_> = ctx.trace.iter().map(|e| e.kind.as_str()).collect();
    assert_eq!(kinds, vec!["call", "call_failed", "call_failed"]);
    assert_eq!(ctx.trace[1].to_json().to_text(), r#"{"detail":{"error":"boom"},"duration_ms":5,"kind":"call_failed","label":"safe"}"#);
    assert!(!is_nesting_ceiling("508") && is_nesting_ceiling(deep));
}

#[test]
fn several_calls_raise_the_first_failure_or_keep_each_in_place() {
    let m = manifest();
    let d = def(&[], 10, None);
    let names = vec!["a".to_string(), "b".to_string(), "c".to_string()];
    let outcomes = || vec![Ok(json("1")), Err("x".to_string()), Err("y".to_string())];
    let mut ctx = BehaviourContext::new(&m, &d, "r".into(), principal(), 1);
    assert_eq!(said(ctx.gathered(&names, outcomes(), false, 1)), "failed: b: x");
    let kept = ctx.gathered(&names, outcomes(), true, 1).unwrap();
    let shown: Vec<_> = kept.iter().map(|j| j.to_text()).collect();
    assert_eq!(shown, vec!["1", r#"{"error":"x","ok":false}"#, r#"{"error":"y","ok":false}"#]);
    assert_eq!(ctx.trace.len(), 6);
}

#[test]
fn gather_items_come_in_three_shapes() {
    let shown = |item| parse_gather_item(item).map(|(n, a)| format!("{n} {}", a.to_text()));
    assert_eq!(shown(GatherItem::Name("t".into())).unwrap(), "t {}");
    assert_eq!(shown(GatherItem::Pair("t".into(), None)).unwrap(), "t {}");
    assert_eq!(shown(GatherItem::Pair("t".into(), Some(json(r#"{"a":1}"#)))).unwrap(), r#"t {"a":1}"#);
    assert_eq!(
        said(shown(GatherItem::Pair("t".into(), Some(json("[]"))))),
        "invalid: gather: the second element must be a dict of arguments"
    );
    let mut rest = Members::new();
    rest.put("a", json("2"));
    assert_eq!(shown(GatherItem::Fields { tool: Some("t".into()), rest }).unwrap(), r#"t {"a":2}"#);
    assert!(said(shown(GatherItem::Fields { tool: None, rest: Members::new() })).starts_with("invalid: gather items"));
    assert!(said(shown(GatherItem::Other)).starts_with("invalid: gather items"));
    let m = manifest();
    let d = def(&["safe"], 10, None);
    let ctx = BehaviourContext::new(&m, &d, "r".into(), principal(), 1);
    assert!(ctx.gather_item(GatherItem::Name("safe".into())).is_ok());
    assert!(said(ctx.gather_item(GatherItem::Name("other".into()))).starts_with("denied"));
}

#[test]
fn a_question_takes_the_behaviours_settings_unless_told_otherwise() {
    let m = manifest();
    let d = def(&[], 10, None);
    let mut ctx = BehaviourContext::new(&m, &d, "r".into(), principal(), 1);
    let plain = ctx.ask("why?", &PLAIN).unwrap();
    assert_eq!((plain.def.model.as_str(), plain.def.max_tokens, plain.structured), ("house", 100, false));
    assert!(plain.request().force_tool.is_none());
    let schema = json(r#"{"type":"object"}"#);
    let temperature = Number::Unsigned(0);
    let options = AskOptions {
        schema: Some(&schema),
        system: Some("brief"),
        model: Some("fast"),
        max_tokens: Some(5),
        temperature: Some(&temperature),
    };
    let shaped = ctx.ask("why?", &options).unwrap();
    let req = shaped.request();
    assert_eq!(req.force_tool, Some("respond"));
    assert_eq!(req.tools[0].description, "Respond with structured output in the required shape.");
    assert_eq!((shaped.def.model.as_str(), shaped.def.system.as_str(), shaped.def.max_tokens), ("fast", "brief", 5));
    assert_eq!(ctx.steps, 2);
}

#[test]
fn replies_are_charged_before_they_are_read() {
    let m = manifest();
    let d = def(&[], 10, Some(20));
    let mut ctx = BehaviourContext::new(&m, &d, "r".into(), principal(), 1);
    let mut budget = SharedBudget::for_behaviour(&d);
    let mut ledger = Ledger::new(0);
    let text = ctx.settle_ask(Ok(reply("hé", vec![], 4)), false, 1, &mut budget, &mut ledger).unwrap();
    assert_eq!(text.as_str(), Some("hé"));
    assert_eq!(ctx.trace[0].detail.get_u64("chars"), Some(3));
    assert_eq!(budget.used(), 10);
    let shaped = ctx.settle_ask(Ok(reply("", vec![respond(r#"{"a":1}"#)], 4)), true, 1, &mut budget, &mut ledger);
    assert_eq!(shaped.unwrap().to_text(), r#"{"a":1}"#);
    let over = ctx.settle_ask(Ok(reply("x", vec![], 4)), false, 1, &mut budget, &mut ledger);
    assert!(said(over).starts_with("halted: the request tree rooted at \"behaviour:nightly\""));
    assert_eq!(ctx.input_tokens, 12, "what was spent is counted");
    assert_eq!(ledger.entry(0).1.calls, 3);
    let mut roomy = SharedBudget::new("t", None);
    let own = ctx.settle_ask(Ok(reply("x", vec![], 4)), false, 1, &mut roomy, &mut ledger);
    assert_eq!(said(own), "halted: behaviour \"nightly\" exhausted its token budget of 20");
}

#[test]
fn a_shape_is_recovered_from_prose_or_refused() {
    let m = manifest();
    let d = def(&[], 10, None);
    let mut ctx = BehaviourContext::new(&m, &d, "r".into(), principal(), 1);
    let mut budget = SharedBudget::for_behaviour(&d);
    let mut ledger = Ledger::new(0);
    let ok = ctx.settle_ask(Ok(reply("```json\n{\"a\": 1}\n```", vec![], 1)), true, 1, &mut budget, &mut ledger);
    assert_eq!(ok.unwrap().to_text(), r#"{"a":1}"#);
    let no = ctx.settle_ask(Ok(reply("", vec![], 1)), true, 1, &mut budget, &mut ledger);
    assert_eq!(said(no), "failed: model did not return structured output; it said: <nothing>");
    let down = ctx.settle_ask(Err("down".into()), true, 1, &mut budget, &mut ledger);
    assert_eq!(said(down), "failed: down");
    assert_eq!(ctx.trace.last().unwrap().kind, "ask_failed");
}

#[test]
fn many_questions_come_back_in_order_up_to_the_first_failure() {
    let m = manifest();
    let d = def(&[], 3, None);
    let mut ctx = BehaviourContext::new(&m, &d, "r".into(), principal(), 1);
    let mut budget = SharedBudget::for_behaviour(&d);
    let mut ledger = Ledger::new(0);
    let asks = ctx.ask_many(&vec!["a".into(), "b".into()], &PLAIN).unwrap();
    assert_eq!(asks[1].conversation.messages[0].content.as_str(), Some("b"));
    let replies = vec![Ok(reply("1", vec![], 1)), Ok(reply("2", vec![], 1))];
    let out = ctx.settle_many(replies, false, 1, &mut budget, &mut ledger).unwrap();
    assert_eq!((out[0].as_str(), out[1].as_str()), (Some("1"), Some("2")));
    let replies = vec![Ok(reply("1", vec![], 1)), Err("x".into()), Ok(reply("3", vec![], 1))];
    assert_eq!(said(ctx.settle_many(replies, false, 1, &mut budget, &mut ledger)), "failed: x");
    assert_eq!(ledger.entry(0).1.calls, 3, "the third reply was not looked at");
    assert!(ctx.ask_many(&vec!["c".into(), "d".into()], &PLAIN).is_err());
    assert_eq!((in_flight(0), in_flight(8), in_flight(1000)), (1, 8, 64));
}

#[test]
fn only_declared_context_is_within_reach() {
    let m = manifest();
    let d = def(&[], 3, None);
    let mut ctx = BehaviourContext::new(&m, &d, "r".into(), principal(), 1);
    assert_eq!(ctx.context("rules").unwrap().name, "rules");
    assert_eq!(
        said(ctx.context("secrets")),
        "denied: behaviour \"nightly\" did not declare context \"secrets\"; declared: rules, gone"
    );
    assert_eq!(said(ctx.context("gone")), "failed: context \"gone\" is not declared");
    assert_eq!(ctx.settle_context("rules", Ok(json("[1]")), 1).unwrap().to_text(), "[1]");
    assert_eq!(ctx.trace[0].detail.get_u64("chars"), Some(3));
    assert!(ctx.settle_context("rules", Err("x".into()), 1).is_err());
}

#[test]
fn a_behaviour_can_look_at_itself() {
    let m = manifest();
    let d = def(&[], 3, Some(7));
    let mut ctx = BehaviourContext::new(&m, &d, "r9".into(), principal(), 1);
    ctx.log("hello");
    assert_eq!((ctx.trace[0].kind.as_str(), ctx.trace[0].label.as_str()), ("log", "hello"));
    assert!(matches!(ctx.halt("enough"), Halt::Halted(m) if m == "enough"));
    assert_eq!(ctx.tools(), vec!["safe", "other", "danger"]);
    assert_eq!(ctx.contexts(), vec!["rules", "gone"]);
    assert_eq!(
        ctx.user(&Root::of(&Principal { id: "boss".into(), ..principal() })).to_text(),
        r#"{"authenticated":true,"id":"u1","root_id":"boss","scopes":["read"]}"#
    );
    assert_eq!(
        ctx.usage(&SharedBudget::new("t", Some(5))).to_text(),
        r#"{"cache_tokens":0,"depth":1,"input_tokens":0,"max_steps":3,"output_tokens":0,"steps":0,"token_budget":7,"tree_budget":5,"tree_tokens":0}"#
    );
    assert_eq!(ctx.describe(), "<BehaviourContext nightly run=r9 steps=0/3>");
}

#[test]
fn the_command_line_asks_one_question() {
    let schema = json("{}");
    let ask = model_question("fast", "sys", "why?", Some(&schema), 9);
    assert_eq!((ask.def.name.as_str(), ask.structured), ("webcortex-cli", true));
    assert_eq!(ask.tools[0].description, "Respond in the required shape.");
    assert_eq!(settle_model(reply("text", vec![], 1), false).unwrap(), "text");
    assert_eq!(settle_model(reply("", vec![respond(r#"{"a":1}"#)], 1), true).unwrap(), r#"{"a":1}"#);
    assert_eq!(
        settle_model(reply("", vec![], 1), true).unwrap_err(),
        "model did not return structured output; it said: "
    );
}

#[test]
fn without_an_interpreter_handlers_are_refused() {
    assert_eq!(
        NoBridge.call(3).unwrap_err(),
        "route requires Python handler 3, but this runtime was built without an interpreter"
    );
    assert_eq!(
        NoBridge.call_behaviour("b").unwrap_err(),
        "behaviour \"b\" requires an interpreter, but this runtime was built without one"
    );
    assert_eq!(NoBridge.workers(), 0);
    let res = delivered(201, b"x".to_vec(), "text/csv", &vec![("a".into(), "b".into())]);
    assert_eq!(res.headers, vec![("content-type".to_string(), "text/csv".to_string()), ("a".into(), "b".into())]);
}
