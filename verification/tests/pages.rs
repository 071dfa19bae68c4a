use webcortex::agent::system_suffix;
use webcortex::app::{
    behaviour_call, page_answer, page_data, page_rows, params_decodable, settle_behaviour, App, PageStep, Step,
};
use webcortex::audit::AuditEvent;
use webcortex::auth::{Principal, PrincipalKind};
use webcortex::budget::SharedBudget;
use webcortex::http::{query_is_clean, PylonRequest, PylonResponse};
use webcortex::json::{parse, Json, Members};
use webcortex::manifest::{
    default_api_key_header, default_behaviour_steps, default_bind, default_cache_secs, default_context_chars,
    default_jwt_alg, default_jwt_leeway, default_max_tokens, default_page_status, default_pool_size,
    default_provider_kind, default_status, default_temperature, default_timeout_ms, default_version, AgentDef, Approval, AuthConfig,
    BehaviourDef, ContextPolicy, CorsConfig, DatabaseConfig, FlowDef, FlowKind, FlowStep, Manifest, ModelsConfig, Op,
    PageData, QueryReturns, RateLimitConfig, Route, SecurityHeaders, ServerConfig, TemplateConfig, ToolExposure,
    Upstream,
};
use webcortex::run::RunStatus;
use webcortex::runtime::{Action, Run, RunOptions};
use webcortex::session::SessionStore;
use webcortex::table::Table;

fn json(text: &str) -> Json {
    parse(text).expect("test value parses")
}

fn route(id: u32, method: &str, path: &str, op: Op) -> Route {
    Route {
        id,
        method: method.into(),
        path: path.into(),
        op,
        summary: String::new(),
        description: String::new(),
        input_schema: None,
        output_schema: None,
        tool: ToolExposure::default(),
        scopes: vec![],
        approval: Approval::Never,
        validate_body: false,
    }
}

fn agent() -> AgentDef {
    AgentDef {
        name: "a".into(),
        description: String::new(),
        model: "m".into(),
        system: String::new(),
        tools: vec![],
        max_steps: None,
        token_budget: Some(5),
        scopes: vec![],
        temperature: None,
        max_tokens: 10,
        handoffs: vec![],
        context: vec![],
        cache: false,
        policy: ContextPolicy::default(),
    }
}

fn manifest() -> Manifest {
    let mut upstreams = Table::new();
    upstreams.insert(
        "up",
        Upstream {
            base_url: "https://x.test".into(),
            headers: Table::new(),
            bearer_env: Some("UP_TOKEN".into()),
            timeout_ms: 1,
        },
    );
    let page = |t: &str| Op::Page { template: t.into(), data: PageData::Empty, status: 200 };
    Manifest {
        name: "t".into(),
        version: "0.1.0".into(),
        description: String::new(),
        server: ServerConfig::default(),
        database: Some(DatabaseConfig { url: "sqlite::memory:".into(), max_connections: 1 }),
        routes: vec![
            route(0, "GET", "/", page("index.html")),
            route(1, "GET", "/other", page("other.html")),
            route(2, "POST", "/b", Op::Behaviour { behaviour: "nightly".into(), handler: 4 }),
            route(3, "GET", "/up", Op::Proxy { upstream: "up".into(), rewrite: None }),
            route(4, "GET", "/q", Op::Query { sql: "select ?".into(), params: vec!["n".into()], returns: QueryReturns::Many }),
            route(5, "GET", "/s/{*path}", Op::Files { dir: "s".into(), index: None, cache_secs: 1 }),
            route(6, "GET", "/h", Op::Python { handler: 9 }),
            route(7, "POST", "/f", Op::Flow { flow: "brief".into() }),
        ],
        upstreams,
        agents: vec![agent()],
        behaviours: vec![BehaviourDef {
            name: "nightly".into(),
            description: String::new(),
            handler: 4,
            tools: vec![],
            scopes: vec!["read".into()],
            max_steps: 5,
            token_budget: None,
            model: "m".into(),
            max_tokens: 10,
            temperature: None,
            input_schema: None,
            context: vec![],
        }],
        auth: AuthConfig {
            api_keys: Table::new(),
            api_key_header: "x-api-key".into(),
            jwt: None,
            anonymous_scopes: vec![],
        },
        cors: CorsConfig::default(),
        rate_limit: RateLimitConfig::default(),
        security_headers: SecurityHeaders::default(),
        templates: Some(TemplateConfig { dir: "t".into(), autoescape: true }),
        models: ModelsConfig { aliases: Table::new(), providers: Table::new(), pricing: Table::new() },
        contexts: vec![],
        flows: vec![FlowDef {
            name: "brief".into(),
            description: String::new(),
            kind: FlowKind::Pipeline { steps: vec![FlowStep { tool: "x".into(), input: None }] },
            scopes: vec![],
            token_budget: Some(7),
            input_schema: None,
        }],
    }
}

fn app(m: &Manifest) -> App<'_> {
    let mut env = Table::new();
    env.insert("UP_TOKEN", "tok".to_string());
    App::build(m, &env).expect("app builds")
}

#[test]
fn each_operation_takes_its_own_step() {
    let mut m = manifest();
    m.flows[0].kind = FlowKind::Pipeline { steps: vec![FlowStep { tool: "create_f".into(), input: None }] };
    m.routes[2].tool.expose = true;
    m.routes[2].tool.name = Some("create_f".into());
    let a = app(&m);
    assert_eq!(a.upstream_tokens.get("up").map(|t| t.as_str()), Some("tok"));
    assert_eq!(a.page_templates(), vec!["index.html", "other.html"]);
    assert!(a.needs_model());
    let ask = |method: &str, path: &str| {
        let mut req = PylonRequest::synthetic(method, path);
        req.query.insert("n", "5".into());
        a.dispatch(&mut req, true)
    };
    assert!(matches!(ask("GET", "/"), Step::Page { template: "index.html", status: 200, .. }));
    assert!(matches!(ask("POST", "/b"), Step::Behaviour { name: "nightly" }));
    assert!(matches!(ask("GET", "/up"), Step::Proxy { upstream: "up", rewrite: None }));
    match ask("GET", "/q") {
        Step::Query { sql, bindings, shape } => {
            assert_eq!((sql, bindings[0].as_u64(), shape), ("select ?", Some(5), QueryReturns::Many));
        }
        other => panic!("{other:?}"),
    }
    assert!(matches!(ask("GET", "/s/a/b.css"), Step::Files { relative } if relative == "a/b.css"));
    assert!(matches!(ask("GET", "/h"), Step::Handler { handler: 9 }));
    assert!(matches!(ask("POST", "/f"), Step::Flow { flow, .. } if flow.name == "brief"));
    assert!(a.runs_a_model_loop("POST", "/f") && a.runs_a_model_loop("POST", "/b") && !a.runs_a_model_loop("GET", "/h"));
}

#[test]
fn page_data_comes_from_its_source() {
    let req = PylonRequest::synthetic("GET", "/");
    assert!(matches!(page_data(&PageData::Empty, false, &req), Ok(PageStep::Ready(None))));
    let fixed = PageData::Static { value: json("7") };
    match page_data(&fixed, false, &req).unwrap() {
        PageStep::Ready(Some((name, value))) => assert_eq!((name.as_str(), value.as_u64()), ("data", Some(7))),
        other => panic!("{other:?}"),
    }
    let query =
        PageData::Query { sql: "s".into(), params: vec![], returns: QueryReturns::One, bind: "row".into() };
    assert_eq!(page_data(&query, false, &req).unwrap_err(), "no database configured");
    assert!(matches!(page_data(&query, true, &req), Ok(PageStep::Query { bind: "row", .. })));
    assert!(matches!(page_data(&PageData::Python { handler: 2 }, false, &req), Ok(PageStep::Call { handler: 2 })));
    assert_eq!(page_rows(Json::Null, QueryReturns::One, "row").unwrap_err().status, 404);
    assert!(page_rows(json("[]"), QueryReturns::Many, "rows").unwrap().is_some());
    assert_eq!(page_answer(PylonResponse::error(503, "x")).unwrap_err().status, 503);
    let given = page_answer(PylonResponse::json(200, &json(r#"{"a":1}"#))).unwrap().unwrap();
    assert_eq!(given.1.to_text(), r#"{"a":1}"#);
}

#[test]
fn a_behaviour_runs_with_less_authority_and_one_level_deeper() {
    let m = manifest();
    let mut req = PylonRequest::synthetic_with_scopes("POST", "/b", &["write"]);
    req.body = br#"{"x":1}"#.to_vec();
    req.depth = 2;
    let (call, event) = behaviour_call(&m, "nightly", &req).unwrap();
    assert!(call.actor.scopes.is_empty());
    assert_eq!((call.depth, call.input.to_text().as_str()), (3, r#"{"x":1}"#));
    assert_eq!((event.kind.as_str(), event.tool.as_deref()), ("behaviour_started", Some("nightly")));
    assert!(behaviour_call(&m, "ghost", &req).is_err());
    let (res, none) = settle_behaviour("nightly", "u", &Ok(json("1")));
    assert!(res.status == 200 && none.is_none());
    let (res, event) = settle_behaviour("nightly", "u", &Err("boom".into()));
    assert_eq!((res.status, event.unwrap().kind.as_str()), (500, "behaviour_failed"));
}

#[test]
fn a_run_without_its_context_does_not_start() {
    let m = manifest();
    let caller =
        Principal { id: "u1".into(), kind: PrincipalKind::ApiKey, scopes: vec![], claims: Members::new() };
    let mut sessions = SessionStore::new(1, 1);
    let mut trail: Vec<AuditEvent> = vec![];
    let run = Run::start("r".into(), &m, &m.agents[0], &caller, "hi", &RunOptions::default(), &mut sessions, 0);
    let out = run.not_started("no context".into(), &mut trail);
    assert_eq!((out.status, out.steps[0].error.as_deref()), (RunStatus::Failed, Some("no context")));
    assert_eq!(trail[0].kind, "agent_failed");
    let mut run = Run::start("r".into(), &m, &m.agents[0], &caller, "hi", &RunOptions::default(), &mut sessions, 0);
    let action = run.begin(system_suffix(&m.agents[0], "ctx"), &SharedBudget::for_agent(&m.agents[0]), &mut trail);
    assert!(matches!(action, Action::Complete));
    assert_eq!(run.st.system_suffix, "ctx");
}

#[test]
fn budgets_are_labelled_by_their_root() {
    let m = manifest();
    let b = SharedBudget::for_flow(&m.flows[0]);
    assert_eq!((b.label.as_str(), b.max_tokens), ("flow:brief", Some(7)));
    assert_eq!(SharedBudget::for_agent(&m.agents[0]).label, "agent:a");
    assert_eq!(SharedBudget::for_behaviour(&m.behaviours[0]).label, "behaviour:nightly");
}

#[test]
fn escapes_that_split_a_character_are_told_apart() {
    assert!(query_is_clean("a=%41&b=é"));
    assert!(!query_is_clean("a=%aé"));
    let mut params = Table::new();
    params.insert("p", "%41".to_string());
    assert!(params_decodable(&params));
    params.insert("p", "%aé".to_string());
    assert!(!params_decodable(&params));
}

#[test]
fn what_is_left_out_of_a_manifest_has_a_default() {
    assert_eq!(default_provider_kind(), "openai");
    assert_eq!(default_api_key_header(), "x-api-key");
    assert_eq!(default_jwt_alg(), "HS256");
    assert_eq!(default_version(), "0.1.0");
    assert_eq!(default_bind(), "data");
    assert_eq!((default_jwt_leeway(), default_timeout_ms(), default_cache_secs()), (30, 30_000, 3600));
    assert_eq!((default_behaviour_steps(), default_max_tokens(), default_pool_size()), (50, 4096, 16));
    assert_eq!(Json::Number(default_temperature()).to_text(), "1.0");
    assert_eq!((default_page_status(), default_status(), default_context_chars()), (200, 200, 4000));
}
