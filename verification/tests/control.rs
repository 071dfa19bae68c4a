use webcortex::audit::AuditEvent;
use webcortex::auth::{Principal, PrincipalKind};
use webcortex::control::{control_plane, inspect_manifest, native_routes, Control, Live};
use webcortex::http::PylonResponse;
use webcortex::json::{parse, Json, Members};
use webcortex::manifest::{
    AgentDef, ApiKeySpec, Approval, AuthConfig, BehaviourDef, ContextDef, ContextPolicy, ContextSource, CorsConfig,
    FlowDef, FlowKind, FlowStep, Manifest, MergeStrategy, ModelsConfig, Op, RateLimitConfig, Route, SecurityHeaders,
    ServerConfig, ToolExposure,
};
use webcortex::openapi::{body_schema, generate, path_param_names};
use webcortex::table::Table;

fn json(text: &str) -> Json {
    parse(text).expect("test value parses")
}

fn route(id: u32, method: &str, path: &str, op: Op) -> Route {
    Route {
        id,
        method: method.into(),
        path: path.into(),
        op,
        summary: String::new(),
        description: "d".into(),
        input_schema: None,
        output_schema: None,
        tool: ToolExposure::default(),
        scopes: vec![],
        approval: Approval::Never,
        validate_body: false,
    }
}

fn fixed() -> Op {
    Op::Static { status: 200, body: json("{}") }
}

fn manifest() -> Manifest {
    let mut users = route(0, "PUT", "/users/{id}", fixed());
    users.tool.expose = true;
    users.tool.name = Some("put_user".into());
    users.approval = Approval::Required;
    users.input_schema = Some(json(
        r#"{"type":"object","properties":{"id":{"type":"integer"},"name":{"type":"string"}},"required":["id","name"]}"#,
    ));
    let mut guarded = route(1, "GET", "/users/{id}", Op::Python { handler: 0 });
    guarded.scopes = vec!["read".into()];
    let mut routes = Table::new();
    routes.insert("x", FlowStep { tool: "put_user".into(), input: None });
    Manifest {
        name: "shop".into(),
        version: "1.2.3".into(),
        description: "sells".into(),
        server: ServerConfig::default(),
        database: None,
        routes: vec![users, guarded, route(2, "GET", "/site", Op::Files { dir: "s".into(), index: None, cache_secs: 1 })],
        upstreams: Table::new(),
        agents: vec![AgentDef {
            name: "helper".into(),
            description: String::new(),
            model: "m".into(),
            system: String::new(),
            tools: vec!["put_user".into()],
            max_steps: None,
            token_budget: None,
            scopes: vec![],
            temperature: None,
            max_tokens: 10,
            handoffs: vec![],
            context: vec![],
            cache: false,
            policy: ContextPolicy::default(),
        }],
        behaviours: vec![BehaviourDef {
            name: "nightly".into(),
            description: String::new(),
            handler: 1,
            tools: vec![],
            scopes: vec![],
            max_steps: 50,
            token_budget: Some(9),
            model: "m".into(),
            max_tokens: 10,
            temperature: None,
            input_schema: None,
            context: vec![],
        }],
        auth: AuthConfig {
            api_keys: Table::new(),
            api_key_header: "x-api-key".into(),
            jwt: None,
            anonymous_scopes: vec![],
        },
        cors: CorsConfig::default(),
        rate_limit: RateLimitConfig::default(),
        security_headers: SecurityHeaders::default(),
        templates: None,
        models: ModelsConfig { aliases: Table::new(), providers: Table::new(), pricing: Table::new() },
        contexts: vec![ContextDef {
            name: "rules".into(),
            description: String::new(),
            source: ContextSource::Static { value: json("1") },
            max_chars: 40,
        }],
        flows: vec![
            FlowDef {
                name: "sorted".into(),
                description: String::new(),
                kind: FlowKind::Route { routes, default: None, classify_with: None, classify_prompt: None },
                scopes: vec![],
                token_budget: None,
                input_schema: None,
            },
            FlowDef {
                name: "wide".into(),
                description: String::new(),
                kind: FlowKind::Parallel { branches: vec![], merge: MergeStrategy::Merge },
                scopes: vec![],
                token_budget: None,
                input_schema: None,
            },
        ],
    }
}

fn live() -> Live {
    Live {
        workers: 2,
        sessions: 3,
        usage: json(r#"{"runs":1}"#),
        models: json(r#"{"fake":true}"#),
        approvals: vec![json(r#"{"approval_id":"a1"}"#)],
        events: vec![AuditEvent {
            kind: "k".into(),
            run_id: "r".into(),
            actor: None,
            tool: Some("t".into()),
            detail: Json::Null,
        }],
    }
}

fn admin() -> Principal {
    Principal {
        id: "root".into(),
        kind: PrincipalKind::ApiKey,
        scopes: vec!["webcortex:admin".into()],
        claims: Members::new(),
    }
}

fn ask(m: &Manifest, p: &Principal, method: &str, rest: &str, body: &str) -> Control {
    control_plane(m, &live(), method, rest, body.as_bytes(), p, "req-1")
}

fn reply(c: Control) -> PylonResponse {
    match c {
        Control::Reply(r) => r,
        Control::Decide { .. } | Control::Mcp => panic!("not answered at once"),
    }
}

fn get(m: &Manifest, rest: &str) -> Json {
    let res = reply(ask(m, &admin(), "GET", rest, ""));
    assert_eq!(res.status, 200, "{rest}");
    res.json_value()
}

#[test]
fn health_counts_what_is_there() {
    assert_eq!(
        get(&manifest(), "/health").to_text(),
        r#"{"agents":1,"app":"shop","behaviours":1,"flows":2,"pending_approvals":1,"python_workers":2,"routes":3,"sessions":3,"status":"ok","tools":1,"version":"1.2.3"}"#
    );
}

#[test]
fn each_listing_says_what_was_declared() {
    let m = manifest();
    assert_eq!(get(&m, "/usage").to_text(), r#"{"runs":1}"#);
    assert_eq!(get(&m, "/models").to_text(), r#"{"fake":true}"#);
    assert_eq!(get(&m, "/approvals").to_text(), r#"{"approvals":[{"approval_id":"a1"}]}"#);
    assert_eq!(get(&m, "/audit").to_text(), r#"{"events":[{"kind":"k","run_id":"r","tool":"t"}]}"#);
    assert_eq!(
        get(&m, "/contexts").to_text(),
        r#"{"contexts":[{"description":"","kind":"static","max_chars":40,"name":"rules"}]}"#
    );
    let flows = get(&m, "/flows");
    let flows = flows.get_array("flows").unwrap();
    assert_eq!(
        flows[0].get("kind").unwrap().to_text(),
        r#"{"classify_prompt":null,"classify_with":null,"default":null,"kind":"route","routes":{"x":{"input":null,"tool":"put_user"}}}"#
    );
    assert_eq!(flows[1].get("kind").unwrap().to_text(), r#"{"branches":[],"kind":"parallel","merge":"merge"}"#);
    let tools = get(&m, "/tools");
    let tools = tools.get_array("tools").unwrap();
    assert_eq!(tools.len(), 1);
    assert_eq!(tools[0].get_str("approval"), Some("required"));
    let routes = get(&m, "/routes");
    let routes = routes.get_array("routes").unwrap();
    assert_eq!(routes[0].get_str("tool"), Some("put_user"));
    assert!(routes[1].get("tool").unwrap().is_null());
    assert_eq!(routes[1].get_str("op"), Some("python"));
    assert!(get(&m, "/agents").to_text().contains(
        r#""policy":{"compact_with":null,"keep_recent":6,"max_context_tokens":null,"max_tool_result_bytes":16384}"#
    ));
    assert!(get(&m, "/behaviours").to_text().contains(r#""token_budget":9"#));
    assert_eq!(get(&m, "/mcp").get_str("transport"), Some("streamable-http"));
    let security = get(&m, "/security");
    assert_eq!(security.get("public_routes").unwrap().to_text(), r#"["PUT /users/{id}","GET /site"]"#);
    assert_eq!(security.get("gated_tools").unwrap().to_text(), r#"["put_user"]"#);
}

#[test]
fn without_the_admin_scope_only_health_is_shown() {
    let mut m = manifest();
    m.auth.api_keys.insert("K", ApiKeySpec { id: "k".into(), scopes: vec![] });
    let known = Principal { scopes: vec!["read".into()], ..admin() };
    assert_eq!(reply(ask(&m, &Principal::anonymous(), "GET", "/tools", "")).status, 401);
    assert_eq!(reply(ask(&m, &known, "POST", "/mcp", "{}")).status, 403);
    assert_eq!(reply(ask(&m, &Principal::anonymous(), "GET", "/health", "")).status, 200);
    assert!(matches!(ask(&m, &admin(), "POST", "/mcp", "{}"), Control::Mcp));
}

#[test]
fn a_decision_names_its_run() {
    let m = manifest();
    match ask(&m, &admin(), "POST", "/approvals/abc/", r#"{"approve": false, "note": "no"}"#) {
        Control::Decide { id, approve, note } => assert_eq!((id.as_str(), approve, note.as_str()), ("abc", false, "no")),
        Control::Reply(_) | Control::Mcp => panic!("a decision was made"),
    }
    for body in ["", "{}", r#"{"approve":"yes"}"#] {
        assert_eq!(reply(ask(&m, &admin(), "POST", "/approvals/abc", body)).status, 400);
    }
}

#[test]
fn an_unknown_endpoint_names_the_request() {
    let res = reply(ask(&manifest(), &admin(), "DELETE", "/tools", ""));
    assert_eq!(res.status, 404);
    assert!(res.json_value().to_text().contains("no control endpoint DELETE /tools (request req-1)"));
}

#[test]
fn the_document_covers_the_routes_that_are_no_pages() {
    let doc = generate(&manifest());
    assert_eq!(doc.get_str("openapi"), Some("3.1.0"));
    let paths = doc.get("paths").unwrap();
    assert!(paths.get("/site").is_none());
    let item = paths.get("/users/{id}").unwrap();
    assert!(item.get("put").is_some() && item.get("get").is_some());
    let put = item.get("put").unwrap();
    assert_eq!(put.get_str("operationId"), Some("put_user"));
    assert_eq!(
        put.get("parameters").unwrap().to_text(),
        r#"[{"in":"path","name":"id","required":true,"schema":{"type":"integer"}}]"#
    );
    assert_eq!(
        put.get("requestBody").unwrap().to_text(),
        r#"{"content":{"application/json":{"schema":{"properties":{"name":{"type":"string"}},"required":["name"],"type":"object"}}},"required":true}"#
    );
    assert!(item.get("get").unwrap().get("requestBody").is_none());
    assert_eq!(doc.get("x-webcortex").unwrap().get_str("mcp_endpoint"), Some("/_webcortex/mcp"));
}

#[test]
fn a_body_without_path_parameters_is_the_schema_itself() {
    let mut r = route(0, "POST", "/things", fixed());
    assert!(body_schema(&r).is_none());
    r.input_schema = Some(json(r#"{"required":["a"]}"#));
    assert_eq!(body_schema(&r).unwrap().to_text(), r#"{"required":["a"]}"#);
    assert_eq!(path_param_names(&route(0, "GET", "/a/{b}/c/{d}", fixed())), vec!["b", "d"]);
}

#[test]
fn an_inspection_counts_native_routes() {
    let mut m = manifest();
    assert_eq!(native_routes(&m.routes), 2);
    m.agents[0].tools.push("ghost".into());
    assert!(inspect_manifest(&m).unwrap_err().starts_with("invalid application: "));
    m.agents[0].tools.pop();
    m.flows.clear();
    let report = inspect_manifest(&m).expect("sound");
    assert_eq!(
        report.to_text(),
        r#"{"agents":["helper"],"behaviours":["nightly"],"contexts":["rules"],"flows":[],"name":"shop","native_routes":2,"routes":3,"tools":["put_user"]}"#
    );
}
