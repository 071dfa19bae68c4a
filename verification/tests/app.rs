use webcortex::app::{
    agent_call, answer_query, depth_exceeded, is_traversal, local_principal, page_context, proxied, proxy, required_scopes, settle_tool,
    substitute_path, tool_request, App, Step,
};
use webcortex::auth::Principal;
use webcortex::http::{coerce_scalar, parse_query, PylonRequest, PylonResponse};
use webcortex::json::{parse, Json};
use webcortex::manifest::{
    Approval, AuthConfig, CorsConfig, Manifest, ModelsConfig, Op, QueryReturns, RateLimitConfig, Route, SecurityHeaders,
    ServerConfig, ToolExposure, Upstream,
};
use webcortex::mcp::{handle, Item};
use webcortex::table::Table;

fn json(text: &str) -> Json {
    parse(text).expect("test value parses")
}

fn fixed(body: &str) -> Op {
    Op::Static { status: 200, body: json(body) }
}

fn route(id: u32, method: &str, path: &str, op: Op) -> Route {
    Route {
        id,
        method: method.into(),
        path: path.into(),
        op,
        summary: String::new(),
        description: String::new(),
        input_schema: None,
        output_schema: None,
        tool: ToolExposure::default(),
        scopes: vec![],
        approval: Approval::Never,
        validate_body: false,
    }
}

fn exposed(mut r: Route, name: &str) -> Route {
    r.tool.expose = true;
    r.tool.name = Some(name.into());
    r
}

fn manifest(routes: Vec<Route>) -> Manifest {
    Manifest {
        name: "t".into(),
        version: "0.1.0".into(),
        description: String::new(),
        server: ServerConfig::default(),
        database: None,
        routes,
        upstreams: Table::new(),
        agents: vec![],
        behaviours: vec![],
        auth: AuthConfig {
            api_keys: Table::new(),
            api_key_header: "x-api-key".into(),
            jwt: None,
            anonymous_scopes: vec![],
        },
        cors: CorsConfig::default(),
        rate_limit: RateLimitConfig::default(),
        security_headers: SecurityHeaders::default(),
        templates: None,
        models: ModelsConfig { aliases: Table::new(), providers: Table::new(), pricing: Table::new() },
        contexts: vec![],
        flows: vec![],
    }
}

fn app(m: &Manifest) -> App<'_> {
    App::build(m, &Table::new()).expect("app builds")
}

fn dispatch(app: &App<'_>, mut req: PylonRequest) -> PylonResponse {
    match app.dispatch(&mut req, false) {
        Step::Respond(res) => res,
        other => panic!("not answered at once: {other:?}"),
    }
}

fn call_tool(app: &App<'_>, tool: &str, args: &Json, scopes: Vec<String>) -> Result<Json, String> {
    let req = tool_request(app.manifest, tool, args, &local_principal(scopes), 0)?;
    settle_tool(tool, &dispatch(app, req))
}

#[test]
fn static_route_serves_without_an_interpreter() {
    let m = manifest(vec![route(0, "GET", "/ping", fixed(r#"{"pong": true}"#))]);
    let res = dispatch(&app(&m), PylonRequest::synthetic("GET", "/ping"));
    assert_eq!(res.status, 200);
    assert_eq!(res.json_value().to_text(), r#"{"pong":true}"#);
}

#[test]
fn unknown_path_404s_and_wrong_method_405s() {
    let m = manifest(vec![route(0, "GET", "/ping", fixed("{}"))]);
    let app = app(&m);
    assert_eq!(dispatch(&app, PylonRequest::synthetic("GET", "/nope")).status, 404);
    assert_eq!(dispatch(&app, PylonRequest::synthetic("POST", "/ping")).status, 405);
}

#[test]
fn undeclared_upstream_fails_at_boot_not_at_request_time() {
    let m = manifest(vec![route(0, "GET", "/x", Op::Proxy { upstream: "ghost".into(), rewrite: None })]);
    let err = match App::build(&m, &Table::new()) {
        Err(e) => e,
        Ok(_) => panic!("an undeclared upstream should have failed validation"),
    };
    assert!(err.contains("ghost"), "unexpected error: {err}");
}

#[test]
fn exposed_route_is_callable_as_a_tool_in_process() {
    let m = manifest(vec![exposed(route(0, "GET", "/ping", fixed(r#"{"pong": true}"#)), "ping")]);
    let out = call_tool(&app(&m), "ping", &json("{}"), vec![]).expect("tool call succeeds");
    assert_eq!(out.to_text(), r#"{"pong":true}"#);
}

#[test]
fn scoped_routes_reject_callers_without_the_scope() {
    let mut r = exposed(route(0, "GET", "/secret", fixed(r#"{"ok": true}"#)), "secret");
    r.tool.scopes = vec!["admin".into()];
    let m = manifest(vec![r]);
    let app = app(&m);

    // Anonymous gets 401: the client can fix this by authenticating.
    assert_eq!(dispatch(&app, PylonRequest::synthetic("GET", "/secret")).status, 401);

    // A known principal holding the wrong scope gets 403: authenticating
    // again will not help, and conflating the two makes auth bugs opaque.
    let wrong_scope = PylonRequest::synthetic_with_scopes("GET", "/secret", &["reader"]);
    assert_eq!(dispatch(&app, wrong_scope).status, 403);

    assert!(call_tool(&app, "secret", &json("{}"), vec!["admin".into()]).is_ok());
}

#[test]
fn mcp_lists_only_exposed_routes() {
    let m = manifest(vec![
        exposed(route(0, "GET", "/a", fixed("{}")), "a"),
        route(1, "GET", "/b", fixed("{}")),
    ]);
    let ex = handle(&m, &Principal::anonymous(), br#"{"jsonrpc":"2.0","id":1,"method":"tools/list"}"#).expect("understood");
    let res = ex.respond(&vec![]).json_value();
    let tools = res.get("result").unwrap().get_array("tools").expect("tools array");
    assert_eq!(tools.len(), 1);
    assert_eq!(tools[0].get_str("name"), Some("a"));
}

#[test]
fn mcp_notifications_get_no_response_body() {
    let m = manifest(vec![]);
    let ex = handle(&m, &Principal::anonymous(), br#"{"jsonrpc":"2.0","method":"notifications/initialized"}"#).expect("understood");
    let res = ex.respond(&vec![]);
    assert_eq!(res.status, 202);
    assert!(res.body.is_empty());
}

#[test]
fn mcp_calls_are_answered_in_order() {
    let m = manifest(vec![exposed(route(0, "GET", "/a", fixed("{}")), "a")]);
    let body = br#"[{"jsonrpc":"2.0","id":1,"method":"tools/call","params":{"name":"a","arguments":{}}},
        {"jsonrpc":"2.0","method":"notifications/x"},
        {"jsonrpc":"2.0","id":2,"method":"nope"}]"#;
    let ex = handle(&m, &Principal::anonymous(), body).expect("understood");
    let out = ex.respond(&vec![Ok(json(r#"{"n":1}"#))]).json_value();
    match out {
        Json::Array(list) => {
            assert_eq!(list.len(), 2);
            assert_eq!(list[0].get_u64("id"), Some(1));
            assert!(list[0].to_text().contains("n"), "{}", list[0].to_text());
            assert!(list[1].get("error").is_some());
        }
        other => panic!("{other:?}"),
    }
    let bad = handle(&m, &Principal::anonymous(), b"not json").unwrap_err();
    assert_eq!(bad.status, 200);
    assert!(bad.json_value().to_text().contains("-32700"));
}

#[test]
fn a_tool_list_shows_only_what_that_caller_can_invoke() {
    let mut guarded = exposed(route(1, "GET", "/b", fixed("{}")), "b");
    guarded.scopes = vec!["read".into()];
    let m = manifest(vec![exposed(route(0, "GET", "/a", fixed("{}")), "a"), guarded]);
    let names = |p: &Principal| {
        let ex = handle(&m, p, br#"{"jsonrpc":"2.0","id":1,"method":"tools/list"}"#).unwrap();
        let res = ex.respond(&vec![]).json_value();
        let tools = res.get("result").unwrap().get_array("tools").unwrap();
        tools.iter().map(|t| t.get_str("name").unwrap().to_string()).collect::<Vec<_>>()
    };
    assert_eq!(names(&Principal::anonymous()), vec!["a"]);
    assert_eq!(names(&local_principal(vec!["read".into()])), vec!["a", "b"]);
}

#[test]
fn a_gated_tool_is_refused_over_the_protocol() {
    let mut danger = exposed(route(0, "POST", "/danger", fixed("{}")), "danger");
    danger.approval = Approval::Required;
    let m = manifest(vec![danger, exposed(route(1, "GET", "/a", fixed("{}")), "a")]);
    let p = local_principal(vec!["*".into()]);
    let body = br#"{"jsonrpc":"2.0","id":1,"method":"tools/call","params":{"name":"danger"}}"#;
    let said = handle(&m, &p, body).unwrap().respond(&vec![]).json_value().to_text();
    assert!(said.contains("requires human approval") && said.contains("\"isError\":true"), "{said}");
    let body = br#"{"jsonrpc":"2.0","id":1,"method":"tools/call","params":{"name":"a"}}"#;
    match &handle(&m, &p, body).unwrap().items[0] {
        Item::Call { name, asked, .. } => {
            let req = asked.as_ref().unwrap();
            assert_eq!((name.as_str(), req.path.as_str(), req.principal.id.as_str()), ("a", "/a", "local"));
        }
        other => panic!("{other:?}"),
    }
}

#[test]
fn arguments_reach_the_path_the_query_and_the_body() {
    let m = manifest(vec![
        exposed(route(0, "GET", "/users/{id}", fixed("{}")), "get_user"),
        exposed(route(1, "POST", "/users/{id}", fixed("{}")), "put_user"),
    ]);
    let p = Principal::anonymous();
    let got = tool_request(&m, "get_user", &json(r#"{"id": 7, "q": "x"}"#), &p, 3).unwrap();
    assert_eq!(got.path, "/users/7");
    assert_eq!(got.query.get("q").unwrap(), "x");
    assert_eq!(got.depth, 3);
    let put = tool_request(&m, "put_user", &json(r#"{"id": 7, "q": "x"}"#), &p, 0).unwrap();
    assert_eq!(String::from_utf8(put.body).unwrap(), r#"{"id":7,"q":"x"}"#);
    assert!(tool_request(&m, "ghost", &json("{}"), &p, 0).is_err());
}

#[test]
fn path_parameters_are_bound_by_the_route() {
    let m = manifest(vec![route(0, "GET", "/users/{id}", fixed("{}"))]);
    let mut req = PylonRequest::synthetic("GET", "/users/a%20b");
    let _ = app(&m).dispatch(&mut req, false);
    assert_eq!(req.route_id, Some(0));
    assert!(req.path_params.get("id").is_some());
}

#[test]
fn traversal_is_seen_through_two_encodings() {
    assert_eq!(is_traversal("%252e%252e"), Some(true));
    assert_eq!(is_traversal(".."), Some(true));
    assert_eq!(is_traversal("a%2fb"), Some(true));
    assert_eq!(is_traversal("plain"), Some(false));
}

fn escaped(v: &str) -> String {
    v.bytes().map(|b| format!("%{b:02x}")).collect()
}

#[test]
fn a_traversal_is_seen_in_every_encoding_and_an_ordinary_name_in_none() {
    for v in ["..", "a/b", "a\\b", "a\0b", "/%ff", "..%", "x..y"] {
        assert_eq!(is_traversal(v), Some(true), "{v:?}");
        assert_eq!(is_traversal(&escaped(v)), Some(true), "{v:?}");
        assert_eq!(is_traversal(&escaped(&escaped(v)).to_uppercase()), Some(true), "{v:?}");
    }
    for v in ["", "v1.2-rc_3", ".a.b.", "Z"] {
        assert_eq!(is_traversal(v), Some(false), "{v:?}");
        assert_eq!(is_traversal(&escaped(v)), Some(false), "{v:?}");
        assert_eq!(is_traversal(&escaped(&escaped(v))), Some(false), "{v:?}");
    }
    assert_eq!(is_traversal("%252f%ff"), Some(true));
}

#[test]
fn a_template_takes_its_parameters() {
    let mut params = Table::new();
    params.insert("id", "7".to_string());
    assert_eq!(substitute_path("/v1/{id}/x", &params), "/v1/7/x");
}

#[test]
fn a_proxied_request_keeps_below_its_upstream() {
    let mut m = manifest(vec![]);
    m.upstreams.insert(
        "up",
        Upstream { base_url: "https://x.test/api/".into(), headers: Table::new(), bearer_env: None, timeout_ms: 5 },
    );
    let mut req = PylonRequest::synthetic("GET", "/orders/7");
    req.path_params.insert("id", "7".into());
    req.query.insert("q", "1".into());
    let call = proxy(&m, "up", Some("/v2/{id}"), Some("tok"), &req).unwrap().unwrap();
    assert_eq!(call.url, "https://x.test/api/v2/7");
    assert_eq!(call.timeout_ms, 5);
    assert!(call.headers.contains(&("authorization".into(), "Bearer tok".into())));
    assert_eq!(call.query, vec![("q".to_string(), "1".to_string())]);
    req.path_params.insert("id", "..".into());
    assert_eq!(proxy(&m, "up", Some("/v2/{id}"), None, &req).unwrap().unwrap_err().status, 400);
    assert!(proxy(&m, "ghost", None, None, &req).is_err());
    let answer = proxied(201, Some("text/plain"), b"ok".to_vec());
    assert_eq!((answer.status, answer.body), (201, b"ok".to_vec()));
}

#[test]
fn the_callers_credentials_are_not_forwarded() {
    let mut m = manifest(vec![]);
    m.upstreams.insert(
        "up",
        Upstream { base_url: "https://x.test".into(), headers: Table::new(), bearer_env: None, timeout_ms: 5 },
    );
    let mut req = PylonRequest::synthetic("GET", "/orders");
    req.headers = Table::new();
    req.headers.insert("authorization", "Bearer mine".into());
    req.headers.insert("cookie", "a=b".into());
    req.headers.insert("accept", "text/plain".into());
    let call = proxy(&m, "up", None, None, &req).unwrap().unwrap();
    assert_eq!(call.headers, vec![("accept".to_string(), "text/plain".to_string())]);
}

#[test]
fn a_route_demands_what_either_site_declares() {
    let mut r = route(1, "GET", "/a", fixed("1"));
    r.scopes = vec!["write".into(), "read".into()];
    r.tool.scopes = vec!["read".into(), "admin".into()];
    assert_eq!(required_scopes(&r), vec!["admin", "read", "write"]);
}

#[test]
fn nesting_is_refused_at_the_ceiling() {
    assert!(depth_exceeded(7, 8).is_none());
    let res = depth_exceeded(8, 8).unwrap();
    assert_eq!(res.status, 508);
}

#[test]
fn a_query_that_finds_nothing_is_404_only_for_one_row() {
    assert_eq!(answer_query(&Json::Null, QueryReturns::One).status, 404);
    assert_eq!(answer_query(&json("[]"), QueryReturns::Many).status, 200);
    assert_eq!(answer_query(&json(r#"{"affected":0}"#), QueryReturns::Affected).status, 200);
}

#[test]
fn an_agent_needs_input() {
    let mut req = PylonRequest::synthetic("POST", "/a");
    assert_eq!(agent_call(&req).unwrap_err().status, 400);
    req.body = br#"{"input":"go","session_id":"s"}"#.to_vec();
    req.depth = 4;
    let call = agent_call(&req).unwrap();
    assert_eq!(call.input, "go");
    assert_eq!((call.opts.session_id.as_deref(), call.opts.reset_session, call.opts.depth), (Some("s"), false, 4));
}

#[test]
fn a_page_sees_its_data_and_the_request() {
    let req = PylonRequest::synthetic("GET", "/p");
    let ctx = page_context(Some(("data".into(), json("[1]"))), &req);
    assert_eq!(ctx.get("data").unwrap().to_text(), "[1]");
    assert!(ctx.to_text().contains("\"path\":\"/p\""), "{}", ctx.to_text());
}

#[test]
fn queries_are_decoded_and_scalars_coerced() {
    let q = parse_query("a=1&b=x%20y&c=p+q&d");
    assert_eq!(q.get("b").unwrap(), "x y");
    assert_eq!(q.get("c").unwrap(), "p q");
    assert_eq!(q.get("d").unwrap(), "");
    assert_eq!(coerce_scalar("7").as_u64(), Some(7));
    assert!(matches!(coerce_scalar("true"), Json::Bool(true)));
    assert_eq!(coerce_scalar("1.5").to_text(), "1.5");
    assert_eq!(coerce_scalar("abc").as_str(), Some("abc"));
}
