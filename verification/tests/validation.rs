use webcortex::json::{parse, Json, Number};
use webcortex::manifest::{
    AgentDef, Approval, AuthConfig, BehaviourDef, ContextDef, ContextPolicy, ContextSource, CorsConfig, FlowDef,
    FlowKind, FlowStep, Manifest, MergeStrategy, ModelsConfig, Op, PageData, QueryReturns, RateLimitConfig, Route,
    SecurityHeaders, ServerConfig, ToolExposure,
};
use webcortex::table::Table;
use webcortex::validation::{edit_distance, nearest};

fn json(text: &str) -> Json {
    parse(text).expect("test value parses")
}

fn fixed() -> Op {
    Op::Static { status: 200, body: json("{}") }
}

fn route(id: u32, path: &str, op: Op) -> Route {
    Route {
        id,
        method: "GET".into(),
        path: path.into(),
        op,
        summary: String::new(),
        description: String::new(),
        input_schema: None,
        output_schema: None,
        tool: ToolExposure::default(),
        scopes: vec![],
        approval: Approval::Never,
        validate_body: false,
    }
}

fn tool(id: u32, path: &str, name: &str) -> Route {
    let mut r = route(id, path, fixed());
    r.tool.expose = true;
    r.tool.name = Some(name.into());
    r
}

fn agent(name: &str) -> AgentDef {
    AgentDef {
        name: name.into(),
        description: String::new(),
        model: "m".into(),
        system: String::new(),
        tools: vec!["list_books".into()],
        max_steps: Some(3),
        token_budget: None,
        scopes: vec![],
        temperature: None,
        max_tokens: 10,
        handoffs: vec![],
        context: vec!["rules".into()],
        cache: false,
        policy: ContextPolicy::default(),
    }
}

fn behaviour(name: &str) -> BehaviourDef {
    BehaviourDef {
        name: name.into(),
        description: String::new(),
        handler: 0,
        tools: vec!["list_books".into()],
        scopes: vec![],
        max_steps: 5,
        token_budget: None,
        model: "m".into(),
        max_tokens: 10,
        temperature: None,
        input_schema: None,
        context: vec![],
    }
}

fn step(tool: &str) -> FlowStep {
    FlowStep { tool: tool.into(), input: None }
}

fn flow(name: &str, kind: FlowKind) -> FlowDef {
    FlowDef {
        name: name.into(),
        description: String::new(),
        kind,
        scopes: vec![],
        token_budget: None,
        input_schema: None,
    }
}

fn manifest() -> Manifest {
    Manifest {
        name: "t".into(),
        version: "0.1.0".into(),
        description: String::new(),
        server: ServerConfig::default(),
        database: None,
        routes: vec![tool(0, "/books", "list_books"), route(1, "/plain", fixed())],
        upstreams: Table::new(),
        agents: vec![agent("helper")],
        behaviours: vec![behaviour("nightly")],
        auth: AuthConfig {
            api_keys: Table::new(),
            api_key_header: "x-api-key".into(),
            jwt: None,
            anonymous_scopes: vec![],
        },
        cors: CorsConfig::default(),
        rate_limit: RateLimitConfig::default(),
        security_headers: SecurityHeaders::default(),
        templates: None,
        models: ModelsConfig { aliases: Table::new(), providers: Table::new(), pricing: Table::new() },
        contexts: vec![ContextDef {
            name: "rules".into(),
            description: String::new(),
            source: ContextSource::Static { value: json("1") },
            max_chars: 40,
        }],
        flows: vec![flow("brief", FlowKind::Pipeline { steps: vec![step("list_books")] })],
    }
}

fn fault(change: impl Fn(&mut Manifest)) -> String {
    let mut m = manifest();
    change(&mut m);
    m.validate().expect_err("must not pass")
}

#[test]
fn a_sound_manifest_passes() {
    assert!(manifest().validate().is_ok());
}

#[test]
fn routes_must_be_distinct_and_lead_somewhere() {
    assert_eq!(fault(|m| m.routes.push(route(2, "/plain", fixed()))), "duplicate route GET /plain");
    let op = |op: Op| fault(move |m| m.routes.push(route(2, "/x", clone_op(&op))));
    assert_eq!(
        op(Op::Proxy { upstream: "ghost".into(), rewrite: None }),
        "route GET /x proxies to undeclared upstream \"ghost\""
    );
    assert_eq!(
        op(Op::Agent { agent: "ghost".into(), stream: false }),
        "route GET /x invokes undeclared agent \"ghost\""
    );
    assert_eq!(op(Op::Flow { flow: "ghost".into() }), "route GET /x invokes undeclared flow \"ghost\"");
    assert_eq!(
        op(Op::Query { sql: "select 1".into(), params: vec![], returns: QueryReturns::Many }),
        "route GET /x runs a query but no database is configured"
    );
    assert_eq!(
        op(Op::Page { template: "p.html".into(), data: PageData::Empty, status: 200 }),
        "route GET /x renders a template but no template directory is configured; pass templates=... to WebCortex()"
    );
    assert_eq!(
        fault(|m| m.routes[1].approval = Approval::Required),
        "route GET /plain requires approval but is not exposed as a tool; approval gates only apply to agent tool calls"
    );
}

fn clone_op(op: &Op) -> Op {
    match op {
        Op::Proxy { upstream, .. } => Op::Proxy { upstream: upstream.clone(), rewrite: None },
        Op::Agent { agent, .. } => Op::Agent { agent: agent.clone(), stream: false },
        Op::Flow { flow } => Op::Flow { flow: flow.clone() },
        Op::Query { sql, .. } => Op::Query { sql: sql.clone(), params: vec![], returns: QueryReturns::Many },
        Op::Page { template, .. } => Op::Page { template: template.clone(), data: PageData::Empty, status: 200 },
        _ => fixed(),
    }
}

#[test]
fn names_are_not_given_twice() {
    assert_eq!(fault(|m| m.agents.push(agent("helper"))), "duplicate agent name \"helper\"");
    assert_eq!(fault(|m| m.behaviours.push(behaviour("nightly"))), "duplicate behaviour name \"nightly\"");
    assert_eq!(
        fault(|m| m.routes.push(tool(2, "/more", "list_books"))),
        "two routes both expose the tool name \"list_books\"; set tool_name= on one of them"
    );
    let again = || flow("brief", FlowKind::Pipeline { steps: vec![step("list_books")] });
    assert_eq!(fault(|m| m.flows.push(again())), "duplicate flow name \"brief\"");
    let same = || ContextDef {
        name: "rules".into(),
        description: String::new(),
        source: ContextSource::Static { value: json("1") },
        max_chars: 40,
    };
    assert_eq!(fault(|m| m.contexts.push(same())), "duplicate context provider name");
}

#[test]
fn a_typo_fails_with_a_suggestion() {
    assert_eq!(
        fault(|m| m.agents[0].tools = vec!["list_boks".into()]),
        "agent \"helper\" references tool \"list_boks\", which is not an exposed route. Did you mean \"list_books\"?"
    );
    let hand = fault(|m| {
        m.agents.push(agent("billing"));
        m.agents[0].handoffs = vec!["biling".into()];
    });
    assert_eq!(
        hand,
        "agent \"helper\" hands off to \"biling\", which is not a declared agent. Did you mean \"billing\"?"
    );
    let context = fault(|m| m.agents[0].context = vec!["rulez".into()]);
    assert_eq!(
        context,
        "agent \"helper\" names context \"rulez\", which is not declared; declare it with app.context(...). \
         Did you mean \"rules\"?"
    );
    let known = fault(|m| m.behaviours[0].context = vec!["rule".into()]);
    assert!(known.ends_with("Did you mean \"rules\"?"), "{known}");
    let strange = fault(|m| m.agents[0].context = vec!["zzzzzzzzzzzz".into()]);
    assert_eq!(
        strange,
        "agent \"helper\" names context \"zzzzzzzzzzzz\", which is not declared; declare it with app.context(...)"
    );
    let own = fault(|m| m.behaviours[0].tools = vec!["list_bookss".into()]);
    assert!(own.ends_with("Did you mean \"list_books\"?"), "{own}");
    let far = fault(|m| m.agents[0].tools = vec!["zzzzzzzzzzzz".into()]);
    assert!(!far.contains("Did you mean"), "{far}");
}

#[test]
fn what_could_never_act_is_refused() {
    assert_eq!(
        fault(|m| m.agents[0].max_steps = Some(0)),
        "agent \"helper\" has max_steps=0 and could never act"
    );
    assert_eq!(
        fault(|m| m.behaviours[0].max_steps = 0),
        "behaviour \"nightly\" has max_steps=0 and could never do anything"
    );
    assert_eq!(
        fault(|m| m.agents[0].handoffs = vec!["helper".into()]),
        "agent \"helper\" lists itself as a handoff target"
    );
    assert_eq!(
        fault(|m| {
            m.agents[0].policy.max_context_tokens = Some(10);
            m.agents[0].policy.keep_recent = 0;
        }),
        "agent \"helper\" has keep_recent=0; a compaction must keep at least one recent turn"
    );
    let zero = |n: fn() -> Number| {
        fault(move |m| {
            m.rate_limit.enabled = true;
            m.rate_limit.per_second = n();
        })
    };
    for n in [|| Number::Unsigned(0), || Number::Negative(-1)] {
        assert_eq!(zero(n), "rate_limit.per_second must be greater than zero");
    }
    assert!(fault(|m| {
        m.cors.enabled = true;
        m.cors.allow_credentials = true;
        m.cors.allow_origins = vec!["*".into()];
    })
    .contains('*'));
}

#[test]
fn flows_need_steps_that_are_there() {
    let kind = |f: fn() -> FlowKind| fault(move |m| m.flows[0].kind = f());
    assert_eq!(kind(|| FlowKind::Pipeline { steps: vec![] }), "flow \"brief\" is a pipeline with no steps");
    assert_eq!(
        kind(|| FlowKind::Parallel { branches: vec![], merge: MergeStrategy::Collect }),
        "flow \"brief\" is a parallel with no branches"
    );
    assert_eq!(
        kind(|| FlowKind::Route {
            routes: Table::new(),
            default: None,
            classify_with: None,
            classify_prompt: None
        }),
        "flow \"brief\" is a router with no routes"
    );
    assert_eq!(
        kind(|| FlowKind::Pipeline { steps: vec![step("list_book")] }),
        "flow \"brief\" references tool \"list_book\", which is not an exposed route. Did you mean \"list_books\"?"
    );
    assert_eq!(
        kind(|| FlowKind::Pipeline { steps: vec![step("brief")] }),
        "flow \"brief\" contains itself as a step"
    );
}

#[test]
fn edits_are_counted() {
    assert_eq!(edit_distance("kitten", "sitting"), 3);
    assert_eq!(edit_distance("", "abc"), 3);
    assert_eq!(edit_distance("é", "e"), 1);
    let (direct, there, on) =
        (edit_distance("kitten", "mittens"), edit_distance("kitten", "sitting"), edit_distance("sitting", "mittens"));
    assert!(direct == 2 && direct <= there + on);
    assert_eq!(nearest("biling", &vec!["front".into(), "billing".into()]).as_deref(), Some("billing"));
    assert!(nearest("x", &vec![]).is_none());
}
