use webcortex::conversation::{Conversation, Message};
use webcortex::json::{parse, Json, Number};
use webcortex::manifest::{AgentDef, ContextPolicy, ModelsConfig, Price, ProviderDef};
use webcortex::provider::CompletionRequest;
use webcortex::registry::{CompletionStep, ProviderRegistry};
use webcortex::table::Table;

const DEFAULT: &str = "house-large";
const FAST: &str = "house-small";

fn empty() -> ModelsConfig {
    ModelsConfig { aliases: Table::new(), providers: Table::new(), pricing: Table::new() }
}

fn price(input: u64, output: u64) -> Price {
    Price {
        input_per_mtok: Number::Unsigned(input),
        output_per_mtok: Number::Unsigned(output),
        cache_read_per_mtok: Number::Unsigned(0),
        cache_write_per_mtok: Number::Unsigned(0),
    }
}

fn cfg() -> ModelsConfig {
    let mut c = empty();
    c.aliases.insert("fast", "ollama/qwen3.5:9b".into());
    c.aliases.insert("local", "fast".into());
    c.providers.insert(
        "groq",
        ProviderDef { kind: "openai".into(), base_url: "https://x.test/v1".into(), api_key_env: None },
    );
    c.pricing.insert(DEFAULT, price(1, 2));
    c
}

fn env(pairs: &[(&str, &str)]) -> Table<String> {
    let mut t = Table::new();
    for (k, v) in pairs {
        t.insert(k, v.to_string());
    }
    t
}

#[test]
fn aliases_chain_and_user_aliases_override_builtins() {
    let c = cfg();
    let r = ProviderRegistry::from_env(&c, &env(&[]), DEFAULT, FAST);
    assert_eq!(r.resolve_alias("local"), "ollama/qwen3.5:9b");
    assert_eq!(r.resolve_alias("default"), DEFAULT);
    assert_eq!(r.resolve_alias("house-large"), "house-large");
}

#[test]
fn a_cyclic_alias_terminates() {
    let mut c = empty();
    c.aliases.insert("a", "b".into());
    c.aliases.insert("b", "a".into());
    let r = ProviderRegistry::from_env(&c, &env(&[]), DEFAULT, FAST);
    let _ = r.resolve_alias("a");
}

#[test]
fn prefixes_route_to_the_right_provider_and_are_stripped() {
    let c = cfg();
    let r = ProviderRegistry::from_env(&c, &env(&[]), DEFAULT, FAST);
    let (p, name) = r.route("ollama/qwen3.5:9b").expect("ollama is built in");
    assert_eq!(p.name(), "ollama");
    assert_eq!(name, "qwen3.5:9b");
    let (p, name) = r.route("groq/llama").expect("declared provider");
    assert_eq!(p.name(), "openai-compatible");
    assert_eq!(name, "llama");
}

#[test]
fn an_unknown_prefix_is_a_clear_error() {
    let c = cfg();
    let r = ProviderRegistry::from_env(&c, &env(&[]), DEFAULT, FAST);
    let err = match r.route("nope/model") {
        Err(e) => e,
        Ok(_) => panic!("an unknown prefix must not resolve"),
    };
    assert!(err.contains("not declared"), "{err}");
}

#[test]
fn pricing_ignores_the_provider_prefix() {
    let c = cfg();
    let r = ProviderRegistry::from_env(&c, &env(&[]), DEFAULT, FAST);
    assert!(r.price_for("anthropic/house-large").is_some());
    assert!(r.price_for("ollama/qwen3.5:9b").is_none());
}

#[test]
fn a_built_in_alias_stands_until_it_is_declared() {
    let c = empty();
    let r = ProviderRegistry::from_env(&c, &env(&[]), DEFAULT, FAST);
    assert_eq!(r.resolve_alias("fast"), FAST);
    assert_eq!(r.resolve_alias("anything else"), "anything else");
}

fn agent(model: &str) -> AgentDef {
    AgentDef {
        name: "a".into(),
        description: String::new(),
        model: model.into(),
        system: String::new(),
        tools: vec![],
        max_steps: None,
        token_budget: None,
        scopes: vec![],
        temperature: None,
        max_tokens: 64,
        handoffs: vec![],
        context: vec![],
        cache: false,
        policy: ContextPolicy::default(),
    }
}

#[test]
fn a_completion_is_posted_and_reported_under_the_applications_name() {
    let c = cfg();
    let r = ProviderRegistry::from_env(&c, &env(&[]), DEFAULT, FAST);
    let def = agent("local");
    let conversation = Conversation { messages: vec![Message::new("user", Json::str("hi"))] };
    let req =
        CompletionRequest { agent: &def, conversation: &conversation, tools: &[], force_tool: None, system_suffix: "" };
    let done = r.complete(&req).expect("routes");
    assert_eq!(done.concrete, "ollama/qwen3.5:9b");
    assert_eq!(done.wire, "qwen3.5:9b");
    match &done.step {
        CompletionStep::Post(call) => {
            assert_eq!(call.body.get_str("model"), Some("qwen3.5:9b"));
            assert!(call.url.ends_with("/chat/completions"), "{}", call.url);
        }
        CompletionStep::Answer(_) => panic!("nothing answers by itself"),
    }
    let reply = parse(r#"{"model":"other","choices":[{"message":{"content":"yes"},"finish_reason":"stop"}]}"#).unwrap();
    let settled = done.settle(200, "OK", &reply).unwrap();
    assert_eq!(settled.text, "yes");
    assert_eq!(settled.model, "ollama/qwen3.5:9b");
}

#[test]
fn the_fake_provider_answers_without_a_post() {
    let c = empty();
    let r = ProviderRegistry::from_env(&c, &env(&[("WEBCORTEX_FAKE_PROVIDER", "1")]), DEFAULT, FAST);
    let def = agent("default");
    let conversation = Conversation { messages: vec![Message::new("user", Json::str("hi"))] };
    let req =
        CompletionRequest { agent: &def, conversation: &conversation, tools: &[], force_tool: None, system_suffix: "" };
    assert!(r.fake);
    assert!(matches!(r.complete(&req).unwrap().step, CompletionStep::Answer(_)));
    assert!(r.describe().to_text().contains("\"ollama\""));
}
