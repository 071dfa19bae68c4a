use webcortex::conversation::{Conversation, Message, ToolSpec};
use webcortex::json::{parse, Json};
use webcortex::manifest::{AgentDef, ContextPolicy};
use webcortex::provider::{
    canonical_content, parse_anthropic, parse_openai, recover_json, to_openai_messages, AnthropicProvider,
    CompletionRequest, OpenAiCompatProvider, StopReason, ToolCall,
};
use webcortex::table::Table;

fn json(text: &str) -> Json {
    parse(text).expect("test value parses")
}

fn text(j: Option<&Json>) -> String {
    j.expect("is there").to_text()
}

#[test]
fn provider_parses_a_text_response() {
    let payload = json(
        r#"{
            "content": [{"type": "text", "text": "hello"}],
            "stop_reason": "end_turn",
            "usage": {"input_tokens": 5, "output_tokens": 7,
                      "cache_read_input_tokens": 3, "cache_creation_input_tokens": 2}
        }"#,
    );
    let r = parse_anthropic(&payload, "m").expect("parses");
    assert_eq!(r.text, "hello");
    assert_eq!(r.stop_reason, StopReason::EndTurn);
    assert_eq!((r.input_tokens, r.output_tokens), (5, 7));
    assert_eq!((r.cache_read_tokens, r.cache_write_tokens), (3, 2));
}

#[test]
fn provider_parses_tool_use_including_mixed_content() {
    let payload = json(
        r#"{
            "content": [
                {"type": "text", "text": "let me check"},
                {"type": "tool_use", "id": "t1", "name": "lookup", "input": {"q": "x"}}
            ],
            "stop_reason": "tool_use"
        }"#,
    );
    let r = parse_anthropic(&payload, "m").expect("parses");
    assert_eq!(r.stop_reason, StopReason::ToolUse);
    assert_eq!(r.text, "let me check");
    assert_eq!(r.tool_calls.len(), 1);
    assert_eq!(r.tool_calls[0].name, "lookup");
    assert_eq!(r.tool_calls[0].arguments.to_text(), r#"{"q":"x"}"#);
}

#[test]
fn provider_raw_content_round_trips_for_replay() {
    let content = r#"[{"text":"hi","type":"text"}]"#;
    let r = parse_anthropic(&json(&format!(r#"{{"content": {content}, "stop_reason": "end_turn"}}"#)), "m")
        .expect("parses");
    assert_eq!(r.raw_content.to_text(), content);
}

#[test]
fn provider_a_missing_content_array_is_an_error_not_a_panic() {
    assert!(parse_anthropic(&json(r#"{"stop_reason": "end_turn"}"#), "m").is_err());
}

#[test]
fn provider_max_tokens_is_distinguished_from_a_normal_stop() {
    let r = parse_anthropic(&json(r#"{"content": [], "stop_reason": "max_tokens"}"#), "m").expect("parses");
    assert_eq!(r.stop_reason, StopReason::MaxTokens);
}

#[test]
fn openai_tool_calls_parse_and_arguments_are_decoded_from_their_string_form() {
    let payload = json(
        r#"{
            "model": "qwen3.5:9b",
            "choices": [{
                "finish_reason": "tool_calls",
                "message": {
                    "role": "assistant",
                    "content": null,
                    "tool_calls": [{
                        "id": "call_abc",
                        "type": "function",
                        "function": {"name": "list_books", "arguments": "{\"limit\": 5}"}
                    }]
                }
            }],
            "usage": {"prompt_tokens": 40, "completion_tokens": 9,
                      "prompt_tokens_details": {"cached_tokens": 30}}
        }"#,
    );
    let r = parse_openai(&payload, "ollama/qwen3.5:9b").expect("parses");
    assert_eq!(r.stop_reason, StopReason::ToolUse);
    assert_eq!(r.tool_calls[0].name, "list_books");
    assert_eq!(r.tool_calls[0].arguments.to_text(), r#"{"limit":5}"#);
    assert_eq!(r.cache_read_tokens, 30);
    assert_eq!(r.model, "qwen3.5:9b");
    // The raw content is canonical Anthropic-shaped, so the conversation
    // store never sees provider-specific structure.
    match &r.raw_content {
        Json::Array(blocks) => assert_eq!(blocks[0].get_str("type"), Some("tool_use")),
        other => panic!("not a list of blocks: {other:?}"),
    }
}

#[test]
fn openai_text_answer_parses() {
    let payload = json(
        r#"{
            "choices": [{"finish_reason": "stop",
                         "message": {"role": "assistant", "content": "hello"}}],
            "usage": {"prompt_tokens": 1, "completion_tokens": 1}
        }"#,
    );
    let r = parse_openai(&payload, "m").expect("parses");
    assert_eq!(r.text, "hello");
    assert_eq!(r.stop_reason, StopReason::EndTurn);
}

#[test]
fn canonical_tool_results_become_openai_tool_messages() {
    let content = json(
        r#"[
            {"type": "tool_result", "tool_use_id": "c1", "content": "{\"ok\":true}", "is_error": false},
            {"type": "tool_result", "tool_use_id": "c2", "content": "{\"n\":2}", "is_error": false}
        ]"#,
    );
    let out = to_openai_messages("user", &content);
    assert_eq!(out.len(), 2);
    assert_eq!(out[0].get_str("role"), Some("tool"));
    assert_eq!(out[0].get_str("tool_call_id"), Some("c1"));
    assert_eq!(out[1].get_str("content"), Some("{\"n\":2}"));
}

#[test]
fn canonical_assistant_tool_use_becomes_openai_tool_calls() {
    let content = json(
        r#"[
            {"type": "text", "text": "checking"},
            {"type": "tool_use", "id": "c1", "name": "lookup", "input": {"q": 1}}
        ]"#,
    );
    let out = to_openai_messages("assistant", &content);
    assert_eq!(out.len(), 1);
    assert_eq!(out[0].get_str("content"), Some("checking"));
    let calls = out[0].get_array("tool_calls").unwrap();
    let function = calls[0].get("function").unwrap();
    assert_eq!(function.get_str("name"), Some("lookup"));
    assert_eq!(function.get_str("arguments"), Some("{\"q\":1}"));
}

#[test]
fn json_is_recovered_from_prose_and_fences() {
    let shown = |s: &str| recover_json(s).map(|j| j.to_text());
    assert_eq!(shown(r#"{"a": 1}"#), Some(r#"{"a":1}"#.into()));
    assert_eq!(shown("```json\n{\"a\": 1}\n```"), Some(r#"{"a":1}"#.into()));
    assert_eq!(shown("Sure! Here you go: {\"a\": {\"b\": \"}\"}} done"), Some(r#"{"a":{"b":"}"}}"#.into()));
    assert_eq!(shown("no json here"), None);
    assert_eq!(shown("42"), None, "a bare scalar is not structured output");
}

fn agent() -> AgentDef {
    AgentDef {
        name: "a".into(),
        description: String::new(),
        model: "m".into(),
        system: "be brief".into(),
        tools: vec![],
        max_steps: None,
        token_budget: None,
        scopes: vec![],
        temperature: None,
        max_tokens: 64,
        handoffs: vec![],
        context: vec![],
        cache: true,
        policy: ContextPolicy::default(),
    }
}

fn tool() -> ToolSpec {
    ToolSpec { name: "lookup".into(), description: "d".into(), input_schema: json(r#"{"type":"object"}"#) }
}

#[test]
fn an_anthropic_request_carries_cache_marks_and_the_forced_tool() {
    let def = agent();
    let conversation = Conversation { messages: vec![Message::new("user", Json::str("hi"))] };
    let tools = [tool()];
    let req = CompletionRequest {
        agent: &def,
        conversation: &conversation,
        tools: &tools,
        force_tool: Some("lookup"),
        system_suffix: "context",
    };
    let call = AnthropicProvider::new("key".into(), "https://x.test/".into()).request(&req);
    assert_eq!(call.url, "https://x.test/v1/messages");
    assert!(call.headers.contains(&("x-api-key".into(), "key".into())));
    let body = &call.body;
    assert_eq!(text(body.get("tool_choice")), r#"{"name":"lookup","type":"tool"}"#);
    assert_eq!(
        text(body.get("system")),
        r#"[{"cache_control":{"type":"ephemeral"},"text":"be brief\n\ncontext","type":"text"}]"#
    );
    assert_eq!(text(body.get("messages")), r#"[{"content":"hi","role":"user"}]"#);
    assert_eq!(body.get_u64("max_tokens"), Some(64));
}

#[test]
fn an_openai_request_has_the_system_prompt_as_a_message() {
    let def = agent();
    let conversation = Conversation { messages: vec![Message::new("user", Json::str("hi"))] };
    let req = CompletionRequest {
        agent: &def,
        conversation: &conversation,
        tools: &[],
        force_tool: None,
        system_suffix: "",
    };
    let call = OpenAiCompatProvider::new("https://x.test/v1".into(), None, "local").request(&req);
    assert_eq!(call.url, "https://x.test/v1/chat/completions");
    assert_eq!(
        text(call.body.get("messages")),
        r#"[{"content":"be brief","role":"system"},{"content":"hi","role":"user"}]"#
    );
    assert!(call.body.get("tools").is_none());
}

#[test]
fn a_refused_request_is_an_error_with_its_status() {
    let p = AnthropicProvider::new("key".into(), "https://x.test".into());
    let e = p.settle(429, "429 Too Many Requests", &json(r#"{"error":{"message":"slow down"}}"#), "m").unwrap_err();
    assert!(e.contains("429") && e.contains("slow down"), "{e}");
    let ok = p.settle(200, "200 OK", &json(r#"{"content":[{"type":"text","text":"x"}]}"#), "m").unwrap();
    assert_eq!(ok.text, "x");
}

#[test]
fn canonical_content_is_text_then_calls() {
    let calls = vec![ToolCall { id: "1".into(), name: "t".into(), arguments: json("{}") }];
    assert_eq!(
        canonical_content("said", &calls).to_text(),
        r#"[{"text":"said","type":"text"},{"id":"1","input":{},"name":"t","type":"tool_use"}]"#
    );
    assert_eq!(canonical_content("", &vec![]).to_text(), "[]");
}

#[test]
fn a_provider_comes_from_the_environment_only_with_a_key() {
    let mut env: Table<String> = Table::new();
    assert!(AnthropicProvider::from_env(&env).is_none());
    env.insert("ANTHROPIC_API_KEY", "k".into());
    assert_eq!(AnthropicProvider::from_env(&env).unwrap().api_key, "k");
}

#[test]
fn counts_are_summed_without_wrapping() {
    let r = parse_anthropic(
        &json(r#"{"content":[],"usage":{"input_tokens":18446744073709551615,"output_tokens":9}}"#),
        "m",
    )
    .unwrap();
    assert_eq!(r.total_tokens(), u64::MAX);
}
