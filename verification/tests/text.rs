use webcortex::fake::FakeProvider;
use webcortex::conversation::{Conversation, Message};
use webcortex::http::{PylonRequest, PylonResponse};
use webcortex::json::{parse, parse_bytes, parse_first, parse_or_explain, parse_real, Json};
use webcortex::manifest::{AgentDef, ContextPolicy};
use webcortex::percent::{decode, is_clean, percent_decode_twice};
use webcortex::provider::CompletionRequest;
use webcortex::table::Table;
use webcortex::text::{
    before, contains, decimal_text, head_within, join, parse_i64, replace, sorted_unique, split, split_once,
    split_words, tail_within, to_lower, trim, trim_char,
};

#[test]
fn texts_are_cut_and_joined() {
    assert_eq!(split("a//b", '/'), vec!["a", "", "b"]);
    assert_eq!(split("", '/'), vec![""]);
    assert_eq!(split_words(" a\u{2003}b\tc\n"), vec!["a", "b", "c"]);
    assert_eq!(split_once("k=v=w", '='), Some(("k".to_string(), "v=w".to_string())));
    assert!(split_once("k", '=').is_none());
    assert_eq!(join(&vec!["a".into(), "b".into()], ", "), "a, b");
    assert_eq!(trim(" \u{a0}x "), "x");
    assert_eq!(trim_char("``x``", '`'), "x");
    assert_eq!(replace("aXbXc", "X", "--"), "a--b--c");
    assert_eq!(to_lower("ÀB"), "Àb");
    assert!(contains("abc", "bc") && !contains("abc", "cb"));
}

#[test]
fn texts_are_ordered_by_their_characters() {
    assert!(before("a", "b") && before("a", "aa") && !before("b", "a") && !before("a", "a"));
    assert_eq!(sorted_unique(&vec!["b".into(), "a".into(), "b".into()]), vec!["a", "b"]);
}

#[test]
fn numbers_are_written_and_read() {
    assert_eq!(decimal_text(0), "0");
    assert_eq!(decimal_text(u64::MAX), "18446744073709551615");
    assert_eq!(parse_i64("-9223372036854775808"), Some(i64::MIN));
    assert_eq!(parse_i64("9223372036854775808"), None);
    assert_eq!(parse_i64("+5"), Some(5));
    assert_eq!(parse_i64(""), None);
    assert_eq!(parse_i64("-"), None);
}

#[test]
fn cuts_fall_between_characters() {
    assert_eq!(head_within("aéb", 2), "a");
    assert_eq!(head_within("aéb", 3), "aé");
    assert_eq!(tail_within("aéb", 2), "b");
    assert_eq!(tail_within("aéb", 3), "éb");
}

#[test]
fn escapes_are_decoded_once_or_twice() {
    assert_eq!(decode("a%20b+c", false), "a b+c");
    assert_eq!(decode("a%20b+c", true), "a b c");
    assert_eq!(decode("%zz%4", false), "%zz%4");
    assert_eq!(percent_decode_twice("%252e").as_deref(), Some("."));
    assert!(is_clean("%41") && is_clean("é"));
}

#[test]
fn a_table_keeps_its_keys_in_order() {
    let mut t = Table::new();
    t.insert("b", 1);
    t.insert("a", 2);
    t.insert("b", 3);
    assert_eq!(t.len(), 2);
    assert_eq!((t.key_at(0), *t.value_at(0)), ("a", 2));
    assert_eq!((t.key_at(1), *t.value_at(1)), ("b", 3));
    assert_eq!(t.remove("a"), Some(2));
    assert_eq!(t.remove("a"), None);
    assert!(t.get("a").is_none());
}

#[test]
fn values_survive_their_text() {
    for text in [
        "null",
        "true",
        "-5",
        "18446744073709551615",
        "1.5",
        "1e300",
        "-0.0",
        r#""\"\\\u0001é""#,
        r#"[1,[2,{"a":[]}]]"#,
        r#"{"a":{"b":null},"c":[true]}"#,
    ] {
        let v = parse(text).expect(text);
        let printed = v.to_text();
        assert_eq!(parse_bytes(printed.as_bytes()).unwrap().to_text(), printed, "{text}");
    }
    assert_eq!(parse(r#"{"b":1,"a":2,"b":3}"#).unwrap().to_text(), r#"{"a":2,"b":3}"#);
    assert!(parse("{").is_none() && parse("1 2").is_none());
}

#[test]
fn the_first_value_of_a_text_is_read_whatever_follows() {
    assert_eq!(parse_first(r#"{"a":1} and more"#).unwrap().to_text(), r#"{"a":1}"#);
    assert!(parse_first("nothing").is_none());
}

#[test]
fn what_cannot_be_read_is_explained() {
    assert!(parse_or_explain(b"[1,").unwrap_err().contains("EOF"));
    assert_eq!(parse_or_explain(b"[1]").unwrap().to_text(), "[1]");
}

#[test]
fn numbers_that_are_no_integers_are_read_by_their_value() {
    assert_eq!(parse_real("1.50").unwrap().to_text(), "1.5");
    assert!(parse_real("inf").unwrap().is_null());
    assert!(parse_real("abc").is_none());
}

#[test]
fn bodies_that_are_no_json_are_text() {
    let res = PylonResponse { status: 200, headers: vec![], body: vec![b'a', 0xff] };
    assert_eq!(res.json_value().as_str(), Some("a\u{fffd}"));
    assert_eq!(PylonResponse::text(200, "é").body, "é".as_bytes());
}

#[test]
fn arguments_are_looked_up_in_the_path_then_the_query_then_the_body() {
    let mut req = PylonRequest::synthetic("POST", "/x");
    req.body = br#"{"a":"body","b":"body","c":"body"}"#.to_vec();
    req.query.insert("b", "query".into());
    req.query.insert("c", "query".into());
    req.path_params.insert("c", "7".into());
    assert_eq!(req.lookup("a").unwrap().as_str(), Some("body"));
    assert_eq!(req.lookup("b").unwrap().as_str(), Some("query"));
    assert_eq!(req.lookup("c").unwrap().as_u64(), Some(7));
    assert!(req.lookup("d").is_none());
    assert_eq!(req.json_body().unwrap().get_str("a"), Some("body"));
    req.body = b"{".to_vec();
    assert!(req.json_body().is_err());
    assert!(req.json_body_or_null().is_null());
}

#[test]
fn the_fake_provider_echoes_without_tools() {
    let def = AgentDef {
        name: "a".into(),
        description: String::new(),
        model: "m".into(),
        system: String::new(),
        tools: vec![],
        max_steps: None,
        token_budget: None,
        scopes: vec![],
        temperature: None,
        max_tokens: 64,
        handoffs: vec![],
        context: vec![],
        cache: false,
        policy: ContextPolicy::default(),
    };
    let conversation = Conversation { messages: vec![Message::new("user", Json::str("ping"))] };
    let reply = FakeProvider.complete(&CompletionRequest {
        agent: &def,
        conversation: &conversation,
        tools: &[],
        force_tool: None,
        system_suffix: "",
    });
    assert!(reply.text.contains("ping"), "{}", reply.text);
    assert!(reply.tool_calls.is_empty());
    assert_eq!(FakeProvider.name(), "fake");
}
