use webcortex::auth::{Principal, PrincipalKind, Root};
use webcortex::context::{bindings, clip, render, render_blocks, resolve_one, settle_call, settle_query, ContextStep};
use webcortex::http::PylonResponse;
use webcortex::json::{parse, Json, Members};
use webcortex::manifest::{ContextDef, ContextSource, QueryReturns};

fn json(text: &str) -> Json {
    parse(text).expect("test value parses")
}

fn def(source: ContextSource) -> ContextDef {
    ContextDef { name: "c".into(), description: "about".into(), source, max_chars: 4000 }
}

#[test]
fn clip_is_character_aware_and_marks_the_cut() {
    assert_eq!(clip("abc", 10), "abc");
    let out = clip("ééééé", 2);
    assert!(out.starts_with("éé"));
    assert!(out.contains("truncated"));
}

#[test]
fn strings_render_verbatim_and_objects_render_pretty() {
    assert_eq!(render(&json("\"hi\"")), "hi");
    assert!(render(&json(r#"{"a": 1}"#)).contains("\"a\": 1"));
}

#[test]
fn a_clipped_text_says_how_much_was_kept() {
    assert_eq!(clip("abcdef", 4), "abcd\n…[context truncated to 4 characters]");
}

#[test]
fn blocks_follow_the_declared_order() {
    let one = def(ContextSource::Static { value: json("1") });
    let two = def(ContextSource::Static { value: json("2") });
    let out = render_blocks(&vec![&one, &two], &vec![json("\"first\""), json("\"second\"")]);
    assert!(out.find("first").unwrap() < out.find("second").unwrap(), "{out}");
    assert_eq!(render_blocks(&vec![], &vec![]), "");
}

#[test]
fn parameters_come_from_the_input() {
    let p = Principal::anonymous();
    let got = bindings(&vec!["a".into(), "missing".into()], &p, &Root::of(&p), &json(r#"{"a": 7}"#));
    assert_eq!(got[0].as_u64(), Some(7));
    assert!(got[1].is_null());
}

#[test]
fn the_principal_is_the_human_however_many_agents_deep() {
    let asked = vec!["@principal".to_string()];
    let bound = |p: &Principal, root: &Root| bindings(&asked, p, root, &Json::Null)[0].to_text();
    let human = Principal { id: "u1".into(), kind: PrincipalKind::Jwt, scopes: vec![], claims: Members::new() };
    let root = Root::of(&human);
    let agent = human.delegate_to_agent("a", &[]);
    let deeper = agent.delegate_to_agent("b", &[]);
    for p in [&human, &agent, &deeper] {
        assert_eq!(bound(p, &root), "\"u1\"");
    }
    let other = Principal { id: "u2".into(), ..human.copy() };
    assert_eq!(bound(&other, &root), "null");
    assert_eq!(bound(&other.delegate_to_agent("a", &[]), &root), "null");
    let nobody = Principal::anonymous();
    assert_eq!(bound(&nobody, &Root::of(&nobody)), "null");
    assert_eq!(bound(&nobody.delegate_to_agent("a", &[]), &Root::of(&nobody)), "null");
}

#[test]
fn each_source_takes_its_own_step() {
    let p = Principal::anonymous();
    let fixed = def(ContextSource::Static { value: json("42") });
    match resolve_one(&fixed, false, &p, &Root::of(&p), &Json::Null).unwrap() {
        ContextStep::Value(v) => assert_eq!(v.as_u64(), Some(42)),
        other => panic!("{other:?}"),
    }
    let query = def(ContextSource::Query { sql: "select 1".into(), params: vec![], returns: QueryReturns::Many });
    assert!(resolve_one(&query, false, &p, &Root::of(&p), &Json::Null).is_err(), "there is no database");
    assert!(matches!(resolve_one(&query, true, &p, &Root::of(&p), &Json::Null), Ok(ContextStep::Query { .. })));
    let call = def(ContextSource::Python { handler: 3 });
    match resolve_one(&call, false, &p, &Root::of(&p), &Json::Null).unwrap() {
        ContextStep::Call { handler, .. } => assert_eq!(handler, 3),
        other => panic!("{other:?}"),
    }
}

#[test]
fn failures_name_the_provider() {
    let d = def(ContextSource::Python { handler: 3 });
    assert!(settle_query(&d, Err("boom".into())).unwrap_err().contains("boom"));
    assert!(settle_call(&d, &PylonResponse::error(500, "bad")).unwrap_err().contains("\"c\""));
    assert_eq!(settle_call(&d, &PylonResponse::json(200, &json("[1]"))).unwrap().to_text(), "[1]");
}
