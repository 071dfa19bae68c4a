use webcortex::audit::{AuditEvent, MemoryAudit};
use webcortex::auth::{Principal, PrincipalKind};
use webcortex::json::{Json, Members};

fn event(kind: &str) -> AuditEvent {
    AuditEvent { kind: kind.into(), run_id: "r".into(), actor: None, tool: None, detail: Json::Null }
}

#[test]
fn recent_returns_events_oldest_first() {
    let mut a = MemoryAudit::default();
    a.record(event("one"));
    a.record(event("two"));
    let recent = a.recent(10);
    assert_eq!(recent[0].kind, "one");
    assert_eq!(recent[1].kind, "two");
}

#[test]
fn the_ring_is_bounded() {
    let mut a = MemoryAudit::with_capacity(3);
    for i in 0..10 {
        a.record(event(&format!("e{i}")));
    }
    let recent = a.recent(100);
    assert_eq!(recent.len(), 3, "must not grow without bound");
    assert_eq!(recent[2].kind, "e9", "newest event must survive");
}

#[test]
fn limit_takes_the_newest_events() {
    let mut a = MemoryAudit::default();
    for i in 0..5 {
        a.record(event(&format!("e{i}")));
    }
    let recent = a.recent(2);
    assert_eq!(recent.len(), 2);
    assert_eq!(recent[1].kind, "e4");
}

#[test]
fn started_event_captures_granted_scopes_for_forensics() {
    let p = Principal {
        id: "agent:a#u1".into(),
        kind: PrincipalKind::Agent,
        scopes: vec!["read".into()],
        claims: Members::new(),
    };
    let ev = AuditEvent::agent_started("r", "a", &p, &vec![]);
    assert_eq!(ev.detail.get("granted_scopes").unwrap().to_text(), r#"["read"]"#);
}

#[test]
fn contains_looks_at_every_kind() {
    let mut a = MemoryAudit::default();
    a.record(event("one"));
    a.record(event("two"));
    assert!(a.contains("one") && a.contains("two") && !a.contains("three"));
}
