use webcortex::conversation::{Conversation, Message};
use webcortex::json::Json;
use webcortex::session::SessionStore;

const SECOND: u128 = 1_000_000_000;

fn conv(n: usize) -> Conversation {
    Conversation { messages: (0..n).map(|i| Message::new("user", Json::num(i as u64))).collect() }
}

#[test]
fn round_trips_and_is_keyed_by_principal() {
    let mut s = SessionStore::new(10, 60);
    s.save(&SessionStore::key("a", "u1", "s"), conv(2), 0);
    assert_eq!(s.load(&SessionStore::key("a", "u1", "s"), 1).unwrap().messages.len(), 2);
    assert!(s.load(&SessionStore::key("a", "u2", "s"), 1).is_none(), "another principal must not see it");
}

#[test]
fn capacity_evicts_the_least_recently_used() {
    let mut s = SessionStore::new(2, 60);
    s.save("a", conv(1), 1);
    s.save("b", conv(1), 2);
    let _ = s.load("a", 3);
    s.save("c", conv(1), 4);
    assert!(s.load("b", 5).is_none(), "b was the least recently touched");
    assert!(s.load("a", 5).is_some());
    assert_eq!(s.len(), 2);
}

#[test]
fn an_idle_session_is_forgotten() {
    let mut s = SessionStore::new(10, 60);
    s.save("a", conv(1), 0);
    assert!(s.load("a", 60 * SECOND).is_some());
    assert!(s.load("a", 121 * SECOND).is_none());
}

#[test]
fn forgetting_says_whether_it_was_there() {
    let mut s = SessionStore::new(10, 60);
    s.save("a", conv(1), 0);
    assert!(s.forget("a"));
    assert!(!s.forget("a"));
    assert!(s.is_empty());
}
