//! Multi-turn agent sessions.
//!
//! A session is a conversation kept between requests. Sessions are in-memory,
//! bounded, and keyed by *principal* as well as by the client-supplied id, so two
//! callers presenting the same id never see each other's history. Times are
//! nanoseconds of a clock that never goes back.

use crate::conversation::{Conversation, MessageView};
use crate::table::{Table, lemma_table_pairs};
use crate::text::cat5;
use vstd::prelude::*;

verus! {

/// A conversation, and when it was last loaded or saved.
#[derive(Debug)]
pub struct Entry {
    pub conversation: Conversation,
    pub touched: u128,
}

/// What an [`Entry`] holds.
pub struct EntryView {
    pub conversation: Seq<MessageView>,
    pub touched: u128,
}

impl View for Entry {
    type V = EntryView;

    open spec fn view(&self) -> EntryView {
        EntryView { conversation: self.conversation@, touched: self.touched }
    }
}

/// What a session store holds, by key.
pub type Sessions = Map<Seq<char>, EntryView>;

#[derive(Debug)]
pub struct SessionStore {
    pub table: Table<Entry>,
    pub capacity: usize,
    /// How long a session is kept without being touched, in nanoseconds.
    pub ttl: u128,
}

/// The time since something happened.
pub open spec fn elapsed(now: u128, then: u128) -> int {
    if now >= then {
        now - then
    } else {
        0
    }
}

/// Whether an entry has not expired.
pub open spec fn is_kept(e: EntryView, now: u128, ttl: u128) -> bool {
    elapsed(now, e.touched) <= ttl
}

/// The entries that have not expired.
pub open spec fn kept(m: Sessions, now: u128, ttl: u128) -> Sessions {
    Map::new(|k: Seq<char>| m.contains_key(k) && is_kept(m[k], now, ttl), |k: Seq<char>| m[k])
}

/// Whether an entry is one of those least recently touched.
pub open spec fn is_oldest(m: Sessions, k: Seq<char>) -> bool {
    m.contains_key(k) && forall|other: Seq<char>| #[trigger] m.contains_key(other) ==> m[k].touched <= m[other].touched
}

/// Whether one state follows from another by saving a conversation under a key: the
/// expired entries go, then, where there is no room for a new key, one of those
/// least recently touched.
pub open spec fn saved(
    before: Sessions,
    after: Sessions,
    key: Seq<char>,
    entry: EntryView,
    capacity: usize,
    ttl: u128,
) -> bool {
    let live = kept(before, entry.touched, ttl);
    if live.len() >= capacity && live.len() > 0 && !live.contains_key(key) {
        exists|oldest: Seq<char>| #[trigger]
            is_oldest(live, oldest) && after == live.remove(oldest).insert(key, entry)
    } else {
        after == live.insert(key, entry)
    }
}

fn still(now: u128, then: u128, ttl: u128) -> (r: bool)
    ensures
        r == (elapsed(now, then) <= ttl),
{
    if now >= then {
        now - then <= ttl
    } else {
        true
    }
}

/// The text that stands for a session of an agent and a principal.
pub open spec fn session_key(agent: Seq<char>, principal: Seq<char>, session: Seq<char>) -> Seq<char> {
    agent + "\u{1}"@ + principal + "\u{1}"@ + session
}

/// Two callers of one agent that present the same session id have different keys.
pub proof fn law_sessions_are_keyed_by_principal(
    agent: Seq<char>,
    first: Seq<char>,
    second: Seq<char>,
    session: Seq<char>,
)
    ensures
        session_key(agent, first, session) == session_key(agent, second, session) ==> first == second,
{
    let sep = "\u{1}"@;
    let a = session_key(agent, first, session);
    let b = session_key(agent, second, session);
    assert(a.len() == agent.len() + sep.len() + first.len() + sep.len() + session.len());
    assert(b.len() == agent.len() + sep.len() + second.len() + sep.len() + session.len());
    if a == b {
        assert(first.len() == second.len());
        let at = (agent.len() + sep.len()) as int;
        assert(a.subrange(at, at + first.len()) =~= first);
        assert(b.subrange(at, at + second.len()) =~= second);
    }
}

proof fn lemma_first_mark(a: Seq<char>, rest_a: Seq<char>, b: Seq<char>, rest_b: Seq<char>, mark: char)
    requires
        !a.contains(mark),
        !b.contains(mark),
        a.push(mark) + rest_a == b.push(mark) + rest_b,
    ensures
        a == b,
        rest_a == rest_b,
{
    let x = a.push(mark) + rest_a;
    let y = b.push(mark) + rest_b;
    assert(x[a.len() as int] == mark);
    assert(y[b.len() as int] == mark);
    if a.len() < b.len() {
        assert(b[a.len() as int] == y[a.len() as int]);
        assert(b.contains(mark));
    }
    if b.len() < a.len() {
        assert(a[b.len() as int] == x[b.len() as int]);
        assert(a.contains(mark));
    }
    assert(a =~= x.take(a.len() as int));
    assert(b =~= y.take(b.len() as int));
    assert(rest_a =~= x.skip(a.len() as int + 1));
    assert(rest_b =~= y.skip(b.len() as int + 1));
}

/// Callers never reach each other's sessions, whatever session ids they present: a key
/// stands for one agent, one principal and one session, where the names of the agents and
/// the principals are free of the separator.
pub proof fn law_a_session_key_stands_for_one_session(
    agent: Seq<char>,
    principal: Seq<char>,
    session: Seq<char>,
    other_agent: Seq<char>,
    other_principal: Seq<char>,
    other_session: Seq<char>,
)
    requires
        !agent.contains('\u{1}'),
        !other_agent.contains('\u{1}'),
        !principal.contains('\u{1}'),
        !other_principal.contains('\u{1}'),
        session_key(agent, principal, session) == session_key(other_agent, other_principal, other_session),
    ensures
        agent == other_agent,
        principal == other_principal,
        session == other_session,
{
    reveal_strlit("\u{1}");
    let mark = '\u{1}';
    assert("\u{1}"@ =~= seq![mark]);
    let rest = principal.push(mark) + session;
    let other_rest = other_principal.push(mark) + other_session;
    assert(session_key(agent, principal, session) =~= agent.push(mark) + rest);
    assert(session_key(other_agent, other_principal, other_session) =~= other_agent.push(mark) + other_rest);
    lemma_first_mark(agent, rest, other_agent, other_rest, mark);
    lemma_first_mark(principal, session, other_principal, other_session, mark);
}

impl View for SessionStore {
    type V = Sessions;

    open spec fn view(&self) -> Sessions {
        self.table@.map_values(|e: Entry| e@)
    }
}

impl SessionStore {
    /// A store of at least one session, each kept for at least a second.
    pub fn new(capacity: usize, ttl_secs: u64) -> (r: SessionStore)
        ensures
            r@ == Sessions::empty(),
            r.capacity == if capacity == 0 { 1 } else { capacity },
            r.ttl == (if ttl_secs == 0 { 1 } else { ttl_secs as int }) * 1_000_000_000,
    {
        let secs: u64 = if ttl_secs == 0 {
            1
        } else {
            ttl_secs
        };
        let r = SessionStore {
            table: Table::new(),
            capacity: if capacity == 0 {
                1
            } else {
                capacity
            },
            ttl: secs as u128 * 1_000_000_000,
        };
        assert(r@ =~= Sessions::empty());
        r
    }

    pub fn key(agent: &str, principal_id: &str, session_id: &str) -> (r: String)
        ensures
            r@ == session_key(agent@, principal_id@, session_id@),
    {
        cat5(agent, "\u{1}", principal_id, "\u{1}", session_id)
    }

    /// The conversation of a key, unless it has expired; loading it keeps it.
    pub fn load(&mut self, key: &str, now: u128) -> (r: Option<Conversation>)
        ensures
            final(self).capacity == old(self).capacity,
            final(self).ttl == old(self).ttl,
            match r {
                Some(c) => old(self)@.contains_key(key@) && is_kept(old(self)@[key@], now, old(self).ttl) && c@
                    == old(self)@[key@].conversation && final(self)@ == old(self)@.insert(
                    key@,
                    EntryView { conversation: c@, touched: now },
                ),
                None => !(old(self)@.contains_key(key@) && is_kept(old(self)@[key@], now, old(self).ttl))
                    && final(self)@ == old(self)@.remove(key@),
            },
    {
        let ghost was = self@;
        match self.table.remove(key) {
            None => {
                assert(self@ =~= was.remove(key@));
                None
            },
            Some(e) => {
                if still(now, e.touched, self.ttl) {
                    let c = e.conversation.copy();
                    let kept_entry = Entry { conversation: e.conversation, touched: now };
                    let ghost view = kept_entry@;
                    self.table.insert(key, kept_entry);
                    assert(self@ =~= was.insert(key@, view));
                    Some(c)
                } else {
                    assert(self@ =~= was.remove(key@));
                    None
                }
            },
        }
    }

    /// Keeps a conversation under a key.
    pub fn save(&mut self, key: &str, conversation: Conversation, now: u128)
        ensures
            final(self).capacity == old(self).capacity,
            final(self).ttl == old(self).ttl,
            saved(
                old(self)@,
                final(self)@,
                key@,
                EntryView { conversation: conversation@, touched: now },
                old(self).capacity,
                old(self).ttl,
            ),
    {
        let ghost was = self@;
        let ghost entry = EntryView { conversation: conversation@, touched: now };
        self.expire(now);
        let ghost live = self@;
        let n: usize = self.table.len();
        proof {
            lemma_view_len(self.table@);
        }
        if n >= self.capacity && n > 0 && self.table.get(key).is_none() {
            let oldest = self.oldest();
            let ghost gone = oldest@;
            let _dropped = self.table.remove(oldest.as_str());
            assert(self@ =~= live.remove(gone));
            self.table.insert(key, Entry { conversation, touched: now });
            assert(self@ =~= live.remove(gone).insert(key@, entry));
        } else {
            self.table.insert(key, Entry { conversation, touched: now });
            assert(self@ =~= live.insert(key@, entry));
        }
    }

    /// Drops the entries that have expired.
    fn expire(&mut self, now: u128)
        ensures
            final(self).capacity == old(self).capacity,
            final(self).ttl == old(self).ttl,
            final(self)@ == kept(old(self)@, now, old(self).ttl),
    {
        let ghost was = self@;
        let mut n: usize = self.table.len();
        let mut i: usize = 0;
        while i < n
            invariant
                i <= n == self.table.pairs().len(),
                self.capacity == old(self).capacity,
                self.ttl == old(self).ttl,
                was == old(self)@,
                crate::table::in_order(self.table.pairs()),
                forall|k: Seq<char>| #[trigger] self@.contains_key(k) ==> was.contains_key(k) && self@[k] == was[k],
                forall|k: Seq<char>|
                    was.contains_key(k) && is_kept(was[k], now, self.ttl) ==> #[trigger] self@.contains_key(k),
                forall|j: int|
                    0 <= j < i ==> is_kept((#[trigger] self.table.pairs()[j]).1@, now, self.ttl),
            decreases n - i,
        {
            let touched: u128 = self.table.value_at(i).touched;
            if still(now, touched, self.ttl) {
                i = i + 1;
            } else {
                let name = self.table.key_at(i).to_owned();
                let ghost before = self@;
                let ghost before_pairs = self.table.pairs();
                let ghost before_table = self.table@;
                proof {
                    lemma_table_pairs(before_pairs);
                }
                let _gone = self.table.remove(name.as_str());
                proof {
                    assert(self@ =~= before.remove(name@));
                    assert(before_table.contains_key(before_pairs[i as int].0));
                    assert(before.contains_key(name@));
                    assert(before[name@].touched == touched);
                    assert(!is_kept(was[name@], now, self.ttl));
                    crate::table::lemma_removed_pairs(before_pairs, self.table.pairs(), i as int);
                }
                n = n - 1;
            }
        }
        proof {
            let pairs = self.table.pairs();
            lemma_table_pairs(pairs);
            assert forall|k: Seq<char>| #[trigger] self@.contains_key(k) implies is_kept(self@[k], now, self.ttl) by {
                assert(self.table@.contains_key(k));
                let j = choose|j: int| 0 <= j < pairs.len() && (#[trigger] pairs[j]).0 == k;
                assert(is_kept(pairs[j].1@, now, self.ttl));
            }
            assert(self@ =~= kept(was, now, self.ttl));
        }
    }

    /// A key among those least recently touched.
    fn oldest(&self) -> (r: String)
        requires
            self.table.pairs().len() > 0,
        ensures
            is_oldest(self@, r@),
    {
        let n: usize = self.table.len();
        let ghost pairs = self.table.pairs();
        let mut best: usize = 0;
        let mut i: usize = 1;
        while i < n
            invariant
                1 <= i <= n == pairs.len(),
                best < i,
                pairs == self.table.pairs(),
                forall|j: int| 0 <= j < i ==> pairs[best as int].1.touched <= (#[trigger] pairs[j]).1.touched,
            decreases n - i,
        {
            let t: u128 = self.table.value_at(i).touched;
            let b: u128 = self.table.value_at(best).touched;
            if t < b {
                best = i;
            }
            i = i + 1;
        }
        proof {
            lemma_table_pairs(pairs);
            let k = pairs[best as int].0;
            assert(self.table@.contains_key(k));
            assert forall|other: Seq<char>| #[trigger] self@.contains_key(other) implies self@[k].touched
                <= self@[other].touched by {
                assert(self.table@.contains_key(other));
                let j = choose|j: int| 0 <= j < pairs.len() && (#[trigger] pairs[j]).0 == other;
                assert(pairs[best as int].1.touched <= pairs[j].1.touched);
            }
        }
        self.table.key_at(best).to_owned()
    }

    /// Drops a session, and says whether there was one.
    pub fn forget(&mut self, key: &str) -> (r: bool)
        ensures
            r == old(self)@.contains_key(key@),
            final(self)@ == old(self)@.remove(key@),
            final(self).capacity == old(self).capacity,
            final(self).ttl == old(self).ttl,
    {
        let ghost was = self@;
        let gone = self.table.remove(key);
        assert(self@ =~= was.remove(key@));
        gone.is_some()
    }

    /// The number of sessions, expired ones included.
    pub fn len(&self) -> (n: usize)
        ensures
            n == self@.len(),
    {
        proof {
            lemma_view_len(self.table@);
        }
        self.table.len()
    }

    pub fn is_empty(&self) -> (r: bool)
        ensures
            r == (self@.len() == 0),
    {
        self.len() == 0
    }
}

proof fn lemma_view_len(m: Map<Seq<char>, Entry>)
    ensures
        m.map_values(|e: Entry| e@).len() == m.len(),
{
    assert(m.map_values(|e: Entry| e@).dom() =~= m.dom());
}

/// What was saved is what is loaded, as long as it has not expired.
pub proof fn law_a_saved_session_is_loaded(
    before: Sessions,
    after: Sessions,
    key: Seq<char>,
    entry: EntryView,
    capacity: usize,
    ttl: u128,
    now: u128,
)
    requires
        saved(before, after, key, entry, capacity, ttl),
        elapsed(now, entry.touched) <= ttl,
    ensures
        after.contains_key(key),
        after[key] == entry,
        is_kept(after[key], now, ttl),
{
}

/// Saving under one key never changes what another key holds: at most it goes.
pub proof fn law_saving_never_alters_another_session(
    before: Sessions,
    after: Sessions,
    key: Seq<char>,
    entry: EntryView,
    capacity: usize,
    ttl: u128,
    other: Seq<char>,
)
    requires
        saved(before, after, key, entry, capacity, ttl),
        other != key,
        after.contains_key(other),
    ensures
        before.contains_key(other),
        after[other] == before[other],
{
}

/// A store with room for at least one session never holds more than its capacity.
pub proof fn law_sessions_are_bounded(
    before: Sessions,
    after: Sessions,
    key: Seq<char>,
    entry: EntryView,
    capacity: usize,
    ttl: u128,
)
    requires
        before.dom().finite(),
        before.len() <= capacity,
        capacity > 0,
        saved(before, after, key, entry, capacity, ttl),
    ensures
        after.dom().finite(),
        after.len() <= capacity,
{
    let live = kept(before, entry.touched, ttl);
    assert(live.dom().subset_of(before.dom()));
    vstd::set_lib::lemma_len_subset(live.dom(), before.dom());
}

} // verus!
