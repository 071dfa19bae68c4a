//! Runs that wait for a human.

use crate::audit::{AuditEvent, EventView, event_views};
use crate::auth::{Principal, PrincipalView};
use crate::json::{Json, JsonView, Members, views};
use crate::runtime::{Run, parked_json, record};
use crate::session::elapsed;
use crate::text::{cat3, debug_quoted, quoted, same};
use vstd::prelude::*;

verus! {

/// Something that was parked under an id.
#[derive(Debug)]
pub struct Parked<T> {
    pub id: String,
    /// When it was parked, in nanoseconds of a clock that never goes back.
    pub created: u128,
    pub run: T,
}

/// What a [`Parked`] holds.
#[verifier::reject_recursive_types(T)]
pub struct ParkedView<T> {
    pub id: Seq<char>,
    pub created: u128,
    pub run: T,
}

impl<T> View for Parked<T> {
    type V = ParkedView<T>;

    open spec fn view(&self) -> ParkedView<T> {
        ParkedView { id: self.id@, created: self.created, run: self.run }
    }
}

/// What a list of parked runs holds.
pub open spec fn parked_views<T>(list: Seq<Parked<T>>) -> Seq<ParkedView<T>> {
    list.map_values(|p: Parked<T>| p@)
}

/// How many runs may wait.
pub const MAX_PARKED: usize = 1000;

/// Says of a parked run whether it has not expired.
pub open spec fn waiting<T>(now: u128, ttl: u128) -> spec_fn(ParkedView<T>) -> bool {
    |p: ParkedView<T>| elapsed(now, p.created) <= ttl
}

/// Says of a parked run that it has another id.
pub open spec fn not_called<T>(id: Seq<char>) -> spec_fn(ParkedView<T>) -> bool {
    |p: ParkedView<T>| p.id != id
}

/// Where a run that was parked at a time belongs: behind all that were parked no
/// later.
pub open spec fn place_in<T>(list: Seq<ParkedView<T>>, created: u128) -> int
    decreases list.len(),
{
    if list.len() == 0 || list.last().created <= created {
        list.len() as int
    } else {
        place_in(list.drop_last(), created)
    }
}

/// The runs that wait once another is parked: the expired ones go, then the oldest
/// where there is no room, then one of the same id.
pub open spec fn parked<T>(list: Seq<ParkedView<T>>, p: ParkedView<T>, ttl: u128) -> Seq<ParkedView<T>> {
    let live = list.filter(waiting(p.created, ttl));
    let room = if live.len() >= MAX_PARKED {
        live.skip(1)
    } else {
        live
    };
    let others = room.filter(not_called(p.id));
    others.insert(place_in(others, p.created), p)
}

/// Whether runs stand oldest first.
pub open spec fn oldest_first<T>(list: Seq<ParkedView<T>>) -> bool {
    forall|i: int, j: int| 0 <= i < j < list.len() ==> (#[trigger] list[i]).created <= (#[trigger] list[j]).created
}

/// The first run of an id.
pub open spec fn called<T>(list: Seq<ParkedView<T>>, id: Seq<char>) -> Option<ParkedView<T>>
    decreases list.len(),
{
    if list.len() == 0 {
        None
    } else if list[0].id == id {
        Some(list[0])
    } else {
        called(list.skip(1), id)
    }
}

/// Runs that wait for a human, oldest first. Bounded, and expired after a time.
#[derive(Debug)]
pub struct Approvals<T> {
    pub list: Vec<Parked<T>>,
    pub ttl: u128,
}

impl<T> View for Approvals<T> {
    type V = Seq<ParkedView<T>>;

    open spec fn view(&self) -> Seq<ParkedView<T>> {
        parked_views(self.list@)
    }
}

impl<T> Approvals<T> {
    /// No runs, to be kept for so many seconds each.
    pub fn new(ttl_secs: u64) -> (r: Approvals<T>)
        ensures
            r@ == Seq::<ParkedView<T>>::empty(),
            r.ttl == ttl_secs * 1_000_000_000,
    {
        let r = Approvals { list: Vec::new(), ttl: (ttl_secs as u128) * 1_000_000_000 };
        assert(r@ =~= Seq::<ParkedView<T>>::empty());
        r
    }

    /// Drops the runs that have expired.
    pub fn expire(&mut self, now: u128)
        ensures
            final(self)@ == old(self)@.filter(waiting(now, old(self).ttl)),
            final(self).ttl == old(self).ttl,
    {
        let ttl: u128 = self.ttl;
        let ghost all = self@;
        let ghost keep = waiting::<T>(now, ttl);
        let ghost mut done: int = 0;
        let mut i: usize = 0;
        proof {
            reveal(Seq::filter);
            assert(all.take(0).filter(keep) =~= Seq::empty());
            assert(self@ =~= all.take(0).filter(keep) + all.skip(0));
        }
        while i < self.list.len()
            invariant
                self.ttl == ttl,
                keep == waiting::<T>(now, ttl),
                0 <= done <= all.len(),
                i == all.take(done).filter(keep).len(),
                self@ == all.take(done).filter(keep) + all.skip(done),
                i <= self.list@.len(),
            decreases self.list@.len() - i,
        {
            proof {
                assert(self@.len() == self.list@.len());
                assert(done < all.len());
                assert(self@[i as int] == all[done]);
                assert(all.take(done + 1) =~= all.take(done).push(all[done]));
                all.take(done).lemma_filter_push(all[done], keep);
            }
            let ghost was = self@;
            let created: u128 = self.list[i].created;
            let old_enough = now >= created && now - created > ttl;
            if old_enough {
                let ghost before = self.list@;
                let _ = self.list.remove(i);
                proof {
                    assert(self@ =~= was.remove(i as int));
                    assert(self@ =~= all.take(done + 1).filter(keep) + all.skip(done + 1));
                }
            } else {
                proof {
                    assert(keep(all[done]));
                    assert(self@ =~= all.take(done + 1).filter(keep) + all.skip(done + 1));
                }
                i = i + 1;
            }
            proof {
                done = done + 1;
            }
        }
        proof {
            assert(self@.len() == self.list@.len());
            assert(done == all.len());
            assert(all.take(all.len() as int) =~= all);
            assert(all.skip(all.len() as int) =~= Seq::empty());
            assert(self@ =~= all.filter(keep));
        }
    }

    /// Whether a run waits under an id.
    pub fn holds(&self, id: &str) -> (r: bool)
        ensures
            r == (called(self@, id@) is Some),
    {
        let ghost all = self@;
        let mut i: usize = 0;
        assert(all.skip(0) =~= all);
        while i < self.list.len()
            invariant
                i <= self.list@.len(),
                all == self@,
                called(all.skip(i as int), id@) == called(all, id@),
            decreases self.list.len() - i,
        {
            assert(all.skip(i as int)[0] == self.list@[i as int]@);
            assert(all.skip(i as int).skip(1) =~= all.skip(i + 1));
            if same(self.list[i].id.as_str(), id) {
                return true;
            }
            i = i + 1;
        }
        false
    }

    /// Takes the run of an id out. What was taken is gone: a second call finds
    /// nothing.
    fn take(&mut self, id: &str) -> (r: Option<T>)
        ensures
            match r {
                Some(run) => called(old(self)@, id@) matches Some(p) && p.run == run,
                None => called(old(self)@, id@) is None,
            },
            final(self)@ == old(self)@.filter(not_called(id@)),
            final(self).ttl == old(self).ttl,
    {
        let ghost all = self@;
        let ghost keep = not_called::<T>(id@);
        let ghost mut done: int = 0;
        let mut found: Option<T> = None;
        let mut i: usize = 0;
        proof {
            reveal(Seq::filter);
            assert(all.take(0).filter(keep) =~= Seq::empty());
            assert(self@ =~= all.take(0).filter(keep) + all.skip(0));
            assert(all.skip(0) =~= all);
        }
        while i < self.list.len()
            invariant
                self.ttl == old(self).ttl,
                keep == not_called::<T>(id@),
                0 <= done <= all.len(),
                i == all.take(done).filter(keep).len(),
                self@ == all.take(done).filter(keep) + all.skip(done),
                i <= self.list@.len(),
                match found {
                    Some(run) => called(all, id@) matches Some(p) && p.run == run,
                    None => called(all.skip(done), id@) == called(all, id@),
                },
            decreases self.list@.len() - i,
        {
            proof {
                assert(self@.len() == self.list@.len());
                assert(done < all.len());
                assert(self@[i as int] == all[done]);
                assert(all.take(done + 1) =~= all.take(done).push(all[done]));
                all.take(done).lemma_filter_push(all[done], keep);
                assert(all.skip(done)[0] == all[done]);
                assert(all.skip(done).skip(1) =~= all.skip(done + 1));
            }
            let ghost was = self@;
            if same(self.list[i].id.as_str(), id) {
                let p = self.list.remove(i);
                proof {
                    assert(p@ == all[done]);
                    assert(self@ =~= was.remove(i as int));
                    assert(self@ =~= all.take(done + 1).filter(keep) + all.skip(done + 1));
                }
                if found.is_none() {
                    found = Some(p.run);
                }
            } else {
                proof {
                    assert(keep(all[done]));
                    assert(self@ =~= all.take(done + 1).filter(keep) + all.skip(done + 1));
                }
                i = i + 1;
            }
            proof {
                done = done + 1;
            }
        }
        proof {
            assert(self@.len() == self.list@.len());
            assert(done == all.len());
            assert(all.take(all.len() as int) =~= all);
            assert(all.skip(all.len() as int) =~= Seq::empty());
            assert(self@ =~= all.filter(keep));
        }
        found
    }

    /// Parks a run.
    pub fn park(&mut self, id: String, created: u128, run: T)
        ensures
            final(self)@ == parked(old(self)@, ParkedView { id: id@, created, run }, old(self).ttl),
            final(self).ttl == old(self).ttl,
    {
        let ghost p = ParkedView { id: id@, created, run };
        self.expire(created);
        let ghost live = self@;
        assert(live.len() == self.list@.len());
        if self.list.len() >= MAX_PARKED {
            let _ = self.list.remove(0);
            assert(self@ =~= live.skip(1));
        }
        let _ = self.take(id.as_str());
        let ghost others = self@;
        let mut at: usize = self.list.len();
        assert(others.take(at as int) =~= others);
        while at > 0 && self.list[at - 1].created > created
            invariant
                at <= self.list@.len(),
                others == parked_views(self.list@),
                place_in(others.take(at as int), created) == place_in(others, created),
            decreases at,
        {
            assert(others.take(at as int).last() == self.list@[at - 1]@);
            assert(others.take(at as int).drop_last() =~= others.take(at - 1));
            at = at - 1;
        }
        proof {
            if at > 0 {
                assert(others.take(at as int).last() == self.list@[at - 1]@);
            }
            assert(place_in(others, created) == at);
        }
        let entry = Parked { id, created, run };
        let ghost before = self.list@;
        self.list.insert(at, entry);
        assert(self@ =~= others.insert(at as int, p));
    }

    /// What is said of an id under which nothing waits.
    pub fn unknown(id: &str) -> (r: String)
        ensures
            r@ == "no pending approval "@ + debug_quoted(id@) + "; it may have expired or already been decided"@,
    {
        cat3("no pending approval ", quoted(id).as_str(), "; it may have expired or already been decided")
    }
}

proof fn lemma_called_filtered<T>(list: Seq<ParkedView<T>>, id: Seq<char>)
    ensures
        called(list.filter(not_called(id)), id) is None,
    decreases list.len(),
{
    reveal(Seq::filter);
    if list.len() > 0 {
        lemma_called_filtered(list.drop_last(), id);
        if list.last().id != id {
            lemma_called_push(list.drop_last().filter(not_called(id)), list.last(), id);
        }
    }
}

proof fn lemma_called_push<T>(list: Seq<ParkedView<T>>, p: ParkedView<T>, id: Seq<char>)
    requires
        called(list, id) is None,
        p.id != id,
    ensures
        called(list.push(p), id) is None,
    decreases list.len(),
{
    if list.len() == 0 {
        assert(list.push(p).skip(1) =~= Seq::empty());
        assert(called(Seq::<ParkedView<T>>::empty(), id) is None);
    } else {
        assert(list.push(p).skip(1) =~= list.skip(1).push(p));
        lemma_called_push(list.skip(1), p, id);
    }
}

/// Whether each of some parked runs stands at a call that waits.
pub open spec fn all_suspended(list: Seq<ParkedView<Run>>) -> bool {
    forall|i: int| 0 <= i < list.len() ==> (#[trigger] list[i]).run.batch.at < list[i].run.batch.calls@.len()
}

/// How long something has waited, in whole seconds.
pub open spec fn age_of(now: u128, created: u128) -> u64 {
    let secs = elapsed(now, created) / 1_000_000_000;
    if secs > u64::MAX {
        u64::MAX
    } else {
        secs as u64
    }
}

/// What is told of some parked runs.
pub open spec fn summaries(list: Seq<ParkedView<Run>>, now: u128) -> Seq<JsonView> {
    list.map_values(|p: ParkedView<Run>| parked_json(p.run, p.id, age_of(now, p.created)))
}

/// The event that a decision leaves.
pub open spec fn resolved_event(id: Seq<char>, approve: bool, approver: PrincipalView, run: Run) -> EventView {
    EventView {
        kind: "approval_resolved"@,
        run_id: ""@,
        actor: Some(approver.id),
        tool: None,
        detail: JsonView::Object(
            Map::empty().insert("approval_id"@, JsonView::Str(id)).insert("approved"@, JsonView::Bool(approve)).insert(
                "on_behalf_of"@,
                JsonView::Str(run.st@.caller.id),
            ),
        ),
    }
}

impl<'a> Approvals<Run<'a>> {
    /// What is told of the runs that wait, oldest first. Those that waited too long
    /// are forgotten.
    pub fn pending_approvals(&mut self, now: u128) -> (r: Vec<Json>)
        requires
            all_suspended(old(self)@),
        ensures
            final(self)@ == old(self)@.filter(waiting(now, old(self).ttl)),
            final(self).ttl == old(self).ttl,
            all_suspended(final(self)@),
            views(r@) == summaries(final(self)@, now),
    {
        let ghost before = self@;
        let ghost keep = waiting::<Run<'a>>(now, self.ttl);
        self.expire(now);
        proof {
            assert(self@ == before.filter(keep));
            assert forall|i: int| 0 <= i < self@.len() implies (#[trigger] self@[i]).run.batch.at
                < self@[i].run.batch.calls@.len() by {
                before.lemma_filter_contains_rev(keep, self@[i]);
                let j = choose|j: int| 0 <= j < before.len() && before[j] == self@[i];
                assert(before[j].run.batch.at < before[j].run.batch.calls@.len());
            }
        }
        let mut out: Vec<Json> = Vec::new();
        let mut i: usize = 0;
        while i < self.list.len()
            invariant
                i <= self.list@.len(),
                all_suspended(self@),
                out@.len() == i,
                forall|k: int| 0 <= k < i ==> (#[trigger] out@[k])@ == parked_json(
                    self@[k].run,
                    self@[k].id,
                    age_of(now, self@[k].created),
                ),
            decreases self.list.len() - i,
        {
            let p = &self.list[i];
            assert(self@[i as int] == p@);
            let waited: u128 = if now >= p.created {
                (now - p.created) / 1_000_000_000
            } else {
                0
            };
            let age: u64 = if waited > u64::MAX as u128 {
                u64::MAX
            } else {
                waited as u64
            };
            out.push(p.run.summary(p.id.as_str(), age));
            i = i + 1;
        }
        assert(views(out@) =~= summaries(self@, now));
        out
    }

    /// Takes out the run that a human decided, to go on as [`Run::decided`] says. Those
    /// that waited too long are forgotten first. The decision is consumed: a second one on
    /// the same id is an error.
    pub fn resolve_approval(
        &mut self,
        id: &str,
        approve: bool,
        approver: &Principal,
        now: u128,
        trail: &mut Vec<AuditEvent>,
    ) -> (r: Result<Run<'a>, String>)
        ensures
            match r {
                Ok(run) => (called(old(self)@.filter(waiting(now, old(self).ttl)), id@) matches Some(p) && p.run == run)
                    && event_views(final(trail)@) == event_views(old(trail)@).push(
                    resolved_event(id@, approve, approver@, run),
                ),
                Err(e) => called(old(self)@.filter(waiting(now, old(self).ttl)), id@) is None && e@
                    == "no pending approval "@ + debug_quoted(id@) + "; it may have expired or already been decided"@
                    && final(trail)@ == old(trail)@,
            },
            final(self)@ == old(self)@.filter(waiting(now, old(self).ttl)).filter(not_called(id@)),
            final(self).ttl == old(self).ttl,
    {
        self.expire(now);
        match self.take(id) {
            Some(run) => {
                let mut detail = Members::new();
                detail.put("approval_id", Json::str(id));
                detail.put("approved", Json::Bool(approve));
                detail.put("on_behalf_of", Json::str(run.caller().id.as_str()));
                record(
                    trail,
                    AuditEvent {
                        kind: "approval_resolved".to_owned(),
                        run_id: "".to_owned(),
                        actor: Some(approver.id.clone()),
                        tool: None,
                        detail: Json::Object(detail),
                    },
                );
                Ok(run)
            },
            None => Err(Approvals::<Run<'a>>::unknown(id)),
        }
    }
}

/// A decision is consumed: once a run was taken out, nothing waits under its id.
pub proof fn law_a_decision_is_consumed<T>(list: Seq<ParkedView<T>>, id: Seq<char>)
    ensures
        called(list.filter(not_called(id)), id) is None,
{
    lemma_called_filtered(list, id);
}

proof fn lemma_called_among<T>(list: Seq<ParkedView<T>>, id: Seq<char>)
    requires
        called(list, id) is Some,
    ensures
        list.contains(called(list, id)->0),
        called(list, id)->0.id == id,
    decreases list.len(),
{
    if list[0].id != id {
        let rest = list.skip(1);
        lemma_called_among(rest, id);
        let k = choose|k: int| 0 <= k < rest.len() && rest[k] == called(list, id)->0;
        assert(list[k + 1] == rest[k]);
    } else {
        assert(list.contains(list[0]));
    }
}

/// Only a run that waits in time is decided: what is taken out under an id was parked
/// under it, no longer ago than runs may wait.
pub proof fn law_an_expired_run_is_not_decided<T>(list: Seq<ParkedView<T>>, id: Seq<char>, now: u128, ttl: u128)
    requires
        called(list.filter(waiting(now, ttl)), id) is Some,
    ensures
        ({
            let p = called(list.filter(waiting(now, ttl)), id)->0;
            list.contains(p) && p.id == id && elapsed(now, p.created) <= ttl
        }),
{
    let keep = waiting::<T>(now, ttl);
    let live = list.filter(keep);
    lemma_called_among(live, id);
    let p = called(live, id)->0;
    list.lemma_filter_contains_rev(keep, p);
    let k = choose|k: int| 0 <= k < live.len() && live[k] == p;
    list.lemma_filter_pred(keep, k);
}

/// No more runs wait than there is room for.
pub proof fn law_waiting_runs_are_bounded<T>(list: Seq<ParkedView<T>>, p: ParkedView<T>, ttl: u128)
    requires
        list.len() <= MAX_PARKED,
    ensures
        parked(list, p, ttl).len() <= MAX_PARKED,
{
    let live = list.filter(waiting(p.created, ttl));
    list.lemma_filter_len(waiting(p.created, ttl));
    let room = if live.len() >= MAX_PARKED {
        live.skip(1)
    } else {
        live
    };
    room.lemma_filter_len(not_called(p.id));
    let others = room.filter(not_called(p.id));
    lemma_place_in(others, p.created);
}

proof fn lemma_place_in<T>(list: Seq<ParkedView<T>>, created: u128)
    ensures
        0 <= place_in(list, created) <= list.len(),
        forall|i: int|
            place_in(list, created) <= i < list.len() ==> (#[trigger] list[i]).created > created,
        place_in(list, created) > 0 ==> list[place_in(list, created) - 1].created <= created,
    decreases list.len(),
{
    if list.len() > 0 && list.last().created > created {
        lemma_place_in(list.drop_last(), created);
        assert forall|i: int| place_in(list, created) <= i < list.len() implies (#[trigger] list[i]).created
            > created by {
            if i < list.len() - 1 {
                assert(list.drop_last()[i] == list[i]);
            }
        }
        assert(place_in(list, created) > 0 ==> list.drop_last()[place_in(list, created) - 1] == list[place_in(
            list,
            created,
        ) - 1]);
    }
}

proof fn lemma_filter_in_order<T>(list: Seq<ParkedView<T>>, keep: spec_fn(ParkedView<T>) -> bool)
    requires
        oldest_first(list),
    ensures
        oldest_first(list.filter(keep)),
        forall|i: int|
            0 <= i < list.filter(keep).len() ==> exists|j: int|
                0 <= j < list.len() && #[trigger] list.filter(keep)[i] == list[j],
    decreases list.len(),
{
    reveal(Seq::filter);
    if list.len() > 0 {
        let init = list.drop_last();
        assert(oldest_first(init)) by {
            assert forall|i: int, j: int| 0 <= i < j < init.len() implies (#[trigger] init[i]).created <= (
            #[trigger] init[j]).created by {
                assert(list[i].created <= list[j].created);
            }
        }
        lemma_filter_in_order(init, keep);
        let f = init.filter(keep);
        let out = list.filter(keep);
        assert forall|i: int| 0 <= i < out.len() implies exists|j: int|
            0 <= j < list.len() && #[trigger] out[i] == list[j] by {
            if i < f.len() {
                assert(out[i] == f[i]);
                let j = choose|j: int| 0 <= j < init.len() && f[i] == init[j];
                assert(list[j] == init[j]);
            } else {
                assert(out[i] == list[list.len() - 1]);
            }
        }
        assert forall|i: int, j: int| 0 <= i < j < out.len() implies (#[trigger] out[i]).created <= (
        #[trigger] out[j]).created by {
            if j < f.len() {
                assert(f[i].created <= f[j].created);
            } else {
                assert(out[j] == list.last());
                let k = choose|k: int| 0 <= k < init.len() && f[i] == init[k];
                assert(list[k].created <= list[list.len() - 1].created);
            }
        }
    }
}

proof fn lemma_skip_in_order<T>(list: Seq<ParkedView<T>>)
    requires
        oldest_first(list),
        list.len() > 0,
    ensures
        oldest_first(list.skip(1)),
{
    let rest = list.skip(1);
    assert forall|i: int, j: int| 0 <= i < j < rest.len() implies (#[trigger] rest[i]).created <= (
    #[trigger] rest[j]).created by {
        assert(list[i + 1].created <= list[j + 1].created);
    }
}

proof fn lemma_insert_in_order<T>(list: Seq<ParkedView<T>>, p: ParkedView<T>)
    requires
        oldest_first(list),
    ensures
        oldest_first(list.insert(place_in(list, p.created), p)),
{
    lemma_place_in(list, p.created);
    let at = place_in(list, p.created);
    let out = list.insert(at, p);
    assert forall|i: int, j: int| 0 <= i < j < out.len() implies (#[trigger] out[i]).created <= (
    #[trigger] out[j]).created by {
        let a = out[i];
        let b = out[j];
        if i < at {
            assert(a == list[i]);
            if i < at - 1 {
                assert(list[i].created <= list[at - 1].created);
            }
            if j < at {
                assert(b == list[j]);
            } else if j > at {
                assert(b == list[j - 1]);
                assert(list[j - 1].created > p.created);
            }
        } else {
            assert(b == list[j - 1]);
            assert(list[j - 1].created > p.created);
            if i > at {
                assert(a == list[i - 1]);
            }
        }
    }
}

/// Runs are kept in the order in which they were parked, oldest first.
pub proof fn law_waiting_runs_stand_oldest_first<T>(list: Seq<ParkedView<T>>, p: ParkedView<T>, ttl: u128)
    requires
        oldest_first(list),
    ensures
        oldest_first(parked(list, p, ttl)),
        oldest_first(list.filter(waiting(p.created, ttl))),
        oldest_first(list.filter(not_called(p.id))),
{
    lemma_filter_in_order(list, waiting(p.created, ttl));
    lemma_filter_in_order(list, not_called(p.id));
    let live = list.filter(waiting(p.created, ttl));
    if live.len() >= MAX_PARKED {
        lemma_skip_in_order(live);
    }
    let room = if live.len() >= MAX_PARKED {
        live.skip(1)
    } else {
        live
    };
    lemma_filter_in_order(room, not_called(p.id));
    lemma_insert_in_order(room.filter(not_called(p.id)), p);
}

proof fn lemma_called_at<T>(list: Seq<ParkedView<T>>, i: int)
    requires
        0 <= i < list.len(),
        forall|k: int| 0 <= k < i ==> (#[trigger] list[k]).id != list[i].id,
    ensures
        called(list, list[i].id) == Some(list[i]),
    decreases list.len(),
{
    if i > 0 {
        let rest = list.skip(1);
        assert(rest[i - 1] == list[i]);
        assert forall|k: int| 0 <= k < i - 1 implies (#[trigger] rest[k]).id != rest[i - 1].id by {
            assert(rest[k] == list[k + 1]);
        }
        lemma_called_at(rest, i - 1);
        assert(list[0].id != list[i].id);
    }
}

/// A run that is parked is found again under its id, as it was parked; and one that waits
/// already, has another id and has not expired still waits, unless it is the one that makes
/// room.
pub proof fn law_a_parked_run_is_found_again<T>(list: Seq<ParkedView<T>>, p: ParkedView<T>, ttl: u128, i: int)
    requires
        0 <= i < list.len(),
    ensures
        called(parked(list, p, ttl), p.id) == Some(p),
        list.len() < MAX_PARKED && list[i].id != p.id && elapsed(p.created, list[i].created) <= ttl ==> parked(list, p, ttl).contains(
            list[i],
        ),
        forall|q: ParkedView<T>| #[trigger] parked(list, p, ttl).contains(q) ==> q == p || list.contains(q),
{
    let live = list.filter(waiting(p.created, ttl));
    list.lemma_filter_len(waiting(p.created, ttl));
    let room = if live.len() >= MAX_PARKED {
        live.skip(1)
    } else {
        live
    };
    let others = room.filter(not_called(p.id));
    let at = place_in(others, p.created);
    lemma_place_in(others, p.created);
    let all = others.insert(at, p);
    assert(all == parked(list, p, ttl));
    assert(all[at] == p);
    assert forall|k: int| 0 <= k < at implies (#[trigger] all[k]).id != p.id by {
        assert(all[k] == others[k]);
        room.lemma_filter_pred(not_called(p.id), k);
        assert(not_called::<T>(p.id)(others[k]));
    }
    lemma_called_at(all, at);
    if list.len() < MAX_PARKED && list[i].id != p.id && elapsed(p.created, list[i].created) <= ttl {
        assert(waiting::<T>(p.created, ttl)(list[i]));
        list.lemma_filter_contains(waiting(p.created, ttl), i);
        let j = choose|j: int| 0 <= j < live.len() && live[j] == list[i];
        assert(not_called::<T>(p.id)(live[j]));
        room.lemma_filter_contains(not_called(p.id), j);
        let k = choose|k: int| 0 <= k < others.len() && others[k] == list[i];
        if k < at {
            assert(all[k] == list[i]);
        } else {
            assert(all[k + 1] == list[i]);
        }
    }
    assert forall|q: ParkedView<T>| #[trigger] all.contains(q) implies q == p || list.contains(q) by {
        let k = choose|k: int| 0 <= k < all.len() && all[k] == q;
        if k != at {
            let o = if k < at { k } else { k - 1 };
            assert(others[o] == q);
            assert(others.contains(q));
            room.lemma_filter_contains_rev(not_called(p.id), q);
            let r = choose|r: int| 0 <= r < room.len() && room[r] == q;
            if live.len() >= MAX_PARKED {
                assert(live[r + 1] == q);
            } else {
                assert(live[r] == q);
            }
            assert(live.contains(q));
            list.lemma_filter_contains_rev(waiting(p.created, ttl), q);
        }
    }
}

/// Every run that waits is told of, in order, with its id and how long it has waited.
pub proof fn law_every_waiting_run_is_told_of(list: Seq<ParkedView<Run>>, now: u128, i: int)
    requires
        0 <= i < list.len(),
    ensures
        ({
            let told = summaries(list, now);
            let p = list[i];
            let call = p.run.batch.calls@[p.run.batch.at as int]@;
            &&& told.len() == list.len()
            &&& crate::json::member(told[i], "approval_id"@) == Some(JsonView::Str(p.id))
            &&& crate::json::member(told[i], "run_id"@) == Some(JsonView::Str(p.run.st@.run_id))
            &&& crate::json::member(told[i], "caller"@) == Some(JsonView::Str(p.run.st@.caller.id))
            &&& crate::json::member(told[i], "tool"@) == Some(JsonView::Str(call.name))
            &&& crate::json::member(told[i], "arguments"@) == Some(call.arguments)
            &&& now >= p.created && now - p.created <= u64::MAX ==> crate::json::member(told[i], "age_secs"@) == Some(
                JsonView::Number(crate::json::NumberView::Int((now - p.created) / 1_000_000_000)),
            )
        }),
{
    crate::runtime::law_a_waiting_run_says_for_what(list[i].run, list[i].id, age_of(now, list[i].created));
}

/// A decision is audited with who decided, on what, how, and on whose behalf the run is.
pub proof fn law_a_decision_says_who_decided(id: Seq<char>, approve: bool, approver: PrincipalView, run: Run)
    ensures
        ({
            let e = resolved_event(id, approve, approver, run);
            &&& e.kind == "approval_resolved"@ && e.actor == Some(approver.id)
            &&& crate::json::member(e.detail, "approval_id"@) == Some(JsonView::Str(id))
            &&& crate::json::member(e.detail, "approved"@) == Some(JsonView::Bool(approve))
            &&& crate::json::member(e.detail, "on_behalf_of"@) == Some(JsonView::Str(run.st@.caller.id))
        }),
{
    reveal_strlit("approval_id");
    reveal_strlit("approved");
    reveal_strlit("on_behalf_of");
    assert("approval_id"@.len() == 11);
    assert("approved"@.len() == 8);
    assert("on_behalf_of"@.len() == 12);
}

} // verus!
