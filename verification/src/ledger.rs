//! The spend ledger.
//!
//! Every provider call is charged here, keyed by what made it (an agent, a
//! behaviour, a flow's classifier) and which model answered. It is in-process
//! and bounded.

use crate::budget::saturating;
use crate::json::{Json, JsonView, Members, NumberView};
use crate::manifest::Price;
use crate::table::Table;
use crate::text::{before, cat3, lemma_precedes_irreflexive, lemma_precedes_total, lemma_precedes_transitive, precedes, same, split_once, texts};
use vstd::prelude::*;

verus! {

#[derive(Debug, Clone, Copy, PartialEq, Eq, Structural)]
pub struct Totals {
    pub calls: u64,
    pub input_tokens: u64,
    pub output_tokens: u64,
    pub cache_read_tokens: u64,
    pub cache_write_tokens: u64,
}

/// Totals of nothing.
pub open spec fn no_totals() -> Totals {
    Totals { calls: 0, input_tokens: 0, output_tokens: 0, cache_read_tokens: 0, cache_write_tokens: 0 }
}

/// Two totals together, each count stopped at the largest that fits.
pub open spec fn merged(a: Totals, b: Totals) -> Totals {
    Totals {
        calls: saturating(a.calls, b.calls),
        input_tokens: saturating(a.input_tokens, b.input_tokens),
        output_tokens: saturating(a.output_tokens, b.output_tokens),
        cache_read_tokens: saturating(a.cache_read_tokens, b.cache_read_tokens),
        cache_write_tokens: saturating(a.cache_write_tokens, b.cache_write_tokens),
    }
}

/// The totals of one call.
pub open spec fn one_call(input: u64, output: u64, cache_read: u64, cache_write: u64) -> Totals {
    Totals {
        calls: 1,
        input_tokens: input,
        output_tokens: output,
        cache_read_tokens: cache_read,
        cache_write_tokens: cache_write,
    }
}

/// All tokens of totals.
pub open spec fn tokens_of(t: Totals) -> u64 {
    saturating(
        saturating(saturating(t.input_tokens, t.output_tokens), t.cache_read_tokens),
        t.cache_write_tokens,
    )
}

impl Default for Totals {
    fn default() -> (r: Self)
        ensures
            r == no_totals(),
    {
        Totals { calls: 0, input_tokens: 0, output_tokens: 0, cache_read_tokens: 0, cache_write_tokens: 0 }
    }
}

impl Totals {
    /// Adds one call.
    pub fn add(&mut self, input: u64, output: u64, cache_read: u64, cache_write: u64)
        ensures
            *final(self) == merged(*old(self), one_call(input, output, cache_read, cache_write)),
    {
        let other = Totals {
            calls: 1,
            input_tokens: input,
            output_tokens: output,
            cache_read_tokens: cache_read,
            cache_write_tokens: cache_write,
        };
        self.merge(&other);
    }

    /// Folds others in. Saturating: the token counts are whatever an upstream
    /// reported.
    pub fn merge(&mut self, other: &Totals)
        ensures
            *final(self) == merged(*old(self), *other),
    {
        self.calls = self.calls.saturating_add(other.calls);
        self.input_tokens = self.input_tokens.saturating_add(other.input_tokens);
        self.output_tokens = self.output_tokens.saturating_add(other.output_tokens);
        self.cache_read_tokens = self.cache_read_tokens.saturating_add(other.cache_read_tokens);
        self.cache_write_tokens = self.cache_write_tokens.saturating_add(other.cache_write_tokens);
    }

    pub fn total_tokens(&self) -> (r: u64)
        ensures
            r == tokens_of(*self),
    {
        self.input_tokens.saturating_add(self.output_tokens).saturating_add(self.cache_read_tokens).saturating_add(
            self.cache_write_tokens,
        )
    }
}

/// Merging is the same in any order and grouping.
pub proof fn law_merge_commutes(a: Totals, b: Totals, c: Totals)
    ensures
        merged(a, b) == merged(b, a),
        merged(merged(a, b), c) == merged(a, merged(b, c)),
        merged(a, no_totals()) == a,
{
}

/// What is charged, and for what.
#[derive(Debug)]
pub struct LedgerKey {
    /// `agent`, `behaviour`, `flow`, `compaction`
    pub kind: String,
    pub name: String,
    pub model: String,
}

/// What a [`LedgerKey`] says.
pub struct KeyView {
    pub kind: Seq<char>,
    pub name: Seq<char>,
    pub model: Seq<char>,
}

impl View for LedgerKey {
    type V = KeyView;

    open spec fn view(&self) -> KeyView {
        KeyView { kind: self.kind@, name: self.name@, model: self.model@ }
    }
}

/// The order of keys: by kind, then by name, then by model.
pub open spec fn key_before(a: KeyView, b: KeyView) -> bool {
    precedes(a.kind, b.kind) || (a.kind == b.kind && (precedes(a.name, b.name) || (a.name == b.name && precedes(
        a.model,
        b.model,
    ))))
}

proof fn lemma_key_irreflexive(a: KeyView)
    ensures
        !key_before(a, a),
{
    lemma_precedes_irreflexive(a.kind);
    lemma_precedes_irreflexive(a.name);
    lemma_precedes_irreflexive(a.model);
}

proof fn lemma_key_transitive(a: KeyView, b: KeyView, c: KeyView)
    requires
        key_before(a, b),
        key_before(b, c),
    ensures
        key_before(a, c),
{
    if precedes(a.kind, b.kind) && precedes(b.kind, c.kind) {
        lemma_precedes_transitive(a.kind, b.kind, c.kind);
    }
    if precedes(a.name, b.name) && precedes(b.name, c.name) {
        lemma_precedes_transitive(a.name, b.name, c.name);
    }
    if precedes(a.model, b.model) && precedes(b.model, c.model) {
        lemma_precedes_transitive(a.model, b.model, c.model);
    }
}

proof fn lemma_key_total(a: KeyView, b: KeyView)
    ensures
        a == b || key_before(a, b) || key_before(b, a),
{
    lemma_precedes_total(a.kind, b.kind);
    lemma_precedes_total(a.name, b.name);
    lemma_precedes_total(a.model, b.model);
}

impl LedgerKey {
    fn comes_before(&self, kind: &str, name: &str, model: &str) -> (r: bool)
        ensures
            r == key_before(self@, (KeyView { kind: kind@, name: name@, model: model@ })),
    {
        before(self.kind.as_str(), kind) || (same(self.kind.as_str(), kind) && (before(self.name.as_str(), name) || (
        same(self.name.as_str(), name) && before(self.model.as_str(), model))))
    }

    fn is(&self, kind: &str, name: &str, model: &str) -> (r: bool)
        ensures
            r == (self@ == (KeyView { kind: kind@, name: name@, model: model@ })),
    {
        same(self.kind.as_str(), kind) && same(self.name.as_str(), name) && same(self.model.as_str(), model)
    }
}

/// The map that a list of entries stands for.
pub open spec fn entry_map(s: Seq<(KeyView, Totals)>) -> Map<KeyView, Totals>
    decreases s.len(),
{
    if s.len() == 0 {
        Map::empty()
    } else {
        entry_map(s.drop_last()).insert(s.last().0, s.last().1)
    }
}

/// Whether entries stand in the order of their keys, none twice.
pub open spec fn keys_in_order(s: Seq<(KeyView, Totals)>) -> bool {
    forall|i: int, j: int| 0 <= i < j < s.len() ==> key_before(#[trigger] s[i].0, #[trigger] s[j].0)
}

proof fn lemma_entries(s: Seq<(KeyView, Totals)>)
    requires
        keys_in_order(s),
    ensures
        forall|i: int| 0 <= i < s.len() ==> entry_map(s).contains_key((#[trigger] s[i]).0) && entry_map(s)[s[i].0]
            == s[i].1,
        forall|k: KeyView| #[trigger] entry_map(s).contains_key(k) ==> exists|i: int|
            0 <= i < s.len() && (#[trigger] s[i]).0 == k,
        entry_map(s).dom().finite(),
        entry_map(s).len() == s.len(),
    decreases s.len(),
{
    if s.len() > 0 {
        let init = s.drop_last();
        assert(keys_in_order(init));
        lemma_entries(init);
        lemma_key_irreflexive(s.last().0);
        assert forall|i: int| 0 <= i < s.len() implies entry_map(s).contains_key((#[trigger] s[i]).0) && entry_map(
            s,
        )[s[i].0] == s[i].1 by {
            if i < s.len() - 1 {
                assert(init[i] == s[i]);
                assert(key_before(s[i].0, s[s.len() - 1].0));
            }
        }
        assert forall|k: KeyView| #[trigger] entry_map(s).contains_key(k) implies exists|i: int|
            0 <= i < s.len() && (#[trigger] s[i]).0 == k by {
            if k == s.last().0 {
                assert(s[s.len() - 1].0 == k);
            } else {
                let i = choose|i: int| 0 <= i < init.len() && (#[trigger] init[i]).0 == k;
                assert(s[i].0 == k);
            }
        }
        if entry_map(init).contains_key(s.last().0) {
            let i = choose|i: int| 0 <= i < init.len() && (#[trigger] init[i]).0 == s.last().0;
            assert(key_before(s[i].0, s[s.len() - 1].0));
        }
    }
}

/// The most keys a ledger holds.
pub const MAX_KEYS: usize = 10_000;

/// Spend by key, and how many runs were counted.
#[derive(Debug)]
pub struct Ledger {
    entries: Vec<(LedgerKey, Totals)>,
    runs: u64,
    started_unix: u64,
}

impl View for Ledger {
    type V = Map<KeyView, Totals>;

    open spec fn view(&self) -> Map<KeyView, Totals> {
        entry_map(self.pairs())
    }
}

/// The totals of a key, none where it was never charged.
pub open spec fn charged(m: Map<KeyView, Totals>, k: KeyView) -> Totals {
    if m.contains_key(k) {
        m[k]
    } else {
        no_totals()
    }
}

/// A ledger after a charge: the key's totals with the call added, unless the key is
/// new and there are too many.
pub open spec fn after_charge(m: Map<KeyView, Totals>, k: KeyView, call: Totals) -> Map<KeyView, Totals> {
    if m.len() >= MAX_KEYS && !m.contains_key(k) {
        m
    } else {
        m.insert(k, merged(charged(m, k), call))
    }
}

impl Ledger {
    /// The entries in the order of their keys.
    pub closed spec fn pairs(&self) -> Seq<(KeyView, Totals)> {
        self.entries@.map_values(|e: (LedgerKey, Totals)| (e.0@, e.1))
    }

    /// How many runs were counted.
    pub closed spec fn run_count(&self) -> u64 {
        self.runs
    }

    /// When the ledger was started, in seconds of the Unix clock.
    pub closed spec fn since(&self) -> u64 {
        self.started_unix
    }

    #[verifier::type_invariant]
    spec fn ordered(self) -> bool {
        keys_in_order(self.pairs())
    }

    /// A ledger without charges.
    pub fn new(started_unix: u64) -> (r: Ledger)
        ensures
            r@ == Map::<KeyView, Totals>::empty(),
            r.run_count() == 0,
            r.since() == started_unix,
    {
        let r = Ledger { entries: Vec::new(), runs: 0, started_unix };
        assert(r.pairs() =~= Seq::empty());
        r
    }

    /// Charges one call. Bounded: distinct keys cannot grow memory without limit.
    pub fn charge(
        &mut self,
        kind: &str,
        name: &str,
        model: &str,
        input: u64,
        output: u64,
        cache_read: u64,
        cache_write: u64,
    )
        ensures
            final(self)@ == after_charge(
                old(self)@,
                KeyView { kind: kind@, name: name@, model: model@ },
                one_call(input, output, cache_read, cache_write),
            ),
            final(self).run_count() == old(self).run_count(),
            final(self).since() == old(self).since(),
    {
        proof {
            use_type_invariant(&*self);
            lemma_entries(self.pairs());
        }
        let ghost key = KeyView { kind: kind@, name: name@, model: model@ };
        let ghost call = one_call(input, output, cache_read, cache_write);
        let ghost was = self.pairs();
        let mut entries: Vec<(LedgerKey, Totals)> = Vec::new();
        std::mem::swap(&mut entries, &mut self.entries);
        let ghost old_entries = entries@;
        let ghost f = |e: (LedgerKey, Totals)| (e.0@, e.1);
        assert(was == old_entries.map_values(f));
        let mut i: usize = 0;
        while i < entries.len() && entries[i].0.comes_before(kind, name, model)
            invariant
                i <= entries@.len(),
                entries@ == old_entries,
                f == (|e: (LedgerKey, Totals)| (e.0@, e.1)),
                was == old_entries.map_values(f),
                key == (KeyView { kind: kind@, name: name@, model: model@ }),
                forall|j: int| 0 <= j < i ==> key_before((#[trigger] was[j]).0, key),
            decreases entries.len() - i,
        {
            assert(was[i as int].0 == entries@[i as int].0@);
            i = i + 1;
        }
        if i < entries.len() {
            assert(was[i as int].0 == entries@[i as int].0@);
            proof {
                lemma_key_total(was[i as int].0, key);
            }
        }
        if i < entries.len() && entries[i].0.is(kind, name, model) {
            let mut t = entries[i].1;
            t.add(input, output, cache_read, cache_write);
            let k = LedgerKey { kind: kind.to_owned(), name: name.to_owned(), model: model.to_owned() };
            entries[i] = (k, t);
            proof {
                let now = entries@.map_values(f);
                assert(now =~= was.update(i as int, (key, t)));
                assert(keys_in_order(now)) by {
                    assert forall|a: int, b: int| 0 <= a < b < now.len() implies key_before(
                        #[trigger] now[a].0,
                        #[trigger] now[b].0,
                    ) by {
                        assert(key_before(was[a].0, was[b].0));
                    }
                }
                lemma_updated(was, now, i as int, key, t);
            }
        } else {
            proof {
                if entry_map(was).contains_key(key) {
                    let j = choose|j: int| 0 <= j < was.len() && (#[trigger] was[j]).0 == key;
                    lemma_key_irreflexive(key);
                    if j > i {
                        assert(key_before(was[i as int].0, was[j].0));
                        lemma_key_transitive(key, was[i as int].0, was[j].0);
                    }
                }
            }
            if entries.len() < MAX_KEYS {
                let mut t = Totals::default();
                t.add(input, output, cache_read, cache_write);
                let k = LedgerKey { kind: kind.to_owned(), name: name.to_owned(), model: model.to_owned() };
                entries.insert(i, (k, t));
                proof {
                    let now = entries@.map_values(f);
                    assert(now =~= was.insert(i as int, (key, t)));
                    assert(keys_in_order(now)) by {
                        assert forall|a: int, b: int| 0 <= a < b < now.len() implies key_before(
                            #[trigger] now[a].0,
                            #[trigger] now[b].0,
                        ) by {
                            if b < i {
                                assert(key_before(was[a].0, was[b].0));
                            } else if b == i {
                                assert(now[a] == was[a]);
                            } else if a == i {
                                if b - 1 > i {
                                    assert(key_before(was[i as int].0, was[b - 1].0));
                                    lemma_key_transitive(key, was[i as int].0, was[b - 1].0);
                                }
                            } else if a < i {
                                assert(key_before(was[a].0, was[b - 1].0));
                            } else {
                                assert(key_before(was[a - 1].0, was[b - 1].0));
                            }
                        }
                    }
                    lemma_added(was, now, i as int, key, t);
                }
            } else {
                assert(entries@.map_values(f) == was);
            }
        }
        self.entries = entries;
        assert(self.pairs() == entries@.map_values(f));
    }

    /// Counts a run.
    pub fn count_run(&mut self)
        requires
            old(self).run_count() < u64::MAX,
        ensures
            final(self)@ == old(self)@,
            final(self).run_count() == old(self).run_count() + 1,
            final(self).since() == old(self).since(),
    {
        proof {
            use_type_invariant(&*self);
        }
        self.runs = self.runs + 1;
    }

    /// How many runs were counted.
    pub fn run_total(&self) -> (r: u64)
        ensures
            r == self.run_count(),
    {
        self.runs
    }

    /// When the ledger was started, in seconds of the Unix clock.
    pub fn started(&self) -> (r: u64)
        ensures
            r == self.since(),
    {
        self.started_unix
    }

    /// The number of keys.
    pub fn len(&self) -> (n: usize)
        ensures
            n == self.pairs().len(),
            keys_in_order(self.pairs()),
            n == self@.len(),
    {
        proof {
            use_type_invariant(self);
            lemma_entries(self.pairs());
        }
        self.entries.len()
    }

    /// An entry, by its place in the order.
    pub fn entry(&self, i: usize) -> (r: (&LedgerKey, Totals))
        requires
            i < self.pairs().len(),
        ensures
            (r.0@, r.1) == self.pairs()[i as int],
    {
        (&self.entries[i].0, self.entries[i].1)
    }
}

proof fn lemma_updated(a: Seq<(KeyView, Totals)>, b: Seq<(KeyView, Totals)>, i: int, key: KeyView, t: Totals)
    requires
        keys_in_order(a),
        keys_in_order(b),
        0 <= i < a.len(),
        a[i].0 == key,
        b == a.update(i, (key, t)),
    ensures
        entry_map(b) == entry_map(a).insert(key, t),
        entry_map(a).contains_key(key),
        entry_map(a)[key] == a[i].1,
{
    lemma_entries(a);
    lemma_entries(b);
    let m = entry_map(a).insert(key, t);
    assert forall|k: KeyView| #[trigger] entry_map(b).contains_key(k) == m.contains_key(k) && (m.contains_key(k)
        ==> entry_map(b)[k] == m[k]) by {
        assert(b[i].0 == key);
        if entry_map(b).contains_key(k) {
            let j = choose|j: int| 0 <= j < b.len() && (#[trigger] b[j]).0 == k;
            assert(a[j].0 == k);
        }
        if m.contains_key(k) && k != key {
            let j = choose|j: int| 0 <= j < a.len() && (#[trigger] a[j]).0 == k;
            assert(b[j] == a[j]);
        }
    }
    assert(entry_map(b) =~= m);
}

proof fn lemma_added(a: Seq<(KeyView, Totals)>, b: Seq<(KeyView, Totals)>, i: int, key: KeyView, t: Totals)
    requires
        keys_in_order(a),
        keys_in_order(b),
        0 <= i <= a.len(),
        b == a.insert(i, (key, t)),
    ensures
        entry_map(b) == entry_map(a).insert(key, t),
{
    lemma_entries(a);
    lemma_entries(b);
    let m = entry_map(a).insert(key, t);
    assert(b[i] == (key, t));
    assert forall|k: KeyView| #[trigger] entry_map(b).contains_key(k) == m.contains_key(k) && (m.contains_key(k)
        ==> entry_map(b)[k] == m[k]) by {
        if entry_map(b).contains_key(k) && k != key {
            let j = choose|j: int| 0 <= j < b.len() && (#[trigger] b[j]).0 == k;
            if j < i {
                assert(a[j] == b[j]);
            } else {
                assert(a[j - 1] == b[j]);
            }
        }
        if m.contains_key(k) && k != key {
            let j = choose|j: int| 0 <= j < a.len() && (#[trigger] a[j]).0 == k;
            if j < i {
                assert(a[j] == b[j]);
            } else {
                assert(a[j] == b[j + 1]);
            }
        }
    }
    assert(entry_map(b) =~= m);
}

/// A ledger never holds more keys than its bound, and a charge touches no other key.
pub proof fn law_ledger_is_bounded_and_isolated(m: Map<KeyView, Totals>, k: KeyView, call: Totals, other: KeyView)
    requires
        m.dom().finite(),
        m.len() <= MAX_KEYS,
        other != k,
    ensures
        after_charge(m, k, call).len() <= MAX_KEYS,
        charged(after_charge(m, k, call), other) == charged(m, other),
{
}

/// Two charges to one key add up.
pub proof fn law_charges_accumulate(m: Map<KeyView, Totals>, k: KeyView, a: Totals, b: Totals)
    requires
        m.dom().finite(),
        m.len() < MAX_KEYS,
    ensures
        charged(after_charge(after_charge(m, k, a), k, b), k) == merged(charged(m, k), merged(a, b)),
{
}

/// A count as JSON.
pub open spec fn count_json(n: u64) -> JsonView {
    JsonView::Number(NumberView::Int(n as int))
}

/// Totals as JSON.
pub open spec fn totals_json(t: Totals) -> JsonView {
    JsonView::Object(
        Map::empty().insert("calls"@, count_json(t.calls)).insert("input_tokens"@, count_json(t.input_tokens)).insert(
            "output_tokens"@,
            count_json(t.output_tokens),
        ).insert("cache_read_tokens"@, count_json(t.cache_read_tokens)).insert(
            "cache_write_tokens"@,
            count_json(t.cache_write_tokens),
        ),
    )
}

impl Totals {
    pub fn to_json(&self) -> (r: Json)
        ensures
            r@ == totals_json(*self),
    {
        let mut m = Members::new();
        m.put("calls", Json::num(self.calls));
        m.put("input_tokens", Json::num(self.input_tokens));
        m.put("output_tokens", Json::num(self.output_tokens));
        m.put("cache_read_tokens", Json::num(self.cache_read_tokens));
        m.put("cache_write_tokens", Json::num(self.cache_write_tokens));
        Json::Object(m)
    }
}

/// All entries together.
pub open spec fn grand_total(s: Seq<(KeyView, Totals)>) -> Totals
    decreases s.len(),
{
    if s.len() == 0 {
        no_totals()
    } else {
        merged(grand_total(s.drop_last()), s.last().1)
    }
}

/// The totals of a name, none where there is none.
pub open spec fn of_name(m: Map<Seq<char>, Totals>, name: Seq<char>) -> Totals {
    if m.contains_key(name) {
        m[name]
    } else {
        no_totals()
    }
}

/// The entries by model.
pub open spec fn model_totals(s: Seq<(KeyView, Totals)>) -> Map<Seq<char>, Totals>
    decreases s.len(),
{
    if s.len() == 0 {
        Map::empty()
    } else {
        let m = model_totals(s.drop_last());
        let k = s.last().0.model;
        m.insert(k, merged(of_name(m, k), s.last().1))
    }
}

/// What made a call, as one text.
pub open spec fn caller_text(k: KeyView) -> Seq<char> {
    k.kind + ":"@ + k.name
}

/// The entries by what made the calls.
pub open spec fn caller_totals(s: Seq<(KeyView, Totals)>) -> Map<Seq<char>, Totals>
    decreases s.len(),
{
    if s.len() == 0 {
        Map::empty()
    } else {
        let m = caller_totals(s.drop_last());
        let k = caller_text(s.last().0);
        m.insert(k, merged(of_name(m, k), s.last().1))
    }
}

/// Whether a model has a price: under its name, or under the name behind its
/// provider's prefix.
pub open spec fn is_priced(pricing: Map<Seq<char>, Price>, model: Seq<char>) -> bool {
    pricing.contains_key(model) || (crate::text::cut_once(model, '/') matches Some(p) && pricing.contains_key(p.1))
}

/// The models without a price, each once, in the order of the entries.
pub open spec fn unpriced_models(s: Seq<(KeyView, Totals)>, pricing: Map<Seq<char>, Price>) -> Seq<Seq<char>>
    decreases s.len(),
{
    if s.len() == 0 {
        Seq::empty()
    } else {
        let before = unpriced_models(s.drop_last(), pricing);
        let model = s.last().0.model;
        if !is_priced(pricing, model) && !before.contains(model) {
            before.push(model)
        } else {
            before
        }
    }
}

/// An entry as JSON.
pub open spec fn entry_json(e: (KeyView, Totals)) -> JsonView {
    JsonView::Object(
        Map::empty().insert("kind"@, JsonView::Str(e.0.kind)).insert("name"@, JsonView::Str(e.0.name)).insert(
            "model"@,
            JsonView::Str(e.0.model),
        ).insert("usage"@, totals_json(e.1)),
    )
}

/// A table of totals as JSON.
pub open spec fn table_json(m: Map<Seq<char>, Totals>) -> JsonView {
    JsonView::Object(m.map_values(|t: Totals| totals_json(t)))
}

/// The report of a ledger. The estimated cost is the cost of what has a price where
/// everything has one, and null otherwise: unpriced is not free.
pub open spec fn report(
    s: Seq<(KeyView, Totals)>,
    since: u64,
    uptime: u64,
    runs: u64,
    pricing: Map<Seq<char>, Price>,
    priced_cost: JsonView,
) -> JsonView {
    JsonView::Object(
        Map::empty().insert("since_unix"@, count_json(since)).insert("uptime_secs"@, count_json(uptime)).insert(
            "runs"@,
            count_json(runs),
        ).insert("totals"@, totals_json(grand_total(s))).insert("total_tokens"@, count_json(tokens_of(grand_total(s)))).insert(
            "by_model"@,
            table_json(model_totals(s)),
        ).insert("by_caller"@, table_json(caller_totals(s))).insert(
            "estimated_cost_usd"@,
            if unpriced_models(s, pricing).len() == 0 {
                priced_cost
            } else {
                JsonView::Null
            },
        ).insert("priced_cost_usd"@, priced_cost).insert(
            "unpriced_models"@,
            crate::json::text_array(unpriced_models(s, pricing)),
        ).insert("entries"@, JsonView::Array(s.map_values(|e: (KeyView, Totals)| entry_json(e)))),
    )
}

/// Whether a model has a price.
pub fn has_price(pricing: &Table<Price>, model: &str) -> (r: bool)
    ensures
        r == is_priced(pricing@, model@),
{
    if pricing.get(model).is_some() {
        return true;
    }
    match split_once(model, '/') {
        Some(p) => pricing.get(p.1.as_str()).is_some(),
        None => false,
    }
}

fn add_to(table: &mut Table<Totals>, name: &str, t: &Totals)
    ensures
        final(table)@ == old(table)@.insert(name@, merged(of_name(old(table)@, name@), *t)),
{
    let mut sum = match table.get(name) {
        Some(x) => *x,
        None => Totals::default(),
    };
    sum.merge(t);
    table.insert(name, sum);
}

fn totals_table_json(table: &Table<Totals>) -> (r: Json)
    ensures
        r@ == table_json(table@),
{
    let mut m = Members::new();
    let ghost pairs = table.pairs();
    let n: usize = table.len();
    let mut i: usize = 0;
    proof {
        crate::table::lemma_table_pairs(pairs);
        assert(pairs.take(0) =~= Seq::empty());
    }
    assert(m@ =~= crate::table::pairs_map(pairs.take(0)).map_values(|t: Totals| totals_json(t)));
    while i < n
        invariant
            i <= n == pairs.len(),
            pairs == table.pairs(),
            m@ == crate::table::pairs_map(pairs.take(i as int)).map_values(|t: Totals| totals_json(t)),
        decreases n - i,
    {
        let ghost was = crate::table::pairs_map(pairs.take(i as int));
        m.put(table.key_at(i), table.value_at(i).to_json());
        assert(pairs.take(i + 1).drop_last() =~= pairs.take(i as int));
        assert(pairs.take(i + 1).last() == pairs[i as int]);
        assert(m@ =~= was.insert(pairs[i as int].0, pairs[i as int].1).map_values(|t: Totals| totals_json(t)));
        i = i + 1;
    }
    assert(pairs.take(pairs.len() as int) =~= pairs);
    Json::Object(m)
}

impl Ledger {
    /// A report for the control plane. `priced_cost` is the cost, in dollars, of
    /// what has a price.
    pub fn snapshot(&self, pricing: &Table<Price>, uptime_secs: u64, priced_cost: &Json) -> (r: Json)
        ensures
            r@ == report(self.pairs(), self.since(), uptime_secs, self.run_count(), pricing@, priced_cost@),
    {
        let ghost all = self.pairs();
        let mut total = Totals::default();
        let mut by_model: Table<Totals> = Table::new();
        let mut by_caller: Table<Totals> = Table::new();
        let mut unpriced: Vec<String> = Vec::new();
        let mut entries: Vec<Json> = Vec::new();
        let n: usize = self.len();
        let mut i: usize = 0;
        proof {
            assert(all.take(0) =~= Seq::empty());
            assert(texts(unpriced@) =~= unpriced_models(all.take(0), pricing@));
            assert(by_model@ =~= model_totals(all.take(0)));
            assert(by_caller@ =~= caller_totals(all.take(0)));
        }
        while i < n
            invariant
                i <= n == all.len(),
                all == self.pairs(),
                total == grand_total(all.take(i as int)),
                by_model@ == model_totals(all.take(i as int)),
                by_caller@ == caller_totals(all.take(i as int)),
                texts(unpriced@) == unpriced_models(all.take(i as int), pricing@),
                entries@.len() == i,
                forall|k: int| 0 <= k < i ==> (#[trigger] entries@[k])@ == entry_json(all[k]),
            decreases n - i,
        {
            assert(all.take(i + 1).drop_last() =~= all.take(i as int));
            assert(all.take(i + 1).last() == all[i as int]);
            let (key, t) = self.entry(i);
            total.merge(&t);
            add_to(&mut by_model, key.model.as_str(), &t);
            let caller = cat3(key.kind.as_str(), ":", key.name.as_str());
            add_to(&mut by_caller, caller.as_str(), &t);
            if !has_price(pricing, key.model.as_str()) && !crate::text::holds(&unpriced, key.model.as_str()) {
                proof {
                    crate::text::lemma_texts_push(unpriced@, key.model);
                }
                unpriced.push(key.model.clone());
            }
            let mut e = Members::new();
            e.put("kind", Json::str(key.kind.as_str()));
            e.put("name", Json::str(key.name.as_str()));
            e.put("model", Json::str(key.model.as_str()));
            e.put("usage", t.to_json());
            entries.push(Json::Object(e));
            i = i + 1;
        }
        assert(all.take(all.len() as int) =~= all);
        let mut m = Members::new();
        m.put("since_unix", Json::num(self.started()));
        m.put("uptime_secs", Json::num(uptime_secs));
        m.put("runs", Json::num(self.run_total()));
        m.put("totals", total.to_json());
        m.put("total_tokens", Json::num(total.total_tokens()));
        m.put("by_model", totals_table_json(&by_model));
        m.put("by_caller", totals_table_json(&by_caller));
        let estimated = if unpriced.len() == 0 {
            priced_cost.copy()
        } else {
            Json::Null
        };
        assert(texts(unpriced@).len() == unpriced@.len());
        m.put("estimated_cost_usd", estimated);
        m.put("priced_cost_usd", priced_cost.copy());
        m.put("unpriced_models", crate::json::texts_to_json(&unpriced));
        proof {
            Json::lemma_array(entries);
            assert(Json::Array(entries)@->Array_0 =~= all.map_values(|e: (KeyView, Totals)| entry_json(e)));
        }
        m.put("entries", Json::Array(entries));
        Json::Object(m)
    }
}

proof fn lemma_unpriced(s: Seq<(KeyView, Totals)>, pricing: Map<Seq<char>, Price>)
    ensures
        unpriced_models(s, pricing).len() == 0 <==> forall|i: int|
            0 <= i < s.len() ==> is_priced(pricing, (#[trigger] s[i]).0.model),
    decreases s.len(),
{
    if s.len() > 0 {
        let rest = s.drop_last();
        lemma_unpriced(rest, pricing);
        assert forall|i: int| 0 <= i < rest.len() implies (#[trigger] rest[i]) == s[i] by {}
        if unpriced_models(s, pricing).len() == 0 {
            assert forall|i: int| 0 <= i < s.len() implies is_priced(pricing, (#[trigger] s[i]).0.model) by {
                if i < rest.len() {
                    assert(rest[i] == s[i]);
                }
            }
        }
    }
}

/// Unpriced is not free: the estimated cost is null where a model that was used has no
/// price, and otherwise what the priced tokens cost.
pub proof fn law_unpriced_is_not_free(
    s: Seq<(KeyView, Totals)>,
    since: u64,
    uptime: u64,
    runs: u64,
    pricing: Map<Seq<char>, Price>,
    priced_cost: JsonView,
)
    ensures
        crate::json::member(report(s, since, uptime, runs, pricing, priced_cost), "estimated_cost_usd"@) == Some(
            if forall|i: int| 0 <= i < s.len() ==> is_priced(pricing, (#[trigger] s[i]).0.model) {
                priced_cost
            } else {
                JsonView::Null
            },
        ),
{
    lemma_unpriced(s, pricing);
    reveal_strlit("estimated_cost_usd");
    reveal_strlit("priced_cost_usd");
    reveal_strlit("unpriced_models");
    reveal_strlit("entries");
    assert("estimated_cost_usd"@.len() == 18);
    assert("priced_cost_usd"@.len() == 15);
    assert("unpriced_models"@.len() == 15);
    assert("entries"@.len() == 7);
}

/// Totals say each of their counts under its name, and all their tokens together are their
/// sum.
pub proof fn law_totals_say_each_count(t: Totals)
    ensures
        ({
            let j = totals_json(t);
            &&& crate::json::member(j, "calls"@) == Some(JsonView::Number(crate::json::NumberView::Int(t.calls as int)))
            &&& crate::json::member(j, "input_tokens"@) == Some(JsonView::Number(crate::json::NumberView::Int(t.input_tokens as int)))
            &&& crate::json::member(j, "output_tokens"@) == Some(JsonView::Number(crate::json::NumberView::Int(t.output_tokens as int)))
            &&& crate::json::member(j, "cache_read_tokens"@) == Some(JsonView::Number(crate::json::NumberView::Int(t.cache_read_tokens as int)))
            &&& crate::json::member(j, "cache_write_tokens"@) == Some(JsonView::Number(crate::json::NumberView::Int(t.cache_write_tokens as int)))
        }),
        t.input_tokens + t.output_tokens + t.cache_read_tokens + t.cache_write_tokens <= u64::MAX ==> tokens_of(t)
            == t.input_tokens + t.output_tokens + t.cache_read_tokens + t.cache_write_tokens,
        count_json(t.calls) == JsonView::Number(NumberView::Int(t.calls as int)),
{
    reveal_strlit("calls");
    reveal_strlit("input_tokens");
    reveal_strlit("output_tokens");
    reveal_strlit("cache_read_tokens");
    reveal_strlit("cache_write_tokens");
    assert("calls"@.len() == 5);
    assert("input_tokens"@.len() == 12);
    assert("output_tokens"@.len() == 13);
    assert("cache_read_tokens"@.len() == 17);
    assert("cache_write_tokens"@.len() == 18);
}

/// One more entry adds its counts to the grand total, to those of its model and to those of
/// what made the calls, and to no others.
pub proof fn law_an_entry_counts_where_it_belongs(
    s: Seq<(KeyView, Totals)>,
    k: KeyView,
    t: Totals,
    other: Seq<char>,
)
    ensures
        ({
            let all = s.push((k, t));
            let total = grand_total(s);
            &&& grand_total(Seq::empty()).calls == 0 && grand_total(Seq::empty()).input_tokens == 0
            &&& total.calls + t.calls <= u64::MAX ==> grand_total(all).calls == total.calls + t.calls
            &&& total.input_tokens + t.input_tokens <= u64::MAX ==> grand_total(all).input_tokens == total.input_tokens
                + t.input_tokens
            &&& total.output_tokens + t.output_tokens <= u64::MAX ==> grand_total(all).output_tokens
                == total.output_tokens + t.output_tokens
            &&& total.cache_read_tokens + t.cache_read_tokens <= u64::MAX ==> grand_total(all).cache_read_tokens
                == total.cache_read_tokens + t.cache_read_tokens
            &&& total.cache_write_tokens + t.cache_write_tokens <= u64::MAX ==> grand_total(all).cache_write_tokens
                == total.cache_write_tokens + t.cache_write_tokens
            &&& model_totals(all).contains_key(k.model) && caller_totals(all).contains_key(k.kind + ":"@ + k.name)
            &&& !model_totals(s).contains_key(k.model) ==> model_totals(all)[k.model] == t
            &&& model_totals(s).contains_key(k.model) && model_totals(s)[k.model].input_tokens + t.input_tokens <= u64::MAX
                ==> model_totals(all)[k.model].input_tokens == model_totals(s)[k.model].input_tokens + t.input_tokens
            &&& model_totals(s).contains_key(k.model) && model_totals(s)[k.model].output_tokens + t.output_tokens
                <= u64::MAX ==> model_totals(all)[k.model].output_tokens == model_totals(s)[k.model].output_tokens
                + t.output_tokens
            &&& !caller_totals(s).contains_key(k.kind + ":"@ + k.name) ==> caller_totals(all)[k.kind + ":"@ + k.name] == t
            &&& other != k.model ==> model_totals(all).contains_key(other) == model_totals(s).contains_key(other) && (
            model_totals(s).contains_key(other) ==> model_totals(all)[other] == model_totals(s)[other])
            &&& other != k.kind + ":"@ + k.name ==> caller_totals(all).contains_key(other) == caller_totals(
                s,
            ).contains_key(other) && (caller_totals(s).contains_key(other) ==> caller_totals(all)[other]
                == caller_totals(s)[other])
        }),
{
    assert(s.push((k, t)).drop_last() =~= s);
    let nothing = Seq::<(KeyView, Totals)>::empty();
    assert(grand_total(nothing) == no_totals());
}

/// A model is listed as without a price exactly where it answered and neither it nor its name
/// behind its prefix has one; each is listed once.
pub proof fn law_a_model_without_a_price_is_listed(s: Seq<(KeyView, Totals)>, pricing: Map<Seq<char>, Price>, model: Seq<char>)
    ensures
        unpriced_models(s, pricing).contains(model) <==> !is_priced(pricing, model) && exists|i: int|
            0 <= i < s.len() && (#[trigger] s[i]).0.model == model,
        unpriced_models(s, pricing).no_duplicates(),
    decreases s.len(),
{
    if s.len() > 0 {
        let rest = s.drop_last();
        let last = s.last().0.model;
        law_a_model_without_a_price_is_listed(rest, pricing, model);
        let before = unpriced_models(rest, pricing);
        let all = unpriced_models(s, pricing);
        assert(s[s.len() - 1].0.model == last);
        if exists|i: int| 0 <= i < rest.len() && (#[trigger] rest[i]).0.model == model {
            let i = choose|i: int| 0 <= i < rest.len() && (#[trigger] rest[i]).0.model == model;
            assert(s[i].0.model == model);
        }
        if exists|i: int| 0 <= i < s.len() && (#[trigger] s[i]).0.model == model {
            let i = choose|i: int| 0 <= i < s.len() && (#[trigger] s[i]).0.model == model;
            if i < rest.len() {
                assert(rest[i].0.model == model);
            }
        }
        if !is_priced(pricing, last) && !before.contains(last) {
            assert(all == before.push(last));
            assert(all[before.len() as int] == last);
            if before.contains(model) {
                let i = choose|i: int| 0 <= i < before.len() && before[i] == model;
                assert(all[i] == model);
            }
            if all.contains(model) && model != last {
                let i = choose|i: int| 0 <= i < all.len() && all[i] == model;
                assert(before[i] == model);
            }
        }
    }
}

/// A report says what the ledger holds: the totals, by model and by caller too, each entry in
/// order, and since when and for how many runs.
pub proof fn law_a_report_says_what_the_ledger_holds(
    s: Seq<(KeyView, Totals)>,
    since: u64,
    uptime: u64,
    runs: u64,
    pricing: Map<Seq<char>, Price>,
    cost: JsonView,
    name: Seq<char>,
)
    ensures
        ({
            let j = report(s, since, uptime, runs, pricing, cost);
            &&& crate::json::member(j, "since_unix"@) == Some(JsonView::Number(crate::json::NumberView::Int(since as int)))
            &&& crate::json::member(j, "uptime_secs"@) == Some(JsonView::Number(crate::json::NumberView::Int(uptime as int)))
            &&& crate::json::member(j, "runs"@) == Some(JsonView::Number(crate::json::NumberView::Int(runs as int)))
            &&& crate::json::member(j, "totals"@) == Some(totals_json(grand_total(s)))
            &&& crate::json::member(j, "total_tokens"@) == Some(JsonView::Number(crate::json::NumberView::Int(tokens_of(grand_total(s)) as int)))
            &&& crate::json::member(j, "priced_cost_usd"@) == Some(cost)
            &&& crate::json::member(j, "by_model"@) matches Some(m) && crate::json::member(m, name) == (
            if model_totals(s).contains_key(name) {
                Some(totals_json(model_totals(s)[name]))
            } else {
                None
            })
            &&& crate::json::member(j, "by_caller"@) matches Some(m) && crate::json::member(m, name) == (
            if caller_totals(s).contains_key(name) {
                Some(totals_json(caller_totals(s)[name]))
            } else {
                None
            })
            &&& crate::json::member(j, "entries"@) matches Some(JsonView::Array(list)) && list.len() == s.len()
                && forall|i: int|
                0 <= i < s.len() ==> crate::json::member(#[trigger] list[i], "kind"@) == Some(JsonView::Str(s[i].0.kind))
                    && crate::json::member(list[i], "name"@) == Some(JsonView::Str(s[i].0.name)) && crate::json::member(
                    list[i],
                    "model"@,
                ) == Some(JsonView::Str(s[i].0.model)) && crate::json::member(list[i], "usage"@) == Some(
                    totals_json(s[i].1),
                )
            &&& crate::json::member(j, "unpriced_models"@) matches Some(JsonView::Array(list)) && list.len()
                == unpriced_models(s, pricing).len() && forall|i: int|
                0 <= i < list.len() ==> #[trigger] list[i] == JsonView::Str(unpriced_models(s, pricing)[i])
        }),
{
    reveal_strlit("since_unix");
    reveal_strlit("uptime_secs");
    reveal_strlit("runs");
    reveal_strlit("totals");
    reveal_strlit("total_tokens");
    reveal_strlit("by_model");
    reveal_strlit("by_caller");
    reveal_strlit("estimated_cost_usd");
    reveal_strlit("priced_cost_usd");
    reveal_strlit("unpriced_models");
    reveal_strlit("entries");
    reveal_strlit("kind");
    reveal_strlit("name");
    reveal_strlit("model");
    reveal_strlit("usage");
    assert("since_unix"@.len() == 10);
    assert("uptime_secs"@.len() == 11);
    assert("runs"@.len() == 4);
    assert("totals"@.len() == 6);
    assert("total_tokens"@.len() == 12);
    assert("by_model"@.len() == 8);
    assert("by_caller"@.len() == 9);
    assert("estimated_cost_usd"@.len() == 18);
    assert("priced_cost_usd"@.len() == 15);
    assert("unpriced_models"@.len() == 15);
    assert("entries"@.len() == 7);
    assert("kind"@.len() == 4);
    assert("name"@.len() == 4);
    assert("model"@.len() == 5);
    assert("usage"@.len() == 5);
    assert("runs"@[0] != "kind"@[0]);
    assert("runs"@[0] != "name"@[0]);
    assert("priced_cost_usd"@[0] != "unpriced_models"@[0]);
    assert("kind"@[0] != "name"@[0]);
    assert("model"@[0] != "usage"@[0]);
}

} // verus!
