//! A map from texts to values, kept in alphabetical order.

use crate::text::{before, same};
use vstd::prelude::*;

verus! {

/// A map from texts to values that is walked in alphabetical order of its keys.
#[derive(Debug)]
pub struct Table<T> {
    entries: Vec<(String, T)>,
}

/// The map that a list of pairs stands for, where a later pair replaces an
/// earlier one with the same key.
pub open spec fn pairs_map<T>(s: Seq<(Seq<char>, T)>) -> Map<Seq<char>, T>
    decreases s.len(),
{
    if s.len() == 0 {
        Map::empty()
    } else {
        pairs_map(s.drop_last()).insert(s.last().0, s.last().1)
    }
}

/// Whether the keys of a list of pairs stand in alphabetical order, none twice.
pub open spec fn in_order<T>(s: Seq<(Seq<char>, T)>) -> bool {
    forall|i: int, j: int|
        0 <= i < j < s.len() ==> crate::text::precedes(#[trigger] s[i].0, #[trigger] s[j].0)
}

proof fn lemma_pairs_map_has<T>(s: Seq<(Seq<char>, T)>, i: int)
    requires
        in_order(s),
        0 <= i < s.len(),
    ensures
        pairs_map(s).contains_key(s[i].0),
        pairs_map(s)[s[i].0] == s[i].1,
    decreases s.len(),
{
    if i < s.len() - 1 {
        lemma_pairs_map_has(s.drop_last(), i);
        assert(s.drop_last()[i] == s[i]);
        crate::text::lemma_precedes_irreflexive(s[i].0);
        assert(crate::text::precedes(s[i].0, s[s.len() - 1].0));
    }
}

proof fn lemma_pairs_map_only<T>(s: Seq<(Seq<char>, T)>, k: Seq<char>)
    requires
        pairs_map(s).contains_key(k),
    ensures
        exists|i: int| 0 <= i < s.len() && (#[trigger] s[i]).0 == k,
    decreases s.len(),
{
    if s.len() > 0 {
        if s.last().0 == k {
            assert(s[s.len() - 1].0 == k);
        } else {
            lemma_pairs_map_only(s.drop_last(), k);
            let i = choose|i: int| 0 <= i < s.drop_last().len() && (#[trigger] s.drop_last()[i]).0 == k;
            assert(s[i].0 == k);
        }
    }
}

/// A table holds exactly its pairs.
pub proof fn lemma_table_pairs<T>(s: Seq<(Seq<char>, T)>)
    requires
        in_order(s),
    ensures
        forall|i: int| 0 <= i < s.len() ==> pairs_map(s).contains_key((#[trigger] s[i]).0)
            && pairs_map(s)[s[i].0] == s[i].1,
        forall|k: Seq<char>| #[trigger] pairs_map(s).contains_key(k) ==> exists|i: int|
            0 <= i < s.len() && (#[trigger] s[i]).0 == k,
{
    assert forall|i: int| 0 <= i < s.len() implies pairs_map(s).contains_key((#[trigger] s[i]).0)
        && pairs_map(s)[s[i].0] == s[i].1 by {
        lemma_pairs_map_has(s, i);
    }
    assert forall|k: Seq<char>| #[trigger] pairs_map(s).contains_key(k) implies exists|i: int|
        0 <= i < s.len() && (#[trigger] s[i]).0 == k by {
        lemma_pairs_map_only(s, k);
    }
}

impl<T> View for Table<T> {
    type V = Map<Seq<char>, T>;

    open spec fn view(&self) -> Map<Seq<char>, T> {
        pairs_map(self.pairs())
    }
}

impl<T> Table<T> {
    /// The entries in alphabetical order of their keys.
    pub closed spec fn pairs(&self) -> Seq<(Seq<char>, T)> {
        self.entries@.map_values(|e: (String, T)| (e.0@, e.1))
    }

    #[verifier::type_invariant]
    spec fn ordered(self) -> bool {
        in_order(self.pairs())
    }

    /// A table without entries.
    pub fn new() -> (r: Table<T>)
        ensures
            r@ == Map::<Seq<char>, T>::empty(),
            r.pairs() == Seq::<(Seq<char>, T)>::empty(),
    {
        let r = Table { entries: Vec::new() };
        assert(r.pairs() =~= Seq::<(Seq<char>, T)>::empty());
        r
    }

    /// The number of entries.
    pub fn len(&self) -> (n: usize)
        ensures
            n == self.pairs().len(),
            n == self@.len(),
            self@.dom().finite(),
            in_order(self.pairs()),
    {
        proof {
            use_type_invariant(self);
            lemma_table_len(self.pairs());
        }
        self.entries.len()
    }

    /// The key at a place in the order.
    pub fn key_at(&self, i: usize) -> (k: &str)
        requires
            i < self.pairs().len(),
        ensures
            k@ == self.pairs()[i as int].0,
            self@.contains_key(k@),
            in_order(self.pairs()),
    {
        proof {
            use_type_invariant(self);
            lemma_table_pairs(self.pairs());
        }
        self.entries[i].0.as_str()
    }

    /// The value at a place in the order.
    pub fn value_at(&self, i: usize) -> (v: &T)
        requires
            i < self.pairs().len(),
        ensures
            *v == self.pairs()[i as int].1,
            *v == self@[self.pairs()[i as int].0],
    {
        proof {
            use_type_invariant(self);
            lemma_table_pairs(self.pairs());
        }
        &self.entries[i].1
    }

    /// The value of a key.
    pub fn get(&self, key: &str) -> (r: Option<&T>)
        ensures
            match r {
                Some(v) => self@.contains_key(key@) && self@[key@] == *v,
                None => !self@.contains_key(key@),
            },
    {
        proof {
            use_type_invariant(self);
            lemma_table_pairs(self.pairs());
        }
        let mut i: usize = 0;
        while i < self.entries.len()
            invariant
                i <= self.entries@.len(),
                in_order(self.pairs()),
                forall|j: int| 0 <= j < i ==> (#[trigger] self.pairs()[j]).0 != key@,
            decreases self.entries.len() - i,
        {
            if same(self.entries[i].0.as_str(), key) {
                proof {
                    lemma_table_pairs(self.pairs());
                    assert(self.pairs()[i as int] == (key@, self.entries@[i as int].1));
                }
                return Some(&self.entries[i].1);
            }
            assert(self.pairs()[i as int].0 == self.entries@[i as int].0@);
            i = i + 1;
        }
        assert(!self@.contains_key(key@));
        None
    }

    /// Gives a key a value, in place of the one it had.
    pub fn insert(&mut self, key: &str, value: T)
        ensures
            final(self)@ == old(self)@.insert(key@, value),
            in_order(final(self).pairs()),
    {
        proof {
            use_type_invariant(&*self);
        }
        let ghost before_pairs = self.pairs();
        let mut entries: Vec<(String, T)> = Vec::new();
        std::mem::swap(&mut entries, &mut self.entries);
        let ghost old_entries = entries@;
        assert(before_pairs == old_entries.map_values(|e: (String, T)| (e.0@, e.1)));
        let mut i: usize = 0;
        while i < entries.len() && before(entries[i].0.as_str(), key)
            invariant
                i <= entries@.len(),
                entries@ == old_entries,
                before_pairs == old_entries.map_values(|e: (String, T)| (e.0@, e.1)),
                forall|j: int| 0 <= j < i ==> crate::text::precedes((#[trigger] before_pairs[j]).0, key@),
            decreases entries.len() - i,
        {
            assert(before_pairs[i as int].0 == entries@[i as int].0@);
            i = i + 1;
        }
        if i < entries.len() && same(entries[i].0.as_str(), key) {
            entries[i] = (key.to_owned(), value);
            proof {
                let now = entries@.map_values(|e: (String, T)| (e.0@, e.1));
                assert(now =~= before_pairs.update(i as int, (key@, value)));
                assert(before_pairs[i as int].0 == key@);
                assert forall|a: int, b: int| 0 <= a < b < now.len() implies crate::text::precedes(
                    #[trigger] now[a].0,
                    #[trigger] now[b].0,
                ) by {
                    assert(crate::text::precedes(before_pairs[a].0, before_pairs[b].0));
                }
                lemma_table_pairs(now);
                lemma_table_pairs(before_pairs);
                lemma_replaced(before_pairs, now, i as int, key@, value);
            }
        } else {
            entries.insert(i, (key.to_owned(), value));
            proof {
                let now = entries@.map_values(|e: (String, T)| (e.0@, e.1));
                assert(now =~= before_pairs.insert(i as int, (key@, value)));
                if i < before_pairs.len() {
                    assert(before_pairs[i as int].0 == old_entries[i as int].0@);
                    crate::text::lemma_precedes_total(before_pairs[i as int].0, key@);
                }
                assert forall|a: int, b: int| 0 <= a < b < now.len() implies crate::text::precedes(
                    #[trigger] now[a].0,
                    #[trigger] now[b].0,
                ) by {
                    if b < i {
                        assert(crate::text::precedes(before_pairs[a].0, before_pairs[b].0));
                    } else if b == i {
                        assert(now[a] == before_pairs[a]);
                    } else if a == i {
                        if b - 1 > i {
                            assert(crate::text::precedes(before_pairs[i as int].0, before_pairs[b - 1].0));
                            crate::text::lemma_precedes_transitive(key@, before_pairs[i as int].0, before_pairs[b - 1].0);
                        }
                    } else if a < i {
                        assert(crate::text::precedes(before_pairs[a].0, before_pairs[b - 1].0));
                    } else {
                        assert(crate::text::precedes(before_pairs[a - 1].0, before_pairs[b - 1].0));
                    }
                }
                lemma_table_pairs(now);
                lemma_table_pairs(before_pairs);
                lemma_inserted(before_pairs, now, i as int, key@, value);
            }
        }
        self.entries = entries;
        assert(self.pairs() == entries@.map_values(|e: (String, T)| (e.0@, e.1)));
    }
}

impl<T> Table<T> {
    /// Takes a key out, and hands over the value it had.
    pub fn remove(&mut self, key: &str) -> (r: Option<T>)
        ensures
            match r {
                Some(v) => old(self)@.contains_key(key@) && v == old(self)@[key@],
                None => !old(self)@.contains_key(key@),
            },
            final(self)@ == old(self)@.remove(key@),
            in_order(final(self).pairs()),
    {
        proof {
            use_type_invariant(&*self);
            lemma_table_pairs(self.pairs());
        }
        let ghost before_pairs = self.pairs();
        let mut entries: Vec<(String, T)> = Vec::new();
        std::mem::swap(&mut entries, &mut self.entries);
        let ghost old_entries = entries@;
        assert(before_pairs == old_entries.map_values(|e: (String, T)| (e.0@, e.1)));
        let mut i: usize = 0;
        while i < entries.len() && !same(entries[i].0.as_str(), key)
            invariant
                i <= entries@.len(),
                entries@ == old_entries,
                before_pairs == old_entries.map_values(|e: (String, T)| (e.0@, e.1)),
                forall|j: int| 0 <= j < i ==> (#[trigger] before_pairs[j]).0 != key@,
            decreases entries.len() - i,
        {
            assert(before_pairs[i as int].0 == entries@[i as int].0@);
            i = i + 1;
        }
        if i < entries.len() {
            let e = entries.remove(i);
            proof {
                let now = entries@.map_values(|e: (String, T)| (e.0@, e.1));
                assert(now =~= before_pairs.remove(i as int));
                assert(before_pairs[i as int] == (key@, e.1));
                lemma_removed(before_pairs, now, i as int);
            }
            self.entries = entries;
            assert(self.pairs() == entries@.map_values(|e: (String, T)| (e.0@, e.1)));
            Some(e.1)
        } else {
            self.entries = entries;
            assert(self.pairs() == before_pairs);
            proof {
                if old(self)@.contains_key(key@) {
                    let j = choose|j: int| 0 <= j < before_pairs.len() && (#[trigger] before_pairs[j]).0 == key@;
                    assert(before_pairs[j].0 != key@);
                }
                assert(self@ =~= old(self)@.remove(key@));
            }
            None
        }
    }
}

proof fn lemma_removed<T>(a: Seq<(Seq<char>, T)>, b: Seq<(Seq<char>, T)>, i: int)
    requires
        in_order(a),
        0 <= i < a.len(),
        b == a.remove(i),
    ensures
        in_order(b),
        pairs_map(b) == pairs_map(a).remove(a[i].0),
{
    assert forall|x: int, y: int| 0 <= x < y < b.len() implies crate::text::precedes(
        #[trigger] b[x].0,
        #[trigger] b[y].0,
    ) by {
        let p = if x < i { x } else { x + 1 };
        let q = if y < i { y } else { y + 1 };
        assert(b[x] == a[p] && b[y] == a[q]);
        assert(crate::text::precedes(a[p].0, a[q].0));
    }
    lemma_table_pairs(a);
    lemma_table_pairs(b);
    let key = a[i].0;
    let m = pairs_map(a).remove(key);
    assert forall|k: Seq<char>| #[trigger] pairs_map(b).contains_key(k) == m.contains_key(k) && (m.contains_key(k)
        ==> pairs_map(b)[k] == m[k]) by {
        if pairs_map(b).contains_key(k) {
            let j = choose|j: int| 0 <= j < b.len() && (#[trigger] b[j]).0 == k;
            let p = if j < i { j } else { j + 1 };
            assert(b[j] == a[p]);
            if k == key {
                crate::text::lemma_precedes_irreflexive(key);
                if p < i {
                    assert(crate::text::precedes(a[p].0, a[i].0));
                } else {
                    assert(crate::text::precedes(a[i].0, a[p].0));
                }
            }
        }
        if m.contains_key(k) {
            let j = choose|j: int| 0 <= j < a.len() && (#[trigger] a[j]).0 == k;
            if j < i {
                assert(b[j] == a[j]);
            } else {
                assert(b[j - 1] == a[j]);
            }
        }
    }
    assert(pairs_map(b) =~= m);
}

proof fn lemma_replaced<T>(a: Seq<(Seq<char>, T)>, b: Seq<(Seq<char>, T)>, i: int, key: Seq<char>, value: T)
    requires
        in_order(a),
        in_order(b),
        0 <= i < a.len(),
        a[i].0 == key,
        b == a.update(i, (key, value)),
    ensures
        pairs_map(b) == pairs_map(a).insert(key, value),
{
    lemma_table_pairs(a);
    lemma_table_pairs(b);
    let m = pairs_map(a).insert(key, value);
    assert forall|k: Seq<char>| #[trigger] pairs_map(b).contains_key(k) == m.contains_key(k) && (
    m.contains_key(k) ==> pairs_map(b)[k] == m[k]) by {
        if pairs_map(b).contains_key(k) {
            let j = choose|j: int| 0 <= j < b.len() && (#[trigger] b[j]).0 == k;
            assert(b[j].0 == a[j].0);
            if j != i && k == key {
                crate::text::lemma_precedes_irreflexive(key);
                if i < j {
                    assert(crate::text::precedes(a[i].0, a[j].0));
                } else {
                    assert(crate::text::precedes(a[j].0, a[i].0));
                }
            }
        }
        if m.contains_key(k) && k != key {
            let j = choose|j: int| 0 <= j < a.len() && (#[trigger] a[j]).0 == k;
            assert(b[j] == a[j]);
        }
        if k == key {
            assert(b[i].0 == key);
        }
    }
    assert(pairs_map(b) =~= m);
}

proof fn lemma_inserted<T>(a: Seq<(Seq<char>, T)>, b: Seq<(Seq<char>, T)>, i: int, key: Seq<char>, value: T)
    requires
        in_order(a),
        in_order(b),
        0 <= i <= a.len(),
        b == a.insert(i, (key, value)),
    ensures
        pairs_map(b) == pairs_map(a).insert(key, value),
{
    lemma_table_pairs(a);
    lemma_table_pairs(b);
    let m = pairs_map(a).insert(key, value);
    assert(b[i] == (key, value));
    assert forall|k: Seq<char>| #[trigger] pairs_map(b).contains_key(k) == m.contains_key(k) && (
    m.contains_key(k) ==> pairs_map(b)[k] == m[k]) by {
        if pairs_map(b).contains_key(k) && k != key {
            let j = choose|j: int| 0 <= j < b.len() && (#[trigger] b[j]).0 == k;
            if j < i {
                assert(a[j] == b[j]);
            } else {
                assert(a[j - 1] == b[j]);
            }
        }
        if m.contains_key(k) && k != key {
            let j = choose|j: int| 0 <= j < a.len() && (#[trigger] a[j]).0 == k;
            if j < i {
                assert(a[j] == b[j]);
            } else {
                assert(a[j] == b[j + 1]);
            }
        }
    }
    assert(pairs_map(b) =~= m);
}

/// A table has as many entries as keys.
pub proof fn lemma_table_len<T>(s: Seq<(Seq<char>, T)>)
    requires
        in_order(s),
    ensures
        pairs_map(s).dom().finite(),
        pairs_map(s).len() == s.len(),
    decreases s.len(),
{
    if s.len() > 0 {
        let init = s.drop_last();
        assert(in_order(init));
        lemma_table_len(init);
        if pairs_map(init).contains_key(s.last().0) {
            lemma_pairs_map_only(init, s.last().0);
            let i = choose|i: int| 0 <= i < init.len() && (#[trigger] init[i]).0 == s.last().0;
            assert(crate::text::precedes(s[i].0, s[s.len() - 1].0));
            crate::text::lemma_precedes_irreflexive(s.last().0);
        }
    }
}

/// Two ordered lists that stand for the same map but one key differ by that entry.
pub proof fn lemma_removed_pairs<T>(a: Seq<(Seq<char>, T)>, b: Seq<(Seq<char>, T)>, i: int)
    requires
        in_order(a),
        in_order(b),
        0 <= i < a.len(),
        pairs_map(b) == pairs_map(a).remove(a[i].0),
    ensures
        b == a.remove(i),
{
    lemma_removed(a, a.remove(i), i);
    lemma_same_pairs(a.remove(i), b);
}

/// An ordered list is determined by the map that it stands for.
pub proof fn lemma_same_pairs<T>(a: Seq<(Seq<char>, T)>, b: Seq<(Seq<char>, T)>)
    requires
        in_order(a),
        in_order(b),
        pairs_map(a) == pairs_map(b),
    ensures
        a == b,
    decreases a.len(),
{
    lemma_table_pairs(a);
    lemma_table_pairs(b);
    lemma_table_len(a);
    lemma_table_len(b);
    if a.len() > 0 {
        let x = a.last();
        let y = b.last();
        assert(pairs_map(b).contains_key(a[a.len() - 1].0));
        assert(pairs_map(a).contains_key(b[b.len() - 1].0));
        let j = choose|j: int| 0 <= j < b.len() && (#[trigger] b[j]).0 == x.0;
        let k = choose|k: int| 0 <= k < a.len() && (#[trigger] a[k]).0 == y.0;
        if x.0 != y.0 {
            assert(crate::text::precedes(b[j].0, b[b.len() - 1].0));
            assert(crate::text::precedes(a[k].0, a[a.len() - 1].0));
            crate::text::lemma_precedes_transitive(x.0, y.0, x.0);
            crate::text::lemma_precedes_irreflexive(x.0);
        }
        assert(pairs_map(a)[a[a.len() - 1].0] == x.1);
        assert(pairs_map(b)[b[b.len() - 1].0] == y.1);
        let p = a.drop_last();
        let q = b.drop_last();
        lemma_removed(a, a.remove(a.len() - 1), a.len() - 1);
        lemma_removed(b, b.remove(b.len() - 1), b.len() - 1);
        assert(a.remove(a.len() - 1) =~= p);
        assert(b.remove(b.len() - 1) =~= q);
        lemma_same_pairs(p, q);
        assert(a =~= p.push(x));
        assert(b =~= q.push(y));
    } else {
        assert(a =~= b);
    }
}

/// Of two pairs with one key the later holds, and the others stay.
pub proof fn law_the_later_pair_holds<T>(s: Seq<(Seq<char>, T)>, key: Seq<char>, value: T, other: Seq<char>)
    ensures
        pairs_map(s.push((key, value))).contains_key(key),
        pairs_map(s.push((key, value)))[key] == value,
        other != key ==> pairs_map(s.push((key, value))).contains_key(other) == pairs_map(s).contains_key(other),
        other != key && pairs_map(s).contains_key(other) ==> pairs_map(s.push((key, value)))[other] == pairs_map(s)[other],
        pairs_map(Seq::<(Seq<char>, T)>::empty()).dom().is_empty(),
{
    assert(s.push((key, value)).drop_last() =~= s);
}

} // verus!
