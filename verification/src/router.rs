//! Method-partitioned routing over the manifest.
//!
//! One radix tree per method, and one over every path, so that a path that exists
//! under another method is told from one that does not exist.

use crate::http::text_map;
use crate::manifest::Route;
use crate::pattern::{ends_alike, is_tangled, ordinary_params, read_route};
use crate::table::{Table, in_order, lemma_table_pairs};
use crate::text::{cat4, debug_quoted, quoted, texts, to_upper, uppered};
use matchit::Router as RadixTree;
use vstd::prelude::*;

verus! {

/// A radix tree of routes.
#[verifier::external_type_specification]
#[verifier::external_body]
#[verifier::reject_recursive_types(T)]
pub struct ExRadixTree<T>(RadixTree<T>);

/// The routes of a tree: every one that was given to `insert`, in order, whether
/// or not it was accepted.
pub type Inserted = Seq<(Seq<char>, u32)>;

/// What a path matched: the value of its route, and the parameters in order.
pub type Hit = (u32, Seq<(Seq<char>, Seq<char>)>);

/// What was given to the `insert` of a tree since it was made.
pub uninterp spec fn inserted_routes(r: RadixTree<u32>) -> Inserted;

/// What a tree reports of a route that it does not accept after others.
pub uninterp spec fn insert_fault(before: Inserted, route: Seq<char>) -> Option<Seq<char>>;

/// What a tree finds for a path.
pub uninterp spec fn route_match(routes: Inserted, path: Seq<char>) -> Option<Hit>;

/// `matchit::Router::new`: a tree that was given nothing.
#[verifier::external_body]
fn new_tree() -> (r: RadixTree<u32>)
    ensures
        inserted_routes(r) == Inserted::empty(),
{
    RadixTree::new()
}

/// How many ordinary parameters a route may have: the tree names them with the letters of
/// the alphabet, and the last one is not used.
pub const MAX_PARAMS: usize = 25;

/// Whether a tree takes routes one after the other.
pub open spec fn all_taken(routes: Inserted) -> bool {
    forall|i: int| 0 <= i < routes.len() ==> insert_fault(routes.take(i), (#[trigger] routes[i]).0) is None
}

/// Whether a tree with some of the routes of a list takes a route, as it took those.
pub open spec fn is_taken_among(before: Inserted, route: Seq<char>) -> bool {
    exists|some: Inserted|
        all_taken(some) && (forall|i: int| 0 <= i < some.len() ==> before.contains(#[trigger] some[i]))
            && #[trigger] insert_fault(some, route) is None
}

/// Whether no route that was given to a tree is malformed: each was taken by a tree with
/// some of those before it. One that only conflicts with others leaves no node behind; one
/// that is malformed may be refused half way.
pub open spec fn without_remains(routes: Inserted) -> bool {
    forall|i: int| 0 <= i < routes.len() ==> is_taken_among(routes.take(i), (#[trigger] routes[i]).0)
}

/// Whether a route that ends like a name is given to a tree whose routes are tangled.
pub open spec fn loses_count(routes: Inserted, route: Seq<char>) -> bool {
    ends_alike(route) && exists|i: int| 0 <= i < routes.len() && is_tangled((#[trigger] routes[i]).0)
}

/// `matchit::Router::insert`. A tree is made by its insertions alone, refused ones
/// included, which may still split its nodes. Which routes conflict or are
/// malformed is left to the name. It panics on a route with more ordinary parameters than
/// it has letters for, and may panic while it words a conflict: where it holds remains of
/// a route that was refused half way, or where an escaped brace moves as it writes names
/// back that it lost count of.
#[verifier::external_body]
fn insert_route(tree: &mut RadixTree<u32>, route: &str, id: u32) -> (r: Result<(), String>)
    requires
        ordinary_params(route@) < 26,
        without_remains(inserted_routes(*old(tree))),
        !loses_count(inserted_routes(*old(tree)), route@),
    ensures
        inserted_routes(*final(tree)) == inserted_routes(*old(tree)).push((route@, id)),
        match r {
            Ok(_) => insert_fault(inserted_routes(*old(tree)), route@) is None,
            Err(e) => insert_fault(inserted_routes(*old(tree)), route@) == Some(e@),
        },
{
    tree.insert(route, id).map_err(|e| e.to_string())
}

/// The parameters that a list of strings holds.
pub open spec fn param_texts(list: Seq<(String, String)>) -> Seq<(Seq<char>, Seq<char>)> {
    list.map_values(|p: (String, String)| (p.0@, p.1@))
}

/// `matchit::Router::at`: the value of the route that matches a path, and its
/// parameters in order. Which route that is is left to the name.
#[verifier::external_body]
fn match_route(tree: &RadixTree<u32>, path: &str) -> (r: Option<(u32, Vec<(String, String)>)>)
    ensures
        match r {
            Some(m) => route_match(inserted_routes(*tree), path@) == Some((m.0, param_texts(m.1@))),
            None => route_match(inserted_routes(*tree), path@) is None,
        },
{
    let found = tree.at(path).ok()?;
    let params = found.params.iter().map(|(k, v)| (k.to_string(), v.to_string())).collect();
    Some((*found.value, params))
}

pub struct Router {
    by_method: Table<RadixTree<u32>>,
    /// Every declared path, regardless of method.
    all_paths: RadixTree<u32>,
}

/// A route, and what the path gave for its parameters.
#[derive(Debug)]
pub struct Matched {
    pub route_id: u32,
    pub path_params: Table<String>,
}

#[derive(Debug, Clone, Copy, PartialEq, Eq, Structural)]
pub enum MatchError {
    NotFound,
    MethodNotAllowed,
}

/// The paths and identifiers of a list of routes.
pub open spec fn all_inserted(routes: Seq<Route>) -> Inserted {
    routes.map_values(|r: Route| (r.path@, r.id))
}

/// The routes of a list by their methods, each in order.
pub open spec fn by_methods(routes: Seq<Route>) -> Map<Seq<char>, Inserted>
    decreases routes.len(),
{
    if routes.len() == 0 {
        Map::empty()
    } else {
        let before = by_methods(routes.drop_last());
        let r = routes.last();
        before.insert(uppered(r.method@), routes_of(before, uppered(r.method@)).push((r.path@, r.id)))
    }
}

/// The routes of a method.
pub open spec fn routes_of(m: Map<Seq<char>, Inserted>, method: Seq<char>) -> Inserted {
    if m.contains_key(method) {
        m[method]
    } else {
        Inserted::empty()
    }
}

/// Why a path cannot be routed, given the routes of its method.
pub open spec fn path_refusal(before: Inserted, path: Seq<char>) -> Option<Seq<char>> {
    if ordinary_params(path) > MAX_PARAMS {
        Some("Too many route parameters"@)
    } else {
        insert_fault(before, path)
    }
}

/// What is wrong with the path of a route, given those before it.
pub open spec fn path_fault(routes: Seq<Route>) -> spec_fn(int) -> Option<Seq<char>> {
    |i: int|
        {
            let r = routes[i];
            match path_refusal(routes_of(by_methods(routes.take(i)), uppered(r.method@)), r.path@) {
                Some(e) => Some("invalid route path "@ + debug_quoted(r.path@) + ": "@ + e),
                None => None,
            }
        }
}

/// Whether some route is tangled and some route ends like a name, so that a tree with both
/// may panic where they conflict.
pub open spec fn may_lose_count(routes: Seq<Route>) -> bool {
    (exists|i: int| 0 <= i < routes.len() && is_tangled((#[trigger] routes[i]).path@)) && (exists|j: int|
        0 <= j < routes.len() && ends_alike((#[trigger] routes[j]).path@))
}

/// Whether trees can be asked to take the routes of a list: [`may_lose_count`] says which
/// they cannot.
pub fn can_be_routed(routes: &[Route]) -> (r: bool)
    ensures
        r == !may_lose_count(routes@),
{
    let mut tangled = false;
    let mut alike = false;
    let mut i: usize = 0;
    while i < routes.len()
        invariant
            i <= routes@.len(),
            tangled == (exists|k: int| 0 <= k < i && is_tangled((#[trigger] routes@[k]).path@)),
            alike == (exists|k: int| 0 <= k < i && ends_alike((#[trigger] routes@[k]).path@)),
        decreases routes.len() - i,
    {
        let read = read_route(routes[i].path.as_str());
        let ghost was = (tangled, alike);
        if read.tangled {
            tangled = true;
        }
        if read.alike {
            alike = true;
        }
        proof {
            assert(read.tangled == is_tangled(routes@[i as int].path@));
            assert(read.alike == ends_alike(routes@[i as int].path@));
            if tangled && !was.0 {
                assert(is_tangled(routes@[i as int].path@));
            }
        }
        i = i + 1;
    }
    !(tangled && alike)
}

/// Whether the routes of every method were taken one after the other.
spec fn methods_taken(routes: Seq<Route>) -> bool {
    forall|m: Seq<char>| all_taken(#[trigger] routes_of(by_methods(routes), m))
}

/// The routes of a method are among all routes.
proof fn lemma_methods_drawn(routes: Seq<Route>, method: Seq<char>, k: int)
    requires
        0 <= k < routes_of(by_methods(routes), method).len(),
    ensures
        all_inserted(routes).contains(routes_of(by_methods(routes), method)[k]),
    decreases routes.len(),
{
    if routes.len() > 0 {
        let rest = routes.drop_last();
        let r = routes.last();
        let before = routes_of(by_methods(rest), method);
        let list = routes_of(by_methods(routes), method);
        let all = all_inserted(routes);
        if method == uppered(r.method@) && k == before.len() {
            assert(list == before.push((r.path@, r.id)));
            assert(all[routes.len() - 1] == list[k]);
        } else {
            lemma_methods_drawn(rest, method, k);
            let j = choose|j: int| 0 <= j < all_inserted(rest).len() && all_inserted(rest)[j] == before[k];
            assert(all[j] == all_inserted(rest)[j]);
        }
    }
}

/// Routes that were taken one after the other left nothing behind.
proof fn lemma_taken_without_remains(routes: Inserted)
    requires
        all_taken(routes),
    ensures
        without_remains(routes),
{
    assert forall|i: int| 0 <= i < routes.len() implies is_taken_among(routes.take(i), (#[trigger] routes[i]).0) by {
        let some = routes.take(i);
        assert forall|k: int| 0 <= k < some.len() implies insert_fault(some.take(k), (#[trigger] some[k]).0) is None by {
            assert(some.take(k) =~= routes.take(k));
            assert(insert_fault(routes.take(k), routes[k].0) is None);
        }
        assert(all_taken(some));
        assert forall|k: int| 0 <= k < some.len() implies routes.take(i).contains(#[trigger] some[k]) by {}
        assert(insert_fault(some, routes[i].0) is None);
    }
}

/// Where no routes of a list lose count, none of its trees does.
proof fn lemma_keeps_count(routes: Seq<Route>, some: Inserted, i: int)
    requires
        !may_lose_count(routes),
        0 <= i < routes.len(),
        forall|k: int| 0 <= k < some.len() ==> all_inserted(routes).contains(#[trigger] some[k]),
    ensures
        !loses_count(some, routes[i].path@),
{
    if loses_count(some, routes[i].path@) {
        let k = choose|k: int| 0 <= k < some.len() && is_tangled((#[trigger] some[k]).0);
        let j = choose|j: int| 0 <= j < all_inserted(routes).len() && all_inserted(routes)[j] == some[k];
        assert(is_tangled(routes[j].path@));
        assert(ends_alike(routes[i].path@));
    }
}

fn say_of_path(path: &str, e: &str) -> (r: String)
    ensures
        r@ == "invalid route path "@ + debug_quoted(path@) + ": "@ + e@,
{
    cat4("invalid route path ", quoted(path).as_str(), ": ", e)
}

/// The parameters by name; a later one replaces an earlier one of the same name.
pub open spec fn param_map(params: Seq<(Seq<char>, Seq<char>)>) -> Map<Seq<char>, Seq<char>> {
    crate::table::pairs_map(params)
}

/// The methods that a path allows, in alphabetical order.
pub open spec fn allowed_on(methods: Map<Seq<char>, Inserted>, path: Seq<char>) -> Seq<Seq<char>> {
    crate::text::ordered(
        Set::new(|m: Seq<char>| methods.contains_key(m) && route_match(methods[m], path) is Some),
    )
}

/// What a method and a path lead to.
pub open spec fn finds(
    methods: Map<Seq<char>, Inserted>,
    all: Inserted,
    method: Seq<char>,
    path: Seq<char>,
) -> Result<Hit, MatchError> {
    let m = uppered(method);
    if methods.contains_key(m) && route_match(methods[m], path) is Some {
        Ok(route_match(methods[m], path)->0)
    } else if route_match(all, path) is Some {
        Err(MatchError::MethodNotAllowed)
    } else {
        Err(MatchError::NotFound)
    }
}

spec fn hit_at(pairs: Seq<(Seq<char>, RadixTree<u32>)>, j: int, path: Seq<char>, method: Seq<char>) -> bool {
    pairs[j].0 == method && route_match(inserted_routes(pairs[j].1), path) is Some
}

spec fn hit_before(pairs: Seq<(Seq<char>, RadixTree<u32>)>, n: int, path: Seq<char>, method: Seq<char>) -> bool {
    exists|j: int| #[trigger] hit_at(pairs, j, path, method) && 0 <= j < n
}

impl Router {
    /// The routes of each method.
    pub closed spec fn methods(&self) -> Map<Seq<char>, Inserted> {
        self.by_method@.map_values(|t: RadixTree<u32>| inserted_routes(t))
    }

    /// The routes of all methods.
    pub closed spec fn all(&self) -> Inserted {
        inserted_routes(self.all_paths)
    }

    /// Builds the trees of a list of routes.
    pub fn build(routes: &[Route]) -> (r: Result<Router, String>)
        requires
            !may_lose_count(routes@),
        ensures
            match r {
                Ok(t) => crate::validation::first_fault(0, routes@.len() as int, path_fault(routes@)) is None
                    && t.methods() == by_methods(routes@) && t.all() == all_inserted(routes@),
                Err(e) => crate::validation::first_fault(0, routes@.len() as int, path_fault(routes@)) == Some(e@),
            },
    {
        let mut by_method: Table<RadixTree<u32>> = Table::new();
        let mut all_paths = new_tree();
        let ghost content = |t: RadixTree<u32>| inserted_routes(t);
        let mut i: usize = 0;
        assert(by_method@.map_values(content) =~= by_methods(routes@.take(0)));
        assert(methods_taken(routes@.take(0)));
        assert(inserted_routes(all_paths) =~= all_inserted(routes@.take(0)));
        while i < routes.len()
            invariant
                i <= routes@.len(),
                content == (|t: RadixTree<u32>| inserted_routes(t)),
                by_method@.map_values(content) == by_methods(routes@.take(i as int)),
                inserted_routes(all_paths) == all_inserted(routes@.take(i as int)),
                !may_lose_count(routes@),
                methods_taken(routes@.take(i as int)),
                without_remains(all_inserted(routes@.take(i as int))),
                crate::validation::first_fault(0, routes@.len() as int, path_fault(routes@))
                    == crate::validation::first_fault(i as int, routes@.len() as int, path_fault(routes@)),
            decreases routes.len() - i,
        {
            let route = &routes[i];
            let method = to_upper(route.method.as_str());
            let ghost before = by_method@.map_values(content);
            let ghost known = by_method@;
            assert(routes@.take(i + 1).drop_last() =~= routes@.take(i as int));
            let mut tree = match by_method.remove(method.as_str()) {
                Some(t) => t,
                None => new_tree(),
            };
            assert(inserted_routes(tree) == routes_of(before, method@));
            if read_route(route.path.as_str()).params > MAX_PARAMS {
                return Err(say_of_path(route.path.as_str(), "Too many route parameters"));
            }
            let ghost done = routes@.take(i as int);
            let ghost held = routes_of(by_methods(done), method@);
            let ghost all = all_inserted(done);
            proof {
                lemma_taken_without_remains(held);
                assert forall|k: int| 0 <= k < held.len() implies all_inserted(routes@).contains(#[trigger] held[k]) by {
                    lemma_methods_drawn(done, method@, k);
                    let j = choose|j: int| 0 <= j < all.len() && all[j] == held[k];
                    assert(all_inserted(routes@)[j] == all[j]);
                }
                lemma_keeps_count(routes@, held, i as int);
                assert forall|k: int| 0 <= k < all.len() implies all_inserted(routes@).contains(#[trigger] all[k]) by {
                    assert(all_inserted(routes@)[k] == all[k]);
                }
                lemma_keeps_count(routes@, all, i as int);
            }
            if let Err(e) = insert_route(&mut tree, route.path.as_str(), route.id) {
                return Err(say_of_path(route.path.as_str(), e.as_str()));
            }
            proof {
                let now = routes@.take(i + 1);
                assert forall|m: Seq<char>| all_taken(#[trigger] routes_of(by_methods(now), m)) by {
                    let was = routes_of(by_methods(done), m);
                    let list = routes_of(by_methods(now), m);
                    assert(all_taken(was));
                    if m == method@ {
                        assert(list == was.push((route.path@, route.id)));
                        assert forall|k: int| 0 <= k < list.len() implies insert_fault(
                            list.take(k),
                            (#[trigger] list[k]).0,
                        ) is None by {
                            assert(list.take(k) =~= was.take(k));
                            if k < was.len() {
                                assert(list[k] == was[k]);
                            } else {
                                assert(was.take(k) =~= was);
                            }
                        }
                    } else {
                        assert(list == was);
                    }
                }
                let grown = all_inserted(now);
                assert forall|k: int| 0 <= k < grown.len() implies is_taken_among(
                    grown.take(k),
                    (#[trigger] grown[k]).0,
                ) by {
                    assert(grown.take(k) =~= all.take(k));
                    if k < all.len() {
                        assert(grown[k] == all[k]);
                    } else {
                        assert(all.take(k) =~= all);
                        assert forall|n: int| 0 <= n < held.len() implies all.contains(#[trigger] held[n]) by {
                            lemma_methods_drawn(done, method@, n);
                        }
                        assert(insert_fault(held, route.path@) is None);
                    }
                }
            }
            let ghost grown = tree;
            by_method.insert(method.as_str(), tree);
            assert(by_method@.map_values(content) =~= before.insert(method@, inserted_routes(grown)));
            // A path that stands under several methods is refused here the second
            // time, which is expected.
            let _again = insert_route(&mut all_paths, route.path.as_str(), route.id);
            assert(inserted_routes(all_paths) =~= all_inserted(routes@.take(i + 1)));
            i = i + 1;
        }
        assert(routes@.take(routes@.len() as int) =~= routes@);
        Ok(Router { by_method, all_paths })
    }

    /// The route of a method and a path, or why there is none.
    pub fn find(&self, method: &str, path: &str) -> (r: Result<Matched, MatchError>)
        ensures
            match (r, finds(self.methods(), self.all(), method@, path@)) {
                (Ok(m), Ok(hit)) => m.route_id == hit.0 && text_map(m.path_params@) == param_map(hit.1),
                (Err(e), Err(f)) => e == f,
                _ => false,
            },
    {
        if let Some(tree) = self.by_method.get(to_upper(method).as_str()) {
            if let Some(m) = match_route(tree, path) {
                let mut path_params: Table<String> = Table::new();
                let ghost all = param_texts(m.1@);
                let mut i: usize = 0;
                assert(text_map(path_params@) =~= param_map(all.take(0)));
                while i < m.1.len()
                    invariant
                        i <= m.1@.len(),
                        all == param_texts(m.1@),
                        text_map(path_params@) == param_map(all.take(i as int)),
                    decreases m.1.len() - i,
                {
                    let ghost was = path_params@;
                    let value = m.1[i].1.clone();
                    let ghost text = value@;
                    path_params.insert(m.1[i].0.as_str(), value);
                    assert(text_map(path_params@) =~= text_map(was).insert(m.1@[i as int].0@, text));
                    assert(all.take(i + 1).drop_last() =~= all.take(i as int));
                    assert(all.take(i + 1).last() == all[i as int]);
                    i = i + 1;
                }
                assert(all.take(all.len() as int) =~= all);
                return Ok(Matched { route_id: m.0, path_params });
            }
        }
        match match_route(&self.all_paths, path) {
            Some(_) => Err(MatchError::MethodNotAllowed),
            None => Err(MatchError::NotFound),
        }
    }

    /// The methods under which a path has a route, in alphabetical order.
    pub fn allowed_methods(&self, path: &str) -> (r: Vec<String>)
        ensures
            texts(r@) == allowed_on(self.methods(), path@),
    {
        let mut out: Vec<String> = Vec::new();
        let n: usize = self.by_method.len();
        let ghost pairs = self.by_method.pairs();
        proof {
            lemma_table_pairs(pairs);
        }
        let mut i: usize = 0;
        while i < n
            invariant
                i <= n == pairs.len(),
                pairs == self.by_method.pairs(),
                in_order(pairs),
                crate::text::alphabetical(texts(out@)),
                forall|k: int|
                    0 <= k < texts(out@).len() ==> hit_before(pairs, i as int, path@, #[trigger] texts(out@)[k]),
                forall|j: int|
                    0 <= j < i && route_match(inserted_routes((#[trigger] pairs[j]).1), path@) is Some
                        ==> texts(out@).contains(pairs[j].0),
            decreases n - i,
        {
            let ghost was = texts(out@);
            if match_route(self.by_method.value_at(i), path).is_some() {
                let name = self.by_method.key_at(i).to_owned();
                proof {
                    crate::text::lemma_texts_push(out@, name);
                    let now = was.push(name@);
                    assert(now[was.len() as int] == name@);
                    assert forall|a: int, b: int| 0 <= a < b < now.len() implies crate::text::precedes(
                        #[trigger] now[a],
                        #[trigger] now[b],
                    ) by {
                        if b == was.len() {
                            assert(hit_before(pairs, i as int, path@, was[a]));
                            let j = choose|j: int| hit_at(pairs, j, path@, was[a]) && 0 <= j < i;
                            assert(crate::text::precedes(pairs[j].0, pairs[i as int].0));
                        } else {
                            assert(crate::text::precedes(was[a], was[b]));
                        }
                    }
                    assert forall|j: int|
                        0 <= j < i + 1 && route_match(inserted_routes((#[trigger] pairs[j]).1), path@) is Some implies now.contains(
                        pairs[j].0,
                    ) by {
                        if j < i {
                            let k = choose|k: int| 0 <= k < was.len() && was[k] == pairs[j].0;
                            assert(now[k] == pairs[j].0);
                        }
                    }
                    assert(hit_at(pairs, i as int, path@, name@));
                    assert forall|k: int| 0 <= k < now.len() implies hit_before(pairs, i + 1, path@, #[trigger] now[k]) by {
                        if k < was.len() {
                            assert(hit_before(pairs, i as int, path@, was[k]));
                        }
                    }
                }
                out.push(name);
            } else {
                assert forall|k: int| 0 <= k < was.len() implies hit_before(pairs, i + 1, path@, #[trigger] was[k]) by {
                    assert(hit_before(pairs, i as int, path@, was[k]));
                }
            }
            i = i + 1;
        }
        proof {
            assert forall|m: Seq<char>| #[trigger] texts(out@).contains(m) <==> self.methods().contains_key(m)
                && route_match(self.methods()[m], path@) is Some by {
                if texts(out@).contains(m) {
                    let k = choose|k: int| 0 <= k < texts(out@).len() && texts(out@)[k] == m;
                    assert(hit_before(pairs, n as int, path@, texts(out@)[k]));
                    let j = choose|j: int| hit_at(pairs, j, path@, m) && 0 <= j < n;
                    assert(self.by_method@.contains_key(pairs[j].0));
                }
                if self.methods().contains_key(m) {
                    assert(self.by_method@.contains_key(m));
                    let j = choose|j: int| 0 <= j < pairs.len() && (#[trigger] pairs[j]).0 == m;
                    assert(self.by_method@[pairs[j].0] == pairs[j].1);
                }
            }
        }
        proof {
            let set = Set::new(
                |m: Seq<char>| self.methods().contains_key(m) && route_match(self.methods()[m], path@) is Some,
            );
            assert(texts(out@).to_set() =~= set);
            crate::text::lemma_ordered(texts(out@));
        }
        out
    }
}

/// A route is served under its method, whatever the case that the method is written in: a
/// list with one route more has it, last, among those of its method, and no other method
/// gains one.
pub proof fn law_a_route_is_served_under_its_method(routes: Seq<Route>, r: Route, method: Seq<char>)
    ensures
        routes_of(by_methods(Seq::empty()), method).len() == 0,
        uppered(r.method@) == method ==> routes_of(by_methods(routes.push(r)), method) == routes_of(
            by_methods(routes),
            method,
        ).push((r.path@, r.id)),
        uppered(r.method@) != method ==> routes_of(by_methods(routes.push(r)), method) == routes_of(
            by_methods(routes),
            method,
        ),
        all_inserted(routes.push(r)) == all_inserted(routes).push((r.path@, r.id)),
{
    assert(routes.push(r).drop_last() =~= routes);
    assert(all_inserted(routes.push(r)) =~= all_inserted(routes).push((r.path@, r.id)));
}

/// A request leads to the route of its method that its path matches; where only other
/// methods have such a route, the method is not allowed; and where none has, there is
/// nothing. The methods that are allowed are those that lead somewhere.
pub proof fn law_a_request_leads_to_a_route_of_its_method(
    methods: Map<Seq<char>, Inserted>,
    all: Inserted,
    method: Seq<char>,
    path: Seq<char>,
)
    requires
        methods.dom().finite(),
    ensures
        finds(methods, all, method, path) matches Ok(hit) ==> route_match(routes_of(methods, uppered(method)), path)
            == Some(hit) && methods.contains_key(uppered(method)),
        methods.contains_key(uppered(method)) && route_match(methods[uppered(method)], path) is Some ==> finds(
            methods,
            all,
            method,
            path,
        ) is Ok,
        finds(methods, all, method, path) matches Err(e) ==> (e == MatchError::NotFound <==> route_match(all, path) is None),
        finds(methods, all, crate::text::lowered(method), path) == finds(methods, all, method, path),
        crate::text::alphabetical(allowed_on(methods, path)),
        allowed_on(methods, path).contains(uppered(method)) <==> finds(methods, all, method, path) is Ok,
{
    assert(uppered(crate::text::lowered(method)) =~= uppered(method));
    let set = Set::new(|m: Seq<char>| methods.contains_key(m) && route_match(methods[m], path) is Some);
    assert(set.subset_of(methods.dom()));
    vstd::set_lib::lemma_len_subset(set, methods.dom());
    crate::text::law_ordered_lists_the_set(set);
    let m = uppered(method);
    assert(allowed_on(methods, path).contains(m) <==> allowed_on(methods, path).to_set().contains(m));
}

/// A route that cannot be taken is refused by its path: for too many parameters, or for what
/// the tree reports of it after the routes of its method before it.
pub proof fn law_a_route_that_cannot_be_taken_is_named(routes: Seq<Route>, i: int)
    requires
        0 <= i < routes.len(),
    ensures
        ({
            let r = routes[i];
            let before = routes_of(by_methods(routes.take(i)), uppered(r.method@));
            &&& ordinary_params(r.path@) > 25 ==> path_fault(routes)(i) is Some
            &&& ordinary_params(r.path@) <= 25 ==> (path_fault(routes)(i) is Some <==> insert_fault(before, r.path@) is Some)
            &&& path_fault(routes)(i) matches Some(e) ==> crate::text::contains_text(e, debug_quoted(r.path@))
        }),
{
    let r = routes[i];
    if let Some(e) = path_fault(routes)(i) {
        let start = "invalid route path "@;
        let q = debug_quoted(r.path@);
        assert(e.subrange(start.len() as int, start.len() as int + q.len()) =~= q);
        assert(crate::text::occurs_at(e, q, start.len() as int));
    }
}

} // verus!
