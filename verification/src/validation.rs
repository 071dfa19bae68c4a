//! What makes a manifest unfit to start from.

use crate::json::{Number, NumberView};
use crate::manifest::{
    AgentDef, Approval, BehaviourDef, FlowDef, FlowKind, FlowStep, Manifest, Op, PageData, Route, cors_fault,
};
use crate::text::{cat2, cat3, cat4, cat5, cat6, chars_of, debug_quoted, holds, quoted, same, texts};
use vstd::prelude::*;

verus! {

/// The lesser of two numbers.
pub open spec fn least(a: nat, b: nat) -> nat {
    if a <= b {
        a
    } else {
        b
    }
}

/// The number of characters to insert, delete or replace to make the first `j`
/// characters of `b` out of the first `i` of `a`.
pub open spec fn edits(a: Seq<char>, b: Seq<char>, i: nat, j: nat) -> nat
    decreases i, j,
{
    if i == 0 {
        j
    } else if j == 0 {
        i
    } else {
        let replaced: nat = if a[i - 1] == b[j - 1] {
            0
        } else {
            1
        };
        least(
            least(edits(a, b, (i - 1) as nat, j) + 1, edits(a, b, i, (j - 1) as nat) + 1),
            edits(a, b, (i - 1) as nat, (j - 1) as nat) + replaced,
        )
    }
}

/// The edit distance of two texts.
pub open spec fn distance(a: Seq<char>, b: Seq<char>) -> nat {
    edits(a, b, a.len(), b.len())
}

proof fn lemma_edits_bound(a: Seq<char>, b: Seq<char>, i: nat, j: nat)
    ensures
        edits(a, b, i, j) <= if i <= j { j } else { i },
        edits(a, b, i, j) >= if i <= j { j - i } else { i - j },
    decreases i, j,
{
    if i > 0 && j > 0 {
        lemma_edits_bound(a, b, (i - 1) as nat, j);
        lemma_edits_bound(a, b, i, (j - 1) as nat);
        lemma_edits_bound(a, b, (i - 1) as nat, (j - 1) as nat);
    }
}

proof fn lemma_edits_symmetric(a: Seq<char>, b: Seq<char>, i: nat, j: nat)
    ensures
        edits(a, b, i, j) == edits(b, a, j, i),
    decreases i, j,
{
    if i > 0 && j > 0 {
        lemma_edits_symmetric(a, b, (i - 1) as nat, j);
        lemma_edits_symmetric(a, b, i, (j - 1) as nat);
        lemma_edits_symmetric(a, b, (i - 1) as nat, (j - 1) as nat);
    }
}

proof fn lemma_edits_zero(a: Seq<char>, b: Seq<char>, i: nat, j: nat)
    requires
        i <= a.len(),
        j <= b.len(),
    ensures
        edits(a, b, i, j) == 0 <==> a.take(i as int) == b.take(j as int),
    decreases i, j,
{
    lemma_edits_bound(a, b, i, j);
    if i == 0 || j == 0 {
        if i == 0 && j == 0 {
            assert(a.take(0) =~= b.take(0));
        } else {
            assert(a.take(i as int).len() == i && b.take(j as int).len() == j);
        }
    } else {
        lemma_edits_zero(a, b, (i - 1) as nat, (j - 1) as nat);
        let x = a.take(i as int);
        let y = b.take(j as int);
        assert(x =~= a.take(i - 1).push(a[i - 1]));
        assert(y =~= b.take(j - 1).push(b[j - 1]));
        if x == y {
            assert(x.drop_last() =~= a.take(i - 1));
            assert(y.drop_last() =~= b.take(j - 1));
            assert(x.last() == a[i - 1] && y.last() == b[j - 1]);
        }
    }
}

proof fn lemma_edits_triangle(a: Seq<char>, b: Seq<char>, c: Seq<char>, i: nat, j: nat, k: nat)
    ensures
        edits(a, c, i, k) <= edits(a, b, i, j) + edits(b, c, j, k),
    decreases i + j + k,
{
    if i == 0 || j == 0 || k == 0 {
        lemma_edits_bound(a, c, i, k);
        lemma_edits_bound(a, b, i, j);
        lemma_edits_bound(b, c, j, k);
    } else {
        lemma_edits_triangle(a, b, c, (i - 1) as nat, j, k);
        lemma_edits_triangle(a, b, c, i, j, (k - 1) as nat);
        lemma_edits_triangle(a, b, c, i, (j - 1) as nat, k);
        lemma_edits_triangle(a, b, c, i, (j - 1) as nat, (k - 1) as nat);
        lemma_edits_triangle(a, b, c, (i - 1) as nat, (j - 1) as nat, k);
        lemma_edits_triangle(a, b, c, (i - 1) as nat, (j - 1) as nat, (k - 1) as nat);
    }
}

/// Going by way of a third text is never shorter.
pub proof fn law_distance_has_no_shortcut(a: Seq<char>, b: Seq<char>, c: Seq<char>)
    ensures
        distance(a, c) <= distance(a, b) + distance(b, c),
{
    lemma_edits_triangle(a, b, c, a.len(), b.len(), c.len());
}

/// The distance is zero exactly for equal texts, the same both ways, at most the
/// longer length and at least the difference of the lengths.
pub proof fn law_distance(a: Seq<char>, b: Seq<char>)
    ensures
        distance(a, b) == 0 <==> a == b,
        distance(a, b) == distance(b, a),
        distance(a, b) <= a.len() || distance(a, b) <= b.len(),
        distance(a, b) >= a.len() - b.len(),
        distance(a, b) >= b.len() - a.len(),
{
    lemma_edits_bound(a, b, a.len(), b.len());
    lemma_edits_symmetric(a, b, a.len(), b.len());
    lemma_edits_zero(a, b, a.len(), b.len());
    assert(a.take(a.len() as int) =~= a);
    assert(b.take(b.len() as int) =~= b);
}

/// The edit distance of two texts, one row of the table at a time.
pub fn edit_distance(a: &str, b: &str) -> (r: usize)
    ensures
        r == distance(a@, b@),
{
    let x = chars_of(a);
    let y = chars_of(b);
    // Row `i` of the table without its first column, which is `i` itself.
    let mut prev: Vec<usize> = Vec::new();
    let mut j: usize = 0;
    while j < y.len()
        invariant
            j <= y.len(),
            prev@.len() == j,
            forall|k: int| 0 <= k < j ==> #[trigger] prev@[k] == edits(x@, y@, 0, (k + 1) as nat),
        decreases y.len() - j,
    {
        prev.push(j + 1);
        j = j + 1;
    }
    let mut i: usize = 0;
    while i < x.len()
        invariant
            i <= x.len(),
            prev@.len() == y.len(),
            forall|k: int| 0 <= k < y.len() ==> #[trigger] prev@[k] == edits(x@, y@, i as nat, (k + 1) as nat),
        decreases x.len() - i,
    {
        let mut cur: Vec<usize> = Vec::new();
        let mut j: usize = 0;
        while j < y.len()
            invariant
                i < x.len(),
                j <= y.len(),
                prev@.len() == y.len(),
                cur@.len() == j,
                forall|k: int| 0 <= k < y.len() ==> #[trigger] prev@[k] == edits(x@, y@, i as nat, (k + 1) as nat),
                forall|k: int| 0 <= k < j ==> #[trigger] cur@[k] == edits(x@, y@, (i + 1) as nat, (k + 1) as nat),
            decreases y.len() - j,
        {
            proof {
                lemma_edits_bound(x@, y@, (i + 1) as nat, (j + 1) as nat);
                lemma_edits_bound(x@, y@, (i + 1) as nat, j as nat);
                lemma_edits_bound(x@, y@, i as nat, (j + 1) as nat);
                lemma_edits_bound(x@, y@, i as nat, j as nat);
            }
            let up: u128 = prev[j] as u128 + 1;
            let left: u128 = if j == 0 {
                i as u128 + 2
            } else {
                cur[j - 1] as u128 + 1
            };
            let corner: u128 = if j == 0 {
                i as u128
            } else {
                prev[j - 1] as u128
            };
            let replaced: u128 = if x[i] == y[j] {
                corner
            } else {
                corner + 1
            };
            let beside: u128 = if up <= left {
                up
            } else {
                left
            };
            let value: u128 = if beside <= replaced {
                beside
            } else {
                replaced
            };
            assert(value == edits(x@, y@, (i + 1) as nat, (j + 1) as nat));
            cur.push(value as usize);
            j = j + 1;
        }
        prev = cur;
        i = i + 1;
    }
    if y.len() == 0 {
        x.len()
    } else {
        prev[y.len() - 1]
    }
}

/// The first of the texts nearest to `needle`, where one is within three edits.
pub open spec fn closest(needle: Seq<char>, haystack: Seq<Seq<char>>) -> Option<Seq<char>>
    decreases haystack.len(),
{
    if haystack.len() == 0 {
        None
    } else {
        let best = closest(needle, haystack.drop_last());
        let d = distance(needle, haystack.last());
        if d <= 3 && (best matches Some(b) ==> d < distance(needle, b)) {
            Some(haystack.last())
        } else {
            best
        }
    }
}

/// A hint is one of the candidates, within three edits, and none is nearer; there
/// is none only where every candidate is further away.
pub proof fn law_closest(needle: Seq<char>, haystack: Seq<Seq<char>>)
    ensures
        match closest(needle, haystack) {
            Some(h) => haystack.contains(h) && distance(needle, h) <= 3 && forall|i: int|
                0 <= i < haystack.len() ==> distance(needle, h) <= distance(needle, #[trigger] haystack[i]),
            None => forall|i: int| 0 <= i < haystack.len() ==> distance(needle, #[trigger] haystack[i]) > 3,
        },
    decreases haystack.len(),
{
    if haystack.len() > 0 {
        let init = haystack.drop_last();
        law_closest(needle, init);
        assert forall|i: int| 0 <= i < haystack.len() - 1 implies #[trigger] haystack[i] == init[i] by {}
        match closest(needle, init) {
            Some(h) => {
                let k = choose|k: int| 0 <= k < init.len() && init[k] == h;
                assert(haystack[k] == h);
            },
            None => {},
        }
        assert(haystack[haystack.len() - 1] == haystack.last());
    }
}

/// Closest match by edit distance, for "did you mean" hints on typos.
pub fn nearest(needle: &str, haystack: &Vec<String>) -> (r: Option<String>)
    ensures
        says(r, closest(needle@, texts(haystack@))),
{
    let mut best: Option<(usize, usize)> = None;
    let mut i: usize = 0;
    let ghost hay = texts(haystack@);
    while i < haystack.len()
        invariant
            i <= haystack@.len(),
            hay == texts(haystack@),
            match best {
                Some(p) => p.0 < i && closest(needle@, hay.take(i as int)) == Some(hay[p.0 as int]) && p.1
                    == distance(needle@, hay[p.0 as int]),
                None => closest(needle@, hay.take(i as int)) is None,
            },
        decreases haystack.len() - i,
    {
        let d: usize = edit_distance(needle, haystack[i].as_str());
        assert(hay.take(i + 1).drop_last() =~= hay.take(i as int));
        assert(hay.take(i + 1).last() == hay[i as int]);
        let closer = match best {
            Some(p) => d < p.1,
            None => true,
        };
        if d <= 3 && closer {
            best = Some((i, d));
        }
        i = i + 1;
    }
    assert(hay.take(hay.len() as int) =~= hay);
    match best {
        Some(p) => Some(haystack[p.0].clone()),
        None => None,
    }
}

/// Whether a message is the one to report, and is absent where there is none.
pub open spec fn says(r: Option<String>, fault: Option<Seq<char>>) -> bool {
    match r {
        Some(e) => fault == Some(e@),
        None => fault is None,
    }
}

/// The first fault among those of the indices from `from` up to `to`.
pub open spec fn first_fault(
    from: int,
    to: int,
    fault: spec_fn(int) -> Option<Seq<char>>,
) -> Option<Seq<char>>
    decreases to - from,
{
    if from >= to {
        None
    } else {
        match fault(from) {
            Some(e) => Some(e),
            None => first_fault(from + 1, to, fault),
        }
    }
}

/// The first of two faults.
pub open spec fn or_fault(a: Option<Seq<char>>, b: Option<Seq<char>>) -> Option<Seq<char>> {
    match a {
        Some(e) => Some(e),
        None => b,
    }
}

/// The names of the exposed tools, in route order.
pub open spec fn tool_names(routes: Seq<Route>) -> Seq<Seq<char>>
    decreases routes.len(),
{
    if routes.len() == 0 {
        Seq::empty()
    } else {
        let names = tool_names(routes.drop_last());
        if routes.last().tool.expose {
            names.push(routes.last().tool_text())
        } else {
            names
        }
    }
}

/// The names of the agents.
pub open spec fn agent_names(agents: Seq<AgentDef>) -> Seq<Seq<char>> {
    agents.map_values(|a: AgentDef| a.name@)
}

/// The names of the behaviours.
pub open spec fn behaviour_names(behaviours: Seq<BehaviourDef>) -> Seq<Seq<char>> {
    behaviours.map_values(|b: BehaviourDef| b.name@)
}

/// The names of the context providers.
pub open spec fn context_names(m: Manifest) -> Seq<Seq<char>> {
    m.contexts@.map_values(|c: crate::manifest::ContextDef| c.name@)
}

/// The names of the flows.
pub open spec fn flow_names(flows: Seq<FlowDef>) -> Seq<Seq<char>> {
    flows.map_values(|f: FlowDef| f.name@)
}

/// What stands behind a name that is not known: a hint, where a known one is near.
pub open spec fn with_hint(start: Seq<char>, name: Seq<char>, known: Seq<Seq<char>>) -> Seq<char> {
    match closest(name, known) {
        Some(h) => start + ". Did you mean "@ + debug_quoted(h) + "?"@,
        None => start,
    }
}

fn say_with_hint(start: &str, name: &str, known: &Vec<String>) -> (r: String)
    ensures
        r@ == with_hint(start@, name@, texts(known@)),
{
    match nearest(name, known) {
        Some(h) => cat4(start, ". Did you mean ", quoted(h.as_str()).as_str(), "?"),
        None => start.to_owned(),
    }
}

/// Two agents of one name.
pub open spec fn agent_twice(m: Manifest) -> spec_fn(int) -> Option<Seq<char>> {
    |i: int|
        if agent_names(m.agents@).take(i).contains(m.agents@[i].name@) {
            Some("duplicate agent name "@ + debug_quoted(m.agents@[i].name@))
        } else {
            None
        }
}

/// `route` or `page`, the method and the path of a route, and what is said of it.
pub open spec fn of_route(what: Seq<char>, r: Route, said: Seq<char>) -> Seq<char> {
    what + " "@ + r.method@ + " "@ + r.path@ + said
}

fn say_of_route(what: &str, r: &Route, said: &str) -> (e: String)
    ensures
        e@ == of_route(what@, *r, said@),
{
    cat6(what, " ", r.method.as_str(), " ", r.path.as_str(), said)
}

/// What is wrong with what a route runs.
pub open spec fn op_fault(m: Manifest, r: Route) -> Option<Seq<char>> {
    match r.op {
        Op::Proxy { upstream, .. } => if !m.upstreams@.contains_key(upstream@) {
            Some(of_route("route"@, r, " proxies to undeclared upstream "@ + debug_quoted(upstream@)))
        } else {
            None
        },
        Op::Agent { agent, .. } => if !agent_names(m.agents@).contains(agent@) {
            Some(of_route("route"@, r, " invokes undeclared agent "@ + debug_quoted(agent@)))
        } else {
            None
        },
        Op::Flow { flow } => if !flow_names(m.flows@).contains(flow@) {
            Some(of_route("route"@, r, " invokes undeclared flow "@ + debug_quoted(flow@)))
        } else {
            None
        },
        Op::Query { .. } => if m.database is None {
            Some(of_route("route"@, r, " runs a query but no database is configured"@))
        } else {
            None
        },
        Op::Page { data, .. } => if data is Query && m.database is None {
            Some(of_route("page"@, r, " sources data from a query but no database is configured"@))
        } else if m.templates is None {
            Some(
                of_route(
                    "route"@,
                    r,
                    " renders a template but no template directory is configured; pass templates=... to WebCortex()"@,
                ),
            )
        } else {
            None
        },
        _ => None,
    }
}

/// Whether two routes answer to one method and path.
pub open spec fn same_place(a: Route, b: Route) -> bool {
    a.method@ == b.method@ && a.path@ == b.path@
}

/// What is wrong with a route.
pub open spec fn route_fault(m: Manifest) -> spec_fn(int) -> Option<Seq<char>> {
    |i: int|
        {
            let r = m.routes@[i];
            if exists|j: int| 0 <= j < i && same_place(#[trigger] m.routes@[j], r) {
                Some("duplicate route "@ + r.method@ + " "@ + r.path@)
            } else if op_fault(m, r) is Some {
                op_fault(m, r)
            } else if r.approval == Approval::Required && !r.tool.expose {
                Some(
                    of_route(
                        "route"@,
                        r,
                        " requires approval but is not exposed as a tool; approval gates only apply to agent tool calls"@,
                    ),
                )
            } else {
                None
            }
        }
}

/// Whether a number is zero or less. A number that is no integer is one or the
/// other by its text: a sign in front, or nothing but zeros before the exponent.
pub open spec fn not_positive(n: NumberView) -> bool {
    match n {
        NumberView::Int(i) => i <= 0,
        NumberView::Real(t) => (t.len() > 0 && t[0] == '-') || zero_mantissa(t),
    }
}

/// Whether no digit other than zero stands before the exponent.
pub open spec fn zero_mantissa(t: Seq<char>) -> bool
    decreases t.len(),
{
    if t.len() == 0 {
        true
    } else if t[0] == 'e' || t[0] == 'E' {
        true
    } else if '1' <= t[0] <= '9' {
        false
    } else {
        zero_mantissa(t.skip(1))
    }
}

fn is_not_positive(n: &Number) -> (r: bool)
    ensures
        r == not_positive(n@),
{
    match n {
        Number::Unsigned(i) => *i == 0,
        Number::Negative(i) => *i <= 0,
        Number::Real(t) => {
            let chars = chars_of(t.text());
            if chars.len() > 0 && chars[0] == '-' {
                return true;
            }
            let ghost text = t@;
            let mut i: usize = 0;
            assert(text.skip(0) =~= text);
            while i < chars.len()
                invariant
                    i <= chars@.len(),
                    chars@ == text,
                    n@ == NumberView::Real(text),
                    text.len() > 0 ==> text[0] != '-',
                    zero_mantissa(text) == zero_mantissa(text.skip(i as int)),
                decreases chars.len() - i,
            {
                let c = chars[i];
                let code: u32 = crate::text::code_point(c);
                if c == 'e' || c == 'E' {
                    return true;
                }
                if 49 <= code && code <= 57 {
                    return false;
                }
                assert(text.skip(i as int).skip(1) =~= text.skip(i + 1));
                i = i + 1;
            }
            true
        },
    }
}

/// A rate limit that would let nothing through.
pub open spec fn rate_fault(m: Manifest) -> Option<Seq<char>> {
    if m.rate_limit.enabled && not_positive(m.rate_limit.per_second@) {
        Some("rate_limit.per_second must be greater than zero"@)
    } else {
        None
    }
}

/// Two behaviours of one name, or one that may take no step.
pub open spec fn behaviour_fault(m: Manifest) -> spec_fn(int) -> Option<Seq<char>> {
    |i: int|
        {
            let b = m.behaviours@[i];
            if behaviour_names(m.behaviours@).take(i).contains(b.name@) {
                Some("duplicate behaviour name "@ + debug_quoted(b.name@))
            } else if b.max_steps == 0 {
                Some(
                    "behaviour "@ + debug_quoted(b.name@) + " has max_steps=0 and could never do anything"@,
                )
            } else {
                None
            }
        }
}

/// Two exposed routes of one tool name.
pub open spec fn tool_twice(m: Manifest) -> spec_fn(int) -> Option<Seq<char>> {
    |i: int|
        {
            let r = m.routes@[i];
            if r.tool.expose && tool_names(m.routes@.take(i)).contains(r.tool_text()) {
                Some(
                    "two routes both expose the tool name "@ + debug_quoted(r.tool_text())
                        + "; set tool_name= on one of them"@,
                )
            } else {
                None
            }
        }
}

/// Two context providers of one name.
pub open spec fn context_twice(m: Manifest) -> Option<Seq<char>> {
    if context_names(m).no_duplicates() {
        None
    } else {
        Some("duplicate context provider name"@)
    }
}

/// A context provider that is named and not declared.
pub open spec fn context_unknown(
    m: Manifest,
    kind: Seq<char>,
    owner: Seq<char>,
    names: Seq<String>,
) -> spec_fn(int) -> Option<Seq<char>> {
    |i: int|
        if context_names(m).contains(names[i]@) {
            None
        } else {
            Some(
                with_hint(
                    kind + " "@ + debug_quoted(owner) + " names context "@ + debug_quoted(names[i]@)
                        + ", which is not declared; declare it with app.context(...)"@,
                    names[i]@,
                    context_names(m),
                ),
            )
        }
}

/// A tool that a behaviour declares and nothing answers to.
pub open spec fn behaviour_tool_unknown(m: Manifest, b: BehaviourDef) -> spec_fn(int) -> Option<Seq<char>> {
    |i: int|
        {
            let t = b.tools@[i]@;
            if tool_names(m.routes@).contains(t) || behaviour_names(m.behaviours@).contains(t) {
                None
            } else {
                Some(
                    with_hint(
                        "behaviour "@ + debug_quoted(b.name@) + " declares tool "@ + debug_quoted(t)
                            + ", which is not an exposed route or behaviour"@,
                        t,
                        tool_names(m.routes@),
                    ),
                )
            }
        }
}

/// What a behaviour names that is not there.
pub open spec fn behaviour_refs(m: Manifest) -> spec_fn(int) -> Option<Seq<char>> {
    |i: int|
        {
            let b = m.behaviours@[i];
            or_fault(
                first_fault(
                    0,
                    b.context@.len() as int,
                    context_unknown(m, "behaviour"@, b.name@, b.context@),
                ),
                first_fault(0, b.tools@.len() as int, behaviour_tool_unknown(m, b)),
            )
        }
}

/// A tool that an agent references and nothing answers to.
pub open spec fn agent_tool_unknown(m: Manifest, a: AgentDef) -> spec_fn(int) -> Option<Seq<char>> {
    |i: int|
        {
            let t = a.tools@[i]@;
            if tool_names(m.routes@).contains(t) || behaviour_names(m.behaviours@).contains(t) {
                None
            } else {
                Some(
                    with_hint(
                        "agent "@ + debug_quoted(a.name@) + " references tool "@ + debug_quoted(t)
                            + ", which is not an exposed route"@,
                        t,
                        tool_names(m.routes@),
                    ),
                )
            }
        }
}

/// A handoff to the agent itself, or to none.
pub open spec fn handoff_fault(m: Manifest, a: AgentDef) -> spec_fn(int) -> Option<Seq<char>> {
    |i: int|
        {
            let h = a.handoffs@[i]@;
            if h == a.name@ {
                Some("agent "@ + debug_quoted(a.name@) + " lists itself as a handoff target"@)
            } else if !agent_names(m.agents@).contains(h) {
                Some(
                    with_hint(
                        "agent "@ + debug_quoted(a.name@) + " hands off to "@ + debug_quoted(h)
                            + ", which is not a declared agent"@,
                        h,
                        agent_names(m.agents@),
                    ),
                )
            } else {
                None
            }
        }
}

/// What is wrong with an agent, its name apart.
pub open spec fn agent_fault(m: Manifest) -> spec_fn(int) -> Option<Seq<char>> {
    |i: int|
        {
            let a = m.agents@[i];
            or_fault(
                first_fault(0, a.tools@.len() as int, agent_tool_unknown(m, a)),
                or_fault(
                    if a.max_steps == Some(0u32) {
                        Some("agent "@ + debug_quoted(a.name@) + " has max_steps=0 and could never act"@)
                    } else {
                        None
                    },
                    or_fault(
                        first_fault(
                            0,
                            a.context@.len() as int,
                            context_unknown(m, "agent"@, a.name@, a.context@),
                        ),
                        or_fault(
                            first_fault(0, a.handoffs@.len() as int, handoff_fault(m, a)),
                            if a.policy.keep_recent == 0 {
                                Some(
                                    "agent "@ + debug_quoted(a.name@)
                                        + " has keep_recent=0; a compaction must keep at least one recent turn"@,
                                )
                            } else {
                                None
                            },
                        ),
                    ),
                ),
            )
        }
}

/// The steps of a flow: those of a router in the order of its labels, its default
/// last.
pub open spec fn flow_steps(k: FlowKind) -> Seq<FlowStep> {
    match k {
        FlowKind::Pipeline { steps } => steps@,
        FlowKind::Parallel { branches, .. } => branches@,
        FlowKind::Route { routes, default, .. } => {
            let labelled = routes.pairs().map_values(|p: (Seq<char>, FlowStep)| p.1);
            match default {
                Some(d) => labelled.push(d),
                None => labelled,
            }
        },
    }
}

/// A flow that has nothing to run.
pub open spec fn flow_empty(f: FlowDef) -> Option<Seq<char>> {
    match f.kind {
        FlowKind::Pipeline { steps } => if steps@.len() == 0 {
            Some("flow "@ + debug_quoted(f.name@) + " is a pipeline with no steps"@)
        } else {
            None
        },
        FlowKind::Parallel { branches, .. } => if branches@.len() == 0 {
            Some("flow "@ + debug_quoted(f.name@) + " is a parallel with no branches"@)
        } else {
            None
        },
        FlowKind::Route { routes, .. } => if routes.pairs().len() == 0 {
            Some("flow "@ + debug_quoted(f.name@) + " is a router with no routes"@)
        } else {
            None
        },
    }
}

/// A step that is the flow itself, or a tool that nothing answers to.
pub open spec fn step_fault(m: Manifest, f: FlowDef) -> spec_fn(int) -> Option<Seq<char>> {
    |i: int|
        {
            let t = flow_steps(f.kind)[i].tool@;
            if t == f.name@ {
                Some("flow "@ + debug_quoted(f.name@) + " contains itself as a step"@)
            } else if !tool_names(m.routes@).contains(t) {
                Some(
                    with_hint(
                        "flow "@ + debug_quoted(f.name@) + " references tool "@ + debug_quoted(t)
                            + ", which is not an exposed route"@,
                        t,
                        tool_names(m.routes@),
                    ),
                )
            } else {
                None
            }
        }
}

/// What is wrong with a flow.
pub open spec fn flow_fault(m: Manifest) -> spec_fn(int) -> Option<Seq<char>> {
    |i: int|
        {
            let f = m.flows@[i];
            if flow_names(m.flows@).take(i).contains(f.name@) {
                Some("duplicate flow name "@ + debug_quoted(f.name@))
            } else {
                or_fault(
                    flow_empty(f),
                    first_fault(0, flow_steps(f.kind).len() as int, step_fault(m, f)),
                )
            }
        }
}

/// The first thing wrong with a manifest. Name collisions among agents and
/// behaviours come before those of routes and tools, because each of them owns a
/// route, and the message about the route would point at the wrong fix.
pub open spec fn manifest_fault(m: Manifest) -> Option<Seq<char>> {
    or_fault(
        first_fault(0, m.agents@.len() as int, agent_twice(m)),
        or_fault(
            first_fault(0, m.routes@.len() as int, route_fault(m)),
            or_fault(
                cors_fault(m.cors),
                or_fault(
                    rate_fault(m),
                    or_fault(
                        first_fault(0, m.behaviours@.len() as int, behaviour_fault(m)),
                        or_fault(
                            first_fault(0, m.routes@.len() as int, tool_twice(m)),
                            or_fault(
                                context_twice(m),
                                or_fault(
                                    first_fault(0, m.behaviours@.len() as int, behaviour_refs(m)),
                                    or_fault(
                                        first_fault(0, m.agents@.len() as int, agent_fault(m)),
                                        first_fault(0, m.flows@.len() as int, flow_fault(m)),
                                    ),
                                ),
                            ),
                        ),
                    ),
                ),
            ),
        ),
    )
}

/// The names of a list of things, as strings of their own.
fn agent_name_list(m: &Manifest) -> (r: Vec<String>)
    ensures
        texts(r@) == agent_names(m.agents@),
{
    let mut out: Vec<String> = Vec::new();
    let mut i: usize = 0;
    while i < m.agents.len()
        invariant
            i <= m.agents@.len(),
            texts(out@) == agent_names(m.agents@).take(i as int),
        decreases m.agents.len() - i,
    {
        let ghost was = texts(out@);
        out.push(m.agents[i].name.clone());
        assert(texts(out@) =~= was.push(m.agents@[i as int].name@));
        assert(agent_names(m.agents@).take(i + 1) =~= agent_names(m.agents@).take(i as int).push(
            m.agents@[i as int].name@,
        ));
        i = i + 1;
    }
    assert(agent_names(m.agents@).take(m.agents@.len() as int) =~= agent_names(m.agents@));
    out
}

fn behaviour_name_list(m: &Manifest) -> (r: Vec<String>)
    ensures
        texts(r@) == behaviour_names(m.behaviours@),
{
    let mut out: Vec<String> = Vec::new();
    let mut i: usize = 0;
    while i < m.behaviours.len()
        invariant
            i <= m.behaviours@.len(),
            texts(out@) == behaviour_names(m.behaviours@).take(i as int),
        decreases m.behaviours.len() - i,
    {
        let ghost was = texts(out@);
        out.push(m.behaviours[i].name.clone());
        assert(texts(out@) =~= was.push(m.behaviours@[i as int].name@));
        assert(behaviour_names(m.behaviours@).take(i + 1) =~= behaviour_names(m.behaviours@).take(i as int).push(
            m.behaviours@[i as int].name@,
        ));
        i = i + 1;
    }
    assert(behaviour_names(m.behaviours@).take(m.behaviours@.len() as int) =~= behaviour_names(m.behaviours@));
    out
}

fn context_name_list(m: &Manifest) -> (r: Vec<String>)
    ensures
        texts(r@) == context_names(*m),
{
    let mut out: Vec<String> = Vec::new();
    let mut i: usize = 0;
    while i < m.contexts.len()
        invariant
            i <= m.contexts@.len(),
            texts(out@) == context_names(*m).take(i as int),
        decreases m.contexts.len() - i,
    {
        let ghost was = texts(out@);
        out.push(m.contexts[i].name.clone());
        assert(texts(out@) =~= was.push(m.contexts@[i as int].name@));
        assert(context_names(*m).take(i + 1) =~= context_names(*m).take(i as int).push(m.contexts@[i as int].name@));
        i = i + 1;
    }
    assert(context_names(*m).take(m.contexts@.len() as int) =~= context_names(*m));
    out
}

fn flow_name_list(m: &Manifest) -> (r: Vec<String>)
    ensures
        texts(r@) == flow_names(m.flows@),
{
    let mut out: Vec<String> = Vec::new();
    let mut i: usize = 0;
    while i < m.flows.len()
        invariant
            i <= m.flows@.len(),
            texts(out@) == flow_names(m.flows@).take(i as int),
        decreases m.flows.len() - i,
    {
        let ghost was = texts(out@);
        out.push(m.flows[i].name.clone());
        assert(texts(out@) =~= was.push(m.flows@[i as int].name@));
        assert(flow_names(m.flows@).take(i + 1) =~= flow_names(m.flows@).take(i as int).push(
            m.flows@[i as int].name@,
        ));
        i = i + 1;
    }
    assert(flow_names(m.flows@).take(m.flows@.len() as int) =~= flow_names(m.flows@));
    out
}

/// The names of the exposed tools.
pub fn tool_name_list(routes: &Vec<Route>) -> (r: Vec<String>)
    ensures
        texts(r@) == tool_names(routes@),
{
    let mut out: Vec<String> = Vec::new();
    let mut i: usize = 0;
    assert(texts(out@) =~= tool_names(routes@.take(0)));
    while i < routes.len()
        invariant
            i <= routes@.len(),
            texts(out@) == tool_names(routes@.take(i as int)),
        decreases routes.len() - i,
    {
        let ghost was = texts(out@);
        assert(routes@.take(i + 1).drop_last() =~= routes@.take(i as int));
        if routes[i].tool.expose {
            out.push(routes[i].tool_name());
            assert(texts(out@) =~= was.push(routes@[i as int].tool_text()));
        }
        i = i + 1;
    }
    assert(routes@.take(routes@.len() as int) =~= routes@);
    out
}

/// Whether a name stands among the first `n` of a list.
fn holds_before(list: &Vec<String>, n: usize, name: &str) -> (r: bool)
    requires
        n <= list@.len(),
    ensures
        r == texts(list@).take(n as int).contains(name@),
{
    let mut i: usize = 0;
    let ghost head = texts(list@).take(n as int);
    while i < n
        invariant
            i <= n <= list@.len(),
            head == texts(list@).take(n as int),
            forall|j: int| 0 <= j < i ==> head[j] != name@,
        decreases n - i,
    {
        assert(head[i as int] == list@[i as int]@);
        if same(list[i].as_str(), name) {
            return true;
        }
        i = i + 1;
    }
    false
}

fn check_agent_names(m: &Manifest) -> (r: Option<String>)
    ensures
        says(r, first_fault(0, m.agents@.len() as int, agent_twice(*m))),
{
    let names = agent_name_list(m);
    let mut i: usize = 0;
    while i < m.agents.len()
        invariant
            i <= m.agents@.len(),
            texts(names@) == agent_names(m.agents@),
            first_fault(0, m.agents@.len() as int, agent_twice(*m)) == first_fault(
                i as int,
                m.agents@.len() as int,
                agent_twice(*m),
            ),
        decreases m.agents.len() - i,
    {
        assert(names@.len() == texts(names@).len());
        let name = m.agents[i].name.as_str();
        if holds_before(&names, i, name) {
            return Some(cat2("duplicate agent name ", quoted(name).as_str()));
        }
        i = i + 1;
    }
    None
}

fn check_op(m: &Manifest, r: &Route, agents: &Vec<String>, flows: &Vec<String>) -> (e: Option<String>)
    requires
        texts(agents@) == agent_names(m.agents@),
        texts(flows@) == flow_names(m.flows@),
    ensures
        says(e, op_fault(*m, *r)),
{
    match &r.op {
        Op::Proxy { upstream, .. } => {
            if m.upstreams.get(upstream.as_str()).is_none() {
                let said = cat2(" proxies to undeclared upstream ", quoted(upstream.as_str()).as_str());
                return Some(say_of_route("route", r, said.as_str()));
            }
        },
        Op::Agent { agent, .. } => {
            if !holds(agents, agent.as_str()) {
                let said = cat2(" invokes undeclared agent ", quoted(agent.as_str()).as_str());
                return Some(say_of_route("route", r, said.as_str()));
            }
        },
        Op::Flow { flow } => {
            if !holds(flows, flow.as_str()) {
                let said = cat2(" invokes undeclared flow ", quoted(flow.as_str()).as_str());
                return Some(say_of_route("route", r, said.as_str()));
            }
        },
        Op::Query { .. } => {
            if m.database.is_none() {
                return Some(say_of_route("route", r, " runs a query but no database is configured"));
            }
        },
        Op::Page { data, .. } => {
            let from_query = match data {
                PageData::Query { .. } => true,
                _ => false,
            };
            if from_query && m.database.is_none() {
                return Some(
                    say_of_route("page", r, " sources data from a query but no database is configured"),
                );
            }
            if m.templates.is_none() {
                return Some(
                    say_of_route(
                        "route",
                        r,
                        " renders a template but no template directory is configured; pass templates=... to WebCortex()",
                    ),
                );
            }
        },
        _ => {},
    }
    None
}

fn check_routes(m: &Manifest) -> (r: Option<String>)
    ensures
        says(r, first_fault(0, m.routes@.len() as int, route_fault(*m))),
{
    let agents = agent_name_list(m);
    let flows = flow_name_list(m);
    let mut i: usize = 0;
    while i < m.routes.len()
        invariant
            i <= m.routes@.len(),
            texts(agents@) == agent_names(m.agents@),
            texts(flows@) == flow_names(m.flows@),
            first_fault(0, m.routes@.len() as int, route_fault(*m)) == first_fault(
                i as int,
                m.routes@.len() as int,
                route_fault(*m),
            ),
        decreases m.routes.len() - i,
    {
        let route = &m.routes[i];
        let mut j: usize = 0;
        while j < i
            invariant
                j <= i < m.routes@.len(),
                *route == m.routes@[i as int],
                forall|k: int| 0 <= k < j ==> !same_place(#[trigger] m.routes@[k], *route),
                first_fault(0, m.routes@.len() as int, route_fault(*m)) == first_fault(
                    i as int,
                    m.routes@.len() as int,
                    route_fault(*m),
                ),
            decreases i - j,
        {
            if same(m.routes[j].method.as_str(), route.method.as_str()) && same(
                m.routes[j].path.as_str(),
                route.path.as_str(),
            ) {
                assert(same_place(m.routes@[j as int], *route));
                return Some(cat4("duplicate route ", route.method.as_str(), " ", route.path.as_str()));
            }
            j = j + 1;
        }
        match check_op(m, route, &agents, &flows) {
            Some(e) => {
                return Some(e);
            },
            None => {},
        }
        if route.approval == Approval::Required && !route.tool.expose {
            return Some(
                say_of_route(
                    "route",
                    route,
                    " requires approval but is not exposed as a tool; approval gates only apply to agent tool calls",
                ),
            );
        }
        i = i + 1;
    }
    None
}

fn check_behaviours(m: &Manifest) -> (r: Option<String>)
    ensures
        says(r, first_fault(0, m.behaviours@.len() as int, behaviour_fault(*m))),
{
    let names = behaviour_name_list(m);
    let mut i: usize = 0;
    while i < m.behaviours.len()
        invariant
            i <= m.behaviours@.len(),
            texts(names@) == behaviour_names(m.behaviours@),
            first_fault(0, m.behaviours@.len() as int, behaviour_fault(*m)) == first_fault(
                i as int,
                m.behaviours@.len() as int,
                behaviour_fault(*m),
            ),
        decreases m.behaviours.len() - i,
    {
        assert(names@.len() == texts(names@).len());
        let name = m.behaviours[i].name.as_str();
        if holds_before(&names, i, name) {
            return Some(cat2("duplicate behaviour name ", quoted(name).as_str()));
        }
        if m.behaviours[i].max_steps == 0 {
            return Some(
                cat3("behaviour ", quoted(name).as_str(), " has max_steps=0 and could never do anything"),
            );
        }
        i = i + 1;
    }
    None
}

fn check_tool_names(m: &Manifest) -> (r: Option<String>)
    ensures
        says(r, first_fault(0, m.routes@.len() as int, tool_twice(*m))),
{
    let mut names: Vec<String> = Vec::new();
    let mut i: usize = 0;
    assert(texts(names@) =~= tool_names(m.routes@.take(0)));
    while i < m.routes.len()
        invariant
            i <= m.routes@.len(),
            texts(names@) == tool_names(m.routes@.take(i as int)),
            first_fault(0, m.routes@.len() as int, tool_twice(*m)) == first_fault(
                i as int,
                m.routes@.len() as int,
                tool_twice(*m),
            ),
        decreases m.routes.len() - i,
    {
        let ghost was = texts(names@);
        assert(m.routes@.take(i + 1).drop_last() =~= m.routes@.take(i as int));
        if m.routes[i].tool.expose {
            let name = m.routes[i].tool_name();
            if holds(&names, name.as_str()) {
                return Some(
                    cat3(
                        "two routes both expose the tool name ",
                        quoted(name.as_str()).as_str(),
                        "; set tool_name= on one of them",
                    ),
                );
            }
            names.push(name);
            assert(texts(names@) =~= was.push(m.routes@[i as int].tool_text()));
        }
        i = i + 1;
    }
    None
}

fn check_context_names(m: &Manifest) -> (r: Option<String>)
    ensures
        says(r, context_twice(*m)),
{
    let names = context_name_list(m);
    let ghost all = context_names(*m);
    let mut i: usize = 0;
    while i < names.len()
        invariant
            i <= names@.len(),
            texts(names@) == all,
            all == context_names(*m),
            forall|a: int, b: int| 0 <= a < b < i ==> all[a] != all[b],
        decreases names.len() - i,
    {
        assert(all[i as int] == names@[i as int]@);
        if holds_before(&names, i, names[i].as_str()) {
            let ghost head = all.take(i as int);
            let ghost k = choose|k: int| 0 <= k < head.len() && head[k] == all[i as int];
            assert(all[k] == all[i as int]);
            assert(!all.no_duplicates());
            return Some("duplicate context provider name".to_owned());
        }
        proof {
            assert forall|a: int| 0 <= a < i implies all[a] != all[i as int] by {
                assert(all.take(i as int)[a] == all[a]);
            }
        }
        i = i + 1;
    }
    assert(names@.len() == all.len());
    None
}

fn check_contexts(m: &Manifest, known: &Vec<String>, kind: &str, owner: &str, names: &Vec<String>) -> (r: Option<
    String,
>)
    requires
        texts(known@) == context_names(*m),
    ensures
        says(r, first_fault(0, names@.len() as int, context_unknown(*m, kind@, owner@, names@))),
{
    let mut i: usize = 0;
    while i < names.len()
        invariant
            i <= names@.len(),
            texts(known@) == context_names(*m),
            first_fault(0, names@.len() as int, context_unknown(*m, kind@, owner@, names@)) == first_fault(
                i as int,
                names@.len() as int,
                context_unknown(*m, kind@, owner@, names@),
            ),
        decreases names.len() - i,
    {
        if !holds(known, names[i].as_str()) {
            let start = cat6(
                kind,
                " ",
                quoted(owner).as_str(),
                " names context ",
                quoted(names[i].as_str()).as_str(),
                ", which is not declared; declare it with app.context(...)",
            );
            return Some(say_with_hint(start.as_str(), names[i].as_str(), known));
        }
        i = i + 1;
    }
    None
}

fn check_behaviour_tools(m: &Manifest, b: &BehaviourDef, tools: &Vec<String>, behaviours: &Vec<String>) -> (r:
    Option<String>)
    requires
        texts(tools@) == tool_names(m.routes@),
        texts(behaviours@) == behaviour_names(m.behaviours@),
    ensures
        says(r, first_fault(0, b.tools@.len() as int, behaviour_tool_unknown(*m, *b))),
{
    let mut i: usize = 0;
    while i < b.tools.len()
        invariant
            i <= b.tools@.len(),
            texts(tools@) == tool_names(m.routes@),
            texts(behaviours@) == behaviour_names(m.behaviours@),
            first_fault(0, b.tools@.len() as int, behaviour_tool_unknown(*m, *b)) == first_fault(
                i as int,
                b.tools@.len() as int,
                behaviour_tool_unknown(*m, *b),
            ),
        decreases b.tools.len() - i,
    {
        let t = b.tools[i].as_str();
        if !holds(tools, t) && !holds(behaviours, t) {
            let start = cat5(
                "behaviour ",
                quoted(b.name.as_str()).as_str(),
                " declares tool ",
                quoted(t).as_str(),
                ", which is not an exposed route or behaviour",
            );
            return Some(say_with_hint(start.as_str(), t, tools));
        }
        i = i + 1;
    }
    None
}

fn check_behaviour_refs(m: &Manifest, tools: &Vec<String>, behaviours: &Vec<String>, contexts: &Vec<String>) -> (r:
    Option<String>)
    requires
        texts(tools@) == tool_names(m.routes@),
        texts(behaviours@) == behaviour_names(m.behaviours@),
        texts(contexts@) == context_names(*m),
    ensures
        says(r, first_fault(0, m.behaviours@.len() as int, behaviour_refs(*m))),
{
    let mut i: usize = 0;
    while i < m.behaviours.len()
        invariant
            i <= m.behaviours@.len(),
            texts(tools@) == tool_names(m.routes@),
            texts(behaviours@) == behaviour_names(m.behaviours@),
            texts(contexts@) == context_names(*m),
            first_fault(0, m.behaviours@.len() as int, behaviour_refs(*m)) == first_fault(
                i as int,
                m.behaviours@.len() as int,
                behaviour_refs(*m),
            ),
        decreases m.behaviours.len() - i,
    {
        let b = &m.behaviours[i];
        match check_contexts(m, contexts, "behaviour", b.name.as_str(), &b.context) {
            Some(e) => {
                return Some(e);
            },
            None => {},
        }
        match check_behaviour_tools(m, b, tools, behaviours) {
            Some(e) => {
                return Some(e);
            },
            None => {},
        }
        i = i + 1;
    }
    None
}

fn check_agent_tools(m: &Manifest, a: &AgentDef, tools: &Vec<String>, behaviours: &Vec<String>) -> (r: Option<String>)
    requires
        texts(tools@) == tool_names(m.routes@),
        texts(behaviours@) == behaviour_names(m.behaviours@),
    ensures
        says(r, first_fault(0, a.tools@.len() as int, agent_tool_unknown(*m, *a))),
{
    let mut i: usize = 0;
    while i < a.tools.len()
        invariant
            i <= a.tools@.len(),
            texts(tools@) == tool_names(m.routes@),
            texts(behaviours@) == behaviour_names(m.behaviours@),
            first_fault(0, a.tools@.len() as int, agent_tool_unknown(*m, *a)) == first_fault(
                i as int,
                a.tools@.len() as int,
                agent_tool_unknown(*m, *a),
            ),
        decreases a.tools.len() - i,
    {
        let t = a.tools[i].as_str();
        if !holds(tools, t) && !holds(behaviours, t) {
            let start = cat5(
                "agent ",
                quoted(a.name.as_str()).as_str(),
                " references tool ",
                quoted(t).as_str(),
                ", which is not an exposed route",
            );
            return Some(say_with_hint(start.as_str(), t, tools));
        }
        i = i + 1;
    }
    None
}

fn check_handoffs(m: &Manifest, a: &AgentDef, agents: &Vec<String>) -> (r: Option<String>)
    requires
        texts(agents@) == agent_names(m.agents@),
    ensures
        says(r, first_fault(0, a.handoffs@.len() as int, handoff_fault(*m, *a))),
{
    let mut i: usize = 0;
    while i < a.handoffs.len()
        invariant
            i <= a.handoffs@.len(),
            texts(agents@) == agent_names(m.agents@),
            first_fault(0, a.handoffs@.len() as int, handoff_fault(*m, *a)) == first_fault(
                i as int,
                a.handoffs@.len() as int,
                handoff_fault(*m, *a),
            ),
        decreases a.handoffs.len() - i,
    {
        let h = a.handoffs[i].as_str();
        if same(h, a.name.as_str()) {
            return Some(
                cat3("agent ", quoted(a.name.as_str()).as_str(), " lists itself as a handoff target"),
            );
        }
        if !holds(agents, h) {
            let start = cat5(
                "agent ",
                quoted(a.name.as_str()).as_str(),
                " hands off to ",
                quoted(h).as_str(),
                ", which is not a declared agent",
            );
            return Some(say_with_hint(start.as_str(), h, agents));
        }
        i = i + 1;
    }
    None
}

fn check_agents(m: &Manifest, tools: &Vec<String>, behaviours: &Vec<String>, contexts: &Vec<String>) -> (r: Option<
    String,
>)
    requires
        texts(tools@) == tool_names(m.routes@),
        texts(behaviours@) == behaviour_names(m.behaviours@),
        texts(contexts@) == context_names(*m),
    ensures
        says(r, first_fault(0, m.agents@.len() as int, agent_fault(*m))),
{
    let agents = agent_name_list(m);
    let mut i: usize = 0;
    while i < m.agents.len()
        invariant
            i <= m.agents@.len(),
            texts(tools@) == tool_names(m.routes@),
            texts(behaviours@) == behaviour_names(m.behaviours@),
            texts(contexts@) == context_names(*m),
            texts(agents@) == agent_names(m.agents@),
            first_fault(0, m.agents@.len() as int, agent_fault(*m)) == first_fault(
                i as int,
                m.agents@.len() as int,
                agent_fault(*m),
            ),
        decreases m.agents.len() - i,
    {
        let a = &m.agents[i];
        match check_agent_tools(m, a, tools, behaviours) {
            Some(e) => {
                return Some(e);
            },
            None => {},
        }
        let stuck = match a.max_steps {
            Some(n) => n == 0,
            None => false,
        };
        if stuck {
            return Some(
                cat3("agent ", quoted(a.name.as_str()).as_str(), " has max_steps=0 and could never act"),
            );
        }
        match check_contexts(m, contexts, "agent", a.name.as_str(), &a.context) {
            Some(e) => {
                return Some(e);
            },
            None => {},
        }
        match check_handoffs(m, a, &agents) {
            Some(e) => {
                return Some(e);
            },
            None => {},
        }
        if a.policy.keep_recent == 0 {
            return Some(
                cat3(
                    "agent ",
                    quoted(a.name.as_str()).as_str(),
                    " has keep_recent=0; a compaction must keep at least one recent turn",
                ),
            );
        }
        i = i + 1;
    }
    None
}

/// The steps of a flow, by reference.
pub fn flow_step_list(k: &FlowKind) -> (r: Vec<&FlowStep>)
    ensures
        r@.unref() == flow_steps(*k),
{
    let mut out: Vec<&FlowStep> = Vec::new();
    match k {
        FlowKind::Pipeline { steps } => {
            let mut i: usize = 0;
            while i < steps.len()
                invariant
                    i <= steps@.len(),
                    out@.unref() == steps@.take(i as int),
                decreases steps.len() - i,
            {
                let ghost was = out@.unref();
                out.push(&steps[i]);
                assert(out@.unref() =~= was.push(steps@[i as int]));
                assert(steps@.take(i + 1) =~= steps@.take(i as int).push(steps@[i as int]));
                i = i + 1;
            }
            assert(steps@.take(steps@.len() as int) =~= steps@);
        },
        FlowKind::Parallel { branches, .. } => {
            let mut i: usize = 0;
            while i < branches.len()
                invariant
                    i <= branches@.len(),
                    out@.unref() == branches@.take(i as int),
                decreases branches.len() - i,
            {
                let ghost was = out@.unref();
                out.push(&branches[i]);
                assert(out@.unref() =~= was.push(branches@[i as int]));
                assert(branches@.take(i + 1) =~= branches@.take(i as int).push(branches@[i as int]));
                i = i + 1;
            }
            assert(branches@.take(branches@.len() as int) =~= branches@);
        },
        FlowKind::Route { routes, default, .. } => {
            let n: usize = routes.len();
            let ghost labelled = routes.pairs().map_values(|p: (Seq<char>, FlowStep)| p.1);
            let mut i: usize = 0;
            while i < n
                invariant
                    i <= n == routes.pairs().len(),
                    labelled == routes.pairs().map_values(|p: (Seq<char>, FlowStep)| p.1),
                    out@.unref() == labelled.take(i as int),
                decreases n - i,
            {
                let ghost was = out@.unref();
                out.push(routes.value_at(i));
                assert(out@.unref() =~= was.push(labelled[i as int]));
                assert(labelled.take(i + 1) =~= labelled.take(i as int).push(labelled[i as int]));
                i = i + 1;
            }
            assert(labelled.take(labelled.len() as int) =~= labelled);
            match default {
                Some(d) => {
                    out.push(d);
                    assert(out@.unref() =~= labelled.push(*d));
                },
                None => {},
            }
        },
    }
    out
}

fn check_flow_empty(f: &FlowDef) -> (r: Option<String>)
    ensures
        says(r, flow_empty(*f)),
{
    match &f.kind {
        FlowKind::Pipeline { steps } => if steps.len() == 0 {
            return Some(cat3("flow ", quoted(f.name.as_str()).as_str(), " is a pipeline with no steps"));
        },
        FlowKind::Parallel { branches, .. } => if branches.len() == 0 {
            return Some(cat3("flow ", quoted(f.name.as_str()).as_str(), " is a parallel with no branches"));
        },
        FlowKind::Route { routes, .. } => if routes.len() == 0 {
            return Some(cat3("flow ", quoted(f.name.as_str()).as_str(), " is a router with no routes"));
        },
    }
    None
}

fn check_flow_steps(m: &Manifest, f: &FlowDef, tools: &Vec<String>) -> (r: Option<String>)
    requires
        texts(tools@) == tool_names(m.routes@),
    ensures
        says(r, first_fault(0, flow_steps(f.kind).len() as int, step_fault(*m, *f))),
{
    let steps = flow_step_list(&f.kind);
    let ghost all = flow_steps(f.kind);
    let mut i: usize = 0;
    while i < steps.len()
        invariant
            i <= steps@.len(),
            steps@.unref() == all,
            all == flow_steps(f.kind),
            texts(tools@) == tool_names(m.routes@),
            first_fault(0, all.len() as int, step_fault(*m, *f)) == first_fault(
                i as int,
                all.len() as int,
                step_fault(*m, *f),
            ),
        decreases steps.len() - i,
    {
        assert(steps@.unref()[i as int] == *steps@[i as int]);
        let t = steps[i].tool.as_str();
        if same(t, f.name.as_str()) {
            return Some(cat3("flow ", quoted(f.name.as_str()).as_str(), " contains itself as a step"));
        }
        if !holds(tools, t) {
            let start = cat5(
                "flow ",
                quoted(f.name.as_str()).as_str(),
                " references tool ",
                quoted(t).as_str(),
                ", which is not an exposed route",
            );
            return Some(say_with_hint(start.as_str(), t, tools));
        }
        i = i + 1;
    }
    assert(steps@.unref().len() == steps@.len());
    None
}

fn check_flows(m: &Manifest, tools: &Vec<String>) -> (r: Option<String>)
    requires
        texts(tools@) == tool_names(m.routes@),
    ensures
        says(r, first_fault(0, m.flows@.len() as int, flow_fault(*m))),
{
    let names = flow_name_list(m);
    let mut i: usize = 0;
    while i < m.flows.len()
        invariant
            i <= m.flows@.len(),
            texts(tools@) == tool_names(m.routes@),
            texts(names@) == flow_names(m.flows@),
            first_fault(0, m.flows@.len() as int, flow_fault(*m)) == first_fault(
                i as int,
                m.flows@.len() as int,
                flow_fault(*m),
            ),
        decreases m.flows.len() - i,
    {
        assert(names@.len() == texts(names@).len());
        let f = &m.flows[i];
        if holds_before(&names, i, f.name.as_str()) {
            return Some(cat2("duplicate flow name ", quoted(f.name.as_str()).as_str()));
        }
        match check_flow_empty(f) {
            Some(e) => {
                return Some(e);
            },
            None => {},
        }
        match check_flow_steps(m, f, tools) {
            Some(e) => {
                return Some(e);
            },
            None => {},
        }
        i = i + 1;
    }
    None
}

impl Manifest {
    /// Checks the cross-references that the types cannot, so that a misconfigured
    /// application fails when it starts instead of on a request.
    pub fn validate(&self) -> (r: Result<(), String>)
        ensures
            match r {
                Ok(_) => manifest_fault(*self) is None,
                Err(e) => manifest_fault(*self) == Some(e@),
            },
    {
        if let Some(e) = check_agent_names(self) {
            return Err(e);
        }
        if let Some(e) = check_routes(self) {
            return Err(e);
        }
        if let Err(e) = self.cors.validate() {
            return Err(e);
        }
        if self.rate_limit.enabled && is_not_positive(&self.rate_limit.per_second) {
            return Err("rate_limit.per_second must be greater than zero".to_owned());
        }
        if let Some(e) = check_behaviours(self) {
            return Err(e);
        }
        if let Some(e) = check_tool_names(self) {
            return Err(e);
        }
        if let Some(e) = check_context_names(self) {
            return Err(e);
        }
        let tools = tool_name_list(&self.routes);
        let behaviours = behaviour_name_list(self);
        let contexts = context_name_list(self);
        if let Some(e) = check_behaviour_refs(self, &tools, &behaviours, &contexts) {
            return Err(e);
        }
        if let Some(e) = check_agents(self, &tools, &behaviours, &contexts) {
            return Err(e);
        }
        if let Some(e) = check_flows(self, &tools) {
            return Err(e);
        }
        Ok(())
    }
}

proof fn lemma_no_fault(from: int, to: int, fault: spec_fn(int) -> Option<Seq<char>>)
    requires
        first_fault(from, to, fault) is None,
    ensures
        forall|i: int| from <= i < to ==> (#[trigger] fault(i)) is None,
    decreases to - from,
{
    if from < to {
        lemma_no_fault(from + 1, to, fault);
    }
}

proof fn lemma_distinct(names: Seq<Seq<char>>)
    requires
        forall|i: int| 0 <= i < names.len() ==> !names.take(i).contains(#[trigger] names[i]),
    ensures
        names.no_duplicates(),
{
    assert forall|i: int, j: int| 0 <= i < names.len() && 0 <= j < names.len() && i != j implies names[i]
        != names[j] by {
        if i < j {
            assert(names.take(j)[i] == names[i]);
        } else {
            assert(names.take(i)[j] == names[j]);
        }
    }
}

/// In a manifest that passes, no two agents, behaviours or flows share a name, and
/// no two routes a method and path.
pub proof fn law_valid_names_are_unique(m: Manifest)
    requires
        manifest_fault(m) is None,
    ensures
        agent_names(m.agents@).no_duplicates(),
        behaviour_names(m.behaviours@).no_duplicates(),
        flow_names(m.flows@).no_duplicates(),
        context_names(m).no_duplicates(),
        forall|i: int, j: int|
            0 <= i < j < m.routes@.len() ==> !same_place(#[trigger] m.routes@[i], #[trigger] m.routes@[j]),
{
    lemma_no_fault(0, m.agents@.len() as int, agent_twice(m));
    lemma_no_fault(0, m.behaviours@.len() as int, behaviour_fault(m));
    lemma_no_fault(0, m.flows@.len() as int, flow_fault(m));
    lemma_no_fault(0, m.routes@.len() as int, route_fault(m));
    assert forall|i: int| 0 <= i < m.agents@.len() implies !agent_names(m.agents@).take(i).contains(
        #[trigger] agent_names(m.agents@)[i],
    ) by {
        assert(agent_twice(m)(i) is None);
    }
    lemma_distinct(agent_names(m.agents@));
    assert forall|i: int| 0 <= i < m.behaviours@.len() implies !behaviour_names(m.behaviours@).take(i).contains(
        #[trigger] behaviour_names(m.behaviours@)[i],
    ) by {
        assert(behaviour_fault(m)(i) is None);
    }
    lemma_distinct(behaviour_names(m.behaviours@));
    assert forall|i: int| 0 <= i < m.flows@.len() implies !flow_names(m.flows@).take(i).contains(
        #[trigger] flow_names(m.flows@)[i],
    ) by {
        assert(flow_fault(m)(i) is None);
    }
    lemma_distinct(flow_names(m.flows@));
    assert forall|i: int, j: int| 0 <= i < j < m.routes@.len() implies !same_place(
        #[trigger] m.routes@[i],
        #[trigger] m.routes@[j],
    ) by {
        assert(route_fault(m)(j) is None);
    }
}

proof fn lemma_tool_names_distinct(m: Manifest, n: int)
    requires
        manifest_fault(m) is None,
        0 <= n <= m.routes@.len(),
    ensures
        tool_names(m.routes@.take(n)).no_duplicates(),
    decreases n,
{
    if n > 0 {
        lemma_no_fault(0, m.routes@.len() as int, tool_twice(m));
        lemma_tool_names_distinct(m, n - 1);
        assert(tool_twice(m)(n - 1) is None);
        assert(m.routes@.take(n).drop_last() =~= m.routes@.take(n - 1));
    }
}

/// In a manifest that passes, a tool name stands for one exposed route.
pub proof fn law_valid_tool_names_are_unique(m: Manifest)
    requires
        manifest_fault(m) is None,
    ensures
        tool_names(m.routes@).no_duplicates(),
{
    lemma_tool_names_distinct(m, m.routes@.len() as int);
    assert(m.routes@.take(m.routes@.len() as int) =~= m.routes@);
}

/// In a manifest that passes, credentials are never shared with every origin, and some
/// origin is named where any may come.
pub proof fn law_valid_credentials_name_their_origins(m: Manifest)
    requires
        manifest_fault(m) is None,
        m.cors.enabled,
    ensures
        m.cors.allow_origins@.len() > 0,
        m.cors.allow_credentials ==> !texts(m.cors.allow_origins@).contains("*"@),
{
}

/// In a manifest that passes, whatever a route runs is there to be run, and a gated
/// route is one that agents can call.
pub proof fn law_valid_routes_resolve(m: Manifest, i: int)
    requires
        manifest_fault(m) is None,
        0 <= i < m.routes@.len(),
    ensures
        m.routes@[i].op matches Op::Proxy { upstream, .. } ==> m.upstreams@.contains_key(upstream@),
        m.routes@[i].op matches Op::Agent { agent, .. } ==> agent_names(m.agents@).contains(agent@),
        m.routes@[i].op matches Op::Flow { flow } ==> flow_names(m.flows@).contains(flow@),
        m.routes@[i].op is Query ==> m.database is Some,
        m.routes@[i].op is Page ==> m.templates is Some,
        m.routes@[i].op matches Op::Page { data, .. } ==> (data is Query ==> m.database is Some),
        m.routes@[i].approval == Approval::Required ==> m.routes@[i].tool.expose,
{
    lemma_no_fault(0, m.routes@.len() as int, route_fault(m));
    assert(route_fault(m)(i) is None);
}

/// In a manifest that passes, an agent can take a step, keeps a recent turn, and
/// every tool, context and handoff that it names is declared.
pub proof fn law_valid_agents_resolve(m: Manifest, i: int)
    requires
        manifest_fault(m) is None,
        0 <= i < m.agents@.len(),
    ensures
        m.agents@[i].max_steps != Some(0u32),
        m.agents@[i].policy.keep_recent > 0,
        forall|k: int|
            0 <= k < m.agents@[i].tools@.len() ==> tool_names(m.routes@).contains(
                #[trigger] m.agents@[i].tools@[k]@,
            ) || behaviour_names(m.behaviours@).contains(m.agents@[i].tools@[k]@),
        forall|k: int|
            0 <= k < m.agents@[i].context@.len() ==> context_names(m).contains(
                #[trigger] m.agents@[i].context@[k]@,
            ),
        forall|k: int|
            0 <= k < m.agents@[i].handoffs@.len() ==> agent_names(m.agents@).contains(
                #[trigger] m.agents@[i].handoffs@[k]@,
            ) && m.agents@[i].handoffs@[k]@ != m.agents@[i].name@,
{
    let a = m.agents@[i];
    lemma_no_fault(0, m.agents@.len() as int, agent_fault(m));
    assert(agent_fault(m)(i) is None);
    lemma_no_fault(0, a.tools@.len() as int, agent_tool_unknown(m, a));
    lemma_no_fault(0, a.context@.len() as int, context_unknown(m, "agent"@, a.name@, a.context@));
    lemma_no_fault(0, a.handoffs@.len() as int, handoff_fault(m, a));
    assert forall|k: int| 0 <= k < a.tools@.len() implies tool_names(m.routes@).contains(
        #[trigger] a.tools@[k]@,
    ) || behaviour_names(m.behaviours@).contains(a.tools@[k]@) by {
        assert(agent_tool_unknown(m, a)(k) is None);
    }
    assert forall|k: int| 0 <= k < a.context@.len() implies context_names(m).contains(
        #[trigger] a.context@[k]@,
    ) by {
        assert(context_unknown(m, "agent"@, a.name@, a.context@)(k) is None);
    }
    assert forall|k: int| 0 <= k < a.handoffs@.len() implies agent_names(m.agents@).contains(
        #[trigger] a.handoffs@[k]@,
    ) && a.handoffs@[k]@ != a.name@ by {
        assert(handoff_fault(m, a)(k) is None);
    }
}

/// In a manifest that passes, a flow has steps, none of them itself, and each an
/// exposed tool.
pub proof fn law_valid_flows_resolve(m: Manifest, i: int)
    requires
        manifest_fault(m) is None,
        0 <= i < m.flows@.len(),
    ensures
        flow_steps(m.flows@[i].kind).len() > 0,
        forall|k: int|
            0 <= k < flow_steps(m.flows@[i].kind).len() ==> tool_names(m.routes@).contains(
                (#[trigger] flow_steps(m.flows@[i].kind)[k]).tool@,
            ) && flow_steps(m.flows@[i].kind)[k].tool@ != m.flows@[i].name@,
{
    let f = m.flows@[i];
    lemma_no_fault(0, m.flows@.len() as int, flow_fault(m));
    assert(flow_fault(m)(i) is None);
    lemma_no_fault(0, flow_steps(f.kind).len() as int, step_fault(m, f));
    assert forall|k: int| 0 <= k < flow_steps(f.kind).len() implies tool_names(m.routes@).contains(
        (#[trigger] flow_steps(f.kind)[k]).tool@,
    ) && flow_steps(f.kind)[k].tool@ != f.name@ by {
        assert(step_fault(m, f)(k) is None);
    }
}

/// In a manifest that passes, a behaviour can take a step, and every tool and context that
/// it names is declared.
pub proof fn law_valid_behaviours_resolve(m: Manifest, i: int)
    requires
        manifest_fault(m) is None,
        0 <= i < m.behaviours@.len(),
    ensures
        m.behaviours@[i].max_steps > 0,
        forall|k: int|
            0 <= k < m.behaviours@[i].tools@.len() ==> tool_names(m.routes@).contains(
                #[trigger] m.behaviours@[i].tools@[k]@,
            ) || behaviour_names(m.behaviours@).contains(m.behaviours@[i].tools@[k]@),
        forall|k: int|
            0 <= k < m.behaviours@[i].context@.len() ==> context_names(m).contains(
                #[trigger] m.behaviours@[i].context@[k]@,
            ),
{
    let b = m.behaviours@[i];
    lemma_no_fault(0, m.behaviours@.len() as int, behaviour_fault(m));
    assert(behaviour_fault(m)(i) is None);
    lemma_no_fault(0, m.behaviours@.len() as int, behaviour_refs(m));
    assert(behaviour_refs(m)(i) is None);
    lemma_no_fault(0, b.context@.len() as int, context_unknown(m, "behaviour"@, b.name@, b.context@));
    lemma_no_fault(0, b.tools@.len() as int, behaviour_tool_unknown(m, b));
    assert forall|k: int| 0 <= k < b.tools@.len() implies tool_names(m.routes@).contains(
        #[trigger] b.tools@[k]@,
    ) || behaviour_names(m.behaviours@).contains(b.tools@[k]@) by {
        assert(behaviour_tool_unknown(m, b)(k) is None);
    }
    assert forall|k: int| 0 <= k < b.context@.len() implies context_names(m).contains(#[trigger] b.context@[k]@) by {
        assert(context_unknown(m, "behaviour"@, b.name@, b.context@)(k) is None);
    }
}

proof fn lemma_common_end(x: Seq<char>, u: Seq<char>, v: Seq<char>, y: Seq<char>, n: nat)
    requires
        n <= y.len(),
    ensures
        edits(x + u + y, x + v + y, x.len() + u.len() + n, x.len() + v.len() + n) <= edits(
            x + u + y,
            x + v + y,
            x.len() + u.len(),
            x.len() + v.len(),
        ),
    decreases n,
{
    if n > 0 {
        lemma_common_end(x, u, v, y, (n - 1) as nat);
        let a = x + u + y;
        let b = x + v + y;
        assert(a[x.len() + u.len() + n - 1] == y[n - 1]);
        assert(b[x.len() + v.len() + n - 1] == y[n - 1]);
    }
}

/// One edit is one away: a text differs by one from what it is with a character put in,
/// taken out or replaced, wherever that is.
pub proof fn law_one_edit_is_one_away(x: Seq<char>, y: Seq<char>, c: char, d: char)
    requires
        c != d,
    ensures
        distance(x + y, x + seq![c] + y) == 1,
        distance(x + seq![c] + y, x + y) == 1,
        distance(x + seq![c] + y, x + seq![d] + y) == 1,
{
    let none = Seq::<char>::empty();
    let one = x + seq![c] + y;
    let other = x + seq![d] + y;
    let less = x + none + y;
    assert(less =~= x + y);
    lemma_common_end(x, seq![c], seq![d], y, y.len());
    lemma_common_end(x, none, seq![c], y, y.len());
    let n = x.len();
    assert(one.take(n as int) =~= x && other.take(n as int) =~= x && less.take(n as int) =~= x);
    lemma_edits_zero(one, other, n, n);
    lemma_edits_zero(less, one, n, n);
    assert(edits(one, other, n + 1, n + 1) <= 1);
    assert(edits(less, one, n, n + 1) <= 1) by {
        if n == 0 {
            assert(edits(less, one, 0, 1) == 1);
        }
    }
    law_distance(one, other);
    law_distance(less, one);
    assert(one[n as int] == c && other[n as int] == d);
    assert(less.len() + 1 == one.len());
}

proof fn lemma_faultless(from: int, to: int, fault: spec_fn(int) -> Option<Seq<char>>)
    requires
        forall|i: int| from <= i < to ==> (#[trigger] fault(i)) is None,
    ensures
        first_fault(from, to, fault) is None,
    decreases to - from,
{
    if from < to {
        lemma_faultless(from + 1, to, fault);
    }
}

/// The tools of an application are its exposed routes, under their names.
pub proof fn law_a_tool_is_an_exposed_route(routes: Seq<Route>, name: Seq<char>)
    ensures
        tool_names(routes).contains(name) <==> exists|i: int|
            0 <= i < routes.len() && (#[trigger] routes[i]).tool.expose && routes[i].tool_text() == name,
    decreases routes.len(),
{
    if routes.len() > 0 {
        let rest = routes.drop_last();
        let last = routes.last();
        law_a_tool_is_an_exposed_route(rest, name);
        let before = tool_names(rest);
        let all = tool_names(routes);
        assert(routes[routes.len() - 1] == last);
        if exists|i: int| 0 <= i < routes.len() && (#[trigger] routes[i]).tool.expose && routes[i].tool_text() == name {
            let i = choose|i: int|
                0 <= i < routes.len() && (#[trigger] routes[i]).tool.expose && routes[i].tool_text() == name;
            if i < rest.len() {
                assert(rest[i] == routes[i]);
                let k = choose|k: int| 0 <= k < before.len() && before[k] == name;
                assert(all[k] == name);
            } else {
                assert(all[all.len() - 1] == name);
            }
        }
        if all.contains(name) {
            let k = choose|k: int| 0 <= k < all.len() && all[k] == name;
            if k < before.len() {
                assert(before[k] == name);
                let i = choose|i: int|
                    0 <= i < rest.len() && (#[trigger] rest[i]).tool.expose && rest[i].tool_text() == name;
                assert(routes[i] == rest[i]);
            }
        }
    }
}

/// Whether what a route runs is there to be run.
pub open spec fn op_resolves(m: Manifest, op: Op) -> bool {
    match op {
        Op::Proxy { upstream, .. } => m.upstreams@.contains_key(upstream@),
        Op::Agent { agent, .. } => agent_names(m.agents@).contains(agent@),
        Op::Flow { flow } => flow_names(m.flows@).contains(flow@),
        Op::Query { .. } => m.database is Some,
        Op::Page { data, .. } => m.templates is Some && (data is Query ==> m.database is Some),
        _ => true,
    }
}

/// Whether a name is that of an exposed route or of a behaviour.
pub open spec fn can_be_called(m: Manifest, name: Seq<char>) -> bool {
    tool_names(m.routes@).contains(name) || behaviour_names(m.behaviours@).contains(name)
}

/// Whether all that an agent names is there, and it can act.
pub open spec fn agent_resolves(m: Manifest, a: AgentDef) -> bool {
    &&& a.max_steps != Some(0u32)
    &&& a.policy.keep_recent > 0
    &&& forall|k: int| 0 <= k < a.tools@.len() ==> can_be_called(m, #[trigger] a.tools@[k]@)
    &&& forall|k: int| 0 <= k < a.context@.len() ==> context_names(m).contains(#[trigger] a.context@[k]@)
    &&& forall|k: int|
        0 <= k < a.handoffs@.len() ==> agent_names(m.agents@).contains(#[trigger] a.handoffs@[k]@) && a.handoffs@[k]@
            != a.name@
}

/// Whether all that a behaviour names is there, and it can take a step.
pub open spec fn behaviour_resolves(m: Manifest, b: BehaviourDef) -> bool {
    &&& b.max_steps > 0
    &&& forall|k: int| 0 <= k < b.tools@.len() ==> can_be_called(m, #[trigger] b.tools@[k]@)
    &&& forall|k: int| 0 <= k < b.context@.len() ==> context_names(m).contains(#[trigger] b.context@[k]@)
}

/// Whether a flow has steps, and each is an exposed tool other than itself.
pub open spec fn flow_resolves(m: Manifest, f: FlowDef) -> bool {
    &&& f.kind matches FlowKind::Pipeline { steps } ==> steps@.len() > 0
    &&& f.kind matches FlowKind::Parallel { branches, .. } ==> branches@.len() > 0
    &&& f.kind matches FlowKind::Route { routes, .. } ==> routes.pairs().len() > 0
    &&& forall|k: int|
        0 <= k < flow_steps(f.kind).len() ==> tool_names(m.routes@).contains((#[trigger] flow_steps(f.kind)[k]).tool@)
            && flow_steps(f.kind)[k].tool@ != f.name@
}

proof fn lemma_not_before(names: Seq<Seq<char>>, i: int)
    requires
        names.no_duplicates(),
        0 <= i < names.len(),
    ensures
        !names.take(i).contains(names[i]),
{
    if names.take(i).contains(names[i]) {
        let k = choose|k: int| 0 <= k < i && names.take(i)[k] == names[i];
        assert(names[k] == names[i]);
    }
}

/// A sound manifest is accepted: nothing is refused but for what is declared twice, for what
/// names something that is not there, for what could never act, and for what lets everybody
/// or nobody in.
#[verifier::rlimit(40)]
pub proof fn law_a_sound_manifest_is_accepted(m: Manifest)
    requires
        agent_names(m.agents@).no_duplicates(),
        behaviour_names(m.behaviours@).no_duplicates(),
        flow_names(m.flows@).no_duplicates(),
        context_names(m).no_duplicates(),
        forall|i: int, j: int|
            0 <= i < j < m.routes@.len() ==> !((#[trigger] m.routes@[i]).method@ == (#[trigger] m.routes@[j]).method@
                && m.routes@[i].path@ == m.routes@[j].path@),
        forall|i: int, j: int|
            0 <= i < j < m.routes@.len() && (#[trigger] m.routes@[i]).tool.expose && (#[trigger] m.routes@[j]).tool.expose
                ==> m.routes@[i].tool_text() != m.routes@[j].tool_text(),
        forall|i: int|
            0 <= i < m.routes@.len() ==> op_resolves(m, (#[trigger] m.routes@[i]).op) && (m.routes@[i].approval
                == Approval::Required ==> m.routes@[i].tool.expose),
        m.cors.enabled ==> m.cors.allow_origins@.len() > 0 && !(m.cors.allow_credentials && texts(
            m.cors.allow_origins@,
        ).contains("*"@)),
        m.rate_limit.enabled ==> (m.rate_limit.per_second@ matches NumberView::Int(n) && n > 0),
        forall|i: int| 0 <= i < m.agents@.len() ==> agent_resolves(m, #[trigger] m.agents@[i]),
        forall|i: int| 0 <= i < m.behaviours@.len() ==> behaviour_resolves(m, #[trigger] m.behaviours@[i]),
        forall|i: int| 0 <= i < m.flows@.len() ==> flow_resolves(m, #[trigger] m.flows@[i]),
    ensures
        manifest_fault(m) is None,
{
    assert forall|i: int| 0 <= i < m.agents@.len() implies (#[trigger] agent_twice(m)(i)) is None by {
        lemma_not_before(agent_names(m.agents@), i);
        assert(agent_names(m.agents@)[i] == m.agents@[i].name@);
    }
    lemma_faultless(0, m.agents@.len() as int, agent_twice(m));
    assert forall|i: int| 0 <= i < m.routes@.len() implies (#[trigger] route_fault(m)(i)) is None by {
        assert(op_resolves(m, m.routes@[i].op));
        assert forall|j: int| 0 <= j < i implies !same_place(#[trigger] m.routes@[j], m.routes@[i]) by {}
    }
    lemma_faultless(0, m.routes@.len() as int, route_fault(m));
    assert forall|i: int| 0 <= i < m.behaviours@.len() implies (#[trigger] behaviour_fault(m)(i)) is None by {
        lemma_not_before(behaviour_names(m.behaviours@), i);
        assert(behaviour_names(m.behaviours@)[i] == m.behaviours@[i].name@);
        assert(behaviour_resolves(m, m.behaviours@[i]));
    }
    lemma_faultless(0, m.behaviours@.len() as int, behaviour_fault(m));
    assert forall|i: int| 0 <= i < m.routes@.len() implies (#[trigger] tool_twice(m)(i)) is None by {
        let r = m.routes@[i];
        let before = m.routes@.take(i);
        law_a_tool_is_an_exposed_route(before, r.tool_text());
        if r.tool.expose && tool_names(before).contains(r.tool_text()) {
            let k = choose|k: int|
                0 <= k < before.len() && (#[trigger] before[k]).tool.expose && before[k].tool_text() == r.tool_text();
            assert(m.routes@[k] == before[k]);
        }
    }
    lemma_faultless(0, m.routes@.len() as int, tool_twice(m));
    assert forall|i: int| 0 <= i < m.behaviours@.len() implies (#[trigger] behaviour_refs(m)(i)) is None by {
        let b = m.behaviours@[i];
        assert(behaviour_resolves(m, b));
        assert forall|k: int| 0 <= k < b.context@.len() implies (#[trigger] context_unknown(
            m,
            "behaviour"@,
            b.name@,
            b.context@,
        )(k)) is None by {
            assert(context_names(m).contains(b.context@[k]@));
        }
        lemma_faultless(0, b.context@.len() as int, context_unknown(m, "behaviour"@, b.name@, b.context@));
        assert forall|k: int| 0 <= k < b.tools@.len() implies (#[trigger] behaviour_tool_unknown(m, b)(k)) is None by {
            assert(can_be_called(m, b.tools@[k]@));
        }
        lemma_faultless(0, b.tools@.len() as int, behaviour_tool_unknown(m, b));
    }
    lemma_faultless(0, m.behaviours@.len() as int, behaviour_refs(m));
    assert forall|i: int| 0 <= i < m.agents@.len() implies (#[trigger] agent_fault(m)(i)) is None by {
        let a = m.agents@[i];
        assert(agent_resolves(m, a));
        assert forall|k: int| 0 <= k < a.tools@.len() implies (#[trigger] agent_tool_unknown(m, a)(k)) is None by {
            assert(can_be_called(m, a.tools@[k]@));
        }
        lemma_faultless(0, a.tools@.len() as int, agent_tool_unknown(m, a));
        assert forall|k: int| 0 <= k < a.context@.len() implies (#[trigger] context_unknown(
            m,
            "agent"@,
            a.name@,
            a.context@,
        )(k)) is None by {
            assert(context_names(m).contains(a.context@[k]@));
        }
        lemma_faultless(0, a.context@.len() as int, context_unknown(m, "agent"@, a.name@, a.context@));
        assert forall|k: int| 0 <= k < a.handoffs@.len() implies (#[trigger] handoff_fault(m, a)(k)) is None by {
            assert(agent_names(m.agents@).contains(a.handoffs@[k]@));
        }
        lemma_faultless(0, a.handoffs@.len() as int, handoff_fault(m, a));
    }
    lemma_faultless(0, m.agents@.len() as int, agent_fault(m));
    assert forall|i: int| 0 <= i < m.flows@.len() implies (#[trigger] flow_fault(m)(i)) is None by {
        let f = m.flows@[i];
        lemma_not_before(flow_names(m.flows@), i);
        assert(flow_names(m.flows@)[i] == f.name@);
        assert(flow_resolves(m, f));
        assert forall|k: int| 0 <= k < flow_steps(f.kind).len() implies (#[trigger] step_fault(m, f)(k)) is None by {
            assert(tool_names(m.routes@).contains(flow_steps(f.kind)[k].tool@));
        }
        lemma_faultless(0, flow_steps(f.kind).len() as int, step_fault(m, f));
    }
    lemma_faultless(0, m.flows@.len() as int, flow_fault(m));
}

/// A rate limit has to let something through: one that is switched on is refused where it
/// says none or less, and a manifest without that fault has one that does.
pub proof fn law_a_rate_limit_lets_something_through(m: Manifest, n: int)
    requires
        m.rate_limit.enabled,
        m.rate_limit.per_second@ == NumberView::Int(n),
    ensures
        rate_fault(m) is None <==> n > 0,
        manifest_fault(m) is None ==> n > 0,
{
}

/// The first of several faults is the one that is reported.
pub proof fn law_the_first_fault_is_reported(from: int, to: int, fault: spec_fn(int) -> Option<Seq<char>>, i: int)
    requires
        from <= i < to,
        fault(i) is Some,
        forall|k: int| from <= k < i ==> (#[trigger] fault(k)) is None,
    ensures
        first_fault(from, to, fault) == fault(i),
    decreases i - from,
{
    if from < i {
        law_the_first_fault_is_reported(from + 1, to, fault, i);
    }
}

/// A name that is not known is answered with the known one that is nearest, where one is
/// near; what is said before it stays.
pub proof fn law_a_near_name_is_suggested(start: Seq<char>, name: Seq<char>, known: Seq<Seq<char>>, near: Seq<char>)
    ensures
        start.is_prefix_of(with_hint(start, name, known)),
        closest(name, known) == Some(near) ==> crate::text::contains_text(with_hint(start, name, known), debug_quoted(near)),
        closest(name, known) is None ==> with_hint(start, name, known) == start,
{
    let s = with_hint(start, name, known);
    assert(s.subrange(0, start.len() as int) =~= start);
    if closest(name, known) == Some(near) {
        let before = start + ". Did you mean "@;
        let q = debug_quoted(near);
        assert(s.subrange(before.len() as int, before.len() as int + q.len()) =~= q);
        assert(crate::text::occurs_at(s, q, before.len() as int));
    }
}

} // verus!
