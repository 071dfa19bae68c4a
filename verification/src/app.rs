//! What a request comes to.
//!
//! Everything funnels through one path, whether it arrived over HTTP or was invoked
//! in-process by an agent: there is no second place where an authorization check could
//! be forgotten.

use crate::auth::{Principal, PrincipalKind, PrincipalView, delegate_view, denied_of};
use crate::audit::{AuditEvent, EventView};
use crate::http::{
    AskView, PylonRequest, PylonResponse, ResponseView, add_header, body_json, body_value, error_response,
    header_texts, json_response, table_to_json, text_map, texts_object,
};
use crate::json::{Json, JsonView, Members, is_plain, json_text, text_array, texts_to_json, views};
use crate::manifest::{
    AgentDef, BehaviourDef, FlowDef, Manifest, Op, PageData, QueryReturns, Route, Upstream, agent_named,
    behaviour_named, flow_named, route_of, tool_id,
};
use crate::percent::{
    clean, decoded, decoded_from, escapes_all, hex_pair, law_decoding_undoes_escaping, percent_decode_twice, same_ascii,
};
use crate::provider::{as_text, maybe_str};
use crate::router::{MatchError, Router, allowed_on, finds, param_map};
use crate::run::{RunResult, RunStatus, result_json};
use crate::runtime::RunOptions;
use crate::table::{Table, pairs_map};
use crate::text::{
    cat2, cat3, cat4, cat5, cat6, contains_text, debug_quoted, decimal, decimal_text, decode_lossy, holds_bytes, join,
    joined, lossy_text, only, ordered, quoted, same, sorted_unique, split, split_on, strip_prefix, strip_suffix, texts,
    trim_end_by, trim_end_char, trim_start_by, trim_start_char,
};
use vstd::prelude::*;
use vstd::string::*;
use vstd::utf8::{encode_utf8, is_ascii_chars};

verus! {

/// All scopes a route demands, from either declaration site, in alphabetical order.
pub open spec fn demanded(r: Route) -> Seq<Seq<char>> {
    ordered((texts(r.scopes@) + texts(r.tool.scopes@)).to_set())
}

/// All scopes a route demands, from either declaration site, in alphabetical order.
pub fn required_scopes(route: &Route) -> (r: Vec<String>)
    ensures
        texts(r@) == demanded(*route),
{
    let mut all = crate::text::copy_texts(&route.scopes);
    let mut more = crate::text::copy_texts(&route.tool.scopes);
    assert(texts(all@ + more@) =~= texts(route.scopes@) + texts(route.tool.scopes@));
    all.append(&mut more);
    sorted_unique(&all)
}

/// What a request is answered whose route demands scopes that its principal lacks: 401
/// when nobody is authenticated, which the client can fix by logging in; 403 when a
/// known principal simply lacks the scope.
pub open spec fn scope_refusal(r: Route, p: PrincipalView) -> Option<ResponseView> {
    let missing = denied_of(demanded(r), p.scopes);
    if missing.len() == 0 {
        None
    } else {
        Some(
            error_response(
                if p.kind == PrincipalKind::Anonymous {
                    401
                } else {
                    403
                },
                "missing required scope(s): "@ + joined(missing, ", "@),
            ),
        )
    }
}

fn refuse_scopes(route: &Route, principal: &Principal) -> (r: Option<PylonResponse>)
    ensures
        match r {
            Some(res) => scope_refusal(*route, principal@) == Some(res@),
            None => scope_refusal(*route, principal@) is None,
        },
{
    let required = required_scopes(route);
    let missing = principal.missing_scopes(&required);
    assert(texts(missing@).len() == missing@.len());
    if missing.len() == 0 {
        return None;
    }
    let status: u16 = if principal.is_anonymous() {
        401
    } else {
        403
    };
    let message = cat2("missing required scope(s): ", join(&missing, ", ").as_str());
    Some(PylonResponse::error(status, message.as_str()))
}

/// A response with a header added.
pub open spec fn with_header(r: ResponseView, name: Seq<char>, value: Seq<char>) -> ResponseView {
    ResponseView { headers: r.headers.push((name, value)), ..r }
}

/// What a request that no route serves is answered.
pub open spec fn unmatched(e: MatchError, method: Seq<char>, path: Seq<char>, allowed: Seq<Seq<char>>) -> ResponseView {
    match e {
        MatchError::NotFound => error_response(404, "no route for "@ + method + " "@ + path),
        MatchError::MethodNotAllowed => with_header(
            error_response(
                405,
                method + " not allowed on "@ + path + "; try: "@ + joined(allowed, ", "@),
            ),
            "allow"@,
            joined(allowed, ", "@),
        ),
    }
}

/// What lets a request in: its route, and the parameters of its path; or what it is
/// answered instead.
pub open spec fn admission(
    router: Router,
    routes: Seq<Route>,
    ask: AskView,
) -> Result<(Route, AskView), ResponseView> {
    match finds(router.methods(), router.all(), ask.method, ask.path) {
        Err(e) => Err(unmatched(e, ask.method, ask.path, allowed_on(router.methods(), ask.path))),
        Ok(hit) => match route_of(routes, hit.0) {
            None => Err(error_response(500, "router matched an unknown route id"@)),
            Some(r) => match scope_refusal(r, ask.principal) {
                Some(res) => Err(res),
                None => Ok(
                    (r, AskView { path_params: param_map(hit.1), route_id: Some(hit.0), ..ask }),
                ),
            },
        },
    }
}

/// Finds the route of a request, and lets the request in or answers it.
pub fn accept<'a>(router: &Router, manifest: &'a Manifest, req: &mut PylonRequest) -> (r: Result<
    &'a Route,
    PylonResponse,
>)
    ensures
        match (r, admission(*router, manifest.routes@, old(req)@)) {
            (Ok(route), Ok(a)) => *route == a.0 && final(req)@ == a.1,
            (Err(res), Err(e)) => res@ == e,
            _ => false,
        },
{
    let ghost was = req@;
    let matched = match router.find(req.method.as_str(), req.path.as_str()) {
        Ok(m) => m,
        Err(e) => {
            return match e {
                MatchError::NotFound => Err(
                    PylonResponse::error(
                        404,
                        cat4("no route for ", req.method.as_str(), " ", req.path.as_str()).as_str(),
                    ),
                ),
                MatchError::MethodNotAllowed => {
                    let allowed = join(&router.allowed_methods(req.path.as_str()), ", ");
                    let mut res = PylonResponse::error(
                        405,
                        cat5(
                            req.method.as_str(),
                            " not allowed on ",
                            req.path.as_str(),
                            "; try: ",
                            allowed.as_str(),
                        ).as_str(),
                    );
                    add_header(&mut res.headers, "allow", allowed.as_str());
                    Err(res)
                },
            };
        },
    };
    req.path_params = matched.path_params;
    req.route_id = Some(matched.route_id);
    match manifest.route(matched.route_id) {
        None => Err(PylonResponse::error(500, "router matched an unknown route id")),
        Some(route) => match refuse_scopes(route, &req.principal) {
            Some(res) => Err(res),
            None => Ok(route),
        },
    }
}

/// A route demands what it declares, at either site, and nothing else: each scope once, in
/// alphabetical order.
pub proof fn law_a_route_demands_what_it_declares(r: Route)
    ensures
        crate::text::alphabetical(demanded(r)),
        forall|s: Seq<char>| #[trigger]
            demanded(r).contains(s) <==> texts(r.scopes@).contains(s) || texts(r.tool.scopes@).contains(s),
{
    let declared = texts(r.scopes@) + texts(r.tool.scopes@);
    vstd::seq_lib::seq_to_set_is_finite(declared);
    crate::text::law_ordered_lists_the_set(declared.to_set());
    assert forall|s: Seq<char>| #[trigger]
        demanded(r).contains(s) <==> texts(r.scopes@).contains(s) || texts(r.tool.scopes@).contains(s) by {
        assert(demanded(r).to_set().contains(s) <==> declared.to_set().contains(s));
        if texts(r.scopes@).contains(s) {
            let k = choose|k: int| 0 <= k < texts(r.scopes@).len() && texts(r.scopes@)[k] == s;
            assert(declared[k] == s);
        }
        if texts(r.tool.scopes@).contains(s) {
            let k = choose|k: int| 0 <= k < texts(r.tool.scopes@).len() && texts(r.tool.scopes@)[k] == s;
            assert(declared[texts(r.scopes@).len() + k] == s);
        }
    }
}

/// A caller that is refused for its scopes is told 401 exactly when it is anonymous, and
/// 403 otherwise; and it is refused exactly when it lacks a scope that the route demands.
pub proof fn law_refusals_tell_login_from_lack(r: Route, p: PrincipalView)
    ensures
        scope_refusal(r, p) is None <==> forall|s: Seq<char>| #[trigger]
            demanded(r).contains(s) ==> crate::auth::grants(p.scopes, s),
        scope_refusal(r, p) matches Some(res) ==> res.status == (if p.kind == PrincipalKind::Anonymous {
            401u16
        } else {
            403u16
        }),
{
    let wanted = demanded(r);
    let lacks = |s: Seq<char>| !crate::auth::grants(p.scopes, s);
    if denied_of(wanted, p.scopes).len() == 0 {
        assert forall|s: Seq<char>| #[trigger] wanted.contains(s) implies crate::auth::grants(p.scopes, s) by {
            if lacks(s) {
                let i = choose|i: int| 0 <= i < wanted.len() && wanted[i] == s;
                wanted.lemma_filter_contains(lacks, i);
                assert(wanted.filter(lacks).contains(s));
            }
        }
    } else {
        let got = wanted.filter(lacks);
        assert(got == denied_of(wanted, p.scopes));
        wanted.lemma_filter_pred(lacks, 0);
        assert(got.contains(got[0]));
        wanted.lemma_filter_contains_rev(lacks, got[0]);
        assert(wanted.contains(got[0]) && !crate::auth::grants(p.scopes, got[0]));
    }
}

/// A refusal of an invocation nested too deep.
pub open spec fn too_deep(depth: u32, max: u32) -> Option<ResponseView> {
    if depth < max {
        None
    } else {
        Some(
            error_response(
                508,
                "invocation nested "@ + decimal(depth as nat) + " deep, exceeding the ceiling of "@ + decimal(
                    max as nat,
                ) + "; a behaviour or agent is calling itself"@,
            ),
        )
    }
}

/// Refuse an invocation nested deeper than the configured ceiling: 508 Loop Detected
/// says precisely what happened.
pub fn depth_exceeded(depth: u32, max: u32) -> (r: Option<PylonResponse>)
    ensures
        match r {
            Some(res) => too_deep(depth, max) == Some(res@),
            None => too_deep(depth, max) is None,
        },
{
    if depth < max {
        return None;
    }
    let message = cat5(
        "invocation nested ",
        decimal_text(depth as u64).as_str(),
        " deep, exceeding the ceiling of ",
        decimal_text(max as u64).as_str(),
        "; a behaviour or agent is calling itself",
    );
    Some(PylonResponse::error(508, message.as_str()))
}

/// What a query's parameters are bound to.
pub open spec fn request_bindings(req: PylonRequest, params: Seq<Seq<char>>) -> Seq<JsonView> {
    params.map_values(
        |n: Seq<char>|
            match req.argument(n) {
                Some(v) => v,
                None => JsonView::Null,
            },
    )
}

/// What a query's parameters are bound to.
pub fn bind(req: &PylonRequest, params: &Vec<String>) -> (r: Vec<Json>)
    ensures
        views(r@) == request_bindings(*req, texts(params@)),
{
    let mut out: Vec<Json> = Vec::new();
    let mut i: usize = 0;
    while i < params.len()
        invariant
            i <= params@.len(),
            out@.len() == i,
            forall|k: int|
                0 <= k < i ==> (#[trigger] out@[k])@ == (match req.argument(params@[k]@) {
                    Some(v) => v,
                    None => JsonView::Null,
                }),
        decreases params.len() - i,
    {
        out.push(
            match req.lookup(params[i].as_str()) {
                Some(v) => v,
                None => Json::Null,
            },
        );
        i = i + 1;
    }
    assert(views(out@) =~= request_bindings(*req, texts(params@)));
    out
}

/// What a query's outcome is answered: a row that is not there is 404.
pub open spec fn query_response(value: JsonView, shape: QueryReturns) -> ResponseView {
    if value == JsonView::Null && shape == QueryReturns::One {
        error_response(404, "not found"@)
    } else {
        json_response(200, value)
    }
}

/// What a query's rows are answered.
pub fn answer_query(value: &Json, shape: QueryReturns) -> (r: PylonResponse)
    ensures
        r@ == query_response(value@, shape),
{
    if value.is_null() && shape == QueryReturns::One {
        return PylonResponse::error(404, "not found");
    }
    PylonResponse::json(200, value)
}

/// The status of an agent run over HTTP: 202 while a human is being waited on, 502 when
/// the model side failed, 200 otherwise (including limits, which are outcomes rather
/// than errors).
pub open spec fn run_status_code(status: RunStatus) -> u16 {
    match status {
        RunStatus::Failed => 502,
        RunStatus::AwaitingApproval => 202,
        _ => 200,
    }
}

/// What an agent run is answered.
pub fn run_result_response(result: &RunResult) -> (r: PylonResponse)
    ensures
        r@ == json_response(run_status_code(result.status), result_json(result@)),
{
    let status: u16 = match result.status {
        RunStatus::Failed => 502,
        RunStatus::AwaitingApproval => 202,
        _ => 200,
    };
    PylonResponse::json(status, &result.to_json())
}

/// What an agent is invoked with.
#[derive(Debug)]
pub struct AgentCall {
    pub input: String,
    pub opts: RunOptions,
}

/// A text argument of a request.
pub open spec fn text_argument(req: PylonRequest, name: Seq<char>) -> Option<Seq<char>> {
    match req.argument(name) {
        Some(JsonView::Str(s)) => Some(s),
        _ => None,
    }
}

/// What a request invokes an agent with, or what it is answered.
pub fn agent_call(req: &PylonRequest) -> (r: Result<AgentCall, PylonResponse>)
    ensures
        match text_argument(*req, "input"@) {
            Some(input) => {
                &&& r matches Ok(c)
                &&& c.input@ == input
                &&& crate::run::maybe_text(c.opts.session_id) == (match text_argument(*req, "session_id"@) {
                    Some(s) => if s.len() == 0 {
                        None
                    } else {
                        Some(s)
                    },
                    None => None,
                })
                &&& c.opts.depth == req.depth
                &&& c.opts.reset_session == (req.argument("reset"@) == Some(JsonView::Bool(true)))
            },
            None => r matches Err(res) && res@ == error_response(
                400,
                "agent invocation requires an 'input' string"@,
            ),
        },
{
    let input = match req.lookup("input") {
        Some(Json::Str(s)) => s,
        _ => {
            return Err(PylonResponse::error(400, "agent invocation requires an 'input' string"));
        },
    };
    let session_id = match req.lookup("session_id") {
        Some(Json::Str(s)) => if s.as_str().is_empty() {
            None
        } else {
            Some(s)
        },
        _ => None,
    };
    let reset_session = match req.lookup("reset") {
        Some(Json::Bool(b)) => b,
        _ => false,
    };
    Ok(AgentCall { input, opts: RunOptions { depth: req.depth, session_id, reset_session } })
}

/// The body of a request, `null` where it is not JSON.
pub open spec fn body_or_null(body: Seq<u8>) -> JsonView {
    match body_json(body) {
        Some(j) => j,
        None => JsonView::Null,
    }
}

/// Whether a text could alter the structure of a URL path it is spliced into.
pub open spec fn is_structural(s: Seq<char>) -> bool {
    contains_text(s, ".."@) || s.contains('/') || s.contains('\\') || s.contains('\0')
}

/// Whether bytes hold, at a place, a slash, a backslash, a NUL or the first of two dots.
pub open spec fn structural_at(b: Seq<u8>, i: int) -> bool {
    0 <= i < b.len() && (b[i] == 47 || b[i] == 92 || b[i] == 0 || (b[i] == 46 && i + 1 < b.len() && b[i + 1] == 46))
}

/// Whether bytes could alter the structure of a URL path.
pub open spec fn is_structural_bytes(b: Seq<u8>) -> bool {
    exists|i: int| #[trigger] structural_at(b, i)
}

/// The bytes that a text stands for once it is percent-decoded twice.
pub open spec fn twice_decoded(value: Seq<char>) -> Seq<u8> {
    decoded_from(encode_utf8(decoded(value, false)), 0, false)
}

/// Whether a path parameter climbs out of its segment: as it stands, or percent-decoded
/// twice.
pub open spec fn traverses(value: Seq<char>) -> bool {
    is_structural(value) || is_structural_bytes(twice_decoded(value))
}

/// Whether a path parameter can be decoded twice.
pub open spec fn decodable(value: Seq<char>) -> bool {
    clean(value) && clean(decoded(value, false))
}

fn has_char(text: &str, c: char) -> (r: bool)
    ensures
        r == text@.contains(c),
{
    let chars = crate::text::chars_of(text);
    let mut i: usize = 0;
    while i < chars.len()
        invariant
            i <= chars@.len(),
            chars@ == text@,
            forall|j: int| 0 <= j < i ==> text@[j] != c,
        decreases chars.len() - i,
    {
        if chars[i] == c {
            assert(text@[i as int] == c);
            return true;
        }
        i = i + 1;
    }
    false
}

fn structural(s: &str) -> (r: bool)
    ensures
        r == is_structural(s@),
{
    crate::text::contains(s, "..") || has_char(s, '/') || has_char(s, '\\') || has_char(s, '\0')
}

proof fn lemma_one_char(s: Seq<char>, b: Seq<u8>, c: char)
    requires
        same_ascii(s, b),
        '\0' <= c <= '\u{7f}',
    ensures
        s.contains(c) == b.contains(c as u8),
{
    let m = seq![c];
    vstd::utf8::is_ascii_chars_encode_utf8(m);
    assert(encode_utf8(m) =~= seq![c as u8]) by {
        assert(m[0] as u8 == encode_utf8(m)[0]);
    }
    if s.contains(c) {
        let i = choose|i: int| 0 <= i < s.len() && s[i] == c;
        assert(s.subrange(i, i + 1) =~= m);
        assert(crate::text::occurs_at(s, m, i));
        assert(contains_text(s, m));
        let at = choose|at: int|
            0 <= at <= b.len() - encode_utf8(m).len() && #[trigger] b.subrange(at, at + encode_utf8(m).len())
                == encode_utf8(m);
        assert(b[at] == b.subrange(at, at + 1)[0]);
    }
    if b.contains(c as u8) {
        let i = choose|i: int| 0 <= i < b.len() && b[i] == c as u8;
        assert(b.subrange(i, i + 1) =~= encode_utf8(m));
        assert(holds_bytes(b, encode_utf8(m)));
        assert(contains_text(s, m));
        let at = choose|at: int| crate::text::occurs_at(s, m, at);
        assert(s[at] == s.subrange(at, at + 1)[0]);
    }
}

/// What alters a path is ASCII, so a text and the bytes that it was made from agree on it.
proof fn lemma_structural(s: Seq<char>, b: Seq<u8>)
    requires
        same_ascii(s, b),
    ensures
        is_structural(s) == is_structural_bytes(b),
{
    lemma_one_char(s, b, '/');
    lemma_one_char(s, b, '\\');
    lemma_one_char(s, b, '\0');
    reveal_strlit("..");
    let m = ".."@;
    assert(is_ascii_chars(m));
    vstd::utf8::is_ascii_chars_encode_utf8(m);
    assert(m[0] as u8 == encode_utf8(m)[0] && m[1] as u8 == encode_utf8(m)[1]);
    assert(encode_utf8(m) =~= seq![46u8, 46u8]);
    assert(contains_text(s, m) == holds_bytes(b, encode_utf8(m)));
    if holds_bytes(b, encode_utf8(m)) {
        let at = choose|at: int|
            0 <= at <= b.len() - encode_utf8(m).len() && #[trigger] b.subrange(at, at + encode_utf8(m).len())
                == encode_utf8(m);
        assert(b.subrange(at, at + 2)[0] == b[at] && b.subrange(at, at + 2)[1] == b[at + 1]);
        assert(structural_at(b, at));
    }
    assert forall|c: u8| b.contains(c) && (c == 47 || c == 92 || c == 0) implies is_structural_bytes(b) by {
        let i = choose|i: int| 0 <= i < b.len() && b[i] == c;
        assert(structural_at(b, i));
    }
    if is_structural_bytes(b) {
        let i = choose|i: int| #[trigger] structural_at(b, i);
        if b[i] == 46 {
            assert(b.subrange(i, i + 2) =~= encode_utf8(m));
        } else {
            assert(b.contains(b[i]));
        }
    }
}

/// Decoding never takes a step up, a separator or a NUL away: none of them is part of an
/// escape.
proof fn lemma_decoding_keeps_structure(b: Seq<u8>, i: int, k: int)
    requires
        structural_at(b, k),
        0 <= i <= k,
    ensures
        is_structural_bytes(decoded_from(b, i, false)),
        b[k] == 46 && i == k ==> decoded_from(b, i, false).len() > 1 && decoded_from(b, i, false)[0] == 46
            && decoded_from(b, i, false)[1] == 46,
    decreases k - i,
{
    let out = decoded_from(b, i, false);
    if b[i] == 37 && i + 2 < b.len() && hex_pair(b[i + 1], b[i + 2]) is Some {
        let rest = decoded_from(b, i + 3, false);
        assert(k >= i + 3);
        lemma_decoding_keeps_structure(b, i + 3, k);
        let j = choose|j: int| #[trigger] structural_at(rest, j);
        assert(out =~= seq![hex_pair(b[i + 1], b[i + 2])->0] + rest);
        assert(structural_at(out, j + 1));
    } else {
        let rest = decoded_from(b, i + 1, false);
        assert(out =~= seq![b[i]] + rest);
        if i == k {
            if b[k] == 46 {
                assert(decoded_from(b, i + 1, false) =~= seq![46u8] + decoded_from(b, i + 2, false));
            }
            assert(structural_at(out, 0));
        } else {
            lemma_decoding_keeps_structure(b, i + 1, k);
            let j = choose|j: int| #[trigger] structural_at(rest, j);
            assert(structural_at(out, j + 1));
        }
    }
}

proof fn lemma_structural_ascii(v: Seq<char>)
    requires
        is_ascii_chars(v),
    ensures
        is_structural(v) == is_structural_bytes(encode_utf8(v)),
{
    let b = encode_utf8(v);
    vstd::utf8::is_ascii_chars_encode_utf8(v);
    reveal_strlit("..");
    if is_structural(v) {
        if contains_text(v, ".."@) {
            let at = choose|at: int| crate::text::occurs_at(v, ".."@, at);
            assert(v.subrange(at, at + 2)[0] == v[at] && v.subrange(at, at + 2)[1] == v[at + 1]);
            assert(structural_at(b, at));
        } else {
            let i = choose|i: int| 0 <= i < v.len() && (v[i] == '/' || v[i] == '\\' || v[i] == '\0');
            assert(structural_at(b, i));
        }
    }
    if is_structural_bytes(b) {
        let i = choose|i: int| #[trigger] structural_at(b, i);
        assert(v[i] as u8 == b[i]);
        if b[i] == 46 {
            assert(v[i + 1] as u8 == b[i + 1]);
            assert(v.subrange(i, i + 2) =~= ".."@);
            assert(crate::text::occurs_at(v, ".."@, i));
        } else {
            assert(v.contains(v[i]));
        }
    }
}

/// A text in escapes alone has nothing in it that alters a path.
proof fn lemma_escapes_are_plain(t: Seq<char>, v: Seq<char>)
    requires
        escapes_all(t, v),
    ensures
        !is_structural(t),
{
    reveal_strlit("..");
    assert forall|j: int| 0 <= j < t.len() implies (#[trigger] t[j]) == '%' || crate::percent::hex_digit(t[j] as u8)
        is Some by {
        let i = j / 3;
        assert(0 <= i < v.len());
        assert(crate::percent::escape_of(t[3 * i + 1], t[3 * i + 2]) == Some(v[i] as u8));
        assert(j == 3 * i || j == 3 * i + 1 || j == 3 * i + 2);
    }
    if contains_text(t, ".."@) {
        let at = choose|at: int| crate::text::occurs_at(t, ".."@, at);
        assert(t.subrange(at, at + 2)[0] == t[at]);
    }
}

/// A value that climbs out of its segment is seen through two encodings: as it stands,
/// written in escapes, and with those escaped in turn. Both encodings can be decoded.
pub proof fn law_an_encoded_traversal_is_seen(v: Seq<char>, once: Seq<char>, twice: Seq<char>)
    requires
        is_ascii_chars(v),
        is_structural(v),
        escapes_all(once, v),
        escapes_all(twice, once),
    ensures
        traverses(v),
        traverses(once) && decodable(once),
        traverses(twice) && decodable(twice),
{
    law_decoding_undoes_escaping(once, v);
    law_decoding_undoes_escaping(twice, once);
    crate::percent::lemma_ascii_is_clean(v);
    lemma_structural_ascii(v);
    let k = choose|k: int| #[trigger] structural_at(encode_utf8(v), k);
    lemma_decoding_keeps_structure(encode_utf8(v), 0, k);
}

/// Whether a character is a letter, a digit, a hyphen, an underscore or a dot.
pub open spec fn is_harmless(c: char) -> bool {
    ('a' <= c <= 'z') || ('A' <= c <= 'Z') || ('0' <= c <= '9') || c == '-' || c == '_' || c == '.'
}

proof fn lemma_nothing_to_decode(b: Seq<u8>, i: int)
    requires
        0 <= i <= b.len(),
        forall|j: int| 0 <= j < b.len() ==> #[trigger] b[j] != 37,
    ensures
        decoded_from(b, i, false) == b.skip(i),
    decreases b.len() - i,
{
    if i < b.len() {
        lemma_nothing_to_decode(b, i + 1);
        assert(b.skip(i) =~= seq![b[i]] + b.skip(i + 1));
    } else {
        assert(b.skip(i) =~= Seq::empty());
    }
}

/// An ordinary name is let through, in either encoding too: letters, digits, hyphens,
/// underscores, and dots of which no two touch.
pub proof fn law_an_ordinary_name_is_let_through(v: Seq<char>, once: Seq<char>, twice: Seq<char>)
    requires
        forall|i: int| 0 <= i < v.len() ==> is_harmless(#[trigger] v[i]),
        !contains_text(v, ".."@),
        escapes_all(once, v),
        escapes_all(twice, once),
    ensures
        !traverses(v) && decodable(v),
        !traverses(once) && decodable(once),
        !traverses(twice) && decodable(twice),
{
    assert(is_ascii_chars(v));
    let b = encode_utf8(v);
    vstd::utf8::is_ascii_chars_encode_utf8(v);
    assert forall|j: int| 0 <= j < b.len() implies #[trigger] b[j] != 37 by {
        assert(is_harmless(v[j]));
        assert(b[j] == v[j] as u8);
    }
    lemma_nothing_to_decode(b, 0);
    assert(b.skip(0) =~= b);
    vstd::utf8::encode_utf8_valid_utf8(v);
    vstd::utf8::encode_utf8_decode_utf8(v);
    assert(decoded(v, false) == v);
    law_decoding_undoes_escaping(once, v);
    law_decoding_undoes_escaping(twice, once);
    crate::percent::lemma_ascii_is_clean(v);
    lemma_structural_ascii(v);
    assert forall|c: char| v.contains(c) implies is_harmless(c) by {
        let i = choose|i: int| 0 <= i < v.len() && v[i] == c;
        assert(is_harmless(v[i]));
    }
    lemma_escapes_are_plain(once, v);
    lemma_escapes_are_plain(twice, once);
}

/// Whether a path parameter climbs out of its segment; nothing where it cannot be
/// decoded.
pub fn is_traversal(value: &str) -> (r: Option<bool>)
    ensures
        r == (if decodable(value@) {
            Some(traverses(value@))
        } else {
            None
        }),
{
    match percent_decode_twice(value) {
        Some(twice) => {
            proof {
                lemma_structural(twice@, twice_decoded(value@));
            }
            Some(structural(value) || structural(twice.as_str()))
        },
        None => None,
    }
}

/// What a segment of a path template becomes.
pub open spec fn segment_part(segment: Seq<char>, params: Map<Seq<char>, Seq<char>>) -> Seq<char> {
    match crate::manifest::braced(segment) {
        Some(name) => {
            let n = trim_start_by(name, only('*'));
            if params.contains_key(n) {
                params[n]
            } else {
                Seq::empty()
            }
        },
        None => segment,
    }
}

/// What the segments of a path template become.
pub open spec fn segment_parts(segments: Seq<Seq<char>>, params: Map<Seq<char>, Seq<char>>) -> Seq<char>
    decreases segments.len(),
{
    if segments.len() == 0 {
        Seq::empty()
    } else {
        let before = segment_parts(segments.drop_last(), params);
        if segments.last().len() == 0 {
            before
        } else {
            before + "/"@ + segment_part(segments.last(), params)
        }
    }
}

/// A path template with its parameters put in.
pub open spec fn substituted(template: Seq<char>, params: Map<Seq<char>, Seq<char>>) -> Seq<char> {
    let parts = segment_parts(split_on(template, '/'), params);
    if parts.len() == 0 {
        "/"@
    } else {
        parts
    }
}

fn brace_name(segment: &str) -> (r: Option<String>)
    ensures
        crate::run::maybe_text(r) == crate::manifest::braced(segment@),
{
    match strip_prefix(segment, "{") {
        Some(rest) => strip_suffix(rest.as_str(), "}"),
        None => None,
    }
}

/// A path template with its parameters put in.
pub fn substitute_path(template: &str, params: &Table<String>) -> (r: String)
    ensures
        r@ == substituted(template@, text_map(params@)),
{
    let segments = split(template, '/');
    let ghost all = split_on(template@, '/');
    let ghost map = text_map(params@);
    let mut out = String::new();
    let mut i: usize = 0;
    assert(out@ =~= segment_parts(all.take(0), map));
    while i < segments.len()
        invariant
            i <= segments@.len(),
            all == texts(segments@),
            map == text_map(params@),
            out@ == segment_parts(all.take(i as int), map),
        decreases segments.len() - i,
    {
        proof {
            assert(all.take(i + 1).drop_last() =~= all.take(i as int));
            assert(all.take(i + 1).last() == segments@[i as int]@);
        }
        let segment = segments[i].as_str();
        if !segment.is_empty() {
            let part = match brace_name(segment) {
                Some(name) => {
                    let n = trim_start_char(name.as_str(), '*');
                    match params.get(n.as_str()) {
                        Some(v) => v.clone(),
                        None => String::new(),
                    }
                },
                None => segment.to_owned(),
            };
            assert(part@ =~= segment_part(segment@, map));
            out = cat3(out.as_str(), "/", part.as_str());
        }
        i = i + 1;
    }
    assert(all.take(all.len() as int) =~= all);
    if out.as_str().is_empty() {
        return "/".to_owned();
    }
    out
}

/// A request to send to an upstream.
#[derive(Debug)]
pub struct UpstreamCall {
    pub method: String,
    pub url: String,
    pub timeout_ms: u64,
    pub headers: Vec<(String, String)>,
    pub query: Vec<(String, String)>,
    pub body: Vec<u8>,
}

/// The texts that the pairs of a table hold.
pub open spec fn pair_texts(pairs: Seq<(Seq<char>, String)>) -> Seq<(Seq<char>, Seq<char>)> {
    pairs.map_values(|p: (Seq<char>, String)| (p.0, p.1@))
}

/// A header of a request, where it is there.
pub open spec fn forwarded(headers: Map<Seq<char>, Seq<char>>, name: Seq<char>) -> Seq<(Seq<char>, Seq<char>)> {
    if headers.contains_key(name) {
        seq![(name, headers[name])]
    } else {
        Seq::empty()
    }
}

/// The headers that an upstream is sent: those that are declared, the credentials of the
/// application, and content negotiation. Never the caller's own credentials.
pub open spec fn upstream_headers(
    up: Upstream,
    token: Option<Seq<char>>,
    headers: Map<Seq<char>, Seq<char>>,
) -> Seq<(Seq<char>, Seq<char>)> {
    let own = pair_texts(up.headers.pairs());
    let signed = match token {
        Some(t) => own.push(("authorization"@, "Bearer "@ + t)),
        None => own,
    };
    signed + forwarded(headers, "content-type"@) + forwarded(headers, "accept"@)
}

/// Whether some parameter climbs out of its segment.
pub open spec fn any_traverses(params: Map<Seq<char>, Seq<char>>) -> bool {
    exists|k: Seq<char>| #[trigger] params.contains_key(k) && traverses(params[k])
}

/// Whether all parameters can be decoded.
pub open spec fn all_decodable(params: Map<Seq<char>, Seq<char>>) -> bool {
    forall|k: Seq<char>| #[trigger] params.contains_key(k) ==> decodable(params[k])
}

/// Whether a path has a segment that is `.` or `..`.
pub open spec fn has_dots(path: Seq<char>) -> bool {
    exists|i: int|
        0 <= i < split_on(path, '/').len() && (#[trigger] split_on(path, '/')[i] == ".."@ || split_on(path, '/')[i]
            == "."@)
}

/// Where a request is forwarded to, below the upstream.
pub open spec fn upstream_tail(rewrite: Option<Seq<char>>, ask: AskView) -> Seq<char> {
    match rewrite {
        Some(t) => substituted(t, ask.path_params),
        None => ask.path,
    }
}

/// The texts of a table's pairs, in order.
fn list_pairs(t: &Table<String>) -> (r: Vec<(String, String)>)
    ensures
        header_texts(r@) == pair_texts(t.pairs()),
{
    let mut out: Vec<(String, String)> = Vec::new();
    let n: usize = t.len();
    let mut i: usize = 0;
    while i < n
        invariant
            i <= n == t.pairs().len(),
            out@.len() == i,
            forall|k: int|
                0 <= k < i ==> (#[trigger] out@[k]).0@ == t.pairs()[k].0 && out@[k].1@ == t.pairs()[k].1@,
        decreases n - i,
    {
        out.push((t.key_at(i).to_owned(), t.value_at(i).clone()));
        i = i + 1;
    }
    assert(header_texts(out@) =~= pair_texts(t.pairs()));
    out
}

/// Whether all parameters can be decoded.
pub fn params_decodable(params: &Table<String>) -> (r: bool)
    ensures
        r == all_decodable(text_map(params@)),
{
    let n: usize = params.len();
    let ghost pairs = params.pairs();
    proof {
        crate::table::lemma_table_pairs(pairs);
    }
    let mut i: usize = 0;
    while i < n
        invariant
            i <= n == pairs.len(),
            pairs == params.pairs(),
            params@ == pairs_map(pairs),
            forall|j: int| 0 <= j < i ==> decodable((#[trigger] pairs[j]).1@),
            forall|j: int| 0 <= j < pairs.len() ==> pairs_map(pairs).contains_key((#[trigger] pairs[j]).0)
                && pairs_map(pairs)[pairs[j].0] == pairs[j].1,
        decreases n - i,
    {
        if is_traversal(params.value_at(i).as_str()).is_none() {
            assert(text_map(params@).contains_key(pairs[i as int].0));
            assert(!decodable(text_map(params@)[pairs[i as int].0]));
            return false;
        }
        i = i + 1;
    }
    proof {
        assert forall|k: Seq<char>| #[trigger] text_map(params@).contains_key(k) implies decodable(
            text_map(params@)[k],
        ) by {
            assert(pairs_map(pairs).contains_key(k));
            let j = choose|j: int| 0 <= j < pairs.len() && (#[trigger] pairs[j]).0 == k;
            assert(pairs_map(pairs)[pairs[j].0] == pairs[j].1);
        }
    }
    true
}

fn some_traverse(params: &Table<String>) -> (r: bool)
    requires
        all_decodable(text_map(params@)),
    ensures
        r == any_traverses(text_map(params@)),
{
    let n: usize = params.len();
    let ghost pairs = params.pairs();
    proof {
        crate::table::lemma_table_pairs(pairs);
    }
    let mut i: usize = 0;
    while i < n
        invariant
            i <= n == pairs.len(),
            pairs == params.pairs(),
            params@ == pairs_map(pairs),
            all_decodable(text_map(params@)),
            forall|j: int| 0 <= j < i ==> !traverses((#[trigger] pairs[j]).1@),
            forall|j: int| 0 <= j < pairs.len() ==> pairs_map(pairs).contains_key((#[trigger] pairs[j]).0)
                && pairs_map(pairs)[pairs[j].0] == pairs[j].1,
        decreases n - i,
    {
        proof {
            assert(text_map(params@).contains_key(pairs[i as int].0));
            assert(text_map(params@)[pairs[i as int].0] == pairs[i as int].1@);
        }
        match is_traversal(params.value_at(i).as_str()) {
            Some(b) => if b {
                assert(any_traverses(text_map(params@)));
                return true;
            },
            None => {},
        }
        i = i + 1;
    }
    proof {
        if any_traverses(text_map(params@)) {
            let k = choose|k: Seq<char>| #[trigger]
                text_map(params@).contains_key(k) && traverses(text_map(params@)[k]);
            assert(pairs_map(pairs).contains_key(k));
            let j = choose|j: int| 0 <= j < pairs.len() && (#[trigger] pairs[j]).0 == k;
            assert(pairs_map(pairs)[pairs[j].0] == pairs[j].1);
        }
    }
    false
}

fn dotted(path: &str) -> (r: bool)
    ensures
        r == has_dots(path@),
{
    let segments = split(path, '/');
    let ghost all = split_on(path@, '/');
    let mut i: usize = 0;
    while i < segments.len()
        invariant
            i <= segments@.len(),
            all == texts(segments@),
            all == split_on(path@, '/'),
            forall|j: int| 0 <= j < i ==> (#[trigger] all[j]) != ".."@ && all[j] != "."@,
        decreases segments.len() - i,
    {
        if same(segments[i].as_str(), "..") || same(segments[i].as_str(), ".") {
            assert(split_on(path@, '/')[i as int] == segments@[i as int]@);
            return true;
        }
        assert(all[i as int] == segments@[i as int]@);
        i = i + 1;
    }
    false
}

/// Forwards a request to an upstream: what is sent, or what the request is answered
/// instead. A path parameter is a single segment, so one that could alter the structure
/// of the path is refused, and so is a path that has a segment of dots.
pub fn proxy(
    manifest: &Manifest,
    upstream_name: &str,
    rewrite: Option<&str>,
    token: Option<&str>,
    req: &PylonRequest,
) -> (r: Result<Result<UpstreamCall, PylonResponse>, String>)
    requires
        all_decodable(req@.path_params),
    ensures
        if !manifest.upstreams@.contains_key(upstream_name@) {
            r matches Err(e) && e@ == "unknown upstream "@ + debug_quoted(upstream_name@)
        } else if any_traverses(req@.path_params) {
            r matches Ok(Err(res)) && res@ == error_response(400, "invalid path parameter"@)
        } else if has_dots(upstream_tail(maybe_str(rewrite), req@)) {
            r matches Ok(Err(res)) && res@ == error_response(400, "invalid upstream path"@)
        } else {
            let up = manifest.upstreams@[upstream_name@];
            &&& r matches Ok(Ok(call))
            &&& call.method@ == req@.method
            &&& call.url@ == trim_end_by(up.base_url@, only('/')) + upstream_tail(maybe_str(rewrite), req@)
            &&& call.timeout_ms == up.timeout_ms
            &&& header_texts(call.headers@) == upstream_headers(up, maybe_str(token), req@.headers)
            &&& header_texts(call.query@) == pair_texts(req.query.pairs())
            &&& call.body@ == req@.body
        },
{
    let up = match manifest.upstreams.get(upstream_name) {
        Some(u) => u,
        None => {
            return Err(cat2("unknown upstream ", quoted(upstream_name).as_str()));
        },
    };
    if some_traverse(&req.path_params) {
        return Ok(Err(PylonResponse::error(400, "invalid path parameter")));
    }
    let tail = match rewrite {
        Some(t) => substitute_path(t, &req.path_params),
        None => req.path.clone(),
    };
    if dotted(tail.as_str()) {
        return Ok(Err(PylonResponse::error(400, "invalid upstream path")));
    }
    let mut headers = list_pairs(&up.headers);
    if let Some(t) = token {
        add_header(&mut headers, "authorization", cat2("Bearer ", t).as_str());
    }
    let ghost signed = header_texts(headers@);
    let ghost given = req@.headers;
    if let Some(v) = req.headers.get("content-type") {
        add_header(&mut headers, "content-type", v.as_str());
    }
    assert(header_texts(headers@) =~= signed + forwarded(given, "content-type"@));
    let ghost typed = header_texts(headers@);
    if let Some(v) = req.headers.get("accept") {
        add_header(&mut headers, "accept", v.as_str());
    }
    assert(header_texts(headers@) =~= typed + forwarded(given, "accept"@));
    let body = req.body.clone();
    assert(body@ =~= req.body@);
    Ok(
        Ok(
            UpstreamCall {
                method: req.method.clone(),
                url: cat2(trim_end_char(up.base_url.as_str(), '/').as_str(), tail.as_str()),
                timeout_ms: up.timeout_ms,
                headers,
                query: list_pairs(&req.query),
                body,
            },
        ),
    )
}

/// What an upstream's answer is passed on as.
pub fn proxied(status: u16, content_type: Option<&str>, body: Vec<u8>) -> (r: PylonResponse)
    ensures
        r@ == (ResponseView {
            status,
            headers: seq![
                (
                    "content-type"@,
                    match content_type {
                        Some(t) => t@,
                        None => "application/json"@,
                    },
                ),
            ],
            body: body@,
        }),
{
    let kind = match content_type {
        Some(t) => t,
        None => "application/json",
    };
    PylonResponse { status, headers: crate::http::one_header("content-type", kind), body }
}

/// No part of a forwarded path that comes from a parameter can leave its segment: a
/// request that is forwarded has no parameter with a slash, a backslash or two dots in
/// it, whether as it stands or decoded twice, and its path has no segment of dots.
pub proof fn law_a_forwarded_path_stays_below_the_upstream(
    rewrite: Option<Seq<char>>,
    ask: AskView,
    name: Seq<char>,
)
    requires
        !any_traverses(ask.path_params),
        !has_dots(upstream_tail(rewrite, ask)),
        ask.path_params.contains_key(name),
    ensures
        !ask.path_params[name].contains('/'),
        !ask.path_params[name].contains('\\'),
        !contains_text(ask.path_params[name], ".."@),
        !is_structural_bytes(twice_decoded(ask.path_params[name])),
        !split_on(upstream_tail(rewrite, ask), '/').contains(".."@),
{
    assert(!traverses(ask.path_params[name]));
    let parts = split_on(upstream_tail(rewrite, ask), '/');
    if parts.contains(".."@) {
        let i = choose|i: int| 0 <= i < parts.len() && parts[i] == ".."@;
        assert(split_on(upstream_tail(rewrite, ask), '/')[i] == ".."@);
    }
}

/// What an upstream is sent of the caller's headers is content negotiation alone: two
/// callers who negotiate alike are forwarded alike, whatever credentials they present.
pub proof fn law_the_callers_credentials_stay_here(
    up: Upstream,
    token: Option<Seq<char>>,
    a: Map<Seq<char>, Seq<char>>,
    b: Map<Seq<char>, Seq<char>>,
)
    requires
        forwarded(a, "content-type"@) == forwarded(b, "content-type"@),
        forwarded(a, "accept"@) == forwarded(b, "accept"@),
    ensures
        upstream_headers(up, token, a) == upstream_headers(up, token, b),
{
}

/// The path parameters of a tool call: the arguments that the path of its route names.
pub open spec fn tool_params(segments: Seq<Seq<char>>, args: Map<Seq<char>, JsonView>) -> Map<Seq<char>, Seq<char>>
    decreases segments.len(),
{
    if segments.len() == 0 {
        Map::empty()
    } else {
        let before = tool_params(segments.drop_last(), args);
        match crate::manifest::braced(segments.last()) {
            Some(name) => if args.contains_key(name) {
                before.insert(name, as_text(args[name]))
            } else {
                before
            },
            None => before,
        }
    }
}

/// The query of a tool call: the arguments that are no path parameters.
pub open spec fn tool_query(
    args: Map<Seq<char>, JsonView>,
    params: Map<Seq<char>, Seq<char>>,
) -> Map<Seq<char>, Seq<char>> {
    Map::new(
        |k: Seq<char>| args.contains_key(k) && !params.contains_key(k),
        |k: Seq<char>| as_text(args[k]),
    )
}

/// Whether requests of a method carry no body.
pub open spec fn is_bodyless(method: Seq<char>) -> bool {
    method == "GET"@ || method == "DELETE"@
}

/// The members of a value, none where it is no object.
pub open spec fn members_of(v: JsonView) -> Map<Seq<char>, JsonView> {
    match v {
        JsonView::Object(m) => m,
        _ => Map::empty(),
    }
}

/// The request that a tool call is.
pub open spec fn tool_ask(route: Route, id: u32, args: JsonView, principal: PrincipalView, depth: u32) -> AskView {
    let given = members_of(args);
    let params = tool_params(split_on(route.path@, '/'), given);
    AskView {
        method: route.method@,
        path: substituted(route.path@, params),
        path_params: params,
        query: if is_bodyless(route.method@) {
            tool_query(given, params)
        } else {
            Map::empty()
        },
        headers: Map::empty(),
        body: if is_bodyless(route.method@) {
            Seq::empty()
        } else {
            encode_utf8(json_text(JsonView::Object(given)))
        },
        route_id: Some(id),
        principal,
        depth,
    }
}

fn print_json(v: &Json) -> (r: String)
    ensures
        r@ == as_text(v@),
{
    match v {
        Json::Str(s) => s.clone(),
        other => other.to_text(),
    }
}

fn find_params(path: &str, given: &Members) -> (r: Table<String>)
    ensures
        text_map(r@) == tool_params(split_on(path@, '/'), given@),
{
    let segments = split(path, '/');
    let ghost all = split_on(path@, '/');
    let mut out: Table<String> = Table::new();
    let mut i: usize = 0;
    assert(text_map(out@) =~= tool_params(all.take(0), given@));
    while i < segments.len()
        invariant
            i <= segments@.len(),
            all == texts(segments@),
            text_map(out@) == tool_params(all.take(i as int), given@),
        decreases segments.len() - i,
    {
        proof {
            assert(all.take(i + 1).drop_last() =~= all.take(i as int));
            assert(all.take(i + 1).last() == segments@[i as int]@);
        }
        if let Some(name) = brace_name(segments[i].as_str()) {
            if let Some(v) = given.get(name.as_str()) {
                let ghost was = out@;
                let text = print_json(v);
                out.insert(name.as_str(), text);
                assert(text_map(out@) =~= text_map(was).insert(name@, text@));
            }
        }
        i = i + 1;
    }
    assert(all.take(all.len() as int) =~= all);
    out
}

fn find_query(given: &Members, params: &Table<String>) -> (r: Table<String>)
    ensures
        text_map(r@) == tool_query(given@, text_map(params@)),
{
    let ghost taken = text_map(params@);
    let mut out: Table<String> = Table::new();
    let mut i: usize = 0;
    assert(text_map(out@) =~= tool_query(crate::json::members_view(given.list@, 0), taken));
    while i < given.list.len()
        invariant
            i <= given.list@.len(),
            taken == text_map(params@),
            text_map(out@) == tool_query(crate::json::members_view(given.list@, i as nat), taken),
        decreases given.list.len() - i,
    {
        let name = given.list[i].0.as_str();
        let ghost a = crate::json::members_view(given.list@, i as nat);
        let ghost b = crate::json::members_view(given.list@, (i + 1) as nat);
        assert(b == a.insert(name@, given.list@[i as int].1@));
        let ghost was = out@;
        if params.get(name).is_none() {
            let text = print_json(&given.list[i].1);
            out.insert(name, text);
            assert(text_map(out@) =~= text_map(was).insert(name@, text@));
        }
        assert(text_map(out@) =~= tool_query(b, taken));
        i = i + 1;
    }
    out
}

/// The depth of what is invoked from a depth.
pub open spec fn deeper(depth: u32) -> u32 {
    if depth == u32::MAX {
        depth
    } else {
        (depth + 1) as u32
    }
}

/// The depth of what is invoked from a depth.
pub fn one_deeper(depth: u32) -> (r: u32)
    ensures
        r == deeper(depth),
{
    depth.saturating_add(1)
}

/// The request that a call of a tool is, or why there is none.
pub open spec fn tool_call(
    routes: Seq<Route>,
    tool: Seq<char>,
    args: JsonView,
    principal: PrincipalView,
    depth: u32,
) -> Result<AskView, Seq<char>> {
    match tool_id(routes, tool) {
        None => Err("unknown tool "@ + debug_quoted(tool)),
        Some(id) => match route_of(routes, id) {
            None => Err("tool points at an unknown route"@),
            Some(route) => Ok(tool_ask(route, id, args, principal, depth)),
        },
    }
}

/// What a fallible request says.
pub open spec fn ask_outcome(r: Result<PylonRequest, String>) -> Result<AskView, Seq<char>> {
    match r {
        Ok(q) => Ok(q@),
        Err(e) => Err(e@),
    }
}

/// The request that a call of a tool is, on behalf of a principal and at a depth.
pub fn tool_request(
    manifest: &Manifest,
    tool_name: &str,
    args: &Json,
    principal: &Principal,
    depth: u32,
) -> (r: Result<PylonRequest, String>)
    ensures
        ask_outcome(r) == tool_call(manifest.routes@, tool_name@, args@, principal@, depth),
        r matches Ok(q) ==> !is_bodyless(q.method@) && is_plain(JsonView::Object(members_of(args@)), 127) ==> body_json(
            q.body@,
        ) == Some(JsonView::Object(members_of(args@))),
{
    let id: u32 = match manifest.tool(tool_name) {
        Some(id) => id,
        None => {
            return Err(cat2("unknown tool ", quoted(tool_name).as_str()));
        },
    };
    let route = match manifest.route(id) {
        Some(r) => r,
        None => {
            return Err("tool points at an unknown route".to_owned());
        },
    };
    let given = match args {
        Json::Object(m) => m.copy(),
        _ => Members::new(),
    };
    assert(given@ =~= members_of(args@));
    let path_params = find_params(route.path.as_str(), &given);
    let path = substitute_path(route.path.as_str(), &path_params);
    let bodyless = same(route.method.as_str(), "GET") || same(route.method.as_str(), "DELETE");
    let query = if bodyless {
        find_query(&given, &path_params)
    } else {
        Table::new()
    };
    let body: Vec<u8> = if bodyless {
        Vec::new()
    } else {
        Json::Object(given).to_text().as_str().as_bytes_vec()
    };
    let req = PylonRequest {
        method: route.method.clone(),
        path,
        path_params,
        query,
        headers: Table::new(),
        body,
        route_id: Some(id),
        principal: principal.copy(),
        depth,
    };
    assert(req@ =~= tool_ask(*route, id, args@, principal@, depth));
    Ok(req)
}

/// What the answer to a tool call means.
pub open spec fn tool_outcome(tool: Seq<char>, res: ResponseView) -> Result<JsonView, Seq<char>> {
    if res.status >= 400 {
        Err("tool "@ + tool + " failed with "@ + decimal(res.status as nat) + ": "@ + lossy_text(res.body))
    } else {
        Ok(body_value(res.body))
    }
}

/// What the answer to a tool call means.
pub fn settle_tool(tool: &str, res: &PylonResponse) -> (r: Result<Json, String>)
    ensures
        crate::runtime::outcome_view(r) == tool_outcome(tool@, res@),
{
    if res.status >= 400 {
        let detail = decode_lossy(&res.body);
        return Err(
            cat6(
                "tool ",
                tool,
                " failed with ",
                decimal_text(res.status as u64).as_str(),
                ": ",
                detail.as_str(),
            ),
        );
    }
    Ok(res.json_value())
}

/// The principal of local tooling, which has no caller of its own.
pub fn local_principal(scopes: Vec<String>) -> (r: Principal)
    ensures
        r@ == (PrincipalView {
            id: "local"@,
            kind: PrincipalKind::ApiKey,
            scopes: texts(scopes@),
            claims: Map::empty(),
        }),
{
    Principal { id: "local".to_owned(), kind: PrincipalKind::ApiKey, scopes, claims: Members::new() }
}

/// What every page can rely on: the page's own data, the request and the user, each
/// under its name.
pub open spec fn page_object(data: Option<(Seq<char>, JsonView)>, req: PylonRequest) -> JsonView {
    let own = match data {
        Some(d) => Map::empty().insert(d.0, d.1),
        None => Map::empty(),
    };
    JsonView::Object(
        own.insert(
            "request"@,
            JsonView::Object(
                Map::empty().insert("path"@, JsonView::Str(req.path@)).insert(
                    "params"@,
                    texts_object(req.path_params@),
                ).insert("query"@, texts_object(req.query@)),
            ),
        ).insert(
            "user"@,
            JsonView::Object(
                Map::empty().insert("id"@, JsonView::Str(req.principal.id@)).insert(
                    "authenticated"@,
                    JsonView::Bool(req.principal.kind != PrincipalKind::Anonymous),
                ).insert("scopes"@, text_array(texts(req.principal.scopes@))),
            ),
        ),
    )
}

/// What optional data of a page holds.
pub open spec fn data_view(data: Option<(String, Json)>) -> Option<(Seq<char>, JsonView)> {
    match data {
        Some(d) => Some((d.0@, d.1@)),
        None => None,
    }
}

/// What a template is rendered with.
pub fn page_context(data: Option<(String, Json)>, req: &PylonRequest) -> (r: Json)
    ensures
        r@ == page_object(data_view(data), *req),
{
    let mut m = Members::new();
    if let Some((name, value)) = data {
        m.put(name.as_str(), value);
    }
    let mut request = Members::new();
    request.put("path", Json::str(req.path.as_str()));
    request.put("params", table_to_json(&req.path_params));
    request.put("query", table_to_json(&req.query));
    m.put("request", Json::Object(request));
    let mut user = Members::new();
    user.put("id", Json::str(req.principal.id.as_str()));
    user.put("authenticated", Json::Bool(!req.principal.is_anonymous()));
    user.put("scopes", texts_to_json(&req.principal.scopes));
    m.put("user", Json::Object(user));
    Json::Object(m)
}

/// What the data of a page takes.
#[derive(Debug)]
pub enum PageStep<'a> {
    /// The data is there, or there is none.
    Ready(Option<(String, Json)>),
    /// A query is to be run, and its rows handed to [`page_rows`] under a name.
    Query { sql: &'a str, bindings: Vec<Json>, shape: QueryReturns, bind: &'a str },
    /// A handler is to be called, and its answer handed to [`page_answer`].
    Call { handler: u32 },
}

/// Begins to resolve the data of a page, before anything is rendered.
pub fn page_data<'a>(data: &'a PageData, has_database: bool, req: &PylonRequest) -> (r: Result<PageStep<'a>, String>)
    ensures
        match *data {
            PageData::Empty => r matches Ok(PageStep::Ready(d)) && d is None,
            PageData::Static { value } => r matches Ok(PageStep::Ready(d)) && data_view(d) == Some(
                ("data"@, value@),
            ),
            PageData::Query { sql, params, returns: wanted, bind } => if has_database {
                r matches Ok(PageStep::Query { sql: s, bindings: b, shape: t, bind: n }) && s@ == sql@ && views(b@)
                    == request_bindings(*req, texts(params@)) && t == wanted && n@ == bind@
            } else {
                r matches Err(e) && e@ == "no database configured"@
            },
            PageData::Python { handler } => r matches Ok(PageStep::Call { handler: h }) && h == handler,
        },
{
    match data {
        PageData::Empty => Ok(PageStep::Ready(None)),
        PageData::Static { value } => Ok(PageStep::Ready(Some(("data".to_owned(), value.copy())))),
        PageData::Query { sql, params, returns: wanted, bind: name } => {
            if !has_database {
                return Err("no database configured".to_owned());
            }
            Ok(
                PageStep::Query {
                    sql: sql.as_str(),
                    bindings: bind(req, params),
                    shape: *wanted,
                    bind: name.as_str(),
                },
            )
        },
        PageData::Python { handler } => Ok(PageStep::Call { handler: *handler }),
    }
}

/// The data that a page has from rows, or what is answered instead: a row that is not
/// there is 404.
pub fn page_rows(value: Json, shape: QueryReturns, name: &str) -> (r: Result<Option<(String, Json)>, PylonResponse>)
    ensures
        if value@ == JsonView::Null && shape == QueryReturns::One {
            r matches Err(res) && res@ == error_response(404, "not found"@)
        } else {
            r matches Ok(d) && data_view(d) == Some((name@, value@))
        },
{
    if value.is_null() && shape == QueryReturns::One {
        return Err(PylonResponse::error(404, "not found"));
    }
    Ok(Some((name.to_owned(), value)))
}

/// The data that a page has from a handler's answer, or what is answered instead: an
/// error passes through.
pub fn page_answer(res: PylonResponse) -> (r: Result<Option<(String, Json)>, PylonResponse>)
    ensures
        if res.status >= 400 {
            r matches Err(e) && e == res
        } else {
            r matches Ok(d) && data_view(d) == Some(("data"@, body_value(res.body@)))
        },
{
    if res.status >= 400 {
        return Err(res);
    }
    Ok(Some(("data".to_owned(), res.json_value())))
}

/// A behaviour that is to be run.
#[derive(Debug)]
pub struct BehaviourCall<'a> {
    pub def: &'a BehaviourDef,
    /// A behaviour holds a subset of its caller's authority, never a superset.
    pub actor: Principal,
    pub input: Json,
    /// The depth that it runs at: one more than that of the request.
    pub depth: u32,
}

/// The event of a behaviour.
pub open spec fn behaviour_event(kind: Seq<char>, actor: Seq<char>, name: Seq<char>, detail: JsonView) -> EventView {
    EventView { kind, run_id: Seq::empty(), actor: Some(actor), tool: Some(name), detail }
}

fn behaviour_audit(kind: &str, actor: &str, name: &str, detail: Json) -> (r: AuditEvent)
    ensures
        r@ == behaviour_event(kind@, actor@, name@, detail@),
{
    let run_id = String::new();
    assert(run_id@ =~= Seq::<char>::empty());
    AuditEvent {
        kind: kind.to_owned(),
        run_id,
        actor: Some(actor.to_owned()),
        tool: Some(name.to_owned()),
        detail,
    }
}

/// Begins to run a behaviour for a request, and says what is audited.
pub fn behaviour_call<'a>(manifest: &'a Manifest, name: &str, req: &PylonRequest) -> (r: Result<
    (BehaviourCall<'a>, AuditEvent),
    String,
>)
    ensures
        match behaviour_named(manifest.behaviours@, name@) {
            None => r matches Err(e) && e@ == "unknown behaviour "@ + debug_quoted(name@),
            Some(def) => {
                let actor = delegate_view(req.principal@, def.name@, texts(def.scopes@));
                &&& r matches Ok(c)
                &&& *c.0.def == def
                &&& c.0.actor@ == actor
                &&& c.0.input@ == body_or_null(req.body@)
                &&& c.0.depth == deeper(req.depth)
                &&& c.1@ == behaviour_event(
                    "behaviour_started"@,
                    actor.id,
                    def.name@,
                    JsonView::Object(Map::empty().insert("granted_scopes"@, text_array(actor.scopes))),
                )
            },
        },
{
    let def = match manifest.behaviour(name) {
        Some(d) => d,
        None => {
            return Err(cat2("unknown behaviour ", quoted(name).as_str()));
        },
    };
    let actor = req.principal.delegate_to_agent(def.name.as_str(), &def.scopes);
    let mut detail = Members::new();
    detail.put("granted_scopes", texts_to_json(&actor.scopes));
    let event = behaviour_audit(
        "behaviour_started",
        actor.id.as_str(),
        def.name.as_str(),
        Json::Object(detail),
    );
    let input = req.json_body_or_null();
    Ok((BehaviourCall { def, actor, input, depth: one_deeper(req.depth) }, event))
}

/// What a behaviour's outcome is answered, and what is audited of a failure.
pub fn settle_behaviour(name: &str, actor: &str, outcome: &Result<Json, String>) -> (r: (
    PylonResponse,
    Option<AuditEvent>,
))
    ensures
        match *outcome {
            Ok(v) => r.0@ == json_response(200, v@) && r.1 is None,
            Err(e) => r.0@ == error_response(500, e@) && (r.1 matches Some(ev) && ev@ == behaviour_event(
                "behaviour_failed"@,
                actor@,
                name@,
                JsonView::Object(Map::empty().insert("error"@, JsonView::Str(e@))),
            )),
        },
{
    match outcome {
        Ok(v) => (PylonResponse::json(200, v), None),
        Err(e) => {
            let mut detail = Members::new();
            detail.put("error", Json::str(e.as_str()));
            let event = behaviour_audit("behaviour_failed", actor, name, Json::Object(detail));
            (PylonResponse::error(500, e.as_str()), Some(event))
        },
    }
}

/// What a request takes once it is let in.
#[derive(Debug)]
pub enum Step<'a> {
    /// The answer is there.
    Respond(PylonResponse),
    /// A handler is to be called.
    Handler { handler: u32 },
    /// A query is to be run, and its rows handed to [`answer_query`].
    Query { sql: &'a str, bindings: Vec<Json>, shape: QueryReturns },
    /// The request is to be forwarded as [`proxy`] says.
    Proxy { upstream: &'a str, rewrite: Option<&'a str> },
    /// A template is to be rendered with what [`page_data`] and [`page_context`] give.
    Page { template: &'a str, data: &'a PageData, status: u16 },
    /// A file below the route's directory is to be served.
    Files { relative: String },
    /// An agent is to be run.
    Agent { def: &'a AgentDef, call: AgentCall },
    /// A behaviour is to be run as [`behaviour_call`] says.
    Behaviour { name: &'a str },
    /// A flow is to be run.
    Flow { flow: &'a FlowDef, input: Json },
}

/// Whether a step answers with a response.
pub open spec fn responds(step: Step, res: ResponseView) -> bool {
    step matches Step::Respond(r) && r@ == res
}

/// The path below a mount point: the first path parameter.
pub open spec fn mounted_path(req: PylonRequest) -> Seq<char> {
    if req.path_params.pairs().len() == 0 {
        "/"@
    } else {
        req.path_params.pairs()[0].1@
    }
}

/// Whether a step is what an op asks for on a request.
pub open spec fn is_step(step: Step, op: Op, req: PylonRequest, m: Manifest, has_database: bool) -> bool {
    let deep = too_deep(req.depth, m.server.max_invocation_depth);
    match op {
        Op::Static { status, body } => responds(step, json_response(status, body@)),
        Op::Python { handler } => step matches Step::Handler { handler: h } && h == handler,
        Op::Query { sql, params, returns: wanted } => if has_database {
            step matches Step::Query { sql: s, bindings, shape } && s@ == sql@ && views(bindings@) == request_bindings(
                req,
                texts(params@),
            ) && shape == wanted
        } else {
            responds(step, error_response(500, "no database configured"@))
        },
        Op::Proxy { upstream, rewrite } => step matches Step::Proxy { upstream: u, rewrite: w } && u@ == upstream@
            && maybe_str(w) == crate::run::maybe_text(rewrite),
        Op::Page { template, data, status } => step matches Step::Page { template: t, data: d, status: s } && t@
            == template@ && *d == data && s == status,
        Op::Files { .. } => if req.route_id is None {
            responds(step, error_response(500, "file route dispatched without a route id"@))
        } else {
            step matches Step::Files { relative } && relative@ == mounted_path(req)
        },
        Op::Agent { agent, .. } => match deep {
            Some(res) => responds(step, res),
            None => match agent_named(m.agents@, agent@) {
                None => responds(step, error_response(500, "unknown agent "@ + debug_quoted(agent@))),
                Some(a) => match text_argument(req, "input"@) {
                    None => responds(step, error_response(400, "agent invocation requires an 'input' string"@)),
                    Some(input) => step matches Step::Agent { def, call } && *def == a && call.input@ == input
                        && crate::run::maybe_text(call.opts.session_id) == (match text_argument(req, "session_id"@) {
                        Some(s) => if s.len() == 0 {
                            None
                        } else {
                            Some(s)
                        },
                        None => None,
                    }) && call.opts.depth == req.depth && call.opts.reset_session == (req.argument("reset"@) == Some(JsonView::Bool(true))),
                },
            },
        },
        Op::Behaviour { behaviour, .. } => match deep {
            Some(res) => responds(step, res),
            None => step matches Step::Behaviour { name } && name@ == behaviour@,
        },
        Op::Flow { flow } => match deep {
            Some(res) => responds(step, res),
            None => match flow_named(m.flows@, flow@) {
                None => responds(step, error_response(500, "unknown flow "@ + debug_quoted(flow@))),
                Some(f) => step matches Step::Flow { flow: d, input } && *d == f && input@ == body_or_null(req.body@),
            },
        },
    }
}

fn fault(message: &str) -> (r: Step<'static>)
    ensures
        responds(r, error_response(500, message@)),
{
    Step::Respond(PylonResponse::error(500, message))
}

/// What an op asks for on a request.
pub fn execute<'a>(manifest: &'a Manifest, op: &'a Op, req: &PylonRequest, has_database: bool) -> (r: Step<'a>)
    ensures
        is_step(r, *op, *req, *manifest, has_database),
{
    let max: u32 = manifest.server.max_invocation_depth;
    match op {
        Op::Static { status, body } => Step::Respond(PylonResponse::json(*status, body)),
        Op::Python { handler } => Step::Handler { handler: *handler },
        Op::Query { sql, params, returns: wanted } => {
            if !has_database {
                return fault("no database configured");
            }
            Step::Query { sql: sql.as_str(), bindings: bind(req, params), shape: *wanted }
        },
        Op::Proxy { upstream, rewrite } => Step::Proxy {
            upstream: upstream.as_str(),
            rewrite: match rewrite {
                Some(w) => Some(w.as_str()),
                None => None,
            },
        },
        Op::Page { template, data, status } => Step::Page { template: template.as_str(), data, status: *status },
        Op::Files { .. } => {
            if req.route_id.is_none() {
                return fault("file route dispatched without a route id");
            }
            let relative = if req.path_params.len() > 0 {
                req.path_params.value_at(0).clone()
            } else {
                "/".to_owned()
            };
            Step::Files { relative }
        },
        Op::Agent { agent, .. } => {
            if let Some(res) = depth_exceeded(req.depth, max) {
                return Step::Respond(res);
            }
            match manifest.agent_def(agent.as_str()) {
                None => fault(cat2("unknown agent ", quoted(agent.as_str()).as_str()).as_str()),
                Some(def) => match agent_call(req) {
                    Ok(call) => Step::Agent { def, call },
                    Err(res) => Step::Respond(res),
                },
            }
        },
        Op::Behaviour { behaviour, .. } => {
            if let Some(res) = depth_exceeded(req.depth, max) {
                return Step::Respond(res);
            }
            Step::Behaviour { name: behaviour.as_str() }
        },
        Op::Flow { flow } => {
            if let Some(res) = depth_exceeded(req.depth, max) {
                return Step::Respond(res);
            }
            match manifest.flow(flow.as_str()) {
                None => fault(cat2("unknown flow ", quoted(flow.as_str()).as_str()).as_str()),
                Some(def) => Step::Flow { flow: def, input: req.json_body_or_null() },
            }
        },
    }
}

/// A manifest that was found in order, with its router and the credentials of its
/// upstreams.
pub struct App<'a> {
    pub manifest: &'a Manifest,
    pub router: Router,
    pub upstream_tokens: Table<String>,
}

/// The token of an upstream.
pub open spec fn token_of(up: Upstream, env: Map<Seq<char>, String>) -> Option<Seq<char>> {
    match up.bearer_env {
        Some(var) => crate::provider::env_text(env, var@),
        None => None,
    }
}

/// The tokens of upstreams.
pub open spec fn tokens_of(upstreams: Map<Seq<char>, Upstream>, env: Map<Seq<char>, String>) -> Map<
    Seq<char>,
    Seq<char>,
> {
    Map::new(
        |k: Seq<char>| upstreams.contains_key(k) && token_of(upstreams[k], env) is Some,
        |k: Seq<char>| token_of(upstreams[k], env)->0,
    )
}

/// What keeps a manifest from being served.
pub open spec fn boot_fault(m: Manifest) -> Option<Seq<char>> {
    match crate::validation::manifest_fault(m) {
        Some(e) => Some(e),
        None => crate::validation::first_fault(
            0,
            m.routes@.len() as int,
            crate::router::path_fault(m.routes@),
        ),
    }
}

fn read_tokens(upstreams: &Table<Upstream>, env: &Table<String>) -> (r: Table<String>)
    ensures
        text_map(r@) == tokens_of(upstreams@, env@),
{
    let mut out: Table<String> = Table::new();
    let n: usize = upstreams.len();
    let ghost all = upstreams.pairs();
    let mut i: usize = 0;
    assert(text_map(out@) =~= tokens_of(pairs_map(all.take(0)), env@));
    while i < n
        invariant
            i <= n == all.len(),
            all == upstreams.pairs(),
            crate::table::in_order(all),
            text_map(out@) == tokens_of(pairs_map(all.take(i as int)), env@),
        decreases n - i,
    {
        let name = upstreams.key_at(i);
        let up = upstreams.value_at(i);
        let ghost was = out@;
        proof {
            assert(all.take(i + 1).drop_last() =~= all.take(i as int));
            assert(all.take(i + 1).last() == all[i as int]);
            assert(!pairs_map(all.take(i as int)).contains_key(name@)) by {
                let before = all.take(i as int);
                assert(crate::table::in_order(before)) by {
                    assert forall|a: int, b: int| 0 <= a < b < before.len() implies crate::text::precedes(
                        #[trigger] before[a].0,
                        #[trigger] before[b].0,
                    ) by {
                        assert(crate::text::precedes(all[a].0, all[b].0));
                    }
                }
                crate::table::lemma_table_pairs(before);
                if pairs_map(before).contains_key(name@) {
                    let j = choose|j: int| 0 <= j < before.len() && (#[trigger] before[j]).0 == name@;
                    assert(crate::text::precedes(all[j].0, all[i as int].0));
                    crate::text::lemma_precedes_irreflexive(name@);
                }
            }
        }
        if let Some(var) = &up.bearer_env {
            if let Some(tok) = env.get(var.as_str()) {
                let text = tok.clone();
                out.insert(name, text);
                assert(text_map(out@) =~= text_map(was).insert(name@, text@));
            }
        }
        assert(text_map(out@) =~= tokens_of(pairs_map(all.take(i + 1)), env@));
        i = i + 1;
    }
    assert(all.take(all.len() as int) =~= all);
    out
}

/// Whether a route runs a model: an agent, a behaviour or a flow.
pub open spec fn runs_model(op: Op) -> bool {
    op is Agent || op is Behaviour || op is Flow
}

impl<'a> App<'a> {
    /// Checks a manifest and sets its routes up.
    pub fn build(manifest: &'a Manifest, env: &Table<String>) -> (r: Result<App<'a>, String>)
        requires
            !crate::router::may_lose_count(manifest.routes@),
        ensures
            match r {
                Ok(app) => boot_fault(*manifest) is None && app.manifest == manifest && app.router.methods()
                    == crate::router::by_methods(manifest.routes@) && app.router.all()
                    == crate::router::all_inserted(manifest.routes@) && text_map(app.upstream_tokens@) == tokens_of(
                    manifest.upstreams@,
                    env@,
                ),
                Err(e) => boot_fault(*manifest) == Some(e@),
            },
    {
        if let Err(e) = manifest.validate() {
            return Err(e);
        }
        let router = match Router::build(&manifest.routes) {
            Ok(r) => r,
            Err(e) => {
                return Err(e);
            },
        };
        Ok(App { manifest, router, upstream_tokens: read_tokens(&manifest.upstreams, env) })
    }

    /// The templates that the pages of the manifest name, in order.
    pub fn page_templates(&self) -> (r: Vec<&'a str>)
        ensures
            r@.map_values(|t: &str| t@) == template_names(self.manifest.routes@),
    {
        let routes: &'a Vec<Route> = &self.manifest.routes;
        let ghost all = routes@;
        let mut out: Vec<&'a str> = Vec::new();
        let mut i: usize = 0;
        assert(out@.map_values(|t: &str| t@) =~= template_names(all.take(0)));
        while i < routes.len()
            invariant
                i <= routes@.len(),
                all == routes@,
                out@.map_values(|t: &str| t@) == template_names(all.take(i as int)),
            decreases routes.len() - i,
        {
            proof {
                assert(all.take(i + 1).drop_last() =~= all.take(i as int));
                assert(all.take(i + 1).last() == all[i as int]);
            }
            if let Op::Page { template, .. } = &routes[i].op {
                let ghost was = out@;
                out.push(template.as_str());
                assert(out@.map_values(|t: &str| t@) =~= was.map_values(|t: &str| t@).push(template@));
            }
            i = i + 1;
        }
        assert(all.take(all.len() as int) =~= all);
        out
    }

    /// Whether anything that is declared needs a model.
    pub fn needs_model(&self) -> (r: bool)
        ensures
            r == (self.manifest.agents@.len() > 0 || self.manifest.behaviours@.len() > 0 || self.manifest.flows@.len()
                > 0),
    {
        self.manifest.agents.len() > 0 || self.manifest.behaviours.len() > 0 || self.manifest.flows.len() > 0
    }

    /// Lets a request in and says what it takes, or answers it.
    pub fn dispatch(&self, req: &mut PylonRequest, has_database: bool) -> (r: Step<'a>)
        ensures
            match admission(self.router, self.manifest.routes@, old(req)@) {
                Ok(a) => final(req)@ == a.1 && is_step(r, a.0.op, *final(req), *self.manifest, has_database),
                Err(res) => responds(r, res),
            },
    {
        match accept(&self.router, self.manifest, req) {
            Ok(route) => execute(self.manifest, &route.op, &*req, has_database),
            Err(res) => Step::Respond(res),
        }
    }

    /// Whether a request would run a model.
    pub open spec fn loops(&self, method: Seq<char>, path: Seq<char>) -> bool {
        match finds(self.router.methods(), self.router.all(), method, path) {
            Ok(hit) => route_of(self.manifest.routes@, hit.0) matches Some(route) && runs_model(route.op),
            Err(_) => false,
        }
    }

    /// Whether a request would run a model, which routinely outlasts an ordinary
    /// handler.
    pub fn runs_a_model_loop(&self, method: &str, path: &str) -> (r: bool)
        ensures
            r == self.loops(method@, path@),
    {
        match self.router.find(method, path) {
            Ok(m) => match self.manifest.route(m.route_id) {
                Some(route) => match &route.op {
                    Op::Agent { .. } => true,
                    Op::Behaviour { .. } => true,
                    Op::Flow { .. } => true,
                    _ => false,
                },
                None => false,
            },
            Err(_) => false,
        }
    }
}

/// The templates that the pages of some routes name, in order.
pub open spec fn template_names(routes: Seq<Route>) -> Seq<Seq<char>>
    decreases routes.len(),
{
    if routes.len() == 0 {
        Seq::empty()
    } else {
        let before = template_names(routes.drop_last());
        match routes.last().op {
            Op::Page { template, .. } => before.push(template@),
            _ => before,
        }
    }
}

/// A tool call goes through the same door as a request over HTTP: where its route is
/// found again, it is let in exactly if its principal holds every scope that the route
/// demands.
pub proof fn law_a_tool_call_is_let_in_like_any_request(
    router: Router,
    routes: Seq<Route>,
    route: Route,
    id: u32,
    args: JsonView,
    principal: PrincipalView,
    depth: u32,
)
    requires
        finds(
            router.methods(),
            router.all(),
            tool_ask(route, id, args, principal, depth).method,
            tool_ask(route, id, args, principal, depth).path,
        ) matches Ok(hit) && route_of(routes, hit.0) == Some(route),
    ensures
        admission(router, routes, tool_ask(route, id, args, principal, depth)) is Ok <==> scope_refusal(
            route,
            principal,
        ) is None,
{
}

/// Whatever runs a model is invoked below the ceiling, and what it invokes in turn is
/// one level deeper: from a depth, no chain of invocations is longer than what is left
/// to the ceiling.
pub proof fn law_each_invocation_is_one_deeper(step: Step, op: Op, req: PylonRequest, m: Manifest, has_database: bool)
    requires
        is_step(step, op, req, m, has_database),
        runs_model(op),
        !(step is Respond),
    ensures
        req.depth < m.server.max_invocation_depth,
        deeper(req.depth) == req.depth + 1,
{
}

/// An invocation nested as deep as the ceiling runs no model, whatever it asks for.
pub proof fn law_nesting_is_bounded(step: Step, op: Op, req: PylonRequest, m: Manifest, has_database: bool)
    requires
        is_step(step, op, req, m, has_database),
        runs_model(op),
        req.depth >= m.server.max_invocation_depth,
    ensures
        step matches Step::Respond(r) && r@.status == 508,
{
}

proof fn lemma_tool_params(segments: Seq<Seq<char>>, args: Map<Seq<char>, JsonView>, k: Seq<char>)
    ensures
        tool_params(segments, args).contains_key(k) <==> args.contains_key(k) && segments.contains("{"@ + k + "}"@),
        tool_params(segments, args).contains_key(k) ==> tool_params(segments, args)[k] == as_text(args[k]),
    decreases segments.len(),
{
    if segments.len() > 0 {
        let rest = segments.drop_last();
        let last = segments.last();
        let held = "{"@ + k + "}"@;
        lemma_tool_params(rest, args, k);
        crate::manifest::law_a_parameter_stands_between_braces(last, k);
        if rest.contains(held) {
            let i = choose|i: int| 0 <= i < rest.len() && rest[i] == held;
            assert(segments[i] == held);
        }
        if last == held {
            assert(segments[segments.len() - 1] == held);
        }
        if segments.contains(held) && last != held {
            let i = choose|i: int| 0 <= i < segments.len() && segments[i] == held;
            assert(rest[i] == held);
        }
    }
}

/// A call of a tool is a request to the route of that name with every argument and nothing
/// else: one that the path names goes into the path. Of a method without a body, the others
/// go into the query, as they stand where they are texts and as they print otherwise; and of
/// any other method, the body is the arguments as they print. The request is made for the
/// caller that is given, at the depth that is given, and with no headers.
pub proof fn law_a_tool_call_carries_its_arguments(
    routes: Seq<Route>,
    tool: Seq<char>,
    args: Map<Seq<char>, JsonView>,
    principal: PrincipalView,
    depth: u32,
    k: Seq<char>,
)
    requires
        crate::manifest::tool_route(routes, tool) is Some,
    ensures
        ({
            let route = crate::manifest::tool_route(routes, tool)->0;
            let in_path = args.contains_key(k) && split_on(route.path@, '/').contains("{"@ + k + "}"@);
            let bodyless = route.method@ == "GET"@ || route.method@ == "DELETE"@;
            &&& tool_call(routes, tool, JsonView::Object(args), principal, depth) matches Ok(ask)
            &&& ask.method == route.method@
            &&& ask.principal == principal
            &&& ask.depth == depth
            &&& ask.headers.len() == 0 && ask.headers.dom().is_empty()
            &&& ask.route_id == crate::manifest::tool_id(routes, tool)
            &&& ask.path_params.contains_key(k) <==> in_path
            &&& ask.query.contains_key(k) <==> args.contains_key(k) && !in_path && bodyless
            &&& bodyless ==> ask.body.len() == 0
            &&& !bodyless ==> ask.body == encode_utf8(json_text(JsonView::Object(args)))
            &&& args.contains_key(k) ==> ({
                let said = match args[k] {
                    JsonView::Str(s) => s,
                    other => json_text(other),
                };
                &&& in_path ==> ask.path_params[k] == said
                &&& ask.query.contains_key(k) ==> ask.query[k] == said
            })
            &&& ask.path == substituted(route.path@, ask.path_params)
        }),
{
    let route = crate::manifest::tool_route(routes, tool)->0;
    lemma_tool_params(split_on(route.path@, '/'), args, k);
}

/// A name that no exposed route bears is an unknown tool.
pub proof fn law_a_tool_that_is_not_there_cannot_be_called(
    routes: Seq<Route>,
    tool: Seq<char>,
    args: JsonView,
    principal: PrincipalView,
    depth: u32,
)
    requires
        forall|i: int| 0 <= i < routes.len() ==> !((#[trigger] routes[i]).tool.expose && routes[i].tool_text() == tool),
    ensures
        tool_call(routes, tool, args, principal, depth) == Err::<AskView, Seq<char>>("unknown tool "@ + debug_quoted(tool)),
{
    crate::manifest::lemma_tool_id(routes, tool);
}

/// A path template is filled in segment by segment: one more segment at its end adds, behind
/// a slash, the value of the parameter that it names, nothing where there is no such
/// parameter, or itself where it names none; and what stands before it is filled in as it
/// would be alone.
pub proof fn law_a_template_is_filled_in_segment_by_segment(
    template: Seq<char>,
    segment: Seq<char>,
    name: Seq<char>,
    params: Map<Seq<char>, Seq<char>>,
)
    requires
        segment.len() > 0,
        !segment.contains('/'),
        !name.contains('/'),
        name.len() > 0 && name[0] != '*',
    ensures
        substituted(Seq::empty(), params) == "/"@,
        substituted(template + seq!['/'], params) == substituted(template, params),
        crate::manifest::braced(segment) is None ==> substituted(seq!['/'] + segment, params) == "/"@ + segment,
        params.contains_key(name) ==> substituted(seq!['/'] + ("{"@ + name + "}"@), params) == "/"@ + params[name],
        substituted(template, params) != "/"@ ==> ({
            &&& crate::manifest::braced(segment) is None ==> substituted(template + seq!['/'] + segment, params)
                == substituted(template, params) + "/"@ + segment
            &&& params.contains_key(name) ==> substituted(template + seq!['/'] + ("{"@ + name + "}"@), params)
                == substituted(template, params) + "/"@ + params[name]
            &&& params.contains_key(name) ==> substituted(template + seq!['/'] + ("{*"@ + name + "}"@), params)
                == substituted(template, params) + "/"@ + params[name]
            &&& !params.contains_key(name) ==> substituted(template + seq!['/'] + ("{"@ + name + "}"@), params)
                == substituted(template, params) + "/"@
        }),
{
    reveal_strlit("{");
    reveal_strlit("}");
    reveal_strlit("/");
    reveal_strlit("{*");
    let none = Seq::<char>::empty();
    let held = "{"@ + name + "}"@;
    let caught = "{*"@ + name + "}"@;
    let star = "*"@;
    reveal_strlit("*");
    assert(caught =~= "{"@ + (star + name) + "}"@);
    assert(!held.contains('/')) by {
        if held.contains('/') {
            let i = choose|i: int| 0 <= i < held.len() && held[i] == '/';
            assert(i > 0 && i < held.len() - 1);
            assert(name[i - 1] == '/');
        }
    }
    assert(!caught.contains('/')) by {
        if caught.contains('/') {
            let i = choose|i: int| 0 <= i < caught.len() && caught[i] == '/';
            assert(i > 1 && i < caught.len() - 1);
            assert(name[i - 2] == '/');
        }
    }
    crate::manifest::law_a_parameter_stands_between_braces(held, name);
    crate::manifest::law_a_parameter_stands_between_braces(caught, star + name);
    assert((star + name).skip(1) =~= name);
    assert((star + name)[0] == '*');
    assert(trim_start_by(name, only('*')) == name);
    assert(trim_start_by(star + name, only('*')) == trim_start_by((star + name).skip(1), only('*')));
    let pieces = split_on(template, '/');
    crate::text::law_a_text_is_cut_at_each_separator(template, none, '/');
    crate::text::law_a_text_is_cut_at_each_separator(template, segment, '/');
    crate::text::law_a_text_is_cut_at_each_separator(template, held, '/');
    crate::text::law_a_text_is_cut_at_each_separator(template, caught, '/');
    crate::text::law_a_text_is_cut_at_each_separator(none, none, '/');
    crate::text::law_a_text_is_cut_at_each_separator(none, segment, '/');
    crate::text::law_a_text_is_cut_at_each_separator(none, held, '/');
    crate::text::law_a_text_is_cut_at_each_separator(segment, none, '/');
    crate::text::law_a_text_is_cut_at_each_separator(held, none, '/');
    crate::text::law_a_text_is_cut_at_each_separator(caught, none, '/');
    assert(template + seq!['/'] + none =~= template + seq!['/']);
    assert(none + seq!['/'] + segment =~= seq!['/'] + segment);
    assert(none + seq!['/'] + held =~= seq!['/'] + held);
    assert((pieces + seq![none]).drop_last() =~= pieces);
    assert((pieces + seq![segment]).drop_last() =~= pieces);
    assert((pieces + seq![held]).drop_last() =~= pieces);
    assert((pieces + seq![caught]).drop_last() =~= pieces);
    assert((seq![none] + seq![segment]).drop_last() =~= seq![none]);
    assert((seq![none] + seq![held]).drop_last() =~= seq![none]);
    assert(seq![none].drop_last() =~= Seq::empty());
    assert(segment_parts(Seq::empty(), params) =~= none);
    assert(segment_parts(seq![none], params) =~= none);
    assert(none + "/"@ =~= "/"@);
    let before = segment_parts(pieces, params);
    assert(before + "/"@ + none =~= before + "/"@);
}

/// A tool's answer is what it says where it went well, and an error that says the status and
/// the body where it did not.
pub proof fn law_a_tools_answer_is_what_it_says(tool: Seq<char>, res: ResponseView, said: JsonView, text: Seq<char>)
    ensures
        res.status < 400 && crate::json::json_parsed_bytes(res.body) == Some(said) ==> tool_outcome(tool, res) == Ok::<
            JsonView,
            Seq<char>,
        >(said),
        res.status < 400 && crate::json::json_parsed_bytes(encode_utf8(text)) is None && res.body == encode_utf8(text)
            ==> tool_outcome(tool, res) == Ok::<JsonView, Seq<char>>(JsonView::Str(text)),
        res.status >= 400 && res.body == encode_utf8(text) ==> (tool_outcome(tool, res) matches Err(e)
            && text.is_suffix_of(e) && contains_text(e, decimal(res.status as nat)) && contains_text(e, tool)),
{
    vstd::utf8::encode_utf8_valid_utf8(text);
    vstd::utf8::encode_utf8_decode_utf8(text);
    if res.status >= 400 && res.body == encode_utf8(text) {
        let e = tool_outcome(tool, res)->Err_0;
        let d = decimal(res.status as nat);
        let first = "tool "@;
        let second = first + tool + " failed with "@;
        assert(e.subrange(e.len() - text.len(), e.len() as int) =~= text);
        assert(e.subrange(first.len() as int, first.len() as int + tool.len()) =~= tool);
        assert(crate::text::occurs_at(e, tool, first.len() as int));
        assert(e.subrange(second.len() as int, second.len() as int + d.len()) =~= d);
        assert(crate::text::occurs_at(e, d, second.len() as int));
    }
}

/// Each parameter of a query is bound, in its place, to the argument of its name; one that
/// was not sent is bound to nothing.
pub proof fn law_a_parameter_is_bound_to_the_argument_of_its_name(req: PylonRequest, params: Seq<Seq<char>>, i: int)
    requires
        0 <= i < params.len(),
    ensures
        request_bindings(req, params).len() == params.len(),
        req.argument(params[i]) matches Some(v) ==> request_bindings(req, params)[i] == v,
        req.argument(params[i]) is None ==> request_bindings(req, params)[i] == JsonView::Null,
{
}

/// Rows are answered as they are; only where one row was wanted and there is none, the
/// answer is that there is none.
pub proof fn law_rows_are_answered_as_they_are(value: JsonView, shape: QueryReturns)
    ensures
        shape != QueryReturns::One || value != JsonView::Null ==> query_response(value, shape).status == 200
            && query_response(value, shape).body == encode_utf8(json_text(value)),
        shape == QueryReturns::One && value == JsonView::Null ==> query_response(value, shape).status == 404,
{
}

/// A run that failed is answered as a fault of what is behind, one that waits for a human as
/// accepted, and any other, limits too, as done.
pub proof fn law_a_run_is_answered_by_how_it_ended(status: RunStatus)
    ensures
        run_status_code(status) == 502 <==> status is Failed,
        run_status_code(status) == 202 <==> status is AwaitingApproval,
        run_status_code(status) == 200 <==> !(status is Failed) && !(status is AwaitingApproval),
{
}

/// A page is given its own data under its name, the path and what it was asked with, and
/// who asked.
pub proof fn law_a_page_is_given_its_data(name: Seq<char>, value: JsonView, req: PylonRequest)
    ensures
        ({
            let page = page_object(Some((name, value)), req);
            let bare = page_object(None, req);
            &&& name != "request"@ && name != "user"@ ==> crate::json::member(page, name) == Some(value)
            &&& crate::json::member(page, "request"@) == crate::json::member(bare, "request"@)
            &&& crate::json::member(page, "user"@) == crate::json::member(bare, "user"@)
            &&& bare->Object_0.dom() == set!["request"@, "user"@]
            &&& crate::json::member(page, "request"@) matches Some(r)
            &&& crate::json::member(r, "path"@) == Some(JsonView::Str(req@.path))
            &&& crate::json::member(r, "params"@) matches Some(JsonView::Object(p)) && p.dom() == req@.path_params.dom()
                && (forall|k: Seq<char>| #[trigger] p.contains_key(k) ==> p[k] == JsonView::Str(req@.path_params[k]))
            &&& crate::json::member(r, "query"@) matches Some(JsonView::Object(q)) && q.dom() == req@.query.dom()
                && (forall|k: Seq<char>| #[trigger] q.contains_key(k) ==> q[k] == JsonView::Str(req@.query[k]))
            &&& crate::json::member(page, "user"@) matches Some(u)
            &&& crate::json::member(u, "id"@) == Some(JsonView::Str(req@.principal.id))
            &&& crate::json::member(u, "authenticated"@) == Some(
                JsonView::Bool(req@.principal.kind != PrincipalKind::Anonymous),
            )
            &&& crate::json::member(u, "scopes"@) matches Some(JsonView::Array(list)) && list.len()
                == req@.principal.scopes.len() && forall|i: int|
                0 <= i < list.len() ==> #[trigger] list[i] == JsonView::Str(req@.principal.scopes[i])
        }),
{
    reveal_strlit("request");
    reveal_strlit("user");
    reveal_strlit("path");
    reveal_strlit("params");
    reveal_strlit("query");
    reveal_strlit("id");
    reveal_strlit("authenticated");
    reveal_strlit("scopes");
    assert("request"@.len() == 7);
    assert("user"@.len() == 4);
    assert("path"@.len() == 4);
    assert("params"@.len() == 6);
    assert("query"@.len() == 5);
    assert("id"@.len() == 2);
    assert("authenticated"@.len() == 13);
    assert("scopes"@.len() == 6);
    assert("user"@[0] != "path"@[0]);
    assert("params"@[0] != "scopes"@[0]);
    let bare = page_object(None, req);
    assert(bare->Object_0.dom() =~= set!["request"@, "user"@]);
    let r = crate::json::member(bare, "request"@)->0;
    assert(crate::json::member(r, "params"@)->0->Object_0.dom() =~= req@.path_params.dom());
    assert(crate::json::member(r, "query"@)->0->Object_0.dom() =~= req@.query.dom());
}

/// A request that matches no route is told so: 404 where nothing serves the path, and 405
/// with the methods that do where something serves it under another method.
pub proof fn law_a_request_without_a_route_is_told_so(
    router: Router,
    routes: Seq<Route>,
    ask: AskView,
    e: MatchError,
)
    requires
        finds(router.methods(), router.all(), ask.method, ask.path) == Err::<crate::router::Hit, MatchError>(e),
    ensures
        admission(router, routes, ask) matches Err(res) && ({
            &&& e is NotFound ==> res.status == 404
            &&& e is MethodNotAllowed ==> res.status == 405 && res.headers.contains(
                ("allow"@, joined(allowed_on(router.methods(), ask.path), ", "@)),
            )
        }),
{
    if e is MethodNotAllowed {
        let res = admission(router, routes, ask)->Err_0;
        assert(res.headers.last() == ("allow"@, joined(allowed_on(router.methods(), ask.path), ", "@)));
    }
}

/// A request that is let in is let in to the route that its method and path lead to, with
/// the parameters of the path, and is otherwise as it came; its caller holds every scope
/// that the route demands.
pub proof fn law_a_request_is_let_in_as_it_came(router: Router, routes: Seq<Route>, ask: AskView)
    requires
        admission(router, routes, ask) is Ok,
    ensures
        ({
            let let_in = admission(router, routes, ask)->Ok_0;
            &&& finds(router.methods(), router.all(), ask.method, ask.path) matches Ok(hit)
            &&& route_of(routes, hit.0) == Some(let_in.0)
            &&& let_in.1.route_id == Some(hit.0)
            &&& let_in.1.path_params == crate::table::pairs_map(hit.1)
            &&& let_in.1.method == ask.method && let_in.1.path == ask.path && let_in.1.query == ask.query
            &&& let_in.1.headers == ask.headers && let_in.1.body == ask.body && let_in.1.principal == ask.principal
            &&& let_in.1.depth == ask.depth
            &&& forall|s: Seq<char>| #[trigger]
                demanded(let_in.0).contains(s) ==> crate::auth::grants(ask.principal.scopes, s)
        }),
{
    law_refusals_tell_login_from_lack(admission(router, routes, ask)->Ok_0.0, ask.principal);
}

/// An upstream is sent the headers that are declared for it, the application's token as a
/// bearer, and the caller's content negotiation; and nothing else.
pub proof fn law_an_upstream_is_sent_its_own_headers(
    up: Upstream,
    token: Option<Seq<char>>,
    headers: Map<Seq<char>, Seq<char>>,
    h: (Seq<char>, Seq<char>),
)
    ensures
        upstream_headers(up, token, headers).contains(h) <==> {
            ||| exists|i: int| 0 <= i < up.headers.pairs().len() && h == (up.headers.pairs()[i].0, (#[trigger] up.headers.pairs()[i]).1@)
            ||| token matches Some(t) && h == ("authorization"@, "Bearer "@ + t)
            ||| h.0 == "content-type"@ && headers.contains_key(h.0) && h.1 == headers[h.0]
            ||| h.0 == "accept"@ && headers.contains_key(h.0) && h.1 == headers[h.0]
        },
{
    let own = pair_texts(up.headers.pairs());
    let signed = match token {
        Some(t) => own.push(("authorization"@, "Bearer "@ + t)),
        None => own,
    };
    let a = forwarded(headers, "content-type"@);
    let b = forwarded(headers, "accept"@);
    let all = upstream_headers(up, token, headers);
    assert(all == signed + a + b);
    if all.contains(h) {
        let i = choose|i: int| 0 <= i < all.len() && all[i] == h;
        if i < own.len() {
            assert(h == (up.headers.pairs()[i].0, up.headers.pairs()[i].1@));
        } else if i < signed.len() {
            assert(signed[i] == h);
        } else if i < signed.len() + a.len() {
            assert(a[i - signed.len()] == h);
        } else {
            assert(b[i - signed.len() - a.len()] == h);
        }
    }
    if exists|i: int| 0 <= i < up.headers.pairs().len() && h == (up.headers.pairs()[i].0, (#[trigger] up.headers.pairs()[i]).1@) {
        let i = choose|i: int| 0 <= i < up.headers.pairs().len() && h == (up.headers.pairs()[i].0, (#[trigger] up.headers.pairs()[i]).1@);
        assert(all[i] == h);
    }
    if token matches Some(t) && h == ("authorization"@, "Bearer "@ + t) {
        assert(all[own.len() as int] == h);
    }
    if h.0 == "content-type"@ && headers.contains_key(h.0) && h.1 == headers[h.0] {
        assert(all[signed.len() as int] == h);
    }
    if h.0 == "accept"@ && headers.contains_key(h.0) && h.1 == headers[h.0] {
        assert(all[signed.len() + a.len() as int] == h);
    }
}

/// A request is forwarded to its own path, or to the path that the route rewrites it to.
pub proof fn law_a_request_is_forwarded_to_its_path(ask: AskView, rewrite: Seq<char>)
    ensures
        upstream_tail(None, ask) == ask.path,
        upstream_tail(Some(rewrite), ask) == substituted(rewrite, ask.path_params),
{
}

/// An op does what it declares on a request: each kind asks for its own work, on what the
/// request was sent with.
pub proof fn law_an_op_does_what_it_declares(step: Step, op: Op, req: PylonRequest, m: Manifest, has_database: bool)
    requires
        is_step(step, op, req, m, has_database),
        req.depth < m.server.max_invocation_depth,
    ensures
        op matches Op::Static { status, body } ==> (step matches Step::Respond(res) && res@.status == status && res@.body
            == encode_utf8(json_text(body@))),
        op matches Op::Python { handler } ==> (step matches Step::Handler { handler: h } && h == handler),
        op matches Op::Query { sql, params, returns: wanted } ==> (has_database ==> (step matches Step::Query {
            sql: s,
            bindings,
            shape,
        } && s@ == sql@ && shape == wanted && bindings@.len() == params@.len() && forall|i: int|
            0 <= i < params@.len() ==> (match req.argument((#[trigger] params@[i])@) {
                Some(v) => bindings@[i]@ == v,
                None => bindings@[i]@ == JsonView::Null,
            }))),
        op matches Op::Proxy { upstream, .. } ==> (step matches Step::Proxy { upstream: u, .. } && u@ == upstream@),
        op matches Op::Page { template, data, status } ==> (step matches Step::Page { template: t, data: d, status: s }
            && t@ == template@ && *d == data && s == status),
        op matches Op::Agent { agent, .. } ==> (step matches Step::Agent { def, call } ==> (def.name@ == agent@
            && req.argument("input"@) == Some(JsonView::Str(call.input@)) && call.opts.depth == req.depth)),
        op matches Op::Agent { agent, .. } ==> (agent_named(m.agents@, agent@) is Some && text_argument(
            req,
            "input"@,
        ) is Some ==> step is Agent),
        op matches Op::Behaviour { behaviour, .. } ==> (step matches Step::Behaviour { name } && name@ == behaviour@),
        op matches Op::Flow { flow } ==> (step matches Step::Flow { flow: d, input } ==> (d.name@ == flow@ && (
        crate::json::json_parsed_bytes(req@.body) is Some && req@.body.len() > 0 ==> Some(input@)
            == crate::json::json_parsed_bytes(req@.body)))),
        op matches Op::Flow { flow } ==> (flow_named(m.flows@, flow@) is Some ==> step is Flow),
{
    match op {
        Op::Query { params, .. } => {
            if has_database {
                if let Step::Query { bindings, .. } = step {
                    assert(views(bindings@).len() == bindings@.len());
                    assert forall|i: int| 0 <= i < params@.len() implies (match req.argument((#[trigger] params@[i])@) {
                        Some(v) => bindings@[i]@ == v,
                        None => bindings@[i]@ == JsonView::Null,
                    }) by {
                        assert(views(bindings@)[i] == bindings@[i]@);
                        assert(texts(params@)[i] == params@[i]@);
                    }
                }
            }
        },
        Op::Agent { agent, .. } => {
            lemma_agent_named(m.agents@, agent@);
        },
        Op::Flow { flow } => {
            lemma_flow_named(m.flows@, flow@);
        },
        _ => {},
    }
}

proof fn lemma_agent_named(list: Seq<AgentDef>, name: Seq<char>)
    ensures
        agent_named(list, name) matches Some(a) ==> a.name@ == name,
    decreases list.len(),
{
    if list.len() > 0 {
        lemma_agent_named(list.skip(1), name);
    }
}

proof fn lemma_flow_named(list: Seq<FlowDef>, name: Seq<char>)
    ensures
        flow_named(list, name) matches Some(f) ==> f.name@ == name,
    decreases list.len(),
{
    if list.len() > 0 {
        lemma_flow_named(list.skip(1), name);
    }
}

/// A behaviour is audited under its own name and as whom it acts.
pub proof fn law_a_behaviour_is_audited_as_whom_it_acts(kind: Seq<char>, actor: Seq<char>, name: Seq<char>, detail: JsonView)
    ensures
        ({
            let e = behaviour_event(kind, actor, name, detail);
            e.kind == kind && e.actor == Some(actor) && e.tool == Some(name) && e.detail == detail
        }),
{
}

/// The templates of an application are those that its pages name, in order.
pub proof fn law_every_page_names_its_template(routes: Seq<Route>, r: Route)
    ensures
        template_names(Seq::empty()).len() == 0,
        r.op matches Op::Page { template, .. } ==> template_names(routes.push(r)) == template_names(routes).push(template@),
        !(r.op is Page) ==> template_names(routes.push(r)) == template_names(routes),
{
    assert(routes.push(r).drop_last() =~= routes);
}

/// An upstream's token is what the environment holds under the name that it declares; one
/// that declares none has none.
pub proof fn law_an_upstreams_token_is_read_from_the_environment(
    upstreams: Map<Seq<char>, Upstream>,
    env: Map<Seq<char>, String>,
    name: Seq<char>,
)
    requires
        upstreams.contains_key(name),
    ensures
        upstreams[name].bearer_env matches Some(var) ==> (tokens_of(upstreams, env).contains_key(name) <==> env.contains_key(
            var@,
        )),
        upstreams[name].bearer_env matches Some(var) ==> (env.contains_key(var@) ==> tokens_of(upstreams, env)[name]
            == env[var@]@),
        upstreams[name].bearer_env is None ==> !tokens_of(upstreams, env).contains_key(name),
{
}

/// An application starts exactly where its manifest is sound and every path can be routed.
pub proof fn law_only_a_sound_manifest_starts(m: Manifest)
    ensures
        boot_fault(m) is None <==> crate::validation::manifest_fault(m) is None && crate::validation::first_fault(
            0,
            m.routes@.len() as int,
            crate::router::path_fault(m.routes@),
        ) is None,
        crate::validation::manifest_fault(m) is Some ==> boot_fault(m) == crate::validation::manifest_fault(m),
{
}

/// Agents, behaviours and flows run a model, and nothing else does.
pub proof fn law_agents_behaviours_and_flows_run_a_model(op: Op)
    ensures
        runs_model(op) <==> op is Agent || op is Behaviour || op is Flow,
{
}

/// An invocation may nest up to the ceiling and no deeper; what is invoked is one deeper than
/// what invokes it.
pub proof fn law_an_invocation_may_nest_up_to_the_ceiling(depth: u32, max: u32)
    ensures
        too_deep(depth, max) is None <==> depth < max,
        too_deep(depth, max) matches Some(r) ==> r.status == 508,
        depth < u32::MAX ==> deeper(depth) == depth + 1,
        deeper(depth) >= depth,
{
}

/// A parameter can be decoded twice only where it can be decoded once, and what that gives
/// can be decoded again.
pub proof fn law_a_parameter_is_decoded_twice_or_not_at_all(value: Seq<char>)
    ensures
        !clean(value) ==> !decodable(value),
        !clean(decoded(value, false)) ==> !decodable(value),
        is_ascii_chars(value) && is_ascii_chars(decoded(value, false)) ==> decodable(value),
{
    if is_ascii_chars(value) && is_ascii_chars(decoded(value, false)) {
        crate::percent::lemma_ascii_is_clean(value);
        crate::percent::lemma_ascii_is_clean(decoded(value, false));
    }
}

} // verus!
