//! The order of the request path.
//!
//! 1. A cross-origin preflight is answered before anything else can reject it.
//! 2. The caller is authenticated, once.
//! 3. The rate limit is keyed by the caller, or by client address when anonymous.
//! 4. The request is handed to the control plane or dispatched.
//! 5. Response headers are applied to every exit path.
//!
//! The control plane comes behind the first three steps too. [`Known`], [`Counted`] and
//! [`Work`] are made in that order, each from the one before.

use crate::app::App;
use crate::auth::{AuthError, Authenticator, Principal, PrincipalKind, PrincipalView};
use crate::http::{
    AskView, Header, PylonRequest, PylonResponse, ResponseView, add_header, error_response, header_texts, text_map,
};
use crate::manifest::{CorsConfig, SecurityHeaders, ServerConfig};
use crate::middleware::{
    Cors, RateDecision, cors_headers, origin_text, preflight_headers, security_headers, security_list,
};
use crate::table::Table;
use crate::text::{after_prefix, cat2, cat3, decimal, decimal_text, lowered, same, strip_prefix, texts, to_lower};
use vstd::prelude::*;

verus! {

/// The largest body that is read.
pub const MAX_BODY_BYTES: usize = 33_554_432;

/// How much of an oversized body is read and thrown away before it is refused:
/// closing on a client that is still sending destroys the answer before the client
/// reads it.
pub const DRAIN_BYTES: usize = 8_388_608;

/// Headers by their names in lower case, the last of a name standing for it.
pub open spec fn header_map(list: Seq<Header>) -> Map<Seq<char>, Seq<char>>
    decreases list.len(),
{
    if list.len() == 0 {
        Map::empty()
    } else {
        header_map(list.drop_last()).insert(lowered(list.last().0), list.last().1)
    }
}

/// Headers by their names in lower case.
pub fn header_table(list: &Vec<(String, String)>) -> (r: Table<String>)
    ensures
        text_map(r@) == header_map(header_texts(list@)),
{
    let ghost all = header_texts(list@);
    let mut out: Table<String> = Table::new();
    let mut i: usize = 0;
    assert(text_map(out@) =~= header_map(all.take(0)));
    while i < list.len()
        invariant
            i <= list@.len(),
            all == header_texts(list@),
            text_map(out@) == header_map(all.take(i as int)),
        decreases list.len() - i,
    {
        let name = to_lower(list[i].0.as_str());
        let value = list[i].1.clone();
        let ghost was = out@;
        out.insert(name.as_str(), value);
        proof {
            assert(all.take(i + 1).drop_last() =~= all.take(i as int));
            assert(all.take(i + 1).last() == (list@[i as int].0@, list@[i as int].1@));
            assert(text_map(out@) =~= text_map(was).insert(name@, value@));
        }
        i = i + 1;
    }
    assert(all.take(all.len() as int) =~= all);
    out
}

/// The origin that some headers name.
pub open spec fn origin_of(headers: Map<Seq<char>, String>) -> Option<Seq<char>> {
    if headers.contains_key("origin"@) {
        Some(headers["origin"@]@)
    } else {
        None
    }
}

/// The origin that some headers name.
pub fn request_origin(headers: &Table<String>) -> (r: Option<&str>)
    ensures
        origin_text(r) == origin_of(headers@),
{
    match headers.get("origin") {
        Some(o) => Some(o.as_str()),
        None => None,
    }
}

/// A response with the cross-origin headers that its caller is owed.
pub open spec fn with_cors(res: ResponseView, c: CorsConfig, origin: Option<Seq<char>>) -> ResponseView {
    if c.enabled {
        ResponseView { headers: res.headers + cors_headers(c, origin), ..res }
    } else {
        res
    }
}

fn append_headers(list: &mut Vec<(String, String)>, more: Vec<(String, String)>)
    ensures
        header_texts(final(list)@) == header_texts(old(list)@) + header_texts(more@),
{
    let ghost start = header_texts(list@);
    let ghost all = header_texts(more@);
    let mut i: usize = 0;
    assert(start + all.take(0) =~= start);
    while i < more.len()
        invariant
            i <= more@.len(),
            all == header_texts(more@),
            header_texts(list@) == start + all.take(i as int),
        decreases more.len() - i,
    {
        add_header(list, more[i].0.as_str(), more[i].1.as_str());
        proof {
            assert(start + all.take(i + 1) =~= (start + all.take(i as int)).push(all[i as int]));
        }
        i = i + 1;
    }
    assert(all.take(all.len() as int) =~= all);
}

/// Adds the cross-origin headers, if they are enabled.
pub fn finish_cors(res: &mut PylonResponse, cors: &Cors, origin: Option<&str>)
    ensures
        final(res)@ == with_cors(old(res)@, cors.cfg, origin_text(origin)),
{
    if cors.cfg.enabled {
        let more = cors.headers_for(origin);
        let mut list: Vec<(String, String)> = Vec::new();
        std::mem::swap(&mut list, &mut res.headers);
        append_headers(&mut list, more);
        res.headers = list;
    }
}

/// The answer to a preflight, where it is one.
pub open spec fn preflight_answer(c: CorsConfig, method: Seq<char>, origin: Option<Seq<char>>) -> Option<ResponseView> {
    if method == "OPTIONS"@ && c.enabled {
        Some(
            match preflight_headers(c, origin) {
                Some(headers) => ResponseView { status: 204, headers, body: Seq::empty() },
                None => error_response(403, "origin not allowed"@),
            },
        )
    } else {
        None
    }
}

/// Answers a preflight.
pub fn preflight(cors: &Cors, method: &str, origin: Option<&str>) -> (r: Option<PylonResponse>)
    ensures
        match r {
            Some(res) => preflight_answer(cors.cfg, method@, origin_text(origin)) == Some(res@),
            None => preflight_answer(cors.cfg, method@, origin_text(origin)) is None,
        },
{
    if same(method, "OPTIONS") && cors.cfg.enabled {
        match cors.preflight(origin) {
            Some(headers) => {
                let body: Vec<u8> = Vec::new();
                assert(body@ =~= Seq::empty());
                Some(PylonResponse { status: 204, headers, body })
            },
            None => Some(PylonResponse::error(403, "origin not allowed")),
        }
    } else {
        None
    }
}

/// What a caller whose credential is no good is answered.
pub open spec fn unauthorised(message: Seq<char>, c: CorsConfig, origin: Option<Seq<char>>) -> ResponseView {
    with_cors(
        crate::app::with_header(
            error_response(401, message),
            "www-authenticate"@,
            "Bearer realm=\"webcortex\""@,
        ),
        c,
        origin,
    )
}

/// The message of a refused credential.
pub open spec fn refusal_text(e: AuthError) -> Seq<char> {
    match e@ {
        crate::auth::AuthErrorView::Invalid(m) => m,
        crate::auth::AuthErrorView::Expired(m) => m,
        crate::auth::AuthErrorView::Malformed(m) => m,
    }
}

/// What comes of a request at the edge.
pub enum Edge {
    /// It is answered; the second text stands for the caller in the log.
    Answered(PylonResponse, String),
    /// The caller is known.
    Known(Principal),
}

/// Goes on with what the authenticator said.
pub fn authenticated(reply: Result<Principal, AuthError>, cors: &Cors, origin: Option<&str>) -> (r: Edge)
    ensures
        match reply {
            Ok(p) => r == Edge::Known(p),
            Err(e) => r matches Edge::Answered(res, who) && who@ == "invalid"@ && res@ == unauthorised(
                refusal_text(e),
                cors.cfg,
                origin_text(origin),
            ),
        },
{
    match reply {
        Ok(p) => Edge::Known(p),
        Err(e) => {
            let mut res = PylonResponse::error(e.status(), e.message());
            add_header(&mut res.headers, "www-authenticate", "Bearer realm=\"webcortex\"");
            finish_cors(&mut res, cors, origin);
            Edge::Answered(res, "invalid".to_owned())
        },
    }
}

/// Takes a request in: answers a preflight, and establishes who calls.
pub fn arrive(cors: &Cors, auth: &Authenticator, method: &str, headers: &Table<String>) -> (r: Edge)
    requires
        auth.is_ready(headers@),
    ensures
        match preflight_answer(cors.cfg, method@, origin_of(headers@)) {
            Some(res) => r matches Edge::Answered(said, who) && said@ == res && who@ == "-"@,
            None => match r {
                Edge::Known(p) => auth.outcome(headers@, Ok(p)),
                Edge::Answered(said, who) => who@ == "invalid"@ && exists|e: AuthError|
                    #![trigger refusal_text(e)]
                    auth.outcome(headers@, Err(e)) && said@ == unauthorised(
                        refusal_text(e),
                        cors.cfg,
                        origin_of(headers@),
                    ),
            },
        },
{
    let origin = request_origin(headers);
    if let Some(res) = preflight(cors, method, origin) {
        return Edge::Answered(res, "-".to_owned());
    }
    let reply = auth.authenticate(headers);
    authenticated(reply, cors, origin)
}

/// What a caller is counted under: their identity, so that one tenant cannot
/// exhaust another, or the client address of anonymous traffic.
pub open spec fn rate_key_of(p: PrincipalView, client_ip: Seq<char>) -> Seq<char> {
    if p.kind == PrincipalKind::Anonymous {
        "ip:"@ + client_ip
    } else {
        "id:"@ + p.id
    }
}

/// What a caller is counted under.
pub fn rate_key(principal: &Principal, client_ip: &str) -> (r: String)
    ensures
        r@ == rate_key_of(principal@, client_ip@),
{
    if principal.is_anonymous() {
        cat2("ip:", client_ip)
    } else {
        cat2("id:", principal.id.as_str())
    }
}

/// What a caller over its rate is answered.
pub open spec fn too_many(d: RateDecision, c: CorsConfig, origin: Option<Seq<char>>) -> ResponseView {
    with_cors(
        crate::app::with_header(
            crate::app::with_header(
                crate::app::with_header(
                    error_response(429, "rate limit exceeded"@),
                    "retry-after"@,
                    decimal(d.retry_after_secs as nat),
                ),
                "x-ratelimit-limit"@,
                decimal(d.limit as nat),
            ),
            "x-ratelimit-remaining"@,
            "0"@,
        ),
        c,
        origin,
    )
}

/// Refuses a caller over its rate.
pub fn rate_limited(d: &RateDecision, cors: &Cors, origin: Option<&str>) -> (r: Option<PylonResponse>)
    ensures
        r is Some <==> !d.allowed,
        r matches Some(res) ==> res@ == too_many(*d, cors.cfg, origin_text(origin)),
{
    if d.allowed {
        return None;
    }
    let mut res = PylonResponse::error(429, "rate limit exceeded");
    add_header(&mut res.headers, "retry-after", decimal_text(d.retry_after_secs).as_str());
    add_header(&mut res.headers, "x-ratelimit-limit", decimal_text(d.limit as u64).as_str());
    add_header(&mut res.headers, "x-ratelimit-remaining", "0");
    finish_cors(&mut res, cors, origin);
    Some(res)
}

/// Whether a piece still fits behind what was read of a body.
pub fn fits(read: usize, more: usize) -> (r: bool)
    ensures
        r == (read + more <= MAX_BODY_BYTES),
{
    more <= MAX_BODY_BYTES && read <= MAX_BODY_BYTES - more
}

/// What the sender of a body that is too large is answered.
pub open spec fn too_large_response() -> ResponseView {
    error_response(413, "request body exceeds "@ + decimal(MAX_BODY_BYTES as nat) + " bytes"@)
}

/// Refuses a body that is too large.
pub fn too_large(cors: &Cors, origin: Option<&str>) -> (r: PylonResponse)
    ensures
        r@ == with_cors(too_large_response(), cors.cfg, origin_text(origin)),
{
    let mut res = PylonResponse::error(
        413,
        cat3("request body exceeds ", decimal_text(MAX_BODY_BYTES as u64).as_str(), " bytes").as_str(),
    );
    finish_cors(&mut res, cors, origin);
    res
}

/// What a path goes on with behind the control prefix, if it starts with it.
pub fn control_path(server: &ServerConfig, path: &str) -> (r: Option<String>)
    ensures
        match r {
            Some(rest) => after_prefix(path@, server.control_prefix@) == Some(rest@),
            None => after_prefix(path@, server.control_prefix@) is None,
        },
{
    strip_prefix(path, server.control_prefix.as_str())
}

/// How long a request may take, in seconds: a model loop routinely outlasts an
/// ordinary handler's ceiling.
pub open spec fn seconds_for(server: ServerConfig, agent_timeout_secs: u64, model_loop: bool) -> u64 {
    if model_loop && agent_timeout_secs > server.request_timeout_secs {
        agent_timeout_secs
    } else {
        server.request_timeout_secs
    }
}

/// How long a request may take, in seconds.
pub fn time_limit(server: &ServerConfig, agent_timeout_secs: u64, model_loop: bool) -> (r: u64)
    ensures
        r == seconds_for(*server, agent_timeout_secs, model_loop),
{
    if model_loop && agent_timeout_secs > server.request_timeout_secs {
        agent_timeout_secs
    } else {
        server.request_timeout_secs
    }
}

/// What a request asks before its body is read.
pub open spec fn incoming(
    method: Seq<char>,
    path: Seq<char>,
    query: Map<Seq<char>, Seq<char>>,
    headers: Map<Seq<char>, Seq<char>>,
    principal: PrincipalView,
) -> AskView {
    AskView {
        method,
        path,
        path_params: Map::empty(),
        query,
        headers,
        body: Seq::empty(),
        route_id: None,
        principal,
        depth: 0,
    }
}

/// The origin that the headers of a request name.
pub open spec fn asking_origin(ask: AskView) -> Option<Seq<char>> {
    if ask.headers.contains_key("origin"@) {
        Some(ask.headers["origin"@])
    } else {
        None
    }
}

/// A request whose caller is known, and which has not been counted yet.
pub struct Known {
    asked: PylonRequest,
}

impl View for Known {
    type V = AskView;

    closed spec fn view(&self) -> AskView {
        self.asked@
    }
}

/// A request that was counted, and whose body is to be read.
pub struct Counted {
    asked: PylonRequest,
}

impl View for Counted {
    type V = AskView;

    closed spec fn view(&self) -> AskView {
        self.asked@
    }
}

/// What is done with a request once its body was read.
pub enum Work {
    /// It is answered; the second text stands for the caller in the log.
    Refused(PylonResponse, String),
    /// It is for the control plane, under what follows the prefix.
    Control { rest: String, asked: PylonRequest },
    /// It is dispatched, and may take so many seconds.
    Dispatch { asked: PylonRequest, secs: u64 },
}

impl Known {
    /// Takes a request in: a preflight is answered before anything else can reject it, and
    /// the caller is authenticated, once. An answer comes with what stands for the caller
    /// in the log.
    pub fn enter(
        cors: &Cors,
        auth: &Authenticator,
        method: String,
        path: String,
        query: Table<String>,
        headers: Table<String>,
    ) -> (r: Result<Known, (PylonResponse, String)>)
        requires
            auth.is_ready(headers@),
        ensures
            match preflight_answer(cors.cfg, method@, origin_of(headers@)) {
                Some(res) => r matches Err((said, who)) && said@ == res && who@ == "-"@,
                None => match r {
                    Ok(k) => exists|p: Principal| #[trigger]
                        auth.outcome(headers@, Ok(p)) && k@ == incoming(
                            method@,
                            path@,
                            text_map(query@),
                            text_map(headers@),
                            p@,
                        ),
                    Err((said, who)) => who@ == "invalid"@ && exists|e: AuthError|
                        #![trigger refusal_text(e)]
                        auth.outcome(headers@, Err(e)) && said@ == unauthorised(
                            refusal_text(e),
                            cors.cfg,
                            origin_of(headers@),
                        ),
                },
            },
    {
        match arrive(cors, auth, method.as_str(), &headers) {
            Edge::Answered(res, who) => Err((res, who)),
            Edge::Known(principal) => {
                let ghost p = principal;
                let asked = PylonRequest {
                    method,
                    path,
                    path_params: Table::new(),
                    query,
                    headers,
                    body: Vec::new(),
                    route_id: None,
                    principal,
                    depth: 0,
                };
                proof {
                    assert(text_map(asked.path_params@) =~= Map::empty());
                    assert(asked.body@ =~= Seq::empty());
                    assert(auth.outcome(asked.headers@, Ok(p)));
                }
                Ok(Known { asked })
            },
        }
    }

    /// What the caller is counted under.
    pub fn key(&self, client_ip: &str) -> (r: String)
        ensures
            r@ == rate_key_of(self@.principal, client_ip@),
    {
        rate_key(&self.asked.principal, client_ip)
    }

    /// Goes on with what the rate limit said of the caller's key, if there is a limit.
    pub fn counted(self, decision: Option<&RateDecision>, cors: &Cors) -> (r: Result<Counted, (PylonResponse, String)>)
        ensures
            match decision {
                Some(d) => if d.allowed {
                    r matches Ok(c) && c@ == self@
                } else {
                    r matches Err((res, who)) && res@ == too_many(*d, cors.cfg, asking_origin(self@)) && who@
                        == self@.principal.id
                },
                None => r matches Ok(c) && c@ == self@,
            },
    {
        if let Some(d) = decision {
            let origin = request_origin(&self.asked.headers);
            if let Some(res) = rate_limited(d, cors, origin) {
                return Err((res, self.asked.principal.id.clone()));
            }
        }
        Ok(Counted { asked: self.asked })
    }
}

impl Counted {
    /// Goes on with the body that was read, unless it was too large: to the control plane,
    /// or to the application.
    pub fn read(self, body: Option<Vec<u8>>, app: &App, agent_timeout_secs: u64, cors: &Cors) -> (r: Work)
        ensures
            match body {
                None => r matches Work::Refused(res, who) && res@ == with_cors(
                    too_large_response(),
                    cors.cfg,
                    asking_origin(self@),
                ) && who@ == self@.principal.id,
                Some(b) => match after_prefix(self@.path, app.manifest.server.control_prefix@) {
                    Some(behind) => r matches Work::Control { rest, asked } && rest@ == behind && asked@ == (AskView {
                        body: b@,
                        ..self@
                    }),
                    None => r matches Work::Dispatch { asked, secs } && asked@ == (AskView { body: b@, ..self@ }) && secs
                        == seconds_for(app.manifest.server, agent_timeout_secs, app.loops(self@.method, self@.path)),
                },
            },
    {
        let mut asked = self.asked;
        match body {
            None => {
                let res = too_large(cors, request_origin(&asked.headers));
                Work::Refused(res, asked.principal.id)
            },
            Some(b) => {
                asked.body = b;
                assert(asked@ =~= (AskView { body: b@, ..self@ }));
                let server = &app.manifest.server;
                match control_path(server, asked.path.as_str()) {
                    Some(rest) => Work::Control { rest, asked },
                    None => {
                        let looping = app.runs_a_model_loop(asked.method.as_str(), asked.path.as_str());
                        let secs: u64 = time_limit(server, agent_timeout_secs, looping);
                        Work::Dispatch { asked, secs }
                    },
                }
            },
        }
    }
}

/// What is answered for a handler that takes too long.
pub fn timed_out() -> (r: PylonResponse)
    ensures
        r@ == error_response(504, "handler exceeded the request timeout"@),
{
    PylonResponse::error(504, "handler exceeded the request timeout")
}

/// What is answered where a handler panicked. What it said is for the log alone.
pub fn crashed() -> (r: PylonResponse)
    ensures
        r@ == error_response(500, "internal error"@),
{
    PylonResponse::error(500, "internal error")
}

/// A response as it leaves.
pub open spec fn sealed(res: ResponseView, request_id: Seq<char>, cfg: SecurityHeaders) -> ResponseView {
    ResponseView {
        headers: res.headers.push(("x-request-id"@, request_id)) + security_list(cfg, false),
        ..res
    }
}

/// Puts the request's id and the security headers on a response, on every exit path.
pub fn seal(res: &mut PylonResponse, request_id: &str, cfg: &SecurityHeaders)
    ensures
        final(res)@ == sealed(old(res)@, request_id@, *cfg),
{
    let mut list: Vec<(String, String)> = Vec::new();
    std::mem::swap(&mut list, &mut res.headers);
    add_header(&mut list, "x-request-id", request_id);
    append_headers(&mut list, security_headers(cfg, false));
    res.headers = list;
}

/// Whatever a response was, it leaves with its request's id, and with the security
/// headers where they are enabled; its status and its body are not touched.
pub proof fn law_every_exit_carries_the_headers(res: ResponseView, request_id: Seq<char>, cfg: SecurityHeaders, i: int)
    requires
        0 <= i < security_list(cfg, false).len(),
    ensures
        sealed(res, request_id, cfg).headers.contains(("x-request-id"@, request_id)),
        sealed(res, request_id, cfg).headers.contains(security_list(cfg, false)[i]),
        sealed(res, request_id, cfg).status == res.status,
        sealed(res, request_id, cfg).body == res.body,
{
    let all = sealed(res, request_id, cfg).headers;
    let n = res.headers.len() as int;
    assert(all[n] == ("x-request-id"@, request_id));
    assert(all[n + 1 + i] == security_list(cfg, false)[i]);
}

/// Two identified callers are counted apart, and no anonymous one is counted with an
/// identified one.
pub proof fn law_tenants_are_counted_apart(a: PrincipalView, b: PrincipalView, ip_a: Seq<char>, ip_b: Seq<char>)
    requires
        a.kind != PrincipalKind::Anonymous,
        b.kind != PrincipalKind::Anonymous ==> a.id != b.id,
    ensures
        rate_key_of(a, ip_a) != rate_key_of(b, ip_b),
{
    reveal_strlit("ip:");
    reveal_strlit("id:");
    let x = rate_key_of(a, ip_a);
    let y = rate_key_of(b, ip_b);
    if b.kind == PrincipalKind::Anonymous {
        assert(x[1] != y[1]);
    } else if x == y {
        assert(x.skip(3) =~= a.id);
        assert(y.skip(3) =~= b.id);
    }
}

/// Headers are found by their names, whatever the case, and the last of a name stands for it.
pub proof fn law_headers_are_found_by_their_names(list: Seq<Header>, name: Seq<char>, value: Seq<char>, other: Seq<char>)
    ensures
        ({
            let before = header_map(list);
            let after = header_map(list.push((name, value)));
            &&& header_map(Seq::empty()).dom().is_empty()
            &&& after.contains_key(lowered(name)) && after[lowered(name)] == value
            &&& other != lowered(name) ==> after.contains_key(other) == before.contains_key(other) && (before.contains_key(
                other,
            ) ==> after[other] == before[other])
        }),
{
    assert(list.push((name, value)).drop_last() =~= list);
}

/// A preflight is answered exactly where cross-origin requests are configured: without a body
/// for an origin that is allowed, and with a refusal for any other.
pub proof fn law_a_preflight_is_answered(c: CorsConfig, method: Seq<char>, origin: Seq<char>)
    ensures
        preflight_answer(c, method, Some(origin)) is Some <==> method == "OPTIONS"@ && c.enabled,
        preflight_answer(c, method, Some(origin)) matches Some(r) ==> ({
            let allowed = texts(c.allow_origins@).contains("*"@) || texts(c.allow_origins@).contains(origin);
            &&& allowed ==> r.status == 204 && r.body.len() == 0 && Some(r.headers) == preflight_headers(c, Some(origin))
            &&& !allowed ==> r.status == 403
        }),
{
}

/// A response gains the headers that its origin is owed and is otherwise as it was; where
/// cross-origin requests are not configured, it gains none.
pub proof fn law_a_response_gains_what_its_origin_is_owed(res: ResponseView, c: CorsConfig, origin: Option<Seq<char>>)
    ensures
        with_cors(res, c, origin).status == res.status,
        with_cors(res, c, origin).body == res.body,
        c.enabled ==> with_cors(res, c, origin).headers == res.headers + cors_headers(c, origin),
        !c.enabled ==> with_cors(res, c, origin) == res,
{
}

/// A caller whose credential is no good is told 401 and how to authenticate; one over its
/// rate 429, and when to come back; and one whose body is too large 413.
pub proof fn law_a_refusal_says_what_to_do(
    message: Seq<char>,
    d: RateDecision,
    c: CorsConfig,
    origin: Option<Seq<char>>,
)
    ensures
        unauthorised(message, c, origin).status == 401,
        unauthorised(message, c, origin).body == error_response(401, message).body,
        unauthorised(message, c, origin).headers.contains(("www-authenticate"@, "Bearer realm=\"webcortex\""@)),
        too_many(d, c, origin).status == 429,
        too_many(d, c, origin).headers.contains(("retry-after"@, decimal(d.retry_after_secs as nat))),
        too_many(d, c, origin).headers.contains(("x-ratelimit-limit"@, decimal(d.limit as nat))),
        too_many(d, c, origin).headers.contains(("x-ratelimit-remaining"@, "0"@)),
        too_large_response().status == 413,
{
    let u = unauthorised(message, c, origin).headers;
    assert(u[1] == ("www-authenticate"@, "Bearer realm=\"webcortex\""@));
    let t = too_many(d, c, origin).headers;
    assert(t[1] == ("retry-after"@, decimal(d.retry_after_secs as nat)));
    assert(t[2] == ("x-ratelimit-limit"@, decimal(d.limit as nat)));
    assert(t[3] == ("x-ratelimit-remaining"@, "0"@));
}

/// A request that runs a model may take as long as models may, and never less than any other.
pub proof fn law_a_model_loop_may_take_longer(server: ServerConfig, agent_timeout_secs: u64)
    ensures
        seconds_for(server, agent_timeout_secs, false) == server.request_timeout_secs,
        seconds_for(server, agent_timeout_secs, true) >= server.request_timeout_secs,
        seconds_for(server, agent_timeout_secs, true) >= agent_timeout_secs,
        seconds_for(server, agent_timeout_secs, true) == server.request_timeout_secs || seconds_for(
            server,
            agent_timeout_secs,
            true,
        ) == agent_timeout_secs,
{
}

/// A request that comes in is taken as it was sent, for whom it was sent, and at no depth.
pub proof fn law_a_request_is_taken_as_it_was_sent(
    method: Seq<char>,
    path: Seq<char>,
    query: Map<Seq<char>, Seq<char>>,
    headers: Map<Seq<char>, Seq<char>>,
    principal: PrincipalView,
)
    ensures
        ({
            let a = incoming(method, path, query, headers, principal);
            &&& a.method == method && a.path == path && a.query == query && a.headers == headers
            &&& a.principal == principal && a.depth == 0 && a.route_id is None && a.body.len() == 0
            &&& headers.contains_key("origin"@) ==> asking_origin(a) == Some(headers["origin"@])
            &&& !headers.contains_key("origin"@) ==> asking_origin(a) is None
        }),
{
}

/// A response leaves with its status and its body as they were.
pub proof fn law_sealing_keeps_the_answer(res: ResponseView, request_id: Seq<char>, cfg: SecurityHeaders)
    ensures
        sealed(res, request_id, cfg).status == res.status,
        sealed(res, request_id, cfg).body == res.body,
        res.headers.is_prefix_of(sealed(res, request_id, cfg).headers),
        sealed(res, request_id, cfg).headers.contains(("x-request-id"@, request_id)),
{
    let h = sealed(res, request_id, cfg).headers;
    let n = res.headers.len() as int;
    assert(h.subrange(0, n) =~= res.headers);
    assert(h[n] == ("x-request-id"@, request_id));
}

/// A caller is told why their credential was refused, in the words of the refusal.
pub proof fn law_a_refusal_keeps_its_words(e: AuthError, m: Seq<char>)
    ensures
        e@ == crate::auth::AuthErrorView::Invalid(m) || e@ == crate::auth::AuthErrorView::Expired(m) || e@
            == crate::auth::AuthErrorView::Malformed(m) ==> refusal_text(e) == m,
{
}

/// The origin of a request is the one that its header names.
pub proof fn law_an_origin_is_the_one_that_is_named(headers: Map<Seq<char>, String>)
    ensures
        headers.contains_key("origin"@) ==> origin_of(headers) == Some(headers["origin"@]@),
        !headers.contains_key("origin"@) ==> origin_of(headers) is None,
{
}

} // verus!
