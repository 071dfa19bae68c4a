//! Requests and responses as the runtime sees them.
//!
//! An op may be invoked by the HTTP server, by an agent calling a tool in-process,
//! or by a test. These are the types every entry point funnels into.

use crate::auth::{Principal, PrincipalKind, PrincipalView};
use crate::json::{Json, JsonView, Members, NumberView, is_plain, json_parsed_bytes, json_text, real_reading};
use crate::percent::{clean, decode, decoded, is_clean};
use crate::table::{Table, pairs_map};
use crate::text::{same, split, split_once, texts};
use vstd::prelude::*;
use vstd::string::*;
use vstd::utf8::encode_utf8;

verus! {

#[derive(Debug)]
pub struct PylonRequest {
    pub method: String,
    pub path: String,
    pub path_params: Table<String>,
    pub query: Table<String>,
    pub headers: Table<String>,
    pub body: Vec<u8>,
    /// Set once the router has matched. `None` for synthetic in-process calls.
    pub route_id: Option<u32>,
    /// Established once at the edge and carried unchanged from there. An agent
    /// tool call arrives with a *delegated* principal whose scopes are a subset
    /// of the caller's.
    pub principal: Principal,
    /// How many in-process invocations deep this request is: zero for anything
    /// arriving over HTTP, one more for every tool call on the way.
    pub depth: u32,
}

/// What a [`PylonRequest`] asks.
#[verifier::ext_equal]
pub struct AskView {
    pub method: Seq<char>,
    pub path: Seq<char>,
    pub path_params: Map<Seq<char>, Seq<char>>,
    pub query: Map<Seq<char>, Seq<char>>,
    pub headers: Map<Seq<char>, Seq<char>>,
    pub body: Seq<u8>,
    pub route_id: Option<u32>,
    pub principal: PrincipalView,
    pub depth: u32,
}

impl View for PylonRequest {
    type V = AskView;

    open spec fn view(&self) -> AskView {
        AskView {
            method: self.method@,
            path: self.path@,
            path_params: text_map(self.path_params@),
            query: text_map(self.query@),
            headers: text_map(self.headers@),
            body: self.body@,
            route_id: self.route_id,
            principal: self.principal@,
            depth: self.depth,
        }
    }
}

/// A request without parameters or headers, made by the process itself.
pub open spec fn plain_ask(method: Seq<char>, path: Seq<char>, body: Seq<u8>, principal: PrincipalView) -> AskView {
    AskView {
        method,
        path,
        path_params: Map::empty(),
        query: Map::empty(),
        headers: Map::empty(),
        body,
        route_id: None,
        principal,
        depth: 0,
    }
}

/// The bytes of a body are not JSON.
#[derive(Debug, Clone, Copy, PartialEq, Eq, Structural)]
pub struct BadJson;

/// What a body holds: `null` where there is none, nothing where it is not JSON.
pub open spec fn body_json(body: Seq<u8>) -> Option<JsonView> {
    if body.len() == 0 {
        Some(JsonView::Null)
    } else {
        json_parsed_bytes(body)
    }
}

/// The value that a text of a path or a query stands for: an integer, a number,
/// a truth value, or itself.
pub open spec fn coerced(s: Seq<char>) -> JsonView {
    match crate::text::i64_reading(s) {
        Some(n) => JsonView::Number(NumberView::Int(n)),
        None => match real_reading(s) {
            Some(Some(t)) => JsonView::Number(NumberView::Real(t)),
            Some(None) => JsonView::Null,
            None => if s == "true"@ {
                JsonView::Bool(true)
            } else if s == "false"@ {
                JsonView::Bool(false)
            } else {
                JsonView::Str(s)
            },
        },
    }
}

/// Path and query values arrive as strings but are semantically typed.
pub fn coerce_scalar(s: &str) -> (r: Json)
    ensures
        r@ == coerced(s@),
{
    if let Some(i) = crate::text::parse_i64(s) {
        return if i >= 0 {
            Json::Number(crate::json::Number::Unsigned(i as u64))
        } else {
            Json::Number(crate::json::Number::Negative(i))
        };
    }
    if let Some(j) = crate::json::parse_real(s) {
        return j;
    }
    if same(s, "true") {
        Json::Bool(true)
    } else if same(s, "false") {
        Json::Bool(false)
    } else {
        Json::str(s)
    }
}

impl PylonRequest {
    /// What a name stands for: a path parameter, else a query parameter, else a
    /// top-level member of a JSON body.
    pub open spec fn argument(&self, name: Seq<char>) -> Option<JsonView> {
        if self.path_params@.contains_key(name) {
            Some(coerced(self.path_params@[name]@))
        } else if self.query@.contains_key(name) {
            Some(coerced(self.query@[name]@))
        } else {
            match body_json(self.body@) {
                Some(JsonView::Object(m)) => if m.contains_key(name) {
                    Some(m[name])
                } else {
                    None
                },
                _ => None,
            }
        }
    }

    /// An anonymous request without parameters, headers or body.
    pub fn synthetic(method: &str, path: &str) -> (r: PylonRequest)
        ensures
            r.method@ == method@,
            r.path@ == path@,
            r.path_params@ == Map::<Seq<char>, String>::empty(),
            r.query@ == Map::<Seq<char>, String>::empty(),
            r.headers@ == Map::<Seq<char>, String>::empty(),
            r.body@.len() == 0,
            r.route_id is None,
            r.principal.id@ == "anonymous"@,
            r.principal.kind == PrincipalKind::Anonymous,
            r.principal.scopes@.len() == 0,
            r.principal.claims@ == Map::<Seq<char>, JsonView>::empty(),
            r.depth == 0,
    {
        PylonRequest {
            method: method.to_owned(),
            path: path.to_owned(),
            path_params: Table::new(),
            query: Table::new(),
            headers: Table::new(),
            body: Vec::new(),
            route_id: None,
            principal: Principal::anonymous(),
            depth: 0,
        }
    }

    /// A request of the process itself on behalf of a principal.
    pub fn plain(method: &str, path: &str, body: Vec<u8>, principal: Principal) -> (r: PylonRequest)
        ensures
            r@ == plain_ask(method@, path@, body@, principal@),
    {
        let mut req = PylonRequest::synthetic(method, path);
        req.body = body;
        req.principal = principal;
        assert(req@ =~= plain_ask(method@, path@, body@, principal@));
        req
    }

    /// A synthetic request carrying the given scopes. Test and tooling helper.
    pub fn synthetic_with_scopes(method: &str, path: &str, scopes: &[&str]) -> (r: PylonRequest)
        ensures
            r.method@ == method@,
            r.path@ == path@,
            r.path_params@ == Map::<Seq<char>, String>::empty(),
            r.query@ == Map::<Seq<char>, String>::empty(),
            r.headers@ == Map::<Seq<char>, String>::empty(),
            r.body@.len() == 0,
            r.route_id is None,
            r.principal.id@ == "local"@,
            r.principal.kind == PrincipalKind::ApiKey,
            texts(r.principal.scopes@) == scopes@.map_values(|s: &str| s@),
            r.principal.claims@ == Map::<Seq<char>, JsonView>::empty(),
            r.depth == 0,
    {
        let mut list: Vec<String> = Vec::new();
        let mut i: usize = 0;
        while i < scopes.len()
            invariant
                i <= scopes@.len(),
                list@.len() == i,
                forall|k: int| 0 <= k < i ==> list@[k]@ == scopes@[k]@,
            decreases scopes.len() - i,
        {
            list.push(scopes[i].to_owned());
            i = i + 1;
        }
        assert(texts(list@) =~= scopes@.map_values(|s: &str| s@));
        let mut req = PylonRequest::synthetic(method, path);
        req.principal = Principal {
            id: "local".to_owned(),
            kind: PrincipalKind::ApiKey,
            scopes: list,
            claims: Members::new(),
        };
        req
    }

    /// Look a name up across path params, then query string, then a top-level
    /// key of a JSON body. Agents supply arguments as one flat object and
    /// should not have to know which of the three a given route used.
    pub fn lookup(&self, name: &str) -> (r: Option<Json>)
        ensures
            match r {
                Some(j) => self.argument(name@) == Some(j@),
                None => self.argument(name@) is None,
            },
    {
        if let Some(v) = self.path_params.get(name) {
            return Some(coerce_scalar(v.as_str()));
        }
        if let Some(v) = self.query.get(name) {
            return Some(coerce_scalar(v.as_str()));
        }
        match self.json_body() {
            Ok(Json::Object(m)) => match m.get(name) {
                Some(v) => Some(v.copy()),
                None => None,
            },
            _ => None,
        }
    }

    /// The body as JSON; `null` where there is none.
    pub fn json_body(&self) -> (r: Result<Json, BadJson>)
        ensures
            match r {
                Ok(j) => body_json(self.body@) == Some(j@),
                Err(_) => body_json(self.body@) is None,
            },
    {
        if self.body.len() == 0 {
            return Ok(Json::Null);
        }
        match crate::json::parse_bytes(&self.body) {
            Some(j) => Ok(j),
            None => Err(BadJson),
        }
    }

    /// The body as JSON; `null` where there is none or it is not JSON.
    pub fn json_body_or_null(&self) -> (r: Json)
        ensures
            r@ == (match body_json(self.body@) {
                Some(j) => j,
                None => JsonView::Null,
            }),
    {
        match self.json_body() {
            Ok(j) => j,
            Err(_) => Json::Null,
        }
    }
}

#[derive(Debug)]
pub struct PylonResponse {
    pub status: u16,
    pub headers: Vec<(String, String)>,
    pub body: Vec<u8>,
}

/// A header: its name and its value.
pub type Header = (Seq<char>, Seq<char>);

/// What a [`PylonResponse`] says.
#[verifier::ext_equal]
pub struct ResponseView {
    pub status: u16,
    pub headers: Seq<Header>,
    pub body: Seq<u8>,
}

/// The headers that a list of strings holds.
pub open spec fn header_texts(list: Seq<(String, String)>) -> Seq<Header> {
    list.map_values(|h: (String, String)| (h.0@, h.1@))
}

/// A header added to a list adds its texts.
pub proof fn lemma_header_push(list: Seq<(String, String)>, h: (String, String))
    ensures
        header_texts(list.push(h)) == header_texts(list).push((h.0@, h.1@)),
{
    assert(header_texts(list.push(h)) =~= header_texts(list).push((h.0@, h.1@)));
}

impl View for PylonResponse {
    type V = ResponseView;

    open spec fn view(&self) -> ResponseView {
        ResponseView { status: self.status, headers: header_texts(self.headers@), body: self.body@ }
    }
}

/// A response with a JSON body.
pub open spec fn json_response(status: u16, value: JsonView) -> ResponseView {
    ResponseView {
        status,
        headers: seq![("content-type"@, "application/json"@)],
        body: encode_utf8(json_text(value)),
    }
}

/// What an error response holds.
pub open spec fn error_json(status: u16, message: Seq<char>) -> JsonView {
    JsonView::Object(
        Map::empty().insert(
            "error"@,
            JsonView::Object(
                Map::empty().insert("status"@, JsonView::Number(NumberView::Int(status as int))).insert(
                    "message"@,
                    JsonView::Str(message),
                ),
            ),
        ),
    )
}

/// A response that says what went wrong.
pub open spec fn error_response(status: u16, message: Seq<char>) -> ResponseView {
    json_response(status, error_json(status, message))
}

/// A response with a plain text.
pub open spec fn text_response(status: u16, body: Seq<char>) -> ResponseView {
    ResponseView {
        status,
        headers: seq![("content-type"@, "text/plain; charset=utf-8"@)],
        body: encode_utf8(body),
    }
}

/// What a body stands for to an in-process caller: its JSON, else its text.
pub open spec fn body_value(body: Seq<u8>) -> JsonView {
    match json_parsed_bytes(body) {
        Some(j) => j,
        None => JsonView::Str(crate::text::lossy_text(body)),
    }
}

/// A list of one header.
pub fn one_header(name: &str, value: &str) -> (r: Vec<(String, String)>)
    ensures
        header_texts(r@) == seq![(name@, value@)],
{
    let mut r: Vec<(String, String)> = Vec::new();
    r.push((name.to_owned(), value.to_owned()));
    assert(header_texts(r@) =~= seq![(name@, value@)]);
    r
}

/// Adds a header at the end of a list.
pub fn add_header(list: &mut Vec<(String, String)>, name: &str, value: &str)
    ensures
        header_texts(final(list)@) == header_texts(old(list)@).push((name@, value@)),
{
    let h = (name.to_owned(), value.to_owned());
    proof {
        lemma_header_push(list@, h);
    }
    list.push(h);
}

impl PylonResponse {
    /// A response with a JSON body.
    pub fn json(status: u16, value: &Json) -> (r: PylonResponse)
        ensures
            r@ == json_response(status, value@),
            is_plain(value@, 127) ==> body_value(r.body@) == value@,
    {
        let text = value.to_text();
        PylonResponse {
            status,
            headers: one_header("content-type", "application/json"),
            body: text.as_str().as_bytes_vec(),
        }
    }

    /// A response that says what went wrong.
    pub fn error(status: u16, message: &str) -> (r: PylonResponse)
        ensures
            r@ == error_response(status, message@),
    {
        let mut inner = Members::new();
        inner.put("status", Json::num(status as u64));
        inner.put("message", Json::str(message));
        let mut outer = Members::new();
        outer.put("error", Json::Object(inner));
        PylonResponse::json(status, &Json::Object(outer))
    }

    /// A response with a plain text.
    pub fn text(status: u16, body: &str) -> (r: PylonResponse)
        ensures
            r@ == text_response(status, body@),
    {
        PylonResponse {
            status,
            headers: one_header("content-type", "text/plain; charset=utf-8"),
            body: body.as_bytes_vec(),
        }
    }

    /// Interpret the body as JSON so an in-process caller (an agent invoking a
    /// tool) gets structured data instead of bytes it has to re-parse.
    pub fn json_value(&self) -> (r: Json)
        ensures
            r@ == body_value(self.body@),
    {
        match crate::json::parse_bytes(&self.body) {
            Some(j) => j,
            None => Json::Str(crate::text::decode_lossy(&self.body)),
        }
    }
}

/// The texts that a table of strings holds.
pub open spec fn text_map(m: Map<Seq<char>, String>) -> Map<Seq<char>, Seq<char>> {
    m.map_values(|s: String| s@)
}

/// Whether a piece of a query can be decoded.
pub open spec fn pair_clean(piece: Seq<char>) -> bool {
    match crate::text::cut_once(piece, '=') {
        Some(p) => clean(p.0) && clean(p.1),
        None => clean(piece),
    }
}

/// Whether a query string can be decoded.
pub open spec fn query_clean(raw: Seq<char>) -> bool {
    let pieces = crate::text::split_on(raw, '&');
    forall|i: int| 0 <= i < pieces.len() && pieces[i].len() > 0 ==> pair_clean(#[trigger] pieces[i])
}

/// The map that the pieces of a query stand for: a later piece replaces an earlier
/// one with the same name, and a piece without `=` has an empty value.
pub open spec fn query_map(pieces: Seq<Seq<char>>) -> Map<Seq<char>, Seq<char>>
    decreases pieces.len(),
{
    if pieces.len() == 0 {
        Map::empty()
    } else {
        let before = query_map(pieces.drop_last());
        let piece = pieces.last();
        if piece.len() == 0 {
            before
        } else {
            match crate::text::cut_once(piece, '=') {
                Some(p) => before.insert(decoded(p.0, true), decoded(p.1, true)),
                None => before.insert(decoded(piece, true), decoded(""@, true)),
            }
        }
    }
}

proof fn lemma_empty_clean()
    ensures
        clean(""@),
{
    reveal_strlit("");
    assert(encode_utf8(""@).len() == 0) by {
        assert(""@ =~= Seq::<char>::empty());
    }
}

/// Whether a query string can be decoded.
pub fn query_is_clean(raw: &str) -> (r: bool)
    ensures
        r == query_clean(raw@),
{
    let pieces = split(raw, '&');
    let ghost all = texts(pieces@);
    let mut i: usize = 0;
    while i < pieces.len()
        invariant
            i <= pieces@.len(),
            all == texts(pieces@),
            all == crate::text::split_on(raw@, '&'),
            forall|k: int| 0 <= k < i && all[k].len() > 0 ==> pair_clean(#[trigger] all[k]),
        decreases pieces.len() - i,
    {
        let piece = pieces[i].as_str();
        assert(all[i as int] == piece@);
        if !piece.is_empty() {
            let fine = match split_once(piece, '=') {
                Some(p) => is_clean(p.0.as_str()) && is_clean(p.1.as_str()),
                None => is_clean(piece),
            };
            if !fine {
                assert(!pair_clean(all[i as int]));
                return false;
            }
        }
        i = i + 1;
    }
    true
}

/// The parameters of a query string.
pub fn parse_query(raw: &str) -> (r: Table<String>)
    requires
        query_clean(raw@),
    ensures
        text_map(r@) == query_map(crate::text::split_on(raw@, '&')),
{
    let pieces = split(raw, '&');
    let ghost all = texts(pieces@);
    let mut out: Table<String> = Table::new();
    let mut i: usize = 0;
    assert(text_map(out@) =~= query_map(all.take(0)));
    while i < pieces.len()
        invariant
            i <= pieces@.len(),
            all == texts(pieces@),
            all == crate::text::split_on(raw@, '&'),
            query_clean(raw@),
            text_map(out@) == query_map(all.take(i as int)),
        decreases pieces.len() - i,
    {
        let piece = pieces[i].as_str();
        assert(all[i as int] == piece@);
        assert(all.take(i + 1).drop_last() =~= all.take(i as int));
        assert(all.take(i + 1).last() == piece@);
        let ghost was = out@;
        if !piece.is_empty() {
            assert(pair_clean(all[i as int]));
            let (k, v) = match split_once(piece, '=') {
                Some(p) => (decode(p.0.as_str(), true), decode(p.1.as_str(), true)),
                None => {
                    proof {
                        lemma_empty_clean();
                    }
                    (decode(piece, true), decode("", true))
                },
            };
            let ghost value = v;
            out.insert(k.as_str(), v);
            assert(text_map(out@) =~= text_map(was).insert(k@, value@));
        }
        i = i + 1;
    }
    assert(all.take(all.len() as int) =~= all);
    out
}

/// The object that a table of strings stands for.
pub open spec fn texts_object(m: Map<Seq<char>, String>) -> JsonView {
    JsonView::Object(m.map_values(|s: String| JsonView::Str(s@)))
}

/// The object that a table of strings stands for.
pub fn table_to_json(t: &Table<String>) -> (r: Json)
    ensures
        r@ == texts_object(t@),
{
    let mut m = Members::new();
    let n: usize = t.len();
    let ghost all = t.pairs();
    let mut i: usize = 0;
    assert(pairs_map(all.take(0)).map_values(|s: String| JsonView::Str(s@)) =~= Map::<Seq<char>, JsonView>::empty());
    while i < n
        invariant
            i <= n == all.len(),
            all == t.pairs(),
            Json::Object(m)@ == JsonView::Object(
                pairs_map(all.take(i as int)).map_values(|s: String| JsonView::Str(s@)),
            ),
        decreases n - i,
    {
        let k = t.key_at(i);
        let v = t.value_at(i);
        m.put(k, Json::str(v.as_str()));
        proof {
            assert(all.take(i + 1).drop_last() =~= all.take(i as int));
            assert(pairs_map(all.take(i + 1)).map_values(|s: String| JsonView::Str(s@)) =~= pairs_map(
                all.take(i as int),
            ).map_values(|s: String| JsonView::Str(s@)).insert(k@, JsonView::Str(v@)));
        }
        i = i + 1;
    }
    assert(all.take(all.len() as int) =~= all);
    Json::Object(m)
}

/// The keys of a table, in order.
pub open spec fn key_list<T>(pairs: Seq<(Seq<char>, T)>) -> Seq<Seq<char>> {
    pairs.map_values(|p: (Seq<char>, T)| p.0)
}

/// The keys of a table, in order.
pub fn keys_of<T>(t: &Table<T>) -> (r: Vec<String>)
    ensures
        texts(r@) == key_list(t.pairs()),
{
    let mut out: Vec<String> = Vec::new();
    let n: usize = t.len();
    let mut i: usize = 0;
    while i < n
        invariant
            i <= n == t.pairs().len(),
            out@.len() == i,
            forall|k: int| 0 <= k < i ==> (#[trigger] out@[k])@ == t.pairs()[k].0,
        decreases n - i,
    {
        out.push(t.key_at(i).to_owned());
        i = i + 1;
    }
    assert(texts(out@) =~= key_list(t.pairs()));
    out
}

/// An error response bears its status, is JSON, and says the status and the message.
pub proof fn law_an_error_says_what_went_wrong(status: u16, message: Seq<char>)
    ensures
        ({
            let r = error_response(status, message);
            &&& r.status == status
            &&& r.headers == seq![("content-type"@, "application/json"@)]
            &&& r.body == encode_utf8(
                json_text(
                    JsonView::Object(
                        map!["error"@ => JsonView::Object(
                            map!["status"@ => JsonView::Number(NumberView::Int(status as int)), "message"@ => JsonView::Str(message)],
                        )],
                    ),
                ),
            )
        }),
{
    reveal_strlit("status");
    reveal_strlit("message");
    assert("status"@.len() == 6);
    assert("message"@.len() == 7);
    let inner = map!["status"@ => JsonView::Number(NumberView::Int(status as int)), "message"@ => JsonView::Str(message)];
    let said = error_json(status, message);
    assert(said->Object_0["error"@]->Object_0 =~= inner);
    assert(said->Object_0 =~= map!["error"@ => JsonView::Object(inner)]);
}

/// A response of a value bears its status, says that it is JSON, and holds the value as it
/// prints; one of a text holds the text.
pub proof fn law_a_response_holds_what_it_is_given(status: u16, value: JsonView, said: Seq<char>)
    ensures
        json_response(status, value).status == status,
        json_response(status, value).headers == seq![("content-type"@, "application/json"@)],
        json_response(status, value).body == encode_utf8(json_text(value)),
        text_response(status, said).status == status,
        text_response(status, said).headers == seq![("content-type"@, "text/plain; charset=utf-8"@)],
        text_response(status, said).body == encode_utf8(said),
{
}

/// A query holds its pairs: one more pair at its end puts its value under its name, in place
/// of an earlier one, and leaves the others; one without a value puts an empty text; and an
/// empty piece puts nothing.
pub proof fn law_a_query_holds_its_pairs(raw: Seq<char>, name: Seq<char>, value: Seq<char>)
    requires
        !name.contains('&'),
        !name.contains('='),
        !value.contains('&'),
    ensures
        ({
            let before = query_map(crate::text::split_on(raw, '&'));
            &&& query_map(crate::text::split_on(raw + seq!['&'] + (name + seq!['='] + value), '&')) == before.insert(
                decoded(name, true),
                decoded(value, true),
            )
            &&& name.len() > 0 ==> query_map(crate::text::split_on(raw + seq!['&'] + name, '&')) == before.insert(
                decoded(name, true),
                Seq::empty(),
            )
            &&& query_map(crate::text::split_on(raw + seq!['&'], '&')) == before
            &&& query_map(crate::text::split_on(name + seq!['='] + value, '&')) == map![decoded(name, true) => decoded(
                value,
                true,
            )]
            &&& query_map(crate::text::split_on(Seq::empty(), '&')) == Map::<Seq<char>, Seq<char>>::empty()
        }),
{
    let pair = name + seq!['='] + value;
    let all = crate::text::split_on(raw, '&');
    let none = Seq::<char>::empty();
    assert(!pair.contains('&')) by {
        if pair.contains('&') {
            let i = choose|i: int| 0 <= i < pair.len() && pair[i] == '&';
            if i < name.len() {
                assert(name[i] == '&');
            } else {
                assert(i != name.len());
                assert(value[i - name.len() - 1] == '&');
            }
        }
    }
    crate::text::law_a_text_is_cut_at_each_separator(raw, pair, '&');
    crate::text::law_a_text_is_cut_at_each_separator(raw, name, '&');
    crate::text::law_a_text_is_cut_at_each_separator(raw, none, '&');
    crate::text::law_a_text_is_cut_at_each_separator(pair, none, '&');
    crate::text::law_a_text_is_cut_at_each_separator(name, none, '&');
    crate::text::law_a_text_is_cut_at_each_separator(none, none, '&');
    crate::text::law_a_text_is_cut_once(name, value, '=');
    assert(raw + seq!['&'] + none =~= raw + seq!['&']);
    assert((all + seq![pair]).drop_last() =~= all);
    assert((all + seq![name]).drop_last() =~= all);
    assert((all + seq![none]).drop_last() =~= all);
    assert(seq![pair].drop_last() =~= Seq::empty());
    assert(seq![none].drop_last() =~= Seq::empty());
    let nothing = Seq::<Seq<char>>::empty();
    assert(query_map(nothing) =~= Map::<Seq<char>, Seq<char>>::empty());
    assert(query_map(seq![pair]) =~= map![decoded(name, true) => decoded(value, true)]);
    reveal_strlit("");
    assert(""@ =~= none);
    assert(vstd::utf8::is_ascii_chars(none));
    crate::percent::law_a_plus_is_a_space_in_a_query(none);
    assert(crate::text::with_char(none, '+', ' ') =~= none);
}

/// An argument is found where it was sent: in the path, else in the query, each read as the
/// value that it spells; else in the body, as it stands there.
pub proof fn law_an_argument_is_found_where_it_was_sent(req: PylonRequest, name: Seq<char>)
    ensures
        req@.path_params.contains_key(name) ==> req.argument(name) == Some(coerced(req@.path_params[name])),
        !req@.path_params.contains_key(name) && req@.query.contains_key(name) ==> req.argument(name) == Some(
            coerced(req@.query[name]),
        ),
        !req@.path_params.contains_key(name) && !req@.query.contains_key(name) ==> req.argument(name) == (if req@.body.len()
            == 0 {
            None
        } else {
            match json_parsed_bytes(req@.body) {
                Some(j) => crate::json::member(j, name),
                None => None,
            }
        }),
{
}

/// A text of a path or a query is read as what it spells: a whole number as that number,
/// the two truth values as such, and what is neither these nor a fraction as the text.
pub proof fn law_a_text_is_read_as_what_it_spells(n: nat, s: Seq<char>)
    requires
        n <= i64::MAX,
        s.len() > 0,
        real_reading(s) is None,
    ensures
        coerced(crate::text::decimal(n)) == JsonView::Number(NumberView::Int(n as int)),
        s == "true"@ ==> coerced(s) == JsonView::Bool(true),
        s == "false"@ ==> coerced(s) == JsonView::Bool(false),
        s != "true"@ && s != "false"@ && crate::text::i64_reading(s) is None ==> coerced(s) == JsonView::Str(s),
{
    crate::text::law_a_written_number_is_read_back(n);
    reveal_strlit("true");
    reveal_strlit("false");
    assert("true"@.len() == 4);
    assert("false"@.len() == 5);
    assert("true"@[0] == 't' && "false"@[0] == 'f');
    if s == "true"@ || s == "false"@ {
        assert(!crate::text::all_digits(s)) by {
            assert(!('0' <= s[0] <= '9'));
        }
    }
}

/// A body stands for its JSON where it is JSON; to an in-process caller, what is not is the
/// text that it spells. A request without a body says nothing.
pub proof fn law_a_body_stands_for_its_json(body: Seq<u8>, j: JsonView, s: Seq<char>)
    requires
        json_parsed_bytes(body) == Some(j),
    ensures
        body.len() > 0 ==> body_json(body) == Some(j),
        body_json(Seq::empty()) == Some(JsonView::Null),
        body_value(body) == j,
        json_parsed_bytes(encode_utf8(s)) is None ==> body_value(encode_utf8(s)) == JsonView::Str(s),
        json_parsed_bytes(encode_utf8(s)) is None && s.len() > 0 ==> body_json(encode_utf8(s)) is None,
{
    vstd::utf8::encode_utf8_valid_utf8(s);
    vstd::utf8::encode_utf8_decode_utf8(s);
    if s.len() > 0 && encode_utf8(s).len() == 0 {
        vstd::utf8::encode_utf8_decode_utf8(s);
        assert(encode_utf8(s) =~= Seq::<u8>::empty());
        assert(encode_utf8(Seq::<char>::empty()) =~= Seq::<u8>::empty());
        vstd::utf8::encode_utf8_decode_utf8(Seq::<char>::empty());
    }
}

/// A request that is made in-process is what it is made of, and nothing else.
pub proof fn law_a_plain_request_is_what_it_is_made_of(method: Seq<char>, path: Seq<char>, body: Seq<u8>, principal: PrincipalView)
    ensures
        ({
            let a = plain_ask(method, path, body, principal);
            &&& a.method == method && a.path == path && a.body == body && a.principal == principal && a.depth == 0
            &&& a.path_params.dom().is_empty() && a.query.dom().is_empty() && a.headers.dom().is_empty()
            &&& a.route_id is None
        }),
{
}

/// A query of plain characters can be decoded.
pub proof fn law_a_plain_query_can_be_decoded(raw: Seq<char>)
    requires
        vstd::utf8::is_ascii_chars(raw),
    ensures
        query_clean(raw),
{
    let pieces = crate::text::split_on(raw, '&');
    crate::text::lemma_split_pieces(raw, crate::text::only('&'));
    assert forall|i: int| 0 <= i < pieces.len() && pieces[i].len() > 0 implies pair_clean(#[trigger] pieces[i]) by {
        let piece = pieces[i];
        assert(vstd::utf8::is_ascii_chars(piece)) by {
            assert forall|k: int| 0 <= k < piece.len() implies '\0' <= #[trigger] piece[k] <= '\u{7f}' by {
                assert(raw.contains(crate::text::split_by(raw, crate::text::only('&'))[i][k]));
                let j = choose|j: int| 0 <= j < raw.len() && raw[j] == piece[k];
                assert('\0' <= raw[j] <= '\u{7f}');
            }
        }
        crate::percent::lemma_ascii_is_clean(piece);
        if let Some(p) = crate::text::cut_once(piece, '=') {
            let at = crate::text::first_at(piece, '=');
            lemma_first_within(piece, '=');
            assert(vstd::utf8::is_ascii_chars(p.0)) by {
                assert forall|k: int| 0 <= k < p.0.len() implies '\0' <= #[trigger] p.0[k] <= '\u{7f}' by {
                    assert('\0' <= piece[k] <= '\u{7f}');
                }
            }
            assert(vstd::utf8::is_ascii_chars(p.1)) by {
                assert forall|k: int| 0 <= k < p.1.len() implies '\0' <= #[trigger] p.1[k] <= '\u{7f}' by {
                    assert('\0' <= piece[at + 1 + k] <= '\u{7f}');
                }
            }
            crate::percent::lemma_ascii_is_clean(p.0);
            crate::percent::lemma_ascii_is_clean(p.1);
        }
    }
}

proof fn lemma_first_within(s: Seq<char>, c: char)
    ensures
        0 <= crate::text::first_at(s, c) <= s.len(),
    decreases s.len(),
{
    if s.len() > 0 && s[0] != c {
        lemma_first_within(s.skip(1), c);
    }
}

} // verus!
