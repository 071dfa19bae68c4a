//! Model Context Protocol, as JSON-RPC over HTTP.
//!
//! Any route marked as a tool is callable by any client of the protocol the moment the
//! server boots: no separate tool server, no hand-maintained schema, no drift.

use crate::agent::open_schema;
use crate::app::{ask_outcome, demanded, required_scopes, scope_refusal, tool_call, tool_request};
use crate::auth::{Principal, PrincipalView, denied_of};
use crate::http::{AskView, PylonRequest, PylonResponse, ResponseView, json_response};
use crate::json::{
    Json, JsonView, Members, Number, NumberView, empty_object, json_fault, json_parsed_bytes, json_pretty,
    lemma_views_push, member, member_text, parse_or_explain, views,
};
use crate::manifest::{Approval, Manifest, Route};
use crate::provider::{member_or_null, or_empty, text_block, text_to_block};
use crate::runtime::{is_gated, outcome_view};
use crate::text::{cat2, cat3, debug_quoted, quoted, same, texts};
use vstd::prelude::*;

verus! {

/// The revision of the protocol.
pub open spec fn protocol_version() -> Seq<char> {
    "2025-06-18"@
}

/// A successful answer.
pub open spec fn rpc_result(id: JsonView, value: JsonView) -> JsonView {
    JsonView::Object(
        Map::empty().insert("jsonrpc"@, JsonView::Str("2.0"@)).insert("id"@, id).insert("result"@, value),
    )
}

/// An answer that says what went wrong.
pub open spec fn rpc_error(id: JsonView, code: int, message: Seq<char>) -> JsonView {
    JsonView::Object(
        Map::empty().insert("jsonrpc"@, JsonView::Str("2.0"@)).insert("id"@, id).insert(
            "error"@,
            JsonView::Object(
                Map::empty().insert("code"@, JsonView::Number(NumberView::Int(code))).insert(
                    "message"@,
                    JsonView::Str(message),
                ),
            ),
        ),
    )
}

fn result_json(id: Json, value: Json) -> (r: Json)
    ensures
        r@ == rpc_result(id@, value@),
{
    let mut m = Members::new();
    m.put("jsonrpc", Json::str("2.0"));
    m.put("id", id);
    m.put("result", value);
    Json::Object(m)
}

fn error_obj(id: Json, code: i64, message: &str) -> (r: Json)
    ensures
        r@ == rpc_error(id@, code as int, message@),
{
    let mut e = Members::new();
    e.put("code", Json::Number(Number::Negative(code)));
    e.put("message", Json::str(message));
    let mut m = Members::new();
    m.put("jsonrpc", Json::str("2.0"));
    m.put("id", id);
    m.put("error", Json::Object(e));
    Json::Object(m)
}

/// What a route says of itself as a tool.
pub open spec fn tool_text(r: Route) -> Seq<char> {
    if r.description@.len() > 0 {
        r.description@
    } else if r.summary@.len() > 0 {
        r.summary@
    } else {
        r.method@ + " "@ + r.path@
    }
}

/// A tool as the protocol describes it.
pub open spec fn descriptor(r: Route) -> JsonView {
    JsonView::Object(
        Map::empty().insert("name"@, JsonView::Str(r.tool_text())).insert(
            "description"@,
            JsonView::Str(tool_text(r)),
        ).insert(
            "inputSchema"@,
            match r.input_schema {
                Some(s) => s@,
                None => open_schema(),
            },
        ).insert(
            "annotations"@,
            JsonView::Object(
                Map::empty().insert("readOnlyHint"@, JsonView::Bool(r.tool.read_only)).insert(
                    "idempotentHint"@,
                    JsonView::Bool(r.tool.idempotent),
                ),
            ),
        ),
    )
}

/// The exposed routes.
pub open spec fn exposed(routes: Seq<Route>) -> Seq<Route> {
    routes.filter(|r: Route| r.tool.expose)
}

fn describe_tool(r: &Route) -> (j: Json)
    ensures
        j@ == descriptor(*r),
{
    let description = if !r.description.as_str().is_empty() {
        r.description.clone()
    } else if !r.summary.as_str().is_empty() {
        r.summary.clone()
    } else {
        cat3(r.method.as_str(), " ", r.path.as_str())
    };
    let mut hints = Members::new();
    hints.put("readOnlyHint", Json::Bool(r.tool.read_only));
    hints.put("idempotentHint", Json::Bool(r.tool.idempotent));
    let mut m = Members::new();
    m.put("name", Json::str(r.tool_name().as_str()));
    m.put("description", Json::str(description.as_str()));
    m.put(
        "inputSchema",
        match &r.input_schema {
            Some(s) => s.copy(),
            None => crate::agent::open_schema_json(),
        },
    );
    m.put("annotations", Json::Object(hints));
    Json::Object(m)
}

/// Whether a tool is offered to a principal: it is exposed, and the principal holds all
/// that it demands.
pub open spec fn is_offered(r: Route, p: PrincipalView) -> bool {
    r.tool.expose && scope_refusal(r, p) is None
}

/// The tools that are offered to a principal.
pub open spec fn offered(routes: Seq<Route>, p: PrincipalView) -> Seq<Route> {
    routes.filter(|r: Route| is_offered(r, p))
}

/// The tools that a principal can call, as the protocol describes them.
pub fn tool_descriptors(manifest: &Manifest, principal: &Principal) -> (r: Vec<Json>)
    ensures
        views(r@) == offered(manifest.routes@, principal@).map_values(|x: Route| descriptor(x)),
{
    let ghost all = manifest.routes@;
    let ghost keep = |r: Route| is_offered(r, principal@);
    let ghost show = |x: Route| descriptor(x);
    let mut out: Vec<Json> = Vec::new();
    let mut i: usize = 0;
    proof {
        reveal(Seq::filter);
        assert(views(out@) =~= all.take(0).filter(keep).map_values(show));
    }
    while i < manifest.routes.len()
        invariant
            i <= manifest.routes@.len(),
            all == manifest.routes@,
            keep == (|r: Route| is_offered(r, principal@)),
            show == (|x: Route| descriptor(x)),
            views(out@) == all.take(i as int).filter(keep).map_values(show),
        decreases manifest.routes.len() - i,
    {
        let route = &manifest.routes[i];
        proof {
            assert(all.take(i + 1) =~= all.take(i as int).push(all[i as int]));
            all.take(i as int).lemma_filter_push(all[i as int], keep);
        }
        if route.tool.expose {
            let missing = principal.missing_scopes(&required_scopes(route));
            assert(denied_of(demanded(*route), principal@.scopes) == texts(missing@));
            assert(texts(missing@).len() == missing@.len());
            if missing.len() == 0 {
                let j = describe_tool(route);
                proof {
                    lemma_views_push(out@, j);
                    let before = all.take(i as int).filter(keep);
                    assert(before.push(*route).map_values(show) =~= before.map_values(show).push(descriptor(*route)));
                }
                out.push(j);
            }
        }
        i = i + 1;
    }
    assert(all.take(all.len() as int) =~= all);
    out
}

/// What a client is told when it connects.
pub open spec fn welcome(m: Manifest) -> JsonView {
    JsonView::Object(
        Map::empty().insert("protocolVersion"@, JsonView::Str(protocol_version())).insert(
            "capabilities"@,
            JsonView::Object(
                Map::empty().insert(
                    "tools"@,
                    JsonView::Object(Map::empty().insert("listChanged"@, JsonView::Bool(false))),
                ),
            ),
        ).insert(
            "serverInfo"@,
            JsonView::Object(
                Map::empty().insert("name"@, JsonView::Str(m.name@)).insert("version"@, JsonView::Str(m.version@)),
            ),
        ).insert(
            "instructions"@,
            JsonView::Str(
                if m.description@.len() == 0 {
                    "Tools exposed by the "@ + m.name@ + " Pylon application."@
                } else {
                    m.description@
                },
            ),
        ),
    )
}

fn welcome_json(m: &Manifest) -> (r: Json)
    ensures
        r@ == welcome(*m),
{
    let mut listed = Members::new();
    listed.put("listChanged", Json::Bool(false));
    let mut capabilities = Members::new();
    capabilities.put("tools", Json::Object(listed));
    let mut info = Members::new();
    info.put("name", Json::str(m.name.as_str()));
    info.put("version", Json::str(m.version.as_str()));
    let instructions = if m.description.as_str().is_empty() {
        cat3("Tools exposed by the ", m.name.as_str(), " Pylon application.")
    } else {
        m.description.clone()
    };
    let mut r = Members::new();
    r.put("protocolVersion", Json::str("2025-06-18"));
    r.put("capabilities", Json::Object(capabilities));
    r.put("serverInfo", Json::Object(info));
    r.put("instructions", Json::str(instructions.as_str()));
    Json::Object(r)
}

/// What a message of a client asks for.
#[derive(Debug)]
pub enum Item {
    /// A notification, which receives no response.
    Silent,
    /// The answer is there.
    Answer(Json),
    /// A tool is to be called: its request is to be dispatched like any other. Where
    /// there is no such request, that is the outcome.
    Call { id: Json, name: String, asked: Result<PylonRequest, String> },
}

/// What an [`Item`] says.
pub enum ItemView {
    Silent,
    Answer(JsonView),
    Call { id: JsonView, name: Seq<char>, asked: Result<AskView, Seq<char>> },
}

impl View for Item {
    type V = ItemView;

    open spec fn view(&self) -> ItemView {
        match self {
            Item::Silent => ItemView::Silent,
            Item::Answer(j) => ItemView::Answer(j@),
            Item::Call { id, name, asked } => ItemView::Call { id: id@, name: name@, asked: ask_outcome(*asked) },
        }
    }
}

/// What a list of items says.
pub open spec fn item_views(list: Seq<Item>) -> Seq<ItemView> {
    list.map_values(|i: Item| i@)
}

/// What is said of a tool that a human must approve: there is no run here that could wait.
pub open spec fn unattended_text(tool: Seq<char>) -> Seq<char> {
    "tool "@ + debug_quoted(tool) + " requires human approval and cannot run unattended over MCP"@
}

/// What a message of a client asks for. One without an id is a notification. A tool is
/// called with the client's own authority.
pub open spec fn item_of(m: Manifest, p: PrincipalView, req: JsonView) -> ItemView {
    let method = or_empty(member_text(req, "method"@));
    let params = match member(req, "params"@) {
        Some(p) => p,
        None => JsonView::Null,
    };
    match member(req, "id"@) {
        None => ItemView::Silent,
        Some(id) => if method == "initialize"@ {
            ItemView::Answer(rpc_result(id, welcome(m)))
        } else if method == "ping"@ {
            ItemView::Answer(rpc_result(id, empty_object()))
        } else if method == "tools/list"@ {
            ItemView::Answer(
                rpc_result(
                    id,
                    JsonView::Object(
                        Map::empty().insert(
                            "tools"@,
                            JsonView::Array(offered(m.routes@, p).map_values(|x: Route| descriptor(x))),
                        ),
                    ),
                ),
            )
        } else if method == "tools/call"@ {
            match member_text(params, "name"@) {
                Some(name) => if is_gated(m.routes@, name) {
                    ItemView::Answer(call_answer(id, Err(unattended_text(name))))
                } else {
                    let args = match member(params, "arguments"@) {
                        Some(a) => a,
                        None => empty_object(),
                    };
                    ItemView::Call { id, name, asked: tool_call(m.routes@, name, args, p, 0) }
                },
                None => ItemView::Answer(rpc_error(id, -32602, "tools/call requires a 'name'"@)),
            }
        } else {
            ItemView::Answer(rpc_error(id, -32601, "method not found: "@ + method))
        },
    }
}

/// What a message of a client asks for.
pub fn handle_one(manifest: &Manifest, principal: &Principal, req: &Json) -> (r: Item)
    ensures
        r@ == item_of(*manifest, principal@, req@),
{
    let id = match req.get("id") {
        Some(id) => id.copy(),
        None => {
            return Item::Silent;
        },
    };
    let method = crate::provider::text_or_empty(req, "method");
    let m = method.as_str();
    if same(m, "initialize") {
        return Item::Answer(result_json(id, welcome_json(manifest)));
    }
    if same(m, "ping") {
        return Item::Answer(result_json(id, Json::empty()));
    }
    if same(m, "tools/list") {
        let mut tools = Members::new();
        tools.put("tools", Json::array(tool_descriptors(manifest, principal)));
        return Item::Answer(result_json(id, Json::Object(tools)));
    }
    if same(m, "tools/call") {
        let params = member_or_null(req, "params");
        let name = match params.get_str("name") {
            Some(n) => n.to_owned(),
            None => {
                return Item::Answer(error_obj(id, -32602, "tools/call requires a 'name'"));
            },
        };
        let gated = match manifest.route_for_tool(name.as_str()) {
            Some(route) => match route.approval {
                Approval::Required => true,
                Approval::Never => false,
            },
            None => false,
        };
        if gated {
            let why = cat3(
                "tool ",
                quoted(name.as_str()).as_str(),
                " requires human approval and cannot run unattended over MCP",
            );
            return Item::Answer(answer_call(&id, &Err(why)));
        }
        let args = match params.get("arguments") {
            Some(a) => a.copy(),
            None => Json::empty(),
        };
        let asked = tool_request(manifest, name.as_str(), &args, principal, 0);
        return Item::Call { id, name, asked };
    }
    Item::Answer(error_obj(id, -32601, cat2("method not found: ", m).as_str()))
}

/// What a tool call is answered. A failing tool is a successful exchange that reports an
/// error, so that the model can read it and adapt.
pub open spec fn call_answer(id: JsonView, outcome: Result<JsonView, Seq<char>>) -> JsonView {
    rpc_result(
        id,
        match outcome {
            Ok(v) => JsonView::Object(
                Map::empty().insert("content"@, JsonView::Array(seq![text_block(json_pretty(v))])).insert(
                    "structuredContent"@,
                    v,
                ).insert("isError"@, JsonView::Bool(false)),
            ),
            Err(e) => JsonView::Object(
                Map::empty().insert("content"@, JsonView::Array(seq![text_block(e)])).insert(
                    "isError"@,
                    JsonView::Bool(true),
                ),
            ),
        },
    )
}

fn one_block(text: &str) -> (r: Json)
    ensures
        r@ == JsonView::Array(seq![text_block(text@)]),
{
    let mut blocks: Vec<Json> = Vec::new();
    blocks.push(text_to_block(text));
    assert(views(blocks@) =~= seq![text_block(text@)]);
    Json::array(blocks)
}

/// What a tool call is answered.
pub fn answer_call(id: &Json, outcome: &Result<Json, String>) -> (r: Json)
    ensures
        r@ == call_answer(id@, outcome_view(*outcome)),
{
    let mut m = Members::new();
    match outcome {
        Ok(v) => {
            m.put("content", one_block(v.to_text_pretty().as_str()));
            m.put("structuredContent", v.copy());
            m.put("isError", Json::Bool(false));
        },
        Err(e) => {
            m.put("content", one_block(e.as_str()));
            m.put("isError", Json::Bool(true));
        },
    }
    result_json(id.copy(), Json::Object(m))
}

/// What a client sent: one message, or a batch of them.
#[derive(Debug)]
pub struct Exchange {
    pub batch: bool,
    pub items: Vec<Item>,
}

/// How many of some items call a tool.
pub open spec fn call_count(items: Seq<ItemView>) -> nat
    decreases items.len(),
{
    if items.len() == 0 {
        0
    } else {
        call_count(items.drop_last()) + if items.last() is Call {
            1nat
        } else {
            0nat
        }
    }
}

/// The answers to some items, given what their calls came to, in order.
pub open spec fn answers(items: Seq<ItemView>, outcomes: Seq<Result<JsonView, Seq<char>>>) -> Seq<JsonView>
    decreases items.len(),
{
    if items.len() == 0 {
        Seq::empty()
    } else {
        let before = answers(items.drop_last(), outcomes);
        match items.last() {
            ItemView::Silent => before,
            ItemView::Answer(j) => before.push(j),
            ItemView::Call { id, .. } => before.push(
                call_answer(id, outcomes[call_count(items.drop_last()) as int]),
            ),
        }
    }
}

/// What is answered where nothing is: 202 without a body.
pub open spec fn accepted_response() -> ResponseView {
    ResponseView { status: 202, headers: Seq::empty(), body: Seq::empty() }
}

/// What an exchange is answered.
pub open spec fn exchange_response(
    batch: bool,
    items: Seq<ItemView>,
    outcomes: Seq<Result<JsonView, Seq<char>>>,
) -> ResponseView {
    let said = answers(items, outcomes);
    if said.len() == 0 {
        accepted_response()
    } else if batch {
        json_response(200, JsonView::Array(said))
    } else {
        json_response(200, said[0])
    }
}

/// What bytes of a client ask for.
pub open spec fn exchange_of(m: Manifest, p: PrincipalView, body: Seq<u8>) -> Result<(bool, Seq<ItemView>), ResponseView> {
    match json_parsed_bytes(body) {
        None => Err(
            json_response(200, rpc_error(JsonView::Null, -32700, "parse error: "@ + json_fault(body))),
        ),
        Some(JsonView::Array(list)) => Ok((true, list.map_values(|j: JsonView| item_of(m, p, j)))),
        Some(single) => Ok((false, seq![item_of(m, p, single)])),
    }
}

/// Reads what a client sent, or answers that it cannot be read.
pub fn handle(manifest: &Manifest, principal: &Principal, body: &[u8]) -> (r: Result<Exchange, PylonResponse>)
    ensures
        match (r, exchange_of(*manifest, principal@, body@)) {
            (Ok(x), Ok(v)) => x.batch == v.0 && item_views(x.items@) == v.1,
            (Err(res), Err(e)) => res@ == e,
            _ => false,
        },
{
    let parsed = match parse_or_explain(body) {
        Ok(j) => j,
        Err(e) => {
            let message = cat2("parse error: ", e.as_str());
            return Err(PylonResponse::json(200, &error_obj(Json::Null, -32700, message.as_str())));
        },
    };
    match &parsed {
        Json::Array(list) => {
            proof {
                Json::lemma_array_views(*list);
            }
            let ghost all = views(list@);
            let mut items: Vec<Item> = Vec::new();
            let mut i: usize = 0;
            while i < list.len()
                invariant
                    i <= list@.len(),
                    all == views(list@),
                    items@.len() == i,
                    forall|k: int| 0 <= k < i ==> (#[trigger] items@[k])@ == item_of(*manifest, principal@, all[k]),
                decreases list.len() - i,
            {
                assert(all[i as int] == list@[i as int]@);
                items.push(handle_one(manifest, principal, &list[i]));
                i = i + 1;
            }
            assert(item_views(items@) =~= all.map_values(|j: JsonView| item_of(*manifest, principal@, j)));
            Ok(Exchange { batch: true, items })
        },
        single => {
            let mut items: Vec<Item> = Vec::new();
            items.push(handle_one(manifest, principal, single));
            assert(item_views(items@) =~= seq![item_of(*manifest, principal@, single@)]);
            Ok(Exchange { batch: false, items })
        },
    }
}

/// What outcomes say.
pub open spec fn outcomes_of(list: Seq<Result<Json, String>>) -> Seq<Result<JsonView, Seq<char>>> {
    list.map_values(|o: Result<Json, String>| outcome_view(o))
}

proof fn lemma_calls_grow(items: Seq<ItemView>, i: int)
    requires
        0 <= i <= items.len(),
    ensures
        call_count(items.take(i)) <= call_count(items),
    decreases items.len(),
{
    if i == items.len() {
        assert(items.take(i) =~= items);
    } else {
        lemma_calls_grow(items.drop_last(), i);
        assert(items.drop_last().take(i) =~= items.take(i));
    }
}

impl Exchange {
    /// What the exchange is answered, given what its calls came to, in order.
    pub fn respond(&self, outcomes: &Vec<Result<Json, String>>) -> (r: PylonResponse)
        requires
            outcomes@.len() == call_count(item_views(self.items@)),
        ensures
            r@ == exchange_response(self.batch, item_views(self.items@), outcomes_of(outcomes@)),
    {
        let ghost all = item_views(self.items@);
        let ghost outs = outcomes_of(outcomes@);
        let mut said: Vec<Json> = Vec::new();
        let total: usize = outcomes.len();
        let mut next: usize = 0;
        let mut i: usize = 0;
        assert(views(said@) =~= answers(all.take(0), outs));
        while i < self.items.len()
            invariant
                i <= self.items@.len(),
                all == item_views(self.items@),
                outs == outcomes_of(outcomes@),
                total == outcomes@.len(),
                outcomes@.len() == call_count(all),
                next == call_count(all.take(i as int)),
                next <= outcomes@.len(),
                views(said@) == answers(all.take(i as int), outs),
            decreases self.items.len() - i,
        {
            proof {
                assert(all.take(i + 1).drop_last() =~= all.take(i as int));
                assert(all.take(i + 1).last() == self.items@[i as int]@);
                lemma_calls_grow(all, i + 1);
            }
            match &self.items[i] {
                Item::Silent => {},
                Item::Answer(j) => {
                    let j = j.copy();
                    proof {
                        lemma_views_push(said@, j);
                    }
                    said.push(j);
                },
                Item::Call { id, .. } => {
                    let j = answer_call(id, &outcomes[next]);
                    proof {
                        assert(outs[next as int] == outcome_view(outcomes@[next as int]));
                        lemma_views_push(said@, j);
                    }
                    said.push(j);
                    assert(next < total);
                    next = next + 1;
                },
            }
            i = i + 1;
        }
        assert(all.take(all.len() as int) =~= all);
        assert(views(said@).len() == said@.len());
        if said.len() == 0 {
            let headers: Vec<(String, String)> = Vec::new();
            assert(crate::http::header_texts(headers@) =~= Seq::empty());
            return PylonResponse { status: 202, headers, body: Vec::new() };
        }
        if self.batch {
            PylonResponse::json(200, &Json::array(said))
        } else {
            assert(views(said@)[0] == said@[0]@);
            PylonResponse::json(200, &said[0])
        }
    }
}

/// Notifications get no response: a client that sent nothing else is answered 202 without
/// a body.
pub proof fn law_notifications_get_no_answer(items: Seq<ItemView>, outcomes: Seq<Result<JsonView, Seq<char>>>, batch: bool)
    requires
        forall|i: int| 0 <= i < items.len() ==> (#[trigger] items[i]) is Silent,
    ensures
        exchange_response(batch, items, outcomes) == accepted_response(),
    decreases items.len(),
{
    if items.len() > 0 {
        assert forall|i: int| 0 <= i < items.drop_last().len() implies (#[trigger] items.drop_last()[i]) is Silent by {
            assert(items[i] is Silent);
        }
        law_notifications_get_no_answer(items.drop_last(), outcomes, batch);
        assert(items.last() is Silent);
    }
}

/// A tool list shows only what that caller can invoke: each listed route is declared and
/// exposed, and the caller holds all that it demands.
pub proof fn law_a_tool_list_shows_only_what_the_caller_can_invoke(routes: Seq<Route>, p: PrincipalView, i: int)
    requires
        0 <= i < offered(routes, p).len(),
    ensures
        routes.contains(offered(routes, p)[i]),
        offered(routes, p)[i].tool.expose,
        scope_refusal(offered(routes, p)[i], p) is None,
{
    let keep = |r: Route| is_offered(r, p);
    routes.lemma_filter_pred(keep, i);
    routes.lemma_filter_contains_rev(keep, offered(routes, p)[i]);
}

/// No client of the protocol has a tool called that a human must approve.
pub proof fn law_a_gated_tool_is_not_called_unattended(m: Manifest, p: PrincipalView, req: JsonView)
    ensures
        item_of(m, p, req) matches ItemView::Call { name, .. } ==> !is_gated(m.routes@, name),
{
}

/// Whether a message calls a method under an id.
pub open spec fn is_request(req: JsonView, id: JsonView, method: Seq<char>) -> bool {
    member(req, "id"@) == Some(id) && member(req, "method"@) == Some(JsonView::Str(method))
}

/// A tool is called as the client asks: under the name that it gives, with exactly the
/// arguments that it gives, none where it gives none, with the client's own authority; and
/// the call is answered under the client's id.
pub proof fn law_a_tool_is_called_with_what_the_client_sent(
    m: Manifest,
    p: PrincipalView,
    req: JsonView,
    id: JsonView,
    params: JsonView,
    name: Seq<char>,
    args: JsonView,
)
    requires
        is_request(req, id, "tools/call"@),
        member(req, "params"@) == Some(params),
        member(params, "name"@) == Some(JsonView::Str(name)),
        !is_gated(m.routes@, name),
    ensures
        member(params, "arguments"@) == Some(args) ==> item_of(m, p, req) == (ItemView::Call {
            id,
            name,
            asked: tool_call(m.routes@, name, args, p, 0),
        }),
        member(params, "arguments"@) is None ==> item_of(m, p, req) == (ItemView::Call {
            id,
            name,
            asked: tool_call(m.routes@, name, JsonView::Object(Map::empty()), p, 0),
        }),
{
    reveal_strlit("initialize");
    reveal_strlit("ping");
    reveal_strlit("tools/list");
    reveal_strlit("tools/call");
    assert("initialize"@.len() == 10);
    assert("ping"@.len() == 4);
    assert("tools/list"@.len() == 10);
    assert("tools/call"@.len() == 10);
    assert("initialize"@[0] != "tools/list"@[0]);
    assert("initialize"@[0] != "tools/call"@[0]);
    assert("tools/list"@[6] != "tools/call"@[6]);
}

/// An answer bears the id of what it answers, and either a result or an error with its code
/// and its message.
pub proof fn law_an_answer_bears_the_id(id: JsonView, value: JsonView, code: int, message: Seq<char>)
    ensures
        member(rpc_result(id, value), "jsonrpc"@) == Some(JsonView::Str("2.0"@)),
        member(rpc_result(id, value), "id"@) == Some(id),
        member(rpc_result(id, value), "result"@) == Some(value),
        member(rpc_result(id, value), "error"@) is None,
        member(rpc_error(id, code, message), "jsonrpc"@) == Some(JsonView::Str("2.0"@)),
        member(rpc_error(id, code, message), "id"@) == Some(id),
        member(rpc_error(id, code, message), "result"@) is None,
        member(rpc_error(id, code, message), "error"@) matches Some(e) && member(e, "code"@) == Some(
            JsonView::Number(NumberView::Int(code)),
        ) && member(e, "message"@) == Some(JsonView::Str(message)),
{
    reveal_strlit("jsonrpc");
    reveal_strlit("id");
    reveal_strlit("result");
    reveal_strlit("error");
    reveal_strlit("code");
    reveal_strlit("message");
    assert("jsonrpc"@.len() == 7);
    assert("id"@.len() == 2);
    assert("result"@.len() == 6);
    assert("error"@.len() == 5);
    assert("code"@.len() == 4);
    assert("message"@.len() == 7);
    assert("jsonrpc"@[0] != "message"@[0]);
}

/// What a tool came to is what the client reads: the value itself and as text, or why it
/// failed, under the id of the call; it is marked as an error exactly where it is one.
pub proof fn law_a_tools_outcome_reaches_the_client(id: JsonView, outcome: Result<JsonView, Seq<char>>)
    ensures
        member(call_answer(id, outcome), "id"@) == Some(id),
        ({
            &&& member(call_answer(id, outcome), "result"@) matches Some(r)
            &&& member(r, "isError"@) == Some(JsonView::Bool(outcome is Err))
            &&& member(r, "content"@) matches Some(JsonView::Array(blocks))
            &&& blocks.len() == 1
            &&& member(blocks[0], "type"@) == Some(JsonView::Str("text"@))
            &&& outcome matches Ok(v) ==> member(r, "structuredContent"@) == Some(v) && member(blocks[0], "text"@)
                == Some(JsonView::Str(json_pretty(v)))
            &&& outcome matches Err(e) ==> member(blocks[0], "text"@) == Some(JsonView::Str(e))
        }),
{
    reveal_strlit("content");
    reveal_strlit("structuredContent");
    reveal_strlit("isError");
    reveal_strlit("type");
    reveal_strlit("text");
    assert("content"@.len() == 7);
    assert("structuredContent"@.len() == 17);
    assert("isError"@.len() == 7);
    assert("type"@.len() == 4);
    assert("text"@.len() == 4);
    assert("content"@[0] != "isError"@[0]);
    assert("type"@[1] != "text"@[1]);
    law_an_answer_bears_the_id(
        id,
        member(call_answer(id, outcome), "result"@)->0,
        0,
        Seq::empty(),
    );
    reveal_strlit("jsonrpc");
    reveal_strlit("id");
    reveal_strlit("result");
    assert("jsonrpc"@.len() == 7);
    assert("id"@.len() == 2);
    assert("result"@.len() == 6);
}

/// A tool is described by its name, what it says of itself and what it takes.
pub proof fn law_a_tool_is_described_as_it_is_declared(r: Route)
    ensures
        member(descriptor(r), "name"@) == Some(JsonView::Str(r.tool_text())),
        r.description@.len() > 0 ==> member(descriptor(r), "description"@) == Some(JsonView::Str(r.description@)),
        r.description@.len() == 0 && r.summary@.len() > 0 ==> member(descriptor(r), "description"@) == Some(
            JsonView::Str(r.summary@),
        ),
        r.input_schema matches Some(s) ==> member(descriptor(r), "inputSchema"@) == Some(s@),
        r.input_schema is None ==> (member(descriptor(r), "inputSchema"@) matches Some(s) && member(s, "type"@) == Some(
            JsonView::Str("object"@),
        )),
        member(descriptor(r), "annotations"@) matches Some(a) && member(a, "readOnlyHint"@) == Some(
            JsonView::Bool(r.tool.read_only),
        ) && member(a, "idempotentHint"@) == Some(JsonView::Bool(r.tool.idempotent)),
{
    reveal_strlit("name");
    reveal_strlit("description");
    reveal_strlit("inputSchema");
    reveal_strlit("annotations");
    reveal_strlit("readOnlyHint");
    reveal_strlit("idempotentHint");
    reveal_strlit("type");
    reveal_strlit("properties");
    assert("name"@.len() == 4);
    assert("description"@.len() == 11);
    assert("inputSchema"@.len() == 11);
    assert("annotations"@.len() == 11);
    assert("readOnlyHint"@.len() == 12);
    assert("idempotentHint"@.len() == 14);
    assert("type"@.len() == 4);
    assert("properties"@.len() == 10);
    assert("name"@[0] != "type"@[0]);
    assert("description"@[0] != "inputSchema"@[0]);
    assert("description"@[0] != "annotations"@[0]);
    assert("inputSchema"@[0] != "annotations"@[0]);
}

/// Every other message is answered at once: a greeting says who serves and what is offered,
/// a ping is answered with nothing, a list describes each tool that the caller may call and
/// no other, and what is not understood is refused with its code.
pub proof fn law_messages_are_answered_by_their_method(m: Manifest, p: PrincipalView, req: JsonView, id: JsonView, method: Seq<char>)
    requires
        is_request(req, id, method),
    ensures
        method == "initialize"@ ==> ({
            &&& item_of(m, p, req) matches ItemView::Answer(j)
            &&& member(j, "id"@) == Some(id)
            &&& member(j, "result"@) matches Some(r)
            &&& member(r, "protocolVersion"@) == Some(JsonView::Str("2025-06-18"@))
            &&& member(r, "serverInfo"@) matches Some(info)
            &&& member(info, "name"@) == Some(JsonView::Str(m.name@))
            &&& member(info, "version"@) == Some(JsonView::Str(m.version@))
            &&& member(r, "capabilities"@) matches Some(c) && member(c, "tools"@) is Some
            &&& m.description@.len() > 0 ==> member(r, "instructions"@) == Some(JsonView::Str(m.description@))
        }),
        method == "ping"@ ==> (item_of(m, p, req) matches ItemView::Answer(j) && member(j, "id"@) == Some(id) && member(
            j,
            "result"@,
        ) == Some(JsonView::Object(Map::empty()))),
        method == "tools/list"@ ==> ({
            &&& item_of(m, p, req) matches ItemView::Answer(j)
            &&& member(j, "id"@) == Some(id)
            &&& member(j, "result"@) matches Some(r)
            &&& member(r, "tools"@) matches Some(JsonView::Array(list))
            &&& list.len() == offered(m.routes@, p).len()
            &&& forall|i: int|
                0 <= i < list.len() ==> member(#[trigger] list[i], "name"@) == Some(
                    JsonView::Str(offered(m.routes@, p)[i].tool_text()),
                )
        }),
        method == "tools/call"@ && (member(req, "params"@) is None || (member(req, "params"@) matches Some(q) && member(
            q,
            "name"@,
        ) is None)) ==> (item_of(m, p, req) matches ItemView::Answer(j) && member(j, "id"@) == Some(id) && (member(
            j,
            "error"@,
        ) matches Some(e) && member(e, "code"@) == Some(JsonView::Number(NumberView::Int(-32602))))),
        method != "initialize"@ && method != "ping"@ && method != "tools/list"@ && method != "tools/call"@ ==> (item_of(
            m,
            p,
            req,
        ) matches ItemView::Answer(j) && member(j, "id"@) == Some(id) && (member(j, "error"@) matches Some(e) && member(
            e,
            "code"@,
        ) == Some(JsonView::Number(NumberView::Int(-32601))))),
{
    reveal_strlit("initialize");
    reveal_strlit("ping");
    reveal_strlit("tools/list");
    reveal_strlit("tools/call");
    assert("initialize"@.len() == 10);
    assert("ping"@.len() == 4);
    assert("tools/list"@.len() == 10);
    assert("tools/call"@.len() == 10);
    assert("initialize"@[0] != "tools/list"@[0]);
    assert("initialize"@[0] != "tools/call"@[0]);
    assert("tools/list"@[6] != "tools/call"@[6]);
    reveal_strlit("protocolVersion");
    reveal_strlit("capabilities");
    reveal_strlit("serverInfo");
    reveal_strlit("instructions");
    reveal_strlit("name");
    reveal_strlit("version");
    reveal_strlit("tools");
    reveal_strlit("jsonrpc");
    reveal_strlit("id");
    reveal_strlit("result");
    reveal_strlit("error");
    reveal_strlit("code");
    reveal_strlit("message");
    assert("protocolVersion"@.len() == 15);
    assert("capabilities"@.len() == 12);
    assert("serverInfo"@.len() == 10);
    assert("instructions"@.len() == 12);
    assert("name"@.len() == 4);
    assert("version"@.len() == 7);
    assert("tools"@.len() == 5);
    assert("jsonrpc"@.len() == 7);
    assert("id"@.len() == 2);
    assert("result"@.len() == 6);
    assert("error"@.len() == 5);
    assert("code"@.len() == 4);
    assert("message"@.len() == 7);
    assert("capabilities"@[0] != "instructions"@[0]);
    assert("name"@[0] != "code"@[0]);
    assert("version"@[0] != "jsonrpc"@[0]);
    assert("version"@[0] != "message"@[0]);
    assert("tools"@[0] != "error"@[0]);
    assert("jsonrpc"@[0] != "message"@[0]);
    let routes = offered(m.routes@, p);
    assert forall|i: int| 0 <= i < routes.len() implies member(descriptor(#[trigger] routes[i]), "name"@) == Some(
        JsonView::Str(routes[i].tool_text()),
    ) by {
        law_a_tool_is_described_as_it_is_declared(routes[i]);
    }
}

/// A caller is offered every exposed tool whose scopes they hold.
pub proof fn law_a_tool_that_a_caller_may_call_is_offered(routes: Seq<Route>, p: PrincipalView, i: int)
    requires
        0 <= i < routes.len(),
        routes[i].tool.expose,
        forall|s: Seq<char>|
            texts(routes[i].scopes@).contains(s) || texts(routes[i].tool.scopes@).contains(s) ==> #[trigger]
                crate::auth::grants(p.scopes, s),
    ensures
        offered(routes, p).contains(routes[i]),
{
    let keep = |r: Route| is_offered(r, p);
    crate::app::law_a_route_demands_what_it_declares(routes[i]);
    let wanted = demanded(routes[i]);
    assert forall|k: int| 0 <= k < wanted.len() implies crate::auth::grants(p.scopes, #[trigger] wanted[k]) by {
        assert(wanted.contains(wanted[k]));
    }
    crate::auth::law_nothing_missing_iff_all_granted(wanted, p.scopes);
    routes.lemma_filter_contains(keep, i);
}

/// Every message that is no notification is answered once, in the order in which it was
/// sent: appending one appends its answer, a call being answered with what that call came
/// to, and changes no other answer.
pub proof fn law_messages_are_answered_in_order(
    items: Seq<ItemView>,
    outcomes: Seq<Result<JsonView, Seq<char>>>,
    next: ItemView,
)
    ensures
        answers(Seq::empty(), outcomes).len() == 0,
        next is Silent ==> answers(items.push(next), outcomes) == answers(items, outcomes),
        next matches ItemView::Answer(j) ==> answers(items.push(next), outcomes) == answers(items, outcomes).push(j),
        next matches ItemView::Call { id, name, asked } ==> answers(items.push(next), outcomes) == answers(
            items,
            outcomes,
        ).push(call_answer(id, outcomes[call_count(items) as int])),
        call_count(Seq::empty()) == 0,
        call_count(items.push(next)) == call_count(items) + (if next is Call {
            1nat
        } else {
            0nat
        }),
{
    assert(items.push(next).drop_last() =~= items);
}

/// One message is answered with one answer, and a batch with the list of its answers.
pub proof fn law_a_batch_is_answered_with_a_batch(m: Manifest, p: PrincipalView, body: Seq<u8>, outcomes: Seq<Result<JsonView, Seq<char>>>, items: Seq<ItemView>)
    ensures
        json_parsed_bytes(body) matches Some(JsonView::Array(list)) ==> (exchange_of(m, p, body) matches Ok(x) && x.0
            && x.1.len() == list.len() && forall|i: int|
            0 <= i < list.len() ==> #[trigger] x.1[i] == item_of(m, p, list[i])),
        json_parsed_bytes(body) matches Some(JsonView::Object(o)) ==> exchange_of(m, p, body) == Ok::<
            (bool, Seq<ItemView>),
            ResponseView,
        >((false, seq![item_of(m, p, JsonView::Object(o))])),
        json_parsed_bytes(body) is None ==> exchange_of(m, p, body) is Err,
        answers(items, outcomes).len() > 0 ==> exchange_response(true, items, outcomes) == json_response(
            200,
            JsonView::Array(answers(items, outcomes)),
        ),
        answers(items, outcomes).len() > 0 ==> exchange_response(false, items, outcomes) == json_response(
            200,
            answers(items, outcomes)[0],
        ),
        answers(items, outcomes).len() == 0 ==> exchange_response(true, items, outcomes).status == 202,
{
}

/// A client that connects is told the application's name, version and description, and the
/// protocol that is spoken.
pub proof fn law_a_client_is_welcomed(m: Manifest)
    ensures
        ({
            let j = welcome(m);
            &&& member(j, "protocolVersion"@) == Some(JsonView::Str("2025-06-18"@))
            &&& member(j, "serverInfo"@) matches Some(info) && member(info, "name"@) == Some(JsonView::Str(m.name@))
                && member(info, "version"@) == Some(JsonView::Str(m.version@))
            &&& m.description@.len() > 0 ==> member(j, "instructions"@) == Some(JsonView::Str(m.description@))
            &&& member(j, "capabilities"@) matches Some(c) && member(c, "tools"@) is Some
        }),
{
    reveal_strlit("protocolVersion");
    reveal_strlit("capabilities");
    reveal_strlit("serverInfo");
    reveal_strlit("instructions");
    reveal_strlit("name");
    reveal_strlit("version");
    assert("protocolVersion"@.len() == 15);
    assert("capabilities"@.len() == 12);
    assert("serverInfo"@.len() == 10);
    assert("instructions"@.len() == 12);
    assert("name"@.len() == 4);
    assert("version"@.len() == 7);
    assert("capabilities"@[0] != "instructions"@[0]);
}

} // verus!
