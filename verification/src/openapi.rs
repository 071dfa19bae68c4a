//! OpenAPI 3.1 from the route table.
//!
//! Not a separate annotation pass: the same schema that is handed to a model is the
//! schema documented here.

use crate::json::{Json, JsonView, Members, empty_object, lemma_views_push, member, text_array, texts_to_json, views};
use crate::manifest::{AgentDef, FlowDef, Manifest, Op, Route, braced};
use crate::mcp::exposed;
use crate::text::{cat2, lemma_texts_push, lowered, same, split, split_on, strip_prefix, strip_suffix, texts, to_lower};
use vstd::prelude::*;

verus! {

/// The names that the segments of a path put in braces.
pub open spec fn brace_names(segments: Seq<Seq<char>>) -> Seq<Seq<char>>
    decreases segments.len(),
{
    if segments.len() == 0 {
        Seq::empty()
    } else {
        let before = brace_names(segments.drop_last());
        match braced(segments.last()) {
            Some(name) => before.push(name),
            None => before,
        }
    }
}

/// The names of the path parameters of a route.
pub open spec fn param_names(r: Route) -> Seq<Seq<char>> {
    brace_names(split_on(r.path@, '/'))
}

/// The names of the path parameters of a route.
pub fn path_param_names(r: &Route) -> (names: Vec<String>)
    ensures
        texts(names@) == param_names(*r),
{
    let segments = split(r.path.as_str(), '/');
    let ghost all = split_on(r.path@, '/');
    let mut out: Vec<String> = Vec::new();
    let mut i: usize = 0;
    assert(texts(out@) =~= brace_names(all.take(0)));
    while i < segments.len()
        invariant
            i <= segments@.len(),
            all == texts(segments@),
            texts(out@) == brace_names(all.take(i as int)),
        decreases segments.len() - i,
    {
        proof {
            assert(all.take(i + 1).drop_last() =~= all.take(i as int));
            assert(all.take(i + 1).last() == segments@[i as int]@);
        }
        if let Some(rest) = strip_prefix(segments[i].as_str(), "{") {
            if let Some(name) = strip_suffix(rest.as_str(), "}") {
                proof {
                    lemma_texts_push(out@, name);
                }
                out.push(name);
            }
        }
        i = i + 1;
    }
    assert(all.take(all.len() as int) =~= all);
    out
}

/// The schema of a property of a route's input.
pub open spec fn property_of(r: Route, name: Seq<char>) -> Option<JsonView> {
    match r.input_schema {
        Some(s) => match member(s@, "properties"@) {
            Some(p) => member(p, name),
            None => None,
        },
        None => None,
    }
}

/// A path parameter.
pub open spec fn parameter(r: Route, name: Seq<char>) -> JsonView {
    JsonView::Object(
        Map::empty().insert("name"@, JsonView::Str(name)).insert("in"@, JsonView::Str("path"@)).insert(
            "required"@,
            JsonView::Bool(true),
        ).insert(
            "schema"@,
            match property_of(r, name) {
                Some(s) => s,
                None => JsonView::Object(Map::empty().insert("type"@, JsonView::Str("string"@))),
            },
        ),
    )
}

fn parameter_json(r: &Route, name: &str) -> (j: Json)
    ensures
        j@ == parameter(*r, name@),
{
    let schema = match &r.input_schema {
        Some(s) => match s.get("properties") {
            Some(p) => match p.get(name) {
                Some(v) => Some(v.copy()),
                None => None,
            },
            None => None,
        },
        None => None,
    };
    let mut m = Members::new();
    m.put("name", Json::str(name));
    m.put("in", Json::str("path"));
    m.put("required", Json::Bool(true));
    m.put(
        "schema",
        match schema {
            Some(s) => s,
            None => {
                let mut t = Members::new();
                t.put("type", Json::str("string"));
                Json::Object(t)
            },
        },
    );
    Json::Object(m)
}

/// The members of an object but some.
pub open spec fn without_all(m: Map<Seq<char>, JsonView>, names: Seq<Seq<char>>) -> Map<Seq<char>, JsonView> {
    m.remove_keys(names.to_set())
}

/// Says of a value whether it is no text of a list.
pub open spec fn not_among(names: Seq<Seq<char>>) -> spec_fn(JsonView) -> bool {
    |v: JsonView| !(v matches JsonView::Str(s) && names.contains(s))
}

/// A schema without the parameters that stand in the path.
pub open spec fn stripped(schema: JsonView, names: Seq<Seq<char>>) -> JsonView {
    match schema {
        JsonView::Object(m) => {
            let a = match member(schema, "properties"@) {
                Some(JsonView::Object(p)) => m.insert("properties"@, JsonView::Object(without_all(p, names))),
                _ => m,
            };
            let b = match member(schema, "required"@) {
                Some(JsonView::Array(list)) => a.insert("required"@, JsonView::Array(list.filter(not_among(names)))),
                _ => a,
            };
            JsonView::Object(b)
        },
        other => other,
    }
}

/// The schema of a route's body: path parameters are stripped from it, so that it
/// matches what a client actually sends.
pub open spec fn body_of(r: Route) -> Option<JsonView> {
    match r.input_schema {
        Some(s) => Some(
            if param_names(r).len() == 0 {
                s@
            } else {
                stripped(s@, param_names(r))
            },
        ),
        None => None,
    }
}

fn strip_members(p: &Members, names: &Vec<String>) -> (r: Members)
    ensures
        r@ == without_all(p@, texts(names@)),
{
    let ghost all = texts(names@);
    let mut out = p.copy();
    let mut i: usize = 0;
    assert(out@ =~= without_all(p@, all.take(0)));
    while i < names.len()
        invariant
            i <= names@.len(),
            all == texts(names@),
            out@ == without_all(p@, all.take(i as int)),
        decreases names.len() - i,
    {
        out = out.without(names[i].as_str());
        proof {
            let before = all.take(i as int);
            let after = all.take(i + 1);
            assert(after =~= before.push(names@[i as int]@));
            before.lemma_push_to_set_commute(names@[i as int]@);
            assert(out@ =~= without_all(p@, after));
        }
        i = i + 1;
    }
    assert(all.take(all.len() as int) =~= all);
    out
}

fn strip_required(list: &Vec<Json>, names: &Vec<String>) -> (r: Vec<Json>)
    ensures
        views(r@) == views(list@).filter(not_among(texts(names@))),
{
    let ghost all = views(list@);
    let ghost keep = not_among(texts(names@));
    let mut out: Vec<Json> = Vec::new();
    let mut i: usize = 0;
    proof {
        reveal(Seq::filter);
        assert(views(out@) =~= all.take(0).filter(keep));
    }
    while i < list.len()
        invariant
            i <= list@.len(),
            all == views(list@),
            keep == not_among(texts(names@)),
            views(out@) == all.take(i as int).filter(keep),
        decreases list.len() - i,
    {
        proof {
            assert(all.take(i + 1) =~= all.take(i as int).push(all[i as int]));
            all.take(i as int).lemma_filter_push(all[i as int], keep);
            assert(all[i as int] == list@[i as int]@);
        }
        let drop = match &list[i] {
            Json::Str(s) => crate::text::holds(names, s.as_str()),
            _ => false,
        };
        if !drop {
            let v = list[i].copy();
            proof {
                lemma_views_push(out@, v);
            }
            out.push(v);
        }
        i = i + 1;
    }
    assert(all.take(all.len() as int) =~= all);
    out
}

fn strip_schema(schema: &Json, names: &Vec<String>) -> (r: Json)
    ensures
        r@ == stripped(schema@, texts(names@)),
{
    match schema {
        Json::Object(m) => {
            let mut out = m.copy();
            if let Some(Json::Object(p)) = m.get("properties") {
                out.put("properties", Json::Object(strip_members(p, names)));
            }
            if let Some(Json::Array(list)) = m.get("required") {
                proof {
                    Json::lemma_array_views(*list);
                }
                out.put("required", Json::array(strip_required(list, names)));
            }
            Json::Object(out)
        },
        other => other.copy(),
    }
}

/// The schema of a route's body.
pub fn body_schema(r: &Route) -> (s: Option<Json>)
    ensures
        crate::run::maybe_json(s) == body_of(*r),
{
    match &r.input_schema {
        Some(schema) => {
            let names = path_param_names(r);
            assert(texts(names@).len() == names@.len());
            if names.len() == 0 {
                Some(schema.copy())
            } else {
                Some(strip_schema(schema, &names))
            }
        },
        None => None,
    }
}

/// Whether requests of a method carry a body.
pub open spec fn has_body(method: Seq<char>) -> bool {
    method == "POST"@ || method == "PUT"@ || method == "PATCH"@
}

/// A JSON content of a schema.
pub open spec fn json_content(schema: JsonView) -> JsonView {
    JsonView::Object(
        Map::empty().insert(
            "application/json"@,
            JsonView::Object(Map::empty().insert("schema"@, schema)),
        ),
    )
}

/// A route as an operation.
pub open spec fn operation_view(r: Route) -> JsonView {
    let m = Map::empty().insert("operationId"@, JsonView::Str(r.tool_text())).insert(
        "summary"@,
        JsonView::Str(
            if r.summary@.len() == 0 {
                r.tool_text()
            } else {
                r.summary@
            },
        ),
    ).insert("description"@, JsonView::Str(r.description@)).insert(
        "parameters"@,
        JsonView::Array(param_names(r).map_values(|n: Seq<char>| parameter(r, n))),
    ).insert(
        "responses"@,
        JsonView::Object(
            Map::empty().insert(
                "200"@,
                JsonView::Object(
                    Map::empty().insert("description"@, JsonView::Str("Success"@)).insert(
                        "content"@,
                        json_content(
                            match r.output_schema {
                                Some(s) => s@,
                                None => empty_object(),
                            },
                        ),
                    ),
                ),
            ),
        ),
    ).insert("x-webcortex-op"@, JsonView::Str(r.op.kind_text())).insert(
        "x-webcortex-tool"@,
        JsonView::Bool(r.tool.expose),
    );
    JsonView::Object(
        match body_of(r) {
            Some(schema) => if has_body(r.method@) {
                m.insert(
                    "requestBody"@,
                    JsonView::Object(
                        Map::empty().insert("required"@, JsonView::Bool(true)).insert("content"@, json_content(schema)),
                    ),
                )
            } else {
                m
            },
            None => m,
        },
    )
}

fn content_json(schema: Json) -> (r: Json)
    ensures
        r@ == json_content(schema@),
{
    let mut s = Members::new();
    s.put("schema", schema);
    let mut m = Members::new();
    m.put("application/json", Json::Object(s));
    Json::Object(m)
}

/// A route as an operation.
pub fn operation(r: &Route) -> (j: Json)
    ensures
        j@ == operation_view(*r),
{
    let names = path_param_names(r);
    let mut params: Vec<Json> = Vec::new();
    let mut i: usize = 0;
    while i < names.len()
        invariant
            i <= names@.len(),
            params@.len() == i,
            forall|k: int| 0 <= k < i ==> (#[trigger] params@[k])@ == parameter(*r, names@[k]@),
        decreases names.len() - i,
    {
        params.push(parameter_json(r, names[i].as_str()));
        i = i + 1;
    }
    assert(views(params@) =~= param_names(*r).map_values(|n: Seq<char>| parameter(*r, n)));
    let mut ok = Members::new();
    ok.put("description", Json::str("Success"));
    ok.put(
        "content",
        content_json(
            match &r.output_schema {
                Some(s) => s.copy(),
                None => Json::empty(),
            },
        ),
    );
    let mut responses = Members::new();
    responses.put("200", Json::Object(ok));
    let name = r.tool_name();
    let mut m = Members::new();
    m.put("operationId", Json::str(name.as_str()));
    m.put(
        "summary",
        if r.summary.as_str().is_empty() {
            Json::str(name.as_str())
        } else {
            Json::str(r.summary.as_str())
        },
    );
    m.put("description", Json::str(r.description.as_str()));
    m.put("parameters", Json::array(params));
    m.put("responses", Json::Object(responses));
    m.put("x-webcortex-op", Json::str(r.op.kind()));
    m.put("x-webcortex-tool", Json::Bool(r.tool.expose));
    let method = r.method.as_str();
    if same(method, "POST") || same(method, "PUT") || same(method, "PATCH") {
        if let Some(schema) = body_schema(r) {
            let mut body = Members::new();
            body.put("required", Json::Bool(true));
            body.put("content", content_json(schema));
            m.put("requestBody", Json::Object(body));
        }
    }
    Json::Object(m)
}

/// Whether a route is documented: pages and files are not.
pub open spec fn is_documented(r: Route) -> bool {
    !(r.op is Page) && !(r.op is Files)
}

/// What is documented under a path.
pub open spec fn path_item(paths: Map<Seq<char>, JsonView>, path: Seq<char>) -> Map<Seq<char>, JsonView> {
    if paths.contains_key(path) {
        crate::app::members_of(paths[path])
    } else {
        Map::empty()
    }
}

/// The paths of some routes.
pub open spec fn paths_of(routes: Seq<Route>) -> Map<Seq<char>, JsonView>
    decreases routes.len(),
{
    if routes.len() == 0 {
        Map::empty()
    } else {
        let before = paths_of(routes.drop_last());
        let r = routes.last();
        if is_documented(r) {
            before.insert(
                r.path@,
                JsonView::Object(path_item(before, r.path@).insert(lowered(r.method@), operation_view(r))),
            )
        } else {
            before
        }
    }
}

/// The document of a manifest.
pub open spec fn document(m: Manifest) -> JsonView {
    JsonView::Object(
        Map::empty().insert("openapi"@, JsonView::Str("3.1.0"@)).insert(
            "info"@,
            JsonView::Object(
                Map::empty().insert("title"@, JsonView::Str(m.name@)).insert("version"@, JsonView::Str(m.version@)).insert(
                    "description"@,
                    JsonView::Str(m.description@),
                ),
            ),
        ).insert("paths"@, JsonView::Object(paths_of(m.routes@))).insert(
            "x-webcortex"@,
            JsonView::Object(
                Map::empty().insert("mcp_endpoint"@, JsonView::Str(m.server.control_prefix@ + "/mcp"@)).insert(
                    "tools"@,
                    text_array(exposed(m.routes@).map_values(|r: Route| r.tool_text())),
                ).insert("agents"@, text_array(m.agents@.map_values(|a: AgentDef| a.name@))).insert(
                    "flows"@,
                    text_array(m.flows@.map_values(|f: FlowDef| f.name@)),
                ),
            ),
        ),
    )
}

fn document_paths(routes: &Vec<Route>) -> (r: Members)
    ensures
        r@ == paths_of(routes@),
{
    let ghost all = routes@;
    let mut paths = Members::new();
    let mut i: usize = 0;
    assert(paths@ =~= paths_of(all.take(0)));
    while i < routes.len()
        invariant
            i <= routes@.len(),
            all == routes@,
            paths@ == paths_of(all.take(i as int)),
        decreases routes.len() - i,
    {
        let r = &routes[i];
        proof {
            assert(all.take(i + 1).drop_last() =~= all.take(i as int));
            assert(all.take(i + 1).last() == all[i as int]);
        }
        let hidden = match &r.op {
            Op::Page { .. } => true,
            Op::Files { .. } => true,
            _ => false,
        };
        if !hidden {
            let mut item = match paths.get(r.path.as_str()) {
                Some(Json::Object(m)) => m.copy(),
                _ => Members::new(),
            };
            assert(item@ =~= path_item(paths@, r.path@));
            item.put(to_lower(r.method.as_str()).as_str(), operation(r));
            paths.put(r.path.as_str(), Json::Object(item));
        }
        i = i + 1;
    }
    assert(all.take(all.len() as int) =~= all);
    paths
}

/// The names of the exposed tools, in order.
pub fn tool_names(manifest: &Manifest) -> (r: Vec<String>)
    ensures
        texts(r@) == exposed(manifest.routes@).map_values(|x: Route| x.tool_text()),
{
    let tools = manifest.exposed_tools();
    let ghost all = exposed(manifest.routes@);
    assert(tools@.unref() == all);
    let mut out: Vec<String> = Vec::new();
    let mut i: usize = 0;
    while i < tools.len()
        invariant
            i <= tools@.len(),
            tools@.unref() == all,
            out@.len() == i,
            forall|k: int| 0 <= k < i ==> (#[trigger] out@[k])@ == all[k].tool_text(),
        decreases tools.len() - i,
    {
        assert(all[i as int] == *tools@[i as int]);
        out.push(tools[i].tool_name());
        i = i + 1;
    }
    assert(texts(out@) =~= all.map_values(|x: Route| x.tool_text()));
    out
}

/// The names of the agents, in order.
pub fn agent_names(m: &Manifest) -> (r: Vec<String>)
    ensures
        texts(r@) == m.agents@.map_values(|a: AgentDef| a.name@),
{
    let mut agents: Vec<String> = Vec::new();
    let mut i: usize = 0;
    while i < m.agents.len()
        invariant
            i <= m.agents@.len(),
            agents@.len() == i,
            forall|k: int| 0 <= k < i ==> (#[trigger] agents@[k])@ == m.agents@[k].name@,
        decreases m.agents.len() - i,
    {
        agents.push(m.agents[i].name.clone());
        i = i + 1;
    }
    assert(texts(agents@) =~= m.agents@.map_values(|a: AgentDef| a.name@));
    agents
}

/// The names of the flows, in order.
pub fn flow_names(m: &Manifest) -> (r: Vec<String>)
    ensures
        texts(r@) == m.flows@.map_values(|f: FlowDef| f.name@),
{
    let mut flows: Vec<String> = Vec::new();
    let mut j: usize = 0;
    while j < m.flows.len()
        invariant
            j <= m.flows@.len(),
            flows@.len() == j,
            forall|k: int| 0 <= k < j ==> (#[trigger] flows@[k])@ == m.flows@[k].name@,
        decreases m.flows.len() - j,
    {
        flows.push(m.flows[j].name.clone());
        j = j + 1;
    }
    assert(texts(flows@) =~= m.flows@.map_values(|f: FlowDef| f.name@));
    flows
}

/// The OpenAPI document of a manifest.
pub fn generate(m: &Manifest) -> (r: Json)
    ensures
        r@ == document(*m),
{
    let mut info = Members::new();
    info.put("title", Json::str(m.name.as_str()));
    info.put("version", Json::str(m.version.as_str()));
    info.put("description", Json::str(m.description.as_str()));
    let mut own = Members::new();
    own.put("mcp_endpoint", Json::str(cat2(m.server.control_prefix.as_str(), "/mcp").as_str()));
    own.put("tools", texts_to_json(&tool_names(m)));
    own.put("agents", texts_to_json(&agent_names(m)));
    own.put("flows", texts_to_json(&flow_names(m)));
    let mut doc = Members::new();
    doc.put("openapi", Json::str("3.1.0"));
    doc.put("info", Json::Object(info));
    doc.put("paths", Json::Object(document_paths(&m.routes)));
    doc.put("x-webcortex", Json::Object(own));
    Json::Object(doc)
}

/// Whatever is declared is documented: under its path and method, a route stands in the
/// document, where no later route has both.
pub proof fn law_every_route_is_an_operation(routes: Seq<Route>, i: int)
    requires
        0 <= i < routes.len(),
        is_documented(routes[i]),
        forall|j: int|
            i < j < routes.len() && is_documented(routes[j]) && #[trigger] routes[j].path@ == routes[i].path@
                ==> lowered(routes[j].method@) != lowered(routes[i].method@),
    ensures
        paths_of(routes).contains_key(routes[i].path@),
        member(paths_of(routes)[routes[i].path@], lowered(routes[i].method@)) == Some(operation_view(routes[i])),
    decreases routes.len(),
{
    let rest = routes.drop_last();
    let last = routes.last();
    if i < rest.len() {
        assert(rest[i] == routes[i]);
        assert forall|j: int|
            i < j < rest.len() && is_documented(rest[j]) && #[trigger] rest[j].path@ == rest[i].path@ implies lowered(
            rest[j].method@,
        ) != lowered(rest[i].method@) by {
            assert(routes[j] == rest[j]);
        }
        law_every_route_is_an_operation(rest, i);
        if is_documented(last) && last.path@ == routes[i].path@ {
            assert(routes[routes.len() - 1].path@ == routes[i].path@);
            assert(paths_of(rest)[last.path@] is Object);
        }
    }
}

proof fn lemma_brace_names(segments: Seq<Seq<char>>, name: Seq<char>)
    ensures
        brace_names(segments).contains(name) <==> segments.contains("{"@ + name + "}"@),
    decreases segments.len(),
{
    if segments.len() > 0 {
        let rest = segments.drop_last();
        let last = segments.last();
        let held = "{"@ + name + "}"@;
        lemma_brace_names(rest, name);
        crate::manifest::law_a_parameter_stands_between_braces(last, name);
        let before = brace_names(rest);
        let all = brace_names(segments);
        if segments.contains(held) {
            let i = choose|i: int| 0 <= i < segments.len() && segments[i] == held;
            if i < rest.len() {
                assert(rest[i] == held);
            }
        }
        if rest.contains(held) {
            let i = choose|i: int| 0 <= i < rest.len() && rest[i] == held;
            assert(segments[i] == held);
        }
        if last == held {
            assert(segments[segments.len() - 1] == held);
            assert(all[all.len() - 1] == name);
        }
        if before.contains(name) {
            let i = choose|i: int| 0 <= i < before.len() && before[i] == name;
            assert(all[i] == name);
        }
        if all.contains(name) {
            let i = choose|i: int| 0 <= i < all.len() && all[i] == name;
            if i < before.len() {
                assert(before[i] == name);
            } else {
                assert(braced(last) == Some(name));
            }
        }
    }
}

/// The parameters of a route are the names that its path puts in braces; each is documented
/// as required, in the path, with the schema that the route's input gives it.
pub proof fn law_a_routes_parameters_are_those_of_its_path(r: Route, name: Seq<char>)
    ensures
        param_names(r).contains(name) <==> split_on(r.path@, '/').contains("{"@ + name + "}"@),
        ({
            let p = parameter(r, name);
            &&& member(p, "name"@) == Some(JsonView::Str(name))
            &&& member(p, "in"@) == Some(JsonView::Str("path"@))
            &&& member(p, "required"@) == Some(JsonView::Bool(true))
            &&& r.input_schema matches Some(s) ==> (member(s@, "properties"@) matches Some(all) ==> (member(all, name)
                matches Some(own) ==> member(p, "schema"@) == Some(own)))
            &&& r.input_schema is None ==> (member(p, "schema"@) matches Some(own) && member(own, "type"@) == Some(
                JsonView::Str("string"@),
            ))
        }),
{
    lemma_brace_names(split_on(r.path@, '/'), name);
    reveal_strlit("name");
    reveal_strlit("in");
    reveal_strlit("required");
    reveal_strlit("schema");
    reveal_strlit("type");
    assert("name"@.len() == 4);
    assert("in"@.len() == 2);
    assert("required"@.len() == 8);
    assert("schema"@.len() == 6);
    assert("type"@.len() == 4);
    assert("name"@[0] != "type"@[0]);
}

/// The body of a route is its input without what stands in the path: no parameter is a
/// property of it or required by it, and every other property and requirement stays.
pub proof fn law_a_body_is_the_input_without_the_path(
    r: Route,
    name: Seq<char>,
    properties: Map<Seq<char>, JsonView>,
    required: Seq<JsonView>,
)
    requires
        r.input_schema matches Some(s) && member(s@, "properties"@) == Some(JsonView::Object(properties)) && member(
            s@,
            "required"@,
        ) == Some(JsonView::Array(required)),
    ensures
        ({
            let s = r.input_schema->0@;
            let in_path = split_on(r.path@, '/').contains("{"@ + name + "}"@);
            &&& body_of(r) matches Some(b)
            &&& member(b, "properties"@) matches Some(JsonView::Object(p))
            &&& p.contains_key(name) <==> properties.contains_key(name) && !in_path
            &&& p.contains_key(name) ==> p[name] == properties[name]
            &&& member(b, "required"@) matches Some(JsonView::Array(list))
            &&& list.contains(JsonView::Str(name)) <==> required.contains(JsonView::Str(name)) && !in_path
            &&& name != "properties"@ && name != "required"@ ==> member(b, name) == member(s, name)
        }),
{
    reveal_strlit("properties");
    reveal_strlit("required");
    assert("properties"@.len() == 10);
    assert("required"@.len() == 8);
    lemma_brace_names(split_on(r.path@, '/'), name);
    let names = param_names(r);
    let keep = not_among(names);
    let list = required.filter(keep);
    let v = JsonView::Str(name);
    if names.len() > 0 {
        if required.contains(v) && !names.contains(name) {
            let i = choose|i: int| 0 <= i < required.len() && required[i] == v;
            assert(keep(v));
            required.lemma_filter_contains(keep, i);
        }
        if list.contains(v) {
            let i = choose|i: int| 0 <= i < list.len() && list[i] == v;
            required.lemma_filter_pred(keep, i);
            required.lemma_filter_contains_rev(keep, v);
        }
        assert(names.to_set().contains(name) <==> names.contains(name));
    }
}

/// An operation says what its route takes and gives: the name of its tool, its summary and
/// description, one parameter for each of its path, the schema of its answer, and, where its
/// method has one, the schema of its body.
pub proof fn law_an_operation_says_what_its_route_takes_and_gives(r: Route)
    ensures
        ({
            let j = operation_view(r);
            let bodied = r.method@ == "POST"@ || r.method@ == "PUT"@ || r.method@ == "PATCH"@;
            &&& member(j, "operationId"@) == Some(JsonView::Str(r.tool_text()))
            &&& r.summary@.len() > 0 ==> member(j, "summary"@) == Some(JsonView::Str(r.summary@))
            &&& member(j, "description"@) == Some(JsonView::Str(r.description@))
            &&& member(j, "parameters"@) matches Some(JsonView::Array(list)) && list.len() == param_names(r).len()
                && forall|i: int| 0 <= i < list.len() ==> #[trigger] list[i] == parameter(r, param_names(r)[i])
            &&& member(j, "responses"@) matches Some(all) && (member(all, "200"@) matches Some(ok) && (member(ok, "content"@)
                matches Some(c) && (member(c, "application/json"@) matches Some(typed) && (r.output_schema matches Some(s)
                ==> member(typed, "schema"@) == Some(s@)))))
            &&& member(j, "x-webcortex-op"@) == Some(JsonView::Str(r.op.kind_text()))
            &&& member(j, "x-webcortex-tool"@) == Some(JsonView::Bool(r.tool.expose))
            &&& !bodied || r.input_schema is None ==> member(j, "requestBody"@) is None
            &&& bodied && r.input_schema is Some ==> (member(j, "requestBody"@) matches Some(b) && member(b, "required"@)
                == Some(JsonView::Bool(true)) && (member(b, "content"@) matches Some(c) && (member(c, "application/json"@)
                matches Some(typed) && member(typed, "schema"@) == body_of(r))))
        }),
{
    reveal_strlit("operationId");
    reveal_strlit("summary");
    reveal_strlit("description");
    reveal_strlit("parameters");
    reveal_strlit("responses");
    reveal_strlit("x-webcortex-op");
    reveal_strlit("x-webcortex-tool");
    reveal_strlit("requestBody");
    reveal_strlit("required");
    reveal_strlit("content");
    reveal_strlit("application/json");
    reveal_strlit("schema");
    reveal_strlit("200");
    assert("operationId"@.len() == 11);
    assert("summary"@.len() == 7);
    assert("description"@.len() == 11);
    assert("parameters"@.len() == 10);
    assert("responses"@.len() == 9);
    assert("x-webcortex-op"@.len() == 14);
    assert("x-webcortex-tool"@.len() == 16);
    assert("requestBody"@.len() == 11);
    assert("required"@.len() == 8);
    assert("content"@.len() == 7);
    assert("application/json"@.len() == 16);
    assert("schema"@.len() == 6);
    assert("200"@.len() == 3);
    assert("operationId"@[0] != "description"@[0]);
    assert("operationId"@[0] != "requestBody"@[0]);
    assert("summary"@[0] != "content"@[0]);
    assert("description"@[0] != "requestBody"@[0]);
    assert("x-webcortex-tool"@[0] != "application/json"@[0]);
}

/// The document names the application, and lists its tools, agents and flows, each in order.
pub proof fn law_a_document_lists_what_is_declared(m: Manifest)
    ensures
        ({
            let j = document(m);
            &&& member(j, "paths"@) == Some(JsonView::Object(paths_of(m.routes@)))
            &&& member(j, "info"@) matches Some(info) && member(info, "title"@) == Some(JsonView::Str(m.name@)) && member(
                info,
                "version"@,
            ) == Some(JsonView::Str(m.version@)) && member(info, "description"@) == Some(JsonView::Str(m.description@))
            &&& member(j, "x-webcortex"@) matches Some(own) && (member(own, "agents"@) matches Some(JsonView::Array(list))
                && list.len() == m.agents@.len() && forall|i: int|
                0 <= i < list.len() ==> #[trigger] list[i] == JsonView::Str(m.agents@[i].name@)) && (member(own, "flows"@)
                matches Some(JsonView::Array(list)) && list.len() == m.flows@.len() && forall|i: int|
                0 <= i < list.len() ==> #[trigger] list[i] == JsonView::Str(m.flows@[i].name@)) && member(
                own,
                "mcp_endpoint"@,
            ) == Some(JsonView::Str(m.server.control_prefix@ + "/mcp"@))
        }),
{
    reveal_strlit("openapi");
    reveal_strlit("info");
    reveal_strlit("paths");
    reveal_strlit("x-webcortex");
    reveal_strlit("title");
    reveal_strlit("version");
    reveal_strlit("description");
    reveal_strlit("mcp_endpoint");
    reveal_strlit("tools");
    reveal_strlit("agents");
    reveal_strlit("flows");
    assert("openapi"@.len() == 7);
    assert("info"@.len() == 4);
    assert("paths"@.len() == 5);
    assert("x-webcortex"@.len() == 11);
    assert("title"@.len() == 5);
    assert("version"@.len() == 7);
    assert("description"@.len() == 11);
    assert("mcp_endpoint"@.len() == 12);
    assert("tools"@.len() == 5);
    assert("agents"@.len() == 6);
    assert("flows"@.len() == 5);
    assert("openapi"@[0] != "version"@[0]);
    assert("paths"@[0] != "title"@[0]);
    assert("paths"@[0] != "tools"@[0]);
    assert("paths"@[0] != "flows"@[0]);
    assert("x-webcortex"@[0] != "description"@[0]);
    assert("title"@[1] != "tools"@[1]);
    assert("title"@[0] != "flows"@[0]);
    assert("tools"@[0] != "flows"@[0]);
}

/// Pages and files are not documented, and everything else is.
pub proof fn law_all_but_pages_and_files_is_documented(r: Route)
    ensures
        is_documented(r) <==> !(r.op is Page) && !(r.op is Files),
{
}

} // verus!
