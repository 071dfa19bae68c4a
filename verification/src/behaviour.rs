//! What a behaviour, ordinary code with real loops and real branches, may do while
//! it runs: call tools, ask the model, read context, and be stopped.
//!
//! Scopes, budgets, approval gates and the trace apply to a behaviour exactly as they
//! apply to an agent.

use crate::app::{ask_outcome, tool_call, tool_request};
use crate::auth::{Principal, PrincipalKind, PrincipalView, Root};
use crate::budget::{SharedBudget, overspent_text, passed, saturating};
use crate::control::{number, number_or_null};
use crate::conversation::{Conversation, MessageView, ToolSpec, ToolSpecView, tool_views};
use crate::http::PylonRequest;
use crate::json::{
    Json, JsonView, Members, Number, NumberView, empty_object, json_text, lemma_views_push, text_array, texts_to_json, views,
};
use crate::ledger::{KeyView, Ledger, Totals, after_charge, one_call};
use crate::manifest::{AgentDef, Approval, BehaviourDef, ContextDef, ContextPolicy, Manifest, Route, context_named};
use crate::mcp::exposed;
use crate::openapi::tool_names;
use crate::provider::{CallView, CompletionRequest, ProviderResponse, ReplyView, RequestView, recover_json, recovered};
use crate::runtime::{is_gated, outcome_view, reply_view};
use crate::text::{
    byte_len, cat2, cat3, cat4, cat6, contains, contains_text, copy_texts, debug_quoted, decimal, decimal_text, holds,
    join, joined, quoted, same, texts,
};
use vstd::prelude::*;

verus! {

/// What a behaviour did at one leaf.
#[derive(Debug)]
pub struct TraceEntry {
    pub kind: String,
    pub label: String,
    pub detail: Json,
    pub duration_ms: u64,
}

/// What a [`TraceEntry`] says.
pub struct TraceView {
    pub kind: Seq<char>,
    pub label: Seq<char>,
    pub detail: JsonView,
    pub duration_ms: u64,
}

impl View for TraceEntry {
    type V = TraceView;

    open spec fn view(&self) -> TraceView {
        TraceView { kind: self.kind@, label: self.label@, detail: self.detail@, duration_ms: self.duration_ms }
    }
}

/// What a trace says.
pub open spec fn trace_views(list: Seq<TraceEntry>) -> Seq<TraceView> {
    list.map_values(|e: TraceEntry| e@)
}

/// Why a behaviour does not go on as it asked.
#[derive(Debug)]
pub enum Halt {
    /// The runtime refuses to continue: a budget is exhausted, or a step needs human
    /// approval.
    Halted(String),
    /// The behaviour did not declare what it reaches for.
    Denied(String),
    /// What was asked for failed.
    Failed(String),
    /// What was asked for makes no sense.
    Invalid(String),
}

/// What a [`Halt`] says.
pub enum HaltView {
    Halted(Seq<char>),
    Denied(Seq<char>),
    Failed(Seq<char>),
    Invalid(Seq<char>),
}

impl View for Halt {
    type V = HaltView;

    open spec fn view(&self) -> HaltView {
        match *self {
            Halt::Halted(m) => HaltView::Halted(m@),
            Halt::Denied(m) => HaltView::Denied(m@),
            Halt::Failed(m) => HaltView::Failed(m@),
            Halt::Invalid(m) => HaltView::Invalid(m@),
        }
    }
}

/// What is handed to a behaviour that runs.
pub struct BehaviourContext<'a> {
    pub manifest: &'a Manifest,
    pub def: &'a BehaviourDef,
    pub run_id: String,
    /// Whose authority it holds: a subset of its caller's.
    pub principal: Principal,
    /// How deep the tools called from here run: one level deeper than the request that
    /// started the run.
    pub depth: u32,
    pub steps: u64,
    pub input_tokens: u64,
    pub output_tokens: u64,
    pub cache_tokens: u64,
    pub trace: Vec<TraceEntry>,
}

/// What a [`BehaviourContext`] holds.
pub struct BehaviourView {
    pub manifest: Manifest,
    pub def: BehaviourDef,
    pub run_id: Seq<char>,
    pub principal: PrincipalView,
    pub depth: u32,
    pub steps: u64,
    pub input_tokens: u64,
    pub output_tokens: u64,
    pub cache_tokens: u64,
    pub trace: Seq<TraceView>,
}

impl<'a> View for BehaviourContext<'a> {
    type V = BehaviourView;

    open spec fn view(&self) -> BehaviourView {
        BehaviourView {
            manifest: *self.manifest,
            def: *self.def,
            run_id: self.run_id@,
            principal: self.principal@,
            depth: self.depth,
            steps: self.steps,
            input_tokens: self.input_tokens,
            output_tokens: self.output_tokens,
            cache_tokens: self.cache_tokens,
            trace: trace_views(self.trace@),
        }
    }
}

/// A run with one entry more in its trace.
pub open spec fn traced(v: BehaviourView, kind: Seq<char>, label: Seq<char>, detail: JsonView, duration_ms: u64) -> BehaviourView {
    BehaviourView { trace: v.trace.push(TraceView { kind, label, detail, duration_ms }), ..v }
}

/// A run with one step more.
pub open spec fn stepped(v: BehaviourView) -> BehaviourView {
    BehaviourView { steps: saturating(v.steps, 1), ..v }
}

/// Whether a run took more steps than it may, and what is said of it.
pub open spec fn step_halt(v: BehaviourView) -> Option<HaltView> {
    if v.steps > v.def.max_steps {
        Some(
            HaltView::Halted(
                "behaviour "@ + debug_quoted(v.def.name@) + " exceeded its step budget of "@ + decimal(
                    v.def.max_steps as nat,
                ),
            ),
        )
    } else {
        None
    }
}

/// A run that takes some steps, up to the first that is one too many.
pub open spec fn stepped_many(v: BehaviourView, n: nat) -> (BehaviourView, Option<HaltView>)
    decreases n,
{
    if n == 0 {
        (v, None)
    } else {
        match step_halt(stepped(v)) {
            Some(h) => (stepped(v), Some(h)),
            None => stepped_many(stepped(v), (n - 1) as nat),
        }
    }
}

/// What a halt says, where there is one.
pub open spec fn halt_of(r: Result<(), Halt>) -> Option<HaltView> {
    match r {
        Ok(_) => None,
        Err(h) => Some(h@),
    }
}

/// A run that spent some tokens.
pub open spec fn tokens_spent(v: BehaviourView, input: u64, output: u64, cache: u64) -> BehaviourView {
    BehaviourView {
        input_tokens: saturating(v.input_tokens, input),
        output_tokens: saturating(v.output_tokens, output),
        cache_tokens: saturating(v.cache_tokens, cache),
        ..v
    }
}

/// The tokens that a run spent.
pub open spec fn run_tokens(v: BehaviourView) -> u64 {
    saturating(saturating(v.input_tokens, v.output_tokens), v.cache_tokens)
}

/// Whether a run or its request tree spent more than it may, and what is said of it.
/// The tree's ceiling comes first, so that a behaviour launched by an agent cannot
/// outspend the agent's budget.
pub open spec fn token_halt(v: BehaviourView, label: Seq<char>, max: Option<u64>, spent: u64) -> Option<HaltView> {
    if passed(max, spent) {
        Some(HaltView::Halted(overspent_text(label, max->0, spent)))
    } else if passed(v.def.token_budget, run_tokens(v)) {
        Some(
            HaltView::Halted(
                "behaviour "@ + debug_quoted(v.def.name@) + " exhausted its token budget of "@ + decimal(
                    v.def.token_budget->0 as nat,
                ),
            ),
        )
    } else {
        None
    }
}

/// Why a run may not call a tool, if it may not. A gate stops a behaviour just as it
/// stops an agent: wrapping a gated tool in a behaviour does not launder it.
pub open spec fn call_halt(v: BehaviourView, tool: Seq<char>) -> Option<HaltView> {
    let allowed = texts(v.def.tools@);
    if allowed.len() > 0 && !allowed.contains(tool) {
        Some(
            HaltView::Denied(
                "behaviour "@ + debug_quoted(v.def.name@) + " may not call "@ + debug_quoted(tool)
                    + "; declared tools: "@ + joined(allowed, ", "@),
            ),
        )
    } else if is_gated(v.manifest.routes@, tool) {
        Some(
            HaltView::Halted(
                "tool "@ + debug_quoted(tool)
                    + " requires human approval and cannot run unattended inside a behaviour"@,
            ),
        )
    } else {
        None
    }
}

/// Whether a failure is the runtime's nesting ceiling, a deliberate stop rather than a
/// handler's fault.
pub open spec fn is_ceiling(error: Seq<char>) -> bool {
    contains_text(error, "failed with 508:"@)
}

/// Whether a failure is the runtime's nesting ceiling.
pub fn is_nesting_ceiling(error: &str) -> (r: bool)
    ensures
        r == is_ceiling(error@),
{
    contains(error, "failed with 508:")
}

/// How a failure is raised in a behaviour.
pub open spec fn raised(v: BehaviourView, error: Seq<char>) -> HaltView {
    if is_ceiling(error) {
        HaltView::Halted("behaviour "@ + debug_quoted(v.def.name@) + " was stopped: "@ + error)
    } else {
        HaltView::Failed(error)
    }
}

/// An error as a value.
pub open spec fn error_detail(e: Seq<char>) -> JsonView {
    JsonView::Object(Map::empty().insert("error"@, JsonView::Str(e)))
}

fn error_value(e: &str) -> (r: Json)
    ensures
        r@ == error_detail(e@),
{
    let mut m = Members::new();
    m.put("error", Json::str(e));
    Json::Object(m)
}

/// A failure that is handed back in place.
pub open spec fn failed_item(e: Seq<char>) -> JsonView {
    JsonView::Object(Map::empty().insert("error"@, JsonView::Str(e)).insert("ok"@, JsonView::Bool(false)))
}

/// A run after some calls at once.
pub open spec fn calls_traced(
    v: BehaviourView,
    names: Seq<Seq<char>>,
    results: Seq<Result<JsonView, Seq<char>>>,
    duration_ms: u64,
) -> BehaviourView
    decreases results.len(),
{
    if results.len() == 0 {
        v
    } else {
        let before = calls_traced(v, names, results.drop_last(), duration_ms);
        let name = names[results.len() - 1];
        match results.last() {
            Ok(value) => traced(before, "call"@, name, value, duration_ms),
            Err(e) => traced(before, "call_failed"@, name, error_detail(e), duration_ms),
        }
    }
}

/// What some calls at once came to, each failure in its place.
pub open spec fn call_items(results: Seq<Result<JsonView, Seq<char>>>) -> Seq<JsonView> {
    results.map_values(
        |r: Result<JsonView, Seq<char>>|
            match r {
                Ok(value) => value,
                Err(e) => failed_item(e),
            },
    )
}

/// The first failure of some calls at once.
pub open spec fn first_failure(names: Seq<Seq<char>>, results: Seq<Result<JsonView, Seq<char>>>) -> Option<Seq<char>>
    decreases results.len(),
{
    if results.len() == 0 {
        None
    } else {
        match first_failure(names, results.drop_last()) {
            Some(e) => Some(e),
            None => match results.last() {
                Ok(_) => None,
                Err(e) => Some(names[results.len() - 1] + ": "@ + e),
            },
        }
    }
}

/// What a list of outcomes says.
pub open spec fn outcome_views(list: Seq<Result<Json, String>>) -> Seq<Result<JsonView, Seq<char>>> {
    list.map_values(|r: Result<Json, String>| outcome_view(r))
}

/// One request among several that are called at once.
pub enum GatherItem {
    /// A tool's name with its arguments, if any were given.
    Pair(String, Option<Json>),
    /// A tool's name alone.
    Name(String),
    /// The arguments, with the tool's name taken out of them where it was there.
    Fields { tool: Option<String>, rest: Members },
    /// Anything else.
    Other,
}

/// The tool and arguments that an item asks for.
pub open spec fn gather_of(item: GatherItem) -> Result<(Seq<char>, JsonView), HaltView> {
    match item {
        GatherItem::Pair(name, None) => Ok((name@, empty_object())),
        GatherItem::Pair(name, Some(args)) => if args@ is Object {
            Ok((name@, args@))
        } else {
            Err(HaltView::Invalid("gather: the second element must be a dict of arguments"@))
        },
        GatherItem::Name(name) => Ok((name@, empty_object())),
        GatherItem::Fields { tool: Some(name), rest } => Ok((name@, JsonView::Object(rest@))),
        _ => Err(
            HaltView::Invalid(
                "gather items must be (tool, kwargs) tuples, tool names, or dicts with a 'tool' key"@,
            ),
        ),
    }
}

/// Reads one item.
pub fn parse_gather_item(item: GatherItem) -> (r: Result<(String, Json), Halt>)
    ensures
        match (r, gather_of(item)) {
            (Ok(p), Ok(q)) => (p.0@, p.1@) == q,
            (Err(h), Err(v)) => h@ == v,
            _ => false,
        },
{
    match item {
        GatherItem::Pair(name, None) => Ok((name, Json::empty())),
        GatherItem::Pair(name, Some(args)) => {
            let is_object = match &args {
                Json::Object(_) => true,
                _ => false,
            };
            if is_object {
                Ok((name, args))
            } else {
                Err(Halt::Invalid("gather: the second element must be a dict of arguments".to_owned()))
            }
        },
        GatherItem::Name(name) => Ok((name, Json::empty())),
        GatherItem::Fields { tool: Some(name), rest } => Ok((name, Json::Object(rest))),
        _ => Err(
            Halt::Invalid(
                "gather items must be (tool, kwargs) tuples, tool names, or dicts with a 'tool' key".to_owned(),
            ),
        ),
    }
}

/// A question for the model.
pub struct Ask {
    pub def: AgentDef,
    pub conversation: Conversation,
    pub tools: Vec<ToolSpec>,
    /// Whether the answer is wanted in a given shape.
    pub structured: bool,
}

/// How a question is put, where a call leaves something to the behaviour's own
/// settings.
pub struct AskOptions<'a> {
    pub schema: Option<&'a Json>,
    pub system: Option<&'a str>,
    pub model: Option<&'a str>,
    pub max_tokens: Option<u32>,
    pub temperature: Option<&'a Number>,
}

/// What a shape is asked for with: a single tool that the model must use.
pub open spec fn respond_tools(schema: Option<JsonView>, description: Seq<char>) -> Seq<ToolSpecView> {
    match schema {
        Some(s) => seq![ToolSpecView { name: "respond"@, description, input_schema: s }],
        None => Seq::empty(),
    }
}

/// The value that an optional reference holds.
pub open spec fn maybe_value(j: Option<&Json>) -> Option<JsonView> {
    match j {
        Some(v) => Some(v@),
        None => None,
    }
}

/// The question that a model is asked.
pub open spec fn question(
    name: Seq<char>,
    model: Seq<char>,
    system: Seq<char>,
    max_tokens: u32,
    temperature: Option<NumberView>,
    prompt: Seq<char>,
    schema: Option<JsonView>,
    description: Seq<char>,
) -> RequestView {
    RequestView {
        agent: name,
        model,
        system,
        max_tokens,
        temperature,
        cache: false,
        messages: seq![MessageView { role: "user"@, content: JsonView::Str(prompt) }],
        tools: respond_tools(schema, description),
        force_tool: if schema is Some {
            Some("respond"@)
        } else {
            None
        },
        system_suffix: ""@,
    }
}

/// The question that a behaviour asks.
pub open spec fn asked(def: BehaviourDef, prompt: Seq<char>, o: AskOptions) -> RequestView {
    question(
        def.name@,
        match o.model {
            Some(m) => m@,
            None => def.model@,
        },
        match o.system {
            Some(s) => s@,
            None => ""@,
        },
        match o.max_tokens {
            Some(n) => n,
            None => def.max_tokens,
        },
        match o.temperature {
            Some(t) => Some(t@),
            None => match def.temperature {
                Some(t) => Some(t@),
                None => None,
            },
        },
        prompt,
        maybe_value(o.schema),
        "Respond with structured output in the required shape."@,
    )
}

impl Ask {
    /// What is asked.
    pub open spec fn asks(&self) -> RequestView {
        RequestView {
            agent: self.def.name@,
            model: self.def.model@,
            system: self.def.system@,
            max_tokens: self.def.max_tokens,
            temperature: match self.def.temperature {
                Some(n) => Some(n@),
                None => None,
            },
            cache: self.def.cache,
            messages: self.conversation@,
            tools: tool_views(self.tools@),
            force_tool: if self.structured {
                Some("respond"@)
            } else {
                None
            },
            system_suffix: ""@,
        }
    }

    /// Whether whoever is asked answers once and acts on nothing: no tool, scope, context
    /// or handoff of its own, and no limit but the one step.
    pub open spec fn is_leaf(&self) -> bool {
        &&& self.def.description@.len() == 0
        &&& self.def.tools@.len() == 0
        &&& self.def.max_steps == Some(1u32)
        &&& self.def.token_budget is None
        &&& self.def.scopes@.len() == 0
        &&& self.def.handoffs@.len() == 0
        &&& self.def.context@.len() == 0
        &&& crate::manifest::is_default_policy(self.def.policy)
    }

    /// The request that asks it.
    pub fn request(&self) -> (r: CompletionRequest<'_>)
        ensures
            r@ == self.asks(),
    {
        CompletionRequest {
            agent: &self.def,
            conversation: &self.conversation,
            tools: self.tools.as_slice(),
            force_tool: if self.structured {
                Some("respond")
            } else {
                None
            },
            system_suffix: "",
        }
    }

    fn put(
        name: &str,
        model: &str,
        system: &str,
        max_tokens: u32,
        temperature: Option<Number>,
        prompt: &str,
        schema: Option<&Json>,
        description: &str,
    ) -> (r: Ask)
        ensures
            r.asks() == question(
                name@,
                model@,
                system@,
                max_tokens,
                match temperature {
                    Some(n) => Some(n@),
                    None => None,
                },
                prompt@,
                maybe_value(schema),
                description@,
            ),
            r.structured == (schema is Some),
            r.is_leaf(),
    {
        let def = AgentDef {
            name: name.to_owned(),
            description: String::new(),
            model: model.to_owned(),
            system: system.to_owned(),
            tools: Vec::new(),
            max_steps: Some(1),
            token_budget: None,
            scopes: Vec::new(),
            temperature,
            max_tokens,
            handoffs: Vec::new(),
            context: Vec::new(),
            cache: false,
            policy: ContextPolicy::default(),
        };
        let mut conversation = Conversation::default();
        conversation.say("user", Json::str(prompt));
        assert(conversation@ =~= seq![MessageView { role: "user"@, content: JsonView::Str(prompt@) }]);
        let mut tools: Vec<ToolSpec> = Vec::new();
        if let Some(s) = schema {
            tools.push(
                ToolSpec { name: "respond".to_owned(), description: description.to_owned(), input_schema: s.copy() },
            );
        }
        assert(tool_views(tools@) =~= respond_tools(maybe_value(schema), description@));
        Ask { def, conversation, tools, structured: schema.is_some() }
    }
}

/// The arguments of the first call of a tool.
pub open spec fn first_call(calls: Seq<CallView>, name: Seq<char>) -> Option<JsonView>
    decreases calls.len(),
{
    if calls.len() == 0 {
        None
    } else if calls[0].name == name {
        Some(calls[0].arguments)
    } else {
        first_call(calls.skip(1), name)
    }
}

/// What a reply says in the wanted shape: what it called the answering tool with, or
/// what can be recovered from its prose.
pub open spec fn structured_answer(r: ReplyView) -> Option<JsonView> {
    match first_call(r.tool_calls, "respond"@) {
        Some(j) => Some(j),
        None => recovered(r.text),
    }
}

fn read_structured(r: &ProviderResponse) -> (j: Option<Json>)
    ensures
        crate::run::maybe_json(j) == structured_answer(r@),
{
    let ghost all = r@.tool_calls;
    let mut i: usize = 0;
    assert(all.skip(0) =~= all);
    while i < r.tool_calls.len()
        invariant
            i <= r.tool_calls@.len(),
            all == r@.tool_calls,
            first_call(all.skip(i as int), "respond"@) == first_call(all, "respond"@),
        decreases r.tool_calls.len() - i,
    {
        proof {
            assert(all.skip(i as int)[0] == r.tool_calls@[i as int]@);
            assert(all.skip(i as int).skip(1) =~= all.skip(i + 1));
        }
        if same(r.tool_calls[i].name.as_str(), "respond") {
            return Some(r.tool_calls[i].arguments.copy());
        }
        i = i + 1;
    }
    recover_json(r.text.as_str())
}

/// What a behaviour, its request tree and the ledger count.
pub struct Books {
    pub run: BehaviourView,
    /// What the request tree spent.
    pub spent: u64,
    pub entries: Map<KeyView, Totals>,
}

/// The books after a reply was paid for.
pub open spec fn paid(b: Books, r: ReplyView) -> Books {
    let cache = saturating(r.cache_read_tokens, r.cache_write_tokens);
    Books {
        run: tokens_spent(b.run, r.input_tokens, r.output_tokens, cache),
        spent: saturating(b.spent, saturating(saturating(r.input_tokens, r.output_tokens), cache)),
        entries: after_charge(
            b.entries,
            KeyView { kind: "behaviour"@, name: b.run.def.name@, model: r.model },
            one_call(r.input_tokens, r.output_tokens, r.cache_read_tokens, r.cache_write_tokens),
        ),
    }
}

/// What a model's reply comes to: structured output when a shape was asked for,
/// otherwise the text.
pub open spec fn settled_ask(
    b: Books,
    label: Seq<char>,
    max: Option<u64>,
    reply: Result<ReplyView, Seq<char>>,
    structured: bool,
    duration_ms: u64,
) -> (Books, Result<JsonView, HaltView>) {
    match reply {
        Err(e) => (
            Books { run: traced(b.run, "ask_failed"@, "model"@, error_detail(e), duration_ms), ..b },
            Err(HaltView::Failed(e)),
        ),
        Ok(r) => {
            let c = paid(b, r);
            match token_halt(c.run, label, max, c.spent) {
                Some(h) => (c, Err(h)),
                None => if structured {
                    match structured_answer(r) {
                        Some(value) => (
                            Books { run: traced(c.run, "ask"@, "structured"@, value, duration_ms), ..c },
                            Ok(value),
                        ),
                        None => (c, Err(HaltView::Failed(no_structure_text(r.text)))),
                    }
                } else {
                    (
                        Books {
                            run: traced(
                                c.run,
                                "ask"@,
                                "text"@,
                                JsonView::Object(
                                    Map::empty().insert("chars"@, number(byte_len(r.text) as int)).insert(
                                        "model"@,
                                        JsonView::Str(r.model),
                                    ),
                                ),
                                duration_ms,
                            ),
                            ..c
                        },
                        Ok(JsonView::Str(r.text)),
                    )
                },
            }
        },
    }
}

/// What is said of a reply that is not in the wanted shape.
pub open spec fn no_structure_text(text: Seq<char>) -> Seq<char> {
    "model did not return structured output; it said: "@ + if text.len() == 0 {
        "<nothing>"@
    } else {
        text
    }
}

/// What many replies come to, in order, up to the first that cannot be used.
pub open spec fn settled_asks(
    b: Books,
    label: Seq<char>,
    max: Option<u64>,
    replies: Seq<Result<ReplyView, Seq<char>>>,
    structured: bool,
    duration_ms: u64,
) -> (Books, Result<Seq<JsonView>, HaltView>)
    decreases replies.len(),
{
    if replies.len() == 0 {
        (b, Ok(Seq::empty()))
    } else {
        match settled_asks(b, label, max, replies.drop_last(), structured, duration_ms) {
            (c, Ok(list)) => match settled_ask(c, label, max, replies.last(), structured, duration_ms) {
                (d, Ok(value)) => (d, Ok(list.push(value))),
                (d, Err(h)) => (d, Err(h)),
            },
            (c, Err(h)) => (c, Err(h)),
        }
    }
}

/// What a list of replies says.
pub open spec fn reply_views(list: Seq<Result<ProviderResponse, String>>) -> Seq<Result<ReplyView, Seq<char>>> {
    list.map_values(|r: Result<ProviderResponse, String>| reply_view(r))
}

/// What a fallible answer says.
pub open spec fn answer_view(r: Result<Json, Halt>) -> Result<JsonView, HaltView> {
    match r {
        Ok(j) => Ok(j@),
        Err(h) => Err(h@),
    }
}

/// What fallible answers say.
pub open spec fn answers_view(r: Result<Vec<Json>, Halt>) -> Result<Seq<JsonView>, HaltView> {
    match r {
        Ok(list) => Ok(views(list@)),
        Err(h) => Err(h@),
    }
}

/// The bytes of a value's text.
fn text_bytes(text: &str) -> (r: u64)
    ensures
        r == byte_len(text@),
{
    text.as_bytes().len() as u64
}

impl<'a> BehaviourContext<'a> {
    /// A run that has not done anything yet.
    pub fn new(manifest: &'a Manifest, def: &'a BehaviourDef, run_id: String, principal: Principal, depth: u32) -> (r: Self)
        ensures
            r@ == (BehaviourView {
                manifest: *manifest,
                def: *def,
                run_id: run_id@,
                principal: principal@,
                depth,
                steps: 0,
                input_tokens: 0,
                output_tokens: 0,
                cache_tokens: 0,
                trace: Seq::empty(),
            }),
    {
        let trace: Vec<TraceEntry> = Vec::new();
        assert(trace_views(trace@) =~= Seq::empty());
        BehaviourContext {
            manifest,
            def,
            run_id,
            principal,
            depth,
            steps: 0,
            input_tokens: 0,
            output_tokens: 0,
            cache_tokens: 0,
            trace,
        }
    }

    /// What the run, its request tree and the ledger count.
    pub open spec fn books(&self, budget: SharedBudget, ledger: Ledger) -> Books {
        Books { run: self@, spent: budget.spent, entries: ledger@ }
    }

    /// Counts a step.
    pub fn charge_step(&mut self) -> (r: Result<(), Halt>)
        ensures
            final(self)@ == stepped(old(self)@),
            halt_of(r) == step_halt(final(self)@),
    {
        self.steps = self.steps.saturating_add(1);
        if self.steps > self.def.max_steps as u64 {
            return Err(
                Halt::Halted(
                    cat4(
                        "behaviour ",
                        quoted(self.def.name.as_str()).as_str(),
                        " exceeded its step budget of ",
                        decimal_text(self.def.max_steps as u64).as_str(),
                    ),
                ),
            );
        }
        Ok(())
    }

    /// Counts some steps, up to the first that is one too many.
    pub fn charge_steps(&mut self, n: usize) -> (r: Result<(), Halt>)
        ensures
            (final(self)@, halt_of(r)) == stepped_many(old(self)@, n as nat),
    {
        let mut i: usize = 0;
        while i < n
            invariant
                i <= n,
                stepped_many(self@, (n - i) as nat) == stepped_many(old(self)@, n as nat),
            decreases n - i,
        {
            let r = self.charge_step();
            if r.is_err() {
                return r;
            }
            i = i + 1;
        }
        Ok(())
    }

    /// Counts some tokens, of this run and of its request tree.
    pub fn charge_tokens(&mut self, input: u64, output: u64, cache: u64, budget: &mut SharedBudget) -> (r: Result<(), Halt>)
        ensures
            final(self)@ == tokens_spent(old(self)@, input, output, cache),
            final(budget).label == old(budget).label,
            final(budget).max_tokens == old(budget).max_tokens,
            final(budget).spent == saturating(old(budget).spent, saturating(saturating(input, output), cache)),
            halt_of(r) == token_halt(final(self)@, final(budget).label@, final(budget).max_tokens, final(budget).spent),
    {
        self.input_tokens = self.input_tokens.saturating_add(input);
        self.output_tokens = self.output_tokens.saturating_add(output);
        self.cache_tokens = self.cache_tokens.saturating_add(cache);
        let total: u64 = self.input_tokens.saturating_add(self.output_tokens).saturating_add(self.cache_tokens);
        if let Err(e) = budget.charge(input.saturating_add(output).saturating_add(cache)) {
            return Err(Halt::Halted(e));
        }
        if let Some(max) = self.def.token_budget {
            if total > max {
                return Err(
                    Halt::Halted(
                        cat4(
                            "behaviour ",
                            quoted(self.def.name.as_str()).as_str(),
                            " exhausted its token budget of ",
                            decimal_text(max).as_str(),
                        ),
                    ),
                );
            }
        }
        Ok(())
    }

    /// Adds an entry to the trace.
    pub fn record(&mut self, kind: &str, label: &str, detail: Json, duration_ms: u64)
        ensures
            final(self)@ == traced(old(self)@, kind@, label@, detail@, duration_ms),
    {
        let entry = TraceEntry { kind: kind.to_owned(), label: label.to_owned(), detail, duration_ms };
        let ghost was = self.trace@;
        self.trace.push(entry);
        assert(trace_views(self.trace@) =~= trace_views(was).push(entry@));
    }

    /// The checks every tool call goes through before it is dispatched.
    pub fn may_call(&self, tool: &str) -> (r: Result<(), Halt>)
        ensures
            halt_of(r) == call_halt(self@, tool@),
    {
        assert(texts(self.def.tools@).len() == self.def.tools@.len());
        if self.def.tools.len() > 0 && !holds(&self.def.tools, tool) {
            return Err(
                Halt::Denied(
                    cat6(
                        "behaviour ",
                        quoted(self.def.name.as_str()).as_str(),
                        " may not call ",
                        quoted(tool).as_str(),
                        "; declared tools: ",
                        join(&self.def.tools, ", ").as_str(),
                    ),
                ),
            );
        }
        if let Some(route) = self.manifest.route_for_tool(tool) {
            if let Approval::Required = route.approval {
                return Err(
                    Halt::Halted(
                        cat3(
                            "tool ",
                            quoted(tool).as_str(),
                            " requires human approval and cannot run unattended inside a behaviour",
                        ),
                    ),
                );
            }
        }
        Ok(())
    }

    /// Begins a tool call, which is to be made as [`BehaviourContext::call_request`]
    /// says. Its outcome is handed to [`BehaviourContext::settle_call`].
    pub fn call(&mut self, tool: &str) -> (r: Result<(), Halt>)
        ensures
            match call_halt(old(self)@, tool@) {
                Some(h) => final(self)@ == old(self)@ && halt_of(r) == Some(h),
                None => final(self)@ == stepped(old(self)@) && halt_of(r) == step_halt(final(self)@),
            },
    {
        let r = self.may_call(tool);
        if r.is_err() {
            return r;
        }
        self.charge_step()
    }

    /// The request that a tool call is: made under this run's authority, at its depth.
    /// It is to be dispatched like any other. Where there is no such request, that is
    /// the outcome.
    pub fn call_request(&self, tool: &str, args: &Json) -> (r: Result<PylonRequest, String>)
        ensures
            ask_outcome(r) == tool_call(self.manifest.routes@, tool@, args@, self@.principal, self.depth),
    {
        tool_request(self.manifest, tool, args, &self.principal, self.depth)
    }

    fn raise(&self, error: String) -> (r: Halt)
        ensures
            r@ == raised(self@, error@),
    {
        if is_nesting_ceiling(error.as_str()) {
            Halt::Halted(
                cat4("behaviour ", quoted(self.def.name.as_str()).as_str(), " was stopped: ", error.as_str()),
            )
        } else {
            Halt::Failed(error)
        }
    }

    /// Goes on with the outcome of a tool call.
    pub fn settle_call(&mut self, tool: &str, outcome: Result<Json, String>, duration_ms: u64) -> (r: Result<Json, Halt>)
        ensures
            match outcome {
                Ok(value) => final(self)@ == traced(old(self)@, "call"@, tool@, value@, duration_ms) && answer_view(r)
                    == Ok::<JsonView, HaltView>(value@),
                Err(e) => final(self)@ == traced(old(self)@, "call_failed"@, tool@, error_detail(e@), duration_ms)
                    && answer_view(r) == Err::<JsonView, HaltView>(raised(old(self)@, e@)),
            },
    {
        match outcome {
            Ok(value) => {
                self.record("call", tool, value.copy(), duration_ms);
                Ok(value)
            },
            Err(e) => {
                self.record("call_failed", tool, error_value(e.as_str()), duration_ms);
                Err(self.raise(e))
            },
        }
    }

    /// Reads one of several requests that are called at once, and checks it. When all
    /// are read, [`BehaviourContext::charge_steps`] counts one step for each.
    pub fn gather_item(&self, item: GatherItem) -> (r: Result<(String, Json), Halt>)
        ensures
            match gather_of(item) {
                Ok(q) => match call_halt(self@, q.0) {
                    Some(h) => r matches Err(e) && e@ == h,
                    None => r matches Ok(p) && (p.0@, p.1@) == q,
                },
                Err(h) => r matches Err(e) && e@ == h,
            },
    {
        let p = match parse_gather_item(item) {
            Ok(p) => p,
            Err(h) => {
                return Err(h);
            },
        };
        match self.may_call(p.0.as_str()) {
            Ok(_) => Ok(p),
            Err(h) => Err(h),
        }
    }

    /// Goes on with the outcomes of several calls at once. The first failure is raised
    /// after every call has finished; where failures are wanted in place, none is.
    pub fn gathered(
        &mut self,
        names: &Vec<String>,
        outcomes: Vec<Result<Json, String>>,
        in_place: bool,
        duration_ms: u64,
    ) -> (r: Result<Vec<Json>, Halt>)
        requires
            names@.len() == outcomes@.len(),
        ensures
            final(self)@ == calls_traced(old(self)@, texts(names@), outcome_views(outcomes@), duration_ms),
            answers_view(r) == (match first_failure(texts(names@), outcome_views(outcomes@)) {
                Some(e) if !in_place => Err::<Seq<JsonView>, HaltView>(raised(old(self)@, e)),
                _ => Ok(call_items(outcome_views(outcomes@))),
            }),
    {
        let ghost all = outcome_views(outcomes@);
        let ghost known = texts(names@);
        let mut list: Vec<Json> = Vec::new();
        let mut first: Option<String> = None;
        let mut i: usize = 0;
        assert(self@ == calls_traced(old(self)@, known, all.take(0), duration_ms));
        assert(first_failure(known, all.take(0)) is None);
        while i < outcomes.len()
            invariant
                i <= outcomes@.len(),
                names@.len() == outcomes@.len(),
                all == outcome_views(outcomes@),
                known == texts(names@),
                self.def == old(self).def,
                self@ == calls_traced(old(self)@, known, all.take(i as int), duration_ms),
                match first {
                    Some(e) => first_failure(known, all.take(i as int)) == Some(e@),
                    None => first_failure(known, all.take(i as int)) is None,
                },
                in_place || first is None ==> list@.len() == i && forall|k: int|
                    0 <= k < i ==> (#[trigger] list@[k])@ == call_items(all)[k],
            decreases outcomes.len() - i,
        {
            proof {
                assert(all.take(i + 1).drop_last() =~= all.take(i as int));
                assert(all.take(i + 1).last() == all[i as int]);
                assert(all[i as int] == outcome_view(outcomes@[i as int]));
                assert(known[i as int] == names@[i as int]@);
            }
            match &outcomes[i] {
                Ok(value) => {
                    self.record("call", names[i].as_str(), value.copy(), duration_ms);
                    list.push(value.copy());
                },
                Err(e) => {
                    self.record("call_failed", names[i].as_str(), error_value(e.as_str()), duration_ms);
                    if in_place {
                        let mut m = Members::new();
                        m.put("error", Json::str(e.as_str()));
                        m.put("ok", Json::Bool(false));
                        list.push(Json::Object(m));
                    }
                    if first.is_none() {
                        first = Some(cat3(names[i].as_str(), ": ", e.as_str()));
                    }
                },
            }
            i = i + 1;
        }
        assert(all.take(all.len() as int) =~= all);
        if let Some(e) = first {
            if !in_place {
                return Err(self.raise(e));
            }
        }
        assert(views(list@) =~= call_items(all));
        Ok(list)
    }

    fn put_question(&self, prompt: &str, o: &AskOptions) -> (r: Ask)
        ensures
            r.asks() == asked(*self.def, prompt@, *o),
            r.structured == (o.schema is Some),
            r.is_leaf(),
    {
        Ask::put(
            self.def.name.as_str(),
            match o.model {
                Some(m) => m,
                None => self.def.model.as_str(),
            },
            match o.system {
                Some(s) => s,
                None => "",
            },
            match o.max_tokens {
                Some(n) => n,
                None => self.def.max_tokens,
            },
            match o.temperature {
                Some(t) => Some(t.copy()),
                None => match &self.def.temperature {
                    Some(t) => Some(t.copy()),
                    None => None,
                },
            },
            prompt,
            o.schema,
            "Respond with structured output in the required shape.",
        )
    }

    /// Begins to ask the model a question. With a schema, the model is forced to
    /// answer in that shape. The reply is handed to [`BehaviourContext::settle_ask`].
    pub fn ask(&mut self, prompt: &str, o: &AskOptions) -> (r: Result<Ask, Halt>)
        ensures
            final(self)@ == stepped(old(self)@),
            match step_halt(final(self)@) {
                Some(h) => r matches Err(e) && e@ == h,
                None => r matches Ok(a) && a.asks() == asked(*old(self).def, prompt@, *o) && a.structured == (o.schema
                    is Some) && a.is_leaf(),
            },
    {
        match self.charge_step() {
            Ok(_) => Ok(self.put_question(prompt, o)),
            Err(h) => Err(h),
        }
    }

    /// Goes on with the model's reply.
    pub fn settle_ask(
        &mut self,
        reply: Result<ProviderResponse, String>,
        structured: bool,
        duration_ms: u64,
        budget: &mut SharedBudget,
        ledger: &mut Ledger,
    ) -> (r: Result<Json, Halt>)
        ensures
            final(budget).label == old(budget).label,
            final(budget).max_tokens == old(budget).max_tokens,
            final(ledger).run_count() == old(ledger).run_count(),
            final(ledger).since() == old(ledger).since(),
            (final(self).books(*final(budget), *final(ledger)), answer_view(r)) == settled_ask(
                old(self).books(*old(budget), *old(ledger)),
                old(budget).label@,
                old(budget).max_tokens,
                reply_view(reply),
                structured,
                duration_ms,
            ),
    {
        let r = match reply {
            Ok(r) => r,
            Err(e) => {
                self.record("ask_failed", "model", error_value(e.as_str()), duration_ms);
                return Err(Halt::Failed(e));
            },
        };
        ledger.charge(
            "behaviour",
            self.def.name.as_str(),
            r.model.as_str(),
            r.input_tokens,
            r.output_tokens,
            r.cache_read_tokens,
            r.cache_write_tokens,
        );
        let paid_for = self.charge_tokens(
            r.input_tokens,
            r.output_tokens,
            r.cache_read_tokens.saturating_add(r.cache_write_tokens),
            budget,
        );
        if let Err(h) = paid_for {
            return Err(h);
        }
        if structured {
            return match read_structured(&r) {
                Some(value) => {
                    self.record("ask", "structured", value.copy(), duration_ms);
                    Ok(value)
                },
                None => Err(
                    Halt::Failed(
                        cat2(
                            "model did not return structured output; it said: ",
                            if r.text.as_str().is_empty() {
                                "<nothing>"
                            } else {
                                r.text.as_str()
                            },
                        ),
                    ),
                ),
            };
        }
        let mut m = Members::new();
        m.put("chars", Json::num(text_bytes(r.text.as_str())));
        m.put("model", Json::str(r.model.as_str()));
        self.record("ask", "text", Json::Object(m), duration_ms);
        Ok(Json::Str(r.text))
    }

    /// Begins to ask the model many questions at once. Each is one step. The replies,
    /// in order, are handed to [`BehaviourContext::settle_many`].
    pub fn ask_many(&mut self, prompts: &Vec<String>, o: &AskOptions) -> (r: Result<Vec<Ask>, Halt>)
        ensures
            final(self)@ == stepped_many(old(self)@, prompts@.len()).0,
            match stepped_many(old(self)@, prompts@.len()).1 {
                Some(h) => r matches Err(e) && e@ == h,
                None => r matches Ok(list) && list@.len() == prompts@.len() && forall|i: int|
                    0 <= i < prompts@.len() ==> (#[trigger] list@[i]).asks() == asked(*old(self).def, prompts@[i]@, *o)
                        && list@[i].structured == (o.schema is Some) && list@[i].is_leaf(),
            },
    {
        let ghost def = *self.def;
        let counted = self.charge_steps(prompts.len());
        proof {
            lemma_steps_keep(old(self)@, prompts@.len());
        }
        if let Err(h) = counted {
            return Err(h);
        }
        let mut list: Vec<Ask> = Vec::new();
        let mut i: usize = 0;
        while i < prompts.len()
            invariant
                i <= prompts@.len(),
                *self.def == def,
                list@.len() == i,
                forall|k: int|
                    0 <= k < i ==> (#[trigger] list@[k]).asks() == asked(def, prompts@[k]@, *o) && list@[k].structured == (
                    o.schema is Some) && list@[k].is_leaf(),
            decreases prompts.len() - i,
        {
            list.push(self.put_question(prompts[i].as_str(), o));
            i = i + 1;
        }
        Ok(list)
    }

    /// Goes on with the replies to many questions, in order, up to the first that
    /// cannot be used.
    pub fn settle_many(
        &mut self,
        replies: Vec<Result<ProviderResponse, String>>,
        structured: bool,
        duration_ms: u64,
        budget: &mut SharedBudget,
        ledger: &mut Ledger,
    ) -> (r: Result<Vec<Json>, Halt>)
        ensures
            final(budget).label == old(budget).label,
            final(budget).max_tokens == old(budget).max_tokens,
            final(ledger).run_count() == old(ledger).run_count(),
            final(ledger).since() == old(ledger).since(),
            (final(self).books(*final(budget), *final(ledger)), answers_view(r)) == settled_asks(
                old(self).books(*old(budget), *old(ledger)),
                old(budget).label@,
                old(budget).max_tokens,
                reply_views(replies@),
                structured,
                duration_ms,
            ),
    {
        let ghost all = reply_views(replies@);
        let ghost start = self.books(*budget, *ledger);
        let ghost label = budget.label@;
        let ghost max = budget.max_tokens;
        let mut list: Vec<Json> = Vec::new();
        let mut left = replies;
        let ghost mut done: int = 0;
        proof {
            assert(all.take(0) =~= Seq::empty());
            assert(views(list@) =~= Seq::empty());
            assert(reply_views(left@) =~= all.skip(0));
        }
        while left.len() > 0
            invariant
                0 <= done <= all.len(),
                reply_views(left@) == all.skip(done),
                budget.label == old(budget).label,
                budget.max_tokens == old(budget).max_tokens,
                label == old(budget).label@,
                max == old(budget).max_tokens,
                ledger.run_count() == old(ledger).run_count(),
                ledger.since() == old(ledger).since(),
                start == old(self).books(*old(budget), *old(ledger)),
                all == reply_views(replies@),
                (self.books(*budget, *ledger), Ok::<Seq<JsonView>, HaltView>(views(list@))) == settled_asks(
                    start,
                    label,
                    max,
                    all.take(done),
                    structured,
                    duration_ms,
                ),
            decreases left.len(),
        {
            let ghost before = left@;
            let reply = left.remove(0);
            proof {
                assert(reply_views(before).len() == before.len());
                assert(reply_views(before)[0] == reply_view(reply));
                assert(all.skip(done)[0] == all[done]);
                assert(left@ =~= before.skip(1));
                assert(reply_views(left@) =~= reply_views(before).skip(1));
                assert(all.skip(done).skip(1) =~= all.skip(done + 1));
                assert(all.take(done + 1).drop_last() =~= all.take(done));
                assert(all.take(done + 1).last() == all[done]);
            }
            match self.settle_ask(reply, structured, duration_ms, budget, ledger) {
                Ok(value) => {
                    proof {
                        lemma_views_push(list@, value);
                    }
                    list.push(value);
                },
                Err(h) => {
                    proof {
                        lemma_settled_stays(start, label, max, all, structured, duration_ms, done + 1);
                    }
                    return Err(h);
                },
            }
            proof {
                done = done + 1;
            }
        }
        assert(reply_views(left@).len() == 0);
        assert(done == all.len());
        assert(all.take(done) =~= all);
        Ok(list)
    }

    /// Begins to resolve a context provider. Only those that the behaviour declared are
    /// within its reach.
    pub fn context(&self, name: &str) -> (r: Result<&'a ContextDef, Halt>)
        ensures
            if !texts(self.def.context@).contains(name@) {
                r matches Err(h) && h@ == HaltView::Denied(
                    "behaviour "@ + debug_quoted(self.def.name@) + " did not declare context "@ + debug_quoted(name@)
                        + "; declared: "@ + if self.def.context@.len() == 0 {
                        "none"@
                    } else {
                        joined(texts(self.def.context@), ", "@)
                    },
                )
            } else {
                match context_named(self.manifest.contexts@, name@) {
                    Some(c) => r matches Ok(d) && *d == c,
                    None => r matches Err(h) && h@ == HaltView::Failed(
                        "context "@ + debug_quoted(name@) + " is not declared"@,
                    ),
                }
            },
    {
        if !holds(&self.def.context, name) {
            let declared = if self.def.context.len() == 0 {
                "none".to_owned()
            } else {
                join(&self.def.context, ", ")
            };
            return Err(
                Halt::Denied(
                    cat6(
                        "behaviour ",
                        quoted(self.def.name.as_str()).as_str(),
                        " did not declare context ",
                        quoted(name).as_str(),
                        "; declared: ",
                        declared.as_str(),
                    ),
                ),
            );
        }
        match self.manifest.context(name) {
            Some(d) => Ok(d),
            None => Err(Halt::Failed(cat3("context ", quoted(name).as_str(), " is not declared"))),
        }
    }

    /// Goes on with what a context provider gave.
    pub fn settle_context(&mut self, name: &str, outcome: Result<Json, String>, duration_ms: u64) -> (r: Result<Json, Halt>)
        ensures
            match outcome {
                Ok(value) => final(self)@ == traced(
                    old(self)@,
                    "context"@,
                    name@,
                    JsonView::Object(Map::empty().insert("chars"@, number(byte_len(json_text(value@)) as int))),
                    duration_ms,
                ) && answer_view(r) == Ok::<JsonView, HaltView>(value@),
                Err(e) => final(self)@ == traced(old(self)@, "context_failed"@, name@, error_detail(e@), duration_ms)
                    && answer_view(r) == Err::<JsonView, HaltView>(HaltView::Failed(e@)),
            },
    {
        match outcome {
            Ok(value) => {
                let mut m = Members::new();
                m.put("chars", Json::num(text_bytes(value.to_text().as_str())));
                self.record("context", name, Json::Object(m), duration_ms);
                Ok(value)
            },
            Err(e) => {
                self.record("context_failed", name, error_value(e.as_str()), duration_ms);
                Err(Halt::Failed(e))
            },
        }
    }

    /// Adds a line to the trace.
    pub fn log(&mut self, message: &str)
        ensures
            final(self)@ == traced(old(self)@, "log"@, message@, JsonView::Null, 0),
    {
        self.record("log", message, Json::Null, 0);
    }

    /// Stops the behaviour deliberately.
    pub fn halt(&self, reason: &str) -> (r: Halt)
        ensures
            r@ == HaltView::Halted(reason@),
    {
        Halt::Halted(reason.to_owned())
    }

    /// Tools this behaviour is allowed to call.
    pub fn tools(&self) -> (r: Vec<String>)
        ensures
            texts(r@) == (if self.def.tools@.len() == 0 {
                exposed(self.manifest.routes@).map_values(|x: Route| x.tool_text())
            } else {
                texts(self.def.tools@)
            }),
    {
        if self.def.tools.len() == 0 {
            tool_names(self.manifest)
        } else {
            copy_texts(&self.def.tools)
        }
    }

    /// Context providers this behaviour may resolve.
    pub fn contexts(&self) -> (r: Vec<String>)
        ensures
            texts(r@) == texts(self.def.context@),
    {
        copy_texts(&self.def.context)
    }

    /// The principal this behaviour is acting as, whose root is `root_id`.
    pub fn user(&self, root: &Root) -> (r: Json)
        ensures
            r@ == JsonView::Object(
                Map::empty().insert("id"@, JsonView::Str(self@.principal.id)).insert(
                    "root_id"@,
                    JsonView::Str(root@.id),
                ).insert("authenticated"@, JsonView::Bool(self@.principal.kind != PrincipalKind::Anonymous)).insert(
                    "scopes"@,
                    text_array(self@.principal.scopes),
                ),
            ),
    {
        let mut m = Members::new();
        m.put("id", Json::str(self.principal.id.as_str()));
        m.put("root_id", Json::str(root.id()));
        m.put("authenticated", Json::Bool(!self.principal.is_anonymous()));
        m.put("scopes", texts_to_json(&self.principal.scopes));
        Json::Object(m)
    }

    /// Budget consumed so far, readable while the behaviour runs so that it can adapt.
    pub fn usage(&self, budget: &SharedBudget) -> (r: Json)
        ensures
            r@ == JsonView::Object(
                Map::empty().insert("steps"@, number(self.steps as int)).insert(
                    "max_steps"@,
                    number(self.def.max_steps as int),
                ).insert("input_tokens"@, number(self.input_tokens as int)).insert(
                    "output_tokens"@,
                    number(self.output_tokens as int),
                ).insert("cache_tokens"@, number(self.cache_tokens as int)).insert(
                    "token_budget"@,
                    number_or_null(self.def.token_budget),
                ).insert("tree_tokens"@, number(budget.spent as int)).insert(
                    "tree_budget"@,
                    number_or_null(budget.max_tokens),
                ).insert("depth"@, number(self.depth as int)),
            ),
    {
        let mut m = Members::new();
        m.put("steps", Json::num(self.steps));
        m.put("max_steps", Json::num(self.def.max_steps as u64));
        m.put("input_tokens", Json::num(self.input_tokens));
        m.put("output_tokens", Json::num(self.output_tokens));
        m.put("cache_tokens", Json::num(self.cache_tokens));
        m.put(
            "token_budget",
            match self.def.token_budget {
                Some(n) => Json::num(n),
                None => Json::Null,
            },
        );
        m.put("tree_tokens", Json::num(budget.used()));
        m.put(
            "tree_budget",
            match budget.max_tokens {
                Some(n) => Json::num(n),
                None => Json::Null,
            },
        );
        m.put("depth", Json::num(self.depth as u64));
        Json::Object(m)
    }

    /// The run in a few words.
    pub fn describe(&self) -> (r: String)
        ensures
            r@ == "<BehaviourContext "@ + self.def.name@ + " run="@ + self.run_id@ + " steps="@ + (decimal(
                self.steps as nat,
            ) + "/"@ + decimal(self.def.max_steps as nat) + ">"@),
    {
        cat6(
            "<BehaviourContext ",
            self.def.name.as_str(),
            " run=",
            self.run_id.as_str(),
            " steps=",
            cat4(decimal_text(self.steps).as_str(), "/", decimal_text(self.def.max_steps as u64).as_str(), ">").as_str(),
        )
    }
}

impl TraceEntry {
    /// The entry as a value.
    pub fn to_json(&self) -> (r: Json)
        ensures
            r@ == JsonView::Object(
                Map::empty().insert("kind"@, JsonView::Str(self@.kind)).insert("label"@, JsonView::Str(self@.label)).insert(
                    "detail"@,
                    self@.detail,
                ).insert("duration_ms"@, number(self.duration_ms as int)),
            ),
    {
        let mut m = Members::new();
        m.put("kind", Json::str(self.kind.as_str()));
        m.put("label", Json::str(self.label.as_str()));
        m.put("detail", self.detail.copy());
        m.put("duration_ms", Json::num(self.duration_ms));
        Json::Object(m)
    }
}

/// How many questions are in flight at once.
pub fn in_flight(concurrency: usize) -> (r: usize)
    ensures
        r == if concurrency < 1 {
            1usize
        } else if concurrency > 64 {
            64usize
        } else {
            concurrency
        },
{
    if concurrency < 1 {
        1
    } else if concurrency > 64 {
        64
    } else {
        concurrency
    }
}

/// A question outside any server, as the command line asks it.
pub fn model_question(model: &str, system: &str, prompt: &str, schema: Option<&Json>, max_tokens: u32) -> (r: Ask)
    ensures
        r.asks() == question(
            "webcortex-cli"@,
            model@,
            system@,
            max_tokens,
            None,
            prompt@,
            maybe_value(schema),
            "Respond in the required shape."@,
        ),
        r.structured == (schema is Some),
        r.is_leaf(),
{
    Ask::put("webcortex-cli", model, system, max_tokens, None, prompt, schema, "Respond in the required shape.")
}

/// What the command line prints of a reply: the text, or the structured output as
/// text.
pub fn settle_model(r: ProviderResponse, structured: bool) -> (said: Result<String, String>)
    ensures
        !structured ==> (said matches Ok(s) && s@ == r@.text),
        structured ==> match structured_answer(r@) {
            Some(j) => said matches Ok(s) && s@ == json_text(j),
            None => said matches Err(e) && e@ == "model did not return structured output; it said: "@ + r@.text,
        },
{
    if structured {
        return match read_structured(&r) {
            Some(j) => Ok(j.to_text()),
            None => Err(cat2("model did not return structured output; it said: ", r.text.as_str())),
        };
    }
    Ok(r.text)
}

proof fn lemma_steps_keep(v: BehaviourView, n: nat)
    ensures
        stepped_many(v, n).0.def == v.def,
    decreases n,
{
    if n > 0 {
        lemma_steps_keep(stepped(v), (n - 1) as nat);
    }
}

proof fn lemma_settled_stays(
    b: Books,
    label: Seq<char>,
    max: Option<u64>,
    all: Seq<Result<ReplyView, Seq<char>>>,
    structured: bool,
    duration_ms: u64,
    n: int,
)
    requires
        0 <= n <= all.len(),
        settled_asks(b, label, max, all.take(n), structured, duration_ms).1 is Err,
    ensures
        settled_asks(b, label, max, all, structured, duration_ms) == settled_asks(
            b,
            label,
            max,
            all.take(n),
            structured,
            duration_ms,
        ),
    decreases all.len() - n,
{
    if n == all.len() {
        assert(all.take(n) =~= all);
    } else {
        assert(all.take(n + 1).drop_last() =~= all.take(n));
        lemma_settled_stays(b, label, max, all, structured, duration_ms, n + 1);
    }
}

/// A behaviour calls no tool that a human must approve, and, where it declared its
/// tools, none that it did not declare.
pub proof fn law_a_behaviour_launders_no_gated_tool(v: BehaviourView, tool: Seq<char>)
    requires
        call_halt(v, tool) is None,
    ensures
        !is_gated(v.manifest.routes@, tool),
        v.def.tools@.len() > 0 ==> texts(v.def.tools@).contains(tool),
{
}

/// However many steps a behaviour asks for, it is stopped at its step budget: what it
/// was granted never passes it.
pub proof fn law_the_step_budget_is_exact(v: BehaviourView, n: nat)
    requires
        v.steps <= v.def.max_steps,
    ensures
        stepped_many(v, n).1 is None <==> v.steps + n <= v.def.max_steps,
        stepped_many(v, n).1 is None ==> stepped_many(v, n).0.steps == v.steps + n,
    decreases n,
{
    if n > 0 && v.steps < v.def.max_steps {
        law_the_step_budget_is_exact(stepped(v), (n - 1) as nat);
    }
}

/// A question says what is asked: the prompt is the one message, from the user; what the call
/// sets holds for it, and else what the behaviour declares; and where a shape is wanted, the
/// one tool that is offered has that shape and must be used.
pub proof fn law_a_question_says_what_is_asked(def: BehaviourDef, prompt: Seq<char>, o: AskOptions)
    ensures
        ({
            let q = asked(def, prompt, o);
            &&& q.messages == seq![MessageView { role: "user"@, content: JsonView::Str(prompt) }]
            &&& q.agent == def.name@
            &&& o.model matches Some(m) ==> q.model == m@
            &&& o.model is None ==> q.model == def.model@
            &&& o.system matches Some(s) ==> q.system == s@
            &&& o.system is None ==> q.system.len() == 0
            &&& o.max_tokens matches Some(n) ==> q.max_tokens == n
            &&& o.max_tokens is None ==> q.max_tokens == def.max_tokens
            &&& o.temperature matches Some(t) ==> q.temperature == Some(t@)
            &&& o.temperature is None ==> (def.temperature matches Some(t) ==> q.temperature == Some(t@))
            &&& o.temperature is None && def.temperature is None ==> q.temperature is None
            &&& o.schema is None ==> q.tools.len() == 0 && q.force_tool is None
            &&& o.schema matches Some(s) ==> q.tools.len() == 1 && q.force_tool == Some(q.tools[0].name)
                && q.tools[0].input_schema == s@ && q.tools[0].name == "respond"@
        }),
{
    reveal_strlit("");
}

/// A reply in the wanted shape is what the model called the answering tool with.
pub proof fn law_structured_output_is_what_was_called_with(r: ReplyView, i: int)
    requires
        0 <= i < r.tool_calls.len(),
        r.tool_calls[i].name == "respond"@,
        forall|k: int| 0 <= k < i ==> (#[trigger] r.tool_calls[k]).name != "respond"@,
    ensures
        structured_answer(r) == Some(r.tool_calls[i].arguments),
{
    lemma_first_call(r.tool_calls, "respond"@, i);
}

proof fn lemma_first_call(calls: Seq<CallView>, name: Seq<char>, i: int)
    requires
        0 <= i < calls.len(),
        calls[i].name == name,
        forall|k: int| 0 <= k < i ==> (#[trigger] calls[k]).name != name,
    ensures
        first_call(calls, name) == Some(calls[i].arguments),
    decreases i,
{
    if i > 0 {
        let rest = calls.skip(1);
        assert(calls[0].name != name);
        assert forall|k: int| 0 <= k < i - 1 implies (#[trigger] rest[k]).name != name by {
            assert(rest[k] == calls[k + 1]);
        }
        assert(rest[i - 1] == calls[i]);
        lemma_first_call(rest, name, i - 1);
    }
}

/// What a model answers is handed to the behaviour, and paid for: a text as it is, or what it
/// called the answering tool with; its tokens are added to those of the run, of the request
/// tree and of the ledger's entry for the behaviour and the model, whether or not it could be
/// used; and one that failed costs nothing.
pub proof fn law_an_answer_is_handed_over_and_paid_for(
    b: Books,
    label: Seq<char>,
    max: Option<u64>,
    reply: Result<ReplyView, Seq<char>>,
    structured: bool,
    duration_ms: u64,
)
    ensures
        ({
            let (c, said) = settled_ask(b, label, max, reply, structured, duration_ms);
            &&& c.run.def == b.run.def && c.run.principal == b.run.principal && c.run.run_id == b.run.run_id && c.run.steps
                == b.run.steps && c.run.depth == b.run.depth
            &&& reply matches Err(e) ==> said == Err::<JsonView, HaltView>(HaltView::Failed(e)) && c.spent == b.spent
                && c.entries == b.entries && c.run.input_tokens == b.run.input_tokens
            &&& reply matches Ok(r) ==> ({
                let tokens = r.input_tokens + r.output_tokens + r.cache_read_tokens + r.cache_write_tokens;
                &&& b.run.input_tokens + r.input_tokens <= u64::MAX ==> c.run.input_tokens == b.run.input_tokens
                    + r.input_tokens
                &&& b.run.output_tokens + r.output_tokens <= u64::MAX ==> c.run.output_tokens == b.run.output_tokens
                    + r.output_tokens
                &&& b.spent + tokens <= u64::MAX ==> c.spent == b.spent + tokens
                &&& c.entries == after_charge(
                    b.entries,
                    (KeyView { kind: "behaviour"@, name: b.run.def.name@, model: r.model }),
                    (Totals {
                        calls: 1,
                        input_tokens: r.input_tokens,
                        output_tokens: r.output_tokens,
                        cache_read_tokens: r.cache_read_tokens,
                        cache_write_tokens: r.cache_write_tokens,
                    }),
                )
                &&& max matches Some(n) ==> (c.spent > n ==> said is Err)
                &&& max is None && b.run.def.token_budget is None && !structured ==> said == Ok::<JsonView, HaltView>(
                    JsonView::Str(r.text),
                )
                &&& max is None && b.run.def.token_budget is None && structured && structured_answer(r) is Some ==> said
                    == Ok::<JsonView, HaltView>(structured_answer(r)->0)
                &&& structured && structured_answer(r) is None ==> said is Err
                &&& said is Ok ==> c.run.trace.drop_last() == b.run.trace && c.run.trace.last().kind == "ask"@
            })
        }),
{
    let (c, said) = settled_ask(b, label, max, reply, structured, duration_ms);
    if let Ok(r) = reply {
        if said is Ok {
            assert(c.run.trace.drop_last() =~= b.run.trace);
        }
    }
}

/// Many questions are answered in order, one answer for each.
pub proof fn law_many_questions_are_answered_in_order(
    b: Books,
    label: Seq<char>,
    replies: Seq<Result<ReplyView, Seq<char>>>,
    duration_ms: u64,
)
    requires
        b.run.def.token_budget is None,
        forall|i: int| 0 <= i < replies.len() ==> (#[trigger] replies[i]) is Ok,
    ensures
        settled_asks(b, label, None, replies, false, duration_ms).1 matches Ok(list) && list.len() == replies.len()
            && forall|i: int| 0 <= i < list.len() ==> #[trigger] list[i] == JsonView::Str(replies[i]->Ok_0.text),
        settled_asks(b, label, None, replies, false, duration_ms).0.run.def == b.run.def,
    decreases replies.len(),
{
    if replies.len() > 0 {
        let rest = replies.drop_last();
        assert forall|i: int| 0 <= i < rest.len() implies (#[trigger] rest[i]) is Ok by {
            assert(rest[i] == replies[i]);
        }
        law_many_questions_are_answered_in_order(b, label, rest, duration_ms);
        assert(replies[replies.len() - 1] == replies.last());
        let before = settled_asks(b, label, None, rest, false, duration_ms);
        law_an_answer_is_handed_over_and_paid_for(before.0, label, None, replies.last(), false, duration_ms);
        let list = settled_asks(b, label, None, replies, false, duration_ms).1->Ok_0;
        assert forall|i: int| 0 <= i < list.len() implies #[trigger] list[i] == JsonView::Str(replies[i]->Ok_0.text) by {
            if i < rest.len() {
                assert(rest[i] == replies[i]);
                assert(before.1->Ok_0[i] == list[i]);
            }
        }
    }
}

/// Calls that are made at once are answered in order: each value in the place of its call,
/// and each failure in its place as an error that is not well.
pub proof fn law_calls_at_once_are_answered_in_order(results: Seq<Result<JsonView, Seq<char>>>, i: int)
    requires
        0 <= i < results.len(),
    ensures
        call_items(results).len() == results.len(),
        results[i] matches Ok(v) ==> call_items(results)[i] == v,
        results[i] matches Err(e) ==> crate::json::member(call_items(results)[i], "error"@) == Some(JsonView::Str(e))
            && crate::json::member(call_items(results)[i], "ok"@) == Some(JsonView::Bool(false)),
{
    reveal_strlit("error");
    reveal_strlit("ok");
    assert("error"@.len() == 5);
    assert("ok"@.len() == 2);
}

proof fn lemma_first_failure(names: Seq<Seq<char>>, results: Seq<Result<JsonView, Seq<char>>>)
    requires
        names.len() >= results.len(),
    ensures
        first_failure(names, results) is None <==> forall|i: int| 0 <= i < results.len() ==> (#[trigger] results[i]) is Ok,
        first_failure(names, results) matches Some(m) ==> exists|i: int|
            0 <= i < results.len() && ((#[trigger] results[i]) matches Err(e) && m == names[i] + ": "@ + e) && forall|k: int|
                0 <= k < i ==> (#[trigger] results[k]) is Ok,
    decreases results.len(),
{
    if results.len() > 0 {
        let rest = results.drop_last();
        lemma_first_failure(names, rest);
        assert(results[results.len() - 1] == results.last());
        assert forall|k: int| 0 <= k < rest.len() implies #[trigger] rest[k] == results[k] by {}
        match first_failure(names, rest) {
            Some(m) => {
                let i = choose|i: int|
                    0 <= i < rest.len() && ((#[trigger] rest[i]) matches Err(e) && m == names[i] + ": "@ + e) && forall|k: int|
                        0 <= k < i ==> (#[trigger] rest[k]) is Ok;
                assert(results[i] == rest[i]);
                assert forall|k: int| 0 <= k < i implies (#[trigger] results[k]) is Ok by {
                    assert(rest[k] == results[k]);
                }
                assert(results[i] is Err);
            },
            None => {
                assert forall|k: int| 0 <= k < rest.len() implies (#[trigger] results[k]) is Ok by {
                    assert(rest[k] == results[k]);
                }
            },
        }
    }
}

/// The first of the calls at once that failed is the one that is raised, under its name.
pub proof fn law_the_first_failure_is_raised(names: Seq<Seq<char>>, results: Seq<Result<JsonView, Seq<char>>>, i: int)
    requires
        names.len() >= results.len(),
        0 <= i < results.len(),
        results[i] is Err,
        forall|k: int| 0 <= k < i ==> (#[trigger] results[k]) is Ok,
    ensures
        first_failure(names, results) == Some(names[i] + ": "@ + results[i]->Err_0),
{
    lemma_first_failure(names, results);
    if let Some(m) = first_failure(names, results) {
        let j = choose|j: int|
            0 <= j < results.len() && ((#[trigger] results[j]) matches Err(e) && m == names[j] + ": "@ + e) && forall|k: int|
                0 <= k < j ==> (#[trigger] results[k]) is Ok;
        assert(results[j] is Err);
        assert(i == j);
    }
}

/// A trace is kept of every call: its tool, and what it gave or why it failed.
pub proof fn law_a_trace_is_kept_of_every_call(
    v: BehaviourView,
    names: Seq<Seq<char>>,
    results: Seq<Result<JsonView, Seq<char>>>,
    last: Result<JsonView, Seq<char>>,
    duration_ms: u64,
)
    ensures
        ({
            let before = calls_traced(v, names, results, duration_ms);
            let after = calls_traced(v, names, results.push(last), duration_ms);
            let entry = after.trace.last();
            &&& calls_traced(v, names, Seq::empty(), duration_ms) == v
            &&& after.trace.drop_last() == before.trace
            &&& after.steps == before.steps && after.def == before.def && after.input_tokens == before.input_tokens
            &&& entry.label == names[results.len() as int] && entry.duration_ms == duration_ms
            &&& last matches Ok(value) ==> entry.kind == "call"@ && entry.detail == value
            &&& last matches Err(e) ==> entry.kind == "call_failed"@ && crate::json::member(entry.detail, "error"@) == Some(
                JsonView::Str(e),
            )
        }),
{
    assert(results.push(last).drop_last() =~= results);
    let before = calls_traced(v, names, results, duration_ms);
    let after = calls_traced(v, names, results.push(last), duration_ms);
    assert(after.trace.drop_last() =~= before.trace);
}

/// Each way of asking for a call means the tool that it names with the arguments that it
/// gives, and none where it gives none.
pub proof fn law_an_item_asks_for_the_call_that_it_names(item: GatherItem)
    ensures
        item matches GatherItem::Name(name) ==> (gather_of(item) matches Ok(c) && c.0 == name@ && c.1 == JsonView::Object(
            Map::empty(),
        )),
        item matches GatherItem::Pair(name, None) ==> (gather_of(item) matches Ok(c) && c.0 == name@ && c.1
            == JsonView::Object(Map::empty())),
        item matches GatherItem::Pair(name, Some(args)) ==> (args@ is Object ==> gather_of(item) == Ok::<
            (Seq<char>, JsonView),
            HaltView,
        >((name@, args@))),
        item matches GatherItem::Pair(name, Some(args)) ==> (!(args@ is Object) ==> gather_of(item) is Err),
        item matches GatherItem::Fields { tool: Some(name), rest } ==> gather_of(item) == Ok::<
            (Seq<char>, JsonView),
            HaltView,
        >((name@, JsonView::Object(rest@))),
        item matches GatherItem::Fields { tool: None, rest } ==> gather_of(item) is Err,
        item is Other ==> gather_of(item) is Err,
{
}

/// A behaviour may call the tools that it declares, and any where it declares none; a gated
/// one never.
pub proof fn law_a_behaviour_calls_what_it_declares(v: BehaviourView, tool: Seq<char>)
    ensures
        ({
            let declared = texts(v.def.tools@);
            let gated = crate::manifest::tool_route(v.manifest.routes@, tool) matches Some(r) && r.approval
                == Approval::Required;
            &&& call_halt(v, tool) is None <==> (declared.len() == 0 || declared.contains(tool)) && !gated
            &&& declared.len() > 0 && !declared.contains(tool) ==> (call_halt(v, tool) matches Some(HaltView::Denied(_)))
        }),
{
}

/// A failure stops a behaviour only where it is the nesting ceiling; any other is raised as
/// it is.
pub proof fn law_a_failure_is_raised_as_it_is(v: BehaviourView, error: Seq<char>)
    ensures
        !contains_text(error, "failed with 508:"@) ==> raised(v, error) == HaltView::Failed(error),
        contains_text(error, "failed with 508:"@) ==> (raised(v, error) matches HaltView::Halted(m) && error.is_suffix_of(
            m,
        )),
{
    if let HaltView::Halted(m) = raised(v, error) {
        assert(m.subrange(m.len() - error.len(), m.len() as int) =~= error);
    }
}

/// A behaviour is stopped where it, or its request tree, spent more than it may, and not
/// before.
pub proof fn law_a_behaviour_is_stopped_where_it_overspends(v: BehaviourView, label: Seq<char>, max: Option<u64>, spent: u64)
    requires
        v.input_tokens + v.output_tokens + v.cache_tokens <= u64::MAX,
    ensures
        token_halt(v, label, max, spent) is Some <==> {
            ||| max matches Some(n) && spent > n
            ||| v.def.token_budget matches Some(n) && v.input_tokens + v.output_tokens + v.cache_tokens > n
        },
        step_halt(v) is Some <==> v.steps > v.def.max_steps,
{
}

} // verus!
