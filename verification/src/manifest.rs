//! The application as data: what a declaration layer describes once, and what
//! every other module reads.

use crate::json::{Json, Number};
use crate::table::Table;
use crate::text::{copy_texts, holds, join, replace_char, same, split, strip_prefix, strip_suffix, texts, to_lower};
use vstd::prelude::*;

verus! {

/// The whole application.
#[derive(Debug)]
pub struct Manifest {
    pub name: String,
    pub version: String,
    pub description: String,
    pub server: ServerConfig,
    pub database: Option<DatabaseConfig>,
    pub routes: Vec<Route>,
    pub upstreams: Table<Upstream>,
    pub agents: Vec<AgentDef>,
    pub behaviours: Vec<BehaviourDef>,
    pub auth: AuthConfig,
    pub cors: CorsConfig,
    pub rate_limit: RateLimitConfig,
    pub security_headers: SecurityHeaders,
    pub templates: Option<TemplateConfig>,
    /// Model aliases, provider endpoints and pricing. See [`ModelsConfig`].
    pub models: ModelsConfig,
    /// Named context providers agents and behaviours can be given at run start.
    pub contexts: Vec<ContextDef>,
    /// Declarative orchestrations.
    pub flows: Vec<FlowDef>,
}

/// How a model name resolves to a wire protocol and an endpoint.
///
/// There are two wire formats, and a model name selects one by prefix:
/// `ollama/…`, `openai/…`, or the name of a declared provider. Aliases let an
/// application name a *tier* once and change the model behind it in one place.
#[derive(Debug)]
pub struct ModelsConfig {
    /// `alias -> model name`. `default` and `fast` have built-in values that an
    /// application may override.
    pub aliases: Table<String>,
    /// `prefix -> provider`. `ollama` and `openai` are built in.
    pub providers: Table<ProviderDef>,
    /// USD per million tokens, by model name. Absent means "unknown".
    pub pricing: Table<Price>,
}

#[derive(Debug)]
pub struct ProviderDef {
    /// `"openai"` for any Chat-Completions-compatible server; `"anthropic"` for
    /// the Messages API.
    pub kind: String,
    pub base_url: String,
    /// Environment variable holding the API key, if the endpoint needs one.
    pub api_key_env: Option<String>,
}

pub fn default_provider_kind() -> (r: String)
    ensures
        r@ == "openai"@,
{
    "openai".to_owned()
}

/// Prices are carried as numbers and never computed with here.
#[derive(Debug)]
pub struct Price {
    pub input_per_mtok: Number,
    pub output_per_mtok: Number,
    pub cache_read_per_mtok: Number,
    pub cache_write_per_mtok: Number,
}

/// Limits on how much conversation a run drags along.
#[derive(Debug)]
pub struct ContextPolicy {
    /// A tool result larger than this is truncated before the model sees it.
    pub max_tool_result_bytes: usize,
    /// When the *measured* input size of the last provider call exceeds this,
    /// older turns are summarised into one message before the next call.
    pub max_context_tokens: Option<u64>,
    /// Model used for the summary. Defaults to the `fast` alias.
    pub compact_with: Option<String>,
    /// How many recent messages survive a compaction untouched.
    pub keep_recent: usize,
}

pub fn default_tool_result_bytes() -> (r: usize)
    ensures
        r == 16384,
{
    16384
}

pub fn default_keep_recent() -> (r: usize)
    ensures
        r == 6,
{
    6
}

/// Whether a policy is the one that holds where none is declared.
pub open spec fn is_default_policy(p: ContextPolicy) -> bool {
    &&& p.max_tool_result_bytes == 16384
    &&& p.max_context_tokens is None
    &&& p.compact_with is None
    &&& p.keep_recent == 6
}

impl Default for ContextPolicy {
    fn default() -> (r: Self)
        ensures
            is_default_policy(r),
    {
        ContextPolicy {
            max_tool_result_bytes: default_tool_result_bytes(),
            max_context_tokens: None,
            compact_with: None,
            keep_recent: default_keep_recent(),
        }
    }
}

/// A named source of context, resolved at run start and injected into the
/// system prompt as a delimited block.
#[derive(Debug)]
pub struct ContextDef {
    pub name: String,
    pub description: String,
    pub source: ContextSource,
    /// Upper bound on the rendered size, in characters.
    pub max_chars: usize,
}

pub fn default_context_chars() -> (r: usize)
    ensures
        r == 4000,
{
    4000
}

#[derive(Debug)]
pub enum ContextSource {
    /// A constant.
    Static { value: Json },
    /// SQL. Parameters resolve from the run's input.
    Query { sql: String, params: Vec<String>, returns: QueryReturns },
    /// A Python function returning any JSON-serialisable value.
    Python { handler: u32 },
}

/// A declarative orchestration. Every step is a tool.
#[derive(Debug)]
pub struct FlowDef {
    pub name: String,
    pub description: String,
    pub kind: FlowKind,
    pub scopes: Vec<String>,
    /// Budget for the whole flow, including every nested agent and behaviour.
    pub token_budget: Option<u64>,
    pub input_schema: Option<Json>,
}

#[derive(Debug)]
pub enum FlowKind {
    /// Steps run in order; each receives the previous step's output.
    Pipeline { steps: Vec<FlowStep> },
    /// Every branch receives the same input and runs concurrently.
    Parallel { branches: Vec<FlowStep>, merge: MergeStrategy },
    /// A model classifies the input into one of the labels; that branch runs.
    Route {
        routes: Table<FlowStep>,
        default: Option<FlowStep>,
        classify_with: Option<String>,
        classify_prompt: Option<String>,
    },
}

#[derive(Debug)]
pub struct FlowStep {
    pub tool: String,
    /// Optional argument template. String values of the form `$.a.b` are
    /// resolved from the incoming value; `$` is the whole value; `$input` is
    /// the flow's original input. Absent means "pass the incoming value
    /// through", wrapped as `{"input": …}` when the target is an agent.
    pub input: Option<Json>,
}

#[derive(Debug, Clone, Copy, PartialEq, Eq, Structural)]
pub enum MergeStrategy {
    /// A list of branch outputs, in declaration order.
    Collect,
    /// Branch outputs that are objects are merged into one object; later
    /// branches win on key collisions. Non-object outputs are kept under the
    /// branch's tool name.
    Merge,
}

impl Default for MergeStrategy {
    fn default() -> (r: Self)
        ensures
            r == MergeStrategy::Collect,
    {
        MergeStrategy::Collect
    }
}

#[derive(Debug)]
pub struct AuthConfig {
    /// Maps an environment variable holding a secret to the principal it grants.
    pub api_keys: Table<ApiKeySpec>,
    pub api_key_header: String,
    pub jwt: Option<JwtConfig>,
    /// Scopes granted to callers presenting no credential at all.
    pub anonymous_scopes: Vec<String>,
}

pub fn default_api_key_header() -> (r: String)
    ensures
        r@ == "x-api-key"@,
{
    "x-api-key".to_owned()
}

#[derive(Debug)]
pub struct ApiKeySpec {
    pub id: String,
    pub scopes: Vec<String>,
}

#[derive(Debug)]
pub struct JwtConfig {
    /// Environment variable holding the HMAC secret or PEM public key.
    pub secret_env: String,
    pub algorithm: String,
    pub audience: Option<String>,
    pub issuer: Option<String>,
    /// Seconds of clock skew tolerated on `exp` and `nbf`.
    pub leeway_secs: u64,
}

pub fn default_jwt_leeway() -> (r: u64)
    ensures
        r == 30,
{
    30
}

pub fn default_jwt_alg() -> (r: String)
    ensures
        r@ == "HS256"@,
{
    "HS256".to_owned()
}

#[derive(Debug)]
pub struct CorsConfig {
    pub enabled: bool,
    pub allow_origins: Vec<String>,
    pub allow_methods: Vec<String>,
    pub allow_headers: Vec<String>,
    pub expose_headers: Vec<String>,
    pub allow_credentials: bool,
    pub max_age_secs: u64,
}

pub fn default_cors_methods() -> (r: Vec<String>)
    ensures
        texts(r@) == seq!["GET"@, "POST"@, "PUT"@, "PATCH"@, "DELETE"@, "OPTIONS"@],
{
    let r = vec![
        "GET".to_owned(),
        "POST".to_owned(),
        "PUT".to_owned(),
        "PATCH".to_owned(),
        "DELETE".to_owned(),
        "OPTIONS".to_owned(),
    ];
    assert(texts(r@) =~= seq!["GET"@, "POST"@, "PUT"@, "PATCH"@, "DELETE"@, "OPTIONS"@]);
    r
}

pub fn default_cors_headers() -> (r: Vec<String>)
    ensures
        texts(r@) == seq!["content-type"@, "authorization"@, "x-api-key"@, "x-request-id"@],
{
    let r = vec![
        "content-type".to_owned(),
        "authorization".to_owned(),
        "x-api-key".to_owned(),
        "x-request-id".to_owned(),
    ];
    assert(texts(r@) =~= seq!["content-type"@, "authorization"@, "x-api-key"@, "x-request-id"@]);
    r
}

pub fn default_cors_max_age() -> (r: u64)
    ensures
        r == 600,
{
    600
}

impl Default for CorsConfig {
    fn default() -> (r: Self)
        ensures
            !r.enabled,
            r.allow_origins@.len() == 0,
            texts(r.allow_methods@) == seq!["GET"@, "POST"@, "PUT"@, "PATCH"@, "DELETE"@, "OPTIONS"@],
            texts(r.allow_headers@) == seq!["content-type"@, "authorization"@, "x-api-key"@, "x-request-id"@],
            r.expose_headers@.len() == 0,
            !r.allow_credentials,
            r.max_age_secs == 600,
    {
        CorsConfig {
            enabled: false,
            allow_origins: Vec::new(),
            allow_methods: default_cors_methods(),
            allow_headers: default_cors_headers(),
            expose_headers: Vec::new(),
            allow_credentials: false,
            max_age_secs: default_cors_max_age(),
        }
    }
}

/// What is wrong with a CORS configuration, if anything is.
pub open spec fn cors_fault(c: CorsConfig) -> Option<Seq<char>> {
    if !c.enabled {
        None
    } else if c.allow_origins@.len() == 0 {
        Some("cors is enabled but allow_origins is empty"@)
    } else if c.allow_credentials && texts(c.allow_origins@).contains("*"@) {
        Some("cors: allow_credentials with a '*' origin is forbidden; list explicit origins"@)
    } else {
        None
    }
}

impl CorsConfig {
    /// Refuses an enabled configuration without origins, and one that allows
    /// credentials from every origin: browsers reject that silently.
    pub fn validate(&self) -> (r: Result<(), String>)
        ensures
            match r {
                Ok(_) => cors_fault(*self) is None,
                Err(e) => cors_fault(*self) == Some(e@),
            },
    {
        if !self.enabled {
            return Ok(());
        }
        if self.allow_origins.len() == 0 {
            return Err("cors is enabled but allow_origins is empty".to_owned());
        }
        if self.allow_credentials && holds(&self.allow_origins, "*") {
            return Err(
                "cors: allow_credentials with a '*' origin is forbidden; list explicit origins".to_owned(),
            );
        }
        Ok(())
    }
}

#[derive(Debug)]
pub struct RateLimitConfig {
    pub enabled: bool,
    /// Requests per second. A number is carried, and only its sign is read here.
    pub per_second: Number,
    pub burst: u32,
    pub idle_eviction_secs: u64,
}

pub fn default_rate_burst() -> (r: u32)
    ensures
        r == 100,
{
    100
}

pub fn default_idle_eviction() -> (r: u64)
    ensures
        r == 300,
{
    300
}

impl Default for RateLimitConfig {
    fn default() -> (r: Self)
        ensures
            !r.enabled,
            r.per_second@ == crate::json::NumberView::Int(50),
            r.burst == 100,
            r.idle_eviction_secs == 300,
    {
        RateLimitConfig {
            enabled: false,
            per_second: Number::Unsigned(50),
            burst: default_rate_burst(),
            idle_eviction_secs: default_idle_eviction(),
        }
    }
}

#[derive(Debug)]
pub struct SecurityHeaders {
    pub enabled: bool,
    pub frame_options: String,
    pub referrer_policy: String,
    pub content_security_policy: Option<String>,
    pub hsts_max_age_secs: u64,
}

pub fn yes() -> (r: bool)
    ensures
        r,
{
    true
}

pub fn default_frame_options() -> (r: String)
    ensures
        r@ == "DENY"@,
{
    "DENY".to_owned()
}

pub fn default_referrer_policy() -> (r: String)
    ensures
        r@ == "strict-origin-when-cross-origin"@,
{
    "strict-origin-when-cross-origin".to_owned()
}

pub fn default_hsts() -> (r: u64)
    ensures
        r == 31_536_000,
{
    31_536_000
}

impl Default for SecurityHeaders {
    fn default() -> (r: Self)
        ensures
            r.enabled,
            r.frame_options@ == "DENY"@,
            r.referrer_policy@ == "strict-origin-when-cross-origin"@,
            r.content_security_policy is None,
            r.hsts_max_age_secs == 31_536_000,
    {
        SecurityHeaders {
            enabled: true,
            frame_options: default_frame_options(),
            referrer_policy: default_referrer_policy(),
            content_security_policy: None,
            hsts_max_age_secs: default_hsts(),
        }
    }
}

/// A Behaviour: a named, versioned procedure written in Python, whose control
/// flow always runs, with model calls only at the leaves.
#[derive(Debug)]
pub struct BehaviourDef {
    pub name: String,
    pub description: String,
    /// Index into the Python handler registry.
    pub handler: u32,
    /// Tools this behaviour may call. Empty means "whatever its caller can".
    pub tools: Vec<String>,
    /// Scopes the run executes with, intersected with the caller's.
    pub scopes: Vec<String>,
    /// Total leaf operations (tool calls plus model calls) permitted.
    pub max_steps: u32,
    pub token_budget: Option<u64>,
    pub model: String,
    pub max_tokens: u32,
    pub temperature: Option<Number>,
    pub input_schema: Option<Json>,
    /// Context providers resolved on demand.
    pub context: Vec<String>,
}

pub fn default_behaviour_steps() -> (r: u32)
    ensures
        r == 50,
{
    50
}

#[derive(Debug)]
pub struct TemplateConfig {
    /// Directory containing `.html` templates, resolved relative to the app.
    pub dir: String,
    pub autoescape: bool,
}

pub fn default_version() -> (r: String)
    ensures
        r@ == "0.1.0"@,
{
    "0.1.0".to_owned()
}

#[derive(Debug)]
pub struct ServerConfig {
    pub host: String,
    pub port: u16,
    /// Number of Python worker interpreters. `None` = one per processor.
    pub python_workers: Option<usize>,
    /// Mount point for the introspection surfaces (OpenAPI, MCP, health).
    pub control_prefix: String,
    /// Ceiling on a single request's handling time.
    pub request_timeout_secs: u64,
    /// How long to drain in-flight connections on shutdown.
    pub shutdown_timeout_secs: u64,
    /// Maximum nesting for in-process invocations (behaviour → tool → behaviour).
    pub max_invocation_depth: u32,
    /// How many multi-turn agent sessions to keep in memory at once.
    pub session_capacity: usize,
    /// Idle time after which a session is forgotten.
    pub session_ttl_secs: u64,
    /// How long a suspended run waits for a human before it is discarded.
    pub approval_ttl_secs: u64,
}

pub fn default_max_depth() -> (r: u32)
    ensures
        r == 8,
{
    8
}

pub fn default_session_capacity() -> (r: usize)
    ensures
        r == 1000,
{
    1000
}

pub fn default_session_ttl() -> (r: u64)
    ensures
        r == 3600,
{
    3600
}

pub fn default_approval_ttl() -> (r: u64)
    ensures
        r == 3600,
{
    3600
}

pub fn default_request_timeout() -> (r: u64)
    ensures
        r == 30,
{
    30
}

pub fn default_shutdown_timeout() -> (r: u64)
    ensures
        r == 25,
{
    25
}

pub fn default_host() -> (r: String)
    ensures
        r@ == "127.0.0.1"@,
{
    "127.0.0.1".to_owned()
}

pub fn default_port() -> (r: u16)
    ensures
        r == 8000,
{
    8000
}

pub fn default_control_prefix() -> (r: String)
    ensures
        r@ == "/_webcortex"@,
{
    "/_webcortex".to_owned()
}

impl Default for ServerConfig {
    fn default() -> (r: Self)
        ensures
            r.host@ == "127.0.0.1"@,
            r.port == 8000,
            r.python_workers is None,
            r.control_prefix@ == "/_webcortex"@,
            r.request_timeout_secs == 30,
            r.shutdown_timeout_secs == 25,
            r.max_invocation_depth == 8,
            r.session_capacity == 1000,
            r.session_ttl_secs == 3600,
            r.approval_ttl_secs == 3600,
    {
        ServerConfig {
            host: default_host(),
            port: default_port(),
            python_workers: None,
            control_prefix: default_control_prefix(),
            request_timeout_secs: default_request_timeout(),
            shutdown_timeout_secs: default_shutdown_timeout(),
            max_invocation_depth: default_max_depth(),
            session_capacity: default_session_capacity(),
            session_ttl_secs: default_session_ttl(),
            approval_ttl_secs: default_approval_ttl(),
        }
    }
}

#[derive(Debug)]
pub struct DatabaseConfig {
    pub url: String,
    pub max_connections: u32,
}

pub fn default_pool_size() -> (r: u32)
    ensures
        r == 16,
{
    16
}

#[derive(Debug)]
pub struct Upstream {
    pub base_url: String,
    pub headers: Table<String>,
    /// Name of an environment variable holding a bearer token.
    pub bearer_env: Option<String>,
    pub timeout_ms: u64,
}

pub fn default_timeout_ms() -> (r: u64)
    ensures
        r == 30_000,
{
    30_000
}

#[derive(Debug)]
pub struct Route {
    pub id: u32,
    pub method: String,
    pub path: String,
    pub op: Op,
    pub summary: String,
    pub description: String,
    /// JSON Schema describing path/query params merged with the body, i.e.
    /// exactly the shape an agent tool call takes.
    pub input_schema: Option<Json>,
    pub output_schema: Option<Json>,
    pub tool: ToolExposure,
    /// Scopes required to reach this route at all, over HTTP or as a tool.
    pub scopes: Vec<String>,
    /// Whether an agent may invoke this without a human in the loop.
    pub approval: Approval,
    pub validate_body: bool,
}

/// Controls whether a route is visible to agents as a callable tool.
#[derive(Debug)]
pub struct ToolExposure {
    pub expose: bool,
    pub name: Option<String>,
    /// Hints an agent runtime can use for planning: whether the call mutates
    /// state, is safe to retry, or is expensive.
    pub read_only: bool,
    pub idempotent: bool,
    /// Scopes the caller must hold. Enforced before the op runs.
    pub scopes: Vec<String>,
}

impl Default for ToolExposure {
    fn default() -> (r: Self)
        ensures
            !r.expose,
            r.name is None,
            !r.read_only,
            !r.idempotent,
            r.scopes@.len() == 0,
    {
        ToolExposure { expose: false, name: None, read_only: false, idempotent: false, scopes: Vec::new() }
    }
}

/// The executable core. Each variant is a different answer to "who serves this
/// request".
#[derive(Debug)]
pub enum Op {
    /// A constant response.
    Static { status: u16, body: Json },
    /// Call a Python handler by index into the handler registry.
    Python { handler: u32 },
    /// Run SQL and hand the rows out as JSON.
    Query {
        sql: String,
        /// Names pulled from path/query params, bound positionally in order.
        params: Vec<String>,
        returns: QueryReturns,
    },
    /// Forward to a declared upstream.
    Proxy { upstream: String, rewrite: Option<String> },
    /// Invoke a declared agent.
    Agent { agent: String, stream: bool },
    /// Render a server-side template, which receives a data dictionary and
    /// nothing else.
    Page { template: String, data: PageData, status: u16 },
    /// Run a Behaviour.
    Behaviour { behaviour: String, handler: u32 },
    /// Serve files from a directory.
    Files { dir: String, index: Option<String>, cache_secs: u64 },
    /// Run a declared flow: a pipeline, a parallel fan-out, or a router.
    Flow { flow: String },
}

pub fn default_page_status() -> (r: u16)
    ensures
        r == 200,
{
    200
}

pub fn default_cache_secs() -> (r: u64)
    ensures
        r == 3600,
{
    3600
}

/// How an [`Op::Page`] obtains its rendering context.
#[derive(Debug)]
pub enum PageData {
    /// No data beyond the request context.
    Empty,
    /// Constant data baked in at boot.
    Static { value: Json },
    /// A SQL query.
    Query {
        sql: String,
        params: Vec<String>,
        returns: QueryReturns,
        /// Name to bind the result under in the template context.
        bind: String,
    },
    /// A Python handler returning a dict.
    Python { handler: u32 },
}

impl Default for PageData {
    fn default() -> (r: Self)
        ensures
            r is Empty,
    {
        PageData::Empty
    }
}

pub fn default_bind() -> (r: String)
    ensures
        r@ == "data"@,
{
    "data".to_owned()
}

/// Whether a tool call may proceed unattended. A tool marked `Required` suspends
/// the agent run and waits for a human.
#[derive(Debug, Clone, Copy, PartialEq, Eq, Structural)]
pub enum Approval {
    /// Runs immediately.
    Never,
    /// Suspends the run and records an approval request.
    Required,
}

impl Default for Approval {
    fn default() -> (r: Self)
        ensures
            r == Approval::Never,
    {
        Approval::Never
    }
}

pub fn default_status() -> (r: u16)
    ensures
        r == 200,
{
    200
}

#[derive(Debug, Clone, Copy, PartialEq, Eq, Structural)]
pub enum QueryReturns {
    /// A JSON array of row objects.
    Many,
    /// A single row object, or 404 when the query yields nothing.
    One,
    /// Row count only, as `{"affected": n}`.
    Affected,
}

impl Default for QueryReturns {
    fn default() -> (r: Self)
        ensures
            r == QueryReturns::Many,
    {
        QueryReturns::Many
    }
}

#[derive(Debug)]
pub struct AgentDef {
    pub name: String,
    pub description: String,
    pub model: String,
    pub system: String,
    /// Tools this agent may call.
    pub tools: Vec<String>,
    pub max_steps: Option<u32>,
    /// Hard ceiling on tokens per run. Enforced by the runtime, not the model.
    pub token_budget: Option<u64>,
    /// Scopes this agent may exercise. Always intersected with the scopes of
    /// whoever started the run: an agent is a delegate, never an escalation.
    pub scopes: Vec<String>,
    pub temperature: Option<Number>,
    pub max_tokens: u32,
    /// Agents this one may hand the conversation to. Each becomes a
    /// `transfer_to_<name>` tool; calling it swaps the active agent while the
    /// conversation, the budget and the caller's authority carry over.
    pub handoffs: Vec<String>,
    /// Context providers resolved at run start and appended to the system
    /// prompt.
    pub context: Vec<String>,
    /// Ask the provider to cache the system prompt and tool definitions across
    /// steps.
    pub cache: bool,
    pub policy: ContextPolicy,
}

impl ContextPolicy {
    pub fn copy(&self) -> (r: ContextPolicy)
        ensures
            r.max_tool_result_bytes == self.max_tool_result_bytes,
            r.max_context_tokens == self.max_context_tokens,
            crate::run::maybe_text(r.compact_with) == crate::run::maybe_text(self.compact_with),
            r.keep_recent == self.keep_recent,
    {
        ContextPolicy {
            max_tool_result_bytes: self.max_tool_result_bytes,
            max_context_tokens: self.max_context_tokens,
            compact_with: crate::run::copy_text(&self.compact_with),
            keep_recent: self.keep_recent,
        }
    }
}

impl AgentDef {
    /// The same agent, with another model.
    pub fn with_model(&self, model: &str) -> (r: AgentDef)
        ensures
            r.name@ == self.name@,
            r.description@ == self.description@,
            r.model@ == model@,
            r.system@ == self.system@,
            texts(r.tools@) == texts(self.tools@),
            r.max_steps == self.max_steps,
            r.token_budget == self.token_budget,
            texts(r.scopes@) == texts(self.scopes@),
            match (r.temperature, self.temperature) {
                (Some(a), Some(b)) => a@ == b@,
                (None, None) => true,
                _ => false,
            },
            r.max_tokens == self.max_tokens,
            texts(r.handoffs@) == texts(self.handoffs@),
            texts(r.context@) == texts(self.context@),
            r.cache == self.cache,
            r.policy.max_tool_result_bytes == self.policy.max_tool_result_bytes,
            r.policy.max_context_tokens == self.policy.max_context_tokens,
            crate::run::maybe_text(r.policy.compact_with) == crate::run::maybe_text(self.policy.compact_with),
            r.policy.keep_recent == self.policy.keep_recent,
    {
        AgentDef {
            name: self.name.clone(),
            description: self.description.clone(),
            model: model.to_owned(),
            system: self.system.clone(),
            tools: copy_texts(&self.tools),
            max_steps: self.max_steps,
            token_budget: self.token_budget,
            scopes: copy_texts(&self.scopes),
            temperature: match &self.temperature {
                Some(n) => Some(n.copy()),
                None => None,
            },
            max_tokens: self.max_tokens,
            handoffs: copy_texts(&self.handoffs),
            context: copy_texts(&self.context),
            cache: self.cache,
            policy: self.policy.copy(),
        }
    }
}

pub fn default_temperature() -> (r: Number)
    ensures
        r@ == crate::json::NumberView::Real("1.0"@),
{
    Number::one()
}

pub fn default_max_tokens() -> (r: u32)
    ensures
        r == 4096,
{
    4096
}

/// The first word of a derived tool name.
pub open spec fn verb(method: Seq<char>) -> Seq<char> {
    if method == "GET"@ {
        "get"@
    } else if method == "POST"@ {
        "create"@
    } else if method == "PUT"@ || method == "PATCH"@ {
        "update"@
    } else if method == "DELETE"@ {
        "delete"@
    } else {
        crate::text::lowered(method)
    }
}

/// What a segment of a path stands between: `{id}` is a parameter.
pub open spec fn braced(segment: Seq<char>) -> Option<Seq<char>> {
    match crate::text::after_prefix(segment, "{"@) {
        Some(rest) => crate::text::before_suffix(rest, "}"@),
        None => None,
    }
}

/// The words that the segments of a path add to a tool name.
pub open spec fn name_words(segments: Seq<Seq<char>>) -> Seq<Seq<char>>
    decreases segments.len(),
{
    if segments.len() == 0 {
        Seq::empty()
    } else {
        let words = name_words(segments.drop_last());
        let last = segments.last();
        if last.len() == 0 {
            words
        } else {
            match braced(last) {
                Some(inner) => words.push("by"@).push(crate::text::with_char(inner, '-', '_')),
                None => words.push(crate::text::with_char(last, '-', '_')),
            }
        }
    }
}

/// The tool name of a route that gives none.
pub open spec fn derived_name(method: Seq<char>, path: Seq<char>) -> Seq<char> {
    crate::text::joined(seq![verb(method)] + name_words(crate::text::split_on(path, '/')), "_"@)
}

/// A name that reads like a function's, from a method and a path.
pub fn derive_tool_name(method: &str, path: &str) -> (r: String)
    ensures
        r@ == derived_name(method@, path@),
{
    let first = if same(method, "GET") {
        "get".to_owned()
    } else if same(method, "POST") {
        "create".to_owned()
    } else if same(method, "PUT") || same(method, "PATCH") {
        "update".to_owned()
    } else if same(method, "DELETE") {
        "delete".to_owned()
    } else {
        to_lower(method)
    };
    let mut parts: Vec<String> = Vec::new();
    parts.push(first);
    let segments = split(path, '/');
    let ghost segs = texts(segments@);
    let mut i: usize = 0;
    assert(texts(parts@) =~= seq![verb(method@)] + name_words(segs.take(0)));
    while i < segments.len()
        invariant
            i <= segments@.len(),
            segs == texts(segments@),
            texts(parts@) == seq![verb(method@)] + name_words(segs.take(i as int)),
        decreases segments.len() - i,
    {
        let seg = segments[i].as_str();
        assert(segs.take(i + 1).drop_last() =~= segs.take(i as int));
        assert(segs.take(i + 1).last() == seg@);
        let ghost was = texts(parts@);
        if !seg.is_empty() {
            let inner = match strip_prefix(seg, "{") {
                Some(rest) => strip_suffix(rest.as_str(), "}"),
                None => None,
            };
            match inner {
                Some(name) => {
                    parts.push("by".to_owned());
                    parts.push(replace_char(name.as_str(), '-', '_'));
                    assert(texts(parts@) =~= was.push("by"@).push(crate::text::with_char(name@, '-', '_')));
                },
                None => {
                    parts.push(replace_char(seg, '-', '_'));
                    assert(texts(parts@) =~= was.push(crate::text::with_char(seg@, '-', '_')));
                },
            }
            assert(texts(parts@) =~= seq![verb(method@)] + name_words(segs.take(i + 1)));
        }
        i = i + 1;
    }
    assert(segs.take(segs.len() as int) =~= segs);
    join(&parts, "_")
}

impl Route {
    /// The name an agent sees: the declared one, else one derived from the
    /// method and the path.
    pub open spec fn tool_text(&self) -> Seq<char> {
        match self.tool.name {
            Some(n) => n@,
            None => derived_name(self.method@, self.path@),
        }
    }

    /// The name an agent sees. Derived from method and path when not given.
    pub fn tool_name(&self) -> (r: String)
        ensures
            r@ == self.tool_text(),
    {
        match &self.tool.name {
            Some(n) => n.clone(),
            None => derive_tool_name(self.method.as_str(), self.path.as_str()),
        }
    }
}

impl Op {
    /// The name of the variant, as it is written in a manifest.
    pub open spec fn kind_text(&self) -> Seq<char> {
        match self {
            Op::Static { .. } => "static"@,
            Op::Python { .. } => "python"@,
            Op::Query { .. } => "query"@,
            Op::Proxy { .. } => "proxy"@,
            Op::Agent { .. } => "agent"@,
            Op::Page { .. } => "page"@,
            Op::Behaviour { .. } => "behaviour"@,
            Op::Files { .. } => "files"@,
            Op::Flow { .. } => "flow"@,
        }
    }

    /// The name of the variant, as it is written in a manifest.
    pub fn kind(&self) -> (r: &'static str)
        ensures
            r@ == self.kind_text(),
    {
        match self {
            Op::Static { .. } => "static",
            Op::Python { .. } => "python",
            Op::Query { .. } => "query",
            Op::Proxy { .. } => "proxy",
            Op::Agent { .. } => "agent",
            Op::Page { .. } => "page",
            Op::Behaviour { .. } => "behaviour",
            Op::Files { .. } => "files",
            Op::Flow { .. } => "flow",
        }
    }
}

/// Whether a route asks for no scope at all.
pub open spec fn is_public(r: Route) -> bool {
    r.scopes@.len() == 0 && r.tool.scopes@.len() == 0
}

/// The first flow of a name.
pub open spec fn flow_named(list: Seq<FlowDef>, name: Seq<char>) -> Option<FlowDef>
    decreases list.len(),
{
    if list.len() == 0 {
        None
    } else if list[0].name@ == name {
        Some(list[0])
    } else {
        flow_named(list.skip(1), name)
    }
}

/// The first context provider of a name.
pub open spec fn context_named(list: Seq<ContextDef>, name: Seq<char>) -> Option<ContextDef>
    decreases list.len(),
{
    if list.len() == 0 {
        None
    } else if list[0].name@ == name {
        Some(list[0])
    } else {
        context_named(list.skip(1), name)
    }
}

/// The first agent of a name.
pub open spec fn agent_named(list: Seq<AgentDef>, name: Seq<char>) -> Option<AgentDef>
    decreases list.len(),
{
    if list.len() == 0 {
        None
    } else if list[0].name@ == name {
        Some(list[0])
    } else {
        agent_named(list.skip(1), name)
    }
}

/// The first behaviour of a name.
pub open spec fn behaviour_named(list: Seq<BehaviourDef>, name: Seq<char>) -> Option<BehaviourDef>
    decreases list.len(),
{
    if list.len() == 0 {
        None
    } else if list[0].name@ == name {
        Some(list[0])
    } else {
        behaviour_named(list.skip(1), name)
    }
}

/// The last route of an id.
pub open spec fn route_of(routes: Seq<Route>, id: u32) -> Option<Route>
    decreases routes.len(),
{
    if routes.len() == 0 {
        None
    } else if routes.last().id == id {
        Some(routes.last())
    } else {
        route_of(routes.drop_last(), id)
    }
}

/// The id of the last route that is exposed as a tool of a name.
pub open spec fn tool_id(routes: Seq<Route>, name: Seq<char>) -> Option<u32>
    decreases routes.len(),
{
    if routes.len() == 0 {
        None
    } else if routes.last().tool.expose && routes.last().tool_text() == name {
        Some(routes.last().id)
    } else {
        tool_id(routes.drop_last(), name)
    }
}

/// The route behind a tool.
pub open spec fn tool_route(routes: Seq<Route>, name: Seq<char>) -> Option<Route> {
    match tool_id(routes, name) {
        Some(id) => route_of(routes, id),
        None => None,
    }
}

impl Manifest {
    /// The first flow of a name.
    pub fn flow(&self, name: &str) -> (r: Option<&FlowDef>)
        ensures
            match r {
                Some(x) => flow_named(self.flows@, name@) == Some(*x) && x.name@ == name@,
                None => flow_named(self.flows@, name@) is None,
            },
    {
        let ghost all = self.flows@;
        let mut i: usize = 0;
        assert(all.skip(0) =~= all);
        while i < self.flows.len()
            invariant
                i <= self.flows@.len(),
                all == self.flows@,
                flow_named(all.skip(i as int), name@) == flow_named(all, name@),
            decreases self.flows.len() - i,
        {
            assert(all.skip(i as int)[0] == all[i as int]);
            assert(all.skip(i as int).skip(1) =~= all.skip(i + 1));
            if same(self.flows[i].name.as_str(), name) {
                return Some(&self.flows[i]);
            }
            i = i + 1;
        }
        None
    }

    /// The first context provider of a name.
    pub fn context(&self, name: &str) -> (r: Option<&ContextDef>)
        ensures
            match r {
                Some(x) => context_named(self.contexts@, name@) == Some(*x) && x.name@ == name@,
                None => context_named(self.contexts@, name@) is None,
            },
    {
        let ghost all = self.contexts@;
        let mut i: usize = 0;
        assert(all.skip(0) =~= all);
        while i < self.contexts.len()
            invariant
                i <= self.contexts@.len(),
                all == self.contexts@,
                context_named(all.skip(i as int), name@) == context_named(all, name@),
            decreases self.contexts.len() - i,
        {
            assert(all.skip(i as int)[0] == all[i as int]);
            assert(all.skip(i as int).skip(1) =~= all.skip(i + 1));
            if same(self.contexts[i].name.as_str(), name) {
                return Some(&self.contexts[i]);
            }
            i = i + 1;
        }
        None
    }

    /// The first agent of a name.
    pub fn agent_def(&self, name: &str) -> (r: Option<&AgentDef>)
        ensures
            match r {
                Some(x) => agent_named(self.agents@, name@) == Some(*x) && x.name@ == name@,
                None => agent_named(self.agents@, name@) is None,
            },
    {
        let ghost all = self.agents@;
        let mut i: usize = 0;
        assert(all.skip(0) =~= all);
        while i < self.agents.len()
            invariant
                i <= self.agents@.len(),
                all == self.agents@,
                agent_named(all.skip(i as int), name@) == agent_named(all, name@),
            decreases self.agents.len() - i,
        {
            assert(all.skip(i as int)[0] == all[i as int]);
            assert(all.skip(i as int).skip(1) =~= all.skip(i + 1));
            if same(self.agents[i].name.as_str(), name) {
                return Some(&self.agents[i]);
            }
            i = i + 1;
        }
        None
    }

    /// The first behaviour of a name.
    pub fn behaviour(&self, name: &str) -> (r: Option<&BehaviourDef>)
        ensures
            match r {
                Some(x) => behaviour_named(self.behaviours@, name@) == Some(*x) && x.name@ == name@,
                None => behaviour_named(self.behaviours@, name@) is None,
            },
    {
        let ghost all = self.behaviours@;
        let mut i: usize = 0;
        assert(all.skip(0) =~= all);
        while i < self.behaviours.len()
            invariant
                i <= self.behaviours@.len(),
                all == self.behaviours@,
                behaviour_named(all.skip(i as int), name@) == behaviour_named(all, name@),
            decreases self.behaviours.len() - i,
        {
            assert(all.skip(i as int)[0] == all[i as int]);
            assert(all.skip(i as int).skip(1) =~= all.skip(i + 1));
            if same(self.behaviours[i].name.as_str(), name) {
                return Some(&self.behaviours[i]);
            }
            i = i + 1;
        }
        None
    }

    /// The last route of an id.
    pub fn route(&self, id: u32) -> (r: Option<&Route>)
        ensures
            match r {
                Some(x) => route_of(self.routes@, id) == Some(*x),
                None => route_of(self.routes@, id) is None,
            },
    {
        let ghost all = self.routes@;
        let mut n: usize = self.routes.len();
        assert(all.take(n as int) =~= all);
        while n > 0
            invariant
                n <= self.routes@.len(),
                all == self.routes@,
                route_of(all.take(n as int), id) == route_of(all, id),
            decreases n,
        {
            assert(all.take(n as int).last() == all[n - 1]);
            assert(all.take(n as int).drop_last() =~= all.take(n - 1));
            n = n - 1;
            if self.routes[n].id == id {
                return Some(&self.routes[n]);
            }
        }
        None
    }

    /// The id of the last route that is exposed as a tool of a name.
    pub fn tool(&self, name: &str) -> (r: Option<u32>)
        ensures
            r == tool_id(self.routes@, name@),
    {
        let ghost all = self.routes@;
        let mut n: usize = self.routes.len();
        assert(all.take(n as int) =~= all);
        while n > 0
            invariant
                n <= self.routes@.len(),
                all == self.routes@,
                tool_id(all.take(n as int), name@) == tool_id(all, name@),
            decreases n,
        {
            assert(all.take(n as int).last() == all[n - 1]);
            assert(all.take(n as int).drop_last() =~= all.take(n - 1));
            n = n - 1;
            if self.routes[n].tool.expose && same(self.routes[n].tool_name().as_str(), name) {
                return Some(self.routes[n].id);
            }
        }
        None
    }

    /// The route behind a tool.
    pub fn route_for_tool(&self, name: &str) -> (r: Option<&Route>)
        ensures
            match r {
                Some(x) => tool_route(self.routes@, name@) == Some(*x),
                None => tool_route(self.routes@, name@) is None,
            },
    {
        match self.tool(name) {
            Some(id) => self.route(id),
            None => None,
        }
    }

    /// The routes that are exposed as tools, in order.
    pub fn exposed_tools(&self) -> (r: Vec<&Route>)
        ensures
            r@.unref() == self.routes@.filter(|x: Route| x.tool.expose),
    {
        let mut out: Vec<&Route> = Vec::new();
        let mut i: usize = 0;
        let ghost keep = |x: Route| x.tool.expose;
        assert(out@.unref() =~= self.routes@.take(0).filter(keep)) by {
            reveal(Seq::filter);
        }
        while i < self.routes.len()
            invariant
                i <= self.routes.len(),
                keep == (|x: Route| x.tool.expose),
                out@.unref() == self.routes@.take(i as int).filter(keep),
            decreases self.routes.len() - i,
        {
            let r = &self.routes[i];
            let ghost was = out@.unref();
            proof {
                self.routes@.take(i as int).lemma_filter_push(*r, keep);
                assert(self.routes@.take(i + 1) =~= self.routes@.take(i as int).push(*r));
            }
            if r.tool.expose {
                out.push(r);
                assert(out@.unref() =~= was.push(*r));
            }
            i = i + 1;
        }
        assert(self.routes@.take(self.routes@.len() as int) =~= self.routes@);
        out
    }

    /// Routes reachable without any credential, in order.
    pub fn public_routes(&self) -> (r: Vec<&Route>)
        ensures
            r@.unref() == self.routes@.filter(|x: Route| is_public(x)),
    {
        let mut out: Vec<&Route> = Vec::new();
        let mut i: usize = 0;
        let ghost keep = |x: Route| is_public(x);
        assert(out@.unref() =~= self.routes@.take(0).filter(keep)) by {
            reveal(Seq::filter);
        }
        while i < self.routes.len()
            invariant
                i <= self.routes.len(),
                keep == (|x: Route| is_public(x)),
                out@.unref() == self.routes@.take(i as int).filter(keep),
            decreases self.routes.len() - i,
        {
            let r = &self.routes[i];
            let ghost was = out@.unref();
            proof {
                self.routes@.take(i as int).lemma_filter_push(*r, keep);
                assert(self.routes@.take(i + 1) =~= self.routes@.take(i as int).push(*r));
            }
            if r.scopes.len() == 0 && r.tool.scopes.len() == 0 {
                out.push(r);
                assert(out@.unref() =~= was.push(*r));
            }
            i = i + 1;
        }
        assert(self.routes@.take(self.routes@.len() as int) =~= self.routes@);
        out
    }
}

/// A segment of a path is a parameter exactly where its name stands between braces.
pub proof fn law_a_parameter_stands_between_braces(segment: Seq<char>, name: Seq<char>)
    ensures
        braced(segment) == Some(name) <==> segment == "{"@ + name + "}"@,
{
    reveal_strlit("{");
    reveal_strlit("}");
    let whole = "{"@ + name + "}"@;
    assert(whole.subrange(0, 1) =~= "{"@);
    let rest = whole.skip(1);
    assert(rest.subrange(rest.len() - 1, rest.len() as int) =~= "}"@);
    assert(rest.take(rest.len() - 1) =~= name);
    if braced(segment) == Some(name) {
        let r = segment.skip(1);
        assert(segment.subrange(0, 1) =~= "{"@);
        assert(segment[0] == segment.subrange(0, 1)[0]);
        assert(r.last() == r.subrange(r.len() - 1, r.len() as int)[0]);
        assert(r =~= name + "}"@);
        assert(segment =~= whole);
    }
}

/// A tool is named after what its route does and where: the word of the method, then one
/// word for each segment of the path, hyphens turned to underscores, and a parameter
/// behind a `by`.
pub proof fn law_a_tool_is_named_after_its_route(method: Seq<char>, path: Seq<char>, segment: Seq<char>, name: Seq<char>)
    requires
        segment.len() > 0,
        !segment.contains('/'),
        !name.contains('/'),
    ensures
        derived_name("GET"@, Seq::empty()) == "get"@,
        derived_name("POST"@, Seq::empty()) == "create"@,
        derived_name("PUT"@, Seq::empty()) == "update"@,
        derived_name("PATCH"@, Seq::empty()) == "update"@,
        derived_name("DELETE"@, Seq::empty()) == "delete"@,
        derived_name(method, path + seq!['/']) == derived_name(method, path),
        braced(segment) is None ==> derived_name(method, path + seq!['/'] + segment) == derived_name(method, path)
            + "_"@ + crate::text::with_char(segment, '-', '_'),
        derived_name(method, path + seq!['/'] + ("{"@ + name + "}"@)) == derived_name(method, path) + "_"@ + "by"@
            + "_"@ + crate::text::with_char(name, '-', '_'),
{
    reveal_strlit("GET");
    reveal_strlit("POST");
    reveal_strlit("PUT");
    reveal_strlit("PATCH");
    reveal_strlit("DELETE");
    assert("GET"@.len() == 3);
    assert("POST"@.len() == 4);
    assert("PUT"@.len() == 3);
    assert("PATCH"@.len() == 5);
    assert("DELETE"@.len() == 6);
    assert("GET"@[0] != "PUT"@[0]);
    reveal_strlit("{");
    reveal_strlit("}");
    let none = Seq::<char>::empty();
    let held = "{"@ + name + "}"@;
    assert(!held.contains('/')) by {
        if held.contains('/') {
            let i = choose|i: int| 0 <= i < held.len() && held[i] == '/';
            assert(i > 0 && i < held.len() - 1);
            assert(name[i - 1] == '/');
        }
    }
    law_a_parameter_stands_between_braces(held, name);
    let pieces = crate::text::split_on(path, '/');
    crate::text::law_a_text_is_cut_at_each_separator(path, segment, '/');
    crate::text::law_a_text_is_cut_at_each_separator(path, held, '/');
    crate::text::law_a_text_is_cut_at_each_separator(path, none, '/');
    crate::text::law_a_text_is_cut_at_each_separator(none, none, '/');
    crate::text::law_a_text_is_cut_at_each_separator(segment, none, '/');
    crate::text::law_a_text_is_cut_at_each_separator(held, none, '/');
    assert(path + seq!['/'] + none =~= path + seq!['/']);
    assert((pieces + seq![none]).drop_last() =~= pieces);
    assert((pieces + seq![segment]).drop_last() =~= pieces);
    assert((pieces + seq![held]).drop_last() =~= pieces);
    assert(seq![none].drop_last() =~= Seq::empty());
    assert(name_words(Seq::empty()) =~= Seq::empty());
    assert(name_words(seq![none]) =~= Seq::empty());
    let words = name_words(pieces);
    let v = verb(method);
    let one = seq![v] + words;
    let s = crate::text::with_char(segment, '-', '_');
    let n = crate::text::with_char(name, '-', '_');
    assert(seq![v] + words.push(s) =~= one.push(s));
    assert(seq![v] + words.push("by"@).push(n) =~= one.push("by"@).push(n));
    crate::text::law_texts_are_joined_in_order(one, s, "_"@);
    crate::text::law_texts_are_joined_in_order(one, "by"@, "_"@);
    crate::text::law_texts_are_joined_in_order(one.push("by"@), n, "_"@);
    assert forall|m: Seq<char>| #[trigger] derived_name(m, none) == verb(m) by {
        assert(seq![verb(m)] + name_words(seq![none]) =~= seq![verb(m)]);
    }
}

/// A declared name is the name; only a route without one is named after itself.
pub proof fn law_a_declared_name_is_kept(r: Route)
    ensures
        r.tool.name matches Some(n) ==> r.tool_text() == n@,
        r.tool.name is None ==> r.tool_text() == derived_name(r.method@, r.path@),
{
}

/// The id of a tool is that of a route which is exposed under its name.
pub proof fn lemma_tool_id(routes: Seq<Route>, name: Seq<char>)
    ensures
        tool_id(routes, name) matches Some(id) ==> exists|i: int|
            0 <= i < routes.len() && (#[trigger] routes[i]).id == id && routes[i].tool.expose && routes[i].tool_text() == name,
        tool_id(routes, name) is None ==> forall|i: int|
            0 <= i < routes.len() ==> !((#[trigger] routes[i]).tool.expose && routes[i].tool_text() == name),
    decreases routes.len(),
{
    if routes.len() > 0 {
        let rest = routes.drop_last();
        let last = routes.last();
        assert(routes[routes.len() - 1] == last);
        lemma_tool_id(rest, name);
        if !(last.tool.expose && last.tool_text() == name) {
            if let Some(id) = tool_id(rest, name) {
                let i = choose|i: int|
                    0 <= i < rest.len() && (#[trigger] rest[i]).id == id && rest[i].tool.expose && rest[i].tool_text() == name;
                assert(routes[i] == rest[i]);
            } else {
                assert forall|i: int| 0 <= i < routes.len() implies !((#[trigger] routes[i]).tool.expose
                    && routes[i].tool_text() == name) by {
                    if i < rest.len() {
                        assert(routes[i] == rest[i]);
                    }
                }
            }
        }
    }
}

proof fn lemma_route_of(routes: Seq<Route>, id: u32)
    ensures
        route_of(routes, id) matches Some(r) ==> routes.contains(r) && r.id == id,
        route_of(routes, id) is None ==> forall|i: int| 0 <= i < routes.len() ==> (#[trigger] routes[i]).id != id,
    decreases routes.len(),
{
    if routes.len() > 0 {
        let rest = routes.drop_last();
        assert(routes[routes.len() - 1] == routes.last());
        lemma_route_of(rest, id);
        if routes.last().id != id {
            if let Some(r) = route_of(rest, id) {
                let i = choose|i: int| 0 <= i < rest.len() && rest[i] == r;
                assert(routes[i] == r);
            } else {
                assert forall|i: int| 0 <= i < routes.len() implies (#[trigger] routes[i]).id != id by {
                    if i < rest.len() {
                        assert(routes[i] == rest[i]);
                    }
                }
            }
        }
    }
}

/// A tool is the exposed route of its name: where no two routes share an id, what a name
/// leads to is a declared route that is exposed under it; and a name leads nowhere exactly
/// where no route is exposed under it.
pub proof fn law_a_tool_is_the_exposed_route_of_its_name(routes: Seq<Route>, name: Seq<char>)
    requires
        forall|i: int, j: int| 0 <= i < j < routes.len() ==> (#[trigger] routes[i]).id != (#[trigger] routes[j]).id,
    ensures
        tool_route(routes, name) matches Some(r) ==> routes.contains(r) && r.tool.expose && r.tool_text() == name
            && tool_id(routes, name) == Some(r.id),
        tool_route(routes, name) is None <==> forall|i: int|
            0 <= i < routes.len() ==> !((#[trigger] routes[i]).tool.expose && routes[i].tool_text() == name),
{
    lemma_tool_id(routes, name);
    if let Some(id) = tool_id(routes, name) {
        lemma_route_of(routes, id);
        let i = choose|i: int|
            0 <= i < routes.len() && (#[trigger] routes[i]).id == id && routes[i].tool.expose && routes[i].tool_text() == name;
        if let Some(r) = route_of(routes, id) {
            let j = choose|j: int| 0 <= j < routes.len() && routes[j] == r;
            assert(routes[j].id == routes[i].id);
            assert(i == j);
        }
    }
}

/// A route is found by its id: one that is declared under an id of its own is the one that
/// the id leads to.
pub proof fn law_a_route_is_found_by_its_id(routes: Seq<Route>, i: int)
    requires
        0 <= i < routes.len(),
        forall|j: int| 0 <= j < routes.len() && j != i ==> (#[trigger] routes[j]).id != routes[i].id,
    ensures
        route_of(routes, routes[i].id) == Some(routes[i]),
{
    lemma_route_of(routes, routes[i].id);
    if let Some(r) = route_of(routes, routes[i].id) {
        let j = choose|j: int| 0 <= j < routes.len() && routes[j] == r;
        assert(routes[j].id == routes[i].id);
    }
}

/// Agents, flows, behaviours and context providers are found by their names: one whose name
/// none before it bears is the one that the name leads to.
pub proof fn law_a_definition_is_found_by_its_name(
    agents: Seq<AgentDef>,
    flows: Seq<FlowDef>,
    behaviours: Seq<BehaviourDef>,
    contexts: Seq<ContextDef>,
    i: int,
    name: Seq<char>,
)
    ensures
        0 <= i < agents.len() && agents[i].name@ == name && (forall|j: int|
            0 <= j < i ==> (#[trigger] agents[j]).name@ != name) ==> agent_named(agents, name) == Some(agents[i]),
        0 <= i < flows.len() && flows[i].name@ == name && (forall|j: int|
            0 <= j < i ==> (#[trigger] flows[j]).name@ != name) ==> flow_named(flows, name) == Some(flows[i]),
        0 <= i < behaviours.len() && behaviours[i].name@ == name && (forall|j: int|
            0 <= j < i ==> (#[trigger] behaviours[j]).name@ != name) ==> behaviour_named(behaviours, name) == Some(
            behaviours[i],
        ),
        0 <= i < contexts.len() && contexts[i].name@ == name && (forall|j: int|
            0 <= j < i ==> (#[trigger] contexts[j]).name@ != name) ==> context_named(contexts, name) == Some(contexts[i]),
        (forall|j: int| 0 <= j < agents.len() ==> (#[trigger] agents[j]).name@ != name) ==> agent_named(agents, name) is None,
        (forall|j: int| 0 <= j < flows.len() ==> (#[trigger] flows[j]).name@ != name) ==> flow_named(flows, name) is None,
        (forall|j: int| 0 <= j < behaviours.len() ==> (#[trigger] behaviours[j]).name@ != name) ==> behaviour_named(
            behaviours,
            name,
        ) is None,
        (forall|j: int| 0 <= j < contexts.len() ==> (#[trigger] contexts[j]).name@ != name) ==> context_named(contexts, name)
            is None,
    decreases agents.len() + flows.len() + behaviours.len() + contexts.len(),
{
    if agents.len() + flows.len() + behaviours.len() + contexts.len() > 0 {
        let a = if agents.len() > 0 { agents.skip(1) } else { agents };
        let f = if flows.len() > 0 { flows.skip(1) } else { flows };
        let b = if behaviours.len() > 0 { behaviours.skip(1) } else { behaviours };
        let c = if contexts.len() > 0 { contexts.skip(1) } else { contexts };
        law_a_definition_is_found_by_its_name(a, f, b, c, i - 1, name);
        assert forall|j: int| 0 <= j < a.len() implies #[trigger] a[j] == agents[j + 1] by {}
        assert forall|j: int| 0 <= j < f.len() implies #[trigger] f[j] == flows[j + 1] by {}
        assert forall|j: int| 0 <= j < b.len() implies #[trigger] b[j] == behaviours[j + 1] by {}
        assert forall|j: int| 0 <= j < c.len() implies #[trigger] c[j] == contexts[j + 1] by {}
    }
}

} // verus!
