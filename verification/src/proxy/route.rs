//! Where a request goes.

use vstd::prelude::*;

use crate::config::{
    listed_post, listed_pre, BackendConfig, BackendConfigView, Config, ProcessorRule,
    ProcessorRuleView,
};
use crate::json::{
    bytes_of_json, json_of_bytes, json_view, member_of, opt_text, text_of, truth_of, Json,
    JsonView,
};
use crate::ollama::{stream_flag, stream_flag_or};
use crate::processors::{preprocessed, Processor, ProcessorRegistry};
use crate::proxy::extract::is_openai;
use crate::registry::{serves, BackendView, ModelRegistry};
use crate::seqs::{distinct, first_where, lemma_first_where, lemma_first_where_holds, views};
use crate::text::{begins_with, chars_of, starts_with, string_of_range, text_eq};

verus! {

// ---------------------------------------------------------------------
// Paths

/// How to route a request path.
#[derive(Clone, Copy, Debug, PartialEq, Eq, Structural)]
pub enum RouteCategory {
    /// Extract model from body → route to single backend.
    Inference,
    /// `/api/show` — extract model or name from body → single backend.
    ModelInfo,
    /// `/api/tags`, `/v1/models` — fan out to all healthy backends, merge.
    ModelList,
    /// `/api/ps` — fan out to all Ollama backends, merge.
    RunningModels,
    /// `/api/pull` etc. — try model lookup; fall back to default.
    OtherWithModel,
    /// Everything else — route to default backend.
    Passthrough,
}

/// A path without its query.
pub open spec fn without_query(path: Seq<char>) -> Seq<char>
    decreases path.len(),
{
    if path.len() == 0 || path[0] == '?' {
        Seq::empty()
    } else {
        seq![path[0]] + without_query(path.skip(1))
    }
}

/// A path without its query.
pub fn strip_query(path: &str) -> (r: String)
    ensures
        r@ == without_query(path@),
{
    let c = chars_of(path);
    let mut n: usize = 0;
    assert(c@.skip(0) =~= path@);
    assert(c@.take(0) + without_query(path@) =~= without_query(path@));
    while n < c.len() && c[n] != '?'
        invariant
            n <= c@.len(),
            c@ == path@,
            without_query(path@) == c@.take(n as int) + without_query(c@.skip(n as int)),
        decreases c.len() - n,
    {
        assert(c@.skip(n as int).skip(1) =~= c@.skip(n + 1));
        assert(c@.take(n + 1) + without_query(c@.skip(n + 1)) =~= c@.take(n as int) + (seq![
            c@[n as int],
        ] + without_query(c@.skip(n + 1))));
        n += 1;
    }
    assert(c@.take(n as int) + Seq::<char>::empty() =~= c@.subrange(0, n as int));
    string_of_range(&c, 0, n)
}

/// The category of a path that has no query.
pub open spec fn bare_category(p: Seq<char>) -> RouteCategory {
    if p == "/api/chat"@ || p == "/api/generate"@ || p == "/api/embed"@ || p == "/api/embeddings"@
        || p == "/v1/chat/completions"@ || p == "/v1/completions"@ || p == "/v1/embeddings"@ {
        RouteCategory::Inference
    } else if p == "/api/show"@ {
        RouteCategory::ModelInfo
    } else if p == "/api/tags"@ || p == "/v1/models"@ {
        RouteCategory::ModelList
    } else if p == "/api/ps"@ {
        RouteCategory::RunningModels
    } else if p == "/api/pull"@ || p == "/api/push"@ || p == "/api/copy"@ || p == "/api/delete"@
        || p == "/api/create"@ {
        RouteCategory::OtherWithModel
    } else {
        RouteCategory::Passthrough
    }
}

/// The category of a path.
pub open spec fn category(path: Seq<char>) -> RouteCategory {
    bare_category(without_query(path))
}

/// The category of a path; its query does not matter.
pub fn classify_path(path: &str) -> (r: RouteCategory)
    ensures
        r == category(path@),
{
    let stripped = strip_query(path);
    let p = stripped.as_str();
    if text_eq(p, "/api/chat") || text_eq(p, "/api/generate") || text_eq(p, "/api/embed")
        || text_eq(p, "/api/embeddings") || text_eq(p, "/v1/chat/completions") || text_eq(
        p,
        "/v1/completions",
    ) || text_eq(p, "/v1/embeddings") {
        RouteCategory::Inference
    } else if text_eq(p, "/api/show") {
        RouteCategory::ModelInfo
    } else if text_eq(p, "/api/tags") || text_eq(p, "/v1/models") {
        RouteCategory::ModelList
    } else if text_eq(p, "/api/ps") {
        RouteCategory::RunningModels
    } else if text_eq(p, "/api/pull") || text_eq(p, "/api/push") || text_eq(p, "/api/copy")
        || text_eq(p, "/api/delete") || text_eq(p, "/api/create") {
        RouteCategory::OtherWithModel
    } else {
        RouteCategory::Passthrough
    }
}

/// Endpoints that get Langfuse tracing.
pub open spec fn traced_paths() -> Seq<Seq<char>> {
    seq![
        "/api/chat"@,
        "/api/generate"@,
        "/api/embed"@,
        "/api/embeddings"@,
        "/v1/chat/completions"@,
        "/v1/completions"@,
        "/v1/embeddings"@,
    ]
}

/// A path that gets Langfuse tracing: it begins with one of the endpoints.
pub open spec fn is_traced(path: Seq<char>) -> bool {
    exists|i: int| 0 <= i < traced_paths().len() && begins_with(path, #[trigger] traced_paths()[i])
}

/// Whether a path gets Langfuse tracing.
pub fn on_traced_path(path: &str) -> (r: bool)
    ensures
        r == is_traced(path@),
{
    let ends: [&str; 7] = [
        "/api/chat",
        "/api/generate",
        "/api/embed",
        "/api/embeddings",
        "/v1/chat/completions",
        "/v1/completions",
        "/v1/embeddings",
    ];
    let mut i: usize = 0;
    while i < 7
        invariant
            i <= 7,
            forall|k: int| 0 <= k < 7 ==> (#[trigger] ends@[k])@ == traced_paths()[k],
            forall|k: int| 0 <= k < i ==> !begins_with(path@, #[trigger] traced_paths()[k]),
        decreases 7 - i,
    {
        if starts_with(path, ends[i]) {
            assert(begins_with(path@, traced_paths()[i as int]));
            return true;
        }
        i += 1;
    }
    false
}

/// A path begins with what it is without its query.
proof fn lemma_without_query(path: Seq<char>)
    ensures
        begins_with(path, without_query(path)),
    decreases path.len(),
{
    if path.len() > 0 && path[0] != '?' {
        lemma_without_query(path.skip(1));
        let rest = without_query(path.skip(1));
        assert(path.skip(1).subrange(0, rest.len() as int) == rest);
        assert(path.subrange(0, rest.len() as int + 1) =~= seq![path[0]] + rest);
    } else {
        assert(path.subrange(0, 0) =~= Seq::<char>::empty());
    }
}

/// Two texts with which a path begins agree as far as both go.
proof fn lemma_prefixes_agree(path: Seq<char>, a: Seq<char>, b: Seq<char>, k: int)
    requires
        begins_with(path, a),
        begins_with(path, b),
        0 <= k < a.len(),
        k < b.len(),
    ensures
        a[k] == b[k],
{
    assert(path.subrange(0, a.len() as int)[k] == path[k]);
    assert(path.subrange(0, b.len() as int)[k] == path[k]);
}

/// Of the requests that go to a single backend by their model, those of the
/// inference endpoints are traced and no others.
pub proof fn law_traced_is_inference(path: Seq<char>)
    requires
        category(path) == RouteCategory::Inference || category(path) == RouteCategory::ModelInfo
            || category(path) == RouteCategory::OtherWithModel,
    ensures
        is_traced(path) <==> category(path) == RouteCategory::Inference,
{
    let p = without_query(path);
    lemma_without_query(path);
    let t = traced_paths();
    if category(path) == RouteCategory::Inference {
        let i: int = if p == t[0] {
            0
        } else if p == t[1] {
            1
        } else if p == t[2] {
            2
        } else if p == t[3] {
            3
        } else if p == t[4] {
            4
        } else if p == t[5] {
            5
        } else {
            6
        };
        assert(begins_with(path, t[i]));
    } else if is_traced(path) {
        reveal_strlit("/api/chat");
        reveal_strlit("/api/generate");
        reveal_strlit("/api/embed");
        reveal_strlit("/api/embeddings");
        reveal_strlit("/v1/chat/completions");
        reveal_strlit("/v1/completions");
        reveal_strlit("/v1/embeddings");
        reveal_strlit("/api/show");
        reveal_strlit("/api/pull");
        reveal_strlit("/api/push");
        reveal_strlit("/api/copy");
        reveal_strlit("/api/delete");
        reveal_strlit("/api/create");
        let i = choose|i: int| 0 <= i < t.len() && begins_with(path, #[trigger] t[i]);
        lemma_prefixes_agree(path, p, t[i], 1);
        lemma_prefixes_agree(path, p, t[i], 5);
        lemma_prefixes_agree(path, p, t[i], 6);
    }
}

// ---------------------------------------------------------------------
// Requests for a single backend

/// Whether a stream is asked for under `/v1/`.
pub open spec fn wants_usage(path: Seq<char>, body: JsonView) -> bool {
    is_openai(path) && stream_flag(body, false)
}

/// A request body for a stream under `/v1/` asks for a usage chunk at the end.
pub open spec fn with_usage(path: Seq<char>, body: JsonView) -> JsonView {
    if wants_usage(path, body) {
        body.with(
            "stream_options"@,
            JsonView::Object(map!["include_usage"@ => JsonView::Bool(true)]),
        )
    } else {
        body
    }
}

/// The model that a request body names, under `model` or, without that member,
/// under `name`.
pub open spec fn named_model(body: JsonView) -> Option<Seq<char>> {
    match body.member("model"@) {
        Some(m) => m.text(),
        None => text_of(body.member("name"@)),
    }
}

/// The model that a request names.
pub open spec fn model_of(body: Option<JsonView>) -> Option<Seq<char>> {
    match body {
        Some(b) => named_model(b),
        None => None,
    }
}

/// The backend for a model: the best healthy one that has it, or else the best
/// healthy one.
pub open spec fn backend_for(
    backends: Seq<BackendView>,
    model: Option<Seq<char>>,
) -> Option<BackendView> {
    let default = first_where(backends, |b: BackendView| b.healthy);
    match model {
        Some(m) => match first_where(backends, |b: BackendView| serves(b, m)) {
            Some(b) => Some(b),
            None => default,
        },
        None => default,
    }
}

/// The model as processor rules see it.
pub open spec fn rule_model(model: Option<Seq<char>>) -> Seq<char> {
    match model {
        Some(m) => m,
        None => Seq::empty(),
    }
}

/// The body and its bytes after the preprocessors; bytes without a value in
/// them stay as they are.
pub open spec fn prepared<P: Processor>(
    processors: Seq<P>,
    pre: Seq<Seq<char>>,
    body: Option<JsonView>,
    bytes: Seq<u8>,
) -> (Option<JsonView>, Seq<u8>) {
    match body {
        Some(v) if pre.len() > 0 => {
            let done = preprocessed(processors, pre, v);
            (Some(done), written_or(done, bytes))
        },
        _ => (body, bytes),
    }
}

/// The bytes of a value; where it cannot be written, others.
pub open spec fn written_or(v: JsonView, bytes: Seq<u8>) -> Seq<u8> {
    match bytes_of_json(v) {
        Some(b) => b,
        None => bytes,
    }
}

/// The body and its bytes with a usage chunk asked for, where there is need.
pub open spec fn asking_usage(path: Seq<char>, body: Option<JsonView>, bytes: Seq<u8>) -> (
    Option<JsonView>,
    Seq<u8>,
) {
    match body {
        Some(v) if wants_usage(path, v) => {
            let done = with_usage(path, v);
            (Some(done), written_or(done, bytes))
        },
        _ => (body, bytes),
    }
}

/// A request on its way to a backend.
#[derive(Debug)]
pub struct Routed {
    pub backend: BackendConfig,
    /// The body as it is sent.
    pub body: Vec<u8>,
    /// The value in the body.
    pub json: Option<Json>,
    /// The processors that the request went through.
    pub pre_ids: Vec<String>,
    /// The processors that the reply goes through.
    pub post_ids: Vec<String>,
    /// Whether the call is traced.
    pub traced: bool,
    /// Whether what is asked and answered may be shown.
    pub log_content: bool,
    /// Whether the reply is a stream.
    pub streaming: bool,
}

/// The model of `Routed`.
pub struct RoutedView {
    pub backend: BackendConfigView,
    pub body: Seq<u8>,
    pub json: Option<JsonView>,
    pub pre_ids: Seq<Seq<char>>,
    pub post_ids: Seq<Seq<char>>,
    pub traced: bool,
    pub log_content: bool,
    pub streaming: bool,
}

impl View for Routed {
    type V = RoutedView;

    open spec fn view(&self) -> RoutedView {
        RoutedView {
            backend: self.backend@,
            body: self.body@,
            json: json_view(self.json),
            pre_ids: views(self.pre_ids@),
            post_ids: views(self.post_ids@),
            traced: self.traced,
            log_content: self.log_content,
            streaming: self.streaming,
        }
    }
}

/// Whether the reply to a request is a stream: what the body says; if it says
/// nothing, a stream unless the path is under `/v1/`.
pub open spec fn is_streamed(path: Seq<char>, body: Option<JsonView>) -> bool {
    match body {
        Some(v) => stream_flag(v, !is_openai(path)),
        None => !is_openai(path),
    }
}

/// Where a request with the value `parsed` in its body goes, and how; nowhere
/// if no backend is healthy.
pub open spec fn routed<P: Processor>(
    path: Seq<char>,
    bytes: Seq<u8>,
    parsed: Option<JsonView>,
    backends: Seq<BackendView>,
    rules: Seq<ProcessorRuleView>,
    processors: Seq<P>,
    privacy_mode: bool,
) -> Option<RoutedView> {
    let (asked, asked_bytes) = asking_usage(path, parsed, bytes);
    let model = model_of(asked);
    match backend_for(backends, model) {
        Some(b) => {
            let m = rule_model(model);
            let pre = distinct(listed_pre(rules, m, b.config.name));
            let (json, body) = prepared(processors, pre, asked, asked_bytes);
            Some(
                RoutedView {
                    backend: b.config,
                    body,
                    json,
                    pre_ids: pre,
                    post_ids: distinct(listed_post(rules, m, b.config.name)),
                    traced: is_traced(path),
                    log_content: !privacy_mode && is_traced(path),
                    streaming: is_streamed(path, json),
                },
            )
        },
        None => None,
    }
}

/// The bytes of a value; where it cannot be written, others.
fn write_or(v: &Json, bytes: Vec<u8>) -> (r: Vec<u8>)
    ensures
        r@ == written_or(v@, bytes@),
{
    match v.to_vec() {
        Some(b) => b,
        None => bytes,
    }
}

/// The model that a request body names.
pub fn body_model(body: &Option<Json>) -> (r: Option<String>)
    ensures
        opt_text(r) == model_of(json_view(*body)),
{
    let value = match body {
        Some(b) => match b.get("model") {
            Some(m) => Some(m),
            None => b.get("name"),
        },
        None => None,
    };
    match value {
        Some(v) => match v.as_str() {
            Some(s) => Some(s.to_owned()),
            None => None,
        },
        None => None,
    }
}

/// The model that a request for inference names and no healthy backend has.
pub fn unregistered_model(path: &str, body: &Option<Json>, registry: &ModelRegistry) -> (r: Option<
    String,
>)
    ensures
        opt_text(r) == match model_of(json_view(*body)) {
            Some(m) if category(path@) == RouteCategory::Inference && first_where(
                registry@,
                |b: BackendView| serves(b, m),
            ) is None => Some(m),
            _ => None,
        },
{
    match body_model(body) {
        Some(m) => if classify_path(path) == RouteCategory::Inference
            && registry.resolve_backend(m.as_str()).is_none() {
            Some(m)
        } else {
            None
        },
        None => None,
    }
}

/// The backend for a model.
pub fn choose_backend(registry: &ModelRegistry, model: &Option<String>) -> (r: Option<
    BackendConfig,
>)
    ensures
        match backend_for(registry@, opt_text(*model)) {
            Some(b) => r is Some && r->0@ == b.config,
            None => r is None,
        },
{
    if let Some(m) = model {
        if let Some(b) = registry.resolve_backend(m.as_str()) {
            return Some(b.clone());
        }
    }
    match registry.default_backend() {
        Some(b) => Some(b.clone()),
        None => None,
    }
}

/// Whether the reply to a request is a stream.
pub fn reply_is_stream(path: &str, body: &Option<Json>) -> (r: bool)
    ensures
        r == is_streamed(path@, json_view(*body)),
{
    let default = !starts_with(path, "/v1/");
    match body {
        Some(v) => stream_flag_or(v, default),
        None => default,
    }
}

/// Routes a request whose body holds the value `parsed`; with no healthy
/// backend it is refused with status 502 (Bad Gateway).
pub fn route_parsed<P: Processor>(
    path: &str,
    bytes: Vec<u8>,
    parsed: Option<Json>,
    registry: &ModelRegistry,
    rules: &[ProcessorRule],
    processors: &ProcessorRegistry<P>,
    privacy_mode: bool,
) -> (r: Result<Routed, u16>)
    ensures
        match routed(
            path@,
            bytes@,
            json_view(parsed),
            registry@,
            views(rules@),
            processors@,
            privacy_mode,
        ) {
            Some(v) => r is Ok && r->Ok_0@ == v,
            None => r is Err && r->Err_0 == 502,
        },
{
    let mut json = parsed;
    let mut body = bytes;
    if starts_with(path, "/v1/") {
        if let Some(v) = &mut json {
            if stream_flag_or(v, false) {
                let mut options = Json::object();
                options.set("include_usage", Json::Bool(true));
                v.set("stream_options", options);
                body = write_or(v, body);
            }
        }
    }
    let ghost asked = asking_usage(path@, json_view(parsed), bytes@);
    assert(json_view(json) == asked.0);
    assert(body@ == asked.1);
    let model = body_model(&json);
    let backend = match choose_backend(registry, &model) {
        Some(b) => b,
        None => return Err(502),
    };
    let model_str = match model {
        Some(m) => m,
        None => String::new(),
    };
    assert(model_str@ =~= rule_model(model_of(asked.0)));
    let (pre_ids, post_ids) = Config::resolve_processors(
        rules,
        model_str.as_str(),
        backend.name.as_str(),
    );
    if pre_ids.len() > 0 {
        if let Some(v) = &mut json {
            processors.apply_preprocessors(pre_ids.as_slice(), v);
            body = write_or(v, body);
        }
    }
    let traced = on_traced_path(path);
    let streaming = reply_is_stream(path, &json);
    Ok(
        Routed {
            backend,
            body,
            json,
            pre_ids,
            post_ids,
            traced,
            log_content: !privacy_mode && traced,
            streaming,
        },
    )
}

/// Routes a request by the model that its body names; with no healthy backend
/// it is refused with status 502 (Bad Gateway).
pub fn dispatch<P: Processor>(
    path: &str,
    bytes: Vec<u8>,
    registry: &ModelRegistry,
    rules: &[ProcessorRule],
    processors: &ProcessorRegistry<P>,
    privacy_mode: bool,
) -> (r: Result<Routed, u16>)
    ensures
        match routed(
            path@,
            bytes@,
            json_of_bytes(bytes@),
            registry@,
            views(rules@),
            processors@,
            privacy_mode,
        ) {
            Some(v) => r is Ok && r->Ok_0@ == v,
            None => r is Err && r->Err_0 == 502,
        },
{
    let parsed = Json::from_slice(bytes.as_slice());
    route_parsed(path, bytes, parsed, registry, rules, processors, privacy_mode)
}

/// Routes a request by its path alone, to the best healthy backend; with none
/// it is refused with status 502 (Bad Gateway).
pub fn dispatch_passthrough(registry: &ModelRegistry) -> (r: Result<BackendConfig, u16>)
    ensures
        match first_where(registry@, |b: BackendView| b.healthy) {
            Some(b) => r is Ok && r->Ok_0@ == b.config,
            None => r is Err && r->Err_0 == 502,
        },
{
    match registry.default_backend() {
        Some(b) => Ok(b.clone()),
        None => Err(502),
    }
}

// ---------------------------------------------------------------------
// Laws

/// A request goes to a healthy backend if there is one: to one that has its
/// model, if any healthy backend has it.
pub proof fn law_healthy_backend(backends: Seq<BackendView>, model: Option<Seq<char>>)
    ensures
        match backend_for(backends, model) {
            Some(b) => {
                &&& b.healthy
                &&& backends.contains(b)
                &&& forall|i: int|
                    0 <= i < backends.len() && model is Some && serves(
                        #[trigger] backends[i],
                        model->0,
                    ) ==> serves(b, model->0)
            },
            None => forall|i: int| 0 <= i < backends.len() ==> !(#[trigger] backends[i]).healthy,
        },
{
    lemma_first_where_holds(backends, |b: BackendView| b.healthy);
    if let Some(m) = model {
        lemma_first_where_holds(backends, |b: BackendView| serves(b, m));
    }
}

/// A body that is no JSON is sent on as it came, and so is one to which nothing
/// is to be added and that no processor is to see.
pub proof fn law_body_sent_on<P: Processor>(
    path: Seq<char>,
    bytes: Seq<u8>,
    parsed: Option<JsonView>,
    backends: Seq<BackendView>,
    rules: Seq<ProcessorRuleView>,
    processors: Seq<P>,
    privacy_mode: bool,
)
    ensures
        match routed(path, bytes, parsed, backends, rules, processors, privacy_mode) {
            Some(r) => {
                let pre = listed_pre(rules, rule_model(model_of(parsed)), r.backend.name);
                parsed is None || (!wants_usage(path, parsed->0) && distinct(pre).len() == 0)
                    ==> r.body == bytes && r.json == parsed
            },
            None => true,
        },
{
}

/// A body for a stream under `/v1/` asks for a usage chunk, and is otherwise
/// what it was.
pub proof fn law_usage_asked(path: Seq<char>, body: JsonView, key: Seq<char>)
    requires
        wants_usage(path, body),
        key != "stream_options"@,
    ensures
        truth_of(member_of(with_usage(path, body).member("stream_options"@), "include_usage"@))
            == Some(true),
        with_usage(path, body).member(key) == body.member(key),
{
}

/// In privacy mode no request is routed so that its content may be shown.
pub proof fn law_privacy_mode<P: Processor>(
    path: Seq<char>,
    bytes: Seq<u8>,
    parsed: Option<JsonView>,
    backends: Seq<BackendView>,
    rules: Seq<ProcessorRuleView>,
    processors: Seq<P>,
)
    ensures
        match routed(path, bytes, parsed, backends, rules, processors, true) {
            Some(r) => !r.log_content,
            None => true,
        },
{
}

/// A request for a model goes to the best healthy backend that has it: where some
/// healthy backend lists the model, the one that is chosen is healthy, lists it,
/// and is the first such backend, so that, of backends in the order of their
/// priorities, none of those has a lower priority number.
pub proof fn law_best_backend(backends: Seq<BackendView>, model: Seq<char>, i: int)
    requires
        forall|a: int, b: int|
            0 <= a < b < backends.len() ==> (#[trigger] backends[a]).config.priority <= (
            #[trigger] backends[b]).config.priority,
        0 <= i < backends.len(),
        backends[i].healthy,
        backends[i].models.contains(model),
    ensures
        backend_for(backends, Some(model)) is Some,
        ({
            let chosen = backend_for(backends, Some(model))->0;
            &&& chosen.healthy
            &&& chosen.models.contains(model)
            &&& chosen.config.priority <= backends[i].config.priority
            &&& exists|p: int|
                0 <= p <= i && #[trigger] backends[p] == chosen && forall|k: int|
                    0 <= k < p ==> !((#[trigger] backends[k]).healthy
                        && backends[k].models.contains(model))
        }),
{
    let f = |b: BackendView| serves(b, model);
    lemma_first_at(backends, f, i);
    let p = choose|p: int|
        0 <= p <= i && first_where(backends, f) == Some(#[trigger] backends[p]) && f(backends[p])
            && forall|k: int| 0 <= k < p ==> !f(#[trigger] backends[k]);
    assert(backends[p] == backend_for(backends, Some(model))->0);
    assert forall|k: int| 0 <= k < p implies !((#[trigger] backends[k]).healthy
        && backends[k].models.contains(model)) by {
        assert(!f(backends[k]));
    }
}

/// A request for no model, or for one that no healthy backend has, goes to the
/// default: the first healthy backend, so that, of backends in the order of their
/// priorities, no healthy one has a lower priority number.  With no healthy
/// backend it goes nowhere.
pub proof fn law_default_backend(backends: Seq<BackendView>, model: Option<Seq<char>>, i: int)
    requires
        forall|a: int, b: int|
            0 <= a < b < backends.len() ==> (#[trigger] backends[a]).config.priority <= (
            #[trigger] backends[b]).config.priority,
        model is Some ==> forall|k: int|
            0 <= k < backends.len() ==> !((#[trigger] backends[k]).healthy
                && backends[k].models.contains(model->0)),
    ensures
        0 <= i < backends.len() && backends[i].healthy ==> {
            let chosen = backend_for(backends, model);
            &&& chosen is Some
            &&& chosen->0.healthy
            &&& chosen->0.config.priority <= backends[i].config.priority
            &&& exists|p: int|
                0 <= p <= i && #[trigger] backends[p] == chosen->0 && forall|k: int|
                    0 <= k < p ==> !(#[trigger] backends[k]).healthy
        },
        (forall|k: int| 0 <= k < backends.len() ==> !(#[trigger] backends[k]).healthy)
            ==> backend_for(backends, model) is None,
{
    let f = |b: BackendView| b.healthy;
    if let Some(m) = model {
        let g = |b: BackendView| serves(b, m);
        assert forall|k: int| 0 <= k < backends.len() implies !g(#[trigger] backends[k]) by {}
        lemma_first_where(backends, g, backends.len() as int);
    }
    if 0 <= i < backends.len() && backends[i].healthy {
        lemma_first_at(backends, f, i);
        let p = choose|p: int|
            0 <= p <= i && first_where(backends, f) == Some(#[trigger] backends[p]) && f(
                backends[p],
            ) && forall|k: int| 0 <= k < p ==> !f(#[trigger] backends[k]);
        assert(backends[p] == backend_for(backends, model)->0);
        assert forall|k: int| 0 <= k < p implies !(#[trigger] backends[k]).healthy by {
            assert(!f(backends[k]));
        }
    }
    if forall|k: int| 0 <= k < backends.len() ==> !(#[trigger] backends[k]).healthy {
        lemma_first_where(backends, f, backends.len() as int);
    }
}

/// Where a condition holds of an item, it holds first at that item or before.
proof fn lemma_first_at(s: Seq<BackendView>, f: spec_fn(BackendView) -> bool, i: int)
    requires
        0 <= i < s.len(),
        f(s[i]),
    ensures
        exists|p: int|
            0 <= p <= i && first_where(s, f) == Some(#[trigger] s[p]) && f(s[p]) && forall|k: int|
                0 <= k < p ==> !f(#[trigger] s[k]),
    decreases i,
{
    if exists|j: int| 0 <= j < i && f(#[trigger] s[j]) {
        let j = choose|j: int| 0 <= j < i && f(#[trigger] s[j]);
        lemma_first_at(s, f, j);
    } else {
        lemma_first_where(s, f, i);
        assert(first_where(s, f) == Some(s[i]));
    }
}

/// The model that a body names: the text under `model`; only a body without that
/// member is read under `name`.
pub open spec fn is_model_named(body: Option<JsonView>, model: Option<Seq<char>>) -> bool {
    match body {
        Some(JsonView::Object(m)) => if m.contains_key("model"@) {
            match m["model"@] {
                JsonView::Str(s) => model == Some(s),
                _ => model is None,
            }
        } else if m.contains_key("name"@) {
            match m["name"@] {
                JsonView::Str(s) => model == Some(s),
                _ => model is None,
            }
        } else {
            model is None
        },
        _ => model is None,
    }
}

/// A path begins with that text.
pub open spec fn path_begins(path: Seq<char>, with: Seq<char>) -> bool {
    path.len() >= with.len() && path.take(with.len() as int) == with
}

/// A body for a stream under `/v1/` gets a member that asks for a usage chunk and
/// nothing else; any other body stays as it is.
pub open spec fn is_asking_usage(path: Seq<char>, before: JsonView, after: JsonView) -> bool {
    if path_begins(path, "/v1/"@) && before.member("stream"@) == Some(JsonView::Bool(true)) {
        &&& after is Object
        &&& after.member("stream_options"@) is Some
        &&& after.member("stream_options"@)->0.member("include_usage"@) == Some(
            JsonView::Bool(true),
        )
        &&& forall|key: Seq<char>|
            key != "include_usage"@ ==> (#[trigger] after.member("stream_options"@)->0.member(
                key,
            )) is None
        &&& forall|key: Seq<char>|
            key != "stream_options"@ ==> #[trigger] after.member(key) == before.member(key)
    } else {
        after == before
    }
}

/// What begins with a text begins with it.
proof fn lemma_path_begins(path: Seq<char>, with: Seq<char>)
    ensures
        path_begins(path, with) <==> begins_with(path, with),
{
    if path.len() >= with.len() {
        assert(path.take(with.len() as int) =~= path.subrange(0, with.len() as int));
    }
}

/// Where a request goes, and how.  It goes to the backend for the model that its
/// body names, and is refused exactly where no backend is healthy.  It goes
/// through the preprocessors, and its reply through the postprocessors, of the
/// rules for that model and that backend.  It is traced on the inference
/// endpoints, its content is shown only if it is traced and privacy mode is off,
/// and its reply is a stream if its body says so, or says nothing and the path is
/// not under `/v1/`.
pub proof fn law_routed<P: Processor>(
    path: Seq<char>,
    bytes: Seq<u8>,
    parsed: Option<JsonView>,
    backends: Seq<BackendView>,
    rules: Seq<ProcessorRuleView>,
    processors: Seq<P>,
    privacy_mode: bool,
    model: Option<Seq<char>>,
)
    requires
        is_model_named(parsed, model),
    ensures
        match routed(path, bytes, parsed, backends, rules, processors, privacy_mode) {
            Some(r) => {
                let named = match model {
                    Some(m) => m,
                    None => Seq::empty(),
                };
                &&& backend_for(backends, model) is Some
                &&& r.backend == backend_for(backends, model)->0.config
                &&& r.pre_ids == distinct(listed_pre(rules, named, r.backend.name))
                &&& r.post_ids == distinct(listed_post(rules, named, r.backend.name))
                &&& r.traced <==> {
                    ||| path_begins(path, "/api/chat"@)
                    ||| path_begins(path, "/api/generate"@)
                    ||| path_begins(path, "/api/embed"@)
                    ||| path_begins(path, "/v1/chat/completions"@)
                    ||| path_begins(path, "/v1/completions"@)
                    ||| path_begins(path, "/v1/embeddings"@)
                }
                &&& r.log_content <==> r.traced && !privacy_mode
                &&& r.streaming == match r.json {
                    Some(v) => match v.member("stream"@) {
                        Some(JsonView::Bool(b)) => b,
                        _ => !path_begins(path, "/v1/"@),
                    },
                    None => !path_begins(path, "/v1/"@),
                }
            },
            None => forall|i: int| 0 <= i < backends.len() ==> !(#[trigger] backends[i]).healthy,
        },
{
    reveal_strlit("stream_options");
    reveal_strlit("model");
    reveal_strlit("name");
    reveal_strlit("/api/embed");
    reveal_strlit("/api/embeddings");
    assert("stream_options"@.len() == 14 && "model"@.len() == 5 && "name"@.len() == 4);
    assert(model_of(asking_usage(path, parsed, bytes).0) == model);
    law_healthy_backend(backends, model);
    lemma_path_begins(path, "/v1/"@);
    let t = traced_paths();
    lemma_path_begins(path, t[0]);
    lemma_path_begins(path, t[1]);
    lemma_path_begins(path, t[2]);
    lemma_path_begins(path, t[3]);
    lemma_path_begins(path, t[4]);
    lemma_path_begins(path, t[5]);
    lemma_path_begins(path, t[6]);
    if path_begins(path, t[3]) {
        assert("/api/embeddings"@.take(10) =~= "/api/embed"@);
        assert(path.take(10) =~= path.take(15).take(10));
    }
    if is_traced(path) {
        let i = choose|i: int| 0 <= i < t.len() && begins_with(path, #[trigger] t[i]);
        assert(i == 0 || i == 1 || i == 2 || i == 3 || i == 4 || i == 5 || i == 6);
    }
}

/// What becomes of the body of a request.  A body that is no JSON is sent as it
/// came.  A body for a stream under `/v1/` is made to ask for usage; then the
/// preprocessors see it, if there are any.  A body that was not touched is sent as
/// it came, byte for byte, and one that was is written anew.
pub proof fn law_routed_body<P: Processor>(
    path: Seq<char>,
    bytes: Seq<u8>,
    parsed: Option<JsonView>,
    backends: Seq<BackendView>,
    rules: Seq<ProcessorRuleView>,
    processors: Seq<P>,
    privacy_mode: bool,
    asking: JsonView,
)
    requires
        parsed is Some ==> is_asking_usage(path, parsed->0, asking),
    ensures
        match routed(path, bytes, parsed, backends, rules, processors, privacy_mode) {
            Some(r) => match parsed {
                Some(v) => {
                    &&& r.pre_ids.len() == 0 ==> r.json == Some(asking)
                    &&& r.pre_ids.len() > 0 ==> r.json == Some(
                        preprocessed(processors, r.pre_ids, asking),
                    )
                    &&& r.pre_ids.len() == 0 && asking == v && !(path_begins(path, "/v1/"@)
                        && v.member("stream"@) == Some(JsonView::Bool(true))) ==> r.body == bytes
                    &&& (r.pre_ids.len() > 0 || (path_begins(path, "/v1/"@) && v.member("stream"@)
                        == Some(JsonView::Bool(true)))) && bytes_of_json(r.json->0) is Some
                        ==> r.body == bytes_of_json(r.json->0)->0
                },
                None => r.json is None && r.body == bytes,
            },
            None => true,
        },
{
    lemma_path_begins(path, "/v1/"@);
    if let Some(v) = parsed {
        let done = with_usage(path, v);
        if wants_usage(path, v) {
            reveal_strlit("stream_options");
            reveal_strlit("stream");
            let want = JsonView::Object(map!["include_usage"@ => JsonView::Bool(true)]);
            let got = asking.member("stream_options"@)->0;
            assert(got is Object);
            assert(got->Object_0 =~= want->Object_0) by {
                assert forall|key: Seq<char>|
                    got->Object_0.contains_key(key) <==> want->Object_0.contains_key(key) by {
                    if key != "include_usage"@ {
                        assert(asking.member("stream_options"@)->0.member(key) is None);
                    }
                }
            }
            assert(asking->Object_0 =~= done->Object_0) by {
                assert forall|key: Seq<char>|
                    asking->Object_0.contains_key(key) <==> done->Object_0.contains_key(key) by {
                    if key != "stream_options"@ {
                        assert(asking.member(key) == v.member(key));
                    }
                }
                assert forall|key: Seq<char>| asking->Object_0.contains_key(key) implies
                    asking->Object_0[key] == done->Object_0[key] by {
                    if key != "stream_options"@ {
                        assert(asking.member(key) == v.member(key));
                    }
                }
            }
            assert(asking == done);
        } else {
            assert(asking == v);
        }
    }
}

/// The query of a path does not matter for its category.
pub proof fn law_query_ignored(path: Seq<char>, query: Seq<char>)
    requires
        !path.contains('?'),
    ensures
        category(path + seq!['?'] + query) == category(path),
        without_query(path) == path,
{
    lemma_query_cut(path, seq!['?'] + query);
    lemma_query_cut(path, Seq::empty());
    assert(path + seq!['?'] + query =~= path + (seq!['?'] + query));
    assert(path + Seq::<char>::empty() =~= path);
}

/// What comes before the first question mark is left.
proof fn lemma_query_cut(path: Seq<char>, rest: Seq<char>)
    requires
        !path.contains('?'),
        rest.len() > 0 ==> rest[0] == '?',
    ensures
        without_query(path + rest) == path,
    decreases path.len(),
{
    let all = path + rest;
    if path.len() == 0 {
        assert(all =~= rest);
        assert(without_query(all) =~= path);
    } else {
        let tail = path.skip(1);
        assert(path.contains(path[0]));
        assert forall|c: char| tail.contains(c) implies path.contains(c) by {
            let i = choose|i: int| 0 <= i < tail.len() && tail[i] == c;
            assert(path[i + 1] == c);
        }
        assert(all.skip(1) =~= tail + rest);
        lemma_query_cut(tail, rest);
        assert(seq![path[0]] + tail =~= path);
    }
}

/// The categories of the paths that the gateway knows; all other paths go
/// through.
pub proof fn law_categories(path: Seq<char>)
    requires
        !path.contains('?'),
    ensures
        category(path) == RouteCategory::Inference <==> {
            ||| path == "/api/chat"@
            ||| path == "/api/generate"@
            ||| path == "/api/embed"@
            ||| path == "/api/embeddings"@
            ||| path == "/v1/chat/completions"@
            ||| path == "/v1/completions"@
            ||| path == "/v1/embeddings"@
        },
        category(path) == RouteCategory::ModelInfo <==> path == "/api/show"@,
        category(path) == RouteCategory::ModelList <==> path == "/api/tags"@ || path
            == "/v1/models"@,
        category(path) == RouteCategory::RunningModels <==> path == "/api/ps"@,
        category(path) == RouteCategory::OtherWithModel <==> {
            ||| path == "/api/pull"@
            ||| path == "/api/push"@
            ||| path == "/api/copy"@
            ||| path == "/api/delete"@
            ||| path == "/api/create"@
        },
{
    law_query_ignored(path, Seq::empty());
    reveal_strlit("/api/chat");
    reveal_strlit("/api/generate");
    reveal_strlit("/api/embed");
    reveal_strlit("/api/embeddings");
    reveal_strlit("/v1/chat/completions");
    reveal_strlit("/v1/completions");
    reveal_strlit("/v1/embeddings");
    reveal_strlit("/api/show");
    reveal_strlit("/api/tags");
    reveal_strlit("/v1/models");
    reveal_strlit("/api/ps");
    reveal_strlit("/api/pull");
    reveal_strlit("/api/push");
    reveal_strlit("/api/copy");
    reveal_strlit("/api/delete");
    reveal_strlit("/api/create");
    let v1 = "/v1/models"@;
    assert(v1.len() == 10 && v1[1] == 'v');
    assert("/api/embed"@[1] == 'a' && "/api/show"@[5] == 's' && "/api/chat"@[5] == 'c');
    assert("/api/tags"@[5] == 't' && "/api/pull"@[5] == 'p' && "/api/push"@[5] == 'p');
    assert("/api/copy"@[6] == 'o' && "/api/chat"@[6] == 'h');
    assert("/api/delete"@[5] == 'd' && "/api/create"@[5] == 'c');
}

/// The model of a request is the one that its body names.
pub proof fn law_model_named(body: Option<JsonView>, model: Option<Seq<char>>)
    requires
        is_model_named(body, model),
    ensures
        model_of(body) == model,
{
}

/// A value is written as its bytes; what cannot be written leaves what was there.
pub proof fn law_written(v: JsonView, bytes: Seq<u8>)
    ensures
        bytes_of_json(v) is Some ==> written_or(v, bytes) == bytes_of_json(v)->0,
        bytes_of_json(v) is None ==> written_or(v, bytes) == bytes,
{
}

/// The model of a routed request has all that the request has.
pub proof fn law_routed_model(r: Routed)
    ensures
        r@.backend == r.backend@,
        r@.body == r.body@,
        r@.json == json_view(r.json),
        r@.pre_ids == views(r.pre_ids@),
        r@.post_ids == views(r.post_ids@),
        r@.traced == r.traced,
        r@.log_content == r.log_content,
        r@.streaming == r.streaming,
{
}

} // verus!
