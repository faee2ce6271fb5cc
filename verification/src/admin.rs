//! The admin API.

use vstd::prelude::*;
use vstd::utf8::{decode_utf8, valid_utf8};

use crate::auth::{bearer_app, law_token_list, token_table, tokens_distinct};
use crate::config::{
    contains_id, BackendConfig, BackendConfigView, BackendType, LangfuseConfig,
    LangfuseConfigView, ProcessorRule, ProcessorRuleView, TokenEntryView,
};
use crate::error::{single_text, text_object, Reply};
use crate::json::{elements, json_of_bytes, json_view, opt_text, text_of, Json, JsonView};
use crate::processors::{Processor, ProcessorPhase, ProcessorRegistry};
use crate::proxy::route::{backend_for, choose_backend};
use crate::registry::{Backend, BackendView, ModelRegistry};
use crate::seqs::{
    distinct, first_where, lemma_distinct_push, lemma_filter_none, lemma_filter_push,
    lemma_first_where, views,
};
use crate::state::{AppState, AppStateView};
use crate::text::{after_prefix, lemma_after_own_prefix, strip_prefix, text_eq, utf8_text};

verus! {

// ---------------------------------------------------------------------
// Authentication

/// The bytes that the standard base64 engine decodes a text to.
pub uninterp spec fn base64_bytes(text: Seq<char>) -> Option<Seq<u8>>;

/// `base64::engine::general_purpose::STANDARD.decode`: which texts it takes,
/// and what it decodes, depends on the text alone.
#[verifier::external_body]
fn decode_base64(text: &str) -> (r: Option<Vec<u8>>)
    ensures
        match r {
            Some(b) => base64_bytes(text@) == Some(b@),
            None => base64_bytes(text@) is None,
        },
{
    base64::Engine::decode(&base64::engine::general_purpose::STANDARD, text).ok()
}

/// Decoded credentials are those of the administrator.
pub open spec fn are_credentials(decoded: Option<Seq<u8>>, password: Seq<char>) -> bool {
    match decoded {
        Some(b) => valid_utf8(b) && decode_utf8(b) == "admin:"@ + password,
        None => false,
    }
}

/// Whether decoded credentials are those of the administrator.
pub fn credentials_match(decoded: Option<Vec<u8>>, password: &str) -> (r: bool)
    ensures
        r == are_credentials(
            match decoded {
                Some(b) => Some(b@),
                None => None,
            },
            password@,
        ),
{
    match decoded {
        Some(b) => match utf8_text(b.as_slice()) {
            Some(credentials) => {
                let mut expected = "admin:".to_owned();
                expected.append(password);
                text_eq(credentials.as_str(), expected.as_str())
            },
            None => false,
        },
        None => false,
    }
}

/// A request is the administrator's: its `Authorization` header is `Basic`
/// followed by the credentials in base64.
pub open spec fn is_admin(header: Option<Seq<char>>, password: Seq<char>) -> bool {
    match header {
        Some(h) => match after_prefix(h, "Basic "@) {
            Some(encoded) => are_credentials(base64_bytes(encoded), password),
            None => false,
        },
        None => false,
    }
}

/// A challenge to give credentials.
#[derive(Debug)]
pub struct Challenge {
    /// The value of the `WWW-Authenticate` header.
    pub www_authenticate: &'static str,
    pub reply: Reply,
}

/// Admits a request of the administrator, or asks for credentials.
pub fn basic_auth(header: Option<String>, password: &str) -> (r: Result<(), Challenge>)
    ensures
        if is_admin(opt_text(header), password@) {
            r is Ok
        } else {
            &&& r is Err
            &&& r->Err_0.www_authenticate@ == "Basic realm=\"Ollama Gateway Admin\""@
            &&& r->Err_0.reply.status == 401
            &&& r->Err_0.reply.body@ == text_object("error"@, "Unauthorized"@)
        },
{
    if let Some(h) = header {
        if let Some(encoded) = strip_prefix(h.as_str(), "Basic ") {
            if credentials_match(decode_base64(encoded.as_str()), password) {
                return Ok(());
            }
        }
    }
    Err(
        Challenge {
            www_authenticate: "Basic realm=\"Ollama Gateway Admin\"",
            reply: Reply { status: 401, body: single_text("error", "Unauthorized") },
        },
    )
}

// ---------------------------------------------------------------------
// Replies

/// A reply with an error message.
pub open spec fn is_error(r: Reply, status: u16, message: Seq<char>) -> bool {
    r.status == status && r.body@ == text_object("error"@, message)
}

/// A reply with an error message.
fn error_reply(status: u16, message: &str) -> (r: Reply)
    ensures
        is_error(r, status, message@),
{
    Reply { status, body: single_text("error", message) }
}

/// The reply to a change, after the configuration was to be saved.
pub fn change_reply(saved: bool) -> (r: Reply)
    ensures
        if saved {
            r.status == 200 && r.body@ == text_object("status"@, "ok"@)
        } else {
            is_error(r, 500, "Failed to persist configuration"@)
        },
{
    if saved {
        Reply { status: 200, body: single_text("status", "ok") }
    } else {
        error_reply(500, "Failed to persist configuration")
    }
}

/// The reply to a request for a refresh of the model registry.
pub fn refresh_reply() -> (r: Reply)
    ensures
        r.status == 200,
        r.body@ == JsonView::Object(
            map![
                "status"@ => JsonView::Str("ok"@),
                "message"@ => JsonView::Str("Registry refresh triggered"@),
            ],
        ),
{
    let mut body = Json::object();
    body.set("status", Json::str("ok"));
    body.set("message", Json::str("Registry refresh triggered"));
    Reply { status: 200, body }
}

// ---------------------------------------------------------------------
// Langfuse settings

/// A request to change the Langfuse settings.
#[derive(Debug)]
pub struct LangfuseUpdate {
    pub enabled: bool,
    pub host: String,
    pub public_key: String,
    pub secret_key: String,
    pub batch_size: Option<usize>,
    pub flush_interval_ms: Option<u64>,
}

/// The settings that a request asks for: batches of 10 and a flush every five
/// seconds, unless it says otherwise.
pub open spec fn updated_langfuse(u: LangfuseUpdate) -> LangfuseConfigView {
    LangfuseConfigView {
        enabled: u.enabled,
        host: u.host@,
        public_key: u.public_key@,
        secret_key: u.secret_key@,
        batch_size: match u.batch_size {
            Some(n) => n,
            None => 10,
        },
        flush_interval_ms: match u.flush_interval_ms {
            Some(n) => n,
            None => 5000,
        },
    }
}

/// The Langfuse settings, as the admin API shows them.
pub open spec fn langfuse_json(c: LangfuseConfigView) -> JsonView {
    JsonView::Object(
        map![
            "enabled"@ => JsonView::Bool(c.enabled),
            "host"@ => JsonView::Str(c.host),
            "public_key"@ => JsonView::Str(c.public_key),
            "secret_key"@ => JsonView::Str(c.secret_key),
            "batch_size"@ => JsonView::Int(c.batch_size as int),
            "flush_interval_ms"@ => JsonView::Int(c.flush_interval_ms as int),
        ],
    )
}

impl AppState {
    /// The Langfuse settings.
    pub fn get_langfuse(&self) -> (r: Json)
        ensures
            r@ == langfuse_json(self@.langfuse_config),
    {
        let c = &self.langfuse_config;
        let mut out = Json::object();
        out.set("enabled", Json::Bool(c.enabled));
        out.set("host", Json::str(c.host.as_str()));
        out.set("public_key", Json::str(c.public_key.as_str()));
        out.set("secret_key", Json::str(c.secret_key.as_str()));
        out.set("batch_size", Json::Unsigned(c.batch_size as u64));
        out.set("flush_interval_ms", Json::Unsigned(c.flush_interval_ms));
        out
    }

    /// Changes the Langfuse settings.
    pub fn put_langfuse(&mut self, config: LangfuseConfig)
        ensures
            final(self)@ == (AppStateView { langfuse_config: config@, ..old(self)@ }),
    {
        self.langfuse_config = config;
    }
}

/// What is done with the collector that sends events to Langfuse.
#[derive(Clone, Copy, Debug, PartialEq, Eq, Structural)]
pub enum CollectorAction {
    /// The running collector sends what it holds.
    Flush,
    /// A collector with the new settings takes the place of the old one.
    Start,
    /// The old collector, if there is one, goes.
    Clear,
}

/// What a change of the settings does with the collector: one that is running
/// is flushed first; then there is a new one, if the settings enable it.
pub open spec fn collector_plan(running: bool, enabled: bool) -> Seq<CollectorAction> {
    let last = if enabled {
        CollectorAction::Start
    } else {
        CollectorAction::Clear
    };
    if running {
        seq![CollectorAction::Flush, last]
    } else {
        seq![last]
    }
}

/// Whether a collector is running after actions.
pub open spec fn runs_after(running: bool, actions: Seq<CollectorAction>) -> bool
    decreases actions.len(),
{
    if actions.len() == 0 {
        running
    } else {
        match actions.last() {
            CollectorAction::Flush => runs_after(running, actions.drop_last()),
            CollectorAction::Start => true,
            CollectorAction::Clear => false,
        }
    }
}

/// What a change of the settings does with the collector, in order.
pub fn collector_actions(running: bool, config: &LangfuseConfig) -> (r: Vec<CollectorAction>)
    ensures
        r@ == collector_plan(running, config@.enabled),
{
    let mut actions: Vec<CollectorAction> = Vec::new();
    if running {
        actions.push(CollectorAction::Flush);
    }
    if config.enabled {
        actions.push(CollectorAction::Start);
    } else {
        actions.push(CollectorAction::Clear);
    }
    assert(actions@ =~= collector_plan(running, config@.enabled));
    actions
}

/// After a change of the Langfuse settings a collector is running exactly where
/// the new settings enable it, and one that was running was flushed before
/// anything else.
pub proof fn law_collector_follows_settings(running: bool, u: LangfuseUpdate)
    ensures
        runs_after(running, collector_plan(running, updated_langfuse(u).enabled)) == u.enabled,
        running ==> collector_plan(running, updated_langfuse(u).enabled)[0]
            == CollectorAction::Flush,
{
}

impl LangfuseUpdate {
    /// The settings that the request asks for.
    pub fn into_config(self) -> (r: LangfuseConfig)
        ensures
            r@ == updated_langfuse(self),
    {
        LangfuseConfig {
            enabled: self.enabled,
            host: self.host,
            public_key: self.public_key,
            secret_key: self.secret_key,
            batch_size: self.batch_size.unwrap_or(10),
            flush_interval_ms: self.flush_interval_ms.unwrap_or(5000),
        }
    }
}

// ---------------------------------------------------------------------
// Tokens

/// A token, as the admin API shows it.
pub open spec fn token_json(t: TokenEntryView) -> JsonView {
    JsonView::Object(
        map!["token"@ => JsonView::Str(t.token), "app_name"@ => JsonView::Str(t.app_name)],
    )
}

/// Tokens, as the admin API shows them.
pub open spec fn tokens_json(list: Seq<TokenEntryView>) -> JsonView {
    JsonView::Array(list.map_values(|t: TokenEntryView| token_json(t)))
}

/// A list of the tokens with their applications, each token once; the order is
/// left open.
pub open spec fn is_token_list(v: JsonView, tokens: Map<Seq<char>, Seq<char>>) -> bool {
    exists|list: Seq<TokenEntryView>|
        tokens_distinct(list) && token_table(list) == tokens && v == #[trigger] tokens_json(list)
}

impl AppState {
    /// The tokens with their applications.
    pub fn get_tokens(&self) -> (r: Json)
        ensures
            is_token_list(r@, self@.token_map),
    {
        let entries = self.token_map.entries();
        let ghost list = views(entries@);
        let mut out: Vec<Json> = Vec::new();
        let mut i: usize = 0;
        while i < entries.len()
            invariant
                i <= entries@.len(),
                out@.len() == i,
                forall|k: int| 0 <= k < i ==> (#[trigger] out@[k])@ == token_json(entries@[k]@),
            decreases entries.len() - i,
        {
            let mut entry = Json::object();
            entry.set("token", Json::str(entries[i].token.as_str()));
            entry.set("app_name", Json::str(entries[i].app_name.as_str()));
            out.push(entry);
            i += 1;
        }
        assert(elements(out@) =~= list.map_values(|t: TokenEntryView| token_json(t)));
        let r = Json::Array(out);
        assert(r@ == tokens_json(list));
        r
    }

    /// Accepts a token for an application.
    pub fn add_token(&mut self, token: String, app_name: String)
        ensures
            final(self)@ == (AppStateView {
                token_map: old(self)@.token_map.insert(token@, app_name@),
                ..old(self)@
            }),
    {
        self.token_map.insert(token, app_name);
    }

    /// Accepts a token no longer.
    pub fn delete_token(&mut self, token: &str)
        ensures
            final(self)@ == (AppStateView {
                token_map: old(self)@.token_map.remove(token@),
                ..old(self)@
            }),
    {
        self.token_map.remove(token);
    }
}

/// A token that was added is accepted for its application, and one that was
/// deleted is not accepted; all other tokens stay as they are.
pub proof fn law_token_changes(
    tokens: Map<Seq<char>, Seq<char>>,
    token: Seq<char>,
    app_name: Seq<char>,
    other: Seq<char>,
)
    requires
        other != token,
    ensures
        bearer_app(Some("Bearer "@ + token), tokens.insert(token, app_name)) == Some(
            app_name,
        ),
        bearer_app(Some("Bearer "@ + token), tokens.remove(token)) is None,
        bearer_app(Some("Bearer "@ + other), tokens.insert(token, app_name))
            == bearer_app(Some("Bearer "@ + other), tokens),
        bearer_app(Some("Bearer "@ + other), tokens.remove(token))
            == bearer_app(Some("Bearer "@ + other), tokens),
{
    lemma_after_own_prefix("Bearer "@, token);
    lemma_after_own_prefix("Bearer "@, other);
}

// ---------------------------------------------------------------------
// General settings

impl AppState {
    /// The general settings.
    pub fn get_config(&self) -> (r: Json)
        ensures
            r@ == JsonView::Object(
                map![
                    "privacy_mode"@ => JsonView::Bool(self@.privacy_mode),
                    "model_refresh_interval_secs"@ => JsonView::Int(
                        self@.server_config.model_refresh_interval_secs as int,
                    ),
                ],
            ),
    {
        let mut out = Json::object();
        out.set("privacy_mode", Json::Bool(self.privacy_mode));
        out.set(
            "model_refresh_interval_secs",
            Json::Unsigned(self.server_config.model_refresh_interval_secs),
        );
        out
    }

    /// Turns privacy mode on or off; off if the request does not say.
    pub fn put_config(&mut self, privacy_mode: Option<bool>)
        ensures
            final(self)@ == (AppStateView {
                privacy_mode: privacy_mode == Some(true),
                ..old(self)@
            }),
    {
        self.privacy_mode = privacy_mode.unwrap_or(false);
    }
}

// ---------------------------------------------------------------------
// Backends

/// The kind of backend that a request names; Ollama unless it is llama.cpp.
pub open spec fn backend_type_of(s: Option<Seq<char>>) -> BackendType {
    if s == Some("llamacpp"@) {
        BackendType::Llamacpp
    } else {
        BackendType::Ollama
    }
}

/// The kind of backend that a request names.
pub fn parse_backend_type(s: &Option<String>) -> (r: BackendType)
    ensures
        r == backend_type_of(opt_text(*s)),
{
    match s {
        Some(t) => if text_eq(t.as_str(), "llamacpp") {
            BackendType::Llamacpp
        } else {
            BackendType::Ollama
        },
        None => BackendType::Ollama,
    }
}

/// The name of a kind of backend.
pub open spec fn backend_type_name(t: BackendType) -> Seq<char> {
    match t {
        BackendType::Ollama => "ollama"@,
        BackendType::Llamacpp => "llamacpp"@,
    }
}

/// A request for a new backend, or to change one.
#[derive(Debug)]
pub struct BackendRequest {
    pub name: String,
    pub url: String,
    pub backend_type: Option<String>,
    pub priority: Option<i32>,
}

/// The backend that a request asks for.
pub open spec fn requested_backend(r: BackendRequest, default_priority: i32) -> BackendConfigView {
    BackendConfigView {
        name: r.name@,
        url: r.url@,
        backend_type: backend_type_of(opt_text(r.backend_type)),
        priority: match r.priority {
            Some(p) => p,
            None => default_priority,
        },
    }
}

/// The position of the first backend of that name, or the number of backends
/// if there is none.
pub open spec fn index_named(backends: Seq<BackendConfigView>, name: Seq<char>) -> int
    decreases backends.len(),
{
    if backends.len() == 0 {
        0
    } else if backends[0].name == name {
        0
    } else {
        1 + index_named(backends.skip(1), name)
    }
}

/// The first position with the name is the one that is found.
proof fn lemma_index_named(backends: Seq<BackendConfigView>, name: Seq<char>, i: int)
    requires
        0 <= i <= backends.len(),
        forall|k: int| 0 <= k < i ==> (#[trigger] backends[k]).name != name,
        i < backends.len() ==> backends[i].name == name,
    ensures
        index_named(backends, name) == i,
    decreases i,
{
    if i > 0 {
        assert(backends[0].name != name);
        assert forall|k: int| 0 <= k < i - 1 implies (#[trigger] backends.skip(1)[k]).name
            != name by {
            assert(backends.skip(1)[k] == backends[k + 1]);
        }
        lemma_index_named(backends.skip(1), name, i - 1);
    }
}

/// The position of the first backend of that name, or the number of backends
/// if there is none.
fn find_backend(backends: &Vec<BackendConfig>, name: &str) -> (r: usize)
    ensures
        r <= backends@.len(),
        r == index_named(views(backends@), name@),
        r < backends@.len() ==> backends@[r as int].name@ == name@,
        forall|k: int| 0 <= k < r ==> (#[trigger] backends@[k]).name@ != name@,
{
    let ghost all = views(backends@);
    let mut i: usize = 0;
    while i < backends.len()
        invariant
            i <= backends@.len(),
            all == views(backends@),
            forall|k: int| 0 <= k < i ==> (#[trigger] backends@[k]).name@ != name@,
        decreases backends.len() - i,
    {
        if text_eq(backends[i].name.as_str(), name) {
            proof {
                assert forall|k: int| 0 <= k < i implies (#[trigger] all[k]).name != name@ by {
                    assert(all[k] == backends@[k]@);
                }
                lemma_index_named(all, name@, i as int);
            }
            return i;
        }
        i += 1;
    }
    proof {
        assert forall|k: int| 0 <= k < i implies (#[trigger] all[k]).name != name@ by {
            assert(all[k] == backends@[k]@);
        }
        lemma_index_named(all, name@, i as int);
    }
    i
}

/// The message that a backend is there already, or is not there.
pub open spec fn backend_message(name: Seq<char>, what: Seq<char>) -> Seq<char> {
    "Backend '"@ + name + what
}

/// The message that a backend is there already, or is not there.
fn backend_error(status: u16, name: &str, what: &str) -> (r: Reply)
    ensures
        is_error(r, status, backend_message(name@, what@)),
{
    let mut message = "Backend '".to_owned();
    message.append(name);
    message.append(what);
    error_reply(status, message.as_str())
}

impl AppState {
    /// Adds a backend, unless there is one of that name.
    pub fn add_backend(&mut self, request: BackendRequest) -> (r: Result<(), Reply>)
        ensures
            if index_named(old(self)@.backends, request.name@) < old(self)@.backends.len() {
                &&& r is Err
                &&& is_error(
                    r->Err_0,
                    409,
                    backend_message(request.name@, "' already exists"@),
                )
                &&& final(self)@ == old(self)@
            } else {
                &&& r is Ok
                &&& final(self)@ == AppStateView {
                    backends: old(self)@.backends.push(requested_backend(request, 0)),
                    ..old(self)@
                }
            },
    {
        if find_backend(&self.backends, request.name.as_str()) < self.backends.len() {
            return Err(backend_error(409, request.name.as_str(), "' already exists"));
        }
        let backend_type = parse_backend_type(&request.backend_type);
        let ghost asked = requested_backend(request, 0);
        let backend = BackendConfig {
            name: request.name,
            url: request.url,
            backend_type,
            priority: request.priority.unwrap_or(0),
        };
        self.backends.push(backend);
        assert(views(self.backends@) =~= old(self)@.backends.push(asked));
        Ok(())
    }

    /// Changes the first backend of that name; it keeps its priority unless the
    /// request gives one, and may get another name.
    pub fn update_backend(&mut self, name: &str, request: BackendRequest) -> (r: Result<
        (),
        Reply,
    >)
        ensures
            ({
                let i = index_named(old(self)@.backends, name@);
                if i < old(self)@.backends.len() {
                    &&& r is Ok
                    &&& final(self)@ == AppStateView {
                        backends: old(self)@.backends.update(
                            i,
                            requested_backend(request, old(self)@.backends[i].priority),
                        ),
                        ..old(self)@
                    }
                } else {
                    &&& r is Err
                    &&& is_error(r->Err_0, 404, backend_message(name@, "' not found"@))
                    &&& final(self)@ == old(self)@
                }
            }),
    {
        let i = find_backend(&self.backends, name);
        if i >= self.backends.len() {
            return Err(backend_error(404, name, "' not found"));
        }
        let backend_type = parse_backend_type(&request.backend_type);
        let priority = request.priority.unwrap_or(self.backends[i].priority);
        let ghost asked = requested_backend(request, old(self)@.backends[i as int].priority);
        let backend = BackendConfig {
            name: request.name,
            url: request.url,
            backend_type,
            priority,
        };
        self.backends[i] = backend;
        assert(views(self.backends@) =~= old(self)@.backends.update(i as int, asked));
        Ok(())
    }

    /// Removes all backends of that name.
    pub fn delete_backend(&mut self, name: &str) -> (r: Result<(), Reply>)
        ensures
            if index_named(old(self)@.backends, name@) < old(self)@.backends.len() {
                &&& r is Ok
                &&& final(self)@ == AppStateView {
                    backends: old(self)@.backends.filter(|b: BackendConfigView| b.name != name@),
                    ..old(self)@
                }
            } else {
                &&& r is Err
                &&& is_error(r->Err_0, 404, backend_message(name@, "' not found"@))
                &&& final(self)@ == old(self)@
            },
    {
        if find_backend(&self.backends, name) >= self.backends.len() {
            return Err(backend_error(404, name, "' not found"));
        }
        let ghost all = views(self.backends@);
        let ghost f = |b: BackendConfigView| b.name != name@;
        let mut kept: Vec<BackendConfig> = Vec::new();
        let mut i: usize = 0;
        proof {
            lemma_filter_none(all.take(0), f);
            assert(views(kept@) =~= all.take(0).filter(f));
        }
        while i < self.backends.len()
            invariant
                i <= self.backends@.len(),
                self@ == old(self)@,
                all == views(self.backends@),
                f == (|b: BackendConfigView| b.name != name@),
                views(kept@) == all.take(i as int).filter(f),
            decreases self.backends.len() - i,
        {
            let b = &self.backends[i];
            let ghost before = views(kept@);
            proof {
                assert(all.take(i + 1) =~= all.take(i as int).push(b@));
                lemma_filter_push(all.take(i as int), b@, f);
            }
            if !text_eq(b.name.as_str(), name) {
                kept.push(b.clone());
                assert(views(kept@) =~= before.push(b@));
            }
            i += 1;
        }
        assert(all.take(all.len() as int) =~= all);
        self.backends = kept;
        Ok(())
    }
}

/// A backend, as the admin API shows it: with its health and the number of its
/// models as the registry has them, unhealthy and without models if the
/// registry does not know it.
pub open spec fn backend_json(b: BackendConfigView, registry: Seq<BackendView>) -> JsonView {
    let known = first_where(registry, |rb: BackendView| rb.config.name == b.name);
    JsonView::Object(
        map![
            "name"@ => JsonView::Str(b.name),
            "url"@ => JsonView::Str(b.url),
            "backend_type"@ => JsonView::Str(backend_type_name(b.backend_type)),
            "priority"@ => JsonView::Int(b.priority as int),
            "healthy"@ => JsonView::Bool(match known {
                Some(rb) => rb.healthy,
                None => false,
            }),
            "model_count"@ => JsonView::Int(match known {
                Some(rb) => rb.models.len() as int,
                None => 0,
            }),
        ],
    )
}

/// The health of a backend and the number of its models, by name.
fn known_backend(registry: &ModelRegistry, name: &str) -> (r: (bool, usize))
    ensures
        match first_where(registry@, |rb: BackendView| rb.config.name == name@) {
            Some(rb) => r.0 == rb.healthy && r.1 == rb.models.len(),
            None => !r.0 && r.1 == 0,
        },
{
    let all = registry.backends();
    let ghost seen = views(all@);
    let ghost f = |rb: BackendView| rb.config.name == name@;
    let mut i: usize = 0;
    while i < all.len()
        invariant
            i <= all@.len(),
            seen == views(all@),
            seen == registry@,
            f == (|rb: BackendView| rb.config.name == name@),
            forall|k: int| 0 <= k < i ==> !f(#[trigger] seen[k]),
        decreases all.len() - i,
    {
        assert(seen[i as int] == all@[i as int]@);
        if text_eq(all[i].config.name.as_str(), name) {
            proof {
                lemma_first_where(seen, f, i as int);
            }
            return (all[i].healthy, all[i].models.len());
        }
        i += 1;
    }
    proof {
        lemma_first_where(seen, f, seen.len() as int);
    }
    (false, 0)
}

impl AppState {
    /// The backends.
    pub fn get_backends(&self, registry: &ModelRegistry) -> (r: Json)
        ensures
            r@ == JsonView::Array(
                self@.backends.map_values(|b: BackendConfigView| backend_json(b, registry@)),
            ),
    {
        let mut out: Vec<Json> = Vec::new();
        let mut i: usize = 0;
        while i < self.backends.len()
            invariant
                i <= self.backends@.len(),
                out@.len() == i,
                forall|k: int|
                    0 <= k < i ==> (#[trigger] out@[k])@ == backend_json(
                        self.backends@[k]@,
                        registry@,
                    ),
            decreases self.backends.len() - i,
        {
            let b = &self.backends[i];
            let (healthy, model_count) = known_backend(registry, b.name.as_str());
            let kind = match b.backend_type {
                BackendType::Ollama => "ollama",
                BackendType::Llamacpp => "llamacpp",
            };
            let mut entry = Json::object();
            entry.set("name", Json::str(b.name.as_str()));
            entry.set("url", Json::str(b.url.as_str()));
            entry.set("backend_type", Json::str(kind));
            entry.set("priority", Json::Signed(b.priority as i64));
            entry.set("healthy", Json::Bool(healthy));
            entry.set("model_count", Json::Unsigned(model_count as u64));
            out.push(entry);
            i += 1;
        }
        assert(elements(out@) =~= self@.backends.map_values(
            |b: BackendConfigView| backend_json(b, registry@),
        ));
        Json::Array(out)
    }
}

// ---------------------------------------------------------------------
// Models

/// The models of backends, one backend after the other.
pub open spec fn models_of_all(backends: Seq<BackendView>) -> Seq<Seq<char>>
    decreases backends.len(),
{
    if backends.len() == 0 {
        Seq::empty()
    } else {
        models_of_all(backends.drop_last()) + backends.last().models
    }
}

/// A model, as the admin API shows it.
pub open spec fn model_json(name: Seq<char>) -> JsonView {
    JsonView::Object(map!["name"@ => JsonView::Str(name)])
}

/// Adds the names that are not there yet.
fn add_names(names: &mut Vec<String>, more: &Vec<String>, Ghost(seen): Ghost<Seq<Seq<char>>>)
    requires
        views(old(names)@) == distinct(seen),
    ensures
        views(final(names)@) == distinct(seen + views(more@)),
{
    let ghost all = views(more@);
    let mut i: usize = 0;
    assert(seen + all.take(0) =~= seen);
    while i < more.len()
        invariant
            i <= more@.len(),
            all == views(more@),
            views(names@) == distinct(seen + all.take(i as int)),
        decreases more.len() - i,
    {
        let ghost before = views(names@);
        proof {
            lemma_distinct_push(seen + all.take(i as int), all[i as int]);
            assert(seen + all.take(i + 1) =~= (seen + all.take(i as int)).push(all[i as int]));
        }
        if !contains_id(names, more[i].as_str()) {
            names.push(more[i].clone());
            assert(views(names@) =~= before.push(all[i as int]));
        }
        i += 1;
    }
    assert(all.take(all.len() as int) =~= all);
}

/// The models of all healthy backends, each of them once.
pub fn get_models(registry: &ModelRegistry) -> (r: Json)
    ensures
        r@ == JsonView::Object(
            map![
                "models"@ => JsonView::Array(
                    distinct(
                        models_of_all(registry@.filter(|b: BackendView| b.healthy)),
                    ).map_values(|name: Seq<char>| model_json(name)),
                ),
            ],
        ),
{
    let healthy = registry.all_healthy_backends();
    let ghost all = views(healthy@);
    let mut names: Vec<String> = Vec::new();
    let mut i: usize = 0;
    assert(all.take(0) =~= Seq::<BackendView>::empty());
    assert(views(names@) =~= Seq::<Seq<char>>::empty());
    while i < healthy.len()
        invariant
            i <= healthy@.len(),
            all == views(healthy@),
            views(names@) == distinct(models_of_all(all.take(i as int))),
        decreases healthy.len() - i,
    {
        let backend: &Backend = healthy[i];
        assert(all.take(i + 1).drop_last() =~= all.take(i as int));
        assert(all.take(i + 1).last() == backend@);
        add_names(&mut names, &backend.models, Ghost(models_of_all(all.take(i as int))));
        i += 1;
    }
    assert(all.take(all.len() as int) =~= all);
    let mut out: Vec<Json> = Vec::new();
    let mut j: usize = 0;
    while j < names.len()
        invariant
            j <= names@.len(),
            out@.len() == j,
            forall|k: int| 0 <= k < j ==> (#[trigger] out@[k])@ == model_json(names@[k]@),
        decreases names.len() - j,
    {
        let mut model = Json::object();
        model.set("name", Json::str(names[j].as_str()));
        out.push(model);
        j += 1;
    }
    let ghost models = views(names@).map_values(|name: Seq<char>| model_json(name));
    assert(elements(out@) =~= models);
    let mut list = Json::object();
    list.set("models", Json::Array(out));
    list
}

/// The path under which a chat of the admin UI is sent on: that of the backend
/// that gets it.
pub open spec fn chat_path(backends: Seq<BackendView>, body: Option<JsonView>) -> Seq<char> {
    let model = match body {
        Some(b) => text_of(b.member("model"@)),
        None => None,
    };
    match backend_for(backends, model) {
        Some(b) => match b.config.backend_type {
            BackendType::Llamacpp => "/v1/chat/completions"@,
            BackendType::Ollama => "/api/chat"@,
        },
        None => "/api/chat"@,
    }
}

/// The path under which a chat with the value `body` is sent on.
pub fn admin_chat_path(registry: &ModelRegistry, body: &Option<Json>) -> (r: &'static str)
    ensures
        r@ == chat_path(registry@, json_view(*body)),
{
    let model = match body {
        Some(b) => match b.get("model") {
            Some(m) => match m.as_str() {
                Some(s) => Some(s.to_owned()),
                None => None,
            },
            None => None,
        },
        None => None,
    };
    match choose_backend(registry, &model) {
        Some(b) => match b.backend_type {
            BackendType::Llamacpp => "/v1/chat/completions",
            BackendType::Ollama => "/api/chat",
        },
        None => "/api/chat",
    }
}

/// The path under which a chat of the admin UI is sent on.
pub fn admin_chat(registry: &ModelRegistry, bytes: &[u8]) -> (r: &'static str)
    ensures
        r@ == chat_path(registry@, json_of_bytes(bytes@)),
{
    admin_chat_path(registry, &Json::from_slice(bytes))
}

// ---------------------------------------------------------------------
// Processors

/// The name of a phase.
pub open spec fn phase_name(p: ProcessorPhase) -> Seq<char> {
    match p {
        ProcessorPhase::Pre => "pre"@,
        ProcessorPhase::Post => "post"@,
        ProcessorPhase::Both => "both"@,
    }
}

/// A processor, as the admin API shows it.
pub open spec fn processor_json<P: Processor>(p: P) -> JsonView {
    JsonView::Object(
        map![
            "id"@ => JsonView::Str(p.id_text()),
            "description"@ => JsonView::Str(p.description_text()),
            "phase"@ => JsonView::Str(phase_name(p.phase_value())),
        ],
    )
}

/// The processors that there are.
pub fn get_processors<P: Processor>(registry: &ProcessorRegistry<P>) -> (r: Json)
    ensures
        r@ == JsonView::Array(registry@.map_values(|p: P| processor_json(p))),
{
    let list = registry.list();
    let mut out: Vec<Json> = Vec::new();
    let mut i: usize = 0;
    while i < list.len()
        invariant
            i <= list@.len(),
            out@.len() == i,
            list@.len() == registry@.len(),
            forall|k: int|
                0 <= k < list@.len() ==> {
                    &&& (#[trigger] list@[k]).id@ == registry@[k].id_text()
                    &&& list@[k].description@ == registry@[k].description_text()
                    &&& list@[k].phase == registry@[k].phase_value()
                },
            forall|k: int| 0 <= k < i ==> (#[trigger] out@[k])@ == processor_json(registry@[k]),
        decreases list.len() - i,
    {
        let info = &list[i];
        let phase = match info.phase {
            ProcessorPhase::Pre => "pre",
            ProcessorPhase::Post => "post",
            ProcessorPhase::Both => "both",
        };
        let mut entry = Json::object();
        entry.set("id", Json::str(info.id.as_str()));
        entry.set("description", Json::str(info.description.as_str()));
        entry.set("phase", Json::str(phase));
        out.push(entry);
        i += 1;
    }
    assert(elements(out@) =~= registry@.map_values(|p: P| processor_json(p)));
    Json::Array(out)
}

/// A list of texts.
pub open spec fn texts_json(texts: Seq<Seq<char>>) -> JsonView {
    JsonView::Array(texts.map_values(|t: Seq<char>| JsonView::Str(t)))
}

/// A list of texts.
fn texts_array(texts: &Vec<String>) -> (r: Json)
    ensures
        r@ == texts_json(views(texts@)),
{
    let mut out: Vec<Json> = Vec::new();
    let mut i: usize = 0;
    while i < texts.len()
        invariant
            i <= texts@.len(),
            out@.len() == i,
            forall|k: int| 0 <= k < i ==> (#[trigger] out@[k])@ == JsonView::Str(texts@[k]@),
        decreases texts.len() - i,
    {
        out.push(Json::str(texts[i].as_str()));
        i += 1;
    }
    assert(elements(out@) =~= views(texts@).map_values(|t: Seq<char>| JsonView::Str(t)));
    Json::Array(out)
}

/// A processor rule, as the admin API shows it.
pub open spec fn rule_json(rule: ProcessorRuleView) -> JsonView {
    JsonView::Object(
        map![
            "model_pattern"@ => JsonView::Str(rule.model_pattern),
            "backend_name"@ => JsonView::Str(rule.backend_name),
            "preprocessors"@ => texts_json(rule.preprocessors),
            "postprocessors"@ => texts_json(rule.postprocessors),
        ],
    )
}

impl AppState {
    /// The processor rules.
    pub fn get_processor_rules(&self) -> (r: Json)
        ensures
            r@ == JsonView::Array(
                self@.processor_rules.map_values(|rule: ProcessorRuleView| rule_json(rule)),
            ),
    {
        let mut out: Vec<Json> = Vec::new();
        let mut i: usize = 0;
        while i < self.processor_rules.len()
            invariant
                i <= self.processor_rules@.len(),
                out@.len() == i,
                forall|k: int|
                    0 <= k < i ==> (#[trigger] out@[k])@ == rule_json(self.processor_rules@[k]@),
            decreases self.processor_rules.len() - i,
        {
            let rule = &self.processor_rules[i];
            let mut entry = Json::object();
            entry.set("model_pattern", Json::str(rule.model_pattern.as_str()));
            entry.set("backend_name", Json::str(rule.backend_name.as_str()));
            entry.set("preprocessors", texts_array(&rule.preprocessors));
            entry.set("postprocessors", texts_array(&rule.postprocessors));
            out.push(entry);
            i += 1;
        }
        assert(elements(out@) =~= self@.processor_rules.map_values(
            |rule: ProcessorRuleView| rule_json(rule),
        ));
        Json::Array(out)
    }

    /// Adds a processor rule behind the others; it must have a pattern.
    pub fn add_processor_rule(&mut self, rule: ProcessorRule) -> (r: Result<(), Reply>)
        ensures
            if rule.model_pattern@.len() == 0 {
                &&& r is Err
                &&& is_error(r->Err_0, 400, "model_pattern is required"@)
                &&& final(self)@ == old(self)@
            } else {
                &&& r is Ok
                &&& final(self)@ == AppStateView {
                    processor_rules: old(self)@.processor_rules.push(rule@),
                    ..old(self)@
                }
            },
    {
        if rule.model_pattern.as_str().is_empty() {
            return Err(error_reply(400, "model_pattern is required"));
        }
        let ghost asked = rule@;
        self.processor_rules.push(rule);
        assert(views(self.processor_rules@) =~= old(self)@.processor_rules.push(asked));
        Ok(())
    }

    /// Replaces a processor rule.
    pub fn update_processor_rule(&mut self, index: usize, rule: ProcessorRule) -> (r: Result<
        (),
        Reply,
    >)
        ensures
            if index >= old(self)@.processor_rules.len() {
                &&& r is Err
                &&& is_error(r->Err_0, 404, "Rule index out of range"@)
                &&& final(self)@ == old(self)@
            } else {
                &&& r is Ok
                &&& final(self)@ == AppStateView {
                    processor_rules: old(self)@.processor_rules.update(index as int, rule@),
                    ..old(self)@
                }
            },
    {
        if index >= self.processor_rules.len() {
            return Err(error_reply(404, "Rule index out of range"));
        }
        let ghost asked = rule@;
        self.processor_rules[index] = rule;
        assert(views(self.processor_rules@) =~= old(self)@.processor_rules.update(
            index as int,
            asked,
        ));
        Ok(())
    }

    /// Removes a processor rule.
    pub fn delete_processor_rule(&mut self, index: usize) -> (r: Result<(), Reply>)
        ensures
            if index >= old(self)@.processor_rules.len() {
                &&& r is Err
                &&& is_error(r->Err_0, 404, "Rule index out of range"@)
                &&& final(self)@ == old(self)@
            } else {
                &&& r is Ok
                &&& final(self)@ == AppStateView {
                    processor_rules: old(self)@.processor_rules.remove(index as int),
                    ..old(self)@
                }
            },
    {
        if index >= self.processor_rules.len() {
            return Err(error_reply(404, "Rule index out of range"));
        }
        self.processor_rules.remove(index);
        assert(views(self.processor_rules@) =~= old(self)@.processor_rules.remove(index as int));
        Ok(())
    }
}

// ---------------------------------------------------------------------
// Metrics

/// The range of a metrics query; a day unless the request gives one.
pub fn metrics_range(range: Option<String>) -> (r: String)
    ensures
        r@ == match range {
            Some(s) => s@,
            None => "24h"@,
        },
{
    match range {
        Some(s) => s,
        None => "24h".to_owned(),
    }
}

/// The backend of a metrics query; all of them if none is named.
pub fn metrics_backend(backend: Option<String>) -> (r: Option<String>)
    ensures
        opt_text(r) == match backend {
            Some(s) => if s@.len() == 0 {
                None
            } else {
                Some(s@)
            },
            None => None,
        },
{
    match backend {
        Some(s) => if s.as_str().is_empty() {
            None
        } else {
            Some(s)
        },
        None => None,
    }
}

// ---------------------------------------------------------------------
// Laws

/// The administrator is whoever sends `Basic ` and, in base64, the text `admin:` with
/// the password; nobody else is.
pub proof fn law_admin(encoded: Seq<char>, h: Seq<char>, password: Seq<char>)
    ensures
        is_admin(Some("Basic "@ + encoded), password) <==> base64_bytes(encoded) is Some
            && valid_utf8(base64_bytes(encoded)->0) && decode_utf8(base64_bytes(encoded)->0)
            == "admin:"@ + password,
        h.len() < 6 || h.take(6) != "Basic "@ ==> !is_admin(Some(h), password),
        !is_admin(None, password),
{
    lemma_after_own_prefix("Basic "@, encoded);
    reveal_strlit("Basic ");
    if h.len() >= 6 {
        assert(h.take(6) =~= h.subrange(0, 6));
    }
}

/// A change of the Langfuse settings takes over what the request says; batches of ten
/// and a flush every five seconds unless it says otherwise.
pub proof fn law_langfuse_update(u: LangfuseUpdate)
    ensures
        ({
            let c = updated_langfuse(u);
            &&& c.enabled == u.enabled
            &&& c.host == u.host@
            &&& c.public_key == u.public_key@
            &&& c.secret_key == u.secret_key@
            &&& u.batch_size is Some ==> c.batch_size == u.batch_size->0
            &&& u.batch_size is None ==> c.batch_size == 10
            &&& u.flush_interval_ms is Some ==> c.flush_interval_ms == u.flush_interval_ms->0
            &&& u.flush_interval_ms is None ==> c.flush_interval_ms == 5000
        }),
{
}

/// The names under which settings are shown are different texts.
proof fn lemma_names_differ()
    ensures
        "enabled"@.len() == 7 && "enabled"@[0] == 'e',
        "host"@.len() == 4 && "host"@[0] == 'h',
        "public_key"@.len() == 10 && "public_key"@[0] == 'p',
        "secret_key"@.len() == 10 && "secret_key"@[0] == 's',
        "batch_size"@.len() == 10 && "batch_size"@[0] == 'b',
        "flush_interval_ms"@.len() == 17,
        "name"@.len() == 4 && "name"@[0] == 'n',
        "url"@.len() == 3,
        "backend_type"@.len() == 12,
        "priority"@.len() == 8,
        "healthy"@.len() == 7 && "healthy"@[0] == 'h',
        "model_count"@.len() == 11 && "model_count"@[0] == 'm',
        "id"@.len() == 2,
        "description"@.len() == 11 && "description"@[0] == 'd',
        "phase"@.len() == 5,
        "model_pattern"@.len() == 13 && "model_pattern"@[0] == 'm',
        "backend_name"@.len() == 12,
        "preprocessors"@.len() == 13 && "preprocessors"@[0] == 'p',
        "postprocessors"@.len() == 14,
        "token"@.len() == 5,
        "app_name"@.len() == 8,
{
    reveal_strlit("enabled");
    reveal_strlit("host");
    reveal_strlit("public_key");
    reveal_strlit("secret_key");
    reveal_strlit("batch_size");
    reveal_strlit("flush_interval_ms");
    reveal_strlit("name");
    reveal_strlit("url");
    reveal_strlit("backend_type");
    reveal_strlit("priority");
    reveal_strlit("healthy");
    reveal_strlit("model_count");
    reveal_strlit("id");
    reveal_strlit("description");
    reveal_strlit("phase");
    reveal_strlit("model_pattern");
    reveal_strlit("backend_name");
    reveal_strlit("preprocessors");
    reveal_strlit("postprocessors");
    reveal_strlit("token");
    reveal_strlit("app_name");
}

/// The Langfuse settings are shown as they are.
pub proof fn law_langfuse_shown(c: LangfuseConfigView)
    ensures
        langfuse_json(c).member("enabled"@) == Some(JsonView::Bool(c.enabled)),
        langfuse_json(c).member("host"@) == Some(JsonView::Str(c.host)),
        langfuse_json(c).member("public_key"@) == Some(JsonView::Str(c.public_key)),
        langfuse_json(c).member("secret_key"@) == Some(JsonView::Str(c.secret_key)),
        langfuse_json(c).member("batch_size"@) == Some(JsonView::Int(c.batch_size as int)),
        langfuse_json(c).member("flush_interval_ms"@) == Some(
            JsonView::Int(c.flush_interval_ms as int),
        ),
{
    lemma_names_differ();
}

/// Every token that is accepted is shown, with its application, and no other is.
pub proof fn law_tokens_shown(v: JsonView, tokens: Map<Seq<char>, Seq<char>>, token: Seq<char>)
    requires
        is_token_list(v, tokens),
    ensures
        v is Array,
        tokens.contains_key(token) <==> exists|i: int|
            0 <= i < v->Array_0.len() && (#[trigger] v->Array_0[i]).member("token"@) == Some(
                JsonView::Str(token),
            ),
        forall|i: int|
            0 <= i < v->Array_0.len() && (#[trigger] v->Array_0[i]).member("token"@) == Some(
                JsonView::Str(token),
            ) ==> v->Array_0[i].member("app_name"@) == Some(JsonView::Str(tokens[token])),
        forall|i: int, j: int|
            0 <= i < j < v->Array_0.len() ==> (#[trigger] v->Array_0[i]).member("token"@) != (
            #[trigger] v->Array_0[j]).member("token"@),
{
    lemma_names_differ();
    let list = choose|list: Seq<TokenEntryView>|
        tokens_distinct(list) && token_table(list) == tokens && v == #[trigger] tokens_json(list);
    let shown = v->Array_0;
    assert forall|i: int| 0 <= i < shown.len() && (#[trigger] shown[i]).member("token"@) == Some(
        JsonView::Str(token),
    ) implies shown[i].member("app_name"@) == Some(JsonView::Str(tokens[token]))
        && tokens.contains_key(token) by {
        assert(shown[i] == token_json(list[i]));
        assert(list[i].token == token);
        law_token_list(list, i, token);
    }
    if tokens.contains_key(token) {
        if forall|j: int| 0 <= j < list.len() ==> (#[trigger] list[j]).token != token {
            law_token_list(list, 0, token);
        }
        let i = choose|i: int| 0 <= i < list.len() && (#[trigger] list[i]).token == token;
        assert(shown[i] == token_json(list[i]));
        assert(shown[i].member("token"@) == Some(JsonView::Str(token)));
    }
}

/// The backend that a request asks for has the request's name and URL; it is of the
/// kind llama.cpp if the request says so and of the kind Ollama else, and has the
/// request's priority or the one that is given.
pub proof fn law_requested_backend(r: BackendRequest, default_priority: i32)
    ensures
        ({
            let b = requested_backend(r, default_priority);
            &&& b.name == r.name@
            &&& b.url == r.url@
            &&& r.priority is Some ==> b.priority == r.priority->0
            &&& r.priority is None ==> b.priority == default_priority
            &&& b.backend_type == BackendType::Llamacpp <==> r.backend_type is Some
                && r.backend_type->0@ == "llamacpp"@
        }),
{
}

/// A backend is found by its name: at the first position that has it, and nowhere if
/// none does.
pub proof fn law_backend_found(backends: Seq<BackendConfigView>, name: Seq<char>)
    ensures
        0 <= index_named(backends, name) <= backends.len(),
        index_named(backends, name) < backends.len() ==> backends[index_named(
            backends,
            name,
        )].name == name,
        forall|k: int|
            0 <= k < index_named(backends, name) ==> (#[trigger] backends[k]).name != name,
    decreases backends.len(),
{
    if backends.len() > 0 && backends[0].name != name {
        let rest = backends.skip(1);
        law_backend_found(rest, name);
        assert forall|k: int| 0 <= k < index_named(backends, name) implies (
        #[trigger] backends[k]).name != name by {
            if k > 0 {
                assert(rest[k - 1] == backends[k]);
            }
        }
    }
}

/// The message on a backend names it.
pub proof fn law_backend_message(name: Seq<char>, what: Seq<char>)
    ensures
        backend_message(name, what) == "Backend '"@ + (name + what),
{
    assert(backend_message(name, what) =~= "Backend '"@ + (name + what));
}

/// A backend is shown with its own settings, and with the health and the number of
/// models of the first backend of its name in the registry; one that the registry does
/// not know is shown as not healthy and without models.
pub proof fn law_backend_shown(b: BackendConfigView, registry: Seq<BackendView>, i: int)
    requires
        0 <= i <= registry.len(),
        forall|k: int| 0 <= k < i ==> (#[trigger] registry[k]).config.name != b.name,
        i < registry.len() ==> registry[i].config.name == b.name,
    ensures
        ({
            let shown = backend_json(b, registry);
            &&& shown.member("name"@) == Some(JsonView::Str(b.name))
            &&& shown.member("url"@) == Some(JsonView::Str(b.url))
            &&& shown.member("priority"@) == Some(JsonView::Int(b.priority as int))
            &&& b.backend_type == BackendType::Ollama ==> shown.member("backend_type"@) == Some(
                JsonView::Str("ollama"@),
            )
            &&& b.backend_type == BackendType::Llamacpp ==> shown.member("backend_type"@) == Some(
                JsonView::Str("llamacpp"@),
            )
            &&& i < registry.len() ==> shown.member("healthy"@) == Some(
                JsonView::Bool(registry[i].healthy),
            ) && shown.member("model_count"@) == Some(
                JsonView::Int(registry[i].models.len() as int),
            )
            &&& i == registry.len() ==> shown.member("healthy"@) == Some(JsonView::Bool(false))
                && shown.member("model_count"@) == Some(JsonView::Int(0))
        }),
{
    lemma_names_differ();
    lemma_first_where(registry, |rb: BackendView| rb.config.name == b.name, i);
}

/// The models of backends are those of each, in the order of the backends.
pub proof fn law_models_of_all(backends: Seq<BackendView>)
    ensures
        models_of_all(backends) == backends.map_values(|b: BackendView| b.models).flatten(),
    decreases backends.len(),
{
    let f = |b: BackendView| b.models;
    if backends.len() > 0 {
        let rest = backends.drop_last();
        law_models_of_all(rest);
        rest.map_values(f).lemma_flatten_push(backends.last().models);
        assert(backends.map_values(f) =~= rest.map_values(f).push(backends.last().models));
    } else {
        assert(backends.map_values(f) =~= Seq::<Seq<Seq<char>>>::empty());
    }
}

/// A model is shown with its name and nothing else.
pub proof fn law_model_shown(name: Seq<char>, key: Seq<char>)
    ensures
        model_json(name).member("name"@) == Some(JsonView::Str(name)),
        key != "name"@ ==> model_json(name).member(key) is None,
{
}

/// A chat of the admin UI is sent under the path of the backend that gets it, that is,
/// the backend for the model that its body names.
pub proof fn law_chat_path(backends: Seq<BackendView>, body: JsonView, model: Option<Seq<char>>)
    requires
        match body.member("model"@) {
            Some(JsonView::Str(m)) => model == Some(m),
            _ => model is None,
        },
    ensures
        match backend_for(backends, model) {
            Some(b) => {
                &&& b.config.backend_type == BackendType::Llamacpp ==> chat_path(
                    backends,
                    Some(body),
                ) == "/v1/chat/completions"@
                &&& b.config.backend_type == BackendType::Ollama ==> chat_path(
                    backends,
                    Some(body),
                ) == "/api/chat"@
            },
            None => chat_path(backends, Some(body)) == "/api/chat"@,
        },
        match backend_for(backends, None) {
            Some(b) => chat_path(backends, None) == if b.config.backend_type
                == BackendType::Llamacpp {
                "/v1/chat/completions"@
            } else {
                "/api/chat"@
            },
            None => chat_path(backends, None) == "/api/chat"@,
        },
{
}

/// A processor is shown with its id, its description and its phase.
pub proof fn law_processor_shown<P: Processor>(p: P)
    ensures
        processor_json(p).member("id"@) == Some(JsonView::Str(p.id_text())),
        processor_json(p).member("description"@) == Some(JsonView::Str(p.description_text())),
        p.phase_value() == ProcessorPhase::Pre ==> processor_json(p).member("phase"@) == Some(
            JsonView::Str("pre"@),
        ),
        p.phase_value() == ProcessorPhase::Post ==> processor_json(p).member("phase"@) == Some(
            JsonView::Str("post"@),
        ),
        p.phase_value() == ProcessorPhase::Both ==> processor_json(p).member("phase"@) == Some(
            JsonView::Str("both"@),
        ),
{
    lemma_names_differ();
}

/// A rule is shown as it is, with all its processors in order.
pub proof fn law_rule_shown(rule: ProcessorRuleView, i: int)
    ensures
        ({
            let shown = rule_json(rule);
            let pre = shown.member("preprocessors"@);
            let post = shown.member("postprocessors"@);
            &&& shown.member("model_pattern"@) == Some(JsonView::Str(rule.model_pattern))
            &&& shown.member("backend_name"@) == Some(JsonView::Str(rule.backend_name))
            &&& pre is Some && pre->0 is Array && pre->0->Array_0.len() == rule.preprocessors.len()
            &&& 0 <= i < rule.preprocessors.len() ==> pre->0->Array_0[i] == JsonView::Str(
                rule.preprocessors[i],
            )
            &&& post is Some && post->0 is Array && post->0->Array_0.len()
                == rule.postprocessors.len()
            &&& 0 <= i < rule.postprocessors.len() ==> post->0->Array_0[i] == JsonView::Str(
                rule.postprocessors[i],
            )
        }),
{
    lemma_names_differ();
}

/// An error is reported with its status, and with its message and nothing else.
pub proof fn law_admin_errors(r: Reply, status: u16, message: Seq<char>, key: Seq<char>)
    requires
        is_error(r, status, message),
    ensures
        r.status == status,
        r.body@.member("error"@) == Some(JsonView::Str(message)),
        key != "error"@ ==> r.body@.member(key) is None,
{
}

/// What is done with the collector: one that is running is flushed; then there is a new
/// one if the settings enable it, and none if not.
pub proof fn law_collector_plan(running: bool, enabled: bool)
    ensures
        ({
            let plan = collector_plan(running, enabled);
            &&& plan.len() == if running {
                2int
            } else {
                1int
            }
            &&& running ==> plan[0] == CollectorAction::Flush
            &&& enabled ==> plan.last() == CollectorAction::Start
            &&& !enabled ==> plan.last() == CollectorAction::Clear
        }),
{
}

} // verus!
