//! Configuration of the gateway.

use vstd::prelude::*;
use vstd::utf8::is_ascii_chars;

use crate::seqs::{distinct, lemma_distinct, lemma_distinct_push, opt_view, views};
use crate::text::{
    ascii_lower, begins_with, chars_of, lowercase, lowercase_text, text_eq,
};

verus! {

/// What kind of server a backend is.
#[derive(Clone, Copy, Debug, PartialEq, Eq, Structural)]
pub enum BackendType {
    Ollama,
    Llamacpp,
}

impl Default for BackendType {
    fn default() -> (r: Self)
        ensures
            r == BackendType::Ollama,
    {
        BackendType::Ollama
    }
}

/// Single-backend settings of old configuration files; `Config::normalize`
/// turns them into a backend.
#[derive(Debug)]
pub struct OllamaConfig {
    pub upstream_url: String,
    pub backend_type: BackendType,
}

/// The model of `OllamaConfig`.
pub struct OllamaConfigView {
    pub upstream_url: Seq<char>,
    pub backend_type: BackendType,
}

impl View for OllamaConfig {
    type V = OllamaConfigView;

    open spec fn view(&self) -> OllamaConfigView {
        OllamaConfigView { upstream_url: self.upstream_url@, backend_type: self.backend_type }
    }
}

impl Clone for OllamaConfig {
    fn clone(&self) -> (r: Self)
        ensures
            r@ == self@,
    {
        OllamaConfig {
            upstream_url: self.upstream_url.clone(),
            backend_type: self.backend_type,
        }
    }
}

/// A server to which requests are sent.
#[derive(Debug)]
pub struct BackendConfig {
    pub name: String,
    pub url: String,
    pub backend_type: BackendType,
    pub priority: i32,
}

/// The model of `BackendConfig`.
pub struct BackendConfigView {
    pub name: Seq<char>,
    pub url: Seq<char>,
    pub backend_type: BackendType,
    pub priority: i32,
}

impl View for BackendConfig {
    type V = BackendConfigView;

    open spec fn view(&self) -> BackendConfigView {
        BackendConfigView {
            name: self.name@,
            url: self.url@,
            backend_type: self.backend_type,
            priority: self.priority,
        }
    }
}

impl Clone for BackendConfig {
    fn clone(&self) -> (r: Self)
        ensures
            r@ == self@,
    {
        BackendConfig {
            name: self.name.clone(),
            url: self.url.clone(),
            backend_type: self.backend_type,
            priority: self.priority,
        }
    }
}

/// A rule that assigns pre/post processors to a (model_pattern, backend) pair.
#[derive(Debug)]
pub struct ProcessorRule {
    /// Glob-style pattern matched against the model name (e.g. `"gemma4*"`, `"*"`).
    pub model_pattern: String,
    /// Backend name to match, or empty string to match all backends.
    pub backend_name: String,
    /// Processor IDs to run before sending the request upstream.
    pub preprocessors: Vec<String>,
    /// Processor IDs to run on the response before returning to the client.
    pub postprocessors: Vec<String>,
}

/// The model of `ProcessorRule`.
pub struct ProcessorRuleView {
    pub model_pattern: Seq<char>,
    pub backend_name: Seq<char>,
    pub preprocessors: Seq<Seq<char>>,
    pub postprocessors: Seq<Seq<char>>,
}

impl View for ProcessorRule {
    type V = ProcessorRuleView;

    open spec fn view(&self) -> ProcessorRuleView {
        ProcessorRuleView {
            model_pattern: self.model_pattern@,
            backend_name: self.backend_name@,
            preprocessors: views(self.preprocessors@),
            postprocessors: views(self.postprocessors@),
        }
    }
}

impl Clone for ProcessorRule {
    fn clone(&self) -> (r: Self)
        ensures
            r@ == self@,
    {
        let r = ProcessorRule {
            model_pattern: self.model_pattern.clone(),
            backend_name: self.backend_name.clone(),
            preprocessors: self.preprocessors.clone(),
            postprocessors: self.postprocessors.clone(),
        };
        assert(views(r.preprocessors@) =~= views(self.preprocessors@));
        assert(views(r.postprocessors@) =~= views(self.postprocessors@));
        r
    }
}

/// Settings of Langfuse tracing.
#[derive(Debug)]
pub struct LangfuseConfig {
    pub enabled: bool,
    pub host: String,
    pub public_key: String,
    pub secret_key: String,
    pub batch_size: usize,
    pub flush_interval_ms: u64,
}

/// The model of `LangfuseConfig`.
pub struct LangfuseConfigView {
    pub enabled: bool,
    pub host: Seq<char>,
    pub public_key: Seq<char>,
    pub secret_key: Seq<char>,
    pub batch_size: usize,
    pub flush_interval_ms: u64,
}

impl View for LangfuseConfig {
    type V = LangfuseConfigView;

    open spec fn view(&self) -> LangfuseConfigView {
        LangfuseConfigView {
            enabled: self.enabled,
            host: self.host@,
            public_key: self.public_key@,
            secret_key: self.secret_key@,
            batch_size: self.batch_size,
            flush_interval_ms: self.flush_interval_ms,
        }
    }
}

impl Clone for LangfuseConfig {
    fn clone(&self) -> (r: Self)
        ensures
            r@ == self@,
    {
        LangfuseConfig {
            enabled: self.enabled,
            host: self.host.clone(),
            public_key: self.public_key.clone(),
            secret_key: self.secret_key.clone(),
            batch_size: self.batch_size,
            flush_interval_ms: self.flush_interval_ms,
        }
    }
}

/// A bearer token and the application that it stands for.
#[derive(Debug)]
pub struct TokenEntry {
    pub token: String,
    pub app_name: String,
}

/// The model of `TokenEntry`.
pub struct TokenEntryView {
    pub token: Seq<char>,
    pub app_name: Seq<char>,
}

impl View for TokenEntry {
    type V = TokenEntryView;

    open spec fn view(&self) -> TokenEntryView {
        TokenEntryView { token: self.token@, app_name: self.app_name@ }
    }
}

impl Clone for TokenEntry {
    fn clone(&self) -> (r: Self)
        ensures
            r@ == self@,
    {
        TokenEntry { token: self.token.clone(), app_name: self.app_name.clone() }
    }
}

/// Addresses and intervals of the gateway itself.
#[derive(Debug)]
pub struct ServerConfig {
    pub listen_addr: String,
    pub listen_port: u16,
    pub admin_port: u16,
    pub privacy_mode: bool,
    pub model_refresh_interval_secs: u64,
}

/// The model of `ServerConfig`.
pub struct ServerConfigView {
    pub listen_addr: Seq<char>,
    pub listen_port: u16,
    pub admin_port: u16,
    pub privacy_mode: bool,
    pub model_refresh_interval_secs: u64,
}

impl View for ServerConfig {
    type V = ServerConfigView;

    open spec fn view(&self) -> ServerConfigView {
        ServerConfigView {
            listen_addr: self.listen_addr@,
            listen_port: self.listen_port,
            admin_port: self.admin_port,
            privacy_mode: self.privacy_mode,
            model_refresh_interval_secs: self.model_refresh_interval_secs,
        }
    }
}

impl Clone for ServerConfig {
    fn clone(&self) -> (r: Self)
        ensures
            r@ == self@,
    {
        ServerConfig {
            listen_addr: self.listen_addr.clone(),
            listen_port: self.listen_port,
            admin_port: self.admin_port,
            privacy_mode: self.privacy_mode,
            model_refresh_interval_secs: self.model_refresh_interval_secs,
        }
    }
}

/// The whole configuration.
#[derive(Debug)]
pub struct Config {
    /// Single-backend settings, turned into `backends` on load.
    pub ollama: Option<OllamaConfig>,
    pub backends: Vec<BackendConfig>,
    pub langfuse: LangfuseConfig,
    pub tokens: Vec<TokenEntry>,
    pub server: ServerConfig,
    pub processor_rules: Vec<ProcessorRule>,
}

/// The model of `Config`.
pub struct ConfigView {
    pub ollama: Option<OllamaConfigView>,
    pub backends: Seq<BackendConfigView>,
    pub langfuse: LangfuseConfigView,
    pub tokens: Seq<TokenEntryView>,
    pub server: ServerConfigView,
    pub processor_rules: Seq<ProcessorRuleView>,
}

impl View for Config {
    type V = ConfigView;

    open spec fn view(&self) -> ConfigView {
        ConfigView {
            ollama: opt_view(self.ollama),
            backends: views(self.backends@),
            langfuse: self.langfuse@,
            tokens: views(self.tokens@),
            server: self.server@,
            processor_rules: views(self.processor_rules@),
        }
    }
}

impl Clone for Config {
    fn clone(&self) -> (r: Self)
        ensures
            r@ == self@,
    {
        let r = Config {
            ollama: match &self.ollama {
                Some(o) => Some(o.clone()),
                None => None,
            },
            backends: self.backends.clone(),
            langfuse: self.langfuse.clone(),
            tokens: self.tokens.clone(),
            server: self.server.clone(),
            processor_rules: self.processor_rules.clone(),
        };
        assert(views(r.backends@) =~= views(self.backends@));
        assert(views(r.tokens@) =~= views(self.tokens@));
        assert(views(r.processor_rules@) =~= views(self.processor_rules@));
        r
    }
}

// ---------------------------------------------------------------------
// Defaults

/// Events per Langfuse batch.
pub fn default_batch_size() -> (n: usize)
    ensures
        n == 10,
{
    10
}

/// Milliseconds between Langfuse flushes.
pub fn default_flush_interval_ms() -> (n: u64)
    ensures
        n == 10000,
{
    10000
}

/// The address on which the gateway listens.
pub fn default_listen_addr() -> (s: String)
    ensures
        s@ == "0.0.0.0"@,
{
    "0.0.0.0".to_owned()
}

/// The port of the proxy.
pub fn default_listen_port() -> (n: u16)
    ensures
        n == 8080,
{
    8080
}

/// The port of the admin UI.
pub fn default_admin_port() -> (n: u16)
    ensures
        n == 8081,
{
    8081
}

/// Seconds between refreshes of the model registry.
pub fn default_model_refresh_interval_secs() -> (n: u64)
    ensures
        n == 60,
{
    60
}

/// The configuration of a gateway that has not been configured.
pub open spec fn default_config() -> ConfigView {
    ConfigView {
        ollama: None,
        backends: seq![
            BackendConfigView {
                name: "default"@,
                url: "http://localhost:11434"@,
                backend_type: BackendType::Ollama,
                priority: 0,
            },
        ],
        langfuse: LangfuseConfigView {
            enabled: false,
            host: "https://cloud.langfuse.com"@,
            public_key: Seq::empty(),
            secret_key: Seq::empty(),
            batch_size: 10,
            flush_interval_ms: 10000,
        },
        tokens: Seq::empty(),
        server: ServerConfigView {
            listen_addr: "0.0.0.0"@,
            listen_port: 8080,
            admin_port: 8081,
            privacy_mode: false,
            model_refresh_interval_secs: 60,
        },
        processor_rules: Seq::empty(),
    }
}

impl Default for Config {
    fn default() -> (r: Self)
        ensures
            r@ == default_config(),
    {
        let mut backends: Vec<BackendConfig> = Vec::new();
        backends.push(
            BackendConfig {
                name: "default".to_owned(),
                url: "http://localhost:11434".to_owned(),
                backend_type: BackendType::default(),
                priority: 0,
            },
        );
        let r = Config {
            ollama: None,
            backends,
            langfuse: LangfuseConfig {
                enabled: false,
                host: "https://cloud.langfuse.com".to_owned(),
                public_key: String::new(),
                secret_key: String::new(),
                batch_size: default_batch_size(),
                flush_interval_ms: default_flush_interval_ms(),
            },
            tokens: Vec::new(),
            server: ServerConfig {
                listen_addr: default_listen_addr(),
                listen_port: default_listen_port(),
                admin_port: default_admin_port(),
                privacy_mode: false,
                model_refresh_interval_secs: default_model_refresh_interval_secs(),
            },
            processor_rules: Vec::new(),
        };
        assert(views(r.backends@) =~= default_config().backends);
        assert(views(r.tokens@) =~= Seq::<TokenEntryView>::empty());
        assert(views(r.processor_rules@) =~= Seq::<ProcessorRuleView>::empty());
        r
    }
}

// ---------------------------------------------------------------------
// Old configuration files

/// The configuration with its single-backend settings, if it has no other
/// backend, turned into a backend named `default`.
pub open spec fn normalized(c: ConfigView) -> ConfigView {
    if c.backends.len() == 0 && c.ollama is Some {
        ConfigView {
            backends: seq![
                BackendConfigView {
                    name: "default"@,
                    url: c.ollama->0.upstream_url,
                    backend_type: c.ollama->0.backend_type,
                    priority: 0,
                },
            ],
            ..c
        }
    } else {
        c
    }
}

/// Normalizing twice is normalizing once.
pub proof fn law_normalize_idempotent(c: ConfigView)
    ensures
        normalized(normalized(c)) == normalized(c),
{
}

impl Config {
    /// Turns single-backend settings into `backends` if needed.
    pub fn normalize(&mut self)
        ensures
            final(self)@ == normalized(old(self)@),
    {
        if self.backends.len() == 0 {
            if let Some(ollama) = &self.ollama {
                let backend = BackendConfig {
                    name: "default".to_owned(),
                    url: ollama.upstream_url.clone(),
                    backend_type: ollama.backend_type,
                    priority: 0,
                };
                self.backends.push(backend);
                assert(views(self.backends@) =~= normalized(old(self)@).backends);
            }
        }
    }
}

// ---------------------------------------------------------------------
// Patterns

/// `text` matches `pattern`: `*` stands for any run of characters, `?` for
/// one character, anything else for itself.
pub open spec fn glob(pattern: Seq<char>, text: Seq<char>) -> bool
    decreases pattern.len(),
{
    if pattern.len() == 0 {
        text.len() == 0
    } else {
        let rest = pattern.drop_last();
        if pattern.last() == '*' {
            exists|k: int| 0 <= k <= text.len() && glob(rest, #[trigger] text.take(k))
        } else {
            &&& text.len() > 0
            &&& pattern.last() == '?' || pattern.last() == text.last()
            &&& glob(rest, text.drop_last())
        }
    }
}

/// A star either stands for nothing or takes up the last character.
proof fn lemma_glob_star(pattern: Seq<char>, text: Seq<char>)
    requires
        pattern.len() > 0,
        pattern.last() == '*',
    ensures
        glob(pattern, text) <==> glob(pattern.drop_last(), text) || (text.len() > 0 && glob(
            pattern,
            text.drop_last(),
        )),
{
    let rest = pattern.drop_last();
    if glob(pattern, text) {
        let k = choose|k: int| 0 <= k <= text.len() && glob(rest, #[trigger] text.take(k));
        if k == text.len() {
            assert(text.take(k) =~= text);
        } else {
            assert(text.drop_last().take(k) =~= text.take(k));
        }
    }
    if glob(rest, text) {
        assert(text.take(text.len() as int) =~= text);
    }
    if text.len() > 0 && glob(pattern, text.drop_last()) {
        let k = choose|k: int|
            0 <= k <= text.drop_last().len() && glob(rest, #[trigger] text.drop_last().take(k));
        assert(text.take(k) =~= text.drop_last().take(k));
    }
}

/// Whether `text` matches `pattern`, letter for letter.
pub fn glob_chars(pattern: &Vec<char>, text: &Vec<char>) -> (r: bool)
    ensures
        r == glob(pattern@, text@),
{
    // row[j] tells whether the first j characters of the text match the
    // part of the pattern that has been read.
    let mut row: Vec<bool> = Vec::new();
    row.push(true);
    assert(pattern@.take(0) =~= Seq::<char>::empty());
    let mut j: usize = 0;
    while j < text.len()
        invariant
            j <= text@.len(),
            row@.len() == j + 1,
            forall|k: int|
                0 <= k <= j ==> #[trigger] row@[k] == glob(pattern@.take(0), text@.take(k)),
            pattern@.take(0) == Seq::<char>::empty(),
        decreases text.len() - j,
    {
        row.push(false);
        j += 1;
    }
    let mut i: usize = 0;
    while i < pattern.len()
        invariant
            i <= pattern@.len(),
            row@.len() == text@.len() + 1,
            forall|k: int|
                0 <= k <= text@.len() ==> #[trigger] row@[k] == glob(
                    pattern@.take(i as int),
                    text@.take(k),
                ),
        decreases pattern.len() - i,
    {
        let c = pattern[i];
        let ghost part = pattern@.take(i + 1);
        assert(part.drop_last() =~= pattern@.take(i as int));
        let mut next: Vec<bool> = Vec::new();
        next.push(if c == '*' {
            row[0]
        } else {
            false
        });
        proof {
            if c == '*' {
                lemma_glob_star(part, text@.take(0));
            }
        }
        let mut j: usize = 0;
        while j < text.len()
            invariant
                i < pattern@.len(),
                c == pattern@[i as int],
                part == pattern@.take(i + 1),
                part.drop_last() == pattern@.take(i as int),
                j <= text@.len(),
                row@.len() == text@.len() + 1,
                next@.len() == j + 1,
                forall|k: int|
                    0 <= k <= text@.len() ==> #[trigger] row@[k] == glob(
                        pattern@.take(i as int),
                        text@.take(k),
                    ),
                forall|k: int| 0 <= k <= j ==> #[trigger] next@[k] == glob(part, text@.take(k)),
            decreases text.len() - j,
        {
            let ghost t = text@.take(j + 1);
            assert(t.drop_last() =~= text@.take(j as int));
            proof {
                if c == '*' {
                    lemma_glob_star(part, t);
                }
            }
            let hit = if c == '*' {
                row[j + 1] || next[j]
            } else if c == '?' || c == text[j] {
                row[j]
            } else {
                false
            };
            assert(hit == glob(part, t));
            next.push(hit);
            j += 1;
        }
        row = next;
        i += 1;
    }
    assert(pattern@.take(pattern@.len() as int) =~= pattern@);
    assert(text@.take(text@.len() as int) =~= text@);
    row[text.len()]
}

/// Simple glob matching: supports `*` as wildcard for any sequence of
/// characters, and takes no notice of upper and lower case.
pub fn glob_match(pattern: &str, text: &str) -> (r: bool)
    ensures
        r == glob(lowercase(pattern@), lowercase(text@)),
        is_ascii_chars(pattern@) && is_ascii_chars(text@) ==> r == glob(
            pattern@.map_values(|c: char| ascii_lower(c)),
            text@.map_values(|c: char| ascii_lower(c)),
        ),
{
    let pat = lowercase_text(pattern);
    let txt = lowercase_text(text);
    glob_chars(&chars_of(pat.as_str()), &chars_of(txt.as_str()))
}

/// A lone `*` matches every text.
pub proof fn law_star_matches_all(text: Seq<char>)
    ensures
        glob(seq!['*'], text),
{
    let pattern = seq!['*'];
    assert(pattern.drop_last() =~= Seq::<char>::empty());
    assert(text.take(0) =~= Seq::<char>::empty());
    assert(glob(pattern.drop_last(), text.take(0)));
}

/// A pattern without wildcards matches itself and nothing else.
pub proof fn law_plain_pattern(pattern: Seq<char>, text: Seq<char>)
    requires
        !pattern.contains('*'),
        !pattern.contains('?'),
    ensures
        glob(pattern, text) <==> pattern == text,
    decreases pattern.len(),
{
    if pattern.len() == 0 {
        if text.len() == 0 {
            assert(pattern =~= text);
        }
    } else {
        let rest = pattern.drop_last();
        assert(pattern.contains(pattern.last()));
        assert forall|c: char| rest.contains(c) implies pattern.contains(c) by {
            let i = choose|i: int| 0 <= i < rest.len() && rest[i] == c;
            assert(pattern[i] == c);
        }
        if text.len() > 0 {
            law_plain_pattern(rest, text.drop_last());
            if glob(pattern, text) {
                assert(rest.push(pattern.last()) =~= pattern);
                assert(text.drop_last().push(text.last()) =~= text);
            }
        }
    }
}

/// A plain text followed by `*` matches what begins with the text.
pub proof fn law_prefix_pattern(prefix: Seq<char>, text: Seq<char>)
    requires
        !prefix.contains('*'),
        !prefix.contains('?'),
    ensures
        glob(prefix.push('*'), text) <==> begins_with(text, prefix),
{
    let pattern = prefix.push('*');
    assert(pattern.drop_last() =~= prefix);
    if glob(pattern, text) {
        let k = choose|k: int| 0 <= k <= text.len() && glob(prefix, #[trigger] text.take(k));
        law_plain_pattern(prefix, text.take(k));
        assert(text.subrange(0, prefix.len() as int) =~= prefix);
    }
    if begins_with(text, prefix) {
        let k = prefix.len() as int;
        assert(text.take(k) =~= text.subrange(0, k));
        law_plain_pattern(prefix, text.take(k));
        assert(glob(prefix, text.take(k)));
    }
}

// ---------------------------------------------------------------------
// Processor rules

/// A rule applies to a model on a backend.
pub open spec fn rule_applies(
    rule: ProcessorRuleView,
    model: Seq<char>,
    backend_name: Seq<char>,
) -> bool {
    &&& rule.backend_name.len() == 0 || rule.backend_name == backend_name
    &&& glob(lowercase(rule.model_pattern), lowercase(model))
}

/// The preprocessors of the rules that apply, one rule after the other.
pub open spec fn listed_pre(
    rules: Seq<ProcessorRuleView>,
    model: Seq<char>,
    backend_name: Seq<char>,
) -> Seq<Seq<char>>
    decreases rules.len(),
{
    if rules.len() == 0 {
        Seq::empty()
    } else {
        let before = listed_pre(rules.drop_last(), model, backend_name);
        if rule_applies(rules.last(), model, backend_name) {
            before + rules.last().preprocessors
        } else {
            before
        }
    }
}

/// The postprocessors of the rules that apply, one rule after the other.
pub open spec fn listed_post(
    rules: Seq<ProcessorRuleView>,
    model: Seq<char>,
    backend_name: Seq<char>,
) -> Seq<Seq<char>>
    decreases rules.len(),
{
    if rules.len() == 0 {
        Seq::empty()
    } else {
        let before = listed_post(rules.drop_last(), model, backend_name);
        if rule_applies(rules.last(), model, backend_name) {
            before + rules.last().postprocessors
        } else {
            before
        }
    }
}

/// Whether `id` is among `ids`.
pub fn contains_id(ids: &Vec<String>, id: &str) -> (r: bool)
    ensures
        r == views(ids@).contains(id@),
{
    let mut i: usize = 0;
    while i < ids.len()
        invariant
            i <= ids@.len(),
            forall|k: int| 0 <= k < i ==> #[trigger] views(ids@)[k] != id@,
        decreases ids.len() - i,
    {
        if text_eq(ids[i].as_str(), id) {
            assert(views(ids@)[i as int] == id@);
            return true;
        }
        i += 1;
    }
    false
}

/// Appends the ids that are not there yet.
fn append_distinct(ids: &mut Vec<String>, more: &Vec<String>, listed: Ghost<Seq<Seq<char>>>)
    requires
        views(old(ids)@) == distinct(listed@),
    ensures
        views(final(ids)@) == distinct(listed@ + views(more@)),
{
    let mut i: usize = 0;
    assert(listed@ + views(more@).take(0) =~= listed@);
    while i < more.len()
        invariant
            i <= more@.len(),
            views(ids@) == distinct(listed@ + views(more@).take(i as int)),
        decreases more.len() - i,
    {
        let ghost seen = listed@ + views(more@).take(i as int);
        let ghost before = ids@;
        proof {
            lemma_distinct_push(seen, more@[i as int]@);
            assert(listed@ + views(more@).take(i + 1) =~= seen.push(more@[i as int]@));
        }
        if !contains_id(ids, more[i].as_str()) {
            ids.push(more[i].clone());
            assert(views(ids@) =~= views(before).push(more@[i as int]@));
        }
        i += 1;
    }
    assert(views(more@).take(more@.len() as int) =~= views(more@));
}

impl Config {
    /// Resolve all processor IDs that apply for a given model + backend pair:
    /// first those to run on the request, second those to run on the response.
    pub fn resolve_processors(rules: &[ProcessorRule], model: &str, backend_name: &str) -> (r: (
        Vec<String>,
        Vec<String>,
    ))
        ensures
            views(r.0@) == distinct(listed_pre(views(rules@), model@, backend_name@)),
            views(r.1@) == distinct(listed_post(views(rules@), model@, backend_name@)),
    {
        let mut pre: Vec<String> = Vec::new();
        let mut post: Vec<String> = Vec::new();
        let mut i: usize = 0;
        let ghost all = views(rules@);
        assert(all.take(0) =~= Seq::empty());
        assert(views(pre@) =~= distinct(listed_pre(all.take(0), model@, backend_name@)));
        assert(views(post@) =~= distinct(listed_post(all.take(0), model@, backend_name@)));
        while i < rules.len()
            invariant
                i <= rules@.len(),
                all == views(rules@),
                views(pre@) == distinct(listed_pre(all.take(i as int), model@, backend_name@)),
                views(post@) == distinct(listed_post(all.take(i as int), model@, backend_name@)),
            decreases rules.len() - i,
        {
            let rule = &rules[i];
            assert(all.take(i + 1).drop_last() =~= all.take(i as int));
            assert(all.take(i + 1).last() == rule@);
            let backend_matches = rule.backend_name.as_str().is_empty() || text_eq(
                rule.backend_name.as_str(),
                backend_name,
            );
            if backend_matches && glob_match(rule.model_pattern.as_str(), model) {
                append_distinct(
                    &mut pre,
                    &rule.preprocessors,
                    Ghost(listed_pre(all.take(i as int), model@, backend_name@)),
                );
                append_distinct(
                    &mut post,
                    &rule.postprocessors,
                    Ghost(listed_post(all.take(i as int), model@, backend_name@)),
                );
            }
            i += 1;
        }
        assert(all.take(rules@.len() as int) =~= all);
        (pre, post)
    }
}

/// The ids are listed by the rules that apply and by no other.
proof fn lemma_listed(
    rules: Seq<ProcessorRuleView>,
    model: Seq<char>,
    backend_name: Seq<char>,
    id: Seq<char>,
)
    ensures
        listed_pre(rules, model, backend_name).contains(id) <==> exists|i: int|
            0 <= i < rules.len() && rule_applies(#[trigger] rules[i], model, backend_name)
                && rules[i].preprocessors.contains(id),
        listed_post(rules, model, backend_name).contains(id) <==> exists|i: int|
            0 <= i < rules.len() && rule_applies(#[trigger] rules[i], model, backend_name)
                && rules[i].postprocessors.contains(id),
    decreases rules.len(),
{
    broadcast use vstd::seq_lib::group_seq_properties;

    if rules.len() > 0 {
        let rest = rules.drop_last();
        lemma_listed(rest, model, backend_name, id);
        let n = rules.len() - 1;
        assert(rules[n] == rules.last());
        assert forall|i: int| 0 <= i < rest.len() implies #[trigger] rest[i] == rules[i] by {}
        if listed_pre(rules, model, backend_name).contains(id) {
            if listed_pre(rest, model, backend_name).contains(id) {
                let i = choose|i: int|
                    0 <= i < rest.len() && rule_applies(#[trigger] rest[i], model, backend_name)
                        && rest[i].preprocessors.contains(id);
                assert(rule_applies(rules[i], model, backend_name));
            } else {
                assert(rule_applies(rules[n], model, backend_name));
            }
        }
        if listed_post(rules, model, backend_name).contains(id) {
            if listed_post(rest, model, backend_name).contains(id) {
                let i = choose|i: int|
                    0 <= i < rest.len() && rule_applies(#[trigger] rest[i], model, backend_name)
                        && rest[i].postprocessors.contains(id);
                assert(rule_applies(rules[i], model, backend_name));
            } else {
                assert(rule_applies(rules[n], model, backend_name));
            }
        }
        if exists|i: int|
            0 <= i < rules.len() && rule_applies(#[trigger] rules[i], model, backend_name)
                && rules[i].preprocessors.contains(id) {
            let i = choose|i: int|
                0 <= i < rules.len() && rule_applies(#[trigger] rules[i], model, backend_name)
                    && rules[i].preprocessors.contains(id);
            if i < n {
                assert(rule_applies(rest[i], model, backend_name));
            }
        }
        if exists|i: int|
            0 <= i < rules.len() && rule_applies(#[trigger] rules[i], model, backend_name)
                && rules[i].postprocessors.contains(id) {
            let i = choose|i: int|
                0 <= i < rules.len() && rule_applies(#[trigger] rules[i], model, backend_name)
                    && rules[i].postprocessors.contains(id);
            if i < n {
                assert(rule_applies(rest[i], model, backend_name));
            }
        }
    }
}

/// The processors that are resolved for a model and a backend are those that
/// some rule lists that applies to them, each of them once.
pub proof fn law_resolved_processors(
    rules: Seq<ProcessorRuleView>,
    model: Seq<char>,
    backend_name: Seq<char>,
    id: Seq<char>,
)
    ensures
        distinct(listed_pre(rules, model, backend_name)).no_duplicates(),
        distinct(listed_post(rules, model, backend_name)).no_duplicates(),
        distinct(listed_pre(rules, model, backend_name)).contains(id) <==> exists|i: int|
            0 <= i < rules.len() && rule_applies(#[trigger] rules[i], model, backend_name)
                && rules[i].preprocessors.contains(id),
        distinct(listed_post(rules, model, backend_name)).contains(id) <==> exists|i: int|
            0 <= i < rules.len() && rule_applies(#[trigger] rules[i], model, backend_name)
                && rules[i].postprocessors.contains(id),
{
    lemma_listed(rules, model, backend_name, id);
    lemma_distinct(listed_pre(rules, model, backend_name));
    lemma_distinct(listed_post(rules, model, backend_name));
}

/// A rule applies to a model on a backend if its pattern matches the model, whatever
/// the case of the letters, and it names that backend or none.
pub proof fn law_rule_applies(rule: ProcessorRuleView, model: Seq<char>, backend_name: Seq<char>)
    ensures
        rule_applies(rule, model, backend_name) <==> glob(
            lowercase(rule.model_pattern),
            lowercase(model),
        ) && (rule.backend_name == Seq::<char>::empty() || rule.backend_name == backend_name),
{
    if rule.backend_name.len() == 0 {
        assert(rule.backend_name =~= Seq::<char>::empty());
    }
}

/// The processors of rules come in the order of the rules: a rule that applies adds
/// its preprocessors and its postprocessors behind those before it, in their order,
/// and one that does not apply adds nothing.
pub proof fn law_rules_in_order(
    rules: Seq<ProcessorRuleView>,
    rule: ProcessorRuleView,
    model: Seq<char>,
    backend_name: Seq<char>,
)
    ensures
        ({
            let applies = glob(lowercase(rule.model_pattern), lowercase(model)) && (
            rule.backend_name == Seq::<char>::empty() || rule.backend_name == backend_name);
            &&& listed_pre(Seq::empty(), model, backend_name).len() == 0
            &&& listed_post(Seq::empty(), model, backend_name).len() == 0
            &&& listed_pre(rules.push(rule), model, backend_name) == listed_pre(
                rules,
                model,
                backend_name,
            ) + if applies {
                rule.preprocessors
            } else {
                Seq::empty()
            }
            &&& listed_post(rules.push(rule), model, backend_name) == listed_post(
                rules,
                model,
                backend_name,
            ) + if applies {
                rule.postprocessors
            } else {
                Seq::empty()
            }
        }),
{
    law_rule_applies(rule, model, backend_name);
    assert(rules.push(rule).drop_last() =~= rules);
    let pre = listed_pre(rules, model, backend_name);
    let post = listed_post(rules, model, backend_name);
    assert(pre + Seq::<Seq<char>>::empty() =~= pre);
    assert(post + Seq::<Seq<char>>::empty() =~= post);
}

/// A pattern matches piece by piece: a pattern that is followed by another matches a
/// text exactly if the text can be cut so that each of the two matches its part.
pub proof fn law_pattern_pieces(p: Seq<char>, q: Seq<char>, text: Seq<char>)
    ensures
        glob(p + q, text) <==> exists|k: int|
            0 <= k <= text.len() && glob(p, #[trigger] text.take(k)) && glob(q, text.skip(k)),
    decreases q.len(), text.len(),
{
    let all = p + q;
    if q.len() == 0 {
        assert(all =~= p);
        assert(text.take(text.len() as int) =~= text);
        if glob(all, text) {
            assert(glob(q, text.skip(text.len() as int)));
        }
        if exists|k: int|
            0 <= k <= text.len() && glob(p, #[trigger] text.take(k)) && glob(q, text.skip(k)) {
            let k = choose|k: int|
                0 <= k <= text.len() && glob(p, #[trigger] text.take(k)) && glob(q, text.skip(k));
            assert(k == text.len());
        }
    } else {
        let rest = q.drop_last();
        assert(all.drop_last() =~= p + rest);
        assert(all.last() == q.last());
        if q.last() == '*' {
            if glob(all, text) {
                let n = choose|n: int|
                    0 <= n <= text.len() && glob(all.drop_last(), #[trigger] text.take(n));
                let part = text.take(n);
                law_pattern_pieces(p, rest, part);
                let k = choose|k: int|
                    0 <= k <= part.len() && glob(p, #[trigger] part.take(k)) && glob(
                        rest,
                        part.skip(k),
                    );
                assert(part.take(k) =~= text.take(k));
                assert(text.skip(k).take(n - k) =~= part.skip(k));
                assert(glob(q, text.skip(k)));
                assert(glob(p, text.take(k)));
            }
            if exists|k: int|
                0 <= k <= text.len() && glob(p, #[trigger] text.take(k)) && glob(q, text.skip(k)) {
                let k = choose|k: int|
                    0 <= k <= text.len() && glob(p, #[trigger] text.take(k)) && glob(
                        q,
                        text.skip(k),
                    );
                let tail = text.skip(k);
                let m = choose|m: int| 0 <= m <= tail.len() && glob(rest, #[trigger] tail.take(m));
                let part = text.take(k + m);
                assert(part.take(k) =~= text.take(k));
                assert(part.skip(k) =~= tail.take(m));
                law_pattern_pieces(p, rest, part);
                assert(glob(all.drop_last(), text.take(k + m)));
            }
        } else {
            if text.len() > 0 {
                let short = text.drop_last();
                law_pattern_pieces(p, rest, short);
                if glob(all, text) {
                    let k = choose|k: int|
                        0 <= k <= short.len() && glob(p, #[trigger] short.take(k)) && glob(
                            rest,
                            short.skip(k),
                        );
                    assert(short.take(k) =~= text.take(k));
                    assert(text.skip(k).drop_last() =~= short.skip(k));
                    assert(text.skip(k).last() == text.last());
                    assert(glob(q, text.skip(k)));
                }
            }
            if exists|k: int|
                0 <= k <= text.len() && glob(p, #[trigger] text.take(k)) && glob(q, text.skip(k)) {
                let k = choose|k: int|
                    0 <= k <= text.len() && glob(p, #[trigger] text.take(k)) && glob(
                        q,
                        text.skip(k),
                    );
                let tail = text.skip(k);
                assert(tail.len() > 0);
                let short = text.drop_last();
                assert(short.take(k) =~= text.take(k));
                assert(short.skip(k) =~= tail.drop_last());
                assert(tail.last() == text.last());
                assert(glob(p, short.take(k)) && glob(rest, short.skip(k)));
            }
        }
    }
}

/// A question mark matches any one character and nothing else; an empty pattern
/// matches the empty text and nothing else.
pub proof fn law_single_wildcard(text: Seq<char>)
    ensures
        glob(seq!['?'], text) <==> text.len() == 1,
        glob(Seq::empty(), text) <==> text.len() == 0,
{
    let pattern = seq!['?'];
    assert(pattern.drop_last() =~= Seq::<char>::empty());
    if text.len() > 0 {
        assert(glob(pattern, text) <==> glob(Seq::<char>::empty(), text.drop_last()));
    }
}

/// Old settings become a backend named `default` where there is no other, with their
/// URL and kind and priority zero; backends that are there stay as they are, and
/// nothing else changes.
pub proof fn law_normalized(c: ConfigView)
    ensures
        c.backends.len() > 0 || c.ollama is None ==> normalized(c).backends == c.backends,
        c.backends.len() == 0 && c.ollama is Some ==> {
            let made = normalized(c).backends;
            &&& made.len() == 1
            &&& made[0].name == "default"@
            &&& made[0].url == c.ollama->0.upstream_url
            &&& made[0].backend_type == c.ollama->0.backend_type
            &&& made[0].priority == 0
        },
        normalized(c).ollama == c.ollama,
        normalized(c).langfuse == c.langfuse,
        normalized(c).tokens == c.tokens,
        normalized(c).server == c.server,
        normalized(c).processor_rules == c.processor_rules,
{
}

/// The configuration of a gateway that has not been configured: one local Ollama, no
/// tracing, no tokens and no rules.
pub proof fn law_defaults()
    ensures
        default_config().ollama is None,
        default_config().backends.len() == 1,
        default_config().backends[0].name == "default"@,
        default_config().backends[0].url == "http://localhost:11434"@,
        default_config().backends[0].backend_type == BackendType::Ollama,
        default_config().backends[0].priority == 0,
        !default_config().langfuse.enabled,
        default_config().langfuse.host == "https://cloud.langfuse.com"@,
        default_config().langfuse.public_key.len() == 0,
        default_config().langfuse.secret_key.len() == 0,
        default_config().langfuse.batch_size == 10,
        default_config().langfuse.flush_interval_ms == 10000,
        default_config().tokens.len() == 0,
        default_config().server.listen_addr == "0.0.0.0"@,
        default_config().server.listen_port == 8080,
        default_config().server.admin_port == 8081,
        !default_config().server.privacy_mode,
        default_config().server.model_refresh_interval_secs == 60,
        default_config().processor_rules.len() == 0,
{
}

/// The models of settings have all that the settings have.
pub proof fn law_settings_models(
    o: OllamaConfig,
    b: BackendConfig,
    rule: ProcessorRule,
    l: LangfuseConfig,
    t: TokenEntry,
    s: ServerConfig,
    c: Config,
)
    ensures
        o@.upstream_url == o.upstream_url@,
        o@.backend_type == o.backend_type,
        b@.name == b.name@,
        b@.url == b.url@,
        b@.backend_type == b.backend_type,
        b@.priority == b.priority,
        rule@.model_pattern == rule.model_pattern@,
        rule@.backend_name == rule.backend_name@,
        rule@.preprocessors == views(rule.preprocessors@),
        rule@.postprocessors == views(rule.postprocessors@),
        l@.enabled == l.enabled,
        l@.host == l.host@,
        l@.public_key == l.public_key@,
        l@.secret_key == l.secret_key@,
        l@.batch_size == l.batch_size,
        l@.flush_interval_ms == l.flush_interval_ms,
        t@.token == t.token@,
        t@.app_name == t.app_name@,
        s@.listen_addr == s.listen_addr@,
        s@.listen_port == s.listen_port,
        s@.admin_port == s.admin_port,
        s@.privacy_mode == s.privacy_mode,
        s@.model_refresh_interval_secs == s.model_refresh_interval_secs,
        c@.ollama == opt_view(c.ollama),
        c@.backends == views(c.backends@),
        c@.langfuse == c.langfuse@,
        c@.tokens == views(c.tokens@),
        c@.server == c.server@,
        c@.processor_rules == views(c.processor_rules@),
{
}

} // verus!
