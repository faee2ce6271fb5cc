use ollama_gateway::auth::{authenticate, shown_token, BearerToken};
use ollama_gateway::config::{
    default_batch_size, default_flush_interval_ms, default_listen_addr, default_listen_port,
    default_admin_port, default_model_refresh_interval_secs, glob_match, BackendConfig,
    BackendType, Config, LangfuseConfig, OllamaConfig, ProcessorRule, ServerConfig, TokenEntry,
};

fn text(t: &toml::Table, key: &str) -> String {
    t[key].as_str().unwrap().to_string()
}

fn backend_type(t: &toml::Table) -> BackendType {
    match t.get("backend_type").and_then(|v| v.as_str()) {
        Some("llamacpp") => BackendType::Llamacpp,
        _ => BackendType::Ollama,
    }
}

fn tables<'a>(t: &'a toml::Table, key: &str) -> Vec<&'a toml::Table> {
    match t.get(key).and_then(|v| v.as_array()) {
        Some(a) => a.iter().map(|v| v.as_table().unwrap()).collect(),
        None => vec![],
    }
}

fn load(content: &str) -> Config {
    let t: toml::Table = content.parse().unwrap();
    let langfuse = t["langfuse"].as_table().unwrap();
    let server = t["server"].as_table().unwrap();
    let int = |t: &toml::Table, key: &str| t.get(key).and_then(|v| v.as_integer());
    let mut config = Config {
        ollama: t.get("ollama").and_then(|v| v.as_table()).map(|o| OllamaConfig {
            upstream_url: text(o, "upstream_url"),
            backend_type: backend_type(o),
        }),
        backends: tables(&t, "backends")
            .iter()
            .map(|b| BackendConfig {
                name: text(b, "name"),
                url: text(b, "url"),
                backend_type: backend_type(b),
                priority: int(b, "priority").unwrap_or(0) as i32,
            })
            .collect(),
        langfuse: LangfuseConfig {
            enabled: langfuse["enabled"].as_bool().unwrap(),
            host: text(langfuse, "host"),
            public_key: text(langfuse, "public_key"),
            secret_key: text(langfuse, "secret_key"),
            batch_size: int(langfuse, "batch_size").map(|n| n as usize).unwrap_or(default_batch_size()),
            flush_interval_ms: int(langfuse, "flush_interval_ms")
                .map(|n| n as u64)
                .unwrap_or(default_flush_interval_ms()),
        },
        tokens: tables(&t, "tokens")
            .iter()
            .map(|e| TokenEntry { token: text(e, "token"), app_name: text(e, "app_name") })
            .collect(),
        server: ServerConfig {
            listen_addr: server
                .get("listen_addr")
                .map(|v| v.as_str().unwrap().to_string())
                .unwrap_or(default_listen_addr()),
            listen_port: int(server, "listen_port").map(|n| n as u16).unwrap_or(default_listen_port()),
            admin_port: int(server, "admin_port").map(|n| n as u16).unwrap_or(default_admin_port()),
            privacy_mode: false,
            model_refresh_interval_secs: int(server, "model_refresh_interval_secs")
                .map(|n| n as u64)
                .unwrap_or(default_model_refresh_interval_secs()),
        },
        processor_rules: vec![],
    };
    config.normalize();
    config
}

#[test]
fn test_parse_legacy_config() {
    let toml_content = r#"
[ollama]
upstream_url = "http://localhost:11434"

[langfuse]
enabled = true
host = "https://cloud.langfuse.com"
public_key = "pk-lf-test"
secret_key = "sk-lf-test"
batch_size = 5
flush_interval_ms = 1000

[[tokens]]
token = "sk-myapp-abc123"
app_name = "my-frontend-app"

[[tokens]]
token = "sk-backend-def456"
app_name = "backend-service"

[server]
listen_addr = "0.0.0.0"
listen_port = 8080
"#;
    let config = load(toml_content);

    assert_eq!(config.backends.len(), 1);
    assert_eq!(config.backends[0].url, "http://localhost:11434");
    assert_eq!(config.backends[0].name, "default");
    assert!(config.langfuse.enabled);
    assert_eq!(config.tokens.len(), 2);

    let map = config.token_map();
    assert_eq!(map.get("sk-myapp-abc123").unwrap(), "my-frontend-app");
    assert_eq!(map.get("sk-backend-def456").unwrap(), "backend-service");
    assert_eq!(config.backends[0].backend_type, BackendType::Ollama);
}

#[test]
fn test_parse_new_config() {
    let toml_content = r#"
[[backends]]
name = "local-ollama"
url = "http://localhost:11434"
backend_type = "ollama"
priority = 0

[[backends]]
name = "remote-gpu"
url = "http://gpu-server:8080"
backend_type = "llamacpp"
priority = 10

[langfuse]
enabled = false
host = "https://cloud.langfuse.com"
public_key = ""
secret_key = ""

[server]
listen_addr = "0.0.0.0"
listen_port = 8080
"#;
    let config = load(toml_content);

    assert_eq!(config.backends.len(), 2);
    assert_eq!(config.backends[0].name, "local-ollama");
    assert_eq!(config.backends[0].priority, 0);
    assert_eq!(config.backends[1].name, "remote-gpu");
    assert_eq!(config.backends[1].backend_type, BackendType::Llamacpp);
    assert_eq!(config.server.model_refresh_interval_secs, 60);
}

#[test]
fn test_glob_match() {
    assert!(glob_match("gemma4*", "gemma4:31b"));
    assert!(glob_match("gemma4*", "Gemma4-31B-IT"));
    assert!(glob_match("*gemma*", "nvidia/Gemma-4-31B-IT-NVFP4"));
    assert!(glob_match("*", "anything"));
    assert!(!glob_match("gemma4*", "llama3:8b"));
}

#[test]
fn glob_edges() {
    assert!(glob_match("", ""));
    assert!(!glob_match("", "a"));
    assert!(glob_match("*", ""));
    assert!(glob_match("**", ""));
    assert!(!glob_match("?", ""));
    assert!(glob_match("?", "x"));
    assert!(glob_match("a?c", "ABC"));
    assert!(!glob_match("a?c", "ac"));
    assert!(glob_match("*b*d", "abcd"));
    assert!(!glob_match("*b*d", "abdc"));
    assert!(glob_match("llama3:8b", "LLAMA3:8B"));
    assert!(!glob_match("llama3:8b", "llama3:8b-instruct"));
    assert!(glob_match("É*", "évian"));
}

fn rule(pattern: &str, backend: &str, pre: &[&str], post: &[&str]) -> ProcessorRule {
    ProcessorRule {
        model_pattern: pattern.to_string(),
        backend_name: backend.to_string(),
        preprocessors: pre.iter().map(|s| s.to_string()).collect(),
        postprocessors: post.iter().map(|s| s.to_string()).collect(),
    }
}

#[test]
fn test_resolve_processors() {
    let rules = vec![rule("*gemma*", "", &["gemma4-tool-call-fix"], &["gemma4-tool-call-fix"])];
    let (pre, post) = Config::resolve_processors(&rules, "nvidia/Gemma-4-31B-IT", "local");
    assert_eq!(pre, vec!["gemma4-tool-call-fix"]);
    assert_eq!(post, vec!["gemma4-tool-call-fix"]);

    let (pre, post) = Config::resolve_processors(&rules, "llama3:8b", "local");
    assert!(pre.is_empty());
    assert!(post.is_empty());
}

#[test]
fn processors_are_resolved_once_and_in_order() {
    let rules = vec![
        rule("*", "", &["a", "b"], &["x"]),
        rule("llama*", "gpu", &["c", "a"], &["y", "x"]),
        rule("llama*", "other", &["d"], &["z"]),
    ];
    let (pre, post) = Config::resolve_processors(&rules, "llama3", "gpu");
    assert_eq!(pre, vec!["a", "b", "c"]);
    assert_eq!(post, vec!["x", "y"]);
}

#[test]
fn defaults() {
    let config = Config::default();
    assert!(config.ollama.is_none());
    assert_eq!(config.backends.len(), 1);
    assert_eq!(config.backends[0].name, "default");
    assert_eq!(config.backends[0].url, "http://localhost:11434");
    assert_eq!(config.backends[0].backend_type, BackendType::Ollama);
    assert_eq!(config.backends[0].priority, 0);
    assert!(!config.langfuse.enabled);
    assert_eq!(config.langfuse.host, "https://cloud.langfuse.com");
    assert_eq!(config.langfuse.batch_size, 10);
    assert_eq!(config.langfuse.flush_interval_ms, 10000);
    assert_eq!(config.server.listen_addr, "0.0.0.0");
    assert_eq!(config.server.listen_port, 8080);
    assert_eq!(config.server.admin_port, 8081);
    assert!(!config.server.privacy_mode);
    assert_eq!(config.server.model_refresh_interval_secs, 60);
    assert!(config.tokens.is_empty());
    assert!(config.processor_rules.is_empty());
}

#[test]
fn normalizing_keeps_backends() {
    let mut config = Config::default();
    config.ollama = Some(OllamaConfig {
        upstream_url: "http://old:1".to_string(),
        backend_type: BackendType::Llamacpp,
    });
    config.normalize();
    assert_eq!(config.backends.len(), 1);
    assert_eq!(config.backends[0].url, "http://localhost:11434");
    config.backends.clear();
    config.normalize();
    config.normalize();
    assert_eq!(config.backends.len(), 1);
    assert_eq!(config.backends[0].url, "http://old:1");
    assert_eq!(config.backends[0].backend_type, BackendType::Llamacpp);
}

#[test]
fn the_later_entry_of_a_token_counts() {
    let mut config = Config::default();
    let entry = |token: &str, app: &str| TokenEntry { token: token.to_string(), app_name: app.to_string() };
    config.tokens = vec![entry("t", "one"), entry("u", "two"), entry("t", "three")];
    let mut map = config.token_map();
    assert_eq!(map.get("t").unwrap(), "three");
    assert_eq!(map.get("u").unwrap(), "two");
    assert!(map.get("v").is_none());
    assert_eq!(map.entries().len(), 2);
    map.insert("u".to_string(), "four".to_string());
    map.insert("v".to_string(), "five".to_string());
    assert_eq!(map.get("u").unwrap(), "four");
    assert_eq!(map.entries().len(), 3);
    map.remove("u");
    assert!(map.get("u").is_none());
    assert_eq!(map.get("v").unwrap(), "five");
    assert_eq!(map.entries().len(), 2);
}

#[test]
fn bearer_tokens() {
    let mut config = Config::default();
    config.tokens = vec![TokenEntry { token: "sk-1".to_string(), app_name: "app".to_string() }];
    let map = config.token_map();
    let ask = |header: Option<&str>| authenticate(header.map(|h| h.to_string()), &map);
    let (app, token) = ask(Some("Bearer sk-1")).unwrap();
    assert_eq!((app.0.as_str(), token.0.as_str()), ("app", "sk-1"));
    for header in [None, Some(""), Some("Bearer sk-2"), Some("bearer sk-1"), Some("Basic sk-1"), Some("Bearer  sk-1")] {
        let reply = ask(header).unwrap_err();
        assert_eq!(reply.status, 401);
        assert_eq!(
            reply.body.to_text().unwrap(),
            r#"{"error":{"message":"Invalid or missing Bearer token","type":"authentication_error"}}"#
        );
    }
}

#[test]
fn tokens_are_not_shown_in_privacy_mode() {
    let token = BearerToken("sk-1".to_string());
    assert_eq!(shown_token(Some(&token), false).unwrap(), "sk-1");
    assert!(shown_token(Some(&token), true).is_none());
    assert!(shown_token(None, false).is_none());
    assert!(shown_token(None, true).is_none());
}

#[test]
fn configurations_are_copied() {
    let mut config = Config::default();
    config.ollama = Some(OllamaConfig {
        upstream_url: "http://old".to_string(),
        backend_type: BackendType::Llamacpp,
    });
    config.tokens = vec![TokenEntry { token: "sk-1".to_string(), app_name: "app".to_string() }];
    let copy = config.clone();
    config.tokens.clear();
    assert_eq!(copy.ollama.unwrap().upstream_url, "http://old");
    assert_eq!(copy.tokens.len(), 1);
    assert_eq!(copy.tokens[0].app_name, "app");
    assert_eq!(copy.backends.len(), config.backends.len());
    assert_eq!(copy.langfuse.host, config.langfuse.host);
}
