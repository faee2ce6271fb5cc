use ollama_gateway::admin::{
    admin_chat, basic_auth, change_reply, collector_actions, credentials_match, get_models,
    get_processors, metrics_backend, metrics_range, parse_backend_type, refresh_reply,
    BackendRequest, CollectorAction, LangfuseUpdate,
};
use ollama_gateway::auth::authenticate;
use ollama_gateway::config::{BackendConfig, BackendType, Config, ProcessorRule};
use ollama_gateway::error::Reply;
use ollama_gateway::json::Json;
use ollama_gateway::processors::ProcessorRegistry;
use ollama_gateway::registry::ModelRegistry;
use ollama_gateway::state::{parse_port, port_or, AppState};

fn show(v: &Json) -> String {
    v.to_text().unwrap()
}

fn state() -> AppState {
    AppState::start(Config::default(), "secret".to_string())
}

fn request(name: &str, url: &str, kind: Option<&str>, priority: Option<i32>) -> BackendRequest {
    BackendRequest {
        name: name.to_string(),
        url: url.to_string(),
        backend_type: kind.map(|s| s.to_string()),
        priority,
    }
}

fn is_error(r: Result<(), Reply>, status: u16, message: &str) {
    let reply = r.unwrap_err();
    assert_eq!(reply.status, status);
    assert_eq!(show(&reply.body), format!(r#"{{"error":"{}"}}"#, message));
}

#[test]
fn administrators_are_admitted() {
    // admin:secret
    assert!(basic_auth(Some("Basic YWRtaW46c2VjcmV0".to_string()), "secret").is_ok());
    // admin:
    assert!(basic_auth(Some("Basic YWRtaW46".to_string()), "").is_ok());
    for header in [
        None,
        Some("Basic YWRtaW46"),
        Some("basic YWRtaW46c2VjcmV0"),
        Some("Basic YWRtaW46c2VjcmV0!"),
        Some("Basic //79"),
        Some("Bearer YWRtaW46c2VjcmV0"),
    ] {
        let c = basic_auth(header.map(|h| h.to_string()), "secret").unwrap_err();
        assert_eq!(c.www_authenticate, "Basic realm=\"Ollama Gateway Admin\"");
        assert_eq!(c.reply.status, 401);
        assert_eq!(show(&c.reply.body), r#"{"error":"Unauthorized"}"#);
    }
    assert!(credentials_match(Some(b"admin:x".to_vec()), "x"));
    assert!(!credentials_match(Some(b"root:x".to_vec()), "x"));
    assert!(!credentials_match(Some(b"\xff".to_vec()), "x"));
    assert!(!credentials_match(None, "x"));
}

#[test]
fn replies() {
    assert_eq!((change_reply(true).status, show(&change_reply(true).body).as_str()), (200, r#"{"status":"ok"}"#));
    let r = change_reply(false);
    assert_eq!((r.status, show(&r.body).as_str()), (500, r#"{"error":"Failed to persist configuration"}"#));
    assert_eq!(show(&refresh_reply().body), r#"{"message":"Registry refresh triggered","status":"ok"}"#);
    assert_eq!(metrics_range(None), "24h");
    assert_eq!(metrics_range(Some("1h".to_string())), "1h");
    assert_eq!(metrics_backend(Some(String::new())), None);
    assert_eq!(metrics_backend(Some("b".to_string())).unwrap(), "b");
    assert_eq!(metrics_backend(None), None);
}

#[test]
fn langfuse_settings() {
    let mut s = state();
    assert_eq!(
        show(&s.get_langfuse()),
        r#"{"batch_size":10,"enabled":false,"flush_interval_ms":10000,"host":"https://cloud.langfuse.com","public_key":"","secret_key":""}"#
    );
    let update = |batch_size: Option<usize>, flush_interval_ms: Option<u64>| LangfuseUpdate {
        enabled: true,
        host: "h".to_string(),
        public_key: "p".to_string(),
        secret_key: "s".to_string(),
        batch_size,
        flush_interval_ms,
    };
    s.put_langfuse(update(None, None).into_config());
    assert_eq!((s.langfuse_config.batch_size, s.langfuse_config.flush_interval_ms), (10, 5000));
    s.put_langfuse(update(Some(3), Some(4)).into_config());
    assert_eq!(
        show(&s.get_langfuse()),
        r#"{"batch_size":3,"enabled":true,"flush_interval_ms":4,"host":"h","public_key":"p","secret_key":"s"}"#
    );
}

#[test]
fn the_collector_follows_the_settings() {
    let config = |enabled: bool| LangfuseUpdate {
        enabled,
        host: "h".to_string(),
        public_key: "p".to_string(),
        secret_key: "s".to_string(),
        batch_size: None,
        flush_interval_ms: None,
    }
    .into_config();
    let flush = CollectorAction::Flush;
    assert_eq!(collector_actions(true, &config(true)), vec![flush, CollectorAction::Start]);
    assert_eq!(collector_actions(true, &config(false)), vec![flush, CollectorAction::Clear]);
    assert_eq!(collector_actions(false, &config(true)), vec![CollectorAction::Start]);
    assert_eq!(collector_actions(false, &config(false)), vec![CollectorAction::Clear]);
}

#[test]
fn tokens_are_added_and_deleted() {
    let mut s = state();
    assert_eq!(show(&s.get_tokens()), "[]");
    s.add_token("t".to_string(), "app".to_string());
    assert_eq!(show(&s.get_tokens()), r#"[{"app_name":"app","token":"t"}]"#);
    s.add_token("t".to_string(), "other".to_string());
    s.add_token("u".to_string(), "third".to_string());
    let ask = |s: &AppState, t: &str| authenticate(Some(format!("Bearer {}", t)), &s.token_map);
    assert_eq!(ask(&s, "t").unwrap().0.0, "other");
    s.delete_token("t");
    s.delete_token("nobody");
    assert!(ask(&s, "t").is_err());
    assert_eq!(ask(&s, "u").unwrap().0.0, "third");
}

#[test]
fn privacy_mode() {
    let mut s = state();
    assert_eq!(show(&s.get_config()), r#"{"model_refresh_interval_secs":60,"privacy_mode":false}"#);
    s.put_config(Some(true));
    assert_eq!(show(&s.get_config()), r#"{"model_refresh_interval_secs":60,"privacy_mode":true}"#);
    s.put_config(None);
    assert!(!s.privacy_mode);
}

#[test]
fn backends_are_changed() {
    let mut s = state();
    is_error(s.add_backend(request("default", "u", None, None)), 409, "Backend 'default' already exists");
    assert_eq!(s.backends.len(), 1);
    s.add_backend(request("gpu", "http://gpu", Some("llamacpp"), Some(5))).unwrap();
    s.add_backend(request("cpu", "http://cpu", Some("junk"), None)).unwrap();
    assert_eq!((s.backends[1].backend_type, s.backends[1].priority), (BackendType::Llamacpp, 5));
    assert_eq!((s.backends[2].backend_type, s.backends[2].priority), (BackendType::Ollama, 0));
    is_error(s.update_backend("nobody", request("a", "b", None, None)), 404, "Backend 'nobody' not found");
    s.update_backend("gpu", request("gpu2", "http://gpu2", None, None)).unwrap();
    assert_eq!((s.backends[1].name.as_str(), s.backends[1].url.as_str()), ("gpu2", "http://gpu2"));
    assert_eq!((s.backends[1].backend_type, s.backends[1].priority), (BackendType::Ollama, 5));
    // a rename may bring two backends of one name
    s.update_backend("gpu2", request("cpu", "http://x", None, Some(7))).unwrap();
    assert_eq!(s.backends.len(), 3);
    s.delete_backend("cpu").unwrap();
    assert_eq!(s.backends.len(), 1);
    is_error(s.delete_backend("cpu"), 404, "Backend 'cpu' not found");
    assert_eq!(parse_backend_type(&None), BackendType::Ollama);
}

fn backend(name: &str, kind: BackendType, priority: i32) -> BackendConfig {
    BackendConfig { name: name.to_string(), url: "http://x".to_string(), backend_type: kind, priority }
}

fn names(list: &[&str]) -> Option<Vec<String>> {
    Some(list.iter().map(|s| s.to_string()).collect())
}

#[test]
fn backends_and_models_are_listed() {
    let mut s = state();
    s.backends = vec![
        backend("a", BackendType::Llamacpp, -1),
        backend("b", BackendType::Ollama, 2),
        backend("c", BackendType::Ollama, 3),
    ];
    let registry = ModelRegistry::refresh(
        &[
            backend("a", BackendType::Llamacpp, -1),
            backend("b", BackendType::Ollama, 2),
            backend("d", BackendType::Ollama, 0),
        ],
        vec![(0, names(&["m", "n"])), (1, None), (2, names(&["n", "o"]))],
    );
    assert_eq!(
        show(&s.get_backends(&registry)),
        concat_json(&[
            r#"{"backend_type":"llamacpp","healthy":true,"model_count":2,"name":"a","priority":-1,"url":"http://x"}"#,
            r#"{"backend_type":"ollama","healthy":false,"model_count":0,"name":"b","priority":2,"url":"http://x"}"#,
            r#"{"backend_type":"ollama","healthy":false,"model_count":0,"name":"c","priority":3,"url":"http://x"}"#,
        ])
    );
    assert_eq!(show(&get_models(&registry)), r#"{"models":[{"name":"m"},{"name":"n"},{"name":"o"}]}"#);
    assert_eq!(admin_chat(&registry, br#"{"model":"m"}"#), "/v1/chat/completions");
    assert_eq!(admin_chat(&registry, br#"{"model":"o"}"#), "/api/chat");
    assert_eq!(admin_chat(&registry, b"nope"), "/v1/chat/completions");
    assert_eq!(admin_chat(&ModelRegistry::refresh(&[], vec![]), b"{}"), "/api/chat");
}

fn concat_json(items: &[&str]) -> String {
    format!("[{}]", items.join(","))
}

fn rule(pattern: &str) -> ProcessorRule {
    ProcessorRule {
        model_pattern: pattern.to_string(),
        backend_name: "b".to_string(),
        preprocessors: vec!["x".to_string()],
        postprocessors: vec![],
    }
}

#[test]
fn rules_are_changed() {
    let mut s = state();
    is_error(s.add_processor_rule(rule("")), 400, "model_pattern is required");
    s.add_processor_rule(rule("one")).unwrap();
    s.add_processor_rule(rule("two")).unwrap();
    is_error(s.update_processor_rule(2, rule("three")), 404, "Rule index out of range");
    s.update_processor_rule(0, rule("")).unwrap();
    assert_eq!(
        show(&s.get_processor_rules()),
        concat_json(&[
            r#"{"backend_name":"b","model_pattern":"","postprocessors":[],"preprocessors":["x"]}"#,
            r#"{"backend_name":"b","model_pattern":"two","postprocessors":[],"preprocessors":["x"]}"#,
        ])
    );
    s.delete_processor_rule(0).unwrap();
    assert_eq!(s.processor_rules[0].model_pattern, "two");
    is_error(s.delete_processor_rule(1), 404, "Rule index out of range");
    let shown = show(&get_processors(&ProcessorRegistry::new()));
    assert!(shown.contains(r#""id":"gemma4-tool-call-fix","phase":"both""#));
}

#[test]
fn saved_settings_are_restored() {
    let mut s = state();
    s.add_token("t".to_string(), "app".to_string());
    s.add_backend(request("gpu", "http://gpu", Some("llamacpp"), Some(5))).unwrap();
    s.put_config(Some(true));
    s.add_processor_rule(rule("one")).unwrap();
    let mut saved = s.snapshot();
    assert!(saved.ollama.is_none());
    saved.normalize();
    let back = AppState::start(saved, "secret".to_string());
    assert_eq!(back.token_map.get("t").unwrap(), "app");
    assert_eq!(back.backends.len(), 2);
    assert_eq!(back.backends[1].url, "http://gpu");
    assert!(back.privacy_mode && back.server_config.privacy_mode);
    assert_eq!(back.processor_rules[0].model_pattern, "one");
    assert_eq!(back.server_config.listen_port, 8080);
}

#[test]
fn ports() {
    assert_eq!(parse_port("8080"), Some(8080));
    assert_eq!(parse_port("+1"), Some(1));
    assert_eq!(parse_port("0"), Some(0));
    assert_eq!(parse_port("00065535"), Some(65535));
    for bad in ["", "+", "-1", "65536", "99999999999999999999", "80 ", "8o", "++1", "\u{663}"] {
        assert_eq!(parse_port(bad), bad.parse::<u16>().ok());
        assert_eq!(parse_port(bad), None);
    }
    assert_eq!(port_or(Some("9000".to_string()), 8080), 9000);
    assert_eq!(port_or(Some("junk".to_string()), 8080), 8080);
    assert_eq!(port_or(None, 8081), 8081);
}
