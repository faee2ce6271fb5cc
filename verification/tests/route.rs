use ollama_gateway::config::{BackendConfig, BackendType, ProcessorRule};
use ollama_gateway::json::Json;
use ollama_gateway::processors::ProcessorRegistry;
use ollama_gateway::proxy::route::{
    body_model, classify_path, dispatch, on_traced_path, strip_query, unregistered_model, Routed,
    RouteCategory,
};
use ollama_gateway::proxy::upstream::{
    build_upstream_request, models_target, running_target, Header,
};
use ollama_gateway::registry::ModelRegistry;

#[test]
fn paths_are_classified() {
    for p in [
        "/api/chat", "/api/generate", "/api/embed", "/api/embeddings", "/v1/chat/completions",
        "/v1/completions", "/v1/embeddings", "/api/chat?x=1",
    ] {
        assert_eq!(classify_path(p), RouteCategory::Inference);
        assert!(on_traced_path(p));
    }
    assert_eq!(classify_path("/api/show"), RouteCategory::ModelInfo);
    assert_eq!(classify_path("/api/tags"), RouteCategory::ModelList);
    assert_eq!(classify_path("/v1/models"), RouteCategory::ModelList);
    assert_eq!(classify_path("/api/ps"), RouteCategory::RunningModels);
    for p in ["/api/pull", "/api/push", "/api/copy", "/api/delete", "/api/create"] {
        assert_eq!(classify_path(p), RouteCategory::OtherWithModel);
        assert!(!on_traced_path(p));
    }
    for p in ["/", "", "/api/chat/", "/api/version", "?/api/chat"] {
        assert_eq!(classify_path(p), RouteCategory::Passthrough);
    }
    assert!(!on_traced_path("/api/show"));
    assert!(on_traced_path("/api/embedding"));
    assert!(!on_traced_path("/api/cha"));
    assert_eq!(strip_query("/a?b?c"), "/a");
}

fn registry() -> ModelRegistry {
    let backend = |name: &str, priority: i32| BackendConfig {
        name: name.to_string(),
        url: "http://x".to_string(),
        backend_type: BackendType::Ollama,
        priority,
    };
    ModelRegistry::refresh(
        &[backend("one", 1), backend("two", 2)],
        vec![
            (0, Some(vec!["a".to_string()])),
            (1, Some(vec!["b".to_string(), "gemma4".to_string()])),
        ],
    )
}

fn go(path: &str, body: &str, privacy_mode: bool) -> Routed {
    let rules = vec![ProcessorRule {
        model_pattern: "gemma*".to_string(),
        backend_name: "".to_string(),
        preprocessors: vec!["gemma4-tool-call-fix".to_string()],
        postprocessors: vec!["gemma4-tool-call-fix".to_string(), "x".to_string()],
    }];
    dispatch(path, body.as_bytes().to_vec(), &registry(), &rules, &ProcessorRegistry::new(), privacy_mode)
        .unwrap()
}

#[test]
fn requests_go_where_their_model_is() {
    assert_eq!(go("/api/chat", r#"{"model":"b"}"#, false).backend.name, "two");
    assert_eq!(go("/api/show", r#"{"name":"b"}"#, false).backend.name, "two");
    // a member `model` that is no string hides the name
    assert_eq!(go("/api/show", r#"{"model":1,"name":"b"}"#, false).backend.name, "one");
    assert_eq!(go("/api/chat", r#"{"model":"zzz"}"#, false).backend.name, "one");
    assert_eq!(go("/api/chat", "no json", false).backend.name, "one");
}

#[test]
fn bodies_are_sent_on() {
    let r = go("/api/chat", r#"{ "model": "b" }"#, false);
    assert_eq!(r.body, br#"{ "model": "b" }"#);
    assert!(r.streaming && r.traced && r.log_content);
    assert!(r.post_ids.is_empty());
    let r = go("/v1/completions", "no json", true);
    assert_eq!(r.body, b"no json");
    assert!(r.json.is_none());
    assert!(!r.streaming && r.traced && !r.log_content);
    let r = go("/api/pull", "no json", false);
    assert!(r.streaming && !r.traced && !r.log_content);
}

#[test]
fn usage_is_asked_for() {
    let r = go("/v1/chat/completions", r#"{"model":"a","stream":true}"#, false);
    let wanted = r#"{"model":"a","stream":true,"stream_options":{"include_usage":true}}"#;
    assert_eq!(r.body, wanted.as_bytes());
    assert_eq!(r.json.unwrap().to_text().unwrap(), wanted);
    assert!(r.streaming);
    let plain = r#"{ "model": "a", "stream": false }"#;
    assert_eq!(go("/v1/chat/completions", plain, false).body, plain.as_bytes());
    assert!(!go("/v1/chat/completions", plain, false).streaming);
    let native = r#"{ "model": "a", "stream": true }"#;
    assert_eq!(go("/api/chat", native, false).body, native.as_bytes());
    assert!(!go("/api/chat", r#"{"stream":false}"#, false).streaming);
}

#[test]
fn preprocessors_see_the_request() {
    let r = go("/api/chat", r#"{"model":"gemma4","messages":[{"content":"<|\"|>hi"}]}"#, false);
    assert_eq!(r.backend.name, "two");
    assert_eq!(r.body, br#"{"messages":[{"content":"\"hi"}],"model":"gemma4"}"#);
    assert_eq!(r.pre_ids, vec!["gemma4-tool-call-fix"]);
    assert_eq!(r.post_ids, vec!["gemma4-tool-call-fix", "x"]);
    assert!(go("/api/chat", r#"{"model":"b"}"#, false).pre_ids.is_empty());
}

#[test]
fn unregistered_models() {
    let ask = |path: &str, body: &str| {
        let json = Json::from_slice(body.as_bytes());
        assert_eq!(body_model(&json).is_some(), body.contains("\"model\":\""));
        unregistered_model(path, &json, &registry())
    };
    assert_eq!(ask("/api/chat", r#"{"model":"zzz"}"#).unwrap(), "zzz");
    assert!(ask("/api/chat", r#"{"model":"b"}"#).is_none());
    assert!(ask("/api/chat", "{}").is_none());
    assert!(ask("/api/chat", "no json").is_none());
    assert!(ask("/api/show", r#"{"model":"zzz"}"#).is_none());
}

#[test]
fn nothing_is_healthy_for_a_request() {
    let none = ModelRegistry::refresh(&[], vec![]);
    let r = dispatch("/api/chat", b"{}".to_vec(), &none, &[], &ProcessorRegistry::new(), false);
    assert_eq!(r.unwrap_err(), 502);
}

fn header(name: &str, value: &str) -> Header {
    Header { name: name.to_string(), value: value.as_bytes().to_vec() }
}

#[test]
fn upstream_requests() {
    let headers = vec![
        header("host", "h"),
        header("x-a", "1"),
        header("authorization", "Bearer t"),
        header("connection", "close"),
        header("x-a", "2"),
        header("transfer-encoding", "chunked"),
        header("origin", "o"),
        header("referer", "r"),
        header("content-length", "3"),
        header("content-type", "application/json"),
    ];
    let r = build_upstream_request(
        "http://localhost:11434//",
        "POST".to_string(),
        Some("/api/chat?x=1".to_string()),
        headers,
    )
    .unwrap();
    assert_eq!(r.method, "POST");
    assert_eq!(r.uri, "http://localhost:11434/api/chat?x=1");
    let kept: Vec<(&str, &[u8])> =
        r.headers.iter().map(|h| (h.name.as_str(), h.value.as_slice())).collect();
    assert_eq!(kept, vec![("x-a", &b"1"[..]), ("x-a", b"2"), ("content-type", b"application/json")]);

    let r = build_upstream_request("http://h", "GET".to_string(), None, vec![]).unwrap();
    assert_eq!(r.uri, "http://h/");
    assert!(build_upstream_request("not a uri", "GET".to_string(), None, vec![]).is_none());
}

#[test]
fn targets() {
    let mut b = BackendConfig {
        name: "n".to_string(),
        url: "http://h:1/".to_string(),
        backend_type: BackendType::Llamacpp,
        priority: 0,
    };
    assert_eq!(models_target(&b).unwrap(), "http://h:1/v1/models");
    assert_eq!(running_target(&b).unwrap(), "http://h:1/api/ps");
    b.url = "http://a b".to_string();
    assert!(models_target(&b).is_none());
    assert!(running_target(&b).is_none());
}
