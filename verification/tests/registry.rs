use ollama_gateway::config::{BackendConfig, BackendType};
use ollama_gateway::json::Json;
use ollama_gateway::proxy::route::{choose_backend, dispatch_passthrough};
use ollama_gateway::registry::{fetched_models, model_names, models_url, ModelRegistry};

fn backend(name: &str, kind: BackendType, priority: i32) -> BackendConfig {
    BackendConfig {
        name: name.to_string(),
        url: format!("http://{}/", name),
        backend_type: kind,
        priority,
    }
}

fn models(names: &[&str]) -> Option<Vec<String>> {
    Some(names.iter().map(|s| s.to_string()).collect())
}

/// The registry of backends that were polled in the order in which they stand.
fn polled(list: Vec<(BackendConfig, Option<Vec<String>>)>) -> ModelRegistry {
    let (configs, models): (Vec<BackendConfig>, Vec<Option<Vec<String>>>) = list.into_iter().unzip();
    ModelRegistry::refresh(&configs, models.into_iter().enumerate().collect())
}

fn registry() -> ModelRegistry {
    polled(vec![
        (backend("slow", BackendType::Llamacpp, 10), models(&["m1", "m2"])),
        (backend("down", BackendType::Ollama, -5), None),
        (backend("fast", BackendType::Ollama, 1), models(&["m2", "m3", "m2"])),
        (backend("twin", BackendType::Ollama, 1), models(&["m3", "m4"])),
        (backend("tail", BackendType::Ollama, i32::MAX), models(&[])),
    ])
}

#[test]
fn backends_stand_by_priority() {
    let r = registry();
    let names: Vec<&str> = r.backends().iter().map(|b| b.config.name.as_str()).collect();
    assert_eq!(names, vec!["down", "fast", "twin", "slow", "tail"]);
    assert!(!r.backends()[0].healthy);
    assert!(r.backends()[0].models.is_empty());
    assert_eq!(r.backends()[1].models, vec!["m2", "m3", "m2"]);
}

#[test]
fn answers_may_arrive_in_any_order() {
    let configs = vec![
        backend("a", BackendType::Ollama, 1),
        backend("b", BackendType::Ollama, 1),
        backend("c", BackendType::Ollama, 0),
        backend("lost", BackendType::Ollama, 0),
    ];
    let orders: [[usize; 3]; 6] =
        [[0, 1, 2], [0, 2, 1], [1, 0, 2], [1, 2, 0], [2, 0, 1], [2, 1, 0]];
    for order in orders {
        let polls = order.iter().map(|i| (*i, models(&["m"]))).collect();
        let r = ModelRegistry::refresh(&configs, polls);
        let names: Vec<&str> = r.backends().iter().map(|b| b.config.name.as_str()).collect();
        // equal priorities stand as configured; one that never came back is left out
        assert_eq!(names, vec!["c", "a", "b"]);
        assert_eq!(r.resolve_backend("m").unwrap().name, "c");
    }
}

#[test]
fn models_resolve_to_the_best_healthy_backend() {
    let r = registry();
    let name = |m: &str| r.resolve_backend(m).map(|b| b.name.clone());
    assert_eq!(name("m1").unwrap(), "slow");
    assert_eq!(name("m2").unwrap(), "fast");
    assert_eq!(name("m3").unwrap(), "fast");
    assert_eq!(name("m4").unwrap(), "twin");
    assert!(name("m5").is_none());
    assert_eq!(r.default_backend().unwrap().name, "fast");
}

#[test]
fn healthy_backends() {
    let r = registry();
    let all: Vec<&str> = r.all_healthy_backends().iter().map(|b| b.config.name.as_str()).collect();
    assert_eq!(all, vec!["fast", "twin", "slow", "tail"]);
    let ollama: Vec<&str> =
        r.all_healthy_ollama_backends().iter().map(|b| b.config.name.as_str()).collect();
    assert_eq!(ollama, vec!["fast", "twin", "tail"]);
}

#[test]
fn nothing_is_healthy() {
    let r = polled(vec![(backend("down", BackendType::Ollama, 0), None)]);
    assert!(r.resolve_backend("m").is_none());
    assert!(r.default_backend().is_none());
    assert!(r.all_healthy_backends().is_empty());
    assert_eq!(dispatch_passthrough(&r).unwrap_err(), 502);
    let empty = polled(vec![]);
    assert!(empty.backends().is_empty());
    assert!(empty.default_backend().is_none());
}

#[test]
fn unknown_models_go_to_the_default_backend() {
    let r = registry();
    let name = |m: Option<&str>| choose_backend(&r, &m.map(|s| s.to_string())).unwrap().name;
    assert_eq!(name(Some("m1")), "slow");
    assert_eq!(name(Some("m9")), "fast");
    assert_eq!(name(None), "fast");
    assert_eq!(dispatch_passthrough(&r).unwrap().name, "fast");
}

#[test]
fn model_lists_are_read() {
    let ollama = Json::parse(r#"{"models":[{"name":"a"},{"id":"b"},{"name":3},{"name":"c"},7]}"#).unwrap();
    assert_eq!(model_names(BackendType::Ollama, &ollama), vec!["a", "c"]);
    assert!(model_names(BackendType::Llamacpp, &ollama).is_empty());
    let llama = Json::parse(r#"{"data":[{"id":"a"},{"name":"b"}]}"#).unwrap();
    assert_eq!(model_names(BackendType::Llamacpp, &llama), vec!["a"]);
    assert!(model_names(BackendType::Ollama, &Json::parse("[]").unwrap()).is_empty());
}

#[test]
fn polls() {
    let body = br#"{"models":[{"name":"a"}]}"#;
    assert_eq!(fetched_models(BackendType::Ollama, 200, body).unwrap(), vec!["a"]);
    assert_eq!(fetched_models(BackendType::Ollama, 299, body).unwrap(), vec!["a"]);
    assert!(fetched_models(BackendType::Ollama, 300, body).is_none());
    assert!(fetched_models(BackendType::Ollama, 199, body).is_none());
    assert!(fetched_models(BackendType::Ollama, 200, b"oops").is_none());
    assert!(fetched_models(BackendType::Llamacpp, 200, body).unwrap().is_empty());
}

#[test]
fn urls_of_model_lists() {
    assert_eq!(models_url(&backend("h", BackendType::Ollama, 0)), "http://h/api/tags");
    let mut b = backend("h", BackendType::Llamacpp, 0);
    b.url = "http://h//".to_string();
    assert_eq!(models_url(&b), "http://h/v1/models");
}
