use ollama_gateway::auth::{authenticate, TokenMap};
use ollama_gateway::config::{BackendConfig, BackendType};
use ollama_gateway::json::Json;
use ollama_gateway::langfuse::{IngestionEvent, LangfuseEvent};
use ollama_gateway::processors::ProcessorRegistry;
use ollama_gateway::proxy::aggregate::{aggregate_models, aggregate_ps, merge_models, reply_value};
use ollama_gateway::proxy::extract::{
    extract_input, extract_output, extract_streaming_output_text, extract_streaming_stats,
    openai_usage, parse_streaming_chunks, TokenRate,
};
use ollama_gateway::proxy::reply::{
    apply_postprocessors_to_response, build_trace_event, build_trace_event_from_stream,
    handle_non_streaming_response, handle_streaming_response, postprocess_parsed, repair_failed,
    report_reply, single_metrics, Call,
};
use ollama_gateway::proxy::stream::{
    frame_line, payload_of, process_streaming_chunk, StreamAction, StreamEvent, StreamRelay,
};
use ollama_gateway::registry::ModelRegistry;
use ollama_gateway::time::Timestamp;

fn json(s: &str) -> Json {
    Json::parse(s).unwrap()
}

fn show(v: &Json) -> String {
    v.to_text().unwrap()
}

fn fix() -> Vec<String> {
    vec!["gemma4-tool-call-fix".to_string()]
}

#[test]
fn inputs() {
    let body = json(r#"{"messages":[1],"prompt":"p","input":"i"}"#);
    assert_eq!(show(&extract_input(&body, "/api/chat")), "[1]");
    assert_eq!(show(&extract_input(&body, "/v1/chat/completions")), "[1]");
    assert_eq!(show(&extract_input(&body, "/api/generate")), r#""p""#);
    assert_eq!(show(&extract_input(&body, "/v1/completions")), r#""p""#);
    assert_eq!(show(&extract_input(&body, "/api/embed")), r#""i""#);
    assert_eq!(show(&extract_input(&json("{}"), "/api/chat")), "null");
}

#[test]
fn outputs() {
    let rate = Some(TokenRate { tokens: 7, nanos: 1_000_000_000 });
    let native = json(
        r#"{"message":{"content":"hi"},"response":"ho","prompt_eval_count":3,"eval_count":7,"eval_duration":1000000000}"#,
    );
    let (out, pt, ct, r) = extract_output(&native, "/api/chat");
    assert_eq!((show(&out).as_str(), pt, ct, r), (r#""hi""#, Some(3), Some(7), rate));
    let (out, _, _, r) = extract_output(&native, "/api/generate");
    assert_eq!((show(&out).as_str(), r), (r#""ho""#, rate));
    let (out, pt, ct, r) = extract_output(&native, "/api/embed");
    assert_eq!((show(&out).as_str(), pt, ct, r), (r#""[embedding vector]""#, Some(3), None, None));
    let (_, _, _, r) = extract_output(&json(r#"{"eval_count":7,"eval_duration":0}"#), "/api/chat");
    assert!(r.is_none());

    let openai = json(
        r#"{"choices":[{"message":{"content":"hi"},"text":"ho"}],"usage":{"prompt_tokens":1,"completion_tokens":2}}"#,
    );
    assert_eq!(openai_usage(&openai), (Some(1), Some(2)));
    let (out, pt, ct, r) = extract_output(&openai, "/v1/chat/completions");
    assert_eq!((show(&out).as_str(), pt, ct, r), (r#""hi""#, Some(1), Some(2), None));
    let (out, pt, ct, _) = extract_output(&openai, "/v1/completions");
    assert_eq!((show(&out).as_str(), pt, ct), (r#""ho""#, Some(1), Some(2)));
    let (out, pt, ct, _) = extract_output(&openai, "/v1/embeddings");
    assert_eq!((show(&out).as_str(), pt, ct), (r#""[embedding vector]""#, Some(1), None));
    let (out, pt, ct, _) = extract_output(&openai, "/other");
    assert_eq!((show(&out).as_str(), pt, ct), ("null", None, None));
    let (out, _, _, _) = extract_output(&json("{}"), "/api/chat");
    assert_eq!(show(&out), "null");
}

const NDJSON: &str = "{\"message\":{\"content\":\"he\"}}\r\nbroken\n\n{\"message\":{\"content\":\"llo\"},\"done\":true,\"prompt_eval_count\":2,\"eval_count\":4,\"eval_duration\":8}\n{\"done\":true,\"eval_count\":9}";
const SSE: &str = "data: {\"choices\":[{\"delta\":{\"content\":\"he\"},\"text\":\"A\"}]}\n\n: note\ndata: {\"choices\":[{\"delta\":{\"content\":\"llo\"},\"text\":\"B\"}],\"usage\":{\"prompt_tokens\":5,\"completion_tokens\":6}}\ndata: [DONE]\n";

#[test]
fn streams_are_read() {
    assert_eq!(parse_streaming_chunks(NDJSON, "/api/chat").len(), 3);
    assert_eq!(parse_streaming_chunks(SSE, "/v1/completions").len(), 2);
    assert_eq!(parse_streaming_chunks(SSE, "/api/chat").len(), 0);
    assert_eq!(extract_streaming_output_text(NDJSON.as_bytes(), "/api/chat"), "hello");
    assert_eq!(extract_streaming_output_text(NDJSON.as_bytes(), "/api/generate"), "");
    assert_eq!(extract_streaming_output_text(b"{\"response\":\"x\"}\n{\"response\":\"y\"}", "/api/generate"), "xy");
    assert_eq!(extract_streaming_output_text(SSE.as_bytes(), "/v1/chat/completions"), "hello");
    assert_eq!(extract_streaming_output_text(SSE.as_bytes(), "/v1/completions"), "AB");
    assert_eq!(extract_streaming_output_text(b"\xff", "/api/chat"), "");
    assert_eq!(
        extract_streaming_stats(NDJSON.as_bytes(), "/api/chat"),
        (Some(2), Some(4), Some(TokenRate { tokens: 4, nanos: 8 }))
    );
    assert_eq!(extract_streaming_stats(SSE.as_bytes(), "/v1/completions"), (Some(5), Some(6), None));
    assert_eq!(extract_streaming_stats(b"\xff", "/api/chat"), (None, None, None));
    assert_eq!(extract_streaming_stats(b"", "/v1/x"), (None, None, None));
}

fn process(text: &str, sse: bool) -> String {
    let out = process_streaming_chunk(text.as_bytes(), &ProcessorRegistry::new(), &fix(), sse);
    String::from_utf8(out).unwrap()
}

#[test]
fn chunks_are_processed_line_by_line() {
    let dirty = r#"{"message": {"content": "<|\"|>x"}}"#;
    let clean = r#"{"message":{"content":"\"x"}}"#;
    assert_eq!(process(&format!("{}\n", dirty), false), format!("{}\n", clean));
    assert_eq!(process(dirty, false), clean);
    assert_eq!(process(&format!("  {} \r\n\nnope\n{}", dirty, dirty), false), format!("{}\n\nnope\n{}", clean, clean));
    let dirty = r#"data: {"choices": [{"delta": {"content": "<|\"|>x"}}]}"#;
    let clean = r#"data: {"choices":[{"delta":{"content":"\"x"}}]}"#;
    assert_eq!(
        process(&format!("{}\n\ndata: [DONE]\ndata: nope\nevent: x\n", dirty), true),
        format!("{}\n\ndata: [DONE]\ndata: nope\nevent: x\n", clean)
    );
    // an event always ends with a newline
    assert_eq!(process(dirty, true), format!("{}\n", clean));
    let whole = format!("{}\n{}\n", dirty, dirty);
    assert_eq!(process(&whole, true), format!("{}{}", process(&format!("{}\n", dirty), true), process(&format!("{}\n", dirty), true)));
    let bytes = b"\xff{}\n";
    assert_eq!(process_streaming_chunk(bytes, &ProcessorRegistry::new(), &fix(), false), bytes);
}

#[test]
fn lines_and_payloads() {
    assert_eq!(payload_of("data: x \r\n", true).unwrap(), "x");
    assert!(payload_of("data: [DONE]\n", true).is_none());
    assert!(payload_of("data:x", true).is_none());
    assert!(payload_of(" data: x", true).is_none());
    assert_eq!(payload_of("\u{a0} x \n", false).unwrap(), "x");
    assert!(payload_of(" \t\n", false).is_none());
    assert_eq!(frame_line("old\n", "new", false), "new\n");
    assert_eq!(frame_line("old", "new", false), "new");
    assert_eq!(frame_line("old", "new", true), "data: new\n");
}

fn at(secs: i64, nanos: u32) -> Timestamp {
    Timestamp::new(secs, nanos).unwrap()
}

#[test]
fn streams_are_relayed() {
    let registry = ProcessorRegistry::new();
    let mut relay = StreamRelay::new("/api/chat", fix());
    assert!(matches!(relay.step(StreamEvent::NoData, &registry), StreamAction::Wait));
    assert!(relay.first_chunk_micros(&at(0, 0)).is_none());
    let data = br#"{"message": {"content": "<|\"|>"}}"#.to_vec();
    match relay.step(StreamEvent::Data { bytes: data, now: at(1, 1999) }, &registry) {
        StreamAction::Send(b) => assert_eq!(b, br#"{"message":{"content":"\""}}"#),
        _ => unreachable!(),
    }
    match relay.step(StreamEvent::Data { bytes: b"x".to_vec(), now: at(2, 0) }, &registry) {
        StreamAction::Send(b) => assert_eq!(b, b"x"),
        _ => unreachable!(),
    }
    assert_eq!(relay.accumulated().as_slice(), br#"{"message":{"content":"\""}}x"#);
    assert_eq!(relay.first_chunk_micros(&at(0, 0)), Some(1_000_001));
    match relay.step(StreamEvent::Failed("oh".to_string()), &registry) {
        StreamAction::SendError(m) => assert_eq!(m, "oh"),
        _ => unreachable!(),
    }
    assert!(matches!(relay.step(StreamEvent::Ended, &registry), StreamAction::Stop));

    let mut plain = StreamRelay::new("/v1/x", vec![]);
    let raw = b"data: { }\n".to_vec();
    match plain.step(StreamEvent::Data { bytes: raw.clone(), now: at(0, 0) }, &registry) {
        StreamAction::Send(b) => assert_eq!(b, raw),
        _ => unreachable!(),
    }
    let mut sse = StreamRelay::new("/v1/x", fix());
    match sse.step(StreamEvent::Data { bytes: raw, now: at(0, 0) }, &registry) {
        StreamAction::Send(b) => assert_eq!(b, b"data: {}\n"),
        _ => unreachable!(),
    }
}

#[test]
fn replies_are_processed() {
    let registry = ProcessorRegistry::new();
    let dirty = br#"{ "message": {"content": "<|\"|>"}}"#.to_vec();
    assert_eq!(
        apply_postprocessors_to_response(dirty.clone(), &registry, &fix()),
        br#"{"message":{"content":"\""}}"#
    );
    assert_eq!(apply_postprocessors_to_response(dirty.clone(), &registry, &[]), dirty);
    assert_eq!(apply_postprocessors_to_response(b"nope".to_vec(), &registry, &fix()), b"nope");
    assert_eq!(postprocess_parsed(b"nope".to_vec(), Some(json("[ 1 ]")), &registry, &fix()), b"[1]");
}

fn call(path: &str, log_content: bool) -> Call {
    Call {
        app_name: "app".to_string(),
        path: path.to_string(),
        start_time: at(100, 0),
        end_time: at(101, 500_000),
        session_id: Some("s".to_string()),
        backend_name: Some("b".to_string()),
        log_content,
    }
}

fn check_event(e: &LangfuseEvent, path: &str) {
    assert_eq!(e.app_name, "app");
    assert_eq!(e.model, "m");
    assert_eq!(e.endpoint, path);
    assert_eq!(e.start_time, at(100, 0));
    assert_eq!(e.end_time, at(101, 500_000));
    assert_eq!(e.session_id.as_deref(), Some("s"));
    assert_eq!(e.backend_name.as_deref(), Some("b"));
    assert_ne!(e.trace_id, e.generation_id);
    assert_eq!(e.trace_id.len(), 36);
}

#[test]
fn events_of_whole_replies() {
    let req = Some(json(r#"{"model":"m","messages":["q"]}"#));
    let reply = br#"{"message":{"content":"a"},"prompt_eval_count":1,"eval_count":2,"eval_duration":3}"#;
    let e = build_trace_event(&call("/api/chat", true), &req, reply).unwrap();
    check_event(&e, "/api/chat");
    assert_eq!(show(&e.input), r#"["q"]"#);
    assert_eq!(show(&e.output), r#""a""#);
    assert_eq!((e.prompt_tokens, e.completion_tokens), (Some(1), Some(2)));
    assert_eq!(e.tokens_per_sec, Some(TokenRate { tokens: 2, nanos: 3 }));
    assert!(e.ttft_micros.is_none());
    let e = build_trace_event(&call("/api/chat", false), &req, reply).unwrap();
    assert_eq!(show(&e.input), r#""[redacted]""#);
    assert_eq!(show(&e.output), r#""[redacted]""#);
    assert_eq!(e.prompt_tokens, Some(1));
    assert!(build_trace_event(&call("/api/chat", true), &None, reply).is_none());
    assert!(build_trace_event(&call("/api/chat", true), &req, b"nope").is_none());
    let e = build_trace_event(&call("/api/chat", true), &Some(json("{}")), reply).unwrap();
    assert_eq!(e.model, "unknown");
    assert_eq!(show(&e.input), "null");
}

#[test]
fn the_application_of_a_token_is_traced() {
    let mut tokens = TokenMap::new();
    tokens.insert("sk-1".to_string(), "shop".to_string());
    let (app, _) = authenticate(Some("Bearer sk-1".to_string()), &tokens).unwrap();
    let mut c = call("/api/generate", true);
    c.app_name = app.0;
    let req = Some(json("{}"));
    let whole = build_trace_event(&c, &req, b"{}").unwrap();
    let streamed = build_trace_event_from_stream(&c, &req, b"{}", None).unwrap();
    for event in [whole, streamed] {
        match &event.into_ingestion_events()[0] {
            IngestionEvent::TraceCreate { body, .. } => {
                assert_eq!(body.user_id, "shop");
                assert_eq!(body.name, "shop - /api/generate");
                assert!(body.tags.contains(&"shop".to_string()));
            }
            _ => unreachable!(),
        }
    }
}

#[test]
fn events_of_streamed_replies() {
    let req = Some(json(r#"{"model":"m","messages":["q"]}"#));
    let e = build_trace_event_from_stream(&call("/api/chat", true), &req, NDJSON.as_bytes(), Some(9)).unwrap();
    check_event(&e, "/api/chat");
    assert_eq!(show(&e.output), r#""hello""#);
    assert_eq!(e.completion_tokens, Some(4));
    assert_eq!(e.ttft_micros, Some(9));
    let e = build_trace_event_from_stream(&call("/api/chat", false), &req, NDJSON.as_bytes(), None).unwrap();
    assert_eq!(show(&e.output), r#""[redacted]""#);
    assert!(build_trace_event_from_stream(&call("/api/chat", true), &req, b"nope", None).is_none());
    assert!(build_trace_event_from_stream(&call("/api/chat", true), &req, b"\xff", None).is_none());
    assert!(build_trace_event_from_stream(&call("/api/chat", true), &None, NDJSON.as_bytes(), None).is_none());
}

#[test]
fn reports() {
    let req = Some(json(r#"{"model":"m","messages":["q"]}"#));
    let reply = br#"{"message":{"content":"a"},"prompt_eval_count":1,"eval_count":2}"#;
    let r = report_reply(&call("/api/chat", true), &req, 200, reply, true);
    check_event(&r.event.unwrap(), "/api/chat");
    let chat = r.chat.unwrap();
    assert_eq!((chat.model.as_str(), show(&chat.input).as_str(), show(&chat.output).as_str()), ("m", r#"["q"]"#, r#""a""#));
    assert_eq!(r.metrics.timestamp, "1970-01-01T00:01:40+00:00");
    assert_eq!(r.metrics.backend_name, "b");
    assert_eq!(r.metrics.model, "m");
    assert_eq!(r.metrics.endpoint, "/api/chat");
    assert_eq!((r.metrics.prompt_tokens, r.metrics.completion_tokens), (Some(1), Some(2)));
    assert_eq!((r.metrics.ttft_micros, r.metrics.latency_micros, r.metrics.status_code), (None, 1_000_500, 200));

    let r = report_reply(&call("/api/chat", false), &None, 500, b"nope", false);
    assert!(r.event.is_none() && r.chat.is_none());
    assert_eq!(r.metrics.model, "unknown");
    assert_eq!((r.metrics.prompt_tokens, r.metrics.status_code), (None, 500));

    let r = handle_streaming_response(&call("/api/chat", true), &req, 200, NDJSON.as_bytes(), Some(7), true);
    check_event(&r.event.unwrap(), "/api/chat");
    assert_eq!(show(&r.chat.unwrap().output), r#""hello""#);
    assert_eq!((r.metrics.ttft_micros, r.metrics.completion_tokens), (Some(7), Some(4)));
    let r = handle_streaming_response(&call("/api/chat", true), &req, 200, NDJSON.as_bytes(), None, false);
    assert!(r.event.is_none() && r.chat.is_some());

    let m = single_metrics("b", "/api/show", &at(5, 0), &at(4, 999_999_999), 404);
    assert_eq!((m.model.as_str(), m.backend_name.as_str(), m.endpoint.as_str()), ("", "b", "/api/show"));
    assert_eq!((m.latency_micros, m.status_code), (0, 404));
}

#[test]
fn what_is_sent_is_reported() {
    let registry = ProcessorRegistry::new();
    let req = Some(json(r#"{"model":"m","messages":["q"]}"#));
    let raw = r#"{ "message": {"content":"<|\"|>a"}, "eval_count": 2 }"#;
    let mut c = call("/api/chat", true);
    let (bytes, r) =
        handle_non_streaming_response(&mut c, &req, 200, raw.as_bytes().to_vec(), &registry, &fix(), true);
    assert_eq!(bytes, br#"{"eval_count":2,"message":{"content":"\"a"}}"#);
    let event = r.event.unwrap();
    assert_eq!(show(&event.output), r#""\"a""#);
    assert_eq!(show(&r.chat.unwrap().output), r#""\"a""#);
    assert_eq!(r.metrics.completion_tokens, Some(2));
    // the call ends when the body is ready; nothing else of it changes
    assert_eq!(event.end_time, c.end_time);
    assert_ne!(c.end_time, call("/api/chat", true).end_time);
    assert_eq!(c.start_time, call("/api/chat", true).start_time);

    let mut c = call("/api/chat", true);
    let (bytes, r) =
        handle_non_streaming_response(&mut c, &req, 200, raw.as_bytes().to_vec(), &registry, &[], false);
    assert_eq!(bytes, raw.as_bytes());
    assert_eq!(show(&r.chat.unwrap().output), r#""<|\"|>a""#);
    assert!(r.event.is_none());

    let (bytes, r) =
        handle_non_streaming_response(&mut c, &req, 500, b"nope".to_vec(), &registry, &fix(), true);
    assert_eq!(bytes, b"nope");
    assert!(r.event.is_none() && r.chat.is_none());
    assert_eq!(r.metrics.status_code, 500);
}

/// Healthy backends of these types, in the order of their priorities.
fn healthy(kinds: &[BackendType]) -> ModelRegistry {
    let configs: Vec<BackendConfig> = kinds
        .iter()
        .enumerate()
        .map(|(i, kind)| BackendConfig {
            name: format!("b{}", i),
            url: "http://x".to_string(),
            backend_type: *kind,
            priority: i as i32,
        })
        .collect();
    let polls = (0..configs.len()).map(|i| (i, Some(vec![]))).collect();
    ModelRegistry::refresh(&configs, polls)
}

#[test]
fn the_entry_of_the_best_backend_stays() {
    let registry = healthy(&[BackendType::Ollama, BackendType::Ollama]);
    let best = r#"{"models":[{"name":"n","size":1}]}"#;
    let other = r#"{"models":[{"name":"n","size":2},{"name":"o"}]}"#;
    let wanted = r#"{"models":[{"name":"n","size":1},{"name":"o"}]}"#;
    let first = vec![(0, json(best)), (1, json(other))];
    let last = vec![(1, json(other)), (0, json(best))];
    assert_eq!(show(&aggregate_models("/api/tags", &registry, &first)), wanted);
    assert_eq!(show(&aggregate_models("/api/tags", &registry, &last)), wanted);
    let alone = vec![(1, json(other))];
    assert_eq!(show(&aggregate_models("/api/tags", &registry, &alone)), other);
}

#[test]
fn backends_that_are_down_are_not_asked() {
    let config = |name: &str, priority: i32| BackendConfig {
        name: name.to_string(),
        url: "http://x".to_string(),
        backend_type: BackendType::Ollama,
        priority,
    };
    let configs = [config("down", 0), config("up", 1)];
    let registry = ModelRegistry::refresh(&configs, vec![(1, Some(vec![])), (0, None)]);
    // the positions are those of the healthy backends
    let replies = vec![(0, json(r#"{"models":[{"name":"n"}]}"#)), (1, json(r#"{"models":[{"name":"o"}]}"#))];
    assert_eq!(show(&aggregate_models("/api/tags", &registry, &replies)), r#"{"models":[{"name":"n"}]}"#);
}

#[test]
fn repairs_that_fail() {
    let registry = ProcessorRegistry::new();
    assert!(!repair_failed(b"{}", &registry, &fix()));
    assert!(!repair_failed(b"no json", &registry, &fix()));
    assert!(!repair_failed(b"no json", &registry, &[]));
}

#[test]
fn model_lists_are_merged() {
    let registry = healthy(&[BackendType::Llamacpp, BackendType::Ollama, BackendType::Ollama]);
    let replies = vec![
        (0, json(r#"{"data":[{"id":"a"},{"id":"b"},{"id":7}]}"#)),
        (1, json(r#"{"models":[{"name":"b","size":1},{"name":"c","size":2},{"size":3},{"name":"c"}]}"#)),
        (2, json("{}")),
    ];
    assert_eq!(merge_models(&registry.all_healthy_backends(), &replies).len(), 3);
    assert_eq!(
        show(&aggregate_models("/api/tags", &registry, &replies)),
        r#"{"models":[{"name":"a"},{"name":"b"},{"name":"c","size":2}]}"#
    );
    assert_eq!(
        show(&aggregate_models("/v1/models", &registry, &replies)),
        r#"{"data":[{"id":"a","object":"model"},{"id":"b","object":"model"},{"id":"c","object":"model"}],"object":"list"}"#
    );
    assert_eq!(
        show(&aggregate_models("/v1/models", &healthy(&[]), &vec![])),
        r#"{"error":"no healthy backends available"}"#
    );
    assert_eq!(show(&aggregate_models("/api/tags", &registry, &vec![])), r#"{"models":[]}"#);
    assert_eq!(show(&aggregate_ps(&vec![])), r#"{"models":[]}"#);
    assert_eq!(
        show(&aggregate_ps(&vec![json(r#"{"models":[1]}"#), json("[]"), json(r#"{"models":[1,2]}"#)])),
        r#"{"models":[1,1,2]}"#
    );
    assert!(reply_value(200, b"{}").is_some());
    assert!(reply_value(404, b"{}").is_none());
    assert!(reply_value(200, b"nope").is_none());
}
