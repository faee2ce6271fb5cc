use langfuse_client_base::models::{
    ingestion_event_one_of::Type as TraceType, ingestion_event_one_of_4::Type as GenerationType,
    CreateGenerationBody, IngestionBatchRequest, IngestionEvent as OutsideEvent,
    IngestionEventOneOf, IngestionEventOneOf4, IngestionUsage, ModelUsageUnit,
    TraceBody as OutsideTrace, Usage as OutsideUsage,
};
use ollama_gateway::json::Json;
use ollama_gateway::langfuse::{count32, IngestionEvent, LangfuseEvent, UsageUnit};
use ollama_gateway::time::Timestamp;

fn event() -> LangfuseEvent {
    LangfuseEvent {
        trace_id: "trace-1".to_string(),
        generation_id: "gen-1".to_string(),
        app_name: "test-app".to_string(),
        model: "llama3".to_string(),
        endpoint: "/api/chat".to_string(),
        input: Json::parse(r#"[{"role": "user", "content": "hi"}]"#).unwrap(),
        output: Json::str("hello"),
        start_time: Timestamp::now(),
        end_time: Timestamp::now(),
        prompt_tokens: Some(10),
        completion_tokens: Some(5),
        tokens_per_sec: None,
        ttft_micros: None,
        session_id: None,
        backend_name: None,
    }
}

fn outside(event: IngestionEvent) -> OutsideEvent {
    let value = |v: &Json| serde_json::from_str::<serde_json::Value>(&v.to_text().unwrap()).unwrap();
    match event {
        IngestionEvent::TraceCreate { id, timestamp, body } => {
            OutsideEvent::IngestionEventOneOf(Box::new(IngestionEventOneOf::new(
                id,
                timestamp,
                OutsideTrace {
                    id: Some(Some(body.id)),
                    name: Some(Some(body.name)),
                    user_id: Some(Some(body.user_id)),
                    tags: Some(Some(body.tags)),
                    timestamp: Some(Some(body.timestamp)),
                    ..Default::default()
                },
                TraceType::TraceCreate,
            )))
        }
        IngestionEvent::GenerationCreate { id, timestamp, body } => {
            let unit = match body.usage.unit {
                UsageUnit::Tokens => ModelUsageUnit::Tokens,
            };
            let usage = IngestionUsage::Usage(Box::new(OutsideUsage {
                input: body.usage.input.map(Some),
                output: body.usage.output.map(Some),
                unit: Some(unit),
                ..Default::default()
            }));
            OutsideEvent::IngestionEventOneOf4(Box::new(IngestionEventOneOf4::new(
                id,
                timestamp,
                CreateGenerationBody {
                    id: Some(Some(body.id)),
                    trace_id: Some(Some(body.trace_id)),
                    name: Some(Some(body.name)),
                    model: Some(Some(body.model)),
                    start_time: Some(Some(body.start_time)),
                    end_time: Some(Some(body.end_time)),
                    input: Some(Some(value(&body.input))),
                    output: Some(Some(value(&body.output))),
                    usage: Some(Box::new(usage)),
                    ..Default::default()
                },
                GenerationType::GenerationCreate,
            )))
        }
    }
}

#[test]
fn test_into_ingestion_events() {
    let events = event().into_ingestion_events();
    assert_eq!(events.len(), 2);

    // Verify the batch serializes correctly
    let batch = IngestionBatchRequest::new(events.into_iter().map(outside).collect());
    let json = serde_json::to_value(&batch).unwrap();
    let gen_body = &json["batch"][1]["body"];
    assert_eq!(gen_body["model"], "llama3");
    assert_eq!(gen_body["traceId"], "trace-1");
    assert_eq!(gen_body["usage"]["unit"], "TOKENS");
    assert_eq!(gen_body["usage"]["input"], 10);
    assert_eq!(gen_body["usage"]["output"], 5);
}

#[test]
fn events_hold_the_call() {
    let mut e = event();
    e.start_time = Timestamp::new(0, 0).unwrap();
    e.end_time = Timestamp::new(1, 5_000_000).unwrap();
    let events = e.ingestion_events("e1".to_string(), "e2".to_string());
    match &events[0] {
        IngestionEvent::TraceCreate { id, timestamp, body } => {
            assert_eq!(id, "e1");
            assert_eq!(timestamp, "1970-01-01T00:00:00+00:00");
            assert_eq!(body.id, "trace-1");
            assert_eq!(body.name, "test-app - /api/chat");
            assert_eq!(body.user_id, "test-app");
            assert_eq!(body.tags, vec!["test-app", "/api/chat"]);
            assert_eq!(body.timestamp, "1970-01-01T00:00:00+00:00");
        }
        _ => unreachable!(),
    }
    match &events[1] {
        IngestionEvent::GenerationCreate { id, timestamp, body } => {
            assert_eq!(id, "e2");
            assert_eq!(timestamp, "1970-01-01T00:00:00+00:00");
            assert_eq!(body.id, "gen-1");
            assert_eq!(body.trace_id, "trace-1");
            assert_eq!(body.name, "/api/chat");
            assert_eq!(body.start_time, "1970-01-01T00:00:00+00:00");
            assert_eq!(body.end_time, "1970-01-01T00:00:01.005+00:00");
            assert_eq!(body.output.as_str(), Some("hello"));
        }
        _ => unreachable!(),
    }
}

#[test]
fn counts_keep_their_low_bits() {
    assert_eq!(count32(None), None);
    assert_eq!(count32(Some(0)), Some(0));
    assert_eq!(count32(Some(0x7fff_ffff)), Some(i32::MAX));
    assert_eq!(count32(Some(0x8000_0000)), Some(i32::MIN));
    assert_eq!(count32(Some(0xffff_ffff)), Some(-1));
    assert_eq!(count32(Some(0x1_0000_0005)), Some(5));
}

#[test]
fn events_are_copied() {
    let e = event();
    let copy = e.clone();
    assert_eq!(copy.trace_id, "trace-1");
    assert_eq!(copy.input.to_text(), e.input.to_text());
    assert_eq!((copy.start_time, copy.end_time), (e.start_time, e.end_time));
    assert_eq!(copy.completion_tokens, Some(5));
}
