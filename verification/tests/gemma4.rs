use ollama_gateway::json::Json;
use ollama_gateway::processors::gemma4::{
    choose_arguments, clean_arguments, collapse_quotes, sanitize_message, sanitize_string,
    sanitize_tool_call_arguments, strip_tokens, Gemma4ToolCallFix,
};
use ollama_gateway::processors::{Processor, ProcessorPhase, ProcessorRegistry};

fn json(s: &str) -> Json {
    Json::parse(s).unwrap()
}

fn is_json(s: &str) -> bool {
    serde_json::from_str::<serde_json::Value>(s).is_ok()
}

#[test]
fn test_clean_real_hermes_payload() {
    let raw = r#"{"todos": [{"content": "<|\"Setup working directory<|\"|", "id": "<|\"setup<|\"|", "status": "<|\"in_progress<|\""}]}"#;
    let cleaned = sanitize_tool_call_arguments(raw);
    assert!(is_json(&cleaned), "Result was not valid JSON: {}", cleaned);
}

#[test]
fn test_clean_backslash_pipe_pattern() {
    let raw = r#"{"content": "<|\hello<|\"|", "id": "<|\test<|\"|"}"#;
    let cleaned = sanitize_tool_call_arguments(raw);
    assert!(is_json(&cleaned), "Result was not valid JSON: {}", cleaned);
}

#[test]
fn test_clean_gemma4_pipe_delimiters() {
    let raw = r#"{"todos": [{"content": <|"|>Clone the repo<|"|>, "id": <|"|>clone<|"|>, "status": <|"|>in_progress<|"|>}]}"#;
    let cleaned = sanitize_tool_call_arguments(raw);
    assert!(is_json(&cleaned), "Result was not valid JSON: {}", cleaned);
}

#[test]
fn test_clean_gemma4_partial_delimiters() {
    let raw = r#"{"content": <|"hello"|}"#;
    let cleaned = sanitize_tool_call_arguments(raw);
    assert!(is_json(&cleaned), "Result was not valid JSON: {}", cleaned);
}

#[test]
fn test_clean_pipe_delimited_values() {
    let raw = r#"{"items": [<|"|>light<|"|>, <|"|>dark<|"|>]}"#;
    let cleaned = sanitize_tool_call_arguments(raw);
    assert!(cleaned.contains("\"light\""), "Expected cleaned light, got: {}", cleaned);
    assert!(cleaned.contains("\"dark\""), "Expected cleaned dark, got: {}", cleaned);
}

#[test]
fn test_already_valid_json_unchanged() {
    let valid = r#"{"command": "ls -la"}"#;
    let cleaned = sanitize_tool_call_arguments(valid);
    assert_eq!(cleaned, valid);
}

#[test]
fn test_tool_call_delimiters_stripped() {
    let raw = r#"<|tool_call>{"fn": "test"}<tool_call|>"#;
    let cleaned = sanitize_tool_call_arguments(raw);
    assert_eq!(cleaned, r#"{"fn": "test"}"#);
}

#[test]
fn test_sanitize_message_cleans_tool_calls() {
    let args_raw = r#"{"text": <|"|>hello<|"|>}"#;
    let mut function = Json::object();
    function.set("name", Json::str("todo"));
    function.set("arguments", Json::str(args_raw));
    let mut call = Json::object();
    call.set("function", function);
    let mut msg = Json::object();
    msg.set("role", Json::str("assistant"));
    msg.set("tool_calls", Json::Array(vec![call]));
    sanitize_message(&mut msg);
    let args = msg
        .get("tool_calls")
        .unwrap()
        .at(0)
        .unwrap()
        .get("function")
        .unwrap()
        .get("arguments")
        .unwrap()
        .as_str()
        .unwrap();
    assert!(is_json(args), "Args not valid JSON: {}", args);
    let parsed: serde_json::Value = serde_json::from_str(args).unwrap();
    assert_eq!(parsed["text"], "hello");
}

#[test]
fn quotes_are_collapsed() {
    assert_eq!(clean_arguments(r#"{"a": """x""}"#), r#"{"a": "x"}"#);
    assert_eq!(clean_arguments(r#""""""x"#), r#""x"#);
    // an empty string value ends the collapsing
    assert_eq!(clean_arguments(r#"{"a": "", "b": x""}"#), r#"{"a": "", "b": x""}"#);
    assert_eq!(clean_arguments(r#"{"a":""}"#), r#"{"a":""}"#);
    assert_eq!(clean_arguments(r#"{"a":"""#), r#"{"a":"""#);
    assert_eq!(clean_arguments("{\"a\":\"\"\u{e9}"), "{\"a\":\"\u{e9}");
    assert_eq!(clean_arguments("{\"a\":\"\"e"), "{\"a\":\"e");
    assert_eq!(clean_arguments("\u{e9}\"\","), "\u{e9}\",");
    assert_eq!(clean_arguments(r#"{"key"": 1}"#), r#"{"key": 1}"#);
    assert_eq!(clean_arguments(r#"{"": 1""#), r#"{"": 1""#);
}

#[test]
fn empty_strings_are_kept() {
    for s in [
        r#"{"": 1}"#,
        r#"{"a":1,"":2}"#,
        r#"{"a": 1, "": ""}"#,
        r#"{"a": "", "b": ""}"#,
        r#"{"a": [""]}"#,
        r#"["",1]"#,
        r#"[1,""]"#,
        r#"["", "x"]"#,
        r#"{"":""}"#,
        "{\n\"\": 1}",
    ] {
        assert!(is_json(s));
        assert_eq!(sanitize_tool_call_arguments(s), s);
    }
    assert_eq!(sanitize_tool_call_arguments(r#""": 1"#), r#"{"": 1}"#);
}

#[test]
fn a_quote_too_many_is_dropped_behind_any_character() {
    assert_eq!(clean_arguments(r#"["x,"",1]"#), r#"["x,",1]"#);
    assert_eq!(clean_arguments(r#"["x[""]"#), r#"["x["]"#);
    assert_eq!(clean_arguments(r#"{"a,"": 1}"#), r#"{"a,": 1}"#);
    assert_eq!(clean_arguments(r#"{"a{"": 1}"#), r#"{"a{": 1}"#);
    assert_eq!(clean_arguments(r#"{"a "": 1}"#), r#"{"a ": 1}"#);
    // an escaped quote neither opens nor closes a string
    assert_eq!(clean_arguments(r#"["\","",1]"#), r#"["\",",1]"#);
    assert_eq!(clean_arguments(r#"["\\","",x]"#), r#"["\\","",x]"#);
    let raw = r#"{"todos": [{"content": "<|\"Setup, then go,<|\"|", "id": "<|\"setup,<|\"|", "status": "<|\"in_progress,<|\""}]}"#;
    let cleaned = sanitize_tool_call_arguments(raw);
    assert!(is_json(&cleaned), "Result was not valid JSON: {}", cleaned);
}

#[test]
fn valid_json_is_kept() {
    for s in [
        r#"{"a":"x\""}"#,
        r#"{"a":"" }"#,
        r#"{"a" : "" , "b":"\"\""}"#,
        r#"{"":"\"","b":["","\"\"\""]}"#,
        r#""\"""#,
    ] {
        assert!(is_json(s));
        assert_eq!(sanitize_tool_call_arguments(s), s);
    }
    assert_eq!(sanitize_tool_call_arguments(r#"<|tool_call>{"a":"x\""}<tool_call|>"#), r#"{"a":"x\""}"#);
    assert_eq!(collapse_quotes(r#"{"a":"x\""}"#), r#"{"a":"x\"}"#);
    assert_eq!(strip_tokens(r#"<|"x""|>"#), r#""x"""#);
}

#[test]
fn texts_without_tokens_are_kept() {
    for s in [r#"{"cmd": "a | b"}"#, r#"{"cmd": "x < y > z || <w>"}"#, r#"{"tool_call": "a|b"}"#] {
        assert_eq!(sanitize_tool_call_arguments(s), s);
        assert_eq!(sanitize_string(s), s);
    }
}

#[test]
fn arguments_without_braces_get_them() {
    assert_eq!(sanitize_tool_call_arguments(r#""a": 1"#), r#"{"a": 1}"#);
    assert_eq!(sanitize_tool_call_arguments(r#""a""#), r#""a""#);
    assert_eq!(sanitize_tool_call_arguments("a: b"), "a: b");
    assert_eq!(sanitize_tool_call_arguments("{a: b"), "{a: b");
    let choose = |stripped_is_json: bool, cleaned: &str, is_json: bool, braced_is_json: bool| {
        let stripped = "stripped".to_string();
        choose_arguments(stripped, stripped_is_json, cleaned.to_string(), is_json, braced_is_json)
    };
    assert_eq!(choose(false, "x:y", false, true), "{x:y}");
    assert_eq!(choose(false, "x:y", true, true), "x:y");
    assert_eq!(choose(false, "x:y", false, false), "x:y");
    assert_eq!(choose(false, "{x:y", false, true), "{x:y");
    assert_eq!(choose(false, "xy", false, true), "xy");
    assert_eq!(choose(true, "x:y", false, true), "stripped");
}

#[test]
fn content_is_cleaned() {
    assert_eq!(sanitize_string(r#"<|tool_call>a<tool_call|> <|"|>b<|"|>"#), r#"a "b""#);
    assert_eq!(sanitize_string("a | b"), "a | b");
    let mut msg = json(r#"{"content": "<|\"|>hi<|\"|>"}"#);
    sanitize_message(&mut msg);
    assert_eq!(msg.to_text().unwrap(), r#"{"content":"\"hi\""}"#);
    let mut msg = json(r#"{"content": 3, "tool_calls": "x"}"#);
    sanitize_message(&mut msg);
    assert_eq!(msg.to_text().unwrap(), r#"{"content":3,"tool_calls":"x"}"#);
}

#[test]
fn bodies_are_cleaned() {
    let p = Gemma4ToolCallFix;
    let mut body = json(r#"{"messages":[{"content":"<|\"|>"},{"content":"x"}]}"#);
    p.process_request(&mut body);
    assert_eq!(body.to_text().unwrap(), r#"{"messages":[{"content":"\""},{"content":"x"}]}"#);

    let dirty = r#"{"choices":[{"delta":{"content":"<|\"|>"},"message":{"content":"<|\"|>"}}],"message":{"content":"<|\"|>"}}"#;
    let mut body = json(dirty);
    p.process_response(&mut body);
    assert_eq!(
        body.to_text().unwrap(),
        r#"{"choices":[{"delta":{"content":"\""},"message":{"content":"\""}}],"message":{"content":"\""}}"#
    );

    let mut chunk = json(dirty);
    p.process_response_chunk(&mut chunk);
    assert_eq!(
        chunk.to_text().unwrap(),
        r#"{"choices":[{"delta":{"content":"\""},"message":{"content":"<|\"|>"}}],"message":{"content":"\""}}"#
    );
    assert!(p.repair_raw_response("x").is_none());
}

#[test]
fn built_in_processors() {
    let registry = ProcessorRegistry::new();
    let list = registry.list();
    assert_eq!(list.len(), 1);
    assert_eq!(list[0].id, "gemma4-tool-call-fix");
    assert_eq!(list[0].phase, ProcessorPhase::Both);
    assert_eq!(
        list[0].description,
        "Fix malformed JSON in Gemma 4 tool calls — strips leaked special tokens \
         (<|\">, <|tool_call>, etc.) and repairs invalid escape sequences produced \
         when the serving backend lacks a native Gemma 4 tool-call parser"
    );
    assert!(registry.get("gemma4-tool-call-fix").is_some());
    assert!(registry.get("other").is_none());
}

#[test]
fn processors_run_by_id() {
    let registry = ProcessorRegistry::new();
    let ids: Vec<String> = ["nobody", "gemma4-tool-call-fix"].iter().map(|s| s.to_string()).collect();
    let dirty = r#"{"choices":[{"message":{"content":"<|\"|>"}}],"messages":[{"content":"<|\"|>"}]}"#;

    let mut body = json(dirty);
    registry.apply_preprocessors(&ids, &mut body);
    assert_eq!(
        body.to_text().unwrap(),
        r#"{"choices":[{"message":{"content":"<|\"|>"}}],"messages":[{"content":"\""}]}"#
    );

    let mut body = json(dirty);
    registry.apply_postprocessors(&ids, &mut body);
    assert_eq!(
        body.to_text().unwrap(),
        r#"{"choices":[{"message":{"content":"\""}}],"messages":[{"content":"<|\"|>"}]}"#
    );

    let mut chunk = json(dirty);
    registry.apply_chunk_postprocessors(&ids, &mut chunk);
    assert_eq!(chunk.to_text().unwrap(), dirty);

    for ids in [&ids[..1], &[]] {
        let mut body = json(dirty);
        registry.apply_preprocessors(ids, &mut body);
        registry.apply_postprocessors(ids, &mut body);
        registry.apply_chunk_postprocessors(ids, &mut body);
        assert_eq!(body.to_text().unwrap(), dirty);
    }
    assert!(registry.try_repair_raw(&ids, "<|\"|>").is_none());

    let mut registry = registry;
    registry.register(Gemma4ToolCallFix);
    assert_eq!(registry.list().len(), 2);
}
