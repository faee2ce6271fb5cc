use ollama_gateway::connection_id::ConnectionId;
use ollama_gateway::error::GatewayError;
use ollama_gateway::json::Json;
use ollama_gateway::ollama::{extract_chat_output, is_streaming, OllamaUsage, StreamChunk};

fn json(s: &str) -> Json {
    Json::parse(s).unwrap()
}

#[test]
fn test_is_streaming_default_true() {
    let body = json(r#"{ "model": "llama3" }"#);
    assert!(is_streaming(&body));
}

#[test]
fn test_is_streaming_explicit_false() {
    let body = json(r#"{ "model": "llama3", "stream": false }"#);
    assert!(!is_streaming(&body));
}

#[test]
fn test_is_streaming_explicit_true() {
    let body = json(r#"{ "model": "llama3", "stream": true }"#);
    assert!(is_streaming(&body));
}

#[test]
fn test_extract_chat_output() {
    let msg = json(r#"{ "role": "assistant", "content": "Hello!" }"#);
    assert_eq!(extract_chat_output(&msg), "Hello!");
}

#[test]
fn chat_output_of_other_shapes() {
    assert_eq!(extract_chat_output(&json(r#"{"content": 5}"#)), "");
    assert_eq!(extract_chat_output(&json("[]")), "");
    assert!(is_streaming(&json(r#"{"stream": "no"}"#)));
}

fn chunk(done: Option<bool>) -> StreamChunk {
    StreamChunk {
        model: None,
        message: None,
        response: None,
        done,
        prompt_eval_count: None,
        eval_count: None,
    }
}

#[test]
fn chunks_are_done_when_they_say_so() {
    assert!(chunk(Some(true)).is_done());
    assert!(chunk(Some(true)).clone().is_done());
    assert!(!chunk(Some(false)).is_done());
    assert!(!chunk(None).is_done());
    assert!(OllamaUsage::default().eval_count.is_none());
}

#[test]
fn json_is_read_and_written() {
    let text = r#"{"b":[1,-2,2.5,null,true,"x\n"],"a":{"k":18446744073709551615}}"#;
    let v = json(text);
    assert_eq!(
        v.to_text().unwrap(),
        r#"{"a":{"k":18446744073709551615},"b":[1,-2,2.5,null,true,"x\n"]}"#
    );
    assert_eq!(v.to_vec().unwrap(), v.to_text().unwrap().into_bytes());
    assert_eq!(v.clone().to_text(), v.to_text());
    assert_eq!(v.get("a").unwrap().get("k").unwrap().as_u64(), Some(u64::MAX));
    assert_eq!(v.get("b").unwrap().at(0).unwrap().as_u64(), Some(1));
    assert_eq!(v.get("b").unwrap().at(1).unwrap().as_u64(), None);
    assert_eq!(v.get("b").unwrap().at(2).unwrap().as_u64(), None);
    assert!(v.get("b").unwrap().at(6).is_none());
    assert!(Json::parse("{").is_none());
    assert!(Json::from_slice(b"\xff").is_none());
    assert!(Json::from_slice(b"[1]").is_some());
}

#[test]
fn the_last_member_of_a_name_counts() {
    let mut v = json(r#"{"a":1}"#);
    v.set("a", Json::Unsigned(2));
    assert_eq!(v.get("a").unwrap().as_u64(), Some(2));
    *v.get_mut("a").unwrap() = Json::Null;
    assert_eq!(v.to_text().unwrap(), r#"{"a":null}"#);
    assert!(v.get_mut("b").is_none());
    v.set("b", json("[1]"));
    v.set("a", Json::Unsigned(3));
    v.set("b", Json::Unsigned(4));
    v.set("a", json("{}"));
    assert_eq!(v.to_text().unwrap(), r#"{"a":{},"b":4}"#);
    assert_eq!(v.to_vec().unwrap(), br#"{"a":{},"b":4}"#);
    assert_eq!(json(r#"{"x":1,"x":{"y":1,"y":2}}"#).to_text().unwrap(), r#"{"x":{"y":2}}"#);
}

#[test]
fn gateway_errors() {
    let replies = [
        (GatewayError::Unauthorized("a".to_string()), 401, "a"),
        (GatewayError::BadGateway("b".to_string()), 502, "b"),
        (GatewayError::InternalError("c".to_string()), 500, "c"),
    ];
    for (error, status, message) in replies {
        let reply = error.into_response();
        assert_eq!(reply.status, status);
        assert_eq!(
            reply.body.to_text().unwrap(),
            format!(r#"{{"error":{{"message":"{}","type":"gateway_error"}}}}"#, message)
        );
    }
}

#[test]
fn connection_ids_are_random_uuids() {
    let a = ConnectionId::generate().0;
    let b = ConnectionId::generate().0;
    assert_ne!(a, b);
    assert_eq!(a.len(), 36);
    for (i, c) in a.chars().enumerate() {
        match i {
            8 | 13 | 18 | 23 => assert_eq!(c, '-'),
            14 => assert_eq!(c, '4'),
            19 => assert!("89ab".contains(c)),
            _ => assert!(c.is_ascii_hexdigit() && !c.is_ascii_uppercase()),
        }
    }
}
