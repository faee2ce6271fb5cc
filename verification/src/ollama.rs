//! Messages of the Ollama API.

use vstd::prelude::*;

use crate::json::{text_of, truth_of, Json, JsonView};

verus! {

/// Minimal representation of an Ollama chat request.
#[derive(Clone, Debug)]
pub struct ChatRequest {
    pub model: String,
    pub messages: Vec<Json>,
    pub stream: Option<bool>,
    pub extra: Vec<(String, Json)>,
}

/// Minimal representation of an Ollama generate request.
#[derive(Clone, Debug)]
pub struct GenerateRequest {
    pub model: String,
    pub prompt: String,
    pub stream: Option<bool>,
    pub extra: Vec<(String, Json)>,
}

/// Minimal representation of an Ollama embed request.
#[derive(Clone, Debug)]
pub struct EmbedRequest {
    pub model: String,
    pub input: Json,
    pub extra: Vec<(String, Json)>,
}

/// Usage info from a completed Ollama response.
#[derive(Clone, Copy, Debug)]
pub struct OllamaUsage {
    pub prompt_tokens: Option<u64>,
    pub completion_tokens: Option<u64>,
    pub prompt_eval_count: Option<u64>,
    pub eval_count: Option<u64>,
}

impl Default for OllamaUsage {
    fn default() -> (r: Self)
        ensures
            r.prompt_tokens is None,
            r.completion_tokens is None,
            r.prompt_eval_count is None,
            r.eval_count is None,
    {
        OllamaUsage {
            prompt_tokens: None,
            completion_tokens: None,
            prompt_eval_count: None,
            eval_count: None,
        }
    }
}

/// Non-streaming chat response.
#[derive(Clone, Debug)]
pub struct ChatResponse {
    pub model: Option<String>,
    pub message: Option<Json>,
    pub done: Option<bool>,
    pub prompt_eval_count: Option<u64>,
    pub eval_count: Option<u64>,
}

/// Non-streaming generate response.
#[derive(Clone, Debug)]
pub struct GenerateResponse {
    pub model: Option<String>,
    pub response: Option<String>,
    pub done: Option<bool>,
    pub prompt_eval_count: Option<u64>,
    pub eval_count: Option<u64>,
}

/// A single streaming chunk from Ollama.
#[derive(Clone, Debug)]
pub struct StreamChunk {
    pub model: Option<String>,
    pub message: Option<Json>,
    pub response: Option<String>,
    pub done: Option<bool>,
    pub prompt_eval_count: Option<u64>,
    pub eval_count: Option<u64>,
}

impl StreamChunk {
    /// Whether this is the last chunk; a chunk that does not say so is not.
    pub fn is_done(&self) -> (r: bool)
        ensures
            r == (self.done == Some(true)),
    {
        self.done.unwrap_or(false)
    }
}

/// The text of a chat message; a message without text has the empty one.
pub open spec fn chat_output(message: JsonView) -> Seq<char> {
    match text_of(message.member("content"@)) {
        Some(s) => s,
        None => Seq::empty(),
    }
}

/// Extract the text output from a chat response message.
pub fn extract_chat_output(message: &Json) -> (r: String)
    ensures
        r@ == chat_output(message@),
{
    if let Some(content) = message.get("content") {
        if let Some(text) = content.as_str() {
            return text.to_owned();
        }
    }
    String::new()
}

/// What a request body says of streaming, or what holds if it says nothing.
pub open spec fn stream_flag(body: JsonView, default: bool) -> bool {
    match truth_of(body.member("stream"@)) {
        Some(b) => b,
        None => default,
    }
}

/// What a request body says of streaming, or what holds if it says nothing.
pub fn stream_flag_or(body: &Json, default: bool) -> (r: bool)
    ensures
        r == stream_flag(body@, default),
{
    if let Some(v) = body.get("stream") {
        if let Some(b) = v.as_bool() {
            return b;
        }
    }
    default
}

/// Determine if a request body has streaming enabled.
/// Ollama defaults to stream=true for chat/generate.
pub fn is_streaming(body: &Json) -> (r: bool)
    ensures
        r == stream_flag(body@, true),
{
    stream_flag_or(body, true)
}

/// A body says of streaming what its member `stream` says, if that is a boolean; else
/// the default holds.  The text of a message is its content, if that is a text; else it
/// is empty.
pub proof fn law_ollama_bodies(body: JsonView, default: bool)
    ensures
        match body.member("stream"@) {
            Some(JsonView::Bool(b)) => stream_flag(body, default) == b,
            _ => stream_flag(body, default) == default,
        },
        match body.member("content"@) {
            Some(JsonView::Str(s)) => chat_output(body) == s,
            _ => chat_output(body).len() == 0,
        },
{
}

} // verus!
