//! What requests and replies say: prompts, answers and token counts.

use vstd::prelude::*;
use vstd::utf8::{decode_utf8, valid_utf8};

use crate::json::{
    element_of, elements, json_of_text, json_ref_view, json_view, member_of, text_of, truth_of,
    unsigned_of, Json, JsonView,
};
use crate::seqs::{first_where, lemma_first_where, views};
use crate::text::{
    after_prefix, begins_with, chomp, is_whole_lines, join, law_single_line,
    lemma_after_own_prefix, lemma_join_append, lemma_split_append, lines, split_lines,
    starts_with, strip_prefix, text_eq, text_lines, utf8_text,
};

verus! {

/// Tokens over the time that it took to generate them.
#[derive(Clone, Copy, Debug, PartialEq, Eq, Structural)]
pub struct TokenRate {
    pub tokens: u64,
    /// Nanoseconds, not zero.
    pub nanos: u64,
}

/// The rate of a number of tokens over a time, where both are known and there
/// was any time.
pub open spec fn rate(tokens: Option<u64>, nanos: Option<u64>) -> Option<TokenRate> {
    match (tokens, nanos) {
        (Some(t), Some(n)) => if n == 0 {
            None
        } else {
            Some(TokenRate { tokens: t, nanos: n })
        },
        _ => None,
    }
}

/// The rate of a number of tokens over a time.
pub fn token_rate(tokens: Option<u64>, nanos: Option<u64>) -> (r: Option<TokenRate>)
    ensures
        r == rate(tokens, nanos),
{
    match (tokens, nanos) {
        (Some(t), Some(n)) => if n == 0 {
            None
        } else {
            Some(TokenRate { tokens: t, nanos: n })
        },
        _ => None,
    }
}

// ---------------------------------------------------------------------
// Looking into a value

/// The member of that name of a value that may be missing.
pub fn get_of<'a>(v: Option<&'a Json>, key: &str) -> (r: Option<&'a Json>)
    ensures
        json_ref_view(r) == member_of(json_ref_view(v), key@),
{
    match v {
        Some(j) => j.get(key),
        None => None,
    }
}

/// The first element of a value that may be missing.
pub fn first_of<'a>(v: Option<&'a Json>) -> (r: Option<&'a Json>)
    ensures
        json_ref_view(r) == element_of(json_ref_view(v), 0),
{
    match v {
        Some(j) => j.at(0),
        None => None,
    }
}

/// The unsigned integer of a value that may be missing.
pub fn u64_of(v: Option<&Json>) -> (r: Option<u64>)
    ensures
        r == unsigned_of(json_ref_view(v)),
{
    match v {
        Some(j) => j.as_u64(),
        None => None,
    }
}

/// A copy of a value that may be missing; a missing value is null.
pub fn value_or_null(v: Option<&Json>) -> (r: Json)
    ensures
        r@ == or_null(json_ref_view(v)),
{
    match v {
        Some(j) => j.clone(),
        None => Json::Null,
    }
}

/// A value that may be missing; a missing value is null.
pub open spec fn or_null(v: Option<JsonView>) -> JsonView {
    match v {
        Some(j) => j,
        None => JsonView::Null,
    }
}

// ---------------------------------------------------------------------
// Requests

/// Where the prompt of a request stands.
pub open spec fn input_key(path: Seq<char>) -> Seq<char> {
    if path == "/api/chat"@ || path == "/v1/chat/completions"@ {
        "messages"@
    } else if path == "/api/generate"@ || path == "/v1/completions"@ {
        "prompt"@
    } else {
        "input"@
    }
}

/// The prompt of a request; null if there is none.
pub fn extract_input(req_body: &Json, path: &str) -> (r: Json)
    ensures
        r@ == or_null(req_body@.member(input_key(path@))),
{
    let key = if text_eq(path, "/api/chat") || text_eq(path, "/v1/chat/completions") {
        "messages"
    } else if text_eq(path, "/api/generate") || text_eq(path, "/v1/completions") {
        "prompt"
    } else {
        "input"
    };
    value_or_null(req_body.get(key))
}

/// The model that a request names; `unknown` if it names none.
pub open spec fn requested_model(body: Option<JsonView>) -> Seq<char> {
    match text_of(member_of(body, "model"@)) {
        Some(m) => m,
        None => "unknown"@,
    }
}

/// The model that a request names.
pub fn request_model(body: &Option<Json>) -> (r: String)
    ensures
        r@ == requested_model(json_view(*body)),
{
    if let Some(b) = body {
        if let Some(m) = b.get("model") {
            if let Some(s) = m.as_str() {
                return s.to_owned();
            }
        }
    }
    "unknown".to_owned()
}

// ---------------------------------------------------------------------
// Whole replies

/// Prompt and completion tokens in the usage object of a reply.
pub open spec fn usage_tokens(reply: JsonView) -> (Option<u64>, Option<u64>) {
    let usage = reply.member("usage"@);
    (
        unsigned_of(member_of(usage, "prompt_tokens"@)),
        unsigned_of(member_of(usage, "completion_tokens"@)),
    )
}

/// Prompt and completion tokens in the usage object of a reply.
pub fn openai_usage(resp_json: &Json) -> (r: (Option<u64>, Option<u64>))
    ensures
        r == usage_tokens(resp_json@),
{
    let usage = resp_json.get("usage");
    (u64_of(get_of(usage, "prompt_tokens")), u64_of(get_of(usage, "completion_tokens")))
}

/// The first of the choices of a reply.
pub open spec fn first_choice(reply: JsonView) -> Option<JsonView> {
    element_of(reply.member("choices"@), 0)
}

/// Prompt tokens, completion tokens and rate as Ollama gives them.
pub open spec fn ollama_stats(v: Option<JsonView>) -> (
    Option<u64>,
    Option<u64>,
    Option<TokenRate>,
) {
    let tokens = unsigned_of(member_of(v, "eval_count"@));
    let nanos = unsigned_of(member_of(v, "eval_duration"@));
    (unsigned_of(member_of(v, "prompt_eval_count"@)), tokens, rate(tokens, nanos))
}

/// Prompt tokens, completion tokens and rate as Ollama gives them.
pub fn read_ollama_stats(v: Option<&Json>) -> (r: (Option<u64>, Option<u64>, Option<TokenRate>))
    ensures
        r == ollama_stats(json_ref_view(v)),
{
    let tokens = u64_of(get_of(v, "eval_count"));
    let nanos = u64_of(get_of(v, "eval_duration"));
    (u64_of(get_of(v, "prompt_eval_count")), tokens, token_rate(tokens, nanos))
}

/// The answer in a reply, by path.
pub open spec fn reply_output(reply: JsonView, path: Seq<char>) -> JsonView {
    if path == "/api/chat"@ {
        or_null(member_of(reply.member("message"@), "content"@))
    } else if path == "/api/generate"@ {
        or_null(reply.member("response"@))
    } else if path == "/api/embed"@ || path == "/api/embeddings"@ || path == "/v1/embeddings"@ {
        JsonView::Str("[embedding vector]"@)
    } else if path == "/v1/chat/completions"@ {
        or_null(member_of(member_of(first_choice(reply), "message"@), "content"@))
    } else if path == "/v1/completions"@ {
        or_null(member_of(first_choice(reply), "text"@))
    } else {
        JsonView::Null
    }
}

/// Prompt tokens, completion tokens and rate in a reply, by path.
pub open spec fn reply_stats(reply: JsonView, path: Seq<char>) -> (
    Option<u64>,
    Option<u64>,
    Option<TokenRate>,
) {
    if path == "/api/chat"@ || path == "/api/generate"@ {
        ollama_stats(Some(reply))
    } else if path == "/api/embed"@ || path == "/api/embeddings"@ {
        (unsigned_of(reply.member("prompt_eval_count"@)), None, None)
    } else if path == "/v1/embeddings"@ {
        (usage_tokens(reply).0, None, None)
    } else if path == "/v1/chat/completions"@ || path == "/v1/completions"@ {
        (usage_tokens(reply).0, usage_tokens(reply).1, None)
    } else {
        (None, None, None)
    }
}

/// The answer in a reply, with prompt tokens, completion tokens and rate.
pub fn extract_output(resp_json: &Json, path: &str) -> (r: (
    Json,
    Option<u64>,
    Option<u64>,
    Option<TokenRate>,
))
    ensures
        r.0@ == reply_output(resp_json@, path@),
        (r.1, r.2, r.3) == reply_stats(resp_json@, path@),
{
    if text_eq(path, "/api/chat") {
        let (pt, ct, rate) = read_ollama_stats(Some(resp_json));
        (value_or_null(get_of(resp_json.get("message"), "content")), pt, ct, rate)
    } else if text_eq(path, "/api/generate") {
        let (pt, ct, rate) = read_ollama_stats(Some(resp_json));
        (value_or_null(resp_json.get("response")), pt, ct, rate)
    } else if text_eq(path, "/api/embed") || text_eq(path, "/api/embeddings") {
        (
            Json::str("[embedding vector]"),
            u64_of(resp_json.get("prompt_eval_count")),
            None,
            None,
        )
    } else if text_eq(path, "/v1/embeddings") {
        let (pt, _) = openai_usage(resp_json);
        (Json::str("[embedding vector]"), pt, None, None)
    } else if text_eq(path, "/v1/chat/completions") {
        let (pt, ct) = openai_usage(resp_json);
        let choice = first_of(resp_json.get("choices"));
        (value_or_null(get_of(get_of(choice, "message"), "content")), pt, ct, None)
    } else if text_eq(path, "/v1/completions") {
        let (pt, ct) = openai_usage(resp_json);
        let choice = first_of(resp_json.get("choices"));
        (value_or_null(get_of(choice, "text")), pt, ct, None)
    } else {
        (Json::Null, None, None, None)
    }
}

// ---------------------------------------------------------------------
// Streamed replies

/// The value in a line of server-sent events: what follows `data: `, unless
/// that says that the stream is done or is no JSON.
pub open spec fn sse_value(line: Seq<char>) -> Option<JsonView> {
    match after_prefix(line, "data: "@) {
        Some(payload) => if payload == "[DONE]"@ {
            None
        } else {
            json_of_text(payload)
        },
        None => None,
    }
}

/// The value in a line of a streamed reply: server-sent events under `/v1/`,
/// one JSON value per line elsewhere.
pub open spec fn line_value(line: Seq<char>, sse: bool) -> Option<JsonView> {
    if sse {
        sse_value(line)
    } else {
        json_of_text(line)
    }
}

/// The paths whose streams are server-sent events.
pub open spec fn is_openai(path: Seq<char>) -> bool {
    begins_with(path, "/v1/"@)
}

/// The values in a streamed reply, in order; lines without one are passed
/// over.
pub open spec fn streamed_values(text: Seq<char>, sse: bool) -> Seq<JsonView> {
    lines(text).filter_map(|line: Seq<char>| line_value(line, sse))
}

/// Parse streaming chunks from either NDJSON (native Ollama) or SSE (OpenAI /v1/ paths).
pub fn parse_streaming_chunks(text: &str, path: &str) -> (r: Vec<Json>)
    ensures
        elements(r@) == streamed_values(text@, is_openai(path@)),
{
    let sse = starts_with(path, "/v1/");
    let all = text_lines(text);
    let ghost rows = lines(text@);
    let ghost f = |line: Seq<char>| line_value(line, sse);
    let mut out: Vec<Json> = Vec::new();
    let mut i: usize = 0;
    assert(rows.take(0) =~= Seq::<Seq<char>>::empty());
    assert(elements(out@) =~= Seq::<JsonView>::empty());
    while i < all.len()
        invariant
            i <= all@.len(),
            rows == views(all@),
            f == (|line: Seq<char>| line_value(line, sse)),
            elements(out@) == rows.take(i as int).filter_map(f),
        decreases all.len() - i,
    {
        assert(rows.take(i + 1).drop_last() =~= rows.take(i as int));
        let ghost before = elements(out@);
        let line = all[i].as_str();
        let value = if sse {
            match strip_prefix(line, "data: ") {
                Some(payload) => if text_eq(payload.as_str(), "[DONE]") {
                    None
                } else {
                    Json::parse(payload.as_str())
                },
                None => None,
            }
        } else {
            Json::parse(line)
        };
        assert(json_view(value) == line_value(line@, sse));
        if let Some(v) = value {
            out.push(v);
            assert(elements(out@) =~= before + seq![v@]);
        }
        i += 1;
    }
    assert(rows.take(rows.len() as int) =~= rows);
    out
}

/// The piece of the answer in one streamed value, by path.
pub open spec fn chunk_text(chunk: JsonView, path: Seq<char>) -> Seq<char> {
    let text = if path == "/api/chat"@ {
        text_of(member_of(chunk.member("message"@), "content"@))
    } else if path == "/api/generate"@ {
        text_of(chunk.member("response"@))
    } else if path == "/v1/chat/completions"@ {
        text_of(member_of(member_of(first_choice(chunk), "delta"@), "content"@))
    } else if path == "/v1/completions"@ {
        text_of(member_of(first_choice(chunk), "text"@))
    } else {
        None
    };
    match text {
        Some(s) => s,
        None => Seq::empty(),
    }
}

/// The answer in streamed values: its pieces, joined.
pub open spec fn streamed_text(chunks: Seq<JsonView>, path: Seq<char>) -> Seq<char> {
    join(chunks.map_values(|c: JsonView| chunk_text(c, path)))
}

/// The piece of the answer in one streamed value.
fn piece_of<'a>(chunk: &'a Json, path: &str) -> (r: Option<&'a str>)
    ensures
        match r {
            Some(s) => s@ == chunk_text(chunk@, path@),
            None => chunk_text(chunk@, path@) == Seq::<char>::empty(),
        },
{
    let value = if text_eq(path, "/api/chat") {
        get_of(chunk.get("message"), "content")
    } else if text_eq(path, "/api/generate") {
        chunk.get("response")
    } else if text_eq(path, "/v1/chat/completions") {
        get_of(get_of(first_of(chunk.get("choices")), "delta"), "content")
    } else if text_eq(path, "/v1/completions") {
        get_of(first_of(chunk.get("choices")), "text")
    } else {
        None
    };
    match value {
        Some(v) => v.as_str(),
        None => None,
    }
}

/// The answer in streamed values.
pub fn chunks_text(chunks: &Vec<Json>, path: &str) -> (r: String)
    ensures
        r@ == streamed_text(elements(chunks@), path@),
{
    let ghost pieces = elements(chunks@).map_values(|c: JsonView| chunk_text(c, path@));
    let mut output = String::new();
    let mut i: usize = 0;
    assert(pieces.take(0) =~= Seq::<Seq<char>>::empty());
    while i < chunks.len()
        invariant
            i <= chunks@.len(),
            pieces == elements(chunks@).map_values(|c: JsonView| chunk_text(c, path@)),
            output@ == join(pieces.take(i as int)),
        decreases chunks.len() - i,
    {
        assert(pieces.take(i + 1).drop_last() =~= pieces.take(i as int));
        assert(pieces[i as int] == chunk_text(chunks@[i as int]@, path@));
        match piece_of(&chunks[i], path) {
            Some(s) => output.append(s),
            None => {
                assert(output@ =~= output@ + Seq::<char>::empty());
            },
        }
        i += 1;
    }
    assert(pieces.take(pieces.len() as int) =~= pieces);
    output
}

/// Token counts and rate in streamed values: from the first usage object under
/// `/v1/`, from the first value that says that it is done elsewhere.
pub open spec fn streamed_stats(chunks: Seq<JsonView>, sse: bool) -> (
    Option<u64>,
    Option<u64>,
    Option<TokenRate>,
) {
    if sse {
        match first_where(chunks, |c: JsonView| c.member("usage"@) is Some) {
            Some(c) => (usage_tokens(c).0, usage_tokens(c).1, None),
            None => (None, None, None),
        }
    } else {
        ollama_stats(first_where(chunks, |c: JsonView| truth_of(c.member("done"@)) == Some(true)))
    }
}

/// Token counts and rate in streamed values.
pub fn chunks_stats(chunks: &Vec<Json>, path: &str) -> (r: (
    Option<u64>,
    Option<u64>,
    Option<TokenRate>,
))
    ensures
        r == streamed_stats(elements(chunks@), is_openai(path@)),
{
    let ghost all = elements(chunks@);
    let mut i: usize = 0;
    if starts_with(path, "/v1/") {
        let ghost f = |c: JsonView| c.member("usage"@) is Some;
        while i < chunks.len()
            invariant
                i <= chunks@.len(),
                all == elements(chunks@),
                is_openai(path@),
                f == (|c: JsonView| c.member("usage"@) is Some),
                forall|k: int| 0 <= k < i ==> !f(#[trigger] all[k]),
            decreases chunks.len() - i,
        {
            assert(all[i as int] == chunks@[i as int]@);
            if chunks[i].get("usage").is_some() {
                proof {
                    lemma_first_where(all, f, i as int);
                }
                let (pt, ct) = openai_usage(&chunks[i]);
                return (pt, ct, None);
            }
            i += 1;
        }
        proof {
            lemma_first_where(all, f, all.len() as int);
        }
        (None, None, None)
    } else {
        let ghost f = |c: JsonView| truth_of(c.member("done"@)) == Some(true);
        while i < chunks.len()
            invariant
                i <= chunks@.len(),
                all == elements(chunks@),
                !is_openai(path@),
                f == (|c: JsonView| truth_of(c.member("done"@)) == Some(true)),
                forall|k: int| 0 <= k < i ==> !f(#[trigger] all[k]),
            decreases chunks.len() - i,
        {
            assert(all[i as int] == chunks@[i as int]@);
            let done = match chunks[i].get("done") {
                Some(d) => d.as_bool(),
                None => None,
            };
            if done.unwrap_or(false) {
                proof {
                    lemma_first_where(all, f, i as int);
                }
                return read_ollama_stats(Some(&chunks[i]));
            }
            i += 1;
        }
        proof {
            lemma_first_where(all, f, all.len() as int);
        }
        read_ollama_stats(None)
    }
}

/// The answer in the bytes of a streamed reply; empty if they are no text.
pub open spec fn streamed_output(bytes: Seq<u8>, path: Seq<char>) -> Seq<char> {
    if valid_utf8(bytes) {
        streamed_text(
            streamed_values(decode_utf8(bytes), is_openai(path)),
            path,
        )
    } else {
        Seq::empty()
    }
}

/// The answer in the bytes of a streamed reply.
pub fn extract_streaming_output_text(accumulated: &[u8], path: &str) -> (r: String)
    ensures
        r@ == streamed_output(accumulated@, path@),
{
    match utf8_text(accumulated) {
        Some(text) => chunks_text(&parse_streaming_chunks(text.as_str(), path), path),
        None => String::new(),
    }
}

/// Token counts and rate in the bytes of a streamed reply; none if they are no
/// text.
pub open spec fn streamed_counts(bytes: Seq<u8>, path: Seq<char>) -> (
    Option<u64>,
    Option<u64>,
    Option<TokenRate>,
) {
    if valid_utf8(bytes) {
        streamed_stats(
            streamed_values(decode_utf8(bytes), is_openai(path)),
            is_openai(path),
        )
    } else {
        (None, None, None)
    }
}

/// Extract token counts and tok/s from accumulated streaming bytes.
pub fn extract_streaming_stats(accumulated: &[u8], path: &str) -> (r: (
    Option<u64>,
    Option<u64>,
    Option<TokenRate>,
))
    ensures
        r == streamed_counts(accumulated@, path@),
{
    match utf8_text(accumulated) {
        Some(text) => chunks_stats(&parse_streaming_chunks(text.as_str(), path), path),
        None => (None, None, None),
    }
}

// ---------------------------------------------------------------------
// Laws

/// The count is the number under that name, if it is an unsigned 64-bit integer;
/// else there is none.
pub open spec fn is_count_under(v: JsonView, key: Seq<char>, count: Option<u64>) -> bool {
    match v {
        JsonView::Object(m) => if m.contains_key(key) {
            match m[key] {
                JsonView::Int(n) => if 0 <= n <= u64::MAX {
                    count is Some && count->0 == n
                } else {
                    count is None
                },
                _ => count is None,
            }
        } else {
            count is None
        },
        _ => count is None,
    }
}

/// The rate is that of a number of tokens over a number of nanoseconds; there is
/// none if either is missing or there was no time.
pub open spec fn is_rate_of(
    r: Option<TokenRate>,
    tokens: Option<u64>,
    nanos: Option<u64>,
) -> bool {
    match r {
        Some(x) => tokens == Some(x.tokens) && nanos == Some(x.nanos) && x.nanos != 0,
        None => tokens is None || nanos is None || nanos == Some(0u64),
    }
}

/// The token counts of a whole reply of Ollama's chat and generate endpoints:
/// the prompt tokens are its `prompt_eval_count`, the completion tokens its
/// `eval_count`, and the rate is that of the completion tokens over its
/// `eval_duration`.
pub proof fn law_ollama_counts(reply: JsonView, path: Seq<char>, nanos: Option<u64>)
    requires
        path == "/api/chat"@ || path == "/api/generate"@,
        is_count_under(reply, "eval_duration"@, nanos),
    ensures
        is_count_under(reply, "prompt_eval_count"@, reply_stats(reply, path).0),
        is_count_under(reply, "eval_count"@, reply_stats(reply, path).1),
        is_rate_of(reply_stats(reply, path).2, reply_stats(reply, path).1, nanos),
{
}

/// The token counts of a whole reply of the other endpoints: embeddings count
/// prompt tokens only, and replies under `/v1/` have their counts in the usage
/// object; there is no rate.
pub proof fn law_other_counts(reply: JsonView, path: Seq<char>)
    ensures
        ({
            let (prompt, completion, r) = reply_stats(reply, path);
            let usage = match reply.member("usage"@) {
                Some(u) => u,
                None => JsonView::Null,
            };
            &&& path == "/api/embed"@ || path == "/api/embeddings"@ ==> is_count_under(
                reply,
                "prompt_eval_count"@,
                prompt,
            ) && completion is None && r is None
            &&& path == "/v1/embeddings"@ ==> is_count_under(usage, "prompt_tokens"@, prompt)
                && completion is None && r is None
            &&& path == "/v1/chat/completions"@ || path == "/v1/completions"@ ==> is_count_under(
                usage,
                "prompt_tokens"@,
                prompt,
            ) && is_count_under(usage, "completion_tokens"@, completion) && r is None
            &&& !is_endpoint(path) ==> prompt is None && completion is None && r is None
        }),
{
    lemma_paths_differ();
}

/// The endpoints whose replies are read.
pub open spec fn is_endpoint(path: Seq<char>) -> bool {
    ||| path == "/api/chat"@
    ||| path == "/api/generate"@
    ||| path == "/api/embed"@
    ||| path == "/api/embeddings"@
    ||| path == "/v1/embeddings"@
    ||| path == "/v1/chat/completions"@
    ||| path == "/v1/completions"@
}

/// The paths of the endpoints are different texts.
proof fn lemma_paths_differ()
    ensures
        "/api/chat"@.len() == 9,
        "/api/generate"@.len() == 13,
        "/api/embed"@.len() == 10,
        "/api/embeddings"@.len() == 15,
        "/v1/embeddings"@.len() == 14,
        "/v1/chat/completions"@.len() == 20,
        "/v1/completions"@.len() == 15,
        "/v1/completions"@[1] == 'v',
        "/api/embeddings"@[1] == 'a',
{
    reveal_strlit("/api/chat");
    reveal_strlit("/api/generate");
    reveal_strlit("/api/embed");
    reveal_strlit("/api/embeddings");
    reveal_strlit("/v1/embeddings");
    reveal_strlit("/v1/chat/completions");
    reveal_strlit("/v1/completions");
}

/// The value is what stands under that name; null if nothing does.
pub open spec fn is_value_under(v: JsonView, key: Seq<char>, value: JsonView) -> bool {
    match v {
        JsonView::Object(m) => value == if m.contains_key(key) {
            m[key]
        } else {
            JsonView::Null
        },
        _ => value == JsonView::Null,
    }
}

/// The answer in a whole reply is what stands in the place that the endpoint has
/// for it, as it stands there; null if there is nothing.  Embeddings are not
/// copied.
pub proof fn law_answers(
    reply: JsonView,
    path: Seq<char>,
    message: JsonView,
    choices: JsonView,
    choice: JsonView,
    choice_message: JsonView,
)
    requires
        is_value_under(reply, "message"@, message),
        is_value_under(reply, "choices"@, choices),
        choice == match choices {
            JsonView::Array(a) => if a.len() > 0 {
                a[0]
            } else {
                JsonView::Null
            },
            _ => JsonView::Null,
        },
        is_value_under(choice, "message"@, choice_message),
    ensures
        path == "/api/chat"@ ==> is_value_under(message, "content"@, reply_output(reply, path)),
        path == "/api/generate"@ ==> is_value_under(
            reply,
            "response"@,
            reply_output(reply, path),
        ),
        path == "/v1/chat/completions"@ ==> is_value_under(
            choice_message,
            "content"@,
            reply_output(reply, path),
        ),
        path == "/v1/completions"@ ==> is_value_under(choice, "text"@, reply_output(reply, path)),
        path == "/api/embed"@ || path == "/api/embeddings"@ || path == "/v1/embeddings"@
            ==> reply_output(reply, path) == JsonView::Str("[embedding vector]"@),
        !is_endpoint(path) ==> reply_output(reply, path) == JsonView::Null,
{
    lemma_paths_differ();
}

/// The prompt of a request is what stands in the place that the endpoint has for
/// it: `messages` for chats, `prompt` for completions, `input` for the rest.
pub proof fn law_prompts(body: JsonView, path: Seq<char>)
    ensures
        path == "/api/chat"@ || path == "/v1/chat/completions"@ ==> is_value_under(
            body,
            "messages"@,
            or_null(body.member(input_key(path))),
        ),
        path == "/api/generate"@ || path == "/v1/completions"@ ==> is_value_under(
            body,
            "prompt"@,
            or_null(body.member(input_key(path))),
        ),
        path == "/api/embed"@ || path == "/api/embeddings"@ || path == "/v1/embeddings"@
            || !is_endpoint(path) ==> is_value_under(
            body,
            "input"@,
            or_null(body.member(input_key(path))),
        ),
{
    lemma_paths_differ();
}

/// The model of a request is the text under `model`, and `unknown` if there is
/// none.
pub proof fn law_requested_model(body: JsonView, model: JsonView)
    requires
        is_value_under(body, "model"@, model),
    ensures
        requested_model(Some(body)) == match model {
            JsonView::Str(s) => s,
            _ => "unknown"@,
        },
        requested_model(None) == "unknown"@,
{
}

/// The piece of the answer in a streamed value is the text in the place that the
/// endpoint has for it; nothing if there is no text.
pub proof fn law_pieces(
    chunk: JsonView,
    path: Seq<char>,
    message: JsonView,
    content: JsonView,
    response: JsonView,
    choices: JsonView,
    choice: JsonView,
    delta: JsonView,
    delta_content: JsonView,
    text: JsonView,
)
    requires
        is_value_under(chunk, "message"@, message),
        is_value_under(message, "content"@, content),
        is_value_under(chunk, "response"@, response),
        is_value_under(chunk, "choices"@, choices),
        choice == match choices {
            JsonView::Array(a) => if a.len() > 0 {
                a[0]
            } else {
                JsonView::Null
            },
            _ => JsonView::Null,
        },
        is_value_under(choice, "delta"@, delta),
        is_value_under(delta, "content"@, delta_content),
        is_value_under(choice, "text"@, text),
    ensures
        ({
            let piece = if path == "/api/chat"@ {
                content
            } else if path == "/api/generate"@ {
                response
            } else if path == "/v1/chat/completions"@ {
                delta_content
            } else if path == "/v1/completions"@ {
                text
            } else {
                JsonView::Null
            };
            streamed_text(seq![chunk], path) == match piece {
                JsonView::Str(s) => s,
                _ => Seq::empty(),
            }
        }),
{
    lemma_paths_differ();
    let pieces = seq![chunk].map_values(|c: JsonView| chunk_text(c, path));
    assert(pieces =~= seq![chunk_text(chunk, path)]);
    assert(pieces.drop_last() =~= Seq::<Seq<char>>::empty());
    assert(join(pieces.drop_last()) =~= Seq::<char>::empty());
    assert(join(pieces) =~= chunk_text(chunk, path));
}

/// The answer in a streamed reply is its pieces in order: that of values and of
/// those that follow them is the one and the other.
pub proof fn law_pieces_in_order(a: Seq<JsonView>, b: Seq<JsonView>, path: Seq<char>)
    ensures
        streamed_text(a + b, path) == streamed_text(a, path) + streamed_text(b, path),
        streamed_text(Seq::empty(), path) == Seq::<char>::empty(),
{
    let f = |c: JsonView| chunk_text(c, path);
    assert((a + b).map_values(f) =~= a.map_values(f) + b.map_values(f));
    lemma_join_append(a.map_values(f), b.map_values(f));
    assert(Seq::<JsonView>::empty().map_values(f) =~= Seq::<Seq<char>>::empty());
}

/// The token counts of a stream of Ollama are those of the first value that says
/// that it is done; there are none if no value does.
pub proof fn law_streamed_ollama_counts(chunks: Seq<JsonView>, i: int, nanos: Option<u64>)
    requires
        0 <= i <= chunks.len(),
        forall|k: int|
            0 <= k < i ==> (#[trigger] chunks[k]).member("done"@) != Some(JsonView::Bool(true)),
        i < chunks.len() ==> chunks[i].member("done"@) == Some(JsonView::Bool(true))
            && is_count_under(chunks[i], "eval_duration"@, nanos),
    ensures
        i < chunks.len() ==> {
            &&& is_count_under(chunks[i], "prompt_eval_count"@, streamed_stats(chunks, false).0)
            &&& is_count_under(chunks[i], "eval_count"@, streamed_stats(chunks, false).1)
            &&& is_rate_of(
                streamed_stats(chunks, false).2,
                streamed_stats(chunks, false).1,
                nanos,
            )
        },
        i == chunks.len() ==> streamed_stats(chunks, false) == (
            None::<u64>,
            None::<u64>,
            None::<TokenRate>,
        ),
{
    lemma_first_where(chunks, |c: JsonView| truth_of(c.member("done"@)) == Some(true), i);
}

/// The token counts of a stream under `/v1/` are those of the first usage object;
/// there are none if there is no such object.
pub proof fn law_streamed_usage(chunks: Seq<JsonView>, i: int, usage: JsonView)
    requires
        0 <= i <= chunks.len(),
        forall|k: int| 0 <= k < i ==> (#[trigger] chunks[k]).member("usage"@) is None,
        i < chunks.len() ==> chunks[i].member("usage"@) == Some(usage),
    ensures
        i < chunks.len() ==> {
            &&& is_count_under(usage, "prompt_tokens"@, streamed_stats(chunks, true).0)
            &&& is_count_under(usage, "completion_tokens"@, streamed_stats(chunks, true).1)
            &&& streamed_stats(chunks, true).2 is None
        },
        i == chunks.len() ==> streamed_stats(chunks, true) == (
            None::<u64>,
            None::<u64>,
            None::<TokenRate>,
        ),
{
    lemma_first_where(chunks, |c: JsonView| c.member("usage"@) is Some, i);
}

/// A line ending, or none at the end of the text.
pub open spec fn is_line_ending(body: Seq<char>, end: Seq<char>) -> bool {
    ||| end == seq!['\r', '\n']
    ||| end == seq!['\n'] && (body.len() > 0 ==> body.last() != '\r')
    ||| end.len() == 0 && body.len() > 0
}

/// The value in one line of a stream, whatever its line ending: elsewhere than under
/// `/v1/` the line is the JSON; under `/v1/` it is what follows `data: `, and the line
/// that says that the stream is done holds none, nor does one that is no event.
pub proof fn law_value_in_line(body: Seq<char>, payload: Seq<char>, end: Seq<char>)
    requires
        !body.contains('\n'),
        !payload.contains('\n'),
        is_line_ending(body, end),
        is_line_ending(payload, end),
    ensures
        streamed_values(body + end, false) == match json_of_text(body) {
            Some(v) => seq![v],
            None => Seq::empty(),
        },
        streamed_values("data: "@ + payload + end, true) == match json_of_text(payload) {
            Some(v) => if payload == "[DONE]"@ {
                Seq::empty()
            } else {
                seq![v]
            },
            None => Seq::empty(),
        },
        body.len() < 6 || body.take(6) != "data: "@ ==> streamed_values(body + end, true)
            == Seq::<JsonView>::empty(),
{
    reveal_strlit("data: ");
    lemma_value_in_line(body, end, false);
    lemma_value_in_line(body, end, true);
    let line = "data: "@ + payload;
    assert(!line.contains('\n')) by {
        if line.contains('\n') {
            let i = choose|i: int| 0 <= i < line.len() && line[i] == '\n';
            if i >= 6 {
                assert(payload.contains(payload[i - 6]));
            }
        }
    }
    if payload.len() > 0 {
        assert(line.last() == payload.last());
    }
    lemma_value_in_line(line, end, true);
    lemma_after_own_prefix("data: "@, payload);
    if body.len() >= 6 {
        assert(body.take(6) =~= body.subrange(0, 6));
    }
}

/// The values in a text of one line.
proof fn lemma_value_in_line(body: Seq<char>, end: Seq<char>, sse: bool)
    requires
        !body.contains('\n'),
        is_line_ending(body, end),
    ensures
        streamed_values(body + end, sse) == match line_value(body, sse) {
            Some(v) => seq![v],
            None => Seq::empty(),
        },
{
    let text = body + end;
    assert forall|i: int| 0 <= i < text.len() - 1 implies #[trigger] text[i] != '\n' by {
        if i < body.len() {
            assert(body.contains(body[i]));
        }
    }
    law_single_line(text);
    if end.len() == 0 {
        assert(text =~= body);
        assert(body.contains(body.last()));
    } else if end.len() == 1 {
        assert(text.drop_last() =~= body);
    } else {
        assert(text.drop_last().drop_last() =~= body);
    }
    let rows = lines(text);
    assert(chomp(text) =~= body);
    assert(rows =~= seq![body]);
    assert(rows.drop_last() =~= Seq::<Seq<char>>::empty());
    let f = |line: Seq<char>| line_value(line, sse);
    assert(rows.drop_last().filter_map(f) =~= Seq::<JsonView>::empty());
    assert(rows.filter_map(f) =~= match line_value(body, sse) {
        Some(v) => seq![v],
        None => Seq::empty(),
    });
}

/// The values of a stream come in the order of its lines: those of whole lines and
/// of what follows them are the ones and then the others.
pub proof fn law_values_in_order(a: Seq<char>, b: Seq<char>, sse: bool)
    requires
        a.len() > 0 ==> a.last() == '\n',
    ensures
        streamed_values(a + b, sse) == streamed_values(a, sse) + streamed_values(b, sse),
        streamed_values(Seq::empty(), sse) == Seq::<JsonView>::empty(),
{
    assert(is_whole_lines(a));
    lemma_split_append(a, b);
    let g = |l: Seq<char>| chomp(l);
    assert(lines(a + b) =~= lines(a) + lines(b)) by {
        assert(split_lines(a + b).map_values(g) =~= split_lines(a).map_values(g) + split_lines(
            b,
        ).map_values(g));
    }
    lemma_filter_map_append(lines(a), lines(b), |line: Seq<char>| line_value(line, sse));
    assert(lines(Seq::empty()) =~= Seq::<Seq<char>>::empty());
}

/// What is found in a sequence and in one that follows it.
proof fn lemma_filter_map_append(
    a: Seq<Seq<char>>,
    b: Seq<Seq<char>>,
    f: spec_fn(Seq<char>) -> Option<JsonView>,
)
    ensures
        (a + b).filter_map(f) == a.filter_map(f) + b.filter_map(f),
    decreases b.len(),
{
    if b.len() == 0 {
        assert(a + b =~= a);
        assert(a.filter_map(f) + b.filter_map(f) =~= a.filter_map(f));
    } else {
        assert((a + b).drop_last() =~= a + b.drop_last());
        lemma_filter_map_append(a, b.drop_last(), f);
        assert((a + b).filter_map(f) =~= a.filter_map(f) + b.filter_map(f));
    }
}

/// The answer and the counts in the bytes of a streamed reply are those of the
/// values in its text; bytes that are no text give nothing.
pub proof fn law_streamed_bytes(bytes: Seq<u8>, path: Seq<char>)
    ensures
        ({
            let sse = path.len() >= 4 && path.take(4) == "/v1/"@;
            let values = streamed_values(decode_utf8(bytes), sse);
            &&& valid_utf8(bytes) ==> streamed_output(bytes, path) == streamed_text(values, path)
                && streamed_counts(bytes, path) == streamed_stats(values, sse)
            &&& !valid_utf8(bytes) ==> streamed_output(bytes, path).len() == 0 && streamed_counts(
                bytes,
                path,
            ) == (None::<u64>, None::<u64>, None::<TokenRate>)
        }),
{
    reveal_strlit("/v1/");
    if path.len() >= 4 {
        assert(path.take(4) =~= path.subrange(0, 4));
    }
}

} // verus!
