//! Replies of backends: processing, tracing and metrics.

use vstd::prelude::*;
use vstd::utf8::{decode_utf8, valid_utf8};

use crate::auth::bearer_app;
use crate::ids::{is_uuid_v4, new_uuid};
use crate::json::{
    bytes_of_json, elements, json_of_bytes, json_of_text, json_view, opt_text, Json, JsonView,
};
use crate::langfuse::{
    are_events_of, law_app_name_in_trace, IngestionEventView, LangfuseEvent, LangfuseEventView,
};
use crate::metrics::{MetricsRecord, MetricsRecordView};
use crate::processors::{postprocessed, repaired_raw, Processor, ProcessorRegistry};
use crate::proxy::extract::{
    chunks_stats, chunks_text, extract_input, extract_output, extract_streaming_output_text,
    extract_streaming_stats, input_key, is_openai, or_null, parse_streaming_chunks, reply_output,
    reply_stats, request_model, requested_model, streamed_counts, streamed_output, streamed_stats,
    streamed_text, streamed_values, TokenRate,
};
use crate::proxy::route::written_or;
use crate::seqs::views;
use crate::text::{begins_with, lemma_after_own_prefix, utf8_lossy, utf8_lossy_text, utf8_text};
use crate::time::{micros_between, rfc3339, Timestamp};

verus! {

// ---------------------------------------------------------------------
// Processing a whole reply

/// The value in the body of a reply, as it stands or else after repair.
pub open spec fn recovered_body<P: Processor>(
    processors: Seq<P>,
    ids: Seq<Seq<char>>,
    bytes: Seq<u8>,
    parsed: Option<JsonView>,
) -> Option<JsonView> {
    match parsed {
        Some(v) => Some(v),
        None => match repaired_raw(processors, ids, utf8_lossy(bytes)) {
            Some(text) => json_of_text(text),
            None => None,
        },
    }
}

/// What the body of a reply becomes, `parsed` being the value in it: with
/// processors, what they make of the value; a body without a value stays as
/// it is.
pub open spec fn postprocessed_body<P: Processor>(
    processors: Seq<P>,
    ids: Seq<Seq<char>>,
    bytes: Seq<u8>,
    parsed: Option<JsonView>,
) -> Seq<u8> {
    if ids.len() == 0 {
        bytes
    } else {
        match recovered_body(processors, ids, bytes, parsed) {
            Some(v) => written_or(postprocessed(processors, ids, v), bytes),
            None => bytes,
        }
    }
}

/// Processes the body of a reply in which the value `parsed` was found.
pub fn postprocess_parsed<P: Processor>(
    bytes: Vec<u8>,
    parsed: Option<Json>,
    registry: &ProcessorRegistry<P>,
    post_ids: &[String],
) -> (r: Vec<u8>)
    ensures
        r@ == postprocessed_body(registry@, views(post_ids@), bytes@, json_view(parsed)),
{
    if post_ids.len() == 0 {
        return bytes;
    }
    let value = match parsed {
        Some(v) => Some(v),
        None => {
            let raw = utf8_lossy_text(bytes.as_slice());
            match registry.try_repair_raw(post_ids, raw.as_str()) {
                Some(repaired) => Json::parse(repaired.as_str()),
                None => None,
            }
        },
    };
    match value {
        Some(v) => {
            let mut json = v;
            registry.apply_postprocessors(post_ids, &mut json);
            match json.to_vec() {
                Some(b) => b,
                None => bytes,
            }
        },
        None => bytes,
    }
}

/// Apply postprocessors to the body of a reply.
pub fn apply_postprocessors_to_response<P: Processor>(
    bytes: Vec<u8>,
    registry: &ProcessorRegistry<P>,
    post_ids: &[String],
) -> (r: Vec<u8>)
    ensures
        r@ == postprocessed_body(registry@, views(post_ids@), bytes@, json_of_bytes(bytes@)),
{
    let parsed = Json::from_slice(bytes.as_slice());
    postprocess_parsed(bytes, parsed, registry, post_ids)
}

/// Whether the body of a reply was repaired as a text, and still holds no value.
pub fn repair_failed<P: Processor>(
    bytes: &[u8],
    registry: &ProcessorRegistry<P>,
    post_ids: &[String],
) -> (r: bool)
    ensures
        r == (json_of_bytes(bytes@) is None && match repaired_raw(
            registry@,
            views(post_ids@),
            utf8_lossy(bytes@),
        ) {
            Some(text) => json_of_text(text) is None,
            None => false,
        }),
{
    if Json::from_slice(bytes).is_some() {
        return false;
    }
    let raw = utf8_lossy_text(bytes);
    match registry.try_repair_raw(post_ids, raw.as_str()) {
        Some(repaired) => Json::parse(repaired.as_str()).is_none(),
        None => false,
    }
}

/// Without processors a reply goes through unchanged.
pub proof fn law_no_processors_unchanged<P: Processor>(
    processors: Seq<P>,
    bytes: Seq<u8>,
    parsed: Option<JsonView>,
)
    ensures
        postprocessed_body(processors, Seq::empty(), bytes, parsed) == bytes,
{
}

// ---------------------------------------------------------------------
// Calls

/// A call of an application to a backend.
#[derive(Debug)]
pub struct Call {
    pub app_name: String,
    pub path: String,
    pub start_time: Timestamp,
    pub end_time: Timestamp,
    pub session_id: Option<String>,
    pub backend_name: Option<String>,
    /// Whether what is asked and answered may be shown.
    pub log_content: bool,
}

/// The model of `Call`.
pub struct CallView {
    pub app_name: Seq<char>,
    pub path: Seq<char>,
    pub start_time: int,
    pub end_time: int,
    pub session_id: Option<Seq<char>>,
    pub backend_name: Option<Seq<char>>,
    pub log_content: bool,
}

impl View for Call {
    type V = CallView;

    open spec fn view(&self) -> CallView {
        CallView {
            app_name: self.app_name@,
            path: self.path@,
            start_time: self.start_time@,
            end_time: self.end_time@,
            session_id: opt_text(self.session_id),
            backend_name: opt_text(self.backend_name),
            log_content: self.log_content,
        }
    }
}

/// What is shown of content: the content, or that there was some.
pub open spec fn shown(content: JsonView, log_content: bool) -> JsonView {
    if log_content {
        content
    } else {
        JsonView::Str("[redacted]"@)
    }
}

/// The event of a call with the given question, answer and token counts.
pub open spec fn call_event(
    trace_id: Seq<char>,
    generation_id: Seq<char>,
    call: CallView,
    req: JsonView,
    output: JsonView,
    stats: (Option<u64>, Option<u64>, Option<TokenRate>),
    ttft_micros: Option<i64>,
) -> LangfuseEventView {
    LangfuseEventView {
        trace_id,
        generation_id,
        app_name: call.app_name,
        model: requested_model(Some(req)),
        endpoint: call.path,
        input: shown(or_null(req.member(input_key(call.path))), call.log_content),
        output: shown(output, call.log_content),
        start_time: call.start_time,
        end_time: call.end_time,
        prompt_tokens: stats.0,
        completion_tokens: stats.1,
        tokens_per_sec: stats.2,
        ttft_micros,
        session_id: call.session_id,
        backend_name: call.backend_name,
    }
}

/// A copy of a text that may be missing.
fn copy_text(s: &Option<String>) -> (r: Option<String>)
    ensures
        opt_text(r) == opt_text(*s),
{
    match s {
        Some(t) => Some(t.clone()),
        None => None,
    }
}

/// The event of a call.
fn make_event(
    trace_id: String,
    generation_id: String,
    call: &Call,
    req: &Option<Json>,
    req_body: &Json,
    output: Json,
    stats: (Option<u64>, Option<u64>, Option<TokenRate>),
    ttft_micros: Option<i64>,
) -> (r: LangfuseEvent)
    requires
        json_view(*req) == Some(req_body@),
    ensures
        r@ == call_event(
            trace_id@,
            generation_id@,
            call@,
            req_body@,
            output@,
            stats,
            ttft_micros,
        ),
{
    let (input, output) = if call.log_content {
        (extract_input(req_body, call.path.as_str()), output)
    } else {
        (Json::str("[redacted]"), Json::str("[redacted]"))
    };
    LangfuseEvent {
        trace_id,
        generation_id,
        app_name: call.app_name.clone(),
        model: request_model(req),
        endpoint: call.path.clone(),
        input,
        output,
        start_time: call.start_time,
        end_time: call.end_time,
        prompt_tokens: stats.0,
        completion_tokens: stats.1,
        tokens_per_sec: stats.2,
        ttft_micros,
        session_id: copy_text(&call.session_id),
        backend_name: copy_text(&call.backend_name),
    }
}

/// The event of a call whose reply holds the value `reply`; none if question
/// or answer is no JSON.
pub open spec fn reply_event(
    trace_id: Seq<char>,
    generation_id: Seq<char>,
    call: CallView,
    req: Option<JsonView>,
    reply: Option<JsonView>,
) -> Option<LangfuseEventView> {
    match (req, reply) {
        (Some(q), Some(a)) => Some(
            call_event(
                trace_id,
                generation_id,
                call,
                q,
                reply_output(a, call.path),
                reply_stats(a, call.path),
                None,
            ),
        ),
        _ => None,
    }
}

/// The model of an event that may be missing.
pub open spec fn event_view(e: Option<LangfuseEvent>) -> Option<LangfuseEventView> {
    match e {
        Some(x) => Some(x@),
        None => None,
    }
}

/// The event of a call whose reply holds the value `reply`, under the given
/// ids.
pub fn trace_event_of(
    trace_id: String,
    generation_id: String,
    call: &Call,
    req_json: &Option<Json>,
    reply: &Option<Json>,
) -> (r: Option<LangfuseEvent>)
    ensures
        event_view(r) == reply_event(
            trace_id@,
            generation_id@,
            call@,
            json_view(*req_json),
            json_view(*reply),
        ),
{
    let req_body = match req_json {
        Some(b) => b,
        None => return None,
    };
    match reply {
        Some(a) => {
            let (output, pt, ct, rate) = extract_output(a, call.path.as_str());
            Some(
                make_event(
                    trace_id,
                    generation_id,
                    call,
                    req_json,
                    req_body,
                    output,
                    (pt, ct, rate),
                    None,
                ),
            )
        },
        None => None,
    }
}

/// The event of a call with the bytes of its reply, under fresh ids.
pub fn build_trace_event(call: &Call, req_json: &Option<Json>, resp_bytes: &[u8]) -> (r: Option<
    LangfuseEvent,
>)
    ensures
        exists|a: Seq<char>, b: Seq<char>|
            is_uuid_v4(a) && is_uuid_v4(b) && event_view(r) == #[trigger] reply_event(
                a,
                b,
                call@,
                json_view(*req_json),
                json_of_bytes(resp_bytes@),
            ),
{
    let reply = Json::from_slice(resp_bytes);
    let a = new_uuid();
    let b = new_uuid();
    let ghost (x, y) = (a@, b@);
    let r = trace_event_of(a, b, call, req_json, &reply);
    assert(event_view(r) == reply_event(
        x,
        y,
        call@,
        json_view(*req_json),
        json_of_bytes(resp_bytes@),
    ));
    r
}

/// The event of a call whose reply was streamed with the values `chunks`; none
/// if the question is no JSON or there is no value.
pub open spec fn stream_event(
    trace_id: Seq<char>,
    generation_id: Seq<char>,
    call: CallView,
    req: Option<JsonView>,
    chunks: Seq<JsonView>,
    ttft_micros: Option<i64>,
) -> Option<LangfuseEventView> {
    match req {
        Some(q) if chunks.len() > 0 => Some(
            call_event(
                trace_id,
                generation_id,
                call,
                q,
                JsonView::Str(streamed_text(chunks, call.path)),
                streamed_stats(chunks, is_openai(call.path)),
                ttft_micros,
            ),
        ),
        _ => None,
    }
}

/// The values in the bytes of a streamed reply; none if they are no text.
pub open spec fn values_in(bytes: Seq<u8>, path: Seq<char>) -> Seq<JsonView> {
    if valid_utf8(bytes) {
        streamed_values(decode_utf8(bytes), is_openai(path))
    } else {
        Seq::empty()
    }
}

/// The event of a call whose reply was streamed with the values `chunks`,
/// under the given ids.
pub fn stream_event_of(
    trace_id: String,
    generation_id: String,
    call: &Call,
    req_json: &Option<Json>,
    chunks: &Vec<Json>,
    ttft_micros: Option<i64>,
) -> (r: Option<LangfuseEvent>)
    ensures
        event_view(r) == stream_event(
            trace_id@,
            generation_id@,
            call@,
            json_view(*req_json),
            elements(chunks@),
            ttft_micros,
        ),
{
    let req_body = match req_json {
        Some(b) => b,
        None => return None,
    };
    if chunks.len() == 0 {
        return None;
    }
    let stats = chunks_stats(chunks, call.path.as_str());
    let text = chunks_text(chunks, call.path.as_str());
    Some(
        make_event(
            trace_id,
            generation_id,
            call,
            req_json,
            req_body,
            Json::Text(text),
            stats,
            ttft_micros,
        ),
    )
}

/// The event of a call with all the bytes of its streamed reply, under fresh
/// ids.
pub fn build_trace_event_from_stream(
    call: &Call,
    req_json: &Option<Json>,
    accumulated: &[u8],
    ttft_micros: Option<i64>,
) -> (r: Option<LangfuseEvent>)
    ensures
        exists|a: Seq<char>, b: Seq<char>|
            is_uuid_v4(a) && is_uuid_v4(b) && event_view(r) == #[trigger] stream_event(
                a,
                b,
                call@,
                json_view(*req_json),
                values_in(accumulated@, call.path@),
                ttft_micros,
            ),
{
    let chunks = match utf8_text(accumulated) {
        Some(text) => parse_streaming_chunks(text.as_str(), call.path.as_str()),
        None => Vec::new(),
    };
    assert(elements(chunks@) =~= values_in(accumulated@, call.path@));
    let a = new_uuid();
    let b = new_uuid();
    let ghost (x, y) = (a@, b@);
    let r = stream_event_of(a, b, call, req_json, &chunks, ttft_micros);
    assert(event_view(r) == stream_event(
        x,
        y,
        call@,
        json_view(*req_json),
        values_in(accumulated@, call.path@),
        ttft_micros,
    ));
    r
}

/// Where content may not be shown, an event tells nothing of what was asked and
/// answered: two calls that differ only in that, and have the same model and
/// token counts, have the same event.
pub proof fn law_redacted(
    trace_id: Seq<char>,
    generation_id: Seq<char>,
    call: CallView,
    req1: JsonView,
    req2: JsonView,
    output1: JsonView,
    output2: JsonView,
    stats: (Option<u64>, Option<u64>, Option<TokenRate>),
    ttft_micros: Option<i64>,
)
    requires
        !call.log_content,
        requested_model(Some(req1)) == requested_model(Some(req2)),
    ensures
        call_event(trace_id, generation_id, call, req1, output1, stats, ttft_micros)
            == call_event(trace_id, generation_id, call, req2, output2, stats, ttft_micros),
{
}

// ---------------------------------------------------------------------
// Metrics

/// What is recorded of a call.
pub open spec fn call_metrics(
    call: CallView,
    model: Seq<char>,
    stats: (Option<u64>, Option<u64>, Option<TokenRate>),
    ttft_micros: Option<i64>,
    status_code: u16,
) -> MetricsRecordView {
    MetricsRecordView {
        timestamp: rfc3339(call.start_time),
        backend_name: match call.backend_name {
            Some(name) => name,
            None => Seq::empty(),
        },
        model,
        endpoint: call.path,
        prompt_tokens: stats.0,
        completion_tokens: stats.1,
        tokens_per_sec: stats.2,
        ttft_micros,
        latency_micros: micros_between(call.start_time, call.end_time),
        status_code,
    }
}

/// What is recorded of a call.
fn make_metrics(
    call: &Call,
    model: String,
    stats: (Option<u64>, Option<u64>, Option<TokenRate>),
    ttft_micros: Option<i64>,
    status_code: u16,
) -> (r: MetricsRecord)
    ensures
        r@ == call_metrics(call@, model@, stats, ttft_micros, status_code),
{
    let backend_name = match &call.backend_name {
        Some(name) => name.clone(),
        None => String::new(),
    };
    assert(backend_name@ =~= match call@.backend_name {
        Some(name) => name,
        None => Seq::empty(),
    });
    MetricsRecord {
        timestamp: call.start_time.to_rfc3339(),
        backend_name,
        model,
        endpoint: call.path.clone(),
        prompt_tokens: stats.0,
        completion_tokens: stats.1,
        tokens_per_sec: stats.2,
        ttft_micros,
        latency_micros: call.end_time.micros_since(&call.start_time),
        status_code,
    }
}

/// What is recorded of a call that is not traced: no model and no tokens.
pub fn single_metrics(
    backend_name: &str,
    path: &str,
    start_time: &Timestamp,
    end_time: &Timestamp,
    status_code: u16,
) -> (r: MetricsRecord)
    ensures
        r@ == (MetricsRecordView {
            timestamp: rfc3339(start_time@),
            backend_name: backend_name@,
            model: Seq::empty(),
            endpoint: path@,
            prompt_tokens: None,
            completion_tokens: None,
            tokens_per_sec: None,
            ttft_micros: None,
            latency_micros: micros_between(start_time@, end_time@),
            status_code,
        }),
{
    let model = String::new();
    assert(model@ =~= Seq::<char>::empty());
    MetricsRecord {
        timestamp: start_time.to_rfc3339(),
        backend_name: backend_name.to_owned(),
        model,
        endpoint: path.to_owned(),
        prompt_tokens: None,
        completion_tokens: None,
        tokens_per_sec: None,
        ttft_micros: None,
        latency_micros: end_time.micros_since(start_time),
        status_code,
    }
}

// ---------------------------------------------------------------------
// The end of a call

/// What was asked and answered.
#[derive(Debug)]
pub struct Chat {
    pub model: String,
    pub input: Json,
    pub output: Json,
}

/// The model of `Chat`.
pub struct ChatView {
    pub model: Seq<char>,
    pub input: JsonView,
    pub output: JsonView,
}

impl View for Chat {
    type V = ChatView;

    open spec fn view(&self) -> ChatView {
        ChatView { model: self.model@, input: self.input@, output: self.output@ }
    }
}

/// What is reported at the end of a call.
#[derive(Debug)]
pub struct Report {
    /// What was asked and answered, where that may be shown.
    pub chat: Option<Chat>,
    /// The event for Langfuse, where calls are traced.
    pub event: Option<LangfuseEvent>,
    /// What is recorded.
    pub metrics: MetricsRecord,
}

/// The model of a chat that may be missing.
pub open spec fn chat_view(c: Option<Chat>) -> Option<ChatView> {
    match c {
        Some(x) => Some(x@),
        None => None,
    }
}

/// What was asked and answered, where that may be shown and both are known.
pub open spec fn call_chat(
    call: CallView,
    req: Option<JsonView>,
    output: Option<JsonView>,
) -> Option<ChatView> {
    match (req, output) {
        (Some(q), Some(a)) if call.log_content => Some(
            ChatView {
                model: requested_model(req),
                input: or_null(q.member(input_key(call.path))),
                output: a,
            },
        ),
        _ => None,
    }
}

/// What was asked and answered, where that may be shown and both are known.
fn make_chat(call: &Call, req_json: &Option<Json>, output: Option<Json>) -> (r: Option<Chat>)
    ensures
        chat_view(r) == call_chat(call@, json_view(*req_json), json_view(output)),
{
    if !call.log_content {
        return None;
    }
    match (req_json, output) {
        (Some(q), Some(a)) => Some(
            Chat {
                model: request_model(req_json),
                input: extract_input(q, call.path.as_str()),
                output: a,
            },
        ),
        _ => None,
    }
}

/// The token counts of a reply; none if it is no JSON.
pub open spec fn counts_of(reply: Option<JsonView>, path: Seq<char>) -> (
    Option<u64>,
    Option<u64>,
    Option<TokenRate>,
) {
    match reply {
        Some(a) => reply_stats(a, path),
        None => (None, None, None),
    }
}

/// The answer in a reply.
pub open spec fn output_of(reply: Option<JsonView>, path: Seq<char>) -> Option<JsonView> {
    match reply {
        Some(a) => Some(reply_output(a, path)),
        None => None,
    }
}

/// What is reported of a call whose whole reply holds the value `reply`: what
/// was asked and answered, the metrics, and an event where calls are traced.
pub open spec fn is_report_of(
    r: Report,
    call: CallView,
    req: Option<JsonView>,
    status_code: u16,
    reply: Option<JsonView>,
    tracing: bool,
) -> bool {
    &&& chat_view(r.chat) == call_chat(call, req, output_of(reply, call.path))
    &&& r.metrics@ == call_metrics(
        call,
        requested_model(req),
        counts_of(reply, call.path),
        None,
        status_code,
    )
    &&& if tracing {
        exists|a: Seq<char>, b: Seq<char>|
            is_uuid_v4(a) && is_uuid_v4(b) && event_view(r.event) == #[trigger] reply_event(
                a,
                b,
                call,
                req,
                reply,
            )
    } else {
        r.event is None
    }
}

/// What is reported of a call with a whole reply.  Metrics are always
/// recorded; an event is sent only where calls are traced.
pub fn report_reply(
    call: &Call,
    req_json: &Option<Json>,
    status_code: u16,
    resp_bytes: &[u8],
    tracing: bool,
) -> (r: Report)
    ensures
        is_report_of(
            r,
            call@,
            json_view(*req_json),
            status_code,
            json_of_bytes(resp_bytes@),
            tracing,
        ),
{
    let (output, stats) = match Json::from_slice(resp_bytes) {
        Some(reply) => {
            let (output, pt, ct, rate) = extract_output(&reply, call.path.as_str());
            (Some(output), (pt, ct, rate))
        },
        None => (None, (None, None, None)),
    };
    let chat = make_chat(call, req_json, output);
    let event = if tracing {
        build_trace_event(call, req_json, resp_bytes)
    } else {
        None
    };
    let metrics = make_metrics(call, request_model(req_json), stats, None, status_code);
    Report { chat, event, metrics }
}

/// Ends a call with a whole reply: processes the body, which the client then
/// gets, and reports that same body, at the time at which it was ready.
pub fn handle_non_streaming_response<P: Processor>(
    call: &mut Call,
    req_json: &Option<Json>,
    status_code: u16,
    resp_bytes: Vec<u8>,
    registry: &ProcessorRegistry<P>,
    post_ids: &[String],
    tracing: bool,
) -> (r: (Vec<u8>, Report))
    ensures
        0 <= final(call)@.end_time,
        final(call)@ == (CallView { end_time: final(call)@.end_time, ..old(call)@ }),
        r.0@ == postprocessed_body(
            registry@,
            views(post_ids@),
            resp_bytes@,
            json_of_bytes(resp_bytes@),
        ),
        is_report_of(
            r.1,
            final(call)@,
            json_view(*req_json),
            status_code,
            json_of_bytes(r.0@),
            tracing,
        ),
{
    let bytes = apply_postprocessors_to_response(resp_bytes, registry, post_ids);
    call.end_time = Timestamp::now();
    let report = report_reply(call, req_json, status_code, bytes.as_slice(), tracing);
    (bytes, report)
}

/// What is reported of a call with a streamed reply, all of which is in
/// `accumulated`.  Metrics are always recorded; an event is sent only where
/// calls are traced.
pub fn handle_streaming_response(
    call: &Call,
    req_json: &Option<Json>,
    status_code: u16,
    accumulated: &[u8],
    ttft_micros: Option<i64>,
    tracing: bool,
) -> (r: Report)
    ensures
        chat_view(r.chat) == call_chat(
            call@,
            json_view(*req_json),
            Some(JsonView::Str(streamed_output(accumulated@, call.path@))),
        ),
        r.metrics@ == call_metrics(
            call@,
            requested_model(json_view(*req_json)),
            streamed_counts(accumulated@, call.path@),
            ttft_micros,
            status_code,
        ),
        if tracing {
            exists|a: Seq<char>, b: Seq<char>|
                is_uuid_v4(a) && is_uuid_v4(b) && event_view(r.event) == #[trigger] stream_event(
                    a,
                    b,
                    call@,
                    json_view(*req_json),
                    values_in(accumulated@, call.path@),
                    ttft_micros,
                )
        } else {
            r.event is None
        },
{
    let text = extract_streaming_output_text(accumulated, call.path.as_str());
    let chat = make_chat(call, req_json, Some(Json::Text(text)));
    let event = if tracing {
        build_trace_event_from_stream(call, req_json, accumulated, ttft_micros)
    } else {
        None
    };
    let stats = extract_streaming_stats(accumulated, call.path.as_str());
    let metrics = make_metrics(call, request_model(req_json), stats, ttft_micros, status_code);
    Report { chat, event, metrics }
}

/// The application that a token stands for is in the trace of the call that was
/// admitted with it: as the user, as a tag and in the name.
pub proof fn law_application_traced(
    token: Seq<char>,
    tokens: Map<Seq<char>, Seq<char>>,
    call: CallView,
    req: Option<JsonView>,
    reply: Option<JsonView>,
    ids: (Seq<char>, Seq<char>),
    event_ids: (Seq<char>, Seq<char>),
    events: Seq<IngestionEventView>,
)
    requires
        tokens.contains_key(token),
        bearer_app(Some("Bearer "@ + token), tokens) == Some(call.app_name),
        reply_event(ids.0, ids.1, call, req, reply) is Some,
        are_events_of(
            events,
            reply_event(ids.0, ids.1, call, req, reply)->0,
            event_ids.0,
            event_ids.1,
        ),
    ensures
        events[0]->TraceCreate_body.user_id == tokens[token],
        events[0]->TraceCreate_body.tags.contains(tokens[token]),
        begins_with(events[0]->TraceCreate_body.name, tokens[token]),
{
    let e = reply_event(ids.0, ids.1, call, req, reply)->0;
    lemma_after_own_prefix("Bearer "@, token);
    law_app_name_in_trace(events, e, event_ids.0, event_ids.1);
    assert(events[0]->TraceCreate_body.tags[0] == tokens[token]);
}

/// The application that a token stands for is in the trace of a streamed call,
/// too, that was admitted with it: as the user, as a tag and in the name.
pub proof fn law_application_traced_in_stream(
    token: Seq<char>,
    tokens: Map<Seq<char>, Seq<char>>,
    call: CallView,
    req: Option<JsonView>,
    chunks: Seq<JsonView>,
    ttft_micros: Option<i64>,
    ids: (Seq<char>, Seq<char>),
    event_ids: (Seq<char>, Seq<char>),
    events: Seq<IngestionEventView>,
)
    requires
        tokens.contains_key(token),
        bearer_app(Some("Bearer "@ + token), tokens) == Some(call.app_name),
        stream_event(ids.0, ids.1, call, req, chunks, ttft_micros) is Some,
        are_events_of(
            events,
            stream_event(ids.0, ids.1, call, req, chunks, ttft_micros)->0,
            event_ids.0,
            event_ids.1,
        ),
    ensures
        events[0]->TraceCreate_body.user_id == tokens[token],
        events[0]->TraceCreate_body.tags.contains(tokens[token]),
        begins_with(events[0]->TraceCreate_body.name, tokens[token]),
{
    let e = stream_event(ids.0, ids.1, call, req, chunks, ttft_micros)->0;
    lemma_after_own_prefix("Bearer "@, token);
    law_app_name_in_trace(events, e, event_ids.0, event_ids.1);
    assert(events[0]->TraceCreate_body.tags[0] == tokens[token]);
}

/// Where content may not be shown, nothing of it is shown as a chat either.
pub proof fn law_no_chat_in_privacy(
    call: CallView,
    req: Option<JsonView>,
    output: Option<JsonView>,
)
    requires
        !call.log_content,
    ensures
        call_chat(call, req, output) is None,
{
}

/// What becomes of the body of a reply.  Without processors, and where it holds no
/// JSON and is not repaired to any, it stays as it came.  Else it is what the
/// processors make of its value, written anew.
pub proof fn law_reply_body<P: Processor>(
    processors: Seq<P>,
    ids: Seq<Seq<char>>,
    bytes: Seq<u8>,
    parsed: Option<JsonView>,
    v: JsonView,
)
    ensures
        ids.len() == 0 ==> postprocessed_body(processors, ids, bytes, parsed) == bytes,
        ids.len() > 0 && parsed is Some && bytes_of_json(
            postprocessed(processors, ids, parsed->0),
        ) is Some ==> postprocessed_body(processors, ids, bytes, parsed) == bytes_of_json(
            postprocessed(processors, ids, parsed->0),
        )->0,
        parsed is None && repaired_raw(processors, ids, utf8_lossy(bytes)) is None
            ==> postprocessed_body(processors, ids, bytes, parsed) == bytes,
        parsed is None && repaired_raw(processors, ids, utf8_lossy(bytes)) is Some && json_of_text(
            repaired_raw(processors, ids, utf8_lossy(bytes))->0,
        ) is None ==> postprocessed_body(processors, ids, bytes, parsed) == bytes,
        ids.len() > 0 && parsed is None && repaired_raw(processors, ids, utf8_lossy(bytes)) is Some
            && json_of_text(repaired_raw(processors, ids, utf8_lossy(bytes))->0) == Some(v)
            && bytes_of_json(postprocessed(processors, ids, v)) is Some ==> postprocessed_body(
            processors,
            ids,
            bytes,
            parsed,
        ) == bytes_of_json(postprocessed(processors, ids, v))->0,
{
}

/// The event of a whole reply: it is the call's, under the given ids; it has the
/// prompt and the answer where they may be shown, and says that they were redacted
/// where not; and it has the token counts of the reply.  There is one exactly
/// where both the request and the reply are JSON.
pub proof fn law_whole_event(
    a: Seq<char>,
    b: Seq<char>,
    call: CallView,
    req: Option<JsonView>,
    reply: Option<JsonView>,
)
    ensures
        reply_event(a, b, call, req, reply) is Some <==> req is Some && reply is Some,
        match reply_event(a, b, call, req, reply) {
            Some(e) => {
                &&& e.trace_id == a
                &&& e.generation_id == b
                &&& e.app_name == call.app_name
                &&& e.endpoint == call.path
                &&& e.session_id == call.session_id
                &&& e.backend_name == call.backend_name
                &&& e.start_time == call.start_time
                &&& e.end_time == call.end_time
                &&& e.ttft_micros is None
                &&& e.model == match req->0.member("model"@) {
                    Some(JsonView::Str(m)) => m,
                    _ => "unknown"@,
                }
                &&& e.prompt_tokens == reply_stats(reply->0, call.path).0
                &&& e.completion_tokens == reply_stats(reply->0, call.path).1
                &&& e.tokens_per_sec == reply_stats(reply->0, call.path).2
                &&& if call.log_content {
                    &&& e.output == reply_output(reply->0, call.path)
                    &&& e.input == or_null(req->0.member(input_key(call.path)))
                } else {
                    &&& e.output == JsonView::Str("[redacted]"@)
                    &&& e.input == JsonView::Str("[redacted]"@)
                }
            },
            None => true,
        },
{
}

/// The event of a streamed reply: it is the call's, under the given ids, with the
/// time to the first data; it has the prompt and the joined answer where they may
/// be shown, and says that they were redacted where not; and it has the token
/// counts of the stream.  There is one exactly where the request is JSON and there
/// is any value in the stream.
pub proof fn law_streamed_event(
    a: Seq<char>,
    b: Seq<char>,
    call: CallView,
    req: Option<JsonView>,
    chunks: Seq<JsonView>,
    ttft_micros: Option<i64>,
)
    ensures
        stream_event(a, b, call, req, chunks, ttft_micros) is Some <==> req is Some && chunks.len()
            > 0,
        match stream_event(a, b, call, req, chunks, ttft_micros) {
            Some(e) => {
                let stats = streamed_stats(
                    chunks,
                    call.path.len() >= 4 && call.path.take(4) == "/v1/"@,
                );
                &&& e.trace_id == a
                &&& e.generation_id == b
                &&& e.app_name == call.app_name
                &&& e.endpoint == call.path
                &&& e.session_id == call.session_id
                &&& e.backend_name == call.backend_name
                &&& e.start_time == call.start_time
                &&& e.end_time == call.end_time
                &&& e.ttft_micros == ttft_micros
                &&& e.model == match req->0.member("model"@) {
                    Some(JsonView::Str(m)) => m,
                    _ => "unknown"@,
                }
                &&& e.prompt_tokens == stats.0
                &&& e.completion_tokens == stats.1
                &&& e.tokens_per_sec == stats.2
                &&& if call.log_content {
                    &&& e.output == JsonView::Str(streamed_text(chunks, call.path))
                    &&& e.input == or_null(req->0.member(input_key(call.path)))
                } else {
                    &&& e.output == JsonView::Str("[redacted]"@)
                    &&& e.input == JsonView::Str("[redacted]"@)
                }
            },
            None => true,
        },
{
    reveal_strlit("/v1/");
    if call.path.len() >= 4 {
        assert(call.path.take(4) =~= call.path.subrange(0, 4));
    }
}

/// The values in the bytes of a streamed reply are those of its text, read by the
/// format that goes with the path; bytes that are no text hold none.
pub proof fn law_values_in_bytes(bytes: Seq<u8>, path: Seq<char>)
    ensures
        valid_utf8(bytes) ==> values_in(bytes, path) == streamed_values(
            decode_utf8(bytes),
            path.len() >= 4 && path.take(4) == "/v1/"@,
        ),
        !valid_utf8(bytes) ==> values_in(bytes, path).len() == 0,
{
    reveal_strlit("/v1/");
    if path.len() >= 4 {
        assert(path.take(4) =~= path.subrange(0, 4));
    }
}

/// What is recorded of a call: when it began and how long it took, its backend,
/// model, endpoint and status, and its token counts.
pub proof fn law_recorded(
    call: CallView,
    model: Seq<char>,
    stats: (Option<u64>, Option<u64>, Option<TokenRate>),
    ttft_micros: Option<i64>,
    status_code: u16,
)
    ensures
        ({
            let m = call_metrics(call, model, stats, ttft_micros, status_code);
            &&& m.timestamp == rfc3339(call.start_time)
            &&& call.backend_name is Some ==> m.backend_name == call.backend_name->0
            &&& call.backend_name is None ==> m.backend_name.len() == 0
            &&& m.model == model
            &&& m.endpoint == call.path
            &&& m.prompt_tokens == stats.0
            &&& m.completion_tokens == stats.1
            &&& m.tokens_per_sec == stats.2
            &&& m.ttft_micros == ttft_micros
            &&& m.latency_micros == micros_between(call.start_time, call.end_time)
            &&& 0 <= call.end_time - call.start_time <= i64::MAX ==> m.latency_micros * 1000
                <= call.end_time - call.start_time < (m.latency_micros + 1) * 1000
            &&& m.status_code == status_code
        }),
{
}

/// What is shown of a call as a chat, where content may be shown and both sides are
/// known: the model, the prompt and the answer.
pub proof fn law_chat_shown(call: CallView, req: Option<JsonView>, output: Option<JsonView>)
    ensures
        call_chat(call, req, output) is Some <==> call.log_content && req is Some && output is Some,
        match call_chat(call, req, output) {
            Some(chat) => {
                &&& chat.model == match req->0.member("model"@) {
                    Some(JsonView::Str(m)) => m,
                    _ => "unknown"@,
                }
                &&& chat.input == or_null(req->0.member(input_key(call.path)))
                &&& chat.output == output->0
            },
            None => true,
        },
{
}

/// What is reported of a whole reply: the answer and the counts of its value; none
/// where it is no JSON.
pub proof fn law_reported(reply: Option<JsonView>, path: Seq<char>)
    ensures
        reply is None ==> output_of(reply, path) is None && counts_of(reply, path) == (
            None::<u64>,
            None::<u64>,
            None::<TokenRate>,
        ),
        reply is Some ==> output_of(reply, path) == Some(reply_output(reply->0, path))
            && counts_of(reply, path) == reply_stats(reply->0, path),
{
}

/// What is reported of a call with a whole reply, all in all: the metrics with the
/// counts of the reply and the status; the chat with its answer, where content may be
/// shown; and, where calls are traced and both sides are JSON, the event with both.
pub proof fn law_report(
    r: Report,
    call: CallView,
    req: Option<JsonView>,
    status_code: u16,
    reply: Option<JsonView>,
    tracing: bool,
)
    requires
        is_report_of(r, call, req, status_code, reply, tracing),
    ensures
        r.metrics@.status_code == status_code,
        r.metrics@.endpoint == call.path,
        r.metrics@.timestamp == rfc3339(call.start_time),
        r.metrics@.latency_micros == micros_between(call.start_time, call.end_time),
        r.metrics@.ttft_micros is None,
        call.backend_name is Some ==> r.metrics@.backend_name == call.backend_name->0,
        call.backend_name is None ==> r.metrics@.backend_name.len() == 0,
        r.metrics@.model == match req {
            Some(q) => match q.member("model"@) {
                Some(JsonView::Str(m)) => m,
                _ => "unknown"@,
            },
            None => "unknown"@,
        },
        reply is Some ==> r.metrics@.prompt_tokens == reply_stats(reply->0, call.path).0
            && r.metrics@.completion_tokens == reply_stats(reply->0, call.path).1
            && r.metrics@.tokens_per_sec == reply_stats(reply->0, call.path).2,
        reply is None ==> r.metrics@.prompt_tokens is None && r.metrics@.completion_tokens is None
            && r.metrics@.tokens_per_sec is None,
        r.chat is Some <==> call.log_content && req is Some && reply is Some,
        r.chat is Some ==> r.chat->0@.output == reply_output(reply->0, call.path)
            && r.chat->0@.input == or_null(req->0.member(input_key(call.path))),
        r.event is Some <==> tracing && req is Some && reply is Some,
        r.event is Some ==> {
            let e = r.event->0@;
            &&& e.app_name == call.app_name
            &&& e.endpoint == call.path
            &&& e.session_id == call.session_id
            &&& e.backend_name == call.backend_name
            &&& e.start_time == call.start_time
            &&& e.end_time == call.end_time
            &&& e.prompt_tokens == r.metrics@.prompt_tokens
            &&& e.completion_tokens == r.metrics@.completion_tokens
            &&& e.model == r.metrics@.model
            &&& is_uuid_v4(e.trace_id) && is_uuid_v4(e.generation_id)
            &&& call.log_content ==> e.output == r.chat->0@.output && e.input == r.chat->0@.input
            &&& !call.log_content ==> e.output == JsonView::Str("[redacted]"@) && e.input
                == JsonView::Str("[redacted]"@)
        },
{
}

/// The models of calls, chats and events have all that these have.
pub proof fn law_call_models(call: Call, chat: Chat, e: Option<LangfuseEvent>, c: Option<Chat>)
    ensures
        call@.app_name == call.app_name@,
        call@.path == call.path@,
        call@.start_time == call.start_time@,
        call@.end_time == call.end_time@,
        call@.session_id == opt_text(call.session_id),
        call@.backend_name == opt_text(call.backend_name),
        call@.log_content == call.log_content,
        chat@.model == chat.model@,
        chat@.input == chat.input@,
        chat@.output == chat.output@,
        e is Some ==> event_view(e) == Some(e->0@),
        e is None ==> event_view(e) is None,
        c is Some ==> chat_view(c) == Some(c->0@),
        c is None ==> chat_view(c) is None,
{
}

} // verus!
