//! Calls as Langfuse sees them.

use vstd::prelude::*;

use crate::ids::{is_uuid_v4, new_uuid};
use crate::json::{opt_text, Json, JsonView};
use crate::proxy::extract::TokenRate;
use crate::seqs::views;
use crate::text::begins_with;
use crate::time::{rfc3339, Timestamp};

verus! {

/// A complete LLM call event ready to be sent to Langfuse.
#[derive(Debug)]
pub struct LangfuseEvent {
    pub trace_id: String,
    pub generation_id: String,
    pub app_name: String,
    pub model: String,
    pub endpoint: String,
    pub input: Json,
    pub output: Json,
    pub start_time: Timestamp,
    pub end_time: Timestamp,
    pub prompt_tokens: Option<u64>,
    pub completion_tokens: Option<u64>,
    pub tokens_per_sec: Option<TokenRate>,
    /// Microseconds to the first data of the reply.
    pub ttft_micros: Option<i64>,
    pub session_id: Option<String>,
    pub backend_name: Option<String>,
}

/// The model of `LangfuseEvent`.
pub struct LangfuseEventView {
    pub trace_id: Seq<char>,
    pub generation_id: Seq<char>,
    pub app_name: Seq<char>,
    pub model: Seq<char>,
    pub endpoint: Seq<char>,
    pub input: JsonView,
    pub output: JsonView,
    pub start_time: int,
    pub end_time: int,
    pub prompt_tokens: Option<u64>,
    pub completion_tokens: Option<u64>,
    pub tokens_per_sec: Option<TokenRate>,
    pub ttft_micros: Option<i64>,
    pub session_id: Option<Seq<char>>,
    pub backend_name: Option<Seq<char>>,
}

impl View for LangfuseEvent {
    type V = LangfuseEventView;

    open spec fn view(&self) -> LangfuseEventView {
        LangfuseEventView {
            trace_id: self.trace_id@,
            generation_id: self.generation_id@,
            app_name: self.app_name@,
            model: self.model@,
            endpoint: self.endpoint@,
            input: self.input@,
            output: self.output@,
            start_time: self.start_time@,
            end_time: self.end_time@,
            prompt_tokens: self.prompt_tokens,
            completion_tokens: self.completion_tokens,
            tokens_per_sec: self.tokens_per_sec,
            ttft_micros: self.ttft_micros,
            session_id: opt_text(self.session_id),
            backend_name: opt_text(self.backend_name),
        }
    }
}

impl Clone for LangfuseEvent {
    fn clone(&self) -> (r: Self)
        ensures
            r@ == self@,
    {
        LangfuseEvent {
            trace_id: self.trace_id.clone(),
            generation_id: self.generation_id.clone(),
            app_name: self.app_name.clone(),
            model: self.model.clone(),
            endpoint: self.endpoint.clone(),
            input: self.input.clone(),
            output: self.output.clone(),
            start_time: self.start_time,
            end_time: self.end_time,
            prompt_tokens: self.prompt_tokens,
            completion_tokens: self.completion_tokens,
            tokens_per_sec: self.tokens_per_sec,
            ttft_micros: self.ttft_micros,
            session_id: self.session_id.clone(),
            backend_name: self.backend_name.clone(),
        }
    }
}

// ---------------------------------------------------------------------
// What is sent

/// What tokens are counted in.
#[derive(Clone, Copy, Debug, PartialEq, Eq, Structural)]
pub enum UsageUnit {
    Tokens,
}

/// Token counts of a generation.
#[derive(Clone, Copy, Debug, PartialEq, Eq, Structural)]
pub struct Usage {
    pub input: Option<i32>,
    pub output: Option<i32>,
    pub unit: UsageUnit,
}

/// A trace.
#[derive(Debug)]
pub struct TraceBody {
    pub id: String,
    pub name: String,
    pub user_id: String,
    pub tags: Vec<String>,
    pub timestamp: String,
}

/// The model of `TraceBody`.
pub struct TraceBodyView {
    pub id: Seq<char>,
    pub name: Seq<char>,
    pub user_id: Seq<char>,
    pub tags: Seq<Seq<char>>,
    pub timestamp: Seq<char>,
}

impl View for TraceBody {
    type V = TraceBodyView;

    open spec fn view(&self) -> TraceBodyView {
        TraceBodyView {
            id: self.id@,
            name: self.name@,
            user_id: self.user_id@,
            tags: views(self.tags@),
            timestamp: self.timestamp@,
        }
    }
}

/// A generation of a trace.
#[derive(Debug)]
pub struct GenerationBody {
    pub id: String,
    pub trace_id: String,
    pub name: String,
    pub model: String,
    pub start_time: String,
    pub end_time: String,
    pub input: Json,
    pub output: Json,
    pub usage: Usage,
}

/// The model of `GenerationBody`.
pub struct GenerationBodyView {
    pub id: Seq<char>,
    pub trace_id: Seq<char>,
    pub name: Seq<char>,
    pub model: Seq<char>,
    pub start_time: Seq<char>,
    pub end_time: Seq<char>,
    pub input: JsonView,
    pub output: JsonView,
    pub usage: Usage,
}

impl View for GenerationBody {
    type V = GenerationBodyView;

    open spec fn view(&self) -> GenerationBodyView {
        GenerationBodyView {
            id: self.id@,
            trace_id: self.trace_id@,
            name: self.name@,
            model: self.model@,
            start_time: self.start_time@,
            end_time: self.end_time@,
            input: self.input@,
            output: self.output@,
            usage: self.usage,
        }
    }
}

/// An event for Langfuse, with an id and a time of its own.
#[derive(Debug)]
pub enum IngestionEvent {
    TraceCreate { id: String, timestamp: String, body: TraceBody },
    GenerationCreate { id: String, timestamp: String, body: GenerationBody },
}

/// The model of `IngestionEvent`.
pub enum IngestionEventView {
    TraceCreate { id: Seq<char>, timestamp: Seq<char>, body: TraceBodyView },
    GenerationCreate { id: Seq<char>, timestamp: Seq<char>, body: GenerationBodyView },
}

impl View for IngestionEvent {
    type V = IngestionEventView;

    open spec fn view(&self) -> IngestionEventView {
        match self {
            IngestionEvent::TraceCreate { id, timestamp, body } => {
                IngestionEventView::TraceCreate { id: id@, timestamp: timestamp@, body: body@ }
            },
            IngestionEvent::GenerationCreate { id, timestamp, body } => {
                IngestionEventView::GenerationCreate {
                    id: id@,
                    timestamp: timestamp@,
                    body: body@,
                }
            },
        }
    }
}

/// The low 32 bits of a number, as a signed one.
pub open spec fn signed32(n: u64) -> int {
    let low = n as int % 0x1_0000_0000;
    if low < 0x8000_0000 {
        low
    } else {
        low - 0x1_0000_0000
    }
}

/// A token count as Langfuse holds it.
pub fn count32(n: Option<u64>) -> (r: Option<i32>)
    ensures
        match n {
            Some(v) => r is Some && r->0 == signed32(v),
            None => r is None,
        },
{
    match n {
        Some(v) => {
            assert(v % 0x1_0000_0000 < 0x8000_0000 ==> (v as i32) == v % 0x1_0000_0000)
                by (bit_vector);
            assert(v % 0x1_0000_0000 >= 0x8000_0000 ==> (v as i32) == v % 0x1_0000_0000
                - 0x1_0000_0000) by (bit_vector);
            Some(
                #[verifier::truncate]
                (v as i32),
            )
        },
        None => None,
    }
}

/// The trace of a call: named after the application and the endpoint, with the
/// application as its user, and tagged with both.
pub open spec fn trace_of(e: LangfuseEventView) -> TraceBodyView {
    TraceBodyView {
        id: e.trace_id,
        name: e.app_name + " - "@ + e.endpoint,
        user_id: e.app_name,
        tags: seq![e.app_name, e.endpoint],
        timestamp: rfc3339(e.start_time),
    }
}

/// The usage of a call is that of its token counts.
pub open spec fn is_usage_of(u: Usage, e: LangfuseEventView) -> bool {
    &&& u.unit == UsageUnit::Tokens
    &&& match e.prompt_tokens {
        Some(n) => u.input is Some && u.input->0 == signed32(n),
        None => u.input is None,
    }
    &&& match e.completion_tokens {
        Some(n) => u.output is Some && u.output->0 == signed32(n),
        None => u.output is None,
    }
}

/// The generation of a call, with its usage.
pub open spec fn generation_of(e: LangfuseEventView, usage: Usage) -> GenerationBodyView {
    GenerationBodyView {
        id: e.generation_id,
        trace_id: e.trace_id,
        name: e.endpoint,
        model: e.model,
        start_time: rfc3339(e.start_time),
        end_time: rfc3339(e.end_time),
        input: e.input,
        output: e.output,
        usage,
    }
}

/// The two events of a call, under the given ids: its trace, and its generation.
pub open spec fn are_events_of(
    events: Seq<IngestionEventView>,
    e: LangfuseEventView,
    trace_event_id: Seq<char>,
    generation_event_id: Seq<char>,
) -> bool {
    &&& events.len() == 2
    &&& events[0] == IngestionEventView::TraceCreate {
        id: trace_event_id,
        timestamp: rfc3339(e.start_time),
        body: trace_of(e),
    }
    &&& events[1] is GenerationCreate
    &&& is_usage_of(events[1]->GenerationCreate_body.usage, e)
    &&& events[1] == IngestionEventView::GenerationCreate {
        id: generation_event_id,
        timestamp: rfc3339(e.start_time),
        body: generation_of(e, events[1]->GenerationCreate_body.usage),
    }
}

impl LangfuseEvent {
    /// The events for Langfuse, under the given ids.
    pub fn ingestion_events(self, trace_event_id: String, generation_event_id: String) -> (r: Vec<
        IngestionEvent,
    >)
        ensures
            are_events_of(views(r@), self@, trace_event_id@, generation_event_id@),
    {
        let timestamp = self.start_time.to_rfc3339();
        let mut name = self.app_name.clone();
        name.append(" - ");
        name.append(self.endpoint.as_str());
        let mut tags: Vec<String> = Vec::new();
        tags.push(self.app_name.clone());
        tags.push(self.endpoint.clone());
        assert(views(tags@) =~= seq![self.app_name@, self.endpoint@]);
        let trace = IngestionEvent::TraceCreate {
            id: trace_event_id,
            timestamp: timestamp.clone(),
            body: TraceBody {
                id: self.trace_id.clone(),
                name,
                user_id: self.app_name.clone(),
                tags,
                timestamp: timestamp.clone(),
            },
        };
        let usage = Usage {
            input: count32(self.prompt_tokens),
            output: count32(self.completion_tokens),
            unit: UsageUnit::Tokens,
        };
        let start_time = self.start_time.to_rfc3339();
        let end_time = self.end_time.to_rfc3339();
        let generation = IngestionEvent::GenerationCreate {
            id: generation_event_id,
            timestamp,
            body: GenerationBody {
                id: self.generation_id,
                trace_id: self.trace_id,
                name: self.endpoint,
                model: self.model,
                start_time,
                end_time,
                input: self.input,
                output: self.output,
                usage,
            },
        };
        let mut events: Vec<IngestionEvent> = Vec::new();
        events.push(trace);
        events.push(generation);
        events
    }

    /// The events for Langfuse, each with an id of its own.
    pub fn into_ingestion_events(self) -> (r: Vec<IngestionEvent>)
        ensures
            exists|a: Seq<char>, b: Seq<char>|
                is_uuid_v4(a) && is_uuid_v4(b) && #[trigger] are_events_of(
                    views(r@),
                    self@,
                    a,
                    b,
                ),
    {
        let a = new_uuid();
        let b = new_uuid();
        self.ingestion_events(a, b)
    }
}

/// The application of a call is in its trace: it is the user, the first tag, and
/// the start of the name.
pub proof fn law_app_name_in_trace(
    events: Seq<IngestionEventView>,
    e: LangfuseEventView,
    a: Seq<char>,
    b: Seq<char>,
)
    requires
        are_events_of(events, e, a, b),
    ensures
        events[0]->TraceCreate_body.user_id == e.app_name,
        events[0]->TraceCreate_body.tags[0] == e.app_name,
        begins_with(events[0]->TraceCreate_body.name, e.app_name),
{
    let name = events[0]->TraceCreate_body.name;
    assert(name.subrange(0, e.app_name.len() as int) =~= e.app_name);
}

/// The generation of a call belongs to its trace, whatever ids the events have.
pub proof fn law_generation_in_trace(
    events: Seq<IngestionEventView>,
    e: LangfuseEventView,
    a: Seq<char>,
    b: Seq<char>,
)
    requires
        are_events_of(events, e, a, b),
    ensures
        events[1]->GenerationCreate_body.trace_id == events[0]->TraceCreate_body.id,
        events[1]->GenerationCreate_timestamp == events[0]->TraceCreate_timestamp,
{
}

/// The trace of a call says when it began, which application called which
/// endpoint, and is tagged with both.
pub proof fn law_trace(
    events: Seq<IngestionEventView>,
    e: LangfuseEventView,
    a: Seq<char>,
    b: Seq<char>,
)
    requires
        are_events_of(events, e, a, b),
    ensures
        events.len() == 2,
        events[0] is TraceCreate,
        events[0]->TraceCreate_id == a,
        events[0]->TraceCreate_timestamp == rfc3339(e.start_time),
        ({
            let body = events[0]->TraceCreate_body;
            &&& body.id == e.trace_id
            &&& body.name == e.app_name + " - "@ + e.endpoint
            &&& body.user_id == e.app_name
            &&& body.tags == seq![e.app_name, e.endpoint]
            &&& body.timestamp == rfc3339(e.start_time)
        }),
{
}

/// The generation of a call has its model, endpoint, times, prompt and answer, and
/// its token counts: input from the prompt tokens, output from the completion
/// tokens, as they are wherever they fit 31 bits.
pub proof fn law_generation(
    events: Seq<IngestionEventView>,
    e: LangfuseEventView,
    a: Seq<char>,
    b: Seq<char>,
)
    requires
        are_events_of(events, e, a, b),
    ensures
        events.len() == 2,
        events[1] is GenerationCreate,
        events[1]->GenerationCreate_id == b,
        events[1]->GenerationCreate_timestamp == rfc3339(e.start_time),
        ({
            let body = events[1]->GenerationCreate_body;
            &&& body.id == e.generation_id
            &&& body.trace_id == e.trace_id
            &&& body.name == e.endpoint
            &&& body.model == e.model
            &&& body.start_time == rfc3339(e.start_time)
            &&& body.end_time == rfc3339(e.end_time)
            &&& body.input == e.input
            &&& body.output == e.output
            &&& e.prompt_tokens is None <==> body.usage.input is None
            &&& e.completion_tokens is None <==> body.usage.output is None
            &&& e.prompt_tokens is Some && e.prompt_tokens->0 < 0x8000_0000
                ==> body.usage.input->0 == e.prompt_tokens->0
            &&& e.completion_tokens is Some && e.completion_tokens->0 < 0x8000_0000
                ==> body.usage.output->0 == e.completion_tokens->0
            &&& body.usage.unit == UsageUnit::Tokens
        }),
{
}

/// A count that does not fit 31 bits keeps its low 32 bits.
pub proof fn law_low_bits(n: u64)
    ensures
        -0x8000_0000 <= signed32(n) < 0x8000_0000,
        (n - signed32(n)) % 0x1_0000_0000 == 0,
{
}

/// The models of events have all that the events have.
pub proof fn law_event_models(e: LangfuseEvent, t: TraceBody, g: GenerationBody, i: IngestionEvent)
    ensures
        e@.trace_id == e.trace_id@,
        e@.generation_id == e.generation_id@,
        e@.app_name == e.app_name@,
        e@.model == e.model@,
        e@.endpoint == e.endpoint@,
        e@.input == e.input@,
        e@.output == e.output@,
        e@.start_time == e.start_time@,
        e@.end_time == e.end_time@,
        e@.prompt_tokens == e.prompt_tokens,
        e@.completion_tokens == e.completion_tokens,
        e@.tokens_per_sec == e.tokens_per_sec,
        e@.ttft_micros == e.ttft_micros,
        e@.session_id == opt_text(e.session_id),
        e@.backend_name == opt_text(e.backend_name),
        t@.id == t.id@,
        t@.name == t.name@,
        t@.user_id == t.user_id@,
        t@.tags == views(t.tags@),
        t@.timestamp == t.timestamp@,
        g@.id == g.id@,
        g@.trace_id == g.trace_id@,
        g@.name == g.name@,
        g@.model == g.model@,
        g@.start_time == g.start_time@,
        g@.end_time == g.end_time@,
        g@.input == g.input@,
        g@.output == g.output@,
        g@.usage == g.usage,
        i is TraceCreate ==> i@ is TraceCreate && i@->TraceCreate_id == i->TraceCreate_id@
            && i@->TraceCreate_timestamp == i->TraceCreate_timestamp@ && i@->TraceCreate_body
            == i->TraceCreate_body@,
        i is GenerationCreate ==> i@ is GenerationCreate && i@->GenerationCreate_id
            == i->GenerationCreate_id@ && i@->GenerationCreate_timestamp
            == i->GenerationCreate_timestamp@ && i@->GenerationCreate_body
            == i->GenerationCreate_body@,
{
}

} // verus!
