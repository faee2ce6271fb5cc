//! Streamed replies on their way from a backend to the client.

use vstd::prelude::*;
use vstd::slice::slice_to_vec;
use vstd::utf8::{
    decode_utf8, encode_utf8, encode_utf8_decode_utf8, encode_utf8_valid_utf8, valid_utf8,
};

use crate::json::{json_of_text, opt_text, text_of_json, Json, JsonView};
use crate::processors::{chunk_postprocessed, repaired_raw, Processor, ProcessorRegistry};
use crate::proxy::extract::is_openai;
use crate::seqs::{opt_view, views};
use crate::text::{
    after_prefix, chars_of, is_space, is_whole_lines, join, law_lines_join, law_single_line,
    lemma_after_own_prefix, lemma_encode_append, lemma_join_append, lemma_split_append,
    lemma_trim_around, lemma_trim_end_tail, split_inclusive_lines, split_lines, starts_with,
    strip_prefix, text_eq, trim, trim_end, trim_text, trim_text_end, utf8_text,
};
use crate::time::{micros_between, Timestamp};

verus! {

// ---------------------------------------------------------------------
// Payloads

/// The value in a text, read as it stands or else after repair.
pub open spec fn recovered<P: Processor>(
    processors: Seq<P>,
    ids: Seq<Seq<char>>,
    text: Seq<char>,
) -> Option<JsonView> {
    match json_of_text(text) {
        Some(v) => Some(v),
        None => match repaired_raw(processors, ids, text) {
            Some(repaired) => json_of_text(repaired),
            None => None,
        },
    }
}

/// What a payload of a stream becomes, if there is a value in it: the text of
/// that value after the processors.
pub open spec fn processed_payload<P: Processor>(
    processors: Seq<P>,
    ids: Seq<Seq<char>>,
    payload: Seq<char>,
) -> Option<Seq<char>> {
    match recovered(processors, ids, payload) {
        Some(v) => match text_of_json(chunk_postprocessed(processors, ids, v)) {
            Some(text) => Some(text),
            None => Some(payload),
        },
        None => None,
    }
}

/// Processes a payload of a stream.
fn process_payload<P: Processor>(
    payload: &str,
    registry: &ProcessorRegistry<P>,
    post_ids: &[String],
) -> (r: Option<String>)
    ensures
        opt_text(r) == processed_payload(registry@, views(post_ids@), payload@),
{
    let value = match Json::parse(payload) {
        Some(v) => Some(v),
        None => match registry.try_repair_raw(post_ids, payload) {
            Some(repaired) => Json::parse(repaired.as_str()),
            None => None,
        },
    };
    match value {
        Some(v) => {
            let mut json = v;
            registry.apply_chunk_postprocessors(post_ids, &mut json);
            match json.to_text() {
                Some(text) => Some(text),
                None => Some(payload.to_owned()),
            }
        },
        None => None,
    }
}

// ---------------------------------------------------------------------
// Lines

/// The payload of a line of server-sent events: what follows `data: `, unless
/// it says that the stream is done.
pub open spec fn sse_payload(line: Seq<char>) -> Option<Seq<char>> {
    match after_prefix(trim_end(line), "data: "@) {
        Some(payload) => if payload == "[DONE]"@ {
            None
        } else {
            Some(payload)
        },
        None => None,
    }
}

/// The payload of a line of JSON lines: all of it but white space.
pub open spec fn ndjson_payload(line: Seq<char>) -> Option<Seq<char>> {
    if trim(line).len() == 0 {
        None
    } else {
        Some(trim(line))
    }
}

/// The payload of a line.
pub open spec fn line_payload(line: Seq<char>, is_sse: bool) -> Option<Seq<char>> {
    if is_sse {
        sse_payload(line)
    } else {
        ndjson_payload(line)
    }
}

/// A line whose payload became `text`.  An event ends with a newline; a JSON
/// line ends with one if it did before.
pub open spec fn framed(line: Seq<char>, text: Seq<char>, is_sse: bool) -> Seq<char> {
    if is_sse {
        "data: "@ + text + "\n"@
    } else if line.len() > 0 && line.last() == '\n' {
        text + "\n"@
    } else {
        text
    }
}

/// The payload of a line.
pub fn payload_of(line: &str, is_sse: bool) -> (r: Option<String>)
    ensures
        opt_text(r) == line_payload(line@, is_sse),
{
    if is_sse {
        match strip_prefix(trim_text_end(line).as_str(), "data: ") {
            Some(payload) => if text_eq(payload.as_str(), "[DONE]") {
                None
            } else {
                Some(payload)
            },
            None => None,
        }
    } else {
        let trimmed = trim_text(line);
        if trimmed.as_str().unicode_len() == 0 {
            None
        } else {
            Some(trimmed)
        }
    }
}

/// A line whose payload became `text`.
pub fn frame_line(line: &str, text: &str, is_sse: bool) -> (r: String)
    ensures
        r@ == framed(line@, text@, is_sse),
{
    if is_sse {
        let mut out = "data: ".to_owned();
        out.append(text);
        out.append("\n");
        out
    } else {
        let c = chars_of(line);
        let mut out = text.to_owned();
        if c.len() > 0 && c[c.len() - 1] == '\n' {
            out.append("\n");
        }
        out
    }
}

/// What a line becomes: its payload is processed, and a line without a payload,
/// or with one in which there is no value, is left as it is.
pub open spec fn processed_line<P: Processor>(
    processors: Seq<P>,
    ids: Seq<Seq<char>>,
    line: Seq<char>,
    is_sse: bool,
) -> Seq<char> {
    match line_payload(line, is_sse) {
        Some(payload) => match processed_payload(processors, ids, payload) {
            Some(text) => framed(line, text, is_sse),
            None => line,
        },
        None => line,
    }
}

// ---------------------------------------------------------------------
// Chunks

/// What a text becomes, line by line.
pub open spec fn processed_text<P: Processor>(
    processors: Seq<P>,
    ids: Seq<Seq<char>>,
    text: Seq<char>,
    is_sse: bool,
) -> Seq<char> {
    join(
        split_lines(text).map_values(|line: Seq<char>| processed_line(processors, ids, line, is_sse)),
    )
}

/// What a chunk becomes; one that is no text is left as it is.
pub open spec fn processed_chunk<P: Processor>(
    processors: Seq<P>,
    ids: Seq<Seq<char>>,
    data: Seq<u8>,
    is_sse: bool,
) -> Seq<u8> {
    if valid_utf8(data) {
        encode_utf8(processed_text(processors, ids, decode_utf8(data), is_sse))
    } else {
        data
    }
}

/// Apply postprocessors to a raw streaming data chunk.
/// Each chunk may contain one or more JSON lines (NDJSON) or SSE `data:` lines.
pub fn process_streaming_chunk<P: Processor>(
    data: &[u8],
    registry: &ProcessorRegistry<P>,
    post_ids: &[String],
    is_sse: bool,
) -> (r: Vec<u8>)
    ensures
        r@ == processed_chunk(registry@, views(post_ids@), data@, is_sse),
{
    let text = match utf8_text(data) {
        Some(t) => t,
        None => return slice_to_vec(data),
    };
    let all = split_inclusive_lines(text.as_str());
    let ghost procs = registry@;
    let ghost ids = views(post_ids@);
    let ghost done = split_lines(text@).map_values(
        |line: Seq<char>| processed_line(procs, ids, line, is_sse),
    );
    let mut output = String::new();
    let mut i: usize = 0;
    assert(done.take(0) =~= Seq::<Seq<char>>::empty());
    while i < all.len()
        invariant
            i <= all@.len(),
            procs == registry@,
            ids == views(post_ids@),
            views(all@) == split_lines(text@),
            done == split_lines(text@).map_values(
                |line: Seq<char>| processed_line(procs, ids, line, is_sse),
            ),
            output@ == join(done.take(i as int)),
        decreases all.len() - i,
    {
        assert(done.take(i + 1).drop_last() =~= done.take(i as int));
        let line = all[i].as_str();
        assert(views(all@)[i as int] == line@);
        let rewritten = match payload_of(line, is_sse) {
            Some(payload) => process_payload(payload.as_str(), registry, post_ids),
            None => None,
        };
        match rewritten {
            Some(t) => {
                let framed_line = frame_line(line, t.as_str(), is_sse);
                output.append(framed_line.as_str());
            },
            None => output.append(line),
        }
        i += 1;
    }
    assert(done.take(done.len() as int) =~= done);
    output.as_str().as_bytes_vec()
}

/// Every line is processed by itself: a chunk of whole lines and the chunk that
/// follows it become the same as the two in one.
pub proof fn law_lines_apart<P: Processor>(
    processors: Seq<P>,
    ids: Seq<Seq<char>>,
    a: Seq<char>,
    b: Seq<char>,
    is_sse: bool,
)
    requires
        is_whole_lines(a),
    ensures
        processed_chunk(processors, ids, encode_utf8(a) + encode_utf8(b), is_sse)
            == processed_chunk(processors, ids, encode_utf8(a), is_sse) + processed_chunk(
            processors,
            ids,
            encode_utf8(b),
            is_sse,
        ),
{
    broadcast use {encode_utf8_valid_utf8, encode_utf8_decode_utf8};

    let f = |line: Seq<char>| processed_line(processors, ids, line, is_sse);
    lemma_encode_append(a, b);
    lemma_split_append(a, b);
    assert(split_lines(a + b).map_values(f) =~= split_lines(a).map_values(f) + split_lines(
        b,
    ).map_values(f));
    lemma_join_append(split_lines(a).map_values(f), split_lines(b).map_values(f));
    lemma_encode_append(
        processed_text(processors, ids, a, is_sse),
        processed_text(processors, ids, b, is_sse),
    );
}

/// A chunk in which no line holds a value goes through unchanged.
pub proof fn law_no_values_unchanged<P: Processor>(
    processors: Seq<P>,
    ids: Seq<Seq<char>>,
    text: Seq<char>,
    is_sse: bool,
)
    requires
        forall|i: int|
            0 <= i < split_lines(text).len() ==> match line_payload(
                #[trigger] split_lines(text)[i],
                is_sse,
            ) {
                Some(payload) => recovered(processors, ids, payload) is None,
                None => true,
            },
    ensures
        processed_chunk(processors, ids, encode_utf8(text), is_sse) == encode_utf8(text),
{
    broadcast use {encode_utf8_valid_utf8, encode_utf8_decode_utf8};

    assert(split_lines(text).map_values(
        |line: Seq<char>| processed_line(processors, ids, line, is_sse),
    ) =~= split_lines(text));
    law_lines_join(text);
}

// ---------------------------------------------------------------------
// Relaying

/// What comes from a backend while its reply is streamed.
pub enum StreamEvent {
    /// Data, and when it came.
    Data { bytes: Vec<u8>, now: Timestamp },
    /// A frame without data.
    NoData,
    /// The backend failed, with a message.
    Failed(String),
    /// The backend is done.
    Ended,
}

/// What is to be done next.
pub enum StreamAction {
    /// Send data to the client; stop if the client is gone.
    Send(Vec<u8>),
    /// Tell the client that the backend failed, and stop.
    SendError(String),
    /// Wait for the next event.
    Wait,
    /// Stop.
    Stop,
}

/// A streamed reply that is being relayed to the client.
pub struct StreamRelay {
    accumulated: Vec<u8>,
    first_chunk: Option<Timestamp>,
    is_sse: bool,
    post_ids: Vec<String>,
}

/// The model of `StreamRelay`.
pub struct StreamRelayView {
    /// All that was handed out to be sent to the client.
    pub accumulated: Seq<u8>,
    /// When the first data came.
    pub first_chunk: Option<int>,
    pub is_sse: bool,
    /// The processors that every chunk goes through.
    pub post_ids: Seq<Seq<char>>,
}

impl View for StreamRelay {
    type V = StreamRelayView;

    closed spec fn view(&self) -> StreamRelayView {
        StreamRelayView {
            accumulated: self.accumulated@,
            first_chunk: opt_view(self.first_chunk),
            is_sse: self.is_sse,
            post_ids: views(self.post_ids@),
        }
    }
}

/// What is sent for data: with processors, what they make of it; without, the
/// data itself.
pub open spec fn outgoing<P: Processor>(
    processors: Seq<P>,
    ids: Seq<Seq<char>>,
    data: Seq<u8>,
    is_sse: bool,
) -> Seq<u8> {
    if ids.len() == 0 {
        data
    } else {
        processed_chunk(processors, ids, data, is_sse)
    }
}

impl StreamRelayView {
    /// The relay after data came: it has sent more, and remembers when the
    /// first data came.
    pub open spec fn after<P: Processor>(
        self,
        processors: Seq<P>,
        data: Seq<u8>,
        now: int,
    ) -> StreamRelayView {
        StreamRelayView {
            accumulated: self.accumulated + outgoing(
                processors,
                self.post_ids,
                data,
                self.is_sse,
            ),
            first_chunk: match self.first_chunk {
                Some(t) => Some(t),
                None => Some(now),
            },
            ..self
        }
    }

    /// The relay after a number of chunks, each with its time.
    pub open spec fn after_all<P: Processor>(
        self,
        processors: Seq<P>,
        chunks: Seq<(Seq<u8>, int)>,
    ) -> StreamRelayView
        decreases chunks.len(),
    {
        if chunks.len() == 0 {
            self
        } else {
            self.after_all(processors, chunks.drop_last()).after(
                processors,
                chunks.last().0,
                chunks.last().1,
            )
        }
    }
}

/// All that is sent for a number of chunks, one after the other.
pub open spec fn all_sent<P: Processor>(
    processors: Seq<P>,
    ids: Seq<Seq<char>>,
    chunks: Seq<(Seq<u8>, int)>,
    is_sse: bool,
) -> Seq<u8>
    decreases chunks.len(),
{
    if chunks.len() == 0 {
        Seq::empty()
    } else {
        all_sent(processors, ids, chunks.drop_last(), is_sse) + outgoing(
            processors,
            ids,
            chunks.last().0,
            is_sse,
        )
    }
}

/// What is counted and traced at the end of a stream is what was sent to the
/// client, no more and no less, and the time of the first chunk is kept.
pub proof fn law_accumulated_is_sent<P: Processor>(
    processors: Seq<P>,
    start: StreamRelayView,
    chunks: Seq<(Seq<u8>, int)>,
)
    requires
        start.accumulated == Seq::<u8>::empty(),
        start.first_chunk is None,
    ensures
        ({
            let end = start.after_all(processors, chunks);
            &&& end.accumulated == all_sent(processors, start.post_ids, chunks, start.is_sse)
            &&& end.first_chunk == if chunks.len() == 0 {
                None
            } else {
                Some(chunks[0].1)
            }
            &&& end.post_ids == start.post_ids
            &&& end.is_sse == start.is_sse
        }),
    decreases chunks.len(),
{
    if chunks.len() > 0 {
        law_accumulated_is_sent(processors, start, chunks.drop_last());
    }
}

impl StreamRelay {
    /// A reply of which nothing has come yet.
    pub fn new(path: &str, post_ids: Vec<String>) -> (r: StreamRelay)
        ensures
            r@ == (StreamRelayView {
                accumulated: Seq::empty(),
                first_chunk: None,
                is_sse: is_openai(path@),
                post_ids: views(post_ids@),
            }),
    {
        StreamRelay {
            accumulated: Vec::new(),
            first_chunk: None,
            is_sse: starts_with(path, "/v1/"),
            post_ids,
        }
    }

    /// Takes in what came from the backend, and says what to do.
    pub fn step<P: Processor>(
        &mut self,
        event: StreamEvent,
        registry: &ProcessorRegistry<P>,
    ) -> (r: StreamAction)
        ensures
            match event {
                StreamEvent::Data { bytes, now } => {
                    &&& r is Send
                    &&& r->Send_0@ == outgoing(
                        registry@,
                        old(self)@.post_ids,
                        bytes@,
                        old(self)@.is_sse,
                    )
                    &&& final(self)@ == old(self)@.after(registry@, bytes@, now@)
                    &&& final(self)@.accumulated == old(self)@.accumulated + r->Send_0@
                    &&& old(self)@.post_ids.len() == 0 ==> r->Send_0@ == bytes@
                },
                StreamEvent::NoData => r is Wait && final(self)@ == old(self)@,
                StreamEvent::Failed(message) => r is SendError && r->SendError_0@ == message@
                    && final(self)@ == old(self)@,
                StreamEvent::Ended => r is Stop && final(self)@ == old(self)@,
            },
    {
        match event {
            StreamEvent::Data { bytes, now } => {
                if self.first_chunk.is_none() {
                    self.first_chunk = Some(now);
                }
                let data = if self.post_ids.len() == 0 {
                    bytes
                } else {
                    process_streaming_chunk(
                        bytes.as_slice(),
                        registry,
                        self.post_ids.as_slice(),
                        self.is_sse,
                    )
                };
                self.accumulated.extend_from_slice(data.as_slice());
                assert(self.accumulated@ =~= old(self).accumulated@ + data@);
                StreamAction::Send(data)
            },
            StreamEvent::NoData => StreamAction::Wait,
            StreamEvent::Failed(message) => StreamAction::SendError(message),
            StreamEvent::Ended => StreamAction::Stop,
        }
    }

    /// All that was handed out to be sent to the client.
    pub fn accumulated(&self) -> (r: &Vec<u8>)
        ensures
            r@ == self@.accumulated,
    {
        &self.accumulated
    }

    /// Microseconds from the start of the request to the first data, if any
    /// came.
    pub fn first_chunk_micros(&self, start_time: &Timestamp) -> (r: Option<i64>)
        ensures
            r == match self@.first_chunk {
                Some(t) => Some(micros_between(start_time@, t)),
                None => None,
            },
    {
        match &self.first_chunk {
            Some(t) => Some(t.micros_since(start_time)),
            None => None,
        }
    }
}

// ---------------------------------------------------------------------
// Laws

/// Without postprocessors a stream goes through byte for byte, whatever the
/// path: what is sent for data is the data, and what was sent in all, which is
/// also what is traced and counted, is all that came, in order.
pub proof fn law_unprocessed_stream<P: Processor>(
    processors: Seq<P>,
    relay: StreamRelayView,
    chunks: Seq<(Seq<u8>, int)>,
    data: Seq<u8>,
)
    requires
        relay.post_ids.len() == 0,
    ensures
        outgoing(processors, relay.post_ids, data, relay.is_sse) == data,
        relay.after_all(processors, chunks).accumulated == relay.accumulated + chunks.map_values(
            |c: (Seq<u8>, int)| c.0,
        ).flatten(),
        all_sent(processors, relay.post_ids, chunks, relay.is_sse) == chunks.map_values(
            |c: (Seq<u8>, int)| c.0,
        ).flatten(),
    decreases chunks.len(),
{
    let f = |c: (Seq<u8>, int)| c.0;
    if chunks.len() > 0 {
        let rest = chunks.drop_last();
        law_unprocessed_stream(processors, relay, rest, data);
        lemma_relay_settings(processors, relay, rest);
        rest.map_values(f).lemma_flatten_push(chunks.last().0);
        assert(chunks.map_values(f) =~= rest.map_values(f).push(chunks.last().0));
        assert(relay.after_all(processors, chunks).accumulated =~= relay.accumulated
            + chunks.map_values(f).flatten());
    } else {
        assert(chunks.map_values(f) =~= Seq::<Seq<u8>>::empty());
        assert(relay.accumulated + chunks.map_values(f).flatten() =~= relay.accumulated);
    }
}

/// Data does not change the settings of a relay.
proof fn lemma_relay_settings<P: Processor>(
    processors: Seq<P>,
    relay: StreamRelayView,
    chunks: Seq<(Seq<u8>, int)>,
)
    ensures
        relay.after_all(processors, chunks).post_ids == relay.post_ids,
        relay.after_all(processors, chunks).is_sse == relay.is_sse,
    decreases chunks.len(),
{
    if chunks.len() > 0 {
        lemma_relay_settings(processors, relay, chunks.drop_last());
    }
}

/// What is kept of a stream is what was sent of it, and the time of the first
/// data is kept while more comes.
pub proof fn law_sent_is_kept<P: Processor>(
    processors: Seq<P>,
    relay: StreamRelayView,
    data: Seq<u8>,
    now: int,
)
    ensures
        ({
            let after = relay.after(processors, data, now);
            &&& after.accumulated == relay.accumulated + outgoing(
                processors,
                relay.post_ids,
                data,
                relay.is_sse,
            )
            &&& relay.first_chunk is None ==> after.first_chunk == Some(now)
            &&& relay.first_chunk is Some ==> after.first_chunk == relay.first_chunk
            &&& after.post_ids == relay.post_ids
            &&& after.is_sse == relay.is_sse
        }),
{
}

/// Data that is no text is sent as it came.
pub proof fn law_no_text_unchanged<P: Processor>(
    processors: Seq<P>,
    ids: Seq<Seq<char>>,
    data: Seq<u8>,
    is_sse: bool,
)
    requires
        !valid_utf8(data),
    ensures
        outgoing(processors, ids, data, is_sse) == data,
{
}

/// The value is in the payload, or in what the payload is repaired to.
pub open spec fn holds_value<P: Processor>(
    processors: Seq<P>,
    ids: Seq<Seq<char>>,
    payload: Seq<char>,
    v: JsonView,
) -> bool {
    ||| json_of_text(payload) == Some(v)
    ||| {
        &&& json_of_text(payload) is None
        &&& repaired_raw(processors, ids, payload) is Some
        &&& json_of_text(repaired_raw(processors, ids, payload)->0) == Some(v)
    }
}

/// There is no value in the payload, nor in what it is repaired to.
pub open spec fn holds_nothing<P: Processor>(
    processors: Seq<P>,
    ids: Seq<Seq<char>>,
    payload: Seq<char>,
) -> bool {
    &&& json_of_text(payload) is None
    &&& repaired_raw(processors, ids, payload) is Some ==> json_of_text(
        repaired_raw(processors, ids, payload)->0,
    ) is None
}

/// A line ends with white space, and the newline, if there is one, comes last.
pub open spec fn is_line_end(tail: Seq<char>) -> bool {
    &&& forall|i: int| 0 <= i < tail.len() ==> is_space(#[trigger] tail[i])
    &&& forall|i: int| 0 <= i < tail.len() - 1 ==> #[trigger] tail[i] != '\n'
}

/// A text without newlines.
pub open spec fn is_unbroken(s: Seq<char>) -> bool {
    forall|i: int| 0 <= i < s.len() ==> #[trigger] s[i] != '\n'
}

/// What is sent for the bytes of one line is what the line becomes.
proof fn lemma_one_line<P: Processor>(
    processors: Seq<P>,
    ids: Seq<Seq<char>>,
    line: Seq<char>,
    is_sse: bool,
)
    requires
        ids.len() > 0,
        line.len() > 0,
        forall|i: int| 0 <= i < line.len() - 1 ==> #[trigger] line[i] != '\n',
    ensures
        outgoing(processors, ids, encode_utf8(line), is_sse) == encode_utf8(
            processed_line(processors, ids, line, is_sse),
        ),
{
    broadcast use {encode_utf8_valid_utf8, encode_utf8_decode_utf8};

    law_single_line(line);
    let f = |l: Seq<char>| processed_line(processors, ids, l, is_sse);
    let parts = split_lines(line).map_values(f);
    assert(parts =~= seq![f(line)]);
    assert(parts.drop_last() =~= Seq::<Seq<char>>::empty());
    assert(join(parts.drop_last()) =~= Seq::<char>::empty());
    assert(join(parts) =~= f(line));
}

/// A server-sent event with a value in it goes through the postprocessors: it is
/// sent as `data: `, the text of what they make of the value, and a newline.
/// Where that has no text, the payload stands in its place.  An event in which
/// there is no value is sent as it came.
pub proof fn law_event_processed<P: Processor>(
    processors: Seq<P>,
    ids: Seq<Seq<char>>,
    payload: Seq<char>,
    tail: Seq<char>,
    v: JsonView,
)
    requires
        ids.len() > 0,
        payload.len() > 0,
        !is_space(payload.last()),
        is_unbroken(payload),
        payload != "[DONE]"@,
        is_line_end(tail),
    ensures
        holds_value(processors, ids, payload, v) ==> outgoing(
            processors,
            ids,
            encode_utf8("data: "@ + payload + tail),
            true,
        ) == encode_utf8(
            "data: "@ + match text_of_json(chunk_postprocessed(processors, ids, v)) {
                Some(text) => text,
                None => payload,
            } + "\n"@,
        ),
        holds_nothing(processors, ids, payload) ==> outgoing(
            processors,
            ids,
            encode_utf8("data: "@ + payload + tail),
            true,
        ) == encode_utf8("data: "@ + payload + tail),
{
    reveal_strlit("data: ");
    let line = "data: "@ + payload + tail;
    lemma_trim_end_tail("data: "@ + payload, tail);
    lemma_after_own_prefix("data: "@, payload);
    lemma_one_line(processors, ids, line, true);
}

/// The event that says that a stream is done, a blank line, and any other line
/// that is no event are sent as they came.
pub proof fn law_other_lines_unchanged<P: Processor>(
    processors: Seq<P>,
    ids: Seq<Seq<char>>,
    body: Seq<char>,
    tail: Seq<char>,
)
    requires
        ids.len() > 0,
        body.len() > 0 ==> !is_space(body.last()),
        is_unbroken(body),
        is_line_end(tail),
        body.len() + tail.len() > 0,
        body == "data: [DONE]"@ || body.len() < 6 || body.take(6) != "data: "@,
    ensures
        outgoing(processors, ids, encode_utf8(body + tail), true) == encode_utf8(body + tail),
{
    reveal_strlit("data: ");
    reveal_strlit("data: [DONE]");
    reveal_strlit("[DONE]");
    lemma_trim_end_tail(body, tail);
    if body == "data: [DONE]"@ {
        assert("data: [DONE]"@ =~= "data: "@ + "[DONE]"@);
        lemma_after_own_prefix("data: "@, "[DONE]"@);
    } else if body.len() >= 6 {
        assert(body.take(6) =~= body.subrange(0, 6));
    }
    lemma_one_line(processors, ids, body + tail, true);
}

/// A JSON line goes through the postprocessors: it is sent as the text of what
/// they make of its value, with a newline if it had one.  Where that has no text,
/// the payload stands in its place.  A line in which there is no value is sent as
/// it came.
pub proof fn law_json_line_processed<P: Processor>(
    processors: Seq<P>,
    ids: Seq<Seq<char>>,
    lead: Seq<char>,
    payload: Seq<char>,
    tail: Seq<char>,
    v: JsonView,
)
    requires
        ids.len() > 0,
        payload.len() > 0,
        !is_space(payload[0]),
        !is_space(payload.last()),
        is_unbroken(payload),
        is_unbroken(lead),
        is_line_end(lead),
        is_line_end(tail),
    ensures
        holds_value(processors, ids, payload, v) ==> outgoing(
            processors,
            ids,
            encode_utf8(lead + payload + tail),
            false,
        ) == encode_utf8(
            match text_of_json(chunk_postprocessed(processors, ids, v)) {
                Some(text) => text,
                None => payload,
            } + if tail.len() > 0 && tail.last() == '\n' {
                seq!['\n']
            } else {
                Seq::empty()
            },
        ),
        holds_nothing(processors, ids, payload) ==> outgoing(
            processors,
            ids,
            encode_utf8(lead + payload + tail),
            false,
        ) == encode_utf8(lead + payload + tail),
{
    reveal_strlit("\n");
    let line = lead + payload + tail;
    lemma_trim_around(lead, payload, tail);
    lemma_one_line(processors, ids, line, false);
    let text = match text_of_json(chunk_postprocessed(processors, ids, v)) {
        Some(text) => text,
        None => payload,
    };
    assert("\n"@ =~= seq!['\n']);
    assert(text + Seq::<char>::empty() =~= text);
    if tail.len() > 0 {
        assert(line.last() == tail.last());
    } else {
        assert(line.last() == payload.last());
        assert(payload[payload.len() - 1] != '\n');
    }
}

/// A blank JSON line is sent as it came.
pub proof fn law_blank_line_unchanged<P: Processor>(
    processors: Seq<P>,
    ids: Seq<Seq<char>>,
    line: Seq<char>,
)
    requires
        ids.len() > 0,
        line.len() > 0,
        is_line_end(line),
    ensures
        outgoing(processors, ids, encode_utf8(line), false) == encode_utf8(line),
{
    assert(Seq::<char>::empty() + line =~= line);
    lemma_trim_end_tail(Seq::empty(), line);
    assert(trim(line) =~= Seq::<char>::empty());
    lemma_one_line(processors, ids, line, false);
}

/// Postprocessors see a stream line by line: what is sent for whole lines and for
/// what follows them is what is sent for the two together.
pub proof fn law_stream_lines_apart<P: Processor>(
    processors: Seq<P>,
    ids: Seq<Seq<char>>,
    a: Seq<char>,
    b: Seq<char>,
    is_sse: bool,
)
    requires
        a.len() > 0 ==> a.last() == '\n',
    ensures
        outgoing(processors, ids, encode_utf8(a + b), is_sse) == outgoing(
            processors,
            ids,
            encode_utf8(a),
            is_sse,
        ) + outgoing(processors, ids, encode_utf8(b), is_sse),
{
    lemma_encode_append(a, b);
    law_lines_apart(processors, ids, a, b, is_sse);
}

/// Streams under `/v1/` are server-sent events, and no others are.
pub proof fn law_event_paths(path: Seq<char>)
    ensures
        is_openai(path) <==> path.len() >= 4 && path.take(4) == "/v1/"@,
{
    reveal_strlit("/v1/");
    if path.len() >= 4 {
        assert(path.take(4) =~= path.subrange(0, 4));
    }
}

} // verus!
