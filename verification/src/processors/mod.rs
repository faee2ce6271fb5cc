//! Built-in processors that transform request and response bodies.

use vstd::prelude::*;

use crate::json::{opt_text, Json, JsonView};
use crate::processors::gemma4::Gemma4ToolCallFix;
use crate::seqs::views;
use crate::text::text_eq;

pub mod gemma4;
pub mod leaked_tokens;

verus! {

/// Whether a processor operates on requests, responses, or both.
#[derive(Debug, Clone, Copy, PartialEq, Eq, Structural)]
pub enum ProcessorPhase {
    Pre,
    Post,
    Both,
}

impl ProcessorPhase {
    /// The phase takes in requests.
    pub open spec fn has_pre(self) -> bool {
        self == ProcessorPhase::Pre || self == ProcessorPhase::Both
    }

    /// The phase takes in responses.
    pub open spec fn has_post(self) -> bool {
        self == ProcessorPhase::Post || self == ProcessorPhase::Both
    }
}

/// A built-in processor that can transform request/response bodies.
pub trait Processor {
    /// What `id` returns.
    spec fn id_text(&self) -> Seq<char>;

    /// What `description` returns.
    spec fn description_text(&self) -> Seq<char>;

    /// What `phase` returns.
    spec fn phase_value(&self) -> ProcessorPhase;

    /// What a request body becomes.
    spec fn request(&self, body: JsonView) -> JsonView;

    /// What a response body becomes.
    spec fn response(&self, body: JsonView) -> JsonView;

    /// What a streaming chunk becomes.
    spec fn response_chunk(&self, chunk: JsonView) -> JsonView;

    /// What raw text that is no JSON is repaired to, if it is repaired.
    spec fn raw_response(&self, raw: Seq<char>) -> Option<Seq<char>>;

    fn id(&self) -> (r: &'static str)
        ensures
            r@ == self.id_text(),
    ;

    fn description(&self) -> (r: &'static str)
        ensures
            r@ == self.description_text(),
    ;

    fn phase(&self) -> (r: ProcessorPhase)
        ensures
            r == self.phase_value(),
    ;

    /// Transform the request body before it is sent upstream.
    fn process_request(&self, body: &mut Json)
        ensures
            final(body)@ == self.request(old(body)@),
    ;

    /// Transform a non-streaming response body before it is returned to the client.
    fn process_response(&self, body: &mut Json)
        ensures
            final(body)@ == self.response(old(body)@),
    ;

    /// Transform a single streaming response chunk.
    fn process_response_chunk(&self, chunk: &mut Json)
        ensures
            final(chunk)@ == self.response_chunk(old(chunk)@),
    ;

    /// Attempt to repair raw response text that is not valid JSON.
    ///
    /// Called when the response body fails JSON parsing.  Processors that know
    /// about model-specific token leakage (e.g. Gemma 4 `<|"|>` delimiters)
    /// can strip those tokens from the raw text so that a subsequent JSON parse
    /// may succeed.  Returns `Some(repaired)` if the processor made changes,
    /// `None` otherwise.
    fn repair_raw_response(&self, raw: &str) -> (r: Option<String>)
        ensures
            opt_text(r) == self.raw_response(raw@),
    ;
}

/// Metadata about a built-in processor (for the admin API).
#[derive(Clone, Debug)]
pub struct ProcessorInfo {
    pub id: String,
    pub description: String,
    pub phase: ProcessorPhase,
}

/// Registry of all available processors.
pub struct ProcessorRegistry<P = Gemma4ToolCallFix> {
    processors: Vec<P>,
}

impl<P> View for ProcessorRegistry<P> {
    type V = Seq<P>;

    /// The processors, in the order in which they were registered.
    closed spec fn view(&self) -> Seq<P> {
        self.processors@
    }
}

/// The first processor with that id.
pub open spec fn lookup<P: Processor>(processors: Seq<P>, id: Seq<char>) -> Option<P>
    decreases processors.len(),
{
    if processors.len() == 0 {
        None
    } else if processors[0].id_text() == id {
        Some(processors[0])
    } else {
        lookup(processors.skip(1), id)
    }
}

/// A request body after the processors with the given ids, one after the
/// other; ids that are not known and processors that leave requests alone are
/// passed over.
pub open spec fn preprocessed<P: Processor>(
    processors: Seq<P>,
    ids: Seq<Seq<char>>,
    body: JsonView,
) -> JsonView
    decreases ids.len(),
{
    if ids.len() == 0 {
        body
    } else {
        let before = preprocessed(processors, ids.drop_last(), body);
        match lookup(processors, ids.last()) {
            Some(p) => if p.phase_value().has_pre() {
                p.request(before)
            } else {
                before
            },
            None => before,
        }
    }
}

/// A response body after the processors with the given ids, one after the
/// other; ids that are not known and processors that leave responses alone are
/// passed over.
pub open spec fn postprocessed<P: Processor>(
    processors: Seq<P>,
    ids: Seq<Seq<char>>,
    body: JsonView,
) -> JsonView
    decreases ids.len(),
{
    if ids.len() == 0 {
        body
    } else {
        let before = postprocessed(processors, ids.drop_last(), body);
        match lookup(processors, ids.last()) {
            Some(p) => if p.phase_value().has_post() {
                p.response(before)
            } else {
                before
            },
            None => before,
        }
    }
}

/// A streaming chunk after the processors with the given ids, one after the
/// other; ids that are not known and processors that leave responses alone are
/// passed over.
pub open spec fn chunk_postprocessed<P: Processor>(
    processors: Seq<P>,
    ids: Seq<Seq<char>>,
    chunk: JsonView,
) -> JsonView
    decreases ids.len(),
{
    if ids.len() == 0 {
        chunk
    } else {
        let before = chunk_postprocessed(processors, ids.drop_last(), chunk);
        match lookup(processors, ids.last()) {
            Some(p) => if p.phase_value().has_post() {
                p.response_chunk(before)
            } else {
                before
            },
            None => before,
        }
    }
}

/// What the processor with that id repairs raw text to.
pub open spec fn repair_by<P: Processor>(
    processors: Seq<P>,
    id: Seq<char>,
    raw: Seq<char>,
) -> Option<Seq<char>> {
    match lookup(processors, id) {
        Some(p) => if p.phase_value().has_post() {
            p.raw_response(raw)
        } else {
            None
        },
        None => None,
    }
}

/// What raw text is repaired to by the first of the processors with the given
/// ids that repairs it.
pub open spec fn repaired_raw<P: Processor>(
    processors: Seq<P>,
    ids: Seq<Seq<char>>,
    raw: Seq<char>,
) -> Option<Seq<char>>
    decreases ids.len(),
{
    if ids.len() == 0 {
        None
    } else {
        match repair_by(processors, ids[0], raw) {
            Some(repaired) => Some(repaired),
            None => repaired_raw(processors, ids.skip(1), raw),
        }
    }
}

impl ProcessorRegistry<Gemma4ToolCallFix> {
    /// All built-in processors.
    pub fn new() -> (r: Self)
        ensures
            r@ == seq![Gemma4ToolCallFix],
    {
        let mut registry = ProcessorRegistry { processors: Vec::new() };
        registry.register(Gemma4ToolCallFix);
        assert(registry@ =~= seq![Gemma4ToolCallFix]);
        registry
    }
}

impl<P: Processor> ProcessorRegistry<P> {
    /// No processors.
    pub fn empty() -> (r: Self)
        ensures
            r@ == Seq::<P>::empty(),
    {
        ProcessorRegistry { processors: Vec::new() }
    }

    /// Adds a processor behind those that are there.
    pub fn register(&mut self, processor: P)
        ensures
            final(self)@ == old(self)@.push(processor),
    {
        self.processors.push(processor);
    }

    /// List metadata for all available processors.
    pub fn list(&self) -> (r: Vec<ProcessorInfo>)
        ensures
            r@.len() == self@.len(),
            forall|i: int|
                0 <= i < r@.len() ==> {
                    &&& (#[trigger] r@[i]).id@ == self@[i].id_text()
                    &&& r@[i].description@ == self@[i].description_text()
                    &&& r@[i].phase == self@[i].phase_value()
                },
    {
        let mut out: Vec<ProcessorInfo> = Vec::new();
        let mut i: usize = 0;
        while i < self.processors.len()
            invariant
                i <= self.processors@.len(),
                out@.len() == i,
                self@ == self.processors@,
                forall|k: int|
                    0 <= k < i ==> {
                        &&& (#[trigger] out@[k]).id@ == self@[k].id_text()
                        &&& out@[k].description@ == self@[k].description_text()
                        &&& out@[k].phase == self@[k].phase_value()
                    },
            decreases self.processors.len() - i,
        {
            let p = &self.processors[i];
            out.push(
                ProcessorInfo {
                    id: p.id().to_owned(),
                    description: p.description().to_owned(),
                    phase: p.phase(),
                },
            );
            i += 1;
        }
        out
    }

    /// Look up a processor by id.
    pub fn get(&self, id: &str) -> (r: Option<&P>)
        ensures
            match r {
                Some(p) => lookup(self@, id@) == Some(*p),
                None => lookup(self@, id@) is None,
            },
    {
        let mut i: usize = 0;
        assert(self@.skip(0) =~= self@);
        while i < self.processors.len()
            invariant
                i <= self.processors@.len(),
                self@ == self.processors@,
                lookup(self@, id@) == lookup(self@.skip(i as int), id@),
            decreases self.processors.len() - i,
        {
            if text_eq(self.processors[i].id(), id) {
                return Some(&self.processors[i]);
            }
            assert(self@.skip(i as int).skip(1) =~= self@.skip(i + 1));
            i += 1;
        }
        None
    }

    /// Apply all matching preprocessors for the given ids to a request body.
    pub fn apply_preprocessors(&self, ids: &[String], body: &mut Json)
        ensures
            final(body)@ == preprocessed(self@, views(ids@), old(body)@),
    {
        let ghost all = views(ids@);
        let mut i: usize = 0;
        assert(all.take(0) =~= Seq::<Seq<char>>::empty());
        while i < ids.len()
            invariant
                i <= ids@.len(),
                all == views(ids@),
                body@ == preprocessed(self@, all.take(i as int), old(body)@),
            decreases ids.len() - i,
        {
            assert(all.take(i + 1).drop_last() =~= all.take(i as int));
            if let Some(p) = self.get(ids[i].as_str()) {
                match p.phase() {
                    ProcessorPhase::Pre | ProcessorPhase::Both => p.process_request(body),
                    ProcessorPhase::Post => {},
                }
            }
            i += 1;
        }
        assert(all.take(all.len() as int) =~= all);
    }

    /// Apply all matching postprocessors for the given ids to a response body.
    pub fn apply_postprocessors(&self, ids: &[String], body: &mut Json)
        ensures
            final(body)@ == postprocessed(self@, views(ids@), old(body)@),
    {
        let ghost all = views(ids@);
        let mut i: usize = 0;
        assert(all.take(0) =~= Seq::<Seq<char>>::empty());
        while i < ids.len()
            invariant
                i <= ids@.len(),
                all == views(ids@),
                body@ == postprocessed(self@, all.take(i as int), old(body)@),
            decreases ids.len() - i,
        {
            assert(all.take(i + 1).drop_last() =~= all.take(i as int));
            if let Some(p) = self.get(ids[i].as_str()) {
                match p.phase() {
                    ProcessorPhase::Post | ProcessorPhase::Both => p.process_response(body),
                    ProcessorPhase::Pre => {},
                }
            }
            i += 1;
        }
        assert(all.take(all.len() as int) =~= all);
    }

    /// Try to repair raw response text using matching postprocessors.
    ///
    /// Called when the response body is not valid JSON.  Each processor's
    /// `repair_raw_response` is tried in order; the first `Some` result wins.
    pub fn try_repair_raw(&self, ids: &[String], raw: &str) -> (r: Option<String>)
        ensures
            opt_text(r) == repaired_raw(self@, views(ids@), raw@),
    {
        let ghost all = views(ids@);
        let mut i: usize = 0;
        assert(all.skip(0) =~= all);
        while i < ids.len()
            invariant
                i <= ids@.len(),
                all == views(ids@),
                repaired_raw(self@, all, raw@) == repaired_raw(self@, all.skip(i as int), raw@),
            decreases ids.len() - i,
        {
            assert(all.skip(i as int).skip(1) =~= all.skip(i + 1));
            if let Some(p) = self.get(ids[i].as_str()) {
                match p.phase() {
                    ProcessorPhase::Post | ProcessorPhase::Both => {
                        if let Some(repaired) = p.repair_raw_response(raw) {
                            return Some(repaired);
                        }
                    },
                    ProcessorPhase::Pre => {},
                }
            }
            i += 1;
        }
        None
    }

    /// Apply all matching postprocessors to a streaming chunk.
    pub fn apply_chunk_postprocessors(&self, ids: &[String], chunk: &mut Json)
        ensures
            final(chunk)@ == chunk_postprocessed(self@, views(ids@), old(chunk)@),
    {
        let ghost all = views(ids@);
        let mut i: usize = 0;
        assert(all.take(0) =~= Seq::<Seq<char>>::empty());
        while i < ids.len()
            invariant
                i <= ids@.len(),
                all == views(ids@),
                chunk@ == chunk_postprocessed(self@, all.take(i as int), old(chunk)@),
            decreases ids.len() - i,
        {
            assert(all.take(i + 1).drop_last() =~= all.take(i as int));
            if let Some(p) = self.get(ids[i].as_str()) {
                match p.phase() {
                    ProcessorPhase::Post | ProcessorPhase::Both => p.process_response_chunk(chunk),
                    ProcessorPhase::Pre => {},
                }
            }
            i += 1;
        }
        assert(all.take(all.len() as int) =~= all);
    }
}

/// Ids that name no processor change nothing.
pub proof fn law_unknown_ids<P: Processor>(
    processors: Seq<P>,
    ids: Seq<Seq<char>>,
    body: JsonView,
    raw: Seq<char>,
)
    requires
        forall|i: int| 0 <= i < ids.len() ==> lookup(processors, #[trigger] ids[i]) is None,
    ensures
        preprocessed(processors, ids, body) == body,
        postprocessed(processors, ids, body) == body,
        chunk_postprocessed(processors, ids, body) == body,
        repaired_raw(processors, ids, raw) is None,
    decreases ids.len(),
{
    if ids.len() > 0 {
        law_unknown_ids(processors, ids.drop_last(), body, raw);
        law_unknown_ids(processors, ids.skip(1), body, raw);
    }
}

/// The first of the processors with an id is the one that the id names.
proof fn lemma_lookup<P: Processor>(processors: Seq<P>, id: Seq<char>, i: int)
    requires
        0 <= i < processors.len(),
        processors[i].id_text() == id,
        forall|j: int| 0 <= j < i ==> (#[trigger] processors[j]).id_text() != id,
    ensures
        lookup(processors, id) == Some(processors[i]),
    decreases i,
{
    if i > 0 {
        assert(processors[0].id_text() != id);
        let rest = processors.skip(1);
        assert forall|j: int| 0 <= j < i - 1 implies (#[trigger] rest[j]).id_text() != id by {
            assert(rest[j] == processors[j + 1]);
        }
        lemma_lookup(rest, id, i - 1);
    }
}

/// An id stands for the first processor that has it.  That processor sees
/// requests if its phase is pre or both, and responses, chunks and raw replies if
/// its phase is post or both; what it does not see stays as it is.
pub proof fn law_processor_by_id<P: Processor>(
    processors: Seq<P>,
    i: int,
    body: JsonView,
    raw: Seq<char>,
)
    requires
        0 <= i < processors.len(),
        forall|j: int|
            0 <= j < i ==> (#[trigger] processors[j]).id_text() != processors[i].id_text(),
    ensures
        ({
            let p = processors[i];
            let ids = seq![p.id_text()];
            let phase = p.phase_value();
            &&& lookup(processors, p.id_text()) == Some(p)
            &&& preprocessed(processors, ids, body) == if phase == ProcessorPhase::Post {
                body
            } else {
                p.request(body)
            }
            &&& postprocessed(processors, ids, body) == if phase == ProcessorPhase::Pre {
                body
            } else {
                p.response(body)
            }
            &&& chunk_postprocessed(processors, ids, body) == if phase == ProcessorPhase::Pre {
                body
            } else {
                p.response_chunk(body)
            }
            &&& repaired_raw(processors, ids, raw) == if phase == ProcessorPhase::Pre {
                None
            } else {
                p.raw_response(raw)
            }
        }),
{
    let id = processors[i].id_text();
    lemma_lookup(processors, id, i);
    let ids = seq![id];
    let none = Seq::<Seq<char>>::empty();
    assert(ids.drop_last() =~= none);
    assert(ids.skip(1) =~= none);
    assert(ids.last() == id);
    assert(preprocessed(processors, none, body) == body);
    assert(postprocessed(processors, none, body) == body);
    assert(chunk_postprocessed(processors, none, body) == body);
    assert(repaired_raw(processors, none, raw) is None);
}

/// Processors run in the order of their ids, each on what those before it made.
/// Raw text is repaired by the first that repairs it.
pub proof fn law_processors_in_order<P: Processor>(
    processors: Seq<P>,
    first: Seq<Seq<char>>,
    then_ids: Seq<Seq<char>>,
    body: JsonView,
    raw: Seq<char>,
)
    ensures
        preprocessed(processors, first + then_ids, body) == preprocessed(
            processors,
            then_ids,
            preprocessed(processors, first, body),
        ),
        postprocessed(processors, first + then_ids, body) == postprocessed(
            processors,
            then_ids,
            postprocessed(processors, first, body),
        ),
        chunk_postprocessed(processors, first + then_ids, body) == chunk_postprocessed(
            processors,
            then_ids,
            chunk_postprocessed(processors, first, body),
        ),
        repaired_raw(processors, first + then_ids, raw) == match repaired_raw(
            processors,
            first,
            raw,
        ) {
            Some(repaired) => Some(repaired),
            None => repaired_raw(processors, then_ids, raw),
        },
{
    lemma_bodies_in_order(processors, first, then_ids, body);
    lemma_repair_in_order(processors, first, then_ids, raw);
}

/// Bodies go through the processors in the order of the ids.
proof fn lemma_bodies_in_order<P: Processor>(
    processors: Seq<P>,
    first: Seq<Seq<char>>,
    then_ids: Seq<Seq<char>>,
    body: JsonView,
)
    ensures
        preprocessed(processors, first + then_ids, body) == preprocessed(
            processors,
            then_ids,
            preprocessed(processors, first, body),
        ),
        postprocessed(processors, first + then_ids, body) == postprocessed(
            processors,
            then_ids,
            postprocessed(processors, first, body),
        ),
        chunk_postprocessed(processors, first + then_ids, body) == chunk_postprocessed(
            processors,
            then_ids,
            chunk_postprocessed(processors, first, body),
        ),
    decreases then_ids.len(),
{
    let all = first + then_ids;
    if then_ids.len() == 0 {
        assert(all =~= first);
    } else {
        assert(all.drop_last() =~= first + then_ids.drop_last());
        assert(all.last() == then_ids.last());
        lemma_bodies_in_order(processors, first, then_ids.drop_last(), body);
    }
}

/// Raw text is repaired by the first of the ids that repairs it.
proof fn lemma_repair_in_order<P: Processor>(
    processors: Seq<P>,
    first: Seq<Seq<char>>,
    then_ids: Seq<Seq<char>>,
    raw: Seq<char>,
)
    ensures
        repaired_raw(processors, first + then_ids, raw) == match repaired_raw(
            processors,
            first,
            raw,
        ) {
            Some(repaired) => Some(repaired),
            None => repaired_raw(processors, then_ids, raw),
        },
    decreases first.len(),
{
    let all = first + then_ids;
    if first.len() == 0 {
        assert(all =~= then_ids);
    } else {
        assert(all.skip(1) =~= first.skip(1) + then_ids);
        assert(all[0] == first[0]);
        lemma_repair_in_order(processors, first.skip(1), then_ids, raw);
    }
}

/// An id that no processor has names none, and changes nothing.
pub proof fn law_unknown_id<P: Processor>(
    processors: Seq<P>,
    id: Seq<char>,
    body: JsonView,
    raw: Seq<char>,
)
    requires
        forall|i: int| 0 <= i < processors.len() ==> (#[trigger] processors[i]).id_text() != id,
    ensures
        lookup(processors, id) is None,
        preprocessed(processors, seq![id], body) == body,
        postprocessed(processors, seq![id], body) == body,
        chunk_postprocessed(processors, seq![id], body) == body,
        repaired_raw(processors, seq![id], raw) is None,
{
    lemma_lookup_none(processors, id);
    assert forall|i: int| 0 <= i < seq![id].len() implies lookup(
        processors,
        #[trigger] seq![id][i],
    ) is None by {}
    law_unknown_ids(processors, seq![id], body, raw);
}

/// An id that no processor has names none.
proof fn lemma_lookup_none<P: Processor>(processors: Seq<P>, id: Seq<char>)
    requires
        forall|i: int| 0 <= i < processors.len() ==> (#[trigger] processors[i]).id_text() != id,
    ensures
        lookup(processors, id) is None,
    decreases processors.len(),
{
    if processors.len() > 0 {
        assert(processors[0].id_text() != id);
        let rest = processors.skip(1);
        assert forall|i: int| 0 <= i < rest.len() implies (#[trigger] rest[i]).id_text() != id by {
            assert(rest[i] == processors[i + 1]);
        }
        lemma_lookup_none(rest, id);
    }
}

} // verus!
