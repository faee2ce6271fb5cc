//! Metrics of calls, and the queries over them.

use vstd::prelude::*;

use crate::proxy::extract::TokenRate;
use crate::seqs::views;
use crate::text::text_eq;
use crate::time::{in_calendar, rfc3339, Timestamp};

verus! {

/// What is recorded of a call.
#[derive(Debug)]
pub struct MetricsRecord {
    pub timestamp: String,
    pub backend_name: String,
    pub model: String,
    pub endpoint: String,
    pub prompt_tokens: Option<u64>,
    pub completion_tokens: Option<u64>,
    pub tokens_per_sec: Option<TokenRate>,
    /// Microseconds to the first data of the reply.
    pub ttft_micros: Option<i64>,
    /// Microseconds to the end of the reply.
    pub latency_micros: i64,
    pub status_code: u16,
}

/// The model of `MetricsRecord`.
pub struct MetricsRecordView {
    pub timestamp: Seq<char>,
    pub backend_name: Seq<char>,
    pub model: Seq<char>,
    pub endpoint: Seq<char>,
    pub prompt_tokens: Option<u64>,
    pub completion_tokens: Option<u64>,
    pub tokens_per_sec: Option<TokenRate>,
    pub ttft_micros: Option<i64>,
    pub latency_micros: i64,
    pub status_code: u16,
}

impl View for MetricsRecord {
    type V = MetricsRecordView;

    open spec fn view(&self) -> MetricsRecordView {
        MetricsRecordView {
            timestamp: self.timestamp@,
            backend_name: self.backend_name@,
            model: self.model@,
            endpoint: self.endpoint@,
            prompt_tokens: self.prompt_tokens,
            completion_tokens: self.completion_tokens,
            tokens_per_sec: self.tokens_per_sec,
            ttft_micros: self.ttft_micros,
            latency_micros: self.latency_micros,
            status_code: self.status_code,
        }
    }
}

// ---------------------------------------------------------------------
// Columns

/// An unsigned number as a signed one of the same 64 bits.
pub open spec fn signed64(n: u64) -> int {
    if n < 0x8000_0000_0000_0000 {
        n as int
    } else {
        n - 0x1_0000_0000_0000_0000
    }
}

/// A token count as an integer column holds it.
pub fn count_column(n: Option<u64>) -> (r: Option<i64>)
    ensures
        match n {
            Some(v) => r is Some && r->0 == signed64(v),
            None => r is None,
        },
{
    match n {
        Some(v) => {
            assert(v < 0x8000_0000_0000_0000 ==> (v as i64) == v) by (bit_vector);
            assert(v >= 0x8000_0000_0000_0000 ==> (v as i64) == v - 0x1_0000_0000_0000_0000)
                by (bit_vector);
            Some(
                #[verifier::truncate]
                (v as i64),
            )
        },
        None => None,
    }
}

// ---------------------------------------------------------------------
// Ranges

/// The seconds that a range spans; a day if it is none of those known.
pub open spec fn range_secs(range: Seq<char>) -> u32 {
    if range == "1h"@ {
        3600
    } else if range == "6h"@ {
        21600
    } else if range == "7d"@ {
        604800
    } else if range == "30d"@ {
        2592000
    } else {
        86400
    }
}

/// The seconds that a range spans.
pub fn seconds_in(range: &str) -> (r: u32)
    ensures
        r == range_secs(range@),
        r <= 2592000,
{
    if text_eq(range, "1h") {
        3600
    } else if text_eq(range, "6h") {
        21600
    } else if text_eq(range, "7d") {
        604800
    } else if text_eq(range, "30d") {
        2592000
    } else {
        86400
    }
}

/// The start of a range that ends now, as a text.
pub fn since_at(range: &str, now: &Timestamp) -> (r: String)
    requires
        in_calendar(now@ - range_secs(range@) * 1_000_000_000),
    ensures
        r@ == rfc3339(now@ - range_secs(range@) * 1_000_000_000),
{
    now.minus_secs(seconds_in(range)).to_rfc3339()
}

/// The start of a range that ends now, by the system's clock.
pub fn range_to_since(range: &str) -> (r: String)
    ensures
        exists|now: int|
            0 <= now && r@ == #[trigger] rfc3339(now - range_secs(range@) * 1_000_000_000),
{
    let now = Timestamp::now();
    since_at(range, &now)
}

/// The SQL expression that puts a call into a bucket of a range.
pub open spec fn bucket_sql(range: Seq<char>) -> Seq<char> {
    if range == "1h"@ {
        "strftime('%Y-%m-%dT%H:%M', timestamp)"@
    } else if range == "6h"@ {
        "strftime('%Y-%m-%dT%H:', timestamp) || printf('%02d', (cast(strftime('%M', timestamp) as integer)/5)*5)"@
    } else if range == "7d"@ {
        "strftime('%Y-%m-%dT%H:00', timestamp)"@
    } else if range == "30d"@ {
        "strftime('%Y-%m-%dT', timestamp) || printf('%02d', (cast(strftime('%H', timestamp) as integer)/6)*6) || ':00'"@
    } else {
        "strftime('%Y-%m-%dT%H:', timestamp) || printf('%02d', (cast(strftime('%M', timestamp) as integer)/15)*15)"@
    }
}

/// The SQL expression that puts a call into a bucket of a range.
pub fn range_to_bucket_sql(range: &str) -> (r: &'static str)
    ensures
        r@ == bucket_sql(range@),
{
    if text_eq(range, "1h") {
        "strftime('%Y-%m-%dT%H:%M', timestamp)"
    } else if text_eq(range, "6h") {
        "strftime('%Y-%m-%dT%H:', timestamp) || printf('%02d', (cast(strftime('%M', timestamp) as integer)/5)*5)"
    } else if text_eq(range, "7d") {
        "strftime('%Y-%m-%dT%H:00', timestamp)"
    } else if text_eq(range, "30d") {
        "strftime('%Y-%m-%dT', timestamp) || printf('%02d', (cast(strftime('%H', timestamp) as integer)/6)*6) || ':00'"
    } else {
        "strftime('%Y-%m-%dT%H:', timestamp) || printf('%02d', (cast(strftime('%M', timestamp) as integer)/15)*15)"
    }
}

/// The SQL query for a time series over a range, of one backend or of all.
pub open spec fn series_sql(range: Seq<char>, of_one_backend: bool) -> Seq<char> {
    "SELECT "@ + bucket_sql(range)
        + " as bucket, COUNT(*), COALESCE(SUM(prompt_tokens),0), COALESCE(SUM(completion_tokens),0), AVG(COALESCE(tokens_per_sec, completion_tokens / (latency_ms / 1000.0))), AVG(latency_ms) FROM api_calls WHERE timestamp >= ?1 "@
        + if of_one_backend {
        "AND backend = ?2 GROUP BY bucket ORDER BY bucket"@
    } else {
        "GROUP BY bucket ORDER BY bucket"@
    }
}

/// The SQL query for a time series over a range, of one backend or of all.
pub fn timeseries_sql(range: &str, of_one_backend: bool) -> (r: String)
    ensures
        r@ == series_sql(range@, of_one_backend),
{
    let mut sql = "SELECT ".to_owned();
    sql.append(range_to_bucket_sql(range));
    sql.append(
        " as bucket, COUNT(*), COALESCE(SUM(prompt_tokens),0), COALESCE(SUM(completion_tokens),0), AVG(COALESCE(tokens_per_sec, completion_tokens / (latency_ms / 1000.0))), AVG(latency_ms) FROM api_calls WHERE timestamp >= ?1 ",
    );
    if of_one_backend {
        sql.append("AND backend = ?2 GROUP BY bucket ORDER BY bucket");
    } else {
        sql.append("GROUP BY bucket ORDER BY bucket");
    }
    sql
}

// ---------------------------------------------------------------------
// The writer

/// Records that are written in one transaction, at most.
pub const MAX_BATCH_SIZE: usize = 500;

/// Days for which records are kept.
pub const RETENTION_DAYS: u32 = 90;

/// Batches between two prunings of old records.
pub const PRUNE_EVERY_N_BATCHES: u64 = 100;

/// Records before this point in time are pruned.
pub fn prune_cutoff_at(now: &Timestamp) -> (r: String)
    requires
        in_calendar(now@ - RETENTION_DAYS * 86400 * 1_000_000_000),
    ensures
        r@ == rfc3339(now@ - RETENTION_DAYS * 86400 * 1_000_000_000),
{
    now.minus_secs(RETENTION_DAYS * 86400).to_rfc3339()
}

/// Records before this point in time are pruned, by the system's clock.
pub fn prune_cutoff() -> (r: String)
    ensures
        exists|now: int|
            0 <= now && r@ == #[trigger] rfc3339(
                now - RETENTION_DAYS * 86400 * 1_000_000_000,
            ),
{
    let now = Timestamp::now();
    prune_cutoff_at(&now)
}

/// Collects records into batches.
#[derive(Debug)]
pub struct MetricsWriter {
    batch: Vec<MetricsRecord>,
    /// Batches since the last pruning.
    batches: u64,
}

/// The model of `MetricsWriter`.
pub struct MetricsWriterView {
    /// The records that have not been written yet.
    pub batch: Seq<MetricsRecordView>,
    /// Batches since the last pruning.
    pub batches: int,
}

impl View for MetricsWriter {
    type V = MetricsWriterView;

    closed spec fn view(&self) -> MetricsWriterView {
        MetricsWriterView { batch: views(self.batch@), batches: self.batches as int }
    }
}

impl MetricsWriter {
    #[verifier::type_invariant]
    spec fn wf(self) -> bool {
        self.batch@.len() <= MAX_BATCH_SIZE && self.batches < PRUNE_EVERY_N_BATCHES
    }

    /// A writer without records.
    pub fn new() -> (r: MetricsWriter)
        ensures
            r@ == (MetricsWriterView { batch: Seq::empty(), batches: 0 }),
    {
        let r = MetricsWriter { batch: Vec::new(), batches: 0 };
        assert(views(r.batch@) =~= Seq::<MetricsRecordView>::empty());
        r
    }

    /// Whether the batch takes another record.
    pub fn has_room(&self) -> (r: bool)
        ensures
            r == (self@.batch.len() < MAX_BATCH_SIZE),
            self@.batch.len() <= MAX_BATCH_SIZE,
    {
        proof {
            use_type_invariant(self);
        }
        self.batch.len() < MAX_BATCH_SIZE
    }

    /// Adds a record to the batch.
    pub fn push(&mut self, record: MetricsRecord)
        requires
            old(self)@.batch.len() < MAX_BATCH_SIZE,
        ensures
            final(self)@ == (MetricsWriterView {
                batch: old(self)@.batch.push(record@),
                ..old(self)@
            }),
    {
        proof {
            use_type_invariant(&*self);
        }
        let mut batch: Vec<MetricsRecord> = Vec::new();
        std::mem::swap(&mut self.batch, &mut batch);
        batch.push(record);
        assert(views(batch@) =~= old(self)@.batch.push(record@));
        self.batch = batch;
    }

    /// Hands out the batch, and tells whether old records are to be pruned
    /// after it has been written: that is so after every hundredth batch.
    pub fn take_batch(&mut self) -> (r: (Vec<MetricsRecord>, bool))
        ensures
            views(r.0@) == old(self)@.batch,
            r.1 == (old(self)@.batches + 1 == PRUNE_EVERY_N_BATCHES),
            final(self)@ == (MetricsWriterView {
                batch: Seq::empty(),
                batches: (old(self)@.batches + 1) % PRUNE_EVERY_N_BATCHES as int,
            }),
    {
        proof {
            use_type_invariant(&*self);
        }
        let mut batch: Vec<MetricsRecord> = Vec::new();
        std::mem::swap(&mut self.batch, &mut batch);
        assert(views(self.batch@) =~= Seq::<MetricsRecordView>::empty());
        let prune = self.batches + 1 == PRUNE_EVERY_N_BATCHES;
        self.batches =
        if prune {
            0
        } else {
            self.batches + 1
        };
        (batch, prune)
    }
}

/// The batches since the last pruning, after `n` more.
pub open spec fn batches_after(start: int, n: nat) -> int
    decreases n,
{
    if n == 0 {
        start
    } else {
        (batches_after(start, (n - 1) as nat) + 1) % PRUNE_EVERY_N_BATCHES as int
    }
}

/// Of a new writer's batches, every hundredth is followed by a pruning and no
/// other.
pub proof fn law_prune_rhythm(n: nat)
    requires
        n > 0,
    ensures
        (batches_after(0, (n - 1) as nat) + 1 == PRUNE_EVERY_N_BATCHES) <==> n
            % PRUNE_EVERY_N_BATCHES as nat == 0,
{
    lemma_batches_after((n - 1) as nat);
}

/// A new writer counts its batches by the hundred.
proof fn lemma_batches_after(n: nat)
    ensures
        batches_after(0, n) == n % PRUNE_EVERY_N_BATCHES as nat,
    decreases n,
{
    if n > 0 {
        lemma_batches_after((n - 1) as nat);
    }
}

/// Ranges, in hours and days; what is none of them is a day.
pub proof fn law_ranges(range: Seq<char>)
    ensures
        range == "1h"@ ==> range_secs(range) == 3600,
        range == "6h"@ ==> range_secs(range) == 6 * 3600,
        range == "24h"@ ==> range_secs(range) == 24 * 3600,
        range == "7d"@ ==> range_secs(range) == 7 * 24 * 3600,
        range == "30d"@ ==> range_secs(range) == 30 * 24 * 3600,
        range != "1h"@ && range != "6h"@ && range != "7d"@ && range != "30d"@ ==> range_secs(range)
            == 24 * 3600,
{
    reveal_strlit("1h");
    reveal_strlit("6h");
    reveal_strlit("7d");
    reveal_strlit("24h");
    reveal_strlit("30d");
    assert("1h"@[0] == '1' && "6h"@[0] == '6' && "7d"@[0] == '7');
    assert("24h"@[0] == '2' && "30d"@[0] == '3');
}

/// A column holds a count as it is wherever it fits 63 bits, and else the same 64
/// bits.
pub proof fn law_count_columns(n: u64)
    ensures
        n <= i64::MAX ==> signed64(n) == n,
        i64::MIN <= signed64(n) <= i64::MAX,
        (n - signed64(n)) % 0x1_0000_0000_0000_0000 == 0,
{
}

/// The query for a time series of one backend is the query for all, restricted to
/// that backend; both take the calls since a point in time, by bucket of the range.
pub proof fn law_series(range: Seq<char>)
    ensures
        ({
            let start = "SELECT "@ + bucket_sql(range)
                + " as bucket, COUNT(*), COALESCE(SUM(prompt_tokens),0), COALESCE(SUM(completion_tokens),0), AVG(COALESCE(tokens_per_sec, completion_tokens / (latency_ms / 1000.0))), AVG(latency_ms) FROM api_calls WHERE timestamp >= ?1 "@;
            &&& series_sql(range, false) == start + "GROUP BY bucket ORDER BY bucket"@
            &&& series_sql(range, true) == start
                + "AND backend = ?2 GROUP BY bucket ORDER BY bucket"@
        }),
{
}

/// The buckets of ranges: minutes of an hour, five minutes of six hours, hours of a
/// week, six hours of a month, and quarters of an hour of anything else.
pub proof fn law_buckets(range: Seq<char>)
    ensures
        range == "1h"@ ==> bucket_sql(range) == "strftime('%Y-%m-%dT%H:%M', timestamp)"@,
        range == "6h"@ ==> bucket_sql(range)
            == "strftime('%Y-%m-%dT%H:', timestamp) || printf('%02d', (cast(strftime('%M', timestamp) as integer)/5)*5)"@,
        range == "7d"@ ==> bucket_sql(range) == "strftime('%Y-%m-%dT%H:00', timestamp)"@,
        range == "30d"@ ==> bucket_sql(range)
            == "strftime('%Y-%m-%dT', timestamp) || printf('%02d', (cast(strftime('%H', timestamp) as integer)/6)*6) || ':00'"@,
        range != "1h"@ && range != "6h"@ && range != "7d"@ && range != "30d"@ ==> bucket_sql(range)
            == "strftime('%Y-%m-%dT%H:', timestamp) || printf('%02d', (cast(strftime('%M', timestamp) as integer)/15)*15)"@,
{
    law_ranges(range);
    reveal_strlit("1h");
    reveal_strlit("6h");
    reveal_strlit("7d");
    reveal_strlit("30d");
    assert("1h"@[0] == '1' && "6h"@[0] == '6' && "7d"@[0] == '7' && "30d"@[0] == '3');
}

/// Batches hold up to five hundred records, records are kept for ninety days, and
/// old ones are pruned after every hundredth batch.
pub proof fn law_writer_limits()
    ensures
        MAX_BATCH_SIZE == 500,
        RETENTION_DAYS == 90,
        PRUNE_EVERY_N_BATCHES == 100,
{
}

/// The model of a record has all that the record has.
pub proof fn law_record_model(m: MetricsRecord)
    ensures
        m@.timestamp == m.timestamp@,
        m@.backend_name == m.backend_name@,
        m@.model == m.model@,
        m@.endpoint == m.endpoint@,
        m@.prompt_tokens == m.prompt_tokens,
        m@.completion_tokens == m.completion_tokens,
        m@.tokens_per_sec == m.tokens_per_sec,
        m@.ttft_micros == m.ttft_micros,
        m@.latency_micros == m.latency_micros,
        m@.status_code == m.status_code,
{
}

} // verus!
