use ollama_gateway::metrics::{
    count_column, prune_cutoff, prune_cutoff_at, range_to_bucket_sql, range_to_since, seconds_in,
    since_at, timeseries_sql, MetricsRecord, MetricsWriter, MAX_BATCH_SIZE,
};
use ollama_gateway::time::Timestamp;

fn at(secs: i64, nanos: u32) -> Timestamp {
    Timestamp::new(secs, nanos).unwrap()
}

#[test]
fn ranges() {
    assert_eq!(seconds_in("1h"), 3600);
    assert_eq!(seconds_in("6h"), 6 * 3600);
    assert_eq!(seconds_in("24h"), 86400);
    assert_eq!(seconds_in("7d"), 7 * 86400);
    assert_eq!(seconds_in("30d"), 30 * 86400);
    assert_eq!(seconds_in("junk"), 86400);
    assert_eq!(since_at("1h", &at(7200, 0)), "1970-01-01T01:00:00+00:00");
    assert_eq!(since_at("7d", &at(0, 1)), "1969-12-25T00:00:00.000000001+00:00");
    assert_eq!(prune_cutoff_at(&at(90 * 86400 + 1, 0)), "1970-01-01T00:00:01+00:00");
    assert!(range_to_since("30d").as_str() > "2020");
    assert!(prune_cutoff().as_str() > "2020");
    assert!(range_to_since("1h") > range_to_since("30d"));
}

#[test]
fn buckets() {
    assert_eq!(range_to_bucket_sql("1h"), "strftime('%Y-%m-%dT%H:%M', timestamp)");
    assert!(range_to_bucket_sql("6h").contains("/5)*5"));
    assert_eq!(range_to_bucket_sql("7d"), "strftime('%Y-%m-%dT%H:00', timestamp)");
    assert!(range_to_bucket_sql("30d").contains("/6)*6"));
    assert!(range_to_bucket_sql("24h").contains("/15)*15"));
    let cols = "COUNT(*), COALESCE(SUM(prompt_tokens),0), COALESCE(SUM(completion_tokens),0), AVG(COALESCE(tokens_per_sec, completion_tokens / (latency_ms / 1000.0))), AVG(latency_ms)";
    let bucket = range_to_bucket_sql("7d");
    assert_eq!(
        timeseries_sql("7d", true),
        format!(
            "SELECT {bucket} as bucket, {cols} \
             FROM api_calls WHERE timestamp >= ?1 AND backend = ?2 \
             GROUP BY bucket ORDER BY bucket"
        )
    );
    assert_eq!(
        timeseries_sql("7d", false),
        format!(
            "SELECT {bucket} as bucket, {cols} \
             FROM api_calls WHERE timestamp >= ?1 \
             GROUP BY bucket ORDER BY bucket"
        )
    );
}

fn record(n: u64) -> MetricsRecord {
    MetricsRecord {
        timestamp: String::new(),
        backend_name: String::new(),
        model: String::new(),
        endpoint: String::new(),
        prompt_tokens: Some(n),
        completion_tokens: None,
        tokens_per_sec: None,
        ttft_micros: None,
        latency_micros: 0,
        status_code: 200,
    }
}

#[test]
fn batches_are_filled_and_pruned() {
    let mut writer = MetricsWriter::new();
    for n in 0..MAX_BATCH_SIZE as u64 {
        assert!(writer.has_room());
        writer.push(record(n));
    }
    assert!(!writer.has_room());
    let (batch, prune) = writer.take_batch();
    assert_eq!(batch.len(), 500);
    assert_eq!(batch[499].prompt_tokens, Some(499));
    assert!(!prune);
    for n in 2..=250u64 {
        writer.push(record(n));
        let (batch, prune) = writer.take_batch();
        assert_eq!(batch.len(), 1);
        assert_eq!(prune, n % 100 == 0);
    }
}

#[test]
fn columns() {
    assert_eq!(count_column(None), None);
    assert_eq!(count_column(Some(7)), Some(7));
    assert_eq!(count_column(Some(i64::MAX as u64)), Some(i64::MAX));
    assert_eq!(count_column(Some(1 << 63)), Some(i64::MIN));
    assert_eq!(count_column(Some(u64::MAX)), Some(-1));
}

#[test]
fn times() {
    assert_eq!(at(0, 0).to_rfc3339(), "1970-01-01T00:00:00+00:00");
    assert_eq!(at(1_700_000_000, 123_000_000).to_rfc3339(), "2023-11-14T22:13:20.123+00:00");
    assert_eq!(at(-8_334_601_228_800, 0).to_rfc3339(), "-262143-01-01T00:00:00+00:00");
    assert_eq!(at(8_210_266_876_799, 0).to_rfc3339(), "+262142-12-31T23:59:59+00:00");
    assert!(Timestamp::new(-8_334_601_228_801, 0).is_none());
    assert!(Timestamp::new(8_210_266_876_800, 0).is_none());
    assert!(Timestamp::new(0, 1_000_000_000).is_none());
    assert_eq!(at(1, 0).micros_since(&at(0, 999_999_001)), 0);
    assert_eq!(at(1, 0).micros_since(&at(0, 999_999_000)), 1);
    assert_eq!(at(0, 0).micros_since(&at(0, 1999)), -1);
    assert_eq!(at(0, 0).micros_since(&at(2, 500)), -2_000_000);
    assert_eq!(at(8_000_000_000_000, 0).micros_since(&at(-8_000_000_000_000, 0)), 0);
    assert!(Timestamp::now().micros_since(&at(1_700_000_000, 0)) > 0);
}
