use metric_tasks::cache::{Cache, MetricName};
use metric_tasks::counters::Counters;
use metric_tasks::ingest::ingest;
use metric_tasks::value::MetricValue;

fn name(bytes: &[u8]) -> MetricName {
    MetricName::from_bytes(bytes.to_vec())
}

#[test]
fn empty_buffer_is_clean_end() {
    let mut cache = Cache::new();
    let mut counters = Counters::new();
    ingest(b"", &mut cache, &mut counters);
    assert_eq!(cache.len(), 0);
    assert_eq!(counters.ingress, 0);
    assert_eq!(counters.parse_errors, 0);
    assert_eq!(counters.agg_errors, 0);
}

#[test]
fn single_record_with_tail_is_folded() {
    let mut cache = Cache::new();
    let mut counters = Counters::new();
    ingest(b"a:1|c\ntail", &mut cache, &mut counters);
    assert_eq!(counters.ingress, 1);
    assert_eq!(counters.parse_errors, 0);
    assert_eq!(cache.get(&name(b"a")), Some(&MetricValue::Counter(1)));
}

#[test]
fn record_that_drains_the_buffer_is_counted_and_folded() {
    let mut cache = Cache::new();
    let mut counters = Counters::new();
    ingest(b"a:1|c\n", &mut cache, &mut counters);
    assert_eq!(counters.ingress, 1);
    assert_eq!(cache.len(), 1);
    assert_eq!(cache.get(&name(b"a")), Some(&MetricValue::Counter(1)));
}

#[test]
fn counters_fold_by_summation_in_order() {
    let mut cache = Cache::new();
    let mut counters = Counters::new();
    ingest(b"c:1|c\nc:2|c\nc:3|c\n", &mut cache, &mut counters);
    assert_eq!(counters.ingress, 3);
    assert_eq!(counters.parse_errors, 0);
    assert_eq!(counters.agg_errors, 0);
    assert_eq!(cache.get(&name(b"c")), Some(&MetricValue::Counter(6)));
}

#[test]
fn gauges_fold_left_to_right_last_reading_wins() {
    let mut cache = Cache::new();
    let mut counters = Counters::new();
    ingest(b"g:1|g\ng:2|g\ng:3|g\n", &mut cache, &mut counters);
    assert_eq!(counters.ingress, 3);
    assert_eq!(cache.get(&name(b"g")), Some(&MetricValue::Gauge(3)));
}

#[test]
fn fold_continues_from_earlier_buffers_in_same_epoch() {
    let mut cache = Cache::new();
    let mut counters = Counters::new();
    ingest(b"c:5|c\n", &mut cache, &mut counters);
    ingest(b"c:7|c\n", &mut cache, &mut counters);
    assert_eq!(cache.get(&name(b"c")), Some(&MetricValue::Counter(12)));
}

#[test]
fn resync_skips_malformed_record_and_ingests_the_next() {
    let mut cache = Cache::new();
    let mut counters = Counters::new();
    ingest(b"bad\nok:1|c\n", &mut cache, &mut counters);
    assert_eq!(counters.ingress, 1);
    assert_eq!(counters.parse_errors, 1);
    assert_eq!(counters.agg_errors, 0);
    assert_eq!(cache.get(&name(b"ok")), Some(&MetricValue::Counter(1)));
    assert_eq!(cache.len(), 1);
}

#[test]
fn malformed_record_with_terminator_at_last_byte_abandons_rest() {
    let mut cache = Cache::new();
    let mut counters = Counters::new();
    ingest(b"bad\n", &mut cache, &mut counters);
    assert_eq!(counters.ingress, 0);
    assert_eq!(counters.parse_errors, 1);
    assert_eq!(cache.len(), 0);
}

#[test]
fn unterminated_tail_is_a_clean_end_not_an_error() {
    let mut cache = Cache::new();
    let mut counters = Counters::new();
    ingest(b"incomplete", &mut cache, &mut counters);
    assert_eq!(counters.ingress, 0);
    assert_eq!(counters.parse_errors, 0);
    assert_eq!(cache.len(), 0);
}

#[test]
fn agg_failure_leaves_cached_value_unchanged() {
    let mut cache = Cache::new();
    let mut counters = Counters::new();
    ingest(b"m:5|g\nm:3|c\n", &mut cache, &mut counters);
    assert_eq!(counters.ingress, 2);
    assert_eq!(counters.agg_errors, 1);
    assert_eq!(cache.get(&name(b"m")), Some(&MetricValue::Gauge(5)));
}

#[test]
fn fold_in_reports_incompatible_merge_once() {
    let mut cache = Cache::new();
    let failed_first = cache.fold_in(name(b"m"), MetricValue::Gauge(5));
    assert!(!failed_first);
    let failed_second = cache.fold_in(name(b"m"), MetricValue::Counter(3));
    assert!(failed_second);
    assert_eq!(cache.get(&name(b"m")), Some(&MetricValue::Gauge(5)));
}

#[test]
fn negative_values_parse() {
    let mut cache = Cache::new();
    let mut counters = Counters::new();
    ingest(b"n:-5|c\n", &mut cache, &mut counters);
    assert_eq!(cache.get(&name(b"n")), Some(&MetricValue::Counter(-5)));
}

#[test]
fn eighteen_digit_value_parses() {
    let mut cache = Cache::new();
    let mut counters = Counters::new();
    ingest(b"big:999999999999999999|c\n", &mut cache, &mut counters);
    assert_eq!(
        cache.get(&name(b"big")),
        Some(&MetricValue::Counter(999_999_999_999_999_999))
    );
}

#[test]
fn nineteen_digit_value_is_malformed() {
    let mut cache = Cache::new();
    let mut counters = Counters::new();
    ingest(b"big:9999999999999999999|c\nok:1|c\n", &mut cache, &mut counters);
    assert_eq!(counters.parse_errors, 1);
    assert_eq!(counters.ingress, 1);
    assert_eq!(cache.get(&name(b"big")), None);
    assert_eq!(cache.get(&name(b"ok")), Some(&MetricValue::Counter(1)));
}

#[test]
fn malformed_shapes_are_each_one_parse_error() {
    // no colon; empty name; empty value; junk in value; bad kind byte
    let cases: [&[u8]; 5] = [b"abc\nZ", b":1|c\nZ", b"a:|c\nZ", b"a:1a|c\nZ", b"a:1|x\nZ"];
    for raw in cases.iter() {
        let mut cache = Cache::new();
        let mut counters = Counters::new();
        ingest(raw, &mut cache, &mut counters);
        assert_eq!(counters.parse_errors, 1);
        assert_eq!(counters.ingress, 0);
        assert_eq!(cache.len(), 0);
    }
}

#[test]
fn counter_sum_saturates_at_the_top() {
    let a = MetricValue::Counter(i64::MAX);
    let b = MetricValue::Counter(1);
    assert_eq!(a.combine(b), Ok(MetricValue::Counter(i64::MAX)));
    let c = MetricValue::Counter(i64::MIN);
    let d = MetricValue::Counter(-1);
    assert_eq!(c.combine(d), Ok(MetricValue::Counter(i64::MIN)));
}

#[test]
fn distinct_names_keep_distinct_entries() {
    let mut cache = Cache::new();
    let mut counters = Counters::new();
    ingest(b"a:1|c\nb:2|c\na:3|c\n", &mut cache, &mut counters);
    assert_eq!(cache.len(), 2);
    assert_eq!(cache.get(&name(b"a")), Some(&MetricValue::Counter(4)));
    assert_eq!(cache.get(&name(b"b")), Some(&MetricValue::Counter(2)));
}
