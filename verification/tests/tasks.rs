use bytes::BytesMut;
use futures::channel::oneshot;
use metric_tasks::cache::{Cache, MetricName};
use metric_tasks::counters::Counters;
use metric_tasks::task::Task;
use metric_tasks::value::MetricValue;

fn name(bytes: &[u8]) -> MetricName {
    MetricName::from_bytes(bytes.to_vec())
}

#[test]
fn parse_task_folds_buffer_into_cache() {
    let mut cache = Cache::new();
    let mut counters = Counters::new();
    let buf = BytesMut::from(&b"a:2|c\na:3|c\n"[..]);
    Task::Parse(buf).run(&mut cache, &mut counters);
    assert_eq!(counters.ingress, 2);
    assert_eq!(cache.get(&name(b"a")), Some(&MetricValue::Counter(5)));
}

#[test]
fn rotate_delivers_snapshot_and_empties_cache() {
    let mut cache = Cache::new();
    let mut counters = Counters::new();
    Task::Parse(BytesMut::from(&b"a:2|c\ng:7|g\n"[..])).run(&mut cache, &mut counters);
    assert_eq!(cache.len(), 2);

    let (tx, mut rx) = oneshot::channel::<Cache>();
    Task::Rotate(tx).run(&mut cache, &mut counters);
    assert_eq!(cache.len(), 0);
    assert_eq!(counters.agg_errors, 0);

    let snap = rx.try_recv().expect("channel intact").expect("snapshot delivered");
    assert_eq!(snap.len(), 2);
    assert_eq!(snap.get(&name(b"a")), Some(&MetricValue::Counter(2)));
    assert_eq!(snap.get(&name(b"g")), Some(&MetricValue::Gauge(7)));
}

#[test]
fn parse_after_rotation_starts_from_empty_cache() {
    let mut cache = Cache::new();
    let mut counters = Counters::new();
    Task::Parse(BytesMut::from(&b"a:2|c\n"[..])).run(&mut cache, &mut counters);
    let (tx, _rx) = oneshot::channel::<Cache>();
    Task::Rotate(tx).run(&mut cache, &mut counters);
    Task::Parse(BytesMut::from(&b"a:9|c\n"[..])).run(&mut cache, &mut counters);
    assert_eq!(cache.get(&name(b"a")), Some(&MetricValue::Counter(9)));
}

#[test]
fn rotate_with_dropped_receiver_counts_one_failure_and_worker_stays_usable() {
    let mut cache = Cache::new();
    let mut counters = Counters::new();
    Task::Parse(BytesMut::from(&b"a:2|c\n"[..])).run(&mut cache, &mut counters);

    let (tx, rx) = oneshot::channel::<Cache>();
    drop(rx);
    Task::Rotate(tx).run(&mut cache, &mut counters);
    assert_eq!(counters.agg_errors, 1);
    assert_eq!(cache.len(), 0);

    Task::Parse(BytesMut::from(&b"b:4|c\n"[..])).run(&mut cache, &mut counters);
    assert_eq!(cache.get(&name(b"b")), Some(&MetricValue::Counter(4)));
}

#[test]
fn join_delivers_combined_value() {
    let mut cache = Cache::new();
    let mut counters = Counters::new();
    let (tx, mut rx) = oneshot::channel::<MetricValue>();
    Task::Join(MetricValue::Counter(2), MetricValue::Counter(3), tx).run(
        &mut cache,
        &mut counters,
    );
    assert_eq!(counters.agg_errors, 0);
    let joined = rx.try_recv().expect("channel intact").expect("value delivered");
    assert_eq!(joined, MetricValue::Counter(5));
}

#[test]
fn join_failure_counts_once_and_delivers_first_operand_unchanged() {
    let mut cache = Cache::new();
    let mut counters = Counters::new();
    let (tx, mut rx) = oneshot::channel::<MetricValue>();
    Task::Join(MetricValue::Gauge(1), MetricValue::Counter(2), tx).run(&mut cache, &mut counters);
    assert_eq!(counters.agg_errors, 1);
    let joined = rx.try_recv().expect("channel intact").expect("value delivered");
    assert_eq!(joined, MetricValue::Gauge(1));
}

#[test]
fn join_with_dropped_receiver_counts_failure_and_worker_stays_usable() {
    let mut cache = Cache::new();
    let mut counters = Counters::new();
    let (tx, rx) = oneshot::channel::<MetricValue>();
    drop(rx);
    Task::Join(MetricValue::Counter(2), MetricValue::Counter(3), tx).run(
        &mut cache,
        &mut counters,
    );
    assert_eq!(counters.agg_errors, 1);

    Task::Parse(BytesMut::from(&b"a:1|c\n"[..])).run(&mut cache, &mut counters);
    assert_eq!(cache.get(&name(b"a")), Some(&MetricValue::Counter(1)));
}

#[test]
fn join_failure_with_dropped_receiver_counts_twice() {
    let mut cache = Cache::new();
    let mut counters = Counters::new();
    let (tx, rx) = oneshot::channel::<MetricValue>();
    drop(rx);
    Task::Join(MetricValue::Gauge(1), MetricValue::Counter(2), tx).run(&mut cache, &mut counters);
    assert_eq!(counters.agg_errors, 2);
}
