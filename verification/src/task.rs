use vstd::prelude::*;
use crate::cache::Cache;
use crate::counters::{Counters, sat_add};
use crate::ingest::{ingest, spec_ingest};
use crate::value::{MetricValue, spec_combine};

verus! {

/// The sending half of the single-use reply channel, from the futures
/// crate. It delivers at most one value; a dropped receiving half makes
/// delivery fail.
#[verifier::external_type_specification]
#[verifier::external_body]
#[verifier::reject_recursive_types(T)]
pub struct ExSender<T>(futures::channel::oneshot::Sender<T>);

/// A mutable byte buffer from the bytes crate, as handed over by the
/// network listener.
#[verifier::external_type_specification]
#[verifier::external_body]
pub struct ExBytesMut(bytes::BytesMut);

/// The bytes that a buffer holds.
pub uninterp spec fn bytes_contents(b: bytes::BytesMut) -> Seq<u8>;

/// Relies on bytes::BytesMut's AsRef<[u8]> impl: a borrowed view of the
/// buffer's bytes.
#[verifier::external_body]
fn bytes_as_slice(b: &bytes::BytesMut) -> (r: &[u8])
    ensures
        r@ == bytes_contents(*b),
{
    b.as_ref()
}

/// Relies on futures::channel::oneshot::Sender::send: it consumes the
/// channel and either enqueues the value for the receiver or, when the
/// receiving half was dropped, hands the value back unchanged.
pub assume_specification<T>[ futures::channel::oneshot::Sender::<T>::send ](
    s: futures::channel::oneshot::Sender<T>,
    t: T,
) -> (r: Result<(), T>)
    ensures
        r matches Err(v) ==> v == t,
;

/// Deliver a rotated snapshot over its reply channel. An abandoned
/// receiver is absorbed locally: the snapshot is dropped and the
/// failure counted, never propagated.
pub fn deliver_snapshot(
    channel: futures::channel::oneshot::Sender<Cache>,
    snap: Cache,
    counters: &mut Counters,
) -> (delivered: bool)
    ensures
        delivered ==> *final(counters) == *old(counters),
        !delivered ==> final(counters).agg_errors == sat_add(old(counters).agg_errors, 1)
            && final(counters).ingress == old(counters).ingress && final(counters).parse_errors
            == old(counters).parse_errors,
{
    match channel.send(snap) {
        Ok(_) => true,
        Err(_) => {
            counters.add_agg_errors(1);
            false
        },
    }
}

/// Deliver a joined value over its reply channel. An abandoned receiver
/// is absorbed locally: the value is dropped and the failure counted,
/// never propagated.
pub fn deliver_joined(
    channel: futures::channel::oneshot::Sender<MetricValue>,
    value: MetricValue,
    counters: &mut Counters,
) -> (delivered: bool)
    ensures
        delivered ==> *final(counters) == *old(counters),
        !delivered ==> final(counters).agg_errors == sat_add(old(counters).agg_errors, 1)
            && final(counters).ingress == old(counters).ingress && final(counters).parse_errors
            == old(counters).parse_errors,
{
    match channel.send(value) {
        Ok(_) => true,
        Err(_) => {
            counters.add_agg_errors(1);
            false
        },
    }
}

/// Combine two already-extracted values: on success the merged value,
/// on failure the first operand unchanged, with the failure counted.
pub fn join_values(a: MetricValue, b: MetricValue, counters: &mut Counters) -> (r: MetricValue)
    ensures
        final(counters).ingress == old(counters).ingress,
        final(counters).parse_errors == old(counters).parse_errors,
        match spec_combine(a, b) {
            Ok(m) => r == m && final(counters).agg_errors == old(counters).agg_errors,
            Err(_) => r == a && final(counters).agg_errors == sat_add(
                old(counters).agg_errors,
                1,
            ),
        },
{
    match a.combine(b) {
        Ok(m) => m,
        Err(_) => {
            counters.add_agg_errors(1);
            a
        },
    }
}

/// A unit of work, single-use and consumed by execution.
#[derive(Debug)]
pub enum Task {
    /// A buffer of raw metric text to fold into the worker's cache.
    Parse(bytes::BytesMut),
    /// Detach the worker's accumulated cache and deliver the snapshot.
    Rotate(futures::channel::oneshot::Sender<Cache>),
    /// Combine two already-extracted values and deliver the result.
    Join(MetricValue, MetricValue, futures::channel::oneshot::Sender<MetricValue>),
}

impl Task {
    /// Execute the task to completion against the calling worker's own
    /// cache. Every failure — a malformed record, an incompatible
    /// merge, a lost receiver — is absorbed locally and surfaces only
    /// as a counter increment; none aborts the task or the worker.
    pub fn run(self, cache: &mut Cache, counters: &mut Counters)
        requires
            old(cache).wf(),
        ensures
            final(cache).wf(),
            ({
                let c0 = *old(counters);
                let c1 = *final(counters);
                match self {
                    Task::Parse(buf) => {
                        let eff = spec_ingest(bytes_contents(buf), 0, old(cache)@);
                        &&& final(cache)@ == eff.cache
                        &&& c1.ingress == sat_add(c0.ingress, eff.ingress)
                        &&& c1.parse_errors == sat_add(c0.parse_errors, eff.parse_errors)
                        &&& c1.agg_errors == sat_add(c0.agg_errors, eff.agg_errors)
                    },
                    Task::Rotate(_) => {
                        &&& final(cache)@ == Map::<Seq<u8>, MetricValue>::empty()
                        &&& c1.ingress == c0.ingress
                        &&& c1.parse_errors == c0.parse_errors
                        &&& (c1.agg_errors == c0.agg_errors || c1.agg_errors == sat_add(
                            c0.agg_errors,
                            1,
                        ))
                    },
                    Task::Join(a, b, _) => {
                        &&& *final(cache) == *old(cache)
                        &&& c1.ingress == c0.ingress
                        &&& c1.parse_errors == c0.parse_errors
                        &&& (match spec_combine(a, b) {
                            Ok(_) => c1.agg_errors == c0.agg_errors || c1.agg_errors == sat_add(
                                c0.agg_errors,
                                1,
                            ),
                            Err(_) => c1.agg_errors == sat_add(c0.agg_errors, 1) || c1.agg_errors
                                == sat_add(c0.agg_errors, 2),
                        })
                    },
                }
            }),
    {
        match self {
            Task::Parse(buf) => {
                let slice: &[u8] = bytes_as_slice(&buf);
                ingest(slice, cache, counters);
            },
            Task::Rotate(channel) => {
                let snap = cache.rotate();
                deliver_snapshot(channel, snap, counters);
            },
            Task::Join(a, b, channel) => {
                let joined = join_values(a, b, counters);
                deliver_joined(channel, joined, counters);
            },
        }
    }
}

} // verus!
