use vstd::prelude::*;

verus! {

/// A typed metric value as extracted from one record: either a counter
/// delta, which accumulates by summation, or a gauge reading, where the
/// most recent reading wins.
#[derive(Clone, Copy, PartialEq, Eq, Structural, Debug)]
pub enum MetricValue {
    Counter(i64),
    Gauge(i64),
}

/// Failure of a merge: the two values have incompatible kinds.
#[derive(Clone, Copy, PartialEq, Eq, Structural, Debug)]
pub struct MergeError;

/// Clamp an unbounded sum into the `i64` range.
pub open spec fn clamp_i64(v: int) -> i64 {
    if v > i64::MAX {
        i64::MAX
    } else if v < i64::MIN {
        i64::MIN
    } else {
        v as i64
    }
}

/// What merging `next` into `prev` yields: counter deltas add
/// (saturating at the range ends), a gauge is replaced by the newer
/// reading, and values of different kinds fail to merge.
pub open spec fn spec_combine(prev: MetricValue, next: MetricValue) -> Result<
    MetricValue,
    MergeError,
> {
    match (prev, next) {
        (MetricValue::Counter(a), MetricValue::Counter(b)) => Ok(
            MetricValue::Counter(clamp_i64(a + b)),
        ),
        (MetricValue::Gauge(_), MetricValue::Gauge(b)) => Ok(MetricValue::Gauge(b)),
        _ => Err(MergeError),
    }
}

impl MetricValue {
    /// Merge `next` into `self`; fails exactly when the kinds differ.
    pub fn combine(self, next: MetricValue) -> (r: Result<MetricValue, MergeError>)
        ensures
            r == spec_combine(self, next),
    {
        match (self, next) {
            (MetricValue::Counter(a), MetricValue::Counter(b)) => {
                let s: i128 = a as i128 + b as i128;
                let c: i64 = if s > i64::MAX as i128 {
                    i64::MAX
                } else if s < i64::MIN as i128 {
                    i64::MIN
                } else {
                    s as i64
                };
                Ok(MetricValue::Counter(c))
            },
            (MetricValue::Gauge(_), MetricValue::Gauge(b)) => Ok(MetricValue::Gauge(b)),
            _ => Err(MergeError),
        }
    }
}

} // verus!
