use vstd::prelude::*;

verus! {

/// A saturating counter bump: the counter stays monotone even when the
/// top of the range is reached.
pub open spec fn sat_add(c: u64, n: nat) -> u64 {
    if c + n <= u64::MAX {
        (c + n) as u64
    } else {
        u64::MAX
    }
}

/// The observability counters: records ingested, parse failures, and
/// aggregation failures. They are increment-only and never consulted
/// for control flow.
pub struct Counters {
    pub ingress: u64,
    pub parse_errors: u64,
    pub agg_errors: u64,
}

impl Counters {
    /// Fresh counters, all zero.
    pub fn new() -> (r: Counters)
        ensures
            r.ingress == 0,
            r.parse_errors == 0,
            r.agg_errors == 0,
    {
        Counters { ingress: 0, parse_errors: 0, agg_errors: 0 }
    }

    /// Count `n` more ingested records.
    pub fn add_ingress(&mut self, n: u64)
        ensures
            final(self).ingress == sat_add(old(self).ingress, n as nat),
            final(self).parse_errors == old(self).parse_errors,
            final(self).agg_errors == old(self).agg_errors,
    {
        if n <= u64::MAX - self.ingress {
            self.ingress = self.ingress + n;
        } else {
            self.ingress = u64::MAX;
        }
    }

    /// Count `n` more parse failures.
    pub fn add_parse_errors(&mut self, n: u64)
        ensures
            final(self).parse_errors == sat_add(old(self).parse_errors, n as nat),
            final(self).ingress == old(self).ingress,
            final(self).agg_errors == old(self).agg_errors,
    {
        if n <= u64::MAX - self.parse_errors {
            self.parse_errors = self.parse_errors + n;
        } else {
            self.parse_errors = u64::MAX;
        }
    }

    /// Count `n` more aggregation failures.
    pub fn add_agg_errors(&mut self, n: u64)
        ensures
            final(self).agg_errors == sat_add(old(self).agg_errors, n as nat),
            final(self).ingress == old(self).ingress,
            final(self).parse_errors == old(self).parse_errors,
    {
        if n <= u64::MAX - self.agg_errors {
            self.agg_errors = self.agg_errors + n;
        } else {
            self.agg_errors = u64::MAX;
        }
    }
}

} // verus!
