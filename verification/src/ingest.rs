use vstd::prelude::*;
use crate::cache::{Cache, spec_fold_into};
use crate::counters::{Counters, sat_add};
use crate::parse::{
    ParseOutcome, SpecParse, find_byte, find_byte_at, lemma_find_byte, lemma_spec_parse_consumed,
    parse_next, spec_parse,
};
use crate::value::MetricValue;

verus! {

/// What one parse-and-aggregate pass over a buffer does: the cache
/// mapping it leaves behind, and how much each counter grows.
pub struct IngestEffect {
    pub cache: Map<Seq<u8>, MetricValue>,
    pub ingress: nat,
    pub parse_errors: nat,
    pub agg_errors: nat,
}

/// The pass from `pos` on. It mirrors the task loop exactly:
/// - a consumed record is counted as ingested and folded into the
///   cache, and the cursor moves past it; a record that drains the
///   buffer ends the pass right after its fold;
/// - a clean end of input stops the pass;
/// - a malformed record is counted and the pass resynchronizes: it
///   resumes just past the next terminator byte, unless that terminator
///   is the buffer's last byte or is missing, in which case the rest of
///   the buffer is abandoned.
pub open spec fn spec_ingest(buf: Seq<u8>, pos: int, cache: Map<Seq<u8>, MetricValue>) -> IngestEffect
    decreases buf.len() - pos
        when 0 <= pos <= buf.len()
        via check_spec_ingest_decreases
{
    match spec_parse(buf, pos) {
        SpecParse::End => IngestEffect { cache, ingress: 0, parse_errors: 0, agg_errors: 0 },
        SpecParse::Consumed { name, value, consumed } => {
            let folded = spec_fold_into(cache, name, value);
            if pos + consumed == buf.len() {
                IngestEffect {
                    cache: folded.0,
                    ingress: 1,
                    parse_errors: 0,
                    agg_errors: folded.1,
                }
            } else {
                let rest = spec_ingest(buf, pos + consumed, folded.0);
                IngestEffect {
                    cache: rest.cache,
                    ingress: 1 + rest.ingress,
                    parse_errors: rest.parse_errors,
                    agg_errors: folded.1 + rest.agg_errors,
                }
            }
        },
        SpecParse::Malformed => {
            let nl = find_byte(buf, 10, pos);
            if nl < buf.len() - 1 {
                let rest = spec_ingest(buf, nl + 1, cache);
                IngestEffect {
                    cache: rest.cache,
                    ingress: rest.ingress,
                    parse_errors: 1 + rest.parse_errors,
                    agg_errors: rest.agg_errors,
                }
            } else {
                IngestEffect { cache, ingress: 0, parse_errors: 1, agg_errors: 0 }
            }
        },
    }
}

#[via_fn]
proof fn check_spec_ingest_decreases(buf: Seq<u8>, pos: int, cache: Map<Seq<u8>, MetricValue>) {
    lemma_spec_parse_consumed(buf, pos);
    lemma_find_byte(buf, 10, pos);
}

/// Parse a byte buffer and fold every complete record into the calling
/// worker's cache, exactly as `spec_ingest` lays it out: records are
/// folded in arrival order, malformed records are skipped to the next
/// terminator, and every failure is absorbed into a counter, never
/// propagated.
pub fn ingest(buf: &[u8], cache: &mut Cache, counters: &mut Counters)
    requires
        old(cache).wf(),
    ensures
        final(cache).wf(),
        ({
            let eff = spec_ingest(buf@, 0, old(cache)@);
            &&& final(cache)@ == eff.cache
            &&& final(counters).ingress == sat_add(old(counters).ingress, eff.ingress)
            &&& final(counters).parse_errors == sat_add(
                old(counters).parse_errors,
                eff.parse_errors,
            )
            &&& final(counters).agg_errors == sat_add(old(counters).agg_errors, eff.agg_errors)
        }),
{
    let ghost eff = spec_ingest(buf@, 0, old(cache)@);
    let mut pos: usize = 0;
    let mut d_in: u64 = 0;
    let mut d_pe: u64 = 0;
    let mut d_ae: u64 = 0;
    loop
        invariant_except_break
            pos <= buf@.len(),
            cache.wf(),
            d_in + d_pe <= pos,
            d_ae <= pos,
            ({
                let rest = spec_ingest(buf@, pos as int, cache@);
                &&& eff.cache == rest.cache
                &&& eff.ingress == d_in + rest.ingress
                &&& eff.parse_errors == d_pe + rest.parse_errors
                &&& eff.agg_errors == d_ae + rest.agg_errors
            }),
        ensures
            cache.wf(),
            eff.cache == cache@,
            eff.ingress == d_in,
            eff.parse_errors == d_pe,
            eff.agg_errors == d_ae,
        decreases buf@.len() - pos,
    {
        let ghost pos0 = pos as int;
        let ghost cache0 = cache@;
        let blen: usize = buf.len();
        assert(buf@.len() <= usize::MAX);
        match parse_next(buf, pos) {
            ParseOutcome::End => {
                break;
            },
            ParseOutcome::Consumed { name, value, consumed } => {
                proof {
                    assert(spec_parse(buf@, pos as int) == SpecParse::Consumed {
                        name: name@,
                        value,
                        consumed: consumed as int,
                    });
                    lemma_spec_parse_consumed(buf@, pos as int);
                    assert(1 <= consumed && pos + consumed <= buf@.len());
                }
                pos = pos + consumed;
                d_in = d_in + 1;
                let ghost folded = spec_fold_into(cache0, name@, value);
                let failed = cache.fold_in(name, value);
                if failed {
                    d_ae = d_ae + 1;
                }
                proof {
                    assert(cache@ == folded.0);
                }
                if pos == blen {
                    proof {
                        assert(spec_ingest(buf@, pos0, cache0) == IngestEffect {
                            cache: folded.0,
                            ingress: 1nat,
                            parse_errors: 0nat,
                            agg_errors: folded.1,
                        });
                    }
                    break;
                }
                proof {
                    assert(spec_ingest(buf@, pos0, cache0) == IngestEffect {
                        cache: spec_ingest(buf@, pos as int, folded.0).cache,
                        ingress: 1 + spec_ingest(buf@, pos as int, folded.0).ingress,
                        parse_errors: spec_ingest(buf@, pos as int, folded.0).parse_errors,
                        agg_errors: folded.1 + spec_ingest(buf@, pos as int, folded.0).agg_errors,
                    });
                }
            },
            ParseOutcome::Malformed => {
                proof {
                    assert(spec_parse(buf@, pos as int) is Malformed);
                    assert(pos < buf@.len());
                    lemma_find_byte(buf@, 10, pos as int);
                }
                d_pe = d_pe + 1;
                let nl: usize = find_byte_at(buf, 10, pos);
                if nl < blen - 1 {
                    pos = nl + 1;
                } else {
                    break;
                }
            },
        }
    }
    counters.add_ingress(d_in);
    counters.add_parse_errors(d_pe);
    counters.add_agg_errors(d_ae);
}

} // verus!
