use vstd::prelude::*;
use crate::cache::spec_fold_into;
use crate::ingest::spec_ingest;
use crate::parse::{SpecParse, find_byte, lemma_find_byte, lemma_spec_parse_consumed, spec_parse};
use crate::value::{MetricValue, spec_combine};

verus! {

/// The records that one pass folds into the cache, in arrival order.
/// Every complete record is folded; a malformed record contributes
/// nothing.
pub open spec fn spec_records(buf: Seq<u8>, pos: int) -> Seq<(Seq<u8>, MetricValue)>
    decreases buf.len() - pos
        when 0 <= pos <= buf.len()
        via check_spec_records_decreases
{
    match spec_parse(buf, pos) {
        SpecParse::End => Seq::empty(),
        SpecParse::Consumed { name, value, consumed } => {
            if pos + consumed == buf.len() {
                seq![(name, value)]
            } else {
                seq![(name, value)] + spec_records(buf, pos + consumed)
            }
        },
        SpecParse::Malformed => {
            let nl = find_byte(buf, 10, pos);
            if nl < buf.len() - 1 {
                spec_records(buf, nl + 1)
            } else {
                Seq::empty()
            }
        },
    }
}

#[via_fn]
proof fn check_spec_records_decreases(buf: Seq<u8>, pos: int) {
    lemma_spec_parse_consumed(buf, pos);
    lemma_find_byte(buf, 10, pos);
}

/// The values recorded for one name, in arrival order.
pub open spec fn values_for(rs: Seq<(Seq<u8>, MetricValue)>, name: Seq<u8>) -> Seq<MetricValue>
    decreases rs.len(),
{
    if rs.len() == 0 {
        Seq::empty()
    } else {
        let tail = values_for(rs.subrange(1, rs.len() as int), name);
        if rs[0].0 == name {
            seq![rs[0].1] + tail
        } else {
            tail
        }
    }
}

/// One fold step: a first value starts the accumulation, a later one is
/// merged into it, and a failed merge leaves the accumulation unchanged.
pub open spec fn fold_step(acc: Option<MetricValue>, v: MetricValue) -> Option<MetricValue> {
    match acc {
        None => Some(v),
        Some(a) => match spec_combine(a, v) {
            Ok(m) => Some(m),
            Err(_) => Some(a),
        },
    }
}

/// The left-to-right fold of a value sequence.
pub open spec fn spec_fold_values(acc: Option<MetricValue>, vs: Seq<MetricValue>) -> Option<
    MetricValue,
>
    decreases vs.len(),
{
    if vs.len() == 0 {
        acc
    } else {
        spec_fold_values(fold_step(acc, vs[0]), vs.subrange(1, vs.len() as int))
    }
}

/// What a mapping holds for a name, if anything.
pub open spec fn entry_of(m: Map<Seq<u8>, MetricValue>, name: Seq<u8>) -> Option<MetricValue> {
    if m.contains_key(name) {
        Some(m[name])
    } else {
        None
    }
}

proof fn lemma_fold_order_from(
    buf: Seq<u8>,
    pos: int,
    cache: Map<Seq<u8>, MetricValue>,
    name: Seq<u8>,
)
    requires
        0 <= pos <= buf.len(),
    ensures
        entry_of(spec_ingest(buf, pos, cache).cache, name) == spec_fold_values(
            entry_of(cache, name),
            values_for(spec_records(buf, pos), name),
        ),
    decreases buf.len() - pos,
{
    lemma_spec_parse_consumed(buf, pos);
    lemma_find_byte(buf, 10, pos);
    match spec_parse(buf, pos) {
        SpecParse::End => {},
        SpecParse::Consumed { name: n, value: v, consumed } => {
            let folded = spec_fold_into(cache, n, v);
            if pos + consumed == buf.len() {
                let rs = spec_records(buf, pos);
                assert(rs == seq![(n, v)]);
                assert(rs[0] == (n, v));
                assert(rs.subrange(1, rs.len() as int) =~= Seq::<(Seq<u8>, MetricValue)>::empty());
                assert(values_for(rs.subrange(1, rs.len() as int), name) =~= Seq::<
                    MetricValue,
                >::empty());
                if n == name {
                    let vs = values_for(rs, name);
                    assert(vs == seq![v] + values_for(rs.subrange(1, rs.len() as int), name));
                    assert(vs =~= seq![v]);
                    assert(vs[0] == v);
                    assert(vs.subrange(1, vs.len() as int) =~= Seq::<MetricValue>::empty());
                    assert(spec_fold_values(
                        fold_step(entry_of(cache, name), v),
                        Seq::<MetricValue>::empty(),
                    ) == fold_step(entry_of(cache, name), v));
                    assert(entry_of(folded.0, name) == fold_step(entry_of(cache, name), v));
                } else {
                    assert(values_for(rs, name) =~= Seq::<MetricValue>::empty());
                    assert(spec_fold_values(entry_of(cache, name), Seq::<MetricValue>::empty())
                        == entry_of(cache, name));
                    assert(entry_of(folded.0, name) == entry_of(cache, name));
                }
            } else {
                lemma_fold_order_from(buf, pos + consumed, folded.0, name);
                let rs = spec_records(buf, pos);
                let rest_rs = spec_records(buf, pos + consumed);
                assert(rs == seq![(n, v)] + rest_rs);
                assert(rs[0] == (n, v));
                assert(rs.subrange(1, rs.len() as int) =~= rest_rs);
                if n == name {
                    let vs = values_for(rs, name);
                    assert(vs == seq![v] + values_for(rest_rs, name));
                    assert(vs[0] == v);
                    assert(vs.subrange(1, vs.len() as int) =~= values_for(rest_rs, name));
                    assert(entry_of(folded.0, name) == fold_step(entry_of(cache, name), v));
                } else {
                    assert(values_for(rs, name) == values_for(rest_rs, name));
                    assert(entry_of(folded.0, name) == entry_of(cache, name));
                }
            }
        },
        SpecParse::Malformed => {
            let nl = find_byte(buf, 10, pos);
            if nl < buf.len() - 1 {
                lemma_fold_order_from(buf, nl + 1, cache, name);
            }
        },
    }
}

/// Fold order: after one pass over a buffer, the value standing for a
/// name is the left-to-right fold, via combine, of that name's record
/// values in the buffer, in arrival order, onto whatever the cache
/// already held for that name.
pub proof fn lemma_fold_order(buf: Seq<u8>, cache: Map<Seq<u8>, MetricValue>, name: Seq<u8>)
    ensures
        entry_of(spec_ingest(buf, 0, cache).cache, name) == spec_fold_values(
            entry_of(cache, name),
            values_for(spec_records(buf, 0), name),
        ),
{
    lemma_fold_order_from(buf, 0, cache, name);
}

/// Resynchronization: after a malformed record whose next terminator
/// stands strictly before the buffer's last byte, the pass counts one
/// parse failure, skips exactly the malformed span, and carries on just
/// past the terminator as if the pass had started there; a complete
/// record standing there is still ingested.
pub proof fn lemma_resync(buf: Seq<u8>, pos: int, cache: Map<Seq<u8>, MetricValue>)
    requires
        0 <= pos <= buf.len(),
        spec_parse(buf, pos) is Malformed,
        find_byte(buf, 10, pos) < buf.len() - 1,
    ensures
        ({
            let eff = spec_ingest(buf, pos, cache);
            let rest = spec_ingest(buf, find_byte(buf, 10, pos) + 1, cache);
            &&& eff.cache == rest.cache
            &&& eff.ingress == rest.ingress
            &&& eff.parse_errors == 1 + rest.parse_errors
            &&& eff.agg_errors == rest.agg_errors
        }),
        spec_parse(buf, find_byte(buf, 10, pos) + 1) is Consumed ==> spec_ingest(
            buf,
            pos,
            cache,
        ).ingress >= 1,
{
    lemma_find_byte(buf, 10, pos);
    let nl = find_byte(buf, 10, pos);
    if spec_parse(buf, nl + 1) is Consumed {
        lemma_spec_parse_consumed(buf, nl + 1);
        let rest = spec_ingest(buf, nl + 1, cache);
        if let SpecParse::Consumed { name, value, consumed } = spec_parse(buf, nl + 1) {
            if nl + 1 + consumed == buf.len() {
                assert(rest.ingress == 1);
            } else {
                assert(rest.ingress == 1 + spec_ingest(
                    buf,
                    nl + 1 + consumed,
                    spec_fold_into(cache, name, value).0,
                ).ingress);
            }
        }
    }
}

/// Resynchronization at the boundary: a malformed record whose
/// terminator is the buffer's last byte, or whose terminator is missing
/// altogether, abandons the remainder — nothing is folded, and exactly
/// one parse failure is counted.
pub proof fn lemma_resync_at_boundary(buf: Seq<u8>, pos: int, cache: Map<Seq<u8>, MetricValue>)
    requires
        0 <= pos <= buf.len(),
        spec_parse(buf, pos) is Malformed,
        find_byte(buf, 10, pos) >= buf.len() - 1,
    ensures
        spec_ingest(buf, pos, cache).cache == cache,
        spec_ingest(buf, pos, cache).ingress == 0,
        spec_ingest(buf, pos, cache).parse_errors == 1,
        spec_ingest(buf, pos, cache).agg_errors == 0,
{
}

/// Aggregation-failure isolation: folding an incompatible value into an
/// existing entry leaves the whole mapping — that entry included —
/// unchanged, and counts exactly one aggregation failure.
pub proof fn lemma_agg_failure_isolated(m: Map<Seq<u8>, MetricValue>, name: Seq<u8>, v: MetricValue)
    requires
        m.contains_key(name),
        spec_combine(m[name], v) is Err,
    ensures
        spec_fold_into(m, name, v).0 == m,
        spec_fold_into(m, name, v).0[name] == m[name],
        spec_fold_into(m, name, v).1 == 1,
{
}

} // verus!
