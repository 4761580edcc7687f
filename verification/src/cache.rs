use vstd::prelude::*;
use crate::value::{MergeError, MetricValue, spec_combine};

verus! {

/// A metric's identifier: the raw name bytes extracted from a record.
/// No normalization is performed on it.
pub struct MetricName {
    pub bytes: Vec<u8>,
}

impl View for MetricName {
    type V = Seq<u8>;

    open spec fn view(&self) -> Seq<u8> {
        self.bytes@
    }
}

impl MetricName {
    /// Wrap raw name bytes.
    pub fn from_bytes(bytes: Vec<u8>) -> (r: MetricName)
        ensures
            r@ == bytes@,
    {
        MetricName { bytes }
    }

    /// Byte-for-byte equality of two names.
    pub fn eq_bytes(&self, other: &MetricName) -> (r: bool)
        ensures
            r == (self@ == other@),
    {
        if self.bytes.len() != other.bytes.len() {
            assert(self@ != other@);
            return false;
        }
        let mut i: usize = 0;
        while i < self.bytes.len()
            invariant
                i <= self.bytes.len(),
                self.bytes.len() == other.bytes.len(),
                forall|k: int| 0 <= k < i ==> self.bytes@[k] == other.bytes@[k],
            decreases self.bytes.len() - i,
        {
            if self.bytes[i] != other.bytes[i] {
                assert(self@ != other@);
                return false;
            }
            i = i + 1;
        }
        assert(self@ =~= other@);
        true
    }

    /// An independent copy of the name.
    pub fn duplicate(&self) -> (r: MetricName)
        ensures
            r@ == self@,
    {
        MetricName { bytes: vstd::slice::slice_to_vec(self.bytes.as_slice()) }
    }
}

/// One cache slot: a name and the value accumulated for it so far.
pub struct Entry {
    pub name: MetricName,
    pub value: MetricValue,
}

/// The mapping that a sequence of cache slots denotes.
pub open spec fn entries_map(s: Seq<Entry>) -> Map<Seq<u8>, MetricValue>
    decreases s.len(),
{
    if s.len() == 0 {
        Map::empty()
    } else {
        entries_map(s.drop_last()).insert(s.last().name@, s.last().value)
    }
}

/// No name occupies two slots.
pub open spec fn unique_names(s: Seq<Entry>) -> bool {
    forall|i: int, j: int| 0 <= i < j < s.len() ==> s[i].name@ != s[j].name@
}

/// How one parsed record lands in the mapping: a first value for the
/// name is inserted as it is; a later one is merged into the value
/// already accumulated, and a failed merge leaves that value untouched.
/// The second component is 1 exactly when the merge failed.
pub open spec fn spec_fold_into(
    m: Map<Seq<u8>, MetricValue>,
    name: Seq<u8>,
    v: MetricValue,
) -> (Map<Seq<u8>, MetricValue>, nat) {
    if m.contains_key(name) {
        match spec_combine(m[name], v) {
            Ok(merged) => (m.insert(name, merged), 0nat),
            Err(_) => (m, 1nat),
        }
    } else {
        (m.insert(name, v), 0nat)
    }
}

/// The thread-confined aggregation cache: a mapping from metric name to
/// the fold of every successfully parsed occurrence of that name since
/// the last rotation. Mutated only by the owning thread; its contents
/// leave the thread only as the independent copy that `rotate` hands out.
pub struct Cache {
    entries: Vec<Entry>,
}

impl View for Cache {
    type V = Map<Seq<u8>, MetricValue>;

    closed spec fn view(&self) -> Map<Seq<u8>, MetricValue> {
        entries_map(self.entries@)
    }
}

proof fn lemma_entries_map_props(s: Seq<Entry>)
    requires
        unique_names(s),
    ensures
        forall|i: int|
            0 <= i < s.len() ==> entries_map(s).contains_key(#[trigger] s[i].name@)
                && entries_map(s)[s[i].name@] == s[i].value,
        forall|n: Seq<u8>|
            entries_map(s).contains_key(n) ==> exists|i: int|
                0 <= i < s.len() && (#[trigger] s[i].name@) == n,
        entries_map(s).dom().finite(),
        entries_map(s).dom().len() == s.len(),
    decreases s.len(),
{
    if s.len() == 0 {
    } else {
        let d = s.drop_last();
        assert(unique_names(d)) by {
            assert(forall|i: int, j: int|
                0 <= i < j < d.len() ==> d[i] == s[i] && d[j] == s[j]);
        }
        lemma_entries_map_props(d);
        let last = s.last();
        assert forall|i: int|
            0 <= i < s.len() implies entries_map(s).contains_key(#[trigger] s[i].name@)
            && entries_map(s)[s[i].name@] == s[i].value by {
            if i < s.len() - 1 {
                assert(d[i] == s[i]);
                assert(s[i].name@ != last.name@);
            }
        }
        assert forall|n: Seq<u8>| entries_map(s).contains_key(n) implies exists|i: int|
            0 <= i < s.len() && (#[trigger] s[i].name@) == n by {
            if n == last.name@ {
                assert(s[s.len() - 1].name@ == n);
            } else {
                assert(entries_map(d).contains_key(n));
                let i = choose|i: int| 0 <= i < d.len() && (#[trigger] d[i].name@) == n;
                assert(s[i].name@ == n);
            }
        }
        assert(!entries_map(d).contains_key(last.name@)) by {
            if entries_map(d).contains_key(last.name@) {
                let i = choose|i: int|
                    0 <= i < d.len() && (#[trigger] d[i].name@) == last.name@;
                assert(s[i].name@ == s[s.len() - 1].name@);
            }
        }
        assert(entries_map(s).dom() =~= entries_map(d).dom().insert(last.name@));
    }
}

/// Two slot sequences that agree name-for-name and value-for-value
/// denote the same mapping.
proof fn lemma_entries_map_congruent(s1: Seq<Entry>, s2: Seq<Entry>)
    requires
        s1.len() == s2.len(),
        forall|i: int|
            0 <= i < s1.len() ==> (#[trigger] s1[i]).name@ == s2[i].name@ && s1[i].value
                == s2[i].value,
    ensures
        entries_map(s1) == entries_map(s2),
    decreases s1.len(),
{
    if s1.len() == 0 {
        assert(entries_map(s1) =~= entries_map(s2));
    } else {
        lemma_entries_map_congruent(s1.drop_last(), s2.drop_last());
        assert(s1[s1.len() - 1].name@ == s2[s2.len() - 1].name@);
        assert(entries_map(s1) =~= entries_map(s2));
    }
}

/// Replacing the slot of a name replaces that name's image and nothing
/// else.
proof fn lemma_entries_map_update(s: Seq<Entry>, i: int, e: Entry)
    requires
        unique_names(s),
        0 <= i < s.len(),
        e.name@ == s[i].name@,
    ensures
        entries_map(s.update(i, e)) == entries_map(s).insert(e.name@, e.value),
    decreases s.len(),
{
    let u = s.update(i, e);
    if i == s.len() - 1 {
        assert(u.drop_last() =~= s.drop_last());
        assert(u.last() == e);
        assert(entries_map(u) =~= entries_map(s).insert(e.name@, e.value));
    } else {
        let d = s.drop_last();
        assert(unique_names(d)) by {
            assert(forall|p: int, q: int|
                0 <= p < q < d.len() ==> d[p] == s[p] && d[q] == s[q]);
        }
        lemma_entries_map_update(d, i, e);
        assert(u.drop_last() =~= d.update(i, e));
        assert(u.last() == s.last());
        assert(e.name@ != s.last().name@);
        assert(entries_map(u) =~= entries_map(s).insert(e.name@, e.value));
    }
}

impl Cache {
    /// The cache is well formed: each name occupies at most one slot.
    pub closed spec fn wf(&self) -> bool {
        unique_names(self.entries@)
    }

    /// A fresh, empty cache.
    pub fn new() -> (r: Cache)
        ensures
            r.wf(),
            r@ == Map::<Seq<u8>, MetricValue>::empty(),
    {
        Cache { entries: Vec::new() }
    }

    /// How many names the cache holds.
    pub fn len(&self) -> (r: usize)
        requires
            self.wf(),
        ensures
            r == self@.dom().len(),
    {
        proof {
            lemma_entries_map_props(self.entries@);
        }
        self.entries.len()
    }

    /// The slot of `name`, if the cache has one.
    fn find_idx(&self, name: &MetricName) -> (r: Option<usize>)
        ensures
            match r {
                Some(i) => i < self.entries@.len() && self.entries@[i as int].name@ == name@,
                None => forall|k: int|
                    0 <= k < self.entries@.len() ==> (#[trigger] self.entries@[k]).name@ != name@,
            },
    {
        let mut i: usize = 0;
        while i < self.entries.len()
            invariant
                i <= self.entries@.len(),
                forall|k: int| 0 <= k < i ==> (#[trigger] self.entries@[k]).name@ != name@,
            decreases self.entries@.len() - i,
        {
            if self.entries[i].name.eq_bytes(name) {
                return Some(i);
            }
            i = i + 1;
        }
        None
    }

    /// The value accumulated for `name`, if any.
    pub fn get(&self, name: &MetricName) -> (r: Option<&MetricValue>)
        requires
            self.wf(),
        ensures
            match r {
                Some(v) => self@.contains_key(name@) && *v == self@[name@],
                None => !self@.contains_key(name@),
            },
    {
        proof {
            lemma_entries_map_props(self.entries@);
        }
        match self.find_idx(name) {
            Some(i) => Some(&self.entries[i].value),
            None => None,
        }
    }

    /// Fold one parsed record into the cache, per `spec_fold_into`:
    /// insert a first value, merge a later one, and on a failed merge
    /// keep the accumulated value untouched. Returns true exactly when
    /// the merge failed.
    pub fn fold_in(&mut self, name: MetricName, value: MetricValue) -> (failed: bool)
        requires
            old(self).wf(),
        ensures
            final(self).wf(),
            final(self)@ == spec_fold_into(old(self)@, name@, value).0,
            failed == (spec_fold_into(old(self)@, name@, value).1 == 1),
    {
        proof {
            lemma_entries_map_props(self.entries@);
        }
        match self.find_idx(&name) {
            Some(i) => {
                let prev = self.entries[i].value;
                assert(self@.contains_key(name@) && self@[name@] == prev);
                match prev.combine(value) {
                    Ok(merged) => {
                        let ghost s0 = self.entries@;
                        self.entries[i] = Entry { name, value: merged };
                        proof {
                            lemma_entries_map_update(s0, i as int, Entry { name, value: merged });
                            assert(unique_names(self.entries@)) by {
                                assert(forall|p: int, q: int|
                                    0 <= p < q < s0.len() && p != i && q != i ==> s0[p] == self.entries@[p]
                                        && s0[q] == self.entries@[q]);
                            }
                        }
                        false
                    },
                    Err(_) => true,
                }
            },
            None => {
                assert(!self@.contains_key(name@)) by {
                    if self@.contains_key(name@) {
                        let k = choose|k: int|
                            0 <= k < self.entries@.len() && (#[trigger] self.entries@[k]).name@
                                == name@;
                    }
                }
                let ghost s0 = self.entries@;
                let e = Entry { name, value };
                self.entries.push(e);
                proof {
                    assert(self.entries@.drop_last() =~= s0);
                    assert(unique_names(self.entries@)) by {
                        assert(forall|p: int, q: int|
                            0 <= p < q < self.entries@.len() && q < s0.len() ==> s0[p]
                                == self.entries@[p] && s0[q] == self.entries@[q]);
                    }
                }
                false
            },
        }
    }

    /// Detach the epoch's accumulation: hand out an independent copy of
    /// the whole contents and reset the cache to empty in place, so the
    /// next epoch starts immediately on the same cache.
    pub fn rotate(&mut self) -> (snap: Cache)
        requires
            old(self).wf(),
        ensures
            final(self).wf(),
            final(self)@ == Map::<Seq<u8>, MetricValue>::empty(),
            snap.wf(),
            snap@ == old(self)@,
    {
        let mut copied: Vec<Entry> = Vec::new();
        let mut i: usize = 0;
        while i < self.entries.len()
            invariant
                i <= self.entries@.len(),
                copied@.len() == i,
                forall|k: int|
                    0 <= k < i ==> (#[trigger] copied@[k]).name@ == self.entries@[k].name@
                        && copied@[k].value == self.entries@[k].value,
            decreases self.entries@.len() - i,
        {
            let e = Entry { name: self.entries[i].name.duplicate(), value: self.entries[i].value };
            copied.push(e);
            i = i + 1;
        }
        proof {
            lemma_entries_map_congruent(copied@, self.entries@);
        }
        self.entries.clear();
        Cache { entries: copied }
    }
}

} // verus!
