//! The concurrency-safe series aggregator.
//!
//! One aggregator owns the state of one scan session: a keyed table from
//! series instance identifier to the ordered entries of that series, and the
//! process-wide set of SOP instance identifiers already seen. Ingestion
//! drops objects without a series identifier, drops objects without a SOP
//! identifier, deduplicates by SOP identifier across all series, and keeps
//! every series sorted by spatial position at all times.
//!
//! The storage is dashmap's sharded tables, which lock per shard rather
//! than globally. This interface routes every mutation through `&mut self`,
//! so each ingestion step is atomic from a reader's viewpoint and the
//! contracts below hold of the whole state; a driver that probes files on
//! many threads shares the aggregator behind a lock of its own, or feeds it
//! from one thread while the walk-and-probe stage runs concurrently.

use vstd::prelude::*;
use dashmap::DashMap;
use dashmap::DashSet;
use crate::meta::DicomMeta;
use crate::order::SeriesEntry;
use crate::order::ordered;
use crate::order::pos_le;
use crate::order::insert_index;
use crate::order::insert_sorted;
use crate::order::lemma_insert_index_props;
use crate::order::lemma_insert_sorted_ordered;
use crate::order::lemma_insert_keeps_relative_order;
use crate::order::lemma_missing_position_appends;
use crate::store::series_table;
use crate::store::seen_ids;
use crate::store::empty_series_table;
use crate::store::empty_seen_ids;
use crate::store::new_series_map;
use crate::store::new_seen_set;
use crate::store::series_map_take;
use crate::store::series_map_put;
use crate::store::series_map_read;
use crate::store::series_map_keys;
use crate::store::seen_set_insert;

verus! {

/// What became of one ingested object.
#[derive(Clone, Copy, PartialEq, Eq, Structural, Debug)]
pub enum IngestOutcome {
    /// The object entered its series' ordered sequence.
    Added,
    /// Dropped: the object carries no series instance identifier.
    NoSeriesId,
    /// Dropped: the object carries no SOP instance identifier.
    NoSopId,
    /// Dropped: an object with the same SOP instance identifier was already
    /// ingested.
    Duplicate,
}

/// The series identifier an entry carries, by content.
pub open spec fn sid_view(e: SeriesEntry) -> Seq<char> {
    e.meta.series_uid->0@
}

/// The SOP instance identifier an entry carries, by content.
pub open spec fn sop_view(e: SeriesEntry) -> Seq<char> {
    e.meta.sop_uid->0@
}

/// The entries of series `sid`, or the empty sequence when the series does
/// not exist yet.
pub open spec fn entries_or_empty(
    m: Map<Seq<char>, Seq<SeriesEntry>>,
    sid: Seq<char>,
) -> Seq<SeriesEntry> {
    if m.dom().contains(sid) {
        m[sid]
    } else {
        Seq::empty()
    }
}

/// The sequence of series `sid` after entry `e` joins at its placement
/// point.
pub open spec fn series_after_add(
    m: Map<Seq<char>, Seq<SeriesEntry>>,
    sid: Seq<char>,
    e: SeriesEntry,
) -> Seq<SeriesEntry> {
    entries_or_empty(m, sid).insert(
        insert_index(entries_or_empty(m, sid), e.meta.position),
        e,
    )
}

/// One stored entry is well formed for the series keyed `sid`: it carries
/// that series identifier and a SOP identifier that the seen set records.
pub open spec fn entry_wf(e: SeriesEntry, sid: Seq<char>, seen: Set<Seq<char>>) -> bool {
    &&& e.meta.series_uid is Some
    &&& sid_view(e) == sid
    &&& e.meta.sop_uid is Some
    &&& seen.contains(sop_view(e))
}

/// The aggregation invariant: every series is non-empty and ordered, every
/// entry sits under its own series identifier with its SOP identifier
/// recorded as seen, and no SOP identifier occurs twice anywhere.
pub open spec fn state_wf(m: Map<Seq<char>, Seq<SeriesEntry>>, seen: Set<Seq<char>>) -> bool {
    &&& (forall|sid: Seq<char>| #[trigger]
        m.dom().contains(sid) ==> ordered(m[sid]) && m[sid].len() > 0)
    &&& (forall|sid: Seq<char>, i: int|
        m.dom().contains(sid) && 0 <= i < m[sid].len() ==> entry_wf(
            #[trigger] m[sid][i],
            sid,
            seen,
        ))
    &&& (forall|sid1: Seq<char>, i1: int, sid2: Seq<char>, i2: int|
        #![trigger m[sid1][i1], m[sid2][i2]]
        m.dom().contains(sid1) && m.dom().contains(sid2) && 0 <= i1 < m[sid1].len() && 0 <= i2
            < m[sid2].len() && !(sid1 == sid2 && i1 == i2) ==> sop_view(m[sid1][i1]) != sop_view(
            m[sid2][i2],
        ))
}

/// Adding a fresh, well-identified entry to its series preserves the
/// aggregation invariant.
proof fn lemma_wf_after_add(
    m: Map<Seq<char>, Seq<SeriesEntry>>,
    seen: Set<Seq<char>>,
    sid: Seq<char>,
    e: SeriesEntry,
)
    requires
        state_wf(m, seen),
        e.meta.series_uid is Some,
        sid_view(e) == sid,
        e.meta.sop_uid is Some,
        !seen.contains(sop_view(e)),
    ensures
        state_wf(m.insert(sid, series_after_add(m, sid, e)), seen.insert(sop_view(e))),
{
    let s = entries_or_empty(m, sid);
    let p = e.meta.position;
    let k = insert_index(s, p);
    let s2 = series_after_add(m, sid, e);
    let m2 = m.insert(sid, s2);
    let seen2 = seen.insert(sop_view(e));
    lemma_insert_index_props(s, p);
    s.insert_ensures(k, e);
    if m.dom().contains(sid) {
        assert(ordered(m[sid]));
    }
    lemma_insert_sorted_ordered(s, e);

    assert forall|t: Seq<char>| #[trigger]
        m2.dom().contains(t) implies ordered(m2[t]) && m2[t].len() > 0 by {
        if t != sid {
            assert(m.dom().contains(t));
        }
    }

    assert forall|t: Seq<char>, i: int|
        m2.dom().contains(t) && 0 <= i < m2[t].len() implies entry_wf(
        #[trigger] m2[t][i],
        t,
        seen2,
    ) by {
        if t == sid {
            if i == k {
                assert(s2[i] == e);
            } else if i < k {
                assert(s2[i] == s[i]);
                assert(entry_wf(m[sid][i], sid, seen));
            } else {
                assert(s2[i] == s[i - 1]);
                assert(entry_wf(m[sid][i - 1], sid, seen));
            }
        } else {
            assert(m2[t][i] == m[t][i]);
            assert(entry_wf(m[t][i], t, seen));
        }
    }

    assert forall|t1: Seq<char>, i1: int, t2: Seq<char>, i2: int|
        #![trigger m2[t1][i1], m2[t2][i2]]
        m2.dom().contains(t1) && m2.dom().contains(t2) && 0 <= i1 < m2[t1].len() && 0 <= i2 < m2[
        t2].len() && !(t1 == t2 && i1 == i2) implies sop_view(m2[t1][i1]) != sop_view(
        m2[t2][i2],
    ) by {
        let new1 = t1 == sid && i1 == k;
        let new2 = t2 == sid && i2 == k;
        // the entry an unchanged slot held before the insertion
        let o1: int = if t1 == sid && i1 > k {
            i1 - 1
        } else {
            i1
        };
        let o2: int = if t2 == sid && i2 > k {
            i2 - 1
        } else {
            i2
        };
        if new1 && new2 {
            assert(false);
        } else if new1 {
            assert(m2[t2][i2] == m[t2][o2]);
            assert(entry_wf(m[t2][o2], t2, seen));
            assert(sop_view(m2[t1][i1]) == sop_view(e));
        } else if new2 {
            assert(m2[t1][i1] == m[t1][o1]);
            assert(entry_wf(m[t1][o1], t1, seen));
            assert(sop_view(m2[t2][i2]) == sop_view(e));
        } else {
            assert(m2[t1][i1] == m[t1][o1]);
            assert(m2[t2][i2] == m[t2][o2]);
            assert(!(t1 == t2 && o1 == o2));
            assert(sop_view(m[t1][o1]) != sop_view(m[t2][o2]));
        }
    }
}

/// The shared aggregation state of one scan session.
///
/// `new` establishes the invariant `wf` and every method preserves it, so a
/// client that only uses this interface always holds a well-formed
/// aggregator.
pub struct SeriesAggregator {
    map: DashMap<String, Vec<SeriesEntry>>,
    seen: DashSet<String>,
}

impl SeriesAggregator {
    /// The series table: series identifier, by content, to ordered entries.
    pub closed spec fn series(self) -> Map<Seq<char>, Seq<SeriesEntry>> {
        series_table(self.map)
    }

    /// The SOP instance identifiers recorded so far.
    pub closed spec fn seen_set(self) -> Set<Seq<char>> {
        seen_ids(self.seen)
    }

    /// The aggregation invariant, over this aggregator's state.
    pub open spec fn wf(self) -> bool {
        state_wf(self.series(), self.seen_set())
    }

    /// An empty aggregator for a fresh scan session.
    pub fn new() -> (r: SeriesAggregator)
        ensures
            r.wf(),
            r.series() == empty_series_table(),
            r.seen_set() == empty_seen_ids(),
    {
        SeriesAggregator { map: new_series_map(), seen: new_seen_set() }
    }

    /// Discards the previous session's state entirely, as when a new root
    /// directory is selected for scanning.
    pub fn reset(&mut self)
        ensures
            final(self).wf(),
            final(self).series() == empty_series_table(),
            final(self).seen_set() == empty_seen_ids(),
    {
        self.map = new_series_map();
        self.seen = new_seen_set();
    }

    /// Ingests one probed object.
    ///
    /// Objects without a series identifier or without a SOP identifier are
    /// dropped silently, as is any object whose SOP identifier was already
    /// seen — in that order, and a dropped object changes nothing. An
    /// accepted object is recorded as seen and placed into its series at the
    /// point the ordering rule picks.
    pub fn ingest(&mut self, meta: DicomMeta, path: String) -> (outcome: IngestOutcome)
        requires
            old(self).wf(),
        ensures
            final(self).wf(),
            (outcome == IngestOutcome::NoSeriesId <==> meta.series_uid is None),
            (outcome == IngestOutcome::NoSopId <==> meta.series_uid is Some && meta.sop_uid
                is None),
            (outcome == IngestOutcome::Duplicate <==> meta.series_uid is Some && meta.sop_uid
                is Some && old(self).seen_set().contains(meta.sop_uid->0@)),
            (outcome == IngestOutcome::Added <==> meta.series_uid is Some && meta.sop_uid is Some
                && !old(self).seen_set().contains(meta.sop_uid->0@)),
            outcome != IngestOutcome::Added ==> final(self).series() == old(self).series()
                && final(self).seen_set() == old(self).seen_set(),
            outcome == IngestOutcome::Added ==> final(self).seen_set() == old(
                self,
            ).seen_set().insert(meta.sop_uid->0@),
            outcome == IngestOutcome::Added ==> final(self).series() == old(self).series().insert(
                meta.series_uid->0@,
                series_after_add(
                    old(self).series(),
                    meta.series_uid->0@,
                    (SeriesEntry { meta: meta, path: path }),
                ),
            ),
    {
        let sid: String = match &meta.series_uid {
            Some(s) => s.clone(),
            None => {
                return IngestOutcome::NoSeriesId;
            },
        };
        let sop: String = match &meta.sop_uid {
            Some(s) => s.clone(),
            None => {
                return IngestOutcome::NoSopId;
            },
        };
        let fresh = seen_set_insert(&mut self.seen, sop);
        if !fresh {
            proof {
                assert(seen_ids(self.seen) =~= seen_ids(old(self).seen));
            }
            return IngestOutcome::Duplicate;
        }
        let mut entries: Vec<SeriesEntry> = match series_map_take(&mut self.map, &sid) {
            Some(v) => v,
            None => Vec::new(),
        };
        let ghost pre_map = series_table(old(self).map);
        let ghost pre_entries = entries@;
        proof {
            assert(pre_entries == entries_or_empty(pre_map, sid@));
        }
        let entry = SeriesEntry { meta, path };
        insert_sorted(&mut entries, entry);
        series_map_put(&mut self.map, sid, entries);
        proof {
            let ghost e = (SeriesEntry { meta: meta, path: path });
            assert(series_table(self.map) =~= pre_map.insert(
                sid@,
                series_after_add(pre_map, sid@, e),
            ));
            lemma_wf_after_add(pre_map, seen_ids(old(self).seen), sid@, e);
        }
        IngestOutcome::Added
    }

    /// The ordered entries of one series, or nothing for an unknown series
    /// identifier.
    pub fn get(&self, series_id: &String) -> (r: Option<Vec<SeriesEntry>>)
        requires
            self.wf(),
        ensures
            (match r {
                Some(v) => self.series().dom().contains(series_id@)
                    && v@ == self.series()[series_id@] && ordered(v@),
                None => !self.series().dom().contains(series_id@),
            }),
    {
        series_map_read(&self.map, series_id)
    }

    /// The entry at `index` of one series, for reporting a single image,
    /// or nothing when the series is unknown or the index out of range.
    pub fn entry_at(&self, series_id: &String, index: usize) -> (r: Option<SeriesEntry>)
        requires
            self.wf(),
        ensures
            (match r {
                Some(e) => self.series().dom().contains(series_id@)
                    && index < self.series()[series_id@].len()
                    && e == self.series()[series_id@][index as int],
                None => !self.series().dom().contains(series_id@) || index >= entries_or_empty(
                    self.series(),
                    series_id@,
                ).len(),
            }),
    {
        match series_map_read(&self.map, series_id) {
            Some(mut v) => {
                if index < v.len() {
                    Some(v.remove(index))
                } else {
                    None
                }
            },
            None => None,
        }
    }

    /// Every known series identifier, each exactly once, in unspecified
    /// order.
    pub fn series_ids(&self) -> (r: Vec<String>)
        ensures
            r@.map_values(|k: String| k@).to_set() == self.series().dom(),
            r@.map_values(|k: String| k@).no_duplicates(),
            r@.len() == self.series().dom().len(),
    {
        series_map_keys(&self.map)
    }

    /// Series identifier and entry count for every known series, each
    /// exactly once, in unspecified order — the enumeration a selector
    /// shows.
    pub fn snapshot(&self) -> (r: Vec<(String, usize)>)
        ensures
            forall|x: int|
                0 <= x < r@.len() ==> self.series().dom().contains(#[trigger] r@[x].0@)
                    && r@[x].1 == self.series()[r@[x].0@].len(),
            forall|sid: Seq<char>| #[trigger]
                self.series().dom().contains(sid) ==> exists|x: int|
                    0 <= x < r@.len() && #[trigger] r@[x].0@ == sid,
            forall|x: int, y: int| 0 <= x < y < r@.len() ==> (#[trigger] r@[x].0)@ != (#[trigger] r@[y].0)@,
            r@.len() == self.series().dom().len(),
    {
        let keys = series_map_keys(&self.map);
        let ghost key_views = keys@.map_values(|k: String| k@);
        let mut r: Vec<(String, usize)> = Vec::new();
        let mut i: usize = 0;
        while i < keys.len()
            invariant
                i <= keys@.len(),
                r@.len() == i,
                keys@.map_values(|k: String| k@) == key_views,
                key_views.to_set() == series_table(self.map).dom(),
                forall|x: int| 0 <= x < i ==> (#[trigger] r@[x].0)@ == key_views[x],
                forall|x: int|
                    0 <= x < i ==> series_table(self.map).dom().contains(#[trigger] r@[x].0@)
                        && r@[x].1 == series_table(self.map)[r@[x].0@].len(),
            decreases keys@.len() - i,
        {
            proof {
                assert(key_views[i as int] == keys@[i as int]@);
                assert(key_views.contains(keys@[i as int]@)) by {
                    assert(key_views[i as int] == keys@[i as int]@);
                }
                assert(key_views.to_set().contains(keys@[i as int]@));
            }
            let n: usize = match series_map_read(&self.map, &keys[i]) {
                Some(v) => v.len(),
                None => {
                    proof {
                        assert(false);
                    }
                    0
                },
            };
            let k = keys[i].clone();
            r.push((k, n));
            i += 1;
        }
        proof {
            assert forall|sid: Seq<char>| #[trigger]
                series_table(self.map).dom().contains(sid) implies exists|x: int|
                0 <= x < r@.len() && #[trigger] r@[x].0@ == sid by {
                assert(key_views.to_set().contains(sid));
                assert(key_views.contains(sid));
                let x = choose|x: int| 0 <= x < key_views.len() && key_views[x] == sid;
                assert(r@[x].0@ == sid);
            }
        }
        r
    }
}

/// Dedup law: a well-formed aggregator holds at most one entry per SOP
/// instance identifier, across all series — two slots that carry the same
/// identifier are the same slot.
pub proof fn lemma_global_dedup(
    a: SeriesAggregator,
    sid1: Seq<char>,
    i1: int,
    sid2: Seq<char>,
    i2: int,
)
    requires
        a.wf(),
        a.series().dom().contains(sid1),
        a.series().dom().contains(sid2),
        0 <= i1 < a.series()[sid1].len(),
        0 <= i2 < a.series()[sid2].len(),
        sop_view(a.series()[sid1][i1]) == sop_view(a.series()[sid2][i2]),
    ensures
        sid1 == sid2,
        i1 == i2,
{
    if !(sid1 == sid2 && i1 == i2) {
        assert(sop_view(a.series()[sid1][i1]) != sop_view(a.series()[sid2][i2]));
    }
}

/// Order law: in any series of a well-formed aggregator, every pair of
/// entries with known positions appears in ascending position order; in
/// particular this holds for every adjacent pair.
pub proof fn lemma_order_invariant(a: SeriesAggregator, sid: Seq<char>, i: int, j: int)
    requires
        a.wf(),
        a.series().dom().contains(sid),
        0 <= i < j < a.series()[sid].len(),
    ensures
        pos_le(a.series()[sid][i].meta.position, a.series()[sid][j].meta.position),
{
    assert(ordered(a.series()[sid]));
}

/// Tie-stability law: one ingestion step never reorders the entries already
/// stored — any two keep their relative order — and an entry without a
/// position joins at the very end of its series, so position-less entries
/// stand in arrival order.
pub proof fn lemma_tie_stability(
    m: Map<Seq<char>, Seq<SeriesEntry>>,
    sid: Seq<char>,
    e: SeriesEntry,
    i: int,
    j: int,
)
    requires
        0 <= i < j < entries_or_empty(m, sid).len(),
    ensures
        ({
            let s = entries_or_empty(m, sid);
            let s2 = series_after_add(m, sid, e);
            exists|i2: int, j2: int|
                0 <= i2 < j2 < s2.len() && s2[i2] == s[i] && s2[j2] == s[j]
        }),
        e.meta.position is None ==> series_after_add(m, sid, e) == entries_or_empty(m, sid).push(
            e,
        ),
{
    let s = entries_or_empty(m, sid);
    let p = e.meta.position;
    let k = insert_index(s, p);
    let s2 = series_after_add(m, sid, e);
    lemma_insert_index_props(s, p);
    lemma_insert_keeps_relative_order(s, k, e, i, j);
    let i2: int = if i < k {
        i
    } else {
        i + 1
    };
    let j2: int = if j < k {
        j
    } else {
        j + 1
    };
    assert(0 <= i2 < j2 < s2.len() && s2[i2] == s[i] && s2[j2] == s[j]);
    if e.meta.position is None {
        lemma_missing_position_appends(s);
        s.insert_ensures(k, e);
        assert(s2 =~= s.push(e));
    }
}

} // verus!
