//! Trusted interface to the concurrency-safe keyed collections.
//!
//! The series table and the seen-identifier set are dashmap collections:
//! sharded hash structures with per-shard locking, so ingestion of unrelated
//! series does not serialize on one global lock. Verus sees them through the
//! two model functions below and through small wrappers whose contracts state
//! what dashmap's source shows. The wrappers take `&mut` although dashmap
//! mutates through shared references: the owning aggregator routes every
//! mutation through an exclusive reference, so a walk over the map always
//! sees a quiescent table.

use vstd::prelude::*;
use dashmap::DashMap;
use dashmap::DashSet;
use crate::order::SeriesEntry;

verus! {

#[verifier::external_type_specification]
#[verifier::external_body]
#[verifier::reject_recursive_types(K)]
#[verifier::reject_recursive_types(V)]
#[verifier::reject_recursive_types(S)]
pub struct ExDashMap<K, V, S>(DashMap<K, V, S>);

#[verifier::external_type_specification]
#[verifier::external_body]
#[verifier::reject_recursive_types(K)]
#[verifier::reject_recursive_types(S)]
pub struct ExDashSet<K, S>(DashSet<K, S>);

/// What the series table holds: each series identifier, by content, mapped to
/// the entry sequence stored under it.
pub uninterp spec fn series_table(m: DashMap<String, Vec<SeriesEntry>>) -> Map<
    Seq<char>,
    Seq<SeriesEntry>,
>;

/// What the seen-identifier set holds: the SOP instance identifiers recorded
/// so far, by content.
pub uninterp spec fn seen_ids(s: DashSet<String>) -> Set<Seq<char>>;

/// The empty series table.
pub open spec fn empty_series_table() -> Map<Seq<char>, Seq<SeriesEntry>> {
    Map::empty()
}

/// The empty set of seen identifiers.
pub open spec fn empty_seen_ids() -> Set<Seq<char>> {
    Set::empty()
}

/// Relies on dashmap::DashMap::new: creates an empty map.
#[verifier::external_body]
pub(crate) fn new_series_map() -> (m: DashMap<String, Vec<SeriesEntry>>)
    ensures
        series_table(m) == empty_series_table(),
{
    DashMap::new()
}

/// Relies on dashmap::DashSet::new: creates an empty set.
#[verifier::external_body]
pub(crate) fn new_seen_set() -> (s: DashSet<String>)
    ensures
        seen_ids(s) == empty_seen_ids(),
{
    DashSet::new()
}

/// Relies on dashmap::DashMap::remove: takes the entry stored under `key`
/// out of the map and hands its value back, if one was there.
#[verifier::external_body]
pub(crate) fn series_map_take(
    m: &mut DashMap<String, Vec<SeriesEntry>>,
    key: &String,
) -> (r: Option<Vec<SeriesEntry>>)
    ensures
        series_table(*final(m)) == series_table(*old(m)).remove(key@),
        (match r {
            Some(v) => series_table(*old(m)).dom().contains(key@) && v@ == series_table(
                *old(m),
            )[key@],
            None => !series_table(*old(m)).dom().contains(key@),
        }),
{
    m.remove(key).map(|kv| kv.1)
}

/// Relies on dashmap::DashMap::insert: stores `entries` under `key`,
/// replacing any previous value.
#[verifier::external_body]
pub(crate) fn series_map_put(
    m: &mut DashMap<String, Vec<SeriesEntry>>,
    key: String,
    entries: Vec<SeriesEntry>,
)
    ensures
        series_table(*final(m)) == series_table(*old(m)).insert(key@, entries@),
{
    m.insert(key, entries);
}

/// Relies on dashmap::DashMap::get: hands back a copy of the entries stored
/// under `key`, if any.
#[verifier::external_body]
pub(crate) fn series_map_read(
    m: &DashMap<String, Vec<SeriesEntry>>,
    key: &String,
) -> (r: Option<Vec<SeriesEntry>>)
    ensures
        (match r {
            Some(v) => series_table(*m).dom().contains(key@) && v@ == series_table(*m)[key@],
            None => !series_table(*m).dom().contains(key@),
        }),
{
    match m.get(key) {
        Some(g) => Some(g.value().clone()),
        None => None,
    }
}

/// Relies on dashmap::DashMap::iter: walks each stored entry exactly once on
/// a quiescent map, in unspecified order.
#[verifier::external_body]
pub(crate) fn series_map_keys(m: &DashMap<String, Vec<SeriesEntry>>) -> (r: Vec<String>)
    ensures
        r@.map_values(|k: String| k@).to_set() == series_table(*m).dom(),
        r@.map_values(|k: String| k@).no_duplicates(),
        r@.len() == series_table(*m).dom().len(),
{
    m.iter().map(|e| e.key().clone()).collect()
}

/// Relies on dashmap::DashSet::insert: records `id` and returns true exactly
/// when it was not yet present; one shard-exclusive critical section makes
/// this the atomic dedup gate.
#[verifier::external_body]
pub(crate) fn seen_set_insert(s: &mut DashSet<String>, id: String) -> (fresh: bool)
    ensures
        fresh == !seen_ids(*old(s)).contains(id@),
        seen_ids(*final(s)) == seen_ids(*old(s)).insert(id@),
{
    s.insert(id)
}

} // verus!
