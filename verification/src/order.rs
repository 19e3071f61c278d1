//! Entries of a series and the spatial ordering rule.
//!
//! A series keeps its entries sorted by ascending spatial position. Entries
//! whose position is missing compare as equal to everything, so they never
//! force a move; a new entry is placed before the first entry whose known
//! position is strictly greater. This realizes the stable resort-on-insert of
//! the ingestion pipeline as one ordered insertion per arriving object: ties
//! and position-less entries keep their insertion order, and the entries
//! already present are never reordered.

use vstd::prelude::*;
use crate::meta::DicomMeta;

verus! {

/// One ingested object: its metadata model and the path it was read from.
#[derive(Clone, Debug)]
pub struct SeriesEntry {
    pub meta: DicomMeta,
    /// Filesystem location the object was read from; immutable once recorded.
    pub path: String,
}

/// Position order with missing positions as ties: `a` must not come after `b`.
pub open spec fn pos_le(a: Option<i64>, b: Option<i64>) -> bool {
    match (a, b) {
        (Some(x), Some(y)) => x <= y,
        _ => true,
    }
}

/// Whether position `a` is known and strictly greater than the known `p`.
pub open spec fn pos_above(a: Option<i64>, p: Option<i64>) -> bool {
    match (a, p) {
        (Some(y), Some(x)) => y > x,
        _ => false,
    }
}

/// The series ordering invariant: known positions ascend; every pair with a
/// missing position counts as a tie.
pub open spec fn ordered(s: Seq<SeriesEntry>) -> bool {
    forall|i: int, j: int|
        0 <= i < j < s.len() ==> pos_le(#[trigger] s[i].meta.position, #[trigger] s[j].meta.position)
}

/// Where an entry with position `p` is placed: before the first entry whose
/// known position is strictly above `p`, and at the end when there is none —
/// in particular, entries without a position are always appended.
pub open spec fn insert_index(s: Seq<SeriesEntry>, p: Option<i64>) -> int
    decreases s.len(),
{
    if s.len() == 0 {
        0
    } else if pos_above(s[0].meta.position, p) {
        0
    } else {
        1 + insert_index(s.drop_first(), p)
    }
}

/// The insertion point is within bounds, nothing before it is above `p`, and
/// the entry at it (if any) is above `p`.
pub proof fn lemma_insert_index_props(s: Seq<SeriesEntry>, p: Option<i64>)
    ensures
        0 <= insert_index(s, p) <= s.len(),
        forall|i: int| 0 <= i < insert_index(s, p) ==> !pos_above(#[trigger] s[i].meta.position, p),
        insert_index(s, p) < s.len() ==> pos_above(s[insert_index(s, p)].meta.position, p),
    decreases s.len(),
{
    if s.len() > 0 && !pos_above(s[0].meta.position, p) {
        lemma_insert_index_props(s.drop_first(), p);
        assert forall|i: int| 0 <= i < insert_index(s, p)
            implies !pos_above(#[trigger] s[i].meta.position, p) by {
            if i > 0 {
                assert(s.drop_first()[i - 1] == s[i]);
            }
        }
        if insert_index(s, p) < s.len() {
            assert(s.drop_first()[insert_index(s, p) - 1] == s[insert_index(s, p)]);
        }
    }
}

/// An entry without a position is appended at the end.
pub proof fn lemma_missing_position_appends(s: Seq<SeriesEntry>)
    ensures
        insert_index(s, None::<i64>) == s.len(),
    decreases s.len(),
{
    if s.len() > 0 {
        lemma_missing_position_appends(s.drop_first());
    }
}

/// Only one index satisfies the placement rule, so a scan that finds it
/// computes `insert_index`.
pub proof fn lemma_insert_index_unique(s: Seq<SeriesEntry>, p: Option<i64>, k: int)
    requires
        0 <= k <= s.len(),
        forall|i: int| 0 <= i < k ==> !pos_above(#[trigger] s[i].meta.position, p),
        k < s.len() ==> pos_above(s[k].meta.position, p),
    ensures
        insert_index(s, p) == k,
    decreases s.len(),
{
    if s.len() == 0 {
    } else if k == 0 {
    } else {
        assert(!pos_above(s[0].meta.position, p));
        assert forall|i: int| 0 <= i < k - 1
            implies !pos_above(#[trigger] s.drop_first()[i].meta.position, p) by {
            assert(s.drop_first()[i] == s[i + 1]);
        }
        if k < s.len() {
            assert(s.drop_first()[k - 1] == s[k]);
        }
        lemma_insert_index_unique(s.drop_first(), p, k - 1);
    }
}

/// Placing a new entry at its insertion point keeps the series ordered.
pub proof fn lemma_insert_sorted_ordered(s: Seq<SeriesEntry>, e: SeriesEntry)
    requires
        ordered(s),
    ensures
        ordered(s.insert(insert_index(s, e.meta.position), e)),
{
    let p = e.meta.position;
    let k = insert_index(s, p);
    lemma_insert_index_props(s, p);
    s.insert_ensures(k, e);
    let s2 = s.insert(k, e);
    assert forall|i: int, j: int| 0 <= i < j < s2.len()
        implies pos_le(#[trigger] s2[i].meta.position, #[trigger] s2[j].meta.position) by {
        if i < k && j < k {
            assert(s2[i] == s[i] && s2[j] == s[j]);
        } else if i < k && j == k {
            // nothing before the insertion point is above p
            assert(s2[i] == s[i]);
            assert(!pos_above(s[i].meta.position, p));
        } else if i < k && j > k {
            assert(s2[i] == s[i] && s2[j] == s[j - 1]);
        } else if i == k && j > k {
            // the entry at the old index k is above p, and everything after
            // it is no smaller than it
            assert(s2[j] == s[j - 1]);
            assert(pos_above(s[k].meta.position, p));
            if k < j - 1 {
                assert(pos_le(s[k].meta.position, s[j - 1].meta.position));
            }
        } else {
            assert(i > k && j > k);
            assert(s2[i] == s[i - 1] && s2[j] == s[j - 1]);
        }
    }
}

/// Insertion never reorders the entries already present: two existing entries
/// keep their relative order in the new series. With
/// `lemma_missing_position_appends` this yields tie stability: entries whose
/// position is missing are appended in arrival order and never swapped later.
pub proof fn lemma_insert_keeps_relative_order(
    s: Seq<SeriesEntry>,
    k: int,
    e: SeriesEntry,
    i: int,
    j: int,
)
    requires
        0 <= k <= s.len(),
        0 <= i < j < s.len(),
    ensures
        ({
            let i2 = if i < k { i } else { i + 1 };
            let j2 = if j < k { j } else { j + 1 };
            i2 < j2 && s.insert(k, e)[i2] == s[i] && s.insert(k, e)[j2] == s[j]
        }),
{
    s.insert_ensures(k, e);
}

/// Scans for the placement of an entry with position `p`.
pub fn find_insert_index(entries: &Vec<SeriesEntry>, p: Option<i64>) -> (k: usize)
    ensures
        k as int == insert_index(entries@, p),
{
    let mut i: usize = 0;
    while i < entries.len()
        invariant
            i <= entries@.len(),
            forall|j: int| 0 <= j < i ==> !pos_above(#[trigger] entries@[j].meta.position, p),
        decreases entries@.len() - i,
    {
        let above = match (entries[i].meta.position, p) {
            (Some(y), Some(x)) => y > x,
            _ => false,
        };
        if above {
            proof {
                lemma_insert_index_unique(entries@, p, i as int);
            }
            return i;
        }
        i += 1;
    }
    proof {
        lemma_insert_index_unique(entries@, p, i as int);
    }
    i
}

/// Inserts `e` at its placement point, keeping the series ordered and the
/// existing entries in their relative order.
pub fn insert_sorted(entries: &mut Vec<SeriesEntry>, e: SeriesEntry)
    ensures
        final(entries)@ == old(entries)@.insert(insert_index(old(entries)@, e.meta.position), e),
        ordered(old(entries)@) ==> ordered(final(entries)@),
{
    proof {
        lemma_insert_index_props(old(entries)@, e.meta.position);
        if ordered(old(entries)@) {
            lemma_insert_sorted_ordered(old(entries)@, e);
        }
    }
    let k = find_insert_index(entries, e.meta.position);
    entries.insert(k, e);
}

} // verus!
