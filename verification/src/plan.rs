//! Write planning for the two transforms.
//!
//! The relocator and the anonymizer consume a snapshot of the aggregator and
//! plan one write per stored entry; an I/O driver then creates each job's
//! destination directory (idempotently) and performs the writes, in any
//! order and concurrently if it likes, since every job names its own
//! destination file. The plans are pure functions of the aggregator state:
//! planning changes nothing, so running a transform twice plans the same
//! writes — the driver overwrites rather than duplicates. An unknown series
//! identifier, or a run before any scan, yields an empty plan.

use vstd::prelude::*;
use crate::tags::Tag;
use crate::meta::DicomMeta;
use crate::order::SeriesEntry;
use crate::aggregator::SeriesAggregator;
use crate::aggregator::entries_or_empty;
use crate::paths::series_sorted_dir;
use crate::paths::series_anonymized_dir;
use crate::paths::relocate_dest;
use crate::paths::anonymize_dest;
use crate::paths::build_sorted_dir;
use crate::paths::build_anonymized_dir;
use crate::paths::build_relocate_dest;
use crate::paths::build_anonymize_dest;

verus! {

/// One planned relocation write: copy the object read from `src_path`,
/// with all its original attributes, to `dest_path` under `dest_dir`.
pub struct RelocateJob {
    pub series_id: String,
    pub src_path: String,
    pub dest_dir: String,
    pub dest_path: String,
}

/// One planned de-identified write: strip the field set from the object
/// read from `src_path` and write the copy to `dest_path` under `dest_dir`.
/// `meta` is the metadata model of the written copy.
pub struct AnonymizeJob {
    pub series_id: String,
    pub src_path: String,
    pub dest_dir: String,
    pub dest_path: String,
    pub meta: DicomMeta,
}

/// The relocation job planned for entry `e` of series `sid`.
pub open spec fn relocate_job_ok(
    j: RelocateJob,
    root: Seq<char>,
    sid: Seq<char>,
    e: SeriesEntry,
) -> bool {
    &&& j.series_id@ == sid
    &&& j.src_path@ == e.path@
    &&& j.dest_dir@ == series_sorted_dir(root, sid)
    &&& j.dest_path@ == relocate_dest(root, sid, e.path@)
}

/// One job per entry, in the series' stored order.
pub open spec fn relocate_series_ok(
    jobs: Seq<RelocateJob>,
    root: Seq<char>,
    sid: Seq<char>,
    entries: Seq<SeriesEntry>,
) -> bool {
    &&& jobs.len() == entries.len()
    &&& forall|i: int|
        0 <= i < entries.len() ==> relocate_job_ok(#[trigger] jobs[i], root, sid, entries[i])
}

/// `jobs` is the concatenation, in the order of `ks`, of each listed
/// series' job block.
pub open spec fn relocate_grouped_ok(
    m: Map<Seq<char>, Seq<SeriesEntry>>,
    root: Seq<char>,
    ks: Seq<Seq<char>>,
    jobs: Seq<RelocateJob>,
) -> bool
    decreases ks.len(),
{
    if ks.len() == 0 {
        jobs.len() == 0
    } else {
        let entries = entries_or_empty(m, ks[0]);
        &&& entries.len() <= jobs.len()
        &&& relocate_series_ok(jobs.subrange(0, entries.len() as int), root, ks[0], entries)
        &&& relocate_grouped_ok(m, root, ks.drop_first(), jobs.skip(entries.len() as int))
    }
}

/// The anonymization job planned for entry `e` of series `sid`, stripping
/// the tag set `fields`: the written copy carries none of the stripped
/// fields — whether or not the source had them — and keeps every other
/// field exactly as the source had it.
pub open spec fn anonymize_job_ok(
    j: AnonymizeJob,
    root: Seq<char>,
    sid: Seq<char>,
    e: SeriesEntry,
    fields: Seq<Tag>,
) -> bool {
    &&& j.series_id@ == sid
    &&& j.src_path@ == e.path@
    &&& j.dest_dir@ == series_anonymized_dir(root, sid)
    &&& j.dest_path@ == anonymize_dest(root, sid, e.path@)
    &&& j.meta.series_uid == e.meta.series_uid
    &&& j.meta.sop_uid == e.meta.sop_uid
    &&& j.meta.position == e.meta.position
    &&& j.meta.fields@ == e.meta.fields@.filter(|t: Tag| !fields.contains(t))
    &&& forall|t: Tag| fields.contains(t) ==> !j.meta.fields@.contains(t)
    &&& forall|t: Tag|
        !fields.contains(t) ==> (j.meta.fields@.contains(t) <==> e.meta.fields@.contains(t))
}

/// One job per entry, in the series' stored order.
pub open spec fn anonymize_series_ok(
    jobs: Seq<AnonymizeJob>,
    root: Seq<char>,
    sid: Seq<char>,
    entries: Seq<SeriesEntry>,
    fields: Seq<Tag>,
) -> bool {
    &&& jobs.len() == entries.len()
    &&& forall|i: int|
        0 <= i < entries.len() ==> anonymize_job_ok(
            #[trigger] jobs[i],
            root,
            sid,
            entries[i],
            fields,
        )
}

/// `jobs` is the concatenation, in the order of `ks`, of each listed
/// series' job block.
pub open spec fn anonymize_grouped_ok(
    m: Map<Seq<char>, Seq<SeriesEntry>>,
    root: Seq<char>,
    ks: Seq<Seq<char>>,
    jobs: Seq<AnonymizeJob>,
    fields: Seq<Tag>,
) -> bool
    decreases ks.len(),
{
    if ks.len() == 0 {
        jobs.len() == 0
    } else {
        let entries = entries_or_empty(m, ks[0]);
        &&& entries.len() <= jobs.len()
        &&& anonymize_series_ok(
            jobs.subrange(0, entries.len() as int),
            root,
            ks[0],
            entries,
            fields,
        )
        &&& anonymize_grouped_ok(m, root, ks.drop_first(), jobs.skip(entries.len() as int), fields)
    }
}

proof fn lemma_relocate_grouped_push(
    m: Map<Seq<char>, Seq<SeriesEntry>>,
    root: Seq<char>,
    ks: Seq<Seq<char>>,
    jobs: Seq<RelocateJob>,
    sid: Seq<char>,
    seg: Seq<RelocateJob>,
)
    requires
        relocate_grouped_ok(m, root, ks, jobs),
        relocate_series_ok(seg, root, sid, entries_or_empty(m, sid)),
    ensures
        relocate_grouped_ok(m, root, ks.push(sid), jobs + seg),
    decreases ks.len(),
{
    let n = entries_or_empty(m, sid).len() as int;
    if ks.len() == 0 {
        assert(jobs + seg =~= seg);
        assert(ks.push(sid)[0] == sid);
        assert(seg.subrange(0, n) =~= seg);
        assert(ks.push(sid).drop_first() =~= Seq::<Seq<char>>::empty());
        assert(seg.skip(n) =~= Seq::<RelocateJob>::empty());
        assert(relocate_grouped_ok(
            m,
            root,
            Seq::<Seq<char>>::empty(),
            Seq::<RelocateJob>::empty(),
        ));
    } else {
        let n0 = entries_or_empty(m, ks[0]).len() as int;
        lemma_relocate_grouped_push(m, root, ks.drop_first(), jobs.skip(n0), sid, seg);
        assert(ks.push(sid)[0] == ks[0]);
        assert((jobs + seg).subrange(0, n0) =~= jobs.subrange(0, n0));
        assert(ks.push(sid).drop_first() =~= ks.drop_first().push(sid));
        assert((jobs + seg).skip(n0) =~= jobs.skip(n0) + seg);
    }
}

proof fn lemma_anonymize_grouped_push(
    m: Map<Seq<char>, Seq<SeriesEntry>>,
    root: Seq<char>,
    ks: Seq<Seq<char>>,
    jobs: Seq<AnonymizeJob>,
    sid: Seq<char>,
    seg: Seq<AnonymizeJob>,
    fields: Seq<Tag>,
)
    requires
        anonymize_grouped_ok(m, root, ks, jobs, fields),
        anonymize_series_ok(seg, root, sid, entries_or_empty(m, sid), fields),
    ensures
        anonymize_grouped_ok(m, root, ks.push(sid), jobs + seg, fields),
    decreases ks.len(),
{
    let n = entries_or_empty(m, sid).len() as int;
    if ks.len() == 0 {
        assert(jobs + seg =~= seg);
        assert(ks.push(sid)[0] == sid);
        assert(seg.subrange(0, n) =~= seg);
        assert(ks.push(sid).drop_first() =~= Seq::<Seq<char>>::empty());
        assert(seg.skip(n) =~= Seq::<AnonymizeJob>::empty());
        assert(anonymize_grouped_ok(
            m,
            root,
            Seq::<Seq<char>>::empty(),
            Seq::<AnonymizeJob>::empty(),
            fields,
        ));
    } else {
        let n0 = entries_or_empty(m, ks[0]).len() as int;
        lemma_anonymize_grouped_push(m, root, ks.drop_first(), jobs.skip(n0), sid, seg, fields);
        assert(ks.push(sid)[0] == ks[0]);
        assert((jobs + seg).subrange(0, n0) =~= jobs.subrange(0, n0));
        assert(ks.push(sid).drop_first() =~= ks.drop_first().push(sid));
        assert((jobs + seg).skip(n0) =~= jobs.skip(n0) + seg);
    }
}

/// Plans one series' relocation jobs, in stored order.
fn relocate_jobs_for(root: &String, sid: &String, entries: &Vec<SeriesEntry>) -> (r: Vec<
    RelocateJob,
>)
    ensures
        relocate_series_ok(r@, root@, sid@, entries@),
{
    let mut r: Vec<RelocateJob> = Vec::new();
    let mut i: usize = 0;
    while i < entries.len()
        invariant
            i <= entries@.len(),
            r@.len() == i,
            forall|x: int|
                0 <= x < i ==> relocate_job_ok(#[trigger] r@[x], root@, sid@, entries@[x]),
        decreases entries@.len() - i,
    {
        let dest_dir = build_sorted_dir(root, sid);
        let dest_path = build_relocate_dest(root, sid, &entries[i].path);
        r.push(
            RelocateJob {
                series_id: sid.clone(),
                src_path: entries[i].path.clone(),
                dest_dir,
                dest_path,
            },
        );
        i += 1;
    }
    r
}

/// Plans one series' anonymization jobs, in stored order.
fn anonymize_jobs_for(
    root: &String,
    sid: &String,
    entries: &Vec<SeriesEntry>,
    fields: &Vec<Tag>,
) -> (r: Vec<AnonymizeJob>)
    ensures
        anonymize_series_ok(r@, root@, sid@, entries@, fields@),
{
    let mut r: Vec<AnonymizeJob> = Vec::new();
    let mut i: usize = 0;
    while i < entries.len()
        invariant
            i <= entries@.len(),
            r@.len() == i,
            forall|x: int|
                0 <= x < i ==> anonymize_job_ok(#[trigger] r@[x], root@, sid@, entries@[x], fields@),
        decreases entries@.len() - i,
    {
        let dest_dir = build_anonymized_dir(root, sid);
        let dest_path = build_anonymize_dest(root, sid, &entries[i].path);
        let meta = entries[i].meta.without_fields(fields);
        r.push(
            AnonymizeJob {
                series_id: sid.clone(),
                src_path: entries[i].path.clone(),
                dest_dir,
                dest_path,
                meta,
            },
        );
        i += 1;
    }
    r
}

/// Plans the relocation of one series. An unknown series identifier plans
/// nothing.
pub fn relocate_series_plan(agg: &SeriesAggregator, root: &String, series_id: &String) -> (r: Vec<
    RelocateJob,
>)
    requires
        agg.wf(),
    ensures
        agg.series().dom().contains(series_id@) ==> relocate_series_ok(
            r@,
            root@,
            series_id@,
            agg.series()[series_id@],
        ),
        !agg.series().dom().contains(series_id@) ==> r@.len() == 0,
{
    match agg.get(series_id) {
        Some(entries) => relocate_jobs_for(root, series_id, &entries),
        None => Vec::new(),
    }
}

/// Plans the relocation of every known series: one job block per series.
pub fn relocate_all_plan(agg: &SeriesAggregator, root: &String) -> (r: Vec<RelocateJob>)
    requires
        agg.wf(),
    ensures
        (exists|ks: Seq<Seq<char>>|
            ks.no_duplicates() && ks.to_set() == agg.series().dom() && relocate_grouped_ok(
                agg.series(),
                root@,
                ks,
                r@,
            )),
{
    let keys = agg.series_ids();
    let ghost key_views = keys@.map_values(|k: String| k@);
    let mut r: Vec<RelocateJob> = Vec::new();
    let mut i: usize = 0;
    while i < keys.len()
        invariant
            i <= keys@.len(),
            agg.wf(),
            keys@.map_values(|k: String| k@) == key_views,
            key_views.to_set() == agg.series().dom(),
            key_views.no_duplicates(),
            relocate_grouped_ok(agg.series(), root@, key_views.take(i as int), r@),
        decreases keys@.len() - i,
    {
        proof {
            assert(key_views[i as int] == keys@[i as int]@);
            assert(key_views.to_set().contains(key_views[i as int]));
        }
        let entries = match agg.get(&keys[i]) {
            Some(v) => v,
            None => {
                proof {
                    assert(false);
                }
                Vec::new()
            },
        };
        let mut seg = relocate_jobs_for(root, &keys[i], &entries);
        let ghost pre_jobs = r@;
        r.append(&mut seg);
        proof {
            lemma_relocate_grouped_push(
                agg.series(),
                root@,
                key_views.take(i as int),
                pre_jobs,
                key_views[i as int],
                r@.skip(pre_jobs.len() as int),
            );
            assert(key_views.take(i as int).push(key_views[i as int]) =~= key_views.take(
                i as int + 1,
            ));
            assert(pre_jobs + r@.skip(pre_jobs.len() as int) =~= r@);
        }
        i += 1;
    }
    proof {
        assert(key_views.take(keys@.len() as int) =~= key_views);
    }
    r
}

/// Plans a relocation: of the one named series, or of every known series
/// when none is named.
pub fn relocate_plan(agg: &SeriesAggregator, root: &String, target: Option<&String>) -> (r: Vec<
    RelocateJob,
>)
    requires
        agg.wf(),
    ensures
        (match target {
            Some(sid) => (agg.series().dom().contains(sid@) ==> relocate_series_ok(
                r@,
                root@,
                sid@,
                agg.series()[sid@],
            )) && (!agg.series().dom().contains(sid@) ==> r@.len() == 0),
            None => exists|ks: Seq<Seq<char>>|
                ks.no_duplicates() && ks.to_set() == agg.series().dom() && relocate_grouped_ok(
                    agg.series(),
                    root@,
                    ks,
                    r@,
                ),
        }),
{
    match target {
        Some(sid) => relocate_series_plan(agg, root, sid),
        None => relocate_all_plan(agg, root),
    }
}

/// Plans the anonymization of every known series with the given field set:
/// one job block per series, one de-identified copy per entry.
pub fn anonymize_plan(agg: &SeriesAggregator, root: &String, fields: &Vec<Tag>) -> (r: Vec<
    AnonymizeJob,
>)
    requires
        agg.wf(),
    ensures
        (exists|ks: Seq<Seq<char>>|
            ks.no_duplicates() && ks.to_set() == agg.series().dom() && anonymize_grouped_ok(
                agg.series(),
                root@,
                ks,
                r@,
                fields@,
            )),
        forall|x: int, t: Tag|
            0 <= x < r@.len() && fields@.contains(t) ==> !(#[trigger] r@[x].meta.fields@.contains(
                t,
            )),
{
    let keys = agg.series_ids();
    let ghost key_views = keys@.map_values(|k: String| k@);
    let mut r: Vec<AnonymizeJob> = Vec::new();
    let mut i: usize = 0;
    while i < keys.len()
        invariant
            i <= keys@.len(),
            agg.wf(),
            keys@.map_values(|k: String| k@) == key_views,
            key_views.to_set() == agg.series().dom(),
            key_views.no_duplicates(),
            anonymize_grouped_ok(agg.series(), root@, key_views.take(i as int), r@, fields@),
            forall|x: int, t: Tag|
                0 <= x < r@.len() && fields@.contains(t) ==> !(
                #[trigger] r@[x].meta.fields@.contains(t)),
        decreases keys@.len() - i,
    {
        proof {
            assert(key_views[i as int] == keys@[i as int]@);
            assert(key_views.to_set().contains(key_views[i as int]));
        }
        let entries = match agg.get(&keys[i]) {
            Some(v) => v,
            None => {
                proof {
                    assert(false);
                }
                Vec::new()
            },
        };
        let mut seg = anonymize_jobs_for(root, &keys[i], &entries, fields);
        let ghost pre_jobs = r@;
        r.append(&mut seg);
        proof {
            lemma_anonymize_grouped_push(
                agg.series(),
                root@,
                key_views.take(i as int),
                pre_jobs,
                key_views[i as int],
                r@.skip(pre_jobs.len() as int),
                fields@,
            );
            assert(key_views.take(i as int).push(key_views[i as int]) =~= key_views.take(
                i as int + 1,
            ));
            assert(pre_jobs + r@.skip(pre_jobs.len() as int) =~= r@);
        }
        i += 1;
    }
    proof {
        assert(key_views.take(keys@.len() as int) =~= key_views);
    }
    r
}

/// Idempotence of relocation: the plan is a pure function of the aggregator
/// state, so two runs for the same series plan writes to exactly the same
/// directories and files — the second run overwrites instead of
/// duplicating.
pub proof fn lemma_relocate_rerun_same(
    jobs1: Seq<RelocateJob>,
    jobs2: Seq<RelocateJob>,
    root: Seq<char>,
    sid: Seq<char>,
    entries: Seq<SeriesEntry>,
)
    requires
        relocate_series_ok(jobs1, root, sid, entries),
        relocate_series_ok(jobs2, root, sid, entries),
    ensures
        jobs1.len() == jobs2.len(),
        forall|i: int|
            0 <= i < jobs1.len() ==> (#[trigger] jobs1[i]).dest_dir@ == jobs2[i].dest_dir@
                && jobs1[i].dest_path@ == jobs2[i].dest_path@
                && jobs1[i].src_path@ == jobs2[i].src_path@,
{
}

} // verus!
