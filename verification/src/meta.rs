//! The metadata model of one decoded DICOM object.

use vstd::prelude::*;
use crate::tags::Tag;
use crate::tags::tags_contain;

verus! {

/// The attributes of one decoded DICOM object that the pipeline reads.
///
/// The spatial position is carried as an order key: any integer encoding of
/// the third component of the image position vector that preserves its order
/// (the probe that decodes the file supplies it). Objects whose position is
/// missing or unparseable carry `None` and sort as ties. `fields` lists the
/// attribute tags present on the object among those an anonymizer may strip.
#[derive(Clone, Debug)]
pub struct DicomMeta {
    /// Series Instance Identifier: groups acquisitions, absent on many
    /// non-image DICOM files.
    pub series_uid: Option<String>,
    /// SOP Instance Identifier: uniquely identifies one image; the dedup key.
    pub sop_uid: Option<String>,
    /// Order key for the third component of the spatial position vector.
    pub position: Option<i64>,
    /// Strippable attribute tags present on the object.
    pub fields: Vec<Tag>,
}

impl DicomMeta {
    /// Whether the tag `t` is present on the object.
    pub fn has_field(&self, t: Tag) -> (r: bool)
        ensures
            r == self.fields@.contains(t),
    {
        tags_contain(&self.fields, t)
    }

    /// A copy of this object's metadata with every tag of `remove` stripped;
    /// the object itself is left untouched, so it stays ready for a later
    /// relocation with its full original attributes.
    pub fn without_fields(&self, remove: &Vec<Tag>) -> (r: DicomMeta)
        ensures
            r.series_uid == self.series_uid,
            r.sop_uid == self.sop_uid,
            r.position == self.position,
            r.fields@ == self.fields@.filter(|t: Tag| !remove@.contains(t)),
            forall|t: Tag| remove@.contains(t) ==> !r.fields@.contains(t),
            forall|t: Tag|
                !remove@.contains(t) ==> (r.fields@.contains(t) <==> self.fields@.contains(t)),
    {
        let mut kept: Vec<Tag> = Vec::new();
        let mut i: usize = 0;
        while i < self.fields.len()
            invariant
                i <= self.fields@.len(),
                kept@ == self.fields@.take(i as int).filter(|t: Tag| !remove@.contains(t)),
            decreases self.fields@.len() - i,
        {
            let t = self.fields[i];
            proof {
                reveal(Seq::filter);
                assert(self.fields@.take(i + 1).drop_last() =~= self.fields@.take(i as int));
                assert(self.fields@.take(i + 1).last() == self.fields@[i as int]);
            }
            if !tags_contain(remove, t) {
                kept.push(t);
            }
            i += 1;
        }
        proof {
            assert(self.fields@.take(self.fields@.len() as int) =~= self.fields@);
        }
        let r = DicomMeta {
            series_uid: clone_uid(&self.series_uid),
            sop_uid: clone_uid(&self.sop_uid),
            position: self.position,
            fields: kept,
        };
        proof {
            lemma_filter_drops_and_keeps(self.fields@, remove@);
        }
        r
    }
}

/// After filtering with `!remove.contains`, no removed tag remains and every
/// kept tag was present before.
proof fn lemma_filter_drops_and_keeps(fields: Seq<Tag>, remove: Seq<Tag>)
    ensures
        forall|t: Tag|
            remove.contains(t) ==> !fields.filter(|x: Tag| !remove.contains(x)).contains(t),
        forall|t: Tag|
            !remove.contains(t) ==> (fields.filter(|x: Tag| !remove.contains(x)).contains(t)
                <==> fields.contains(t)),
    decreases fields.len(),
{
    reveal(Seq::filter);
    if fields.len() > 0 {
        lemma_filter_drops_and_keeps(fields.drop_last(), remove);
        let filtered = fields.filter(|x: Tag| !remove.contains(x));
        let sub = fields.drop_last().filter(|x: Tag| !remove.contains(x));
        assert forall|t: Tag| #[trigger] filtered.contains(t) implies fields.contains(t)
            && !remove.contains(t) by {
            if sub.contains(t) {
                assert(fields.drop_last().contains(t));
                let k = choose|k: int| 0 <= k < fields.drop_last().len()
                    && fields.drop_last()[k] == t;
                assert(fields[k] == t);
            } else {
                assert(t == fields.last());
                assert(fields[fields.len() - 1] == t);
            }
        }
        assert forall|t: Tag| fields.contains(t) && !remove.contains(t)
            implies #[trigger] filtered.contains(t) by {
            let k = choose|k: int| 0 <= k < fields.len() && fields[k] == t;
            if k < fields.len() - 1 {
                assert(fields.drop_last()[k] == t);
                assert(fields.drop_last().contains(t));
                assert(sub.contains(t));
                let j = choose|j: int| 0 <= j < sub.len() && sub[j] == t;
                assert(filtered[j] == t);
            } else {
                assert(t == fields.last());
                assert(filtered[filtered.len() - 1] == t);
            }
        }
    }
}

/// A copy of an optional identifier string, equal to the original.
pub fn clone_uid(u: &Option<String>) -> (r: Option<String>)
    ensures
        r == *u,
{
    match u {
        Some(s) => Some(s.clone()),
        None => None,
    }
}

} // verus!
