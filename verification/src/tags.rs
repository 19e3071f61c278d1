//! DICOM attribute tags and the default de-identification set.

use vstd::prelude::*;

verus! {

/// One DICOM attribute tag: a (group, element) pair.
#[derive(Clone, Copy, PartialEq, Eq, Structural, Debug)]
pub struct Tag {
    pub group: u16,
    pub element: u16,
}

/// The fixed default set of attribute tags that the anonymizer strips:
/// instance/accession/institution identifiers, provider names and contact
/// fields, patient identity fields, free-text study and series descriptions,
/// and one vendor-specific custom tag.
pub open spec fn spec_default_anonymize_tags() -> Seq<Tag> {
    seq![
        Tag { group: 0x0008, element: 0x0014 },  // Instance Creator UID
        Tag { group: 0x0008, element: 0x0018 },  // SOP Instance UID
        Tag { group: 0x0008, element: 0x0050 },  // Accession Number
        Tag { group: 0x0008, element: 0x0080 },  // Institution Name
        Tag { group: 0x0008, element: 0x0081 },  // Institution Address
        Tag { group: 0x0008, element: 0x0090 },  // Referring Physician's Name
        Tag { group: 0x0008, element: 0x0092 },  // Referring Physician's Address
        Tag { group: 0x0008, element: 0x0094 },  // Referring Physician's Telephone Numbers
        Tag { group: 0x0008, element: 0x1010 },  // Station Name
        Tag { group: 0x0008, element: 0x1030 },  // Study Description
        Tag { group: 0x0008, element: 0x103E },  // Series Description
        Tag { group: 0x0008, element: 0x1040 },  // Institutional Department Name
        Tag { group: 0x0008, element: 0x1048 },  // Physician(s) of Record
        Tag { group: 0x0008, element: 0x1050 },  // Performing Physicians' Name
        Tag { group: 0x0008, element: 0x1060 },  // Name of Physician(s) Reading Study
        Tag { group: 0x0008, element: 0x1070 },  // Operators' Name
        Tag { group: 0x0008, element: 0x1080 },  // Admitting Diagnoses Description
        Tag { group: 0x0008, element: 0x1155 },  // Referenced SOP Instance UID
        Tag { group: 0x0008, element: 0x2111 },  // Derivation Description
        Tag { group: 0x0010, element: 0x0010 },  // Patient's Name
        Tag { group: 0x0010, element: 0x0020 },  // Patient ID
        Tag { group: 0x0010, element: 0x0030 },  // Patient's Birth Date
        Tag { group: 0x0010, element: 0x0032 },  // Patient's Birth Time
        Tag { group: 0x0010, element: 0x0040 },  // Patient's Sex
        Tag { group: 0x0010, element: 0x1010 },  // Patient's Age
        Tag { group: 0x0014, element: 1001 },    // vendor-specific custom tag
    ]
}

/// Builds the default de-identification tag set.
pub fn default_anonymize_tags() -> (v: Vec<Tag>)
    ensures
        v@ == spec_default_anonymize_tags(),
{
    let mut v: Vec<Tag> = Vec::new();
    v.push(Tag { group: 0x0008, element: 0x0014 });
    v.push(Tag { group: 0x0008, element: 0x0018 });
    v.push(Tag { group: 0x0008, element: 0x0050 });
    v.push(Tag { group: 0x0008, element: 0x0080 });
    v.push(Tag { group: 0x0008, element: 0x0081 });
    v.push(Tag { group: 0x0008, element: 0x0090 });
    v.push(Tag { group: 0x0008, element: 0x0092 });
    v.push(Tag { group: 0x0008, element: 0x0094 });
    v.push(Tag { group: 0x0008, element: 0x1010 });
    v.push(Tag { group: 0x0008, element: 0x1030 });
    v.push(Tag { group: 0x0008, element: 0x103E });
    v.push(Tag { group: 0x0008, element: 0x1040 });
    v.push(Tag { group: 0x0008, element: 0x1048 });
    v.push(Tag { group: 0x0008, element: 0x1050 });
    v.push(Tag { group: 0x0008, element: 0x1060 });
    v.push(Tag { group: 0x0008, element: 0x1070 });
    v.push(Tag { group: 0x0008, element: 0x1080 });
    v.push(Tag { group: 0x0008, element: 0x1155 });
    v.push(Tag { group: 0x0008, element: 0x2111 });
    v.push(Tag { group: 0x0010, element: 0x0010 });
    v.push(Tag { group: 0x0010, element: 0x0020 });
    v.push(Tag { group: 0x0010, element: 0x0030 });
    v.push(Tag { group: 0x0010, element: 0x0032 });
    v.push(Tag { group: 0x0010, element: 0x0040 });
    v.push(Tag { group: 0x0010, element: 0x1010 });
    v.push(Tag { group: 0x0014, element: 1001 });
    proof {
        assert(v@ =~= spec_default_anonymize_tags());
    }
    v
}

/// Whether the tag list contains `t`.
pub fn tags_contain(v: &Vec<Tag>, t: Tag) -> (r: bool)
    ensures
        r == v@.contains(t),
{
    let mut i: usize = 0;
    while i < v.len()
        invariant
            i <= v@.len(),
            forall|j: int| 0 <= j < i ==> v@[j] != t,
        decreases v@.len() - i,
    {
        if v[i] == t {
            assert(v@.contains(t)) by {
                assert(v@[i as int] == t);
            }
            return true;
        }
        i += 1;
    }
    false
}

} // verus!
