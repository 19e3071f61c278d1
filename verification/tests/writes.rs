use dicom_sort::aggregator::SeriesAggregator;
use dicom_sort::meta::DicomMeta;
use dicom_sort::paths::anonymized_name_of;
use dicom_sort::paths::file_name_part;
use dicom_sort::plan::anonymize_plan;
use dicom_sort::plan::relocate_plan;
use dicom_sort::plan::relocate_series_plan;
use dicom_sort::tags::default_anonymize_tags;
use dicom_sort::tags::Tag;

fn meta_with_fields(series: &str, sop: &str, fields: Vec<Tag>) -> DicomMeta {
    DicomMeta {
        series_uid: Some(series.to_string()),
        sop_uid: Some(sop.to_string()),
        position: None,
        fields,
    }
}

fn two_series() -> SeriesAggregator {
    let mut a = SeriesAggregator::new();
    a.ingest(
        meta_with_fields("S1", "sop-a", Vec::new()),
        "/scan/sub/a.dcm".to_string(),
    );
    a.ingest(
        meta_with_fields("S1", "sop-b", Vec::new()),
        "/scan/sub/b.dcm".to_string(),
    );
    a.ingest(
        meta_with_fields("S2", "sop-c", Vec::new()),
        "/scan/c.dcm".to_string(),
    );
    a
}

#[test]
fn relocate_plans_canonical_paths() {
    let a = two_series();
    let root = "/data".to_string();
    let jobs = relocate_series_plan(&a, &root, &"S1".to_string());
    assert_eq!(jobs.len(), 2);
    assert_eq!(jobs[0].series_id, "S1");
    assert_eq!(jobs[0].src_path, "/scan/sub/a.dcm");
    assert_eq!(jobs[0].dest_dir, "/data/processed/sorted/S1");
    assert_eq!(jobs[0].dest_path, "/data/processed/sorted/S1/a.dcm");
    assert_eq!(jobs[1].dest_path, "/data/processed/sorted/S1/b.dcm");
}

#[test]
fn relocate_unknown_series_is_noop() {
    let a = two_series();
    let jobs = relocate_series_plan(&a, &"/data".to_string(), &"S9".to_string());
    assert!(jobs.is_empty());
    // and before any scan at all
    let empty = SeriesAggregator::new();
    let jobs = relocate_plan(&empty, &"/data".to_string(), None);
    assert!(jobs.is_empty());
}

#[test]
fn relocate_all_covers_every_entry() {
    let a = two_series();
    let jobs = relocate_plan(&a, &"/data".to_string(), None);
    assert_eq!(jobs.len(), 3);
    let mut dests: Vec<String> = jobs.iter().map(|j| j.dest_path.clone()).collect();
    dests.sort();
    assert_eq!(
        dests,
        vec![
            "/data/processed/sorted/S1/a.dcm",
            "/data/processed/sorted/S1/b.dcm",
            "/data/processed/sorted/S2/c.dcm",
        ]
    );
}

#[test]
fn relocate_named_series_only() {
    let a = two_series();
    let jobs = relocate_plan(&a, &"/data".to_string(), Some(&"S2".to_string()));
    assert_eq!(jobs.len(), 1);
    assert_eq!(jobs[0].dest_path, "/data/processed/sorted/S2/c.dcm");
}

#[test]
fn relocate_twice_plans_same_file_set() {
    let a = two_series();
    let root = "/data".to_string();
    let first: Vec<String> = relocate_series_plan(&a, &root, &"S1".to_string())
        .iter()
        .map(|j| j.dest_path.clone())
        .collect();
    let second: Vec<String> = relocate_series_plan(&a, &root, &"S1".to_string())
        .iter()
        .map(|j| j.dest_path.clone())
        .collect();
    assert_eq!(first, second);
}

#[test]
fn anonymize_strips_fields_present_or_not() {
    // two objects of one series: one has a populated Patient's Name field,
    // the other never had it
    let patient_name = Tag { group: 0x0010, element: 0x0010 };
    let rows = Tag { group: 0x0028, element: 0x0010 };
    let mut a = SeriesAggregator::new();
    a.ingest(
        meta_with_fields("S1", "sop-a", vec![patient_name, rows]),
        "/scan/a.dcm".to_string(),
    );
    a.ingest(
        meta_with_fields("S1", "sop-b", vec![rows]),
        "/scan/b.dcm".to_string(),
    );
    let fields = default_anonymize_tags();
    let jobs = anonymize_plan(&a, &"/data".to_string(), &fields);
    assert_eq!(jobs.len(), 2);
    for j in &jobs {
        for t in &fields {
            assert!(!j.meta.fields.contains(t));
        }
        // a field outside the stripped set stays
        assert!(j.meta.fields.contains(&rows));
        assert_eq!(j.dest_dir, "/data/processed/anonymized/S1");
    }
    let mut dests: Vec<String> = jobs.iter().map(|j| j.dest_path.clone()).collect();
    dests.sort();
    assert_eq!(
        dests,
        vec![
            "/data/processed/anonymized/S1/a_anonymized.dcm",
            "/data/processed/anonymized/S1/b_anonymized.dcm",
        ]
    );
}

#[test]
fn relocate_and_anonymize_trees_are_disjoint() {
    let a = two_series();
    let root = "/data".to_string();
    let sorted: Vec<String> = relocate_plan(&a, &root, None)
        .iter()
        .map(|j| j.dest_path.clone())
        .collect();
    let anonymized: Vec<String> = anonymize_plan(&a, &root, &default_anonymize_tags())
        .iter()
        .map(|j| j.dest_path.clone())
        .collect();
    for p in &sorted {
        assert!(p.starts_with("/data/processed/sorted/"));
        assert!(!p.starts_with("/data/processed/anonymized/"));
        assert!(!anonymized.contains(p));
    }
    for p in &anonymized {
        assert!(p.starts_with("/data/processed/anonymized/"));
        assert!(!p.starts_with("/data/processed/sorted/"));
    }
}

#[test]
fn default_tag_set_is_the_fixed_list() {
    let tags = default_anonymize_tags();
    assert_eq!(tags.len(), 26);
    assert!(tags.contains(&Tag { group: 0x0008, element: 0x0018 })); // SOP Instance UID
    assert!(tags.contains(&Tag { group: 0x0010, element: 0x0010 })); // Patient's Name
    assert!(tags.contains(&Tag { group: 0x0010, element: 0x0030 })); // Patient's Birth Date
    assert!(tags.contains(&Tag { group: 0x0014, element: 1001 })); // vendor-specific
    assert_eq!(tags[0], Tag { group: 0x0008, element: 0x0014 });
    assert_eq!(tags[25], Tag { group: 0x0014, element: 1001 });
}

#[test]
fn file_names_split_as_documented() {
    assert_eq!(file_name_part(&"/scan/sub/a.dcm".to_string()), "a.dcm");
    assert_eq!(file_name_part(&"plain.dcm".to_string()), "plain.dcm");
    assert_eq!(file_name_part(&"/ends/with/".to_string()), "");
    assert_eq!(anonymized_name_of(&"a.dcm".to_string()), "a_anonymized.dcm");
    assert_eq!(anonymized_name_of(&"a.b.dcm".to_string()), "a.b_anonymized.dcm");
    assert_eq!(anonymized_name_of(&"noext".to_string()), "noext_anonymized");
    assert_eq!(anonymized_name_of(&".hidden".to_string()), ".hidden_anonymized");
}
