use dicom_sort::aggregator::IngestOutcome;
use dicom_sort::aggregator::SeriesAggregator;
use dicom_sort::meta::DicomMeta;
use dicom_sort::tags::Tag;

/// Order-preserving integer key for a spatial position, as the probe that
/// decodes a file would supply it.
fn pos_key(x: f64) -> i64 {
    let u = x.to_bits();
    let k = if u >> 63 == 1 { !u } else { u | 0x8000_0000_0000_0000 };
    (k ^ 0x8000_0000_0000_0000) as i64
}

fn meta(series: Option<&str>, sop: Option<&str>, pos: Option<f64>) -> DicomMeta {
    DicomMeta {
        series_uid: series.map(|s| s.to_string()),
        sop_uid: sop.map(|s| s.to_string()),
        position: pos.map(pos_key),
        fields: Vec::new(),
    }
}

#[test]
fn scan_orders_series_and_dedups() {
    // three valid objects of series S1 at positions 30.0, 10.0, 20.0, plus a
    // duplicate of the second one under a different path
    let mut a = SeriesAggregator::new();
    assert_eq!(
        a.ingest(meta(Some("S1"), Some("sop-a"), Some(30.0)), "/scan/a.dcm".to_string()),
        IngestOutcome::Added
    );
    assert_eq!(
        a.ingest(meta(Some("S1"), Some("sop-b"), Some(10.0)), "/scan/b.dcm".to_string()),
        IngestOutcome::Added
    );
    assert_eq!(
        a.ingest(meta(Some("S1"), Some("sop-c"), Some(20.0)), "/scan/c.dcm".to_string()),
        IngestOutcome::Added
    );
    assert_eq!(
        a.ingest(meta(Some("S1"), Some("sop-b"), Some(10.0)), "/other/b.dcm".to_string()),
        IngestOutcome::Duplicate
    );
    let entries = a.get(&"S1".to_string()).expect("series S1 must exist");
    assert_eq!(entries.len(), 3);
    let sops: Vec<String> = entries
        .iter()
        .map(|e| e.meta.sop_uid.clone().unwrap())
        .collect();
    assert_eq!(sops, vec!["sop-b", "sop-c", "sop-a"]);
    assert_eq!(
        entries[0].meta.position.unwrap(),
        pos_key(10.0)
    );
    assert_eq!(entries[1].meta.position.unwrap(), pos_key(20.0));
    assert_eq!(entries[2].meta.position.unwrap(), pos_key(30.0));
    assert_eq!(entries[0].path, "/scan/b.dcm");
}

#[test]
fn missing_series_id_creates_no_series() {
    let mut a = SeriesAggregator::new();
    let o = a.ingest(meta(None, Some("sop-a"), Some(1.0)), "/scan/x.dcm".to_string());
    assert_eq!(o, IngestOutcome::NoSeriesId);
    assert!(a.snapshot().is_empty());
    assert!(a.get(&"".to_string()).is_none());
    // the dropped object is absent from all results: a later object with the
    // same SOP identifier is not a duplicate
    let o2 = a.ingest(meta(Some("S1"), Some("sop-a"), Some(1.0)), "/scan/x.dcm".to_string());
    assert_eq!(o2, IngestOutcome::Added);
}

#[test]
fn missing_sop_id_drops_object() {
    let mut a = SeriesAggregator::new();
    let o = a.ingest(meta(Some("S1"), None, Some(1.0)), "/scan/x.dcm".to_string());
    assert_eq!(o, IngestOutcome::NoSopId);
    assert!(a.get(&"S1".to_string()).is_none());
    assert!(a.snapshot().is_empty());
}

#[test]
fn dedup_is_global_across_series() {
    let mut a = SeriesAggregator::new();
    assert_eq!(
        a.ingest(meta(Some("S1"), Some("sop-a"), Some(1.0)), "/p/1".to_string()),
        IngestOutcome::Added
    );
    assert_eq!(
        a.ingest(meta(Some("S2"), Some("sop-a"), Some(2.0)), "/p/2".to_string()),
        IngestOutcome::Duplicate
    );
    let total: usize = a.snapshot().iter().map(|(_, n)| n).sum();
    assert_eq!(total, 1);
    assert!(a.get(&"S2".to_string()).is_none());
}

#[test]
fn order_invariant_on_adjacent_pairs() {
    let mut a = SeriesAggregator::new();
    let positions = [7.5, -3.25, 0.0, 99.0, -3.25, 4.0];
    for (i, p) in positions.iter().enumerate() {
        a.ingest(
            meta(Some("S1"), Some(&format!("sop-{}", i)), Some(*p)),
            format!("/scan/{}.dcm", i),
        );
    }
    let entries = a.get(&"S1".to_string()).unwrap();
    assert_eq!(entries.len(), 6);
    for w in entries.windows(2) {
        assert!(w[0].meta.position.unwrap() <= w[1].meta.position.unwrap());
    }
}

#[test]
fn missing_positions_keep_insertion_order() {
    let mut a = SeriesAggregator::new();
    a.ingest(meta(Some("S1"), Some("u1"), None), "/p/u1".to_string());
    a.ingest(meta(Some("S1"), Some("k1"), Some(5.0)), "/p/k1".to_string());
    a.ingest(meta(Some("S1"), Some("u2"), None), "/p/u2".to_string());
    a.ingest(meta(Some("S1"), Some("k2"), Some(1.0)), "/p/k2".to_string());
    a.ingest(meta(Some("S1"), Some("u3"), None), "/p/u3".to_string());
    let entries = a.get(&"S1".to_string()).unwrap();
    let order: Vec<usize> = ["u1", "u2", "u3"]
        .iter()
        .map(|u| {
            entries
                .iter()
                .position(|e| e.meta.sop_uid.as_deref() == Some(*u))
                .unwrap()
        })
        .collect();
    assert!(order[0] < order[1] && order[1] < order[2]);
    // known positions still ascend around them
    let k2 = entries.iter().position(|e| e.meta.sop_uid.as_deref() == Some("k2")).unwrap();
    let k1 = entries.iter().position(|e| e.meta.sop_uid.as_deref() == Some("k1")).unwrap();
    assert!(k2 < k1);
}

#[test]
fn equal_positions_keep_insertion_order() {
    let mut a = SeriesAggregator::new();
    a.ingest(meta(Some("S1"), Some("t1"), Some(5.0)), "/p/t1".to_string());
    a.ingest(meta(Some("S1"), Some("t2"), Some(5.0)), "/p/t2".to_string());
    a.ingest(meta(Some("S1"), Some("t3"), Some(5.0)), "/p/t3".to_string());
    let entries = a.get(&"S1".to_string()).unwrap();
    let sops: Vec<&str> = entries.iter().map(|e| e.meta.sop_uid.as_deref().unwrap()).collect();
    assert_eq!(sops, vec!["t1", "t2", "t3"]);
}

#[test]
fn snapshot_reports_each_series_count() {
    let mut a = SeriesAggregator::new();
    a.ingest(meta(Some("S1"), Some("a"), Some(1.0)), "/p/a".to_string());
    a.ingest(meta(Some("S1"), Some("b"), Some(2.0)), "/p/b".to_string());
    a.ingest(meta(Some("S2"), Some("c"), None), "/p/c".to_string());
    let mut snap = a.snapshot();
    snap.sort();
    assert_eq!(snap, vec![("S1".to_string(), 2), ("S2".to_string(), 1)]);
    let mut ids = a.series_ids();
    ids.sort();
    assert_eq!(ids, vec!["S1".to_string(), "S2".to_string()]);
}

#[test]
fn entry_at_reports_one_image() {
    let mut a = SeriesAggregator::new();
    a.ingest(meta(Some("S1"), Some("a"), Some(2.0)), "/p/a".to_string());
    a.ingest(meta(Some("S1"), Some("b"), Some(1.0)), "/p/b".to_string());
    let e = a.entry_at(&"S1".to_string(), 0).unwrap();
    assert_eq!(e.meta.sop_uid.as_deref(), Some("b"));
    let e = a.entry_at(&"S1".to_string(), 1).unwrap();
    assert_eq!(e.meta.sop_uid.as_deref(), Some("a"));
    assert!(a.entry_at(&"S1".to_string(), 2).is_none());
    assert!(a.entry_at(&"S9".to_string(), 0).is_none());
}

#[test]
fn reset_discards_previous_run() {
    let mut a = SeriesAggregator::new();
    a.ingest(meta(Some("S1"), Some("a"), Some(1.0)), "/p/a".to_string());
    a.reset();
    assert!(a.snapshot().is_empty());
    assert!(a.get(&"S1".to_string()).is_none());
    // identifiers seen before the reset are forgotten with the rest
    let o = a.ingest(meta(Some("S1"), Some("a"), Some(1.0)), "/p/a".to_string());
    assert_eq!(o, IngestOutcome::Added);
}

#[test]
fn has_field_and_without_fields() {
    let patient_name = Tag { group: 0x0010, element: 0x0010 };
    let rows = Tag { group: 0x0028, element: 0x0010 };
    let m = DicomMeta {
        series_uid: Some("S1".to_string()),
        sop_uid: Some("sop".to_string()),
        position: None,
        fields: vec![patient_name, rows],
    };
    assert!(m.has_field(patient_name));
    assert!(m.has_field(rows));
    let stripped = m.without_fields(&vec![patient_name]);
    assert!(!stripped.has_field(patient_name));
    assert!(stripped.has_field(rows));
    // the source object keeps its full attributes
    assert!(m.has_field(patient_name));
    assert_eq!(stripped.series_uid.as_deref(), Some("S1"));
    assert_eq!(stripped.sop_uid.as_deref(), Some("sop"));
}
