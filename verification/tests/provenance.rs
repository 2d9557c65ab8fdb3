use aegis::provenance::{ProvenanceSinkKind, ProvenanceSourceKind, ProvenanceTracker};

#[test]
fn propagates_and_overwrites_bounded_labels() {
    let mut tracker = ProvenanceTracker::default();
    tracker.source(
        ProvenanceSourceKind::Network,
        "response".to_string(),
        0x1000,
        16,
        "InternetReadFile".to_string(),
        1,
    );
    tracker.propagate(0x1000, 0x2000, 8);
    tracker.observe(
        0x2000,
        8,
        ProvenanceSinkKind::ProcessCommand,
        "cmd".to_string(),
        "WinExec".to_string(),
        2,
    );
    tracker.clear(0x2000, 8);
    tracker.observe(
        0x2000,
        8,
        ProvenanceSinkKind::NetworkRequest,
        "sink".to_string(),
        "send".to_string(),
        3,
    );
    let (sources, flows, stats) = tracker.finish();
    assert_eq!(sources.len(), 1);
    assert_eq!(flows.len(), 1);
    assert_eq!(flows[0].source_ids, vec!["source-0001"]);
    assert_eq!(stats.flow_count, 1);
}

#[test]
fn records_transformation_parents() {
    let mut tracker = ProvenanceTracker::default();
    tracker.source(
        ProvenanceSourceKind::Registry,
        "value".to_string(),
        0x1000,
        8,
        "RegQueryValueExA".to_string(),
        1,
    );
    tracker.derive(0x1000, 0x2000, 8, "decoded".to_string(), "decoder".to_string(), 2);
    let (sources, _, _) = tracker.finish();
    assert_eq!(sources[1].parent_ids, vec!["source-0001"]);
}

#[test]
fn labels_merge_sorted_and_partial_overwrites_split_ranges() {
    let mut tracker = ProvenanceTracker::default();
    tracker.source(ProvenanceSourceKind::Sample, "a".into(), 0x1000, 0x10, "x".into(), 1);
    tracker.source(ProvenanceSourceKind::Sample, "b".into(), 0x1008, 0x10, "x".into(), 2);
    assert_eq!(tracker.labels_for(0x1000, 0x20), vec!["source-0001", "source-0002"]);
    assert_eq!(tracker.labels_for(0x1000, 8), vec!["source-0001"]);
    tracker.clear(0x1004, 2);
    assert!(tracker.labels_for(0x1004, 2).is_empty());
    assert_eq!(tracker.labels_for(0x1006, 1), vec!["source-0001"]);
    tracker.observe(0x1000, 0x20, ProvenanceSinkKind::Persistence, "HKCU\\Run".into(), "RegSetValueExA".into(), 3);
    assert_eq!(
        tracker.flow_evidence(),
        vec!["source-0001 + source-0002 -> Persistence HKCU\\Run via RegSetValueExA".to_string()]
    );
    let (_, _, stats) = tracker.finish();
    assert_eq!(stats.source_count, 2);
    assert_eq!(stats.tracked_ranges, 3);
    assert!(!stats.truncated);
}

#[test]
fn empty_sources_are_ignored_and_wrapping_spans_truncate() {
    let mut tracker = ProvenanceTracker::default();
    assert_eq!(tracker.source(ProvenanceSourceKind::Sample, "z".into(), 0x10, 0, "x".into(), 1), None);
    tracker.clear(0xffff_fff0, 0x20);
    let (sources, _, stats) = tracker.finish();
    assert!(sources.is_empty());
    assert!(stats.truncated);
}

#[test]
fn a_new_source_replaces_earlier_labels_for_observers() {
    let mut tracker = ProvenanceTracker::default();
    tracker.source(ProvenanceSourceKind::Network, "first".to_string(), 0x1000, 32, "recv".to_string(), 1);
    let id = tracker.source(ProvenanceSourceKind::Network, "second".to_string(), 0x1008, 8, "recv".to_string(), 2);
    assert_eq!(id.as_deref(), Some("source-0002"));
    tracker.observe(0x100a, 2, ProvenanceSinkKind::ProcessCommand, "cmd".to_string(), "WinExec".to_string(), 3);
    let (_, flows, _) = tracker.finish();
    assert_eq!(flows.len(), 1);
    assert_eq!(flows[0].source_ids, vec!["source-0002"]);
}
