use aegis::generation::{GenerationObservation, GenerationTracker, MAX_GENERATIONS};

fn observation(id: &str, executed: bool) -> GenerationObservation {
    GenerationObservation {
        artifact_id: id.into(),
        region_base: 0x1000,
        size: 4096,
        instruction: 10,
        virtual_time_ms: 20,
        trigger: "test".into(),
        permissions: "r-x".into(),
        executed,
        entry_point_overwrite: false,
        executable_heap: true,
    }
}

#[test]
fn links_distinct_region_versions_and_merges_repeated_observations() {
    let mut tracker = GenerationTracker::default();
    tracker.observe(observation(&"a".repeat(64), false));
    tracker.observe(observation(&"a".repeat(64), true));
    tracker.observe(observation(&"b".repeat(64), true));
    let (generations, stats) = tracker.finish();
    assert_eq!(generations.len(), 2);
    assert!(generations[0].executed);
    assert_eq!(
        generations[1].parent_id.as_deref(),
        Some(generations[0].id.as_str())
    );
    assert_eq!(stats.chains, 1);
}

#[test]
fn generation_ids_carry_sequence_and_artifact_prefix() {
    let mut tracker = GenerationTracker::default();
    tracker.observe(observation("0123456789abcdef", false));
    let (generations, stats) = tracker.finish();
    assert_eq!(generations[0].id, "generation-0000-0123456789ab");
    assert_eq!(stats.count, 1);
    assert_eq!(stats.executed_generations, 0);
    assert!(!stats.truncated);
}

#[test]
fn generations_stop_at_the_limit() {
    let mut tracker = GenerationTracker::default();
    for index in 0..(MAX_GENERATIONS + 3) {
        let mut o = observation(&format!("{index:064}"), false);
        o.region_base = index as u32;
        tracker.observe(o);
    }
    let (generations, stats) = tracker.finish();
    assert_eq!(generations.len(), MAX_GENERATIONS);
    assert!(stats.truncated);
    assert_eq!(stats.chains, MAX_GENERATIONS);
}
