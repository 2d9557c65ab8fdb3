use std::collections::{BTreeSet, VecDeque};

use aegis::code::{capability_features, file_offset, locate, push_edge, queue_block, DecodeBudget, StaticControlFlowEdge, MAX_EDGES, match_capabilities, CodeRegion, Feature, FeatureKind};
use aegis::core_model::{Confidence, ExtractedString, SymbolRecord};

fn feature(value: &str) -> Feature {
    Feature {
        kind: FeatureKind::Import,
        normalized: value.to_ascii_lowercase(),
        value: value.into(),
        address: None,
        file_offset: None,
    }
}

#[test]
fn correlates_process_injection_only_after_two_primitive_groups() {
    let one = vec![feature("OpenProcess")];
    assert!(match_capabilities(&one)
        .iter()
        .all(|item| item.id != "process-injection"));
    let two = vec![feature("OpenProcess"), feature("WriteProcessMemory")];
    assert!(match_capabilities(&two)
        .iter()
        .any(|item| item.id == "process-injection"));
}

#[test]
fn requires_module_load_and_export_lookup_for_dynamic_resolution() {
    let partial = vec![feature("GetProcAddress")];
    assert!(match_capabilities(&partial)
        .iter()
        .all(|item| item.id != "dynamic-api-resolution"));
    let complete = vec![feature("LoadLibraryA"), feature("GetProcAddress")];
    assert!(match_capabilities(&complete)
        .iter()
        .any(|item| item.id == "dynamic-api-resolution"));
}

#[test]
fn does_not_treat_generic_system_text_as_process_execution() {
    let mut text = feature("SYSTEMROOT");
    text.kind = FeatureKind::String;
    assert!(match_capabilities(&[text])
        .iter()
        .all(|item| item.id != "process-execution"));
}

#[test]
fn downgrades_string_only_high_confidence_rules() {
    let mut text = feature("powershell.exe");
    text.kind = FeatureKind::String;
    let matched = match_capabilities(&[text]);
    let process = matched
        .iter()
        .find(|item| item.id == "process-execution")
        .expect("process execution capability");
    assert_eq!(process.confidence, Confidence::Medium);
}

#[test]
fn matches_come_out_in_namespace_order_with_sorted_evidence() {
    let features = vec![
        feature("VirtualProtect"),
        feature("IsDebuggerPresent"),
        feature("WinExec"),
        feature("CreateProcessW"),
    ];
    let matched = match_capabilities(&features);
    let ids: Vec<&str> = matched.iter().map(|m| m.id.as_str()).collect();
    assert_eq!(ids, vec!["anti-analysis", "process-execution", "memory-protection"]);
    let process = &matched[1];
    assert_eq!(process.confidence, Confidence::High);
    let values: Vec<&str> = process.evidence.iter().map(|e| e.value.as_str()).collect();
    assert_eq!(values, vec!["CreateProcessW", "WinExec"]);
    assert_eq!(process.evidence[0].kind, "import");
}

#[test]
fn exact_selectors_do_not_match_substrings() {
    let matched = match_capabilities(&[feature("systeminfo")]);
    assert!(matched.iter().all(|item| item.id != "process-execution"));
    let matched = match_capabilities(&[feature("system")]);
    assert!(matched.iter().any(|item| item.id == "process-execution"));
}

#[test]
fn evidence_is_deduplicated_and_bounded() {
    let mut features = Vec::new();
    for index in 0..40u64 {
        let mut f = feature("CreateFileW");
        f.address = Some(index % 20);
        features.push(f);
    }
    let matched = match_capabilities(&features);
    let files = matched
        .iter()
        .find(|item| item.id == "file-manipulation")
        .expect("file capability");
    assert_eq!(files.evidence.len(), 16);
    assert_eq!(files.evidence[0].address, Some(0));
    assert_eq!(files.evidence[1].address, Some(1));
}

#[test]
fn features_list_imports_then_strings_then_instructions() {
    let imports = vec![
        SymbolRecord { name: "VirtualAlloc".into(), module: Some("KERNEL32.dll".into()), address: Some(0x4010), kind: "import".into() },
        SymbolRecord { name: "Sleep".into(), module: None, address: None, kind: "import".into() },
    ];
    let strings = vec![ExtractedString { offset: 7, encoding: "ascii".into(), value: "HTTP://Example".into() }];
    let instructions = vec![Feature {
        kind: FeatureKind::Instruction,
        normalized: "rdtsc".into(),
        value: "rdtsc".into(),
        address: Some(0x1000),
        file_offset: Some(0x400),
    }];
    let features = capability_features(&imports, &strings, &instructions);
    assert_eq!(features.len(), 4);
    assert_eq!(features[0].kind, FeatureKind::Import);
    assert_eq!(features[0].normalized, "virtualalloc");
    assert_eq!(features[0].value, "KERNEL32.dll!VirtualAlloc");
    assert_eq!(features[0].address, Some(0x4010));
    assert_eq!(features[1].value, "Sleep");
    assert_eq!(features[2].kind, FeatureKind::String);
    assert_eq!(features[2].normalized, "http://example");
    assert_eq!(features[2].file_offset, Some(7));
    assert_eq!(features[3].value, "rdtsc");
    assert_eq!(features[3].file_offset, Some(0x400));
    let long = "A".repeat(300);
    let bounded = capability_features(&[], &[ExtractedString { offset: 0, encoding: "ascii".into(), value: long }], &[]);
    assert_eq!(bounded[0].value.len(), 240);
}

#[test]
fn addresses_map_to_the_first_covering_region() {
    let text = [0x90u8; 16];
    let data = [0u8; 8];
    let regions = vec![
        CodeRegion { file_offset: 0x400, address: 0x1000, bytes: &text },
        CodeRegion { file_offset: 0x800, address: 0x2000, bytes: &data },
    ];
    let (region, offset) = locate(&regions, 0x100f).unwrap();
    assert_eq!((region.address, offset), (0x1000, 15));
    assert!(locate(&regions, 0x1010).is_none());
    assert!(locate(&regions, 0x0fff).is_none());
    assert_eq!(file_offset(&regions, 0x2003), Some(0x803));
    assert_eq!(file_offset(&regions, 0x1000), Some(0x400));
    assert_eq!(file_offset(&regions, 0x3000), None);
}

#[test]
fn edges_stop_at_the_budget_and_mark_truncation() {
    let mut edges = Vec::new();
    let mut budget = DecodeBudget { instructions: 3, blocks: 1, edges: 0, truncated: false };
    push_edge(&mut edges, &mut budget, StaticControlFlowEdge { from: 1, to: 2, kind: "jump".into() });
    assert_eq!(edges.len(), 1);
    assert_eq!(budget, DecodeBudget { instructions: 3, blocks: 1, edges: 1, truncated: false });
    budget.edges = MAX_EDGES;
    push_edge(&mut edges, &mut budget, StaticControlFlowEdge { from: 2, to: 3, kind: "jump".into() });
    assert_eq!(edges.len(), 1);
    assert!(budget.truncated);
    assert_eq!(budget.edges, MAX_EDGES);
}

#[test]
fn blocks_are_queued_once() {
    let mut pending = VecDeque::new();
    let mut pending_set = BTreeSet::new();
    let visited: BTreeSet<u64> = [0x10u64].into_iter().collect();
    queue_block(0x20, &mut pending, &mut pending_set, &visited);
    queue_block(0x20, &mut pending, &mut pending_set, &visited);
    queue_block(0x10, &mut pending, &mut pending_set, &visited);
    queue_block(0x30, &mut pending, &mut pending_set, &visited);
    assert_eq!(pending.into_iter().collect::<Vec<u64>>(), vec![0x20, 0x30]);
    assert_eq!(pending_set.len(), 2);
}
