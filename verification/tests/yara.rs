use aegis::yara_model::{
    sanitize_name, sanitize_namespace, severity_from_metadata, YaraError, YaraScanOptions, MAX_MATCHES_PER_PATTERN,
    MAX_REPORTED_MATCHES,
};

#[test]
fn scan_options_are_held_to_limits() {
    let d = YaraScanOptions::default();
    assert_eq!(d.max_matches_per_pattern, MAX_MATCHES_PER_PATTERN);
    assert_eq!(d.max_reported_matches, MAX_REPORTED_MATCHES);
    let b = YaraScanOptions { max_matches_per_pattern: 0, max_reported_matches: 1_000_000 }.bounded();
    assert_eq!(b.max_matches_per_pattern, 1);
    assert_eq!(b.max_reported_matches, MAX_REPORTED_MATCHES);
    let kept = YaraScanOptions { max_matches_per_pattern: 7, max_reported_matches: 9 }.bounded();
    assert_eq!(kept, YaraScanOptions { max_matches_per_pattern: 7, max_reported_matches: 9 });
}

#[test]
fn namespaces_are_identifiers() {
    assert_eq!(sanitize_namespace("my pack-1"), "my_pack_1");
    assert_eq!(sanitize_namespace("9lives"), "custom_9lives");
    assert_eq!(sanitize_namespace(""), "custom_");
    assert_eq!(sanitize_namespace(&"a".repeat(100)).len(), 64);
}

#[test]
fn names_fall_back_when_blank() {
    assert_eq!(sanitize_name("  \t ", "custom.yar"), "custom.yar");
    assert_eq!(sanitize_name("rules\u{7}.yar", "custom.yar"), "rules.yar");
}

#[test]
fn severity_comes_from_the_first_severity_entry() {
    let meta = |pairs: &[(&str, Option<&str>)]| -> Vec<(String, Option<String>)> {
        pairs.iter().map(|(k, v)| (k.to_string(), v.map(|s| s.to_string()))).collect()
    };
    assert_eq!(severity_from_metadata(&meta(&[("author", Some("x")), ("Severity", Some("CRITICAL"))])), "high");
    assert_eq!(severity_from_metadata(&meta(&[("severity", Some("Medium")), ("severity", Some("high"))])), "medium");
    assert_eq!(severity_from_metadata(&meta(&[("severity", Some("low"))])), "low");
    assert_eq!(severity_from_metadata(&meta(&[("severity", None)])), "info");
    assert_eq!(severity_from_metadata(&meta(&[("severity", Some("weird"))])), "info");
    assert_eq!(severity_from_metadata(&meta(&[])), "info");
}

#[test]
fn yara_errors_have_messages() {
    assert_eq!(YaraError::EmptySource.message(), "rule source is empty");
    assert_eq!(YaraError::Scan("boom".into()).message(), "YARA scan failed: boom");
    assert_eq!(YaraError::SampleTooLarge.message(), "sample exceeds the 128 MiB hard limit");
}
