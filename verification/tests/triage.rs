use aegis::core_model::{AnalysisOptions, Confidence, ExtractedString, Finding, Indicator, Severity};
use aegis::triage::{
    extract_indicators, extract_strings, high_entropy_finding, indicator_finding, is_printable, looks_like_domain,
    looks_like_ipv4, sanitize_name, sort_findings, split_pieces, summary_finding, writable_executable_finding,
};

fn options(min: usize, max: usize) -> AnalysisOptions {
    AnalysisOptions { min_string_length: min, max_strings: max }
}

fn ascii(offset: u64, value: &str) -> ExtractedString {
    ExtractedString { offset, encoding: "ascii".into(), value: value.into() }
}

#[test]
fn names_keep_only_their_printable_leaf() {
    assert_eq!(sanitize_name("../bad\nname.bin"), "badname.bin");
    assert_eq!(sanitize_name("C:\\Users\\x\\evil.exe"), "evil.exe");
    assert_eq!(sanitize_name("dir/"), "sample.bin");
    assert_eq!(sanitize_name("\u{7}\u{1b}"), "sample.bin");
    assert_eq!(sanitize_name(""), "sample.bin");
    let long = "a".repeat(300);
    assert_eq!(sanitize_name(&long).len(), 255);
}

#[test]
fn printable_bytes_are_ascii_text_and_tab() {
    assert!(is_printable(b' '));
    assert!(is_printable(b'~'));
    assert!(is_printable(b'\t'));
    assert!(!is_printable(b'\n'));
    assert!(!is_printable(0x7f));
    assert!(!is_printable(0));
}

#[test]
fn string_limits_are_enforced_on_extraction() {
    let bytes = b"first\0second\0third\0fourth\0fifth\0";
    let (strings, truncated) = extract_strings(bytes, &options(4, 3));
    assert_eq!(strings.len(), 3);
    assert!(truncated);
    assert_eq!(strings[0].value, "first");
    assert_eq!(strings[0].offset, 0);
    assert_eq!(strings[1].value, "second");
    assert_eq!(strings[1].offset, 6);
    assert_eq!(strings[2].encoding, "ascii");
}

#[test]
fn short_runs_are_skipped_and_wide_strings_follow() {
    let mut bytes = b"ab\0hello\0".to_vec();
    bytes.extend_from_slice(&[0xff, b'w', 0, b'i', 0, b'd', 0, b'e', 0, 0xff]);
    let (strings, truncated) = extract_strings(&bytes, &options(4, 100));
    assert!(!truncated);
    assert_eq!(strings.len(), 2);
    assert_eq!(strings[0].value, "hello");
    assert_eq!(strings[0].offset, 3);
    assert_eq!(strings[1].value, "wide");
    assert_eq!(strings[1].encoding, "utf-16le");
    assert_eq!(strings[1].offset, 10);
}

#[test]
fn long_runs_are_cut_and_marked() {
    let bytes = vec![b'A'; 5000];
    let (strings, truncated) = extract_strings(&bytes, &options(4, 10));
    assert_eq!(strings.len(), 1);
    assert_eq!(strings[0].value.len(), 4096);
    assert!(truncated);
}

#[test]
fn tokens_split_on_space_quotes_and_brackets() {
    let v: Vec<char> = "a b\"c(d)".chars().collect();
    let pieces: Vec<String> = split_pieces(&v, false).iter().map(|p| p.iter().collect()).collect();
    assert_eq!(pieces, vec!["a", "b", "c", "d", ""]);
    let dots: Vec<char> = "1.2..3".chars().collect();
    assert_eq!(split_pieces(&dots, true).len(), 4);
}

#[test]
fn ipv4_and_domain_shapes() {
    assert!(looks_like_ipv4("10.20.30.40"));
    assert!(looks_like_ipv4("+1.2.3.4"));
    assert!(!looks_like_ipv4("256.1.1.1"));
    assert!(!looks_like_ipv4("1.2.3"));
    assert!(!looks_like_ipv4("1..2.3"));
    assert!(looks_like_domain("example.test"));
    assert!(looks_like_domain("example.test."));
    assert!(!looks_like_domain("a.b"));
    assert!(!looks_like_domain("-bad.example"));
    assert!(!looks_like_domain("exa_mple.test"));
    assert!(!looks_like_domain("nodots"));
}

#[test]
fn sanitizes_and_extracts_indicators_from_strings() {
    let strings = vec![ascii(0, "payload https://example.test/a 10.20.30.40 powershell.exe")];
    let indicators = extract_indicators(&strings);
    let kinds: Vec<&str> = indicators.iter().map(|i| i.kind.as_str()).collect();
    assert_eq!(kinds, vec!["url", "ipv4", "command"]);
    assert_eq!(indicators[0].value, "https://example.test/a");
    assert_eq!(indicators[1].value, "10.20.30.40");
}

#[test]
fn indicators_are_trimmed_and_deduplicated() {
    let strings = vec![
        ascii(1, "see (HKCU\\Software\\Run), evil.example.com."),
        ascii(9, "evil.example.com cmd.exe /c"),
    ];
    let indicators = extract_indicators(&strings);
    assert_eq!(indicators.len(), 3);
    assert_eq!(indicators[0].kind, "registry");
    assert_eq!(indicators[0].value, "HKCU\\Software\\Run");
    assert_eq!(indicators[1].kind, "domain");
    assert_eq!(indicators[1].value, "evil.example.com");
    assert_eq!(indicators[1].offset, 1);
    assert_eq!(indicators[2].kind, "command");
    assert_eq!(indicators[2].offset, 9);
}

#[test]
fn findings_describe_sections_and_indicators() {
    let wx = writable_executable_finding(".text", 0x400, 0x200, "rwx").unwrap();
    assert_eq!(wx.id, "writable-executable-section");
    assert_eq!(wx.severity, Severity::High);
    assert_eq!(wx.evidence[0].value, ".text");
    assert!(writable_executable_finding(".data", 0, 1, "rw-").is_none());

    let entropy = high_entropy_finding(".packed", 16, 2048, "7.91");
    assert_eq!(entropy.evidence[0].value, ".packed: 7.91 bits/byte");
    assert_eq!(entropy.confidence, Confidence::Medium);

    let indicators: Vec<Indicator> = (0..7)
        .map(|i| Indicator { kind: "domain".into(), value: format!("host{i}.test"), offset: i })
        .collect();
    let finding = indicator_finding(&indicators).unwrap();
    assert_eq!(finding.evidence.len(), 5);
    assert_eq!(finding.evidence[2].value, "domain: host2.test");
    assert_eq!(finding.evidence[2].length, Some(10));
    assert!(indicator_finding(&[]).is_none());

    let summary = summary_finding(42);
    assert_eq!(summary.id, "analysis-summary");
    assert_eq!(summary.evidence[0].length, Some(42));
}

#[test]
fn findings_are_ordered_by_severity_stably() {
    let make = |id: &str, severity: Severity| Finding {
        id: id.into(),
        title: String::new(),
        severity,
        confidence: Confidence::Low,
        rationale: String::new(),
        evidence: Vec::new(),
    };
    let sorted = sort_findings(vec![
        make("info", Severity::Info),
        make("low-a", Severity::Low),
        make("high", Severity::High),
        make("low-b", Severity::Low),
        make("medium", Severity::Medium),
    ]);
    let ids: Vec<&str> = sorted.iter().map(|f| f.id.as_str()).collect();
    assert_eq!(ids, vec!["high", "medium", "low-a", "low-b", "info"]);
}
