use aegis::core_model::{AnalysisError, AnalysisOptions, BinaryFormat, Confidence, FormatReport, Severity};
use aegis::static_triage::triage;
use aegis::formats::{
    entry_point, format_hint, is_mach_magic, parse_route, pe_subsystem, permissions,
    unknown_format_finding, unknown_report, x86_bitness, ObjectKind, ParseRoute,
};

fn elf_report(bitness: u8, entry: u64) -> FormatReport {
    FormatReport::Elf {
        bitness,
        machine: "X86_64".into(),
        file_type: "EXEC".into(),
        entry_point: entry,
        interpreter: None,
        libraries: vec![],
        rpaths: vec![],
        hardening: vec![],
    }
}

#[test]
fn permission_text_marks_each_right() {
    assert_eq!(permissions(true, false, true), "r-x");
    assert_eq!(permissions(false, false, false), "---");
    assert_eq!(permissions(true, true, true), "rwx");
}

#[test]
fn magic_bytes_name_the_format() {
    assert_eq!(format_hint(b"MZ\x90\x00"), "PE");
    assert_eq!(format_hint(b"\x7fELF\x02"), "ELF");
    assert_eq!(format_hint(&[0xcf, 0xfa, 0xed, 0xfe, 0]), "Mach-O");
    assert_eq!(format_hint(&[0xca, 0xfe, 0xba, 0xbe]), "Mach-O");
    assert_eq!(format_hint(b"M"), "binary");
    assert_eq!(format_hint(b"\x7fEL"), "binary");
    assert_eq!(format_hint(b""), "binary");
}

#[test]
fn mach_magic_needs_four_matching_bytes() {
    assert!(is_mach_magic(&[0xfe, 0xed, 0xfa, 0xce]));
    assert!(is_mach_magic(&[0xce, 0xfa, 0xed, 0xfe, 1, 2]));
    assert!(!is_mach_magic(&[0xfe, 0xed, 0xfa]));
    assert!(!is_mach_magic(&[0xfe, 0xed, 0xfa, 0xcd]));
}

#[test]
fn subsystem_values_have_names() {
    assert_eq!(pe_subsystem(2), "Windows GUI");
    assert_eq!(pe_subsystem(3), "Windows console");
    assert_eq!(pe_subsystem(16), "Windows boot application");
    assert_eq!(pe_subsystem(4), "Unknown");
}

#[test]
fn entry_point_and_x86_bitness_come_from_the_report() {
    let elf = elf_report(64, 0x401000);
    assert_eq!(entry_point(&elf), Some(0x401000));
    assert_eq!(entry_point(&FormatReport::Unknown { magic: String::new() }), None);
    assert_eq!(x86_bitness(&elf, Some("X86-64")), Some(64));
    assert_eq!(x86_bitness(&elf_report(32, 0), Some("Intel i386")), Some(32));
    assert_eq!(x86_bitness(&elf, Some("AMD64")), Some(64));
    assert_eq!(x86_bitness(&elf, Some("AArch64")), None);
    assert_eq!(x86_bitness(&elf, None), None);
}

#[test]
fn routing_refuses_only_samples_that_announce_a_format() {
    assert_eq!(parse_route(b"\0asm\x01\0\0\0", ObjectKind::Failed("x".into())), ParseRoute::WebAssembly);
    assert_eq!(parse_route(b"MZ", ObjectKind::Pe), ParseRoute::Pe);
    assert_eq!(parse_route(b"hello", ObjectKind::Other), ParseRoute::Unknown);
    assert_eq!(parse_route(b"hello", ObjectKind::Failed("bad".into())), ParseRoute::Unknown);
    assert_eq!(
        parse_route(b"MZ\0\0", ObjectKind::Failed("truncated".into())),
        ParseRoute::Refused(AnalysisError::Parse { format: "PE".into(), message: "truncated".into() })
    );
    assert_eq!(
        parse_route(b"\x7fELF", ObjectKind::Failed("bad header".into())),
        ParseRoute::Refused(AnalysisError::Parse { format: "ELF".into(), message: "bad header".into() })
    );
}

#[test]
fn unknown_samples_report_their_first_sixteen_bytes() {
    let bytes: Vec<u8> = (0u8..20).collect();
    assert_eq!(
        unknown_report(&bytes),
        FormatReport::Unknown { magic: "000102030405060708090a0b0c0d0e0f".into() }
    );
    assert_eq!(unknown_report(b"ab"), FormatReport::Unknown { magic: "6162".into() });
    let finding = unknown_format_finding();
    assert_eq!(finding.id, "unknown-format");
    assert_eq!(finding.severity, Severity::Info);
    assert_eq!(finding.confidence, Confidence::High);
    assert!(finding.evidence.is_empty());
}

#[test]
fn triage_detects_formats_and_refuses_broken_announced_ones() {
    let options = AnalysisOptions::default();
    let mut broken_pe = b"MZ".to_vec();
    broken_pe.extend_from_slice(&[0u8; 30]);
    match triage("pe", &broken_pe, &options, &[]) {
        Err(AnalysisError::Parse { format, .. }) => assert_eq!(format, "PE"),
        other => panic!("expected a parse refusal, got {:?}", other.map(|t| t.sample.detected_format)),
    }
    let wasm = triage("w", b"\0asm\x01\0\0\0", &options, &[]).unwrap();
    assert_eq!(wasm.sample.detected_format, BinaryFormat::WebAssembly);
    let short = triage("s", b"abc", &options, &[]).unwrap();
    assert_eq!(short.sample.detected_format, BinaryFormat::Unknown);
    let text = triage("t", b"plain text that is long enough", &options, &[]).unwrap();
    assert_eq!(text.sample.detected_format, BinaryFormat::Unknown);
}
