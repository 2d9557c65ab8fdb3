use aegis::artifact::{detect_format, extract_indicators, extract_strings, sanitize_name, signal_count};
use aegis::dynamic_model::ArtifactString;

#[test]
fn formats_are_told_by_magic_bytes() {
    assert_eq!(detect_format(b"MZ\x90\x00"), "pe");
    assert_eq!(detect_format(b"\x7fELF\x02"), "elf");
    assert_eq!(detect_format(b"\0asm\x01"), "web_assembly");
    assert_eq!(detect_format(&[0xcf, 0xfa, 0xed, 0xfe, 7]), "mach_o");
    assert_eq!(detect_format(&[0xfe, 0xed, 0xfa, 0xcf]), "mach_o");
    assert_eq!(detect_format(b"M"), "unknown");
    assert_eq!(detect_format(b""), "unknown");
}

#[test]
fn signals_are_counted_once_each() {
    assert_eq!(signal_count(b"HTTP://x https://y PowerShell cmd.exe cmd.exe"), 4);
    assert_eq!(signal_count(b"Software\\Microsoft\\Windows\\CurrentVersion\\Run User-Agent: x"), 2);
    assert_eq!(signal_count(b"nothing here"), 0);
}

#[test]
fn artifact_strings_are_chunked_and_capped() {
    let strings = extract_strings(b"ab\0abcd\x01efghij");
    assert_eq!(strings.len(), 2);
    assert_eq!(strings[0].offset, 3);
    assert_eq!(strings[0].value, "abcd");
    assert_eq!(strings[0].encoding, "ascii");
    assert_eq!(strings[1].value, "efghij");
    let long = vec![b'x'; 1030];
    let chunks = extract_strings(&long);
    assert_eq!(chunks.len(), 3);
    assert_eq!(chunks[0].value.len(), 512);
    assert_eq!(chunks[1].offset, 512);
    assert_eq!(chunks[2].value.len(), 6);
    let many: Vec<u8> = b"abcd\0".iter().copied().cycle().take(5 * 300).collect();
    assert_eq!(extract_strings(&many).len(), 256);
    let tabs = extract_strings(b"ab\tcd");
    assert!(tabs.is_empty());
}

#[test]
fn artifact_indicators_keep_the_whole_string() {
    let strings = vec![
        ArtifactString { offset: 1, encoding: "ascii".into(), value: "GET HTTP://host/x".into() },
        ArtifactString { offset: 2, encoding: "ascii".into(), value: "plain".into() },
        ArtifactString { offset: 3, encoding: "ascii".into(), value: "Software\\CurrentVersion\\Run".into() },
        ArtifactString { offset: 4, encoding: "ascii".into(), value: "run cmd.exe /c".into() },
    ];
    let indicators = extract_indicators(&strings);
    assert_eq!(indicators.len(), 3);
    assert_eq!(indicators[0].kind, "url");
    assert_eq!(indicators[0].value, "GET HTTP://host/x");
    assert_eq!(indicators[1].kind, "registry");
    assert_eq!(indicators[2].kind, "command");
    assert_eq!(indicators[2].offset, 4);
}

#[test]
fn artifact_names_are_cleaned() {
    assert_eq!(sanitize_name("dump\n.bin"), "dump.bin");
    assert_eq!(sanitize_name("\u{1}"), "artifact.bin");
    assert_eq!(sanitize_name(&"n".repeat(200)).len(), 160);
}
