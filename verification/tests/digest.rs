use aegis::core_model::BinaryFormat;
use aegis::digest::{md5_hex, sha1_hex, sha256_hex, summarize_sample};
use aegis::dynamic_error::DynamicError;

#[test]
fn digests_of_abc() {
    assert_eq!(sha256_hex(b"abc"), "ba7816bf8f01cfea414140de5dae2223b00361a396177a9cb410ff61f20015ad");
    assert_eq!(sha1_hex(b"abc"), "a9993e364706816aba3e25717850c26c9cd0d89d");
    assert_eq!(md5_hex(b"abc"), "900150983cd24fb0d6963f7d28e17f72");
}

#[test]
fn sample_summaries_name_and_hash_the_bytes() {
    let s = summarize_sample("dir/sample.exe", b"abc", BinaryFormat::Pe, Some("x86".into()));
    assert_eq!(s.name, "sample.exe");
    assert_eq!(s.size, 3);
    assert_eq!(s.detected_format, BinaryFormat::Pe);
    assert_eq!(s.architecture, Some("x86".to_string()));
    assert_eq!(s.sha256.len(), 64);
    assert_eq!(s.md5, "900150983cd24fb0d6963f7d28e17f72");
}

#[test]
fn dynamic_errors_have_messages() {
    assert_eq!(DynamicError::Empty.message(), "sample is empty");
    assert_eq!(DynamicError::MemoryRead { address: 0x1234 }.message(), "memory read failed at 0x00001234");
    assert_eq!(
        DynamicError::MemoryExecute { address: 0x1_0000_0000 }.message(),
        "instruction fetch failed at 0x100000000"
    );
    assert_eq!(DynamicError::UnsupportedRegister("XMM0".into()).message(), "unsupported register XMM0");
    assert_eq!(DynamicError::InvalidPe("bad".into()).message(), "invalid PE: bad");
}
