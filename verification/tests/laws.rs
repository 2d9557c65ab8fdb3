use aegis::core_model::{AnalysisError, AnalysisOptions, Severity};
use aegis::static_triage::{triage, SectionFacts};
use aegis::code::{match_capabilities, Feature, FeatureKind};
use aegis::cpu::Cpu;
use aegis::dynamic_error::DynamicError;
use aegis::memory::{Memory, Permissions};

fn import(value: &str) -> Feature {
    Feature {
        kind: FeatureKind::Import,
        normalized: value.to_ascii_lowercase(),
        value: value.into(),
        address: None,
        file_offset: None,
    }
}

#[test]
fn unmapping_releases_range_and_quota() {
    let mut m = Memory::new();
    m.map(0x1000, 0x1000, Permissions::read_write(), "a".into()).unwrap();
    assert!(!m.unmap(0x1800));
    assert!(m.unmap(0x1000));
    assert!(m.snapshot(0x1000).is_none());
    assert_eq!(m.read(0x1000, 1), Err(DynamicError::MemoryRead { address: 0x1000 }));
    assert!(!m.unmap(0x1000));
    assert_eq!(m.map(0x1000, 0x1000, Permissions::read_write(), "a".into()), Ok(()));
}

#[test]
fn pop_gives_back_what_push_stored() {
    let mut m = Memory::new();
    m.map(0x1000, 0x1000, Permissions::read_write(), "stack".into()).unwrap();
    let mut cpu = Cpu::default();
    cpu.esp = 0x1800;
    cpu.eax = 7;
    let (esp0, eax0) = (cpu.esp, cpu.eax);
    cpu.push(&mut m, 0xdead_beef).unwrap();
    assert_eq!(cpu.pop(&m), Ok(0xdead_beef));
    assert_eq!(cpu.esp, esp0);
    assert_eq!(cpu.eax, eax0);
}

fn flags(c: &Cpu) -> (bool, bool, bool, bool, bool, bool) {
    (c.zf, c.sf, c.cf, c.of, c.pf, c.af)
}

#[test]
fn adc_without_carry_matches_add_and_sbb_without_borrow_matches_sub() {
    for &(l, r, size) in &[(0xffu32, 1u32, 8u32), (0x7f, 1, 8), (0xffff, 0x8000, 16), (0x8000_0000, 0x8000_0000, 32), (3, 5, 32)] {
        let mut a = Cpu::default();
        let mut b = Cpu::default();
        a.set_adc_flags(l, r, false, l.wrapping_add(r), size);
        b.set_add_flags(l, r, l.wrapping_add(r), size);
        assert_eq!(flags(&a), flags(&b));
        let mut c = Cpu::default();
        let mut d = Cpu::default();
        c.set_sbb_flags(l, r, false, l.wrapping_sub(r), size);
        d.set_sub_flags(l, r, l.wrapping_sub(r), size);
        assert_eq!(flags(&c), flags(&d));
    }
    let mut e = Cpu::default();
    e.set_adc_flags(0xff, 0, true, 0x100, 8);
    assert!(e.cf && e.zf && !e.of && e.af);
}

#[test]
fn more_features_never_remove_a_capability() {
    let few = vec![import("OpenProcess"), import("WriteProcessMemory")];
    let more = vec![import("OpenProcess"), import("WriteProcessMemory"), import("VirtualProtect"), import("LoadLibraryA")];
    let before: Vec<String> = match_capabilities(&few).into_iter().map(|m| m.id).collect();
    let after: Vec<String> = match_capabilities(&more).into_iter().map(|m| m.id).collect();
    assert!(!before.is_empty());
    assert!(before.iter().all(|id| after.contains(id)));
    for m in match_capabilities(&more) {
        assert!(!m.evidence.is_empty() && m.evidence.len() <= 16);
    }
}

#[test]
fn static_triage_refuses_empty_and_orders_findings() {
    assert_eq!(triage("x", &[], &AnalysisOptions::default(), &[]).err(), Some(AnalysisError::Empty));
    let sections = vec![
        SectionFacts { name: ".text".into(), offset: 0, size: 4096, permissions: "rwx".into(), high_entropy: true, entropy_text: "7.90".into() },
        SectionFacts { name: ".small".into(), offset: 0, size: 10, permissions: "r--".into(), high_entropy: true, entropy_text: "7.50".into() },
    ];
    let t = triage("sample.bin", b"hello http://example.test/ world", &AnalysisOptions::default(), &sections).unwrap();
    let ids: Vec<&str> = t.findings.iter().map(|f| f.id.as_str()).collect();
    assert_eq!(ids, vec!["writable-executable-section", "high-entropy-section", "embedded-indicators", "analysis-summary"]);
    assert_eq!(t.findings[0].severity, Severity::High);
    assert_eq!(t.findings[1].evidence[0].value, ".text: 7.90 bits/byte");
    assert_eq!(t.bytes_scanned, 32);
}
