//! Static triage of a sample's bytes: size checks, string and indicator
//! extraction, the common findings, ordered by severity, and the sample's
//! identity.
use vstd::prelude::*;

use crate::core_model::{
    clamp_spec, AnalysisError, AnalysisOptions, BinaryFormat, ExtractedString, Finding, Indicator, SampleSummary, MAX_INPUT_BYTES,
    MAX_STRINGS, Severity, Confidence,
};
use crate::digest::{hex_text, md5_of, sha1_of, sha256_of, summarize_sample};
use crate::formats::{object_kind_of, route_of, route_sample, ParseRoute};
use crate::triage::{
    by_severity, sanitized_name, extract_indicators, extract_strings, extracted_strings, high_entropy_finding, indicator_finding, indicator_line,
    indicator_view, indicators_of, sort_findings, string_view, summary_finding, writable_executable_finding, byte_len,
};

verus! {

/// What triage needs of a section: where it lies, its permission text, and
/// whether its entropy is high (at least 7.2 bits per byte) with that
/// entropy shown to two decimals.
pub struct SectionFacts {
    pub name: String,
    pub offset: u64,
    pub size: u64,
    pub permissions: String,
    pub high_entropy: bool,
    pub entropy_text: String,
}

/// The outcome of static triage.
pub struct StaticTriage {
    pub sample: SampleSummary,
    pub strings: Vec<ExtractedString>,
    pub strings_truncated: bool,
    pub indicators: Vec<Indicator>,
    pub findings: Vec<Finding>,
    pub bytes_scanned: u64,
}

/// A high-entropy section of at least 1 KiB.
pub open spec fn is_high(s: SectionFacts) -> bool {
    s.high_entropy && s.size >= 1024
}

/// A section that is writable and executable.
pub open spec fn is_wx(s: SectionFacts) -> bool {
    s.permissions@.contains('w') && s.permissions@.contains('x')
}

pub open spec fn high_pred() -> spec_fn(SectionFacts) -> bool {
    |s: SectionFacts| is_high(s)
}

pub open spec fn wx_pred() -> spec_fn(SectionFacts) -> bool {
    |s: SectionFacts| is_wx(s)
}

/// `f` is the high-entropy finding for section `s`.
pub open spec fn high_entropy_is(f: Finding, s: SectionFacts) -> bool {
    &&& f.id@ == "high-entropy-section"@ && f.title@ == "High-entropy section"@
    &&& f.severity == Severity::Medium && f.confidence == Confidence::Medium
    &&& f.rationale@ == "Compressed, encrypted, or packed content commonly has high byte entropy."@
    &&& f.evidence@.len() == 1 && f.evidence@[0].offset == Some(s.offset) && f.evidence@[0].length == Some(s.size)
    &&& f.evidence@[0].value@ == s.name@ + ": "@ + s.entropy_text@ + " bits/byte"@
}

/// `f` is the writable-and-executable finding for section `s`.
pub open spec fn writable_executable_is(f: Finding, s: SectionFacts) -> bool {
    &&& f.id@ == "writable-executable-section"@ && f.title@ == "Writable and executable section"@
    &&& f.severity == Severity::High && f.confidence == Confidence::High
    &&& f.rationale@ == "A region that is both writable and executable can enable runtime code modification."@
    &&& f.evidence@.len() == 1 && f.evidence@[0].offset == Some(s.offset) && f.evidence@[0].length == Some(s.size)
    &&& f.evidence@[0].value@ == s.name@
}

/// `f` is the embedded-indicator finding for `inds`: the first five as evidence.
pub open spec fn indicators_are(f: Finding, inds: Seq<Indicator>) -> bool {
    &&& f.id@ == "embedded-indicators"@ && f.title@ == "Embedded network or execution indicators"@
    &&& f.severity == Severity::Low && f.confidence == Confidence::Medium
    &&& f.rationale@ == "The sample contains strings that resemble network locations, commands, or registry paths."@
    &&& f.evidence@.len() == if inds.len() < 5 { inds.len() } else { 5 }
    &&& forall|k: int| 0 <= k < f.evidence@.len() ==> {
        &&& (#[trigger] f.evidence@[k]).offset == Some(inds[k].offset)
        &&& f.evidence@[k].length == Some(byte_len(inds[k].value@) as u64)
        &&& f.evidence@[k].value@ == indicator_line(inds[k])
    }
}

/// `f` is the closing summary finding for a sample of `size` bytes.
pub open spec fn summary_is(f: Finding, size: usize) -> bool {
    &&& f.id@ == "analysis-summary"@ && f.title@ == "Static analysis completed"@
    &&& f.severity == Severity::Info && f.confidence == Confidence::High
    &&& f.rationale@ == "No sample instructions were executed; results are structural signals, not a malware verdict."@
    &&& f.evidence@.len() == 1 && f.evidence@[0].offset is None && f.evidence@[0].length == Some(size as u64)
    &&& f.evidence@[0].value@ == "sample treated as inert bytes"@
}

/// The common findings, in the order they are made: one per high-entropy
/// section, one per writable and executable section, one for the
/// indicators when there are any, and the summary.
pub open spec fn common_findings(f: Seq<Finding>, secs: Seq<SectionFacts>, inds: Seq<Indicator>, size: usize) -> bool {
    let hs = secs.filter(high_pred());
    let ws = secs.filter(wx_pred());
    let n: int = if inds.len() > 0 { 1 } else { 0 };
    &&& f.len() == hs.len() + ws.len() + n + 1
    &&& forall|i: int| 0 <= i < hs.len() ==> high_entropy_is(#[trigger] f[i], hs[i])
    &&& forall|i: int| 0 <= i < ws.len() ==> writable_executable_is(#[trigger] f[hs.len() + i], ws[i])
    &&& inds.len() > 0 ==> indicators_are(f[(hs.len() + ws.len()) as int], inds)
    &&& summary_is(f[f.len() - 1], size)
}

/// Builds the common findings.
pub fn common_findings_of(sections: &[SectionFacts], indicators: &[Indicator], sample_size: usize) -> (r: Vec<Finding>)
    ensures
        common_findings(r@, sections@, indicators@, sample_size),
{
    reveal(Seq::filter);
    let mut findings: Vec<Finding> = Vec::new();
    let mut i: usize = 0;
    while i < sections.len()
        invariant
            i <= sections@.len(),
            findings@.len() == sections@.subrange(0, i as int).filter(high_pred()).len(),
            forall|k: int| 0 <= k < findings@.len() ==> high_entropy_is(#[trigger] findings@[k], sections@.subrange(0, i as int).filter(high_pred())[k]),
        decreases sections@.len() - i,
    {
        let ghost before = findings@;
        let ghost pre = sections@.subrange(0, i as int).filter(high_pred());
        proof {
            reveal(Seq::filter);
        }
        let ghost t = sections@.subrange(0, i + 1);
        assert(t.drop_last() =~= sections@.subrange(0, i as int));
        let s = &sections[i];
        assert(t.last() == *s);
        assert(t.len() > 0);
        if s.high_entropy && s.size >= 1024 {
            findings.push(high_entropy_finding(s.name.as_str(), s.offset, s.size, s.entropy_text.as_str()));
            assert(sections@.subrange(0, i + 1).filter(high_pred()) == pre.push(*s));
            assert forall|k: int| 0 <= k < findings@.len() implies high_entropy_is(#[trigger] findings@[k], pre.push(*s)[k]) by {
                if k < before.len() {
                    assert(findings@[k] == before[k]);
                }
            }
        } else {
            assert(sections@.subrange(0, i + 1).filter(high_pred()) == pre);
        }
        i = i + 1;
    }
    assert(sections@.subrange(0, sections@.len() as int) =~= sections@);
    let ghost hs = sections@.filter(high_pred());
    let h = findings.len();
    let mut j: usize = 0;
    while j < sections.len()
        invariant
            j <= sections@.len(),
            h == hs.len(),
            hs == sections@.filter(high_pred()),
            findings@.len() == h + sections@.subrange(0, j as int).filter(wx_pred()).len(),
            forall|k: int| 0 <= k < h ==> high_entropy_is(#[trigger] findings@[k], hs[k]),
            forall|k: int| 0 <= k < findings@.len() - h ==> writable_executable_is(#[trigger] findings@[h + k], sections@.subrange(0, j as int).filter(wx_pred())[k]),
        decreases sections@.len() - j,
    {
        let ghost before = findings@;
        let ghost pre = sections@.subrange(0, j as int).filter(wx_pred());
        proof {
            reveal(Seq::filter);
        }
        let ghost t = sections@.subrange(0, j + 1);
        assert(t.drop_last() =~= sections@.subrange(0, j as int));
        let s = &sections[j];
        assert(t.last() == *s);
        assert(t.len() > 0);
        match writable_executable_finding(s.name.as_str(), s.offset, s.size, s.permissions.as_str()) {
            Some(f) => {
                findings.push(f);
                assert(sections@.subrange(0, j + 1).filter(wx_pred()) == pre.push(*s));
                assert forall|k: int| 0 <= k < h implies high_entropy_is(#[trigger] findings@[k], hs[k]) by {
                    assert(findings@[k] == before[k]);
                }
                assert forall|k: int| 0 <= k < findings@.len() - h implies writable_executable_is(#[trigger] findings@[h + k], pre.push(*s)[k]) by {
                    if k < before.len() - h {
                        assert(findings@[h + k] == before[h + k]);
                    }
                }
            },
            None => {
                assert(sections@.subrange(0, j + 1).filter(wx_pred()) == pre);
            },
        }
        j = j + 1;
    }
    assert(sections@.subrange(0, sections@.len() as int) =~= sections@);
    let ghost mid = findings@;
    if let Some(f) = indicator_finding(indicators) {
        findings.push(f);
    }
    findings.push(summary_finding(sample_size));
    proof {
        let ws = sections@.filter(wx_pred());
        assert forall|k: int| 0 <= k < h implies high_entropy_is(#[trigger] findings@[k], hs[k]) by {
            assert(findings@[k] == mid[k]);
        }
        assert forall|k: int| 0 <= k < ws.len() implies writable_executable_is(#[trigger] findings@[hs.len() + k], ws[k]) by {
            assert(findings@[h + k] == mid[h + k]);
        }
    }
    findings
}

/// The route a detected format was reached by.
pub open spec fn route_for(f: BinaryFormat) -> ParseRoute {
    match f {
        BinaryFormat::Pe => ParseRoute::Pe,
        BinaryFormat::Elf => ParseRoute::Elf,
        BinaryFormat::MachO => ParseRoute::Mach,
        BinaryFormat::WebAssembly => ParseRoute::WebAssembly,
        BinaryFormat::Unknown => ParseRoute::Unknown,
    }
}

/// Triages a sample's bytes: an empty sample or one over
/// `MAX_INPUT_BYTES` is refused; otherwise the strings (under the bounded
/// options), the indicators among them, the common findings ordered by
/// severity, and the sample's identity with the format its magic bytes and
/// the object parser give; a sample that announces a format the parser
/// refuses is refused with the parser's message.
pub fn triage(name: &str, bytes: &[u8], options: &AnalysisOptions, sections: &[SectionFacts]) -> (r: Result<StaticTriage, AnalysisError>)
    ensures
        bytes@.len() == 0 ==> r == Err::<StaticTriage, AnalysisError>(AnalysisError::Empty),
        bytes@.len() > MAX_INPUT_BYTES ==> r == Err::<StaticTriage, AnalysisError>(AnalysisError::TooLarge { max_bytes: MAX_INPUT_BYTES }),
        0 < bytes@.len() <= MAX_INPUT_BYTES ==> (r matches Err(e) ==> route_of(
            bytes@,
            object_kind_of(bytes@),
            ParseRoute::Refused(e),
        )),
        0 < bytes@.len() <= MAX_INPUT_BYTES ==> (r matches Ok(t) ==> {
            let min = clamp_spec(options.min_string_length as int, 4, 128) as nat;
            let max = clamp_spec(options.max_strings as int, 1, MAX_STRINGS as int) as nat;
            &&& t.strings@.map_values(|s: ExtractedString| string_view(s)) == extracted_strings(bytes@, min, max).0
            &&& t.strings_truncated == extracted_strings(bytes@, min, max).1
            &&& t.indicators@.map_values(|i: Indicator| indicator_view(i)) == indicators_of(
                t.strings@.map_values(|s: ExtractedString| (s.value@, s.offset)),
            )
            &&& exists|f: Seq<Finding>| #[trigger] common_findings(f, sections@, t.indicators@, bytes@.len() as usize) && t.findings@ == by_severity(f)
            &&& t.sample.name@ == sanitized_name(name@) && t.sample.size == bytes@.len()
            &&& route_of(bytes@, object_kind_of(bytes@), route_for(t.sample.detected_format))
            &&& t.sample.architecture is None
            &&& t.sample.sha256@ == hex_text(sha256_of(bytes@)) && t.sample.sha1@ == hex_text(sha1_of(bytes@))
            &&& t.sample.md5@ == hex_text(md5_of(bytes@))
            &&& t.bytes_scanned == bytes@.len()
        }),
{
    if bytes.len() == 0 {
        return Err(AnalysisError::Empty);
    }
    if bytes.len() > MAX_INPUT_BYTES {
        return Err(AnalysisError::TooLarge { max_bytes: MAX_INPUT_BYTES });
    }
    let format = match route_sample(bytes) {
        ParseRoute::Refused(e) => {
            return Err(e);
        },
        ParseRoute::Pe => BinaryFormat::Pe,
        ParseRoute::Elf => BinaryFormat::Elf,
        ParseRoute::Mach => BinaryFormat::MachO,
        ParseRoute::WebAssembly => BinaryFormat::WebAssembly,
        ParseRoute::Unknown => BinaryFormat::Unknown,
    };
    let bounded = AnalysisOptions { min_string_length: options.min_string_length, max_strings: options.max_strings }.bounded();
    let (strings, strings_truncated) = extract_strings(bytes, &bounded);
    let indicators = extract_indicators(strings.as_slice());
    let findings = common_findings_of(sections, indicators.as_slice(), bytes.len());
    let ghost unsorted = findings@;
    assert(common_findings(unsorted, sections@, indicators@, bytes@.len() as usize));
    let findings = sort_findings(findings);
    let sample = summarize_sample(name, bytes, format, None);
    Ok(StaticTriage { sample, strings, strings_truncated, indicators, findings, bytes_scanned: bytes.len() as u64 })
}

} // verus!
