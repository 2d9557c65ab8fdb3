//! The YARA scan model: limits, scan options, report records, and the
//! naming and severity rules applied to rule packs.
use vstd::prelude::*;

use crate::dynamic_model::{bounded_text, bounded_text_spec};
use crate::text::{chars_equal, chars_of, lower_seq, push_str, string_from_chars, to_lower_char};

verus! {

pub const YARA_SCHEMA_VERSION: u32 = 1;

/// Largest rule source (1 MiB).
pub const MAX_RULE_SOURCE_BYTES: usize = 1048576;

pub const MAX_RULES: usize = 10000;

pub const MAX_DIAGNOSTICS: usize = 100;

pub const MAX_MATCHING_RULES: usize = 5000;

pub const MAX_REPORTED_MATCHES: usize = 10000;

pub const MAX_MATCHES_PER_PATTERN: usize = 100;

/// Largest sample a pack scans (128 MiB).
pub const MAX_SAMPLE_BYTES: usize = 134217728;

/// How many matches a scan may report.
#[derive(Debug, Clone, Copy, PartialEq, Eq)]
pub struct YaraScanOptions {
    pub max_matches_per_pattern: usize,
    pub max_reported_matches: usize,
}

impl Default for YaraScanOptions {
    fn default() -> (o: YaraScanOptions)
        ensures
            o.max_matches_per_pattern == MAX_MATCHES_PER_PATTERN,
            o.max_reported_matches == MAX_REPORTED_MATCHES,
    {
        YaraScanOptions { max_matches_per_pattern: MAX_MATCHES_PER_PATTERN, max_reported_matches: MAX_REPORTED_MATCHES }
    }
}

/// `v` held to `[lo, hi]`.
pub open spec fn clamped(v: int, lo: int, hi: int) -> int {
    if v < lo {
        lo
    } else if v > hi {
        hi
    } else {
        v
    }
}

impl YaraScanOptions {
    /// The options held to the hard limits: at least one match of each kind,
    /// at most `MAX_MATCHES_PER_PATTERN` per pattern and
    /// `MAX_REPORTED_MATCHES` in all.
    pub fn bounded(self) -> (o: YaraScanOptions)
        ensures
            o.max_matches_per_pattern == clamped(self.max_matches_per_pattern as int, 1, MAX_MATCHES_PER_PATTERN as int),
            o.max_reported_matches == clamped(self.max_reported_matches as int, 1, MAX_REPORTED_MATCHES as int),
    {
        let per_pattern = if self.max_matches_per_pattern < 1 {
            1
        } else if self.max_matches_per_pattern > MAX_MATCHES_PER_PATTERN {
            MAX_MATCHES_PER_PATTERN
        } else {
            self.max_matches_per_pattern
        };
        let reported = if self.max_reported_matches < 1 {
            1
        } else if self.max_reported_matches > MAX_REPORTED_MATCHES {
            MAX_REPORTED_MATCHES
        } else {
            self.max_reported_matches
        };
        YaraScanOptions { max_matches_per_pattern: per_pattern, max_reported_matches: reported }
    }
}

/// The rule pack a report was produced with.
#[derive(Debug, Clone, PartialEq, Eq)]
pub struct YaraPackSummary {
    pub name: String,
    pub namespace: String,
    pub source_name: String,
    pub source_sha256: String,
    pub rule_count: usize,
}

/// The occurrences of one pattern of a matching rule.
#[derive(Debug, Clone, PartialEq, Eq)]
pub struct YaraPatternMatch {
    pub identifier: String,
    pub kind: String,
    pub occurrences: Vec<YaraOccurrence>,
}

/// Where one pattern matched.
#[derive(Debug, Clone, Copy, PartialEq, Eq)]
pub struct YaraOccurrence {
    pub offset: u64,
    pub length: u64,
    pub xor_key: Option<u8>,
}

/// Counts of a scan.
#[derive(Debug, Clone, Copy, PartialEq, Eq)]
pub struct YaraStats {
    pub rules_scanned: usize,
    pub matching_rules: usize,
    pub matched_patterns: usize,
    pub reported_occurrences: usize,
}

/// Why a rule pack could not be compiled or a sample not scanned.
#[derive(Debug, Clone, PartialEq, Eq)]
pub enum YaraError {
    EmptySource,
    SourceTooLarge,
    TooManyRules,
    EmptySample,
    SampleTooLarge,
    Scan(String),
}

/// The message an error is reported with.
pub open spec fn yara_error_message(e: YaraError) -> Seq<char> {
    match e {
        YaraError::EmptySource => "rule source is empty"@,
        YaraError::SourceTooLarge => "rule source exceeds the 1 MiB hard limit"@,
        YaraError::TooManyRules => "compiled pack exceeds the 10000 rule hard limit"@,
        YaraError::EmptySample => "sample is empty"@,
        YaraError::SampleTooLarge => "sample exceeds the 128 MiB hard limit"@,
        YaraError::Scan(s) => "YARA scan failed: "@ + s@,
    }
}

impl YaraError {
    /// The message the error is reported with.
    pub fn message(&self) -> (s: String)
        ensures
            s@ == yara_error_message(*self),
    {
        match self {
            YaraError::EmptySource => "rule source is empty".to_owned(),
            YaraError::SourceTooLarge => "rule source exceeds the 1 MiB hard limit".to_owned(),
            YaraError::TooManyRules => "compiled pack exceeds the 10000 rule hard limit".to_owned(),
            YaraError::EmptySample => "sample is empty".to_owned(),
            YaraError::SampleTooLarge => "sample exceeds the 128 MiB hard limit".to_owned(),
            YaraError::Scan(detail) => {
                let mut s = "YARA scan failed: ".to_owned();
                push_str(&mut s, detail.as_str());
                s
            },
        }
    }
}

/// A pack, source or sample name as shown: control characters dropped, at
/// most 255 characters, `fallback` when only white space is left.
pub fn sanitize_name(value: &str, fallback: &str) -> (r: String)
    ensures
        r@ == bounded_text_spec(value@, 255, fallback@),
{
    bounded_text(value, 255, fallback)
}

/// A character kept in a namespace: an ASCII letter, digit or underscore.
pub open spec fn namespace_char(c: char) -> char {
    if ('0' <= c && c <= '9') || ('a' <= c && c <= 'z') || ('A' <= c && c <= 'Z') || c == '_' {
        c
    } else {
        '_'
    }
}

/// A rule namespace: every other character replaced by `_`, at most 64
/// characters, prefixed with `custom_` when empty or starting with a digit.
pub open spec fn namespace_spec(value: Seq<char>) -> Seq<char> {
    let n = if value.len() < 64 { value.len() } else { 64 };
    let mapped = value.subrange(0, n as int).map_values(|c: char| namespace_char(c));
    if mapped.len() == 0 || ('0' <= mapped[0] && mapped[0] <= '9') {
        "custom_"@ + mapped
    } else {
        mapped
    }
}

/// The namespace rules of a pack are compiled under.
pub fn sanitize_namespace(value: &str) -> (r: String)
    ensures
        r@ == namespace_spec(value@),
{
    let chars = chars_of(value);
    let n = if chars.len() < 64 { chars.len() } else { 64 };
    let mut mapped: Vec<char> = Vec::new();
    let mut i: usize = 0;
    while i < n
        invariant
            i <= n,
            n <= chars@.len(),
            chars@ == value@,
            mapped@ == value@.subrange(0, i as int).map_values(|c: char| namespace_char(c)),
        decreases n - i,
    {
        let c = chars[i];
        let kept = if ('0' <= c && c <= '9') || ('a' <= c && c <= 'z') || ('A' <= c && c <= 'Z') || c == '_' {
            c
        } else {
            '_'
        };
        mapped.push(kept);
        i = i + 1;
        assert(mapped@ =~= value@.subrange(0, i as int).map_values(|c: char| namespace_char(c)));
    }
    if mapped.len() == 0 || ('0' <= mapped[0] && mapped[0] <= '9') {
        let mut result = "custom_".to_owned();
        let rest = string_from_chars(&mapped);
        push_str(&mut result, rest.as_str());
        result
    } else {
        string_from_chars(&mapped)
    }
}

/// The severity a matching rule is reported with, from the text of its
/// first `severity` metadata entry (matched ignoring ASCII case; `None`
/// when that entry's value is not text): `high` for critical or high,
/// `medium`, `low`, and `info` otherwise.
pub open spec fn severity_spec(entries: Seq<(Seq<char>, Option<Seq<char>>)>) -> Seq<char> {
    let found = first_severity(entries);
    let value = match found {
        Some(Some(v)) => lower_seq(v),
        _ => "info"@,
    };
    if value == "critical"@ || value == "high"@ {
        "high"@
    } else if value == "medium"@ {
        "medium"@
    } else if value == "low"@ {
        "low"@
    } else {
        "info"@
    }
}

/// The value of the first entry named `severity` (ignoring ASCII case).
pub open spec fn first_severity(entries: Seq<(Seq<char>, Option<Seq<char>>)>) -> Option<Option<Seq<char>>>
    decreases entries.len(),
{
    if entries.len() == 0 {
        None
    } else if lower_seq(entries[0].0) == "severity"@ {
        Some(entries[0].1)
    } else {
        first_severity(entries.subrange(1, entries.len() as int))
    }
}

fn lower_chars(v: &Vec<char>) -> (r: Vec<char>)
    ensures
        r@ == lower_seq(v@),
{
    let mut out: Vec<char> = Vec::new();
    let mut i: usize = 0;
    while i < v.len()
        invariant
            i <= v@.len(),
            out@ == lower_seq(v@.subrange(0, i as int)),
        decreases v@.len() - i,
    {
        out.push(to_lower_char(v[i]));
        i = i + 1;
        assert(out@ =~= lower_seq(v@.subrange(0, i as int)));
    }
    assert(v@.subrange(0, v@.len() as int) =~= v@);
    out
}

fn text_is(v: &Vec<char>, t: &str) -> (r: bool)
    ensures
        r == (v@ == t@),
{
    chars_equal(v, &chars_of(t))
}

/// The severity a matching rule is reported with, from its metadata given
/// as (identifier, text value) pairs.
pub fn severity_from_metadata(entries: &[(String, Option<String>)]) -> (r: String)
    ensures
        r@ == severity_spec(entries@.map_values(|e: (String, Option<String>)| (e.0@, match e.1 {
            Some(s) => Some(s@),
            None => None,
        }))),
{
    let ghost views = entries@.map_values(|e: (String, Option<String>)| (e.0@, match e.1 {
        Some(s) => Some(s@),
        None => None,
    }));
    let mut value: Vec<char> = chars_of("info");
    let mut i: usize = 0;
    let mut found = false;
    assert(views.subrange(0, views.len() as int) =~= views);
    while i < entries.len() && !found
        invariant
            i <= entries@.len(),
            views == entries@.map_values(|e: (String, Option<String>)| (e.0@, match e.1 {
                Some(s) => Some(s@),
                None => None,
            })),
            !found ==> first_severity(views) == first_severity(views.subrange(i as int, views.len() as int)),
            !found ==> value@ == "info"@,
            found ==> value@ == match first_severity(views) {
                Some(Some(v)) => lower_seq(v),
                _ => "info"@,
            },
        decreases entries@.len() - i,
    {
        let ghost rest = views.subrange(i as int, views.len() as int);
        assert(rest[0] == views[i as int]);
        assert(rest.subrange(1, rest.len() as int) =~= views.subrange(i + 1, views.len() as int));
        let name = lower_chars(&chars_of(entries[i].0.as_str()));
        if text_is(&name, "severity") {
            found = true;
            match &entries[i].1 {
                Some(text) => {
                    value = lower_chars(&chars_of(text.as_str()));
                },
                None => {},
            }
        }
        i = i + 1;
    }
    if !found {
        assert(views.subrange(i as int, views.len() as int) =~= Seq::<(Seq<char>, Option<Seq<char>>)>::empty());
    }
    if text_is(&value, "critical") || text_is(&value, "high") {
        "high".to_owned()
    } else if text_is(&value, "medium") {
        "medium".to_owned()
    } else if text_is(&value, "low") {
        "low".to_owned()
    } else {
        "info".to_owned()
    }
}

} // verus!
