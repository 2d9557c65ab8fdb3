//! The static-triage report model: bounded options, parsed format facts,
//! strings, indicators and findings.
use vstd::prelude::*;

verus! {

pub const SCHEMA_VERSION: u32 = 1;

/// Largest sample the static analyzer accepts (128 MiB).
pub const MAX_INPUT_BYTES: usize = 134217728;

pub const MAX_SECTIONS: usize = 4096;

pub const MAX_COLLECTION_ITEMS: usize = 50000;

pub const MAX_STRINGS: usize = 50000;

/// Total bytes of extracted string text (8 MiB).
pub const MAX_STRING_BYTES: usize = 8388608;

pub const MAX_STRING_LENGTH: usize = 4096;

/// Limits for string extraction.
#[derive(Debug, Clone, Copy, PartialEq, Eq)]
pub struct AnalysisOptions {
    pub min_string_length: usize,
    pub max_strings: usize,
}

/// `v` held inside `[lo, hi]`.
pub open spec fn clamp_spec(v: int, lo: int, hi: int) -> int {
    if v < lo {
        lo
    } else if v > hi {
        hi
    } else {
        v
    }
}

impl Default for AnalysisOptions {
    fn default() -> (o: AnalysisOptions)
        ensures
            o.min_string_length == 4,
            o.max_strings == MAX_STRINGS,
    {
        AnalysisOptions { min_string_length: 4, max_strings: MAX_STRINGS }
    }
}

impl AnalysisOptions {
    /// Holds the minimum string length in `[4, 128]` and the string count in
    /// `[1, MAX_STRINGS]`.
    pub fn bounded(self) -> (o: AnalysisOptions)
        ensures
            o.min_string_length == clamp_spec(self.min_string_length as int, 4, 128),
            o.max_strings == clamp_spec(self.max_strings as int, 1, MAX_STRINGS as int),
    {
        let min_string_length = if self.min_string_length < 4 {
            4
        } else if self.min_string_length > 128 {
            128
        } else {
            self.min_string_length
        };
        let max_strings = if self.max_strings < 1 {
            1
        } else if self.max_strings > MAX_STRINGS {
            MAX_STRINGS
        } else {
            self.max_strings
        };
        AnalysisOptions { min_string_length, max_strings }
    }
}

/// Why static analysis refused a sample.
#[derive(Debug, Clone, PartialEq, Eq)]
pub enum AnalysisError {
    Empty,
    TooLarge { max_bytes: usize },
    Parse { format: String, message: String },
}

#[derive(Debug, Clone, Copy, PartialEq, Eq, Structural)]
pub enum BinaryFormat {
    Pe,
    Elf,
    MachO,
    WebAssembly,
    Unknown,
}

#[derive(Debug, Clone, PartialEq, Eq)]
pub struct SampleSummary {
    pub name: String,
    pub size: u64,
    pub detected_format: BinaryFormat,
    pub architecture: Option<String>,
    pub sha256: String,
    pub sha1: String,
    pub md5: String,
}

#[derive(Debug, Clone, PartialEq, Eq)]
pub struct MachSlice {
    pub machine: String,
    pub offset: u64,
    pub size: u64,
}

/// Format-specific facts about a parsed sample.
#[derive(Debug, Clone, PartialEq, Eq)]
pub enum FormatReport {
    Pe {
        bitness: u8,
        machine: String,
        subsystem: Option<String>,
        timestamp: u32,
        entry_point: u64,
        image_base: u64,
        libraries: Vec<String>,
        is_dll: bool,
        has_tls: bool,
        has_resources: bool,
        has_signature: bool,
        is_dotnet: bool,
        mitigations: Vec<String>,
    },
    Elf {
        bitness: u8,
        machine: String,
        file_type: String,
        entry_point: u64,
        interpreter: Option<String>,
        libraries: Vec<String>,
        rpaths: Vec<String>,
        hardening: Vec<String>,
    },
    MachO {
        bitness: Option<u8>,
        machine: String,
        entry_point: Option<u64>,
        slices: Vec<MachSlice>,
        libraries: Vec<String>,
        rpaths: Vec<String>,
        has_code_signature: bool,
    },
    WebAssembly {
        encoding: String,
        version: u16,
        valid: bool,
        types: u32,
        functions: u32,
        memories: u32,
        tables: u32,
        globals: u32,
        start_function: Option<u32>,
        custom_sections: Vec<String>,
    },
    Unknown { magic: String },
}

#[derive(Debug, Clone, PartialEq, Eq)]
pub struct SymbolRecord {
    pub name: String,
    pub module: Option<String>,
    pub address: Option<u64>,
    pub kind: String,
}

#[derive(Debug, Clone, PartialEq, Eq)]
pub struct ExtractedString {
    pub offset: u64,
    pub encoding: String,
    pub value: String,
}

#[derive(Debug, Clone, PartialEq, Eq)]
pub struct Indicator {
    pub kind: String,
    pub value: String,
    pub offset: u64,
}

#[derive(Debug, Clone, PartialEq, Eq)]
pub struct Finding {
    pub id: String,
    pub title: String,
    pub severity: Severity,
    pub confidence: Confidence,
    pub rationale: String,
    pub evidence: Vec<Evidence>,
}

#[derive(Debug, Clone, Copy, PartialEq, Eq, Structural)]
pub enum Severity {
    Info,
    Low,
    Medium,
    High,
}

#[derive(Debug, Clone, Copy, PartialEq, Eq, Structural)]
pub enum Confidence {
    Low,
    Medium,
    High,
}

#[derive(Debug, Clone, PartialEq, Eq)]
pub struct Evidence {
    pub offset: Option<u64>,
    pub length: Option<u64>,
    pub value: String,
}

#[derive(Debug, Clone, PartialEq, Eq)]
pub struct AnalysisWarning {
    pub code: String,
    pub message: String,
}

} // verus!
