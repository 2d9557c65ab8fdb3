//! Format recognition by magic bytes, and small facts read off a parsed
//! format report: permission text, PE subsystem names, the x86 bitness of a
//! sample and its entry point.
use vstd::prelude::*;
use crate::core_model::{AnalysisError, Confidence, Finding, FormatReport, Severity};
use crate::digest::{hex_encode, hex_text};
use crate::text::{ascii_lowercase, chars_of, lower_seq, seq_contains, vec_contains};

verus! {

/// `rwx`-style text for a set of section permissions.
pub open spec fn permission_text(read: bool, write: bool, execute: bool) -> Seq<char> {
    seq![
        if read { 'r' } else { '-' },
        if write { 'w' } else { '-' },
        if execute { 'x' } else { '-' },
    ]
}

pub fn permissions(read: bool, write: bool, execute: bool) -> (r: String)
    ensures
        r@ == permission_text(read, write, execute),
{
    let mut chars: Vec<char> = Vec::new();
    chars.push(if read { 'r' } else { '-' });
    chars.push(if write { 'w' } else { '-' });
    chars.push(if execute { 'x' } else { '-' });
    let r = crate::text::string_from_chars(&chars);
    assert(chars@ == permission_text(read, write, execute));
    r
}

/// The first four bytes, in order, equal `m`.
pub open spec fn starts_with4(b: Seq<u8>, m: (u8, u8, u8, u8)) -> bool {
    b.len() >= 4 && b[0] == m.0 && b[1] == m.1 && b[2] == m.2 && b[3] == m.3
}

/// The first four bytes are one of the Mach-O or fat magic numbers.
pub open spec fn mach_magic(b: Seq<u8>) -> bool {
    ||| starts_with4(b, (0xfe, 0xed, 0xfa, 0xce))
    ||| starts_with4(b, (0xce, 0xfa, 0xed, 0xfe))
    ||| starts_with4(b, (0xfe, 0xed, 0xfa, 0xcf))
    ||| starts_with4(b, (0xcf, 0xfa, 0xed, 0xfe))
    ||| starts_with4(b, (0xca, 0xfe, 0xba, 0xbe))
}

pub fn is_mach_magic(bytes: &[u8]) -> (r: bool)
    ensures
        r == mach_magic(bytes@),
{
    if bytes.len() < 4 {
        return false;
    }
    let (a, b, c, d) = (bytes[0], bytes[1], bytes[2], bytes[3]);
    (a == 0xfe && b == 0xed && c == 0xfa && d == 0xce)
        || (a == 0xce && b == 0xfa && c == 0xed && d == 0xfe)
        || (a == 0xfe && b == 0xed && c == 0xfa && d == 0xcf)
        || (a == 0xcf && b == 0xfa && c == 0xed && d == 0xfe)
        || (a == 0xca && b == 0xfe && c == 0xba && d == 0xbe)
}

/// The format a sample announces by its first bytes: `MZ`, `\x7fELF`, a
/// Mach-O magic number, or none of these.
pub open spec fn format_hint_text(b: Seq<u8>) -> Seq<char> {
    if b.len() >= 2 && b[0] == 0x4d && b[1] == 0x5a {
        "PE"@
    } else if b.len() >= 4 && b[0] == 0x7f && b[1] == 0x45 && b[2] == 0x4c && b[3] == 0x46 {
        "ELF"@
    } else if mach_magic(b) {
        "Mach-O"@
    } else {
        "binary"@
    }
}

pub fn format_hint(bytes: &[u8]) -> (r: &'static str)
    ensures
        r@ == format_hint_text(bytes@),
{
    if bytes.len() >= 2 && bytes[0] == 0x4d && bytes[1] == 0x5a {
        "PE"
    } else if bytes.len() >= 4 && bytes[0] == 0x7f && bytes[1] == 0x45 && bytes[2] == 0x4c
        && bytes[3] == 0x46 {
        "ELF"
    } else if is_mach_magic(bytes) {
        "Mach-O"
    } else {
        "binary"
    }
}

/// The name of a PE optional-header subsystem value.
pub open spec fn subsystem_name(value: u16) -> Seq<char> {
    if value == 1 {
        "Native"@
    } else if value == 2 {
        "Windows GUI"@
    } else if value == 3 {
        "Windows console"@
    } else if value == 5 {
        "OS/2 console"@
    } else if value == 7 {
        "POSIX console"@
    } else if value == 9 {
        "Windows CE"@
    } else if value == 10 {
        "EFI application"@
    } else if value == 11 {
        "EFI boot driver"@
    } else if value == 12 {
        "EFI runtime driver"@
    } else if value == 14 {
        "Xbox"@
    } else if value == 16 {
        "Windows boot application"@
    } else {
        "Unknown"@
    }
}

pub fn pe_subsystem(value: u16) -> (r: &'static str)
    ensures
        r@ == subsystem_name(value),
{
    match value {
        1 => "Native",
        2 => "Windows GUI",
        3 => "Windows console",
        5 => "OS/2 console",
        7 => "POSIX console",
        9 => "Windows CE",
        10 => "EFI application",
        11 => "EFI boot driver",
        12 => "EFI runtime driver",
        14 => "Xbox",
        16 => "Windows boot application",
        _ => "Unknown",
    }
}

/// The entry point a format report records, where it records one.
pub open spec fn entry_of(format: FormatReport) -> Option<u64> {
    match format {
        FormatReport::Pe { entry_point, .. } => Some(entry_point),
        FormatReport::Elf { entry_point, .. } => Some(entry_point),
        FormatReport::MachO { entry_point, .. } => entry_point,
        _ => None,
    }
}

pub fn entry_point(format: &FormatReport) -> (r: Option<u64>)
    ensures
        r == entry_of(*format),
{
    match format {
        FormatReport::Pe { entry_point, .. } => Some(*entry_point),
        FormatReport::Elf { entry_point, .. } => Some(*entry_point),
        FormatReport::MachO { entry_point, .. } => *entry_point,
        _ => None,
    }
}

/// An architecture name that, lower-cased, names an x86 family member.
pub open spec fn names_x86(architecture: Seq<char>) -> bool {
    let a = lower_seq(architecture);
    ||| seq_contains(a, "x86"@)
    ||| seq_contains(a, "i386"@)
    ||| seq_contains(a, "i686"@)
    ||| seq_contains(a, "amd64"@)
}

/// The bitness of an x86 sample: taken from its PE, ELF or Mach-O report
/// when the architecture is an x86 one, and absent otherwise.
pub open spec fn x86_bitness_of(format: FormatReport, architecture: Option<Seq<char>>) -> Option<u32> {
    let a = match architecture {
        Some(s) => s,
        None => Seq::empty(),
    };
    if !names_x86(a) {
        None
    } else {
        match format {
            FormatReport::Pe { bitness, .. } => Some(bitness as u32),
            FormatReport::Elf { bitness, .. } => Some(bitness as u32),
            FormatReport::MachO { bitness, .. } => match bitness {
                Some(b) => Some(b as u32),
                None => None,
            },
            _ => None,
        }
    }
}

pub open spec fn opt_view(architecture: Option<&str>) -> Option<Seq<char>> {
    match architecture {
        Some(s) => Some(s@),
        None => None,
    }
}

pub fn x86_bitness(format: &FormatReport, architecture: Option<&str>) -> (r: Option<u32>)
    ensures
        r == x86_bitness_of(*format, opt_view(architecture)),
{
    let lowered = match architecture {
        Some(s) => ascii_lowercase(s),
        None => String::new(),
    };
    let hay = chars_of(lowered.as_str());
    proof {
        match architecture {
            Some(s) => {},
            None => {
                assert(lower_seq(Seq::<char>::empty()) =~= Seq::<char>::empty());
            },
        }
    }
    let x86 = vec_contains(&hay, &chars_of("x86")) || vec_contains(&hay, &chars_of("i386"))
        || vec_contains(&hay, &chars_of("i686")) || vec_contains(&hay, &chars_of("amd64"));
    if !x86 {
        return None;
    }
    match format {
        FormatReport::Pe { bitness, .. } => Some(*bitness as u32),
        FormatReport::Elf { bitness, .. } => Some(*bitness as u32),
        FormatReport::MachO { bitness, .. } => match bitness {
            Some(b) => Some(*b as u32),
            None => None,
        },
        _ => None,
    }
}

/// What the object parser made of a sample: one of the three object
/// formats the analyzer reads, another kind of object, or a refusal with the
/// parser's message.
#[derive(Debug, Clone, PartialEq, Eq)]
pub enum ObjectKind {
    Pe,
    Elf,
    Mach,
    Other,
    Failed(String),
}

/// What an `ObjectKind` says, with the parser's message as text.
pub enum ObjectKindView {
    Pe,
    Elf,
    Mach,
    Other,
    Failed(Seq<char>),
}

impl View for ObjectKind {
    type V = ObjectKindView;

    open spec fn view(&self) -> ObjectKindView {
        match self {
            ObjectKind::Pe => ObjectKindView::Pe,
            ObjectKind::Elf => ObjectKindView::Elf,
            ObjectKind::Mach => ObjectKindView::Mach,
            ObjectKind::Other => ObjectKindView::Other,
            ObjectKind::Failed(message) => ObjectKindView::Failed(message@),
        }
    }
}

/// What `goblin::Object::parse` makes of a byte sequence, by kind.
pub uninterp spec fn object_kind_of(bytes: Seq<u8>) -> ObjectKindView;

/// `goblin::Object::parse`, read only for the kind of object it found (PE,
/// ELF, Mach-O, another kind) or for its error's message. Stated: the result
/// is the named outcome for these bytes; what the parser accepts is not
/// stated here.
#[verifier::external_body]
fn object_kind(bytes: &[u8]) -> (k: ObjectKind)
    ensures
        k@ == object_kind_of(bytes@),
{
    match goblin::Object::parse(bytes) {
        Ok(goblin::Object::PE(_)) => ObjectKind::Pe,
        Ok(goblin::Object::Elf(_)) => ObjectKind::Elf,
        Ok(goblin::Object::Mach(_)) => ObjectKind::Mach,
        Ok(_) => ObjectKind::Other,
        Err(error) => ObjectKind::Failed(error.to_string()),
    }
}

/// Which format reader a sample goes to, or why it is refused.
#[derive(Debug, Clone, PartialEq, Eq)]
pub enum ParseRoute {
    WebAssembly,
    Pe,
    Elf,
    Mach,
    Unknown,
    Refused(AnalysisError),
}

/// The sample starts with `\0asm`.
pub open spec fn wasm_magic(b: Seq<u8>) -> bool {
    starts_with4(b, (0x00, 0x61, 0x73, 0x6d))
}

/// The sample announces PE, ELF or Mach-O by its first bytes.
pub open spec fn appears_known(b: Seq<u8>) -> bool {
    ||| (b.len() >= 2 && b[0] == 0x4d && b[1] == 0x5a)
    ||| (b.len() >= 4 && b[0] == 0x7f && b[1] == 0x45 && b[2] == 0x4c && b[3] == 0x46)
    ||| mach_magic(b)
}

/// Where a sample goes: WebAssembly by its magic before anything else; then
/// by what the object parser made of it; a sample the parser refused is
/// refused in turn only when its first bytes announce a known format, and is
/// otherwise an unknown one.
pub open spec fn route_of(b: Seq<u8>, parsed: ObjectKindView, r: ParseRoute) -> bool {
    if wasm_magic(b) {
        r == ParseRoute::WebAssembly
    } else {
        match parsed {
            ObjectKindView::Pe => r == ParseRoute::Pe,
            ObjectKindView::Elf => r == ParseRoute::Elf,
            ObjectKindView::Mach => r == ParseRoute::Mach,
            ObjectKindView::Other => r == ParseRoute::Unknown,
            ObjectKindView::Failed(message) => if appears_known(b) {
                r matches ParseRoute::Refused(AnalysisError::Parse { format, message: m })
                    && format@ == format_hint_text(b) && m@ == message
            } else {
                r == ParseRoute::Unknown
            },
        }
    }
}

pub fn parse_route(bytes: &[u8], parsed: ObjectKind) -> (r: ParseRoute)
    ensures
        route_of(bytes@, parsed@, r),
{
    if bytes.len() >= 4 && bytes[0] == 0x00 && bytes[1] == 0x61 && bytes[2] == 0x73 && bytes[3] == 0x6d {
        return ParseRoute::WebAssembly;
    }
    let hint = format_hint(bytes);
    let known = !(bytes.len() >= 2 && bytes[0] == 0x4d && bytes[1] == 0x5a)
        && !(bytes.len() >= 4 && bytes[0] == 0x7f && bytes[1] == 0x45 && bytes[2] == 0x4c && bytes[3] == 0x46)
        && !is_mach_magic(bytes);
    let known = !known;
    match parsed {
        ObjectKind::Pe => ParseRoute::Pe,
        ObjectKind::Elf => ParseRoute::Elf,
        ObjectKind::Mach => ParseRoute::Mach,
        ObjectKind::Other => ParseRoute::Unknown,
        ObjectKind::Failed(message) => {
            if known {
                ParseRoute::Refused(AnalysisError::Parse { format: hint.to_string(), message })
            } else {
                ParseRoute::Unknown
            }
        },
    }
}

/// Routes a sample: WebAssembly by its magic, otherwise by what the
/// object parser makes of its bytes (see `route_of`).
pub fn route_sample(bytes: &[u8]) -> (r: ParseRoute)
    ensures
        route_of(bytes@, object_kind_of(bytes@), r),
{
    if bytes.len() >= 4 && bytes[0] == 0x00 && bytes[1] == 0x61 && bytes[2] == 0x73 && bytes[3] == 0x6d {
        return ParseRoute::WebAssembly;
    }
    let parsed = object_kind(bytes);
    parse_route(bytes, parsed)
}

/// The report of a sample in no known format: the hexadecimal of its first
/// sixteen bytes (all of them when it is shorter).
pub open spec fn unknown_magic(b: Seq<u8>) -> Seq<char> {
    hex_text(b.subrange(0, if b.len() < 16 { b.len() as int } else { 16 }))
}

pub fn unknown_report(bytes: &[u8]) -> (r: FormatReport)
    ensures
        r matches FormatReport::Unknown { magic } && magic@ == unknown_magic(bytes@),
{
    let n: usize = if bytes.len() < 16 { bytes.len() } else { 16 };
    let head = vstd::slice::slice_subrange(bytes, 0, n);
    FormatReport::Unknown { magic: hex_encode(head) }
}

/// The informational finding that a sample is in no recognized format.
pub fn unknown_format_finding() -> (f: Finding)
    ensures
        f.id@ == "unknown-format"@,
        f.title@ == "Unrecognized binary format"@,
        f.severity == Severity::Info,
        f.confidence == Confidence::High,
        f.rationale@ == "The sample does not match a supported PE, ELF, Mach-O, or WebAssembly signature."@,
        f.evidence@.len() == 0,
{
    Finding {
        id: "unknown-format".to_string(),
        title: "Unrecognized binary format".to_string(),
        severity: Severity::Info,
        confidence: Confidence::High,
        rationale: "The sample does not match a supported PE, ELF, Mach-O, or WebAssembly signature.".to_string(),
        evidence: Vec::new(),
    }
}

} // verus!
