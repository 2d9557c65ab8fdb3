//! Options, environment profiles, network scenarios and report records of
//! the dynamic engine.
use vstd::prelude::*;

use crate::text::{chars_of, string_from_chars, take_chars};

verus! {

#[derive(Debug, Clone, PartialEq, Eq)]
pub struct DynamicOptions {
    pub max_instructions: u64,
    pub max_trace_events: usize,
    pub environment: EnvironmentProfile,
    pub network_scenario: NetworkScenario,
}

#[derive(Debug, Clone, PartialEq, Eq)]
pub struct NetworkScenario {
    pub id: String,
    pub dns: Vec<DnsScenario>,
    pub http: Vec<HttpScenario>,
    pub sockets: Vec<SocketScenario>,
}

#[derive(Debug, Clone, PartialEq, Eq)]
pub struct DnsScenario {
    pub host: String,
    pub address: [u8; 4],
}

#[derive(Debug, Clone, PartialEq, Eq)]
pub struct NetworkHeader {
    pub name: String,
    pub value: String,
}

#[derive(Debug, Clone, PartialEq, Eq)]
pub struct HttpScenario {
    pub url: String,
    pub status: u16,
    pub headers: Vec<NetworkHeader>,
    pub body: Vec<u8>,
    pub redirect_to: Option<String>,
}

#[derive(Debug, Clone, PartialEq, Eq)]
pub struct SocketScenario {
    pub destination: String,
    pub response: Vec<u8>,
}

#[derive(Debug, Clone, PartialEq, Eq)]
pub struct EnvironmentProfile {
    pub id: String,
    pub label: String,
    pub windows_version: String,
    pub computer_name: String,
    pub user_name: String,
    pub locale: String,
    pub timezone_offset_minutes: i32,
    pub memory_mb: u32,
    pub cpu_count: u32,
    pub debugger_present: bool,
    pub network_mode: NetworkMode,
    pub initial_virtual_time_ms: u64,
}

#[derive(Debug, Clone, Copy, PartialEq, Eq, Structural)]
pub enum NetworkMode {
    Online,
    Offline,
    Sinkhole,
}

#[derive(Debug, Clone, Copy, PartialEq, Eq, Structural)]
pub enum ArtifactKind {
    Memory,
    VirtualFile,
    RemoteMemory,
    Configuration,
    NetworkDownload,
}

#[derive(Debug, Clone, PartialEq, Eq)]
pub struct NetworkExchange {
    pub sequence: u64,
    pub protocol: String,
    pub operation: String,
    pub destination: String,
    pub request_headers: Vec<NetworkHeader>,
    pub request_preview: Option<String>,
    pub request_size: u64,
    pub request_sha256: Option<String>,
    pub response_status: Option<u16>,
    pub response_headers: Vec<NetworkHeader>,
    pub response_size: u64,
    pub response_sha256: Option<String>,
    pub artifact_id: Option<String>,
    pub outcome: String,
}

#[derive(Debug, Clone, PartialEq, Eq)]
pub struct ExecutionSnapshot {
    pub sequence: u64,
    pub trigger: String,
    pub instruction: u64,
    pub virtual_time_ms: u64,
    pub registers: SnapshotRegisters,
    pub events: SnapshotEventCounts,
    pub dirty_memory_regions: usize,
    pub state_sha256: String,
}

#[derive(Debug, Clone, PartialEq, Eq)]
pub struct SnapshotRegisters {
    pub rax: u64,
    pub rbx: u64,
    pub rcx: u64,
    pub rdx: u64,
    pub rsi: u64,
    pub rdi: u64,
    pub rbp: u64,
    pub rsp: u64,
    pub r8: u64,
    pub r9: u64,
    pub r10: u64,
    pub r11: u64,
    pub r12: u64,
    pub r13: u64,
    pub r14: u64,
    pub r15: u64,
    pub rip: u64,
    pub rflags: u64,
}

#[derive(Debug, Clone, PartialEq, Eq)]
pub struct SnapshotEventCounts {
    pub api_calls: usize,
    pub processes: usize,
    pub filesystem: usize,
    pub registry: usize,
    pub network: usize,
    pub memory: usize,
    pub injection: usize,
    pub persistence: usize,
    pub provenance_flows: usize,
}

#[derive(Debug, Clone, PartialEq, Eq)]
pub struct SnapshotStats {
    pub count: usize,
    pub truncated: bool,
    pub max_snapshots: usize,
    pub max_dirty_regions: usize,
    pub sampled_bytes_per_region: usize,
}

#[derive(Debug, Clone, PartialEq, Eq)]
pub struct ArtifactOrigin {
    pub api: String,
    pub instruction: u64,
    pub virtual_time_ms: u64,
    pub timeline_sequence: Option<u64>,
    pub trigger: String,
    pub address: Option<u64>,
    pub path: Option<String>,
}

#[derive(Debug, Clone, PartialEq, Eq)]
pub struct ArtifactString {
    pub offset: u64,
    pub encoding: String,
    pub value: String,
}

#[derive(Debug, Clone, PartialEq, Eq)]
pub struct ArtifactIndicator {
    pub kind: String,
    pub value: String,
    pub offset: u64,
}

#[derive(Debug, Clone, PartialEq, Eq)]
pub struct ArtifactStats {
    pub count: usize,
    pub retained_bytes: u64,
    pub truncated: bool,
}

#[derive(Debug, Clone, PartialEq, Eq)]
pub struct PersistenceEvent {
    pub mechanism: String,
    pub operation: String,
    pub target: String,
    pub value: Option<String>,
}

#[derive(Debug, Clone, PartialEq, Eq)]
pub struct ExceptionEvent {
    pub sequence: u64,
    pub code: u32,
    pub name: String,
    pub address: u64,
    pub handler: Option<u64>,
    pub establisher_frame: Option<u64>,
    pub disposition: Option<i32>,
    pub outcome: String,
}

#[derive(Debug, Clone, PartialEq, Eq)]
pub struct ThreadSummary {
    pub tid: u32,
    pub start_address: u64,
    pub parameter: u64,
    pub state: String,
    pub instruction_count: u64,
    pub exit_code: Option<u32>,
}

#[derive(Debug, Clone, PartialEq, Eq)]
pub struct ThreadEvent {
    pub sequence: u64,
    pub tid: u32,
    pub operation: String,
    pub instruction: u64,
    pub virtual_time_ms: u64,
    pub start_address: u64,
    pub parameter: u64,
}

#[derive(Debug, Clone, PartialEq, Eq)]
pub struct SystemEvent {
    pub category: String,
    pub operation: String,
    pub target: String,
    pub detail: String,
    pub result: u64,
}

#[derive(Debug, Clone, PartialEq, Eq)]
pub struct InjectionEvent {
    pub operation: String,
    pub process_handle: u64,
    pub address: u64,
    pub size: u32,
    pub preview: Option<String>,
}

#[derive(Debug, Clone, PartialEq, Eq)]
pub struct TimelineEvent {
    pub sequence: u64,
    pub instruction: u64,
    pub virtual_time_ms: u64,
    pub category: String,
    pub operation: String,
    pub subject: String,
    pub source_api: String,
}

#[derive(Debug, Clone, PartialEq, Eq)]
pub struct ExecutionCoverage {
    pub unique_instruction_addresses: usize,
    pub unique_api_names: usize,
    pub modeled_api_calls: usize,
    pub unmodeled_api_calls: usize,
    pub dynamic_api_resolutions: usize,
}

#[derive(Debug, Clone, PartialEq, Eq)]
pub struct ExecutionDiagnostics {
    pub first_unsupported: Option<InstructionDiagnostic>,
    pub invalid_instruction_count: usize,
}

#[derive(Debug, Clone, PartialEq, Eq)]
pub struct InstructionDiagnostic {
    pub address: u64,
    pub instruction: String,
    pub bytes: String,
    pub nearby_trace: Vec<InstructionEvent>,
}

#[derive(Debug, Clone, PartialEq, Eq)]
pub struct ExecutionProfile {
    pub architecture: String,
    pub operating_system: String,
    pub image_base: u64,
    pub entry_point: u64,
    pub instruction_limit: u64,
    pub trace_limit: usize,
    pub network_mode: String,
    pub environment: EnvironmentProfile,
    pub network_scenario: String,
}

#[derive(Debug, Clone, PartialEq, Eq)]
pub enum Termination {
    ExitProcess { code: u32 },
    ReturnedFromEntryPoint,
    InstructionLimit,
    Halted,
    UnsupportedInstruction { address: u64, instruction: String },
    InvalidInstruction { address: u64 },
    MemoryFault { address: u64, operation: String },
}

#[derive(Debug, Clone, PartialEq, Eq)]
pub struct InstructionEvent {
    pub index: u64,
    pub address: u64,
    pub bytes: String,
    pub text: String,
}

#[derive(Debug, Clone, PartialEq, Eq)]
pub struct ApiEvent {
    pub index: u64,
    pub instruction: u64,
    pub module: String,
    pub name: String,
    pub arguments: Vec<String>,
    pub result: u64,
    pub summary: String,
}

#[derive(Debug, Clone, PartialEq, Eq)]
pub struct ProcessEvent {
    pub operation: String,
    pub command: String,
    pub synthetic_result: String,
}

#[derive(Debug, Clone, PartialEq, Eq)]
pub struct FileEvent {
    pub operation: String,
    pub path: String,
    pub size: Option<u32>,
    pub preview: Option<String>,
}

#[derive(Debug, Clone, PartialEq, Eq)]
pub struct RegistryEvent {
    pub operation: String,
    pub key: String,
    pub value: Option<String>,
}

#[derive(Debug, Clone, PartialEq, Eq)]
pub struct NetworkEvent {
    pub operation: String,
    pub destination: String,
    pub size: Option<u32>,
    pub preview: Option<String>,
    pub synthetic_result: String,
}

#[derive(Debug, Clone, PartialEq, Eq)]
pub struct MemoryEvent {
    pub operation: String,
    pub address: u64,
    pub size: u32,
    pub permissions: String,
}

#[derive(Debug, Clone, PartialEq, Eq)]
pub struct RuntimeFunction {
    pub begin_address: u64,
    pub end_address: u64,
    pub unwind_info_address: u64,
}

#[derive(Debug, Clone, PartialEq, Eq)]
pub struct DynamicFinding {
    pub id: String,
    pub title: String,
    pub severity: DynamicSeverity,
    pub rationale: String,
    pub evidence: Vec<String>,
}

#[derive(Debug, Clone, Copy, PartialEq, Eq, Structural)]
pub enum DynamicSeverity {
    Info,
    Low,
    Medium,
    High,
}

pub const DYNAMIC_SCHEMA_VERSION: u32 = 14;

pub const HARD_MAX_INSTRUCTIONS: u64 = 10000000;

pub const HARD_MAX_TRACE_EVENTS: usize = 5000;

pub const HARD_MAX_API_EVENTS: usize = 100000;

/// Largest total body bytes a network scenario keeps (4 MiB).
pub const MAX_SCENARIO_BYTES: usize = 4194304;

/// Largest body a single scripted response keeps (1 MiB).
pub const MAX_SCENARIO_ITEM_BYTES: usize = 1048576;

pub fn default_max_instructions() -> (n: u64)
    ensures
        n == 1000000,
{
    1000000
}

pub fn default_max_trace_events() -> (n: usize)
    ensures
        n == 2000,
{
    2000
}

/// A Unicode control character (general category Cc).
pub open spec fn is_control_char(c: char) -> bool {
    (c as u32) <= 0x1f || (0x7f <= (c as u32) && (c as u32) <= 0x9f)
}

/// A Unicode White_Space character.
pub open spec fn is_white_char(c: char) -> bool {
    let v = c as u32;
    (0x9 <= v && v <= 0xd) || v == 0x20 || v == 0x85 || v == 0xa0 || v == 0x1680 || (0x2000 <= v && v <= 0x200a)
        || v == 0x2028 || v == 0x2029 || v == 0x202f || v == 0x205f || v == 0x3000
}

fn control_char(c: char) -> (r: bool)
    ensures
        r == is_control_char(c),
{
    let v = c as u32;
    v <= 0x1f || (0x7f <= v && v <= 0x9f)
}

pub fn white_char(c: char) -> (r: bool)
    ensures
        r == is_white_char(c),
{
    let v = c as u32;
    (0x9 <= v && v <= 0xd) || v == 0x20 || v == 0x85 || v == 0xa0 || v == 0x1680 || (0x2000 <= v && v <= 0x200a)
        || v == 0x2028 || v == 0x2029 || v == 0x202f || v == 0x205f || v == 0x3000
}

/// `value` without control characters, cut to `maximum` characters; the
/// fallback when nothing but white space remains.
pub open spec fn bounded_text_spec(value: Seq<char>, maximum: nat, fallback: Seq<char>) -> Seq<char> {
    let kept = take_chars(value.filter(|c: char| !is_control_char(c)), maximum);
    if forall|i: int| 0 <= i < kept.len() ==> is_white_char(#[trigger] kept[i]) {
        fallback
    } else {
        kept
    }
}

/// The characters of `value` that are not control characters, at most
/// `maximum` of them.
pub fn kept_chars(value: &Vec<char>, maximum: usize) -> (r: Vec<char>)
    ensures
        r@ == take_chars(value@.filter(|c: char| !is_control_char(c)), maximum as nat),
{
    let mut kept: Vec<char> = Vec::new();
    let mut i: usize = 0;
    assert(value@.subrange(0, 0).filter(|c: char| !is_control_char(c)) =~= Seq::<char>::empty());
    while i < value.len() && kept.len() < maximum
        invariant
            i <= value@.len(),
            kept@.len() <= maximum,
            kept@ == value@.subrange(0, i as int).filter(|c: char| !is_control_char(c)),
        decreases value@.len() - i,
    {
        let c = value[i];
        proof {
            value@.subrange(0, i as int).lemma_filter_push(c, |c: char| !is_control_char(c));
            assert(value@.subrange(0, i + 1) =~= value@.subrange(0, i as int).push(c));
        }
        if !control_char(c) {
            kept.push(c);
        }
        i = i + 1;
    }
    proof {
        lemma_filter_prefix_take(value@, i as nat, maximum as nat);
    }
    kept
}

/// Drops control characters, keeps at most `maximum` characters, and falls
/// back to `fallback` when only white space is left.
pub fn bounded_text(value: &str, maximum: usize, fallback: &str) -> (r: String)
    ensures
        r@ == bounded_text_spec(value@, maximum as nat, fallback@),
{
    let chars = chars_of(value);
    let kept = kept_chars(&chars, maximum);
    let mut all_white = true;
    let mut k: usize = 0;
    while k < kept.len()
        invariant
            k <= kept@.len(),
            all_white == (forall|j: int| 0 <= j < k ==> is_white_char(#[trigger] kept@[j])),
        decreases kept@.len() - k,
    {
        if !white_char(kept[k]) {
            all_white = false;
        }
        k = k + 1;
    }
    if all_white {
        fallback.to_owned()
    } else {
        string_from_chars(&kept)
    }
}

/// Filtering a prefix that already holds `maximum` kept characters (or the
/// whole sequence) and cutting to `maximum` gives the cut filter of the whole.
proof fn lemma_filter_prefix_take(s: Seq<char>, i: nat, maximum: nat)
    requires
        i <= s.len(),
        s.subrange(0, i as int).filter(|c: char| !is_control_char(c)).len() <= maximum,
        i == s.len() || s.subrange(0, i as int).filter(|c: char| !is_control_char(c)).len() == maximum,
    ensures
        s.subrange(0, i as int).filter(|c: char| !is_control_char(c)) == take_chars(s.filter(|c: char| !is_control_char(c)), maximum),
    decreases s.len() - i,
{
    if i == s.len() {
        assert(s.subrange(0, i as int) =~= s);
    } else {
        let p = s.subrange(0, i as int);
        let f = |c: char| !is_control_char(c);
        lemma_filter_extend(s, i as int);
        let fp = p.filter(f);
        let fs = s.filter(f);
        assert(fs.len() >= fp.len());
        assert(fs.subrange(0, maximum as int) =~= fp);
    }
}

/// The filter of a prefix is a prefix of the filter.
proof fn lemma_filter_extend(s: Seq<char>, i: int)
    requires
        0 <= i <= s.len(),
    ensures
        s.filter(|c: char| !is_control_char(c)).len() >= s.subrange(0, i).filter(|c: char| !is_control_char(c)).len(),
        s.filter(|c: char| !is_control_char(c)).subrange(0, s.subrange(0, i).filter(|c: char| !is_control_char(c)).len() as int)
            == s.subrange(0, i).filter(|c: char| !is_control_char(c)),
    decreases s.len() - i,
{
    let f = |c: char| !is_control_char(c);
    if i < s.len() {
        lemma_filter_extend(s, i + 1);
        s.subrange(0, i).lemma_filter_push(s[i], f);
        assert(s.subrange(0, i + 1) =~= s.subrange(0, i).push(s[i]));
        let a = s.subrange(0, i).filter(f);
        let b = s.subrange(0, i + 1).filter(f);
        let fs = s.filter(f);
        assert(fs.subrange(0, a.len() as int) =~= fs.subrange(0, b.len() as int).subrange(0, a.len() as int));
    } else {
        assert(s.subrange(0, i) =~= s);
        assert(s.filter(f).subrange(0, s.filter(f).len() as int) =~= s.filter(f));
    }
}

impl NetworkMode {
    pub open spec fn description_spec(self) -> Seq<char> {
        match self {
            NetworkMode::Online => "Synthetic online responses; no external access"@,
            NetworkMode::Offline => "Synthetic offline failures; no external access"@,
            NetworkMode::Sinkhole => "Synthetic sinkhole responses; no external access"@,
        }
    }

    pub fn description(self) -> (s: &'static str)
        ensures
            s@ == self.description_spec(),
    {
        match self {
            NetworkMode::Online => "Synthetic online responses; no external access",
            NetworkMode::Offline => "Synthetic offline failures; no external access",
            NetworkMode::Sinkhole => "Synthetic sinkhole responses; no external access",
        }
    }
}

/// An environment profile as plain values.
pub struct ProfileView {
    pub id: Seq<char>,
    pub label: Seq<char>,
    pub windows_version: Seq<char>,
    pub computer_name: Seq<char>,
    pub user_name: Seq<char>,
    pub locale: Seq<char>,
    pub timezone_offset_minutes: i32,
    pub memory_mb: u32,
    pub cpu_count: u32,
    pub debugger_present: bool,
    pub network_mode: NetworkMode,
    pub initial_virtual_time_ms: u64,
}

impl View for EnvironmentProfile {
    type V = ProfileView;

    open spec fn view(&self) -> ProfileView {
        ProfileView {
            id: self.id@,
            label: self.label@,
            windows_version: self.windows_version@,
            computer_name: self.computer_name@,
            user_name: self.user_name@,
            locale: self.locale@,
            timezone_offset_minutes: self.timezone_offset_minutes,
            memory_mb: self.memory_mb,
            cpu_count: self.cpu_count,
            debugger_present: self.debugger_present,
            network_mode: self.network_mode,
            initial_virtual_time_ms: self.initial_virtual_time_ms,
        }
    }
}

pub open spec fn profile_of(
    id: &str,
    label: &str,
    windows_version: &str,
    computer_name: &str,
    user_name: &str,
    locale: &str,
    timezone_offset_minutes: i32,
    memory_mb: u32,
    cpu_count: u32,
    debugger_present: bool,
    network_mode: NetworkMode,
    initial_virtual_time_ms: u64,
) -> ProfileView {
    ProfileView {
        id: id@,
        label: label@,
        windows_version: windows_version@,
        computer_name: computer_name@,
        user_name: user_name@,
        locale: locale@,
        timezone_offset_minutes,
        memory_mb,
        cpu_count,
        debugger_present,
        network_mode,
        initial_virtual_time_ms,
    }
}

pub open spec fn balanced_spec() -> ProfileView {
    profile_of("balanced", "Balanced workstation", "Windows 10 22H2", "AEGIS-WORKSTATION", "analyst", "en-US", -360i32, 8192, 4, false, NetworkMode::Online, 1000000)
}

pub open spec fn legacy_spec() -> ProfileView {
    profile_of("legacy", "Legacy workstation", "Windows 7 SP1", "OFFICE-PC", "user", "en-US", -300i32, 2048, 2, false, NetworkMode::Online, 500000)
}

pub open spec fn hardened_spec() -> ProfileView {
    profile_of("hardened", "Hardened offline host", "Windows 11 24H2", "CORP-WKS-042", "employee", "en-GB", 0, 16384, 8, false, NetworkMode::Offline, 2000000)
}

pub open spec fn analysis_spec() -> ProfileView {
    profile_of("analysis", "Instrumented analysis host", "Windows 10 analysis", "MALWARE-LAB", "sandbox", "en-US", 0, 1024, 1, true, NetworkMode::Sinkhole, 3000000)
}

/// `v` held inside `[lo, hi]`.
pub open spec fn clamp_int(v: int, lo: int, hi: int) -> int {
    if v < lo {
        lo
    } else if v > hi {
        hi
    } else {
        v
    }
}

impl Default for EnvironmentProfile {
    fn default() -> (p: EnvironmentProfile)
        ensures
            p@ == balanced_spec(),
    {
        EnvironmentProfile::balanced()
    }
}

impl EnvironmentProfile {
    pub fn balanced() -> (p: EnvironmentProfile)
        ensures
            p@ == balanced_spec(),
    {
        EnvironmentProfile {
            id: "balanced".to_owned(),
            label: "Balanced workstation".to_owned(),
            windows_version: "Windows 10 22H2".to_owned(),
            computer_name: "AEGIS-WORKSTATION".to_owned(),
            user_name: "analyst".to_owned(),
            locale: "en-US".to_owned(),
            timezone_offset_minutes: -360,
            memory_mb: 8192,
            cpu_count: 4,
            debugger_present: false,
            network_mode: NetworkMode::Online,
            initial_virtual_time_ms: 1000000,
        }
    }

    pub fn legacy() -> (p: EnvironmentProfile)
        ensures
            p@ == legacy_spec(),
    {
        EnvironmentProfile {
            id: "legacy".to_owned(),
            label: "Legacy workstation".to_owned(),
            windows_version: "Windows 7 SP1".to_owned(),
            computer_name: "OFFICE-PC".to_owned(),
            user_name: "user".to_owned(),
            locale: "en-US".to_owned(),
            timezone_offset_minutes: -300,
            memory_mb: 2048,
            cpu_count: 2,
            debugger_present: false,
            network_mode: NetworkMode::Online,
            initial_virtual_time_ms: 500000,
        }
    }

    pub fn hardened() -> (p: EnvironmentProfile)
        ensures
            p@ == hardened_spec(),
    {
        EnvironmentProfile {
            id: "hardened".to_owned(),
            label: "Hardened offline host".to_owned(),
            windows_version: "Windows 11 24H2".to_owned(),
            computer_name: "CORP-WKS-042".to_owned(),
            user_name: "employee".to_owned(),
            locale: "en-GB".to_owned(),
            timezone_offset_minutes: 0,
            memory_mb: 16384,
            cpu_count: 8,
            debugger_present: false,
            network_mode: NetworkMode::Offline,
            initial_virtual_time_ms: 2000000,
        }
    }

    pub fn analysis() -> (p: EnvironmentProfile)
        ensures
            p@ == analysis_spec(),
    {
        EnvironmentProfile {
            id: "analysis".to_owned(),
            label: "Instrumented analysis host".to_owned(),
            windows_version: "Windows 10 analysis".to_owned(),
            computer_name: "MALWARE-LAB".to_owned(),
            user_name: "sandbox".to_owned(),
            locale: "en-US".to_owned(),
            timezone_offset_minutes: 0,
            memory_mb: 1024,
            cpu_count: 1,
            debugger_present: true,
            network_mode: NetworkMode::Sinkhole,
            initial_virtual_time_ms: 3000000,
        }
    }

    /// The four built-in profiles, in the order balanced, legacy, hardened, analysis.
    pub fn presets() -> (r: [EnvironmentProfile; 4])
        ensures
            r@[0]@ == balanced_spec(),
            r@[1]@ == legacy_spec(),
            r@[2]@ == hardened_spec(),
            r@[3]@ == analysis_spec(),
    {
        [
            EnvironmentProfile::balanced(),
            EnvironmentProfile::legacy(),
            EnvironmentProfile::hardened(),
            EnvironmentProfile::analysis(),
        ]
    }

    /// The profile after `bounded`.
    pub open spec fn bounded_view(&self) -> ProfileView {
        ProfileView {
            id: bounded_text_spec(self.id@, 32, "custom"@),
            label: bounded_text_spec(self.label@, 80, "Custom profile"@),
            windows_version: bounded_text_spec(self.windows_version@, 80, "Synthetic Windows"@),
            computer_name: bounded_text_spec(self.computer_name@, 63, "AEGIS-HOST"@),
            user_name: bounded_text_spec(self.user_name@, 64, "analyst"@),
            locale: bounded_text_spec(self.locale@, 16, "en-US"@),
            timezone_offset_minutes: clamp_int(self.timezone_offset_minutes as int, -840, 840) as i32,
            memory_mb: clamp_int(self.memory_mb as int, 256, 131072) as u32,
            cpu_count: clamp_int(self.cpu_count as int, 1, 64) as u32,
            debugger_present: self.debugger_present,
            network_mode: self.network_mode,
            initial_virtual_time_ms: if self.initial_virtual_time_ms < 86400000 { self.initial_virtual_time_ms } else { 86400000 },
        }
    }

    /// Bounds every text field and holds the numbers in their ranges.
    pub fn bounded(self) -> (p: EnvironmentProfile)
        ensures
            p@ == self.bounded_view(),
    {
        let tz = self.timezone_offset_minutes;
        let memory = self.memory_mb;
        let cpus = self.cpu_count;
        EnvironmentProfile {
            id: bounded_text(self.id.as_str(), 32, "custom"),
            label: bounded_text(self.label.as_str(), 80, "Custom profile"),
            windows_version: bounded_text(self.windows_version.as_str(), 80, "Synthetic Windows"),
            computer_name: bounded_text(self.computer_name.as_str(), 63, "AEGIS-HOST"),
            user_name: bounded_text(self.user_name.as_str(), 64, "analyst"),
            locale: bounded_text(self.locale.as_str(), 16, "en-US"),
            timezone_offset_minutes: if tz < -840 { -840 } else if tz > 840 { 840 } else { tz },
            memory_mb: if memory < 256 { 256 } else if memory > 131072 { 131072 } else { memory },
            cpu_count: if cpus < 1 { 1 } else if cpus > 64 { 64 } else { cpus },
            debugger_present: self.debugger_present,
            network_mode: self.network_mode,
            initial_virtual_time_ms: if self.initial_virtual_time_ms < 86400000 { self.initial_virtual_time_ms } else { 86400000 },
        }
    }
}

/// Bytes a body may still keep once `total` bytes are kept: what is left of
/// the scenario budget, at most the per-item limit.
pub open spec fn available_after(total: int) -> int {
    let rest = if total >= MAX_SCENARIO_BYTES { 0 } else { MAX_SCENARIO_BYTES - total };
    if rest < MAX_SCENARIO_ITEM_BYTES {
        rest
    } else {
        MAX_SCENARIO_ITEM_BYTES as int
    }
}

/// Bytes kept by the first `k` bodies of lengths `lens`.
pub open spec fn budget_used(lens: Seq<nat>, k: nat) -> nat
    decreases k,
{
    if k == 0 || k > lens.len() {
        0
    } else {
        let t = budget_used(lens, (k - 1) as nat);
        let a = available_after(t as int);
        t + (if lens[k - 1] < a { lens[k - 1] } else { a as nat })
    }
}

/// Bytes that the body at position `k` keeps.
pub open spec fn kept_length(lens: Seq<nat>, k: nat) -> nat {
    let a = available_after(budget_used(lens, k) as int);
    if lens[k as int] < a {
        lens[k as int]
    } else {
        a as nat
    }
}

/// The header after bounding.
pub open spec fn header_bounded(new: NetworkHeader, old: NetworkHeader) -> bool {
    &&& new.name@ == bounded_text_spec(old.name@, 64, "X-Aegis"@)
    &&& new.value@ == bounded_text_spec(old.value@, 1024, ""@)
}

/// An HTTP route after bounding, keeping `kept` body bytes.
pub open spec fn http_bounded(new: HttpScenario, old: HttpScenario, kept: nat) -> bool {
    &&& new.url@ == bounded_text_spec(old.url@, 2048, "http://invalid.test/"@)
    &&& new.status == old.status
    &&& new.headers@.len() == if old.headers@.len() < 64 { old.headers@.len() } else { 64 }
    &&& forall|j: int| 0 <= j < new.headers@.len() ==> header_bounded(#[trigger] new.headers@[j], old.headers@[j])
    &&& match old.redirect_to {
        Some(r) => new.redirect_to matches Some(n) && n@ == bounded_text_spec(r@, 2048, "http://invalid.test/"@),
        None => new.redirect_to is None,
    }
    &&& new.body@ == old.body@.subrange(0, kept as int)
}

/// At most the first `n` items.
pub open spec fn capped_len(len: nat, n: nat) -> nat {
    if len < n {
        len
    } else {
        n
    }
}

/// The body lengths that share the scenario budget: HTTP bodies, then socket responses.
pub open spec fn body_lengths(http: Seq<HttpScenario>, sockets: Seq<SocketScenario>) -> Seq<nat> {
    Seq::new(http.len() + sockets.len(), |k: int| if k < http.len() { http[k].body@.len() } else { sockets[k - http.len()].response@.len() })
}

fn bounded_header(h: NetworkHeader) -> (r: NetworkHeader)
    ensures
        header_bounded(r, h),
{
    NetworkHeader { name: bounded_text(h.name.as_str(), 64, "X-Aegis"), value: bounded_text(h.value.as_str(), 1024, "") }
}

fn bounded_route(item: HttpScenario, available: usize) -> (r: HttpScenario)
    ensures
        http_bounded(r, item, if item.body@.len() < available { item.body@.len() } else { available as nat }),
{
    let ghost ih = item.headers@;
    let ghost ib = item.body@;
    let mut old_headers = item.headers;
    if old_headers.len() > 64 {
        old_headers.truncate(64);
    }
    let ghost hs = old_headers@;
    assert(forall|k: int| 0 <= k < hs.len() ==> hs[k] == ih[k]);
    let mut headers: Vec<NetworkHeader> = Vec::new();
    let mut j: usize = 0;
    let n = old_headers.len();
    while old_headers.len() > 0
        invariant
            j + old_headers@.len() == hs.len(),
            hs.len() == n,
            old_headers@ == hs.subrange(j as int, hs.len() as int),
            headers@.len() == j,
            forall|k: int| 0 <= k < j ==> header_bounded(#[trigger] headers@[k], hs[k]),
        decreases old_headers@.len(),
    {
        let h = old_headers.remove(0);
        assert(h == hs[j as int]);
        headers.push(bounded_header(h));
        j = j + 1;
    }
    let redirect_to = match &item.redirect_to {
        Some(value) => Some(bounded_text(value.as_str(), 2048, "http://invalid.test/")),
        None => None,
    };
    let mut body = item.body;
    if body.len() > available {
        body.truncate(available);
    }
    assert(body@ =~= ib.subrange(0, if ib.len() < available { ib.len() as int } else { available as int }));
    HttpScenario { url: bounded_text(item.url.as_str(), 2048, "http://invalid.test/"), status: item.status, headers, body, redirect_to }
}

fn available(total: usize) -> (a: usize)
    ensures
        a == available_after(total as int),
{
    let rest = if total >= MAX_SCENARIO_BYTES { 0 } else { MAX_SCENARIO_BYTES - total };
    if rest < MAX_SCENARIO_ITEM_BYTES { rest } else { MAX_SCENARIO_ITEM_BYTES }
}

impl Default for NetworkScenario {
    fn default() -> (s: NetworkScenario)
        ensures
            s.id@ == "safe-default"@,
            s.dns@.len() == 1,
            s.dns@[0].host@ == "artifact.example.test"@,
            s.dns@[0].address == [10u8, 20u8, 30u8, 40u8],
            s.http@.len() == 2,
            s.http@[0].url@ == "http://artifact.example.test/start"@,
            s.http@[0].status == 302,
            s.http@[0].headers@.len() == 1,
            s.http@[0].headers@[0].name@ == "Location"@,
            s.http@[0].headers@[0].value@ == "http://artifact.example.test/payload"@,
            s.http@[0].body@.len() == 0,
            s.http@[0].redirect_to matches Some(r) && r@ == "http://artifact.example.test/payload"@,
            s.http@[1].url@ == "http://artifact.example.test/payload"@,
            s.http@[1].status == 200,
            s.http@[1].headers@.len() == 1,
            s.http@[1].headers@[0].name@ == "Content-Type"@,
            s.http@[1].headers@[0].value@ == "application/octet-stream"@,
            s.http@[1].body@ == "MZ AEGIS_SAFE_NETWORK_DOWNLOAD\0"@.map_values(|c: char| ((c as u32) % 256) as u8),
            s.http@[1].redirect_to is None,
            s.sockets@.len() == 1,
            s.sockets@[0].destination@ == "10.20.30.40:8080"@,
            s.sockets@[0].response@ == "AEGIS_SAFE_SOCKET_RESPONSE"@.map_values(|c: char| ((c as u32) % 256) as u8),
    {
        let download = ascii_bytes("MZ AEGIS_SAFE_NETWORK_DOWNLOAD\0");
        let socket_reply = ascii_bytes("AEGIS_SAFE_SOCKET_RESPONSE");
        NetworkScenario {
            id: "safe-default".to_owned(),
            dns: vec![DnsScenario { host: "artifact.example.test".to_owned(), address: [10, 20, 30, 40] }],
            http: vec![
                HttpScenario {
                    url: "http://artifact.example.test/start".to_owned(),
                    status: 302,
                    headers: vec![NetworkHeader { name: "Location".to_owned(), value: "http://artifact.example.test/payload".to_owned() }],
                    body: Vec::new(),
                    redirect_to: Some("http://artifact.example.test/payload".to_owned()),
                },
                HttpScenario {
                    url: "http://artifact.example.test/payload".to_owned(),
                    status: 200,
                    headers: vec![NetworkHeader { name: "Content-Type".to_owned(), value: "application/octet-stream".to_owned() }],
                    body: download,
                    redirect_to: None,
                },
            ],
            sockets: vec![SocketScenario { destination: "10.20.30.40:8080".to_owned(), response: socket_reply }],
        }
    }
}

/// The bytes of a text whose characters are all ASCII.
fn ascii_bytes(s: &str) -> (b: Vec<u8>)
    ensures
        b@ == s@.map_values(|c: char| ((c as u32) % 256) as u8),
{
    let chars = chars_of(s);
    let mut out: Vec<u8> = Vec::new();
    let mut i: usize = 0;
    while i < chars.len()
        invariant
            chars@ == s@,
            i <= chars@.len(),
            out@ == s@.subrange(0, i as int).map_values(|c: char| ((c as u32) % 256) as u8),
        decreases chars@.len() - i,
    {
        let c = chars[i];
        let v: u32 = c as u32;
        out.push((v % 256) as u8);
        assert(out@ =~= s@.subrange(0, i + 1).map_values(|c: char| ((c as u32) % 256) as u8));
        i = i + 1;
    }
    assert(s@.subrange(0, i as int) =~= s@);
    out
}

/// `r` is `s` bounded as `NetworkScenario::bounded` does.
pub open spec fn scenario_bounded(r: NetworkScenario, s: NetworkScenario) -> bool {
                let dns_n = capped_len(s.dns@.len(), 32);
                let http_n = capped_len(s.http@.len(), 32);
                let sock_n = capped_len(s.sockets@.len(), 32);
                let lens = body_lengths(s.http@.subrange(0, http_n as int), s.sockets@.subrange(0, sock_n as int));
                &&& r.id@ == bounded_text_spec(s.id@, 64, "custom-network"@)
                &&& r.dns@.len() == dns_n
                &&& forall|i: int| 0 <= i < dns_n ==> (#[trigger] r.dns@[i]).host@ == bounded_text_spec(s.dns@[i].host@, 253, "invalid.test"@)
                    && r.dns@[i].address == s.dns@[i].address
                &&& r.http@.len() == http_n
                &&& forall|i: int| 0 <= i < http_n ==> http_bounded(#[trigger] r.http@[i], s.http@[i], kept_length(lens, i as nat))
                &&& r.sockets@.len() == sock_n
                &&& forall|i: int| 0 <= i < sock_n ==> (#[trigger] r.sockets@[i]).destination@ == bounded_text_spec(s.sockets@[i].destination@, 512, "0.0.0.0:0"@)
                    && r.sockets@[i].response@ == s.sockets@[i].response@.subrange(0, kept_length(lens, (http_n + i) as nat) as int)
            }

impl NetworkScenario {
    /// Bounds the scenario: an id of at most 64 characters; at most 32 DNS
    /// answers, routes and sockets; bounded host names, URLs, headers and
    /// destinations; and bodies that share a 4 MiB budget, each at most 1 MiB,
    /// HTTP bodies first.
    pub fn bounded(self) -> (r: NetworkScenario)
        ensures
            scenario_bounded(r, self),
    {
        let ghost old_dns = self.dns@;
        let ghost old_http = self.http@;
        let ghost old_sockets = self.sockets@;
        let mut dns_in = self.dns;
        let mut http_in = self.http;
        let mut sockets_in = self.sockets;
        if dns_in.len() > 32 {
            dns_in.truncate(32);
        }
        if http_in.len() > 32 {
            http_in.truncate(32);
        }
        if sockets_in.len() > 32 {
            sockets_in.truncate(32);
        }
        let ghost hs = http_in@;
        let ghost ss = sockets_in@;
        assert(hs =~= old_http.subrange(0, capped_len(old_http.len(), 32) as int));
        assert(ss =~= old_sockets.subrange(0, capped_len(old_sockets.len(), 32) as int));
        assert(dns_in@ =~= old_dns.subrange(0, capped_len(old_dns.len(), 32) as int));
        let ghost lens = body_lengths(hs, ss);
        let ghost ds = dns_in@;
        let mut dns: Vec<DnsScenario> = Vec::new();
        let mut i: usize = 0;
        let n = dns_in.len();
        while dns_in.len() > 0
            invariant
                i + dns_in@.len() == ds.len(),
                ds.len() == n,
                dns_in@ == ds.subrange(i as int, ds.len() as int),
                dns@.len() == i,
                forall|k: int| 0 <= k < i ==> (#[trigger] dns@[k]).host@ == bounded_text_spec(ds[k].host@, 253, "invalid.test"@)
                    && dns@[k].address == ds[k].address,
            decreases dns_in@.len(),
        {
            let item = dns_in.remove(0);
            assert(item == ds[i as int]);
            dns.push(DnsScenario { host: bounded_text(item.host.as_str(), 253, "invalid.test"), address: item.address });
            i = i + 1;
        }
        let mut total: usize = 0;
        let mut http: Vec<HttpScenario> = Vec::new();
        let mut k: usize = 0;
        let hn = http_in.len();
        assert(lens.len() == hs.len() + ss.len());
        while http_in.len() > 0
            invariant
                k + http_in@.len() == hs.len(),
                hs.len() == hn,
                lens == body_lengths(hs, ss),
                http_in@ == hs.subrange(k as int, hs.len() as int),
                http@.len() == k,
                total == budget_used(lens, k as nat),
                total <= MAX_SCENARIO_BYTES,
                forall|j: int| 0 <= j < k ==> http_bounded(#[trigger] http@[j], hs[j], kept_length(lens, j as nat)),
            decreases http_in@.len(),
        {
            let item = http_in.remove(0);
            assert(item == hs[k as int]);
            let a = available(total);
            assert(lens[k as int] == item.body@.len());
            let kept: usize = if item.body.len() < a { item.body.len() } else { a };
            http.push(bounded_route(item, a));
            total = total + kept;
            k = k + 1;
        }
        let mut sockets: Vec<SocketScenario> = Vec::new();
        let mut m: usize = 0;
        let sn = sockets_in.len();
        while sockets_in.len() > 0
            invariant
                m + sockets_in@.len() == ss.len(),
                ss.len() == sn,
                hs.len() == hn,
                lens == body_lengths(hs, ss),
                sockets_in@ == ss.subrange(m as int, ss.len() as int),
                sockets@.len() == m,
                total == budget_used(lens, (hn + m) as nat),
                total <= MAX_SCENARIO_BYTES,
                forall|j: int| 0 <= j < m ==> (#[trigger] sockets@[j]).destination@ == bounded_text_spec(ss[j].destination@, 512, "0.0.0.0:0"@)
                    && sockets@[j].response@ == ss[j].response@.subrange(0, kept_length(lens, (hn + j) as nat) as int),
            decreases sockets_in@.len(),
        {
            let item = sockets_in.remove(0);
            assert(item == ss[m as int]);
            let a = available(total);
            assert(lens[hn + m] == item.response@.len());
            let ghost ir = item.response@;
            let mut response = item.response;
            let kept: usize = if response.len() < a { response.len() } else { a };
            if response.len() > a {
                response.truncate(a);
            }
            assert(response@ =~= ir.subrange(0, kept as int));
            sockets.push(SocketScenario { destination: bounded_text(item.destination.as_str(), 512, "0.0.0.0:0"), response });
            total = total + kept;
            m = m + 1;
        }
        NetworkScenario { id: bounded_text(self.id.as_str(), 64, "custom-network"), dns, http, sockets }
    }
}

impl Default for DynamicOptions {
    fn default() -> (o: DynamicOptions)
        ensures
            o.max_instructions == 1000000,
            o.max_trace_events == 2000,
            o.environment@ == balanced_spec(),
            o.network_scenario.id@ == "safe-default"@,
    {
        DynamicOptions {
            max_instructions: default_max_instructions(),
            max_trace_events: default_max_trace_events(),
            environment: EnvironmentProfile::default(),
            network_scenario: NetworkScenario::default(),
        }
    }
}

impl DynamicOptions {
    /// Holds the instruction and trace limits in range and bounds the
    /// environment and the network scenario.
    pub fn bounded(self) -> (o: DynamicOptions)
        ensures
            o.max_instructions == clamp_int(self.max_instructions as int, 1, HARD_MAX_INSTRUCTIONS as int),
            o.max_trace_events == clamp_int(self.max_trace_events as int, 1, HARD_MAX_TRACE_EVENTS as int),
            o.environment@ == self.environment.bounded_view(),
            scenario_bounded(o.network_scenario, self.network_scenario),
    {
        let instructions = self.max_instructions;
        let events = self.max_trace_events;
        DynamicOptions {
            max_instructions: if instructions < 1 { 1 } else if instructions > HARD_MAX_INSTRUCTIONS { HARD_MAX_INSTRUCTIONS } else { instructions },
            max_trace_events: if events < 1 { 1 } else if events > HARD_MAX_TRACE_EVENTS { HARD_MAX_TRACE_EVENTS } else { events },
            environment: self.environment.bounded(),
            network_scenario: self.network_scenario.bounded(),
        }
    }
}

} // verus!
