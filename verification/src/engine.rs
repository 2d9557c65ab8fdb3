//! The API layer of the 32-bit x86 emulator: an imported call pops its
//! stdcall arguments, is answered from synthetic Windows state, and is
//! recorded with the events it caused. Nothing reaches the host.
use vstd::prelude::*;

use crate::cpu::{zero_cpu, Cpu};
use crate::dynamic_error::{error_message, hex_address, DynamicError};
use crate::dynamic_model::{
    ApiEvent, DynamicFinding, DynamicSeverity, FileEvent, InstructionEvent, MemoryEvent, NetworkEvent, ProcessEvent,
    RegistryEvent, Termination,
};
use crate::loader::{align_page, align_page_spec, ApiImport, LoadedImage, STACK_TOP};
use crate::memory::{
    any_region, c_string_bytes, is_first, le_bytes, le_value, lemma_first_unique, lemma_value_at, permissions_text, readable,
    value_at, Memory, Permissions, RegionView,
};
use crate::text::{
    ascii_lowercase, chars_equal, chars_of, decimal, hex_lower, lossy_utf8, lower_seq, push_char, push_decimal, push_hex,
    push_hex_padded, push_str,
};

verus! {

/// The return address pushed before the entry point runs; reaching it ends the run.
pub const ENTRY_RETURN_SENTINEL: u32 = 0xfffffff0;

/// Where `VirtualAlloc` places regions the caller lets it choose.
pub const HEAP_BASE: u32 = 0x10000000;

/// The emulated process: CPU, guest memory, import stubs, limits, virtual
/// time and everything recorded so far.
pub struct Machine {
    pub cpu: Cpu,
    pub memory: Memory,
    pub imports: Vec<(u32, ApiImport)>,
    pub max_instructions: u64,
    pub max_trace_events: usize,
    pub instruction_count: u64,
    pub virtual_time_ms: u64,
    pub instructions: Vec<InstructionEvent>,
    pub api_calls: Vec<ApiEvent>,
    pub processes: Vec<ProcessEvent>,
    pub filesystem: Vec<FileEvent>,
    pub registry: Vec<RegistryEvent>,
    pub network: Vec<NetworkEvent>,
    pub memory_events: Vec<MemoryEvent>,
    pub warnings: Vec<String>,
    pub termination: Option<Termination>,
    pub truncated: bool,
    pub next_handle: u32,
    pub heap_next: u32,
}

/// The machine as values.
pub struct MachineView {
    pub cpu: Cpu,
    pub memory: Memory,
    pub imports: Seq<(u32, ApiImport)>,
    pub max_instructions: u64,
    pub max_trace_events: usize,
    pub instruction_count: u64,
    pub virtual_time_ms: u64,
    pub instructions: Seq<InstructionEvent>,
    pub api_calls: Seq<ApiEvent>,
    pub processes: Seq<ProcessEvent>,
    pub filesystem: Seq<FileEvent>,
    pub registry: Seq<RegistryEvent>,
    pub network: Seq<NetworkEvent>,
    pub memory_events: Seq<MemoryEvent>,
    pub warnings: Seq<Seq<char>>,
    pub termination: Option<Termination>,
    pub truncated: bool,
    pub next_handle: u32,
    pub heap_next: u32,
}

impl View for Machine {
    type V = MachineView;

    open spec fn view(&self) -> MachineView {
        MachineView {
            cpu: self.cpu,
            memory: self.memory,
            imports: self.imports@,
            max_instructions: self.max_instructions,
            max_trace_events: self.max_trace_events,
            instruction_count: self.instruction_count,
            virtual_time_ms: self.virtual_time_ms,
            instructions: self.instructions@,
            api_calls: self.api_calls@,
            processes: self.processes@,
            filesystem: self.filesystem@,
            registry: self.registry@,
            network: self.network@,
            memory_events: self.memory_events@,
            warnings: self.warnings@.map_values(|w: String| w@),
            termination: self.termination,
            truncated: self.truncated,
            next_handle: self.next_handle,
            heap_next: self.heap_next,
        }
    }
}

// ----- values and texts -----

/// Argument `i`, or `default` when the call has fewer arguments.
pub open spec fn arg_or(args: Seq<u32>, i: int, default: u32) -> u32 {
    if 0 <= i < args.len() {
        args[i]
    } else {
        default
    }
}

/// Argument `i`, or zero when the call has fewer arguments.
pub open spec fn arg(args: Seq<u32>, i: int) -> u32 {
    arg_or(args, i, 0)
}

/// Argument `i` is present and not zero (an optional output pointer).
pub open spec fn given(args: Seq<u32>, i: int) -> bool {
    0 <= i < args.len() && args[i] != 0
}

fn arg_at(args: &[u32], i: usize, default: u32) -> (r: u32)
    ensures
        r == arg_or(args@, i as int, default),
{
    if i < args.len() {
        args[i]
    } else {
        default
    }
}

/// `a + b`, held at `u32::MAX`.
pub open spec fn sat_add32(a: u32, b: int) -> u32 {
    if a + b > u32::MAX {
        u32::MAX
    } else {
        (a + b) as u32
    }
}

/// `a + b`, held at `u64::MAX`.
pub open spec fn sat_add64(a: u64, b: int) -> u64 {
    if a + b > u64::MAX {
        u64::MAX
    } else {
        (a + b) as u64
    }
}

/// The smaller of `a` and `b`.
pub open spec fn min32(a: u32, b: u32) -> u32 {
    if a < b {
        a
    } else {
        b
    }
}

/// The NUL-terminated string at `address` (at most `max` bytes), decoded.
pub open spec fn c_text(m: Seq<RegionView>, address: u32, max: nat) -> Seq<char> {
    lossy_utf8(c_string_bytes(m, address, max))
}

/// The `length` bytes at `address` if one readable region holds them, else none.
pub open spec fn read_or_empty(m: Seq<RegionView>, address: u32, length: nat) -> Seq<u8> {
    if any_region(m, readable(address as int, length as int)) {
        let i = choose|i: int| is_first(m, readable(address as int, length as int), i);
        m[i].data.subrange(address - m[i].start, address - m[i].start + length)
    } else {
        Seq::empty()
    }
}

/// Some region satisfying `p` is the first one that does.
pub proof fn lemma_some_first(s: Seq<RegionView>, p: spec_fn(RegionView) -> bool)
    requires
        any_region(s, p),
    ensures
        exists|i: int| is_first(s, p, i),
    decreases s.len(),
{
    if p(s[0]) {
        assert(is_first(s, p, 0));
    } else {
        let t = s.subrange(1, s.len() as int);
        let j = choose|j: int| 0 <= j < s.len() && p(#[trigger] s[j]);
        assert(t[j - 1] == s[j]);
        lemma_some_first(t, p);
        let k = choose|k: int| is_first(t, p, k);
        assert forall|m: int| 0 <= m < k + 1 implies !p(#[trigger] s[m]) by {
            if m > 0 {
                assert(s[m] == t[m - 1]);
            }
        }
        assert(is_first(s, p, k + 1));
    }
}

/// The bytes `read_or_empty` gives for a readable range are as many as asked.
proof fn lemma_read_len(m: Seq<RegionView>, address: u32, length: nat)
    requires
        any_region(m, readable(address as int, length as int)),
    ensures
        read_or_empty(m, address, length).len() == length,
{
    lemma_some_first(m, readable(address as int, length as int));
}

fn read_or_nothing(memory: &Memory, address: u32, length: usize) -> (r: &[u8])
    requires
        memory.wf(),
    ensures
        r@ == read_or_empty(memory@, address, length as nat),
{
    match memory.read(address, length) {
        Ok(bytes) => {
            proof {
                let p = readable(address as int, length as int);
                let i = choose|i: int| is_first(memory@, p, i)
                    && bytes@ == memory@[i].data.subrange(address - memory@[i].start, address - memory@[i].start + length);
                let k = choose|k: int| is_first(memory@, p, k);
                lemma_first_unique(memory@, p, i, k);
            }
            bytes
        },
        Err(_) => &[],
    }
}

/// A byte as a preview shows it: printable ASCII as itself, anything else as `.`.
pub open spec fn preview_char(b: u8) -> char {
    if 0x20 <= b && b <= 0x7e {
        b as char
    } else {
        '.'
    }
}

/// The first 128 bytes of `d` as a printable preview.
pub open spec fn preview_text(d: Seq<u8>) -> Seq<char> {
    let n = if d.len() < 128 { d.len() } else { 128 };
    d.subrange(0, n as int).map_values(|b: u8| preview_char(b))
}

/// The first 128 bytes of `data`, printable ASCII kept and everything else
/// shown as `.`.
pub fn printable_preview(data: &[u8]) -> (s: String)
    ensures
        s@ == preview_text(data@),
{
    let n = if data.len() < 128 { data.len() } else { 128 };
    let mut s = String::new();
    let mut i: usize = 0;
    while i < n
        invariant
            i <= n,
            n <= data@.len(),
            n == (if data@.len() < 128 { data@.len() } else { 128 }),
            s@ == data@.subrange(0, i as int).map_values(|b: u8| preview_char(b)),
        decreases n - i,
    {
        let b = data[i];
        let c = if 0x20 <= b && b <= 0x7e { b as char } else { '.' };
        push_char(&mut s, c);
        i = i + 1;
        assert(s@ =~= data@.subrange(0, i as int).map_values(|b: u8| preview_char(b)));
    }
    s
}

/// The permissions a Windows page-protection constant grants (by its low byte).
pub open spec fn protection_spec(value: u32) -> Permissions {
    let v = value % 256;
    if v == 0x10 {
        Permissions { read: false, write: false, execute: true }
    } else if v == 0x20 {
        Permissions { read: true, write: false, execute: true }
    } else if v == 0x40 || v == 0x80 {
        Permissions { read: true, write: true, execute: true }
    } else if v == 0x02 {
        Permissions { read: true, write: false, execute: false }
    } else {
        Permissions { read: true, write: true, execute: false }
    }
}

/// The permissions a Windows page-protection constant grants.
pub fn protection(value: u32) -> (p: Permissions)
    ensures
        p == protection_spec(value),
{
    let v = value & 0xff;
    assert(value & 0xff == value % 256) by (bit_vector);
    if v == 0x10 {
        Permissions { read: false, write: false, execute: true }
    } else if v == 0x20 {
        Permissions { read: true, write: false, execute: true }
    } else if v == 0x40 || v == 0x80 {
        Permissions { read: true, write: true, execute: true }
    } else if v == 0x02 {
        Permissions { read: true, write: false, execute: false }
    } else {
        Permissions { read: true, write: true, execute: false }
    }
}

/// `t` is how `error` met during `operation` ends a run.
pub open spec fn memory_stop(t: Termination, error: DynamicError, operation: Seq<char>) -> bool {
        match error {
            DynamicError::MemoryRead { address } => t matches Termination::MemoryFault { address: a, operation: o }
                && a == address && o@ == operation + ": read"@,
            DynamicError::MemoryWrite { address } => t matches Termination::MemoryFault { address: a, operation: o }
                && a == address && o@ == operation + ": write"@,
            DynamicError::MemoryExecute { address } => t matches Termination::MemoryFault { address: a, operation: o }
                && a == address && o@ == operation + ": execute"@,
            _ => t matches Termination::MemoryFault { address: a, operation: o } && a == 0 && o@ == error_message(error),
        }
}

/// How a failed memory access ends a run: the faulting address and what
/// was being done (`operation: read`, `: write` or `: execute`); any other
/// error is reported at address zero with its message.
pub fn memory_termination(error: DynamicError, operation: &str) -> (t: Termination)
    ensures
        memory_stop(t, error, operation@),
{
    match error {
        DynamicError::MemoryRead { address } => {
            let mut o = operation.to_owned();
            push_str(&mut o, ": read");
            Termination::MemoryFault { address, operation: o }
        },
        DynamicError::MemoryWrite { address } => {
            let mut o = operation.to_owned();
            push_str(&mut o, ": write");
            Termination::MemoryFault { address, operation: o }
        },
        DynamicError::MemoryExecute { address } => {
            let mut o = operation.to_owned();
            push_str(&mut o, ": execute");
            Termination::MemoryFault { address, operation: o }
        },
        _ => Termination::MemoryFault { address: 0, operation: error.message() },
    }
}

/// `0x` and at least eight hexadecimal digits of each argument.
pub open spec fn hex_args_spec(args: Seq<u32>) -> Seq<Seq<char>> {
    args.map_values(|v: u32| hex_address(v as nat))
}

fn hex_text(v: u32) -> (s: String)
    ensures
        s@ == hex_address(v as nat),
{
    let mut s = "0x".to_owned();
    push_hex_padded(&mut s, v as u64, 8);
    s
}

fn hex_args(args: &[u32]) -> (r: Vec<String>)
    ensures
        r@.map_values(|s: String| s@) == hex_args_spec(args@),
{
    let mut r: Vec<String> = Vec::new();
    let mut i: usize = 0;
    while i < args.len()
        invariant
            i <= args@.len(),
            r@.map_values(|s: String| s@) == hex_args_spec(args@.subrange(0, i as int)),
        decreases args@.len() - i,
    {
        let ghost before = r@;
        let h = hex_text(args[i]);
        let ghost hv = h@;
        r.push(h);
        assert(r@.map_values(|s: String| s@) =~= before.map_values(|s: String| s@).push(hv));
        assert(args@.subrange(0, i + 1) =~= args@.subrange(0, i as int).push(args@[i as int]));
        i = i + 1;
        assert(r@.map_values(|s: String| s@) =~= hex_args_spec(args@.subrange(0, i as int)));
    }
    assert(args@.subrange(0, args@.len() as int) =~= args@);
    r
}

fn decimal_text(v: u64) -> (s: String)
    ensures
        s@ == decimal(v as nat),
{
    let mut s = String::new();
    push_decimal(&mut s, v);
    s
}

/// `label` followed by `value` in lower-case hexadecimal without padding.
pub open spec fn handle_label(label: Seq<char>, value: u32) -> Seq<char> {
    label + hex_lower(value as nat)
}

fn labelled_hex(label: &str, value: u32) -> (s: String)
    ensures
        s@ == handle_label(label@, value),
{
    let mut s = label.to_owned();
    push_hex(&mut s, value as u64);
    s
}

/// `"a.b.c.d:port"` read from a `sockaddr_in` at `address`: the port is the
/// big-endian 16-bit value at `address + 2` (zero when unreadable), the
/// octets the four bytes at `address + 4` (zeros when unreadable).
pub open spec fn sockaddr_text(m: Seq<RegionView>, address: u32) -> Seq<char> {
    let pa = vstd::wrapping::u32_specs::wrapping_add(address, 2);
    let raw: nat = if any_region(m, readable(pa as int, 2)) { le_value(read_or_empty(m, pa, 2)) } else { 0 };
    let port = (raw % 256) * 256 + raw / 256;
    let oa = vstd::wrapping::u32_specs::wrapping_add(address, 4);
    let o: Seq<u8> = if any_region(m, readable(oa as int, 4)) { read_or_empty(m, oa, 4) } else { seq![0u8, 0u8, 0u8, 0u8] };
    decimal(o[0] as nat) + "."@ + decimal(o[1] as nat) + "."@ + decimal(o[2] as nat) + "."@ + decimal(o[3] as nat) + ":"@ + decimal(port)
}

// ----- events -----

/// An optional text as values.
pub open spec fn text_opt(o: Option<String>) -> Option<Seq<char>> {
    match o {
        Some(s) => Some(s@),
        None => None,
    }
}

/// `after` is `before` with one more item at the end.
pub open spec fn appended<T>(before: Seq<T>, after: Seq<T>) -> bool {
    after.len() == before.len() + 1 && after.drop_last() == before
}

pub open spec fn file_event_is(e: FileEvent, operation: Seq<char>, path: Seq<char>, size: Option<u32>, preview: Option<Seq<char>>) -> bool {
    e.operation@ == operation && e.path@ == path && e.size == size && text_opt(e.preview) == preview
}

pub open spec fn registry_event_is(e: RegistryEvent, operation: Seq<char>, key: Seq<char>, value: Option<Seq<char>>) -> bool {
    e.operation@ == operation && e.key@ == key && text_opt(e.value) == value
}

pub open spec fn network_event_is(
    e: NetworkEvent,
    operation: Seq<char>,
    destination: Seq<char>,
    size: Option<u32>,
    preview: Option<Seq<char>>,
    synthetic_result: Seq<char>,
) -> bool {
    e.operation@ == operation && e.destination@ == destination && e.size == size && text_opt(e.preview) == preview
        && e.synthetic_result@ == synthetic_result
}

pub open spec fn process_event_is(e: ProcessEvent, operation: Seq<char>, command: Seq<char>, synthetic_result: Seq<char>) -> bool {
    e.operation@ == operation && e.command@ == command && e.synthetic_result@ == synthetic_result
}

pub open spec fn memory_event_is(e: MemoryEvent, operation: Seq<char>, address: u64, size: u32, permissions: Seq<char>) -> bool {
    e.operation@ == operation && e.address == address && e.size == size && e.permissions@ == permissions
}

/// What an emulated API hands back: the result in EAX, a summary, and the
/// arguments as displayed.
pub open spec fn out_view(r: (u32, String, Vec<String>)) -> (u32, Seq<char>, Seq<Seq<char>>) {
    (r.0, r.1@, r.2@.map_values(|s: String| s@))
}

/// Memory after a 32-bit write whose result is not looked at.
pub open spec fn wrote_u32(before: Memory, after: Memory, address: u32, value: u32) -> bool {
    &&& after.wf()
    &&& after.allocated_bytes() == before.allocated_bytes()
    &&& exists|r: Result<(), DynamicError>| Memory::write_outcome(before@, after@, address, le_bytes(value as nat, 4), false, r)
}

// ----- the modeled APIs -----

pub open spec fn exit_process_outcome(old: MachineView, new: MachineView, args: Seq<u32>, out: (u32, Seq<char>, Seq<Seq<char>>)) -> bool {
    let code = arg(args, 0);
    &&& new == MachineView { termination: Some(Termination::ExitProcess { code }), ..old }
    &&& out == (0u32, "Process exited with code "@ + decimal(code as nat), seq![decimal(code as nat)])
}

pub open spec fn sleep_outcome(old: MachineView, new: MachineView, args: Seq<u32>, out: (u32, Seq<char>, Seq<Seq<char>>)) -> bool {
    let ms = min32(arg(args, 0), 86400000);
    &&& new == MachineView { virtual_time_ms: sat_add64(old.virtual_time_ms, ms as int), ..old }
    &&& out == (0u32, "Advanced virtual clock by "@ + decimal(ms as nat) + " ms"@, seq![decimal(ms as nat)])
}

/// Sleeping advances the virtual clock by the requested time, capped at one
/// day and saturating, and returns 0; a tick count read right after gives
/// the advanced clock and changes nothing; neither call ends the run.
pub proof fn law_sleep_then_tick(
    m0: MachineView,
    m1: MachineView,
    m2: MachineView,
    ms: u32,
    out1: (u32, Seq<char>, Seq<Seq<char>>),
    out2: (u32, Seq<char>, Seq<Seq<char>>),
)
    requires
        api_outcome(m0, m1, "sleep"@, seq![ms], out1),
        api_outcome(m1, m2, "gettickcount"@, Seq::<u32>::empty(), out2),
    ensures
        m1.virtual_time_ms == sat_add64(m0.virtual_time_ms, min32(ms, 86400000) as int),
        out1.0 == 0,
        out1.2 == seq![decimal(min32(ms, 86400000) as nat)],
        out2.0 == m1.virtual_time_ms as u32,
        m2 == m1,
        m1.termination == m0.termination && m2.termination == m0.termination,
{
    reveal(api_outcome);
    reveal_strlit("sleep");
    reveal_strlit("exitprocess");
    reveal_strlit("gettickcount");
    assert("sleep"@.len() == 5 && "exitprocess"@.len() == 11 && "gettickcount"@.len() == 12);
    assert(arg(seq![ms], 0) == ms);
}

pub open spec fn winexec_outcome(old: MachineView, new: MachineView, args: Seq<u32>, out: (u32, Seq<char>, Seq<Seq<char>>)) -> bool {
    let command = c_text(old.memory@, arg(args, 0), 2048);
    &&& new == MachineView { processes: new.processes, ..old }
    &&& appended(old.processes, new.processes)
    &&& process_event_is(new.processes.last(), "execute"@, command, "Captured only; no host process created"@)
    &&& out == (33u32, "Captured process execution request: "@ + command, seq![command, decimal(arg(args, 1) as nat)])
}

pub open spec fn create_file_outcome(old: MachineView, new: MachineView, args: Seq<u32>, out: (u32, Seq<char>, Seq<Seq<char>>)) -> bool {
    let path = c_text(old.memory@, arg(args, 0), 1024);
    &&& new == MachineView { filesystem: new.filesystem, next_handle: sat_add32(old.next_handle, 1), ..old }
    &&& appended(old.filesystem, new.filesystem)
    &&& file_event_is(new.filesystem.last(), "open"@, path, None, None)
    &&& out == (old.next_handle, "Opened virtual file "@ + path, seq![path])
}

pub open spec fn write_file_outcome(old: MachineView, new: MachineView, args: Seq<u32>, out: (u32, Seq<char>, Seq<Seq<char>>)) -> bool {
    let length = min32(arg(args, 2), 65536);
    let preview = preview_text(read_or_empty(old.memory@, arg(args, 1), length as nat));
    let label = handle_label("handle:0x"@, arg(args, 0));
    &&& new == MachineView { memory: new.memory, filesystem: new.filesystem, ..old }
    &&& if given(args, 3) { wrote_u32(old.memory, new.memory, args[3], length) } else { new.memory == old.memory }
    &&& appended(old.filesystem, new.filesystem)
    &&& file_event_is(new.filesystem.last(), "write"@, label, Some(length), Some(preview))
    &&& out == (1u32, "Captured "@ + decimal(length as nat) + " bytes written to a virtual file"@, seq![label, preview])
}

pub open spec fn delete_file_outcome(old: MachineView, new: MachineView, args: Seq<u32>, out: (u32, Seq<char>, Seq<Seq<char>>)) -> bool {
    let path = c_text(old.memory@, arg(args, 0), 1024);
    &&& new == MachineView { filesystem: new.filesystem, ..old }
    &&& appended(old.filesystem, new.filesystem)
    &&& file_event_is(new.filesystem.last(), "delete"@, path, None, None)
    &&& out == (1u32, "Deleted virtual file "@ + path, seq![path])
}

pub open spec fn reg_open_outcome(old: MachineView, new: MachineView, args: Seq<u32>, out: (u32, Seq<char>, Seq<Seq<char>>)) -> bool {
    let key = c_text(old.memory@, arg(args, 1), 1024);
    &&& new == MachineView { memory: new.memory, registry: new.registry, next_handle: sat_add32(old.next_handle, 1), ..old }
    &&& if given(args, 4) { wrote_u32(old.memory, new.memory, args[4], old.next_handle) } else { new.memory == old.memory }
    &&& appended(old.registry, new.registry)
    &&& registry_event_is(new.registry.last(), "open"@, key, None)
    &&& out == (0u32, "Opened synthetic registry key "@ + key, seq![key])
}

pub open spec fn reg_set_outcome(old: MachineView, new: MachineView, args: Seq<u32>, out: (u32, Seq<char>, Seq<Seq<char>>)) -> bool {
    let name = c_text(old.memory@, arg(args, 1), 512);
    let length = min32(arg(args, 5), 4096);
    let preview = preview_text(read_or_empty(old.memory@, arg(args, 4), length as nat));
    &&& new == MachineView { registry: new.registry, ..old }
    &&& appended(old.registry, new.registry)
    &&& registry_event_is(new.registry.last(), "set"@, handle_label("handle:0x"@, arg(args, 0)) + "\\"@ + name, Some(preview))
    &&& out == (0u32, "Set synthetic registry value "@ + name, seq![name, preview])
}

pub open spec fn internet_open_outcome(old: MachineView, new: MachineView, args: Seq<u32>, out: (u32, Seq<char>, Seq<Seq<char>>)) -> bool {
    let agent = c_text(old.memory@, arg(args, 0), 512);
    &&& new == MachineView { next_handle: sat_add32(old.next_handle, 1), ..old }
    &&& out == (old.next_handle, "Created synthetic internet session for "@ + agent, seq![agent])
}

pub open spec fn open_url_outcome(old: MachineView, new: MachineView, args: Seq<u32>, out: (u32, Seq<char>, Seq<Seq<char>>)) -> bool {
    let url = c_text(old.memory@, arg(args, 1), 2048);
    &&& new == MachineView { network: new.network, next_handle: sat_add32(old.next_handle, 1), ..old }
    &&& appended(old.network, new.network)
    &&& network_event_is(new.network.last(), "http_open"@, url, None, None, "HTTP 404 from local sink"@)
    &&& out == (old.next_handle, "Captured HTTP request to "@ + url, seq![url])
}

pub open spec fn connect_outcome(old: MachineView, new: MachineView, args: Seq<u32>, out: (u32, Seq<char>, Seq<Seq<char>>)) -> bool {
    let destination = sockaddr_text(old.memory@, arg(args, 1));
    &&& new == MachineView { network: new.network, ..old }
    &&& appended(old.network, new.network)
    &&& network_event_is(new.network.last(), "connect"@, destination, None, None, "connected to local sink"@)
    &&& out == (0u32, "Captured connection to "@ + destination, seq![destination])
}

pub open spec fn send_outcome(old: MachineView, new: MachineView, args: Seq<u32>, out: (u32, Seq<char>, Seq<Seq<char>>)) -> bool {
    let length = min32(arg(args, 2), 65536);
    let preview = preview_text(read_or_empty(old.memory@, arg(args, 1), length as nat));
    &&& new == MachineView { network: new.network, ..old }
    &&& appended(old.network, new.network)
    &&& network_event_is(new.network.last(), "send"@, handle_label("socket:0x"@, arg(args, 0)), Some(length), Some(preview), "accepted by local sink"@)
    &&& out == (length, "Captured "@ + decimal(length as nat) + " outbound bytes"@, seq![preview])
}

pub open spec fn unmodeled_outcome(old: MachineView, new: MachineView, name: Seq<char>, args: Seq<u32>, out: (u32, Seq<char>, Seq<Seq<char>>)) -> bool {
    &&& new == MachineView { warnings: old.warnings.push(name + " returned a conservative synthetic failure"@), ..old }
    &&& out == (0u32, "Unimplemented API "@ + name + " returned 0"@, hex_args_spec(args))
}

impl Machine {
    /// The machine is well formed: its guest memory is.
    pub open spec fn wf(&self) -> bool {
        self.memory.wf()
    }

    /// Hands out the next synthetic handle.
    pub fn allocate_handle(&mut self) -> (h: u32)
        ensures
            h == old(self).next_handle,
            final(self)@ == (MachineView { next_handle: sat_add32(old(self).next_handle, 1), ..old(self)@ }),
    {
        let handle = self.next_handle;
        self.next_handle = self.next_handle.saturating_add(1);
        handle
    }

    /// The `"a.b.c.d:port"` text of the `sockaddr_in` at `address`.
    pub fn read_sockaddr(&self, address: u32) -> (s: String)
        requires
            self.wf(),
        ensures
            s@ == sockaddr_text(self.memory@, address),
    {
        let pa = address.wrapping_add(2);
        let port_bytes = read_or_nothing(&self.memory, pa, 2);
        let raw: u32 = if port_bytes.len() == 2 { port_bytes[0] as u32 + 256 * (port_bytes[1] as u32) } else { 0 };
        proof {
            if any_region(self.memory@, readable(pa as int, 2)) {
                lemma_read_len(self.memory@, pa, 2);
                crate::memory::lemma_le_value_2(port_bytes@);
            } else {
                assert(port_bytes@.len() == 0);
            }
        }
        let port: u32 = (raw % 256) * 256 + raw / 256;
        let oa = address.wrapping_add(4);
        let found = read_or_nothing(&self.memory, oa, 4);
        let octets: [u8; 4] = if found.len() == 4 { [found[0], found[1], found[2], found[3]] } else { [0, 0, 0, 0] };
        proof {
            if any_region(self.memory@, readable(oa as int, 4)) {
                lemma_read_len(self.memory@, oa, 4);
            }
        }
        let mut s = String::new();
        push_decimal(&mut s, octets[0] as u64);
        push_char(&mut s, '.');
        push_decimal(&mut s, octets[1] as u64);
        push_char(&mut s, '.');
        push_decimal(&mut s, octets[2] as u64);
        push_char(&mut s, '.');
        push_decimal(&mut s, octets[3] as u64);
        push_char(&mut s, ':');
        push_decimal(&mut s, port as u64);
        proof {
            reveal_strlit(".");
            reveal_strlit(":");
        }
        s
    }

    fn api_exit_process(&mut self, args: &[u32]) -> (r: (u32, String, Vec<String>))
        ensures
            exit_process_outcome(old(self)@, final(self)@, args@, out_view(r)),
    {
        let code = arg_at(args, 0, 0);
        self.termination = Some(Termination::ExitProcess { code });
        let mut summary = "Process exited with code ".to_owned();
        push_decimal(&mut summary, code as u64);
        let shown = vec![decimal_text(code as u64)];
        assert(shown@.map_values(|s: String| s@) =~= seq![decimal(code as nat)]);
        (0, summary, shown)
    }

    fn api_sleep(&mut self, args: &[u32]) -> (r: (u32, String, Vec<String>))
        ensures
            sleep_outcome(old(self)@, final(self)@, args@, out_view(r)),
    {
        let requested = arg_at(args, 0, 0);
        let ms = if requested < 86400000 { requested } else { 86400000 };
        self.virtual_time_ms = self.virtual_time_ms.saturating_add(ms as u64);
        let mut summary = "Advanced virtual clock by ".to_owned();
        push_decimal(&mut summary, ms as u64);
        push_str(&mut summary, " ms");
        let shown = vec![decimal_text(ms as u64)];
        assert(shown@.map_values(|s: String| s@) =~= seq![decimal(ms as nat)]);
        (0, summary, shown)
    }

    fn api_winexec(&mut self, args: &[u32]) -> (r: (u32, String, Vec<String>))
        requires
            old(self).wf(),
        ensures
            winexec_outcome(old(self)@, final(self)@, args@, out_view(r)),
    {
        let command = self.memory.read_c_string(arg_at(args, 0, 0), 2048);
        let ghost before = self.processes@;
        self.processes.push(ProcessEvent {
            operation: "execute".to_owned(),
            command: command.clone(),
            synthetic_result: "Captured only; no host process created".to_owned(),
        });
        assert(self.processes@.drop_last() =~= before);
        let mut summary = "Captured process execution request: ".to_owned();
        push_str(&mut summary, command.as_str());
        let ghost cv = command@;
        let shown = vec![command, decimal_text(arg_at(args, 1, 0) as u64)];
        assert(shown@.map_values(|s: String| s@) =~= seq![cv, decimal(arg(args@, 1) as nat)]);
        (33, summary, shown)
    }
}

impl Machine {
    fn api_create_file(&mut self, args: &[u32]) -> (r: (u32, String, Vec<String>))
        requires
            old(self).wf(),
        ensures
            create_file_outcome(old(self)@, final(self)@, args@, out_view(r)),
    {
        let path = self.memory.read_c_string(arg_at(args, 0, 0), 1024);
        let handle = self.allocate_handle();
        let ghost before = self.filesystem@;
        self.filesystem.push(FileEvent { operation: "open".to_owned(), path: path.clone(), size: None, preview: None });
        assert(self.filesystem@.drop_last() =~= before);
        let mut summary = "Opened virtual file ".to_owned();
        push_str(&mut summary, path.as_str());
        let ghost pv = path@;
        let shown = vec![path];
        assert(shown@.map_values(|s: String| s@) =~= seq![pv]);
        (handle, summary, shown)
    }

    fn api_write_file(&mut self, args: &[u32]) -> (r: (u32, String, Vec<String>))
        requires
            old(self).wf(),
        ensures
            write_file_outcome(old(self)@, final(self)@, args@, out_view(r)),
    {
        let requested = arg_at(args, 2, 0);
        let length = if requested < 65536 { requested } else { 65536 };
        let data = read_or_nothing(&self.memory, arg_at(args, 1, 0), length as usize);
        let preview = printable_preview(data);
        if args.len() > 3 && args[3] != 0 {
            let _ = self.memory.write_u32(args[3], length);
        }
        let label = labelled_hex("handle:0x", arg_at(args, 0, 0));
        let ghost before = self.filesystem@;
        self.filesystem.push(FileEvent {
            operation: "write".to_owned(),
            path: label.clone(),
            size: Some(length),
            preview: Some(preview.clone()),
        });
        assert(self.filesystem@.drop_last() =~= before);
        let mut summary = "Captured ".to_owned();
        push_decimal(&mut summary, length as u64);
        push_str(&mut summary, " bytes written to a virtual file");
        let ghost lv = label@;
        let ghost pv = preview@;
        let shown = vec![label, preview];
        assert(shown@.map_values(|s: String| s@) =~= seq![lv, pv]);
        (1, summary, shown)
    }

    fn api_delete_file(&mut self, args: &[u32]) -> (r: (u32, String, Vec<String>))
        requires
            old(self).wf(),
        ensures
            delete_file_outcome(old(self)@, final(self)@, args@, out_view(r)),
    {
        let path = self.memory.read_c_string(arg_at(args, 0, 0), 1024);
        let ghost before = self.filesystem@;
        self.filesystem.push(FileEvent { operation: "delete".to_owned(), path: path.clone(), size: None, preview: None });
        assert(self.filesystem@.drop_last() =~= before);
        let mut summary = "Deleted virtual file ".to_owned();
        push_str(&mut summary, path.as_str());
        let ghost pv = path@;
        let shown = vec![path];
        assert(shown@.map_values(|s: String| s@) =~= seq![pv]);
        (1, summary, shown)
    }

    fn api_reg_open(&mut self, args: &[u32]) -> (r: (u32, String, Vec<String>))
        requires
            old(self).wf(),
        ensures
            reg_open_outcome(old(self)@, final(self)@, args@, out_view(r)),
    {
        let key = self.memory.read_c_string(arg_at(args, 1, 0), 1024);
        let handle = self.allocate_handle();
        if args.len() > 4 && args[4] != 0 {
            let _ = self.memory.write_u32(args[4], handle);
        }
        let ghost before = self.registry@;
        self.registry.push(RegistryEvent { operation: "open".to_owned(), key: key.clone(), value: None });
        assert(self.registry@.drop_last() =~= before);
        let mut summary = "Opened synthetic registry key ".to_owned();
        push_str(&mut summary, key.as_str());
        let ghost kv = key@;
        let shown = vec![key];
        assert(shown@.map_values(|s: String| s@) =~= seq![kv]);
        (0, summary, shown)
    }

    fn api_reg_set(&mut self, args: &[u32]) -> (r: (u32, String, Vec<String>))
        requires
            old(self).wf(),
        ensures
            reg_set_outcome(old(self)@, final(self)@, args@, out_view(r)),
    {
        let name = self.memory.read_c_string(arg_at(args, 1, 0), 512);
        let requested = arg_at(args, 5, 0);
        let length = if requested < 4096 { requested } else { 4096 };
        let data = read_or_nothing(&self.memory, arg_at(args, 4, 0), length as usize);
        let preview = printable_preview(data);
        let mut key = labelled_hex("handle:0x", arg_at(args, 0, 0));
        push_str(&mut key, "\\");
        push_str(&mut key, name.as_str());
        let ghost before = self.registry@;
        self.registry.push(RegistryEvent { operation: "set".to_owned(), key, value: Some(preview.clone()) });
        assert(self.registry@.drop_last() =~= before);
        let mut summary = "Set synthetic registry value ".to_owned();
        push_str(&mut summary, name.as_str());
        let ghost nv = name@;
        let ghost pv = preview@;
        let shown = vec![name, preview];
        assert(shown@.map_values(|s: String| s@) =~= seq![nv, pv]);
        (0, summary, shown)
    }

    fn api_internet_open(&mut self, args: &[u32]) -> (r: (u32, String, Vec<String>))
        requires
            old(self).wf(),
        ensures
            internet_open_outcome(old(self)@, final(self)@, args@, out_view(r)),
    {
        let agent = self.memory.read_c_string(arg_at(args, 0, 0), 512);
        let handle = self.allocate_handle();
        let mut summary = "Created synthetic internet session for ".to_owned();
        push_str(&mut summary, agent.as_str());
        let ghost av = agent@;
        let shown = vec![agent];
        assert(shown@.map_values(|s: String| s@) =~= seq![av]);
        (handle, summary, shown)
    }

    fn api_open_url(&mut self, args: &[u32]) -> (r: (u32, String, Vec<String>))
        requires
            old(self).wf(),
        ensures
            open_url_outcome(old(self)@, final(self)@, args@, out_view(r)),
    {
        let url = self.memory.read_c_string(arg_at(args, 1, 0), 2048);
        let ghost before = self.network@;
        self.network.push(NetworkEvent {
            operation: "http_open".to_owned(),
            destination: url.clone(),
            size: None,
            preview: None,
            synthetic_result: "HTTP 404 from local sink".to_owned(),
        });
        assert(self.network@.drop_last() =~= before);
        let handle = self.allocate_handle();
        let mut summary = "Captured HTTP request to ".to_owned();
        push_str(&mut summary, url.as_str());
        let ghost uv = url@;
        let shown = vec![url];
        assert(shown@.map_values(|s: String| s@) =~= seq![uv]);
        (handle, summary, shown)
    }

    fn api_connect(&mut self, args: &[u32]) -> (r: (u32, String, Vec<String>))
        requires
            old(self).wf(),
        ensures
            connect_outcome(old(self)@, final(self)@, args@, out_view(r)),
    {
        let destination = self.read_sockaddr(arg_at(args, 1, 0));
        let ghost before = self.network@;
        self.network.push(NetworkEvent {
            operation: "connect".to_owned(),
            destination: destination.clone(),
            size: None,
            preview: None,
            synthetic_result: "connected to local sink".to_owned(),
        });
        assert(self.network@.drop_last() =~= before);
        let mut summary = "Captured connection to ".to_owned();
        push_str(&mut summary, destination.as_str());
        let ghost dv = destination@;
        let shown = vec![destination];
        assert(shown@.map_values(|s: String| s@) =~= seq![dv]);
        (0, summary, shown)
    }

    fn api_send(&mut self, args: &[u32]) -> (r: (u32, String, Vec<String>))
        requires
            old(self).wf(),
        ensures
            send_outcome(old(self)@, final(self)@, args@, out_view(r)),
    {
        let requested = arg_at(args, 2, 0);
        let length = if requested < 65536 { requested } else { 65536 };
        let data = read_or_nothing(&self.memory, arg_at(args, 1, 0), length as usize);
        let preview = printable_preview(data);
        let ghost before = self.network@;
        self.network.push(NetworkEvent {
            operation: "send".to_owned(),
            destination: labelled_hex("socket:0x", arg_at(args, 0, 0)),
            size: Some(length),
            preview: Some(preview.clone()),
            synthetic_result: "accepted by local sink".to_owned(),
        });
        assert(self.network@.drop_last() =~= before);
        let mut summary = "Captured ".to_owned();
        push_decimal(&mut summary, length as u64);
        push_str(&mut summary, " outbound bytes");
        let ghost pv = preview@;
        let shown = vec![preview];
        assert(shown@.map_values(|s: String| s@) =~= seq![pv]);
        (length, summary, shown)
    }

    fn api_unmodeled(&mut self, name: &str, args: &[u32]) -> (r: (u32, String, Vec<String>))
        ensures
            unmodeled_outcome(old(self)@, final(self)@, name@, args@, out_view(r)),
    {
        let mut warning = name.to_owned();
        push_str(&mut warning, " returned a conservative synthetic failure");
        let ghost wv = warning@;
        let ghost before = self.warnings@;
        self.warnings.push(warning);
        assert(self.warnings@.map_values(|w: String| w@) =~= before.map_values(|w: String| w@).push(wv));
        let mut summary = "Unimplemented API ".to_owned();
        push_str(&mut summary, name);
        push_str(&mut summary, " returned 0");
        (0, summary, hex_args(args))
    }
}

/// The size `VirtualAlloc` maps: at least one page, rounded up to whole pages.
pub open spec fn alloc_size(args: Seq<u32>) -> usize {
    let requested = arg(args, 1);
    align_page_spec((if requested < 0x1000 { 0x1000u32 } else { requested }) as usize)
}

/// The mapping `VirtualAlloc` asks for, and its result.
pub open spec fn alloc_mapped(old: MachineView, new: MachineView, args: Seq<u32>, r: Result<(), DynamicError>) -> bool {
    let requested = arg(args, 0);
    let address = if requested == 0 { old.heap_next } else { requested };
    Memory::map_outcome(old.memory, new.memory, address, alloc_size(args), protection_spec(arg_or(args, 3, 4)), "VirtualAlloc"@, r)
}

/// `VirtualAlloc`: maps the rounded size at the requested address, or at
/// the next heap address when none is requested (the heap then moves past
/// it and a guard page); records the allocation, or a warning when mapping
/// fails.
pub open spec fn virtual_alloc_outcome(old: MachineView, new: MachineView, args: Seq<u32>, out: (u32, Seq<char>, Seq<Seq<char>>)) -> bool {
    let requested = arg(args, 0);
    let size = alloc_size(args);
    let address = if requested == 0 { old.heap_next } else { requested };
    let heap = if requested == 0 {
        sat_add32(old.heap_next, vstd::wrapping::u32_specs::wrapping_add(size as u32, 0x1000) as int)
    } else {
        old.heap_next
    };
    let permissions = protection_spec(arg_or(args, 3, 4));
    exists|r: Result<(), DynamicError>| {
        &&& #[trigger] alloc_mapped(old, new, args, r)
        &&& match r {
            Ok(_) => {
                &&& new == MachineView { memory: new.memory, heap_next: heap, memory_events: new.memory_events, ..old }
                &&& appended(old.memory_events, new.memory_events)
                &&& memory_event_is(new.memory_events.last(), "allocate"@, address as u64, size as u32, permissions_text(permissions))
                &&& out == (address, "Allocated "@ + decimal(size as nat) + " virtual bytes"@, seq![
                    hex_address(address as nat),
                    decimal(size as nat),
                    permissions_text(permissions),
                ])
            },
            Err(e) => {
                &&& new == MachineView { memory: new.memory, heap_next: heap, warnings: old.warnings.push(error_message(e)), ..old }
                &&& out == (0u32, "Virtual allocation failed safely"@, seq![decimal(size as nat)])
            },
        }
    }
}

/// The writes and the permission change `VirtualProtect` makes, through
/// the memory between them, and the change's result.
pub open spec fn protect_changed(old: MachineView, mid: Memory, new: MachineView, args: Seq<u32>, r: Result<(), DynamicError>) -> bool {
    let size = arg(args, 1) as usize;
    let span: usize = if size < 1 { 1 } else { size };
    &&& (if given(args, 3) { wrote_u32(old.memory, mid, args[3], 4) } else { mid == old.memory })
    &&& Memory::permissions_outcome(mid, new.memory, arg(args, 0), span, protection_spec(arg_or(args, 2, 4)), r)
}

/// `VirtualProtect`: stores the old protection (read-write) through the
/// optional fourth argument, then changes the permissions of the region
/// holding the range (at least one byte); records the change, or a warning
/// when no region holds it.
pub open spec fn virtual_protect_outcome(old: MachineView, new: MachineView, args: Seq<u32>, out: (u32, Seq<char>, Seq<Seq<char>>)) -> bool {
    let address = arg(args, 0);
    let size = arg(args, 1) as usize;
    let span: usize = if size < 1 { 1 } else { size };
    let permissions = protection_spec(arg_or(args, 2, 4));
    exists|mid: Memory, r: Result<(), DynamicError>| {
        &&& #[trigger] protect_changed(old, mid, new, args, r)
        &&& match r {
            Ok(_) => {
                &&& new == MachineView { memory: new.memory, memory_events: new.memory_events, ..old }
                &&& appended(old.memory_events, new.memory_events)
                &&& memory_event_is(new.memory_events.last(), "protect"@, address as u64, size as u32, permissions_text(permissions))
                &&& out == (1u32, "Changed virtual memory protection to "@ + permissions_text(permissions), seq![
                    hex_address(address as nat),
                    decimal(size as nat),
                    permissions_text(permissions),
                ])
            },
            Err(e) => {
                &&& new == MachineView { memory: new.memory, warnings: old.warnings.push(error_message(e)), ..old }
                &&& out == (0u32, "Virtual protection change failed safely"@, seq![hex_address(address as nat)])
            },
        }
    }
}

impl Machine {
    fn virtual_alloc(&mut self, args: &[u32]) -> (r: Result<(u32, String, Vec<String>), DynamicError>)
        requires
            old(self).wf(),
        ensures
            r matches Ok(out) && virtual_alloc_outcome(old(self)@, final(self)@, args@, out_view(out)),
    {
        let requested = arg_at(args, 0, 0);
        let asked = arg_at(args, 1, 0);
        let size = align_page((if asked < 0x1000 { 0x1000 } else { asked }) as usize);
        let address = if requested == 0 {
            let value = self.heap_next;
            self.heap_next = self.heap_next.saturating_add((size as u32).wrapping_add(0x1000));
            value
        } else {
            requested
        };
        let permissions = protection(arg_at(args, 3, 4));
        let ghost before = self@;
        let mapped = self.memory.map(address, size, permissions, "VirtualAlloc".to_owned());
        let ghost r = mapped;
        match mapped {
            Ok(()) => {
                let text = permissions.display();
                self.memory_events.push(MemoryEvent {
                    operation: "allocate".to_owned(),
                    address: address as u64,
                    size: size as u32,
                    permissions: text.clone(),
                });
                assert(self.memory_events@.drop_last() =~= before.memory_events);
                let mut summary = "Allocated ".to_owned();
                push_decimal(&mut summary, size as u64);
                push_str(&mut summary, " virtual bytes");
                let a = hex_text(address);
                let b = decimal_text(size as u64);
                let ghost av = a@;
                let ghost bv = b@;
                let ghost tv = text@;
                let shown = vec![a, b, text];
                assert(shown@.map_values(|s: String| s@) =~= seq![av, bv, tv]);
                assert(Memory::map_outcome(old(self)@.memory, self@.memory, address, size, permissions, "VirtualAlloc"@, r));
                assert(size == alloc_size(args@));
                assert(alloc_mapped(old(self)@, self@, args@, r));
                assert(self@.heap_next == (if requested == 0 {
                    sat_add32(old(self).heap_next, vstd::wrapping::u32_specs::wrapping_add(size as u32, 0x1000) as int)
                } else {
                    old(self).heap_next
                }));
                assert(self@.warnings == old(self)@.warnings);
                assert(appended(old(self)@.memory_events, self@.memory_events));
                assert(memory_event_is(self@.memory_events.last(), "allocate"@, address as u64, size as u32, permissions_text(permissions)));
                assert(self@ == MachineView { memory: self@.memory, heap_next: self@.heap_next, memory_events: self@.memory_events, ..old(self)@ });
                let out = (address, summary, shown);
                assert(out_view(out) == (address, "Allocated "@ + decimal(size as nat) + " virtual bytes"@, seq![
                    hex_address(address as nat),
                    decimal(size as nat),
                    permissions_text(permissions),
                ]));
                let ghost requested_g = requested;
                assert(address == (if arg(args@, 0) == 0 { old(self)@.heap_next } else { arg(args@, 0) }));
                assert(permissions == protection_spec(arg_or(args@, 3, 4)));
                assert(virtual_alloc_outcome(old(self)@, self@, args@, out_view(out)));
                Ok(out)
            },
            Err(error) => {
                let message = error.message();
                let ghost mv = message@;
                let ghost warnings = self.warnings@;
                self.warnings.push(message);
                assert(self.warnings@.map_values(|w: String| w@) =~= warnings.map_values(|w: String| w@).push(mv));
                let shown = vec![decimal_text(size as u64)];
                assert(shown@.map_values(|s: String| s@) =~= seq![decimal(size as nat)]);
                assert(Memory::map_outcome(old(self)@.memory, self@.memory, address, size, permissions, "VirtualAlloc"@, r));
                assert(alloc_mapped(old(self)@, self@, args@, r));
                Ok((0, "Virtual allocation failed safely".to_owned(), shown))
            },
        }
    }

    fn virtual_protect(&mut self, args: &[u32]) -> (r: Result<(u32, String, Vec<String>), DynamicError>)
        requires
            old(self).wf(),
        ensures
            r matches Ok(out) && virtual_protect_outcome(old(self)@, final(self)@, args@, out_view(out)),
    {
        let address = arg_at(args, 0, 0);
        let size = arg_at(args, 1, 0) as usize;
        let permissions = protection(arg_at(args, 2, 4));
        if args.len() > 3 && args[3] != 0 {
            let _ = self.memory.write_u32(args[3], 0x04);
        }
        let ghost mid = self.memory;
        let ghost before = self@;
        let changed = self.memory.set_permissions(address, if size < 1 { 1 } else { size }, permissions);
        let ghost r = changed;
        match changed {
            Ok(()) => {
                let text = permissions.display();
                self.memory_events.push(MemoryEvent {
                    operation: "protect".to_owned(),
                    address: address as u64,
                    size: size as u32,
                    permissions: text.clone(),
                });
                assert(self.memory_events@.drop_last() =~= before.memory_events);
                let mut summary = "Changed virtual memory protection to ".to_owned();
                push_str(&mut summary, text.as_str());
                let a = hex_text(address);
                let b = decimal_text(size as u64);
                let ghost av = a@;
                let ghost bv = b@;
                let ghost tv = text@;
                let shown = vec![a, b, text];
                assert(shown@.map_values(|s: String| s@) =~= seq![av, bv, tv]);
                assert(Memory::permissions_outcome(mid, self@.memory, address, if size < 1 { 1 } else { size }, permissions, r));
                assert(if args@.len() > 3 && args@[3] != 0 { wrote_u32(old(self)@.memory, mid, args@[3], 4) } else { mid == old(self)@.memory });
                assert(self@.warnings == old(self)@.warnings);
                assert(protect_changed(old(self)@, mid, self@, args@, r));
                Ok((1, summary, shown))
            },
            Err(error) => {
                let message = error.message();
                let ghost mv = message@;
                let ghost warnings = self.warnings@;
                self.warnings.push(message);
                assert(self.warnings@.map_values(|w: String| w@) =~= warnings.map_values(|w: String| w@).push(mv));
                let shown = vec![hex_text(address)];
                assert(shown@.map_values(|s: String| s@) =~= seq![hex_address(address as nat)]);
                assert(Memory::permissions_outcome(mid, self@.memory, address, if size < 1 { 1 } else { size }, permissions, r));
                assert(if args@.len() > 3 && args@[3] != 0 { wrote_u32(old(self)@.memory, mid, args@[3], 4) } else { mid == old(self)@.memory });
                assert(protect_changed(old(self)@, mid, self@, args@, r));
                Ok((0, "Virtual protection change failed safely".to_owned(), shown))
            },
        }
    }
}

/// What an imported API does to the machine and hands back, by its
/// lower-cased name; an API that is not modeled returns 0 and leaves a warning.
#[verifier::opaque]
pub open spec fn api_outcome(old: MachineView, new: MachineView, name: Seq<char>, args: Seq<u32>, out: (u32, Seq<char>, Seq<Seq<char>>)) -> bool {
    if name == "exitprocess"@ {
        exit_process_outcome(old, new, args, out)
    } else if name == "gettickcount"@ {
        new == old && out == (old.virtual_time_ms as u32, "Returned deterministic virtual time"@, Seq::<Seq<char>>::empty())
    } else if name == "sleep"@ {
        sleep_outcome(old, new, args, out)
    } else if name == "getcurrentprocessid"@ {
        new == old && out == (1337u32, "Returned synthetic process ID"@, Seq::<Seq<char>>::empty())
    } else if name == "getcurrentthreadid"@ {
        new == old && out == (1u32, "Returned synthetic thread ID"@, Seq::<Seq<char>>::empty())
    } else if name == "getmodulehandlea"@ {
        new == old && out == (0x00400000u32, "Returned synthetic module handle"@, hex_args_spec(args))
    } else if name == "loadlibrarya"@ {
        let library = c_text(old.memory@, arg(args, 0), 260);
        new == old && out == (0x76000000u32, "Modeled loading "@ + library, seq![library])
    } else if name == "getprocaddress"@ {
        let symbol = c_text(old.memory@, arg(args, 1), 260);
        new == old && out == (0u32, "Recorded dynamic symbol lookup for "@ + symbol, seq![hex_address(arg(args, 0) as nat), symbol])
    } else if name == "winexec"@ {
        winexec_outcome(old, new, args, out)
    } else if name == "virtualalloc"@ {
        virtual_alloc_outcome(old, new, args, out)
    } else if name == "virtualprotect"@ {
        virtual_protect_outcome(old, new, args, out)
    } else if name == "createfilea"@ {
        create_file_outcome(old, new, args, out)
    } else if name == "writefile"@ {
        write_file_outcome(old, new, args, out)
    } else if name == "deletefilea"@ {
        delete_file_outcome(old, new, args, out)
    } else if name == "regopenkeyexa"@ {
        reg_open_outcome(old, new, args, out)
    } else if name == "regsetvalueexa"@ {
        reg_set_outcome(old, new, args, out)
    } else if name == "internetopena"@ {
        internet_open_outcome(old, new, args, out)
    } else if name == "internetopenurla"@ {
        open_url_outcome(old, new, args, out)
    } else if name == "connect"@ {
        connect_outcome(old, new, args, out)
    } else if name == "send"@ {
        send_outcome(old, new, args, out)
    } else if name == "recv"@ {
        new == old && out == (0u32, "Synthetic network sink returned EOF"@, hex_args_spec(args))
    } else if name == "closehandle"@ || name == "regclosekey"@ || name == "internetclosehandle"@ {
        new == old && out == (1u32, "Closed synthetic handle"@, hex_args_spec(args))
    } else {
        unmodeled_outcome(old, new, name, args, out)
    }
}

fn same_text(a: &Vec<char>, b: &str) -> (r: bool)
    ensures
        r == (a@ == b@),
{
    chars_equal(a, &chars_of(b))
}

impl Machine {
    /// Answers an imported API called with `args` under its lower-cased
    /// `name`: the value for EAX, a summary, and the arguments as shown.
    pub fn emulate_api(&mut self, name: &str, args: &[u32]) -> (r: Result<(u32, String, Vec<String>), DynamicError>)
        requires
            old(self).wf(),
        ensures
            final(self).wf(),
            final(self).cpu == old(self).cpu,
            final(self).api_calls@ == old(self).api_calls@,
            final(self).instruction_count == old(self).instruction_count,
            final(self).max_instructions == old(self).max_instructions,
            final(self).max_trace_events == old(self).max_trace_events,
            final(self).imports@ == old(self).imports@,
            final(self).instructions@ == old(self).instructions@,
            r matches Ok(out) && api_outcome(old(self)@, final(self)@, name@, args@, out_view(out)),
    {
        reveal(api_outcome);
        let n = chars_of(name);
        if same_text(&n, "exitprocess") {
            Ok(self.api_exit_process(args))
        } else if same_text(&n, "gettickcount") {
            let none: Vec<String> = Vec::new();
            assert(none@.map_values(|s: String| s@) =~= Seq::<Seq<char>>::empty());
            Ok((self.virtual_time_ms as u32, "Returned deterministic virtual time".to_owned(), none))
        } else if same_text(&n, "sleep") {
            Ok(self.api_sleep(args))
        } else if same_text(&n, "getcurrentprocessid") {
            let none: Vec<String> = Vec::new();
            assert(none@.map_values(|s: String| s@) =~= Seq::<Seq<char>>::empty());
            Ok((1337, "Returned synthetic process ID".to_owned(), none))
        } else if same_text(&n, "getcurrentthreadid") {
            let none: Vec<String> = Vec::new();
            assert(none@.map_values(|s: String| s@) =~= Seq::<Seq<char>>::empty());
            Ok((1, "Returned synthetic thread ID".to_owned(), none))
        } else if same_text(&n, "getmodulehandlea") {
            Ok((0x00400000, "Returned synthetic module handle".to_owned(), hex_args(args)))
        } else if same_text(&n, "loadlibrarya") {
            let library = self.memory.read_c_string(arg_at(args, 0, 0), 260);
            let mut summary = "Modeled loading ".to_owned();
            push_str(&mut summary, library.as_str());
            let ghost lv = library@;
            let shown = vec![library];
            assert(shown@.map_values(|s: String| s@) =~= seq![lv]);
            Ok((0x76000000, summary, shown))
        } else if same_text(&n, "getprocaddress") {
            let symbol = self.memory.read_c_string(arg_at(args, 1, 0), 260);
            let mut summary = "Recorded dynamic symbol lookup for ".to_owned();
            push_str(&mut summary, symbol.as_str());
            let ghost sv = symbol@;
            let shown = vec![hex_text(arg_at(args, 0, 0)), symbol];
            assert(shown@.map_values(|s: String| s@) =~= seq![hex_address(arg(args@, 0) as nat), sv]);
            Ok((0, summary, shown))
        } else if same_text(&n, "winexec") {
            Ok(self.api_winexec(args))
        } else if same_text(&n, "virtualalloc") {
            self.virtual_alloc(args)
        } else if same_text(&n, "virtualprotect") {
            self.virtual_protect(args)
        } else if same_text(&n, "createfilea") {
            Ok(self.api_create_file(args))
        } else if same_text(&n, "writefile") {
            Ok(self.api_write_file(args))
        } else if same_text(&n, "deletefilea") {
            Ok(self.api_delete_file(args))
        } else if same_text(&n, "regopenkeyexa") {
            Ok(self.api_reg_open(args))
        } else if same_text(&n, "regsetvalueexa") {
            Ok(self.api_reg_set(args))
        } else if same_text(&n, "internetopena") {
            Ok(self.api_internet_open(args))
        } else if same_text(&n, "internetopenurla") {
            Ok(self.api_open_url(args))
        } else if same_text(&n, "connect") {
            Ok(self.api_connect(args))
        } else if same_text(&n, "send") {
            Ok(self.api_send(args))
        } else if same_text(&n, "recv") {
            Ok((0, "Synthetic network sink returned EOF".to_owned(), hex_args(args)))
        } else if same_text(&n, "closehandle") || same_text(&n, "regclosekey") || same_text(&n, "internetclosehandle") {
            Ok((1, "Closed synthetic handle".to_owned(), hex_args(args)))
        } else {
            Ok(self.api_unmodeled(name, args))
        }
    }
}

// ----- calls through import stubs -----

/// The 32-bit value of stack argument `i` above `esp`, if readable.
pub open spec fn stack_slot(m: Seq<RegionView>, esp: u32, i: nat) -> Option<nat> {
    value_at(m, vstd::wrapping::u32_specs::wrapping_add(esp, (i * 4) as u32) as int, 4)
}

/// The first `n` stack arguments are readable.
pub open spec fn stack_readable(m: Seq<RegionView>, esp: u32, n: nat) -> bool {
    forall|i: nat| i < n ==> (#[trigger] stack_slot(m, esp, i)) is Some
}

/// The first `n` stack arguments.
pub open spec fn stack_values(m: Seq<RegionView>, esp: u32, n: nat) -> Seq<u32> {
    Seq::new(n, |i: int| stack_slot(m, esp, i as nat)->0 as u32)
}

/// The first stack argument that cannot be read.
pub open spec fn first_unreadable(m: Seq<RegionView>, esp: u32, n: nat) -> nat {
    choose|i: nat| i < n && stack_slot(m, esp, i) is None && forall|j: nat| j < i ==> (#[trigger] stack_slot(m, esp, j)) is Some
}

/// What a call through an import stub does: the return address is popped,
/// the stdcall arguments are read above it and popped too, the API is
/// answered under its lower-cased name, EAX receives the result, execution
/// resumes at the return address, and the call is recorded. A failed read
/// of the return address changes nothing; a failed argument read leaves
/// only the return address popped.
pub open spec fn handle_api_outcome(old: MachineView, new: MachineView, import: ApiImport, r: Result<(), DynamicError>) -> bool {
    let esp = old.cpu.esp;
    match value_at(old.memory@, esp as int, 4) {
        None => r == Err::<(), DynamicError>(DynamicError::MemoryRead { address: esp as u64 }) && new == old,
        Some(ret) => {
            let esp1 = vstd::wrapping::u32_specs::wrapping_add(esp, 4);
            let n = import.argument_count as nat;
            if !stack_readable(old.memory@, esp1, n) {
                let i = first_unreadable(old.memory@, esp1, n);
                &&& r == Err::<(), DynamicError>(DynamicError::MemoryRead {
                    address: vstd::wrapping::u32_specs::wrapping_add(esp1, (i * 4) as u32) as u64,
                })
                &&& new == MachineView { cpu: Cpu { esp: esp1, ..old.cpu }, ..old }
            } else {
                let args = stack_values(old.memory@, esp1, n);
                let esp2 = vstd::wrapping::u32_specs::wrapping_add(esp1, (n * 4) as u32);
                let mid = MachineView { cpu: Cpu { esp: esp2, ..old.cpu }, ..old };
                let ev = new.api_calls.last();
                let out = (ev.result as u32, ev.summary@, ev.arguments@.map_values(|s: String| s@));
                &&& r is Ok
                &&& appended(old.api_calls, new.api_calls)
                &&& ev.index == old.api_calls.len()
                &&& ev.instruction == old.instruction_count
                &&& ev.module@ == import.module@
                &&& ev.name@ == import.name@
                &&& ev.result <= u32::MAX
                &&& new.cpu == Cpu { eax: ev.result as u32, eip: ret as u32, ..mid.cpu }
                &&& api_outcome(mid, MachineView { cpu: mid.cpu, api_calls: old.api_calls, ..new }, lower_seq(import.name@), args, out)
            }
        },
    }
}

/// Reads `count` 32-bit stack arguments above `esp`, stopping at the first
/// that cannot be read.
fn read_stack_args(memory: &Memory, esp: u32, count: usize) -> (r: Result<Vec<u32>, DynamicError>)
    requires
        memory.wf(),
        count <= usize::MAX / 4,
    ensures
        stack_readable(memory@, esp, count as nat) ==> (r matches Ok(v) && v@ == stack_values(memory@, esp, count as nat)),
        !stack_readable(memory@, esp, count as nat) ==> r == Err::<Vec<u32>, DynamicError>(DynamicError::MemoryRead {
            address: vstd::wrapping::u32_specs::wrapping_add(esp, (first_unreadable(memory@, esp, count as nat) * 4) as u32) as u64,
        }),
{
    let mut args: Vec<u32> = Vec::new();
    let mut index: usize = 0;
    while index < count
        invariant
            memory.wf(),
            count <= usize::MAX / 4,
            index <= count,
            args@ == stack_values(memory@, esp, index as nat),
            stack_readable(memory@, esp, index as nat),
        decreases count - index,
    {
        let address = esp.wrapping_add((index * 4) as u32);
        match memory.read_u32(address) {
            Ok(v) => {
                proof {
                    let i = choose|i: int| is_first(memory@, readable(address as int, 4), i)
                        && v == le_value(memory@[i].data.subrange(address - memory@[i].start, address - memory@[i].start + 4));
                    lemma_value_at(memory@, address as int, 4, i);
                    assert(stack_slot(memory@, esp, index as nat) == Some(v as nat));
                }
                args.push(v);
                proof {
                    assert(args@ =~= stack_values(memory@, esp, (index + 1) as nat));
                    assert forall|j: nat| j < index + 1 implies (#[trigger] stack_slot(memory@, esp, j)) is Some by {
                        if j < index {
                            assert(stack_slot(memory@, esp, j) is Some);
                        }
                    }
                }
            },
            Err(e) => {
                proof {
                    assert(stack_slot(memory@, esp, index as nat) is None);
                    assert(index < count && stack_slot(memory@, esp, index as nat) is None
                        && forall|j: nat| j < index ==> (#[trigger] stack_slot(memory@, esp, j)) is Some);
                    let i = first_unreadable(memory@, esp, count as nat);
                    if i < index {
                        assert(stack_slot(memory@, esp, i) is Some);
                    } else if i > index {
                        assert(stack_slot(memory@, esp, index as nat) is Some);
                    }
                }
                return Err(e);
            },
        }
        index = index + 1;
    }
    Ok(args)
}

impl Machine {
    /// Answers a call that reached an import stub.
    pub fn handle_api(&mut self, import: ApiImport) -> (r: Result<(), DynamicError>)
        requires
            old(self).wf(),
            import.argument_count <= usize::MAX / 4,
        ensures
            final(self).wf(),
            handle_api_outcome(old(self)@, final(self)@, import, r),
            final(self).instruction_count == old(self).instruction_count,
            final(self).max_instructions == old(self).max_instructions,
            final(self).max_trace_events == old(self).max_trace_events,
            final(self).imports@ == old(self).imports@,
            final(self).instructions@ == old(self).instructions@,
            r is Ok ==> final(self).api_calls@.len() == old(self).api_calls@.len() + 1,
            r is Err ==> final(self).api_calls@ == old(self).api_calls@,
    {
        let ghost start = self@;
        let return_address = self.cpu.pop(&self.memory)?;
        let esp1 = self.cpu.esp;
        let count = import.argument_count;
        let args = read_stack_args(&self.memory, esp1, count)?;
        self.cpu.esp = esp1.wrapping_add((count * 4) as u32);
        let ghost mid = self@;
        let lower = ascii_lowercase(import.name.as_str());
        let answered = self.emulate_api(lower.as_str(), args.as_slice());
        let (result, summary, display) = match answered {
            Ok(out) => out,
            Err(e) => {
                return Err(e);
            },
        };
        let ghost after = self@;
        self.cpu.eax = result;
        self.cpu.eip = return_address;
        let ghost before = self.api_calls@;
        let event = ApiEvent {
            index: self.api_calls.len() as u64,
            instruction: self.instruction_count,
            module: import.module,
            name: import.name,
            arguments: display,
            result: result as u64,
            summary,
        };
        self.api_calls.push(event);
        assert(self.api_calls@.drop_last() =~= before);
        assert((MachineView { cpu: mid.cpu, api_calls: start.api_calls, ..self@ }) == after);
        Ok(())
    }
}

// ----- findings -----

/// A finding as values: id, title, severity, rationale, evidence.
pub open spec fn finding_view(f: DynamicFinding) -> (Seq<char>, Seq<char>, DynamicSeverity, Seq<char>, Seq<Seq<char>>) {
    (f.id@, f.title@, f.severity, f.rationale@, f.evidence@.map_values(|e: String| e@))
}

/// The first ten items.
pub open spec fn first_ten<T>(s: Seq<T>) -> Seq<T> {
    if s.len() <= 10 {
        s
    } else {
        s.subrange(0, 10)
    }
}

pub open spec fn process_lines(p: Seq<ProcessEvent>) -> Seq<Seq<char>> {
    p.map_values(|e: ProcessEvent| e.command@)
}

pub open spec fn network_lines(n: Seq<NetworkEvent>) -> Seq<Seq<char>> {
    first_ten(n).map_values(|e: NetworkEvent| e.operation@ + " "@ + e.destination@)
}

pub open spec fn registry_lines(r: Seq<RegistryEvent>) -> Seq<Seq<char>> {
    first_ten(r).map_values(|e: RegistryEvent| e.operation@ + " "@ + e.key@)
}

pub open spec fn file_lines(f: Seq<FileEvent>) -> Seq<Seq<char>> {
    first_ten(f).map_values(|e: FileEvent| e.operation@ + " "@ + e.path@)
}

/// A protection change that made memory executable.
pub open spec fn made_executable(e: MemoryEvent) -> bool {
    e.permissions@.contains('x') && e.operation@ == "protect"@
}

pub open spec fn executable_lines(m: Seq<MemoryEvent>) -> Seq<Seq<char>> {
    m.filter(|e: MemoryEvent| made_executable(e)).map_values(|e: MemoryEvent|
        hex_address(e.address as nat) + " "@ + decimal(e.size as nat) + " bytes "@ + e.permissions@
    )
}

pub open spec fn finding_if(
    present: bool,
    id: Seq<char>,
    title: Seq<char>,
    severity: DynamicSeverity,
    rationale: Seq<char>,
    evidence: Seq<Seq<char>>,
) -> Seq<(Seq<char>, Seq<char>, DynamicSeverity, Seq<char>, Seq<Seq<char>>)> {
    if present {
        seq![(id, title, severity, rationale, evidence)]
    } else {
        Seq::empty()
    }
}

/// The findings a run ends with: process execution, network, registry and
/// file activity, memory made executable; or, when none of these, that no
/// modeled behavior was seen.
pub open spec fn findings_spec(v: MachineView) -> Seq<(Seq<char>, Seq<char>, DynamicSeverity, Seq<char>, Seq<Seq<char>>)> {
    let all = finding_if(
        v.processes.len() > 0,
        "process-execution"@,
        "Process execution requested"@,
        DynamicSeverity::High,
        "The emulated sample requested creation of another process."@,
        process_lines(v.processes),
    ) + finding_if(
        v.network.len() > 0,
        "network-activity"@,
        "Network activity observed"@,
        DynamicSeverity::Medium,
        "All network operations were captured by the synthetic sink and never left the browser."@,
        network_lines(v.network),
    ) + finding_if(
        v.registry.len() > 0,
        "registry-activity"@,
        "Registry activity observed"@,
        DynamicSeverity::Medium,
        "The sample accessed the synthetic Windows registry."@,
        registry_lines(v.registry),
    ) + finding_if(
        v.filesystem.len() > 0,
        "filesystem-activity"@,
        "Filesystem activity observed"@,
        DynamicSeverity::Low,
        "The sample accessed the in-memory virtual filesystem."@,
        file_lines(v.filesystem),
    ) + finding_if(
        executable_lines(v.memory_events).len() > 0,
        "executable-memory"@,
        "Memory made executable"@,
        DynamicSeverity::High,
        "Changing writable memory to executable is commonly associated with unpacking or injected code."@,
        executable_lines(v.memory_events),
    );
    if all.len() == 0 {
        seq![(
            "no-modeled-behavior"@,
            "No modeled high-level behavior observed"@,
            DynamicSeverity::Info,
            "Execution may have completed, hit an unsupported instruction, or avoided the modeled APIs."@,
            seq![decimal(v.instruction_count as nat) + " instructions emulated"@],
        )]
    } else {
        all
    }
}

pub(crate) fn has_x(s: &str) -> (r: bool)
    ensures
        r == s@.contains('x'),
{
    let chars = chars_of(s);
    let mut i: usize = 0;
    while i < chars.len()
        invariant
            i <= chars@.len(),
            chars@ == s@,
            forall|j: int| 0 <= j < i ==> chars@[j] != 'x',
        decreases chars@.len() - i,
    {
        if chars[i] == 'x' {
            return true;
        }
        i = i + 1;
    }
    false
}

fn joined(a: &str, b: &str) -> (s: String)
    ensures
        s@ == a@ + " "@ + b@,
{
    let mut s = a.to_owned();
    push_str(&mut s, " ");
    push_str(&mut s, b);
    s
}

pub(crate) fn push_finding(
    findings: &mut Vec<DynamicFinding>,
    id: &str,
    title: &str,
    severity: DynamicSeverity,
    rationale: &str,
    evidence: Vec<String>,
)
    ensures
        final(findings)@.map_values(|f: DynamicFinding| finding_view(f)) == old(findings)@.map_values(|f: DynamicFinding| finding_view(f)).push(
            (id@, title@, severity, rationale@, evidence@.map_values(|e: String| e@)),
        ),
{
    let ghost before = findings@;
    findings.push(DynamicFinding {
        id: id.to_owned(),
        title: title.to_owned(),
        severity,
        rationale: rationale.to_owned(),
        evidence,
    });
    assert(findings@.map_values(|f: DynamicFinding| finding_view(f)) =~= before.map_values(|f: DynamicFinding| finding_view(f)).push(
        (id@, title@, severity, rationale@, evidence@.map_values(|e: String| e@)),
    ));
}

impl Machine {
    /// The findings the recorded behavior supports.
    pub fn build_findings(&self) -> (r: Vec<DynamicFinding>)
        ensures
            r@.map_values(|f: DynamicFinding| finding_view(f)) == findings_spec(self@),
    {
        let mut findings: Vec<DynamicFinding> = Vec::new();
        let ghost v = self@;
        assert(findings@.map_values(|f: DynamicFinding| finding_view(f)) =~= Seq::empty());

        let mut commands: Vec<String> = Vec::new();
        let mut i: usize = 0;
        while i < self.processes.len()
            invariant
                i <= self.processes@.len(),
                commands@.map_values(|e: String| e@) == process_lines(self.processes@.subrange(0, i as int)),
            decreases self.processes@.len() - i,
        {
            let ghost before = commands@;
            let c = self.processes[i].command.clone();
            let ghost cv = c@;
            commands.push(c);
            assert(commands@.map_values(|e: String| e@) =~= before.map_values(|e: String| e@).push(cv));
            assert(self.processes@.subrange(0, i + 1) =~= self.processes@.subrange(0, i as int).push(self.processes@[i as int]));
            i = i + 1;
            assert(commands@.map_values(|e: String| e@) =~= process_lines(self.processes@.subrange(0, i as int)));
        }
        assert(self.processes@.subrange(0, self.processes@.len() as int) =~= self.processes@);
        let ghost f1 = findings@.map_values(|f: DynamicFinding| finding_view(f));
        if commands.len() > 0 {
            push_finding(
                &mut findings,
                "process-execution",
                "Process execution requested",
                DynamicSeverity::High,
                "The emulated sample requested creation of another process.",
                commands,
            );
        }
        let ghost g1 = findings@.map_values(|f: DynamicFinding| finding_view(f));
        assert(g1 =~= f1 + finding_if(v.processes.len() > 0, "process-execution"@, "Process execution requested"@,
            DynamicSeverity::High, "The emulated sample requested creation of another process."@, process_lines(v.processes)));

        let n = if self.network.len() < 10 { self.network.len() } else { 10 };
        let mut lines: Vec<String> = Vec::new();
        let mut i: usize = 0;
        while i < n
            invariant
                i <= n,
                n == (if self.network@.len() < 10 { self.network@.len() } else { 10 }),
                lines@.map_values(|e: String| e@) == self.network@.subrange(0, i as int).map_values(|e: NetworkEvent| e.operation@ + " "@ + e.destination@),
            decreases n - i,
        {
            let ghost before = lines@;
            let line = joined(self.network[i].operation.as_str(), self.network[i].destination.as_str());
            let ghost lv = line@;
            lines.push(line);
            assert(lines@.map_values(|e: String| e@) =~= before.map_values(|e: String| e@).push(lv));
            assert(self.network@.subrange(0, i + 1) =~= self.network@.subrange(0, i as int).push(self.network@[i as int]));
            i = i + 1;
            assert(lines@.map_values(|e: String| e@) =~= self.network@.subrange(0, i as int).map_values(|e: NetworkEvent| e.operation@ + " "@ + e.destination@));
        }
        assert(first_ten(self.network@) =~= self.network@.subrange(0, n as int));
        if self.network.len() > 0 {
            push_finding(
                &mut findings,
                "network-activity",
                "Network activity observed",
                DynamicSeverity::Medium,
                "All network operations were captured by the synthetic sink and never left the browser.",
                lines,
            );
        }
        let ghost g2 = findings@.map_values(|f: DynamicFinding| finding_view(f));
        assert(g2 =~= g1 + finding_if(v.network.len() > 0, "network-activity"@, "Network activity observed"@, DynamicSeverity::Medium,
            "All network operations were captured by the synthetic sink and never left the browser."@, network_lines(v.network)));

        let n = if self.registry.len() < 10 { self.registry.len() } else { 10 };
        let mut lines: Vec<String> = Vec::new();
        let mut i: usize = 0;
        while i < n
            invariant
                i <= n,
                n == (if self.registry@.len() < 10 { self.registry@.len() } else { 10 }),
                lines@.map_values(|e: String| e@) == self.registry@.subrange(0, i as int).map_values(|e: RegistryEvent| e.operation@ + " "@ + e.key@),
            decreases n - i,
        {
            let ghost before = lines@;
            let line = joined(self.registry[i].operation.as_str(), self.registry[i].key.as_str());
            let ghost lv = line@;
            lines.push(line);
            assert(lines@.map_values(|e: String| e@) =~= before.map_values(|e: String| e@).push(lv));
            assert(self.registry@.subrange(0, i + 1) =~= self.registry@.subrange(0, i as int).push(self.registry@[i as int]));
            i = i + 1;
            assert(lines@.map_values(|e: String| e@) =~= self.registry@.subrange(0, i as int).map_values(|e: RegistryEvent| e.operation@ + " "@ + e.key@));
        }
        assert(first_ten(self.registry@) =~= self.registry@.subrange(0, n as int));
        if self.registry.len() > 0 {
            push_finding(
                &mut findings,
                "registry-activity",
                "Registry activity observed",
                DynamicSeverity::Medium,
                "The sample accessed the synthetic Windows registry.",
                lines,
            );
        }
        let ghost g3 = findings@.map_values(|f: DynamicFinding| finding_view(f));
        assert(g3 =~= g2 + finding_if(v.registry.len() > 0, "registry-activity"@, "Registry activity observed"@, DynamicSeverity::Medium,
            "The sample accessed the synthetic Windows registry."@, registry_lines(v.registry)));

        let n = if self.filesystem.len() < 10 { self.filesystem.len() } else { 10 };
        let mut lines: Vec<String> = Vec::new();
        let mut i: usize = 0;
        while i < n
            invariant
                i <= n,
                n == (if self.filesystem@.len() < 10 { self.filesystem@.len() } else { 10 }),
                lines@.map_values(|e: String| e@) == self.filesystem@.subrange(0, i as int).map_values(|e: FileEvent| e.operation@ + " "@ + e.path@),
            decreases n - i,
        {
            let ghost before = lines@;
            let line = joined(self.filesystem[i].operation.as_str(), self.filesystem[i].path.as_str());
            let ghost lv = line@;
            lines.push(line);
            assert(lines@.map_values(|e: String| e@) =~= before.map_values(|e: String| e@).push(lv));
            assert(self.filesystem@.subrange(0, i + 1) =~= self.filesystem@.subrange(0, i as int).push(self.filesystem@[i as int]));
            i = i + 1;
            assert(lines@.map_values(|e: String| e@) =~= self.filesystem@.subrange(0, i as int).map_values(|e: FileEvent| e.operation@ + " "@ + e.path@));
        }
        assert(first_ten(self.filesystem@) =~= self.filesystem@.subrange(0, n as int));
        if self.filesystem.len() > 0 {
            push_finding(
                &mut findings,
                "filesystem-activity",
                "Filesystem activity observed",
                DynamicSeverity::Low,
                "The sample accessed the in-memory virtual filesystem.",
                lines,
            );
        }
        let ghost g4 = findings@.map_values(|f: DynamicFinding| finding_view(f));
        assert(g4 =~= g3 + finding_if(v.filesystem.len() > 0, "filesystem-activity"@, "Filesystem activity observed"@, DynamicSeverity::Low,
            "The sample accessed the in-memory virtual filesystem."@, file_lines(v.filesystem)));

        let mut lines: Vec<String> = Vec::new();
        let mut i: usize = 0;
        while i < self.memory_events.len()
            invariant
                i <= self.memory_events@.len(),
                lines@.map_values(|e: String| e@) == executable_lines(self.memory_events@.subrange(0, i as int)),
            decreases self.memory_events@.len() - i,
        {
            let e = &self.memory_events[i];
            proof {
                self.memory_events@.subrange(0, i as int).lemma_filter_push(*e, |e: MemoryEvent| made_executable(e));
                assert(self.memory_events@.subrange(0, i + 1) =~= self.memory_events@.subrange(0, i as int).push(*e));
            }
            let ghost before = lines@;
            if has_x(e.permissions.as_str()) && chars_equal(&chars_of(e.operation.as_str()), &chars_of("protect")) {
                let mut line = "0x".to_owned();
                push_hex_padded(&mut line, e.address, 8);
                push_str(&mut line, " ");
                push_decimal(&mut line, e.size as u64);
                push_str(&mut line, " bytes ");
                push_str(&mut line, e.permissions.as_str());
                let ghost lv = line@;
                lines.push(line);
                assert(lines@.map_values(|e: String| e@) =~= before.map_values(|e: String| e@).push(lv));
                proof {
                    reveal_strlit("0x");
                }
            }
            i = i + 1;
            assert(lines@.map_values(|e: String| e@) =~= executable_lines(self.memory_events@.subrange(0, i as int)));
        }
        assert(self.memory_events@.subrange(0, self.memory_events@.len() as int) =~= self.memory_events@);
        if lines.len() > 0 {
            push_finding(
                &mut findings,
                "executable-memory",
                "Memory made executable",
                DynamicSeverity::High,
                "Changing writable memory to executable is commonly associated with unpacking or injected code.",
                lines,
            );
        }
        let ghost g5 = findings@.map_values(|f: DynamicFinding| finding_view(f));
        assert(g5 =~= g4 + finding_if(executable_lines(v.memory_events).len() > 0, "executable-memory"@, "Memory made executable"@,
            DynamicSeverity::High, "Changing writable memory to executable is commonly associated with unpacking or injected code."@,
            executable_lines(v.memory_events)));
        if findings.len() == 0 {
            let mut line = String::new();
            push_decimal(&mut line, self.instruction_count);
            push_str(&mut line, " instructions emulated");
            let ghost lv = line@;
            let evidence = vec![line];
            assert(evidence@.map_values(|e: String| e@) =~= seq![lv]);
            push_finding(
                &mut findings,
                "no-modeled-behavior",
                "No modeled high-level behavior observed",
                DynamicSeverity::Info,
                "Execution may have completed, hit an unsupported instruction, or avoided the modeled APIs.",
                evidence,
            );
        }
        findings
    }
}

/// A machine fresh from `start`.
pub open spec fn started(m: Machine, loaded: LoadedImage, max_instructions: u64, max_trace_events: usize) -> bool {
    &&& m.wf()
    &&& m.cpu == (Cpu { eip: loaded.entry_point, esp: (STACK_TOP - 4) as u32, ebp: STACK_TOP, ..zero_cpu() })
    &&& wrote_u32(loaded.memory, m.memory, (STACK_TOP - 4) as u32, ENTRY_RETURN_SENTINEL)
    &&& m.imports@ == loaded.imports@
    &&& m.max_instructions == max_instructions
    &&& m.max_trace_events == max_trace_events
    &&& m.instruction_count == 0
    &&& m.virtual_time_ms == 1000000
    &&& m.instructions@.len() == 0 && m.api_calls@.len() == 0 && m.processes@.len() == 0
    &&& m.filesystem@.len() == 0 && m.registry@.len() == 0 && m.network@.len() == 0
    &&& m.memory_events@.len() == 0
    &&& m@.warnings == loaded.warnings@.map_values(|w: String| w@)
    &&& m.termination is None
    &&& !m.truncated
    &&& m.next_handle == 0x100
    &&& m.heap_next == HEAP_BASE
}

impl Machine {
    /// A machine ready to run a loaded image: EIP at the entry point, ESP
    /// and EBP at the stack top, virtual time at 1,000,000 ms, handles from
    /// 0x100, the heap at `HEAP_BASE`, the loader's warnings kept, and the
    /// sentinel return address pushed; fails when that push fails.
    pub fn start(loaded: LoadedImage, max_instructions: u64, max_trace_events: usize) -> (r: Result<Machine, DynamicError>)
        requires
            loaded.memory.wf(),
        ensures
            r is Ok ==> started(r->Ok_0, loaded, max_instructions, max_trace_events),
            r is Err ==> r->Err_0 == (DynamicError::MemoryWrite { address: (STACK_TOP - 4) as u64 })
                && !any_region(loaded.memory@, crate::memory::writable((STACK_TOP - 4) as int, 4, false)),
            any_region(loaded.memory@, crate::memory::writable((STACK_TOP - 4) as int, 4, false)) <==> r is Ok,
    {
        let mut cpu = Cpu::default();
        cpu.eip = loaded.entry_point;
        cpu.esp = STACK_TOP;
        cpu.ebp = STACK_TOP;
        let mut machine = Machine {
            cpu,
            memory: loaded.memory,
            imports: loaded.imports,
            max_instructions,
            max_trace_events,
            instruction_count: 0,
            virtual_time_ms: 1000000,
            instructions: Vec::new(),
            api_calls: Vec::new(),
            processes: Vec::new(),
            filesystem: Vec::new(),
            registry: Vec::new(),
            network: Vec::new(),
            memory_events: Vec::new(),
            warnings: loaded.warnings,
            termination: None,
            truncated: false,
            next_handle: 0x100,
            heap_next: HEAP_BASE,
        };
        let ghost before = machine.memory;
        assert(le_bytes(ENTRY_RETURN_SENTINEL as nat, 4).len() == 4) by {
            reveal_with_fuel(le_bytes, 5);
        }
        let pushed = machine.cpu.push(&mut machine.memory, ENTRY_RETURN_SENTINEL);
        assert(Memory::write_outcome(before@, machine.memory@, (STACK_TOP - 4) as u32, le_bytes(ENTRY_RETURN_SENTINEL as nat, 4), false, pushed));
        match pushed {
            Ok(()) => {
                assert(wrote_u32(before, machine.memory, (STACK_TOP - 4) as u32, ENTRY_RETURN_SENTINEL));
                assert(started(machine, loaded, max_instructions, max_trace_events));
                Ok(machine)
            },
            Err(e) => Err(e),
        }
    }
}

} // verus!
