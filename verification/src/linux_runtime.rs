//! The system-call and libc layer of the x86-64 Linux emulator: every call
//! is answered from an in-memory filesystem, a descriptor table, a bounded
//! heap and a scripted network, and recorded. Nothing reaches the host.
use vstd::prelude::*;
use vstd::slice::{slice_subrange, slice_to_vec};

use crate::cpu64::{qword_at, rsp_of, Cpu64};
use crate::dynamic_error::{error_message, DynamicError};
use crate::engine::{appended, file_event_is, finding_if, finding_view, has_x, made_executable, memory_event_is, network_event_is, process_event_is, push_finding, text_opt};
use crate::digest::{hex_text, sha256_hex, sha256_of};
use crate::dynamic_model::{
    ApiEvent, DynamicFinding, DynamicSeverity, FileEvent, MemoryEvent, NetworkEvent, NetworkExchange, NetworkMode, NetworkScenario, ProcessEvent,
    SystemEvent, Termination, TimelineEvent, HARD_MAX_API_EVENTS,
};
use crate::linux::{errno, linux_permissions, linux_preview, preview, syscall_name, syscall_name_spec, syscall_summary, syscall_summary_spec, FileDescriptor};
use crate::loader::{align_page, align_page_spec};
use crate::memory64::{c_string_bytes64, fresh_region64, inserted_at64, region_end64, containing64, MAX_EXACT_GUEST_ADDRESS, is_first64, lemma_first_unique64, readable64, any_region64, Memory64, RegionView64};
use crate::memory::{le_bytes, permissions_text, to_le_bytes_u64, Permissions, HARD_MAX_MEMORY_BYTES};
use crate::linux::errno_spec;
use crate::text::{chars_equal, ascii_lowercase, copy_chars, lower_seq, seq_contains, string_from_chars, vec_contains, chars_of, decimal, hex_lower, pad_left, push_char, push_decimal, push_hex, push_hex_padded};
use crate::windows::{apply_write, distinct_keys, find_entry, grow, law_file_read_after_write, lemma_key_index, lemma_stored_distinct, lookup, store_entry, stored, written_file};
use crate::network::{copy_bytes, read_end, NetworkHandleView, NetworkRuntime};
use crate::text::{lossy_utf8, push_str};
use crate::windows::store_view;
use crate::x64::{core_step, run_core, x64_wf, X64Instruction, MNEMONIC_HLT, MNEMONIC_INT3, MNEMONIC_SYSCALL};

verus! {

/// Where `brk` and the libc allocator start.
pub const LINUX_HEAP_BASE: u64 = 0x0000_0055_8000_0000;

/// The size of the synthetic heap.
pub const LINUX_HEAP_SIZE: u64 = 0x0100_0000;

/// Where `mmap` places regions the caller lets it choose.
pub const LINUX_MMAP_BASE: u64 = 0x0000_0060_0000_0000;

/// The return address under `main`; reaching it ends the run.
pub const LINUX_ENTRY_RETURN: u64 = 0x0000_006d_ffff_fff0;

/// The most bytes one read, write or copy moves.
pub const MAX_IO_BYTES: usize = 0x0010_0000;

/// A descriptor as values.
pub struct DescriptorView {
    pub path: Seq<char>,
    pub cursor: usize,
    pub writable: bool,
    pub socket: bool,
}

impl View for FileDescriptor {
    type V = DescriptorView;

    open spec fn view(&self) -> DescriptorView {
        DescriptorView { path: self.path@, cursor: self.cursor, writable: self.writable, socket: self.socket }
    }
}

/// The descriptor table as values.
pub open spec fn table_view(v: Seq<(i32, FileDescriptor)>) -> Seq<(i32, DescriptorView)> {
    v.map_values(|e: (i32, FileDescriptor)| (e.0, e.1@))
}

/// The emulated Linux process: registers, guest memory, the synthetic
/// kernel's state and everything recorded so far.
pub struct LinuxMachine {
    pub cpu: Cpu64,
    pub fs_base: u64,
    pub memory: Memory64,
    pub initial_rsp: u64,
    pub argv: u64,
    pub envp: u64,
    pub instruction_count: u64,
    pub virtual_time_ms: u64,
    pub api_calls: Vec<ApiEvent>,
    pub processes: Vec<ProcessEvent>,
    pub filesystem_events: Vec<FileEvent>,
    pub network_events: Vec<NetworkEvent>,
    pub network_exchanges: Vec<NetworkExchange>,
    pub memory_events: Vec<MemoryEvent>,
    pub system: Vec<SystemEvent>,
    pub timeline: Vec<TimelineEvent>,
    pub warnings: Vec<String>,
    pub termination: Option<Termination>,
    pub truncated: bool,
    pub unique_api_names: Vec<String>,
    pub modeled_api_calls: usize,
    pub unmodeled_api_calls: usize,
    pub files: Vec<(String, Vec<u8>)>,
    pub descriptors: Vec<(i32, FileDescriptor)>,
    pub next_fd: i32,
    pub heap_next: u64,
    pub brk: u64,
    pub mmap_next: u64,
    pub network_runtime: NetworkRuntime,
    pub network_mode: NetworkMode,
}

/// The machine as values.
pub struct LinuxView {
    pub cpu: Cpu64,
    pub fs_base: u64,
    pub memory: Seq<RegionView64>,
    pub allocated: nat,
    pub initial_rsp: u64,
    pub argv: u64,
    pub envp: u64,
    pub instruction_count: u64,
    pub virtual_time_ms: u64,
    pub api_calls: Seq<ApiEvent>,
    pub processes: Seq<ProcessEvent>,
    pub filesystem_events: Seq<FileEvent>,
    pub network_events: Seq<NetworkEvent>,
    pub network_exchanges: Seq<NetworkExchange>,
    pub memory_events: Seq<MemoryEvent>,
    pub system: Seq<SystemEvent>,
    pub timeline: Seq<TimelineEvent>,
    pub warnings: Seq<Seq<char>>,
    pub termination: Option<Termination>,
    pub truncated: bool,
    pub unique_api_names: Seq<Seq<char>>,
    pub modeled_api_calls: usize,
    pub unmodeled_api_calls: usize,
    pub files: Seq<(Seq<char>, Seq<u8>)>,
    pub descriptors: Seq<(i32, DescriptorView)>,
    pub next_fd: i32,
    pub heap_next: u64,
    pub brk: u64,
    pub mmap_next: u64,
    pub sockets: Map<u32, NetworkHandleView>,
    pub scenario: NetworkScenario,
    pub network_mode: NetworkMode,
}

impl View for LinuxMachine {
    type V = LinuxView;

    open spec fn view(&self) -> LinuxView {
        LinuxView {
            cpu: self.cpu,
            fs_base: self.fs_base,
            memory: self.memory@,
            allocated: self.memory.allocated_bytes(),
            initial_rsp: self.initial_rsp,
            argv: self.argv,
            envp: self.envp,
            instruction_count: self.instruction_count,
            virtual_time_ms: self.virtual_time_ms,
            api_calls: self.api_calls@,
            processes: self.processes@,
            filesystem_events: self.filesystem_events@,
            network_events: self.network_events@,
            network_exchanges: self.network_exchanges@,
            memory_events: self.memory_events@,
            system: self.system@,
            timeline: self.timeline@,
            warnings: self.warnings@.map_values(|w: String| w@),
            termination: self.termination,
            truncated: self.truncated,
            unique_api_names: self.unique_api_names@.map_values(|w: String| w@),
            modeled_api_calls: self.modeled_api_calls,
            unmodeled_api_calls: self.unmodeled_api_calls,
            files: store_view(self.files@),
            descriptors: table_view(self.descriptors@),
            next_fd: self.next_fd,
            heap_next: self.heap_next,
            brk: self.brk,
            mmap_next: self.mmap_next,
            sockets: self.network_runtime.handles_view(),
            scenario: self.network_runtime.scenario_view(),
            network_mode: self.network_mode,
        }
    }
}

/// Descriptor numbers rise through the table and stay below the next one
/// to be handed out.
pub open spec fn table_wf(t: Seq<(i32, DescriptorView)>, next_fd: i32) -> bool {
    &&& forall|a: int, b: int| 0 <= a < b < t.len() ==> (#[trigger] t[a]).0 < (#[trigger] t[b]).0
    &&& forall|a: int| 0 <= a < t.len() ==> (#[trigger] t[a]).0 < next_fd
}

/// Every socket descriptor has its socket state in the network runtime.
pub open spec fn sockets_registered(t: Seq<(i32, DescriptorView)>, sockets: Map<u32, NetworkHandleView>) -> bool {
    forall|i: int|
        0 <= i < t.len() && (#[trigger] t[i]).1.socket ==> sockets.contains_key(t[i].0 as u32) && sockets[t[i].0 as u32] is Socket
}

/// The NUL-terminated string at `address` (at most `max` bytes), decoded.
pub open spec fn c_text64(m: Seq<RegionView64>, address: u64, max: nat) -> Seq<char> {
    lossy_utf8(c_string_bytes64(m, address, max))
}

/// Memory after the writes in `writes`, made in order and stopping at the
/// first that fails; `r` is that failure or success.
pub open spec fn writes_outcome(
    before: Seq<RegionView64>,
    after: Seq<RegionView64>,
    writes: Seq<(u64, Seq<u8>)>,
    r: Result<(), DynamicError>,
) -> bool
    decreases writes.len(),
{
    if writes.len() == 0 {
        after == before && r is Ok
    } else {
        exists|mid: Seq<RegionView64>, first: Result<(), DynamicError>|
            #![trigger Memory64::write_outcome(before, mid, writes[0].0, writes[0].1, false, first)]
            Memory64::write_outcome(before, mid, writes[0].0, writes[0].1, false, first) && if first is Err {
                after == mid && r == first
            } else {
                writes_outcome(mid, after, writes.drop_first(), r)
            }
    }
}

impl LinuxMachine {
    /// The machine is well formed: its memory and network state are, and
    /// its descriptor table is ordered below `next_fd`.
    pub open spec fn wf(&self) -> bool {
        &&& self.memory.wf()
        &&& self.network_runtime.wf()
        &&& table_wf(table_view(self.descriptors@), self.next_fd)
        &&& self.next_fd >= 0
        &&& sockets_registered(table_view(self.descriptors@), self.network_runtime.handles_view())
        &&& self.modeled_api_calls <= self.api_calls@.len()
        &&& distinct_keys(store_view(self.files@))
    }
}

// ----- the heap, the clock and fixed answers -----

/// The size the libc allocator hands out for a request: clamped to
/// `1..=MAX_IO_BYTES` and rounded up to 16 bytes.
pub open spec fn heap_block(size: usize) -> u64 {
    let clamped: int = if size < 1 { 1 } else if size > MAX_IO_BYTES { MAX_IO_BYTES as int } else { size as int };
    (((clamped + 15) / 16) * 16) as u64
}

/// What `allocate_heap` does: the block starts at `heap_next` when it
/// fits below the heap's end (and the result is 0 otherwise).
pub open spec fn heap_outcome(old: LinuxView, new: LinuxView, size: usize, address: u64) -> bool {
    let next: int = old.heap_next + heap_block(size);
    if next > LINUX_HEAP_BASE + LINUX_HEAP_SIZE {
        new == old && address == 0
    } else {
        new == LinuxView { heap_next: next as u64, ..old } && address == old.heap_next
    }
}

/// What `brk` does: 0 asks for the current break; a break inside the heap
/// is taken; the result is the break afterwards.
pub open spec fn brk_outcome(old: LinuxView, new: LinuxView, requested: u64, result: u64) -> bool {
    if requested != 0 && LINUX_HEAP_BASE <= requested <= LINUX_HEAP_BASE + LINUX_HEAP_SIZE {
        new == LinuxView { brk: requested, ..old } && result == requested
    } else {
        new == old && result == old.brk
    }
}

/// The bytes `getrandom` produces: `NOPE-LINUX-RANDOM` over and over.
pub open spec fn random_pattern() -> Seq<u8> {
    seq![78u8, 79, 80, 69, 45, 76, 73, 78, 85, 88, 45, 82, 65, 78, 68, 79, 77]
}

pub open spec fn random_bytes(n: nat) -> Seq<u8> {
    Seq::new(n, |i: int| random_pattern()[i % 17])
}

/// How many bytes `getrandom` produces for a request: at most 4096.
pub open spec fn random_len(size: usize) -> nat {
    if size < 4096 { size as nat } else { 4096 }
}

/// What `getrandom` does: the pattern bytes are written.
pub open spec fn getrandom_outcome(old: LinuxView, new: LinuxView, output: u64, size: usize, r: Result<u64, DynamicError>) -> bool {
    wrote_result(old, new, output, random_bytes(random_len(size)), random_len(size) as u64, r)
}

/// The two little-endian words of a `timespec` for `ms` milliseconds,
/// at `address` and eight bytes on.
pub open spec fn clock_writes(address: u64, ms: u64) -> Seq<(u64, Seq<u8>)> {
    seq![(address, le_bytes((ms / 1000) as nat, 8)), (add64(address, 8), le_bytes(((ms % 1000) * 1000000) as nat, 8))]
}

/// What the clock calls do: a `timespec` of the virtual time goes to a
/// non-null `address`; the result is 0.
pub open spec fn clock_outcome(old: LinuxView, new: LinuxView, address: u64, r: Result<u64, DynamicError>) -> bool {
    if address == 0 {
        new == old && r == Ok::<u64, DynamicError>(0)
    } else {
        exists|w: Result<(), DynamicError>|
            #![trigger writes_outcome(old.memory, new.memory, clock_writes(address, old.virtual_time_ms), w)]
            writes_outcome(old.memory, new.memory, clock_writes(address, old.virtual_time_ms), w)
                && new == LinuxView { memory: new.memory, ..old } && match w {
                Ok(()) => r == Ok::<u64, DynamicError>(0),
                Err(e) => r == Err::<u64, DynamicError>(e),
            }
    }
}

/// One write of `bytes` at `address` and nothing else changed; the result
/// is `value` or the write's failure.
pub open spec fn wrote_result(old: LinuxView, new: LinuxView, address: u64, bytes: Seq<u8>, value: u64, r: Result<u64, DynamicError>) -> bool {
    exists|w: Result<(), DynamicError>|
        #![trigger Memory64::write_outcome(old.memory, new.memory, address, bytes, false, w)]
        Memory64::write_outcome(old.memory, new.memory, address, bytes, false, w) && new == LinuxView {
            memory: new.memory,
            ..old
        } && match w {
            Ok(()) => r == Ok::<u64, DynamicError>(value),
            Err(e) => r == Err::<u64, DynamicError>(e),
        }
}

/// `a + b` modulo 2^64.
pub open spec fn add64(a: u64, b: int) -> u64 {
    ((a + b) % 0x1_0000_0000_0000_0000) as u64
}

proof fn lemma_one_write(before: Seq<RegionView64>, after: Seq<RegionView64>, address: u64, bytes: Seq<u8>, r: Result<(), DynamicError>)
    requires
        Memory64::write_outcome(before, after, address, bytes, false, r),
    ensures
        writes_outcome(before, after, seq![(address, bytes)], r),
{
    let w = seq![(address, bytes)];
    assert(w[0] == (address, bytes));
    assert(w.drop_first() =~= Seq::<(u64, Seq<u8>)>::empty());
    assert(writes_outcome(after, after, w.drop_first(), r) <==> r is Ok);
    assert(Memory64::write_outcome(before, after, w[0].0, w[0].1, false, r));
}

proof fn lemma_writes_step(
    before: Seq<RegionView64>,
    mid: Seq<RegionView64>,
    after: Seq<RegionView64>,
    head: (u64, Seq<u8>),
    rest: Seq<(u64, Seq<u8>)>,
    first: Result<(), DynamicError>,
    r: Result<(), DynamicError>,
)
    requires
        Memory64::write_outcome(before, mid, head.0, head.1, false, first),
        first is Err ==> after == mid && r == first,
        first is Ok ==> writes_outcome(mid, after, rest, r),
    ensures
        writes_outcome(before, after, seq![head] + rest, r),
{
    let w = seq![head] + rest;
    assert(w[0] == head);
    assert(w.drop_first() =~= rest);
    assert(Memory64::write_outcome(before, mid, w[0].0, w[0].1, false, first));
}

fn nanos_of(ms: u64) -> (n: u64)
    ensures
        n == (ms % 1000) * 1000000,
{
    (ms % 1000) * 1000000
}

impl LinuxMachine {
    /// Hands out a heap block of `heap_block(size)` bytes, or 0 when the
    /// heap is exhausted.
    pub fn allocate_heap(&mut self, size: usize) -> (address: u64)
        requires
            old(self).wf(),
        ensures
            final(self).wf(),
            heap_outcome(old(self)@, final(self)@, size, address),
    {
        let clamped: usize = if size < 1 { 1 } else if size > MAX_IO_BYTES { MAX_IO_BYTES } else { size };
        let block: u64 = ((clamped as u64 + 15) / 16) * 16;
        let address = self.heap_next;
        let next = address.saturating_add(block);
        if next > LINUX_HEAP_BASE + LINUX_HEAP_SIZE {
            return 0;
        }
        self.heap_next = next;
        address
    }

    /// `brk`: reports or moves the program break inside the heap.
    pub fn sys_brk(&mut self, requested: u64) -> (result: u64)
        requires
            old(self).wf(),
        ensures
            final(self).wf(),
            brk_outcome(old(self)@, final(self)@, requested, result),
    {
        if requested == 0 {
            return self.brk;
        }
        let maximum = LINUX_HEAP_BASE + LINUX_HEAP_SIZE;
        if requested >= LINUX_HEAP_BASE && requested <= maximum {
            self.brk = requested;
        }
        self.brk
    }

    /// `getrandom`: fills the buffer with the fixed pattern.
    pub fn sys_getrandom(&mut self, output: u64, size: usize) -> (r: Result<u64, DynamicError>)
        requires
            old(self).wf(),
        ensures
            final(self).wf(),
            getrandom_outcome(old(self)@, final(self)@, output, size, r),
    {
        let n: usize = if size < 4096 { size } else { 4096 };
        let pattern: [u8; 17] = [78, 79, 80, 69, 45, 76, 73, 78, 85, 88, 45, 82, 65, 78, 68, 79, 77];
        assert(pattern@ =~= random_pattern());
        let mut bytes: Vec<u8> = Vec::new();
        let mut i: usize = 0;
        while i < n
            invariant
                i <= n,
                pattern@ == random_pattern(),
                bytes@ =~= random_bytes(i as nat),
            decreases n - i,
        {
            bytes.push(pattern[i % 17]);
            i = i + 1;
        }
        let ghost m0 = self.memory@;
        let w = self.memory.write(output, bytes.as_slice());
        assert(Memory64::write_outcome(old(self)@.memory, self@.memory, output, random_bytes(random_len(size)), false, w));
        match w {
            Ok(()) => Ok(n as u64),
            Err(e) => Err(e),
        }
    }

    /// `gettimeofday` / `clock_gettime`: the virtual clock as a `timespec`.
    pub fn sys_clock(&mut self, address: u64) -> (r: Result<u64, DynamicError>)
        requires
            old(self).wf(),
        ensures
            final(self).wf(),
            clock_outcome(old(self)@, final(self)@, address, r),
    {
        if address != 0 {
            let seconds = self.virtual_time_ms / 1000;
            let nanos = nanos_of(self.virtual_time_ms);
            let ghost m0 = self.memory@;
            let first = self.memory.write_u64(address, seconds);
            let ghost m1 = self.memory@;
            if let Err(e) = first {
                proof {
                    lemma_writes_step(m0, m1, m1, (address, le_bytes(seconds as nat, 8)), seq![(add64(address, 8), le_bytes(nanos as nat, 8))], first, first);
                    assert(seq![(address, le_bytes(seconds as nat, 8))] + seq![(add64(address, 8), le_bytes(nanos as nat, 8))]
                        =~= clock_writes(address, self.virtual_time_ms));
                    assert(writes_outcome(m0, self.memory@, clock_writes(address, self.virtual_time_ms), first));
                    assert(writes_outcome(old(self)@.memory, self@.memory, clock_writes(address, old(self)@.virtual_time_ms), first));
                }
                return Err(e);
            }
            let second_address = address.wrapping_add(8);
            assert(second_address == add64(address, 8));
            let second = self.memory.write_u64(second_address, nanos);
            proof {
                lemma_one_write(m1, self.memory@, second_address, le_bytes(nanos as nat, 8), second);
                lemma_writes_step(m0, m1, self.memory@, (address, le_bytes(seconds as nat, 8)), seq![(add64(address, 8), le_bytes(nanos as nat, 8))], first, second);
                assert(seq![(address, le_bytes(seconds as nat, 8))] + seq![(add64(address, 8), le_bytes(nanos as nat, 8))]
                    =~= clock_writes(address, self.virtual_time_ms));
                assert(writes_outcome(m0, self.memory@, clock_writes(address, self.virtual_time_ms), second));
                assert(writes_outcome(old(self)@.memory, self@.memory, clock_writes(address, old(self)@.virtual_time_ms), second));
            }
            if let Err(e) = second {
                return Err(e);
            }
        }
        Ok(0)
    }
}

// ----- fixed system answers -----

/// The text of field `i` of the synthetic `struct utsname`.
pub open spec fn uname_text(i: int) -> Seq<char> {
    if i == 0 {
        "Linux"@
    } else if i == 1 {
        "NOPE-LINUX"@
    } else if i == 2 {
        "6.8.0-nope"@
    } else if i == 3 {
        "#1 SMP"@
    } else if i == 4 {
        "x86_64"@
    } else {
        "localdomain"@
    }
}

/// ASCII text as bytes, padded with NULs to `width`.
pub open spec fn padded_ascii(t: Seq<char>, width: nat) -> Seq<u8> {
    t.map_values(|c: char| c as u8) + Seq::new((width - t.len()) as nat, |j: int| 0u8)
}

/// The six 65-byte fields `uname` writes, one after another from `address`.
pub open spec fn uname_writes(address: u64) -> Seq<(u64, Seq<u8>)> {
    Seq::new(6, |i: int| (add64(address, 65 * i), padded_ascii(uname_text(i), 65)))
}

/// What `uname` does: the fields are written in order; the result is 0
/// or the first failed write.
pub open spec fn uname_outcome(old: LinuxView, new: LinuxView, address: u64, r: Result<u64, DynamicError>) -> bool {
    exists|w: Result<(), DynamicError>|
        #![trigger writes_outcome(old.memory, new.memory, uname_writes(address), w)]
        writes_outcome(old.memory, new.memory, uname_writes(address), w) && new == LinuxView { memory: new.memory, ..old }
            && match w {
            Ok(()) => r == Ok::<u64, DynamicError>(0),
            Err(e) => r == Err::<u64, DynamicError>(e),
        }
}

proof fn lemma_writes_extend(
    before: Seq<RegionView64>,
    mid: Seq<RegionView64>,
    after: Seq<RegionView64>,
    ws: Seq<(u64, Seq<u8>)>,
    k: int,
    first: Result<(), DynamicError>,
)
    requires
        0 <= k < ws.len(),
        writes_outcome(before, mid, ws.take(k), Ok(())),
        Memory64::write_outcome(mid, after, ws[k].0, ws[k].1, false, first),
    ensures
        first is Ok ==> writes_outcome(before, after, ws.take(k + 1), Ok(())),
        first is Err ==> writes_outcome(before, after, ws, first),
    decreases k,
{
    if k == 0 {
        assert(ws.take(0).len() == 0);
        assert(mid == before);
        let one = ws.take(1);
        assert(one[0] == ws[0]);
        assert(one.drop_first() =~= Seq::<(u64, Seq<u8>)>::empty());
        assert(writes_outcome(after, after, one.drop_first(), Ok(())));
        assert(Memory64::write_outcome(before, after, one[0].0, one[0].1, false, first));
        assert(Memory64::write_outcome(before, after, ws[0].0, ws[0].1, false, first));
    } else {
        let pre = ws.take(k);
        assert(pre[0] == ws[0]);
        let (m1, f1) = choose|m1: Seq<RegionView64>, f1: Result<(), DynamicError>|
            Memory64::write_outcome(before, m1, pre[0].0, pre[0].1, false, f1) && if f1 is Err {
                mid == m1 && Ok::<(), DynamicError>(()) == f1
            } else {
                writes_outcome(m1, mid, pre.drop_first(), Ok(()))
            };
        let rest = ws.drop_first();
        assert(pre.drop_first() =~= rest.take(k - 1));
        assert(rest[k - 1] == ws[k]);
        lemma_writes_extend(m1, mid, after, rest, k - 1, first);
        if first is Ok {
            let longer = ws.take(k + 1);
            assert(longer[0] == ws[0]);
            assert(longer.drop_first() =~= rest.take(k));
            assert(Memory64::write_outcome(before, m1, longer[0].0, longer[0].1, false, f1));
        } else {
            assert(ws.drop_first() == rest);
            assert(Memory64::write_outcome(before, m1, ws[0].0, ws[0].1, false, f1));
        }
    }
}

fn ascii_field(text: &str, width: usize) -> (r: Vec<u8>)
    requires
        vstd::utf8::is_ascii_chars(text@),
        text@.len() <= width,
    ensures
        r@ == padded_ascii(text@, width as nat),
{
    let bytes = text.as_bytes();
    proof {
        vstd::utf8::is_ascii_chars_encode_utf8(text@);
    }
    let mut r: Vec<u8> = Vec::new();
    let mut i: usize = 0;
    while i < bytes.len()
        invariant
            i <= bytes@.len(),
            bytes@ == vstd::utf8::encode_utf8(text@),
            bytes@.len() == text@.len(),
            forall|j: int| 0 <= j < text@.len() ==> text@[j] as u8 == bytes@[j],
            r@ =~= text@.subrange(0, i as int).map_values(|c: char| c as u8),
        decreases bytes@.len() - i,
    {
        r.push(bytes[i]);
        i = i + 1;
    }
    assert(text@.subrange(0, text@.len() as int) =~= text@);
    let ghost head = r@;
    while i < width
        invariant
            text@.len() <= i <= width,
            head == text@.map_values(|c: char| c as u8),
            r@ =~= head + Seq::new((i - text@.len()) as nat, |j: int| 0u8),
        decreases width - i,
    {
        r.push(0);
        i = i + 1;
    }
    r
}

fn uname_field(i: usize) -> (r: Vec<u8>)
    requires
        i < 6,
    ensures
        r@ == padded_ascii(uname_text(i as int), 65),
{
    proof {
        reveal_strlit("Linux");
        reveal_strlit("NOPE-LINUX");
        reveal_strlit("6.8.0-nope");
        reveal_strlit("#1 SMP");
        reveal_strlit("x86_64");
        reveal_strlit("localdomain");
    }
    if i == 0 {
        ascii_field("Linux", 65)
    } else if i == 1 {
        ascii_field("NOPE-LINUX", 65)
    } else if i == 2 {
        ascii_field("6.8.0-nope", 65)
    } else if i == 3 {
        ascii_field("#1 SMP", 65)
    } else if i == 4 {
        ascii_field("x86_64", 65)
    } else {
        ascii_field("localdomain", 65)
    }
}

impl LinuxMachine {
    /// `uname`: writes the synthetic system's identity.
    pub fn sys_uname(&mut self, address: u64) -> (r: Result<u64, DynamicError>)
        requires
            old(self).wf(),
        ensures
            final(self).wf(),
            uname_outcome(old(self)@, final(self)@, address, r),
    {
        let ghost ws = uname_writes(address);
        let ghost m0 = self.memory@;
        let mut index: usize = 0;
        assert(ws.take(0) =~= Seq::<(u64, Seq<u8>)>::empty());
        while index < 6
            invariant
                index <= 6,
                self.memory.wf(),
                ws == uname_writes(address),
                m0 == old(self)@.memory,
                writes_outcome(m0, self.memory@, ws.take(index as int), Ok(())),
                self@ == (LinuxView { memory: self@.memory, ..old(self)@ }),
                self.network_runtime.wf(),
                table_wf(table_view(self.descriptors@), self.next_fd),
                self.next_fd >= 0,
                sockets_registered(table_view(self.descriptors@), self.network_runtime.handles_view()),
                self.modeled_api_calls <= self.api_calls@.len(),
                distinct_keys(store_view(self.files@)),
            decreases 6 - index,
        {
            let field = uname_field(index);
            let at = address.wrapping_add(65 * index as u64);
            assert(at == add64(address, 65 * index));
            assert(ws[index as int] == (at, field@));
            let ghost mid = self.memory@;
            let w = self.memory.write(at, field.as_slice());
            proof {
                lemma_writes_extend(m0, mid, self.memory@, ws, index as int, w);
            }
            if let Err(e) = w {
                assert(writes_outcome(old(self)@.memory, self@.memory, uname_writes(address), w));
                return Err(e);
            }
            index = index + 1;
        }
        assert(ws.take(6) =~= ws);
        assert(writes_outcome(old(self)@.memory, self@.memory, uname_writes(address), Ok(())));
        Ok(0)
    }
}

// ----- the timeline, processes, links, file status and thread bases -----

pub open spec fn timeline_event_is(
    e: TimelineEvent,
    sequence: int,
    instruction: u64,
    virtual_time_ms: u64,
    category: Seq<char>,
    operation: Seq<char>,
    subject: Seq<char>,
    source: Seq<char>,
) -> bool {
    &&& e.sequence == sequence && e.instruction == instruction && e.virtual_time_ms == virtual_time_ms
    &&& e.category@ == category && e.operation@ == operation && e.subject@ == subject && e.source_api@ == source
}

/// What `record_timeline` does: one event is appended while fewer than
/// `HARD_MAX_API_EVENTS` are held; past that only `truncated` is set.
pub open spec fn timeline_outcome(
    old: LinuxView,
    new: LinuxView,
    category: Seq<char>,
    operation: Seq<char>,
    subject: Seq<char>,
    source: Seq<char>,
) -> bool {
    if old.timeline.len() >= HARD_MAX_API_EVENTS {
        new == LinuxView { truncated: true, ..old }
    } else {
        &&& new == LinuxView { timeline: new.timeline, ..old }
        &&& appended(old.timeline, new.timeline)
        &&& timeline_event_is(
            new.timeline.last(),
            old.timeline.len() as int,
            old.instruction_count,
            old.virtual_time_ms,
            category,
            operation,
            subject,
            source,
        )
    }
}

/// What `execve` does: the command is recorded as a denied process and on
/// the timeline; the result is `-EACCES`.
pub open spec fn execve_outcome(old: LinuxView, new: LinuxView, path_pointer: u64, result: u64) -> bool {
    let command = c_text64(old.memory, path_pointer, 4096);
    let mid = LinuxView { processes: new.processes, ..old };
    &&& appended(old.processes, new.processes)
    &&& process_event_is(new.processes.last(), "execve"@, command, "denied by synthetic Linux runtime"@)
    &&& timeline_outcome(mid, new, "process"@, "execve"@, command, "linux syscall"@)
    &&& result == errno_spec(13)
}

/// The target `readlink` reports for `/proc/self/exe`.
pub open spec fn exe_link() -> Seq<char> {
    "/sample/nope-linux"@
}

/// How many bytes of the link target fit in `size`.
pub open spec fn link_len(size: usize) -> nat {
    if size < exe_link().len() { size as nat } else { exe_link().len() }
}

/// The first `n` bytes of the link target.
pub open spec fn link_bytes(n: nat) -> Seq<u8> {
    exe_link().map_values(|c: char| c as u8).take(n as int)
}

/// What `readlink` does: only `/proc/self/exe` resolves; its target, cut to
/// `size` bytes, is written.
pub open spec fn readlink_outcome(old: LinuxView, new: LinuxView, path_pointer: u64, output: u64, size: usize, r: Result<u64, DynamicError>) -> bool {
    if c_text64(old.memory, path_pointer, 4096) != "/proc/self/exe"@ {
        new == old && r == Ok::<u64, DynamicError>(errno_spec(2))
    } else {
        wrote_result(old, new, output, link_bytes(link_len(size)), link_len(size) as u64, r)
    }
}

/// The 144-byte `struct stat` of a regular file of `length` bytes: mode
/// `0o100644` at offset 24, the size at offset 48, zeros elsewhere.
pub open spec fn stat_record(length: nat) -> Seq<u8> {
    Seq::new(
        144,
        |i: int|
            if 24 <= i < 28 {
                le_bytes(0o100644, 4)[i - 24]
            } else if 48 <= i < 56 {
                le_bytes(length, 8)[i - 48]
            } else {
                0u8
            },
    )
}

/// What `newfstatat` does: a file of the virtual filesystem gets its
/// status written; any other path gives `-ENOENT`.
pub open spec fn stat_outcome(old: LinuxView, new: LinuxView, path_pointer: u64, output: u64, r: Result<u64, DynamicError>) -> bool {
    match lookup(old.files, c_text64(old.memory, path_pointer, 4096)) {
        None => new == old && r == Ok::<u64, DynamicError>(errno_spec(2)),
        Some(data) => wrote_result(old, new, output, stat_record(data.len()), 0, r),
    }
}

pub open spec fn system_event_is(e: SystemEvent, category: Seq<char>, operation: Seq<char>, target: Seq<char>, detail: Seq<char>, result: u64) -> bool {
    e.category@ == category && e.operation@ == operation && e.target@ == target && e.detail@ == detail && e.result == result
}

/// `0x` and sixteen hexadecimal digits.
pub open spec fn hex16(n: u64) -> Seq<char> {
    "0x"@ + pad_left(hex_lower(n as nat), 16, '0')
}

/// The `arch_prctl` system event for `code` and `address`.
pub open spec fn prctl_recorded(old: LinuxView, new: LinuxView, code: u64, address: u64) -> bool {
    appended(old.system, new.system) && system_event_is(
        new.system.last(),
        "process"@,
        "arch_prctl"@,
        hex16(address),
        "code 0x"@ + hex_lower(code as nat),
        0,
    )
}

/// A base `value` stored to `address`: on success the event is recorded.
pub open spec fn base_stored(old: LinuxView, new: LinuxView, code: u64, address: u64, value: u64, r: Result<u64, DynamicError>) -> bool {
    exists|w: Result<(), DynamicError>|
        #![trigger Memory64::write_outcome(old.memory, new.memory, address, le_bytes(value as nat, 8), false, w)]
        Memory64::write_outcome(old.memory, new.memory, address, le_bytes(value as nat, 8), false, w) && match w {
            Ok(()) => new == LinuxView { memory: new.memory, system: new.system, ..old } && prctl_recorded(old, new, code, address)
                && r == Ok::<u64, DynamicError>(0),
            Err(e) => new == LinuxView { memory: new.memory, ..old } && r == Err::<u64, DynamicError>(e),
        }
}

/// What `arch_prctl` does: `SET_FS`/`SET_GS` load a base, `GET_FS`/`GET_GS`
/// store one to a non-null address; anything else is `-EINVAL`.
pub open spec fn arch_prctl_outcome(old: LinuxView, new: LinuxView, code: u64, address: u64, r: Result<u64, DynamicError>) -> bool {
    if code == 0x1002 {
        new == LinuxView { fs_base: address, system: new.system, ..old } && prctl_recorded(old, new, code, address) && r
            == Ok::<u64, DynamicError>(0)
    } else if code == 0x1001 {
        new == LinuxView { cpu: Cpu64 { gs_base: address, ..old.cpu }, system: new.system, ..old } && prctl_recorded(
            old,
            new,
            code,
            address,
        ) && r == Ok::<u64, DynamicError>(0)
    } else if (code == 0x1003 || code == 0x1004) && address != 0 {
        base_stored(old, new, code, address, if code == 0x1003 { old.fs_base } else { old.cpu.gs_base }, r)
    } else {
        new == old && r == Ok::<u64, DynamicError>(errno_spec(22))
    }
}

/// How an error ends a Linux run: a memory fault at the faulting address,
/// or an unsupported instruction at `address` carrying the message.
pub open spec fn stop_termination(t: Termination, error: DynamicError, address: u64, operation: Seq<char>) -> bool {
    match error {
        DynamicError::MemoryRead { address: a } => t matches Termination::MemoryFault { address: x, operation: o } && x == a
            && o@ == operation,
        DynamicError::MemoryWrite { address: a } => t matches Termination::MemoryFault { address: x, operation: o } && x == a
            && o@ == operation,
        DynamicError::MemoryExecute { address: a } => t matches Termination::MemoryFault { address: x, operation: o } && x
            == a && o@ == operation,
        _ => t matches Termination::UnsupportedInstruction { address: x, instruction: i } && x == address && i@
            == error_message(error),
    }
}

fn text_is(s: &String, literal: &str) -> (r: bool)
    ensures
        r == (s@ == literal@),
{
    *s == literal.to_owned()
}

impl LinuxMachine {
    /// Appends a timeline event, or marks the run truncated when the
    /// timeline is full.
    pub fn record_timeline(&mut self, category: &str, operation: &str, subject: String, source: &str)
        requires
            old(self).wf(),
        ensures
            final(self).wf(),
            timeline_outcome(old(self)@, final(self)@, category@, operation@, subject@, source@),
    {
        if self.timeline.len() >= HARD_MAX_API_EVENTS {
            self.truncated = true;
            return;
        }
        let ghost before = self.timeline@;
        self.timeline.push(TimelineEvent {
            sequence: self.timeline.len() as u64,
            instruction: self.instruction_count,
            virtual_time_ms: self.virtual_time_ms,
            category: category.to_owned(),
            operation: operation.to_owned(),
            subject,
            source_api: source.to_owned(),
        });
        assert(self.timeline@.drop_last() =~= before);
    }

    /// `execve`: records the command and denies it.
    pub fn sys_execve(&mut self, path_pointer: u64) -> (result: u64)
        requires
            old(self).wf(),
        ensures
            final(self).wf(),
            execve_outcome(old(self)@, final(self)@, path_pointer, result),
    {
        let command = self.memory.read_c_string(path_pointer, 4096);
        let ghost before = self.processes@;
        self.processes.push(ProcessEvent {
            operation: "execve".to_owned(),
            command: command.clone(),
            synthetic_result: "denied by synthetic Linux runtime".to_owned(),
        });
        assert(self.processes@.drop_last() =~= before);
        self.record_timeline("process", "execve", command, "linux syscall");
        errno(13)
    }

    /// `readlink`: resolves `/proc/self/exe` only.
    pub fn sys_readlink(&mut self, path_pointer: u64, output: u64, size: usize) -> (r: Result<u64, DynamicError>)
        requires
            old(self).wf(),
        ensures
            final(self).wf(),
            readlink_outcome(old(self)@, final(self)@, path_pointer, output, size, r),
    {
        let path = self.memory.read_c_string(path_pointer, 4096);
        proof {
            reveal_strlit("/proc/self/exe");
            reveal_strlit("/sample/nope-linux");
        }
        if !text_is(&path, "/proc/self/exe") {
            return Ok(errno(2));
        }
        let target = ascii_field("/sample/nope-linux", 18);
        assert(target@ =~= exe_link().map_values(|c: char| c as u8));
        let n: usize = if size < 18 { size } else { 18 };
        let bytes = slice_subrange(target.as_slice(), 0, n);
        assert(exe_link().len() == 18);
        assert(bytes@ =~= exe_link().map_values(|c: char| c as u8).take(n as int));
        let w = self.memory.write(output, bytes);
        assert(bytes@ == link_bytes(link_len(size)));
        assert(Memory64::write_outcome(old(self)@.memory, self@.memory, output, link_bytes(link_len(size)), false, w));
        let r = match w {
            Ok(()) => Ok(n as u64),
            Err(e) => Err(e),
        };
        assert(readlink_outcome(old(self)@, self@, path_pointer, output, size, r));
        r
    }

    /// `newfstatat`: the status of a virtual file.
    pub fn sys_stat(&mut self, path_pointer: u64, output: u64) -> (r: Result<u64, DynamicError>)
        requires
            old(self).wf(),
        ensures
            final(self).wf(),
            stat_outcome(old(self)@, final(self)@, path_pointer, output, r),
    {
        let path = self.memory.read_c_string(path_pointer, 4096);
        let key = chars_of(path.as_str());
        proof {
            lemma_key_index(store_view(self.files@), key@);
        }
        let index = match find_entry(&self.files, &key) {
            Some(i) => i,
            None => {
                return Ok(errno(2));
            },
        };
        let length = self.files[index].1.len();
        assert(store_view(self.files@)[index as int].1 == self.files@[index as int].1@);
        let mode = to_le_bytes_u64(0o100644, 4);
        let size = to_le_bytes_u64(length as u64, 8);
        let mut record: Vec<u8> = Vec::new();
        let mut i: usize = 0;
        while i < 144
            invariant
                i <= 144,
                mode@ == le_bytes(0o100644, 4),
                size@ == le_bytes(length as nat, 8),
                mode@.len() == 4,
                size@.len() == 8,
                record@.len() == i,
                forall|j: int| 0 <= j < i ==> record@[j] == stat_record(length as nat)[j],
            decreases 144 - i,
        {
            let b = if 24 <= i && i < 28 {
                mode[i - 24]
            } else if 48 <= i && i < 56 {
                size[i - 48]
            } else {
                0
            };
            record.push(b);
            i = i + 1;
        }
        assert(record@ =~= stat_record(length as nat));
        let w = self.memory.write(output, record.as_slice());
        assert(Memory64::write_outcome(old(self)@.memory, self@.memory, output, stat_record(length as nat), false, w));
        assert(lookup(old(self)@.files, c_text64(old(self)@.memory, path_pointer, 4096)) == Some(self.files@[index as int].1@));
        let r = match w {
            Ok(()) => Ok(0),
            Err(e) => Err(e),
        };
        assert(stat_outcome(old(self)@, self@, path_pointer, output, r));
        r
    }

    /// `arch_prctl`: loads or stores the FS and GS bases.
    pub fn sys_arch_prctl(&mut self, code: u64, address: u64) -> (r: Result<u64, DynamicError>)
        requires
            old(self).wf(),
        ensures
            final(self).wf(),
            arch_prctl_outcome(old(self)@, final(self)@, code, address, r),
    {
        if code == 0x1002 {
            self.fs_base = address;
        } else if code == 0x1001 {
            self.cpu.gs_base = address;
        } else if (code == 0x1003 || code == 0x1004) && address != 0 {
            let value = if code == 0x1003 { self.fs_base } else { self.cpu.gs_base };
            let w = self.memory.write_u64(address, value);
            assert(Memory64::write_outcome(old(self)@.memory, self@.memory, address, le_bytes(value as nat, 8), false, w));
            if let Err(e) = w {
                return Err(e);
            }
        } else {
            return Ok(errno(22));
        }
        let mut target = "0x".to_owned();
        push_hex_padded(&mut target, address, 16);
        let mut detail = "code 0x".to_owned();
        push_hex(&mut detail, code);
        let ghost before = self.system@;
        self.system.push(SystemEvent {
            category: "process".to_owned(),
            operation: "arch_prctl".to_owned(),
            target,
            detail,
            result: 0,
        });
        assert(self.system@.drop_last() =~= before);
        Ok(0)
    }

    /// Ends the run on `error`, raised at `address` during `operation`.
    pub fn stop_for_error(&mut self, error: DynamicError, address: u64, operation: &str)
        ensures
            old(self).wf() ==> final(self).wf(),
            final(self)@ == (LinuxView { termination: final(self)@.termination, ..old(self)@ }),
            final(self)@.termination matches Some(t) && stop_termination(t, error, address, operation@),
    {
        let termination = match error {
            DynamicError::MemoryRead { address } => Termination::MemoryFault { address, operation: operation.to_owned() },
            DynamicError::MemoryWrite { address } => Termination::MemoryFault { address, operation: operation.to_owned() },
            DynamicError::MemoryExecute { address } => Termination::MemoryFault { address, operation: operation.to_owned() },
            _ => Termination::UnsupportedInstruction { address, instruction: error.message() },
        };
        self.termination = Some(termination);
    }
}

// ----- descriptors and sockets -----

/// Position of descriptor `fd` in the table (-1 when it is not open).
pub open spec fn fd_index(t: Seq<(i32, DescriptorView)>, fd: i32) -> int
    decreases t.len(),
{
    if t.len() == 0 {
        -1
    } else if t.last().0 == fd {
        t.len() - 1
    } else {
        fd_index(t.drop_last(), fd)
    }
}

/// The open descriptor `fd`, if any.
pub open spec fn descriptor(t: Seq<(i32, DescriptorView)>, fd: i32) -> Option<DescriptorView> {
    let i = fd_index(t, fd);
    if i >= 0 {
        Some(t[i].1)
    } else {
        None
    }
}

proof fn lemma_fd_index(t: Seq<(i32, DescriptorView)>, fd: i32)
    ensures
        -1 <= fd_index(t, fd) < t.len(),
        fd_index(t, fd) >= 0 ==> t[fd_index(t, fd)].0 == fd,
        fd_index(t, fd) < 0 ==> forall|j: int| 0 <= j < t.len() ==> (#[trigger] t[j]).0 != fd,
    decreases t.len(),
{
    if t.len() > 0 && t.last().0 != fd {
        lemma_fd_index(t.drop_last(), fd);
        if fd_index(t, fd) < 0 {
            assert forall|j: int| 0 <= j < t.len() implies (#[trigger] t[j]).0 != fd by {
                if j < t.len() - 1 {
                    assert(t.drop_last()[j] == t[j]);
                }
            }
        }
    }
}

fn find_fd(v: &Vec<(i32, FileDescriptor)>, fd: i32) -> (r: Option<usize>)
    ensures
        match r {
            Some(i) => i as int == fd_index(table_view(v@), fd) && i < v@.len(),
            None => fd_index(table_view(v@), fd) == -1,
        },
{
    let ghost t = table_view(v@);
    let mut j: usize = v.len();
    assert(t.subrange(0, t.len() as int) =~= t);
    while j > 0
        invariant
            j <= v@.len(),
            t == table_view(v@),
            fd_index(t, fd) == fd_index(t.subrange(0, j as int), fd),
        decreases j,
    {
        let pre = Ghost(t.subrange(0, j as int));
        assert(pre@.drop_last() =~= t.subrange(0, j - 1));
        if v[j - 1].0 == fd {
            return Some(j - 1);
        }
        j = j - 1;
    }
    None
}

/// `O_CREAT`, `O_TRUNC` and a writable access mode in `open` flags.
pub open spec fn creates(flags: u64) -> bool {
    (flags / 64) % 2 == 1
}

pub open spec fn truncates(flags: u64) -> bool {
    (flags / 512) % 2 == 1
}

pub open spec fn opens_writable(flags: u64) -> bool {
    flags % 4 != 0
}

/// The files after opening `path`: created empty when asked for and
/// missing, emptied when truncated for writing.
pub open spec fn opened_files(files: Seq<(Seq<char>, Seq<u8>)>, path: Seq<char>, flags: u64) -> Seq<(Seq<char>, Seq<u8>)> {
    let created = if creates(flags) && lookup(files, path) is None { stored(files, path, Seq::empty()) } else { files };
    if truncates(flags) && opens_writable(flags) {
        stored(created, path, Seq::empty())
    } else {
        created
    }
}

/// What opening `path` does: an empty path is `-ENOENT`; a missing file
/// without `O_CREAT` is recorded as a failed open and `-ENOENT`; otherwise
/// the next descriptor is handed out at offset zero.
pub open spec fn open_outcome(old: LinuxView, new: LinuxView, path: Seq<char>, flags: u64, fd: i32) -> bool {
    if path.len() == 0 {
        new == old && fd == -2
    } else if lookup(old.files, path) is None && !creates(flags) {
        &&& new == LinuxView { filesystem_events: new.filesystem_events, ..old }
        &&& appended(old.filesystem_events, new.filesystem_events)
        &&& file_event_is(new.filesystem_events.last(), "open_failed"@, path, None, None)
        &&& fd == -2
    } else {
        &&& new == LinuxView {
            files: opened_files(old.files, path, flags),
            descriptors: old.descriptors.push(
                (old.next_fd, DescriptorView { path, cursor: 0, writable: opens_writable(flags), socket: false }),
            ),
            next_fd: (old.next_fd + 1) as i32,
            filesystem_events: new.filesystem_events,
            ..old
        }
        &&& appended(old.filesystem_events, new.filesystem_events)
        &&& file_event_is(new.filesystem_events.last(), "open"@, path, None, None)
        &&& fd == old.next_fd
    }
}

/// What closing `fd` does: an open descriptor (and any socket state) is
/// dropped with result 0; otherwise the result is `-EBADF`.
pub open spec fn close_outcome(old: LinuxView, new: LinuxView, fd: i32, r: i32) -> bool {
    let i = fd_index(old.descriptors, fd);
    if i >= 0 {
        new == LinuxView { descriptors: old.descriptors.remove(i), sockets: old.sockets.remove(fd as u32), ..old } && r == 0
    } else {
        new == old && r == -9
    }
}

/// What `socket` does: only IPv4 stream sockets are made (a new descriptor
/// named `socket:<fd>` and an unconnected socket); anything else is
/// `-EAFNOSUPPORT`.
pub open spec fn socket_outcome(old: LinuxView, new: LinuxView, domain: u64, kind: u64, result: u64) -> bool {
    if domain != 2 || kind % 16 != 1 {
        new == old && result == errno_spec(97)
    } else {
        &&& new == LinuxView {
            descriptors: old.descriptors.push(
                (
                    old.next_fd,
                    DescriptorView {
                        path: "socket:"@ + decimal(old.next_fd as nat),
                        cursor: 0,
                        writable: true,
                        socket: true,
                    },
                ),
            ),
            next_fd: (old.next_fd + 1) as i32,
            sockets: old.sockets.insert(
                old.next_fd as u32,
                NetworkHandleView::Socket { destination: None, response: Seq::empty(), cursor: 0 },
            ),
            ..old
        }
        &&& result == old.next_fd as u64
    }
}

/// The `length` bytes a read at `address` returns, if it succeeds.
pub open spec fn read64(m: Seq<RegionView64>, address: u64, length: nat) -> Option<Seq<u8>> {
    if any_region64(m, readable64(address as int, length as int)) {
        let i = choose|i: int| is_first64(m, readable64(address as int, length as int), i);
        Some(m[i].data.subrange(address - m[i].start, address - m[i].start + length))
    } else {
        None
    }
}

/// `a.b.c.d:port` of a `sockaddr_in`'s bytes.
pub open spec fn inet_text(b: Seq<u8>) -> Seq<char> {
    decimal(b[4] as nat) + "."@ + decimal(b[5] as nat) + "."@ + decimal(b[6] as nat) + "."@ + decimal(b[7] as nat) + ":"@
        + decimal((b[2] as nat) * 256 + b[3] as nat)
}

/// What `connect` does: it needs an open socket and a `sockaddr_in` of at
/// least 8 readable bytes of family `AF_INET`; offline profiles refuse with
/// `-ENETUNREACH`; otherwise the socket is pointed at its scripted peer.
pub open spec fn connect_outcome(old: LinuxView, new: LinuxView, fd: i32, sockaddr: u64, length: usize, result: u64) -> bool {
    let readable: nat = if length < 16 { length as nat } else { 16 };
    if !(descriptor(old.descriptors, fd) matches Some(d) && d.socket) || length < 8 {
        new == old && result == errno_spec(9)
    } else if read64(old.memory, sockaddr, readable) is None {
        new == old && result == errno_spec(14)
    } else if (read64(old.memory, sockaddr, readable)->0[0] as nat) + 256 * (read64(old.memory, sockaddr, readable)->0[1] as nat) != 2 {
        new == old && result == errno_spec(97)
    } else {
        connected(old, new, fd, inet_text(read64(old.memory, sockaddr, readable)->0), result)
    }
}

/// The socket `fd` connected to `destination`, or refused offline.
pub open spec fn connected(old: LinuxView, new: LinuxView, fd: i32, destination: Seq<char>, result: u64) -> bool {
    if old.network_mode == NetworkMode::Offline {
        &&& new == LinuxView { network_events: new.network_events, ..old }
        &&& appended(old.network_events, new.network_events)
        &&& network_event_is(new.network_events.last(), "connect"@, destination, None, None, "offline profile"@)
        &&& result == errno_spec(101)
    } else {
        &&& new == LinuxView {
            network_events: new.network_events,
            sockets: old.sockets.insert(
                fd as u32,
                NetworkHandleView::Socket {
                    destination: Some(destination),
                    response: crate::network::scripted_reply(old.scenario, destination),
                    cursor: 0,
                },
            ),
            ..old
        }
        &&& appended(old.network_events, new.network_events)
        &&& network_event_is(new.network_events.last(), "connect"@, destination, None, None, "connected to deterministic sink"@)
        &&& result == 0
    }
}

impl LinuxMachine {
    /// Opens `path` in the virtual filesystem.
    pub fn open_path(&mut self, path: String, flags: u64) -> (fd: i32)
        requires
            old(self).wf(),
            old(self).next_fd < i32::MAX,
        ensures
            final(self).wf(),
            open_outcome(old(self)@, final(self)@, path@, flags, fd),
    {
        if path.as_str().is_empty() {
            return -2;
        }
        let create = flags & 0o100 != 0;
        let truncate = flags & 0o1000 != 0;
        let writable = flags & 3 != 0;
        assert((flags & 0o100 != 0) == ((flags / 64) % 2 == 1)) by (bit_vector);
        assert((flags & 0o1000 != 0) == ((flags / 512) % 2 == 1)) by (bit_vector);
        assert((flags & 3 != 0) == (flags % 4 != 0)) by (bit_vector);
        let key = chars_of(path.as_str());
        proof {
            lemma_key_index(store_view(self.files@), key@);
        }
        let present = find_entry(&self.files, &key).is_some();
        assert(present == (lookup(store_view(self.files@), path@) is Some));
        if !present && !create {
            let ghost before = self.filesystem_events@;
            self.filesystem_events.push(FileEvent { operation: "open_failed".to_owned(), path, size: None, preview: None });
            assert(self.filesystem_events@.drop_last() =~= before);
            return -2;
        }
        if create && !present {
            proof {
                lemma_stored_distinct(store_view(self.files@), path@, Seq::empty());
            }
            store_entry(&mut self.files, path.clone(), Vec::new());
        }
        if truncate && writable {
            proof {
                lemma_stored_distinct(store_view(self.files@), path@, Seq::empty());
            }
            store_entry(&mut self.files, path.clone(), Vec::new());
        }
        assert(store_view(self.files@) == opened_files(store_view(old(self).files@), path@, flags));
        let fd = self.next_fd;
        self.next_fd = self.next_fd + 1;
        let ghost table = table_view(self.descriptors@);
        self.descriptors.push((fd, FileDescriptor { path: path.clone(), cursor: 0, writable, socket: false }));
        assert(table_view(self.descriptors@) =~= table.push(
            (fd, DescriptorView { path: path@, cursor: 0, writable, socket: false }),
        ));
        let ghost before = self.filesystem_events@;
        self.filesystem_events.push(FileEvent { operation: "open".to_owned(), path, size: None, preview: None });
        assert(self.filesystem_events@.drop_last() =~= before);
        fd
    }

    /// Closes `fd`.
    pub fn close_fd(&mut self, fd: i32) -> (r: i32)
        requires
            old(self).wf(),
        ensures
            final(self).wf(),
            close_outcome(old(self)@, final(self)@, fd, r),
    {
        match find_fd(&self.descriptors, fd) {
            Some(i) => {
                let ghost table = table_view(self.descriptors@);
                self.descriptors.remove(i);
                assert(table_view(self.descriptors@) =~= table.remove(i as int));
                proof {
                    let t = table_view(self.descriptors@);
                    assert forall|a: int, b: int| 0 <= a < b < t.len() implies (#[trigger] t[a]).0 < (#[trigger] t[b]).0 by {
                        let a2 = if a < i { a } else { a + 1 };
                        let b2 = if b < i { b } else { b + 1 };
                        assert(t[a] == table[a2] && t[b] == table[b2]);
                    }
                    assert forall|a: int| 0 <= a < t.len() implies (#[trigger] t[a]).0 < self.next_fd by {
                        let a2 = if a < i { a } else { a + 1 };
                        assert(t[a] == table[a2]);
                    }
                }
                let ghost sockets = self.network_runtime.handles_view();
                self.network_runtime.close(fd as u32);
                proof {
                    let t = table_view(self.descriptors@);
                    assert forall|a: int| 0 <= a < t.len() && (#[trigger] t[a]).1.socket implies self.network_runtime.handles_view().contains_key(
                        t[a].0 as u32,
                    ) && self.network_runtime.handles_view()[t[a].0 as u32] is Socket by {
                        let a2 = if a < i { a } else { a + 1 };
                        assert(t[a] == table[a2]);
                        let x = t[a].0;
                        lemma_fd_index(table, fd);
                        if a2 < i {
                            assert(table[a2].0 < table[i as int].0);
                        } else {
                            assert(table[i as int].0 < table[a2].0);
                        }
                        assert(x != fd);
                        assert(x != fd ==> x as u32 != fd as u32) by (bit_vector);
                    }
                }
                0
            },
            None => -9,
        }
    }

    /// `socket`: makes an IPv4 stream socket.
    pub fn sys_socket(&mut self, domain: u64, kind: u64, _protocol: u64) -> (result: u64)
        requires
            old(self).wf(),
            old(self).next_fd < i32::MAX,
        ensures
            final(self).wf(),
            socket_outcome(old(self)@, final(self)@, domain, kind, result),
    {
        assert((kind & 0xf) == kind % 16) by (bit_vector);
        if domain != 2 || kind & 0xf != 1 {
            return errno(97);
        }
        let fd = self.next_fd;
        self.next_fd = self.next_fd + 1;
        let mut path = "socket:".to_owned();
        push_decimal(&mut path, fd as u64);
        let ghost table = table_view(self.descriptors@);
        let ghost pv = path@;
        self.descriptors.push((fd, FileDescriptor { path, cursor: 0, writable: true, socket: true }));
        assert(table_view(self.descriptors@) =~= table.push(
            (fd, DescriptorView { path: pv, cursor: 0, writable: true, socket: true }),
        ));
        self.network_runtime.register_socket(fd as u32);
        fd as u64
    }
}

pub(crate) proof fn lemma_read64(m: Seq<RegionView64>, address: u64, length: nat, bytes: Seq<u8>)
    requires
        exists|i: int| is_first64(m, readable64(address as int, length as int), i)
            && bytes == m[i].data.subrange(address - m[i].start, address - m[i].start + length),
    ensures
        read64(m, address, length) == Some(bytes),
{
    let p = readable64(address as int, length as int);
    let i = choose|i: int| is_first64(m, p, i) && bytes == m[i].data.subrange(address - m[i].start, address - m[i].start + length);
    assert(any_region64(m, p)) by {
        assert(p(m[i]));
    }
    let j = choose|j: int| is_first64(m, p, j);
    lemma_first_unique64(m, p, i, j);
}

pub(crate) proof fn lemma_read64_none(m: Seq<RegionView64>, address: u64, length: nat)
    requires
        !any_region64(m, readable64(address as int, length as int)),
    ensures
        read64(m, address, length) is None,
{
}

impl LinuxMachine {
    /// `connect`: points a socket at a scripted IPv4 peer.
    pub fn sys_connect(&mut self, fd: i32, sockaddr: u64, length: usize) -> (result: u64)
        requires
            old(self).wf(),
        ensures
            final(self).wf(),
            connect_outcome(old(self)@, final(self)@, fd, sockaddr, length, result),
    {
        proof {
            lemma_fd_index(table_view(self.descriptors@), fd);
        }
        let is_socket = match find_fd(&self.descriptors, fd) {
            Some(i) => self.descriptors[i].1.socket,
            None => false,
        };
        if !is_socket || length < 8 {
            return errno(9);
        }
        let readable: usize = if length < 16 { length } else { 16 };
        let read = self.memory.read(sockaddr, readable);
        let bytes = match read {
            Ok(b) => b,
            Err(_) => {
                proof {
                    lemma_read64_none(self.memory@, sockaddr, readable as nat);
                }
                return errno(14);
            },
        };
        proof {
            lemma_read64(self.memory@, sockaddr, readable as nat, bytes@);
        }
        let family: u32 = bytes[0] as u32 + 256 * (bytes[1] as u32);
        if family != 2 {
            return errno(97);
        }
        let port: u64 = (bytes[2] as u64) * 256 + bytes[3] as u64;
        let mut destination = String::new();
        push_decimal(&mut destination, bytes[4] as u64);
        push_char(&mut destination, '.');
        push_decimal(&mut destination, bytes[5] as u64);
        push_char(&mut destination, '.');
        push_decimal(&mut destination, bytes[6] as u64);
        push_char(&mut destination, '.');
        push_decimal(&mut destination, bytes[7] as u64);
        push_char(&mut destination, ':');
        push_decimal(&mut destination, port);
        proof {
            reveal_strlit(".");
            reveal_strlit(":");
            assert(destination@ =~= inet_text(bytes@));
        }
        let ghost before = self.network_events@;
        if self.network_mode == NetworkMode::Offline {
            self.network_events.push(NetworkEvent {
                operation: "connect".to_owned(),
                destination,
                size: None,
                preview: None,
                synthetic_result: "offline profile".to_owned(),
            });
            assert(self.network_events@.drop_last() =~= before);
            return errno(101);
        }
        self.network_runtime.connect_socket(fd as u32, destination.clone());
        self.network_events.push(NetworkEvent {
            operation: "connect".to_owned(),
            destination,
            size: None,
            preview: None,
            synthetic_result: "connected to deterministic sink".to_owned(),
        });
        assert(self.network_events@.drop_last() =~= before);
        0
    }
}

// ----- memory mappings -----

/// Mapping `size` bytes at `start`, as `Memory64::map` does it: regions
/// and mapped-byte count before and after, and the result.
pub open spec fn map64(
    before: Seq<RegionView64>,
    before_allocated: nat,
    after: Seq<RegionView64>,
    after_allocated: nat,
    start: u64,
    size: usize,
    permissions: Permissions,
    name: Seq<char>,
    r: Result<(), DynamicError>,
) -> bool {
    &&& (size == 0 || before_allocated + size > HARD_MAX_MEMORY_BYTES || start + size > MAX_EXACT_GUEST_ADDRESS)
        ==> r == Err::<(), DynamicError>(DynamicError::MemoryLimit)
    &&& !(size == 0 || before_allocated + size > HARD_MAX_MEMORY_BYTES || start + size > MAX_EXACT_GUEST_ADDRESS) ==> {
        let overlaps = exists|i: int| 0 <= i < before.len() && start < region_end64(#[trigger] before[i]) && start + size > before[i].start;
        &&& overlaps ==> r == Err::<(), DynamicError>(DynamicError::OverlappingRegion { address: start })
        &&& !overlaps ==> r is Ok && after_allocated == before_allocated + size && exists|k: int|
            0 <= k <= before.len() && #[trigger] inserted_at64(before, after, k, fresh_region64(start, size as nat, permissions, name))
    }
    &&& r is Err ==> after == before && after_allocated == before_allocated
}

/// The size `mmap` maps: the length held to `1..=16 MiB`, in whole pages.
pub open spec fn mmap_size(length: u64) -> usize {
    let clamped: usize = if (length as usize) < 1 { 1 } else if length as usize > 0x0100_0000 { 0x0100_0000 } else { length as usize };
    align_page_spec(clamped)
}

/// `MAP_FIXED` with a non-null hint: the page-aligned hint is used.
pub open spec fn mmap_fixed(args: Seq<u64>) -> bool {
    args[0] != 0 && (args[3] / 16) % 2 == 1
}

/// Where `mmap` maps.
pub open spec fn mmap_address(old: LinuxView, args: Seq<u64>) -> u64 {
    if mmap_fixed(args) { (args[0] - args[0] % 4096) as u64 } else { old.mmap_next }
}

/// Where the next unhinted `mmap` goes afterwards: past this one and a
/// guard page.
pub open spec fn mmap_next_after(old: LinuxView, args: Seq<u64>) -> u64 {
    if mmap_fixed(args) {
        old.mmap_next
    } else {
        let next: int = old.mmap_next + mmap_size(args[1]) + 4096;
        if next > u64::MAX { u64::MAX } else { next as u64 }
    }
}

/// The file bytes a file-backed `mmap` copies in: from the descriptor in
/// the fifth argument (when non-negative and open on a virtual file), at
/// the offset in the sixth, at most the mapping's size.
pub open spec fn mmap_source(old: LinuxView, args: Seq<u64>) -> Option<Seq<u8>> {
    let size = mmap_size(args[1]);
    let offset = args[5] as usize;
    if args[4] < 0x8000_0000_0000_0000 && descriptor(old.descriptors, args[4] as i32) is Some && lookup(
        old.files,
        descriptor(old.descriptors, args[4] as i32)->0.path,
    ) is Some {
        let file = lookup(old.files, descriptor(old.descriptors, args[4] as i32)->0.path)->0;
        let end: int = if offset + size > usize::MAX { usize::MAX as int } else { offset + size };
        let end = if end > file.len() { file.len() as int } else { end };
        if offset <= end { Some(file.subrange(offset as int, end)) } else { None }
    } else {
        None
    }
}

/// The machine right after `mmap`'s mapping step.
pub open spec fn mmap_mapped(old: LinuxView, mapped: LinuxView, args: Seq<u64>, r: Result<(), DynamicError>) -> bool {
    &&& mapped == LinuxView {
        memory: mapped.memory,
        allocated: mapped.allocated,
        mmap_next: mmap_next_after(old, args),
        ..old
    }
    &&& map64(
        old.memory,
        old.allocated,
        mapped.memory,
        mapped.allocated,
        mmap_address(old, args),
        mmap_size(args[1]),
        linux_permissions_spec(args[2]),
        "Linux mmap allocation"@,
        r,
    )
}

/// The permissions of a `PROT_*` mask.
pub open spec fn linux_permissions_spec(prot: u64) -> Permissions {
    Permissions { read: prot % 2 == 1, write: (prot / 2) % 2 == 1, execute: (prot / 4) % 2 == 1 }
}

/// The allocation event of a mapping.
pub open spec fn allocation_recorded(before: LinuxView, after: LinuxView, address: u64, size: usize, permissions: Permissions) -> bool {
    &&& after == LinuxView { memory_events: after.memory_events, ..before }
    &&& appended(before.memory_events, after.memory_events)
    &&& memory_event_is(after.memory_events.last(), "allocate"@, address, size as u32, permissions_text(permissions))
}

/// File bytes `data` copied into a fresh mapping (a failed copy is the
/// result), then the allocation recorded and the address returned.
pub open spec fn filled_with(mapped: LinuxView, new: LinuxView, data: Seq<u8>, address: u64, size: usize, permissions: Permissions, r: Result<u64, DynamicError>) -> bool {
    exists|filled: Seq<RegionView64>, w: Result<(), DynamicError>|
        #![trigger Memory64::write_outcome(mapped.memory, filled, address, data, true, w)]
        Memory64::write_outcome(mapped.memory, filled, address, data, true, w) && match w {
            Ok(()) => allocation_recorded(LinuxView { memory: filled, ..mapped }, new, address, size, permissions) && r
                == Ok::<u64, DynamicError>(address),
            Err(e) => new == LinuxView { memory: filled, ..mapped } && r == Err::<u64, DynamicError>(e),
        }
}

/// After mapping: file bytes, if any, are copied in, then the allocation is
/// recorded and the address returned.
pub open spec fn mmap_filled(mapped: LinuxView, new: LinuxView, source: Option<Seq<u8>>, address: u64, size: usize, permissions: Permissions, r: Result<u64, DynamicError>) -> bool {
    match source {
        None => allocation_recorded(mapped, new, address, size, permissions) && r == Ok::<u64, DynamicError>(address),
        Some(data) => filled_with(mapped, new, data, address, size, permissions, r),
    }
}

/// What `mmap` does: maps at the fixed hint or the next free address
/// (moving that past the mapping and a guard page); a failed mapping is
/// `-ENOMEM`; otherwise file bytes are copied in and the address returned.
pub open spec fn mmap_outcome(old: LinuxView, new: LinuxView, args: Seq<u64>, r: Result<u64, DynamicError>) -> bool {
    exists|mapped: LinuxView, m: Result<(), DynamicError>|
        #![trigger mmap_mapped(old, mapped, args, m)]
        mmap_mapped(old, mapped, args, m) && if m is Err {
            new == mapped && r == Ok::<u64, DynamicError>(errno_spec(12))
        } else {
            mmap_filled(
                mapped,
                new,
                mmap_source(old, args),
                mmap_address(old, args),
                mmap_size(args[1]),
                linux_permissions_spec(args[2]),
                r,
            )
        }
}

/// Changing the permissions of the region holding `[address, address + size)`.
pub open spec fn protected64(before: Seq<RegionView64>, after: Seq<RegionView64>, address: u64, size: usize, permissions: Permissions, r: Result<(), DynamicError>) -> bool {
    &&& any_region64(before, containing64(address as int, size as int)) <==> r is Ok
    &&& r is Err ==> r == Err::<(), DynamicError>(DynamicError::MemoryWrite { address }) && after == before
    &&& r is Ok ==> exists|i: int| is_first64(before, containing64(address as int, size as int), i)
        && after == before.update(i, RegionView64 { permissions, ..before[i] })
}

/// `size` in whole pages, at least one byte.
pub open spec fn protect_span(size: usize) -> usize {
    align_page_spec(if size < 1 { 1 } else { size })
}

/// `size` held to `u32::MAX`.
pub open spec fn clamp32(size: usize) -> u32 {
    if size > u32::MAX { u32::MAX } else { size as u32 }
}

/// What `mprotect` does: the holding region takes the new permissions and
/// the change is recorded (result 0); when no region holds the range the
/// result is `-ENOMEM`.
pub open spec fn mprotect_outcome(old: LinuxView, new: LinuxView, address: u64, size: usize, prot: u64, r: Result<u64, DynamicError>) -> bool {
    let span = protect_span(size);
    let permissions = linux_permissions_spec(prot);
    exists|changed: Seq<RegionView64>, p: Result<(), DynamicError>|
        #![trigger protected64(old.memory, changed, address, span, permissions, p)]
        protected64(old.memory, changed, address, span, permissions, p) && if p is Err {
            new == old && r == Ok::<u64, DynamicError>(errno_spec(12))
        } else {
            &&& new == LinuxView { memory: changed, memory_events: new.memory_events, ..old }
            &&& appended(old.memory_events, new.memory_events)
            &&& memory_event_is(new.memory_events.last(), "protect"@, address, clamp32(span), permissions_text(permissions))
            &&& r == Ok::<u64, DynamicError>(0)
        }
}

/// What `munmap` does: the holding region loses all access and the unmap is
/// recorded (result 0); when no region holds the range, that failure is
/// the result.
pub open spec fn munmap_outcome(old: LinuxView, new: LinuxView, address: u64, length: u64, r: Result<u64, DynamicError>) -> bool {
    let span = align_page_spec(length as usize);
    let none = Permissions { read: false, write: false, execute: false };
    exists|changed: Seq<RegionView64>, p: Result<(), DynamicError>|
        #![trigger protected64(old.memory, changed, address, span, none, p)]
        protected64(old.memory, changed, address, span, none, p) && match p {
            Err(e) => new == old && r == Err::<u64, DynamicError>(e),
            Ok(()) => {
                &&& new == LinuxView { memory: changed, memory_events: new.memory_events, ..old }
                &&& appended(old.memory_events, new.memory_events)
                &&& memory_event_is(new.memory_events.last(), "unmap"@, address, clamp32(span), "---"@)
                &&& r == Ok::<u64, DynamicError>(0)
            },
        }
}

fn clamp_u32(size: usize) -> (r: u32)
    ensures
        r == clamp32(size),
{
    if size > u32::MAX as usize { u32::MAX } else { size as u32 }
}

impl LinuxMachine {
    /// `mprotect`: changes the permissions of the holding region.
    pub fn sys_mprotect(&mut self, address: u64, size: usize, prot: u64) -> (r: Result<u64, DynamicError>)
        requires
            old(self).wf(),
        ensures
            final(self).wf(),
            mprotect_outcome(old(self)@, final(self)@, address, size, prot, r),
    {
        let span = align_page(if size < 1 { 1 } else { size });
        let permissions = linux_permissions(prot);
        assert(span == protect_span(size));
        assert(permissions == linux_permissions_spec(prot));
        let p = self.memory.set_permissions(address, span, permissions);
        assert(protected64(old(self)@.memory, self@.memory, address, protect_span(size), linux_permissions_spec(prot), p));
        if p.is_err() {
            return Ok(errno(12));
        }
        let ghost before = self.memory_events@;
        self.memory_events.push(MemoryEvent {
            operation: "protect".to_owned(),
            address,
            size: clamp_u32(span),
            permissions: permissions.display(),
        });
        assert(self.memory_events@.drop_last() =~= before);
        Ok(0)
    }

    /// `munmap`: takes all access away from the holding region.
    pub fn sys_munmap(&mut self, address: u64, length: u64) -> (r: Result<u64, DynamicError>)
        requires
            old(self).wf(),
        ensures
            final(self).wf(),
            munmap_outcome(old(self)@, final(self)@, address, length, r),
    {
        let span = align_page(length as usize);
        let none = Permissions { read: false, write: false, execute: false };
        let p = self.memory.set_permissions(address, span, none);
        assert(protected64(old(self)@.memory, self@.memory, address, span, none, p));
        if let Err(e) = p {
            return Err(e);
        }
        let ghost before = self.memory_events@;
        let mut shown = String::new();
        push_str(&mut shown, "---");
        self.memory_events.push(MemoryEvent { operation: "unmap".to_owned(), address, size: clamp_u32(span), permissions: shown });
        assert(self.memory_events@.drop_last() =~= before);
        Ok(0)
    }
}

impl LinuxMachine {
    /// `mmap`: maps anonymous or file-backed memory.
    #[verifier::rlimit(40)]
    pub fn sys_mmap(&mut self, args: &[u64; 6]) -> (r: Result<u64, DynamicError>)
        requires
            old(self).wf(),
        ensures
            final(self).wf(),
            mmap_outcome(old(self)@, final(self)@, args@, r),
    {
        let length = args[1] as usize;
        let clamped: usize = if length < 1 { 1 } else if length > 0x0100_0000 { 0x0100_0000 } else { length };
        let size = align_page(clamped);
        assert(size == mmap_size(args@[1]));
        assert(size <= 0x0100_0000) by {
            assert(align_page_spec(clamped) <= 0x0100_0000);
        }
        let requested = args[0];
        let flags = args[3];
        assert((flags & 0x10 != 0) == ((flags / 16) % 2 == 1)) by (bit_vector);
        assert(requested & !0xfffu64 == requested - requested % 4096) by (bit_vector);
        let fixed = requested != 0 && flags & 0x10 != 0;
        let address = if fixed {
            requested & !0xfffu64
        } else {
            let a = self.mmap_next;
            self.mmap_next = self.mmap_next.saturating_add(size as u64 + 4096);
            a
        };
        assert(address == mmap_address(old(self)@, args@));
        let permissions = linux_permissions(args[2]);
        assert(permissions == linux_permissions_spec(args@[2]));
        let m = self.memory.map(address, size, permissions, "Linux mmap allocation".to_owned());
        proof {
            reveal_strlit("Linux mmap allocation");
            assert(mmap_mapped(old(self)@, self@, args@, m));
        }
        if m.is_err() {
            return Ok(errno(12));
        }
        let ghost mapped = self@;
        assert(mmap_mapped(old(self)@, mapped, args@, m));
        let fd_arg = args[4];
        assert((fd_arg as i64 >= 0) == (fd_arg < 0x8000_0000_0000_0000)) by (bit_vector);
        let mut index: Option<usize> = None;
        if fd_arg as i64 >= 0 {
            proof {
                lemma_fd_index(table_view(self.descriptors@), fd_arg as i32);
            }
            if let Some(d) = find_fd(&self.descriptors, fd_arg as i32) {
                let key = chars_of(self.descriptors[d].1.path.as_str());
                proof {
                    lemma_key_index(store_view(self.files@), key@);
                }
                index = find_entry(&self.files, &key);
            }
        }
        let offset = args[5] as usize;
        let mut source: Option<&[u8]> = None;
        if let Some(i) = index {
            let file = self.files[i].1.as_slice();
            let end = if offset.saturating_add(size) > file.len() { file.len() } else { offset.saturating_add(size) };
            if offset <= end {
                source = Some(slice_subrange(file, offset, end));
            }
        }
        proof {
            assert(store_view(self.files@) == mapped.files);
            match index {
                Some(i) => {
                    assert(store_view(self.files@)[i as int].1 == self.files@[i as int].1@);
                },
                None => {},
            }
            assert(match source {
                Some(b) => mmap_source(old(self)@, args@) == Some(b@),
                None => mmap_source(old(self)@, args@) is None,
            });
        }
        if let Some(data) = source {
            let w = self.memory.write_force(address, data);
            assert(Memory64::write_outcome(mapped.memory, self@.memory, address, data@, true, w));
            if let Err(e) = w {
                assert(self@ == LinuxView { memory: self@.memory, ..mapped });
                assert(filled_with(mapped, self@, data@, address, size, permissions, Err(e)));
                assert(mmap_filled(mapped, self@, mmap_source(old(self)@, args@), mmap_address(old(self)@, args@), mmap_size(args@[1]), linux_permissions_spec(args@[2]), Err(e)));
                return Err(e);
            }
        }
        let ghost filled = self@;
        let ghost before = self.memory_events@;
        self.memory_events.push(MemoryEvent {
            operation: "allocate".to_owned(),
            address,
            size: size as u32,
            permissions: permissions.display(),
        });
        assert(self.memory_events@.drop_last() =~= before);
        assert(allocation_recorded(filled, self@, address, size, permissions));
        proof {
            if let Some(data) = source {
                assert(filled_with(mapped, self@, data@, address, size, permissions, Ok(address)));
            }
        }
        assert(mmap_filled(mapped, self@, mmap_source(old(self)@, args@), mmap_address(old(self)@, args@), mmap_size(args@[1]), linux_permissions_spec(args@[2]), Ok(address)));
        Ok(address)
    }
}

// ----- reading -----

/// `x` held to `usize::MAX`.
pub open spec fn sat_usize(x: int) -> int {
    if x > usize::MAX { usize::MAX as int } else { x }
}

/// The bytes a read of at most `maximum` takes from a file descriptor's
/// cursor (a path the filesystem does not hold reads as empty).
pub open spec fn file_take(files: Seq<(Seq<char>, Seq<u8>)>, d: DescriptorView, maximum: usize) -> Seq<u8> {
    let source = match lookup(files, d.path) {
        Some(data) => data,
        None => Seq::empty(),
    };
    let end = if sat_usize(d.cursor + maximum) < source.len() { sat_usize(d.cursor + maximum) } else { source.len() as int };
    if d.cursor <= end { source.subrange(d.cursor as int, end) } else { Seq::empty() }
}

/// The bytes a read of at most `maximum` takes from socket `h`'s scripted
/// reply, and the sockets afterwards (the cursor moved past them).
pub open spec fn socket_take(sockets: Map<u32, NetworkHandleView>, h: u32, maximum: usize) -> (Seq<u8>, Map<u32, NetworkHandleView>) {
    if sockets.contains_key(h) && sockets[h] is Socket {
        let destination = sockets[h]->Socket_destination;
        let response = sockets[h]->Socket_response;
        let cursor = sockets[h]->Socket_cursor;
        let end = read_end(cursor, maximum, response.len());
        if cursor <= end {
            (
                response.subrange(cursor as int, end),
                sockets.insert(h, NetworkHandleView::Socket { destination, response, cursor: end as usize }),
            )
        } else {
            (Seq::empty(), sockets)
        }
    } else {
        (Seq::empty(), sockets)
    }
}

/// Where a socket sends: its peer, or `unconnected`.
pub open spec fn socket_peer(sockets: Map<u32, NetworkHandleView>, h: u32) -> Seq<char> {
    match (sockets.contains_key(h), sockets[h]) {
        (true, NetworkHandleView::Socket { destination: Some(d), .. }) => d,
        _ => "unconnected"@,
    }
}

/// Descriptor `fd` with its cursor moved by `n` bytes (held to `usize::MAX`).
pub open spec fn advanced(t: Seq<(i32, DescriptorView)>, fd: i32, n: nat) -> Seq<(i32, DescriptorView)> {
    let i = fd_index(t, fd);
    t.update(i, (fd, DescriptorView { cursor: sat_usize(t[i].1.cursor + n) as usize, ..t[i].1 }))
}

/// The event a completed read records.
pub open spec fn read_recorded(before: LinuxView, after: LinuxView, fd: i32, d: DescriptorView, bytes: Seq<u8>) -> bool {
    if d.socket {
        &&& after == LinuxView { network_events: after.network_events, ..before }
        &&& appended(before.network_events, after.network_events)
        &&& network_event_is(
            after.network_events.last(),
            "receive"@,
            socket_peer(before.sockets, fd as u32),
            Some(bytes.len() as u32),
            Some(linux_preview(bytes)),
            "scripted response"@,
        )
    } else {
        &&& after == LinuxView { filesystem_events: after.filesystem_events, ..before }
        &&& appended(before.filesystem_events, after.filesystem_events)
        &&& file_event_is(after.filesystem_events.last(), "read"@, d.path, Some(bytes.len() as u32), Some(linux_preview(bytes)))
    }
}

/// The taken bytes stored at `address` (a failed store is the result),
/// then the cursor advanced and the read recorded.
pub open spec fn read_delivered(took: LinuxView, new: LinuxView, fd: i32, d: DescriptorView, address: u64, bytes: Seq<u8>, r: Result<u64, DynamicError>) -> bool {
    exists|written: Seq<RegionView64>, w: Result<(), DynamicError>|
        #![trigger Memory64::write_outcome(took.memory, written, address, bytes, false, w)]
        Memory64::write_outcome(took.memory, written, address, bytes, false, w) && match w {
            Err(e) => new == LinuxView { memory: written, ..took } && r == Err::<u64, DynamicError>(e),
            Ok(()) => read_recorded(
                LinuxView { memory: written, descriptors: advanced(took.descriptors, fd, bytes.len()), ..took },
                new,
                fd,
                d,
                bytes,
            ) && r == Ok::<u64, DynamicError>(bytes.len() as u64),
        }
}

/// Reading from open descriptor `d`: a socket takes from its scripted
/// reply, a file from its contents at the cursor.
pub open spec fn read_from(old: LinuxView, new: LinuxView, fd: i32, d: DescriptorView, address: u64, maximum: usize, r: Result<u64, DynamicError>) -> bool {
    if d.socket {
        let taken = socket_take(old.sockets, fd as u32, maximum);
        read_delivered(LinuxView { sockets: taken.1, ..old }, new, fd, d, address, taken.0, r)
    } else {
        read_delivered(old, new, fd, d, address, file_take(old.files, d, maximum), r)
    }
}

/// What `read` does: at most `MAX_IO_BYTES` from an open descriptor;
/// `-EBADF` when `fd` is not open.
pub open spec fn read_call_outcome(old: LinuxView, new: LinuxView, fd: i32, address: u64, requested: usize, r: Result<u64, DynamicError>) -> bool {
    let maximum: usize = if requested < MAX_IO_BYTES { requested } else { MAX_IO_BYTES };
    match descriptor(old.descriptors, fd) {
        None => new == old && r == Ok::<u64, DynamicError>(errno_spec(9)),
        Some(d) => read_from(old, new, fd, d, address, maximum, r),
    }
}

fn copy_descriptor(d: &FileDescriptor) -> (r: FileDescriptor)
    ensures
        r@ == d@,
{
    FileDescriptor { path: d.path.clone(), cursor: d.cursor, writable: d.writable, socket: d.socket }
}

impl LinuxMachine {
    fn advance_cursor(&mut self, i: usize, fd: i32, n: usize)
        requires
            old(self).wf(),
            i as int == fd_index(old(self)@.descriptors, fd),
            i < old(self)@.descriptors.len(),
        ensures
            final(self).wf(),
            final(self)@ == (LinuxView { descriptors: advanced(old(self)@.descriptors, fd, n as nat), ..old(self)@ }),
    {
        let ghost t = table_view(self.descriptors@);
        proof {
            lemma_fd_index(t, fd);
        }
        let current = copy_descriptor(&self.descriptors[i].1);
        let cursor = current.cursor.saturating_add(n);
        let updated = FileDescriptor { path: current.path, cursor, writable: current.writable, socket: current.socket };
        self.descriptors.set(i, (fd, updated));
        proof {
            let t2 = table_view(self.descriptors@);
            assert(t2 =~= advanced(t, fd, n as nat));
            assert forall|a: int, b: int| 0 <= a < b < t2.len() implies (#[trigger] t2[a]).0 < (#[trigger] t2[b]).0 by {
                assert(t2[a].0 == t[a].0 && t2[b].0 == t[b].0);
            }
            assert forall|a: int| 0 <= a < t2.len() implies (#[trigger] t2[a]).0 < self.next_fd by {
                assert(t2[a].0 == t[a].0);
            }
            assert forall|a: int| 0 <= a < t2.len() && (#[trigger] t2[a]).1.socket implies self.network_runtime.handles_view().contains_key(
                t2[a].0 as u32,
            ) && self.network_runtime.handles_view()[t2[a].0 as u32] is Socket by {
                assert(t2[a].0 == t[a].0 && t2[a].1.socket == t[a].1.socket);
            }
        }
    }

    /// `read`: from a socket's scripted reply or a virtual file.
    #[verifier::rlimit(40)]
    pub fn sys_read(&mut self, fd: i32, address: u64, requested: usize) -> (r: Result<u64, DynamicError>)
        requires
            old(self).wf(),
        ensures
            final(self).wf(),
            read_call_outcome(old(self)@, final(self)@, fd, address, requested, r),
    {
        let maximum: usize = if requested < MAX_IO_BYTES { requested } else { MAX_IO_BYTES };
        proof {
            lemma_fd_index(table_view(self.descriptors@), fd);
        }
        let i = match find_fd(&self.descriptors, fd) {
            Some(i) => i,
            None => {
                return Ok(errno(9));
            },
        };
        let d = copy_descriptor(&self.descriptors[i].1);
        assert(descriptor(old(self)@.descriptors, fd) == Some(d@));
        let bytes: Vec<u8> = if d.socket {
            let got = self.network_runtime.recv_socket(fd as u32, maximum);
            let b = match got {
                Some(b) => b,
                None => Vec::new(),
            };
            assert(b@ == socket_take(old(self)@.sockets, fd as u32, maximum).0);
            assert(self.network_runtime.handles_view() == socket_take(old(self)@.sockets, fd as u32, maximum).1);
            b
        } else {
            let key = chars_of(d.path.as_str());
            proof {
                lemma_key_index(store_view(self.files@), key@);
            }
            let source: Vec<u8> = match find_entry(&self.files, &key) {
                Some(k) => {
                    assert(store_view(self.files@)[k as int].1 == self.files@[k as int].1@);
                    copy_bytes(&self.files[k].1)
                },
                None => Vec::new(),
            };
            let raised = d.cursor.saturating_add(maximum);
            let end = if raised < source.len() { raised } else { source.len() };
            let b = if d.cursor <= end { slice_to_vec(slice_subrange(source.as_slice(), d.cursor, end)) } else { Vec::new() };
            assert(b@ == file_take(old(self)@.files, d@, maximum));
            b
        };
        let ghost took = self@;
        proof {
            if d.socket {
                assert(took == LinuxView { sockets: socket_take(old(self)@.sockets, fd as u32, maximum).1, ..old(self)@ });
            } else {
                assert(took == old(self)@);
            }
            // the socket state of every socket descriptor survives the read
            let t = table_view(self.descriptors@);
            assert forall|a: int| 0 <= a < t.len() && (#[trigger] t[a]).1.socket implies self.network_runtime.handles_view().contains_key(
                t[a].0 as u32,
            ) && self.network_runtime.handles_view()[t[a].0 as u32] is Socket by {
                assert(old(self).network_runtime.handles_view().contains_key(t[a].0 as u32));
            }
        }
        let w = self.memory.write(address, bytes.as_slice());
        assert(Memory64::write_outcome(took.memory, self@.memory, address, bytes@, false, w));
        if let Err(e) = w {
            assert(read_delivered(took, self@, fd, d@, address, bytes@, Err(e)));
            return Err(e);
        }
        let ghost written = self@;
        self.advance_cursor(i, fd, bytes.len());
        let ghost moved = self@;
        let shown = preview(bytes.as_slice());
        if d.socket {
            let destination = match self.network_runtime.socket_destination(fd as u32) {
                Some(x) => x,
                None => "unconnected".to_owned(),
            };
            proof {
                reveal_strlit("unconnected");
            }
            assert(destination@ == socket_peer(moved.sockets, fd as u32));
            let ghost before = self.network_events@;
            self.network_events.push(NetworkEvent {
                operation: "receive".to_owned(),
                destination,
                size: Some(bytes.len() as u32),
                preview: Some(shown),
                synthetic_result: "scripted response".to_owned(),
            });
            assert(self.network_events@.drop_last() =~= before);
        } else {
            let ghost before = self.filesystem_events@;
            self.filesystem_events.push(FileEvent {
                operation: "read".to_owned(),
                path: d.path,
                size: Some(bytes.len() as u32),
                preview: Some(shown),
            });
            assert(self.filesystem_events@.drop_last() =~= before);
        }
        assert(read_recorded(moved, self@, fd, d@, bytes@));
        assert(read_delivered(took, self@, fd, d@, address, bytes@, Ok(bytes.len() as u64)));
        Ok(bytes.len() as u64)
    }
}

// ----- writing -----

/// The exchange a socket send records.
pub open spec fn exchange_is(e: NetworkExchange, sequence: int, destination: Seq<char>, bytes: Seq<u8>) -> bool {
    &&& e.sequence == sequence && e.protocol@ == "tcp"@ && e.operation@ == "send"@ && e.destination@ == destination
    &&& e.request_headers@.len() == 0 && text_opt(e.request_preview) == Some(linux_preview(bytes))
    &&& e.request_size == bytes.len() && text_opt(e.request_sha256) == Some(hex_text(sha256_of(bytes)))
    &&& e.response_status is None && e.response_headers@.len() == 0 && e.response_size == 0
    &&& e.response_sha256 is None && e.artifact_id is None && e.outcome@ == "synthetic sink"@
}

/// A send on socket `fd`: recorded as a network event and an exchange.
pub open spec fn socket_sent(old: LinuxView, new: LinuxView, fd: i32, bytes: Seq<u8>) -> bool {
    let destination = socket_peer(old.sockets, fd as u32);
    &&& new == LinuxView { network_events: new.network_events, network_exchanges: new.network_exchanges, ..old }
    &&& appended(old.network_events, new.network_events)
    &&& network_event_is(
        new.network_events.last(),
        "send"@,
        destination,
        Some(bytes.len() as u32),
        Some(linux_preview(bytes)),
        "captured by deterministic sink"@,
    )
    &&& appended(old.network_exchanges, new.network_exchanges)
    &&& exchange_is(new.network_exchanges.last(), old.network_exchanges.len() as int, destination, bytes)
}

/// The contents of `path` (empty when the filesystem does not hold it).
pub open spec fn file_or_empty(files: Seq<(Seq<char>, Seq<u8>)>, path: Seq<char>) -> Seq<u8> {
    match lookup(files, path) {
        Some(data) => data,
        None => Seq::empty(),
    }
}

/// A write through writable file descriptor `d`: the file (created when
/// missing) is zero-filled to the cursor; a write ending past
/// `MAX_IO_BYTES` then stops with `-EFBIG` and marks the run truncated;
/// otherwise the bytes are stored at the cursor, the cursor moves past them
/// and the write is recorded.
pub open spec fn file_written(old: LinuxView, new: LinuxView, fd: i32, d: DescriptorView, bytes: Seq<u8>, r: Result<u64, DynamicError>) -> bool {
    let file = file_or_empty(old.files, d.path);
    let grown = if d.cursor > file.len() { file + Seq::new((d.cursor - file.len()) as nat, |i: int| 0u8) } else { file };
    if d.cursor + bytes.len() > MAX_IO_BYTES {
        new == LinuxView { files: stored(old.files, d.path, grown), truncated: true, ..old } && r == Ok::<u64, DynamicError>(
            errno_spec(27),
        )
    } else {
        &&& new == LinuxView {
            files: stored(old.files, d.path, written_file(file, d.cursor as int, bytes, bytes.len() as int)),
            descriptors: advanced(old.descriptors, fd, bytes.len()),
            filesystem_events: new.filesystem_events,
            ..old
        }
        &&& appended(old.filesystem_events, new.filesystem_events)
        &&& file_event_is(new.filesystem_events.last(), "write"@, d.path, Some(bytes.len() as u32), Some(linux_preview(bytes)))
        &&& r == Ok::<u64, DynamicError>(bytes.len() as u64)
    }
}

/// Writing `bytes` to `fd`: standard output and error are recorded as
/// such; an unknown descriptor is `-EBADF`; sockets send; read-only files
/// are `-EBADF`; writable files are written.
pub open spec fn write_to(old: LinuxView, new: LinuxView, fd: i32, bytes: Seq<u8>, r: Result<u64, DynamicError>) -> bool {
    if fd == 1 || fd == 2 {
        &&& new == LinuxView { filesystem_events: new.filesystem_events, ..old }
        &&& appended(old.filesystem_events, new.filesystem_events)
        &&& file_event_is(
            new.filesystem_events.last(),
            "write"@,
            if fd == 1 { "/dev/stdout"@ } else { "/dev/stderr"@ },
            Some(bytes.len() as u32),
            Some(linux_preview(bytes)),
        )
        &&& r == Ok::<u64, DynamicError>(bytes.len() as u64)
    } else {
        match descriptor(old.descriptors, fd) {
            None => new == old && r == Ok::<u64, DynamicError>(errno_spec(9)),
            Some(d) => if d.socket {
                socket_sent(old, new, fd, bytes) && r == Ok::<u64, DynamicError>(bytes.len() as u64)
            } else if !d.writable {
                new == old && r == Ok::<u64, DynamicError>(errno_spec(9))
            } else {
                file_written(old, new, fd, d, bytes, r)
            },
        }
    }
}

/// What `write` does: at most `MAX_IO_BYTES` are read from `address` (an
/// unreadable buffer is the result) and written to `fd`.
pub open spec fn write_call_outcome(old: LinuxView, new: LinuxView, fd: i32, address: u64, requested: usize, r: Result<u64, DynamicError>) -> bool {
    let maximum: usize = if requested < MAX_IO_BYTES { requested } else { MAX_IO_BYTES };
    match read64(old.memory, address, maximum as nat) {
        None => new == old && r == Err::<u64, DynamicError>(DynamicError::MemoryRead { address }),
        Some(bytes) => write_to(old, new, fd, bytes, r),
    }
}

impl LinuxMachine {
    fn send_bytes(&mut self, fd: i32, bytes: &[u8])
        requires
            old(self).wf(),
            bytes@.len() <= MAX_IO_BYTES,
        ensures
            final(self).wf(),
            socket_sent(old(self)@, final(self)@, fd, bytes@),
    {
        let destination = match self.network_runtime.socket_destination(fd as u32) {
            Some(x) => x,
            None => "unconnected".to_owned(),
        };
        proof {
            reveal_strlit("unconnected");
        }
        assert(destination@ == socket_peer(old(self)@.sockets, fd as u32));
        let ghost events = self.network_events@;
        self.network_events.push(NetworkEvent {
            operation: "send".to_owned(),
            destination: destination.clone(),
            size: Some(bytes.len() as u32),
            preview: Some(preview(bytes)),
            synthetic_result: "captured by deterministic sink".to_owned(),
        });
        assert(self.network_events@.drop_last() =~= events);
        let ghost exchanges = self.network_exchanges@;
        let exchange = NetworkExchange {
            sequence: self.network_exchanges.len() as u64,
            protocol: "tcp".to_owned(),
            operation: "send".to_owned(),
            destination,
            request_headers: Vec::new(),
            request_preview: Some(preview(bytes)),
            request_size: bytes.len() as u64,
            request_sha256: Some(sha256_hex(bytes)),
            response_status: None,
            response_headers: Vec::new(),
            response_size: 0,
            response_sha256: None,
            artifact_id: None,
            outcome: "synthetic sink".to_owned(),
        };
        self.network_exchanges.push(exchange);
        assert(self.network_exchanges@.drop_last() =~= exchanges);
    }

    fn write_file_bytes(&mut self, i: usize, fd: i32, d: FileDescriptor, bytes: &[u8]) -> (r: Result<u64, DynamicError>)
        requires
            old(self).wf(),
            i as int == fd_index(old(self)@.descriptors, fd),
            i < old(self)@.descriptors.len(),
            descriptor(old(self)@.descriptors, fd) == Some(d@),
            bytes@.len() <= MAX_IO_BYTES,
        ensures
            final(self).wf(),
            file_written(old(self)@, final(self)@, fd, d@, bytes@, r),
    {
        let key = chars_of(d.path.as_str());
        proof {
            lemma_key_index(store_view(self.files@), key@);
        }
        let file: Vec<u8> = match find_entry(&self.files, &key) {
            Some(k) => {
                assert(store_view(self.files@)[k as int].1 == self.files@[k as int].1@);
                copy_bytes(&self.files[k].1)
            },
            None => Vec::new(),
        };
        assert(file@ == file_or_empty(old(self)@.files, d@.path));
        if d.cursor.saturating_add(bytes.len()) > MAX_IO_BYTES {
            let mut grown = file;
            grow(&mut grown, d.cursor);
            proof {
                lemma_stored_distinct(store_view(self.files@), d@.path, grown@);
            }
            store_entry(&mut self.files, d.path, grown);
            self.truncated = true;
            return Ok(errno(27));
        }
        let updated = apply_write(file, d.cursor, bytes, bytes.len());
        proof {
            lemma_stored_distinct(store_view(self.files@), d@.path, updated@);
        }
        store_entry(&mut self.files, d.path.clone(), updated);
        self.advance_cursor(i, fd, bytes.len());
        let ghost before = self.filesystem_events@;
        self.filesystem_events.push(FileEvent {
            operation: "write".to_owned(),
            path: d.path,
            size: Some(bytes.len() as u32),
            preview: Some(preview(bytes)),
        });
        assert(self.filesystem_events@.drop_last() =~= before);
        Ok(bytes.len() as u64)
    }

    /// `write`: to standard output or error, a socket or a virtual file.
    pub fn sys_write(&mut self, fd: i32, address: u64, requested: usize) -> (r: Result<u64, DynamicError>)
        requires
            old(self).wf(),
        ensures
            final(self).wf(),
            write_call_outcome(old(self)@, final(self)@, fd, address, requested, r),
    {
        let maximum: usize = if requested < MAX_IO_BYTES { requested } else { MAX_IO_BYTES };
        let read = self.memory.read(address, maximum);
        let bytes = match read {
            Ok(b) => slice_to_vec(b),
            Err(e) => {
                proof {
                    lemma_read64_none(self.memory@, address, maximum as nat);
                }
                return Err(e);
            },
        };
        proof {
            lemma_read64(self.memory@, address, maximum as nat, bytes@);
        }
        if fd == 1 || fd == 2 {
            let path = if fd == 1 { "/dev/stdout".to_owned() } else { "/dev/stderr".to_owned() };
            let ghost before = self.filesystem_events@;
            self.filesystem_events.push(FileEvent {
                operation: "write".to_owned(),
                path,
                size: Some(bytes.len() as u32),
                preview: Some(preview(bytes.as_slice())),
            });
            assert(self.filesystem_events@.drop_last() =~= before);
            return Ok(bytes.len() as u64);
        }
        proof {
            lemma_fd_index(table_view(self.descriptors@), fd);
        }
        let i = match find_fd(&self.descriptors, fd) {
            Some(i) => i,
            None => {
                return Ok(errno(9));
            },
        };
        let d = copy_descriptor(&self.descriptors[i].1);
        assert(descriptor(old(self)@.descriptors, fd) == Some(d@));
        if d.socket {
            self.send_bytes(fd, bytes.as_slice());
            return Ok(bytes.len() as u64);
        }
        if !d.writable {
            return Ok(errno(9));
        }
        self.write_file_bytes(i, fd, d, bytes.as_slice())
    }
}

// ----- recording calls and dispatching system calls -----

/// The names seen so far with `name` added (each name once).
pub open spec fn with_name(names: Seq<Seq<char>>, name: Seq<char>) -> Seq<Seq<char>> {
    if names.contains(name) { names } else { names.push(name) }
}

pub open spec fn api_event_is(
    e: ApiEvent,
    index: int,
    instruction: u64,
    module: Seq<char>,
    name: Seq<char>,
    args: Seq<u64>,
    result: u64,
    summary: Seq<char>,
) -> bool {
    &&& e.index == index && e.instruction == instruction && e.module@ == module && e.name@ == name
    &&& e.arguments@.map_values(|a: String| a@) == args.map_values(|v: u64| hex16(v))
    &&& e.result == result && e.summary@ == summary
}

/// What `record_api` does: while fewer than `HARD_MAX_API_EVENTS` calls
/// are held, the call is appended (counted as modeled when it was), its
/// name remembered and a timeline event added; past that only `truncated`
/// is set.
pub open spec fn api_outcome(
    old: LinuxView,
    new: LinuxView,
    module: Seq<char>,
    name: Seq<char>,
    args: Seq<u64>,
    result: u64,
    summary: Seq<char>,
    modeled: bool,
) -> bool {
    if old.api_calls.len() >= HARD_MAX_API_EVENTS {
        new == LinuxView { truncated: true, ..old }
    } else {
        let counted = LinuxView {
            modeled_api_calls: if modeled { (old.modeled_api_calls + 1) as usize } else { old.modeled_api_calls },
            unique_api_names: with_name(old.unique_api_names, name),
            api_calls: new.api_calls,
            ..old
        };
        &&& appended(old.api_calls, new.api_calls)
        &&& api_event_is(new.api_calls.last(), old.api_calls.len() as int, old.instruction_count, module, name, args, result, summary)
        &&& timeline_outcome(counted, new, "syscall"@, name, summary, module)
    }
}

/// `v` in `0x` and sixteen hexadecimal digits.
pub(crate) fn hex16_text(v: u64) -> (s: String)
    ensures
        s@ == hex16(v),
{
    let mut s = "0x".to_owned();
    push_hex_padded(&mut s, v, 16);
    s
}

/// A syscall or libc call with no model: counted and warned about.
pub open spec fn unmodeled_syscall(old: LinuxView, new: LinuxView, number: u64, r: Result<u64, DynamicError>) -> bool {
    &&& new == LinuxView {
        unmodeled_api_calls: (old.unmodeled_api_calls + 1) as usize,
        warnings: old.warnings.push("Linux syscall "@ + decimal(number as nat) + " is not modeled; returned -ENOSYS"@),
        ..old
    }
    &&& r == Ok::<u64, DynamicError>(errno_spec(38))
}

/// What the system call `number` does with `args`, by number.
pub open spec fn syscall_outcome(old: LinuxView, new: LinuxView, number: u64, args: Seq<u64>, r: Result<u64, DynamicError>) -> bool {
    if number == 0 || number == 45 {
        read_call_outcome(old, new, args[0] as i32, args[1], args[2] as usize, r)
    } else if number == 1 || number == 44 {
        write_call_outcome(old, new, args[0] as i32, args[1], args[2] as usize, r)
    } else if number == 2 {
        r matches Ok(v) && open_outcome(old, new, c_text64(old.memory, args[0], 4096), args[1], v as i32) && v == ((v as i32) as i64) as u64
    } else if number == 3 {
        r matches Ok(v) && close_outcome(old, new, args[0] as i32, v as i32) && v == ((v as i32) as i64) as u64
    } else if number == 9 {
        mmap_outcome(old, new, args, r)
    } else if number == 10 {
        mprotect_outcome(old, new, args[0], args[1] as usize, args[2], r)
    } else if number == 11 {
        munmap_outcome(old, new, args[0], args[1], r)
    } else if number == 12 {
        r matches Ok(v) && brk_outcome(old, new, args[0], v)
    } else if number == 21 {
        new == old && r == Ok::<u64, DynamicError>(
            if lookup(old.files, c_text64(old.memory, args[0], 4096)) is Some { 0 } else { errno_spec(2) },
        )
    } else if number == 35 || number == 230 {
        new == LinuxView { virtual_time_ms: crate::engine::sat_add64(old.virtual_time_ms, 1), ..old } && r == Ok::<u64, DynamicError>(0)
    } else if number == 39 {
        new == old && r == Ok::<u64, DynamicError>(4242)
    } else if number == 41 {
        r matches Ok(v) && socket_outcome(old, new, args[0], args[1], v)
    } else if number == 42 {
        r matches Ok(v) && connect_outcome(old, new, args[0] as i32, args[1], args[2] as usize, v)
    } else if number == 59 {
        r matches Ok(v) && execve_outcome(old, new, args[0], v)
    } else if number == 60 || number == 231 {
        new == LinuxView { termination: Some(Termination::ExitProcess { code: args[0] as u32 }), ..old } && r == Ok::<
            u64,
            DynamicError,
        >(0)
    } else if number == 63 {
        uname_outcome(old, new, args[0], r)
    } else if number == 89 {
        readlink_outcome(old, new, args[0], args[1], args[2] as usize, r)
    } else if number == 96 || number == 228 {
        clock_outcome(old, new, args[1], r)
    } else if number == 102 || number == 104 || number == 107 || number == 108 {
        new == old && r == Ok::<u64, DynamicError>(1000)
    } else if number == 158 {
        arch_prctl_outcome(old, new, args[0], args[1], r)
    } else if number == 202 || number == 218 || number == 273 || number == 334 || number == 302 {
        new == old && r == Ok::<u64, DynamicError>(0)
    } else if number == 257 {
        r matches Ok(v) && open_outcome(old, new, c_text64(old.memory, args[1], 4096), args[2], v as i32) && v == ((v as i32) as i64) as u64
    } else if number == 262 {
        stat_outcome(old, new, args[1], args[2], r)
    } else if number == 318 {
        getrandom_outcome(old, new, args[0], args[1] as usize, r)
    } else {
        unmodeled_syscall(old, new, number, r)
    }
}

/// What handling a `syscall` instruction does: the number from RAX and
/// the arguments from RDI, RSI, RDX, R10, R8, R9 go to the dispatcher; its
/// failure is the result; otherwise RAX takes the result and the call is
/// recorded (as modeled unless the dispatcher found no model).
pub open spec fn handle_syscall_outcome(old: LinuxView, new: LinuxView, r: Result<(), DynamicError>) -> bool {
    let number = old.cpu.gpr[0];
    let args = syscall_args(old.cpu);
    exists|mid: LinuxView, d: Result<u64, DynamicError>|
        #![trigger syscall_outcome(old, mid, number, args, d)]
        syscall_outcome(old, mid, number, args, d) && match d {
            Err(e) => new == mid && r == Err::<(), DynamicError>(e),
            Ok(v) => r is Ok && syscall_recorded(old, mid, new, number, v),
        }
}

/// `after` is `before` with RAX set to `v`.
pub open spec fn rax_set(before: Cpu64, after: Cpu64, v: u64) -> bool {
    after == (Cpu64 { gpr: after.gpr, ..before }) && after.gpr@ == before.gpr@.update(0, v)
}

/// RAX takes a syscall's result and the call is recorded.
pub open spec fn syscall_recorded(old: LinuxView, mid: LinuxView, new: LinuxView, number: u64, v: u64) -> bool {
    exists|c: Cpu64|
        #![trigger rax_set(mid.cpu, c, v)]
        rax_set(mid.cpu, c, v) && api_outcome(
            LinuxView { cpu: c, ..mid },
            new,
            "linux"@,
            syscall_name_spec(number),
            syscall_args(old.cpu),
            v,
            syscall_summary_spec(syscall_name_spec(number), v),
            mid.unmodeled_api_calls == old.unmodeled_api_calls,
        )
}

/// The syscall arguments: RDI, RSI, RDX, R10, R8, R9.
pub open spec fn syscall_args(c: Cpu64) -> Seq<u64> {
    seq![c.gpr[7], c.gpr[6], c.gpr[2], c.gpr[10], c.gpr[8], c.gpr[9]]
}

impl LinuxMachine {
    /// Records a system or libc call and its timeline event.
    pub fn record_api(&mut self, module: &str, name: &str, args: &[u64; 6], result: u64, summary: String, modeled: bool)
        requires
            old(self).wf(),
        ensures
            final(self).wf(),
            api_outcome(old(self)@, final(self)@, module@, name@, args@, result, summary@, modeled),
    {
        if self.api_calls.len() >= HARD_MAX_API_EVENTS {
            self.truncated = true;
            return;
        }
        if modeled {
            self.modeled_api_calls = self.modeled_api_calls + 1;
        }
        let owned = name.to_owned();
        let mut k: usize = 0;
        let mut seen = false;
        while k < self.unique_api_names.len()
            invariant
                k <= self.unique_api_names@.len(),
                owned@ == name@,
                seen ==> self.unique_api_names@.map_values(|w: String| w@).contains(name@),
                !seen ==> forall|j: int| 0 <= j < k ==> self.unique_api_names@[j]@ != name@,
            decreases self.unique_api_names@.len() - k,
        {
            if self.unique_api_names[k] == owned {
                assert(self.unique_api_names@.map_values(|w: String| w@)[k as int] == name@);
                seen = true;
            }
            k = k + 1;
        }
        let ghost names = self.unique_api_names@.map_values(|w: String| w@);
        if !seen {
            self.unique_api_names.push(owned);
            assert(self.unique_api_names@.map_values(|w: String| w@) =~= names.push(name@));
            assert(!names.contains(name@)) by {
                if names.contains(name@) {
                    let j = choose|j: int| 0 <= j < names.len() && names[j] == name@;
                    assert(names[j] == old(self).unique_api_names@[j]@);
                }
            }
        }
        let mut shown: Vec<String> = Vec::new();
        let mut j: usize = 0;
        while j < 6
            invariant
                j <= 6,
                shown@.len() == j,
                forall|m: int| 0 <= m < j ==> (#[trigger] shown@[m])@ == hex16(args@[m]),
            decreases 6 - j,
        {
            shown.push(hex16_text(args[j]));
            j = j + 1;
        }
        assert(shown@.map_values(|a: String| a@) =~= args@.map_values(|v: u64| hex16(v)));
        let ghost calls = self.api_calls@;
        self.api_calls.push(ApiEvent {
            index: self.api_calls.len() as u64,
            instruction: self.instruction_count,
            module: module.to_owned(),
            name: name.to_owned(),
            arguments: shown,
            result,
            summary: summary.clone(),
        });
        assert(self.api_calls@.drop_last() =~= calls);
        self.record_timeline("syscall", name, summary, module);
    }
}

proof fn lemma_fd_result(fd: i32)
    ensures
        (((fd as i64) as u64) as i32) == fd,
        ((fd as i64) as u64) == (((((fd as i64) as u64) as i32) as i64) as u64),
{
    assert((((fd as i64) as u64) as i32) == fd) by (bit_vector);
}

impl LinuxMachine {
    /// `sendto`: a write to the socket.
    pub fn sys_send(&mut self, fd: i32, buffer: u64, size: usize) -> (r: Result<u64, DynamicError>)
        requires
            old(self).wf(),
        ensures
            final(self).wf(),
            write_call_outcome(old(self)@, final(self)@, fd, buffer, size, r),
    {
        self.sys_write(fd, buffer, size)
    }

    /// `recvfrom`: a read from the socket.
    pub fn sys_recv(&mut self, fd: i32, buffer: u64, size: usize) -> (r: Result<u64, DynamicError>)
        requires
            old(self).wf(),
        ensures
            final(self).wf(),
            read_call_outcome(old(self)@, final(self)@, fd, buffer, size, r),
    {
        self.sys_read(fd, buffer, size)
    }

    fn open_call(&mut self, path_pointer: u64, flags: u64) -> (r: Result<u64, DynamicError>)
        requires
            old(self).wf(),
            old(self).next_fd < i32::MAX,
        ensures
            final(self).wf(),
            r matches Ok(v) && open_outcome(old(self)@, final(self)@, c_text64(old(self)@.memory, path_pointer, 4096), flags, v as i32)
                && v == ((v as i32) as i64) as u64,
    {
        let path = self.memory.read_c_string(path_pointer, 4096);
        let fd = self.open_path(path, flags);
        proof {
            lemma_fd_result(fd);
        }
        Ok(fd as i64 as u64)
    }

    /// Answers the Linux system call `number` with `args`.
    #[verifier::rlimit(60)]
    pub fn dispatch_linux_call(&mut self, number: u64, args: &[u64; 6]) -> (r: Result<u64, DynamicError>)
        requires
            old(self).wf(),
            old(self).next_fd < i32::MAX,
            old(self).unmodeled_api_calls < usize::MAX,
        ensures
            final(self).wf(),
            syscall_outcome(old(self)@, final(self)@, number, args@, r),
    {
        if number == 0 || number == 45 {
            self.sys_read(args[0] as i32, args[1], args[2] as usize)
        } else if number == 1 || number == 44 {
            self.sys_write(args[0] as i32, args[1], args[2] as usize)
        } else if number == 2 {
            self.open_call(args[0], args[1])
        } else if number == 3 {
            let c = self.close_fd(args[0] as i32);
            proof {
                lemma_fd_result(c);
            }
            Ok(c as i64 as u64)
        } else if number == 9 {
            self.sys_mmap(args)
        } else if number == 10 {
            self.sys_mprotect(args[0], args[1] as usize, args[2])
        } else if number == 11 {
            self.sys_munmap(args[0], args[1])
        } else if number == 12 {
            Ok(self.sys_brk(args[0]))
        } else if number == 21 {
            let path = self.memory.read_c_string(args[0], 4096);
            let key = chars_of(path.as_str());
            proof {
                lemma_key_index(store_view(self.files@), key@);
            }
            if find_entry(&self.files, &key).is_some() {
                Ok(0)
            } else {
                Ok(errno(2))
            }
        } else if number == 35 || number == 230 {
            self.virtual_time_ms = self.virtual_time_ms.saturating_add(1);
            Ok(0)
        } else if number == 39 {
            Ok(4242)
        } else if number == 41 {
            Ok(self.sys_socket(args[0], args[1], args[2]))
        } else if number == 42 {
            Ok(self.sys_connect(args[0] as i32, args[1], args[2] as usize))
        } else if number == 59 {
            Ok(self.sys_execve(args[0]))
        } else if number == 60 || number == 231 {
            self.termination = Some(Termination::ExitProcess { code: args[0] as u32 });
            Ok(0)
        } else if number == 63 {
            self.sys_uname(args[0])
        } else if number == 89 {
            self.sys_readlink(args[0], args[1], args[2] as usize)
        } else if number == 96 || number == 228 {
            self.sys_clock(args[1])
        } else if number == 102 || number == 104 || number == 107 || number == 108 {
            Ok(1000)
        } else if number == 158 {
            self.sys_arch_prctl(args[0], args[1])
        } else if number == 202 || number == 218 || number == 273 || number == 334 || number == 302 {
            Ok(0)
        } else if number == 257 {
            self.open_call(args[1], args[2])
        } else if number == 262 {
            self.sys_stat(args[1], args[2])
        } else if number == 318 {
            self.sys_getrandom(args[0], args[1] as usize)
        } else {
            self.unmodeled_api_calls = self.unmodeled_api_calls + 1;
            let mut warning = "Linux syscall ".to_owned();
            push_decimal(&mut warning, number);
            push_str(&mut warning, " is not modeled; returned -ENOSYS");
            let ghost before = self.warnings@;
            self.warnings.push(warning);
            assert(self.warnings@.map_values(|w: String| w@) =~= before.map_values(|w: String| w@).push(
                "Linux syscall "@ + decimal(number as nat) + " is not modeled; returned -ENOSYS"@,
            ));
            Ok(errno(38))
        }
    }

    /// Handles a `syscall` instruction: dispatches on RAX, stores the result
    /// in RAX and records the call.
    pub fn handle_syscall(&mut self) -> (r: Result<(), DynamicError>)
        requires
            old(self).wf(),
            old(self).next_fd < i32::MAX,
            old(self).unmodeled_api_calls < usize::MAX,
        ensures
            final(self).wf(),
            handle_syscall_outcome(old(self)@, final(self)@, r),
    {
        let number = self.cpu.gpr[0];
        let args: [u64; 6] = [self.cpu.gpr[7], self.cpu.gpr[6], self.cpu.gpr[2], self.cpu.gpr[10], self.cpu.gpr[8], self.cpu.gpr[9]];
        assert(args@ =~= syscall_args(old(self)@.cpu));
        let name = syscall_name(number);
        let unmodeled_before = self.unmodeled_api_calls;
        let d = self.dispatch_linux_call(number, &args);
        let ghost mid = self@;
        assert(syscall_outcome(old(self)@, mid, number, syscall_args(old(self)@.cpu), d));
        let result = match d {
            Ok(v) => v,
            Err(e) => {
                return Err(e);
            },
        };
        self.cpu.gpr[0] = result;
        assert(rax_set(mid.cpu, self.cpu, result));
        let ghost set = self@;
        let modeled = self.unmodeled_api_calls == unmodeled_before;
        self.record_api("linux", name, &args, result, syscall_summary(name, result), modeled);
        assert(syscall_recorded(old(self)@, mid, self@, number, result));
        Ok(())
    }
}

// ----- the libc layer -----

/// An imported libc function: its symbol and the library it comes from.
#[derive(Debug)]
pub struct LinuxImport {
    pub name: String,
    pub module: String,
}

/// `s` without its leading underscores.
pub open spec fn drop_underscores(s: Seq<char>) -> Seq<char>
    decreases s.len(),
{
    if s.len() > 0 && s[0] == '_' {
        drop_underscores(s.drop_first())
    } else {
        s
    }
}

/// The name an import is modeled under: leading underscores dropped, in
/// ASCII lower case.
pub open spec fn libc_name(name: Seq<char>) -> Seq<char> {
    lower_seq(drop_underscores(name))
}

/// A libc call's arguments: RDI, RSI, RDX, RCX, R8, R9.
pub open spec fn import_args(c: Cpu64) -> Seq<u64> {
    seq![c.gpr[7], c.gpr[6], c.gpr[2], c.gpr[1], c.gpr[8], c.gpr[9]]
}

/// The bytes of the text at `address` (at most `max` bytes), encoded again.
pub open spec fn c_text_bytes64(m: Seq<RegionView64>, address: u64, max: nat) -> Seq<u8> {
    vstd::utf8::encode_utf8(c_text64(m, address, max))
}

/// `count` copies of `value`.
pub open spec fn filled(value: u8, count: nat) -> Seq<u8> {
    Seq::new(count, |i: int| value)
}

/// `a * b` held to `usize::MAX`.
pub open spec fn sat_mul(a: usize, b: usize) -> usize {
    if a * b > usize::MAX { usize::MAX } else { (a * b) as usize }
}

/// A libc call with no model: counted, warned about, and answered with 0.
pub open spec fn unmodeled_import(old: LinuxView, new: LinuxView, name: Seq<char>, r: Result<u64, DynamicError>) -> bool {
    &&& new == LinuxView {
        unmodeled_api_calls: (old.unmodeled_api_calls + 1) as usize,
        warnings: old.warnings.push("Linux import "@ + name + " is not modeled; returned 0"@),
        ..old
    }
    &&& r == Ok::<u64, DynamicError>(0)
}

/// The libc calls answered by the descriptor and memory system calls.
pub open spec fn io_call(n: Seq<char>) -> bool {
    n == "write"@ || n == "send"@ || n == "sendto"@ || n == "read"@ || n == "recv"@ || n == "recvfrom"@ || n == "open"@
        || n == "open64"@ || n == "openat"@ || n == "close"@ || n == "mmap"@ || n == "mmap64"@ || n == "mprotect"@ || n
        == "socket"@ || n == "connect"@ || n == "execve"@
}

/// What the I/O libc call `n` does: the system call of the same meaning.
pub open spec fn libc_io_outcome(old: LinuxView, new: LinuxView, n: Seq<char>, args: Seq<u64>, r: Result<u64, DynamicError>) -> bool {
    if n == "write"@ || n == "send"@ || n == "sendto"@ {
        write_call_outcome(old, new, args[0] as i32, args[1], args[2] as usize, r)
    } else if n == "read"@ || n == "recv"@ || n == "recvfrom"@ {
        read_call_outcome(old, new, args[0] as i32, args[1], args[2] as usize, r)
    } else if n == "open"@ || n == "open64"@ {
        r matches Ok(v) && open_outcome(old, new, c_text64(old.memory, args[0], 4096), args[1], v as i32) && v == ((v as i32) as i64) as u64
    } else if n == "openat"@ {
        r matches Ok(v) && open_outcome(old, new, c_text64(old.memory, args[1], 4096), args[2], v as i32) && v == ((v as i32) as i64) as u64
    } else if n == "close"@ {
        r matches Ok(v) && close_outcome(old, new, args[0] as i32, v as i32) && v == ((v as i32) as i64) as u64
    } else if n == "mmap"@ || n == "mmap64"@ {
        mmap_outcome(old, new, args, r)
    } else if n == "mprotect"@ {
        mprotect_outcome(old, new, args[0], args[1] as usize, args[2], r)
    } else if n == "socket"@ {
        r matches Ok(v) && socket_outcome(old, new, args[0], args[1], v)
    } else if n == "connect"@ {
        r matches Ok(v) && connect_outcome(old, new, args[0] as i32, args[1], args[2] as usize, v)
    } else {
        r matches Ok(v) && execve_outcome(old, new, args[0], v)
    }
}

/// What any other libc call `n` (imported as `name`) does.
pub open spec fn libc_other_outcome(old: LinuxView, new: LinuxView, n: Seq<char>, name: Seq<char>, args: Seq<u64>, r: Result<u64, DynamicError>) -> bool {
    let count: usize = if (args[2] as usize) < MAX_IO_BYTES { args[2] as usize } else { MAX_IO_BYTES };
    if n == "exit"@ || n == "exit_group"@ {
        new == LinuxView { termination: Some(Termination::ExitProcess { code: args[0] as u32 }), ..old } && r == Ok::<
            u64,
            DynamicError,
        >(0)
    } else if n == "puts"@ || n == "printf"@ || n == "fprintf"@ || n == "fputs"@ {
        let text = c_text_bytes64(old.memory, args[0], 4096);
        &&& new == LinuxView { filesystem_events: new.filesystem_events, ..old }
        &&& appended(old.filesystem_events, new.filesystem_events)
        &&& file_event_is(new.filesystem_events.last(), "write"@, "/dev/stdout"@, Some(text.len() as u32), Some(linux_preview(text)))
        &&& r == Ok::<u64, DynamicError>(text.len() as u64)
    } else if n == "strlen"@ {
        new == old && r == Ok::<u64, DynamicError>(c_text_bytes64(old.memory, args[0], MAX_IO_BYTES as nat).len() as u64)
    } else if n == "memcpy"@ || n == "memmove"@ {
        match read64(old.memory, args[1], count as nat) {
            None => new == old && r == Err::<u64, DynamicError>(DynamicError::MemoryRead { address: args[1] }),
            Some(bytes) => wrote_result(old, new, args[0], bytes, args[0], r),
        }
    } else if n == "memset"@ {
        wrote_result(old, new, args[0], filled(args[1] as u8, count as nat), args[0], r)
    } else if n == "malloc"@ {
        r matches Ok(v) && heap_outcome(old, new, args[0] as usize, v)
    } else if n == "calloc"@ {
        r matches Ok(v) && heap_outcome(old, new, sat_mul(args[0] as usize, args[1] as usize), v)
    } else if n == "realloc"@ {
        r matches Ok(v) && heap_outcome(old, new, args[1] as usize, v)
    } else if n == "free"@ || n == "getenv"@ {
        new == old && r == Ok::<u64, DynamicError>(0)
    } else if n == "getpid"@ {
        new == old && r == Ok::<u64, DynamicError>(4242)
    } else if n == "getuid"@ || n == "geteuid"@ || n == "getgid"@ || n == "getegid"@ {
        new == old && r == Ok::<u64, DynamicError>(1000)
    } else if n == "system"@ {
        &&& new == LinuxView { processes: new.processes, ..old }
        &&& appended(old.processes, new.processes)
        &&& process_event_is(new.processes.last(), "system"@, c_text64(old.memory, args[0], 4096), "denied by synthetic Linux runtime"@)
        &&& r == Ok::<u64, DynamicError>(errno_spec(13))
    } else if n == "dlopen"@ || n == "dlsym"@ {
        new == LinuxView { unmodeled_api_calls: (old.unmodeled_api_calls + 1) as usize, ..old } && r == Ok::<u64, DynamicError>(0)
    } else if n == "errno_location"@ {
        r matches Ok(v) && heap_outcome(old, new, 8, v)
    } else {
        unmodeled_import(old, new, name, r)
    }
}

/// What the libc call `n` does.
pub open spec fn libc_outcome(old: LinuxView, new: LinuxView, n: Seq<char>, name: Seq<char>, args: Seq<u64>, r: Result<u64, DynamicError>) -> bool {
    if io_call(n) {
        libc_io_outcome(old, new, n, args, r)
    } else {
        libc_other_outcome(old, new, n, name, args, r)
    }
}

/// Whether a finished libc call counts as modeled: not a dynamic-loader
/// call, a non-empty name, and no warning that the import is not modeled.
pub open spec fn import_modeled(n: Seq<char>, name: Seq<char>, warnings: Seq<Seq<char>>) -> bool {
    &&& !(n == "dlopen"@ || n == "dlsym"@)
    &&& n.len() != 0
    &&& !(warnings.len() > 0 && seq_contains(warnings.last(), "Linux import "@ + name + " is not modeled"@))
}

/// `after` is `before` with RSP set to `top`.
pub open spec fn rsp_set(before: Cpu64, after: Cpu64, top: u64) -> bool {
    after == (Cpu64 { gpr: after.gpr, ..before }) && after.gpr@ == before.gpr@.update(4, top)
}

/// The return to the caller after a libc call: unless the run has ended,
/// RIP takes the popped return address (an unreadable stack is the result).
pub open spec fn returned(before: LinuxView, new: LinuxView, r: Result<(), DynamicError>) -> bool {
    if before.termination is Some {
        new == before && r is Ok
    } else {
        match qword_at(before.memory, rsp_of(before.cpu) as int) {
            None => new == before && r == Err::<(), DynamicError>(DynamicError::MemoryRead { address: rsp_of(before.cpu) }),
            Some(target) => r is Ok && exists|c: Cpu64|
                #![trigger rsp_set(before.cpu, c, vstd::wrapping::u64_specs::wrapping_add(rsp_of(before.cpu), 8))]
                rsp_set(before.cpu, c, vstd::wrapping::u64_specs::wrapping_add(rsp_of(before.cpu), 8)) && new == LinuxView {
                    cpu: Cpu64 { rip: target, ..c },
                    ..before
                },
        }
    }
}

/// After a libc call answered `v`: RAX takes it, the call is recorded and
/// control returns to the caller.
pub open spec fn import_finished(args: Seq<u64>, mid: LinuxView, new: LinuxView, n: Seq<char>, name: Seq<char>, module: Seq<char>, v: u64, r: Result<(), DynamicError>) -> bool {
    exists|c: Cpu64, recorded: LinuxView|
        #![trigger rax_set(mid.cpu, c, v), api_outcome(LinuxView { cpu: c, ..mid }, recorded, module, name, args, v, "Modeled synthetic Linux libc call "@ + name, import_modeled(n, name, mid.warnings))]
        rax_set(mid.cpu, c, v) && api_outcome(
            LinuxView { cpu: c, ..mid },
            recorded,
            module,
            name,
            args,
            v,
            "Modeled synthetic Linux libc call "@ + name,
            import_modeled(n, name, mid.warnings),
        ) && returned(recorded, new, r)
}

/// `after` is the CPU entering `main` with `argc` 1, `argv` and `envp`
/// and the stack at `top`.
pub open spec fn entered_main(before: Cpu64, after: Cpu64, top: u64, main: u64, argv: u64, envp: u64) -> bool {
    after == (Cpu64 { gpr: after.gpr, rip: main, ..before }) && after.gpr@ == before.gpr@.update(4, top).update(7, 1).update(
        6,
        argv,
    ).update(2, envp)
}

/// What `__libc_start_main` does: the stack is reset to its initial top
/// and the exit sentinel pushed as `main`'s return address (a failed push
/// is the result, with RSP moved); then `main` (the first argument) is
/// entered with `argc` 1, `argv` and `envp`, and the call recorded.
pub open spec fn startup_outcome(old: LinuxView, new: LinuxView, name: Seq<char>, module: Seq<char>, r: Result<(), DynamicError>) -> bool {
    let top = vstd::wrapping::u64_specs::wrapping_sub(old.initial_rsp, 8);
    let main = import_args(old.cpu)[0];
    exists|m: Seq<RegionView64>, w: Result<(), DynamicError>, c: Cpu64|
        #![trigger Memory64::write_outcome(old.memory, m, top, le_bytes(LINUX_ENTRY_RETURN as nat, 8), false, w), rsp_set(old.cpu, c, top)]
        Memory64::write_outcome(old.memory, m, top, le_bytes(LINUX_ENTRY_RETURN as nat, 8), false, w) && rsp_set(old.cpu, c, top)
            && match w {
            Err(e) => new == LinuxView { cpu: c, ..old } && r == Err::<(), DynamicError>(e),
            Ok(()) => r is Ok && started_main(old, new, m, top, main, name, module),
        }
}

pub open spec fn started_main(old: LinuxView, new: LinuxView, m: Seq<RegionView64>, top: u64, main: u64, name: Seq<char>, module: Seq<char>) -> bool {
    exists|c: Cpu64|
        #![trigger entered_main(old.cpu, c, top, main, old.argv, old.envp)]
        entered_main(old.cpu, c, top, main, old.argv, old.envp) && api_outcome(
            LinuxView { memory: m, cpu: c, ..old },
            new,
            module,
            name,
            import_args(old.cpu),
            main,
            "Entered main at "@ + hex16(main) + " through synthetic libc startup"@,
            true,
        )
}

/// What calling an import does: `__libc_start_main` starts the program;
/// any other call is answered by its model (a failure is the result) and
/// then finished.
pub open spec fn import_outcome(old: LinuxView, new: LinuxView, name: Seq<char>, module: Seq<char>, r: Result<(), DynamicError>) -> bool {
    let n = libc_name(name);
    if n == "libc_start_main"@ {
        startup_outcome(old, new, name, module, r)
    } else {
        exists|mid: LinuxView, d: Result<u64, DynamicError>|
            #![trigger libc_outcome(old, mid, n, name, import_args(old.cpu), d)]
            libc_outcome(old, mid, n, name, import_args(old.cpu), d) && match d {
                Err(e) => new == mid && r == Err::<(), DynamicError>(e),
                Ok(v) => import_finished(import_args(old.cpu), mid, new, n, name, module, v, r),
            }
    }
}

fn trim_underscores(s: &str) -> (r: String)
    ensures
        r@ == drop_underscores(s@),
{
    let chars = chars_of(s);
    let mut k: usize = 0;
    assert(chars@.subrange(0, chars@.len() as int) =~= chars@);
    while k < chars.len() && chars[k] == '_'
        invariant
            k <= chars@.len(),
            chars@ == s@,
            drop_underscores(s@) == drop_underscores(chars@.subrange(k as int, chars@.len() as int)),
        decreases chars@.len() - k,
    {
        let ghost rest = chars@.subrange(k as int, chars@.len() as int);
        assert(rest.drop_first() =~= chars@.subrange(k + 1, chars@.len() as int));
        k = k + 1;
    }
    let rest = copy_chars(&chars, k, chars.len());
    string_from_chars(&rest)
}

fn last_warning_mentions(warnings: &Vec<String>, name: &String) -> (r: bool)
    ensures
        r == (warnings@.len() > 0 && seq_contains(warnings@.last()@, "Linux import "@ + name@ + " is not modeled"@)),
{
    if warnings.len() == 0 {
        return false;
    }
    let mut needle = "Linux import ".to_owned();
    push_str(&mut needle, name.as_str());
    push_str(&mut needle, " is not modeled");
    let hay = chars_of(warnings[warnings.len() - 1].as_str());
    let pattern = chars_of(needle.as_str());
    vec_contains(&hay, &pattern)
}

impl LinuxMachine {
    fn libc_io_call(&mut self, n: &String, args: &[u64; 6]) -> (r: Result<u64, DynamicError>)
        requires
            old(self).wf(),
            old(self).next_fd < i32::MAX,
            io_call(n@),
        ensures
            final(self).wf(),
            libc_io_outcome(old(self)@, final(self)@, n@, args@, r),
    {
        if text_is(n, "write") || text_is(n, "send") || text_is(n, "sendto") {
            self.sys_write(args[0] as i32, args[1], args[2] as usize)
        } else if text_is(n, "read") || text_is(n, "recv") || text_is(n, "recvfrom") {
            self.sys_read(args[0] as i32, args[1], args[2] as usize)
        } else if text_is(n, "open") || text_is(n, "open64") {
            self.open_call(args[0], args[1])
        } else if text_is(n, "openat") {
            self.open_call(args[1], args[2])
        } else if text_is(n, "close") {
            let c = self.close_fd(args[0] as i32);
            proof {
                lemma_fd_result(c);
            }
            Ok(c as i64 as u64)
        } else if text_is(n, "mmap") || text_is(n, "mmap64") {
            self.sys_mmap(args)
        } else if text_is(n, "mprotect") {
            self.sys_mprotect(args[0], args[1] as usize, args[2])
        } else if text_is(n, "socket") {
            Ok(self.sys_socket(args[0], args[1], args[2]))
        } else if text_is(n, "connect") {
            Ok(self.sys_connect(args[0] as i32, args[1], args[2] as usize))
        } else {
            Ok(self.sys_execve(args[0]))
        }
    }

    #[verifier::rlimit(40)]
    fn libc_other_call(&mut self, n: &String, name: &String, args: &[u64; 6]) -> (r: Result<u64, DynamicError>)
        requires
            old(self).wf(),
            old(self).unmodeled_api_calls < usize::MAX,
        ensures
            final(self).wf(),
            libc_other_outcome(old(self)@, final(self)@, n@, name@, args@, r),
    {
        let count: usize = if (args[2] as usize) < MAX_IO_BYTES { args[2] as usize } else { MAX_IO_BYTES };
        if text_is(n, "exit") || text_is(n, "exit_group") {
            self.termination = Some(Termination::ExitProcess { code: args[0] as u32 });
            Ok(0)
        } else if text_is(n, "puts") || text_is(n, "printf") || text_is(n, "fprintf") || text_is(n, "fputs") {
            let text = self.memory.read_c_string(args[0], 4096);
            let bytes = text.as_str().as_bytes();
            let ghost before = self.filesystem_events@;
            self.filesystem_events.push(FileEvent {
                operation: "write".to_owned(),
                path: "/dev/stdout".to_owned(),
                size: Some(bytes.len() as u32),
                preview: Some(preview(bytes)),
            });
            assert(self.filesystem_events@.drop_last() =~= before);
            Ok(bytes.len() as u64)
        } else if text_is(n, "strlen") {
            let text = self.memory.read_c_string(args[0], MAX_IO_BYTES);
            Ok(text.as_str().as_bytes().len() as u64)
        } else if text_is(n, "memcpy") || text_is(n, "memmove") {
            let read = self.memory.read(args[1], count);
            let bytes = match read {
                Ok(b) => slice_to_vec(b),
                Err(e) => {
                    proof {
                        lemma_read64_none(self.memory@, args[1], count as nat);
                    }
                    return Err(e);
                },
            };
            proof {
                lemma_read64(self.memory@, args[1], count as nat, bytes@);
            }
            let w = self.memory.write(args[0], bytes.as_slice());
            assert(Memory64::write_outcome(old(self)@.memory, self@.memory, args@[0], bytes@, false, w));
            match w {
                Ok(()) => Ok(args[0]),
                Err(e) => Err(e),
            }
        } else if text_is(n, "memset") {
            let value = args[1] as u8;
            let mut bytes: Vec<u8> = Vec::new();
            let mut i: usize = 0;
            while i < count
                invariant
                    i <= count,
                    bytes@ =~= filled(value, i as nat),
                decreases count - i,
            {
                bytes.push(value);
                i = i + 1;
            }
            let w = self.memory.write(args[0], bytes.as_slice());
            assert(Memory64::write_outcome(old(self)@.memory, self@.memory, args@[0], filled(args@[1] as u8, count as nat), false, w));
            match w {
                Ok(()) => Ok(args[0]),
                Err(e) => Err(e),
            }
        } else if text_is(n, "malloc") {
            Ok(self.allocate_heap(args[0] as usize))
        } else if text_is(n, "calloc") {
            let product = match (args[0] as usize).checked_mul(args[1] as usize) {
                Some(p) => p,
                None => usize::MAX,
            };
            Ok(self.allocate_heap(product))
        } else if text_is(n, "realloc") {
            Ok(self.allocate_heap(args[1] as usize))
        } else if text_is(n, "free") || text_is(n, "getenv") {
            Ok(0)
        } else if text_is(n, "getpid") {
            Ok(4242)
        } else if text_is(n, "getuid") || text_is(n, "geteuid") || text_is(n, "getgid") || text_is(n, "getegid") {
            Ok(1000)
        } else if text_is(n, "system") {
            let command = self.memory.read_c_string(args[0], 4096);
            let ghost before = self.processes@;
            self.processes.push(ProcessEvent {
                operation: "system".to_owned(),
                command,
                synthetic_result: "denied by synthetic Linux runtime".to_owned(),
            });
            assert(self.processes@.drop_last() =~= before);
            Ok(errno(13))
        } else if text_is(n, "dlopen") || text_is(n, "dlsym") {
            self.unmodeled_api_calls = self.unmodeled_api_calls + 1;
            Ok(0)
        } else if text_is(n, "errno_location") {
            Ok(self.allocate_heap(8))
        } else {
            self.unmodeled_api_calls = self.unmodeled_api_calls + 1;
            let mut warning = "Linux import ".to_owned();
            push_str(&mut warning, name.as_str());
            push_str(&mut warning, " is not modeled; returned 0");
            let ghost before = self.warnings@;
            self.warnings.push(warning);
            assert(self.warnings@.map_values(|w: String| w@) =~= before.map_values(|w: String| w@).push(
                "Linux import "@ + name@ + " is not modeled; returned 0"@,
            ));
            Ok(0)
        }
    }

    fn libc_start(&mut self, import: &LinuxImport, args: &[u64; 6]) -> (r: Result<(), DynamicError>)
        requires
            old(self).wf(),
            args@ == import_args(old(self)@.cpu),
        ensures
            final(self).wf(),
            startup_outcome(old(self)@, final(self)@, import.name@, import.module@, r),
    {
        let main = args[0];
        self.cpu.set_rsp(self.initial_rsp);
        let ghost c = self.cpu;
        assert(rsp_set(old(self)@.cpu, c, self.initial_rsp));
        let pushed = self.cpu.push(&mut self.memory, LINUX_ENTRY_RETURN);
        let top = self.initial_rsp.wrapping_sub(8);
        assert(self.cpu.gpr@ =~= old(self)@.cpu.gpr@.update(4, top));
        assert(Memory64::write_outcome(old(self)@.memory, self@.memory, top, le_bytes(LINUX_ENTRY_RETURN as nat, 8), false, pushed));
        assert(rsp_set(old(self)@.cpu, self.cpu, top));
        if let Err(e) = pushed {
            return Err(e);
        }
        let ghost m = self@.memory;
        let ghost pushed_cpu = self.cpu;
        self.cpu.gpr[7] = 1;
        self.cpu.gpr[6] = self.argv;
        self.cpu.gpr[2] = self.envp;
        self.cpu.rip = main;
        assert(entered_main(old(self)@.cpu, self.cpu, top, main, self.argv, self.envp));
        let mut summary = "Entered main at ".to_owned();
        push_str(&mut summary, hex16_text(main).as_str());
        push_str(&mut summary, " through synthetic libc startup");
        self.record_api(import.module.as_str(), import.name.as_str(), args, main, summary, true);
        assert(started_main(old(self)@, self@, m, top, main, import.name@, import.module@));
        Ok(())
    }

    /// Handles a call to an imported libc function.
    #[verifier::rlimit(40)]
    pub fn handle_import(&mut self, import: LinuxImport) -> (r: Result<(), DynamicError>)
        requires
            old(self).wf(),
            old(self).next_fd < i32::MAX,
            old(self).unmodeled_api_calls < usize::MAX,
        ensures
            final(self).wf(),
            import_outcome(old(self)@, final(self)@, import.name@, import.module@, r),
    {
        let args: [u64; 6] = [self.cpu.gpr[7], self.cpu.gpr[6], self.cpu.gpr[2], self.cpu.gpr[1], self.cpu.gpr[8], self.cpu.gpr[9]];
        assert(args@ =~= import_args(old(self)@.cpu));
        let trimmed = trim_underscores(import.name.as_str());
        let normalized = ascii_lowercase(trimmed.as_str());
        assert(normalized@ == libc_name(import.name@));
        if text_is(&normalized, "libc_start_main") {
            return self.libc_start(&import, &args);
        }
        let io = text_is(&normalized, "write") || text_is(&normalized, "send") || text_is(&normalized, "sendto")
            || text_is(&normalized, "read") || text_is(&normalized, "recv") || text_is(&normalized, "recvfrom")
            || text_is(&normalized, "open") || text_is(&normalized, "open64") || text_is(&normalized, "openat")
            || text_is(&normalized, "close") || text_is(&normalized, "mmap") || text_is(&normalized, "mmap64")
            || text_is(&normalized, "mprotect") || text_is(&normalized, "socket") || text_is(&normalized, "connect")
            || text_is(&normalized, "execve");
        assert(io == io_call(normalized@));
        let d = if io {
            self.libc_io_call(&normalized, &args)
        } else {
            self.libc_other_call(&normalized, &import.name, &args)
        };
        let ghost mid = self@;
        assert(libc_outcome(old(self)@, mid, normalized@, import.name@, import_args(old(self)@.cpu), d));
        let result = match d {
            Ok(v) => v,
            Err(e) => {
                return Err(e);
            },
        };
        self.finish_import(&import, &normalized, &args, result)
    }

    fn finish_import(&mut self, import: &LinuxImport, normalized: &String, args: &[u64; 6], result: u64) -> (r: Result<(), DynamicError>)
        requires
            old(self).wf(),
        ensures
            final(self).wf(),
            import_finished(args@, old(self)@, final(self)@, normalized@, import.name@, import.module@, result, r),
    {
        let ghost mid = self@;
        self.cpu.gpr[0] = result;
        let ghost c = self.cpu;
        assert(rax_set(mid.cpu, c, result));
        let modeled = !(text_is(normalized, "dlopen") || text_is(normalized, "dlsym")) && !normalized.as_str().is_empty()
            && !last_warning_mentions(&self.warnings, &import.name);
        assert(modeled == import_modeled(normalized@, import.name@, mid.warnings));
        let mut summary = "Modeled synthetic Linux libc call ".to_owned();
        push_str(&mut summary, import.name.as_str());
        self.record_api(import.module.as_str(), import.name.as_str(), args, result, summary, modeled);
        let ghost recorded = self@;
        assert(api_outcome(LinuxView { cpu: c, ..mid }, recorded, import.module@, import.name@, args@, result,
            "Modeled synthetic Linux libc call "@ + import.name@, import_modeled(normalized@, import.name@, mid.warnings)));
        if self.termination.is_none() {
            let popped = self.cpu.pop(&self.memory);
            match popped {
                Ok(target) => {
                    let ghost moved = self.cpu;
                    assert(rsp_set(recorded.cpu, moved, vstd::wrapping::u64_specs::wrapping_add(rsp_of(recorded.cpu), 8)));
                    self.cpu.rip = target;
                },
                Err(e) => {
                    assert(returned(recorded, self@, Err(e)));
                    assert(import_finished(args@, mid, self@, normalized@, import.name@, import.module@, result, Err(e)));
                    return Err(e);
                },
            }
        }
        assert(returned(recorded, self@, Ok(())));
        assert(import_finished(args@, mid, self@, normalized@, import.name@, import.module@, result, Ok(())));
        Ok(())
    }
}

// ----- starting a process, and what the filesystem promises -----

/// The machine `new` makes: registers cleared but for RIP at `entry` and
/// RSP at `initial_rsp`; the standard files and descriptors; the heap, the
/// program break and `mmap` at their bases; descriptor 3 next; the
/// profile's clock and network mode; nothing recorded yet.
pub open spec fn started_linux(m: LinuxView, entry: u64, initial_rsp: u64, argv: u64, envp: u64, virtual_time_ms: u64, network_mode: NetworkMode) -> bool {
    &&& m.cpu.rip == entry && m.cpu.gpr@ == Seq::new(16, |i: int| if i == 4 { initial_rsp } else { 0u64 })
    &&& m.fs_base == 0 && m.initial_rsp == initial_rsp && m.argv == argv && m.envp == envp
    &&& m.instruction_count == 0 && m.virtual_time_ms == virtual_time_ms
    &&& m.api_calls.len() == 0 && m.processes.len() == 0 && m.filesystem_events.len() == 0
    &&& m.network_events.len() == 0 && m.network_exchanges.len() == 0 && m.memory_events.len() == 0
    &&& m.system.len() == 0 && m.timeline.len() == 0 && m.warnings.len() == 0
    &&& m.termination is None && !m.truncated && m.unique_api_names.len() == 0
    &&& m.modeled_api_calls == 0 && m.unmodeled_api_calls == 0
    &&& m.files.len() == 6 && m.descriptors.len() == 3 && m.next_fd == 3
    &&& m.heap_next == LINUX_HEAP_BASE + 0x1000 && m.brk == LINUX_HEAP_BASE + 0x1000 && m.mmap_next == LINUX_MMAP_BASE
    &&& m.sockets == Map::<u32, NetworkHandleView>::empty() && m.network_mode == network_mode
}

impl LinuxMachine {
    /// A Linux process over loaded `memory`, entering at `entry` with the
    /// stack at `initial_rsp`, in `environment` and network `scenario`.
    pub fn new(
        memory: Memory64,
        entry: u64,
        initial_rsp: u64,
        argv: u64,
        envp: u64,
        environment: &crate::dynamic_model::EnvironmentProfile,
        scenario: NetworkScenario,
    ) -> (m: LinuxMachine)
        requires
            memory.wf(),
        ensures
            m.wf(),
            m@.memory == memory@,
            started_linux(m@, entry, initial_rsp, argv, envp, environment.initial_virtual_time_ms, environment.network_mode),
            m@.scenario == scenario,
    {
        let mut cpu = Cpu64::default();
        cpu.rip = entry;
        cpu.set_rsp(initial_rsp);
        let files = crate::linux::default_files(environment);
        let descriptors = crate::linux::default_descriptors();
        proof {
            reveal_strlit("/dev/stderr");
            reveal_strlit("/dev/stdin");
            reveal_strlit("/dev/stdout");
            reveal_strlit("/etc/hostname");
            reveal_strlit("/proc/cpuinfo");
            reveal_strlit("/proc/self/status");
            let sv = store_view(files@);
            assert forall|a: int, b: int| 0 <= a < b < sv.len() implies (#[trigger] sv[a]).0 != (#[trigger] sv[b]).0 by {
                assert(sv[a].0 == files@[a].0@ && sv[b].0 == files@[b].0@);
                if a == 0 && b == 2 {
                    assert(sv[a].0[8] != sv[b].0[8]);
                } else if a == 3 && b == 4 {
                    assert(sv[a].0[1] != sv[b].0[1]);
                } else {
                    assert(sv[a].0.len() != sv[b].0.len());
                }
            }
        }
        let m = LinuxMachine {
            cpu,
            fs_base: 0,
            memory,
            initial_rsp,
            argv,
            envp,
            instruction_count: 0,
            virtual_time_ms: environment.initial_virtual_time_ms,
            api_calls: Vec::new(),
            processes: Vec::new(),
            filesystem_events: Vec::new(),
            network_events: Vec::new(),
            network_exchanges: Vec::new(),
            memory_events: Vec::new(),
            system: Vec::new(),
            timeline: Vec::new(),
            warnings: Vec::new(),
            termination: None,
            truncated: false,
            unique_api_names: Vec::new(),
            modeled_api_calls: 0,
            unmodeled_api_calls: 0,
            files,
            descriptors,
            next_fd: 3,
            heap_next: LINUX_HEAP_BASE + 0x1000,
            brk: LINUX_HEAP_BASE + 0x1000,
            mmap_next: LINUX_MMAP_BASE,
            network_runtime: NetworkRuntime::new(scenario),
            network_mode: environment.network_mode,
        };
        assert(m.cpu.gpr@ =~= Seq::new(16, |i: int| if i == 4 { initial_rsp } else { 0u64 }));
        assert(m@.sockets =~= Map::<u32, NetworkHandleView>::empty());
        m
    }
}

/// What a `write` stores through a descriptor, a `read` from the same file
/// at the same offset gives back: after a file write of `bytes` at the
/// cursor of `d` that stayed within `MAX_IO_BYTES`, any non-socket
/// descriptor `reader` on the same path at the same offset takes exactly
/// `bytes` when it reads that many.
pub proof fn law_linux_read_after_write(
    old: LinuxView,
    new: LinuxView,
    fd: i32,
    d: DescriptorView,
    bytes: Seq<u8>,
    r: Result<u64, DynamicError>,
    reader: DescriptorView,
)
    requires
        distinct_keys(old.files),
        file_written(old, new, fd, d, bytes, r),
        d.cursor + bytes.len() <= MAX_IO_BYTES,
        reader.path == d.path,
        reader.cursor == d.cursor,
    ensures
        r == Ok::<u64, DynamicError>(bytes.len() as u64),
        file_take(new.files, reader, bytes.len() as usize) == bytes,
{
    let file = file_or_empty(old.files, d.path);
    let stored_file = written_file(file, d.cursor as int, bytes, bytes.len() as int);
    lemma_stored_distinct(old.files, d.path, stored_file);
    law_file_read_after_write(file, d.cursor as nat, bytes, bytes.len());
    assert(bytes.subrange(0, bytes.len() as int) =~= bytes);
    assert(lookup(new.files, reader.path) == Some(stored_file));
}

// ----- what a Linux run reports -----

pub open spec fn linux_process_lines(p: Seq<ProcessEvent>) -> Seq<Seq<char>> {
    p.map_values(|e: ProcessEvent| e.operation@ + " · "@ + e.command@)
}

/// A write to the virtual filesystem.
pub open spec fn is_write(e: FileEvent) -> bool {
    e.operation@ == "write"@
}

pub open spec fn size_or_zero(size: Option<u32>) -> nat {
    match size {
        Some(n) => n as nat,
        None => 0,
    }
}

pub open spec fn linux_write_lines(f: Seq<FileEvent>) -> Seq<Seq<char>> {
    f.filter(|e: FileEvent| is_write(e)).map_values(|e: FileEvent| e.path@ + " · "@ + decimal(size_or_zero(e.size)) + " bytes"@)
}

pub open spec fn linux_network_lines(n: Seq<NetworkEvent>) -> Seq<Seq<char>> {
    n.map_values(|e: NetworkEvent| e.operation@ + " · "@ + e.destination@)
}

/// A mapping or protection with execute permission.
pub open spec fn grants_execute(e: MemoryEvent) -> bool {
    e.permissions@.contains('x')
}

pub open spec fn linux_executable_lines(m: Seq<MemoryEvent>) -> Seq<Seq<char>> {
    m.filter(|e: MemoryEvent| grants_execute(e)).map_values(|e: MemoryEvent| hex16(e.address) + " · "@ + e.permissions@)
}

/// The findings a Linux run ends with: always that user-mode execution
/// completed; then process execution, file writes, network activity, and
/// executable protections, each when seen.
pub open spec fn linux_findings_spec(v: LinuxView) -> Seq<(Seq<char>, Seq<char>, DynamicSeverity, Seq<char>, Seq<Seq<char>>)> {
    seq![(
        "linux-user-mode-execution"@,
        "Linux user-mode execution completed"@,
        DynamicSeverity::Info,
        "The ELF ran in the bounded x86-64 interpreter against deterministic synthetic Linux syscalls; no host process or kernel operation occurred."@,
        seq![decimal(v.instruction_count as nat) + " instructions · "@ + decimal(v.api_calls.len()) + " syscall/libc events"@],
    )] + finding_if(
        v.processes.len() > 0,
        "linux-process-execution"@,
        "Process execution requested"@,
        DynamicSeverity::High,
        "The sample requested execve or a command-oriented libc function. The request was recorded and denied inside the synthetic runtime."@,
        linux_process_lines(v.processes),
    ) + finding_if(
        linux_write_lines(v.filesystem_events).len() > 0,
        "linux-file-write"@,
        "Virtual filesystem content written"@,
        DynamicSeverity::Medium,
        "The sample wrote bytes to the synthetic Linux filesystem. Captured content is available as a bounded runtime artifact."@,
        linux_write_lines(v.filesystem_events),
    ) + finding_if(
        v.network_events.len() > 0,
        "linux-network-activity"@,
        "Synthetic network activity observed"@,
        DynamicSeverity::Medium,
        "Linux socket syscalls reached the deterministic network sink; the browser made no external connection."@,
        linux_network_lines(v.network_events),
    ) + finding_if(
        v.memory_events.filter(|e: MemoryEvent| made_executable(e)).len() > 0,
        "linux-executable-memory"@,
        "Executable memory protection requested"@,
        DynamicSeverity::Medium,
        "The sample requested executable permissions through mmap or mprotect."@,
        linux_executable_lines(v.memory_events),
    )
}

fn dotted(a: &str, b: &str) -> (s: String)
    ensures
        s@ == a@ + " · "@ + b@,
{
    let mut s = a.to_owned();
    push_str(&mut s, " · ");
    push_str(&mut s, b);
    s
}

impl LinuxMachine {
    fn process_lines(&self) -> (r: Vec<String>)
        ensures
            r@.map_values(|e: String| e@) == linux_process_lines(self.processes@),
    {
        let mut lines: Vec<String> = Vec::new();
        let mut i: usize = 0;
        while i < self.processes.len()
            invariant
                i <= self.processes@.len(),
                lines@.map_values(|e: String| e@) == linux_process_lines(self.processes@.subrange(0, i as int)),
            decreases self.processes@.len() - i,
        {
            let ghost before = lines@;
            let line = dotted(self.processes[i].operation.as_str(), self.processes[i].command.as_str());
            let ghost lv = line@;
            lines.push(line);
            assert(lines@.map_values(|e: String| e@) =~= before.map_values(|e: String| e@).push(lv));
            assert(self.processes@.subrange(0, i + 1) =~= self.processes@.subrange(0, i as int).push(self.processes@[i as int]));
            i = i + 1;
            assert(lines@.map_values(|e: String| e@) =~= linux_process_lines(self.processes@.subrange(0, i as int)));
        }
        assert(self.processes@.subrange(0, self.processes@.len() as int) =~= self.processes@);
        lines
    }

    fn write_lines(&self) -> (r: Vec<String>)
        ensures
            r@.map_values(|e: String| e@) == linux_write_lines(self.filesystem_events@),
    {
        let mut lines: Vec<String> = Vec::new();
        let mut i: usize = 0;
        let write = chars_of("write");
        while i < self.filesystem_events.len()
            invariant
                i <= self.filesystem_events@.len(),
                write@ == "write"@,
                lines@.map_values(|e: String| e@) == linux_write_lines(self.filesystem_events@.subrange(0, i as int)),
            decreases self.filesystem_events@.len() - i,
        {
            let e = &self.filesystem_events[i];
            proof {
                self.filesystem_events@.subrange(0, i as int).lemma_filter_push(*e, |e: FileEvent| is_write(e));
                assert(self.filesystem_events@.subrange(0, i + 1) =~= self.filesystem_events@.subrange(0, i as int).push(*e));
            }
            let ghost before = lines@;
            if chars_equal(&chars_of(e.operation.as_str()), &write) {
                let mut line = dotted(e.path.as_str(), "");
                let size: u64 = match e.size {
                    Some(n) => n as u64,
                    None => 0,
                };
                push_decimal(&mut line, size);
                push_str(&mut line, " bytes");
                proof {
                    reveal_strlit("");
                }
                let ghost lv = line@;
                lines.push(line);
                assert(lines@.map_values(|e: String| e@) =~= before.map_values(|e: String| e@).push(lv));
            }
            i = i + 1;
            assert(lines@.map_values(|e: String| e@) =~= linux_write_lines(self.filesystem_events@.subrange(0, i as int)));
        }
        assert(self.filesystem_events@.subrange(0, self.filesystem_events@.len() as int) =~= self.filesystem_events@);
        lines
    }

    fn network_lines(&self) -> (r: Vec<String>)
        ensures
            r@.map_values(|e: String| e@) == linux_network_lines(self.network_events@),
    {
        let mut lines: Vec<String> = Vec::new();
        let mut i: usize = 0;
        while i < self.network_events.len()
            invariant
                i <= self.network_events@.len(),
                lines@.map_values(|e: String| e@) == linux_network_lines(self.network_events@.subrange(0, i as int)),
            decreases self.network_events@.len() - i,
        {
            let ghost before = lines@;
            let line = dotted(self.network_events[i].operation.as_str(), self.network_events[i].destination.as_str());
            let ghost lv = line@;
            lines.push(line);
            assert(lines@.map_values(|e: String| e@) =~= before.map_values(|e: String| e@).push(lv));
            assert(self.network_events@.subrange(0, i + 1) =~= self.network_events@.subrange(0, i as int).push(self.network_events@[i as int]));
            i = i + 1;
            assert(lines@.map_values(|e: String| e@) =~= linux_network_lines(self.network_events@.subrange(0, i as int)));
        }
        assert(self.network_events@.subrange(0, self.network_events@.len() as int) =~= self.network_events@);
        lines
    }

    fn executable_lines(&self) -> (r: (Vec<String>, bool))
        ensures
            r.0@.map_values(|e: String| e@) == linux_executable_lines(self.memory_events@),
            r.1 == (self.memory_events@.filter(|e: MemoryEvent| made_executable(e)).len() > 0),
    {
        let mut lines: Vec<String> = Vec::new();
        let mut protected = false;
        let mut i: usize = 0;
        let protect = chars_of("protect");
        while i < self.memory_events.len()
            invariant
                i <= self.memory_events@.len(),
                protect@ == "protect"@,
                lines@.map_values(|e: String| e@) == linux_executable_lines(self.memory_events@.subrange(0, i as int)),
                protected == (self.memory_events@.subrange(0, i as int).filter(|e: MemoryEvent| made_executable(e)).len() > 0),
            decreases self.memory_events@.len() - i,
        {
            let e = &self.memory_events[i];
            proof {
                self.memory_events@.subrange(0, i as int).lemma_filter_push(*e, |e: MemoryEvent| grants_execute(e));
                self.memory_events@.subrange(0, i as int).lemma_filter_push(*e, |e: MemoryEvent| made_executable(e));
                assert(self.memory_events@.subrange(0, i + 1) =~= self.memory_events@.subrange(0, i as int).push(*e));
            }
            let ghost before = lines@;
            if has_x(e.permissions.as_str()) {
                let line = dotted(hex16_text(e.address).as_str(), e.permissions.as_str());
                let ghost lv = line@;
                lines.push(line);
                assert(lines@.map_values(|e: String| e@) =~= before.map_values(|e: String| e@).push(lv));
                if chars_equal(&chars_of(e.operation.as_str()), &protect) {
                    protected = true;
                }
            }
            i = i + 1;
            assert(lines@.map_values(|e: String| e@) =~= linux_executable_lines(self.memory_events@.subrange(0, i as int)));
        }
        assert(self.memory_events@.subrange(0, self.memory_events@.len() as int) =~= self.memory_events@);
        (lines, protected)
    }

    /// The findings the recorded behavior of a Linux run supports.
    pub fn linux_findings(&self) -> (r: Vec<DynamicFinding>)
        ensures
            r@.map_values(|f: DynamicFinding| finding_view(f)) == linux_findings_spec(self@),
    {
        let ghost v = self@;
        let mut findings: Vec<DynamicFinding> = Vec::new();
        let mut line = String::new();
        push_decimal(&mut line, self.instruction_count);
        push_str(&mut line, " instructions · ");
        push_decimal(&mut line, self.api_calls.len() as u64);
        push_str(&mut line, " syscall/libc events");
        let ghost lv = line@;
        let evidence = vec![line];
        assert(evidence@.map_values(|e: String| e@) =~= seq![lv]);
        assert(findings@.map_values(|f: DynamicFinding| finding_view(f)) =~= Seq::empty());
        push_finding(
            &mut findings,
            "linux-user-mode-execution",
            "Linux user-mode execution completed",
            DynamicSeverity::Info,
            "The ELF ran in the bounded x86-64 interpreter against deterministic synthetic Linux syscalls; no host process or kernel operation occurred.",
            evidence,
        );
        let ghost g0 = findings@.map_values(|f: DynamicFinding| finding_view(f));
        let processes = self.process_lines();
        if self.processes.len() > 0 {
            push_finding(
                &mut findings,
                "linux-process-execution",
                "Process execution requested",
                DynamicSeverity::High,
                "The sample requested execve or a command-oriented libc function. The request was recorded and denied inside the synthetic runtime.",
                processes,
            );
        }
        let ghost g1 = findings@.map_values(|f: DynamicFinding| finding_view(f));
        assert(g1 =~= g0 + finding_if(v.processes.len() > 0, "linux-process-execution"@, "Process execution requested"@,
            DynamicSeverity::High,
            "The sample requested execve or a command-oriented libc function. The request was recorded and denied inside the synthetic runtime."@,
            linux_process_lines(v.processes)));
        let writes = self.write_lines();
        if writes.len() > 0 {
            push_finding(
                &mut findings,
                "linux-file-write",
                "Virtual filesystem content written",
                DynamicSeverity::Medium,
                "The sample wrote bytes to the synthetic Linux filesystem. Captured content is available as a bounded runtime artifact.",
                writes,
            );
        }
        let ghost g2 = findings@.map_values(|f: DynamicFinding| finding_view(f));
        assert(g2 =~= g1 + finding_if(linux_write_lines(v.filesystem_events).len() > 0, "linux-file-write"@,
            "Virtual filesystem content written"@, DynamicSeverity::Medium,
            "The sample wrote bytes to the synthetic Linux filesystem. Captured content is available as a bounded runtime artifact."@,
            linux_write_lines(v.filesystem_events)));
        let network = self.network_lines();
        if self.network_events.len() > 0 {
            push_finding(
                &mut findings,
                "linux-network-activity",
                "Synthetic network activity observed",
                DynamicSeverity::Medium,
                "Linux socket syscalls reached the deterministic network sink; the browser made no external connection.",
                network,
            );
        }
        let ghost g3 = findings@.map_values(|f: DynamicFinding| finding_view(f));
        assert(g3 =~= g2 + finding_if(v.network_events.len() > 0, "linux-network-activity"@, "Synthetic network activity observed"@,
            DynamicSeverity::Medium,
            "Linux socket syscalls reached the deterministic network sink; the browser made no external connection."@,
            linux_network_lines(v.network_events)));
        let (executable, protected) = self.executable_lines();
        if protected {
            push_finding(
                &mut findings,
                "linux-executable-memory",
                "Executable memory protection requested",
                DynamicSeverity::Medium,
                "The sample requested executable permissions through mmap or mprotect.",
                executable,
            );
        }
        let ghost g4 = findings@.map_values(|f: DynamicFinding| finding_view(f));
        assert(g4 =~= g3 + finding_if(v.memory_events.filter(|e: MemoryEvent| made_executable(e)).len() > 0,
            "linux-executable-memory"@, "Executable memory protection requested"@, DynamicSeverity::Medium,
            "The sample requested executable permissions through mmap or mprotect."@, linux_executable_lines(v.memory_events)));
        findings
    }
}

/// The operating system a Linux run reports: the profile's own when it
/// names a Linux, else Linux 6.8; in synthetic user mode either way.
pub open spec fn linux_system_text(version: Seq<char>) -> Seq<char> {
    if crate::text::seq_starts_with(version, "Linux"@) {
        version + " (synthetic user mode)"@
    } else {
        "Linux 6.8 (synthetic user mode)"@
    }
}

/// The operating system a Linux run reports.
pub fn linux_operating_system(version: &str) -> (s: String)
    ensures
        s@ == linux_system_text(version@),
{
    let v = chars_of(version);
    let prefix = chars_of("Linux");
    let starts = if prefix.len() <= v.len() {
        let head = copy_chars(&v, 0, prefix.len());
        chars_equal(&head, &prefix)
    } else {
        false
    };
    if starts {
        let mut s = version.to_owned();
        push_str(&mut s, " (synthetic user mode)");
        s
    } else {
        "Linux 6.8 (synthetic user mode)".to_owned()
    }
}

/// The state the single Linux thread ends in: terminated after an exit,
/// stopped otherwise.
pub fn linux_thread_state(termination: &Termination) -> (s: &'static str)
    ensures
        s@ == (if termination is ExitProcess { "terminated"@ } else { "stopped"@ }),
{
    match termination {
        Termination::ExitProcess { .. } => "terminated",
        _ => "stopped",
    }
}

// ----- one instruction -----

/// What one instruction does to the Linux machine: SYSCALL goes to the
/// synthetic kernel, INT3 and HLT halt the process, and everything else
/// runs on the x86-64 core, where an instruction outside the core fails
/// as unsupported.
pub open spec fn linux_step(old: LinuxView, new: LinuxView, insn: X64Instruction, r: Result<(), DynamicError>) -> bool {
    if insn.mnemonic == MNEMONIC_SYSCALL {
        handle_syscall_outcome(old, new, r)
    } else if insn.mnemonic == MNEMONIC_INT3 || insn.mnemonic == MNEMONIC_HLT {
        new == LinuxView { termination: Some(Termination::Halted), ..old } && r is Ok
    } else {
        new == LinuxView { cpu: new.cpu, memory: new.memory, ..old } && core_step(
            old.cpu,
            old.memory,
            insn,
            new.cpu,
            new.memory,
            r,
            "linux x86-64 "@,
        )
    }
}

impl LinuxMachine {
    /// Executes one decoded instruction (RIP already points past it).
    pub fn execute_instruction(&mut self, instruction: &X64Instruction) -> (r: Result<(), DynamicError>)
        requires
            old(self).wf(),
            x64_wf(*instruction),
            old(self).next_fd < i32::MAX,
            old(self).unmodeled_api_calls < usize::MAX,
        ensures
            final(self).wf(),
            linux_step(old(self)@, final(self)@, *instruction, r),
    {
        let n = instruction.mnemonic;
        if n == MNEMONIC_SYSCALL {
            return self.handle_syscall();
        }
        if n == MNEMONIC_INT3 || n == MNEMONIC_HLT {
            self.termination = Some(Termination::Halted);
            return Ok(());
        }
        run_core(&mut self.cpu, &mut self.memory, instruction, "linux x86-64 ")
    }
}

} // verus!
