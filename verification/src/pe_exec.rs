//! The PE32 machine's run loop: answer imports, fetch, decode, trace and
//! execute 32-bit instructions until the sample returns from its entry
//! point, faults, halts or uses up its instruction budget.
use vstd::prelude::*;

use crate::cpu::Cpu;
use crate::digest::{hex_encode, hex_text};
use crate::dynamic_error::{error_message, DynamicError};
use crate::dynamic_model::{InstructionEvent, Termination, HARD_MAX_API_EVENTS};
use crate::digest::{sha256_hex, sha256_of};
use crate::dynamic_model::{DynamicFinding, DynamicOptions};
use crate::engine::{
    finding_view, findings_spec, handle_api_outcome, memory_stop, memory_termination, started, Machine, MachineView,
    ENTRY_RETURN_SENTINEL,
};
use crate::loader::{load, load_outcome, pe_header_of, pe_imports_of, pe_sections_of, LoadedImage, STACK_TOP};
use crate::memory::writable;
use crate::linux_exec::traced;
use crate::loader::ApiImport;
use crate::memory::{any_region, executable_at, is_first, lemma_first_unique, Memory, RegionView};
use crate::x86::{decode_x86, decoded32_as, X86Instruction};
use crate::x86_exec::{execute_x86, x86_core, x86_wf};

verus! {

/// `j` is the first import registered at `address`.
pub open spec fn is_first_import32(imports: Seq<(u32, ApiImport)>, address: u32, j: int) -> bool {
    &&& 0 <= j < imports.len()
    &&& imports[j].0 == address
    &&& forall|k: int| 0 <= k < j ==> (#[trigger] imports[k]).0 != address
}

/// Some import is registered at `address`.
pub open spec fn has_import32(imports: Seq<(u32, ApiImport)>, address: u32) -> bool {
    exists|j: int| 0 <= j < imports.len() && (#[trigger] imports[j]).0 == address
}

fn import_index32(imports: &Vec<(u32, ApiImport)>, address: u32) -> (r: Option<usize>)
    ensures
        match r {
            Some(j) => is_first_import32(imports@, address, j as int),
            None => !has_import32(imports@, address),
        },
{
    let mut i: usize = 0;
    while i < imports.len()
        invariant
            i <= imports@.len(),
            forall|k: int| 0 <= k < i ==> (#[trigger] imports@[k]).0 != address,
        decreases imports@.len() - i,
    {
        if imports[i].0 == address {
            return Some(i);
        }
        i = i + 1;
    }
    None
}

/// Up to `max` bytes from `address` in the first executable region holding it.
pub open spec fn fetched32(m: Seq<RegionView>, address: u32, max: nat) -> Seq<u8> {
    let i = choose|i: int| is_first(m, executable_at(address as int), i);
    let offset = address - m[i].start;
    let end = if offset + max <= m[i].data.len() { offset + max } else { m[i].data.len() as int };
    m[i].data.subrange(offset, end)
}

proof fn lemma_fetched32(m: Seq<RegionView>, address: u32, max: nat, bytes: Seq<u8>)
    requires
        exists|i: int| is_first(m, executable_at(address as int), i) && {
            let offset = address - m[i].start;
            let end = if offset + max <= m[i].data.len() { offset + max } else { m[i].data.len() as int };
            bytes == m[i].data.subrange(offset, end)
        },
    ensures
        bytes == fetched32(m, address, max),
{
    let p = executable_at(address as int);
    let i = choose|i: int| is_first(m, p, i) && {
        let offset = address - m[i].start;
        let end = if offset + max <= m[i].data.len() { offset + max } else { m[i].data.len() as int };
        bytes == m[i].data.subrange(offset, end)
    };
    let k = choose|k: int| is_first(m, p, k);
    lemma_first_unique(m, p, i, k);
}

/// `m2` is `m` ended by `error` met during `operation`.
pub open spec fn stopped32(m: MachineView, m2: MachineView, error: DynamicError, operation: Seq<char>) -> bool {
    m2 == (MachineView { termination: m2.termination, ..m }) && (m2.termination matches Some(t) && memory_stop(t, error, operation))
}

/// A memory read, write or execute fault.
pub open spec fn memory_error(e: DynamicError) -> bool {
    e is MemoryRead || e is MemoryWrite || e is MemoryExecute
}

/// Executing a traced instruction at `a` from `m1`: the core's step; a
/// halting instruction ends the run as halted; a memory fault ends it as
/// such; any other error ends it as an unsupported instruction (with its
/// text) and adds the error's message to the warnings.
#[verifier::opaque]
pub open spec fn executed32(m1: MachineView, m2: MachineView, insn: X86Instruction, a: u32) -> bool {
    exists|c2: Cpu, mem2: Memory, rc: Result<bool, DynamicError>|
        #[trigger] x86_core(m1.cpu, m1.memory@, insn, c2, mem2@, rc) && mem2.wf() && {
            let mid = MachineView { cpu: c2, memory: mem2, ..m1 };
            match rc {
                Ok(false) => m2 == mid,
                Ok(true) => m2 == MachineView { termination: Some(Termination::Halted), ..mid },
                Err(e) => if memory_error(e) {
                    stopped32(mid, m2, e, "instruction"@)
                } else {
                    m2 == MachineView { termination: m2.termination, warnings: mid.warnings.push(error_message(e)), ..mid }
                        && (m2.termination matches Some(Termination::UnsupportedInstruction { address: x, instruction: s })
                        && x == a as u64 && s@ == insn.text@)
                },
            }
        }
}

/// The machine after one decoded instruction `insn` fetched as `bytes`:
/// an invalid one ends the run; otherwise it is traced while the trace has
/// room (else the run is marked truncated), EIP moves past it, the count
/// grows by one, and it is executed.
#[verifier::opaque]
pub open spec fn decoded_step32(m: MachineView, m2: MachineView, insn: X86Instruction, bytes: Seq<u8>) -> bool {
    let a = m.cpu.eip;
    if insn.code == 0 {
        m2 == (MachineView { termination: Some(Termination::InvalidInstruction { address: a as u64 }), ..m })
    } else {
        let len = if insn.length < bytes.len() { insn.length as int } else { bytes.len() as int };
        let shown = hex_text(bytes.subrange(0, len));
        let room = m.instructions.len() < m.max_trace_events;
        exists|m1: MachineView|
            #[trigger] executed32(m1, m2, insn, a) && m1 == (MachineView {
                instructions: m1.instructions,
                truncated: m.truncated || !room,
                cpu: Cpu { eip: insn.next_ip, ..m.cpu },
                instruction_count: (m.instruction_count + 1) as u64,
                ..m
            }) && traced(m.instructions, m1.instructions, room, m.instruction_count, a as u64, shown, insn.text@)
    }
}

/// An import the machine answers: the registered one, by its texts and
/// argument count.
pub open spec fn same_import(a: ApiImport, b: ApiImport) -> bool {
    a.module@ == b.module@ && a.name@ == b.name@ && a.argument_count == b.argument_count
}

/// One turn of the loop from `m` to `m2`: at the entry-return sentinel the
/// run ends as returned; at an import stub the call is answered (refused
/// once the API event log is full, and ended on failure); anything else is
/// fetched (up to 15 bytes, ending on a fault), decoded in 32-bit mode and
/// handled by `decoded_step32`.
#[verifier::opaque]
pub open spec fn run_step32(m: MachineView, m2: MachineView) -> bool {
    let a = m.cpu.eip;
    if a == ENTRY_RETURN_SENTINEL {
        m2 == (MachineView { termination: Some(Termination::ReturnedFromEntryPoint), ..m })
    } else if has_import32(m.imports, a) {
        let j = choose|j: int| is_first_import32(m.imports, a, j);
        let imp = m.imports[j].1;
        if m.api_calls.len() >= HARD_MAX_API_EVENTS {
            m2 == (MachineView { truncated: true, termination: Some(Termination::InstructionLimit), ..m })
        } else if imp.argument_count > usize::MAX / 4 {
            stopped32(m, m2, DynamicError::MemoryRead { address: vstd::wrapping::u32_specs::wrapping_add(m.cpu.esp, 4) as u64 }, "api"@)
        } else {
            exists|imp2: ApiImport, mid: MachineView, res: Result<(), DynamicError>|
                #[trigger] handle_api_outcome(m, mid, imp2, res) && same_import(imp2, imp) && match res {
                    Ok(()) => m2 == mid,
                    Err(e) => stopped32(mid, m2, e, "api"@),
                }
        }
    } else if !any_region(m.memory@, executable_at(a as int)) {
        stopped32(m, m2, DynamicError::MemoryExecute { address: a as u64 }, "execute"@)
    } else {
        exists|insn: X86Instruction|
            #[trigger] decoded32_as(insn, fetched32(m.memory@, a, 15), a) && decoded_step32(m, m2, insn, fetched32(m.memory@, a, 15))
    }
}

/// The loop keeps going: no termination and instructions left.
pub open spec fn running32(m: MachineView) -> bool {
    m.termination is None && m.instruction_count < m.max_instructions
}

/// The first `k` turns of a chain are each `run_step32`, from states in
/// which the loop keeps going.
pub open spec fn chain32(ms: Seq<MachineView>, k: nat) -> bool
    decreases k,
{
    if k == 0 {
        true
    } else {
        chain32(ms, (k - 1) as nat) && running32(ms[k - 1]) && run_step32(ms[k - 1], ms[k as int])
    }
}

proof fn lemma_chain32_push(ms: Seq<MachineView>, m: MachineView, k: nat)
    requires
        k < ms.len(),
        chain32(ms, k),
    ensures
        chain32(ms.push(m), k),
    decreases k,
{
    if k > 0 {
        lemma_chain32_push(ms, m, (k - 1) as nat);
        assert(ms.push(m)[k - 1] == ms[k - 1]);
        assert(ms.push(m)[k as int] == ms[k as int]);
    }
}

/// What a run does: loop turns from `m0` until the loop stops, then an
/// instruction-limit termination if none was set.
pub open spec fn run32_outcome(m0: MachineView, m: MachineView) -> bool {
    exists|ms: Seq<MachineView>|
        #[trigger] chain32(ms, (ms.len() - 1) as nat) && ms.len() >= 1 && ms[0] == m0 && !running32(ms.last()) && m == if ms.last().termination is None {
            MachineView { termination: Some(Termination::InstructionLimit), ..ms.last() }
        } else {
            ms.last()
        }
}

/// What `Machine::execute_instruction` does: the core's step on the
/// registers and memory; INT3 and HLT end the run as halted.
pub open spec fn instruction_outcome32(m: MachineView, m2: MachineView, insn: X86Instruction, r: Result<(), DynamicError>) -> bool {
    exists|c2: Cpu, mem2: Memory, rc: Result<bool, DynamicError>|
        #[trigger] x86_core(m.cpu, m.memory@, insn, c2, mem2@, rc) && mem2.wf() && m2 == (MachineView {
            cpu: c2,
            memory: mem2,
            termination: if rc == Ok::<bool, DynamicError>(true) { Some(Termination::Halted) } else { m.termination },
            ..m
        }) && r == match rc {
            Ok(_) => Ok::<(), DynamicError>(()),
            Err(e) => Err(e),
        }
}

fn slice_to_owned32(b: &[u8]) -> (v: Vec<u8>)
    ensures
        v@ == b@,
{
    vstd::slice::slice_to_vec(b)
}

impl Machine {
    /// Executes a decoded 32-bit instruction on the machine.
    pub fn execute_instruction(&mut self, insn: &X86Instruction) -> (r: Result<(), DynamicError>)
        requires
            old(self).wf(),
            x86_wf(*insn),
        ensures
            final(self).wf(),
            instruction_outcome32(old(self)@, final(self)@, *insn, r),
    {
        let ghost m = self@;
        let rc = execute_x86(&mut self.cpu, &mut self.memory, insn);
        let ghost c2 = self.cpu;
        let ghost mem2 = self.memory;
        assert(x86_core(m.cpu, m.memory@, *insn, c2, mem2@, rc));
        match rc {
            Ok(true) => {
                self.termination = Some(Termination::Halted);
                Ok(())
            },
            Ok(false) => Ok(()),
            Err(e) => Err(e),
        }
    }

    /// Answers the first import registered at EIP.
    fn step_import32(&mut self, j: usize)
        requires
            old(self).wf(),
            running32(old(self)@),
            old(self)@.cpu.eip != ENTRY_RETURN_SENTINEL,
            is_first_import32(old(self).imports@, old(self)@.cpu.eip, j as int),
        ensures
            final(self).wf(),
            run_step32(old(self)@, final(self)@),
            final(self).instruction_count == old(self).instruction_count,
            final(self).max_instructions == old(self).max_instructions,
            final(self).termination is Some || (old(self).api_calls@.len() < HARD_MAX_API_EVENTS
                && final(self).api_calls@.len() == old(self).api_calls@.len() + 1),
            final(self).api_calls@.len() >= old(self).api_calls@.len(),
    {
        reveal(run_step32);
        let address = self.cpu.eip;
        let ghost m = self@;
        proof {
            assert(has_import32(self.imports@, address));
            let k = choose|k: int| is_first_import32(self.imports@, address, k);
            if k < j {
                assert((self.imports@[k]).0 != address);
            } else if j < k {
                assert((self.imports@[j as int]).0 != address);
            }
        }
        if self.api_calls.len() >= HARD_MAX_API_EVENTS {
            self.truncated = true;
            self.termination = Some(Termination::InstructionLimit);
            return;
        }
        let import = ApiImport {
            module: self.imports[j].1.module.clone(),
            name: self.imports[j].1.name.clone(),
            argument_count: self.imports[j].1.argument_count,
        };
        if import.argument_count > usize::MAX / 4 {
            let e = DynamicError::MemoryRead { address: self.cpu.esp.wrapping_add(4) as u64 };
            self.termination = Some(memory_termination(e, "api"));
            return;
        }
        let res = self.handle_api(import);
        match res {
            Ok(()) => {},
            Err(e) => {
                self.termination = Some(memory_termination(e, "api"));
            },
        }
    }

    /// Executes a traced instruction (EIP and the count already advanced)
    /// and ends the run on failure.
    fn finish_traced32(&mut self, insn: &X86Instruction, address: u32)
        requires
            old(self).wf(),
            x86_wf(*insn),
        ensures
            final(self).wf(),
            executed32(old(self)@, final(self)@, *insn, address),
            final(self).instruction_count == old(self).instruction_count,
            final(self).max_instructions == old(self).max_instructions,
            final(self).api_calls@ == old(self).api_calls@,
    {
        reveal(executed32);
        let ghost m1 = self@;
        let rc = execute_x86(&mut self.cpu, &mut self.memory, insn);
        let ghost c2 = self.cpu;
        let ghost mem2 = self.memory;
        assert(x86_core(m1.cpu, m1.memory@, *insn, c2, mem2@, rc));
        match rc {
            Ok(true) => {
                self.termination = Some(Termination::Halted);
            },
            Ok(false) => {},
            Err(e) => {
                let memory_fault = match e {
                    DynamicError::MemoryRead { .. } => true,
                    DynamicError::MemoryWrite { .. } => true,
                    DynamicError::MemoryExecute { .. } => true,
                    _ => false,
                };
                if memory_fault {
                    self.termination = Some(memory_termination(e, "instruction"));
                } else {
                    let ghost before = self.warnings@;
                    self.termination = Some(Termination::UnsupportedInstruction { address: address as u64, instruction: insn.text.clone() });
                    self.warnings.push(e.message());
                    assert(self.warnings@.map_values(|w: String| w@) =~= before.map_values(|w: String| w@).push(error_message(e)));
                }
            },
        }
    }

    /// Traces and executes a decoded instruction.
    fn finish_valid32(&mut self, insn: &X86Instruction, bytes: &Vec<u8>)
        requires
            old(self).wf(),
            x86_wf(*insn),
            insn.code != 0,
            old(self).instruction_count < u64::MAX,
        ensures
            final(self).wf(),
            decoded_step32(old(self)@, final(self)@, *insn, bytes@),
            final(self).instruction_count == old(self).instruction_count + 1,
            final(self).max_instructions == old(self).max_instructions,
            final(self).api_calls@ == old(self).api_calls@,
    {
        reveal(decoded_step32);
        let ghost m = self@;
        let address = self.cpu.eip;
        let length = if insn.length < bytes.len() { insn.length } else { bytes.len() };
        let shown = hex_encode(vstd::slice::slice_subrange(bytes.as_slice(), 0, length));
        let ghost events = self.instructions@;
        let ghost room = m.instructions.len() < m.max_trace_events;
        if self.instructions.len() < self.max_trace_events {
            self.instructions.push(
                InstructionEvent { index: self.instruction_count, address: address as u64, bytes: shown, text: insn.text.clone() },
            );
            assert(self.instructions@.drop_last() =~= events);
        } else {
            self.truncated = true;
        }
        self.cpu.eip = insn.next_ip;
        self.instruction_count = self.instruction_count + 1;
        let ghost m1 = self@;
        let ghost len: int = if insn.length < bytes@.len() { insn.length as int } else { bytes@.len() as int };
        assert(traced(m.instructions, m1.instructions, room, m.instruction_count, address as u64, hex_text(bytes@.subrange(0, len)), insn.text@));
        self.finish_traced32(insn, address);
    }

    /// Fetches, decodes, traces and executes the instruction at EIP.
    fn step_execute32(&mut self)
        requires
            old(self).wf(),
            running32(old(self)@),
            old(self)@.cpu.eip != ENTRY_RETURN_SENTINEL,
            !has_import32(old(self).imports@, old(self)@.cpu.eip),
        ensures
            final(self).wf(),
            run_step32(old(self)@, final(self)@),
            final(self).max_instructions == old(self).max_instructions,
            final(self).api_calls@ == old(self).api_calls@,
            final(self).instruction_count == old(self).instruction_count + 1 || (final(self).termination is Some
                && final(self).instruction_count == old(self).instruction_count),
    {
        reveal(run_step32);
        let address = self.cpu.eip;
        let ghost m = self@;
        let fetched = self.memory.fetch(address, 15);
        let bytes = match fetched {
            Ok(b) => slice_to_owned32(b),
            Err(e) => {
                self.termination = Some(memory_termination(e, "execute"));
                return;
            },
        };
        proof {
            lemma_fetched32(m.memory@, address, 15, bytes@);
        }
        let insn = decode_x86(bytes.as_slice(), address);
        assert(decoded32_as(insn, fetched32(m.memory@, address, 15), address));
        if insn.code == 0 {
            proof {
                reveal(decoded_step32);
            }
            self.termination = Some(Termination::InvalidInstruction { address: address as u64 });
        } else {
            self.finish_valid32(&insn, &bytes);
        }
    }

    /// One turn of the run loop.
    fn step32(&mut self)
        requires
            old(self).wf(),
            running32(old(self)@),
        ensures
            final(self).wf(),
            run_step32(old(self)@, final(self)@),
            final(self).max_instructions == old(self).max_instructions,
            final(self).instruction_count >= old(self).instruction_count,
            final(self).instruction_count > old(self).instruction_count || final(self).termination is Some
                || (old(self).api_calls@.len() < HARD_MAX_API_EVENTS && final(self).api_calls@.len() == old(self).api_calls@.len() + 1),
            final(self).instruction_count == old(self).instruction_count ==> final(self).api_calls@.len() >= old(self).api_calls@.len(),
            final(self).instruction_count > old(self).instruction_count ==> final(self).api_calls@ == old(self).api_calls@,
            final(self).instruction_count <= old(self).instruction_count + 1,
    {
        let address = self.cpu.eip;
        if address == ENTRY_RETURN_SENTINEL {
            self.termination = Some(Termination::ReturnedFromEntryPoint);
            proof {
                reveal(run_step32);
            }
            return;
        }
        match import_index32(&self.imports, address) {
            Some(j) => self.step_import32(j),
            None => self.step_execute32(),
        }
    }

    /// Runs the sample from EIP until it returns from its entry point,
    /// faults, halts, meets an invalid or unsupported instruction, fills the
    /// API event log, or has executed `max_instructions` instructions
    /// (import calls are answered without counting as instructions). Each
    /// turn is `run_step32`; a run that stops on its budget ends with an
    /// instruction-limit termination.
    pub fn execute(&mut self)
        requires
            old(self).wf(),
        ensures
            final(self).wf(),
            run32_outcome(old(self)@, final(self)@),
    {
        let ghost mut ms: Seq<MachineView> = seq![self@];
        while self.termination.is_none() && self.instruction_count < self.max_instructions
            invariant
                self.wf(),
                ms.len() >= 1,
                chain32(ms, (ms.len() - 1) as nat),
                ms[0] == old(self)@,
                ms.last() == self@,
            decreases (self.max_instructions - self.instruction_count),
                (if self.api_calls@.len() < HARD_MAX_API_EVENTS { HARD_MAX_API_EVENTS - self.api_calls@.len() } else { 0 }),
                (if self.termination is None { 1int } else { 0int }),
        {
            let ghost m = self@;
            self.step32();
            proof {
                let ms0 = ms;
                let n = (ms0.len() - 1) as nat;
                lemma_chain32_push(ms0, self@, n);
                ms = ms0.push(self@);
                assert(ms[n as int] == m && ms[n + 1int] == self@);
                assert(chain32(ms, n + 1));
                assert(ms[0] == ms0[0]);
            }
        }
        if self.termination.is_none() {
            self.termination = Some(Termination::InstructionLimit);
        }
    }
}

/// Every PE32 run ends with a termination reason, and a run whose last
/// turn left no reason stopped because its instruction budget was spent.
pub proof fn law_pe_run_ends_with_a_reason(m0: MachineView, m: MachineView)
    requires
        run32_outcome(m0, m),
    ensures
        m.termination is Some,
        exists|ms: Seq<MachineView>| #[trigger] chain32(ms, (ms.len() - 1) as nat) && ms.len() >= 1 && ms[0] == m0
            && (ms.last().termination is None ==> ms.last().instruction_count >= ms.last().max_instructions
                && m == (MachineView { termination: Some(Termination::InstructionLimit), ..ms.last() })),
{
}

/// A finished PE32 run: the machine as the run left it (termination,
/// counts, trace, API calls and other events, warnings), its findings and
/// the sample's SHA-256.
pub struct PeRun {
    pub machine: Machine,
    pub findings: Vec<DynamicFinding>,
    pub sample_sha256: String,
}

/// What running a PE32 sample gives: the loader's refusal; or, when the
/// entry frame cannot be written, that write's fault; or the run of the
/// started machine (`run32_outcome`) with its findings and digest.
pub open spec fn pe_run_outcome(bytes: Seq<u8>, options: DynamicOptions, r: Result<PeRun, DynamicError>) -> bool {
    exists|lr: Result<LoadedImage, DynamicError>|
        #[trigger] load_outcome(bytes, pe_header_of(bytes), pe_sections_of(bytes), pe_imports_of(bytes), lr) && match lr {
            Err(e) => r matches Err(x) && x == e,
            Ok(li) => if !any_region(li.memory@, writable((STACK_TOP - 4) as int, 4, false)) {
                r == Err::<PeRun, DynamicError>(DynamicError::MemoryWrite { address: (STACK_TOP - 4) as u64 })
            } else {
                r matches Ok(run) && exists|m0: Machine| #[trigger] started(m0, li, options.max_instructions, options.max_trace_events)
                    && run32_outcome(m0@, run.machine@) && run.machine.wf()
                    && run.findings@.map_values(|f: DynamicFinding| finding_view(f)) == findings_spec(run.machine@)
                    && run.sample_sha256@ == hex_text(sha256_of(bytes))
            },
        }
}

/// Loads a PE32/x86 sample, starts it at its entry point and runs it.
pub fn run(bytes: &[u8], options: DynamicOptions) -> (r: Result<PeRun, DynamicError>)
    ensures
        pe_run_outcome(bytes@, options, r),
{
    let lr = load(bytes);
    let ghost lg = lr;
    assert(load_outcome(bytes@, pe_header_of(bytes@), pe_sections_of(bytes@), pe_imports_of(bytes@), lg));
    let loaded = match lr {
        Ok(l) => l,
        Err(e) => return Err(e),
    };
    let ghost li = loaded;
    let mut machine = match Machine::start(loaded, options.max_instructions, options.max_trace_events) {
        Ok(m) => m,
        Err(e) => {
            assert(!any_region(li.memory@, writable((STACK_TOP - 4) as int, 4, false)));
            return Err(e);
        },
    };
    let ghost m0 = machine;
    machine.execute();
    let findings = machine.build_findings();
    let sample_sha256 = sha256_hex(bytes);
    let run = PeRun { machine, findings, sample_sha256 };
    assert(started(m0, li, options.max_instructions, options.max_trace_events));
    Ok(run)
}

} // verus!
