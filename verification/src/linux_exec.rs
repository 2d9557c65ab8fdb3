//! The Linux process's run loop: fetch, decode, trace and execute until the
//! process ends, faults or uses up its instruction budget.
use std::collections::BTreeSet;
use vstd::prelude::*;

use crate::cpu64::Cpu64;
use crate::digest::{hex_encode, hex_text};
use crate::dynamic_error::{error_message, DynamicError};
use crate::dynamic_model::{ExecutionDiagnostics, InstructionDiagnostic, InstructionEvent, Termination};
use crate::linux_runtime::{import_outcome, linux_step, stop_termination, LinuxImport, LinuxMachine, LinuxView, LINUX_ENTRY_RETURN};
use crate::memory64::{any_region64, executable_at64, is_first64, lemma_first_unique64, RegionView64};
use crate::x64::{decode_x64, decoded_as, x64_wf, X64Instruction};

verus! {

/// What the run loop keeps beside the machine: the libc imports by address,
/// the instruction trace, the addresses executed, the first problem met and
/// the limits the loop runs under.
pub struct LinuxRun {
    pub imports: Vec<(u64, LinuxImport)>,
    pub instructions: Vec<InstructionEvent>,
    pub unique_instruction_addresses: BTreeSet<u64>,
    pub diagnostics: ExecutionDiagnostics,
    pub max_instructions: u64,
    pub max_trace_events: usize,
    pub imports_answered: u64,
}

/// `j` is the first import registered at `address`.
pub open spec fn is_first_import(imports: Seq<(u64, LinuxImport)>, address: u64, j: int) -> bool {
    &&& 0 <= j < imports.len()
    &&& imports[j].0 == address
    &&& forall|k: int| 0 <= k < j ==> (#[trigger] imports[k]).0 != address
}

/// Some import is registered at `address`.
pub open spec fn has_import(imports: Seq<(u64, LinuxImport)>, address: u64) -> bool {
    exists|j: int| 0 <= j < imports.len() && (#[trigger] imports[j]).0 == address
}

/// The position of the first import registered at `address`.
fn import_index(imports: &Vec<(u64, LinuxImport)>, address: u64) -> (r: Option<usize>)
    ensures
        match r {
            Some(j) => is_first_import(imports@, address, j as int),
            None => !has_import(imports@, address),
        },
{
    let mut i: usize = 0;
    while i < imports.len()
        invariant
            i <= imports@.len(),
            forall|k: int| 0 <= k < i ==> (#[trigger] imports@[k]).0 != address,
        decreases imports@.len() - i,
    {
        if imports[i].0 == address {
            return Some(i);
        }
        i = i + 1;
    }
    None
}

/// The last (at most four) trace events, newest first.
fn nearby_trace(events: &Vec<InstructionEvent>) -> (r: Vec<InstructionEvent>)
    ensures
        r@.len() == if events@.len() < 4 { events@.len() } else { 4 },
{
    let mut r: Vec<InstructionEvent> = Vec::new();
    let mut k: usize = events.len();
    while k > 0 && r.len() < 4
        invariant
            k <= events@.len(),
            r@.len() == events@.len() - k,
            r@.len() <= 4,
        decreases k,
    {
        r.push(events[k - 1].clone());
        k = k - 1;
    }
    r
}

/// The first unsupported instruction is kept once recorded; before that it
/// becomes the one at `address` with its text and bytes.
pub open spec fn noted(d: Option<InstructionDiagnostic>, d2: Option<InstructionDiagnostic>, address: u64, instruction: Seq<char>, bytes: Seq<char>) -> bool {
    if d is Some {
        d2 == d
    } else {
        d2 matches Some(x) && x.address == address && x.instruction@ == instruction && x.bytes@ == bytes
    }
}

/// Records the first unsupported instruction, keeping an earlier one.
fn note_unsupported(diagnostics: &mut ExecutionDiagnostics, address: u64, instruction: String, bytes: String, trace: &Vec<InstructionEvent>)
    ensures
        final(diagnostics).invalid_instruction_count == old(diagnostics).invalid_instruction_count,
        noted(old(diagnostics).first_unsupported, final(diagnostics).first_unsupported, address, instruction@, bytes@),
{
    if diagnostics.first_unsupported.is_none() {
        diagnostics.first_unsupported = Some(InstructionDiagnostic { address, instruction, bytes, nearby_trace: nearby_trace(trace) });
    }
}

/// Up to `max` bytes from `address` in the first executable region holding it.
pub open spec fn fetched64(m: Seq<RegionView64>, address: u64, max: nat) -> Seq<u8> {
    let i = choose|i: int| is_first64(m, executable_at64(address as int), i);
    let offset = address - m[i].start;
    let end = if offset + max <= m[i].data.len() { offset + max } else { m[i].data.len() as int };
    m[i].data.subrange(offset, end)
}

/// `m2` is `m` stopped by `e` at `address` during `operation`.
pub open spec fn stopped(m: LinuxView, m2: LinuxView, e: DynamicError, address: u64, operation: Seq<char>) -> bool {
    m2 == (LinuxView { termination: m2.termination, ..m }) && (m2.termination matches Some(t) && stop_termination(
        t,
        e,
        address,
        operation,
    ))
}

/// `m2` is `m` stopped at `address` because the descriptor or call counter ran out.
pub open spec fn stopped_exhausted(m: LinuxView, m2: LinuxView, address: u64) -> bool {
    m2 == (LinuxView { termination: m2.termination, ..m }) && (m2.termination matches Some(
        Termination::UnsupportedInstruction { address: x, instruction: i },
    ) && x == address && i@ == "unsupported operand "@ + "Linux descriptor or call counter exhausted"@)
}

/// The descriptor or call counter has run out.
pub open spec fn exhausted(m: LinuxView) -> bool {
    m.next_fd == i32::MAX || m.unmodeled_api_calls == usize::MAX
}

/// The trace after an instruction: one more event while there is room.
pub open spec fn traced(
    old: Seq<InstructionEvent>,
    new: Seq<InstructionEvent>,
    room: bool,
    index: u64,
    address: u64,
    shown: Seq<char>,
    text: Seq<char>,
) -> bool {
    if room {
        &&& new.len() == old.len() + 1
        &&& new.drop_last() == old
        &&& new.last().index == index && new.last().address == address && new.last().bytes@ == shown && new.last().text@ == text
    } else {
        new == old
    }
}

/// What executing a traced instruction gives: a stop when a counter has run
/// out, else the instruction's step, and on its failure a warning and a stop.
#[verifier::opaque]
pub open spec fn executed_after(
    m1: LinuxView,
    m2: LinuxView,
    insn: X64Instruction,
    a: u64,
    shown: Seq<char>,
    d: Option<InstructionDiagnostic>,
    d2: Option<InstructionDiagnostic>,
) -> bool {
    if exhausted(m1) {
        stopped_exhausted(m1, m2, a) && noted(d, d2, a, insn.text@, shown)
    } else {
        exists|mid: LinuxView, res: Result<(), DynamicError>|
            #[trigger] linux_step(m1, mid, insn, res) && match res {
                Ok(()) => m2 == mid && d2 == d,
                Err(e) => stopped(LinuxView { warnings: mid.warnings.push(error_message(e)), ..mid }, m2, e, a, "linux instruction"@)
                    && noted(d, d2, a, insn.text@, shown),
            }
    }
}

/// The run state after one executed instruction `insn` fetched as `bytes`.
#[verifier::opaque]
pub open spec fn decoded_step(
    m: LinuxView,
    r: LinuxRun,
    m2: LinuxView,
    events2: Seq<InstructionEvent>,
    d2: ExecutionDiagnostics,
    insn: X64Instruction,
    bytes: Seq<u8>,
) -> bool {
    let a = m.cpu.rip;
    if insn.code == 0 {
        &&& m2 == (LinuxView { termination: Some(Termination::InvalidInstruction { address: a }), ..m })
        &&& events2 == r.instructions@
        &&& d2.invalid_instruction_count == if r.diagnostics.invalid_instruction_count < usize::MAX {
            (r.diagnostics.invalid_instruction_count + 1) as usize
        } else {
            r.diagnostics.invalid_instruction_count
        }
        &&& noted(r.diagnostics.first_unsupported, d2.first_unsupported, a, "invalid x86-64 instruction"@, hex_text(bytes))
    } else {
        let len = if insn.length < bytes.len() { insn.length as int } else { bytes.len() as int };
        let shown = hex_text(bytes.subrange(0, len));
        let room = r.instructions@.len() < r.max_trace_events;
        let m1 = LinuxView {
            truncated: m.truncated || !room,
            cpu: Cpu64 { rip: insn.next_ip, ..m.cpu },
            instruction_count: (m.instruction_count + 1) as u64,
            ..m
        };
        &&& traced(r.instructions@, events2, room, m.instruction_count, a, shown, insn.text@)
        &&& d2.invalid_instruction_count == r.diagnostics.invalid_instruction_count
        &&& executed_after(m1, m2, insn, a, shown, r.diagnostics.first_unsupported, d2.first_unsupported)
    }
}

/// One turn of the run loop from `(m, r)` to `(m2, r2)`: the exit sentinel
/// ends the process with RAX's low half; a libc import at RIP is answered
/// (counted against the import budget); anything else is fetched (up to 15
/// bytes), decoded by iced-x86, traced while the trace has room and
/// executed, and a failure at any point stops the process.
#[verifier::opaque]
pub open spec fn run_step(m: LinuxView, r: LinuxRun, m2: LinuxView, r2: LinuxRun) -> bool {
    let a = m.cpu.rip;
    if a == LINUX_ENTRY_RETURN {
        m2 == (LinuxView { termination: Some(Termination::ExitProcess { code: m.cpu.gpr@[0] as u32 }), ..m }) && r2 == r
    } else if has_import(r.imports@, a) {
        let j = choose|j: int| is_first_import(r.imports@, a, j);
        let imp = r.imports@[j].1;
        &&& r2 == (LinuxRun { imports_answered: (r.imports_answered + 1) as u64, ..r })
        &&& if exhausted(m) {
            stopped_exhausted(m, m2, a)
        } else {
            exists|mid: LinuxView, res: Result<(), DynamicError>|
                #[trigger] import_outcome(m, mid, imp.name@, imp.module@, res) && match res {
                    Ok(()) => m2 == mid,
                    Err(e) => stopped(mid, m2, e, a, "linux libc import"@),
                }
        }
    } else {
        &&& r2.unique_instruction_addresses@ == r.unique_instruction_addresses@.insert(a)
        &&& r2.imports == r.imports && r2.max_instructions == r.max_instructions && r2.max_trace_events == r.max_trace_events
        &&& r2.imports_answered == r.imports_answered
        &&& if !any_region64(m.memory, executable_at64(a as int)) {
            &&& stopped(m, m2, DynamicError::MemoryExecute { address: a }, a, "linux execute"@)
            &&& r2.instructions == r.instructions && r2.diagnostics == r.diagnostics
        } else {
            exists|insn: X64Instruction| #[trigger] decoded_as(insn, fetched64(m.memory, a, 15), a) && decoded_step(m, r, m2, r2.instructions@, r2.diagnostics, insn, fetched64(m.memory, a, 15))
        }
    }
}

/// The loop keeps going from `(m, r)`: no termination, and both budgets left.
pub open spec fn running(m: LinuxView, r: LinuxRun) -> bool {
    m.termination is None && m.instruction_count < r.max_instructions && r.imports_answered < r.max_instructions
}

/// The first `k` turns of a chain of loop turns are each `run_step`, from a
/// state in which the loop keeps going.
pub open spec fn chain_ok(ms: Seq<LinuxView>, rs: Seq<LinuxRun>, k: nat) -> bool
    decreases k,
{
    if k == 0 {
        true
    } else {
        chain_ok(ms, rs, (k - 1) as nat) && running(ms[k - 1], rs[k - 1]) && run_step(ms[k - 1], rs[k - 1], ms[k as int], rs[k as int])
    }
}

/// A chain of loop turns.
pub open spec fn run_chain(ms: Seq<LinuxView>, rs: Seq<LinuxRun>) -> bool {
    &&& ms.len() == rs.len() && ms.len() >= 1
    &&& chain_ok(ms, rs, (ms.len() - 1) as nat)
}

proof fn lemma_chain_push(ms: Seq<LinuxView>, rs: Seq<LinuxRun>, m: LinuxView, r: LinuxRun, k: nat)
    requires
        k < ms.len(),
        k < rs.len(),
        chain_ok(ms, rs, k),
    ensures
        chain_ok(ms.push(m), rs.push(r), k),
    decreases k,
{
    if k > 0 {
        lemma_chain_push(ms, rs, m, r, (k - 1) as nat);
        assert(ms.push(m)[k - 1] == ms[k - 1] && rs.push(r)[k - 1] == rs[k - 1]);
        assert(ms.push(m)[k as int] == ms[k as int] && rs.push(r)[k as int] == rs[k as int]);
    }
}

/// What a run does: loop turns from `(m0, r0)` until the loop stops, then
/// an instruction-limit termination if none was set.
pub open spec fn run_outcome(m0: LinuxView, r0: LinuxRun, m: LinuxView, r: LinuxRun) -> bool {
    exists|ms: Seq<LinuxView>, rs: Seq<LinuxRun>|
        #[trigger] run_chain(ms, rs) && ms[0] == m0 && rs[0] == r0 && !running(ms.last(), rs.last()) && r == rs.last() && m == if ms.last().termination is None {
            LinuxView { termination: Some(Termination::InstructionLimit), ..ms.last() }
        } else {
            ms.last()
        }
}

proof fn lemma_fetched(m: Seq<RegionView64>, address: u64, max: nat, bytes: Seq<u8>)
    requires
        exists|i: int| is_first64(m, executable_at64(address as int), i) && {
            let offset = address - m[i].start;
            let end = if offset + max <= m[i].data.len() { offset + max } else { m[i].data.len() as int };
            bytes == m[i].data.subrange(offset, end)
        },
    ensures
        bytes == fetched64(m, address, max),
{
    let p = executable_at64(address as int);
    let i = choose|i: int| is_first64(m, p, i) && {
        let offset = address - m[i].start;
        let end = if offset + max <= m[i].data.len() { offset + max } else { m[i].data.len() as int };
        bytes == m[i].data.subrange(offset, end)
    };
    let k = choose|k: int| is_first64(m, p, k);
    lemma_first_unique64(m, p, i, k);
}

/// A copy of a byte slice.
fn slice_to_owned(b: &[u8]) -> (v: Vec<u8>)
    ensures
        v@ == b@,
{
    vstd::slice::slice_to_vec(b)
}

impl LinuxMachine {
    /// Answers the first import registered at RIP.
    fn step_import(&mut self, run: &mut LinuxRun, j: usize)
        requires
            old(self).wf(),
            running(old(self)@, *old(run)),
            old(self)@.cpu.rip != LINUX_ENTRY_RETURN,
            is_first_import(old(run).imports@, old(self)@.cpu.rip, j as int),
        ensures
            final(self).wf(),
            run_step(old(self)@, *old(run), final(self)@, *final(run)),
            final(self).instruction_count == old(self).instruction_count,
            final(run).unique_instruction_addresses == old(run).unique_instruction_addresses,
            final(run).max_instructions == old(run).max_instructions,
            final(run).imports_answered == old(run).imports_answered + 1,
    {
        reveal(run_step);
        let address = self.cpu.rip;
        let ghost m = self@;
        proof {
            assert(has_import(run.imports@, address));
            let k = choose|k: int| is_first_import(run.imports@, address, k);
            if k < j {
                assert((run.imports@[k]).0 != address);
            } else if j < k {
                assert((run.imports@[j as int]).0 != address);
            }
        }
        let import = LinuxImport { name: run.imports[j].1.name.clone(), module: run.imports[j].1.module.clone() };
        run.imports_answered = run.imports_answered + 1;
        if self.next_fd == i32::MAX || self.unmodeled_api_calls == usize::MAX {
            let e = DynamicError::UnsupportedOperand("Linux descriptor or call counter exhausted".to_owned());
            self.stop_for_error(e, address, "linux libc import");
            return;
        }
        let res = self.handle_import(import);
        let ghost mid = self@;
        assert(import_outcome(m, mid, run.imports@[j as int].1.name@, run.imports@[j as int].1.module@, res));
        match res {
            Ok(()) => {},
            Err(e) => self.stop_for_error(e, address, "linux libc import"),
        }
    }

    /// Ends the run at an instruction iced-x86 cannot decode.
    fn finish_invalid(&mut self, run: &mut LinuxRun, instruction: &X64Instruction, bytes: &Vec<u8>)
        requires
            old(self).wf(),
            instruction.code == 0,
        ensures
            final(self).wf(),
            decoded_step(old(self)@, *old(run), final(self)@, final(run).instructions@, final(run).diagnostics, *instruction, bytes@),
            final(run).imports == old(run).imports && final(run).max_instructions == old(run).max_instructions,
            final(run).max_trace_events == old(run).max_trace_events && final(run).imports_answered == old(run).imports_answered,
            final(run).unique_instruction_addresses == old(run).unique_instruction_addresses,
            final(self).termination is Some,
            final(self).instruction_count == old(self).instruction_count,
    {
        reveal(decoded_step);
        let address = self.cpu.rip;
        if run.diagnostics.invalid_instruction_count < usize::MAX {
            run.diagnostics.invalid_instruction_count = run.diagnostics.invalid_instruction_count + 1;
        }
        let hex = hex_encode(bytes.as_slice());
        note_unsupported(&mut run.diagnostics, address, "invalid x86-64 instruction".to_owned(), hex, &run.instructions);
        self.termination = Some(Termination::InvalidInstruction { address });
    }

    /// Executes a traced instruction (RIP and the count already advanced)
    /// and stops the process on failure.
    fn finish_traced(&mut self, run: &mut LinuxRun, instruction: &X64Instruction, address: u64, shown: String)
        requires
            old(self).wf(),
            x64_wf(*instruction),
        ensures
            final(self).wf(),
            final(run).instructions == old(run).instructions,
            final(run).imports == old(run).imports && final(run).max_instructions == old(run).max_instructions,
            final(run).max_trace_events == old(run).max_trace_events && final(run).imports_answered == old(run).imports_answered,
            final(run).unique_instruction_addresses == old(run).unique_instruction_addresses,
            final(run).diagnostics.invalid_instruction_count == old(run).diagnostics.invalid_instruction_count,
            final(self).instruction_count == old(self).instruction_count,
            executed_after(
                old(self)@,
                final(self)@,
                *instruction,
                address,
                shown@,
                old(run).diagnostics.first_unsupported,
                final(run).diagnostics.first_unsupported,
            ),
    {
        reveal(executed_after);
        let ghost m1 = self@;
        if self.next_fd == i32::MAX || self.unmodeled_api_calls == usize::MAX {
            note_unsupported(&mut run.diagnostics, address, instruction.text.clone(), shown, &run.instructions);
            let e = DynamicError::UnsupportedOperand("Linux descriptor or call counter exhausted".to_owned());
            self.stop_for_error(e, address, "linux instruction");
            return;
        }
        let res = self.execute_instruction(instruction);
        let ghost mid = self@;
        assert(linux_step(m1, mid, *instruction, res));
        match res {
            Ok(()) => {},
            Err(e) => {
                let ghost before = self.warnings@;
                self.warnings.push(e.message());
                assert(self.warnings@.map_values(|w: String| w@) =~= before.map_values(|w: String| w@).push(error_message(e)));
                note_unsupported(&mut run.diagnostics, address, instruction.text.clone(), shown, &run.instructions);
                self.stop_for_error(e, address, "linux instruction");
            },
        }
    }

    /// Traces and executes a decoded instruction.
    fn finish_valid(&mut self, run: &mut LinuxRun, instruction: &X64Instruction, bytes: &Vec<u8>)
        requires
            old(self).wf(),
            x64_wf(*instruction),
            instruction.code != 0,
            old(self).instruction_count < u64::MAX,
        ensures
            final(self).wf(),
            decoded_step(old(self)@, *old(run), final(self)@, final(run).instructions@, final(run).diagnostics, *instruction, bytes@),
            final(run).imports == old(run).imports && final(run).max_instructions == old(run).max_instructions,
            final(run).max_trace_events == old(run).max_trace_events && final(run).imports_answered == old(run).imports_answered,
            final(run).unique_instruction_addresses == old(run).unique_instruction_addresses,
            final(self).instruction_count == old(self).instruction_count + 1,
    {
        reveal(decoded_step);
        let ghost m = self@;
        let ghost r = *run;
        let address = self.cpu.rip;
        let length = if instruction.length < bytes.len() { instruction.length } else { bytes.len() };
        let shown = hex_encode(vstd::slice::slice_subrange(bytes.as_slice(), 0, length));
        let ghost events = run.instructions@;
        if run.instructions.len() < run.max_trace_events {
            run.instructions.push(
                InstructionEvent { index: self.instruction_count, address, bytes: shown.clone(), text: instruction.text.clone() },
            );
            assert(run.instructions@.drop_last() =~= events);
        } else {
            self.truncated = true;
        }
        self.cpu.rip = instruction.next_ip;
        self.instruction_count = self.instruction_count + 1;
        let ghost m1 = self@;
        let ghost r1 = *run;
        assert(m1 == LinuxView {
            truncated: m.truncated || !(r.instructions@.len() < r.max_trace_events),
            cpu: Cpu64 { rip: instruction.next_ip, ..m.cpu },
            instruction_count: (m.instruction_count + 1) as u64,
            ..m
        });
        let ghost room = r.instructions@.len() < r.max_trace_events;
        let ghost len: int = if instruction.length < bytes@.len() { instruction.length as int } else { bytes@.len() as int };
        assert(shown@ == hex_text(bytes@.subrange(0, len)));
        assert(traced(r.instructions@, run.instructions@, room, m.instruction_count, address, shown@, instruction.text@));
        self.finish_traced(run, instruction, address, shown);
        assert(r1.diagnostics.first_unsupported == r.diagnostics.first_unsupported);
    }

    /// Fetches, decodes, traces and executes the instruction at RIP.
    fn step_execute(&mut self, run: &mut LinuxRun)
        requires
            old(self).wf(),
            running(old(self)@, *old(run)),
            old(self)@.cpu.rip != LINUX_ENTRY_RETURN,
            !has_import(old(run).imports@, old(self)@.cpu.rip),
        ensures
            final(self).wf(),
            run_step(old(self)@, *old(run), final(self)@, *final(run)),
            final(run).max_instructions == old(run).max_instructions,
            final(run).imports_answered == old(run).imports_answered,
            final(self).instruction_count >= old(self).instruction_count,
            final(self).instruction_count > old(self).instruction_count || final(self).termination is Some,
            final(self).instruction_count <= old(self).instruction_count + 1,
    {
        reveal(run_step);
        let address = self.cpu.rip;
        let ghost m = self@;
        let ghost r = *run;
        let fetched = self.memory.fetch(address, 15);
        let bytes = match fetched {
            Ok(b) => slice_to_owned(b),
            Err(e) => {
                self.stop_for_error(e, address, "linux execute");
                run.unique_instruction_addresses.insert(address);
                return;
            },
        };
        proof {
            lemma_fetched(m.memory, address, 15, bytes@);
        }
        let instruction = decode_x64(bytes.as_slice(), address);
        assert(decoded_as(instruction, fetched64(m.memory, address, 15), address));
        if instruction.code == 0 {
            self.finish_invalid(run, &instruction, &bytes);
        } else {
            self.finish_valid(run, &instruction, &bytes);
        }
        run.unique_instruction_addresses.insert(address);
    }

    /// One turn of the run loop.
    fn step(&mut self, run: &mut LinuxRun)
        requires
            old(self).wf(),
            running(old(self)@, *old(run)),
        ensures
            final(self).wf(),
            run_step(old(self)@, *old(run), final(self)@, *final(run)),
            final(run).max_instructions == old(run).max_instructions,
            final(self).instruction_count >= old(self).instruction_count,
            final(run).imports_answered >= old(run).imports_answered,
            final(self).instruction_count > old(self).instruction_count || final(run).imports_answered > old(run).imports_answered
                || final(self).termination is Some,
            final(self).instruction_count <= old(self).instruction_count + 1,
            final(run).imports_answered <= old(run).imports_answered + 1,
    {
        let address = self.cpu.rip;
        if address == LINUX_ENTRY_RETURN {
            self.termination = Some(Termination::ExitProcess { code: self.cpu.gpr[0] as u32 });
            proof {
                reveal(run_step);
            }
            return;
        }
        match import_index(&run.imports, address) {
            Some(j) => self.step_import(run, j),
            None => self.step_execute(run),
        }
    }

    /// Runs the process from RIP until it ends, faults, meets an invalid or
    /// unsupported instruction, or uses up its budget: `max_instructions`
    /// instructions, and as many libc import calls (imports are answered
    /// without counting as instructions). Each turn is `run_step`; a run
    /// that stops on a budget ends with an instruction-limit termination.
    pub fn execute(&mut self, run: &mut LinuxRun)
        requires
            old(self).wf(),
        ensures
            final(self).wf(),
            run_outcome(old(self)@, *old(run), final(self)@, *final(run)),
    {
        let ghost mut ms: Seq<LinuxView> = seq![self@];
        let ghost mut rs: Seq<LinuxRun> = seq![*run];
        while self.termination.is_none() && self.instruction_count < run.max_instructions && run.imports_answered < run.max_instructions
            invariant
                self.wf(),
                run_chain(ms, rs),
                ms[0] == old(self)@,
                rs[0] == *old(run),
                ms.last() == self@,
                rs.last() == *run,
            decreases (run.max_instructions - self.instruction_count) + (run.max_instructions - run.imports_answered) + (if self.termination is None {
                1int
            } else {
                0int
            }),
        {
            let ghost m = self@;
            let ghost r = *run;
            self.step(run);
            proof {
                let ms0 = ms;
                let rs0 = rs;
                let n = (ms0.len() - 1) as nat;
                lemma_chain_push(ms0, rs0, self@, *run, n);
                ms = ms0.push(self@);
                rs = rs0.push(*run);
                assert(ms[n as int] == m && rs[n as int] == r && ms[n + 1int] == self@ && rs[n + 1int] == *run);
                assert(chain_ok(ms, rs, n + 1));
                assert(ms[0] == ms0[0] && rs[0] == rs0[0]);
            }
        }
        if self.termination.is_none() {
            self.termination = Some(Termination::InstructionLimit);
        }
        assert(run_chain(ms, rs));
    }
}

} // verus!
