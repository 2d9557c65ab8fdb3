//! Guest threads and vectored exception dispatch of the 64-bit Windows
//! emulator: threads are scheduled round robin, and an exception is handed
//! to the registered vectored handlers one after another until one
//! continues execution or none is left.
use vstd::prelude::*;

use crate::cpu64::{rsp_of, Cpu64};
use crate::dynamic_model::{ExceptionEvent, RuntimeFunction, SystemEvent, Termination, ThreadEvent, ThreadSummary, TimelineEvent};
use crate::engine::appended;
use crate::memory64::{any_region64, executable_at64, Memory64, RegionView64};
use crate::memory::{le_bytes, to_le_bytes_u64, Permissions};
use crate::linux_runtime::{hex16, hex16_text, map64, system_event_is, timeline_event_is};
use crate::dynamic_error::DynamicError;
use crate::x64::{core_step, run_core, x64_wf, X64Instruction, MNEMONIC_HLT, MNEMONIC_INT3};
use crate::text::{decimal, push_decimal, push_str};

verus! {

/// The most exception events a run records.
pub const MAX_EXCEPTION_EVENTS: usize = 128;

/// How many handlers one exception may pass through.
pub const MAX_EXCEPTION_DEPTH: usize = 16;

/// The most guest threads a run creates.
pub const MAX_GUEST_THREADS: usize = 64;

/// The most thread events a run records.
pub const MAX_THREAD_EVENTS: usize = 4096;

/// The stack each created thread gets.
pub const THREAD_STACK_SIZE: usize = 0x10000;

/// The return address under a vectored handler; reaching it completes the handler.
pub const EXCEPTION64_RETURN_SENTINEL: u64 = 0x0000_006e_ffff_ffd0;

/// The return address under a thread's start routine; reaching it ends the thread.
pub const THREAD64_RETURN_SENTINEL: u64 = 0x0000_006e_ffff_ffc0;

/// The process environment block.
pub const PEB64_BASE: u64 = 0x0000_007f_fdf0_0000;

/// Where the exception record handed to handlers is written.
pub const EXCEPTION64_RECORD_BASE: u64 = 0x0000_007e_0000_1000;

/// Where the context record handed to handlers is written.
pub const EXCEPTION64_CONTEXT_BASE: u64 = 0x0000_007e_0000_1200;

/// Where the `EXCEPTION_POINTERS` handed to handlers are written.
pub const EXCEPTION64_POINTERS: u64 = 0x0000_007e_0000_13e0;

/// Whether a guest thread can still run.
#[derive(Debug, Clone, Copy, PartialEq, Eq, Structural)]
pub enum GuestThreadState64 {
    Runnable,
    Terminated,
}

/// A guest thread: its identity, its saved registers and how it ended.
#[derive(Debug, Clone, Copy)]
pub struct GuestThread64 {
    pub tid: u32,
    pub start_address: u64,
    pub parameter: u64,
    pub cpu: Cpu64,
    pub state: GuestThreadState64,
    pub instruction_count: u64,
    pub exit_code: Option<u32>,
}

/// An exception being handled: what was raised, where execution resumes
/// when a handler continues it, how the run ends when none does, and which
/// handler is running.
#[derive(Debug)]
pub struct PendingException64 {
    pub code: u32,
    pub name: String,
    pub address: u64,
    pub resume_rip: u64,
    pub depth: usize,
    pub fallback: Termination,
    pub event_index: usize,
    pub vectored_index: usize,
    pub saved_cpu: Cpu64,
}

/// A pending exception as values.
pub struct PendingView {
    pub code: u32,
    pub name: Seq<char>,
    pub address: u64,
    pub resume_rip: u64,
    pub depth: usize,
    pub fallback: Termination,
    pub event_index: usize,
    pub vectored_index: usize,
    pub saved_cpu: Cpu64,
}

impl View for PendingException64 {
    type V = PendingView;

    open spec fn view(&self) -> PendingView {
        PendingView {
            code: self.code,
            name: self.name@,
            address: self.address,
            resume_rip: self.resume_rip,
            depth: self.depth,
            fallback: self.fallback,
            event_index: self.event_index,
            vectored_index: self.vectored_index,
            saved_cpu: self.saved_cpu,
        }
    }
}

/// The 64-bit Windows process as far as its threads and exceptions go.
pub struct Machine64 {
    pub cpu: Cpu64,
    pub memory: Memory64,
    pub instruction_count: u64,
    pub virtual_time_ms: u64,
    pub exceptions: Vec<ExceptionEvent>,
    pub timeline: Vec<TimelineEvent>,
    pub system: Vec<SystemEvent>,
    pub termination: Option<Termination>,
    pub truncated: bool,
    pub vectored_handlers: Vec<u64>,
    pub pending_exception: Option<PendingException64>,
    pub thread_states: Vec<GuestThread64>,
    pub thread_events: Vec<ThreadEvent>,
    pub current_thread: usize,
    pub unwind_functions: Vec<RuntimeFunction>,
}

/// The machine as values.
pub struct Machine64View {
    pub cpu: Cpu64,
    pub memory: Seq<RegionView64>,
    pub allocated: nat,
    pub instruction_count: u64,
    pub virtual_time_ms: u64,
    pub exceptions: Seq<ExceptionEvent>,
    pub timeline: Seq<TimelineEvent>,
    pub system: Seq<SystemEvent>,
    pub termination: Option<Termination>,
    pub truncated: bool,
    pub vectored_handlers: Seq<u64>,
    pub pending_exception: Option<PendingView>,
    pub thread_states: Seq<GuestThread64>,
    pub thread_events: Seq<ThreadEvent>,
    pub current_thread: usize,
    pub unwind_functions: Seq<RuntimeFunction>,
}

pub open spec fn pending_view(p: Option<PendingException64>) -> Option<PendingView> {
    match p {
        Some(e) => Some(e@),
        None => None,
    }
}

impl View for Machine64 {
    type V = Machine64View;

    open spec fn view(&self) -> Machine64View {
        Machine64View {
            cpu: self.cpu,
            memory: self.memory@,
            allocated: self.memory.allocated_bytes(),
            instruction_count: self.instruction_count,
            virtual_time_ms: self.virtual_time_ms,
            exceptions: self.exceptions@,
            timeline: self.timeline@,
            system: self.system@,
            termination: self.termination,
            truncated: self.truncated,
            vectored_handlers: self.vectored_handlers@,
            pending_exception: pending_view(self.pending_exception),
            thread_states: self.thread_states@,
            thread_events: self.thread_events@,
            current_thread: self.current_thread,
            unwind_functions: self.unwind_functions@,
        }
    }
}

impl Machine64 {
    /// The machine is well formed: its memory is, and the thread table is
    /// no larger than its limit.
    pub open spec fn wf(&self) -> bool {
        &&& self.memory.wf()
        &&& self.thread_states@.len() <= MAX_GUEST_THREADS
        &&& self.current_thread <= MAX_GUEST_THREADS
        &&& match self.pending_exception {
            Some(p) => p.depth < MAX_EXCEPTION_DEPTH,
            None => true,
        }
    }
}

// ----- threads -----

/// The threads with the current registers saved into the current thread.
pub open spec fn saved_threads(v: Machine64View) -> Seq<GuestThread64> {
    if v.current_thread < v.thread_states.len() {
        v.thread_states.update(v.current_thread as int, GuestThread64 { cpu: v.cpu, ..v.thread_states[v.current_thread as int] })
    } else {
        v.thread_states
    }
}

pub open spec fn thread_event_is(e: ThreadEvent, sequence: int, t: GuestThread64, operation: Seq<char>, instruction: u64, virtual_time_ms: u64) -> bool {
    &&& e.sequence == sequence && e.tid == t.tid && e.operation@ == operation
    &&& e.instruction == instruction && e.virtual_time_ms == virtual_time_ms
    &&& e.start_address == t.start_address && e.parameter == t.parameter
}

/// What `record_thread_event` does: while fewer than `MAX_THREAD_EVENTS`
/// are held, an event for thread `index` is appended; past that only
/// `truncated` is set.
pub open spec fn thread_event_outcome(old: Machine64View, new: Machine64View, operation: Seq<char>, index: int) -> bool {
    if old.thread_events.len() >= MAX_THREAD_EVENTS {
        new == Machine64View { truncated: true, ..old }
    } else {
        &&& new == Machine64View { thread_events: new.thread_events, ..old }
        &&& appended(old.thread_events, new.thread_events)
        &&& thread_event_is(
            new.thread_events.last(),
            old.thread_events.len() as int,
            old.thread_states[index],
            operation,
            old.instruction_count,
            old.virtual_time_ms,
        )
    }
}

/// The position `(from + k) % n` for the smallest `k` in `1..=n` whose
/// thread is runnable, if any.
pub open spec fn next_runnable(threads: Seq<GuestThread64>, from: int) -> Option<int> {
    let n = threads.len() as int;
    if exists|k: int| 1 <= k <= n && (#[trigger] threads[(from + k) % n]).state == GuestThreadState64::Runnable {
        let k = choose|k: int|
            1 <= k <= n && (#[trigger] threads[(from + k) % n]).state == GuestThreadState64::Runnable && forall|j: int|
                1 <= j < k ==> (#[trigger] threads[(from + j) % n]).state != GuestThreadState64::Runnable;
        Some((from + k) % n)
    } else {
        None
    }
}

/// What `schedule_next_thread` does: the current registers are saved; the
/// next runnable thread after the current one (round robin, possibly the
/// current one itself) is switched to, and recorded as scheduled when
/// `record` is set and it is another thread; the result is whether any
/// thread can run.
pub open spec fn schedule_outcome(old: Machine64View, new: Machine64View, record: bool, r: bool) -> bool {
    let saved = Machine64View { thread_states: saved_threads(old), ..old };
    match next_runnable(saved.thread_states, old.current_thread as int) {
        None => new == saved && !r,
        Some(next) => r && if next == old.current_thread {
            new == saved
        } else {
            let switched = Machine64View { current_thread: next as usize, cpu: saved.thread_states[next].cpu, ..saved };
            if record {
                thread_event_outcome(switched, new, "scheduled"@, next)
            } else {
                new == switched
            }
        },
    }
}

proof fn lemma_first_runnable(threads: Seq<GuestThread64>, from: int, k: int)
    requires
        threads.len() > 0,
        1 <= k <= threads.len(),
        threads[(from + k) % (threads.len() as int)].state == GuestThreadState64::Runnable,
        forall|j: int| 1 <= j < k ==> (#[trigger] threads[(from + j) % (threads.len() as int)]).state != GuestThreadState64::Runnable,
    ensures
        next_runnable(threads, from) == Some((from + k) % (threads.len() as int)),
{
    let n = threads.len() as int;
    let c = choose|c: int|
        1 <= c <= n && (#[trigger] threads[(from + c) % n]).state == GuestThreadState64::Runnable && forall|j: int|
            1 <= j < c ==> (#[trigger] threads[(from + j) % n]).state != GuestThreadState64::Runnable;
    if c < k {
        assert(threads[(from + c) % n].state != GuestThreadState64::Runnable);
    } else if c > k {
        assert(threads[(from + k) % n].state != GuestThreadState64::Runnable);
    }
}

impl GuestThread64 {
    /// The thread as a report lists it.
    pub fn summary(&self) -> (s: ThreadSummary)
        ensures
            s.tid == self.tid && s.start_address == self.start_address && s.parameter == self.parameter,
            s.state@ == (if self.state == GuestThreadState64::Runnable { "runnable"@ } else { "terminated"@ }),
            s.instruction_count == self.instruction_count && s.exit_code == self.exit_code,
    {
        ThreadSummary {
            tid: self.tid,
            start_address: self.start_address,
            parameter: self.parameter,
            state: if self.state == GuestThreadState64::Runnable { "runnable".to_owned() } else { "terminated".to_owned() },
            instruction_count: self.instruction_count,
            exit_code: self.exit_code,
        }
    }
}

impl Machine64 {
    /// Saves the current registers into the current thread.
    pub fn save_current_thread(&mut self)
        requires
            old(self).wf(),
        ensures
            final(self).wf(),
            final(self)@ == (Machine64View { thread_states: saved_threads(old(self)@), ..old(self)@ }),
    {
        if self.current_thread < self.thread_states.len() {
            let i = self.current_thread;
            let mut t = self.thread_states[i];
            t.cpu = self.cpu;
            self.thread_states.set(i, t);
        }
    }

    /// Records an event of thread `index`.
    pub fn record_thread_event(&mut self, operation: &str, index: usize)
        requires
            old(self).wf(),
            index < old(self).thread_states@.len(),
        ensures
            final(self).wf(),
            thread_event_outcome(old(self)@, final(self)@, operation@, index as int),
    {
        if self.thread_events.len() >= MAX_THREAD_EVENTS {
            self.truncated = true;
            return;
        }
        let thread = self.thread_states[index];
        let ghost before = self.thread_events@;
        self.thread_events.push(ThreadEvent {
            sequence: self.thread_events.len() as u64,
            tid: thread.tid,
            operation: operation.to_owned(),
            instruction: self.instruction_count,
            virtual_time_ms: self.virtual_time_ms,
            start_address: thread.start_address,
            parameter: thread.parameter,
        });
        assert(self.thread_events@.drop_last() =~= before);
    }

    /// Switches to the next runnable thread, round robin.
    pub fn schedule_next_thread(&mut self, record: bool) -> (r: bool)
        requires
            old(self).wf(),
        ensures
            final(self).wf(),
            schedule_outcome(old(self)@, final(self)@, record, r),
    {
        self.save_current_thread();
        let count = self.thread_states.len();
        let current = self.current_thread;
        let ghost threads = self.thread_states@;
        let mut offset: usize = 1;
        let mut found: Option<usize> = None;
        while offset <= count
            invariant_except_break
                found is None,
            invariant
                1 <= offset <= count + 1,
                count == threads.len(),
                count <= MAX_GUEST_THREADS,
                current <= MAX_GUEST_THREADS,
                threads == self.thread_states@,
                forall|j: int| 1 <= j < offset ==> (#[trigger] threads[(current + j) % (count as int)]).state != GuestThreadState64::Runnable,
            ensures
                match found {
                    Some(next) => count > 0 && 1 <= offset <= count && next == (current + offset) % (count as int)
                        && threads[next as int].state == GuestThreadState64::Runnable,
                    None => offset == count + 1,
                },
                forall|j: int| 1 <= j < offset ==> (#[trigger] threads[(current + j) % (count as int)]).state != GuestThreadState64::Runnable,
            decreases count + 1 - offset,
        {
            let index = (current + offset) % count;
            if self.thread_states[index].state == GuestThreadState64::Runnable {
                found = Some(index);
                break;
            }
            offset = offset + 1;
        }
        let ghost saved = self@;
        match found {
            None => {
                assert(next_runnable(threads, current as int) is None) by {
                    if exists|k: int| 1 <= k <= count && (#[trigger] threads[(current + k) % (count as int)]).state == GuestThreadState64::Runnable {
                        let k = choose|k: int| 1 <= k <= count && (#[trigger] threads[(current + k) % (count as int)]).state == GuestThreadState64::Runnable;
                        assert(threads[(current + k) % (count as int)].state != GuestThreadState64::Runnable);
                    }
                }
                false
            },
            Some(next) => {
                proof {
                    lemma_first_runnable(threads, current as int, offset as int);
                }
                if next != current {
                    self.current_thread = next;
                    self.cpu = self.thread_states[next].cpu;
                    if record {
                        self.record_thread_event("scheduled", next);
                    }
                }
                true
            },
        }
    }

    /// Ends the current thread with `exit_code`, saving its registers.
    pub fn finish_current_thread(&mut self, exit_code: u32)
        requires
            old(self).wf(),
            old(self).current_thread < old(self).thread_states@.len(),
        ensures
            final(self).wf(),
            thread_event_outcome(
                Machine64View {
                    thread_states: old(self)@.thread_states.update(
                        old(self).current_thread as int,
                        GuestThread64 {
                            cpu: old(self).cpu,
                            state: GuestThreadState64::Terminated,
                            exit_code: Some(exit_code),
                            ..old(self)@.thread_states[old(self).current_thread as int]
                        },
                    ),
                    ..old(self)@
                },
                final(self)@,
                "exited"@,
                old(self).current_thread as int,
            ),
    {
        let i = self.current_thread;
        let mut t = self.thread_states[i];
        t.cpu = self.cpu;
        t.state = GuestThreadState64::Terminated;
        t.exit_code = Some(exit_code);
        self.thread_states.set(i, t);
        self.record_thread_event("exited", i);
    }
}

// ----- ending every thread -----

/// The positions of the runnable threads, in order.
pub open spec fn runnable_indices(t: Seq<GuestThread64>) -> Seq<int>
    decreases t.len(),
{
    if t.len() == 0 {
        Seq::empty()
    } else if t.last().state == GuestThreadState64::Runnable {
        runnable_indices(t.drop_last()).push(t.len() - 1)
    } else {
        runnable_indices(t.drop_last())
    }
}

/// A thread ended with `code` when it was still runnable.
pub open spec fn ended(t: GuestThread64, code: u32) -> GuestThread64 {
    if t.state == GuestThreadState64::Runnable {
        GuestThread64 { state: GuestThreadState64::Terminated, exit_code: Some(code), ..t }
    } else {
        t
    }
}

/// How many more thread events fit.
pub open spec fn thread_event_room(events: Seq<ThreadEvent>) -> int {
    if events.len() >= MAX_THREAD_EVENTS { 0 } else { MAX_THREAD_EVENTS - events.len() }
}

/// `after` is `before` with one `operation` event for each thread at the
/// positions `indices`, as many as fit.
pub open spec fn events_appended(
    before: Seq<ThreadEvent>,
    after: Seq<ThreadEvent>,
    threads: Seq<GuestThread64>,
    indices: Seq<int>,
    operation: Seq<char>,
    instruction: u64,
    virtual_time_ms: u64,
) -> bool {
    let n = if indices.len() < thread_event_room(before) { indices.len() as int } else { thread_event_room(before) };
    &&& after.len() == before.len() + n
    &&& after.subrange(0, before.len() as int) == before
    &&& forall|j: int|
        0 <= j < n ==> thread_event_is(
            #[trigger] after[before.len() + j],
            before.len() + j,
            threads[indices[j]],
            operation,
            instruction,
            virtual_time_ms,
        )
}

/// What `terminate_all_threads` does: the current registers are saved,
/// every runnable thread ends with `code`, and each is recorded as ended
/// by the process exit (as many as fit; the run is marked truncated when
/// some do not).
pub open spec fn terminate_outcome(old: Machine64View, new: Machine64View, code: u32) -> bool {
    let saved = saved_threads(old);
    let active = runnable_indices(saved);
    &&& new == Machine64View {
        thread_states: saved.map_values(|t: GuestThread64| ended(t, code)),
        thread_events: new.thread_events,
        truncated: old.truncated || active.len() > thread_event_room(old.thread_events),
        ..old
    }
    &&& events_appended(old.thread_events, new.thread_events, saved, active, "process_exit"@, old.instruction_count, old.virtual_time_ms)
}

impl Machine64 {
    /// Ends every runnable thread with `exit_code` when the process exits.
    pub fn terminate_all_threads(&mut self, exit_code: u32)
        requires
            old(self).wf(),
        ensures
            final(self).wf(),
            terminate_outcome(old(self)@, final(self)@, exit_code),
    {
        self.save_current_thread();
        let ghost saved = self.thread_states@;
        let ghost events0 = self.thread_events@;
        let ghost truncated0 = self.truncated;
        let ghost base = self@;
        let mut i: usize = 0;
        assert(saved.subrange(0, 0) =~= Seq::<GuestThread64>::empty());
        assert(events0.subrange(0, events0.len() as int) =~= events0);
        while i < self.thread_states.len()
            invariant
                self.wf(),
                i <= saved.len(),
                self.thread_states@.len() == saved.len(),
                forall|j: int| 0 <= j < i ==> self.thread_states@[j] == ended(saved[j], exit_code),
                forall|j: int| i <= j < saved.len() ==> self.thread_states@[j] == saved[j],
                self.truncated == (truncated0 || runnable_indices(saved.subrange(0, i as int)).len() > thread_event_room(events0)),
                events_appended(events0, self.thread_events@, saved, runnable_indices(saved.subrange(0, i as int)), "process_exit"@,
                    base.instruction_count, base.virtual_time_ms),
                self@ == (Machine64View { thread_states: self@.thread_states, thread_events: self@.thread_events, truncated: self@.truncated, ..base }),
            decreases saved.len() - i,
        {
            let ghost active = runnable_indices(saved.subrange(0, i as int));
            assert(saved.subrange(0, i + 1).drop_last() =~= saved.subrange(0, i as int));
            if self.thread_states[i].state == GuestThreadState64::Runnable {
                let mut t = self.thread_states[i];
                t.state = GuestThreadState64::Terminated;
                t.exit_code = Some(exit_code);
                self.thread_states.set(i, t);
                let ghost before = self.thread_events@;
                self.record_thread_event("process_exit", i);
                proof {
                    let next = runnable_indices(saved.subrange(0, i + 1));
                    assert(next == active.push(i as int));
                    let room = thread_event_room(events0);
                    if active.len() < room {
                        assert(before.len() < MAX_THREAD_EVENTS);
                        assert(self.thread_events@.len() == events0.len() + active.len() + 1);
                        assert(self.thread_events@.subrange(0, events0.len() as int) =~= events0) by {
                            assert(self.thread_events@.subrange(0, before.len() as int) == before);
                            assert forall|k: int| 0 <= k < events0.len() implies self.thread_events@[k] == events0[k] by {
                                assert(before.subrange(0, events0.len() as int) == events0);
                                assert(before[k] == events0[k]);
                            }
                        }
                        assert forall|j: int| 0 <= j < next.len() implies thread_event_is(
                            #[trigger] self.thread_events@[events0.len() + j],
                            events0.len() + j,
                            saved[next[j]],
                            "process_exit"@,
                            base.instruction_count,
                            base.virtual_time_ms,
                        ) by {
                            if j < active.len() {
                                assert(self.thread_events@[events0.len() + j] == before[events0.len() + j]);
                            } else {
                                assert(next[j] == i);
                                assert(self.thread_states@[i as int].tid == saved[i as int].tid);
                            }
                        }
                    } else {
                        assert(before.len() >= MAX_THREAD_EVENTS);
                    }
                }
            }
            i = i + 1;
        }
        proof {
            assert(saved.subrange(0, saved.len() as int) =~= saved);
            assert(self.thread_states@ =~= saved.map_values(|t: GuestThread64| ended(t, exit_code)));
        }
    }
}

// ----- creating threads -----

/// Where thread `tid`'s stack is mapped.
pub open spec fn thread_stack(tid: int) -> u64 {
    (0x0000_0060_0000_0000 + tid * 0x20000) as u64
}

/// Where thread `tid`'s TEB is mapped.
pub open spec fn thread_teb(tid: int) -> u64 {
    (0x0000_007f_fdc0_0000 - tid * 0x2000) as u64
}

/// The registers a new thread starts with: at `start`, its TEB in GS,
/// flags clear, the parameter in RCX, RBP at the stack top and RSP just
/// below the pushed return sentinel.
pub open spec fn thread_cpu(c: Cpu64, start: u64, teb: u64, top: u64, parameter: u64) -> bool {
    &&& c.rip == start && c.gs_base == teb && !c.zf && !c.sf && !c.cf && !c.of && !c.pf
    &&& c.gpr@ == Seq::new(
        16,
        |i: int| if i == 4 { (top - 8) as u64 } else if i == 5 { top } else if i == 1 { parameter } else { 0u64 },
    )
}

/// A region name of thread `tid`.
pub open spec fn thread_region(tid: int, what: Seq<char>) -> Seq<char> {
    "x64 thread "@ + decimal(tid as nat) + what
}

/// The TEB's self and PEB pointers written, then the return sentinel
/// pushed on the new stack; on success the thread is added runnable and
/// recorded as created.
pub open spec fn thread_started(old: Machine64View, new: Machine64View, m2: Seq<RegionView64>, a2: nat, start: u64, parameter: u64, tid: int, r: u32) -> bool {
    let teb = thread_teb(tid);
    let top = (thread_stack(tid) + THREAD_STACK_SIZE) as u64;
    exists|m3: Seq<RegionView64>, w1: Result<(), crate::dynamic_error::DynamicError>, m4: Seq<RegionView64>, w2: Result<(), crate::dynamic_error::DynamicError>, m5: Seq<RegionView64>, w3: Result<(), crate::dynamic_error::DynamicError>|
        #![trigger Memory64::write_outcome(m2, m3, (teb + 0x30) as u64, le_bytes(teb as nat, 8), true, w1), Memory64::write_outcome(m3, m4, (teb + 0x60) as u64, le_bytes(PEB64_BASE as nat, 8), true, w2), Memory64::write_outcome(m4, m5, (top - 8) as u64, le_bytes(THREAD64_RETURN_SENTINEL as nat, 8), false, w3)]
        Memory64::write_outcome(m2, m3, (teb + 0x30) as u64, le_bytes(teb as nat, 8), true, w1)
            && Memory64::write_outcome(m3, m4, (teb + 0x60) as u64, le_bytes(PEB64_BASE as nat, 8), true, w2)
            && Memory64::write_outcome(m4, m5, (top - 8) as u64, le_bytes(THREAD64_RETURN_SENTINEL as nat, 8), false, w3)
            && if w3 is Err {
            new == Machine64View { memory: m5, allocated: a2, ..old } && r == 0
        } else {
            thread_added(old, new, m5, a2, start, parameter, tid, r)
        }
}

pub open spec fn thread_added(old: Machine64View, new: Machine64View, m: Seq<RegionView64>, a: nat, start: u64, parameter: u64, tid: int, r: u32) -> bool {
    exists|c: Cpu64|
        #![trigger thread_cpu(c, start, thread_teb(tid), (thread_stack(tid) + THREAD_STACK_SIZE) as u64, parameter)]
        thread_cpu(c, start, thread_teb(tid), (thread_stack(tid) + THREAD_STACK_SIZE) as u64, parameter) && thread_event_outcome(
            Machine64View {
                memory: m,
                allocated: a,
                thread_states: old.thread_states.push(
                    GuestThread64 {
                        tid: tid as u32,
                        start_address: start,
                        parameter,
                        cpu: c,
                        state: GuestThreadState64::Runnable,
                        instruction_count: 0,
                        exit_code: None,
                    },
                ),
                ..old
            },
            new,
            "created"@,
            old.thread_states.len() as int,
        ) && r == tid
}

/// The stack mapped; then the TEB.
pub open spec fn thread_mapped(old: Machine64View, new: Machine64View, m1: Seq<RegionView64>, a1: nat, start: u64, parameter: u64, tid: int, r: u32) -> bool {
    let rw = Permissions { read: true, write: true, execute: false };
    exists|m2: Seq<RegionView64>, a2: nat, e2: Result<(), crate::dynamic_error::DynamicError>|
        #![trigger map64(m1, a1, m2, a2, thread_teb(tid), 0x1000, rw, thread_region(tid, " TEB"@), e2)]
        map64(m1, a1, m2, a2, thread_teb(tid), 0x1000, rw, thread_region(tid, " TEB"@), e2) && if e2 is Err {
            new == Machine64View { memory: m1, allocated: a1, ..old } && r == 0
        } else {
            thread_started(old, new, m2, a2, start, parameter, tid, r)
        }
}

/// What `create_guest_thread` does: below the thread limit and for an
/// executable start address, it maps a 64 KiB stack and a TEB for thread
/// `count + 1`, fills the TEB's pointers, pushes the return sentinel and
/// adds the thread; any failure gives 0 (keeping what was mapped or
/// written before it).
pub open spec fn create_outcome(old: Machine64View, new: Machine64View, start: u64, parameter: u64, r: u32) -> bool {
    let n = old.thread_states.len();
    let rw = Permissions { read: true, write: true, execute: false };
    if n >= MAX_GUEST_THREADS || !any_region64(old.memory, executable_at64(start as int)) {
        new == old && r == 0
    } else {
        let tid: int = n as int + 1;
        exists|m1: Seq<RegionView64>, a1: nat, e1: Result<(), crate::dynamic_error::DynamicError>|
            #![trigger map64(old.memory, old.allocated, m1, a1, thread_stack(tid), THREAD_STACK_SIZE, rw, thread_region(tid, " stack"@), e1)]
            map64(old.memory, old.allocated, m1, a1, thread_stack(tid), THREAD_STACK_SIZE, rw, thread_region(tid, " stack"@), e1)
                && if e1 is Err {
                new == old && r == 0
            } else {
                thread_mapped(old, new, m1, a1, start, parameter, tid, r)
            }
    }
}

fn thread_region_name(tid: u32, what: &str) -> (s: String)
    ensures
        s@ == thread_region(tid as int, what@),
{
    let mut s = "x64 thread ".to_owned();
    push_decimal(&mut s, tid as u64);
    push_str(&mut s, what);
    s
}

impl Machine64 {
    /// Creates a guest thread starting at `start_address` with `parameter`;
    /// its id, or 0 when it cannot be created.
    #[verifier::rlimit(60)]
    pub fn create_guest_thread(&mut self, start_address: u64, parameter: u64) -> (tid: u32)
        requires
            old(self).wf(),
        ensures
            final(self).wf(),
            create_outcome(old(self)@, final(self)@, start_address, parameter, tid),
    {
        if self.thread_states.len() >= MAX_GUEST_THREADS || self.memory.fetch(start_address, 1).is_err() {
            return 0;
        }
        let n = self.thread_states.len();
        let tid = n as u32 + 1;
        let stack_base: u64 = 0x0000_0060_0000_0000u64 + (tid as u64) * 0x20000;
        let teb_base: u64 = 0x0000_007f_fdc0_0000u64 - (tid as u64) * 0x2000;
        let rw = Permissions::read_write();
        proof {
            reveal_strlit(" stack");
            reveal_strlit(" TEB");
        }
        let stack_name = thread_region_name(tid, " stack");
        let e1 = self.memory.map(stack_base, THREAD_STACK_SIZE, rw, stack_name);
        let ghost m1 = self@.memory;
        let ghost a1 = self@.allocated;
        assert(map64(old(self)@.memory, old(self)@.allocated, m1, a1, thread_stack(n + 1), THREAD_STACK_SIZE, rw,
            thread_region(n + 1, " stack"@), e1));
        if e1.is_err() {
            return 0;
        }
        let teb_name = thread_region_name(tid, " TEB");
        let e2 = self.memory.map(teb_base, 0x1000, rw, teb_name);
        let ghost m2 = self@.memory;
        let ghost a2 = self@.allocated;
        assert(map64(m1, a1, m2, a2, thread_teb(n + 1), 0x1000, rw, thread_region(n + 1, " TEB"@), e2));
        if e2.is_err() {
            assert(thread_mapped(old(self)@, self@, m1, a1, start_address, parameter, n + 1, 0));
            return 0;
        }
        let tid2 = self.start_thread(Ghost(old(self)@), n, start_address, parameter);
        assert(thread_mapped(old(self)@, self@, m1, a1, start_address, parameter, n + 1, tid2));
        tid2
    }

    fn start_thread(&mut self, orig: Ghost<Machine64View>, n: usize, start_address: u64, parameter: u64) -> (tid: u32)
        requires
            old(self).wf(),
            n == orig@.thread_states.len(),
            n < MAX_GUEST_THREADS,
            old(self)@ == (Machine64View { memory: old(self)@.memory, allocated: old(self)@.allocated, ..orig@ }),
        ensures
            final(self).wf(),
            thread_started(orig@, final(self)@, old(self)@.memory, old(self)@.allocated, start_address, parameter, n + 1, tid),
    {
        let tid = n as u32 + 1;
        let stack_base: u64 = 0x0000_0060_0000_0000u64 + (tid as u64) * 0x20000;
        let teb_base: u64 = 0x0000_007f_fdc0_0000u64 - (tid as u64) * 0x2000;
        let ghost m2 = self@.memory;
        let ghost a2 = self@.allocated;
        let w1 = self.memory.write_force(teb_base + 0x30, to_le_bytes_u64(teb_base, 8).as_slice());
        let ghost m3 = self@.memory;
        let w2 = self.memory.write_force(teb_base + 0x60, to_le_bytes_u64(PEB64_BASE, 8).as_slice());
        let ghost m4 = self@.memory;
        let top = stack_base + THREAD_STACK_SIZE as u64;
        assert(top == (thread_stack(n + 1) + THREAD_STACK_SIZE) as u64);
        assert(teb_base == thread_teb(n + 1));
        let mut cpu = Cpu64::default();
        cpu.rip = start_address;
        cpu.gs_base = teb_base;
        cpu.set_rsp(top);
        cpu.gpr[5] = top;
        cpu.gpr[1] = parameter;
        let w3 = cpu.push(&mut self.memory, THREAD64_RETURN_SENTINEL);
        let ghost m5 = self@.memory;
        assert(Memory64::write_outcome(m2, m3, (thread_teb(n + 1) + 0x30) as u64, le_bytes(thread_teb(n + 1) as nat, 8), true, w1));
        assert(Memory64::write_outcome(m3, m4, (thread_teb(n + 1) + 0x60) as u64, le_bytes(PEB64_BASE as nat, 8), true, w2));
        assert(Memory64::write_outcome(m4, m5, (top - 8) as u64, le_bytes(THREAD64_RETURN_SENTINEL as nat, 8), false, w3));
        if w3.is_err() {
            assert(thread_started(orig@, self@, m2, a2, start_address, parameter, n + 1, 0));
            return 0;
        }
        assert(thread_cpu(cpu, start_address, teb_base, top, parameter)) by {
            assert(cpu.gpr@ =~= Seq::new(
                16,
                |i: int| if i == 4 { (top - 8) as u64 } else if i == 5 { top } else if i == 1 { parameter } else { 0u64 },
            ));
        }
        self.thread_states.push(GuestThread64 {
            tid,
            start_address,
            parameter,
            cpu,
            state: GuestThreadState64::Runnable,
            instruction_count: 0,
            exit_code: None,
        });
        self.record_thread_event("created", n);
        assert(thread_added(orig@, self@, m5, a2, start_address, parameter, n + 1, tid));
        assert(thread_started(orig@, self@, m2, a2, start_address, parameter, n + 1, tid));
        tid
    }
}

// ----- vectored exception dispatch -----

/// The unwind entry whose range holds `address`, the first such.
pub open spec fn unwind_entry(fns: Seq<RuntimeFunction>, address: u64) -> Option<RuntimeFunction>
    decreases fns.len(),
{
    if fns.len() == 0 {
        None
    } else if fns[0].begin_address <= address < fns[0].end_address {
        Some(fns[0])
    } else {
        unwind_entry(fns.drop_first(), address)
    }
}

/// Memory after writes made whatever each one's result.
pub open spec fn forced_writes(before: Seq<RegionView64>, after: Seq<RegionView64>, writes: Seq<(u64, Seq<u8>)>) -> bool
    decreases writes.len(),
{
    if writes.len() == 0 {
        after == before
    } else {
        exists|mid: Seq<RegionView64>, w: Result<(), DynamicError>|
            #![trigger Memory64::write_outcome(before, mid, writes[0].0, writes[0].1, true, w)]
            Memory64::write_outcome(before, mid, writes[0].0, writes[0].1, true, w) && forced_writes(mid, after, writes.drop_first())
    }
}

/// The exception and context fields a handler is given, and the
/// `EXCEPTION_POINTERS` to them.
pub open spec fn handler_records(p: PendingView) -> Seq<(u64, Seq<u8>)> {
    seq![
        (EXCEPTION64_RECORD_BASE, le_bytes(p.code as nat, 4)),
        ((EXCEPTION64_RECORD_BASE + 0x10) as u64, le_bytes(p.address as nat, 8)),
        ((EXCEPTION64_CONTEXT_BASE + 0xf8) as u64, le_bytes(p.resume_rip as nat, 8)),
        ((EXCEPTION64_CONTEXT_BASE + 0x98) as u64, le_bytes(rsp_of(p.saved_cpu) as nat, 8)),
        (EXCEPTION64_POINTERS, le_bytes(EXCEPTION64_RECORD_BASE as nat, 8)),
        ((EXCEPTION64_POINTERS + 8) as u64, le_bytes(EXCEPTION64_CONTEXT_BASE as nat, 8)),
    ]
}

pub open spec fn exception_event_is(
    e: ExceptionEvent,
    sequence: int,
    p: PendingView,
    handler: u64,
    outcome: Seq<char>,
) -> bool {
    &&& e.sequence == sequence && e.code == p.code && e.name@ == p.name && e.address == p.address
    &&& e.handler == Some(handler) && e.establisher_frame == Some(rsp_of(p.saved_cpu))
    &&& e.disposition is None && e.outcome@ == outcome
}

/// `after` is `before` with RSP dropped by eight (wrapping), as a push leaves it.
pub open spec fn pushed_cpu(before: Cpu64, after: Cpu64) -> bool {
    after == (Cpu64 { gpr: after.gpr, ..before }) && after.gpr@ == before.gpr@.update(
        4,
        vstd::wrapping::u64_specs::wrapping_sub(rsp_of(before), 8),
    )
}

/// The handler entered: RCX holds the exception pointers, RIP the
/// handler; the dispatch is recorded as an exception event, on the
/// timeline and, when an unwind entry covers the address, as a system
/// event; the exception stays pending with its event.
pub open spec fn handler_entered(old: Machine64View, new: Machine64View, m: Seq<RegionView64>, c: Cpu64, p: PendingView, handler: u64) -> bool {
    let index = old.exceptions.len() as int;
    let runtime = unwind_entry(old.unwind_functions, p.address);
    let outcome = if runtime is Some {
        "dispatched_via_vectored_handler_with_runtime_function"@
    } else {
        "dispatched_via_vectored_handler"@
    };
    &&& new == Machine64View {
        memory: m,
        cpu: new.cpu,
        exceptions: new.exceptions,
        timeline: new.timeline,
        system: new.system,
        pending_exception: Some(PendingView { event_index: index as usize, ..p }),
        ..old
    }
    &&& new.cpu == (Cpu64 { gpr: new.cpu.gpr, rip: handler, ..c }) && new.cpu.gpr@ == c.gpr@.update(1, EXCEPTION64_POINTERS)
    &&& appended(old.exceptions, new.exceptions) && exception_event_is(new.exceptions.last(), index, p, handler, outcome)
    &&& appended(old.timeline, new.timeline) && timeline_event_is(
        new.timeline.last(),
        old.timeline.len() as int,
        old.instruction_count,
        old.virtual_time_ms,
        "exception"@,
        "x64_vectored_dispatch"@,
        p.name + " "@ + hex16(p.address) + " -> "@ + hex16(handler),
        "x64 exception dispatcher"@,
    )
    &&& match runtime {
        Some(f) => appended(old.system, new.system) && system_event_is(
            new.system.last(),
            "exception"@,
            "runtime_function_lookup"@,
            hex16(p.address),
            "matched "@ + hex16(f.begin_address) + "-"@ + hex16(f.end_address) + ", unwind info "@ + hex16(f.unwind_info_address),
            f.unwind_info_address,
        ),
        None => new.system == old.system,
    }
}

/// After the records are written: the exception return sentinel is pushed
/// on the current stack (a failed push leaves RSP moved and gives false),
/// then the handler is entered.
pub open spec fn handler_pushed(old: Machine64View, new: Machine64View, m: Seq<RegionView64>, p: PendingView, handler: u64, r: bool) -> bool {
    exists|c: Cpu64, m2: Seq<RegionView64>, w: Result<(), DynamicError>|
        #![trigger pushed_cpu(old.cpu, c), Memory64::write_outcome(m, m2, rsp_of(c), le_bytes(EXCEPTION64_RETURN_SENTINEL as nat, 8), false, w)]
        pushed_cpu(old.cpu, c) && Memory64::write_outcome(m, m2, rsp_of(c), le_bytes(EXCEPTION64_RETURN_SENTINEL as nat, 8), false, w)
            && if w is Err {
            new == Machine64View { memory: m2, cpu: c, ..old } && !r
        } else {
            handler_entered(old, new, m2, c, p, handler) && r
        }
}

/// What `begin_exception_handler` does: within the depth limit and with
/// an executable handler at the pending handler index, the records are
/// written, the sentinel pushed and the handler entered (true); otherwise
/// nothing changes (false).
pub open spec fn begin_outcome(old: Machine64View, new: Machine64View, p: PendingView, r: bool) -> bool {
    if p.depth >= MAX_EXCEPTION_DEPTH || p.vectored_index >= old.vectored_handlers.len() || !any_region64(
        old.memory,
        executable_at64(old.vectored_handlers[p.vectored_index as int] as int),
    ) {
        new == old && !r
    } else {
        exists|m: Seq<RegionView64>|
            #![trigger forced_writes(old.memory, m, handler_records(p))]
            forced_writes(old.memory, m, handler_records(p)) && handler_pushed(
                old,
                new,
                m,
                p,
                old.vectored_handlers[p.vectored_index as int],
                r,
            )
    }
}

/// What `dispatch_exception` does: with no exception pending, room for
/// another exception event and a vectored handler registered, the first
/// handler is begun for the exception (its registers saved); otherwise
/// nothing happens (false).
pub open spec fn dispatch_outcome(
    old: Machine64View,
    new: Machine64View,
    code: u32,
    name: Seq<char>,
    address: u64,
    resume_rip: u64,
    fallback: Termination,
    r: bool,
) -> bool {
    if old.pending_exception is Some || old.exceptions.len() >= MAX_EXCEPTION_EVENTS || old.vectored_handlers.len() == 0 {
        new == old && !r
    } else {
        begin_outcome(
            old,
            new,
            PendingView {
                code,
                name,
                address,
                resume_rip,
                depth: 0,
                fallback,
                event_index: 0,
                vectored_index: 0,
                saved_cpu: old.cpu,
            },
            r,
        )
    }
}

proof fn lemma_forced_step(before: Seq<RegionView64>, mid: Seq<RegionView64>, after: Seq<RegionView64>, ws: Seq<(u64, Seq<u8>)>, k: int, w: Result<(), DynamicError>)
    requires
        0 <= k < ws.len(),
        forced_writes(before, mid, ws.take(k)),
        Memory64::write_outcome(mid, after, ws[k].0, ws[k].1, true, w),
    ensures
        forced_writes(before, after, ws.take(k + 1)),
    decreases k,
{
    if k == 0 {
        assert(ws.take(0).len() == 0);
        let one = ws.take(1);
        assert(one[0] == ws[0]);
        assert(one.drop_first() =~= Seq::<(u64, Seq<u8>)>::empty());
        assert(forced_writes(after, after, one.drop_first()));
        assert(Memory64::write_outcome(before, after, one[0].0, one[0].1, true, w));
    } else {
        let pre = ws.take(k);
        assert(pre[0] == ws[0]);
        let (m1, w1) = choose|m1: Seq<RegionView64>, w1: Result<(), DynamicError>|
            Memory64::write_outcome(before, m1, pre[0].0, pre[0].1, true, w1) && forced_writes(m1, mid, pre.drop_first());
        let rest = ws.drop_first();
        assert(pre.drop_first() =~= rest.take(k - 1));
        assert(rest[k - 1] == ws[k]);
        lemma_forced_step(m1, mid, after, rest, k - 1, w);
        let longer = ws.take(k + 1);
        assert(longer[0] == ws[0]);
        assert(longer.drop_first() =~= rest.take(k));
        assert(Memory64::write_outcome(before, m1, longer[0].0, longer[0].1, true, w1));
    }
}

fn find_unwind(fns: &Vec<RuntimeFunction>, address: u64) -> (r: Option<usize>)
    ensures
        match r {
            Some(i) => i < fns@.len() && unwind_entry(fns@, address) == Some(fns@[i as int]),
            None => unwind_entry(fns@, address) is None,
        },
{
    let mut i: usize = 0;
    assert(fns@.subrange(0, fns@.len() as int) =~= fns@);
    while i < fns.len()
        invariant
            i <= fns@.len(),
            unwind_entry(fns@, address) == unwind_entry(fns@.subrange(i as int, fns@.len() as int), address),
        decreases fns@.len() - i,
    {
        let ghost rest = fns@.subrange(i as int, fns@.len() as int);
        assert(rest.drop_first() =~= fns@.subrange(i + 1, fns@.len() as int));
        if fns[i].begin_address <= address && address < fns[i].end_address {
            return Some(i);
        }
        i = i + 1;
    }
    None
}

impl Machine64 {
    fn write_handler_records(&mut self, p: &PendingException64)
        requires
            old(self).wf(),
        ensures
            final(self).wf(),
            final(self)@ == (Machine64View { memory: final(self)@.memory, ..old(self)@ }),
            forced_writes(old(self)@.memory, final(self)@.memory, handler_records(p@)),
    {
        let ghost ws = handler_records(p@);
        let ghost m0 = self@.memory;
        let values: [(u64, u64, usize); 6] = [
            (EXCEPTION64_RECORD_BASE, p.code as u64, 4),
            (EXCEPTION64_RECORD_BASE + 0x10, p.address, 8),
            (EXCEPTION64_CONTEXT_BASE + 0xf8, p.resume_rip, 8),
            (EXCEPTION64_CONTEXT_BASE + 0x98, p.saved_cpu.rsp(), 8),
            (EXCEPTION64_POINTERS, EXCEPTION64_RECORD_BASE, 8),
            (EXCEPTION64_POINTERS + 8, EXCEPTION64_CONTEXT_BASE, 8),
        ];
        assert forall|k: int| 0 <= k < 6 implies (#[trigger] ws[k]).0 == values@[k].0 && ws[k].1 == le_bytes(values@[k].1 as nat, values@[k].2 as nat) && values@[k].2 <= 8 by {
        }
        assert(ws.take(0) =~= Seq::<(u64, Seq<u8>)>::empty());
        let mut k: usize = 0;
        while k < 6
            invariant
                k <= 6,
                self.memory.wf(),
                ws == handler_records(p@),
                forall|j: int| 0 <= j < 6 ==> (#[trigger] ws[j]).0 == values@[j].0 && ws[j].1 == le_bytes(values@[j].1 as nat, values@[j].2 as nat) && values@[j].2 <= 8,
                forced_writes(m0, self@.memory, ws.take(k as int)),
                m0 == old(self)@.memory,
                self@ == (Machine64View { memory: self@.memory, allocated: self@.allocated, ..old(self)@ }),
                self@.allocated == old(self)@.allocated,
                self.thread_states@.len() <= MAX_GUEST_THREADS,
                self.current_thread <= MAX_GUEST_THREADS,
                self.pending_exception == old(self).pending_exception,
            decreases 6 - k,
        {
            let (address, value, count) = values[k];
            let bytes = to_le_bytes_u64(value, count);
            let ghost mid = self@.memory;
            let w = self.memory.write_force(address, bytes.as_slice());
            proof {
                lemma_forced_step(m0, mid, self@.memory, ws, k as int, w);
            }
            k = k + 1;
        }
        assert(ws.take(6) =~= ws);
    }

    /// Starts the vectored handler a pending exception is at.
    #[verifier::rlimit(60)]
    pub fn begin_exception_handler(&mut self, pending: PendingException64) -> (r: bool)
        requires
            old(self).wf(),
        ensures
            final(self).wf(),
            begin_outcome(old(self)@, final(self)@, pending@, r),
    {
        let mut pending = pending;
        if pending.depth >= MAX_EXCEPTION_DEPTH || pending.vectored_index >= self.vectored_handlers.len() {
            return false;
        }
        let handler = self.vectored_handlers[pending.vectored_index];
        if self.memory.fetch(handler, 1).is_err() {
            return false;
        }
        let ghost p = pending@;
        self.write_handler_records(&pending);
        let ghost m = self@.memory;
        let ghost written = self@;
        let pushed = self.cpu.push(&mut self.memory, EXCEPTION64_RETURN_SENTINEL);
        let ghost c = self.cpu;
        assert(pushed_cpu(old(self)@.cpu, c));
        assert(Memory64::write_outcome(m, self@.memory, rsp_of(c), le_bytes(EXCEPTION64_RETURN_SENTINEL as nat, 8), false, pushed));
        if pushed.is_err() {
            assert(handler_pushed(old(self)@, self@, m, p, handler, false));
            return false;
        }
        let ghost m2 = self@.memory;
        self.cpu.gpr[1] = EXCEPTION64_POINTERS;
        let event_index = self.exceptions.len();
        let runtime = find_unwind(&self.unwind_functions, pending.address);
        let outcome = if runtime.is_some() {
            "dispatched_via_vectored_handler_with_runtime_function".to_owned()
        } else {
            "dispatched_via_vectored_handler".to_owned()
        };
        let ghost exceptions = self.exceptions@;
        self.exceptions.push(ExceptionEvent {
            sequence: event_index as u64,
            code: pending.code,
            name: pending.name.clone(),
            address: pending.address,
            handler: Some(handler),
            establisher_frame: Some(pending.saved_cpu.rsp()),
            disposition: None,
            outcome,
        });
        assert(self.exceptions@.drop_last() =~= exceptions);
        let mut subject = pending.name.clone();
        push_str(&mut subject, " ");
        push_str(&mut subject, hex16_text(pending.address).as_str());
        push_str(&mut subject, " -> ");
        push_str(&mut subject, hex16_text(handler).as_str());
        let ghost timeline = self.timeline@;
        self.timeline.push(TimelineEvent {
            sequence: self.timeline.len() as u64,
            instruction: self.instruction_count,
            virtual_time_ms: self.virtual_time_ms,
            category: "exception".to_owned(),
            operation: "x64_vectored_dispatch".to_owned(),
            subject,
            source_api: "x64 exception dispatcher".to_owned(),
        });
        assert(self.timeline@.drop_last() =~= timeline);
        if let Some(i) = runtime {
            let begin = self.unwind_functions[i].begin_address;
            let end = self.unwind_functions[i].end_address;
            let unwind = self.unwind_functions[i].unwind_info_address;
            let mut detail = "matched ".to_owned();
            push_str(&mut detail, hex16_text(begin).as_str());
            push_str(&mut detail, "-");
            push_str(&mut detail, hex16_text(end).as_str());
            push_str(&mut detail, ", unwind info ");
            push_str(&mut detail, hex16_text(unwind).as_str());
            let ghost system = self.system@;
            self.system.push(SystemEvent {
                category: "exception".to_owned(),
                operation: "runtime_function_lookup".to_owned(),
                target: hex16_text(pending.address),
                detail,
                result: unwind,
            });
            assert(self.system@.drop_last() =~= system);
        }
        pending.event_index = event_index;
        self.cpu.rip = handler;
        self.pending_exception = Some(pending);
        proof {
            assert(self.cpu.gpr@ =~= c.gpr@.update(1, EXCEPTION64_POINTERS));
            assert(handler_entered(old(self)@, self@, m2, c, p, handler));
            assert(handler_pushed(old(self)@, self@, m, p, handler, true));
        }
        true
    }

    /// Hands an exception to the first vectored handler, when one is
    /// registered and no exception is already being handled.
    pub fn dispatch_exception(&mut self, code: u32, name: &str, address: u64, resume_rip: u64, fallback: Termination) -> (r: bool)
        requires
            old(self).wf(),
        ensures
            final(self).wf(),
            dispatch_outcome(old(self)@, final(self)@, code, name@, address, resume_rip, fallback, r),
    {
        if self.pending_exception.is_some() || self.exceptions.len() >= MAX_EXCEPTION_EVENTS || self.vectored_handlers.len() == 0 {
            return false;
        }
        let pending = PendingException64 {
            code,
            name: name.to_owned(),
            address,
            resume_rip,
            depth: 0,
            fallback,
            event_index: 0,
            vectored_index: 0,
            saved_cpu: self.cpu,
        };
        self.begin_exception_handler(pending)
    }
}

// ----- completing a handler -----

/// Exception event `index` (when there is one) takes the handler's
/// disposition and `outcome`; the others stay.
pub open spec fn exception_marked(before: Seq<ExceptionEvent>, after: Seq<ExceptionEvent>, index: usize, disposition: i32, outcome: Seq<char>) -> bool {
    if index < before.len() {
        &&& after.len() == before.len()
        &&& forall|j: int| 0 <= j < before.len() && j != index ==> after[j] == before[j]
        &&& after[index as int].sequence == before[index as int].sequence && after[index as int].code == before[index as int].code
        &&& after[index as int].name == before[index as int].name && after[index as int].address == before[index as int].address
        &&& after[index as int].handler == before[index as int].handler
        &&& after[index as int].establisher_frame == before[index as int].establisher_frame
        &&& after[index as int].disposition == Some(disposition) && after[index as int].outcome@ == outcome
    } else {
        after == before
    }
}

/// The search goes on with the next handler; when it cannot start, the
/// run ends as the exception says.
pub open spec fn search_continued(marked: Machine64View, new: Machine64View, p: PendingView) -> bool {
    exists|mid: Machine64View, b: bool|
        #![trigger begin_outcome(marked, mid, PendingView { vectored_index: (p.vectored_index + 1) as usize, depth: (p.depth + 1) as usize, ..p }, b)]
        begin_outcome(marked, mid, PendingView { vectored_index: (p.vectored_index + 1) as usize, depth: (p.depth + 1) as usize, ..p }, b)
            && if b {
            new == mid
        } else {
            new == Machine64View { termination: Some(p.fallback), ..mid }
        }
}

/// What `complete_exception_handler` does when a handler returns with its
/// disposition in EAX: -1 continues execution with the saved registers at
/// the resume address; 0 with another handler left continues the search
/// there; anything else leaves the exception unhandled and ends the run as
/// it says. The exception event records the disposition and the outcome.
pub open spec fn complete_outcome(old: Machine64View, new: Machine64View) -> bool {
    match old.pending_exception {
        None => new == old,
        Some(p) => {
            let d = old.cpu.gpr[0] as i32;
            if d == -1 {
                &&& exception_marked(old.exceptions, new.exceptions, p.event_index, d, "continued_execution"@)
                &&& new == Machine64View {
                    exceptions: new.exceptions,
                    pending_exception: None,
                    cpu: Cpu64 { rip: p.resume_rip, ..p.saved_cpu },
                    ..old
                }
            } else if d == 0 && p.vectored_index + 1 < old.vectored_handlers.len() {
                exists|marked: Seq<ExceptionEvent>|
                    #![trigger exception_marked(old.exceptions, marked, p.event_index, d, "continued_search"@)]
                    exception_marked(old.exceptions, marked, p.event_index, d, "continued_search"@) && search_continued(
                        Machine64View { exceptions: marked, pending_exception: None, ..old },
                        new,
                        p,
                    )
            } else {
                &&& exception_marked(old.exceptions, new.exceptions, p.event_index, d, "unhandled"@)
                &&& new == Machine64View {
                    exceptions: new.exceptions,
                    pending_exception: None,
                    termination: Some(p.fallback),
                    ..old
                }
            }
        },
    }
}

fn copy_termination(t: &Termination) -> (r: Termination)
    ensures
        r == *t,
{
    match t {
        Termination::ExitProcess { code } => Termination::ExitProcess { code: *code },
        Termination::ReturnedFromEntryPoint => Termination::ReturnedFromEntryPoint,
        Termination::InstructionLimit => Termination::InstructionLimit,
        Termination::Halted => Termination::Halted,
        Termination::UnsupportedInstruction { address, instruction } => Termination::UnsupportedInstruction {
            address: *address,
            instruction: instruction.clone(),
        },
        Termination::InvalidInstruction { address } => Termination::InvalidInstruction { address: *address },
        Termination::MemoryFault { address, operation } => Termination::MemoryFault { address: *address, operation: operation.clone() },
    }
}

impl Machine64 {
    fn mark_exception(&mut self, index: usize, disposition: i32, outcome: &str)
        requires
            old(self).wf(),
        ensures
            final(self).wf(),
            final(self)@ == (Machine64View { exceptions: final(self)@.exceptions, ..old(self)@ }),
            exception_marked(old(self)@.exceptions, final(self)@.exceptions, index, disposition, outcome@),
    {
        if index < self.exceptions.len() {
            let e = ExceptionEvent {
                sequence: self.exceptions[index].sequence,
                code: self.exceptions[index].code,
                name: self.exceptions[index].name.clone(),
                address: self.exceptions[index].address,
                handler: self.exceptions[index].handler,
                establisher_frame: self.exceptions[index].establisher_frame,
                disposition: Some(disposition),
                outcome: outcome.to_owned(),
            };
            self.exceptions.set(index, e);
        }
    }

    /// Finishes the running vectored handler by its disposition.
    pub fn complete_exception_handler(&mut self)
        requires
            old(self).wf(),
        ensures
            final(self).wf(),
            complete_outcome(old(self)@, final(self)@),
    {
        let pending = match self.pending_exception.take() {
            Some(p) => p,
            None => {
                return;
            },
        };
        let ghost p = pending@;
        let disposition = self.cpu.gpr[0] as i32;
        let event_index = pending.event_index;
        if disposition == -1 {
            self.mark_exception(event_index, disposition, "continued_execution");
            self.cpu = pending.saved_cpu;
            self.cpu.rip = pending.resume_rip;
            assert(exception_marked(old(self)@.exceptions, self@.exceptions, p.event_index, disposition, "continued_execution"@));
        } else if disposition == 0 && self.vectored_handlers.len() > 0 && pending.vectored_index < self.vectored_handlers.len() - 1 {
            self.mark_exception(event_index, disposition, "continued_search");
            let ghost marked = self@;
            let fallback = copy_termination(&pending.fallback);
            let next = PendingException64 {
                code: pending.code,
                name: pending.name,
                address: pending.address,
                resume_rip: pending.resume_rip,
                depth: pending.depth + 1,
                fallback: pending.fallback,
                event_index: pending.event_index,
                vectored_index: pending.vectored_index + 1,
                saved_cpu: pending.saved_cpu,
            };
            assert(next@ == (PendingView { vectored_index: (p.vectored_index + 1) as usize, depth: (p.depth + 1) as usize, ..p }));
            let started = self.begin_exception_handler(next);
            let ghost mid = self@;
            if !started {
                self.termination = Some(fallback);
            }
            assert(search_continued(marked, self@, p));
            assert(exception_marked(old(self)@.exceptions, marked.exceptions, p.event_index, disposition, "continued_search"@));
        } else {
            self.mark_exception(event_index, disposition, "unhandled");
            self.termination = Some(pending.fallback);
            assert(exception_marked(old(self)@.exceptions, self@.exceptions, p.event_index, disposition, "unhandled"@));
        }
    }
}

// ----- a new process -----

impl Machine64 {
    /// A process over loaded `memory` whose main thread (id 1) starts at
    /// `entry` with registers `cpu`, with the image's unwind entries; no
    /// handler registered and nothing recorded yet.
    pub fn new(memory: Memory64, cpu: Cpu64, entry: u64, unwind_functions: Vec<RuntimeFunction>) -> (m: Machine64)
        requires
            memory.wf(),
        ensures
            m.wf(),
            m@.memory == memory@,
            m@.cpu == cpu,
            m@.thread_states == seq![GuestThread64 {
                tid: 1,
                start_address: entry,
                parameter: 0,
                cpu,
                state: GuestThreadState64::Runnable,
                instruction_count: 0,
                exit_code: None,
            }],
            m@.current_thread == 0,
            m@.unwind_functions == unwind_functions@,
            m@.instruction_count == 0 && m@.virtual_time_ms == 0 && !m@.truncated && m@.termination is None,
            m@.exceptions.len() == 0 && m@.timeline.len() == 0 && m@.system.len() == 0 && m@.thread_events.len() == 0,
            m@.vectored_handlers.len() == 0 && m@.pending_exception is None,
    {
        let main = GuestThread64 {
            tid: 1,
            start_address: entry,
            parameter: 0,
            cpu,
            state: GuestThreadState64::Runnable,
            instruction_count: 0,
            exit_code: None,
        };
        let threads = vec![main];
        assert(threads@ =~= seq![main]);
        Machine64 {
            cpu,
            memory,
            instruction_count: 0,
            virtual_time_ms: 0,
            exceptions: Vec::new(),
            timeline: Vec::new(),
            system: Vec::new(),
            termination: None,
            truncated: false,
            vectored_handlers: Vec::new(),
            pending_exception: None,
            thread_states: threads,
            thread_events: Vec::new(),
            current_thread: 0,
            unwind_functions,
        }
    }
}

// ----- what scheduling and process exit promise -----

/// When the process exits, no thread is left runnable, and every thread
/// that was runnable carries the exit code.
pub proof fn law_exit_ends_every_thread(old: Machine64View, new: Machine64View, code: u32)
    requires
        terminate_outcome(old, new, code),
    ensures
        new.thread_states.len() == old.thread_states.len(),
        forall|i: int| 0 <= i < new.thread_states.len() ==> (#[trigger] new.thread_states[i]).state == GuestThreadState64::Terminated,
        forall|i: int|
            0 <= i < old.thread_states.len() && (#[trigger] old.thread_states[i]).state == GuestThreadState64::Runnable
                ==> new.thread_states[i].exit_code == Some(code),
{
    let saved = saved_threads(old);
    assert forall|i: int| 0 <= i < new.thread_states.len() implies (#[trigger] new.thread_states[i]).state == GuestThreadState64::Terminated by {
        assert(new.thread_states[i] == ended(saved[i], code));
    }
    assert forall|i: int|
        0 <= i < old.thread_states.len() && (#[trigger] old.thread_states[i]).state == GuestThreadState64::Runnable implies new.thread_states[i].exit_code
        == Some(code) by {
        assert(saved[i].state == old.thread_states[i].state);
        assert(new.thread_states[i] == ended(saved[i], code));
    }
}

// ----- one instruction -----

/// What one instruction does to the machine: INT3 raises a breakpoint
/// exception (the process halts when no handler takes it), HLT halts, and
/// everything else runs on the x86-64 core, where an instruction outside
/// the core fails as unsupported.
pub open spec fn machine64_step(old: Machine64View, new: Machine64View, insn: X64Instruction, r: Result<(), DynamicError>) -> bool {
    if insn.mnemonic == MNEMONIC_INT3 {
        r is Ok && exists|mid: Machine64View, d: bool|
            #[trigger] dispatch_outcome(old, mid, 0x8000_0003, "breakpoint"@, insn.ip, old.cpu.rip, Termination::Halted, d)
                && new == if d {
                mid
            } else {
                Machine64View { termination: Some(Termination::Halted), ..mid }
            }
    } else if insn.mnemonic == MNEMONIC_HLT {
        r is Ok && new == Machine64View { termination: Some(Termination::Halted), ..old }
    } else {
        new == Machine64View { cpu: new.cpu, memory: new.memory, ..old } && core_step(
            old.cpu,
            old.memory,
            insn,
            new.cpu,
            new.memory,
            r,
            "x64 "@,
        )
    }
}

impl Machine64 {
    /// Executes one decoded instruction (RIP already points past it).
    pub fn execute_instruction(&mut self, instruction: &X64Instruction) -> (r: Result<(), DynamicError>)
        requires
            old(self).wf(),
            x64_wf(*instruction),
        ensures
            final(self).wf(),
            machine64_step(old(self)@, final(self)@, *instruction, r),
    {
        let n = instruction.mnemonic;
        if n == MNEMONIC_INT3 {
            let resume = self.cpu.rip;
            let handled = self.dispatch_exception(0x8000_0003, "breakpoint", instruction.ip, resume, Termination::Halted);
            if !handled {
                self.termination = Some(Termination::Halted);
            }
            return Ok(());
        }
        if n == MNEMONIC_HLT {
            self.termination = Some(Termination::Halted);
            return Ok(());
        }
        run_core(&mut self.cpu, &mut self.memory, instruction, "x64 ")
    }
}

} // verus!
