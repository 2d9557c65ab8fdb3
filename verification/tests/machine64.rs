use aegis::cpu64::Cpu64;
use aegis::dynamic_model::{RuntimeFunction, Termination};
use aegis::machine64::{
    GuestThreadState64, Machine64, EXCEPTION64_POINTERS, EXCEPTION64_RECORD_BASE, PEB64_BASE, THREAD64_RETURN_SENTINEL,
};
use aegis::memory::Permissions;
use aegis::memory64::Memory64;

const CODE: u64 = 0x1000;
const STACK: u64 = 0x20_0000;

fn machine(unwind: Vec<RuntimeFunction>) -> Machine64 {
    let mut memory = Memory64::new();
    memory.map(CODE, 0x1000, Permissions { read: true, write: false, execute: true }, "code".into()).unwrap();
    memory.map(STACK, 0x10000, Permissions::read_write(), "stack".into()).unwrap();
    memory.map(0x7e_0000_0000, 0x2000, Permissions::read_write(), "process environment".into()).unwrap();
    let mut cpu = Cpu64::default();
    cpu.rip = CODE;
    cpu.gpr[4] = STACK + 0x8000;
    Machine64::new(memory, cpu, CODE, unwind)
}

#[test]
fn threads_are_created_with_a_stack_and_a_teb() {
    let mut m = machine(vec![]);
    assert_eq!(m.create_guest_thread(CODE + 0x10, 7), 2);
    assert_eq!(m.thread_states.len(), 2);
    let t = m.thread_states[1];
    assert_eq!(t.tid, 2);
    assert_eq!(t.cpu.rip, CODE + 0x10);
    assert_eq!(t.cpu.gpr[1], 7);
    let teb = 0x7f_fdc0_0000 - 2 * 0x2000;
    let top = 0x60_0000_0000 + 2 * 0x20000 + 0x10000;
    assert_eq!(t.cpu.gs_base, teb);
    assert_eq!(t.cpu.gpr[5], top);
    assert_eq!(t.cpu.gpr[4], top - 8);
    assert_eq!(m.memory.read_u64(teb + 0x30), Ok(teb));
    assert_eq!(m.memory.read_u64(teb + 0x60), Ok(PEB64_BASE));
    assert_eq!(m.memory.read_u64(top - 8), Ok(THREAD64_RETURN_SENTINEL));
    assert_eq!(m.thread_events[0].operation, "created");
    assert_eq!(m.thread_events[0].tid, 2);
    assert_eq!(m.create_guest_thread(STACK, 0), 0);
    assert_eq!(m.thread_states.len(), 2);
}

#[test]
fn scheduling_is_round_robin_over_runnable_threads() {
    let mut m = machine(vec![]);
    assert_eq!(m.create_guest_thread(CODE + 0x10, 1), 2);
    assert_eq!(m.create_guest_thread(CODE + 0x20, 2), 3);
    m.cpu.gpr[0] = 42;
    assert!(m.schedule_next_thread(true));
    assert_eq!(m.current_thread, 1);
    assert_eq!(m.cpu.rip, CODE + 0x10);
    assert_eq!(m.thread_states[0].cpu.gpr[0], 42);
    assert_eq!(m.thread_events.last().unwrap().operation, "scheduled");
    m.finish_current_thread(5);
    assert_eq!(m.thread_states[1].state, GuestThreadState64::Terminated);
    assert_eq!(m.thread_states[1].exit_code, Some(5));
    assert!(m.schedule_next_thread(false));
    assert_eq!(m.current_thread, 2);
    assert!(m.schedule_next_thread(false));
    assert_eq!(m.current_thread, 0);
    assert_eq!(m.cpu.gpr[0], 42);
    m.terminate_all_threads(9);
    assert!(m.thread_states.iter().all(|t| t.state == GuestThreadState64::Terminated));
    assert_eq!(m.thread_states[0].exit_code, Some(9));
    assert_eq!(m.thread_states[1].exit_code, Some(5));
    let exits = m.thread_events.iter().filter(|e| e.operation == "process_exit").count();
    assert_eq!(exits, 2);
    assert!(!m.schedule_next_thread(true));
}

#[test]
fn a_handler_that_continues_resumes_with_the_saved_registers() {
    let mut m = machine(vec![]);
    m.vectored_handlers.push(CODE + 0x100);
    m.cpu.gpr[3] = 77;
    let fallback = Termination::MemoryFault { address: 0x1234, operation: "read".into() };
    assert!(m.dispatch_exception(0xC000_0005, "ACCESS_VIOLATION", 0x1234, 0x1240, fallback));
    assert_eq!(m.cpu.rip, CODE + 0x100);
    assert_eq!(m.cpu.gpr[1], EXCEPTION64_POINTERS);
    assert_eq!(m.cpu.gpr[4], STACK + 0x8000 - 8);
    assert_eq!(m.memory.read_u64(EXCEPTION64_RECORD_BASE + 0x10), Ok(0x1234));
    assert_eq!(m.exceptions[0].outcome, "dispatched_via_vectored_handler");
    assert_eq!(m.exceptions[0].handler, Some(CODE + 0x100));
    assert_eq!(m.timeline[0].subject, "ACCESS_VIOLATION 0x0000000000001234 -> 0x0000000000001100");
    m.cpu.gpr[3] = 0;
    m.cpu.gpr[0] = 0xffff_ffff;
    m.complete_exception_handler();
    assert_eq!(m.cpu.rip, 0x1240);
    assert_eq!(m.cpu.gpr[3], 77);
    assert_eq!(m.cpu.gpr[4], STACK + 0x8000);
    assert_eq!(m.exceptions[0].disposition, Some(-1));
    assert_eq!(m.exceptions[0].outcome, "continued_execution");
    assert!(m.pending_exception.is_none());
    assert!(m.termination.is_none());
}

#[test]
fn the_search_moves_on_and_an_unhandled_exception_ends_the_run() {
    let unwind = vec![RuntimeFunction { begin_address: 0x1200, end_address: 0x1300, unwind_info_address: 0x5000 }];
    let mut m = machine(unwind);
    assert!(!m.dispatch_exception(3, "BREAKPOINT", 0x1234, 0x1235, Termination::Halted));
    m.vectored_handlers.push(CODE + 0x100);
    m.vectored_handlers.push(CODE + 0x200);
    assert!(m.dispatch_exception(3, "BREAKPOINT", 0x1234, 0x1235, Termination::Halted));
    assert_eq!(m.exceptions[0].outcome, "dispatched_via_vectored_handler_with_runtime_function");
    assert_eq!(m.system[0].detail, "matched 0x0000000000001200-0x0000000000001300, unwind info 0x0000000000005000");
    assert!(!m.dispatch_exception(3, "BREAKPOINT", 0x1234, 0x1235, Termination::Halted));
    m.cpu.gpr[0] = 0;
    m.complete_exception_handler();
    assert_eq!(m.exceptions[0].outcome, "continued_search");
    assert_eq!(m.exceptions.len(), 2);
    assert_eq!(m.cpu.rip, CODE + 0x200);
    m.cpu.gpr[0] = 1;
    m.complete_exception_handler();
    assert_eq!(m.exceptions[1].outcome, "unhandled");
    assert_eq!(m.exceptions[1].disposition, Some(1));
    assert_eq!(m.termination, Some(Termination::Halted));
}

#[test]
fn thread_summaries_name_their_state() {
    let m = machine(vec![]);
    let s = m.thread_states[0].summary();
    assert_eq!(s.tid, 1);
    assert_eq!(s.state, "runnable");
    assert_eq!(s.exit_code, None);
}
