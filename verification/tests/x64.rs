use std::collections::BTreeSet;

use aegis::cpu64::{Cpu64, Register64};
use aegis::dynamic_error::DynamicError;
use aegis::dynamic_model::{EnvironmentProfile, ExecutionDiagnostics, NetworkScenario, Termination};
use aegis::linux_exec::LinuxRun;
use aegis::linux_runtime::LinuxMachine;
use aegis::memory::Permissions;
use aegis::memory64::Memory64;
use aegis::x64::{register64, decode_x64, execute_core, X64Operand, MNEMONIC_MOV, MNEMONIC_SYSCALL, MNEMONIC_XOR};

const CODE: u64 = 0x40_0000;
const STACK_TOP: u64 = 0x7000_8000;

fn memory() -> Memory64 {
    let mut memory = Memory64::new();
    memory.map(CODE, 0x1000, Permissions { read: true, write: true, execute: true }, "code".into()).unwrap();
    memory.map(0x7000_0000, 0x10000, Permissions::read_write(), "stack".into()).unwrap();
    memory
}

fn machine() -> LinuxMachine {
    let scenario = NetworkScenario { id: "unit".into(), dns: vec![], http: vec![], sockets: vec![] };
    LinuxMachine::new(memory(), CODE, STACK_TOP, 0x7000_9000, 0x7000_9100, &EnvironmentProfile::default(), scenario)
}

#[test]
fn decodes_mov_with_an_immediate() {
    let i = decode_x64(&[0xb8, 0x3c, 0, 0, 0], CODE);
    assert_eq!(i.mnemonic, MNEMONIC_MOV);
    assert_eq!(i.length, 5);
    assert_eq!(i.next_ip, CODE + 5);
    assert_eq!(i.ip, CODE);
    assert!(matches!(&i.operands[0], X64Operand::Register(Register64::Gpr { index: 0, bits: 32, high_byte: false, .. })));
    assert!(matches!(&i.operands[1], X64Operand::Value { value: 60, bits: 32, .. }));
    assert_eq!(i.text, "mov eax,3Ch");
}

#[test]
fn decodes_a_memory_operand() {
    // mov rax, [rbx + rcx*8 + 0x10]
    let i = decode_x64(&[0x48, 0x8b, 0x44, 0xcb, 0x10], CODE);
    assert!(matches!(&i.operands[1], X64Operand::Memory));
    assert_eq!(i.memory.scale, 8);
    assert_eq!(i.memory.displacement, 0x10);
    assert_eq!(i.memory.bytes, 8);
    assert!(!i.memory.ip_relative);
}

#[test]
fn xor_of_a_register_with_itself_clears_it_and_sets_zf() {
    let mut cpu = Cpu64::default();
    cpu.gpr[7] = 0x1234;
    let mut m = memory();
    let i = decode_x64(&[0x31, 0xff], CODE);
    assert_eq!(i.mnemonic, MNEMONIC_XOR);
    assert_eq!(execute_core(&mut cpu, &mut m, &i), Ok(true));
    assert_eq!(cpu.gpr[7], 0);
    assert!(cpu.zf && !cpu.cf);
}

#[test]
fn push_then_pop_moves_a_value_through_the_stack() {
    let mut cpu = Cpu64::default();
    cpu.gpr[4] = STACK_TOP;
    cpu.gpr[3] = 0xdead_beef;
    let mut m = memory();
    assert_eq!(execute_core(&mut cpu, &mut m, &decode_x64(&[0x53], CODE)), Ok(true)); // push rbx
    assert_eq!(cpu.gpr[4], STACK_TOP - 8);
    assert_eq!(m.read_u64(STACK_TOP - 8), Ok(0xdead_beef));
    assert_eq!(execute_core(&mut cpu, &mut m, &decode_x64(&[0x59], CODE)), Ok(true)); // pop rcx
    assert_eq!(cpu.gpr[1], 0xdead_beef);
    assert_eq!(cpu.gpr[4], STACK_TOP);
}

#[test]
fn taken_and_untaken_conditional_jumps() {
    let mut cpu = Cpu64::default();
    let mut m = memory();
    let je = decode_x64(&[0x74, 0x10], CODE); // je +0x10
    cpu.rip = je.next_ip;
    cpu.zf = false;
    execute_core(&mut cpu, &mut m, &je).unwrap();
    assert_eq!(cpu.rip, CODE + 2);
    cpu.zf = true;
    execute_core(&mut cpu, &mut m, &je).unwrap();
    assert_eq!(cpu.rip, CODE + 0x12);
}

#[test]
fn movsx_sign_extends_a_byte() {
    let mut cpu = Cpu64::default();
    cpu.gpr[1] = 0x80;
    let mut m = memory();
    // movsx rax, cl
    assert_eq!(execute_core(&mut cpu, &mut m, &decode_x64(&[0x48, 0x0f, 0xbe, 0xc1], CODE)), Ok(true));
    assert_eq!(cpu.gpr[0], 0xffff_ffff_ffff_ff80);
}

#[test]
fn an_instruction_outside_the_core_is_left_to_the_machine() {
    let mut cpu = Cpu64::default();
    let mut m = memory();
    let cpuid = decode_x64(&[0x0f, 0xa2], CODE);
    assert_eq!(execute_core(&mut cpu, &mut m, &cpuid), Ok(false));
}

#[test]
fn linux_machine_runs_an_exit_syscall() {
    let mut lm = machine();
    let mov = decode_x64(&[0xb8, 0x3c, 0, 0, 0], CODE);
    lm.execute_instruction(&mov).unwrap();
    let xor = decode_x64(&[0x31, 0xff], CODE + 5);
    lm.execute_instruction(&xor).unwrap();
    let syscall = decode_x64(&[0x0f, 0x05], CODE + 7);
    assert_eq!(syscall.mnemonic, MNEMONIC_SYSCALL);
    lm.execute_instruction(&syscall).unwrap();
    assert_eq!(lm.termination, Some(Termination::ExitProcess { code: 0 }));
}

#[test]
fn linux_machine_halts_on_hlt_and_reports_unknown_instructions() {
    let mut lm = machine();
    let cpuid = decode_x64(&[0x0f, 0xa2], CODE);
    assert_eq!(lm.execute_instruction(&cpuid), Err(DynamicError::UnsupportedOperand("linux x86-64 cpuid".into())));
    lm.execute_instruction(&decode_x64(&[0xf4], CODE)).unwrap();
    assert_eq!(lm.termination, Some(Termination::Halted));
}

fn run_with(limit: u64, trace: usize) -> LinuxRun {
    LinuxRun {
        imports: vec![],
        instructions: vec![],
        unique_instruction_addresses: BTreeSet::new(),
        diagnostics: ExecutionDiagnostics { first_unsupported: None, invalid_instruction_count: 0 },
        max_instructions: limit,
        max_trace_events: trace,
        imports_answered: 0,
    }
}

#[test]
fn linux_run_loop_executes_until_exit() {
    let mut lm = machine();
    lm.memory.write(CODE, &[0xb8, 0x3c, 0, 0, 0, 0x31, 0xff, 0x0f, 0x05]).unwrap();
    let mut run = run_with(100, 100);
    lm.execute(&mut run);
    assert_eq!(lm.termination, Some(Termination::ExitProcess { code: 0 }));
    assert_eq!(lm.instruction_count, 3);
    assert_eq!(run.instructions.len(), 3);
    assert_eq!(run.instructions[0].bytes, "b83c000000");
    assert_eq!(run.instructions[2].address, CODE + 7);
    assert_eq!(
        run.unique_instruction_addresses.iter().copied().collect::<Vec<u64>>(),
        vec![CODE, CODE + 5, CODE + 7]
    );
}

#[test]
fn linux_run_loop_bounds_instructions_and_trace() {
    let mut lm = machine();
    lm.memory.write(CODE, &[0xeb, 0xfe]).unwrap(); // jmp to itself
    let mut run = run_with(10, 4);
    lm.execute(&mut run);
    assert_eq!(lm.termination, Some(Termination::InstructionLimit));
    assert_eq!(lm.instruction_count, 10);
    assert_eq!(run.instructions.len(), 4);
    assert!(lm.truncated);
}

#[test]
fn linux_run_loop_stops_at_an_invalid_instruction() {
    let mut lm = machine();
    lm.memory.write(CODE, &[0x06]).unwrap();
    let mut run = run_with(10, 10);
    lm.execute(&mut run);
    assert_eq!(lm.termination, Some(Termination::InvalidInstruction { address: CODE }));
    assert_eq!(run.diagnostics.invalid_instruction_count, 1);
    assert_eq!(run.diagnostics.first_unsupported.as_ref().unwrap().instruction, "invalid x86-64 instruction");
}

#[test]
fn applies_x64_partial_register_rules() {
    let reg = |r: iced_x86::Register| register64(r as u8);
    let mut cpu = Cpu64::default();
    cpu.write_register(&reg(iced_x86::Register::RAX), u64::MAX).unwrap();
    cpu.write_register(&reg(iced_x86::Register::EAX), 0x1234_5678).unwrap();
    assert_eq!(cpu.read_register(&reg(iced_x86::Register::RAX)).unwrap(), 0x1234_5678);
    cpu.write_register(&reg(iced_x86::Register::AH), 0xab).unwrap();
    assert_eq!(cpu.read_register(&reg(iced_x86::Register::AX)).unwrap(), 0xab78);
    cpu.write_register(&reg(iced_x86::Register::AL), 0xcd).unwrap();
    assert_eq!(cpu.read_register(&reg(iced_x86::Register::AX)).unwrap(), 0xabcd);
}

#[test]
fn resolves_rip_relative_addresses_above_four_gibibytes() {
    let bytes = [0x48, 0x8d, 0x0d, 0x10, 0x00, 0x00, 0x00];
    let instruction = decode_x64(&bytes, 0x0000_0001_4000_1000);
    assert_eq!(Cpu64::default().effective_address(&instruction).unwrap(), 0x0000_0001_4000_1017);
}
