use aegis::cpu::{Operand, Register};
use aegis::dynamic_model::Termination;
use aegis::engine::Machine;
use aegis::loader::{ApiImport, LoadedImage, STACK_BASE, STACK_SIZE};
use aegis::memory::{Memory, Permissions};
use aegis::x64::MNEMONIC_MOV;
use aegis::x86::decode_x86;

const CODE: u32 = 0x0040_1000;
const DATA: u32 = 0x0040_4000;

fn machine(code: &[u8], imports: Vec<(u32, ApiImport)>, limit: u64) -> Machine {
    let mut memory = Memory::new();
    memory.map(STACK_BASE, STACK_SIZE, Permissions::read_write(), "thread stack".to_string()).unwrap();
    memory.map(CODE, 0x1000, Permissions { read: true, write: false, execute: true }, ".text".to_string()).unwrap();
    memory.map(DATA, 0x1000, Permissions::read_write(), ".data".to_string()).unwrap();
    memory.write_force(CODE, code).unwrap();
    let loaded = LoadedImage { memory, image_base: 0x0040_0000, entry_point: CODE, imports, warnings: Vec::new() };
    let mut m = Machine::start(loaded, limit, 100).unwrap();
    m.max_instructions = limit;
    m
}

#[test]
fn decodes_32_bit_operands() {
    let insn = decode_x86(&[0xb8, 0x05, 0, 0, 0], CODE);
    assert_eq!(insn.mnemonic, MNEMONIC_MOV);
    assert_eq!(insn.length, 5);
    assert_eq!(insn.next_ip, CODE + 5);
    assert_eq!(insn.operands[0], Operand::Register(Register::EAX));
    assert!(matches!(insn.operands[1], Operand::Immediate { value: 5, bits: 32, .. }));
    assert_eq!(insn.text, "mov eax,5");
    let mem = decode_x86(&[0x8b, 0x44, 0x8b, 0x10], CODE);
    match &mem.operands[1] {
        Operand::Memory(m) => {
            assert_eq!((m.base.clone(), m.index.clone(), m.scale, m.displacement, m.size_bits), (Register::EBX, Register::ECX, 4, 0x10, 32));
        },
        other => panic!("expected a memory operand, got {:?}", other),
    }
}

#[test]
fn runs_until_halt_with_a_trace() {
    // mov eax,7; push eax; pop ecx; add ecx,3; shl ecx,1; hlt
    let mut m = machine(&[0xb8, 7, 0, 0, 0, 0x50, 0x59, 0x83, 0xc1, 0x03, 0xd1, 0xe1, 0xf4], vec![], 100);
    m.execute();
    assert_eq!(m.termination, Some(Termination::Halted));
    assert_eq!(m.cpu.ecx, 20);
    assert_eq!(m.instruction_count, 6);
    assert_eq!(m.instructions.len(), 6);
    assert_eq!(m.instructions[0].bytes, "b807000000");
    assert_eq!(m.instructions[3].text, "add ecx,3");
    assert!(!m.cpu.zf);
}

#[test]
fn returning_from_the_entry_point_ends_the_run() {
    let mut m = machine(&[0xc3], vec![], 100);
    m.execute();
    assert_eq!(m.termination, Some(Termination::ReturnedFromEntryPoint));
    assert_eq!(m.instruction_count, 1);
}

#[test]
fn an_endless_loop_stops_at_the_instruction_budget() {
    let mut m = machine(&[0xeb, 0xfe], vec![], 50);
    m.execute();
    assert_eq!(m.termination, Some(Termination::InstructionLimit));
    assert_eq!(m.instruction_count, 50);
}

#[test]
fn a_bad_read_is_a_memory_fault() {
    let mut m = machine(&[0xa1, 0, 0, 0, 0], vec![], 10);
    m.execute();
    assert_eq!(m.termination, Some(Termination::MemoryFault { address: 0, operation: "instruction: read".to_string() }));
}

#[test]
fn an_unsupported_mnemonic_is_reported_with_its_text() {
    let mut m = machine(&[0x0f, 0xa2], vec![], 10);
    m.execute();
    assert_eq!(m.termination, Some(Termination::UnsupportedInstruction { address: CODE as u64, instruction: "cpuid".to_string() }));
    assert_eq!(m.warnings.last().unwrap(), "unsupported operand mnemonic Cpuid");
}

#[test]
fn pushad_and_popad_restore_the_registers() {
    // mov ebx,0x11; pushad; xor ebx,ebx; popad; hlt
    let mut m = machine(&[0xbb, 0x11, 0, 0, 0, 0x60, 0x31, 0xdb, 0x61, 0xf4], vec![], 10);
    let esp = m.cpu.esp;
    m.execute();
    assert_eq!(m.termination, Some(Termination::Halted));
    assert_eq!(m.cpu.ebx, 0x11);
    assert_eq!(m.cpu.esp, esp);
}

#[test]
fn an_import_stub_is_answered_without_counting_as_an_instruction() {
    let stub = 0x0040_3000u32;
    // push 25; call stub; hlt
    let rel = stub.wrapping_sub(CODE + 7);
    let r = rel.to_le_bytes();
    let code = [0x6a, 25, 0xe8, r[0], r[1], r[2], r[3], 0xf4];
    let import = ApiImport { module: "KERNEL32.dll".to_string(), name: "Sleep".to_string(), argument_count: 1 };
    let mut m = machine(&code, vec![(stub, import)], 10);
    let before = m.virtual_time_ms;
    let esp = m.cpu.esp;
    m.execute();
    assert_eq!(m.termination, Some(Termination::Halted));
    assert_eq!(m.instruction_count, 3);
    assert_eq!(m.api_calls.len(), 1);
    assert_eq!(m.virtual_time_ms, before + 25);
    assert_eq!(m.cpu.esp, esp);
}

#[test]
fn every_run_ends_with_a_reason() {
    for code in [&[0xeb, 0xfe][..], &[0xc3][..], &[0xf4][..], &[0x0f, 0xa2][..], &[0xa1, 0, 0, 0, 0][..]] {
        let mut m = machine(code, vec![], 20);
        m.execute();
        assert!(m.termination.is_some());
        assert!(m.instruction_count <= 20);
    }
}
