use aegis::cpu::{parity, signed_range, signed_value, Cpu, MemoryOperand, Operand, Register};
use aegis::cpu64::{mask, Cpu64};
use aegis::dynamic_error::DynamicError;
use aegis::memory::{Memory, Permissions};

#[test]
fn partial_registers_read_and_write_through() {
    let mut cpu = Cpu::default();
    cpu.write_register(&Register::EAX, 0x1122_3344).unwrap();
    assert_eq!(cpu.read_register(&Register::AX).unwrap(), 0x3344);
    assert_eq!(cpu.read_register(&Register::AH).unwrap(), 0x33);
    assert_eq!(cpu.read_register(&Register::AL).unwrap(), 0x44);
    cpu.write_register(&Register::AH, 0xff).unwrap();
    assert_eq!(cpu.eax, 0x1122_ff44);
    cpu.write_register(&Register::AX, 0xabcd).unwrap();
    assert_eq!(cpu.eax, 0x1122_abcd);
    assert_eq!(cpu.read_register(&Register::Absent).unwrap(), 0);
    assert!(matches!(
        cpu.read_register(&Register::Other("XMM0".into())),
        Err(DynamicError::UnsupportedRegister(name)) if name == "XMM0"
    ));
}

#[test]
fn flags_round_trip_through_the_flag_word() {
    let mut cpu = Cpu::default();
    cpu.set_flags_value(0x0000_0cd5);
    assert!(cpu.cf && cpu.pf && cpu.af && cpu.zf && cpu.sf && cpu.direction && cpu.of);
    assert_eq!(cpu.flags_value(), 0x0000_0cd7);
    cpu.set_flags_value(0);
    assert_eq!(cpu.flags_value(), 2);
}

#[test]
fn arithmetic_flags() {
    let mut cpu = Cpu::default();
    cpu.set_add_flags(0xff, 1, 0x100, 8);
    assert!(cpu.zf && cpu.cf && !cpu.sf);
    cpu.set_sub_flags(0, 1, 0xffff_ffff, 32);
    assert!(cpu.cf && cpu.sf && !cpu.zf && !cpu.of);
    cpu.set_add_flags(0x7fff_ffff, 1, 0x8000_0000, 32);
    assert!(cpu.of && cpu.sf && !cpu.cf);
    cpu.set_logic_flags(0x0300, 16);
    assert!(!cpu.zf && !cpu.cf && !cpu.of && cpu.pf);
    assert!(parity(0x03));
    assert!(!parity(0x07));
    assert_eq!(signed_value(0x80, 8), -128);
    assert_eq!(signed_value(0xffff, 16), -1);
    assert_eq!(signed_range(16), (-32768, 32767));
}

#[test]
fn operands_read_memory_and_stack() {
    let mut memory = Memory::new();
    memory.map(0x1000, 0x1000, Permissions::read_write(), "stack".to_string()).unwrap();
    let mut cpu = Cpu::default();
    cpu.esp = 0x1800;
    cpu.push(&mut memory, 0xdead_beef).unwrap();
    assert_eq!(cpu.esp, 0x17fc);
    assert_eq!(cpu.pop(&memory).unwrap(), 0xdead_beef);
    assert_eq!(cpu.esp, 0x1800);
    cpu.ebx = 0x1000;
    let operand = Operand::Memory(MemoryOperand {
        base: Register::EBX,
        index: Register::Absent,
        fs_segment: false,
        scale: 1,
        displacement: 0x7fc,
        size_bits: 16,
    });
    assert_eq!(cpu.read_operand(&memory, &operand).unwrap(), (0xbeef, 16));
    assert_eq!(cpu.write_operand(&mut memory, &operand, 0x1_2345).unwrap(), 16);
    assert_eq!(memory.read_u32(0x17fc).unwrap(), 0xdead_2345);
    let immediate = Operand::Immediate { value: 5, bits: 8, name: "Immediate8".into() };
    assert_eq!(cpu.read_operand(&memory, &immediate).unwrap(), (5, 8));
    assert!(matches!(
        cpu.write_operand(&mut memory, &immediate, 1),
        Err(DynamicError::UnsupportedOperand(text)) if text == "write Immediate8"
    ));
}

#[test]
fn sixty_four_bit_masks_and_stack() {
    assert_eq!(mask(8), 0xff);
    assert_eq!(mask(32), 0xffff_ffff);
    assert_eq!(mask(64), u64::MAX);
    let cpu = Cpu64::default();
    assert_eq!(cpu.rsp(), 0);
}
