use aegis::x86_exec::{
    MNEMONIC_CLD, MNEMONIC_IMUL, MNEMONIC_JECXZ, MNEMONIC_POPAD, MNEMONIC_PUSHAD, MNEMONIC_SAL, MNEMONIC_SAR,
    MNEMONIC_SHL, MNEMONIC_SHR, MNEMONIC_STD,
};
use aegis::x64::{MNEMONIC_ADD, MNEMONIC_AND, MNEMONIC_CALL, MNEMONIC_CDQ, MNEMONIC_CMP, MNEMONIC_CQO, MNEMONIC_DEC, MNEMONIC_ENDBR64, MNEMONIC_HLT, MNEMONIC_INC, MNEMONIC_JA, MNEMONIC_JAE, MNEMONIC_JB, MNEMONIC_JBE, MNEMONIC_JE, MNEMONIC_JG, MNEMONIC_JGE, MNEMONIC_JL, MNEMONIC_JLE, MNEMONIC_JMP, MNEMONIC_JNE, MNEMONIC_JNO, MNEMONIC_JNP, MNEMONIC_JNS, MNEMONIC_JO, MNEMONIC_JP, MNEMONIC_JS, MNEMONIC_LEA, MNEMONIC_LEAVE, MNEMONIC_MOV, MNEMONIC_MOVSX, MNEMONIC_MOVSXD, MNEMONIC_MOVZX, MNEMONIC_NEG, MNEMONIC_NOP, MNEMONIC_NOT, MNEMONIC_OR, MNEMONIC_POP, MNEMONIC_PUSH, MNEMONIC_RET, MNEMONIC_SUB, MNEMONIC_SYSCALL, MNEMONIC_TEST, MNEMONIC_XOR, MNEMONIC_INT3};
use iced_x86::{Code, Mnemonic, OpKind, Register};

#[test]
fn mnemonic_numbers_are_iced_numbers() {
    assert_eq!(MNEMONIC_ADD, Mnemonic::Add as u16);
    assert_eq!(MNEMONIC_AND, Mnemonic::And as u16);
    assert_eq!(MNEMONIC_CALL, Mnemonic::Call as u16);
    assert_eq!(MNEMONIC_CDQ, Mnemonic::Cdq as u16);
    assert_eq!(MNEMONIC_CMP, Mnemonic::Cmp as u16);
    assert_eq!(MNEMONIC_CQO, Mnemonic::Cqo as u16);
    assert_eq!(MNEMONIC_DEC, Mnemonic::Dec as u16);
    assert_eq!(MNEMONIC_ENDBR64, Mnemonic::Endbr64 as u16);
    assert_eq!(MNEMONIC_HLT, Mnemonic::Hlt as u16);
    assert_eq!(MNEMONIC_INC, Mnemonic::Inc as u16);
    assert_eq!(MNEMONIC_JA, Mnemonic::Ja as u16);
    assert_eq!(MNEMONIC_JAE, Mnemonic::Jae as u16);
    assert_eq!(MNEMONIC_JB, Mnemonic::Jb as u16);
    assert_eq!(MNEMONIC_JBE, Mnemonic::Jbe as u16);
    assert_eq!(MNEMONIC_JE, Mnemonic::Je as u16);
    assert_eq!(MNEMONIC_JG, Mnemonic::Jg as u16);
    assert_eq!(MNEMONIC_JGE, Mnemonic::Jge as u16);
    assert_eq!(MNEMONIC_JL, Mnemonic::Jl as u16);
    assert_eq!(MNEMONIC_JLE, Mnemonic::Jle as u16);
    assert_eq!(MNEMONIC_JMP, Mnemonic::Jmp as u16);
    assert_eq!(MNEMONIC_JNE, Mnemonic::Jne as u16);
    assert_eq!(MNEMONIC_JNO, Mnemonic::Jno as u16);
    assert_eq!(MNEMONIC_JNP, Mnemonic::Jnp as u16);
    assert_eq!(MNEMONIC_JNS, Mnemonic::Jns as u16);
    assert_eq!(MNEMONIC_JO, Mnemonic::Jo as u16);
    assert_eq!(MNEMONIC_JP, Mnemonic::Jp as u16);
    assert_eq!(MNEMONIC_JS, Mnemonic::Js as u16);
    assert_eq!(MNEMONIC_LEA, Mnemonic::Lea as u16);
    assert_eq!(MNEMONIC_LEAVE, Mnemonic::Leave as u16);
    assert_eq!(MNEMONIC_MOV, Mnemonic::Mov as u16);
    assert_eq!(MNEMONIC_MOVSX, Mnemonic::Movsx as u16);
    assert_eq!(MNEMONIC_MOVSXD, Mnemonic::Movsxd as u16);
    assert_eq!(MNEMONIC_MOVZX, Mnemonic::Movzx as u16);
    assert_eq!(MNEMONIC_NEG, Mnemonic::Neg as u16);
    assert_eq!(MNEMONIC_NOP, Mnemonic::Nop as u16);
    assert_eq!(MNEMONIC_NOT, Mnemonic::Not as u16);
    assert_eq!(MNEMONIC_OR, Mnemonic::Or as u16);
    assert_eq!(MNEMONIC_POP, Mnemonic::Pop as u16);
    assert_eq!(MNEMONIC_PUSH, Mnemonic::Push as u16);
    assert_eq!(MNEMONIC_RET, Mnemonic::Ret as u16);
    assert_eq!(MNEMONIC_SUB, Mnemonic::Sub as u16);
    assert_eq!(MNEMONIC_SYSCALL, Mnemonic::Syscall as u16);
    assert_eq!(MNEMONIC_TEST, Mnemonic::Test as u16);
    assert_eq!(MNEMONIC_XOR, Mnemonic::Xor as u16);
    assert_eq!(MNEMONIC_INT3, Mnemonic::Int3 as u16);
}

#[test]
fn register_numbers_are_iced_numbers() {
    let full = [Register::RAX, Register::RCX, Register::RDX, Register::RBX, Register::RSP, Register::RBP, Register::RSI, Register::RDI, Register::R8, Register::R9, Register::R10, Register::R11, Register::R12, Register::R13, Register::R14, Register::R15];
    for (k, r) in full.iter().enumerate() {
        assert_eq!(*r as usize, 53 + k);
    }
    assert_eq!(Register::EIP as u8, 69);
    assert_eq!(Register::RIP as u8, 70);
    assert_eq!(Register::GS as u8, 76);
    assert_eq!(Register::AH as u8, 5);
    assert_eq!(Register::CH as u8, 6);
    assert_eq!(Register::DH as u8, 7);
    assert_eq!(Register::BH as u8, 8);
    assert_eq!(Code::INVALID as u16, 0);
}

#[test]
fn operand_kind_numbers_are_iced_numbers() {
    assert_eq!(OpKind::Register as u8, 0);
    assert_eq!(OpKind::NearBranch16 as u8, 1);
    assert_eq!(OpKind::NearBranch32 as u8, 2);
    assert_eq!(OpKind::NearBranch64 as u8, 3);
    assert_eq!(OpKind::Immediate8 as u8, 6);
    assert_eq!(OpKind::Immediate8_2nd as u8, 7);
    assert_eq!(OpKind::Immediate16 as u8, 8);
    assert_eq!(OpKind::Immediate32 as u8, 9);
    assert_eq!(OpKind::Immediate64 as u8, 10);
    assert_eq!(OpKind::Immediate8to16 as u8, 11);
    assert_eq!(OpKind::Immediate8to32 as u8, 12);
    assert_eq!(OpKind::Immediate8to64 as u8, 13);
    assert_eq!(OpKind::Immediate32to64 as u8, 14);
    assert_eq!(OpKind::Memory as u8, 24);
}

#[test]
fn thirty_two_bit_mnemonic_numbers_match_iced() {
    assert_eq!(MNEMONIC_PUSHAD, iced_x86::Mnemonic::Pushad as u16);
    assert_eq!(MNEMONIC_POPAD, iced_x86::Mnemonic::Popad as u16);
    assert_eq!(MNEMONIC_SHL, iced_x86::Mnemonic::Shl as u16);
    assert_eq!(MNEMONIC_SAL, iced_x86::Mnemonic::Sal as u16);
    assert_eq!(MNEMONIC_SHR, iced_x86::Mnemonic::Shr as u16);
    assert_eq!(MNEMONIC_SAR, iced_x86::Mnemonic::Sar as u16);
    assert_eq!(MNEMONIC_IMUL, iced_x86::Mnemonic::Imul as u16);
    assert_eq!(MNEMONIC_JECXZ, iced_x86::Mnemonic::Jecxz as u16);
    assert_eq!(MNEMONIC_CLD, iced_x86::Mnemonic::Cld as u16);
    assert_eq!(MNEMONIC_STD, iced_x86::Mnemonic::Std as u16);
    assert_eq!(iced_x86::Register::FS as u8, 75);
    for (n, r) in [(1u8, iced_x86::Register::AL), (8, iced_x86::Register::BH), (21, iced_x86::Register::AX), (28, iced_x86::Register::DI), (37, iced_x86::Register::EAX), (44, iced_x86::Register::EDI)] {
        assert_eq!(n, r as u8);
    }
}
