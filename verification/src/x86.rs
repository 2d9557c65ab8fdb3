//! 32-bit x86 instructions as the PE32 interpreter sees them: iced-x86
//! decodes the bytes in 32-bit mode, and the instruction is kept as plain
//! values whose operands the 32-bit register file reads and writes.
use iced_x86::{Decoder, DecoderOptions};
use vstd::prelude::*;

use crate::cpu::{MemoryOperand, Operand, Register};
use crate::x64::{op_kind_name, op_kind_name_of, register_facts, register_facts_of};

verus! {

/// iced-x86's 32-bit decoding of the instruction at the start of `bytes`
/// at address `ip`: code, mnemonic, length, next address and operand count.
pub uninterp spec fn decoded32_head(bytes: Seq<u8>, ip: u32) -> (u16, u16, usize, u32, u32);

/// The kinds and registers of the first three operands of that decoding.
pub uninterp spec fn decoded32_operands(bytes: Seq<u8>, ip: u32) -> (u8, u8, u8, u8, u8, u8);

/// The memory operand of that decoding: base, index, scale, 32-bit
/// displacement, segment and size in bytes.
pub uninterp spec fn decoded32_memory(bytes: Seq<u8>, ip: u32) -> (u8, u8, u32, u32, u8, usize);

/// The immediates of that decoding and its near-branch target.
pub uninterp spec fn decoded32_immediates(bytes: Seq<u8>, ip: u32) -> (u8, i16, i32, u16, u32, u64);

/// The text iced-x86's formatter gives that decoding, and its mnemonic's name.
pub uninterp spec fn decoded32_text(bytes: Seq<u8>, ip: u32) -> (Seq<char>, Seq<char>);

/// `Decoder::decode` (32-bit, at `ip`), then `code`, `mnemonic`, `len`,
/// `next_ip32` and `op_count` as numbers: named by `decoded32_head`.
#[verifier::external_body]
fn decode32_head(bytes: &[u8], ip: u32) -> (r: (u16, u16, usize, u32, u32))
    ensures
        r == decoded32_head(bytes@, ip),
{
    let i = Decoder::with_ip(32, bytes, ip as u64, DecoderOptions::NONE).decode();
    (i.code() as u16, i.mnemonic() as u16, i.len(), i.next_ip32(), i.op_count())
}

/// The same decoding's `op0_kind`, `op1_kind`, `op2_kind`, `op0_register`,
/// `op1_register` and `op2_register` as numbers: named by `decoded32_operands`.
#[verifier::external_body]
fn decode32_operands(bytes: &[u8], ip: u32) -> (r: (u8, u8, u8, u8, u8, u8))
    ensures
        r == decoded32_operands(bytes@, ip),
{
    let i = Decoder::with_ip(32, bytes, ip as u64, DecoderOptions::NONE).decode();
    (
        i.op0_kind() as u8,
        i.op1_kind() as u8,
        i.op2_kind() as u8,
        i.op0_register() as u8,
        i.op1_register() as u8,
        i.op2_register() as u8,
    )
}

/// The same decoding's `memory_base`, `memory_index`, `memory_index_scale`,
/// `memory_displacement32`, `memory_segment` and `memory_size().size()`:
/// named by `decoded32_memory`.
#[verifier::external_body]
fn decode32_memory(bytes: &[u8], ip: u32) -> (r: (u8, u8, u32, u32, u8, usize))
    ensures
        r == decoded32_memory(bytes@, ip),
{
    let i = Decoder::with_ip(32, bytes, ip as u64, DecoderOptions::NONE).decode();
    (
        i.memory_base() as u8,
        i.memory_index() as u8,
        i.memory_index_scale(),
        i.memory_displacement32(),
        i.memory_segment() as u8,
        i.memory_size().size(),
    )
}

/// The same decoding's `immediate8`, `immediate8to16`, `immediate8to32`,
/// `immediate16`, `immediate32` and `near_branch_target`: named by
/// `decoded32_immediates`.
#[verifier::external_body]
fn decode32_immediates(bytes: &[u8], ip: u32) -> (r: (u8, i16, i32, u16, u32, u64))
    ensures
        r == decoded32_immediates(bytes@, ip),
{
    let i = Decoder::with_ip(32, bytes, ip as u64, DecoderOptions::NONE).decode();
    (i.immediate8(), i.immediate8to16(), i.immediate8to32(), i.immediate16(), i.immediate32(), i.near_branch_target())
}

/// The same decoding formatted by iced-x86's `Display`, and the `Debug`
/// name of its mnemonic: named by `decoded32_text`.
#[verifier::external_body]
fn decode32_text(bytes: &[u8], ip: u32) -> (r: (String, String))
    ensures
        r.0@ == decoded32_text(bytes@, ip).0,
        r.1@ == decoded32_text(bytes@, ip).1,
{
    let i = Decoder::with_ip(32, bytes, ip as u64, DecoderOptions::NONE).decode();
    (i.to_string(), format!("{:?}", i.mnemonic()))
}

/// A decoded 32-bit instruction.
#[derive(Debug)]
pub struct X86Instruction {
    pub ip: u32,
    pub code: u16,
    pub mnemonic: u16,
    pub length: usize,
    pub next_ip: u32,
    pub op_count: u32,
    pub operands: Vec<Operand>,
    pub immediate16: u16,
    pub near_branch: u32,
    pub text: String,
    pub mnemonic_name: String,
}

/// `r` is register number `n` as the 32-bit interpreter reads it: the
/// eight general registers, their 16- and 8-bit parts, EIP and none; any
/// other register by its name.
pub open spec fn register32_is(r: Register, n: u8) -> bool {
    if n == 0 { r == Register::Absent }
    else if n == 1 { r == Register::AL }
    else if n == 2 { r == Register::CL }
    else if n == 3 { r == Register::DL }
    else if n == 4 { r == Register::BL }
    else if n == 5 { r == Register::AH }
    else if n == 6 { r == Register::CH }
    else if n == 7 { r == Register::DH }
    else if n == 8 { r == Register::BH }
    else if n == 21 { r == Register::AX }
    else if n == 22 { r == Register::CX }
    else if n == 23 { r == Register::DX }
    else if n == 24 { r == Register::BX }
    else if n == 25 { r == Register::SP }
    else if n == 26 { r == Register::BP }
    else if n == 27 { r == Register::SI }
    else if n == 28 { r == Register::DI }
    else if n == 37 { r == Register::EAX }
    else if n == 38 { r == Register::ECX }
    else if n == 39 { r == Register::EDX }
    else if n == 40 { r == Register::EBX }
    else if n == 41 { r == Register::ESP }
    else if n == 42 { r == Register::EBP }
    else if n == 43 { r == Register::ESI }
    else if n == 44 { r == Register::EDI }
    else if n == 69 { r == Register::EIP }
    else {
        r matches Register::Other(s) && s@ == match register_facts_of(n) {
            Some((_, _, name)) => name,
            None => Seq::empty(),
        }
    }
}

pub fn register32(n: u8) -> (r: Register)
    ensures
        register32_is(r, n),
{
    match n {
        0 => Register::Absent,
        1 => Register::AL,
        2 => Register::CL,
        3 => Register::DL,
        4 => Register::BL,
        5 => Register::AH,
        6 => Register::CH,
        7 => Register::DH,
        8 => Register::BH,
        21 => Register::AX,
        22 => Register::CX,
        23 => Register::DX,
        24 => Register::BX,
        25 => Register::SP,
        26 => Register::BP,
        27 => Register::SI,
        28 => Register::DI,
        37 => Register::EAX,
        38 => Register::ECX,
        39 => Register::EDX,
        40 => Register::EBX,
        41 => Register::ESP,
        42 => Register::EBP,
        43 => Register::ESI,
        44 => Register::EDI,
        69 => Register::EIP,
        _ => match register_facts(n) {
            Some((_, _, name)) => Register::Other(name),
            None => Register::Other(String::new()),
        },
    }
}

/// Memory operand size in bits (zero for sizes that do not fit).
pub open spec fn size_bits(size: usize) -> u32 {
    if size < 0x2000_0000 { (size * 8) as u32 } else { 0 }
}

/// `op` is the operand of kind `kind` and register `n`, with memory
/// operand `mem` and immediates `imm`: immediates and near-branch targets
/// are values of their width (a branch target of 32 bits); the memory
/// operand keeps FS (segment 75) as its only segment.
pub open spec fn operand32_is(
    op: Operand,
    kind: u8,
    n: u8,
    mem: (u8, u8, u32, u32, u8, usize),
    imm: (u8, i16, i32, u16, u32, u64),
) -> bool {
    if kind == 0 {
        op matches Operand::Register(r) && register32_is(r, n)
    } else if kind == 24 {
        op matches Operand::Memory(m) && register32_is(m.base, mem.0) && register32_is(m.index, mem.1)
            && m.scale == mem.2 && m.displacement == mem.3 && m.fs_segment == (mem.4 == 75)
            && m.size_bits == size_bits(mem.5)
    } else if kind == 1 || kind == 2 || kind == 6 || kind == 8 || kind == 9 || kind == 11 || kind == 12 {
        let (value, bits): (u32, u32) = if kind == 1 || kind == 2 {
            (imm.5 as u32, 32)
        } else if kind == 6 {
            (imm.0 as u32, 8)
        } else if kind == 8 {
            (imm.3 as u32, 16)
        } else if kind == 9 {
            (imm.4, 32)
        } else if kind == 11 {
            ((imm.1 as i32) as u32, 16)
        } else {
            (imm.2 as u32, 32)
        };
        op matches Operand::Immediate { value: v, bits: b, name } && v == value && b == bits && name@ == op_kind_name_of(kind)
    } else {
        op matches Operand::Other(name) && name@ == op_kind_name_of(kind)
    }
}

fn operand32(kind: u8, n: u8, mem: (u8, u8, u32, u32, u8, usize), imm: (u8, i16, i32, u16, u32, u64)) -> (op: Operand)
    ensures
        operand32_is(op, kind, n, mem, imm),
{
    if kind == 0 {
        Operand::Register(register32(n))
    } else if kind == 24 {
        let (base, index, scale, displacement, segment, size) = mem;
        Operand::Memory(MemoryOperand {
            base: register32(base),
            index: register32(index),
            fs_segment: segment == 75,
            scale,
            displacement,
            size_bits: if size < 0x2000_0000 { (size * 8) as u32 } else { 0 },
        })
    } else if kind == 1 || kind == 2 || kind == 6 || kind == 8 || kind == 9 || kind == 11 || kind == 12 {
        let (value, bits): (u32, u32) = if kind == 1 || kind == 2 {
            (imm.5 as u32, 32)
        } else if kind == 6 {
            (imm.0 as u32, 8)
        } else if kind == 8 {
            (imm.3 as u32, 16)
        } else if kind == 9 {
            (imm.4, 32)
        } else if kind == 11 {
            (imm.1 as i32 as u32, 16)
        } else {
            (imm.2 as u32, 32)
        };
        Operand::Immediate { value, bits, name: op_kind_name(kind) }
    } else {
        Operand::Other(op_kind_name(kind))
    }
}

/// `i` is the 32-bit decoding of the instruction at the start of `bytes` at `ip`.
pub open spec fn decoded32_as(i: X86Instruction, bytes: Seq<u8>, ip: u32) -> bool {
    let h = decoded32_head(bytes, ip);
    let o = decoded32_operands(bytes, ip);
    let mem = decoded32_memory(bytes, ip);
    let imm = decoded32_immediates(bytes, ip);
    &&& i.ip == ip && i.code == h.0 && i.mnemonic == h.1 && i.length == h.2 && i.next_ip == h.3 && i.op_count == h.4
    &&& i.operands@.len() == 3
    &&& operand32_is(i.operands@[0], o.0, o.3, mem, imm)
    &&& operand32_is(i.operands@[1], o.1, o.4, mem, imm)
    &&& operand32_is(i.operands@[2], o.2, o.5, mem, imm)
    &&& i.immediate16 == imm.3 && i.near_branch == imm.5 as u32
    &&& i.text@ == decoded32_text(bytes, ip).0 && i.mnemonic_name@ == decoded32_text(bytes, ip).1
}

/// Decodes the 32-bit instruction at the start of `bytes`, at address `ip`.
pub fn decode_x86(bytes: &[u8], ip: u32) -> (i: X86Instruction)
    ensures
        decoded32_as(i, bytes@, ip),
{
    let (code, mnemonic, length, next_ip, op_count) = decode32_head(bytes, ip);
    let (kind0, kind1, kind2, register0, register1, register2) = decode32_operands(bytes, ip);
    let mem = decode32_memory(bytes, ip);
    let imm = decode32_immediates(bytes, ip);
    let (text, mnemonic_name) = decode32_text(bytes, ip);
    let mut operands: Vec<Operand> = Vec::new();
    operands.push(operand32(kind0, register0, mem, imm));
    operands.push(operand32(kind1, register1, mem, imm));
    operands.push(operand32(kind2, register2, mem, imm));
    X86Instruction {
        ip,
        code,
        mnemonic,
        length,
        next_ip,
        op_count,
        operands,
        immediate16: imm.3,
        near_branch: imm.5 as u32,
        text,
        mnemonic_name,
    }
}

} // verus!
