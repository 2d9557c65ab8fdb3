//! x86-64 instructions as the interpreters see them: iced-x86 decodes the
//! bytes, and the instruction is kept as plain values (mnemonic, operand
//! kinds, registers, memory operand, immediates) that the operand layer
//! reads and writes against the register file and guest memory.
use iced_x86::{Decoder, DecoderOptions, OpKind, Register};
use vstd::prelude::*;

use crate::cpu64::{add_flags, logic_flags, qword_at, read_qword, rsp_of, sub_flags, mask64, sign64, register_error, register_value, register_writable, register_written, x64_name, Cpu64, Register64};
use crate::dynamic_error::DynamicError;
use crate::memory::{le_bytes, le_value, to_le_bytes_u64};
use crate::memory64::{is_first64, readable64, Memory64, RegionView64};
use crate::linux_runtime::{lemma_read64, lemma_read64_none, read64};
use crate::text::push_str;

verus! {

/// iced-x86's decoding of the 64-bit instruction at the start of `bytes`
/// at address `ip`: its code, mnemonic, length, next address and operand
/// count, as numbers.
pub uninterp spec fn decoded_head(bytes: Seq<u8>, ip: u64) -> (u16, u16, usize, u64, u32);

/// The kinds and registers of the first two operands of that decoding.
pub uninterp spec fn decoded_operands(bytes: Seq<u8>, ip: u64) -> (u8, u8, u8, u8);

/// The memory operand of that decoding: whether it is RIP-relative and
/// its address if so, base, index, scale, displacement, segment, and size
/// in bytes.
pub uninterp spec fn decoded_memory(bytes: Seq<u8>, ip: u64) -> (bool, u64, u8, u8, u32, u64, u8, usize);

/// The immediates of that decoding as each accessor reads them, and the
/// near-branch target.
pub uninterp spec fn decoded_immediates(bytes: Seq<u8>, ip: u64) -> (u8, i16, i32, i64, u16, u32, i64, u64, u64);

/// The text iced-x86's formatter gives that decoding.
pub uninterp spec fn decoded_text(bytes: Seq<u8>, ip: u64) -> Seq<char>;

/// For register number `n`: its full register's number, its size in
/// bytes and its name; none for a number that is no register.
pub uninterp spec fn register_facts_of(n: u8) -> Option<(u8, usize, Seq<char>)>;

/// The name of operand kind number `n`.
pub uninterp spec fn op_kind_name_of(n: u8) -> Seq<char>;

/// `Decoder::decode` (64-bit, at `ip`), then `code`, `mnemonic`, `len`,
/// `next_ip` and `op_count` as numbers: named by `decoded_head`.
#[verifier::external_body]
fn decode_head(bytes: &[u8], ip: u64) -> (r: (u16, u16, usize, u64, u32))
    ensures
        r == decoded_head(bytes@, ip),
{
    let i = Decoder::with_ip(64, bytes, ip, DecoderOptions::NONE).decode();
    (i.code() as u16, i.mnemonic() as u16, i.len(), i.next_ip(), i.op_count())
}

/// The same decoding's `op0_kind`, `op1_kind`, `op0_register` and
/// `op1_register` as numbers: named by `decoded_operands`.
#[verifier::external_body]
fn decode_operands(bytes: &[u8], ip: u64) -> (r: (u8, u8, u8, u8))
    ensures
        r == decoded_operands(bytes@, ip),
{
    let i = Decoder::with_ip(64, bytes, ip, DecoderOptions::NONE).decode();
    (i.op0_kind() as u8, i.op1_kind() as u8, i.op0_register() as u8, i.op1_register() as u8)
}

/// The same decoding's `is_ip_rel_memory_operand`, `ip_rel_memory_address`,
/// `memory_base`, `memory_index`, `memory_index_scale`,
/// `memory_displacement64`, `memory_segment` and `memory_size().size()`:
/// named by `decoded_memory`.
#[verifier::external_body]
fn decode_memory(bytes: &[u8], ip: u64) -> (r: (bool, u64, u8, u8, u32, u64, u8, usize))
    ensures
        r == decoded_memory(bytes@, ip),
{
    let i = Decoder::with_ip(64, bytes, ip, DecoderOptions::NONE).decode();
    (
        i.is_ip_rel_memory_operand(),
        i.ip_rel_memory_address(),
        i.memory_base() as u8,
        i.memory_index() as u8,
        i.memory_index_scale(),
        i.memory_displacement64(),
        i.memory_segment() as u8,
        i.memory_size().size(),
    )
}

/// The same decoding's `immediate8`, `immediate8to16`, `immediate8to32`,
/// `immediate8to64`, `immediate16`, `immediate32`, `immediate32to64`,
/// `immediate64` and `near_branch_target`: named by `decoded_immediates`.
#[verifier::external_body]
fn decode_immediates(bytes: &[u8], ip: u64) -> (r: (u8, i16, i32, i64, u16, u32, i64, u64, u64))
    ensures
        r == decoded_immediates(bytes@, ip),
{
    let i = Decoder::with_ip(64, bytes, ip, DecoderOptions::NONE).decode();
    (
        i.immediate8(),
        i.immediate8to16(),
        i.immediate8to32(),
        i.immediate8to64(),
        i.immediate16(),
        i.immediate32(),
        i.immediate32to64(),
        i.immediate64(),
        i.near_branch_target(),
    )
}

/// The same decoding formatted by iced-x86's `Display`: named by
/// `decoded_text`.
#[verifier::external_body]
fn decode_text(bytes: &[u8], ip: u64) -> (r: String)
    ensures
        r@ == decoded_text(bytes@, ip),
{
    Decoder::with_ip(64, bytes, ip, DecoderOptions::NONE).decode().to_string()
}

/// `Register::try_from(n)`, then `full_register` as a number, `size` and
/// the `Debug` name: named by `register_facts_of`.
#[verifier::external_body]
pub(crate) fn register_facts(n: u8) -> (r: Option<(u8, usize, String)>)
    ensures
        match (r, register_facts_of(n)) {
            (Some((f, s, name)), Some((f2, s2, name2))) => f == f2 && s == s2 && name@ == name2,
            (None, None) => true,
            _ => false,
        },
{
    match Register::try_from(n as usize) {
        Ok(register) => Some((register.full_register() as u8, register.size(), format!("{register:?}"))),
        Err(_) => None,
    }
}

/// `OpKind::try_from(n)` and its `Debug` name (empty for a number that is
/// no kind): named by `op_kind_name_of`.
#[verifier::external_body]
pub(crate) fn op_kind_name(n: u8) -> (r: String)
    ensures
        r@ == op_kind_name_of(n),
{
    match OpKind::try_from(n as usize) {
        Ok(kind) => format!("{kind:?}"),
        Err(_) => String::new(),
    }
}

// ----- the instruction as values -----

/// An operand: a register, a value (immediate or branch target) with its
/// width in bits, the memory operand, or a kind the interpreter does not
/// read; the kind's name is kept for messages.
#[derive(Debug)]
pub enum X64Operand {
    Register(Register64),
    Value { value: u64, bits: usize, kind: String },
    Memory,
    Unsupported(String),
}

/// The memory operand: RIP-relative with its address, or base + index *
/// scale + displacement (plus the GS base under a GS override), and its
/// size in bytes.
#[derive(Debug)]
pub struct X64Memory {
    pub ip_relative: bool,
    pub ip_address: u64,
    pub base: Option<Register64>,
    pub index: Option<Register64>,
    pub scale: u32,
    pub displacement: u64,
    pub gs: bool,
    pub bytes: usize,
}

/// A decoded instruction.
#[derive(Debug)]
pub struct X64Instruction {
    pub ip: u64,
    pub code: u16,
    pub mnemonic: u16,
    pub length: usize,
    pub next_ip: u64,
    pub op_count: u32,
    pub operands: Vec<X64Operand>,
    pub memory: X64Memory,
    pub immediate16: u16,
    pub near_branch: u64,
    pub text: String,
}

/// The general-register index of full register number `full` (RAX..R15).
pub open spec fn gpr_index_spec(full: u8) -> Option<usize> {
    if 53 <= full <= 68 { Some((full - 53) as usize) } else { None }
}

/// The general-register index of full register number `full`.
pub fn gpr_index(full: u8) -> (r: Option<usize>)
    ensures
        r == gpr_index_spec(full),
{
    if 53 <= full && full <= 68 { Some((full - 53) as usize) } else { None }
}

/// AH, CH, DH and BH.
pub open spec fn is_high_byte(n: u8) -> bool {
    5 <= n <= 8
}

/// Register bits for a size in bytes (0 when absurdly large).
pub open spec fn register_bits(size: usize) -> u32 {
    if size * 8 <= u32::MAX { (size * 8) as u32 } else { 0 }
}

/// `r` is register number `n` as the interpreter reads it.
pub open spec fn register_is(r: Register64, n: u8) -> bool {
    if n == 69 || n == 70 {
        r == Register64::Ip
    } else {
        match register_facts_of(n) {
            None => r matches Register64::Other(s) && s@.len() == 0,
            Some((full, size, name)) => match gpr_index_spec(full) {
                Some(i) => r matches Register64::Gpr { index, bits, high_byte, name: shown } && index == i && bits == register_bits(
                    size,
                ) && high_byte == is_high_byte(n) && shown@ == name,
                None => r matches Register64::Other(s) && s@ == name,
            },
        }
    }
}

/// The register number `n` as the interpreter reads it: EIP and RIP are
/// the instruction pointer; RAX..R15 and their parts are general
/// registers of their width; anything else is named only.
pub fn register64(n: u8) -> (r: Register64)
    ensures
        register_is(r, n),
{
    if n == 69 || n == 70 {
        return Register64::Ip;
    }
    match register_facts(n) {
        None => Register64::Other(String::new()),
        Some((full, size, name)) => match gpr_index(full) {
            Some(index) => {
                let bits: u32 = match size.checked_mul(8) {
                    Some(b) => if b <= u32::MAX as usize { b as u32 } else { 0 },
                    None => 0,
                };
                Register64::Gpr { index, bits, high_byte: 5 <= n && n <= 8, name }
            },
            None => Register64::Other(name),
        },
    }
}

/// `op` is the operand of kind `kind` and register `n`, with the
/// decoding's immediates `imm`.
pub open spec fn operand_is(op: X64Operand, kind: u8, n: u8, imm: (u8, i16, i32, i64, u16, u32, i64, u64, u64)) -> bool {
    if kind == 0 {
        op matches X64Operand::Register(r) && register_is(r, n)
    } else if kind == 24 {
        op == X64Operand::Memory
    } else if kind == 1 || kind == 2 || kind == 3 || (6 <= kind <= 14 && kind != 7) {
        let (value, bits): (u64, usize) = if kind <= 3 {
            (imm.8, 64)
        } else if kind == 6 {
            (imm.0 as u64, 8)
        } else if kind == 8 {
            (imm.4 as u64, 16)
        } else if kind == 9 {
            (imm.5 as u64, 32)
        } else if kind == 10 {
            (imm.7, 64)
        } else if kind == 11 {
            ((imm.1 as i64) as u64, 16)
        } else if kind == 12 {
            ((imm.2 as i64) as u64, 32)
        } else if kind == 13 {
            (imm.3 as u64, 64)
        } else {
            (imm.6 as u64, 64)
        };
        op matches X64Operand::Value { value: v, bits: b, kind: k } && v == value && b == bits && k@ == op_kind_name_of(kind)
    } else {
        op matches X64Operand::Unsupported(k) && k@ == op_kind_name_of(kind)
    }
}

fn operand(kind: u8, n: u8, imm: (u8, i16, i32, i64, u16, u32, i64, u64, u64)) -> (op: X64Operand)
    ensures
        operand_is(op, kind, n, imm),
{
    if kind == 0 {
        X64Operand::Register(register64(n))
    } else if kind == 24 {
        X64Operand::Memory
    } else if kind == 1 || kind == 2 || kind == 3 || (6 <= kind && kind <= 14 && kind != 7) {
        let (value, bits): (u64, usize) = if kind <= 3 {
            (imm.8, 64)
        } else if kind == 6 {
            (imm.0 as u64, 8)
        } else if kind == 8 {
            (imm.4 as u64, 16)
        } else if kind == 9 {
            (imm.5 as u64, 32)
        } else if kind == 10 {
            (imm.7, 64)
        } else if kind == 11 {
            (imm.1 as i64 as u64, 16)
        } else if kind == 12 {
            (imm.2 as i64 as u64, 32)
        } else if kind == 13 {
            (imm.3 as u64, 64)
        } else {
            (imm.6 as u64, 64)
        };
        X64Operand::Value { value, bits, kind: op_kind_name(kind) }
    } else {
        X64Operand::Unsupported(op_kind_name(kind))
    }
}

/// `m` is the memory operand of the decoding `d`.
pub open spec fn memory_is(m: X64Memory, d: (bool, u64, u8, u8, u32, u64, u8, usize)) -> bool {
    &&& m.ip_relative == d.0 && m.ip_address == d.1
    &&& (if d.2 == 0 { m.base is None } else { m.base matches Some(r) && register_is(r, d.2) })
    &&& (if d.3 == 0 { m.index is None } else { m.index matches Some(r) && register_is(r, d.3) })
    &&& m.scale == d.4 && m.displacement == d.5 && m.gs == (d.6 == 76) && m.bytes == d.7
}

/// `i` is the decoding of the instruction at the start of `bytes` at `ip`.
pub open spec fn decoded_as(i: X64Instruction, bytes: Seq<u8>, ip: u64) -> bool {
    let h = decoded_head(bytes, ip);
    let o = decoded_operands(bytes, ip);
    let imm = decoded_immediates(bytes, ip);
    &&& i.ip == ip && i.code == h.0 && i.mnemonic == h.1 && i.length == h.2 && i.next_ip == h.3 && i.op_count == h.4
    &&& i.operands@.len() == 2 && operand_is(i.operands@[0], o.0, o.2, imm) && operand_is(i.operands@[1], o.1, o.3, imm)
    &&& memory_is(i.memory, decoded_memory(bytes, ip))
    &&& i.immediate16 == imm.4 && i.near_branch == imm.8 && i.text@ == decoded_text(bytes, ip)
}

/// Decodes the 64-bit instruction at the start of `bytes`, at address `ip`.
pub fn decode_x64(bytes: &[u8], ip: u64) -> (i: X64Instruction)
    ensures
        decoded_as(i, bytes@, ip),
{
    let (code, mnemonic, length, next_ip, op_count) = decode_head(bytes, ip);
    let (kind0, kind1, register0, register1) = decode_operands(bytes, ip);
    let (ip_relative, ip_address, base, index, scale, displacement, segment, size) = decode_memory(bytes, ip);
    let imm = decode_immediates(bytes, ip);
    let mut operands: Vec<X64Operand> = Vec::new();
    operands.push(operand(kind0, register0, imm));
    operands.push(operand(kind1, register1, imm));
    let memory = X64Memory {
        ip_relative,
        ip_address,
        base: if base == 0 { None } else { Some(register64(base)) },
        index: if index == 0 { None } else { Some(register64(index)) },
        scale,
        displacement,
        gs: segment == 76,
        bytes: size,
    };
    X64Instruction {
        ip,
        code,
        mnemonic,
        length,
        next_ip,
        op_count,
        operands,
        memory,
        immediate16: imm.4,
        near_branch: imm.8,
        text: decode_text(bytes, ip),
    }
}

// ----- operands against the register file and guest memory -----

/// The width in bits at which a register operand is read.
pub open spec fn register_width(r: Register64) -> usize {
    match r {
        Register64::Gpr { bits, .. } => bits as usize,
        _ => 64,
    }
}

/// The effective address of the memory operand, when its registers can be
/// read: the RIP-relative address, or GS base (under a GS override) + base
/// + index * scale + displacement, all wrapping.
pub open spec fn address_of(c: Cpu64, m: X64Memory) -> Option<u64> {
    if m.ip_relative {
        Some(m.ip_address)
    } else {
        let base = match m.base {
            None => Some(0u64),
            Some(r) => register_value(c, r),
        };
        let index = match m.index {
            None => Some(0u64),
            Some(r) => register_value(c, r),
        };
        let segment: u64 = if m.gs { c.gs_base } else { 0 };
        if base is Some && index is Some {
            Some(
                vstd::wrapping::u64_specs::wrapping_add(
                    vstd::wrapping::u64_specs::wrapping_add(
                        vstd::wrapping::u64_specs::wrapping_add(segment, base->0),
                        vstd::wrapping::u64_specs::wrapping_mul(index->0, m.scale as u64),
                    ),
                    m.displacement,
                ),
            )
        } else {
            None
        }
    }
}

/// `e` is why the address cannot be formed: the base register's error, or
/// else the index register's.
pub open spec fn address_error(c: Cpu64, m: X64Memory, e: DynamicError) -> bool {
    if m.base is Some && register_value(c, m.base->0) is None {
        register_error(m.base->0, e)
    } else {
        m.index is Some && register_error(m.index->0, e)
    }
}

/// The value and width in bits of operand `index` where it can be read.
/// Memory operands are read little-endian, up to eight bytes.
pub open spec fn operand_value(c: Cpu64, m: Seq<RegionView64>, insn: X64Instruction, index: int) -> Option<(u64, usize)> {
    match insn.operands@[index] {
        X64Operand::Register(reg) => match register_value(c, reg) {
            Some(v) => Some((v, register_width(reg))),
            None => None,
        },
        X64Operand::Value { value, bits, .. } => Some((value, bits)),
        X64Operand::Memory => match address_of(c, insn.memory) {
            Some(a) => match read64(m, a, insn.memory.bytes as nat) {
                Some(bs) => if insn.memory.bytes <= 8 {
                    Some((le_value(bs) as u64, (insn.memory.bytes * 8) as usize))
                } else {
                    None
                },
                None => None,
            },
            None => None,
        },
        X64Operand::Unsupported(_) => None,
    }
}

/// `e` is the error of a read of operand `index` that fails.
pub open spec fn operand_error(c: Cpu64, m: Seq<RegionView64>, insn: X64Instruction, index: int, e: DynamicError) -> bool {
    match insn.operands@[index] {
        X64Operand::Register(reg) => register_error(reg, e),
        X64Operand::Value { .. } => false,
        X64Operand::Memory => match address_of(c, insn.memory) {
            None => address_error(c, insn.memory, e),
            Some(a) => if read64(m, a, insn.memory.bytes as nat) is None {
                e == DynamicError::MemoryRead { address: a }
            } else {
                e matches DynamicError::UnsupportedOperand(s) && s@ == "x64 Memory"@
            },
        },
        X64Operand::Unsupported(kind) => e matches DynamicError::UnsupportedOperand(s) && s@ == "x64 "@ + kind@,
    }
}

/// The width in bits a write to operand `index` reports.
pub open spec fn operand_width(insn: X64Instruction, index: int) -> usize {
    match insn.operands@[index] {
        X64Operand::Register(reg) => register_width(reg),
        _ => (insn.memory.bytes * 8) as usize,
    }
}

/// `(c2, m2)` is `(c, m)` after writing `value` to operand `index`, and `r`
/// says whether the write took place: a register with the partial-register
/// rules, or the low bytes of `value` at the effective address. Values and
/// unsupported kinds cannot be written.
pub open spec fn operand_written(
    c: Cpu64,
    m: Seq<RegionView64>,
    insn: X64Instruction,
    index: int,
    value: u64,
    c2: Cpu64,
    m2: Seq<RegionView64>,
    r: Result<(), DynamicError>,
) -> bool {
    match insn.operands@[index] {
        X64Operand::Register(reg) => m2 == m && if register_writable(reg) {
            r is Ok && register_written(c, reg, value, c2)
        } else {
            c2 == c && (r matches Err(e) && register_error(reg, e))
        },
        X64Operand::Memory => c2 == c && match address_of(c, insn.memory) {
            None => m2 == m && (r matches Err(e) && address_error(c, insn.memory, e)),
            Some(a) => if insn.memory.bytes <= 8 {
                Memory64::write_outcome(m, m2, a, le_bytes(value as nat, insn.memory.bytes as nat), false, r)
            } else {
                m2 == m && (r matches Err(DynamicError::UnsupportedOperand(s)) && s@ == "x64 write Memory"@)
            },
        },
        X64Operand::Value { kind, .. } => c2 == c && m2 == m && (r matches Err(DynamicError::UnsupportedOperand(s))
            && s@ == "x64 write "@ + kind@),
        X64Operand::Unsupported(kind) => c2 == c && m2 == m && (r matches Err(DynamicError::UnsupportedOperand(s))
            && s@ == "x64 write "@ + kind@),
    }
}

/// The same result without its payload.
pub open spec fn unit_of<T>(r: Result<T, DynamicError>) -> Result<(), DynamicError> {
    match r {
        Ok(_) => Ok(()),
        Err(e) => Err(e),
    }
}

/// Decodes a little-endian value of at most eight bytes.
fn le_small(bytes: &[u8]) -> (v: u64)
    requires
        bytes@.len() <= 8,
    ensures
        v == le_value(bytes@),
{
    let n = bytes.len();
    let mut acc: u64 = 0;
    let mut k: usize = n;
    proof {
        reveal_with_fuel(crate::text::pow_nat, 9);
        assert(crate::text::pow_nat(256, 8) == 0x1_0000_0000_0000_0000);
    }
    while k > 0
        invariant
            k <= n,
            n == bytes@.len(),
            n <= 8,
            acc == le_value(bytes@.subrange(k as int, n as int)),
            acc < crate::text::pow_nat(256, (n - k) as nat),
            crate::text::pow_nat(256, 8) == 0x1_0000_0000_0000_0000,
        decreases k,
    {
        let ghost old_acc = acc;
        let b = bytes[k - 1];
        proof {
            let t = bytes@.subrange(k - 1, n as int);
            assert(t.subrange(1, t.len() as int) =~= bytes@.subrange(k as int, n as int));
            assert(le_value(t) == t[0] + 256 * le_value(t.subrange(1, t.len() as int)));
            assert(crate::text::pow_nat(256, (n - k + 1) as nat) == 256 * crate::text::pow_nat(256, (n - k) as nat));
            crate::text::lemma_pow_monotone(256, (n - k + 1) as nat, 8);
            assert(b as int + 256 * old_acc < crate::text::pow_nat(256, (n - k + 1) as nat)) by (nonlinear_arith)
                requires
                    old_acc < crate::text::pow_nat(256, (n - k) as nat),
                    b < 256,
                    crate::text::pow_nat(256, (n - k + 1) as nat) == 256 * crate::text::pow_nat(256, (n - k) as nat),
            ;
        }
        acc = (b as u64) + 256 * acc;
        k = k - 1;
    }
    assert(bytes@.subrange(0, n as int) =~= bytes@);
    acc
}

/// A message for an operand kind that cannot be used.
fn kind_message(prefix: &str, kind: &String) -> (s: String)
    ensures
        s@ == prefix@ + kind@,
{
    let mut s = String::new();
    push_str(&mut s, prefix);
    push_str(&mut s, kind.as_str());
    s
}

impl Cpu64 {
    /// The effective address of the instruction's memory operand.
    pub fn effective_address(&self, instruction: &X64Instruction) -> (r: Result<u64, DynamicError>)
        ensures
            match address_of(*self, instruction.memory) {
                Some(a) => r == Ok::<u64, DynamicError>(a),
                None => r matches Err(e) && address_error(*self, instruction.memory, e),
            },
    {
        let m = &instruction.memory;
        if m.ip_relative {
            return Ok(m.ip_address);
        }
        let base = match &m.base {
            None => 0,
            Some(register) => match self.read_register(register) {
                Ok(v) => v,
                Err(e) => return Err(e),
            },
        };
        let index = match &m.index {
            None => 0,
            Some(register) => match self.read_register(register) {
                Ok(v) => v,
                Err(e) => return Err(e),
            },
        };
        let segment = if m.gs { self.gs_base } else { 0 };
        Ok(segment.wrapping_add(base).wrapping_add(index.wrapping_mul(m.scale as u64)).wrapping_add(m.displacement))
    }

    /// Reads operand `operand` with its width in bits: a register, an
    /// immediate or branch target, or up to eight bytes of memory.
    pub fn read_operand(&self, memory: &Memory64, instruction: &X64Instruction, operand: usize) -> (r: Result<(u64, usize), DynamicError>)
        requires
            memory.wf(),
            operand < instruction.operands@.len(),
        ensures
            match operand_value(*self, memory@, *instruction, operand as int) {
                Some(p) => r == Ok::<(u64, usize), DynamicError>(p),
                None => r matches Err(e) && operand_error(*self, memory@, *instruction, operand as int, e),
            },
    {
        match &instruction.operands[operand] {
            X64Operand::Register(register) => match self.read_register(register) {
                Ok(v) => {
                    let width: usize = match register {
                        Register64::Gpr { bits, .. } => *bits as usize,
                        _ => 64,
                    };
                    Ok((v, width))
                },
                Err(e) => Err(e),
            },
            X64Operand::Value { value, bits, .. } => Ok((*value, *bits)),
            X64Operand::Memory => {
                let address = match self.effective_address(instruction) {
                    Ok(a) => a,
                    Err(e) => return Err(e),
                };
                let size = instruction.memory.bytes;
                let bytes = match memory.read(address, size) {
                    Ok(b) => b,
                    Err(e) => {
                        proof {
                            lemma_read64_none(memory@, address, size as nat);
                        }
                        return Err(e);
                    },
                };
                proof {
                    lemma_read64(memory@, address, size as nat, bytes@);
                }
                if size > 8 {
                    return Err(DynamicError::UnsupportedOperand("x64 Memory".to_owned()));
                }
                Ok((le_small(bytes), size * 8))
            },
            X64Operand::Unsupported(kind) => Err(DynamicError::UnsupportedOperand(x64_name(kind))),
        }
    }

    /// Writes `value` to operand `operand` and returns the width written in
    /// bits: a register with the partial-register rules, or the low bytes
    /// of `value` at the effective address.
    pub fn write_operand(&mut self, memory: &mut Memory64, instruction: &X64Instruction, operand: usize, value: u64) -> (r: Result<usize, DynamicError>)
        requires
            old(memory).wf(),
            operand < instruction.operands@.len(),
        ensures
            final(memory).wf(),
            final(memory).allocated_bytes() == old(memory).allocated_bytes(),
            operand_written(*old(self), old(memory)@, *instruction, operand as int, value, *final(self), final(memory)@, unit_of(r)),
            r matches Ok(w) ==> w == operand_width(*instruction, operand as int),
    {
        match &instruction.operands[operand] {
            X64Operand::Register(register) => {
                let width: usize = match register {
                    Register64::Gpr { bits, .. } => *bits as usize,
                    _ => 64,
                };
                match self.write_register(register, value) {
                    Ok(()) => Ok(width),
                    Err(e) => Err(e),
                }
            },
            X64Operand::Memory => {
                let address = match self.effective_address(instruction) {
                    Ok(a) => a,
                    Err(e) => return Err(e),
                };
                let size = instruction.memory.bytes;
                if size > 8 {
                    return Err(DynamicError::UnsupportedOperand("x64 write Memory".to_owned()));
                }
                let bytes = to_le_bytes_u64(value, size);
                match memory.write(address, bytes.as_slice()) {
                    Ok(()) => Ok(size * 8),
                    Err(e) => Err(e),
                }
            },
            X64Operand::Value { kind, .. } => Err(DynamicError::UnsupportedOperand(kind_message("x64 write ", kind))),
            X64Operand::Unsupported(kind) => Err(DynamicError::UnsupportedOperand(kind_message("x64 write ", kind))),
        }
    }
}

// ----- the shared x86-64 core -----

pub const MNEMONIC_ADD: u16 = 7;
pub const MNEMONIC_AND: u16 = 21;
pub const MNEMONIC_CALL: u16 = 59;
pub const MNEMONIC_CDQ: u16 = 61;
pub const MNEMONIC_CMP: u16 = 93;
pub const MNEMONIC_CQO: u16 = 107;
pub const MNEMONIC_DEC: u16 = 137;
pub const MNEMONIC_ENDBR64: u16 = 152;
pub const MNEMONIC_HLT: u16 = 272;
pub const MNEMONIC_INC: u16 = 279;
pub const MNEMONIC_JA: u16 = 297;
pub const MNEMONIC_JAE: u16 = 298;
pub const MNEMONIC_JB: u16 = 299;
pub const MNEMONIC_JBE: u16 = 300;
pub const MNEMONIC_JE: u16 = 302;
pub const MNEMONIC_JG: u16 = 304;
pub const MNEMONIC_JGE: u16 = 305;
pub const MNEMONIC_JL: u16 = 306;
pub const MNEMONIC_JLE: u16 = 307;
pub const MNEMONIC_JMP: u16 = 308;
pub const MNEMONIC_JNE: u16 = 310;
pub const MNEMONIC_JNO: u16 = 311;
pub const MNEMONIC_JNP: u16 = 312;
pub const MNEMONIC_JNS: u16 = 313;
pub const MNEMONIC_JO: u16 = 314;
pub const MNEMONIC_JP: u16 = 315;
pub const MNEMONIC_JS: u16 = 317;
pub const MNEMONIC_LEA: u16 = 374;
pub const MNEMONIC_LEAVE: u16 = 375;
pub const MNEMONIC_MOV: u16 = 414;
pub const MNEMONIC_MOVSX: u16 = 450;
pub const MNEMONIC_MOVSXD: u16 = 451;
pub const MNEMONIC_MOVZX: u16 = 454;
pub const MNEMONIC_NEG: u16 = 464;
pub const MNEMONIC_NOP: u16 = 465;
pub const MNEMONIC_NOT: u16 = 466;
pub const MNEMONIC_OR: u16 = 467;
pub const MNEMONIC_POP: u16 = 590;
pub const MNEMONIC_PUSH: u16 = 640;
pub const MNEMONIC_RET: u16 = 662;
pub const MNEMONIC_SUB: u16 = 740;
pub const MNEMONIC_SYSCALL: u16 = 746;
pub const MNEMONIC_TEST: u16 = 751;
pub const MNEMONIC_XOR: u16 = 1518;
pub const MNEMONIC_INT3: u16 = 1620;

/// An instruction as decoding builds it: two operand slots.
pub open spec fn x64_wf(insn: X64Instruction) -> bool {
    insn.operands@.len() == 2
}

/// `c` with general register `i` set to `v`.
pub open spec fn with_gpr(c: Cpu64, i: int, v: u64) -> Cpu64 {
    Cpu64 { gpr: vstd::array::spec_array_update(c.gpr, i, v), ..c }
}

/// `v` sign-extended from its low `size` bits (kept as it is at 0 bits and
/// from 64 up).
pub open spec fn sign_extend(v: u64, size: usize) -> u64 {
    if 0 < size < 64 {
        let shift = (64 - size) as u64;
        (((v << shift) as i64) >> shift) as u64
    } else {
        v
    }
}

/// Whether a conditional jump `mnemonic` is taken under the flags of `c`.
pub open spec fn condition_holds(c: Cpu64, mnemonic: u16) -> bool {
    if mnemonic == MNEMONIC_JE {
        c.zf
    } else if mnemonic == MNEMONIC_JNE {
        !c.zf
    } else if mnemonic == MNEMONIC_JA {
        !c.cf && !c.zf
    } else if mnemonic == MNEMONIC_JAE {
        !c.cf
    } else if mnemonic == MNEMONIC_JB {
        c.cf
    } else if mnemonic == MNEMONIC_JBE {
        c.cf || c.zf
    } else if mnemonic == MNEMONIC_JG {
        !c.zf && c.sf == c.of
    } else if mnemonic == MNEMONIC_JGE {
        c.sf == c.of
    } else if mnemonic == MNEMONIC_JL {
        c.sf != c.of
    } else if mnemonic == MNEMONIC_JLE {
        c.zf || c.sf != c.of
    } else if mnemonic == MNEMONIC_JS {
        c.sf
    } else if mnemonic == MNEMONIC_JNS {
        !c.sf
    } else if mnemonic == MNEMONIC_JO {
        c.of
    } else if mnemonic == MNEMONIC_JNO {
        !c.of
    } else if mnemonic == MNEMONIC_JP {
        c.pf
    } else if mnemonic == MNEMONIC_JNP {
        !c.pf
    } else {
        false
    }
}

/// After `cmp a, b` on 64-bit operands (the flags of `a - b`), each
/// conditional jump is taken exactly when its comparison holds: JE and JNE
/// on equality, JA, JAE, JB and JBE on the unsigned values, JG, JGE, JL and
/// JLE on the signed values, JS and JNS on the sign of the difference, JO
/// and JNO on signed overflow of the subtraction.
pub proof fn law_compare_then_branch64(c: Cpu64, a: u64, b: u64)
    ensures
        ({
            let d = vstd::wrapping::u64_specs::wrapping_sub(a, b);
            let f = sub_flags(c, a, b, d, 64);
            &&& condition_holds(f, MNEMONIC_JE) == (a == b)
            &&& condition_holds(f, MNEMONIC_JNE) == (a != b)
            &&& condition_holds(f, MNEMONIC_JA) == (a > b)
            &&& condition_holds(f, MNEMONIC_JAE) == (a >= b)
            &&& condition_holds(f, MNEMONIC_JB) == (a < b)
            &&& condition_holds(f, MNEMONIC_JBE) == (a <= b)
            &&& condition_holds(f, MNEMONIC_JG) == ((a as i64) > (b as i64))
            &&& condition_holds(f, MNEMONIC_JGE) == ((a as i64) >= (b as i64))
            &&& condition_holds(f, MNEMONIC_JL) == ((a as i64) < (b as i64))
            &&& condition_holds(f, MNEMONIC_JLE) == ((a as i64) <= (b as i64))
            &&& condition_holds(f, MNEMONIC_JS) == ((d as i64) < 0)
            &&& condition_holds(f, MNEMONIC_JNS) == ((d as i64) >= 0)
            &&& condition_holds(f, MNEMONIC_JO) == ((a as i64) - (b as i64) != (d as i64))
            &&& condition_holds(f, MNEMONIC_JNO) == ((a as i64) - (b as i64) == (d as i64))
        }),
{
    let d = vstd::wrapping::u64_specs::wrapping_sub(a, b);
    assert(d == (if a >= b { a - b } else { a - b + 0x1_0000_0000_0000_0000 }) as u64);
    assert(mask64(64) == u64::MAX);
    assert(sign64(64) == 0x8000_0000_0000_0000u64) by {
        assert(1u64 << 63u64 == 0x8000_0000_0000_0000u64) by (bit_vector);
    }
    let f = sub_flags(c, a, b, d, 64);
    let m = u64::MAX;
    let l = a & m;
    let rr = b & m;
    let res = d & m;
    assert(l == a && rr == b && res == d) by (bit_vector)
        requires
            m == 0xffff_ffff_ffff_ffffu64,
            l == a & m,
            rr == b & m,
            res == d & m,
    ;
    assert(f.zf == (d == 0) && f.cf == (a < b) && f.sf == (d & 0x8000_0000_0000_0000 != 0)
        && f.of == (((a ^ b) & (a ^ d) & 0x8000_0000_0000_0000) != 0));
    assert({
        &&& (d == 0) == (a == b)
        &&& ((d & 0x8000_0000_0000_0000 != 0) != (((a ^ b) & (a ^ d) & 0x8000_0000_0000_0000) != 0)) == ((a as i64) < (b as i64))
        &&& (d & 0x8000_0000_0000_0000 != 0) == ((d as i64) < 0)
        &&& (a == b) == ((a as i64) == (b as i64))
        &&& ((((a ^ b) & (a ^ d) & 0x8000_0000_0000_0000) != 0) == ((a as i64) - (b as i64) != (d as i64)))
    }) by (bit_vector)
        requires
            d == (if a >= b { a - b } else { a - b + 0x1_0000_0000_0000_0000 }) as u64,
    ;
}

/// The sixteen conditional jumps.
pub open spec fn is_conditional_jump(mnemonic: u16) -> bool {
    297 <= mnemonic <= 317 && mnemonic != 301 && mnemonic != 303 && mnemonic != 308 && mnemonic != 309 && mnemonic != 316
}

/// The register file once RSP has dropped by eight for a push.
pub open spec fn push_cpu(c: Cpu64) -> Cpu64 {
    with_gpr(c, 4, vstd::wrapping::u64_specs::wrapping_sub(rsp_of(c), 8))
}

/// The register file once RSP has risen by eight after a pop.
pub open spec fn pop_cpu(c: Cpu64) -> Cpu64 {
    with_gpr(c, 4, vstd::wrapping::u64_specs::wrapping_add(rsp_of(c), 8))
}

/// The store of a push of `value` from `c`: eight bytes at the lowered RSP.
pub open spec fn push_store(c: Cpu64, m: Seq<RegionView64>, value: u64, m2: Seq<RegionView64>, r: Result<(), DynamicError>) -> bool {
    Memory64::write_outcome(m, m2, rsp_of(push_cpu(c)), le_bytes(value as nat, 8), false, r)
}

/// The result of the two-operand arithmetic and logic instructions.
pub open spec fn arith_result(mnemonic: u16, left: u64, right: u64) -> u64 {
    if mnemonic == MNEMONIC_ADD {
        vstd::wrapping::u64_specs::wrapping_add(left, right)
    } else if mnemonic == MNEMONIC_SUB {
        vstd::wrapping::u64_specs::wrapping_sub(left, right)
    } else if mnemonic == MNEMONIC_AND {
        left & right
    } else if mnemonic == MNEMONIC_OR {
        left | right
    } else {
        left ^ right
    }
}

/// The flags after such an instruction: ADD's, SUB's, or a logical result's.
pub open spec fn arith_flags(c: Cpu64, mnemonic: u16, left: u64, right: u64, result: u64, size: usize) -> Cpu64 {
    if mnemonic == MNEMONIC_ADD {
        add_flags(c, left, right, result, size)
    } else if mnemonic == MNEMONIC_SUB {
        sub_flags(c, left, right, result, size)
    } else {
        logic_flags(c, result, size)
    }
}

/// A read of operand `index` failed: nothing changed and `r` is its error.
pub open spec fn read_failed(
    c: Cpu64,
    m: Seq<RegionView64>,
    insn: X64Instruction,
    index: int,
    c2: Cpu64,
    m2: Seq<RegionView64>,
    r: Result<bool, DynamicError>,
) -> bool {
    c2 == c && m2 == m && (r matches Err(e) && operand_error(c, m, insn, index, e))
}

/// The instruction ends by writing `value` to operand `index` from `c`.
pub open spec fn ends_writing(
    c: Cpu64,
    m: Seq<RegionView64>,
    insn: X64Instruction,
    index: int,
    value: u64,
    c2: Cpu64,
    m2: Seq<RegionView64>,
    r: Result<bool, DynamicError>,
) -> bool {
    operand_written(c, m, insn, index, value, c2, m2, unit_of(r)) && (r is Ok ==> r == Ok::<bool, DynamicError>(true))
}

/// A width at which flags can be computed.
pub open spec fn flag_width(size: usize) -> bool {
    1 <= size <= 64
}

/// `r` is the failure for an operand read at a width the flags cannot use.
pub open spec fn width_failed(c: Cpu64, m: Seq<RegionView64>, c2: Cpu64, m2: Seq<RegionView64>, r: Result<bool, DynamicError>) -> bool {
    c2 == c && m2 == m && (r matches Err(DynamicError::UnsupportedOperand(s)) && s@ == "x64 operand width"@)
}

/// What the x86-64 core does with `insn` from registers `c` and memory `m`,
/// giving `c2`, `m2` and `r`: `Ok(true)` once executed, `Ok(false)` (and no
/// change) for an instruction outside the core, or the first error, with
/// whatever was changed before it.
pub open spec fn x64_core(
    c: Cpu64,
    m: Seq<RegionView64>,
    insn: X64Instruction,
    c2: Cpu64,
    m2: Seq<RegionView64>,
    r: Result<bool, DynamicError>,
) -> bool {
    let n = insn.mnemonic;
    if n == MNEMONIC_MOV || n == MNEMONIC_MOVZX || n == MNEMONIC_MOVSX || n == MNEMONIC_MOVSXD {
        match operand_value(c, m, insn, 1) {
            None => read_failed(c, m, insn, 1, c2, m2, r),
            Some((v, size)) => ends_writing(
                c,
                m,
                insn,
                0,
                if n == MNEMONIC_MOVSX || n == MNEMONIC_MOVSXD { sign_extend(v, size) } else { v },
                c2,
                m2,
                r,
            ),
        }
    } else if n == MNEMONIC_LEA {
        match address_of(c, insn.memory) {
            None => c2 == c && m2 == m && (r matches Err(e) && address_error(c, insn.memory, e)),
            Some(a) => ends_writing(c, m, insn, 0, a, c2, m2, r),
        }
    } else if n == MNEMONIC_PUSH {
        match operand_value(c, m, insn, 0) {
            None => read_failed(c, m, insn, 0, c2, m2, r),
            Some((v, _)) => c2 == push_cpu(c) && push_store(c, m, v, m2, unit_of(r)) && (r is Ok ==> r == Ok::<
                bool,
                DynamicError,
            >(true)),
        }
    } else if n == MNEMONIC_POP {
        match qword_at(m, rsp_of(c) as int) {
            None => c2 == c && m2 == m && r == Err::<bool, DynamicError>(DynamicError::MemoryRead { address: rsp_of(c) }),
            Some(v) => ends_writing(pop_cpu(c), m, insn, 0, v, c2, m2, r),
        }
    } else if n == MNEMONIC_CALL {
        match operand_value(c, m, insn, 0) {
            None => read_failed(c, m, insn, 0, c2, m2, r),
            Some((target, _)) => push_store(c, m, c.rip, m2, unit_of(r)) && if r is Ok {
                r == Ok::<bool, DynamicError>(true) && c2 == (Cpu64 { rip: target, ..push_cpu(c) })
            } else {
                c2 == push_cpu(c)
            },
        }
    } else if n == MNEMONIC_RET {
        match qword_at(m, rsp_of(c) as int) {
            None => c2 == c && m2 == m && r == Err::<bool, DynamicError>(DynamicError::MemoryRead { address: rsp_of(c) }),
            Some(v) => {
                let c1 = Cpu64 { rip: v, ..pop_cpu(c) };
                m2 == m && r == Ok::<bool, DynamicError>(true) && c2 == if insn.op_count > 0 {
                    with_gpr(c1, 4, vstd::wrapping::u64_specs::wrapping_add(rsp_of(c1), insn.immediate16 as u64))
                } else {
                    c1
                }
            },
        }
    } else if n == MNEMONIC_LEAVE {
        let c1 = with_gpr(c, 4, c.gpr@[5]);
        match qword_at(m, c.gpr@[5] as int) {
            None => c2 == c1 && m2 == m && r == Err::<bool, DynamicError>(DynamicError::MemoryRead { address: c.gpr@[5] }),
            Some(v) => m2 == m && r == Ok::<bool, DynamicError>(true) && c2 == with_gpr(pop_cpu(c1), 5, v),
        }
    } else if n == MNEMONIC_ADD || n == MNEMONIC_SUB || n == MNEMONIC_AND || n == MNEMONIC_OR || n == MNEMONIC_XOR
        || n == MNEMONIC_CMP || n == MNEMONIC_TEST {
        match operand_value(c, m, insn, 0) {
            None => read_failed(c, m, insn, 0, c2, m2, r),
            Some((left, size)) => match operand_value(c, m, insn, 1) {
                None => read_failed(c, m, insn, 1, c2, m2, r),
                Some((right, _)) => if !flag_width(size) {
                    width_failed(c, m, c2, m2, r)
                } else if n == MNEMONIC_CMP {
                    m2 == m && r == Ok::<bool, DynamicError>(true) && c2 == sub_flags(
                        c,
                        left,
                        right,
                        vstd::wrapping::u64_specs::wrapping_sub(left, right),
                        size,
                    )
                } else if n == MNEMONIC_TEST {
                    m2 == m && r == Ok::<bool, DynamicError>(true) && c2 == logic_flags(c, left & right, size)
                } else {
                    let result = arith_result(n, left, right);
                    ends_writing(arith_flags(c, n, left, right, result, size), m, insn, 0, result, c2, m2, r)
                },
            },
        }
    } else if n == MNEMONIC_INC || n == MNEMONIC_DEC || n == MNEMONIC_NOT || n == MNEMONIC_NEG {
        match operand_value(c, m, insn, 0) {
            None => read_failed(c, m, insn, 0, c2, m2, r),
            Some((v, size)) => if !flag_width(size) {
                width_failed(c, m, c2, m2, r)
            } else if n == MNEMONIC_INC {
                let result = vstd::wrapping::u64_specs::wrapping_add(v, 1);
                ends_writing(Cpu64 { cf: c.cf, ..add_flags(c, v, 1, result, size) }, m, insn, 0, result, c2, m2, r)
            } else if n == MNEMONIC_DEC {
                let result = vstd::wrapping::u64_specs::wrapping_sub(v, 1);
                ends_writing(Cpu64 { cf: c.cf, ..sub_flags(c, v, 1, result, size) }, m, insn, 0, result, c2, m2, r)
            } else if n == MNEMONIC_NOT {
                ends_writing(c, m, insn, 0, !v, c2, m2, r)
            } else {
                let result = vstd::wrapping::u64_specs::wrapping_sub(0, v);
                ends_writing(sub_flags(c, 0, v, result, size), m, insn, 0, result, c2, m2, r)
            },
        }
    } else if n == MNEMONIC_JMP {
        match operand_value(c, m, insn, 0) {
            None => read_failed(c, m, insn, 0, c2, m2, r),
            Some((target, _)) => m2 == m && r == Ok::<bool, DynamicError>(true) && c2 == (Cpu64 { rip: target, ..c }),
        }
    } else if is_conditional_jump(n) {
        m2 == m && r == Ok::<bool, DynamicError>(true) && c2 == if condition_holds(c, n) {
            Cpu64 { rip: insn.near_branch, ..c }
        } else {
            c
        }
    } else if n == MNEMONIC_CQO {
        m2 == m && r == Ok::<bool, DynamicError>(true) && c2 == with_gpr(c, 2, if (c.gpr@[0] as i64) < 0 { u64::MAX } else { 0 })
    } else if n == MNEMONIC_CDQ {
        m2 == m && r == Ok::<bool, DynamicError>(true) && c2 == with_gpr(
            c,
            2,
            if ((c.gpr@[0] as u32) as i32) < 0 { 0xffff_ffffu64 } else { 0 },
        )
    } else if n == MNEMONIC_NOP || n == MNEMONIC_ENDBR64 {
        c2 == c && m2 == m && r == Ok::<bool, DynamicError>(true)
    } else {
        c2 == c && m2 == m && r == Ok::<bool, DynamicError>(false)
    }
}

proof fn lemma_with_gpr(c: Cpu64, c2: Cpu64, i: int, v: u64)
    requires
        0 <= i < 16,
        c2 == (Cpu64 { gpr: c2.gpr, ..c }),
        c2.gpr@ == c.gpr@.update(i, v),
    ensures
        c2 == with_gpr(c, i, v),
{
    broadcast use vstd::array::group_array_axioms;

    assert(c2.gpr =~= vstd::array::spec_array_update(c.gpr, i, v));
}

/// `v` sign-extended from its low `size` bits.
fn sign_extended(v: u64, size: usize) -> (r: u64)
    ensures
        r == sign_extend(v, size),
{
    if 0 < size && size < 64 {
        let shift = (64 - size) as u64;
        (((v << shift) as i64) >> shift) as u64
    } else {
        v
    }
}

/// MOV, MOVZX, MOVSX and MOVSXD: the source, sign-extended for the last
/// two, is written to the destination.
fn step_move(cpu: &mut Cpu64, memory: &mut Memory64, insn: &X64Instruction) -> (r: Result<bool, DynamicError>)
    requires
        old(memory).wf(),
        x64_wf(*insn),
        insn.mnemonic == MNEMONIC_MOV || insn.mnemonic == MNEMONIC_MOVZX || insn.mnemonic == MNEMONIC_MOVSX
            || insn.mnemonic == MNEMONIC_MOVSXD,
    ensures
        final(memory).wf(),
        final(memory).allocated_bytes() == old(memory).allocated_bytes(),
        x64_core(*old(cpu), old(memory)@, *insn, *final(cpu), final(memory)@, r),
{
    let (value, size): (u64, usize) = match cpu.read_operand(memory, insn, 1) {
        Ok(p) => p,
        Err(e) => return Err(e),
    };
    let value = if insn.mnemonic == MNEMONIC_MOVSX || insn.mnemonic == MNEMONIC_MOVSXD {
        sign_extended(value, size)
    } else {
        value
    };
    match cpu.write_operand(memory, insn, 0, value) {
        Ok(_) => Ok(true),
        Err(e) => Err(e),
    }
}

/// LEA: the effective address is written to the destination.
fn step_lea(cpu: &mut Cpu64, memory: &mut Memory64, insn: &X64Instruction) -> (r: Result<bool, DynamicError>)
    requires
        old(memory).wf(),
        x64_wf(*insn),
        insn.mnemonic == MNEMONIC_LEA,
    ensures
        final(memory).wf(),
        final(memory).allocated_bytes() == old(memory).allocated_bytes(),
        x64_core(*old(cpu), old(memory)@, *insn, *final(cpu), final(memory)@, r),
{
    let address = match cpu.effective_address(insn) {
        Ok(a) => a,
        Err(e) => return Err(e),
    };
    match cpu.write_operand(memory, insn, 0, address) {
        Ok(_) => Ok(true),
        Err(e) => Err(e),
    }
}

/// PUSH, POP, CALL, RET and LEAVE.
fn step_stack(cpu: &mut Cpu64, memory: &mut Memory64, insn: &X64Instruction) -> (r: Result<bool, DynamicError>)
    requires
        old(memory).wf(),
        x64_wf(*insn),
        insn.mnemonic == MNEMONIC_PUSH || insn.mnemonic == MNEMONIC_POP || insn.mnemonic == MNEMONIC_CALL
            || insn.mnemonic == MNEMONIC_RET || insn.mnemonic == MNEMONIC_LEAVE,
    ensures
        final(memory).wf(),
        final(memory).allocated_bytes() == old(memory).allocated_bytes(),
        x64_core(*old(cpu), old(memory)@, *insn, *final(cpu), final(memory)@, r),
{
    let ghost c = *cpu;
    let n = insn.mnemonic;
    if n == MNEMONIC_PUSH || n == MNEMONIC_CALL {
        let (value, _): (u64, usize) = match cpu.read_operand(memory, insn, 0) {
            Ok(p) => p,
            Err(e) => return Err(e),
        };
        let stored = if n == MNEMONIC_PUSH { value } else { cpu.rip };
        let pushed = cpu.push(memory, stored);
        proof {
            lemma_with_gpr(c, *cpu, 4, vstd::wrapping::u64_specs::wrapping_sub(rsp_of(c), 8));
        }
        match pushed {
            Ok(()) => {
                if n == MNEMONIC_CALL {
                    cpu.rip = value;
                }
                Ok(true)
            },
            Err(e) => Err(e),
        }
    } else if n == MNEMONIC_POP {
        let value = match cpu.pop(memory) {
            Ok(v) => v,
            Err(e) => return Err(e),
        };
        proof {
            lemma_with_gpr(c, *cpu, 4, vstd::wrapping::u64_specs::wrapping_add(rsp_of(c), 8));
        }
        match cpu.write_operand(memory, insn, 0, value) {
            Ok(_) => Ok(true),
            Err(e) => Err(e),
        }
    } else if n == MNEMONIC_RET {
        let target = match cpu.pop(memory) {
            Ok(v) => v,
            Err(e) => return Err(e),
        };
        proof {
            lemma_with_gpr(c, *cpu, 4, vstd::wrapping::u64_specs::wrapping_add(rsp_of(c), 8));
        }
        cpu.rip = target;
        if insn.op_count > 0 {
            let ghost c1 = *cpu;
            let top = cpu.rsp().wrapping_add(insn.immediate16 as u64);
            cpu.set_rsp(top);
            proof {
                lemma_with_gpr(c1, *cpu, 4, top);
            }
        }
        Ok(true)
    } else {
        let frame = cpu.gpr[5];
        cpu.set_rsp(frame);
        let ghost c1 = *cpu;
        proof {
            lemma_with_gpr(c, c1, 4, frame);
        }
        let value = match cpu.pop(memory) {
            Ok(v) => v,
            Err(e) => return Err(e),
        };
        let ghost c2 = *cpu;
        proof {
            lemma_with_gpr(c1, c2, 4, vstd::wrapping::u64_specs::wrapping_add(rsp_of(c1), 8));
        }
        cpu.gpr[5] = value;
        proof {
            lemma_with_gpr(c2, *cpu, 5, value);
        }
        Ok(true)
    }
}

/// ADD, SUB, AND, OR and XOR (flags, then the result to the destination),
/// and CMP and TEST (flags only).
fn step_arith(cpu: &mut Cpu64, memory: &mut Memory64, insn: &X64Instruction) -> (r: Result<bool, DynamicError>)
    requires
        old(memory).wf(),
        x64_wf(*insn),
        insn.mnemonic == MNEMONIC_ADD || insn.mnemonic == MNEMONIC_SUB || insn.mnemonic == MNEMONIC_AND
            || insn.mnemonic == MNEMONIC_OR || insn.mnemonic == MNEMONIC_XOR || insn.mnemonic == MNEMONIC_CMP
            || insn.mnemonic == MNEMONIC_TEST,
    ensures
        final(memory).wf(),
        final(memory).allocated_bytes() == old(memory).allocated_bytes(),
        x64_core(*old(cpu), old(memory)@, *insn, *final(cpu), final(memory)@, r),
{
    let n = insn.mnemonic;
    let (left, size): (u64, usize) = match cpu.read_operand(memory, insn, 0) {
        Ok(p) => p,
        Err(e) => return Err(e),
    };
    let (right, _): (u64, usize) = match cpu.read_operand(memory, insn, 1) {
        Ok(p) => p,
        Err(e) => return Err(e),
    };
    if size < 1 || size > 64 {
        return Err(DynamicError::UnsupportedOperand("x64 operand width".to_owned()));
    }
    if n == MNEMONIC_CMP {
        cpu.set_sub_flags(left, right, left.wrapping_sub(right), size);
        return Ok(true);
    }
    if n == MNEMONIC_TEST {
        cpu.set_logic_flags(left & right, size);
        return Ok(true);
    }
    let result = if n == MNEMONIC_ADD {
        left.wrapping_add(right)
    } else if n == MNEMONIC_SUB {
        left.wrapping_sub(right)
    } else if n == MNEMONIC_AND {
        left & right
    } else if n == MNEMONIC_OR {
        left | right
    } else {
        left ^ right
    };
    if n == MNEMONIC_ADD {
        cpu.set_add_flags(left, right, result, size);
    } else if n == MNEMONIC_SUB {
        cpu.set_sub_flags(left, right, result, size);
    } else {
        cpu.set_logic_flags(result, size);
    }
    match cpu.write_operand(memory, insn, 0, result) {
        Ok(_) => Ok(true),
        Err(e) => Err(e),
    }
}

/// INC and DEC (flags with CF kept), NOT (no flags) and NEG.
fn step_unary(cpu: &mut Cpu64, memory: &mut Memory64, insn: &X64Instruction) -> (r: Result<bool, DynamicError>)
    requires
        old(memory).wf(),
        x64_wf(*insn),
        insn.mnemonic == MNEMONIC_INC || insn.mnemonic == MNEMONIC_DEC || insn.mnemonic == MNEMONIC_NOT
            || insn.mnemonic == MNEMONIC_NEG,
    ensures
        final(memory).wf(),
        final(memory).allocated_bytes() == old(memory).allocated_bytes(),
        x64_core(*old(cpu), old(memory)@, *insn, *final(cpu), final(memory)@, r),
{
    let n = insn.mnemonic;
    let carry = cpu.cf;
    let (value, size): (u64, usize) = match cpu.read_operand(memory, insn, 0) {
        Ok(p) => p,
        Err(e) => return Err(e),
    };
    if size < 1 || size > 64 {
        return Err(DynamicError::UnsupportedOperand("x64 operand width".to_owned()));
    }
    let result = if n == MNEMONIC_INC {
        value.wrapping_add(1)
    } else if n == MNEMONIC_DEC {
        value.wrapping_sub(1)
    } else if n == MNEMONIC_NOT {
        !value
    } else {
        0u64.wrapping_sub(value)
    };
    if n == MNEMONIC_INC {
        cpu.set_add_flags(value, 1, result, size);
        cpu.cf = carry;
    } else if n == MNEMONIC_DEC {
        cpu.set_sub_flags(value, 1, result, size);
        cpu.cf = carry;
    } else if n == MNEMONIC_NEG {
        cpu.set_sub_flags(0, value, result, size);
    }
    match cpu.write_operand(memory, insn, 0, result) {
        Ok(_) => Ok(true),
        Err(e) => Err(e),
    }
}

impl Cpu64 {
    /// Whether the conditional jump `mnemonic` is taken under the current flags.
    pub fn condition(&self, mnemonic: u16) -> (b: bool)
        ensures
            b == condition_holds(*self, mnemonic),
    {
        if mnemonic == MNEMONIC_JE {
            self.zf
        } else if mnemonic == MNEMONIC_JNE {
            !self.zf
        } else if mnemonic == MNEMONIC_JA {
            !self.cf && !self.zf
        } else if mnemonic == MNEMONIC_JAE {
            !self.cf
        } else if mnemonic == MNEMONIC_JB {
            self.cf
        } else if mnemonic == MNEMONIC_JBE {
            self.cf || self.zf
        } else if mnemonic == MNEMONIC_JG {
            !self.zf && self.sf == self.of
        } else if mnemonic == MNEMONIC_JGE {
            self.sf == self.of
        } else if mnemonic == MNEMONIC_JL {
            self.sf != self.of
        } else if mnemonic == MNEMONIC_JLE {
            self.zf || self.sf != self.of
        } else if mnemonic == MNEMONIC_JS {
            self.sf
        } else if mnemonic == MNEMONIC_JNS {
            !self.sf
        } else if mnemonic == MNEMONIC_JO {
            self.of
        } else if mnemonic == MNEMONIC_JNO {
            !self.of
        } else if mnemonic == MNEMONIC_JP {
            self.pf
        } else if mnemonic == MNEMONIC_JNP {
            !self.pf
        } else {
            false
        }
    }
}

/// Executes `insn` on the x86-64 core: moves, LEA, the stack, arithmetic
/// and logic, jumps, CQO/CDQ and no-ops. `Ok(false)` (with nothing
/// changed) for any other instruction, which the machine handles itself.
pub fn execute_core(cpu: &mut Cpu64, memory: &mut Memory64, insn: &X64Instruction) -> (r: Result<bool, DynamicError>)
    requires
        old(memory).wf(),
        x64_wf(*insn),
    ensures
        final(memory).wf(),
        final(memory).allocated_bytes() == old(memory).allocated_bytes(),
        x64_core(*old(cpu), old(memory)@, *insn, *final(cpu), final(memory)@, r),
{
    let n = insn.mnemonic;
    if n == MNEMONIC_MOV || n == MNEMONIC_MOVZX || n == MNEMONIC_MOVSX || n == MNEMONIC_MOVSXD {
        step_move(cpu, memory, insn)
    } else if n == MNEMONIC_LEA {
        step_lea(cpu, memory, insn)
    } else if n == MNEMONIC_PUSH || n == MNEMONIC_POP || n == MNEMONIC_CALL || n == MNEMONIC_RET || n == MNEMONIC_LEAVE {
        step_stack(cpu, memory, insn)
    } else if n == MNEMONIC_ADD || n == MNEMONIC_SUB || n == MNEMONIC_AND || n == MNEMONIC_OR || n == MNEMONIC_XOR
        || n == MNEMONIC_CMP || n == MNEMONIC_TEST {
        step_arith(cpu, memory, insn)
    } else if n == MNEMONIC_INC || n == MNEMONIC_DEC || n == MNEMONIC_NOT || n == MNEMONIC_NEG {
        step_unary(cpu, memory, insn)
    } else if n == MNEMONIC_JMP {
        let (target, _): (u64, usize) = match cpu.read_operand(memory, insn, 0) {
            Ok(p) => p,
            Err(e) => return Err(e),
        };
        cpu.rip = target;
        Ok(true)
    } else if 297 <= n && n <= 317 && n != 301 && n != 303 && n != 308 && n != 309 && n != 316 {
        if cpu.condition(n) {
            cpu.rip = insn.near_branch;
        }
        Ok(true)
    } else if n == MNEMONIC_CQO || n == MNEMONIC_CDQ {
        let ghost c = *cpu;
        let value: u64 = if n == MNEMONIC_CQO {
            if (cpu.gpr[0] as i64) < 0 { u64::MAX } else { 0 }
        } else {
            if ((cpu.gpr[0] as u32) as i32) < 0 { 0xffff_ffff } else { 0 }
        };
        cpu.gpr[2] = value;
        proof {
            lemma_with_gpr(c, *cpu, 2, value);
        }
        Ok(true)
    } else if n == MNEMONIC_NOP || n == MNEMONIC_ENDBR64 {
        Ok(true)
    } else {
        Ok(false)
    }
}

/// How a machine reports the core's result `rc` as its own `r`: success,
/// the core's error, or, for an instruction outside the core, an
/// unsupported-operand error naming it after `prefix`.
pub open spec fn core_reported(insn: X64Instruction, rc: Result<bool, DynamicError>, r: Result<(), DynamicError>, prefix: Seq<char>) -> bool {
    match rc {
        Ok(true) => r is Ok,
        Ok(false) => r matches Err(DynamicError::UnsupportedOperand(s)) && s@ == prefix + insn.text@,
        Err(e) => r == Err::<(), DynamicError>(e),
    }
}

/// `r` reports a run of the core from `(c, m)` to `(c2, m2)`.
pub open spec fn core_step(
    c: Cpu64,
    m: Seq<RegionView64>,
    insn: X64Instruction,
    c2: Cpu64,
    m2: Seq<RegionView64>,
    r: Result<(), DynamicError>,
    prefix: Seq<char>,
) -> bool {
    exists|rc: Result<bool, DynamicError>| #[trigger] x64_core(c, m, insn, c2, m2, rc) && core_reported(insn, rc, r, prefix)
}

/// Runs `insn` on the core and reports an instruction outside it as
/// unsupported, its text after `prefix`.
pub fn run_core(cpu: &mut Cpu64, memory: &mut Memory64, insn: &X64Instruction, prefix: &str) -> (r: Result<(), DynamicError>)
    requires
        old(memory).wf(),
        x64_wf(*insn),
    ensures
        final(memory).wf(),
        final(memory).allocated_bytes() == old(memory).allocated_bytes(),
        core_step(*old(cpu), old(memory)@, *insn, *final(cpu), final(memory)@, r, prefix@),
{
    let rc = execute_core(cpu, memory, insn);
    match rc {
        Ok(true) => Ok(()),
        Ok(false) => Err(DynamicError::UnsupportedOperand(kind_message(prefix, &insn.text))),
        Err(e) => Err(e),
    }
}

} // verus!
