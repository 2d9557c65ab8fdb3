//! The 32-bit x86 core: what each supported instruction does to the
//! register file and guest memory, stated over the operand layer's own
//! read and write outcomes.
use vstd::prelude::*;

use crate::cpu::{
    mask_of, sign_of, add_flags_of, logic_flags_of, read_outcome, sub_flags_of, write_outcome32, address_of, register_value, Cpu,
    Operand,
};
use crate::dynamic_error::DynamicError;
use crate::memory::{le_bytes, value_at, Memory, RegionView};
use crate::x64::{
    MNEMONIC_ADD, MNEMONIC_AND, MNEMONIC_CALL, MNEMONIC_CDQ, MNEMONIC_CMP, MNEMONIC_DEC, MNEMONIC_HLT, MNEMONIC_INC,
    MNEMONIC_INT3, MNEMONIC_JA, MNEMONIC_JAE, MNEMONIC_JB, MNEMONIC_JBE, MNEMONIC_JE, MNEMONIC_JG, MNEMONIC_JGE,
    MNEMONIC_JL, MNEMONIC_JLE, MNEMONIC_JMP, MNEMONIC_JNE, MNEMONIC_JNS, MNEMONIC_JS, MNEMONIC_LEA, MNEMONIC_LEAVE,
    MNEMONIC_MOV, MNEMONIC_MOVSX, MNEMONIC_MOVZX, MNEMONIC_NEG, MNEMONIC_NOP, MNEMONIC_NOT, MNEMONIC_OR, MNEMONIC_POP,
    MNEMONIC_PUSH, MNEMONIC_RET, MNEMONIC_SUB, MNEMONIC_TEST, MNEMONIC_XOR,
};
use crate::x86::X86Instruction;
use crate::text::push_str;

verus! {

pub const MNEMONIC_PUSHAD: u16 = 1612;
pub const MNEMONIC_POPAD: u16 = 1613;
pub const MNEMONIC_SHL: u16 = 712;
pub const MNEMONIC_SAL: u16 = 676;
pub const MNEMONIC_SHR: u16 = 715;
pub const MNEMONIC_SAR: u16 = 678;
pub const MNEMONIC_IMUL: u16 = 277;
pub const MNEMONIC_JECXZ: u16 = 303;
pub const MNEMONIC_CLD: u16 = 66;
pub const MNEMONIC_STD: u16 = 731;

/// A decoded instruction carries its three operands.
pub open spec fn x86_wf(insn: X86Instruction) -> bool {
    insn.operands@.len() == 3
}

/// The outcome of a write reported as a step's result.
pub open spec fn unit_of(rw: Result<u32, DynamicError>) -> Result<bool, DynamicError> {
    match rw {
        Ok(_) => Ok(false),
        Err(e) => Err(e),
    }
}

/// A failed read: nothing changes and its error is the step's.
pub open spec fn read_failed(
    c: Cpu,
    m: Seq<RegionView>,
    rr: Result<(u32, u32), DynamicError>,
    c2: Cpu,
    m2: Seq<RegionView>,
    r: Result<bool, DynamicError>,
) -> bool {
    rr matches Err(e) && c2 == c && m2 == m && r == Err::<bool, DynamicError>(e)
}

/// The step ends by writing `v` to operand `op` from `(c, m)`.
pub open spec fn ends_writing(
    c: Cpu,
    m: Seq<RegionView>,
    op: Operand,
    v: u32,
    c2: Cpu,
    m2: Seq<RegionView>,
    r: Result<bool, DynamicError>,
) -> bool {
    exists|rw: Result<u32, DynamicError>| #[trigger] write_outcome32(c, m, op, v, c2, m2, rw) && r == unit_of(rw)
}

/// A push of `v`: ESP drops by four and the value's four bytes are written
/// there; `rp` is the write's result.
pub open spec fn pushed(c: Cpu, m: Seq<RegionView>, v: u32, c2: Cpu, m2: Seq<RegionView>, rp: Result<(), DynamicError>) -> bool {
    &&& c2 == (Cpu { esp: vstd::wrapping::u32_specs::wrapping_sub(c.esp, 4), ..c })
    &&& Memory::write_outcome(m, m2, c2.esp, le_bytes(v as nat, 4), false, rp)
}

/// The value on top of the stack and the registers after popping it, or
/// none when the four bytes at ESP cannot be read.
pub open spec fn popped(c: Cpu, m: Seq<RegionView>) -> Option<(u32, Cpu)> {
    match value_at(m, c.esp as int, 4) {
        Some(v) => Some((v as u32, Cpu { esp: vstd::wrapping::u32_specs::wrapping_add(c.esp, 4), ..c })),
        None => None,
    }
}

/// Pushing `vals` in order, stopping at the first failed write.
pub open spec fn pushes(c: Cpu, m: Seq<RegionView>, vals: Seq<u32>, c2: Cpu, m2: Seq<RegionView>, r: Result<bool, DynamicError>) -> bool
    decreases vals.len(),
{
    if vals.len() == 0 {
        c2 == c && m2 == m && r == Ok::<bool, DynamicError>(false)
    } else {
        exists|c1: Cpu, m1: Seq<RegionView>, rp: Result<(), DynamicError>| #[trigger] pushed(c, m, vals[0], c1, m1, rp) && match rp {
            Err(e) => c2 == c1 && m2 == m1 && r == Err::<bool, DynamicError>(e),
            Ok(_) => pushes(c1, m1, vals.drop_first(), c2, m2, r),
        }
    }
}

/// `c` with the register that POPAD fills at position `j` set to `v`
/// (position 3, the saved ESP, is dropped).
pub open spec fn popad_set(c: Cpu, j: int, v: u32) -> Cpu {
    if j == 0 { Cpu { edi: v, ..c } }
    else if j == 1 { Cpu { esi: v, ..c } }
    else if j == 2 { Cpu { ebp: v, ..c } }
    else if j == 3 { c }
    else if j == 4 { Cpu { ebx: v, ..c } }
    else if j == 5 { Cpu { edx: v, ..c } }
    else if j == 6 { Cpu { ecx: v, ..c } }
    else { Cpu { eax: v, ..c } }
}

/// POPAD from position `j`: pops until position 8 or the first pop that
/// cannot read, which ends with a read error at ESP.
pub open spec fn popad_from(c: Cpu, m: Seq<RegionView>, j: int) -> (Cpu, Result<bool, DynamicError>)
    decreases 8 - j,
{
    if j >= 8 || j < 0 {
        (c, Ok(false))
    } else {
        match popped(c, m) {
            None => (c, Err(DynamicError::MemoryRead { address: c.esp as u64 })),
            Some((v, c1)) => popad_from(popad_set(c1, j, v), m, j + 1),
        }
    }
}

/// Whether conditional jump `n` is taken under the flags of `c`.
pub open spec fn condition32(c: Cpu, n: u16) -> bool {
    if n == MNEMONIC_JE { c.zf }
    else if n == MNEMONIC_JNE { !c.zf }
    else if n == MNEMONIC_JA { !c.cf && !c.zf }
    else if n == MNEMONIC_JAE { !c.cf }
    else if n == MNEMONIC_JB { c.cf }
    else if n == MNEMONIC_JBE { c.cf || c.zf }
    else if n == MNEMONIC_JG { !c.zf && c.sf == c.of }
    else if n == MNEMONIC_JGE { c.sf == c.of }
    else if n == MNEMONIC_JL { c.sf != c.of }
    else if n == MNEMONIC_JLE { c.zf || c.sf != c.of }
    else if n == MNEMONIC_JS { c.sf }
    else if n == MNEMONIC_JNS { !c.sf }
    else { false }
}

pub open spec fn is_jcc32(n: u16) -> bool {
    n == MNEMONIC_JE || n == MNEMONIC_JNE || n == MNEMONIC_JA || n == MNEMONIC_JAE || n == MNEMONIC_JB
        || n == MNEMONIC_JBE || n == MNEMONIC_JG || n == MNEMONIC_JGE || n == MNEMONIC_JL || n == MNEMONIC_JLE
        || n == MNEMONIC_JS || n == MNEMONIC_JNS
}

/// `v` sign-extended from 8 or 16 bits to 32 (other widths unchanged).
pub open spec fn sign_extend32(v: u32, size: u32) -> u32 {
    if size == 8 { ((v as i8) as i32) as u32 } else if size == 16 { ((v as i16) as i32) as u32 } else { v }
}

/// The result of ADD, SUB, XOR, AND or OR.
pub open spec fn binary_result(n: u16, left: u32, right: u32) -> u32 {
    if n == MNEMONIC_ADD {
        vstd::wrapping::u32_specs::wrapping_add(left, right)
    } else if n == MNEMONIC_SUB {
        vstd::wrapping::u32_specs::wrapping_sub(left, right)
    } else if n == MNEMONIC_XOR {
        left ^ right
    } else if n == MNEMONIC_AND {
        left & right
    } else {
        left | right
    }
}

/// The flags ADD, SUB and the logical operations set.
pub open spec fn binary_flags(c: Cpu, n: u16, left: u32, right: u32, result: u32, size: u32) -> Cpu {
    if n == MNEMONIC_ADD {
        add_flags_of(c, left, right, result, size)
    } else if n == MNEMONIC_SUB {
        sub_flags_of(c, left, right, result, size)
    } else {
        logic_flags_of(c, result, size)
    }
}

/// The result of SHL/SAL, SHR or SAR by `count` (already below 32).
pub open spec fn shift_result(n: u16, value: u32, count: u32) -> u32 {
    if n == MNEMONIC_SHR {
        value >> count
    } else if n == MNEMONIC_SAR {
        ((value as i32) >> count) as u32
    } else {
        value << count
    }
}

/// The operand IMUL multiplies into (the first of two, the second of three)
/// and the one it multiplies by (the last, at most the third).
pub open spec fn imul_sources(op_count: u32) -> (int, int) {
    (if op_count == 2 { 0 } else { 1 }, if op_count >= 3 { 2 } else { (op_count - 1) as int })
}

/// The signed 32-bit product, wrapping.
pub open spec fn imul_result(left: u32, right: u32) -> u32 {
    vstd::wrapping::i32_specs::wrapping_mul(left as i32, right as i32) as u32
}

/// What the 32-bit core does with `insn` from registers `c` and memory `m`,
/// giving `c2`, `m2` and `r`: `Ok(false)` once executed, `Ok(true)` for an
/// instruction that halts the machine, or the first error, with whatever
/// was changed before it.
pub open spec fn x86_core(
    c: Cpu,
    m: Seq<RegionView>,
    insn: X86Instruction,
    c2: Cpu,
    m2: Seq<RegionView>,
    r: Result<bool, DynamicError>,
) -> bool {
    let n = insn.mnemonic;
    let ops = insn.operands@;
    if n == MNEMONIC_MOV || n == MNEMONIC_MOVZX || n == MNEMONIC_MOVSX {
        exists|rr: Result<(u32, u32), DynamicError>| #[trigger] read_outcome(c, m, ops[1], rr) && match rr {
            Err(_) => read_failed(c, m, rr, c2, m2, r),
            Ok((v, size)) => ends_writing(c, m, ops[0], if n == MNEMONIC_MOVSX { sign_extend32(v, size) } else { v }, c2, m2, r),
        }
    } else if n == MNEMONIC_LEA {
        match ops[1] {
            Operand::Memory(mo) => match (register_value(c, mo.base), register_value(c, mo.index)) {
                (Some(b), Some(i)) => ends_writing(c, m, ops[0], address_of(c, mo, b, i), c2, m2, r),
                _ => c2 == c && m2 == m && r matches Err(DynamicError::UnsupportedRegister(_)),
            },
            _ => c2 == c && m2 == m && (r matches Err(DynamicError::UnsupportedOperand(s)) && s@ == "lea without a memory operand"@),
        }
    } else if n == MNEMONIC_PUSH {
        exists|rr: Result<(u32, u32), DynamicError>| #[trigger] read_outcome(c, m, ops[0], rr) && match rr {
            Err(_) => read_failed(c, m, rr, c2, m2, r),
            Ok((v, _)) => exists|rp: Result<(), DynamicError>| #[trigger] pushed(c, m, v, c2, m2, rp) && r == match rp {
                Ok(_) => Ok::<bool, DynamicError>(false),
                Err(e) => Err(e),
            },
        }
    } else if n == MNEMONIC_POP {
        match popped(c, m) {
            None => c2 == c && m2 == m && r == Err::<bool, DynamicError>(DynamicError::MemoryRead { address: c.esp as u64 }),
            Some((v, c1)) => ends_writing(c1, m, ops[0], v, c2, m2, r),
        }
    } else if n == MNEMONIC_PUSHAD {
        pushes(c, m, seq![c.eax, c.ecx, c.edx, c.ebx, c.esp, c.ebp, c.esi, c.edi], c2, m2, r)
    } else if n == MNEMONIC_POPAD {
        m2 == m && (c2, r) == popad_from(c, m, 0)
    } else if n == MNEMONIC_CALL {
        exists|rr: Result<(u32, u32), DynamicError>| #[trigger] read_outcome(c, m, ops[0], rr) && match rr {
            Err(_) => read_failed(c, m, rr, c2, m2, r),
            Ok((target, _)) => exists|c1: Cpu, rp: Result<(), DynamicError>| #[trigger] pushed(c, m, c.eip, c1, m2, rp) && match rp {
                Ok(_) => c2 == (Cpu { eip: target, ..c1 }) && r == Ok::<bool, DynamicError>(false),
                Err(e) => c2 == c1 && r == Err::<bool, DynamicError>(e),
            },
        }
    } else if n == MNEMONIC_RET {
        match popped(c, m) {
            None => c2 == c && m2 == m && r == Err::<bool, DynamicError>(DynamicError::MemoryRead { address: c.esp as u64 }),
            Some((v, c1)) => m2 == m && r == Ok::<bool, DynamicError>(false) && c2 == if insn.op_count > 0 {
                Cpu { eip: v, esp: vstd::wrapping::u32_specs::wrapping_add(c1.esp, insn.immediate16 as u32), ..c1 }
            } else {
                Cpu { eip: v, ..c1 }
            },
        }
    } else if n == MNEMONIC_LEAVE {
        let c0 = Cpu { esp: c.ebp, ..c };
        match popped(c0, m) {
            None => c2 == c0 && m2 == m && r == Err::<bool, DynamicError>(DynamicError::MemoryRead { address: c.ebp as u64 }),
            Some((v, c1)) => m2 == m && r == Ok::<bool, DynamicError>(false) && c2 == (Cpu { ebp: v, ..c1 }),
        }
    } else if n == MNEMONIC_ADD || n == MNEMONIC_SUB || n == MNEMONIC_XOR || n == MNEMONIC_AND || n == MNEMONIC_OR
        || n == MNEMONIC_CMP || n == MNEMONIC_TEST || n == MNEMONIC_SHL || n == MNEMONIC_SAL || n == MNEMONIC_SHR
        || n == MNEMONIC_SAR {
        exists|rl: Result<(u32, u32), DynamicError>| #[trigger] read_outcome(c, m, ops[0], rl) && match rl {
            Err(_) => read_failed(c, m, rl, c2, m2, r),
            Ok((left, size)) => exists|rr: Result<(u32, u32), DynamicError>| #[trigger] read_outcome(c, m, ops[1], rr) && match rr {
                Err(_) => read_failed(c, m, rr, c2, m2, r),
                Ok((right, _)) => if n == MNEMONIC_CMP {
                    m2 == m && r == Ok::<bool, DynamicError>(false)
                        && c2 == sub_flags_of(c, left, right, vstd::wrapping::u32_specs::wrapping_sub(left, right), size)
                } else if n == MNEMONIC_TEST {
                    m2 == m && r == Ok::<bool, DynamicError>(false) && c2 == logic_flags_of(c, left & right, size)
                } else if n == MNEMONIC_SHL || n == MNEMONIC_SAL || n == MNEMONIC_SHR || n == MNEMONIC_SAR {
                    let result = shift_result(n, left, right & 0x1f);
                    ends_writing(logic_flags_of(c, result, size), m, ops[0], result, c2, m2, r)
                } else {
                    let result = binary_result(n, left, right);
                    ends_writing(binary_flags(c, n, left, right, result, size), m, ops[0], result, c2, m2, r)
                },
            },
        }
    } else if n == MNEMONIC_INC || n == MNEMONIC_DEC || n == MNEMONIC_NEG || n == MNEMONIC_NOT {
        exists|rr: Result<(u32, u32), DynamicError>| #[trigger] read_outcome(c, m, ops[0], rr) && match rr {
            Err(_) => read_failed(c, m, rr, c2, m2, r),
            Ok((v, size)) => if n == MNEMONIC_INC {
                let result = vstd::wrapping::u32_specs::wrapping_add(v, 1);
                ends_writing(Cpu { cf: c.cf, ..add_flags_of(c, v, 1, result, size) }, m, ops[0], result, c2, m2, r)
            } else if n == MNEMONIC_DEC {
                let result = vstd::wrapping::u32_specs::wrapping_sub(v, 1);
                ends_writing(Cpu { cf: c.cf, ..sub_flags_of(c, v, 1, result, size) }, m, ops[0], result, c2, m2, r)
            } else if n == MNEMONIC_NEG {
                let result = vstd::wrapping::u32_specs::wrapping_sub(0, v);
                ends_writing(sub_flags_of(c, 0, v, result, size), m, ops[0], result, c2, m2, r)
            } else {
                ends_writing(c, m, ops[0], !v, c2, m2, r)
            },
        }
    } else if n == MNEMONIC_IMUL {
        if insn.op_count < 2 {
            c2 == c && m2 == m && (r matches Err(DynamicError::UnsupportedOperand(s)) && s@ == "single-operand imul"@)
        } else {
            let (a, b) = imul_sources(insn.op_count);
            exists|rl: Result<(u32, u32), DynamicError>| #[trigger] read_outcome(c, m, ops[a], rl) && match rl {
                Err(_) => read_failed(c, m, rl, c2, m2, r),
                Ok((left, _)) => exists|rr: Result<(u32, u32), DynamicError>| #[trigger] read_outcome(c, m, ops[b], rr) && match rr {
                    Err(_) => read_failed(c, m, rr, c2, m2, r),
                    Ok((right, _)) => exists|c1: Cpu, rw: Result<u32, DynamicError>| #[trigger] write_outcome32(c, m, ops[0], imul_result(left, right), c1, m2, rw) && match rw {
                        Ok(_) => c2 == logic_flags_of(c1, imul_result(left, right), 32) && r == Ok::<bool, DynamicError>(false),
                        Err(e) => c2 == c1 && r == Err::<bool, DynamicError>(e),
                    },
                },
            }
        }
    } else if n == MNEMONIC_JMP || is_jcc32(n) || n == MNEMONIC_JECXZ {
        let taken = if n == MNEMONIC_JMP { true } else if n == MNEMONIC_JECXZ { c.ecx == 0 } else { condition32(c, n) };
        if !taken {
            c2 == c && m2 == m && r == Ok::<bool, DynamicError>(false)
        } else {
            exists|rr: Result<(u32, u32), DynamicError>| #[trigger] read_outcome(c, m, ops[0], rr) && match rr {
                Err(_) => read_failed(c, m, rr, c2, m2, r),
                Ok((target, _)) => m2 == m && r == Ok::<bool, DynamicError>(false) && c2 == (Cpu { eip: target, ..c }),
            }
        }
    } else if n == MNEMONIC_CDQ {
        m2 == m && r == Ok::<bool, DynamicError>(false) && c2 == (Cpu { edx: if c.eax & 0x8000_0000 != 0 { u32::MAX } else { 0 }, ..c })
    } else if n == MNEMONIC_CLD || n == MNEMONIC_STD {
        m2 == m && r == Ok::<bool, DynamicError>(false) && c2 == (Cpu { direction: n == MNEMONIC_STD, ..c })
    } else if n == MNEMONIC_NOP {
        c2 == c && m2 == m && r == Ok::<bool, DynamicError>(false)
    } else if n == MNEMONIC_INT3 || n == MNEMONIC_HLT {
        c2 == c && m2 == m && r == Ok::<bool, DynamicError>(true)
    } else {
        c2 == c && m2 == m && (r matches Err(DynamicError::UnsupportedOperand(s)) && s@ == "mnemonic "@ + insn.mnemonic_name@)
    }
}


/// After `cmp a, b` (the flags of `a - b` at 32 bits), each conditional
/// jump is taken exactly when its comparison holds: JE and JNE on equality,
/// JA, JAE, JB and JBE on the unsigned values, JG, JGE, JL and JLE on the
/// signed values, JS and JNS on the sign of the difference; JECXZ on ECX.
pub proof fn law_compare_then_branch32(c: Cpu, a: u32, b: u32)
    ensures
        ({
            let d = vstd::wrapping::u32_specs::wrapping_sub(a, b);
            let f = sub_flags_of(c, a, b, d, 32);
            &&& condition32(f, MNEMONIC_JE) == (a == b)
            &&& condition32(f, MNEMONIC_JNE) == (a != b)
            &&& condition32(f, MNEMONIC_JA) == (a > b)
            &&& condition32(f, MNEMONIC_JAE) == (a >= b)
            &&& condition32(f, MNEMONIC_JB) == (a < b)
            &&& condition32(f, MNEMONIC_JBE) == (a <= b)
            &&& condition32(f, MNEMONIC_JG) == ((a as i32) > (b as i32))
            &&& condition32(f, MNEMONIC_JGE) == ((a as i32) >= (b as i32))
            &&& condition32(f, MNEMONIC_JL) == ((a as i32) < (b as i32))
            &&& condition32(f, MNEMONIC_JLE) == ((a as i32) <= (b as i32))
            &&& condition32(f, MNEMONIC_JS) == ((d as i32) < 0)
            &&& condition32(f, MNEMONIC_JNS) == ((d as i32) >= 0)
        }),
{
    let d = vstd::wrapping::u32_specs::wrapping_sub(a, b);
    let l = a & 0xffff_ffff;
    let rr = b & 0xffff_ffff;
    let res = d & 0xffff_ffff;
    assert(l == a && rr == b && res == d) by (bit_vector)
        requires
            l == a & 0xffff_ffff,
            rr == b & 0xffff_ffff,
            res == d & 0xffff_ffff,
    ;
    assert(d == (if a >= b { a - b } else { a - b + 0x1_0000_0000 }) as u32);
    assert(mask_of(32) == 0xffff_ffffu32 && sign_of(32) == 0x8000_0000u32);
    let f = sub_flags_of(c, a, b, d, 32);
    assert(f.zf == (d == 0) && f.cf == (a < b) && f.sf == (d & 0x8000_0000 != 0)
        && f.of == (((a ^ b) & (a ^ d) & 0x8000_0000) != 0));
    assert({
        &&& (d == 0) == (a == b)
        &&& ((d & 0x8000_0000 != 0) != (((a ^ b) & (a ^ d) & 0x8000_0000) != 0)) == ((a as i32) < (b as i32))
        &&& (d & 0x8000_0000 != 0) == ((d as i32) < 0)
        &&& (a == b) == ((a as i32) == (b as i32))
    }) by (bit_vector)
        requires
            d == (if a >= b { a - b } else { a - b + 0x1_0000_0000 }) as u32,
    ;
}

/// `v` sign-extended from 8 or 16 bits.
fn sign_extended32(v: u32, size: u32) -> (r: u32)
    ensures
        r == sign_extend32(v, size),
{
    if size == 8 {
        v as i8 as i32 as u32
    } else if size == 16 {
        v as i16 as i32 as u32
    } else {
        v
    }
}

/// The requires and ensures every step shares, written once per step.
/// MOV, MOVZX and MOVSX: the source (sign-extended for MOVSX) to the destination.
fn step_move(cpu: &mut Cpu, memory: &mut Memory, insn: &X86Instruction) -> (r: Result<bool, DynamicError>)
    requires
        old(memory).wf(),
        x86_wf(*insn),
        insn.mnemonic == MNEMONIC_MOV || insn.mnemonic == MNEMONIC_MOVZX || insn.mnemonic == MNEMONIC_MOVSX,
    ensures
        final(memory).wf(),
        final(memory).allocated_bytes() == old(memory).allocated_bytes(),
        x86_core(*old(cpu), old(memory)@, *insn, *final(cpu), final(memory)@, r),
{
    let rr = cpu.read_operand(memory, &insn.operands[1]);
    match rr {
        Err(e) => Err(e),
        Ok((v, size)) => {
            let v = if insn.mnemonic == MNEMONIC_MOVSX { sign_extended32(v, size) } else { v };
            let rw = cpu.write_operand(memory, &insn.operands[0], v);
            match rw {
                Ok(_) => Ok(false),
                Err(e) => Err(e),
            }
        },
    }
}

/// LEA: the memory operand's address to the destination.
fn step_lea(cpu: &mut Cpu, memory: &mut Memory, insn: &X86Instruction) -> (r: Result<bool, DynamicError>)
    requires
        old(memory).wf(),
        x86_wf(*insn),
        insn.mnemonic == MNEMONIC_LEA,
    ensures
        final(memory).wf(),
        final(memory).allocated_bytes() == old(memory).allocated_bytes(),
        x86_core(*old(cpu), old(memory)@, *insn, *final(cpu), final(memory)@, r),
{
    match &insn.operands[1] {
        Operand::Memory(mo) => {
            let address = match cpu.effective_address(mo) {
                Ok(a) => a,
                Err(e) => return Err(e),
            };
            let rw = cpu.write_operand(memory, &insn.operands[0], address);
            match rw {
                Ok(_) => Ok(false),
                Err(e) => Err(e),
            }
        },
        _ => Err(DynamicError::UnsupportedOperand("lea without a memory operand".to_owned())),
    }
}

/// PUSH, POP, CALL, RET and LEAVE.
fn step_stack(cpu: &mut Cpu, memory: &mut Memory, insn: &X86Instruction) -> (r: Result<bool, DynamicError>)
    requires
        old(memory).wf(),
        x86_wf(*insn),
        insn.mnemonic == MNEMONIC_PUSH || insn.mnemonic == MNEMONIC_POP || insn.mnemonic == MNEMONIC_CALL
            || insn.mnemonic == MNEMONIC_RET || insn.mnemonic == MNEMONIC_LEAVE,
    ensures
        final(memory).wf(),
        final(memory).allocated_bytes() == old(memory).allocated_bytes(),
        x86_core(*old(cpu), old(memory)@, *insn, *final(cpu), final(memory)@, r),
{
    let n = insn.mnemonic;
    let ghost c = *cpu;
    let ghost m = memory@;
    if n == MNEMONIC_PUSH || n == MNEMONIC_CALL {
        let rr = cpu.read_operand(memory, &insn.operands[0]);
        let (value, _) = match rr {
            Ok(p) => p,
            Err(e) => return Err(e),
        };
        let stored = if n == MNEMONIC_PUSH { value } else { cpu.eip };
        let rp = cpu.push(memory, stored);
        assert(pushed(c, m, stored, *cpu, memory@, rp));
        match rp {
            Ok(()) => {
                if n == MNEMONIC_CALL {
                    cpu.eip = value;
                }
                Ok(false)
            },
            Err(e) => Err(e),
        }
    } else if n == MNEMONIC_POP {
        let value = match cpu.pop(memory) {
            Ok(v) => v,
            Err(e) => return Err(e),
        };
        let rw = cpu.write_operand(memory, &insn.operands[0], value);
        match rw {
            Ok(_) => Ok(false),
            Err(e) => Err(e),
        }
    } else if n == MNEMONIC_RET {
        let target = match cpu.pop(memory) {
            Ok(v) => v,
            Err(e) => return Err(e),
        };
        cpu.eip = target;
        if insn.op_count > 0 {
            cpu.esp = cpu.esp.wrapping_add(insn.immediate16 as u32);
        }
        Ok(false)
    } else {
        cpu.esp = cpu.ebp;
        let value = match cpu.pop(memory) {
            Ok(v) => v,
            Err(e) => return Err(e),
        };
        cpu.ebp = value;
        Ok(false)
    }
}

/// PUSHAD: EAX, ECX, EDX, EBX, the original ESP, EBP, ESI and EDI.
fn step_pushad(cpu: &mut Cpu, memory: &mut Memory, insn: &X86Instruction) -> (r: Result<bool, DynamicError>)
    requires
        old(memory).wf(),
        x86_wf(*insn),
        insn.mnemonic == MNEMONIC_PUSHAD,
    ensures
        final(memory).wf(),
        final(memory).allocated_bytes() == old(memory).allocated_bytes(),
        x86_core(*old(cpu), old(memory)@, *insn, *final(cpu), final(memory)@, r),
{
    let ghost c0 = *cpu;
    let ghost m0 = memory@;
    let vals: Vec<u32> = vec![cpu.eax, cpu.ecx, cpu.edx, cpu.ebx, cpu.esp, cpu.ebp, cpu.esi, cpu.edi];
    let mut j: usize = 0;
    assert(vals@.skip(0) =~= vals@);
    while j < 8
        invariant
            memory.wf(),
            memory.allocated_bytes() == old(memory).allocated_bytes(),
            j <= 8,
            insn.mnemonic == MNEMONIC_PUSHAD,
            c0 == *old(cpu) && m0 == old(memory)@,
            vals@ == seq![c0.eax, c0.ecx, c0.edx, c0.ebx, c0.esp, c0.ebp, c0.esi, c0.edi],
            forall|c2: Cpu, m2: Seq<RegionView>, r: Result<bool, DynamicError>|
                pushes(*cpu, memory@, vals@.skip(j as int), c2, m2, r) ==> pushes(c0, m0, vals@, c2, m2, r),
        decreases 8 - j,
    {
        let ghost cb = *cpu;
        let ghost mb = memory@;
        let rp = cpu.push(memory, vals[j]);
        proof {
            let s = vals@.skip(j as int);
            assert(s[0] == vals@[j as int]);
            assert(pushed(cb, mb, s[0], *cpu, memory@, rp));
            assert(s.drop_first() =~= vals@.skip(j + 1));
        }
        match rp {
            Err(e) => {
                proof {
                    assert(pushes(cb, mb, vals@.skip(j as int), *cpu, memory@, Err::<bool, DynamicError>(e)));
                    assert(pushes(c0, m0, vals@, *cpu, memory@, Err::<bool, DynamicError>(e)));
                }
                return Err(e);
            },
            Ok(()) => {},
        }
        proof {
            assert forall|c2: Cpu, m2: Seq<RegionView>, r: Result<bool, DynamicError>|
                pushes(*cpu, memory@, vals@.skip(j + 1), c2, m2, r) implies pushes(c0, m0, vals@, c2, m2, r) by {
                assert(vals@.skip(j as int).drop_first() =~= vals@.skip(j + 1));
                assert(pushes(cb, mb, vals@.skip(j as int), c2, m2, r));
            }
        }
        j = j + 1;
    }
    proof {
        assert(vals@.skip(8) =~= Seq::<u32>::empty());
        assert(vals@.skip(0) =~= vals@);
    }
    Ok(false)
}

/// POPAD: EDI, ESI, EBP, (the saved ESP, dropped), EBX, EDX, ECX and EAX.
fn step_popad(cpu: &mut Cpu, memory: &Memory, insn: &X86Instruction) -> (r: Result<bool, DynamicError>)
    requires
        memory.wf(),
        insn.mnemonic == MNEMONIC_POPAD,
    ensures
        (*final(cpu), r) == popad_from(*old(cpu), memory@, 0),
{
    let mut j: usize = 0;
    while j < 8
        invariant
            memory.wf(),
            j <= 8,
            popad_from(*cpu, memory@, j as int) == popad_from(*old(cpu), memory@, 0),
        decreases 8 - j,
    {
        let value = match cpu.pop(memory) {
            Ok(v) => v,
            Err(e) => return Err(e),
        };
        if j == 0 {
            cpu.edi = value;
        } else if j == 1 {
            cpu.esi = value;
        } else if j == 2 {
            cpu.ebp = value;
        } else if j == 4 {
            cpu.ebx = value;
        } else if j == 5 {
            cpu.edx = value;
        } else if j == 6 {
            cpu.ecx = value;
        } else if j == 7 {
            cpu.eax = value;
        }
        j = j + 1;
    }
    Ok(false)
}

/// ADD, SUB, XOR, AND, OR, CMP, TEST and the shifts.
fn step_binary(cpu: &mut Cpu, memory: &mut Memory, insn: &X86Instruction) -> (r: Result<bool, DynamicError>)
    requires
        old(memory).wf(),
        x86_wf(*insn),
        insn.mnemonic == MNEMONIC_ADD || insn.mnemonic == MNEMONIC_SUB || insn.mnemonic == MNEMONIC_XOR
            || insn.mnemonic == MNEMONIC_AND || insn.mnemonic == MNEMONIC_OR || insn.mnemonic == MNEMONIC_CMP
            || insn.mnemonic == MNEMONIC_TEST || insn.mnemonic == MNEMONIC_SHL || insn.mnemonic == MNEMONIC_SAL
            || insn.mnemonic == MNEMONIC_SHR || insn.mnemonic == MNEMONIC_SAR,
    ensures
        final(memory).wf(),
        final(memory).allocated_bytes() == old(memory).allocated_bytes(),
        x86_core(*old(cpu), old(memory)@, *insn, *final(cpu), final(memory)@, r),
{
    let n = insn.mnemonic;
    let rl = cpu.read_operand(memory, &insn.operands[0]);
    let (left, size) = match rl {
        Ok(p) => p,
        Err(e) => return Err(e),
    };
    let rr = cpu.read_operand(memory, &insn.operands[1]);
    let (right, _) = match rr {
        Ok(p) => p,
        Err(e) => return Err(e),
    };
    if n == MNEMONIC_CMP {
        cpu.set_sub_flags(left, right, left.wrapping_sub(right), size);
        return Ok(false);
    }
    if n == MNEMONIC_TEST {
        cpu.set_logic_flags(left & right, size);
        return Ok(false);
    }
    let count = right & 0x1f;
    assert(count < 32) by (bit_vector)
        requires
            count == right & 0x1f,
    ;
    let result = if n == MNEMONIC_SHL || n == MNEMONIC_SAL {
        left << count
    } else if n == MNEMONIC_SHR {
        left >> count
    } else if n == MNEMONIC_SAR {
        ((left as i32) >> count) as u32
    } else if n == MNEMONIC_ADD {
        left.wrapping_add(right)
    } else if n == MNEMONIC_SUB {
        left.wrapping_sub(right)
    } else if n == MNEMONIC_XOR {
        left ^ right
    } else if n == MNEMONIC_AND {
        left & right
    } else {
        left | right
    };
    if n == MNEMONIC_ADD {
        cpu.set_add_flags(left, right, result, size);
    } else if n == MNEMONIC_SUB {
        cpu.set_sub_flags(left, right, result, size);
    } else {
        cpu.set_logic_flags(result, size);
    }
    let rw = cpu.write_operand(memory, &insn.operands[0], result);
    match rw {
        Ok(_) => Ok(false),
        Err(e) => Err(e),
    }
}

/// INC and DEC (CF kept), NEG and NOT (no flags).
fn step_unary(cpu: &mut Cpu, memory: &mut Memory, insn: &X86Instruction) -> (r: Result<bool, DynamicError>)
    requires
        old(memory).wf(),
        x86_wf(*insn),
        insn.mnemonic == MNEMONIC_INC || insn.mnemonic == MNEMONIC_DEC || insn.mnemonic == MNEMONIC_NEG
            || insn.mnemonic == MNEMONIC_NOT,
    ensures
        final(memory).wf(),
        final(memory).allocated_bytes() == old(memory).allocated_bytes(),
        x86_core(*old(cpu), old(memory)@, *insn, *final(cpu), final(memory)@, r),
{
    let n = insn.mnemonic;
    let rr = cpu.read_operand(memory, &insn.operands[0]);
    let (value, size) = match rr {
        Ok(p) => p,
        Err(e) => return Err(e),
    };
    let carry = cpu.cf;
    let result = if n == MNEMONIC_INC {
        value.wrapping_add(1)
    } else if n == MNEMONIC_DEC {
        value.wrapping_sub(1)
    } else if n == MNEMONIC_NEG {
        0u32.wrapping_sub(value)
    } else {
        !value
    };
    if n == MNEMONIC_INC {
        cpu.set_add_flags(value, 1, result, size);
        cpu.cf = carry;
    } else if n == MNEMONIC_DEC {
        cpu.set_sub_flags(value, 1, result, size);
        cpu.cf = carry;
    } else if n == MNEMONIC_NEG {
        cpu.set_sub_flags(0, value, result, size);
    }
    let rw = cpu.write_operand(memory, &insn.operands[0], result);
    match rw {
        Ok(_) => Ok(false),
        Err(e) => Err(e),
    }
}

/// IMUL of two or three operands: the signed product to the destination,
/// then logic flags at 32 bits.
fn step_imul(cpu: &mut Cpu, memory: &mut Memory, insn: &X86Instruction) -> (r: Result<bool, DynamicError>)
    requires
        old(memory).wf(),
        x86_wf(*insn),
        insn.mnemonic == MNEMONIC_IMUL,
    ensures
        final(memory).wf(),
        final(memory).allocated_bytes() == old(memory).allocated_bytes(),
        x86_core(*old(cpu), old(memory)@, *insn, *final(cpu), final(memory)@, r),
{
    if insn.op_count < 2 {
        return Err(DynamicError::UnsupportedOperand("single-operand imul".to_owned()));
    }
    let a: usize = if insn.op_count == 2 { 0 } else { 1 };
    let b: usize = if insn.op_count >= 3 { 2 } else { (insn.op_count - 1) as usize };
    assert(a as int == imul_sources(insn.op_count).0 && b as int == imul_sources(insn.op_count).1);
    let rl = cpu.read_operand(memory, &insn.operands[a]);
    let (left, _) = match rl {
        Ok(p) => p,
        Err(e) => return Err(e),
    };
    let rr = cpu.read_operand(memory, &insn.operands[b]);
    let (right, _) = match rr {
        Ok(p) => p,
        Err(e) => return Err(e),
    };
    let result = (left as i32).wrapping_mul(right as i32) as u32;
    assert(result == imul_result(left, right));
    let rw = cpu.write_operand(memory, &insn.operands[0], result);
    let ghost c1 = *cpu;
    match rw {
        Ok(_) => {
            cpu.set_logic_flags(result, 32);
            assert(*cpu == logic_flags_of(c1, imul_result(left, right), 32));
            Ok(false)
        },
        Err(e) => Err(e),
    }
}

impl Cpu {
    /// Whether conditional jump `mnemonic` is taken under the current flags.
    pub fn condition(&self, mnemonic: u16) -> (b: bool)
        ensures
            b == condition32(*self, mnemonic),
    {
        if mnemonic == MNEMONIC_JE {
            self.zf
        } else if mnemonic == MNEMONIC_JNE {
            !self.zf
        } else if mnemonic == MNEMONIC_JA {
            !self.cf && !self.zf
        } else if mnemonic == MNEMONIC_JAE {
            !self.cf
        } else if mnemonic == MNEMONIC_JB {
            self.cf
        } else if mnemonic == MNEMONIC_JBE {
            self.cf || self.zf
        } else if mnemonic == MNEMONIC_JG {
            !self.zf && self.sf == self.of
        } else if mnemonic == MNEMONIC_JGE {
            self.sf == self.of
        } else if mnemonic == MNEMONIC_JL {
            self.sf != self.of
        } else if mnemonic == MNEMONIC_JLE {
            self.zf || self.sf != self.of
        } else if mnemonic == MNEMONIC_JS {
            self.sf
        } else if mnemonic == MNEMONIC_JNS {
            !self.sf
        } else {
            false
        }
    }
}

/// JMP, the conditional jumps and JECXZ: when taken, the target operand
/// becomes EIP.
fn step_jump(cpu: &mut Cpu, memory: &Memory, insn: &X86Instruction) -> (r: Result<bool, DynamicError>)
    requires
        memory.wf(),
        x86_wf(*insn),
        insn.mnemonic == MNEMONIC_JMP || is_jcc32(insn.mnemonic) || insn.mnemonic == MNEMONIC_JECXZ,
    ensures
        x86_core(*old(cpu), memory@, *insn, *final(cpu), memory@, r),
{
    let n = insn.mnemonic;
    let taken = if n == MNEMONIC_JMP {
        true
    } else if n == MNEMONIC_JECXZ {
        cpu.ecx == 0
    } else {
        cpu.condition(n)
    };
    if !taken {
        return Ok(false);
    }
    let rr = cpu.read_operand(memory, &insn.operands[0]);
    let (target, _) = match rr {
        Ok(p) => p,
        Err(e) => return Err(e),
    };
    cpu.eip = target;
    Ok(false)
}

fn unsupported_mnemonic(insn: &X86Instruction) -> (e: DynamicError)
    ensures
        e matches DynamicError::UnsupportedOperand(s) && s@ == "mnemonic "@ + insn.mnemonic_name@,
{
    let mut s = "mnemonic ".to_owned();
    push_str(&mut s, insn.mnemonic_name.as_str());
    DynamicError::UnsupportedOperand(s)
}

/// Executes a 32-bit instruction against the register file and guest
/// memory. `Ok(true)` asks the machine to halt (INT3, HLT).
pub fn execute_x86(cpu: &mut Cpu, memory: &mut Memory, insn: &X86Instruction) -> (r: Result<bool, DynamicError>)
    requires
        old(memory).wf(),
        x86_wf(*insn),
    ensures
        final(memory).wf(),
        final(memory).allocated_bytes() == old(memory).allocated_bytes(),
        x86_core(*old(cpu), old(memory)@, *insn, *final(cpu), final(memory)@, r),
{
    let n = insn.mnemonic;
    if n == MNEMONIC_MOV || n == MNEMONIC_MOVZX || n == MNEMONIC_MOVSX {
        step_move(cpu, memory, insn)
    } else if n == MNEMONIC_LEA {
        step_lea(cpu, memory, insn)
    } else if n == MNEMONIC_PUSH || n == MNEMONIC_POP || n == MNEMONIC_CALL || n == MNEMONIC_RET || n == MNEMONIC_LEAVE {
        step_stack(cpu, memory, insn)
    } else if n == MNEMONIC_PUSHAD {
        step_pushad(cpu, memory, insn)
    } else if n == MNEMONIC_POPAD {
        step_popad(cpu, memory, insn)
    } else if n == MNEMONIC_ADD || n == MNEMONIC_SUB || n == MNEMONIC_XOR || n == MNEMONIC_AND || n == MNEMONIC_OR
        || n == MNEMONIC_CMP || n == MNEMONIC_TEST || n == MNEMONIC_SHL || n == MNEMONIC_SAL || n == MNEMONIC_SHR
        || n == MNEMONIC_SAR {
        step_binary(cpu, memory, insn)
    } else if n == MNEMONIC_INC || n == MNEMONIC_DEC || n == MNEMONIC_NEG || n == MNEMONIC_NOT {
        step_unary(cpu, memory, insn)
    } else if n == MNEMONIC_IMUL {
        step_imul(cpu, memory, insn)
    } else if n == MNEMONIC_JMP || n == MNEMONIC_JECXZ || n == MNEMONIC_JE || n == MNEMONIC_JNE || n == MNEMONIC_JA
        || n == MNEMONIC_JAE || n == MNEMONIC_JB || n == MNEMONIC_JBE || n == MNEMONIC_JG || n == MNEMONIC_JGE
        || n == MNEMONIC_JL || n == MNEMONIC_JLE || n == MNEMONIC_JS || n == MNEMONIC_JNS {
        step_jump(cpu, memory, insn)
    } else if n == MNEMONIC_CDQ {
        cpu.edx = if cpu.eax & 0x8000_0000 != 0 { u32::MAX } else { 0 };
        Ok(false)
    } else if n == MNEMONIC_CLD {
        cpu.direction = false;
        Ok(false)
    } else if n == MNEMONIC_STD {
        cpu.direction = true;
        Ok(false)
    } else if n == MNEMONIC_NOP {
        Ok(false)
    } else if n == MNEMONIC_INT3 || n == MNEMONIC_HLT {
        Ok(true)
    } else {
        Err(unsupported_mnemonic(insn))
    }
}

} // verus!
