//! The 32-bit x86 register file and flags, and operand access through guest memory.
use vstd::prelude::*;

use crate::dynamic_error::DynamicError;
use crate::memory::{Memory, value_at, lemma_value_at, law_read_after_write, lemma_le_round_trip, is_first, region_contains, regions_wf, writable, readable, RegionView, lemma_le_value_1, lemma_le_value_2, le_bytes};
use crate::text::{decimal, push_decimal, push_str};

verus! {

/// The registers the 32-bit interpreter addresses; anything else is kept by name.
#[derive(Debug, Clone, PartialEq, Eq)]
pub enum Register {
    Absent,
    EAX,
    EBX,
    ECX,
    EDX,
    ESI,
    EDI,
    EBP,
    ESP,
    EIP,
    AX,
    BX,
    CX,
    DX,
    SI,
    DI,
    BP,
    SP,
    AL,
    AH,
    BL,
    BH,
    CL,
    CH,
    DL,
    DH,
    Other(String),
}

/// The 32-bit register file and status flags.
#[derive(Debug, Clone, Copy, PartialEq, Eq)]
pub struct Cpu {
    pub eax: u32,
    pub ebx: u32,
    pub ecx: u32,
    pub edx: u32,
    pub esi: u32,
    pub edi: u32,
    pub ebp: u32,
    pub esp: u32,
    pub eip: u32,
    pub fs_base: u32,
    pub zf: bool,
    pub sf: bool,
    pub cf: bool,
    pub of: bool,
    pub pf: bool,
    pub af: bool,
    pub direction: bool,
}

impl Default for Cpu {
    fn default() -> (c: Cpu)
        ensures
            c == zero_cpu(),
    {
        Cpu {
            eax: 0,
            ebx: 0,
            ecx: 0,
            edx: 0,
            esi: 0,
            edi: 0,
            ebp: 0,
            esp: 0,
            eip: 0,
            fs_base: 0,
            zf: false,
            sf: false,
            cf: false,
            of: false,
            pf: false,
            af: false,
            direction: false,
        }
    }
}

/// A CPU with every register and flag clear.
pub open spec fn zero_cpu() -> Cpu {
    Cpu {
        eax: 0,
        ebx: 0,
        ecx: 0,
        edx: 0,
        esi: 0,
        edi: 0,
        ebp: 0,
        esp: 0,
        eip: 0,
        fs_base: 0,
        zf: false,
        sf: false,
        cf: false,
        of: false,
        pf: false,
        af: false,
        direction: false,
    }
}

/// Width in bits of a register operand.
pub open spec fn register_bits(r: Register) -> u32 {
    match r {
        Register::AL | Register::AH | Register::BL | Register::BH | Register::CL | Register::CH | Register::DL
        | Register::DH => 8,
        Register::AX | Register::BX | Register::CX | Register::DX | Register::SI | Register::DI | Register::BP
        | Register::SP => 16,
        _ => 32,
    }
}

pub fn register_size(register: &Register) -> (bits: u32)
    ensures
        bits == register_bits(*register),
{
    match register {
        Register::AL | Register::AH | Register::BL | Register::BH | Register::CL | Register::CH | Register::DL
        | Register::DH => 8,
        Register::AX | Register::BX | Register::CX | Register::DX | Register::SI | Register::DI | Register::BP
        | Register::SP => 16,
        _ => 32,
    }
}

/// All-ones mask of an operand width (8, 16, or anything else as 32 bits).
pub open spec fn mask_of(size: u32) -> u32 {
    if size == 8 {
        0xff
    } else if size == 16 {
        0xffff
    } else {
        0xffff_ffff
    }
}

/// Top bit of an operand width.
pub open spec fn sign_of(size: u32) -> u32 {
    if size == 8 {
        0x80
    } else if size == 16 {
        0x8000
    } else {
        0x8000_0000
    }
}

pub fn bit_mask(size: u32) -> (m: u32)
    ensures
        m == mask_of(size),
{
    if size == 8 {
        0xff
    } else if size == 16 {
        0xffff
    } else {
        u32::MAX
    }
}

/// `value` cut to an operand width.
pub fn mask(value: u32, size: u32) -> (m: u32)
    ensures
        m == value & mask_of(size),
{
    value & bit_mask(size)
}

pub fn sign_bit(size: u32) -> (b: u32)
    ensures
        b == sign_of(size),
{
    if size == 8 {
        0x80
    } else if size == 16 {
        0x8000
    } else {
        0x8000_0000
    }
}

/// Number of set bits.
pub open spec fn popcount(v: nat) -> nat
    decreases v,
{
    if v == 0 {
        0
    } else {
        v % 2 + popcount(v / 2)
    }
}

/// Even parity of the low byte: an even number of its bits are set.
pub fn parity(value: u8) -> (even: bool)
    ensures
        even == (popcount(value as nat) % 2 == 0),
{
    let mut v: u8 = value;
    let mut ones: u32 = 0;
    while v > 0
        invariant
            ones + popcount(v as nat) == popcount(value as nat),
            ones <= 8 - popcount(v as nat) || ones <= 8,
            ones <= 8,
        decreases v,
    {
        proof {
            assert(popcount(v as nat) == v as nat % 2 + popcount(v as nat / 2));
            lemma_popcount_byte(v as nat / 2);
            lemma_popcount_byte(value as nat);
        }
        ones = ones + (v % 2) as u32;
        v = v / 2;
    }
    ones % 2 == 0
}

proof fn lemma_popcount_byte(v: nat)
    requires
        v < 256,
    ensures
        popcount(v) <= 8,
    decreases v,
{
    if v > 0 {
        reveal_with_fuel(crate::text::pow_nat, 8);
        lemma_popcount_bound(v / 2, 7);
    }
}

proof fn lemma_popcount_bound(v: nat, k: nat)
    requires
        v < crate::text::pow_nat(2, k),
    ensures
        popcount(v) <= k,
    decreases k,
{
    if v > 0 {
        if k == 0 {
            assert(crate::text::pow_nat(2, 0) == 1);
        } else {
            assert(crate::text::pow_nat(2, k) == 2 * crate::text::pow_nat(2, (k - 1) as nat));
            lemma_popcount_bound(v / 2, (k - 1) as nat);
        }
    }
}

/// The two's-complement value of the low `size` bits.
pub open spec fn signed_spec(value: u32, size: u32) -> int {
    if size == 8 {
        let v = value % 0x100;
        if v >= 0x80 { v - 0x100 } else { v as int }
    } else if size == 16 {
        let v = value % 0x1_0000;
        if v >= 0x8000 { v - 0x1_0000 } else { v as int }
    } else {
        if value >= 0x8000_0000 { value - 0x1_0000_0000 } else { value as int }
    }
}

pub fn signed_value(value: u32, size: u32) -> (v: i64)
    ensures
        v == signed_spec(value, size),
{
    if size == 8 {
        let v = (value % 0x100) as i64;
        if v >= 0x80 { v - 0x100 } else { v }
    } else if size == 16 {
        let v = (value % 0x1_0000) as i64;
        if v >= 0x8000 { v - 0x1_0000 } else { v }
    } else {
        let v = value as i64;
        if v >= 0x8000_0000 { v - 0x1_0000_0000 } else { v }
    }
}

/// The flags after `result = left - right` at width `size`.
pub open spec fn sub_flags_of(cpu: Cpu, left: u32, right: u32, result: u32, size: u32) -> Cpu {
    let m = mask_of(size);
    let (l, rr, res) = (left & m, right & m, result & m);
    (Cpu {
        zf: res == 0,
        sf: res & sign_of(size) != 0,
        cf: l < rr,
        of: ((l ^ rr) & (l ^ res) & sign_of(size)) != 0,
        pf: popcount((res % 256) as nat) % 2 == 0,
        af: (l ^ rr ^ res) & 0x10 != 0,
        ..cpu
    })
}

/// The flags after `result = left + right` at width `size`.
pub open spec fn add_flags_of(cpu: Cpu, left: u32, right: u32, result: u32, size: u32) -> Cpu {
    let m = mask_of(size);
    let (l, rr, res) = (left & m, right & m, result & m);
    (Cpu {
        zf: res == 0,
        sf: res & sign_of(size) != 0,
        cf: l + rr > m,
        of: (!(l ^ rr) & (l ^ res) & sign_of(size)) != 0,
        pf: popcount((res % 256) as nat) % 2 == 0,
        af: (l ^ rr ^ res) & 0x10 != 0,
        ..cpu
    })
}

/// The flags after `result = left + right + carry` at width `size`.
pub open spec fn adc_flags_of(cpu: Cpu, left: u32, right: u32, carry: bool, result: u32, size: u32) -> Cpu {
    let m = mask_of(size);
    let (l, rr) = (left & m, right & m);
    let c: int = if carry { 1 } else { 0 };
    let s = signed_spec(l, size) + signed_spec(rr, size) + c;
    (Cpu {
        zf: result & m == 0,
        sf: result & sign_of(size) != 0,
        cf: l + rr + c > m,
        of: s < signed_range_spec(size).0 || s > signed_range_spec(size).1,
        pf: popcount((result % 256) as nat) % 2 == 0,
        af: (l & 0xf) + (rr & 0xf) + c > 0xf,
        ..cpu
    })
}

/// The flags after `result = left - right - borrow` at width `size`.
pub open spec fn sbb_flags_of(cpu: Cpu, left: u32, right: u32, borrow: bool, result: u32, size: u32) -> Cpu {
    let m = mask_of(size);
    let (l, rr) = (left & m, right & m);
    let b: int = if borrow { 1 } else { 0 };
    let s = signed_spec(l, size) - signed_spec(rr, size) - b;
    (Cpu {
        zf: result & m == 0,
        sf: result & sign_of(size) != 0,
        cf: l < rr + b,
        of: s < signed_range_spec(size).0 || s > signed_range_spec(size).1,
        pf: popcount((result % 256) as nat) % 2 == 0,
        af: (l & 0xf) < (rr & 0xf) + b,
        ..cpu
    })
}

/// The signed range of an operand width.
pub open spec fn signed_range_spec(size: u32) -> (int, int) {
    if size == 8 {
        (-128, 127)
    } else if size == 16 {
        (-32768, 32767)
    } else {
        (-2147483648, 2147483647)
    }
}

pub fn signed_range(size: u32) -> (r: (i64, i64))
    ensures
        r.0 == signed_range_spec(size).0,
        r.1 == signed_range_spec(size).1,
{
    if size == 8 {
        (-128, 127)
    } else if size == 16 {
        (-32768, 32767)
    } else {
        (-2147483648, 2147483647)
    }
}

/// The value a register read yields, or `None` for a register this CPU does not model.
pub open spec fn register_value(c: Cpu, r: Register) -> Option<u32> {
    match r {
        Register::EAX => Some(c.eax),
        Register::EBX => Some(c.ebx),
        Register::ECX => Some(c.ecx),
        Register::EDX => Some(c.edx),
        Register::ESI => Some(c.esi),
        Register::EDI => Some(c.edi),
        Register::EBP => Some(c.ebp),
        Register::ESP => Some(c.esp),
        Register::EIP => Some(c.eip),
        Register::AX => Some(c.eax & 0xffff),
        Register::BX => Some(c.ebx & 0xffff),
        Register::CX => Some(c.ecx & 0xffff),
        Register::DX => Some(c.edx & 0xffff),
        Register::SI => Some(c.esi & 0xffff),
        Register::DI => Some(c.edi & 0xffff),
        Register::BP => Some(c.ebp & 0xffff),
        Register::SP => Some(c.esp & 0xffff),
        Register::AL => Some(c.eax & 0xff),
        Register::AH => Some((c.eax >> 8u32) & 0xff),
        Register::BL => Some(c.ebx & 0xff),
        Register::BH => Some((c.ebx >> 8u32) & 0xff),
        Register::CL => Some(c.ecx & 0xff),
        Register::CH => Some((c.ecx >> 8u32) & 0xff),
        Register::DL => Some(c.edx & 0xff),
        Register::DH => Some((c.edx >> 8u32) & 0xff),
        Register::Absent => Some(0),
        Register::Other(_) => None,
    }
}

/// `old` with its low 16 bits replaced by those of `v`.
pub open spec fn set_low16(old: u32, v: u32) -> u32 {
    (old & !0xffffu32) | (v & 0xffff)
}

/// `old` with its low 8 bits replaced by those of `v`.
pub open spec fn set_low8(old: u32, v: u32) -> u32 {
    (old & !0xffu32) | (v & 0xff)
}

/// `old` with bits 8..16 replaced by the low 8 bits of `v`.
pub open spec fn set_high8(old: u32, v: u32) -> u32 {
    (old & !0xff00u32) | ((v & 0xff) << 8u32)
}

/// The CPU after writing `v` to `r`, or `None` for a register that cannot be written.
pub open spec fn with_register(c: Cpu, r: Register, v: u32) -> Option<Cpu> {
    match r {
        Register::EAX => Some(Cpu { eax: v, ..c }),
        Register::EBX => Some(Cpu { ebx: v, ..c }),
        Register::ECX => Some(Cpu { ecx: v, ..c }),
        Register::EDX => Some(Cpu { edx: v, ..c }),
        Register::ESI => Some(Cpu { esi: v, ..c }),
        Register::EDI => Some(Cpu { edi: v, ..c }),
        Register::EBP => Some(Cpu { ebp: v, ..c }),
        Register::ESP => Some(Cpu { esp: v, ..c }),
        Register::EIP => Some(Cpu { eip: v, ..c }),
        Register::AX => Some(Cpu { eax: set_low16(c.eax, v), ..c }),
        Register::BX => Some(Cpu { ebx: set_low16(c.ebx, v), ..c }),
        Register::CX => Some(Cpu { ecx: set_low16(c.ecx, v), ..c }),
        Register::DX => Some(Cpu { edx: set_low16(c.edx, v), ..c }),
        Register::SI => Some(Cpu { esi: set_low16(c.esi, v), ..c }),
        Register::DI => Some(Cpu { edi: set_low16(c.edi, v), ..c }),
        Register::BP => Some(Cpu { ebp: set_low16(c.ebp, v), ..c }),
        Register::SP => Some(Cpu { esp: set_low16(c.esp, v), ..c }),
        Register::AL => Some(Cpu { eax: set_low8(c.eax, v), ..c }),
        Register::AH => Some(Cpu { eax: set_high8(c.eax, v), ..c }),
        Register::BL => Some(Cpu { ebx: set_low8(c.ebx, v), ..c }),
        Register::BH => Some(Cpu { ebx: set_high8(c.ebx, v), ..c }),
        Register::CL => Some(Cpu { ecx: set_low8(c.ecx, v), ..c }),
        Register::CH => Some(Cpu { ecx: set_high8(c.ecx, v), ..c }),
        Register::DL => Some(Cpu { edx: set_low8(c.edx, v), ..c }),
        Register::DH => Some(Cpu { edx: set_high8(c.edx, v), ..c }),
        _ => None,
    }
}

/// The Debug name under which an unmodelled register is reported.
pub open spec fn register_name(r: Register) -> Seq<char> {
    match r {
        Register::Other(name) => name@,
        Register::Absent => "None"@,
        _ => Seq::empty(),
    }
}

/// The flag word: bit 1 always set, then CF, PF, AF, ZF, SF, DF and OF at
/// bits 0, 2, 4, 6, 7, 10 and 11.
pub open spec fn flags_word(c: Cpu) -> u32 {
    (2 + (if c.cf { 1int } else { 0 }) + (if c.pf { 4int } else { 0 }) + (if c.af { 16int } else { 0 }) + (if c.zf {
        64int
    } else {
        0
    }) + (if c.sf { 128int } else { 0 }) + (if c.direction { 1024int } else { 0 }) + (if c.of {
        2048int
    } else {
        0
    })) as u32
}

/// The memory operand of an instruction: `segment + base + index * scale + displacement`.
#[derive(Debug, Clone, PartialEq, Eq)]
pub struct MemoryOperand {
    pub base: Register,
    pub index: Register,
    pub fs_segment: bool,
    pub scale: u32,
    pub displacement: u32,
    pub size_bits: u32,
}

/// An instruction operand as the interpreter sees it.
#[derive(Debug, Clone, PartialEq, Eq)]
pub enum Operand {
    Register(Register),
    Immediate { value: u32, bits: u32, name: String },
    Memory(MemoryOperand),
    Other(String),
}

/// The address a memory operand designates, wrapping at 2^32.
pub open spec fn address_of(c: Cpu, m: MemoryOperand, base: u32, index: u32) -> u32 {
    let segment = if m.fs_segment { c.fs_base } else { 0 };
    vstd::wrapping::u32_specs::wrapping_add(
        vstd::wrapping::u32_specs::wrapping_add(
            vstd::wrapping::u32_specs::wrapping_add(segment, base),
            vstd::wrapping::u32_specs::wrapping_mul(index, m.scale),
        ),
        m.displacement,
    )
}

/// The error message for a memory operand of an unsupported width.
pub open spec fn width_message(bits: u32) -> Seq<char> {
    decimal(bits as nat) + "-bit memory"@
}

fn unsupported_width(bits: u32) -> (e: DynamicError)
    ensures
        e matches DynamicError::UnsupportedOperand(s) && s@ == width_message(bits),
{
    let mut s = String::new();
    push_decimal(&mut s, bits as u64);
    push_str(&mut s, "-bit memory");
    DynamicError::UnsupportedOperand(s)
}

/// What reading operand `op` gives from registers `c` and memory `m`.
pub open spec fn read_outcome(c: Cpu, m: Seq<RegionView>, op: Operand, r: Result<(u32, u32), DynamicError>) -> bool {
            match op {
                Operand::Register(reg) => match register_value(c, reg) {
                    Some(v) => r == Ok::<(u32, u32), DynamicError>((v, register_bits(reg))),
                    None => r matches Err(DynamicError::UnsupportedRegister(s)) && s@ == register_name(reg),
                },
                Operand::Immediate { value, bits, .. } => r == Ok::<(u32, u32), DynamicError>((value, bits)),
                Operand::Other(name) => r matches Err(DynamicError::UnsupportedOperand(s)) && s@ == name@,
                Operand::Memory(mo) => match (register_value(c, mo.base), register_value(c, mo.index)) {
                    (Some(b), Some(i)) => {
                        let address = address_of(c, mo, b, i);
                        if mo.size_bits == 8 || mo.size_bits == 16 || mo.size_bits == 32 {
                            match value_at(m, address as int, (mo.size_bits / 8) as int) {
                                Some(v) => r == Ok::<(u32, u32), DynamicError>((v as u32, mo.size_bits)),
                                None => r == Err::<(u32, u32), DynamicError>(DynamicError::MemoryRead { address: address as u64 }),
                            }
                        } else {
                            r matches Err(DynamicError::UnsupportedOperand(s)) && s@ == width_message(mo.size_bits)
                        }
                    },
                    _ => r matches Err(DynamicError::UnsupportedRegister(_)),
                },
            }
}

/// What writing `value` to operand `op` does to registers `c` and memory
/// `m`, giving `c2`, `m2` and `r`.
pub open spec fn write_outcome32(
    c: Cpu,
    m: Seq<RegionView>,
    op: Operand,
    value: u32,
    c2: Cpu,
    m2: Seq<RegionView>,
    r: Result<u32, DynamicError>,
) -> bool {
            match op {
                Operand::Register(reg) => m2 == m && match with_register(c, reg, value & mask_of(register_bits(reg))) {
                    Some(c1) => r == Ok::<u32, DynamicError>(register_bits(reg)) && c2 == c1,
                    None => c2 == c && (r matches Err(DynamicError::UnsupportedRegister(s)) && s@ == register_name(reg)),
                },
                Operand::Immediate { name, .. } => c2 == c && m2 == m
                    && (r matches Err(DynamicError::UnsupportedOperand(s)) && s@ == "write "@ + name@),
                Operand::Other(name) => c2 == c && m2 == m
                    && (r matches Err(DynamicError::UnsupportedOperand(s)) && s@ == "write "@ + name@),
                Operand::Memory(mo) => c2 == c && match (register_value(c, mo.base), register_value(c, mo.index)) {
                    (Some(b), Some(i)) => {
                        let address = address_of(c, mo, b, i);
                        if mo.size_bits == 8 || mo.size_bits == 16 || mo.size_bits == 32 {
                            exists|inner: Result<(), DynamicError>| Memory::write_outcome(m, m2, address,
                                operand_bytes(mo.size_bits, value), false, inner)
                                && #[trigger] same_outcome(inner, r, mo.size_bits)
                        } else {
                            m2 == m && (r matches Err(DynamicError::UnsupportedOperand(s)) && s@ == width_message(mo.size_bits))
                        }
                    },
                    _ => m2 == m && r matches Err(DynamicError::UnsupportedRegister(_)),
                },
            }
}

/// Flags after a logical operation at the given width: ZF, SF and PF from
/// the masked value; CF, OF and AF clear.
pub open spec fn logic_flags_of(c: Cpu, value: u32, size: u32) -> Cpu {
    Cpu {
        zf: value & mask_of(size) == 0,
        sf: (value & mask_of(size)) & sign_of(size) != 0,
        cf: false,
        of: false,
        pf: popcount(((value & mask_of(size)) % 256) as nat) % 2 == 0,
        af: false,
        ..c
    }
}

impl Cpu {
    /// Reads a register; partial registers give their bits, `None` gives 0.
    pub fn read_register(&self, register: &Register) -> (r: Result<u32, DynamicError>)
        ensures
            match register_value(*self, *register) {
                Some(v) => r == Ok::<u32, DynamicError>(v),
                None => r matches Err(DynamicError::UnsupportedRegister(s)) && s@ == register_name(*register),
            },
    {
        let value = match register {
            Register::EAX => self.eax,
            Register::EBX => self.ebx,
            Register::ECX => self.ecx,
            Register::EDX => self.edx,
            Register::ESI => self.esi,
            Register::EDI => self.edi,
            Register::EBP => self.ebp,
            Register::ESP => self.esp,
            Register::EIP => self.eip,
            Register::AX => self.eax & 0xffff,
            Register::BX => self.ebx & 0xffff,
            Register::CX => self.ecx & 0xffff,
            Register::DX => self.edx & 0xffff,
            Register::SI => self.esi & 0xffff,
            Register::DI => self.edi & 0xffff,
            Register::BP => self.ebp & 0xffff,
            Register::SP => self.esp & 0xffff,
            Register::AL => self.eax & 0xff,
            Register::AH => (self.eax >> 8u32) & 0xff,
            Register::BL => self.ebx & 0xff,
            Register::BH => (self.ebx >> 8u32) & 0xff,
            Register::CL => self.ecx & 0xff,
            Register::CH => (self.ecx >> 8u32) & 0xff,
            Register::DL => self.edx & 0xff,
            Register::DH => (self.edx >> 8u32) & 0xff,
            Register::Absent => 0,
            Register::Other(name) => return Err(DynamicError::UnsupportedRegister(name.clone())),
        };
        Ok(value)
    }

    /// Writes a register; partial registers keep the other bits of their parent.
    pub fn write_register(&mut self, register: &Register, value: u32) -> (r: Result<(), DynamicError>)
        ensures
            match with_register(*old(self), *register, value) {
                Some(c) => r is Ok && *final(self) == c,
                None => *final(self) == *old(self) && (r matches Err(DynamicError::UnsupportedRegister(s))
                    && s@ == register_name(*register)),
            },
    {
        match register {
            Register::EAX => self.eax = value,
            Register::EBX => self.ebx = value,
            Register::ECX => self.ecx = value,
            Register::EDX => self.edx = value,
            Register::ESI => self.esi = value,
            Register::EDI => self.edi = value,
            Register::EBP => self.ebp = value,
            Register::ESP => self.esp = value,
            Register::EIP => self.eip = value,
            Register::AX => self.eax = (self.eax & !0xffffu32) | (value & 0xffff),
            Register::BX => self.ebx = (self.ebx & !0xffffu32) | (value & 0xffff),
            Register::CX => self.ecx = (self.ecx & !0xffffu32) | (value & 0xffff),
            Register::DX => self.edx = (self.edx & !0xffffu32) | (value & 0xffff),
            Register::SI => self.esi = (self.esi & !0xffffu32) | (value & 0xffff),
            Register::DI => self.edi = (self.edi & !0xffffu32) | (value & 0xffff),
            Register::BP => self.ebp = (self.ebp & !0xffffu32) | (value & 0xffff),
            Register::SP => self.esp = (self.esp & !0xffffu32) | (value & 0xffff),
            Register::AL => self.eax = (self.eax & !0xffu32) | (value & 0xff),
            Register::AH => self.eax = (self.eax & !0xff00u32) | ((value & 0xff) << 8u32),
            Register::BL => self.ebx = (self.ebx & !0xffu32) | (value & 0xff),
            Register::BH => self.ebx = (self.ebx & !0xff00u32) | ((value & 0xff) << 8u32),
            Register::CL => self.ecx = (self.ecx & !0xffu32) | (value & 0xff),
            Register::CH => self.ecx = (self.ecx & !0xff00u32) | ((value & 0xff) << 8u32),
            Register::DL => self.edx = (self.edx & !0xffu32) | (value & 0xff),
            Register::DH => self.edx = (self.edx & !0xff00u32) | ((value & 0xff) << 8u32),
            Register::Absent => return Err(DynamicError::UnsupportedRegister("None".to_owned())),
            Register::Other(name) => return Err(DynamicError::UnsupportedRegister(name.clone())),
        }
        Ok(())
    }

    /// The address of a memory operand (FS-relative when it names FS).
    pub fn effective_address(&self, operand: &MemoryOperand) -> (r: Result<u32, DynamicError>)
        ensures
            match (register_value(*self, operand.base), register_value(*self, operand.index)) {
                (Some(b), Some(i)) => r == Ok::<u32, DynamicError>(address_of(*self, *operand, b, i)),
                (None, _) => r matches Err(DynamicError::UnsupportedRegister(s)) && s@ == register_name(operand.base),
                (Some(_), None) => r matches Err(DynamicError::UnsupportedRegister(s)) && s@ == register_name(
                    operand.index,
                ),
            },
    {
        let base = self.read_register(&operand.base)?;
        let index = self.read_register(&operand.index)?;
        let segment = if operand.fs_segment { self.fs_base } else { 0 };
        Ok(segment.wrapping_add(base).wrapping_add(index.wrapping_mul(operand.scale)).wrapping_add(operand.displacement))
    }

    /// Reads an operand, giving its value and width in bits.
    pub fn read_operand(&self, memory: &Memory, operand: &Operand) -> (r: Result<(u32, u32), DynamicError>)
        requires
            memory.wf(),
        ensures
            read_outcome(*self, memory@, *operand, r),
    {
        match operand {
            Operand::Register(register) => {
                let value = self.read_register(register)?;
                Ok((value, register_size(register)))
            },
            Operand::Immediate { value, bits, .. } => Ok((*value, *bits)),
            Operand::Other(name) => Err(DynamicError::UnsupportedOperand(name.clone())),
            Operand::Memory(m) => {
                let address = self.effective_address(m)?;
                let size = m.size_bits;
                if size == 8 {
                    let v = memory.read_u8(address);
                    proof {
                        if let Ok(b) = v {
                            let i = choose|i: int| crate::memory::is_first(memory@, crate::memory::readable(address as int, 1), i) && b == memory@[i].data[address - memory@[i].start];
                            lemma_value_at(memory@, address as int, 1, i);
                            lemma_le_value_1(memory@[i].data.subrange(address - memory@[i].start, address - memory@[i].start + 1));
                        }
                    }
                    let v = v?;
                    Ok((v as u32, 8))
                } else if size == 16 {
                    let v = memory.read_u16(address);
                    proof {
                        if let Ok(b) = v {
                            let i = choose|i: int| crate::memory::is_first(memory@, crate::memory::readable(address as int, 2), i)
                                && b == crate::memory::le_value(memory@[i].data.subrange(address - memory@[i].start, address - memory@[i].start + 2));
                            lemma_value_at(memory@, address as int, 2, i);
                        }
                    }
                    let v = v?;
                    Ok((v as u32, 16))
                } else if size == 32 {
                    let v = memory.read_u32(address);
                    proof {
                        if let Ok(b) = v {
                            let i = choose|i: int| crate::memory::is_first(memory@, crate::memory::readable(address as int, 4), i)
                                && b == crate::memory::le_value(memory@[i].data.subrange(address - memory@[i].start, address - memory@[i].start + 4));
                            lemma_value_at(memory@, address as int, 4, i);
                        }
                    }
                    let v = v?;
                    Ok((v, 32))
                } else {
                    Err(unsupported_width(size))
                }
            },
        }
    }

    /// Writes an operand (the value cut to a register's width), giving its width in bits.
    pub fn write_operand(&mut self, memory: &mut Memory, operand: &Operand, value: u32) -> (r: Result<u32, DynamicError>)
        requires
            old(memory).wf(),
        ensures
            final(memory).wf(),
            final(memory).allocated_bytes() == old(memory).allocated_bytes(),
            write_outcome32(*old(self), old(memory)@, *operand, value, *final(self), final(memory)@, r),
    {
        match operand {
            Operand::Register(register) => {
                let size = register_size(register);
                self.write_register(register, mask(value, size))?;
                Ok(size)
            },
            Operand::Immediate { name, .. } => Err(DynamicError::UnsupportedOperand(prefixed_write(name))),
            Operand::Other(name) => Err(DynamicError::UnsupportedOperand(prefixed_write(name))),
            Operand::Memory(m) => {
                let address = self.effective_address(m)?;
                let size = m.size_bits;
                if size == 8 {
                    let inner = memory.write_u8(address, (value % 256) as u8);
                    assert(same_outcome(inner, match inner { Ok(_) => Ok(8u32), Err(e) => Err(e) }, 8));
                    inner?;
                    Ok(8)
                } else if size == 16 {
                    let inner = memory.write_u16(address, (value % 65536) as u16);
                    assert(same_outcome(inner, match inner { Ok(_) => Ok(16u32), Err(e) => Err(e) }, 16));
                    inner?;
                    Ok(16)
                } else if size == 32 {
                    let inner = memory.write_u32(address, value);
                    assert(same_outcome(inner, match inner { Ok(_) => Ok(32u32), Err(e) => Err(e) }, 32));
                    inner?;
                    Ok(32)
                } else {
                    Err(unsupported_width(size))
                }
            },
        }
    }

    /// Pushes a 32-bit value: ESP drops by four (wrapping) and the value is stored there.
    pub fn push(&mut self, memory: &mut Memory, value: u32) -> (r: Result<(), DynamicError>)
        requires
            old(memory).wf(),
        ensures
            final(memory).wf(),
            final(memory).allocated_bytes() == old(memory).allocated_bytes(),
            *final(self) == (Cpu { esp: vstd::wrapping::u32_specs::wrapping_sub(old(self).esp, 4), ..*old(self) }),
            Memory::write_outcome(old(memory)@, final(memory)@, final(self).esp, le_bytes(value as nat, 4), false, r),
    {
        self.esp = self.esp.wrapping_sub(4);
        memory.write_u32(self.esp, value)
    }

    /// Pops a 32-bit value from ESP; on success ESP rises by four (wrapping).
    pub fn pop(&mut self, memory: &Memory) -> (r: Result<u32, DynamicError>)
        requires
            memory.wf(),
        ensures
            match value_at(memory@, old(self).esp as int, 4) {
                Some(v) => r == Ok::<u32, DynamicError>(v as u32) && *final(self) == (Cpu {
                    esp: vstd::wrapping::u32_specs::wrapping_add(old(self).esp, 4),
                    ..*old(self)
                }),
                None => r == Err::<u32, DynamicError>(DynamicError::MemoryRead { address: old(self).esp as u64 })
                    && *final(self) == *old(self),
            },
    {
        let got = memory.read_u32(self.esp);
        proof {
            if let Ok(b) = got {
                let i = choose|i: int| crate::memory::is_first(memory@, crate::memory::readable(self.esp as int, 4), i)
                    && b == crate::memory::le_value(memory@[i].data.subrange(self.esp - memory@[i].start, self.esp - memory@[i].start + 4));
                lemma_value_at(memory@, self.esp as int, 4, i);
            }
        }
        let value = got?;
        self.esp = self.esp.wrapping_add(4);
        Ok(value)
    }

    /// Flags after a logical operation: ZF/SF/PF from the masked value, CF, OF and AF clear.
    pub fn set_logic_flags(&mut self, value: u32, size: u32)
        ensures
            *final(self) == logic_flags_of(*old(self), value, size),
    {
        let value = mask(value, size);
        self.zf = value == 0;
        self.sf = value & sign_bit(size) != 0;
        self.cf = false;
        self.of = false;
        self.pf = parity((value % 256) as u8);
        self.af = false;
    }

    /// Flags after `result = left - right` at the given width.
    pub fn set_sub_flags(&mut self, left: u32, right: u32, result: u32, size: u32)
        ensures
            *final(self) == sub_flags_of(*old(self), left, right, result, size),
    {
        let mask_value = bit_mask(size);
        let left = left & mask_value;
        let right = right & mask_value;
        let result = result & mask_value;
        self.zf = result == 0;
        self.sf = result & sign_bit(size) != 0;
        self.cf = left < right;
        self.of = ((left ^ right) & (left ^ result) & sign_bit(size)) != 0;
        self.pf = parity((result % 256) as u8);
        self.af = (left ^ right ^ result) & 0x10 != 0;
    }

    /// Flags after `result = left + right` at the given width.
    pub fn set_add_flags(&mut self, left: u32, right: u32, result: u32, size: u32)
        ensures
            *final(self) == add_flags_of(*old(self), left, right, result, size),
    {
        let mask_value = bit_mask(size);
        let left = left & mask_value;
        let right = right & mask_value;
        let result = result & mask_value;
        self.zf = result == 0;
        self.sf = result & sign_bit(size) != 0;
        self.cf = (left as u64 + right as u64) > mask_value as u64;
        self.of = (!(left ^ right) & (left ^ result) & sign_bit(size)) != 0;
        self.pf = parity((result % 256) as u8);
        self.af = (left ^ right ^ result) & 0x10 != 0;
    }

    /// Flags after `result = left + right + carry` at the given width.
    pub fn set_adc_flags(&mut self, left: u32, right: u32, carry: bool, result: u32, size: u32)
        ensures
            *final(self) == adc_flags_of(*old(self), left, right, carry, result, size),
    {
        let mask_value = bit_mask(size);
        let left = left & mask_value;
        let right = right & mask_value;
        let carry: u32 = if carry { 1 } else { 0 };
        self.zf = result & mask_value == 0;
        self.sf = result & sign_bit(size) != 0;
        self.cf = left as u64 + right as u64 + carry as u64 > mask_value as u64;
        let signed = signed_value(left, size) + signed_value(right, size) + carry as i64;
        let (minimum, maximum) = signed_range(size);
        self.of = signed < minimum || signed > maximum;
        self.pf = parity((result % 256) as u8);
        proof {
            assert(left & 0xf <= 0xf) by (bit_vector);
            assert(right & 0xf <= 0xf) by (bit_vector);
        }
        self.af = (left & 0xf) + (right & 0xf) + carry > 0xf;
    }

    /// Flags after `result = left - right - borrow` at the given width.
    pub fn set_sbb_flags(&mut self, left: u32, right: u32, borrow: bool, result: u32, size: u32)
        ensures
            *final(self) == sbb_flags_of(*old(self), left, right, borrow, result, size),
    {
        let mask_value = bit_mask(size);
        let left = left & mask_value;
        let right = right & mask_value;
        let borrow: u32 = if borrow { 1 } else { 0 };
        self.zf = result & mask_value == 0;
        self.sf = result & sign_bit(size) != 0;
        self.cf = (left as u64) < right as u64 + borrow as u64;
        let signed = signed_value(left, size) - signed_value(right, size) - borrow as i64;
        let (minimum, maximum) = signed_range(size);
        self.of = signed < minimum || signed > maximum;
        self.pf = parity((result % 256) as u8);
        proof {
            assert(right & 0xf <= 0xf) by (bit_vector);
        }
        self.af = (left & 0xf) < (right & 0xf) + borrow;
    }

    /// The EFLAGS word of the modelled flags.
    pub fn flags_value(&self) -> (v: u32)
        ensures
            v == flags_word(*self),
    {
        2 + (if self.cf { 1 } else { 0 }) + (if self.pf { 4 } else { 0 }) + (if self.af { 16 } else { 0 }) + (if self.zf {
            64
        } else {
            0
        }) + (if self.sf { 128 } else { 0 }) + (if self.direction { 1024 } else { 0 }) + (if self.of {
            2048
        } else {
            0
        })
    }

    /// Loads the modelled flags from an EFLAGS word.
    pub fn set_flags_value(&mut self, value: u32)
        ensures
            *final(self) == (Cpu {
                cf: value & 1 != 0,
                pf: value & 4 != 0,
                af: value & 16 != 0,
                zf: value & 64 != 0,
                sf: value & 128 != 0,
                direction: value & 1024 != 0,
                of: value & 2048 != 0,
                ..*old(self)
            }),
    {
        self.cf = value & 1 != 0;
        self.pf = value & 4 != 0;
        self.af = value & 16 != 0;
        self.zf = value & 64 != 0;
        self.sf = value & 128 != 0;
        self.direction = value & 1024 != 0;
        self.of = value & 2048 != 0;
    }
}

/// The bytes a memory operand write of `bits` stores for `value`.
pub open spec fn operand_bytes(bits: u32, value: u32) -> Seq<u8> {
    if bits == 8 {
        seq![(value % 256) as u8]
    } else if bits == 16 {
        le_bytes((value % 65536) as nat, 2)
    } else {
        le_bytes(value as nat, 4)
    }
}

/// `r` reports the width on success and passes on the memory error otherwise.
pub open spec fn same_outcome(inner: Result<(), DynamicError>, r: Result<u32, DynamicError>, bits: u32) -> bool {
    match inner {
        Ok(_) => r == Ok::<u32, DynamicError>(bits),
        Err(e) => r == Err::<u32, DynamicError>(e),
    }
}

fn prefixed_write(name: &String) -> (s: String)
    ensures
        s@ == "write "@ + name@,
{
    let mut s = String::new();
    push_str(&mut s, "write ");
    push_str(&mut s, name.as_str());
    s
}

/// Reading a register after writing it gives the written value cut to the
/// register's width.
pub proof fn law_register_round_trip(c: Cpu, r: Register, v: u32)
    requires
        with_register(c, r, v) is Some,
    ensures
        register_value(with_register(c, r, v)->0, r) == Some(v & mask_of(register_bits(r))),
{
    assert(forall|x: u32, y: u32| #[trigger] ((x & !0xffffu32) | (y & 0xffff)) & 0xffff == y & 0xffff) by (bit_vector);
    assert(forall|x: u32, y: u32| #[trigger] ((x & !0xffu32) | (y & 0xff)) & 0xff == y & 0xff) by (bit_vector);
    assert(forall|x: u32, y: u32| #[trigger] ((((x & !0xff00u32) | ((y & 0xff) << 8u32)) >> 8u32) & 0xff) == y & 0xff) by (bit_vector);
    assert(forall|y: u32| #[trigger] (y & 0xffff_ffffu32) == y) by (bit_vector);
}

/// Loading the flag word of a CPU gives back its flags, and the word of a
/// loaded value keeps exactly its modelled bits with bit 1 set.
pub proof fn law_flags_round_trip(c: Cpu, value: u32)
    ensures
        ({
            let w = flags_word(c);
            &&& (w & 1 != 0) == c.cf
            &&& (w & 4 != 0) == c.pf
            &&& (w & 16 != 0) == c.af
            &&& (w & 64 != 0) == c.zf
            &&& (w & 128 != 0) == c.sf
            &&& (w & 1024 != 0) == c.direction
            &&& (w & 2048 != 0) == c.of
        }),
        flags_word(Cpu {
            cf: value & 1 != 0,
            pf: value & 4 != 0,
            af: value & 16 != 0,
            zf: value & 64 != 0,
            sf: value & 128 != 0,
            direction: value & 1024 != 0,
            of: value & 2048 != 0,
            ..c
        }) == (value & 0xcd5) | 2,
{
    let b0: u32 = if c.cf { 1 } else { 0 };
    let b2: u32 = if c.pf { 1 } else { 0 };
    let b4: u32 = if c.af { 1 } else { 0 };
    let b6: u32 = if c.zf { 1 } else { 0 };
    let b7: u32 = if c.sf { 1 } else { 0 };
    let b10: u32 = if c.direction { 1 } else { 0 };
    let b11: u32 = if c.of { 1 } else { 0 };
    let w: u32 = (2 + b0 + 4 * b2 + 16 * b4 + 64 * b6 + 128 * b7 + 1024 * b10 + 2048 * b11) as u32;
    assert(flags_word(c) == w);
    assert({
        &&& (w & 1 != 0) == (b0 == 1)
        &&& (w & 4 != 0) == (b2 == 1)
        &&& (w & 16 != 0) == (b4 == 1)
        &&& (w & 64 != 0) == (b6 == 1)
        &&& (w & 128 != 0) == (b7 == 1)
        &&& (w & 1024 != 0) == (b10 == 1)
        &&& (w & 2048 != 0) == (b11 == 1)
    }) by (bit_vector)
        requires
            b0 <= 1, b2 <= 1, b4 <= 1, b6 <= 1, b7 <= 1, b10 <= 1, b11 <= 1,
            w == (2 + b0 + 4 * b2 + 16 * b4 + 64 * b6 + 128 * b7 + 1024 * b10 + 2048 * b11) as u32,
    ;
    let v = value;
    assert(2 + (if v & 1 != 0 { 1u32 } else { 0 }) + (if v & 4 != 0 { 4u32 } else { 0 }) + (if v & 16 != 0 { 16u32 } else { 0 })
        + (if v & 64 != 0 { 64u32 } else { 0 }) + (if v & 128 != 0 { 128u32 } else { 0 }) + (if v & 1024 != 0 { 1024u32 } else { 0 })
        + (if v & 2048 != 0 { 2048u32 } else { 0 }) == (v & 0xcd5) | 2) by (bit_vector);
}

/// Pop undoes push: when the four bytes below ESP lie in a readable and
/// writable region and the push succeeded, the pop that follows gives back
/// the pushed value and the register file as it was before the push.
pub proof fn law_pop_undoes_push(c: Cpu, pushed: Cpu, m: Seq<RegionView>, m2: Seq<RegionView>, v: u32, k: int)
    requires
        regions_wf(m),
        regions_wf(m2),
        pushed == (Cpu { esp: vstd::wrapping::u32_specs::wrapping_sub(c.esp, 4), ..c }),
        Memory::write_outcome(m, m2, pushed.esp, le_bytes(v as nat, 4), false, Ok(())),
        0 <= k < m.len(),
        region_contains(m[k], pushed.esp as int, 4),
        m[k].permissions.read && m[k].permissions.write,
    ensures
        value_at(m2, pushed.esp as int, 4) == Some(v as nat),
        (Cpu { esp: vstd::wrapping::u32_specs::wrapping_add(pushed.esp, 4), ..pushed }) == c,
{
    let a = pushed.esp;
    let bytes = le_bytes(v as nat, 4);
    let p = writable(a as int, 4, false);
    assert(bytes.len() == 4) by {
        reveal_with_fuel(le_bytes, 5);
    }
    assert forall|j: int| 0 <= j < k implies !p(#[trigger] m[j]) by {
        if p(m[j]) {
            assert(crate::memory::region_end(m[j]) <= m[k].start);
        }
    }
    assert(is_first(m, p, k));
    law_read_after_write(m, m2, a, bytes, false, Ok(()), k);
    let q = readable(a as int, 4);
    let i = choose|i: int| is_first(m, p, i) && m2 == m.update(i, crate::memory::region_after_write(m[i], a, bytes, false));
    crate::memory::lemma_first_unique(m, p, i, k);
    assert forall|j: int| 0 <= j < k implies !q(#[trigger] m2[j]) by {
        assert(m2[j] == m[j]);
        if q(m2[j]) {
            assert(crate::memory::region_end(m[j]) <= m[k].start);
        }
    }
    assert(q(m2[k]));
    assert(is_first(m2, q, k));
    lemma_value_at(m2, a as int, 4, k);
    assert(m2[k].data.subrange(a - m2[k].start, a - m2[k].start + 4) == bytes);
    lemma_le_round_trip(v as nat, 4);
    assert(crate::text::pow_nat(256, 4) == 0x1_0000_0000) by {
        reveal_with_fuel(crate::text::pow_nat, 5);
    }
    assert(v as nat % 0x1_0000_0000 == v as nat);
    assert(vstd::wrapping::u32_specs::wrapping_add(a, 4) == c.esp);
}


/// ADC with no carry in sets the flags ADD sets, at every width.
pub proof fn law_adc_without_carry_is_add(c: Cpu, left: u32, right: u32, size: u32)
    requires
        size == 8 || size == 16 || size == 32,
    ensures
        adc_flags_of(c, left, right, false, vstd::wrapping::u32_specs::wrapping_add(left, right), size)
            == add_flags_of(c, left, right, vstd::wrapping::u32_specs::wrapping_add(left, right), size),
{
    let result = vstd::wrapping::u32_specs::wrapping_add(left, right);
    assert(result as int == (left as int + right as int) % 0x1_0000_0000);
    let m = mask_of(size);
    let sg = sign_of(size);
    let l = left & m;
    let rr = right & m;
    let res = result & m;
    assert(res & m == res && (result & m == 0) == (res == 0)) by (bit_vector)
        requires res == result & m;
    assert((result & sg != 0) == (res & sg != 0)) by (bit_vector)
        requires res == result & m, (m == 0xff && sg == 0x80) || (m == 0xffff && sg == 0x8000) || (m == 0xffff_ffff && sg == 0x8000_0000);
    assert((result % 256) == (res % 256)) by (bit_vector)
        requires res == result & m, m == 0xff || m == 0xffff || m == 0xffff_ffff;
    assert(((l & 0xf) + (rr & 0xf) > 0xf) == ((l ^ rr ^ res) & 0x10 != 0)) by (bit_vector)
        requires
            l == left & m,
            rr == right & m,
            res == result & m,
            result as int == (left as int + right as int) % 0x1_0000_0000,
            m == 0xff || m == 0xffff || m == 0xffff_ffff;
    if size == 8 {
        assert(l % 0x100 == l && rr % 0x100 == rr) by (bit_vector)
            requires l == left & 0xff, rr == right & 0xff;
        assert(((if l >= 0x80 { l - 0x100 } else { l as int }) + (if rr >= 0x80 { rr - 0x100 } else { rr as int }) < -128
            || (if l >= 0x80 { l - 0x100 } else { l as int }) + (if rr >= 0x80 { rr - 0x100 } else { rr as int }) > 127)
            == ((!(l ^ rr) & (l ^ res) & 0x80) != 0)) by (bit_vector)
            requires
                l == left & 0xff,
                rr == right & 0xff,
                res == result & 0xff,
                result as int == (left as int + right as int) % 0x1_0000_0000;
    } else if size == 16 {
        assert(l % 0x1_0000 == l && rr % 0x1_0000 == rr) by (bit_vector)
            requires l == left & 0xffff, rr == right & 0xffff;
        assert(((if l >= 0x8000 { l - 0x1_0000 } else { l as int }) + (if rr >= 0x8000 { rr - 0x1_0000 } else { rr as int })
            < -32768 || (if l >= 0x8000 { l - 0x1_0000 } else { l as int }) + (if rr >= 0x8000 { rr - 0x1_0000 } else {
            rr as int
        }) > 32767) == ((!(l ^ rr) & (l ^ res) & 0x8000) != 0)) by (bit_vector)
            requires
                l == left & 0xffff,
                rr == right & 0xffff,
                res == result & 0xffff,
                result as int == (left as int + right as int) % 0x1_0000_0000;
    } else {
        assert(((if l >= 0x8000_0000 { l - 0x1_0000_0000 } else { l as int }) + (if rr >= 0x8000_0000 {
            rr - 0x1_0000_0000
        } else {
            rr as int
        }) < -2147483648 || (if l >= 0x8000_0000 { l - 0x1_0000_0000 } else { l as int }) + (if rr >= 0x8000_0000 {
            rr - 0x1_0000_0000
        } else {
            rr as int
        }) > 2147483647) == ((!(l ^ rr) & (l ^ res) & 0x8000_0000) != 0)) by (bit_vector)
            requires
                l == left & 0xffff_ffff,
                rr == right & 0xffff_ffff,
                res == result & 0xffff_ffff,
                result as int == (left as int + right as int) % 0x1_0000_0000;
    }
}


/// SBB with no borrow in sets the flags SUB sets, at every width.
pub proof fn law_sbb_without_borrow_is_sub(c: Cpu, left: u32, right: u32, size: u32)
    requires
        size == 8 || size == 16 || size == 32,
    ensures
        sbb_flags_of(c, left, right, false, vstd::wrapping::u32_specs::wrapping_sub(left, right), size)
            == sub_flags_of(c, left, right, vstd::wrapping::u32_specs::wrapping_sub(left, right), size),
{
    let result = vstd::wrapping::u32_specs::wrapping_sub(left, right);
    let m = mask_of(size);
    let sg = sign_of(size);
    let l = left & m;
    let rr = right & m;
    let res = result & m;
    assert(res & m == res && (result & m == 0) == (res == 0)) by (bit_vector)
        requires res == result & m;
    assert((result & sg != 0) == (res & sg != 0)) by (bit_vector)
        requires res == result & m, (m == 0xff && sg == 0x80) || (m == 0xffff && sg == 0x8000) || (m == 0xffff_ffff && sg == 0x8000_0000);
    assert((result % 256) == (res % 256)) by (bit_vector)
        requires res == result & m, m == 0xff || m == 0xffff || m == 0xffff_ffff;
    if left >= right {
        assert(result == left - right);
    } else {
        assert(result == left + (0x1_0000_0000 - right));
    }
    assert(((l & 0xf) < (rr & 0xf)) == ((l ^ rr ^ res) & 0x10 != 0)) by (bit_vector)
        requires
            l == left & m,
            rr == right & m,
            res == result & m,
            left >= right ==> result == left - right,
            left < right ==> result == left + (0x1_0000_0000 - right),
            m == 0xff || m == 0xffff || m == 0xffff_ffff;
    if size == 8 {
        assert(l % 0x100 == l && rr % 0x100 == rr) by (bit_vector)
            requires l == left & 0xff, rr == right & 0xff;
        assert(((if l >= 0x80 { l - 0x100 } else { l as int }) - (if rr >= 0x80 { rr - 0x100 } else { rr as int }) < -128
            || (if l >= 0x80 { l - 0x100 } else { l as int }) - (if rr >= 0x80 { rr - 0x100 } else { rr as int }) > 127)
            == (((l ^ rr) & (l ^ res) & 0x80) != 0)) by (bit_vector)
            requires
                l == left & 0xff,
                rr == right & 0xff,
                res == result & 0xff,
                left >= right ==> result == left - right,
                left < right ==> result == left + (0x1_0000_0000 - right);
    } else if size == 16 {
        assert(l % 0x1_0000 == l && rr % 0x1_0000 == rr) by (bit_vector)
            requires l == left & 0xffff, rr == right & 0xffff;
        assert(((if l >= 0x8000 { l - 0x1_0000 } else { l as int }) - (if rr >= 0x8000 { rr - 0x1_0000 } else { rr as int })
            < -32768 || (if l >= 0x8000 { l - 0x1_0000 } else { l as int }) - (if rr >= 0x8000 { rr - 0x1_0000 } else {
            rr as int
        }) > 32767) == (((l ^ rr) & (l ^ res) & 0x8000) != 0)) by (bit_vector)
            requires
                l == left & 0xffff,
                rr == right & 0xffff,
                res == result & 0xffff,
                left >= right ==> result == left - right,
                left < right ==> result == left + (0x1_0000_0000 - right);
    } else {
        assert(((if l >= 0x8000_0000 { l - 0x1_0000_0000 } else { l as int }) - (if rr >= 0x8000_0000 {
            rr - 0x1_0000_0000
        } else {
            rr as int
        }) < -2147483648 || (if l >= 0x8000_0000 { l - 0x1_0000_0000 } else { l as int }) - (if rr >= 0x8000_0000 {
            rr - 0x1_0000_0000
        } else {
            rr as int
        }) > 2147483647) == (((l ^ rr) & (l ^ res) & 0x8000_0000) != 0)) by (bit_vector)
            requires
                l == left & 0xffff_ffff,
                rr == right & 0xffff_ffff,
                res == result & 0xffff_ffff,
                left >= right ==> result == left - right,
                left < right ==> result == left + (0x1_0000_0000 - right);
    }
}

} // verus!
