//! The x86-64 register file and flags, the stack, and the Microsoft x64
//! argument convention.
use vstd::prelude::*;

use crate::dynamic_error::DynamicError;
use crate::memory::{le_bytes, le_value};
use crate::memory64::{Memory64, byte_at64, is_first64, readable64, lemma_first_unique64, any_region64};
use crate::text::push_str;

verus! {

/// The 64-bit register file: sixteen general registers (RAX, RCX, RDX, RBX,
/// RSP, RBP, RSI, RDI, R8..R15 in encoding order), RIP, the GS base and flags.
#[derive(Debug, Clone, Copy)]
pub struct Cpu64 {
    pub gpr: [u64; 16],
    pub rip: u64,
    pub gs_base: u64,
    pub zf: bool,
    pub sf: bool,
    pub cf: bool,
    pub of: bool,
    pub pf: bool,
}

impl Default for Cpu64 {
    fn default() -> (c: Cpu64)
        ensures
            forall|i: int| 0 <= i < 16 ==> c.gpr@[i] == 0,
            c.rip == 0,
            c.gs_base == 0,
            !c.zf && !c.sf && !c.cf && !c.of && !c.pf,
    {
        Cpu64 { gpr: [0u64; 16], rip: 0, gs_base: 0, zf: false, sf: false, cf: false, of: false, pf: false }
    }
}

/// A register operand as the x64 interpreter decodes it: the instruction
/// pointer, a general register viewed at a width (possibly its second byte),
/// or a register it does not model.
#[derive(Debug, Clone, PartialEq, Eq)]
pub enum Register64 {
    Ip,
    Gpr { index: usize, bits: u32, high_byte: bool, name: String },
    Other(String),
}

/// All-ones mask of the low `size` bits (all 64 bits from 64 up).
pub open spec fn mask64(size: usize) -> u64 {
    if size >= 64 {
        u64::MAX
    } else {
        ((1u64 << (size as u64)) - 1) as u64
    }
}

pub fn mask(size: usize) -> (m: u64)
    ensures
        m == mask64(size),
{
    if size >= 64 {
        u64::MAX
    } else {
        let s = size as u64;
        assert(s < 64 ==> (1u64 << s) >= 1) by (bit_vector);
        (1u64 << s) - 1
    }
}

/// The top bit of a `size`-bit operand.
pub open spec fn sign64(size: usize) -> u64 {
    1u64 << ((size - 1) as u64)
}

/// The value of the stack pointer.
pub open spec fn rsp_of(c: Cpu64) -> u64 {
    c.gpr@[4]
}

/// The flag word: bit 1 always set, then CF, PF, ZF, SF and OF at bits 0, 2, 6, 7 and 11.
pub open spec fn flags_word64(c: Cpu64) -> u64 {
    (2 + (if c.cf { 1int } else { 0 }) + (if c.pf { 4int } else { 0 }) + (if c.zf { 64int } else { 0 }) + (if c.sf {
        128int
    } else {
        0
    }) + (if c.of { 2048int } else { 0 })) as u64
}

/// Number of set bits of a byte value.
pub open spec fn popcount64(v: nat) -> nat {
    crate::cpu::popcount(v)
}

/// Flags after a logical operation producing `value` at `size` bits: ZF,
/// SF and PF from the masked value, CF and OF clear.
pub open spec fn logic_flags(c: Cpu64, value: u64, size: usize) -> Cpu64 {
    Cpu64 {
        zf: value & mask64(size) == 0,
        sf: (value & mask64(size)) & sign64(size) != 0,
        pf: popcount64(((value & mask64(size)) % 256) as nat) % 2 == 0,
        cf: false,
        of: false,
        ..c
    }
}

/// Flags after `result = left + right` at `size` bits.
pub open spec fn add_flags(c: Cpu64, left: u64, right: u64, result: u64, size: usize) -> Cpu64 {
    let m = mask64(size);
    let (l, rr, res) = (left & m, right & m, result & m);
    Cpu64 {
        zf: res & m == 0,
        sf: (res & m) & sign64(size) != 0,
        pf: popcount64(((res & m) % 256) as nat) % 2 == 0,
        cf: l + rr > m,
        of: (!(l ^ rr) & (l ^ res) & sign64(size)) != 0,
        ..c
    }
}

/// Flags after `result = left - right` at `size` bits.
pub open spec fn sub_flags(c: Cpu64, left: u64, right: u64, result: u64, size: usize) -> Cpu64 {
    let m = mask64(size);
    let (l, rr, res) = (left & m, right & m, result & m);
    Cpu64 {
        zf: res & m == 0,
        sf: (res & m) & sign64(size) != 0,
        pf: popcount64(((res & m) % 256) as nat) % 2 == 0,
        cf: l < rr,
        of: ((l ^ rr) & (l ^ res) & sign64(size)) != 0,
        ..c
    }
}

/// The value that an eight-byte read at `address` returns, if it succeeds.
#[verifier::opaque]
pub open spec fn qword_at(m: Seq<crate::memory64::RegionView64>, address: int) -> Option<u64> {
    if any_region64(m, readable64(address, 8)) {
        let i = choose|i: int| is_first64(m, readable64(address, 8), i);
        Some(le_value(m[i].data.subrange(address - m[i].start, address - m[i].start + 8)) as u64)
    } else {
        None
    }
}

/// The `index`th argument of a call under the Microsoft x64 convention, once
/// the return address has been popped: RCX, RDX, R8, R9, then the stack slots
/// above the 32-byte shadow space.
#[verifier::opaque]
pub open spec fn x64_argument(c: Cpu64, m: Seq<crate::memory64::RegionView64>, index: int) -> Option<u64> {
    if index == 0 {
        Some(c.gpr@[1])
    } else if index == 1 {
        Some(c.gpr@[2])
    } else if index == 2 {
        Some(c.gpr@[8])
    } else if index == 3 {
        Some(c.gpr@[9])
    } else {
        qword_at(m, vstd::wrapping::u64_specs::wrapping_add(rsp_of(c), (0x20 + (index - 4) * 8) as u64) as int)
    }
}

/// The name a register carries in messages.
pub open spec fn register_label(r: Register64) -> Seq<char> {
    match r {
        Register64::Ip => "RIP"@,
        Register64::Gpr { name, .. } => name@,
        Register64::Other(name) => name@,
    }
}

/// The value a read of `r` gives: RIP, or a general register cut to its
/// width (its second byte for AH, BH, CH and DH); none for a register the
/// file does not hold.
pub open spec fn register_value(c: Cpu64, r: Register64) -> Option<u64> {
    match r {
        Register64::Ip => Some(c.rip),
        Register64::Gpr { index, bits, high_byte, .. } => if index < 16 {
            Some(if high_byte {
                (c.gpr@[index as int] >> 8u64) & 0xff
            } else {
                c.gpr@[index as int] & mask64(bits as usize)
            })
        } else {
            None
        },
        Register64::Other(_) => None,
    }
}

/// `e` is the error for register `r`, which cannot be read or written.
pub open spec fn register_error(r: Register64, e: DynamicError) -> bool {
    e matches DynamicError::UnsupportedRegister(s) && s@ == "x64 "@ + register_label(r)
}

/// A general register of the file at a width it can be written at.
pub open spec fn register_writable(r: Register64) -> bool {
    r matches Register64::Gpr { index, bits, high_byte, .. } && index < 16 && (high_byte || bits == 64 || bits == 32
        || bits == 16 || bits == 8)
}

/// `c2` is `c` after writing `value` to the writable register `r`.
pub open spec fn register_written(c: Cpu64, r: Register64, value: u64, c2: Cpu64) -> bool {
    match r {
        Register64::Gpr { index, bits, high_byte, .. } => {
            let old_v = c.gpr@[index as int];
            let new_v = if high_byte {
                (old_v & !0xff00u64) | ((value & 0xff) << 8u64)
            } else if bits == 64 {
                value
            } else if bits == 32 {
                value & 0xffff_ffff
            } else if bits == 16 {
                (old_v & !0xffffu64) | (value & 0xffff)
            } else {
                (old_v & !0xffu64) | (value & 0xff)
            };
            c2 == (Cpu64 { gpr: c2.gpr, ..c }) && c2.gpr@ == c.gpr@.update(index as int, new_v)
        },
        _ => c2 == c,
    }
}

impl Cpu64 {
    pub fn rsp(&self) -> (v: u64)
        ensures
            v == rsp_of(*self),
    {
        self.gpr[4]
    }

    pub fn set_rsp(&mut self, value: u64)
        ensures
            final(self).gpr@ == old(self).gpr@.update(4, value),
            final(self).rip == old(self).rip,
            final(self).gs_base == old(self).gs_base,
            final(self).zf == old(self).zf && final(self).sf == old(self).sf && final(self).cf == old(self).cf
                && final(self).of == old(self).of && final(self).pf == old(self).pf,
    {
        self.gpr[4] = value;
    }

    /// Reads a register: RIP, or a general register cut to its width (its
    /// second byte for AH, BH, CH and DH).
    pub fn read_register(&self, register: &Register64) -> (r: Result<u64, DynamicError>)
        ensures
            match register_value(*self, *register) {
                Some(v) => r == Ok::<u64, DynamicError>(v),
                None => r matches Err(e) && register_error(*register, e),
            },
    {
        match register {
            Register64::Ip => Ok(self.rip),
            Register64::Gpr { index, bits, high_byte, name } => {
                if *index >= 16 {
                    return Err(DynamicError::UnsupportedRegister(x64_name(name)));
                }
                let value = self.gpr[*index];
                if *high_byte {
                    Ok((value >> 8u64) & 0xff)
                } else {
                    Ok(value & mask(*bits as usize))
                }
            },
            Register64::Other(name) => Err(DynamicError::UnsupportedRegister(x64_name(name))),
        }
    }

    /// Writes a register with the x64 partial-register rules: 64-bit writes
    /// replace, 32-bit writes zero the upper half, 16- and 8-bit writes keep
    /// the other bits. RIP and unmodelled registers cannot be written.
    pub fn write_register(&mut self, register: &Register64, value: u64) -> (r: Result<(), DynamicError>)
        ensures
            if register_writable(*register) {
                r is Ok && register_written(*old(self), *register, value, *final(self))
            } else {
                *final(self) == *old(self) && (r matches Err(e) && register_error(*register, e))
            },
    {
        match register {
            Register64::Ip => {
                proof {
                    reveal_strlit("x64 RIP");
                    reveal_strlit("x64 ");
                    reveal_strlit("RIP");
                    assert("x64 RIP"@ =~= "x64 "@ + "RIP"@);
                }
                Err(DynamicError::UnsupportedRegister("x64 RIP".to_owned()))
            },
            Register64::Other(name) => Err(DynamicError::UnsupportedRegister(x64_name(name))),
            Register64::Gpr { index, bits, high_byte, name } => {
                if *index >= 16 {
                    return Err(DynamicError::UnsupportedRegister(x64_name(name)));
                }
                let i = *index;
                let old_v = self.gpr[i];
                let new_v = if *high_byte {
                    (old_v & !0xff00u64) | ((value & 0xff) << 8u64)
                } else if *bits == 64 {
                    value
                } else if *bits == 32 {
                    value & 0xffff_ffff
                } else if *bits == 16 {
                    (old_v & !0xffffu64) | (value & 0xffff)
                } else if *bits == 8 {
                    (old_v & !0xffu64) | (value & 0xff)
                } else {
                    return Err(DynamicError::UnsupportedRegister(x64_name(name)));
                };
                self.gpr[i] = new_v;
                Ok(())
            },
        }
    }

    /// Pushes a 64-bit value: RSP drops by eight (wrapping) and the value is stored there.
    pub fn push(&mut self, memory: &mut Memory64, value: u64) -> (r: Result<(), DynamicError>)
        requires
            old(memory).wf(),
        ensures
            final(memory).wf(),
            final(memory).allocated_bytes() == old(memory).allocated_bytes(),
            final(self).gpr@ == old(self).gpr@.update(4, vstd::wrapping::u64_specs::wrapping_sub(rsp_of(*old(self)), 8)),
            *final(self) == (Cpu64 { gpr: final(self).gpr, ..*old(self) }),
            Memory64::write_outcome(old(memory)@, final(memory)@, rsp_of(*final(self)), le_bytes(value as nat, 8), false, r),
    {
        let top = self.rsp().wrapping_sub(8);
        self.set_rsp(top);
        memory.write_u64(top, value)
    }

    /// Pops a 64-bit value from RSP; on success RSP rises by eight (wrapping).
    pub fn pop(&mut self, memory: &Memory64) -> (r: Result<u64, DynamicError>)
        requires
            memory.wf(),
        ensures
            match qword_at(memory@, rsp_of(*old(self)) as int) {
                Some(v) => r == Ok::<u64, DynamicError>(v) && final(self).gpr@ == old(self).gpr@.update(
                    4,
                    vstd::wrapping::u64_specs::wrapping_add(rsp_of(*old(self)), 8),
                ) && *final(self) == (Cpu64 { gpr: final(self).gpr, ..*old(self) }),
                None => r == Err::<u64, DynamicError>(DynamicError::MemoryRead { address: rsp_of(*old(self)) })
                    && *final(self) == *old(self),
            },
    {
        let value = read_qword(memory, self.rsp())?;
        let top = self.rsp().wrapping_add(8);
        self.set_rsp(top);
        Ok(value)
    }

    /// Flags after a logical operation at `size` bits: ZF, SF and PF from the
    /// masked value, CF and OF clear.
    pub fn set_logic_flags(&mut self, value: u64, size: usize)
        requires
            1 <= size <= 64,
        ensures
            *final(self) == logic_flags(*old(self), value, size),
    {
        let value = value & mask(size);
        self.zf = value == 0;
        self.sf = value & (1u64 << ((size - 1) as u64)) != 0;
        self.pf = crate::cpu::parity((value % 256) as u8);
        self.cf = false;
        self.of = false;
    }

    /// Flags after `result = left + right` at `size` bits.
    pub fn set_add_flags(&mut self, left: u64, right: u64, result: u64, size: usize)
        requires
            1 <= size <= 64,
        ensures
            *final(self) == add_flags(*old(self), left, right, result, size),
    {
        let mask_value = mask(size);
        let sign = 1u64 << ((size - 1) as u64);
        let left = left & mask_value;
        let right = right & mask_value;
        let result = result & mask_value;
        self.set_logic_flags(result, size);
        self.cf = (left as u128 + right as u128) > mask_value as u128;
        self.of = (!(left ^ right) & (left ^ result) & sign) != 0;
    }

    /// Flags after `result = left - right` at `size` bits.
    pub fn set_sub_flags(&mut self, left: u64, right: u64, result: u64, size: usize)
        requires
            1 <= size <= 64,
        ensures
            *final(self) == sub_flags(*old(self), left, right, result, size),
    {
        let mask_value = mask(size);
        let sign = 1u64 << ((size - 1) as u64);
        let left = left & mask_value;
        let right = right & mask_value;
        let result = result & mask_value;
        self.set_logic_flags(result, size);
        self.cf = left < right;
        self.of = ((left ^ right) & (left ^ result) & sign) != 0;
    }

    /// The RFLAGS word of the modelled flags.
    pub fn flags_value(&self) -> (v: u64)
        ensures
            v == flags_word64(*self),
    {
        2 + (if self.cf { 1 } else { 0 }) + (if self.pf { 4 } else { 0 }) + (if self.zf { 64 } else { 0 }) + (if self.sf {
            128
        } else {
            0
        }) + (if self.of { 2048 } else { 0 })
    }
}

pub(crate) fn x64_name(name: &String) -> (s: String)
    ensures
        s@ == "x64 "@ + name@,
{
    let mut s = String::new();
    push_str(&mut s, "x64 ");
    push_str(&mut s, name.as_str());
    s
}

/// Reads eight little-endian bytes.
pub fn read_qword(memory: &Memory64, address: u64) -> (r: Result<u64, DynamicError>)
    requires
        memory.wf(),
    ensures
        match qword_at(memory@, address as int) {
            Some(v) => r == Ok::<u64, DynamicError>(v),
            None => r == Err::<u64, DynamicError>(DynamicError::MemoryRead { address }),
        },
{
    let got = memory.read_u64(address);
    proof {
        reveal(qword_at);
        if let Ok(v) = got {
            let i = choose|i: int| is_first64(memory@, readable64(address as int, 8), i)
                && v == le_value(memory@[i].data.subrange(address - memory@[i].start, address - memory@[i].start + 8));
            let k = choose|k: int| is_first64(memory@, readable64(address as int, 8), k);
            lemma_first_unique64(memory@, readable64(address as int, 8), i, k);
        }
    }
    got
}

/// The `index`th x64 call argument.
fn argument_at(cpu: &Cpu64, memory: &Memory64, index: usize) -> (r: Result<u64, DynamicError>)
    requires
        memory.wf(),
        index < usize::MAX / 8,
    ensures
        match x64_argument(*cpu, memory@, index as int) {
            Some(v) => r == Ok::<u64, DynamicError>(v),
            None => r == Err::<u64, DynamicError>(DynamicError::MemoryRead {
                address: vstd::wrapping::u64_specs::wrapping_add(rsp_of(*cpu), (0x20 + (index - 4) * 8) as u64),
            }),
        },
{
    reveal(x64_argument);
    if index == 0 {
        Ok(cpu.gpr[1])
    } else if index == 1 {
        Ok(cpu.gpr[2])
    } else if index == 2 {
        Ok(cpu.gpr[8])
    } else if index == 3 {
        Ok(cpu.gpr[9])
    } else {
        let offset: u64 = 0x20 + ((index - 4) * 8) as u64;
        let address = cpu.rsp().wrapping_add(offset);
        read_qword(memory, address)
    }
}

/// The first `count` arguments of an API call under the Microsoft x64
/// convention; fails with the first unreadable stack slot.
pub fn x64_api_arguments(cpu: &Cpu64, memory: &Memory64, count: usize) -> (r: Result<Vec<u64>, DynamicError>)
    requires
        memory.wf(),
        count <= usize::MAX / 8,
    ensures
        match r {
            Ok(args) => args@.len() == count && forall|k: int| 0 <= k < count ==> x64_argument(*cpu, memory@, k)
                == Some(#[trigger] args@[k]),
            Err(e) => exists|k: int| 0 <= k < count && #[trigger] x64_argument(*cpu, memory@, k) is None
                && (forall|j: int| 0 <= j < k ==> x64_argument(*cpu, memory@, j) is Some)
                && e == DynamicError::MemoryRead {
                    address: vstd::wrapping::u64_specs::wrapping_add(rsp_of(*cpu), (0x20 + (k - 4) * 8) as u64),
                },
        },
{
    let mut args: Vec<u64> = Vec::new();
    let mut index: usize = 0;
    while index < count
        invariant
            memory.wf(),
            count <= usize::MAX / 8,
            index <= count,
            args@.len() == index,
            forall|k: int| 0 <= k < index ==> x64_argument(*cpu, memory@, k) == Some(#[trigger] args@[k]),
        decreases count - index,
    {
        let value = match argument_at(cpu, memory, index) {
            Ok(v) => v,
            Err(e) => {
                assert(x64_argument(*cpu, memory@, index as int) is None);
                assert forall|j: int| 0 <= j < index implies x64_argument(*cpu, memory@, j) is Some by {
                    assert(x64_argument(*cpu, memory@, j) == Some(args@[j]));
                }
                return Err(e);
            },
        };
        args.push(value);
        index = index + 1;
    }
    Ok(args)
}

} // verus!
