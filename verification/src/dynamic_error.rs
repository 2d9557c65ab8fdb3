use vstd::prelude::*;

use crate::text::{hex_lower, pad_left, push_hex_padded, push_str};

verus! {

/// Errors raised by the dynamic engine and its guest memory model.
#[derive(Debug, Clone, PartialEq, Eq)]
pub enum DynamicError {
    Empty,
    TooLarge,
    InvalidPe(String),
    UnsupportedTarget(String),
    MemoryLimit,
    OverlappingRegion { address: u64 },
    MemoryRead { address: u64 },
    MemoryWrite { address: u64 },
    MemoryExecute { address: u64 },
    UnsupportedRegister(String),
    UnsupportedOperand(String),
}

/// `0x` and at least eight lower-case hexadecimal digits.
pub open spec fn hex_address(n: nat) -> Seq<char> {
    "0x"@ + pad_left(hex_lower(n), 8, '0')
}

/// The message an error is reported with.
pub open spec fn error_message(e: DynamicError) -> Seq<char> {
    match e {
        DynamicError::Empty => "sample is empty"@,
        DynamicError::TooLarge => "sample exceeds the 128 MiB hard limit"@,
        DynamicError::InvalidPe(s) => "invalid PE: "@ + s@,
        DynamicError::UnsupportedTarget(s) => "unsupported target: "@ + s@,
        DynamicError::MemoryLimit => "dynamic memory limit exceeded"@,
        DynamicError::OverlappingRegion { address } => "memory region overlaps at "@ + hex_address(address as nat),
        DynamicError::MemoryRead { address } => "memory read failed at "@ + hex_address(address as nat),
        DynamicError::MemoryWrite { address } => "memory write failed at "@ + hex_address(address as nat),
        DynamicError::MemoryExecute { address } => "instruction fetch failed at "@ + hex_address(address as nat),
        DynamicError::UnsupportedRegister(s) => "unsupported register "@ + s@,
        DynamicError::UnsupportedOperand(s) => "unsupported operand "@ + s@,
    }
}

impl DynamicError {
    /// The message the error is reported with.
    pub fn message(&self) -> (s: String)
        ensures
            s@ == error_message(*self),
    {
        let mut s = String::new();
        match self {
            DynamicError::Empty => push_str(&mut s, "sample is empty"),
            DynamicError::TooLarge => push_str(&mut s, "sample exceeds the 128 MiB hard limit"),
            DynamicError::InvalidPe(detail) => {
                push_str(&mut s, "invalid PE: ");
                push_str(&mut s, detail.as_str());
            },
            DynamicError::UnsupportedTarget(detail) => {
                push_str(&mut s, "unsupported target: ");
                push_str(&mut s, detail.as_str());
            },
            DynamicError::MemoryLimit => push_str(&mut s, "dynamic memory limit exceeded"),
            DynamicError::OverlappingRegion { address } => {
                push_str(&mut s, "memory region overlaps at 0x");
                push_hex_padded(&mut s, *address, 8);
            },
            DynamicError::MemoryRead { address } => {
                push_str(&mut s, "memory read failed at 0x");
                push_hex_padded(&mut s, *address, 8);
            },
            DynamicError::MemoryWrite { address } => {
                push_str(&mut s, "memory write failed at 0x");
                push_hex_padded(&mut s, *address, 8);
            },
            DynamicError::MemoryExecute { address } => {
                push_str(&mut s, "instruction fetch failed at 0x");
                push_hex_padded(&mut s, *address, 8);
            },
            DynamicError::UnsupportedRegister(detail) => {
                push_str(&mut s, "unsupported register ");
                push_str(&mut s, detail.as_str());
            },
            DynamicError::UnsupportedOperand(detail) => {
                push_str(&mut s, "unsupported operand ");
                push_str(&mut s, detail.as_str());
            },
        }
        proof {
            reveal_strlit("memory region overlaps at 0x");
            reveal_strlit("memory region overlaps at ");
            reveal_strlit("memory read failed at 0x");
            reveal_strlit("memory read failed at ");
            reveal_strlit("memory write failed at 0x");
            reveal_strlit("memory write failed at ");
            reveal_strlit("instruction fetch failed at 0x");
            reveal_strlit("instruction fetch failed at ");
            reveal_strlit("0x");
        }
        assert("memory region overlaps at 0x"@ =~= "memory region overlaps at "@ + "0x"@);
        assert("memory read failed at 0x"@ =~= "memory read failed at "@ + "0x"@);
        assert("memory write failed at 0x"@ =~= "memory write failed at "@ + "0x"@);
        assert("instruction fetch failed at 0x"@ =~= "instruction fetch failed at "@ + "0x"@);
        s
    }
}

} // verus!
