//! Helpers of the 64-bit Windows emulator: page protections and the
//! previews of transferred bytes.
use vstd::prelude::*;

use crate::dynamic_model::is_control_char;
use crate::memory::Permissions;
use crate::text::{chars_of, lossy_utf8, push_char, utf8_lossy};

verus! {

/// The permissions a Windows page-protection constant grants on x64:
/// readable unless `PAGE_NOACCESS`, writable for the read-write and
/// write-copy kinds, executable for the execute kinds.
pub open spec fn protection64_spec(value: u32) -> Permissions {
    Permissions {
        read: value != 0x01,
        write: value == 0x04 || value == 0x08 || value == 0x40 || value == 0x80,
        execute: value == 0x10 || value == 0x20 || value == 0x40 || value == 0x80,
    }
}

/// The permissions a Windows page-protection constant grants on x64.
pub fn protection64(value: u32) -> (p: Permissions)
    ensures
        p == protection64_spec(value),
{
    Permissions {
        read: value != 0x01,
        write: value == 0x04 || value == 0x08 || value == 0x40 || value == 0x80,
        execute: value == 0x10 || value == 0x20 || value == 0x40 || value == 0x80,
    }
}

/// A character as a preview shows it: control characters other than line
/// breaks and tabs become `.`.
pub open spec fn preview64_char(c: char) -> char {
    if is_control_char(c) && c != '\n' && c != '\r' && c != '\t' {
        '.'
    } else {
        c
    }
}

/// The first 160 bytes of `b`, decoded as lossy UTF-8, with control
/// characters other than line breaks and tabs shown as `.`.
pub open spec fn preview64_text(b: Seq<u8>) -> Seq<char> {
    let n = if b.len() < 160 { b.len() } else { 160 };
    lossy_utf8(b.subrange(0, n as int)).map_values(|c: char| preview64_char(c))
}

/// A printable preview of transferred bytes.
pub fn preview_bytes(bytes: &[u8]) -> (s: String)
    ensures
        s@ == preview64_text(bytes@),
{
    let n = if bytes.len() < 160 { bytes.len() } else { 160 };
    let decoded = chars_of(utf8_lossy(vstd::slice::slice_subrange(bytes, 0, n)).as_str());
    let ghost d = decoded@;
    let mut s = String::new();
    let mut i: usize = 0;
    while i < decoded.len()
        invariant
            i <= decoded@.len(),
            d == decoded@,
            s@ == d.subrange(0, i as int).map_values(|c: char| preview64_char(c)),
        decreases decoded@.len() - i,
    {
        let c = decoded[i];
        let v = c as u32;
        let shown = if (v <= 0x1f || (0x7f <= v && v <= 0x9f)) && c != '\n' && c != '\r' && c != '\t' { '.' } else { c };
        push_char(&mut s, shown);
        i = i + 1;
        assert(s@ =~= d.subrange(0, i as int).map_values(|c: char| preview64_char(c)));
    }
    assert(d.subrange(0, d.len() as int) =~= d);
    s
}

} // verus!
