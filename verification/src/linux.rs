//! The synthetic Linux runtime's fixed tables: syscall names, errno
//! results, page permissions, the standard descriptors and the files every
//! run starts with.
use vstd::prelude::*;

use crate::dynamic_model::EnvironmentProfile;
use crate::engine::preview_char;
use crate::memory::Permissions;
use crate::text::{decimal, push_char, push_decimal, push_str};

verus! {

/// An open descriptor of the synthetic Linux process.
#[derive(Debug, Clone)]
pub struct FileDescriptor {
    pub path: String,
    pub cursor: usize,
    pub writable: bool,
    pub socket: bool,
}

/// The name a Linux x86-64 syscall number is reported under.
pub open spec fn syscall_name_spec(number: u64) -> Seq<char> {
    if number == 0 { "read"@ }
    else if number == 1 { "write"@ }
    else if number == 2 { "open"@ }
    else if number == 3 { "close"@ }
    else if number == 9 { "mmap"@ }
    else if number == 10 { "mprotect"@ }
    else if number == 11 { "munmap"@ }
    else if number == 12 { "brk"@ }
    else if number == 21 { "access"@ }
    else if number == 35 { "nanosleep"@ }
    else if number == 39 { "getpid"@ }
    else if number == 41 { "socket"@ }
    else if number == 42 { "connect"@ }
    else if number == 44 { "sendto"@ }
    else if number == 45 { "recvfrom"@ }
    else if number == 59 { "execve"@ }
    else if number == 60 { "exit"@ }
    else if number == 63 { "uname"@ }
    else if number == 89 { "readlink"@ }
    else if number == 96 { "gettimeofday"@ }
    else if number == 102 { "getuid"@ }
    else if number == 104 { "getgid"@ }
    else if number == 107 { "geteuid"@ }
    else if number == 108 { "getegid"@ }
    else if number == 158 { "arch_prctl"@ }
    else if number == 202 { "futex"@ }
    else if number == 218 { "set_tid_address"@ }
    else if number == 228 { "clock_gettime"@ }
    else if number == 230 { "clock_nanosleep"@ }
    else if number == 231 { "exit_group"@ }
    else if number == 257 { "openat"@ }
    else if number == 262 { "newfstatat"@ }
    else if number == 273 { "set_robust_list"@ }
    else if number == 302 { "prlimit64"@ }
    else if number == 318 { "getrandom"@ }
    else if number == 334 { "rseq"@ }
    else { "unknown_syscall"@ }
}

/// The name a Linux x86-64 syscall number is reported under.
pub fn syscall_name(number: u64) -> (r: &'static str)
    ensures
        r@ == syscall_name_spec(number),
{
    if number == 0 { "read" }
    else if number == 1 { "write" }
    else if number == 2 { "open" }
    else if number == 3 { "close" }
    else if number == 9 { "mmap" }
    else if number == 10 { "mprotect" }
    else if number == 11 { "munmap" }
    else if number == 12 { "brk" }
    else if number == 21 { "access" }
    else if number == 35 { "nanosleep" }
    else if number == 39 { "getpid" }
    else if number == 41 { "socket" }
    else if number == 42 { "connect" }
    else if number == 44 { "sendto" }
    else if number == 45 { "recvfrom" }
    else if number == 59 { "execve" }
    else if number == 60 { "exit" }
    else if number == 63 { "uname" }
    else if number == 89 { "readlink" }
    else if number == 96 { "gettimeofday" }
    else if number == 102 { "getuid" }
    else if number == 104 { "getgid" }
    else if number == 107 { "geteuid" }
    else if number == 108 { "getegid" }
    else if number == 158 { "arch_prctl" }
    else if number == 202 { "futex" }
    else if number == 218 { "set_tid_address" }
    else if number == 228 { "clock_gettime" }
    else if number == 230 { "clock_nanosleep" }
    else if number == 231 { "exit_group" }
    else if number == 257 { "openat" }
    else if number == 262 { "newfstatat" }
    else if number == 273 { "set_robust_list" }
    else if number == 302 { "prlimit64" }
    else if number == 318 { "getrandom" }
    else if number == 334 { "rseq" }
    else { "unknown_syscall" }
}

/// The summary of a syscall: its name and its result, read as a signed
/// 64-bit value.
pub open spec fn syscall_summary_spec(name: Seq<char>, result: u64) -> Seq<char> {
    if result >= 0x8000_0000_0000_0000 {
        "Synthetic Linux "@ + name + " returned -"@ + decimal((0x1_0000_0000_0000_0000 - result) as nat)
    } else {
        "Synthetic Linux "@ + name + " returned "@ + decimal(result as nat)
    }
}

/// The summary recorded for a syscall.
pub fn syscall_summary(name: &str, result: u64) -> (s: String)
    ensures
        s@ == syscall_summary_spec(name@, result),
{
    let mut s = "Synthetic Linux ".to_owned();
    push_str(&mut s, name);
    if result >= 0x8000_0000_0000_0000 {
        push_str(&mut s, " returned -");
        let magnitude: u64 = (0xffff_ffff_ffff_ffffu64 - result) + 1;
        push_decimal(&mut s, magnitude);
    } else {
        push_str(&mut s, " returned ");
        push_decimal(&mut s, result);
    }
    s
}

/// A negated error number as a syscall returns it: `-value` as 64 bits.
pub open spec fn errno_spec(value: i64) -> u64 {
    if value <= 0 {
        (-value) as u64
    } else {
        (0x1_0000_0000_0000_0000 - value) as u64
    }
}

/// The syscall result for error number `value`.
pub fn errno(value: i64) -> (r: u64)
    requires
        value > i64::MIN,
    ensures
        r == errno_spec(value),
{
    let negated: i64 = -value;
    if negated >= 0 {
        negated as u64
    } else {
        let magnitude: u64 = value as u64;
        (0xffff_ffff_ffff_ffffu64 - magnitude) + 1
    }
}

/// The page permissions of a `PROT_*` mask: read, write, execute bits.
pub fn linux_permissions(prot: u64) -> (p: Permissions)
    ensures
        p.read == (prot % 2 == 1),
        p.write == ((prot / 2) % 2 == 1),
        p.execute == ((prot / 4) % 2 == 1),
{
    let read = prot & 1 != 0;
    let write = prot & 2 != 0;
    let execute = prot & 4 != 0;
    assert((prot & 1 != 0) == (prot % 2 == 1)) by (bit_vector);
    assert((prot & 2 != 0) == ((prot / 2) % 2 == 1)) by (bit_vector);
    assert((prot & 4 != 0) == ((prot / 4) % 2 == 1)) by (bit_vector);
    Permissions { read, write, execute }
}

/// The first 96 bytes of `d`, printable ASCII kept and anything else as `.`.
pub open spec fn linux_preview(d: Seq<u8>) -> Seq<char> {
    let n = if d.len() < 96 { d.len() } else { 96 };
    d.subrange(0, n as int).map_values(|b: u8| preview_char(b))
}

/// A short printable preview of transferred bytes.
pub fn preview(bytes: &[u8]) -> (s: String)
    ensures
        s@ == linux_preview(bytes@),
{
    let n = if bytes.len() < 96 { bytes.len() } else { 96 };
    let mut s = String::new();
    let mut i: usize = 0;
    while i < n
        invariant
            i <= n,
            n <= bytes@.len(),
            n == (if bytes@.len() < 96 { bytes@.len() } else { 96 }),
            s@ == bytes@.subrange(0, i as int).map_values(|b: u8| preview_char(b)),
        decreases n - i,
    {
        let b = bytes[i];
        let c = if 0x20 <= b && b <= 0x7e { b as char } else { '.' };
        push_char(&mut s, c);
        i = i + 1;
        assert(s@ =~= bytes@.subrange(0, i as int).map_values(|b: u8| preview_char(b)));
    }
    s
}

/// Standard input, output and error: descriptors 0, 1 and 2 at offset
/// zero, only output and error writable.
pub fn default_descriptors() -> (r: Vec<(i32, FileDescriptor)>)
    ensures
        r@.len() == 3,
        r@[0].0 == 0 && r@[0].1.path@ == "/dev/stdin"@ && r@[0].1.cursor == 0 && !r@[0].1.writable && !r@[0].1.socket,
        r@[1].0 == 1 && r@[1].1.path@ == "/dev/stdout"@ && r@[1].1.cursor == 0 && r@[1].1.writable && !r@[1].1.socket,
        r@[2].0 == 2 && r@[2].1.path@ == "/dev/stderr"@ && r@[2].1.cursor == 0 && r@[2].1.writable && !r@[2].1.socket,
{
    let mut r: Vec<(i32, FileDescriptor)> = Vec::new();
    r.push((0, FileDescriptor { path: "/dev/stdin".to_owned(), cursor: 0, writable: false, socket: false }));
    r.push((1, FileDescriptor { path: "/dev/stdout".to_owned(), cursor: 0, writable: true, socket: false }));
    r.push((2, FileDescriptor { path: "/dev/stderr".to_owned(), cursor: 0, writable: true, socket: false }));
    r
}

/// `/proc/self/status` of the synthetic process: a tracer is shown when
/// the profile has a debugger attached.
pub open spec fn status_text(debugger_present: bool) -> Seq<char> {
    "Name:\tsample\nPid:\t4242\nUid:\t1000\t1000\t1000\t1000\nTracerPid:\t"@ + decimal(if debugger_present { 1337nat } else { 0nat }) + "\n"@
}

/// `/proc/cpuinfo` of the synthetic machine, with the profile's CPU count.
pub open spec fn cpuinfo_text(cpu_count: u32) -> Seq<char> {
    "processor\t: 0\nmodel name\t: Synthetic x86-64\ncpu cores\t: "@ + decimal(cpu_count as nat) + "\n"@
}

fn text_bytes(s: &str) -> (r: Vec<u8>)
    ensures
        r@ == vstd::utf8::encode_utf8(s@),
{
    let bytes = s.as_bytes();
    let mut r: Vec<u8> = Vec::new();
    let mut i: usize = 0;
    while i < bytes.len()
        invariant
            i <= bytes@.len(),
            bytes@ == vstd::utf8::encode_utf8(s@),
            r@ == bytes@.subrange(0, i as int),
        decreases bytes@.len() - i,
    {
        r.push(bytes[i]);
        i = i + 1;
        assert(r@ =~= bytes@.subrange(0, i as int));
    }
    assert(bytes@.subrange(0, bytes@.len() as int) =~= bytes@);
    r
}

/// The files every Linux run starts with, in path order: the three
/// standard streams (empty), `/etc/hostname`, `/proc/cpuinfo` and
/// `/proc/self/status`.
pub fn default_files(environment: &EnvironmentProfile) -> (r: Vec<(String, Vec<u8>)>)
    ensures
        r@.len() == 6,
        r@[0].0@ == "/dev/stderr"@ && r@[0].1@.len() == 0,
        r@[1].0@ == "/dev/stdin"@ && r@[1].1@.len() == 0,
        r@[2].0@ == "/dev/stdout"@ && r@[2].1@.len() == 0,
        r@[3].0@ == "/etc/hostname"@ && r@[3].1@ == "NOPE-LINUX\n"@.map_values(|c: char| c as u8),
        r@[4].0@ == "/proc/cpuinfo"@ && r@[4].1@ == vstd::utf8::encode_utf8(cpuinfo_text(environment.cpu_count)),
        r@[5].0@ == "/proc/self/status"@ && r@[5].1@ == vstd::utf8::encode_utf8(status_text(environment.debugger_present)),
{
    let mut status = "Name:\tsample\nPid:\t4242\nUid:\t1000\t1000\t1000\t1000\nTracerPid:\t".to_owned();
    push_decimal(&mut status, if environment.debugger_present { 1337 } else { 0 });
    push_str(&mut status, "\n");
    let mut cpuinfo = "processor\t: 0\nmodel name\t: Synthetic x86-64\ncpu cores\t: ".to_owned();
    push_decimal(&mut cpuinfo, environment.cpu_count as u64);
    push_str(&mut cpuinfo, "\n");
    let hostname = text_bytes("NOPE-LINUX\n");
    proof {
        reveal_strlit("NOPE-LINUX\n");
        vstd::utf8::is_ascii_chars_encode_utf8("NOPE-LINUX\n"@);
        assert(hostname@ =~= "NOPE-LINUX\n"@.map_values(|c: char| c as u8));
    }
    let mut r: Vec<(String, Vec<u8>)> = Vec::new();
    r.push(("/dev/stderr".to_owned(), Vec::new()));
    r.push(("/dev/stdin".to_owned(), Vec::new()));
    r.push(("/dev/stdout".to_owned(), Vec::new()));
    r.push(("/etc/hostname".to_owned(), hostname));
    r.push(("/proc/cpuinfo".to_owned(), text_bytes(cpuinfo.as_str())));
    r.push(("/proc/self/status".to_owned(), text_bytes(status.as_str())));
    r
}

} // verus!
