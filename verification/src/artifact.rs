//! What the dynamic engines keep of runtime artifacts (memory regions,
//! virtual files, downloads): the capture request, and the format,
//! signal, string and indicator triage of captured bytes.
use vstd::prelude::*;

use crate::dynamic_model::{is_control_char, kept_chars, ArtifactIndicator, ArtifactKind, ArtifactString};
use crate::text::{
    chars_of, lossy_utf8, lower_seq, seq_contains, string_from_chars, take_chars, to_lower_char, utf8_lossy, vec_contains,
};

verus! {

/// Largest number of artifacts a run keeps.
pub const MAX_ARTIFACTS: usize = 128;

/// Largest artifact kept (4 MiB); longer ones are cut.
pub const MAX_ARTIFACT_BYTES: usize = 4194304;

/// Largest total of artifact bytes a run keeps (32 MiB).
pub const MAX_TOTAL_ARTIFACT_BYTES: usize = 33554432;

/// What is asked of the artifact store: what the bytes are, under which
/// name and trigger, where they came from, and whether to keep them even
/// when they look uninteresting.
pub struct ArtifactCapture<'a> {
    pub kind: ArtifactKind,
    pub name: String,
    pub trigger: &'a str,
    pub address: Option<u64>,
    pub path: Option<String>,
    pub permissions: Option<String>,
    pub force: bool,
}

/// `b` starts with `prefix`.
pub open spec fn bytes_start_with(b: Seq<u8>, prefix: Seq<u8>) -> bool {
    prefix.len() <= b.len() && b.subrange(0, prefix.len() as int) == prefix
}

/// The format its magic bytes give a captured artifact.
pub open spec fn format_of(b: Seq<u8>) -> Seq<char> {
    if bytes_start_with(b, seq![0x4du8, 0x5au8]) {
        "pe"@
    } else if bytes_start_with(b, seq![0x7fu8, 0x45u8, 0x4cu8, 0x46u8]) {
        "elf"@
    } else if bytes_start_with(b, seq![0x00u8, 0x61u8, 0x73u8, 0x6du8]) {
        "web_assembly"@
    } else if bytes_start_with(b, seq![0xcfu8, 0xfau8, 0xedu8, 0xfeu8]) || bytes_start_with(b, seq![0xfeu8, 0xedu8, 0xfau8, 0xcfu8]) {
        "mach_o"@
    } else {
        "unknown"@
    }
}

fn starts_with_bytes(b: &[u8], prefix: &[u8]) -> (r: bool)
    ensures
        r == bytes_start_with(b@, prefix@),
{
    if prefix.len() > b.len() {
        return false;
    }
    let mut i: usize = 0;
    while i < prefix.len()
        invariant
            i <= prefix@.len(),
            prefix@.len() <= b@.len(),
            forall|j: int| 0 <= j < i ==> b@[j] == prefix@[j],
        decreases prefix@.len() - i,
    {
        if b[i] != prefix[i] {
            assert(b@.subrange(0, prefix@.len() as int)[i as int] != prefix@[i as int]);
            return false;
        }
        i = i + 1;
    }
    assert(b@.subrange(0, prefix@.len() as int) =~= prefix@);
    true
}

/// The format of a captured artifact by its magic bytes: `pe`, `elf`,
/// `web_assembly`, `mach_o`, or `unknown`.
pub fn detect_format(bytes: &[u8]) -> (r: &'static str)
    ensures
        r@ == format_of(bytes@),
{
    let pe: [u8; 2] = [0x4d, 0x5a];
    let elf: [u8; 4] = [0x7f, 0x45, 0x4c, 0x46];
    let wasm: [u8; 4] = [0x00, 0x61, 0x73, 0x6d];
    let macho_le: [u8; 4] = [0xcf, 0xfa, 0xed, 0xfe];
    let macho_be: [u8; 4] = [0xfe, 0xed, 0xfa, 0xcf];
    assert(pe@ =~= seq![0x4du8, 0x5au8]);
    assert(elf@ =~= seq![0x7fu8, 0x45u8, 0x4cu8, 0x46u8]);
    assert(wasm@ =~= seq![0x00u8, 0x61u8, 0x73u8, 0x6du8]);
    assert(macho_le@ =~= seq![0xcfu8, 0xfau8, 0xedu8, 0xfeu8]);
    assert(macho_be@ =~= seq![0xfeu8, 0xedu8, 0xfau8, 0xcfu8]);
    if starts_with_bytes(bytes, pe.as_slice()) {
        "pe"
    } else if starts_with_bytes(bytes, elf.as_slice()) {
        "elf"
    } else if starts_with_bytes(bytes, wasm.as_slice()) {
        "web_assembly"
    } else if starts_with_bytes(bytes, macho_le.as_slice()) || starts_with_bytes(bytes, macho_be.as_slice()) {
        "mach_o"
    } else {
        "unknown"
    }
}

/// How many of the six suspicious markers (two URL schemes, PowerShell, the
/// `CurrentVersion\Run` key, `cmd.exe`, a `User-Agent` header) occur in the
/// ASCII-lower-cased decoding of `b`.
pub open spec fn signals_in(b: Seq<u8>) -> nat {
    let lower = lower_seq(lossy_utf8(b));
    (if seq_contains(lower, "http://"@) { 1nat } else { 0nat }) + (if seq_contains(lower, "https://"@) { 1nat } else { 0nat })
        + (if seq_contains(lower, "powershell"@) { 1nat } else { 0nat }) + (if seq_contains(lower, "currentversion\\run"@) { 1nat } else { 0nat })
        + (if seq_contains(lower, "cmd.exe"@) { 1nat } else { 0nat }) + (if seq_contains(lower, "user-agent"@) { 1nat } else { 0nat })
}

fn lower_vec(v: &Vec<char>) -> (r: Vec<char>)
    ensures
        r@ == lower_seq(v@),
{
    let mut out: Vec<char> = Vec::new();
    let mut i: usize = 0;
    while i < v.len()
        invariant
            i <= v@.len(),
            out@ == lower_seq(v@.subrange(0, i as int)),
        decreases v@.len() - i,
    {
        out.push(to_lower_char(v[i]));
        i = i + 1;
        assert(out@ =~= lower_seq(v@.subrange(0, i as int)));
    }
    assert(v@.subrange(0, v@.len() as int) =~= v@);
    out
}

fn holds(hay: &Vec<char>, needle: &str) -> (r: bool)
    ensures
        r == seq_contains(hay@, needle@),
{
    vec_contains(hay, &chars_of(needle))
}

/// How many suspicious markers the bytes hold.
pub fn signal_count(bytes: &[u8]) -> (r: usize)
    ensures
        r == signals_in(bytes@),
{
    let text = utf8_lossy(bytes);
    let lower = lower_vec(&chars_of(text.as_str()));
    let mut count: usize = 0;
    if holds(&lower, "http://") {
        count = count + 1;
    }
    if holds(&lower, "https://") {
        count = count + 1;
    }
    if holds(&lower, "powershell") {
        count = count + 1;
    }
    if holds(&lower, "currentversion\\run") {
        count = count + 1;
    }
    if holds(&lower, "cmd.exe") {
        count = count + 1;
    }
    if holds(&lower, "user-agent") {
        count = count + 1;
    }
    count
}

/// A byte an artifact string keeps: printable ASCII (no tab).
pub open spec fn text_byte(b: u8) -> bool {
    0x20 <= b && b <= 0x7e
}

/// Where the printable chunk that begins at `start` ends, scanning from
/// `i`: at the first byte that is not printable, or after 512 bytes.
pub open spec fn chunk_end(b: Seq<u8>, i: int, start: int) -> int
    decreases b.len() - i,
{
    if 0 <= i < b.len() && text_byte(b[i]) && i - start < 512 {
        chunk_end(b, i + 1, start)
    } else {
        i
    }
}

proof fn lemma_chunk_end(b: Seq<u8>, i: int, start: int)
    requires
        0 <= start < i <= b.len(),
        i - start <= 512,
    ensures
        i <= chunk_end(b, i, start) <= b.len(),
        chunk_end(b, i, start) - start <= 512,
    decreases b.len() - i,
{
    if i < b.len() && text_byte(b[i]) && i - start < 512 {
        lemma_chunk_end(b, i + 1, start);
    }
}

/// The printable chunks (at most 512 bytes each, a longer run going on in
/// the next chunk) of at least four bytes from `start` on, as (start, end).
pub open spec fn artifact_chunks(b: Seq<u8>, start: int) -> Seq<(int, int)>
    decreases b.len() - start,
{
    if start < 0 || start >= b.len() {
        Seq::empty()
    } else if text_byte(b[start]) {
        let end = chunk_end(b, start + 1, start);
        if end <= start || end > b.len() {
            Seq::empty()
        } else {
            let rest = artifact_chunks(b, end);
            if end - start >= 4 {
                seq![(start, end)] + rest
            } else {
                rest
            }
        }
    } else {
        artifact_chunks(b, start + 1)
    }
}

/// The strings of a captured artifact: its first 256 chunks, each with its
/// offset and text.
pub open spec fn artifact_strings_spec(b: Seq<u8>) -> Seq<(u64, Seq<char>)> {
    let all = artifact_chunks(b, 0);
    let kept = if all.len() <= 256 { all } else { all.subrange(0, 256) };
    kept.map_values(|c: (int, int)| (c.0 as u64, b.subrange(c.0, c.1).map_values(|x: u8| x as char)))
}

/// An artifact string as values: offset and text (its encoding is always `ascii`).
pub open spec fn artifact_string_view(s: ArtifactString) -> (u64, Seq<char>) {
    (s.offset, s.value@)
}

/// The printable strings of a captured artifact, at most 256.
pub fn extract_strings(bytes: &[u8]) -> (r: Vec<ArtifactString>)
    ensures
        r@.map_values(|s: ArtifactString| artifact_string_view(s)) == artifact_strings_spec(bytes@),
        forall|k: int| 0 <= k < r@.len() ==> (#[trigger] r@[k]).encoding@ == "ascii"@,
{
    let ghost all = artifact_chunks(bytes@, 0);
    let ghost f = |c: (int, int)| (c.0 as u64, bytes@.subrange(c.0, c.1).map_values(|x: u8| x as char));
    let mut result: Vec<ArtifactString> = Vec::new();
    let mut start: usize = 0;
    let ghost mut done: Seq<(int, int)> = Seq::empty();
    while start < bytes.len() && result.len() < 256
        invariant
            start <= bytes@.len(),
            all == artifact_chunks(bytes@, 0),
            all == done + artifact_chunks(bytes@, start as int),
            result@.len() == done.len(),
            result@.len() <= 256,
            result@.map_values(|s: ArtifactString| artifact_string_view(s)) == done.map_values(f),
            forall|k: int| 0 <= k < result@.len() ==> (#[trigger] result@[k]).encoding@ == "ascii"@,
            f == (|c: (int, int)| (c.0 as u64, bytes@.subrange(c.0, c.1).map_values(|x: u8| x as char))),
        decreases bytes@.len() - start,
    {
        let b = bytes[start];
        if 0x20 <= b && b <= 0x7e {
            let mut end = start + 1;
            proof {
                lemma_chunk_end(bytes@, start + 1, start as int);
            }
            while end < bytes.len() && 0x20 <= bytes[end] && bytes[end] <= 0x7e && end - start < 512
                invariant
                    start < end <= bytes@.len(),
                    end - start <= 512,
                    chunk_end(bytes@, start + 1, start as int) == chunk_end(bytes@, end as int, start as int),
                    forall|j: int| start <= j < end ==> text_byte(#[trigger] bytes@[j]),
                decreases bytes@.len() - end,
            {
                end = end + 1;
            }
            let ghost rest = artifact_chunks(bytes@, end as int);
            assert(chunk_end(bytes@, start + 1, start as int) == end);
            if end - start >= 4 {
                let part = vstd::slice::slice_subrange(bytes, start, end);
                let value = utf8_lossy(part);
                proof {
                    assert forall|i: int| 0 <= i < part@.len() implies #[trigger] part@[i] < 128 by {
                        assert(part@[i] == bytes@[start + i]);
                        assert(text_byte(bytes@[start + i]));
                    }
                    assert(value@ =~= bytes@.subrange(start as int, end as int).map_values(|x: u8| x as char));
                    assert(artifact_chunks(bytes@, start as int) == seq![(start as int, end as int)] + rest);
                }
                let ghost before = result@;
                result.push(ArtifactString { offset: start as u64, encoding: "ascii".to_owned(), value });
                proof {
                    let c = (start as int, end as int);
                    assert(result@.map_values(|s: ArtifactString| artifact_string_view(s)) =~= before.map_values(
                        |s: ArtifactString| artifact_string_view(s),
                    ).push(f(c)));
                    assert(done.push(c).map_values(f) =~= done.map_values(f).push(f(c)));
                    assert(done + artifact_chunks(bytes@, start as int) =~= done.push(c) + rest);
                    done = done.push(c);
                }
            } else {
                assert(artifact_chunks(bytes@, start as int) == rest);
            }
            start = end;
        } else {
            start = start + 1;
        }
    }
    proof {
        let rest = artifact_chunks(bytes@, start as int);
        let kept = if all.len() <= 256 { all } else { all.subrange(0, 256) };
        if start >= bytes@.len() {
            assert(rest =~= Seq::<(int, int)>::empty());
            assert(all =~= done);
        } else {
            assert(done.len() == 256);
            assert((done + rest).subrange(0, 256) =~= done);
            if rest.len() == 0 {
                assert(all =~= done);
            }
        }
        assert(kept =~= done);
    }
    result
}

/// The indicator kind of an artifact string: a URL, a Run key, or a command.
pub open spec fn artifact_kind(value: Seq<char>) -> Option<Seq<char>> {
    let lower = lower_seq(value);
    if seq_contains(lower, "http://"@) || seq_contains(lower, "https://"@) {
        Some("url"@)
    } else if seq_contains(lower, "currentversion\\run"@) {
        Some("registry"@)
    } else if seq_contains(lower, "powershell"@) || seq_contains(lower, "cmd.exe"@) {
        Some("command"@)
    } else {
        None
    }
}

/// The indicators among artifact strings given as (text, offset), in order.
pub open spec fn artifact_indicators_of(items: Seq<(Seq<char>, u64)>) -> Seq<(Seq<char>, Seq<char>, u64)>
    decreases items.len(),
{
    if items.len() == 0 {
        Seq::empty()
    } else {
        let rest = artifact_indicators_of(items.drop_last());
        match artifact_kind(items.last().0) {
            Some(k) => rest.push((k, items.last().0, items.last().1)),
            None => rest,
        }
    }
}

/// The first 128 indicators of a captured artifact's strings.
pub open spec fn artifact_indicators_spec(items: Seq<(Seq<char>, u64)>) -> Seq<(Seq<char>, Seq<char>, u64)> {
    let all = artifact_indicators_of(items);
    if all.len() <= 128 {
        all
    } else {
        all.subrange(0, 128)
    }
}

proof fn lemma_indicators_grow(items: Seq<(Seq<char>, u64)>, n: int)
    requires
        0 <= n <= items.len(),
    ensures
        artifact_indicators_of(items).len() >= artifact_indicators_of(items.subrange(0, n)).len(),
        artifact_indicators_of(items).subrange(0, artifact_indicators_of(items.subrange(0, n)).len() as int)
            == artifact_indicators_of(items.subrange(0, n)),
    decreases items.len(),
{
    if n == items.len() {
        assert(items.subrange(0, n) =~= items);
        assert(artifact_indicators_of(items).subrange(0, artifact_indicators_of(items).len() as int) =~= artifact_indicators_of(items));
    } else {
        assert(items.drop_last().subrange(0, n) =~= items.subrange(0, n));
        lemma_indicators_grow(items.drop_last(), n);
        let a = artifact_indicators_of(items.subrange(0, n));
        let d = artifact_indicators_of(items.drop_last());
        assert(artifact_indicators_of(items).subrange(0, a.len() as int) =~= d.subrange(0, a.len() as int));
    }
}

/// The URLs, Run keys and command lines among an artifact's strings (the
/// whole string as the value), at most 128.
pub fn extract_indicators(strings: &[ArtifactString]) -> (r: Vec<ArtifactIndicator>)
    ensures
        r@.map_values(|i: ArtifactIndicator| (i.kind@, i.value@, i.offset)) == artifact_indicators_spec(
            strings@.map_values(|s: ArtifactString| (s.value@, s.offset)),
        ),
{
    let ghost items = strings@.map_values(|s: ArtifactString| (s.value@, s.offset));
    let mut out: Vec<ArtifactIndicator> = Vec::new();
    let mut i: usize = 0;
    assert(items.subrange(0, 0) =~= Seq::<(Seq<char>, u64)>::empty());
    while i < strings.len() && out.len() < 128
        invariant
            i <= strings@.len(),
            items == strings@.map_values(|s: ArtifactString| (s.value@, s.offset)),
            out@.map_values(|i: ArtifactIndicator| (i.kind@, i.value@, i.offset)) == artifact_indicators_of(items.subrange(0, i as int)),
            out@.len() <= 128,
        decreases strings@.len() - i,
    {
        let value = &strings[i].value;
        let lower = lower_vec(&chars_of(value.as_str()));
        let kind: Option<&str> = if holds(&lower, "http://") || holds(&lower, "https://") {
            Some("url")
        } else if holds(&lower, "currentversion\\run") {
            Some("registry")
        } else if holds(&lower, "powershell") || holds(&lower, "cmd.exe") {
            Some("command")
        } else {
            None
        };
        let ghost before = out@.map_values(|i: ArtifactIndicator| (i.kind@, i.value@, i.offset));
        proof {
            assert(items.subrange(0, i + 1).drop_last() =~= items.subrange(0, i as int));
            assert(items.subrange(0, i + 1).last() == (value@, strings@[i as int].offset));
        }
        match kind {
            Some(k) => {
                out.push(ArtifactIndicator { kind: k.to_owned(), value: value.clone(), offset: strings[i].offset });
                assert(out@.map_values(|i: ArtifactIndicator| (i.kind@, i.value@, i.offset)) =~= before.push(
                    (k@, value@, strings@[i as int].offset),
                ));
            },
            None => {},
        }
        i = i + 1;
    }
    proof {
        lemma_indicators_grow(items, i as int);
        let all = artifact_indicators_of(items);
        let got = artifact_indicators_of(items.subrange(0, i as int));
        if i >= strings@.len() {
            assert(items.subrange(0, i as int) =~= items);
        } else {
            assert(got.len() == 128);
            if all.len() == 128 {
                assert(all =~= all.subrange(0, 128));
            }
        }
    }
    out
}

/// The name an artifact is listed under: control characters dropped, at
/// most 160 characters, `artifact.bin` when nothing is left.
pub open spec fn artifact_name(name: Seq<char>) -> Seq<char> {
    let clean = take_chars(name.filter(|c: char| !is_control_char(c)), 160);
    if clean.len() == 0 {
        "artifact.bin"@
    } else {
        clean
    }
}

/// The name an artifact is listed under.
pub fn sanitize_name(name: &str) -> (r: String)
    ensures
        r@ == artifact_name(name@),
{
    let kept = kept_chars(&chars_of(name), 160);
    if kept.len() == 0 {
        "artifact.bin".to_owned()
    } else {
        string_from_chars(&kept)
    }
}

} // verus!
