//! Bounded triage of raw bytes: the name a sample is shown under, the
//! printable strings it holds, and the indicators found among them.
use vstd::prelude::*;

use crate::api::{all_digits, digits_value, parse_usize, parse_usize_spec};
use crate::core_model::{
    AnalysisOptions, Confidence, Evidence, ExtractedString, Finding, Indicator, Severity, MAX_COLLECTION_ITEMS, MAX_STRING_BYTES,
    MAX_STRING_LENGTH,
};
use crate::dynamic_model::{is_control_char, is_white_char, kept_chars, white_char};
use crate::text::{
    all_ascii, chars_equal, chars_of, copy_chars, lower_char, lower_seq, matches_at, seq_contains, seq_starts_with, string_from_chars, take_chars,
    push_str, to_lower_char, utf8_lossy, vec_contains, vec_matches_at,
};

verus! {

// ----- sample names -----

/// A path separator in a sample name.
pub open spec fn is_separator(c: char) -> bool {
    c == '/' || c == '\\'
}

/// Position of the last separator (-1 when there is none).
pub open spec fn last_separator(s: Seq<char>) -> int
    decreases s.len(),
{
    if s.len() == 0 {
        -1
    } else if is_separator(s.last()) {
        s.len() - 1
    } else {
        last_separator(s.drop_last())
    }
}

/// What follows the last separator (the whole name when there is none).
pub open spec fn leaf_name(s: Seq<char>) -> Seq<char> {
    s.subrange(last_separator(s) + 1, s.len() as int)
}

/// The name a sample is shown under: its leaf without control characters,
/// cut to 255 characters, or `sample.bin` when nothing is left.
pub open spec fn sanitized_name(s: Seq<char>) -> Seq<char> {
    let clean = take_chars(leaf_name(s).filter(|c: char| !is_control_char(c)), 255);
    if clean.len() == 0 {
        "sample.bin"@
    } else {
        clean
    }
}

proof fn lemma_last_separator(s: Seq<char>)
    ensures
        -1 <= last_separator(s) < s.len(),
    decreases s.len(),
{
    if s.len() > 0 && !is_separator(s.last()) {
        lemma_last_separator(s.drop_last());
    }
}

fn separator(c: char) -> (r: bool)
    ensures
        r == is_separator(c),
{
    c == '/' || c == '\\'
}

/// The name a sample is shown under: what follows the last `/` or `\`,
/// without control characters and cut to 255 characters; `sample.bin` when
/// nothing is left.
pub fn sanitize_name(name: &str) -> (r: String)
    ensures
        r@ == sanitized_name(name@),
{
    let chars = chars_of(name);
    let mut j: usize = chars.len();
    assert(chars@.subrange(0, chars@.len() as int) =~= chars@);
    while j > 0 && !separator(chars[j - 1])
        invariant
            j <= chars@.len(),
            last_separator(chars@) == last_separator(chars@.subrange(0, j as int)),
        decreases j,
    {
        let pre = Ghost(chars@.subrange(0, j as int));
        assert(pre@.drop_last() =~= chars@.subrange(0, j - 1));
        j = j - 1;
    }
    proof {
        let pre = chars@.subrange(0, j as int);
        if j > 0 {
            assert(pre.last() == chars@[j - 1]);
        }
    }
    let leaf = copy_chars(&chars, j, chars.len());
    let kept = kept_chars(&leaf, 255);
    if kept.len() == 0 {
        "sample.bin".to_owned()
    } else {
        string_from_chars(&kept)
    }
}

// ----- printable strings -----

/// A byte the string scanner keeps: printable ASCII or a tab.
pub open spec fn printable_byte(b: u8) -> bool {
    (0x20 <= b && b <= 0x7e) || b == 0x09
}

/// Whether `byte` is printable ASCII or a tab.
pub fn is_printable(byte: u8) -> (r: bool)
    ensures
        r == printable_byte(byte),
{
    (0x20 <= byte && byte <= 0x7e) || byte == 0x09
}

/// The first index at or after `i` that does not hold a printable byte.
pub open spec fn run_end(b: Seq<u8>, i: int) -> int
    decreases b.len() - i,
{
    if 0 <= i < b.len() && printable_byte(b[i]) {
        run_end(b, i + 1)
    } else {
        i
    }
}

proof fn lemma_run_end(b: Seq<u8>, i: int)
    requires
        0 <= i <= b.len(),
    ensures
        i <= run_end(b, i) <= b.len(),
        forall|j: int| i <= j < run_end(b, i) ==> printable_byte(#[trigger] b[j]),
        i < b.len() && printable_byte(b[i]) ==> i < run_end(b, i),
    decreases b.len() - i,
{
    if i < b.len() && printable_byte(b[i]) {
        lemma_run_end(b, i + 1);
    }
}

/// Bytes read as characters one for one.
pub open spec fn byte_chars(b: Seq<u8>) -> Seq<char> {
    b.map_values(|x: u8| x as char)
}

/// The printable runs from `start` on that are at least `min` bytes long, in
/// order: where each starts, its first `MAX_STRING_LENGTH` bytes as
/// characters, and whether it was longer than that.
pub open spec fn ascii_candidates(b: Seq<u8>, start: int, min: nat) -> Seq<(int, Seq<char>, bool)>
    decreases b.len() - start,
{
    if start < 0 || start >= b.len() {
        Seq::empty()
    } else if printable_byte(b[start]) {
        let end = run_end(b, start);
        if end <= start || end > b.len() {
            Seq::empty()
        } else {
            let length = if end - start < MAX_STRING_LENGTH { end - start } else { MAX_STRING_LENGTH as int };
            let rest = ascii_candidates(b, end, min);
            if end - start >= min {
                seq![(start, byte_chars(b.subrange(start, start + length)), length < end - start)] + rest
            } else {
                rest
            }
        }
    } else {
        ascii_candidates(b, start + 1, min)
    }
}

/// A printable byte followed by a zero byte at `i`: one UTF-16LE character.
pub open spec fn wide_pair(b: Seq<u8>, i: int) -> bool {
    0 <= i && i + 1 < b.len() && printable_byte(b[i]) && b[i + 1] == 0
}

/// How many such pairs follow one another from `i`, at most `n`.
pub open spec fn wide_count(b: Seq<u8>, i: int, n: nat) -> nat
    decreases n,
{
    if n == 0 || !wide_pair(b, i) {
        0
    } else {
        1 + wide_count(b, i + 2, (n - 1) as nat)
    }
}

/// The characters of `n` pairs from `i`.
pub open spec fn wide_chars(b: Seq<u8>, i: int, n: nat) -> Seq<char> {
    Seq::new(n, |k: int| b[i + 2 * k] as char)
}

/// The UTF-16LE runs from `i` on with at least `min` characters, in order;
/// a run is cut after `MAX_STRING_LENGTH` characters and the scan goes on
/// from there.
pub open spec fn wide_candidates(b: Seq<u8>, i: int, min: nat) -> Seq<(int, Seq<char>, bool)>
    decreases b.len() - i,
{
    if i < 0 || i + 1 >= b.len() {
        Seq::empty()
    } else if wide_pair(b, i) {
        let n = wide_count(b, i, MAX_STRING_LENGTH as nat);
        let next = i + 2 * n;
        if n == 0 || next > b.len() {
            Seq::empty()
        } else {
            let rest = wide_candidates(b, next, min);
            if n >= min {
                seq![(i, wide_chars(b, i, n), false)] + rest
            } else {
                rest
            }
        }
    } else {
        wide_candidates(b, i + 1, min)
    }
}

/// Where string extraction stands: the strings kept (offset, encoding,
/// value), their total length, whether anything was cut or refused, and
/// whether a refusal stopped the scan.
pub struct ScanState {
    pub strings: Seq<(int, Seq<char>, Seq<char>)>,
    pub total: nat,
    pub truncated: bool,
    pub stopped: bool,
}

/// Keeps candidates in order until one would pass `max_strings` strings or
/// `MAX_STRING_BYTES` bytes; that one stops the scan and marks it truncated.
pub open spec fn push_candidates(c: Seq<(int, Seq<char>, bool)>, encoding: Seq<char>, st: ScanState, max_strings: nat) -> ScanState
    decreases c.len(),
{
    if c.len() == 0 || st.stopped {
        st
    } else if st.strings.len() >= max_strings || st.total + c[0].1.len() > MAX_STRING_BYTES {
        ScanState { strings: st.strings, total: st.total, truncated: true, stopped: true }
    } else {
        push_candidates(
            c.subrange(1, c.len() as int),
            encoding,
            ScanState {
                strings: st.strings.push((c[0].0, encoding, c[0].1)),
                total: st.total + c[0].1.len(),
                truncated: st.truncated || c[0].2,
                stopped: false,
            },
            max_strings,
        )
    }
}

/// The strings of `b`: the ASCII runs first, then, while room is left, the
/// UTF-16LE runs; and whether anything was cut or refused.
pub open spec fn extracted_strings(b: Seq<u8>, min: nat, max_strings: nat) -> (Seq<(int, Seq<char>, Seq<char>)>, bool) {
    let start = ScanState { strings: Seq::empty(), total: 0, truncated: false, stopped: false };
    let first = push_candidates(ascii_candidates(b, 0, min), "ascii"@, start, max_strings);
    let second = if first.strings.len() < max_strings && first.total < MAX_STRING_BYTES {
        push_candidates(
            wide_candidates(b, 0, min),
            "utf-16le"@,
            ScanState { strings: first.strings, total: first.total, truncated: first.truncated, stopped: false },
            max_strings,
        )
    } else {
        first
    };
    (second.strings, second.truncated)
}

/// An extracted string as plain values: offset, encoding, value.
pub open spec fn string_view(s: ExtractedString) -> (int, Seq<char>, Seq<char>) {
    (s.offset as int, s.encoding@, s.value@)
}

pub open spec fn scan_state(v: Seq<ExtractedString>, total: usize, truncated: bool, stopped: bool) -> ScanState {
    ScanState { strings: v.map_values(|s: ExtractedString| string_view(s)), total: total as nat, truncated, stopped }
}

/// The length of `s` in UTF-8 bytes, as `str::len` reports it.
pub open spec fn byte_len(s: Seq<char>) -> usize {
    vstd::utf8::encode_utf8(s).len() as usize
}

/// Keeps `value` found at `offset` unless that would pass the string count
/// or the byte budget (then nothing changes and the answer is `false`).
pub fn push_string(
    strings: &mut Vec<ExtractedString>,
    total_bytes: &mut usize,
    options: &AnalysisOptions,
    offset: usize,
    encoding: &str,
    value: String,
) -> (kept: bool)
    requires
        *old(total_bytes) <= MAX_STRING_BYTES,
    ensures
        kept == !(old(strings)@.len() >= options.max_strings || *old(total_bytes) + byte_len(value@) > MAX_STRING_BYTES),
        kept ==> final(strings)@ == old(strings)@.push(final(strings)@.last())
            && final(strings)@.last().offset == offset as u64
            && final(strings)@.last().encoding@ == encoding@
            && final(strings)@.last().value == value
            && *final(total_bytes) == *old(total_bytes) + byte_len(value@),
        !kept ==> final(strings)@ == old(strings)@ && *final(total_bytes) == *old(total_bytes),
        *final(total_bytes) <= MAX_STRING_BYTES,
{
    let length = value.as_str().len();
    if strings.len() >= options.max_strings || length > MAX_STRING_BYTES - *total_bytes {
        return false;
    }
    *total_bytes = *total_bytes + length;
    strings.push(ExtractedString { offset: offset as u64, encoding: encoding.to_owned(), value });
    true
}

proof fn lemma_ascii_len(s: Seq<char>)
    requires
        vstd::utf8::is_ascii_chars(s),
        s.len() <= MAX_STRING_LENGTH,
    ensures
        byte_len(s) == s.len(),
{
    vstd::utf8::is_ascii_chars_encode_utf8(s);
}

fn scan_ascii(bytes: &[u8], options: &AnalysisOptions, strings: &mut Vec<ExtractedString>, total: &mut usize, truncated: &mut bool) -> (stopped: bool)
    requires
        *old(total) <= MAX_STRING_BYTES,
    ensures
        *final(total) <= MAX_STRING_BYTES,
        scan_state(final(strings)@, *final(total), *final(truncated), stopped) == push_candidates(
            ascii_candidates(bytes@, 0, options.min_string_length as nat),
            "ascii"@,
            scan_state(old(strings)@, *old(total), *old(truncated), false),
            options.max_strings as nat,
        ),
{
    let ghost min = options.min_string_length as nat;
    let ghost max = options.max_strings as nat;
    let ghost whole = push_candidates(ascii_candidates(bytes@, 0, min), "ascii"@, scan_state(strings@, *total, *truncated, false), max);
    let mut start: usize = 0;
    while start < bytes.len()
        invariant
            start <= bytes@.len(),
            *total <= MAX_STRING_BYTES,
            min == options.min_string_length,
            max == options.max_strings,
            whole == push_candidates(ascii_candidates(bytes@, start as int, min), "ascii"@, scan_state(strings@, *total, *truncated, false), max),
            whole == push_candidates(ascii_candidates(bytes@, 0, min), "ascii"@, scan_state(old(strings)@, *old(total), *old(truncated), false), max),
        decreases bytes@.len() - start,
    {
        if is_printable(bytes[start]) {
            let mut end = start + 1;
            proof {
                lemma_run_end(bytes@, start as int);
            }
            while end < bytes.len() && is_printable(bytes[end])
                invariant
                    start < end <= bytes@.len(),
                    run_end(bytes@, start as int) == run_end(bytes@, end as int),
                decreases bytes@.len() - end,
            {
                end = end + 1;
            }
            proof {
                lemma_run_end(bytes@, start as int);
                assert(run_end(bytes@, end as int) == end);
            }
            let ghost cands = ascii_candidates(bytes@, start as int, min);
            let ghost rest = ascii_candidates(bytes@, end as int, min);
            if end - start >= options.min_string_length {
                let length = if end - start < MAX_STRING_LENGTH { end - start } else { MAX_STRING_LENGTH };
                let part = vstd::slice::slice_subrange(bytes, start, start + length);
                proof {
                    assert forall|i: int| 0 <= i < part@.len() implies #[trigger] part@[i] < 128 by {
                        assert(part@[i] == bytes@[start + i]);
                        assert(printable_byte(bytes@[start + i]));
                    }
                }
                let value = utf8_lossy(part);
                let ghost c = (start as int, byte_chars(bytes@.subrange(start as int, start + length)), length < end - start);
                proof {
                    assert(value@ =~= c.1);
                    assert forall|i: int| 0 <= i < value@.len() implies '\0' <= #[trigger] value@[i] <= '\u{7f}' by {
                        assert(part@[i] < 128);
                    }
                    lemma_ascii_len(value@);
                    assert(cands == seq![c] + rest);
                    assert((seq![c] + rest)[0] == c);
                    assert((seq![c] + rest).subrange(1, (seq![c] + rest).len() as int) =~= rest);
                }
                let ghost before = strings@;
                let ghost total0 = *total;
                let ghost trunc0 = *truncated;
                if !push_string(strings, total, options, start, "ascii", value) {
                    *truncated = true;
                    proof {
                        assert(strings@.map_values(|s: ExtractedString| string_view(s)) =~= before.map_values(|s: ExtractedString| string_view(s)));
                        let st0 = scan_state(before, total0, trunc0, false);
                        assert(st0.strings.len() == before.len());
                        assert(st0.strings.len() >= max || st0.total + c.1.len() > MAX_STRING_BYTES);
                        assert(push_candidates(seq![c] + rest, "ascii"@, st0, max)
                            == ScanState { strings: st0.strings, total: st0.total, truncated: true, stopped: true });
                        assert(whole == push_candidates(cands, "ascii"@, st0, max));
                        assert(scan_state(strings@, *total, *truncated, true) == ScanState { strings: st0.strings, total: st0.total, truncated: true, stopped: true });
                    }
                    return true;
                }
                proof {
                    assert(strings@.map_values(|s: ExtractedString| string_view(s)) =~= before.map_values(|s: ExtractedString| string_view(s)).push((c.0, "ascii"@, c.1)));
                }
                *truncated = *truncated || length < end - start;
            } else {
                assert(cands == rest);
            }
            start = end;
        } else {
            start = start + 1;
        }
    }
    false
}

fn scan_wide(bytes: &[u8], options: &AnalysisOptions, strings: &mut Vec<ExtractedString>, total: &mut usize, truncated: &mut bool) -> (stopped: bool)
    requires
        *old(total) <= MAX_STRING_BYTES,
    ensures
        *final(total) <= MAX_STRING_BYTES,
        scan_state(final(strings)@, *final(total), *final(truncated), stopped) == push_candidates(
            wide_candidates(bytes@, 0, options.min_string_length as nat),
            "utf-16le"@,
            scan_state(old(strings)@, *old(total), *old(truncated), false),
            options.max_strings as nat,
        ),
{
    let ghost min = options.min_string_length as nat;
    let ghost max = options.max_strings as nat;
    let ghost whole = push_candidates(wide_candidates(bytes@, 0, min), "utf-16le"@, scan_state(strings@, *total, *truncated, false), max);
    let mut index: usize = 0;
    while index < bytes.len() && index + 1 < bytes.len()
        invariant
            index <= bytes@.len(),
            *total <= MAX_STRING_BYTES,
            min == options.min_string_length,
            max == options.max_strings,
            whole == push_candidates(wide_candidates(bytes@, index as int, min), "utf-16le"@, scan_state(strings@, *total, *truncated, false), max),
            whole == push_candidates(wide_candidates(bytes@, 0, min), "utf-16le"@, scan_state(old(strings)@, *old(total), *old(truncated), false), max),
        decreases bytes@.len() - index,
    {
        if is_printable(bytes[index]) && bytes[index + 1] == 0 {
            let start = index;
            let mut chars: Vec<u8> = Vec::new();
            while index < bytes.len() && index + 1 < bytes.len() && is_printable(bytes[index]) && bytes[index + 1] == 0
                && chars.len() < MAX_STRING_LENGTH
                invariant
                    start <= index <= bytes@.len(),
                    index == start + 2 * chars@.len(),
                    chars@.len() <= MAX_STRING_LENGTH,
                    wide_count(bytes@, start as int, MAX_STRING_LENGTH as nat)
                        == chars@.len() + wide_count(bytes@, index as int, (MAX_STRING_LENGTH - chars@.len()) as nat),
                    forall|k: int| 0 <= k < chars@.len() ==> #[trigger] chars@[k] == bytes@[start + 2 * k] && printable_byte(chars@[k]),
                decreases bytes@.len() - index,
            {
                chars.push(bytes[index]);
                index = index + 2;
            }
            let ghost n = chars@.len();
            proof {
                assert(wide_count(bytes@, index as int, (MAX_STRING_LENGTH - n) as nat) == 0);
                assert(n >= 1);
            }
            let ghost cands = wide_candidates(bytes@, start as int, min);
            let ghost rest = wide_candidates(bytes@, index as int, min);
            if chars.len() >= options.min_string_length {
                let value = utf8_lossy(chars.as_slice());
                let ghost c = (start as int, wide_chars(bytes@, start as int, n), false);
                proof {
                    assert(all_ascii(chars@));
                    assert(value@ =~= c.1);
                    assert forall|i: int| 0 <= i < value@.len() implies '\0' <= #[trigger] value@[i] <= '\u{7f}' by {
                        assert(chars@[i] < 128);
                    }
                    lemma_ascii_len(value@);
                    assert(cands == seq![c] + rest);
                    assert((seq![c] + rest)[0] == c);
                    assert((seq![c] + rest).subrange(1, (seq![c] + rest).len() as int) =~= rest);
                }
                let ghost before = strings@;
                let ghost total0 = *total;
                let ghost trunc0 = *truncated;
                if !push_string(strings, total, options, start, "utf-16le", value) {
                    *truncated = true;
                    proof {
                        assert(strings@.map_values(|s: ExtractedString| string_view(s)) =~= before.map_values(|s: ExtractedString| string_view(s)));
                        let st0 = scan_state(before, total0, trunc0, false);
                        assert(st0.strings.len() == before.len());
                        assert(st0.strings.len() >= max || st0.total + c.1.len() > MAX_STRING_BYTES);
                        assert(push_candidates(seq![c] + rest, "utf-16le"@, st0, max)
                            == ScanState { strings: st0.strings, total: st0.total, truncated: true, stopped: true });
                        assert(whole == push_candidates(cands, "utf-16le"@, st0, max));
                        assert(scan_state(strings@, *total, *truncated, true) == ScanState { strings: st0.strings, total: st0.total, truncated: true, stopped: true });
                    }
                    return true;
                }
                proof {
                    assert(strings@.map_values(|s: ExtractedString| string_view(s)) =~= before.map_values(|s: ExtractedString| string_view(s)).push((c.0, "utf-16le"@, c.1)));
                }
            } else {
                assert(cands == rest);
            }
        } else {
            index = index + 1;
        }
    }
    false
}

/// The printable strings of `bytes`: first the ASCII runs of at least
/// `min_string_length` bytes (each cut to `MAX_STRING_LENGTH`), then, while
/// room is left, the UTF-16LE runs; at most `max_strings` strings and
/// `MAX_STRING_BYTES` bytes in all. The flag tells whether anything was cut
/// or left out.
pub fn extract_strings(bytes: &[u8], options: &AnalysisOptions) -> (r: (Vec<ExtractedString>, bool))
    ensures
        r.0@.map_values(|s: ExtractedString| string_view(s))
            == extracted_strings(bytes@, options.min_string_length as nat, options.max_strings as nat).0,
        r.1 == extracted_strings(bytes@, options.min_string_length as nat, options.max_strings as nat).1,
{
    let mut result: Vec<ExtractedString> = Vec::new();
    let mut total: usize = 0;
    let mut truncated = false;
    assert(scan_state(result@, total, truncated, false).strings =~= Seq::empty());
    scan_ascii(bytes, options, &mut result, &mut total, &mut truncated);
    if result.len() < options.max_strings && total < MAX_STRING_BYTES {
        scan_wide(bytes, options, &mut result, &mut total, &mut truncated);
    }
    (result, truncated)
}

// ----- indicators -----

/// Where a string is cut into tokens: white space, quotes, angle, round and
/// square brackets; or, for dotted names, a dot.
pub open spec fn cuts_at(c: char, dots: bool) -> bool {
    if dots {
        c == '.'
    } else {
        is_white_char(c) || c == '"' || c == '\'' || c == '<' || c == '>' || c == '(' || c == ')' || c == '[' || c == ']'
    }
}

/// The pieces closed so far and the piece still open.
pub open spec fn split_state(s: Seq<char>, dots: bool) -> (Seq<Seq<char>>, Seq<char>)
    decreases s.len(),
{
    if s.len() == 0 {
        (Seq::empty(), Seq::empty())
    } else {
        let p = split_state(s.drop_last(), dots);
        if cuts_at(s.last(), dots) {
            (p.0.push(p.1), Seq::empty())
        } else {
            (p.0, p.1.push(s.last()))
        }
    }
}

/// `s` cut at every separator, empty pieces included (as `str::split` does).
pub open spec fn pieces(s: Seq<char>, dots: bool) -> Seq<Seq<char>> {
    split_state(s, dots).0.push(split_state(s, dots).1)
}

fn cut_char(c: char, dots: bool) -> (r: bool)
    ensures
        r == cuts_at(c, dots),
{
    if dots {
        c == '.'
    } else {
        white_char(c) || c == '"' || c == '\'' || c == '<' || c == '>' || c == '(' || c == ')' || c == '[' || c == ']'
    }
}

/// `v` cut at every separator (white space and quotes or brackets; or dots).
pub fn split_pieces(v: &Vec<char>, dots: bool) -> (r: Vec<Vec<char>>)
    ensures
        r@.map_values(|p: Vec<char>| p@) == pieces(v@, dots),
{
    let mut done: Vec<Vec<char>> = Vec::new();
    let mut current: Vec<char> = Vec::new();
    let mut i: usize = 0;
    assert(v@.subrange(0, 0) =~= Seq::<char>::empty());
    assert(done@.map_values(|p: Vec<char>| p@) =~= Seq::<Seq<char>>::empty());
    while i < v.len()
        invariant
            i <= v@.len(),
            done@.map_values(|p: Vec<char>| p@) == split_state(v@.subrange(0, i as int), dots).0,
            current@ == split_state(v@.subrange(0, i as int), dots).1,
        decreases v@.len() - i,
    {
        let c = v[i];
        let ghost pre = v@.subrange(0, i + 1);
        assert(pre.drop_last() =~= v@.subrange(0, i as int));
        assert(pre.last() == c);
        if cut_char(c, dots) {
            let ghost before = done@;
            let piece = current;
            current = Vec::new();
            done.push(piece);
            assert(done@.map_values(|p: Vec<char>| p@) =~= before.map_values(|p: Vec<char>| p@).push(piece@));
        } else {
            current.push(c);
        }
        i = i + 1;
    }
    assert(v@.subrange(0, v@.len() as int) =~= v@);
    let ghost before = done@;
    let ghost last = current@;
    done.push(current);
    assert(done@.map_values(|p: Vec<char>| p@) =~= before.map_values(|p: Vec<char>| p@).push(last));
    done
}

/// A character trimmed from both ends of a token.
pub open spec fn trimmed_char(c: char) -> bool {
    c == ',' || c == ';' || c == ':' || c == '.'
}

pub open spec fn trim_front(s: Seq<char>) -> Seq<char>
    decreases s.len(),
{
    if s.len() > 0 && trimmed_char(s[0]) {
        trim_front(s.subrange(1, s.len() as int))
    } else {
        s
    }
}

pub open spec fn trim_back(s: Seq<char>) -> Seq<char>
    decreases s.len(),
{
    if s.len() > 0 && trimmed_char(s.last()) {
        trim_back(s.drop_last())
    } else {
        s
    }
}

/// A token without leading or trailing `,`, `;`, `:` or `.`.
pub open spec fn trimmed_token(s: Seq<char>) -> Seq<char> {
    trim_back(trim_front(s))
}

fn trim_token(v: &Vec<char>) -> (r: Vec<char>)
    ensures
        r@ == trimmed_token(v@),
{
    let mut start: usize = 0;
    assert(v@.subrange(0, v@.len() as int) =~= v@);
    while start < v.len() && (v[start] == ',' || v[start] == ';' || v[start] == ':' || v[start] == '.')
        invariant
            start <= v@.len(),
            trim_front(v@) == trim_front(v@.subrange(start as int, v@.len() as int)),
        decreases v@.len() - start,
    {
        let t = Ghost(v@.subrange(start as int, v@.len() as int));
        assert(t@.subrange(1, t@.len() as int) =~= v@.subrange(start + 1, v@.len() as int));
        start = start + 1;
    }
    proof {
        let t = v@.subrange(start as int, v@.len() as int);
        if t.len() > 0 {
            assert(t[0] == v@[start as int]);
        }
    }
    let mut end: usize = v.len();
    while end > start && (v[end - 1] == ',' || v[end - 1] == ';' || v[end - 1] == ':' || v[end - 1] == '.')
        invariant
            start <= end <= v@.len(),
            trim_back(v@.subrange(start as int, v@.len() as int)) == trim_back(v@.subrange(start as int, end as int)),
        decreases end,
    {
        let t = Ghost(v@.subrange(start as int, end as int));
        assert(t@.drop_last() =~= v@.subrange(start as int, end - 1));
        end = end - 1;
    }
    proof {
        let t = v@.subrange(start as int, end as int);
        if t.len() > 0 {
            assert(t.last() == v@[end - 1]);
        }
    }
    copy_chars(v, start, end)
}

/// Four dot-separated parts, each a number `u8` parses.
pub open spec fn ipv4_like(s: Seq<char>) -> bool {
    let parts = pieces(s, true);
    parts.len() == 4 && forall|i: int| 0 <= i < 4 ==> #[trigger] parts[i].len() > 0 && (parse_usize_spec(parts[i]) matches Some(v) && v <= 255)
}

/// Whether `value` reads as a dotted IPv4 address.
pub fn looks_like_ipv4(value: &str) -> (r: bool)
    ensures
        r == ipv4_like(value@),
{
    ipv4_chars(&chars_of(value))
}

fn ipv4_chars(value: &Vec<char>) -> (r: bool)
    ensures
        r == ipv4_like(value@),
{
    let parts = split_pieces(value, true);
    let ghost views = parts@.map_values(|p: Vec<char>| p@);
    if parts.len() != 4 {
        return false;
    }
    let mut i: usize = 0;
    while i < 4
        invariant
            i <= 4,
            parts@.len() == 4,
            views == parts@.map_values(|p: Vec<char>| p@),
            views == pieces(value@, true),
            forall|j: int| 0 <= j < i ==> #[trigger] views[j].len() > 0 && (parse_usize_spec(views[j]) matches Some(v) && v <= 255),
        decreases 4 - i,
    {
        assert(views[i as int] == parts@[i as int]@);
        if parts[i].len() == 0 {
            return false;
        }
        assert(parts@[i as int]@.subrange(0, parts@[i as int]@.len() as int) =~= parts@[i as int]@);
        match parse_usize(&parts[i], 0) {
            Some(v) => {
                if v > 255 {
                    return false;
                }
            },
            None => {
                return false;
            },
        }
        i = i + 1;
    }
    true
}

/// `s` without trailing dots.
pub open spec fn trim_dots(s: Seq<char>) -> Seq<char>
    decreases s.len(),
{
    if s.len() > 0 && s.last() == '.' {
        trim_dots(s.drop_last())
    } else {
        s
    }
}

pub open spec fn label_char(c: char) -> bool {
    ('0' <= c && c <= '9') || ('a' <= c && c <= 'z') || ('A' <= c && c <= 'Z') || c == '-'
}

/// A DNS label: 1 to 63 letters, digits or hyphens, not starting or ending with a hyphen.
pub open spec fn label_ok(l: Seq<char>) -> bool {
    &&& 0 < l.len() <= 63
    &&& forall|i: int| 0 <= i < l.len() ==> label_char(#[trigger] l[i])
    &&& l[0] != '-'
    &&& l.last() != '-'
}

/// A dotted host name of 4 to 253 characters (after trailing dots go)
/// without a slash, every label valid.
pub open spec fn domain_like(s: Seq<char>) -> bool {
    let v = trim_dots(s);
    let labels = pieces(v, true);
    &&& 4 <= v.len() <= 253
    &&& v.contains('.')
    &&& !v.contains('/')
    &&& forall|i: int| 0 <= i < labels.len() ==> label_ok(#[trigger] labels[i])
}

fn valid_label(l: &Vec<char>) -> (r: bool)
    ensures
        r == label_ok(l@),
{
    if l.len() == 0 || l.len() > 63 {
        return false;
    }
    let mut i: usize = 0;
    while i < l.len()
        invariant
            i <= l@.len(),
            forall|j: int| 0 <= j < i ==> label_char(#[trigger] l@[j]),
        decreases l@.len() - i,
    {
        let c = l[i];
        if !(('0' <= c && c <= '9') || ('a' <= c && c <= 'z') || ('A' <= c && c <= 'Z') || c == '-') {
            return false;
        }
        i = i + 1;
    }
    l[0] != '-' && l[l.len() - 1] != '-'
}

fn has_char(v: &Vec<char>, c: char) -> (r: bool)
    ensures
        r == v@.contains(c),
{
    let mut i: usize = 0;
    while i < v.len()
        invariant
            i <= v@.len(),
            forall|j: int| 0 <= j < i ==> v@[j] != c,
        decreases v@.len() - i,
    {
        if v[i] == c {
            return true;
        }
        i = i + 1;
    }
    false
}

/// Whether `value` reads as a DNS host name.
pub fn looks_like_domain(value: &str) -> (r: bool)
    ensures
        r == domain_like(value@),
{
    domain_chars(&chars_of(value))
}

fn domain_chars(value: &Vec<char>) -> (r: bool)
    ensures
        r == domain_like(value@),
{
    let mut end: usize = value.len();
    assert(value@.subrange(0, value@.len() as int) =~= value@);
    while end > 0 && value[end - 1] == '.'
        invariant
            end <= value@.len(),
            trim_dots(value@) == trim_dots(value@.subrange(0, end as int)),
        decreases end,
    {
        let t = Ghost(value@.subrange(0, end as int));
        assert(t@.drop_last() =~= value@.subrange(0, end - 1));
        end = end - 1;
    }
    proof {
        if end > 0 {
            assert(value@.subrange(0, end as int).last() == value@[end - 1]);
        }
    }
    let v = copy_chars(value, 0, end);
    if v.len() < 4 || v.len() > 253 || !has_char(&v, '.') || has_char(&v, '/') {
        return false;
    }
    let labels = split_pieces(&v, true);
    let ghost views = labels@.map_values(|p: Vec<char>| p@);
    let mut i: usize = 0;
    while i < labels.len()
        invariant
            i <= labels@.len(),
            views == labels@.map_values(|p: Vec<char>| p@),
            views == pieces(v@, true),
            v@ == trim_dots(value@),
            forall|j: int| 0 <= j < i ==> label_ok(#[trigger] views[j]),
        decreases labels@.len() - i,
    {
        assert(views[i as int] == labels@[i as int]@);
        if !valid_label(&labels[i]) {
            return false;
        }
        i = i + 1;
    }
    true
}

/// The kind of indicator a trimmed token is, if any: a URL, a command line,
/// a registry path, an IPv4 address or a domain name, tried in that order.
pub open spec fn indicator_kind(t: Seq<char>) -> Option<Seq<char>> {
    let lower = lower_seq(t);
    if seq_starts_with(lower, "http://"@) || seq_starts_with(lower, "https://"@) {
        Some("url"@)
    } else if seq_starts_with(lower, "powershell"@) || seq_contains(lower, "cmd.exe"@) || seq_contains(lower, "/bin/sh"@) {
        Some("command"@)
    } else if seq_starts_with(lower, "hkey_"@) || seq_starts_with(lower, "hkcu\\"@) || seq_starts_with(lower, "hklm\\"@) {
        Some("registry"@)
    } else if ipv4_like(t) {
        Some("ipv4"@)
    } else if domain_like(t) {
        Some("domain"@)
    } else {
        None
    }
}

/// How a token is classified, by its ASCII-lower-cased text: a URL when it
/// starts with `http://` or `https://`; otherwise a command when it starts
/// with `powershell` or contains `cmd.exe` or `/bin/sh`; otherwise a registry
/// path when it starts with `hkey_`, `hkcu\` or `hklm\`. Only such a token
/// is classified as a registry path.
pub proof fn law_indicator_classes(t: Seq<char>)
    ensures
        ({
            let l = lower_seq(t);
            let url = seq_starts_with(l, "http://"@) || seq_starts_with(l, "https://"@);
            let command = seq_starts_with(l, "powershell"@) || seq_contains(l, "cmd.exe"@) || seq_contains(l, "/bin/sh"@);
            let registry = seq_starts_with(l, "hkey_"@) || seq_starts_with(l, "hkcu\\"@) || seq_starts_with(l, "hklm\\"@);
            &&& url ==> indicator_kind(t) == Some("url"@)
            &&& !url && command ==> indicator_kind(t) == Some("command"@)
            &&& !url && !command && registry ==> indicator_kind(t) == Some("registry"@)
            &&& indicator_kind(t) == Some("registry"@) ==> !url && !command && registry
            &&& indicator_kind(t) == Some("url"@) ==> url
        }),
{
    reveal_strlit("registry");
    reveal_strlit("ipv4");
    reveal_strlit("domain");
    reveal_strlit("url");
    reveal_strlit("command");
    assert("registry"@.len() == 8 && "ipv4"@.len() == 4 && "domain"@.len() == 6 && "url"@.len() == 3 && "command"@.len() == 7);
}

/// Cutting `s` followed by `c`: a separator closes the open piece, any other
/// character extends it.
proof fn lemma_split_push(s: Seq<char>, c: char, dots: bool)
    ensures
        split_state(s.push(c), dots) == (if cuts_at(c, dots) {
            (split_state(s, dots).0.push(split_state(s, dots).1), Seq::<char>::empty())
        } else {
            (split_state(s, dots).0, split_state(s, dots).1.push(c))
        }),
{
    assert(s.push(c).drop_last() =~= s);
}

/// A text none of whose characters is the first of `needle` neither starts
/// with nor contains `needle`.
proof fn lemma_first_char_absent(t: Seq<char>, needle: Seq<char>)
    requires
        needle.len() > 0,
        forall|k: int| 0 <= k < t.len() ==> t[k] != needle[0],
    ensures
        !seq_contains(t, needle),
        !seq_starts_with(t, needle),
{
    if seq_contains(t, needle) {
        let i = choose|i: int| 0 <= i && i + needle.len() <= t.len() && #[trigger] t.subrange(i, i + needle.len()) == needle;
        assert(t.subrange(i, i + needle.len())[0] == t[i]);
    }
    if seq_starts_with(t, needle) {
        assert(t.subrange(0, needle.len() as int)[0] == t[0]);
    }
}

/// Text made of digits and dots is unchanged by lower-casing and is neither a
/// URL, a command line nor a registry path.
proof fn lemma_digits_and_dots_unclassed(t: Seq<char>)
    requires
        forall|k: int| 0 <= k < t.len() ==> ('0' <= #[trigger] t[k] && t[k] <= '9') || t[k] == '.',
    ensures
        lower_seq(t) == t,
        !seq_starts_with(t, "http://"@),
        !seq_starts_with(t, "https://"@),
        !seq_starts_with(t, "powershell"@),
        !seq_contains(t, "cmd.exe"@),
        !seq_contains(t, "/bin/sh"@),
        !seq_starts_with(t, "hkey_"@),
        !seq_starts_with(t, "hkcu\\"@),
        !seq_starts_with(t, "hklm\\"@),
{
    assert(lower_seq(t) =~= t) by {
        assert forall|k: int| 0 <= k < t.len() implies lower_seq(t)[k] == t[k] by {
            assert(lower_char(t[k]) == t[k]);
        }
    }
    reveal_strlit("http://");
    reveal_strlit("https://");
    reveal_strlit("powershell");
    reveal_strlit("cmd.exe");
    reveal_strlit("/bin/sh");
    reveal_strlit("hkey_");
    reveal_strlit("hkcu\\");
    reveal_strlit("hklm\\");
    lemma_first_char_absent(t, "http://"@);
    lemma_first_char_absent(t, "https://"@);
    lemma_first_char_absent(t, "powershell"@);
    lemma_first_char_absent(t, "cmd.exe"@);
    lemma_first_char_absent(t, "/bin/sh"@);
    lemma_first_char_absent(t, "hkey_"@);
    lemma_first_char_absent(t, "hkcu\\"@);
    lemma_first_char_absent(t, "hklm\\"@);
}

/// A dotted quad whose first part has three digits and whose other parts have
/// one: it is an IPv4 address exactly when the first part is at most 255 (a
/// part must parse as a byte); above that, it is still a valid host name and
/// is classified as a domain.
pub proof fn law_dotted_quad(x: char, y: char, z: char, a: char, b: char, c: char)
    requires
        '0' <= x <= '9',
        '0' <= y <= '9',
        '0' <= z <= '9',
        '0' <= a <= '9',
        '0' <= b <= '9',
        '0' <= c <= '9',
    ensures
        ({
            let t = seq![x, y, z, '.', a, '.', b, '.', c];
            let first = 100 * ((x as u32) - 48) + 10 * ((y as u32) - 48) + ((z as u32) - 48);
            &&& ipv4_like(t) <==> first <= 255
            &&& first <= 255 ==> indicator_kind(t) == Some("ipv4"@)
            &&& first > 255 ==> indicator_kind(t) == Some("domain"@)
        }),
{
    let t = seq![x, y, z, '.', a, '.', b, '.', c];
    let first = 100 * ((x as u32) - 48) + 10 * ((y as u32) - 48) + ((z as u32) - 48);
    let e = Seq::<char>::empty();
    let s1 = e.push(x);
    let s2 = s1.push(y);
    let s3 = s2.push(z);
    let s4 = s3.push('.');
    let s5 = s4.push(a);
    let s6 = s5.push('.');
    let s7 = s6.push(b);
    let s8 = s7.push('.');
    let s9 = s8.push(c);
    assert(s9 =~= t);
    assert(split_state(e, true) == (Seq::<Seq<char>>::empty(), e));
    lemma_split_push(e, x, true);
    lemma_split_push(s1, y, true);
    lemma_split_push(s2, z, true);
    lemma_split_push(s3, '.', true);
    lemma_split_push(s4, a, true);
    lemma_split_push(s5, '.', true);
    lemma_split_push(s6, b, true);
    lemma_split_push(s7, '.', true);
    lemma_split_push(s8, c, true);
    let p0 = seq![x, y, z];
    let pa = seq![a];
    let pb = seq![b];
    let pc = seq![c];
    assert(e.push(x).push(y).push(z) =~= p0);
    assert(e.push(a) =~= pa);
    assert(e.push(b) =~= pb);
    assert(e.push(c) =~= pc);
    let parts = pieces(t, true);
    assert(parts =~= seq![p0, pa, pb, pc]);
    // the values of the parts
    assert(p0.drop_last() =~= seq![x, y]);
    assert(seq![x, y].drop_last() =~= seq![x]);
    assert(seq![x].drop_last() =~= e);
    assert(pa.drop_last() =~= e);
    assert(pb.drop_last() =~= e);
    assert(pc.drop_last() =~= e);
    assert(digits_value(e) == 0);
    assert(seq![x].last() == x);
    assert(digits_value(seq![x]) == (x as u32) - 48);
    assert(seq![x, y].last() == y);
    assert(digits_value(seq![x, y]) == 10 * ((x as u32) - 48) + ((y as u32) - 48));
    assert(p0.last() == z);
    assert(digits_value(p0) == first);
    assert(pa.last() == a && pb.last() == b && pc.last() == c);
    assert(digits_value(pa) == (a as u32) - 48);
    assert(digits_value(pb) == (b as u32) - 48);
    assert(digits_value(pc) == (c as u32) - 48);
    assert(all_digits(p0));
    assert(all_digits(pa));
    assert(all_digits(pb));
    assert(all_digits(pc));
    assert(parse_usize_spec(p0) == Some(first as nat));
    assert(parse_usize_spec(pa) == Some(((a as u32) - 48) as nat));
    assert(parse_usize_spec(pb) == Some(((b as u32) - 48) as nat));
    assert(parse_usize_spec(pc) == Some(((c as u32) - 48) as nat));
    if first <= 255 {
        assert forall|i: int| 0 <= i < 4 implies #[trigger] parts[i].len() > 0 && (parse_usize_spec(parts[i]) matches Some(v) && v <= 255) by {
            if i == 0 {
            } else if i == 1 {
            } else if i == 2 {
            } else {
            }
        }
        assert(ipv4_like(t));
    } else {
        assert(parts[0].len() > 0);
        assert(!ipv4_like(t));
    }
    // classification
    assert forall|k: int| 0 <= k < t.len() implies ('0' <= #[trigger] t[k] && t[k] <= '9') || t[k] == '.' by {
        if k == 0 {
        } else if k == 1 {
        } else if k == 2 {
        } else if k == 3 {
        } else if k == 4 {
        } else if k == 5 {
        } else if k == 6 {
        } else if k == 7 {
        } else {
        }
    }
    lemma_digits_and_dots_unclassed(t);
    reveal_strlit("ipv4");
    reveal_strlit("domain");
    if first > 255 {
        assert(trim_dots(t) == t);
        assert(t[3] == '.');
        assert(t.contains('.'));
        assert(!t.contains('/'));
        assert forall|i: int| 0 <= i < parts.len() implies label_ok(#[trigger] parts[i]) by {
            if i == 0 {
                assert forall|k: int| 0 <= k < p0.len() implies label_char(#[trigger] p0[k]) by {
                    if k == 0 {
                    } else if k == 1 {
                    } else {
                    }
                }
            } else if i == 1 {
            } else if i == 2 {
            } else {
            }
        }
        assert(domain_like(t));
    }
}

/// Any two characters, a dot and one more, each an ASCII letter or digit:
/// too short to be anything else and not four parts, this is a domain name.
pub proof fn law_short_domain(p: char, q: char, r: char)
    requires
        label_char(p) && p != '-',
        label_char(q) && q != '-',
        label_char(r) && r != '-',
    ensures
        indicator_kind(seq![p, q, '.', r]) == Some("domain"@),
{
    let t = seq![p, q, '.', r];
    let e = Seq::<char>::empty();
    let s1 = e.push(p);
    let s2 = s1.push(q);
    let s3 = s2.push('.');
    let s4 = s3.push(r);
    assert(s4 =~= t);
    assert(split_state(e, true) == (Seq::<Seq<char>>::empty(), e));
    lemma_split_push(e, p, true);
    lemma_split_push(s1, q, true);
    lemma_split_push(s2, '.', true);
    lemma_split_push(s3, r, true);
    let l0 = seq![p, q];
    let l1 = seq![r];
    assert(e.push(p).push(q) =~= l0);
    assert(e.push(r) =~= l1);
    let parts = pieces(t, true);
    assert(parts =~= seq![l0, l1]);
    assert(!ipv4_like(t));
    assert(trim_dots(t) == t);
    assert(t[2] == '.');
    assert(t.contains('.'));
    assert(!t.contains('/')) by {
        if t.contains('/') {
            let k = choose|k: int| 0 <= k < t.len() && t[k] == '/';
            if k == 0 {
            } else if k == 1 {
            } else if k == 2 {
            } else {
            }
        }
    }
    assert forall|i: int| 0 <= i < parts.len() implies label_ok(#[trigger] parts[i]) by {
        if i == 0 {
            assert forall|k: int| 0 <= k < l0.len() implies label_char(#[trigger] l0[k]) by {
                if k == 0 {
                } else {
                }
            }
        } else {
        }
    }
    assert(domain_like(t));
    let l = lower_seq(t);
    reveal_strlit("http://");
    reveal_strlit("https://");
    reveal_strlit("powershell");
    reveal_strlit("cmd.exe");
    reveal_strlit("/bin/sh");
    reveal_strlit("hkey_");
    reveal_strlit("hkcu\\");
    reveal_strlit("hklm\\");
    reveal_strlit("domain");
    assert(l.len() == 4);
    assert(!seq_contains(l, "cmd.exe"@));
    assert(!seq_contains(l, "/bin/sh"@));
}

fn starts_with_text(v: &Vec<char>, prefix: &str) -> (r: bool)
    ensures
        r == seq_starts_with(v@, prefix@),
{
    let p = chars_of(prefix);
    vec_matches_at(v, &p, 0)
}

fn contains_text(v: &Vec<char>, needle: &str) -> (r: bool)
    ensures
        r == seq_contains(v@, needle@),
{
    let n = chars_of(needle);
    vec_contains(v, &n)
}

/// The kind of indicator `t` is, if any.
pub fn kind_of(t: &Vec<char>) -> (r: Option<&'static str>)
    ensures
        match r {
            Some(k) => indicator_kind(t@) == Some(k@),
            None => indicator_kind(t@) is None,
        },
{
    let mut lower: Vec<char> = Vec::new();
    let mut i: usize = 0;
    while i < t.len()
        invariant
            i <= t@.len(),
            lower@ == lower_seq(t@.subrange(0, i as int)),
        decreases t@.len() - i,
    {
        lower.push(to_lower_char(t[i]));
        i = i + 1;
        assert(lower@ =~= lower_seq(t@.subrange(0, i as int)));
    }
    assert(t@.subrange(0, t@.len() as int) =~= t@);
    if starts_with_text(&lower, "http://") || starts_with_text(&lower, "https://") {
        Some("url")
    } else if starts_with_text(&lower, "powershell") || contains_text(&lower, "cmd.exe") || contains_text(&lower, "/bin/sh") {
        Some("command")
    } else if starts_with_text(&lower, "hkey_") || starts_with_text(&lower, "hkcu\\") || starts_with_text(&lower, "hklm\\") {
        Some("registry")
    } else if ipv4_chars(t) {
        Some("ipv4")
    } else if domain_chars(t) {
        Some("domain")
    } else {
        None
    }
}

/// An indicator as plain values: kind, value, offset.
pub open spec fn indicator_view(i: Indicator) -> (Seq<char>, Seq<char>, u64) {
    (i.kind@, i.value@, i.offset)
}

/// What one token adds: its trimmed text under its kind (cut to 512
/// characters), unless it has no kind or the same kind and text are already
/// there.
pub open spec fn add_token(ind: Seq<(Seq<char>, Seq<char>, u64)>, token: Seq<char>, offset: u64) -> Seq<(Seq<char>, Seq<char>, u64)> {
    let t = trimmed_token(token);
    match indicator_kind(t) {
        Some(k) => if exists|j: int| 0 <= j < ind.len() && (#[trigger] ind[j]).0 == k && ind[j].1 == t {
            ind
        } else {
            ind.push((k, take_chars(t, 512), offset))
        },
        None => ind,
    }
}

/// The tokens of one string added in order, until `MAX_COLLECTION_ITEMS`
/// indicators are held.
pub open spec fn add_tokens(ind: Seq<(Seq<char>, Seq<char>, u64)>, ts: Seq<Seq<char>>, offset: u64) -> Seq<(Seq<char>, Seq<char>, u64)>
    decreases ts.len(),
{
    if ts.len() == 0 || ind.len() >= MAX_COLLECTION_ITEMS {
        ind
    } else {
        add_tokens(add_token(ind, ts[0], offset), ts.subrange(1, ts.len() as int), offset)
    }
}

/// The indicators of strings given by value and offset, in order.
pub open spec fn indicators_of(items: Seq<(Seq<char>, u64)>) -> Seq<(Seq<char>, Seq<char>, u64)>
    decreases items.len(),
{
    if items.len() == 0 {
        Seq::empty()
    } else {
        add_tokens(indicators_of(items.drop_last()), pieces(items.last().0, false), items.last().1)
    }
}

proof fn lemma_indicators_full(items: Seq<(Seq<char>, u64)>, n: int)
    requires
        0 <= n <= items.len(),
        indicators_of(items.subrange(0, n)).len() >= MAX_COLLECTION_ITEMS,
    ensures
        indicators_of(items) == indicators_of(items.subrange(0, n)),
    decreases items.len(),
{
    if n == items.len() {
        assert(items.subrange(0, n) =~= items);
    } else {
        assert(items.drop_last().subrange(0, n) =~= items.subrange(0, n));
        lemma_indicators_full(items.drop_last(), n);
    }
}

fn has_indicator(list: &Vec<Indicator>, kind: &str, value: &Vec<char>) -> (r: bool)
    ensures
        r == exists|j: int| 0 <= j < list@.len() && (#[trigger] list@[j]).kind@ == kind@ && list@[j].value@ == value@,
{
    let wanted = chars_of(kind);
    let mut j: usize = 0;
    while j < list.len()
        invariant
            j <= list@.len(),
            wanted@ == kind@,
            forall|m: int| 0 <= m < j ==> !((#[trigger] list@[m]).kind@ == kind@ && list@[m].value@ == value@),
        decreases list@.len() - j,
    {
        let k = chars_of(list[j].kind.as_str());
        let v = chars_of(list[j].value.as_str());
        if chars_equal(&k, &wanted) && chars_equal(&v, value) {
            return true;
        }
        j = j + 1;
    }
    false
}

/// The URLs, command lines, registry paths, IPv4 addresses and domain names
/// among the tokens of `strings`, each kind and text once, in the order
/// first seen, at most `MAX_COLLECTION_ITEMS`.
pub fn extract_indicators(strings: &[ExtractedString]) -> (r: Vec<Indicator>)
    ensures
        r@.map_values(|i: Indicator| indicator_view(i)) == indicators_of(strings@.map_values(|s: ExtractedString| (s.value@, s.offset))),
{
    let ghost items = strings@.map_values(|s: ExtractedString| (s.value@, s.offset));
    let mut indicators: Vec<Indicator> = Vec::new();
    let mut i: usize = 0;
    assert(indicators@.map_values(|i: Indicator| indicator_view(i)) =~= indicators_of(items.subrange(0, 0)));
    while i < strings.len()
        invariant
            i <= strings@.len(),
            items == strings@.map_values(|s: ExtractedString| (s.value@, s.offset)),
            indicators@.map_values(|i: Indicator| indicator_view(i)) == indicators_of(items.subrange(0, i as int)),
        decreases strings@.len() - i,
    {
        let chars = chars_of(strings[i].value.as_str());
        let offset = strings[i].offset;
        let tokens = split_pieces(&chars, false);
        let ghost toks = tokens@.map_values(|p: Vec<char>| p@);
        let ghost start = indicators@.map_values(|i: Indicator| indicator_view(i));
        let mut k: usize = 0;
        assert(toks.subrange(0, toks.len() as int) =~= toks);
        while k < tokens.len() && indicators.len() < MAX_COLLECTION_ITEMS
            invariant
                k <= tokens@.len(),
                toks == tokens@.map_values(|p: Vec<char>| p@),
                add_tokens(start, toks, offset) == add_tokens(indicators@.map_values(|i: Indicator| indicator_view(i)), toks.subrange(k as int, toks.len() as int), offset),
            decreases tokens@.len() - k,
        {
            let ghost cur = indicators@.map_values(|i: Indicator| indicator_view(i));
            let ghost rest = toks.subrange(k as int, toks.len() as int);
            assert(rest[0] == tokens@[k as int]@);
            assert(rest.subrange(1, rest.len() as int) =~= toks.subrange(k + 1, toks.len() as int));
            let t = trim_token(&tokens[k]);
            match kind_of(&t) {
                Some(kind) => {
                    let present = has_indicator(&indicators, kind, &t);
                    proof {
                        assert(present == exists|j: int| 0 <= j < cur.len() && (#[trigger] cur[j]).0 == kind@ && cur[j].1 == t@) by {
                            if present {
                                let j = choose|j: int| 0 <= j < indicators@.len() && (#[trigger] indicators@[j]).kind@ == kind@ && indicators@[j].value@ == t@;
                                assert(cur[j].0 == kind@ && cur[j].1 == t@);
                            }
                            if exists|j: int| 0 <= j < cur.len() && (#[trigger] cur[j]).0 == kind@ && cur[j].1 == t@ {
                                let j = choose|j: int| 0 <= j < cur.len() && (#[trigger] cur[j]).0 == kind@ && cur[j].1 == t@;
                                assert(indicators@[j].kind@ == kind@ && indicators@[j].value@ == t@);
                            }
                        }
                    }
                    if !present {
                        let n = if t.len() < 512 { t.len() } else { 512 };
                        let value = copy_chars(&t, 0, n);
                        assert(take_chars(t@, 512) =~= value@);
                        indicators.push(Indicator { kind: kind.to_owned(), value: string_from_chars(&value), offset });
                        assert(indicators@.map_values(|i: Indicator| indicator_view(i)) =~= cur.push((kind@, take_chars(t@, 512), offset)));
                    }
                },
                None => {},
            }
            k = k + 1;
        }
        proof {
            let ind = indicators@.map_values(|i: Indicator| indicator_view(i));
            if k >= tokens@.len() {
                assert(toks.subrange(k as int, toks.len() as int) =~= Seq::<Seq<char>>::empty());
            }
            let pre = items.subrange(0, i + 1);
            assert(pre.drop_last() =~= items.subrange(0, i as int));
            assert(pre.last() == (chars@, offset));
            assert(ind == indicators_of(pre));
        }
        if indicators.len() >= MAX_COLLECTION_ITEMS {
            proof {
                lemma_indicators_full(items, i + 1);
                assert(items.subrange(0, i + 1) =~= items.subrange(0, i + 1));
            }
            return indicators;
        }
        i = i + 1;
    }
    assert(items.subrange(0, i as int) =~= items);
    indicators
}

// ----- findings -----

/// A finding for a section of `size` bytes at `offset` whose byte entropy,
/// given as text, marks packed or encrypted content.
pub fn high_entropy_finding(name: &str, offset: u64, size: u64, entropy_text: &str) -> (f: Finding)
    ensures
        f.id@ == "high-entropy-section"@,
        f.title@ == "High-entropy section"@,
        f.severity == Severity::Medium,
        f.confidence == Confidence::Medium,
        f.rationale@ == "Compressed, encrypted, or packed content commonly has high byte entropy."@,
        f.evidence@.len() == 1,
        f.evidence@[0].offset == Some(offset),
        f.evidence@[0].length == Some(size),
        f.evidence@[0].value@ == name@ + ": "@ + entropy_text@ + " bits/byte"@,
{
    let mut value = name.to_owned();
    push_str(&mut value, ": ");
    push_str(&mut value, entropy_text);
    push_str(&mut value, " bits/byte");
    Finding {
        id: "high-entropy-section".to_owned(),
        title: "High-entropy section".to_owned(),
        severity: Severity::Medium,
        confidence: Confidence::Medium,
        rationale: "Compressed, encrypted, or packed content commonly has high byte entropy.".to_owned(),
        evidence: vec![Evidence { offset: Some(offset), length: Some(size), value }],
    }
}

/// A finding for a section that is both writable and executable (its
/// permissions hold `w` and `x`); none for another section.
pub fn writable_executable_finding(name: &str, offset: u64, size: u64, permissions: &str) -> (r: Option<Finding>)
    ensures
        r is Some <==> (permissions@.contains('w') && permissions@.contains('x')),
        r matches Some(f) ==> {
            &&& f.id@ == "writable-executable-section"@
            &&& f.title@ == "Writable and executable section"@
            &&& f.severity == Severity::High
            &&& f.confidence == Confidence::High
            &&& f.rationale@ == "A region that is both writable and executable can enable runtime code modification."@
            &&& f.evidence@.len() == 1
            &&& f.evidence@[0].offset == Some(offset)
            &&& f.evidence@[0].length == Some(size)
            &&& f.evidence@[0].value@ == name@
        },
{
    let p = chars_of(permissions);
    if !(has_char(&p, 'w') && has_char(&p, 'x')) {
        return None;
    }
    Some(Finding {
        id: "writable-executable-section".to_owned(),
        title: "Writable and executable section".to_owned(),
        severity: Severity::High,
        confidence: Confidence::High,
        rationale: "A region that is both writable and executable can enable runtime code modification.".to_owned(),
        evidence: vec![Evidence { offset: Some(offset), length: Some(size), value: name.to_owned() }],
    })
}

/// The evidence line of an indicator: `kind: value`.
pub open spec fn indicator_line(i: Indicator) -> Seq<char> {
    i.kind@ + ": "@ + i.value@
}

/// A finding listing the first five indicators; none when there are none.
pub fn indicator_finding(indicators: &[Indicator]) -> (r: Option<Finding>)
    ensures
        r is Some <==> indicators@.len() > 0,
        r matches Some(f) ==> {
            &&& f.id@ == "embedded-indicators"@
            &&& f.title@ == "Embedded network or execution indicators"@
            &&& f.severity == Severity::Low
            &&& f.confidence == Confidence::Medium
            &&& f.rationale@ == "The sample contains strings that resemble network locations, commands, or registry paths."@
            &&& f.evidence@.len() == if indicators@.len() < 5 { indicators@.len() } else { 5 }
            &&& forall|k: int| 0 <= k < f.evidence@.len() ==> {
                &&& (#[trigger] f.evidence@[k]).offset == Some(indicators@[k].offset)
                &&& f.evidence@[k].length == Some(byte_len(indicators@[k].value@) as u64)
                &&& f.evidence@[k].value@ == indicator_line(indicators@[k])
            }
        },
{
    if indicators.len() == 0 {
        return None;
    }
    let n = if indicators.len() < 5 { indicators.len() } else { 5 };
    let mut evidence: Vec<Evidence> = Vec::new();
    let mut k: usize = 0;
    while k < n
        invariant
            k <= n,
            n <= indicators@.len(),
            evidence@.len() == k,
            forall|j: int| 0 <= j < k ==> {
                &&& (#[trigger] evidence@[j]).offset == Some(indicators@[j].offset)
                &&& evidence@[j].length == Some(byte_len(indicators@[j].value@) as u64)
                &&& evidence@[j].value@ == indicator_line(indicators@[j])
            },
        decreases n - k,
    {
        let item = &indicators[k];
        let mut value = item.kind.clone();
        push_str(&mut value, ": ");
        push_str(&mut value, item.value.as_str());
        let length = item.value.as_str().len() as u64;
        evidence.push(Evidence { offset: Some(item.offset), length: Some(length), value });
        k = k + 1;
    }
    Some(Finding {
        id: "embedded-indicators".to_owned(),
        title: "Embedded network or execution indicators".to_owned(),
        severity: Severity::Low,
        confidence: Confidence::Medium,
        rationale: "The sample contains strings that resemble network locations, commands, or registry paths.".to_owned(),
        evidence,
    })
}

/// The closing finding of every static report: the sample's bytes were only read.
pub fn summary_finding(sample_size: usize) -> (f: Finding)
    ensures
        f.id@ == "analysis-summary"@,
        f.title@ == "Static analysis completed"@,
        f.severity == Severity::Info,
        f.confidence == Confidence::High,
        f.rationale@ == "No sample instructions were executed; results are structural signals, not a malware verdict."@,
        f.evidence@.len() == 1,
        f.evidence@[0].offset is None,
        f.evidence@[0].length == Some(sample_size as u64),
        f.evidence@[0].value@ == "sample treated as inert bytes"@,
{
    Finding {
        id: "analysis-summary".to_owned(),
        title: "Static analysis completed".to_owned(),
        severity: Severity::Info,
        confidence: Confidence::High,
        rationale: "No sample instructions were executed; results are structural signals, not a malware verdict.".to_owned(),
        evidence: vec![Evidence { offset: None, length: Some(sample_size as u64), value: "sample treated as inert bytes".to_owned() }],
    }
}

/// The rank a report orders findings by: high first, informational last.
pub open spec fn severity_rank(s: Severity) -> nat {
    match s {
        Severity::High => 0,
        Severity::Medium => 1,
        Severity::Low => 2,
        Severity::Info => 3,
    }
}

fn rank_of(s: Severity) -> (r: u8)
    ensures
        r == severity_rank(s),
{
    match s {
        Severity::High => 0,
        Severity::Medium => 1,
        Severity::Low => 2,
        Severity::Info => 3,
    }
}

/// The findings of rank `rank`, in their order.
pub open spec fn of_rank(f: Seq<Finding>, rank: nat) -> Seq<Finding> {
    f.filter(|x: Finding| severity_rank(x.severity) == rank)
}

/// Findings ordered by severity, high first, keeping the order of findings
/// of the same severity (a stable sort by rank).
pub open spec fn by_severity(f: Seq<Finding>) -> Seq<Finding> {
    of_rank(f, 0) + of_rank(f, 1) + of_rank(f, 2) + of_rank(f, 3)
}

/// Orders findings by severity, high first; findings of equal severity keep
/// their order.
pub fn sort_findings(findings: Vec<Finding>) -> (r: Vec<Finding>)
    ensures
        r@ == by_severity(findings@),
{
    let ghost original = findings@;
    assert(original.len() == findings.len());
    let mut rest = findings;
    let mut high: Vec<Finding> = Vec::new();
    let mut medium: Vec<Finding> = Vec::new();
    let mut low: Vec<Finding> = Vec::new();
    let mut info: Vec<Finding> = Vec::new();
    let mut taken: usize = 0;
    proof {
        assert(original.subrange(0, 0) =~= Seq::<Finding>::empty());
        assert(original.subrange(0, original.len() as int) =~= original);
    }
    while rest.len() > 0
        invariant
            taken + rest@.len() == original.len(),
            original.len() <= usize::MAX,
            rest@ == original.subrange(taken as int, original.len() as int),
            high@ == of_rank(original.subrange(0, taken as int), 0),
            medium@ == of_rank(original.subrange(0, taken as int), 1),
            low@ == of_rank(original.subrange(0, taken as int), 2),
            info@ == of_rank(original.subrange(0, taken as int), 3),
        decreases rest@.len(),
    {
        let f = rest.remove(0);
        let ghost pre = original.subrange(0, taken as int);
        proof {
            assert(f == original[taken as int]);
            assert(original.subrange(0, taken + 1) =~= pre.push(f));
            pre.lemma_filter_push(f, |x: Finding| severity_rank(x.severity) == 0);
            pre.lemma_filter_push(f, |x: Finding| severity_rank(x.severity) == 1);
            pre.lemma_filter_push(f, |x: Finding| severity_rank(x.severity) == 2);
            pre.lemma_filter_push(f, |x: Finding| severity_rank(x.severity) == 3);
        }
        let rank = rank_of(f.severity);
        if rank == 0 {
            high.push(f);
        } else if rank == 1 {
            medium.push(f);
        } else if rank == 2 {
            low.push(f);
        } else {
            info.push(f);
        }
        taken = taken + 1;
        assert(rest@ =~= original.subrange(taken as int, original.len() as int));
    }
    assert(original.subrange(0, taken as int) =~= original);
    high.append(&mut medium);
    high.append(&mut low);
    high.append(&mut info);
    high
}

// ----- bounds -----

/// The total number of characters of extracted strings.
pub open spec fn chars_total(s: Seq<(int, Seq<char>, Seq<char>)>) -> nat
    decreases s.len(),
{
    if s.len() == 0 {
        0
    } else {
        chars_total(s.drop_last()) + s.last().2.len()
    }
}

/// A state whose strings respect the limits.
pub open spec fn scan_bounded(st: ScanState, max_strings: nat) -> bool {
    &&& st.strings.len() <= max_strings
    &&& st.total == chars_total(st.strings)
    &&& st.total <= MAX_STRING_BYTES
    &&& forall|k: int| 0 <= k < st.strings.len() ==> (#[trigger] st.strings[k]).2.len() <= MAX_STRING_LENGTH
}

/// Every candidate holds at most `MAX_STRING_LENGTH` characters.
pub open spec fn candidates_bounded(c: Seq<(int, Seq<char>, bool)>) -> bool {
    forall|k: int| 0 <= k < c.len() ==> (#[trigger] c[k]).1.len() <= MAX_STRING_LENGTH
}

proof fn lemma_ascii_candidates_bounded(b: Seq<u8>, start: int, min: nat)
    ensures
        candidates_bounded(ascii_candidates(b, start, min)),
    decreases b.len() - start,
{
    if 0 <= start < b.len() {
        if printable_byte(b[start]) {
            let end = run_end(b, start);
            if start < end <= b.len() {
                lemma_ascii_candidates_bounded(b, end, min);
            }
        } else {
            lemma_ascii_candidates_bounded(b, start + 1, min);
        }
    }
}

proof fn lemma_wide_count_bound(b: Seq<u8>, i: int, n: nat)
    ensures
        wide_count(b, i, n) <= n,
    decreases n,
{
    if n > 0 && wide_pair(b, i) {
        lemma_wide_count_bound(b, i + 2, (n - 1) as nat);
    }
}

proof fn lemma_wide_candidates_bounded(b: Seq<u8>, i: int, min: nat)
    ensures
        candidates_bounded(wide_candidates(b, i, min)),
    decreases b.len() - i,
{
    if 0 <= i && i + 1 < b.len() {
        if wide_pair(b, i) {
            let n = wide_count(b, i, MAX_STRING_LENGTH as nat);
            lemma_wide_count_bound(b, i, MAX_STRING_LENGTH as nat);
            if n > 0 && i + 2 * n <= b.len() {
                lemma_wide_candidates_bounded(b, i + 2 * n, min);
            }
        } else {
            lemma_wide_candidates_bounded(b, i + 1, min);
        }
    }
}

proof fn lemma_push_bounded(c: Seq<(int, Seq<char>, bool)>, encoding: Seq<char>, st: ScanState, max_strings: nat)
    requires
        scan_bounded(st, max_strings),
        candidates_bounded(c),
    ensures
        scan_bounded(push_candidates(c, encoding, st, max_strings), max_strings),
    decreases c.len(),
{
    if c.len() > 0 && !st.stopped && !(st.strings.len() >= max_strings || st.total + c[0].1.len() > MAX_STRING_BYTES) {
        let next = ScanState {
            strings: st.strings.push((c[0].0, encoding, c[0].1)),
            total: st.total + c[0].1.len(),
            truncated: st.truncated || c[0].2,
            stopped: false,
        };
        assert(next.strings.drop_last() =~= st.strings);
        let rest = c.subrange(1, c.len() as int);
        assert forall|k: int| 0 <= k < rest.len() implies (#[trigger] rest[k]).1.len() <= MAX_STRING_LENGTH by {
            assert(rest[k] == c[k + 1]);
        }
        lemma_push_bounded(rest, encoding, next, max_strings);
    }
}

/// String extraction stays within its limits: at most `max_strings`
/// strings, each of at most `MAX_STRING_LENGTH` characters, and at most
/// `MAX_STRING_BYTES` characters in all.
pub proof fn law_extracted_strings_bounded(b: Seq<u8>, min: nat, max_strings: nat)
    ensures
        extracted_strings(b, min, max_strings).0.len() <= max_strings,
        chars_total(extracted_strings(b, min, max_strings).0) <= MAX_STRING_BYTES,
        forall|k: int| 0 <= k < extracted_strings(b, min, max_strings).0.len()
            ==> (#[trigger] extracted_strings(b, min, max_strings).0[k]).2.len() <= MAX_STRING_LENGTH,
{
    let start = ScanState { strings: Seq::empty(), total: 0, truncated: false, stopped: false };
    lemma_ascii_candidates_bounded(b, 0, min);
    lemma_wide_candidates_bounded(b, 0, min);
    lemma_push_bounded(ascii_candidates(b, 0, min), "ascii"@, start, max_strings);
    let first = push_candidates(ascii_candidates(b, 0, min), "ascii"@, start, max_strings);
    let again = ScanState { strings: first.strings, total: first.total, truncated: first.truncated, stopped: false };
    lemma_push_bounded(wide_candidates(b, 0, min), "utf-16le"@, again, max_strings);
}

proof fn lemma_add_tokens_bounded(ind: Seq<(Seq<char>, Seq<char>, u64)>, ts: Seq<Seq<char>>, offset: u64)
    requires
        ind.len() <= MAX_COLLECTION_ITEMS,
        forall|k: int| 0 <= k < ind.len() ==> (#[trigger] ind[k]).1.len() <= 512,
    ensures
        add_tokens(ind, ts, offset).len() <= MAX_COLLECTION_ITEMS,
        forall|k: int| 0 <= k < add_tokens(ind, ts, offset).len() ==> (#[trigger] add_tokens(ind, ts, offset)[k]).1.len() <= 512,
    decreases ts.len(),
{
    if ts.len() > 0 && ind.len() < MAX_COLLECTION_ITEMS {
        let next = add_token(ind, ts[0], offset);
        assert forall|k: int| 0 <= k < next.len() implies (#[trigger] next[k]).1.len() <= 512 by {
            if k < ind.len() {
                assert(next[k] == ind[k]);
            }
        }
        lemma_add_tokens_bounded(next, ts.subrange(1, ts.len() as int), offset);
    }
}

/// Indicator extraction stays within its limits: at most
/// `MAX_COLLECTION_ITEMS` indicators, each value of at most 512 characters.
pub proof fn law_indicators_bounded(items: Seq<(Seq<char>, u64)>)
    ensures
        indicators_of(items).len() <= MAX_COLLECTION_ITEMS,
        forall|k: int| 0 <= k < indicators_of(items).len() ==> (#[trigger] indicators_of(items)[k]).1.len() <= 512,
    decreases items.len(),
{
    if items.len() > 0 {
        law_indicators_bounded(items.drop_last());
        lemma_add_tokens_bounded(indicators_of(items.drop_last()), pieces(items.last().0, false), items.last().1);
    }
}

} // verus!
