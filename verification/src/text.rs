//! Small verified text builders: decimal and hexadecimal rendering of
//! integers and character-level string assembly.
use vstd::prelude::*;

verus! {

/// The ASCII digit for a value below sixteen (lower-case hexadecimal).
pub open spec fn digit_char(d: nat) -> char {
    if d < 10 {
        (48 + d) as char
    } else {
        (87 + d) as char
    }
}

/// Decimal rendering of a natural number, most significant digit first.
pub open spec fn decimal(n: nat) -> Seq<char>
    decreases n,
{
    if n < 10 {
        seq![digit_char(n)]
    } else {
        decimal(n / 10).push(digit_char(n % 10))
    }
}

/// Lower-case hexadecimal rendering, most significant digit first.
pub open spec fn hex_lower(n: nat) -> Seq<char>
    decreases n,
{
    if n < 16 {
        seq![digit_char(n)]
    } else {
        hex_lower(n / 16).push(digit_char(n % 16))
    }
}

/// `width - s.len()` copies of `c` followed by `s` (no padding when already wide enough).
pub open spec fn pad_left(s: Seq<char>, width: nat, c: char) -> Seq<char> {
    if s.len() >= width {
        s
    } else {
        Seq::new((width - s.len()) as nat, |i: int| c) + s
    }
}

/// Appends one character to a string.
#[verifier::external_body]
pub fn push_char(s: &mut String, c: char)
    ensures
        final(s)@ == old(s)@.push(c),
{
    s.push(c);
}

/// Appends a string slice.
pub fn push_str(s: &mut String, t: &str)
    ensures
        final(s)@ == old(s)@ + t@,
{
    s.append(t);
}

fn digit(d: u64) -> (c: char)
    requires
        d < 16,
    ensures
        c == digit_char(d as nat),
{
    let v: u8 = d as u8;
    if v < 10 {
        (48u8 + v) as char
    } else {
        (87u8 + v) as char
    }
}

/// Appends the decimal rendering of `n`.
pub fn push_decimal(s: &mut String, n: u64)
    ensures
        final(s)@ == old(s)@ + decimal(n as nat),
    decreases n,
{
    if n >= 10 {
        push_decimal(s, n / 10);
    }
    push_char(s, digit(n % 10));
    proof {
        assert(n as nat / 10 == (n / 10) as nat);
    }
}

/// Appends the lower-case hexadecimal rendering of `n`.
pub fn push_hex(s: &mut String, n: u64)
    ensures
        final(s)@ == old(s)@ + hex_lower(n as nat),
    decreases n,
{
    if n >= 16 {
        push_hex(s, n / 16);
    }
    push_char(s, digit(n % 16));
}

/// Number of characters of `decimal(n)`.
pub fn decimal_len(n: u64) -> (r: usize)
    ensures
        r as nat == decimal(n as nat).len(),
    decreases n,
{
    if n < 10 {
        1
    } else {
        let k = decimal_len(n / 10);
        proof {
            lemma_decimal_len_bound((n / 10) as nat);
        }
        k + 1
    }
}

pub open spec fn pow_nat(base: nat, k: nat) -> nat
    decreases k,
{
    if k == 0 {
        1
    } else {
        base * pow_nat(base, (k - 1) as nat)
    }
}

/// Powers grow with the exponent.
pub proof fn lemma_pow_monotone(base: nat, a: nat, b: nat)
    requires
        base >= 1,
        a <= b,
    ensures
        pow_nat(base, a) <= pow_nat(base, b),
    decreases b,
{
    if a < b {
        lemma_pow_monotone(base, a, (b - 1) as nat);
        assert(pow_nat(base, (b - 1) as nat) <= base * pow_nat(base, (b - 1) as nat)) by (nonlinear_arith)
            requires
                base >= 1,
        ;
    }
}

proof fn lemma_decimal_len_below(n: nat, k: nat)
    requires
        k >= 1,
        n < pow_nat(10, k),
    ensures
        decimal(n).len() <= k,
    decreases k,
{
    if n >= 10 {
        assert(n / 10 < pow_nat(10, (k - 1) as nat)) by (nonlinear_arith)
            requires
                n < 10 * pow_nat(10, (k - 1) as nat),
        ;
        if k == 1 {
            assert(false);
        } else {
            lemma_decimal_len_below(n / 10, (k - 1) as nat);
        }
    }
}

proof fn lemma_decimal_len_bound(n: nat)
    requires
        n <= 0xffff_ffff_ffff_ffff,
    ensures
        decimal(n).len() <= 20,
{
    reveal_with_fuel(pow_nat, 21);
    assert(pow_nat(10, 20) == 100000000000000000000);
    lemma_decimal_len_below(n, 20);
}

/// Appends `n` in decimal, left-padded with zeros to at least `width` digits.
pub fn push_decimal_padded(s: &mut String, n: u64, width: usize)
    ensures
        final(s)@ == old(s)@ + pad_left(decimal(n as nat), width as nat, '0'),
{
    let len = decimal_len(n);
    let ghost start = s@;
    if len < width {
        let mut k: usize = 0;
        while k < width - len
            invariant
                k <= width - len,
                len < width,
                s@ == start + Seq::new(k as nat, |i: int| '0'),
            decreases width - len - k,
        {
            push_char(s, '0');
            k = k + 1;
            assert(s@ == start + Seq::new(k as nat, |i: int| '0'));
        }
    }
    push_decimal(s, n);
    proof {
        if len < width {
            assert(s@ == start + pad_left(decimal(n as nat), width as nat, '0'));
        }
    }
}

/// Appends `n` in lower-case hexadecimal, left-padded with zeros to `width` digits.
pub fn push_hex_padded(s: &mut String, n: u64, width: usize)
    ensures
        final(s)@ == old(s)@ + pad_left(hex_lower(n as nat), width as nat, '0'),
{
    let len = hex_len(n);
    let ghost start = s@;
    if len < width {
        let mut k: usize = 0;
        while k < width - len
            invariant
                k <= width - len,
                len < width,
                s@ == start + Seq::new(k as nat, |i: int| '0'),
            decreases width - len - k,
        {
            push_char(s, '0');
            k = k + 1;
            assert(s@ == start + Seq::new(k as nat, |i: int| '0'));
        }
    }
    push_hex(s, n);
    proof {
        if len < width {
            assert(s@ == start + pad_left(hex_lower(n as nat), width as nat, '0'));
        }
    }
}

fn hex_len(n: u64) -> (r: usize)
    ensures
        r as nat == hex_lower(n as nat).len(),
    decreases n,
{
    if n < 16 {
        1
    } else {
        let k = hex_len(n / 16);
        proof {
            lemma_hex_len_bound((n / 16) as nat);
        }
        k + 1
    }
}

proof fn lemma_hex_len_below(n: nat, k: nat)
    requires
        k >= 1,
        n < pow_nat(16, k),
    ensures
        hex_lower(n).len() <= k,
    decreases k,
{
    if n >= 16 {
        assert(n / 16 < pow_nat(16, (k - 1) as nat)) by (nonlinear_arith)
            requires
                n < 16 * pow_nat(16, (k - 1) as nat),
        ;
        if k == 1 {
            assert(false);
        } else {
            lemma_hex_len_below(n / 16, (k - 1) as nat);
        }
    }
}

proof fn lemma_hex_len_bound(n: nat)
    requires
        n <= 0xffff_ffff_ffff_ffff,
    ensures
        hex_lower(n).len() <= 16,
{
    reveal_with_fuel(pow_nat, 17);
    assert(pow_nat(16, 16) == 0x1_0000_0000_0000_0000);
    lemma_hex_len_below(n, 16);
}

/// Builds a `String` holding exactly the characters of `chars`.
pub fn string_from_chars(chars: &Vec<char>) -> (s: String)
    ensures
        s@ == chars@,
{
    let mut s = String::new();
    let mut i: usize = 0;
    while i < chars.len()
        invariant
            i <= chars.len(),
            s@ == chars@.subrange(0, i as int),
        decreases chars.len() - i,
    {
        push_char(&mut s, chars[i]);
        i = i + 1;
        assert(s@ == chars@.subrange(0, i as int));
    }
    assert(chars@.subrange(0, chars.len() as int) == chars@);
    s
}

/// The characters of a string slice, as a vector.
pub fn chars_of(s: &str) -> (v: Vec<char>)
    ensures
        v@ == s@,
{
    let n = s.unicode_len();
    let mut v: Vec<char> = Vec::new();
    let mut i: usize = 0;
    while i < n
        invariant
            n == s@.len(),
            i <= n,
            v@ == s@.subrange(0, i as int),
        decreases n - i,
    {
        v.push(s.get_char(i));
        i = i + 1;
        assert(v@ == s@.subrange(0, i as int));
    }
    assert(s@.subrange(0, n as int) == s@);
    v
}

/// ASCII lower-casing of one character (other characters are unchanged).
pub open spec fn lower_char(c: char) -> char {
    if 'A' <= c && c <= 'Z' {
        ((c as u32) + 32) as char
    } else {
        c
    }
}

/// ASCII lower-casing of a character sequence.
pub open spec fn lower_seq(s: Seq<char>) -> Seq<char> {
    s.map_values(|c: char| lower_char(c))
}

pub fn to_lower_char(c: char) -> (r: char)
    ensures
        r == lower_char(c),
{
    if 'A' <= c && c <= 'Z' {
        let v: u32 = c as u32;
        let r: u8 = (v + 32) as u8;
        r as char
    } else {
        c
    }
}

/// ASCII lower-casing of a string.
pub fn ascii_lowercase(s: &str) -> (r: String)
    ensures
        r@ == lower_seq(s@),
{
    let chars = chars_of(s);
    let mut out: Vec<char> = Vec::new();
    let mut i: usize = 0;
    while i < chars.len()
        invariant
            chars@ == s@,
            i <= chars.len(),
            out@ == lower_seq(s@.subrange(0, i as int)),
        decreases chars.len() - i,
    {
        out.push(to_lower_char(chars[i]));
        i = i + 1;
        assert(out@ == lower_seq(s@.subrange(0, i as int)));
    }
    assert(s@.subrange(0, chars.len() as int) == s@);
    string_from_chars(&out)
}

/// `needle` occurs as a contiguous run inside `hay`.
pub open spec fn seq_contains(hay: Seq<char>, needle: Seq<char>) -> bool {
    exists|i: int| 0 <= i && i + needle.len() <= hay.len() && #[trigger] hay.subrange(i, i + needle.len()) == needle
}

/// `prefix` is a prefix of `s`.
pub open spec fn seq_starts_with(s: Seq<char>, prefix: Seq<char>) -> bool {
    prefix.len() <= s.len() && s.subrange(0, prefix.len() as int) == prefix
}

/// `needle` matches `hay` at position `at`.
pub open spec fn matches_at(hay: Seq<char>, needle: Seq<char>, at: int) -> bool {
    0 <= at && at + needle.len() <= hay.len() && hay.subrange(at, at + needle.len()) == needle
}

pub fn vec_matches_at(hay: &Vec<char>, needle: &Vec<char>, at: usize) -> (r: bool)
    ensures
        r == matches_at(hay@, needle@, at as int),
{
    if at > hay.len() || needle.len() > hay.len() - at {
        return false;
    }
    let mut k: usize = 0;
    while k < needle.len()
        invariant
            at + needle.len() <= hay.len(),
            k <= needle.len(),
            forall|j: int| 0 <= j < k ==> hay@[at + j] == needle@[j],
        decreases needle.len() - k,
    {
        if hay[at + k] != needle[k] {
            assert(hay@.subrange(at as int, at + needle.len())[k as int] != needle@[k as int]);
            return false;
        }
        k = k + 1;
    }
    assert(hay@.subrange(at as int, at + needle.len()) == needle@);
    true
}

/// Whether `needle` occurs in `hay`.
pub fn vec_contains(hay: &Vec<char>, needle: &Vec<char>) -> (r: bool)
    ensures
        r == seq_contains(hay@, needle@),
{
    if needle.len() > hay.len() {
        return false;
    }
    let limit = hay.len() - needle.len();
    let mut at: usize = 0;
    loop
        invariant
            needle.len() <= hay.len(),
            limit == hay.len() - needle.len(),
            at <= limit,
            forall|i: int| 0 <= i < at ==> !matches_at(hay@, needle@, i),
        ensures
            forall|i: int| 0 <= i <= limit ==> !matches_at(hay@, needle@, i),
        decreases limit - at,
    {
        if vec_matches_at(hay, needle, at) {
            assert(hay@.subrange(at as int, at + needle@.len()) == needle@);
            return true;
        }
        if at == limit {
            break;
        }
        at = at + 1;
    }
    assert forall|i: int| 0 <= i && i + needle@.len() <= hay@.len() implies
        #[trigger] hay@.subrange(i, i + needle@.len()) != needle@ by {
        assert(!matches_at(hay@, needle@, i));
    }
    false
}


/// The first `maximum` characters of `value` (all of them when it is shorter).
pub open spec fn take_chars(value: Seq<char>, maximum: nat) -> Seq<char> {
    if value.len() <= maximum {
        value
    } else {
        value.subrange(0, maximum as int)
    }
}

/// Keeps at most `maximum` characters of `value`.
pub fn bounded_text(value: &str, maximum: usize) -> (r: String)
    ensures
        r@ == take_chars(value@, maximum as nat),
{
    let chars = chars_of(value);
    let n = if chars.len() <= maximum { chars.len() } else { maximum };
    let part = copy_chars(&chars, 0, n);
    string_from_chars(&part)
}

/// A copy of `v[start..end]`.
pub fn copy_chars(v: &Vec<char>, start: usize, end: usize) -> (r: Vec<char>)
    requires
        start <= end <= v@.len(),
    ensures
        r@ == v@.subrange(start as int, end as int),
{
    let mut r: Vec<char> = Vec::new();
    let mut i: usize = start;
    while i < end
        invariant
            start <= i <= end,
            end <= v@.len(),
            r@ == v@.subrange(start as int, i as int),
        decreases end - i,
    {
        r.push(v[i]);
        i = i + 1;
        assert(r@ == v@.subrange(start as int, i as int));
    }
    r
}

/// Whether two character vectors hold the same characters.
pub fn chars_equal(a: &Vec<char>, b: &Vec<char>) -> (r: bool)
    ensures
        r == (a@ == b@),
{
    if a.len() != b.len() {
        return false;
    }
    let mut i: usize = 0;
    while i < a.len()
        invariant
            a@.len() == b@.len(),
            i <= a@.len(),
            forall|j: int| 0 <= j < i ==> a@[j] == b@[j],
        decreases a@.len() - i,
    {
        if a[i] != b[i] {
            return false;
        }
        i = i + 1;
    }
    assert(a@ =~= b@);
    true
}

/// Position of the first `c` in `s` (`s.len()` when there is none).
pub open spec fn first_index(s: Seq<char>, c: char) -> int
    decreases s.len(),
{
    if s.len() == 0 {
        0
    } else if s[0] == c {
        0
    } else {
        1 + first_index(s.subrange(1, s.len() as int), c)
    }
}

/// Finds the first `c` in `v`.
pub fn find_char(v: &Vec<char>, c: char) -> (r: usize)
    ensures
        r as int == first_index(v@, c),
        r <= v@.len(),
{
    let mut i: usize = 0;
    assert(v@.subrange(0, v@.len() as int) =~= v@);
    while i < v.len()
        invariant
            i <= v@.len(),
            first_index(v@, c) == i + first_index(v@.subrange(i as int, v@.len() as int), c),
        decreases v@.len() - i,
    {
        let tail = Ghost(v@.subrange(i as int, v@.len() as int));
        assert(tail@.subrange(1, tail@.len() as int) =~= v@.subrange(i + 1, v@.len() as int));
        if v[i] == c {
            return i;
        }
        i = i + 1;
    }
    i
}

/// Lexicographic order on characters, by code point.
pub open spec fn seq_less(a: Seq<char>, b: Seq<char>) -> bool
    decreases a.len(),
{
    if b.len() == 0 {
        false
    } else if a.len() == 0 {
        true
    } else if a[0] != b[0] {
        (a[0] as u32) < (b[0] as u32)
    } else {
        seq_less(a.subrange(1, a.len() as int), b.subrange(1, b.len() as int))
    }
}

/// Whether `a` sorts strictly before `b` (lexicographically, by code point).
pub fn chars_less(a: &Vec<char>, b: &Vec<char>) -> (r: bool)
    ensures
        r == seq_less(a@, b@),
{
    let mut i: usize = 0;
    assert(a@.subrange(0, a@.len() as int) =~= a@);
    assert(b@.subrange(0, b@.len() as int) =~= b@);
    while i < a.len() && i < b.len()
        invariant
            i <= a@.len(),
            i <= b@.len(),
            seq_less(a@, b@) == seq_less(a@.subrange(i as int, a@.len() as int), b@.subrange(i as int, b@.len() as int)),
        decreases a@.len() - i,
    {
        let ta = Ghost(a@.subrange(i as int, a@.len() as int));
        let tb = Ghost(b@.subrange(i as int, b@.len() as int));
        assert(ta@.subrange(1, ta@.len() as int) =~= a@.subrange(i + 1, a@.len() as int));
        assert(tb@.subrange(1, tb@.len() as int) =~= b@.subrange(i + 1, b@.len() as int));
        let x = a[i];
        let y = b[i];
        if x != y {
            return (x as u32) < (y as u32);
        }
        i = i + 1;
    }
    i < b.len()
}


/// What `String::from_utf8_lossy` makes of a byte sequence.
pub uninterp spec fn lossy_utf8(bytes: Seq<u8>) -> Seq<char>;

/// What `String::from_utf16_lossy` makes of a sequence of UTF-16 code units.
pub uninterp spec fn lossy_utf16(units: Seq<u16>) -> Seq<char>;

/// Every byte is ASCII.
pub open spec fn all_ascii(bytes: Seq<u8>) -> bool {
    forall|i: int| 0 <= i < bytes.len() ==> #[trigger] bytes[i] < 128
}

/// Every unit is a scalar value on its own (no surrogate half).
pub open spec fn all_bmp_scalars(units: Seq<u16>) -> bool {
    forall|i: int| 0 <= i < units.len() ==> (#[trigger] units[i] < 0xD800 || units[i] >= 0xE000)
}

/// Decodes bytes as UTF-8, replacing each invalid sequence with U+FFFD
/// (`String::from_utf8_lossy`). Stated: the result is the named decoding of
/// the bytes, and ASCII bytes decode to the characters with the same codes.
#[verifier::external_body]
pub fn utf8_lossy(bytes: &[u8]) -> (s: String)
    ensures
        s@ == lossy_utf8(bytes@),
        all_ascii(bytes@) ==> s@ == bytes@.map_values(|b: u8| b as char),
{
    String::from_utf8_lossy(bytes).into_owned()
}

/// Decodes UTF-16 code units, replacing each unpaired surrogate with U+FFFD
/// (`String::from_utf16_lossy`). Stated: the result is the named decoding of
/// the units, and units outside the surrogate range decode one for one.
#[verifier::external_body]
pub fn utf16_lossy(units: &[u16]) -> (s: String)
    ensures
        s@ == lossy_utf16(units@),
        all_bmp_scalars(units@) ==> s@ == units@.map_values(|u: u16| u as char),
{
    String::from_utf16_lossy(units)
}

/// The items `at(0), at(1), ...` up to `count` of them, stopping before the
/// first one that is missing or equal to `terminator`.
pub open spec fn terminated_prefix<T>(at: spec_fn(nat) -> Option<T>, terminator: T, count: nat) -> Seq<T>
    decreases count,
{
    if count == 0 {
        Seq::empty()
    } else {
        let prev = terminated_prefix(at, terminator, (count - 1) as nat);
        let next = at((count - 1) as nat);
        if prev.len() == count - 1 && next is Some && next->0 != terminator {
            prev.push(next->0)
        } else {
            prev
        }
    }
}

/// Once the walk has stopped short, reading further changes nothing.
pub proof fn lemma_terminated_prefix_stops<T>(at: spec_fn(nat) -> Option<T>, terminator: T, n: nat, m: nat)
    requires
        terminated_prefix(at, terminator, n).len() < n,
        n <= m,
    ensures
        terminated_prefix(at, terminator, m) == terminated_prefix(at, terminator, n),
    decreases m,
{
    if m > n {
        lemma_terminated_prefix_stops(at, terminator, n, (m - 1) as nat);
    }
}

} // verus!
