//! Calling conventions and argument counts of the Windows APIs that the
//! emulator models, with recovery of counts from `_name@bytes` decorations.
use vstd::prelude::*;

use crate::text::{chars_equal, chars_of, copy_chars, lower_seq, seq_starts_with, string_from_chars, to_lower_char};

verus! {

#[derive(Debug, Clone, Copy, PartialEq, Eq, Structural)]
pub enum CallingConvention {
    Stdcall,
    Cdecl,
}

#[derive(Debug, Clone, Copy)]
pub struct ApiSignature {
    pub argument_count: usize,
    pub convention: CallingConvention,
    pub modeled: bool,
}

/// `s` without its leading `c` characters.
pub open spec fn trim_leading(s: Seq<char>, c: char) -> Seq<char>
    decreases s.len(),
{
    if s.len() > 0 && s[0] == c {
        trim_leading(s.subrange(1, s.len() as int), c)
    } else {
        s
    }
}

/// Position of the last `c` in `s` (-1 when there is none).
pub open spec fn last_index(s: Seq<char>, c: char) -> int
    decreases s.len(),
{
    if s.len() == 0 {
        -1
    } else if s.last() == c {
        s.len() - 1
    } else {
        last_index(s.drop_last(), c)
    }
}

/// Every character is an ASCII digit (true of the empty sequence).
pub open spec fn all_digits(s: Seq<char>) -> bool {
    forall|i: int| 0 <= i < s.len() ==> '0' <= #[trigger] s[i] && s[i] <= '9'
}

/// `s` without a trailing `@digits` decoration.
pub open spec fn undecorated(s: Seq<char>) -> Seq<char> {
    let i = last_index(s, '@');
    if i >= 0 && all_digits(s.subrange(i + 1, s.len() as int)) {
        s.subrange(0, i)
    } else {
        s
    }
}

/// The lookup key of an API name: leading underscores and a trailing
/// `@digits` decoration removed, ASCII lower-cased.
pub open spec fn normalize_spec(s: Seq<char>) -> Seq<char> {
    lower_seq(undecorated(trim_leading(s, '_')))
}

/// The decimal value of a run of digits.
pub open spec fn digits_value(s: Seq<char>) -> nat
    decreases s.len(),
{
    if s.len() == 0 {
        0
    } else {
        digits_value(s.drop_last()) * 10 + ((s.last() as u32) - 48) as nat
    }
}

/// What `str::parse::<usize>` accepts: an optional `+`, then one or more
/// decimal digits whose value fits in a `usize`.
pub open spec fn parse_usize_spec(s: Seq<char>) -> Option<nat> {
    let d = if s.len() > 0 && s[0] == '+' {
        s.subrange(1, s.len() as int)
    } else {
        s
    };
    if d.len() > 0 && all_digits(d) && digits_value(d) <= usize::MAX {
        Some(digits_value(d))
    } else {
        None
    }
}

/// The argument count that a `name@bytes` decoration implies (`bytes / 4`).
pub open spec fn decorated_count_spec(s: Seq<char>) -> Option<nat> {
    let i = last_index(s, '@');
    if i < 0 {
        None
    } else {
        match parse_usize_spec(s.subrange(i + 1, s.len() as int)) {
            Some(v) => Some(v / 4),
            None => None,
        }
    }
}

/// Some listed name equals `n`.
pub open spec fn name_listed(n: Seq<char>, names: Seq<&str>) -> bool {
    exists|k: int| 0 <= k < names.len() && #[trigger] names[k]@ == n
}

/// Whether `n` is one of `names`.
pub fn listed(n: &Vec<char>, names: &[&str]) -> (r: bool)
    ensures
        r == name_listed(n@, names@),
{
    let mut k: usize = 0;
    while k < names.len()
        invariant
            k <= names@.len(),
            forall|j: int| 0 <= j < k ==> #[trigger] names@[j]@ != n@,
        decreases names@.len() - k,
    {
        let candidate = chars_of(names[k]);
        if chars_equal(&candidate, n) {
            return true;
        }
        k = k + 1;
    }
    false
}

fn is_digit(c: char) -> (r: bool)
    ensures
        r == ('0' <= c && c <= '9'),
{
    '0' <= c && c <= '9'
}

fn last_char_index(v: &Vec<char>, c: char) -> (r: Option<usize>)
    ensures
        match r {
            Some(i) => i as int == last_index(v@, c) && i < v@.len(),
            None => last_index(v@, c) == -1,
        },
{
    let mut j: usize = v.len();
    assert(v@.subrange(0, v@.len() as int) =~= v@);
    while j > 0
        invariant
            j <= v@.len(),
            last_index(v@, c) == last_index(v@.subrange(0, j as int), c),
        decreases j,
    {
        let pre = Ghost(v@.subrange(0, j as int));
        assert(pre@.drop_last() =~= v@.subrange(0, j - 1));
        if v[j - 1] == c {
            return Some(j - 1);
        }
        j = j - 1;
    }
    None
}

fn only_digits(v: &Vec<char>, start: usize) -> (r: bool)
    requires
        start <= v@.len(),
    ensures
        r == all_digits(v@.subrange(start as int, v@.len() as int)),
{
    let mut i: usize = start;
    while i < v.len()
        invariant
            start <= i <= v@.len(),
            forall|j: int| start <= j < i ==> '0' <= #[trigger] v@[j] && v@[j] <= '9',
        decreases v@.len() - i,
    {
        if !is_digit(v[i]) {
            assert(v@.subrange(start as int, v@.len() as int)[i - start] == v@[i as int]);
            return false;
        }
        i = i + 1;
    }
    true
}

/// The lookup key of an API name: leading underscores and a trailing
/// `@digits` decoration removed, ASCII lower-cased.
pub fn normalize_name(name: &str) -> (r: String)
    ensures
        r@ == normalize_spec(name@),
{
    let chars = chars_of(name);
    let mut start: usize = 0;
    assert(chars@.subrange(0, chars@.len() as int) =~= chars@);
    while start < chars.len() && chars[start] == '_'
        invariant
            start <= chars@.len(),
            trim_leading(chars@, '_') == trim_leading(chars@.subrange(start as int, chars@.len() as int), '_'),
        decreases chars@.len() - start,
    {
        let tail = Ghost(chars@.subrange(start as int, chars@.len() as int));
        assert(tail@.subrange(1, tail@.len() as int) =~= chars@.subrange(start + 1, chars@.len() as int));
        start = start + 1;
    }
    let trimmed = copy_chars(&chars, start, chars.len());
    proof {
        let t = chars@.subrange(start as int, chars@.len() as int);
        if t.len() > 0 {
            assert(t[0] == chars@[start as int]);
        }
    }
    let base = match last_char_index(&trimmed, '@') {
        Some(at) => {
            if only_digits(&trimmed, at + 1) {
                copy_chars(&trimmed, 0, at)
            } else {
                copy_chars(&trimmed, 0, trimmed.len())
            }
        },
        None => copy_chars(&trimmed, 0, trimmed.len()),
    };
    assert(trimmed@.subrange(0, trimmed@.len() as int) =~= trimmed@);
    let mut lower: Vec<char> = Vec::new();
    let mut i: usize = 0;
    while i < base.len()
        invariant
            i <= base@.len(),
            lower@ == lower_seq(base@.subrange(0, i as int)),
        decreases base@.len() - i,
    {
        lower.push(to_lower_char(base[i]));
        i = i + 1;
        assert(lower@ =~= lower_seq(base@.subrange(0, i as int)));
    }
    assert(base@.subrange(0, base@.len() as int) =~= base@);
    string_from_chars(&lower)
}

proof fn lemma_digits_value_grows(s: Seq<char>, k: int)
    requires
        0 <= k <= s.len(),
        all_digits(s),
    ensures
        digits_value(s.subrange(0, k)) <= digits_value(s),
    decreases s.len() - k,
{
    if k < s.len() {
        lemma_digits_value_grows(s, k + 1);
        let p = s.subrange(0, k + 1);
        assert(p.drop_last() =~= s.subrange(0, k));
        assert('0' <= p.last());
        assert(digits_value(p) == digits_value(s.subrange(0, k)) * 10 + ((p.last() as u32) - 48) as nat);
    } else {
        assert(s.subrange(0, k) =~= s);
    }
}

/// Parses `s[start..]` as `str::parse::<usize>` does.
pub(crate) fn parse_usize(s: &Vec<char>, start: usize) -> (r: Option<usize>)
    requires
        start <= s@.len(),
    ensures
        match parse_usize_spec(s@.subrange(start as int, s@.len() as int)) {
            Some(v) => r == Some(v as usize),
            None => r is None,
        },
{
    let ghost t = s@.subrange(start as int, s@.len() as int);
    let first = if start < s.len() && s[start] == '+' { start + 1 } else { start };
    proof {
        if start < s@.len() && s@[start as int] == '+' {
            assert(t[0] == '+');
            assert(t.subrange(1, t.len() as int) =~= s@.subrange(first as int, s@.len() as int));
        } else {
            if t.len() > 0 {
                assert(t[0] == s@[start as int]);
            }
        }
    }
    let ghost d = s@.subrange(first as int, s@.len() as int);
    if first >= s.len() {
        return None;
    }
    let mut acc: usize = 0;
    let mut i: usize = first;
    assert(s@.subrange(first as int, first as int) =~= Seq::<char>::empty());
    while i < s.len()
        invariant
            first <= i <= s@.len(),
            t == s@.subrange(start as int, s@.len() as int),
            d == s@.subrange(first as int, s@.len() as int),
            forall|j: int| first <= j < i ==> '0' <= #[trigger] s@[j] && s@[j] <= '9',
            acc == digits_value(s@.subrange(first as int, i as int)),
            parse_usize_spec(t) == (if d.len() > 0 && all_digits(d) && digits_value(d) <= usize::MAX {
                Some(digits_value(d))
            } else {
                None
            }),
        decreases s@.len() - i,
    {
        let c = s[i];
        if !is_digit(c) {
            assert(d[i - first] == c);
            return None;
        }
        let digit: usize = (c as u32 - 48) as usize;
        let ghost pre = s@.subrange(first as int, i + 1);
        assert(pre.drop_last() =~= s@.subrange(first as int, i as int));
        if acc > (usize::MAX - digit) / 10 {
            proof {
                let m = usize::MAX as int;
                assert(acc * 10 + digit > m) by (nonlinear_arith)
                    requires
                        acc > (m - digit) / 10,
                        0 <= digit <= 9,
                ;
                assert(digits_value(pre) > usize::MAX);
                if all_digits(d) {
                    assert(pre =~= d.subrange(0, i + 1 - first));
                    lemma_digits_value_grows(d, i + 1 - first);
                }
            }
            return None;
        }
        acc = acc * 10 + digit;
        i = i + 1;
    }
    assert(s@.subrange(first as int, i as int) =~= d);
    Some(acc)
}

/// The argument count of an API that the emulator models, by normalized name.
pub open spec fn modeled_argument_count(n: Seq<char>) -> Option<nat> {
    if name_listed(n, seq!["gettickcount", "getcurrentprocessid", "getcurrentthreadid", "getprocessheap", "getcommandlinea", "getcommandlinew", "getlasterror"]) {
        Some(0nat)
    } else if name_listed(n, seq!["exitprocess", "exitthread", "sleep", "getmodulehandlea", "getmodulehandlew", "loadlibrarya", "loadlibraryw", "deletefilea", "deletefilew", "closehandle", "regclosekey", "internetclosehandle", "localfree", "globalfree", "heapdestroy", "setlasterror"]) {
        Some(1nat)
    } else if name_listed(n, seq!["winexec", "getprocaddress", "virtualfree", "localalloc", "globalalloc", "checkremotedebuggerpresent", "addvectoredexceptionhandler"]) {
        Some(2nat)
    } else if name_listed(n, seq!["virtualprotect", "connect", "heapfree", "getenvironmentvariablea", "getenvironmentvariablew"]) {
        Some(3nat)
    } else if name_listed(n, seq!["virtualalloc", "send", "recv"]) {
        Some(4nat)
    } else if name_listed(n, seq!["raiseexception"]) {
        Some(4nat)
    } else if name_listed(n, seq!["heapalloc"]) {
        Some(3nat)
    } else if name_listed(n, seq!["regopenkeyexa", "regopenkeyexw", "internetopena", "internetopenw", "writefile", "readfile"]) {
        Some(5nat)
    } else if name_listed(n, seq!["regsetvalueexa", "regsetvalueexw", "internetopenurla", "internetopenurlw"]) {
        Some(6nat)
    } else if name_listed(n, seq!["createthread"]) {
        Some(6nat)
    } else if name_listed(n, seq!["createfilea", "createfilew"]) {
        Some(7nat)
    } else if name_listed(n, seq!["createprocessa", "createprocessw"]) {
        Some(10nat)
    } else if name_listed(n, seq!["openprocess", "queueuserapc"]) {
        Some(3nat)
    } else if name_listed(n, seq!["virtualallocex", "writeprocessmemory", "virtualprotectex", "ntqueryinformationprocess"]) {
        Some(5nat)
    } else if name_listed(n, seq!["createremotethread"]) {
        Some(7nat)
    } else if name_listed(n, seq!["resumethread"]) {
        Some(1nat)
    } else if name_listed(n, seq!["isdebuggerpresent"]) {
        Some(0nat)
    } else if name_listed(n, seq!["queryperformancecounter", "getsysteminfo", "globalmemorystatusex"]) {
        Some(1nat)
    } else if name_listed(n, seq!["getcomputernamea", "getcomputernamew", "getusernamea", "getusernamew", "gettemppatha", "gettemppathw", "getwindowsdirectorya", "getwindowsdirectoryw", "getsystemdirectorya", "getsystemdirectoryw"]) {
        Some(2nat)
    } else if name_listed(n, seq!["gettempfilenamea", "gettempfilenamew"]) {
        Some(4nat)
    } else if name_listed(n, seq!["wsastartup"]) {
        Some(2nat)
    } else if name_listed(n, seq!["socket"]) {
        Some(3nat)
    } else if name_listed(n, seq!["closesocket", "gethostbyname", "freeaddrinfo"]) {
        Some(1nat)
    } else if name_listed(n, seq!["getaddrinfo"]) {
        Some(4nat)
    } else if name_listed(n, seq!["regcreatekeyexa", "regcreatekeyexw"]) {
        Some(9nat)
    } else if name_listed(n, seq!["regqueryvalueexa", "regqueryvalueexw"]) {
        Some(6nat)
    } else if name_listed(n, seq!["regdeletevaluea", "regdeletevaluew", "regdeletekeya", "regdeletekeyw"]) {
        Some(2nat)
    } else if name_listed(n, seq!["heapcreate"]) {
        Some(3nat)
    } else if name_listed(n, seq!["heaprealloc"]) {
        Some(4nat)
    } else if name_listed(n, seq!["lstrlena", "lstrlenw", "strlen", "interlockedincrement", "interlockeddecrement"]) {
        Some(1nat)
    } else if name_listed(n, seq!["lstrcpya", "lstrcpyw", "lstrcata", "lstrcatw", "strcmp", "rtlzeromemory", "interlockedexchange"]) {
        Some(2nat)
    } else if name_listed(n, seq!["rtlmovememory", "memcpy", "memmove", "memset", "interlockedcompareexchange"]) {
        Some(3nat)
    } else if name_listed(n, seq!["multibytetowidechar"]) {
        Some(6nat)
    } else if name_listed(n, seq!["widechartomultibyte"]) {
        Some(8nat)
    } else if name_listed(n, seq!["copyfilea", "copyfilew"]) {
        Some(3nat)
    } else if name_listed(n, seq!["movefilea", "movefilew", "createdirectorya", "createdirectoryw", "getfilesize"]) {
        Some(2nat)
    } else if name_listed(n, seq!["removedirectorya", "removedirectoryw", "getfileattributesa", "getfileattributesw"]) {
        Some(1nat)
    } else if name_listed(n, seq!["setfilepointer"]) {
        Some(4nat)
    } else if name_listed(n, seq!["openscmanagera", "openscmanagerw", "openservicea", "openservicew", "startservicea", "startservicew"]) {
        Some(3nat)
    } else if name_listed(n, seq!["createservicea", "createservicew"]) {
        Some(13nat)
    } else if name_listed(n, seq!["deleteservice", "removevectoredexceptionhandler"]) {
        Some(1nat)
    } else if name_listed(n, seq!["shellexecutea", "shellexecutew"]) {
        Some(6nat)
    } else {
        None
    }
}

/// Looks up the argument count of a modeled API.
pub fn modeled_count(normalized: &Vec<char>) -> (r: Option<usize>)
    ensures
        match modeled_argument_count(normalized@) {
            Some(c) => r == Some(c as usize),
            None => r is None,
        },
{
    let names: [&str; 7] = ["gettickcount", "getcurrentprocessid", "getcurrentthreadid", "getprocessheap", "getcommandlinea", "getcommandlinew", "getlasterror"];
    assert(names@ =~= seq!["gettickcount", "getcurrentprocessid", "getcurrentthreadid", "getprocessheap", "getcommandlinea", "getcommandlinew", "getlasterror"]);
    if listed(normalized, &names) {
        return Some(0);
    }
    let names: [&str; 16] = ["exitprocess", "exitthread", "sleep", "getmodulehandlea", "getmodulehandlew", "loadlibrarya", "loadlibraryw", "deletefilea", "deletefilew", "closehandle", "regclosekey", "internetclosehandle", "localfree", "globalfree", "heapdestroy", "setlasterror"];
    assert(names@ =~= seq!["exitprocess", "exitthread", "sleep", "getmodulehandlea", "getmodulehandlew", "loadlibrarya", "loadlibraryw", "deletefilea", "deletefilew", "closehandle", "regclosekey", "internetclosehandle", "localfree", "globalfree", "heapdestroy", "setlasterror"]);
    if listed(normalized, &names) {
        return Some(1);
    }
    let names: [&str; 7] = ["winexec", "getprocaddress", "virtualfree", "localalloc", "globalalloc", "checkremotedebuggerpresent", "addvectoredexceptionhandler"];
    assert(names@ =~= seq!["winexec", "getprocaddress", "virtualfree", "localalloc", "globalalloc", "checkremotedebuggerpresent", "addvectoredexceptionhandler"]);
    if listed(normalized, &names) {
        return Some(2);
    }
    let names: [&str; 5] = ["virtualprotect", "connect", "heapfree", "getenvironmentvariablea", "getenvironmentvariablew"];
    assert(names@ =~= seq!["virtualprotect", "connect", "heapfree", "getenvironmentvariablea", "getenvironmentvariablew"]);
    if listed(normalized, &names) {
        return Some(3);
    }
    let names: [&str; 3] = ["virtualalloc", "send", "recv"];
    assert(names@ =~= seq!["virtualalloc", "send", "recv"]);
    if listed(normalized, &names) {
        return Some(4);
    }
    let names: [&str; 1] = ["raiseexception"];
    assert(names@ =~= seq!["raiseexception"]);
    if listed(normalized, &names) {
        return Some(4);
    }
    let names: [&str; 1] = ["heapalloc"];
    assert(names@ =~= seq!["heapalloc"]);
    if listed(normalized, &names) {
        return Some(3);
    }
    let names: [&str; 6] = ["regopenkeyexa", "regopenkeyexw", "internetopena", "internetopenw", "writefile", "readfile"];
    assert(names@ =~= seq!["regopenkeyexa", "regopenkeyexw", "internetopena", "internetopenw", "writefile", "readfile"]);
    if listed(normalized, &names) {
        return Some(5);
    }
    let names: [&str; 4] = ["regsetvalueexa", "regsetvalueexw", "internetopenurla", "internetopenurlw"];
    assert(names@ =~= seq!["regsetvalueexa", "regsetvalueexw", "internetopenurla", "internetopenurlw"]);
    if listed(normalized, &names) {
        return Some(6);
    }
    let names: [&str; 1] = ["createthread"];
    assert(names@ =~= seq!["createthread"]);
    if listed(normalized, &names) {
        return Some(6);
    }
    let names: [&str; 2] = ["createfilea", "createfilew"];
    assert(names@ =~= seq!["createfilea", "createfilew"]);
    if listed(normalized, &names) {
        return Some(7);
    }
    let names: [&str; 2] = ["createprocessa", "createprocessw"];
    assert(names@ =~= seq!["createprocessa", "createprocessw"]);
    if listed(normalized, &names) {
        return Some(10);
    }
    let names: [&str; 2] = ["openprocess", "queueuserapc"];
    assert(names@ =~= seq!["openprocess", "queueuserapc"]);
    if listed(normalized, &names) {
        return Some(3);
    }
    let names: [&str; 4] = ["virtualallocex", "writeprocessmemory", "virtualprotectex", "ntqueryinformationprocess"];
    assert(names@ =~= seq!["virtualallocex", "writeprocessmemory", "virtualprotectex", "ntqueryinformationprocess"]);
    if listed(normalized, &names) {
        return Some(5);
    }
    let names: [&str; 1] = ["createremotethread"];
    assert(names@ =~= seq!["createremotethread"]);
    if listed(normalized, &names) {
        return Some(7);
    }
    let names: [&str; 1] = ["resumethread"];
    assert(names@ =~= seq!["resumethread"]);
    if listed(normalized, &names) {
        return Some(1);
    }
    let names: [&str; 1] = ["isdebuggerpresent"];
    assert(names@ =~= seq!["isdebuggerpresent"]);
    if listed(normalized, &names) {
        return Some(0);
    }
    let names: [&str; 3] = ["queryperformancecounter", "getsysteminfo", "globalmemorystatusex"];
    assert(names@ =~= seq!["queryperformancecounter", "getsysteminfo", "globalmemorystatusex"]);
    if listed(normalized, &names) {
        return Some(1);
    }
    let names: [&str; 10] = ["getcomputernamea", "getcomputernamew", "getusernamea", "getusernamew", "gettemppatha", "gettemppathw", "getwindowsdirectorya", "getwindowsdirectoryw", "getsystemdirectorya", "getsystemdirectoryw"];
    assert(names@ =~= seq!["getcomputernamea", "getcomputernamew", "getusernamea", "getusernamew", "gettemppatha", "gettemppathw", "getwindowsdirectorya", "getwindowsdirectoryw", "getsystemdirectorya", "getsystemdirectoryw"]);
    if listed(normalized, &names) {
        return Some(2);
    }
    let names: [&str; 2] = ["gettempfilenamea", "gettempfilenamew"];
    assert(names@ =~= seq!["gettempfilenamea", "gettempfilenamew"]);
    if listed(normalized, &names) {
        return Some(4);
    }
    let names: [&str; 1] = ["wsastartup"];
    assert(names@ =~= seq!["wsastartup"]);
    if listed(normalized, &names) {
        return Some(2);
    }
    let names: [&str; 1] = ["socket"];
    assert(names@ =~= seq!["socket"]);
    if listed(normalized, &names) {
        return Some(3);
    }
    let names: [&str; 3] = ["closesocket", "gethostbyname", "freeaddrinfo"];
    assert(names@ =~= seq!["closesocket", "gethostbyname", "freeaddrinfo"]);
    if listed(normalized, &names) {
        return Some(1);
    }
    let names: [&str; 1] = ["getaddrinfo"];
    assert(names@ =~= seq!["getaddrinfo"]);
    if listed(normalized, &names) {
        return Some(4);
    }
    let names: [&str; 2] = ["regcreatekeyexa", "regcreatekeyexw"];
    assert(names@ =~= seq!["regcreatekeyexa", "regcreatekeyexw"]);
    if listed(normalized, &names) {
        return Some(9);
    }
    let names: [&str; 2] = ["regqueryvalueexa", "regqueryvalueexw"];
    assert(names@ =~= seq!["regqueryvalueexa", "regqueryvalueexw"]);
    if listed(normalized, &names) {
        return Some(6);
    }
    let names: [&str; 4] = ["regdeletevaluea", "regdeletevaluew", "regdeletekeya", "regdeletekeyw"];
    assert(names@ =~= seq!["regdeletevaluea", "regdeletevaluew", "regdeletekeya", "regdeletekeyw"]);
    if listed(normalized, &names) {
        return Some(2);
    }
    let names: [&str; 1] = ["heapcreate"];
    assert(names@ =~= seq!["heapcreate"]);
    if listed(normalized, &names) {
        return Some(3);
    }
    let names: [&str; 1] = ["heaprealloc"];
    assert(names@ =~= seq!["heaprealloc"]);
    if listed(normalized, &names) {
        return Some(4);
    }
    let names: [&str; 5] = ["lstrlena", "lstrlenw", "strlen", "interlockedincrement", "interlockeddecrement"];
    assert(names@ =~= seq!["lstrlena", "lstrlenw", "strlen", "interlockedincrement", "interlockeddecrement"]);
    if listed(normalized, &names) {
        return Some(1);
    }
    let names: [&str; 7] = ["lstrcpya", "lstrcpyw", "lstrcata", "lstrcatw", "strcmp", "rtlzeromemory", "interlockedexchange"];
    assert(names@ =~= seq!["lstrcpya", "lstrcpyw", "lstrcata", "lstrcatw", "strcmp", "rtlzeromemory", "interlockedexchange"]);
    if listed(normalized, &names) {
        return Some(2);
    }
    let names: [&str; 5] = ["rtlmovememory", "memcpy", "memmove", "memset", "interlockedcompareexchange"];
    assert(names@ =~= seq!["rtlmovememory", "memcpy", "memmove", "memset", "interlockedcompareexchange"]);
    if listed(normalized, &names) {
        return Some(3);
    }
    let names: [&str; 1] = ["multibytetowidechar"];
    assert(names@ =~= seq!["multibytetowidechar"]);
    if listed(normalized, &names) {
        return Some(6);
    }
    let names: [&str; 1] = ["widechartomultibyte"];
    assert(names@ =~= seq!["widechartomultibyte"]);
    if listed(normalized, &names) {
        return Some(8);
    }
    let names: [&str; 2] = ["copyfilea", "copyfilew"];
    assert(names@ =~= seq!["copyfilea", "copyfilew"]);
    if listed(normalized, &names) {
        return Some(3);
    }
    let names: [&str; 5] = ["movefilea", "movefilew", "createdirectorya", "createdirectoryw", "getfilesize"];
    assert(names@ =~= seq!["movefilea", "movefilew", "createdirectorya", "createdirectoryw", "getfilesize"]);
    if listed(normalized, &names) {
        return Some(2);
    }
    let names: [&str; 4] = ["removedirectorya", "removedirectoryw", "getfileattributesa", "getfileattributesw"];
    assert(names@ =~= seq!["removedirectorya", "removedirectoryw", "getfileattributesa", "getfileattributesw"]);
    if listed(normalized, &names) {
        return Some(1);
    }
    let names: [&str; 1] = ["setfilepointer"];
    assert(names@ =~= seq!["setfilepointer"]);
    if listed(normalized, &names) {
        return Some(4);
    }
    let names: [&str; 6] = ["openscmanagera", "openscmanagerw", "openservicea", "openservicew", "startservicea", "startservicew"];
    assert(names@ =~= seq!["openscmanagera", "openscmanagerw", "openservicea", "openservicew", "startservicea", "startservicew"]);
    if listed(normalized, &names) {
        return Some(3);
    }
    let names: [&str; 2] = ["createservicea", "createservicew"];
    assert(names@ =~= seq!["createservicea", "createservicew"]);
    if listed(normalized, &names) {
        return Some(13);
    }
    let names: [&str; 2] = ["deleteservice", "removevectoredexceptionhandler"];
    assert(names@ =~= seq!["deleteservice", "removevectoredexceptionhandler"]);
    if listed(normalized, &names) {
        return Some(1);
    }
    let names: [&str; 2] = ["shellexecutea", "shellexecutew"];
    assert(names@ =~= seq!["shellexecutea", "shellexecutew"]);
    if listed(normalized, &names) {
        return Some(6);
    }
    None
}

/// The argument count implied by a `name@bytes` decoration.
pub fn decorated_argument_count(name: &str) -> (r: Option<usize>)
    ensures
        match decorated_count_spec(name@) {
            Some(c) => r == Some(c as usize),
            None => r is None,
        },
{
    let chars = chars_of(name);
    let n = chars.len();
    match last_char_index(&chars, '@') {
        None => None,
        Some(at) => match parse_usize(&chars, at + 1) {
            Some(bytes) => Some(bytes / 4),
            None => None,
        },
    }
}

/// The convention of an API by normalized name: `cdecl` for the `wsprintf`
/// family and the C runtime string and memory routines, `stdcall` otherwise.
pub open spec fn convention_spec(n: Seq<char>) -> CallingConvention {
    if seq_starts_with(n, "wsprintf"@) || name_listed(n, seq!["strlen", "strcmp", "memcpy", "memmove", "memset"]) {
        CallingConvention::Cdecl
    } else {
        CallingConvention::Stdcall
    }
}

/// The calling convention of an API, by its normalized name: cdecl (the
/// caller cleans the stack) exactly for the `wsprintf` family and the C
/// runtime routines `strlen`, `strcmp`, `memcpy`, `memmove` and `memset`;
/// stdcall for every other API.
pub proof fn law_calling_convention(n: Seq<char>)
    ensures
        (convention_spec(n) == CallingConvention::Cdecl) == (seq_starts_with(n, "wsprintf"@) || n == "strlen"@
            || n == "strcmp"@ || n == "memcpy"@ || n == "memmove"@ || n == "memset"@),
        (convention_spec(n) == CallingConvention::Stdcall) == !(convention_spec(n) == CallingConvention::Cdecl),
{
    let names = seq!["strlen", "strcmp", "memcpy", "memmove", "memset"];
    assert(names[0]@ == "strlen"@ && names[1]@ == "strcmp"@ && names[2]@ == "memcpy"@ && names[3]@ == "memmove"@
        && names[4]@ == "memset"@);
    if n == "strlen"@ || n == "strcmp"@ || n == "memcpy"@ || n == "memmove"@ || n == "memset"@ {
        if n == "strlen"@ {
            assert(names[0]@ == n);
        } else if n == "strcmp"@ {
            assert(names[1]@ == n);
        } else if n == "memcpy"@ {
            assert(names[2]@ == n);
        } else if n == "memmove"@ {
            assert(names[3]@ == n);
        } else {
            assert(names[4]@ == n);
        }
        assert(name_listed(n, names));
    }
    if name_listed(n, names) {
        let k = choose|k: int| 0 <= k < names.len() && #[trigger] names[k]@ == n;
        assert(0 <= k < 5);
    }
}

/// The signature of an API: modeled APIs by table, others by their
/// decoration (zero arguments when undecorated).
pub fn signature(name: &str) -> (s: ApiSignature)
    ensures
        s.modeled == (modeled_argument_count(normalize_spec(name@)) is Some),
        s.argument_count == match modeled_argument_count(normalize_spec(name@)) {
            Some(c) => c,
            None => match decorated_count_spec(name@) {
                Some(c) => c,
                None => 0,
            },
        },
        s.convention == convention_spec(normalize_spec(name@)),
{
    let normalized = normalize_name(name);
    let n = chars_of(normalized.as_str());
    let (argument_count, modeled) = match modeled_count(&n) {
        Some(c) => (c, true),
        None => match decorated_argument_count(name) {
            Some(c) => (c, false),
            None => (0, false),
        },
    };
    let prefix = chars_of("wsprintf");
    let starts = prefix.len() <= n.len() && chars_equal(&copy_chars(&n, 0, prefix.len()), &prefix);
    let cdecl_names: [&str; 5] = ["strlen", "strcmp", "memcpy", "memmove", "memset"];
    assert(cdecl_names@ =~= seq!["strlen", "strcmp", "memcpy", "memmove", "memset"]);
    let convention = if starts || listed(&n, &cdecl_names) {
        CallingConvention::Cdecl
    } else {
        CallingConvention::Stdcall
    };
    ApiSignature { argument_count, convention, modeled }
}

} // verus!
