//! A virtual Windows host: handles and their resources, a bounded file
//! system, a registry and memory written into other processes.
use vstd::prelude::*;

use crate::assoc::{assoc_insert, assoc_remove, assoc_view, find_key, lemma_assoc_update, unique_keys, lemma_assoc_lookup};
use crate::text::{chars_equal, chars_less, chars_of, decimal, lower_seq, push_decimal, push_str, seq_contains, seq_less, string_from_chars, vec_contains, to_lower_char};
use crate::network::copy_bytes;

verus! {

pub const MAX_HANDLES: usize = 4096;

/// Largest virtual file (1 MiB).
pub const MAX_FILE_BYTES: usize = 1048576;

/// Largest total of virtual file bytes (16 MiB).
pub const MAX_TOTAL_FILE_BYTES: usize = 16777216;

/// Largest region allocated in another process (4 MiB).
pub const MAX_REMOTE_REGION_BYTES: usize = 4194304;

/// Largest total of bytes allocated in other processes (16 MiB).
pub const MAX_TOTAL_REMOTE_BYTES: usize = 16777216;

/// Largest hash input kept by a hash handle (4 MiB).
pub const MAX_HASH_BYTES: usize = 4194304;

/// What a handle refers to.
#[derive(Debug)]
pub enum HandleResource {
    File { path: String, offset: usize },
    Module { name: String },
    Registry { key: String },
    Internet { label: String },
    Process { pid: u32 },
    Thread { tid: u32 },
    Heap { label: String },
    Service { name: String },
    Mutex { name: String, owned: bool },
    Event { name: String, signaled: bool, manual_reset: bool },
    Mapping { name: String, size: usize },
    Token { pid: u32 },
    Snapshot { index: usize },
    Find { entries: Vec<String>, index: usize },
    CryptoProvider,
    CryptoHash { data: Vec<u8> },
}

/// A handle's resource as plain values.
pub enum HandleView {
    File { path: Seq<char>, offset: usize },
    Module { name: Seq<char> },
    Registry { key: Seq<char> },
    Internet { label: Seq<char> },
    Process { pid: u32 },
    Thread { tid: u32 },
    Heap { label: Seq<char> },
    Service { name: Seq<char> },
    Mutex { name: Seq<char>, owned: bool },
    Event { name: Seq<char>, signaled: bool, manual_reset: bool },
    Mapping { name: Seq<char>, size: usize },
    Token { pid: u32 },
    Snapshot { index: usize },
    Find { entries: Seq<Seq<char>>, index: usize },
    CryptoProvider,
    CryptoHash { data: Seq<u8> },
}

/// The texts of a list of strings.
pub open spec fn texts(v: Seq<String>) -> Seq<Seq<char>> {
    v.map_values(|s: String| s@)
}

impl View for HandleResource {
    type V = HandleView;

    open spec fn view(&self) -> HandleView {
        match self {
            HandleResource::File { path, offset } => HandleView::File { path: path@, offset: *offset },
            HandleResource::Module { name } => HandleView::Module { name: name@ },
            HandleResource::Registry { key } => HandleView::Registry { key: key@ },
            HandleResource::Internet { label } => HandleView::Internet { label: label@ },
            HandleResource::Process { pid } => HandleView::Process { pid: *pid },
            HandleResource::Thread { tid } => HandleView::Thread { tid: *tid },
            HandleResource::Heap { label } => HandleView::Heap { label: label@ },
            HandleResource::Service { name } => HandleView::Service { name: name@ },
            HandleResource::Mutex { name, owned } => HandleView::Mutex { name: name@, owned: *owned },
            HandleResource::Event { name, signaled, manual_reset } => HandleView::Event {
                name: name@,
                signaled: *signaled,
                manual_reset: *manual_reset,
            },
            HandleResource::Mapping { name, size } => HandleView::Mapping { name: name@, size: *size },
            HandleResource::Token { pid } => HandleView::Token { pid: *pid },
            HandleResource::Snapshot { index } => HandleView::Snapshot { index: *index },
            HandleResource::Find { entries, index } => HandleView::Find { entries: texts(entries@), index: *index },
            HandleResource::CryptoProvider => HandleView::CryptoProvider,
            HandleResource::CryptoHash { data } => HandleView::CryptoHash { data: data@ },
        }
    }
}

// ----- text-keyed stores -----


pub open spec fn store_view(v: Seq<(String, Vec<u8>)>) -> Seq<(Seq<char>, Seq<u8>)> {
    v.map_values(|e: (String, Vec<u8>)| (e.0@, e.1@))
}

/// Position of `key` (-1 when absent).
pub open spec fn key_index(s: Seq<(Seq<char>, Seq<u8>)>, key: Seq<char>) -> int
    decreases s.len(),
{
    if s.len() == 0 {
        -1
    } else if s.last().0 == key {
        s.len() - 1
    } else {
        key_index(s.drop_last(), key)
    }
}

/// The contents stored under `key`.
pub open spec fn lookup(s: Seq<(Seq<char>, Seq<u8>)>, key: Seq<char>) -> Option<Seq<u8>> {
    let i = key_index(s, key);
    if i >= 0 {
        Some(s[i].1)
    } else {
        None
    }
}

/// Where a new key goes to keep the keys in text order.
pub open spec fn key_slot(s: Seq<(Seq<char>, Seq<u8>)>, key: Seq<char>) -> int
    decreases s.len(),
{
    if s.len() == 0 {
        0
    } else if seq_less(s.last().0, key) {
        s.len() as int
    } else {
        key_slot(s.drop_last(), key)
    }
}

/// `s` with `key` holding `value`.
pub open spec fn stored(s: Seq<(Seq<char>, Seq<u8>)>, key: Seq<char>, value: Seq<u8>) -> Seq<(Seq<char>, Seq<u8>)> {
    let i = key_index(s, key);
    if i >= 0 {
        s.update(i, (key, value))
    } else {
        s.insert(key_slot(s, key), (key, value))
    }
}

/// `s` without `key`.
pub open spec fn erased(s: Seq<(Seq<char>, Seq<u8>)>, key: Seq<char>) -> Seq<(Seq<char>, Seq<u8>)> {
    let i = key_index(s, key);
    if i >= 0 {
        s.remove(i)
    } else {
        s
    }
}

/// No key occurs twice.
pub open spec fn distinct_keys(s: Seq<(Seq<char>, Seq<u8>)>) -> bool {
    forall|a: int, b: int| 0 <= a < b < s.len() ==> (#[trigger] s[a]).0 != (#[trigger] s[b]).0
}

pub(crate) proof fn lemma_key_index(s: Seq<(Seq<char>, Seq<u8>)>, key: Seq<char>)
    ensures
        -1 <= key_index(s, key) < s.len(),
        key_index(s, key) >= 0 ==> s[key_index(s, key)].0 == key,
        key_index(s, key) < 0 ==> forall|j: int| 0 <= j < s.len() ==> (#[trigger] s[j]).0 != key,
    decreases s.len(),
{
    if s.len() > 0 && s.last().0 != key {
        lemma_key_index(s.drop_last(), key);
        if key_index(s, key) < 0 {
            assert forall|j: int| 0 <= j < s.len() implies (#[trigger] s[j]).0 != key by {
                if j < s.len() - 1 {
                    assert(s.drop_last()[j] == s[j]);
                }
            }
        }
    }
}

proof fn lemma_key_index_unique(s: Seq<(Seq<char>, Seq<u8>)>, key: Seq<char>, k: int)
    requires
        distinct_keys(s),
        0 <= k < s.len(),
        s[k].0 == key,
    ensures
        key_index(s, key) == k,
    decreases s.len(),
{
    if k < s.len() - 1 {
        assert(s.last().0 != key);
        lemma_key_index_unique(s.drop_last(), key, k);
    }
}

proof fn lemma_key_slot(s: Seq<(Seq<char>, Seq<u8>)>, key: Seq<char>)
    ensures
        0 <= key_slot(s, key) <= s.len(),
    decreases s.len(),
{
    if s.len() > 0 && !seq_less(s.last().0, key) {
        lemma_key_slot(s.drop_last(), key);
    }
}

pub(crate) proof fn lemma_stored_distinct(s: Seq<(Seq<char>, Seq<u8>)>, key: Seq<char>, value: Seq<u8>)
    requires
        distinct_keys(s),
    ensures
        distinct_keys(stored(s, key, value)),
        lookup(stored(s, key, value), key) == Some(value),
        forall|k: Seq<char>| k != key ==> #[trigger] lookup(stored(s, key, value), k) == lookup(s, k),
{
    lemma_key_index(s, key);
    lemma_key_slot(s, key);
    let r = stored(s, key, value);
    let i = key_index(s, key);
    if i >= 0 {
        assert forall|a: int, b: int| 0 <= a < b < r.len() implies (#[trigger] r[a]).0 != (#[trigger] r[b]).0 by {
            assert(s[a].0 != s[b].0);
        }
    } else {
        let p = key_slot(s, key);
        assert forall|a: int, b: int| 0 <= a < b < r.len() implies (#[trigger] r[a]).0 != (#[trigger] r[b]).0 by {
            let a2 = if a < p { a } else { a - 1 };
            let b2 = if b < p { b } else { b - 1 };
            if a != p && b != p {
                assert(s[a2].0 != s[b2].0);
            }
        }
    }
    let pos = if i >= 0 { i } else { key_slot(s, key) };
    assert(r[pos].0 == key);
    lemma_key_index_unique(r, key, pos);
    assert forall|k: Seq<char>| k != key implies #[trigger] lookup(r, k) == lookup(s, k) by {
        lemma_key_index(s, k);
        lemma_key_index(r, k);
        let j = key_index(s, k);
        if j >= 0 {
            let j2 = if i >= 0 || j < key_slot(s, key) { j } else { j + 1 };
            assert(r[j2] == s[j]);
            lemma_key_index_unique(r, k, j2);
        } else {
            let jr = key_index(r, k);
            if jr >= 0 {
                let js = if i >= 0 || jr < key_slot(s, key) { jr } else { jr - 1 };
                assert(r[jr] == s[js]);
            }
        }
    }
}

proof fn lemma_erased_distinct(s: Seq<(Seq<char>, Seq<u8>)>, key: Seq<char>)
    requires
        distinct_keys(s),
    ensures
        distinct_keys(erased(s, key)),
        lookup(erased(s, key), key) is None,
        forall|k: Seq<char>| k != key ==> #[trigger] lookup(erased(s, key), k) == lookup(s, k),
{
    lemma_key_index(s, key);
    let r = erased(s, key);
    let i = key_index(s, key);
    if i >= 0 {
        assert forall|a: int, b: int| 0 <= a < b < r.len() implies (#[trigger] r[a]).0 != (#[trigger] r[b]).0 by {
            let a2 = if a < i { a } else { a + 1 };
            let b2 = if b < i { b } else { b + 1 };
            assert(s[a2].0 != s[b2].0);
        }
        lemma_key_index(r, key);
        if key_index(r, key) >= 0 {
            let jr = key_index(r, key);
            let js = if jr < i { jr } else { jr + 1 };
            assert(r[jr] == s[js]);
            assert(s[js].0 != s[i].0);
        }
    }
    assert forall|k: Seq<char>| k != key implies #[trigger] lookup(r, k) == lookup(s, k) by {
        lemma_key_index(s, k);
        lemma_key_index(r, k);
        if i >= 0 {
            let j = key_index(s, k);
            if j >= 0 {
                assert(j != i);
                let j2 = if j < i { j } else { j - 1 };
                assert(r[j2] == s[j]);
                lemma_key_index_unique(r, k, j2);
            } else {
                let jr = key_index(r, k);
                if jr >= 0 {
                    let js = if jr < i { jr } else { jr + 1 };
                    assert(r[jr] == s[js]);
                }
            }
        }
    }
}

/// The position of `key` in a store.
pub(crate) fn find_entry(v: &Vec<(String, Vec<u8>)>, key: &Vec<char>) -> (r: Option<usize>)
    ensures
        match r {
            Some(i) => i as int == key_index(store_view(v@), key@) && i < v@.len(),
            None => key_index(store_view(v@), key@) == -1,
        },
{
    let ghost s = store_view(v@);
    let mut j: usize = v.len();
    assert(s.subrange(0, s.len() as int) =~= s);
    while j > 0
        invariant
            j <= v@.len(),
            s == store_view(v@),
            key_index(s, key@) == key_index(s.subrange(0, j as int), key@),
        decreases j,
    {
        let pre = Ghost(s.subrange(0, j as int));
        assert(pre@.drop_last() =~= s.subrange(0, j - 1));
        let name = chars_of(v[j - 1].0.as_str());
        assert(pre@.last().0 == name@);
        if chars_equal(&name, key) {
            return Some(j - 1);
        }
        j = j - 1;
    }
    None
}

/// Stores `value` under `key`.
pub(crate) fn store_entry(v: &mut Vec<(String, Vec<u8>)>, key: String, value: Vec<u8>)
    ensures
        store_view(final(v)@) == stored(store_view(old(v)@), key@, value@),
{
    let ghost s = store_view(v@);
    let k = chars_of(key.as_str());
    proof {
        lemma_key_index(s, key@);
        lemma_key_slot(s, key@);
    }
    match find_entry(v, &k) {
        Some(i) => {
            v.set(i, (key, value));
            assert(store_view(v@) =~= s.update(i as int, (k@, value@)));
        },
        None => {
            let mut j: usize = v.len();
            assert(s.subrange(0, s.len() as int) =~= s);
            while j > 0
                invariant
                    j <= v@.len(),
                    s == store_view(v@),
                    key_slot(s, k@) == key_slot(s.subrange(0, j as int), k@),
                ensures
                    j <= v@.len(),
                    key_slot(s, k@) == key_slot(s.subrange(0, j as int), k@),
                    j == 0 || seq_less(s[j - 1].0, k@),
                decreases j,
            {
                let pre = Ghost(s.subrange(0, j as int));
                assert(pre@.drop_last() =~= s.subrange(0, j - 1));
                let name = chars_of(v[j - 1].0.as_str());
                assert(pre@.last().0 == name@);
                if chars_less(&name, &k) {
                    break;
                }
                j = j - 1;
            }
            proof {
                if j == 0 {
                    assert(s.subrange(0, 0) =~= Seq::<(Seq<char>, Seq<u8>)>::empty());
                }
            }
            let ghost entry = (key@, value@);
            v.insert(j, (key, value));
            assert(store_view(v@) =~= s.insert(j as int, entry));
        },
    }
}

/// Removes `key`, giving back its contents.
fn erase_entry(v: &mut Vec<(String, Vec<u8>)>, key: &Vec<char>) -> (r: Option<Vec<u8>>)
    ensures
        store_view(final(v)@) == erased(store_view(old(v)@), key@),
        match r {
            Some(d) => lookup(store_view(old(v)@), key@) == Some(d@),
            None => lookup(store_view(old(v)@), key@) is None,
        },
{
    let ghost s = store_view(v@);
    match find_entry(v, key) {
        Some(i) => {
            let (_, data) = v.remove(i);
            assert(store_view(v@) =~= s.remove(i as int));
            Some(data)
        },
        None => None,
    }
}

// ----- memory written into other processes -----

pub open spec fn remote_view(v: Seq<((u32, u32), Vec<u8>)>) -> Seq<((u32, u32), Seq<u8>)> {
    v.map_values(|e: ((u32, u32), Vec<u8>)| (e.0, e.1@))
}

/// Key order of remote regions: by process handle, then by address.
pub open spec fn key_before(a: (u32, u32), b: (u32, u32)) -> bool {
    a.0 < b.0 || (a.0 == b.0 && a.1 < b.1)
}

/// `[start, start + len)` as the emulator computes it: the end is held at `u32::MAX`.
pub open spec fn sat_end(start: u32, len: int) -> int {
    if start + len > u32::MAX { u32::MAX as int } else { start + len }
}

/// Region `e` of process `process` holds `[address, address + len)`
/// (the length cut to 32 bits).
pub open spec fn remote_holds(e: ((u32, u32), Seq<u8>), process: u32, address: u32, len: nat) -> bool {
    &&& e.0.0 == process
    &&& address >= e.0.1
    &&& sat_end(address, (len % 0x1_0000_0000) as int) <= sat_end(e.0.1, e.1.len() as int)
}

/// Region `e` of process `process` meets `[address, address + size)`.
pub open spec fn remote_meets(e: ((u32, u32), Seq<u8>), process: u32, address: u32, size: nat) -> bool {
    &&& e.0.0 == process
    &&& address < sat_end(e.0.1, e.1.len() as int)
    &&& sat_end(address, (size % 0x1_0000_0000) as int) > e.0.1
}

/// Where a region with key `k` goes to keep keys in order.
pub open spec fn remote_slot(s: Seq<((u32, u32), Seq<u8>)>, k: (u32, u32)) -> int
    decreases s.len(),
{
    if s.len() == 0 {
        0
    } else if key_before(s.last().0, k) {
        s.len() as int
    } else {
        remote_slot(s.drop_last(), k)
    }
}

/// Position of the region with key `k` (-1 when absent).
pub open spec fn remote_index(s: Seq<((u32, u32), Seq<u8>)>, k: (u32, u32)) -> int
    decreases s.len(),
{
    if s.len() == 0 {
        -1
    } else if s.last().0 == k {
        s.len() - 1
    } else {
        remote_index(s.drop_last(), k)
    }
}

/// `s` with the region keyed `k` holding `v` (replaced when present, else
/// inserted in key order).
pub open spec fn remote_stored(s: Seq<((u32, u32), Seq<u8>)>, k: (u32, u32), v: Seq<u8>) -> Seq<((u32, u32), Seq<u8>)> {
    let i = remote_index(s, k);
    if i >= 0 {
        s.update(i, (k, v))
    } else {
        s.insert(remote_slot(s, k), (k, v))
    }
}

/// The first region of `process` that holds the span, if any.
pub open spec fn first_holding(s: Seq<((u32, u32), Seq<u8>)>, process: u32, address: u32, len: nat) -> Option<int> {
    if exists|i: int| 0 <= i < s.len() && remote_holds(#[trigger] s[i], process, address, len) {
        Some(choose|i: int| 0 <= i < s.len() && remote_holds(#[trigger] s[i], process, address, len)
            && forall|j: int| 0 <= j < i ==> !remote_holds(#[trigger] s[j], process, address, len))
    } else {
        None
    }
}

/// A virtual Windows host.
pub struct VirtualWindows {
    next_handle: u32,
    handles: Vec<(u32, HandleResource)>,
    last_error: u32,
    files: Vec<(String, Vec<u8>)>,
    total_file_bytes: usize,
    registry: Vec<(String, Vec<u8>)>,
    remote_memory: Vec<((u32, u32), Vec<u8>)>,
    total_remote_bytes: usize,
}

/// The process list that snapshot handles walk.
pub open spec fn process_entry(index: int) -> Option<(u32, Seq<char>)> {
    if index == 0 {
        Some((4, "System"@))
    } else if index == 1 {
        Some((1200, "explorer.exe"@))
    } else if index == 2 {
        Some((1337, "sample.exe"@))
    } else {
        None
    }
}

/// The text that describes a handle.
pub open spec fn describe_spec(h: HandleView) -> Seq<char> {
    match h {
        HandleView::File { path, .. } => path,
        HandleView::Module { name } => name,
        HandleView::Registry { key } => key,
        HandleView::Internet { label } => label,
        HandleView::Process { pid } => "process:"@ + decimal(pid as nat),
        HandleView::Thread { tid } => "thread:"@ + decimal(tid as nat),
        HandleView::Heap { label } => label,
        HandleView::Service { name } => name,
        HandleView::Mutex { name, .. } => "mutex:"@ + name,
        HandleView::Event { name, .. } => "event:"@ + name,
        HandleView::Mapping { name, .. } => "mapping:"@ + name,
        HandleView::Token { pid } => "token:"@ + decimal(pid as nat),
        HandleView::Snapshot { .. } => "process snapshot"@,
        HandleView::Find { .. } => "file enumeration"@,
        HandleView::CryptoProvider => "crypto provider"@,
        HandleView::CryptoHash { .. } => "crypto hash"@,
    }
}

/// The registry key of a value: `key\name`.
pub open spec fn value_key(key: Seq<char>, name: Seq<char>) -> Seq<char> {
    key + "\\"@ + name
}

/// `a - b`, held at zero.
pub open spec fn sat_sub(a: int, b: int) -> int {
    if a > b { a - b } else { 0 }
}

/// `a + b`, held at `usize::MAX`.
pub open spec fn sat_add_usize(a: int, b: int) -> int {
    if a + b > usize::MAX { usize::MAX as int } else { a + b }
}

impl Default for VirtualWindows {
    fn default() -> (w: VirtualWindows)
        ensures
            w.wf(),
            w.next_handle_view() == 0x100,
            w.handles_view() == Map::<u32, HandleView>::empty(),
            w.last_error_view() == 0,
            w.files_view() == Seq::<(Seq<char>, Seq<u8>)>::empty(),
            w.total_file_bytes_view() == 0,
            w.registry_view() == Seq::<(Seq<char>, Seq<u8>)>::empty(),
            w.remote_memory_view() == Seq::<((u32, u32), Seq<u8>)>::empty(),
            w.total_remote_bytes_view() == 0,
    {
        let w = VirtualWindows {
            next_handle: 0x100,
            handles: Vec::new(),
            last_error: 0,
            files: Vec::new(),
            total_file_bytes: 0,
            registry: Vec::new(),
            remote_memory: Vec::new(),
            total_remote_bytes: 0,
        };
        assert(store_view(w.files@) =~= Seq::<(Seq<char>, Seq<u8>)>::empty());
        assert(store_view(w.registry@) =~= Seq::<(Seq<char>, Seq<u8>)>::empty());
        assert(remote_view(w.remote_memory@) =~= Seq::<((u32, u32), Seq<u8>)>::empty());
        w
    }
}

impl VirtualWindows {
    pub closed spec fn next_handle_view(&self) -> u32 {
        self.next_handle
    }

    pub closed spec fn handles_view(&self) -> Map<u32, HandleView> {
        assoc_view(self.handles@)
    }

    pub closed spec fn last_error_view(&self) -> u32 {
        self.last_error
    }

    /// The virtual files, in path order.
    pub closed spec fn files_view(&self) -> Seq<(Seq<char>, Seq<u8>)> {
        store_view(self.files@)
    }

    pub closed spec fn total_file_bytes_view(&self) -> usize {
        self.total_file_bytes
    }

    pub closed spec fn registry_view(&self) -> Seq<(Seq<char>, Seq<u8>)> {
        store_view(self.registry@)
    }

    /// Regions written into other processes, by process and address.
    pub closed spec fn remote_memory_view(&self) -> Seq<((u32, u32), Seq<u8>)> {
        remote_view(self.remote_memory@)
    }

    pub closed spec fn total_remote_bytes_view(&self) -> usize {
        self.total_remote_bytes
    }

    /// Handles are distinct, files and registry values have distinct keys,
    /// and remote regions are in strict key order.
    pub closed spec fn wf(&self) -> bool {
        &&& unique_keys(self.handles@)
        &&& distinct_keys(store_view(self.files@))
        &&& distinct_keys(store_view(self.registry@))
        &&& forall|a: int, b: int| 0 <= a < b < self.remote_memory@.len() ==> key_before(
            (#[trigger] self.remote_memory@[a]).0,
            (#[trigger] self.remote_memory@[b]).0,
        )
    }

    /// Every other part of the host is as in `o`.
    pub open spec fn same_except_handles(&self, o: &VirtualWindows) -> bool {
        &&& self.files_view() == o.files_view()
        &&& self.total_file_bytes_view() == o.total_file_bytes_view()
        &&& self.registry_view() == o.registry_view()
        &&& self.remote_memory_view() == o.remote_memory_view()
        &&& self.total_remote_bytes_view() == o.total_remote_bytes_view()
    }

    /// Opens a handle to `resource`; fails with error 4 once the handle table is full.
    pub fn allocate(&mut self, resource: HandleResource) -> (r: Option<u32>)
        requires
            old(self).wf(),
        ensures
            final(self).wf(),
            final(self).same_except_handles(old(self)),
            old(self).handles_view().len() >= MAX_HANDLES ==> r is None && final(self).last_error_view() == 4
                && final(self).handles_view() == old(self).handles_view() && final(self).next_handle_view() == old(self).next_handle_view(),
            old(self).handles_view().len() < MAX_HANDLES ==> r == Some(old(self).next_handle_view())
                && final(self).handles_view() == old(self).handles_view().insert(old(self).next_handle_view(), resource@)
                && final(self).next_handle_view() == (if old(self).next_handle_view() == u32::MAX { u32::MAX } else { (old(self).next_handle_view() + 1) as u32 })
                && final(self).last_error_view() == old(self).last_error_view(),
    {
        proof {
            lemma_assoc_len(self.handles@);
        }
        if self.handles.len() >= MAX_HANDLES {
            self.last_error = 4;
            return None;
        }
        let handle = self.next_handle;
        self.next_handle = self.next_handle.saturating_add(1);
        assoc_insert(&mut self.handles, handle, resource);
        Some(handle)
    }

    /// Closes a handle: error 0 when it was open, 6 otherwise.
    pub fn close(&mut self, handle: u32) -> (closed: bool)
        requires
            old(self).wf(),
        ensures
            final(self).wf(),
            final(self).same_except_handles(old(self)),
            closed == old(self).handles_view().contains_key(handle),
            final(self).handles_view() == old(self).handles_view().remove(handle),
            final(self).last_error_view() == if closed { 0u32 } else { 6u32 },
            final(self).next_handle_view() == old(self).next_handle_view(),
    {
        let closed = assoc_remove(&mut self.handles, handle).is_some();
        self.last_error = if closed { 0 } else { 6 };
        closed
    }

    /// The resource of an open handle.
    pub open spec fn resource(&self, handle: u32) -> Option<HandleView> {
        if self.handles_view().contains_key(handle) {
            Some(self.handles_view()[handle])
        } else {
            None
        }
    }

    pub fn file_path(&self, handle: u32) -> (r: Option<&str>)
        requires
            self.wf(),
        ensures
            match self.resource(handle) {
                Some(HandleView::File { path, .. }) => r matches Some(p) && p@ == path,
                _ => r is None,
            },
    {
        match find_key(&self.handles, handle) {
            Some(k) => match &self.handles[k].1 {
                HandleResource::File { path, .. } => Some(path.as_str()),
                _ => None,
            },
            None => None,
        }
    }

    pub fn module_name(&self, handle: u32) -> (r: Option<&str>)
        requires
            self.wf(),
        ensures
            match self.resource(handle) {
                Some(HandleView::Module { name }) => r matches Some(p) && p@ == name,
                _ => r is None,
            },
    {
        match find_key(&self.handles, handle) {
            Some(k) => match &self.handles[k].1 {
                HandleResource::Module { name } => Some(name.as_str()),
                _ => None,
            },
            None => None,
        }
    }

    pub fn registry_path(&self, handle: u32) -> (r: Option<&str>)
        requires
            self.wf(),
        ensures
            match self.resource(handle) {
                Some(HandleView::Registry { key }) => r matches Some(p) && p@ == key,
                _ => r is None,
            },
    {
        match find_key(&self.handles, handle) {
            Some(k) => match &self.handles[k].1 {
                HandleResource::Registry { key } => Some(key.as_str()),
                _ => None,
            },
            None => None,
        }
    }

    /// A short description of what a handle refers to.
    pub fn describe(&self, handle: u32) -> (r: Option<String>)
        requires
            self.wf(),
        ensures
            match self.resource(handle) {
                Some(h) => r matches Some(s) && s@ == describe_spec(h),
                None => r is None,
            },
    {
        let k = match find_key(&self.handles, handle) {
            Some(k) => k,
            None => {
                return None;
            },
        };
        let mut s = String::new();
        match &self.handles[k].1 {
            HandleResource::File { path, .. } => push_str(&mut s, path.as_str()),
            HandleResource::Module { name } => push_str(&mut s, name.as_str()),
            HandleResource::Registry { key } => push_str(&mut s, key.as_str()),
            HandleResource::Internet { label } => push_str(&mut s, label.as_str()),
            HandleResource::Process { pid } => {
                push_str(&mut s, "process:");
                push_decimal(&mut s, *pid as u64);
            },
            HandleResource::Thread { tid } => {
                push_str(&mut s, "thread:");
                push_decimal(&mut s, *tid as u64);
            },
            HandleResource::Heap { label } => push_str(&mut s, label.as_str()),
            HandleResource::Service { name } => push_str(&mut s, name.as_str()),
            HandleResource::Mutex { name, .. } => {
                push_str(&mut s, "mutex:");
                push_str(&mut s, name.as_str());
            },
            HandleResource::Event { name, .. } => {
                push_str(&mut s, "event:");
                push_str(&mut s, name.as_str());
            },
            HandleResource::Mapping { name, .. } => {
                push_str(&mut s, "mapping:");
                push_str(&mut s, name.as_str());
            },
            HandleResource::Token { pid } => {
                push_str(&mut s, "token:");
                push_decimal(&mut s, *pid as u64);
            },
            HandleResource::Snapshot { .. } => push_str(&mut s, "process snapshot"),
            HandleResource::Find { .. } => push_str(&mut s, "file enumeration"),
            HandleResource::CryptoProvider => push_str(&mut s, "crypto provider"),
            HandleResource::CryptoHash { .. } => push_str(&mut s, "crypto hash"),
        }
        Some(s)
    }

    pub fn last_error(&self) -> (e: u32)
        ensures
            e == self.last_error_view(),
    {
        self.last_error
    }

    pub fn set_last_error(&mut self, value: u32)
        ensures
            final(self).last_error_view() == value,
            final(self).handles_view() == old(self).handles_view(),
            final(self).next_handle_view() == old(self).next_handle_view(),
            final(self).same_except_handles(old(self)),
            final(self).wf() == old(self).wf(),
    {
        self.last_error = value;
    }

    pub fn mapping_size(&self, handle: u32) -> (r: Option<usize>)
        requires
            self.wf(),
        ensures
            match self.resource(handle) {
                Some(HandleView::Mapping { size, .. }) => r == Some(size),
                _ => r is None,
            },
    {
        match find_key(&self.handles, handle) {
            Some(k) => match &self.handles[k].1 {
                HandleResource::Mapping { size, .. } => Some(*size),
                _ => None,
            },
            None => None,
        }
    }

    pub fn hash_bytes(&self, handle: u32) -> (r: Option<&[u8]>)
        requires
            self.wf(),
        ensures
            match self.resource(handle) {
                Some(HandleView::CryptoHash { data }) => r matches Some(b) && b@ == data,
                _ => r is None,
            },
    {
        match find_key(&self.handles, handle) {
            Some(k) => match &self.handles[k].1 {
                HandleResource::CryptoHash { data } => Some(data.as_slice()),
                _ => None,
            },
            None => None,
        }
    }

    pub fn open_process(&mut self, pid: u32) -> (r: Option<u32>)
        requires
            old(self).wf(),
        ensures
            final(self).wf(),
            final(self).same_except_handles(old(self)),
            old(self).handles_view().len() >= MAX_HANDLES ==> r is None && final(self).last_error_view() == 4
                && final(self).handles_view() == old(self).handles_view(),
            old(self).handles_view().len() < MAX_HANDLES ==> r == Some(old(self).next_handle_view())
                && final(self).handles_view() == old(self).handles_view().insert(old(self).next_handle_view(), HandleView::Process { pid }),
    {
        self.allocate(HandleResource::Process { pid })
    }
}

/// The handle table's map has one entry per pair.
proof fn lemma_assoc_len<T: View>(pairs: Seq<(u32, T)>)
    requires
        unique_keys(pairs),
    ensures
        assoc_view(pairs).len() == pairs.len(),
        assoc_view(pairs).dom().finite(),
    decreases pairs.len(),
{
    if pairs.len() > 0 {
        let rest = pairs.drop_last();
        assert(unique_keys(rest)) by {
            assert forall|a: int, b: int| 0 <= a < b < rest.len() implies (#[trigger] rest[a]).0 != (#[trigger] rest[b]).0 by {
                assert(pairs[a].0 != pairs[b].0);
            }
        }
        lemma_assoc_len(rest);
        assert forall|j: int| 0 <= j < rest.len() implies (#[trigger] rest[j]).0 != pairs.last().0 by {
            assert(pairs[j].0 != pairs[pairs.len() - 1].0);
        }
        crate::assoc::lemma_assoc_absent(rest, pairs.last().0);
    }
}


impl VirtualWindows {
    /// Rewrites the resource at slot `k` of the handle table.
    proof fn lemma_rewrite(&self, before: Seq<(u32, HandleResource)>, k: int)
        requires
            unique_keys(before),
            0 <= k < before.len(),
            self.handles@.len() == before.len(),
            self.handles@[k].0 == before[k].0,
            forall|j: int| 0 <= j < before.len() && j != k ==> self.handles@[j] == before[j],
        ensures
            unique_keys(self.handles@),
            assoc_view(self.handles@) == assoc_view(before).insert(before[k].0, self.handles@[k].1@),
    {
        lemma_assoc_update(before, k, self.handles@[k].1);
        assert(self.handles@ =~= before.update(k, (before[k].0, self.handles@[k].1)));
    }

    /// Sets the signal state of an event handle.
    pub fn signal_event(&mut self, handle: u32, signaled: bool) -> (r: bool)
        requires
            old(self).wf(),
        ensures
            final(self).wf(),
            final(self).same_except_handles(old(self)),
            final(self).last_error_view() == old(self).last_error_view(),
            final(self).next_handle_view() == old(self).next_handle_view(),
            match old(self).resource(handle) {
                Some(HandleView::Event { name, manual_reset, .. }) => r && final(self).handles_view() == old(self).handles_view().insert(
                    handle,
                    HandleView::Event { name, signaled, manual_reset },
                ),
                _ => !r && final(self).handles_view() == old(self).handles_view(),
            },
    {
        let k = match find_key(&self.handles, handle) {
            Some(k) => k,
            None => {
                return false;
            },
        };
        let ghost before = self.handles@;
        let done = match &mut self.handles[k].1 {
            HandleResource::Event { signaled: value, .. } => {
                *value = signaled;
                true
            },
            _ => false,
        };
        proof {
            self.lemma_rewrite(before, k as int);
        }
        done
    }

    /// Releases a mutex handle.
    pub fn release_mutex(&mut self, handle: u32) -> (r: bool)
        requires
            old(self).wf(),
        ensures
            final(self).wf(),
            final(self).same_except_handles(old(self)),
            final(self).last_error_view() == old(self).last_error_view(),
            final(self).next_handle_view() == old(self).next_handle_view(),
            match old(self).resource(handle) {
                Some(HandleView::Mutex { name, .. }) => r && final(self).handles_view() == old(self).handles_view().insert(
                    handle,
                    HandleView::Mutex { name, owned: false },
                ),
                _ => !r && final(self).handles_view() == old(self).handles_view(),
            },
    {
        let k = match find_key(&self.handles, handle) {
            Some(k) => k,
            None => {
                return false;
            },
        };
        let ghost before = self.handles@;
        let done = match &mut self.handles[k].1 {
            HandleResource::Mutex { owned, .. } => {
                *owned = false;
                true
            },
            _ => false,
        };
        proof {
            self.lemma_rewrite(before, k as int);
        }
        done
    }

    /// Waits on a handle: a signaled event is ready (and reset unless manual
    /// reset); an unowned mutex is ready and becomes owned; threads and
    /// processes are always ready; other handles cannot be waited on.
    pub fn wait(&mut self, handle: u32) -> (r: Option<bool>)
        requires
            old(self).wf(),
        ensures
            final(self).wf(),
            final(self).same_except_handles(old(self)),
            final(self).last_error_view() == old(self).last_error_view(),
            final(self).next_handle_view() == old(self).next_handle_view(),
            match old(self).resource(handle) {
                Some(HandleView::Event { name, signaled, manual_reset }) => r == Some(signaled)
                    && final(self).handles_view() == old(self).handles_view().insert(
                    handle,
                    HandleView::Event { name, signaled: signaled && manual_reset, manual_reset },
                ),
                Some(HandleView::Mutex { name, owned }) => r == Some(!owned) && final(self).handles_view()
                    == old(self).handles_view().insert(handle, HandleView::Mutex { name, owned: true }),
                Some(HandleView::Thread { .. }) => r == Some(true) && final(self).handles_view() == old(self).handles_view(),
                Some(HandleView::Process { .. }) => r == Some(true) && final(self).handles_view() == old(self).handles_view(),
                _ => r is None && final(self).handles_view() == old(self).handles_view(),
            },
    {
        let k = match find_key(&self.handles, handle) {
            Some(k) => k,
            None => {
                return None;
            },
        };
        let ghost before = self.handles@;
        let r = match &mut self.handles[k].1 {
            HandleResource::Event { signaled, manual_reset, .. } => {
                let ready = *signaled;
                if ready && !*manual_reset {
                    *signaled = false;
                }
                Some(ready)
            },
            HandleResource::Mutex { owned, .. } => {
                let ready = !*owned;
                if ready {
                    *owned = true;
                }
                Some(ready)
            },
            HandleResource::Thread { .. } | HandleResource::Process { .. } => Some(true),
            _ => None,
        };
        proof {
            self.lemma_rewrite(before, k as int);
            if !(before[k as int].1 is Event || before[k as int].1 is Mutex) {
                assert(assoc_view(before).insert(before[k as int].0, before[k as int].1@) =~= assoc_view(before));
            }
        }
        r
    }

    /// The next entry of a file enumeration.
    pub fn next_file_find(&mut self, handle: u32) -> (r: Option<String>)
        requires
            old(self).wf(),
        ensures
            final(self).wf(),
            final(self).same_except_handles(old(self)),
            final(self).last_error_view() == old(self).last_error_view(),
            final(self).next_handle_view() == old(self).next_handle_view(),
            match old(self).resource(handle) {
                Some(HandleView::Find { entries, index }) => if index < entries.len() {
                    &&& r matches Some(s) && s@ == entries[index as int]
                    &&& final(self).handles_view() == old(self).handles_view().insert(
                        handle,
                        HandleView::Find { entries, index: (index + 1) as usize },
                    )
                } else {
                    r is None && final(self).handles_view() == old(self).handles_view()
                },
                _ => r is None && final(self).handles_view() == old(self).handles_view(),
            },
    {
        let k = match find_key(&self.handles, handle) {
            Some(k) => k,
            None => {
                return None;
            },
        };
        let ghost before = self.handles@;
        let r = match &mut self.handles[k].1 {
            HandleResource::Find { entries, index } => {
                if *index < entries.len() {
                    let value = entries[*index].clone();
                    *index = *index + 1;
                    Some(value)
                } else {
                    None
                }
            },
            _ => None,
        };
        proof {
            self.lemma_rewrite(before, k as int);
            if r is None {
                assert(assoc_view(before).insert(before[k as int].0, before[k as int].1@) =~= assoc_view(before));
            }
        }
        r
    }

    /// The next entry of a process snapshot (restarting first when `reset`).
    pub fn next_process(&mut self, handle: u32, reset: bool) -> (r: Option<(u32, &'static str)>)
        requires
            old(self).wf(),
        ensures
            final(self).wf(),
            final(self).same_except_handles(old(self)),
            final(self).last_error_view() == old(self).last_error_view(),
            final(self).next_handle_view() == old(self).next_handle_view(),
            match old(self).resource(handle) {
                Some(HandleView::Snapshot { index }) => {
                    let start = if reset { 0usize } else { index };
                    match process_entry(start as int) {
                        Some(e) => r matches Some(p) && p.0 == e.0 && p.1@ == e.1 && final(self).handles_view() == old(self).handles_view().insert(
                            handle,
                            HandleView::Snapshot { index: (start + 1) as usize },
                        ),
                        None => r is None && final(self).handles_view() == old(self).handles_view().insert(
                            handle,
                            HandleView::Snapshot { index: start },
                        ),
                    }
                },
                _ => r is None && final(self).handles_view() == old(self).handles_view(),
            },
    {
        let k = match find_key(&self.handles, handle) {
            Some(k) => k,
            None => {
                return None;
            },
        };
        let ghost before = self.handles@;
        let r = match &mut self.handles[k].1 {
            HandleResource::Snapshot { index } => {
                if reset {
                    *index = 0;
                }
                let value = if *index == 0 {
                    Some((4u32, "System"))
                } else if *index == 1 {
                    Some((1200u32, "explorer.exe"))
                } else if *index == 2 {
                    Some((1337u32, "sample.exe"))
                } else {
                    None
                };
                if value.is_some() {
                    *index = *index + 1;
                }
                value
            },
            _ => None,
        };
        proof {
            self.lemma_rewrite(before, k as int);
            if !(before[k as int].1 is Snapshot) {
                assert(assoc_view(before).insert(before[k as int].0, before[k as int].1@) =~= assoc_view(before));
            }
        }
        r
    }

    /// Appends to a hash handle's input while it stays within 4 MiB.
    pub fn hash_update(&mut self, handle: u32, bytes: &[u8]) -> (r: bool)
        requires
            old(self).wf(),
        ensures
            final(self).wf(),
            final(self).same_except_handles(old(self)),
            final(self).last_error_view() == old(self).last_error_view(),
            final(self).next_handle_view() == old(self).next_handle_view(),
            match old(self).resource(handle) {
                Some(HandleView::CryptoHash { data }) => if sat_add_usize(data.len() as int, bytes@.len() as int) <= MAX_HASH_BYTES {
                    r && final(self).handles_view() == old(self).handles_view().insert(handle, HandleView::CryptoHash { data: data + bytes@ })
                } else {
                    !r && final(self).handles_view() == old(self).handles_view()
                },
                _ => !r && final(self).handles_view() == old(self).handles_view(),
            },
    {
        let k = match find_key(&self.handles, handle) {
            Some(k) => k,
            None => {
                return false;
            },
        };
        let ghost before = self.handles@;
        let r = match &mut self.handles[k].1 {
            HandleResource::CryptoHash { data } => {
                if data.len().saturating_add(bytes.len()) <= MAX_HASH_BYTES {
                    let mut i: usize = 0;
                    let ghost start = data@;
                    while i < bytes.len()
                        invariant
                            i <= bytes@.len(),
                            data@ == start + bytes@.subrange(0, i as int),
                        decreases bytes@.len() - i,
                    {
                        data.push(bytes[i]);
                        i = i + 1;
                        assert(data@ =~= start + bytes@.subrange(0, i as int));
                    }
                    assert(bytes@.subrange(0, i as int) =~= bytes@);
                    true
                } else {
                    false
                }
            },
            _ => false,
        };
        proof {
            self.lemma_rewrite(before, k as int);
            if !r {
                assert(assoc_view(before).insert(before[k as int].0, before[k as int].1@) =~= assoc_view(before));
            }
        }
        r
    }
}


/// `s` without leading and trailing `*`.
pub open spec fn trim_stars(s: Seq<char>) -> Seq<char>
    decreases s.len(),
{
    if s.len() > 0 && s[0] == '*' {
        trim_stars(s.subrange(1, s.len() as int))
    } else if s.len() > 0 && s.last() == '*' {
        trim_stars(s.drop_last())
    } else {
        s
    }
}

/// The paths a file search for `needle` lists, in store order: all of them
/// for an empty needle, else those that contain it ignoring ASCII case.
pub open spec fn matching_paths(files: Seq<(Seq<char>, Seq<u8>)>, needle: Seq<char>) -> Seq<Seq<char>>
    decreases files.len(),
{
    if files.len() == 0 {
        Seq::empty()
    } else {
        let p = matching_paths(files.drop_last(), needle);
        if needle.len() == 0 || seq_contains(lower_seq(files.last().0), needle) {
            p.push(files.last().0)
        } else {
            p
        }
    }
}

/// The file after a write of `length` bytes of `data` at `offset`: zero
/// filled up to the offset, then overwritten (and grown) by the bytes.
pub open spec fn written_file(file: Seq<u8>, offset: int, data: Seq<u8>, length: int) -> Seq<u8> {
    let grown = if offset > file.len() { file + Seq::new((offset - file.len()) as nat, |i: int| 0u8) } else { file };
    let end = offset + length;
    let tail = if end < grown.len() { grown.subrange(end, grown.len() as int) } else { Seq::empty() };
    grown.subrange(0, offset) + data.subrange(0, length) + tail
}

/// The bytes a write of `data` at `offset` may store given the total used so far.
pub open spec fn write_length(data_len: int, offset: int, total: int) -> int {
    let a = sat_sub(MAX_FILE_BYTES as int, offset);
    let b = sat_sub(MAX_TOTAL_FILE_BYTES as int, total);
    let m = if data_len < a { data_len } else { a };
    if m < b { m } else { b }
}

fn text_of(s: &str) -> (r: String)
    ensures
        r@ == s@,
{
    s.to_owned()
}

/// Zero-fills `file` up to `len` bytes (no change when already that long).
pub(crate) fn grow(file: &mut Vec<u8>, len: usize)
    ensures
        final(file)@ == if len > old(file)@.len() { old(file)@ + Seq::new((len - old(file)@.len()) as nat, |i: int| 0u8) } else { old(file)@ },
{
    let ghost start = file@;
    while file.len() < len
        invariant
            start.len() <= file@.len(),
            file@.len() <= if len > start.len() { len as int } else { start.len() as int },
            file@ == start + Seq::new((file@.len() - start.len()) as nat, |i: int| 0u8),
        decreases len - file@.len(),
    {
        file.push(0);
        assert(file@ =~= start + Seq::new((file@.len() - start.len()) as nat, |i: int| 0u8));
    }
    proof {
        if len <= start.len() {
            assert(file@ =~= start);
        }
    }
}

impl VirtualWindows {
    /// The contents of a stored file.
    pub open spec fn file(&self, path: Seq<char>) -> Option<Seq<u8>> {
        lookup(self.files_view(), path)
    }

    /// Opens `path` (creating it empty when missing) on a new handle at offset 0.
    pub fn open_file(&mut self, path: String) -> (r: Option<u32>)
        requires
            old(self).wf(),
        ensures
            final(self).wf(),
            final(self).files_view() == (if old(self).file(path@) is Some { old(self).files_view() } else { stored(old(self).files_view(), path@, Seq::empty()) }),
            final(self).total_file_bytes_view() == old(self).total_file_bytes_view(),
            final(self).registry_view() == old(self).registry_view(),
            final(self).remote_memory_view() == old(self).remote_memory_view(),
            old(self).handles_view().len() >= MAX_HANDLES ==> r is None && final(self).last_error_view() == 4
                && final(self).handles_view() == old(self).handles_view(),
            old(self).handles_view().len() < MAX_HANDLES ==> r == Some(old(self).next_handle_view())
                && final(self).handles_view() == old(self).handles_view().insert(old(self).next_handle_view(), HandleView::File { path: path@, offset: 0 }),
    {
        let key = chars_of(path.as_str());
        proof {
            lemma_key_index(store_view(self.files@), path@);
        }
        if find_entry(&self.files, &key).is_none() {
            let ghost before = store_view(self.files@);
            store_entry(&mut self.files, path.clone(), Vec::new());
            proof {
                lemma_stored_distinct(before, path@, Seq::empty());
            }
        }
        self.allocate(HandleResource::File { path, offset: 0 })
    }

    /// Lists the stored paths that contain `pattern` without its surrounding
    /// `*` (ignoring ASCII case) on a new enumeration handle, giving the
    /// handle and the first path; `None` when nothing matches.
    pub fn start_file_find(&mut self, pattern: &str) -> (r: Option<(u32, String)>)
        requires
            old(self).wf(),
        ensures
            final(self).wf(),
            final(self).same_except_handles(old(self)),
            ({
                let entries = matching_paths(old(self).files_view(), lower_seq(trim_stars(pattern@)));
                if entries.len() == 0 || old(self).handles_view().len() >= MAX_HANDLES {
                    &&& r is None
                    &&& final(self).handles_view() == old(self).handles_view()
                    &&& entries.len() > 0 ==> final(self).last_error_view() == 4
                } else {
                    &&& r matches Some(t) && t.0 == old(self).next_handle_view() && t.1@ == entries[0]
                    &&& final(self).handles_view() == old(self).handles_view().insert(
                        old(self).next_handle_view(),
                        HandleView::Find { entries, index: 1 },
                    )
                }
            }),
    {
        let chars = chars_of(pattern);
        let mut lo: usize = 0;
        let mut hi: usize = chars.len();
        assert(chars@.subrange(0, chars@.len() as int) =~= chars@);
        while lo < hi && (chars[lo] == '*' || chars[hi - 1] == '*')
            invariant
                lo <= hi <= chars@.len(),
                chars@ == pattern@,
                trim_stars(pattern@) == trim_stars(chars@.subrange(lo as int, hi as int)),
            decreases hi - lo,
        {
            let t = Ghost(chars@.subrange(lo as int, hi as int));
            if chars[lo] == '*' {
                assert(t@[0] == '*');
                assert(t@.subrange(1, t@.len() as int) =~= chars@.subrange(lo + 1, hi as int));
                lo = lo + 1;
            } else {
                assert(t@[0] != '*');
                assert(t@.last() == '*');
                assert(t@.drop_last() =~= chars@.subrange(lo as int, hi - 1));
                hi = hi - 1;
            }
        }
        let trimmed = crate::text::copy_chars(&chars, lo, hi);
        proof {
            let t = chars@.subrange(lo as int, hi as int);
            if t.len() > 0 {
                assert(t[0] == chars@[lo as int]);
                assert(t.last() == chars@[hi - 1]);
            }
        }
        let needle = crate::network::lower_chars(&trimmed);
        let ghost fs = self.files_view();
        let mut entries: Vec<String> = Vec::new();
        let mut i: usize = 0;
        assert(texts(entries@) =~= matching_paths(fs.subrange(0, 0), needle@));
        while i < self.files.len()
            invariant
                i <= self.files@.len(),
                fs == store_view(self.files@),
                texts(entries@) == matching_paths(fs.subrange(0, i as int), needle@),
            decreases self.files@.len() - i,
        {
            let pre = Ghost(fs.subrange(0, i + 1));
            assert(pre@.drop_last() =~= fs.subrange(0, i as int));
            assert(pre@.last().0 == self.files@[i as int].0@);
            let path_chars = chars_of(self.files[i].0.as_str());
            let lowered = crate::network::lower_chars(&path_chars);
            if needle.len() == 0 || vec_contains(&lowered, &needle) {
                let ghost before = texts(entries@);
                entries.push(self.files[i].0.clone());
                assert(texts(entries@) =~= before.push(self.files@[i as int].0@));
            }
            i = i + 1;
        }
        assert(fs.subrange(0, i as int) =~= fs);
        if entries.len() == 0 {
            return None;
        }
        let first = entries[0].clone();
        assert(first@ == texts(entries@)[0]);
        let handle = self.allocate(HandleResource::Find { entries, index: 1 });
        match handle {
            Some(h) => Some((h, first)),
            None => None,
        }
    }

    /// The size of the file behind a file handle.
    pub fn file_size(&self, handle: u32) -> (r: Option<usize>)
        requires
            self.wf(),
        ensures
            match self.resource(handle) {
                Some(HandleView::File { path, .. }) => match self.file(path) {
                    Some(data) => r == Some(data.len() as usize),
                    None => r is None,
                },
                _ => r is None,
            },
    {
        let path = match self.file_path(handle) {
            Some(p) => p,
            None => {
                return None;
            },
        };
        let key = chars_of(path);
        proof {
            lemma_key_index(store_view(self.files@), path@);
        }
        match find_entry(&self.files, &key) {
            Some(i) => Some(self.files[i].1.len()),
            None => None,
        }
    }
}


/// `a + b` on 64-bit signed values, held at the type's bounds.
pub open spec fn sat_add_i64(a: i64, b: i64) -> i64 {
    if a + b > i64::MAX {
        i64::MAX
    } else if a + b < i64::MIN {
        i64::MIN
    } else {
        (a + b) as i64
    }
}

/// The handle resource after `source` was renamed to `destination`.
pub open spec fn renamed(h: HandleView, source: Seq<char>, destination: Seq<char>) -> HandleView {
    match h {
        HandleView::File { path, offset } => if path == source {
            HandleView::File { path: destination, offset }
        } else {
            h
        },
        _ => h,
    }
}

/// The byte contents stored under `key`, or nothing.
pub open spec fn contents_or_empty(s: Seq<(Seq<char>, Seq<u8>)>, key: Seq<char>) -> Seq<u8> {
    match lookup(s, key) {
        Some(d) => d,
        None => Seq::empty(),
    }
}

proof fn lemma_assoc_rename(pairs: Seq<(u32, HandleResource)>, after: Seq<(u32, HandleResource)>, source: Seq<char>, destination: Seq<char>)
    requires
        pairs.len() == after.len(),
        forall|j: int| 0 <= j < pairs.len() ==> (#[trigger] after[j]).0 == pairs[j].0 && after[j].1@ == renamed(pairs[j].1@, source, destination),
    ensures
        assoc_view(after) == Map::new(
            |h: u32| assoc_view(pairs).contains_key(h),
            |h: u32| renamed(assoc_view(pairs)[h], source, destination),
        ),
    decreases pairs.len(),
{
    if pairs.len() == 0 {
        assert(assoc_view(after) =~= Map::new(
            |h: u32| assoc_view(pairs).contains_key(h),
            |h: u32| renamed(assoc_view(pairs)[h], source, destination),
        ));
    } else {
        let p = pairs.drop_last();
        let a = after.drop_last();
        assert forall|j: int| 0 <= j < p.len() implies (#[trigger] a[j]).0 == p[j].0 && a[j].1@ == renamed(p[j].1@, source, destination) by {
            assert(a[j] == after[j]);
            assert(p[j] == pairs[j]);
        }
        lemma_assoc_rename(p, a, source, destination);
        assert(after.last() == after[after.len() - 1]);
        assert(assoc_view(after) =~= Map::new(
            |h: u32| assoc_view(pairs).contains_key(h),
            |h: u32| renamed(assoc_view(pairs)[h], source, destination),
        ));
    }
}

proof fn lemma_stored_twice(s: Seq<(Seq<char>, Seq<u8>)>, key: Seq<char>, v1: Seq<u8>, v2: Seq<u8>)
    requires
        distinct_keys(s),
    ensures
        stored(stored(s, key, v1), key, v2) == stored(s, key, v2),
{
    lemma_key_index(s, key);
    lemma_key_slot(s, key);
    lemma_stored_distinct(s, key, v1);
    let t = stored(s, key, v1);
    let i = key_index(s, key);
    let pos = if i >= 0 { i } else { key_slot(s, key) };
    assert(t[pos].0 == key);
    lemma_key_index_unique(t, key, pos);
    if i >= 0 {
        assert(stored(t, key, v2) =~= stored(s, key, v2));
    } else {
        assert(stored(t, key, v2) =~= stored(s, key, v2));
    }
}


/// `file` zero-filled to `offset` and then overwritten by `data[..length]` from there.
pub(crate) fn apply_write(file: Vec<u8>, offset: usize, data: &[u8], length: usize) -> (r: Vec<u8>)
    requires
        length <= data@.len(),
        offset + length <= usize::MAX,
    ensures
        r@ == written_file(file@, offset as int, data@, length as int),
{
    let ghost f0 = file@;
    let mut file = file;
    grow(&mut file, offset);
    let ghost grown = file@;
    let end = offset + length;
    grow(&mut file, end);
    let mut i: usize = 0;
    let ghost widened = file@;
    while i < length
        invariant
            i <= length,
            length <= data@.len(),
            end == offset + length,
            file@.len() == widened.len(),
            widened.len() >= end,
            forall|j: int| 0 <= j < offset ==> file@[j] == widened[j],
            forall|j: int| end <= j < widened.len() ==> file@[j] == widened[j],
            forall|j: int| offset <= j < offset + i ==> file@[j] == data@[j - offset],
        decreases length - i,
    {
        file.set(offset + i, data[i]);
        i = i + 1;
    }
    proof {
        let f = written_file(f0, offset as int, data@, length as int);
        assert(file@ =~= f) by {
            assert(file@.len() == f.len());
            let g = if offset > f0.len() { f0 + Seq::new((offset - f0.len()) as nat, |i: int| 0u8) } else { f0 };
            assert(grown == g);
            assert(widened == if end > grown.len() { grown + Seq::new((end - grown.len()) as nat, |i: int| 0u8) } else { grown });
            let tail = if end < g.len() { g.subrange(end as int, g.len() as int) } else { Seq::<u8>::empty() };
            assert(f == g.subrange(0, offset as int) + data@.subrange(0, length as int) + tail);
            assert forall|j: int| 0 <= j < f.len() implies file@[j] == f[j] by {
                if j < offset {
                    assert(f[j] == g[j]);
                    assert(widened[j] == grown[j]);
                } else if j < end {
                    assert(f[j] == data@[j - offset]);
                } else {
                    assert(f[j] == tail[j - end]);
                    assert(widened[j] == grown[j]);
                }
            }
        }
    }
    file
}

impl VirtualWindows {
    fn rewrite_handle(&mut self, k: usize, resource: HandleResource)
        requires
            old(self).wf(),
            k < old(self).handles@.len(),
        ensures
            final(self).wf(),
            final(self).handles_view() == old(self).handles_view().insert(old(self).handles@[k as int].0, resource@),
            final(self).same_except_handles(old(self)),
            final(self).last_error_view() == old(self).last_error_view(),
            final(self).next_handle_view() == old(self).next_handle_view(),
    {
        let ghost before = self.handles@;
        let key = self.handles[k].0;
        proof {
            lemma_assoc_update(before, k as int, resource);
        }
        self.handles.set(k, (key, resource));
    }

    fn files_lookup(&self, path: &Vec<char>) -> (r: Option<usize>)
        requires
            self.wf(),
        ensures
            match r {
                Some(i) => i < self.files@.len() && self.file(path@) == Some(self.files@[i as int].1@),
                None => self.file(path@) is None,
            },
    {
        proof {
            lemma_key_index(store_view(self.files@), path@);
        }
        find_entry(&self.files, path)
    }

    /// Writes `data` at a file handle's offset, as much as the per-file and
    /// total limits allow (error 8 when cut short), advancing the offset;
    /// error 6 and nothing written for a handle that is not a file.
    pub fn write_file(&mut self, handle: u32, data: &[u8]) -> (r: usize)
        requires
            old(self).wf(),
        ensures
            final(self).wf(),
            final(self).registry_view() == old(self).registry_view(),
            final(self).remote_memory_view() == old(self).remote_memory_view(),
            final(self).total_remote_bytes_view() == old(self).total_remote_bytes_view(),
            final(self).next_handle_view() == old(self).next_handle_view(),
            match old(self).resource(handle) {
                Some(HandleView::File { path, offset }) => {
                    let f0 = contents_or_empty(old(self).files_view(), path);
                    let length = write_length(data@.len() as int, offset as int, old(self).total_file_bytes_view() as int);
                    let grown_len = if offset > f0.len() { offset as int } else { f0.len() as int };
                    let f = written_file(f0, offset as int, data@, length);
                    &&& r == length
                    &&& final(self).files_view() == stored(old(self).files_view(), path, f)
                    &&& final(self).handles_view() == old(self).handles_view().insert(handle, HandleView::File { path, offset: (offset + length) as usize })
                    &&& final(self).total_file_bytes_view() == sat_add_usize(old(self).total_file_bytes_view() as int, sat_sub(f.len() as int, grown_len))
                    &&& final(self).last_error_view() == if length == data@.len() { 0u32 } else { 8u32 }
                },
                _ => r == 0 && final(self).last_error_view() == 6 && final(self).handles_view() == old(self).handles_view()
                    && final(self).files_view() == old(self).files_view() && final(self).total_file_bytes_view() == old(self).total_file_bytes_view(),
            },
    {
        let k = match find_key(&self.handles, handle) {
            Some(k) => k,
            None => {
                self.last_error = 6;
                return 0;
            },
        };
        let (path, offset) = match &self.handles[k].1 {
            HandleResource::File { path, offset } => (path.clone(), *offset),
            _ => {
                self.last_error = 6;
                return 0;
            },
        };
        let key = chars_of(path.as_str());
        let mut file = match self.files_lookup(&key) {
            Some(i) => copy_bytes(&self.files[i].1),
            None => Vec::new(),
        };
        let ghost f0 = file@;
        let available_file = MAX_FILE_BYTES.saturating_sub(offset);
        let available_total = MAX_TOTAL_FILE_BYTES.saturating_sub(self.total_file_bytes);
        let mut length = data.len();
        if available_file < length {
            length = available_file;
        }
        if available_total < length {
            length = available_total;
        }
        let previous_length = if offset > file.len() { offset } else { file.len() };
        let end = offset + length;
        let file = apply_write(file, offset, data, length);
        let ghost before_files = store_view(self.files@);
        store_entry(&mut self.files, path.clone(), file);
        proof {
            lemma_stored_distinct(before_files, path@, written_file(f0, offset as int, data@, length as int));
        }
        let grown_total = if end > previous_length { end - previous_length } else { 0 };
        self.total_file_bytes = self.total_file_bytes.saturating_add(grown_total);
        self.rewrite_handle(k, HandleResource::File { path, offset: end });
        self.last_error = if length == data.len() { 0 } else { 8 };
        length
    }
}


impl VirtualWindows {
    /// Reads up to `requested` bytes at a file handle's offset and moves the
    /// offset to the end of what was read (error 0); error 6 for a handle
    /// that is not a file.
    pub fn read_file(&mut self, handle: u32, requested: usize) -> (r: Vec<u8>)
        requires
            old(self).wf(),
        ensures
            final(self).wf(),
            final(self).same_except_handles(old(self)),
            final(self).next_handle_view() == old(self).next_handle_view(),
            match old(self).resource(handle) {
                Some(HandleView::File { path, offset }) => match old(self).file(path) {
                    Some(f) => {
                        let end = if sat_add_usize(offset as int, requested as int) < f.len() { sat_add_usize(offset as int, requested as int) } else { f.len() as int };
                        &&& r@ == if offset <= end { f.subrange(offset as int, end) } else { Seq::empty() }
                        &&& final(self).handles_view() == old(self).handles_view().insert(handle, HandleView::File { path, offset: end as usize })
                        &&& final(self).last_error_view() == 0
                    },
                    None => r@.len() == 0 && final(self).handles_view() == old(self).handles_view()
                        && final(self).last_error_view() == old(self).last_error_view(),
                },
                _ => r@.len() == 0 && final(self).last_error_view() == 6 && final(self).handles_view() == old(self).handles_view(),
            },
    {
        let k = match find_key(&self.handles, handle) {
            Some(k) => k,
            None => {
                self.last_error = 6;
                return Vec::new();
            },
        };
        let (path, offset) = match &self.handles[k].1 {
            HandleResource::File { path, offset } => (path.clone(), *offset),
            _ => {
                self.last_error = 6;
                return Vec::new();
            },
        };
        let key = chars_of(path.as_str());
        let i = match self.files_lookup(&key) {
            Some(i) => i,
            None => {
                return Vec::new();
            },
        };
        let len = self.files[i].1.len();
        let sum = offset.saturating_add(requested);
        let end = if sum < len { sum } else { len };
        let mut out: Vec<u8> = Vec::new();
        if offset <= end {
            let mut j: usize = offset;
            while j < end
                invariant
                    offset <= j <= end,
                    end <= self.files@[i as int].1@.len(),
                    i < self.files@.len(),
                    out@ == self.files@[i as int].1@.subrange(offset as int, j as int),
                decreases end - j,
            {
                out.push(self.files[i].1[j]);
                j = j + 1;
                assert(out@ =~= self.files@[i as int].1@.subrange(offset as int, j as int));
            }
        }
        self.rewrite_handle(k, HandleResource::File { path, offset: end });
        self.last_error = 0;
        out
    }

    /// Moves a file handle's offset: from the start (method 0), the current
    /// offset (1) or the end (2) by `distance`, never below zero and at most
    /// the per-file limit; `None` for another method or a handle that is not a file.
    pub fn set_file_offset(&mut self, handle: u32, distance: i32, method: u32) -> (r: Option<usize>)
        requires
            old(self).wf(),
        ensures
            final(self).wf(),
            final(self).same_except_handles(old(self)),
            final(self).next_handle_view() == old(self).next_handle_view(),
            final(self).last_error_view() == old(self).last_error_view(),
            match old(self).resource(handle) {
                Some(HandleView::File { path, offset }) => if method <= 2 {
                    let base: i64 = if method == 0 {
                        0i64
                    } else if method == 1 {
                        offset as i64
                    } else {
                        contents_or_empty(old(self).files_view(), path).len() as usize as i64
                    };
                    let moved = sat_add_i64(base, distance as i64);
                    let next = if moved < 0 { 0usize } else { moved as usize };
                    let capped = if next < MAX_FILE_BYTES { next } else { MAX_FILE_BYTES };
                    r == Some(capped) && final(self).handles_view() == old(self).handles_view().insert(
                        handle,
                        HandleView::File { path, offset: capped },
                    )
                } else {
                    r is None && final(self).handles_view() == old(self).handles_view()
                },
                _ => r is None && final(self).handles_view() == old(self).handles_view(),
            },
    {
        let k = match find_key(&self.handles, handle) {
            Some(k) => k,
            None => {
                return None;
            },
        };
        let (path, current) = match &self.handles[k].1 {
            HandleResource::File { path, offset } => (path.clone(), *offset),
            _ => {
                return None;
            },
        };
        let base: i64 = if method == 0 {
            0
        } else if method == 1 {
            current as i64
        } else if method == 2 {
            let key = chars_of(path.as_str());
            match self.files_lookup(&key) {
                Some(i) => self.files[i].1.len() as i64,
                None => 0,
            }
        } else {
            return None;
        };
        let d = distance as i64;
        let moved: i64 = if d > 0 && base > i64::MAX - d {
            i64::MAX
        } else if d < 0 && base < i64::MIN - d {
            i64::MIN
        } else {
            base + d
        };
        let next: usize = if moved < 0 { 0 } else { moved as usize };
        let capped = if next < MAX_FILE_BYTES { next } else { MAX_FILE_BYTES };
        self.rewrite_handle(k, HandleResource::File { path, offset: capped });
        Some(capped)
    }

    /// Deletes a file, releasing its bytes from the total.
    pub fn delete_file(&mut self, path: &str) -> (r: bool)
        requires
            old(self).wf(),
        ensures
            final(self).wf(),
            final(self).handles_view() == old(self).handles_view(),
            final(self).next_handle_view() == old(self).next_handle_view(),
            final(self).last_error_view() == old(self).last_error_view(),
            final(self).registry_view() == old(self).registry_view(),
            final(self).remote_memory_view() == old(self).remote_memory_view(),
            final(self).total_remote_bytes_view() == old(self).total_remote_bytes_view(),
            r == old(self).file(path@) is Some,
            final(self).files_view() == erased(old(self).files_view(), path@),
            final(self).total_file_bytes_view() == match old(self).file(path@) {
                Some(d) => sat_sub(old(self).total_file_bytes_view() as int, d.len() as int) as usize,
                None => old(self).total_file_bytes_view(),
            },
    {
        let key = chars_of(path);
        let ghost before = store_view(self.files@);
        proof {
            lemma_erased_distinct(before, path@);
        }
        match erase_entry(&mut self.files, &key) {
            Some(data) => {
                self.total_file_bytes = self.total_file_bytes.saturating_sub(data.len());
                true
            },
            None => {
                assert(erased(before, path@) == before);
                false
            },
        }
    }

    /// Copies a file over `destination` when the total limit allows it
    /// (error 8 otherwise).
    pub fn copy_file(&mut self, source: &str, destination: &str) -> (r: bool)
        requires
            old(self).wf(),
        ensures
            final(self).wf(),
            final(self).handles_view() == old(self).handles_view(),
            final(self).next_handle_view() == old(self).next_handle_view(),
            final(self).registry_view() == old(self).registry_view(),
            final(self).remote_memory_view() == old(self).remote_memory_view(),
            final(self).total_remote_bytes_view() == old(self).total_remote_bytes_view(),
            match old(self).file(source@) {
                None => !r && final(self).files_view() == old(self).files_view()
                    && final(self).total_file_bytes_view() == old(self).total_file_bytes_view()
                    && final(self).last_error_view() == old(self).last_error_view(),
                Some(data) => {
                    let current = contents_or_empty(old(self).files_view(), destination@).len() as int;
                    let total = old(self).total_file_bytes_view() as int;
                    if sat_add_usize(total, sat_sub(data.len() as int, current)) > MAX_TOTAL_FILE_BYTES {
                        !r && final(self).last_error_view() == 8 && final(self).files_view() == old(self).files_view()
                            && final(self).total_file_bytes_view() == old(self).total_file_bytes_view()
                    } else {
                        r && final(self).files_view() == stored(old(self).files_view(), destination@, data)
                            && final(self).total_file_bytes_view() == sat_add_usize(sat_sub(total, current), data.len() as int)
                            && final(self).last_error_view() == old(self).last_error_view()
                    }
                },
            },
    {
        let source_key = chars_of(source);
        let data = match self.files_lookup(&source_key) {
            Some(i) => copy_bytes(&self.files[i].1),
            None => {
                return false;
            },
        };
        let destination_key = chars_of(destination);
        let current = match self.files_lookup(&destination_key) {
            Some(i) => self.files[i].1.len(),
            None => 0,
        };
        if self.total_file_bytes.saturating_add(data.len().saturating_sub(current)) > MAX_TOTAL_FILE_BYTES {
            self.last_error = 8;
            return false;
        }
        let size = data.len();
        let ghost before = store_view(self.files@);
        let ghost dv = data@;
        store_entry(&mut self.files, text_of(destination), data);
        proof {
            lemma_stored_distinct(before, destination@, dv);
        }
        self.total_file_bytes = self.total_file_bytes.saturating_sub(current).saturating_add(size);
        true
    }

    /// Renames a file, replacing any file at `destination` (whose bytes leave
    /// the total), and points open handles of the old path at the new one.
    pub fn move_file(&mut self, source: &str, destination: &str) -> (r: bool)
        requires
            old(self).wf(),
        ensures
            final(self).wf(),
            final(self).next_handle_view() == old(self).next_handle_view(),
            final(self).last_error_view() == old(self).last_error_view(),
            final(self).registry_view() == old(self).registry_view(),
            final(self).remote_memory_view() == old(self).remote_memory_view(),
            final(self).total_remote_bytes_view() == old(self).total_remote_bytes_view(),
            match old(self).file(source@) {
                None => !r && final(self).files_view() == old(self).files_view() && final(self).handles_view() == old(self).handles_view()
                    && final(self).total_file_bytes_view() == old(self).total_file_bytes_view(),
                Some(data) => {
                    let rest = erased(old(self).files_view(), source@);
                    &&& r
                    &&& final(self).files_view() == stored(rest, destination@, data)
                    &&& final(self).total_file_bytes_view() == match lookup(rest, destination@) {
                        Some(p) => sat_sub(old(self).total_file_bytes_view() as int, p.len() as int) as usize,
                        None => old(self).total_file_bytes_view(),
                    }
                    &&& final(self).handles_view() == Map::new(
                        |h: u32| old(self).handles_view().contains_key(h),
                        |h: u32| renamed(old(self).handles_view()[h], source@, destination@),
                    )
                },
            },
    {
        let source_key = chars_of(source);
        let ghost before = store_view(self.files@);
        proof {
            lemma_erased_distinct(before, source@);
        }
        let data = match erase_entry(&mut self.files, &source_key) {
            Some(d) => d,
            None => {
                assert(erased(before, source@) == before);
                return false;
            },
        };
        let destination_key = chars_of(destination);
        let ghost rest = store_view(self.files@);
        let previous = match self.files_lookup(&destination_key) {
            Some(i) => Some(self.files[i].1.len()),
            None => None,
        };
        let ghost dv = data@;
        store_entry(&mut self.files, text_of(destination), data);
        proof {
            lemma_stored_distinct(rest, destination@, dv);
        }
        if let Some(n) = previous {
            self.total_file_bytes = self.total_file_bytes.saturating_sub(n);
        }
        let ghost pairs = self.handles@;
        let ghost files_now = self.files@;
        let ghost total_now = self.total_file_bytes;
        let mut i: usize = 0;
        while i < self.handles.len()
            invariant
                i <= self.handles@.len(),
                self.handles@.len() == pairs.len(),
                self.files@ == files_now,
                self.total_file_bytes == total_now,
                source_key@ == source@,
                self.registry@ == old(self).registry@,
                self.remote_memory@ == old(self).remote_memory@,
                self.total_remote_bytes == old(self).total_remote_bytes,
                self.next_handle == old(self).next_handle,
                self.last_error == old(self).last_error,
                distinct_keys(store_view(self.files@)),
                distinct_keys(store_view(self.registry@)),
                forall|a: int, b: int| 0 <= a < b < self.remote_memory@.len() ==> key_before(
                    (#[trigger] self.remote_memory@[a]).0,
                    (#[trigger] self.remote_memory@[b]).0,
                ),
                unique_keys(pairs),
                forall|j: int| 0 <= j < i ==> (#[trigger] self.handles@[j]).0 == pairs[j].0
                    && self.handles@[j].1@ == renamed(pairs[j].1@, source@, destination@),
                forall|j: int| i <= j < pairs.len() ==> #[trigger] self.handles@[j] == pairs[j],
            decreases self.handles@.len() - i,
        {
            let matches_source = match &self.handles[i].1 {
                HandleResource::File { path, .. } => chars_equal(&chars_of(path.as_str()), &source_key),
                _ => false,
            };
            if matches_source {
                let key = self.handles[i].0;
                let offset = match &self.handles[i].1 {
                    HandleResource::File { offset, .. } => *offset,
                    _ => 0,
                };
                let replacement = HandleResource::File { path: text_of(destination), offset };
                assert(replacement@ == renamed(pairs[i as int].1@, source@, destination@));
                self.handles.set(i, (key, replacement));
            } else {
                assert(self.handles@[i as int].1@ == renamed(pairs[i as int].1@, source@, destination@));
            }
            i = i + 1;
        }
        proof {
            lemma_assoc_rename(pairs, self.handles@, source@, destination@);
            assert forall|a: int, b: int| 0 <= a < b < self.handles@.len() implies (#[trigger] self.handles@[a]).0 != (#[trigger] self.handles@[b]).0 by {
                assert(pairs[a].0 != pairs[b].0);
            }
        }
        true
    }
}


/// `key\name` as a string.
fn value_path(key: &str, name: &str) -> (r: String)
    ensures
        r@ == value_key(key@, name@),
{
    let mut s = String::new();
    push_str(&mut s, key);
    push_str(&mut s, "\\");
    push_str(&mut s, name);
    s
}

fn bytes_of(data: &[u8]) -> (r: Vec<u8>)
    ensures
        r@ == data@,
{
    let mut r: Vec<u8> = Vec::new();
    let mut i: usize = 0;
    while i < data.len()
        invariant
            i <= data@.len(),
            r@ == data@.subrange(0, i as int),
        decreases data@.len() - i,
    {
        r.push(data[i]);
        i = i + 1;
        assert(r@ =~= data@.subrange(0, i as int));
    }
    assert(data@.subrange(0, i as int) =~= data@);
    r
}

impl VirtualWindows {
    /// Stores a value under a registry handle's key (error 0); error 6 for a
    /// handle that is not a registry key.
    pub fn set_registry_value(&mut self, handle: u32, name: &str, data: &[u8]) -> (r: bool)
        requires
            old(self).wf(),
        ensures
            final(self).wf(),
            final(self).handles_view() == old(self).handles_view(),
            final(self).next_handle_view() == old(self).next_handle_view(),
            final(self).files_view() == old(self).files_view(),
            final(self).total_file_bytes_view() == old(self).total_file_bytes_view(),
            final(self).remote_memory_view() == old(self).remote_memory_view(),
            final(self).total_remote_bytes_view() == old(self).total_remote_bytes_view(),
            match old(self).resource(handle) {
                Some(HandleView::Registry { key }) => r && final(self).last_error_view() == 0
                    && final(self).registry_view() == stored(old(self).registry_view(), value_key(key, name@), data@),
                _ => !r && final(self).last_error_view() == 6 && final(self).registry_view() == old(self).registry_view(),
            },
    {
        let path = match self.registry_path(handle) {
            Some(key) => value_path(key, name),
            None => {
                self.last_error = 6;
                return false;
            },
        };
        let ghost before = store_view(self.registry@);
        let ghost pv = path@;
        store_entry(&mut self.registry, path, bytes_of(data));
        proof {
            lemma_stored_distinct(before, pv, data@);
        }
        self.last_error = 0;
        true
    }

    /// The value stored under a registry handle's key.
    pub fn registry_value(&self, handle: u32, name: &str) -> (r: Option<&[u8]>)
        requires
            self.wf(),
        ensures
            match self.resource(handle) {
                Some(HandleView::Registry { key }) => match lookup(self.registry_view(), value_key(key, name@)) {
                    Some(d) => r matches Some(b) && b@ == d,
                    None => r is None,
                },
                _ => r is None,
            },
    {
        let key = match self.registry_path(handle) {
            Some(key) => key,
            None => {
                return None;
            },
        };
        let path = chars_of(value_path(key, name).as_str());
        proof {
            lemma_key_index(store_view(self.registry@), path@);
        }
        match find_entry(&self.registry, &path) {
            Some(i) => Some(self.registry[i].1.as_slice()),
            None => None,
        }
    }

    /// Deletes a value under a registry handle's key: error 0 when it
    /// existed, 2 when it did not, 6 for a handle that is not a registry key.
    pub fn delete_registry_value(&mut self, handle: u32, name: &str) -> (r: bool)
        requires
            old(self).wf(),
        ensures
            final(self).wf(),
            final(self).handles_view() == old(self).handles_view(),
            final(self).next_handle_view() == old(self).next_handle_view(),
            final(self).files_view() == old(self).files_view(),
            final(self).total_file_bytes_view() == old(self).total_file_bytes_view(),
            final(self).remote_memory_view() == old(self).remote_memory_view(),
            final(self).total_remote_bytes_view() == old(self).total_remote_bytes_view(),
            match old(self).resource(handle) {
                Some(HandleView::Registry { key }) => {
                    let k = value_key(key, name@);
                    &&& r == lookup(old(self).registry_view(), k) is Some
                    &&& final(self).registry_view() == erased(old(self).registry_view(), k)
                    &&& final(self).last_error_view() == if r { 0u32 } else { 2u32 }
                },
                _ => !r && final(self).last_error_view() == 6 && final(self).registry_view() == old(self).registry_view(),
            },
    {
        let path = match self.registry_path(handle) {
            Some(key) => chars_of(value_path(key, name).as_str()),
            None => {
                self.last_error = 6;
                return false;
            },
        };
        let ghost before = store_view(self.registry@);
        proof {
            lemma_erased_distinct(before, path@);
            lemma_key_index(before, path@);
        }
        let removed = erase_entry(&mut self.registry, &path).is_some();
        self.last_error = if removed { 0 } else { 2 };
        removed
    }

    /// Allocates `size` zeroed bytes at `address` in a process opened by
    /// handle: error 8 for a non-process handle, an empty or oversized
    /// region or an exhausted total; error 487 when it meets a region of the
    /// same process; error 0 on success.
    pub fn allocate_remote(&mut self, process: u32, address: u32, size: usize) -> (r: bool)
        requires
            old(self).wf(),
        ensures
            final(self).wf(),
            final(self).handles_view() == old(self).handles_view(),
            final(self).next_handle_view() == old(self).next_handle_view(),
            final(self).files_view() == old(self).files_view(),
            final(self).total_file_bytes_view() == old(self).total_file_bytes_view(),
            final(self).registry_view() == old(self).registry_view(),
            ({
                let rv = old(self).remote_memory_view();
                if !(old(self).resource(process) matches Some(HandleView::Process { .. })) || size == 0 || size > MAX_REMOTE_REGION_BYTES
                    || sat_add_usize(old(self).total_remote_bytes_view() as int, size as int) > MAX_TOTAL_REMOTE_BYTES {
                    !r && final(self).last_error_view() == 8 && final(self).remote_memory_view() == rv
                        && final(self).total_remote_bytes_view() == old(self).total_remote_bytes_view()
                } else if exists|i: int| 0 <= i < rv.len() && remote_meets(#[trigger] rv[i], process, address, size as nat) {
                    !r && final(self).last_error_view() == 487 && final(self).remote_memory_view() == rv
                        && final(self).total_remote_bytes_view() == old(self).total_remote_bytes_view()
                } else {
                    &&& r
                    &&& final(self).last_error_view() == 0
                    &&& final(self).remote_memory_view() == remote_stored(rv, (process, address), Seq::new(size as nat, |i: int| 0u8))
                    &&& final(self).total_remote_bytes_view() == old(self).total_remote_bytes_view() + size
                }
            }),
    {
        let is_process = match find_key(&self.handles, process) {
            Some(k) => match &self.handles[k].1 {
                HandleResource::Process { .. } => true,
                _ => false,
            },
            None => false,
        };
        if !is_process || size == 0 || size > MAX_REMOTE_REGION_BYTES || self.total_remote_bytes.saturating_add(size) > MAX_TOTAL_REMOTE_BYTES {
            self.last_error = 8;
            return false;
        }
        let ghost rv = remote_view(self.remote_memory@);
        let size32: u32 = size as u32;
        let mut i: usize = 0;
        while i < self.remote_memory.len()
            invariant
                i <= self.remote_memory@.len(),
                rv == remote_view(self.remote_memory@),
                size32 == size,
                size <= MAX_REMOTE_REGION_BYTES,
                self.handles@ == old(self).handles@,
                self.files@ == old(self).files@,
                self.registry@ == old(self).registry@,
                self.remote_memory@ == old(self).remote_memory@,
                self.total_remote_bytes == old(self).total_remote_bytes,
                self.total_file_bytes == old(self).total_file_bytes,
                self.next_handle == old(self).next_handle,
                self.wf(),
                self.total_remote_bytes + size <= MAX_TOTAL_REMOTE_BYTES,
                forall|j: int| 0 <= j < i ==> !remote_meets(#[trigger] rv[j], process, address, size as nat),
                size > 0,
                old(self).resource(process) matches Some(HandleView::Process { .. }),
            decreases self.remote_memory@.len() - i,
        {
            let start = self.remote_memory[i].0.1;
            let len = self.remote_memory[i].1.len();
            let region_end: u32 = if len > (u32::MAX - start) as usize { u32::MAX } else { start + len as u32 };
            let span_end: u32 = address.saturating_add(size32);
            assert(rv[i as int] == (self.remote_memory@[i as int].0, self.remote_memory@[i as int].1@));
            assert(region_end == sat_end(start, len as int));
            assert(span_end == sat_end(address, (size as nat % 0x1_0000_0000) as int));
            if self.remote_memory[i].0.0 == process && address < region_end && span_end > start {
                assert(remote_meets(rv[i as int], process, address, size as nat));
                assert(rv == old(self).remote_memory_view());
                assert(exists|i: int| 0 <= i < rv.len() && remote_meets(#[trigger] rv[i], process, address, size as nat));
                self.last_error = 487;
                return false;
            }
            i = i + 1;
        }
        let mut j: usize = self.remote_memory.len();
        assert(rv.subrange(0, rv.len() as int) =~= rv);
        let k = (process, address);
        while j > 0
            invariant
                j <= self.remote_memory@.len(),
                rv == remote_view(self.remote_memory@),
                remote_slot(rv, k) == remote_slot(rv.subrange(0, j as int), k),
                forall|x: int| j <= x < rv.len() ==> !key_before(#[trigger] rv[x].0, k),
                k == (process, address),
                self.handles@ == old(self).handles@,
                self.files@ == old(self).files@,
                self.registry@ == old(self).registry@,
                self.remote_memory@ == old(self).remote_memory@,
                self.total_remote_bytes == old(self).total_remote_bytes,
                self.total_file_bytes == old(self).total_file_bytes,
                self.next_handle == old(self).next_handle,
                self.wf(),
                self.total_remote_bytes + size <= MAX_TOTAL_REMOTE_BYTES,
            ensures
                j <= self.remote_memory@.len(),
                remote_slot(rv, k) == remote_slot(rv.subrange(0, j as int), k),
                forall|x: int| j <= x < rv.len() ==> !key_before(#[trigger] rv[x].0, k),
                j == 0 || key_before(rv[j - 1].0, k),
            decreases j,
        {
            let pre = Ghost(rv.subrange(0, j as int));
            assert(pre@.drop_last() =~= rv.subrange(0, j - 1));
            let (p, a) = self.remote_memory[j - 1].0;
            assert(pre@.last().0 == (p, a));
            if p < process || (p == process && a < address) {
                break;
            }
            j = j - 1;
        }
        proof {
            if j == 0 {
                assert(rv.subrange(0, 0) =~= Seq::<((u32, u32), Seq<u8>)>::empty());
            }
            lemma_remote_position(rv, k, j as int);
        }
        let zeros: Vec<u8> = vec![0u8; size];
        let ghost entry = (k, zeros@);
        assert(zeros@ =~= Seq::new(size as nat, |i: int| 0u8));
        let ghost before = self.remote_memory@;
        if j < self.remote_memory.len() && self.remote_memory[j].0.0 == process && self.remote_memory[j].0.1 == address {
            self.remote_memory.set(j, (k, zeros));
            assert(remote_view(self.remote_memory@) =~= rv.update(j as int, entry));
            assert forall|a: int, b: int| 0 <= a < b < self.remote_memory@.len() implies key_before(
                (#[trigger] self.remote_memory@[a]).0,
                (#[trigger] self.remote_memory@[b]).0,
            ) by {
                assert(key_before(before[a].0, before[b].0));
            }
        } else {
            self.remote_memory.insert(j, (k, zeros));
            assert(remote_view(self.remote_memory@) =~= rv.insert(j as int, entry));
            proof {
                lemma_remote_insert_sorted(before, j as int, k, self.remote_memory@);
            }
        }
        self.total_remote_bytes = self.total_remote_bytes + size;
        self.last_error = 0;
        true
    }
}

/// Where the backward scan stops: the key is at that position if present at
/// all, and otherwise that position is its slot.
proof fn lemma_remote_position(rv: Seq<((u32, u32), Seq<u8>)>, k: (u32, u32), j: int)
    requires
        0 <= j <= rv.len(),
        remote_slot(rv, k) == remote_slot(rv.subrange(0, j), k),
        j == 0 || key_before(rv[j - 1].0, k),
        forall|x: int| j <= x < rv.len() ==> !key_before(#[trigger] rv[x].0, k),
        forall|a: int, b: int| 0 <= a < b < rv.len() ==> key_before((#[trigger] rv[a]).0, (#[trigger] rv[b]).0),
    ensures
        remote_slot(rv, k) == j,
        j < rv.len() && rv[j].0 == k ==> remote_index(rv, k) == j,
        !(j < rv.len() && rv[j].0 == k) ==> remote_index(rv, k) == -1 && (j == rv.len() || key_before(k, rv[j].0)),
{
    assert(remote_slot(rv.subrange(0, j), k) == j) by {
        if j > 0 {
            assert(rv.subrange(0, j).last() == rv[j - 1]);
        }
    }
    lemma_remote_index_from(rv, k, j);
}

proof fn lemma_remote_index_from(rv: Seq<((u32, u32), Seq<u8>)>, k: (u32, u32), j: int)
    requires
        0 <= j <= rv.len(),
        j == 0 || key_before(rv[j - 1].0, k),
        forall|x: int| j <= x < rv.len() ==> !key_before(#[trigger] rv[x].0, k),
        forall|a: int, b: int| 0 <= a < b < rv.len() ==> key_before((#[trigger] rv[a]).0, (#[trigger] rv[b]).0),
    ensures
        j < rv.len() && rv[j].0 == k ==> remote_index(rv, k) == j,
        !(j < rv.len() && rv[j].0 == k) ==> remote_index(rv, k) == -1 && (j == rv.len() || key_before(k, rv[j].0)),
    decreases rv.len(),
{
    if rv.len() > 0 {
        let last = rv.len() - 1;
        if last > j {
            assert(key_before(rv[j].0, rv[last].0));
            assert(rv[last].0 != k) by {
                if rv[j].0 == k {
                } else {
                    assert(!key_before(rv[j].0, k));
                }
            }
            let d = rv.drop_last();
            assert forall|x: int| j <= x < d.len() implies !key_before(#[trigger] d[x].0, k) by {
                assert(d[x] == rv[x]);
            }
            assert forall|a: int, b: int| 0 <= a < b < d.len() implies key_before((#[trigger] d[a]).0, (#[trigger] d[b]).0) by {
                assert(key_before(rv[a].0, rv[b].0));
            }
            lemma_remote_index_from(d, k, j);
        } else if last == j {
            if rv[j].0 != k {
                let d = rv.drop_last();
                lemma_remote_all_before(d, k);
            }
        } else {
            lemma_remote_all_before(rv, k);
        }
    }
}

/// With every key before `k` (the last one is), `k` is absent.
proof fn lemma_remote_all_before(rv: Seq<((u32, u32), Seq<u8>)>, k: (u32, u32))
    requires
        rv.len() == 0 || key_before(rv.last().0, k),
        forall|a: int, b: int| 0 <= a < b < rv.len() ==> key_before((#[trigger] rv[a]).0, (#[trigger] rv[b]).0),
    ensures
        remote_index(rv, k) == -1,
    decreases rv.len(),
{
    if rv.len() > 0 {
        let d = rv.drop_last();
        if d.len() > 0 {
            assert(key_before(rv[d.len() - 1].0, rv[rv.len() - 1].0));
        }
        assert forall|a: int, b: int| 0 <= a < b < d.len() implies key_before((#[trigger] d[a]).0, (#[trigger] d[b]).0) by {
            assert(key_before(rv[a].0, rv[b].0));
        }
        lemma_remote_all_before(d, k);
    }
}

proof fn lemma_remote_insert_sorted(before: Seq<((u32, u32), Vec<u8>)>, j: int, k: (u32, u32), after: Seq<((u32, u32), Vec<u8>)>)
    requires
        0 <= j <= before.len(),
        forall|a: int, b: int| 0 <= a < b < before.len() ==> key_before((#[trigger] before[a]).0, (#[trigger] before[b]).0),
        after.len() == before.len() + 1,
        after[j].0 == k,
        forall|i: int| 0 <= i < j ==> #[trigger] after[i] == before[i],
        forall|i: int| j < i < after.len() ==> #[trigger] after[i] == before[i - 1],
        j == 0 || key_before(before[j - 1].0, k),
        j == before.len() || key_before(k, before[j].0),
    ensures
        forall|a: int, b: int| 0 <= a < b < after.len() ==> key_before((#[trigger] after[a]).0, (#[trigger] after[b]).0),
{
    assert forall|a: int, b: int| 0 <= a < b < after.len() implies key_before((#[trigger] after[a]).0, (#[trigger] after[b]).0) by {
        if b < j {
            assert(key_before(before[a].0, before[b].0));
        } else if b == j {
            if a < j - 1 {
                assert(key_before(before[a].0, before[j - 1].0));
            }
        } else if a == j {
            if b - 1 > j {
                assert(key_before(before[j].0, before[b - 1].0));
            }
        } else if a < j {
            assert(key_before(before[a].0, before[b - 1].0));
        } else {
            assert(key_before(before[a - 1].0, before[b - 1].0));
        }
    }
}


/// Some byte is not zero.
pub open spec fn has_nonzero(b: Seq<u8>) -> bool {
    exists|j: int| 0 <= j < b.len() && #[trigger] b[j] != 0
}

impl VirtualWindows {
    /// Writes `data` into the first region of `process` that holds
    /// `[address, address + len)` (error 0, giving the length); error 299 and
    /// nothing written when none does.
    #[verifier::spinoff_prover]
    #[verifier::rlimit(40)]
    pub fn write_remote(&mut self, process: u32, address: u32, data: &[u8]) -> (r: usize)
        requires
            old(self).wf(),
            first_holding(old(self).remote_memory_view(), process, address, data@.len()) matches Some(i)
                ==> (address - old(self).remote_memory_view()[i].0.1) + data@.len() <= old(self).remote_memory_view()[i].1.len(),
        ensures
            final(self).wf(),
            final(self).handles_view() == old(self).handles_view(),
            final(self).next_handle_view() == old(self).next_handle_view(),
            final(self).files_view() == old(self).files_view(),
            final(self).total_file_bytes_view() == old(self).total_file_bytes_view(),
            final(self).registry_view() == old(self).registry_view(),
            final(self).total_remote_bytes_view() == old(self).total_remote_bytes_view(),
            ({
                let rv = old(self).remote_memory_view();
                match first_holding(rv, process, address, data@.len()) {
                    Some(i) => {
                        let e = rv[i];
                        let offset = address - e.0.1;
                        &&& r == data@.len()
                        &&& final(self).last_error_view() == 0
                        &&& final(self).remote_memory_view() == rv.update(
                            i,
                            (e.0, e.1.subrange(0, offset) + data@ + e.1.subrange(offset + data@.len(), e.1.len() as int)),
                        )
                    },
                    None => r == 0 && final(self).last_error_view() == 299 && final(self).remote_memory_view() == rv,
                }
            }),
    {
        let ghost rv = remote_view(self.remote_memory@);
        let found = self.holding_index(process, address, data.len());
        let i: usize = match found {
            None => {
                self.last_error = 299;
                return 0;
            },
            Some(i) => i,
        };
        assert(rv[i as int] == (self.remote_memory@[i as int].0, self.remote_memory@[i as int].1@));
        let start = self.remote_memory[i].0.1;
        let offset = (address - start) as usize;
        let key = self.remote_memory[i].0;
        let mut region: Vec<u8> = Vec::new();
        std::mem::swap(&mut region, &mut self.remote_memory[i].1);
        let ghost original = region@;
        assert(offset + data@.len() <= region.len());
        let region = apply_write(region, offset, data, data.len());
        proof {
            let expected = original.subrange(0, offset as int) + data@ + original.subrange(offset + data@.len(), original.len() as int);
            assert(data@.subrange(0, data@.len() as int) =~= data@);
            if offset + data@.len() == original.len() {
                assert(original.subrange(offset + data@.len(), original.len() as int) =~= Seq::<u8>::empty());
            }
            assert(region@ =~= expected);
        }
        let ghost before = self.remote_memory@;
        self.remote_memory.set(i, (key, region));
        proof {
            let expected = original.subrange(0, offset as int) + data@ + original.subrange(offset + data@.len(), original.len() as int);
            assert(remote_view(self.remote_memory@) =~= rv.update(i as int, (key, expected)));
            assert forall|a: int, b: int| 0 <= a < b < self.remote_memory@.len() implies key_before(
                (#[trigger] self.remote_memory@[a]).0,
                (#[trigger] self.remote_memory@[b]).0,
            ) by {
                assert(key_before(old(self).remote_memory@[a].0, old(self).remote_memory@[b].0));
            }
        }
        self.last_error = 0;
        data.len()
    }

    /// The first region of `process` that holds `[address, address + len)`.
    fn holding_index(&self, process: u32, address: u32, len: usize) -> (r: Option<usize>)
        ensures
            match r {
                Some(i) => i < self.remote_memory@.len()
                    && remote_holds(self.remote_memory_view()[i as int], process, address, len as nat)
                    && first_holding(self.remote_memory_view(), process, address, len as nat) == Some(i as int),
                None => first_holding(self.remote_memory_view(), process, address, len as nat) is None,
            },
    {
        let ghost rv = remote_view(self.remote_memory@);
        let len32: u32 = (len as u64 % 0x1_0000_0000) as u32;
        let span_end = address.saturating_add(len32);
        let mut i: usize = 0;
        while i < self.remote_memory.len()
            invariant
                i <= self.remote_memory@.len(),
                rv == remote_view(self.remote_memory@),
                len32 == (len as nat) % 0x1_0000_0000,
                span_end == sat_end(address, len32 as int),
                forall|j: int| 0 <= j < i ==> !remote_holds(#[trigger] rv[j], process, address, len as nat),
            decreases self.remote_memory@.len() - i,
        {
            let start = self.remote_memory[i].0.1;
            let rlen = self.remote_memory[i].1.len();
            let region_end: u32 = if rlen > (u32::MAX - start) as usize { u32::MAX } else { start + rlen as u32 };
            assert(rv[i as int] == (self.remote_memory@[i as int].0, self.remote_memory@[i as int].1@));
            if self.remote_memory[i].0.0 == process && address >= start && span_end <= region_end {
                assert(remote_holds(rv[i as int], process, address, len as nat));
                proof {
                    lemma_first_holding(rv, process, address, len as nat, i as int);
                }
                return Some(i);
            }
            i = i + 1;
        }
        assert(!(exists|j: int| 0 <= j < rv.len() && remote_holds(#[trigger] rv[j], process, address, len as nat)));
        None
    }

    /// The non-empty files with their contents, in path order.
    pub fn file_snapshots(&self) -> (r: Vec<(&str, &[u8])>)
        ensures
            r@.len() == self.files_view().filter(|e: (Seq<char>, Seq<u8>)| e.1.len() > 0).len(),
            forall|k: int| 0 <= k < r@.len() ==> (#[trigger] r@[k]).0@ == self.files_view().filter(|e: (Seq<char>, Seq<u8>)| e.1.len() > 0)[k].0
                && r@[k].1@ == self.files_view().filter(|e: (Seq<char>, Seq<u8>)| e.1.len() > 0)[k].1,
    {
        let ghost fs = self.files_view();
        let mut out: Vec<(&str, &[u8])> = Vec::new();
        let mut i: usize = 0;
        while i < self.files.len()
            invariant
                i <= self.files@.len(),
                fs == store_view(self.files@),
                out@.len() == fs.subrange(0, i as int).filter(|e: (Seq<char>, Seq<u8>)| e.1.len() > 0).len(),
                forall|k: int| 0 <= k < out@.len() ==> (#[trigger] out@[k]).0@ == fs.subrange(0, i as int).filter(|e: (Seq<char>, Seq<u8>)| e.1.len() > 0)[k].0
                    && out@[k].1@ == fs.subrange(0, i as int).filter(|e: (Seq<char>, Seq<u8>)| e.1.len() > 0)[k].1,
            decreases self.files@.len() - i,
        {
            proof {
                fs.subrange(0, i as int).lemma_filter_push(fs[i as int], |e: (Seq<char>, Seq<u8>)| e.1.len() > 0);
                assert(fs.subrange(0, i + 1) =~= fs.subrange(0, i as int).push(fs[i as int]));
            }
            if self.files[i].1.len() > 0 {
                out.push((self.files[i].0.as_str(), self.files[i].1.as_slice()));
            }
            i = i + 1;
        }
        assert(fs.subrange(0, i as int) =~= fs);
        out
    }

    /// The regions written into other processes that hold a non-zero byte,
    /// by process and address.
    pub fn remote_snapshots(&self) -> (r: Vec<(u32, u32, &[u8])>)
        ensures
            r@.len() == self.remote_memory_view().filter(|e: ((u32, u32), Seq<u8>)| has_nonzero(e.1)).len(),
            forall|k: int| 0 <= k < r@.len() ==> {
                let e = self.remote_memory_view().filter(|e: ((u32, u32), Seq<u8>)| has_nonzero(e.1))[k];
                (#[trigger] r@[k]).0 == e.0.0 && r@[k].1 == e.0.1 && r@[k].2@ == e.1
            },
    {
        let ghost rv = self.remote_memory_view();
        let mut out: Vec<(u32, u32, &[u8])> = Vec::new();
        let mut i: usize = 0;
        while i < self.remote_memory.len()
            invariant
                i <= self.remote_memory@.len(),
                rv == remote_view(self.remote_memory@),
                out@.len() == rv.subrange(0, i as int).filter(|e: ((u32, u32), Seq<u8>)| has_nonzero(e.1)).len(),
                forall|k: int| 0 <= k < out@.len() ==> {
                    let e = rv.subrange(0, i as int).filter(|e: ((u32, u32), Seq<u8>)| has_nonzero(e.1))[k];
                    (#[trigger] out@[k]).0 == e.0.0 && out@[k].1 == e.0.1 && out@[k].2@ == e.1
                },
            decreases self.remote_memory@.len() - i,
        {
            proof {
                rv.subrange(0, i as int).lemma_filter_push(rv[i as int], |e: ((u32, u32), Seq<u8>)| has_nonzero(e.1));
                assert(rv.subrange(0, i + 1) =~= rv.subrange(0, i as int).push(rv[i as int]));
            }
            let bytes = &self.remote_memory[i].1;
            let mut nonzero = false;
            let mut j: usize = 0;
            while j < bytes.len()
                invariant
                    j <= bytes@.len(),
                    nonzero == exists|m: int| 0 <= m < j && #[trigger] bytes@[m] != 0,
                decreases bytes@.len() - j,
            {
                if bytes[j] != 0 {
                    nonzero = true;
                }
                j = j + 1;
            }
            assert(rv[i as int].1 == bytes@);
            if nonzero {
                out.push((self.remote_memory[i].0.0, self.remote_memory[i].0.1, bytes.as_slice()));
            }
            i = i + 1;
        }
        assert(rv.subrange(0, i as int) =~= rv);
        out
    }
}

/// A keyed store (files by path, registry values by key and name) gives back
/// what was last stored under a key, leaves every other key as it was, and
/// gives nothing for a key once it is deleted.
pub proof fn law_store_round_trip(s: Seq<(Seq<char>, Seq<u8>)>, key: Seq<char>, value: Seq<u8>, other: Seq<char>)
    requires
        distinct_keys(s),
        other != key,
    ensures
        lookup(stored(s, key, value), key) == Some(value),
        lookup(stored(s, key, value), other) == lookup(s, other),
        lookup(erased(s, key), key) is None,
        lookup(erased(s, key), other) == lookup(s, other),
{
    lemma_stored_distinct(s, key, value);
    lemma_erased_distinct(s, key);
}

/// Bytes written into a file at an offset are what a read of as many bytes
/// from that offset gives back, whichever handle reads them: the file holds
/// at least `offset + length` bytes afterwards, and those bytes are the first
/// `length` bytes of `data`; the bytes before `offset` are kept.
pub proof fn law_file_read_after_write(file: Seq<u8>, offset: nat, data: Seq<u8>, length: nat)
    requires
        length <= data.len(),
    ensures
        offset + length <= written_file(file, offset as int, data, length as int).len(),
        written_file(file, offset as int, data, length as int).subrange(offset as int, (offset + length) as int) == data.subrange(0, length as int),
        forall|j: int| 0 <= j < offset && j < file.len() ==> #[trigger] written_file(file, offset as int, data, length as int)[j] == file[j],
{
    let f = written_file(file, offset as int, data, length as int);
    let grown = if offset > file.len() { file + Seq::new((offset - file.len()) as nat, |i: int| 0u8) } else { file };
    assert(grown.len() >= offset);
    assert(f.subrange(offset as int, (offset + length) as int) =~= data.subrange(0, length as int));
    assert forall|j: int| 0 <= j < offset && j < file.len() implies #[trigger] f[j] == file[j] by {
        assert(grown[j] == file[j]);
    }
}

proof fn lemma_first_holding(rv: Seq<((u32, u32), Seq<u8>)>, process: u32, address: u32, len: nat, i: int)
    requires
        0 <= i < rv.len(),
        remote_holds(rv[i], process, address, len),
        forall|j: int| 0 <= j < i ==> !remote_holds(#[trigger] rv[j], process, address, len),
    ensures
        first_holding(rv, process, address, len) == Some(i),
{
    let k = choose|k: int| 0 <= k < rv.len() && remote_holds(#[trigger] rv[k], process, address, len)
        && forall|j: int| 0 <= j < k ==> !remote_holds(#[trigger] rv[j], process, address, len);
    if k < i {
        assert(!remote_holds(rv[k], process, address, len));
    } else if k > i {
        assert(!remote_holds(rv[i], process, address, len));
    }
}

} // verus!
