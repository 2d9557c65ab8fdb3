//! Sparse 32-bit guest memory: non-overlapping named regions with
//! read/write/execute permissions and bounded write tracking.
use vstd::prelude::*;
use vstd::slice::slice_subrange;

use crate::dynamic_error::DynamicError;
use crate::text::{push_char, utf8_lossy, utf16_lossy, lossy_utf8, lossy_utf16, terminated_prefix, lemma_terminated_prefix_stops};

verus! {

/// Upper bound on the bytes that a guest may map in total.
pub const HARD_MAX_MEMORY_BYTES: usize = 268435456;

/// The most write ranges a single 32-bit region remembers.
pub const MAX_WRITE_RANGES: usize = 256;

/// Access rights of a guest region.
#[derive(Debug, Clone, Copy, PartialEq, Eq, Structural)]
pub struct Permissions {
    pub read: bool,
    pub write: bool,
    pub execute: bool,
}

/// The three-character `rwx` rendering of a permission set.
pub open spec fn permissions_text(p: Permissions) -> Seq<char> {
    seq![
        if p.read { 'r' } else { '-' },
        if p.write { 'w' } else { '-' },
        if p.execute { 'x' } else { '-' },
    ]
}

impl Permissions {
    /// Readable only.
    pub fn read_only() -> (p: Permissions)
        ensures
            p == (Permissions { read: true, write: false, execute: false }),
    {
        Permissions { read: true, write: false, execute: false }
    }

    /// Readable and writable, not executable.
    pub fn read_write() -> (p: Permissions)
        ensures
            p == (Permissions { read: true, write: true, execute: false }),
    {
        Permissions { read: true, write: true, execute: false }
    }

    /// Renders the permissions as `r`/`w`/`x` or `-` in that order.
    pub fn display(self) -> (s: String)
        ensures
            s@ == permissions_text(self),
    {
        let mut s = String::new();
        push_char(&mut s, if self.read { 'r' } else { '-' });
        push_char(&mut s, if self.write { 'w' } else { '-' });
        push_char(&mut s, if self.execute { 'x' } else { '-' });
        s
    }
}

/// What a region holds, as mathematical values.
pub struct RegionView {
    pub start: u32,
    pub data: Seq<u8>,
    pub permissions: Permissions,
    pub name: Seq<char>,
    pub dirty: bool,
    pub write_ranges: Seq<(u32, u32)>,
}

/// First address past the region.
pub open spec fn region_end(r: RegionView) -> int {
    r.start + r.data.len()
}

/// `[address, address + length)` fits in 32 bits and lies inside the region.
pub open spec fn region_contains(r: RegionView, address: int, length: int) -> bool {
    &&& address + length <= u32::MAX
    &&& r.start <= address
    &&& address + length <= region_end(r)
}

/// `address` lies in the region (used by instruction fetch and snapshots).
pub open spec fn region_covers(r: RegionView, address: int) -> bool {
    r.start <= address < region_end(r)
}

/// A newly mapped region: zero-filled, clean, with no recorded writes.
pub open spec fn fresh_region(start: u32, size: nat, permissions: Permissions, name: Seq<char>) -> RegionView {
    RegionView {
        start,
        data: Seq::new(size, |j: int| 0u8),
        permissions,
        name,
        dirty: false,
        write_ranges: Seq::empty(),
    }
}

/// `after` is `before` with `r` inserted at position `k`.
pub open spec fn inserted_at(before: Seq<RegionView>, after: Seq<RegionView>, k: int, r: RegionView) -> bool {
    after == before.insert(k, r)
}

/// Index `i` is the first position of `s` whose region satisfies `p`.
pub open spec fn is_first(s: Seq<RegionView>, p: spec_fn(RegionView) -> bool, i: int) -> bool {
    &&& 0 <= i < s.len()
    &&& p(s[i])
    &&& forall|j: int| 0 <= j < i ==> !p(#[trigger] s[j])
}

/// Some region of `s` satisfies `p`.
pub open spec fn any_region(s: Seq<RegionView>, p: spec_fn(RegionView) -> bool) -> bool {
    exists|i: int| 0 <= i < s.len() && p(#[trigger] s[i])
}

/// Two first positions for the same predicate are the same position.
pub proof fn lemma_first_unique(s: Seq<RegionView>, p: spec_fn(RegionView) -> bool, i: int, j: int)
    requires
        is_first(s, p, i),
        is_first(s, p, j),
    ensures
        i == j,
{
    if i < j {
        assert(!p(s[i]));
    } else if j < i {
        assert(!p(s[j]));
    }
}

/// The byte that a one-byte read at `address` returns, if it succeeds.
pub open spec fn byte_at(m: Seq<RegionView>, address: int) -> Option<u8> {
    if any_region(m, readable(address, 1)) {
        let i = choose|i: int| is_first(m, readable(address, 1), i);
        Some(m[i].data[address - m[i].start])
    } else {
        None
    }
}

/// The little-endian unit that a two-byte read at `address` returns, if it succeeds.
pub open spec fn unit_at(m: Seq<RegionView>, address: int) -> Option<u16> {
    if any_region(m, readable(address, 2)) {
        let i = choose|i: int| is_first(m, readable(address, 2), i);
        Some(le_value(m[i].data.subrange(address - m[i].start, address - m[i].start + 2)) as u16)
    } else {
        None
    }
}

/// The little-endian value that a `count`-byte read at `address` returns, if it succeeds.
pub open spec fn value_at(m: Seq<RegionView>, address: int, count: int) -> Option<nat> {
    if any_region(m, readable(address, count)) {
        let i = choose|i: int| is_first(m, readable(address, count), i);
        Some(le_value(m[i].data.subrange(address - m[i].start, address - m[i].start + count)))
    } else {
        None
    }
}

/// A read found by its first readable region gives `value_at`.
pub proof fn lemma_value_at(m: Seq<RegionView>, address: int, count: int, i: int)
    requires
        is_first(m, readable(address, count), i),
    ensures
        value_at(m, address, count) == Some(le_value(m[i].data.subrange(address - m[i].start, address - m[i].start + count))),
{
    let k = choose|k: int| is_first(m, readable(address, count), k);
    lemma_first_unique(m, readable(address, count), i, k);
}

/// A single byte's little-endian value is the byte.
pub proof fn lemma_le_value_1(s: Seq<u8>)
    requires
        s.len() == 1,
    ensures
        le_value(s) == s[0],
{
    assert(s.subrange(1, 1) =~= Seq::<u8>::empty());
    assert(le_value(s.subrange(1, 1)) == 0);
}

/// The bytes of the NUL-terminated string at `address`: at most `max`
/// bytes, stopping before a NUL or an unreadable byte; addresses wrap at 2^32.
pub open spec fn c_string_bytes(m: Seq<RegionView>, address: u32, max: nat) -> Seq<u8> {
    terminated_prefix(
        |j: nat| byte_at(m, vstd::wrapping::u32_specs::wrapping_add(address, (j % 0x1_0000_0000) as u32) as int),
        0u8,
        max,
    )
}

/// The UTF-16 units of the NUL-terminated wide string at `address`: at most
/// `max` units, stopping before a zero or an unreadable unit; addresses wrap at 2^32.
pub open spec fn wide_string_units(m: Seq<RegionView>, address: u32, max: nat) -> Seq<u16> {
    terminated_prefix(
        |j: nat| unit_at(m, vstd::wrapping::u32_specs::wrapping_add(address, (2 * (j % 0x8000_0000)) as u32) as int),
        0u16,
        max,
    )
}

/// Regions are sorted by start, non-empty, disjoint and end within 32 bits.
pub open spec fn regions_wf(s: Seq<RegionView>) -> bool {
    &&& forall|i: int| 0 <= i < s.len() ==> 0 < (#[trigger] s[i]).data.len() && region_end(s[i]) <= u32::MAX
    &&& forall|i: int, j: int| 0 <= i < j < s.len() ==> region_end(#[trigger] s[i]) <= (#[trigger] s[j]).start
}

/// The sum of a sequence of sizes.
pub open spec fn sizes_sum(s: Seq<nat>) -> nat
    decreases s.len(),
{
    if s.len() == 0 {
        0
    } else {
        sizes_sum(s.drop_last()) + s.last()
    }
}

/// The bytes the regions hold together.
pub open spec fn total_size(s: Seq<RegionView>) -> nat {
    sizes_sum(s.map_values(|r: RegionView| r.data.len()))
}

/// Inserting a size adds it to the sum.
pub proof fn lemma_sizes_insert(s: Seq<nat>, k: int, v: nat)
    requires
        0 <= k <= s.len(),
    ensures
        sizes_sum(s.insert(k, v)) == sizes_sum(s) + v,
    decreases s.len(),
{
    if k == s.len() {
        assert(s.insert(k, v).drop_last() =~= s);
    } else {
        assert(s.insert(k, v).drop_last() =~= s.drop_last().insert(k, v));
        lemma_sizes_insert(s.drop_last(), k, v);
    }
}

/// Removing a size takes it off the sum.
pub proof fn lemma_sizes_remove(s: Seq<nat>, k: int)
    requires
        0 <= k < s.len(),
    ensures
        sizes_sum(s.remove(k)) + s[k] == sizes_sum(s),
{
    lemma_sizes_insert(s.remove(k), k, s[k]);
    assert(s.remove(k).insert(k, s[k]) =~= s);
}

/// Replacing a size by an equal one keeps the sum.
pub proof fn lemma_sizes_update(s: Seq<nat>, k: int, v: nat)
    requires
        0 <= k < s.len(),
        v == s[k],
    ensures
        sizes_sum(s.update(k, v)) == sizes_sum(s),
{
    assert(s.update(k, v) =~= s);
}

/// Inserting a region adds its size to the total.
pub proof fn lemma_total_insert(s: Seq<RegionView>, k: int, r: RegionView)
    requires
        0 <= k <= s.len(),
    ensures
        total_size(s.insert(k, r)) == total_size(s) + r.data.len(),
{
    assert(s.insert(k, r).map_values(|x: RegionView| x.data.len()) =~= s.map_values(|x: RegionView| x.data.len()).insert(
        k,
        r.data.len(),
    ));
    lemma_sizes_insert(s.map_values(|x: RegionView| x.data.len()), k, r.data.len());
}

/// Removing a region takes its size off the total.
pub proof fn lemma_total_remove(s: Seq<RegionView>, k: int)
    requires
        0 <= k < s.len(),
    ensures
        total_size(s.remove(k)) + s[k].data.len() == total_size(s),
{
    assert(s.remove(k).map_values(|x: RegionView| x.data.len()) =~= s.map_values(|x: RegionView| x.data.len()).remove(k));
    lemma_sizes_remove(s.map_values(|x: RegionView| x.data.len()), k);
}

/// Replacing a region by one of the same size keeps the total.
pub proof fn lemma_total_update(s: Seq<RegionView>, k: int, r: RegionView)
    requires
        0 <= k < s.len(),
        r.data.len() == s[k].data.len(),
    ensures
        total_size(s.update(k, r)) == total_size(s),
{
    assert(s.update(k, r).map_values(|x: RegionView| x.data.len()) =~= s.map_values(|x: RegionView| x.data.len()));
}

/// The predicate that a read of `length` bytes at `address` looks for.
pub open spec fn readable(address: int, length: int) -> spec_fn(RegionView) -> bool {
    |r: RegionView| region_contains(r, address, length) && r.permissions.read
}

/// The predicate that a write looks for (`force` ignores the write permission).
pub open spec fn writable(address: int, length: int, force: bool) -> spec_fn(RegionView) -> bool {
    |r: RegionView| region_contains(r, address, length) && (force || r.permissions.write)
}

/// The predicate that instruction fetch looks for.
pub open spec fn executable_at(address: int) -> spec_fn(RegionView) -> bool {
    |r: RegionView| region_covers(r, address) && r.permissions.execute
}

/// The predicate that a permission change looks for.
pub open spec fn containing(address: int, length: int) -> spec_fn(RegionView) -> bool {
    |r: RegionView| region_contains(r, address, length)
}

/// How the write ranges of a region change after a tracked write of `[address, end)`:
/// the last range absorbs it when it starts at or before the last range's end,
/// otherwise it is appended while fewer than the maximum are held.
pub open spec fn record_write(ranges: Seq<(u32, u32)>, address: u32, end: u32) -> Seq<(u32, u32)> {
    if ranges.len() > 0 && address <= ranges.last().1 {
        let last = ranges.last();
        ranges.update(
            ranges.len() - 1,
            (if last.0 <= address { last.0 } else { address }, if last.1 >= end { last.1 } else { end }),
        )
    } else if ranges.len() < MAX_WRITE_RANGES {
        ranges.push((address, end))
    } else {
        ranges
    }
}

/// The region after `bytes` were stored at `address` (tracked unless `force`).
pub open spec fn region_after_write(r: RegionView, address: u32, bytes: Seq<u8>, force: bool) -> RegionView {
    let offset = address - r.start;
    let data = r.data.subrange(0, offset) + bytes + r.data.subrange(offset + bytes.len(), r.data.len() as int);
    if !force && bytes.len() > 0 {
        RegionView {
            data,
            dirty: true,
            write_ranges: record_write(r.write_ranges, address, (address + bytes.len()) as u32),
            ..r
        }
    } else {
        RegionView { data, ..r }
    }
}

struct Region {
    start: u32,
    data: Vec<u8>,
    permissions: Permissions,
    name: String,
    dirty: bool,
    write_ranges: Vec<(u32, u32)>,
}

impl Region {
    spec fn view(&self) -> RegionView {
        RegionView {
            start: self.start,
            data: self.data@,
            permissions: self.permissions,
            name: self.name@,
            dirty: self.dirty,
            write_ranges: self.write_ranges@,
        }
    }

    fn end(&self) -> (e: u32)
        ensures
            e == if region_end(self.view()) <= u32::MAX { region_end(self.view()) } else { u32::MAX as int },
    {
        let len = self.data.len();
        if len > (u32::MAX - self.start) as usize {
            u32::MAX
        } else {
            self.start + len as u32
        }
    }

    fn contains(&self, address: u32, length: usize) -> (b: bool)
        requires
            region_end(self.view()) <= u32::MAX,
        ensures
            b == region_contains(self.view(), address as int, length as int),
    {
        if length > (u32::MAX - address) as usize {
            return false;
        }
        let end = address + length as u32;
        address >= self.start && end <= self.end()
    }
}

/// Guest memory of a 32-bit process.
pub struct Memory {
    regions: Vec<Region>,
    allocated: usize,
}

impl View for Memory {
    type V = Seq<RegionView>;

    closed spec fn view(&self) -> Seq<RegionView> {
        self.regions@.map_values(|r: Region| r.view())
    }
}

/// A borrowed view of one region, as reports and snapshots see it.
pub struct MemoryRegionView<'a> {
    pub start: u32,
    pub name: &'a str,
    pub permissions: Permissions,
    pub dirty: bool,
    pub data: &'a [u8],
}

impl Memory {
    /// Bytes mapped so far (minus those unmapped).
    pub closed spec fn allocated_bytes(&self) -> nat {
        self.allocated as nat
    }

    /// The memory is well formed: its regions satisfy `regions_wf`, and the
    /// bytes counted against the quota are those the regions hold.
    pub open spec fn wf(&self) -> bool {
        &&& regions_wf(self@)
        &&& self.allocated_bytes() == total_size(self@)
        &&& self.allocated_bytes() <= HARD_MAX_MEMORY_BYTES
    }

    /// An empty address space.
    pub fn new() -> (m: Memory)
        ensures
            m.wf(),
            m@ == Seq::<RegionView>::empty(),
            m.allocated_bytes() == 0,
    {
        let m = Memory { regions: Vec::new(), allocated: 0 };
        assert(m@ =~= Seq::<RegionView>::empty());
        m
    }

    fn find_index(&self, p: Ghost<spec_fn(RegionView) -> bool>, address: u32, length: usize, mode: u8, force: bool) -> (r: Option<usize>)
        requires
            self.wf(),
            mode == 0 ==> p@ == readable(address as int, length as int),
            mode == 1 ==> p@ == writable(address as int, length as int, force),
            mode == 2 ==> p@ == executable_at(address as int),
            mode == 3 ==> p@ == containing(address as int, length as int),
            mode <= 3,
        ensures
            match r {
                Some(i) => is_first(self@, p@, i as int),
                None => !any_region(self@, p@),
            },
    {
        let mut i: usize = 0;
        while i < self.regions.len()
            invariant
                self.wf(),
                i <= self.regions@.len(),
                mode == 0 ==> p@ == readable(address as int, length as int),
                mode == 1 ==> p@ == writable(address as int, length as int, force),
                mode == 2 ==> p@ == executable_at(address as int),
                mode == 3 ==> p@ == containing(address as int, length as int),
                mode <= 3,
                forall|j: int| 0 <= j < i ==> !p@(#[trigger] self@[j]),
            decreases self.regions@.len() - i,
        {
            let region = &self.regions[i];
            assert(self@[i as int] == region.view());
            let found = if mode == 0 {
                region.contains(address, length) && region.permissions.read
            } else if mode == 1 {
                region.contains(address, length) && (force || region.permissions.write)
            } else if mode == 2 {
                address >= region.start && address < region.end() && region.permissions.execute
            } else {
                region.contains(address, length)
            };
            if found {
                return Some(i);
            }
            i = i + 1;
        }
        None
    }

    /// What mapping `size` bytes at `start` does: `MemoryLimit` when `size`
    /// is zero, the total would pass the hard limit or the region would pass
    /// the 32-bit address space; `OverlappingRegion` when it meets a mapped
    /// region; otherwise a fresh zero-filled region is inserted in address
    /// order. A failure changes nothing.
    pub open spec fn map_outcome(
        before: Memory,
        after: Memory,
        start: u32,
        size: usize,
        permissions: Permissions,
        name: Seq<char>,
        r: Result<(), DynamicError>,
    ) -> bool {
        &&& after.wf()
        &&& (size == 0 || before.allocated_bytes() + size > HARD_MAX_MEMORY_BYTES || start + size > u32::MAX)
            ==> r == Err::<(), DynamicError>(DynamicError::MemoryLimit) && after@ == before@
        &&& !(size == 0 || before.allocated_bytes() + size > HARD_MAX_MEMORY_BYTES || start + size > u32::MAX) ==> {
            let overlaps = exists|i: int| 0 <= i < before@.len()
                && start < region_end(#[trigger] before@[i]) && start + size > before@[i].start;
            &&& overlaps ==> r == Err::<(), DynamicError>(DynamicError::OverlappingRegion { address: start as u64 })
                && after@ == before@ && after.allocated_bytes() == before.allocated_bytes()
            &&& !overlaps ==> r is Ok && after.allocated_bytes() == before.allocated_bytes() + size
                && exists|k: int| 0 <= k <= before@.len() && #[trigger] inserted_at(before@, after@, k,
                    fresh_region(start, size as nat, permissions, name))
        }
        &&& r is Err ==> after@ == before@ && after.allocated_bytes() == before.allocated_bytes()
    }

    /// Maps a zero-filled region of `size` bytes at `start`.
    ///
    /// Fails with `MemoryLimit` when `size` is zero, the total would exceed
    /// the hard limit, or the region would pass the 32-bit address space;
    /// with `OverlappingRegion` when it intersects a mapped region.
    pub fn map(&mut self, start: u32, size: usize, permissions: Permissions, name: String) -> (r: Result<(), DynamicError>)
        requires
            old(self).wf(),
        ensures
            Self::map_outcome(*old(self), *final(self), start, size, permissions, name@, r),
    {
        if size == 0 || size > HARD_MAX_MEMORY_BYTES || self.allocated > HARD_MAX_MEMORY_BYTES - size {
            return Err(DynamicError::MemoryLimit);
        }
        if size > (u32::MAX - start) as usize {
            return Err(DynamicError::MemoryLimit);
        }
        let end: u32 = start + size as u32;
        let mut i: usize = 0;
        let mut insert_at: usize = 0;
        while i < self.regions.len()
            invariant
                self.wf(),
                self@ == old(self)@,
                self.allocated == old(self).allocated,
                !(size == 0 || old(self).allocated_bytes() + size > HARD_MAX_MEMORY_BYTES || start + size > u32::MAX),
                i <= self.regions@.len(),
                insert_at <= i,
                end == start + size,
                forall|j: int| 0 <= j < i ==> !(start < region_end(#[trigger] self@[j]) && end > self@[j].start),
                forall|j: int| 0 <= j < insert_at ==> (#[trigger] self@[j]).start < start,
                forall|j: int| insert_at <= j < i ==> (#[trigger] self@[j]).start >= start,
            decreases self.regions@.len() - i,
        {
            let region = &self.regions[i];
            assert(self@[i as int] == region.view());
            if start < region.end() && end > region.start {
                assert(!(size == 0 || old(self).allocated_bytes() + size > HARD_MAX_MEMORY_BYTES || start + size > u32::MAX));
                assert(start < region_end(self@[i as int]) && start + size > self@[i as int].start);
                return Err(DynamicError::OverlappingRegion { address: start as u64 });
            }
            if region.start < start {
                insert_at = i + 1;
            }
            i = i + 1;
        }
        let data: Vec<u8> = vec![0u8; size];
        let region = Region {
            start,
            data,
            permissions,
            name,
            dirty: false,
            write_ranges: Vec::new(),
        };
        let ghost old_view = self@;
        let ghost new_region = fresh_region(start, size as nat, permissions, region.name@);
        assert(region.data@ =~= Seq::new(size as nat, |j: int| 0u8));
        assert(region.view() == new_region);
        self.regions.insert(insert_at, region);
        self.allocated = self.allocated + size;
        assert(self@ =~= old_view.insert(insert_at as int, new_region));
        proof {
            lemma_total_insert(old_view, insert_at as int, new_region);
        }
        assert(inserted_at(old_view, self@, insert_at as int, new_region));
        proof {
            assert forall|a: int, b: int| 0 <= a < b < self@.len() implies region_end(#[trigger] self@[a]) <= (#[trigger] self@[b]).start by {
                if a < insert_at && b < insert_at {
                    assert(self@[a] == old_view[a] && self@[b] == old_view[b]);
                } else if a < insert_at && b == insert_at {
                    assert(self@[a] == old_view[a]);
                    assert(old_view[a].start < start);
                } else if a < insert_at {
                    assert(self@[a] == old_view[a] && self@[b] == old_view[b - 1]);
                    if a < b - 1 {
                    } 
                } else if a == insert_at {
                    assert(self@[b] == old_view[b - 1]);
                    assert(old_view[b - 1].start >= start);
                } else {
                    assert(self@[a] == old_view[a - 1] && self@[b] == old_view[b - 1]);
                }
            }
        }
        Ok(())
    }

    /// Reads `length` bytes at `address` from the first readable region
    /// that contains all of them.
    pub fn read(&self, address: u32, length: usize) -> (r: Result<&[u8], DynamicError>)
        requires
            self.wf(),
        ensures
            any_region(self@, readable(address as int, length as int)) <==> r is Ok,
            r is Err ==> r == Err::<&[u8], DynamicError>(DynamicError::MemoryRead { address: address as u64 }),
            r matches Ok(bytes) ==> exists|i: int| is_first(self@, readable(address as int, length as int), i)
                && bytes@ == self@[i].data.subrange(address - self@[i].start, address - self@[i].start + length),
    {
        match self.find_index(Ghost(readable(address as int, length as int)), address, length, 0, false) {
            Some(i) => {
                let region = &self.regions[i];
                assert(self@[i as int] == region.view());
                let offset = (address - region.start) as usize;
                Ok(slice_subrange(region.data.as_slice(), offset, offset + length))
            },
            None => Err(DynamicError::MemoryRead { address: address as u64 }),
        }
    }

    /// Up to `max_length` bytes starting at `address` from the first
    /// executable region that holds `address`.
    pub fn fetch(&self, address: u32, max_length: usize) -> (r: Result<&[u8], DynamicError>)
        requires
            self.wf(),
        ensures
            any_region(self@, executable_at(address as int)) <==> r is Ok,
            r is Err ==> r == Err::<&[u8], DynamicError>(DynamicError::MemoryExecute { address: address as u64 }),
            r matches Ok(bytes) ==> exists|i: int| is_first(self@, executable_at(address as int), i) && {
                let offset = address - self@[i].start;
                let end = if offset + max_length <= self@[i].data.len() { offset + max_length } else { self@[i].data.len() as int };
                bytes@ == self@[i].data.subrange(offset, end)
            },
    {
        match self.find_index(Ghost(executable_at(address as int)), address, 0, 2, false) {
            Some(i) => {
                let region = &self.regions[i];
                assert(self@[i as int] == region.view());
                let offset = (address - region.start) as usize;
                let end = if max_length <= region.data.len() - offset { offset + max_length } else { region.data.len() };
                Ok(slice_subrange(region.data.as_slice(), offset, end))
            },
            None => Err(DynamicError::MemoryExecute { address: address as u64 }),
        }
    }

    /// Stores `data` at `address` in the first writable region holding it,
    /// marking the region dirty and recording the written range.
    pub fn write(&mut self, address: u32, data: &[u8]) -> (r: Result<(), DynamicError>)
        requires
            old(self).wf(),
        ensures
            final(self).wf(),
            final(self).allocated_bytes() == old(self).allocated_bytes(),
            Self::write_outcome(old(self)@, final(self)@, address, data@, false, r),
    {
        self.write_inner(address, data, false)
    }

    /// Stores `data` regardless of the write permission and without
    /// recording it as guest activity (used by the loader).
    pub fn write_force(&mut self, address: u32, data: &[u8]) -> (r: Result<(), DynamicError>)
        requires
            old(self).wf(),
        ensures
            final(self).wf(),
            final(self).allocated_bytes() == old(self).allocated_bytes(),
            Self::write_outcome(old(self)@, final(self)@, address, data@, true, r),
    {
        self.write_inner(address, data, true)
    }

    /// The relation between memory before and after a write of `bytes` at `address`.
    pub open spec fn write_outcome(
        before: Seq<RegionView>,
        after: Seq<RegionView>,
        address: u32,
        bytes: Seq<u8>,
        force: bool,
        r: Result<(), DynamicError>,
    ) -> bool {
        let p = writable(address as int, bytes.len() as int, force);
        &&& any_region(before, p) <==> r is Ok
        &&& r is Err ==> r == Err::<(), DynamicError>(DynamicError::MemoryWrite { address: address as u64 }) && after == before
        &&& r is Ok ==> exists|i: int| is_first(before, p, i)
            && after == before.update(i, region_after_write(before[i], address, bytes, force))
    }

    fn write_inner(&mut self, address: u32, data: &[u8], force: bool) -> (r: Result<(), DynamicError>)
        requires
            old(self).wf(),
        ensures
            final(self).wf(),
            final(self).allocated_bytes() == old(self).allocated_bytes(),
            Self::write_outcome(old(self)@, final(self)@, address, data@, force, r),
    {
        let ghost p = writable(address as int, data@.len() as int, force);
        match self.find_index(Ghost(p), address, data.len(), 1, force) {
            None => Err(DynamicError::MemoryWrite { address: address as u64 }),
            Some(i) => {
                let ghost before = self@;
                let ghost old_region = self@[i as int];
                let region = &mut self.regions[i];
                let offset = (address - region.start) as usize;
                assert(offset + data@.len() <= region.data.len());
                let mut k: usize = 0;
                while k < data.len()
                    invariant
                        offset + data@.len() <= region.data@.len(),
                        region.data@.len() <= usize::MAX,
                        k <= data@.len(),
                        region.data@.len() == old_region.data.len(),
                        forall|j: int| 0 <= j < offset ==> region.data@[j] == old_region.data[j],
                        forall|j: int| offset + data@.len() <= j < region.data@.len() ==> region.data@[j] == old_region.data[j],
                        forall|j: int| 0 <= j < k ==> region.data@[offset + j] == data@[j],
                        region.start == old_region.start,
                        region.view().permissions == old_region.permissions,
                        region.view().name == old_region.name,
                        region.view().dirty == old_region.dirty,
                        region.view().write_ranges == old_region.write_ranges,
                        offset == address - old_region.start,
                    decreases data@.len() - k,
                {
                    region.data.set(offset + k, data[k]);
                    k = k + 1;
                }
                let ghost new_data = old_region.data.subrange(0, offset as int) + data@
                    + old_region.data.subrange(offset + data@.len(), old_region.data.len() as int);
                assert(region.data@ =~= new_data);
                if !force && data.len() > 0 {
                    region.dirty = true;
                    let end: u32 = address + data.len() as u32;
                    let count = region.write_ranges.len();
                    if count > 0 && address <= region.write_ranges[count - 1].1 {
                        let (last_start, last_end) = region.write_ranges[count - 1];
                        let merged = (
                            if last_start <= address { last_start } else { address },
                            if last_end >= end { last_end } else { end },
                        );
                        region.write_ranges.set(count - 1, merged);
                    } else if count < MAX_WRITE_RANGES {
                        region.write_ranges.push((address, end));
                    }
                }
                proof {
                    assert(self.regions@[i as int].view() == region_after_write(old_region, address, data@, force));
                    assert(self@ =~= before.update(i as int, region_after_write(old_region, address, data@, force)));
                    lemma_total_update(before, i as int, region_after_write(old_region, address, data@, force));
                }
                Ok(())
            },
        }
    }

    /// Reads one byte.
    pub fn read_u8(&self, address: u32) -> (r: Result<u8, DynamicError>)
        requires
            self.wf(),
        ensures
            any_region(self@, readable(address as int, 1)) <==> r is Ok,
            r is Err ==> r == Err::<u8, DynamicError>(DynamicError::MemoryRead { address: address as u64 }),
            r matches Ok(v) ==> exists|i: int| is_first(self@, readable(address as int, 1), i)
                && v == self@[i].data[address - self@[i].start],
    {
        let bytes = self.read(address, 1)?;
        Ok(bytes[0])
    }

    /// Reads a little-endian 16-bit value.
    pub fn read_u16(&self, address: u32) -> (r: Result<u16, DynamicError>)
        requires
            self.wf(),
        ensures
            any_region(self@, readable(address as int, 2)) <==> r is Ok,
            r is Err ==> r == Err::<u16, DynamicError>(DynamicError::MemoryRead { address: address as u64 }),
            r matches Ok(v) ==> exists|i: int| is_first(self@, readable(address as int, 2), i)
                && v == le_value(self@[i].data.subrange(address - self@[i].start, address - self@[i].start + 2)),
    {
        let bytes = self.read(address, 2)?;
        proof {
            lemma_le_value_2(bytes@);
        }
        Ok(bytes[0] as u16 + 256 * (bytes[1] as u16))
    }

    /// Reads a little-endian 32-bit value.
    pub fn read_u32(&self, address: u32) -> (r: Result<u32, DynamicError>)
        requires
            self.wf(),
        ensures
            any_region(self@, readable(address as int, 4)) <==> r is Ok,
            r is Err ==> r == Err::<u32, DynamicError>(DynamicError::MemoryRead { address: address as u64 }),
            r matches Ok(v) ==> exists|i: int| is_first(self@, readable(address as int, 4), i)
                && v == le_value(self@[i].data.subrange(address - self@[i].start, address - self@[i].start + 4)),
    {
        let bytes = self.read(address, 4)?;
        Ok(le_u32(bytes))
    }

    /// The NUL-terminated string at `address`, read byte by byte up to `max`
    /// bytes and decoded as lossy UTF-8.
    pub fn read_c_string(&self, address: u32, max: usize) -> (r: String)
        requires
            self.wf(),
        ensures
            r@ == lossy_utf8(c_string_bytes(self@, address, max as nat)),
            crate::text::all_ascii(c_string_bytes(self@, address, max as nat))
                ==> r@ == c_string_bytes(self@, address, max as nat).map_values(|b: u8| b as char),
    {
        let ghost at = |j: nat| byte_at(self@, vstd::wrapping::u32_specs::wrapping_add(address, (j % 0x1_0000_0000) as u32) as int);
        let mut result: Vec<u8> = Vec::new();
        let mut index: usize = 0;
        while index < max
            invariant
                self.wf(),
                index <= max,
                at == (|j: nat| byte_at(self@, vstd::wrapping::u32_specs::wrapping_add(address, (j % 0x1_0000_0000) as u32) as int)),
                result@ == terminated_prefix(at, 0u8, index as nat),
                result@.len() == index,
            ensures
                result@ == terminated_prefix(at, 0u8, max as nat),
            decreases max - index,
        {
            let step: u32 = (index as u64 % 0x1_0000_0000) as u32;
            let pointer = address.wrapping_add(step);
            let got = self.read_u8(pointer);
            proof {
                assert(at(index as nat) == byte_at(self@, pointer as int));
                if let Ok(v) = got {
                    let i = choose|i: int| is_first(self@, readable(pointer as int, 1), i) && v == self@[i].data[pointer - self@[i].start];
                    let k = choose|k: int| is_first(self@, readable(pointer as int, 1), k);
                    lemma_first_unique(self@, readable(pointer as int, 1), i, k);
                }
            }
            match got {
                Ok(v) => {
                    if v == 0 {
                        proof {
                            lemma_terminated_prefix_stops(at, 0u8, (index + 1) as nat, max as nat);
                        }
                        break;
                    }
                    result.push(v);
                },
                Err(_) => {
                    proof {
                        lemma_terminated_prefix_stops(at, 0u8, (index + 1) as nat, max as nat);
                    }
                    break;
                },
            }
            index = index + 1;
        }
        utf8_lossy(result.as_slice())
    }

    /// The NUL-terminated UTF-16 string at `address`, read unit by unit up to
    /// `max` units and decoded lossily.
    pub fn read_wide_string(&self, address: u32, max: usize) -> (r: String)
        requires
            self.wf(),
        ensures
            r@ == lossy_utf16(wide_string_units(self@, address, max as nat)),
            crate::text::all_bmp_scalars(wide_string_units(self@, address, max as nat))
                ==> r@ == wide_string_units(self@, address, max as nat).map_values(|u: u16| u as char),
    {
        let ghost at = |j: nat| unit_at(self@, vstd::wrapping::u32_specs::wrapping_add(address, (2 * (j % 0x8000_0000)) as u32) as int);
        let mut result: Vec<u16> = Vec::new();
        let mut index: usize = 0;
        while index < max
            invariant
                self.wf(),
                index <= max,
                at == (|j: nat| unit_at(self@, vstd::wrapping::u32_specs::wrapping_add(address, (2 * (j % 0x8000_0000)) as u32) as int)),
                result@ == terminated_prefix(at, 0u16, index as nat),
                result@.len() == index,
            ensures
                result@ == terminated_prefix(at, 0u16, max as nat),
            decreases max - index,
        {
            let half: u32 = (index as u64 % 0x8000_0000) as u32;
            let pointer = address.wrapping_add(half * 2);
            let got = self.read_u16(pointer);
            proof {
                assert(at(index as nat) == unit_at(self@, pointer as int));
                if let Ok(v) = got {
                    let i = choose|i: int| is_first(self@, readable(pointer as int, 2), i)
                        && v == le_value(self@[i].data.subrange(pointer - self@[i].start, pointer - self@[i].start + 2));
                    let k = choose|k: int| is_first(self@, readable(pointer as int, 2), k);
                    lemma_first_unique(self@, readable(pointer as int, 2), i, k);
                }
            }
            match got {
                Ok(v) => {
                    if v == 0 {
                        proof {
                            lemma_terminated_prefix_stops(at, 0u16, (index + 1) as nat, max as nat);
                        }
                        break;
                    }
                    result.push(v);
                },
                Err(_) => {
                    proof {
                        lemma_terminated_prefix_stops(at, 0u16, (index + 1) as nat, max as nat);
                    }
                    break;
                },
            }
            index = index + 1;
        }
        utf16_lossy(result.as_slice())
    }

    /// Writes one byte.
    pub fn write_u8(&mut self, address: u32, value: u8) -> (r: Result<(), DynamicError>)
        requires
            old(self).wf(),
        ensures
            final(self).wf(),
            final(self).allocated_bytes() == old(self).allocated_bytes(),
            Self::write_outcome(old(self)@, final(self)@, address, seq![value], false, r),
    {
        let bytes: [u8; 1] = [value];
        assert(bytes@ =~= seq![value]);
        self.write(address, &bytes)
    }

    /// Writes a little-endian 16-bit value.
    pub fn write_u16(&mut self, address: u32, value: u16) -> (r: Result<(), DynamicError>)
        requires
            old(self).wf(),
        ensures
            final(self).wf(),
            final(self).allocated_bytes() == old(self).allocated_bytes(),
            Self::write_outcome(old(self)@, final(self)@, address, le_bytes(value as nat, 2), false, r),
    {
        let bytes = to_le_bytes_u64(value as u64, 2);
        self.write(address, bytes.as_slice())
    }

    /// Writes a little-endian 32-bit value.
    pub fn write_u32(&mut self, address: u32, value: u32) -> (r: Result<(), DynamicError>)
        requires
            old(self).wf(),
        ensures
            final(self).wf(),
            final(self).allocated_bytes() == old(self).allocated_bytes(),
            Self::write_outcome(old(self)@, final(self)@, address, le_bytes(value as nat, 4), false, r),
    {
        let bytes = to_le_bytes_u64(value as u64, 4);
        self.write(address, bytes.as_slice())
    }

    /// What changing the permissions of `[address, address + size)` does:
    /// the first region holding the range gets `permissions`; `MemoryWrite`
    /// and no change when none holds it.
    pub open spec fn permissions_outcome(
        before: Memory,
        after: Memory,
        address: u32,
        size: usize,
        permissions: Permissions,
        r: Result<(), DynamicError>,
    ) -> bool {
        &&& after.wf()
        &&& after.allocated_bytes() == before.allocated_bytes()
        &&& any_region(before@, containing(address as int, size as int)) <==> r is Ok
        &&& r is Err ==> r == Err::<(), DynamicError>(DynamicError::MemoryWrite { address: address as u64 }) && after@ == before@
        &&& r is Ok ==> exists|i: int| is_first(before@, containing(address as int, size as int), i)
            && after@ == before@.update(i, RegionView { permissions, ..before@[i] })
    }

    /// Changes the permissions of the first region that holds
    /// `[address, address + size)`.
    pub fn set_permissions(&mut self, address: u32, size: usize, permissions: Permissions) -> (r: Result<(), DynamicError>)
        requires
            old(self).wf(),
        ensures
            Self::permissions_outcome(*old(self), *final(self), address, size, permissions, r),
    {
        match self.find_index(Ghost(containing(address as int, size as int)), address, size, 3, false) {
            None => Err(DynamicError::MemoryWrite { address: address as u64 }),
            Some(i) => {
                let ghost before = self@;
                let region = &mut self.regions[i];
                region.permissions = permissions;
                assert(self@ =~= before.update(i as int, RegionView { permissions, ..before[i as int] }));
                proof {
                    lemma_total_update(before, i as int, RegionView { permissions, ..before[i as int] });
                }
                Ok(())
            },
        }
    }

    /// Removes the region that starts exactly at `address`.
    pub fn unmap(&mut self, address: u32) -> (removed: bool)
        requires
            old(self).wf(),
        ensures
            final(self).wf(),
            removed <==> exists|i: int| 0 <= i < old(self)@.len() && (#[trigger] old(self)@[i]).start == address,
            !removed ==> final(self)@ == old(self)@ && final(self).allocated_bytes() == old(self).allocated_bytes(),
            removed ==> exists|i: int| 0 <= i < old(self)@.len() && old(self)@[i].start == address
                && final(self)@ == old(self)@.remove(i)
                && final(self).allocated_bytes() == if old(self).allocated_bytes() >= old(self)@[i].data.len() {
                    old(self).allocated_bytes() - old(self)@[i].data.len()
                } else {
                    0
                },
    {
        let mut i: usize = 0;
        while i < self.regions.len()
            invariant
                self.wf(),
                self@ == old(self)@,
                self.allocated == old(self).allocated,
                i <= self.regions@.len(),
                forall|j: int| 0 <= j < i ==> (#[trigger] self@[j]).start != address,
            decreases self.regions@.len() - i,
        {
            assert(self@[i as int] == self.regions@[i as int].view());
            if self.regions[i].start == address {
                let ghost before = self@;
                let region = self.regions.remove(i);
                assert(before[i as int] == region.view());
                proof {
                    lemma_total_remove(before, i as int);
                }
                self.allocated = if self.allocated >= region.data.len() { self.allocated - region.data.len() } else { 0 };
                assert(self@ =~= before.remove(i as int));
                return true;
            }
            i = i + 1;
        }
        false
    }

    /// The region holding `address`, as a borrowed view.
    pub fn snapshot(&self, address: u32) -> (r: Option<MemoryRegionView<'_>>)
        requires
            self.wf(),
        ensures
            r is Some <==> exists|i: int| 0 <= i < self@.len() && region_covers(#[trigger] self@[i], address as int),
            r matches Some(v) ==> exists|i: int| 0 <= i < self@.len() && region_covers(self@[i], address as int)
                && v.start == self@[i].start && v.name@ == self@[i].name && v.permissions == self@[i].permissions
                && v.dirty == self@[i].dirty && v.data@ == self@[i].data,
    {
        let mut i: usize = 0;
        while i < self.regions.len()
            invariant
                self.wf(),
                i <= self.regions@.len(),
                forall|j: int| 0 <= j < i ==> !region_covers(#[trigger] self@[j], address as int),
            decreases self.regions@.len() - i,
        {
            let region = &self.regions[i];
            assert(self@[i as int] == region.view());
            if address >= region.start && address < region.end() {
                return Some(MemoryRegionView {
                    start: region.start,
                    name: region.name.as_str(),
                    permissions: region.permissions,
                    dirty: region.dirty,
                    data: region.data.as_slice(),
                });
            }
            i = i + 1;
        }
        None
    }

    /// Whether some recorded write range of some region holds `address`.
    pub fn was_written(&self, address: u32) -> (b: bool)
        requires
            self.wf(),
        ensures
            b == written_in(self@, address),
    {
        let mut i: usize = 0;
        while i < self.regions.len()
            invariant
                i <= self.regions@.len(),
                forall|j: int, k: int| 0 <= j < i && 0 <= k < self@[j].write_ranges.len() ==>
                    !(#[trigger] self@[j].write_ranges[k].0 <= address < self@[j].write_ranges[k].1),
            decreases self.regions@.len() - i,
        {
            let region = &self.regions[i];
            assert(self@[i as int] == region.view());
            let mut k: usize = 0;
            while k < region.write_ranges.len()
                invariant
                    i < self@.len(),
                    self@[i as int] == region.view(),
                    k <= region.write_ranges@.len(),
                    forall|m: int| 0 <= m < k ==> !(#[trigger] region.write_ranges@[m].0 <= address < region.write_ranges@[m].1),
                decreases region.write_ranges@.len() - k,
            {
                let (start, end) = region.write_ranges[k];
                if address >= start && address < end {
                    assert(self@[i as int].write_ranges[k as int].0 <= address < self@[i as int].write_ranges[k as int].1);
                    return true;
                }
                k = k + 1;
            }
            i = i + 1;
        }
        false
    }

    /// Borrowed views of the regions that the guest has written, in address order.
    pub fn dirty_regions(&self) -> (r: Vec<MemoryRegionView<'_>>)
        requires
            self.wf(),
        ensures
            r@.len() == self@.filter(|v: RegionView| v.dirty).len(),
            forall|k: int| 0 <= k < r@.len() ==> {
                let v = self@.filter(|v: RegionView| v.dirty)[k];
                &&& (#[trigger] r@[k]).start == v.start
                &&& r@[k].name@ == v.name
                &&& r@[k].permissions == v.permissions
                &&& r@[k].dirty
                &&& r@[k].data@ == v.data
            },
    {
        let mut out: Vec<MemoryRegionView<'_>> = Vec::new();
        let mut i: usize = 0;
        while i < self.regions.len()
            invariant
                i <= self.regions@.len(),
                out@.len() == self@.subrange(0, i as int).filter(|v: RegionView| v.dirty).len(),
                forall|k: int| 0 <= k < out@.len() ==> {
                    let v = self@.subrange(0, i as int).filter(|v: RegionView| v.dirty)[k];
                    &&& (#[trigger] out@[k]).start == v.start
                    &&& out@[k].name@ == v.name
                    &&& out@[k].permissions == v.permissions
                    &&& out@[k].dirty
                    &&& out@[k].data@ == v.data
                },
            decreases self.regions@.len() - i,
        {
            let region = &self.regions[i];
            assert(self@[i as int] == region.view());
            assert(self@.subrange(0, i + 1) == self@.subrange(0, i as int).push(self@[i as int]));
            proof {
                self@.subrange(0, i as int).lemma_filter_push(self@[i as int], |v: RegionView| v.dirty);
            }
            if region.dirty {
                out.push(MemoryRegionView {
                    start: region.start,
                    name: region.name.as_str(),
                    permissions: region.permissions,
                    dirty: true,
                    data: region.data.as_slice(),
                });
            }
            i = i + 1;
        }
        assert(self@.subrange(0, self@.len() as int) == self@);
        out
    }
}

impl Default for Memory {
    fn default() -> (m: Memory)
        ensures
            m.wf(),
            m@ == Seq::<RegionView>::empty(),
            m.allocated_bytes() == 0,
    {
        Memory::new()
    }
}

/// Read-after-write: once `bytes` were written at `address` into a readable
/// region, reading `bytes.len()` bytes at `address` succeeds and yields `bytes`.
pub proof fn law_read_after_write(
    before: Seq<RegionView>,
    after: Seq<RegionView>,
    address: u32,
    bytes: Seq<u8>,
    force: bool,
    r: Result<(), DynamicError>,
    target: int,
)
    requires
        regions_wf(before),
        regions_wf(after),
        Memory::write_outcome(before, after, address, bytes, force, r),
        r is Ok,
        bytes.len() > 0,
        is_first(before, writable(address as int, bytes.len() as int, force), target),
        before[target].permissions.read,
    ensures
        any_region(after, readable(address as int, bytes.len() as int)),
        forall|j: int| is_first(after, readable(address as int, bytes.len() as int), j) ==>
            after[j].data.subrange(address - after[j].start, address - after[j].start + bytes.len()) == bytes,
{
    let p = writable(address as int, bytes.len() as int, force);
    let i = choose|i: int| is_first(before, p, i) && after == before.update(i, region_after_write(before[i], address, bytes, force));
    if i != target {
        if i < target {
            assert(!p(before[i]));
        } else {
            assert(!p(before[target]));
        }
    }
    let w = after[i];
    let offset = address - before[i].start;
    assert(w.data.subrange(offset, offset + bytes.len()) =~= bytes);
    assert(readable(address as int, bytes.len() as int)(after[i]));
    assert forall|j: int| is_first(after, readable(address as int, bytes.len() as int), j) implies
        after[j].data.subrange(address - after[j].start, address - after[j].start + bytes.len()) == bytes by {
        if j != i {
            if j < i {
                assert(region_end(after[j]) <= after[i].start);
            } else {
                assert(region_end(after[i]) <= after[j].start);
            }
        }
    }
}

/// A tracked write of a non-empty run records its first address as written,
/// unless the target region already holds the maximum number of separate ranges.
pub proof fn law_write_is_recorded(
    before: Seq<RegionView>,
    after: Seq<RegionView>,
    address: u32,
    bytes: Seq<u8>,
    r: Result<(), DynamicError>,
    target: int,
)
    requires
        Memory::write_outcome(before, after, address, bytes, false, r),
        r is Ok,
        bytes.len() > 0,
        is_first(before, writable(address as int, bytes.len() as int, false), target),
        before[target].write_ranges.len() < MAX_WRITE_RANGES,
    ensures
        written_in(after, address),
{
    let p = writable(address as int, bytes.len() as int, false);
    let i = choose|i: int| is_first(before, p, i) && after == before.update(i, region_after_write(before[i], address, bytes, false));
    if i != target {
        if i < target {
            assert(!p(before[i]));
        } else {
            assert(!p(before[target]));
        }
    }
    let ranges = after[i].write_ranges;
    let k = ranges.len() - 1;
    assert(ranges[k].0 <= address < ranges[k].1);
}

/// Some recorded write range of some region holds `address`.
pub open spec fn written_in(s: Seq<RegionView>, address: u32) -> bool {
    exists|j: int, k: int| 0 <= j < s.len() && 0 <= k < s[j].write_ranges.len()
        && #[trigger] s[j].write_ranges[k].0 <= address < s[j].write_ranges[k].1
}

/// Little-endian value of a byte sequence.
pub open spec fn le_value(bytes: Seq<u8>) -> nat
    decreases bytes.len(),
{
    if bytes.len() == 0 {
        0
    } else {
        bytes[0] as nat + 256 * le_value(bytes.subrange(1, bytes.len() as int))
    }
}

/// The `count` low bytes of `value`, least significant first.
pub open spec fn le_bytes(value: nat, count: nat) -> Seq<u8>
    decreases count,
{
    if count == 0 {
        Seq::empty()
    } else {
        seq![(value % 256) as u8] + le_bytes(value / 256, (count - 1) as nat)
    }
}

/// Encodes the low `count` bytes of `value` in little-endian order.
pub fn to_le_bytes_u64(value: u64, count: usize) -> (v: Vec<u8>)
    requires
        count <= 8,
    ensures
        v@ == le_bytes(value as nat, count as nat),
        v@.len() == count,
{
    let mut out: Vec<u8> = Vec::new();
    let mut rest: u64 = value;
    let mut k: usize = 0;
    while k < count
        invariant
            k <= count,
            out@ + le_bytes(rest as nat, (count - k) as nat) == le_bytes(value as nat, count as nat),
            out@.len() == k,
        decreases count - k,
    {
        let ghost before = out@;
        out.push((rest % 256) as u8);
        assert(le_bytes(rest as nat, (count - k) as nat) == seq![(rest % 256) as u8] + le_bytes((rest / 256) as nat, (count - k - 1) as nat));
        assert(out@ + le_bytes((rest / 256) as nat, (count - k - 1) as nat) =~= before + le_bytes(rest as nat, (count - k) as nat));
        rest = rest / 256;
        k = k + 1;
    }
    assert(out@ + le_bytes(rest as nat, 0) =~= out@);
    out
}

proof fn lemma_le_value_bound(bytes: Seq<u8>)
    ensures
        le_value(bytes) < crate::text::pow_nat(256, bytes.len()),
    decreases bytes.len(),
{
    if bytes.len() > 0 {
        let rest = bytes.subrange(1, bytes.len() as int);
        lemma_le_value_bound(rest);
        let p = crate::text::pow_nat(256, rest.len());
        assert(bytes[0] as nat + 256 * le_value(rest) < 256 * p) by (nonlinear_arith)
            requires
                le_value(rest) < p,
                bytes[0] < 256,
        ;
    }
}

pub proof fn lemma_le_value_2(s: Seq<u8>)
    requires
        s.len() == 2,
    ensures
        le_value(s) == s[0] + 256 * s[1],
{
    let t = s.subrange(1, 2);
    assert(t.subrange(1, 1) =~= Seq::<u8>::empty());
    assert(le_value(t.subrange(1, 1)) == 0);
    assert(le_value(t) == t[0] + 256 * le_value(t.subrange(1, 1)));
}

pub proof fn lemma_le_value_4(s: Seq<u8>)
    requires
        s.len() == 4,
    ensures
        le_value(s) == s[0] + 256 * (s[1] + 256 * (s[2] + 256 * s[3] as int)),
{
    let t = s.subrange(1, 4);
    assert(t.subrange(1, 3) =~= s.subrange(2, 4));
    lemma_le_value_2(s.subrange(2, 4));
    assert(le_value(t) == t[0] + 256 * le_value(t.subrange(1, 3)));
    assert(le_value(s) == s[0] + 256 * le_value(t));
}

/// Decodes a little-endian 32-bit value from four bytes.
pub fn le_u32(bytes: &[u8]) -> (v: u32)
    requires
        bytes@.len() == 4,
    ensures
        v == le_value(bytes@),
{
    let b0 = bytes[0] as u32;
    let b1 = bytes[1] as u32;
    let b2 = bytes[2] as u32;
    let b3 = bytes[3] as u32;
    proof {
        lemma_le_value_4(bytes@);
    }
    b0 + 256 * (b1 + 256 * (b2 + 256 * b3))
}

/// Unmapping the region that starts at `s` releases its address range and
/// its bytes of quota: afterwards no region holds `s`, none meets the range
/// it covered, and mapping a region of the same size at `s` passes every
/// check of `map` (size, quota, address space, overlap).
pub proof fn law_unmap_releases(before: Memory, after: Memory, s: u32, i: int)
    requires
        before.wf(),
        0 <= i < before@.len(),
        before@[i].start == s,
        after@ == before@.remove(i),
        after.allocated_bytes() == before.allocated_bytes() - before@[i].data.len(),
    ensures
        ({
            let size = before@[i].data.len();
            &&& forall|j: int| 0 <= j < after@.len() ==> !region_covers(#[trigger] after@[j], s as int)
            &&& forall|j: int| 0 <= j < after@.len() ==> !(s < region_end(#[trigger] after@[j]) && s + size > after@[j].start)
            &&& size > 0
            &&& after.allocated_bytes() + size <= HARD_MAX_MEMORY_BYTES
            &&& s + size <= u32::MAX
        }),
{
    let size = before@[i].data.len();
    assert forall|j: int| 0 <= j < after@.len() implies !(s < region_end(#[trigger] after@[j]) && s + size > after@[j].start) by {
        if j < i {
            assert(after@[j] == before@[j]);
        } else {
            assert(after@[j] == before@[j + 1]);
        }
    }
    assert forall|j: int| 0 <= j < after@.len() implies !region_covers(#[trigger] after@[j], s as int) by {
        assert(!(s < region_end(after@[j]) && s + size > after@[j].start));
    }
}


/// Encoding the low `n` bytes of `v` and decoding them gives `v` modulo `256^n`.
pub proof fn lemma_le_round_trip(v: nat, n: nat)
    ensures
        le_value(le_bytes(v, n)) == v % crate::text::pow_nat(256, n),
    decreases n,
{
    if n == 0 {
        assert(le_bytes(v, 0) =~= Seq::<u8>::empty());
        assert(crate::text::pow_nat(256, 0) == 1);
    } else {
        let b = le_bytes(v, n);
        let rest = le_bytes(v / 256, (n - 1) as nat);
        assert(b =~= seq![(v % 256) as u8] + rest);
        assert(b.subrange(1, b.len() as int) =~= rest);
        lemma_le_round_trip(v / 256, (n - 1) as nat);
        let p = crate::text::pow_nat(256, (n - 1) as nat);
        assert(p > 0) by {
            crate::text::lemma_pow_monotone(256, 0, (n - 1) as nat);
        }
        vstd::arithmetic::div_mod::lemma_mod_breakdown(v as int, 256, p as int);
        assert(crate::text::pow_nat(256, n) == 256 * p);
    }
}


} // verus!
