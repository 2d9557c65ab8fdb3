//! Sparse 64-bit guest memory whose addresses stay exactly representable
//! as JSON numbers.
use vstd::prelude::*;
use vstd::slice::slice_subrange;

use crate::dynamic_error::DynamicError;
use crate::memory::{sizes_sum, lemma_sizes_insert, Permissions, HARD_MAX_MEMORY_BYTES, le_bytes, le_value, to_le_bytes_u64, lemma_le_value_2};
use crate::text::{utf8_lossy, utf16_lossy, lossy_utf8, lossy_utf16, terminated_prefix, lemma_terminated_prefix_stops, all_ascii, all_bmp_scalars};

verus! {

/// Largest guest address that a double can hold exactly (2^53 - 1).
pub const MAX_EXACT_GUEST_ADDRESS: u64 = 9007199254740991;

/// The most written ranges a single 64-bit region remembers.
pub const MAX_WRITTEN_RANGES: usize = 4096;

/// What a region holds, as mathematical values.
pub struct RegionView64 {
    pub start: u64,
    pub data: Seq<u8>,
    pub permissions: Permissions,
    pub name: Seq<char>,
    pub dirty: bool,
    pub written_ranges: Seq<(u64, u64)>,
}

/// First address past the region.
pub open spec fn region_end64(r: RegionView64) -> int {
    r.start + r.data.len()
}

/// `[address, address + length)` does not wrap and lies inside the region.
pub open spec fn region_contains64(r: RegionView64, address: int, length: int) -> bool {
    &&& address + length <= u64::MAX
    &&& r.start <= address
    &&& address + length <= region_end64(r)
}

/// `address` lies in the region (used by instruction fetch and snapshots).
pub open spec fn region_covers64(r: RegionView64, address: int) -> bool {
    r.start <= address < region_end64(r)
}

/// A newly mapped region: zero-filled, clean, with no recorded writes.
pub open spec fn fresh_region64(start: u64, size: nat, permissions: Permissions, name: Seq<char>) -> RegionView64 {
    RegionView64 {
        start,
        data: Seq::new(size, |j: int| 0u8),
        permissions,
        name,
        dirty: false,
        written_ranges: Seq::empty(),
    }
}

/// `after` is `before` with `r` inserted at position `k`.
pub open spec fn inserted_at64(before: Seq<RegionView64>, after: Seq<RegionView64>, k: int, r: RegionView64) -> bool {
    after == before.insert(k, r)
}

/// Index `i` is the first position of `s` whose region satisfies `p`.
pub open spec fn is_first64(s: Seq<RegionView64>, p: spec_fn(RegionView64) -> bool, i: int) -> bool {
    &&& 0 <= i < s.len()
    &&& p(s[i])
    &&& forall|j: int| 0 <= j < i ==> !p(#[trigger] s[j])
}

/// Some region of `s` satisfies `p`.
pub open spec fn any_region64(s: Seq<RegionView64>, p: spec_fn(RegionView64) -> bool) -> bool {
    exists|i: int| 0 <= i < s.len() && p(#[trigger] s[i])
}

/// Two first positions for the same predicate are the same position.
pub proof fn lemma_first_unique64(s: Seq<RegionView64>, p: spec_fn(RegionView64) -> bool, i: int, j: int)
    requires
        is_first64(s, p, i),
        is_first64(s, p, j),
    ensures
        i == j,
{
    if i < j {
        assert(!p(s[i]));
    } else if j < i {
        assert(!p(s[j]));
    }
}

/// `a + b`, held at `u64::MAX` (`u64::saturating_add`).
pub open spec fn saturating_add64(a: u64, b: int) -> u64 {
    if a + b > u64::MAX { u64::MAX } else { (a + b) as u64 }
}

/// The byte that a one-byte read at `address` returns, if it succeeds.
pub open spec fn byte_at64(m: Seq<RegionView64>, address: int) -> Option<u8> {
    if any_region64(m, readable64(address, 1)) {
        let i = choose|i: int| is_first64(m, readable64(address, 1), i);
        Some(m[i].data[address - m[i].start])
    } else {
        None
    }
}

/// The little-endian unit that a two-byte read at `address` returns, if it succeeds.
pub open spec fn unit_at64(m: Seq<RegionView64>, address: int) -> Option<u16> {
    if any_region64(m, readable64(address, 2)) {
        let i = choose|i: int| is_first64(m, readable64(address, 2), i);
        Some(le_value(m[i].data.subrange(address - m[i].start, address - m[i].start + 2)) as u16)
    } else {
        None
    }
}

/// The bytes of the NUL-terminated string at `address`: at most `max` bytes,
/// stopping before a NUL or an unreadable byte; addresses saturate at `u64::MAX`.
pub open spec fn c_string_bytes64(m: Seq<RegionView64>, address: u64, max: nat) -> Seq<u8> {
    terminated_prefix(|j: nat| byte_at64(m, saturating_add64(address, j as int) as int), 0u8, max)
}

/// The UTF-16 units of the NUL-terminated wide string at `address`: at most
/// `max` units, stopping before a zero or an unreadable unit.
pub open spec fn wide_string_units64(m: Seq<RegionView64>, address: u64, max: nat) -> Seq<u16> {
    terminated_prefix(|j: nat| unit_at64(m, saturating_add64(address, (2 * j) as int) as int), 0u16, max)
}

/// Regions are sorted by start, non-empty, disjoint and end at or below the exact-address limit.
pub open spec fn regions_wf64(s: Seq<RegionView64>) -> bool {
    &&& forall|i: int| 0 <= i < s.len() ==> 0 < (#[trigger] s[i]).data.len() && region_end64(s[i]) <= MAX_EXACT_GUEST_ADDRESS
    &&& forall|i: int, j: int| 0 <= i < j < s.len() ==> region_end64(#[trigger] s[i]) <= (#[trigger] s[j]).start
}

/// The bytes the regions hold together.
pub open spec fn total_size64(s: Seq<RegionView64>) -> nat {
    sizes_sum(s.map_values(|r: RegionView64| r.data.len()))
}

/// Inserting a region adds its size to the total.
pub proof fn lemma_total_insert64(s: Seq<RegionView64>, k: int, r: RegionView64)
    requires
        0 <= k <= s.len(),
    ensures
        total_size64(s.insert(k, r)) == total_size64(s) + r.data.len(),
{
    assert(s.insert(k, r).map_values(|x: RegionView64| x.data.len()) =~= s.map_values(|x: RegionView64| x.data.len()).insert(
        k,
        r.data.len(),
    ));
    lemma_sizes_insert(s.map_values(|x: RegionView64| x.data.len()), k, r.data.len());
}

/// Replacing a region by one of the same size keeps the total.
pub proof fn lemma_total_update64(s: Seq<RegionView64>, k: int, r: RegionView64)
    requires
        0 <= k < s.len(),
        r.data.len() == s[k].data.len(),
    ensures
        total_size64(s.update(k, r)) == total_size64(s),
{
    assert(s.update(k, r).map_values(|x: RegionView64| x.data.len()) =~= s.map_values(|x: RegionView64| x.data.len()));
}

/// The predicate that a read of `length` bytes at `address` looks for.
pub open spec fn readable64(address: int, length: int) -> spec_fn(RegionView64) -> bool {
    |r: RegionView64| region_contains64(r, address, length) && r.permissions.read
}

/// The predicate that a write looks for (`force` ignores the write permission).
pub open spec fn writable64(address: int, length: int, force: bool) -> spec_fn(RegionView64) -> bool {
    |r: RegionView64| region_contains64(r, address, length) && (force || r.permissions.write)
}

/// The predicate that instruction fetch looks for.
pub open spec fn executable_at64(address: int) -> spec_fn(RegionView64) -> bool {
    |r: RegionView64| region_covers64(r, address) && r.permissions.execute
}

/// The predicate that a permission change looks for.
pub open spec fn containing64(address: int, length: int) -> spec_fn(RegionView64) -> bool {
    |r: RegionView64| region_contains64(r, address, length)
}

/// Walks `ranges` in order, absorbing every range that touches the growing
/// interval `[start, finish]`; returns the untouched ranges and the merged bounds.
pub open spec fn absorb_ranges(ranges: Seq<(u64, u64)>, start: u64, finish: u64) -> (Seq<(u64, u64)>, u64, u64)
    decreases ranges.len(),
{
    if ranges.len() == 0 {
        (Seq::empty(), start, finish)
    } else {
        let r = ranges[0];
        let rest = ranges.subrange(1, ranges.len() as int);
        if start <= r.1 && finish >= r.0 {
            absorb_ranges(rest, if start <= r.0 { start } else { r.0 }, if finish >= r.1 { finish } else { r.1 })
        } else {
            let t = absorb_ranges(rest, start, finish);
            (seq![r] + t.0, t.1, t.2)
        }
    }
}

/// Position before the first range that starts after `start` (the range count when none does).
pub open spec fn insertion_point(ranges: Seq<(u64, u64)>, start: u64) -> int
    decreases ranges.len(),
{
    if ranges.len() == 0 {
        0
    } else if ranges[0].0 > start {
        0
    } else {
        1 + insertion_point(ranges.subrange(1, ranges.len() as int), start)
    }
}

/// The written ranges after a tracked write of `[address, end)`: ranges that touch
/// it are merged into one, which is placed by start address while fewer than the
/// maximum remain; otherwise only the untouched ranges are kept.
pub open spec fn record_write64(ranges: Seq<(u64, u64)>, address: u64, end: u64) -> Seq<(u64, u64)> {
    let t = absorb_ranges(ranges, address, end);
    if t.0.len() < MAX_WRITTEN_RANGES {
        t.0.insert(insertion_point(t.0, t.1), (t.1, t.2))
    } else {
        t.0
    }
}

/// The region after `bytes` were stored at `address` (tracked unless `force`).
pub open spec fn region_after_write64(r: RegionView64, address: u64, bytes: Seq<u8>, force: bool) -> RegionView64 {
    let offset = address - r.start;
    let data = r.data.subrange(0, offset) + bytes + r.data.subrange(offset + bytes.len(), r.data.len() as int);
    if !force && bytes.len() > 0 {
        RegionView64 {
            data,
            dirty: true,
            written_ranges: record_write64(r.written_ranges, address, (address + bytes.len()) as u64),
            ..r
        }
    } else {
        RegionView64 { data, ..r }
    }
}

struct Region64 {
    start: u64,
    data: Vec<u8>,
    permissions: Permissions,
    name: String,
    dirty: bool,
    written_ranges: Vec<(u64, u64)>,
}

impl Region64 {
    spec fn view(&self) -> RegionView64 {
        RegionView64 {
            start: self.start,
            data: self.data@,
            permissions: self.permissions,
            name: self.name@,
            dirty: self.dirty,
            written_ranges: self.written_ranges@,
        }
    }

    fn end(&self) -> (e: u64)
        ensures
            e == if region_end64(self.view()) <= u64::MAX { region_end64(self.view()) } else { u64::MAX as int },
    {
        let len = self.data.len();
        if len as u64 > u64::MAX - self.start {
            u64::MAX
        } else {
            self.start + len as u64
        }
    }

    fn contains(&self, address: u64, length: usize) -> (b: bool)
        requires
            region_end64(self.view()) <= u64::MAX,
        ensures
            b == region_contains64(self.view(), address as int, length as int),
    {
        if length as u64 > u64::MAX - address {
            return false;
        }
        let end = address + length as u64;
        address >= self.start && end <= self.end()
    }
}

/// Guest memory of a 64-bit process.
pub struct Memory64 {
    regions: Vec<Region64>,
    allocated: usize,
}

impl View for Memory64 {
    type V = Seq<RegionView64>;

    closed spec fn view(&self) -> Seq<RegionView64> {
        self.regions@.map_values(|r: Region64| r.view())
    }
}

/// A borrowed view of one region, as reports and snapshots see it.
pub struct Memory64RegionView<'a> {
    pub start: u64,
    pub data: &'a [u8],
    pub permissions: Permissions,
    pub name: &'a str,
}

impl Memory64 {
    /// Bytes mapped so far (minus those unmapped).
    pub closed spec fn allocated_bytes(&self) -> nat {
        self.allocated as nat
    }

    /// The memory is well formed: its regions satisfy `regions_wf64`, and
    /// the bytes counted against the quota are those the regions hold.
    pub open spec fn wf(&self) -> bool {
        &&& regions_wf64(self@)
        &&& self.allocated_bytes() == total_size64(self@)
    }

    /// An empty address space.
    pub fn new() -> (m: Memory64)
        ensures
            m.wf(),
            m@ == Seq::<RegionView64>::empty(),
            m.allocated_bytes() == 0,
    {
        let m = Memory64 { regions: Vec::new(), allocated: 0 };
        assert(m@ =~= Seq::<RegionView64>::empty());
        m
    }

    fn find_index(&self, p: Ghost<spec_fn(RegionView64) -> bool>, address: u64, length: usize, mode: u8, force: bool) -> (r: Option<usize>)
        requires
            self.wf(),
            mode == 0 ==> p@ == readable64(address as int, length as int),
            mode == 1 ==> p@ == writable64(address as int, length as int, force),
            mode == 2 ==> p@ == executable_at64(address as int),
            mode == 3 ==> p@ == containing64(address as int, length as int),
            mode <= 3,
        ensures
            match r {
                Some(i) => is_first64(self@, p@, i as int),
                None => !any_region64(self@, p@),
            },
    {
        let mut i: usize = 0;
        while i < self.regions.len()
            invariant
                self.wf(),
                i <= self.regions@.len(),
                mode == 0 ==> p@ == readable64(address as int, length as int),
                mode == 1 ==> p@ == writable64(address as int, length as int, force),
                mode == 2 ==> p@ == executable_at64(address as int),
                mode == 3 ==> p@ == containing64(address as int, length as int),
                mode <= 3,
                forall|j: int| 0 <= j < i ==> !p@(#[trigger] self@[j]),
            decreases self.regions@.len() - i,
        {
            let region = &self.regions[i];
            assert(self@[i as int] == region.view());
            let found = if mode == 0 {
                region.contains(address, length) && region.permissions.read
            } else if mode == 1 {
                region.contains(address, length) && (force || region.permissions.write)
            } else if mode == 2 {
                address >= region.start && address < region.end() && region.permissions.execute
            } else {
                region.contains(address, length)
            };
            if found {
                return Some(i);
            }
            i = i + 1;
        }
        None
    }

    /// Maps a zero-filled region of `size` bytes at `start`.
    ///
    /// Fails with `MemoryLimit` when `size` is zero, the total would exceed
    /// the hard limit, or the region would end past `MAX_EXACT_GUEST_ADDRESS`;
    /// with `OverlappingRegion` when it intersects a mapped region.
    pub fn map(&mut self, start: u64, size: usize, permissions: Permissions, name: String) -> (r: Result<(), DynamicError>)
        requires
            old(self).wf(),
        ensures
            final(self).wf(),
            (size == 0 || old(self).allocated_bytes() + size > HARD_MAX_MEMORY_BYTES || start + size > MAX_EXACT_GUEST_ADDRESS)
                ==> r == Err::<(), DynamicError>(DynamicError::MemoryLimit) && final(self)@ == old(self)@,
            !(size == 0 || old(self).allocated_bytes() + size > HARD_MAX_MEMORY_BYTES || start + size > MAX_EXACT_GUEST_ADDRESS) ==> {
                let overlaps = exists|i: int| 0 <= i < old(self)@.len()
                    && start < region_end64(#[trigger] old(self)@[i]) && start + size > old(self)@[i].start;
                &&& overlaps ==> r == Err::<(), DynamicError>(DynamicError::OverlappingRegion { address: start })
                    && final(self)@ == old(self)@ && final(self).allocated_bytes() == old(self).allocated_bytes()
                &&& !overlaps ==> r is Ok && final(self).allocated_bytes() == old(self).allocated_bytes() + size
                    && exists|k: int| 0 <= k <= old(self)@.len() && #[trigger] inserted_at64(old(self)@, final(self)@, k,
                        fresh_region64(start, size as nat, permissions, name@))
            },
            r is Err ==> final(self)@ == old(self)@ && final(self).allocated_bytes() == old(self).allocated_bytes(),
    {
        if size == 0 || size > HARD_MAX_MEMORY_BYTES || self.allocated > HARD_MAX_MEMORY_BYTES - size {
            return Err(DynamicError::MemoryLimit);
        }
        if size as u64 > u64::MAX - start {
            return Err(DynamicError::MemoryLimit);
        }
        let end: u64 = start + size as u64;
        if end > MAX_EXACT_GUEST_ADDRESS {
            return Err(DynamicError::MemoryLimit);
        }
        let mut i: usize = 0;
        let mut insert_at: usize = 0;
        while i < self.regions.len()
            invariant
                self.wf(),
                self@ == old(self)@,
                self.allocated == old(self).allocated,
                !(size == 0 || old(self).allocated_bytes() + size > HARD_MAX_MEMORY_BYTES || start + size > MAX_EXACT_GUEST_ADDRESS),
                i <= self.regions@.len(),
                insert_at <= i,
                end == start + size,
                forall|j: int| 0 <= j < i ==> !(start < region_end64(#[trigger] self@[j]) && end > self@[j].start),
                forall|j: int| 0 <= j < insert_at ==> (#[trigger] self@[j]).start < start,
                forall|j: int| insert_at <= j < i ==> (#[trigger] self@[j]).start >= start,
            decreases self.regions@.len() - i,
        {
            let region = &self.regions[i];
            assert(self@[i as int] == region.view());
            if start < region.end() && end > region.start {
                assert(!(size == 0 || old(self).allocated_bytes() + size > HARD_MAX_MEMORY_BYTES || start + size > MAX_EXACT_GUEST_ADDRESS));
                assert(start < region_end64(self@[i as int]) && start + size > self@[i as int].start);
                return Err(DynamicError::OverlappingRegion { address: start });
            }
            if region.start < start {
                insert_at = i + 1;
            }
            i = i + 1;
        }
        let data: Vec<u8> = vec![0u8; size];
        let region = Region64 {
            start,
            data,
            permissions,
            name,
            dirty: false,
            written_ranges: Vec::new(),
        };
        let ghost old_view = self@;
        let ghost new_region = fresh_region64(start, size as nat, permissions, region.name@);
        assert(region.data@ =~= Seq::new(size as nat, |j: int| 0u8));
        assert(region.view() == new_region);
        self.regions.insert(insert_at, region);
        self.allocated = self.allocated + size;
        assert(self@ =~= old_view.insert(insert_at as int, new_region));
        proof {
            lemma_total_insert64(old_view, insert_at as int, new_region);
        }
        assert(inserted_at64(old_view, self@, insert_at as int, new_region));
        proof {
            assert forall|a: int, b: int| 0 <= a < b < self@.len() implies region_end64(#[trigger] self@[a]) <= (#[trigger] self@[b]).start by {
                if a < insert_at && b < insert_at {
                    assert(self@[a] == old_view[a] && self@[b] == old_view[b]);
                } else if a < insert_at && b == insert_at {
                    assert(self@[a] == old_view[a]);
                    assert(old_view[a].start < start);
                } else if a < insert_at {
                    assert(self@[a] == old_view[a] && self@[b] == old_view[b - 1]);
                    if a < b - 1 {
                    } 
                } else if a == insert_at {
                    assert(self@[b] == old_view[b - 1]);
                    assert(old_view[b - 1].start >= start);
                } else {
                    assert(self@[a] == old_view[a - 1] && self@[b] == old_view[b - 1]);
                }
            }
        }
        Ok(())
    }

    /// Reads `length` bytes at `address` from the first readable region
    /// that contains all of them.
    pub fn read(&self, address: u64, length: usize) -> (r: Result<&[u8], DynamicError>)
        requires
            self.wf(),
        ensures
            any_region64(self@, readable64(address as int, length as int)) <==> r is Ok,
            r is Err ==> r == Err::<&[u8], DynamicError>(DynamicError::MemoryRead { address }),
            r matches Ok(bytes) ==> exists|i: int| is_first64(self@, readable64(address as int, length as int), i)
                && bytes@ == self@[i].data.subrange(address - self@[i].start, address - self@[i].start + length),
    {
        match self.find_index(Ghost(readable64(address as int, length as int)), address, length, 0, false) {
            Some(i) => {
                let region = &self.regions[i];
                assert(self@[i as int] == region.view());
                let n = region.data.len();
                assert(address - region.start + length <= n);
                let offset = (address - region.start) as usize;
                Ok(slice_subrange(region.data.as_slice(), offset, offset + length))
            },
            None => Err(DynamicError::MemoryRead { address }),
        }
    }

    /// Up to `max_length` bytes starting at `address` from the first
    /// executable region that holds `address`.
    pub fn fetch(&self, address: u64, max_length: usize) -> (r: Result<&[u8], DynamicError>)
        requires
            self.wf(),
        ensures
            any_region64(self@, executable_at64(address as int)) <==> r is Ok,
            r is Err ==> r == Err::<&[u8], DynamicError>(DynamicError::MemoryExecute { address }),
            r matches Ok(bytes) ==> exists|i: int| is_first64(self@, executable_at64(address as int), i) && {
                let offset = address - self@[i].start;
                let end = if offset + max_length <= self@[i].data.len() { offset + max_length } else { self@[i].data.len() as int };
                bytes@ == self@[i].data.subrange(offset, end)
            },
    {
        match self.find_index(Ghost(executable_at64(address as int)), address, 0, 2, false) {
            Some(i) => {
                let region = &self.regions[i];
                assert(self@[i as int] == region.view());
                let offset = (address - region.start) as usize;
                let end = if max_length <= region.data.len() - offset { offset + max_length } else { region.data.len() };
                Ok(slice_subrange(region.data.as_slice(), offset, end))
            },
            None => Err(DynamicError::MemoryExecute { address }),
        }
    }

    /// Stores `data` at `address` in the first writable region holding it,
    /// marking the region dirty and recording the written range.
    pub fn write(&mut self, address: u64, data: &[u8]) -> (r: Result<(), DynamicError>)
        requires
            old(self).wf(),
        ensures
            final(self).wf(),
            final(self).allocated_bytes() == old(self).allocated_bytes(),
            Self::write_outcome(old(self)@, final(self)@, address, data@, false, r),
    {
        self.write_inner(address, data, false)
    }

    /// Stores `data` regardless of the write permission and without
    /// recording it as guest activity (used by the loader).
    pub fn write_force(&mut self, address: u64, data: &[u8]) -> (r: Result<(), DynamicError>)
        requires
            old(self).wf(),
        ensures
            final(self).wf(),
            final(self).allocated_bytes() == old(self).allocated_bytes(),
            Self::write_outcome(old(self)@, final(self)@, address, data@, true, r),
    {
        self.write_inner(address, data, true)
    }

    /// The relation between memory before and after a write of `bytes` at `address`.
    pub open spec fn write_outcome(
        before: Seq<RegionView64>,
        after: Seq<RegionView64>,
        address: u64,
        bytes: Seq<u8>,
        force: bool,
        r: Result<(), DynamicError>,
    ) -> bool {
        let p = writable64(address as int, bytes.len() as int, force);
        &&& any_region64(before, p) <==> r is Ok
        &&& r is Err ==> r == Err::<(), DynamicError>(DynamicError::MemoryWrite { address }) && after == before
        &&& r is Ok ==> exists|i: int| is_first64(before, p, i)
            && after == before.update(i, region_after_write64(before[i], address, bytes, force))
    }

    fn write_inner(&mut self, address: u64, data: &[u8], force: bool) -> (r: Result<(), DynamicError>)
        requires
            old(self).wf(),
        ensures
            final(self).wf(),
            final(self).allocated_bytes() == old(self).allocated_bytes(),
            Self::write_outcome(old(self)@, final(self)@, address, data@, force, r),
    {
        let ghost p = writable64(address as int, data@.len() as int, force);
        match self.find_index(Ghost(p), address, data.len(), 1, force) {
            None => Err(DynamicError::MemoryWrite { address }),
            Some(i) => {
                let ghost before = self@;
                let ghost old_region = self@[i as int];
                let region = &mut self.regions[i];
                let offset = (address - region.start) as usize;
                assert(offset + data@.len() <= region.data.len());
                let mut k: usize = 0;
                while k < data.len()
                    invariant
                        offset + data@.len() <= region.data@.len(),
                        region.data@.len() <= usize::MAX,
                        k <= data@.len(),
                        region.data@.len() == old_region.data.len(),
                        forall|j: int| 0 <= j < offset ==> region.data@[j] == old_region.data[j],
                        forall|j: int| offset + data@.len() <= j < region.data@.len() ==> region.data@[j] == old_region.data[j],
                        forall|j: int| 0 <= j < k ==> region.data@[offset + j] == data@[j],
                        region.start == old_region.start,
                        region.view().permissions == old_region.permissions,
                        region.view().name == old_region.name,
                        region.view().dirty == old_region.dirty,
                        region.view().written_ranges == old_region.written_ranges,
                        offset == address - old_region.start,
                    decreases data@.len() - k,
                {
                    region.data.set(offset + k, data[k]);
                    k = k + 1;
                }
                let ghost new_data = old_region.data.subrange(0, offset as int) + data@
                    + old_region.data.subrange(offset + data@.len(), old_region.data.len() as int);
                assert(region.data@ =~= new_data);
                if !force && data.len() > 0 {
                    region.dirty = true;
                    let end: u64 = address + data.len() as u64;
                    let updated = merge_written(&region.written_ranges, address, end);
                    region.written_ranges = updated;
                }
                proof {
                    assert(self.regions@[i as int].view() == region_after_write64(old_region, address, data@, force));
                    assert(self@ =~= before.update(i as int, region_after_write64(old_region, address, data@, force)));
                    lemma_total_update64(before, i as int, region_after_write64(old_region, address, data@, force));
                }
                Ok(())
            },
        }
    }

    /// Reads a little-endian 16-bit value.
    pub fn read_u16(&self, address: u64) -> (r: Result<u16, DynamicError>)
        requires
            self.wf(),
        ensures
            any_region64(self@, readable64(address as int, 2)) <==> r is Ok,
            r is Err ==> r == Err::<u16, DynamicError>(DynamicError::MemoryRead { address }),
            r matches Ok(v) ==> exists|i: int| is_first64(self@, readable64(address as int, 2), i)
                && v == le_value(self@[i].data.subrange(address - self@[i].start, address - self@[i].start + 2)),
    {
        let bytes = self.read(address, 2)?;
        proof {
            lemma_le_value_2(bytes@);
        }
        Ok(bytes[0] as u16 + 256 * (bytes[1] as u16))
    }

    /// The NUL-terminated string at `address`, read byte by byte up to `max`
    /// bytes and decoded as lossy UTF-8.
    pub fn read_c_string(&self, address: u64, max: usize) -> (r: String)
        requires
            self.wf(),
        ensures
            r@ == lossy_utf8(c_string_bytes64(self@, address, max as nat)),
            all_ascii(c_string_bytes64(self@, address, max as nat))
                ==> r@ == c_string_bytes64(self@, address, max as nat).map_values(|b: u8| b as char),
    {
        let ghost at = |j: nat| byte_at64(self@, saturating_add64(address, j as int) as int);
        let mut result: Vec<u8> = Vec::new();
        let mut index: usize = 0;
        while index < max
            invariant
                self.wf(),
                index <= max,
                at == (|j: nat| byte_at64(self@, saturating_add64(address, j as int) as int)),
                result@ == terminated_prefix(at, 0u8, index as nat),
                result@.len() == index,
            ensures
                result@ == terminated_prefix(at, 0u8, max as nat),
            decreases max - index,
        {
            let pointer = address.saturating_add(index as u64);
            let got = self.read(pointer, 1);
            proof {
                assert(at(index as nat) == byte_at64(self@, pointer as int));
                if let Ok(bytes) = got {
                    let i = choose|i: int| is_first64(self@, readable64(pointer as int, 1), i)
                        && bytes@ == self@[i].data.subrange(pointer - self@[i].start, pointer - self@[i].start + 1);
                    let k = choose|k: int| is_first64(self@, readable64(pointer as int, 1), k);
                    lemma_first_unique64(self@, readable64(pointer as int, 1), i, k);
                    assert(bytes@[0] == self@[i].data[pointer - self@[i].start]);
                }
            }
            match got {
                Ok(bytes) => {
                    let v = bytes[0];
                    if v == 0 {
                        proof {
                            lemma_terminated_prefix_stops(at, 0u8, (index + 1) as nat, max as nat);
                        }
                        break;
                    }
                    result.push(v);
                },
                Err(_) => {
                    proof {
                        lemma_terminated_prefix_stops(at, 0u8, (index + 1) as nat, max as nat);
                    }
                    break;
                },
            }
            index = index + 1;
        }
        utf8_lossy(result.as_slice())
    }

    /// The NUL-terminated UTF-16 string at `address`, read unit by unit up to
    /// `max` units and decoded lossily.
    pub fn read_wide_string(&self, address: u64, max: usize) -> (r: String)
        requires
            self.wf(),
        ensures
            r@ == lossy_utf16(wide_string_units64(self@, address, max as nat)),
            all_bmp_scalars(wide_string_units64(self@, address, max as nat))
                ==> r@ == wide_string_units64(self@, address, max as nat).map_values(|u: u16| u as char),
    {
        let ghost at = |j: nat| unit_at64(self@, saturating_add64(address, (2 * j) as int) as int);
        let mut result: Vec<u16> = Vec::new();
        let mut index: usize = 0;
        while index < max
            invariant
                self.wf(),
                index <= max,
                at == (|j: nat| unit_at64(self@, saturating_add64(address, (2 * j) as int) as int)),
                result@ == terminated_prefix(at, 0u16, index as nat),
                result@.len() == index,
            ensures
                result@ == terminated_prefix(at, 0u16, max as nat),
            decreases max - index,
        {
            let doubled: u64 = if index as u64 > u64::MAX / 2 { u64::MAX } else { index as u64 * 2 };
            let pointer = address.saturating_add(doubled);
            let got = self.read_u16(pointer);
            proof {
                assert(at(index as nat) == unit_at64(self@, pointer as int));
                if let Ok(v) = got {
                    let i = choose|i: int| is_first64(self@, readable64(pointer as int, 2), i)
                        && v == le_value(self@[i].data.subrange(pointer - self@[i].start, pointer - self@[i].start + 2));
                    let k = choose|k: int| is_first64(self@, readable64(pointer as int, 2), k);
                    lemma_first_unique64(self@, readable64(pointer as int, 2), i, k);
                }
            }
            match got {
                Ok(v) => {
                    if v == 0 {
                        proof {
                            lemma_terminated_prefix_stops(at, 0u16, (index + 1) as nat, max as nat);
                        }
                        break;
                    }
                    result.push(v);
                },
                Err(_) => {
                    proof {
                        lemma_terminated_prefix_stops(at, 0u16, (index + 1) as nat, max as nat);
                    }
                    break;
                },
            }
            index = index + 1;
        }
        utf16_lossy(result.as_slice())
    }

    /// Writes a little-endian 64-bit value.
    pub fn write_u64(&mut self, address: u64, value: u64) -> (r: Result<(), DynamicError>)
        requires
            old(self).wf(),
        ensures
            final(self).wf(),
            final(self).allocated_bytes() == old(self).allocated_bytes(),
            Self::write_outcome(old(self)@, final(self)@, address, le_bytes(value as nat, 8), false, r),
    {
        let bytes = to_le_bytes_u64(value, 8);
        self.write(address, bytes.as_slice())
    }

    /// Reads a little-endian 64-bit value.
    pub fn read_u64(&self, address: u64) -> (r: Result<u64, DynamicError>)
        requires
            self.wf(),
        ensures
            any_region64(self@, readable64(address as int, 8)) <==> r is Ok,
            r is Err ==> r == Err::<u64, DynamicError>(DynamicError::MemoryRead { address }),
            r matches Ok(v) ==> exists|i: int| is_first64(self@, readable64(address as int, 8), i)
                && v == le_value(self@[i].data.subrange(address - self@[i].start, address - self@[i].start + 8)),
    {
        let bytes = self.read(address, 8)?;
        Ok(le_u64(bytes))
    }

    /// Writes a little-endian 32-bit value.
    pub fn write_u32(&mut self, address: u64, value: u32) -> (r: Result<(), DynamicError>)
        requires
            old(self).wf(),
        ensures
            final(self).wf(),
            final(self).allocated_bytes() == old(self).allocated_bytes(),
            Self::write_outcome(old(self)@, final(self)@, address, le_bytes(value as nat, 4), false, r),
    {
        let bytes = to_le_bytes_u64(value as u64, 4);
        self.write(address, bytes.as_slice())
    }

    /// Changes the permissions of the first region that holds
    /// `[address, address + size)`.
    pub fn set_permissions(&mut self, address: u64, size: usize, permissions: Permissions) -> (r: Result<(), DynamicError>)
        requires
            old(self).wf(),
        ensures
            final(self).wf(),
            final(self).allocated_bytes() == old(self).allocated_bytes(),
            any_region64(old(self)@, containing64(address as int, size as int)) <==> r is Ok,
            r is Err ==> r == Err::<(), DynamicError>(DynamicError::MemoryWrite { address }) && final(self)@ == old(self)@,
            r is Ok ==> exists|i: int| is_first64(old(self)@, containing64(address as int, size as int), i)
                && final(self)@ == old(self)@.update(i, RegionView64 { permissions, ..old(self)@[i] }),
    {
        match self.find_index(Ghost(containing64(address as int, size as int)), address, size, 3, false) {
            None => Err(DynamicError::MemoryWrite { address }),
            Some(i) => {
                let ghost before = self@;
                let region = &mut self.regions[i];
                region.permissions = permissions;
                assert(self@ =~= before.update(i as int, RegionView64 { permissions, ..before[i as int] }));
                proof {
                    lemma_total_update64(before, i as int, RegionView64 { permissions, ..before[i as int] });
                }
                Ok(())
            },
        }
    }

    /// Whether some recorded write range of some region holds `address`.
    pub fn was_written(&self, address: u64) -> (b: bool)
        requires
            self.wf(),
        ensures
            b == written_in64(self@, address),
    {
        let mut i: usize = 0;
        while i < self.regions.len()
            invariant
                i <= self.regions@.len(),
                forall|j: int, k: int| 0 <= j < i && 0 <= k < self@[j].written_ranges.len() ==>
                    !(#[trigger] self@[j].written_ranges[k].0 <= address < self@[j].written_ranges[k].1),
            decreases self.regions@.len() - i,
        {
            let region = &self.regions[i];
            assert(self@[i as int] == region.view());
            let mut k: usize = 0;
            while k < region.written_ranges.len()
                invariant
                    i < self@.len(),
                    self@[i as int] == region.view(),
                    k <= region.written_ranges@.len(),
                    forall|m: int| 0 <= m < k ==> !(#[trigger] region.written_ranges@[m].0 <= address < region.written_ranges@[m].1),
                decreases region.written_ranges@.len() - k,
            {
                let (start, end) = region.written_ranges[k];
                if address >= start && address < end {
                    assert(self@[i as int].written_ranges[k as int].0 <= address < self@[i as int].written_ranges[k as int].1);
                    return true;
                }
                k = k + 1;
            }
            i = i + 1;
        }
        false
    }

    /// Borrowed views of the regions that the guest has written, in address order.
    pub fn dirty_regions(&self) -> (r: Vec<Memory64RegionView<'_>>)
        requires
            self.wf(),
        ensures
            r@.len() == self@.filter(|v: RegionView64| v.dirty).len(),
            forall|k: int| 0 <= k < r@.len() ==> {
                let v = self@.filter(|v: RegionView64| v.dirty)[k];
                &&& (#[trigger] r@[k]).start == v.start
                &&& r@[k].name@ == v.name
                &&& r@[k].permissions == v.permissions
                &&& r@[k].data@ == v.data
            },
    {
        let mut out: Vec<Memory64RegionView<'_>> = Vec::new();
        let mut i: usize = 0;
        while i < self.regions.len()
            invariant
                i <= self.regions@.len(),
                out@.len() == self@.subrange(0, i as int).filter(|v: RegionView64| v.dirty).len(),
                forall|k: int| 0 <= k < out@.len() ==> {
                    let v = self@.subrange(0, i as int).filter(|v: RegionView64| v.dirty)[k];
                    &&& (#[trigger] out@[k]).start == v.start
                    &&& out@[k].name@ == v.name
                    &&& out@[k].permissions == v.permissions
                    &&& out@[k].data@ == v.data
                },
            decreases self.regions@.len() - i,
        {
            let region = &self.regions[i];
            assert(self@[i as int] == region.view());
            assert(self@.subrange(0, i + 1) == self@.subrange(0, i as int).push(self@[i as int]));
            proof {
                self@.subrange(0, i as int).lemma_filter_push(self@[i as int], |v: RegionView64| v.dirty);
            }
            if region.dirty {
                out.push(Memory64RegionView {
                    start: region.start,
                    name: region.name.as_str(),
                    permissions: region.permissions,
                    data: region.data.as_slice(),
                });
            }
            i = i + 1;
        }
        assert(self@.subrange(0, self@.len() as int) == self@);
        out
    }
}

impl Default for Memory64 {
    fn default() -> (m: Memory64)
        ensures
            m.wf(),
            m@ == Seq::<RegionView64>::empty(),
            m.allocated_bytes() == 0,
    {
        Memory64::new()
    }
}


/// Bytes written by a successful write are what a read of the same range
/// returns afterwards, provided the written region is readable.
pub proof fn law_read_after_write64(
    before: Seq<RegionView64>,
    after: Seq<RegionView64>,
    address: u64,
    bytes: Seq<u8>,
    force: bool,
    r: Result<(), DynamicError>,
    target: int,
)
    requires
        regions_wf64(before),
        regions_wf64(after),
        Memory64::write_outcome(before, after, address, bytes, force, r),
        r is Ok,
        bytes.len() > 0,
        is_first64(before, writable64(address as int, bytes.len() as int, force), target),
        before[target].permissions.read,
    ensures
        any_region64(after, readable64(address as int, bytes.len() as int)),
        forall|j: int| is_first64(after, readable64(address as int, bytes.len() as int), j) ==>
            after[j].data.subrange(address - after[j].start, address - after[j].start + bytes.len()) == bytes,
{
    let p = writable64(address as int, bytes.len() as int, force);
    let i = choose|i: int| is_first64(before, p, i) && after == before.update(i, region_after_write64(before[i], address, bytes, force));
    lemma_first_unique64(before, p, i, target);
    let w = after[i];
    let offset = address - before[i].start;
    assert(w.data.subrange(offset, offset + bytes.len()) =~= bytes);
    assert(readable64(address as int, bytes.len() as int)(after[i]));
    assert forall|j: int| is_first64(after, readable64(address as int, bytes.len() as int), j) implies
        after[j].data.subrange(address - after[j].start, address - after[j].start + bytes.len()) == bytes by {
        if j != i {
            if j < i {
                assert(region_end64(after[j]) <= after[i].start);
            } else {
                assert(region_end64(after[i]) <= after[j].start);
            }
        }
    }
}

/// Absorbing never grows the list and the merged interval covers the original one.
proof fn lemma_absorb_bounds(ranges: Seq<(u64, u64)>, start: u64, finish: u64)
    ensures
        absorb_ranges(ranges, start, finish).0.len() <= ranges.len(),
        absorb_ranges(ranges, start, finish).1 <= start,
        absorb_ranges(ranges, start, finish).2 >= finish,
    decreases ranges.len(),
{
    if ranges.len() > 0 {
        let r = ranges[0];
        let rest = ranges.subrange(1, ranges.len() as int);
        if start <= r.1 && finish >= r.0 {
            lemma_absorb_bounds(rest, if start <= r.0 { start } else { r.0 }, if finish >= r.1 { finish } else { r.1 });
        } else {
            lemma_absorb_bounds(rest, start, finish);
        }
    }
}

/// A tracked write of a non-empty run records its first address as written,
/// unless the target region already holds the maximum number of separate ranges.
pub proof fn law_write_is_recorded64(
    before: Seq<RegionView64>,
    after: Seq<RegionView64>,
    address: u64,
    bytes: Seq<u8>,
    r: Result<(), DynamicError>,
    target: int,
)
    requires
        Memory64::write_outcome(before, after, address, bytes, false, r),
        r is Ok,
        bytes.len() > 0,
        is_first64(before, writable64(address as int, bytes.len() as int, false), target),
        before[target].written_ranges.len() < MAX_WRITTEN_RANGES,
    ensures
        written_in64(after, address),
{
    let p = writable64(address as int, bytes.len() as int, false);
    let i = choose|i: int| is_first64(before, p, i) && after == before.update(i, region_after_write64(before[i], address, bytes, false));
    lemma_first_unique64(before, p, i, target);
    let end = (address + bytes.len()) as u64;
    let t = absorb_ranges(before[i].written_ranges, address, end);
    lemma_absorb_bounds(before[i].written_ranges, address, end);
    let k = insertion_point(t.0, t.1);
    lemma_insertion_point_bound(t.0, t.1);
    let ranges = after[i].written_ranges;
    assert(ranges == t.0.insert(k, (t.1, t.2)));
    assert(ranges[k].0 <= address < ranges[k].1);
}

proof fn lemma_insertion_point_bound(ranges: Seq<(u64, u64)>, start: u64)
    ensures
        0 <= insertion_point(ranges, start) <= ranges.len(),
    decreases ranges.len(),
{
    if ranges.len() > 0 && ranges[0].0 <= start {
        lemma_insertion_point_bound(ranges.subrange(1, ranges.len() as int), start);
    }
}

/// Some written range of some region holds `address`.
pub open spec fn written_in64(s: Seq<RegionView64>, address: u64) -> bool {
    exists|j: int, k: int| 0 <= j < s.len() && 0 <= k < s[j].written_ranges.len()
        && #[trigger] s[j].written_ranges[k].0 <= address < s[j].written_ranges[k].1
}

fn absorb_step(ranges: &Vec<(u64, u64)>, address: u64, end: u64) -> (t: (Vec<(u64, u64)>, u64, u64))
    ensures
        (t.0@, t.1, t.2) == absorb_ranges(ranges@, address, end),
{
    let mut kept: Vec<(u64, u64)> = Vec::new();
    let mut start = address;
    let mut finish = end;
    let mut k: usize = 0;
    while k < ranges.len()
        invariant
            k <= ranges@.len(),
            (kept@, start, finish) == absorb_prefix(ranges@, k as int, address, end),
        decreases ranges@.len() - k,
    {
        let r = ranges[k];
        proof {
            lemma_absorb_prefix_step(ranges@, k as int, address, end);
        }
        if start <= r.1 && finish >= r.0 {
            start = if start <= r.0 { start } else { r.0 };
            finish = if finish >= r.1 { finish } else { r.1 };
        } else {
            kept.push(r);
        }
        k = k + 1;
    }
    proof {
        lemma_absorb_prefix_full(ranges@, address, end);
    }
    (kept, start, finish)
}

/// The state after walking the first `k` ranges (kept ranges and current bounds).
pub open spec fn absorb_prefix(ranges: Seq<(u64, u64)>, k: int, start: u64, finish: u64) -> (Seq<(u64, u64)>, u64, u64)
    decreases k,
{
    if k <= 0 {
        (Seq::empty(), start, finish)
    } else {
        let p = absorb_prefix(ranges, k - 1, start, finish);
        let r = ranges[k - 1];
        if p.1 <= r.1 && p.2 >= r.0 {
            (p.0, if p.1 <= r.0 { p.1 } else { r.0 }, if p.2 >= r.1 { p.2 } else { r.1 })
        } else {
            (p.0.push(r), p.1, p.2)
        }
    }
}

proof fn lemma_absorb_prefix_step(ranges: Seq<(u64, u64)>, k: int, start: u64, finish: u64)
    requires
        0 <= k < ranges.len(),
    ensures
        absorb_prefix(ranges, k + 1, start, finish) == {
            let p = absorb_prefix(ranges, k, start, finish);
            let r = ranges[k];
            if p.1 <= r.1 && p.2 >= r.0 {
                (p.0, if p.1 <= r.0 { p.1 } else { r.0 }, if p.2 >= r.1 { p.2 } else { r.1 })
            } else {
                (p.0.push(r), p.1, p.2)
            }
        },
{
}

/// Walking the first `k` ranges and then absorbing the rest recursively gives
/// the recursive description of the whole walk.
proof fn lemma_absorb_split(ranges: Seq<(u64, u64)>, k: int, start: u64, finish: u64)
    requires
        0 <= k <= ranges.len(),
    ensures
        ({
            let p = absorb_prefix(ranges, k, start, finish);
            let t = absorb_ranges(ranges.subrange(k, ranges.len() as int), p.1, p.2);
            (p.0 + t.0, t.1, t.2)
        }) == absorb_ranges(ranges, start, finish),
    decreases k,
{
    if k == 0 {
        let t = absorb_ranges(ranges, start, finish);
        assert(ranges.subrange(0, ranges.len() as int) =~= ranges);
        assert(Seq::<(u64, u64)>::empty() + t.0 =~= t.0);
    } else {
        lemma_absorb_split(ranges, k - 1, start, finish);
        lemma_absorb_prefix_step(ranges, k - 1, start, finish);
        let p = absorb_prefix(ranges, k - 1, start, finish);
        let tail = ranges.subrange(k - 1, ranges.len() as int);
        let rest = ranges.subrange(k, ranges.len() as int);
        assert(tail.subrange(1, tail.len() as int) =~= rest);
        assert(tail[0] == ranges[k - 1]);
        let r = ranges[k - 1];
        if p.1 <= r.1 && p.2 >= r.0 {
            let s1 = if p.1 <= r.0 { p.1 } else { r.0 };
            let f1 = if p.2 >= r.1 { p.2 } else { r.1 };
            assert(absorb_ranges(tail, p.1, p.2) == absorb_ranges(rest, s1, f1));
        } else {
            let t = absorb_ranges(rest, p.1, p.2);
            assert(absorb_ranges(tail, p.1, p.2) == (seq![r] + t.0, t.1, t.2));
            assert(p.0.push(r) + t.0 =~= p.0 + (seq![r] + t.0));
        }
    }
}

proof fn lemma_absorb_prefix_full(ranges: Seq<(u64, u64)>, start: u64, finish: u64)
    ensures
        absorb_prefix(ranges, ranges.len() as int, start, finish) == absorb_ranges(ranges, start, finish),
{
    lemma_absorb_split(ranges, ranges.len() as int, start, finish);
    let p = absorb_prefix(ranges, ranges.len() as int, start, finish);
    assert(ranges.subrange(ranges.len() as int, ranges.len() as int) =~= Seq::<(u64, u64)>::empty());
    assert(p.0 + Seq::<(u64, u64)>::empty() =~= p.0);
}

fn place_range(kept: &Vec<(u64, u64)>, start: u64) -> (k: usize)
    ensures
        k as int == insertion_point(kept@, start),
        k <= kept@.len(),
{
    let mut k: usize = 0;
    assert(kept@.subrange(0, kept@.len() as int) =~= kept@);
    while k < kept.len()
        invariant
            k <= kept@.len(),
            insertion_point(kept@, start) == k + insertion_point(kept@.subrange(k as int, kept@.len() as int), start),
        decreases kept@.len() - k,
    {
        let tail = Ghost(kept@.subrange(k as int, kept@.len() as int));
        assert(tail@.subrange(1, tail@.len() as int) =~= kept@.subrange(k + 1, kept@.len() as int));
        if kept[k].0 > start {
            return k;
        }
        k = k + 1;
    }
    assert(kept@.subrange(k as int, kept@.len() as int) =~= Seq::<(u64, u64)>::empty());
    k
}

fn merge_written(ranges: &Vec<(u64, u64)>, address: u64, end: u64) -> (r: Vec<(u64, u64)>)
    ensures
        r@ == record_write64(ranges@, address, end),
{
    let (mut kept, start, finish) = absorb_step(ranges, address, end);
    if kept.len() < MAX_WRITTEN_RANGES {
        let at = place_range(&kept, start);
        kept.insert(at, (start, finish));
    }
    kept
}

/// Decodes a little-endian 64-bit value from eight bytes.
pub fn le_u64(bytes: &[u8]) -> (v: u64)
    requires
        bytes@.len() == 8,
    ensures
        v == le_value(bytes@),
{
    let mut acc: u64 = 0;
    let mut k: usize = 8;
    while k > 0
        invariant
            k <= 8,
            bytes@.len() == 8,
            acc == le_value(bytes@.subrange(k as int, 8)),
            acc < crate::text::pow_nat(256, (8 - k) as nat),
        decreases k,
    {
        let ghost old_acc = acc;
        let b = bytes[k - 1];
        proof {
            let t = bytes@.subrange(k - 1, 8);
            assert(t.subrange(1, t.len() as int) =~= bytes@.subrange(k as int, 8));
            assert(le_value(t) == t[0] + 256 * le_value(t.subrange(1, t.len() as int)));
            assert(crate::text::pow_nat(256, (8 - k + 1) as nat) == 256 * crate::text::pow_nat(256, (8 - k) as nat));
            reveal_with_fuel(crate::text::pow_nat, 9);
            assert(crate::text::pow_nat(256, 8) == 0x1_0000_0000_0000_0000);
            crate::text::lemma_pow_monotone(256, (8 - k + 1) as nat, 8);
            assert(b as int + 256 * old_acc < crate::text::pow_nat(256, (8 - k + 1) as nat)) by (nonlinear_arith)
                requires
                    old_acc < crate::text::pow_nat(256, (8 - k) as nat),
                    b < 256,
                    crate::text::pow_nat(256, (8 - k + 1) as nat) == 256 * crate::text::pow_nat(256, (8 - k) as nat),
            ;
        }
        acc = (b as u64) + 256 * acc;
        k = k - 1;
    }
    assert(bytes@.subrange(0, 8) =~= bytes@);
    acc
}

} // verus!
