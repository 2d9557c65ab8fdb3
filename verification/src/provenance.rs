//! Data provenance: labelled guest memory ranges, their propagation through
//! copies and transformations, and flows of labelled data into sinks.
use vstd::prelude::*;

use crate::text::{chars_equal, chars_less, chars_of, decimal, pad_left, push_decimal_padded, push_str, seq_less};

verus! {

pub const MAX_SOURCES: usize = 256;

pub const MAX_FLOWS: usize = 4096;

pub const MAX_RANGES: usize = 4096;

pub const MAX_LABELS_PER_RANGE: usize = 8;

#[derive(Debug, Clone, Copy, PartialEq, Eq, Structural)]
pub enum ProvenanceSourceKind {
    Sample,
    Network,
    Registry,
    VirtualFile,
    Transformation,
}

#[derive(Debug, Clone, Copy, PartialEq, Eq, Structural)]
pub enum ProvenanceSinkKind {
    ExecutableMemory,
    ProcessCommand,
    Persistence,
    NetworkRequest,
    RemoteProcess,
    VirtualFile,
}

/// The Debug name of a sink kind.
pub open spec fn sink_text(k: ProvenanceSinkKind) -> Seq<char> {
    match k {
        ProvenanceSinkKind::ExecutableMemory => "ExecutableMemory"@,
        ProvenanceSinkKind::ProcessCommand => "ProcessCommand"@,
        ProvenanceSinkKind::Persistence => "Persistence"@,
        ProvenanceSinkKind::NetworkRequest => "NetworkRequest"@,
        ProvenanceSinkKind::RemoteProcess => "RemoteProcess"@,
        ProvenanceSinkKind::VirtualFile => "VirtualFile"@,
    }
}

fn sink_name(k: ProvenanceSinkKind) -> (s: &'static str)
    ensures
        s@ == sink_text(k),
{
    match k {
        ProvenanceSinkKind::ExecutableMemory => "ExecutableMemory",
        ProvenanceSinkKind::ProcessCommand => "ProcessCommand",
        ProvenanceSinkKind::Persistence => "Persistence",
        ProvenanceSinkKind::NetworkRequest => "NetworkRequest",
        ProvenanceSinkKind::RemoteProcess => "RemoteProcess",
        ProvenanceSinkKind::VirtualFile => "VirtualFile",
    }
}

/// A labelled origin of guest data.
#[derive(Debug)]
pub struct ProvenanceSource {
    pub id: String,
    pub kind: ProvenanceSourceKind,
    pub label: String,
    pub address: u64,
    pub size: u64,
    pub api: String,
    pub instruction: u64,
    pub parent_ids: Vec<String>,
}

/// Labelled data reaching a sink.
#[derive(Debug)]
pub struct ProvenanceFlow {
    pub sequence: u64,
    pub source_ids: Vec<String>,
    pub sink: ProvenanceSinkKind,
    pub destination: String,
    pub address: u64,
    pub size: u64,
    pub api: String,
    pub instruction: u64,
}

#[derive(Debug, Clone, Copy, PartialEq, Eq)]
pub struct ProvenanceStats {
    pub source_count: usize,
    pub flow_count: usize,
    pub tracked_ranges: usize,
    pub truncated: bool,
}

/// The texts of a sequence of strings.
pub open spec fn string_views(v: Seq<String>) -> Seq<Seq<char>> {
    v.map_values(|s: String| s@)
}

pub struct SourceView {
    pub id: Seq<char>,
    pub kind: ProvenanceSourceKind,
    pub label: Seq<char>,
    pub address: u64,
    pub size: u64,
    pub api: Seq<char>,
    pub instruction: u64,
    pub parent_ids: Seq<Seq<char>>,
}

impl View for ProvenanceSource {
    type V = SourceView;

    open spec fn view(&self) -> SourceView {
        SourceView {
            id: self.id@,
            kind: self.kind,
            label: self.label@,
            address: self.address,
            size: self.size,
            api: self.api@,
            instruction: self.instruction,
            parent_ids: string_views(self.parent_ids@),
        }
    }
}

pub struct FlowView {
    pub sequence: u64,
    pub source_ids: Seq<Seq<char>>,
    pub sink: ProvenanceSinkKind,
    pub destination: Seq<char>,
    pub address: u64,
    pub size: u64,
    pub api: Seq<char>,
    pub instruction: u64,
}

impl View for ProvenanceFlow {
    type V = FlowView;

    open spec fn view(&self) -> FlowView {
        FlowView {
            sequence: self.sequence,
            source_ids: string_views(self.source_ids@),
            sink: self.sink,
            destination: self.destination@,
            address: self.address,
            size: self.size,
            api: self.api@,
            instruction: self.instruction,
        }
    }
}

pub open spec fn source_views(v: Seq<ProvenanceSource>) -> Seq<SourceView> {
    v.map_values(|s: ProvenanceSource| s@)
}

pub open spec fn flow_views(v: Seq<ProvenanceFlow>) -> Seq<FlowView> {
    v.map_values(|f: ProvenanceFlow| f@)
}

// ----- sorted label sets -----

/// Where `x` goes in `s` to keep it sorted, or -1 when an equal label sits
/// just before that place.
pub open spec fn label_slot(s: Seq<Seq<char>>, x: Seq<char>) -> int
    decreases s.len(),
{
    if s.len() == 0 {
        0
    } else if s.last() == x {
        -1
    } else if seq_less(s.last(), x) {
        s.len() as int
    } else {
        label_slot(s.drop_last(), x)
    }
}

/// `s` with `x` added in order (unchanged when already present).
pub open spec fn insert_label(s: Seq<Seq<char>>, x: Seq<char>) -> Seq<Seq<char>> {
    let p = label_slot(s, x);
    if p < 0 {
        s
    } else {
        s.insert(p, x)
    }
}

/// `s` with every label of `labels` added in order.
pub open spec fn add_labels(s: Seq<Seq<char>>, labels: Seq<Seq<char>>) -> Seq<Seq<char>>
    decreases labels.len(),
{
    if labels.len() == 0 {
        s
    } else {
        insert_label(add_labels(s, labels.drop_last()), labels.last())
    }
}

/// At most the first `n` items of `s`.
pub open spec fn take_at_most<T>(s: Seq<T>, n: nat) -> Seq<T> {
    if s.len() <= n {
        s
    } else {
        s.subrange(0, n as int)
    }
}

proof fn lemma_label_slot_bound(s: Seq<Seq<char>>, x: Seq<char>)
    ensures
        -1 <= label_slot(s, x) <= s.len(),
    decreases s.len(),
{
    if s.len() > 0 && s.last() != x && !seq_less(s.last(), x) {
        lemma_label_slot_bound(s.drop_last(), x);
    }
}

/// Adds `x` to the ordered label list `s`.
fn insert_label_exec(s: &mut Vec<String>, x: &String)
    ensures
        string_views(final(s)@) == insert_label(string_views(old(s)@), x@),
{
    let ghost v = string_views(s@);
    let xs = chars_of(x.as_str());
    let mut j: usize = s.len();
    assert(v.subrange(0, v.len() as int) =~= v);
    let mut present = false;
    while j > 0
        invariant_except_break
            !present,
            label_slot(v, x@) == label_slot(v.subrange(0, j as int), x@),
        invariant
            j <= s@.len(),
            v == string_views(s@),
            xs@ == x@,
        ensures
            j <= s@.len(),
            present ==> label_slot(v, x@) == -1,
            !present ==> label_slot(v, x@) == j as int,
        decreases j,
    {
        let pre = Ghost(v.subrange(0, j as int));
        assert(pre@.drop_last() =~= v.subrange(0, j - 1));
        let last = chars_of(s[j - 1].as_str());
        assert(pre@.last() == last@);
        if chars_equal(&last, &xs) {
            present = true;
            break;
        }
        if chars_less(&last, &xs) {
            break;
        }
        j = j - 1;
    }
    proof {
        if j == 0 {
            assert(v.subrange(0, 0) =~= Seq::<Seq<char>>::empty());
        }
    }
    if !present {
        s.insert(j, x.clone());
        assert(string_views(s@) =~= v.insert(j as int, x@));
    }
}

// ----- ranges -----

pub struct RangeView {
    pub start: u32,
    pub end: u32,
    pub labels: Seq<Seq<char>>,
}

struct TaintRange {
    start: u32,
    end: u32,
    labels: Vec<String>,
}

impl TaintRange {
    spec fn view(&self) -> RangeView {
        RangeView { start: self.start, end: self.end, labels: string_views(self.labels@) }
    }
}

spec fn range_views(v: Seq<TaintRange>) -> Seq<RangeView> {
    v.map_values(|r: TaintRange| r.view())
}

/// `[address, end)` and the range share an address.
pub open spec fn overlaps(r: RangeView, address: int, end: int) -> bool {
    address < r.end && end > r.start
}

/// Labels of the first `n` ranges that overlap `[address, end)`, sorted and
/// without duplicates; ranges after the point where eight labels are known
/// are not consulted.
pub open spec fn gathered(ranges: Seq<RangeView>, address: int, end: int, n: nat) -> Seq<Seq<char>>
    decreases n,
{
    if n == 0 || n > ranges.len() {
        Seq::empty()
    } else {
        let prev = gathered(ranges, address, end, (n - 1) as nat);
        let r = ranges[n - 1];
        if prev.len() >= MAX_LABELS_PER_RANGE {
            prev
        } else if overlaps(r, address, end) {
            add_labels(prev, r.labels)
        } else {
            prev
        }
    }
}

/// The end of `[address, address + size)` with the size cut to 32 bits, if it does not overflow.
pub open spec fn range_end(address: u32, size: usize) -> Option<u32> {
    let e = address + (size as int % 0x1_0000_0000);
    if e > u32::MAX {
        None
    } else {
        Some(e as u32)
    }
}

/// The labels that cover any part of `[address, address + size)`: at most
/// eight, in order.
pub open spec fn labels_spec(ranges: Seq<RangeView>, address: u32, size: usize) -> Seq<Seq<char>> {
    match range_end(address, size) {
        None => Seq::empty(),
        Some(end) => take_at_most(gathered(ranges, address as int, end as int, ranges.len()), MAX_LABELS_PER_RANGE as nat),
    }
}

/// The ranges that remain once `[address, end)` is cut out of each of them.
pub open spec fn cut_ranges(ranges: Seq<RangeView>, address: int, end: int) -> Seq<RangeView>
    decreases ranges.len(),
{
    if ranges.len() == 0 {
        Seq::empty()
    } else {
        let p = cut_ranges(ranges.drop_last(), address, end);
        let r = ranges.last();
        if !overlaps(r, address, end) {
            p.push(r)
        } else {
            let left = if r.start < address {
                p.push(RangeView { start: r.start, end: address as u32, labels: r.labels })
            } else {
                p
            };
            if r.end > end {
                left.push(RangeView { start: end as u32, end: r.end, labels: r.labels })
            } else {
                left
            }
        }
    }
}

/// Where a stable insertion by start places `x` in `s`.
pub open spec fn start_slot(s: Seq<RangeView>, x: RangeView) -> int
    decreases s.len(),
{
    if s.len() == 0 {
        0
    } else if s.last().start <= x.start {
        s.len() as int
    } else {
        start_slot(s.drop_last(), x)
    }
}

/// The stable sort of ranges by start.
pub open spec fn sort_by_start(s: Seq<RangeView>) -> Seq<RangeView>
    decreases s.len(),
{
    if s.len() == 0 {
        s
    } else {
        let sorted = sort_by_start(s.drop_last());
        sorted.insert(start_slot(sorted, s.last()), s.last())
    }
}

/// Joins each range into the previous one when they touch and carry the same labels.
pub open spec fn merge_touching(s: Seq<RangeView>) -> Seq<RangeView>
    decreases s.len(),
{
    if s.len() == 0 {
        s
    } else {
        let m = merge_touching(s.drop_last());
        let r = s.last();
        if m.len() > 0 && m.last().end == r.start && m.last().labels == r.labels {
            m.update(m.len() - 1, RangeView { end: r.end, ..m.last() })
        } else {
            m.push(r)
        }
    }
}

/// The ranges after `[address, end)` is relabelled with `labels` (no range
/// for it when `labels` is empty), before the count limit.
pub open spec fn relabelled(ranges: Seq<RangeView>, address: u32, end: u32, labels: Seq<Seq<char>>) -> Seq<RangeView> {
    let l = take_at_most(add_labels(Seq::empty(), labels), MAX_LABELS_PER_RANGE as nat);
    let pieces = cut_ranges(ranges, address as int, end as int);
    let next = if l.len() > 0 {
        pieces.push(RangeView { start: address, end, labels: l })
    } else {
        pieces
    };
    merge_touching(sort_by_start(next))
}

/// A copy of a list of strings.
fn copy_strings(v: &Vec<String>) -> (r: Vec<String>)
    ensures
        string_views(r@) == string_views(v@),
{
    let mut r: Vec<String> = Vec::new();
    let mut i: usize = 0;
    while i < v.len()
        invariant
            i <= v@.len(),
            string_views(r@) == string_views(v@).subrange(0, i as int),
        decreases v@.len() - i,
    {
        let c = v[i].clone();
        assert(c@ == string_views(v@)[i as int]);
        let ghost before = r@;
        r.push(c);
        assert(string_views(r@) =~= string_views(before).push(c@));
        assert(string_views(r@) =~= string_views(v@).subrange(0, i + 1));
        i = i + 1;
    }
    assert(string_views(v@).subrange(0, i as int) =~= string_views(v@));
    r
}

/// Whether two string lists hold the same texts.
fn same_strings(a: &Vec<String>, b: &Vec<String>) -> (r: bool)
    ensures
        r == (string_views(a@) == string_views(b@)),
{
    if a.len() != b.len() {
        assert(string_views(a@).len() != string_views(b@).len());
        return false;
    }
    let mut i: usize = 0;
    while i < a.len()
        invariant
            a@.len() == b@.len(),
            i <= a@.len(),
            forall|j: int| 0 <= j < i ==> a@[j]@ == b@[j]@,
        decreases a@.len() - i,
    {
        if a[i] != b[i] {
            assert(string_views(a@)[i as int] != string_views(b@)[i as int]);
            return false;
        }
        i = i + 1;
    }
    assert(string_views(a@) =~= string_views(b@));
    true
}

/// Removes the first range of `v`.
fn take_first(v: &mut Vec<TaintRange>) -> (r: TaintRange)
    requires
        old(v)@.len() > 0,
    ensures
        r.view() == range_views(old(v)@)[0],
        final(v)@.len() == old(v)@.len() - 1,
        range_views(final(v)@) == range_views(old(v)@).subrange(1, old(v)@.len() as int),
{
    let ghost before = range_views(v@);
    let ghost old_v = v@;
    let r = v.remove(0);
    assert(old_v[0] == r);
    assert forall|i: int| 0 <= i < v@.len() implies #[trigger] range_views(v@)[i] == before[i + 1] by {
        assert(v@[i] == old_v[i + 1]);
    }
    assert(range_views(v@) =~= before.subrange(1, before.len() as int));
    r
}

proof fn lemma_start_slot_bound(s: Seq<RangeView>, x: RangeView)
    ensures
        0 <= start_slot(s, x) <= s.len(),
    decreases s.len(),
{
    if s.len() > 0 && s.last().start > x.start {
        lemma_start_slot_bound(s.drop_last(), x);
    }
}

/// Inserts `x` after every range that does not start after it.
fn insert_by_start(sorted: &mut Vec<TaintRange>, x: TaintRange)
    ensures
        range_views(final(sorted)@) == range_views(old(sorted)@).insert(start_slot(range_views(old(sorted)@), x.view()), x.view()),
{
    let ghost s = range_views(sorted@);
    let mut j: usize = sorted.len();
    assert(s.subrange(0, s.len() as int) =~= s);
    while j > 0
        invariant
            j <= sorted@.len(),
            s == range_views(sorted@),
            start_slot(s, x.view()) == start_slot(s.subrange(0, j as int), x.view()),
        ensures
            j <= sorted@.len(),
            start_slot(s, x.view()) == start_slot(s.subrange(0, j as int), x.view()),
            j == 0 || s[j - 1].start <= x.start,
        decreases j,
    {
        let pre = Ghost(s.subrange(0, j as int));
        assert(pre@.drop_last() =~= s.subrange(0, j - 1));
        assert(pre@.last() == sorted@[j - 1].view());
        if sorted[j - 1].start <= x.start {
            break;
        }
        j = j - 1;
    }
    proof {
        if j == 0 {
            assert(s.subrange(0, 0) =~= Seq::<RangeView>::empty());
        }
        lemma_start_slot_bound(s, x.view());
    }
    let ghost xv = x.view();
    sorted.insert(j, x);
    assert(range_views(sorted@) =~= s.insert(j as int, xv));
}


/// The ids joined by ` + `.
pub open spec fn joined_ids(ids: Seq<Seq<char>>) -> Seq<char>
    decreases ids.len(),
{
    if ids.len() == 0 {
        Seq::empty()
    } else if ids.len() == 1 {
        ids[0]
    } else {
        joined_ids(ids.drop_last()) + " + "@ + ids.last()
    }
}

/// The evidence line of a flow.
pub open spec fn flow_line(f: FlowView) -> Seq<char> {
    joined_ids(f.source_ids) + " -> "@ + sink_text(f.sink) + " "@ + f.destination + " via "@ + f.api
}

/// Source ids are `source-` and the one-based count, zero-padded to four digits.
pub open spec fn source_id(n: nat) -> Seq<char> {
    "source-"@ + pad_left(decimal(n), 4, '0')
}

/// Tracks labelled sources, labelled ranges of guest memory and flows.
pub struct ProvenanceTracker {
    sources: Vec<ProvenanceSource>,
    flows: Vec<ProvenanceFlow>,
    ranges: Vec<TaintRange>,
    truncated: bool,
}

impl Default for ProvenanceTracker {
    fn default() -> (t: ProvenanceTracker)
        ensures
            t.wf(),
            t.sources_view() == Seq::<SourceView>::empty(),
            t.flows_view() == Seq::<FlowView>::empty(),
            t.ranges_view() == Seq::<RangeView>::empty(),
            !t.truncated_view(),
    {
        ProvenanceTracker::new()
    }
}

impl ProvenanceTracker {
    pub closed spec fn sources_view(&self) -> Seq<SourceView> {
        source_views(self.sources@)
    }

    pub closed spec fn flows_view(&self) -> Seq<FlowView> {
        flow_views(self.flows@)
    }

    pub closed spec fn ranges_view(&self) -> Seq<RangeView> {
        range_views(self.ranges@)
    }

    pub closed spec fn truncated_view(&self) -> bool {
        self.truncated
    }

    pub closed spec fn wf(&self) -> bool {
        &&& self.sources@.len() <= MAX_SOURCES
        &&& self.flows@.len() <= MAX_FLOWS
    }

    pub fn new() -> (t: ProvenanceTracker)
        ensures
            t.wf(),
            t.sources_view() == Seq::<SourceView>::empty(),
            t.flows_view() == Seq::<FlowView>::empty(),
            t.ranges_view() == Seq::<RangeView>::empty(),
            !t.truncated_view(),
    {
        let t = ProvenanceTracker { sources: Vec::new(), flows: Vec::new(), ranges: Vec::new(), truncated: false };
        assert(source_views(t.sources@) =~= Seq::<SourceView>::empty());
        assert(flow_views(t.flows@) =~= Seq::<FlowView>::empty());
        assert(range_views(t.ranges@) =~= Seq::<RangeView>::empty());
        t
    }

    pub fn flow_count(&self) -> (n: usize)
        ensures
            n == self.flows_view().len(),
    {
        self.flows.len()
    }

    /// Relabels `[address, address + size)` (the size cut to 32 bits): the
    /// labels are sorted, deduplicated and cut to eight; existing ranges lose
    /// the covered part; the ranges are ordered by start and touching ranges
    /// with equal labels joined; beyond the range limit the list is cut and
    /// the tracker marked truncated, as it is when the range would wrap.
    fn replace_range(&mut self, address: u32, size: usize, labels: Vec<String>)
        requires
            old(self).wf(),
        ensures
            final(self).wf(),
            final(self).sources_view() == old(self).sources_view(),
            final(self).flows_view() == old(self).flows_view(),
            match range_end(address, size) {
                None => final(self).ranges_view() == old(self).ranges_view() && final(self).truncated_view(),
                Some(end) => if size == 0 {
                    final(self).ranges_view() == old(self).ranges_view() && final(self).truncated_view() == old(self).truncated_view()
                } else {
                    let m = relabelled(old(self).ranges_view(), address, end, string_views(labels@));
                    &&& final(self).ranges_view() == take_at_most(m, MAX_RANGES as nat)
                    &&& final(self).truncated_view() == (old(self).truncated_view() || m.len() > MAX_RANGES)
                },
            },
    {
        let size32: u32 = (size as u64 % 0x1_0000_0000) as u32;
        if size32 > u32::MAX - address {
            self.truncated = true;
            return;
        }
        let end = address + size32;
        if size == 0 {
            return;
        }
        let ghost old_ranges = self.ranges_view();
        let ghost lv = string_views(labels@);
        // The requested labels, sorted and without duplicates.
        let mut normalized: Vec<String> = Vec::new();
        let mut k: usize = 0;
        assert(string_views(normalized@) =~= Seq::<Seq<char>>::empty());
        while k < labels.len()
            invariant
                k <= labels@.len(),
                lv == string_views(labels@),
                string_views(normalized@) == add_labels(Seq::empty(), lv.subrange(0, k as int)),
            decreases labels@.len() - k,
        {
            let ghost pre = lv.subrange(0, k + 1);
            assert(pre.drop_last() =~= lv.subrange(0, k as int));
            insert_label_exec(&mut normalized, &labels[k]);
            k = k + 1;
        }
        assert(lv.subrange(0, k as int) =~= lv);
        if normalized.len() > MAX_LABELS_PER_RANGE {
            normalized.truncate(MAX_LABELS_PER_RANGE);
        }
        assert(string_views(normalized@) =~= take_at_most(add_labels(Seq::empty(), lv), MAX_LABELS_PER_RANGE as nat));
        // Cut the relabelled span out of every range.
        let mut rest: Vec<TaintRange> = Vec::new();
        std::mem::swap(&mut rest, &mut self.ranges);
        assert(range_views(self.ranges@) =~= Seq::<RangeView>::empty());
        let mut pieces: Vec<TaintRange> = Vec::new();
        let mut done: usize = 0;
        let total = rest.len();
        assert(old_ranges.subrange(0, 0) =~= Seq::<RangeView>::empty());
        assert(old_ranges.subrange(0, old_ranges.len() as int) =~= old_ranges);
        while rest.len() > 0
            invariant
                done + rest@.len() == old_ranges.len(),
                old_ranges.len() == total,
                range_views(rest@) == old_ranges.subrange(done as int, old_ranges.len() as int),
                range_views(pieces@) == cut_ranges(old_ranges.subrange(0, done as int), address as int, end as int),
                self.wf(),
                self.sources_view() == old(self).sources_view(),
                self.flows_view() == old(self).flows_view(),
                self.truncated == old(self).truncated,
            decreases rest@.len(),
        {
            let r = take_first(&mut rest);
            let ghost pre = old_ranges.subrange(0, done + 1);
            assert(pre.drop_last() =~= old_ranges.subrange(0, done as int));
            assert(pre.last() == r.view());
            let ghost before = range_views(pieces@);
            if address >= r.end || end <= r.start {
                pieces.push(r);
                assert(range_views(pieces@) =~= before.push(r.view()));
            } else {
                let ghost rv = r.view();
                if r.start < address {
                    pieces.push(TaintRange { start: r.start, end: address, labels: copy_strings(&r.labels) });
                }
                let ghost mid = range_views(pieces@);
                assert(mid == if rv.start < address {
                    before.push(RangeView { start: rv.start, end: address, labels: rv.labels })
                } else {
                    before
                });
                if r.end > end {
                    pieces.push(TaintRange { start: end, end: r.end, labels: r.labels });
                    assert(range_views(pieces@) =~= mid.push(RangeView { start: end, end: rv.end, labels: rv.labels }));
                }
            }
            done = done + 1;
        }
        let ghost cut = range_views(pieces@);
        if normalized.len() > 0 {
            let ghost nv = string_views(normalized@);
            pieces.push(TaintRange { start: address, end, labels: normalized });
            assert(range_views(pieces@) =~= cut.push(RangeView { start: address, end, labels: nv }));
        }
        // Order by start.
        let ghost next = range_views(pieces@);
        let mut sorted: Vec<TaintRange> = Vec::new();
        let mut taken: usize = 0;
        let count = pieces.len();
        assert(next.subrange(0, 0) =~= Seq::<RangeView>::empty());
        while pieces.len() > 0
            invariant
                taken + pieces@.len() == next.len(),
                next.len() == count,
                range_views(pieces@) == next.subrange(taken as int, next.len() as int),
                range_views(sorted@) == sort_by_start(next.subrange(0, taken as int)),
            decreases pieces@.len(),
        {
            let r = take_first(&mut pieces);
            let ghost pre = next.subrange(0, taken + 1);
            assert(pre.drop_last() =~= next.subrange(0, taken as int));
            assert(pre.last() == r.view());
            insert_by_start(&mut sorted, r);
            taken = taken + 1;
        }
        assert(next.subrange(0, taken as int) =~= next);
        // Join touching ranges with equal labels.
        let ghost ordered = range_views(sorted@);
        let mut merged: Vec<TaintRange> = Vec::new();
        let mut joined: usize = 0;
        let count2 = sorted.len();
        assert(ordered.subrange(0, 0) =~= Seq::<RangeView>::empty());
        while sorted.len() > 0
            invariant
                joined + sorted@.len() == ordered.len(),
                ordered.len() == count2,
                range_views(sorted@) == ordered.subrange(joined as int, ordered.len() as int),
                range_views(merged@) == merge_touching(ordered.subrange(0, joined as int)),
            decreases sorted@.len(),
        {
            let r = take_first(&mut sorted);
            let ghost pre = ordered.subrange(0, joined + 1);
            assert(pre.drop_last() =~= ordered.subrange(0, joined as int));
            assert(pre.last() == r.view());
            let ghost before = range_views(merged@);
            let n = merged.len();
            if n > 0 && merged[n - 1].end == r.start && same_strings(&merged[n - 1].labels, &r.labels) {
                let ghost last = before[n - 1];
                merged[n - 1].end = r.end;
                assert(range_views(merged@) =~= before.update(n - 1, RangeView { end: r.end, ..last }));
            } else {
                let ghost rv = r.view();
                merged.push(r);
                assert(range_views(merged@) =~= before.push(rv));
            }
            joined = joined + 1;
        }
        assert(ordered.subrange(0, joined as int) =~= ordered);
        if merged.len() > MAX_RANGES {
            merged.truncate(MAX_RANGES);
            self.truncated = true;
        }
        self.ranges = merged;
        assert(self.ranges_view() =~= take_at_most(relabelled(old_ranges, address, end, lv), MAX_RANGES as nat));
    }

    /// Records a source of `size` bytes at `address` derived from
    /// `parent_ids`, and labels that range with its id; nothing happens for
    /// an empty range, and past the source limit the tracker is marked truncated.
    pub fn source_with_parents(
        &mut self,
        kind: ProvenanceSourceKind,
        label: String,
        address: u32,
        size: usize,
        api: String,
        instruction: u64,
        parent_ids: Vec<String>,
    ) -> (r: Option<String>)
        requires
            old(self).wf(),
        ensures
            final(self).wf(),
            final(self).flows_view() == old(self).flows_view(),
            size == 0 ==> r is None && final(self).sources_view() == old(self).sources_view()
                && final(self).ranges_view() == old(self).ranges_view() && final(self).truncated_view() == old(self).truncated_view(),
            size > 0 && old(self).sources_view().len() >= MAX_SOURCES ==> r is None && final(self).sources_view()
                == old(self).sources_view() && final(self).ranges_view() == old(self).ranges_view() && final(self).truncated_view(),
            size > 0 && old(self).sources_view().len() < MAX_SOURCES ==> {
                let id = source_id(old(self).sources_view().len() + 1);
                &&& r matches Some(s) && s@ == id
                &&& final(self).sources_view() == old(self).sources_view().push(SourceView {
                    id,
                    kind,
                    label: label@,
                    address: address as u64,
                    size: size as u64,
                    api: api@,
                    instruction,
                    parent_ids: string_views(parent_ids@),
                })
                &&& match range_end(address, size) {
                    None => final(self).ranges_view() == old(self).ranges_view() && final(self).truncated_view(),
                    Some(end) => {
                        let m = relabelled(old(self).ranges_view(), address, end, seq![id]);
                        &&& final(self).ranges_view() == take_at_most(m, MAX_RANGES as nat)
                        &&& final(self).truncated_view() == (old(self).truncated_view() || m.len() > MAX_RANGES)
                    },
                }
            },
    {
        if size == 0 {
            return None;
        }
        if self.sources.len() >= MAX_SOURCES {
            self.truncated = true;
            return None;
        }
        let mut id = String::new();
        push_str(&mut id, "source-");
        push_decimal_padded(&mut id, (self.sources.len() + 1) as u64, 4);
        let ghost before = source_views(self.sources@);
        let source = ProvenanceSource {
            id: id.clone(),
            kind,
            label,
            address: address as u64,
            size: size as u64,
            api,
            instruction,
            parent_ids,
        };
        let ghost sv = source@;
        self.sources.push(source);
        assert(source_views(self.sources@) =~= before.push(sv));
        let mut labels: Vec<String> = Vec::new();
        labels.push(id.clone());
        assert(string_views(labels@) =~= seq![id@]);
        self.replace_range(address, size, labels);
        Some(id)
    }

    /// Records a source with no parents.
    pub fn source(&mut self, kind: ProvenanceSourceKind, label: String, address: u32, size: usize, api: String, instruction: u64) -> (r: Option<String>)
        requires
            old(self).wf(),
        ensures
            final(self).wf(),
            final(self).flows_view() == old(self).flows_view(),
            size == 0 ==> r is None && final(self).sources_view() == old(self).sources_view()
                && final(self).ranges_view() == old(self).ranges_view() && final(self).truncated_view() == old(self).truncated_view(),
            size > 0 && old(self).sources_view().len() >= MAX_SOURCES ==> r is None && final(self).sources_view()
                == old(self).sources_view() && final(self).ranges_view() == old(self).ranges_view() && final(self).truncated_view(),
            size > 0 && old(self).sources_view().len() < MAX_SOURCES ==> {
                let id = source_id(old(self).sources_view().len() + 1);
                &&& r matches Some(s) && s@ == id
                &&& final(self).sources_view() == old(self).sources_view().push(SourceView {
                    id,
                    kind,
                    label: label@,
                    address: address as u64,
                    size: size as u64,
                    api: api@,
                    instruction,
                    parent_ids: Seq::empty(),
                })
                &&& match range_end(address, size) {
                    None => final(self).ranges_view() == old(self).ranges_view() && final(self).truncated_view(),
                    Some(end) => {
                        let m = relabelled(old(self).ranges_view(), address, end, seq![id]);
                        &&& final(self).ranges_view() == take_at_most(m, MAX_RANGES as nat)
                        &&& final(self).truncated_view() == (old(self).truncated_view() || m.len() > MAX_RANGES)
                    },
                }
            },
    {
        let parents: Vec<String> = Vec::new();
        assert(string_views(parents@) =~= Seq::<Seq<char>>::empty());
        self.source_with_parents(kind, label, address, size, api, instruction, parents)
    }

    /// Records a transformation of `[source_address, +source_size)` into
    /// `[destination, +destination_size)`: its parents are the labels of the source span.
    pub fn derive_sized(
        &mut self,
        source_address: u32,
        source_size: usize,
        destination: u32,
        destination_size: usize,
        label: String,
        api: String,
        instruction: u64,
    ) -> (r: Option<String>)
        requires
            old(self).wf(),
        ensures
            final(self).wf(),
            final(self).flows_view() == old(self).flows_view(),
            destination_size == 0 ==> r is None && final(self).sources_view() == old(self).sources_view()
                && final(self).ranges_view() == old(self).ranges_view() && final(self).truncated_view() == old(self).truncated_view(),
            destination_size > 0 && old(self).sources_view().len() >= MAX_SOURCES ==> r is None && final(self).sources_view()
                == old(self).sources_view() && final(self).ranges_view() == old(self).ranges_view() && final(self).truncated_view(),
            destination_size > 0 && old(self).sources_view().len() < MAX_SOURCES ==> {
                let id = source_id(old(self).sources_view().len() + 1);
                &&& r matches Some(s) && s@ == id
                &&& final(self).sources_view() == old(self).sources_view().push(SourceView {
                    id,
                    kind: ProvenanceSourceKind::Transformation,
                    label: label@,
                    address: destination as u64,
                    size: destination_size as u64,
                    api: api@,
                    instruction,
                    parent_ids: labels_spec(old(self).ranges_view(), source_address, source_size),
                })
                &&& match range_end(destination, destination_size) {
                    None => final(self).ranges_view() == old(self).ranges_view() && final(self).truncated_view(),
                    Some(end) => {
                        let m = relabelled(old(self).ranges_view(), destination, end, seq![id]);
                        &&& final(self).ranges_view() == take_at_most(m, MAX_RANGES as nat)
                        &&& final(self).truncated_view() == (old(self).truncated_view() || m.len() > MAX_RANGES)
                    },
                }
            },
    {
        let parents = self.labels_for(source_address, source_size);
        self.source_with_parents(
            ProvenanceSourceKind::Transformation,
            label,
            destination,
            destination_size,
            api,
            instruction,
            parents,
        )
    }

    /// A transformation between spans of equal size.
    pub fn derive(&mut self, source_address: u32, destination: u32, size: usize, label: String, api: String, instruction: u64) -> (r: Option<String>)
        requires
            old(self).wf(),
        ensures
            final(self).wf(),
            final(self).flows_view() == old(self).flows_view(),
            size == 0 ==> r is None && final(self).sources_view() == old(self).sources_view()
                && final(self).ranges_view() == old(self).ranges_view() && final(self).truncated_view() == old(self).truncated_view(),
            size > 0 && old(self).sources_view().len() >= MAX_SOURCES ==> r is None && final(self).sources_view()
                == old(self).sources_view() && final(self).ranges_view() == old(self).ranges_view() && final(self).truncated_view(),
            size > 0 && old(self).sources_view().len() < MAX_SOURCES ==> {
                let id = source_id(old(self).sources_view().len() + 1);
                &&& r matches Some(s) && s@ == id
                &&& final(self).sources_view() == old(self).sources_view().push(SourceView {
                    id,
                    kind: ProvenanceSourceKind::Transformation,
                    label: label@,
                    address: destination as u64,
                    size: size as u64,
                    api: api@,
                    instruction,
                    parent_ids: labels_spec(old(self).ranges_view(), source_address, size),
                })
                &&& match range_end(destination, size) {
                    None => final(self).ranges_view() == old(self).ranges_view() && final(self).truncated_view(),
                    Some(end) => {
                        let m = relabelled(old(self).ranges_view(), destination, end, seq![id]);
                        &&& final(self).ranges_view() == take_at_most(m, MAX_RANGES as nat)
                        &&& final(self).truncated_view() == (old(self).truncated_view() || m.len() > MAX_RANGES)
                    },
                }
            },
    {
        self.derive_sized(source_address, size, destination, size, label, api, instruction)
    }

    /// Copies the labels of `[source, +size)` onto `[destination, +size)`.
    pub fn propagate(&mut self, source: u32, destination: u32, size: usize)
        requires
            old(self).wf(),
        ensures
            final(self).wf(),
            final(self).sources_view() == old(self).sources_view(),
            final(self).flows_view() == old(self).flows_view(),
            size == 0 ==> final(self).ranges_view() == old(self).ranges_view() && final(self).truncated_view() == old(self).truncated_view(),
            size > 0 ==> match range_end(destination, size) {
                None => final(self).ranges_view() == old(self).ranges_view() && final(self).truncated_view(),
                Some(end) => {
                    let m = relabelled(old(self).ranges_view(), destination, end, labels_spec(old(self).ranges_view(), source, size));
                    &&& final(self).ranges_view() == take_at_most(m, MAX_RANGES as nat)
                    &&& final(self).truncated_view() == (old(self).truncated_view() || m.len() > MAX_RANGES)
                },
            },
    {
        if size == 0 {
            return;
        }
        let labels = self.labels_for(source, size);
        self.replace_range(destination, size, labels);
    }

    /// Removes every label from `[address, +size)`.
    pub fn clear(&mut self, address: u32, size: usize)
        requires
            old(self).wf(),
        ensures
            final(self).wf(),
            final(self).sources_view() == old(self).sources_view(),
            final(self).flows_view() == old(self).flows_view(),
            match range_end(address, size) {
                None => final(self).ranges_view() == old(self).ranges_view() && final(self).truncated_view(),
                Some(end) => if size == 0 {
                    final(self).ranges_view() == old(self).ranges_view() && final(self).truncated_view() == old(self).truncated_view()
                } else {
                    let m = relabelled(old(self).ranges_view(), address, end, Seq::empty());
                    &&& final(self).ranges_view() == take_at_most(m, MAX_RANGES as nat)
                    &&& final(self).truncated_view() == (old(self).truncated_view() || m.len() > MAX_RANGES)
                },
            },
    {
        let labels: Vec<String> = Vec::new();
        assert(string_views(labels@) =~= Seq::<Seq<char>>::empty());
        self.replace_range(address, size, labels);
    }

    /// Records a flow into `sink` when `[address, +size)` carries labels;
    /// past the flow limit the tracker is marked truncated instead.
    pub fn observe(&mut self, address: u32, size: usize, sink: ProvenanceSinkKind, destination: String, api: String, instruction: u64)
        requires
            old(self).wf(),
        ensures
            final(self).wf(),
            final(self).sources_view() == old(self).sources_view(),
            final(self).ranges_view() == old(self).ranges_view(),
            ({
                let ids = labels_spec(old(self).ranges_view(), address, size);
                if ids.len() == 0 {
                    final(self).flows_view() == old(self).flows_view() && final(self).truncated_view() == old(self).truncated_view()
                } else if old(self).flows_view().len() >= MAX_FLOWS {
                    final(self).flows_view() == old(self).flows_view() && final(self).truncated_view()
                } else {
                    &&& final(self).flows_view() == old(self).flows_view().push(FlowView {
                        sequence: old(self).flows_view().len() as u64,
                        source_ids: ids,
                        sink,
                        destination: destination@,
                        address: address as u64,
                        size: size as u64,
                        api: api@,
                        instruction,
                    })
                    &&& final(self).truncated_view() == old(self).truncated_view()
                }
            }),
    {
        let source_ids = self.labels_for(address, size);
        if source_ids.len() == 0 {
            return;
        }
        if self.flows.len() >= MAX_FLOWS {
            self.truncated = true;
            return;
        }
        let ghost before = flow_views(self.flows@);
        let flow = ProvenanceFlow {
            sequence: self.flows.len() as u64,
            source_ids,
            sink,
            destination,
            address: address as u64,
            size: size as u64,
            api,
            instruction,
        };
        let ghost fv = flow@;
        self.flows.push(flow);
        assert(flow_views(self.flows@) =~= before.push(fv));
    }

    /// The sources, the flows and their totals.
    pub fn finish(self) -> (r: (Vec<ProvenanceSource>, Vec<ProvenanceFlow>, ProvenanceStats))
        ensures
            source_views(r.0@) == self.sources_view(),
            flow_views(r.1@) == self.flows_view(),
            r.2 == (ProvenanceStats {
                source_count: self.sources_view().len() as usize,
                flow_count: self.flows_view().len() as usize,
                tracked_ranges: self.ranges_view().len() as usize,
                truncated: self.truncated_view(),
            }),
    {
        let stats = ProvenanceStats {
            source_count: self.sources.len(),
            flow_count: self.flows.len(),
            tracked_ranges: self.ranges.len(),
            truncated: self.truncated,
        };
        (self.sources, self.flows, stats)
    }

    /// One line per flow, for at most the first twenty flows:
    /// `ids joined by " + " -> Sink destination via api`.
    pub fn flow_evidence(&self) -> (r: Vec<String>)
        ensures
            r@.len() == if self.flows_view().len() < 20 { self.flows_view().len() } else { 20 },
            forall|k: int| 0 <= k < r@.len() ==> (#[trigger] r@[k])@ == flow_line(self.flows_view()[k]),
    {
        let mut out: Vec<String> = Vec::new();
        let mut i: usize = 0;
        while i < self.flows.len() && i < 20
            invariant
                i <= self.flows@.len(),
                i <= 20,
                out@.len() == i,
                forall|k: int| 0 <= k < i ==> (#[trigger] out@[k])@ == flow_line(self.flows_view()[k]),
            decreases self.flows@.len() - i,
        {
            let flow = &self.flows[i];
            assert(self.flows_view()[i as int] == flow@);
            let mut line = String::new();
            let mut k: usize = 0;
            while k < flow.source_ids.len()
                invariant
                    k <= flow.source_ids@.len(),
                    line@ == joined_ids(string_views(flow.source_ids@).subrange(0, k as int)),
                decreases flow.source_ids@.len() - k,
            {
                let ghost pre = string_views(flow.source_ids@).subrange(0, k + 1);
                assert(pre.drop_last() =~= string_views(flow.source_ids@).subrange(0, k as int));
                if k > 0 {
                    push_str(&mut line, " + ");
                }
                push_str(&mut line, flow.source_ids[k].as_str());
                k = k + 1;
            }
            assert(string_views(flow.source_ids@).subrange(0, k as int) =~= string_views(flow.source_ids@));
            push_str(&mut line, " -> ");
            push_str(&mut line, sink_name(flow.sink));
            push_str(&mut line, " ");
            push_str(&mut line, flow.destination.as_str());
            push_str(&mut line, " via ");
            push_str(&mut line, flow.api.as_str());
            out.push(line);
            i = i + 1;
        }
        out
    }

    /// The labels covering `[address, address + size)`.
    pub fn labels_for(&self, address: u32, size: usize) -> (r: Vec<String>)
        ensures
            string_views(r@) == labels_spec(self.ranges_view(), address, size),
    {
        let ghost rs = self.ranges_view();
        let size32: u32 = (size as u64 % 0x1_0000_0000) as u32;
        if size32 > u32::MAX - address {
            return Vec::new();
        }
        let end = address + size32;
        let mut labels: Vec<String> = Vec::new();
        let mut i: usize = 0;
        assert(string_views(labels@) =~= Seq::<Seq<char>>::empty());
        while i < self.ranges.len()
            invariant
                i <= self.ranges@.len(),
                rs == self.ranges_view(),
                string_views(labels@) == gathered(rs, address as int, end as int, i as nat),
            ensures
                string_views(labels@) == gathered(rs, address as int, end as int, rs.len()),
            decreases self.ranges@.len() - i,
        {
            let range = &self.ranges[i];
            assert(rs[i as int] == range.view());
            if labels.len() >= MAX_LABELS_PER_RANGE {
                proof {
                    lemma_gathered_stops(rs, address as int, end as int, i as nat, rs.len());
                }
                break;
            }
            if address < range.end && end > range.start {
                let mut k: usize = 0;
                let ghost before = string_views(labels@);
                while k < range.labels.len()
                    invariant
                        k <= range.labels@.len(),
                        string_views(labels@) == add_labels(before, string_views(range.labels@).subrange(0, k as int)),
                    decreases range.labels@.len() - k,
                {
                    let ghost pre = string_views(range.labels@).subrange(0, k + 1);
                    assert(pre.drop_last() =~= string_views(range.labels@).subrange(0, k as int));
                    insert_label_exec(&mut labels, &range.labels[k]);
                    k = k + 1;
                }
                assert(string_views(range.labels@).subrange(0, k as int) =~= string_views(range.labels@));
            }
            i = i + 1;
        }
        if labels.len() > MAX_LABELS_PER_RANGE {
            labels.truncate(MAX_LABELS_PER_RANGE);
        }
        assert(string_views(labels@) =~= labels_spec(rs, address, size));
        labels
    }
}

proof fn lemma_gathered_stops(rs: Seq<RangeView>, address: int, end: int, n: nat, m: nat)
    requires
        gathered(rs, address, end, n).len() >= MAX_LABELS_PER_RANGE,
        n <= m <= rs.len(),
    ensures
        gathered(rs, address, end, m) == gathered(rs, address, end, n),
    decreases m,
{
    if m > n {
        lemma_gathered_stops(rs, address, end, n, (m - 1) as nat);
    }
}

/// No range shares an address with `[address, end)`.
pub open spec fn none_overlap(s: Seq<RangeView>, address: int, end: int) -> bool {
    forall|i: int| 0 <= i < s.len() ==> !overlaps(#[trigger] s[i], address, end)
}

proof fn lemma_cut_clears(ranges: Seq<RangeView>, address: int, end: int)
    requires
        address < end,
    ensures
        none_overlap(cut_ranges(ranges, address, end), address, end),
    decreases ranges.len(),
{
    if ranges.len() > 0 {
        lemma_cut_clears(ranges.drop_last(), address, end);
    }
}

proof fn lemma_sort_keeps(s: Seq<RangeView>, address: int, end: int)
    requires
        none_overlap(s, address, end),
    ensures
        none_overlap(sort_by_start(s), address, end),
    decreases s.len(),
{
    if s.len() > 0 {
        lemma_sort_keeps(s.drop_last(), address, end);
        let sorted = sort_by_start(s.drop_last());
        lemma_start_slot_bound(sorted, s.last());
        let p = start_slot(sorted, s.last());
        assert forall|i: int| 0 <= i < sorted.insert(p, s.last()).len() implies !overlaps(
            #[trigger] sorted.insert(p, s.last())[i],
            address,
            end,
        ) by {
            if i < p {
                assert(sorted.insert(p, s.last())[i] == sorted[i]);
            } else if i > p {
                assert(sorted.insert(p, s.last())[i] == sorted[i - 1]);
            }
        }
    }
}

proof fn lemma_merge_keeps(s: Seq<RangeView>, address: int, end: int)
    requires
        address < end,
        none_overlap(s, address, end),
    ensures
        none_overlap(merge_touching(s), address, end),
    decreases s.len(),
{
    if s.len() > 0 {
        lemma_merge_keeps(s.drop_last(), address, end);
        let m = merge_touching(s.drop_last());
        let r = s.last();
        if m.len() > 0 && m.last().end == r.start && m.last().labels == r.labels {
            let joined = RangeView { end: r.end, ..m.last() };
            assert(!overlaps(m.last(), address, end));
            assert(!overlaps(r, address, end));
            assert(!overlaps(joined, address, end));
            assert forall|i: int| 0 <= i < m.len() implies !overlaps(#[trigger] m.update(m.len() - 1, joined)[i], address, end) by {
                if i < m.len() - 1 {
                    assert(m.update(m.len() - 1, joined)[i] == m[i]);
                }
            }
        }
    }
}

proof fn lemma_gathered_empty(rs: Seq<RangeView>, address: int, end: int, n: nat)
    requires
        none_overlap(rs, address, end),
        n <= rs.len(),
    ensures
        gathered(rs, address, end, n) == Seq::<Seq<char>>::empty(),
    decreases n,
{
    if n > 0 {
        lemma_gathered_empty(rs, address, end, (n - 1) as nat);
        assert(!overlaps(rs[n - 1], address, end));
    }
}

/// After a span is cleared, no label covers any part of it. (A size that is
/// a non-zero multiple of 2^32 wraps to an empty span and is left out.)
pub proof fn law_clear_removes_labels(ranges: Seq<RangeView>, address: u32, size: usize, end: u32)
    requires
        size as int % 0x1_0000_0000 != 0,
        range_end(address, size) == Some(end),
    ensures
        labels_spec(
            take_at_most(relabelled(ranges, address, end, Seq::empty()), MAX_RANGES as nat),
            address,
            size,
        ) == Seq::<Seq<char>>::empty(),
{
    let a = address as int;
    let e = end as int;
    assert(a < e);
    assert(add_labels(Seq::<Seq<char>>::empty(), Seq::<Seq<char>>::empty()) == Seq::<Seq<char>>::empty());
    lemma_cut_clears(ranges, a, e);
    let pieces = cut_ranges(ranges, a, e);
    lemma_sort_keeps(pieces, a, e);
    lemma_merge_keeps(sort_by_start(pieces), a, e);
    let m = relabelled(ranges, address, end, Seq::empty());
    let t = take_at_most(m, MAX_RANGES as nat);
    assert(none_overlap(t, a, e));
    lemma_gathered_empty(t, a, e, t.len());
}

/// Clearing a span and then observing any part of it: no label is found
/// there, so the observation records no flow (see `observe`), whatever was
/// labelled before. (A size that is a non-zero multiple of 2^32 wraps to an
/// empty span and is left out.)
pub proof fn law_clear_then_observe(ranges: Seq<RangeView>, address: u32, size: usize, end: u32, x: u32, m: usize, xe: u32)
    requires
        size as int % 0x1_0000_0000 != 0,
        range_end(address, size) == Some(end),
        range_end(x, m) == Some(xe),
        address <= x,
        xe <= end,
    ensures
        labels_spec(take_at_most(relabelled(ranges, address, end, Seq::empty()), MAX_RANGES as nat), x, m)
            == Seq::<Seq<char>>::empty(),
{
    let a = address as int;
    let e = end as int;
    assert(a < e);
    assert(add_labels(Seq::<Seq<char>>::empty(), Seq::<Seq<char>>::empty()) == Seq::<Seq<char>>::empty());
    lemma_cut_clears(ranges, a, e);
    let pieces = cut_ranges(ranges, a, e);
    lemma_sort_keeps(pieces, a, e);
    lemma_merge_keeps(sort_by_start(pieces), a, e);
    let t = take_at_most(relabelled(ranges, address, end, Seq::empty()), MAX_RANGES as nat);
    assert(none_overlap(t, a, e));
    assert(none_overlap(t, x as int, xe as int)) by {
        assert forall|i: int| 0 <= i < t.len() implies !overlaps(#[trigger] t[i], x as int, xe as int) by {
            assert(!overlaps(t[i], a, e));
        }
    }
    lemma_gathered_empty(t, x as int, xe as int, t.len());
}


/// Every range overlapping `[x, xe)` carries exactly the labels `l`.
pub open spec fn labelled_within(s: Seq<RangeView>, x: int, xe: int, l: Seq<Seq<char>>) -> bool {
    forall|i: int| 0 <= i < s.len() && overlaps(#[trigger] s[i], x, xe) ==> s[i].labels == l
}

/// Every range starts no later than it ends.
pub open spec fn ordered_ranges(s: Seq<RangeView>) -> bool {
    forall|i: int| 0 <= i < s.len() ==> (#[trigger] s[i]).start <= s[i].end
}

proof fn lemma_cut_ordered(ranges: Seq<RangeView>, address: int, end: int)
    requires
        ordered_ranges(ranges),
        0 <= address < end <= u32::MAX,
    ensures
        ordered_ranges(cut_ranges(ranges, address, end)),
    decreases ranges.len(),
{
    if ranges.len() > 0 {
        let d = ranges.drop_last();
        assert(ordered_ranges(d)) by {
            assert forall|i: int| 0 <= i < d.len() implies (#[trigger] d[i]).start <= d[i].end by {
                assert(d[i] == ranges[i]);
            }
        }
        lemma_cut_ordered(d, address, end);
        assert(ranges[ranges.len() - 1] == ranges.last());
        let p = cut_ranges(d, address, end);
        let c = cut_ranges(ranges, address, end);
        assert forall|i: int| 0 <= i < c.len() implies (#[trigger] c[i]).start <= c[i].end by {
            if i < p.len() {
                let r = ranges.last();
                if !overlaps(r, address, end) {
                    assert(c[i] == p[i]);
                } else {
                    let left = if r.start < address {
                        p.push(RangeView { start: r.start, end: address as u32, labels: r.labels })
                    } else {
                        p
                    };
                    assert(left[i] == p[i]);
                    if r.end > end {
                        assert(c[i] == left[i]);
                    }
                }
            }
        }
    }
}

/// Some range overlaps `[x, xe)`.
pub open spec fn some_overlap(s: Seq<RangeView>, x: int, xe: int) -> bool {
    exists|i: int| 0 <= i < s.len() && overlaps(#[trigger] s[i], x, xe)
}

proof fn lemma_sort_labelled(s: Seq<RangeView>, x: int, xe: int, l: Seq<Seq<char>>)
    requires
        labelled_within(s, x, xe, l),
        ordered_ranges(s),
    ensures
        labelled_within(sort_by_start(s), x, xe, l),
        ordered_ranges(sort_by_start(s)),
        some_overlap(s, x, xe) ==> some_overlap(sort_by_start(s), x, xe),
    decreases s.len(),
{
    if s.len() > 0 {
        let d = s.drop_last();
        assert(labelled_within(d, x, xe, l)) by {
            assert forall|i: int| 0 <= i < d.len() && overlaps(#[trigger] d[i], x, xe) implies d[i].labels == l by {
                assert(d[i] == s[i]);
            }
        }
        assert(ordered_ranges(d)) by {
            assert forall|i: int| 0 <= i < d.len() implies (#[trigger] d[i]).start <= d[i].end by {
                assert(d[i] == s[i]);
            }
        }
        lemma_sort_labelled(d, x, xe, l);
        let sorted = sort_by_start(d);
        lemma_start_slot_bound(sorted, s.last());
        let p = start_slot(sorted, s.last());
        let r = sorted.insert(p, s.last());
        assert(r == sort_by_start(s));
        assert forall|i: int| 0 <= i < r.len() && overlaps(#[trigger] r[i], x, xe) implies r[i].labels == l by {
            if i < p {
                assert(r[i] == sorted[i]);
            } else if i > p {
                assert(r[i] == sorted[i - 1]);
            } else {
                assert(s[s.len() - 1] == s.last());
            }
        }
        assert forall|i: int| 0 <= i < r.len() implies (#[trigger] r[i]).start <= r[i].end by {
            if i < p {
                assert(r[i] == sorted[i]);
            } else if i > p {
                assert(r[i] == sorted[i - 1]);
            } else {
                assert(s[s.len() - 1] == s.last());
            }
        }
        if some_overlap(s, x, xe) {
            let k = choose|k: int| 0 <= k < s.len() && overlaps(#[trigger] s[k], x, xe);
            if k == s.len() - 1 {
                assert(overlaps(r[p], x, xe));
            } else {
                assert(d[k] == s[k]);
                assert(some_overlap(d, x, xe));
                let q = choose|q: int| 0 <= q < sorted.len() && overlaps(#[trigger] sorted[q], x, xe);
                if q < p {
                    assert(r[q] == sorted[q]);
                } else {
                    assert(r[q + 1] == sorted[q]);
                }
            }
        }
    }
}

proof fn lemma_merge_labelled(s: Seq<RangeView>, x: int, xe: int, l: Seq<Seq<char>>)
    requires
        labelled_within(s, x, xe, l),
        ordered_ranges(s),
        x < xe,
    ensures
        labelled_within(merge_touching(s), x, xe, l),
        ordered_ranges(merge_touching(s)),
        some_overlap(s, x, xe) ==> some_overlap(merge_touching(s), x, xe),
    decreases s.len(),
{
    if s.len() > 0 {
        let d = s.drop_last();
        assert(labelled_within(d, x, xe, l)) by {
            assert forall|i: int| 0 <= i < d.len() && overlaps(#[trigger] d[i], x, xe) implies d[i].labels == l by {
                assert(d[i] == s[i]);
            }
        }
        assert(ordered_ranges(d)) by {
            assert forall|i: int| 0 <= i < d.len() implies (#[trigger] d[i]).start <= d[i].end by {
                assert(d[i] == s[i]);
            }
        }
        lemma_merge_labelled(d, x, xe, l);
        let m = merge_touching(d);
        let r = s.last();
        assert(s[s.len() - 1] == r);
        assert(r.start <= r.end);
        if m.len() > 0 && m.last().end == r.start && m.last().labels == r.labels {
            let joined = RangeView { end: r.end, ..m.last() };
            let out = m.update(m.len() - 1, joined);
            assert(m[m.len() - 1] == m.last());
            assert(m.last().start <= m.last().end);
            assert forall|i: int| 0 <= i < out.len() implies (#[trigger] out[i]).start <= out[i].end by {
                if i < m.len() - 1 {
                    assert(out[i] == m[i]);
                }
            }
            assert forall|i: int| 0 <= i < out.len() && overlaps(#[trigger] out[i], x, xe) implies out[i].labels == l by {
                if i < m.len() - 1 {
                    assert(out[i] == m[i]);
                } else {
                    assert(out[i] == joined);
                    if !overlaps(m.last(), x, xe) {
                        assert(overlaps(r, x, xe));
                    }
                }
            }
            if some_overlap(s, x, xe) {
                let k = choose|k: int| 0 <= k < s.len() && overlaps(#[trigger] s[k], x, xe);
                if k == s.len() - 1 {
                    assert(overlaps(out[m.len() - 1], x, xe));
                } else {
                    assert(d[k] == s[k]);
                    assert(some_overlap(d, x, xe));
                    let q = choose|q: int| 0 <= q < m.len() && overlaps(#[trigger] m[q], x, xe);
                    if q < m.len() - 1 {
                        assert(out[q] == m[q]);
                    } else {
                        assert(overlaps(out[q], x, xe));
                    }
                }
            }
        } else {
            let out = m.push(r);
            assert forall|i: int| 0 <= i < out.len() implies (#[trigger] out[i]).start <= out[i].end by {
                if i < m.len() {
                    assert(out[i] == m[i]);
                }
            }
            assert forall|i: int| 0 <= i < out.len() && overlaps(#[trigger] out[i], x, xe) implies out[i].labels == l by {
                if i < m.len() {
                    assert(out[i] == m[i]);
                }
            }
            if some_overlap(s, x, xe) {
                let k = choose|k: int| 0 <= k < s.len() && overlaps(#[trigger] s[k], x, xe);
                if k == s.len() - 1 {
                    assert(overlaps(out[m.len() as int], x, xe));
                } else {
                    assert(d[k] == s[k]);
                    assert(some_overlap(d, x, xe));
                    let q = choose|q: int| 0 <= q < m.len() && overlaps(#[trigger] m[q], x, xe);
                    assert(out[q] == m[q]);
                }
            }
        }
    }
}

proof fn lemma_gathered_single(t: Seq<RangeView>, x: int, xe: int, id: Seq<char>, n: nat)
    requires
        labelled_within(t, x, xe, seq![id]),
        n <= t.len(),
    ensures
        gathered(t, x, xe, n) == if exists|k: int| 0 <= k < n && overlaps(#[trigger] t[k], x, xe) {
            seq![id]
        } else {
            Seq::<Seq<char>>::empty()
        },
    decreases n,
{
    if n > 0 {
        lemma_gathered_single(t, x, xe, id, (n - 1) as nat);
        let prev = gathered(t, x, xe, (n - 1) as nat);
        let r = t[n - 1];
        if overlaps(r, x, xe) {
            assert(r.labels == seq![id]);
            assert(seq![id].drop_last() =~= Seq::<Seq<char>>::empty());
            assert(add_labels(prev, seq![id]) == insert_label(prev, id)) by {
                reveal_with_fuel(add_labels, 2);
            }
            if prev.len() == 0 {
                assert(seq![id] =~= Seq::<Seq<char>>::empty().insert(0, id));
            } else {
                assert(prev.last() == id);
            }
        } else {
            if exists|k: int| 0 <= k < n && overlaps(#[trigger] t[k], x, xe) {
                let k = choose|k: int| 0 <= k < n && overlaps(#[trigger] t[k], x, xe);
                assert(k < n - 1);
            }
        }
    }
}

/// Recording a source and then observing any part of its span: the labels
/// found there are exactly the new source's id, so the flow `observe`
/// records names that source alone. (This holds while the range list has
/// room; a size that wraps to an empty span is left out.)
pub proof fn law_source_then_observe(ranges: Seq<RangeView>, address: u32, size: usize, end: u32, id: Seq<char>, x: u32, m: usize, xe: u32)
    requires
        size as int % 0x1_0000_0000 != 0,
        m as int % 0x1_0000_0000 != 0,
        range_end(address, size) == Some(end),
        range_end(x, m) == Some(xe),
        address <= x,
        xe <= end,
        relabelled(ranges, address, end, seq![id]).len() <= MAX_RANGES,
        ordered_ranges(ranges),
    ensures
        labels_spec(take_at_most(relabelled(ranges, address, end, seq![id]), MAX_RANGES as nat), x, m) == seq![id],
{
    let a = address as int;
    let e = end as int;
    let xa = x as int;
    let xz = xe as int;
    assert(a < e && xa < xz);
    let l = take_at_most(add_labels(Seq::<Seq<char>>::empty(), seq![id]), MAX_LABELS_PER_RANGE as nat);
    assert(seq![id].drop_last() =~= Seq::<Seq<char>>::empty());
    assert(add_labels(Seq::<Seq<char>>::empty(), seq![id]) == insert_label(Seq::<Seq<char>>::empty(), id)) by {
        reveal_with_fuel(add_labels, 2);
    }
    assert(Seq::<Seq<char>>::empty().insert(0, id) =~= seq![id]);
    assert(l == seq![id]);
    lemma_cut_clears(ranges, a, e);
    lemma_cut_ordered(ranges, a, e);
    let pieces = cut_ranges(ranges, a, e);
    let fresh = RangeView { start: address, end, labels: l };
    let next = pieces.push(fresh);
    assert(labelled_within(next, xa, xz, seq![id])) by {
        assert forall|i: int| 0 <= i < next.len() && overlaps(#[trigger] next[i], xa, xz) implies next[i].labels == seq![id] by {
            if i < pieces.len() {
                assert(next[i] == pieces[i]);
                assert(!overlaps(pieces[i], a, e));
            }
        }
    }
    assert(overlaps(next[pieces.len() as int], xa, xz));
    assert(some_overlap(next, xa, xz));
    assert(ordered_ranges(next)) by {
        assert forall|i: int| 0 <= i < next.len() implies (#[trigger] next[i]).start <= next[i].end by {
            if i < pieces.len() {
                assert(next[i] == pieces[i]);
            }
        }
    }
    lemma_sort_labelled(next, xa, xz, seq![id]);
    lemma_merge_labelled(sort_by_start(next), xa, xz, seq![id]);
    let t = take_at_most(relabelled(ranges, address, end, seq![id]), MAX_RANGES as nat);
    assert(t == merge_touching(sort_by_start(next)));
    lemma_gathered_single(t, xa, xz, id, t.len());
    let k = choose|k: int| 0 <= k < t.len() && overlaps(#[trigger] t[k], xa, xz);
    assert(gathered(t, xa, xz, t.len()) == seq![id]);
}


pub(crate) proof fn lemma_seq_less_irreflexive(a: Seq<char>)
    ensures
        !seq_less(a, a),
    decreases a.len(),
{
    if a.len() > 0 {
        lemma_seq_less_irreflexive(a.subrange(1, a.len() as int));
    }
}

proof fn lemma_seq_less_asymmetric(a: Seq<char>, b: Seq<char>)
    requires
        seq_less(a, b),
    ensures
        !seq_less(b, a),
    decreases a.len(),
{
    if a.len() > 0 && b.len() > 0 && a[0] == b[0] {
        lemma_seq_less_asymmetric(a.subrange(1, a.len() as int), b.subrange(1, b.len() as int));
    }
}

proof fn lemma_seq_less_total(a: Seq<char>, b: Seq<char>)
    requires
        a != b,
    ensures
        seq_less(a, b) || seq_less(b, a),
    decreases a.len(),
{
    if a.len() > 0 && b.len() > 0 && a[0] == b[0] {
        let ta = a.subrange(1, a.len() as int);
        let tb = b.subrange(1, b.len() as int);
        if ta == tb {
            assert(a =~= seq![a[0]] + ta);
            assert(b =~= seq![b[0]] + tb);
        }
        lemma_seq_less_total(ta, tb);
    } else if a.len() == 0 && b.len() == 0 {
        assert(a =~= b);
    } else if a.len() > 0 && b.len() > 0 {
        assert(a[0] != b[0]);
        vstd::utf8::char_u32_cast(a[0], a[0] as u32);
        vstd::utf8::char_u32_cast(b[0], b[0] as u32);
        assert((a[0] as u32) != (b[0] as u32));
    }
}

proof fn lemma_seq_less_trans_labels(a: Seq<char>, b: Seq<char>, c: Seq<char>)
    requires
        seq_less(a, b),
        seq_less(b, c),
    ensures
        seq_less(a, c),
    decreases a.len(),
{
    if a.len() > 0 && a[0] == b[0] && b[0] == c[0] {
        lemma_seq_less_trans_labels(a.subrange(1, a.len() as int), b.subrange(1, b.len() as int), c.subrange(1, c.len() as int));
    }
}

/// Labels in strictly increasing order.
pub open spec fn sorted_labels(s: Seq<Seq<char>>) -> bool {
    forall|i: int, j: int| 0 <= i < j < s.len() ==> seq_less(#[trigger] s[i], #[trigger] s[j])
}

/// Where `x` goes in a sorted list: every label before the slot is smaller,
/// every label from it on is larger; or -1 when `x` is present.
proof fn lemma_label_slot_sorted(s: Seq<Seq<char>>, x: Seq<char>)
    requires
        sorted_labels(s),
    ensures
        label_slot(s, x) == -1 <==> s.contains(x),
        label_slot(s, x) >= 0 ==> (forall|i: int| 0 <= i < label_slot(s, x) ==> seq_less(#[trigger] s[i], x)) && (forall|i: int|
            label_slot(s, x) <= i < s.len() ==> seq_less(x, #[trigger] s[i])),
    decreases s.len(),
{
    lemma_label_slot_bound(s, x);
    if s.len() > 0 {
        let d = s.drop_last();
        assert(sorted_labels(d)) by {
            assert forall|i: int, j: int| 0 <= i < j < d.len() implies seq_less(#[trigger] d[i], #[trigger] d[j]) by {
                assert(d[i] == s[i] && d[j] == s[j]);
            }
        }
        lemma_label_slot_sorted(d, x);
        let last = s.last();
        assert(s[s.len() - 1] == last);
        if last == x {
        } else if seq_less(last, x) {
            assert forall|i: int| 0 <= i < s.len() implies seq_less(#[trigger] s[i], x) by {
                if i < s.len() - 1 {
                    assert(seq_less(s[i], s[s.len() - 1]));
                    lemma_seq_less_trans_labels(s[i], last, x);
                }
            }
            if s.contains(x) {
                let k = choose|k: int| 0 <= k < s.len() && s[k] == x;
                lemma_seq_less_irreflexive(x);
            }
        } else {
            lemma_seq_less_total(last, x);
            assert(seq_less(x, last));
            if d.contains(x) {
                let k = choose|k: int| 0 <= k < d.len() && d[k] == x;
                assert(s[k] == x);
            }
            if s.contains(x) {
                let k = choose|k: int| 0 <= k < s.len() && s[k] == x;
                if k < s.len() - 1 {
                    assert(d[k] == x);
                } else {
                    lemma_seq_less_irreflexive(x);
                }
            }
            if label_slot(s, x) >= 0 {
                assert forall|i: int| label_slot(s, x) <= i < s.len() implies seq_less(x, #[trigger] s[i]) by {
                    if i < s.len() - 1 {
                        assert(d[i] == s[i]);
                    }
                }
                assert forall|i: int| 0 <= i < label_slot(s, x) implies seq_less(#[trigger] s[i], x) by {
                    assert(d[i] == s[i]);
                }
            }
        }
    }
}

proof fn lemma_insert_label_sorted(s: Seq<Seq<char>>, x: Seq<char>)
    requires
        sorted_labels(s),
    ensures
        sorted_labels(insert_label(s, x)),
        s.contains(x) ==> insert_label(s, x) == s,
        !s.contains(x) && (forall|i: int| 0 <= i < s.len() ==> seq_less(#[trigger] s[i], x)) ==> insert_label(s, x) == s.push(x),
{
    lemma_label_slot_sorted(s, x);
    let p = label_slot(s, x);
    if p >= 0 {
        let r = s.insert(p, x);
        assert forall|i: int, j: int| 0 <= i < j < r.len() implies seq_less(#[trigger] r[i], #[trigger] r[j]) by {
            if j < p {
                assert(r[i] == s[i] && r[j] == s[j]);
            } else if j == p {
                assert(r[i] == s[i]);
            } else if i < p {
                assert(r[i] == s[i] && r[j] == s[j - 1]);
                lemma_seq_less_trans_labels(s[i], x, s[j - 1]);
            } else if i == p {
                assert(r[j] == s[j - 1]);
            } else {
                assert(r[i] == s[i - 1] && r[j] == s[j - 1]);
            }
        }
        if forall|i: int| 0 <= i < s.len() ==> seq_less(#[trigger] s[i], x) {
            if p < s.len() {
                assert(seq_less(x, s[p]));
                assert(seq_less(s[p], x));
                lemma_seq_less_asymmetric(x, s[p]);
            }
            assert(r =~= s.push(x));
        }
    }
}

proof fn lemma_add_labels_sorted(s: Seq<Seq<char>>, l: Seq<Seq<char>>)
    requires
        sorted_labels(s),
    ensures
        sorted_labels(add_labels(s, l)),
    decreases l.len(),
{
    if l.len() > 0 {
        lemma_add_labels_sorted(s, l.drop_last());
        lemma_insert_label_sorted(add_labels(s, l.drop_last()), l.last());
    }
}

/// Adding a sorted list to nothing gives the list back.
proof fn lemma_add_sorted_to_empty(l: Seq<Seq<char>>)
    requires
        sorted_labels(l),
    ensures
        add_labels(Seq::empty(), l) == l,
    decreases l.len(),
{
    if l.len() > 0 {
        let d = l.drop_last();
        assert(sorted_labels(d)) by {
            assert forall|i: int, j: int| 0 <= i < j < d.len() implies seq_less(#[trigger] d[i], #[trigger] d[j]) by {
                assert(d[i] == l[i] && d[j] == l[j]);
            }
        }
        lemma_add_sorted_to_empty(d);
        assert(l[l.len() - 1] == l.last());
        assert forall|i: int| 0 <= i < d.len() implies seq_less(#[trigger] d[i], l.last()) by {
            assert(d[i] == l[i]);
        }
        if d.contains(l.last()) {
            let k = choose|k: int| 0 <= k < d.len() && d[k] == l.last();
            assert(seq_less(d[k], l.last()));
            lemma_seq_less_irreflexive(l.last());
        }
        lemma_insert_label_sorted(d, l.last());
        assert(d.push(l.last()) =~= l);
    }
}

/// Adding labels that are all present already changes nothing.
proof fn lemma_add_present(s: Seq<Seq<char>>, l: Seq<Seq<char>>)
    requires
        sorted_labels(s),
        forall|i: int| 0 <= i < l.len() ==> s.contains(#[trigger] l[i]),
    ensures
        add_labels(s, l) == s,
    decreases l.len(),
{
    if l.len() > 0 {
        let d = l.drop_last();
        assert forall|i: int| 0 <= i < d.len() implies s.contains(#[trigger] d[i]) by {
            assert(d[i] == l[i]);
        }
        lemma_add_present(s, d);
        assert(s.contains(l[l.len() - 1]));
        lemma_insert_label_sorted(s, l.last());
    }
}

proof fn lemma_gathered_sorted(t: Seq<RangeView>, x: int, xe: int, n: nat)
    ensures
        sorted_labels(gathered(t, x, xe, n)),
    decreases n,
{
    if n > 0 && n <= t.len() {
        lemma_gathered_sorted(t, x, xe, (n - 1) as nat);
        lemma_add_labels_sorted(gathered(t, x, xe, (n - 1) as nat), t[n - 1].labels);
    }
}

/// The labels a span yields are in strictly increasing order.
proof fn lemma_labels_sorted(ranges: Seq<RangeView>, address: u32, size: usize)
    ensures
        sorted_labels(labels_spec(ranges, address, size)),
{
    match range_end(address, size) {
        None => {},
        Some(end) => {
            let g = gathered(ranges, address as int, end as int, ranges.len());
            lemma_gathered_sorted(ranges, address as int, end as int, ranges.len());
            let t = take_at_most(g, MAX_LABELS_PER_RANGE as nat);
            assert forall|i: int, j: int| 0 <= i < j < t.len() implies seq_less(#[trigger] t[i], #[trigger] t[j]) by {
                assert(t[i] == g[i] && t[j] == g[j]);
            }
        },
    }
}

proof fn lemma_gathered_labels(t: Seq<RangeView>, x: int, xe: int, l: Seq<Seq<char>>, n: nat)
    requires
        labelled_within(t, x, xe, l),
        sorted_labels(l),
        n <= t.len(),
    ensures
        gathered(t, x, xe, n) == if exists|k: int| 0 <= k < n && overlaps(#[trigger] t[k], x, xe) {
            l
        } else {
            Seq::<Seq<char>>::empty()
        },
    decreases n,
{
    if n > 0 {
        lemma_gathered_labels(t, x, xe, l, (n - 1) as nat);
        let prev = gathered(t, x, xe, (n - 1) as nat);
        let r = t[n - 1];
        if overlaps(r, x, xe) {
            assert(r.labels == l);
            if prev.len() == 0 {
                lemma_add_sorted_to_empty(l);
                assert(prev =~= Seq::<Seq<char>>::empty());
            } else {
                assert forall|i: int| 0 <= i < l.len() implies l.contains(#[trigger] l[i]) by {}
                lemma_add_present(l, l);
            }
        } else {
            if exists|k: int| 0 <= k < n && overlaps(#[trigger] t[k], x, xe) {
                let k = choose|k: int| 0 <= k < n && overlaps(#[trigger] t[k], x, xe);
                assert(k < n - 1);
            }
        }
    }
}

/// Propagating a span and then observing any part of the destination: the
/// labels found there are exactly those the source span had (none when it
/// had none), so the flow `observe` records names exactly those sources.
/// (This holds while the range list has room; sizes that wrap to an empty
/// span are left out.)
pub proof fn law_propagate_then_observe(
    ranges: Seq<RangeView>,
    source: u32,
    destination: u32,
    size: usize,
    end: u32,
    x: u32,
    m: usize,
    xe: u32,
)
    requires
        size as int % 0x1_0000_0000 != 0,
        m as int % 0x1_0000_0000 != 0,
        range_end(destination, size) == Some(end),
        range_end(x, m) == Some(xe),
        destination <= x,
        xe <= end,
        relabelled(ranges, destination, end, labels_spec(ranges, source, size)).len() <= MAX_RANGES,
        ordered_ranges(ranges),
    ensures
        labels_spec(
            take_at_most(relabelled(ranges, destination, end, labels_spec(ranges, source, size)), MAX_RANGES as nat),
            x,
            m,
        ) == labels_spec(ranges, source, size),
{
    let big_l = labels_spec(ranges, source, size);
    lemma_labels_sorted(ranges, source, size);
    lemma_add_sorted_to_empty(big_l);
    let a = destination as int;
    let e = end as int;
    let xa = x as int;
    let xz = xe as int;
    assert(a < e && xa < xz);
    let l = take_at_most(add_labels(Seq::<Seq<char>>::empty(), big_l), MAX_LABELS_PER_RANGE as nat);
    assert(big_l.len() <= MAX_LABELS_PER_RANGE);
    assert(l == big_l);
    lemma_cut_clears(ranges, a, e);
    lemma_cut_ordered(ranges, a, e);
    let pieces = cut_ranges(ranges, a, e);
    let t = take_at_most(relabelled(ranges, destination, end, big_l), MAX_RANGES as nat);
    if l.len() > 0 {
        let fresh = RangeView { start: destination, end, labels: l };
        let next = pieces.push(fresh);
        assert(labelled_within(next, xa, xz, l)) by {
            assert forall|i: int| 0 <= i < next.len() && overlaps(#[trigger] next[i], xa, xz) implies next[i].labels == l by {
                if i < pieces.len() {
                    assert(next[i] == pieces[i]);
                    assert(!overlaps(pieces[i], a, e));
                }
            }
        }
        assert(overlaps(next[pieces.len() as int], xa, xz));
        assert(some_overlap(next, xa, xz));
        assert(ordered_ranges(next)) by {
            assert forall|i: int| 0 <= i < next.len() implies (#[trigger] next[i]).start <= next[i].end by {
                if i < pieces.len() {
                    assert(next[i] == pieces[i]);
                }
            }
        }
        lemma_sort_labelled(next, xa, xz, l);
        lemma_merge_labelled(sort_by_start(next), xa, xz, l);
        assert(t == merge_touching(sort_by_start(next)));
        lemma_gathered_labels(t, xa, xz, l, t.len());
        let k = choose|k: int| 0 <= k < t.len() && overlaps(#[trigger] t[k], xa, xz);
        assert(gathered(t, xa, xz, t.len()) == l);
        assert(take_at_most(l, MAX_LABELS_PER_RANGE as nat) == l);
    } else {
        assert(big_l =~= Seq::<Seq<char>>::empty());
        lemma_sort_keeps(pieces, a, e);
        lemma_merge_keeps(sort_by_start(pieces), a, e);
        assert(t == merge_touching(sort_by_start(pieces)));
        assert(none_overlap(t, xa, xz)) by {
            assert forall|i: int| 0 <= i < t.len() implies !overlaps(#[trigger] t[i], xa, xz) by {
                assert(!overlaps(t[i], a, e));
            }
        }
        lemma_gathered_empty(t, xa, xz, t.len());
    }
}


} // verus!
