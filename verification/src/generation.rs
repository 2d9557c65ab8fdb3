//! Payload generations: successive captured versions of guest memory regions,
//! linked to the version they replaced.
use vstd::prelude::*;

use crate::text::{chars_equal, chars_of, copy_chars, decimal, pad_left, push_decimal_padded, push_str, string_from_chars};

verus! {

/// The most generations a run records.
pub const MAX_GENERATIONS: usize = 256;

/// One captured version of a region.
#[derive(Debug)]
pub struct PayloadGeneration {
    pub id: String,
    pub sequence: u64,
    pub parent_id: Option<String>,
    pub artifact_id: String,
    pub region_base: u64,
    pub size: u64,
    pub capture_instruction: u64,
    pub virtual_time_ms: u64,
    pub trigger: String,
    pub permissions: String,
    pub executed: bool,
    pub entry_point_overwrite: bool,
    pub executable_heap: bool,
    pub entry_point_candidate: Option<u64>,
    pub first_execution_instruction: Option<u64>,
    pub reconstructed_imports: Vec<String>,
}

/// Totals over the recorded generations.
#[derive(Debug, Clone, Copy, PartialEq, Eq)]
pub struct GenerationStats {
    pub count: usize,
    pub chains: usize,
    pub executed_generations: usize,
    pub entry_point_candidates: usize,
    pub reconstructed_imports: usize,
    pub truncated: bool,
}

pub struct GenerationView {
    pub id: Seq<char>,
    pub sequence: u64,
    pub parent_id: Option<Seq<char>>,
    pub artifact_id: Seq<char>,
    pub region_base: u64,
    pub size: u64,
    pub capture_instruction: u64,
    pub virtual_time_ms: u64,
    pub trigger: Seq<char>,
    pub permissions: Seq<char>,
    pub executed: bool,
    pub entry_point_overwrite: bool,
    pub executable_heap: bool,
    pub entry_point_candidate: Option<u64>,
    pub first_execution_instruction: Option<u64>,
    pub reconstructed_imports: nat,
}

/// The text of an optional string.
pub open spec fn opt_text(s: Option<String>) -> Option<Seq<char>> {
    match s {
        Some(t) => Some(t@),
        None => None,
    }
}

impl View for PayloadGeneration {
    type V = GenerationView;

    open spec fn view(&self) -> GenerationView {
        GenerationView {
            id: self.id@,
            sequence: self.sequence,
            parent_id: opt_text(self.parent_id),
            artifact_id: self.artifact_id@,
            region_base: self.region_base,
            size: self.size,
            capture_instruction: self.capture_instruction,
            virtual_time_ms: self.virtual_time_ms,
            trigger: self.trigger@,
            permissions: self.permissions@,
            executed: self.executed,
            entry_point_overwrite: self.entry_point_overwrite,
            executable_heap: self.executable_heap,
            entry_point_candidate: self.entry_point_candidate,
            first_execution_instruction: self.first_execution_instruction,
            reconstructed_imports: self.reconstructed_imports@.len(),
        }
    }
}

/// The views of a sequence of generations.
pub open spec fn generation_views(v: Seq<PayloadGeneration>) -> Seq<GenerationView> {
    v.map_values(|g: PayloadGeneration| g@)
}

/// What a capture reports about a region.
pub struct GenerationObservation {
    pub artifact_id: String,
    pub region_base: u32,
    pub size: u64,
    pub instruction: u64,
    pub virtual_time_ms: u64,
    pub trigger: String,
    pub permissions: String,
    pub executed: bool,
    pub entry_point_overwrite: bool,
    pub executable_heap: bool,
}

/// Records generations and, per region base, the latest one.
pub struct GenerationTracker {
    generations: Vec<PayloadGeneration>,
    current_by_region: Vec<(u32, usize)>,
    truncated: bool,
}

/// The key-to-index map held by an association list.
pub open spec fn assoc_map(pairs: Seq<(u32, usize)>) -> Map<u32, usize>
    decreases pairs.len(),
{
    if pairs.len() == 0 {
        Map::empty()
    } else {
        assoc_map(pairs.drop_last()).insert(pairs.last().0, pairs.last().1)
    }
}

/// Bytes a character takes in UTF-8.
pub open spec fn utf8_width(c: char) -> int {
    if (c as u32) < 0x80 {
        1
    } else if (c as u32) < 0x800 {
        2
    } else if (c as u32) < 0x10000 {
        3
    } else {
        4
    }
}

/// Bytes a character sequence takes in UTF-8.
pub open spec fn utf8_len(s: Seq<char>) -> int
    decreases s.len(),
{
    if s.len() == 0 {
        0
    } else {
        utf8_len(s.drop_last()) + utf8_width(s.last())
    }
}

/// How many leading characters fit in `budget` bytes of UTF-8.
pub open spec fn chars_within(s: Seq<char>, budget: int) -> nat
    decreases s.len(),
{
    if s.len() == 0 || utf8_width(s[0]) > budget {
        0
    } else {
        1 + chars_within(s.subrange(1, s.len() as int), budget - utf8_width(s[0]))
    }
}

/// The characters of the artifact id's first twelve bytes.
pub open spec fn id_prefix(artifact_id: Seq<char>) -> Seq<char> {
    artifact_id.subrange(0, chars_within(artifact_id, 12) as int)
}

/// The generation id: `generation-`, the sequence zero-padded to four
/// digits, `-`, and the artifact id's first twelve bytes.
pub open spec fn generation_id(sequence: u64, artifact_id: Seq<char>) -> Seq<char> {
    "generation-"@ + pad_left(decimal(sequence as nat), 4, '0') + "-"@ + id_prefix(artifact_id)
}

/// The artifact id has a character boundary at byte 12.
pub open spec fn id_prefix_ok(artifact_id: Seq<char>) -> bool {
    utf8_len(id_prefix(artifact_id)) == 12
}

proof fn lemma_chars_within_bound(s: Seq<char>, budget: int)
    ensures
        chars_within(s, budget) <= s.len(),
    decreases s.len(),
{
    if s.len() > 0 && utf8_width(s[0]) <= budget {
        lemma_chars_within_bound(s.subrange(1, s.len() as int), budget - utf8_width(s[0]));
    }
}

/// The characters of the id's first twelve bytes (all that fit).
fn twelve_byte_prefix(chars: &Vec<char>) -> (p: Vec<char>)
    ensures
        p@ == id_prefix(chars@),
{
    let n = chars.len();
    let mut i: usize = 0;
    let mut remaining: u32 = 12;
    proof {
        assert(chars@.subrange(0, n as int) =~= chars@);
    }
    while i < n
        invariant
            i <= n,
            n == chars@.len(),
            remaining <= 12,
            chars_within(chars@, 12) == i + chars_within(chars@.subrange(i as int, n as int), remaining as int),
        ensures
            i <= n,
            chars_within(chars@, 12) == i,
        decreases n - i,
    {
        let c = chars[i];
        let code = c as u32;
        let w: u32 = if code < 0x80 { 1 } else if code < 0x800 { 2 } else if code < 0x10000 { 3 } else { 4 };
        let ghost t = chars@.subrange(i as int, n as int);
        assert(t[0] == c);
        assert(w == utf8_width(c));
        if w > remaining {
            assert(chars_within(t, remaining as int) == 0);
            break;
        }
        assert(t.subrange(1, t.len() as int) =~= chars@.subrange(i + 1, n as int));
        remaining = remaining - w;
        i = i + 1;
        if i == n {
            assert(chars@.subrange(n as int, n as int).len() == 0);
        }
    }
    copy_chars(chars, 0, i)
}

/// The generation that a first observation of a region version creates.
pub open spec fn new_generation(sequence: u64, parent_id: Option<Seq<char>>, o: GenerationObservation) -> GenerationView {
    GenerationView {
        id: generation_id(sequence, o.artifact_id@),
        sequence,
        parent_id,
        artifact_id: o.artifact_id@,
        region_base: o.region_base as u64,
        size: o.size,
        capture_instruction: o.instruction,
        virtual_time_ms: o.virtual_time_ms,
        trigger: o.trigger@,
        permissions: o.permissions@,
        executed: o.executed,
        entry_point_overwrite: o.entry_point_overwrite,
        executable_heap: o.executable_heap,
        entry_point_candidate: None,
        first_execution_instruction: None,
        reconstructed_imports: 0,
    }
}

/// `g` with the observation's flags merged in.
pub open spec fn merged_generation(g: GenerationView, o: GenerationObservation) -> GenerationView {
    GenerationView {
        executed: g.executed || o.executed,
        entry_point_overwrite: g.entry_point_overwrite || o.entry_point_overwrite,
        executable_heap: g.executable_heap || o.executable_heap,
        ..g
    }
}

impl GenerationTracker {
    pub closed spec fn generations_view(&self) -> Seq<GenerationView> {
        generation_views(self.generations@)
    }

    /// The latest generation index of each region base.
    pub closed spec fn current_view(&self) -> Map<u32, usize> {
        assoc_map(self.current_by_region@)
    }

    pub closed spec fn truncated_view(&self) -> bool {
        self.truncated
    }

    /// Every region's latest generation exists, keys are distinct, and the
    /// number of generations stays within the limit.
    pub closed spec fn wf(&self) -> bool {
        &&& self.generations@.len() <= MAX_GENERATIONS
        &&& forall|g: int| 0 <= g < self.generations@.len() ==> (#[trigger] self.generations@[g]).entry_point_candidate is None
            && self.generations@[g].first_execution_instruction is None && self.generations@[g].reconstructed_imports@.len() == 0
        &&& forall|k: int| 0 <= k < self.current_by_region@.len() ==> (#[trigger] self.current_by_region@[k]).1 < self.generations@.len()
        &&& forall|a: int, b: int| 0 <= a < b < self.current_by_region@.len() ==> (#[trigger] self.current_by_region@[a]).0 != (#[trigger] self.current_by_region@[b]).0
    }

    /// An empty tracker.
    pub fn new() -> (t: GenerationTracker)
        ensures
            t.wf(),
            t.generations_view() == Seq::<GenerationView>::empty(),
            t.current_view() == Map::<u32, usize>::empty(),
            !t.truncated_view(),
    {
        let t = GenerationTracker { generations: Vec::new(), current_by_region: Vec::new(), truncated: false };
        assert(generation_views(t.generations@) =~= Seq::<GenerationView>::empty());
        t
    }

    /// Whether the observation repeats the latest version of its region.
    pub open spec fn repeats(&self, o: GenerationObservation) -> bool {
        self.current_view().contains_key(o.region_base)
            && self.generations_view()[self.current_view()[o.region_base] as int].artifact_id == o.artifact_id@
    }

    /// Records an observation: a repeat of a region's latest version merges
    /// its flags into that generation; a new version becomes a generation
    /// whose parent is the region's previous latest one, unless the limit is
    /// reached, which marks the tracker truncated.
    pub fn observe(&mut self, observation: GenerationObservation)
        requires
            old(self).wf(),
            !old(self).repeats(observation) && old(self).generations_view().len() < MAX_GENERATIONS ==> id_prefix_ok(
                observation.artifact_id@,
            ),
        ensures
            final(self).wf(),
            ({
                let gens = old(self).generations_view();
                let cur = old(self).current_view();
                let base = observation.region_base;
                if old(self).repeats(observation) {
                    let i = cur[base] as int;
                    &&& final(self).generations_view() == gens.update(i, merged_generation(gens[i], observation))
                    &&& final(self).current_view() == cur
                    &&& final(self).truncated_view() == old(self).truncated_view()
                } else if gens.len() >= MAX_GENERATIONS {
                    &&& final(self).generations_view() == gens
                    &&& final(self).current_view() == cur
                    &&& final(self).truncated_view()
                } else {
                    let parent = if cur.contains_key(base) { Some(gens[cur[base] as int].id) } else { None };
                    &&& final(self).generations_view() == gens.push(new_generation(gens.len() as u64, parent, observation))
                    &&& final(self).current_view() == cur.insert(base, gens.len() as usize)
                    &&& final(self).truncated_view() == old(self).truncated_view()
                }
            }),
    {
        let ghost gens = self.generations_view();
        let ghost cur = self.current_view();
        let base = observation.region_base;
        let slot = self.find_region(base);
        if let Some(k) = slot {
            let index = self.current_by_region[k].1;
            let same = chars_equal(
                &chars_of(self.generations[index].artifact_id.as_str()),
                &chars_of(observation.artifact_id.as_str()),
            );
            if same {
                let ghost before = self.generations@;
                let g = &mut self.generations[index];
                g.executed = g.executed || observation.executed;
                g.entry_point_overwrite = g.entry_point_overwrite || observation.entry_point_overwrite;
                g.executable_heap = g.executable_heap || observation.executable_heap;
                assert(generation_views(self.generations@) =~= gens.update(index as int, merged_generation(gens[index as int], observation)));
                assert forall|j: int| 0 <= j < self.generations@.len() implies (#[trigger] self.generations@[j]).entry_point_candidate is None
                    && self.generations@[j].first_execution_instruction is None && self.generations@[j].reconstructed_imports@.len() == 0 by {
                    if j != index {
                        assert(self.generations@[j] == before[j]);
                    }
                }
                return;
            }
        }
        if self.generations.len() >= MAX_GENERATIONS {
            self.truncated = true;
            return;
        }
        let parent_id = match slot {
            Some(k) => {
                let index = self.current_by_region[k].1;
                Some(self.generations[index].id.clone())
            },
            None => None,
        };
        let sequence = self.generations.len() as u64;
        let mut id = String::new();
        push_str(&mut id, "generation-");
        push_decimal_padded(&mut id, sequence, 4);
        push_str(&mut id, "-");
        let artifact_chars = chars_of(observation.artifact_id.as_str());
        let prefix = string_from_chars(&twelve_byte_prefix(&artifact_chars));
        push_str(&mut id, prefix.as_str());
        let generation = PayloadGeneration {
            id,
            sequence,
            parent_id,
            artifact_id: observation.artifact_id,
            region_base: observation.region_base as u64,
            size: observation.size,
            capture_instruction: observation.instruction,
            virtual_time_ms: observation.virtual_time_ms,
            trigger: observation.trigger,
            permissions: observation.permissions,
            executed: observation.executed,
            entry_point_overwrite: observation.entry_point_overwrite,
            executable_heap: observation.executable_heap,
            entry_point_candidate: None,
            first_execution_instruction: None,
            reconstructed_imports: Vec::new(),
        };
        let ghost new_view = generation@;
        self.generations.push(generation);
        assert(generation_views(self.generations@) =~= gens.push(new_view));
        let position = self.generations.len() - 1;
        match slot {
            Some(k) => {
                let ghost pairs = self.current_by_region@;
                self.current_by_region.set(k, (base, position));
                proof {
                    lemma_assoc_update(pairs, k as int, base, position);
                    assert forall|a: int, b: int| 0 <= a < b < self.current_by_region@.len() implies
                        (#[trigger] self.current_by_region@[a]).0 != (#[trigger] self.current_by_region@[b]).0 by {
                        assert(pairs[a].0 != pairs[b].0);
                    }
                }
            },
            None => {
                let ghost pairs = self.current_by_region@;
                self.current_by_region.push((base, position));
                assert(self.current_by_region@.drop_last() =~= pairs);
                proof {
                    assert forall|a: int, b: int| 0 <= a < b < self.current_by_region@.len() implies
                        (#[trigger] self.current_by_region@[a]).0 != (#[trigger] self.current_by_region@[b]).0 by {
                        if b == pairs.len() {
                            assert(self.current_by_region@[a] == pairs[a]);
                            assert(assoc_map(pairs).contains_key(pairs[a].0)) by {
                                lemma_assoc_lookup(pairs, a);
                            }
                        } else {
                            assert(pairs[a].0 != pairs[b].0);
                        }
                    }
                }
            },
        }
    }

    /// The slot of `base` in the region list.
    fn find_region(&self, base: u32) -> (r: Option<usize>)
        requires
            self.wf(),
        ensures
            match r {
                Some(k) => k < self.current_by_region@.len() && self.current_by_region@[k as int].0 == base
                    && self.current_view().contains_key(base) && self.current_view()[base] == self.current_by_region@[k as int].1,
                None => !self.current_view().contains_key(base),
            },
    {
        let mut k: usize = 0;
        while k < self.current_by_region.len()
            invariant
                self.wf(),
                k <= self.current_by_region@.len(),
                forall|j: int| 0 <= j < k ==> (#[trigger] self.current_by_region@[j]).0 != base,
            decreases self.current_by_region@.len() - k,
        {
            if self.current_by_region[k].0 == base {
                proof {
                    lemma_assoc_lookup(self.current_by_region@, k as int);
                }
                return Some(k);
            }
            k = k + 1;
        }
        proof {
            lemma_assoc_absent(self.current_by_region@, base);
        }
        None
    }

    /// The generations and their totals.
    pub fn finish(self) -> (r: (Vec<PayloadGeneration>, GenerationStats))
        requires
            self.wf(),
        ensures
            generation_views(r.0@) == self.generations_view(),
            r.1.count == self.generations_view().len(),
            r.1.chains == self.generations_view().filter(|g: GenerationView| g.parent_id is None).len(),
            r.1.executed_generations == self.generations_view().filter(|g: GenerationView| g.executed).len(),
            r.1.entry_point_candidates == 0,
            r.1.reconstructed_imports == 0,
            r.1.truncated == self.truncated_view(),
    {
        let ghost gs = generation_views(self.generations@);
        let mut chains: usize = 0;
        let mut executed: usize = 0;
        let mut i: usize = 0;
        while i < self.generations.len()
            invariant
                i <= self.generations@.len(),
                self.generations@.len() <= MAX_GENERATIONS,
                gs == generation_views(self.generations@),
                chains == gs.subrange(0, i as int).filter(|g: GenerationView| g.parent_id is None).len(),
                executed == gs.subrange(0, i as int).filter(|g: GenerationView| g.executed).len(),
                chains <= i && executed <= i,
            decreases self.generations@.len() - i,
        {
            let g = &self.generations[i];
            assert(gs.subrange(0, i + 1) =~= gs.subrange(0, i as int).push(g@));
            proof {
                gs.subrange(0, i as int).lemma_filter_push(g@, |g: GenerationView| g.parent_id is None);
                gs.subrange(0, i as int).lemma_filter_push(g@, |g: GenerationView| g.executed);
            }
            if g.parent_id.is_none() {
                chains = chains + 1;
            }
            if g.executed {
                executed = executed + 1;
            }
            i = i + 1;
        }
        assert(gs.subrange(0, i as int) =~= gs);
        let stats = GenerationStats {
            count: self.generations.len(),
            chains,
            executed_generations: executed,
            entry_point_candidates: 0,
            reconstructed_imports: 0,
            truncated: self.truncated,
        };
        (self.generations, stats)
    }
}

impl Default for GenerationTracker {
    fn default() -> (t: GenerationTracker)
        ensures
            t.wf(),
            t.generations_view() == Seq::<GenerationView>::empty(),
            t.current_view() == Map::<u32, usize>::empty(),
            !t.truncated_view(),
    {
        GenerationTracker::new()
    }
}

proof fn lemma_assoc_lookup(pairs: Seq<(u32, usize)>, k: int)
    requires
        0 <= k < pairs.len(),
        forall|a: int, b: int| 0 <= a < b < pairs.len() ==> (#[trigger] pairs[a]).0 != (#[trigger] pairs[b]).0,
    ensures
        assoc_map(pairs).contains_key(pairs[k].0),
        assoc_map(pairs)[pairs[k].0] == pairs[k].1,
    decreases pairs.len(),
{
    if k < pairs.len() - 1 {
        lemma_assoc_lookup(pairs.drop_last(), k);
        assert(pairs[k].0 != pairs[pairs.len() - 1].0);
    }
}

proof fn lemma_assoc_absent(pairs: Seq<(u32, usize)>, key: u32)
    requires
        forall|j: int| 0 <= j < pairs.len() ==> (#[trigger] pairs[j]).0 != key,
    ensures
        !assoc_map(pairs).contains_key(key),
    decreases pairs.len(),
{
    if pairs.len() > 0 {
        lemma_assoc_absent(pairs.drop_last(), key);
    }
}

proof fn lemma_assoc_update(pairs: Seq<(u32, usize)>, k: int, key: u32, value: usize)
    requires
        0 <= k < pairs.len(),
        pairs[k].0 == key,
        forall|a: int, b: int| 0 <= a < b < pairs.len() ==> (#[trigger] pairs[a]).0 != (#[trigger] pairs[b]).0,
    ensures
        assoc_map(pairs.update(k, (key, value))) == assoc_map(pairs).insert(key, value),
    decreases pairs.len(),
{
    let updated = pairs.update(k, (key, value));
    if k == pairs.len() - 1 {
        assert(updated.drop_last() =~= pairs.drop_last());
        assert(assoc_map(pairs.drop_last()).insert(key, pairs[k].1).insert(key, value) =~= assoc_map(pairs.drop_last()).insert(key, value));
    } else {
        lemma_assoc_update(pairs.drop_last(), k, key, value);
        assert(updated.drop_last() =~= pairs.drop_last().update(k, (key, value)));
        assert(pairs[k].0 != pairs.last().0);
        assert(assoc_map(pairs.drop_last()).insert(key, value).insert(pairs.last().0, pairs.last().1)
            =~= assoc_map(pairs.drop_last()).insert(pairs.last().0, pairs.last().1).insert(key, value));
    }
}

} // verus!
