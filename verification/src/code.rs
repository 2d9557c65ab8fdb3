//! Capability matching: named behaviours recognised from imports, strings
//! and decoded instructions, each backed by bounded, ordered evidence.
use vstd::prelude::*;

use crate::core_model::{Confidence, ExtractedString, SymbolRecord};
use crate::provenance::lemma_seq_less_irreflexive;
use crate::text::{
    ascii_lowercase, bounded_text, lower_seq, push_str, take_chars,
    chars_of, chars_equal, chars_less, copy_chars, find_char, first_index, seq_contains, seq_less,
    vec_contains,
};

verus! {

/// The most evidence items a capability keeps.
pub const MAX_CAPABILITY_EVIDENCE: usize = 16;

/// Where a feature was observed.
#[derive(Debug, Clone, Copy, PartialEq, Eq, Structural)]
pub enum FeatureKind {
    Import,
    String,
    Instruction,
}

/// The text of a feature kind as selectors and evidence spell it.
pub open spec fn kind_text(k: FeatureKind) -> Seq<char> {
    match k {
        FeatureKind::Import => "import"@,
        FeatureKind::String => "string"@,
        FeatureKind::Instruction => "instruction"@,
    }
}

pub fn kind_name(k: FeatureKind) -> (s: &'static str)
    ensures
        s@ == kind_text(k),
{
    match k {
        FeatureKind::Import => "import",
        FeatureKind::String => "string",
        FeatureKind::Instruction => "instruction",
    }
}

/// One observation that capability rules can match: `normalized` is the
/// lower-cased text that selectors test, `value` what evidence reports.
pub struct Feature {
    pub kind: FeatureKind,
    pub normalized: String,
    pub value: String,
    pub address: Option<u64>,
    pub file_offset: Option<u64>,
}

pub struct FeatureView {
    pub kind: FeatureKind,
    pub normalized: Seq<char>,
    pub value: Seq<char>,
    pub address: Option<u64>,
    pub file_offset: Option<u64>,
}

impl View for Feature {
    type V = FeatureView;

    open spec fn view(&self) -> FeatureView {
        FeatureView {
            kind: self.kind,
            normalized: self.normalized@,
            value: self.value@,
            address: self.address,
            file_offset: self.file_offset,
        }
    }
}

/// The views of a sequence of evidence items.
pub open spec fn evidence_views(v: Seq<CapabilityEvidence>) -> Seq<EvidenceView> {
    v.map_values(|e: CapabilityEvidence| e@)
}

/// One feature that supports a capability.
#[derive(Debug)]
pub struct CapabilityEvidence {
    pub kind: String,
    pub value: String,
    pub address: Option<u64>,
    pub file_offset: Option<u64>,
}

pub struct EvidenceView {
    pub kind: Seq<char>,
    pub value: Seq<char>,
    pub address: Option<u64>,
    pub file_offset: Option<u64>,
}

impl View for CapabilityEvidence {
    type V = EvidenceView;

    open spec fn view(&self) -> EvidenceView {
        EvidenceView { kind: self.kind@, value: self.value@, address: self.address, file_offset: self.file_offset }
    }
}

/// A recognised capability with its supporting evidence.
#[derive(Debug)]
pub struct CapabilityMatch {
    pub id: String,
    pub name: String,
    pub namespace: String,
    pub description: String,
    pub confidence: Confidence,
    pub evidence: Vec<CapabilityEvidence>,
}

pub struct CapabilityMatchView {
    pub id: Seq<char>,
    pub name: Seq<char>,
    pub namespace: Seq<char>,
    pub description: Seq<char>,
    pub confidence: Confidence,
    pub evidence: Seq<EvidenceView>,
}

impl View for CapabilityMatch {
    type V = CapabilityMatchView;

    open spec fn view(&self) -> CapabilityMatchView {
        CapabilityMatchView {
            id: self.id@,
            name: self.name@,
            namespace: self.namespace@,
            description: self.description@,
            confidence: self.confidence,
            evidence: evidence_views(self.evidence@),
        }
    }
}

/// The fixed description of a capability rule.
pub struct CapabilityRule {
    pub id: &'static str,
    pub name: &'static str,
    pub namespace: &'static str,
    pub description: &'static str,
    pub confidence: Confidence,
}

pub struct RuleView {
    pub id: Seq<char>,
    pub name: Seq<char>,
    pub namespace: Seq<char>,
    pub description: Seq<char>,
    pub confidence: Confidence,
}

impl View for CapabilityRule {
    type V = RuleView;

    open spec fn view(&self) -> RuleView {
        RuleView {
            id: self.id@,
            name: self.name@,
            namespace: self.namespace@,
            description: self.description@,
            confidence: self.confidence,
        }
    }
}

// ----- selectors -----

/// The kind part of a selector `kind:pattern` ("any" when there is no colon).
pub open spec fn selector_kind(sel: Seq<char>) -> Seq<char> {
    let i = first_index(sel, ':');
    if i < sel.len() {
        sel.subrange(0, i)
    } else {
        "any"@
    }
}

/// The pattern part of a selector (the whole selector when there is no colon).
pub open spec fn selector_pattern(sel: Seq<char>) -> Seq<char> {
    let i = first_index(sel, ':');
    if i < sel.len() {
        sel.subrange(i + 1, sel.len() as int)
    } else {
        sel
    }
}

/// A feature satisfies a selector when its kind agrees (or the selector's kind
/// is "any") and its normalized text equals the pattern after a leading `=`,
/// or otherwise contains the pattern.
pub open spec fn selector_matches(f: FeatureView, sel: Seq<char>) -> bool {
    let k = selector_kind(sel);
    let p = selector_pattern(sel);
    &&& (k == "any"@ || kind_text(f.kind) == k)
    &&& if p.len() > 0 && p[0] == '=' {
        f.normalized == p.subrange(1, p.len() as int)
    } else {
        seq_contains(f.normalized, p)
    }
}

/// Whether `feature` satisfies `selector`.
pub fn feature_matches(feature: &Feature, selector: &str) -> (b: bool)
    ensures
        b == selector_matches(feature@, selector@),
{
    let sel = chars_of(selector);
    let colon = find_char(&sel, ':');
    let (kind, pattern) = if colon < sel.len() {
        (copy_chars(&sel, 0, colon), copy_chars(&sel, colon + 1, sel.len()))
    } else {
        (chars_of("any"), copy_chars(&sel, 0, sel.len()))
    };
    assert(sel@.subrange(0, sel@.len() as int) =~= sel@);
    let any = chars_of("any");
    let own = chars_of(kind_name(feature.kind));
    if !chars_equal(&kind, &any) && !chars_equal(&own, &kind) {
        return false;
    }
    let normalized = chars_of(feature.normalized.as_str());
    if pattern.len() > 0 && pattern[0] == '=' {
        let exact = copy_chars(&pattern, 1, pattern.len());
        chars_equal(&normalized, &exact)
    } else {
        vec_contains(&normalized, &pattern)
    }
}

/// Whether some selector of `needles` matches the feature.
pub open spec fn any_selector(f: FeatureView, needles: Seq<Seq<char>>) -> bool {
    exists|k: int| 0 <= k < needles.len() && selector_matches(f, #[trigger] needles[k])
}

fn matches_any(feature: &Feature, needles: &[&str]) -> (b: bool)
    ensures
        b == any_selector(feature@, needles@.map_values(|s: &str| s@)),
{
    let ghost ns = needles@.map_values(|s: &str| s@);
    let mut k: usize = 0;
    while k < needles.len()
        invariant
            k <= needles@.len(),
            ns == needles@.map_values(|s: &str| s@),
            forall|j: int| 0 <= j < k ==> !selector_matches(feature@, #[trigger] ns[j]),
        decreases needles@.len() - k,
    {
        if feature_matches(feature, needles[k]) {
            assert(selector_matches(feature@, ns[k as int]));
            return true;
        }
        k = k + 1;
    }
    false
}

// ----- evidence ordering -----

/// `None` before any address; addresses by value.
pub open spec fn address_less(a: Option<u64>, b: Option<u64>) -> bool {
    match (a, b) {
        (None, Some(_)) => true,
        (Some(x), Some(y)) => x < y,
        _ => false,
    }
}

/// Evidence order: by kind, then value, then address.
pub open spec fn evidence_less(a: EvidenceView, b: EvidenceView) -> bool {
    ||| seq_less(a.kind, b.kind)
    ||| a.kind == b.kind && seq_less(a.value, b.value)
    ||| a.kind == b.kind && a.value == b.value && address_less(a.address, b.address)
}

/// Position at which a stable insertion places `x` in `s`: after every
/// element that does not sort after it.
pub open spec fn insert_point(s: Seq<EvidenceView>, x: EvidenceView) -> int
    decreases s.len(),
{
    if s.len() == 0 {
        0
    } else if !evidence_less(x, s.last()) {
        s.len() as int
    } else {
        insert_point(s.drop_last(), x)
    }
}

/// The stable sort of `s` by evidence order.
pub open spec fn sort_evidence(s: Seq<EvidenceView>) -> Seq<EvidenceView>
    decreases s.len(),
{
    if s.len() == 0 {
        s
    } else {
        let sorted = sort_evidence(s.drop_last());
        sorted.insert(insert_point(sorted, s.last()), s.last())
    }
}

/// Removes each element equal to the last one kept.
pub open spec fn dedup_evidence(s: Seq<EvidenceView>) -> Seq<EvidenceView>
    decreases s.len(),
{
    if s.len() == 0 {
        s
    } else {
        let kept = dedup_evidence(s.drop_last());
        if kept.len() > 0 && kept.last() == s.last() {
            kept
        } else {
            kept.push(s.last())
        }
    }
}

/// Sorted, deduplicated and cut to `MAX_CAPABILITY_EVIDENCE` items.
pub open spec fn bounded_spec(s: Seq<EvidenceView>) -> Seq<EvidenceView> {
    let d = dedup_evidence(sort_evidence(s));
    if d.len() <= MAX_CAPABILITY_EVIDENCE {
        d
    } else {
        d.subrange(0, MAX_CAPABILITY_EVIDENCE as int)
    }
}

fn option_less(a: Option<u64>, b: Option<u64>) -> (r: bool)
    ensures
        r == address_less(a, b),
{
    match (a, b) {
        (None, Some(_)) => true,
        (Some(x), Some(y)) => x < y,
        _ => false,
    }
}

fn evidence_before(a: &CapabilityEvidence, b: &CapabilityEvidence) -> (r: bool)
    ensures
        r == evidence_less(a@, b@),
{
    let ak = chars_of(a.kind.as_str());
    let bk = chars_of(b.kind.as_str());
    if chars_less(&ak, &bk) {
        return true;
    }
    if !chars_equal(&ak, &bk) {
        return false;
    }
    let av = chars_of(a.value.as_str());
    let bv = chars_of(b.value.as_str());
    if chars_less(&av, &bv) {
        return true;
    }
    if !chars_equal(&av, &bv) {
        return false;
    }
    option_less(a.address, b.address)
}

fn same_option(a: Option<u64>, b: Option<u64>) -> (r: bool)
    ensures
        r == (a == b),
{
    match (a, b) {
        (None, None) => true,
        (Some(x), Some(y)) => x == y,
        _ => false,
    }
}

fn same_evidence(a: &CapabilityEvidence, b: &CapabilityEvidence) -> (r: bool)
    ensures
        r == (a@ == b@),
{
    a.kind == b.kind && a.value == b.value && same_option(a.address, b.address) && same_option(
        a.file_offset,
        b.file_offset,
    )
}

proof fn lemma_insert_point_bound(s: Seq<EvidenceView>, x: EvidenceView)
    ensures
        0 <= insert_point(s, x) <= s.len(),
    decreases s.len(),
{
    if s.len() > 0 && evidence_less(x, s.last()) {
        lemma_insert_point_bound(s.drop_last(), x);
    }
}

/// Inserts `x` into `sorted` at its stable position.
fn insert_evidence(sorted: &mut Vec<CapabilityEvidence>, x: CapabilityEvidence)
    ensures
        evidence_views(final(sorted)@) == evidence_views(old(sorted)@).insert(insert_point(evidence_views(old(sorted)@), x@), x@),
{
    let ghost s = evidence_views(sorted@);
    let mut j: usize = sorted.len();
    assert(s.subrange(0, s.len() as int) =~= s);
    while j > 0
        invariant
            j <= sorted@.len(),
            s == evidence_views(sorted@),
            insert_point(s, x@) == insert_point(s.subrange(0, j as int), x@),
        ensures
            j <= sorted@.len(),
            insert_point(s, x@) == insert_point(s.subrange(0, j as int), x@),
            j == 0 || !evidence_less(x@, s[j - 1]),
        decreases j,
    {
        let pre = Ghost(s.subrange(0, j as int));
        assert(pre@.drop_last() =~= s.subrange(0, j - 1));
        if !evidence_before(&x, &sorted[j - 1]) {
            break;
        }
        j = j - 1;
    }
    proof {
        if j == 0 {
            assert(s.subrange(0, 0) =~= Seq::<EvidenceView>::empty());
        }
        lemma_insert_point_bound(s, x@);
    }
    sorted.insert(j, x);
    assert(evidence_views(sorted@) =~= s.insert(j as int, x@));
}

/// Sorts evidence by kind, value and address (stably), drops adjacent
/// duplicates and keeps at most `MAX_CAPABILITY_EVIDENCE` items.
pub fn bounded_evidence(evidence: Vec<CapabilityEvidence>) -> (r: Vec<CapabilityEvidence>)
    ensures
        evidence_views(r@) == bounded_spec(evidence_views(evidence@)),
{
    let ghost input = evidence_views(evidence@);
    let mut rest = evidence;
    let total = rest.len();
    assert(input.len() == total);
    let mut sorted: Vec<CapabilityEvidence> = Vec::new();
    let mut taken: usize = 0;
    assert(input.subrange(0, 0) =~= Seq::<EvidenceView>::empty());
    while rest.len() > 0
        invariant
            taken + rest@.len() == input.len(),
            input.len() <= usize::MAX,
            evidence_views(rest@) == input.subrange(taken as int, input.len() as int),
            evidence_views(sorted@) == sort_evidence(input.subrange(0, taken as int)),
        decreases rest@.len(),
    {
        let ghost before = evidence_views(rest@);
        let ghost old_rest = rest@;
        let x = rest.remove(0);
        assert(old_rest[0] == x);
        assert(before[0] == old_rest[0]@);
        assert(x@ == input[taken as int]);
        assert forall|i: int| 0 <= i < rest@.len() implies #[trigger] evidence_views(rest@)[i]
            == input[taken + 1 + i] by {
            assert(rest@[i] == old_rest[i + 1]);
            assert(before[i + 1] == old_rest[i + 1]@);
        }
        assert(evidence_views(rest@) =~= input.subrange(taken + 1, input.len() as int));
        insert_evidence(&mut sorted, x);
        let ghost pre = input.subrange(0, taken + 1);
        assert(pre.drop_last() =~= input.subrange(0, taken as int));
        taken = taken + 1;
    }
    assert(input.subrange(0, taken as int) =~= input);
    let ghost s = evidence_views(sorted@);
    let mut out: Vec<CapabilityEvidence> = Vec::new();
    let sorted_total = sorted.len();
    assert(s.len() == sorted_total);
    let mut done: usize = 0;
    assert(s.subrange(0, 0) =~= Seq::<EvidenceView>::empty());
    while sorted.len() > 0
        invariant
            done + sorted@.len() == s.len(),
            s.len() <= usize::MAX,
            evidence_views(sorted@) == s.subrange(done as int, s.len() as int),
            evidence_views(out@) == dedup_evidence(s.subrange(0, done as int)),
        decreases sorted@.len(),
    {
        let ghost before = evidence_views(sorted@);
        let ghost old_sorted = sorted@;
        let x = sorted.remove(0);
        assert(old_sorted[0] == x);
        assert(before[0] == old_sorted[0]@);
        assert(x@ == s[done as int]);
        assert forall|i: int| 0 <= i < sorted@.len() implies #[trigger] evidence_views(sorted@)[i]
            == s[done + 1 + i] by {
            assert(sorted@[i] == old_sorted[i + 1]);
            assert(before[i + 1] == old_sorted[i + 1]@);
        }
        assert(evidence_views(sorted@) =~= s.subrange(done + 1, s.len() as int));
        let ghost pre = s.subrange(0, done + 1);
        assert(pre.drop_last() =~= s.subrange(0, done as int));
        let n = out.len();
        if n > 0 && same_evidence(&out[n - 1], &x) {
        } else {
            out.push(x);
            assert(evidence_views(out@) =~= dedup_evidence(s.subrange(0, done as int)).push(
                s[done as int],
            ));
        }
        done = done + 1;
    }
    assert(s.subrange(0, done as int) =~= s);
    if out.len() > MAX_CAPABILITY_EVIDENCE {
        out.truncate(MAX_CAPABILITY_EVIDENCE);
    }
    assert(evidence_views(out@) =~= bounded_spec(input));
    out
}

// ----- evidence gathering -----

/// The views of a sequence of features.
pub open spec fn feature_views(v: Seq<Feature>) -> Seq<FeatureView> {
    v.map_values(|f: Feature| f@)
}

/// The texts of a sequence of selectors.
pub open spec fn selector_views(v: Seq<&str>) -> Seq<Seq<char>> {
    v.map_values(|s: &str| s@)
}

/// The texts of a sequence of selector groups.
pub open spec fn group_views(v: Seq<&[&str]>) -> Seq<Seq<Seq<char>>> {
    v.map_values(|g: &[&str]| selector_views(g@))
}

/// The views of a sequence of capability matches.
pub open spec fn capability_views(v: Seq<CapabilityMatch>) -> Seq<CapabilityMatchView> {
    v.map_values(|m: CapabilityMatch| m@)
}

/// The evidence item that a feature contributes.
pub open spec fn to_evidence(f: FeatureView) -> EvidenceView {
    EvidenceView { kind: kind_text(f.kind), value: f.value, address: f.address, file_offset: f.file_offset }
}

/// Evidence for every feature, in feature order, that some selector matches.
pub open spec fn matching_evidence(fs: Seq<FeatureView>, needles: Seq<Seq<char>>) -> Seq<EvidenceView>
    decreases fs.len(),
{
    if fs.len() == 0 {
        Seq::empty()
    } else {
        let p = matching_evidence(fs.drop_last(), needles);
        if any_selector(fs.last(), needles) {
            p.push(to_evidence(fs.last()))
        } else {
            p
        }
    }
}

/// The bounded evidence that `needles` finds among the features.
pub open spec fn evidence_spec(fs: Seq<FeatureView>, needles: Seq<Seq<char>>) -> Seq<EvidenceView> {
    bounded_spec(matching_evidence(fs, needles))
}

/// Collects bounded evidence from the features that some selector matches.
pub fn evidence_for(features: &[Feature], needles: &[&str]) -> (r: Vec<CapabilityEvidence>)
    ensures
        evidence_views(r@) == evidence_spec(feature_views(features@), selector_views(needles@)),
{
    let ghost fs = feature_views(features@);
    let mut found: Vec<CapabilityEvidence> = Vec::new();
    let mut i: usize = 0;
    while i < features.len()
        invariant
            i <= features@.len(),
            fs == feature_views(features@),
            evidence_views(found@) == matching_evidence(fs.subrange(0, i as int), selector_views(needles@)),
        decreases features@.len() - i,
    {
        let feature = &features[i];
        let ghost pre = fs.subrange(0, i + 1);
        assert(pre.drop_last() =~= fs.subrange(0, i as int));
        assert(pre.last() == feature@);
        if matches_any(feature, needles) {
            found.push(
                CapabilityEvidence {
                    kind: kind_name(feature.kind).to_owned(),
                    value: feature.value.clone(),
                    address: feature.address,
                    file_offset: feature.file_offset,
                },
            );
            assert(evidence_views(found@) =~= matching_evidence(fs.subrange(0, i as int), selector_views(needles@)).push(
                to_evidence(feature@),
            ));
        }
        i = i + 1;
    }
    assert(fs.subrange(0, i as int) =~= fs);
    bounded_evidence(found)
}

/// A rule's description as plain text.
pub open spec fn rule_of(id: &str, name: &str, namespace: &str, description: &str, confidence: Confidence) -> RuleView {
    RuleView { id: id@, name: name@, namespace: namespace@, description: description@, confidence }
}

/// Every evidence item comes from a string.
pub open spec fn strings_only(ev: Seq<EvidenceView>) -> bool {
    forall|i: int| 0 <= i < ev.len() ==> #[trigger] ev[i].kind == "string"@
}

/// The match a rule produces with the given evidence: a high-confidence rule
/// supported only by strings is reported with medium confidence.
pub open spec fn capability_spec(rule: RuleView, ev: Seq<EvidenceView>) -> CapabilityMatchView {
    CapabilityMatchView {
        id: rule.id,
        name: rule.name,
        namespace: rule.namespace,
        description: rule.description,
        confidence: if rule.confidence == Confidence::High && strings_only(ev) {
            Confidence::Medium
        } else {
            rule.confidence
        },
        evidence: ev,
    }
}

/// Builds the match for `rule` from its evidence.
pub fn capability(rule: CapabilityRule, evidence: Vec<CapabilityEvidence>) -> (r: CapabilityMatch)
    ensures
        r@ == capability_spec(rule@, evidence_views(evidence@)),
{
    let string_kind = chars_of("string");
    let mut only_strings = true;
    let mut i: usize = 0;
    while i < evidence.len()
        invariant
            i <= evidence@.len(),
            string_kind@ == "string"@,
            only_strings == (forall|j: int| 0 <= j < i ==> #[trigger] evidence_views(evidence@)[j].kind == "string"@),
        decreases evidence@.len() - i,
    {
        let kind = chars_of(evidence[i].kind.as_str());
        assert(evidence_views(evidence@)[i as int].kind == kind@);
        if !chars_equal(&kind, &string_kind) {
            only_strings = false;
        }
        i = i + 1;
    }
    let confidence = if rule.confidence == Confidence::High && only_strings {
        Confidence::Medium
    } else {
        rule.confidence
    };
    CapabilityMatch {
        id: rule.id.to_owned(),
        name: rule.name.to_owned(),
        namespace: rule.namespace.to_owned(),
        description: rule.description.to_owned(),
        confidence,
        evidence,
    }
}

/// Appends the outcome of a rule when it matched.
pub open spec fn add_outcome(acc: Seq<CapabilityMatchView>, o: Option<CapabilityMatchView>) -> Seq<CapabilityMatchView> {
    match o {
        Some(m) => acc.push(m),
        None => acc,
    }
}

/// A rule that matches when any of its selectors finds evidence.
pub open spec fn any_outcome(fs: Seq<FeatureView>, rule: RuleView, needles: Seq<Seq<char>>) -> Option<CapabilityMatchView> {
    let ev = evidence_spec(fs, needles);
    if ev.len() > 0 {
        Some(capability_spec(rule, ev))
    } else {
        None
    }
}

/// Appends `rule` when any selector finds evidence.
pub fn add_any(matches: &mut Vec<CapabilityMatch>, features: &[Feature], rule: CapabilityRule, needles: &[&str])
    ensures
        capability_views(final(matches)@) == add_outcome(
            capability_views(old(matches)@),
            any_outcome(feature_views(features@), rule@, selector_views(needles@)),
        ),
{
    let evidence = evidence_for(features, needles);
    if evidence.len() > 0 {
        let m = capability(rule, evidence);
        matches.push(m);
        assert(capability_views(matches@) =~= capability_views(old(matches)@).push(m@));
    }
}

/// Evidence of every group, concatenated in group order.
pub open spec fn groups_concat(fs: Seq<FeatureView>, groups: Seq<Seq<Seq<char>>>) -> Seq<EvidenceView>
    decreases groups.len(),
{
    if groups.len() == 0 {
        Seq::empty()
    } else {
        groups_concat(fs, groups.drop_last()) + evidence_spec(fs, groups.last())
    }
}

/// How many groups find some evidence.
pub open spec fn populated_groups(fs: Seq<FeatureView>, groups: Seq<Seq<Seq<char>>>) -> nat
    decreases groups.len(),
{
    if groups.len() == 0 {
        0
    } else {
        populated_groups(fs, groups.drop_last()) + if evidence_spec(fs, groups.last()).len() > 0 {
            1nat
        } else {
            0nat
        }
    }
}

/// A rule that matches when every group finds evidence.
pub open spec fn all_groups_outcome(fs: Seq<FeatureView>, rule: RuleView, groups: Seq<Seq<Seq<char>>>) -> Option<CapabilityMatchView> {
    if forall|k: int| 0 <= k < groups.len() ==> #[trigger] evidence_spec(fs, groups[k]).len() > 0 {
        Some(capability_spec(rule, bounded_spec(groups_concat(fs, groups))))
    } else {
        None
    }
}

/// A rule that matches when at least `threshold` groups find evidence.
pub open spec fn threshold_outcome(fs: Seq<FeatureView>, rule: RuleView, groups: Seq<Seq<Seq<char>>>, threshold: nat) -> Option<CapabilityMatchView> {
    if populated_groups(fs, groups) >= threshold {
        Some(capability_spec(rule, bounded_spec(groups_concat(fs, groups))))
    } else {
        None
    }
}

/// Appends `rule` when every group of selectors finds evidence.
pub fn add_all_groups(matches: &mut Vec<CapabilityMatch>, features: &[Feature], rule: CapabilityRule, groups: &[&[&str]])
    ensures
        capability_views(final(matches)@) == add_outcome(
            capability_views(old(matches)@),
            all_groups_outcome(feature_views(features@), rule@, group_views(groups@)),
        ),
{
    let ghost fs = feature_views(features@);
    let ghost gs = group_views(groups@);
    let mut evidence: Vec<CapabilityEvidence> = Vec::new();
    let mut i: usize = 0;
    assert(gs.subrange(0, 0) =~= Seq::<Seq<Seq<char>>>::empty());
    while i < groups.len()
        invariant
            i <= groups@.len(),
            fs == feature_views(features@),
            gs == group_views(groups@),
            matches@ == old(matches)@,
            forall|k: int| 0 <= k < i ==> #[trigger] evidence_spec(fs, gs[k]).len() > 0,
            evidence_views(evidence@) == groups_concat(fs, gs.subrange(0, i as int)),
        decreases groups@.len() - i,
    {
        let mut group_evidence = evidence_for(features, groups[i]);
        assert(gs[i as int] == selector_views(groups@[i as int]@));
        if group_evidence.len() == 0 {
            assert(evidence_spec(fs, gs[i as int]).len() == 0);
            return;
        }
        let ghost pre = gs.subrange(0, i + 1);
        assert(pre.drop_last() =~= gs.subrange(0, i as int));
        let ghost before = evidence_views(evidence@);
        evidence.append(&mut group_evidence);
        assert(evidence_views(evidence@) =~= before + evidence_spec(fs, gs[i as int]));
        i = i + 1;
    }
    assert(gs.subrange(0, i as int) =~= gs);
    let m = capability(rule, bounded_evidence(evidence));
    matches.push(m);
    assert(capability_views(matches@) =~= capability_views(old(matches)@).push(m@));
}

/// Appends `rule` when at least `threshold` groups of selectors find evidence.
pub fn add_group_threshold(
    matches: &mut Vec<CapabilityMatch>,
    features: &[Feature],
    rule: CapabilityRule,
    groups: &[&[&str]],
    threshold: usize,
)
    ensures
        capability_views(final(matches)@) == add_outcome(
            capability_views(old(matches)@),
            threshold_outcome(feature_views(features@), rule@, group_views(groups@), threshold as nat),
        ),
{
    let ghost fs = feature_views(features@);
    let ghost gs = group_views(groups@);
    let mut evidence: Vec<CapabilityEvidence> = Vec::new();
    let mut populated: usize = 0;
    let mut i: usize = 0;
    assert(gs.subrange(0, 0) =~= Seq::<Seq<Seq<char>>>::empty());
    while i < groups.len()
        invariant
            i <= groups@.len(),
            populated <= i,
            fs == feature_views(features@),
            gs == group_views(groups@),
            populated == populated_groups(fs, gs.subrange(0, i as int)),
            evidence_views(evidence@) == groups_concat(fs, gs.subrange(0, i as int)),
        decreases groups@.len() - i,
    {
        let mut group_evidence = evidence_for(features, groups[i]);
        assert(gs[i as int] == selector_views(groups@[i as int]@));
        let ghost pre = gs.subrange(0, i + 1);
        assert(pre.drop_last() =~= gs.subrange(0, i as int));
        if group_evidence.len() > 0 {
            populated = populated + 1;
        }
        let ghost before = evidence_views(evidence@);
        evidence.append(&mut group_evidence);
        assert(evidence_views(evidence@) =~= before + evidence_spec(fs, gs[i as int]));
        i = i + 1;
    }
    assert(gs.subrange(0, i as int) =~= gs);
    if populated >= threshold {
        let m = capability(rule, bounded_evidence(evidence));
        matches.push(m);
        assert(capability_views(matches@) =~= capability_views(old(matches)@).push(m@));
    }
}

// ----- the rule table -----

/// The "anti-analysis" rule: any of its selectors.
pub open spec fn anti_analysis_rule(fs: Seq<FeatureView>) -> Option<CapabilityMatchView> {
    any_outcome(fs, rule_of("anti-analysis", "Inspect or evade the analysis environment", "anti-analysis/environment", "References debugger, timing, or processor-identification checks.", Confidence::Medium), selector_views(seq!["import:isdebuggerpresent", "import:checkremotedebuggerpresent", "import:ntqueryinformationprocess", "import:queryperformancecounter", "instruction:=rdtsc", "instruction:=rdtscp", "instruction:=cpuid"]))
}

/// The "network-communication" rule: any of its selectors.
pub open spec fn network_communication_rule(fs: Seq<FeatureView>) -> Option<CapabilityMatchView> {
    any_outcome(fs, rule_of("network-communication", "Communicate over a network", "communication/network", "References networking APIs, protocols, or remote destinations.", Confidence::Medium), selector_views(seq!["import:wininet", "import:winhttp", "import:internetopen", "import:httpopenrequest", "import:wsastartup", "import:=socket", "import:=connect", "import:urldownloadtofile", "string:http://", "string:https://"]))
}

/// The "credential-access" rule: any of its selectors.
pub open spec fn credential_access_rule(fs: Seq<FeatureView>) -> Option<CapabilityMatchView> {
    any_outcome(fs, rule_of("credential-access", "Access credential material", "credential-access", "References credential, secret-decryption, or account-database material.", Confidence::High), selector_views(seq!["import:credread", "import:cryptunprotectdata", "import:lsaretrieveprivatedata", "string:sam\\", "string:security\\policy\\secrets"]))
}

/// The "cryptography" rule: any of its selectors.
pub open spec fn cryptography_rule(fs: Seq<FeatureView>) -> Option<CapabilityMatchView> {
    any_outcome(fs, rule_of("cryptography", "Use cryptographic operations", "data-manipulation/cryptography", "References cryptographic providers, hashing, encryption, or decryption APIs.", Confidence::Medium), selector_views(seq!["import:bcrypt", "import:cryptencrypt", "import:cryptdecrypt", "import:crypthashdata", "import:evp_encrypt", "import:evp_decrypt", "import:sha256", "import:aes_"]))
}

/// The "system-discovery" rule: any of its selectors.
pub open spec fn system_discovery_rule(fs: Seq<FeatureView>) -> Option<CapabilityMatchView> {
    any_outcome(fs, rule_of("system-discovery", "Discover host or user information", "discovery/system", "References APIs commonly used to enumerate the host, user, or running processes.", Confidence::Medium), selector_views(seq!["import:getcomputername", "import:getusername", "import:enumprocesses", "import:createtoolhelp32snapshot", "import:process32first", "import:process32next", "import:=uname", "import:gethostname"]))
}

/// The "process-execution" rule: any of its selectors.
pub open spec fn process_execution_rule(fs: Seq<FeatureView>) -> Option<CapabilityMatchView> {
    any_outcome(fs, rule_of("process-execution", "Execute a process or command", "execution/process", "References APIs or command material commonly used to start another process.", Confidence::High), selector_views(seq!["import:winexec", "import:createprocess", "import:shellexecute", "import:=system", "import:=popen", "string:powershell", "string:cmd.exe", "string:/bin/sh"]))
}

/// The "file-manipulation" rule: any of its selectors.
pub open spec fn file_manipulation_rule(fs: Seq<FeatureView>) -> Option<CapabilityMatchView> {
    any_outcome(fs, rule_of("file-manipulation", "Create or modify files", "host-interaction/file-system", "References APIs that create, write, move, or delete files.", Confidence::Medium), selector_views(seq!["import:createfile", "import:writefile", "import:deletefile", "import:movefile", "import:copyfile", "import:=fopen", "import:=fwrite", "import:=unlink"]))
}

/// The "process-injection" rule over its selector groups.
pub open spec fn process_injection_rule(fs: Seq<FeatureView>) -> Option<CapabilityMatchView> {
    threshold_outcome(fs, rule_of("process-injection", "Manipulate another process", "host-interaction/process-injection", "Combines multiple primitives associated with cross-process memory modification or execution.", Confidence::High), seq![selector_views(seq!["import:openprocess"]), selector_views(seq!["import:virtualallocex", "import:ntallocatevirtualmemory"]), selector_views(seq!["import:writeprocessmemory", "import:ntwritevirtualmemory"]), selector_views(seq!["import:createremotethread", "import:ntcreatethreadex", "import:queueuserapc"])], 2)
}

/// The "registry-modification" rule: any of its selectors.
pub open spec fn registry_modification_rule(fs: Seq<FeatureView>) -> Option<CapabilityMatchView> {
    any_outcome(fs, rule_of("registry-modification", "Modify the Windows registry", "host-interaction/registry", "References APIs that create or modify registry keys and values.", Confidence::High), selector_views(seq!["import:regsetvalue", "import:regcreatekey", "import:ntsetvaluekey", "string:hkey_", "string:hkcu\\", "string:hklm\\"]))
}

/// The "dynamic-api-resolution" rule over its selector groups.
pub open spec fn dynamic_api_resolution_rule(fs: Seq<FeatureView>) -> Option<CapabilityMatchView> {
    all_groups_outcome(fs, rule_of("dynamic-api-resolution", "Resolve APIs dynamically", "load-code/resolve-api", "Combines module loading with runtime export lookup.", Confidence::High), seq![selector_views(seq!["import:loadlibrary", "import:ldrloaddll"]), selector_views(seq!["import:getprocaddress", "import:ldrgetprocedureaddress"])])
}

/// The "memory-protection" rule: any of its selectors.
pub open spec fn memory_protection_rule(fs: Seq<FeatureView>) -> Option<CapabilityMatchView> {
    any_outcome(fs, rule_of("memory-protection", "Change memory protections", "memory/protection", "References APIs used to make memory executable or otherwise change page protections.", Confidence::High), selector_views(seq!["import:virtualprotect", "import:ntprotectvirtualmemory", "import:=mprotect"]))
}

/// Every rule's outcome, in namespace order.
pub open spec fn capabilities_spec(fs: Seq<FeatureView>) -> Seq<CapabilityMatchView> {
    add_outcome(add_outcome(add_outcome(add_outcome(add_outcome(add_outcome(add_outcome(add_outcome(add_outcome(add_outcome(add_outcome(Seq::empty(), anti_analysis_rule(fs)), network_communication_rule(fs)), credential_access_rule(fs)), cryptography_rule(fs)), system_discovery_rule(fs)), process_execution_rule(fs)), file_manipulation_rule(fs)), process_injection_rule(fs)), registry_modification_rule(fs)), dynamic_api_resolution_rule(fs)), memory_protection_rule(fs))
}

fn add_anti_analysis(matches: &mut Vec<CapabilityMatch>, features: &[Feature])
    ensures
        capability_views(final(matches)@) == add_outcome(capability_views(old(matches)@), anti_analysis_rule(feature_views(features@))),
{
    let needles: [&str; 7] = ["import:isdebuggerpresent", "import:checkremotedebuggerpresent", "import:ntqueryinformationprocess", "import:queryperformancecounter", "instruction:=rdtsc", "instruction:=rdtscp", "instruction:=cpuid"];
    assert(needles@ =~= seq!["import:isdebuggerpresent", "import:checkremotedebuggerpresent", "import:ntqueryinformationprocess", "import:queryperformancecounter", "instruction:=rdtsc", "instruction:=rdtscp", "instruction:=cpuid"]);
    add_any(
        matches,
        features,
        CapabilityRule {
            id: "anti-analysis",
            name: "Inspect or evade the analysis environment",
            namespace: "anti-analysis/environment",
            description: "References debugger, timing, or processor-identification checks.",
            confidence: Confidence::Medium,
        },
        &needles,
    );
}

fn add_network_communication(matches: &mut Vec<CapabilityMatch>, features: &[Feature])
    ensures
        capability_views(final(matches)@) == add_outcome(capability_views(old(matches)@), network_communication_rule(feature_views(features@))),
{
    let needles: [&str; 10] = ["import:wininet", "import:winhttp", "import:internetopen", "import:httpopenrequest", "import:wsastartup", "import:=socket", "import:=connect", "import:urldownloadtofile", "string:http://", "string:https://"];
    assert(needles@ =~= seq!["import:wininet", "import:winhttp", "import:internetopen", "import:httpopenrequest", "import:wsastartup", "import:=socket", "import:=connect", "import:urldownloadtofile", "string:http://", "string:https://"]);
    add_any(
        matches,
        features,
        CapabilityRule {
            id: "network-communication",
            name: "Communicate over a network",
            namespace: "communication/network",
            description: "References networking APIs, protocols, or remote destinations.",
            confidence: Confidence::Medium,
        },
        &needles,
    );
}

fn add_credential_access(matches: &mut Vec<CapabilityMatch>, features: &[Feature])
    ensures
        capability_views(final(matches)@) == add_outcome(capability_views(old(matches)@), credential_access_rule(feature_views(features@))),
{
    let needles: [&str; 5] = ["import:credread", "import:cryptunprotectdata", "import:lsaretrieveprivatedata", "string:sam\\", "string:security\\policy\\secrets"];
    assert(needles@ =~= seq!["import:credread", "import:cryptunprotectdata", "import:lsaretrieveprivatedata", "string:sam\\", "string:security\\policy\\secrets"]);
    add_any(
        matches,
        features,
        CapabilityRule {
            id: "credential-access",
            name: "Access credential material",
            namespace: "credential-access",
            description: "References credential, secret-decryption, or account-database material.",
            confidence: Confidence::High,
        },
        &needles,
    );
}

fn add_cryptography(matches: &mut Vec<CapabilityMatch>, features: &[Feature])
    ensures
        capability_views(final(matches)@) == add_outcome(capability_views(old(matches)@), cryptography_rule(feature_views(features@))),
{
    let needles: [&str; 8] = ["import:bcrypt", "import:cryptencrypt", "import:cryptdecrypt", "import:crypthashdata", "import:evp_encrypt", "import:evp_decrypt", "import:sha256", "import:aes_"];
    assert(needles@ =~= seq!["import:bcrypt", "import:cryptencrypt", "import:cryptdecrypt", "import:crypthashdata", "import:evp_encrypt", "import:evp_decrypt", "import:sha256", "import:aes_"]);
    add_any(
        matches,
        features,
        CapabilityRule {
            id: "cryptography",
            name: "Use cryptographic operations",
            namespace: "data-manipulation/cryptography",
            description: "References cryptographic providers, hashing, encryption, or decryption APIs.",
            confidence: Confidence::Medium,
        },
        &needles,
    );
}

fn add_system_discovery(matches: &mut Vec<CapabilityMatch>, features: &[Feature])
    ensures
        capability_views(final(matches)@) == add_outcome(capability_views(old(matches)@), system_discovery_rule(feature_views(features@))),
{
    let needles: [&str; 8] = ["import:getcomputername", "import:getusername", "import:enumprocesses", "import:createtoolhelp32snapshot", "import:process32first", "import:process32next", "import:=uname", "import:gethostname"];
    assert(needles@ =~= seq!["import:getcomputername", "import:getusername", "import:enumprocesses", "import:createtoolhelp32snapshot", "import:process32first", "import:process32next", "import:=uname", "import:gethostname"]);
    add_any(
        matches,
        features,
        CapabilityRule {
            id: "system-discovery",
            name: "Discover host or user information",
            namespace: "discovery/system",
            description: "References APIs commonly used to enumerate the host, user, or running processes.",
            confidence: Confidence::Medium,
        },
        &needles,
    );
}

fn add_process_execution(matches: &mut Vec<CapabilityMatch>, features: &[Feature])
    ensures
        capability_views(final(matches)@) == add_outcome(capability_views(old(matches)@), process_execution_rule(feature_views(features@))),
{
    let needles: [&str; 8] = ["import:winexec", "import:createprocess", "import:shellexecute", "import:=system", "import:=popen", "string:powershell", "string:cmd.exe", "string:/bin/sh"];
    assert(needles@ =~= seq!["import:winexec", "import:createprocess", "import:shellexecute", "import:=system", "import:=popen", "string:powershell", "string:cmd.exe", "string:/bin/sh"]);
    add_any(
        matches,
        features,
        CapabilityRule {
            id: "process-execution",
            name: "Execute a process or command",
            namespace: "execution/process",
            description: "References APIs or command material commonly used to start another process.",
            confidence: Confidence::High,
        },
        &needles,
    );
}

fn add_file_manipulation(matches: &mut Vec<CapabilityMatch>, features: &[Feature])
    ensures
        capability_views(final(matches)@) == add_outcome(capability_views(old(matches)@), file_manipulation_rule(feature_views(features@))),
{
    let needles: [&str; 8] = ["import:createfile", "import:writefile", "import:deletefile", "import:movefile", "import:copyfile", "import:=fopen", "import:=fwrite", "import:=unlink"];
    assert(needles@ =~= seq!["import:createfile", "import:writefile", "import:deletefile", "import:movefile", "import:copyfile", "import:=fopen", "import:=fwrite", "import:=unlink"]);
    add_any(
        matches,
        features,
        CapabilityRule {
            id: "file-manipulation",
            name: "Create or modify files",
            namespace: "host-interaction/file-system",
            description: "References APIs that create, write, move, or delete files.",
            confidence: Confidence::Medium,
        },
        &needles,
    );
}

fn add_process_injection(matches: &mut Vec<CapabilityMatch>, features: &[Feature])
    ensures
        capability_views(final(matches)@) == add_outcome(capability_views(old(matches)@), process_injection_rule(feature_views(features@))),
{
    let g0: [&str; 1] = ["import:openprocess"];
    assert(g0@ =~= seq!["import:openprocess"]);
    let g1: [&str; 2] = ["import:virtualallocex", "import:ntallocatevirtualmemory"];
    assert(g1@ =~= seq!["import:virtualallocex", "import:ntallocatevirtualmemory"]);
    let g2: [&str; 2] = ["import:writeprocessmemory", "import:ntwritevirtualmemory"];
    assert(g2@ =~= seq!["import:writeprocessmemory", "import:ntwritevirtualmemory"]);
    let g3: [&str; 3] = ["import:createremotethread", "import:ntcreatethreadex", "import:queueuserapc"];
    assert(g3@ =~= seq!["import:createremotethread", "import:ntcreatethreadex", "import:queueuserapc"]);
    let groups: [&[&str]; 4] = [&g0, &g1, &g2, &g3];
    assert(group_views(groups@) =~= seq![selector_views(seq!["import:openprocess"]), selector_views(seq!["import:virtualallocex", "import:ntallocatevirtualmemory"]), selector_views(seq!["import:writeprocessmemory", "import:ntwritevirtualmemory"]), selector_views(seq!["import:createremotethread", "import:ntcreatethreadex", "import:queueuserapc"])]);
    add_group_threshold(matches, features, CapabilityRule {
            id: "process-injection",
            name: "Manipulate another process",
            namespace: "host-interaction/process-injection",
            description: "Combines multiple primitives associated with cross-process memory modification or execution.",
            confidence: Confidence::High,
        }, &groups, 2);
}

fn add_registry_modification(matches: &mut Vec<CapabilityMatch>, features: &[Feature])
    ensures
        capability_views(final(matches)@) == add_outcome(capability_views(old(matches)@), registry_modification_rule(feature_views(features@))),
{
    let needles: [&str; 6] = ["import:regsetvalue", "import:regcreatekey", "import:ntsetvaluekey", "string:hkey_", "string:hkcu\\", "string:hklm\\"];
    assert(needles@ =~= seq!["import:regsetvalue", "import:regcreatekey", "import:ntsetvaluekey", "string:hkey_", "string:hkcu\\", "string:hklm\\"]);
    add_any(
        matches,
        features,
        CapabilityRule {
            id: "registry-modification",
            name: "Modify the Windows registry",
            namespace: "host-interaction/registry",
            description: "References APIs that create or modify registry keys and values.",
            confidence: Confidence::High,
        },
        &needles,
    );
}

fn add_dynamic_api_resolution(matches: &mut Vec<CapabilityMatch>, features: &[Feature])
    ensures
        capability_views(final(matches)@) == add_outcome(capability_views(old(matches)@), dynamic_api_resolution_rule(feature_views(features@))),
{
    let g0: [&str; 2] = ["import:loadlibrary", "import:ldrloaddll"];
    assert(g0@ =~= seq!["import:loadlibrary", "import:ldrloaddll"]);
    let g1: [&str; 2] = ["import:getprocaddress", "import:ldrgetprocedureaddress"];
    assert(g1@ =~= seq!["import:getprocaddress", "import:ldrgetprocedureaddress"]);
    let groups: [&[&str]; 2] = [&g0, &g1];
    assert(group_views(groups@) =~= seq![selector_views(seq!["import:loadlibrary", "import:ldrloaddll"]), selector_views(seq!["import:getprocaddress", "import:ldrgetprocedureaddress"])]);
    add_all_groups(matches, features, CapabilityRule {
            id: "dynamic-api-resolution",
            name: "Resolve APIs dynamically",
            namespace: "load-code/resolve-api",
            description: "Combines module loading with runtime export lookup.",
            confidence: Confidence::High,
        }, &groups);
}

fn add_memory_protection(matches: &mut Vec<CapabilityMatch>, features: &[Feature])
    ensures
        capability_views(final(matches)@) == add_outcome(capability_views(old(matches)@), memory_protection_rule(feature_views(features@))),
{
    let needles: [&str; 3] = ["import:virtualprotect", "import:ntprotectvirtualmemory", "import:=mprotect"];
    assert(needles@ =~= seq!["import:virtualprotect", "import:ntprotectvirtualmemory", "import:=mprotect"]);
    add_any(
        matches,
        features,
        CapabilityRule {
            id: "memory-protection",
            name: "Change memory protections",
            namespace: "memory/protection",
            description: "References APIs used to make memory executable or otherwise change page protections.",
            confidence: Confidence::High,
        },
        &needles,
    );
}

/// Evaluates every capability rule against the features; the matches come
/// out ordered by namespace.
pub fn match_capabilities(features: &[Feature]) -> (r: Vec<CapabilityMatch>)
    ensures
        capability_views(r@) == capabilities_spec(feature_views(features@)),
{
    let mut matches: Vec<CapabilityMatch> = Vec::new();
    assert(capability_views(matches@) =~= Seq::<CapabilityMatchView>::empty());
    add_anti_analysis(&mut matches, features);
    add_network_communication(&mut matches, features);
    add_credential_access(&mut matches, features);
    add_cryptography(&mut matches, features);
    add_system_discovery(&mut matches, features);
    add_process_execution(&mut matches, features);
    add_file_manipulation(&mut matches, features);
    add_process_injection(&mut matches, features);
    add_registry_modification(&mut matches, features);
    add_dynamic_api_resolution(&mut matches, features);
    add_memory_protection(&mut matches, features);
    matches
}

// ----- laws of capability matching -----

proof fn lemma_sort_len(s: Seq<EvidenceView>)
    ensures
        sort_evidence(s).len() == s.len(),
    decreases s.len(),
{
    if s.len() > 0 {
        lemma_sort_len(s.drop_last());
        lemma_insert_point_bound(sort_evidence(s.drop_last()), s.last());
    }
}

proof fn lemma_dedup_nonempty(s: Seq<EvidenceView>)
    ensures
        (dedup_evidence(s).len() > 0) == (s.len() > 0),
    decreases s.len(),
{
    if s.len() > 0 {
        lemma_dedup_nonempty(s.drop_last());
    }
}

/// Bounded evidence is non-empty exactly when the evidence is, and holds at
/// most `MAX_CAPABILITY_EVIDENCE` items.
proof fn lemma_bounded_len(s: Seq<EvidenceView>)
    ensures
        (bounded_spec(s).len() > 0) == (s.len() > 0),
        bounded_spec(s).len() <= MAX_CAPABILITY_EVIDENCE,
{
    lemma_sort_len(s);
    lemma_dedup_nonempty(sort_evidence(s));
}

proof fn lemma_matching_append(fs: Seq<FeatureView>, gs: Seq<FeatureView>, needles: Seq<Seq<char>>)
    ensures
        matching_evidence(fs + gs, needles) == matching_evidence(fs, needles) + matching_evidence(gs, needles),
    decreases gs.len(),
{
    if gs.len() == 0 {
        assert(fs + gs =~= fs);
        assert(matching_evidence(fs, needles) + Seq::<EvidenceView>::empty() =~= matching_evidence(fs, needles));
    } else {
        assert((fs + gs).drop_last() =~= fs + gs.drop_last());
        assert((fs + gs).last() == gs.last());
        lemma_matching_append(fs, gs.drop_last(), needles);
        let a = matching_evidence(fs, needles);
        let b = matching_evidence(gs.drop_last(), needles);
        assert((a + b).push(to_evidence(gs.last())) =~= a + b.push(to_evidence(gs.last())));
    }
}

proof fn lemma_evidence_grows(fs: Seq<FeatureView>, gs: Seq<FeatureView>, needles: Seq<Seq<char>>)
    ensures
        evidence_spec(fs, needles).len() > 0 ==> evidence_spec(fs + gs, needles).len() > 0,
{
    lemma_matching_append(fs, gs, needles);
    lemma_bounded_len(matching_evidence(fs, needles));
    lemma_bounded_len(matching_evidence(fs + gs, needles));
}

proof fn lemma_populated_grows(fs: Seq<FeatureView>, gs: Seq<FeatureView>, groups: Seq<Seq<Seq<char>>>)
    ensures
        populated_groups(fs, groups) <= populated_groups(fs + gs, groups),
    decreases groups.len(),
{
    if groups.len() > 0 {
        lemma_populated_grows(fs, gs, groups.drop_last());
        lemma_evidence_grows(fs, gs, groups.last());
    }
}

/// Every outcome a rule gives has between one and `MAX_CAPABILITY_EVIDENCE`
/// evidence items.
pub open spec fn evidence_bounded(o: Option<CapabilityMatchView>) -> bool {
    o matches Some(m) ==> 1 <= m.evidence.len() <= MAX_CAPABILITY_EVIDENCE
}

/// `o2` fires with the same id wherever `o1` fires.
pub open spec fn still_fires(o1: Option<CapabilityMatchView>, o2: Option<CapabilityMatchView>) -> bool {
    o1 matches Some(m1) ==> (o2 matches Some(m2) && m2.id == m1.id)
}

proof fn lemma_any_rule(fs: Seq<FeatureView>, gs: Seq<FeatureView>, rule: RuleView, needles: Seq<Seq<char>>)
    ensures
        still_fires(any_outcome(fs, rule, needles), any_outcome(fs + gs, rule, needles)),
        evidence_bounded(any_outcome(fs, rule, needles)),
{
    lemma_evidence_grows(fs, gs, needles);
    lemma_bounded_len(matching_evidence(fs, needles));
}

proof fn lemma_groups_bounded(fs: Seq<FeatureView>, groups: Seq<Seq<Seq<char>>>)
    ensures
        groups.len() > 0 && evidence_spec(fs, groups.last()).len() > 0 ==> groups_concat(fs, groups).len() > 0,
{
}



proof fn lemma_populated_bound(fs: Seq<FeatureView>, groups: Seq<Seq<Seq<char>>>)
    ensures
        populated_groups(fs, groups) > 0 ==> groups_concat(fs, groups).len() > 0,
    decreases groups.len(),
{
    if groups.len() > 0 {
        lemma_populated_bound(fs, groups.drop_last());
    }
}

proof fn lemma_threshold_rule(fs: Seq<FeatureView>, gs: Seq<FeatureView>, rule: RuleView, groups: Seq<Seq<Seq<char>>>, t: nat)
    requires
        t > 0,
    ensures
        still_fires(threshold_outcome(fs, rule, groups, t), threshold_outcome(fs + gs, rule, groups, t)),
        evidence_bounded(threshold_outcome(fs, rule, groups, t)),
{
    lemma_populated_grows(fs, gs, groups);
    lemma_populated_bound(fs, groups);
    lemma_bounded_len(groups_concat(fs, groups));
}


proof fn lemma_anti_analysis_monotone(fs: Seq<FeatureView>, gs: Seq<FeatureView>)
    ensures
        still_fires(anti_analysis_rule(fs), anti_analysis_rule(fs + gs)),
        evidence_bounded(anti_analysis_rule(fs)),
{
    lemma_any_rule(fs, gs, rule_of("anti-analysis", "Inspect or evade the analysis environment", "anti-analysis/environment", "References debugger, timing, or processor-identification checks.", Confidence::Medium), selector_views(seq!["import:isdebuggerpresent", "import:checkremotedebuggerpresent", "import:ntqueryinformationprocess", "import:queryperformancecounter", "instruction:=rdtsc", "instruction:=rdtscp", "instruction:=cpuid"]));
}

proof fn lemma_network_communication_monotone(fs: Seq<FeatureView>, gs: Seq<FeatureView>)
    ensures
        still_fires(network_communication_rule(fs), network_communication_rule(fs + gs)),
        evidence_bounded(network_communication_rule(fs)),
{
    lemma_any_rule(fs, gs, rule_of("network-communication", "Communicate over a network", "communication/network", "References networking APIs, protocols, or remote destinations.", Confidence::Medium), selector_views(seq!["import:wininet", "import:winhttp", "import:internetopen", "import:httpopenrequest", "import:wsastartup", "import:=socket", "import:=connect", "import:urldownloadtofile", "string:http://", "string:https://"]));
}

proof fn lemma_credential_access_monotone(fs: Seq<FeatureView>, gs: Seq<FeatureView>)
    ensures
        still_fires(credential_access_rule(fs), credential_access_rule(fs + gs)),
        evidence_bounded(credential_access_rule(fs)),
{
    lemma_any_rule(fs, gs, rule_of("credential-access", "Access credential material", "credential-access", "References credential, secret-decryption, or account-database material.", Confidence::High), selector_views(seq!["import:credread", "import:cryptunprotectdata", "import:lsaretrieveprivatedata", "string:sam\\", "string:security\\policy\\secrets"]));
}

proof fn lemma_cryptography_monotone(fs: Seq<FeatureView>, gs: Seq<FeatureView>)
    ensures
        still_fires(cryptography_rule(fs), cryptography_rule(fs + gs)),
        evidence_bounded(cryptography_rule(fs)),
{
    lemma_any_rule(fs, gs, rule_of("cryptography", "Use cryptographic operations", "data-manipulation/cryptography", "References cryptographic providers, hashing, encryption, or decryption APIs.", Confidence::Medium), selector_views(seq!["import:bcrypt", "import:cryptencrypt", "import:cryptdecrypt", "import:crypthashdata", "import:evp_encrypt", "import:evp_decrypt", "import:sha256", "import:aes_"]));
}

proof fn lemma_system_discovery_monotone(fs: Seq<FeatureView>, gs: Seq<FeatureView>)
    ensures
        still_fires(system_discovery_rule(fs), system_discovery_rule(fs + gs)),
        evidence_bounded(system_discovery_rule(fs)),
{
    lemma_any_rule(fs, gs, rule_of("system-discovery", "Discover host or user information", "discovery/system", "References APIs commonly used to enumerate the host, user, or running processes.", Confidence::Medium), selector_views(seq!["import:getcomputername", "import:getusername", "import:enumprocesses", "import:createtoolhelp32snapshot", "import:process32first", "import:process32next", "import:=uname", "import:gethostname"]));
}

proof fn lemma_process_execution_monotone(fs: Seq<FeatureView>, gs: Seq<FeatureView>)
    ensures
        still_fires(process_execution_rule(fs), process_execution_rule(fs + gs)),
        evidence_bounded(process_execution_rule(fs)),
{
    lemma_any_rule(fs, gs, rule_of("process-execution", "Execute a process or command", "execution/process", "References APIs or command material commonly used to start another process.", Confidence::High), selector_views(seq!["import:winexec", "import:createprocess", "import:shellexecute", "import:=system", "import:=popen", "string:powershell", "string:cmd.exe", "string:/bin/sh"]));
}

proof fn lemma_file_manipulation_monotone(fs: Seq<FeatureView>, gs: Seq<FeatureView>)
    ensures
        still_fires(file_manipulation_rule(fs), file_manipulation_rule(fs + gs)),
        evidence_bounded(file_manipulation_rule(fs)),
{
    lemma_any_rule(fs, gs, rule_of("file-manipulation", "Create or modify files", "host-interaction/file-system", "References APIs that create, write, move, or delete files.", Confidence::Medium), selector_views(seq!["import:createfile", "import:writefile", "import:deletefile", "import:movefile", "import:copyfile", "import:=fopen", "import:=fwrite", "import:=unlink"]));
}

proof fn lemma_process_injection_monotone(fs: Seq<FeatureView>, gs: Seq<FeatureView>)
    ensures
        still_fires(process_injection_rule(fs), process_injection_rule(fs + gs)),
        evidence_bounded(process_injection_rule(fs)),
{
    lemma_threshold_rule(fs, gs, rule_of("process-injection", "Manipulate another process", "host-interaction/process-injection", "Combines multiple primitives associated with cross-process memory modification or execution.", Confidence::High), seq![selector_views(seq!["import:openprocess"]), selector_views(seq!["import:virtualallocex", "import:ntallocatevirtualmemory"]), selector_views(seq!["import:writeprocessmemory", "import:ntwritevirtualmemory"]), selector_views(seq!["import:createremotethread", "import:ntcreatethreadex", "import:queueuserapc"])], 2);
}

proof fn lemma_registry_modification_monotone(fs: Seq<FeatureView>, gs: Seq<FeatureView>)
    ensures
        still_fires(registry_modification_rule(fs), registry_modification_rule(fs + gs)),
        evidence_bounded(registry_modification_rule(fs)),
{
    lemma_any_rule(fs, gs, rule_of("registry-modification", "Modify the Windows registry", "host-interaction/registry", "References APIs that create or modify registry keys and values.", Confidence::High), selector_views(seq!["import:regsetvalue", "import:regcreatekey", "import:ntsetvaluekey", "string:hkey_", "string:hkcu\\", "string:hklm\\"]));
}

proof fn lemma_dynamic_api_resolution_monotone(fs: Seq<FeatureView>, gs: Seq<FeatureView>)
    ensures
        still_fires(dynamic_api_resolution_rule(fs), dynamic_api_resolution_rule(fs + gs)),
        evidence_bounded(dynamic_api_resolution_rule(fs)),
{
    let hs = fs + gs;
    let g0 = selector_views(seq!["import:loadlibrary", "import:ldrloaddll"]);
    let g1 = selector_views(seq!["import:getprocaddress", "import:ldrgetprocedureaddress"]);
    let groups = seq![g0, g1];
    lemma_evidence_grows(fs, gs, g0);
    lemma_evidence_grows(fs, gs, g1);
    let e0 = evidence_spec(fs, g0).len() > 0;
    let e1 = evidence_spec(fs, g1).len() > 0;
    if e0 && e1 {
        assert(forall|k: int| 0 <= k < groups.len() ==> #[trigger] evidence_spec(fs, groups[k]).len() > 0) by {
            assert(groups[0] == g0 && groups[1] == g1);
        }
        assert(forall|k: int| 0 <= k < groups.len() ==> #[trigger] evidence_spec(hs, groups[k]).len() > 0) by {
            assert(groups[0] == g0 && groups[1] == g1);
        }
        assert(groups.drop_last() =~= seq![g0]);
        assert(seq![g0].drop_last() =~= Seq::<Seq<Seq<char>>>::empty());
        assert(groups_concat(fs, groups).len() > 0);
        lemma_bounded_len(groups_concat(fs, groups));
    } else {
        assert(!(forall|k: int| 0 <= k < groups.len() ==> #[trigger] evidence_spec(fs, groups[k]).len() > 0)) by {
            assert(groups[0] == g0 && groups[1] == g1);
            if !e0 {
                assert(!(evidence_spec(fs, groups[0]).len() > 0));
            } else {
                assert(!(evidence_spec(fs, groups[1]).len() > 0));
            }
        }
    }
}

proof fn lemma_memory_protection_monotone(fs: Seq<FeatureView>, gs: Seq<FeatureView>)
    ensures
        still_fires(memory_protection_rule(fs), memory_protection_rule(fs + gs)),
        evidence_bounded(memory_protection_rule(fs)),
{
    lemma_any_rule(fs, gs, rule_of("memory-protection", "Change memory protections", "memory/protection", "References APIs used to make memory executable or otherwise change page protections.", Confidence::High), selector_views(seq!["import:virtualprotect", "import:ntprotectvirtualmemory", "import:=mprotect"]));
}

/// The rules' outcomes, in the order the matches are collected.
pub open spec fn rule_outcomes(fs: Seq<FeatureView>) -> Seq<Option<CapabilityMatchView>> {
    seq![anti_analysis_rule(fs), network_communication_rule(fs), credential_access_rule(fs), cryptography_rule(fs), system_discovery_rule(fs), process_execution_rule(fs), file_manipulation_rule(fs), process_injection_rule(fs), registry_modification_rule(fs), dynamic_api_resolution_rule(fs), memory_protection_rule(fs)]
}

/// The matches of the outcomes that fired, in order.
pub open spec fn fired(os: Seq<Option<CapabilityMatchView>>) -> Seq<CapabilityMatchView>
    decreases os.len(),
{
    if os.len() == 0 {
        Seq::empty()
    } else {
        add_outcome(fired(os.drop_last()), os.last())
    }
}

proof fn lemma_fired_rules(fs: Seq<FeatureView>)
    ensures
        capabilities_spec(fs) == fired(rule_outcomes(fs)),
{
    let os = rule_outcomes(fs);
    reveal_with_fuel(fired, 12);
    assert(os.subrange(0, 11).drop_last() =~= os.subrange(0, 10));
    assert(os.subrange(0, 10).drop_last() =~= os.subrange(0, 9));
    assert(os.subrange(0, 9).drop_last() =~= os.subrange(0, 8));
    assert(os.subrange(0, 8).drop_last() =~= os.subrange(0, 7));
    assert(os.subrange(0, 7).drop_last() =~= os.subrange(0, 6));
    assert(os.subrange(0, 6).drop_last() =~= os.subrange(0, 5));
    assert(os.subrange(0, 5).drop_last() =~= os.subrange(0, 4));
    assert(os.subrange(0, 4).drop_last() =~= os.subrange(0, 3));
    assert(os.subrange(0, 3).drop_last() =~= os.subrange(0, 2));
    assert(os.subrange(0, 2).drop_last() =~= os.subrange(0, 1));
    assert(os.subrange(0, 1).drop_last() =~= os.subrange(0, 0));
    assert(os.subrange(0, 11) =~= os);
}

proof fn lemma_fired_grows(os1: Seq<Option<CapabilityMatchView>>, os2: Seq<Option<CapabilityMatchView>>)
    requires
        os1.len() == os2.len(),
        forall|i: int| 0 <= i < os1.len() ==> still_fires(#[trigger] os1[i], os2[i]) && evidence_bounded(os1[i]),
    ensures
        forall|i: int| 0 <= i < fired(os1).len() ==> exists|j: int| 0 <= j < fired(os2).len()
            && (#[trigger] fired(os2)[j]).id == (#[trigger] fired(os1)[i]).id,
        forall|i: int| 0 <= i < fired(os1).len() ==> 1 <= (#[trigger] fired(os1)[i]).evidence.len() <= MAX_CAPABILITY_EVIDENCE,
    decreases os1.len(),
{
    if os1.len() > 0 {
        let d1 = os1.drop_last();
        let d2 = os2.drop_last();
        assert forall|i: int| 0 <= i < d1.len() implies still_fires(#[trigger] d1[i], d2[i]) && evidence_bounded(d1[i]) by {
            assert(d1[i] == os1[i] && d2[i] == os2[i]);
        }
        lemma_fired_grows(d1, d2);
        let a1 = fired(d1);
        let a2 = fired(d2);
        let o1 = os1.last();
        let o2 = os2.last();
        assert(still_fires(os1[os1.len() - 1], os2[os1.len() - 1]) && evidence_bounded(os1[os1.len() - 1]));
        let b1 = fired(os1);
        let b2 = fired(os2);
        assert(b1 == add_outcome(a1, o1) && b2 == add_outcome(a2, o2));
        assert forall|i: int| 0 <= i < b1.len() implies exists|j: int| 0 <= j < b2.len() && (#[trigger] b2[j]).id == (#[trigger] b1[i]).id by {
            if i < a1.len() {
                assert(b1[i] == a1[i]);
                let j = choose|j: int| 0 <= j < a2.len() && (#[trigger] a2[j]).id == a1[i].id;
                assert(b2[j] == a2[j]);
            } else {
                assert(b2[a2.len() as int] == o2->0);
            }
        }
        assert forall|i: int| 0 <= i < b1.len() implies 1 <= (#[trigger] b1[i]).evidence.len() <= MAX_CAPABILITY_EVIDENCE by {
            if i < a1.len() {
                assert(b1[i] == a1[i]);
            }
        }
    }
}

/// Capability matching is monotone and bounded: adding features never
/// removes a capability (every id found for `fs` is found for `fs + gs`),
/// and every match carries between one and `MAX_CAPABILITY_EVIDENCE`
/// evidence items.
pub proof fn law_capabilities_monotone(fs: Seq<FeatureView>, gs: Seq<FeatureView>)
    ensures
        forall|i: int| 0 <= i < capabilities_spec(fs).len() ==> exists|j: int| 0 <= j < capabilities_spec(fs + gs).len()
            && (#[trigger] capabilities_spec(fs + gs)[j]).id == (#[trigger] capabilities_spec(fs)[i]).id,
        forall|i: int| 0 <= i < capabilities_spec(fs).len() ==> 1 <= (#[trigger] capabilities_spec(fs)[i]).evidence.len()
            <= MAX_CAPABILITY_EVIDENCE,
{
    let os1 = rule_outcomes(fs);
    let os2 = rule_outcomes(fs + gs);
    lemma_anti_analysis_monotone(fs, gs);
    lemma_network_communication_monotone(fs, gs);
    lemma_credential_access_monotone(fs, gs);
    lemma_cryptography_monotone(fs, gs);
    lemma_system_discovery_monotone(fs, gs);
    lemma_process_execution_monotone(fs, gs);
    lemma_file_manipulation_monotone(fs, gs);
    lemma_process_injection_monotone(fs, gs);
    lemma_registry_modification_monotone(fs, gs);
    lemma_dynamic_api_resolution_monotone(fs, gs);
    lemma_memory_protection_monotone(fs, gs);
    assert forall|i: int| 0 <= i < os1.len() implies still_fires(#[trigger] os1[i], os2[i]) && evidence_bounded(os1[i]) by {
        if i == 0 {
            assert(os1[i] == anti_analysis_rule(fs) && os2[i] == anti_analysis_rule(fs + gs));
        }
        if i == 1 {
            assert(os1[i] == network_communication_rule(fs) && os2[i] == network_communication_rule(fs + gs));
        }
        if i == 2 {
            assert(os1[i] == credential_access_rule(fs) && os2[i] == credential_access_rule(fs + gs));
        }
        if i == 3 {
            assert(os1[i] == cryptography_rule(fs) && os2[i] == cryptography_rule(fs + gs));
        }
        if i == 4 {
            assert(os1[i] == system_discovery_rule(fs) && os2[i] == system_discovery_rule(fs + gs));
        }
        if i == 5 {
            assert(os1[i] == process_execution_rule(fs) && os2[i] == process_execution_rule(fs + gs));
        }
        if i == 6 {
            assert(os1[i] == file_manipulation_rule(fs) && os2[i] == file_manipulation_rule(fs + gs));
        }
        if i == 7 {
            assert(os1[i] == process_injection_rule(fs) && os2[i] == process_injection_rule(fs + gs));
        }
        if i == 8 {
            assert(os1[i] == registry_modification_rule(fs) && os2[i] == registry_modification_rule(fs + gs));
        }
        if i == 9 {
            assert(os1[i] == dynamic_api_resolution_rule(fs) && os2[i] == dynamic_api_resolution_rule(fs + gs));
        }
        if i == 10 {
            assert(os1[i] == memory_protection_rule(fs) && os2[i] == memory_protection_rule(fs + gs));
        }
    }
    lemma_fired_grows(os1, os2);
    lemma_fired_rules(fs);
    lemma_fired_rules(fs + gs);
}


/// Every item of `a` occurs in `b`.
pub open spec fn within(a: Seq<EvidenceView>, b: Seq<EvidenceView>) -> bool {
    forall|k: int| 0 <= k < a.len() ==> b.contains(#[trigger] a[k])
}

/// The evidence the features give.
pub open spec fn feature_pool(fs: Seq<FeatureView>) -> Seq<EvidenceView> {
    fs.map_values(|f: FeatureView| to_evidence(f))
}

proof fn lemma_within_trans(a: Seq<EvidenceView>, b: Seq<EvidenceView>, c: Seq<EvidenceView>)
    requires
        within(a, b),
        within(b, c),
    ensures
        within(a, c),
{
    assert forall|k: int| 0 <= k < a.len() implies c.contains(#[trigger] a[k]) by {
        assert(b.contains(a[k]));
        let j = choose|j: int| 0 <= j < b.len() && b[j] == a[k];
        assert(c.contains(b[j]));
    }
}

proof fn lemma_matching_within(fs: Seq<FeatureView>, needles: Seq<Seq<char>>)
    ensures
        within(matching_evidence(fs, needles), feature_pool(fs)),
    decreases fs.len(),
{
    if fs.len() > 0 {
        let d = fs.drop_last();
        lemma_matching_within(d, needles);
        let pd = feature_pool(d);
        let pf = feature_pool(fs);
        assert forall|k: int| 0 <= k < pd.len() implies pf.contains(#[trigger] pd[k]) by {
            assert(pf[k] == pd[k]);
        }
        lemma_within_trans(matching_evidence(d, needles), pd, pf);
        assert(pf[fs.len() - 1] == to_evidence(fs.last()));
        let me = matching_evidence(fs, needles);
        let md = matching_evidence(d, needles);
        assert forall|k: int| 0 <= k < me.len() implies pf.contains(#[trigger] me[k]) by {
            if k < md.len() {
                assert(me[k] == md[k]);
            }
        }
    }
}

proof fn lemma_sort_within(s: Seq<EvidenceView>)
    ensures
        within(sort_evidence(s), s),
    decreases s.len(),
{
    if s.len() > 0 {
        let d = s.drop_last();
        lemma_sort_within(d);
        let sd = sort_evidence(d);
        let p = insert_point(sd, s.last());
        lemma_insert_point_bound(sd, s.last());
        let r = sort_evidence(s);
        assert(r == sd.insert(p, s.last()));
        assert forall|k: int| 0 <= k < r.len() implies s.contains(#[trigger] r[k]) by {
            if k < p {
                assert(r[k] == sd[k]);
                assert(d.contains(sd[k]));
                let j = choose|j: int| 0 <= j < d.len() && d[j] == sd[k];
                assert(s[j] == d[j]);
            } else if k == p {
                assert(s[s.len() - 1] == s.last());
            } else {
                assert(r[k] == sd[k - 1]);
                assert(d.contains(sd[k - 1]));
                let j = choose|j: int| 0 <= j < d.len() && d[j] == sd[k - 1];
                assert(s[j] == d[j]);
            }
        }
    }
}

proof fn lemma_dedup_within(s: Seq<EvidenceView>)
    ensures
        within(dedup_evidence(s), s),
    decreases s.len(),
{
    if s.len() > 0 {
        let d = s.drop_last();
        lemma_dedup_within(d);
        let kept = dedup_evidence(d);
        let r = dedup_evidence(s);
        assert forall|k: int| 0 <= k < r.len() implies s.contains(#[trigger] r[k]) by {
            if k < kept.len() {
                assert(r[k] == kept[k]);
                assert(d.contains(kept[k]));
                let j = choose|j: int| 0 <= j < d.len() && d[j] == kept[k];
                assert(s[j] == d[j]);
            } else {
                assert(s[s.len() - 1] == s.last());
            }
        }
    }
}

proof fn lemma_bounded_within(s: Seq<EvidenceView>)
    ensures
        within(bounded_spec(s), s),
{
    lemma_sort_within(s);
    lemma_dedup_within(sort_evidence(s));
    lemma_within_trans(dedup_evidence(sort_evidence(s)), sort_evidence(s), s);
    let d = dedup_evidence(sort_evidence(s));
    if d.len() > MAX_CAPABILITY_EVIDENCE {
        let b = d.subrange(0, MAX_CAPABILITY_EVIDENCE as int);
        assert forall|k: int| 0 <= k < b.len() implies d.contains(#[trigger] b[k]) by {
            assert(b[k] == d[k]);
        }
        lemma_within_trans(b, d, s);
    }
}

proof fn lemma_evidence_within(fs: Seq<FeatureView>, needles: Seq<Seq<char>>)
    ensures
        within(evidence_spec(fs, needles), feature_pool(fs)),
{
    lemma_bounded_within(matching_evidence(fs, needles));
    lemma_matching_within(fs, needles);
    lemma_within_trans(evidence_spec(fs, needles), matching_evidence(fs, needles), feature_pool(fs));
}

proof fn lemma_groups_within(fs: Seq<FeatureView>, groups: Seq<Seq<Seq<char>>>)
    ensures
        within(bounded_spec(groups_concat(fs, groups)), feature_pool(fs)),
{
    let pool = feature_pool(fs);
    lemma_groups_concat_within(fs, groups);
    lemma_bounded_within(groups_concat(fs, groups));
    lemma_within_trans(bounded_spec(groups_concat(fs, groups)), groups_concat(fs, groups), pool);
}

proof fn lemma_groups_concat_within(fs: Seq<FeatureView>, groups: Seq<Seq<Seq<char>>>)
    ensures
        within(groups_concat(fs, groups), feature_pool(fs)),
    decreases groups.len(),
{
    if groups.len() > 0 {
        lemma_groups_concat_within(fs, groups.drop_last());
        lemma_evidence_within(fs, groups.last());
        let a = groups_concat(fs, groups.drop_last());
        let b = evidence_spec(fs, groups.last());
        let c = groups_concat(fs, groups);
        assert(c == a + b);
        assert forall|k: int| 0 <= k < c.len() implies feature_pool(fs).contains(#[trigger] c[k]) by {
            if k < a.len() {
                assert(c[k] == a[k]);
            } else {
                assert(c[k] == b[k - a.len()]);
            }
        }
    }
}

/// A rule's match cites only evidence the features give.
pub open spec fn cites_features(o: Option<CapabilityMatchView>, fs: Seq<FeatureView>) -> bool {
    o matches Some(m) ==> within(m.evidence, feature_pool(fs))
}

proof fn lemma_rules_cite(fs: Seq<FeatureView>)
    ensures
        forall|i: int| 0 <= i < rule_outcomes(fs).len() ==> cites_features(#[trigger] rule_outcomes(fs)[i], fs),
{
    let os = rule_outcomes(fs);
    lemma_evidence_within(fs, selector_views(seq!["import:isdebuggerpresent", "import:checkremotedebuggerpresent", "import:ntqueryinformationprocess", "import:queryperformancecounter", "instruction:=rdtsc", "instruction:=rdtscp", "instruction:=cpuid"]));
    lemma_evidence_within(fs, selector_views(seq!["import:wininet", "import:winhttp", "import:internetopen", "import:httpopenrequest", "import:wsastartup", "import:=socket", "import:=connect", "import:urldownloadtofile", "string:http://", "string:https://"]));
    lemma_evidence_within(fs, selector_views(seq!["import:credread", "import:cryptunprotectdata", "import:lsaretrieveprivatedata", "string:sam\\", "string:security\\policy\\secrets"]));
    lemma_evidence_within(fs, selector_views(seq!["import:bcrypt", "import:cryptencrypt", "import:cryptdecrypt", "import:crypthashdata", "import:evp_encrypt", "import:evp_decrypt", "import:sha256", "import:aes_"]));
    lemma_evidence_within(fs, selector_views(seq!["import:getcomputername", "import:getusername", "import:enumprocesses", "import:createtoolhelp32snapshot", "import:process32first", "import:process32next", "import:=uname", "import:gethostname"]));
    lemma_evidence_within(fs, selector_views(seq!["import:winexec", "import:createprocess", "import:shellexecute", "import:=system", "import:=popen", "string:powershell", "string:cmd.exe", "string:/bin/sh"]));
    lemma_evidence_within(fs, selector_views(seq!["import:createfile", "import:writefile", "import:deletefile", "import:movefile", "import:copyfile", "import:=fopen", "import:=fwrite", "import:=unlink"]));
    lemma_groups_within(fs, seq![selector_views(seq!["import:openprocess"]), selector_views(seq!["import:virtualallocex", "import:ntallocatevirtualmemory"]), selector_views(seq!["import:writeprocessmemory", "import:ntwritevirtualmemory"]), selector_views(seq!["import:createremotethread", "import:ntcreatethreadex", "import:queueuserapc"])]);
    lemma_evidence_within(fs, selector_views(seq!["import:regsetvalue", "import:regcreatekey", "import:ntsetvaluekey", "string:hkey_", "string:hkcu\\", "string:hklm\\"]));
    lemma_groups_within(fs, seq![selector_views(seq!["import:loadlibrary", "import:ldrloaddll"]), selector_views(seq!["import:getprocaddress", "import:ldrgetprocedureaddress"])]);
    lemma_evidence_within(fs, selector_views(seq!["import:virtualprotect", "import:ntprotectvirtualmemory", "import:=mprotect"]));
    assert forall|i: int| 0 <= i < os.len() implies cites_features(#[trigger] os[i], fs) by {
        if i == 0 {
            assert(os[i] == anti_analysis_rule(fs));
        }
        if i == 1 {
            assert(os[i] == network_communication_rule(fs));
        }
        if i == 2 {
            assert(os[i] == credential_access_rule(fs));
        }
        if i == 3 {
            assert(os[i] == cryptography_rule(fs));
        }
        if i == 4 {
            assert(os[i] == system_discovery_rule(fs));
        }
        if i == 5 {
            assert(os[i] == process_execution_rule(fs));
        }
        if i == 6 {
            assert(os[i] == file_manipulation_rule(fs));
        }
        if i == 7 {
            assert(os[i] == process_injection_rule(fs));
        }
        if i == 8 {
            assert(os[i] == registry_modification_rule(fs));
        }
        if i == 9 {
            assert(os[i] == dynamic_api_resolution_rule(fs));
        }
        if i == 10 {
            assert(os[i] == memory_protection_rule(fs));
        }
    }
}

proof fn lemma_fired_cites(os: Seq<Option<CapabilityMatchView>>, fs: Seq<FeatureView>)
    requires
        forall|i: int| 0 <= i < os.len() ==> cites_features(#[trigger] os[i], fs),
    ensures
        forall|i: int| 0 <= i < fired(os).len() ==> within((#[trigger] fired(os)[i]).evidence, feature_pool(fs)),
    decreases os.len(),
{
    if os.len() > 0 {
        let d = os.drop_last();
        assert forall|i: int| 0 <= i < d.len() implies cites_features(#[trigger] d[i], fs) by {
            assert(d[i] == os[i]);
        }
        lemma_fired_cites(d, fs);
        assert(cites_features(os[os.len() - 1], fs));
        let a = fired(d);
        let b = fired(os);
        assert(b == add_outcome(a, os.last()));
        assert forall|i: int| 0 <= i < b.len() implies within((#[trigger] b[i]).evidence, feature_pool(fs)) by {
            if i < a.len() {
                assert(b[i] == a[i]);
            }
        }
    }
}

/// Every evidence item of every capability match is the evidence of one
/// of the input features.
pub proof fn law_capability_evidence_from_features(fs: Seq<FeatureView>)
    ensures
        forall|i: int, k: int| 0 <= i < capabilities_spec(fs).len() && 0 <= k < capabilities_spec(fs)[i].evidence.len()
            ==> feature_pool(fs).contains(#[trigger] capabilities_spec(fs)[i].evidence[k]),
{
    lemma_rules_cite(fs);
    lemma_fired_cites(rule_outcomes(fs), fs);
    lemma_fired_rules(fs);
    assert forall|i: int, k: int| 0 <= i < capabilities_spec(fs).len() && 0 <= k < capabilities_spec(fs)[i].evidence.len()
        implies feature_pool(fs).contains(#[trigger] capabilities_spec(fs)[i].evidence[k]) by {
        assert(within(fired(rule_outcomes(fs))[i].evidence, feature_pool(fs)));
    }
}




proof fn lemma_seq_less_trans(a: Seq<char>, b: Seq<char>, c: Seq<char>)
    requires
        seq_less(a, b),
        seq_less(b, c),
    ensures
        seq_less(a, c),
    decreases a.len(),
{
    if a.len() > 0 && a[0] == b[0] && b[0] == c[0] {
        lemma_seq_less_trans(a.subrange(1, a.len() as int), b.subrange(1, b.len() as int), c.subrange(1, c.len() as int));
    }
}

/// The rules' namespaces, in the order the rules are evaluated.
pub open spec fn rule_namespaces() -> Seq<Seq<char>> {
    seq!["anti-analysis/environment"@, "communication/network"@, "credential-access"@, "data-manipulation/cryptography"@, "discovery/system"@, "execution/process"@, "host-interaction/file-system"@, "host-interaction/process-injection"@, "host-interaction/registry"@, "load-code/resolve-api"@, "memory/protection"@]
}

proof fn lemma_namespaces_ordered()
    ensures
        forall|a: int, b: int| 0 <= a < b < 11 ==> seq_less(#[trigger] rule_namespaces()[a], #[trigger] rule_namespaces()[b]),
{
    reveal_strlit("anti-analysis/environment");
    reveal_strlit("communication/network");
    reveal_strlit("credential-access");
    reveal_strlit("data-manipulation/cryptography");
    reveal_strlit("discovery/system");
    reveal_strlit("execution/process");
    reveal_strlit("host-interaction/file-system");
    reveal_strlit("host-interaction/process-injection");
    reveal_strlit("host-interaction/registry");
    reveal_strlit("load-code/resolve-api");
    reveal_strlit("memory/protection");
    reveal_with_fuel(seq_less, 20);
    let n = rule_namespaces();
    assert(seq_less(n[0], n[1]));
    assert(seq_less(n[1], n[2]));
    assert(seq_less(n[2], n[3]));
    assert(seq_less(n[3], n[4]));
    assert(seq_less(n[4], n[5]));
    assert(seq_less(n[5], n[6]));
    assert(seq_less(n[6], n[7]));
    assert(seq_less(n[7], n[8]));
    assert(seq_less(n[8], n[9]));
    assert(seq_less(n[9], n[10]));
    assert forall|a: int, b: int| 0 <= a < b < 11 implies seq_less(#[trigger] n[a], #[trigger] n[b]) by {
        lemma_chain_less(n, a, b);
    }
}

proof fn lemma_chain_less(n: Seq<Seq<char>>, a: int, b: int)
    requires
        0 <= a < b < n.len(),
        forall|k: int| 0 <= k < n.len() - 1 ==> seq_less(#[trigger] n[k], n[k + 1]),
    ensures
        seq_less(n[a], n[b]),
    decreases b - a,
{
    if b > a + 1 {
        lemma_chain_less(n, a, b - 1);
        assert(seq_less(n[b - 1], n[b]));
        lemma_seq_less_trans(n[a], n[b - 1], n[b]);
    }
}

proof fn lemma_fired_origin(os: Seq<Option<CapabilityMatchView>>)
    ensures
        forall|i: int| 0 <= i < fired(os).len() ==> exists|a: int| 0 <= a < os.len() && os[a] == Some(#[trigger] fired(os)[i]),
    decreases os.len(),
{
    if os.len() > 0 {
        let d = os.drop_last();
        lemma_fired_origin(d);
        let f = fired(os);
        let fd = fired(d);
        assert forall|i: int| 0 <= i < f.len() implies exists|a: int| 0 <= a < os.len() && os[a] == Some(#[trigger] f[i]) by {
            if i < fd.len() {
                assert(f[i] == fd[i]);
                let a = choose|a: int| 0 <= a < d.len() && d[a] == Some(fd[i]);
                assert(os[a] == d[a]);
            } else {
                assert(os[os.len() - 1] == Some(f[i]));
            }
        }
    }
}

/// Outcomes whose matches carry namespaces that rise with their position.
pub open spec fn namespaces_rise(os: Seq<Option<CapabilityMatchView>>) -> bool {
    forall|a: int, b: int| 0 <= a < b < os.len() && os[a] is Some && os[b] is Some ==> seq_less(
        (#[trigger] os[a])->0.namespace,
        (#[trigger] os[b])->0.namespace,
    )
}

proof fn lemma_fired_sorted(os: Seq<Option<CapabilityMatchView>>)
    requires
        namespaces_rise(os),
    ensures
        forall|i: int, j: int| 0 <= i < j < fired(os).len() ==> seq_less((#[trigger] fired(os)[i]).namespace, (#[trigger] fired(os)[j]).namespace),
    decreases os.len(),
{
    if os.len() > 0 {
        let d = os.drop_last();
        assert(namespaces_rise(d)) by {
            assert forall|a: int, b: int| 0 <= a < b < d.len() && d[a] is Some && d[b] is Some implies seq_less(
                (#[trigger] d[a])->0.namespace,
                (#[trigger] d[b])->0.namespace,
            ) by {
                assert(d[a] == os[a] && d[b] == os[b]);
            }
        }
        lemma_fired_sorted(d);
        lemma_fired_origin(d);
        let f = fired(os);
        let fd = fired(d);
        assert forall|i: int, j: int| 0 <= i < j < f.len() implies seq_less((#[trigger] f[i]).namespace, (#[trigger] f[j]).namespace) by {
            if j < fd.len() {
                assert(f[i] == fd[i] && f[j] == fd[j]);
            } else {
                assert(f[i] == fd[i]);
                let a = choose|a: int| 0 <= a < d.len() && d[a] == Some(fd[i]);
                assert(os[a] == d[a]);
                assert(os[os.len() - 1] == Some(f[j]));
            }
        }
    }
}

/// Capability matches come out strictly ordered by namespace (each rule has
/// its own namespace, so also by namespace and id).
pub proof fn law_capabilities_sorted(fs: Seq<FeatureView>)
    ensures
        forall|i: int, j: int| 0 <= i < j < capabilities_spec(fs).len() ==> seq_less(
            (#[trigger] capabilities_spec(fs)[i]).namespace,
            (#[trigger] capabilities_spec(fs)[j]).namespace,
        ),
{
    let os = rule_outcomes(fs);
    let n = rule_namespaces();
    lemma_namespaces_ordered();
    assert forall|k: int| 0 <= k < 11 && (#[trigger] os[k]) is Some implies os[k]->0.namespace == n[k] by {
        if k == 0 {
            assert(os[k] == anti_analysis_rule(fs));
        }
        if k == 1 {
            assert(os[k] == network_communication_rule(fs));
        }
        if k == 2 {
            assert(os[k] == credential_access_rule(fs));
        }
        if k == 3 {
            assert(os[k] == cryptography_rule(fs));
        }
        if k == 4 {
            assert(os[k] == system_discovery_rule(fs));
        }
        if k == 5 {
            assert(os[k] == process_execution_rule(fs));
        }
        if k == 6 {
            assert(os[k] == file_manipulation_rule(fs));
        }
        if k == 7 {
            assert(os[k] == process_injection_rule(fs));
        }
        if k == 8 {
            assert(os[k] == registry_modification_rule(fs));
        }
        if k == 9 {
            assert(os[k] == dynamic_api_resolution_rule(fs));
        }
        if k == 10 {
            assert(os[k] == memory_protection_rule(fs));
        }
    }
    assert(namespaces_rise(os)) by {
        assert forall|a: int, b: int| 0 <= a < b < os.len() && os[a] is Some && os[b] is Some implies seq_less(
            (#[trigger] os[a])->0.namespace,
            (#[trigger] os[b])->0.namespace,
        ) by {
            assert(seq_less(n[a], n[b]));
        }
    }
    lemma_fired_sorted(os);
    lemma_fired_rules(fs);
}


// ----- features of a sample -----

/// The text an import is reported under: `module!name`, or the bare name.
pub open spec fn import_text(i: SymbolRecord) -> Seq<char> {
    match i.module {
        Some(m) => m@ + "!"@ + i.name@,
        None => i.name@,
    }
}

/// The feature an import contributes.
pub open spec fn import_feature(i: SymbolRecord) -> FeatureView {
    FeatureView {
        kind: FeatureKind::Import,
        normalized: lower_seq(i.name@),
        value: take_chars(import_text(i), 240),
        address: i.address,
        file_offset: None,
    }
}

/// The feature an extracted string contributes.
pub open spec fn string_feature(e: ExtractedString) -> FeatureView {
    FeatureView {
        kind: FeatureKind::String,
        normalized: lower_seq(e.value@),
        value: take_chars(e.value@, 240),
        address: None,
        file_offset: Some(e.offset),
    }
}

fn copy_feature(f: &Feature) -> (r: Feature)
    ensures
        r@ == f@,
{
    Feature {
        kind: f.kind,
        normalized: f.normalized.clone(),
        value: f.value.clone(),
        address: f.address,
        file_offset: f.file_offset,
    }
}

/// The features that capability rules see: one per import, then one per
/// extracted string, then the decoded-instruction features as given.
pub fn capability_features(
    imports: &[SymbolRecord],
    strings: &[ExtractedString],
    instructions: &[Feature],
) -> (r: Vec<Feature>)
    ensures
        feature_views(r@) == imports@.map_values(|i: SymbolRecord| import_feature(i)) + strings@.map_values(
            |e: ExtractedString| string_feature(e),
        ) + feature_views(instructions@),
{
    let mut features: Vec<Feature> = Vec::new();
    let mut i: usize = 0;
    while i < imports.len()
        invariant
            i <= imports.len(),
            feature_views(features@) == imports@.subrange(0, i as int).map_values(
                |i: SymbolRecord| import_feature(i),
            ),
        decreases imports.len() - i,
    {
        let import = &imports[i];
        let mut value = String::new();
        match &import.module {
            Some(module) => {
                push_str(&mut value, module.as_str());
                push_str(&mut value, "!");
                push_str(&mut value, import.name.as_str());
            },
            None => {
                push_str(&mut value, import.name.as_str());
            },
        }
        assert(value@ =~= import_text(*import));
        let ghost before = features@;
        features.push(
            Feature {
                kind: FeatureKind::Import,
                normalized: ascii_lowercase(import.name.as_str()),
                value: bounded_text(value.as_str(), 240),
                address: import.address,
                file_offset: None,
            },
        );
        assert(features@.last()@ == import_feature(*import));
        assert(feature_views(features@) =~= feature_views(before).push(import_feature(*import)));
        i = i + 1;
        assert(imports@.subrange(0, i as int) =~= imports@.subrange(0, i - 1).push(*import));
        assert(imports@.subrange(0, i as int).map_values(|i: SymbolRecord| import_feature(i))
            =~= imports@.subrange(0, i - 1).map_values(|i: SymbolRecord| import_feature(i)).push(
            import_feature(*import),
        ));
        assert(feature_views(features@) =~= imports@.subrange(0, i as int).map_values(
            |i: SymbolRecord| import_feature(i),
        ));
    }
    assert(imports@.subrange(0, i as int) =~= imports@);
    let ghost head = feature_views(features@);
    let mut j: usize = 0;
    while j < strings.len()
        invariant
            j <= strings.len(),
            feature_views(features@) == head + strings@.subrange(0, j as int).map_values(
                |e: ExtractedString| string_feature(e),
            ),
        decreases strings.len() - j,
    {
        let item = &strings[j];
        let ghost before = features@;
        features.push(
            Feature {
                kind: FeatureKind::String,
                normalized: ascii_lowercase(item.value.as_str()),
                value: bounded_text(item.value.as_str(), 240),
                address: None,
                file_offset: Some(item.offset),
            },
        );
        assert(features@.last()@ == string_feature(*item));
        assert(feature_views(features@) =~= feature_views(before).push(string_feature(*item)));
        j = j + 1;
        assert(strings@.subrange(0, j as int) =~= strings@.subrange(0, j - 1).push(*item));
        assert(strings@.subrange(0, j as int).map_values(|e: ExtractedString| string_feature(e))
            =~= strings@.subrange(0, j - 1).map_values(|e: ExtractedString| string_feature(e)).push(
            string_feature(*item),
        ));
        assert(feature_views(features@) =~= head + strings@.subrange(0, j as int).map_values(
            |e: ExtractedString| string_feature(e),
        ));
    }
    assert(strings@.subrange(0, j as int) =~= strings@);
    let ghost middle = feature_views(features@);
    let mut k: usize = 0;
    while k < instructions.len()
        invariant
            k <= instructions.len(),
            feature_views(features@) == middle + feature_views(instructions@.subrange(0, k as int)),
        decreases instructions.len() - k,
    {
        let ghost before = features@;
        features.push(copy_feature(&instructions[k]));
        assert(feature_views(features@) =~= feature_views(before).push(instructions@[k as int]@));
        k = k + 1;
        assert(feature_views(instructions@.subrange(0, k as int)) =~= feature_views(
            instructions@.subrange(0, k - 1),
        ).push(instructions@[k - 1]@));
        assert(instructions@.subrange(0, k as int) =~= instructions@.subrange(0, k - 1).push(
            instructions@[k - 1],
        ));
        assert(feature_views(features@) =~= middle + feature_views(instructions@.subrange(0, k as int)));
    }
    assert(instructions@.subrange(0, k as int) =~= instructions@);
    features
}

// ----- executable regions -----

/// Bytes of an executable section, where they lie in the file and the
/// address they load at.
pub struct CodeRegion<'a> {
    pub file_offset: usize,
    pub address: u64,
    pub bytes: &'a [u8],
}

/// `address` falls inside `r`.
pub open spec fn covers<'a>(r: CodeRegion<'a>, address: u64) -> bool {
    r.address <= address && address - r.address < r.bytes@.len()
}

/// The first region that covers `address`, by index, if any does.
pub open spec fn first_covering<'a>(regions: Seq<CodeRegion<'a>>, address: u64, i: int) -> bool {
    &&& 0 <= i < regions.len()
    &&& covers(regions[i], address)
    &&& forall|j: int| 0 <= j < i ==> !covers(#[trigger] regions[j], address)
}

/// The first region covering `address`, with the address's offset in it.
pub fn locate<'a>(regions: &'a [CodeRegion<'a>], address: u64) -> (r: Option<(&'a CodeRegion<'a>, usize)>)
    ensures
        match r {
            Some((region, offset)) => exists|i: int| first_covering(regions@, address, i)
                && regions@[i] == *region && offset == address - region.address,
            None => forall|j: int| 0 <= j < regions@.len() ==> !covers(#[trigger] regions@[j], address),
        },
{
    let mut i: usize = 0;
    while i < regions.len()
        invariant
            i <= regions@.len(),
            forall|j: int| 0 <= j < i ==> !covers(#[trigger] regions@[j], address),
        decreases regions.len() - i,
    {
        let region = &regions[i];
        if address >= region.address && address - region.address < region.bytes.len() as u64 {
            let offset: usize = (address - region.address) as usize;
            assert(first_covering(regions@, address, i as int));
            return Some((region, offset));
        }
        i = i + 1;
    }
    None
}

/// The file offset of `address`: that of the first region covering it plus
/// the address's offset in it, when the sum fits.
pub fn file_offset<'a>(regions: &'a [CodeRegion<'a>], address: u64) -> (r: Option<u64>)
    ensures
        match r {
            Some(v) => exists|i: int| first_covering(regions@, address, i)
                && v == regions@[i].file_offset + (address - regions@[i].address),
            None => forall|i: int| first_covering(regions@, address, i)
                ==> regions@[i].file_offset + (address - regions@[i].address) > usize::MAX,
        },
{
    match locate(regions, address) {
        Some((region, relative)) => {
            match region.file_offset.checked_add(relative) {
                Some(sum) => Some(sum as u64),
                None => {
                    proof {
                        assert forall|i: int| first_covering(regions@, address, i) implies
                            regions@[i].file_offset + (address - regions@[i].address) > usize::MAX by {
                            let k = choose|k: int| first_covering(regions@, address, k)
                                && regions@[k] == *region && relative == address - region.address;
                            if i < k {
                                assert(!covers(regions@[i], address));
                            } else if k < i {
                                assert(!covers(regions@[k], address));
                            }
                        }
                    }
                    None
                },
            }
        },
        None => None,
    }
}

// ----- decoding budget and work queue -----

/// The most control-flow edges static decoding records.
pub const MAX_EDGES: usize = 16384;

/// What static decoding has spent so far, and whether it had to stop short.
#[derive(Debug, Clone, Copy, PartialEq, Eq)]
pub struct DecodeBudget {
    pub instructions: usize,
    pub blocks: usize,
    pub edges: usize,
    pub truncated: bool,
}

/// A control-flow edge between two addresses.
#[derive(Debug, Clone, PartialEq, Eq)]
pub struct StaticControlFlowEdge {
    pub from: u64,
    pub to: u64,
    pub kind: String,
}

/// Records `edge` while the edge budget lasts; once it is spent, marks the
/// budget truncated and drops the edge.
pub fn push_edge(edges: &mut Vec<StaticControlFlowEdge>, budget: &mut DecodeBudget, edge: StaticControlFlowEdge)
    ensures
        old(budget).edges >= MAX_EDGES ==> final(edges)@ == old(edges)@ && *final(budget) == (DecodeBudget {
            truncated: true,
            ..*old(budget)
        }),
        old(budget).edges < MAX_EDGES ==> final(edges)@ == old(edges)@.push(edge) && *final(budget) == (DecodeBudget {
            edges: (old(budget).edges + 1) as usize,
            ..*old(budget)
        }),
{
    if budget.edges >= MAX_EDGES {
        budget.truncated = true;
        return;
    }
    budget.edges = budget.edges + 1;
    edges.push(edge);
}

/// Queues a block start once: not when it was already decoded, nor when it
/// is already waiting.
pub fn queue_block(
    address: u64,
    pending: &mut std::collections::VecDeque<u64>,
    pending_set: &mut std::collections::BTreeSet<u64>,
    visited: &std::collections::BTreeSet<u64>,
)
    ensures
        (visited@.contains(address) || old(pending_set)@.contains(address)) ==> final(pending)@ == old(pending)@
            && final(pending_set)@ == old(pending_set)@,
        !(visited@.contains(address) || old(pending_set)@.contains(address)) ==> final(pending)@ == old(
            pending,
        )@.push(address) && final(pending_set)@ == old(pending_set)@.insert(address),
{
    broadcast use vstd::std_specs::btree::group_btree_axioms;
    if !visited.contains(&address) && pending_set.insert(address) {
        pending.push_back(address);
    }
}

// ----- what the credential-access rule answers to -----

proof fn lemma_first_colon(k: Seq<char>, p: Seq<char>)
    requires
        forall|i: int| 0 <= i < k.len() ==> k[i] != ':',
    ensures
        first_index(k + seq![':'] + p, ':') == k.len(),
    decreases k.len(),
{
    let s = k + seq![':'] + p;
    if k.len() == 0 {
        assert(s[0] == ':');
    } else {
        let rest = k.drop_first();
        lemma_first_colon(rest, p);
        assert(s.subrange(1, s.len() as int) =~= rest + seq![':'] + p);
        assert(s[0] == k[0]);
    }
}

/// A selector written `kind:pattern` (no colon in the kind) has that kind and
/// that pattern.
proof fn lemma_selector_parts(sel: Seq<char>, k: Seq<char>, p: Seq<char>)
    requires
        sel == k + seq![':'] + p,
        forall|i: int| 0 <= i < k.len() ==> k[i] != ':',
    ensures
        selector_kind(sel) == k,
        selector_pattern(sel) == p,
{
    lemma_first_colon(k, p);
    assert(sel.subrange(0, k.len() as int) =~= k);
    assert(sel.subrange(k.len() as int + 1, sel.len() as int) =~= p);
}

/// Some feature that a selector matches gives evidence.
proof fn lemma_matching_nonempty(fs: Seq<FeatureView>, needles: Seq<Seq<char>>, i: int)
    requires
        0 <= i < fs.len(),
        any_selector(fs[i], needles),
    ensures
        matching_evidence(fs, needles).len() > 0,
    decreases fs.len(),
{
    if i < fs.len() - 1 {
        lemma_matching_nonempty(fs.drop_last(), needles, i);
        assert(fs.drop_last()[i] == fs[i]);
    }
}

/// A rule outcome that fired is among the matches.
proof fn lemma_fired_contains(os: Seq<Option<CapabilityMatchView>>, j: int)
    requires
        0 <= j < os.len(),
        os[j] is Some,
    ensures
        exists|k: int| 0 <= k < fired(os).len() && fired(os)[k] == os[j]->0,
    decreases os.len(),
{
    let d = os.drop_last();
    if j == os.len() - 1 {
        assert(fired(os)[fired(d).len() as int] == os[j]->0);
    } else {
        lemma_fired_contains(d, j);
        assert(d[j] == os[j]);
        let k = choose|k: int| 0 <= k < fired(d).len() && fired(d)[k] == d[j]->0;
        assert(fired(os)[k] == fired(d)[k]);
    }
}

/// The credential-access capability is reported whenever some feature is
/// an import whose normalized name contains `credread`,
/// `cryptunprotectdata` or `lsaretrieveprivatedata`, or a string that
/// contains `sam\` or `security\policy\secrets`; the match carries evidence.
pub proof fn law_credential_access_fires(fs: Seq<FeatureView>, i: int)
    requires
        0 <= i < fs.len(),
        ({
            let f = fs[i];
            let n = f.normalized;
            ||| f.kind == FeatureKind::Import && (seq_contains(n, "credread"@) || seq_contains(n, "cryptunprotectdata"@)
                || seq_contains(n, "lsaretrieveprivatedata"@))
            ||| f.kind == FeatureKind::String && (seq_contains(n, "sam\\"@) || seq_contains(n, "security\\policy\\secrets"@))
        }),
    ensures
        exists|k: int|
            0 <= k < capabilities_spec(fs).len() && (#[trigger] capabilities_spec(fs)[k]).id == "credential-access"@
                && capabilities_spec(fs)[k].namespace == "credential-access"@ && capabilities_spec(fs)[k].evidence.len() > 0,
{
    let f = fs[i];
    let needles = selector_views(seq!["import:credread", "import:cryptunprotectdata", "import:lsaretrieveprivatedata", "string:sam\\", "string:security\\policy\\secrets"]);
    reveal_strlit("import:credread");
    reveal_strlit("import:cryptunprotectdata");
    reveal_strlit("import:lsaretrieveprivatedata");
    reveal_strlit("string:sam\\");
    reveal_strlit("string:security\\policy\\secrets");
    reveal_strlit("import");
    reveal_strlit("string");
    reveal_strlit("credread");
    reveal_strlit("cryptunprotectdata");
    reveal_strlit("lsaretrieveprivatedata");
    reveal_strlit("sam\\");
    reveal_strlit("security\\policy\\secrets");
    assert(needles[0] =~= "import"@ + seq![':'] + "credread"@);
    assert(needles[1] =~= "import"@ + seq![':'] + "cryptunprotectdata"@);
    assert(needles[2] =~= "import"@ + seq![':'] + "lsaretrieveprivatedata"@);
    assert(needles[3] =~= "string"@ + seq![':'] + "sam\\"@);
    assert(needles[4] =~= "string"@ + seq![':'] + "security\\policy\\secrets"@);
    lemma_selector_parts(needles[0], "import"@, "credread"@);
    lemma_selector_parts(needles[1], "import"@, "cryptunprotectdata"@);
    lemma_selector_parts(needles[2], "import"@, "lsaretrieveprivatedata"@);
    lemma_selector_parts(needles[3], "string"@, "sam\\"@);
    lemma_selector_parts(needles[4], "string"@, "security\\policy\\secrets"@);
    let n = f.normalized;
    if f.kind == FeatureKind::Import && seq_contains(n, "credread"@) {
        assert(selector_matches(f, needles[0]));
    } else if f.kind == FeatureKind::Import && seq_contains(n, "cryptunprotectdata"@) {
        assert(selector_matches(f, needles[1]));
    } else if f.kind == FeatureKind::Import && seq_contains(n, "lsaretrieveprivatedata"@) {
        assert(selector_matches(f, needles[2]));
    } else if f.kind == FeatureKind::String && seq_contains(n, "sam\\"@) {
        assert(selector_matches(f, needles[3]));
    } else {
        assert(selector_matches(f, needles[4]));
    }
    assert(any_selector(f, needles));
    lemma_matching_nonempty(fs, needles, i);
    lemma_bounded_len(matching_evidence(fs, needles));
    let o = credential_access_rule(fs);
    assert(o is Some);
    lemma_fired_rules(fs);
    let os = rule_outcomes(fs);
    assert(os[2] == o);
    lemma_fired_contains(os, 2);
    let k = choose|k: int| 0 <= k < fired(os).len() && fired(os)[k] == os[2]->0;
    assert(capabilities_spec(fs)[k] == o->0);
}

/// A rule outcome that fired is among the reported capabilities.
proof fn lemma_outcome_reported(fs: Seq<FeatureView>, r: int)
    requires
        0 <= r < 11,
        rule_outcomes(fs)[r] is Some,
    ensures
        exists|k: int| 0 <= k < capabilities_spec(fs).len() && capabilities_spec(fs)[k] == rule_outcomes(fs)[r]->0,
{
    lemma_fired_rules(fs);
    lemma_fired_contains(rule_outcomes(fs), r);
}

/// The "anti-analysis" capability (namespace "anti-analysis/environment") is reported, with
/// evidence, whenever some feature satisfies one of its selectors:
/// `import:isdebuggerpresent`, `import:checkremotedebuggerpresent`, `import:ntqueryinformationprocess`, `import:queryperformancecounter`, `instruction:=rdtsc`, `instruction:=rdtscp`, `instruction:=cpuid`.
pub proof fn law_anti_analysis_fires(fs: Seq<FeatureView>, i: int, sel: Seq<char>)
    requires
        0 <= i < fs.len(),
        selector_matches(fs[i], sel),
        sel == "import:isdebuggerpresent"@ || sel == "import:checkremotedebuggerpresent"@ || sel == "import:ntqueryinformationprocess"@ || sel == "import:queryperformancecounter"@ || sel == "instruction:=rdtsc"@ || sel == "instruction:=rdtscp"@ || sel == "instruction:=cpuid"@,
    ensures
        exists|k: int|
            0 <= k < capabilities_spec(fs).len() && (#[trigger] capabilities_spec(fs)[k]).id == "anti-analysis"@
                && capabilities_spec(fs)[k].namespace == "anti-analysis/environment"@ && capabilities_spec(fs)[k].evidence.len() > 0,
{
    let needles = selector_views(seq!["import:isdebuggerpresent", "import:checkremotedebuggerpresent", "import:ntqueryinformationprocess", "import:queryperformancecounter", "instruction:=rdtsc", "instruction:=rdtscp", "instruction:=cpuid"]);
    let j: int = if sel == "import:isdebuggerpresent"@ {
        assert(needles[0] == sel);
        0int
    } else if sel == "import:checkremotedebuggerpresent"@ {
        assert(needles[1] == sel);
        1int
    } else if sel == "import:ntqueryinformationprocess"@ {
        assert(needles[2] == sel);
        2int
    } else if sel == "import:queryperformancecounter"@ {
        assert(needles[3] == sel);
        3int
    } else if sel == "instruction:=rdtsc"@ {
        assert(needles[4] == sel);
        4int
    } else if sel == "instruction:=rdtscp"@ {
        assert(needles[5] == sel);
        5int
    } else {
        assert(needles[6] == sel);
        6int
    };
    assert(any_selector(fs[i], needles));
    lemma_matching_nonempty(fs, needles, i);
    lemma_bounded_len(matching_evidence(fs, needles));
    assert(anti_analysis_rule(fs) is Some);
    assert(rule_outcomes(fs)[0] == anti_analysis_rule(fs));
    lemma_outcome_reported(fs, 0);
}

/// The "network-communication" capability (namespace "communication/network") is reported, with
/// evidence, whenever some feature satisfies one of its selectors:
/// `import:wininet`, `import:winhttp`, `import:internetopen`, `import:httpopenrequest`, `import:wsastartup`, `import:=socket`, `import:=connect`, `import:urldownloadtofile`, `string:http://`, `string:https://`.
pub proof fn law_network_communication_fires(fs: Seq<FeatureView>, i: int, sel: Seq<char>)
    requires
        0 <= i < fs.len(),
        selector_matches(fs[i], sel),
        sel == "import:wininet"@ || sel == "import:winhttp"@ || sel == "import:internetopen"@ || sel == "import:httpopenrequest"@ || sel == "import:wsastartup"@ || sel == "import:=socket"@ || sel == "import:=connect"@ || sel == "import:urldownloadtofile"@ || sel == "string:http://"@ || sel == "string:https://"@,
    ensures
        exists|k: int|
            0 <= k < capabilities_spec(fs).len() && (#[trigger] capabilities_spec(fs)[k]).id == "network-communication"@
                && capabilities_spec(fs)[k].namespace == "communication/network"@ && capabilities_spec(fs)[k].evidence.len() > 0,
{
    let needles = selector_views(seq!["import:wininet", "import:winhttp", "import:internetopen", "import:httpopenrequest", "import:wsastartup", "import:=socket", "import:=connect", "import:urldownloadtofile", "string:http://", "string:https://"]);
    let j: int = if sel == "import:wininet"@ {
        assert(needles[0] == sel);
        0int
    } else if sel == "import:winhttp"@ {
        assert(needles[1] == sel);
        1int
    } else if sel == "import:internetopen"@ {
        assert(needles[2] == sel);
        2int
    } else if sel == "import:httpopenrequest"@ {
        assert(needles[3] == sel);
        3int
    } else if sel == "import:wsastartup"@ {
        assert(needles[4] == sel);
        4int
    } else if sel == "import:=socket"@ {
        assert(needles[5] == sel);
        5int
    } else if sel == "import:=connect"@ {
        assert(needles[6] == sel);
        6int
    } else if sel == "import:urldownloadtofile"@ {
        assert(needles[7] == sel);
        7int
    } else if sel == "string:http://"@ {
        assert(needles[8] == sel);
        8int
    } else {
        assert(needles[9] == sel);
        9int
    };
    assert(any_selector(fs[i], needles));
    lemma_matching_nonempty(fs, needles, i);
    lemma_bounded_len(matching_evidence(fs, needles));
    assert(network_communication_rule(fs) is Some);
    assert(rule_outcomes(fs)[1] == network_communication_rule(fs));
    lemma_outcome_reported(fs, 1);
}

/// The "cryptography" capability (namespace "data-manipulation/cryptography") is reported, with
/// evidence, whenever some feature satisfies one of its selectors:
/// `import:bcrypt`, `import:cryptencrypt`, `import:cryptdecrypt`, `import:crypthashdata`, `import:evp_encrypt`, `import:evp_decrypt`, `import:sha256`, `import:aes_`.
pub proof fn law_cryptography_fires(fs: Seq<FeatureView>, i: int, sel: Seq<char>)
    requires
        0 <= i < fs.len(),
        selector_matches(fs[i], sel),
        sel == "import:bcrypt"@ || sel == "import:cryptencrypt"@ || sel == "import:cryptdecrypt"@ || sel == "import:crypthashdata"@ || sel == "import:evp_encrypt"@ || sel == "import:evp_decrypt"@ || sel == "import:sha256"@ || sel == "import:aes_"@,
    ensures
        exists|k: int|
            0 <= k < capabilities_spec(fs).len() && (#[trigger] capabilities_spec(fs)[k]).id == "cryptography"@
                && capabilities_spec(fs)[k].namespace == "data-manipulation/cryptography"@ && capabilities_spec(fs)[k].evidence.len() > 0,
{
    let needles = selector_views(seq!["import:bcrypt", "import:cryptencrypt", "import:cryptdecrypt", "import:crypthashdata", "import:evp_encrypt", "import:evp_decrypt", "import:sha256", "import:aes_"]);
    let j: int = if sel == "import:bcrypt"@ {
        assert(needles[0] == sel);
        0int
    } else if sel == "import:cryptencrypt"@ {
        assert(needles[1] == sel);
        1int
    } else if sel == "import:cryptdecrypt"@ {
        assert(needles[2] == sel);
        2int
    } else if sel == "import:crypthashdata"@ {
        assert(needles[3] == sel);
        3int
    } else if sel == "import:evp_encrypt"@ {
        assert(needles[4] == sel);
        4int
    } else if sel == "import:evp_decrypt"@ {
        assert(needles[5] == sel);
        5int
    } else if sel == "import:sha256"@ {
        assert(needles[6] == sel);
        6int
    } else {
        assert(needles[7] == sel);
        7int
    };
    assert(any_selector(fs[i], needles));
    lemma_matching_nonempty(fs, needles, i);
    lemma_bounded_len(matching_evidence(fs, needles));
    assert(cryptography_rule(fs) is Some);
    assert(rule_outcomes(fs)[3] == cryptography_rule(fs));
    lemma_outcome_reported(fs, 3);
}

/// The "system-discovery" capability (namespace "discovery/system") is reported, with
/// evidence, whenever some feature satisfies one of its selectors:
/// `import:getcomputername`, `import:getusername`, `import:enumprocesses`, `import:createtoolhelp32snapshot`, `import:process32first`, `import:process32next`, `import:=uname`, `import:gethostname`.
pub proof fn law_system_discovery_fires(fs: Seq<FeatureView>, i: int, sel: Seq<char>)
    requires
        0 <= i < fs.len(),
        selector_matches(fs[i], sel),
        sel == "import:getcomputername"@ || sel == "import:getusername"@ || sel == "import:enumprocesses"@ || sel == "import:createtoolhelp32snapshot"@ || sel == "import:process32first"@ || sel == "import:process32next"@ || sel == "import:=uname"@ || sel == "import:gethostname"@,
    ensures
        exists|k: int|
            0 <= k < capabilities_spec(fs).len() && (#[trigger] capabilities_spec(fs)[k]).id == "system-discovery"@
                && capabilities_spec(fs)[k].namespace == "discovery/system"@ && capabilities_spec(fs)[k].evidence.len() > 0,
{
    let needles = selector_views(seq!["import:getcomputername", "import:getusername", "import:enumprocesses", "import:createtoolhelp32snapshot", "import:process32first", "import:process32next", "import:=uname", "import:gethostname"]);
    let j: int = if sel == "import:getcomputername"@ {
        assert(needles[0] == sel);
        0int
    } else if sel == "import:getusername"@ {
        assert(needles[1] == sel);
        1int
    } else if sel == "import:enumprocesses"@ {
        assert(needles[2] == sel);
        2int
    } else if sel == "import:createtoolhelp32snapshot"@ {
        assert(needles[3] == sel);
        3int
    } else if sel == "import:process32first"@ {
        assert(needles[4] == sel);
        4int
    } else if sel == "import:process32next"@ {
        assert(needles[5] == sel);
        5int
    } else if sel == "import:=uname"@ {
        assert(needles[6] == sel);
        6int
    } else {
        assert(needles[7] == sel);
        7int
    };
    assert(any_selector(fs[i], needles));
    lemma_matching_nonempty(fs, needles, i);
    lemma_bounded_len(matching_evidence(fs, needles));
    assert(system_discovery_rule(fs) is Some);
    assert(rule_outcomes(fs)[4] == system_discovery_rule(fs));
    lemma_outcome_reported(fs, 4);
}

/// The "process-execution" capability (namespace "execution/process") is reported, with
/// evidence, whenever some feature satisfies one of its selectors:
/// `import:winexec`, `import:createprocess`, `import:shellexecute`, `import:=system`, `import:=popen`, `string:powershell`, `string:cmd.exe`, `string:/bin/sh`.
pub proof fn law_process_execution_fires(fs: Seq<FeatureView>, i: int, sel: Seq<char>)
    requires
        0 <= i < fs.len(),
        selector_matches(fs[i], sel),
        sel == "import:winexec"@ || sel == "import:createprocess"@ || sel == "import:shellexecute"@ || sel == "import:=system"@ || sel == "import:=popen"@ || sel == "string:powershell"@ || sel == "string:cmd.exe"@ || sel == "string:/bin/sh"@,
    ensures
        exists|k: int|
            0 <= k < capabilities_spec(fs).len() && (#[trigger] capabilities_spec(fs)[k]).id == "process-execution"@
                && capabilities_spec(fs)[k].namespace == "execution/process"@ && capabilities_spec(fs)[k].evidence.len() > 0,
{
    let needles = selector_views(seq!["import:winexec", "import:createprocess", "import:shellexecute", "import:=system", "import:=popen", "string:powershell", "string:cmd.exe", "string:/bin/sh"]);
    let j: int = if sel == "import:winexec"@ {
        assert(needles[0] == sel);
        0int
    } else if sel == "import:createprocess"@ {
        assert(needles[1] == sel);
        1int
    } else if sel == "import:shellexecute"@ {
        assert(needles[2] == sel);
        2int
    } else if sel == "import:=system"@ {
        assert(needles[3] == sel);
        3int
    } else if sel == "import:=popen"@ {
        assert(needles[4] == sel);
        4int
    } else if sel == "string:powershell"@ {
        assert(needles[5] == sel);
        5int
    } else if sel == "string:cmd.exe"@ {
        assert(needles[6] == sel);
        6int
    } else {
        assert(needles[7] == sel);
        7int
    };
    assert(any_selector(fs[i], needles));
    lemma_matching_nonempty(fs, needles, i);
    lemma_bounded_len(matching_evidence(fs, needles));
    assert(process_execution_rule(fs) is Some);
    assert(rule_outcomes(fs)[5] == process_execution_rule(fs));
    lemma_outcome_reported(fs, 5);
}

/// The "file-manipulation" capability (namespace "host-interaction/file-system") is reported, with
/// evidence, whenever some feature satisfies one of its selectors:
/// `import:createfile`, `import:writefile`, `import:deletefile`, `import:movefile`, `import:copyfile`, `import:=fopen`, `import:=fwrite`, `import:=unlink`.
pub proof fn law_file_manipulation_fires(fs: Seq<FeatureView>, i: int, sel: Seq<char>)
    requires
        0 <= i < fs.len(),
        selector_matches(fs[i], sel),
        sel == "import:createfile"@ || sel == "import:writefile"@ || sel == "import:deletefile"@ || sel == "import:movefile"@ || sel == "import:copyfile"@ || sel == "import:=fopen"@ || sel == "import:=fwrite"@ || sel == "import:=unlink"@,
    ensures
        exists|k: int|
            0 <= k < capabilities_spec(fs).len() && (#[trigger] capabilities_spec(fs)[k]).id == "file-manipulation"@
                && capabilities_spec(fs)[k].namespace == "host-interaction/file-system"@ && capabilities_spec(fs)[k].evidence.len() > 0,
{
    let needles = selector_views(seq!["import:createfile", "import:writefile", "import:deletefile", "import:movefile", "import:copyfile", "import:=fopen", "import:=fwrite", "import:=unlink"]);
    let j: int = if sel == "import:createfile"@ {
        assert(needles[0] == sel);
        0int
    } else if sel == "import:writefile"@ {
        assert(needles[1] == sel);
        1int
    } else if sel == "import:deletefile"@ {
        assert(needles[2] == sel);
        2int
    } else if sel == "import:movefile"@ {
        assert(needles[3] == sel);
        3int
    } else if sel == "import:copyfile"@ {
        assert(needles[4] == sel);
        4int
    } else if sel == "import:=fopen"@ {
        assert(needles[5] == sel);
        5int
    } else if sel == "import:=fwrite"@ {
        assert(needles[6] == sel);
        6int
    } else {
        assert(needles[7] == sel);
        7int
    };
    assert(any_selector(fs[i], needles));
    lemma_matching_nonempty(fs, needles, i);
    lemma_bounded_len(matching_evidence(fs, needles));
    assert(file_manipulation_rule(fs) is Some);
    assert(rule_outcomes(fs)[6] == file_manipulation_rule(fs));
    lemma_outcome_reported(fs, 6);
}

/// The "registry-modification" capability (namespace "host-interaction/registry") is reported, with
/// evidence, whenever some feature satisfies one of its selectors:
/// `import:regsetvalue`, `import:regcreatekey`, `import:ntsetvaluekey`, `string:hkey_`, `string:hkcu\`, `string:hklm\`.
pub proof fn law_registry_modification_fires(fs: Seq<FeatureView>, i: int, sel: Seq<char>)
    requires
        0 <= i < fs.len(),
        selector_matches(fs[i], sel),
        sel == "import:regsetvalue"@ || sel == "import:regcreatekey"@ || sel == "import:ntsetvaluekey"@ || sel == "string:hkey_"@ || sel == "string:hkcu\\"@ || sel == "string:hklm\\"@,
    ensures
        exists|k: int|
            0 <= k < capabilities_spec(fs).len() && (#[trigger] capabilities_spec(fs)[k]).id == "registry-modification"@
                && capabilities_spec(fs)[k].namespace == "host-interaction/registry"@ && capabilities_spec(fs)[k].evidence.len() > 0,
{
    let needles = selector_views(seq!["import:regsetvalue", "import:regcreatekey", "import:ntsetvaluekey", "string:hkey_", "string:hkcu\\", "string:hklm\\"]);
    let j: int = if sel == "import:regsetvalue"@ {
        assert(needles[0] == sel);
        0int
    } else if sel == "import:regcreatekey"@ {
        assert(needles[1] == sel);
        1int
    } else if sel == "import:ntsetvaluekey"@ {
        assert(needles[2] == sel);
        2int
    } else if sel == "string:hkey_"@ {
        assert(needles[3] == sel);
        3int
    } else if sel == "string:hkcu\\"@ {
        assert(needles[4] == sel);
        4int
    } else {
        assert(needles[5] == sel);
        5int
    };
    assert(any_selector(fs[i], needles));
    lemma_matching_nonempty(fs, needles, i);
    lemma_bounded_len(matching_evidence(fs, needles));
    assert(registry_modification_rule(fs) is Some);
    assert(rule_outcomes(fs)[8] == registry_modification_rule(fs));
    lemma_outcome_reported(fs, 8);
}

/// The "memory-protection" capability (namespace "memory/protection") is reported, with
/// evidence, whenever some feature satisfies one of its selectors:
/// `import:virtualprotect`, `import:ntprotectvirtualmemory`, `import:=mprotect`.
pub proof fn law_memory_protection_fires(fs: Seq<FeatureView>, i: int, sel: Seq<char>)
    requires
        0 <= i < fs.len(),
        selector_matches(fs[i], sel),
        sel == "import:virtualprotect"@ || sel == "import:ntprotectvirtualmemory"@ || sel == "import:=mprotect"@,
    ensures
        exists|k: int|
            0 <= k < capabilities_spec(fs).len() && (#[trigger] capabilities_spec(fs)[k]).id == "memory-protection"@
                && capabilities_spec(fs)[k].namespace == "memory/protection"@ && capabilities_spec(fs)[k].evidence.len() > 0,
{
    let needles = selector_views(seq!["import:virtualprotect", "import:ntprotectvirtualmemory", "import:=mprotect"]);
    let j: int = if sel == "import:virtualprotect"@ {
        assert(needles[0] == sel);
        0int
    } else if sel == "import:ntprotectvirtualmemory"@ {
        assert(needles[1] == sel);
        1int
    } else {
        assert(needles[2] == sel);
        2int
    };
    assert(any_selector(fs[i], needles));
    lemma_matching_nonempty(fs, needles, i);
    lemma_bounded_len(matching_evidence(fs, needles));
    assert(memory_protection_rule(fs) is Some);
    assert(rule_outcomes(fs)[10] == memory_protection_rule(fs));
    lemma_outcome_reported(fs, 10);
}

/// No feature that a selector list matches: no evidence.
proof fn lemma_matching_empty(fs: Seq<FeatureView>, needles: Seq<Seq<char>>)
    requires
        forall|i: int| 0 <= i < fs.len() ==> !any_selector(#[trigger] fs[i], needles),
    ensures
        matching_evidence(fs, needles).len() == 0,
    decreases fs.len(),
{
    if fs.len() > 0 {
        let d = fs.drop_last();
        assert forall|i: int| 0 <= i < d.len() implies !any_selector(#[trigger] d[i], needles) by {
            assert(d[i] == fs[i]);
        }
        lemma_matching_empty(d, needles);
        assert(!any_selector(fs[fs.len() - 1], needles));
    }
}

/// The four primitive groups of process injection, by selector: opening a
/// process (0); allocating in another process (1); writing into it (2);
/// starting code in it (3); any other selector belongs to none (-1).
pub open spec fn injection_group(sel: Seq<char>) -> int {
    if sel == "import:openprocess"@ {
        0
    } else if sel == "import:virtualallocex"@ || sel == "import:ntallocatevirtualmemory"@ {
        1
    } else if sel == "import:writeprocessmemory"@ || sel == "import:ntwritevirtualmemory"@ {
        2
    } else if sel == "import:createremotethread"@ || sel == "import:ntcreatethreadex"@ || sel == "import:queueuserapc"@ {
        3
    } else {
        -1
    }
}

proof fn lemma_injection_groups(fs: Seq<FeatureView>, i: int, s: Seq<char>)
    requires
        0 <= i < fs.len(),
        selector_matches(fs[i], s),
        0 <= injection_group(s),
    ensures
        ({
            let groups = seq![selector_views(seq!["import:openprocess"]), selector_views(seq!["import:virtualallocex", "import:ntallocatevirtualmemory"]), selector_views(seq!["import:writeprocessmemory", "import:ntwritevirtualmemory"]), selector_views(seq!["import:createremotethread", "import:ntcreatethreadex", "import:queueuserapc"])];
            evidence_spec(fs, groups[injection_group(s)]).len() > 0
        }),
{
    let groups = seq![selector_views(seq!["import:openprocess"]), selector_views(seq!["import:virtualallocex", "import:ntallocatevirtualmemory"]), selector_views(seq!["import:writeprocessmemory", "import:ntwritevirtualmemory"]), selector_views(seq!["import:createremotethread", "import:ntcreatethreadex", "import:queueuserapc"])];
    let g = groups[injection_group(s)];
    if s == "import:openprocess"@ {
        assert(g[0] == s);
    } else if s == "import:virtualallocex"@ {
        assert(g[0] == s);
    } else if s == "import:ntallocatevirtualmemory"@ {
        assert(g[1] == s);
    } else if s == "import:writeprocessmemory"@ {
        assert(g[0] == s);
    } else if s == "import:ntwritevirtualmemory"@ {
        assert(g[1] == s);
    } else if s == "import:createremotethread"@ {
        assert(g[0] == s);
    } else if s == "import:ntcreatethreadex"@ {
        assert(g[1] == s);
    } else {
        assert(g[2] == s);
    }
    assert(any_selector(fs[i], g));
    lemma_matching_nonempty(fs, g, i);
    lemma_bounded_len(matching_evidence(fs, g));
}

/// Process injection is reported, with evidence, once features satisfy
/// selectors of two different primitive groups (see `injection_group`).
pub proof fn law_process_injection_fires(fs: Seq<FeatureView>, i: int, s: Seq<char>, j: int, t: Seq<char>)
    requires
        0 <= i < fs.len(),
        0 <= j < fs.len(),
        selector_matches(fs[i], s),
        selector_matches(fs[j], t),
        0 <= injection_group(s),
        0 <= injection_group(t),
        injection_group(s) != injection_group(t),
    ensures
        exists|k: int|
            0 <= k < capabilities_spec(fs).len() && (#[trigger] capabilities_spec(fs)[k]).id == "process-injection"@
                && capabilities_spec(fs)[k].namespace == "host-interaction/process-injection"@
                && capabilities_spec(fs)[k].evidence.len() > 0,
{
    let groups = seq![selector_views(seq!["import:openprocess"]), selector_views(seq!["import:virtualallocex", "import:ntallocatevirtualmemory"]), selector_views(seq!["import:writeprocessmemory", "import:ntwritevirtualmemory"]), selector_views(seq!["import:createremotethread", "import:ntcreatethreadex", "import:queueuserapc"])];
    lemma_injection_groups(fs, i, s);
    lemma_injection_groups(fs, j, t);
    reveal_with_fuel(populated_groups, 5);
    reveal_with_fuel(groups_concat, 5);
    assert(groups.drop_last().drop_last().drop_last().drop_last() =~= Seq::<Seq<Seq<char>>>::empty());
    assert(groups.drop_last().last() == groups[2]);
    assert(groups.drop_last().drop_last().last() == groups[1]);
    assert(groups.drop_last().drop_last().drop_last().last() == groups[0]);
    assert(populated_groups(fs, groups) >= 2);
    let ev = groups_concat(fs, groups);
    assert(ev.len() > 0);
    lemma_bounded_len(ev);
    assert(process_injection_rule(fs) is Some);
    assert(rule_outcomes(fs)[7] == process_injection_rule(fs));
    lemma_outcome_reported(fs, 7);
}

proof fn lemma_injection_members(h: int, k: int)
    requires
        0 <= h < 4,
        0 <= k < seq![selector_views(seq!["import:openprocess"]), selector_views(seq!["import:virtualallocex", "import:ntallocatevirtualmemory"]), selector_views(seq!["import:writeprocessmemory", "import:ntwritevirtualmemory"]), selector_views(seq!["import:createremotethread", "import:ntcreatethreadex", "import:queueuserapc"])][h].len(),
    ensures
        injection_group(seq![selector_views(seq!["import:openprocess"]), selector_views(seq!["import:virtualallocex", "import:ntallocatevirtualmemory"]), selector_views(seq!["import:writeprocessmemory", "import:ntwritevirtualmemory"]), selector_views(seq!["import:createremotethread", "import:ntcreatethreadex", "import:queueuserapc"])][h][k]) == h,
{
    let groups = seq![selector_views(seq!["import:openprocess"]), selector_views(seq!["import:virtualallocex", "import:ntallocatevirtualmemory"]), selector_views(seq!["import:writeprocessmemory", "import:ntwritevirtualmemory"]), selector_views(seq!["import:createremotethread", "import:ntcreatethreadex", "import:queueuserapc"])];
    reveal_strlit("import:openprocess");
    reveal_strlit("import:virtualallocex");
    reveal_strlit("import:ntallocatevirtualmemory");
    reveal_strlit("import:writeprocessmemory");
    reveal_strlit("import:ntwritevirtualmemory");
    reveal_strlit("import:createremotethread");
    reveal_strlit("import:ntcreatethreadex");
    reveal_strlit("import:queueuserapc");
    assert("import:openprocess"@.len() == 18 && "import:virtualallocex"@.len() == 21 && "import:ntallocatevirtualmemory"@.len() == 30 && "import:writeprocessmemory"@.len() == 25 && "import:ntwritevirtualmemory"@.len() == 27 && "import:createremotethread"@.len() == 25 && "import:ntcreatethreadex"@.len() == 23 && "import:queueuserapc"@.len() == 19);
    assert("import:writeprocessmemory"@[7] == 'w' && "import:createremotethread"@[7] == 'c');
    let s = groups[h][k];
    if h == 0 {
        assert(s == "import:openprocess"@);
    } else if h == 1 {
        if k == 0 {
            assert(s == "import:virtualallocex"@);
        } else {
            assert(s == "import:ntallocatevirtualmemory"@);
        }
    } else if h == 2 {
        if k == 0 {
            assert(s == "import:writeprocessmemory"@);
        } else {
            assert(s == "import:ntwritevirtualmemory"@);
        }
    } else {
        if k == 0 {
            assert(s == "import:createremotethread"@);
        } else if k == 1 {
            assert(s == "import:ntcreatethreadex"@);
        } else {
            assert(s == "import:queueuserapc"@);
        }
    }
}

/// Process injection is not reported when every feature that satisfies an
/// injection selector satisfies only selectors of one and the same group.
pub proof fn law_process_injection_needs_two_groups(fs: Seq<FeatureView>, g: int)
    requires
        forall|i: int, s: Seq<char>| 0 <= i < fs.len() && selector_matches(#[trigger] fs[i], s) && 0 <= #[trigger] injection_group(s)
            ==> injection_group(s) == g,
    ensures
        process_injection_rule(fs) is None,
        forall|k: int| 0 <= k < capabilities_spec(fs).len() ==> (#[trigger] capabilities_spec(fs)[k]).namespace != "host-interaction/process-injection"@,
{
    let groups = seq![selector_views(seq!["import:openprocess"]), selector_views(seq!["import:virtualallocex", "import:ntallocatevirtualmemory"]), selector_views(seq!["import:writeprocessmemory", "import:ntwritevirtualmemory"]), selector_views(seq!["import:createremotethread", "import:ntcreatethreadex", "import:queueuserapc"])];
    assert forall|h: int| 0 <= h < 4 && h != g implies #[trigger] evidence_spec(fs, groups[h]).len() == 0 by {
        let gh = groups[h];
        assert forall|i: int| 0 <= i < fs.len() implies !any_selector(#[trigger] fs[i], gh) by {
            if any_selector(fs[i], gh) {
                let k = choose|k: int| 0 <= k < gh.len() && selector_matches(fs[i], #[trigger] gh[k]);
                lemma_injection_members(h, k);
                assert(injection_group(gh[k]) == h);
            }
        }
        lemma_matching_empty(fs, gh);
        lemma_bounded_len(matching_evidence(fs, gh));
    }
    reveal_with_fuel(populated_groups, 5);
    assert(groups.drop_last().drop_last().drop_last().drop_last() =~= Seq::<Seq<Seq<char>>>::empty());
    assert(groups.drop_last().last() == groups[2]);
    assert(groups.drop_last().drop_last().last() == groups[1]);
    assert(groups.drop_last().drop_last().drop_last().last() == groups[0]);
    assert(evidence_spec(fs, groups[0]).len() == 0 || evidence_spec(fs, groups[1]).len() == 0 || g == 0 || g == 1);
    assert(populated_groups(fs, groups) <= 1);
    assert(process_injection_rule(fs) is None);
    let os = rule_outcomes(fs);
    let n = rule_namespaces();
    lemma_namespaces_ordered();
    assert forall|k: int| 0 <= k < 11 && (#[trigger] os[k]) is Some implies os[k]->0.namespace == n[k] by {
        if k == 0 {
            assert(os[k] == anti_analysis_rule(fs));
        }
        if k == 1 {
            assert(os[k] == network_communication_rule(fs));
        }
        if k == 2 {
            assert(os[k] == credential_access_rule(fs));
        }
        if k == 3 {
            assert(os[k] == cryptography_rule(fs));
        }
        if k == 4 {
            assert(os[k] == system_discovery_rule(fs));
        }
        if k == 5 {
            assert(os[k] == process_execution_rule(fs));
        }
        if k == 6 {
            assert(os[k] == file_manipulation_rule(fs));
        }
        if k == 7 {
            assert(os[k] == process_injection_rule(fs));
        }
        if k == 8 {
            assert(os[k] == registry_modification_rule(fs));
        }
        if k == 9 {
            assert(os[k] == dynamic_api_resolution_rule(fs));
        }
        if k == 10 {
            assert(os[k] == memory_protection_rule(fs));
        }
    }
    lemma_fired_rules(fs);
    lemma_fired_origin(os);
    let caps = capabilities_spec(fs);
    assert forall|k: int| 0 <= k < caps.len() implies (#[trigger] caps[k]).namespace != "host-interaction/process-injection"@ by {
        let a = choose|a: int| 0 <= a < os.len() && os[a] == Some(caps[k]);
        assert(os[7] is None);
        assert(a != 7);
        assert(n[7] == "host-interaction/process-injection"@);
        lemma_seq_less_irreflexive(n[7]);
        if a < 7 {
            assert(seq_less(n[a], n[7]));
        } else {
            assert(seq_less(n[7], n[a]));
        }
    }
}

/// Dynamic API resolution is reported, with evidence, once some feature
/// satisfies a module-loading selector (`import:loadlibrary`,
/// `import:ldrloaddll`) and some feature satisfies an export-lookup selector
/// (`import:getprocaddress`, `import:ldrgetprocedureaddress`); it is not
/// reported while either kind is missing.
pub proof fn law_dynamic_api_resolution(fs: Seq<FeatureView>)
    ensures
        ({
            let load = exists|i: int, s: Seq<char>| 0 <= i < fs.len() && #[trigger] selector_matches(fs[i], s)
                && (s == "import:loadlibrary"@ || s == "import:ldrloaddll"@);
            let lookup = exists|i: int, s: Seq<char>| 0 <= i < fs.len() && #[trigger] selector_matches(fs[i], s)
                && (s == "import:getprocaddress"@ || s == "import:ldrgetprocedureaddress"@);
            &&& load && lookup ==> exists|k: int|
                0 <= k < capabilities_spec(fs).len() && (#[trigger] capabilities_spec(fs)[k]).id == "dynamic-api-resolution"@
                    && capabilities_spec(fs)[k].evidence.len() > 0
            &&& !(load && lookup) ==> dynamic_api_resolution_rule(fs) is None
        }),
{
    let groups = seq![selector_views(seq!["import:loadlibrary", "import:ldrloaddll"]), selector_views(seq!["import:getprocaddress", "import:ldrgetprocedureaddress"])];
    let g0 = groups[0];
    let g1 = groups[1];
    assert(g0[0] == "import:loadlibrary"@ && g0[1] == "import:ldrloaddll"@ && g0.len() == 2);
    assert(g1[0] == "import:getprocaddress"@ && g1[1] == "import:ldrgetprocedureaddress"@ && g1.len() == 2);
    let load = exists|i: int, s: Seq<char>| 0 <= i < fs.len() && #[trigger] selector_matches(fs[i], s)
        && (s == "import:loadlibrary"@ || s == "import:ldrloaddll"@);
    let lookup = exists|i: int, s: Seq<char>| 0 <= i < fs.len() && #[trigger] selector_matches(fs[i], s)
        && (s == "import:getprocaddress"@ || s == "import:ldrgetprocedureaddress"@);
    if load {
        let (i, s) = choose|i: int, s: Seq<char>| 0 <= i < fs.len() && #[trigger] selector_matches(fs[i], s)
            && (s == "import:loadlibrary"@ || s == "import:ldrloaddll"@);
        if s == g0[0] { assert(any_selector(fs[i], g0)); } else { assert(s == g0[1]); assert(any_selector(fs[i], g0)); }
        lemma_matching_nonempty(fs, g0, i);
        lemma_bounded_len(matching_evidence(fs, g0));
    } else {
        assert forall|i: int| 0 <= i < fs.len() implies !any_selector(#[trigger] fs[i], g0) by {
            if any_selector(fs[i], g0) {
                let k = choose|k: int| 0 <= k < g0.len() && selector_matches(fs[i], #[trigger] g0[k]);
                assert(selector_matches(fs[i], g0[k]));
            }
        }
        lemma_matching_empty(fs, g0);
        lemma_bounded_len(matching_evidence(fs, g0));
    }
    if lookup {
        let (i, s) = choose|i: int, s: Seq<char>| 0 <= i < fs.len() && #[trigger] selector_matches(fs[i], s)
            && (s == "import:getprocaddress"@ || s == "import:ldrgetprocedureaddress"@);
        if s == g1[0] { assert(any_selector(fs[i], g1)); } else { assert(s == g1[1]); assert(any_selector(fs[i], g1)); }
        lemma_matching_nonempty(fs, g1, i);
        lemma_bounded_len(matching_evidence(fs, g1));
    } else {
        assert forall|i: int| 0 <= i < fs.len() implies !any_selector(#[trigger] fs[i], g1) by {
            if any_selector(fs[i], g1) {
                let k = choose|k: int| 0 <= k < g1.len() && selector_matches(fs[i], #[trigger] g1[k]);
                assert(selector_matches(fs[i], g1[k]));
            }
        }
        lemma_matching_empty(fs, g1);
        lemma_bounded_len(matching_evidence(fs, g1));
    }
    if load && lookup {
        assert(forall|k: int| 0 <= k < groups.len() ==> #[trigger] evidence_spec(fs, groups[k]).len() > 0);
        reveal_with_fuel(groups_concat, 3);
        assert(groups.drop_last().drop_last() =~= Seq::<Seq<Seq<char>>>::empty());
        assert(groups.drop_last().last() == g0);
        let ev = groups_concat(fs, groups);
        assert(ev.len() > 0);
        lemma_bounded_len(ev);
        assert(dynamic_api_resolution_rule(fs) is Some);
        assert(rule_outcomes(fs)[9] == dynamic_api_resolution_rule(fs));
        lemma_outcome_reported(fs, 9);
    } else {
        if !load {
            assert(evidence_spec(fs, groups[0]).len() == 0);
        } else {
            assert(evidence_spec(fs, groups[1]).len() == 0);
        }
    }
}

} // verus!
