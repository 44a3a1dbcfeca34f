//! Applying a rule profile to a text: every enabled rule is run over the whole original text,
//! overlapping matches are merged into clusters, and each cluster is replaced once, with the
//! replacement value of its highest-priority match.

use vstd::hash_map::StringHashMap;
use vstd::prelude::*;

use crate::cluster::{
    candidates_non_empty, law_clustering_is_unique, within, rule_decides_entry, has_winner, winning_candidate, cluster_sorted, merge_by_start, all_non_empty, sorted_by_start, valid_clustering, Candidate,
    Cluster,
};
use crate::matcher::{compile_rule_pattern, matcher_for, matcher_spans, rule_spans, spans_int, spans_ordered, PatternMatcher};
use crate::models::{lemma_display_name_has_no_nul, Mode, Rule, RuleProfile, RuleView};
use crate::offsets::{byte_len, byte_offsets, lemma_byte_len_strict};
use crate::text::{chars_of, decimal, lemma_decimal_injective, lemma_decimal_len, push_char_range, push_decimal, push_str_chars, string_from_char_range, string_from_chars};

verus! {

/// The abstract content of a `MappingStore`: the replacement value already given to each
/// (rule name, original value) pair, and the last number handed out for each prefix.
pub struct MappingModel {
    pub mapping: Map<(Seq<char>, Seq<char>), Seq<char>>,
    pub counters: Map<Seq<char>, u64>,
}

/// The number after `c`, as a `u64` counter advances (wrapping after the largest value).
pub open spec fn counter_next(c: u64) -> u64 {
    if c == u64::MAX {
        0
    } else {
        (c + 1) as u64
    }
}

/// The replacement value of a rule in sequential mode for the number `n`.
pub open spec fn sequential_dummy(prefix: Seq<char>, n: u64) -> Seq<char> {
    prefix + decimal(n as nat) + "__"@
}

/// The replacement value that `get_or_create` gives `original` under rule `r`, and the store
/// after the call. A value seen before under the same rule name gets the same replacement; a new
/// one gets the fixed value, or the prefix with the next number of that prefix (numbers are
/// shared by all rules with the same prefix).
pub open spec fn dummy_for(store: MappingModel, original: Seq<char>, r: RuleView) -> (
    Seq<char>,
    MappingModel,
) {
    let key = (r.name, original);
    if store.mapping.contains_key(key) {
        (store.mapping[key], store)
    } else if r.mode == Mode::Fixed {
        let d = r.fixed_value.unwrap();
        (d, MappingModel { mapping: store.mapping.insert(key, d), counters: store.counters })
    } else {
        let p = r.prefix.unwrap();
        let n = if store.counters.contains_key(p) {
            counter_next(store.counters[p])
        } else {
            1u64
        };
        let d = sequential_dummy(p, n);
        (d, MappingModel { mapping: store.mapping.insert(key, d), counters: store.counters.insert(p, n) })
    }
}

/// The key under which the pair (name, original) is stored.
pub open spec fn pair_key(name: Seq<char>, original: Seq<char>) -> Seq<char> {
    name + seq!['\0'] + original
}

pub open spec fn has_no_nul(s: Seq<char>) -> bool {
    forall|j: int| 0 <= j < s.len() ==> #[trigger] s[j] != '\0'
}

proof fn lemma_pair_key_injective(n1: Seq<char>, o1: Seq<char>, n2: Seq<char>, o2: Seq<char>)
    requires
        has_no_nul(n1),
        has_no_nul(n2),
        pair_key(n1, o1) == pair_key(n2, o2),
    ensures
        n1 == n2,
        o1 == o2,
{
    let k = pair_key(n1, o1);
    assert(k[n1.len() as int] == '\0');
    assert(k == pair_key(n2, o2));
    if n1.len() < n2.len() {
        assert(pair_key(n2, o2)[n1.len() as int] == n2[n1.len() as int]);
    } else if n2.len() < n1.len() {
        assert(pair_key(n1, o1)[n2.len() as int] == n1[n2.len() as int]);
        assert(pair_key(n2, o2)[n2.len() as int] == '\0');
    }
    assert(n1.len() == n2.len());
    assert(n1 =~= k.take(n1.len() as int));
    assert(n2 =~= pair_key(n2, o2).take(n2.len() as int));
    assert(o1 =~= k.skip(n1.len() as int + 1));
    assert(o2 =~= pair_key(n2, o2).skip(n2.len() as int + 1));
}

/// The replacement values handed out so far (original value -> replacement, per rule name), and
/// a counter per prefix for sequential mode. Callers keep it across calls; the same store used
/// with the same rules gives consistent replacements across texts.
pub struct MappingStore {
    mapping: StringHashMap<String>,
    counters: StringHashMap<u64>,
}

impl View for MappingStore {
    type V = MappingModel;

    closed spec fn view(&self) -> MappingModel {
        MappingModel {
            mapping: Map::new(
                |p: (Seq<char>, Seq<char>)|
                    has_no_nul(p.0) && self.mapping@.contains_key(pair_key(p.0, p.1)),
                |p: (Seq<char>, Seq<char>)| self.mapping@[pair_key(p.0, p.1)]@,
            ),
            counters: self.counters@,
        }
    }
}

impl MappingStore {
    pub fn new() -> (r: MappingStore)
        ensures
            r@.mapping == Map::<(Seq<char>, Seq<char>), Seq<char>>::empty(),
            r@.counters == Map::<Seq<char>, u64>::empty(),
    {
        let r = MappingStore { mapping: StringHashMap::new(), counters: StringHashMap::new() };
        assert(r@.mapping =~= Map::<(Seq<char>, Seq<char>), Seq<char>>::empty());
        r
    }

    /// The replacement value for `original` under `rule` (see `dummy_for`).
    pub fn get_or_create(&mut self, original: &str, rule: &Rule) -> (r: String)
        ensures
            (r@, final(self)@) == dummy_for(old(self)@, original@, rule@),
    {
        proof {
            use_type_invariant(rule);
            lemma_display_name_has_no_nul(rule@.name);
        }
        let ghost name = rule@.name;
        let ghost pair = (name, original@);
        let mut key = String::new();
        key.append(rule.name());
        key.append("\0");
        key.append(original);
        proof {
            reveal_strlit("\0");
            assert(key@ =~= pair_key(name, original@));
        }
        match self.mapping.get(key.as_str()) {
            Some(existing) => {
                proof {
                    assert(old(self)@.mapping.contains_key(pair));
                }
                return existing.clone();
            },
            None => {},
        }
        proof {
            assert(!old(self)@.mapping.contains_key(pair));
        }
        let dummy: String = match rule.mode() {
            Mode::Fixed => match rule.fixed_value() {
                Some(v) => v.to_owned(),
                None => {
                    assert(false);
                    String::new()
                },
            },
            Mode::Sequential => {
                let prefix = match rule.prefix() {
                    Some(p) => p,
                    None => {
                        assert(false);
                        ""
                    },
                };
                let n: u64 = match self.counters.get(prefix) {
                    Some(c) => c.wrapping_add(1),
                    None => 1,
                };
                self.counters.insert(prefix.to_owned(), n);
                let mut d: Vec<char> = Vec::new();
                push_str_chars(&mut d, prefix);
                push_decimal(&mut d, n);
                push_str_chars(&mut d, "__");
                string_from_chars(&d)
            },
        };
        let ghost old_inner = self.mapping@;
        self.mapping.insert(key, dummy.clone());
        proof {
            let expected = dummy_for(old(self)@, original@, rule@);
            assert(dummy@ == expected.0);
            assert forall|p: (Seq<char>, Seq<char>)| has_no_nul(p.0) implies (self.mapping@.contains_key(
                pair_key(p.0, p.1),
            ) <==> (old_inner.contains_key(pair_key(p.0, p.1)) || p == pair)) by {
                if pair_key(p.0, p.1) == pair_key(name, original@) {
                    lemma_pair_key_injective(p.0, p.1, name, original@);
                }
            }
            assert(self@.mapping =~= expected.1.mapping) by {
                assert forall|p: (Seq<char>, Seq<char>)| #[trigger] self@.mapping.contains_key(p)
                    implies self@.mapping[p] == expected.1.mapping[p] by {
                    if p != pair {
                        if pair_key(p.0, p.1) == pair_key(name, original@) {
                            lemma_pair_key_injective(p.0, p.1, name, original@);
                        }
                    }
                }
            }
        }
        dummy
    }
}

/// The candidates of one rule: its matches with their length in bytes, the rule's position in
/// its profile and its position among the rules that are run.
pub open spec fn cands_of(t: Seq<char>, spans: Seq<(int, int)>, rule_index: int, entry: int) -> Seq<Candidate> {
    spans.map_values(
        |p: (int, int)|
            Candidate {
                start: p.0 as usize,
                end: p.1 as usize,
                weight: (byte_len(t, p.1) - byte_len(t, p.0)) as usize,
                rule_index: rule_index as usize,
                entry: entry as usize,
            },
    )
}

/// Every candidate of the rules `entries` (each a rule and its position in the profile) in `t`.
pub open spec fn candidate_set(t: Seq<char>, entries: Seq<(RuleView, int)>) -> Set<Candidate>
    decreases entries.len(),
{
    if entries.len() == 0 {
        Set::empty()
    } else {
        let last = entries.last();
        candidate_set(t, entries.drop_last()) + cands_of(
            t,
            rule_spans(last.0, t),
            last.1,
            entries.len() - 1,
        ).to_set()
    }
}

/// The text before, between and in place of the clusters `cl` of `t` (the text after the last
/// cluster not included), and the store after the replacement values were taken in order.
pub open spec fn render(t: Seq<char>, cl: Seq<Cluster>, rules: Seq<RuleView>, store: MappingModel) -> (
    Seq<char>,
    MappingModel,
)
    decreases cl.len(),
{
    if cl.len() == 0 {
        (seq![], store)
    } else {
        let (out, st) = render(t, cl.drop_last(), rules, store);
        let k = cl.last();
        let prev_end: int = if cl.len() >= 2 {
            cl[cl.len() - 2].end as int
        } else {
            0
        };
        let (d, st2) = dummy_for(st, t.subrange(k.start as int, k.end as int), rules[k.winner as int]);
        (out + t.subrange(prev_end, k.start as int) + d, st2)
    }
}

/// The masked text for the clusters `cl` of `t`, and the store afterwards.
pub open spec fn masked(t: Seq<char>, cl: Seq<Cluster>, rules: Seq<RuleView>, store: MappingModel) -> (
    Seq<char>,
    MappingModel,
) {
    let (out, st) = render(t, cl, rules, store);
    let last_end: int = if cl.len() > 0 {
        cl.last().end as int
    } else {
        0
    };
    (out + t.subrange(last_end, t.len() as int), st)
}

/// How many matches a rule that is run had in one masking (each of them lies in a replaced
/// cluster; disabled rules are not listed).
#[derive(Debug, Clone, PartialEq, Eq)]
pub struct RuleMatchCount {
    pub rule_name: String,
    pub count: usize,
}

/// The outcome of masking `t` with the rules `entries` (each a rule and its position in the
/// profile), starting from `store0`: there is a clustering of all their candidates such that the
/// masked text and the final store are those of `masked`, and the counts are one per rule, in order,
/// with its name and its number of matches.
pub open spec fn masking_outcome(
    t: Seq<char>,
    entries: Seq<(RuleView, int)>,
    store0: MappingModel,
    out: Seq<char>,
    store1: MappingModel,
    counts: Seq<RuleMatchCount>,
) -> bool {
    let rules = entries.map_values(|e: (RuleView, int)| e.0);
    &&& exists|cl: Seq<Cluster>| #[trigger] valid_clustering(candidate_set(t, entries), cl) && (out, store1) == masked(t, cl, rules, store0)
    &&& counts.len() == entries.len()
    &&& forall|j: int| 0 <= j < entries.len() ==> (#[trigger] counts[j]).rule_name@ == entries[j].0.name
        && counts[j].count == rule_spans(entries[j].0, t).len()
}

/// The rules of a profile that are enabled, each with its position in the profile.
pub open spec fn enabled_entries(rules: Seq<RuleView>) -> Seq<(RuleView, int)>
    decreases rules.len(),
{
    if rules.len() == 0 {
        seq![]
    } else {
        let prev = enabled_entries(rules.drop_last());
        if rules.last().enabled {
            prev.push((rules.last(), rules.len() - 1))
        } else {
            prev
        }
    }
}

struct CompiledEntry<'a> {
    rule: &'a Rule,
    rule_index: usize,
    matcher: PatternMatcher,
}

/// The enabled rules of a profile with their patterns prepared once, to apply the same profile to
/// many texts without preparing them again.
pub struct CompiledProfile<'a> {
    entries: Vec<CompiledEntry<'a>>,
}

impl<'a> CompiledProfile<'a> {
    /// The rules that are run, each with its position in the profile.
    pub closed spec fn entries_view(&self) -> Seq<(RuleView, int)> {
        self.entries@.map_values(|e: CompiledEntry<'a>| (e.rule@, e.rule_index as int))
    }

    #[verifier::type_invariant]
    closed spec fn inv(self) -> bool {
        forall|j: int| 0 <= j < self.entries@.len() ==> matcher_for(
            (#[trigger] self.entries@[j]).matcher,
            self.entries@[j].rule@,
        )
    }

    pub fn compile(profile: &'a RuleProfile) -> (r: CompiledProfile<'a>)
        ensures
            r.entries_view() == enabled_entries(profile@.rules),
    {
        let rules = profile.rules();
        let ghost views = rules@.map_values(|x: Rule| x@);
        let mut entries: Vec<CompiledEntry<'a>> = Vec::new();
        let mut i: usize = 0;
        while i < rules.len()
            invariant
                i <= rules@.len(),
                views == rules@.map_values(|x: Rule| x@),
                views == profile@.rules,
                entries@.map_values(|e: CompiledEntry<'a>| (e.rule@, e.rule_index as int))
                    == enabled_entries(views.take(i as int)),
                forall|j: int| 0 <= j < entries@.len() ==> matcher_for(
                    (#[trigger] entries@[j]).matcher,
                    entries@[j].rule@,
                ),
            decreases rules@.len() - i,
        {
            let rule = &rules[i];
            let ghost before = entries@;
            proof {
                assert(views.take(i + 1).drop_last() =~= views.take(i as int));
                assert(views.take(i + 1).last() == rule@);
            }
            if rule.enabled() {
                let matcher = compile_rule_pattern(rule);
                entries.push(CompiledEntry { rule, rule_index: i, matcher });
                proof {
                    assert(entries@.map_values(|e: CompiledEntry<'a>| (e.rule@, e.rule_index as int))
                        =~= before.map_values(|e: CompiledEntry<'a>| (e.rule@, e.rule_index as int)).push((rule@, i as int)));
                }
            }
            i += 1;
        }
        assert(views.take(rules@.len() as int) =~= views);
        CompiledProfile { entries }
    }
}

/// The candidates of one rule, from its matches.
fn candidates_of(spans: &Vec<(usize, usize)>, offsets: &[usize], rule_index: usize, entry: usize, Ghost(t): Ghost<Seq<char>>) -> (r: Vec<Candidate>)
    requires
        offsets@.len() == t.len() + 1,
        forall|k: int| 0 <= k <= t.len() ==> #[trigger] offsets@[k] == byte_len(t, k),
        spans_ordered(spans_int(spans@), t.len() as int),
    ensures
        r@ == cands_of(t, spans_int(spans@), rule_index as int, entry as int),
        sorted_by_start(r@),
        all_non_empty(r@),
        forall|i: int| 0 <= i < r@.len() ==> (#[trigger] r@[i]).end <= t.len() && r@[i].entry == entry,
{
    let ghost expected = cands_of(t, spans_int(spans@), rule_index as int, entry as int);
    let mut r: Vec<Candidate> = Vec::new();
    let mut i: usize = 0;
    while i < spans.len()
        invariant
            offsets@.len() == t.len() + 1,
            forall|k: int| 0 <= k <= t.len() ==> #[trigger] offsets@[k] == byte_len(t, k),
            spans_ordered(spans_int(spans@), t.len() as int),
            expected == cands_of(t, spans_int(spans@), rule_index as int, entry as int),
            i <= spans@.len(),
            r@ == expected.take(i as int),
        decreases spans@.len() - i,
    {
        let (a, b) = spans[i];
        proof {
            assert(spans_int(spans@)[i as int] == (a as int, b as int));
            lemma_byte_len_strict(t, a as int, b as int);
        }
        let weight = offsets[b] - offsets[a];
        r.push(Candidate { start: a, end: b, weight, rule_index, entry });
        i += 1;
        assert(r@ =~= expected.take(i as int));
    }
    assert(expected.take(spans@.len() as int) =~= expected);
    proof {
        assert forall|x: int, y: int| 0 <= x < y < r@.len() implies (#[trigger] r@[x]).start <= (#[trigger] r@[y]).start by {
            assert(spans_int(spans@)[x] == (r@[x].start as int, r@[x].end as int));
            assert(spans_int(spans@)[y] == (r@[y].start as int, r@[y].end as int));
        }
        assert forall|x: int| 0 <= x < r@.len() implies (#[trigger] r@[x]).start < r@[x].end && r@[x].end <= t.len() && r@[x].entry == entry by {
            assert(spans_int(spans@)[x] == (r@[x].start as int, r@[x].end as int));
        }
    }
    r
}

/// Masks `text` with the rules of `compiled`: every rule is run over the whole original text
/// (never over replacement values), overlapping matches are merged into clusters, and each
/// cluster is replaced once with the replacement value (from `store`) of its winning rule.
/// Also returns, for every rule that is run, how many matches it had (each of them lies in a
/// replaced cluster).
pub fn apply_compiled_profile(text: &str, compiled: &CompiledProfile, store: &mut MappingStore) -> (r: (
    String,
    Vec<RuleMatchCount>,
))
    ensures
        masking_outcome(text@, compiled.entries_view(), old(store)@, r.0@, final(store)@, r.1@),
        matches_well_formed(text@, compiled.entries_view()),
{
    proof {
        use_type_invariant(compiled);
    }
    let ghost t = text@;
    let ghost entries = compiled.entries_view();
    let chars = chars_of(text);
    let offsets = byte_offsets(text, &chars);
    let n = chars.len();
    let mut all: Vec<Candidate> = Vec::new();
    let mut counts: Vec<RuleMatchCount> = Vec::new();
    let mut j: usize = 0;
    while j < compiled.entries.len()
        invariant
            t == text@,
            chars@ == t,
            n == t.len(),
            entries == compiled.entries_view(),
            forall|x: int| 0 <= x < compiled.entries@.len() ==> matcher_for(
                (#[trigger] compiled.entries@[x]).matcher,
                compiled.entries@[x].rule@,
            ),
            offsets@.len() == t.len() + 1,
            forall|k: int| 0 <= k <= t.len() ==> #[trigger] offsets@[k] == byte_len(t, k),
            j <= compiled.entries@.len(),
            sorted_by_start(all@),
            all_non_empty(all@),
            forall|i: int| 0 <= i < all@.len() ==> (#[trigger] all@[i]).end <= n && all@[i].entry < j,
            all@.to_set() == candidate_set(t, entries.take(j as int)),
            counts@.len() == j,
            forall|x: int| 0 <= x < j ==> (#[trigger] counts@[x]).rule_name@ == entries[x].0.name
                && counts@[x].count == rule_spans(entries[x].0, t).len(),
            forall|x: int| 0 <= x < j ==> spans_ordered(rule_spans(#[trigger] entries[x].0, t), n as int),
        decreases compiled.entries@.len() - j,
    {
        let entry = &compiled.entries[j];
        let spans = matcher_spans(&entry.matcher, text, &chars, &offsets);
        let cands = candidates_of(&spans, &offsets, entry.rule_index, j, Ghost(t));
        let merged = merge_by_start(&all, &cands);
        proof {
            assert(entries[j as int] == (entry.rule@, entry.rule_index as int));
            assert(spans_int(spans@) == rule_spans(entry.rule@, t));
            assert(entries.take(j + 1).drop_last() =~= entries.take(j as int));
            assert(merged@.to_set() == candidate_set(t, entries.take(j + 1)));
            assert forall|i: int| 0 <= i < merged@.len() implies (#[trigger] merged@[i]).start < merged@[i].end && merged@[i].end <= n && merged@[i].entry < j + 1 by {
                assert(merged@.to_set().contains(merged@[i]));
                if all@.to_set().contains(merged@[i]) {
                    let m = choose|m: int| 0 <= m < all@.len() && all@[m] == merged@[i];
                } else {
                    let m = choose|m: int| 0 <= m < cands@.len() && cands@[m] == merged@[i];
                }
            }
        }
        all = merged;
        counts.push(RuleMatchCount { rule_name: entry.rule.name().to_owned(), count: spans.len() });
        proof {
            assert(spans_int(spans@).len() == spans@.len());
        }
        j += 1;
    }
    proof {
        assert(entries.take(j as int) =~= entries);
        assert(entries.len() == compiled.entries@.len());
        assert(matches_well_formed(t, entries));
    }
    let clusters = cluster_sorted(&all, n);
    let ghost rules = entries.map_values(|e: (RuleView, int)| e.0);
    let ghost store0 = store@;
    let mut out: Vec<char> = Vec::new();
    let mut cursor: usize = 0;
    let mut k: usize = 0;
    while k < clusters.len()
        invariant
            t == text@,
            chars@ == t,
            n == t.len(),
            entries == compiled.entries_view(),
            rules == entries.map_values(|e: (RuleView, int)| e.0),
            forall|i: int| 0 <= i < all@.len() ==> (#[trigger] all@[i]).entry < compiled.entries@.len(),
            valid_clustering(all@.to_set(), clusters@),
            forall|i: int| 0 <= i < clusters@.len() ==> (#[trigger] clusters@[i]).start < clusters@[i].end <= n,
            forall|i: int, i2: int| 0 <= i < i2 < clusters@.len() ==> (#[trigger] clusters@[i]).end <= (#[trigger] clusters@[i2]).start,
            k <= clusters@.len(),
            cursor == (if k > 0 { clusters@[k - 1].end as int } else { 0 }),
            (out@, store@) == render(t, clusters@.take(k as int), rules, store0),
            matches_well_formed(t, entries),
        decreases clusters@.len() - k,
    {
        let c = clusters[k];
        proof {
            if k > 0 {
                assert(clusters@[k - 1].end <= clusters@[k as int].start);
            }
            reveal(crate::cluster::clusters_won);
            assert(crate::cluster::has_winner(all@.to_set(), clusters@[k as int]));
        }
        let ghost w = choose|cd: Candidate| #[trigger] crate::cluster::winning_candidate(all@.to_set(), clusters@[k as int], cd);
        proof {
            assert(all@.to_set().contains(w));
        }
        proof {
            let m = choose|m: int| 0 <= m < all@.len() && all@[m] == w;
            assert(c.winner == w.entry);
            assert(c.winner < compiled.entries@.len());
        }
        let rule = compiled.entries[c.winner].rule;
        let original = string_from_char_range(&chars, c.start, c.end);
        let ghost out_before = out@;
        push_char_range(&mut out, &chars, cursor, c.start);
        let dummy = store.get_or_create(original.as_str(), rule);
        push_str_chars(&mut out, dummy.as_str());
        proof {
            assert(rules[c.winner as int] == rule@);
            let cl1 = clusters@.take(k + 1);
            assert(cl1.drop_last() =~= clusters@.take(k as int));
            assert(cl1.last() == c);
            if k + 1 >= 2 {
                assert(cl1[cl1.len() - 2] == clusters@[k - 1]);
            }
            assert(out@ =~= out_before + t.subrange(cursor as int, c.start as int) + dummy@);
        }
        cursor = c.end;
        k += 1;
    }
    let ghost out_before = out@;
    push_char_range(&mut out, &chars, cursor, n);
    proof {
        assert(clusters@.take(k as int) =~= clusters@);
        assert(candidate_set(t, entries) == all@.to_set());
        assert((out@, store@) == masked(t, clusters@, rules, store0));
        assert(valid_clustering(candidate_set(t, entries), clusters@));
    }
    (string_from_chars(&out), counts)
}

/// Masks `text` with `profile` (preparing its patterns for this one call; to mask many texts
/// with one profile, use `CompiledProfile::compile` once and `apply_compiled_profile`).
pub fn apply_profile(text: &str, profile: &RuleProfile, store: &mut MappingStore) -> (r: (
    String,
    Vec<RuleMatchCount>,
))
    ensures
        masking_outcome(text@, enabled_entries(profile@.rules), old(store)@, r.0@, final(store)@, r.1@),
        matches_well_formed(text@, enabled_entries(profile@.rules)),
{
    let compiled = CompiledProfile::compile(profile);
    apply_compiled_profile(text, &compiled, store)
}

/// A value keeps its replacement: asking again for the replacement of a value under the same
/// rule gives the same one and changes nothing in the store.
pub proof fn law_replacement_is_stable(store: MappingModel, original: Seq<char>, r: RuleView)
    ensures
        ({
            let (d, s1) = dummy_for(store, original, r);
            dummy_for(s1, original, r) == (d, s1)
        }),
{
}

proof fn lemma_no_spans_no_candidates(t: Seq<char>, entries: Seq<(RuleView, int)>)
    requires
        forall|j: int| 0 <= j < entries.len() ==> rule_spans(#[trigger] entries[j].0, t).len() == 0,
    ensures
        candidate_set(t, entries) == Set::<Candidate>::empty(),
    decreases entries.len(),
{
    if entries.len() > 0 {
        let last = entries.last();
        assert(rule_spans(entries[entries.len() - 1].0, t).len() == 0);
        assert forall|j: int| 0 <= j < entries.drop_last().len() implies rule_spans(
            #[trigger] entries.drop_last()[j].0,
            t,
        ).len() == 0 by {
            assert(entries.drop_last()[j] == entries[j]);
        }
        lemma_no_spans_no_candidates(t, entries.drop_last());
        assert(cands_of(t, rule_spans(last.0, t), last.1, entries.len() - 1).to_set() =~= Set::<
            Candidate,
        >::empty());
        assert(candidate_set(t, entries) =~= Set::<Candidate>::empty());
    }
}

/// A text in which no rule that is run has a match comes out as it went in, the store
/// unchanged, and every count zero.
pub proof fn law_text_without_matches_is_unchanged(
    t: Seq<char>,
    entries: Seq<(RuleView, int)>,
    store0: MappingModel,
    out: Seq<char>,
    store1: MappingModel,
    counts: Seq<RuleMatchCount>,
)
    requires
        forall|j: int| 0 <= j < entries.len() ==> rule_spans(#[trigger] entries[j].0, t).len() == 0,
        masking_outcome(t, entries, store0, out, store1, counts),
    ensures
        out == t,
        store1 == store0,
        forall|j: int| 0 <= j < counts.len() ==> (#[trigger] counts[j]).count == 0,
{
    lemma_no_spans_no_candidates(t, entries);
    let rules = entries.map_values(|e: (RuleView, int)| e.0);
    let cl = choose|cl: Seq<Cluster>| #[trigger] valid_clustering(candidate_set(t, entries), cl) && (out, store1) == masked(t, cl, rules, store0);
    if cl.len() > 0 {
        reveal(crate::cluster::clusters_won);
        assert(has_winner(candidate_set(t, entries), cl[0]));
        let c = choose|c: Candidate| #[trigger] winning_candidate(candidate_set(t, entries), cl[0], c);
        assert(false);
    }
    assert(t.subrange(0, t.len() as int) =~= t);
    assert forall|j: int| 0 <= j < counts.len() implies (#[trigger] counts[j]).count == 0 by {
        assert(rule_spans(entries[j].0, t).len() == 0);
    }
}

/// Under a sequential rule, two different values seen for the first time, one after the other,
/// get different replacement values: the second takes the next number of the prefix.
pub proof fn law_new_values_get_distinct_replacements(
    store: MappingModel,
    first: Seq<char>,
    second: Seq<char>,
    r: RuleView,
)
    requires
        r.mode == Mode::Sequential,
        r.prefix is Some,
        first != second,
        !store.mapping.contains_key((r.name, first)),
        !store.mapping.contains_key((r.name, second)),
    ensures
        ({
            let (d1, s1) = dummy_for(store, first, r);
            let (d2, s2) = dummy_for(s1, second, r);
            d1 != d2
        }),
{
    let p = r.prefix.unwrap();
    let (d1, s1) = dummy_for(store, first, r);
    let (d2, s2) = dummy_for(s1, second, r);
    let n1 = s1.counters[p];
    let n2 = counter_next(n1);
    assert(d1 == sequential_dummy(p, n1));
    assert(d2 == sequential_dummy(p, n2));
    if d1 == d2 {
        let a = decimal(n1 as nat);
        let b = decimal(n2 as nat);
        lemma_decimal_len(n1 as nat);
        lemma_decimal_len(n2 as nat);
        assert(d1.len() == d2.len());
        assert(a.len() == b.len());
        assert forall|k: int| 0 <= k < a.len() implies a[k] == b[k] by {
            assert(d1[p.len() + k] == a[k]);
            assert(d2[p.len() + k] == b[k]);
        }
        assert(a =~= b);
        lemma_decimal_injective(n1 as nat, n2 as nat);
    }
}

/// Each match of each rule that is run is a candidate of the masking.
proof fn lemma_candidate_in_set(t: Seq<char>, entries: Seq<(RuleView, int)>, j: int, m: int)
    requires
        0 <= j < entries.len(),
        0 <= m < rule_spans(entries[j].0, t).len(),
    ensures
        candidate_set(t, entries).contains(cands_of(t, rule_spans(entries[j].0, t), entries[j].1, j)[m]),
    decreases entries.len(),
{
    let n = entries.len() - 1;
    let c = cands_of(t, rule_spans(entries[j].0, t), entries[j].1, j)[m];
    if j == n {
        let s = cands_of(t, rule_spans(entries.last().0, t), entries.last().1, n);
        assert(s[m] == c);
        assert(s.to_set().contains(c));
    } else {
        assert(entries.drop_last()[j] == entries[j]);
        lemma_candidate_in_set(t, entries.drop_last(), j, m);
    }
}

/// No match slips through: in a masking, every match of every rule that is run lies inside a
/// cluster of the clustering that the masking replaces, whichever rule wins that cluster.
pub proof fn law_every_match_lies_in_a_replaced_cluster(
    t: Seq<char>,
    entries: Seq<(RuleView, int)>,
    store0: MappingModel,
    out: Seq<char>,
    store1: MappingModel,
    counts: Seq<RuleMatchCount>,
    j: int,
    m: int,
)
    requires
        masking_outcome(t, entries, store0, out, store1, counts),
        0 <= j < entries.len(),
        0 <= m < rule_spans(entries[j].0, t).len(),
    ensures
        exists|cl: Seq<Cluster>|
            #[trigger] valid_clustering(candidate_set(t, entries), cl) && (out, store1) == masked(
                t,
                cl,
                entries.map_values(|e: (RuleView, int)| e.0),
                store0,
            ) && exists|i: int|
                0 <= i < cl.len() && within(
                    cands_of(t, rule_spans(entries[j].0, t), entries[j].1, j)[m],
                    #[trigger] cl[i],
                ),
{
    let cs = candidate_set(t, entries);
    let rules = entries.map_values(|e: (RuleView, int)| e.0);
    let cl = choose|cl: Seq<Cluster>| #[trigger] valid_clustering(cs, cl) && (out, store1) == masked(t, cl, rules, store0);
    let c = cands_of(t, rule_spans(entries[j].0, t), entries[j].1, j)[m];
    lemma_candidate_in_set(t, entries, j, m);
    reveal(crate::cluster::clusters_cover);
    assert(cs.contains(c));
    let i = choose|i: int| 0 <= i < cl.len() && within(c, #[trigger] cl[i]);
    assert(valid_clustering(cs, cl));
}

/// Where a candidate comes from: the rule `jm.0` that is run and its match `jm.1`.
proof fn lemma_candidate_origin(t: Seq<char>, entries: Seq<(RuleView, int)>, c: Candidate) -> (jm: (int, int))
    requires
        candidate_set(t, entries).contains(c),
    ensures
        0 <= jm.0 < entries.len(),
        0 <= jm.1 < rule_spans(entries[jm.0].0, t).len(),
        c == cands_of(t, rule_spans(entries[jm.0].0, t), entries[jm.0].1, jm.0)[jm.1],
    decreases entries.len(),
{
    let n = entries.len() - 1;
    let last = entries.last();
    let s = cands_of(t, rule_spans(last.0, t), last.1, n);
    if s.to_set().contains(c) {
        let m = choose|m: int| 0 <= m < s.len() && s[m] == c;
        (n, m)
    } else {
        let r = lemma_candidate_origin(t, entries.drop_last(), c);
        assert(entries.drop_last()[r.0] == entries[r.0]);
        r
    }
}

/// The rules that are run have distinct positions in the profile, and these and their number fit
/// in `usize`.
pub open spec fn positions_distinct(entries: Seq<(RuleView, int)>) -> bool {
    &&& entries.len() <= usize::MAX
    &&& forall|j: int| 0 <= j < entries.len() ==> 0 <= #[trigger] entries[j].1 <= usize::MAX
    &&& forall|j: int, k: int| 0 <= j < k < entries.len() ==> (#[trigger] entries[j]).1 != (#[trigger] entries[k]).1
}

/// Every rule's matches are non-empty ranges of `t`, in order.
pub open spec fn matches_well_formed(t: Seq<char>, entries: Seq<(RuleView, int)>) -> bool {
    &&& t.len() <= usize::MAX
    &&& forall|j: int| 0 <= j < entries.len() ==> spans_ordered(rule_spans(#[trigger] entries[j].0, t), t.len() as int)
}

proof fn lemma_candidate_set_fits(t: Seq<char>, entries: Seq<(RuleView, int)>)
    requires
        positions_distinct(entries),
        matches_well_formed(t, entries),
    ensures
        candidates_non_empty(candidate_set(t, entries)),
        rule_decides_entry(candidate_set(t, entries)),
{
    let cs = candidate_set(t, entries);
    assert forall|c: Candidate| #[trigger] cs.contains(c) implies c.start < c.end by {
        let jm = lemma_candidate_origin(t, entries, c);
        let sp = rule_spans(entries[jm.0].0, t);
        assert(spans_ordered(sp, t.len() as int));
        assert(0 <= sp[jm.1].0 < sp[jm.1].1 <= t.len());
    }
    assert forall|c: Candidate, d: Candidate|
        #[trigger] cs.contains(c) && #[trigger] cs.contains(d) && c.rule_index == d.rule_index implies c.entry
            == d.entry by {
        let jc = lemma_candidate_origin(t, entries, c);
        let jd = lemma_candidate_origin(t, entries, d);
        assert(0 <= entries[jc.0].1 <= usize::MAX);
        assert(0 <= entries[jd.0].1 <= usize::MAX);
        if jc.0 < jd.0 {
            assert(entries[jc.0].1 != entries[jd.0].1);
        } else if jd.0 < jc.0 {
            assert(entries[jd.0].1 != entries[jc.0].1);
        }
    }
}

/// The enabled rules of a profile come at distinct positions, in order, each below the number of
/// rules; so `law_masking_is_deterministic` applies to the masking of any profile.
pub proof fn lemma_enabled_entries_positions(rules: Seq<RuleView>)
    requires
        rules.len() <= usize::MAX,
    ensures
        positions_distinct(enabled_entries(rules)),
        enabled_entries(rules).len() <= rules.len(),
        forall|j: int| 0 <= j < enabled_entries(rules).len() ==> (#[trigger] enabled_entries(rules)[j]).1 < rules.len(),
        forall|j: int, k: int| 0 <= j < k < enabled_entries(rules).len() ==> (#[trigger] enabled_entries(rules)[j]).1 < (#[trigger] enabled_entries(rules)[k]).1,
    decreases rules.len(),
{
    if rules.len() > 0 {
        lemma_enabled_entries_positions(rules.drop_last());
    }
}

/// Masking with a profile's rules is a function of the text, the profile and the store: two
/// outcomes of masking one text from equal stores agree in text, final store and counts. This is
/// what `apply_profile`, `apply_compiled_profile` on the profile compiled once, and the desktop
/// application's `mask_text_with_stores` each ensure of their result, so they agree with each
/// other.
pub proof fn law_profile_masking_is_deterministic(
    t: Seq<char>,
    rules: Seq<RuleView>,
    store0: MappingModel,
    out1: Seq<char>,
    store1: MappingModel,
    counts1: Seq<RuleMatchCount>,
    out2: Seq<char>,
    store2: MappingModel,
    counts2: Seq<RuleMatchCount>,
)
    requires
        rules.len() <= usize::MAX,
        matches_well_formed(t, enabled_entries(rules)),
        masking_outcome(t, enabled_entries(rules), store0, out1, store1, counts1),
        masking_outcome(t, enabled_entries(rules), store0, out2, store2, counts2),
    ensures
        out1 == out2,
        store1 == store2,
        counts1.len() == counts2.len(),
        forall|j: int| 0 <= j < counts1.len() ==> (#[trigger] counts1[j]).rule_name@ == counts2[j].rule_name@
            && counts1[j].count == counts2[j].count,
{
    lemma_enabled_entries_positions(rules);
    law_masking_is_deterministic(t, enabled_entries(rules), store0, out1, store1, counts1, out2, store2, counts2);
}

/// Masking is a function of the text, the rules and the store: two outcomes of one masking have
/// the same text, the same store and the same counts (given rules at distinct positions whose
/// matches are non-empty ranges of the text, as the matchers produce them).
pub proof fn law_masking_is_deterministic(
    t: Seq<char>,
    entries: Seq<(RuleView, int)>,
    store0: MappingModel,
    out1: Seq<char>,
    store1: MappingModel,
    counts1: Seq<RuleMatchCount>,
    out2: Seq<char>,
    store2: MappingModel,
    counts2: Seq<RuleMatchCount>,
)
    requires
        positions_distinct(entries),
        matches_well_formed(t, entries),
        masking_outcome(t, entries, store0, out1, store1, counts1),
        masking_outcome(t, entries, store0, out2, store2, counts2),
    ensures
        out1 == out2,
        store1 == store2,
        counts1.len() == counts2.len(),
        forall|j: int| 0 <= j < counts1.len() ==> (#[trigger] counts1[j]).rule_name@ == counts2[j].rule_name@
            && counts1[j].count == counts2[j].count,
{
    let cs = candidate_set(t, entries);
    let rules = entries.map_values(|e: (RuleView, int)| e.0);
    lemma_candidate_set_fits(t, entries);
    let cl1 = choose|cl: Seq<Cluster>| #[trigger] valid_clustering(cs, cl) && (out1, store1) == masked(t, cl, rules, store0);
    let cl2 = choose|cl: Seq<Cluster>| #[trigger] valid_clustering(cs, cl) && (out2, store2) == masked(t, cl, rules, store0);
    law_clustering_is_unique(cs, cl1, cl2);
}

impl Default for MappingStore {
    fn default() -> (r: MappingStore)
        ensures
            r@.mapping == Map::<(Seq<char>, Seq<char>), Seq<char>>::empty(),
            r@.counters == Map::<Seq<char>, u64>::empty(),
    {
        MappingStore::new()
    }
}

} // verus!
