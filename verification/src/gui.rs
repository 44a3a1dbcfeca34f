//! The decisions behind the desktop application's windows and tray: clearing a copied value
//! from the clipboard, the mapping store kept per profile, the active profile of a list, and the
//! rules that an edit of the active profile weakens.

use vstd::prelude::*;
use crate::masker::{apply_profile, enabled_entries, masking_outcome, matches_well_formed, MappingModel, MappingStore, RuleMatchCount};
use crate::models::{Mode, PatternType, Rule, RuleProfile, RuleView};
use crate::text::str_equal;
use crate::decode::{decode, utf8_lossy};
use vstd::utf8::{decode_utf8, valid_utf8};

verus! {

// ---------------------------------------------------------------------------------------------
// Clipboard
// ---------------------------------------------------------------------------------------------
/// What clearing a copied value from the clipboard did.
#[derive(Debug, Clone, Copy, PartialEq, Eq, Structural)]
pub enum ClipboardClearOutcome {
    Cleared,
    SkippedContentChanged,
    SkippedUnableToVerify,
}

/// Whether the clipboard may be cleared: only while it still holds the copied value. When its
/// content could not be read (`None`), nothing is cleared.
pub fn decide_outcome(current: Option<&str>, expected: &str) -> (r: ClipboardClearOutcome)
    ensures
        r == (match current {
            Some(text) => if text@ == expected@ {
                ClipboardClearOutcome::Cleared
            } else {
                ClipboardClearOutcome::SkippedContentChanged
            },
            None => ClipboardClearOutcome::SkippedUnableToVerify,
        }),
{
    match current {
        Some(text) => if str_equal(text, expected) {
            ClipboardClearOutcome::Cleared
        } else {
            ClipboardClearOutcome::SkippedContentChanged
        },
        None => ClipboardClearOutcome::SkippedUnableToVerify,
    }
}

/// Whether the copied value stops being tracked: once it is cleared or known to be gone, and
/// only if what is tracked is still this value (not a newer copy).
pub fn should_forget_pending(
    outcome: ClipboardClearOutcome,
    pending: Option<&str>,
    expected: &str,
) -> (r: bool)
    ensures
        r == (outcome != ClipboardClearOutcome::SkippedUnableToVerify && pending.deep_view() == Some(
            expected@,
        )),
{
    if outcome == ClipboardClearOutcome::SkippedUnableToVerify {
        return false;
    }
    match pending {
        Some(p) => str_equal(p, expected),
        None => false,
    }
}

// ---------------------------------------------------------------------------------------------
// Profile summaries
// ---------------------------------------------------------------------------------------------
/// One line of the profile list.
#[derive(Debug, Clone, PartialEq)]
pub struct ProfileSummary {
    pub id: i64,
    pub name: String,
    pub rule_count: usize,
    /// Profiles with rules of which none is enabled mask nothing; this count shows it.
    pub enabled_rule_count: usize,
    pub is_favorite: bool,
    pub is_active: bool,
    pub updated_at: String,
    pub tags: Vec<String>,
}

/// The first profile of the list that is active (the store keeps at most one active).
pub fn find_active_profile(profiles: &[ProfileSummary]) -> (r: Option<&ProfileSummary>)
    ensures
        match r {
            Some(p) => exists|i: int|
                0 <= i < profiles@.len() && profiles@[i] == *p && p.is_active && forall|j: int|
                    0 <= j < i ==> !(#[trigger] profiles@[j]).is_active,
            None => forall|j: int| 0 <= j < profiles@.len() ==> !(#[trigger] profiles@[j]).is_active,
        },
{
    let mut i: usize = 0;
    while i < profiles.len()
        invariant
            i <= profiles@.len(),
            forall|j: int| 0 <= j < i ==> !(#[trigger] profiles@[j]).is_active,
        decreases profiles@.len() - i,
    {
        if profiles[i].is_active {
            return Some(&profiles[i]);
        }
        i += 1;
    }
    None
}

// ---------------------------------------------------------------------------------------------
// Mapping stores per profile
// ---------------------------------------------------------------------------------------------
/// One mapping store per profile id, kept across calls so that sequential numbering stays
/// consistent within a profile.
pub struct MaskingState {
    stores: Vec<(String, MappingStore)>,
}

pub open spec fn ids_distinct(list: Seq<(String, MappingStore)>) -> bool {
    forall|i: int, j: int|
        0 <= i < j < list.len() ==> #[trigger] list[i].0@ != #[trigger] list[j].0@
}

pub open spec fn has_id(list: Seq<(String, MappingStore)>, id: Seq<char>) -> bool {
    exists|i: int| 0 <= i < list.len() && list[i].0@ == id
}

pub open spec fn stores_view(list: Seq<(String, MappingStore)>) -> Map<Seq<char>, MappingModel> {
    Map::new(
        |id: Seq<char>| has_id(list, id),
        |id: Seq<char>|
            {
                let i = choose|i: int| 0 <= i < list.len() && list[i].0@ == id;
                list[i].1@
            },
    )
}

proof fn lemma_stores_view_at(list: Seq<(String, MappingStore)>, i: int)
    requires
        ids_distinct(list),
        0 <= i < list.len(),
    ensures
        stores_view(list).dom().contains(list[i].0@),
        stores_view(list)[list[i].0@] == list[i].1@,
{
    let id = list[i].0@;
    assert(has_id(list, id));
    let k = choose|k: int| 0 <= k < list.len() && list[k].0@ == id;
    if k != i {
        if k < i {
            assert(list[k].0@ != list[i].0@);
        } else {
            assert(list[i].0@ != list[k].0@);
        }
    }
}

impl View for MaskingState {
    type V = Map<Seq<char>, MappingModel>;

    closed spec fn view(&self) -> Map<Seq<char>, MappingModel> {
        stores_view(self.stores@)
    }
}

/// The count of matches of one rule, as the window shows it.
#[derive(Debug, Clone, PartialEq, Eq)]
pub struct MatchCountDto {
    pub rule_name: String,
    pub count: usize,
}

/// The masked text and the counts of matches.
#[derive(Debug, Clone, PartialEq, Eq)]
pub struct MaskTextResult {
    pub text: String,
    pub match_counts: Vec<MatchCountDto>,
}

pub open spec fn empty_model() -> MappingModel {
    MappingModel {
        mapping: Map::<(Seq<char>, Seq<char>), Seq<char>>::empty(),
        counters: Map::<Seq<char>, u64>::empty(),
    }
}

impl MaskingState {
    /// Ids are distinct.
    #[verifier::type_invariant]
    spec fn inv(self) -> bool {
        ids_distinct(self.stores@)
    }

    pub fn new() -> (r: MaskingState)
        ensures
            r@ == Map::<Seq<char>, MappingModel>::empty(),
    {
        let r = MaskingState { stores: Vec::new() };
        assert(r@ =~= Map::<Seq<char>, MappingModel>::empty());
        r
    }

    fn position(&self, profile_id: &str) -> (r: Option<usize>)
        ensures
            match r {
                Some(i) => i < self.stores@.len() && self.stores@[i as int].0@ == profile_id@,
                None => forall|i: int| 0 <= i < self.stores@.len() ==> self.stores@[i].0@ != profile_id@,
            },
    {
        let mut i: usize = 0;
        while i < self.stores.len()
            invariant
                i <= self.stores@.len(),
                forall|k: int| 0 <= k < i ==> self.stores@[k].0@ != profile_id@,
            decreases self.stores@.len() - i,
        {
            if str_equal(self.stores[i].0.as_str(), profile_id) {
                return Some(i);
            }
            i += 1;
        }
        None
    }

    /// Forgets the store of `profile_id` (the replacement table holds the real values).
    pub fn remove(&mut self, profile_id: &str)
        ensures
            final(self)@ == old(self)@.remove(profile_id@),
    {
        proof {
            use_type_invariant(&*self);
        }
        match self.position(profile_id) {
            None => {
                assert(self@ =~= old(self)@.remove(profile_id@));
            },
            Some(i) => {
                let mut stores: Vec<(String, MappingStore)> = Vec::new();
                std::mem::swap(&mut stores, &mut self.stores);
                let ghost before = stores@;
                let _ = stores.remove(i);
                assert forall|a: int, b: int|
                    0 <= a < b < stores@.len() implies #[trigger] stores@[a].0@ != #[trigger] stores@[b].0@ by {
                    let a0 = if a < i { a } else { a + 1 };
                    let b0 = if b < i { b } else { b + 1 };
                    assert(stores@[a] == before[a0]);
                    assert(stores@[b] == before[b0]);
                }
                self.stores = stores;
                proof {
                    let m = self@;
                    let o = old(self)@;
                    assert forall|id: Seq<char>| #[trigger] m.dom().contains(id) <==> o.remove(profile_id@).dom().contains(id) by {
                        if m.dom().contains(id) {
                            let k = choose|k: int| 0 <= k < self.stores@.len() && self.stores@[k].0@ == id;
                            let k0 = if k < i { k } else { k + 1 };
                            assert(before[k0] == self.stores@[k]);
                        }
                        if o.remove(profile_id@).dom().contains(id) {
                            let k = choose|k: int| 0 <= k < before.len() && before[k].0@ == id;
                            assert(k != i);
                            let k1 = if k < i { k } else { k - 1 };
                            assert(self.stores@[k1] == before[k]);
                        }
                    }
                    assert forall|id: Seq<char>| #[trigger] m.dom().contains(id) implies m[id] == o[id] by {
                        let k = choose|k: int| 0 <= k < self.stores@.len() && self.stores@[k].0@ == id;
                        let k0 = if k < i { k } else { k + 1 };
                        assert(before[k0] == self.stores@[k]);
                        let kk = choose|kk: int| 0 <= kk < before.len() && before[kk].0@ == id;
                        assert(kk == k0);
                    }
                    assert(m =~= o.remove(profile_id@));
                }
            },
        }
    }
}

pub open spec fn count_views(counts: Seq<MatchCountDto>) -> Seq<(Seq<char>, usize)> {
    counts.map_values(|c: MatchCountDto| (c.rule_name@, c.count))
}

pub open spec fn rule_count_views(counts: Seq<RuleMatchCount>) -> Seq<(Seq<char>, usize)> {
    counts.map_values(|c: RuleMatchCount| (c.rule_name@, c.count))
}

/// Masks `text` with `profile`, using (and creating, the first time) the store of `profile_id`;
/// the stores of other profiles are left as they are.
pub fn mask_text_with_stores(
    stores: &mut MaskingState,
    profile_id: String,
    profile: &RuleProfile,
    text: &str,
) -> (r: MaskTextResult)
    ensures
        final(stores)@.dom() == old(stores)@.dom().insert(profile_id@),
        forall|id: Seq<char>|
            #[trigger] old(stores)@.dom().contains(id) && id != profile_id@ ==> final(stores)@[id]
                == old(stores)@[id],
        exists|counts: Seq<RuleMatchCount>|
            masking_outcome(
                text@,
                enabled_entries(profile@.rules),
                if old(stores)@.dom().contains(profile_id@) {
                    old(stores)@[profile_id@]
                } else {
                    empty_model()
                },
                r.text@,
                final(stores)@[profile_id@],
                counts,
            ) && count_views(r.match_counts@) == rule_count_views(counts),
        matches_well_formed(text@, enabled_entries(profile@.rules)),
{
    proof {
        use_type_invariant(&*stores);
    }
    let ghost id = profile_id@;
    let mut list: Vec<(String, MappingStore)> = Vec::new();
    std::mem::swap(&mut list, &mut stores.stores);
    let ghost before = list@;
    let pos = match stores_position(&list, profile_id.as_str()) {
        Some(i) => i,
        None => {
            list.push((profile_id, MappingStore::new()));
            proof {
                assert forall|a: int, b: int|
                    0 <= a < b < list@.len() implies #[trigger] list@[a].0@ != #[trigger] list@[b].0@ by {
                    if b < before.len() {
                        assert(before[a].0@ != before[b].0@);
                    } else {
                        assert(list@[a] == before[a]);
                    }
                }
            }
            list.len() - 1
        },
    };
    let ghost mid = list@;
    proof {
        lemma_stores_view_at(mid, pos as int);
        if stores_view(before).dom().contains(id) {
            let k = choose|k: int| 0 <= k < before.len() && before[k].0@ == id;
            lemma_stores_view_at(before, k);
            if pos as int != k {
                assert(mid[k] == before[k]);
                if k < pos {
                    assert(mid[k].0@ != mid[pos as int].0@);
                } else {
                    assert(mid[pos as int].0@ != mid[k].0@);
                }
            }
        } else {
            assert(pos == before.len());
            assert(mid[pos as int].1@.mapping =~= empty_model().mapping);
            assert(mid[pos as int].1@.counters =~= empty_model().counters);
        }
    }
    let (entry_id, mut store) = list.remove(pos);
    let ghost store0 = store@;
    let (masked_text, counts) = apply_profile(text, profile, &mut store);
    list.insert(pos, (entry_id, store));
    let ghost after = list@;
    proof {
        assert(after =~= mid.update(pos as int, after[pos as int]));
        assert(after[pos as int].0@ == id);
        assert forall|a: int, b: int|
            0 <= a < b < after.len() implies #[trigger] after[a].0@ != #[trigger] after[b].0@ by {
            assert(after[a].0@ == mid[a].0@);
            assert(after[b].0@ == mid[b].0@);
        }
        lemma_stores_view_at(after, pos as int);
        assert forall|x: Seq<char>| has_id(after, x) <==> (has_id(before, x) || x == id) by {
            if has_id(after, x) {
                let k = choose|k: int| 0 <= k < after.len() && after[k].0@ == x;
                if k < before.len() && k != pos {
                    assert(before[k] == mid[k]);
                }
            }
            if has_id(before, x) {
                let k = choose|k: int| 0 <= k < before.len() && before[k].0@ == x;
                assert(mid[k] == before[k]);
                assert(after[k].0@ == mid[k].0@);
            }
        }
        assert forall|x: Seq<char>|
            #[trigger] stores_view(before).dom().contains(x) && x != id implies stores_view(after)[x]
                == stores_view(before)[x] by {
            let k = choose|k: int| 0 <= k < before.len() && before[k].0@ == x;
            lemma_stores_view_at(before, k);
            assert(mid[k] == before[k]);
            assert(k != pos);
            assert(after[k] == mid[k]);
            lemma_stores_view_at(after, k);
        }
        assert(stores_view(after).dom() =~= stores_view(before).dom().insert(id));
    }
    stores.stores = list;
    let mut match_counts: Vec<MatchCountDto> = Vec::new();
    let mut k: usize = 0;
    while k < counts.len()
        invariant
            k <= counts@.len(),
            match_counts@.len() == k,
            forall|j: int| 0 <= j < k ==> (#[trigger] match_counts@[j]).rule_name@ == counts@[j].rule_name@
                && match_counts@[j].count == counts@[j].count,
        decreases counts@.len() - k,
    {
        match_counts.push(MatchCountDto { rule_name: counts[k].rule_name.clone(), count: counts[k].count });
        k += 1;
    }
    assert(count_views(match_counts@) =~= rule_count_views(counts@));
    MaskTextResult { text: masked_text, match_counts }
}

fn stores_position(list: &Vec<(String, MappingStore)>, profile_id: &str) -> (r: Option<usize>)
    ensures
        match r {
            Some(i) => i < list@.len() && list@[i as int].0@ == profile_id@,
            None => forall|i: int| 0 <= i < list@.len() ==> list@[i].0@ != profile_id@,
        },
{
    let mut i: usize = 0;
    while i < list.len()
        invariant
            i <= list@.len(),
            forall|k: int| 0 <= k < i ==> list@[k].0@ != profile_id@,
        decreases list@.len() - i,
    {
        if str_equal(list[i].0.as_str(), profile_id) {
            return Some(i);
        }
        i += 1;
    }
    None
}

// ---------------------------------------------------------------------------------------------
// Weakened rules
// ---------------------------------------------------------------------------------------------
/// `b` is enabled and masks as `a` does: same kind of pattern, pattern, mode, fixed value and
/// prefix (the name and the description do not change what is masked).
pub open spec fn content_matches(a: RuleView, b: RuleView) -> bool {
    &&& b.enabled
    &&& b.pattern_type == a.pattern_type
    &&& b.pattern == a.pattern
    &&& b.mode == a.mode
    &&& b.fixed_value == a.fixed_value
    &&& b.prefix == a.prefix
}

fn opt_str_equal(a: Option<&str>, b: Option<&str>) -> (r: bool)
    ensures
        r == (a.deep_view() == b.deep_view()),
{
    match (a, b) {
        (Some(x), Some(y)) => str_equal(x, y),
        (None, None) => true,
        _ => false,
    }
}

pub fn rules_match_content(a: &Rule, b: &Rule) -> (r: bool)
    ensures
        r == content_matches(a@, b@),
{
    b.enabled() && b.pattern_type() == a.pattern_type() && str_equal(b.pattern(), a.pattern())
        && b.mode() == a.mode() && opt_str_equal(b.fixed_value(), a.fixed_value()) && opt_str_equal(
        b.prefix(),
        a.prefix(),
    )
}

/// The enabled rules of `rs`, in order.
pub open spec fn enabled_rules(rs: Seq<RuleView>) -> Seq<RuleView>
    decreases rs.len(),
{
    if rs.len() == 0 {
        Seq::empty()
    } else if rs.last().enabled {
        enabled_rules(rs.drop_last()).push(rs.last())
    } else {
        enabled_rules(rs.drop_last())
    }
}

/// The index of the first rule of `rem` that matches the content of `o` (and, when `by_name`,
/// also has its name), or `rem.len()`.
pub open spec fn first_match(rem: Seq<RuleView>, o: RuleView, by_name: bool) -> nat
    decreases rem.len(),
{
    if rem.len() == 0 {
        0
    } else if (!by_name || rem[0].name == o.name) && content_matches(o, rem[0]) {
        0
    } else {
        1 + first_match(rem.drop_first(), o, by_name)
    }
}

/// Each old rule in turn takes the first remaining new rule with its name and content; it
/// gives the old rules that found none, and the new rules left.
pub open spec fn match_by_name(olds: Seq<RuleView>, rem: Seq<RuleView>) -> (Seq<RuleView>, Seq<RuleView>)
    decreases olds.len(),
{
    if olds.len() == 0 {
        (Seq::empty(), rem)
    } else {
        let (u, r) = match_by_name(olds.drop_last(), rem);
        let o = olds.last();
        let i = first_match(r, o, true);
        if i < r.len() {
            (u, r.remove(i as int))
        } else {
            (u.push(o), r)
        }
    }
}

/// Each old rule left in turn takes the first remaining new rule with its content, whatever
/// its name; it gives the names of the old rules that found none.
pub open spec fn match_by_content(olds: Seq<RuleView>, rem: Seq<RuleView>) -> (Seq<Seq<char>>, Seq<RuleView>)
    decreases olds.len(),
{
    if olds.len() == 0 {
        (Seq::empty(), rem)
    } else {
        let (names, r) = match_by_content(olds.drop_last(), rem);
        let o = olds.last();
        let i = first_match(r, o, false);
        if i < r.len() {
            (names, r.remove(i as int))
        } else {
            (names.push(o.name), r)
        }
    }
}

/// The names of the rules enabled before an edit whose way of masking no enabled rule keeps
/// after it. Rules are matched one for one by content, those of the same name first, so that of
/// two rules with one content, the one that is gone is the one reported.
pub open spec fn weakened_names(before: Seq<RuleView>, after: Seq<RuleView>) -> Seq<Seq<char>> {
    let (u, r) = match_by_name(enabled_rules(before), enabled_rules(after));
    match_by_content(u, r).0
}

proof fn lemma_first_match_props(rem: Seq<RuleView>, o: RuleView, by_name: bool)
    ensures
        first_match(rem, o, by_name) <= rem.len(),
        first_match(rem, o, by_name) < rem.len() ==> content_matches(o, rem[first_match(rem, o, by_name) as int]),
    decreases rem.len(),
{
    if rem.len() > 0 && !((!by_name || rem[0].name == o.name) && content_matches(o, rem[0])) {
        lemma_first_match_props(rem.drop_first(), o, by_name);
        let f = first_match(rem.drop_first(), o, by_name);
        if f < rem.drop_first().len() {
            assert(rem.drop_first()[f as int] == rem[f as int + 1]);
        }
    }
}

proof fn lemma_enabled_rules_members(rs: Seq<RuleView>)
    ensures
        forall|x: RuleView| #[trigger] enabled_rules(rs).contains(x) ==> rs.contains(x),
        forall|i: int| 0 <= i < rs.len() && (#[trigger] rs[i]).enabled ==> enabled_rules(rs).contains(rs[i]),
    decreases rs.len(),
{
    if rs.len() > 0 {
        let p = rs.drop_last();
        lemma_enabled_rules_members(p);
        assert forall|x: RuleView| #[trigger] enabled_rules(rs).contains(x) implies rs.contains(x) by {
            let k = choose|k: int| 0 <= k < enabled_rules(rs).len() && enabled_rules(rs)[k] == x;
            if rs.last().enabled && k == enabled_rules(p).len() {
                assert(rs[rs.len() - 1] == x);
            } else {
                assert(enabled_rules(rs)[k] == enabled_rules(p)[k]);
                assert(enabled_rules(p).contains(x));
                let m = choose|m: int| 0 <= m < p.len() && p[m] == x;
                assert(rs[m] == x);
            }
        }
        assert forall|i: int| 0 <= i < rs.len() && (#[trigger] rs[i]).enabled implies enabled_rules(rs).contains(rs[i]) by {
            if i == rs.len() - 1 {
                assert(enabled_rules(rs)[enabled_rules(p).len() as int] == rs[i]);
            } else {
                assert(p[i] == rs[i]);
                assert(enabled_rules(p).contains(p[i]));
                let k = choose|k: int| 0 <= k < enabled_rules(p).len() && enabled_rules(p)[k] == p[i];
                assert(enabled_rules(rs)[k] == enabled_rules(p)[k]);
            }
        }
    }
}

proof fn lemma_remove_members(r: Seq<RuleView>, i: int)
    requires
        0 <= i < r.len(),
    ensures
        forall|x: RuleView| #[trigger] r.remove(i).contains(x) ==> r.contains(x),
{
    assert forall|x: RuleView| #[trigger] r.remove(i).contains(x) implies r.contains(x) by {
        let k = choose|k: int| 0 <= k < r.remove(i).len() && r.remove(i)[k] == x;
        if k < i {
            assert(r[k] == x);
        } else {
            assert(r[k + 1] == x);
        }
    }
}

/// What matching by name leaves of `rem` are rules of `rem`, and an old rule that no rule of
/// `rem` matches in content is left unmatched.
proof fn lemma_match_by_name_keeps(olds: Seq<RuleView>, rem: Seq<RuleView>)
    ensures
        forall|x: RuleView| #[trigger] match_by_name(olds, rem).1.contains(x) ==> rem.contains(x),
        forall|k: int|
            0 <= k < olds.len() && (forall|j: int| 0 <= j < rem.len() ==> !content_matches(olds[k], #[trigger] rem[j]))
                ==> match_by_name(olds, rem).0.contains(#[trigger] olds[k]),
    decreases olds.len(),
{
    if olds.len() > 0 {
        let p = olds.drop_last();
        lemma_match_by_name_keeps(p, rem);
        let (u, r) = match_by_name(p, rem);
        let o = olds.last();
        lemma_first_match_props(r, o, true);
        let i = first_match(r, o, true);
        if i < r.len() {
            lemma_remove_members(r, i as int);
        }
        assert forall|k: int|
            0 <= k < olds.len() && (forall|j: int| 0 <= j < rem.len() ==> !content_matches(olds[k], #[trigger] rem[j]))
                implies match_by_name(olds, rem).0.contains(#[trigger] olds[k]) by {
            if k < olds.len() - 1 {
                assert(p[k] == olds[k]);
                assert(u.contains(p[k]));
                let m = choose|m: int| 0 <= m < u.len() && u[m] == p[k];
                if i >= r.len() {
                    assert(u.push(o)[m] == u[m]);
                }
            } else {
                if i < r.len() {
                    assert(r.contains(r[i as int]));
                    let j = choose|j: int| 0 <= j < rem.len() && rem[j] == r[i as int];
                    assert(!content_matches(olds[k], rem[j]));
                }
                assert(u.push(o)[u.len() as int] == o);
            }
        }
    }
}

/// An old rule that no rule of `rem` matches in content gives its name.
proof fn lemma_match_by_content_reports(olds: Seq<RuleView>, rem: Seq<RuleView>)
    ensures
        forall|k: int|
            0 <= k < olds.len() && (forall|j: int| 0 <= j < rem.len() ==> !content_matches(olds[k], #[trigger] rem[j]))
                ==> match_by_content(olds, rem).0.contains(#[trigger] olds[k].name),
        forall|x: RuleView| #[trigger] match_by_content(olds, rem).1.contains(x) ==> rem.contains(x),
    decreases olds.len(),
{
    if olds.len() > 0 {
        let p = olds.drop_last();
        lemma_match_by_content_reports(p, rem);
        let (names, r) = match_by_content(p, rem);
        let o = olds.last();
        lemma_first_match_props(r, o, false);
        let i = first_match(r, o, false);
        if i < r.len() {
            lemma_remove_members(r, i as int);
        }
        assert forall|k: int|
            0 <= k < olds.len() && (forall|j: int| 0 <= j < rem.len() ==> !content_matches(olds[k], #[trigger] rem[j]))
                implies match_by_content(olds, rem).0.contains(#[trigger] olds[k].name) by {
            if k < olds.len() - 1 {
                assert(p[k] == olds[k]);
                assert(names.contains(p[k].name));
                let m = choose|m: int| 0 <= m < names.len() && names[m] == p[k].name;
                if i >= r.len() {
                    assert(names.push(o.name)[m] == names[m]);
                }
            } else {
                if i < r.len() {
                    assert(r.contains(r[i as int]));
                    let j = choose|j: int| 0 <= j < rem.len() && rem[j] == r[i as int];
                    assert(!content_matches(olds[k], rem[j]));
                }
                assert(names.push(o.name)[names.len() as int] == o.name);
            }
        }
    }
}

/// An edit that takes away a rule's way of masking is reported: when a rule enabled before the
/// edit has no enabled rule after it with the same kind of pattern, the same pattern, the same
/// mode and the same fixed value and prefix, its name is among the weakened ones, whatever the
/// other rules are called or how they moved.
pub proof fn law_a_rule_whose_masking_is_gone_is_reported(before: Seq<RuleView>, after: Seq<RuleView>, i: int)
    requires
        0 <= i < before.len(),
        before[i].enabled,
        forall|j: int|
            0 <= j < after.len() && (#[trigger] after[j]).enabled ==> !(after[j].pattern_type
                == before[i].pattern_type && after[j].pattern == before[i].pattern && after[j].mode
                == before[i].mode && after[j].fixed_value == before[i].fixed_value && after[j].prefix
                == before[i].prefix),
    ensures
        weakened_names(before, after).contains(before[i].name),
{
    let o = before[i];
    let olds = enabled_rules(before);
    let news = enabled_rules(after);
    lemma_enabled_rules_members(before);
    lemma_enabled_rules_members(after);
    assert(olds.contains(o));
    let k = choose|k: int| 0 <= k < olds.len() && olds[k] == o;
    assert forall|j: int| 0 <= j < news.len() implies !content_matches(olds[k], #[trigger] news[j]) by {
        assert(news.contains(news[j]));
        let m = choose|m: int| 0 <= m < after.len() && after[m] == news[j];
    }
    lemma_match_by_name_keeps(olds, news);
    let (u, r) = match_by_name(olds, news);
    assert(u.contains(olds[k]));
    let ku = choose|ku: int| 0 <= ku < u.len() && u[ku] == o;
    assert forall|j: int| 0 <= j < r.len() implies !content_matches(u[ku], #[trigger] r[j]) by {
        assert(r.contains(r[j]));
        let m = choose|m: int| 0 <= m < news.len() && news[m] == r[j];
        assert(!content_matches(olds[k], news[m]));
    }
    lemma_match_by_content_reports(u, r);
    assert(match_by_content(u, r).0.contains(u[ku].name));
}

pub open spec fn idx_views(idxs: Seq<usize>, rules: Seq<RuleView>) -> Seq<RuleView> {
    idxs.map_values(|k: usize| rules[k as int])
}

pub open spec fn idxs_in(idxs: Seq<usize>, n: nat) -> bool {
    forall|k: int| 0 <= k < idxs.len() ==> (#[trigger] idxs[k]) < n
}

fn enabled_indices(rules: &[Rule]) -> (r: Vec<usize>)
    ensures
        idxs_in(r@, rules@.len()),
        idx_views(r@, rules@.map_values(|x: Rule| x@)) == enabled_rules(rules@.map_values(|x: Rule| x@)),
{
    let ghost rv = rules@.map_values(|x: Rule| x@);
    let mut out: Vec<usize> = Vec::new();
    let mut i: usize = 0;
    while i < rules.len()
        invariant
            i <= rules@.len(),
            rv == rules@.map_values(|x: Rule| x@),
            idxs_in(out@, rules@.len()),
            idx_views(out@, rv) == enabled_rules(rv.take(i as int)),
        decreases rules@.len() - i,
    {
        assert(rv.take(i + 1).drop_last() =~= rv.take(i as int));
        let ghost prev = out@;
        if rules[i].enabled() {
            out.push(i);
            assert(idx_views(out@, rv) =~= idx_views(prev, rv).push(rv[i as int]));
        }
        i += 1;
    }
    assert(rv.take(rules@.len() as int) =~= rv);
    out
}

proof fn lemma_first_match(rem: Seq<RuleView>, o: RuleView, by_name: bool, k: nat)
    requires
        k <= rem.len(),
        forall|j: int| 0 <= j < k ==> !((!by_name || (#[trigger] rem[j]).name == o.name) && content_matches(o, rem[j])),
        k < rem.len() ==> (!by_name || rem[k as int].name == o.name) && content_matches(o, rem[k as int]),
    ensures
        first_match(rem, o, by_name) == k,
    decreases k,
{
    if k > 0 {
        assert forall|j: int| 0 <= j < k - 1 implies !((!by_name || (#[trigger] rem.drop_first()[j]).name == o.name) && content_matches(o, rem.drop_first()[j])) by {
            assert(rem.drop_first()[j] == rem[j + 1]);
        }
        if (k as int) < rem.len() {
            assert(rem.drop_first()[k - 1] == rem[k as int]);
        }
        assert(!((!by_name || rem[0].name == o.name) && content_matches(o, rem[0])));
        lemma_first_match(rem.drop_first(), o, by_name, (k - 1) as nat);
    }
}

/// Finds, among the rules `after[remaining[..]]`, the first that matches `o` (by name and
/// content, or by content alone).
fn find_match(o: &Rule, after: &[Rule], remaining: &Vec<usize>, by_name: bool) -> (r: usize)
    requires
        idxs_in(remaining@, after@.len()),
    ensures
        r == first_match(idx_views(remaining@, after@.map_values(|x: Rule| x@)), o@, by_name),
{
    let ghost av = after@.map_values(|x: Rule| x@);
    let ghost rem = idx_views(remaining@, av);
    let mut p: usize = 0;
    while p < remaining.len()
        invariant
            p <= remaining@.len(),
            idxs_in(remaining@, after@.len()),
            av == after@.map_values(|x: Rule| x@),
            rem == idx_views(remaining@, av),
            forall|j: int| 0 <= j < p ==> !((!by_name || (#[trigger] rem[j]).name == o@.name) && content_matches(o@, rem[j])),
        decreases remaining@.len() - p,
    {
        let candidate = &after[remaining[p]];
        assert(rem[p as int] == candidate@);
        let same_name = !by_name || str_equal(candidate.name(), o.name());
        if same_name && rules_match_content(o, candidate) {
            proof {
                lemma_first_match(rem, o@, by_name, p as nat);
            }
            return p;
        }
        p += 1;
    }
    proof {
        lemma_first_match(rem, o@, by_name, p as nat);
    }
    p
}

/// The names of the rules that an edit from `before` to `after` weakens (see `weakened_names`).
pub fn weakened_rule_names(before: &RuleProfile, after: &RuleProfile) -> (r: Vec<String>)
    ensures
        r@.map_values(|s: String| s@) == weakened_names(before@.rules, after@.rules),
{
    let before_rules = before.rules();
    let after_rules = after.rules();
    let ghost bv = before_rules@.map_values(|x: Rule| x@);
    let ghost av = after_rules@.map_values(|x: Rule| x@);
    let mut remaining = enabled_indices(after_rules);
    let enabled_before = enabled_indices(before_rules);
    let ghost rem0 = idx_views(remaining@, av);
    let ghost olds = idx_views(enabled_before@, bv);
    let mut unresolved: Vec<usize> = Vec::new();
    let mut j: usize = 0;
    while j < enabled_before.len()
        invariant
            j <= enabled_before@.len(),
            bv == before_rules@.map_values(|x: Rule| x@),
            av == after_rules@.map_values(|x: Rule| x@),
            idxs_in(enabled_before@, before_rules@.len()),
            idxs_in(remaining@, after_rules@.len()),
            idxs_in(unresolved@, before_rules@.len()),
            olds == idx_views(enabled_before@, bv),
            (idx_views(unresolved@, bv), idx_views(remaining@, av)) == match_by_name(olds.take(j as int), rem0),
        decreases enabled_before@.len() - j,
    {
        let o = &before_rules[enabled_before[j]];
        assert(olds.take(j + 1).drop_last() =~= olds.take(j as int));
        assert(olds.take(j + 1).last() == o@);
        let p = find_match(o, after_rules, &remaining, true);
        let ghost prev_rem = remaining@;
        let ghost prev_un = unresolved@;
        if p < remaining.len() {
            remaining.remove(p);
            assert(idx_views(remaining@, av) =~= idx_views(prev_rem, av).remove(p as int));
        } else {
            unresolved.push(enabled_before[j]);
            assert(idx_views(unresolved@, bv) =~= idx_views(prev_un, bv).push(o@));
        }
        j += 1;
    }
    assert(olds.take(enabled_before@.len() as int) =~= olds);
    let ghost us = idx_views(unresolved@, bv);
    let ghost rem1 = idx_views(remaining@, av);
    let mut names: Vec<String> = Vec::new();
    let mut k: usize = 0;
    while k < unresolved.len()
        invariant
            k <= unresolved@.len(),
            bv == before_rules@.map_values(|x: Rule| x@),
            av == after_rules@.map_values(|x: Rule| x@),
            idxs_in(remaining@, after_rules@.len()),
            idxs_in(unresolved@, before_rules@.len()),
            us == idx_views(unresolved@, bv),
            (names@.map_values(|s: String| s@), idx_views(remaining@, av)) == match_by_content(us.take(k as int), rem1),
        decreases unresolved@.len() - k,
    {
        let o = &before_rules[unresolved[k]];
        assert(us.take(k + 1).drop_last() =~= us.take(k as int));
        assert(us.take(k + 1).last() == o@);
        let p = find_match(o, after_rules, &remaining, false);
        let ghost prev_rem = remaining@;
        let ghost prev_names = names@;
        if p < remaining.len() {
            remaining.remove(p);
            assert(idx_views(remaining@, av) =~= idx_views(prev_rem, av).remove(p as int));
        } else {
            names.push(o.name().to_owned());
            assert(names@.map_values(|s: String| s@) =~= prev_names.map_values(|s: String| s@).push(o@.name));
        }
        k += 1;
    }
    assert(us.take(unresolved@.len() as int) =~= us);
    names
}

// ---------------------------------------------------------------------------------------------
// Text files
// ---------------------------------------------------------------------------------------------
/// A text file as the main window shows it: its text, read as UTF-8, and whether bytes that are
/// not UTF-8 were replaced (values in them may then stay unmasked).
#[derive(Debug, PartialEq, Eq)]
pub struct ReadTextFileResult {
    pub text: String,
    pub had_invalid_utf8: bool,
}

/// The text of a file's bytes: a read does not stop at bytes that are not UTF-8, it replaces them
/// and says so.
pub fn read_text_file_result(bytes: &[u8]) -> (r: ReadTextFileResult)
    ensures
        r.text@ == utf8_lossy(bytes@),
        r.had_invalid_utf8 == !valid_utf8(bytes@),
        valid_utf8(bytes@) ==> r.text@ == decode_utf8(bytes@),
{
    let (text, had_invalid_utf8) = decode(bytes, None);
    ReadTextFileResult { text, had_invalid_utf8 }
}

} // verus!
