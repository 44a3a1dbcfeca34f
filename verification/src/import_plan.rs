//! The decisions of importing exported profiles into a store: which payloads are accepted, what
//! the imported profiles are called, and which profile becomes active. The store itself (the
//! database and its key) lives with the application; it hands these functions the names it holds
//! and whether a profile is active.

use vstd::prelude::*;
use crate::bulk::{
    ExportPayload, ExportedProfile, ExportedProfileView, is_resolved_name, resolve_name,
    StringHashSet, CURRENT_FORMAT_VERSION,
};
use crate::models::{
    first_duplicate, first_duplicate_from, lemma_distinct_extend, lemma_first_duplicate_from,
    names_distinct, clone_opt_string, profile_error_message, RuleProfile, RuleProfileError,
    RuleProfileView, Rule, display_name_check, display_name_ok,
};
use crate::text::{push_str_chars, str_equal};

verus! {

/// The errors of the store's rules (not those of its database, key file or paths).
#[derive(Debug)]
pub enum ProfileStoreError {
    NotInitialized,
    PartiallyInitialized { key_exists: bool, db_exists: bool, key_path: String, db_path: String },
    ProfileAlreadyExists(String),
    ProfileNotFound(String),
    CannotDeleteActiveProfile,
    CorruptProfileData(String),
    UnsupportedFormatVersion { found: u32, supported: u32 },
    DuplicateNameInImportFile(String),
    ImportTooLarge(String),
    TagAlreadyExists(String),
    TagNotFound(String),
    InvalidTagName(String),
    InvalidProfileName(String),
}

/// Whether the store is initialised, given whether its key file and its database exist: both
/// or neither, else the store is half made and nothing is touched.
pub fn is_initialized_at(key_exists: bool, db_exists: bool, key_path: &str, db_path: &str) -> (r:
    Result<bool, ProfileStoreError>)
    ensures
        key_exists == db_exists ==> r == Ok::<bool, ProfileStoreError>(key_exists),
        key_exists != db_exists ==> (r matches Err(
            ProfileStoreError::PartiallyInitialized { key_exists: k, db_exists: d, key_path: kp, db_path: dp },
        ) && k == key_exists && d == db_exists && kp@ == key_path@ && dp@ == db_path@),
{
    if key_exists != db_exists {
        return Err(
            ProfileStoreError::PartiallyInitialized {
                key_exists,
                db_exists,
                key_path: key_path.to_owned(),
                db_path: db_path.to_owned(),
            },
        );
    }
    Ok(key_exists && db_exists)
}

/// Only files written in the current format version are read.
pub fn check_format_version(found: u32) -> (r: Result<(), ProfileStoreError>)
    ensures
        found == CURRENT_FORMAT_VERSION ==> r is Ok,
        found != CURRENT_FORMAT_VERSION ==> (r matches Err(
            ProfileStoreError::UnsupportedFormatVersion { found: f, supported: s },
        ) && f == found && s == CURRENT_FORMAT_VERSION),
{
    if found != CURRENT_FORMAT_VERSION {
        return Err(
            ProfileStoreError::UnsupportedFormatVersion {
                found,
                supported: CURRENT_FORMAT_VERSION,
            },
        );
    }
    Ok(())
}

// ---------------------------------------------------------------------------------------------
// The size of an import
// ---------------------------------------------------------------------------------------------
pub const MAX_PROFILES_PER_IMPORT: usize = 200;

/// The most rules that one profile may have, whichever way a set of rules arrives.
pub const MAX_RULES_PER_PROFILE: usize = 500;

pub const MAX_TOTAL_RULES_PER_IMPORT: usize = 2000;

/// What the size check reads of a decrypted payload before it is parsed into profiles (which
/// compiles every regular expression): its kind and how many rules each profile lists.
#[derive(Debug)]
pub enum ImportShape {
    /// Not JSON, or a kind that the parse will refuse anyway: nothing to check here.
    Unchecked,
    /// `"kind": "all"`, with the rule count of each profile when `"profiles"` is an array.
    All { profile_rule_counts: Option<Vec<usize>> },
    /// `"kind": "single"`, with the rule count of its profile when it has one.
    Single { rule_count: Option<usize> },
}

pub open spec fn too_many_profiles_message() -> Seq<char> {
    "プロファイル数が上限(200件)を超えています"@
}

pub open spec fn too_many_rules_message() -> Seq<char> {
    "1プロファイルあたりのルール数が上限(500件)を超えています"@
}

pub open spec fn too_many_total_rules_message() -> Seq<char> {
    "インポート全体のルール数合計が上限(2000件)を超えています"@
}

pub open spec fn sum_counts(s: Seq<usize>) -> int
    decreases s.len(),
{
    if s.len() == 0 {
        0
    } else {
        sum_counts(s.drop_last()) + s.last()
    }
}

/// The outcome of the size check: `None` when the import passes, else the reason.
pub open spec fn size_limit_violation(counts: Option<Seq<usize>>, profiles_over: bool) -> Option<
    Seq<char>,
> {
    if profiles_over {
        Some(too_many_profiles_message())
    } else {
        match counts {
            None => None,
            Some(c) => if exists|i: int| 0 <= i < c.len() && c[i] > MAX_RULES_PER_PROFILE {
                Some(too_many_rules_message())
            } else if sum_counts(c) > MAX_TOTAL_RULES_PER_IMPORT {
                Some(too_many_total_rules_message())
            } else {
                None
            },
        }
    }
}

pub open spec fn shape_counts(shape: ImportShape) -> Option<Seq<usize>> {
    match shape {
        ImportShape::Unchecked => None,
        ImportShape::All { profile_rule_counts } => match profile_rule_counts {
            Some(c) => Some(c@),
            None => None,
        },
        ImportShape::Single { rule_count } => match rule_count {
            Some(n) => Some(seq![n]),
            None => None,
        },
    }
}

/// Which kind of shape: 0 unchecked, 1 all profiles, 2 one profile.
pub open spec fn shape_tag(shape: ImportShape) -> int {
    match shape {
        ImportShape::Unchecked => 0,
        ImportShape::All { .. } => 1,
        ImportShape::Single { .. } => 2,
    }
}

pub open spec fn shape_has_too_many_profiles(shape: ImportShape) -> bool {
    match shape {
        ImportShape::All { profile_rule_counts } => match profile_rule_counts {
            Some(c) => c@.len() > MAX_PROFILES_PER_IMPORT,
            None => false,
        },
        _ => false,
    }
}

proof fn lemma_sum_counts_bound(s: Seq<usize>, k: int)
    requires
        0 <= k <= s.len(),
        forall|i: int| 0 <= i < s.len() ==> s[i] <= MAX_RULES_PER_PROFILE,
    ensures
        0 <= sum_counts(s.take(k)) <= MAX_RULES_PER_PROFILE * k,
    decreases k,
{
    if k > 0 {
        assert(s.take(k).drop_last() =~= s.take(k - 1));
        lemma_sum_counts_bound(s, k - 1);
    }
}

fn message_string(m: &str) -> (r: String)
    ensures
        r@ == m@,
{
    m.to_owned()
}

/// Refuses a payload whose profiles or rules are more than an import may bring, before the
/// payload is parsed (parsing compiles every regular expression).
pub fn check_import_size_limits(shape: &ImportShape) -> (r: Result<(), ProfileStoreError>)
    ensures
        match size_limit_violation(shape_counts(*shape), shape_has_too_many_profiles(*shape)) {
            None => r is Ok,
            Some(m) => r matches Err(ProfileStoreError::ImportTooLarge(msg)) && msg@ == m,
        },
{
    let counts: Vec<usize> = match shape {
        ImportShape::Unchecked => {
            return Ok(());
        },
        ImportShape::All { profile_rule_counts } => match profile_rule_counts {
            None => {
                return Ok(());
            },
            Some(c) => {
                if c.len() > MAX_PROFILES_PER_IMPORT {
                    return Err(
                        ProfileStoreError::ImportTooLarge(
                            message_string("プロファイル数が上限(200件)を超えています"),
                        ),
                    );
                }
                c.clone()
            },
        },
        ImportShape::Single { rule_count } => match rule_count {
            None => {
                return Ok(());
            },
            Some(n) => vec![*n],
        },
    };
    assert(shape_counts(*shape) == Some(counts@)) by {
        match shape {
            ImportShape::All { profile_rule_counts } => {
                assert(counts@ =~= profile_rule_counts->0@);
            },
            ImportShape::Single { rule_count } => {
                assert(counts@ =~= seq![rule_count->0]);
            },
            _ => {},
        }
    }
    assert(counts@.len() <= MAX_PROFILES_PER_IMPORT);
    assert(!shape_has_too_many_profiles(*shape)) by {
        match shape {
            ImportShape::All { profile_rule_counts } => {
                assert(counts@ =~= profile_rule_counts->0@);
            },
            _ => {},
        }
    }
    let mut i: usize = 0;
    while i < counts.len()
        invariant
            i <= counts@.len(),
            shape_counts(*shape) == Some(counts@),
            !shape_has_too_many_profiles(*shape),
            forall|j: int| 0 <= j < i ==> counts@[j] <= MAX_RULES_PER_PROFILE,
        decreases counts@.len() - i,
    {
        if counts[i] > MAX_RULES_PER_PROFILE {
            assert(counts@[i as int] > MAX_RULES_PER_PROFILE);
            return Err(
                ProfileStoreError::ImportTooLarge(
                    message_string("1プロファイルあたりのルール数が上限(500件)を超えています"),
                ),
            );
        }
        i += 1;
    }
    let mut total: usize = 0;
    let mut k: usize = 0;
    while k < counts.len()
        invariant
            k <= counts@.len() <= MAX_PROFILES_PER_IMPORT,
            forall|j: int| 0 <= j < counts@.len() ==> counts@[j] <= MAX_RULES_PER_PROFILE,
            total == sum_counts(counts@.take(k as int)),
        decreases counts@.len() - k,
    {
        proof {
            lemma_sum_counts_bound(counts@, k as int);
            assert(counts@.take(k + 1).drop_last() =~= counts@.take(k as int));
        }
        total = total + counts[k];
        k += 1;
    }
    assert(counts@.take(counts@.len() as int) =~= counts@);
    if total > MAX_TOTAL_RULES_PER_IMPORT {
        return Err(
            ProfileStoreError::ImportTooLarge(
                message_string("インポート全体のルール数合計が上限(2000件)を超えています"),
            ),
        );
    }
    Ok(())
}

// ---------------------------------------------------------------------------------------------
// Previewing an import
// ---------------------------------------------------------------------------------------------
/// How one profile of an all-profiles import is named in the store.
#[derive(Debug, Clone, PartialEq, Eq)]
pub struct AllImportEntry {
    pub original_name: String,
    pub resolved_name: String,
    pub renamed: bool,
}

pub struct AllImportEntryView {
    pub original_name: Seq<char>,
    pub resolved_name: Seq<char>,
    pub renamed: bool,
}

impl View for AllImportEntry {
    type V = AllImportEntryView;

    open spec fn view(&self) -> AllImportEntryView {
        AllImportEntryView {
            original_name: self.original_name@,
            resolved_name: self.resolved_name@,
            renamed: self.renamed,
        }
    }
}

/// What an import will write, computed before anything is written.
#[derive(Debug)]
pub enum ImportPreview {
    Single { name: String, exported: ExportedProfile },
    All {
        active_profile_name: Option<String>,
        entries: Vec<AllImportEntry>,
        exported: Vec<ExportedProfile>,
    },
}

/// What an import wrote, and which profile it made active.
#[derive(Debug, Clone, PartialEq, Eq)]
pub enum ImportOutcome {
    Single { name: String, activated: bool },
    All { entries: Vec<AllImportEntry>, activated_profile_name: Option<String> },
}

pub open spec fn entry_views(es: Seq<AllImportEntry>) -> Seq<AllImportEntryView> {
    es.map_values(|e: AllImportEntry| e@)
}

pub open spec fn exported_views(es: Seq<ExportedProfile>) -> Seq<ExportedProfileView> {
    es.map_values(|e: ExportedProfile| e@)
}

pub open spec fn profile_names(es: Seq<ExportedProfileView>) -> Seq<Seq<char>> {
    es.map_values(|e: ExportedProfileView| e.profile.profile_name)
}

/// The names in use once the entries `es` have been given theirs.
pub open spec fn taken_after(taken: Set<Seq<char>>, es: Seq<AllImportEntryView>) -> Set<Seq<char>> {
    taken.union(es.map_values(|e: AllImportEntryView| e.resolved_name).to_set())
}

/// The entries name the profiles `names` in order, each resolved against the names in use
/// before it: those of the store and those of the entries before it.
pub open spec fn entries_resolve(
    names: Seq<Seq<char>>,
    taken: Set<Seq<char>>,
    es: Seq<AllImportEntryView>,
) -> bool {
    &&& es.len() == names.len()
    &&& forall|i: int|
        0 <= i < es.len() ==> {
            let before = taken_after(taken, es.take(i));
            &&& (#[trigger] es[i]).original_name == names[i]
            &&& is_resolved_name(names[i], before, es[i].resolved_name)
            &&& es[i].renamed == before.contains(names[i])
        }
}

proof fn lemma_taken_after_push(taken: Set<Seq<char>>, es: Seq<AllImportEntryView>, e: AllImportEntryView)
    ensures
        taken_after(taken, es.push(e)) == taken_after(taken, es).insert(e.resolved_name),
{
    let f = |x: AllImportEntryView| x.resolved_name;
    assert(es.push(e).map_values(f) =~= es.map_values(f).push(e.resolved_name));
    es.map_values(f).lemma_push_to_set_commute(e.resolved_name);
    assert(taken_after(taken, es.push(e)) =~= taken_after(taken, es).insert(e.resolved_name));
}

proof fn lemma_taken_after_finite(taken: Set<Seq<char>>, es: Seq<AllImportEntryView>)
    requires
        taken.finite(),
    ensures
        taken_after(taken, es).finite(),
{
    vstd::seq_lib::seq_to_set_is_finite(es.map_values(|e: AllImportEntryView| e.resolved_name));
    vstd::set::axiom_set_union_finite(
        taken,
        es.map_values(|e: AllImportEntryView| e.resolved_name).to_set(),
    );
}

/// The index of the first name of `names` that occurs earlier in it, if any.
fn first_duplicate_name(profiles: &Vec<ExportedProfile>) -> (r: Option<usize>)
    ensures
        match r {
            Some(j) => j < profiles@.len() && first_duplicate(profile_names(exported_views(profiles@)))
                == Some(profiles@[j as int]@.profile.profile_name),
            None => first_duplicate(profile_names(exported_views(profiles@))) is None,
        },
{
    let ghost names = profile_names(exported_views(profiles@));
    let mut seen = StringHashSet::new();
    let mut j: usize = 0;
    while j < profiles.len()
        invariant
            j <= profiles@.len(),
            names == profile_names(exported_views(profiles@)),
            names.len() == profiles@.len(),
            seen@ == names.take(j as int).to_set(),
            first_duplicate(names) == first_duplicate_from(names, j as int),
            names_distinct(names.take(j as int)),
        decreases profiles@.len() - j,
    {
        let name = profiles[j].profile.profile_name();
        proof {
            assert(names[j as int] == name@);
            assert(names.take(j as int).contains(names[j as int]) <==> seen@.contains(name@)) by {
                if seen@.contains(name@) {
                    assert(names.take(j as int).to_set().contains(name@));
                }
            }
        }
        if seen.contains(name) {
            return Some(j);
        }
        seen.insert(name.to_owned());
        proof {
            assert(names.take(j + 1) =~= names.take(j as int).push(names[j as int]));
            names.take(j as int).lemma_push_to_set_commute(names[j as int]);
            lemma_distinct_extend(names, j as int);
        }
        j += 1;
    }
    proof {
        lemma_first_duplicate_from(names, profiles@.len() as int);
        assert(names.take(profiles@.len() as int) =~= names);
    }
    None
}

/// What importing `payload` into a store whose profile names are `taken` will write. One
/// profile keeps its name and is refused if the store has it already. Of all profiles, every one
/// is given a name that is free (`resolve_name`), and a file that names two profiles alike is
/// refused as a whole.
pub fn resolve_import_preview(payload: ExportPayload, taken: StringHashSet) -> (r: Result<
    ImportPreview,
    ProfileStoreError,
>)
    requires
        taken@.finite(),
    ensures
        match payload {
            ExportPayload::Single { format_version, profile } => if format_version
                != CURRENT_FORMAT_VERSION {
                r matches Err(ProfileStoreError::UnsupportedFormatVersion { found, supported })
                    && found == format_version && supported == CURRENT_FORMAT_VERSION
            } else if taken@.contains(profile@.profile.profile_name) {
                r matches Err(ProfileStoreError::ProfileAlreadyExists(n)) && n@
                    == profile@.profile.profile_name
            } else {
                r matches Ok(ImportPreview::Single { name, exported }) && name@
                    == profile@.profile.profile_name && exported@ == profile@
            },
            ExportPayload::All { format_version, active_profile_name, profiles } => if format_version
                != CURRENT_FORMAT_VERSION {
                r matches Err(ProfileStoreError::UnsupportedFormatVersion { found, supported })
                    && found == format_version && supported == CURRENT_FORMAT_VERSION
            } else {
                match first_duplicate(profile_names(exported_views(profiles@))) {
                    Some(d) => r matches Err(ProfileStoreError::DuplicateNameInImportFile(n)) && n@
                        == d,
                    None => r matches Ok(ImportPreview::All { active_profile_name: a, entries, exported })
                        && a.deep_view() == active_profile_name.deep_view() && exported_views(
                        exported@,
                    ) == exported_views(profiles@) && entries_resolve(
                        profile_names(exported_views(profiles@)),
                        taken@,
                        entry_views(entries@),
                    ),
                }
            },
        },
{
    match payload {
        ExportPayload::Single { format_version, profile } => {
            match check_format_version(format_version) {
                Err(e) => {
                    return Err(e);
                },
                Ok(()) => {},
            }
            let name = profile.profile.profile_name().to_owned();
            if taken.contains(name.as_str()) {
                return Err(ProfileStoreError::ProfileAlreadyExists(name));
            }
            Ok(ImportPreview::Single { name, exported: profile })
        },
        ExportPayload::All { format_version, active_profile_name, profiles } => {
            match check_format_version(format_version) {
                Err(e) => {
                    return Err(e);
                },
                Ok(()) => {},
            }
            match first_duplicate_name(&profiles) {
                Some(j) => {
                    let name = profiles[j].profile.profile_name().to_owned();
                    return Err(ProfileStoreError::DuplicateNameInImportFile(name));
                },
                None => {},
            }
            let ghost names = profile_names(exported_views(profiles@));
            let ghost taken0 = taken@;
            let mut taken = taken;
            let mut entries: Vec<AllImportEntry> = Vec::new();
            let mut i: usize = 0;
            while i < profiles.len()
                invariant
                    i <= profiles@.len(),
                    names == profile_names(exported_views(profiles@)),
                    names.len() == profiles@.len(),
                    taken0.finite(),
                    entries@.len() == i,
                    taken@ == taken_after(taken0, entry_views(entries@)),
                    forall|k: int|
                        0 <= k < i ==> {
                            let before = taken_after(taken0, entry_views(entries@).take(k));
                            &&& (#[trigger] entry_views(entries@)[k]).original_name == names[k]
                            &&& is_resolved_name(names[k], before, entry_views(entries@)[k].resolved_name)
                            &&& entry_views(entries@)[k].renamed == before.contains(names[k])
                        },
                decreases profiles@.len() - i,
            {
                let original_name = profiles[i].profile.profile_name().to_owned();
                proof {
                    lemma_taken_after_finite(taken0, entry_views(entries@));
                    assert(names[i as int] == original_name@);
                }
                let ghost before = taken@;
                let (resolved_name, renamed) = resolve_name(original_name.as_str(), &mut taken);
                let ghost old_entries = entry_views(entries@);
                let entry = AllImportEntry { original_name, resolved_name, renamed };
                entries.push(entry);
                proof {
                    lemma_taken_after_push(taken0, old_entries, entry@);
                    assert(entry_views(entries@) =~= old_entries.push(entry@));
                    assert forall|k: int|
                        0 <= k < i + 1 implies {
                            let b = taken_after(taken0, entry_views(entries@).take(k));
                            &&& (#[trigger] entry_views(entries@)[k]).original_name == names[k]
                            &&& is_resolved_name(names[k], b, entry_views(entries@)[k].resolved_name)
                            &&& entry_views(entries@)[k].renamed == b.contains(names[k])
                        } by {
                        assert(entry_views(entries@).take(k) =~= old_entries.take(k) || k == i);
                        if k == i {
                            assert(entry_views(entries@).take(k) =~= old_entries);
                        } else {
                            assert(entry_views(entries@).take(k) =~= old_entries.take(k));
                            assert(entry_views(entries@)[k] == old_entries[k]);
                        }
                    }
                }
                i += 1;
            }
            proof {
                assert(entries_resolve(names, taken0, entry_views(entries@)));
            }
            Ok(ImportPreview::All { active_profile_name, entries, exported: profiles })
        },
    }
}

/// The names that an all-profiles import gives are all different, and none of them is a name
/// the store had: entries of one import never collide, with each other or with the store.
pub proof fn law_imported_names_are_fresh(
    names: Seq<Seq<char>>,
    taken: Set<Seq<char>>,
    es: Seq<AllImportEntryView>,
)
    requires
        entries_resolve(names, taken, es),
    ensures
        forall|i: int| 0 <= i < es.len() ==> !taken.contains(#[trigger] es[i].resolved_name),
        forall|i: int, j: int|
            0 <= i < j < es.len() ==> #[trigger] es[i].resolved_name != #[trigger] es[j].resolved_name,
{
    assert forall|j: int| 0 <= j < es.len() implies !taken_after(taken, es.take(j)).contains(
        #[trigger] es[j].resolved_name,
    ) by {
        crate::bulk::lemma_resolved_name_is_free(
            names[j],
            taken_after(taken, es.take(j)),
            es[j].resolved_name,
        );
    }
    assert forall|i: int| 0 <= i < es.len() implies !taken.contains(#[trigger] es[i].resolved_name) by {
        assert(!taken_after(taken, es.take(i)).contains(es[i].resolved_name));
    }
    assert forall|i: int, j: int|
        0 <= i < j < es.len() implies #[trigger] es[i].resolved_name != #[trigger] es[j].resolved_name by {
        let f = |e: AllImportEntryView| e.resolved_name;
        assert(es.take(j).map_values(f)[i] == es[i].resolved_name);
        assert(es.take(j).map_values(f).to_set().contains(es[i].resolved_name));
        assert(!taken_after(taken, es.take(j)).contains(es[j].resolved_name));
    }
}

// ---------------------------------------------------------------------------------------------
// Committing an import
// ---------------------------------------------------------------------------------------------
/// The position of the first entry whose original name is `name`, or `es.len()`.
pub open spec fn entry_position(es: Seq<AllImportEntryView>, name: Seq<char>) -> nat
    decreases es.len(),
{
    if es.len() == 0 {
        0
    } else if es[0].original_name == name {
        0
    } else {
        1 + entry_position(es.drop_first(), name)
    }
}

/// The profile that an all-profiles import makes active: none when the store has an active
/// profile already; else the entry that the file named active, under its resolved name.
pub open spec fn activation_spec(
    has_active: bool,
    active_profile_name: Option<Seq<char>>,
    es: Seq<AllImportEntryView>,
) -> Option<Seq<char>> {
    if has_active {
        None
    } else {
        match active_profile_name {
            None => None,
            Some(a) => {
                let i = entry_position(es, a);
                if i < es.len() {
                    Some(es[i as int].resolved_name)
                } else {
                    None
                }
            },
        }
    }
}

proof fn lemma_entry_position(es: Seq<AllImportEntryView>, name: Seq<char>, k: nat)
    requires
        k <= es.len(),
        forall|j: int| 0 <= j < k ==> (#[trigger] es[j]).original_name != name,
        k < es.len() ==> es[k as int].original_name == name,
    ensures
        entry_position(es, name) == k,
    decreases k,
{
    if k > 0 {
        assert forall|j: int| 0 <= j < k - 1 implies (#[trigger] es.drop_first()[j]).original_name
            != name by {
            assert(es.drop_first()[j] == es[j + 1]);
        }
        if (k as int) < es.len() {
            assert(es.drop_first()[k - 1] == es[k as int]);
        }
        assert(es[0].original_name != name);
        lemma_entry_position(es.drop_first(), name, (k - 1) as nat);
    }
}

/// The name of the profile that an all-profiles import makes active (see `activation_spec`).
/// The preview shows it and the commit applies it, so both come from this one function.
pub fn activation_target(
    has_active: bool,
    active_profile_name: &Option<String>,
    entries: &Vec<AllImportEntry>,
) -> (r: Option<String>)
    ensures
        r.deep_view() == activation_spec(
            has_active,
            active_profile_name.deep_view(),
            entry_views(entries@),
        ),
{
    if has_active {
        return None;
    }
    match active_profile_name {
        None => None,
        Some(original) => {
            let ghost es = entry_views(entries@);
            let mut i: usize = 0;
            while i < entries.len()
                invariant
                    i <= entries@.len(),
                    es == entry_views(entries@),
                    !has_active,
                    active_profile_name.deep_view() == Some(original@),
                    forall|j: int| 0 <= j < i ==> (#[trigger] es[j]).original_name != original@,
                decreases entries@.len() - i,
            {
                if str_equal(entries[i].original_name.as_str(), original.as_str()) {
                    proof {
                        lemma_entry_position(es, original@, i as nat);
                    }
                    let n = entries[i].resolved_name.clone();
                    assert(n@ == es[i as int].resolved_name);
                    return Some(n);
                }
                i += 1;
            }
            proof {
                lemma_entry_position(es, original@, i as nat);
            }
            None
        },
    }
}

/// The profile, named `resolved_name`, that an entry of an all-profiles import is written as:
/// the profile that the file holds, under the name that it is imported under, so that the name
/// sealed inside the ciphertext is the name of its row.
pub fn renamed_profile_for_import(resolved_name: &str, exported: &ExportedProfile) -> (r: Result<
    RuleProfile,
    ProfileStoreError,
>)
    ensures
        display_name_ok(resolved_name@) ==> (r matches Ok(p) && p@ == (RuleProfileView {
            profile_name: resolved_name@,
            ..exported@.profile
        })),
        !display_name_ok(resolved_name@) ==> (r matches Err(ProfileStoreError::InvalidProfileName(m))
            && display_name_check(resolved_name@) matches Err(reason) && m@
                == "プロファイル名が不正です: "@ + reason),
{
    let source = exported.profile.rules();
    let mut rules: Vec<Rule> = Vec::new();
    let mut i: usize = 0;
    while i < source.len()
        invariant
            i <= source@.len(),
            rules@.len() == i,
            forall|k: int| 0 <= k < i ==> (#[trigger] rules@[k])@ == source@[k]@,
        decreases source@.len() - i,
    {
        rules.push(source[i].duplicate());
        i += 1;
    }
    assert(rules@.map_values(|x: Rule| x@) =~= source@.map_values(|x: Rule| x@));
    proof {
        use_type_invariant(&exported.profile);
        let names = crate::models::rule_names(exported@.profile.rules);
        assert(names.take(0) =~= Seq::<Seq<char>>::empty());
        lemma_first_duplicate_from(names, 0);
    }
    let description = match exported.profile.description() {
        Some(d) => Some(d.to_owned()),
        None => None,
    };
    match RuleProfile::new(resolved_name.to_owned(), description, rules) {
        Ok(p) => Ok(p),
        Err(e) => {
            let m = e.message();
            Err(ProfileStoreError::InvalidProfileName(m))
        },
    }
}

/// The name of the profile that a commit made active, if it made one.
pub fn activated_profile_name(outcome: ImportOutcome) -> (r: Option<String>)
    ensures
        match outcome {
            ImportOutcome::Single { name, activated } => if activated {
                r matches Some(n) && n@ == name@
            } else {
                r is None
            },
            ImportOutcome::All { activated_profile_name, .. } => r.deep_view()
                == activated_profile_name.deep_view(),
        },
{
    match outcome {
        ImportOutcome::Single { name, activated } => if activated {
            Some(name)
        } else {
            None
        },
        ImportOutcome::All { activated_profile_name, .. } => activated_profile_name,
    }
}

} // verus!
