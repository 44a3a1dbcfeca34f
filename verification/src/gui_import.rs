//! What the desktop application shows of an import before it is committed, what it answers
//! after, the discarding of pending imports on window events, and the notice that an edit of
//! the active profile weakened some of its rules.

use vstd::prelude::*;
use crate::bulk::{ExportedProfile, ExportedProfileView};
use crate::env_import::{parse_env_candidates, env_candidates, EnvCandidate, EnvCandidateView};
use crate::gui::{weakened_names, weakened_rule_names};
use crate::import_plan::{
    activation_spec, activation_target, entry_views, AllImportEntry, AllImportEntryView,
    ImportOutcome, ImportPreview,
};
use crate::models::{clone_opt_string, Mode, PatternType, Rule, RuleProfile, RuleView};
use crate::pending::{PendingImportState, PendingView};
use crate::text::str_equal;

verus! {

/// Whether an operation failed on what the user gave (a path, an extension, a size) before any
/// decryption, or later. A front end must not show the first kind as a wrong passphrase.
#[derive(Debug)]
pub enum ExportImportError {
    InvalidInput(String),
    Failed(String),
}

impl ExportImportError {
    pub fn message(&self) -> (r: &str)
        ensures
            r@ == (match self {
                ExportImportError::InvalidInput(m) => m@,
                ExportImportError::Failed(m) => m@,
            }),
    {
        match self {
            ExportImportError::InvalidInput(m) => m.as_str(),
            ExportImportError::Failed(m) => m.as_str(),
        }
    }
}

/// How an export file is decrypted.
#[derive(Debug, PartialEq, Eq)]
pub enum ImportMethodDto {
    Passphrase,
    KeyFile,
}

/// A rule as the import confirmation shows it, so that a crafted rule is seen before it is
/// committed.
#[derive(Debug)]
pub struct ImportRuleDto {
    pub name: String,
    pub pattern_type: PatternType,
    pub pattern: String,
    pub mode: Mode,
    pub fixed_value: Option<String>,
    pub prefix: Option<String>,
    pub enabled: bool,
}

pub open spec fn shows_rule(d: ImportRuleDto, r: RuleView) -> bool {
    &&& d.name@ == r.name
    &&& d.pattern_type == r.pattern_type
    &&& d.pattern@ == r.pattern
    &&& d.mode == r.mode
    &&& d.fixed_value.deep_view() == r.fixed_value
    &&& d.prefix.deep_view() == r.prefix
    &&& d.enabled == r.enabled
}

pub open spec fn shows_rules(ds: Seq<ImportRuleDto>, rs: Seq<RuleView>) -> bool {
    ds.len() == rs.len() && forall|i: int| 0 <= i < ds.len() ==> shows_rule(#[trigger] ds[i], rs[i])
}

fn to_opt_string(o: Option<&str>) -> (r: Option<String>)
    ensures
        r.deep_view() == o.deep_view(),
{
    match o {
        Some(s) => Some(s.to_owned()),
        None => None,
    }
}

pub fn to_rule_dto(rule: &Rule) -> (r: ImportRuleDto)
    ensures
        shows_rule(r, rule@),
{
    ImportRuleDto {
        name: rule.name().to_owned(),
        pattern_type: rule.pattern_type(),
        pattern: rule.pattern().to_owned(),
        mode: rule.mode(),
        fixed_value: to_opt_string(rule.fixed_value()),
        prefix: to_opt_string(rule.prefix()),
        enabled: rule.enabled(),
    }
}

pub fn to_rule_dtos(profile: &RuleProfile) -> (r: Vec<ImportRuleDto>)
    ensures
        shows_rules(r@, profile@.rules),
{
    let rules = profile.rules();
    let mut out: Vec<ImportRuleDto> = Vec::new();
    let mut i: usize = 0;
    while i < rules.len()
        invariant
            i <= rules@.len(),
            rules@.map_values(|x: Rule| x@) == profile@.rules,
            out@.len() == i,
            forall|k: int| 0 <= k < i ==> shows_rule(#[trigger] out@[k], profile@.rules[k]),
        decreases rules@.len() - i,
    {
        out.push(to_rule_dto(&rules[i]));
        i += 1;
    }
    out
}

fn clone_strings(v: &Vec<String>) -> (r: Vec<String>)
    ensures
        r@.map_values(|s: String| s@) == v@.map_values(|s: String| s@),
{
    let mut out: Vec<String> = Vec::new();
    let mut i: usize = 0;
    while i < v.len()
        invariant
            i <= v@.len(),
            out@.len() == i,
            forall|k: int| 0 <= k < i ==> (#[trigger] out@[k])@ == v@[k]@,
        decreases v@.len() - i,
    {
        out.push(v[i].clone());
        i += 1;
    }
    assert(out@.map_values(|s: String| s@) =~= v@.map_values(|s: String| s@));
    out
}

/// One profile of an all-profiles import, as the confirmation shows it.
#[derive(Debug)]
pub struct ImportEntryDto {
    pub original_name: String,
    pub resolved_name: String,
    pub renamed: bool,
    pub rules: Vec<ImportRuleDto>,
    pub tags: Vec<String>,
}

pub fn to_entry_dto(entry: &AllImportEntry, profile: &RuleProfile, tags: &Vec<String>) -> (r: ImportEntryDto)
    ensures
        r.original_name@ == entry.original_name@,
        r.resolved_name@ == entry.resolved_name@,
        r.renamed == entry.renamed,
        shows_rules(r.rules@, profile@.rules),
        r.tags@.map_values(|s: String| s@) == tags@.map_values(|s: String| s@),
{
    ImportEntryDto {
        original_name: entry.original_name.clone(),
        resolved_name: entry.resolved_name.clone(),
        renamed: entry.renamed,
        rules: to_rule_dtos(profile),
        tags: clone_strings(tags),
    }
}

/// The import confirmation.
#[derive(Debug)]
pub enum ImportPreviewDto {
    Single { name: String, rules: Vec<ImportRuleDto>, tags: Vec<String> },
    All {
        /// The profile that committing will make active, judged as the commit judges it.
        will_activate_profile_name: Option<String>,
        entries: Vec<ImportEntryDto>,
    },
}

/// The confirmation of `preview` for a store that has an active profile or not. The profile it
/// says will become active is the one that the commit activates (`activation_target`).
pub fn to_dto(preview: &ImportPreview, destination_has_active_profile: bool) -> (r: ImportPreviewDto)
    ensures
        match *preview {
            ImportPreview::Single { name, exported } => r matches ImportPreviewDto::Single { name: n, rules, tags }
                && n@ == name@ && shows_rules(rules@, exported@.profile.rules) && tags@.map_values(
                |s: String| s@,
            ) == exported@.tags,
            ImportPreview::All { active_profile_name, entries, exported } => r matches ImportPreviewDto::All {
                will_activate_profile_name: w,
                entries: es,
            } && w.deep_view() == activation_spec(
                destination_has_active_profile,
                active_profile_name.deep_view(),
                entry_views(entries@),
            ) && es@.len() == (if entries@.len() <= exported@.len() {
                entries@.len()
            } else {
                exported@.len()
            }) && forall|i: int|
                0 <= i < es@.len() ==> (#[trigger] es@[i]).resolved_name@ == entries@[i].resolved_name@
                    && es@[i].original_name@ == entries@[i].original_name@ && es@[i].renamed
                    == entries@[i].renamed && shows_rules(es@[i].rules@, exported@[i]@.profile.rules)
                    && es@[i].tags@.map_values(|s: String| s@) == exported@[i]@.tags,
        },
{
    match preview {
        ImportPreview::Single { name, exported } => ImportPreviewDto::Single {
            name: name.clone(),
            rules: to_rule_dtos(&exported.profile),
            tags: clone_strings(&exported.tags),
        },
        ImportPreview::All { active_profile_name, entries, exported } => {
            let will_activate_profile_name = activation_target(
                destination_has_active_profile,
                active_profile_name,
                entries,
            );
            let n = if entries.len() <= exported.len() {
                entries.len()
            } else {
                exported.len()
            };
            let mut es: Vec<ImportEntryDto> = Vec::new();
            let mut i: usize = 0;
            while i < n
                invariant
                    i <= n,
                    n <= entries@.len(),
                    n <= exported@.len(),
                    es@.len() == i,
                    forall|k: int|
                        0 <= k < i ==> (#[trigger] es@[k]).resolved_name@ == entries@[k].resolved_name@
                            && es@[k].original_name@ == entries@[k].original_name@ && es@[k].renamed
                            == entries@[k].renamed && shows_rules(es@[k].rules@, exported@[k]@.profile.rules)
                            && es@[k].tags@.map_values(|s: String| s@) == exported@[k]@.tags,
                decreases n - i,
            {
                es.push(to_entry_dto(&entries[i], &exported[i].profile, &exported[i].tags));
                i += 1;
            }
            ImportPreviewDto::All { will_activate_profile_name, entries: es }
        },
    }
}

/// The answer to a preview: the id of the pending import, its confirmation, and whether only
/// the passphrase without surrounding noise worked.
#[derive(Debug)]
pub struct PreviewImportResultDto {
    pub pending_id: u64,
    pub preview: ImportPreviewDto,
    pub passphrase_trimmed: bool,
}

/// The answer to a commit: the profile that became active, if one did.
#[derive(Debug, PartialEq, Eq)]
pub struct CommitImportResultDto {
    pub activated_profile_name: Option<String>,
}

pub fn commit_result_dto(outcome: ImportOutcome) -> (r: CommitImportResultDto)
    ensures
        r.activated_profile_name.deep_view() == (match outcome {
            ImportOutcome::Single { name, activated } => if activated {
                Some(name@)
            } else {
                None
            },
            ImportOutcome::All { activated_profile_name, .. } => activated_profile_name.deep_view(),
        }),
{
    CommitImportResultDto { activated_profile_name: crate::import_plan::activated_profile_name(outcome) }
}

/// The answer to an export with a key file: whether the key file could be made readable by its
/// owner alone (storage such as FAT has no permissions).
#[derive(Debug)]
pub struct ExportWithKeyFileResultDto {
    pub key_file_restricted: bool,
}

// ---------------------------------------------------------------------------------------------
// Discarding pending imports on window events
// ---------------------------------------------------------------------------------------------
/// The window goes to the tray: the confirmation that would commit is closed, so every pending
/// import is dropped and decryptions begun before are not kept.
pub fn discard_pending_imports_on_hide<P>(pending: &mut PendingImportState<P>)
    requires
        old(pending)@.generation < u64::MAX,
    ensures
        final(pending)@ == (PendingView {
            next_id: old(pending)@.next_id,
            generation: old(pending)@.generation + 1,
            entries: Seq::<(u64, P)>::empty(),
        }),
{
    pending.discard_all_and_advance_generation();
}

/// A page load that starts in the main window (labelled `main`) loses the page that holds the pending ids: every
/// pending import is dropped and the generation advances. Other loads change nothing.
pub fn discard_pending_imports_on_page_load<P>(
    pending: &mut PendingImportState<P>,
    webview_label: &str,
    load_started: bool,
)
    requires
        old(pending)@.generation < u64::MAX,
    ensures
        (webview_label@ == "main"@ && load_started) ==> final(pending)@ == (PendingView {
            next_id: old(pending)@.next_id,
            generation: old(pending)@.generation + 1,
            entries: Seq::<(u64, P)>::empty(),
        }),
        !(webview_label@ == "main"@ && load_started) ==> final(pending)@ == old(pending)@,
{
    if load_started && str_equal(webview_label, "main") {
        pending.discard_all_and_advance_generation();
    }
}

/// At exit every pending import is dropped (the process ends without dropping its state).
pub fn discard_pending_imports_on_run_event<P>(pending: &mut PendingImportState<P>, is_exit: bool)
    ensures
        is_exit ==> final(pending)@ == (PendingView {
            next_id: old(pending)@.next_id,
            generation: old(pending)@.generation,
            entries: Seq::<(u64, P)>::empty(),
        }),
        !is_exit ==> final(pending)@ == old(pending)@,
{
    if is_exit {
        pending.discard(None);
    }
}

// ---------------------------------------------------------------------------------------------
// The weakening notice
// ---------------------------------------------------------------------------------------------
/// The names of the rules of the active profile that an edit weakened.
#[derive(Debug, PartialEq, Eq)]
pub struct WeakeningNotice {
    pub profile_name: String,
    pub weakened_rule_names: Vec<String>,
}

/// When the edited profile (called `old_name` before the edit) is the active one and the edit
/// weakens some of its enabled rules, the notice that names them; otherwise none.
pub fn rule_weakening_notice(
    active_before_update: Option<&RuleProfile>,
    old_name: &str,
    new_profile: &RuleProfile,
) -> (r: Option<WeakeningNotice>)
    ensures
        match active_before_update {
            Some(active) => if active@.profile_name == old_name@ && weakened_names(
                active@.rules,
                new_profile@.rules,
            ).len() > 0 {
                r matches Some(n) && n.profile_name@ == new_profile@.profile_name
                    && n.weakened_rule_names@.map_values(|s: String| s@) == weakened_names(
                    active@.rules,
                    new_profile@.rules,
                )
            } else {
                r is None
            },
            None => r is None,
        },
{
    match active_before_update {
        None => None,
        Some(active) => {
            if !str_equal(active.profile_name(), old_name) {
                return None;
            }
            let weakened = weakened_rule_names(active, new_profile);
            if weakened.len() == 0 {
                return None;
            }
            Some(WeakeningNotice { profile_name: new_profile.profile_name().to_owned(), weakened_rule_names: weakened })
        },
    }
}

// ---------------------------------------------------------------------------------------------
// The `.env` preview
// ---------------------------------------------------------------------------------------------
/// A candidate of the `.env` preview, as the window receives it.
#[derive(Debug, PartialEq, Eq)]
pub struct EnvCandidateDto {
    pub key: String,
    pub value: String,
    pub included_by_default: bool,
}

/// The candidates of `content`, field for field.
pub fn preview_env_import_impl(content: &str) -> (r: Vec<EnvCandidateDto>)
    ensures
        r@.map_values(|d: EnvCandidateDto| EnvCandidateView {
            key: d.key@,
            value: d.value@,
            included_by_default: d.included_by_default,
        }) == env_candidates(content@),
{
    let cands = parse_env_candidates(content);
    let mut out: Vec<EnvCandidateDto> = Vec::new();
    let mut i: usize = 0;
    while i < cands.len()
        invariant
            i <= cands@.len(),
            out@.len() == i,
            forall|k: int| 0 <= k < i ==> (#[trigger] out@[k]).key@ == cands@[k].key@ && out@[k].value@
                == cands@[k].value@ && out@[k].included_by_default == cands@[k].included_by_default,
        decreases cands@.len() - i,
    {
        let c = &cands[i];
        out.push(EnvCandidateDto { key: c.key.clone(), value: c.value.clone(), included_by_default: c.included_by_default });
        i += 1;
    }
    assert(out@.map_values(|d: EnvCandidateDto| EnvCandidateView {
        key: d.key@,
        value: d.value@,
        included_by_default: d.included_by_default,
    }) =~= cands@.map_values(|c: EnvCandidate| c@));
    out
}

} // verus!
