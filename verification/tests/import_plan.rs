use sensitive_masker::bulk::{ExportPayload, ExportedProfile, StringHashSet, CURRENT_FORMAT_VERSION};
use sensitive_masker::gui_import::{commit_result_dto, to_dto, ImportPreviewDto};
use sensitive_masker::json::{check_import_payload_size, profile_rule_counts};
use sensitive_masker::import_plan::{
    activated_profile_name, activation_target, check_format_version, check_import_size_limits, is_initialized_at,
    renamed_profile_for_import, resolve_import_preview, AllImportEntry, ImportOutcome, ImportPreview, ImportShape,
    ProfileStoreError, MAX_PROFILES_PER_IMPORT, MAX_RULES_PER_PROFILE, MAX_TOTAL_RULES_PER_IMPORT,
};
use sensitive_masker::models::{Mode, PatternType, Rule, RuleProfile};

fn sample_profile(name: &str) -> RuleProfile {
    let rule = Rule::new(
        "ip".to_string(),
        PatternType::Regex,
        r"\d+\.\d+\.\d+\.\d+".to_string(),
        Mode::Sequential,
        None,
        Some("__MASK_IP_".to_string()),
        true,
        None,
    )
    .unwrap();
    RuleProfile::new(name.to_string(), None, vec![rule]).unwrap()
}

fn exported(name: &str) -> ExportedProfile {
    ExportedProfile { is_favorite: false, tags: Vec::new(), profile: sample_profile(name) }
}

fn taken_of(names: &[&str]) -> StringHashSet {
    let mut taken = StringHashSet::new();
    for n in names {
        taken.insert(n.to_string());
    }
    taken
}

/// A JSON array of `n` copies of `item`.
fn json_array(n: usize, item: &str) -> String {
    format!("[{}]", vec![item; n].join(","))
}

fn profile_with_rules(name: &str, n: usize) -> String {
    format!(r#"{{"profile_name":"{name}","rules":{}}}"#, json_array(n, "{}"))
}

#[test]
fn check_import_size_limits_rejects_too_many_profiles() {
    let profiles: Vec<String> = (0..(MAX_PROFILES_PER_IMPORT + 1)).map(|i| profile_with_rules(&format!("p{i}"), 0)).collect();
    let json = format!(r#"{{"kind":"all","profiles":[{}]}}"#, profiles.join(","));
    let err = check_import_payload_size(json.as_bytes()).expect_err("プロファイル数上限超過は拒否されるはず");
    assert!(matches!(err, ProfileStoreError::ImportTooLarge(ref m) if m == "プロファイル数が上限(200件)を超えています"));
}

#[test]
fn check_import_size_limits_rejects_too_many_rules_in_one_profile() {
    let json = format!(r#"{{"kind":"single","profile":{{"rules":{}}}}}"#, json_array(MAX_RULES_PER_PROFILE + 1, "{}"));
    let err = check_import_payload_size(json.as_bytes()).expect_err("1プロファイルのルール数上限超過は拒否されるはず");
    assert!(matches!(err, ProfileStoreError::ImportTooLarge(ref m) if m == "1プロファイルあたりのルール数が上限(500件)を超えています"));
}

#[test]
fn check_import_size_limits_rejects_total_rules_over_the_aggregate_cap_even_when_each_profile_is_under_the_per_profile_cap() {
    let rules_per_profile = MAX_RULES_PER_PROFILE - 1;
    let profile_count = MAX_TOTAL_RULES_PER_IMPORT / rules_per_profile + 2;
    let profiles: Vec<String> = (0..profile_count).map(|i| profile_with_rules(&format!("p{i}"), rules_per_profile)).collect();
    let json = format!(r#"{{"kind":"all","profiles":[{}]}}"#, profiles.join(","));
    let err = check_import_payload_size(json.as_bytes()).expect_err("合計ルール数上限超過は拒否されるはず");
    assert!(matches!(err, ProfileStoreError::ImportTooLarge(ref m) if m == "インポート全体のルール数合計が上限(2000件)を超えています"));
}

#[test]
fn check_import_size_limits_allows_reasonably_sized_imports() {
    let json = format!(r#"{{"kind":"single","profile":{{"rules":{}}}}}"#, json_array(10, "{}"));
    check_import_payload_size(json.as_bytes()).expect("通常規模のインポートは許可されるはず");
    let profiles: Vec<String> = (0..4).map(|i| profile_with_rules(&format!("p{i}"), 500)).collect();
    let json = format!(r#"{{"kind":"all","profiles":[{}]}}"#, profiles.join(","));
    check_import_payload_size(json.as_bytes()).expect("ちょうど上限は許可されるはず");
}

// The kind tag decides the shape, as the typed parse does: a decoy "profiles" key on a single
// payload does not hide the oversized "profile".
#[test]
fn check_import_size_limits_is_not_fooled_by_a_decoy_profiles_key_on_a_single_payload() {
    let json = format!(
        r#"{{"kind":"single","profile":{{"rules":{}}},"profiles":[]}}"#,
        json_array(MAX_RULES_PER_PROFILE + 1, "{}")
    );
    let err = check_import_payload_size(json.as_bytes())
        .expect_err("kind:singleでは\"profiles\"デコイに惑わされず\"profile\"側を見るはず");
    assert!(matches!(err, ProfileStoreError::ImportTooLarge(_)));
}

#[test]
fn the_size_check_leaves_bytes_that_are_not_json_and_unknown_kinds_to_the_parse() {
    assert!(check_import_payload_size(b"not json").is_ok());
    let many = json_array(MAX_RULES_PER_PROFILE + 1, "{}");
    assert!(check_import_payload_size(format!(r#"{{"kind":"other","profile":{{"rules":{many}}}}}"#).as_bytes()).is_ok());
    assert!(check_import_payload_size(format!(r#"{{"profile":{{"rules":{many}}}}}"#).as_bytes()).is_ok());
    assert!(check_import_payload_size(br#"{"kind":"all","profiles":{}}"#).is_ok());
}

#[test]
fn the_last_of_duplicate_keys_is_the_one_read() {
    let many = json_array(MAX_RULES_PER_PROFILE + 1, "{}");
    let json = format!(r#"{{"kind":"other","kind":"single","profile":{{"rules":{many}}}}}"#);
    assert!(matches!(check_import_payload_size(json.as_bytes()), Err(ProfileStoreError::ImportTooLarge(_))));
}

#[test]
fn stored_profile_json_gives_its_rule_counts() {
    let json = r#"{"profile_name":"p","rules":[{"name":"a"},{"name":"b","enabled":false},{"name":"c","enabled":true},{"name":"d","enabled":"no"}]}"#;
    assert_eq!(profile_rule_counts(json.as_bytes()), Ok((4, 3)));
    assert_eq!(profile_rule_counts(br#"{"profile_name":"p"}"#), Ok((0, 0)));
    assert!(profile_rule_counts(b"{").is_err());
}

#[test]
fn check_import_size_limits_leaves_unreadable_shapes_to_the_parse() {
    assert!(check_import_size_limits(&ImportShape::Unchecked).is_ok());
    assert!(check_import_size_limits(&ImportShape::All { profile_rule_counts: None }).is_ok());
    assert!(check_import_size_limits(&ImportShape::Single { rule_count: None }).is_ok());
}

#[test]
fn importing_a_file_with_an_unsupported_format_version_is_rejected() {
    let payload = ExportPayload::Single { format_version: CURRENT_FORMAT_VERSION + 1, profile: exported("work") };
    let err = resolve_import_preview(payload, StringHashSet::new()).expect_err("未対応バージョンは拒否されるはず");
    assert!(matches!(
        err,
        ProfileStoreError::UnsupportedFormatVersion { found, supported }
            if found == CURRENT_FORMAT_VERSION + 1 && supported == CURRENT_FORMAT_VERSION
    ));
}

#[test]
fn importing_a_file_with_duplicate_profile_names_is_rejected_entirely() {
    let payload = ExportPayload::All {
        format_version: CURRENT_FORMAT_VERSION,
        active_profile_name: None,
        profiles: vec![exported("work"), exported("work")],
    };
    let err = resolve_import_preview(payload, StringHashSet::new()).expect_err("ファイル内の名前重複は拒否されるはず");
    assert!(matches!(err, ProfileStoreError::DuplicateNameInImportFile(name) if name == "work"));
}

#[test]
fn a_file_with_both_an_unsupported_version_and_duplicate_names_reports_the_version_problem_first() {
    let payload = ExportPayload::All {
        format_version: CURRENT_FORMAT_VERSION + 1,
        active_profile_name: None,
        profiles: vec![exported("work"), exported("work")],
    };
    let err = resolve_import_preview(payload, StringHashSet::new()).expect_err("いずれかの理由で拒否されるはず");
    assert!(matches!(err, ProfileStoreError::UnsupportedFormatVersion { .. }), "{err:?}");
}

#[test]
fn previewing_a_single_import_with_a_name_that_already_exists_is_rejected_immediately() {
    let payload = ExportPayload::Single { format_version: CURRENT_FORMAT_VERSION, profile: exported("work") };
    let err = resolve_import_preview(payload, taken_of(&["work"])).expect_err("既存名は拒否されるはず");
    assert!(matches!(err, ProfileStoreError::ProfileAlreadyExists(name) if name == "work"));
}

#[test]
fn a_single_import_keeps_its_name() {
    let payload = ExportPayload::Single { format_version: CURRENT_FORMAT_VERSION, profile: exported("work") };
    match resolve_import_preview(payload, taken_of(&["other"])).unwrap() {
        ImportPreview::Single { name, exported } => {
            assert_eq!(name, "work");
            assert_eq!(exported.profile.profile_name(), "work");
        }
        other => panic!("{other:?}"),
    }
}

#[test]
fn import_all_renames_colliding_names_and_creates_the_rest() {
    let payload = ExportPayload::All {
        format_version: CURRENT_FORMAT_VERSION,
        active_profile_name: Some("work".to_string()),
        profiles: vec![exported("work"), exported("home")],
    };
    match resolve_import_preview(payload, taken_of(&["work"])).unwrap() {
        ImportPreview::All { active_profile_name, entries, exported } => {
            assert_eq!(active_profile_name.as_deref(), Some("work"));
            assert_eq!(
                entries,
                vec![
                    AllImportEntry {
                        original_name: "work".to_string(),
                        resolved_name: "work (インポート)".to_string(),
                        renamed: true
                    },
                    AllImportEntry { original_name: "home".to_string(), resolved_name: "home".to_string(), renamed: false },
                ]
            );
            assert_eq!(exported.len(), 2);
        }
        other => panic!("{other:?}"),
    }
}

#[test]
fn entries_of_one_import_do_not_collide_with_each_other() {
    let payload = ExportPayload::All {
        format_version: CURRENT_FORMAT_VERSION,
        active_profile_name: None,
        profiles: vec![exported("a"), exported("a (インポート)")],
    };
    match resolve_import_preview(payload, taken_of(&["a"])).unwrap() {
        ImportPreview::All { entries, .. } => {
            assert_eq!(entries[0].resolved_name, "a (インポート)");
            assert_eq!(entries[1].resolved_name, "a (インポート) (インポート)");
            assert!(entries[1].renamed);
        }
        other => panic!("{other:?}"),
    }
}

fn entry(original: &str, resolved: &str) -> AllImportEntry {
    AllImportEntry { original_name: original.to_string(), resolved_name: resolved.to_string(), renamed: original != resolved }
}

#[test]
fn import_all_does_not_overwrite_an_already_active_profile() {
    let entries = vec![entry("work", "work (インポート)")];
    assert_eq!(activation_target(true, &Some("work".to_string()), &entries), None);
}

#[test]
fn import_all_activates_the_files_active_profile_under_its_resolved_name() {
    let entries = vec![entry("home", "home"), entry("work", "work (インポート)")];
    assert_eq!(activation_target(false, &Some("work".to_string()), &entries), Some("work (インポート)".to_string()));
    assert_eq!(activation_target(false, &Some("missing".to_string()), &entries), None);
    assert_eq!(activation_target(false, &None, &entries), None);
}

#[test]
fn the_preview_says_which_profile_the_commit_will_activate() {
    let preview = ImportPreview::All {
        active_profile_name: Some("work".to_string()),
        entries: vec![entry("work", "work (インポート)")],
        exported: vec![exported("work")],
    };
    match to_dto(&preview, false) {
        ImportPreviewDto::All { will_activate_profile_name, entries } => {
            assert_eq!(will_activate_profile_name.as_deref(), Some("work (インポート)"));
            assert_eq!(entries.len(), 1);
            assert_eq!(entries[0].rules[0].name, "ip");
        }
        other => panic!("{other:?}"),
    }
    match to_dto(&preview, true) {
        ImportPreviewDto::All { will_activate_profile_name, .. } => assert_eq!(will_activate_profile_name, None),
        other => panic!("{other:?}"),
    }
}

#[test]
fn a_renamed_profile_for_import_carries_the_resolved_name_and_the_same_rules() {
    let source = exported("work");
    let renamed = renamed_profile_for_import("work (インポート)", &source).unwrap();
    assert_eq!(renamed.profile_name(), "work (インポート)");
    assert_eq!(renamed.rules().len(), 1);
    assert_eq!(renamed.rules()[0].pattern(), source.profile.rules()[0].pattern());
}

#[test]
fn import_all_rejects_a_collision_rename_that_would_exceed_the_length_limit() {
    let source = exported("work");
    let long = format!("{} (インポート)", "a".repeat(95));
    let err = renamed_profile_for_import(&long, &source).unwrap_err();
    assert!(matches!(err, ProfileStoreError::InvalidProfileName(ref m) if m.starts_with("プロファイル名が不正です: 長すぎます")), "{err:?}");
}

#[test]
fn the_commit_answer_names_the_activated_profile_only_when_one_was() {
    let single = ImportOutcome::Single { name: "w".to_string(), activated: true };
    assert_eq!(activated_profile_name(single), Some("w".to_string()));
    let quiet = ImportOutcome::Single { name: "w".to_string(), activated: false };
    assert_eq!(commit_result_dto(quiet).activated_profile_name, None);
    let all = ImportOutcome::All { entries: vec![], activated_profile_name: Some("x".to_string()) };
    assert_eq!(commit_result_dto(all).activated_profile_name, Some("x".to_string()));
}

#[test]
fn the_format_version_check_accepts_only_the_current_version() {
    assert!(check_format_version(CURRENT_FORMAT_VERSION).is_ok());
    assert!(check_format_version(0).is_err());
}

#[test]
fn a_store_is_initialized_only_with_both_files_and_half_made_when_one_is_missing() {
    assert_eq!(is_initialized_at(true, true, "k", "d").unwrap(), true);
    assert_eq!(is_initialized_at(false, false, "k", "d").unwrap(), false);
    match is_initialized_at(true, false, "k", "d") {
        Err(ProfileStoreError::PartiallyInitialized { key_exists, db_exists, key_path, db_path }) => {
            assert!(key_exists);
            assert!(!db_exists);
            assert_eq!(key_path, "k");
            assert_eq!(db_path, "d");
        }
        other => panic!("{other:?}"),
    }
}

#[test]
fn the_all_profiles_confirmation_shows_each_entrys_tags() {
    let mut tagged = exported("work");
    tagged.tags = vec!["客先".to_string(), "本番".to_string()];
    let preview = ImportPreview::All {
        active_profile_name: None,
        entries: vec![
            AllImportEntry { original_name: "home".into(), resolved_name: "home".into(), renamed: false },
            AllImportEntry { original_name: "work".into(), resolved_name: "work".into(), renamed: false },
        ],
        exported: vec![exported("home"), tagged],
    };
    match to_dto(&preview, true) {
        ImportPreviewDto::All { entries, .. } => {
            assert!(entries[0].tags.is_empty());
            assert_eq!(entries[1].tags, vec!["客先".to_string(), "本番".to_string()]);
        }
        other => panic!("{other:?}"),
    }
}
