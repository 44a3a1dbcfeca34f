use sensitive_masker::paths::{normalize_and_reject_special_forms, reject_special_forms, PathError};

// On Windows a UNC path stays as it is once made absolute; on Unix the same text is a relative
// file name. The refusal is therefore checked on the absolute form that Windows gives.
#[test]
fn normalize_and_reject_special_forms_rejects_unc_paths() {
    let err = reject_special_forms(Some(r"\\server\share\export.smx".to_string())).unwrap_err();
    assert!(matches!(err, PathError::SpecialForm));
}

#[test]
fn normalize_and_reject_special_forms_accepts_a_relative_path() {
    normalize_and_reject_special_forms("out.txt").expect("相対パスは正規化できるはず");
}

#[test]
fn an_accepted_path_is_made_absolute() {
    let p = normalize_and_reject_special_forms("out.txt").unwrap();
    assert!(std::path::Path::new(&p).is_absolute());
    assert!(p.ends_with("out.txt"));
}

#[test]
fn an_empty_path_cannot_be_resolved() {
    assert_eq!(normalize_and_reject_special_forms(""), Err(PathError::Unresolvable));
}

#[test]
fn a_path_that_could_not_be_made_absolute_is_unresolvable() {
    assert_eq!(reject_special_forms(None), Err(PathError::Unresolvable));
}

#[test]
fn local_device_and_extended_length_paths_are_special_forms() {
    assert_eq!(reject_special_forms(Some(r"\\.\COM1".to_string())), Err(PathError::SpecialForm));
    assert_eq!(reject_special_forms(Some(r"\\?\C:\x.smx".to_string())), Err(PathError::SpecialForm));
    assert_eq!(reject_special_forms(Some(r"C:\x.smx".to_string())), Ok(r"C:\x.smx".to_string()));
}

#[test]
fn path_error_messages() {
    assert_eq!(PathError::SpecialForm.message(), "ネットワークパスや特殊な形式のパスは指定できません");
    assert_eq!(PathError::InsideAppDataDir.message(), "アプリのデータフォルダには保存できません");
    assert_eq!(PathError::Unresolvable.message(), "パスを確認できませんでした");
    assert_eq!(PathError::UnknownDataDir.message(), "OS標準のデータディレクトリを解決できませんでした");
}
