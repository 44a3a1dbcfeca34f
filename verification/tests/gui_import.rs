use sensitive_masker::gui_import::{discard_pending_imports_on_page_load, discard_pending_imports_on_run_event};
use sensitive_masker::pending::{PendingImportState, MAX_PENDING_IMPORTS};

const MAIN_WINDOW_LABEL: &str = "main";

fn sample_import_preview(name: &str) -> String {
    format!("preview of {name}")
}

/// Fills the pending imports up to the limit; returns their ids.
fn fill_pending(pending: &mut PendingImportState<String>) -> Vec<u64> {
    (0..MAX_PENDING_IMPORTS).map(|_| pending.insert(sample_import_preview("元プロファイル"))).collect()
}

#[test]
fn the_start_of_a_main_window_page_load_discards_every_pending_import() {
    let mut pending = PendingImportState::new();
    let ids = fill_pending(&mut pending);
    discard_pending_imports_on_page_load(&mut pending, MAIN_WINDOW_LABEL, true);
    assert_eq!(pending.len(), 0);
    for id in ids {
        assert!(pending.take(id).is_none(), "ページの読み込みの開始の後に、保留(識別子{id})が残っている");
    }
}

#[test]
fn the_end_of_a_main_window_page_load_keeps_every_pending_import() {
    let mut pending = PendingImportState::new();
    let ids = fill_pending(&mut pending);
    discard_pending_imports_on_page_load(&mut pending, MAIN_WINDOW_LABEL, false);
    assert_eq!(pending.len(), MAX_PENDING_IMPORTS);
    for id in ids {
        assert!(pending.take(id).is_some(), "ページの読み込みの完了で、保留(識別子{id})が消えている");
    }
}

#[test]
fn a_page_load_of_another_webview_keeps_every_pending_import() {
    let mut pending = PendingImportState::new();
    let ids = fill_pending(&mut pending);
    discard_pending_imports_on_page_load(&mut pending, "other", true);
    assert_eq!(pending.len(), MAX_PENDING_IMPORTS);
    for id in ids {
        assert!(pending.take(id).is_some(), "別のウェブビューの読み込みで、保留(識別子{id})が消えている");
    }
}

#[test]
fn the_exit_event_discards_every_pending_import() {
    let mut pending = PendingImportState::new();
    let ids = fill_pending(&mut pending);
    discard_pending_imports_on_run_event(&mut pending, true);
    assert_eq!(pending.len(), 0);
    for id in ids {
        assert!(pending.take(id).is_none(), "終了の通知の後に、保留(識別子{id})が残っている");
    }
}

#[test]
fn run_events_other_than_exit_keep_every_pending_import() {
    let mut pending = PendingImportState::new();
    fill_pending(&mut pending);
    for _event in ["Ready", "Resumed", "MainEventsCleared"] {
        discard_pending_imports_on_run_event(&mut pending, false);
    }
    assert_eq!(pending.len(), MAX_PENDING_IMPORTS);
}

#[test]
fn the_start_of_a_page_load_without_pending_imports_does_nothing() {
    let mut pending = PendingImportState::new();
    discard_pending_imports_on_page_load(&mut pending, MAIN_WINDOW_LABEL, true);
    assert_eq!(pending.len(), 0);
    let id = pending.insert(sample_import_preview("元プロファイル"));
    assert!(pending.take(id).is_some());
}

#[test]
fn a_result_decrypted_before_a_page_load_started_is_not_kept() {
    let mut pending = PendingImportState::new();
    let generation = pending.generation();
    discard_pending_imports_on_page_load(&mut pending, MAIN_WINDOW_LABEL, true);
    assert!(pending.insert_if_generation(generation, sample_import_preview("元プロファイル")).is_none());
    assert_eq!(pending.len(), 0);
}

#[test]
fn a_result_decrypted_within_the_same_page_is_kept() {
    let mut pending = PendingImportState::new();
    let generation = pending.generation();
    let id = pending
        .insert_if_generation(generation, sample_import_preview("元プロファイル"))
        .expect("同じページの中で復号した結果は、保留されるはず");
    assert!(pending.take(id).is_some());
}

#[test]
fn only_the_start_of_a_main_window_page_load_advances_the_page_generation() {
    let mut pending = PendingImportState::new();
    let generation = pending.generation();
    discard_pending_imports_on_page_load(&mut pending, MAIN_WINDOW_LABEL, false);
    discard_pending_imports_on_page_load(&mut pending, "other", true);
    pending.discard(None);
    assert_eq!(pending.generation(), generation);
    assert!(pending.insert_if_generation(generation, sample_import_preview("元プロファイル")).is_some());
}
