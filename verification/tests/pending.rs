use sensitive_masker::gui_import::{
    discard_pending_imports_on_hide, discard_pending_imports_on_page_load, discard_pending_imports_on_run_event,
};
use sensitive_masker::pending::{PendingImportState, MAX_PENDING_IMPORTS};

fn fill_pending(pending: &mut PendingImportState<String>) -> Vec<u64> {
    (0..MAX_PENDING_IMPORTS).map(|i| pending.insert(format!("preview {i}"))).collect()
}

#[test]
fn the_pending_limit_is_the_documented_value() {
    assert_eq!(MAX_PENDING_IMPORTS, 4);
}

#[test]
fn hiding_to_the_tray_discards_every_pending_import() {
    let mut pending = PendingImportState::new();
    let ids = fill_pending(&mut pending);
    discard_pending_imports_on_hide(&mut pending);
    assert_eq!(pending.len(), 0);
    for id in ids {
        assert!(pending.take(id).is_none(), "トレイへ格納した後に、保留(識別子{id})が残っている");
    }
}

#[test]
fn no_pending_import_is_dropped_up_to_the_limit() {
    let mut pending = PendingImportState::new();
    let ids = fill_pending(&mut pending);
    assert_eq!(pending.len(), MAX_PENDING_IMPORTS);
    for (i, id) in ids.into_iter().enumerate() {
        assert_eq!(pending.take(id), Some(format!("preview {i}")));
    }
}

#[test]
fn the_oldest_pending_import_is_dropped_when_the_limit_is_exceeded() {
    let mut pending = PendingImportState::new();
    let ids: Vec<u64> = (0..=MAX_PENDING_IMPORTS).map(|i| pending.insert(format!("p{i}"))).collect();
    assert_eq!(pending.len(), MAX_PENDING_IMPORTS);
    assert!(pending.take(ids[0]).is_none());
    for id in &ids[1..] {
        assert!(pending.take(*id).is_some());
    }
}

#[test]
fn an_id_is_never_reused_after_its_pending_import_is_gone() {
    let mut pending = PendingImportState::new();
    let first = pending.insert("a".to_string());
    assert!(pending.take(first).is_some());
    let second = pending.insert("b".to_string());
    pending.discard(Some(second));
    let mut issued = vec![first, second];
    for _ in 0..=MAX_PENDING_IMPORTS {
        issued.push(pending.insert("c".to_string()));
    }
    assert!(issued.windows(2).all(|pair| pair[0] < pair[1]), "{issued:?}");
    assert!(pending.take(first).is_none());
    assert!(pending.take(second).is_none());
    let dropped_by_limit = issued[2];
    assert!(pending.take(dropped_by_limit).is_none());
    let after_the_drop = pending.insert("d".to_string());
    assert!(issued.iter().all(|id| *id < after_the_drop));
    assert!(pending.take(after_the_drop).is_some());
}

#[test]
fn clearing_without_an_id_discards_every_pending_import() {
    let mut pending = PendingImportState::new();
    let ids = fill_pending(&mut pending);
    pending.discard(None);
    assert_eq!(pending.len(), 0);
    let after_clear = pending.insert("x".to_string());
    assert!(ids.iter().all(|id| *id < after_clear));
}

#[test]
fn a_result_decrypted_before_hiding_to_the_tray_is_not_kept() {
    let mut pending: PendingImportState<String> = PendingImportState::new();
    let generation = pending.generation();
    discard_pending_imports_on_hide(&mut pending);
    assert!(pending.insert_if_generation(generation, "late".to_string()).is_none());
    assert_eq!(pending.len(), 0);
}

#[test]
fn a_result_decrypted_after_hiding_to_the_tray_is_kept() {
    let mut pending: PendingImportState<String> = PendingImportState::new();
    discard_pending_imports_on_hide(&mut pending);
    let generation = pending.generation();
    assert!(pending.insert_if_generation(generation, "fresh".to_string()).is_some());
    assert_eq!(pending.len(), 1);
}

#[test]
fn only_the_start_of_a_main_window_page_load_discards() {
    let mut pending = PendingImportState::new();
    fill_pending(&mut pending);
    let generation = pending.generation();
    discard_pending_imports_on_page_load(&mut pending, "main", false);
    discard_pending_imports_on_page_load(&mut pending, "other", true);
    assert_eq!(pending.len(), MAX_PENDING_IMPORTS);
    assert_eq!(pending.generation(), generation);
    discard_pending_imports_on_page_load(&mut pending, "main", true);
    assert_eq!(pending.len(), 0);
    assert_eq!(pending.generation(), generation + 1);
}

#[test]
fn the_exit_event_discards_every_pending_import_and_others_keep_them() {
    let mut pending = PendingImportState::new();
    fill_pending(&mut pending);
    discard_pending_imports_on_run_event(&mut pending, false);
    assert_eq!(pending.len(), MAX_PENDING_IMPORTS);
    discard_pending_imports_on_run_event(&mut pending, true);
    assert_eq!(pending.len(), 0);
}

#[test]
fn discarding_one_pending_import_leaves_the_other() {
    let mut pending = PendingImportState::new();
    let a = pending.insert("a".to_string());
    let b = pending.insert("b".to_string());
    pending.discard(Some(a));
    assert!(pending.take(a).is_none());
    assert_eq!(pending.take(b), Some("b".to_string()));
}

#[test]
fn a_taken_id_gives_nothing_the_second_time() {
    let mut pending = PendingImportState::new();
    let id = pending.insert("a".to_string());
    assert_eq!(pending.take(id), Some("a".to_string()));
    assert_eq!(pending.take(id), None);
}
