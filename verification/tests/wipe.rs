use sensitive_masker::wipe::{contains_marker, is_all_zero, state_at_free, wipe_report, FreeState};

#[test]
fn a_block_that_holds_the_marker_is_found() {
    assert!(contains_marker(b"xx-secret-xx", b"secret"));
    assert!(contains_marker(b"secret", b"secret"));
    assert!(contains_marker(b"ab", b"b"));
}

#[test]
fn a_block_without_the_marker_or_shorter_than_it_is_not_found() {
    assert!(!contains_marker(b"xx-secre-xx", b"secret"));
    assert!(!contains_marker(b"sec", b"secret"));
    assert!(!contains_marker(b"", b"s"));
}

#[test]
fn only_zeros_count_as_wiped() {
    assert!(is_all_zero(&[0, 0, 0]));
    assert!(is_all_zero(&[]));
    assert!(!is_all_zero(&[0, 1, 0]));
}

#[test]
fn a_freed_block_is_clean_only_when_wiped() {
    assert_eq!(state_at_free(&[0u8; 16]), FreeState::FreedClean);
    assert_eq!(state_at_free(b"dummy-secret"), FreeState::FreedDirty);
}

#[test]
fn the_report_counts_blocks_not_freed_and_freed_unwiped() {
    let states = [
        FreeState::Pending,
        FreeState::FreedClean,
        FreeState::FreedDirty,
        FreeState::FreedDirty,
        FreeState::Pending,
        FreeState::FreedClean,
    ];
    assert_eq!(wipe_report(&states), (2, 2));
    assert_eq!(wipe_report(&[]), (0, 0));
    assert_eq!(wipe_report(&[FreeState::FreedClean]), (0, 0));
}
