use age::scrypt::Recipient;
use secrecy::SecretString;
use sensitive_masker::export::{
    decrypt_import, decrypt_import_reporting_trim, decrypt_with_whitespace_fallback, encrypt_for_export, is_paste_noise,
    retry_candidate, ExportError, MAX_WORK_FACTOR_LOG_N,
};

fn encrypt_with_cheap_work_factor(plaintext: &[u8], passphrase_text: &str) -> Vec<u8> {
    let mut recipient = Recipient::new(SecretString::from(passphrase_text.to_owned()));
    recipient.set_work_factor(4);
    age::encrypt(&recipient, plaintext).unwrap()
}

#[test]
fn retry_candidate_is_none_when_there_is_nothing_to_strip() {
    assert_eq!(retry_candidate("abc"), None);
    assert_eq!(retry_candidate(""), None);
}

#[test]
fn retry_candidate_strips_surrounding_whitespace_and_invisible_characters() {
    for (typed, expected) in [
        ("abc ", "abc"),
        (" abc", "abc"),
        ("\u{3000}abc\n", "abc"),
        ("\u{a0}abc\t", "abc"),
        ("\u{200B}abc", "abc"),
        ("abc\u{FEFF}", "abc"),
        ("\u{2060}abc\u{200D}", "abc"),
        ("\u{200C}abc", "abc"),
    ] {
        assert_eq!(retry_candidate(typed).as_deref(), Some(expected), "入力: {typed:?}");
    }
}

#[test]
fn retry_candidate_keeps_whitespace_inside_the_passphrase() {
    assert_eq!(retry_candidate("a  b ").as_deref(), Some("a  b"));
    assert_eq!(retry_candidate(" a b").as_deref(), Some("a b"));
}

#[test]
fn retry_candidate_is_none_when_only_noise_remains() {
    assert_eq!(retry_candidate("  \n"), None);
    assert_eq!(retry_candidate("\u{200B}\u{FEFF}"), None);
}

#[test]
fn paste_noise_is_white_space_and_the_invisible_characters() {
    for c in [' ', '\t', '\n', '\u{3000}', '\u{a0}', '\u{200B}', '\u{200C}', '\u{200D}', '\u{2060}', '\u{FEFF}'] {
        assert!(is_paste_noise(c), "{c:?}");
    }
    for c in ['a', '-', '\u{200E}', '\u{0}'] {
        assert!(!is_paste_noise(c), "{c:?}");
    }
}

#[test]
fn export_encrypt_then_decrypt_round_trips() {
    let plaintext = b"{\"profile_name\":\"p\",\"rules\":[]}";
    let encrypted = encrypt_for_export(plaintext, "correct-horse").unwrap();
    let decrypted = decrypt_import(&encrypted, "correct-horse").unwrap();
    assert_eq!(decrypted, plaintext);
}

#[test]
fn decrypting_with_the_wrong_passphrase_fails() {
    let encrypted = encrypt_with_cheap_work_factor(b"secret", "correct-horse");
    let result = decrypt_import(&encrypted, "wrong-horse");
    assert!(matches!(result, Err(ExportError::DecryptionFailed)));
}

#[test]
fn export_tampered_ciphertext_fails_to_decrypt() {
    let mut encrypted = encrypt_with_cheap_work_factor(b"secret data", "pw");
    let last = encrypted.len() - 1;
    encrypted[last] ^= 0xFF;
    let result = decrypt_import(&encrypted, "pw");
    assert!(matches!(result, Err(ExportError::DecryptionFailed)));
}

#[test]
fn garbage_bytes_are_rejected_instead_of_panicking() {
    let result = decrypt_import(b"not an age file at all", "pw");
    assert!(matches!(result, Err(ExportError::DecryptionFailed)));
}

#[test]
fn encrypting_with_an_empty_passphrase_is_rejected() {
    let result = encrypt_for_export(b"secret", "");
    assert!(matches!(result, Err(ExportError::EmptyPassphrase)));
}

#[test]
fn a_work_factor_at_the_local_ceiling_still_decrypts() {
    let encrypted = encrypt_with_cheap_work_factor(b"secret", "pw");
    let result = decrypt_with_whitespace_fallback(&encrypted, "pw", 4);
    assert_eq!(result.unwrap(), b"secret");
}

#[test]
fn a_work_factor_beyond_the_local_ceiling_is_reported_distinctly_from_a_wrong_passphrase() {
    let encrypted = encrypt_with_cheap_work_factor(b"secret", "pw");
    let result = decrypt_with_whitespace_fallback(&encrypted, "pw", 2);
    match result {
        Err(ExportError::ExcessiveWork { required, allowed_max }) => {
            assert_eq!(required, 4);
            assert_eq!(allowed_max, 2);
        }
        other => panic!("ExcessiveWorkを期待したが、実際は: {other:?}"),
    }
}

#[test]
fn decrypt_import_enforces_the_public_ceiling_constant_not_just_the_test_helpers_value() {
    let encrypted = encrypt_with_cheap_work_factor(b"secret", "pw");
    assert!(MAX_WORK_FACTOR_LOG_N > 4);
    assert_eq!(decrypt_import(&encrypted, "pw").unwrap(), b"secret");
}

#[test]
fn surrounding_whitespace_is_ignored_when_the_passphrase_as_typed_fails() {
    let encrypted = encrypt_with_cheap_work_factor(b"secret", "correct-horse");
    for pasted in [
        "correct-horse ",
        " correct-horse",
        "correct-horse\n",
        "correct-horse\r\n",
        "\tcorrect-horse\t",
        "\u{3000}correct-horse\u{3000}",
        "\u{a0}correct-horse\u{a0}",
    ] {
        let result = decrypt_import(&encrypted, pasted);
        assert_eq!(result.unwrap(), b"secret", "入力: {pasted:?}");
    }
}

#[test]
fn the_report_says_the_passphrase_was_trimmed_only_when_the_retry_was_needed() {
    let encrypted = encrypt_with_cheap_work_factor(b"secret", "correct-horse");
    let exact = decrypt_import_reporting_trim(&encrypted, "correct-horse").unwrap();
    assert!(!exact.passphrase_trimmed);
    let padded = decrypt_import_reporting_trim(&encrypted, " correct-horse\n").unwrap();
    assert!(padded.passphrase_trimmed);
    assert_eq!(padded.plaintext, b"secret");
}

#[test]
fn the_report_says_nothing_was_trimmed_when_the_passphrase_itself_has_whitespace() {
    let encrypted = encrypt_with_cheap_work_factor(b"secret", " spaced ");
    let as_typed = decrypt_import_reporting_trim(&encrypted, " spaced ").unwrap();
    assert!(!as_typed.passphrase_trimmed);
}

#[test]
fn a_passphrase_that_itself_has_surrounding_whitespace_decrypts_as_typed() {
    let encrypted = encrypt_with_cheap_work_factor(b"secret", " spaced passphrase ");
    assert_eq!(decrypt_import(&encrypted, " spaced passphrase ").unwrap(), b"secret");
}

#[test]
fn whitespace_is_never_added_to_the_typed_passphrase() {
    let encrypted = encrypt_with_cheap_work_factor(b"secret", "correct-horse ");
    assert!(matches!(decrypt_import(&encrypted, "correct-horse"), Err(ExportError::DecryptionFailed)));
}

#[test]
fn whitespace_inside_the_passphrase_is_kept() {
    let encrypted = encrypt_with_cheap_work_factor(b"secret", "correct horse");
    assert_eq!(decrypt_import(&encrypted, "correct horse ").unwrap(), b"secret");
    assert!(matches!(decrypt_import(&encrypted, "correct  horse"), Err(ExportError::DecryptionFailed)));
}

#[test]
fn a_wrong_passphrase_is_still_rejected_when_it_has_surrounding_whitespace() {
    let encrypted = encrypt_with_cheap_work_factor(b"secret", "correct-horse");
    assert!(matches!(decrypt_import(&encrypted, " wrong-horse\n"), Err(ExportError::DecryptionFailed)));
}

#[test]
fn a_whitespace_only_passphrase_is_rejected_without_retrying_as_empty() {
    let encrypted = encrypt_with_cheap_work_factor(b"secret", "correct-horse");
    assert!(matches!(decrypt_import(&encrypted, "  \n"), Err(ExportError::DecryptionFailed)));
}

#[test]
fn an_excessive_work_factor_is_reported_as_such_even_with_surrounding_whitespace() {
    let encrypted = encrypt_with_cheap_work_factor(b"secret", "correct-horse");
    let result = decrypt_with_whitespace_fallback(&encrypted, "correct-horse ", 2);
    assert!(matches!(result, Err(ExportError::ExcessiveWork { required: 4, allowed_max: 2 })));
}

#[test]
fn invisible_characters_around_the_passphrase_are_ignored() {
    let encrypted = encrypt_with_cheap_work_factor(b"secret", "correct-horse");
    for pasted in ["\u{FEFF}correct-horse", "correct-horse\u{200B}", "\u{2060}correct-horse\u{200D}"] {
        assert_eq!(decrypt_import(&encrypted, pasted).unwrap(), b"secret", "入力: {pasted:?}");
    }
}

#[test]
fn inner_whitespace_survives_the_retry() {
    let encrypted = encrypt_with_cheap_work_factor(b"secret", "correct  horse");
    assert_eq!(decrypt_import(&encrypted, "correct  horse ").unwrap(), b"secret");
}

#[test]
fn a_file_made_with_an_empty_passphrase_is_not_opened_by_a_whitespace_only_input() {
    let encrypted = encrypt_with_cheap_work_factor(b"secret", "");
    assert!(matches!(decrypt_import(&encrypted, "  \n"), Err(ExportError::DecryptionFailed)));
}

#[test]
fn two_encryptions_of_the_same_plaintext_and_passphrase_produce_different_ciphertext() {
    // age draws a fresh salt and file key each time, so the same input never gives the same file.
    let a = encrypt_for_export(b"same plaintext", "pw").unwrap();
    let b = encrypt_for_export(b"same plaintext", "pw").unwrap();
    assert_ne!(a, b);
}
