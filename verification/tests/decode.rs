use sensitive_masker::decode::{decode, decode_warning, resolve_encoding, stream_warning_step};
use sensitive_masker::mask_cli::CliError;

#[test]
fn resolve_encoding_accepts_a_known_whatwg_label() {
    let encoding = resolve_encoding("shift-jis").unwrap();
    assert_eq!(encoding.name(), "Shift_JIS");
}

#[test]
fn resolve_encoding_rejects_an_unknown_label() {
    assert!(resolve_encoding("not-a-real-encoding").is_err());
}

#[test]
fn an_unknown_label_is_named_in_the_error() {
    match resolve_encoding("not-a-real-encoding") {
        Err(CliError::InvalidMaskArgs(m)) => assert_eq!(m, "未知のエンコーディング名です: not-a-real-encoding"),
        _ => panic!("an unknown label is refused as an invalid argument"),
    }
}

#[test]
fn labels_are_read_without_regard_to_case_and_surrounding_space() {
    assert_eq!(resolve_encoding(" Shift_JIS ").unwrap().name(), "Shift_JIS");
}

#[test]
fn utf8_input_decodes_as_is_without_errors() {
    assert_eq!(decode("値=123".as_bytes(), None), ("値=123".to_string(), false));
}

#[test]
fn invalid_utf8_is_replaced_and_reported() {
    let (text, had_errors) = decode(b"ab\xffcd", None);
    assert_eq!(text, "ab\u{FFFD}cd");
    assert!(had_errors);
}

#[test]
fn shift_jis_bytes_decode_when_the_encoding_is_given() {
    // "秘密" in Shift_JIS.
    let bytes = [0x94u8, 0xE9, 0x96, 0xA7];
    let encoding = resolve_encoding("shift-jis").unwrap();
    assert_eq!(decode(&bytes, Some(&encoding)), ("秘密".to_string(), false));
    let (lossy, had_errors) = decode(&bytes, None);
    assert_ne!(lossy, "秘密");
    assert!(had_errors);
}

#[test]
fn the_warning_names_the_context_and_the_encoding() {
    assert_eq!(
        decode_warning("入力", None),
        "警告: 入力をUTF-8として解釈できないバイト列が含まれていたため、該当部分を置き換えて処理しました(その部分に含まれるはずの機微情報がマスクされない可能性があります)"
    );
    let encoding = resolve_encoding("sjis").unwrap();
    assert!(decode_warning("a.log", Some(&encoding)).starts_with("警告: a.logをShift_JISとして"));
}

#[test]
fn a_stream_warns_only_at_the_first_bad_line() {
    assert_eq!(stream_warning_step(false, false), (false, false));
    assert_eq!(stream_warning_step(true, false), (true, true));
    assert_eq!(stream_warning_step(true, true), (false, true));
    assert_eq!(stream_warning_step(false, true), (false, true));
}
