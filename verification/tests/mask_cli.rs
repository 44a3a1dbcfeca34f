use sensitive_masker::mask_cli::{
    confirm_passphrase, is_yes_answer, resolve_mask_mode, trim_line_ending, warning_for_score, weak_passphrase_warning, CliError,
    MaskArgs, MaskMode,
};

fn base_args() -> MaskArgs {
    MaskArgs {
        profile: None,
        input: None,
        output: None,
        batch: false,
        reset_mapping_per_file: false,
        stream: false,
        encoding: None,
    }
}

fn message_of(args: &MaskArgs) -> String {
    match resolve_mask_mode(args) {
        Err(CliError::InvalidMaskArgs(m)) => m,
        other => panic!("expected an argument error, got {other:?}"),
    }
}

#[test]
fn no_flags_resolves_to_one_shot_stdio() {
    assert_eq!(resolve_mask_mode(&base_args()).unwrap(), MaskMode::OneShotStdio);
}

#[test]
fn input_and_output_resolve_to_file_mode() {
    let mut args = base_args();
    args.input = Some("in.txt".into());
    args.output = Some("out.txt".into());
    assert_eq!(
        resolve_mask_mode(&args).unwrap(),
        MaskMode::File { input: "in.txt".into(), output: "out.txt".into() }
    );
}

#[test]
fn input_without_output_is_rejected() {
    let mut args = base_args();
    args.input = Some("in.txt".into());
    assert!(resolve_mask_mode(&args).is_err());
}

#[test]
fn output_without_input_is_rejected() {
    let mut args = base_args();
    args.output = Some("out.txt".into());
    assert!(resolve_mask_mode(&args).is_err());
}

#[test]
fn batch_with_both_dirs_resolves_to_batch_mode() {
    let mut args = base_args();
    args.batch = true;
    args.input = Some("in_dir".into());
    args.output = Some("out_dir".into());
    assert_eq!(
        resolve_mask_mode(&args).unwrap(),
        MaskMode::Batch { input_dir: "in_dir".into(), output_dir: "out_dir".into(), reset_mapping_per_file: false }
    );
}

#[test]
fn batch_without_dirs_is_rejected() {
    let mut args = base_args();
    args.batch = true;
    assert!(resolve_mask_mode(&args).is_err());
}

#[test]
fn reset_mapping_per_file_without_batch_is_rejected() {
    let mut args = base_args();
    args.reset_mapping_per_file = true;
    assert!(resolve_mask_mode(&args).is_err());
}

#[test]
fn stream_combined_with_batch_is_rejected() {
    let mut args = base_args();
    args.stream = true;
    args.batch = true;
    assert!(resolve_mask_mode(&args).is_err());
}

#[test]
fn stream_combined_with_input_is_rejected() {
    let mut args = base_args();
    args.stream = true;
    args.input = Some("in.txt".into());
    assert!(resolve_mask_mode(&args).is_err());
}

#[test]
fn stream_combined_with_reset_mapping_per_file_is_rejected() {
    let mut args = base_args();
    args.stream = true;
    args.reset_mapping_per_file = true;
    assert!(resolve_mask_mode(&args).is_err());
}

#[test]
fn stream_alone_resolves_to_stream_mode() {
    let mut args = base_args();
    args.stream = true;
    assert_eq!(resolve_mask_mode(&args).unwrap(), MaskMode::Stream);
}

#[test]
fn batch_keeps_the_reset_flag() {
    let mut args = base_args();
    args.batch = true;
    args.reset_mapping_per_file = true;
    args.input = Some("a".into());
    args.output = Some("b".into());
    assert_eq!(
        resolve_mask_mode(&args).unwrap(),
        MaskMode::Batch { input_dir: "a".into(), output_dir: "b".into(), reset_mapping_per_file: true }
    );
}

#[test]
fn each_refusal_says_which_flags_do_not_fit() {
    let mut stream = base_args();
    stream.stream = true;
    stream.output = Some("x".into());
    assert_eq!(message_of(&stream), "--streamは--batch/--input/--output/--reset-mapping-per-fileと同時に指定できません");

    let mut batch = base_args();
    batch.batch = true;
    batch.input = Some("x".into());
    assert_eq!(message_of(&batch), "--batchには--inputと--output(いずれもディレクトリ)の両方が必要です");

    let mut reset = base_args();
    reset.reset_mapping_per_file = true;
    assert_eq!(message_of(&reset), "--reset-mapping-per-fileは--batchと同時に指定してください");

    let mut half = base_args();
    half.output = Some("x".into());
    assert_eq!(message_of(&half), "--inputと--outputは両方指定してください");
}

#[test]
fn confirm_passphrase_accepts_matching_input() {
    let result = confirm_passphrase("same".to_string(), "same".to_string());
    assert!(result.is_ok());
    assert_eq!(result.unwrap(), "same");
}

#[test]
fn confirm_passphrase_rejects_mismatched_input() {
    let err = confirm_passphrase("first".to_string(), "second".to_string()).expect_err("不一致は拒否されるはず");
    assert!(matches!(err, CliError::PassphraseMismatch));
}

#[test]
fn weak_passphrase_warning_flags_a_short_repeated_pattern() {
    let warning = weak_passphrase_warning("AAAAAA");
    assert!(warning.is_some(), "'AAAAAA'のような繰り返しパターンは弱いと判定されるはず");
}

#[test]
fn weak_passphrase_warning_accepts_a_long_random_passphrase() {
    let warning = weak_passphrase_warning("xk3f-9pQ2-mVwZ-7Ltc-random");
    assert!(warning.is_none(), "十分に長くランダムなパスフレーズは警告されないはず");
}

#[test]
fn the_warning_names_the_score_out_of_four() {
    assert_eq!(
        warning_for_score(1).unwrap(),
        "警告: このパスフレーズは推測されやすい可能性があります(強度: 1/4、推奨: 3以上)"
    );
    assert!(warning_for_score(3).is_none());
    assert!(warning_for_score(4).is_none());
    assert!(weak_passphrase_warning("").unwrap().contains("強度: 0/4"));
}

#[test]
fn a_streamed_line_loses_its_line_ending_only() {
    let mut line = b"abc\r\n".to_vec();
    trim_line_ending(&mut line);
    assert_eq!(line, b"abc");
    let mut inner = b"a\rb\n\n".to_vec();
    trim_line_ending(&mut inner);
    assert_eq!(inner, b"a\rb");
    let mut plain = b"plain".to_vec();
    trim_line_ending(&mut plain);
    assert_eq!(plain, b"plain");
}

#[test]
fn yes_answers_are_recognised_around_white_space() {
    for answer in ["y", "Y", "yes", "Yes", "YES", "y\n", "  yes \r\n"] {
        assert!(is_yes_answer(answer), "{answer:?}");
    }
}

#[test]
fn anything_else_is_no() {
    for answer in ["", "\n", "n", "no", "yEs", "ye", "y y", "はい"] {
        assert!(!is_yes_answer(answer), "{answer:?}");
    }
}
