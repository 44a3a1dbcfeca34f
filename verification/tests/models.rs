use sensitive_masker::models::{
    validate_display_name, Mode, PatternType, Rule, RuleError, RuleProfile, RuleProfileError, MAX_DISPLAY_NAME_LENGTH,
};

fn valid_fixed_rule() -> Result<Rule, RuleError> {
    Rule::new(
        "password_kv".to_string(),
        PatternType::Regex,
        r"(?i)password=\S+".to_string(),
        Mode::Fixed,
        Some("password=__MASK_REDACTED__".to_string()),
        None,
        true,
        None,
    )
}

fn valid_sequential_rule() -> Result<Rule, RuleError> {
    Rule::new(
        "ipv4".to_string(),
        PatternType::Regex,
        r"\b(?:\d{1,3}\.){3}\d{1,3}\b".to_string(),
        Mode::Sequential,
        None,
        Some("__MASK_IP_".to_string()),
        true,
        None,
    )
}

fn literal_rule_named(name: &str, pattern: &str) -> Result<Rule, RuleError> {
    Rule::new(name.to_string(), PatternType::Literal, pattern.to_string(), Mode::Fixed, Some("x".to_string()), None, true, None)
}

#[test]
fn fixed_mode_without_fixed_value_is_rejected() {
    let err = Rule::new("r1".to_string(), PatternType::Literal, "x".to_string(), Mode::Fixed, None, None, true, None)
        .expect_err("fixed_value必須のはず");
    assert!(matches!(err, RuleError::MissingFixedValue { .. }));
}

#[test]
fn fixed_mode_with_fixed_value_succeeds() {
    assert!(valid_fixed_rule().is_ok());
}

#[test]
fn sequential_mode_without_prefix_is_rejected() {
    let err = Rule::new("r1".to_string(), PatternType::Literal, "x".to_string(), Mode::Sequential, None, None, true, None)
        .expect_err("prefix必須のはず");
    assert!(matches!(err, RuleError::MissingPrefix { .. }));
}

#[test]
fn sequential_mode_with_prefix_succeeds() {
    assert!(valid_sequential_rule().is_ok());
}

#[test]
fn rule_name_exceeding_the_length_limit_is_rejected() {
    let too_long = "a".repeat(MAX_DISPLAY_NAME_LENGTH + 1);
    let err = literal_rule_named(&too_long, "x").expect_err("長さ上限超過は拒否されるはず");
    assert!(matches!(err, RuleError::InvalidName { .. }));
}

#[test]
fn rule_name_at_the_length_limit_is_accepted() {
    let at_limit = "a".repeat(MAX_DISPLAY_NAME_LENGTH);
    let rule = literal_rule_named(&at_limit, "x");
    assert!(rule.is_ok());
}

#[test]
fn rule_name_containing_a_control_character_is_rejected() {
    let err = literal_rule_named("r1\u{0007}", "x").expect_err("制御文字を含む名前は拒否されるはず");
    assert!(matches!(err, RuleError::InvalidName { .. }));
}

#[test]
fn rule_name_containing_a_bidi_override_character_is_rejected() {
    let err = literal_rule_named("r1\u{202E}", "x").expect_err("双方向書式文字を含む名前は拒否されるはず");
    assert!(matches!(err, RuleError::InvalidName { .. }));
}

#[test]
fn regex_pattern_type_rejects_patterns_that_compile_to_an_excessive_size() {
    let err = Rule::new(
        "r1".to_string(),
        PatternType::Regex,
        "(?:a{200}){200}".to_string(),
        Mode::Fixed,
        Some("x".to_string()),
        None,
        true,
        None,
    )
    .expect_err("既定より厳しいsize_limitにより拒否されるはず");
    assert!(matches!(err, RuleError::InvalidRegex { .. }));
}

#[test]
fn regex_pattern_type_rejects_invalid_regex_syntax() {
    let err = Rule::new(
        "r1".to_string(),
        PatternType::Regex,
        r"(?=lookahead_not_supported)".to_string(),
        Mode::Fixed,
        Some("x".to_string()),
        None,
        true,
        None,
    )
    .expect_err("lookaheadは非対応のはず");
    assert!(matches!(err, RuleError::InvalidRegex { .. }));
}

#[test]
fn literal_pattern_type_does_not_validate_pattern_as_regex() {
    let rule = literal_rule_named("r1", "a(b");
    assert!(rule.is_ok());
}

#[test]
fn rule_profile_holds_rules_in_order() {
    let profile = RuleProfile::new(
        "general".to_string(),
        Some("desc".to_string()),
        vec![valid_fixed_rule().unwrap(), valid_sequential_rule().unwrap()],
    )
    .unwrap();
    assert_eq!(profile.rules().len(), 2);
    assert_eq!(profile.rules()[0].name(), "password_kv");
    assert_eq!(profile.rules()[1].name(), "ipv4");
}

#[test]
fn profile_name_exceeding_the_length_limit_is_rejected() {
    let too_long = "a".repeat(MAX_DISPLAY_NAME_LENGTH + 1);
    let err = RuleProfile::new(too_long, None, vec![]).expect_err("長さ上限超過は拒否されるはず");
    assert!(matches!(err, RuleProfileError::InvalidProfileName { .. }));
}

#[test]
fn profile_name_containing_a_bidi_override_character_is_rejected() {
    let err = RuleProfile::new("p\u{202E}".to_string(), None, vec![]).expect_err("双方向書式文字を含む名前は拒否されるはず");
    assert!(matches!(err, RuleProfileError::InvalidProfileName { .. }));
}

#[test]
fn validate_display_name_reports_the_length_and_the_limit() {
    let too_long = "あ".repeat(MAX_DISPLAY_NAME_LENGTH + 1);
    let err = validate_display_name(&too_long).unwrap_err();
    assert_eq!(err, "長すぎます(101文字、上限100文字)");
}

#[test]
fn validate_display_name_names_the_offending_character_by_code_point() {
    let err = validate_display_name("a\u{202E}b").unwrap_err();
    assert!(err.contains("U+202E"), "{err}");
    let err = validate_display_name("tab\there").unwrap_err();
    assert!(err.contains("U+0009"), "{err}");
}

#[test]
fn validate_display_name_accepts_an_empty_name_and_plain_text() {
    assert!(validate_display_name("").is_ok());
    assert!(validate_display_name("ok name").is_ok());
}

#[test]
fn the_message_of_a_refused_profile_names_the_duplicate_rule() {
    let err = RuleProfile::new(
        "p".to_string(),
        None,
        vec![literal_rule_named("dup", "a").unwrap(), literal_rule_named("dup", "b").unwrap()],
    )
    .unwrap_err();
    assert_eq!(err.message(), "プロファイル内でルール名が重複しています: 'dup'");
}

#[test]
fn a_duplicated_rule_has_the_same_content() {
    let rule = valid_sequential_rule().unwrap();
    let copy = rule.duplicate();
    assert_eq!(copy.name(), rule.name());
    assert_eq!(copy.pattern(), rule.pattern());
    assert_eq!(copy.prefix(), rule.prefix());
    assert_eq!(copy.mode(), rule.mode());
}

fn rule_with(name: &str, pattern: &str, mode: Mode, fixed: Option<&str>, prefix: Option<&str>) -> Result<Rule, RuleError> {
    Rule::new(
        name.to_string(),
        PatternType::Regex,
        pattern.to_string(),
        mode,
        fixed.map(str::to_string),
        prefix.map(str::to_string),
        true,
        None,
    )
}

#[test]
fn rule_error_messages_name_the_rule() {
    let err = rule_with("r1", "a", Mode::Fixed, None, None).unwrap_err();
    assert_eq!(err.message(), "ルール 'r1': mode='fixed' の場合は 'fixed_value' が必須です");
    let err = rule_with("r2", "a", Mode::Sequential, None, None).unwrap_err();
    assert_eq!(err.message(), "ルール 'r2': mode='sequential' の場合は 'prefix' が必須です");
    let err = rule_with("r3", "(", Mode::Fixed, Some("X"), None).unwrap_err();
    let m = err.message();
    assert!(m.starts_with("ルール 'r3': 'pattern' が正しい正規表現ではありません: "), "{m}");
    assert!(m.len() > "ルール 'r3': 'pattern' が正しい正規表現ではありません: ".len());
    let err = rule_with("a\u{7}", "a", Mode::Fixed, Some("X"), None).unwrap_err();
    assert_eq!(err.message(), "ルール名 'a\u{7}' が不正です: 使用できない文字が含まれています(U+0007)");
}
