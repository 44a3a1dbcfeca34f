use sensitive_masker::masker::{apply_profile, MappingStore};
use sensitive_masker::matcher::find_matches;
use sensitive_masker::models::{Mode, PatternType, Rule, RuleProfile};


fn literal_rule(pattern: &str) -> Rule {
    Rule::new("r".to_string(), PatternType::Literal, pattern.to_string(), Mode::Fixed, Some("X".into()), None, true, None).unwrap()
}

fn regex_rule(pattern: &str) -> Rule {
    Rule::new("r".to_string(), PatternType::Regex, pattern.to_string(), Mode::Fixed, Some("X".into()), None, true, None).unwrap()
}

#[test]
fn literal_matches_regex_special_characters_verbatim() {
    let rule = literal_rule("a.b(c)");
    let matches = find_matches("prefix a.b(c) suffix", &rule);
    assert_eq!(matches.len(), 1);
    assert_eq!(matches[0].matched_text, "a.b(c)");
}

#[test]
fn literal_does_not_match_when_only_the_regex_interpretation_would() {
    // "a.b(c)"をregexとして解釈すればマッチする文字列だが、literalなのでマッチしない否定テスト。
    let rule = literal_rule("a.b(c)");
    let matches = find_matches("aXbc suffix", &rule);
    assert!(matches.is_empty());
}

#[test]
fn disabled_rule_returns_no_matches() {
    let rule = Rule::new("r".to_string(), PatternType::Literal, "secret".to_string(), Mode::Fixed, Some("X".into()), None, false, None)
        .unwrap();
    let matches = find_matches("this contains secret data", &rule);
    assert!(matches.is_empty(), "無効化されたルールはマッチしないはず");
}

#[test]
fn regex_returns_non_overlapping_left_to_right_matches() {
    let rule = regex_rule(r"\d+");
    let matches = find_matches("a1 b22 c333", &rule);
    let texts: Vec<_> = matches.iter().map(|m| m.matched_text.as_str()).collect();
    assert_eq!(texts, vec!["1", "22", "333"]);
}

#[test]
fn zero_width_regex_match_is_excluded_instead_of_matching_every_position() {
    // "x*"はxが無いテキストにも各位置でゼロ幅マッチしうるが、そのようなマッチは
    // 何も保護しないまま後続ルールを無力化する実害があるため除外されるべき。
    let rule = regex_rule(r"x*");
    let matches = find_matches("abc", &rule);
    assert!(matches.is_empty(), "ゼロ幅マッチは除外されるはず");
}

#[test]
fn empty_literal_pattern_produces_no_matches() {
    let rule = literal_rule("");
    let matches = find_matches("abc", &rule);
    assert!(matches.is_empty(), "空文字列literalはゼロ幅マッチなので除外されるはず");
}

#[test]
fn zero_width_capable_rule_does_not_disable_a_later_rule() {
    // ゼロ幅マッチ可能なルールが紛れ込んでも、後続ルールの検出対象を破壊しない。

    let decoy = Rule::new("decoy".to_string(), PatternType::Regex, "a*".to_string(), Mode::Fixed, Some("X".into()), None, true, None)
        .unwrap();
    let phone = Rule::new(
        "phone".to_string(),
        PatternType::Regex,
        r"\d{2,4}-\d{2,4}-\d{3,4}".to_string(),
        Mode::Sequential,
        None,
        Some("__MASK_PHONE_".into()),
        true,
        None,
    )
    .unwrap();
    let profile = RuleProfile::new("p".to_string(), None, vec![decoy, phone]).unwrap();
    let mut store = MappingStore::new();

    let (masked, counts) = apply_profile("電話番号は090-1234-5678です", &profile, &mut store);

    assert_eq!(masked, "電話番号は__MASK_PHONE_1__です");
    assert_eq!(counts[1].count, 1);
}

#[test]
fn multibyte_japanese_text_uses_consistent_byte_offsets() {
    let rule = regex_rule(r"\d{2,4}-\d{2,4}-\d{3,4}");
    let text = "電話番号は090-1234-5678です";
    let matches = find_matches(text, &rule);
    assert_eq!(matches.len(), 1);
    assert_eq!(matches[0].matched_text, "090-1234-5678");
    assert_eq!(&text[matches[0].start..matches[0].end], "090-1234-5678");
}

