use sensitive_masker::masker::{apply_compiled_profile, apply_profile, CompiledProfile, MappingStore, RuleMatchCount};
use sensitive_masker::models::{Mode, PatternType, Rule, RuleProfile, RuleProfileError};


fn sequential_rule(name: &str, pattern: &str, prefix: &str) -> Rule {
    Rule::new(name.to_string(), PatternType::Regex, pattern.to_string(), Mode::Sequential, None, Some(prefix.into()), true, None)
        .unwrap()
}

fn fixed_rule(name: &str, pattern_type: PatternType, pattern: &str, fixed_value: &str) -> Rule {
    Rule::new(name.to_string(), pattern_type, pattern.to_string(), Mode::Fixed, Some(fixed_value.into()), None, true, None).unwrap()
}

#[test]
fn single_rule_replaces_match_and_reports_count() {
    let profile =
        RuleProfile::new("p".to_string(), None, vec![sequential_rule("ip", r"\d+\.\d+\.\d+\.\d+", "__MASK_IP_")]).unwrap();
    let mut store = MappingStore::new();
    let (masked, counts) = apply_profile("connect to 10.0.0.1 now", &profile, &mut store);
    assert_eq!(masked, "connect to __MASK_IP_1__ now");
    assert_eq!(counts, vec![RuleMatchCount { rule_name: "ip".into(), count: 1 }]);
}

#[test]
fn narrow_rule_before_wide_rule_no_longer_leaks_the_remainder() {
    // 4桁数字ルールが電話番号ルールより先にあっても、電話番号全体が正しく
    // 1つのクラスタとして優先され、断片が漏れない。
    let profile = RuleProfile::new(
        "p".to_string(),
        None,
        vec![
            fixed_rule("generic_4digit", PatternType::Regex, r"\d{4}", "XXXX"),
            sequential_rule("phone", r"\d{2,4}-\d{2,4}-\d{3,4}", "__MASK_PHONE_"),
        ],
    )
    .unwrap();
    let mut store = MappingStore::new();
    let (masked, counts) = apply_profile("call 090-1234-5678 now", &profile, &mut store);
    assert_eq!(masked, "call __MASK_PHONE_1__ now");
    // generic_4digitは"1234"と"5678"の2箇所にマッチするが、どちらもphoneのクラスタに
    // 吸収されるため出力には影響しない(検出はしたが単独では採用されなかった)。
    assert_eq!(counts[0].count, 2);
    assert_eq!(counts[1].count, 1);
}

#[test]
fn rule_order_does_not_affect_the_result_when_matches_overlap() {
    let profile = RuleProfile::new(
        "p".to_string(),
        None,
        vec![
            sequential_rule("phone", r"\d{2,4}-\d{2,4}-\d{3,4}", "__MASK_PHONE_"),
            fixed_rule("generic_4digit", PatternType::Regex, r"\d{4}", "XXXX"),
        ],
    )
    .unwrap();
    let mut store = MappingStore::new();
    let (masked, counts) = apply_profile("call 090-1234-5678 now", &profile, &mut store);
    assert_eq!(masked, "call __MASK_PHONE_1__ now");
    assert_eq!(counts[0].count, 1);
    assert_eq!(counts[1].count, 2);
}

#[test]
fn crossing_overlap_masks_the_full_union_without_leaking_the_remainder() {
    // 入れ子(完全包含)ではなく交差する部分重複の場合でも、勝者に負けた側の
    // 「重ならない残り部分」が漏れてはいけない。
    let profile = RuleProfile::new(
        "p".to_string(),
        None,
        vec![
            fixed_rule("first", PatternType::Literal, "abcdef", "FIRST"),
            fixed_rule("second", PatternType::Literal, "cdefgh", "SECOND"),
        ],
    )
    .unwrap();
    let mut store = MappingStore::new();
    let (masked, counts) = apply_profile("abcdefgh", &profile, &mut store);
    // "gh"が平文のまま残ってはいけない。
    assert_eq!(masked, "FIRST");
    assert_eq!(counts[0].count, 1);
    assert_eq!(counts[1].count, 1, "secondも検出はしているので件数には現れる");
}

#[test]
fn chained_crossing_overlaps_merge_into_one_cluster() {
    // A-B-Cが数珠つなぎに部分重複する場合、橋渡しの結果Aだけでは重ならなかったCとも
    // 最終的に1つのクラスタに結合される必要がある。
    let profile = RuleProfile::new(
        "p".to_string(),
        None,
        vec![
            fixed_rule("a", PatternType::Literal, "abcd", "X"), // [0,4)
            fixed_rule("b", PatternType::Literal, "cdef", "X"), // [2,6), aとのみ直接重なる
            fixed_rule("c", PatternType::Literal, "efgh", "X"), // [4,8), aとは重ならずbとのみ直接重なる
        ],
    )
    .unwrap();
    let mut store = MappingStore::new();
    let (masked, counts) = apply_profile("abcdefgh", &profile, &mut store);
    assert_eq!(masked, "X", "a/b/cが橋渡しで1つのクラスタに結合され、全体が1回だけ置換されるはず");
    assert_eq!(counts.iter().map(|c| c.count).collect::<Vec<_>>(), vec![1, 1, 1]);
}

#[test]
fn equal_length_overlapping_matches_are_resolved_by_rule_order() {
    let profile = RuleProfile::new(
        "p".to_string(),
        None,
        vec![
            fixed_rule("first", PatternType::Literal, "TOKEN", "FIRST_WINS"),
            fixed_rule("second", PatternType::Literal, "TOKEN", "SECOND_WINS"),
        ],
    )
    .unwrap();
    let mut store = MappingStore::new();
    let (masked, counts) = apply_profile("see TOKEN here", &profile, &mut store);
    assert_eq!(masked, "see FIRST_WINS here");
    assert_eq!(counts[0].count, 1);
    assert_eq!(counts[1].count, 1, "secondも同じ範囲を検出しているので件数には現れる");
}

#[test]
fn non_overlapping_matches_from_different_rules_coexist() {
    let profile = RuleProfile::new(
        "p".to_string(),
        None,
        vec![
            sequential_rule("ip", r"\d+\.\d+\.\d+\.\d+", "__MASK_IP_"),
            fixed_rule("pw", PatternType::Regex, r"(?i)password=\S+", "password=__MASK_REDACTED__"),
        ],
    )
    .unwrap();
    let mut store = MappingStore::new();
    let (masked, _) = apply_profile("10.0.0.1 password=abc123", &profile, &mut store);
    assert_eq!(masked, "__MASK_IP_1__ password=__MASK_REDACTED__");
}

#[test]
fn a_rule_matching_text_that_only_appears_inside_another_rules_dummy_value_is_not_triggered() {
    // 別ルールの置換後の値(ダミー値)に含まれる文字列は、元テキストそのものには存在しない限り
    // 決してマッチしない(常に分割前の元テキストだけを見るため、構造的に安全)。
    let profile = RuleProfile::new(
        "p".to_string(),
        None,
        vec![
            sequential_rule("ip", r"\d+\.\d+\.\d+\.\d+", "__MASK_IP_"),
            fixed_rule("literal_mask", PatternType::Literal, "MASK", "SHOULD_NOT_APPEAR"),
        ],
    )
    .unwrap();
    let mut store = MappingStore::new();
    let (masked, counts) = apply_profile("ip is 10.0.0.1 here", &profile, &mut store);
    assert_eq!(masked, "ip is __MASK_IP_1__ here");
    assert_eq!(counts[1].count, 0, "元テキストに'MASK'は存在しないのでマッチしないはず");
}

#[test]
fn same_original_value_reuses_same_dummy_in_sequential_mode() {
    let profile =
        RuleProfile::new("p".to_string(), None, vec![sequential_rule("ip", r"\d+\.\d+\.\d+\.\d+", "__MASK_IP_")]).unwrap();
    let mut store = MappingStore::new();
    let (masked, _) = apply_profile("10.0.0.1 talks to 10.0.0.1 again", &profile, &mut store);
    assert_eq!(masked, "__MASK_IP_1__ talks to __MASK_IP_1__ again");
}

#[test]
fn distinct_values_increment_counter_and_different_rules_share_prefix_counter() {
    let profile = RuleProfile::new(
        "p".to_string(),
        None,
        vec![
            sequential_rule("ip_a", r"10\.0\.0\.\d+", "__MASK_IP_"),
            sequential_rule("ip_b", r"192\.168\.0\.\d+", "__MASK_IP_"),
        ],
    )
    .unwrap();
    let mut store = MappingStore::new();
    let (masked, _) = apply_profile("10.0.0.1 and 192.168.0.5", &profile, &mut store);
    // 別ルールでも同じprefixを使えば連番カウンタを共有する(prefix単位)。
    assert_eq!(masked, "__MASK_IP_1__ and __MASK_IP_2__");
}

#[test]
fn fixed_mode_always_uses_the_same_value() {
    let profile = RuleProfile::new(
        "p".to_string(),
        None,
        vec![fixed_rule("pw", PatternType::Regex, r"(?i)password=\S+", "password=__MASK_REDACTED__")],
    )
    .unwrap();
    let mut store = MappingStore::new();
    let (masked, _) = apply_profile("password=abc123 and password=def456", &profile, &mut store);
    assert_eq!(masked, "password=__MASK_REDACTED__ and password=__MASK_REDACTED__");
}

#[test]
fn disabled_rule_is_skipped_and_omitted_from_match_counts() {
    let mut disabled = sequential_rule("ip", r"\d+\.\d+\.\d+\.\d+", "__MASK_IP_");
    disabled = Rule::new(
        disabled.name().to_string(),
        disabled.pattern_type(),
        disabled.pattern().to_string(),
        disabled.mode(),
        disabled.fixed_value().map(String::from),
        disabled.prefix().map(String::from),
        false,
        None,
    )
    .unwrap();
    let profile = RuleProfile::new("p".to_string(), None, vec![disabled]).unwrap();
    let mut store = MappingStore::new();
    let (masked, counts) = apply_profile("10.0.0.1 stays as is", &profile, &mut store);
    assert_eq!(masked, "10.0.0.1 stays as is");
    assert!(counts.is_empty(), "無効ルールはmatch_countsに現れないはず");
}

#[test]
fn text_not_matching_any_rule_is_left_untouched() {
    let profile =
        RuleProfile::new("p".to_string(), None, vec![sequential_rule("ip", r"\d+\.\d+\.\d+\.\d+", "__MASK_IP_")]).unwrap();
    let mut store = MappingStore::new();
    let (masked, counts) = apply_profile("no sensitive data here", &profile, &mut store);
    assert_eq!(masked, "no sensitive data here");
    assert_eq!(counts[0].count, 0);
}

#[test]
fn empty_profile_leaves_text_unchanged() {
    let profile = RuleProfile::new("p".to_string(), None, vec![]).unwrap();
    let mut store = MappingStore::new();
    let (masked, counts) = apply_profile("anything at all", &profile, &mut store);
    assert_eq!(masked, "anything at all");
    assert!(counts.is_empty());
}

#[test]
fn different_rules_matching_the_identical_value_get_independent_dummies() {
    let profile = RuleProfile::new(
        "p".to_string(),
        None,
        vec![
            sequential_rule("anchored", r"^TOKEN", "A_"),
            sequential_rule("unanchored", r"TOKEN", "B_"),
        ],
    )
    .unwrap();
    let mut store = MappingStore::new();
    let (masked, counts) = apply_profile("TOKEN abc TOKEN", &profile, &mut store);
    assert_eq!(masked, "A_1__ abc B_1__");
    // unanchoredは2箇所にマッチする: 1つめは"anchored"との同じ範囲・同じ長さの重なりで
    // ルール順序により負けるが検出はしている、2つめは単独でマッチして採用される。
    assert_eq!(counts[1].count, 2);
}

#[test]
fn duplicate_rule_names_are_rejected_at_profile_construction() {
    let dup_a = sequential_rule("dup", r"^SECRET", "A_");
    let dup_b = sequential_rule("dup", r"SECRET", "B_");
    let err = RuleProfile::new("p".to_string(), None, vec![dup_a, dup_b]).expect_err("ルール名の重複は拒否されるはず");
    assert!(matches!(err, RuleProfileError::DuplicateRuleName { .. }));
}

#[test]
fn multibyte_japanese_text_round_trips_correctly() {
    let profile = RuleProfile::new(
        "p".to_string(),
        None,
        vec![sequential_rule("phone", r"\d{2,4}-\d{2,4}-\d{3,4}", "__MASK_PHONE_")],
    )
    .unwrap();
    let mut store = MappingStore::new();
    let (masked, _) = apply_profile("担当者の電話番号は090-1234-5678です。", &profile, &mut store);
    assert_eq!(masked, "担当者の電話番号は__MASK_PHONE_1__です。");
}

#[test]
fn compiled_profile_can_be_reused_across_multiple_texts() {
    // --streamのように、1つのプロファイルを多数の行に繰り返し適用するユースケースの検証。
    let profile =
        RuleProfile::new("p".to_string(), None, vec![sequential_rule("ip", r"\d+\.\d+\.\d+\.\d+", "__MASK_IP_")]).unwrap();
    let compiled = CompiledProfile::compile(&profile);
    let mut store = MappingStore::new();

    let (line1, _) = apply_compiled_profile("first line 10.0.0.1", &compiled, &mut store);
    let (line2, _) = apply_compiled_profile("second line 10.0.0.1 and 192.168.0.1", &compiled, &mut store);

    assert_eq!(line1, "first line __MASK_IP_1__");
    // storeを跨いで共有しているので、同じ値には同じダミーが割り当てられる。
    assert_eq!(line2, "second line __MASK_IP_1__ and __MASK_IP_2__");
}


#[test]
fn masking_the_same_text_from_equal_stores_gives_equal_results() {
    let profile = RuleProfile::new(
        "p".to_string(),
        None,
        vec![
            sequential_rule("ip", r"\d+\.\d+\.\d+\.\d+", "__IP_"),
            fixed_rule("host", PatternType::Literal, "10.0.0", "__NET__"),
        ],
    )
    .unwrap();
    let text = "a 10.0.0.1 b 10.0.0.2 c 10.0.0.1";
    let mut first = MappingStore::new();
    let mut second = MappingStore::new();
    let a = apply_profile(text, &profile, &mut first);
    let b = apply_profile(text, &profile, &mut second);
    assert_eq!(a, b);
    assert_eq!(a.0, "a __IP_1__ b __IP_2__ c __IP_1__");
}
