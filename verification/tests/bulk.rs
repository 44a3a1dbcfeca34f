use sensitive_masker::bulk::{resolve_name, StringHashSet};

fn taken_of(names: &[&str]) -> StringHashSet {
    let mut taken = StringHashSet::new();
    for n in names {
        taken.insert(n.to_string());
    }
    taken
}

#[test]
fn keeps_the_original_name_when_not_taken() {
    let mut taken = StringHashSet::new();
    let (name, renamed) = resolve_name("work", &mut taken);
    assert_eq!(name, "work");
    assert!(!renamed);
}

#[test]
fn appends_a_marker_on_first_collision() {
    let mut taken = taken_of(&["work"]);
    let (name, renamed) = resolve_name("work", &mut taken);
    assert_eq!(name, "work (インポート)");
    assert!(renamed);
}

#[test]
fn appends_a_counter_on_repeated_collisions() {
    let mut taken = taken_of(&["work", "work (インポート)"]);
    let (name, renamed) = resolve_name("work", &mut taken);
    assert_eq!(name, "work (インポート 2)");
    assert!(renamed);
}

#[test]
fn skips_over_multiple_existing_counters() {
    let mut taken = taken_of(&["work", "work (インポート)", "work (インポート 2)", "work (インポート 3)"]);
    let (name, renamed) = resolve_name("work", &mut taken);
    assert_eq!(name, "work (インポート 4)");
    assert!(renamed);
}

#[test]
fn marks_each_resolved_name_as_taken_so_siblings_in_the_same_batch_do_not_collide() {
    let mut taken = taken_of(&["work"]);
    let (first, _) = resolve_name("work", &mut taken);
    let (second, _) = resolve_name("work", &mut taken);
    assert_ne!(first, second);
}

#[test]
fn different_names_do_not_affect_each_other() {
    let mut taken = StringHashSet::new();
    let (a, renamed_a) = resolve_name("work", &mut taken);
    let (b, renamed_b) = resolve_name("personal", &mut taken);
    assert_eq!(a, "work");
    assert_eq!(b, "personal");
    assert!(!renamed_a);
    assert!(!renamed_b);
}

#[test]
fn the_resolved_name_is_added_to_the_taken_set() {
    let mut taken = taken_of(&["work"]);
    let (name, _) = resolve_name("work", &mut taken);
    assert!(taken.contains(&name));
    assert!(taken.contains("work"));
}

#[test]
fn a_gap_in_the_counters_is_filled_first() {
    let mut taken = taken_of(&["work", "work (インポート)", "work (インポート 3)"]);
    let (name, _) = resolve_name("work", &mut taken);
    assert_eq!(name, "work (インポート 2)");
}

#[test]
fn counters_go_past_nine() {
    let mut names: Vec<String> = vec!["w".to_string(), "w (インポート)".to_string()];
    for n in 2..10 {
        names.push(format!("w (インポート {n})"));
    }
    let refs: Vec<&str> = names.iter().map(|s| s.as_str()).collect();
    let mut taken = taken_of(&refs);
    let (name, _) = resolve_name("w", &mut taken);
    assert_eq!(name, "w (インポート 10)");
}
