use task_googlecloud::normalization_plan::build_from_targets;
use task_googlecloud::{build_normalization_plan, normalized, AppError, Entry};

#[test]
fn builds_nfc_targets() {
    let decomposed = "e\u{301}.txt".to_string();
    assert_eq!(
        build_normalization_plan(std::slice::from_ref(&decomposed)).unwrap(),
        vec![Entry {
            source: decomposed,
            target: "é.txt".to_string(),
        }]
    );
}

#[test]
fn rejects_normalized_collisions_before_side_effects() {
    let result = build_normalization_plan(&["e\u{301}.txt".to_string(), "é.txt".to_string()]);
    assert!(matches!(result, Err(AppError::Collision(_))));
}

#[test]
fn normalizes_to_nfc() {
    assert_eq!(normalized("plain.txt"), "plain.txt");
    assert_eq!(normalized("A\u{30a}ngstro\u{308}m"), "Ångström");
    assert_eq!(normalized("\u{212b}"), "\u{c5}");
    assert_eq!(normalized(""), "");
}

#[test]
fn accepted_targets_differ_from_each_other() {
    let names = ["b", "a", "e\u{301}"].map(str::to_string);
    let plan = build_normalization_plan(&names).unwrap();
    assert_eq!(plan.len(), 3);
    for (index, entry) in plan.iter().enumerate() {
        assert!(plan[..index].iter().all(|earlier| earlier.target != entry.target));
        assert_eq!(entry.target, normalized(&entry.source));
    }
}

#[test]
fn collisions_name_every_colliding_target() {
    let names = ["e\u{301}", "z", "\u{e9}", "A\u{30a}", "\u{c5}"].map(str::to_string);
    let error = build_normalization_plan(&names).unwrap_err();
    assert_eq!(error.to_string(), "Normalized names collide: \u{c5}, \u{e9}");
}

#[test]
fn a_plan_pairs_every_name_with_its_target_in_order() {
    let names = ["b", "a"].map(str::to_string);
    let targets = ["y", "x"].map(str::to_string);
    let plan = build_from_targets(&names, &targets).unwrap();
    assert_eq!(
        plan,
        vec![
            Entry { source: "b".to_string(), target: "y".to_string() },
            Entry { source: "a".to_string(), target: "x".to_string() },
        ]
    );
    assert!(build_from_targets(&[], &[]).unwrap().is_empty());
}

#[test]
fn repeated_targets_are_named_once_and_ascending() {
    let names = ["1", "2", "3", "4", "5", "6"].map(str::to_string);
    let targets = ["z", "m", "z", "a", "m", "z"].map(str::to_string);
    let error = build_from_targets(&names, &targets).unwrap_err();
    assert_eq!(error.to_string(), "Normalized names collide: m, z");
}
