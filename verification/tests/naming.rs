use sto_clare::detection::Difficulty;
use sto_clare::naming::{append_detected_combat_type, append_detected_difficulty, CombatName};

#[test]
fn append_combat_type_adds_parenthesised_environment() {
    assert_eq!(
        append_detected_combat_type("[TFO] Into the Hive".to_string(), Some("Ground")),
        "[TFO] Into the Hive (Ground)"
    );
    // A name that already says it is not doubled.
    assert_eq!(
        append_detected_combat_type("Bug Hunt Ground".to_string(), Some("Ground")),
        "Bug Hunt Ground"
    );
    // No curated environment, or a blank one, leaves the name alone.
    assert_eq!(append_detected_combat_type("Combat".to_string(), None), "Combat");
    assert_eq!(append_detected_combat_type("Combat".to_string(), Some("  ")), "Combat");
}

#[test]
fn append_difficulty_adds_bracketed_level() {
    assert_eq!(
        append_detected_difficulty("Infected Space".to_string(), Some(Difficulty::Elite)),
        "Infected Space [Elite]"
    );
    assert_eq!(
        append_detected_difficulty("Khitomer".to_string(), Some(Difficulty::Advanced)),
        "Khitomer [Advanced]"
    );
}

#[test]
fn append_difficulty_skips_when_name_already_has_the_tier() {
    // A user rule that already says "(Elite)" must not become "... [Elite]".
    assert_eq!(
        append_detected_difficulty("Infected Conduit (Elite)".to_string(), Some(Difficulty::Elite)),
        "Infected Conduit (Elite)"
    );
}

#[test]
fn append_difficulty_unchanged_for_any_or_none() {
    assert_eq!(append_detected_difficulty("Azure Nebula".to_string(), None), "Azure Nebula");
    assert_eq!(
        append_detected_difficulty("Azure Nebula".to_string(), Some(Difficulty::Any)),
        "Azure Nebula"
    );
}

#[test]
fn the_tier_is_found_whatever_its_case() {
    assert_eq!(
        append_detected_difficulty("infected conduit elite run".to_string(), Some(Difficulty::Elite)),
        "infected conduit elite run"
    );
    assert_eq!(
        append_detected_combat_type("Bug Hunt GROUND".to_string(), Some("ground")),
        "Bug Hunt GROUND"
    );
}

#[test]
fn the_environment_is_trimmed_before_it_is_appended() {
    assert_eq!(
        append_detected_combat_type("Azure Nebula".to_string(), Some("  Space ")),
        "Azure Nebula (Space)"
    );
}

#[test]
fn appending_the_tier_twice_adds_it_once() {
    let once = append_detected_difficulty("Hive Space".to_string(), Some(Difficulty::Normal));
    let twice = append_detected_difficulty(once.clone(), Some(Difficulty::Normal));
    assert_eq!("Hive Space [Normal]", once);
    assert_eq!(once, twice);
}

#[test]
fn a_combat_name_lists_its_extra_infos() {
    let plain = CombatName::new("Borg Queen".to_string(), vec![]);
    assert_eq!("Borg Queen", plain.format());
    let with_infos = CombatName::new(
        "Borg Queen".to_string(),
        vec!["Solo".to_string(), "Pug".to_string()],
    );
    assert_eq!("Borg Queen (Solo, Pug)", with_infos.format());
}

#[test]
fn difficulty_labels_name_every_known_tier() {
    assert_eq!(None, Difficulty::Any.label());
    assert_eq!(Some("Normal"), Difficulty::Normal.label());
    assert_eq!(Some("Advanced"), Difficulty::Advanced.label());
    assert_eq!(Some("Elite"), Difficulty::Elite.label());
    assert_eq!(Difficulty::Any, sto_clare::detection::any_difficulty());
}
