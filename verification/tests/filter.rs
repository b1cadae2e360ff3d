use sto_clare::detection::Difficulty;
use sto_clare::filter::{CombatEntry, CombatFilter, Dimension, DifficultyFilter};

#[test]
fn an_empty_filter_matches_everything() {
    let filter = CombatFilter::default();
    assert!(!filter.is_active());
    assert!(filter.matches(Some("Space"), Some(Difficulty::Elite), "Infected Space"));
    assert!(filter.matches(None, None, "Combat"));
}

#[test]
fn each_part_narrows_on_its_own() {
    let filter = CombatFilter {
        environment: Some("Ground".to_string()),
        ..Default::default()
    };
    assert!(filter.matches(Some("Ground"), None, "Bug Hunt"));
    assert!(!filter.matches(Some("Space"), None, "Bug Hunt"));
    // A combat whose map was never recognized has no environment at all.
    assert!(!filter.matches(None, None, "Combat"));

    let filter = CombatFilter {
        map: Some("Infected Space".to_string()),
        ..Default::default()
    };
    assert!(filter.matches(Some("Space"), None, "Infected Space"));
    assert!(!filter.matches(Some("Space"), None, "Hive Onslaught"));

    let filter = CombatFilter {
        difficulty: DifficultyFilter::Elite,
        ..Default::default()
    };
    assert!(filter.matches(None, Some(Difficulty::Elite), "x"));
    assert!(!filter.matches(None, Some(Difficulty::Normal), "x"));
}

fn entry(environment: Option<&str>, difficulty: Option<Difficulty>, base_name: &str) -> CombatEntry {
    CombatEntry {
        environment: environment.map(|e| e.to_string()),
        difficulty,
        base_name: base_name.to_string(),
    }
}

fn entries() -> Vec<CombatEntry> {
    vec![
        entry(Some("Space"), Some(Difficulty::Elite), "Infected Space"),
        entry(Some("Space"), Some(Difficulty::Normal), "Azure Nebula"),
        entry(Some("Ground"), Some(Difficulty::Advanced), "Bug Hunt"),
        entry(None, None, "Combat"),
    ]
}

fn passes(filter: &CombatFilter, c: &CombatEntry) -> bool {
    filter.matches(c.environment.as_deref(), c.difficulty, &c.base_name)
}

/// Choosing an environment must leave only the maps and levels that still
/// have a combat behind them.
#[test]
fn a_chosen_environment_narrows_the_other_menus() {
    let entries = entries();
    let filter = CombatFilter {
        environment: Some("Ground".to_string()),
        ..Default::default()
    };

    let maps = filter.options(&entries, Dimension::MapName).maps;
    assert_eq!(vec!["Bug Hunt".to_string()], maps);

    let levels = filter.options(&entries, Dimension::Difficulty).difficulties;
    assert!(levels.iter().any(|d| DifficultyFilter::Advanced.matches(*d)));
    assert!(!levels.iter().any(|d| DifficultyFilter::Elite.matches(*d)));
}

/// The menu being opened is not narrowed by its own current value.
#[test]
fn a_menu_is_not_narrowed_by_its_own_choice() {
    let entries = entries();
    let filter = CombatFilter {
        environment: Some("Ground".to_string()),
        ..Default::default()
    };

    let environments = filter.options(&entries, Dimension::Environment).environments;
    assert_eq!(vec!["Ground".to_string(), "Space".to_string()], environments);
}

/// Whichever of a contradictory pair is dropped, the list does not come back
/// empty.
#[test]
fn an_impossible_pair_is_resolved_rather_than_left_empty() {
    let entries = entries();
    for (environment, map) in [("Ground", "Infected Space"), ("Space", "Bug Hunt")] {
        let mut filter = CombatFilter {
            environment: Some(environment.to_string()),
            map: Some(map.to_string()),
            ..Default::default()
        };
        assert!(
            !entries.iter().any(|c| passes(&filter, c)),
            "the pair really is contradictory to begin with"
        );

        filter.drop_impossible_choices(&entries);

        assert!(
            entries.iter().any(|c| passes(&filter, c)),
            "after resolving it, something matches again"
        );
        assert!(
            filter.environment.is_some() || filter.map.is_some(),
            "only the conflicting half is given up, not both"
        );
    }
}

#[test]
fn the_unknown_level_catches_unresolved_tiers() {
    assert!(DifficultyFilter::Unknown.matches(None));
    assert!(DifficultyFilter::Unknown.matches(Some(Difficulty::Any)));
    assert!(!DifficultyFilter::Unknown.matches(Some(Difficulty::Elite)));
    assert!(DifficultyFilter::Any.matches(Some(Difficulty::Normal)));
}

#[test]
fn the_level_menu_lists_every_choice_in_order() {
    let labels: Vec<&str> = DifficultyFilter::all().iter().map(|(_, l)| *l).collect();
    assert_eq!(vec!["Any", "Normal", "Advanced", "Elite", "Unknown"], labels);
}

#[test]
fn clearing_lets_everything_through_again() {
    let mut filter = CombatFilter {
        environment: Some("Space".to_string()),
        difficulty: DifficultyFilter::Normal,
        map: Some("Azure Nebula".to_string()),
    };
    assert!(filter.is_active());
    filter.clear();
    assert!(!filter.is_active());
    assert!(entries().iter().all(|c| passes(&filter, c)));
}

#[test]
fn a_filter_that_still_matches_is_kept_whole() {
    let entries = entries();
    let mut filter = CombatFilter {
        environment: Some("Space".to_string()),
        map: Some("Azure Nebula".to_string()),
        ..Default::default()
    };
    filter.drop_impossible_choices(&entries);
    assert_eq!(Some("Space".to_string()), filter.environment);
    assert_eq!(Some("Azure Nebula".to_string()), filter.map);
}

#[test]
fn the_map_menu_is_sorted_and_lists_each_map_once() {
    let mut entries = entries();
    entries.push(entry(Some("Space"), Some(Difficulty::Elite), "Azure Nebula"));
    let maps = CombatFilter::default().options(&entries, Dimension::MapName).maps;
    assert_eq!(
        vec!["Azure Nebula".to_string(), "Bug Hunt".to_string(), "Combat".to_string(), "Infected Space".to_string()],
        maps
    );
}

#[test]
fn a_filter_change_moves_to_the_newest_combat_that_passes() {
    let combats = vec![
        entry(Some("Space"), None, "Infected Space"),
        entry(Some("Ground"), None, "Bug Hunt"),
        entry(Some("Space"), None, "Hive Onslaught"),
        entry(Some("Ground"), None, "Nukara"),
    ];
    let ground = CombatFilter {
        environment: Some("Ground".to_string()),
        ..Default::default()
    };
    // The combat shown still passes: it stays.
    assert_eq!(None, ground.follow_filter_change(&combats, Some(1)));
    // It does not: the newest ground combat is shown.
    assert_eq!(Some(3), ground.follow_filter_change(&combats, Some(2)));
    assert_eq!(Some(3), ground.follow_filter_change(&combats, None));

    let nothing = CombatFilter {
        map: Some("Tzenkethi Front".to_string()),
        ..Default::default()
    };
    // Nothing passes: the window stays where it is.
    assert_eq!(None, nothing.follow_filter_change(&combats, Some(0)));
}
