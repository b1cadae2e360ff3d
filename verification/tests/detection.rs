use sto_clare::detection::{
    curated_map_identifiers, curated_map_names, detect, Critter, DeathTable, DetectionRules,
    Difficulty, HullVerdicts, MapDef,
};

fn map(name: &str, category: Option<&str>, identifiers: &[&str]) -> MapDef {
    MapDef {
        name: name.to_string(),
        category: category.map(|c| c.to_string()),
        combat_type: Some("Space".to_string()),
        difficulty: Difficulty::Any,
        identifiers: identifiers.iter().map(|s| s.to_string()).collect(),
        identifiers_all: vec![],
        death_counts: vec![],
        hull_counts: vec![],
        hull_any: vec![],
    }
}

fn table(tier: Difficulty, entries: &[(&str, u32)]) -> DeathTable {
    DeathTable {
        tier,
        entries: entries.iter().map(|(n, d)| (n.to_string(), *d)).collect(),
    }
}

fn critters(entries: &[(&str, u32)]) -> Vec<Critter> {
    entries
        .iter()
        .map(|(n, d)| Critter { unique_name: n.to_string(), deaths: *d })
        .collect()
}

fn no_hull(rules: &DetectionRules) -> Vec<HullVerdicts> {
    rules
        .maps
        .iter()
        .map(|m| HullVerdicts { counts: vec![false; m.hull_counts.len()], any: vec![false; m.hull_any.len()] })
        .collect()
}

fn rules() -> DetectionRules {
    let mut infected = map("Infected: The Conduit", Some("TFO"), &["Space_Borg_Transwarp"]);
    infected.death_counts = vec![
        table(Difficulty::Advanced, &[("Space_Borg_Boss", 1), ("Space_Borg_Cruiser", 6)]),
        table(Difficulty::Elite, &[("Space_Borg_Boss", 1), ("Space_Borg_Elite_Cruiser", 0)]),
    ];
    let mut hive = map("Hive Space", Some("TFO"), &["Space_Hive_Dreadnought"]);
    hive.hull_counts = vec![Difficulty::Advanced, Difficulty::Elite];
    let mut fixed = map("Battle at the Binary Stars", Some(" "), &["Space_Binary_Flagship"]);
    fixed.difficulty = Difficulty::Normal;
    let mut pair = map("Azure Nebula Rescue", None, &[]);
    pair.identifiers_all = vec!["Space_Tholian_Web".to_string(), "Space_Romulan_Ally".to_string()];
    let quiet = map("Unlisted", None, &[]);
    DetectionRules { maps: vec![infected, hive, fixed, pair, quiet] }
}

#[test]
fn unknown_map_when_no_identifier_is_present() {
    let rules = rules();
    let found = detect(&rules, &critters(&[("Some_Random_Npc", 3)]), &no_hull(&rules));
    assert!(found.map.is_none());
    assert!(found.difficulty.is_none());
    assert!(found.combat_type.is_none());
}

#[test]
fn death_counts_pick_the_tier() {
    let rules = rules();
    let c = critters(&[("Space_Borg_Transwarp", 1), ("Space_Borg_Boss", 1), ("Space_Borg_Cruiser", 6)]);
    let found = detect(&rules, &c, &no_hull(&rules));
    assert_eq!(Some("[TFO] Infected: The Conduit".to_string()), found.map);
    assert_eq!(Some(Difficulty::Advanced), found.difficulty);
    assert_eq!(Some("Space".to_string()), found.combat_type);
}

#[test]
fn the_elite_table_wins_when_both_match() {
    let rules = rules();
    let c = critters(&[
        ("Space_Borg_Transwarp", 1),
        ("Space_Borg_Boss", 1),
        ("Space_Borg_Cruiser", 6),
        ("Space_Borg_Elite_Cruiser", 4),
    ]);
    let found = detect(&rules, &c, &no_hull(&rules));
    assert_eq!(Some(Difficulty::Elite), found.difficulty);
}

#[test]
fn a_known_map_with_wrong_counts_stays_any() {
    let rules = rules();
    let c = critters(&[("Space_Borg_Transwarp", 1), ("Space_Borg_Boss", 2)]);
    let found = detect(&rules, &c, &no_hull(&rules));
    assert_eq!(Some("[TFO] Infected: The Conduit".to_string()), found.map);
    assert_eq!(Some(Difficulty::Any), found.difficulty);
}

#[test]
fn hull_damage_settles_the_tier_where_deaths_cannot() {
    let rules = rules();
    let c = critters(&[("Space_Hive_Dreadnought", 1)]);
    let mut hull = no_hull(&rules);
    assert_eq!(None, detect(&rules, &c, &hull).difficulty);
    hull[1].counts = vec![true, false];
    assert_eq!(Some(Difficulty::Advanced), detect(&rules, &c, &hull).difficulty);
    hull[1].counts = vec![true, true];
    assert_eq!(Some(Difficulty::Elite), detect(&rules, &c, &hull).difficulty);
}

#[test]
fn a_map_that_pins_its_tier_wins_and_a_blank_category_is_no_prefix() {
    let rules = rules();
    let c = critters(&[("Space_Binary_Flagship", 0), ("Space_Hive_Dreadnought", 1)]);
    let found = detect(&rules, &c, &no_hull(&rules));
    assert_eq!(Some("Battle at the Binary Stars".to_string()), found.map);
    assert_eq!(Some(Difficulty::Normal), found.difficulty);
}

#[test]
fn an_all_of_map_needs_every_entity() {
    let rules = rules();
    let one = critters(&[("Space_Tholian_Web", 0)]);
    assert!(detect(&rules, &one, &no_hull(&rules)).map.is_none());
    let both = critters(&[("Space_Tholian_Web", 0), ("Space_Romulan_Ally", 0)]);
    assert_eq!(Some("Azure Nebula Rescue".to_string()), detect(&rules, &both, &no_hull(&rules)).map);
}

#[test]
fn the_later_of_two_present_maps_wins() {
    let rules = rules();
    let c = critters(&[("Space_Borg_Transwarp", 0), ("Space_Hive_Dreadnought", 0)]);
    assert_eq!(Some("[TFO] Hive Space".to_string()), detect(&rules, &c, &no_hull(&rules)).map);
}

#[test]
fn curated_names_are_sorted_each_once_and_only_detectable() {
    let mut rules = rules();
    rules.maps.push(map("Infected: The Conduit", Some("TFO"), &["Another_Id"]));
    assert_eq!(
        vec![
            "Azure Nebula Rescue".to_string(),
            "Battle at the Binary Stars".to_string(),
            "[TFO] Hive Space".to_string(),
            "[TFO] Infected: The Conduit".to_string(),
        ],
        curated_map_names(&rules)
    );
}

#[test]
fn every_identifier_is_paired_with_its_map() {
    let rules = rules();
    let pairs = curated_map_identifiers(&rules);
    assert_eq!(
        vec![
            ("Space_Borg_Transwarp".to_string(), "[TFO] Infected: The Conduit".to_string()),
            ("Space_Hive_Dreadnought".to_string(), "[TFO] Hive Space".to_string()),
            ("Space_Binary_Flagship".to_string(), "Battle at the Binary Stars".to_string()),
            ("Space_Tholian_Web".to_string(), "Azure Nebula Rescue".to_string()),
            ("Space_Romulan_Ally".to_string(), "Azure Nebula Rescue".to_string()),
        ],
        pairs
    );
}

fn bare(category: Option<&str>, combat_type: Option<&str>) -> MapDef {
    MapDef {
        name: String::new(),
        category: category.map(|c| c.to_string()),
        combat_type: combat_type.map(|c| c.to_string()),
        difficulty: Difficulty::Any,
        identifiers: vec![],
        identifiers_all: vec![],
        death_counts: vec![],
        hull_counts: vec![],
        hull_any: vec![],
    }
}

fn named(mut def: MapDef, name: &str) -> MapDef {
    def.name = name.to_string();
    def
}

#[test]
fn category_prefixes_the_displayed_map_name() {
    assert_eq!(
        named(bare(Some("TFO"), Some("Space")), "Azure Nebula Rescue").display_name(),
        "[TFO] Azure Nebula Rescue"
    );
    // No category -> bare name.
    assert_eq!(named(bare(None, None), "Infected: The Conduit").display_name(), "Infected: The Conduit");
    // A whitespace-only category adds no brackets.
    assert_eq!(named(bare(Some("  "), None), "Bug Hunt").display_name(), "Bug Hunt");
}

#[test]
fn the_identifier_pairs_name_exactly_the_curated_maps() {
    let mut catalog = map("Catalog Only", Some("Patrol"), &[]);
    catalog.identifiers_all = vec![];
    let mut all_of = map("Together", None, &[]);
    all_of.identifiers_all = vec!["Npc_A".to_string(), "Npc_B".to_string()];
    let rules = DetectionRules {
        maps: vec![map("Infected Space", Some("TFO"), &["Npc_Borg"]), catalog, all_of],
    };
    let mut from_pairs: Vec<String> = curated_map_identifiers(&rules).into_iter().map(|p| p.1).collect();
    from_pairs.sort();
    from_pairs.dedup();
    assert_eq!(curated_map_names(&rules), from_pairs);
}
