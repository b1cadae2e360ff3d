use sto_clare::heal::heal_tick_of;
use sto_clare::combat::{record_recipients, Analyzer, Combat, Direction, Placement, Player, Pool, Segment};
use sto_clare::detection::{DeathTable, DetectionRules, Difficulty, HullVerdicts, MapDef};
use sto_clare::export::default_file_name;
use sto_clare::heal::{HealGrouping, HealMetricsDelta, HealPool, PooledTick, SpecificHealTick};
use sto_clare::naming::CombatName;
use sto_clare::overlay::{apply_events, OverlayEvent};
use sto_clare::order::sorted_unique;
use sto_clare::record::{parse_from_line, NumberClass, Record};

fn class(text: &str) -> NumberClass {
    match text.parse::<f64>() {
        Ok(v) if v < 0.0 => NumberClass::Negative,
        Ok(v) if v > 0.0 => NumberClass::Positive,
        Ok(v) if v == 0.0 => NumberClass::Zero,
        Ok(_) => NumberClass::Unordered,
        Err(_) => NumberClass::Invalid,
    }
}

fn record(line: &str) -> Record {
    let fields = parse_from_line(line, Some((0, line.len() as u64))).expect("a record line");
    let (a, b) = (class(&fields.value1), class(&fields.value2));
    fields.into_record(a, b, false).expect("numbers")
}

const ME: &str = "Raman,P[1@2 Raman@handle]";
const MATE: &str = "Sirak,P[3@4 Sirak@other]";

fn at(second: u32, rest: &str) -> Record {
    record(&format!("26:07:23:20:00:{second:02}.0::{rest}"))
}

fn names(path: &[Segment]) -> Vec<String> {
    path.iter()
        .map(|s| match s {
            Segment::Value(v) => format!("v:{v}"),
            Segment::Group(g) => format!("g:{g}"),
        })
        .collect()
}

#[test]
fn a_heal_between_two_players_goes_to_opposite_pools() {
    let r = at(1, &format!("{MATE},,*,{ME},Rally Cry V,Pn.d,HitPoints,,-50,0"));
    let credits: Vec<(String, Direction)> = record_recipients(&r);
    assert_eq!(
        vec![("Sirak@other".to_string(), Direction::Out), ("Raman@handle".to_string(), Direction::In)],
        credits
    );
    let mut healer = Player::new("Sirak@other".to_string());
    match healer.add_out_value(&r, false, false, None) {
        Placement::Heal { pool, by_person, by_ability } => {
            assert_eq!(Pool::Ally, pool);
            assert_eq!(vec!["v:Rally Cry V", "g:Raman@handle"], names(&by_person));
            assert_eq!(vec!["g:Raman@handle", "v:Rally Cry V"], names(&by_ability));
        },
        _ => panic!("a heal"),
    }
    let mut healed = Player::new("Raman@handle".to_string());
    match healed.add_in_value(&r, false, None) {
        Placement::Heal { pool, by_person, .. } => {
            assert_eq!(Pool::Received, pool);
            assert_eq!(vec!["v:Rally Cry V", "g:Sirak@other"], names(&by_person));
        },
        _ => panic!("a heal"),
    }
}

#[test]
fn a_self_heal_is_counted_once_and_has_no_person_level() {
    let r = at(1, &format!("{ME},,*,,*,Brace for Impact III,Pn.b,HitPoints,,-1000,0"));
    let credits = record_recipients(&r);
    assert_eq!(2, credits.len(), "as doer and as a player acting on nobody");
    let mut me = Player::new("Raman@handle".to_string());
    match me.add_out_value(&r, false, false, None) {
        Placement::Heal { pool, by_person, by_ability } => {
            assert_eq!(Pool::SelfHeal, pool);
            assert_eq!(vec!["v:Brace for Impact III"], names(&by_person));
            assert_eq!(vec!["v:Brace for Impact III"], names(&by_ability));
        },
        _ => panic!("a heal"),
    }
    assert!(matches!(me.add_in_value(&r, false, None), Placement::Skip));
}

#[test]
fn the_ability_order_puts_the_ability_on_top_through_a_pet() {
    let r = record(
        "26:07:30:17:22:19.1::KUZGUN,P[1@2 KUZGUN@g],Jem'hadar Wingman,C[10 Space_Jemhadar_Wingman_1],K'Rani,P[3@4 K'Rani@k],Engineering Team III,Pn.4,HitPoints,,-7087.5,-6750",
    );
    let mut p = Player::new("KUZGUN@g".to_string());
    match p.add_out_value(&r, false, false, None) {
        Placement::Heal { pool, by_person, by_ability } => {
            assert_eq!(Pool::Ally, pool);
            // Read from the top level down: last segment first.
            assert_eq!(vec!["v:Engineering Team III", "g:Jem'hadar Wingman", "g:K'Rani@k"], names(&by_person));
            assert_eq!(vec!["g:K'Rani@k", "g:Jem'hadar Wingman", "v:Engineering Team III"], names(&by_ability));
        },
        _ => panic!("a heal"),
    }
}

#[test]
fn damage_goes_under_the_other_party() {
    let r = at(0, &format!("{ME},,*,Target,C[9 Npc_Foo],Phaser Beam,Pn.a,Phaser,,100,100"));
    let mut me = Player::new("Raman@handle".to_string());
    match me.add_out_value(&r, false, false, None) {
        Placement::DamageOut(path) => assert_eq!(vec!["g:Target", "v:Phaser Beam"], names(&path)),
        _ => panic!("damage"),
    }
    assert!(me.combat_time.is_some());
    assert!(matches!(me.add_out_value(&r, true, false, None), Placement::Skip), "an excluded record goes nowhere");
    let custom = me.add_out_value(&r, false, false, Some("Beams"));
    match custom {
        Placement::DamageOut(path) => assert_eq!(vec!["g:Target", "v:Phaser Beam", "g:Beams"], names(&path)),
        _ => panic!("damage"),
    }
}

#[test]
fn a_heal_pool_keeps_both_orders_of_the_same_ticks() {
    let mut pool = HealPool::new("Raman@handle".to_string());
    let person = vec![Segment::Value("Shield Gen".to_string()), Segment::Group("Sirak@other".to_string())];
    pool.add(person, SpecificHealTick::Shield, true, 0);
    pool.add(vec![Segment::Value("Rally".to_string())], SpecificHealTick::Hull, false, 1);
    let a = HealMetricsDelta::of(pool.grouped(HealGrouping::ByPerson));
    let b = HealMetricsDelta::of(pool.grouped(HealGrouping::ByAbility));
    assert_eq!((1, 1, 2, 1), (a.shield_ticks, a.hull_ticks, a.all_ticks, a.crits));
    assert_eq!((a.shield_ticks, a.hull_ticks, a.all_ticks, a.crits), (b.shield_ticks, b.hull_ticks, b.all_ticks, b.crits));
    let first: &PooledTick = &pool.grouped(HealGrouping::ByAbility)[0];
    assert_eq!(vec!["g:Sirak@other", "v:Shield Gen"], names(&first.path));
    assert_eq!(0, first.amount);
}

#[test]
fn a_gap_longer_than_the_separation_starts_a_new_combat() {
    let mut analyzer = Analyzer::new(10);
    let mut first = None;
    let a = at(0, &format!("{ME},,*,Target,C[9 Npc_Foo],Phaser Beam,Pn.a,Phaser,,100,100"));
    let b = at(5, &format!("{ME},,*,Target,C[9 Npc_Foo],Phaser Beam,Pn.a,Phaser,Kill,100,100"));
    let c = at(30, &format!("{ME},,*,Other,C[8 Npc_Bar],Phaser Beam,Pn.a,Phaser,,100,100"));
    assert_eq!(0, analyzer.place_record(&a, &mut first));
    assert_eq!(0, analyzer.place_record(&b, &mut first));
    assert_eq!(1, analyzer.place_record(&c, &mut first));
    assert_eq!(Some(0), first);
    assert_eq!(2, analyzer.combats.len());
    let critters: Vec<(String, u32)> =
        analyzer.combats[0].critters.iter().map(|c| (c.unique_name.clone(), c.deaths)).collect();
    assert_eq!(vec![("Npc_Foo".to_string(), 1)], critters);
    assert_eq!(a.fields.time, analyzer.combats[0].active_time.start);
    assert_eq!(b.fields.time, analyzer.combats[0].active_time.end);
    assert_eq!(Some((0, b.fields.log_pos.unwrap().1)), analyzer.combats[0].log_pos);

    analyzer.retain(&vec![false, true]);
    assert_eq!(1, analyzer.combats.len());
    assert_eq!(c.fields.time, analyzer.combats[0].active_time.start);
}

#[test]
fn a_combat_is_named_after_its_rules_or_its_map() {
    let r = at(7, &format!("{ME},,*,Target,C[9 Space_Borg_Transwarp],Phaser Beam,Pn.a,Phaser,,100,100"));
    let mut combat = Combat::new(&r);
    assert_eq!("Combat", combat.base_name());
    let rules = DetectionRules {
        maps: vec![MapDef {
            name: "Infected: The Conduit".to_string(),
            category: Some("TFO".to_string()),
            combat_type: Some("Space".to_string()),
            difficulty: Difficulty::Any,
            identifiers: vec!["Space_Borg_Transwarp".to_string()],
            identifiers_all: vec![],
            death_counts: vec![DeathTable { tier: Difficulty::Elite, entries: vec![("Space_Borg_Transwarp".to_string(), 0)] }],
            hull_counts: vec![],
            hull_any: vec![],
        }],
    };
    combat.update_critters(&r);
    combat.update_detection(&rules, &vec![HullVerdicts { counts: vec![], any: vec![] }]);
    assert_eq!("[TFO] Infected: The Conduit", combat.base_name());
    assert_eq!("[TFO] Infected: The Conduit (Space) [Elite]", combat.name());
    assert_eq!("[TFO] Infected: The Conduit (Space) [Elite] | 2026-07-23 20:00:07 - 20:00:07", combat.identifier());
    assert_eq!("[TFO] Infected: The Conduit (Space) [Elite] 2026-07-23 20-00-07 - 20-00-07", combat.file_identifier());
    assert_eq!("[TFO] Infected: The Conduit (Space) [Elite] 2026-07-23 20-00-07 - 20-00-07.xlsx", default_file_name(&combat));

    combat.set_combat_names(vec![
        CombatName::new("Borg".to_string(), vec![]),
        CombatName::new("Solo".to_string(), vec!["Fast".to_string()]),
        CombatName::new("Borg".to_string(), vec!["Again".to_string()]),
    ]);
    assert_eq!("Borg (Again), Solo (Fast)", combat.base_name());
}

#[test]
fn overlay_toggles_flip_the_columns_they_name() {
    let mut enabled = vec![true, false, true];
    let changed = apply_events(&mut enabled, &vec![OverlayEvent::ToggleColumn(1), OverlayEvent::ToggleColumn(7)]);
    assert!(changed);
    assert_eq!(vec![true, true, true], enabled);
    let changed = apply_events(&mut enabled, &vec![OverlayEvent::ToggleColumn(0), OverlayEvent::ToggleColumn(0)]);
    assert!(changed, "toggled twice is still a change of configuration");
    assert_eq!(vec![true, true, true], enabled);
    assert!(!apply_events(&mut enabled, &vec![OverlayEvent::ToggleColumn(3)]));
    assert!(!apply_events(&mut enabled, &vec![]));
}

#[test]
fn the_combats_to_keep_are_taken_in_log_order_each_once() {
    assert_eq!(vec![0, 2, 5], sorted_unique(&vec![5, 2, 0, 2, 5]));
    assert!(sorted_unique(&vec![]).is_empty());

    let mut analyzer = Analyzer::new(10);
    let mut first = None;
    let a = at(0, &format!("{ME},,*,Target,C[9 Npc_Foo],Phaser Beam,Pn.a,Phaser,,100,100"));
    let b = at(30, &format!("{ME},,*,Target,C[9 Npc_Foo],Phaser Beam,Pn.a,Phaser,,100,100"));
    analyzer.place_record(&a, &mut first);
    analyzer.place_record(&b, &mut first);
    let keep = sorted_unique(&vec![1, 0, 1]);
    let ranges = analyzer.ranges_of(&keep).unwrap();
    assert_eq!(vec![a.fields.log_pos.unwrap(), b.fields.log_pos.unwrap()], ranges);
    assert_eq!(None, analyzer.ranges_of(&vec![0, 2]), "a combat that is not there aborts");
}

#[test]
fn records_are_credited_to_each_player_once_per_side() {
    let mut analyzer = Analyzer::new(10);
    let mut first = None;
    let heal = at(1, &format!("{MATE},,*,{ME},Rally Cry V,Pn.d,HitPoints,,-50,0"));
    let (index, credits) = analyzer.process_next_record(&heal, &mut first, false, false, None);
    assert_eq!(0, index);
    assert_eq!(Some(0), first);
    assert_eq!(2, credits.len());
    assert_eq!(0, credits[0].0);
    assert!(matches!(credits[0].1, Placement::Heal { pool: Pool::Ally, .. }));
    assert_eq!(1, credits[1].0);
    assert!(matches!(credits[1].1, Placement::Heal { pool: Pool::Received, .. }));
    let players: Vec<String> = analyzer.combats[0].players.iter().map(|p| p.name.clone()).collect();
    assert_eq!(vec!["Sirak@other".to_string(), "Raman@handle".to_string()], players);
    // A heal does not open anybody's active time.
    assert_eq!(None, analyzer.combats[0].players[1].active_time);

    let hit = at(3, &format!("{ME},,*,Target,C[9 Npc_Foo],Phaser Beam,Pn.a,Phaser,,100,100"));
    let (index, credits) = analyzer.process_next_record(&hit, &mut first, false, false, None);
    assert_eq!(0, index);
    assert_eq!(1, credits.len());
    // The same player is found again, not listed twice.
    assert_eq!(1, credits[0].0);
    match &credits[0].1 {
        Placement::DamageOut(path) => assert_eq!(vec!["g:Target", "v:Phaser Beam"], names(path)),
        _ => panic!("outgoing damage"),
    }
    assert_eq!(2, analyzer.combats[0].players.len());
    let me = &analyzer.combats[0].players[1];
    assert_eq!(Some(hit.fields.time), me.combat_time.map(|s| s.end));
    assert_eq!(Some(hit.fields.time), me.active_time.map(|s| s.start));

    let excluded = at(4, &format!("{ME},,*,Target,C[9 Npc_Foo],Phaser Beam,Pn.a,Phaser,,100,100"));
    let (_, credits) = analyzer.process_next_record(&excluded, &mut first, true, false, None);
    assert!(matches!(credits[0].1, Placement::Skip));
    assert_eq!(Some(hit.fields.time), analyzer.combats[0].players[1].active_time.map(|s| s.end));
}

/// Which pool each credit of `r` for `name` lands in, in credit order.
fn pools_for(analyzer: &mut Analyzer, first: &mut Option<usize>, r: &Record, name: &str) -> Vec<Pool> {
    let (index, credits) = analyzer.process_next_record(r, first, false, false, None);
    credits
        .iter()
        .filter(|(i, _)| analyzer.combats[index].players[*i].name == name)
        .filter_map(|(_, p)| match p {
            Placement::Heal { pool, .. } => Some(*pool),
            _ => None,
        })
        .collect()
}

#[test]
fn healing_lands_in_three_separate_pools() {
    const CONSOLE: &str = "Bio-Molecular Shield Generator,C[77 Space_Console_Bio]";
    let mut analyzer = Analyzer::new(90);
    let mut first = None;
    let me = "Raman@handle";
    let mate = "Sirak@other";
    let shot = at(0, &format!("{ME},,*,Target,C[9 Npc_Foo],Phaser Beam,Pn.a,Phaser,,100,100"));
    assert!(pools_for(&mut analyzer, &mut first, &shot, me).is_empty());
    // A self-directed heal (no target, no indirect source) is self healing, once.
    let brace = at(1, &format!("{ME},,*,,*,Brace for Impact III,Pn.b,HitPoints,,-1000,0"));
    assert_eq!(vec![Pool::SelfHeal], pools_for(&mut analyzer, &mut first, &brace, me));
    // A heal through the player's own console on the player is self healing, once.
    let console = at(2, &format!("{ME},{CONSOLE},{ME},Shield Generator,Pn.c,Shield,,-200,0"));
    assert_eq!(vec![Pool::SelfHeal], pools_for(&mut analyzer, &mut first, &console, me));
    // Healing a teammate is healing done for one, healing received for the other.
    let rally = at(3, &format!("{ME},,*,{MATE},Rally Cry V,Pn.d,HitPoints,,-30,0"));
    let (index, credits) = analyzer.process_next_record(&rally, &mut first, false, false, None);
    let by_name: Vec<(String, Pool)> = credits
        .iter()
        .filter_map(|(i, p)| match p {
            Placement::Heal { pool, .. } => Some((analyzer.combats[index].players[*i].name.clone(), *pool)),
            _ => None,
        })
        .collect();
    assert_eq!(vec![(me.to_string(), Pool::Ally), (mate.to_string(), Pool::Received)], by_name);
    let crystal = at(4, &format!("{MATE},,*,{ME},Pahvan Healing Crystal,Pn.e,HitPoints,,-7,0"));
    assert_eq!(vec![Pool::Received], pools_for(&mut analyzer, &mut first, &crystal, me));
}

fn analyze_lines(lines: &[&str]) -> Analyzer {
    let mut analyzer = Analyzer::new(90);
    let mut first = None;
    for line in lines {
        analyzer.process_next_record(&record(line), &mut first, false, false, None);
    }
    analyzer.discard_combats_without_damage();
    analyzer
}

#[test]
fn combats_without_player_damage_are_discarded() {
    // 1) fall damage, nobody attacking   2) a real fight   3) a self-buff
    //    4) another real fight, so the junk at 3 is not the newest combat
    let analyzer = analyze_lines(&[
        "26:07:23:20:00:00.0::,,,,Sara,P[9@9 Sara@x],falling,Autodesc.Combatevent.Falling,HitPoints,,6.2,0",
        "26:07:23:20:10:00.0::Raman,P[1@2 Raman@h],,*,Target,C[1 Npc_Foo],Phaser Beam,Pn.abc,Phaser,,100,100",
        "26:07:23:20:20:00.0::Valir,P[3@4 Valir@y],,*,,*,Personal Shields,Pn.d,Shield,,0.02,0",
        "26:07:23:20:30:00.0::Raman,P[1@2 Raman@h],,*,Target,C[1 Npc_Foo],Phaser Beam,Pn.abc,Phaser,,100,100",
    ]);
    assert_eq!(2, analyzer.combats.len(), "only the two combats with player damage should remain");
    assert_eq!(vec![true, true], analyzer.combats_with_damage(), "a kept combat must have damage");
}

#[test]
fn newest_combat_is_discarded_too_when_it_has_no_damage() {
    // A real fight, then a self-buff burst that ends the log.
    let analyzer = analyze_lines(&[
        "26:07:23:20:00:00.0::Raman,P[1@2 Raman@h],,*,Target,C[1 Npc_Foo],Phaser Beam,Pn.abc,Phaser,,100,100",
        "26:07:23:20:10:00.0::Valir,P[3@4 Valir@y],,*,,*,Personal Shields,Pn.d,Shield,,0.02,0",
    ]);
    assert_eq!(1, analyzer.combats.len(), "the trailing self-buff burst must not survive as a combat");
    assert_eq!(vec![true], analyzer.combats_with_damage());
}

#[test]
fn damage_on_an_immune_target_or_of_no_magnitude_does_not_keep_a_combat() {
    let analyzer = analyze_lines(&[
        "26:07:23:20:00:00.0::Raman,P[1@2 Raman@h],,*,Target,C[1 Npc_Foo],Phaser Beam,Pn.abc,Phaser,Immune,100,100",
        "26:07:23:20:00:01.0::Raman,P[1@2 Raman@h],,*,Target,C[1 Npc_Foo],Phaser Beam,Pn.abc,Phaser,,0,0",
    ]);
    assert_eq!(0, analyzer.combats.len());
}

#[test]
fn a_heal_record_says_what_it_healed_and_whether_it_was_critical() {
    let crit = at(1, &format!("{MATE},,*,{ME},Rally Cry V,Pn.d,HitPoints,Critical,-50,0"));
    assert_eq!(Some((SpecificHealTick::Hull, true)), heal_tick_of(&crit));
    let shield = at(2, &format!("{MATE},,*,{ME},Shield Gen,Pn.d,Shield,,-50,0"));
    assert_eq!(Some((SpecificHealTick::Shield, false)), heal_tick_of(&shield));
    let hit = at(3, &format!("{ME},,*,Target,C[9 Npc_Foo],Phaser Beam,Pn.a,Phaser,Critical,100,100"));
    assert_eq!(None, heal_tick_of(&hit));
}
