use sto_clare::damage::{hit_of, is_kill, kill_of, kill_totals, CountedHit, DamageMetricsDelta, HitCounts, HitKind};
use sto_clare::record::{parse_from_line, NumberClass, Record};

fn class(text: &str) -> NumberClass {
    match text.parse::<f64>() {
        Ok(v) if v < 0.0 => NumberClass::Negative,
        Ok(v) if v > 0.0 => NumberClass::Positive,
        Ok(v) if v == 0.0 => NumberClass::Zero,
        Ok(_) => NumberClass::Unordered,
        Err(_) => NumberClass::Invalid,
    }
}

fn record(rest: &str) -> Record {
    let line = format!("26:07:23:20:00:01.0::Raman,P[1@2 Raman@handle],,*,Target,C[9 Npc_Foo],{rest}");
    let fields = parse_from_line(&line, None).expect("a record line");
    let (a, b) = (class(&fields.value1), class(&fields.value2));
    fields.into_record(a, b, false).expect("numbers")
}

fn hit(kind: HitKind, critical: bool) -> CountedHit {
    CountedHit { kind, immune: false, critical, flank: false, miss: false }
}

#[test]
fn crits_are_counted_on_hull_hits_only() {
    let hits = vec![hit(HitKind::Shield, true), hit(HitKind::Hull, true), hit(HitKind::Hull, false)];
    let delta = DamageMetricsDelta::of(&hits);
    assert_eq!(2, delta.hull_hits);
    assert_eq!(1, delta.shield_hits);
    assert_eq!(3, delta.all_hits);
    assert_eq!(1, delta.crits, "only the hull crit counts, not the shield crit");
    let mut counts = HitCounts::new();
    counts.apply_delta(&delta);
    assert_eq!(1, counts.non_crit_hull_hits());
}

#[test]
fn an_immune_target_counts_the_hit_and_nothing_else() {
    let immune = CountedHit { kind: HitKind::Hull, immune: true, critical: true, flank: true, miss: true };
    let delta = DamageMetricsDelta::of(&vec![immune, hit(HitKind::ShieldDrain, false)]);
    assert_eq!(1, delta.hull_hits);
    assert_eq!(1, delta.shield_hits, "a drain counts as a shield hit");
    assert_eq!((0, 0, 0), (delta.crits, delta.flanks, delta.misses));
}

#[test]
fn batches_add_up() {
    let mut counts = HitCounts::new();
    counts.apply_delta(&DamageMetricsDelta::of(&vec![hit(HitKind::Hull, true)]));
    counts.apply_delta(&DamageMetricsDelta::of(&vec![hit(HitKind::Hull, false), hit(HitKind::Shield, false)]));
    assert_eq!((3, 2, 1, 1), (counts.all_hits, counts.hull_hits, counts.shield_hits, counts.crits));
    assert_eq!(1, counts.non_crit_hull_hits());
}

#[test]
fn a_record_is_counted_by_what_it_hit_and_its_flags() {
    let crit = hit_of(&record("Phaser Beam,Pn.a,Phaser,Critical|Flank,100,120")).expect("damage");
    assert_eq!(HitKind::Hull, crit.kind);
    assert!(crit.critical && crit.flank && !crit.miss && !crit.immune);

    let shield = hit_of(&record("Phaser Beam,Pn.a,Shield,,-30,-60")).expect("damage");
    assert_eq!(HitKind::Shield, shield.kind);

    let heal = record("Rally Cry V,Pn.d,HitPoints,,-50,0");
    assert_eq!(None, hit_of(&heal));
}

#[test]
fn a_killing_blow_is_a_kill_against_the_other_party() {
    let blow = record("Phaser Beam,Pn.a,Phaser,Kill,100,120");
    assert!(is_kill(&blow));
    assert_eq!(Some(("Target".to_string(), false)), kill_of(&blow));
    let plain = record("Phaser Beam,Pn.a,Phaser,Critical,100,120");
    assert!(!is_kill(&plain));
    assert_eq!(None, kill_of(&plain));
}

#[test]
fn kill_totals_split_npcs_from_players() {
    assert_eq!((7, 2, 9), kill_totals(&vec![(false, 3), (true, 2), (false, 4)]));
    assert_eq!((0, 0, 0), kill_totals(&vec![]));
}
