use sto_clare::csv::parse_csv_line;
use sto_clare::entity::Entity;
use sto_clare::record::{
    decode_char, parse_from_line, utf8_char_len, LineFields, LineFramer, LineKey, Lookahead, NumberClass,
    RecordValue, ValueKind,
};
use sto_clare::record::NumberClass::{Negative, Positive, Zero};

fn class(text: &str) -> NumberClass {
    match text.parse::<f64>() {
        Ok(v) if v < 0.0 => NumberClass::Negative,
        Ok(v) if v > 0.0 => NumberClass::Positive,
        Ok(v) if v == 0.0 => NumberClass::Zero,
        Ok(_) => NumberClass::Unordered,
        Err(_) => NumberClass::Invalid,
    }
}

#[test]
fn decodes_utf8_multibyte() {
    // Covers 1-, 2-, 3- and 4-byte UTF-8 sequences: 'a', 'é', '—', '🚀'.
    let text = "aé—🚀";
    let bytes = text.as_bytes();
    let mut decoded = String::new();
    let mut i = 0;
    while i < bytes.len() {
        let len = utf8_char_len(bytes[i]);
        decoded.push(decode_char(&bytes[i..i + len]).unwrap());
        i += len;
    }
    assert_eq!(decoded, text);
}

#[test]
fn a_stray_byte_decodes_to_nothing() {
    assert_eq!(1, utf8_char_len(0x80));
    assert_eq!(1, utf8_char_len(0xff));
    assert_eq!(None, decode_char(&[0x80]));
    assert_eq!(None, decode_char(&[0xe2, 0x80]));
    assert_eq!(None, decode_char(&[]));
    assert_eq!(Some('—'), decode_char(&[0xe2, 0x80, 0x94]));
}

#[test]
fn fields_are_split_at_commas_outside_quotes() {
    assert_eq!(vec!["a", "b,c", "d"], parse_csv_line("a,\"b,c\",d"));
    assert_eq!(vec!["", "x"], parse_csv_line(",x"));
    assert_eq!(vec!["a", "b"], parse_csv_line("a,b,"));
    assert!(parse_csv_line("").is_empty());
}

#[test]
fn quoted_fields_keep_their_odd_corners() {
    // A doubled quote stands for one quote.
    assert_eq!(vec!["say \"hi\"", "z"], parse_csv_line("\"say \"\"hi\"\"\",z"));
    // A quote that is never closed runs to the end of the line.
    assert_eq!(vec!["open"], parse_csv_line("\"open"));
    // A closing quote at the very end stays with the field.
    assert_eq!(vec!["ab\""], parse_csv_line("\"ab\""));
    // Anything after a closing quote but a comma ends the fields.
    assert_eq!(vec!["a"], parse_csv_line("a,\"b\"x,y"));
}

#[test]
fn entities_are_read_from_their_id_field() {
    match Entity::parse("Raman", "P[12793028@5473940 Raman@handle]").unwrap() {
        Entity::Player { full_name, id, player_id } => {
            assert_eq!("Raman@handle", full_name);
            assert_eq!(12793028, id);
            assert_eq!(5473940, player_id);
        },
        other => panic!("not a player: {other:?}"),
    }
    match Entity::parse("Borg Queen", "C[25 Mission_Space_Borg_Queen_Diamond]").unwrap() {
        Entity::NonPlayer { name, id, unique_name } => {
            assert_eq!("Borg Queen", name);
            assert_eq!(25, id);
            assert_eq!("Mission_Space_Borg_Queen_Diamond", unique_name);
        },
        other => panic!("not a non-player: {other:?}"),
    }
    match Entity::parse("Doctor", "S[7]").unwrap() {
        Entity::NonPlayerCharacter { id, name } => {
            assert_eq!(7, id);
            assert_eq!("Doctor", name);
        },
        other => panic!("not a character: {other:?}"),
    }
    assert!(Entity::parse("", "*").unwrap().is_none());
    assert!(Entity::parse("", "").unwrap().is_none());
    assert!(Entity::parse("x", "X[1]").is_none());
    // A player needs both numbers and a name.
    assert!(Entity::parse("x", "P[1 Name@h]").is_none());
    assert!(Entity::parse("x", "P[1@2]").is_none());
}

#[test]
fn an_entity_says_what_it_is() {
    let p = Entity::parse("Raman", "P[1@2 Raman@h]").unwrap();
    assert!(p.is_player());
    assert!(!p.is_none());
    assert_eq!(Some("Raman@h"), p.name());
    assert_eq!(Some("Raman@h"), p.unique_name());
    let c = Entity::parse("Cube", "C[9 Space_Borg_Cube]").unwrap();
    assert_eq!(Some("Cube"), c.name());
    assert_eq!(Some("Space_Borg_Cube"), c.unique_name());
    let s = Entity::parse("Doctor", "S[3]").unwrap();
    assert_eq!(None, s.unique_name());
    let nobody = Entity::parse("", "*").unwrap();
    assert_eq!(None, nobody.name());
    assert!(!nobody.is_player());
}

const LINE: &str = "26:07:23:20:00:00.0::Raman,P[1@2 Raman@handle],,*,Target,C[9 Npc_Foo],Phaser Beam,Pn.a,Phaser,Critical,100,90";

#[test]
fn a_record_line_is_taken_apart() {
    let fields = parse_from_line(LINE, Some((0, 120))).unwrap();
    assert_eq!(Some("Raman@handle"), fields.source.name());
    assert!(fields.indirect_source.is_none());
    assert_eq!(Some("Npc_Foo"), fields.target.unique_name());
    assert_eq!("Phaser Beam", fields.value_name);
    assert_eq!("Phaser", fields.value_type);
    assert_eq!("Critical", fields.value_flags);
    assert_eq!("100", fields.value1);
    assert_eq!("90", fields.value2);
    assert_eq!(Some((0, 120)), fields.log_pos);
    let expected = chrono::NaiveDateTime::parse_from_str("2026-07-23 20:00", "%Y-%m-%d %H:%M")
        .unwrap()
        .and_utc()
        .timestamp_millis();
    assert_eq!(expected, fields.time);
    let record = fields.into_record(class("100"), class("90"), false).unwrap();
    assert_eq!(ValueKind::Hull, record.value.kind);
    assert!(record.is_player_out_damage());
    assert!(!record.is_immune_or_zero());
    assert!(!record.is_self_directed());
}

#[test]
fn a_broken_line_is_no_record() {
    assert!(parse_from_line("no separator here", None).is_none());
    assert!(parse_from_line("26:07:23:20:00:00.0::too,few,fields", None).is_none());
    assert!(parse_from_line("garbage::Raman,P[1@2 Raman@handle],,*,,*,A,Pn.a,Phaser,,1,1", None).is_none());
    let fields = parse_from_line(
        "26:07:23:20:00:00.0::Raman,P[1@2 Raman@handle],,*,,*,A,Pn.a,Phaser,,abc,1",
        None,
    )
    .unwrap();
    assert!(fields.into_record(class("abc"), class("1"), false).is_none());
}

#[test]
fn the_value_kind_follows_the_type_and_the_signs() {
    let kind = |t: &str, a, b, brk, dmg| RecordValue::new(t, a, b, brk, dmg).map(|v| v.kind);
    assert_eq!(Some(ValueKind::HealHull), kind("HitPoints", Negative, Zero, false, false));
    assert_eq!(Some(ValueKind::HealShield), kind("Shield", Negative, Zero, false, false));
    assert_eq!(Some(ValueKind::ShieldUnprevented), kind("Shield", Negative, Zero, false, true));
    assert_eq!(Some(ValueKind::ShieldDrain), kind("Shield", Positive, Zero, false, false));
    assert_eq!(Some(ValueKind::Shield), kind("Shield", Negative, Zero, true, false));
    assert_eq!(Some(ValueKind::Shield), kind("Shield", Negative, Negative, false, false));
    assert_eq!(Some(ValueKind::HullOwnBase), kind("Phaser", Positive, Zero, false, false));
    assert_eq!(Some(ValueKind::Hull), kind("HitPoints", Positive, Positive, false, false));
    assert_eq!(None, kind("Phaser", NumberClass::Invalid, Zero, false, false));
}

#[test]
fn an_all_zero_value_is_no_damage_done() {
    let v = RecordValue::new("Phaser", NumberClass::Zero, NumberClass::Zero, false, false).unwrap();
    assert!(v.is_all_zero());
    assert!(v.is_damage());
    let v = RecordValue::new("Phaser", NumberClass::Zero, NumberClass::Positive, false, false).unwrap();
    assert!(!v.is_all_zero());
    let h = RecordValue::new("HitPoints", NumberClass::Negative, NumberClass::Zero, false, false).unwrap();
    assert!(!h.is_damage());
}

#[test]
fn a_shield_line_and_its_damage_line_share_a_key() {
    let shield = "26:07:23:20:00:05.0::A,P[1@2 A@a],,*,B,C[3 Npc],Beam,Pn.x,Shield,,-50,0";
    let hull = "26:07:23:20:00:05.0::A,P[1@2 A@a],,*,B,C[3 Npc],Beam,Pn.x,Phaser,,120,150";
    let heal = "26:07:23:20:00:05.0::A,P[1@2 A@a],,*,B,C[3 Npc],Beam,Pn.x,HitPoints,,-5,0";
    let other = "26:07:23:20:00:05.0::A,P[1@2 A@a],,*,C,C[4 Npc2],Beam,Pn.x,Phaser,,120,150";
    let later = "26:07:23:20:00:06.0::A,P[1@2 A@a],,*,B,C[3 Npc],Beam,Pn.x,Phaser,,120,150";
    let f = LineFields::of(shield).unwrap();
    assert!(f.is_ambiguous_shield(class(&f.value1), class(&f.value2)));
    let key = LineKey::of(&f, class(&f.value1), class(&f.value2)).unwrap();
    let companion = |line: &str| {
        let g = LineFields::of(line).unwrap();
        key.is_companion(&g, class(&g.value1), class(&g.value2))
    };
    assert!(companion(hull));
    assert!(!companion(heal), "a hull heal is not the damage half");
    assert!(!companion(other), "another target is another shot");
    assert!(!companion(later));
    assert!(!companion(shield));
    assert!(key.is_same_timestamp(hull));
    assert!(!key.is_same_timestamp(later));
}

#[test]
fn a_shield_line_with_a_base_magnitude_is_not_ambiguous() {
    let f = LineFields::of("26:07:23:20:00:05.0::A,P[1@2 A@a],,*,B,C[3 Npc],Beam,Pn.x,Shield,,-50,-60").unwrap();
    assert!(!f.is_ambiguous_shield(class(&f.value1), class(&f.value2)));
    let f = LineFields::of("26:07:23:20:00:05.0::A,P[1@2 A@a],,*,B,C[3 Npc],Beam,Pn.x,Shield,ShieldBreak,-50,0").unwrap();
    assert!(!f.is_ambiguous_shield(class(&f.value1), class(&f.value2)));
}

#[test]
fn lines_end_at_newlines_outside_quotes() {
    let mut framer = LineFramer::new();
    let mut lines = Vec::new();
    framer.begin_line();
    for c in "a,\"x\ny\",b\nsecond\n".chars() {
        if framer.feed(c, c.len_utf8() as u64) {
            lines.push((framer.line.iter().collect::<String>(), framer.range()));
            framer.begin_line();
        }
    }
    assert_eq!(
        vec![("a,\"x\ny\",b".to_string(), (0, 10)), ("second".to_string(), (10, 17))],
        lines
    );
}

#[test]
fn byte_ranges_run_on_from_line_to_line() {
    let text = "é,x\n—\n\nlast\n";
    let mut framer = LineFramer::new();
    let mut ranges = Vec::new();
    framer.begin_line();
    for c in text.chars() {
        if framer.feed(c, c.len_utf8() as u64) {
            ranges.push(framer.range());
            framer.begin_line();
        }
    }
    assert_eq!(vec![(0, 5), (5, 9), (9, 10), (10, 15)], ranges);
    assert_eq!(text.len() as u64, ranges.last().unwrap().1, "the ranges cover the whole text");
}


#[test]
fn the_look_ahead_settles_a_shield_line_at_the_damage_half_or_a_later_instant() {
    let shield = "26:07:23:20:00:05.0::A,P[1@2 A@a],,*,B,C[3 Npc],Beam,Pn.x,Shield,,-50,0";
    let f = LineFields::of(shield).unwrap();
    let key = LineKey::of(&f, class(&f.value1), class(&f.value2)).unwrap();
    let step = |line: &str| {
        let g = LineFields::of(line);
        let (a, b) = match &g {
            Some(g) => (class(&g.value1), class(&g.value2)),
            None => (NumberClass::Invalid, NumberClass::Invalid),
        };
        key.look_at(line, g.as_ref(), a, b)
    };
    assert_eq!(
        Lookahead::Damage,
        step("26:07:23:20:00:05.0::A,P[1@2 A@a],,*,B,C[3 Npc],Beam,Pn.x,Phaser,,120,150")
    );
    assert_eq!(
        Lookahead::ReadOn,
        step("26:07:23:20:00:05.0::A,P[1@2 A@a],,*,C,C[4 Npc2],Beam,Pn.x,Phaser,,120,150")
    );
    assert_eq!(
        Lookahead::Heal,
        step("26:07:23:20:00:06.0::A,P[1@2 A@a],,*,B,C[3 Npc],Beam,Pn.x,Phaser,,120,150")
    );
    assert_eq!(Lookahead::ReadOn, step("26:07:23:20:00:05.0::short"));
}

#[test]
fn a_record_time_keeps_its_tenths_of_a_second() {
    let a = parse_from_line("26:07:23:20:00:01.5::A,P[1@2 A@a],,*,,*,X,Pn.x,Phaser,,1,1", None).unwrap();
    let b = parse_from_line("26:07:23:20:00:00.0::A,P[1@2 A@a],,*,,*,X,Pn.x,Phaser,,1,1", None).unwrap();
    assert_eq!(1_500, a.time - b.time);
}

#[test]
fn an_escaped_quote_is_one_quote() {
    assert_eq!(vec!["a\"b", "c"], parse_csv_line("\"a\"\"b\",c"));
}

#[test]
fn taking_characters_one_by_one_gives_tiling_ranges() {
    let text = "é,\"q\nq\"\n—\n\nlast\n";
    let mut framer = LineFramer::new();
    let mut lines = Vec::new();
    for c in text.chars() {
        if let Some(range) = framer.take_char(c, c.len_utf8() as u64) {
            lines.push((framer.line.iter().collect::<String>(), range));
        }
    }
    assert_eq!(
        vec![
            ("é,\"q\nq\"".to_string(), (0, 9)),
            ("—".to_string(), (9, 13)),
            (String::new(), (13, 14)),
            ("last".to_string(), (14, 19)),
        ],
        lines
    );
    assert_eq!(text.len() as u64, lines.last().unwrap().1 .1);
}
