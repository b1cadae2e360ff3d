//! The id-field grammar held against the regular expression it is written
//! after, on fields of every shape the grammar distinguishes.

use regex::Regex;
use sto_clare::entity::Entity;

/// A party as the pattern reads it: kind letter, numbers and names.
#[derive(Debug, PartialEq)]
enum Read {
    Empty,
    Player(String, u64, u64),
    NonPlayer(String, u64, String),
    Character(u64, String),
}

fn by_pattern(name: &str, field: &str) -> Option<Read> {
    if name.is_empty() && (field.is_empty() || field == "*") {
        return Some(Read::Empty);
    }
    let pattern =
        Regex::new(r"(?P<type>P|C|S)\[(?P<id>\d+)(@(?P<player_id>\d+))?(\s+(?P<unique_name>[^\]]+))?\]")
            .unwrap();
    let captures = pattern.captures(field)?;
    let id = captures.name("id")?.as_str().parse::<u64>().ok()?;
    match captures.name("type")?.as_str() {
        "P" => {
            let player_id = captures.name("player_id")?.as_str().parse::<u64>().ok()?;
            let unique = captures.name("unique_name")?.as_str().to_string();
            Some(Read::Player(unique, id, player_id))
        }
        "C" => {
            let unique = captures.name("unique_name")?.as_str().to_string();
            Some(Read::NonPlayer(name.to_string(), id, unique))
        }
        "S" => Some(Read::Character(id, name.to_string())),
        _ => None,
    }
}

fn by_library(name: &str, field: &str) -> Option<Read> {
    Entity::parse(name, field).map(|e| match e {
        Entity::Empty => Read::Empty,
        Entity::Player { full_name, id, player_id } => Read::Player(full_name, id, player_id),
        Entity::NonPlayer { name, id, unique_name } => Read::NonPlayer(name, id, unique_name),
        Entity::NonPlayerCharacter { id, name } => Read::Character(id, name),
    })
}

#[test]
fn the_grammar_reads_id_fields_as_the_pattern_does() {
    let fields = [
        "",
        "*",
        "P[12793028@5473940 Raman@handle]",
        "C[25 Mission_Space_Borg_Queen_Diamond]",
        "S[7]",
        "S[7 extra]",
        "P[1@2]",
        "P[1 name]",
        "C[3]",
        "C[3  two  spaces ]",
        "C[4 ]",
        "C[4  ]",
        "C[4\t\u{3000}]",
        "C[4 a]b]",
        "C[5 unterminated",
        "X[1] C[6 later]",
        "P[]S[8]",
        "P[1@x name] C[9 next]",
        "C[18446744073709551615 max]",
        "C[18446744073709551616 over]",
        "C[٣ arabic]",
        "C[1٣ mixed] S[2]",
        "P[1@٢ name]",
        "xP[١]C[5 foo]",
        "S[٠] S[3]",
        "C[\u{ff11} wide]",
        "C[7\u{a0}nbsp]",
        "C[7\u{2028}line]",
        "C[7\nnewline]",
        "[C[1 nested]]",
        "PP[1@1 a@b]",
        "C[10 a]\u{0}",
    ];
    for name in ["", "Borg Queen"] {
        for field in fields {
            assert_eq!(by_pattern(name, field), by_library(name, field), "{name:?} / {field:?}");
        }
    }
}
