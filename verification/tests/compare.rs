use sto_clare::compare::{
    align_children, follow_the_reference_player, chart_label, header_lines, header_parts, legend_parts, note_suffix, selection_hint, CompareMetric, CompareView, DateRange, COLORS_RUN_OUT_AT, MANY_COMBATS,
};
use sto_clare::detection::Difficulty;
use sto_clare::filter::{CombatEntry, DifficultyFilter};
fn at(text: &str) -> i64 {
    chrono::NaiveDateTime::parse_from_str(text, "%Y-%m-%d %H:%M")
        .unwrap()
        .and_utc()
        .timestamp_millis()
}

fn range(from: &str, to: &str) -> DateRange {
    DateRange {
        from: from.to_string(),
        to: to.to_string(),
    }
}

fn entry() -> CombatEntry {
    CombatEntry {
        environment: Some("Space".to_string()),
        difficulty: Some(Difficulty::Elite),
        base_name: "Infected Space".to_string(),
    }
}

#[test]
fn an_empty_range_matches_everything() {
    let range = DateRange::default();
    assert!(!range.is_active());
    assert!(range.matches(at("2026-07-23 20:07")));
    assert!(range.matches(at("2020-01-01 00:00")));
}

#[test]
fn each_end_bounds_on_its_own() {
    let since = range("2026-07-23 20:00", "");
    assert!(since.is_active());
    assert!(!since.matches(at("2026-07-23 19:59")));
    assert!(since.matches(at("2026-07-23 20:00")));
    assert!(since.matches(at("2030-01-01 00:00")));

    let until = range("", "2026-07-23 20:00");
    assert!(until.is_active());
    assert!(until.matches(at("2026-07-23 19:59")));
    assert!(!until.matches(at("2026-07-23 20:01")));
}

#[test]
fn the_upper_bound_covers_its_whole_minute() {
    let range = range("2026-07-23 20:00", "2026-07-23 20:07");
    let start = at("2026-07-23 20:07") + 45_000;
    assert!(range.matches(start));
    assert!(!range.matches(at("2026-07-23 20:08")));
}

#[test]
fn an_unparseable_field_bounds_nothing() {
    let half_typed = range("2026-07-", "");
    assert!(!half_typed.is_active());
    assert!(half_typed.matches(at("2020-01-01 00:00")));

    let mixed = range("2026-07-", "2026-07-23 20:07");
    assert!(mixed.is_active());
    assert!(!mixed.matches(at("2026-07-23 20:09")));
}

#[test]
fn a_preset_counts_back_from_the_newest_combat() {
    let mut range = DateRange::default();
    range.preset(at("2026-07-23 22:00"), 24);

    assert_eq!("2026-07-22 22:00", range.from);
    assert!(range.to.is_empty(), "the window stays open at the top end");
    assert!(range.matches(at("2026-07-23 20:07")));
    assert!(range.matches(at("2026-07-24 08:00")), "and past it too");
    assert!(!range.matches(at("2026-07-22 21:59")));
}

#[test]
fn a_preset_replaces_what_was_typed() {
    let mut range = range("2020-01-01 00:00", "2020-01-02 00:00");
    range.preset(at("2026-07-23 22:00"), 24);
    assert_eq!("2026-07-22 22:00", range.from);
    assert!(range.to.is_empty());
}

#[test]
fn clearing_gives_up_both_ends() {
    let mut range = range("2026-07-23 20:00", "2026-07-23 21:00");
    range.clear();
    assert!(!range.is_active());
    assert!(range.matches(at("2026-07-23 22:00")));
}

#[test]
fn a_field_is_read_without_its_surrounding_blanks() {
    let range = range("  2026-07-23 20:00 ", "");
    assert!(range.is_active());
    assert!(!range.matches(at("2026-07-23 19:59")));
}

#[test]
fn the_search_box_matches_the_displayed_identifier() {
    let mut view = CompareView::default();
    let identifier = "Infected Space [Elite] | 2026-07-23 20:07:22 - 20:11:37";

    view.name_filter = "infected".to_string();
    assert!(view.matches_filters(identifier, "", &entry(), None));

    view.name_filter = "20:07".to_string();
    assert!(view.matches_filters(identifier, "", &entry(), None));

    view.name_filter = "hive".to_string();
    assert!(!view.matches_filters(identifier, "", &entry(), None));
}

#[test]
fn the_search_box_matches_the_note() {
    let mut view = CompareView::default();
    let identifier = "Infected Space [Elite] | 2026-07-23 20:07:22 - 20:11:37";

    view.name_filter = "cheops".to_string();
    assert!(view.matches_filters(identifier, "Cheops build", &entry(), None));
    assert!(!view.matches_filters(identifier, "FAW build", &entry(), None));
}

#[test]
fn the_search_box_and_the_pickers_both_apply() {
    let mut view = CompareView {
        name_filter: "infected".to_string(),
        ..Default::default()
    };
    view.filter.environment = Some("Ground".to_string());
    assert!(!view.matches_filters("Infected Space | t", "", &entry(), None));
}

#[test]
fn the_date_window_narrows_with_the_other_filters() {
    let mut view = CompareView::default();
    view.range.set("2026-07-23 20:00", "2026-07-23 23:00");

    assert!(view.matches_filters("Infected Space", "", &entry(), Some(at("2026-07-23 21:30"))));
    assert!(!view.matches_filters("Infected Space", "", &entry(), Some(at("2026-07-22 21:30"))));
    // A combat the list could not place is left in rather than hidden.
    assert!(view.matches_filters("Infected Space", "", &entry(), None));
}

#[test]
fn any_number_of_combats_can_be_selected() {
    let mut view = CompareView::default();
    for i in 0..12 {
        view.toggle_selected(i, true);
    }
    assert_eq!(12, view.selected.len());

    // Selecting the same combat twice is still one combat.
    view.toggle_selected(5, true);
    assert_eq!(12, view.selected.len());

    view.toggle_selected(5, false);
    assert_eq!(11, view.selected.len());
    assert!(!view.selected.contains(&5));
}

fn list(names: &[&str]) -> Vec<String> {
    names.iter().map(|n| n.to_string()).collect()
}

#[test]
fn a_ticked_combat_is_never_hidden_by_a_filter() {
    let combats = list(&["Infected Elite", "Infected Advanced"]);
    let notes = list(&["", ""]);
    let entries = vec![
        CombatEntry {
            environment: Some("Space".to_string()),
            difficulty: Some(Difficulty::Elite),
            base_name: "Infected Space".to_string(),
        },
        CombatEntry {
            environment: Some("Space".to_string()),
            difficulty: Some(Difficulty::Advanced),
            base_name: "Infected Space".to_string(),
        },
    ];
    let start_times = vec![at("2026-07-23 20:00"), at("2026-07-23 21:00")];

    let mut view = CompareView::default();
    view.filter.difficulty = DifficultyFilter::Elite;

    // Unticked, the Advanced run is simply filtered out.
    let visible = view.visible_combats(&combats, &notes, &entries, &start_times);
    assert_eq!(vec![(0, true)], visible);

    // Ticked, it stays, and is marked as not matching.
    view.toggle_selected(1, true);
    let visible = view.visible_combats(&combats, &notes, &entries, &start_times);
    assert_eq!(vec![(1, false), (0, true)], visible, "newest first");
}

#[test]
fn a_ticked_combat_survives_the_date_window_too() {
    let combats = list(&["old run"]);
    let notes = list(&[""]);
    let entries = vec![entry()];
    let start_times = vec![at("2026-07-23 20:00")];

    let mut view = CompareView::default();
    view.range.set("2026-08-01 00:00", "");
    assert!(view.visible_combats(&combats, &notes, &entries, &start_times).is_empty());

    view.toggle_selected(0, true);
    assert_eq!(vec![(0, false)], view.visible_combats(&combats, &notes, &entries, &start_times));
}

#[test]
fn a_big_selection_says_what_it_gives_up() {
    assert_eq!(None, selection_hint(2));
    assert_eq!(None, selection_hint(COLORS_RUN_OUT_AT));
    assert!(selection_hint(COLORS_RUN_OUT_AT + 1).is_some());
    assert_ne!(selection_hint(COLORS_RUN_OUT_AT + 1), selection_hint(MANY_COMBATS + 1));
}

#[test]
fn a_combat_without_a_start_time_is_judged_by_the_rest() {
    let combats = list(&["a", "b"]);
    let notes = list(&["", ""]);
    let entries = vec![entry(), entry()];
    let mut view = CompareView::default();
    view.range.set("2030-01-01 00:00", "");
    // Only the first combat has a start time, and it is outside the window.
    let visible = view.visible_combats(&combats, &notes, &entries, &vec![at("2026-07-23 20:00")]);
    assert_eq!(vec![(1, true)], visible);
}

#[test]
fn opening_the_view_keeps_the_selection() {
    let mut view = CompareView::new();
    assert!(!view.is_open());
    view.toggle_selected(3, true);
    view.toggle();
    assert!(view.is_open());
    assert_eq!(vec![3], view.selected);
}

#[test]
fn every_metric_has_a_label_and_a_precision() {
    for m in CompareMetric::all() {
        assert!(!m.label().is_empty());
        assert!(m.precision() <= 2);
    }
}

/// A combat the user named is charted under that name.
#[test]
fn a_noted_combat_is_charted_under_its_note() {
    assert_eq!("1 — Cheops build", chart_label(0, "Cheops build"));
    assert_eq!("2 — FAW build", chart_label(1, "FAW build"));
}

/// Without a note there is nothing to say beyond the slot number.
#[test]
fn a_combat_without_a_note_is_charted_under_its_number() {
    assert_eq!("1", chart_label(0, ""));
    assert_eq!("3", chart_label(2, ""));
}

#[test]
fn a_note_is_appended_after_a_dash() {
    assert_eq!("", note_suffix(""));
    assert_eq!(" — FAW build", note_suffix("FAW build"));
    assert_eq!("12 — x", chart_label(11, "x"));
}

fn names(list: &[&str]) -> Option<Vec<String>> {
    Some(list.iter().map(|s| s.to_string()).collect())
}

#[test]
fn rows_are_lined_up_by_name_across_combats() {
    let slots = vec![names(&["Phaser", "Torpedo"]), None, names(&["Torpedo", "Mine", "Phaser"])];
    let (order, children) = align_children(&slots);
    assert_eq!(vec!["Phaser".to_string(), "Torpedo".to_string(), "Mine".to_string()], order);
    assert_eq!(vec![Some(0), None, Some(2)], children[0]);
    assert_eq!(vec![Some(1), None, Some(0)], children[1]);
    assert_eq!(vec![None, None, Some(1)], children[2]);
}

#[test]
fn a_name_twice_in_one_combat_keeps_its_last_row() {
    let (order, children) = align_children(&vec![names(&["A", "B", "A"])]);
    assert_eq!(vec!["A".to_string(), "B".to_string()], order);
    assert_eq!(vec![Some(2)], children[0]);
    assert_eq!(vec![Some(1)], children[1]);
    let (order, children) = align_children(&vec![]);
    assert!(order.is_empty() && children.is_empty());
}

#[test]
fn every_slot_follows_the_reference_player_where_they_took_part() {
    let players = vec![
        vec!["Raman@h".to_string(), "Sirak@o".to_string()],
        vec!["Sirak@o".to_string(), "Raman@h".to_string()],
        vec!["Bora@t".to_string()],
    ];
    assert_eq!(vec![0, 1, 0], follow_the_reference_player(&players, &vec![0, 0, 0]));
    assert_eq!(vec![1, 0, 0], follow_the_reference_player(&players, &vec![1, 1, 0]));
    assert!(follow_the_reference_player(&vec![], &vec![]).is_empty());
}

#[test]
fn select_all_adds_what_the_filters_leave_in() {
    let mut view = CompareView::default();
    view.toggle_selected(7, true);
    view.select_matching(&vec![(3, true), (2, false), (7, true), (1, true)]);
    assert_eq!(vec![7, 3, 1], view.selected);
    assert_eq!(vec![1, 3, 7], view.selected_in_order());
    view.clear_selection();
    assert!(view.selected.is_empty());
}

#[test]
fn lower_resistance_is_the_better_one() {
    assert!(CompareMetric::Dps.higher_is_better());
    assert!(!CompareMetric::Resistance.higher_is_better());
    assert_eq!("Resistance %", CompareMetric::Resistance.label());
    assert_eq!(2, CompareMetric::Resistance.precision());
    assert_eq!(1, CompareMetric::HitsPerSecond.precision());
    assert_eq!(12, CompareMetric::all().len());
}

fn text_of(parts: &[(String, bool)]) -> String {
    parts.iter().map(|p| p.0.as_str()).collect()
}

fn colours_of(parts: &[(String, bool)]) -> Vec<bool> {
    parts.iter().map(|p| p.1).collect()
}

fn header(note: Option<&str>) -> Vec<(String, bool)> {
    header_parts("DPS", "#2", note)
}

#[test]
fn a_column_header_carries_the_note_under_the_number() {
    assert_eq!("DPS\n#2\nFAW build", text_of(&header(Some("FAW build"))));
}

#[test]
fn a_column_header_without_notes_stays_two_lines() {
    assert_eq!("DPS\n#2", text_of(&header(None)));
    assert_eq!(2, header_lines(false));
    assert_eq!(3, header_lines(true));
}

#[test]
fn the_number_and_the_note_take_the_series_colour() {
    // In the combat's colour or not: metric name, combat number, note.
    assert_eq!(vec![false, true, true], colours_of(&header(Some("FAW build"))));
}

#[test]
fn the_legend_colours_the_number_and_the_note() {
    let parts = legend_parts(1, "Infected Space", "FAW build");
    assert_eq!("2: Infected Space — FAW build", text_of(&parts));
    // Number, identifier, note.
    assert_eq!(vec![true, false, true], colours_of(&parts));
}

#[test]
fn the_legend_of_an_unnamed_run_ends_at_the_identifier() {
    assert_eq!("1: Infected Space", text_of(&legend_parts(0, "Infected Space", "")));
}

#[test]
fn a_header_has_as_many_lines_as_are_reserved_for_it() {
    for note in [None, Some("FAW build")] {
        let lines = text_of(&header(note)).lines().count() as u32;
        assert_eq!(header_lines(note.is_some()), lines);
    }
}
