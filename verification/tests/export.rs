use sto_clare::export::{
    column_at, columns, damage_metrics, heal_metrics, indented, number_format, summary_metrics,
    MainTab, NUMBER_FORMATS,
};

/// The tree's shape is carried by indenting the name.
#[test]
fn a_sub_ability_is_indented_under_its_parent() {
    assert_eq!("Total", indented("Total", 0));
    assert_eq!("    Phaser Beam", indented("Phaser Beam", 1));
    assert_eq!("        Overload", indented("Overload", 2));
}

/// The first column is the name, so the values start beside it.
#[test]
fn values_start_after_the_name_column() {
    assert_eq!(1, column_at(0));
    assert_eq!(2, column_at(1));
}

#[test]
fn every_precision_has_a_number_format() {
    for format in &NUMBER_FORMATS {
        assert!(!format.is_empty());
    }
    assert_eq!("#,##0.00", NUMBER_FORMATS[9usize.min(NUMBER_FORMATS.len() - 1)]);
}

#[test]
fn a_precision_past_the_formats_takes_the_last() {
    assert_eq!("#,##0", number_format(0));
    assert_eq!("#,##0.0", number_format(1));
    assert_eq!("#,##0.00", number_format(2));
    assert_eq!("#,##0.00", number_format(9));
}

#[test]
fn each_metric_list_names_every_column_it_writes() {
    assert!(!damage_metrics().is_empty());
    assert!(!heal_metrics().is_empty());
    assert!(!summary_metrics().is_empty());
    for list in [damage_metrics(), heal_metrics(), summary_metrics()] {
        for (name, decimals) in list {
            assert!(!name.is_empty());
            assert!(decimals <= 2, "{name} asks for more decimals than exist");
        }
    }
}

/// Excel wants sheet names that are distinct, no longer than 31 characters
/// and free of `: \ / ? * [ ]`.
#[test]
fn every_tab_name_can_be_a_sheet_name() {
    let tabs = [
        MainTab::Summary,
        MainTab::DamageDealt,
        MainTab::DamageTaken,
        MainTab::SelfHealing,
        MainTab::HealingAlly,
        MainTab::HealingReceived,
    ];
    let mut names: Vec<&str> = tabs.iter().map(|tab| tab.name()).collect();
    assert_eq!(6, names.len());
    for name in &names {
        assert!(name.len() <= 31, "{name} is too long for a sheet name");
        assert!(
            !name.contains([':', '\\', '/', '?', '*', '[', ']']),
            "{name} holds a character a sheet name may not"
        );
    }
    names.sort_unstable();
    names.dedup();
    assert_eq!(6, names.len(), "two tabs share a name");
}

#[test]
fn no_metric_name_repeats() {
    for list in [damage_metrics(), heal_metrics(), summary_metrics()] {
        let names: Vec<&str> = list.iter().map(|(n, _)| *n).collect();
        let mut sorted = names.clone();
        sorted.sort_unstable();
        sorted.dedup();
        assert_eq!(names.len(), sorted.len(), "a metric name repeats: {names:?}");
    }
}

#[test]
fn a_metric_list_becomes_its_columns() {
    let cols = columns(&heal_metrics());
    assert_eq!(10, cols.len());
    assert_eq!("HPS", cols[0].header);
    assert_eq!(0, cols[0].decimals);
    assert_eq!("Heal %", cols[2].header);
    assert_eq!(2, cols[2].decimals);
    assert_eq!("Ticks/s", cols[6].header);
    assert_eq!(1, cols[6].decimals);
}

#[test]
fn the_metric_lists_have_their_lengths() {
    assert_eq!(24, damage_metrics().len());
    assert_eq!(10, heal_metrics().len());
    assert_eq!(11, summary_metrics().len());
    assert_eq!(("DPS", 0), damage_metrics()[0]);
    assert_eq!(("Kills", 0), summary_metrics()[10]);
}
