use sto_clare::consolidation::{
    first_record_key, is_combatlog_name, is_combatlog_path, is_rotated_name, Consolidator, RotatedFile, STATE_NAME,
    TARGET_NAME,
};

#[test]
fn recognizes_combatlog_paths() {
    assert!(is_combatlog_path("/logs/combatlog.log"));
    assert!(is_combatlog_path("/logs/combatlog_2026-07-22_00-00-00.log"));
    assert!(!is_combatlog_path("/logs/chat.log"));
    assert!(!is_combatlog_path("/logs/.cla-consolidation"));
    assert!(!is_combatlog_path("/logs/combatlog.log.tmp"));
}

#[test]
fn a_path_ending_in_dot_dot_names_no_log() {
    assert!(!is_combatlog_path("/logs/combatlog.log/.."));
    assert!(is_combatlog_path("combatlog.log"));
}

#[test]
fn only_rotated_logs_are_consumed() {
    assert!(is_rotated_name("combatlog_2026-07-19_10-00-00.log"));
    assert!(!is_rotated_name(TARGET_NAME));
    assert!(!is_rotated_name(STATE_NAME));
    assert!(!is_rotated_name("combatlog_2026-07-19_10-00-00.log.tmp"));
}

#[test]
fn a_file_sorts_by_the_timestamp_of_its_first_record() {
    assert_eq!(
        "26:07:19:10:00:00.0",
        first_record_key(b"26:07:19:10:00:00.0::Raman,P[1@2 R", "combatlog_b.log")
    );
    // No separator in the first bytes: all of them.
    assert_eq!("26:07:19", first_record_key(b"26:07:19", "combatlog_b.log"));
    // Nothing to go by: the file name.
    assert_eq!("combatlog_b.log", first_record_key(b"", "combatlog_b.log"));
    assert_eq!("combatlog_b.log", first_record_key(b"::x", "combatlog_b.log"));
    // A multi-byte character cut off by the read is not text.
    assert_eq!("combatlog_b.log", first_record_key(&[0x32, 0xc3], "combatlog_b.log"));
}

fn file(name: &str, modified: u128, first_bytes: &str) -> RotatedFile {
    RotatedFile {
        name: name.to_string(),
        modified,
        key: first_record_key(first_bytes.as_bytes(), name),
    }
}

fn listing() -> Vec<RotatedFile> {
    vec![
        file("combatlog_2026-07-19_12-00-00.log", 30, "26:07:19:12:00:00.0::c\n"),
        file("combatlog_2026-07-19_10-00-00.log", 10, "26:07:19:10:00:00.0::a\n"),
        file("combatlog_2026-07-19_11-00-00.log", 20, "26:07:19:11:00:00.0::b\n"),
    ]
}

#[test]
fn nothing_to_do_without_rotated_logs() {
    let c = Consolidator::new("/logs".to_string(), None);
    assert!(c.tick(&vec![], None).is_none());
}

#[test]
fn a_pass_merges_the_complete_files_oldest_first_and_mirrors_the_newest() {
    let files = listing();
    let c = Consolidator::new("/logs".to_string(), None);
    let pass = c.tick(&files, None).unwrap();
    assert_eq!(0, pass.active);
    assert_eq!(0, pass.active_from);
    assert_eq!(vec![(1, 0), (2, 0)], pass.complete);
}

#[test]
fn the_protected_file_is_left_alone() {
    let files = listing();
    let c = Consolidator::new("/logs".to_string(), None);
    let pass = c.tick(&files, Some("combatlog_2026-07-19_10-00-00.log")).unwrap();
    assert_eq!(vec![(2, 0)], pass.complete);
    assert_eq!(0, pass.active);
}

#[test]
fn of_files_written_at_the_same_moment_the_last_listed_is_active() {
    let files = vec![
        file("combatlog_a.log", 50, "26:07:19:10:00:00.0::a\n"),
        file("combatlog_b.log", 50, "26:07:19:11:00:00.0::b\n"),
    ];
    let c = Consolidator::new("/logs".to_string(), None);
    let pass = c.tick(&files, None).unwrap();
    assert_eq!(1, pass.active);
    assert_eq!(vec![(0, 0)], pass.complete);
}

#[test]
fn files_with_the_same_key_keep_their_listing_order() {
    let files = vec![
        file("combatlog_x.log", 1, "26:07:19:10:00:00.0::x\n"),
        file("combatlog_y.log", 2, "26:07:19:09:00:00.0::y\n"),
        file("combatlog_z.log", 3, "26:07:19:10:00:00.0::z\n"),
        file("combatlog_w.log", 9, "26:07:19:23:00:00.0::w\n"),
    ];
    let c = Consolidator::new("/logs".to_string(), None);
    let pass = c.tick(&files, None).unwrap();
    assert_eq!(3, pass.active);
    assert_eq!(vec![(1, 0), (0, 0), (2, 0)], pass.complete);
}

#[test]
fn the_active_file_is_mirrored_from_where_the_last_pass_stopped() {
    let files = listing();
    let mut c = Consolidator::new("/logs".to_string(), None);
    let pass = c.tick(&files, None).unwrap();
    c.merged(&files, &pass);
    c.mirrored(files[pass.active].name.clone(), 23);
    let again = c.tick(&vec![file("combatlog_2026-07-19_12-00-00.log", 31, "26:07:19:12:00:00.0::c\n")], None)
        .unwrap();
    assert_eq!(23, again.active_from);
    assert!(again.complete.is_empty());
}

#[test]
fn a_mirrored_file_that_is_complete_now_resumes_at_its_offset() {
    let mut c = Consolidator::new("/logs".to_string(), Some("combatlog_2026-07-19_11-00-00.log\n40\n"));
    let files = listing();
    let pass = c.tick(&files, None).unwrap();
    assert_eq!(vec![(1, 0), (2, 40)], pass.complete);
    assert_eq!(0, pass.active_from);
    c.merged(&files, &pass);
    assert!(c.active.is_none());
    assert_eq!(0, c.active_offset);
    c.mirrored(files[pass.active].name.clone(), 23);
    assert_eq!(Some("combatlog_2026-07-19_12-00-00.log".to_string()), c.active);
    assert_eq!(23, c.active_offset);
}

#[test]
fn a_restart_resumes_at_the_saved_position() {
    let mut c = Consolidator::new("/logs".to_string(), None);
    c.mirrored("combatlog_2026-07-19_12-00-00.log".to_string(), 1234);
    let text = c.state_text();
    assert_eq!("combatlog_2026-07-19_12-00-00.log\n1234\n", text);
    let restarted = Consolidator::new("/logs".to_string(), Some(&text));
    assert_eq!(c.active, restarted.active);
    assert_eq!(1234, restarted.active_offset);
    assert_eq!("/logs", restarted.dir);
}

#[test]
fn a_state_file_is_read_line_by_line() {
    let c = Consolidator::new("/d".to_string(), Some("name\r\n 7 \r\n"));
    assert_eq!(Some("name".to_string()), c.active);
    assert_eq!(7, c.active_offset);
    // An offset that is not a number reads as the start of the file.
    let c = Consolidator::new("/d".to_string(), Some("name\nabc\n"));
    assert_eq!(Some("name".to_string()), c.active);
    assert_eq!(0, c.active_offset);
    // One line, or an empty name, is no state at all.
    let c = Consolidator::new("/d".to_string(), Some("name\n"));
    assert_eq!(None, c.active);
    let c = Consolidator::new("/d".to_string(), Some("\n5\n"));
    assert_eq!(None, c.active);
    assert_eq!(0, c.active_offset);
}

#[test]
fn no_mirrored_file_saves_an_empty_name() {
    let c = Consolidator::new("/d".to_string(), None);
    assert_eq!("\n0\n", c.state_text());
    assert_eq!(None, Consolidator::new("/d".to_string(), Some(&c.state_text())).active);
}


#[test]
fn a_combat_log_is_told_by_its_name() {
    assert!(is_combatlog_name("combatlog.log"));
    assert!(is_combatlog_name("combatlog_2026-07-22_00-00-00.log"));
    assert!(!is_combatlog_name("chat.log"));
    assert!(!is_combatlog_name("combatlog.log.tmp"));
}

#[test]
fn a_relative_path_is_read_by_its_last_name() {
    assert!(is_combatlog_path("logs/./combatlog.log"));
    assert!(is_combatlog_path("../combatlog_2026-07-22_00-00-00.log"));
    assert!(!is_combatlog_path("combatlog.log/chat.log"));
    assert!(!is_combatlog_path("logs/combatlog"));
}

#[test]
fn an_absolute_path_is_read_by_its_last_name() {
    assert!(is_combatlog_path("/home/user/logs/combatlog.log"));
    assert!(!is_combatlog_path("/logs/combatlog.log/chat.log"));
    assert!(!is_combatlog_path("/combatlog"));
}
