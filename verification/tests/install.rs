use std::hash::{Hash, Hasher};
use sto_clare::install::{
    desktop_entry, entry_exec, entry_file_name, install_id, install_id_from_hash, is_entry_of,
    is_our_entry_name, is_stale, is_sweep_candidate, platform_target, APP_ID, LEGACY_APP_ID,
};

#[test]
fn our_entries_are_recognized_under_both_names() {
    assert!(is_our_entry_name("sto-clare-1a2b3c4d.desktop"));
    assert!(is_our_entry_name("sto-cla-1a2b3c4d.desktop"));
}

/// The current name is not a match for the old prefix, and vice versa.
#[test]
fn the_two_names_do_not_match_each_other() {
    assert!(!"sto-clare-1a2b3c4d.desktop".starts_with(&format!("{LEGACY_APP_ID}-")));
    assert!(!"sto-cla-1a2b3c4d.desktop".starts_with(&format!("{APP_ID}-")));
}

#[test]
fn other_applications_are_left_alone() {
    assert!(!is_our_entry_name("sto-warp.desktop"));
    assert!(!is_our_entry_name("sto-clare-1a2b3c4d.png"));
}

#[test]
fn an_entry_belongs_to_one_name_only() {
    assert!(is_entry_of("sto-cla-00000000.desktop", LEGACY_APP_ID));
    assert!(!is_entry_of("sto-clare-00000000.desktop", LEGACY_APP_ID));
    assert!(is_entry_of("sto-clare-00000000.desktop", APP_ID));
}

#[test]
fn the_install_id_is_the_upper_half_of_the_hash_in_hex() {
    assert_eq!("01234567", install_id_from_hash(0x0123_4567_89ab_cdef));
    assert_eq!("00000000", install_id_from_hash(0xffff_ffff));
    assert_eq!("ffffffff", install_id_from_hash(u64::MAX));
    assert_eq!("000000ab", install_id_from_hash(0x0000_00ab_0000_0000));
}

#[test]
fn the_install_id_of_a_path_is_eight_hex_digits_and_stable() {
    let a = install_id("/opt/sto-clare/sto-clare");
    assert_eq!(8, a.len());
    assert!(a.chars().all(|c| c.is_ascii_hexdigit() && !c.is_ascii_uppercase()));
    assert_eq!(a, install_id("/opt/sto-clare/sto-clare"));
}

#[test]
fn the_entry_file_is_named_after_the_install() {
    assert_eq!("sto-clare-1a2b3c4d.desktop", entry_file_name("1a2b3c4d"));
}

#[test]
fn the_desktop_entry_starts_the_program_with_its_icon() {
    let text = desktop_entry("/opt/sto clare/sto-clare", "/home/u/.local/share/icons/sto-clare.png");
    assert_eq!(
        "[Desktop Entry]\nType=Application\nName=STO-CLARE\nComment=Analyze Star Trek Online combat logs\n\
         Exec=\"/opt/sto clare/sto-clare\"\nIcon=/home/u/.local/share/icons/sto-clare.png\n\
         Terminal=false\nCategories=Game;\nStartupNotify=true\nStartupWMClass=sto-clare\n",
        text
    );
    assert_eq!(Some("/opt/sto clare/sto-clare".to_string()), entry_exec(&text));
}

#[test]
fn the_exec_line_is_read_without_its_quotes() {
    assert_eq!(
        Some("/usr/bin/x".to_string()),
        entry_exec("[Desktop Entry]\r\nName=X\r\nExec=  \"/usr/bin/x\"  \r\nExec=/other\n")
    );
    assert_eq!(None, entry_exec("[Desktop Entry]\nName=X\n"));
    assert_eq!(None, entry_exec(""));
}

#[test]
fn only_other_entries_of_ours_are_swept() {
    assert!(!is_sweep_candidate("sto-clare-1a2b3c4d.desktop", "sto-clare-1a2b3c4d.desktop"));
    assert!(is_sweep_candidate("sto-clare-99999999.desktop", "sto-clare-1a2b3c4d.desktop"));
    assert!(is_sweep_candidate("sto-cla-1a2b3c4d.desktop", "sto-clare-1a2b3c4d.desktop"));
    assert!(!is_sweep_candidate("firefox.desktop", "sto-clare-1a2b3c4d.desktop"));
}

#[test]
fn an_entry_is_stale_when_it_starts_us_or_nothing() {
    assert!(is_stale("/opt/a/sto-clare", " \"/opt/a/sto-clare\" ", true));
    assert!(is_stale("/gone/sto-clare", "/opt/a/sto-clare", false));
    assert!(!is_stale("/opt/b/sto-clare", "/opt/a/sto-clare", true));
}

#[test]
fn each_supported_system_has_a_release_tag() {
    assert_eq!(Some("linux-x86_64"), platform_target("linux"));
    assert_eq!(Some("windows-x86_64"), platform_target("windows"));
    assert_eq!(Some("macos-x86_64"), platform_target("macos"));
    assert_eq!(None, platform_target("freebsd"));
}

#[test]
fn the_install_id_is_the_one_the_path_hashes_to() {
    for exe in ["/opt/sto-clare/sto-clare", "", "/home/ü/bin/sto-clare"] {
        let mut hasher = std::collections::hash_map::DefaultHasher::new();
        exe.hash(&mut hasher);
        assert_eq!(install_id_from_hash(hasher.finish()), install_id(exe));
    }
}
