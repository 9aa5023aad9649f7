use linux_soundboard_ui::dropped::{drop_zone_text, DropHover, DropState};
use linux_soundboard_ui::dropped::{
    drop_refusal_message, dropped_entries, import_result_message, import_target_tab, parse_uri_list,
    percent_decode, plan_drop_import, unique_paths, DropImport, DroppedEntry,
};
use linux_soundboard_ui::folders::GENERAL_TAB_ID;

#[test]
fn uri_lists_skip_comments_and_blank_lines() {
    let list = "# comment\r\nfile:///music/a%20b.mp3\r\n\r\n  /music/plain.ogg  \n";
    assert_eq!(parse_uri_list(list), ["/music/a b.mp3", "/music/plain.ogg"]);
}

#[test]
fn percent_escapes_decode_to_their_byte() {
    assert_eq!(percent_decode("a%41%2f%2Bz"), "aA/+z");
    assert_eq!(percent_decode("100%"), "100%");
    assert_eq!(percent_decode("%4"), "%4");
    assert_eq!(percent_decode("%zz9"), "%zz9");
    assert_eq!(percent_decode("%+5"), "\u{5}");
    // Escapes decode byte by byte, not as UTF-8.
    assert_eq!(percent_decode("%C3%A9"), "\u{c3}\u{a9}");
}

#[test]
fn dropped_entries_tell_uris_from_paths() {
    let entries = dropped_entries("file:///a.wav\n/b.wav\n#x\n");
    assert_eq!(entries.len(), 2);
    assert!(matches!(&entries[0], DroppedEntry::FileUri(uri) if uri == "file:///a.wav"));
    assert!(matches!(&entries[1], DroppedEntry::Path(path) if path == "/b.wav"));
}

#[test]
fn dropped_paths_are_kept_once_in_order() {
    let resolved = vec![
        Some("/a.wav".to_string()),
        None,
        Some("/b.wav".to_string()),
        Some("/a.wav".to_string()),
    ];
    assert_eq!(unique_paths(&resolved), ["/a.wav", "/b.wav"]);
}

#[test]
fn a_drop_is_sorted_into_supported_and_skipped_files() {
    let paths = vec!["/a.mp3".to_string(), "/notes.txt".to_string(), "/b.ogg".to_string()];
    match plan_drop_import(&paths, &vec![true, false, true], &"tab-1".to_string()) {
        DropImport::Import { paths, skipped, tab_id } => {
            assert_eq!(paths, ["/a.mp3", "/b.ogg"]);
            assert_eq!(skipped, 1);
            assert_eq!(tab_id.as_deref(), Some("tab-1"));
        }
        _ => panic!("supported files were not imported"),
    }
    let nothing = plan_drop_import(&Vec::new(), &Vec::new(), &"tab-1".to_string());
    assert_eq!(drop_refusal_message(&nothing), Some("Drop supported audio files to add them"));
    let unsupported = plan_drop_import(&vec!["/x.txt".to_string()], &vec![false], &"tab-1".to_string());
    assert_eq!(drop_refusal_message(&unsupported), Some("No supported audio files were dropped"));
}

#[test]
fn the_general_tab_imports_into_the_whole_library() {
    assert_eq!(import_target_tab(&GENERAL_TAB_ID.to_string()), None);
    assert_eq!(import_target_tab(&"tab-9".to_string()).as_deref(), Some("tab-9"));
}

#[test]
fn import_results_are_told_in_a_toast() {
    assert_eq!(import_result_message(0, 0), "Dropped files were already in the soundboard");
    assert_eq!(import_result_message(0, 3), "Skipped 3 unsupported files");
    assert_eq!(import_result_message(2, 0), "Added 2 sounds");
    assert_eq!(import_result_message(12, 1), "Added 12 sounds, skipped 1 files");
}

#[test]
fn the_drop_zone_shows_while_a_drag_hovers() {
    let mut hover = DropHover::new();
    assert_eq!(hover.enter(), DropState::Ready);
    assert_eq!(hover.enter(), DropState::Ready);
    assert!(!hover.leave());
    assert!(hover.leave());
    // An unpaired leave does not count below zero.
    assert!(hover.leave());
    assert_eq!(hover.enter(), DropState::Ready);
    assert_eq!(hover.dropped(), DropState::Importing);
    assert!(hover.leave());
    assert_eq!(drop_zone_text(DropState::Hidden), ("", "", None));
    assert_eq!(drop_zone_text(DropState::Ready).0, "Drop Audio Files Here");
    assert_eq!(drop_zone_text(DropState::Rejected).2, Some("drop-zone-rejected"));
}
