use linux_soundboard_ui::sound_menu::{menu_targets, menu_title, sound_menu};

fn ids(items: &[&str]) -> Vec<String> {
    items.iter().map(|s| s.to_string()).collect()
}

#[test]
fn a_menu_on_a_selected_sound_acts_on_the_whole_selection() {
    assert_eq!(menu_targets(&ids(&["a", "b", "c"]), "b"), ids(&["a", "b", "c"]));
}

#[test]
fn a_menu_outside_the_selection_acts_on_the_clicked_sound() {
    assert_eq!(menu_targets(&ids(&["a", "b"]), "z"), ids(&["z"]));
    assert_eq!(menu_targets(&ids(&["a"]), "a"), ids(&["a"]));
    assert_eq!(menu_targets(&ids(&[]), "a"), ids(&["a"]));
}

#[test]
fn long_names_are_cut_in_the_menu_title() {
    let long: String = "x".repeat(31);
    let cut = menu_title(&long);
    assert_eq!(cut, format!("{}…", "x".repeat(29)));
    assert_eq!(cut.chars().count(), 30);

    let exact: String = "é".repeat(30);
    assert_eq!(menu_title(&exact), exact);
    assert_eq!(menu_title("Airhorn"), "Airhorn");
}

#[test]
fn single_sound_menu_in_the_general_tab() {
    let menu = sound_menu(&ids(&[]), "s1", "Airhorn", false, false, "general");
    assert_eq!(menu.target_ids, ids(&["s1"]));
    assert_eq!(menu.title, "Airhorn");
    assert_eq!(menu.hotkey_label, "Set Hotkey");
    assert_eq!(menu.refine_label, "Refine Loudness Now");
    assert!(!menu.offer_add_to_tab);
    assert!(!menu.offer_remove_from_tab);
    assert_eq!(menu.delete_label, "Delete");
}

#[test]
fn selection_menu_in_a_manual_tab() {
    let menu = sound_menu(&ids(&["s1", "s2"]), "s2", "Bell", true, true, "tab-7");
    assert_eq!(menu.target_ids, ids(&["s1", "s2"]));
    assert_eq!(menu.hotkey_label, "Update Hotkey");
    assert_eq!(menu.refine_label, "Refine Loudness (Selected)");
    assert!(menu.offer_add_to_tab);
    assert!(menu.offer_remove_from_tab);
    assert_eq!(menu.delete_label, "Delete Selected");
}
