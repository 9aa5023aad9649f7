use std::collections::BTreeSet;

use linux_soundboard_ui::folders::drop_toast_message;
use linux_soundboard_ui::folder_tree::{count_loaded_child_rows, TreeRow};
use linux_soundboard_ui::folders::{
    named_parent, folder_drop_overrides, folder_merge_request, folder_parent_relative_path,
    folder_reorder_target_index, resolve_sidebar_drop_intent, tab_display_name, tab_scope_key,
    tab_identity_for_scope_key, FolderOverrideAction, SidebarDropIntent, TabName, GENERAL_TAB_ID,
    FolderSoundCollector,
};
use linux_soundboard_ui::sibling_pager::{
    ChildPlacement, EvictedRows, SiblingPageRequest, SiblingPager,
    page_to_evict, should_handle_expansion_change, should_persist_expansion_change,
    should_release_collapsed_children, should_request_next_sibling_page, should_restore_expansion,
    PAGE_SIZE,
};
use linux_soundboard_ui::tab_dnd::{FolderDragContext, FolderDragPayload, SoundTabDragPayload};

#[test]
fn generated_folder_drop_builds_sparse_move_overrides() {
    let payload = SoundTabDragPayload {
        source_tab_id: "folder:source".to_string(),
        source_folder: Some(FolderDragContext {
            root_path: "/music".to_string(),
            relative_path: "source".to_string(),
        }),
        sound_ids: vec!["one".to_string(), "two".to_string()],
    };
    let target = FolderDragContext {
        root_path: "/music".to_string(),
        relative_path: "target".to_string(),
    };

    let overrides = folder_drop_overrides(&payload, &target);
    assert_eq!(overrides.len(), 4);
    assert_eq!(
        overrides
            .iter()
            .map(|record| (
                record.folder_relative_path.as_str(),
                record.sound_public_id.as_str(),
                record.action
            ))
            .collect::<Vec<_>>(),
        [
            ("target", "one", FolderOverrideAction::Include),
            ("source", "one", FolderOverrideAction::Exclude),
            ("target", "two", FolderOverrideAction::Include),
            ("source", "two", FolderOverrideAction::Exclude),
        ]
    );
    assert!(folder_drop_overrides(&payload, payload.source_folder.as_ref().expect("source folder"))
        .is_empty());
}

#[test]
fn should_request_next_sibling_page_triggers_near_loaded_end() {
    assert!(should_request_next_sibling_page(224, 256, true, false));
}

#[test]
fn should_request_next_sibling_page_does_not_trigger_far_from_end() {
    assert!(!should_request_next_sibling_page(0, 256, true, false));
}

#[test]
fn should_request_next_sibling_page_never_triggers_without_more_pages() {
    assert!(!should_request_next_sibling_page(255, 256, false, false));
}

#[test]
fn should_request_next_sibling_page_never_triggers_while_in_flight() {
    assert!(!should_request_next_sibling_page(224, 256, true, true));
}

#[test]
fn should_request_next_sibling_page_boundary_exactly_at_margin() {
    assert!(should_request_next_sibling_page(224, 256, true, false));
    assert!(!should_request_next_sibling_page(223, 256, true, false));
}

/// A folder row with `child_count` loaded children, each holding
/// `grandchildren` loaded rows of its own when it has any.
fn node_with_loaded_children(child_count: usize, grandchildren: usize) -> TreeRow {
    let children = (0..child_count)
        .map(|_| {
            if grandchildren > 0 {
                TreeRow::Folder(Some((0..grandchildren).map(|_| TreeRow::Folder(None)).collect()))
            } else {
                TreeRow::Folder(None)
            }
        })
        .collect();
    TreeRow::Folder(Some(children))
}

#[test]
fn counts_directly_loaded_child_rows() {
    let store = vec![node_with_loaded_children(5, 0)];
    // 1 parent row + its 5 loaded children.
    assert_eq!(count_loaded_child_rows(&store), 6);
}

#[test]
fn counts_rows_loaded_under_nested_folders() {
    let store = vec![node_with_loaded_children(3, 4)];
    // 1 parent + 3 children + 3*4 grandchildren.
    assert_eq!(count_loaded_child_rows(&store), 16);
}

#[test]
fn counts_nothing_for_an_empty_tree() {
    let store: Vec<TreeRow> = Vec::new();
    assert_eq!(count_loaded_child_rows(&store), 0);
}

#[test]
fn placeholder_rows_do_not_break_the_retention_walk() {
    let store = vec![node_with_loaded_children(2, 0), TreeRow::Placeholder];
    // 1 parent + its 2 children + 1 placeholder.
    assert_eq!(count_loaded_child_rows(&store), 4);
}

fn pages(items: &[usize]) -> BTreeSet<usize> {
    items.iter().copied().collect()
}

#[test]
fn keeps_every_page_while_within_the_window() {
    let pages = pages(&[0, 1, 2, 3]);
    assert_eq!(page_to_evict(&pages, 2, 6), None);
}

#[test]
fn drops_the_page_farthest_from_the_viewport() {
    let pages = pages(&[0, 5, 6, 7, 8, 9, 10]);
    assert_eq!(page_to_evict(&pages, 7, 6), Some(0));
}

#[test]
fn drops_pages_ahead_when_they_are_farther_than_pages_behind() {
    let pages = pages(&[0, 1, 2, 3, 4, 5, 20]);
    assert_eq!(page_to_evict(&pages, 1, 6), Some(20));
}

#[test]
fn breaks_distance_ties_by_dropping_the_lower_page() {
    let pages = pages(&[3, 4, 5, 6, 7]);
    assert_eq!(page_to_evict(&pages, 5, 4), Some(3));
}

#[test]
fn ignores_the_expansion_notification_storm_from_a_collapsing_parent() {
    assert!(!should_handle_expansion_change(false, false));
    assert!(!should_handle_expansion_change(true, true));
}

#[test]
fn handles_a_real_expansion_change() {
    assert!(should_handle_expansion_change(true, false));
    assert!(should_handle_expansion_change(false, true));
}

#[test]
fn dropping_below_a_later_row_does_not_overshoot() {
    assert_eq!(folder_reorder_target_index(1, 3, true), 3);
    assert_eq!(folder_reorder_target_index(1, 3, false), 2);
}

#[test]
fn dropping_above_an_earlier_row_keeps_the_slot() {
    assert_eq!(folder_reorder_target_index(3, 1, false), 1);
    assert_eq!(folder_reorder_target_index(3, 1, true), 2);
}

#[test]
fn a_folders_parent_comes_from_its_relative_path() {
    assert_eq!(folder_parent_relative_path("albumA"), None);
    assert_eq!(folder_parent_relative_path("albumA/disc1").as_deref(), Some("albumA"));
    assert_eq!(folder_parent_relative_path("a/b/c").as_deref(), Some("a/b"));
}

fn merge_payload(root: &str, relative: &str) -> FolderDragPayload {
    FolderDragPayload {
        root_path: root.to_string(),
        relative_path: relative.to_string(),
        parent_relative_path: folder_parent_relative_path(relative),
    }
}

#[test]
fn folders_can_be_combined_across_different_parents() {
    let request = folder_merge_request(&merge_payload("/music", "albumA/disc1"), "/music", "albumB")
        .expect("a folder should combine into an unrelated folder");
    assert_eq!(request.source_relative_path, "albumA/disc1");
    assert_eq!(request.destination_relative_path, "albumB");
}

#[test]
fn a_folder_can_be_combined_into_its_own_ancestor() {
    assert!(folder_merge_request(&merge_payload("/music", "albumA/disc1"), "/music", "albumA").is_some());
}

#[test]
fn a_folder_cannot_be_combined_into_itself_or_its_own_subtree() {
    assert!(folder_merge_request(&merge_payload("/music", "albumA"), "/music", "albumA").is_none());
    assert!(folder_merge_request(&merge_payload("/music", "albumA"), "/music", "albumA/disc1").is_none());
    // A prefix match that is not a path boundary is a different folder.
    assert!(folder_merge_request(&merge_payload("/music", "album"), "/music", "albumA").is_some());
}

#[test]
fn folders_from_different_roots_cannot_be_combined() {
    assert!(folder_merge_request(&merge_payload("/music", "albumA"), "/other", "albumB").is_none());
}

#[test]
fn tearing_the_tree_down_does_not_persist_collapse() {
    assert!(
        !should_persist_expansion_change(true, true),
        "a collapse caused by rebuilding the tree is not user intent"
    );
    assert!(should_persist_expansion_change(true, false), "a real user collapse must still be saved");
    assert!(!should_persist_expansion_change(false, false), "an unchanged row writes nothing");
}

#[test]
fn collapsing_retains_children_while_under_the_row_cap() {
    assert!(!should_release_collapsed_children(1_000, 4_096));
}

#[test]
fn collapsing_releases_children_once_over_the_row_cap() {
    assert!(should_release_collapsed_children(4_097, 4_096));
}

#[test]
fn row_cap_boundary_retains_at_exactly_the_cap() {
    assert!(!should_release_collapsed_children(4_096, 4_096));
    assert!(should_release_collapsed_children(4_097, 4_096));
}

#[test]
fn restores_persisted_expansion_only_on_first_bind() {
    assert!(should_restore_expansion(true, false));
    assert!(!should_restore_expansion(true, true));
}

#[test]
fn never_forces_collapse_from_bind() {
    assert!(!should_restore_expansion(false, false));
    assert!(!should_restore_expansion(false, true));
}

#[test]
fn expansion_latch_only_restores_on_first_bind_of_a_node() {
    let already_restored = std::cell::Cell::new(false);
    let first_bind = should_restore_expansion(true, already_restored.replace(true));
    let second_bind = should_restore_expansion(true, already_restored.replace(true));
    assert_eq!([first_bind, second_bind], [true, false]);
}

#[test]
fn general_and_manual_tabs_use_separate_scope_namespaces() {
    // Manual tabs carry a uuid, so the two can never produce the same key.
    assert_eq!(tab_scope_key(GENERAL_TAB_ID), "general");
    assert_eq!(
        tab_scope_key("41d0f0a4-6a1e-4a0e-9d2e-0b0f8a1d2c3e"),
        "tab:41d0f0a4-6a1e-4a0e-9d2e-0b0f8a1d2c3e"
    );
}

#[test]
fn scope_keys_select_their_tab_back() {
    for tab in [GENERAL_TAB_ID, "41d0f0a4", "tab:nested", ""] {
        let key = tab_scope_key(tab);
        assert_eq!(tab_identity_for_scope_key(&key).as_deref(), Some(tab));
    }
    assert_eq!(tab_identity_for_scope_key("folder:/music"), None);
}

#[test]
fn drop_intents_follow_the_general_tab() {
    assert_eq!(resolve_sidebar_drop_intent("a", "a"), SidebarDropIntent::Noop);
    assert_eq!(resolve_sidebar_drop_intent(GENERAL_TAB_ID, "a"), SidebarDropIntent::AddToTarget);
    assert_eq!(resolve_sidebar_drop_intent("a", GENERAL_TAB_ID), SidebarDropIntent::RemoveFromSource);
    assert_eq!(resolve_sidebar_drop_intent("a", "b"), SidebarDropIntent::MoveBetweenCustomTabs);
}

#[test]
fn tabs_are_named_by_their_public_id() {
    let tabs = vec![
        TabName { public_id: "t1".to_string(), name: "Memes".to_string() },
        TabName { public_id: "t2".to_string(), name: "Music".to_string() },
    ];
    assert_eq!(tab_display_name(&GENERAL_TAB_ID.to_string(), &tabs), "General");
    assert_eq!(tab_display_name(&"t2".to_string(), &tabs), "Music");
    assert_eq!(tab_display_name(&"gone".to_string(), &tabs), "gone");
}

#[test]
fn folder_sounds_are_collected_until_a_short_page() {
    let mut collector = FolderSoundCollector::new();
    assert_eq!(collector.page_to_fetch(), Some(0));
    let full: Vec<String> = (0..PAGE_SIZE).map(|i| format!("s{i}")).collect();
    collector.add_page(full);
    assert_eq!(collector.page_to_fetch(), Some(1));
    collector.add_page(vec!["last".to_string()]);
    assert_eq!(collector.page_to_fetch(), None);
    let ids = collector.into_ids();
    assert_eq!(ids.len(), PAGE_SIZE + 1);
    assert_eq!(ids[0], "s0");
    assert_eq!(ids[PAGE_SIZE], "last");
}

#[test]
fn drop_toasts_count_the_sounds() {
    let source = "Memes".to_string();
    let target = "Music".to_string();
    assert_eq!(drop_toast_message(SidebarDropIntent::AddToTarget, &source, &target, 1).as_deref(), Some("1 sound added to Music"));
    assert_eq!(drop_toast_message(SidebarDropIntent::RemoveFromSource, &source, &target, 3).as_deref(), Some("3 sounds removed from Memes"));
    assert_eq!(drop_toast_message(SidebarDropIntent::MoveBetweenCustomTabs, &source, &target, 2).as_deref(), Some("2 sounds moved to Music"));
    assert_eq!(drop_toast_message(SidebarDropIntent::Noop, &source, &target, 2), None);
    assert_eq!(drop_toast_message(SidebarDropIntent::AddToTarget, &source, &target, 0), None);
}

#[test]
fn a_failed_page_load_leaves_the_node_reloadable() {
    let mut pager = SiblingPager::new(0);
    pager.has_more = false;
    assert!(pager.children_requested);

    pager.mark_reloadable();

    assert!(
        !pager.children_requested,
        "a failed load left the request latch set, so the folder stays empty"
    );
}

#[test]
fn a_page_requested_while_busy_is_remembered() {
    let mut pager = SiblingPager::new(0);
    pager.in_flight = true;

    assert_eq!(pager.request_page(5), SiblingPageRequest::Queued);

    assert!(
        pager.pending_pages.contains(&5),
        "a page requested while busy was dropped, so its rows stay blank"
    );
}

#[test]
fn an_idle_pager_fetches_at_once_and_then_queues() {
    let mut pager = SiblingPager::new(0);
    assert_eq!(pager.request_page(2), SiblingPageRequest::Fetch(2));
    assert!(pager.in_flight);
    assert_eq!(pager.request_page(3), SiblingPageRequest::Queued);
    pager.dispatch_failed();
    assert!(!pager.in_flight);
    assert!(!pager.children_requested);
}

#[test]
fn eviction_reports_each_dropped_page_that_has_rows() {
    let mut pager = SiblingPager::new(6 * PAGE_SIZE + 10);
    pager.loaded_pages = (0..8).collect();
    pager.focus_page = 0;

    let evicted = pager.evict_distant_pages();

    assert_eq!(pager.loaded_pages, pages(&[0, 1, 2, 3, 4, 5]));
    assert_eq!(
        evicted,
        vec![EvictedRows { page: 6, start: 6 * PAGE_SIZE, count: 10 }],
        "page 7 has no rows to blank; page 6 has its last ten"
    );
}

#[test]
fn eviction_keeps_a_window_that_fits() {
    let mut pager = SiblingPager::new(4 * PAGE_SIZE);
    pager.loaded_pages = pages(&[0, 1, 2, 3]);

    assert!(pager.evict_distant_pages().is_empty());
    assert_eq!(pager.loaded_pages, pages(&[0, 1, 2, 3]));
}

#[test]
fn a_loaded_page_starts_the_nearest_remembered_page() {
    let mut pager = SiblingPager::new(0);
    assert_eq!(pager.request_page(0), SiblingPageRequest::Fetch(0));
    assert_eq!(pager.request_page(3), SiblingPageRequest::Queued);
    assert_eq!(pager.request_page(1), SiblingPageRequest::Queued);

    let outcome = pager.page_loaded(0, PAGE_SIZE);

    assert_eq!(outcome.placement, ChildPlacement::Appended { at: 0, count: PAGE_SIZE });
    assert!(outcome.evicted.is_empty());
    assert_eq!(outcome.next, Some(SiblingPageRequest::Fetch(1)));
    assert_eq!(pager.loaded_pages, pages(&[0]));
    assert_eq!(pager.pending_pages, pages(&[3]));
    assert!(pager.in_flight);
    assert_eq!(pager.next_page, 1);
    assert!(pager.has_more);
}

#[test]
fn a_loaded_page_far_from_view_is_blanked_again() {
    let mut pager = SiblingPager::new(7 * PAGE_SIZE);
    pager.loaded_pages = (0..6).collect();
    pager.in_flight = true;

    let outcome = pager.page_loaded(7, PAGE_SIZE);

    assert_eq!(outcome.placement, ChildPlacement::Appended { at: 7 * PAGE_SIZE, count: PAGE_SIZE });
    assert_eq!(
        outcome.evicted,
        vec![EvictedRows { page: 7, start: 7 * PAGE_SIZE, count: PAGE_SIZE }]
    );
    assert!(!pager.loaded_pages.contains(&7));
    assert_eq!(outcome.next, None);
    assert!(!pager.in_flight);
}

#[test]
fn a_reloaded_page_replaces_its_placeholders() {
    let mut pager = SiblingPager::new(3 * PAGE_SIZE);
    pager.in_flight = true;

    let outcome = pager.page_loaded(1, PAGE_SIZE);

    assert_eq!(outcome.placement, ChildPlacement::Replaced { start: PAGE_SIZE, count: PAGE_SIZE });
    assert_eq!(pager.children_len, 3 * PAGE_SIZE);
    assert_eq!(pager.loaded_pages, pages(&[1]));
}

#[test]
fn a_failed_page_load_starts_the_nearest_remembered_page() {
    let mut pager = SiblingPager::new(0);
    assert_eq!(pager.request_page(4), SiblingPageRequest::Fetch(4));
    assert_eq!(pager.request_page(9), SiblingPageRequest::Queued);
    assert_eq!(pager.request_page(2), SiblingPageRequest::Queued);

    assert_eq!(pager.page_failed(), Some(SiblingPageRequest::Fetch(2)));
    assert!(pager.in_flight);
    assert!(!pager.has_more);
    assert!(!pager.children_requested);
    assert_eq!(pager.pending_pages, pages(&[9]));
}

#[test]
fn a_failed_page_load_with_nothing_remembered_goes_idle() {
    let mut pager = SiblingPager::new(0);
    assert_eq!(pager.request_page(0), SiblingPageRequest::Fetch(0));

    assert_eq!(pager.page_failed(), None);
    assert!(!pager.in_flight);
    assert!(pager.pending_pages.is_empty());
}

#[test]
fn an_empty_parent_names_no_folder() {
    assert_eq!(named_parent(Some(String::new())), None);
    assert_eq!(named_parent(Some("albumA".to_string())).as_deref(), Some("albumA"));
    assert_eq!(named_parent(None), None);
}
