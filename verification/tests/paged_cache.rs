use linux_soundboard_ui::paged_cache::{
    replacement_chunks, ItemRef, ItemsChanged, LoadedRow, PageLoadPriority, PageRequest,
    PageResult, PagedSoundModel, RowSlot, FAILED_ROW_NAME, LOADING_ROW_NAME,
};
use linux_soundboard_ui::sibling_pager::PAGE_SIZE;

/// What the list shows of a fetched sound.
#[derive(Clone, Debug, PartialEq)]
struct Row {
    name: String,
    path: String,
    hotkey: Option<String>,
}

/// A fetched sound, weighing what its strings hold.
fn sound(id: &str, name: &str, path: &str) -> LoadedRow<Row> {
    LoadedRow {
        id: id.to_string(),
        bytes: 64 + id.len() + name.len() + path.len(),
        data: Row { name: name.to_string(), path: path.to_string(), hotkey: None },
    }
}

fn install_test_page(model: &mut PagedSoundModel<Row>, page: u32) {
    let generation = model.generation();
    model.insert_placeholder_page(page, generation);
}

fn install_test_sound(model: &mut PagedSoundModel<Row>, position: u32, row: LoadedRow<Row>) {
    let page = position / PAGE_SIZE as u32;
    install_test_page(model, page);
    let generation = model.generation();
    assert!(model.install_page(page, generation, vec![row]).0);
}

fn name_at(model: &PagedSoundModel<Row>, position: u32) -> String {
    match model.item(position) {
        ItemRef::Missing => panic!("no row at {position}"),
        ItemRef::Placeholder => LOADING_ROW_NAME.to_string(),
        ItemRef::Row(RowSlot::Loaded(row)) => row.data.name.clone(),
        ItemRef::Row(slot) => slot.placeholder_name().expect("placeholder").to_string(),
    }
}

#[test]
fn loaded_page_notifications_are_split_into_frame_sized_chunks() {
    assert_eq!(replacement_chunks(256, 130), [(256, 64), (320, 64), (384, 2)]);
}

#[test]
fn cache_never_keeps_more_than_four_pages() {
    let mut model = PagedSoundModel::<Row>::with_total(10_000);
    for page in 0..10 {
        install_test_page(&mut model, page);
    }
    assert!(model.cached_page_count() <= 4);
    assert!(model.cached_row_count() <= 4 * PAGE_SIZE as u64);
}

#[test]
fn arbitrary_item_lookup_does_not_start_a_page_load() {
    let model = PagedSoundModel::<Row>::with_total(10_000);
    assert!(!matches!(model.item(9_999), ItemRef::Missing));
    assert_eq!(model.cached_page_count(), 0);
}

#[test]
fn rapid_scroll_keeps_only_the_latest_two_deferred_pages() {
    let mut model = PagedSoundModel::<Row>::with_total(156_000);
    model.defer_visible_page(2);
    model.defer_visible_page(300);
    model.defer_visible_page(609);

    assert_eq!(model.deferred_visible_pages(), [300, 609]);
    assert_eq!(model.cached_page_count(), 0);
}

#[test]
fn stale_generation_cannot_replace_current_rows() {
    let mut model = PagedSoundModel::<Row>::with_total(512);
    let first_generation = model.generation();
    model.restart(512);
    assert!(!model.insert_placeholder_page(0, first_generation));
    assert_eq!(model.cached_page_count(), 0);
}

#[test]
fn loaded_page_replaces_placeholder_identity_for_gtk_rebind() {
    let mut model = PagedSoundModel::<Row>::with_total(1);
    assert!(matches!(model.item(0), ItemRef::Placeholder));
    install_test_page(&mut model, 0);
    let generation = model.generation();

    assert!(model.install_page(0, generation, vec![sound("loaded", "Loaded", "/music/loaded.flac")]).0);

    assert!(matches!(model.item(0), ItemRef::Row(RowSlot::Loaded(_))));
    assert_eq!(name_at(&model, 0), "Loaded");
}

#[test]
fn prepared_first_page_is_published_without_a_second_store_request() {
    let mut model = PagedSoundModel::<Row>::with_total(0);
    let generation = model.generation();

    assert!(model.publish_initial_page(generation, 2, vec![sound("prepared", "Prepared", "/music/prepared.flac")]).0);
    assert_eq!(model.n_items(), 2);
    assert_eq!(name_at(&model, 0), "Prepared");
}

#[test]
fn strong_page_cache_stays_under_two_mebibytes_of_row_payload() {
    let mut model = PagedSoundModel::<Row>::with_total(10_000);
    let large_path = format!("/music/{}", "x".repeat(1_200_000));

    for (page, id) in [(0u32, "first"), (1, "second")] {
        install_test_sound(&mut model, page * PAGE_SIZE as u32, sound(id, id, &large_path));
    }

    assert_eq!(model.cached_page_count(), 1);
}

#[test]
fn replacing_a_row_reapplies_the_payload_limit() {
    let mut model = PagedSoundModel::<Row>::with_total(10_000);
    for (page, id) in [(0u32, "first"), (1, "second")] {
        install_test_sound(&mut model, page * PAGE_SIZE as u32, sound(id, id, &format!("/music/{id}.flac")));
    }

    let large = sound("first", "Large", &format!("/music/{}", "x".repeat(2_100_000)));
    assert_eq!(model.replace_at(0, large), Some(ItemsChanged { position: 0, removed: 1, added: 1 }));

    assert!(model.cached_page_count() < 2);
}

#[test]
fn updating_a_loaded_sound_keeps_the_list_published() {
    let mut model = PagedSoundModel::<Row>::with_total(1);
    install_test_sound(&mut model, 0, sound("sound", "Sound", "/music/sound.flac"));

    let mut updated = sound("sound", "Sound", "/music/sound.flac");
    updated.data.hotkey = Some("Ctrl+1".to_string());

    assert!(model.update_loaded_sound(updated).0);
    assert_eq!(model.n_items(), 1);
    let position = model.position_for_id(&"sound".to_string()).expect("cached sound");
    match model.item(position) {
        ItemRef::Row(RowSlot::Loaded(row)) => assert_eq!(row.data.hotkey, Some("Ctrl+1".to_string())),
        _ => panic!("the updated sound is not shown"),
    }
}

#[test]
fn provisional_first_page_is_readable_before_exact_count_arrives() {
    let mut model = PagedSoundModel::<Row>::with_total(0);
    let generation = model.generation();

    assert!(model.publish_initial_page(generation, 1, vec![sound("provisional", "Provisional", "/music/provisional.flac")]).0);
    assert_eq!(model.n_items(), 1);
    assert_eq!(name_at(&model, 0), "Provisional");
}

#[test]
fn exact_total_growing_after_provisional_page_preserves_row_identity() {
    let mut model = PagedSoundModel::<Row>::with_total(0);
    let generation = model.generation();

    assert!(model.publish_initial_page(generation, 1, vec![sound("provisional", "Provisional", "/music/provisional.flac")]).0);
    let before = name_at(&model, 0);

    assert!(model.apply_exact_total(generation, 5).0);
    assert_eq!(model.n_items(), 5);

    let after = name_at(&model, 0);
    assert_eq!(before, after);
}

#[test]
fn exact_total_shrinking_after_provisional_page_shrinks_item_count() {
    let mut model = PagedSoundModel::<Row>::with_total(0);
    let generation = model.generation();

    assert!(model.publish_initial_page(generation, 5, vec![sound("provisional", "Provisional", "/music/provisional.flac")]).0);
    assert!(model.apply_exact_total(generation, 1).0);
    assert_eq!(model.n_items(), 1);
}

#[test]
fn exact_total_matching_provisional_total_sends_no_notification() {
    let mut model = PagedSoundModel::<Row>::with_total(0);
    let generation = model.generation();

    assert!(model.publish_initial_page(generation, 1, vec![sound("provisional", "Provisional", "/music/provisional.flac")]).0);
    assert_eq!(model.apply_exact_total(generation, 1), (true, None));
    assert_eq!(model.n_items(), 1);
}

#[test]
fn count_arriving_first_then_page_installs_without_duplicating_rows() {
    let mut model = PagedSoundModel::<Row>::with_total(0);
    let generation = model.generation();

    assert!(model.apply_exact_total(generation, 1).0);
    assert_eq!(model.n_items(), 1);

    install_test_page(&mut model, 0);
    assert!(model.install_page(0, generation, vec![sound("loaded", "Loaded", "/music/loaded.flac")]).0);

    assert_eq!(model.n_items(), 1);
    assert_eq!(model.cached_row_count(), 1);
}

#[test]
fn stale_generation_cannot_apply_exact_total() {
    let mut model = PagedSoundModel::<Row>::with_total(0);
    let first_generation = model.generation();
    model.restart(3);

    assert!(!model.apply_exact_total(first_generation, 3).0);
    assert_eq!(model.n_items(), 3);
}

#[test]
fn failed_page_can_be_retried_without_unpublishing_the_list() {
    let mut model = PagedSoundModel::<Row>::with_total(1);
    assert!(!matches!(model.item(0), ItemRef::Missing));
    install_test_page(&mut model, 0);
    let generation = model.generation();

    assert!(model.fail_page(0, generation).0);
    assert_eq!(model.n_items(), 1);
    assert_eq!(name_at(&model, 0), "Load failed — activate to retry");

    assert!(model.retry_position(0).0);
    assert_eq!(model.n_items(), 1);
    assert_eq!(name_at(&model, 0), "Loading…");
}

#[test]
fn placeholder_names_say_what_a_row_waits_for() {
    assert_eq!(RowSlot::<Row>::Loading.placeholder_name(), Some(LOADING_ROW_NAME));
    assert_eq!(RowSlot::<Row>::Failed.placeholder_name(), Some(FAILED_ROW_NAME));
    assert_eq!(RowSlot::Loaded(sound("a", "A", "/a")).placeholder_name(), None);
}

#[test]
fn a_reload_reserves_and_asks_for_the_first_page() {
    let mut model = PagedSoundModel::<Row>::with_total(7);
    let plan = model.reload(false);
    assert_eq!(plan.generation, 1);
    assert_eq!(plan.removed, Some(ItemsChanged { position: 0, removed: 7, added: 0 }));
    assert_eq!(
        plan.first_page,
        Some(PageRequest { page: 0, generation: 1, priority: PageLoadPriority::Visible })
    );
    assert_eq!(model.n_items(), 0);
    assert_eq!(model.cached_page_count(), 1);
    assert_eq!(model.cached_row_count(), PAGE_SIZE as u64);
}

#[test]
fn a_reload_with_a_prepared_page_asks_for_nothing() {
    let mut model = PagedSoundModel::<Row>::with_total(0);
    let plan = model.reload(true);
    assert_eq!(plan.removed, None);
    assert_eq!(plan.first_page, None);
    assert_eq!(model.cached_page_count(), 0);
    let effects = model.prepared_page_ready(plan.generation, 600, vec![sound("a", "A", "/a")]);
    assert_eq!(effects.items_changed, [ItemsChanged { position: 0, removed: 0, added: 600 }]);
    assert_eq!(
        effects.requests,
        [PageRequest { page: 1, generation: plan.generation, priority: PageLoadPriority::Prefetch }]
    );
}

#[test]
fn the_first_page_beating_the_count_is_published_as_provisional() {
    let mut model = PagedSoundModel::<Row>::with_total(0);
    let plan = model.reload(false);
    let effects = model.first_page_response(plan.generation, PageResult::Loaded(vec![sound("a", "A", "/a"), sound("b", "B", "/b")]));
    assert_eq!(effects.items_changed, [ItemsChanged { position: 0, removed: 0, added: 2 }]);
    assert!(effects.requests.is_empty());
    assert_eq!(model.n_items(), 2);
    assert_eq!(name_at(&model, 1), "B");
    assert_eq!(model.count_response(plan.generation, 3), (true, Some(ItemsChanged { position: 2, removed: 0, added: 1 })));
}

#[test]
fn a_stale_first_page_changes_nothing() {
    let mut model = PagedSoundModel::<Row>::with_total(0);
    let old = model.reload(false);
    let new = model.reload(false);
    let effects = model.first_page_response(old.generation, PageResult::Loaded(vec![sound("a", "A", "/a")]));
    assert!(effects.items_changed.is_empty() && effects.requests.is_empty());
    assert_eq!(model.n_items(), 0);
    assert_eq!(model.count_response(old.generation, 9), (false, None));
    assert_eq!(model.count_response(new.generation, 9).0, true);
}

#[test]
fn at_most_two_pages_are_fetched_at_once() {
    let mut model = PagedSoundModel::<Row>::with_total(5_000);
    let generation = model.generation();
    assert!(model.ensure_page(3, PageLoadPriority::Visible).is_some());
    assert!(model.ensure_page(7, PageLoadPriority::Visible).is_some());
    assert_eq!(model.ensure_page(9, PageLoadPriority::Visible), None);
    assert_eq!(model.deferred_visible_pages(), [9]);
    assert_eq!(model.ensure_page(11, PageLoadPriority::Prefetch), None);
    assert_eq!(model.deferred_visible_pages(), [9]);

    let rows: Vec<LoadedRow<Row>> = (0..PAGE_SIZE).map(|i| sound(&format!("s{i}"), "S", "/s")).collect();
    let effects = model.page_response(3, generation, PageLoadPriority::Visible, PageResult::Loaded(rows));
    assert_eq!(effects.replacements.len(), 1);
    assert_eq!(effects.replacements[0].start, 3 * PAGE_SIZE as u32);
    assert_eq!(effects.replacements[0].len, PAGE_SIZE as u32);
    assert_eq!(effects.requests, [PageRequest { page: 9, generation, priority: PageLoadPriority::Visible }]);
    assert!(model.deferred_visible_pages().is_empty());
}

#[test]
fn a_full_queue_makes_a_visible_page_wait_behind_a_delayed_drain() {
    let mut model = PagedSoundModel::<Row>::with_total(5_000);
    let generation = model.generation();
    assert!(model.ensure_page(4, PageLoadPriority::Visible).is_some());
    let effects = model.page_response(4, generation, PageLoadPriority::Visible, PageResult::QueueFull);
    assert!(effects.schedule_drain);
    assert_eq!(model.deferred_visible_pages(), [4]);
    assert!(model.drain_deferred_pages().is_empty());
    assert_eq!(
        model.deferred_timer_fired(),
        [PageRequest { page: 4, generation, priority: PageLoadPriority::Visible }]
    );
}

#[test]
fn a_failed_prefetch_is_dropped_and_announced() {
    let mut model = PagedSoundModel::<Row>::with_total(300);
    let generation = model.generation();
    assert!(model.ensure_page(1, PageLoadPriority::Prefetch).is_some());
    let effects = model.page_response(1, generation, PageLoadPriority::Prefetch, PageResult::Failed);
    assert_eq!(effects.replacements.len(), 1);
    assert_eq!((effects.replacements[0].start, effects.replacements[0].len), (256, 44));
    assert_eq!(model.cached_page_count(), 0);
}

#[test]
fn showing_a_position_arms_one_delayed_drain() {
    let mut model = PagedSoundModel::<Row>::with_total(1_000);
    assert!(model.load_position(600));
    assert!(!model.load_position(700));
    assert_eq!(model.deferred_visible_pages(), [2]);
}

#[test]
fn replacements_are_announced_once_for_the_first_rows() {
    let mut model = PagedSoundModel::<Row>::with_total(10);
    let generation = model.generation();
    install_test_page(&mut model, 0);
    let (_, replacement) = model.install_page(0, generation, vec![sound("a", "A", "/a")]);
    let replacement = replacement.expect("a replaced row");
    assert!(replacement.record_first_rows);
    assert!(model.is_current(replacement.generation));
    model.note_first_rows(replacement.generation, replacement.record_first_rows);
    let (_, again) = model.install_page(0, generation, vec![sound("b", "B", "/b")]);
    assert!(!again.expect("a replaced row").record_first_rows);
}

#[test]
fn clearing_unannounces_every_row() {
    let mut model = PagedSoundModel::<Row>::with_total(12);
    install_test_page(&mut model, 0);
    assert_eq!(model.clear(), Some(ItemsChanged { position: 0, removed: 12, added: 0 }));
    assert_eq!(model.n_items(), 0);
    assert_eq!(model.cached_page_count(), 0);
    assert_eq!(model.clear(), None);
}
