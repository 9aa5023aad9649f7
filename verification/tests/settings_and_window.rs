use linux_soundboard_ui::volume::volume_from_entry;
use linux_soundboard_ui::icons::resolve_icon_name;
use linux_soundboard_ui::preferences::{
    cancels_running_analysis, clear_rebuild_pending, format_loudness_status_subtitle,
    loudness_activity_text, loudness_badge_class, loudness_buttons, mic_latency_profile_subtitle,
    should_attach_add_folder_row, should_poll_loudness_summary, try_set_rebuild_pending,
    LoudnessStatusSummary, MicLatencyProfile,
};
use linux_soundboard_ui::stylesheet::keyframe_selector_lists;
use linux_soundboard_ui::transport::{
    play_mode_is_highlighted, play_mode_tooltip, play_pause_action, play_pause_tooltip, PlayMode,
    PlayPauseAction, PlaybackPosition,
};
use linux_soundboard_ui::window::{
    cap_sidebar_width, capture_key_candidates, captured_modifiers, classify_captured_key,
    is_unmodified_delete_shortcut, CaptureModifier, CapturedKey, SnapshotTracker, ALT_MASK,
    CONTROL_MASK, KEY_DELETE, KEY_KP_DELETE, SHIFT_MASK, SUPER_MASK,
};

#[test]
fn native_sidebar_resize_is_capped() {
    assert_eq!(cap_sidebar_width(220), 220);
    assert_eq!(cap_sidebar_width(700), 600);
}

#[test]
fn loudness_poll_pauses_when_dialog_hidden() {
    assert!(should_poll_loudness_summary(true));
    assert!(!should_poll_loudness_summary(false));
}

#[test]
fn rebuild_pending_coalesces_duplicate_schedules() {
    let mut pending = false;

    assert!(try_set_rebuild_pending(&mut pending));
    assert!(!try_set_rebuild_pending(&mut pending));
}

#[test]
fn rebuild_pending_can_be_rearmed_after_clear() {
    let mut pending = false;

    assert!(try_set_rebuild_pending(&mut pending));
    clear_rebuild_pending(&mut pending);
    assert!(try_set_rebuild_pending(&mut pending));
}

#[test]
fn add_folder_row_attach_is_idempotent() {
    assert!(should_attach_add_folder_row(false));
    assert!(!should_attach_add_folder_row(true));
}

#[test]
fn keyframe_selector_lists_are_detected() {
    let css = "@keyframes pulse {\n  0%,\n  100% {\n    opacity: 1;\n  }\n}\n";
    assert_eq!(keyframe_selector_lists(css), vec!["0%,"]);
}

#[test]
fn selector_lists_outside_keyframes_are_fine() {
    let css = "a,\nb {\n  color: red;\n}\n@keyframes spin {\n  from { opacity: 0; }\n  to { opacity: 1; }\n}\n";
    assert!(keyframe_selector_lists(css).is_empty());
}

fn summary(pending: u64, estimated: u64, unavailable: u64, backfill: bool, refinement: bool) -> LoudnessStatusSummary {
    LoudnessStatusSummary {
        pending_count: pending,
        estimated_count: estimated,
        refined_count: 7,
        unavailable_count: unavailable,
        in_flight_backfill: backfill,
        in_flight_refinement: refinement,
    }
}

#[test]
fn loudness_status_reads_its_four_counts() {
    assert_eq!(
        format_loudness_status_subtitle(&summary(3, 12, 0, false, false)),
        "Pending 3 | Estimated 12 | Refined 7 | Unavailable 0"
    );
}

#[test]
fn loudness_badge_says_what_runs() {
    assert_eq!(loudness_activity_text(&summary(0, 0, 0, true, true)), "Analyzing + Refining");
    assert_eq!(loudness_activity_text(&summary(0, 0, 0, true, false)), "Analyzing");
    assert_eq!(loudness_activity_text(&summary(0, 0, 0, false, true)), "Refining");
    assert_eq!(loudness_activity_text(&summary(0, 4, 0, false, false)), "Idle (Refine Available)");
    assert_eq!(loudness_activity_text(&summary(0, 0, 0, false, false)), "Idle");
    assert_eq!(loudness_badge_class(&summary(0, 0, 2, true, false)), "hotkey-badge");
    assert_eq!(loudness_badge_class(&summary(0, 0, 2, false, false)), "warning-label");
    assert_eq!(loudness_badge_class(&summary(0, 0, 0, false, false)), "dim-label");
}

#[test]
fn loudness_buttons_turn_into_stop_while_running() {
    let running = loudness_buttons(&summary(0, 0, 0, false, true));
    assert_eq!((running.analyze_label, running.refine_label), ("Stop", "Stop"));
    assert!(running.analyze_sensitive && running.refine_sensitive);
    let idle = loudness_buttons(&summary(0, 5, 0, false, false));
    assert_eq!((idle.analyze_label, idle.refine_label), ("Analyze", "Refine"));
    assert!(!idle.analyze_sensitive && idle.refine_sensitive);
    assert!(cancels_running_analysis(true, false));
    assert!(!cancels_running_analysis(false, false));
}

#[test]
fn latency_profiles_explain_themselves() {
    assert_eq!(mic_latency_profile_subtitle(MicLatencyProfile::Balanced), "Stable default for most systems");
    assert_eq!(
        mic_latency_profile_subtitle(MicLatencyProfile::Ultra),
        "Lowest queue delay (may auto-fallback to Low if underruns occur)"
    );
}

#[test]
fn delete_needs_no_modifier() {
    assert!(is_unmodified_delete_shortcut(KEY_DELETE, 0));
    assert!(is_unmodified_delete_shortcut(KEY_KP_DELETE, 0));
    // Num Lock (Mod2) is no shortcut modifier.
    assert!(is_unmodified_delete_shortcut(KEY_DELETE, 1 << 4));
    assert!(!is_unmodified_delete_shortcut(KEY_DELETE, CONTROL_MASK));
    assert!(!is_unmodified_delete_shortcut(KEY_DELETE, SUPER_MASK));
    assert!(!is_unmodified_delete_shortcut(0x61, 0));
}

#[test]
fn capture_ignores_modifiers_and_cancels_on_escape() {
    assert_eq!(classify_captured_key("Shift_L"), CapturedKey::Modifier);
    assert_eq!(classify_captured_key("ISO_Level3_Shift"), CapturedKey::Modifier);
    assert_eq!(classify_captured_key("Escape"), CapturedKey::Cancel);
    assert_eq!(classify_captured_key("F5"), CapturedKey::Key);
}

#[test]
fn captured_modifiers_come_in_a_fixed_order() {
    assert_eq!(
        captured_modifiers(SUPER_MASK | SHIFT_MASK | CONTROL_MASK | ALT_MASK),
        [CaptureModifier::Ctrl, CaptureModifier::Alt, CaptureModifier::Shift, CaptureModifier::Super]
    );
    assert!(captured_modifiers(0).is_empty());
}

#[test]
fn keypad_names_are_tried_before_the_reported_name() {
    let mapped = vec!["BackSpace".to_string(), "KP_Add".to_string(), "KP_Add".to_string(), "".to_string()];
    assert_eq!(capture_key_candidates(&"plus".to_string(), &mapped), ["KP_Add", "plus"]);
    let unrelated = vec!["BackSpace".to_string(), "slash".to_string()];
    assert_eq!(capture_key_candidates(&"/".to_string(), &unrelated), ["/"]);
}

#[test]
fn icons_fall_back_to_the_first_available_theme_icon() {
    let fallbacks = vec!["list-add-symbolic", "add-symbolic"];
    assert_eq!(resolve_icon_name("lsb-add-symbolic", &fallbacks, &vec![true, true, true]), "lsb-add-symbolic");
    assert_eq!(resolve_icon_name("lsb-add-symbolic", &fallbacks, &vec![false, false, true]), "add-symbolic");
    assert_eq!(resolve_icon_name("lsb-add-symbolic", &fallbacks, &vec![false, false, false]), "lsb-add-symbolic");
}

fn position(play_id: &str, sound_id: &str, paused: bool, finished: bool) -> PlaybackPosition {
    PlaybackPosition {
        play_id: play_id.to_string(),
        sound_id: sound_id.to_string(),
        position_ms: 0,
        paused,
        finished,
        duration_ms: None,
    }
}

#[test]
fn play_pause_resumes_only_a_paused_sound() {
    let positions = vec![position("p1", "a", false, false), position("p2", "b", true, false)];
    assert_eq!(play_pause_action(&"b".to_string(), &positions), PlayPauseAction::Resume);
    assert_eq!(play_pause_action(&"a".to_string(), &positions), PlayPauseAction::Pause);
    assert_eq!(play_pause_tooltip(true), "Pause");
    assert_eq!(play_pause_tooltip(false), "Play");
    assert_eq!(play_mode_tooltip(PlayMode::Loop), "Play Mode: Loop");
    assert!(!play_mode_is_highlighted(PlayMode::Default));
    assert!(play_mode_is_highlighted(PlayMode::Continue));
}

#[test]
fn a_repeated_snapshot_passes_nothing_on() {
    let mut tracker = SnapshotTracker::new();
    let playing = vec!["a".to_string()];
    let positions = vec![position("p0", "z", false, true), position("p1", "a", false, false)];

    let first = tracker.observe(&playing, &positions);
    assert_eq!(first.playing_ids, Some(vec!["a".to_string()]));
    assert_eq!(first.active_sound_id, Some(Some("a".to_string())));

    let second = tracker.observe(&playing, &positions);
    assert_eq!(second.playing_ids, None);
    assert_eq!(second.active_sound_id, None);

    let stopped = tracker.observe(&Vec::new(), &Vec::new());
    assert_eq!(stopped.playing_ids, Some(Vec::new()));
    assert_eq!(stopped.active_sound_id, Some(None));
}

#[test]
fn typed_volumes_are_whole_percentages() {
    assert_eq!(volume_from_entry("42"), Some(42));
    assert_eq!(volume_from_entry("+7"), Some(7));
    assert_eq!(volume_from_entry("250"), Some(100));
    assert_eq!(volume_from_entry("-5"), Some(0));
    assert_eq!(volume_from_entry("2147483647"), Some(100));
    assert_eq!(volume_from_entry("-2147483648"), Some(0));
    assert_eq!(volume_from_entry("2147483648"), None);
    assert_eq!(volume_from_entry("4.5"), None);
    assert_eq!(volume_from_entry(" 5"), None);
    assert_eq!(volume_from_entry("-"), None);
    assert_eq!(volume_from_entry(""), None);
}
