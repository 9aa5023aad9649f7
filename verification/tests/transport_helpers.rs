use linux_soundboard_ui::format::format_duration;
use linux_soundboard_ui::scrub::{
    begin_scrub_interaction_state, clear_scrub_interaction_state, displayed_scrub_position_ms,
    record_scrub_preview_state, resolve_scrub_duration_ms, settle_pending_seek_state,
    should_sync_scrub_from_playback, take_scrub_commit_position, ScrubInput, ScrubInteraction,
    DEFAULT_SCRUB_DURATION_MS, SEEK_SETTLE_TOLERANCE_MS,
};
use linux_soundboard_ui::transport::{
    is_seek_key, should_clear_continue_suppression, should_continue_playback, PlayMode,
};

const KEY_LEFT: u32 = 0xff51;
const KEY_RIGHT: u32 = 0xff53;
const KEY_KP_LEFT: u32 = 0xff96;
const KEY_KP_RIGHT: u32 = 0xff98;
const KEY_PAGE_UP: u32 = 0xff55;
const KEY_PAGE_DOWN: u32 = 0xff56;
const KEY_HOME: u32 = 0xff50;
const KEY_END: u32 = 0xff57;
const KEY_ESCAPE: u32 = 0xff1b;
const KEY_SPACE: u32 = 0x20;

/// The seek bar's value turned into a position, as the bar does it.
fn scrub_position_ms(value: f64, duration_ms: u64) -> u64 {
    value.clamp(0.0, 1.0).mul_add(duration_ms as f64, 0.0) as u64
}

/// Records a preview dragged to `value` of the bar.
fn record_preview(
    interaction: &mut ScrubInteraction,
    duration_ms: Option<u64>,
    value: f64,
    default_input: Option<ScrubInput>,
) -> Option<u64> {
    let position = scrub_position_ms(value, resolve_scrub_duration_ms(duration_ms, None));
    record_scrub_preview_state(interaction, position, default_input)
}

/// Takes the position to commit, the bar standing at `current_value`.
fn take_commit(interaction: &mut ScrubInteraction, duration_ms: Option<u64>, current_value: f64) -> Option<u64> {
    let fallback = duration_ms.map(|duration_ms| scrub_position_ms(current_value, duration_ms));
    take_scrub_commit_position(interaction, fallback)
}


#[test]
fn helpers_resolve_scrub_duration_prefers_playback_then_track_then_default() {
    assert_eq!(resolve_scrub_duration_ms(Some(12_000), Some(10_000)), 12_000);
    assert_eq!(resolve_scrub_duration_ms(None, Some(10_000)), 10_000);
    assert_eq!(resolve_scrub_duration_ms(None, None), DEFAULT_SCRUB_DURATION_MS);
}


#[test]
fn helpers_begin_scrub_interaction_marks_pointer_active() {
    let mut interaction = ScrubInteraction::default();

    begin_scrub_interaction_state(&mut interaction, ScrubInput::Pointer);

    assert_eq!(
        interaction,
        ScrubInteraction {
            active: true,
            input: Some(ScrubInput::Pointer),
            preview_position_ms: None,
            pending_seek_position_ms: None,
            pending_seek_sound_id: None,
            pending_seek_deadline_ms: None,
            last_committed_position_ms: None,
            last_committed_sound_id: None,
        }
    );
}

#[test]
fn helpers_record_scrub_preview_stores_preview_position() {
    let mut interaction = ScrubInteraction::default();
    begin_scrub_interaction_state(&mut interaction, ScrubInput::Pointer);

    assert_eq!(
        record_preview(&mut interaction, Some(12_000), 0.75, Some(ScrubInput::Pointer)),
        Some(9_000)
    );
    assert_eq!(interaction.preview_position_ms, Some(9_000));
}

#[test]
fn helpers_record_scrub_preview_starts_pointer_interaction_when_inactive() {
    let mut interaction = ScrubInteraction::default();

    assert_eq!(
        record_preview(&mut interaction, Some(12_000), 0.75, Some(ScrubInput::Pointer)),
        Some(9_000)
    );
    assert_eq!(
        interaction,
        ScrubInteraction {
            active: true,
            input: Some(ScrubInput::Pointer),
            preview_position_ms: Some(9_000),
            pending_seek_position_ms: None,
            pending_seek_sound_id: None,
            pending_seek_deadline_ms: None,
            last_committed_position_ms: None,
            last_committed_sound_id: None,
        }
    );
}

#[test]
fn helpers_record_scrub_preview_requires_input_when_inactive() {
    let mut interaction = ScrubInteraction::default();

    assert_eq!(record_preview(&mut interaction, Some(12_000), 0.75, None), None);
    assert_eq!(interaction.preview_position_ms, None);
}

#[test]
fn helpers_commit_scrub_seek_returns_last_preview_and_clears_state() {
    let mut interaction = ScrubInteraction::default();
    begin_scrub_interaction_state(&mut interaction, ScrubInput::Pointer);
    record_preview(&mut interaction, Some(12_000), 0.75, Some(ScrubInput::Pointer));

    assert_eq!(take_commit(&mut interaction, Some(12_000), 0.25), Some(9_000));
    assert_eq!(interaction, ScrubInteraction::default());
}

#[test]
fn helpers_commit_scrub_seek_falls_back_to_current_value() {
    let mut interaction = ScrubInteraction::default();
    begin_scrub_interaction_state(&mut interaction, ScrubInput::Keyboard);

    assert_eq!(take_commit(&mut interaction, Some(12_000), 0.25), Some(3_000));
    assert_eq!(interaction, ScrubInteraction::default());
}

#[test]
fn helpers_second_commit_after_clear_returns_none() {
    let mut interaction = ScrubInteraction::default();
    begin_scrub_interaction_state(&mut interaction, ScrubInput::Pointer);
    record_preview(&mut interaction, Some(10_000), 0.6, Some(ScrubInput::Pointer));

    assert_eq!(take_commit(&mut interaction, Some(10_000), 0.1), Some(6_000));
    assert_eq!(take_commit(&mut interaction, Some(10_000), 0.1), None);
}

#[test]
fn helpers_cancel_scrub_interaction_clears_state() {
    let mut interaction = ScrubInteraction {
        active: true,
        input: Some(ScrubInput::Keyboard),
        preview_position_ms: Some(4_000),
        pending_seek_position_ms: Some(4_000),
        pending_seek_sound_id: Some("sound-1".to_string()),
        pending_seek_deadline_ms: Some(4_800),
        last_committed_position_ms: Some(4_000),
        last_committed_sound_id: Some("sound-1".to_string()),
    };

    clear_scrub_interaction_state(&mut interaction);

    assert_eq!(interaction, ScrubInteraction::default());
}

#[test]
fn helpers_active_interaction_uses_preview_position_and_blocks_backend_sync() {
    let interaction = ScrubInteraction {
        active: true,
        input: Some(ScrubInput::Pointer),
        preview_position_ms: Some(4_000),
        pending_seek_position_ms: None,
        pending_seek_sound_id: None,
        pending_seek_deadline_ms: None,
        last_committed_position_ms: None,
        last_committed_sound_id: None,
    };

    assert_eq!(displayed_scrub_position_ms(&interaction, 2_000), 4_000);
    assert!(!should_sync_scrub_from_playback(&interaction));
}

#[test]
fn helpers_inactive_interaction_uses_backend_position_and_allows_sync() {
    let interaction = ScrubInteraction::default();

    assert_eq!(displayed_scrub_position_ms(&interaction, 2_000), 2_000);
    assert!(should_sync_scrub_from_playback(&interaction));
}

#[test]
fn helpers_pending_seek_blocks_sync_and_keeps_pending_display_position() {
    let interaction = ScrubInteraction {
        active: false,
        input: None,
        preview_position_ms: None,
        pending_seek_position_ms: Some(8_000),
        pending_seek_sound_id: Some("sound-1".to_string()),
        pending_seek_deadline_ms: Some(8_800),
        last_committed_position_ms: Some(8_000),
        last_committed_sound_id: Some("sound-1".to_string()),
    };

    assert_eq!(displayed_scrub_position_ms(&interaction, 1_000), 8_000);
    assert!(!should_sync_scrub_from_playback(&interaction));
}

fn pending_at_ten_seconds() -> ScrubInteraction {
    ScrubInteraction {
        active: false,
        input: None,
        preview_position_ms: None,
        pending_seek_position_ms: Some(10_000),
        pending_seek_sound_id: Some("sound-1".to_string()),
        pending_seek_deadline_ms: Some(10_800),
        last_committed_position_ms: Some(10_000),
        last_committed_sound_id: Some("sound-1".to_string()),
    }
}

#[test]
fn helpers_settle_pending_seek_clears_after_backend_catches_up() {
    let mut interaction = pending_at_ten_seconds();

    settle_pending_seek_state(&mut interaction, "sound-1", 10_400, 10_700);
    assert_eq!(interaction.pending_seek_position_ms, Some(10_000));

    settle_pending_seek_state(&mut interaction, "sound-1", 10_000 + SEEK_SETTLE_TOLERANCE_MS, 10_750);
    assert_eq!(interaction.pending_seek_position_ms, None);
    assert_eq!(interaction.pending_seek_sound_id, None);
    assert_eq!(interaction.pending_seek_deadline_ms, None);
}

#[test]
fn helpers_settle_pending_seek_clears_when_sound_changes() {
    let mut interaction = pending_at_ten_seconds();

    settle_pending_seek_state(&mut interaction, "sound-2", 1_000, 10_700);
    assert_eq!(interaction.pending_seek_position_ms, None);
    assert_eq!(interaction.pending_seek_sound_id, None);
    assert_eq!(interaction.pending_seek_deadline_ms, None);
}

#[test]
fn helpers_settle_pending_seek_clears_when_deadline_expires() {
    let mut interaction = pending_at_ten_seconds();

    settle_pending_seek_state(&mut interaction, "sound-1", 6_000, 10_750);
    assert_eq!(interaction.pending_seek_position_ms, Some(10_000));

    settle_pending_seek_state(&mut interaction, "sound-1", 6_050, 10_800);
    assert_eq!(interaction.pending_seek_position_ms, None);
    assert_eq!(interaction.pending_seek_sound_id, None);
    assert_eq!(interaction.pending_seek_deadline_ms, None);
}

#[test]
fn helpers_duplicate_commit_should_not_create_pending_seek() {
    let mut interaction = ScrubInteraction {
        active: false,
        input: None,
        preview_position_ms: None,
        pending_seek_position_ms: Some(5_000),
        pending_seek_sound_id: Some("sound-1".to_string()),
        pending_seek_deadline_ms: Some(5_800),
        last_committed_position_ms: Some(5_000),
        last_committed_sound_id: Some("sound-1".to_string()),
    };

    // Clear pending state when the commit matches the last dispatched seek.
    if interaction.last_committed_sound_id.as_deref() == Some("sound-1")
        && interaction.last_committed_position_ms == Some(5_000)
    {
        interaction.pending_seek_sound_id = None;
        interaction.pending_seek_position_ms = None;
        interaction.pending_seek_deadline_ms = None;
    }

    assert_eq!(interaction.pending_seek_position_ms, None);
    assert_eq!(interaction.pending_seek_sound_id, None);
    assert_eq!(interaction.pending_seek_deadline_ms, None);
}

#[test]
fn helpers_is_seek_key_accepts_configured_navigation_keys() {
    assert!(is_seek_key(KEY_LEFT));
    assert!(is_seek_key(KEY_RIGHT));
    assert!(is_seek_key(KEY_KP_LEFT));
    assert!(is_seek_key(KEY_KP_RIGHT));
    assert!(is_seek_key(KEY_PAGE_UP));
    assert!(is_seek_key(KEY_PAGE_DOWN));
    assert!(is_seek_key(KEY_HOME));
    assert!(is_seek_key(KEY_END));
    assert!(!is_seek_key(KEY_ESCAPE));
    assert!(!is_seek_key(KEY_SPACE));
}

#[test]
fn helpers_format_duration_formats_minutes_and_seconds() {
    assert_eq!(format_duration(0), "0:00");
    assert_eq!(format_duration(61_000), "1:01");
}

#[test]
fn helpers_resolve_scrub_duration_prefers_live_playback_duration() {
    assert_eq!(resolve_scrub_duration_ms(Some(12_000), Some(8_000)), 12_000);
}

#[test]
fn helpers_resolve_scrub_duration_falls_back_to_track_duration() {
    assert_eq!(resolve_scrub_duration_ms(None, Some(8_000)), 8_000);
}

#[test]
fn helpers_resolve_scrub_duration_uses_default_when_unknown() {
    assert_eq!(resolve_scrub_duration_ms(None, None), DEFAULT_SCRUB_DURATION_MS);
}


#[test]
fn helpers_continue_mode_advances_when_state_allows_it() {
    assert!(should_continue_playback(true, PlayMode::Continue, true, false));
}

#[test]
fn helpers_continue_mode_does_not_advance_after_manual_stop() {
    assert!(!should_continue_playback(true, PlayMode::Continue, true, true));
}

#[test]
fn helpers_continue_suppression_persists_for_same_playback() {
    assert!(!should_clear_continue_suppression(Some("play-1"), "play-1"));
}

#[test]
fn helpers_continue_suppression_clears_when_new_playback_starts() {
    assert!(should_clear_continue_suppression(Some("play-1"), "play-2"));
}
