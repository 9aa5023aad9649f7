use linux_soundboard_ui::tab_dnd::{FolderDragPayload, SoundTabDragPayload};
use linux_soundboard_ui::transport::{now_playing_for, ActiveTrack, PlaybackPosition};

fn position(paused: bool) -> PlaybackPosition {
    PlaybackPosition {
        play_id: "play-1".to_string(),
        sound_id: "sound-1".to_string(),
        position_ms: 500,
        paused,
        finished: false,
        duration_ms: Some(2_500),
    }
}

fn track(name: Option<&str>, play_id: &str) -> Option<ActiveTrack> {
    Some(ActiveTrack {
        sound_id: "sound-1".to_string(),
        sound_name: name.map(str::to_string),
        sound_duration_ms: Some(2_500),
        play_id: play_id.to_string(),
    })
}

#[test]
fn a_named_sound_is_announced_with_its_name_and_length() {
    let now = now_playing_for(&position(false), 2_500, &track(Some("airhorn.mp3"), "play-1"))
        .expect("a named sound is announced");
    assert_eq!(now.title, "airhorn.mp3");
    assert_eq!(now.id, "sound-1");
    assert_eq!(now.duration_ms, Some(2_500));
    assert!(!now.paused);
}

#[test]
fn a_paused_sound_says_so() {
    let now = now_playing_for(&position(true), 2_500, &track(Some("airhorn.mp3"), "play-1"))
        .expect("a paused sound is still announced");
    assert!(now.paused);
}

/// The name is resolved asynchronously, so the first snapshot for a sound
/// has none yet.
#[test]
fn a_sound_whose_name_is_not_known_yet_announces_nothing() {
    assert_eq!(now_playing_for(&position(false), 2_500, &track(None, "play-1")), None);
    assert_eq!(now_playing_for(&position(false), 2_500, &None), None);
}

/// Guards against announcing the previous sound's name over the new one.
#[test]
fn a_name_left_over_from_another_playback_is_not_used() {
    assert_eq!(now_playing_for(&position(false), 2_500, &track(Some("stale.mp3"), "play-0")), None);
}

#[test]
fn sound_payloads_keep_each_trimmed_id_once() {
    let payload = SoundTabDragPayload {
        source_tab_id: "tab-1".to_string(),
        source_folder: None,
        sound_ids: vec![" a ".to_string(), "b".to_string(), "a".to_string(), "   ".to_string()],
    };
    let normalized = payload.normalized().expect("two ids are left");
    assert_eq!(normalized.sound_ids, ["a", "b"]);
    let again = normalized.clone().normalized().expect("normalizing again keeps them");
    assert_eq!(again.sound_ids, normalized.sound_ids);

    let blank = SoundTabDragPayload {
        source_tab_id: "tab-1".to_string(),
        source_folder: None,
        sound_ids: vec![" ".to_string()],
    };
    assert!(blank.normalized().is_none());
}

#[test]
fn folder_payloads_need_a_root_and_a_folder() {
    let payload = FolderDragPayload {
        root_path: "/music".to_string(),
        relative_path: "albumA".to_string(),
        parent_relative_path: None,
    };
    assert_eq!(payload.clone().validated(), Some(payload.clone()));
    let rootless = FolderDragPayload { root_path: "  ".to_string(), ..payload.clone() };
    assert_eq!(rootless.validated(), None);
    let nameless = FolderDragPayload { relative_path: String::new(), ..payload };
    assert_eq!(nameless.validated(), None);
}
