//! Decisions of the transport bar: what a playback snapshot shows, whether
//! Continue mode goes on with the next sound, which sound is next, and what
//! the media controls announce.

use vstd::prelude::*;

use crate::scrub::{
    clear_scrub_interaction_state, displayed_scrub_position_ms, resolve_duration_spec,
    resolve_scrub_duration_ms, settle_pending_seek_state, should_sync_scrub_from_playback,
    ScrubInteraction,
};

verus! {

/// How playback goes on after a sound ends.
#[derive(Clone, Copy, Debug, PartialEq, Eq, Structural)]
pub enum PlayMode {
    Default,
    Loop,
    Continue,
}

/// One sound the engine is playing, as a snapshot reports it.
#[derive(Clone, Debug, PartialEq, Eq)]
pub struct PlaybackPosition {
    pub play_id: String,
    pub sound_id: String,
    pub position_ms: u64,
    pub paused: bool,
    pub finished: bool,
    pub duration_ms: Option<u64>,
}

/// The sound the transport bar shows.
#[derive(Clone, Debug, PartialEq, Eq)]
pub struct ActiveTrack {
    pub sound_id: String,
    pub sound_name: Option<String>,
    pub sound_duration_ms: Option<u64>,
    pub play_id: String,
}

/// What the media controls announce.
#[derive(Clone, Debug, PartialEq, Eq)]
pub struct NowPlaying {
    pub id: String,
    pub title: String,
    pub duration_ms: Option<u64>,
    pub paused: bool,
}

/// A sound of the list the previous and next buttons walk through.
#[derive(Clone, Debug, PartialEq, Eq)]
pub struct NavigationSound {
    pub id: String,
    pub name: String,
}

/// Continue mode goes on with the next sound only after a track played, with
/// sounds to go to, and unless the user stopped playback.
pub fn should_continue_playback(
    has_last_track: bool,
    play_mode: PlayMode,
    has_navigation_sounds: bool,
    continue_suppressed: bool,
) -> (go_on: bool)
    ensures
        go_on == (has_last_track && play_mode == PlayMode::Continue && has_navigation_sounds
            && !continue_suppressed),
{
    has_last_track && play_mode == PlayMode::Continue && has_navigation_sounds
        && !continue_suppressed
}

/// A stop suppresses Continue mode for the playback it stopped; a new
/// playback lifts it.
pub fn should_clear_continue_suppression(
    suppressed_play_id: Option<&str>,
    active_play_id: &str,
) -> (clear: bool)
    ensures
        clear == (suppressed_play_id matches Some(s) && s@ != active_play_id@),
{
    match suppressed_play_id {
        Some(s) => s.to_owned() != active_play_id.to_owned(),
        None => false,
    }
}

pub open spec fn opt_view(o: Option<String>) -> Option<Seq<char>> {
    match o {
        Some(s) => Some(s@),
        None => None,
    }
}

/// The announcement for a playing sound: only once its name is known, and
/// only a name resolved for this very playback.
pub open spec fn now_playing_spec(
    position: PlaybackPosition,
    duration_ms: u64,
    active: Option<ActiveTrack>,
    r: Option<NowPlaying>,
) -> bool {
    match active {
        Some(track) => if track.play_id@ == position.play_id@ && track.sound_name is Some {
            r matches Some(now) && now.id@ == position.sound_id@ && now.title@
                == track.sound_name->0@ && now.duration_ms == Some(duration_ms) && now.paused
                == position.paused
        } else {
            r is None
        },
        None => r is None,
    }
}

pub fn now_playing_for(
    position: &PlaybackPosition,
    duration_ms: u64,
    active: &Option<ActiveTrack>,
) -> (now: Option<NowPlaying>)
    ensures
        now_playing_spec(*position, duration_ms, *active, now),
{
    let track = match active {
        Some(t) => t,
        None => return None,
    };
    if track.play_id != position.play_id {
        return None;
    }
    let title = match &track.sound_name {
        Some(name) => name.clone(),
        None => return None,
    };
    Some(
        NowPlaying {
            id: position.sound_id.clone(),
            title,
            duration_ms: Some(duration_ms),
            paused: position.paused,
        },
    )
}

/// The first index of the sound `id` in `sounds`, if any.
pub open spec fn first_index_of(sounds: Seq<NavigationSound>, id: Seq<char>) -> Option<int> {
    if exists|k: int| 0 <= k < sounds.len() && #[trigger] sounds[k].id@ == id {
        Some(
            choose|k: int|
                0 <= k < sounds.len() && #[trigger] sounds[k].id@ == id && forall|m: int|
                    0 <= m < k ==> sounds[m].id@ != id,
        )
    } else {
        None
    }
}

/// Index of the sound `offset` steps away from the current one, wrapping
/// around the list; with no current sound, stepping forward starts at the
/// first sound and stepping back at the last.
pub open spec fn adjacent_index_spec(
    sounds: Seq<NavigationSound>,
    current_id: Option<Seq<char>>,
    offset: int,
) -> int {
    let current = match current_id {
        Some(id) => match first_index_of(sounds, id) {
            Some(k) => k,
            None => if offset >= 0 {
                -1
            } else {
                0
            },
        },
        None => if offset >= 0 {
            -1
        } else {
            0
        },
    };
    (current + offset) % (sounds.len() as int)
}

fn position_of(sounds: &Vec<NavigationSound>, id: &String) -> (index: Option<usize>)
    ensures
        match index {
            Some(k) => first_index_of(sounds@, id@) == Some(k as int) && k < sounds.len(),
            None => first_index_of(sounds@, id@) is None,
        },
{
    let mut k: usize = 0;
    while k < sounds.len()
        invariant
            k <= sounds.len(),
            forall|m: int| 0 <= m < k ==> sounds@[m].id@ != id@,
        decreases sounds.len() - k,
    {
        if sounds[k].id == *id {
            proof {
                let c = choose|c: int|
                    0 <= c < sounds@.len() && #[trigger] sounds@[c].id@ == id@ && forall|m: int|
                        0 <= m < c ==> sounds@[m].id@ != id@;
                assert(sounds@[k as int].id@ == id@);
                if c < k {
                } else if c > k {
                    assert(sounds@[k as int].id@ != id@);
                }
            }
            return Some(k);
        }
        k += 1;
    }
    None
}

/// The index of the sound `offset` steps away from `current_id` in `sounds`.
pub fn adjacent_sound_index(sounds: &Vec<NavigationSound>, current_id: &Option<String>, offset: i32)
    -> (index: Option<usize>)
    requires
        sounds.len() <= i32::MAX,
    ensures
        sounds.len() == 0 ==> index is None,
        sounds.len() > 0 ==> (index matches Some(k) && k as int == adjacent_index_spec(
            sounds@,
            opt_view(*current_id),
            offset as int,
        )),
{
    if sounds.len() == 0 {
        return None;
    }
    let found = match current_id {
        Some(id) => position_of(sounds, id),
        None => None,
    };
    let current: i64 = match found {
        Some(k) => k as i64,
        None => if offset >= 0 {
            -1
        } else {
            0
        },
    };
    let len = sounds.len() as i64;
    let raw = current + offset as i64;
    let len_u = sounds.len() as u64;
    let next: u64 = if raw >= 0 {
        let r = (raw as u64) % len_u;
        proof {
            vstd::arithmetic::div_mod::lemma_fundamental_div_mod(raw as int, len as int);
            assert(r as int == (raw as int) % (len as int));
        }
        r
    } else {
        let n = (-raw) as u64;
        let m = n % len_u;
        proof {
            vstd::arithmetic::div_mod::lemma_fundamental_div_mod(n as int, len as int);
            let q = (n as int) / (len as int);
            if m == 0 {
                assert((raw as int) == (-q) * (len as int)) by (nonlinear_arith)
                    requires
                        n as int == (len as int) * q + 0,
                        raw as int == -(n as int),
                ;
                vstd::arithmetic::div_mod::lemma_fundamental_div_mod_converse(
                    raw as int,
                    len as int,
                    -q,
                    0,
                );
            } else {
                assert((raw as int) == (-q - 1) * (len as int) + ((len as int) - (m as int)))
                    by (nonlinear_arith)
                    requires
                        n as int == (len as int) * q + (m as int),
                        raw as int == -(n as int),
                ;
                vstd::arithmetic::div_mod::lemma_fundamental_div_mod_converse(
                    raw as int,
                    len as int,
                    -q - 1,
                    (len as int) - (m as int),
                );
            }
        }
        if m == 0 {
            0
        } else {
            len_u - m
        }
    };
    Some(next as usize)
}

/// Whether a key moves the seek bar: the arrow, page and home/end keys,
/// keypad versions included (X11 keysyms).
pub open spec fn is_seek_keysym(keyval: u32) -> bool {
    ||| keyval == 0xff51
    ||| keyval == 0xff53
    ||| keyval == 0xff96
    ||| keyval == 0xff98
    ||| keyval == 0xff55
    ||| keyval == 0xff56
    ||| keyval == 0xff50
    ||| keyval == 0xff57
    ||| keyval == 0xff9a
    ||| keyval == 0xff9b
    ||| keyval == 0xff95
    ||| keyval == 0xff9c
}

/// `true` for Left, Right, Page_Up, Page_Down, Home, End and their keypad
/// forms.
pub fn is_seek_key(keyval: u32) -> (seek: bool)
    ensures
        seek == is_seek_keysym(keyval),
{
    keyval == 0xff51 || keyval == 0xff53 || keyval == 0xff96 || keyval == 0xff98 || keyval
        == 0xff55 || keyval == 0xff56 || keyval == 0xff50 || keyval == 0xff57 || keyval == 0xff9a
        || keyval == 0xff9b || keyval == 0xff95 || keyval == 0xff9c
}

/// Tooltip of the play mode button.
pub fn play_mode_tooltip(mode: PlayMode) -> (tooltip: &'static str)
    ensures
        mode == PlayMode::Loop ==> tooltip@ == "Play Mode: Loop"@,
        mode == PlayMode::Continue ==> tooltip@ == "Play Mode: Continue"@,
        mode == PlayMode::Default ==> tooltip@ == "Play Mode: Default"@,
{
    match mode {
        PlayMode::Loop => "Play Mode: Loop",
        PlayMode::Continue => "Play Mode: Continue",
        PlayMode::Default => "Play Mode: Default",
    }
}


/// The play mode button is highlighted unless the mode is the default one.
pub fn play_mode_is_highlighted(mode: PlayMode) -> (highlighted: bool)
    ensures
        highlighted == (mode != PlayMode::Default),
{
    match mode {
        PlayMode::Default => false,
        _ => true,
    }
}

/// Tooltip of the play/pause button: what a click does.
pub fn play_pause_tooltip(is_playing: bool) -> (tooltip: &'static str)
    ensures
        is_playing ==> tooltip@ == "Pause"@,
        !is_playing ==> tooltip@ == "Play"@,
{
    if is_playing {
        "Pause"
    } else {
        "Play"
    }
}

/// What the play/pause control does to the shown sound.
#[derive(Clone, Copy, Debug, PartialEq, Eq, Structural)]
pub enum PlayPauseAction {
    Resume,
    Pause,
}

/// A position of `sound_id` is paused.
pub open spec fn is_paused_in(positions: Seq<PlaybackPosition>, sound_id: Seq<char>) -> bool {
    exists|k: int| 0 <= k < positions.len() && positions[k].sound_id@ == sound_id && positions[k].paused
}

/// The shown sound resumes when one of its positions is paused, and pauses
/// otherwise.
pub fn play_pause_action(track_sound_id: &String, positions: &Vec<PlaybackPosition>) -> (action: PlayPauseAction)
    ensures
        action == if is_paused_in(positions@, track_sound_id@) {
            PlayPauseAction::Resume
        } else {
            PlayPauseAction::Pause
        },
{
    let mut k: usize = 0;
    while k < positions.len()
        invariant
            k <= positions@.len(),
            forall|m: int| 0 <= m < k ==> !(positions@[m].sound_id@ == track_sound_id@ && positions@[m].paused),
        decreases positions@.len() - k,
    {
        if positions[k].sound_id == *track_sound_id && positions[k].paused {
            return PlayPauseAction::Resume;
        }
        k += 1;
    }
    PlayPauseAction::Pause
}


/// Stepping through a non-empty list of sounds always lands on one of them,
/// and wraps around: past the last sound comes the first, before the first
/// the last.
pub proof fn adjacent_steps_wrap(sounds: Seq<NavigationSound>, current_id: Option<Seq<char>>, offset: int)
    requires
        sounds.len() > 0,
    ensures
        0 <= adjacent_index_spec(sounds, current_id, offset) < sounds.len(),
        current_id matches Some(id) && first_index_of(sounds, id) == Some(sounds.len() - 1)
            ==> adjacent_index_spec(sounds, current_id, 1) == 0,
        current_id matches Some(id) && first_index_of(sounds, id) == Some(0int)
            ==> adjacent_index_spec(sounds, current_id, -1) == sounds.len() - 1,
        current_id is None ==> adjacent_index_spec(sounds, current_id, 1) == 0
            && adjacent_index_spec(sounds, current_id, -1) == sounds.len() - 1,
{
    let n = sounds.len() as int;
    vstd::arithmetic::div_mod::lemma_mod_bound(0 + offset, n);
    vstd::arithmetic::div_mod::lemma_mod_self_0(n);
    vstd::arithmetic::div_mod::lemma_small_mod(0, n as nat);
    vstd::arithmetic::div_mod::lemma_small_mod((n - 1) as nat, n as nat);
    vstd::arithmetic::div_mod::lemma_mod_add_multiples_vanish(-1, n);
    let c = match current_id {
        Some(id) => match first_index_of(sounds, id) {
            Some(k) => k,
            None => if offset >= 0 {
                -1
            } else {
                0
            },
        },
        None => if offset >= 0 {
            -1
        } else {
            0
        },
    };
    vstd::arithmetic::div_mod::lemma_mod_bound(c + offset, n);
}

/// What the transport bar shows for a playing sound.
#[derive(Clone, Debug, PartialEq, Eq)]
pub struct PlaybackDisplay {
    /// Index of the shown sound among the snapshot's positions.
    pub position_index: usize,
    /// Whether the play button shows "playing".
    pub playing: bool,
    /// Length used by the seek bar.
    pub duration_ms: u64,
    /// Whether that length is known rather than assumed.
    pub duration_known: bool,
    /// Whether the seek bar follows the engine's position.
    pub sync_progress: bool,
    /// Position the time label shows.
    pub displayed_position_ms: u64,
    /// Whether a new playback started with this snapshot.
    pub new_track: bool,
    /// What the media controls announce, if anything.
    pub now_playing: Option<NowPlaying>,
}

/// What to do with an engine snapshot.
#[derive(Clone, Debug, PartialEq, Eq)]
pub enum SnapshotOutcome {
    /// Continue mode goes on with the next sound.
    PlayNext,
    /// A play the user asked for is on its way; wait for it.
    AwaitExplicitPlay,
    /// Nothing plays any more: show the idle transport bar.
    Idle,
    /// A sound is playing.
    Playing(PlaybackDisplay),
}

/// The transport bar's memory of what it plays.
#[derive(Clone, Debug)]
pub struct TransportState {
    pub active_track: Option<ActiveTrack>,
    pub last_track_sound_id: Option<String>,
    pub continue_suppressed_play_id: Option<String>,
    pub scrub: ScrubInteraction,
}

/// Index of the first position that has not finished.
pub open spec fn first_unfinished(positions: Seq<PlaybackPosition>) -> Option<int> {
    if exists|k: int| 0 <= k < positions.len() && !#[trigger] positions[k].finished {
        Some(
            choose|k: int|
                0 <= k < positions.len() && !#[trigger] positions[k].finished && forall|m: int|
                    0 <= m < k ==> positions[m].finished,
        )
    } else {
        None
    }
}

fn first_unfinished_index(positions: &Vec<PlaybackPosition>) -> (index: Option<usize>)
    ensures
        match index {
            Some(k) => first_unfinished(positions@) == Some(k as int) && k < positions.len(),
            None => first_unfinished(positions@) is None,
        },
{
    let mut k: usize = 0;
    while k < positions.len()
        invariant
            k <= positions.len(),
            forall|m: int| 0 <= m < k ==> positions@[m].finished,
        decreases positions.len() - k,
    {
        if !positions[k].finished {
            proof {
                let c = choose|c: int|
                    0 <= c < positions@.len() && !#[trigger] positions@[c].finished && forall|
                        m: int,
                    |
                        0 <= m < c ==> positions@[m].finished;
                assert(!positions@[k as int].finished);
                if c < k {
                } else if c > k {
                    assert(positions@[k as int].finished);
                }
            }
            return Some(k);
        }
        k += 1;
    }
    None
}

impl TransportState {
    pub fn new() -> (s: Self)
        ensures
            s.active_track is None,
            s.last_track_sound_id is None,
            s.continue_suppressed_play_id is None,
            s.scrub.is_idle(),
    {
        TransportState {
            active_track: None,
            last_track_sound_id: None,
            continue_suppressed_play_id: None,
            scrub: ScrubInteraction::default(),
        }
    }

    /// Stopping everything suppresses Continue mode for the stopped playback.
    pub fn stop_all_playback(&mut self)
        ensures
            final(self).continue_suppressed_play_id == (match old(self).active_track {
                Some(t) => Some(t.play_id),
                None => None,
            }),
            final(self).active_track == old(self).active_track,
            final(self).last_track_sound_id == old(self).last_track_sound_id,
            final(self).scrub == old(self).scrub,
    {
        self.continue_suppressed_play_id = match &self.active_track {
            Some(t) => Some(t.play_id.clone()),
            None => None,
        };
    }

    pub fn is_continue_suppressed(&self) -> (b: bool)
        ensures
            b == self.continue_suppressed_play_id is Some,
    {
        self.continue_suppressed_play_id.is_some()
    }

    pub fn clear_continue_suppression(&mut self)
        ensures
            final(self).continue_suppressed_play_id is None,
            final(self).active_track == old(self).active_track,
            final(self).last_track_sound_id == old(self).last_track_sound_id,
            final(self).scrub == old(self).scrub,
    {
        self.continue_suppressed_play_id = None;
    }

    /// Lifts the suppression once another playback than the stopped one runs.
    pub fn clear_continue_suppression_for_playback(&mut self, play_id: &str)
        ensures
            (old(self).continue_suppressed_play_id matches Some(s) && s@ != play_id@) ==> final(self).continue_suppressed_play_id is None,
            !(old(self).continue_suppressed_play_id matches Some(s) && s@ != play_id@) ==> final(self).continue_suppressed_play_id == old(self).continue_suppressed_play_id,
            final(self).active_track == old(self).active_track,
            final(self).last_track_sound_id == old(self).last_track_sound_id,
            final(self).scrub == old(self).scrub,
    {
        let clear = match &self.continue_suppressed_play_id {
            Some(s) => should_clear_continue_suppression(Some(s.as_str()), play_id),
            None => false,
        };
        if clear {
            self.clear_continue_suppression();
        }
    }

    /// The sound the previous/next buttons step from: the shown track, else
    /// the last one shown.
    pub open spec fn current_sound_id(&self) -> Option<Seq<char>> {
        match self.active_track {
            Some(t) => Some(t.sound_id@),
            None => opt_view(self.last_track_sound_id),
        }
    }

    /// Picks the sound `offset` steps away for the previous/next buttons;
    /// stepping by hand lifts the Continue suppression.
    pub fn play_adjacent_sound(&mut self, sounds: &Vec<NavigationSound>, offset: i32) -> (index:
        Option<usize>)
        requires
            sounds.len() <= i32::MAX,
        ensures
            final(self).continue_suppressed_play_id is None,
            final(self).active_track == old(self).active_track,
            final(self).last_track_sound_id == old(self).last_track_sound_id,
            final(self).scrub == old(self).scrub,
            sounds.len() == 0 ==> index is None,
            sounds.len() > 0 ==> (index matches Some(k) && k as int == adjacent_index_spec(
                sounds@,
                old(self).current_sound_id(),
                offset as int,
            )),
    {
        self.clear_continue_suppression();
        let current = match &self.active_track {
            Some(t) => Some(t.sound_id.clone()),
            None => self.last_track_sound_id.clone(),
        };
        adjacent_sound_index(sounds, &current, offset)
    }

    /// Nothing is playing: Continue mode goes on, or waits for a play the
    /// user asked for, or the bar goes idle.
    fn playback_ended(
        &mut self,
        play_mode: PlayMode,
        has_navigation_sounds: bool,
        explicit_play_pending: bool,
    ) -> (outcome: SnapshotOutcome)
        ensures
            Self::ended_spec(
                *old(self),
                *final(self),
                play_mode,
                has_navigation_sounds,
                explicit_play_pending,
                outcome,
            ),
            final(self).scrub == old(self).scrub,
    {
        let go_on = should_continue_playback(
            self.last_track_sound_id.is_some(),
            play_mode,
            has_navigation_sounds,
            self.is_continue_suppressed(),
        );
        if go_on {
            if explicit_play_pending {
                return SnapshotOutcome::AwaitExplicitPlay;
            }
            return SnapshotOutcome::PlayNext;
        }
        self.clear_continue_suppression();
        self.active_track = None;
        self.last_track_sound_id = None;
        SnapshotOutcome::Idle
    }

    pub open spec fn ended_spec(
        before: Self,
        after: Self,
        play_mode: PlayMode,
        has_navigation_sounds: bool,
        explicit_play_pending: bool,
        outcome: SnapshotOutcome,
    ) -> bool {
        if before.last_track_sound_id is Some && play_mode == PlayMode::Continue
            && has_navigation_sounds && before.continue_suppressed_play_id is None {
            &&& outcome == (if explicit_play_pending {
                SnapshotOutcome::AwaitExplicitPlay
            } else {
                SnapshotOutcome::PlayNext
            })
            &&& after.active_track == before.active_track
            &&& after.last_track_sound_id == before.last_track_sound_id
            &&& after.continue_suppressed_play_id == before.continue_suppressed_play_id
        } else {
            &&& outcome == SnapshotOutcome::Idle
            &&& after.active_track is None
            &&& after.last_track_sound_id is None
            &&& after.continue_suppressed_play_id is None
        }
    }

    /// Applies an engine snapshot. `now_ms` is the monotonic time; the
    /// other arguments are the play mode, whether the sound list offers
    /// sounds to step to, and whether a play the user asked for is pending.
    pub fn handle_snapshot(
        &mut self,
        positions: &Vec<PlaybackPosition>,
        now_ms: u64,
        play_mode: PlayMode,
        has_navigation_sounds: bool,
        explicit_play_pending: bool,
    ) -> (outcome: SnapshotOutcome)
        ensures
            positions.len() == 0 ==> {
                &&& final(self).scrub.is_idle()
                &&& Self::ended_spec(
                    *old(self),
                    *final(self),
                    play_mode,
                    has_navigation_sounds,
                    explicit_play_pending,
                    outcome,
                )
            },
            positions.len() > 0 && first_unfinished(positions@) is None ==> {
                &&& final(self).scrub == old(self).scrub
                &&& Self::ended_spec(
                    *old(self),
                    *final(self),
                    play_mode,
                    has_navigation_sounds,
                    explicit_play_pending,
                    outcome,
                )
            },
            first_unfinished(positions@) matches Some(i) ==> {
                let p = positions@[i];
                let same_play = old(self).active_track matches Some(t) && t.play_id@
                    == p.play_id@;
                let track_duration = if same_play {
                    old(self).active_track->0.sound_duration_ms
                } else {
                    None
                };
                let duration = resolve_duration_spec(p.duration_ms, track_duration);
                &&& outcome matches SnapshotOutcome::Playing(d) && {
                    &&& d.position_index == i
                    &&& d.playing == !p.paused
                    &&& d.duration_ms == duration
                    &&& d.duration_known == (p.duration_ms is Some || track_duration is Some)
                    &&& d.sync_progress == (!final(self).scrub.active
                        && final(self).scrub.pending_seek_position_ms is None)
                    &&& d.displayed_position_ms == crate::scrub::displayed_spec(
                        final(self).scrub,
                        p.position_ms,
                    )
                    &&& d.new_track == !same_play
                    &&& now_playing_spec(p, duration, final(self).active_track, d.now_playing)
                }
                &&& (!same_play ==> {
                    &&& final(self).active_track matches Some(t) && t.sound_id@ == p.sound_id@
                        && t.sound_name is None && t.sound_duration_ms == Some(duration)
                        && t.play_id@ == p.play_id@
                    &&& opt_view(final(self).last_track_sound_id) == Some(p.sound_id@)
                })
                &&& (same_play ==> {
                    &&& final(self).active_track == old(self).active_track
                    &&& final(self).last_track_sound_id == old(self).last_track_sound_id
                })
                &&& ((old(self).continue_suppressed_play_id matches Some(s) && s@ != p.play_id@)
                    ==> final(self).continue_suppressed_play_id is None)
                &&& (!(old(self).continue_suppressed_play_id matches Some(s) && s@
                    != p.play_id@) ==> final(self).continue_suppressed_play_id == old(self).continue_suppressed_play_id)
                &&& crate::scrub::pending_seek_settles(
                    old(self).scrub,
                    p.sound_id@,
                    p.position_ms,
                    now_ms,
                ) ==> final(self).scrub.no_pending_seek()
                &&& !crate::scrub::pending_seek_settles(
                    old(self).scrub,
                    p.sound_id@,
                    p.position_ms,
                    now_ms,
                ) ==> final(self).scrub.same_pending(&old(self).scrub)
                &&& final(self).scrub.same_interaction(&old(self).scrub)
                &&& final(self).scrub.same_commit_memory(&old(self).scrub)
            },
    {
        if positions.len() == 0 {
            clear_scrub_interaction_state(&mut self.scrub);
            return self.playback_ended(play_mode, has_navigation_sounds, explicit_play_pending);
        }
        let index = match first_unfinished_index(positions) {
            Some(i) => i,
            None => {
                return self.playback_ended(play_mode, has_navigation_sounds, explicit_play_pending);
            },
        };
        let position = &positions[index];
        self.clear_continue_suppression_for_playback(position.play_id.as_str());
        settle_pending_seek_state(
            &mut self.scrub,
            position.sound_id.as_str(),
            position.position_ms,
            now_ms,
        );
        let (same_play, track_duration_ms) = match &self.active_track {
            Some(track) => if track.play_id == position.play_id {
                (true, track.sound_duration_ms)
            } else {
                (false, None)
            },
            None => (false, None),
        };
        let duration_ms = resolve_scrub_duration_ms(position.duration_ms, track_duration_ms);
        let sync_progress = should_sync_scrub_from_playback(&self.scrub);
        let displayed = displayed_scrub_position_ms(&self.scrub, position.position_ms);
        if !same_play {
            self.last_track_sound_id = Some(position.sound_id.clone());
            self.active_track = Some(
                ActiveTrack {
                    sound_id: position.sound_id.clone(),
                    sound_name: None,
                    sound_duration_ms: Some(duration_ms),
                    play_id: position.play_id.clone(),
                },
            );
        }
        let now_playing = now_playing_for(position, duration_ms, &self.active_track);
        SnapshotOutcome::Playing(
            PlaybackDisplay {
                position_index: index,
                playing: !position.paused,
                duration_ms,
                duration_known: position.duration_ms.is_some() || track_duration_ms.is_some(),
                sync_progress,
                displayed_position_ms: displayed,
                new_track: !same_play,
                now_playing,
            },
        )
    }

    /// A sound name resolved for the playback `play_id`; it is kept only if
    /// that playback is still the one shown. Returns whether it was kept.
    pub fn apply_resolved_track_name(&mut self, play_id: &str, name: String) -> (kept: bool)
        ensures
            kept == (old(self).active_track matches Some(t) && t.play_id@ == play_id@),
            kept ==> (final(self).active_track matches Some(t) && t.sound_name == Some(name)
                && t.play_id == old(self).active_track->0.play_id && t.sound_id == old(
                self).active_track->0.sound_id && t.sound_duration_ms == old(
                self).active_track->0.sound_duration_ms),
            !kept ==> final(self).active_track == old(self).active_track,
            final(self).last_track_sound_id == old(self).last_track_sound_id,
            final(self).continue_suppressed_play_id == old(self).continue_suppressed_play_id,
            final(self).scrub == old(self).scrub,
    {
        let matches = match &self.active_track {
            Some(track) => track.play_id.as_str().to_owned() == play_id.to_owned(),
            None => false,
        };
        if !matches {
            return false;
        }
        match &mut self.active_track {
            Some(track) => {
                track.sound_name = Some(name);
            },
            None => {},
        }
        true
    }
}


/// Stepping starts from the current sound, found by its id: when `k` is the
/// first position whose sound has the id `id`, stepping `offset` sounds from
/// `id` lands on position `k + offset`, wrapped around the list.
pub proof fn stepping_starts_at_the_sound_with_the_current_id(
    sounds: Seq<NavigationSound>,
    id: Seq<char>,
    k: int,
    offset: int,
)
    requires
        0 <= k < sounds.len(),
        sounds[k].id@ == id,
        forall|m: int| 0 <= m < k ==> sounds[m].id@ != id,
    ensures
        adjacent_index_spec(sounds, Some(id), offset) == (k + offset) % (sounds.len() as int),
{
    let c = choose|c: int|
        0 <= c < sounds.len() && #[trigger] sounds[c].id@ == id && forall|m: int|
            0 <= m < c ==> sounds[m].id@ != id;
    assert(sounds[k].id@ == id);
    if c < k {
    } else if c > k {
        assert(sounds[k].id@ != id);
    }
    assert(first_index_of(sounds, id) == Some(k));
}

/// A current id that no sound has counts as no current sound: stepping
/// forward starts at the first sound, stepping back at the last.
pub proof fn stepping_from_an_id_no_sound_has(sounds: Seq<NavigationSound>, id: Seq<char>, offset: int)
    requires
        forall|m: int| 0 <= m < sounds.len() ==> sounds[m].id@ != id,
    ensures
        adjacent_index_spec(sounds, Some(id), offset) == adjacent_index_spec(sounds, None, offset),
{
    assert(!exists|k: int| 0 <= k < sounds.len() && #[trigger] sounds[k].id@ == id);
}

/// When playback ends, Continue mode goes on (or waits for the play the
/// user asked for) exactly when a track played, the mode is Continue, there
/// are sounds to step to and the user did not stop playback. After the user
/// stopped playback the bar goes idle and the suppression is lifted.
pub proof fn stopped_playback_is_never_continued(
    before: TransportState,
    after: TransportState,
    play_mode: PlayMode,
    has_navigation_sounds: bool,
    explicit_play_pending: bool,
    outcome: SnapshotOutcome,
)
    requires
        TransportState::ended_spec(
            before,
            after,
            play_mode,
            has_navigation_sounds,
            explicit_play_pending,
            outcome,
        ),
    ensures
        before.continue_suppressed_play_id is Some ==> outcome == SnapshotOutcome::Idle
            && after.continue_suppressed_play_id is None,
        (outcome is PlayNext || outcome is AwaitExplicitPlay) <==> (before.last_track_sound_id is Some
            && play_mode == PlayMode::Continue && has_navigation_sounds
            && before.continue_suppressed_play_id is None),
        outcome is AwaitExplicitPlay ==> explicit_play_pending,
        outcome is PlayNext ==> !explicit_play_pending,
{
}

} // verus!
