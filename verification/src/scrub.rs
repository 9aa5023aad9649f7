//! The seek bar of the transport bar.
//!
//! While the user drags or keys through the bar, the bar shows the preview
//! position and ignores the engine. A committed seek stays pending until the
//! engine reports the sound near the target, reports another sound, or the
//! pending seek times out; meanwhile the bar shows the target.

use vstd::prelude::*;

verus! {

/// A playback position within this many milliseconds of a pending seek
/// settles it.
pub const SEEK_SETTLE_TOLERANCE_MS: u64 = 100;

/// How long a committed seek may stay pending.
pub const PENDING_SEEK_TIMEOUT_MS: u64 = 800;

/// Length assumed for a sound whose length is unknown.
pub const DEFAULT_SCRUB_DURATION_MS: u64 = 30000;

/// What is moving the seek bar.
#[derive(Clone, Copy, Debug, PartialEq, Eq, Structural)]
pub enum ScrubInput {
    Pointer,
    Keyboard,
}

/// State of an interaction with the seek bar.
#[derive(Clone, Debug, PartialEq, Eq)]
pub struct ScrubInteraction {
    pub active: bool,
    pub input: Option<ScrubInput>,
    pub preview_position_ms: Option<u64>,
    pub pending_seek_position_ms: Option<u64>,
    pub pending_seek_sound_id: Option<String>,
    pub pending_seek_deadline_ms: Option<u64>,
    pub last_committed_position_ms: Option<u64>,
    pub last_committed_sound_id: Option<String>,
}

/// What releasing the seek bar asks of the engine.
#[derive(Clone, Debug, PartialEq, Eq)]
pub enum SeekCommit {
    /// Nothing to seek: no interaction, no track or no position.
    Nothing,
    /// The same seek was already sent; it is not sent again.
    Duplicate,
    /// Seek the sound to the position.
    Seek { sound_id: String, position_ms: u64 },
}

pub open spec fn opt_str_view(o: Option<String>) -> Option<Seq<char>> {
    match o {
        Some(s) => Some(s@),
        None => None,
    }
}

impl ScrubInteraction {
    /// No interaction and nothing pending or remembered.
    pub open spec fn is_idle(&self) -> bool {
        &&& !self.active
        &&& self.input is None
        &&& self.preview_position_ms is None
        &&& self.pending_seek_position_ms is None
        &&& self.pending_seek_sound_id is None
        &&& self.pending_seek_deadline_ms is None
        &&& self.last_committed_position_ms is None
        &&& self.last_committed_sound_id is None
    }

    pub open spec fn no_pending_seek(&self) -> bool {
        &&& self.pending_seek_position_ms is None
        &&& self.pending_seek_sound_id is None
        &&& self.pending_seek_deadline_ms is None
    }

    pub open spec fn same_interaction(&self, other: &Self) -> bool {
        &&& self.active == other.active
        &&& self.input == other.input
        &&& self.preview_position_ms == other.preview_position_ms
    }

    pub open spec fn same_commit_memory(&self, other: &Self) -> bool {
        &&& self.last_committed_position_ms == other.last_committed_position_ms
        &&& opt_str_view(self.last_committed_sound_id) == opt_str_view(
            other.last_committed_sound_id,
        )
    }

    pub open spec fn same_pending(&self, other: &Self) -> bool {
        &&& self.pending_seek_position_ms == other.pending_seek_position_ms
        &&& opt_str_view(self.pending_seek_sound_id) == opt_str_view(other.pending_seek_sound_id)
        &&& self.pending_seek_deadline_ms == other.pending_seek_deadline_ms
    }
}

impl Default for ScrubInteraction {
    fn default() -> (s: Self)
        ensures
            s.is_idle(),
    {
        ScrubInteraction {
            active: false,
            input: None,
            preview_position_ms: None,
            pending_seek_position_ms: None,
            pending_seek_sound_id: None,
            pending_seek_deadline_ms: None,
            last_committed_position_ms: None,
            last_committed_sound_id: None,
        }
    }
}

pub open spec fn resolve_duration_spec(playback: Option<u64>, track: Option<u64>) -> u64 {
    let first = match playback {
        Some(d) => Some(d),
        None => track,
    };
    match first {
        Some(d) => if d > 0 {
            d
        } else {
            DEFAULT_SCRUB_DURATION_MS
        },
        None => DEFAULT_SCRUB_DURATION_MS,
    }
}

/// The sound's length for the seek bar: the engine's, else the track's,
/// else the default; a zero length counts as unknown.
pub fn resolve_scrub_duration_ms(
    playback_duration_ms: Option<u64>,
    track_duration_ms: Option<u64>,
) -> (duration: u64)
    ensures
        duration == resolve_duration_spec(playback_duration_ms, track_duration_ms),
        duration > 0,
{
    let first = match playback_duration_ms {
        Some(d) => Some(d),
        None => track_duration_ms,
    };
    match first {
        Some(d) => if d > 0 {
            d
        } else {
            DEFAULT_SCRUB_DURATION_MS
        },
        None => DEFAULT_SCRUB_DURATION_MS,
    }
}

/// Starts (or continues) an interaction driven by `input`; any pending seek
/// is dropped.
pub fn begin_scrub_interaction_state(interaction: &mut ScrubInteraction, input: ScrubInput)
    ensures
        final(interaction).active,
        final(interaction).input == Some(input),
        final(interaction).preview_position_ms == old(interaction).preview_position_ms,
        final(interaction).no_pending_seek(),
        final(interaction).same_commit_memory(old(interaction)),
{
    if !interaction.active {
        interaction.active = true;
    }
    interaction.input = Some(input);
    interaction.pending_seek_position_ms = None;
    interaction.pending_seek_sound_id = None;
    interaction.pending_seek_deadline_ms = None;
}

/// Records the position the bar was dragged to. An inactive bar starts an
/// interaction with `default_input`, or records nothing without one.
pub fn record_scrub_preview_state(
    interaction: &mut ScrubInteraction,
    position_ms: u64,
    default_input: Option<ScrubInput>,
) -> (recorded: Option<u64>)
    ensures
        !old(interaction).active && default_input is None ==> recorded is None && *final(interaction) == *old(interaction),
        old(interaction).active || default_input is Some ==> {
            &&& recorded == Some(position_ms)
            &&& final(interaction).active
            &&& final(interaction).preview_position_ms == Some(position_ms)
            &&& final(interaction).same_commit_memory(old(interaction))
            &&& (old(interaction).active ==> {
                &&& final(interaction).input == old(interaction).input
                &&& final(interaction).same_pending(old(interaction))
            })
            &&& (!old(interaction).active ==> {
                &&& final(interaction).input == default_input
                &&& final(interaction).no_pending_seek()
            })
        },
{
    if !interaction.active {
        match default_input {
            Some(input) => begin_scrub_interaction_state(interaction, input),
            None => return None,
        }
    }
    interaction.preview_position_ms = Some(position_ms);
    Some(position_ms)
}

/// Ends the interaction and gives the position to seek to: the last preview,
/// else `fallback_position_ms` (the bar's current position). Gives nothing
/// when no interaction is active.
pub fn take_scrub_commit_position(
    interaction: &mut ScrubInteraction,
    fallback_position_ms: Option<u64>,
) -> (position: Option<u64>)
    ensures
        !old(interaction).active ==> position is None && *final(interaction) == *old(interaction),
        old(interaction).active ==> {
            &&& position == (match old(interaction).preview_position_ms {
                Some(p) => Some(p),
                None => fallback_position_ms,
            })
            &&& !final(interaction).active
            &&& final(interaction).input is None
            &&& final(interaction).preview_position_ms is None
            &&& final(interaction).same_pending(old(interaction))
            &&& final(interaction).same_commit_memory(old(interaction))
        },
{
    if !interaction.active {
        return None;
    }
    let position_ms = match interaction.preview_position_ms {
        Some(p) => Some(p),
        None => fallback_position_ms,
    };
    interaction.active = false;
    interaction.input = None;
    interaction.preview_position_ms = None;
    position_ms
}

/// Forgets the interaction, the pending seek and the last commit.
pub fn clear_scrub_interaction_state(interaction: &mut ScrubInteraction)
    ensures
        final(interaction).is_idle(),
{
    interaction.active = false;
    interaction.input = None;
    interaction.preview_position_ms = None;
    interaction.pending_seek_position_ms = None;
    interaction.pending_seek_sound_id = None;
    interaction.pending_seek_deadline_ms = None;
    interaction.last_committed_position_ms = None;
    interaction.last_committed_sound_id = None;
}

pub open spec fn abs_diff_spec(a: u64, b: u64) -> int {
    if a >= b {
        a - b
    } else {
        b - a
    }
}

/// Whether a pending seek is over, given what the engine reports.
pub open spec fn pending_seek_settles(
    interaction: ScrubInteraction,
    playback_sound_id: Seq<char>,
    playback_position_ms: u64,
    now_ms: u64,
) -> bool {
    match interaction.pending_seek_position_ms {
        None => false,
        Some(target) => {
            ||| opt_str_view(interaction.pending_seek_sound_id) != Some(playback_sound_id)
            ||| abs_diff_spec(playback_position_ms, target) <= SEEK_SETTLE_TOLERANCE_MS
            ||| (interaction.pending_seek_deadline_ms matches Some(deadline) && now_ms >= deadline)
        },
    }
}

fn opt_string_is(o: &Option<String>, s: &str) -> (b: bool)
    ensures
        b == (opt_str_view(*o) == Some(s@)),
{
    match o {
        Some(x) => x.as_str().to_owned() == s.to_owned(),
        None => false,
    }
}

/// Drops the pending seek once the engine plays another sound, reaches the
/// target within the tolerance, or the pending seek times out.
pub fn settle_pending_seek_state(
    interaction: &mut ScrubInteraction,
    playback_sound_id: &str,
    playback_position_ms: u64,
    now_ms: u64,
)
    ensures
        pending_seek_settles(*old(interaction), playback_sound_id@, playback_position_ms, now_ms)
            ==> final(interaction).no_pending_seek(),
        !pending_seek_settles(*old(interaction), playback_sound_id@, playback_position_ms, now_ms)
            ==> final(interaction).same_pending(old(interaction)),
        final(interaction).same_interaction(old(interaction)),
        final(interaction).same_commit_memory(old(interaction)),
{
    let pending_seek_ms = match interaction.pending_seek_position_ms {
        Some(p) => p,
        None => return ,
    };
    let pending_sound_matches = opt_string_is(&interaction.pending_seek_sound_id, playback_sound_id);
    if !pending_sound_matches {
        interaction.pending_seek_position_ms = None;
        interaction.pending_seek_sound_id = None;
        interaction.pending_seek_deadline_ms = None;
        return ;
    }
    let diff = if playback_position_ms >= pending_seek_ms {
        playback_position_ms - pending_seek_ms
    } else {
        pending_seek_ms - playback_position_ms
    };
    if diff <= SEEK_SETTLE_TOLERANCE_MS {
        interaction.pending_seek_position_ms = None;
        interaction.pending_seek_sound_id = None;
        interaction.pending_seek_deadline_ms = None;
        return ;
    }
    match interaction.pending_seek_deadline_ms {
        Some(deadline_ms) => {
            if now_ms >= deadline_ms {
                interaction.pending_seek_position_ms = None;
                interaction.pending_seek_sound_id = None;
                interaction.pending_seek_deadline_ms = None;
            }
        },
        None => {},
    }
}

pub open spec fn displayed_spec(interaction: ScrubInteraction, playback_position_ms: u64) -> u64 {
    if interaction.active {
        match interaction.preview_position_ms {
            Some(p) => p,
            None => playback_position_ms,
        }
    } else {
        match interaction.pending_seek_position_ms {
            Some(p) => p,
            None => playback_position_ms,
        }
    }
}

/// The position the time label shows: the preview while interacting, the
/// target while a seek is pending, the engine's position otherwise.
pub fn displayed_scrub_position_ms(interaction: &ScrubInteraction, playback_position_ms: u64) -> (
    shown: u64)
    ensures
        shown == displayed_spec(*interaction, playback_position_ms),
{
    if interaction.active {
        match interaction.preview_position_ms {
            Some(p) => p,
            None => playback_position_ms,
        }
    } else {
        match interaction.pending_seek_position_ms {
            Some(p) => p,
            None => playback_position_ms,
        }
    }
}

/// The bar follows the engine only with no interaction and no pending seek.
pub fn should_sync_scrub_from_playback(interaction: &ScrubInteraction) -> (sync: bool)
    ensures
        sync == (!interaction.active && interaction.pending_seek_position_ms is None),
{
    !interaction.active && interaction.pending_seek_position_ms.is_none()
}

/// Ends a seek-bar interaction on release. The position to seek to is the
/// last preview, else `fallback_position_ms`. A seek identical to the last
/// one sent is not sent again and drops the pending seek; any other becomes
/// the pending seek, due at `now_ms + PENDING_SEEK_TIMEOUT_MS`.
pub fn commit_scrub_seek(
    interaction: &mut ScrubInteraction,
    track_sound_id: Option<String>,
    fallback_position_ms: Option<u64>,
    now_ms: u64,
) -> (commit: SeekCommit)
    requires
        now_ms + PENDING_SEEK_TIMEOUT_MS <= u64::MAX,
    ensures
        ({
            let position = if old(interaction).active {
                match old(interaction).preview_position_ms {
                    Some(p) => Some(p),
                    None => fallback_position_ms,
                }
            } else {
                None
            };
            match (track_sound_id, position) {
                (Some(id), Some(p)) => if old(interaction).last_committed_sound_id matches Some(
                    last,
                ) && last@ == id@ && old(interaction).last_committed_position_ms == Some(p) {
                    &&& commit == SeekCommit::Duplicate
                    &&& final(interaction).no_pending_seek()
                    &&& final(interaction).same_commit_memory(old(interaction))
                } else {
                    &&& commit matches SeekCommit::Seek { sound_id, position_ms } && sound_id@
                        == id@ && position_ms == p
                    &&& final(interaction).last_committed_position_ms == Some(p)
                    &&& opt_str_view(final(interaction).last_committed_sound_id) == Some(id@)
                    &&& final(interaction).pending_seek_position_ms == Some(p)
                    &&& opt_str_view(final(interaction).pending_seek_sound_id) == Some(id@)
                    &&& final(interaction).pending_seek_deadline_ms == Some(
                        (now_ms + PENDING_SEEK_TIMEOUT_MS) as u64,
                    )
                },
                _ => {
                    &&& commit == SeekCommit::Nothing
                    &&& final(interaction).same_pending(old(interaction))
                    &&& final(interaction).same_commit_memory(old(interaction))
                },
            }
        }),
        !final(interaction).active,
        final(interaction).input is None || !old(interaction).active,
{
    let position = take_scrub_commit_position(interaction, fallback_position_ms);
    let (sound_id, position_ms) = match (track_sound_id, position) {
        (Some(id), Some(p)) => (id, p),
        _ => return SeekCommit::Nothing,
    };
    let duplicate = match &interaction.last_committed_sound_id {
        Some(last) => *last == sound_id && interaction.last_committed_position_ms == Some(
            position_ms,
        ),
        None => false,
    };
    if duplicate {
        interaction.pending_seek_sound_id = None;
        interaction.pending_seek_position_ms = None;
        interaction.pending_seek_deadline_ms = None;
        return SeekCommit::Duplicate;
    }
    interaction.last_committed_sound_id = Some(sound_id.clone());
    interaction.last_committed_position_ms = Some(position_ms);
    interaction.pending_seek_sound_id = Some(sound_id.clone());
    interaction.pending_seek_position_ms = Some(position_ms);
    interaction.pending_seek_deadline_ms = Some(now_ms + PENDING_SEEK_TIMEOUT_MS);
    SeekCommit::Seek { sound_id, position_ms }
}

/// The seek could not be sent: nothing is pending.
pub fn seek_dispatch_failed(interaction: &mut ScrubInteraction)
    ensures
        final(interaction).no_pending_seek(),
        final(interaction).same_interaction(old(interaction)),
        final(interaction).same_commit_memory(old(interaction)),
{
    interaction.pending_seek_position_ms = None;
    interaction.pending_seek_sound_id = None;
    interaction.pending_seek_deadline_ms = None;
}

} // verus!
