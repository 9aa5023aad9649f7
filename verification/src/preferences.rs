//! Decisions behind the preferences dialog: coalescing folder-row rebuilds,
//! polling the loudness status while the dialog shows, and how that status
//! reads.

use vstd::prelude::*;
use crate::format::{decimal, push_decimal};

verus! {

/// Appends the characters of `s` to `out`.
pub fn push_str(out: &mut Vec<char>, s: &str)
    ensures
        final(out)@ == old(out)@ + s@,
{
    let chars = crate::text::chars_of(s);
    let ghost start = out@;
    let mut k: usize = 0;
    while k < chars.len()
        invariant
            k <= chars@.len(),
            chars@ == s@,
            out@ == start + chars@.take(k as int),
        decreases chars@.len() - k,
    {
        out.push(chars[k]);
        k += 1;
        proof {
            assert(out@ =~= start + chars@.take(k as int));
        }
    }
    proof {
        assert(chars@.take(k as int) =~= chars@);
    }
}

/// Marks a rebuild of the folder rows as pending. Hands back `true` when
/// the caller is to schedule it, `false` when one is pending already.
pub fn try_set_rebuild_pending(rebuild_pending: &mut bool) -> (scheduled: bool)
    ensures
        scheduled == !*old(rebuild_pending),
        *final(rebuild_pending),
{
    if *rebuild_pending {
        return false;
    }
    *rebuild_pending = true;
    true
}

/// The pending rebuild ran; the next one may be scheduled.
pub fn clear_rebuild_pending(rebuild_pending: &mut bool)
    ensures
        !*final(rebuild_pending),
{
    *rebuild_pending = false;
}

/// The "add folder" row is attached to the folder group unless it already
/// has a parent.
pub fn should_attach_add_folder_row(has_parent: bool) -> (attach: bool)
    ensures
        attach == !has_parent,
{
    !has_parent
}

/// The loudness status is polled only while the dialog shows.
pub fn should_poll_loudness_summary(dialog_visible: bool) -> (poll: bool)
    ensures
        poll == dialog_visible,
{
    dialog_visible
}

/// Where loudness analysis of the library stands.
#[derive(Clone, Copy, Debug, PartialEq, Eq, Structural)]
pub struct LoudnessStatusSummary {
    pub pending_count: u64,
    pub estimated_count: u64,
    pub refined_count: u64,
    pub unavailable_count: u64,
    pub in_flight_backfill: bool,
    pub in_flight_refinement: bool,
}

impl LoudnessStatusSummary {
    /// An analysis or a refinement runs.
    pub open spec fn busy(self) -> bool {
        self.in_flight_backfill || self.in_flight_refinement
    }
}

/// A loudness button doubles as Stop while a run goes on: the click then
/// cancels the run. Hands back whether it does.
pub fn cancels_running_analysis(backfill_in_flight: bool, refinement_in_flight: bool) -> (cancel:
    bool)
    ensures
        cancel == (backfill_in_flight || refinement_in_flight),
{
    backfill_in_flight || refinement_in_flight
}

/// The subtitle of the loudness status row: the four counts.
pub fn format_loudness_status_subtitle(status: &LoudnessStatusSummary) -> (text: String)
    ensures
        text@ == "Pending "@ + decimal(status.pending_count as nat) + " | Estimated "@ + decimal(
            status.estimated_count as nat,
        ) + " | Refined "@ + decimal(status.refined_count as nat) + " | Unavailable "@
            + decimal(status.unavailable_count as nat),
{
    let mut out: Vec<char> = Vec::new();
    push_str(&mut out, "Pending ");
    push_decimal(&mut out, status.pending_count);
    push_str(&mut out, " | Estimated ");
    push_decimal(&mut out, status.estimated_count);
    push_str(&mut out, " | Refined ");
    push_decimal(&mut out, status.refined_count);
    push_str(&mut out, " | Unavailable ");
    push_decimal(&mut out, status.unavailable_count);
    let n = out.len();
    let text = crate::text::string_from_chars(&out, 0, n);
    proof {
        assert(out@.subrange(0, n as int) =~= out@);
    }
    text
}

/// The badge beside the loudness status: what runs, or whether a
/// refinement is available.
pub fn loudness_activity_text(status: &LoudnessStatusSummary) -> (text: &'static str)
    ensures
        text@ == (if status.in_flight_backfill && status.in_flight_refinement {
            "Analyzing + Refining"@
        } else if status.in_flight_backfill {
            "Analyzing"@
        } else if status.in_flight_refinement {
            "Refining"@
        } else if status.estimated_count > 0 {
            "Idle (Refine Available)"@
        } else {
            "Idle"@
        }),
{
    if status.in_flight_backfill && status.in_flight_refinement {
        "Analyzing + Refining"
    } else if status.in_flight_backfill {
        "Analyzing"
    } else if status.in_flight_refinement {
        "Refining"
    } else if status.estimated_count > 0 {
        "Idle (Refine Available)"
    } else {
        "Idle"
    }
}

/// The style class of the badge: busy, warning when some sounds cannot be
/// analysed, dimmed otherwise.
pub fn loudness_badge_class(status: &LoudnessStatusSummary) -> (class: &'static str)
    ensures
        class@ == (if status.busy() {
            "hotkey-badge"@
        } else if status.unavailable_count > 0 {
            "warning-label"@
        } else {
            "dim-label"@
        }),
{
    if status.in_flight_backfill || status.in_flight_refinement {
        "hotkey-badge"
    } else if status.unavailable_count > 0 {
        "warning-label"
    } else {
        "dim-label"
    }
}

/// The label and sensitivity of the Analyze and Refine buttons.
#[derive(Clone, Copy, Debug, PartialEq, Eq)]
pub struct LoudnessButtons {
    pub analyze_label: &'static str,
    pub analyze_sensitive: bool,
    pub refine_label: &'static str,
    pub refine_sensitive: bool,
}

/// While a run goes on both buttons read Stop and stay sensitive; otherwise
/// Analyze is sensitive when sounds wait for analysis, and Refine when
/// estimates can be refined.
pub fn loudness_buttons(status: &LoudnessStatusSummary) -> (buttons: LoudnessButtons)
    ensures
        status.busy() ==> buttons.analyze_label@ == "Stop"@ && buttons.analyze_sensitive
            && buttons.refine_label@ == "Stop"@ && buttons.refine_sensitive,
        !status.busy() ==> buttons.analyze_label@ == "Analyze"@ && buttons.analyze_sensitive == (
        status.pending_count > 0) && buttons.refine_label@ == "Refine"@ && buttons.refine_sensitive
            == (status.estimated_count > 0),
{
    if status.in_flight_backfill || status.in_flight_refinement {
        LoudnessButtons {
            analyze_label: "Stop",
            analyze_sensitive: true,
            refine_label: "Stop",
            refine_sensitive: true,
        }
    } else {
        LoudnessButtons {
            analyze_label: "Analyze",
            analyze_sensitive: status.pending_count > 0,
            refine_label: "Refine",
            refine_sensitive: status.estimated_count > 0,
        }
    }
}

/// How much queueing the microphone passthrough allows.
#[derive(Clone, Copy, Debug, PartialEq, Eq, Structural)]
pub enum MicLatencyProfile {
    Balanced,
    Low,
    Ultra,
}

/// What each latency profile trades.
pub fn mic_latency_profile_subtitle(profile: MicLatencyProfile) -> (text: &'static str)
    ensures
        text@ == match profile {
            MicLatencyProfile::Balanced => "Stable default for most systems"@,
            MicLatencyProfile::Low => "Lower queueing delay with minimal extra CPU"@,
            MicLatencyProfile::Ultra => "Lowest queue delay (may auto-fallback to Low if underruns occur)"@,
        },
{
    match profile {
        MicLatencyProfile::Balanced => "Stable default for most systems",
        MicLatencyProfile::Low => "Lower queueing delay with minimal extra CPU",
        MicLatencyProfile::Ultra => "Lowest queue delay (may auto-fallback to Low if underruns occur)",
    }
}

} // verus!
