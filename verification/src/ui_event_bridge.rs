//! Hand-off points between background services (hotkeys, tray, media
//! controls, the audio engine) and the user interface.
//!
//! Each kind of event has one handler slot. Installing a handler replaces the
//! previous one; delivering an event calls the installed handler, and does
//! nothing when none is installed. The two flags record that the user asked
//! to quit, and that a play the user asked for has not yet shown up in an
//! engine snapshot.

use vstd::prelude::*;

verus! {

/// One replaceable event handler.
pub struct HandlerSlot<F> {
    handler: Option<F>,
}

impl<F> HandlerSlot<F> {
    /// The installed handler, if any.
    pub closed spec fn installed(&self) -> Option<F> {
        self.handler
    }

    pub fn new() -> (s: Self)
        ensures
            s.installed() is None,
    {
        HandlerSlot { handler: None }
    }

    /// Installs `f`, replacing whatever was installed before.
    pub fn install(&mut self, f: F)
        ensures
            final(self).installed() == Some(f),
    {
        self.handler = Some(f);
    }

    /// Removes the installed handler.
    pub fn clear(&mut self)
        ensures
            final(self).installed() is None,
    {
        self.handler = None;
    }

    pub fn is_installed(&self) -> (b: bool)
        ensures
            b == self.installed() is Some,
    {
        self.handler.is_some()
    }

    /// Calls the installed handler with `arg`, which stays installed; returns
    /// whether one was called.
    pub fn deliver<A>(&mut self, arg: A) -> (delivered: bool) where F: FnMut(A)
        requires
            old(self).installed() matches Some(h) ==> call_requires(h, (arg,)),
        ensures
            delivered == old(self).installed() is Some,
            old(self).installed() matches Some(h) ==> call_ensures(h, (arg,), ()),
            final(self).installed() == old(self).installed(),
    {
        match &mut self.handler {
            Some(handler) => {
                handler(arg);
                true
            },
            None => false,
        }
    }

    /// Calls the installed handler, which takes no argument.
    pub fn deliver_signal(&mut self) -> (delivered: bool) where F: FnMut()
        requires
            old(self).installed() matches Some(h) ==> call_requires(h, ()),
        ensures
            delivered == old(self).installed() is Some,
            old(self).installed() matches Some(h) ==> call_ensures(h, (), ()),
            final(self).installed() == old(self).installed(),
    {
        match &mut self.handler {
            Some(handler) => {
                handler();
                true
            },
            None => false,
        }
    }
}

/// The quit and explicit-play flags of the interface thread.
pub struct BridgeFlags {
    quit_requested: bool,
    explicit_play_pending: bool,
}

impl BridgeFlags {
    pub closed spec fn quit_requested(&self) -> bool {
        self.quit_requested
    }

    pub closed spec fn explicit_play_pending(&self) -> bool {
        self.explicit_play_pending
    }

    pub fn new() -> (f: Self)
        ensures
            !f.quit_requested(),
            !f.explicit_play_pending(),
    {
        BridgeFlags { quit_requested: false, explicit_play_pending: false }
    }
}

pub fn set_hotkey_handler<F: FnMut(String)>(slot: &mut HandlerSlot<F>, f: F)
    ensures
        final(slot).installed() == Some(f),
{
    slot.install(f);
}

pub fn set_toast_handler<F: FnMut(String)>(slot: &mut HandlerSlot<F>, f: F)
    ensures
        final(slot).installed() == Some(f),
{
    slot.install(f);
}

pub fn set_group_mode_handler<M, F: FnMut(M)>(slot: &mut HandlerSlot<F>, f: F)
    ensures
        final(slot).installed() == Some(f),
{
    slot.install(f);
}

pub fn set_tray_action_handler<A, F: FnMut(A)>(slot: &mut HandlerSlot<F>, f: F)
    ensures
        final(slot).installed() == Some(f),
{
    slot.install(f);
}

pub fn set_tray_menu_handler<I, F: FnMut(Vec<I>)>(slot: &mut HandlerSlot<F>, f: F)
    ensures
        final(slot).installed() == Some(f),
{
    slot.install(f);
}

pub fn set_tray_enabled_handler<F: FnMut(bool)>(slot: &mut HandlerSlot<F>, f: F)
    ensures
        final(slot).installed() == Some(f),
{
    slot.install(f);
}

pub fn set_now_playing_handler<N, F: FnMut(Option<N>)>(slot: &mut HandlerSlot<F>, f: F)
    ensures
        final(slot).installed() == Some(f),
{
    slot.install(f);
}

pub fn set_mpris_command_handler<C, F: FnMut(C)>(slot: &mut HandlerSlot<F>, f: F)
    ensures
        final(slot).installed() == Some(f),
{
    slot.install(f);
}

pub fn set_loudness_status_refresh_handler<F: FnMut()>(slot: &mut HandlerSlot<F>, f: F)
    ensures
        final(slot).installed() == Some(f),
{
    slot.install(f);
}

/// GTK-thread handler for engine snapshots.
pub fn set_snapshot_handler<S, F: FnMut(S)>(slot: &mut HandlerSlot<F>, f: F)
    ensures
        final(slot).installed() == Some(f),
{
    slot.install(f);
}

/// Hands an engine snapshot to the snapshot handler, if one is installed.
pub fn dispatch_snapshot<S, F: FnMut(S)>(slot: &mut HandlerSlot<F>, snapshot: S) -> (delivered:
    bool)
    requires
        old(slot).installed() matches Some(h) ==> call_requires(h, (snapshot,)),
    ensures
        delivered == old(slot).installed() is Some,
        old(slot).installed() matches Some(h) ==> call_ensures(h, (snapshot,), ()),
        final(slot).installed() == old(slot).installed(),
{
    slot.deliver(snapshot)
}

/// Installs the predicate that decides whether closing the window only hides
/// it to the tray.
pub fn set_close_to_tray_policy<P: Fn() -> bool>(slot: &mut HandlerSlot<P>, policy: P)
    ensures
        final(slot).installed() == Some(policy),
{
    slot.install(policy);
}

/// Closing hides the window to the tray only when the user has not asked to
/// quit, a policy is installed, and the policy says so.
pub fn close_should_hide_to_tray<P: Fn() -> bool>(
    flags: &BridgeFlags,
    policy: &HandlerSlot<P>,
) -> (hide: bool)
    requires
        !flags.quit_requested() ==> (policy.installed() matches Some(p) ==> call_requires(p, ())),
    ensures
        flags.quit_requested() ==> !hide,
        !flags.quit_requested() && policy.installed() is None ==> !hide,
        !flags.quit_requested() ==> (policy.installed() matches Some(p) ==> call_ensures(
            p,
            (),
            hide,
        )),
{
    if flags.quit_requested {
        return false;
    }
    match &policy.handler {
        Some(should_hide) => should_hide(),
        None => false,
    }
}

/// Records that the user asked to quit; from now on closing really closes.
pub fn mark_quit_requested(flags: &mut BridgeFlags)
    ensures
        final(flags).quit_requested(),
        final(flags).explicit_play_pending() == old(flags).explicit_play_pending(),
{
    flags.quit_requested = true;
}

/// Flags a user-initiated play, before it is dispatched.
pub fn mark_explicit_play_pending(flags: &mut BridgeFlags)
    ensures
        final(flags).explicit_play_pending(),
        final(flags).quit_requested() == old(flags).quit_requested(),
{
    flags.explicit_play_pending = true;
}

pub fn clear_explicit_play_pending(flags: &mut BridgeFlags)
    ensures
        !final(flags).explicit_play_pending(),
        final(flags).quit_requested() == old(flags).quit_requested(),
{
    flags.explicit_play_pending = false;
}

/// True while a user-initiated play is out but has not shown up in a snapshot.
pub fn is_explicit_play_pending(flags: &BridgeFlags) -> (pending: bool)
    ensures
        pending == flags.explicit_play_pending(),
{
    flags.explicit_play_pending
}

} // verus!
