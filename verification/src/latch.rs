//! The one-shot initialization latch.
//!
//! The host may issue several scheduler calls before the registry is
//! loaded. Each caller asks the latch whether it should run the load; the
//! latch grants the run to the first caller only, and every caller that
//! arrives later — even while the winner is still loading — is told not
//! to. The host's mutex supplies the waiting; the latch supplies the
//! decision, and with it the guarantee that the store is read once.

use vstd::prelude::*;

verus! {

/// Where initialization stands.
#[derive(Clone, Copy, Debug, PartialEq, Eq, Structural)]
pub enum LatchState {
    /// Nobody has started loading.
    Uninitialized,
    /// One caller is loading.
    Initializing,
    /// The registry is published.
    Ready,
}

/// What a caller tells the latch.
#[derive(Clone, Copy, Debug, PartialEq, Eq, Structural)]
pub enum LatchEvent {
    /// A caller asks to run the load.
    Begin,
    /// The loading caller publishes the registry.
    Finish,
}

/// The latch's transition.
pub open spec fn spec_latch_step(s: LatchState, e: LatchEvent) -> LatchState {
    match e {
        LatchEvent::Begin => if s == LatchState::Uninitialized {
            LatchState::Initializing
        } else {
            s
        },
        LatchEvent::Finish => if s == LatchState::Initializing {
            LatchState::Ready
        } else {
            s
        },
    }
}

/// How many of the events are granted initialization runs, replaying them
/// from `s`.
pub open spec fn spec_runs_granted(s: LatchState, events: Seq<LatchEvent>) -> nat
    decreases events.len(),
{
    if events.len() == 0 {
        0
    } else {
        let granted: nat = if events[0] == LatchEvent::Begin && s == LatchState::Uninitialized {
            1
        } else {
            0
        };
        granted + spec_runs_granted(spec_latch_step(s, events[0]), events.drop_first())
    }
}

/// Replaying any events over the latch grants at most one initialization
/// run, and none once the latch has left the uninitialized state: racing
/// callers cannot read the store twice.
pub proof fn lemma_init_runs_at_most_once(s: LatchState, events: Seq<LatchEvent>)
    ensures
        s == LatchState::Uninitialized ==> spec_runs_granted(s, events) <= 1,
        s != LatchState::Uninitialized ==> spec_runs_granted(s, events) == 0,
    decreases events.len(),
{
    if events.len() > 0 {
        lemma_init_runs_at_most_once(spec_latch_step(s, events[0]), events.drop_first());
    }
}

/// The decision half of the one-shot initialization protocol.
pub struct InitLatch {
    /// Where initialization stands.
    pub state: LatchState,
}

impl InitLatch {
    /// A latch that has seen nobody.
    pub fn new() -> (r: InitLatch)
        ensures
            r.state == LatchState::Uninitialized,
    {
        InitLatch { state: LatchState::Uninitialized }
    }

    /// Asks to run the load. Only the first caller on an uninitialized
    /// latch is granted the run.
    pub fn begin(&mut self) -> (run: bool)
        ensures
            run == (old(self).state == LatchState::Uninitialized),
            final(self).state == spec_latch_step(old(self).state, LatchEvent::Begin),
    {
        if self.state == LatchState::Uninitialized {
            self.state = LatchState::Initializing;
            true
        } else {
            false
        }
    }

    /// Publishes the loaded registry.
    pub fn finish(&mut self)
        requires
            old(self).state == LatchState::Initializing,
        ensures
            final(self).state == LatchState::Ready,
            final(self).state == spec_latch_step(old(self).state, LatchEvent::Finish),
    {
        self.state = LatchState::Ready;
    }

    /// Whether the registry is published.
    pub fn is_ready(&self) -> (r: bool)
        ensures
            r == (self.state == LatchState::Ready),
    {
        self.state == LatchState::Ready
    }
}

} // verus!
