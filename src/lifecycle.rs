//! The two background loops as state machines: the full-sync loop, which
//! makes one last sync when shutdown comes, and the expiry sweep, which
//! simply stops.
use vstd::prelude::*;

verus! {

#[derive(Debug, Clone, Copy, PartialEq, Eq, Structural)]
pub enum LoopKind {
    /// Writes every resident collection back each period.
    Sync,
    /// Writes back and drops the collections that fell due, each period.
    Sweep,
}

#[derive(Debug, Clone, Copy, PartialEq, Eq, Structural)]
pub enum LoopState {
    Running,
    /// Shutdown was seen; the final sync is under way.
    Draining,
    Stopped,
}

#[derive(Debug, Clone, Copy, PartialEq, Eq, Structural)]
pub enum LoopEvent {
    /// The period elapsed.
    Tick,
    /// The shutdown signal arrived.
    Shutdown,
    /// The final sync finished.
    Drained,
}

#[derive(Debug, Clone, Copy, PartialEq, Eq, Structural)]
pub enum LoopAction {
    SyncAll,
    SweepExpired,
    FinalSync,
    Exit,
    Wait,
}

/// The state a loop moves to, and what it does, on an event. A running loop
/// works on each tick; on shutdown the sync loop drains with one final sync
/// and the sweep loop stops at once; a stopped loop never restarts.
pub fn step(kind: LoopKind, state: LoopState, event: LoopEvent) -> (r: (LoopState, LoopAction))
    ensures
        state == LoopState::Stopped ==> r == (LoopState::Stopped, LoopAction::Wait),
        state == LoopState::Running && event == LoopEvent::Tick ==> r == (
            LoopState::Running,
            if kind == LoopKind::Sync { LoopAction::SyncAll } else { LoopAction::SweepExpired },
        ),
        state == LoopState::Running && event == LoopEvent::Shutdown && kind == LoopKind::Sync ==> r == (
            LoopState::Draining,
            LoopAction::FinalSync,
        ),
        state == LoopState::Running && event == LoopEvent::Shutdown && kind == LoopKind::Sweep ==> r == (
            LoopState::Stopped,
            LoopAction::Exit,
        ),
        state == LoopState::Running && event == LoopEvent::Drained ==> r == (LoopState::Running, LoopAction::Wait),
        state == LoopState::Draining && event == LoopEvent::Drained ==> r == (LoopState::Stopped, LoopAction::Exit),
        state == LoopState::Draining && event != LoopEvent::Drained ==> r == (LoopState::Draining, LoopAction::Wait),
{
    match (state, event) {
        (LoopState::Stopped, _) => (LoopState::Stopped, LoopAction::Wait),
        (LoopState::Running, LoopEvent::Tick) => match kind {
            LoopKind::Sync => (LoopState::Running, LoopAction::SyncAll),
            LoopKind::Sweep => (LoopState::Running, LoopAction::SweepExpired),
        },
        (LoopState::Running, LoopEvent::Shutdown) => match kind {
            LoopKind::Sync => (LoopState::Draining, LoopAction::FinalSync),
            LoopKind::Sweep => (LoopState::Stopped, LoopAction::Exit),
        },
        (LoopState::Running, LoopEvent::Drained) => (LoopState::Running, LoopAction::Wait),
        (LoopState::Draining, LoopEvent::Drained) => (LoopState::Stopped, LoopAction::Exit),
        (LoopState::Draining, _) => (LoopState::Draining, LoopAction::Wait),
    }
}

} // verus!
