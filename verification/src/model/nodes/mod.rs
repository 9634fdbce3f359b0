//! The kinds of process and the settings they share.

pub mod pool;
pub mod delay;
pub mod drain;
pub mod event_priority;
pub mod resource;
pub mod source;
pub mod stepper;

pub use delay::Delay;
pub use drain::Drain;
pub use event_priority::process_events_with_priority;
pub use pool::Pool;
pub use source::Source;
pub use stepper::Stepper;

use vstd::prelude::*;

verus! {

/// When a process performs its action on a `Step` event.
#[derive(Clone, Copy, Debug, PartialEq, Eq, Structural)]
pub enum TriggerMode {
    /// Never on `Step`; only on `Trigger`.
    Passive,
    /// Reserved; behaves as `Passive` on `Step`.
    Interactive,
    /// On every `Step`.
    Automatic,
    /// Only on the `Step` of step 1.
    Enabling,
}

/// What a delay does with what it receives.
#[derive(Clone, Copy, Debug, PartialEq, Eq, Structural)]
pub enum DelayAction {
    /// Pass each arrival on after the delay.
    Delay,
    /// Hold arrivals and release a fixed amount at a time.
    Queue,
}

/// What a source, pool or drain does when it acts.
#[derive(Clone, Copy, Debug, PartialEq, Eq, Structural)]
pub enum Action {
    PullAny,
    PullAll,
    PushAny,
    PushAll,
}

/// What a pool does with an offer that would take it over capacity.
#[derive(Clone, Copy, Debug, PartialEq, Eq, Structural)]
pub enum Overflow {
    /// Turn the whole offer down.
    Block,
    /// Take what fits and turn the rest down.
    Drain,
}

/// Whether a process with this trigger mode acts on a `Step` delivered at
/// step `current_step`.
pub open spec fn acts_on_step(mode: TriggerMode, current_step: u64) -> bool {
    match mode {
        TriggerMode::Passive => false,
        TriggerMode::Interactive => false,
        TriggerMode::Automatic => true,
        TriggerMode::Enabling => current_step == 1,
    }
}

/// Decides `acts_on_step`.
pub fn step_triggers(mode: TriggerMode, current_step: u64) -> (r: bool)
    ensures
        r == acts_on_step(mode, current_step),
{
    match mode {
        TriggerMode::Passive => false,
        TriggerMode::Interactive => false,
        TriggerMode::Automatic => true,
        TriggerMode::Enabling => current_step == 1,
    }
}

} // verus!
