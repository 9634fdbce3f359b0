//! The numbers each kind of process keeps.

use crate::fixed::{max_int, min_int, Fixed};
use vstd::prelude::*;

verus! {

#[derive(Clone, Copy, Debug, PartialEq, Eq, Structural)]
pub struct StepperState {
    pub current_step: usize,
}

/// What a pool holds, and how much of it is promised to offers still in
/// flight.
#[derive(Clone, Copy, Debug, PartialEq, Eq, Structural)]
pub struct PoolState {
    pub resources: Fixed,
    pub pending_outgoing_resources: Fixed,
}

#[derive(Clone, Copy, Debug, PartialEq, Eq, Structural)]
pub struct SourceState {
    pub resources_produced: Fixed,
}

#[derive(Clone, Copy, Debug, PartialEq, Eq, Structural)]
pub struct DrainState {
    pub resources_consumed: Fixed,
}

/// What a delay has taken in and given out, and how much of what it still
/// holds is promised to offers in flight.
#[derive(Clone, Copy, Debug, PartialEq, Eq, Structural)]
pub struct DelayState {
    pub resources_received: Fixed,
    pub resources_released: Fixed,
    pub pending_outgoing_resources: Fixed,
}

#[derive(Clone, Copy, Debug, PartialEq, Eq, Structural)]
pub struct QueueState {
    pub resources_received: Fixed,
    pub resources_released: Fixed,
}

/// What a holder of `resources` with `pending` promised can still commit.
pub open spec fn available(resources: int, pending: int) -> int {
    max_int(0, resources - pending)
}

impl Default for StepperState {
    fn default() -> (r: Self)
        ensures
            r.current_step == 0,
    {
        StepperState { current_step: 0 }
    }
}

impl Default for PoolState {
    fn default() -> (r: Self)
        ensures
            r.resources@ == 0,
            r.pending_outgoing_resources@ == 0,
    {
        PoolState { resources: Fixed::zero(), pending_outgoing_resources: Fixed::zero() }
    }
}

impl Default for SourceState {
    fn default() -> (r: Self)
        ensures
            r.resources_produced@ == 0,
    {
        SourceState { resources_produced: Fixed::zero() }
    }
}

impl Default for DrainState {
    fn default() -> (r: Self)
        ensures
            r.resources_consumed@ == 0,
    {
        DrainState { resources_consumed: Fixed::zero() }
    }
}

impl Default for DelayState {
    fn default() -> (r: Self)
        ensures
            r.resources_received@ == 0,
            r.resources_released@ == 0,
            r.pending_outgoing_resources@ == 0,
    {
        DelayState {
            resources_received: Fixed::zero(),
            resources_released: Fixed::zero(),
            pending_outgoing_resources: Fixed::zero(),
        }
    }
}

impl Default for QueueState {
    fn default() -> (r: Self)
        ensures
            r.resources_received@ == 0,
            r.resources_released@ == 0,
    {
        QueueState { resources_received: Fixed::zero(), resources_released: Fixed::zero() }
    }
}

/// `available(resources, pending)`, held down to the largest number there
/// is where the difference is beyond it.
pub fn available_between(resources: Fixed, pending: Fixed) -> (r: Fixed)
    ensures
        r@ == min_int(available(resources@, pending@), i64::MAX as int),
{
    match resources.checked_sub(pending) {
        Some(d) => d.max(Fixed::zero()),
        None => {
            if resources.is_negative() {
                Fixed::zero()
            } else {
                Fixed::from_raw(i64::MAX)
            }
        },
    }
}

impl PoolState {
    /// What the pool can still commit to new offers.
    pub fn available_resources(&self) -> (r: Fixed)
        ensures
            r@ == min_int(
                available(self.resources@, self.pending_outgoing_resources@),
                i64::MAX as int,
            ),
    {
        available_between(self.resources, self.pending_outgoing_resources)
    }
}

impl DelayState {
    /// What the delay holds: received less released. Held to the range of the
    /// number type where the difference is beyond it.
    pub fn current_resources(&self) -> (r: Fixed)
        ensures
            r@ == clamp(self.resources_received@ - self.resources_released@),
    {
        saturating_difference(self.resources_received, self.resources_released)
    }

    /// What the delay can still commit to new offers.
    pub fn available_resources(&self) -> (r: Fixed)
        ensures
            r@ == min_int(
                available(
                    clamp(self.resources_received@ - self.resources_released@),
                    self.pending_outgoing_resources@,
                ),
                i64::MAX as int,
            ),
    {
        available_between(self.current_resources(), self.pending_outgoing_resources)
    }
}

impl QueueState {
    /// What the queue holds: received less released.
    pub fn current_resources(&self) -> (r: Fixed)
        ensures
            r@ == clamp(self.resources_received@ - self.resources_released@),
    {
        saturating_difference(self.resources_received, self.resources_released)
    }
}

/// The nearest representable integer.
pub open spec fn clamp(x: int) -> int {
    if x > i64::MAX {
        i64::MAX as int
    } else if x < i64::MIN {
        i64::MIN as int
    } else {
        x
    }
}

/// `a - b`, held to the range of the number type.
pub fn saturating_difference(a: Fixed, b: Fixed) -> (r: Fixed)
    ensures
        r@ == clamp(a@ - b@),
{
    match a.checked_sub(b) {
        Some(d) => d,
        None => {
            if a.is_negative() {
                Fixed::from_raw(i64::MIN)
            } else {
                Fixed::from_raw(i64::MAX)
            }
        },
    }
}

/// The state of a process of any kind.
#[derive(Clone, Copy, Debug, PartialEq, Eq, Structural)]
pub enum ProcessState {
    Source(SourceState),
    Pool(PoolState),
    Drain(DrainState),
    Delay(DelayState),
    Queue(QueueState),
    Stepper(StepperState),
}

/// The mathematical value of a `ProcessState`.
pub enum StateView {
    Source { produced: int },
    Pool { resources: int, pending: int },
    Drain { consumed: int },
    Delay { received: int, released: int, pending: int },
    Queue { received: int, released: int },
    Stepper { current_step: usize },
}

impl View for ProcessState {
    type V = StateView;

    open spec fn view(&self) -> StateView {
        match self {
            ProcessState::Source(s) => StateView::Source { produced: s.resources_produced@ },
            ProcessState::Pool(s) => StateView::Pool {
                resources: s.resources@,
                pending: s.pending_outgoing_resources@,
            },
            ProcessState::Drain(s) => StateView::Drain { consumed: s.resources_consumed@ },
            ProcessState::Delay(s) => StateView::Delay {
                received: s.resources_received@,
                released: s.resources_released@,
                pending: s.pending_outgoing_resources@,
            },
            ProcessState::Queue(s) => StateView::Queue {
                received: s.resources_received@,
                released: s.resources_released@,
            },
            ProcessState::Stepper(s) => StateView::Stepper { current_step: s.current_step },
        }
    }
}

} // verus!
